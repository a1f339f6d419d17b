use orbit_rig::smoothing::{smoothing_factor, BLEND_ONE};
use orbit_rig::third_person::{
    get_raycast_distance, CameraActions, LineOfSightCorrection, OrbitInput, ThirdPersonCamera,
    Turn, CLEARANCE, MAX_DISTANCE, MIN_DISTANCE,
};
use orbit_rig::vector::{Axis, Vec3, TARGET_LIMIT};

const U: i64 = 1_000_000;

fn camera_at(eye: Vec3, target: Vec3) -> ThirdPersonCamera {
    let mut camera = ThirdPersonCamera::default();
    camera.eye = eye;
    camera.target = target;
    camera
}

#[test]
fn default_camera() {
    let camera = ThirdPersonCamera::default();
    assert_eq!(camera.distance, 5 * U as u64);
    assert_eq!(camera.up, Axis::Y);
    assert_eq!(camera.eye, Vec3::zero());
    assert_eq!(camera.secondary_target, None);
}

#[test]
fn follow_carries_eye_with_target() {
    let mut camera = ThirdPersonCamera::default();
    camera.init_transform(Vec3::new(2 * U, 0, 0));
    camera.target = Vec3::new(U, 0, -U);
    camera.follow_target();
    assert_eq!(camera.eye, Vec3::new(3 * U, 0, -U));
}

#[test]
fn follow_ignores_noise_movement() {
    let mut camera = ThirdPersonCamera::default();
    camera.init_transform(Vec3::new(2 * U, 0, 0));
    camera.target = Vec3::new(9, -9, 10);
    camera.follow_target();
    assert_eq!(camera.eye, Vec3::new(2 * U, 0, 10));
}

#[test]
fn init_transform_stores_transform() {
    let mut camera = ThirdPersonCamera::default();
    camera.init_transform(Vec3::new(100 * U, -50 * U, 3));
    assert_eq!(camera.last_eye, Vec3::new(100 * U, -50 * U, 3));
    camera.follow_target();
    assert_eq!(camera.eye, Vec3::new(100 * U, -50 * U, 3));
}

#[test]
fn sight_line_near_target_limit_keeps_full_distance() {
    let edge = TARGET_LIMIT;
    let camera = camera_at(Vec3::new(edge, 0, 0), Vec3::new(edge - 3 * U, 0, 0));
    let r = camera.keep_line_of_sight(None);
    assert_eq!(r.location, Vec3::new(edge + 2 * U, 0, 0));
}

#[test]
fn follow_near_target_limit_moves_with_target() {
    let mut camera = ThirdPersonCamera::default();
    camera.target = Vec3::new(TARGET_LIMIT - U, 0, 0);
    camera.follow_target();
    camera.place_eye_in_valid_position(None);
    let before = camera.eye;
    camera.target = Vec3::new(TARGET_LIMIT, 0, 0);
    camera.follow_target();
    assert_eq!(camera.eye, Vec3::new(before.x + U, before.y, before.z));
}

#[test]
fn zoom_moves_and_clamps_distance() {
    let mut camera = ThirdPersonCamera::default();
    camera.zoom(10 * U);
    assert_eq!(camera.distance, 6 * U as u64);
    camera.zoom(-25 * U);
    assert_eq!(camera.distance, 35 * U as u64 / 10);
    camera.zoom(i64::MAX);
    assert_eq!(camera.distance, MAX_DISTANCE);
    camera.zoom(i64::MIN);
    assert_eq!(camera.distance, MIN_DISTANCE);
}

#[test]
fn zoom_sequence_stays_in_range() {
    let mut camera = ThirdPersonCamera::default();
    for z in [300 * U, -1, -900 * U, 5, 40 * U, i64::MIN, i64::MAX, 0] {
        camera.zoom(z);
        assert!(MIN_DISTANCE <= camera.distance && camera.distance <= MAX_DISTANCE);
    }
}

#[test]
fn raycast_distance_cases() {
    assert_eq!(get_raycast_distance(None, 5 * U as u64), 5 * U);
    assert_eq!(get_raycast_distance(Some(2 * U as u64), 5 * U as u64), 1_990_000);
    assert_eq!(get_raycast_distance(Some(CLEARANCE / 2), 5 * U as u64), -5_000);
    assert_eq!(get_raycast_distance(Some(3_000), 5_000), -7_000);
    assert_eq!(get_raycast_distance(Some(5 * U as u64), 5 * U as u64), 4_990_000);
}

#[test]
fn no_hit_places_eye_at_full_distance() {
    let camera = camera_at(Vec3::new(3 * U, 0, 0), Vec3::zero());
    let r = camera.keep_line_of_sight(None);
    assert_eq!(r.location, Vec3::new(5 * U, 0, 0));
    assert_eq!(r.correction, LineOfSightCorrection::Further);
}

#[test]
fn hit_pulls_eye_in_front_of_obstruction() {
    let camera = camera_at(Vec3::new(0, 3 * U, 4 * U), Vec3::zero());
    let r = camera.keep_line_of_sight(Some(2 * U as u64));
    assert_eq!(r.location, Vec3::new(0, 1_194_000, 1_592_000));
    assert_eq!(r.correction, LineOfSightCorrection::Closer);
    let (x, y, z) = (r.location.x as i128, r.location.y as i128, r.location.z as i128);
    let limit = (2 * U - CLEARANCE as i64) as i128;
    assert!(x * x + y * y + z * z <= limit * limit);
}

#[test]
fn hit_inside_clearance_puts_eye_behind_target() {
    let camera = camera_at(Vec3::new(3 * U, 0, 0), Vec3::zero());
    let r = camera.keep_line_of_sight(Some(CLEARANCE / 2));
    assert_eq!(r.location, Vec3::new(-5_000, 0, 0));
    assert_eq!(r.correction, LineOfSightCorrection::Closer);
}

#[test]
fn degenerate_offset_falls_back_to_z() {
    let camera = camera_at(Vec3::new(U, U, U), Vec3::new(U, U, U));
    let r = camera.keep_line_of_sight(None);
    assert_eq!(r.location, Vec3::new(U, U, 6 * U));
    let ray = camera.line_of_sight_ray();
    assert_eq!(ray.direction, Vec3::new(0, 0, 1));
    assert_eq!(ray.origin, Vec3::new(U, U, U));
    assert_eq!(ray.max_distance, 5 * U as u64);
}

#[test]
fn place_eye_commits_snapshot() {
    let mut camera = camera_at(Vec3::new(3 * U, 0, 0), Vec3::new(0, 0, U));
    let c = camera.place_eye_in_valid_position(Some(U as u64));
    assert_eq!(c, LineOfSightCorrection::Closer);
    assert_eq!(camera.eye, Vec3::new(939_196, 0, 686_935));
    assert_eq!(camera.last_eye, camera.eye);
    assert_eq!(camera.last_target, Vec3::new(0, 0, U));
}

#[test]
fn smoothing_rates_and_factors() {
    let camera = camera_at(Vec3::new(U, 0, -U), Vec3::zero());
    let prev = Vec3::new(0, 0, 0);
    let half = camera.get_camera_transform(10_000, prev, LineOfSightCorrection::Further);
    assert_eq!(half.translation, Vec3::new(U / 2, 0, -U / 2));
    assert_eq!(half.rotation_blend, 450_000);
    let snap = camera.get_camera_transform(10_000, prev, LineOfSightCorrection::Closer);
    assert_eq!(snap.translation, Vec3::new(U, 0, -U));
    let still = camera.get_camera_transform(0, prev, LineOfSightCorrection::Closer);
    assert_eq!(still.translation, prev);
    assert_eq!(still.rotation_blend, 0);
    let long = camera.get_camera_transform(u64::MAX, prev, LineOfSightCorrection::Further);
    assert_eq!(long.translation, Vec3::new(U, 0, -U));
    assert_eq!(long.rotation_blend, BLEND_ONE);
}

#[test]
fn smoothing_converges_without_overshoot() {
    let camera = camera_at(Vec3::new(7, -3 * U, 0), Vec3::zero());
    let mut pose = Vec3::new(-5 * U, 2 * U, 11);
    let mut gap = i64::MAX;
    for _ in 0..2000 {
        pose = camera.get_camera_transform(1_000, pose, LineOfSightCorrection::Further).translation;
        assert!(pose.x <= 7 && pose.y >= -3 * U && pose.z >= 0);
        let g = (7 - pose.x) + (pose.y + 3 * U) + pose.z;
        assert!(g < gap || g == 0);
        gap = g;
    }
    assert_eq!(pose, camera.eye);
}

#[test]
fn blend_factor_values() {
    assert_eq!(smoothing_factor(50, 1_000), 50_000);
    assert_eq!(smoothing_factor(45, 30_000), BLEND_ONE);
}

#[test]
fn yaw_quarter_turn_about_up() {
    let mut camera = camera_at(Vec3::new(4 * U, 0, 0), Vec3::zero());
    let input = OrbitInput {
        yaw: Turn { cos: 0, sin: U },
        pitch: Turn::identity(),
    };
    camera.handle_camera_controls(input);
    assert_eq!(camera.eye, Vec3::new(0, 0, -4 * U));
}

#[test]
fn pitch_lowers_eye_within_band() {
    let mut camera = camera_at(Vec3::new(4 * U, 0, 0), Vec3::zero());
    let input = OrbitInput {
        yaw: Turn::identity(),
        pitch: Turn { cos: 800_000, sin: 600_000 },
    };
    camera.handle_camera_controls(input);
    assert_eq!(camera.eye, Vec3::new(3_200_000, -2_400_000, 0));
    assert_eq!(camera.forward(), Vec3::new(-800_000, 600_000, 0));
}

#[test]
fn pitch_past_band_is_clamped() {
    let mut camera = camera_at(Vec3::new(4 * U, 0, 0), Vec3::zero());
    let input = OrbitInput {
        yaw: Turn::identity(),
        pitch: Turn { cos: 0, sin: U },
    };
    camera.handle_camera_controls(input);
    // held just inside the band, below the target, about 4 units away
    assert_eq!(camera.eye, Vec3::new(348_624, -3_980_780, 0));
}

#[test]
fn tiny_offset_is_not_pitched() {
    let mut camera = camera_at(Vec3::new(7, 0, 7), Vec3::zero());
    let input = OrbitInput {
        yaw: Turn::identity(),
        pitch: Turn { cos: 0, sin: U },
    };
    camera.handle_camera_controls(input);
    assert_eq!(camera.eye, Vec3::new(7, 0, 7));
}

#[test]
fn forward_is_unit_direction() {
    let camera = camera_at(Vec3::new(0, 3 * U, 4 * U), Vec3::zero());
    assert_eq!(camera.forward(), Vec3::new(0, -600_000, -800_000));
    let on_target = camera_at(Vec3::new(U, U, U), Vec3::new(U, U, U));
    assert_eq!(on_target.forward(), Vec3::new(0, 0, -U));
}

#[test]
fn eye_over_target_is_not_aligned() {
    let mut camera = camera_at(Vec3::new(0, 0, 1), Vec3::zero());
    camera.move_eye_to_align_target_with(Vec3::new(U, 0, 0));
    assert_eq!(camera.eye, Vec3::new(0, 0, 1));
}

#[test]
fn update_runs_all_stages() {
    let mut camera = ThirdPersonCamera::default();
    camera.init_transform(Vec3::new(2 * U, 0, 0));
    camera.target = Vec3::new(U, 0, 0);
    let actions = CameraActions { movement: None, zoom: Some(-20 * U) };
    let ray = camera.begin_update(actions);
    assert_eq!(camera.eye, Vec3::new(3 * U, 0, 0));
    assert_eq!(camera.distance, 3 * U as u64);
    assert_eq!(ray.origin, Vec3::new(U, 0, 0));
    assert_eq!(ray.direction, Vec3::new(2 * U, 0, 0));
    let pose = camera.update_transform(20_000, None, Vec3::new(2 * U, 0, 0));
    assert_eq!(camera.eye, Vec3::new(4 * U, 0, 0));
    assert_eq!(camera.last_eye, camera.eye);
    assert_eq!(camera.last_target, Vec3::new(U, 0, 0));
    assert_eq!(pose.translation, Vec3::new(4 * U, 0, 0));
    assert_eq!(pose.rotation_blend, 900_000);
}

#[test]
fn secondary_target_suppresses_yaw() {
    let mut camera = ThirdPersonCamera::default();
    camera.init_transform(Vec3::new(4 * U, 0, 0));
    camera.secondary_target = Some(Vec3::new(-U, 0, 0));
    let yaw_only = OrbitInput {
        yaw: Turn { cos: 0, sin: U },
        pitch: Turn::identity(),
    };
    camera.begin_update(CameraActions { movement: Some(yaw_only), zoom: None });
    assert_eq!(camera.eye, Vec3::new(4 * U, 0, 0));
}

#[test]
fn yaw_keeps_distance_to_target() {
    let mut camera = camera_at(Vec3::new(4 * U, 0, 0), Vec3::zero());
    let input = OrbitInput {
        yaw: Turn { cos: 866_025, sin: 500_000 },
        pitch: Turn::identity(),
    };
    camera.handle_camera_controls(input);
    assert_eq!(camera.eye, Vec3::new(3_464_100, 0, -2_000_000));
    let (x, z) = (camera.eye.x as i128, camera.eye.z as i128);
    let gap = (x * x + z * z - 16 * (U as i128) * (U as i128)).abs();
    assert!(gap < 20 * U as i128 * U as i128 / 1_000_000);
}
