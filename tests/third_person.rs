use orbit_rig::third_person::ThirdPersonCamera;
use orbit_rig::vector::Vec3;

const U: i64 = 1_000_000;

fn assert_nearly_eq(actual: Vec3, expected: Vec3) {
    let dx = (actual.x - expected.x) as f64 / U as f64;
    let dy = (actual.y - expected.y) as f64 / U as f64;
    let dz = (actual.z - expected.z) as f64 / U as f64;
    assert!(
        dx * dx + dy * dy + dz * dz < 1e-5,
        "expected: {:?}, actual: {:?}",
        expected,
        actual
    );
}

#[test]
fn facing_secondary_target_that_is_primary_changes_nothing() {
    let mut camera = ThirdPersonCamera::default();
    let camera_transform = Vec3::new(2 * U, 0, 0);
    let primary_target = Vec3::new(-2 * U, 0, 0);
    let secondary_target = Vec3::new(-2 * U, 0, 0);

    camera.init_transform(camera_transform);
    camera.follow_target();
    camera.target = primary_target;
    camera.move_eye_to_align_target_with(secondary_target);

    assert_nearly_eq(camera.eye, camera_transform);
}

#[test]
fn facing_secondary_target_that_is_aligned_with_primary_changes_nothing() {
    let mut camera = ThirdPersonCamera::default();
    let camera_transform = Vec3::new(2 * U, 0, 0);
    let primary_target = Vec3::new(-2 * U, 0, 0);
    let secondary_target = Vec3::new(-3 * U, 0, 0);

    camera.init_transform(camera_transform);
    camera.follow_target();
    camera.target = primary_target;
    camera.move_eye_to_align_target_with(secondary_target);

    assert_nearly_eq(camera.eye, camera_transform);
}

#[test]
fn faces_secondary_target_that_is_at_right_angle_with_primary() {
    let mut camera = ThirdPersonCamera::default();
    let camera_transform = Vec3::new(2 * U, 0, 0);
    let primary_target = Vec3::new(-2 * U, 0, 0);
    let secondary_target = Vec3::new(-2 * U, 0, -2 * U);

    camera.init_transform(camera_transform);
    camera.follow_target();
    camera.target = primary_target;
    camera.move_eye_to_align_target_with(secondary_target);

    let expected_position = Vec3::new(-2 * U, 0, 4 * U);
    assert_nearly_eq(camera.eye, expected_position);
}

#[test]
fn faces_secondary_target_that_is_at_right_angle_with_primary_ignoring_y() {
    let mut camera = ThirdPersonCamera::default();
    let camera_transform = Vec3::new(2 * U, 2 * U, 0);
    let primary_target = Vec3::new(-2 * U, -3 * U, 0);
    let secondary_target = Vec3::new(-2 * U, -U, -2 * U);

    camera.init_transform(camera_transform);
    camera.follow_target();
    camera.target = primary_target;
    camera.move_eye_to_align_target_with(secondary_target);

    let expected_position = Vec3::new(-2 * U, 2 * U, 4 * U);
    assert_nearly_eq(camera.eye, expected_position);
}

#[test]
fn right_angle_alignment_is_exact() {
    let mut camera = ThirdPersonCamera::default();
    camera.init_transform(Vec3::new(2 * U, 0, 0));
    camera.follow_target();
    camera.target = Vec3::new(-2 * U, 0, 0);
    camera.move_eye_to_align_target_with(Vec3::new(-2 * U, 0, -2 * U));
    assert_eq!(camera.eye, Vec3::new(-2 * U, 0, 4 * U));
}

#[test]
fn secondary_target_above_primary_changes_nothing() {
    let mut camera = ThirdPersonCamera::default();
    camera.eye = Vec3::new(2 * U, U, 0);
    camera.target = Vec3::new(-2 * U, 0, 0);
    camera.move_eye_to_align_target_with(Vec3::new(-2 * U, 7 * U, 5));
    assert_eq!(camera.eye, Vec3::new(2 * U, U, 0));
}

#[test]
fn diagonal_alignment_keeps_horizontal_distance() {
    let mut camera = ThirdPersonCamera::default();
    camera.eye = Vec3::new(3 * U, 0, 0);
    camera.target = Vec3::new(0, 0, 0);
    camera.move_eye_to_align_target_with(Vec3::new(U, 0, U));
    // 3 units away from the secondary direction (1, 0, 1): (-3/sqrt 2, 0, -3/sqrt 2)
    assert_eq!(camera.eye, Vec3::new(-2_121_320, 0, -2_121_320));
}
