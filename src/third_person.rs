//! The third-person camera: follow, secondary alignment, orbit, zoom and
//! line of sight, each stage stated over exact integer geometry.
use vstd::prelude::*;
use crate::smoothing::{ceil_div, blend_factor, step3, smoothing_factor, lerp_toward};
use crate::fixed::{lemma_fsqrt_is, lemma_scaled_sum, lemma_scaled_sq, lemma_turn_identity, lemma_tdiv_sq, lemma_fsqrt_sq_le, UNIT, scaled, signed, tdiv, fsqrt, scale_component, trunc_div, floor_sqrt, lemma_tdiv_bound};
use crate::vector::{
    Axis, Vec3, add3, sub3, len2, in_world, in_target_box, split, join, split_offset,
    offset_point, lemma_len2_join, lemma_join_split, REACH, SNAPSHOT_REACH,
};

verus! {

/// Nearest allowed eye-to-target distance (0.01 world units).
pub const MIN_DISTANCE: u64 = 10_000;

/// Farthest allowed eye-to-target distance (10 world units).
pub const MAX_DISTANCE: u64 = 10_000_000;

/// Space kept between the eye and an obstruction (0.01 world units).
pub const CLEARANCE: u64 = 10_000;

/// Slack, in squared steps, before a shortened sight line counts as pulled
/// in (1e-3 squared world units).
pub const CORRECTION_EPSILON: i128 = 1_000_000_000;

/// Coordinates of a target movement below this many steps are noise
/// (1e-5 world units).
pub const APPROX_ZERO: i64 = 10;

/// Zoom input is scaled by this many parts per million.
pub const ZOOM_SPEED: i64 = 100_000;

/// Cosine, in parts per million, of the steepest elevation of the sight
/// line that a pitch may reach (85 degrees).
pub const PITCH_LIMIT_COS: i64 = 87_156;

/// Sine, in parts per million, of that steepest elevation.
pub const PITCH_LIMIT_SIN: i64 = 996_195;

/// Height, in parts per million of the sight line's length, at which a pitch
/// past the band is held: a little inside the band's edge, so that the
/// rounded result stays in the band and no longer than before.
pub const PITCH_EDGE_SIN: i64 = 995_195;

/// Shortest horizontal length, in steps, of a sight line that a pitch turns
/// (2^14 steps, about 1.6 centimetres); shorter ones are degenerate and left
/// alone.
pub const MIN_PITCH_RADIUS: i64 = 0x4000;

/// How far, in squared parts per million, `cos^2 + sin^2` of a turn may
/// stray from one through rounding.
pub const TURN_TOLERANCE: i64 = 2_000_000;

/// A rotation angle given by its cosine and sine, in parts per million.
#[derive(Clone, Copy, Debug, PartialEq, Eq, Structural)]
pub struct Turn {
    pub cos: i64,
    pub sin: i64,
}

/// One frame of orbit input: a turn about the up axis and a turn about the
/// eye's right axis.
#[derive(Clone, Copy, Debug, PartialEq, Eq, Structural)]
pub struct OrbitInput {
    pub yaw: Turn,
    pub pitch: Turn,
}

/// What the player asked of the camera this frame.
#[derive(Clone, Copy, Debug, PartialEq, Eq, Structural)]
pub struct CameraActions {
    pub movement: Option<OrbitInput>,
    pub zoom: Option<i64>,
}

impl Turn {
    /// A rotation: cosine and sine within one, and `cos^2 + sin^2` equal
    /// to one up to rounding, never above it.
    pub open spec fn valid(&self) -> bool {
        &&& -UNIT <= self.cos <= UNIT
        &&& -UNIT <= self.sin <= UNIT
        &&& UNIT * UNIT - TURN_TOLERANCE <= self.cos * self.cos + self.sin * self.sin
        &&& self.cos * self.cos + self.sin * self.sin <= UNIT * UNIT
    }

    /// The turn through no angle.
    pub fn identity() -> (r: Turn)
        ensures
            r.cos == UNIT,
            r.sin == 0,
    {
        Turn { cos: UNIT, sin: 0 }
    }
}

impl CameraActions {
    pub open spec fn valid(&self) -> bool {
        self.movement matches Some(m) ==> m.yaw.valid() && m.pitch.valid()
    }
}

/// Whether a sight line with horizontal length `r` and height `v` stays on
/// this side of straight up or down (at least two steps horizontally), no
/// steeper than the pitch limit.
pub open spec fn in_pitch_band(r: int, v: int) -> bool {
    r >= 2 && -(PITCH_LIMIT_SIN * r) <= v * PITCH_LIMIT_COS <= PITCH_LIMIT_SIN * r
}

/// The horizontal length and height that a pitch by (`c`, `s`) gives a
/// sight line of horizontal length `r` and height `v`: the turned ones when
/// they stay in the band, else just inside the band's edge on the side that
/// the turn went, at the sight line's length (both rounded toward zero).
pub open spec fn pitch_elevation(r: int, v: int, c: int, s: int) -> (int, int) {
    let r2 = tdiv(r * c + v * s, UNIT as int);
    let v2 = tdiv(v * c - r * s, UNIT as int);
    if in_pitch_band(r2, v2) {
        (r2, v2)
    } else {
        let l = fsqrt(r * r + v * v);
        (l * PITCH_LIMIT_COS / UNIT as int, signed(v2, l * PITCH_EDGE_SIN / UNIT as int))
    }
}

/// An offset given as (horizontal, horizontal, vertical) turned by
/// (`c`, `s`) in its vertical plane, its elevation clamped to the pitch
/// band as `pitch_elevation` states and its horizontal part rescaled to the
/// new horizontal length; unchanged when the horizontal length is below
/// `MIN_PITCH_RADIUS`.
pub open spec fn pitched(o: (int, int, int), c: int, s: int) -> (int, int, int) {
    let h = o.0 * o.0 + o.1 * o.1;
    let r = fsqrt(h);
    if r < MIN_PITCH_RADIUS {
        o
    } else {
        let e = pitch_elevation(r, o.2, c, s);
        (scaled(o.0, e.0 * e.0, h), scaled(o.1, e.0 * e.0, h), e.1)
    }
}

/// An offset given as (horizontal, horizontal, vertical) turned by
/// (`c`, `s`) about the vertical.
pub open spec fn yawed(o: (int, int, int), c: int, s: int) -> (int, int, int) {
    (tdiv(o.0 * c - o.1 * s, UNIT as int), tdiv(o.0 * s + o.1 * c, UNIT as int), o.2)
}

/// The eye orbited about the target: pitched first, then yawed.
pub open spec fn orbited_eye(
    eye: (int, int, int),
    target: (int, int, int),
    up: Axis,
    input: OrbitInput,
) -> (int, int, int) {
    let o = split(sub3(eye, target), up);
    let q = yawed(pitched(o, input.pitch.cos as int, input.pitch.sin as int), input.yaw.cos as int, input.yaw.sin as int);
    add3(target, join(q, up))
}

proof fn lemma_mul_bound(a: int, b: int, x: int, y: int)
    requires
        -x <= a <= x,
        -y <= b <= y,
    ensures
        -(x * y) <= a * b <= x * y,
{
    assert(-(x * y) <= a * b <= x * y) by (nonlinear_arith)
        requires
            -x <= a <= x,
            -y <= b <= y,
    ;
}

/// A coordinate of an offset no longer than `b` is at most `b` in size.
proof fn lemma_coord_within(x: int, y: int, z: int, b: int)
    requires
        x * x + y * y + z * z <= b * b,
        b >= 0,
    ensures
        -b <= x <= b,
        -b <= y <= b,
        -b <= z <= b,
{
    assert(0 <= y * y && 0 <= z * z && 0 <= x * x) by (nonlinear_arith);
    assert(-b <= x <= b) by (nonlinear_arith)
        requires
            x * x <= b * b,
            b >= 0,
    ;
    assert(-b <= y <= b) by (nonlinear_arith)
        requires
            y * y <= b * b,
            b >= 0,
    ;
    assert(-b <= z <= b) by (nonlinear_arith)
        requires
            z * z <= b * b,
            b >= 0,
    ;
}

fn pitch_offset(h1: i64, h2: i64, v: i64, pitch: Turn) -> (r: (i128, i128, i128))
    requires
        h1 * h1 + h2 * h2 + v * v <= REACH * REACH,
        pitch.valid(),
    ensures
        (r.0 as int, r.1 as int, r.2 as int) == pitched(
            (h1 as int, h2 as int, v as int),
            pitch.cos as int,
            pitch.sin as int,
        ),
        r.0 * r.0 + r.1 * r.1 + r.2 * r.2 <= h1 * h1 + h2 * h2 + v * v,
{
    proof {
        lemma_coord_within(h1 as int, h2 as int, v as int, REACH as int);
        lemma_square_bound(h1 as int);
        lemma_square_bound(h2 as int);
    }
    let n: u128 = (h1 as i128 * h1 as i128 + h2 as i128 * h2 as i128) as u128;
    proof {
        assert(0 <= v * v) by (nonlinear_arith);
        assert(n as int <= 0x100_0000_0000_0000);
    }
    let root: u64 = floor_sqrt(n);
    if root < MIN_PITCH_RADIUS as u64 {
        return (h1 as i128, h2 as i128, v as i128);
    }
    if root > 0x2000_0000 {
        assert(root as int * root as int > 0x400_0000_0000_0000) by (nonlinear_arith)
            requires
                root > 0x2000_0000,
        ;
    }
    let r = root as i128;
    assert(n > 0) by (nonlinear_arith)
        requires
            root as int * root as int <= n as int,
            root >= 0x4000,
    ;
    proof {
        assert(0 <= v * v) by (nonlinear_arith);
        lemma_mul_bound(r as int, r as int, 0x2000_0000, 0x2000_0000);
    }
    let (e0, e1) = pitch_band_elevation(r, v as i128, pitch);
    proof {
        assert(0 <= e0 * e0 && 0 <= e1 * e1) by (nonlinear_arith);
    }
    let num: u128 = (e0 * e0) as u128;
    let p1 = scale_component(h1, num, n);
    let p2 = scale_component(h2, num, n);
    proof {
        lemma_scaled_sum(h1 as int, h2 as int, 0, num as int);
        assert(scaled(0, num as int, n as int) == 0) by {
            lemma_fsqrt_is(0, 0);
        }
    }
    (p1, p2, e1)
}

fn pitch_band_elevation(r: i128, v: i128, pitch: Turn) -> (e: (i128, i128))
    requires
        MIN_PITCH_RADIUS <= r <= 0x2000_0000,
        -0x1000_0000 <= v <= 0x1000_0000,
        pitch.valid(),
    ensures
        (e.0 as int, e.1 as int) == pitch_elevation(r as int, v as int, pitch.cos as int, pitch.sin as int),
        e.0 * e.0 + e.1 * e.1 <= r * r + v * v,
{
    let c = pitch.cos as i128;
    let s = pitch.sin as i128;
    proof {
        lemma_mul_bound(r as int, c as int, 0x1_0000_0000, 1_000_000);
        lemma_mul_bound(v as int, s as int, 0x1_0000_0000, 1_000_000);
        lemma_mul_bound(v as int, c as int, 0x1_0000_0000, 1_000_000);
        lemma_mul_bound(r as int, s as int, 0x1_0000_0000, 1_000_000);
    }
    let a = r * c + v * s;
    let b = v * c - r * s;
    let r2 = trunc_div(a, UNIT as i128);
    let v2 = trunc_div(b, UNIT as i128);
    proof {
        lemma_tdiv_bound(a as int, UNIT as int);
        lemma_tdiv_bound(b as int, UNIT as int);
        lemma_mul_bound(PITCH_LIMIT_SIN as int, r2 as int, 0x100_0000, 0x4_0000_0000);
        lemma_mul_bound(v2 as int, PITCH_LIMIT_COS as int, 0x4_0000_0000, 0x100_0000);
    }
    let limit = PITCH_LIMIT_SIN as i128 * r2;
    let height = v2 * PITCH_LIMIT_COS as i128;
    if r2 >= 2 && -limit <= height && height <= limit {
        proof {
            lemma_tdiv_sq(a as int, UNIT as int);
            lemma_tdiv_sq(b as int, UNIT as int);
            let (ri, vi, ci, si) = (r as int, v as int, c as int, s as int);
            lemma_turn_identity(ri, vi, ci, -si);
            assert(ri * ci - vi * (-si) == a as int && ri * (-si) + vi * ci == b as int)
                by (nonlinear_arith)
                requires
                    a as int == ri * ci + vi * si,
                    b as int == vi * ci - ri * si,
            ;
            assert((-si) * (-si) == si * si) by (nonlinear_arith);
            let (aa, bb, rr) = (a as int, b as int, (ri * ri + vi * vi));
            assert(0 <= ri * ri + vi * vi) by (nonlinear_arith);
            let (x, y) = (r2 as int, v2 as int);
            assert(x * x + y * y <= rr) by (nonlinear_arith)
                requires
                    1_000_000_000_000 * (x * x) <= aa * aa,
                    1_000_000_000_000 * (y * y) <= bb * bb,
                    aa * aa + bb * bb == rr * (ci * ci + si * si),
                    ci * ci + si * si <= 1_000_000_000_000,
                    rr >= 0,
            ;
        }
        return (r2, v2);
    }
    proof {
        lemma_mul_bound(r as int, r as int, 0x2000_0000, 0x2000_0000);
        lemma_mul_bound(v as int, v as int, 0x1000_0000, 0x1000_0000);
        assert(0 <= r * r && 0 <= v * v) by (nonlinear_arith);
    }
    let n: u128 = (r * r + v * v) as u128;
    assert(n as int <= 0x1000_0000_0000_0000);
    let root: u64 = floor_sqrt(n);
    if root > 0x4000_0000 {
        assert(root as int * root as int > 0x1000_0000_0000_0000) by (nonlinear_arith)
            requires
                root > 0x4000_0000,
        ;
    }
    let l = root as i128;
    assert(0 <= l * 995_195 <= 0x10_0000_0000_0000_0000 && 0 <= l * 87_156 <= 0x10_0000_0000_0000_0000)
        by (nonlinear_arith)
        requires
            0 <= l <= 0x4000_0000,
    ;
    let lc = l * PITCH_LIMIT_COS as i128;
    let ls = l * PITCH_EDGE_SIN as i128;
    let r3 = lc / UNIT as i128;
    let m = ls / UNIT as i128;
    let v3 = if v2 < 0 { -m } else { m };
    proof {
        let (li, x, y) = (l as int, r3 as int, m as int);
        vstd::arithmetic::div_mod::lemma_fundamental_div_mod(lc as int, UNIT as int);
        vstd::arithmetic::div_mod::lemma_fundamental_div_mod(ls as int, UNIT as int);
        assert(x * x + y * y <= li * li) by (nonlinear_arith)
            requires
                0 <= 1_000_000 * x <= li * 87_156,
                0 <= 1_000_000 * y <= li * 995_195,
                li >= 0,
        ;
        assert(v3 * v3 == m * m) by (nonlinear_arith)
            requires
                v3 == m || v3 == -m,
        ;
    }
    (r3, v3)
}

fn yaw_offset(o: (i128, i128, i128), yaw: Turn) -> (r: (i128, i128, i128))
    requires
        -0x4_0000_0000_0000_0000 <= o.0 <= 0x4_0000_0000_0000_0000,
        -0x4_0000_0000_0000_0000 <= o.1 <= 0x4_0000_0000_0000_0000,
        -0x4_0000_0000_0000_0000 <= o.2 <= 0x4_0000_0000_0000_0000,
        yaw.valid(),
    ensures
        (r.0 as int, r.1 as int, r.2 as int) == yawed(
            (o.0 as int, o.1 as int, o.2 as int),
            yaw.cos as int,
            yaw.sin as int,
        ),
        r.0 * r.0 + r.1 * r.1 <= o.0 * o.0 + o.1 * o.1,
        r.2 == o.2,
{
    let c = yaw.cos as i128;
    let s = yaw.sin as i128;
    proof {
        lemma_mul_bound(o.0 as int, c as int, 0x4_0000_0000_0000_0000, 1_000_000);
        lemma_mul_bound(o.1 as int, s as int, 0x4_0000_0000_0000_0000, 1_000_000);
        lemma_mul_bound(o.0 as int, s as int, 0x4_0000_0000_0000_0000, 1_000_000);
        lemma_mul_bound(o.1 as int, c as int, 0x4_0000_0000_0000_0000, 1_000_000);
    }
    let a = o.0 * c - o.1 * s;
    let b = o.0 * s + o.1 * c;
    proof {
        lemma_tdiv_bound(a as int, UNIT as int);
        lemma_tdiv_bound(b as int, UNIT as int);
        lemma_tdiv_sq(a as int, UNIT as int);
        lemma_tdiv_sq(b as int, UNIT as int);
        lemma_turn_identity(o.0 as int, o.1 as int, c as int, s as int);
        let (x, y) = (tdiv(a as int, UNIT as int), tdiv(b as int, UNIT as int));
        let (aa, bb, hh, ci, si) = (a as int, b as int, o.0 * o.0 + o.1 * o.1, c as int, s as int);
        assert(0 <= hh) by (nonlinear_arith)
            requires
                hh == o.0 * o.0 + o.1 * o.1,
        ;
        assert(x * x + y * y <= hh) by (nonlinear_arith)
            requires
                1_000_000_000_000 * (x * x) <= aa * aa,
                1_000_000_000_000 * (y * y) <= bb * bb,
                aa * aa + bb * bb == hh * (ci * ci + si * si),
                ci * ci + si * si <= 1_000_000_000_000,
                hh >= 0,
        ;
    }
    (trunc_div(a, UNIT as i128), trunc_div(b, UNIT as i128), o.2)
}

/// Translation smoothing per second when the eye settled at its reach.
pub const FURTHER_RATE: u64 = 50;

/// Translation smoothing per second when an obstruction pulled the eye in.
pub const CLOSER_RATE: u64 = 100;

/// Rotation smoothing per second.
pub const ROTATION_RATE: u64 = 45;

/// The ray that the sight-line stage casts: from `origin` along
/// `direction` (not normalized) for at most `max_distance`.
#[derive(Clone, Copy, Debug, PartialEq, Eq, Structural)]
pub struct LineOfSightRay {
    pub origin: Vec3,
    pub direction: Vec3,
    pub max_distance: u64,
}

/// The rendered pose for a frame: its position, and the share (parts per
/// million) of the way the rendered rotation turns toward the eye's.
#[derive(Clone, Copy, Debug, PartialEq, Eq, Structural)]
pub struct SmoothedPose {
    pub translation: Vec3,
    pub rotation_blend: u64,
}

/// Whether a result was pulled in by an obstruction or settled at its reach.
#[derive(Clone, Copy, Debug, PartialEq, Eq, Structural)]
pub enum LineOfSightCorrection {
    Closer,
    Further,
}

/// Where the eye may stand and how it got there.
#[derive(Clone, Copy, Debug, PartialEq, Eq, Structural)]
pub struct LineOfSightResult {
    pub location: Vec3,
    pub correction: LineOfSightCorrection,
}

/// The state of the rig. `eye` is the logical eye position before
/// smoothing; the eye always looks at `target`. `last_eye` and
/// `last_target` are the eye and target that the last update committed:
/// only `init_transform` and the update write them.
#[derive(Clone, Debug, PartialEq, Eq)]
pub struct ThirdPersonCamera {
    pub eye: Vec3,
    pub target: Vec3,
    pub up: Axis,
    pub secondary_target: Option<Vec3>,
    pub distance: u64,
    pub last_eye: Vec3,
    pub last_target: Vec3,
}

pub open spec fn approx_zero(c: int) -> bool {
    -APPROX_ZERO < c < APPROX_ZERO
}

/// A coordinate with noise snapped to zero.
pub open spec fn collapse(c: int) -> int {
    if approx_zero(c) {
        0
    } else {
        c
    }
}

/// The eye carried along by the target's movement since the last update.
pub open spec fn followed_eye(
    last_eye: (int, int, int),
    last_target: (int, int, int),
    target: (int, int, int),
) -> (int, int, int) {
    let m = sub3(target, last_target);
    add3(last_eye, (collapse(m.0), collapse(m.1), collapse(m.2)))
}

/// The eye turned about `up` through `target` so that, seen from above, it
/// looks through the target toward `secondary`: its horizontal distance to
/// the target is kept, its height is kept, and its horizontal offset points
/// away from `secondary`. Unchanged when `secondary` stands over the target
/// or the eye stands over or under it.
pub open spec fn aligned_eye(
    eye: (int, int, int),
    target: (int, int, int),
    secondary: (int, int, int),
    up: Axis,
) -> (int, int, int) {
    let s = split(sub3(secondary, target), up);
    let e = split(sub3(eye, target), up);
    if (approx_zero(s.0) && approx_zero(s.1)) || (approx_zero(e.0) && approx_zero(e.1)) {
        eye
    } else {
        let a = e.0 * e.0 + e.1 * e.1;
        let b = s.0 * s.0 + s.1 * s.1;
        add3(target, join((-scaled(s.0, a, b), -scaled(s.1, a, b), e.2), up))
    }
}

/// `distance` moved by the scaled zoom input and held in range.
pub open spec fn zoomed(distance: int, zoom: int) -> int {
    let d = distance + tdiv(zoom * ZOOM_SPEED, UNIT as int);
    if d < MIN_DISTANCE {
        MIN_DISTANCE as int
    } else if d > MAX_DISTANCE {
        MAX_DISTANCE as int
    } else {
        d
    }
}

fn collapse_approx_zero(c: i64) -> (r: i64)
    ensures
        r as int == collapse(c as int),
{
    if -APPROX_ZERO < c && c < APPROX_ZERO {
        0
    } else {
        c
    }
}

/// A ray cast with reach `distance` reports no hit beyond its reach.
pub open spec fn hit_within(hit: Option<u64>, distance: int) -> bool {
    hit matches Some(toi) ==> toi <= distance
}

/// How far the eye may stand along the sight line: the reach `distance`
/// without a hit, else the hit less the clearance (below zero for a hit
/// nearer than the clearance).
pub open spec fn los_distance(hit: Option<u64>, distance: int) -> int {
    match hit {
        None => distance,
        Some(toi) => toi - CLEARANCE,
    }
}

/// The point at signed distance `d` from `target` in the direction of
/// `offset` (straight along +z when the offset is zero), each coordinate
/// rounded toward the target.
pub open spec fn ray_point(target: (int, int, int), offset: (int, int, int), d: int) -> (int, int, int) {
    let l2 = len2(offset);
    if l2 == 0 {
        add3(target, (0, 0, d))
    } else {
        add3(
            target,
            (
                signed(d, scaled(offset.0, d * d, l2)),
                signed(d, scaled(offset.1, d * d, l2)),
                signed(d, scaled(offset.2, d * d, l2)),
            ),
        )
    }
}

/// `Closer` when distance `d` falls short of the desired squared length
/// `desired_len2` by more than the slack, else `Further`.
pub open spec fn correction_for(d: int, desired_len2: int) -> LineOfSightCorrection {
    if d * d < desired_len2 - CORRECTION_EPSILON {
        LineOfSightCorrection::Closer
    } else {
        LineOfSightCorrection::Further
    }
}

/// The direction of the sight line: from the target toward the eye, or
/// straight along +z when the two coincide.
pub open spec fn ray_direction(eye: (int, int, int), target: (int, int, int)) -> (int, int, int) {
    if sub3(eye, target) == (0int, 0int, 0int) {
        (0, 0, 1)
    } else {
        sub3(eye, target)
    }
}

/// Translation smoothing rate for a correction.
pub open spec fn translation_rate(c: LineOfSightCorrection) -> int {
    match c {
        LineOfSightCorrection::Further => FURTHER_RATE as int,
        LineOfSightCorrection::Closer => CLOSER_RATE as int,
    }
}

/// The eye after the stages before the sight-line stage: follow, then
/// alignment with the secondary target if there is one, then the orbit
/// input, whose yaw is dropped while a secondary target is set.
pub open spec fn aimed_eye(c: ThirdPersonCamera, a: CameraActions) -> (int, int, int) {
    let followed = followed_eye(c.last_eye@, c.last_target@, c.target@);
    let aligned = match c.secondary_target {
        Some(s) => aligned_eye(followed, c.target@, s@, c.up),
        None => followed,
    };
    match a.movement {
        Some(m) => orbited_eye(
            aligned,
            c.target@,
            c.up,
            if c.secondary_target is Some {
                OrbitInput { yaw: Turn { cos: UNIT, sin: 0 }, pitch: m.pitch }
            } else {
                m
            },
        ),
        None => aligned,
    }
}

/// The desired distance after the zoom input, if any.
pub open spec fn aimed_distance(c: ThirdPersonCamera, a: CameraActions) -> int {
    match a.zoom {
        Some(z) => zoomed(c.distance as int, z as int),
        None => c.distance as int,
    }
}

/// `v` scaled to length `UNIT`, each coordinate rounded toward zero;
/// `(0, 0, -UNIT)` for the zero vector.
pub open spec fn unit_direction(v: (int, int, int)) -> (int, int, int) {
    let l2 = len2(v);
    if l2 == 0 {
        (0, 0, -UNIT as int)
    } else {
        (
            scaled(v.0, UNIT * UNIT, l2),
            scaled(v.1, UNIT * UNIT, l2),
            scaled(v.2, UNIT * UNIT, l2),
        )
    }
}

/// A coordinate scaled to a unit length stays within `UNIT`.
proof fn lemma_unit_component(c: int, l2: int)
    requires
        c * c <= l2,
        0 < l2,
    ensures
        -UNIT <= scaled(c, UNIT * UNIT, l2) <= UNIT,
{
    let n = c * c * (UNIT * UNIT);
    assert(0 <= n <= l2 * (UNIT * UNIT)) by (nonlinear_arith)
        requires
            c * c <= l2,
            n == c * c * (UNIT * UNIT),
    ;
    vstd::arithmetic::div_mod::lemma_div_is_ordered(n, l2 * (UNIT * UNIT), l2);
    vstd::arithmetic::div_mod::lemma_div_multiples_vanish(UNIT * UNIT, l2);
    vstd::arithmetic::div_mod::lemma_div_pos_is_pos(n, l2);
    assert(l2 * (UNIT * UNIT) == (UNIT * UNIT) * l2) by (nonlinear_arith);
    crate::fixed::lemma_fsqrt_sq_le(n / l2);
    let r = fsqrt(n / l2);
    assert(r <= UNIT) by (nonlinear_arith)
        requires
            0 <= r,
            r * r <= UNIT * UNIT,
    ;
}

proof fn lemma_square_bound(c: int)
    requires
        -0x8000_0000 <= c <= 0x8000_0000,
    ensures
        0 <= c * c <= 0x4000_0000_0000_0000,
{
    assert(0 <= c * c <= 0x4000_0000_0000_0000) by (nonlinear_arith)
        requires
            -0x8000_0000 <= c <= 0x8000_0000,
    ;
}

/// How far the eye may stand from the target, given the nearest hit of a ray
/// cast from the target with reach `max_distance`.
pub fn get_raycast_distance(hit: Option<u64>, max_distance: u64) -> (r: i64)
    requires
        max_distance <= i64::MAX,
        hit_within(hit, max_distance as int),
    ensures
        r as int == los_distance(hit, max_distance as int),
{
    match hit {
        None => max_distance as i64,
        Some(toi) => toi as i64 - CLEARANCE as i64,
    }
}

impl ThirdPersonCamera {
    /// The state between updates: targets within `TARGET_LIMIT`, the
    /// committed eye within `SNAPSHOT_REACH` of the committed target, and the
    /// distance in its range.
    pub open spec fn wf(&self) -> bool {
        &&& in_target_box(self.target@)
        &&& in_target_box(self.last_target@)
        &&& (self.secondary_target matches Some(s) ==> in_target_box(s@))
        &&& in_world(self.last_eye@)
        &&& len2(sub3(self.last_eye@, self.last_target@)) <= SNAPSHOT_REACH * SNAPSHOT_REACH
        &&& MIN_DISTANCE <= self.distance <= MAX_DISTANCE
    }

    /// The state between stages of an update: also the eye within `REACH`
    /// of the target.
    pub open spec fn aimed(&self) -> bool {
        &&& self.wf()
        &&& in_world(self.eye@)
        &&& len2(sub3(self.eye@, self.target@)) <= REACH * REACH
    }

    /// The unit direction the eye faces, from the eye toward the target, at
    /// length `UNIT` with each coordinate rounded toward zero; straight
    /// along -z when the eye stands on the target.
    pub fn forward(&self) -> (r: Vec3)
        requires
            self.aimed(),
        ensures
            r@ == unit_direction(sub3(self.target@, self.eye@)),
    {
        let f = self.target.minus(&self.eye);
        let fx = f.x as i128;
        let fy = f.y as i128;
        let fz = f.z as i128;
        proof {
            lemma_square_bound(fx as int);
            lemma_square_bound(fy as int);
            lemma_square_bound(fz as int);
        }
        let l2: i128 = fx * fx + fy * fy + fz * fz;
        if l2 == 0 {
            return Vec3 { x: 0, y: 0, z: -UNIT };
        }
        let one: u128 = 1_000_000_000_000;
        let x = scale_component(f.x, one, l2 as u128);
        let y = scale_component(f.y, one, l2 as u128);
        let z = scale_component(f.z, one, l2 as u128);
        proof {
            lemma_unit_component(f.x as int, l2 as int);
            lemma_unit_component(f.y as int, l2 as int);
            lemma_unit_component(f.z as int, l2 as int);
        }
        Vec3 { x: x as i64, y: y as i64, z: z as i64 }
    }

    /// Seeds the last committed eye from the rendered position, so that the
    /// first update starts where the camera is.
    pub fn init_transform(&mut self, transform: Vec3)
        requires
            old(self).wf(),
            in_world(transform@),
            len2(sub3(transform@, old(self).last_target@)) <= SNAPSHOT_REACH * SNAPSHOT_REACH,
        ensures
            final(self).wf(),
            old(self).aimed() ==> final(self).aimed(),
            final(self).last_eye == transform,
            *final(self) == (ThirdPersonCamera { last_eye: final(self).last_eye, ..*old(self) }),
    {
        self.last_eye = transform;
    }

    /// The ray that the sight-line stage casts for the current eye.
    pub fn line_of_sight_ray(&self) -> (r: LineOfSightRay)
        requires
            self.aimed(),
        ensures
            r.origin == self.target,
            r.direction@ == ray_direction(self.eye@, self.target@),
            r.max_distance == self.distance,
    {
        let o = self.eye.minus(&self.target);
        let direction = if o.x == 0 && o.y == 0 && o.z == 0 {
            Vec3 { x: 0, y: 0, z: 1 }
        } else {
            o
        };
        LineOfSightRay { origin: self.target, direction, max_distance: self.distance }
    }

    /// The stages before the sight-line stage: follow the target, align with
    /// the secondary target, orbit and zoom. Returns the ray to cast.
    pub fn begin_update(&mut self, camera_actions: CameraActions) -> (r: LineOfSightRay)
        requires
            old(self).wf(),
            camera_actions.valid(),
        ensures
            final(self).aimed(),
            final(self).eye@ == aimed_eye(*old(self), camera_actions),
            final(self).distance as int == aimed_distance(*old(self), camera_actions),
            *final(self) == (ThirdPersonCamera {
                eye: final(self).eye,
                distance: final(self).distance,
                ..*old(self)
            }),
            r.origin == final(self).target,
            r.direction@ == ray_direction(final(self).eye@, final(self).target@),
            r.max_distance == final(self).distance,
    {
        self.follow_target();
        if let Some(secondary_target) = self.secondary_target {
            self.move_eye_to_align_target_with(secondary_target);
        }
        if let Some(movement) = camera_actions.movement {
            let input = if self.secondary_target.is_some() {
                OrbitInput { yaw: Turn::identity(), pitch: movement.pitch }
            } else {
                movement
            };
            self.handle_camera_controls(input);
        }
        if let Some(zoom) = camera_actions.zoom {
            self.zoom(zoom);
        }
        self.line_of_sight_ray()
    }

    /// The stages after the sight-line stage: commit the eye where the hit
    /// allows, then smooth the rendered position `transform` toward it over
    /// `dt_us` microseconds.
    pub fn update_transform(&mut self, dt_us: u64, hit: Option<u64>, transform: Vec3) -> (r: SmoothedPose)
        requires
            old(self).aimed(),
            hit_within(hit, old(self).distance as int),
        ensures
            final(self).aimed(),
            final(self).eye@ == ray_point(
                old(self).target@,
                sub3(old(self).eye@, old(self).target@),
                los_distance(hit, old(self).distance as int),
            ),
            *final(self) == (ThirdPersonCamera {
                eye: final(self).eye,
                last_eye: final(self).eye,
                last_target: old(self).target,
                ..*old(self)
            }),
            r.translation@ == step3(
                transform@,
                final(self).eye@,
                blend_factor(
                    translation_rate(
                        correction_for(
                            los_distance(hit, old(self).distance as int),
                            len2(sub3(old(self).eye@, old(self).target@)),
                        ),
                    ),
                    dt_us as int,
                ),
            ),
            r.rotation_blend as int == blend_factor(ROTATION_RATE as int, dt_us as int),
    {
        let correction = self.place_eye_in_valid_position(hit);
        self.get_camera_transform(dt_us, transform, correction)
    }

    /// Moves the eye where the sight line allows and commits it, with the
    /// target, as the last update's.
    pub fn place_eye_in_valid_position(&mut self, hit: Option<u64>) -> (r: LineOfSightCorrection)
        requires
            old(self).aimed(),
            hit_within(hit, old(self).distance as int),
        ensures
            final(self).aimed(),
            final(self).eye@ == ray_point(
                old(self).target@,
                sub3(old(self).eye@, old(self).target@),
                los_distance(hit, old(self).distance as int),
            ),
            r == correction_for(
                los_distance(hit, old(self).distance as int),
                len2(sub3(old(self).eye@, old(self).target@)),
            ),
            *final(self) == (ThirdPersonCamera {
                eye: final(self).eye,
                last_eye: final(self).eye,
                last_target: old(self).target,
                ..*old(self)
            }),
    {
        let result = self.keep_line_of_sight(hit);
        self.eye = result.location;
        self.last_eye = self.eye;
        self.last_target = self.target;
        result.correction
    }

    /// The rendered pose for this frame: `transform` moved toward the eye at
    /// the rate that `correction` selects, and the rotation's blend share.
    pub fn get_camera_transform(
        &self,
        dt_us: u64,
        transform: Vec3,
        correction: LineOfSightCorrection,
    ) -> (r: SmoothedPose)
        ensures
            r.translation@ == step3(
                transform@,
                self.eye@,
                blend_factor(translation_rate(correction), dt_us as int),
            ),
            r.rotation_blend as int == blend_factor(ROTATION_RATE as int, dt_us as int),
    {
        let rate = match correction {
            LineOfSightCorrection::Further => FURTHER_RATE,
            LineOfSightCorrection::Closer => CLOSER_RATE,
        };
        let f = smoothing_factor(rate, dt_us);
        let translation = lerp_toward(&transform, &self.eye, f);
        let rotation_blend = smoothing_factor(ROTATION_RATE, dt_us);
        SmoothedPose { translation, rotation_blend }
    }

    /// Carries the eye along with the target's movement since the last
    /// update, starting from the last committed eye.
    pub fn follow_target(&mut self)
        requires
            old(self).wf(),
        ensures
            final(self).aimed(),
            final(self).eye@ == followed_eye(old(self).last_eye@, old(self).last_target@, old(self).target@),
            *final(self) == (ThirdPersonCamera { eye: final(self).eye, ..*old(self) }),
    {
        let m = self.target.minus(&self.last_target);
        let mx = collapse_approx_zero(m.x);
        let my = collapse_approx_zero(m.y);
        let mz = collapse_approx_zero(m.z);
        proof {
            let o = sub3(self.last_eye@, self.last_target@);
            lemma_coord_within(o.0, o.1, o.2, SNAPSHOT_REACH as int);
            let n = (o.0 + mx - m.x, o.1 + my - m.y, o.2 + mz - m.z);
            assert(n.0 * n.0 + n.1 * n.1 + n.2 * n.2 <= REACH * REACH) by (nonlinear_arith)
                requires
                    -0x800_0009 <= n.0 <= 0x800_0009,
                    -0x800_0009 <= n.1 <= 0x800_0009,
                    -0x800_0009 <= n.2 <= 0x800_0009,
            ;
        }
        self.eye = Vec3 { x: self.last_eye.x + mx, y: self.last_eye.y + my, z: self.last_eye.z + mz };
    }

    /// Turns the eye about the up axis through the target so that the target
    /// also lines up with `secondary_target`, as `aligned_eye` states.
    pub fn move_eye_to_align_target_with(&mut self, secondary_target: Vec3)
        requires
            old(self).aimed(),
            in_target_box(secondary_target@),
        ensures
            final(self).aimed(),
            final(self).eye@ == aligned_eye(old(self).eye@, old(self).target@, secondary_target@, old(self).up),
            len2(sub3(final(self).eye@, old(self).target@)) <= len2(sub3(old(self).eye@, old(self).target@)),
            *final(self) == (ThirdPersonCamera { eye: final(self).eye, ..*old(self) }),
    {
        let (s1, s2, _sv) = split_offset(&secondary_target.minus(&self.target), self.up);
        if -APPROX_ZERO < s1 && s1 < APPROX_ZERO && -APPROX_ZERO < s2 && s2 < APPROX_ZERO {
            return;
        }
        let (e1, e2, ev) = split_offset(&self.eye.minus(&self.target), self.up);
        if -APPROX_ZERO < e1 && e1 < APPROX_ZERO && -APPROX_ZERO < e2 && e2 < APPROX_ZERO {
            return;
        }
        proof {
            lemma_square_bound(e1 as int);
            lemma_square_bound(e2 as int);
            lemma_square_bound(s1 as int);
            lemma_square_bound(s2 as int);
            assert(0 < s1 as int * s1 as int + s2 as int * s2 as int) by (nonlinear_arith)
                requires
                    s1 <= -APPROX_ZERO || s1 >= APPROX_ZERO || s2 <= -APPROX_ZERO || s2 >= APPROX_ZERO,
            ;
        }
        let a: u128 = (e1 as i128 * e1 as i128 + e2 as i128 * e2 as i128) as u128;
        let b: u128 = (s1 as i128 * s1 as i128 + s2 as i128 * s2 as i128) as u128;
        let h1 = scale_component(s1, a, b);
        let h2 = scale_component(s2, a, b);
        proof {
            let o = sub3(self.eye@, self.target@);
            lemma_join_split(o, self.up);
            lemma_len2_join(split(o, self.up), self.up);
            lemma_scaled_sum(s1 as int, s2 as int, 0, a as int);
            assert(scaled(0, a as int, b as int) == 0) by {
                lemma_fsqrt_is(0, 0);
            }
            assert((-h1) * (-h1) == h1 * h1 && (-h2) * (-h2) == h2 * h2) by (nonlinear_arith);
            lemma_len2_join((-h1 as int, -h2 as int, ev as int), self.up);
            lemma_coord_within(-h1 as int, -h2 as int, ev as int, REACH as int);
        }
        self.eye = offset_point(&self.target, self.up, -h1, -h2, ev as i128);
    }

    /// Orbits the eye about the target by the input's pitch, then its yaw.
    pub fn handle_camera_controls(&mut self, input: OrbitInput)
        requires
            old(self).aimed(),
            input.yaw.valid(),
            input.pitch.valid(),
        ensures
            final(self).aimed(),
            final(self).eye@ == orbited_eye(old(self).eye@, old(self).target@, old(self).up, input),
            len2(sub3(final(self).eye@, old(self).target@)) <= len2(sub3(old(self).eye@, old(self).target@)),
            *final(self) == (ThirdPersonCamera { eye: final(self).eye, ..*old(self) }),
    {
        let (h1, h2, v) = split_offset(&self.eye.minus(&self.target), self.up);
        proof {
            let o = sub3(self.eye@, self.target@);
            lemma_join_split(o, self.up);
            lemma_len2_join(split(o, self.up), self.up);
        }
        let p = pitch_offset(h1, h2, v, input.pitch);
        proof {
            lemma_coord_within(p.0 as int, p.1 as int, p.2 as int, REACH as int);
        }
        let q = yaw_offset(p, input.yaw);
        proof {
            lemma_len2_join((q.0 as int, q.1 as int, q.2 as int), self.up);
            lemma_coord_within(q.0 as int, q.1 as int, q.2 as int, REACH as int);
        }
        self.eye = offset_point(&self.target, self.up, q.0, q.1, q.2);
    }

    /// Moves the desired distance by the scaled zoom input, held within
    /// `MIN_DISTANCE ..= MAX_DISTANCE`.
    pub fn zoom(&mut self, zoom: i64)
        requires
            old(self).wf(),
        ensures
            final(self).wf(),
            old(self).aimed() ==> final(self).aimed(),
            final(self).distance as int == zoomed(old(self).distance as int, zoom as int),
            *final(self) == (ThirdPersonCamera { distance: final(self).distance, ..*old(self) }),
    {
        assert(-0x1_0000_0000_0000_0000_0000 < zoom as int * 100_000 < 0x1_0000_0000_0000_0000_0000)
            by (nonlinear_arith);
        let p: i128 = zoom as i128 * ZOOM_SPEED as i128;
        let step = trunc_div(p, UNIT as i128);
        proof {
            crate::fixed::lemma_tdiv_bound(p as int, UNIT as int);
        }
        let d = self.distance as i128 + step;
        self.distance = if d < MIN_DISTANCE as i128 {
            MIN_DISTANCE
        } else if d > MAX_DISTANCE as i128 {
            MAX_DISTANCE
        } else {
            d as u64
        };
    }

    /// Where the eye may stand given the nearest hit of the sight-line ray
    /// (see `line_of_sight_ray`), and whether that pulled it in.
    pub fn keep_line_of_sight(&self, hit: Option<u64>) -> (r: LineOfSightResult)
        requires
            self.aimed(),
            hit_within(hit, self.distance as int),
        ensures
            r.location@ == ray_point(
                self.target@,
                sub3(self.eye@, self.target@),
                los_distance(hit, self.distance as int),
            ),
            r.correction == correction_for(
                los_distance(hit, self.distance as int),
                len2(sub3(self.eye@, self.target@)),
            ),
            in_world(r.location@),
            len2(sub3(r.location@, self.target@)) <= MAX_DISTANCE * MAX_DISTANCE,
    {
        let o = self.eye.minus(&self.target);
        let d: i64 = get_raycast_distance(hit, self.distance);
        let ox = o.x as i128;
        let oy = o.y as i128;
        let oz = o.z as i128;
        proof {
            lemma_square_bound(ox as int);
            lemma_square_bound(oy as int);
            lemma_square_bound(oz as int);
        }
        let l2: i128 = ox * ox + oy * oy + oz * oz;
        assert(0 <= d as int * d as int <= 100_000_000_000_000) by (nonlinear_arith)
            requires
                -10_000 <= d <= 10_000_000,
        ;
        let dd: u128 = (d as i128 * d as i128) as u128;
        assert(d * d <= 10_000_000 * 10_000_000) by (nonlinear_arith)
            requires
                -10_000 <= d <= 10_000_000,
        ;
        let location = if l2 == 0 {
            offset_point(&self.target, Axis::Z, 0, 0, d as i128)
        } else {
            let sx = scale_component(o.x, dd, l2 as u128);
            let sy = scale_component(o.y, dd, l2 as u128);
            let sz = scale_component(o.z, dd, l2 as u128);
            proof {
                lemma_scaled_sum(o.x as int, o.y as int, o.z as int, dd as int);
                lemma_coord_within(sx as int, sy as int, sz as int, 10_000_000);
                assert((-sx) * (-sx) == sx * sx && (-sy) * (-sy) == sy * sy && (-sz) * (-sz) == sz * sz)
                    by (nonlinear_arith);
            }
            let p = if d < 0 {
                offset_point(&self.target, Axis::Z, -sx, -sy, -sz)
            } else {
                offset_point(&self.target, Axis::Z, sx, sy, sz)
            };
            assert(len2(sub3(p@, self.target@)) <= dd as int);
            p
        };
        let correction = if (dd as i128) < l2 - CORRECTION_EPSILON {
            LineOfSightCorrection::Closer
        } else {
            LineOfSightCorrection::Further
        };
        LineOfSightResult { location, correction }
    }
}

impl Default for ThirdPersonCamera {
    /// A camera at the origin looking at the origin, up along +y, at half
    /// the farthest distance.
    fn default() -> (r: Self)
        ensures
            r.aimed(),
            r.eye@ == (0int, 0int, 0int),
            r.target@ == (0int, 0int, 0int),
            r.last_eye@ == (0int, 0int, 0int),
            r.last_target@ == (0int, 0int, 0int),
            r.up == Axis::Y,
            r.secondary_target is None,
            r.distance == MAX_DISTANCE / 2,
    {
        ThirdPersonCamera {
            eye: Vec3::zero(),
            target: Vec3::zero(),
            up: Axis::Y,
            secondary_target: None,
            distance: MAX_DISTANCE / 2,
            last_eye: Vec3::zero(),
            last_target: Vec3::zero(),
        }
    }
}

} // verus!
