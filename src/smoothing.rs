//! Time-based exponential smoothing of the rendered position toward the eye.
use vstd::prelude::*;
use crate::vector::Vec3;

verus! {

/// A blend factor of one, in parts per million.
pub const BLEND_ONE: u64 = 1_000_000;

/// The blend factor for `rate` per second over `dt` microseconds:
/// `rate * dt` parts per million, at most one.
pub open spec fn blend_factor(rate: int, dt: int) -> int {
    if rate * dt >= BLEND_ONE {
        BLEND_ONE as int
    } else {
        rate * dt
    }
}

/// Division of a nonnegative `a` rounded up.
pub open spec fn ceil_div(a: int, d: int) -> int {
    (a + d - 1) / d
}

/// `p` moved toward `e` by the fraction `f` (parts per million) of the gap,
/// the step rounded away from `p` so that any positive fraction makes
/// progress.
pub open spec fn step_toward(p: int, e: int, f: int) -> int {
    if e >= p {
        p + ceil_div((e - p) * f, BLEND_ONE as int)
    } else {
        p - ceil_div((p - e) * f, BLEND_ONE as int)
    }
}

pub open spec fn step3(p: (int, int, int), e: (int, int, int), f: int) -> (int, int, int) {
    (step_toward(p.0, e.0, f), step_toward(p.1, e.1, f), step_toward(p.2, e.2, f))
}

/// The rounded-up share `f` of a gap `m` lies between nothing and the whole
/// gap, is positive when both are, and is the whole gap for a factor of one.
pub proof fn lemma_step_share(m: int, f: int)
    requires
        0 <= m,
        0 <= f <= BLEND_ONE,
    ensures
        0 <= ceil_div(m * f, BLEND_ONE as int) <= m,
        m > 0 && f > 0 ==> ceil_div(m * f, BLEND_ONE as int) >= 1,
        f == BLEND_ONE ==> ceil_div(m * f, BLEND_ONE as int) == m,
{
    let x = m * f;
    assert(0 <= x <= m * 1_000_000) by (nonlinear_arith)
        requires
            0 <= m,
            0 <= f <= 1_000_000,
            x == m * f,
    ;
    if m > 0 && f > 0 {
        assert(x >= 1) by (nonlinear_arith)
            requires
                m > 0,
                f > 0,
                x == m * f,
        ;
    }
    if f == BLEND_ONE {
        assert(x == m * 1_000_000);
    }
}

/// The blend factor for `rate` per second over `dt_us` microseconds.
pub fn smoothing_factor(rate: u64, dt_us: u64) -> (r: u64)
    requires
        rate <= BLEND_ONE,
    ensures
        r as int == blend_factor(rate as int, dt_us as int),
        r <= BLEND_ONE,
{
    assert(rate as int * dt_us as int <= 0x1_0000_0000_0000_0000_0000_0000) by (nonlinear_arith)
        requires
            rate <= 1_000_000,
            dt_us <= 0xffff_ffff_ffff_ffff,
    ;
    let x: u128 = rate as u128 * dt_us as u128;
    if x >= BLEND_ONE as u128 {
        BLEND_ONE
    } else {
        x as u64
    }
}

/// One coordinate moved toward `e` by the factor `f`, as `step_toward` states.
pub fn lerp_coord(p: i64, e: i64, f: u64) -> (r: i64)
    requires
        f <= BLEND_ONE,
    ensures
        r as int == step_toward(p as int, e as int, f as int),
{
    if e >= p {
        let m: i128 = e as i128 - p as i128;
        proof {
            lemma_step_share(m as int, f as int);
        }
        let x: i128 = m * f as i128;
        let share: i128 = (x + BLEND_ONE as i128 - 1) / BLEND_ONE as i128;
        (p as i128 + share) as i64
    } else {
        let m: i128 = p as i128 - e as i128;
        proof {
            lemma_step_share(m as int, f as int);
        }
        let x: i128 = m * f as i128;
        let share: i128 = (x + BLEND_ONE as i128 - 1) / BLEND_ONE as i128;
        (p as i128 - share) as i64
    }
}

/// A point moved toward `e` by the factor `f`, coordinate by coordinate.
pub fn lerp_toward(p: &Vec3, e: &Vec3, f: u64) -> (r: Vec3)
    requires
        f <= BLEND_ONE,
    ensures
        r@ == step3(p@, e@, f as int),
{
    Vec3 { x: lerp_coord(p.x, e.x, f), y: lerp_coord(p.y, e.y, f), z: lerp_coord(p.z, e.z, f) }
}

} // verus!
