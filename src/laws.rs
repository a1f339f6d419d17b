//! What holds of the rig across calls and for all inputs.
use vstd::prelude::*;
use crate::fixed::{scaled, fsqrt, lemma_fsqrt_is, lemma_fsqrt_sq_le, lemma_scaled_sum};
use crate::vector::{
    Axis, sub3, len2, split, lemma_join_split,
};
use crate::smoothing::{BLEND_ONE, ceil_div, step_toward, lemma_step_share};
use crate::fixed::tdiv;
use crate::third_person::{
    PITCH_LIMIT_COS, PITCH_LIMIT_SIN, PITCH_EDGE_SIN, MIN_PITCH_RADIUS, in_pitch_band,
    pitch_elevation, pitched,
    MIN_DISTANCE, MAX_DISTANCE, CLEARANCE, approx_zero, aligned_eye, zoomed, los_distance,
    ray_point,
};

verus! {

/// The distance after applying each zoom input of `zooms` in turn.
pub open spec fn zoomed_all(distance: int, zooms: Seq<i64>) -> int
    decreases zooms.len(),
{
    if zooms.len() == 0 {
        distance
    } else {
        zoomed_all(zoomed(distance, zooms[0] as int), zooms.drop_first())
    }
}

/// However many zoom inputs arrive, the distance stays within
/// `MIN_DISTANCE ..= MAX_DISTANCE`.
pub proof fn lemma_zoom_keeps_distance_in_range(distance: int, zooms: Seq<i64>)
    requires
        MIN_DISTANCE <= distance <= MAX_DISTANCE,
    ensures
        MIN_DISTANCE <= zoomed_all(distance, zooms) <= MAX_DISTANCE,
    decreases zooms.len(),
{
    if zooms.len() > 0 {
        lemma_zoom_keeps_distance_in_range(zoomed(distance, zooms[0] as int), zooms.drop_first());
    }
}

/// Without a hit the eye may stand at the full desired distance.
pub proof fn lemma_no_hit_keeps_distance(distance: int)
    ensures
        los_distance(None, distance) == distance,
{
}

/// With a hit at `toi`, the eye ends no farther from the target than the
/// hit less the clearance.
pub proof fn lemma_line_of_sight_within_hit(
    target: (int, int, int),
    eye: (int, int, int),
    distance: int,
    toi: u64,
)
    requires
        CLEARANCE <= toi,
    ensures
        len2(
            sub3(ray_point(target, sub3(eye, target), los_distance(Some(toi), distance)), target),
        ) <= (toi - CLEARANCE) * (toi - CLEARANCE),
{
    let d = los_distance(Some(toi), distance);
    let o = sub3(eye, target);
    let l2 = len2(o);
    assert(0 <= d * d) by (nonlinear_arith);
    assert(d >= 0 && d == toi - CLEARANCE);
    let p = ray_point(target, o, d);
    if l2 != 0 {
        assert(0 <= o.0 * o.0 && 0 <= o.1 * o.1 && 0 <= o.2 * o.2) by (nonlinear_arith);
        lemma_scaled_sum(o.0, o.1, o.2, d * d);
        let (k0, k1, k2) = (scaled(o.0, d * d, l2), scaled(o.1, d * d, l2), scaled(o.2, d * d, l2));
        assert(sub3(p, target) == (k0, k1, k2));
    } else {
        assert(sub3(p, target) == (0int, 0int, d));
    }
}

/// The step toward the eye never passes it, gets strictly closer whenever
/// the factor is positive and the two differ, and lands on it for a factor
/// of one.
pub proof fn lemma_smoothing_never_overshoots(p: int, e: int, f: int)
    requires
        0 <= f <= BLEND_ONE,
    ensures
        p <= e ==> p <= step_toward(p, e, f) <= e,
        e <= p ==> e <= step_toward(p, e, f) <= p,
        f > 0 && p < e ==> e - step_toward(p, e, f) < e - p,
        f > 0 && e < p ==> step_toward(p, e, f) - e < p - e,
        f == BLEND_ONE ==> step_toward(p, e, f) == e,
{
    if e >= p {
        lemma_step_share(e - p, f);
    } else {
        lemma_step_share(p - e, f);
    }
}

/// The rendered coordinate after `n` frames of smoothing from `p` toward a
/// fixed `e` with factor `f`.
pub open spec fn smoothed_after(p: int, e: int, f: int, n: nat) -> int
    decreases n,
{
    if n == 0 {
        p
    } else {
        smoothed_after(step_toward(p, e, f), e, f, (n - 1) as nat)
    }
}

/// With a fixed eye and a positive factor, smoothing reaches the eye within
/// as many frames as the starting gap has steps, and stays there.
pub proof fn lemma_smoothing_converges(p: int, e: int, f: int, n: nat)
    requires
        0 < f <= BLEND_ONE,
        n >= (if p <= e { e - p } else { p - e }),
    ensures
        smoothed_after(p, e, f, n) == e,
    decreases n,
{
    if n > 0 {
        lemma_smoothing_never_overshoots(p, e, f);
        if p == e {
            assert(ceil_div(0 * f, BLEND_ONE as int) == 0);
            assert(step_toward(p, e, f) == e);
        }
        lemma_smoothing_converges(step_toward(p, e, f), e, f, (n - 1) as nat);
    }
}

/// A secondary target standing over the primary one leaves the eye where it is.
pub proof fn lemma_secondary_over_target_keeps_eye(
    eye: (int, int, int),
    target: (int, int, int),
    secondary: (int, int, int),
    up: Axis,
)
    requires
        split(sub3(secondary, target), up).0 == 0,
        split(sub3(secondary, target), up).1 == 0,
    ensures
        aligned_eye(eye, target, secondary, up) == eye,
{
}

/// Alignment keeps the eye's height along the up axis.
pub proof fn lemma_alignment_keeps_height(
    eye: (int, int, int),
    target: (int, int, int),
    secondary: (int, int, int),
    up: Axis,
)
    ensures
        split(aligned_eye(eye, target, secondary, up), up).2 == split(eye, up).2,
{
}

/// Alignment depends on the secondary target's horizontal position alone.
pub proof fn lemma_alignment_ignores_secondary_height(
    eye: (int, int, int),
    target: (int, int, int),
    secondary: (int, int, int),
    other: (int, int, int),
    up: Axis,
)
    requires
        split(secondary, up).0 == split(other, up).0,
        split(secondary, up).1 == split(other, up).1,
    ensures
        aligned_eye(eye, target, secondary, up) == aligned_eye(eye, target, other, up),
{
}

proof fn lemma_collinear_component(si: int, ei: int, a: int, b: int)
    requires
        a > 0,
        b > 0,
        si * si * a == ei * ei * b,
        si * ei <= 0,
    ensures
        -scaled(si, a, b) == ei,
{
    assert(si * si * a == (ei * ei) * b) by (nonlinear_arith)
        requires
            si * si * a == ei * ei * b,
    ;
    vstd::arithmetic::div_mod::lemma_div_multiples_vanish(ei * ei, b);
    assert(b * (ei * ei) == (ei * ei) * b) by (nonlinear_arith);
    assert(si * si * a / b == ei * ei);
    let m = if ei < 0 { -ei } else { ei };
    assert(m * m == ei * ei && ei * ei < (m + 1) * (m + 1)) by (nonlinear_arith)
        requires
            m == ei || m == -ei,
            m >= 0,
    ;
    lemma_fsqrt_is(ei * ei, m);
    if ei != 0 {
        assert(si != 0) by (nonlinear_arith)
            requires
                si * si * a == ei * ei * b,
                ei != 0,
                b > 0,
        ;
        assert(ei > 0 ==> si < 0) by (nonlinear_arith)
            requires
                si * ei <= 0,
                si != 0,
        ;
        assert(ei < 0 ==> si > 0) by (nonlinear_arith)
            requires
                si * ei <= 0,
                si != 0,
        ;
    }
}

/// A secondary target that lies, seen from above, straight ahead of the eye
/// beyond the primary target leaves the eye where it is.
pub proof fn lemma_secondary_ahead_keeps_eye(
    eye: (int, int, int),
    target: (int, int, int),
    secondary: (int, int, int),
    up: Axis,
)
    requires
        split(sub3(secondary, target), up).0 * split(sub3(eye, target), up).1 == split(
            sub3(secondary, target),
            up,
        ).1 * split(sub3(eye, target), up).0,
        split(sub3(secondary, target), up).0 * split(sub3(eye, target), up).0 + split(
            sub3(secondary, target),
            up,
        ).1 * split(sub3(eye, target), up).1 < 0,
    ensures
        aligned_eye(eye, target, secondary, up) == eye,
{
    let s = split(sub3(secondary, target), up);
    let e = split(sub3(eye, target), up);
    if !(approx_zero(s.0) && approx_zero(s.1)) {
        let a = e.0 * e.0 + e.1 * e.1;
        let b = s.0 * s.0 + s.1 * s.1;
        let (s0, s1, e0, e1) = (s.0, s.1, e.0, e.1);
        assert(a > 0 && b > 0) by (nonlinear_arith)
            requires
                s0 * e0 + s1 * e1 < 0,
                a == e0 * e0 + e1 * e1,
                b == s0 * s0 + s1 * s1,
        ;
        assert(s0 * s0 * a == e0 * e0 * b && s1 * s1 * a == e1 * e1 * b) by (nonlinear_arith)
            requires
                s0 * e1 == s1 * e0,
                a == e0 * e0 + e1 * e1,
                b == s0 * s0 + s1 * s1,
        ;
        assert((s0 * e0) * (s1 * e1) >= 0) by (nonlinear_arith)
            requires
                s0 * e1 == s1 * e0,
        ;
        assert(s0 * e0 <= 0 && s1 * e1 <= 0) by (nonlinear_arith)
            requires
                (s0 * e0) * (s1 * e1) >= 0,
                s0 * e0 + s1 * e1 < 0,
        ;
        lemma_collinear_component(s0, e0, a, b);
        lemma_collinear_component(s1, e1, a, b);
        lemma_join_split(sub3(eye, target), up);
    }
}

/// A pitch leaves the sight line inside the pitch band: at the turned
/// elevation when that stays in the band, else just inside the band's edge.
pub proof fn lemma_pitch_stays_in_band(r: int, v: int, c: int, s: int)
    requires
        r >= MIN_PITCH_RADIUS,
    ensures
        in_pitch_band(pitch_elevation(r, v, c, s).0, pitch_elevation(r, v, c, s).1),
{
    let u = 1_000_000int;
    let r2 = tdiv(r * c + v * s, u);
    let v2 = tdiv(v * c - r * s, u);
    if !in_pitch_band(r2, v2) {
        let n = r * r + v * v;
        assert(n >= r * r && r * r >= 1) by (nonlinear_arith)
            requires
                r >= 1,
                n == r * r + v * v,
        ;
        lemma_fsqrt_sq_le(n);
        let l = fsqrt(n);
        assert(l >= r) by (nonlinear_arith)
            requires
                n < (l + 1) * (l + 1),
                n >= r * r,
                r >= 1,
                l >= 0,
        ;
        let lc = l * PITCH_LIMIT_COS;
        let ls = l * PITCH_EDGE_SIN;
        let r3 = lc / u;
        let m = ls / u;
        vstd::arithmetic::div_mod::lemma_fundamental_div_mod(lc, u);
        vstd::arithmetic::div_mod::lemma_fundamental_div_mod(ls, u);
        assert(r3 * u > lc - u && r3 * u <= lc && r3 >= 2);
        assert(m * u <= ls && m >= 0);
        assert(m * PITCH_LIMIT_COS <= PITCH_LIMIT_SIN * r3) by (nonlinear_arith)
            requires
                r3 * 1_000_000 > l * 87_156 - 1_000_000,
                m * 1_000_000 <= l * 995_195,
                m >= 0,
                l >= 0x4000,
        ;
    }
}

/// A pitch keeps a horizontal offset of at least `MIN_PITCH_RADIUS` nonzero,
/// so the eye never ends straight over or under the target.
pub proof fn lemma_pitch_keeps_horizontal(o: (int, int, int), c: int, s: int)
    requires
        fsqrt(o.0 * o.0 + o.1 * o.1) >= MIN_PITCH_RADIUS,
    ensures
        pitched(o, c, s).0 != 0 || pitched(o, c, s).1 != 0,
{
    let h = o.0 * o.0 + o.1 * o.1;
    let r = fsqrt(h);
    assert(h >= 0) by (nonlinear_arith)
        requires
            h == o.0 * o.0 + o.1 * o.1,
    ;
    lemma_fsqrt_sq_le(h);
    lemma_pitch_stays_in_band(r, o.2, c, s);
    let e = pitch_elevation(r, o.2, c, s).0;
    assert(e >= 2);
    assert(h > 0) by (nonlinear_arith)
        requires
            r * r <= h,
            r >= 0x4000,
    ;
    let big = if o.0 * o.0 >= o.1 * o.1 { o.0 } else { o.1 };
    assert(2 * (big * big) >= h);
    let x = big * big * (e * e);
    assert(x >= h) by (nonlinear_arith)
        requires
            2 * (big * big) >= h,
            e >= 2,
            x == big * big * (e * e),
            h > 0,
    ;
    vstd::arithmetic::div_mod::lemma_div_is_ordered(h, x, h);
    vstd::arithmetic::div_mod::lemma_div_by_self(h);
    lemma_fsqrt_sq_le(x / h);
    let k = fsqrt(x / h);
    assert(k >= 1) by (nonlinear_arith)
        requires
            x / h < (k + 1) * (k + 1),
            x / h >= 1,
            k >= 0,
    ;
}

/// A turn by (`c`, `s`) of the pair (`x`, `y`), as the yaw turns the
/// horizontal offset and the pitch turns (horizontal length, height) with
/// the sine negated, keeps the pair's length up to rounding: before rounding
/// its squared length is scaled by `c^2 + s^2` exactly (one, up to
/// `TURN_TOLERANCE`, for a valid turn), and each rounded coordinate, times
/// `UNIT`, lies less than `UNIT` from the exact one.
pub proof fn lemma_turn_keeps_length(x: int, y: int, c: int, s: int)
    ensures
        (x * c - y * s) * (x * c - y * s) + (x * s + y * c) * (x * s + y * c) == (x * x + y * y) * (
        c * c + s * s),
        -1_000_000 < (x * c - y * s) - 1_000_000 * tdiv(x * c - y * s, 1_000_000) < 1_000_000,
        -1_000_000 < (x * s + y * c) - 1_000_000 * tdiv(x * s + y * c, 1_000_000) < 1_000_000,
{
    let (p, q, m, n) = (x * c, y * s, x * s, y * c);
    assert((p - q) * (p - q) == p * p - 2 * (p * q) + q * q) by (nonlinear_arith);
    assert((m + n) * (m + n) == m * m + 2 * (m * n) + n * n) by (nonlinear_arith);
    assert(p * q == m * n) by (nonlinear_arith)
        requires
            p == x * c,
            q == y * s,
            m == x * s,
            n == y * c,
    ;
    let (xx, yy, cc, ss) = (x * x, y * y, c * c, s * s);
    assert(p * p == xx * cc) by (nonlinear_arith)
        requires
            p == x * c,
            xx == x * x,
            cc == c * c,
    ;
    assert(q * q == yy * ss) by (nonlinear_arith)
        requires
            q == y * s,
            yy == y * y,
            ss == s * s,
    ;
    assert(m * m == xx * ss) by (nonlinear_arith)
        requires
            m == x * s,
            xx == x * x,
            ss == s * s,
    ;
    assert(n * n == yy * cc) by (nonlinear_arith)
        requires
            n == y * c,
            yy == y * y,
            cc == c * c,
    ;
    assert((xx + yy) * (cc + ss) == xx * cc + xx * ss + yy * cc + yy * ss) by (nonlinear_arith);
    lemma_tdiv_remainder(x * c - y * s);
    lemma_tdiv_remainder(x * s + y * c);
}

proof fn lemma_tdiv_remainder(a: int)
    ensures
        -1_000_000 < a - 1_000_000 * tdiv(a, 1_000_000) < 1_000_000,
{
    if a >= 0 {
        vstd::arithmetic::div_mod::lemma_fundamental_div_mod(a, 1_000_000);
    } else {
        vstd::arithmetic::div_mod::lemma_fundamental_div_mod(-a, 1_000_000);
    }
}

} // verus!
