//! Exact integer helpers: floor square roots, rounded division and scaling
//! of a vector component by a ratio of lengths.
use vstd::prelude::*;

verus! {

/// One world unit, in fixed-point steps (micro-units).
pub const UNIT: i64 = 1_000_000;

/// Exclusive bound on the argument of `floor_sqrt` (2^126).
pub const SQRT_INPUT_LIMIT: u128 = 0x4000_0000_0000_0000_0000_0000_0000_0000;

/// `r` is the floor of the square root of `n`.
pub open spec fn is_floor_sqrt(n: int, r: int) -> bool {
    0 <= r && r * r <= n && n < (r + 1) * (r + 1)
}

/// The floor of the square root of a nonnegative `n`.
pub open spec fn fsqrt(n: int) -> int {
    choose|r: int| is_floor_sqrt(n, r)
}

/// `m` carrying the sign of `c` (zero counts as positive).
pub open spec fn signed(c: int, m: int) -> int {
    if c < 0 {
        -m
    } else {
        m
    }
}

/// `c` scaled by `sqrt(num / den)`, rounded toward zero through a floor root:
/// the sign of `c` with magnitude `floor(sqrt(floor(c * c * num / den)))`.
pub open spec fn scaled(c: int, num: int, den: int) -> int {
    signed(c, fsqrt(c * c * num / den))
}

/// Division rounded toward zero, as Rust rounds it.
pub open spec fn tdiv(a: int, d: int) -> int {
    if a >= 0 {
        a / d
    } else {
        -((-a) / d)
    }
}

proof fn lemma_floor_sqrt_unique(n: int, r: int, q: int)
    requires
        is_floor_sqrt(n, r),
        is_floor_sqrt(n, q),
    ensures
        r == q,
{
    if r < q {
        assert((r + 1) * (r + 1) <= q * q) by (nonlinear_arith)
            requires
                0 <= r + 1 <= q,
        ;
    } else if q < r {
        assert((q + 1) * (q + 1) <= r * r) by (nonlinear_arith)
            requires
                0 <= q + 1 <= r,
        ;
    }
}

/// Any floor root of `n` is the one that `fsqrt` names.
pub proof fn lemma_fsqrt_is(n: int, r: int)
    requires
        is_floor_sqrt(n, r),
    ensures
        fsqrt(n) == r,
{
    assert(is_floor_sqrt(n, r));
    let q = fsqrt(n);
    lemma_floor_sqrt_unique(n, r, q);
}

/// The floor root of `n` squared is at most `n`.
pub proof fn lemma_fsqrt_sq_le(n: int)
    requires
        0 <= n,
    ensures
        0 <= fsqrt(n),
        fsqrt(n) * fsqrt(n) <= n,
        is_floor_sqrt(n, fsqrt(n)),
{
    let r = floor_sqrt_witness(n);
    lemma_fsqrt_is(n, r);
}

proof fn floor_sqrt_witness(n: int) -> (r: int)
    requires
        0 <= n,
    ensures
        is_floor_sqrt(n, r),
    decreases n,
{
    if n == 0 {
        0
    } else {
        let q = floor_sqrt_witness(n - 1);
        if (q + 1) * (q + 1) <= n {
            assert(n < (q + 2) * (q + 2)) by (nonlinear_arith)
                requires
                    n - 1 < (q + 1) * (q + 1),
                    0 <= q,
            ;
            assert(is_floor_sqrt(n, q + 1));
            q + 1
        } else {
            assert(is_floor_sqrt(n, q));
            q
        }
    }
}

/// The floor of the square root of `n`.
pub fn floor_sqrt(n: u128) -> (r: u64)
    requires
        n < SQRT_INPUT_LIMIT,
    ensures
        is_floor_sqrt(n as int, r as int),
        r as int == fsqrt(n as int),
        r < 0x8000_0000_0000_0000,
{
    let mut lo: u64 = 0;
    let mut hi: u64 = 0x8000_0000_0000_0000;
    assert(0x8000_0000_0000_0000int * 0x8000_0000_0000_0000int == SQRT_INPUT_LIMIT as int)
        by (nonlinear_arith);
    while hi - lo > 1
        invariant
            lo < hi <= 0x8000_0000_0000_0000,
            lo as int * lo as int <= n as int,
            (n as int) < hi as int * hi as int,
        decreases hi - lo,
    {
        let mid: u64 = lo + (hi - lo) / 2;
        assert(mid as int * mid as int <= SQRT_INPUT_LIMIT as int) by (nonlinear_arith)
            requires
                mid < 0x8000_0000_0000_0000,
                0x8000_0000_0000_0000int * 0x8000_0000_0000_0000int == SQRT_INPUT_LIMIT as int,
        ;
        let sq: u128 = (mid as u128) * (mid as u128);
        if sq <= n {
            lo = mid;
        } else {
            hi = mid;
        }
    }
    proof {
        lemma_fsqrt_is(n as int, lo as int);
    }
    lo
}

/// Division rounded toward zero for a positive divisor.
pub fn trunc_div(a: i128, d: i128) -> (r: i128)
    requires
        d > 0,
        a > i128::MIN,
    ensures
        r as int == tdiv(a as int, d as int),
{
    if a >= 0 {
        a / d
    } else {
        -((-a) / d)
    }
}

/// A quotient rounded toward zero is no larger than the dividend over the divisor.
pub proof fn lemma_tdiv_bound(a: int, d: int)
    requires
        d > 0,
    ensures
        a >= 0 ==> 0 <= d * tdiv(a, d) <= a,
        a < 0 ==> a <= d * tdiv(a, d) <= 0,
{
    if a >= 0 {
        vstd::arithmetic::div_mod::lemma_fundamental_div_mod(a, d);
        vstd::arithmetic::div_mod::lemma_div_pos_is_pos(a, d);
        assert(0 <= d * (a / d)) by (nonlinear_arith)
            requires
                0 <= a / d,
                d > 0,
        ;
    } else {
        vstd::arithmetic::div_mod::lemma_fundamental_div_mod(-a, d);
        vstd::arithmetic::div_mod::lemma_div_pos_is_pos(-a, d);
        assert(0 <= d * ((-a) / d)) by (nonlinear_arith)
            requires
                0 <= (-a) / d,
                d > 0,
        ;
        let q = (-a) / d;
        assert(d * (-q) == -(d * q)) by (nonlinear_arith);
    }
}

/// A scaled component squared is at most `c * c * num / den`.
pub proof fn lemma_scaled_sq(c: int, num: int, den: int)
    requires
        0 <= num,
        0 < den,
    ensures
        scaled(c, num, den) * scaled(c, num, den) <= c * c * num / den,
{
    assert(0 <= c * c * num) by (nonlinear_arith)
        requires
            0 <= num,
    ;
    vstd::arithmetic::div_mod::lemma_div_pos_is_pos(c * c * num, den);
    lemma_fsqrt_sq_le(c * c * num / den);
    let r = fsqrt(c * c * num / den);
    assert(signed(c, r) * signed(c, r) == r * r) by (nonlinear_arith);
}

/// Scaling each coordinate of a nonzero offset by `sqrt(num / len2)` gives
/// an offset no longer than `sqrt(num)`.
pub proof fn lemma_scaled_sum(x0: int, x1: int, x2: int, num: int)
    requires
        0 <= num,
        0 < x0 * x0 + x1 * x1 + x2 * x2,
    ensures
        scaled(x0, num, x0 * x0 + x1 * x1 + x2 * x2) * scaled(x0, num, x0 * x0 + x1 * x1 + x2 * x2)
            + scaled(x1, num, x0 * x0 + x1 * x1 + x2 * x2) * scaled(x1, num, x0 * x0 + x1 * x1 + x2 * x2)
            + scaled(x2, num, x0 * x0 + x1 * x1 + x2 * x2) * scaled(x2, num, x0 * x0 + x1 * x1 + x2 * x2)
            <= num,
{
    let l2 = x0 * x0 + x1 * x1 + x2 * x2;
    lemma_scaled_sq(x0, num, l2);
    lemma_scaled_sq(x1, num, l2);
    lemma_scaled_sq(x2, num, l2);
    let a0 = x0 * x0 * num;
    let a1 = x1 * x1 * num;
    let a2 = x2 * x2 * num;
    vstd::arithmetic::div_mod::lemma_fundamental_div_mod(a0, l2);
    vstd::arithmetic::div_mod::lemma_fundamental_div_mod(a1, l2);
    vstd::arithmetic::div_mod::lemma_fundamental_div_mod(a2, l2);
    assert(a0 + a1 + a2 == l2 * num) by (nonlinear_arith)
        requires
            a0 == x0 * x0 * num,
            a1 == x1 * x1 * num,
            a2 == x2 * x2 * num,
            l2 == x0 * x0 + x1 * x1 + x2 * x2,
    ;
    let q = a0 / l2 + a1 / l2 + a2 / l2;
    assert(l2 * q <= l2 * num) by (nonlinear_arith)
        requires
            a0 == l2 * (a0 / l2) + a0 % l2,
            a1 == l2 * (a1 / l2) + a1 % l2,
            a2 == l2 * (a2 / l2) + a2 % l2,
            0 <= a0 % l2,
            0 <= a1 % l2,
            0 <= a2 % l2,
            a0 + a1 + a2 == l2 * num,
            q == a0 / l2 + a1 / l2 + a2 / l2,
    ;
    assert(q <= num) by (nonlinear_arith)
        requires
            l2 * q <= l2 * num,
            l2 > 0,
    ;
}

/// A turn by (`c`, `s`) scales the squared length of (`x`, `y`) by `c^2 + s^2`.
pub proof fn lemma_turn_identity(x: int, y: int, c: int, s: int)
    ensures
        (x * c - y * s) * (x * c - y * s) + (x * s + y * c) * (x * s + y * c) == (x * x + y * y) * (
        c * c + s * s),
{
    let (p, q, m, n) = (x * c, y * s, x * s, y * c);
    assert((p - q) * (p - q) == p * p - 2 * (p * q) + q * q) by (nonlinear_arith);
    assert((m + n) * (m + n) == m * m + 2 * (m * n) + n * n) by (nonlinear_arith);
    assert(p * q == m * n) by (nonlinear_arith)
        requires
            p == x * c,
            q == y * s,
            m == x * s,
            n == y * c,
    ;
    let (xx, yy, cc, ss) = (x * x, y * y, c * c, s * s);
    assert(p * p == xx * cc) by (nonlinear_arith)
        requires
            p == x * c,
            xx == x * x,
            cc == c * c,
    ;
    assert(q * q == yy * ss) by (nonlinear_arith)
        requires
            q == y * s,
            yy == y * y,
            ss == s * s,
    ;
    assert(m * m == xx * ss) by (nonlinear_arith)
        requires
            m == x * s,
            xx == x * x,
            ss == s * s,
    ;
    assert(n * n == yy * cc) by (nonlinear_arith)
        requires
            n == y * c,
            yy == y * y,
            cc == c * c,
    ;
    assert((xx + yy) * (cc + ss) == xx * cc + xx * ss + yy * cc + yy * ss) by (nonlinear_arith);
}

/// A quotient rounded toward zero squared, times the divisor squared, is at
/// most the dividend squared.
pub proof fn lemma_tdiv_sq(a: int, d: int)
    requires
        d > 0,
    ensures
        (d * d) * (tdiv(a, d) * tdiv(a, d)) <= a * a,
{
    lemma_tdiv_bound(a, d);
    let q = tdiv(a, d);
    assert((d * d) * (q * q) <= a * a) by (nonlinear_arith)
        requires
            a >= 0 ==> 0 <= d * q <= a,
            a < 0 ==> a <= d * q <= 0,
    ;
}

/// Scales the component `c` by `sqrt(num / den)`, keeping its sign.
pub fn scale_component(c: i64, num: u128, den: u128) -> (r: i128)
    requires
        -0x8000_0000 <= c <= 0x8000_0000,
        num <= 0x8000_0000_0000_0000,
        den > 0,
    ensures
        r as int == scaled(c as int, num as int, den as int),
        -0x8000_0000_0000_0000 < r < 0x8000_0000_0000_0000,
{
    let m: u128 = if c < 0 { (-c) as u128 } else { c as u128 };
    assert(m * m * num <= 0x2000_0000_0000_0000_0000_0000_0000_0000) by (nonlinear_arith)
        requires
            m <= 0x8000_0000,
            num <= 0x8000_0000_0000_0000,
    ;
    assert(m as int * m as int == c as int * c as int) by (nonlinear_arith)
        requires
            m as int == c as int || m as int == -(c as int),
    ;
    assert(m * m <= 0x4000_0000_0000_0000) by (nonlinear_arith)
        requires
            m <= 0x8000_0000,
    ;
    let p: u128 = m * m * num;
    let q: u128 = p / den;
    assert(q <= p) by (nonlinear_arith)
        requires
            den > 0,
            q == p / den,
    ;
    let s: u64 = floor_sqrt(q);
    if c < 0 {
        -(s as i128)
    } else {
        s as i128
    }
}

} // verus!
