//! Fixed-point scalars: the scale, rounding, saturation and the integer
//! square root that the geometry and the integrator are built on.

use vstd::prelude::*;

verus! {

/// Number of fixed-point steps in one unit of length, velocity, force or mass.
pub const SCALE: i32 = 1000;

/// Number of time steps (microseconds) in one second.
pub const MICROS_PER_SECOND: i32 = 1_000_000;

/// Quotient rounded toward zero, as machine division rounds it.
pub open spec fn trunc_div(a: int, b: int) -> int
    recommends
        b > 0,
{
    if a >= 0 {
        a / b
    } else {
        -((-a) / b)
    }
}

/// The value of `x` clamped into the interval `[lo, hi]`.
pub open spec fn clamp(x: int, lo: int, hi: int) -> int
    recommends
        lo <= hi,
{
    if x < lo {
        lo
    } else if x > hi {
        hi
    } else {
        x
    }
}

/// The value of `x` clamped into the 32-bit range of a fixed-point scalar.
pub open spec fn saturate(x: int) -> int {
    clamp(x, i32::MIN as int, i32::MAX as int)
}

/// `r` is the square root of `x` rounded down.
pub open spec fn is_floor_sqrt(x: int, r: int) -> bool {
    0 <= r && r * r <= x < (r + 1) * (r + 1)
}

/// The square root of `x` rounded down (meaningful for `x >= 0`).
pub open spec fn floor_sqrt(x: int) -> int {
    choose|r: int| is_floor_sqrt(x, r)
}

/// Squaring is strictly monotone on the naturals, so a number has at most one
/// rounded-down square root.
pub proof fn lemma_floor_sqrt_unique(x: int, r1: int, r2: int)
    requires
        is_floor_sqrt(x, r1),
        is_floor_sqrt(x, r2),
    ensures
        r1 == r2,
{
    if r1 < r2 {
        assert((r1 + 1) * (r1 + 1) <= r2 * r2) by (nonlinear_arith)
            requires
                0 <= r1,
                r1 + 1 <= r2,
        ;
    } else if r2 < r1 {
        assert((r2 + 1) * (r2 + 1) <= r1 * r1) by (nonlinear_arith)
            requires
                0 <= r2,
                r2 + 1 <= r1,
        ;
    }
}

/// Any witness of `is_floor_sqrt` is the value of `floor_sqrt`.
pub proof fn lemma_floor_sqrt_is(x: int, r: int)
    requires
        is_floor_sqrt(x, r),
    ensures
        floor_sqrt(x) == r,
{
    lemma_floor_sqrt_unique(x, r, floor_sqrt(x));
}

/// The root of a perfect square is exact.
pub proof fn lemma_floor_sqrt_of_square(r: int)
    requires
        r >= 0,
    ensures
        floor_sqrt(r * r) == r,
{
    assert(r * r < (r + 1) * (r + 1)) by (nonlinear_arith)
        requires
            r >= 0,
    ;
    lemma_floor_sqrt_is(r * r, r);
}

/// The change that a rate of `rate` per second makes in `dt` microseconds,
/// rounded toward zero.
pub open spec fn scaled_by_time(rate: int, dt: int) -> int {
    trunc_div(rate * dt, MICROS_PER_SECOND as int)
}

/// The quotient of two fixed-point scalars as a fixed-point scalar, rounded
/// toward zero.
pub open spec fn fixed_div(a: int, b: int) -> int
    recommends
        b > 0,
{
    trunc_div(a * SCALE, b)
}

/// `|a * b| <= ma * mb` whenever `|a| <= ma` and `|b| <= mb`.
pub proof fn lemma_product_bound(a: int, b: int, ma: int, mb: int)
    by (nonlinear_arith)
    requires
        -ma <= a <= ma,
        -mb <= b <= mb,
    ensures
        -(ma * mb) <= a * b <= ma * mb,
{
}

/// Division toward zero does not leave the interval `[-|a|, |a|]`.
pub proof fn lemma_trunc_div_bound(a: int, b: int)
    by (nonlinear_arith)
    requires
        b > 0,
    ensures
        a >= 0 ==> 0 <= trunc_div(a, b) <= a,
        a <= 0 ==> a <= trunc_div(a, b) <= 0,
{
}

/// Clamps a wide intermediate result into the 32-bit range.
pub fn saturate_to_i32(x: i128) -> (r: i32)
    ensures
        r == saturate(x as int),
{
    if x < i32::MIN as i128 {
        i32::MIN
    } else if x > i32::MAX as i128 {
        i32::MAX
    } else {
        x as i32
    }
}

/// Clamps a wide intermediate result into `[-limit, limit]`.
pub fn clamp_to_limit(x: i128, limit: i32) -> (r: i32)
    requires
        limit >= 0,
    ensures
        r == clamp(x as int, -limit, limit as int),
{
    if x < -(limit as i128) {
        -limit
    } else if x > limit as i128 {
        limit
    } else {
        x as i32
    }
}

/// The change that a rate per second makes in `dt` microseconds.
pub fn scale_by_time(rate: i64, dt: u32) -> (r: i128)
    ensures
        r == scaled_by_time(rate as int, dt as int),
        -0x8000_0000_0000_0000_0000_0000 <= r <= 0x8000_0000_0000_0000_0000_0000,
{
    proof {
        lemma_product_bound(rate as int, dt as int, 0x8000_0000_0000_0000, 0x1_0000_0000);
        lemma_trunc_div_bound(rate * dt, MICROS_PER_SECOND as int);
    }
    (rate as i128) * (dt as i128) / (MICROS_PER_SECOND as i128)
}

/// The quotient of two fixed-point scalars, the divisor positive.
pub fn divide_fixed(a: i32, b: i32) -> (r: i64)
    requires
        b > 0,
    ensures
        r == fixed_div(a as int, b as int),
        -0x8000_0000 * 1000 <= r <= 0x8000_0000 * 1000,
{
    proof {
        lemma_trunc_div_bound(a * SCALE, b as int);
    }
    (a as i64) * (SCALE as i64) / (b as i64)
}

/// Integer square root by bisection.
pub fn isqrt(x: u128) -> (r: u64)
    ensures
        is_floor_sqrt(x as int, r as int),
        r == floor_sqrt(x as int),
{
    let mut lo: u128 = 0;
    let mut hi: u128 = 0x1_0000_0000_0000_0000;
    assert(hi * hi > x) by (nonlinear_arith)
        requires
            hi == 0x1_0000_0000_0000_0000,
            x <= u128::MAX,
    ;
    while hi - lo > 1
        invariant
            lo < hi <= 0x1_0000_0000_0000_0000,
            lo * lo <= x,
            hi * hi > x,
        decreases hi - lo,
    {
        let mid: u128 = lo + (hi - lo) / 2;
        assert(mid * mid <= u128::MAX) by (nonlinear_arith)
            requires
                mid < 0x1_0000_0000_0000_0000,
        ;
        if mid * mid <= x {
            lo = mid;
        } else {
            hi = mid;
        }
    }
    proof {
        lemma_floor_sqrt_is(x as int, lo as int);
    }
    lo as u64
}

} // verus!
