//! Integer arithmetic helpers for the simulation core.
//!
//! Conventions used throughout the crate:
//! - time is measured in milliseconds (`u32` for timers, `u64` for totals);
//! - world positions are integer world units (`i64`);
//! - angles are measured in ticks of 1/10000 radian, so a full turn is
//!   `FP_TAU` = 62832 ticks;
//! - trigonometric values are scaled by `TRIG_ONE` = 10000.

use vstd::prelude::*;

verus! {

use vstd::arithmetic::div_mod::lemma_div_is_ordered;
use vstd::arithmetic::div_mod::lemma_div_by_multiple;
use vstd::arithmetic::div_mod::lemma_div_pos_is_pos;
use vstd::arithmetic::div_mod::lemma_div_nonincreasing;

/// One half turn (pi), in angle ticks of 1/10000 radian.
pub const FP_PI: i64 = 31416;
/// One full turn (two pi), in angle ticks.
pub const FP_TAU: i64 = 62832;
/// One quarter turn (pi / 2), in angle ticks.
pub const FP_HALF_PI: i64 = 15708;
/// Scale of the fixed-point sine and cosine values: `sin_fp` and `cos_fp`
/// return values in `[-TRIG_ONE, TRIG_ONE]` standing for `[-1.0, 1.0]`.
pub const TRIG_ONE: i64 = 10000;

/// A position or displacement in integer world units.
#[derive(Clone, Copy, PartialEq, Eq, Structural, Debug)]
pub struct Vec2i {
    pub x: i64,
    pub y: i64,
}

/// Saturating subtraction on millisecond timers: the mathematical value of
/// `a - b`, floored at zero.
pub open spec fn spec_sat_sub_u32(a: u32, b: u32) -> u32 {
    if a >= b {
        (a - b) as u32
    } else {
        0u32
    }
}

/// Saturating subtraction of an unbounded amount from a timer.
pub open spec fn spec_sat_sub_big(a: u32, b: int) -> u32 {
    if a >= b {
        (a - b) as u32
    } else {
        0u32
    }
}

/// Saturating addition on 64-bit counters.
pub open spec fn spec_sat_add_u64(a: u64, b: int) -> u64 {
    if a + b <= u64::MAX {
        (a + b) as u64
    } else {
        u64::MAX
    }
}

/// Decrements a millisecond timer, clamped at zero.
pub fn sat_sub_ms(a: u32, b: u32) -> (r: u32)
    ensures
        r == spec_sat_sub_u32(a, b),
{
    if a >= b {
        a - b
    } else {
        0
    }
}

/// Ticking a timer by two deltas in a row is the same as ticking it once by
/// their sum: countdowns may be advanced in any number of steps.
pub proof fn lemma_sat_sub_additive(a: u32, d1: u32, d2: u32)
    ensures
        spec_sat_sub_u32(spec_sat_sub_u32(a, d1), d2) == spec_sat_sub_big(a, d1 + d2),
{
}

/// Division of `p` by `d` rounded to the nearest integer, halves rounded
/// away from zero.  Used to turn a world position into a tile coordinate.
pub open spec fn spec_round_div(p: int, d: int) -> int
    recommends
        d > 0,
{
    if p >= 0 {
        (p + d / 2) / d
    } else {
        -((-p + d / 2) / d)
    }
}

/// Rounds `p / d` to the nearest integer, halves away from zero.
pub fn round_div(p: i64, d: i64) -> (r: i64)
    requires
        0 < d <= 1_000_000_000,
        -1_000_000_000_000 <= p <= 1_000_000_000_000,
    ensures
        r == spec_round_div(p as int, d as int),
        -2_000_000_000_000 <= r <= 2_000_000_000_000,
{
    let half: u64 = (d as u64) / 2;
    proof {
        lemma_div_nonincreasing(d as int, 2);
        lemma_div_pos_is_pos(d as int, 2);
    }
    if p >= 0 {
        let q: u64 = ((p as u64) + half) / (d as u64);
        proof {
            lemma_div_nonincreasing((p + half) as int, d as int);
            lemma_div_pos_is_pos((p + half) as int, d as int);
        }
        q as i64
    } else {
        let m: u64 = (-p) as u64;
        let q: u64 = (m + half) / (d as u64);
        proof {
            lemma_div_nonincreasing((m + half) as int, d as int);
            lemma_div_pos_is_pos((m + half) as int, d as int);
        }
        -(q as i64)
    }
}

/// Floor of the square root of `n`, as a recursive specification.
pub open spec fn spec_isqrt(n: nat) -> nat
    decreases n,
{
    if n == 0 {
        0
    } else {
        let p = spec_isqrt((n - 1) as nat);
        if (p + 1) * (p + 1) <= n {
            p + 1
        } else {
            p
        }
    }
}

/// `spec_isqrt` really is the floor of the square root.
pub proof fn lemma_isqrt_bounds(n: nat)
    ensures
        spec_isqrt(n) * spec_isqrt(n) <= n,
        n < (spec_isqrt(n) + 1) * (spec_isqrt(n) + 1),
    decreases n,
{
    if n > 0 {
        lemma_isqrt_bounds((n - 1) as nat);
        let p = spec_isqrt((n - 1) as nat);
        let s = spec_isqrt(n);
        assert(p * p <= n - 1);
        assert(n - 1 < (p + 1) * (p + 1));
        if (p + 1) * (p + 1) <= n {
            assert(s == p + 1);
            assert(s * s <= n && n < (s + 1) * (s + 1)) by (nonlinear_arith)
                requires
                    p >= 0,
                    s == p + 1,
                    (p + 1) * (p + 1) <= n,
                    n - 1 < (p + 1) * (p + 1),
            ;
        } else {
            assert(s == p);
            assert(s * s <= n && n < (s + 1) * (s + 1)) by (nonlinear_arith)
                requires
                    s == p,
                    p * p <= n - 1,
                    !((p + 1) * (p + 1) <= n),
            ;
        }
        assert(s * s <= n);
        assert(n < (s + 1) * (s + 1));
    } else {
        let s = spec_isqrt(n);
        assert(s == 0);
        assert(n < (s + 1) * (s + 1)) by (nonlinear_arith)
            requires
                n == 0,
                s == 0,
        ;
    }
}

/// Any integer square-root witness equals `spec_isqrt`.
pub proof fn lemma_isqrt_unique(n: nat, r: nat)
    requires
        r * r <= n,
        n < (r + 1) * (r + 1),
    ensures
        r == spec_isqrt(n),
{
    lemma_isqrt_bounds(n);
    let s = spec_isqrt(n);
    if r < s {
        assert((r + 1) * (r + 1) <= s * s) by (nonlinear_arith)
            requires
                r + 1 <= s,
        ;
    } else if s < r {
        assert((s + 1) * (s + 1) <= r * r) by (nonlinear_arith)
            requires
                s + 1 <= r,
        ;
    }
}

/// Floor of the square root of `n`.
pub fn isqrt(n: u64) -> (r: u64)
    ensures
        r * r <= n < (r + 1) * (r + 1),
        r < 4_294_967_296,
        r == spec_isqrt(n as nat),
{
    let mut lo: u64 = 0;
    let mut hi: u64 = 4_294_967_296;
    while lo + 1 < hi
        invariant
            lo < hi <= 4_294_967_296,
            lo * lo <= n,
            n < hi * hi,
        decreases hi - lo,
    {
        let mid: u64 = lo + (hi - lo) / 2;
        proof {
            assert((mid as int) * (mid as int) <= 0x10000000000000000int) by (nonlinear_arith)
                requires
                    0 <= mid as int <= 0x100000000int,
            ;
        }
        if (mid as u128) * (mid as u128) <= n as u128 {
            lo = mid;
        } else {
            hi = mid;
        }
    }
    proof {
        lemma_isqrt_unique(n as nat, lo as nat);
    }
    lo
}

/// Half of `d`, truncated toward zero.
pub open spec fn spec_half(d: int) -> int {
    if d >= 0 {
        d / 2
    } else {
        -((-d) / 2)
    }
}

/// Halves a displacement, truncating toward zero.
pub fn half_toward_zero(d: i64) -> (r: i64)
    requires
        -4_000_000_000 <= d <= 4_000_000_000,
    ensures
        r == spec_half(d as int),
        -2_000_000_000 <= r <= 2_000_000_000,
{
    if d >= 0 {
        let q: u64 = (d as u64) / 2;
        proof {
            lemma_div_nonincreasing(d as int, 2);
            lemma_div_pos_is_pos(d as int, 2);
        }
        q as i64
    } else {
        let q: u64 = ((-d) as u64) / 2;
        proof {
            lemma_div_nonincreasing((-d) as int, 2);
            lemma_div_pos_is_pos((-d) as int, 2);
        }
        -(q as i64)
    }
}

/// The component along one axis of a vector of length `num` pointing the
/// way of a displacement whose axis component is `d` and whose total
/// length is `len`: `d * num / len`, truncated toward zero.
pub open spec fn spec_scaled_dir(d: int, num: int, len: int) -> int
    recommends
        len > 0,
{
    if d >= 0 {
        (d * num) / len
    } else {
        -(((-d) * num) / len)
    }
}

/// Scales an axis component `d` of a direction of length `len` up to a
/// vector of length `num`.
pub fn scaled_dir(d: i64, num: u64, len: u64) -> (r: i64)
    requires
        0 < len,
        -4_000_000_000 <= d <= 4_000_000_000,
        d <= len,
        -d <= len,
        num <= 10_000,
    ensures
        r == spec_scaled_dir(d as int, num as int, len as int),
        -(num as i64) <= r <= num as i64,
{
    if d >= 0 {
        proof {
            assert(d * num <= len * num) by (nonlinear_arith)
                requires
                    0 <= d <= len,
                    0 <= num,
            ;
            assert(0 <= d * num <= 40_000_000_000_000) by (nonlinear_arith)
                requires
                    0 <= d <= 4_000_000_000,
                    0 <= num <= 10_000,
            ;
        }
        let q: u64 = ((d as u64) * num) / len;
        proof {
            lemma_div_is_ordered((d * num) as int, (len * num) as int, len as int);
            assert(len * num == num * len) by (nonlinear_arith);
            lemma_div_by_multiple(num as int, len as int);
            lemma_div_pos_is_pos((d * num) as int, len as int);
        }
        q as i64
    } else {
        proof {
            assert((-d) * num <= len * num) by (nonlinear_arith)
                requires
                    0 <= -d <= len,
                    0 <= num,
            ;
            assert(0 <= (-d) * num <= 40_000_000_000_000) by (nonlinear_arith)
                requires
                    0 <= -d <= 4_000_000_000,
                    0 <= num <= 10_000,
            ;
        }
        let q: u64 = (((-d) as u64) * num) / len;
        proof {
            lemma_div_is_ordered(((-d) * num) as int, (len * num) as int, len as int);
            assert(len * num == num * len) by (nonlinear_arith);
            lemma_div_by_multiple(num as int, len as int);
            lemma_div_pos_is_pos(((-d) * num) as int, len as int);
        }
        -(q as i64)
    }
}

/// `r * c` scaled back down by `TRIG_ONE`, truncated toward zero: the world
/// offset reached by going `r` units along an axis whose direction cosine is
/// `c / TRIG_ONE`.
pub open spec fn spec_scale_trig(r: int, c: int) -> int {
    if c >= 0 {
        (r * c) / (TRIG_ONE as int)
    } else {
        -((r * -c) / (TRIG_ONE as int))
    }
}

/// Scales a radius by a fixed-point trigonometric value.
pub fn scale_trig(r: i64, c: i64) -> (o: i64)
    requires
        0 <= r <= 100_000,
        -TRIG_ONE <= c <= TRIG_ONE,
    ensures
        o == spec_scale_trig(r as int, c as int),
        -r <= o <= r,
{
    if c >= 0 {
        proof {
            assert(r * c <= r * 10000) by (nonlinear_arith)
                requires
                    0 <= r,
                    0 <= c <= 10000,
            ;
            assert(r * 10000 <= 1_000_000_000) by (nonlinear_arith)
                requires
                    0 <= r <= 100_000,
            ;
            assert(0 <= r * c) by (nonlinear_arith)
                requires
                    0 <= r,
                    0 <= c,
            ;
        }
        let p: u64 = (r as u64) * (c as u64);
        let q: u64 = p / 10000;
        proof {
            lemma_div_is_ordered((r * c) as int, (r * 10000) as int, 10000);
            lemma_div_by_multiple(r as int, 10000);
            lemma_div_pos_is_pos((r * c) as int, 10000);
        }
        q as i64
    } else {
        proof {
            assert(r * -c <= r * 10000) by (nonlinear_arith)
                requires
                    0 <= r,
                    0 <= -c <= 10000,
            ;
            assert(r * 10000 <= 1_000_000_000) by (nonlinear_arith)
                requires
                    0 <= r <= 100_000,
            ;
            assert(0 <= r * -c) by (nonlinear_arith)
                requires
                    0 <= r,
                    0 <= -c,
            ;
        }
        let p: u64 = (r as u64) * ((-c) as u64);
        let q: u64 = p / 10000;
        proof {
            lemma_div_is_ordered((r * -c) as int, (r * 10000) as int, 10000);
            lemma_div_by_multiple(r as int, 10000);
            lemma_div_pos_is_pos((r * -c) as int, 10000);
        }
        -(q as i64)
    }
}

/// Numerator of the rational sine approximation on the first half turn.
pub open spec fn spec_sin_num(x: int) -> int {
    160000 * (x * (FP_PI - x))
}

/// Denominator of the rational sine approximation on the first half turn.
pub open spec fn spec_sin_den(x: int) -> int {
    4_934_825_280 - 4 * (x * (FP_PI - x))
}

/// Fixed-point sine on `[0, FP_PI]`, by Bhaskara's rational approximation
/// `sin t ~= 16 t (pi - t) / (5 pi^2 - 4 t (pi - t))`, scaled by `TRIG_ONE`.
pub open spec fn spec_sin_half(x: int) -> int
    recommends
        0 <= x <= FP_PI,
{
    spec_sin_num(x) / spec_sin_den(x)
}

/// Fixed-point sine of a nonnegative angle in ticks, scaled by `TRIG_ONE`.
/// The angle is first reduced to one turn; the second half turn is the
/// negated first half.
pub open spec fn spec_sin_fp(a: int) -> int
    recommends
        a >= 0,
{
    let n = a % (FP_TAU as int);
    if n < FP_PI {
        spec_sin_half(n)
    } else {
        -spec_sin_half(n - FP_PI)
    }
}

/// Fixed-point cosine: the sine shifted a quarter turn forward.
pub open spec fn spec_cos_fp(a: int) -> int
    recommends
        a >= 0,
{
    spec_sin_fp(a + FP_HALF_PI)
}

/// The product `x * (FP_PI - x)` is at most `FP_HALF_PI^2` for angles in the
/// first half turn.
proof fn lemma_sin_product_bound(x: int)
    by (nonlinear_arith)
    requires
        0 <= x <= FP_PI,
    ensures
        0 <= x * (FP_PI - x) <= 246_741_264,
{
    assert((x - FP_HALF_PI) * (x - FP_HALF_PI) >= 0);
}

/// The rational sine approximation stays within the fixed-point unit range.
pub proof fn lemma_sin_half_bounds(x: int)
    requires
        0 <= x <= FP_PI,
    ensures
        0 <= spec_sin_half(x) <= TRIG_ONE,
{
    lemma_sin_product_bound(x);
    let q = x * (FP_PI - x);
    let num = 160000 * q;
    let den = 4_934_825_280 - 4 * q;
    assert(num == spec_sin_num(x));
    assert(den == spec_sin_den(x));
    assert(den > 0);
    assert(num >= 0);
    lemma_div_pos_is_pos(num, den);
    assert(num <= 10000 * den);
    lemma_div_is_ordered(num, 10000 * den, den);
    lemma_div_by_multiple(10000, den);
}

/// Fixed-point sine on the first half turn.
fn sin_half(x: i64) -> (r: i64)
    requires
        0 <= x <= FP_PI,
    ensures
        r == spec_sin_half(x as int),
        0 <= r <= TRIG_ONE,
{
    proof {
        lemma_sin_product_bound(x as int);
        lemma_sin_half_bounds(x as int);
    }
    let q: u64 = (x as u64) * ((FP_PI - x) as u64);
    let num: u64 = 160000 * q;
    let den: u64 = 4_934_825_280 - 4 * q;
    let r: u64 = num / den;
    r as i64
}

/// Fixed-point sine of a nonnegative angle in ticks.
pub fn sin_fp(a: i64) -> (r: i64)
    requires
        0 <= a <= 10_000_000,
    ensures
        r == spec_sin_fp(a as int),
        -TRIG_ONE <= r <= TRIG_ONE,
{
    let n: i64 = ((a as u64) % (FP_TAU as u64)) as i64;
    if n < FP_PI {
        sin_half(n)
    } else {
        let s = sin_half(n - FP_PI);
        -s
    }
}

/// Fixed-point cosine of a nonnegative angle in ticks.
pub fn cos_fp(a: i64) -> (r: i64)
    requires
        0 <= a <= 9_000_000,
    ensures
        r == spec_cos_fp(a as int),
        -TRIG_ONE <= r <= TRIG_ONE,
{
    sin_fp(a + FP_HALF_PI)
}

} // verus!
