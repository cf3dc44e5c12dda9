//! Fixed-point scalars.
//!
//! Every physical quantity in this crate is a signed 64-bit integer counting
//! millionths of its unit: a depth of `1.5` meters is stored as `1_500_000`.
//! This module holds the scale constant, the bounds inside which all the
//! hydraulic formulas are proved free of overflow, and the exact integer
//! square- and cube-root routines that stand in for `sqrt` and `powf(2/3)`.

use vstd::prelude::*;

verus! {

/// Number of fixed-point units per physical unit (six decimal places).
pub const SCALE: i64 = 1_000_000;

/// Largest magnitude of a cell elevation: 10_000 m.
pub const ELEVATION_LIMIT: i64 = 10_000_000_000;

/// Largest water depth a single cell may carry, and also the largest total
/// depth a whole grid may carry: 1_000 m.
pub const DEPTH_LIMIT: i64 = 1_000_000_000;

/// Largest Strickler roughness coefficient: 100.
pub const KST_LIMIT: i64 = 100_000_000;

/// Smallest cell edge length: 1 m.
pub const CELL_SIZE_MIN: i64 = 1_000_000;

/// Largest cell edge length: 100 m.
pub const CELL_SIZE_MAX: i64 = 100_000_000;

/// Largest timestep: 1_000 s.
pub const TIMESTEP_LIMIT: i64 = 1_000_000_000;

/// `r` is the integer square root of `x`, rounded down.
pub open spec fn is_sqrt_floor(x: int, r: int) -> bool {
    0 <= r && r * r <= x && x < (r + 1) * (r + 1)
}

/// The integer square root of `x`, rounded down (meaningful for `x >= 0`).
pub open spec fn sqrt_floor(x: int) -> int {
    choose|r: int| is_sqrt_floor(x, r)
}

/// `r` is the integer cube root of `x`, rounded down.
pub open spec fn is_cbrt_floor(x: int, r: int) -> bool {
    0 <= r && r * r * r <= x && x < (r + 1) * (r + 1) * (r + 1)
}

/// The integer cube root of `x`, rounded down (meaningful for `x >= 0`).
pub open spec fn cbrt_floor(x: int) -> int {
    choose|r: int| is_cbrt_floor(x, r)
}

/// At most one `r` satisfies `is_sqrt_floor(x, r)`, so `sqrt_floor(x)` is it.
pub proof fn lemma_sqrt_floor_unique(x: int, r: int)
    requires
        is_sqrt_floor(x, r),
    ensures
        sqrt_floor(x) == r,
{
    let s = sqrt_floor(x);
    assert(is_sqrt_floor(x, s));
    if s < r {
        assert((s + 1) * (s + 1) <= r * r) by (nonlinear_arith)
            requires 0 <= s, s < r;
    }
    if r < s {
        assert((r + 1) * (r + 1) <= s * s) by (nonlinear_arith)
            requires 0 <= r, r < s;
    }
}

/// A square root stays below any `b` whose square reaches the argument.
pub proof fn lemma_sqrt_floor_bound(x: int, r: int, b: int)
    requires
        is_sqrt_floor(x, r),
        0 <= b,
        x <= b * b,
    ensures
        r <= b,
{
    if b < r {
        assert(b * b < r * r) by (nonlinear_arith)
            requires 0 <= b, b < r;
    }
}

/// At most one `r` satisfies `is_cbrt_floor(x, r)`, so `cbrt_floor(x)` is it.
pub proof fn lemma_cbrt_floor_unique(x: int, r: int)
    requires
        is_cbrt_floor(x, r),
    ensures
        cbrt_floor(x) == r,
{
    let s = cbrt_floor(x);
    assert(is_cbrt_floor(x, s));
    if s < r {
        assert((s + 1) * (s + 1) * (s + 1) <= r * r * r) by (nonlinear_arith)
            requires 0 <= s, s < r;
    }
    if r < s {
        assert((r + 1) * (r + 1) * (r + 1) <= s * s * s) by (nonlinear_arith)
            requires 0 <= r, r < s;
    }
}

/// A cube root stays below any `b` whose cube reaches the argument.
pub proof fn lemma_cbrt_floor_bound(x: int, r: int, b: int)
    requires
        is_cbrt_floor(x, r),
        0 <= b,
        x <= b * b * b,
    ensures
        r <= b,
{
    if b < r {
        assert(b * b * b < r * r * r) by (nonlinear_arith)
            requires 0 <= b, b < r;
    }
}

/// A floor-divided product is bounded by the floor-divided product of the
/// factors' bounds.
pub proof fn lemma_muldiv_bound(a: int, amax: int, b: int, bmax: int, d: int, dmin: int)
    requires
        0 <= a <= amax,
        0 <= b <= bmax,
        0 < dmin <= d,
    ensures
        0 <= a * b / d <= amax * bmax / dmin,
{
    assert(a * b <= amax * bmax && 0 <= a * b) by (nonlinear_arith)
        requires 0 <= a <= amax, 0 <= b <= bmax;
    vstd::arithmetic::div_mod::lemma_div_pos_is_pos(a * b, d);
    vstd::arithmetic::div_mod::lemma_div_is_ordered(a * b, amax * bmax, d);
    vstd::arithmetic::div_mod::lemma_div_is_ordered_by_denominator(amax * bmax, dmin, d);
}

/// `a * b / d` rounded down, with the product carried in 128 bits.
pub fn mul_div(a: i64, b: i64, d: i64) -> (r: i64)
    requires
        0 <= a,
        0 <= b,
        0 < d,
        a * b / (d as int) <= i64::MAX,
    ensures
        r == a * b / (d as int),
{
    proof {
        assert(a * b <= i64::MAX * i64::MAX) by (nonlinear_arith)
            requires 0 <= a <= i64::MAX, 0 <= b <= i64::MAX;
        assert(0 <= a * b) by (nonlinear_arith)
            requires 0 <= a, 0 <= b;
    }
    let p: u128 = (a as u128) * (b as u128);
    let q: u128 = p / (d as u128);
    q as i64
}

/// Integer square root by binary search over `[0, 2^64]`.
fn isqrt_u128(x: u128) -> (r: u128)
    ensures
        is_sqrt_floor(x as int, r as int),
        r == sqrt_floor(x as int),
        r < 0x1_0000_0000_0000_0000u128,
{
    let mut lo: u128 = 0;
    let mut hi: u128 = 0x1_0000_0000_0000_0000u128;
    while hi - lo > 1
        invariant
            lo < hi,
            hi <= 0x1_0000_0000_0000_0000u128,
            lo * lo <= x,
            x < hi * hi,
        decreases hi - lo,
    {
        let mid: u128 = lo + (hi - lo) / 2;
        proof {
            assert(mid * mid < u128::MAX) by (nonlinear_arith)
                requires mid < 0x1_0000_0000_0000_0000u128;
        }
        if mid * mid <= x {
            lo = mid;
        } else {
            hi = mid;
        }
    }
    proof {
        lemma_sqrt_floor_unique(x as int, lo as int);
    }
    lo
}

/// Integer cube root by binary search over `[0, 2^42]`; the input must stay
/// below `2^126` so that the search can cube its probes in 128 bits.
fn icbrt_u128(x: u128) -> (r: u128)
    requires
        x < (0x400_0000_0000u128 as int) * (0x400_0000_0000u128 as int) * (0x400_0000_0000u128 as int),
    ensures
        is_cbrt_floor(x as int, r as int),
        r == cbrt_floor(x as int),
        r < 0x400_0000_0000u128,
{
    let mut lo: u128 = 0;
    let mut hi: u128 = 0x400_0000_0000u128;
    while hi - lo > 1
        invariant
            lo < hi,
            hi <= 0x400_0000_0000u128,
            lo * lo * lo <= x,
            x < hi * hi * hi,
        decreases hi - lo,
    {
        let mid: u128 = lo + (hi - lo) / 2;
        proof {
            assert(mid * mid < u128::MAX && mid * mid * mid < u128::MAX) by (nonlinear_arith)
                requires mid < 0x400_0000_0000u128;
        }
        if mid * mid * mid <= x {
            lo = mid;
        } else {
            hi = mid;
        }
    }
    proof {
        lemma_cbrt_floor_unique(x as int, lo as int);
    }
    lo
}

/// Fixed-point square root: the integer square root of `x * SCALE`, which in
/// physical units is `sqrt(x / SCALE) * SCALE`, rounded down.
pub fn sqrt_fp(x: i64) -> (r: i64)
    requires
        0 <= x,
    ensures
        r == sqrt_floor(x * SCALE),
        is_sqrt_floor(x * SCALE, r as int),
        0 <= r <= 4_000_000_000_000i64,
{
    proof {
        assert((x as u128) * (SCALE as u128) == x * SCALE) by (nonlinear_arith)
            requires 0 <= x;
    }
    let s = isqrt_u128((x as u128) * (SCALE as u128));
    proof {
        assert(x * SCALE <= 4_000_000_000_000 * 4_000_000_000_000) by (nonlinear_arith)
            requires 0 <= x <= i64::MAX, SCALE == 1_000_000;
        lemma_sqrt_floor_bound(x * SCALE, s as int, 4_000_000_000_000);
    }
    s as i64
}

/// Fixed-point two-thirds power: the integer cube root of `x * x * SCALE`,
/// which in physical units is `(x / SCALE) ^ (2/3) * SCALE`, rounded down.
pub fn pow_two_thirds_fp(x: i64) -> (r: i64)
    requires
        0 <= x <= 1_000_000_000_000_000i64,
    ensures
        r == cbrt_floor(x * x * SCALE),
        is_cbrt_floor(x * x * SCALE, r as int),
        0 <= r <= 1_000_000_000_000i64,
{
    proof {
        assert((x as u128) * (x as u128) * (SCALE as u128) == x * x * SCALE
            && x * x * SCALE < (0x400_0000_0000 as int) * (0x400_0000_0000 as int) * (0x400_0000_0000 as int)
            && x * x * SCALE <= 1_000_000_000_000 * 1_000_000_000_000 * 1_000_000_000_000)
            by (nonlinear_arith)
            requires 0 <= x <= 1_000_000_000_000_000i64, SCALE == 1_000_000;
    }
    let c = icbrt_u128((x as u128) * (x as u128) * (SCALE as u128));
    proof {
        lemma_cbrt_floor_bound(x * x * SCALE, c as int, 1_000_000_000_000);
    }
    c as i64
}

} // verus!
