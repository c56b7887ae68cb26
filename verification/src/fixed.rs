//! Fixed-point arithmetic helpers shared by the whole simulation.
//!
//! A quantity is an `i64` counting units of `1 / SCALE`; wide intermediate
//! products are carried in `i128` and clamped back into range, so that no
//! numerical edge case can abort a tick.

use vstd::prelude::*;

verus! {

/// One whole unit in fixed-point representation (16 fractional bits).
pub const SCALE: i64 = 65536;

/// One half in fixed-point representation.
pub const HALF: i64 = 32768;

/// Largest magnitude a stored terrain height may take.
pub const HMAX: i64 = 0x100_0000_0000;

/// Largest magnitude for droplet quantities (velocity, sediment) and for a
/// single deposit or erosion amount.
pub const QMAX: i64 = 0x1_0000_0000;

/// Largest magnitude a droplet coordinate may take.
pub const PMAX: i64 = 0x100_0000_0000;

/// Largest supported grid side length.
pub const MAX_SIZE: usize = 32768;

/// A droplet whose water volume falls below this threshold evaporates.
pub const WATER_EPSILON: i64 = 1;

/// Truncating (round-toward-zero) division: the meaning of `/` on `i64`
/// and `i128` values, for a positive divisor.
pub open spec fn tdiv(x: int, d: int) -> int
    recommends
        d > 0,
{
    if x >= 0 {
        x / d
    } else {
        -((-x) / d)
    }
}

/// `x` clamped into `[-bound, bound]`.
pub open spec fn spec_cap(x: int, bound: int) -> int
    recommends
        bound >= 0,
{
    if x < -bound {
        -bound
    } else if x > bound {
        bound
    } else {
        x
    }
}

/// Clamp a wide intermediate value into `[-bound, bound]`.
pub fn cap(x: i128, bound: i64) -> (r: i64)
    requires
        bound >= 0,
    ensures
        r == spec_cap(x as int, bound as int),
{
    if x < -(bound as i128) {
        -bound
    } else if x > bound as i128 {
        bound
    } else {
        x as i64
    }
}

/// The integer square root: the largest `r` with `r * r <= n`.
pub open spec fn spec_isqrt(n: int) -> int
    recommends
        n >= 0,
    decreases n,
{
    if n <= 0 {
        0
    } else {
        let r = spec_isqrt(n - 1);
        if (r + 1) * (r + 1) <= n {
            r + 1
        } else {
            r
        }
    }
}

/// `spec_isqrt(n)` is the integer square root of `n`.
pub proof fn lemma_isqrt_bounds(n: int)
    requires
        n >= 0,
    ensures
        0 <= spec_isqrt(n),
        spec_isqrt(n) * spec_isqrt(n) <= n,
        n < (spec_isqrt(n) + 1) * (spec_isqrt(n) + 1),
    decreases n,
{
    if n > 0 {
        lemma_isqrt_bounds(n - 1);
        let r = spec_isqrt(n - 1);
        if (r + 1) * (r + 1) <= n {
            assert((r + 1) * (r + 1) < (r + 2) * (r + 2)) by (nonlinear_arith)
                requires
                    r >= 0,
            ;
        }
    }
}

/// Any `r` bracketed by the square-root property equals `spec_isqrt(n)`.
pub proof fn lemma_isqrt_unique(n: int, r: int)
    requires
        n >= 0,
        0 <= r,
        r * r <= n,
        n < (r + 1) * (r + 1),
    ensures
        r == spec_isqrt(n),
{
    lemma_isqrt_bounds(n);
    let s = spec_isqrt(n);
    if r < s {
        assert((r + 1) * (r + 1) <= s * s) by (nonlinear_arith)
            requires
                0 <= r,
                r < s,
        ;
    }
    if s < r {
        assert((s + 1) * (s + 1) <= r * r) by (nonlinear_arith)
            requires
                0 <= s,
                s < r,
        ;
    }
}

/// Integer square root of a wide nonnegative value, by binary search.
pub fn isqrt(n: u128) -> (r: u64)
    requires
        n < 0x4000_0000_0000_0000_0000_0000_0000_0000u128,
    ensures
        r == spec_isqrt(n as int),
{
    let mut lo: u64 = 0;
    let mut hi: u64 = 0x8000_0000_0000_0000;
    assert((hi as int) * (hi as int) == 0x4000_0000_0000_0000_0000_0000_0000_0000int) by (nonlinear_arith)
        requires
            hi == 0x8000_0000_0000_0000u64,
    ;
    while lo + 1 < hi
        invariant
            lo < hi,
            hi <= 0x8000_0000_0000_0000,
            (lo as int) * (lo as int) <= n as int,
            (n as int) < (hi as int) * (hi as int),
        decreases hi - lo,
    {
        let mid: u64 = lo + (hi - lo) / 2;
        proof {
            assert((mid as int) * (mid as int) <= 0x8000_0000_0000_0000 * 0x8000_0000_0000_0000)
                by (nonlinear_arith)
                requires
                    0 <= mid as int <= 0x8000_0000_0000_0000,
            ;
        }
        if (mid as u128) * (mid as u128) <= n {
            lo = mid;
        } else {
            hi = mid;
        }
    }
    proof {
        lemma_isqrt_unique(n as int, lo as int);
    }
    lo
}

/// A truncating quotient is bounded when its numerator is.
pub proof fn lemma_tdiv_bound(x: int, d: int, b: int)
    requires
        d > 0,
        b >= 0,
        -(d * b) <= x <= d * b,
    ensures
        -b <= tdiv(x, d) <= b,
{
    if x >= 0 {
        vstd::arithmetic::div_mod::lemma_multiply_divide_le(x, d, b);
        vstd::arithmetic::div_mod::lemma_div_pos_is_pos(x, d);
    } else {
        vstd::arithmetic::div_mod::lemma_multiply_divide_le(-x, d, b);
        vstd::arithmetic::div_mod::lemma_div_pos_is_pos(-x, d);
    }
}

/// A truncating quotient by a scale at least the multiplier never grows:
/// `x * f / d <= x` for `0 <= x`, `0 <= f <= d`.
pub proof fn lemma_scaled_fraction_le(x: int, f: int, d: int)
    requires
        0 <= x,
        0 <= f <= d,
        0 < d,
    ensures
        0 <= x * f / d <= x,
{
    assert(x * f <= d * x) by (nonlinear_arith)
        requires
            0 <= x,
            0 <= f <= d,
    ;
    vstd::arithmetic::div_mod::lemma_multiply_divide_le(x * f, d, x);
    assert(x * f >= 0) by (nonlinear_arith)
        requires
            0 <= x,
            0 <= f,
    ;
    vstd::arithmetic::div_mod::lemma_div_pos_is_pos(x * f, d);
}

/// The integer square root never exceeds its argument's magnitude through a
/// square: if `x * x <= n` then `x <= spec_isqrt(n)`.
pub proof fn lemma_isqrt_ge(n: int, x: int)
    requires
        n >= 0,
        0 <= x,
        x * x <= n,
    ensures
        x <= spec_isqrt(n),
{
    lemma_isqrt_bounds(n);
    let s = spec_isqrt(n);
    if s < x {
        assert((s + 1) * (s + 1) <= x * x) by (nonlinear_arith)
            requires
                0 <= s,
                s < x,
        ;
    }
}

/// Monotonicity of the integer square root in its upper bound form:
/// if `n < b * b` then `spec_isqrt(n) < b`.
pub proof fn lemma_isqrt_lt(n: int, b: int)
    requires
        n >= 0,
        0 <= b,
        n < b * b,
    ensures
        spec_isqrt(n) < b,
{
    lemma_isqrt_bounds(n);
    let s = spec_isqrt(n);
    if b <= s {
        assert(b * b <= s * s) by (nonlinear_arith)
            requires
                0 <= b,
                b <= s,
        ;
    }
}

} // verus!
