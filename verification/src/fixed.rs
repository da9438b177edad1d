//! Fixed-point arithmetic on samples and coefficients.
//!
//! A sample is a signed integer in units of `1 / ONE`. A coefficient is a
//! ratio of two non-negative integers. Scaling rounds toward zero, so the
//! magnitude of a scaled sample never exceeds the exact product.

use vstd::prelude::*;

verus! {

/// The fixed-point representation of 1.0.
pub const ONE: u64 = 65536;

/// The largest magnitude that a sample may take.
pub const SAMPLE_LIMIT: i64 = 1_099_511_627_776;

/// The largest numerator or denominator of a coefficient.
pub const COEFF_LIMIT: u64 = 1_048_576;

/// The magnitude of an integer.
pub open spec fn magnitude(x: int) -> int {
    if x >= 0 {
        x
    } else {
        -x
    }
}

/// `x * num / den`, rounded toward zero.
pub open spec fn scaled(x: int, num: int, den: int) -> int {
    if x >= 0 {
        x * num / den
    } else {
        -((-x) * num / den)
    }
}

/// `x` limited to the closed range from `-limit` to `limit`.
pub open spec fn clamped(x: int, limit: int) -> int {
    if x > limit {
        limit
    } else if x < -limit {
        -limit
    } else {
        x
    }
}

/// Scaling by a ratio of at most one never increases the magnitude, and
/// keeps the sign.
pub proof fn lemma_scaled_bounds(x: int, num: int, den: int)
    requires
        0 <= num <= den,
        0 < den,
    ensures
        magnitude(scaled(x, num, den)) <= magnitude(x),
        magnitude(scaled(x, num, den)) * den <= magnitude(x) * num,
        x >= 0 ==> scaled(x, num, den) >= 0,
        x <= 0 ==> scaled(x, num, den) <= 0,
{
    let m = magnitude(x);
    assert(magnitude(scaled(x, num, den)) == m * num / den);
    assert(0 <= m * num <= m * den) by (nonlinear_arith)
        requires
            0 <= m,
            0 <= num <= den,
    ;
    assert(0 <= (m * num / den) * den <= m * num && m * num / den <= m) by (nonlinear_arith)
        requires
            0 <= m * num <= m * den,
            0 < den,
    ;
}

/// Scaling is monotone in the magnitude of the sample.
pub proof fn lemma_scaled_limit(x: int, num: int, den: int, limit: int)
    requires
        0 <= num,
        0 < den,
        magnitude(x) <= limit,
    ensures
        magnitude(scaled(x, num, den)) * den <= limit * num,
{
    let m = magnitude(x);
    assert(magnitude(scaled(x, num, den)) == m * num / den);
    assert((m * num / den) * den <= limit * num) by (nonlinear_arith)
        requires
            0 <= m <= limit,
            0 <= num,
            0 < den,
    ;
}

/// Multiplies a sample by `num / den`, rounding toward zero.
pub fn scale(x: i64, num: u64, den: u64) -> (r: i64)
    requires
        magnitude(x as int) * num <= i64::MAX,
        magnitude(x as int) <= i64::MAX,
        0 < den,
    ensures
        r == scaled(x as int, num as int, den as int),
{
    let m: u64 = if x >= 0 {
        x as u64
    } else {
        (-x) as u64
    };
    let q: u64 = m * num / den;
    assert(q <= m * num) by (nonlinear_arith)
        requires
            q == (m * num) / (den as int),
            0 < den,
            0 <= m * num,
    ;
    if x >= 0 {
        q as i64
    } else {
        -(q as i64)
    }
}

/// Limits a sample to the range from `-SAMPLE_LIMIT` to `SAMPLE_LIMIT`.
pub fn clamp(x: i64) -> (r: i64)
    ensures
        r == clamped(x as int, SAMPLE_LIMIT as int),
        -SAMPLE_LIMIT <= r <= SAMPLE_LIMIT,
{
    if x > SAMPLE_LIMIT {
        SAMPLE_LIMIT
    } else if x < -SAMPLE_LIMIT {
        -SAMPLE_LIMIT
    } else {
        x
    }
}

} // verus!
