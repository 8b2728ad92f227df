//! Fixed-point helpers: deterministic rounding division.
//!
//! Every scalar in the renderer is a 16.16 fixed-point number.  Rational
//! results are rounded half away from zero, the same rule `f64::round`
//! applies, so the mapping is exact and reproducible for identical inputs.

use vstd::prelude::*;

verus! {

/// `n / m` rounded half away from zero, for a positive divisor `m`.
pub open spec fn round_div(n: int, m: int) -> int
    recommends
        m > 0,
{
    if n >= 0 {
        (2 * n + m) / (2 * m)
    } else {
        -((2 * -n + m) / (2 * m))
    }
}

/// Executable rounding division over wide intermediates.
pub fn round_div_i128(n: i128, m: i128) -> (r: i128)
    requires
        0 < m <= 0x1000_0000_0000_0000,
        -0x1000_0000_0000_0000_0000_0000 <= n <= 0x1000_0000_0000_0000_0000_0000,
    ensures
        r == round_div(n as int, m as int),
{
    if n >= 0 {
        (2 * n + m) / (2 * m)
    } else {
        -((2 * -n + m) / (2 * m))
    }
}

/// `v` clamped into `[0, hi]`.
pub open spec fn clamp_to(v: int, hi: int) -> int
    recommends
        hi >= 0,
{
    if v < 0 {
        0
    } else if v > hi {
        hi
    } else {
        v
    }
}

} // verus!
