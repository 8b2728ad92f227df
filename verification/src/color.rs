//! Colors and the sRGB-to-linear transfer function, in 16.16 fixed point.
//!
//! A channel value `c` in `[0, 1]` converts with the standard two-piece
//! curve: `c / 12.92` on the linear segment below the 0.04045 cutoff, and
//! `((c + 0.055) / 1.055)^2.4` above it.  The power `x^2.4` is computed as
//! `x^2 * (x^2)^(1/5)`, with the fifth root taken as the floor integer root
//! and every division rounding half away from zero, so the conversion is
//! exact and reproducible.

use vstd::prelude::*;
use crate::fixed::round_div;
use crate::coords::lemma_round_div_bound;

verus! {

/// A color in linear-light RGBA, each channel a 16.16 fixed-point value in
/// `[0, FX_ONE]`.
#[derive(Clone, Copy, PartialEq, Eq, Structural, Debug)]
pub struct Rgba {
    /// Red channel.
    pub r: u32,
    /// Green channel.
    pub g: u32,
    /// Blue channel.
    pub b: u32,
    /// Alpha channel.
    pub a: u32,
}

/// The sRGB cutoff 0.04045 in fixed point (rounded).
pub const SRGB_CUTOFF_FX: u32 = 2651;

/// Whether a fixed-point color channel lies in `[0, 1]`.
pub open spec fn channel_ok(c: u32) -> bool {
    c <= 65536
}

/// Whether all four channels lie in `[0, 1]`.
pub open spec fn rgba_ok(c: Rgba) -> bool {
    channel_ok(c.r) && channel_ok(c.g) && channel_ok(c.b) && channel_ok(c.a)
}

/// The fifth power.
pub open spec fn pow5(r: int) -> int {
    r * r * r * r * r
}

/// Whether `r` is the floor integer fifth root of `x`.
pub open spec fn is_iroot5(x: int, r: int) -> bool {
    0 <= r && pow5(r) <= x && x < pow5(r + 1)
}

/// The floor integer fifth root of a nonnegative integer.
pub open spec fn iroot5_spec(x: int) -> int {
    choose|r: int| is_iroot5(x, r)
}

/// The fifth power is monotone over the nonnegative integers.
pub proof fn lemma_pow5_mono(a: int, b: int)
    requires
        0 <= a <= b,
    ensures
        pow5(a) <= pow5(b),
{
    assert(a * a * a * a * a <= b * b * b * b * b) by (nonlinear_arith)
        requires
            0 <= a <= b,
    ;
}

/// The floor fifth root is unique.
pub proof fn lemma_iroot5_unique(x: int, r1: int, r2: int)
    requires
        is_iroot5(x, r1),
        is_iroot5(x, r2),
    ensures
        r1 == r2,
{
    if r1 < r2 {
        lemma_pow5_mono(r1 + 1, r2);
    }
    if r2 < r1 {
        lemma_pow5_mono(r2 + 1, r1);
    }
}

/// Any witness pins down the value of `iroot5_spec`.
pub proof fn lemma_iroot5_spec_is(x: int, r: int)
    requires
        is_iroot5(x, r),
    ensures
        iroot5_spec(x) == r,
{
    assert(is_iroot5(x, iroot5_spec(x)));
    lemma_iroot5_unique(x, iroot5_spec(x), r);
}

/// Computes the floor integer fifth root by binary search.
fn iroot5(x: u128) -> (r: u64)
    requires
        x <= 0x1_0000_0000_0000_0000_0000,
    ensures
        is_iroot5(x as int, r as int),
        r <= 65536,
{
    let mut lo: u64 = 0;
    let mut hi: u64 = 65537;
    proof {
        assert(pow5(65537) == 65537int * 65537 * 65537 * 65537 * 65537);
        assert(65537int * 65537 * 65537 * 65537 * 65537 > 0x1_0000_0000_0000_0000_0000);
    }
    while lo + 1 < hi
        invariant
            lo < hi <= 65537,
            pow5(lo as int) <= x as int,
            (x as int) < pow5(hi as int),
        decreases hi - lo,
    {
        let mid = lo + (hi - lo) / 2;
        let mm = mid as u128;
        proof {
            assert(mm * mm <= 4_295_098_369) by (nonlinear_arith)
                requires
                    mm <= 65537,
            ;
            assert((mm * mm) * (mm * mm) <= 4_295_098_369 * 4_295_098_369)
                by (nonlinear_arith)
                requires
                    mm * mm <= 4_295_098_369,
            ;
            assert(((mm * mm) * (mm * mm)) * mm
                <= (4_295_098_369 * 4_295_098_369) * 65537) by (nonlinear_arith)
                requires
                    (mm * mm) * (mm * mm) <= 4_295_098_369 * 4_295_098_369,
                    mm <= 65537,
            ;
        }
        let p2 = mm * mm;
        let p4 = p2 * p2;
        let p5 = p4 * mm;
        proof {
            assert(p5 as int == pow5(mid as int)) by (nonlinear_arith)
                requires
                    p5 as int == ((mm as int * mm as int) * (mm as int * mm as int))
                        * (mm as int),
                    mm as int == mid as int,
            ;
        }
        if p5 <= x {
            lo = mid;
        } else {
            hi = mid;
        }
    }
    lo
}

/// The sRGB-to-linear transfer function on one fixed-point channel.
pub open spec fn gamma_channel_spec(c: u32) -> int
    recommends
        channel_ok(c),
{
    if c <= SRGB_CUTOFF_FX {
        round_div(100 * c, 1292)
    } else {
        let c1 = round_div(1000 * c + 55 * 65536, 1055);
        let s = round_div(c1 * c1, 65536);
        let t = iroot5_spec(s * 0x1_0000_0000_0000_0000);
        round_div(s * t, 65536)
    }
}

/// Rounding division over `u64`, for the small color intermediates.
fn round_div_u64(n: u64, m: u64) -> (r: u64)
    requires
        0 < m <= 0x4000_0000_0000_0000,
        n <= 0x4000_0000_0000_0000,
    ensures
        r as int == round_div(n as int, m as int),
{
    (2 * n + m) / (2 * m)
}

/// Converts one gamma-encoded channel to linear light.
pub fn gamma_channel(c: u32) -> (r: u32)
    requires
        channel_ok(c),
    ensures
        r as int == gamma_channel_spec(c),
        channel_ok(r),
{
    if c <= SRGB_CUTOFF_FX {
        let n: u64 = 100 * (c as u64);
        let q = round_div_u64(n, 1292);
        proof {
            lemma_round_div_bound(n as int, 1292, 65536);
        }
        q as u32
    } else {
        let n1: u64 = 1000 * (c as u64) + 55 * 65536;
        let c1 = round_div_u64(n1, 1055);
        proof {
            lemma_round_div_bound(n1 as int, 1055, 65536);
        }
        proof {
            assert(c1 * c1 <= 65536 * 65536) by (nonlinear_arith)
                requires
                    c1 <= 65536,
            ;
        }
        let n2: u64 = c1 * c1;
        let s = round_div_u64(n2, 65536);
        proof {
            lemma_round_div_bound(n2 as int, 65536, 65536);
        }
        let t = iroot5((s as u128) * 0x1_0000_0000_0000_0000);
        proof {
            lemma_iroot5_spec_is(
                (s as int) * 0x1_0000_0000_0000_0000,
                t as int,
            );
            assert(s * t <= 65536 * 65536) by (nonlinear_arith)
                requires
                    s <= 65536,
                    t <= 65536,
            ;
        }
        let n3: u64 = s * (t as u64);
        let q = round_div_u64(n3, 65536);
        proof {
            lemma_round_div_bound(n3 as int, 65536, 65536);
        }
        q as u32
    }
}

/// Converts a gamma-encoded (display) color to linear light: the transfer
/// function is applied to the red, green and blue channels, while alpha
/// passes through unchanged.
pub open spec fn gamma_srgb_to_linear_spec(c: Rgba) -> Rgba {
    Rgba {
        r: gamma_channel_spec(c.r) as u32,
        g: gamma_channel_spec(c.g) as u32,
        b: gamma_channel_spec(c.b) as u32,
        a: c.a,
    }
}

/// Converts gamma (brightness) from sRGB to linear color space.
pub fn gamma_srgb_to_linear(c: Rgba) -> (r: Rgba)
    requires
        rgba_ok(c),
    ensures
        r == gamma_srgb_to_linear_spec(c),
        rgba_ok(r),
{
    Rgba {
        r: gamma_channel(c.r),
        g: gamma_channel(c.g),
        b: gamma_channel(c.b),
        a: c.a,
    }
}

/// A saturated channel stays saturated: sRGB one converts to linear one.
pub proof fn lemma_gamma_one()
    ensures
        gamma_channel_spec(65536) == 65536,
{
    let n1: int = 1000int * 65536 + 55int * 65536;
    assert(n1 == 65536 * 1055);
    crate::coords::lemma_round_div_exact(65536, 1055);
    let c1 = round_div(n1, 1055);
    assert(c1 == 65536);
    assert(c1 * c1 == 65536 * 65536) by (nonlinear_arith)
        requires
            c1 == 65536,
    ;
    crate::coords::lemma_round_div_exact(65536, 65536);
    let s = round_div(c1 * c1, 65536);
    assert(s == 65536);
    assert(pow5(65536) == 65536int * 65536 * 65536 * 65536 * 65536);
    assert(65536int * 65536 * 65536 * 65536 * 65536 == 65536int * 0x1_0000_0000_0000_0000);
    assert(pow5(65537) == 65537int * 65537 * 65537 * 65537 * 65537);
    assert(65537int * 65537 * 65537 * 65537 * 65537 > 65536int * 0x1_0000_0000_0000_0000);
    assert(is_iroot5(65536int * 0x1_0000_0000_0000_0000, 65536));
    lemma_iroot5_spec_is(65536int * 0x1_0000_0000_0000_0000, 65536);
    let t = iroot5_spec(s * 0x1_0000_0000_0000_0000);
    assert(t == 65536);
    assert(s * t == 65536 * 65536) by (nonlinear_arith)
        requires
            s == 65536,
            t == 65536,
    ;
}

/// Black stays black: sRGB zero converts to linear zero.
pub proof fn lemma_gamma_zero()
    ensures
        gamma_channel_spec(0) == 0,
{
    vstd::arithmetic::div_mod::lemma_basic_div(1292, 2584);
    assert(round_div(0, 1292) == 0);
}

} // verus!
