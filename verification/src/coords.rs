//! The coordinate mapper: stateless conversions from the UI's logical
//! coordinate space (16.16 fixed point, origin at the canvas centre, y up)
//! into normalized device coordinates, and from logical rectangles into
//! integer pixel-space clip rectangles.
//!
//! All conversions round half away from zero (see `fixed::round_div`), so
//! they are exact and reproducible for identical inputs.

use vstd::prelude::*;
use vstd::arithmetic::div_mod::{
    lemma_div_is_ordered, lemma_div_multiples_vanish_fancy, lemma_fundamental_div_mod,
};
use crate::fixed::{clamp_to, round_div, round_div_i128};
use crate::FX_ONE;

verus! {

/// `FX_ONE * FX_ONE`: the divisor that appears when two fixed-point factors
/// are multiplied.
pub const FX_SQ: i64 = 4_294_967_296;

/// Largest magnitude accepted for a logical coordinate, in fixed-point
/// units: one trillion-ish, far beyond any plausible window.
pub const COORD_LIMIT: i64 = 1_099_511_627_776;

/// Largest accepted display scale factor, in fixed-point units (256x).
pub const DPI_LIMIT: i64 = 16_777_216;

/// A logical-space rectangle in fixed-point scalar units.
#[derive(Clone, Copy, PartialEq, Eq, Structural, Debug)]
pub struct FxRect {
    /// Left edge.
    pub l: i64,
    /// Right edge.
    pub r: i64,
    /// Bottom edge.
    pub b: i64,
    /// Top edge.
    pub t: i64,
}

/// A clip rectangle in framebuffer pixel space, clamped to the framebuffer.
#[derive(Clone, Copy, PartialEq, Eq, Structural, Debug)]
pub struct GlRect {
    /// Offset of the left edge from the left of the framebuffer.
    pub left: u32,
    /// Offset of the bottom edge from the bottom of the framebuffer.
    pub bottom: u32,
    /// Width in pixels.
    pub width: u32,
    /// Height in pixels.
    pub height: u32,
}

/// Whether a fixed-point coordinate is within the accepted range.
pub open spec fn coord_ok(x: i64) -> bool {
    -COORD_LIMIT <= x <= COORD_LIMIT
}

/// Whether a fixed-point scale factor is within the accepted range.
pub open spec fn dpi_ok(d: i64) -> bool {
    1 <= d <= DPI_LIMIT
}

/// Whether a logical rectangle has ordered edges within the accepted range.
pub open spec fn fx_rect_ok(r: FxRect) -> bool {
    &&& coord_ok(r.l)
    &&& coord_ok(r.r)
    &&& coord_ok(r.b)
    &&& coord_ok(r.t)
    &&& r.l <= r.r
    &&& r.b <= r.t
}

/// The horizontal logical-to-device mapping `vx(x) = x*d / (w/2)`, expressed
/// over fixed-point values: both `x` and `d` carry a denominator of
/// `FX_ONE`, and so does the result.
pub open spec fn vx_spec(x: i64, d: i64, w: u32) -> int {
    round_div(2 * x * d, (FX_ONE as int) * (w as int))
}

/// The vertical logical-to-device mapping `vy(y) = y*d / (h/2)`.
pub open spec fn vy_spec(y: i64, d: i64, h: u32) -> int {
    round_div(2 * y * d, (FX_ONE as int) * (h as int))
}

/// Mapping of a horizontal framebuffer pixel coordinate to normalized
/// device coordinates: `(px/w - 1/2) * 2`, as a fixed-point value.
pub open spec fn gx_spec(px: i64, w: u32) -> int {
    round_div((2 * px - w as int) * (FX_ONE as int), w as int)
}

/// Mapping of a vertical framebuffer pixel coordinate (y down) to
/// normalized device coordinates (y up): `(1/2 - py/h) * 2`.
pub open spec fn gy_spec(py: i64, h: u32) -> int {
    round_div((h as int - 2 * py) * (FX_ONE as int), h as int)
}

/// The pixel-space clip rectangle of a logical rectangle:
/// `left = round(l*d + w/2)`, `width = round((r-l)*d)`, and so on, each
/// clamped into `[0, w]` respectively `[0, h]`.
pub open spec fn to_gl_rect_spec(r: FxRect, d: i64, w: u32, h: u32) -> GlRect {
    GlRect {
        left: clamp_to(
            round_div(2 * r.l * d + (w as int) * (FX_SQ as int), 2 * (FX_SQ as int)),
            w as int,
        ) as u32,
        bottom: clamp_to(
            round_div(2 * r.b * d + (h as int) * (FX_SQ as int), 2 * (FX_SQ as int)),
            h as int,
        ) as u32,
        width: clamp_to(round_div((r.r - r.l) * d, FX_SQ as int), w as int) as u32,
        height: clamp_to(round_div((r.t - r.b) * d, FX_SQ as int), h as int) as u32,
    }
}

/// The whole-framebuffer clip rectangle: the default clip state of a frame.
pub open spec fn default_scizzor_spec(w: u32, h: u32) -> GlRect {
    GlRect { left: 0, bottom: 0, width: w, height: h }
}

/// Builds the whole-framebuffer clip rectangle.
pub fn default_scizzor(w: u32, h: u32) -> (r: GlRect)
    ensures
        r == default_scizzor_spec(w, h),
{
    GlRect { left: 0, bottom: 0, width: w, height: h }
}

/// A bound on the result of a rounding division follows from a bound on the
/// dividend.
pub proof fn lemma_round_div_bound(n: int, m: int, b: int)
    requires
        m > 0,
        b >= 0,
        -(b * m) <= n <= b * m,
    ensures
        -b <= round_div(n, m) <= b,
{
    assert((2 * m) * b + m == 2 * (b * m) + m) by (nonlinear_arith);
    lemma_div_multiples_vanish_fancy(b, m, 2 * m);
    if n >= 0 {
        lemma_div_is_ordered(2 * n + m, 2 * (b * m) + m, 2 * m);
        assert(0 <= 2 * n + m);
        assert((2 * n + m) / (2 * m) >= 0) by (nonlinear_arith)
            requires 0 <= 2 * n + m && 0 < 2 * m;
    } else {
        lemma_div_is_ordered(2 * -n + m, 2 * (b * m) + m, 2 * m);
        assert((2 * -n + m) / (2 * m) >= 0) by (nonlinear_arith)
            requires 0 <= 2 * -n + m && 0 < 2 * m;
    }
}


/// The rounding division is monotone in its dividend.
pub proof fn lemma_round_div_mono(n1: int, n2: int, m: int)
    requires
        m > 0,
        n1 <= n2,
    ensures
        round_div(n1, m) <= round_div(n2, m),
{
    if n1 >= 0 {
        lemma_div_is_ordered(2 * n1 + m, 2 * n2 + m, 2 * m);
    } else if n2 < 0 {
        lemma_div_is_ordered(2 * -n2 + m, 2 * -n1 + m, 2 * m);
    } else {
        assert((2 * -n1 + m) / (2 * m) >= 0) by (nonlinear_arith)
            requires
                0 <= 2 * -n1 + m,
                0 < 2 * m,
        ;
        assert((2 * n2 + m) / (2 * m) >= 0) by (nonlinear_arith)
            requires
                0 <= 2 * n2 + m,
                0 < 2 * m,
        ;
    }
}

/// A rounding division of an exact multiple is exact.
pub proof fn lemma_round_div_exact(k: int, m: int)
    requires
        m > 0,
    ensures
        round_div(k * m, m) == k,
{
    if k * m >= 0 {
        assert(2 * (k * m) + m == (2 * m) * k + m) by (nonlinear_arith);
        lemma_div_multiples_vanish_fancy(k, m, 2 * m);
    } else {
        assert(2 * -(k * m) + m == (2 * m) * (-k) + m) by (nonlinear_arith);
        lemma_div_multiples_vanish_fancy(-k, m, 2 * m);
    }
}

/// The horizontal device coordinate of a logical coordinate.
pub fn vx(x: i64, d: i64, w: u32) -> (r: i64)
    requires
        coord_ok(x),
        dpi_ok(d),
        w >= 1,
    ensures
        r as int == vx_spec(x, d, w),
{
    proof {
        assert(-0x2_0000_0000_0000_0000 <= 2 * (x as int) * (d as int)
            <= 0x2_0000_0000_0000_0000) by (nonlinear_arith)
            requires
                -1_099_511_627_776 <= x as int <= 1_099_511_627_776,
                1 <= d as int <= 16_777_216,
        ;
        assert(65536 <= 65536 * (w as int) <= 0x1_0000_0000_0000) by (nonlinear_arith)
            requires
                1 <= w as int <= 0xFFFF_FFFF,
        ;
    }
    let n: i128 = 2 * (x as i128) * (d as i128);
    let m: i128 = (FX_ONE as i128) * (w as i128);
    proof {
        assert(0x4_0000_0000_0000 * (m as int) >= 0x4_0000_0000_0000_0000)
            by (nonlinear_arith)
            requires
                m as int >= 65536,
        ;
        assert(-(0x4_0000_0000_0000 * (m as int)) <= n as int
            <= 0x4_0000_0000_0000 * (m as int));
        lemma_round_div_bound(n as int, m as int, 0x4_0000_0000_0000);
    }
    let q = round_div_i128(n, m);
    q as i64
}

/// The vertical device coordinate of a logical coordinate.
pub fn vy(y: i64, d: i64, h: u32) -> (r: i64)
    requires
        coord_ok(y),
        dpi_ok(d),
        h >= 1,
    ensures
        r as int == vy_spec(y, d, h),
{
    proof {
        assert(-0x2_0000_0000_0000_0000 <= 2 * (y as int) * (d as int)
            <= 0x2_0000_0000_0000_0000) by (nonlinear_arith)
            requires
                -1_099_511_627_776 <= y as int <= 1_099_511_627_776,
                1 <= d as int <= 16_777_216,
        ;
        assert(65536 <= 65536 * (h as int) <= 0x1_0000_0000_0000) by (nonlinear_arith)
            requires
                1 <= h as int <= 0xFFFF_FFFF,
        ;
    }
    let n: i128 = 2 * (y as i128) * (d as i128);
    let m: i128 = (FX_ONE as i128) * (h as i128);
    proof {
        assert(0x4_0000_0000_0000 * (m as int) >= 0x4_0000_0000_0000_0000)
            by (nonlinear_arith)
            requires
                m as int >= 65536,
        ;
        assert(-(0x4_0000_0000_0000 * (m as int)) <= n as int
            <= 0x4_0000_0000_0000 * (m as int));
        lemma_round_div_bound(n as int, m as int, 0x4_0000_0000_0000);
    }
    let q = round_div_i128(n, m);
    q as i64
}

/// The horizontal device coordinate of a framebuffer pixel coordinate.
pub fn gx(px: i64, w: u32) -> (r: i64)
    requires
        -2 * COORD_LIMIT <= px <= 2 * COORD_LIMIT,
        w >= 1,
    ensures
        r as int == gx_spec(px, w),
{
    proof {
        assert(-0x800_0000_0000_0000 <= (2 * (px as int) - (w as int)) * 65536
            <= 0x800_0000_0000_0000) by (nonlinear_arith)
            requires
                -2_199_023_255_552 <= px as int <= 2_199_023_255_552,
                1 <= w as int <= 0x1_0000_0000,
        ;
    }
    let n: i128 = (2 * (px as i128) - (w as i128)) * (FX_ONE as i128);
    let m: i128 = w as i128;
    proof {
        assert(-(0x800_0000_0000_0000 * (m as int)) <= n as int
            <= 0x800_0000_0000_0000 * (m as int)) by (nonlinear_arith)
            requires
                m as int >= 1,
                -0x800_0000_0000_0000 <= n as int <= 0x800_0000_0000_0000,
        ;
        lemma_round_div_bound(n as int, m as int, 0x800_0000_0000_0000);
    }
    let q = round_div_i128(n, m);
    q as i64
}

/// The vertical device coordinate of a framebuffer pixel coordinate
/// (pixel y grows downward, device y grows upward).
pub fn gy(py: i64, h: u32) -> (r: i64)
    requires
        -2 * COORD_LIMIT <= py <= 2 * COORD_LIMIT,
        h >= 1,
    ensures
        r as int == gy_spec(py, h),
{
    proof {
        assert(-0x800_0000_0000_0000 <= ((h as int) - 2 * (py as int)) * 65536
            <= 0x800_0000_0000_0000) by (nonlinear_arith)
            requires
                -2_199_023_255_552 <= py as int <= 2_199_023_255_552,
                1 <= h as int <= 0x1_0000_0000,
        ;
    }
    let n: i128 = ((h as i128) - 2 * (py as i128)) * (FX_ONE as i128);
    let m: i128 = h as i128;
    proof {
        assert(-(0x800_0000_0000_0000 * (m as int)) <= n as int
            <= 0x800_0000_0000_0000 * (m as int)) by (nonlinear_arith)
            requires
                m as int >= 1,
                -0x800_0000_0000_0000 <= n as int <= 0x800_0000_0000_0000,
        ;
        lemma_round_div_bound(n as int, m as int, 0x800_0000_0000_0000);
    }
    let q = round_div_i128(n, m);
    q as i64
}

/// Clamps a wide intermediate into `[0, hi]` and narrows it.
fn clamp_u32(q: i128, hi: u32) -> (r: u32)
    ensures
        r as int == clamp_to(q as int, hi as int),
{
    if q < 0 {
        0
    } else if q > hi as i128 {
        hi
    } else {
        q as u32
    }
}

/// Converts a logical-space rectangle into an integer pixel-space clip
/// rectangle, clamped to the framebuffer.
pub fn to_gl_rect(r: FxRect, d: i64, w: u32, h: u32) -> (g: GlRect)
    requires
        fx_rect_ok(r),
        dpi_ok(d),
        w >= 1,
        h >= 1,
    ensures
        g == to_gl_rect_spec(r, d, w, h),
{
    proof {
        assert(-0x2_0000_0000_0000_0000_0000 <= 2 * (r.l as int) * (d as int)
            <= 0x2_0000_0000_0000_0000) by (nonlinear_arith)
            requires
                -1_099_511_627_776 <= r.l as int <= 1_099_511_627_776,
                1 <= d as int <= 16_777_216,
        ;
        assert(-0x2_0000_0000_0000_0000_0000 <= 2 * (r.b as int) * (d as int)
            <= 0x2_0000_0000_0000_0000) by (nonlinear_arith)
            requires
                -1_099_511_627_776 <= r.b as int <= 1_099_511_627_776,
                1 <= d as int <= 16_777_216,
        ;
        assert(0 <= (w as int) * (FX_SQ as int) <= 0x1_0000_0000_0000_0000)
            by (nonlinear_arith)
            requires
                1 <= w as int <= 0x1_0000_0000,
                FX_SQ as int == 0x1_0000_0000,
        ;
        assert(0 <= (h as int) * (FX_SQ as int) <= 0x1_0000_0000_0000_0000)
            by (nonlinear_arith)
            requires
                1 <= h as int <= 0x1_0000_0000,
                FX_SQ as int == 0x1_0000_0000,
        ;
        assert(-0x8_0000_0000_0000_0000_0000 <= ((r.r as int) - (r.l as int)) * (d as int)
            <= 0x8_0000_0000_0000_0000_0000) by (nonlinear_arith)
            requires
                -1_099_511_627_776 <= r.l as int <= 1_099_511_627_776,
                -1_099_511_627_776 <= r.r as int <= 1_099_511_627_776,
                1 <= d as int <= 16_777_216,
        ;
        assert(-0x8_0000_0000_0000_0000_0000 <= ((r.t as int) - (r.b as int)) * (d as int)
            <= 0x8_0000_0000_0000_0000_0000) by (nonlinear_arith)
            requires
                -1_099_511_627_776 <= r.b as int <= 1_099_511_627_776,
                -1_099_511_627_776 <= r.t as int <= 1_099_511_627_776,
                1 <= d as int <= 16_777_216,
        ;
    }
    let fx_sq: i128 = FX_SQ as i128;
    let nl: i128 = 2 * (r.l as i128) * (d as i128) + (w as i128) * fx_sq;
    let nb: i128 = 2 * (r.b as i128) * (d as i128) + (h as i128) * fx_sq;
    let nw: i128 = ((r.r as i128) - (r.l as i128)) * (d as i128);
    let nh: i128 = ((r.t as i128) - (r.b as i128)) * (d as i128);
    let ql = round_div_i128(nl, 2 * fx_sq);
    let qb = round_div_i128(nb, 2 * fx_sq);
    let qw = round_div_i128(nw, fx_sq);
    let qh = round_div_i128(nh, fx_sq);
    GlRect {
        left: clamp_u32(ql, w),
        bottom: clamp_u32(qb, h),
        width: clamp_u32(qw, w),
        height: clamp_u32(qh, h),
    }
}

/// At scale factor one, the logical coordinate sitting half a framebuffer
/// width right of the centre maps exactly to device coordinate one.
pub proof fn lemma_vx_unit(w: u32)
    requires
        w >= 1,
        w % 2 == 0,
    ensures
        vx_spec(((w as int / 2) * (FX_ONE as int)) as i64, FX_ONE, w) == FX_ONE as int,
{
    let half = w as int / 2;
    lemma_fundamental_div_mod(w as int, 2);
    assert(w as int == 2 * half);
    let x = ((w as int / 2) * (FX_ONE as int)) as i64;
    let m = (FX_ONE as int) * (w as int);
    assert(2 * (x as int) * (FX_ONE as int) == 65536 * m) by (nonlinear_arith)
        requires
            x as int == half * 65536,
            w as int == 2 * half,
            m == 65536 * (w as int),
    ;
    lemma_round_div_exact(65536, m);
    assert(65536 * m == m * 65536) by (nonlinear_arith);
}

/// The horizontal mapping is additive wherever it incurs no rounding: on
/// inputs that the map carries to exact fixed-point values, mapping a sum
/// gives the sum of the mapped values.  This is the sense in which the
/// mapping is linear; away from exact points it deviates by at most the
/// rounding of a single division.
pub proof fn lemma_vx_linear(x1: i64, x2: i64, d: i64, w: u32)
    requires
        w >= 1,
        (2 * x1 * d) % ((FX_ONE as int) * (w as int)) == 0,
        (2 * x2 * d) % ((FX_ONE as int) * (w as int)) == 0,
        coord_ok(x1),
        coord_ok(x2),
        coord_ok((x1 + x2) as i64),
    ensures
        vx_spec((x1 + x2) as i64, d, w) == vx_spec(x1, d, w) + vx_spec(x2, d, w),
{
    let m = (FX_ONE as int) * (w as int);
    let n1 = 2 * x1 * d;
    let n2 = 2 * x2 * d;
    assert(m > 0) by (nonlinear_arith)
        requires
            m == 65536 * (w as int),
            1 <= w as int,
    ;
    lemma_fundamental_div_mod(n1, m);
    lemma_fundamental_div_mod(n2, m);
    let k1 = n1 / m;
    let k2 = n2 / m;
    assert(n1 == k1 * m) by (nonlinear_arith)
        requires
            n1 == m * k1 + n1 % m,
            n1 % m == 0,
    ;
    assert(n2 == k2 * m) by (nonlinear_arith)
        requires
            n2 == m * k2 + n2 % m,
            n2 % m == 0,
    ;
    lemma_round_div_exact(k1, m);
    lemma_round_div_exact(k2, m);
    let s = (x1 + x2) as i64;
    assert(s as int == x1 + x2);
    assert(2 * (s as int) * d == (k1 + k2) * m) by (nonlinear_arith)
        requires
            s as int == x1 as int + x2 as int,
            2 * x1 * d == k1 * m,
            2 * x2 * d == k2 * m,
    ;
    lemma_round_div_exact(k1 + k2, m);
}

} // verus!
