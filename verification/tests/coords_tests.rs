use prim_batch::coords::{default_scizzor, to_gl_rect, vx, vy, FxRect, GlRect};
use prim_batch::FX_ONE;

#[test]
fn vx_maps_half_width_to_one() {
    // At framebuffer width 800 and scale factor one, logical x = 400 (half
    // the width) maps exactly to device coordinate 1.0.
    let x = 400 * FX_ONE;
    assert_eq!(vx(x, FX_ONE, 800), FX_ONE);
}

#[test]
fn vx_is_reproducible_for_identical_inputs() {
    let x = 123 * FX_ONE + 4567;
    let a = vx(x, FX_ONE + 123, 801);
    let b = vx(x, FX_ONE + 123, 801);
    assert_eq!(a, b);
}

#[test]
fn vx_center_maps_to_zero() {
    assert_eq!(vx(0, FX_ONE, 800), 0);
    assert_eq!(vy(0, FX_ONE, 600), 0);
}

#[test]
fn vy_maps_half_height_to_one() {
    let y = 300 * FX_ONE;
    assert_eq!(vy(y, FX_ONE, 600), FX_ONE);
    assert_eq!(vy(-y, FX_ONE, 600), -FX_ONE);
}

#[test]
fn vx_scales_with_dpi_factor() {
    // At scale factor two, half the distance reaches the edge.
    let x = 200 * FX_ONE;
    assert_eq!(vx(x, 2 * FX_ONE, 800), FX_ONE);
}

#[test]
fn full_window_rect_maps_to_default_scizzor() {
    let r = FxRect { l: -400 * FX_ONE, r: 400 * FX_ONE, b: -300 * FX_ONE, t: 300 * FX_ONE };
    let g = to_gl_rect(r, FX_ONE, 800, 600);
    assert_eq!(g, default_scizzor(800, 600));
    assert_eq!(g, GlRect { left: 0, bottom: 0, width: 800, height: 600 });
}

#[test]
fn clip_rect_is_clamped_to_framebuffer() {
    // A rectangle reaching far outside the window clamps to [0, w] x [0, h].
    let r = FxRect {
        l: -1000 * FX_ONE,
        r: 1000 * FX_ONE,
        b: -900 * FX_ONE,
        t: 900 * FX_ONE,
    };
    let g = to_gl_rect(r, FX_ONE, 800, 600);
    assert_eq!(g, GlRect { left: 0, bottom: 0, width: 800, height: 600 });
}

#[test]
fn clip_rect_rounds_half_away_from_zero() {
    // left = round(10.5 + 400) = 411 with rounding half away from zero.
    let r = FxRect {
        l: 10 * FX_ONE + FX_ONE / 2,
        r: 20 * FX_ONE,
        b: 0,
        t: 10 * FX_ONE,
    };
    let g = to_gl_rect(r, FX_ONE, 800, 600);
    assert_eq!(g.left, 411);
    assert_eq!(g.bottom, 300);
    // width = round(9.5) = 10.
    assert_eq!(g.width, 10);
    assert_eq!(g.height, 10);
}

#[test]
fn clip_rect_applies_scale_factor() {
    let r = FxRect { l: 0, r: 100 * FX_ONE, b: 0, t: 50 * FX_ONE };
    let g = to_gl_rect(r, 2 * FX_ONE, 800, 600);
    assert_eq!(g.left, 400);
    assert_eq!(g.bottom, 300);
    assert_eq!(g.width, 200);
    assert_eq!(g.height, 100);
}
