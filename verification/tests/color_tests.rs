use prim_batch::color::{gamma_srgb_to_linear, Rgba};

#[test]
fn saturated_red_stays_saturated() {
    let red = Rgba { r: 65536, g: 0, b: 0, a: 65536 };
    let lin = gamma_srgb_to_linear(red);
    assert_eq!(lin, Rgba { r: 65536, g: 0, b: 0, a: 65536 });
}

#[test]
fn mid_gray_converts_to_known_linear_value() {
    let gray = Rgba { r: 32768, g: 32768, b: 32768, a: 65536 };
    let lin = gamma_srgb_to_linear(gray);
    // 0.5 sRGB is about 0.214 linear; tolerance of 1e-3 is 65 fixed-point
    // units, and the exact fixed-point result is pinned as well.
    let target = (0.214f64 * 65536.0) as i64;
    assert!((lin.r as i64 - target).abs() <= 65);
    assert_eq!(lin.r, 14028);
    assert_eq!(lin.g, 14028);
    assert_eq!(lin.b, 14028);
    assert_eq!(lin.a, 65536);
}

#[test]
fn black_stays_black() {
    let black = Rgba { r: 0, g: 0, b: 0, a: 0 };
    assert_eq!(gamma_srgb_to_linear(black), Rgba { r: 0, g: 0, b: 0, a: 0 });
}

#[test]
fn linear_segment_below_cutoff() {
    // 2651 is the fixed-point cutoff; below it the curve is c / 12.92.
    let c = Rgba { r: 2651, g: 0, b: 0, a: 65536 };
    assert_eq!(gamma_srgb_to_linear(c).r, 205);
}

#[test]
fn alpha_passes_through_unchanged() {
    let c = Rgba { r: 30000, g: 2651, b: 0, a: 30000 };
    let lin = gamma_srgb_to_linear(c);
    assert_eq!(lin.a, 30000);
    assert_eq!(lin.r, 11601);
    assert_eq!(lin.g, 205);
}

#[test]
fn conversion_is_deterministic() {
    let c = Rgba { r: 12345, g: 54321, b: 7, a: 40000 };
    assert_eq!(gamma_srgb_to_linear(c), gamma_srgb_to_linear(c));
}
