use raytrace::color::LinearColor;
use raytrace::color::add_linear_color;
use raytrace::color::linear_to_srgb;
use raytrace::color::scale_linear_color;
use raytrace::color::to_png_color;
use raytrace::fixed::Fx;
use raytrace::fixed::SCALE;

fn gray(raw: i64) -> LinearColor {
    LinearColor { red: Fx { v: raw }, green: Fx { v: raw }, blue: Fx { v: raw } }
}

#[test]
fn color_arithmetic_is_componentwise_and_unclamped() {
    let a = LinearColor { red: Fx { v: 8_000_000 }, green: Fx { v: 0 }, blue: Fx { v: SCALE } };
    let b = gray(8_000_000);
    let s = add_linear_color(&a, &b);
    // 0.8 + 0.8 exceeds one and stays there until encoding
    assert_eq!(s.red.v, 16_000_000);
    assert_eq!(s.green.v, 8_000_000);
    assert_eq!(s.blue.v, 18_000_000);
    let t = scale_linear_color(&a, Fx { v: 5_000_000 });
    assert_eq!(t.red.v, 4_000_000);
    assert_eq!(t.blue.v, 5_000_000);
}

#[test]
fn srgb_curve_midrange_value() {
    // the encoded value of one half, through the staged-roots power
    assert_eq!(linear_to_srgb(Fx { v: 5_000_000 }).v, 7_353_569);
}

#[test]
fn png_bytes_follow_the_transfer_curve() {
    assert_eq!(to_png_color(&gray(5_000_000)).red, 188);
    assert_eq!(to_png_color(&gray(2_000_000)).red, 124);
    // dark linear segment: 0.001 * 12.92 * 256 truncates to 3
    assert_eq!(to_png_color(&gray(10_000)).red, 3);
}

#[test]
fn png_bytes_clamp_at_both_ends() {
    // a full channel maps to 256 and is clamped to 255
    let w = to_png_color(&gray(SCALE));
    assert_eq!((w.red, w.green, w.blue), (255, 255, 255));
    // anything at or above one is a full byte
    assert_eq!(to_png_color(&gray(2 * SCALE)).red, 255);
    // negative light encodes to zero
    assert_eq!(to_png_color(&gray(-3_000_000)).red, 0);
    let z = to_png_color(&gray(0));
    assert_eq!((z.red, z.green, z.blue), (0, 0, 0));
}
