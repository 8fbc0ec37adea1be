use raytrace::fixed::Fx;
use raytrace::fixed::SCALE;
use raytrace::fixed::fx_abs;
use raytrace::fixed::fx_add;
use raytrace::fixed::fx_div;
use raytrace::fixed::fx_floor;
use raytrace::fixed::fx_from_int;
use raytrace::fixed::fx_mul;
use raytrace::fixed::fx_neg;
use raytrace::fixed::fx_pow;
use raytrace::fixed::fx_sqrt;
use raytrace::fixed::fx_sub;

fn v(raw: i64) -> Fx {
    Fx { v: raw }
}

#[test]
fn mul_is_exact_on_decimal_inputs() {
    // 1.5 * 2.5 == 3.75
    assert_eq!(fx_mul(v(15_000_000), v(25_000_000)).v, 37_500_000);
    // negative operands truncate toward zero
    assert_eq!(fx_mul(v(-15_000_000), v(25_000_000)).v, -37_500_000);
    assert_eq!(fx_mul(v(1), v(1)).v, 0);
}

#[test]
fn div_truncates_toward_zero() {
    // 1 / 3 == 0.3333333
    assert_eq!(fx_div(v(SCALE), v(30_000_000)).v, 3_333_333);
    assert_eq!(fx_div(v(-SCALE), v(30_000_000)).v, -3_333_333);
    assert_eq!(fx_div(v(SCALE), v(-30_000_000)).v, -3_333_333);
}

#[test]
fn add_and_neg_saturate_at_the_machine_range() {
    assert_eq!(fx_add(v(i64::MAX), v(1)).v, i64::MAX);
    assert_eq!(fx_sub(v(i64::MIN), v(1)).v, i64::MIN);
    assert_eq!(fx_neg(v(i64::MIN)).v, i64::MAX);
    assert_eq!(fx_abs(v(i64::MIN)).v, i64::MAX);
    assert_eq!(fx_add(v(3), v(4)).v, 7);
}

#[test]
fn sqrt_rounds_down() {
    assert_eq!(fx_sqrt(v(2 * SCALE)).v, 14_142_135);
    assert_eq!(fx_sqrt(v(SCALE)).v, SCALE);
    assert_eq!(fx_sqrt(v(0)).v, 0);
    assert_eq!(fx_sqrt(v(-5_000_000)).v, 0);
    // 3^2 + 4^2 gives exactly 5
    assert_eq!(fx_sqrt(v(250_000_000)).v, 50_000_000);
}

#[test]
fn floor_rounds_toward_negative_infinity() {
    assert_eq!(fx_floor(v(15_000_000)), 1);
    assert_eq!(fx_floor(v(-5_000_000)), -1);
    assert_eq!(fx_floor(v(-20_000_000)), -2);
    assert_eq!(fx_floor(v(0)), 0);
    assert_eq!(fx_floor(v(9_999_999)), 0);
}

#[test]
fn pow_multiplies_repeatedly() {
    assert_eq!(fx_pow(v(5_000_000), 2).v, 2_500_000);
    assert_eq!(fx_pow(v(5_000_000), 0).v, SCALE);
    assert_eq!(fx_pow(v(SCALE), 50).v, SCALE);
    assert_eq!(fx_pow(v(0), 3).v, 0);
    // an even power of a negative base comes out positive
    assert_eq!(fx_pow(v(-5_000_000), 2).v, 2_500_000);
    assert_eq!(fx_pow(v(-SCALE), 3).v, -SCALE);
}

#[test]
fn from_int_scales_and_saturates() {
    assert_eq!(fx_from_int(3).v, 30_000_000);
    assert_eq!(fx_from_int(-2).v, -20_000_000);
    assert_eq!(fx_from_int(i64::MAX).v, i64::MAX);
}
