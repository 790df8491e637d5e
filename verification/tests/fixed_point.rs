//! The saturating fixed-point scalar layer.

use phosphorust::fixed::{
    SCALE, clamp_coord_exec, clamp_coord_i64, div_floor, div_floor_signed, isqrt, pow_unit_exec,
};

#[test]
fn div_floor_rounds_toward_negative_infinity() {
    assert_eq!(div_floor(7, 2), 3);
    assert_eq!(div_floor(-7, 2), -4);
    assert_eq!(div_floor(-8, 2), -4);
    assert_eq!(div_floor(0, 5), 0);
}

#[test]
fn div_floor_signed_handles_negative_divisors() {
    assert_eq!(div_floor_signed(7, -2), -4);
    assert_eq!(div_floor_signed(-7, -2), 3);
}

#[test]
fn isqrt_is_the_floored_root() {
    assert_eq!(isqrt(0), 0);
    assert_eq!(isqrt(1), 1);
    assert_eq!(isqrt(2), 1);
    assert_eq!(isqrt(3), 1);
    assert_eq!(isqrt(4), 2);
    assert_eq!(isqrt(999_999), 999);
    assert_eq!(isqrt(1_000_000), 1_000);
    assert_eq!(isqrt(2_000_000_000_000), 1_414_213);
}

#[test]
fn pow_unit_fixed_points() {
    // 1.0^e == 1.0; 0.5^3 == 0.125; anything^0 == 1.0.
    assert_eq!(pow_unit_exec(SCALE, 17), SCALE);
    assert_eq!(pow_unit_exec(500_000, 3), 125_000);
    assert_eq!(pow_unit_exec(0, 0), SCALE);
    assert_eq!(pow_unit_exec(0, 2), 0);
}

#[test]
fn clamping_saturates_at_the_band_edges() {
    assert_eq!(clamp_coord_i64(123), 123);
    assert_eq!(clamp_coord_i64(i64::MAX), 500_000_000);
    assert_eq!(clamp_coord_i64(i64::MIN), -500_000_000);
    assert_eq!(clamp_coord_exec(-600_000_000), -500_000_000);
}
