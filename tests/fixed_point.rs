use genetic_algo::fixed::{clamp, cos_milli, div_toward_zero, isqrt, sin_milli, ISQRT_MAX};

#[test]
fn clamp_limits_values() {
    assert_eq!(clamp(-5, 0, 10), 0);
    assert_eq!(clamp(15, 0, 10), 10);
    assert_eq!(clamp(7, 0, 10), 7);
}

#[test]
fn division_rounds_toward_zero() {
    assert_eq!(div_toward_zero(7, 2), 3);
    assert_eq!(div_toward_zero(-7, 2), -3);
    assert_eq!(div_toward_zero(0, 5), 0);
}

#[test]
fn integer_square_roots() {
    assert_eq!(isqrt(0), 0);
    assert_eq!(isqrt(1), 1);
    assert_eq!(isqrt(10), 3);
    assert_eq!(isqrt(16), 4);
    assert_eq!(isqrt(25_000_000), 5_000);
    assert_eq!(isqrt(ISQRT_MAX), 31_622_776);
}

#[test]
fn rational_sine_values() {
    assert_eq!(sin_milli(0), 0);
    assert_eq!(sin_milli(30_000), 500);
    assert_eq!(sin_milli(90_000), 1_000);
    assert_eq!(sin_milli(180_000), 0);
    assert_eq!(cos_milli(0), 1_000);
    assert_eq!(cos_milli(60_000), 500);
    assert_eq!(cos_milli(90_000), 0);
    assert_eq!(cos_milli(45_000), 705);
}
