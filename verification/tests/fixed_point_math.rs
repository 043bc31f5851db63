//! The integer math helpers: square roots, rounded division and the
//! fixed-point trigonometry.

use survival_core::math::cos_fp;
use survival_core::math::half_toward_zero;
use survival_core::math::isqrt;
use survival_core::math::round_div;
use survival_core::math::sat_sub_ms;
use survival_core::math::scale_trig;
use survival_core::math::sin_fp;

#[test]
fn isqrt_exact_values() {
    assert_eq!(isqrt(0), 0);
    assert_eq!(isqrt(1), 1);
    assert_eq!(isqrt(2), 1);
    assert_eq!(isqrt(3), 1);
    assert_eq!(isqrt(4), 2);
    assert_eq!(isqrt(99), 9);
    assert_eq!(isqrt(100), 10);
    assert_eq!(isqrt(1_000_000), 1000);
    assert_eq!(isqrt(u64::MAX), 4_294_967_295);
}

#[test]
fn round_div_rounds_half_away_from_zero() {
    assert_eq!(round_div(0, 10688), 0);
    assert_eq!(round_div(5343, 10688), 0);
    assert_eq!(round_div(5344, 10688), 1);
    assert_eq!(round_div(10688, 10688), 1);
    assert_eq!(round_div(-5343, 10688), 0);
    assert_eq!(round_div(-5344, 10688), -1);
    assert_eq!(round_div(53440, 10688), 5);
}

#[test]
fn saturating_subtraction_floors_at_zero() {
    assert_eq!(sat_sub_ms(100, 30), 70);
    assert_eq!(sat_sub_ms(100, 100), 0);
    assert_eq!(sat_sub_ms(100, 101), 0);
    assert_eq!(sat_sub_ms(0, 1), 0);
}

#[test]
fn half_toward_zero_truncates() {
    assert_eq!(half_toward_zero(7), 3);
    assert_eq!(half_toward_zero(-7), -3);
    assert_eq!(half_toward_zero(8), 4);
    assert_eq!(half_toward_zero(0), 0);
}

#[test]
fn trig_cardinal_points_are_exact() {
    // Angle ticks: a quarter turn is 15708, a half turn 31416.
    assert_eq!(sin_fp(0), 0);
    assert_eq!(sin_fp(15708), 10000);
    assert_eq!(sin_fp(31416), 0);
    assert_eq!(cos_fp(0), 10000);
    assert_eq!(cos_fp(31416), -10000);
}

#[test]
fn trig_tracks_the_real_functions() {
    // The rational approximation stays within 0.002 of the real sine and
    // cosine over a full turn.
    let mut a: i64 = 0;
    while a < 62832 {
        let s = sin_fp(a) as f64 / 10000.0;
        let c = cos_fp(a) as f64 / 10000.0;
        let t = a as f64 / 10000.0;
        assert!((s - t.sin()).abs() < 0.002, "sin off at {}", a);
        assert!((c - t.cos()).abs() < 0.002, "cos off at {}", a);
        a += 97;
    }
}

#[test]
fn scale_trig_truncates_toward_zero() {
    assert_eq!(scale_trig(10, 10000), 10);
    assert_eq!(scale_trig(10, -10000), -10);
    assert_eq!(scale_trig(10, 7071), 7);
    assert_eq!(scale_trig(10, -7071), -7);
    assert_eq!(scale_trig(0, 9999), 0);
}
