use num_bigint::BigUint;
use rustsat_mc::{interval_text, sci, sci_ratio};

#[test]
fn sixteen_in_scientific_notation() {
    assert_eq!(sci(&BigUint::from(16u32)), "1.60 \u{d7} 10^1");
}

#[test]
fn scientific_notation_pads_and_truncates() {
    assert_eq!(sci(&BigUint::from(0u32)), "0.00 \u{d7} 10^0");
    assert_eq!(sci(&BigUint::from(7u32)), "7.00 \u{d7} 10^0");
    assert_eq!(sci(&BigUint::from(2500u32)), "2.50 \u{d7} 10^3");
    assert_eq!(sci(&BigUint::from(12399u32)), "1.23 \u{d7} 10^4");
}

#[test]
fn scientific_notation_exponent_with_two_digits() {
    let n = BigUint::from(98_765_432_100u64);
    assert_eq!(sci(&n), "9.87 \u{d7} 10^10");
}

#[test]
fn interval_rendering_for_sixteen_models() {
    let shown = interval_text(&BigUint::from(16u32), 1_200_000);
    assert_eq!(shown, "1.60 \u{d7} 10^1 [1.33 \u{d7} 10^1, 1.92 \u{d7} 10^1]");
    assert!(shown.contains('['));
    assert!(shown.contains("\u{d7} 10^"));
}

#[test]
fn interval_rendering_for_2500() {
    let shown = interval_text(&BigUint::from(2500u32), 1_200_000);
    assert_eq!(shown, "2.50 \u{d7} 10^3 [2.08 \u{d7} 10^3, 3.00 \u{d7} 10^3]");
}

#[test]
fn interval_end_below_one_has_negative_exponent() {
    let shown = interval_text(&BigUint::from(1u32), 1_200_000);
    assert_eq!(shown, "1.00 \u{d7} 10^0 [8.33 \u{d7} 10^-1, 1.20 \u{d7} 10^0]");
}

#[test]
fn interval_rendering_of_zero() {
    let shown = interval_text(&BigUint::from(0u32), 1_200_000);
    assert_eq!(shown, "0.00 \u{d7} 10^0 [0.00 \u{d7} 10^0, 0.00 \u{d7} 10^0]");
}

#[test]
fn ratio_truncates_to_three_digits() {
    assert_eq!(sci_ratio(&BigUint::from(2u32), 3), "6.66 \u{d7} 10^-1");
    assert_eq!(sci_ratio(&BigUint::from(1u32), 1_000_000), "1.00 \u{d7} 10^-6");
    assert_eq!(sci_ratio(&BigUint::from(123_456u32), 1), "1.23 \u{d7} 10^5");
    assert_eq!(sci_ratio(&BigUint::from(999_999u32), 1000), "9.99 \u{d7} 10^2");
    assert_eq!(sci_ratio(&BigUint::from(5u32), u64::MAX), "2.71 \u{d7} 10^-19");
}

#[test]
fn ratio_of_a_large_value() {
    let n = BigUint::from(1u32) << 100u32;
    // 2^100 = 1267650600228229401496703205376
    assert_eq!(sci_ratio(&n, 1), "1.26 \u{d7} 10^30");
    assert_eq!(sci_ratio(&n, 1_000_000), "1.26 \u{d7} 10^24");
}
