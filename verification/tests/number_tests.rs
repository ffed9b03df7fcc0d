use lox::number::{equal, is_nan, is_zero, less, less_equal, negate};
use lox::text::decimal_string;

fn samples() -> Vec<f64> {
    vec![
        0.0,
        -0.0,
        1.0,
        -1.0,
        0.5,
        -0.5,
        2.0,
        1e300,
        -1e300,
        f64::MIN_POSITIVE,
        -f64::MIN_POSITIVE,
        5e-324,
        -5e-324,
        f64::MAX,
        f64::MIN,
        f64::INFINITY,
        f64::NEG_INFINITY,
        f64::NAN,
        -f64::NAN,
        f64::from_bits(0x7ff0_0000_0000_0001),
        f64::from_bits(0xffff_ffff_ffff_ffff),
    ]
}

#[test]
fn nan_and_zero_are_told_from_the_bits() {
    for x in samples() {
        assert_eq!(is_nan(x.to_bits()), x.is_nan());
        assert_eq!(is_zero(x.to_bits()), x == 0.0);
    }
}

#[test]
fn negation_flips_the_sign() {
    for x in samples() {
        assert_eq!(negate(x.to_bits()), (-x).to_bits());
        assert_eq!(negate(negate(x.to_bits())), x.to_bits());
    }
    assert_eq!(negate(1.5f64.to_bits()), (-1.5f64).to_bits());
}

#[test]
fn order_and_equality_are_those_of_the_numbers() {
    for a in samples() {
        for b in samples() {
            assert_eq!(less(a.to_bits(), b.to_bits()), a < b, "{} < {}", a, b);
            assert_eq!(equal(a.to_bits(), b.to_bits()), a == b, "{} == {}", a, b);
            assert_eq!(less_equal(a.to_bits(), b.to_bits()), a <= b, "{} <= {}", a, b);
        }
    }
}

#[test]
fn both_zeros_are_equal_and_nan_equals_nothing() {
    assert!(equal(0.0f64.to_bits(), (-0.0f64).to_bits()));
    assert!(!less((-0.0f64).to_bits(), 0.0f64.to_bits()));
    assert!(!equal(f64::NAN.to_bits(), f64::NAN.to_bits()));
    assert!(!less_equal(f64::NAN.to_bits(), 1.0f64.to_bits()));
}

#[test]
fn decimal_rendering() {
    assert_eq!(decimal_string(0), "0");
    assert_eq!(decimal_string(7), "7");
    assert_eq!(decimal_string(10), "10");
    assert_eq!(decimal_string(1234567890), "1234567890");
    assert_eq!(decimal_string(usize::MAX), usize::MAX.to_string());
}
