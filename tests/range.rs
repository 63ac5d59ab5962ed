use gridtrade::decimal::Decimal;
use gridtrade::strategy::Range;
use rust_decimal::prelude::FromPrimitive;

fn decimal(value: f64) -> Decimal {
    let d = rust_decimal::Decimal::from_f64(value).unwrap();
    Decimal::try_from_i128_with_scale(d.mantissa(), d.scale()).unwrap()
}

#[test]
fn test_is_is_within_inclusive() {
    assert_eq!(
        Range(decimal(60.0), decimal(80.0)).is_within_inclusive(&decimal(70.0)),
        true
    );
    assert_eq!(
        Range(decimal(71880.0), decimal(72000.0)).is_within_inclusive(&decimal(72000.0)),
        true
    );
}

#[test]
fn bounds_are_ordered_whatever_the_input_order() {
    for (a, b) in [(60.0, 80.0), (80.0, 60.0), (70.0, 70.0), (-5.5, 3.25)] {
        let range = Range(decimal(a), decimal(b));
        assert!(range.low() <= range.high());
        assert!(range.is_within_inclusive(range.low()));
        assert!(range.is_within_inclusive(range.high()));
    }
    let range = Range(decimal(80.0), decimal(60.0));
    assert_eq!(*range.low(), decimal(60.0));
    assert_eq!(*range.high(), decimal(80.0));
}

#[test]
fn exclusive_membership_leaves_out_the_bounds() {
    let range = Range(decimal(80.0), decimal(60.0));
    assert!(!range.is_within_exclusive(&decimal(60.0)));
    assert!(!range.is_within_exclusive(&decimal(80.0)));
    assert!(range.is_within_exclusive(&decimal(70.0)));
    assert!(!range.is_within_inclusive(&decimal(80.5)));
}

#[test]
fn length_is_high_minus_low() {
    assert_eq!(Range(decimal(90.0), decimal(50.5)).length(), decimal(39.5));
    assert_eq!(Range(decimal(7.0), decimal(7.0)).length(), Decimal::zero());
}
