use gridtrade::decimal::Decimal;
use gridtrade::treasurer::Prosperity;
use rust_decimal::prelude::FromPrimitive;

fn decimal(value: f64) -> Decimal {
    let d = rust_decimal::Decimal::from_f64(value).unwrap();
    Decimal::try_from_i128_with_scale(d.mantissa(), d.scale()).unwrap()
}

#[test]
fn the_ledger_adds_and_takes() {
    let mut ledger = Prosperity::new(None);
    assert_eq!(ledger.balance(), Decimal::zero());
    ledger.transfer_in(&decimal(10.25));
    ledger.transfer_out(&decimal(12.5));
    assert_eq!(ledger.balance(), decimal(-2.25));
    let ledger = Prosperity::new(Some(decimal(3.5)));
    assert_eq!(ledger.balance(), decimal(3.5));
}

#[test]
fn decimal_limits_are_checked_exactly() {
    let a = decimal(0.1);
    let b = decimal(0.2);
    assert!(a.fits_sum(&b) && a.fits_difference(&b) && a.fits_product(&b));
    let big = Decimal::try_from_i128_with_scale(79228162514264337593543950335, 0).unwrap();
    assert!(!big.fits_sum(&big));
    assert!(big.fits_difference(&big));
    assert!(!big.fits_product(&decimal(2.0)));
    assert!(Decimal::try_from_i128_with_scale(79228162514264337593543950336, 0).is_none());
    assert!(Decimal::try_from_i128_with_scale(1, 29).is_none());
    assert_eq!(Decimal::new(-15, 1), decimal(-1.5));
    assert!(decimal(0.0).is_zero());
    assert!(!decimal(0.5).is_zero());
    assert!(decimal(0.1) < decimal(0.11));
    assert_eq!(decimal(1.0), Decimal::new(100, 2));
}
