use gridtrade::decimal::Decimal;
use gridtrade::spot::{is_production, Spot, SpotBuying, SpotClientError, SpotClientOption, SpotSelling};
use rust_decimal::prelude::FromPrimitive;

fn decimal(value: f64) -> Decimal {
    let d = rust_decimal::Decimal::from_f64(value).unwrap();
    Decimal::try_from_i128_with_scale(d.mantissa(), d.scale()).unwrap()
}

fn btc_spot() -> Spot {
    Spot::new("BTCUSDT".into(), 5, 7, 8, decimal(0.001), decimal(0.001), Decimal::from_usize(5))
}

fn eth_spot() -> Spot {
    Spot::new("ETHUSDT".into(), 4, 7, 8, decimal(0.001), decimal(0.001), Decimal::from_usize(5))
}

#[test]
fn test_buying_quantity_with_commission() {
    let quantity = btc_spot().buying_quantity_with_commission(&decimal(0.00985));
    assert_eq!(quantity, decimal(0.0098402));

    let quantity = btc_spot().buying_quantity_with_commission(&decimal(0.0008));
    assert_eq!(quantity, decimal(0.0007992));

    let quantity = eth_spot().buying_quantity_with_commission(&decimal(0.0025));
    assert_eq!(quantity, decimal(0.0024975));
}

#[test]
fn test_transaction_quantity_with_precision() {
    let quantity = btc_spot().transaction_quantity_with_precision(&decimal(0.00985231));
    assert_eq!(quantity, decimal(0.00985));

    let quantity = btc_spot().transaction_quantity_with_precision(&decimal(0.0008561));
    assert_eq!(quantity, decimal(0.00085));

    let quantity = eth_spot().transaction_quantity_with_precision(&decimal(0.002372));
    assert_eq!(quantity, decimal(0.0023));
}

#[test]
fn test_selling_amount_with_commission() {
    let amount = btc_spot().selling_amount_with_commission(&decimal(65.8308373));
    assert_eq!(amount, decimal(65.76500646));

    let amount = btc_spot().selling_amount_with_commission(&decimal(16.4650161));
    assert_eq!(amount, decimal(16.44855108));

    let amount = eth_spot().selling_amount_with_commission(&decimal(12.731936));
    assert_eq!(amount, decimal(12.71920406));
}

#[test]
fn test_is_allow_transaction() {
    let allow = btc_spot().is_allow_transaction(&decimal(10.0), &decimal(0.0025));
    assert_eq!(allow, false);

    let allow = btc_spot().is_allow_transaction(&decimal(5.0), &decimal(2.0));
    assert_eq!(allow, true);

    let allow = btc_spot().is_allow_transaction(&decimal(30.5), &decimal(2.0));
    assert_eq!(allow, true);

    let allow = btc_spot().is_allow_transaction(&decimal(100.5), &decimal(0.00025));
    assert_eq!(allow, false);
}

#[test]
fn test_buying_quantity_by_amount() {
    let quantity = btc_spot()
        .buying_quantity_by_amount(&decimal(68.25), &decimal(215.32))
        .unwrap();
    assert_eq!(quantity, decimal(3.15487));

    let quantity = eth_spot()
        .buying_quantity_by_amount(&decimal(9854.12), &decimal(300.5961))
        .unwrap();
    assert_eq!(quantity, decimal(0.03050));
}

#[test]
fn test_buying() {
    let buying = btc_spot().buying(&decimal(43145.42), &decimal(500.0)).unwrap();
    let assert = SpotBuying {
        price: decimal(43145.42),
        spent: decimal(499.6239636),
        quantity: decimal(0.01158),
        quantity_after_commission: decimal(0.0115684),
    };
    assert_eq!(buying, assert);

    let buying = btc_spot().buying(&decimal(43145.42), &decimal(1000.0)).unwrap();
    let assert = SpotBuying {
        price: decimal(43145.42),
        spent: decimal(999.6793814),
        quantity: decimal(0.02317),
        quantity_after_commission: decimal(0.0231468),
    };
    assert_eq!(buying, assert);

    let buying = eth_spot().buying(&decimal(2596.04), &decimal(600.50)).unwrap();
    let assert = SpotBuying {
        price: decimal(2596.04),
        spent: decimal(600.464052),
        quantity: decimal(0.2313),
        quantity_after_commission: decimal(0.2310687),
    };
    assert_eq!(buying, assert);

    let buying = eth_spot().buying(&decimal(2596.04), &decimal(100.0)).unwrap();
    let assert = SpotBuying {
        price: decimal(2596.04),
        spent: decimal(99.947540),
        quantity: decimal(0.0385),
        quantity_after_commission: decimal(0.0384615),
    };
    assert_eq!(buying, assert);
}

#[test]
fn test_selling() {
    let selling = btc_spot().selling(&decimal(42991.10), &decimal(0.00349)).unwrap();
    let assert = SpotSelling {
        price: decimal(42991.10),
        income: decimal(150.038939),
        income_after_commission: decimal(149.88890006),
        quantity: decimal(0.00349),
    };
    assert_eq!(selling, assert);

    let selling = btc_spot().selling(&decimal(42991.10), &decimal(0.00349135)).unwrap();
    let assert = SpotSelling {
        price: decimal(42991.10),
        income: decimal(150.038939),
        income_after_commission: decimal(149.88890006),
        quantity: decimal(0.00349),
    };
    assert_eq!(selling, assert);

    let selling = eth_spot().selling(&decimal(2652.01), &decimal(0.1056)).unwrap();
    let assert = SpotSelling {
        price: decimal(2652.01),
        income: decimal(280.052256),
        income_after_commission: decimal(279.77220374),
        quantity: decimal(0.1056),
    };
    assert_eq!(selling, assert);

    let selling = eth_spot().selling(&decimal(2652.01), &decimal(0.105136)).unwrap();
    let assert = SpotSelling {
        price: decimal(2652.01),
        income: decimal(278.726251),
        income_after_commission: decimal(278.44752475),
        quantity: decimal(0.1051),
    };
    assert_eq!(selling, assert);
}

#[test]
fn buying_a_fixed_quantity_books_spent_and_held_amounts() {
    let buying = btc_spot().calculator_buying(&decimal(43145.42), &decimal(0.0015));
    assert_eq!(buying.spent, decimal(64.71813));
    assert_eq!(buying.quantity_after_commission, decimal(0.0014985));
    assert_eq!(buying.quantity, decimal(0.0015));
    assert_eq!(buying.price, decimal(43145.42));
}

#[test]
fn buying_below_the_minimum_is_refused() {
    let result = btc_spot().buying(&decimal(43145.42), &decimal(4.0));
    assert_eq!(result, Err(SpotClientError::MinimumNotReached));
}

#[test]
fn selling_below_the_minimum_is_refused() {
    let result = btc_spot().selling(&decimal(10.0), &decimal(0.0025));
    assert_eq!(result, Err(SpotClientError::MinimumNotReached));
}

#[test]
fn buying_at_a_zero_price_is_out_of_range() {
    let result = btc_spot().buying(&Decimal::zero(), &decimal(100.0));
    assert_eq!(result, Err(SpotClientError::OutOfRange));
    assert!(btc_spot()
        .buying_quantity_by_amount(&Decimal::zero(), &decimal(100.0))
        .is_none());
}

#[test]
fn commission_never_adds_to_a_quantity_or_an_amount() {
    let spot = btc_spot();
    for x in [0.0, 0.0015, 1.0, 2.5, 150.038939] {
        let kept = spot.buying_quantity_with_commission(&decimal(x));
        assert!(kept <= decimal(x));
        let left = spot.selling_amount_with_commission(&decimal(x));
        assert!(left <= decimal(x));
    }
    let free = Spot::new("FREE".into(), 5, 7, 8, Decimal::zero(), Decimal::zero(), Decimal::zero());
    assert_eq!(free.buying_quantity_with_commission(&decimal(2.5)), decimal(2.5));
    assert_eq!(free.selling_amount_with_commission(&decimal(2.5)), decimal(2.5));
}

#[test]
fn commission_rounds_half_to_even() {
    // 0.00000025 * 0.999 = 0.00000024975, rounded to 7 digits.
    let quantity = btc_spot().buying_quantity_with_commission(&decimal(0.00000025));
    assert_eq!(quantity, decimal(0.0000002));
    // 0.5 * 0.001 = 0.0005 rounded half-even to 3 digits is 0.000.
    let spot = Spot::new("X".into(), 5, 7, 3, decimal(0.001), decimal(0.001), Decimal::zero());
    assert_eq!(spot.selling_amount_with_commission(&decimal(0.5)), decimal(0.5));
    assert_eq!(spot.selling_amount_with_commission(&decimal(1.5)), decimal(1.498));
}

#[test]
fn income_and_spent_are_price_times_quantity() {
    let spot = btc_spot();
    assert_eq!(spot.selling_income_amount(&decimal(42991.1), &decimal(0.00349)), decimal(150.038939));
    assert_eq!(spot.buying_spent_amount(&decimal(2.5), &decimal(4.0)), decimal(10.0));
}

#[test]
fn production_only_when_an_option_says_so() {
    assert!(!is_production(&None));
    assert!(!is_production(&Some(SpotClientOption { is_production: false })));
    assert!(is_production(&Some(SpotClientOption { is_production: true })));
}

#[test]
fn symbol_is_kept() {
    assert_eq!(btc_spot().symbol(), "BTCUSDT");
}
