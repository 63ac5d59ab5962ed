use gridtrade::decimal::Decimal;
use gridtrade::spot::Spot;
use gridtrade::strategy::percentage::{Order, Percentage, PositionSide};
use gridtrade::treasurer::Prosperity;
use rust_decimal::prelude::FromPrimitive;

fn decimal(value: f64) -> Decimal {
    let d = rust_decimal::Decimal::from_f64(value).unwrap();
    Decimal::try_from_i128_with_scale(d.mantissa(), d.scale()).unwrap()
}

fn btc_spot() -> Spot {
    Spot::new("BTCUSDT".into(), 5, 7, 8, decimal(0.001), decimal(0.001), Decimal::from_usize(5))
}

/// Runs one buy/sell cycle over `prices`, booking each trade in the ledger.
fn run_cycle(strategy: &mut Percentage, spot: &Spot, ledger: &mut Prosperity, prices: &[f64]) {
    for (tick, value) in prices.iter().enumerate() {
        let price = decimal(*value);
        if let Some(orders) = strategy.predictive_selling(&price) {
            for order in orders {
                let selling = spot.selling(&price, &order.quantity).unwrap();
                ledger.transfer_in(&selling.income_after_commission);
                strategy.update_position(&PositionSide::Decrease(order));
            }
        }
        if let Some(amount) = strategy.predictive_buying(&price) {
            let buying = spot.buying(&price, &amount).unwrap();
            ledger.transfer_out(&buying.spent);
            let order = Order {
                price,
                amount: buying.spent,
                quantity: buying.quantity_after_commission,
                timestamp: tick as i64,
            };
            strategy.update_position(&PositionSide::Increase(order));
        }
    }
}

#[test]
fn a_one_percent_cycle_completes_with_its_profit() {
    let mut strategy = Percentage::new(decimal(100.0), decimal(0.01), None, None);
    let mut ledger = Prosperity::new(None);
    run_cycle(
        &mut strategy,
        &btc_spot(),
        &mut ledger,
        &[100.0, 101.0, 101.5, 102.3, 100.9, 99.58],
    );
    assert!(strategy.is_completed());
    assert!(strategy.positions().is_empty());
    assert_eq!(ledger.balance(), decimal(1.29710150));
}

#[test]
fn nothing_is_bought_below_the_start_price_or_after_completion() {
    let strategy = Percentage::new(decimal(100.0), decimal(0.01), None, Some(decimal(50.0)));
    assert_eq!(strategy.predictive_buying(&decimal(49.0)), None);
    assert_eq!(strategy.predictive_buying(&decimal(50.0)), Some(decimal(100.0)));

    let mut strategy = Percentage::new(decimal(100.0), decimal(0.01), None, None);
    let order = Order { price: decimal(10.0), amount: decimal(100.0), quantity: decimal(10.0), timestamp: 1 };
    strategy.update_position(&PositionSide::Increase(order));
    assert_eq!(strategy.predictive_buying(&decimal(10.0)), None);
    strategy.update_position(&PositionSide::Decrease(order));
    assert!(strategy.is_completed());
    assert_eq!(strategy.predictive_buying(&decimal(10.0)), None);
    assert_eq!(strategy.predictive_selling(&decimal(20.0)), None);
}

#[test]
fn the_stop_percentage_sells_on_a_drop() {
    let mut strategy = Percentage::new(decimal(100.0), decimal(0.05), Some(decimal(0.02)), None);
    let order = Order { price: decimal(100.0), amount: decimal(100.0), quantity: decimal(1.0), timestamp: 1 };
    strategy.update_position(&PositionSide::Increase(order));
    assert_eq!(strategy.predictive_selling(&decimal(99.0)), Some(vec![]));
    assert_eq!(strategy.predictive_selling(&decimal(98.0)), Some(vec![]));
    assert_eq!(strategy.predictive_selling(&decimal(97.5)), Some(vec![order]));
    assert_eq!(strategy.predictive_selling(&decimal(105.0)), Some(vec![]));
    assert_eq!(strategy.predictive_selling(&decimal(105.5)), Some(vec![order]));
}

#[test]
fn a_small_rise_inside_the_target_keeps_the_order() {
    let mut strategy = Percentage::new(decimal(100.0), decimal(0.5), Some(decimal(0.05)), None);
    let order = Order { price: decimal(100.0), amount: decimal(100.0), quantity: decimal(1.0), timestamp: 1 };
    strategy.update_position(&PositionSide::Increase(order));
    assert_eq!(strategy.predictive_selling(&decimal(102.0)), Some(vec![]));
    assert_eq!(strategy.predictive_selling(&decimal(94.0)), Some(vec![order]));
}

#[test]
fn selling_an_order_not_held_changes_nothing() {
    let mut strategy = Percentage::new(decimal(100.0), decimal(0.01), None, None);
    let held = Order { price: decimal(10.0), amount: decimal(100.0), quantity: decimal(10.0), timestamp: 1 };
    let other = Order { timestamp: 2, ..held };
    strategy.update_position(&PositionSide::Increase(held));
    strategy.update_position(&PositionSide::Decrease(other));
    assert!(!strategy.is_completed());
    assert_eq!(strategy.positions(), vec![held]);
}
