use gridtrade::decimal::Decimal;
use gridtrade::strategy::limit::{Limit, LimitPosition};
use gridtrade::strategy::{
    AmountPoint, Exchanger, PricePoint, QuantityPoint, Range, Recorded, TradeError,
};
use rust_decimal::prelude::FromPrimitive;

fn decimal(value: f64) -> Decimal {
    let d = rust_decimal::Decimal::from_f64(value).unwrap();
    Decimal::try_from_i128_with_scale(d.mantissa(), d.scale()).unwrap()
}

fn range(left: f64, right: f64) -> Range {
    Range(decimal(left), decimal(right))
}

fn outside(d: &Decimal) -> rust_decimal::Decimal {
    rust_decimal::Decimal::from_i128_with_scale(d.mantissa(), d.scale())
}

fn inside(d: rust_decimal::Decimal) -> Decimal {
    Decimal::try_from_i128_with_scale(d.mantissa(), d.scale()).unwrap()
}

/// An exchange that replays prices and records every trade.
#[derive(Default)]
struct Trading {
    prices: Vec<f64>,
    next: usize,
    buying_prices: Vec<Decimal>,
    buying_amounts: Vec<Decimal>,
    selling_prices: Vec<Decimal>,
    selling_quantitys: Vec<Decimal>,
    fail_buying: bool,
}

impl Trading {
    fn with_prices(prices: Vec<f64>) -> Trading {
        Trading { prices, ..Trading::default() }
    }
}

impl Exchanger for Trading {
    fn price(&mut self) -> Result<PricePoint, String> {
        let value = self.prices[self.next];
        self.next += 1;
        Ok(PricePoint::new(decimal(value), 0))
    }

    fn buy(&mut self, price: Decimal, amount: Decimal) -> Result<QuantityPoint, String> {
        if self.fail_buying {
            return Err("exchange unavailable".to_string());
        }
        let quantity = (outside(&amount) / outside(&price)).trunc_with_scale(5);
        self.buying_prices.push(price);
        self.buying_amounts.push(amount);
        Ok(QuantityPoint::new(inside(quantity), 0))
    }

    fn sell(&mut self, price: Decimal, quantity: Decimal) -> Result<AmountPoint, String> {
        let income = (outside(&quantity) / outside(&price)).trunc_with_scale(5);
        self.selling_prices.push(price);
        self.selling_quantitys.push(quantity);
        Ok(AmountPoint::new(inside(income), 0))
    }
}

fn single_none_position_limit() -> Limit {
    let position = LimitPosition::new(decimal(50.0), range(0.0, 100.0), range(200.0, 300.0), None);
    Limit::with_positions(vec![position])
}

fn single_some_empty_position_limit() -> Limit {
    let position = LimitPosition::new(
        decimal(50.0),
        range(0.0, 100.0),
        range(200.0, 300.0),
        Some(decimal(0.0)),
    );
    Limit::with_positions(vec![position])
}

fn single_some_position_limit() -> Limit {
    let position = LimitPosition::new(
        decimal(50.0),
        range(0.0, 100.0),
        range(200.0, 300.0),
        Some(decimal(2.5)),
    );
    Limit::with_positions(vec![position])
}

fn multi_position_limit() -> Limit {
    Limit::with_positions(vec![
        LimitPosition::new(decimal(10.0), range(0.0, 50.0), range(100.0, 200.0), None),
        LimitPosition::new(decimal(20.0), range(0.0, 30.0), range(120.0, 200.0), None),
        LimitPosition::new(decimal(30.0), range(0.0, 80.0), range(150.0, 200.0), None),
        LimitPosition::new(decimal(40.0), range(0.0, 100.0), range(150.0, 200.0), Some(decimal(5.0))),
    ])
}

fn run(limit: &mut Limit, prices: Vec<f64>) -> Trading {
    let ticks = prices.len();
    let mut trading = Recorded::new(Trading::with_prices(prices));
    for _ in 0..ticks {
        limit.trap(&mut trading).unwrap();
    }
    trading.into_inner()
}

#[test]
fn test_trap_single_some_position() {
    let mut limit = single_some_position_limit();
    let trading = run(&mut limit, vec![210.0, 200.0, 150.0, 100.0, 90.50]);

    assert_eq!(trading.selling_quantitys, vec![decimal(2.5)]);
    assert_eq!(trading.selling_prices.len(), 1);
    assert_eq!(limit.positions()[0].selling_count(), 1);

    assert_eq!(trading.buying_amounts, vec![decimal(50.0)]);
    assert_eq!(trading.buying_prices.len(), 1);
    assert_eq!(limit.positions()[0].buying_count(), 1);
}

#[test]
fn test_trap_single_none_position() {
    let mut limit = single_none_position_limit();
    let trading = run(&mut limit, vec![210.0, 200.0, 150.0, 100.0, 90.50]);

    assert_eq!(trading.selling_quantitys, vec![]);
    assert_eq!(trading.selling_prices.len(), 0);
    assert_eq!(limit.positions()[0].selling_count(), 0);

    assert_eq!(trading.buying_amounts, vec![decimal(50.0)]);
    assert_eq!(trading.buying_prices.len(), 1);
    assert_eq!(limit.positions()[0].buying_count(), 1);
}

#[test]
fn test_trap_single_some_empty_position() {
    let mut limit = single_some_empty_position_limit();
    let trading = run(&mut limit, vec![210.0, 200.0, 150.0, 100.0, 90.50]);

    assert_eq!(trading.selling_quantitys, vec![]);
    assert_eq!(trading.selling_prices.len(), 0);
    assert_eq!(limit.positions()[0].selling_count(), 0);

    assert_eq!(trading.buying_amounts, vec![decimal(50.0)]);
    assert_eq!(trading.buying_prices.len(), 1);
    assert_eq!(limit.positions()[0].buying_count(), 1);
}

#[test]
fn test_trap_mix() {
    let mut limit = multi_position_limit();
    let trading = run(&mut limit, vec![60.5, 30.0, 30.5, 35.5, 50.0, 110.5, 160.5, 15.0]);

    assert_eq!(trading.buying_prices.len(), 7);
    assert_eq!(limit.positions()[0].buying_count(), 2);
    assert_eq!(limit.positions()[1].buying_count(), 2);
    assert_eq!(limit.positions()[2].buying_count(), 2);
    assert_eq!(limit.positions()[3].buying_count(), 1);
    assert_eq!(
        trading.buying_prices,
        vec![
            decimal(60.5),
            decimal(30.0),
            decimal(30.0),
            decimal(15.0),
            decimal(15.0),
            decimal(15.0),
            decimal(15.0)
        ]
    );
    assert_eq!(
        trading.buying_amounts,
        vec![
            decimal(30.0),
            decimal(10.0),
            decimal(20.0),
            decimal(10.0),
            decimal(20.0),
            decimal(30.0),
            decimal(40.0)
        ]
    );

    assert_eq!(trading.selling_prices.len(), 4);
    assert_eq!(limit.positions()[0].selling_count(), 1);
    assert_eq!(limit.positions()[1].selling_count(), 1);
    assert_eq!(limit.positions()[2].selling_count(), 1);
    assert_eq!(limit.positions()[3].selling_count(), 1);
    assert_eq!(
        trading.selling_prices,
        vec![decimal(110.5), decimal(160.5), decimal(160.5), decimal(160.5)]
    );
}

#[test]
fn a_position_that_sold_is_not_bought_again_in_the_same_tick() {
    let position = LimitPosition::new(decimal(10.0), range(0.0, 100.0), range(50.0, 150.0), Some(decimal(1.0)));
    let mut limit = Limit::with_positions(vec![position]);
    let trading = run(&mut limit, vec![75.0]);
    assert_eq!(trading.selling_prices, vec![decimal(75.0)]);
    assert!(trading.buying_prices.is_empty());
    assert!(limit.is_all_short());
    let trading = run(&mut limit, vec![75.0]);
    assert_eq!(trading.buying_prices, vec![decimal(75.0)]);
}

#[test]
fn buying_while_holding_is_refused() {
    let mut position = LimitPosition::new(decimal(10.0), range(0.0, 100.0), range(150.0, 200.0), None);
    let mut trading = Recorded::new(Trading::default());
    let bought = position.buy(&mut trading, decimal(20.0)).unwrap();
    assert_eq!(*bought.value(), decimal(0.5));
    assert_eq!(position.position, Some(decimal(0.5)));
    assert_eq!(position.buy(&mut trading, decimal(20.0)).unwrap_err(), TradeError::AlreadyHeld);
    assert_eq!(position.buying_count(), 1);
    assert_eq!(trading.exchanger.buying_prices, vec![decimal(20.0)]);
    assert_eq!(trading.exchanger.buying_amounts, vec![decimal(10.0)]);
}

#[test]
fn selling_while_flat_is_refused() {
    let mut position = LimitPosition::new(decimal(10.0), range(0.0, 100.0), range(150.0, 200.0), Some(decimal(0.0)));
    let mut trading = Recorded::new(Trading::default());
    assert_eq!(position.sell(&mut trading, decimal(160.0)).unwrap_err(), TradeError::NothingHeld);
    assert_eq!(position.selling_count(), 0);
    assert!(trading.exchanger.selling_prices.is_empty());
}

#[test]
fn predictions_follow_the_ranges_and_the_holding() {
    let flat = LimitPosition::new(decimal(10.0), range(0.0, 100.0), range(150.0, 200.0), None);
    assert_eq!(flat.predictive_buy(&decimal(100.0)), Some(decimal(10.0)));
    assert_eq!(flat.predictive_buy(&decimal(100.5)), None);
    assert_eq!(flat.predictive_sell(&decimal(160.0)), None);
    assert!(flat.is_short());
    let held = LimitPosition::new(decimal(10.0), range(0.0, 100.0), range(150.0, 200.0), Some(decimal(2.0)));
    assert_eq!(held.predictive_buy(&decimal(50.0)), None);
    assert_eq!(held.predictive_sell(&decimal(150.0)), Some(decimal(2.0)));
    assert_eq!(held.predictive_sell(&decimal(149.0)), None);
    assert!(!held.is_short());
}

#[test]
fn an_exchange_failure_ends_the_tick_and_keeps_earlier_steps() {
    let mut limit = Limit::with_positions(vec![
        LimitPosition::new(decimal(10.0), range(0.0, 100.0), range(40.0, 60.0), Some(decimal(1.0))),
        LimitPosition::new(decimal(20.0), range(0.0, 100.0), range(150.0, 200.0), None),
        LimitPosition::new(decimal(30.0), range(0.0, 100.0), range(40.0, 60.0), Some(decimal(3.0))),
    ]);
    let mut inner = Trading::with_prices(vec![50.0]);
    inner.fail_buying = true;
    let mut trading = Recorded::new(inner);
    let result = limit.trap(&mut trading);
    assert_eq!(result.unwrap_err(), TradeError::Upstream("exchange unavailable".to_string()));
    assert_eq!(limit.positions()[0].selling_count(), 1);
    assert_eq!(limit.positions()[0].position, None);
    assert_eq!(limit.positions()[1].buying_count(), 0);
    assert_eq!(limit.positions()[2].position, Some(decimal(3.0)));
    assert_eq!(limit.positions()[2].selling_count(), 0);
}

#[test]
fn points_keep_value_and_time() {
    let point = PricePoint::new(decimal(1.5), 42);
    assert_eq!(*point.value(), decimal(1.5));
    assert_eq!(point.timestamp(), 42);
    let point = AmountPoint::new(decimal(2.5), 7);
    assert_eq!(*point.value(), decimal(2.5));
    assert_eq!(point.timestamp(), 7);
    let point = QuantityPoint::new(decimal(3.5), 9);
    assert_eq!(*point.value(), decimal(3.5));
    assert_eq!(point.timestamp(), 9);
}
