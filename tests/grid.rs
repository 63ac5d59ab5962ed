use gridtrade::decimal::Decimal;
use gridtrade::strategy::grid::{layout, Grid, GridOptions};
use gridtrade::strategy::limit::LimitPosition;
use gridtrade::strategy::{AmountPoint, Exchanger, PricePoint, QuantityPoint, Range, Recorded};
use rust_decimal::prelude::FromPrimitive;

fn decimal(value: f64) -> Decimal {
    let d = rust_decimal::Decimal::from_f64(value).unwrap();
    Decimal::try_from_i128_with_scale(d.mantissa(), d.scale()).unwrap()
}

fn outside(d: &Decimal) -> rust_decimal::Decimal {
    rust_decimal::Decimal::from_i128_with_scale(d.mantissa(), d.scale())
}

fn inside(d: rust_decimal::Decimal) -> Decimal {
    Decimal::try_from_i128_with_scale(d.mantissa(), d.scale()).unwrap()
}

#[derive(Default)]
struct Trading {
    prices: Vec<f64>,
    next: usize,
    buying_prices: Vec<Decimal>,
    selling_prices: Vec<Decimal>,
}

impl Exchanger for Trading {
    fn price(&mut self) -> Result<PricePoint, String> {
        let value = self.prices[self.next];
        self.next += 1;
        Ok(PricePoint::new(decimal(value), 0))
    }

    fn buy(&mut self, price: Decimal, amount: Decimal) -> Result<QuantityPoint, String> {
        let quantity = (outside(&amount) / outside(&price)).trunc_with_scale(5);
        self.buying_prices.push(price);
        Ok(QuantityPoint::new(inside(quantity), 0))
    }

    fn sell(&mut self, price: Decimal, quantity: Decimal) -> Result<AmountPoint, String> {
        let income = (outside(&quantity) / outside(&price)).trunc_with_scale(5);
        self.selling_prices.push(price);
        Ok(AmountPoint::new(inside(income), 0))
    }
}

#[test]
fn test_split_limit_position() {
    let positions = Grid::split(decimal(100.0), Range(decimal(50.0), decimal(90.0)), 4);
    let target = vec![
        LimitPosition::new(
            decimal(33.333333),
            Range(decimal(50.0), decimal(55.0)),
            Range(decimal(65.0), decimal(70.0)),
            None,
        ),
        LimitPosition::new(
            decimal(33.333333),
            Range(decimal(60.0), decimal(65.0)),
            Range(decimal(75.0), decimal(80.0)),
            None,
        ),
        LimitPosition::new(
            decimal(33.333333),
            Range(decimal(70.0), decimal(75.0)),
            Range(decimal(85.0), decimal(90.0)),
            None,
        ),
    ];
    assert_eq!(positions, target);

    let positions = Grid::split(decimal(100.0), Range(decimal(50.0), decimal(90.0)), 3);
    let target = vec![
        LimitPosition::new(
            decimal(50.0),
            Range(decimal(50.0), decimal(56.66666650)),
            Range(decimal(69.99999950), decimal(76.666666)),
            None,
        ),
        LimitPosition::new(
            decimal(50.0),
            Range(decimal(63.333333), decimal(69.99999950)),
            Range(decimal(83.33333250), decimal(89.999999)),
            None,
        ),
    ];
    assert_eq!(positions, target);
}

#[test]
fn test_predictive_lowest_profit_price() {
    let grid = Grid::new(decimal(50.0), Range(decimal(30.75), decimal(175.35)), 6, None);

    let target = vec![
        decimal(42.795720),
        decimal(66.906690),
        decimal(66.893310),
        decimal(91.009100),
        decimal(90.990900),
        decimal(115.11151),
        decimal(115.08849),
        decimal(139.21392),
        decimal(139.18608),
        decimal(163.31633),
    ];

    assert_eq!(grid.predictive_lowest_profit_price(), target);
}

#[test]
fn highest_profit_prices_sit_just_inside_the_outer_bounds() {
    let grid = Grid::new(decimal(50.0), Range(decimal(30.75), decimal(175.35)), 6, None);

    let target = vec![
        decimal(30.753075),
        decimal(78.942105),
        decimal(54.855485),
        decimal(103.039695),
        decimal(78.957895),
        decimal(127.137285),
        decimal(103.060305),
        decimal(151.234875),
        decimal(127.162715),
        decimal(175.332465),
    ];

    assert_eq!(grid.predictive_highest_profit_price(), target);
}

#[test]
fn test_stop_loss() {
    let mut grid = Grid::new(
        decimal(50.0),
        Range(decimal(100.0), decimal(175.35)),
        4,
        Some(GridOptions { stop_loss: Some(Range(decimal(80.0), decimal(90.0))) }),
    );

    assert_eq!(grid.is_reached_stop_loss(&decimal(75.0)), false);
    assert_eq!(grid.is_reached_stop_loss(&decimal(80.0)), true);
    assert_eq!(grid.is_reached_stop_loss(&decimal(85.0)), true);
    assert_eq!(grid.is_reached_stop_loss(&decimal(90.0)), true);
    assert_eq!(grid.is_reached_stop_loss(&decimal(95.0)), false);

    let prices = vec![100.0, 110.0, 125.0, 100.0, 95.0, 85.0];
    let mut trading = Recorded::new(Trading { prices: prices.clone(), ..Trading::default() });
    for _ in prices.iter() {
        grid.trap(&mut trading).unwrap();
    }
    let trading = trading.into_inner();

    assert_eq!(trading.buying_prices.len(), 2);
    assert_eq!(trading.selling_prices.len(), 2);
    assert_eq!(trading.buying_prices, vec![decimal(100.0), decimal(125.0)]);
    assert_eq!(trading.selling_prices, vec![decimal(85.0), decimal(85.0)]);
    assert_eq!(grid.is_all_short(), true);
}

#[test]
fn a_four_copy_grid_lays_out_interleaved_bands() {
    let positions = Grid::split(decimal(100.0), Range(decimal(90.0), decimal(50.0)), 4);
    let buying: Vec<(Decimal, Decimal)> = positions.iter().map(|p| (p.buying.0, p.buying.1)).collect();
    let selling: Vec<(Decimal, Decimal)> =
        positions.iter().map(|p| (p.selling.0, p.selling.1)).collect();
    assert_eq!(positions.len(), 3);
    assert_eq!(
        buying,
        vec![
            (decimal(50.0), decimal(55.0)),
            (decimal(60.0), decimal(65.0)),
            (decimal(70.0), decimal(75.0))
        ]
    );
    assert_eq!(
        selling,
        vec![
            (decimal(65.0), decimal(70.0)),
            (decimal(75.0), decimal(80.0)),
            (decimal(85.0), decimal(90.0))
        ]
    );
}

#[test]
fn splitting_twice_gives_the_same_positions() {
    let range = Range(decimal(30.75), decimal(175.35));
    let first = Grid::split(decimal(50.0), range, 6);
    let second = Grid::split(decimal(50.0), range, 6);
    assert_eq!(first, second);
    assert_eq!(first.len(), 5);
}

#[test]
fn layout_uses_the_given_share_and_interval() {
    let positions = layout(&decimal(7.5), &decimal(2.0), &Range(decimal(10.0), decimal(20.0)), 3);
    assert_eq!(
        positions,
        vec![
            LimitPosition::new(
                decimal(7.5),
                Range(decimal(10.0), decimal(11.0)),
                Range(decimal(13.0), decimal(14.0)),
                None
            ),
            LimitPosition::new(
                decimal(7.5),
                Range(decimal(12.0), decimal(13.0)),
                Range(decimal(15.0), decimal(16.0)),
                None
            ),
        ]
    );
}

#[test]
fn the_stop_loss_sells_everything_held_whatever_the_selling_range() {
    let mut grid = Grid::new(
        decimal(300.0),
        Range(decimal(100.0), decimal(200.0)),
        4,
        Some(GridOptions { stop_loss: Some(Range(decimal(80.0), decimal(90.0))) }),
    );
    let prices = vec![150.0, 125.0, 100.0, 85.0, 85.0];
    let mut trading = Recorded::new(Trading { prices: prices.clone(), ..Trading::default() });
    for value in [150.0, 125.0, 100.0] {
        let point = grid.trap(&mut trading).unwrap();
        assert_eq!(*point.value(), decimal(value));
    }
    assert_eq!(trading.exchanger.buying_prices.len(), 3);
    assert!(!grid.is_all_short());
    grid.trap(&mut trading).unwrap();
    assert_eq!(
        trading.exchanger.selling_prices,
        vec![decimal(85.0), decimal(85.0), decimal(85.0)]
    );
    assert!(grid.is_all_short());
    grid.trap(&mut trading).unwrap();
    assert_eq!(trading.exchanger.selling_prices.len(), 3);
    assert_eq!(trading.exchanger.buying_prices.len(), 3);
}

#[test]
fn without_options_there_is_no_stop_loss() {
    let grid = Grid::new(decimal(50.0), Range(decimal(100.0), decimal(175.35)), 4, None);
    assert!(!grid.is_reached_stop_loss(&decimal(85.0)));
    assert!(grid.options.stop_loss.is_none());
    assert!(GridOptions::default().stop_loss.is_none());
}

#[test]
fn the_smallest_grid_has_one_position() {
    let positions = Grid::split(decimal(100.0), Range(decimal(50.0), decimal(90.0)), 2);
    assert_eq!(
        positions,
        vec![LimitPosition::new(
            decimal(100.0),
            Range(decimal(50.0), decimal(60.0)),
            Range(decimal(80.0), decimal(90.0)),
            None
        )]
    );
    let grid = Grid::new(decimal(100.0), Range(decimal(50.0), decimal(90.0)), 2, None);
    assert_eq!(grid.predictive_lowest_profit_price(), vec![decimal(59.994), decimal(80.008)]);
    assert!(grid.is_all_short());
}
