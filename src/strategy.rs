//! Price ranges, timestamped price/amount/quantity points, and the exchange
//! capability that strategies drive.
use crate::decimal::{difference_fits, Decimal};
use vstd::prelude::*;

pub mod grid;
pub mod limit;
pub mod percentage;

verus! {

/// Why a trade was not made.
#[derive(Debug, PartialEq)]
pub enum TradeError {
    /// A buy was asked of a position that already holds a quantity.
    AlreadyHeld,
    /// A sell was asked of a position that holds nothing.
    NothingHeld,
    /// The exchange's price, buy or sell operation failed; its message.
    Upstream(String),
}

/// The exchange operations a strategy drives: fetch the current price, spend
/// an amount at a price, and sell a quantity at a price. Each returns a
/// timestamped result or the exchange's error message.
pub trait Exchanger {
    fn price(&mut self) -> Result<PricePoint, String>;

    fn buy(&mut self, price: Decimal, amount: Decimal) -> Result<QuantityPoint, String>;

    fn sell(&mut self, price: Decimal, quantity: Decimal) -> Result<AmountPoint, String>;
}

/// One call made to an exchange, with what it returned.
pub enum ExchangeCall {
    Price(Result<PricePoint, String>),
    /// The price, the amount to spend, and the outcome.
    Buy(Decimal, Decimal, Result<QuantityPoint, String>),
    /// The price, the quantity to sell, and the outcome.
    Sell(Decimal, Decimal, Result<AmountPoint, String>),
}

/// An exchanger together with the record of every call made through it, in
/// order, each with its outcome. Strategies trade through it, so that their
/// contracts can say what they asked of the exchange.
pub struct Recorded<E: Exchanger> {
    pub exchanger: E,
    pub calls: Ghost<Seq<ExchangeCall>>,
}

impl<E: Exchanger> Recorded<E> {
    pub fn new(exchanger: E) -> (r: Recorded<E>)
        ensures
            r.exchanger == exchanger,
            r.calls@ == Seq::<ExchangeCall>::empty(),
    {
        Recorded { exchanger, calls: Ghost(Seq::empty()) }
    }

    pub fn into_inner(self) -> (r: E)
        ensures
            r == self.exchanger,
    {
        self.exchanger
    }

    pub fn price(&mut self) -> (r: Result<PricePoint, String>)
        ensures
            final(self).calls@ == old(self).calls@.push(ExchangeCall::Price(r)),
    {
        let r = self.exchanger.price();
        self.calls = Ghost(self.calls@.push(ExchangeCall::Price(r)));
        r
    }

    pub fn buy(&mut self, price: Decimal, amount: Decimal) -> (r: Result<QuantityPoint, String>)
        ensures
            final(self).calls@ == old(self).calls@.push(ExchangeCall::Buy(price, amount, r)),
    {
        let r = self.exchanger.buy(price, amount);
        self.calls = Ghost(self.calls@.push(ExchangeCall::Buy(price, amount, r)));
        r
    }

    pub fn sell(&mut self, price: Decimal, quantity: Decimal) -> (r: Result<AmountPoint, String>)
        ensures
            final(self).calls@ == old(self).calls@.push(ExchangeCall::Sell(price, quantity, r)),
    {
        let r = self.exchanger.sell(price, quantity);
        self.calls = Ghost(self.calls@.push(ExchangeCall::Sell(price, quantity, r)));
        r
    }
}

/// The outcome an exchange gave for a trade that ended in `r`: its result, or
/// its message.
pub open spec fn outcome<T>(r: Result<T, TradeError>) -> Result<T, String> {
    match r {
        Ok(x) => Ok(x),
        Err(TradeError::Upstream(m)) => Err(m),
        Err(_) => Err(arbitrary()),
    }
}

/// A price together with the moment (milliseconds since the epoch) it was taken.
#[derive(Clone, Copy, Debug)]
pub struct PricePoint {
    pub value: Decimal,
    pub timestamp: i64,
}

impl PricePoint {
    pub fn new(price: Decimal, timestamp: i64) -> (r: PricePoint)
        ensures
            r.value == price,
            r.timestamp == timestamp,
    {
        PricePoint { value: price, timestamp }
    }

    pub fn value(&self) -> (r: &Decimal)
        ensures
            *r == self.value,
    {
        &self.value
    }

    pub fn timestamp(&self) -> (r: i64)
        ensures
            r == self.timestamp,
    {
        self.timestamp
    }
}

/// An amount of money together with the moment it was realised.
#[derive(Clone, Copy, Debug)]
pub struct AmountPoint {
    pub value: Decimal,
    pub timestamp: i64,
}

impl AmountPoint {
    pub fn new(amount: Decimal, timestamp: i64) -> (r: AmountPoint)
        ensures
            r.value == amount,
            r.timestamp == timestamp,
    {
        AmountPoint { value: amount, timestamp }
    }

    pub fn value(&self) -> (r: &Decimal)
        ensures
            *r == self.value,
    {
        &self.value
    }

    pub fn timestamp(&self) -> (r: i64)
        ensures
            r == self.timestamp,
    {
        self.timestamp
    }
}

/// A quantity together with the moment it was acquired.
#[derive(Clone, Copy, Debug)]
pub struct QuantityPoint {
    pub value: Decimal,
    pub timestamp: i64,
}

impl QuantityPoint {
    pub fn new(quantity: Decimal, timestamp: i64) -> (r: QuantityPoint)
        ensures
            r.value == quantity,
            r.timestamp == timestamp,
    {
        QuantityPoint { value: quantity, timestamp }
    }

    pub fn value(&self) -> (r: &Decimal)
        ensures
            *r == self.value,
    {
        &self.value
    }

    pub fn timestamp(&self) -> (r: i64)
        ensures
            r == self.timestamp,
    {
        self.timestamp
    }
}

/// A price interval given by two bounds in either order.
#[derive(Clone, Copy, Debug)]
pub struct Range(pub Decimal, pub Decimal);

impl Range {
    /// The larger bound.
    pub open spec fn hi(self) -> Decimal {
        if self.0.val() > self.1.val() {
            self.0
        } else {
            self.1
        }
    }

    /// The smaller bound.
    pub open spec fn lo(self) -> Decimal {
        if self.0.val() < self.1.val() {
            self.0
        } else {
            self.1
        }
    }

    pub open spec fn contains_inclusive(self, v: int) -> bool {
        self.lo().val() <= v && v <= self.hi().val()
    }

    pub open spec fn contains_exclusive(self, v: int) -> bool {
        self.lo().val() < v && v < self.hi().val()
    }

    pub fn is_within_inclusive(&self, value: &Decimal) -> (r: bool)
        ensures
            r == self.contains_inclusive(value.val()),
    {
        *value >= *self.low() && *value <= *self.high()
    }

    pub fn is_within_exclusive(&self, value: &Decimal) -> (r: bool)
        ensures
            r == self.contains_exclusive(value.val()),
    {
        *value > *self.low() && *value < *self.high()
    }

    pub fn high(&self) -> (r: &Decimal)
        ensures
            *r == self.hi(),
    {
        if self.0 > self.1 {
            return &self.0;
        }
        &self.1
    }

    pub fn low(&self) -> (r: &Decimal)
        ensures
            *r == self.lo(),
    {
        if self.0 < self.1 {
            return &self.0;
        }
        &self.1
    }

    /// `high() - low()`.
    pub fn length(&self) -> (r: Decimal)
        requires
            difference_fits(self.hi(), self.lo()),
        ensures
            r.val() == self.hi().val() - self.lo().val(),
    {
        self.high().checked_sub(self.low()).unwrap()
    }
}

impl PartialEq for Range {
    fn eq(&self, o: &Range) -> (r: bool) {
        self.0 == o.0 && self.1 == o.1
    }
}

impl vstd::std_specs::cmp::PartialEqSpecImpl for Range {
    open spec fn obeys_eq_spec() -> bool {
        true
    }

    open spec fn eq_spec(&self, o: &Range) -> bool {
        self.0.val() == o.0.val() && self.1.val() == o.1.val()
    }
}

/// Whatever order the bounds were given in, `low() <= high()`, and both
/// bounds lie within the range, inclusively.
pub proof fn lemma_range_bounds_ordered(r: Range)
    ensures
        r.lo().val() <= r.hi().val(),
        r.contains_inclusive(r.lo().val()),
        r.contains_inclusive(r.hi().val()),
{
}

} // verus!
