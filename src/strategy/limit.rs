//! Positions with a buying and a selling range, and the engine that matches
//! each price tick against them: sell first, then buy.
use crate::decimal::Decimal;
use crate::strategy::{
    outcome, AmountPoint, ExchangeCall, Exchanger, PricePoint, QuantityPoint, Range, Recorded,
    TradeError,
};
use vstd::prelude::*;

verus! {

/// A holding is flat when it is absent or zero.
pub open spec fn is_flat(held: Option<Decimal>) -> bool {
    held is None || held->0.val() == 0
}

/// A counter that wraps around, as an atomic counter does.
pub open spec fn next_count(c: usize) -> usize {
    if c < usize::MAX {
        (c + 1) as usize
    } else {
        0
    }
}

fn increment(c: usize) -> (r: usize)
    ensures
        r == next_count(c),
{
    if c < usize::MAX {
        c + 1
    } else {
        0
    }
}

/// One sub-range of an investment: the amount it spends, the range it buys
/// in, the range it sells in, what it holds, and how often it traded.
///
/// A buy or a sell checks the holding, calls the exchange and records the
/// outcome while holding `&mut self`, so no second buy or sell of the same
/// position can start before the first is recorded: at most one trade per
/// position is in flight. An owner that shares positions between tasks puts
/// them behind its own lock.
#[derive(Debug)]
pub struct LimitPosition {
    pub buying: Range,
    pub selling: Range,
    pub investment: Decimal,
    pub position: Option<Decimal>,
    pub buying_count: usize,
    pub selling_count: usize,
}

impl LimitPosition {
    pub open spec fn buys(self) -> usize {
        self.buying_count
    }

    pub open spec fn sells(self) -> usize {
        self.selling_count
    }

    /// Equal by value: investment, both ranges' bounds, what is held, and
    /// both counts.
    pub open spec fn same_as(self, o: LimitPosition) -> bool {
        &&& self.investment.val() == o.investment.val()
        &&& self.buying.0.val() == o.buying.0.val()
        &&& self.buying.1.val() == o.buying.1.val()
        &&& self.selling.0.val() == o.selling.0.val()
        &&& self.selling.1.val() == o.selling.1.val()
        &&& match (self.position, o.position) {
            (None, None) => true,
            (Some(x), Some(y)) => x.val() == y.val(),
            _ => false,
        }
        &&& self.buying_count == o.buying_count
        &&& self.selling_count == o.selling_count
    }

    /// The same configuration: investment and both ranges.
    pub open spec fn same_terms(self, o: LimitPosition) -> bool {
        self.buying == o.buying && self.selling == o.selling && self.investment == o.investment
    }

    /// A sell is due at `price`: it lies in the selling range and a quantity is held.
    pub open spec fn sell_due(self, price: int) -> bool {
        self.selling.contains_inclusive(price) && !is_flat(self.position)
    }

    /// A buy is due at `price`: it lies in the buying range and nothing is held.
    pub open spec fn buy_due(self, price: int) -> bool {
        self.buying.contains_inclusive(price) && is_flat(self.position)
    }

    /// What a successful tick at `price` did to a position and to the
    /// exchange's record, from `before` to `after`: where a sell is due, the
    /// held quantity was sold at `price` and the position is flat; otherwise,
    /// where a buy is due, the investment was spent at `price` and the
    /// position holds what the exchange returned; otherwise nothing changed
    /// and the exchange was not called.
    pub open spec fn tick_step(
        self,
        next: LimitPosition,
        price: Decimal,
        before: Seq<ExchangeCall>,
        after: Seq<ExchangeCall>,
    ) -> bool {
        &&& next.same_terms(self)
        &&& if self.sell_due(price.val()) {
            &&& after == before.push(after.last())
            &&& sold(after.last(), price, self.position->0)
            &&& next.position is None
            &&& next.sells() == next_count(self.sells())
            &&& next.buys() == self.buys()
        } else if self.buy_due(price.val()) {
            &&& after == before.push(after.last())
            &&& bought(after.last(), price, self.investment, next.position)
            &&& next.buys() == next_count(self.buys())
            &&& next.sells() == self.sells()
        } else {
            next == self && after == before
        }
    }

    /// A tick at `price` failed with `err`: the due sell (or else the due buy)
    /// was asked of the exchange, which refused it with the message that
    /// `err` carries.
    pub open spec fn tick_failed(
        self,
        price: Decimal,
        before: Seq<ExchangeCall>,
        after: Seq<ExchangeCall>,
        err: TradeError,
    ) -> bool {
        match err {
            TradeError::Upstream(m) => {
                &&& self.sell_due(price.val()) || self.buy_due(price.val())
                &&& after == before.push(
                    if self.sell_due(price.val()) {
                        ExchangeCall::Sell(price, self.position->0, Err(m))
                    } else {
                        ExchangeCall::Buy(price, self.investment, Err(m))
                    },
                )
            },
            _ => false,
        }
    }

    pub fn new(
        investment: Decimal,
        buying: Range,
        selling: Range,
        position: Option<Decimal>,
    ) -> (r: LimitPosition)
        ensures
            r.investment == investment,
            r.buying == buying,
            r.selling == selling,
            r.position == position,
            r.buys() == 0,
            r.sells() == 0,
    {
        LimitPosition {
            investment,
            buying,
            buying_count: 0,
            selling,
            selling_count: 0,
            position,
        }
    }

    pub fn selling_count(&self) -> (r: usize)
        ensures
            r == self.sells(),
    {
        self.selling_count
    }

    pub fn buying_count(&self) -> (r: usize)
        ensures
            r == self.buys(),
    {
        self.buying_count
    }

    /// Nothing is held.
    pub fn is_short(&self) -> (r: bool)
        ensures
            r == is_flat(self.position),
    {
        match Self::position_quantity(&self.position) {
            Some(_) => false,
            None => true,
        }
    }

    /// The quantity held, where it is not zero.
    fn position_quantity(position: &Option<Decimal>) -> (r: Option<Decimal>)
        ensures
            is_flat(*position) ==> r is None,
            !is_flat(*position) ==> r == *position,
    {
        match position {
            Some(quantity) => {
                if quantity.is_zero() {
                    None
                } else {
                    Some(*quantity)
                }
            },
            None => None,
        }
    }

    /// The amount to spend at `price`, where a buy is due.
    pub fn predictive_buy(&self, price: &Decimal) -> (r: Option<Decimal>)
        ensures
            r == (if self.buy_due(price.val()) {
                Some(self.investment)
            } else {
                None
            }),
    {
        if self.buying.is_within_inclusive(price) && self.is_short() {
            Some(self.investment)
        } else {
            None
        }
    }

    /// The quantity to sell at `price`, where a sell is due.
    pub fn predictive_sell(&self, price: &Decimal) -> (r: Option<Decimal>)
        ensures
            r == (if self.sell_due(price.val()) {
                self.position
            } else {
                None
            }),
    {
        if self.selling.is_within_inclusive(price) {
            return Self::position_quantity(&self.position);
        }
        None
    }

    /// Spends the investment at `price` through the exchange and holds what
    /// it returns. Refused, without calling the exchange, while a quantity is
    /// held. An exchange failure comes back with the exchange's message.
    pub fn buy<E: Exchanger>(&mut self, exchange: &mut Recorded<E>, price: Decimal) -> (r: Result<
        QuantityPoint,
        TradeError,
    >)
        ensures
            (r == Err::<QuantityPoint, TradeError>(TradeError::AlreadyHeld)) == !is_flat(
                old(self).position,
            ),
            !is_flat(old(self).position) ==> final(exchange).calls@ == old(exchange).calls@,
            is_flat(old(self).position) ==> final(exchange).calls@ == old(exchange).calls@.push(
                ExchangeCall::Buy(price, old(self).investment, outcome(r)),
            ),
            is_flat(old(self).position) && r is Err ==> r->Err_0 is Upstream,
            r is Ok ==> final(self).position == Some(r->Ok_0.value) && final(self).buys()
                == next_count(old(self).buys()) && final(self).sells() == old(self).sells()
                && final(self).same_terms(*old(self)),
            r is Err ==> *final(self) == *old(self),
    {
        match Self::position_quantity(&self.position) {
            Some(_) => Err(TradeError::AlreadyHeld),
            None => match exchange.buy(price, self.investment) {
                Ok(point) => {
                    self.position = Some(point.value);
                    self.buying_count = increment(self.buying_count);
                    Ok(point)
                },
                Err(message) => Err(TradeError::Upstream(message)),
            },
        }
    }

    /// Sells the quantity held at `price` through the exchange and becomes
    /// flat. Refused, without calling the exchange, while nothing is held. An
    /// exchange failure comes back with the exchange's message.
    pub fn sell<E: Exchanger>(&mut self, exchange: &mut Recorded<E>, price: Decimal) -> (r: Result<
        AmountPoint,
        TradeError,
    >)
        ensures
            (r == Err::<AmountPoint, TradeError>(TradeError::NothingHeld)) == is_flat(
                old(self).position,
            ),
            is_flat(old(self).position) ==> final(exchange).calls@ == old(exchange).calls@,
            !is_flat(old(self).position) ==> final(exchange).calls@ == old(exchange).calls@.push(
                ExchangeCall::Sell(price, old(self).position->0, outcome(r)),
            ),
            !is_flat(old(self).position) && r is Err ==> r->Err_0 is Upstream,
            r is Ok ==> final(self).position is None && final(self).sells() == next_count(
                old(self).sells(),
            ) && final(self).buys() == old(self).buys() && final(self).same_terms(*old(self)),
            r is Err ==> *final(self) == *old(self),
    {
        match Self::position_quantity(&self.position) {
            None => Err(TradeError::NothingHeld),
            Some(quantity) => match exchange.sell(price, quantity) {
                Ok(point) => {
                    self.position = None;
                    self.selling_count = increment(self.selling_count);
                    Ok(point)
                },
                Err(message) => Err(TradeError::Upstream(message)),
            },
        }
    }

    /// One tick at `price`: sell if a sell is due; otherwise buy if a buy is
    /// due. A position that sold is not bought again in the same tick. On an
    /// exchange failure the position is left as it was.
    pub fn trap<E: Exchanger>(&mut self, exchange: &mut Recorded<E>, price: &Decimal) -> (r: Result<
        (),
        TradeError,
    >)
        ensures
            r is Ok ==> old(self).tick_step(
                *final(self),
                *price,
                old(exchange).calls@,
                final(exchange).calls@,
            ),
            r is Err ==> *final(self) == *old(self) && old(self).tick_failed(
                *price,
                old(exchange).calls@,
                final(exchange).calls@,
                r->Err_0,
            ),
            !old(self).sell_due(price.val()) && !old(self).buy_due(price.val()) ==> r is Ok
                && *final(self) == *old(self) && final(exchange).calls@ == old(exchange).calls@,
    {
        if self.selling.is_within_inclusive(price) && !self.is_short() {
            match self.sell(exchange, *price) {
                Ok(_) => return Ok(()),
                Err(e) => return Err(e),
            }
        }
        if self.buying.is_within_inclusive(price) && self.is_short() {
            match self.buy(exchange, *price) {
                Ok(_) => return Ok(()),
                Err(e) => return Err(e),
            }
        }
        Ok(())
    }
}

impl PartialEq for LimitPosition {
    fn eq(&self, o: &LimitPosition) -> (r: bool) {
        let held = match (&self.position, &o.position) {
            (None, None) => true,
            (Some(x), Some(y)) => *x == *y,
            _ => false,
        };
        self.investment == o.investment && self.buying == o.buying && self.selling == o.selling
            && held && self.buying_count == o.buying_count && self.selling_count
            == o.selling_count
    }
}

impl vstd::std_specs::cmp::PartialEqSpecImpl for LimitPosition {
    open spec fn obeys_eq_spec() -> bool {
        true
    }

    open spec fn eq_spec(&self, o: &LimitPosition) -> bool {
        self.same_as(*o)
    }
}

/// At most one holding: over any run of successful ticks, a position's buy
/// count moves only in a tick that found it flat, spent its investment and
/// left it holding what the exchange returned; its sell count moves only in a
/// tick that found it holding and sold exactly what it held.
pub proof fn lemma_buys_only_when_flat(
    states: Seq<LimitPosition>,
    prices: Seq<Decimal>,
    logs: Seq<Seq<ExchangeCall>>,
)
    requires
        states.len() == prices.len() + 1,
        logs.len() == prices.len() + 1,
        forall|i: int|
            0 <= i < prices.len() ==> #[trigger] states[i].tick_step(
                states[i + 1],
                prices[i],
                logs[i],
                logs[i + 1],
            ),
    ensures
        forall|i: int|
            0 <= i < prices.len() && #[trigger] states[i + 1].buys() != states[i].buys() ==> is_flat(
                states[i].position,
            ) && bought(logs[i + 1].last(), prices[i], states[i].investment, states[i + 1].position)
                && states[i + 1].position is Some && states[i + 1].sells() == states[i].sells(),
        forall|i: int|
            0 <= i < prices.len() && #[trigger] states[i + 1].sells() != states[i].sells() ==> !is_flat(
                states[i].position,
            ) && sold(logs[i + 1].last(), prices[i], states[i].position->0) && states[i
                + 1].position is None && states[i + 1].buys() == states[i].buys(),
{
    assert forall|i: int|
        0 <= i < prices.len() && #[trigger] states[i + 1].buys() != states[i].buys() implies is_flat(
            states[i].position,
        ) && bought(logs[i + 1].last(), prices[i], states[i].investment, states[i + 1].position)
            && states[i + 1].position is Some && states[i + 1].sells() == states[i].sells() by {
        assert(states[i].tick_step(states[i + 1], prices[i], logs[i], logs[i + 1]));
    }
    assert forall|i: int|
        0 <= i < prices.len() && #[trigger] states[i + 1].sells() != states[i].sells() implies !is_flat(
            states[i].position,
        ) && sold(logs[i + 1].last(), prices[i], states[i].position->0) && states[i
            + 1].position is None && states[i + 1].buys() == states[i].buys() by {
        assert(states[i].tick_step(states[i + 1], prices[i], logs[i], logs[i + 1]));
    }
}

/// The engine: positions evaluated in order against one price per tick.
#[derive(Debug)]
pub struct Limit {
    pub positions: Vec<LimitPosition>,
}

impl Limit {
    /// The positions before `k` took their tick steps at `price` in order,
    /// the exchange's record going through `logs`; the others are as they were.
    pub open spec fn steps(
        self,
        next: Limit,
        price: Decimal,
        logs: Seq<Seq<ExchangeCall>>,
        k: int,
    ) -> bool {
        &&& next.positions.len() == self.positions.len()
        &&& 0 <= k <= self.positions.len()
        &&& logs.len() == k + 1
        &&& forall|j: int|
            0 <= j < k ==> #[trigger] self.positions[j].tick_step(
                next.positions[j],
                price,
                logs[j],
                logs[j + 1],
            )
        &&& forall|j: int|
            k <= j < self.positions.len() ==> #[trigger] next.positions[j] == self.positions[j]
    }

    /// A whole tick at `price`: every position took its step in order, the
    /// exchange's record going from `before` to `after`.
    pub open spec fn ticked(
        self,
        next: Limit,
        price: Decimal,
        before: Seq<ExchangeCall>,
        after: Seq<ExchangeCall>,
    ) -> bool {
        exists|logs: Seq<Seq<ExchangeCall>>|
            #[trigger] self.steps(next, price, logs, self.positions.len() as int) && logs[0]
                == before && logs.last() == after
    }

    /// A tick at `price` that failed with `err` at some position `k`: the
    /// positions before it took their steps, the exchange refused the trade
    /// due at `k`, and `k` and the positions after it are as they were.
    pub open spec fn failed(
        self,
        next: Limit,
        price: Decimal,
        before: Seq<ExchangeCall>,
        after: Seq<ExchangeCall>,
        err: TradeError,
    ) -> bool {
        exists|logs: Seq<Seq<ExchangeCall>>, k: int|
            #[trigger] self.steps(next, price, logs, k) && k < self.positions.len() && logs[0]
                == before && self.positions[k].tick_failed(price, logs[k], after, err)
    }

    /// No position has a trade due at `price`.
    pub open spec fn nothing_due(self, price: int) -> bool {
        forall|j: int|
            0 <= j < self.positions.len() ==> !(#[trigger] self.positions[j]).sell_due(price)
                && !self.positions[j].buy_due(price)
    }

    pub open spec fn all_flat(self) -> bool {
        forall|j: int| 0 <= j < self.positions.len() ==> is_flat(#[trigger] self.positions[j].position)
    }

    pub fn with_positions(positions: Vec<LimitPosition>) -> (r: Limit)
        ensures
            r.positions@ == positions@,
    {
        Limit { positions }
    }

    pub fn positions(&self) -> (r: &Vec<LimitPosition>)
        ensures
            r@ == self.positions@,
    {
        &self.positions
    }

    /// No position holds anything.
    pub fn is_all_short(&self) -> (r: bool)
        ensures
            r == self.all_flat(),
    {
        let mut i: usize = 0;
        while i < self.positions.len()
            invariant
                i <= self.positions.len(),
                forall|j: int| 0 <= j < i ==> is_flat(#[trigger] self.positions[j].position),
            decreases self.positions.len() - i,
        {
            if !self.positions[i].is_short() {
                return false;
            }
            i = i + 1;
        }
        true
    }

    /// One tick at `price`: each position in order sells if a sell is due,
    /// otherwise buys if a buy is due. The first exchange failure ends the
    /// tick; the positions visited before it keep their steps.
    pub fn trap_at<E: Exchanger>(&mut self, exchange: &mut Recorded<E>, price: &Decimal) -> (r:
        Result<(), TradeError>)
        ensures
            r is Ok ==> old(self).ticked(
                *final(self),
                *price,
                old(exchange).calls@,
                final(exchange).calls@,
            ),
            r is Err ==> old(self).failed(
                *final(self),
                *price,
                old(exchange).calls@,
                final(exchange).calls@,
                r->Err_0,
            ),
            old(self).nothing_due(price.val()) ==> r is Ok && final(self).positions@ == old(self).positions@ && final(exchange).calls@ == old(exchange).calls@,
    {
        let n = self.positions.len();
        let mut i: usize = 0;
        let ghost mut logs: Seq<Seq<ExchangeCall>> = seq![exchange.calls@];
        while i < n
            invariant
                n == self.positions.len(),
                i <= n,
                old(self).steps(*self, *price, logs, i as int),
                logs[0] == old(exchange).calls@,
                logs.last() == exchange.calls@,
                old(self).nothing_due(price.val()) ==> exchange.calls@ == old(exchange).calls@,
            decreases n - i,
        {
            let ghost before = exchange.calls@;
            match self.positions[i].trap(exchange, price) {
                Ok(()) => {},
                Err(e) => {
                    assert(old(self).steps(*self, *price, logs, i as int));
                    assert(self.positions[i as int] == old(self).positions[i as int]);
                    return Err(e);
                },
            }
            proof {
                let next_logs = logs.push(exchange.calls@);
                assert forall|j: int| 0 <= j < i + 1 implies #[trigger] old(self).positions[j].tick_step(
                    self.positions[j],
                    *price,
                    next_logs[j],
                    next_logs[j + 1],
                ) by {
                    if j < i {
                        assert(old(self).positions[j].tick_step(
                            self.positions[j],
                            *price,
                            logs[j],
                            logs[j + 1],
                        ));
                    }
                }
                logs = next_logs;
            }
            i = i + 1;
        }
        proof {
            if old(self).nothing_due(price.val()) {
                assert forall|j: int| 0 <= j < n implies self.positions[j] == old(self).positions[j] by {
                    assert(old(self).positions[j].tick_step(
                        self.positions[j],
                        *price,
                        logs[j],
                        logs[j + 1],
                    ));
                }
                assert(self.positions@ =~= old(self).positions@);
            }
        }
        Ok(())
    }

    /// One tick: fetches the price once, then runs [`Limit::trap_at`] with it.
    /// Returns the price of the tick.
    pub fn trap<E: Exchanger>(&mut self, exchange: &mut Recorded<E>) -> (r: Result<
        PricePoint,
        TradeError,
    >)
        ensures
            r is Ok ==> old(self).ticked(
                *final(self),
                r->Ok_0.value,
                old(exchange).calls@.push(ExchangeCall::Price(Ok(r->Ok_0))),
                final(exchange).calls@,
            ),
            r is Err ==> price_failed(old(exchange).calls@, final(exchange).calls@, r->Err_0)
                && final(self).positions@ == old(self).positions@ || exists|p: PricePoint|
                old(self).failed(
                    *final(self),
                    p.value,
                    old(exchange).calls@.push(ExchangeCall::Price(Ok(p))),
                    final(exchange).calls@,
                    r->Err_0,
                ),
    {
        match exchange.price() {
            Ok(point) => match self.trap_at(exchange, &point.value) {
                Ok(()) => Ok(point),
                Err(e) => Err(e),
            },
            Err(message) => Err(TradeError::Upstream(message)),
        }
    }
}

/// The price fetch failed with `err`, which carries the exchange's message,
/// and nothing else was asked of the exchange.
pub open spec fn price_failed(before: Seq<ExchangeCall>, after: Seq<ExchangeCall>, err: TradeError) -> bool {
    match err {
        TradeError::Upstream(m) => after == before.push(ExchangeCall::Price(Err(m))),
        _ => false,
    }
}

/// A sell of `quantity` at `price` that the exchange carried out.
pub open spec fn sold(c: ExchangeCall, price: Decimal, quantity: Decimal) -> bool {
    match c {
        ExchangeCall::Sell(p, q, Ok(_)) => p == price && q == quantity,
        _ => false,
    }
}

/// A buy of `amount` worth at `price` that the exchange carried out, the
/// quantity it returned now `held`.
pub open spec fn bought(c: ExchangeCall, price: Decimal, amount: Decimal, held: Option<Decimal>) -> bool {
    match c {
        ExchangeCall::Buy(p, a, Ok(point)) => p == price && a == amount && held == Some(point.value),
        _ => false,
    }
}

} // verus!
