//! A one-shot strategy: buy once, then sell the first order whose price has
//! risen by a target percentage, or fallen past a stop percentage.
use crate::decimal::{
    abs, lemma_mantissa_bound, lemma_pow10_add, lemma_pow10_pos, pow10, Decimal, MAX_MANTISSA,
};
use crate::spot::product_val;
use vstd::prelude::*;

verus! {

/// A completed trade: price, amount spent, quantity acquired, and when.
#[derive(Clone, Copy, Debug)]
pub struct Order {
    pub price: Decimal,
    pub amount: Decimal,
    pub quantity: Decimal,
    pub timestamp: i64,
}

impl Order {
    /// Equal by value in every field.
    pub open spec fn same_as(self, o: Order) -> bool {
        &&& self.price.val() == o.price.val()
        &&& self.amount.val() == o.amount.val()
        &&& self.quantity.val() == o.quantity.val()
        &&& self.timestamp == o.timestamp
    }
}

impl PartialEq for Order {
    fn eq(&self, o: &Order) -> (r: bool) {
        self.price == o.price && self.amount == o.amount && self.quantity == o.quantity
            && self.timestamp == o.timestamp
    }
}

impl vstd::std_specs::cmp::PartialEqSpecImpl for Order {
    open spec fn obeys_eq_spec() -> bool {
        true
    }

    open spec fn eq_spec(&self, o: &Order) -> bool {
        self.same_as(*o)
    }
}

/// A change to the orders held: one bought, or one sold.
#[derive(Clone, Copy, Debug)]
pub enum PositionSide {
    Increase(Order),
    Decrease(Order),
}

/// `1 + percent` and `1 - percent` are exact: the percentage's mantissa
/// plus one at its scale fits in 96 bits.
pub open spec fn unit_factor_fits(percent: Decimal) -> bool {
    abs(percent@.0) + pow10(percent.sc()) <= MAX_MANTISSA
}

/// `entry * (1 +- percent)` is exact: the scales add up to at most 28, and the
/// entry's mantissa times that of `1 +- percent` fits in 96 bits.
pub open spec fn threshold_fits(entry: Decimal, percent: Decimal) -> bool {
    &&& entry.sc() + percent.sc() <= 28
    &&& abs(entry@.0) * (abs(percent@.0) + pow10(percent.sc())) <= MAX_MANTISSA
}

/// `entry * (1 + percent)`.
pub open spec fn raised_by(entry: Decimal, percent: Decimal) -> int {
    product_val(entry.val(), pow10(28) + percent.val())
}

/// `entry * (1 - percent)`.
pub open spec fn dropped_by(entry: Decimal, percent: Decimal) -> int {
    product_val(entry.val(), pow10(28) - percent.val())
}

/// An order is to be sold at `price`: the price has risen above its entry
/// price by more than `target`, or, with a stop set, fallen below its entry
/// price by more than `stop`.
pub open spec fn sell_signal(o: Order, price: int, target: Decimal, stop: Option<Decimal>) -> bool {
    price > raised_by(o.price, target) || (stop is Some && price < dropped_by(o.price, stop->0))
}

/// The index of the first order equal by value to `v`, or the length where
/// there is none.
pub open spec fn first_same(s: Seq<Order>, v: Order) -> int
    decreases s.len(),
{
    if s.len() == 0 {
        0
    } else if s[0].same_as(v) {
        0
    } else {
        1 + first_same(s.drop_first(), v)
    }
}

/// The strategy: an investment, a target and an optional stop percentage, an
/// optional price from which buying may start, the orders held, and whether
/// its one cycle is complete.
#[derive(Debug)]
pub struct Percentage {
    pub investment: Decimal,
    pub target_percent: Decimal,
    pub is_completed: bool,
    pub stop_percent: Option<Decimal>,
    pub positions: Vec<Order>,
    pub start_buying_price: Option<Decimal>,
}

impl Percentage {
    pub open spec fn wf(self) -> bool {
        &&& unit_factor_fits(self.target_percent)
        &&& (self.stop_percent is Some ==> unit_factor_fits(self.stop_percent->0))
        &&& forall|i: int| 0 <= i < self.positions.len() ==> self.order_fits(#[trigger] self.positions[i])
    }

    /// The thresholds of order `o` are exact.
    pub open spec fn order_fits(self, o: Order) -> bool {
        &&& threshold_fits(o.price, self.target_percent)
        &&& (self.stop_percent is Some ==> threshold_fits(o.price, self.stop_percent->0))
    }

    pub open spec fn signal(self, price: int) -> spec_fn(Order) -> bool {
        |o: Order| sell_signal(o, price, self.target_percent, self.stop_percent)
    }

    pub fn new(
        investment: Decimal,
        target_percent: Decimal,
        stop_percent: Option<Decimal>,
        start_buying_price: Option<Decimal>,
    ) -> (r: Percentage)
        requires
            unit_factor_fits(target_percent),
            stop_percent is Some ==> unit_factor_fits(stop_percent->0),
        ensures
            r.wf(),
            r.investment == investment,
            r.target_percent == target_percent,
            r.stop_percent == stop_percent,
            r.start_buying_price == start_buying_price,
            !r.is_completed,
            r.positions@.len() == 0,
    {
        Percentage {
            investment,
            target_percent,
            stop_percent,
            start_buying_price,
            is_completed: false,
            positions: Vec::new(),
        }
    }

    fn completed(&mut self)
        ensures
            final(self).is_completed,
            final(self).positions == old(self).positions,
            final(self).investment == old(self).investment,
            final(self).target_percent == old(self).target_percent,
            final(self).stop_percent == old(self).stop_percent,
            final(self).start_buying_price == old(self).start_buying_price,
    {
        self.is_completed = true;
    }

    /// The orders held, in the order they were bought.
    pub fn positions(&self) -> (r: Vec<Order>)
        ensures
            r@ == self.positions@,
    {
        let mut result: Vec<Order> = Vec::new();
        let mut i: usize = 0;
        while i < self.positions.len()
            invariant
                i <= self.positions.len(),
                result@ == self.positions@.subrange(0, i as int),
            decreases self.positions.len() - i,
        {
            result.push(self.positions[i]);
            i = i + 1;
            assert(result@ =~= self.positions@.subrange(0, i as int));
        }
        assert(result@ =~= self.positions@);
        result
    }

    pub fn is_completed(&self) -> (r: bool)
        ensures
            r == self.is_completed,
    {
        self.is_completed
    }

    /// The amount to spend at `price`: the investment, while the cycle is not
    /// complete, the price has reached the start price (where one is set),
    /// and no order is held.
    pub fn predictive_buying(&self, price: &Decimal) -> (r: Option<Decimal>)
        ensures
            r == (if !self.is_completed && (self.start_buying_price is None || price.val()
                >= self.start_buying_price->0.val()) && self.positions.len() == 0 {
                Some(self.investment)
            } else {
                None
            }),
    {
        if self.is_completed() {
            return None;
        }
        if let Some(start_price) = &self.start_buying_price {
            if *price < *start_price {
                return None;
            }
        }
        if self.positions.len() == 0 {
            return Some(self.investment);
        }
        None
    }

    /// The orders to sell at `price`, in the order held; `None` once the
    /// cycle is complete.
    pub fn predictive_selling(&self, price: &Decimal) -> (r: Option<Vec<Order>>)
        requires
            self.wf(),
        ensures
            self.is_completed ==> r is None,
            !self.is_completed ==> r is Some && r->0@ == self.positions@.filter(
                self.signal(price.val()),
            ),
    {
        if self.is_completed() {
            return None;
        }
        let ghost pred = self.signal(price.val());
        let mut result: Vec<Order> = Vec::new();
        let mut i: usize = 0;
        while i < self.positions.len()
            invariant
                self.wf(),
                pred == self.signal(price.val()),
                i <= self.positions.len(),
                result@ == self.positions@.subrange(0, i as int).filter(pred),
            decreases self.positions.len() - i,
        {
            let order = self.positions[i];
            assert(self.order_fits(self.positions[i as int]));
            let mut sell = *price > threshold(&order.price, &self.target_percent, true);
            if !sell {
                if let Some(stop) = &self.stop_percent {
                    sell = *price < threshold(&order.price, stop, false);
                }
            }
            proof {
                let s = self.positions@.subrange(0, i + 1);
                assert(s.drop_last() =~= self.positions@.subrange(0, i as int));
                assert(s.last() == order);
                reveal(Seq::filter);
            }
            if sell {
                result.push(order);
            }
            i = i + 1;
        }
        assert(self.positions@.subrange(0, self.positions.len() as int) =~= self.positions@);
        Some(result)
    }

    /// Records a trade: a bought order is appended; a sold order removes the
    /// first equal order held and completes the cycle. A sold order that is
    /// not held changes nothing.
    pub fn update_position(&mut self, side: &PositionSide)
        requires
            old(self).wf(),
            side matches PositionSide::Increase(o) ==> old(self).order_fits(*o),
        ensures
            final(self).wf(),
            final(self).investment == old(self).investment,
            final(self).target_percent == old(self).target_percent,
            final(self).stop_percent == old(self).stop_percent,
            final(self).start_buying_price == old(self).start_buying_price,
            match side {
                PositionSide::Increase(o) => final(self).positions@ == old(self).positions@.push(*o)
                    && final(self).is_completed == old(self).is_completed,
                PositionSide::Decrease(o) => {
                    let k = first_same(old(self).positions@, *o);
                    if k < old(self).positions.len() {
                        final(self).positions@ == old(self).positions@.remove(k)
                            && final(self).is_completed
                    } else {
                        final(self).positions@ == old(self).positions@ && final(self).is_completed
                            == old(self).is_completed
                    }
                },
            },
    {
        match side {
            PositionSide::Increase(v) => {
                self.positions.push(*v);
                proof {
                    assert forall|i: int| 0 <= i < self.positions.len() implies self.order_fits(
                        #[trigger] self.positions[i],
                    ) by {
                        if i < old(self).positions.len() {
                            assert(self.positions[i] == old(self).positions[i]);
                        }
                    }
                }
            },
            PositionSide::Decrease(v) => {
                let mut i: usize = 0;
                while i < self.positions.len()
                    invariant
                        self.positions == old(self).positions,
                        i <= self.positions.len(),
                        forall|j: int| 0 <= j < i ==> !(#[trigger] self.positions[j]).same_as(*v),
                    ensures
                        i <= self.positions.len(),
                        forall|j: int| 0 <= j < i ==> !(#[trigger] self.positions[j]).same_as(*v),
                        i < self.positions.len() ==> self.positions[i as int].same_as(*v),
                    decreases self.positions.len() - i,
                {
                    if self.positions[i] == *v {
                        break;
                    }
                    i = i + 1;
                }
                proof {
                    lemma_first_same(self.positions@, *v, i as int);
                }
                if i < self.positions.len() {
                    self.positions.remove(i);
                    self.completed();
                    proof {
                        assert forall|j: int| 0 <= j < self.positions.len() implies self.order_fits(
                            #[trigger] self.positions[j],
                        ) by {
                            if j < i {
                                assert(self.positions[j] == old(self).positions[j]);
                            } else {
                                assert(self.positions[j] == old(self).positions[j + 1]);
                            }
                        }
                    }
                }
            },
        }
    }
}

/// Where no order before `i` equals `v` and `i` is the length or the order
/// at `i` equals `v`, `i` is the first index of `v`.
proof fn lemma_first_same(s: Seq<Order>, v: Order, i: int)
    requires
        0 <= i <= s.len(),
        forall|j: int| 0 <= j < i ==> !(#[trigger] s[j]).same_as(v),
        i < s.len() ==> s[i].same_as(v),
    ensures
        first_same(s, v) == i,
    decreases s.len(),
{
    if s.len() > 0 && i > 0 {
        assert(!s[0].same_as(v));
        assert forall|j: int| 0 <= j < i - 1 implies !(#[trigger] s.drop_first()[j]).same_as(v) by {
            assert(s.drop_first()[j] == s[j + 1]);
        }
        if i < s.len() {
            assert(s.drop_first()[i - 1] == s[i]);
        }
        lemma_first_same(s.drop_first(), v, i - 1);
    }
}

/// `entry * (1 + percent)` where `rise`, else `entry * (1 - percent)`, exact.
fn threshold(entry: &Decimal, percent: &Decimal, rise: bool) -> (r: Decimal)
    requires
        unit_factor_fits(*percent),
        threshold_fits(*entry, *percent),
    ensures
        rise ==> r.val() == raised_by(*entry, *percent),
        !rise ==> r.val() == dropped_by(*entry, *percent),
{
    let one = Decimal::one();
    percent.limits_hold();
    let ghost s = percent.sc();
    let ghost k = pow10((28 - s) as nat);
    let ghost m = percent@.0;
    let ghost b = abs(m) + pow10(s);
    proof {
        lemma_pow10_pos(28);
        lemma_pow10_pos(s);
        lemma_pow10_pos((28 - s) as nat);
        lemma_pow10_add(s, (28 - s) as nat);
        assert(one.val() == pow10(28)) by {
            assert(pow10(0) == 1);
        }
        assert(percent.val() == m * k);
        assert(abs(one.val()) <= MAX_MANTISSA * k && abs(percent.val()) <= MAX_MANTISSA * k
            && abs(one.val() + percent.val()) <= MAX_MANTISSA * k && abs(one.val() - percent.val())
            <= MAX_MANTISSA * k && abs(one.val() + percent.val()) <= b * k && abs(one.val()
            - percent.val()) <= b * k) by (nonlinear_arith)
            requires
                one.val() == pow10(s) * k,
                percent.val() == m * k,
                b == abs(m) + pow10(s),
                b <= MAX_MANTISSA,
                pow10(s) >= 1,
                k >= 1,
        ;
    }
    let factor = if rise {
        one.checked_add(percent).unwrap()
    } else {
        one.checked_sub(percent).unwrap()
    };
    proof {
        lemma_mantissa_bound(factor, b, s);
        let e = abs(entry@.0);
        let f = abs(factor@.0);
        assert(abs(entry@.0 * factor@.0) <= MAX_MANTISSA) by (nonlinear_arith)
            requires
                e == abs(entry@.0),
                f == abs(factor@.0),
                f <= b,
                e * b <= MAX_MANTISSA,
                e >= 0,
        ;
    }
    let r = entry.checked_mul(&factor).unwrap();
    proof {
        let x = entry.val() * factor.val();
        assert(x / pow10(28) == r.val()) by (nonlinear_arith)
            requires
                r.val() * pow10(28) == x,
                pow10(28) >= 1,
        ;
    }
    r
}

} // verus!
