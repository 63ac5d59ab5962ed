//! The grid: one price range and one investment split into overlapping
//! positions that buy in the lower half of one interval and sell in the upper
//! half of the interval after next, with an optional stop-loss band.
use crate::decimal::{
    abs, lemma_fits_below, lemma_mantissa_scaled, lemma_on_grid, lemma_pow10_add,
    lemma_pow10_pos, lemma_trunc_bound, lemma_trunc_exact, max_nat, pow10, quotient_of, trunc_val,
    units_of, Decimal, MAX_MANTISSA,
};
use crate::spot::{lemma_product_with_fraction, product_val};
use crate::strategy::limit::{is_flat, next_count, price_failed, sold, Limit, LimitPosition};
use crate::strategy::{ExchangeCall, Exchanger, PricePoint, Range, Recorded, TradeError};
use vstd::prelude::*;

verus! {

/// A price that the profit estimates can multiply by `1.0001` exactly: at
/// most 24 fractional digits, and a mantissa that stays within 96 bits when
/// multiplied by 10001.
pub open spec fn estimate_fits(d: Decimal) -> bool {
    d.sc() <= 24 && abs(d@.0) * 10001 <= MAX_MANTISSA
}

/// The scale a layout over `range` computes at: the larger scale of the two
/// bounds, and at least 7 (half an interval of 6 digits has 7).
pub open spec fn layout_scale(range: Range) -> nat {
    max_nat(max_nat(range.0.sc(), range.1.sc()), 7)
}

/// Laying out `copies - 1` positions of interval width `iv` over `range` is
/// exact in 96-bit decimals, with room for the profit estimates: every
/// computed bound, at most `|low| + |iv| * (copies + 2)` in magnitude, fits
/// at the layout's scale of at most 24 digits even when multiplied by
/// 1.0001, and `iv` times any position index fits at 6 digits.
pub open spec fn layout_fits(iv: int, range: Range, copies: usize) -> bool {
    let s = layout_scale(range);
    &&& 2 <= copies <= usize::MAX - 5
    &&& s <= 24
    &&& 10001 * (abs(range.lo().val()) + abs(iv) * (copies + 2)) <= MAX_MANTISSA * pow10(
        (28 - s) as nat,
    )
    &&& abs(iv) * (copies + 5) <= MAX_MANTISSA * pow10(22)
}

/// Splitting `range` into `copies` is exact: the layout fits for an interval
/// as wide as the whole range, and so for every narrower one.
pub open spec fn grid_fits(range: Range, copies: usize) -> bool {
    layout_fits(range.hi().val() - range.lo().val(), range, copies)
}

/// Half of `v`.
pub open spec fn half_of(v: int) -> int {
    product_val(v, 5 * pow10(27))
}

/// Position `i` of a grid whose positions each invest `share`, over the
/// interval width `iv`, between `lo` and `hi`: it buys in
/// `[lo + i*iv, lo + i*iv + iv/2]` and sells in
/// `[lo + (i+2)*iv - iv/2, lo + (i+2)*iv]`, and starts flat, with no trades
/// counted.
pub open spec fn laid_out(p: LimitPosition, share: int, iv: int, lo: int, i: int) -> bool {
    &&& p.investment.val() == share
    &&& p.buying.0.val() == lo + iv * i
    &&& p.buying.1.val() == lo + iv * i + half_of(iv)
    &&& p.selling.0.val() == lo + iv * (i + 2) - half_of(iv)
    &&& p.selling.1.val() == lo + iv * (i + 2)
    &&& p.position is None
    &&& p.buys() == 0
    &&& p.sells() == 0
}

/// The bounds of a position that the profit price estimates multiply.
pub open spec fn position_bounded(p: LimitPosition) -> bool {
    &&& estimate_fits(p.buying.0)
    &&& estimate_fits(p.buying.1)
    &&& estimate_fits(p.selling.0)
    &&& estimate_fits(p.selling.1)
}

/// The positions of a grid: `copies - 1` of them, position `i` laid out as
/// [`laid_out`] says.
pub open spec fn is_layout(
    ps: Seq<LimitPosition>,
    share: int,
    iv: int,
    range: Range,
    copies: usize,
) -> bool {
    &&& ps.len() == copies - 1
    &&& forall|i: int|
        0 <= i < ps.len() ==> #[trigger] laid_out(
            ps[i],
            share,
            iv,
            range.lo().val(),
            i,
        )
}

/// Lays out `copies - 1` positions over `range`, each investing `share`,
/// from the interval width `interval`.
#[verifier::spinoff_prover]
#[verifier::rlimit(50)]
pub fn layout(share: &Decimal, interval: &Decimal, range: &Range, copies: usize) -> (r: Vec<
    LimitPosition,
>)
    requires
        interval.sc() <= 6,
        layout_fits(interval.val(), *range, copies),
    ensures
        is_layout(r@, share.val(), interval.val(), *range, copies),
        forall|i: int| 0 <= i < r.len() ==> position_bounded(#[trigger] r@[i]),
{
    let low = range.low();
    let half_unit = Decimal::new(5, 1);
    let ghost s = layout_scale(*range);
    let ghost k = pow10((28 - s) as nat);
    let ghost v = abs(range.lo().val()) + abs(interval.val()) * (copies + 2);
    proof {
        lemma_pow10_pos((28 - s) as nat);
        lemma_pow10_pos(22);
        lemma_mantissa_scaled(*interval, 6);
        let m = abs(interval@.0);
        let c = copies + 5;
        assert(m * c <= MAX_MANTISSA) by (nonlinear_arith)
            requires
                m * pow10(22) <= abs(interval.val()),
                abs(interval.val()) * c <= MAX_MANTISSA * pow10(22),
                pow10(22) >= 1,
                m >= 0,
                c >= 0,
        ;
        assert(abs(interval@.0 * 5) <= MAX_MANTISSA) by (nonlinear_arith)
            requires
                m == abs(interval@.0),
                m * c <= MAX_MANTISSA,
                c >= 7,
                m >= 0,
        ;
        assert(half_unit.val() == 5 * pow10(27)) by {
            lemma_pow10_add(1, 27);
            reveal_with_fuel(pow10, 2);
        }
        assert(v <= MAX_MANTISSA * k) by (nonlinear_arith)
            requires
                10001 * v <= MAX_MANTISSA * k,
                v >= 0,
        ;
        assert(v >= 0) by (nonlinear_arith)
            requires
                v == abs(range.lo().val()) + abs(interval.val()) * (copies + 2),
        ;
    }
    let half = interval.checked_mul(&half_unit).unwrap();
    proof {
        lemma_pow10_pos(28);
        assert(half.val() == half_of(interval.val())) by (nonlinear_arith)
            requires
                half.val() * pow10(28) == interval.val() * (5 * pow10(27)),
                pow10(28) >= 1,
        ;
        lemma_product_with_fraction(interval.val(), 5 * pow10(27));
    }
    let mut result: Vec<LimitPosition> = Vec::new();
    let mut i: usize = 0;
    while i < copies - 1
        invariant
            i <= copies - 1,
            result.len() == i,
            interval.sc() <= 6,
            layout_fits(interval.val(), *range, copies),
            s == layout_scale(*range),
            k == pow10((28 - s) as nat),
            k >= 1,
            v == abs(range.lo().val()) + abs(interval.val()) * (copies + 2),
            v >= 0,
            v <= MAX_MANTISSA * k,
            abs(interval@.0) * (copies + 5) <= MAX_MANTISSA,
            *low == range.lo(),
            half.val() == half_of(interval.val()),
            abs(half.val()) <= abs(interval.val()),
            half.sc() <= 7,
            forall|j: int|
                0 <= j < i ==> #[trigger] laid_out(
                    result@[j],
                    share.val(),
                    interval.val(),
                    range.lo().val(),
                    j,
                ),
            forall|j: int| 0 <= j < i ==> position_bounded(#[trigger] result@[j]),
        decreases copies - 1 - i,
    {
        proof {
            lemma_point_fits(*low, *interval, i as int, copies, s);
            lemma_point_fits(*low, *interval, i + 2, copies, s);
        }
        let buying = grid_point(low, interval, i, Ghost(s));
        let selling = grid_point(low, interval, i + 2, Ghost(s));
        proof {
            let iv = abs(interval.val());
            let lo = abs(range.lo().val());
            assert(abs(buying.val() + half.val()) <= v && abs(selling.val() - half.val()) <= v
                && abs(buying.val()) <= v && abs(selling.val()) <= v && abs(half.val()) <= v)
                by (nonlinear_arith)
                requires
                    abs(buying.val()) <= lo + iv * i,
                    abs(selling.val()) <= lo + iv * (i + 2),
                    abs(half.val()) <= iv,
                    i + 2 <= copies,
                    iv >= 0,
                    lo >= 0,
                    v == lo + iv * (copies + 2),
            ;
            lemma_fits_below(buying.val() + half.val(), v, max_nat(buying.sc(), half.sc()), s);
            lemma_fits_below(buying.val(), v, max_nat(buying.sc(), half.sc()), s);
            lemma_fits_below(half.val(), v, max_nat(buying.sc(), half.sc()), s);
            lemma_fits_below(selling.val() - half.val(), v, max_nat(selling.sc(), half.sc()), s);
            lemma_fits_below(selling.val(), v, max_nat(selling.sc(), half.sc()), s);
            lemma_fits_below(half.val(), v, max_nat(selling.sc(), half.sc()), s);
        }
        let buying_top = buying.checked_add(&half).unwrap();
        let selling_bottom = selling.checked_sub(&half).unwrap();
        proof {
            lemma_estimate_fits(buying, v, s);
            lemma_estimate_fits(buying_top, v, s);
            lemma_estimate_fits(selling, v, s);
            lemma_estimate_fits(selling_bottom, v, s);
        }
        let position = LimitPosition::new(
            *share,
            Range(buying, buying_top),
            Range(selling_bottom, selling),
            None,
        );
        result.push(position);
        proof {
            assert(laid_out(
                result@[i as int],
                share.val(),
                interval.val(),
                range.lo().val(),
                i as int,
            ));
        }
        i = i + 1;
    }
    result
}

/// A bound of a layout that fits, with room for the estimates, can be
/// multiplied by an estimate.
proof fn lemma_estimate_fits(d: Decimal, v: int, s: nat)
    requires
        d.sc() <= s <= 24,
        abs(d.val()) <= v,
        10001 * v <= MAX_MANTISSA * pow10((28 - s) as nat),
    ensures
        estimate_fits(d),
{
    lemma_mantissa_scaled(d, s);
    lemma_pow10_pos((28 - s) as nat);
    let m = abs(d@.0);
    let k = pow10((28 - s) as nat);
    assert(m * 10001 <= MAX_MANTISSA) by (nonlinear_arith)
        requires
            m * k <= abs(d.val()),
            abs(d.val()) <= v,
            10001 * v <= MAX_MANTISSA * k,
            k >= 1,
            m >= 0,
    ;
}

/// Every point `low + iv * k` of a layout, `k` at most `copies`, fits.
proof fn lemma_point_fits(low: Decimal, interval: Decimal, k: int, copies: usize, s: nat)
    requires
        0 <= k <= copies,
        s <= 28,
        abs(low.val()) + abs(interval.val()) * (copies + 2) <= MAX_MANTISSA * pow10(
            (28 - s) as nat,
        ),
        abs(interval@.0) * (copies + 5) <= MAX_MANTISSA,
    ensures
        abs(low.val()) + abs(interval.val()) * k <= MAX_MANTISSA * pow10((28 - s) as nat),
        abs(interval@.0) * k <= MAX_MANTISSA,
{
    let iv = abs(interval.val());
    let m = abs(interval@.0);
    assert(iv * k <= iv * (copies + 2) && m * k <= m * (copies + 5)) by (nonlinear_arith)
        requires
            0 <= k <= copies,
            iv >= 0,
            m >= 0,
    ;
}

/// `low + interval * k`, every step exact where it fits at scale `s`.
fn grid_point(low: &Decimal, interval: &Decimal, k: usize, s: Ghost<nat>) -> (r: Decimal)
    requires
        interval.sc() <= 6,
        7 <= s@ <= 28,
        low.sc() <= s@,
        abs(interval@.0) * k <= MAX_MANTISSA,
        abs(low.val()) + abs(interval.val()) * k <= MAX_MANTISSA * pow10((28 - s@) as nat),
    ensures
        r.val() == low.val() + interval.val() * k,
        abs(r.val()) <= abs(low.val()) + abs(interval.val()) * k,
        r.sc() <= s@,
{
    let factor = Decimal::from_usize(k);
    proof {
        assert(abs(interval@.0 * k) == abs(interval@.0) * k) by (nonlinear_arith)
            requires
                k >= 0,
        ;
        assert(factor.val() == k * pow10(28)) by {
            assert(pow10(0) == 1);
        }
    }
    let step = interval.checked_mul(&factor).unwrap();
    proof {
        lemma_pow10_pos(28);
        let iv = interval.val();
        assert(step.val() == iv * k) by (nonlinear_arith)
            requires
                step.val() * pow10(28) == iv * (k * pow10(28)),
                pow10(28) >= 1,
        ;
        assert(abs(iv * k) == abs(iv) * k) by (nonlinear_arith)
            requires
                k >= 0,
        ;
        let w = abs(low.val()) + abs(iv) * k;
        let t = max_nat(low.sc(), step.sc());
        assert(abs(low.val()) <= w && abs(step.val()) <= w && abs(low.val() + step.val()) <= w)
            by (nonlinear_arith)
            requires
                w == abs(low.val()) + abs(iv) * k,
                abs(step.val()) == abs(iv) * k,
                abs(iv) * k >= 0,
        ;
        lemma_fits_below(low.val(), w, t, s@);
        lemma_fits_below(step.val(), w, t, s@);
        lemma_fits_below(low.val() + step.val(), w, t, s@);
    }
    low.checked_add(&step).unwrap()
}

/// The value of what `rust_decimal` returns for `a / n`, `n` a whole number.
pub open spec fn quotient_units(a: (int, nat), n: int) -> int {
    match quotient_of(a, (n, 0)) {
        Some(q) => units_of(q.0, q.1),
        None => 0,
    }
}

/// What each position of a grid invests: `investment / (copies - 1)`, cut to
/// 6 fractional digits.
pub open spec fn grid_share(investment: Decimal, copies: usize) -> int {
    trunc_val(quotient_units(investment@, copies - 1), 6)
}

/// The interval width of a grid: `(high - low) / copies`, the difference
/// written at the larger scale of the bounds, the quotient cut to 6 digits.
pub open spec fn grid_interval(range: Range, copies: usize) -> int {
    let diff = range.hi().val() - range.lo().val();
    let t = max_nat(range.0.sc(), range.1.sc());
    trunc_val(quotient_units((diff / pow10((28 - t) as nat), t), copies as int), 6)
}

/// Options of a grid: an optional stop-loss band.
#[derive(Debug)]
pub struct GridOptions {
    pub stop_loss: Option<Range>,
}

impl Default for GridOptions {
    fn default() -> (r: GridOptions)
        ensures
            r.stop_loss is None,
    {
        GridOptions { stop_loss: None }
    }
}

/// A position sold off by the stop loss at `price`, the exchange's record
/// going from `before` to `after`: what it held was sold at `price`, whatever
/// its selling range; a flat position is left as it is and nothing is asked of
/// the exchange.
pub open spec fn liquidated(
    a: LimitPosition,
    b: LimitPosition,
    price: Decimal,
    before: Seq<ExchangeCall>,
    after: Seq<ExchangeCall>,
) -> bool {
    &&& b.same_terms(a)
    &&& if !is_flat(a.position) {
        &&& after == before.push(after.last())
        &&& sold(after.last(), price, a.position->0)
        &&& b.position is None
        &&& b.sells() == next_count(a.sells())
        &&& b.buys() == a.buys()
    } else {
        b == a && after == before
    }
}

/// The stop-loss sell of a holding position at `price` was refused with the
/// exchange's message, which `err` carries.
pub open spec fn liquidation_failed(
    a: LimitPosition,
    price: Decimal,
    before: Seq<ExchangeCall>,
    after: Seq<ExchangeCall>,
    err: TradeError,
) -> bool {
    match err {
        TradeError::Upstream(m) => !is_flat(a.position) && after == before.push(
            ExchangeCall::Sell(price, a.position->0, Err(m)),
        ),
        _ => false,
    }
}

/// The engine over a grid's positions, and its options.
#[derive(Debug)]
pub struct Grid {
    pub limit: Limit,
    pub options: GridOptions,
}

impl Grid {
    pub open spec fn wf(self) -> bool {
        forall|i: int|
            0 <= i < self.limit.positions.len() ==> position_bounded(
                #[trigger] self.limit.positions[i],
            )
    }

    /// The stop loss is set and `price` lies in its band.
    pub open spec fn stop_reached(self, price: int) -> bool {
        self.options.stop_loss is Some && self.options.stop_loss->0.contains_inclusive(price)
    }

    /// The positions before `k` were sold off by the stop loss at `price`
    /// in order, the exchange's record going through `logs`; the others are
    /// as they were.
    pub open spec fn sold_off(
        self,
        next: Grid,
        price: Decimal,
        logs: Seq<Seq<ExchangeCall>>,
        k: int,
    ) -> bool {
        &&& next.limit.positions.len() == self.limit.positions.len()
        &&& 0 <= k <= self.limit.positions.len()
        &&& logs.len() == k + 1
        &&& forall|j: int|
            0 <= j < k ==> #[trigger] liquidated(
                self.limit.positions[j],
                next.limit.positions[j],
                price,
                logs[j],
                logs[j + 1],
            )
        &&& forall|j: int|
            k <= j < self.limit.positions.len() ==> #[trigger] next.limit.positions[j]
                == self.limit.positions[j]
    }

    /// Every position was sold off by the stop loss at `price`, in order.
    pub open spec fn all_liquidated(
        self,
        next: Grid,
        price: Decimal,
        before: Seq<ExchangeCall>,
        after: Seq<ExchangeCall>,
    ) -> bool {
        exists|logs: Seq<Seq<ExchangeCall>>|
            #[trigger] self.sold_off(next, price, logs, self.limit.positions.len() as int)
                && logs[0] == before && logs.last() == after
    }

    /// The stop-loss sell-off at `price` failed with `err` at some position
    /// `k`: the positions before it were sold off, the exchange refused the
    /// sell of `k`, and `k` and the positions after it are as they were.
    pub open spec fn liquidation_broke(
        self,
        next: Grid,
        price: Decimal,
        before: Seq<ExchangeCall>,
        after: Seq<ExchangeCall>,
        err: TradeError,
    ) -> bool {
        exists|logs: Seq<Seq<ExchangeCall>>, k: int|
            #[trigger] self.sold_off(next, price, logs, k) && k < self.limit.positions.len()
                && logs[0] == before && liquidation_failed(
                self.limit.positions[k],
                price,
                logs[k],
                after,
                err,
            )
    }

    /// What a tick at `price` did where it succeeded, the exchange's record
    /// going from `before` to `after`.
    pub open spec fn ticked(
        self,
        next: Grid,
        price: Decimal,
        before: Seq<ExchangeCall>,
        after: Seq<ExchangeCall>,
    ) -> bool {
        &&& next.options == self.options
        &&& self.stop_reached(price.val()) ==> self.all_liquidated(next, price, before, after)
        &&& !self.stop_reached(price.val()) ==> self.limit.ticked(next.limit, price, before, after)
    }

    /// What a tick at `price` did where it failed with `err`.
    pub open spec fn failed(
        self,
        next: Grid,
        price: Decimal,
        before: Seq<ExchangeCall>,
        after: Seq<ExchangeCall>,
        err: TradeError,
    ) -> bool {
        &&& next.options == self.options
        &&& self.stop_reached(price.val()) ==> self.liquidation_broke(next, price, before, after, err)
        &&& !self.stop_reached(price.val()) ==> self.limit.failed(
            next.limit,
            price,
            before,
            after,
            err,
        )
    }

    /// A grid of `copies - 1` positions over `range` (see [`Grid::split`]).
    pub fn new(investment: Decimal, range: Range, copies: usize, options: Option<GridOptions>) -> (r:
        Grid)
        requires
            grid_fits(range, copies),
        ensures
            r.wf(),
            is_layout(
                r.limit.positions@,
                grid_share(investment, copies),
                grid_interval(range, copies),
                range,
                copies,
            ),
            options is None ==> r.options.stop_loss is None,
            options is Some ==> r.options == options->0,
    {
        let limit = Limit::with_positions(Self::split(investment, range, copies));
        let options = match options {
            Some(o) => o,
            None => GridOptions::default(),
        };
        Grid { limit, options }
    }

    /// Splits `range` into `copies` intervals of width
    /// `(high - low) / copies`, cut to 6 fractional digits, and lays out
    /// `copies - 1` positions each spanning two intervals, each investing
    /// `investment / (copies - 1)` cut to 6 fractional digits.
    pub fn split(investment: Decimal, range: Range, copies: usize) -> (r: Vec<LimitPosition>)
        requires
            grid_fits(range, copies),
        ensures
            is_layout(
                r@,
                grid_share(investment, copies),
                grid_interval(range, copies),
                range,
                copies,
            ),
            forall|i: int| 0 <= i < r.len() ==> position_bounded(#[trigger] r@[i]),
    {
        let share = investment.checked_div(&Decimal::from_usize(copies - 1)).unwrap();
        let share = share.trunc_with_scale(6);
        let diff = normalized_difference(&range, copies);
        let interval = diff.checked_div(&Decimal::from_usize(copies)).unwrap();
        proof {
            lemma_trunc_bound(interval.val(), 6);
        }
        let interval = interval.trunc_with_scale(6);
        proof {
            let d = range.hi().val() - range.lo().val();
            let iv = abs(interval.val());
            let lo = abs(range.lo().val());
            assert(10001 * (lo + iv * (copies + 2)) <= 10001 * (lo + d * (copies + 2)) && iv * (
            copies + 5) <= d * (copies + 5)) by (nonlinear_arith)
                requires
                    0 <= iv <= d,
                    copies >= 2,
            ;
        }
        layout(&share, &interval, &range, copies)
    }

    /// Prices just inside each position's bands: 0.01% below the top of its
    /// buying band and 0.01% above the bottom of its selling band, each cut
    /// to 8 fractional digits, two per position in order.
    pub fn predictive_lowest_profit_price(&self) -> (r: Vec<Decimal>)
        requires
            self.wf(),
        ensures
            r.len() == 2 * self.limit.positions.len(),
            forall|i: int|
                0 <= i < self.limit.positions.len() ==> (#[trigger] r@[2 * i]).val() == trunc_val(
                    product_val(self.limit.positions[i].buying.1.val(), 9999 * pow10(24)),
                    8,
                ) && r@[2 * i + 1].val() == trunc_val(
                    product_val(self.limit.positions[i].selling.0.val(), 10001 * pow10(24)),
                    8,
                ),
    {
        let positions = self.limit.positions();
        let below = Decimal::new(9999, 4);
        let above = Decimal::new(10001, 4);
        proof {
            reveal_with_fuel(pow10, 5);
            lemma_pow10_add(4, 24);
            assert(below.val() == 9999 * pow10(24));
            assert(above.val() == 10001 * pow10(24));
        }
        let mut result: Vec<Decimal> = Vec::new();
        let mut i: usize = 0;
        while i < positions.len()
            invariant
                positions@ == self.limit.positions@,
                self.wf(),
                i <= positions.len(),
                result.len() == 2 * i,
                below.val() == 9999 * pow10(24),
                above.val() == 10001 * pow10(24),
                below@ == (9999int, 4nat),
                above@ == (10001int, 4nat),
                forall|j: int|
                    0 <= j < i ==> (#[trigger] result@[2 * j]).val() == trunc_val(
                        product_val(positions[j].buying.1.val(), 9999 * pow10(24)),
                        8,
                    ) && result@[2 * j + 1].val() == trunc_val(
                        product_val(positions[j].selling.0.val(), 10001 * pow10(24)),
                        8,
                    ),
            decreases positions.len() - i,
        {
            let position = &positions[i];
            assert(position_bounded(self.limit.positions[i as int]));
            let buying = bounded_product(&position.buying.1, &below);
            let selling = bounded_product(&position.selling.0, &above);
            let ghost before = result@;
            let low_price = buying.trunc_with_scale(8);
            let high_price = selling.trunc_with_scale(8);
            result.push(low_price);
            result.push(high_price);
            proof {
                let n = i as int;
                assert(result@[2 * n] == low_price);
                assert(result@[2 * n + 1] == high_price);
                assert forall|j: int| 0 <= j < n + 1 implies (#[trigger] result@[2 * j]).val()
                    == trunc_val(product_val(positions[j].buying.1.val(), 9999 * pow10(24)), 8)
                    && result@[2 * j + 1].val() == trunc_val(
                    product_val(positions[j].selling.0.val(), 10001 * pow10(24)),
                    8,
                ) by {
                    if j < n {
                        assert(result@[2 * j] == before[2 * j]);
                        assert(result@[2 * j + 1] == before[2 * j + 1]);
                    }
                }
            }
            i = i + 1;
        }
        result
    }

    /// Prices just inside each position's outer bounds: 0.01% above the
    /// bottom of its buying band and 0.01% below the top of its selling band,
    /// each cut to 8 fractional digits, two per position in order.
    pub fn predictive_highest_profit_price(&self) -> (r: Vec<Decimal>)
        requires
            self.wf(),
        ensures
            r.len() == 2 * self.limit.positions.len(),
            forall|i: int|
                0 <= i < self.limit.positions.len() ==> (#[trigger] r@[2 * i]).val() == trunc_val(
                    product_val(self.limit.positions[i].buying.0.val(), 10001 * pow10(24)),
                    8,
                ) && r@[2 * i + 1].val() == trunc_val(
                    product_val(self.limit.positions[i].selling.1.val(), 9999 * pow10(24)),
                    8,
                ),
    {
        let positions = self.limit.positions();
        let below = Decimal::new(9999, 4);
        let above = Decimal::new(10001, 4);
        proof {
            reveal_with_fuel(pow10, 5);
            lemma_pow10_add(4, 24);
            assert(below.val() == 9999 * pow10(24));
            assert(above.val() == 10001 * pow10(24));
        }
        let mut result: Vec<Decimal> = Vec::new();
        let mut i: usize = 0;
        while i < positions.len()
            invariant
                positions@ == self.limit.positions@,
                self.wf(),
                i <= positions.len(),
                result.len() == 2 * i,
                below.val() == 9999 * pow10(24),
                above.val() == 10001 * pow10(24),
                below@ == (9999int, 4nat),
                above@ == (10001int, 4nat),
                forall|j: int|
                    0 <= j < i ==> (#[trigger] result@[2 * j]).val() == trunc_val(
                        product_val(positions[j].buying.0.val(), 10001 * pow10(24)),
                        8,
                    ) && result@[2 * j + 1].val() == trunc_val(
                        product_val(positions[j].selling.1.val(), 9999 * pow10(24)),
                        8,
                    ),
            decreases positions.len() - i,
        {
            let position = &positions[i];
            assert(position_bounded(self.limit.positions[i as int]));
            let buying = bounded_product(&position.buying.0, &above);
            let selling = bounded_product(&position.selling.1, &below);
            let ghost before = result@;
            let low_price = buying.trunc_with_scale(8);
            let high_price = selling.trunc_with_scale(8);
            result.push(low_price);
            result.push(high_price);
            proof {
                let n = i as int;
                assert(result@[2 * n] == low_price);
                assert(result@[2 * n + 1] == high_price);
                assert forall|j: int| 0 <= j < n + 1 implies (#[trigger] result@[2 * j]).val()
                    == trunc_val(product_val(positions[j].buying.0.val(), 10001 * pow10(24)), 8)
                    && result@[2 * j + 1].val() == trunc_val(
                    product_val(positions[j].selling.1.val(), 9999 * pow10(24)),
                    8,
                ) by {
                    if j < n {
                        assert(result@[2 * j] == before[2 * j]);
                        assert(result@[2 * j + 1] == before[2 * j + 1]);
                    }
                }
            }
            i = i + 1;
        }
        result
    }

    /// Whether every position keeps the bounds that the profit estimates and
    /// the tick need (see [`Grid::wf`]).
    pub fn is_well_formed(&self) -> (r: bool)
        ensures
            r == self.wf(),
    {
        let mut i: usize = 0;
        while i < self.limit.positions.len()
            invariant
                i <= self.limit.positions.len(),
                forall|j: int| 0 <= j < i ==> position_bounded(#[trigger] self.limit.positions[j]),
            decreases self.limit.positions.len() - i,
        {
            let p = &self.limit.positions[i];
            if !is_estimate_fit(&p.buying.0) || !is_estimate_fit(&p.buying.1)
                || !is_estimate_fit(&p.selling.0) || !is_estimate_fit(&p.selling.1) {
                return false;
            }
            i = i + 1;
        }
        true
    }

    /// The stop loss is set and `price` lies in its band.
    pub fn is_reached_stop_loss(&self, price: &Decimal) -> (r: bool)
        ensures
            r == self.stop_reached(price.val()),
    {
        match &self.options.stop_loss {
            Some(range) => range.is_within_inclusive(price),
            None => false,
        }
    }

    /// No position holds anything.
    pub fn is_all_short(&self) -> (r: bool)
        ensures
            r == self.limit.all_flat(),
    {
        self.limit.is_all_short()
    }

    /// One tick at `price`. Where the stop loss is reached, every position
    /// that holds something sells it, whatever its selling range; otherwise
    /// the engine runs its tick. The first exchange failure ends the tick.
    pub fn trap_at<E: Exchanger>(&mut self, exchange: &mut Recorded<E>, price: &Decimal) -> (r:
        Result<(), TradeError>)
        requires
            old(self).wf(),
        ensures
            final(self).wf(),
            r is Ok ==> old(self).ticked(
                *final(self),
                *price,
                old(exchange).calls@,
                final(exchange).calls@,
            ),
            r is Err ==> old(self).failed(
                *final(self),
                *price,
                old(exchange).calls@,
                final(exchange).calls@,
                r->Err_0,
            ),
            old(self).stop_reached(price.val()) && old(self).limit.all_flat() ==> r is Ok
                && final(self).limit.positions@ == old(self).limit.positions@ && final(exchange).calls@ == old(exchange).calls@,
            !old(self).stop_reached(price.val()) && old(self).limit.nothing_due(price.val())
                ==> r is Ok && final(self).limit.positions@ == old(self).limit.positions@ && final(exchange).calls@ == old(exchange).calls@,
    {
        if self.is_reached_stop_loss(price) {
            let n = self.limit.positions.len();
            let mut i: usize = 0;
            let ghost mut logs: Seq<Seq<ExchangeCall>> = seq![exchange.calls@];
            while i < n
                invariant
                    n == self.limit.positions.len(),
                    i <= n,
                    self.options == old(self).options,
                    old(self).sold_off(*self, *price, logs, i as int),
                    logs[0] == old(exchange).calls@,
                    logs.last() == exchange.calls@,
                    old(self).wf(),
                    old(self).stop_reached(price.val()),
                    old(self).limit.all_flat() ==> exchange.calls@ == old(exchange).calls@,
                decreases n - i,
            {
                if !self.limit.positions[i].is_short() {
                    match self.limit.positions[i].sell(exchange, *price) {
                        Ok(_) => {},
                        Err(e) => {
                            assert(old(self).sold_off(*self, *price, logs, i as int));
                            assert(self.limit.positions[i as int] == old(self).limit.positions[i as int]);
                            proof {
                                self.lemma_sold_off_keeps_bounds(*old(self), *price, logs, i as int);
                            }
                            return Err(e);
                        },
                    }
                }
                proof {
                    let next_logs = logs.push(exchange.calls@);
                    assert forall|j: int| 0 <= j < i + 1 implies #[trigger] liquidated(
                        old(self).limit.positions[j],
                        self.limit.positions[j],
                        *price,
                        next_logs[j],
                        next_logs[j + 1],
                    ) by {
                        if j < i {
                            assert(liquidated(
                                old(self).limit.positions[j],
                                self.limit.positions[j],
                                *price,
                                logs[j],
                                logs[j + 1],
                            ));
                        }
                    }
                    logs = next_logs;
                }
                i = i + 1;
            }
            proof {
                self.lemma_sold_off_keeps_bounds(*old(self), *price, logs, n as int);
                if old(self).limit.all_flat() {
                    assert forall|j: int| 0 <= j < n implies self.limit.positions[j] == old(self).limit.positions[j] by {
                        assert(liquidated(
                            old(self).limit.positions[j],
                            self.limit.positions[j],
                            *price,
                            logs[j],
                            logs[j + 1],
                        ));
                    }
                    assert(self.limit.positions@ =~= old(self).limit.positions@);
                }
            }
            return Ok(());
        }
        let r = self.limit.trap_at(exchange, price);
        proof {
            if r is Ok {
                let logs = choose|logs: Seq<Seq<ExchangeCall>>|
                    #[trigger] old(self).limit.steps(
                        self.limit,
                        *price,
                        logs,
                        old(self).limit.positions.len() as int,
                    ) && logs[0] == old(exchange).calls@ && logs.last() == exchange.calls@;
                self.lemma_steps_keep_bounds(*old(self), *price, logs, old(self).limit.positions.len() as int);
            } else {
                let (logs, k) = choose|logs: Seq<Seq<ExchangeCall>>, k: int|
                    #[trigger] old(self).limit.steps(self.limit, *price, logs, k) && k
                        < old(self).limit.positions.len() && logs[0] == old(exchange).calls@
                        && old(self).limit.positions[k].tick_failed(
                        *price,
                        logs[k],
                        exchange.calls@,
                        r->Err_0,
                    );
                self.lemma_steps_keep_bounds(*old(self), *price, logs, k);
            }
        }
        r
    }

    proof fn lemma_sold_off_keeps_bounds(
        self,
        before: Grid,
        price: Decimal,
        logs: Seq<Seq<ExchangeCall>>,
        k: int,
    )
        requires
            before.wf(),
            before.sold_off(self, price, logs, k),
        ensures
            self.wf(),
    {
        assert forall|j: int| 0 <= j < self.limit.positions.len() implies position_bounded(
            #[trigger] self.limit.positions[j],
        ) by {
            assert(position_bounded(before.limit.positions[j]));
            if j < k {
                assert(liquidated(
                    before.limit.positions[j],
                    self.limit.positions[j],
                    price,
                    logs[j],
                    logs[j + 1],
                ));
            } else {
                assert(self.limit.positions[j] == before.limit.positions[j]);
            }
        }
    }

    proof fn lemma_steps_keep_bounds(
        self,
        before: Grid,
        price: Decimal,
        logs: Seq<Seq<ExchangeCall>>,
        k: int,
    )
        requires
            before.wf(),
            before.limit.steps(self.limit, price, logs, k),
        ensures
            self.wf(),
    {
        assert forall|j: int| 0 <= j < self.limit.positions.len() implies position_bounded(
            #[trigger] self.limit.positions[j],
        ) by {
            assert(position_bounded(before.limit.positions[j]));
            if j < k {
                assert(before.limit.positions[j].tick_step(
                    self.limit.positions[j],
                    price,
                    logs[j],
                    logs[j + 1],
                ));
            } else {
                assert(self.limit.positions[j] == before.limit.positions[j]);
            }
        }
    }

    /// One tick: fetches the price once, then runs [`Grid::trap_at`] with it.
    /// Returns the price of the tick.
    pub fn trap<E: Exchanger>(&mut self, exchange: &mut Recorded<E>) -> (r: Result<
        PricePoint,
        TradeError,
    >)
        requires
            old(self).wf(),
        ensures
            final(self).wf(),
            final(self).options == old(self).options,
            r is Ok ==> old(self).ticked(
                *final(self),
                r->Ok_0.value,
                old(exchange).calls@.push(ExchangeCall::Price(Ok(r->Ok_0))),
                final(exchange).calls@,
            ),
            r is Err ==> price_failed(old(exchange).calls@, final(exchange).calls@, r->Err_0)
                && final(self).limit.positions@ == old(self).limit.positions@ || exists|
                p: PricePoint,
            |
                old(self).failed(
                    *final(self),
                    p.value,
                    old(exchange).calls@.push(ExchangeCall::Price(Ok(p))),
                    final(exchange).calls@,
                    r->Err_0,
                ),
    {
        match exchange.price() {
            Ok(point) => match self.trap_at(exchange, &point.value) {
                Ok(()) => Ok(point),
                Err(e) => Err(e),
            },
            Err(message) => Err(TradeError::Upstream(message)),
        }
    }
}

/// Whether the profit estimates can multiply `d` (see [`estimate_fits`]).
fn is_estimate_fit(d: &Decimal) -> (r: bool)
    ensures
        r == estimate_fits(*d),
{
    d.limits_hold();
    let m = d.mantissa();
    let a = if m >= 0 { m } else { -m };
    d.scale() <= 24 && a * 10001 <= MAX_MANTISSA
}

/// `high - low` of `range`, written at the larger scale of its bounds.
fn normalized_difference(range: &Range, copies: usize) -> (r: Decimal)
    requires
        grid_fits(*range, copies),
    ensures
        ({
            let t = max_nat(range.0.sc(), range.1.sc());
            r@ == ((range.hi().val() - range.lo().val()) / pow10((28 - t) as nat), t)
        }),
        r.val() == range.hi().val() - range.lo().val(),
{
    let low = range.low();
    let high = range.high();
    let ghost t = max_nat(range.0.sc(), range.1.sc());
    let ghost s = layout_scale(*range);
    proof {
        let d = high.val() - low.val();
        let w = abs(low.val()) + d * (copies + 2);
        assert(d >= 0);
        assert(max_nat(low.sc(), high.sc()) <= t);
        assert(t <= s && s <= 24);
        lemma_pow10_pos((28 - s) as nat);
        assert(abs(low.val()) <= w && abs(high.val()) <= w && abs(d) <= w && w <= MAX_MANTISSA
            * pow10((28 - s) as nat)) by (nonlinear_arith)
            requires
                d >= 0,
                high.val() == low.val() + d,
                w == abs(low.val()) + d * (copies + 2),
                copies >= 2,
                10001 * w <= MAX_MANTISSA * pow10((28 - s) as nat),
        ;
        let u = max_nat(low.sc(), high.sc());
        lemma_fits_below(low.val(), w, u, s);
        lemma_fits_below(high.val(), w, u, s);
        lemma_fits_below(d, w, u, s);
        lemma_fits_below(d, w, t, s);
    }
    let diff = high.checked_sub(low).unwrap();
    proof {
        lemma_on_grid(diff, t);
        lemma_trunc_exact(diff@.0 * pow10((t - diff.sc()) as nat), t);
    }
    let scale = if range.0.scale() >= range.1.scale() {
        range.0.scale()
    } else {
        range.1.scale()
    };
    let diff = diff.trunc_with_scale(scale);
    proof {
        let k = pow10((28 - t) as nat);
        lemma_pow10_pos((28 - t) as nat);
        assert(diff.sc() == t);
        assert(diff.val() == diff@.0 * k);
        assert(diff@.0 == (high.val() - low.val()) / k) by (nonlinear_arith)
            requires
                diff@.0 * k == high.val() - low.val(),
                k >= 1,
        ;
    }
    diff
}

/// `d * f` for a price `d` that an estimate can multiply and a factor `f`
/// with a mantissa of at most 10001 and four fractional digits.
fn bounded_product(d: &Decimal, f: &Decimal) -> (r: Decimal)
    requires
        estimate_fits(*d),
        f@.1 == 4,
        0 <= f@.0 <= 10001,
    ensures
        r.val() == product_val(d.val(), f.val()),
{
    proof {
        let m = abs(d@.0);
        assert(abs(d@.0 * f@.0) <= MAX_MANTISSA) by (nonlinear_arith)
            requires
                m == abs(d@.0),
                m * 10001 <= MAX_MANTISSA,
                0 <= f@.0 <= 10001,
        ;
    }
    let r = d.checked_mul(f).unwrap();
    proof {
        lemma_pow10_pos(28);
        let x = d.val() * f.val();
        assert(x / pow10(28) == r.val()) by (nonlinear_arith)
            requires
                r.val() * pow10(28) == x,
                pow10(28) >= 1,
        ;
    }
    r
}

/// Splitting is repeatable: two splits of the same investment and range into
/// the same number of copies give equal position lists.
pub proof fn lemma_split_repeatable(
    investment: Decimal,
    range: Range,
    copies: usize,
    a: Seq<LimitPosition>,
    b: Seq<LimitPosition>,
)
    requires
        is_layout(a, grid_share(investment, copies), grid_interval(range, copies), range, copies),
        is_layout(b, grid_share(investment, copies), grid_interval(range, copies), range, copies),
    ensures
        a.len() == b.len(),
        forall|i: int| 0 <= i < a.len() ==> (#[trigger] a[i]).same_as(b[i]),
{
    let share = grid_share(investment, copies);
    let iv = grid_interval(range, copies);
    assert forall|i: int| 0 <= i < a.len() implies (#[trigger] a[i]).same_as(b[i]) by {
        assert(laid_out(a[i], share, iv, range.lo().val(), i));
        assert(laid_out(b[i], share, iv, range.lo().val(), i));
    }
}

/// The ladder: with a positive interval, each position's buying band lies
/// strictly below its own selling band and at or above the range's low bound,
/// and the buying bands rise from one position to the next.
pub proof fn lemma_ladder(ps: Seq<LimitPosition>, share: int, iv: int, range: Range, copies: usize)
    requires
        is_layout(ps, share, iv, range, copies),
        iv > 0,
    ensures
        forall|i: int|
            0 <= i < ps.len() ==> (#[trigger] ps[i]).buying.hi().val() < ps[i].selling.lo().val()
                && range.lo().val() <= ps[i].buying.lo().val(),
        forall|i: int|
            0 <= i < ps.len() - 1 ==> (#[trigger] ps[i]).buying.lo().val() < ps[i
                + 1].buying.lo().val(),
{
    let h = half_of(iv);
    let lo = range.lo().val();
    lemma_pow10_pos(27);
    assert(pow10(28) == 10 * pow10(27));
    assert(0 <= h && 2 * h <= iv) by (nonlinear_arith)
        requires
            h == (iv * (5 * pow10(27))) / pow10(28),
            pow10(28) == 10 * pow10(27),
            pow10(27) >= 1,
            iv > 0,
    ;
    assert forall|i: int| 0 <= i < ps.len() implies (#[trigger] ps[i]).buying.hi().val()
        < ps[i].selling.lo().val() && lo <= ps[i].buying.lo().val() by {
        assert(laid_out(ps[i], share, iv, lo, i));
        assert(iv * i >= 0 && iv * (i + 2) == iv * i + 2 * iv) by (nonlinear_arith)
            requires
                iv > 0,
                i >= 0,
        ;
    }
    assert forall|i: int| 0 <= i < ps.len() - 1 implies (#[trigger] ps[i]).buying.lo().val()
        < ps[i + 1].buying.lo().val() by {
        assert(laid_out(ps[i], share, iv, lo, i));
        assert(laid_out(ps[i + 1], share, iv, lo, i + 1));
        assert(iv * i >= 0 && iv * (i + 1) == iv * i + iv) by (nonlinear_arith)
            requires
                iv > 0,
                i >= 0,
        ;
    }
}

} // verus!
