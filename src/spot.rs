//! Exchange rules for one spot instrument: truncation of quantities to the
//! tradable scale, commission on buying and selling, and the minimum notional.
use crate::decimal::{
    abs, fits_at, lemma_fits_smaller_scale, lemma_mantissa_of_unit, lemma_mul_zero, lemma_on_grid,
    lemma_pow10_28, lemma_pow10_add, lemma_pow10_mono, lemma_pow10_pos, lemma_round_below_grid,
    lemma_round_bound, lemma_trunc_exact, max_nat, pow10, pow10_exec, product_fits, quotient_of,
    round_val, trunc_val, units_of, Decimal, MAX_MANTISSA,
};
use vstd::prelude::*;

verus! {

/// `a * b` of two values in units of `10^-28`.
pub open spec fn product_val(a: int, b: int) -> int {
    a * b / pow10(28)
}

/// A commission is a fraction between zero and one.
pub open spec fn is_fraction(c: Decimal) -> bool {
    0 <= c.val() <= pow10(28)
}

/// `q * (1 - c)` is exact: `q`'s mantissa times `10^scale(c)` fits in 96
/// bits, and the two scales add up to at most 28.
pub open spec fn scaled_product_fits(q: Decimal, c: Decimal) -> bool {
    abs(q@.0) * pow10(c.sc()) <= MAX_MANTISSA && q.sc() + c.sc() <= 28
}

/// Taking commission `c` at `p` fractional digits from an amount of value `v`
/// and scale at most `s` is exact: the amount's mantissa times `10^scale(c)`
/// fits in 96 bits, the scales add up to at most 28, and twice the amount
/// plus one step of `p` digits fits at the larger of `s` and `p`.
pub open spec fn commission_fits(v: int, s: nat, c: Decimal, p: nat) -> bool {
    &&& abs(v) * pow10(c.sc()) <= MAX_MANTISSA * pow10((28 - s) as nat)
    &&& s + c.sc() <= 28
    &&& p <= 28
    &&& fits_at(2 * abs(v) + pow10((28 - p) as nat), max_nat(s, p))
}

/// A product with a fraction is at most the other factor in magnitude, and
/// between zero and it where that factor is non-negative.
pub proof fn lemma_product_with_fraction(a: int, c: int)
    requires
        0 <= c <= pow10(28),
    ensures
        abs(product_val(a, c)) <= abs(a),
        a >= 0 ==> 0 <= product_val(a, c) <= a,
        c == 0 ==> product_val(a, c) == 0,
        c == pow10(28) ==> product_val(a, c) == a,
{
    let k = pow10(28);
    lemma_pow10_pos(28);
    if a >= 0 {
        assert(0 <= a * c <= a * k) by (nonlinear_arith)
            requires
                a >= 0,
                0 <= c <= k,
        ;
        assert(0 <= (a * c) / k <= (a * k) / k) by (nonlinear_arith)
            requires
                0 <= a * c <= a * k,
                k >= 1,
        ;
        assert((a * k) / k == a) by (nonlinear_arith)
            requires
                k >= 1,
        ;
    } else {
        assert(a * k <= a * c <= 0) by (nonlinear_arith)
            requires
                a < 0,
                0 <= c <= k,
        ;
        assert((a * k) / k <= (a * c) / k <= 0) by (nonlinear_arith)
            requires
                a * k <= a * c <= 0,
                k >= 1,
        ;
        assert((a * k) / k == a) by (nonlinear_arith)
            requires
                k >= 1,
        ;
    }
    if c == k {
        assert((a * k) / k == a) by (nonlinear_arith)
            requires
                k >= 1,
        ;
    }
}

/// Why an order was not placed.
#[derive(Debug, PartialEq)]
pub enum SpotClientError {
    /// The price could not be fetched; the exchange's message.
    Price(String),
    /// The order was refused by the exchange; its message.
    Trading(String),
    /// A number from the exchange has no decimal form; the number as text.
    Decimal(String),
    /// The order's notional is not above the minimum transaction amount.
    MinimumNotReached,
    /// The quantity cannot be computed within the decimal limits.
    OutOfRange,
}

/// Whether orders are sent to the exchange for real.
#[derive(Clone, Copy, Debug)]
pub struct SpotClientOption {
    pub is_production: bool,
}

/// Orders are real only where an option says so.
pub fn is_production(option: &Option<SpotClientOption>) -> (r: bool)
    ensures
        r == (option is Some && option->0.is_production),
{
    match option {
        Some(v) => v.is_production,
        None => false,
    }
}

/// A buy as the exchange books it: price, amount spent, quantity bought, and
/// quantity held after the commission.
#[derive(Clone, Copy, Debug)]
pub struct SpotBuying {
    pub price: Decimal,
    pub spent: Decimal,
    pub quantity: Decimal,
    pub quantity_after_commission: Decimal,
}

impl PartialEq for SpotBuying {
    fn eq(&self, o: &SpotBuying) -> (r: bool) {
        self.price == o.price && self.spent == o.spent && self.quantity == o.quantity
            && self.quantity_after_commission == o.quantity_after_commission
    }
}

impl vstd::std_specs::cmp::PartialEqSpecImpl for SpotBuying {
    open spec fn obeys_eq_spec() -> bool {
        true
    }

    open spec fn eq_spec(&self, o: &SpotBuying) -> bool {
        &&& self.price.val() == o.price.val()
        &&& self.spent.val() == o.spent.val()
        &&& self.quantity.val() == o.quantity.val()
        &&& self.quantity_after_commission.val() == o.quantity_after_commission.val()
    }
}

/// A sell as the exchange books it: price, quantity sold, income, and income
/// after the commission.
#[derive(Clone, Copy, Debug)]
pub struct SpotSelling {
    pub price: Decimal,
    pub quantity: Decimal,
    pub income: Decimal,
    pub income_after_commission: Decimal,
}

impl PartialEq for SpotSelling {
    fn eq(&self, o: &SpotSelling) -> (r: bool) {
        self.price == o.price && self.quantity == o.quantity && self.income == o.income
            && self.income_after_commission == o.income_after_commission
    }
}

impl vstd::std_specs::cmp::PartialEqSpecImpl for SpotSelling {
    open spec fn obeys_eq_spec() -> bool {
        true
    }

    open spec fn eq_spec(&self, o: &SpotSelling) -> bool {
        &&& self.price.val() == o.price.val()
        &&& self.quantity.val() == o.quantity.val()
        &&& self.income.val() == o.income.val()
        &&& self.income_after_commission.val() == o.income_after_commission.val()
    }
}

/// The mantissa of value `v` written with `p` fractional digits.
pub open spec fn mantissa_at(v: int, p: nat) -> int {
    v / pow10((28 - p) as nat)
}

/// A quantity of value `q` cut to `p` digits can be bought at `price` with
/// commission `c`, every step exact.
pub open spec fn buy_fits(price: Decimal, q: int, p: nat, c: Decimal) -> bool {
    &&& fits_at(q, p)
    &&& abs(price@.0 * mantissa_at(q, p)) <= MAX_MANTISSA
    &&& price.sc() + p <= 28
    &&& abs(mantissa_at(q, p)) * pow10(c.sc()) <= MAX_MANTISSA
    &&& p + c.sc() <= 28
}

/// A quantity of value `q` cut to `p` digits can be sold at `price` with
/// commission `c` taken at `ip` digits, every step exact.
pub open spec fn sell_fits(price: Decimal, q: int, p: nat, c: Decimal, ip: nat) -> bool {
    &&& fits_at(q, p)
    &&& abs(price@.0 * mantissa_at(q, p)) <= MAX_MANTISSA
    &&& price.sc() + p <= 28
    &&& commission_fits(product_val(price.val(), q), price.sc() + p, c, ip)
}

/// The trading rules of one instrument.
pub struct Spot {
    pub symbol: String,
    pub transaction_quantity_precision: u32,
    pub holding_quantity_precision: u32,
    pub amount_income_precision: u32,
    pub buying_commission: Decimal,
    pub selling_commission: Decimal,
    pub minimum_transaction_amount: Decimal,
}

impl Spot {
    pub open spec fn wf(self) -> bool {
        &&& self.transaction_quantity_precision <= 28
        &&& self.holding_quantity_precision <= 28
        &&& self.amount_income_precision <= 28
        &&& is_fraction(self.buying_commission)
        &&& is_fraction(self.selling_commission)
    }

    pub fn new(
        symbol: String,
        transaction_quantity_precision: u32,
        holding_quantity_precision: u32,
        amount_income_precision: u32,
        buying_commission: Decimal,
        selling_commission: Decimal,
        minimum_transaction_amount: Decimal,
    ) -> (r: Spot)
        requires
            transaction_quantity_precision <= 28,
            holding_quantity_precision <= 28,
            amount_income_precision <= 28,
            is_fraction(buying_commission),
            is_fraction(selling_commission),
        ensures
            r.wf(),
            r.symbol@ == symbol@,
            r.transaction_quantity_precision == transaction_quantity_precision,
            r.holding_quantity_precision == holding_quantity_precision,
            r.amount_income_precision == amount_income_precision,
            r.buying_commission == buying_commission,
            r.selling_commission == selling_commission,
            r.minimum_transaction_amount == minimum_transaction_amount,
    {
        Spot {
            symbol,
            transaction_quantity_precision,
            holding_quantity_precision,
            amount_income_precision,
            buying_commission,
            selling_commission,
            minimum_transaction_amount,
        }
    }

    pub fn symbol(&self) -> (r: &String)
        ensures
            r@ == self.symbol@,
    {
        &self.symbol
    }

    /// The quantity held after the buying commission is taken:
    /// `quantity * (1 - buying_commission)`, rounded half-even to the holding
    /// precision.
    pub fn buying_quantity_with_commission(&self, quantity: &Decimal) -> (r: Decimal)
        requires
            self.wf(),
            scaled_product_fits(*quantity, self.buying_commission),
        ensures
            r.val() == round_val(
                product_val(quantity.val(), pow10(28) - self.buying_commission.val()),
                self.holding_quantity_precision as nat,
            ),
            r.sc() <= self.holding_quantity_precision,
    {
        let kept = one_minus_fraction(&self.buying_commission);
        let gross = exact_mul_by_fraction(quantity, &kept, &self.buying_commission);
        gross.round_dp(self.holding_quantity_precision)
    }

    /// The quantity cut toward zero to the transaction precision.
    pub fn transaction_quantity_with_precision(&self, quantity: &Decimal) -> (r: Decimal)
        requires
            self.wf(),
        ensures
            r.val() == trunc_val(quantity.val(), self.transaction_quantity_precision as nat),
            r.sc() <= self.transaction_quantity_precision,
            fits_at(r.val(), self.transaction_quantity_precision as nat) ==> r.sc()
                == self.transaction_quantity_precision,
    {
        proof {
            let p = self.transaction_quantity_precision as nat;
            if quantity.sc() <= p {
                lemma_on_grid(*quantity, p);
                lemma_trunc_exact(quantity@.0 * pow10((p - quantity.sc()) as nat), p);
            }
        }
        quantity.trunc_with_scale(self.transaction_quantity_precision)
    }
}

impl Spot {
    /// The amount left after the selling commission:
    /// `amount - round(amount * selling_commission)`, the commission rounded
    /// half-even to the income precision.
    pub fn selling_amount_with_commission(&self, amount: &Decimal) -> (r: Decimal)
        requires
            self.wf(),
            commission_fits(
                amount.val(),
                amount.sc(),
                self.selling_commission,
                self.amount_income_precision as nat,
            ),
        ensures
            r.val() == amount.val() - round_val(
                product_val(amount.val(), self.selling_commission.val()),
                self.amount_income_precision as nat,
            ),
    {
        let c = &self.selling_commission;
        let p = self.amount_income_precision;
        amount.limits_hold();
        c.limits_hold();
        proof {
            let k = pow10((28 - amount.sc()) as nat);
            lemma_pow10_pos((28 - amount.sc()) as nat);
            let m = abs(amount@.0);
            assert(abs(amount.val()) == m * k) by (nonlinear_arith)
                requires
                    amount.val() == amount@.0 * k,
                    m == abs(amount@.0),
                    k >= 1,
            ;
            assert(m * pow10(c.sc()) <= MAX_MANTISSA) by (nonlinear_arith)
                requires
                    (m * k) * pow10(c.sc()) <= MAX_MANTISSA * k,
                    k >= 1,
            ;
        }
        let gross = exact_mul_by_fraction(amount, c, c);
        let commission = gross.round_dp(p);
        proof {
            let v = amount.val();
            lemma_product_with_fraction(v, c.val());
            lemma_round_bound(gross.val(), p as nat);
            let big = max_nat(amount.sc(), p as nat);
            let s = max_nat(amount.sc(), commission.sc());
            let w = 2 * abs(v) + pow10((28 - p) as nat);
            lemma_pow10_pos((28 - p) as nat);
            lemma_fits_smaller_scale(w, big, s);
            lemma_fits_smaller_scale(v, s, s);
            assert(fits_at(v, s));
            assert(fits_at(commission.val(), s));
            assert(fits_at(v - commission.val(), s));
        }
        amount.checked_sub(&commission).unwrap()
    }

    /// What selling `quantity` at `price` brings in: `price * quantity`.
    pub fn selling_income_amount(&self, price: &Decimal, quantity: &Decimal) -> (r: Decimal)
        requires
            product_fits(*price, *quantity),
        ensures
            r.val() == product_val(price.val(), quantity.val()),
            r.sc() <= price.sc() + quantity.sc(),
    {
        exact_product(price, quantity)
    }

    /// What buying `quantity` at `price` costs: `price * quantity`.
    pub fn buying_spent_amount(&self, price: &Decimal, quantity: &Decimal) -> (r: Decimal)
        requires
            product_fits(*price, *quantity),
        ensures
            r.val() == product_val(price.val(), quantity.val()),
            r.sc() <= price.sc() + quantity.sc(),
    {
        exact_product(price, quantity)
    }

    /// A trade is allowed where its notional `price * quantity` is strictly
    /// above the minimum transaction amount.
    pub fn is_allow_transaction(&self, price: &Decimal, quantity: &Decimal) -> (r: bool)
        requires
            product_fits(*price, *quantity),
        ensures
            r == (product_val(price.val(), quantity.val()) > self.minimum_transaction_amount.val()),
    {
        let notional = exact_product(price, quantity);
        if notional > self.minimum_transaction_amount {
            return true;
        }
        false
    }

    /// The quantity that `amount` buys at `price`, cut toward zero to the
    /// transaction precision; `None` where the division fails (a zero price,
    /// or a quotient beyond the decimal limits).
    pub fn buying_quantity_by_amount(&self, price: &Decimal, amount: &Decimal) -> (r: Option<
        Decimal,
    >)
        requires
            self.wf(),
        ensures
            match quotient_of(amount@, price@) {
                None => r is None,
                Some(q) => r is Some && r->0.val() == trunc_val(
                    units_of(q.0, q.1),
                    self.transaction_quantity_precision as nat,
                ),
            },
            price.val() == 0 ==> r is None,
            r is Some && fits_at(r->0.val(), self.transaction_quantity_precision as nat) ==> r->0.sc()
                == self.transaction_quantity_precision,
    {
        proof {
            lemma_pow10_pos((28 - price.sc()) as nat);
            lemma_mul_zero(price@.0, pow10((28 - price.sc()) as nat));
        }
        match amount.checked_div(price) {
            Some(q) => Some(self.transaction_quantity_with_precision(&q)),
            None => None,
        }
    }
}

/// Commission never adds. For a non-negative `x`: the amount kept after the
/// selling commission is at most `x`, and exactly `x` when that commission is
/// zero; where `x` has no more digits than the holding precision, the quantity
/// kept after the buying commission is at most `x`, and exactly `x` when that
/// commission is zero.
pub proof fn lemma_commission_never_adds(spot: Spot, x: Decimal)
    requires
        spot.wf(),
        x.val() >= 0,
    ensures
        x.val() - round_val(
            product_val(x.val(), spot.selling_commission.val()),
            spot.amount_income_precision as nat,
        ) <= x.val(),
        spot.selling_commission.val() == 0 ==> x.val() - round_val(
            product_val(x.val(), spot.selling_commission.val()),
            spot.amount_income_precision as nat,
        ) == x.val(),
        x.sc() <= spot.holding_quantity_precision ==> round_val(
            product_val(x.val(), pow10(28) - spot.buying_commission.val()),
            spot.holding_quantity_precision as nat,
        ) <= x.val(),
        (x.sc() <= spot.holding_quantity_precision && spot.buying_commission.val() == 0)
            ==> round_val(
            product_val(x.val(), pow10(28) - spot.buying_commission.val()),
            spot.holding_quantity_precision as nat,
        ) == x.val(),
{
    let sp = spot.amount_income_precision as nat;
    let hp = spot.holding_quantity_precision as nat;
    let sold = product_val(x.val(), spot.selling_commission.val());
    lemma_product_with_fraction(x.val(), spot.selling_commission.val());
    lemma_round_bound(sold, sp);
    if spot.selling_commission.val() == 0 {
        lemma_pow10_pos((28 - sp) as nat);
        assert(round_val(0, sp) == 0);
    }
    let kept = pow10(28) - spot.buying_commission.val();
    lemma_product_with_fraction(x.val(), kept);
    if x.sc() <= hp {
        lemma_on_grid(x, hp);
        let j = x@.0 * pow10((hp - x.sc()) as nat);
        lemma_round_below_grid(product_val(x.val(), kept), j, hp);
    }
}

impl Spot {
    /// Books a buy of `quantity` at `price`: what it costs, and what is held
    /// after the buying commission.
    pub fn calculator_buying(&self, price: &Decimal, quantity: &Decimal) -> (r: SpotBuying)
        requires
            self.wf(),
            product_fits(*price, *quantity),
            scaled_product_fits(*quantity, self.buying_commission),
        ensures
            r.price == *price,
            r.quantity == *quantity,
            r.spent.val() == product_val(price.val(), quantity.val()),
            r.quantity_after_commission.val() == round_val(
                product_val(quantity.val(), pow10(28) - self.buying_commission.val()),
                self.holding_quantity_precision as nat,
            ),
    {
        let spent = self.buying_spent_amount(price, quantity);
        let quantity_after_commission = self.buying_quantity_with_commission(quantity);
        SpotBuying { spent, price: *price, quantity: *quantity, quantity_after_commission }
    }

    /// Books a sell of `quantity` at `price`: what it brings in, and what is
    /// left after the selling commission.
    pub fn calculator_selling(&self, price: &Decimal, quantity: &Decimal) -> (r: SpotSelling)
        requires
            self.wf(),
            product_fits(*price, *quantity),
            commission_fits(
                product_val(price.val(), quantity.val()),
                price.sc() + quantity.sc(),
                self.selling_commission,
                self.amount_income_precision as nat,
            ),
        ensures
            r.price == *price,
            r.quantity == *quantity,
            r.income.val() == product_val(price.val(), quantity.val()),
            r.income_after_commission.val() == r.income.val() - round_val(
                product_val(r.income.val(), self.selling_commission.val()),
                self.amount_income_precision as nat,
            ),
    {
        let income = self.selling_income_amount(price, quantity);
        proof {
            lemma_commission_fits_smaller_scale(
                income.val(),
                price.sc() + quantity.sc(),
                income.sc(),
                self.selling_commission,
                self.amount_income_precision as nat,
            );
        }
        let income_after_commission = self.selling_amount_with_commission(&income);
        SpotSelling { price: *price, quantity: *quantity, income, income_after_commission }
    }

    /// Plans a buy of `amount` worth at `price`: the quantity is
    /// `amount / price` cut to the transaction precision, and the buy is
    /// refused unless its notional is above the minimum.
    pub fn buying(&self, price: &Decimal, amount: &Decimal) -> (r: Result<SpotBuying, SpotClientError>)
        requires
            self.wf(),
        ensures
            quotient_of(amount@, price@) is None ==> r matches Err(SpotClientError::OutOfRange),
            r is Err ==> r matches Err(SpotClientError::OutOfRange) || r matches Err(
                SpotClientError::MinimumNotReached,
            ),
            match quotient_of(amount@, price@) {
                None => true,
                Some(q) => {
                    let qty = trunc_val(units_of(q.0, q.1), self.transaction_quantity_precision as nat);
                    let notional = product_val(price.val(), qty);
                    &&& r matches Ok(b) ==> b.price == *price && b.quantity.val() == qty
                        && b.spent.val() == notional && b.quantity_after_commission.val()
                        == round_val(
                        product_val(qty, pow10(28) - self.buying_commission.val()),
                        self.holding_quantity_precision as nat,
                    ) && notional > self.minimum_transaction_amount.val()
                    &&& r matches Err(SpotClientError::MinimumNotReached) ==> notional
                        <= self.minimum_transaction_amount.val()
                    &&& buy_fits(
                        *price,
                        qty,
                        self.transaction_quantity_precision as nat,
                        self.buying_commission,
                    ) ==> (r is Ok <==> notional > self.minimum_transaction_amount.val())
                },
            },
    {
        let quantity = match self.buying_quantity_by_amount(price, amount) {
            Some(q) => q,
            None => return Err(SpotClientError::OutOfRange),
        };
        proof {
            lemma_rep_at(quantity, self.transaction_quantity_precision as nat);
        }
        if !price.fits_product(&quantity) || !fits_scaled_product(&quantity, &self.buying_commission) {
            return Err(SpotClientError::OutOfRange);
        }
        if !self.is_allow_transaction(price, &quantity) {
            return Err(SpotClientError::MinimumNotReached);
        }
        Ok(self.calculator_buying(price, &quantity))
    }

    /// Plans a sell of `quantity` at `price`: the quantity is cut to the
    /// transaction precision, and the sell is refused unless its notional is
    /// above the minimum.
    pub fn selling(&self, price: &Decimal, quantity: &Decimal) -> (r: Result<SpotSelling, SpotClientError>)
        requires
            self.wf(),
        ensures
            r is Err ==> r matches Err(SpotClientError::OutOfRange) || r matches Err(
                SpotClientError::MinimumNotReached,
            ),
            ({
                let qty = trunc_val(quantity.val(), self.transaction_quantity_precision as nat);
                let notional = product_val(price.val(), qty);
                &&& r matches Ok(b) ==> b.price == *price && b.quantity.val() == qty
                    && b.income.val() == notional && b.income_after_commission.val() == notional
                    - round_val(
                    product_val(notional, self.selling_commission.val()),
                    self.amount_income_precision as nat,
                ) && notional > self.minimum_transaction_amount.val()
                &&& r matches Err(SpotClientError::MinimumNotReached) ==> notional
                    <= self.minimum_transaction_amount.val()
                &&& sell_fits(
                    *price,
                    qty,
                    self.transaction_quantity_precision as nat,
                    self.selling_commission,
                    self.amount_income_precision as nat,
                ) ==> (r is Ok <==> notional > self.minimum_transaction_amount.val())
            }),
    {
        let selling_quantity = self.transaction_quantity_with_precision(quantity);
        proof {
            lemma_rep_at(selling_quantity, self.transaction_quantity_precision as nat);
        }
        if !price.fits_product(&selling_quantity) {
            return Err(SpotClientError::OutOfRange);
        }
        let income = self.selling_income_amount(price, &selling_quantity);
        proof {
            if sell_fits(
                *price,
                selling_quantity.val(),
                self.transaction_quantity_precision as nat,
                self.selling_commission,
                self.amount_income_precision as nat,
            ) {
                lemma_commission_fits_smaller_scale(
                    income.val(),
                    price.sc() + selling_quantity.sc(),
                    income.sc(),
                    self.selling_commission,
                    self.amount_income_precision as nat,
                );
            }
        }
        if !fits_commission(&income, &self.selling_commission, self.amount_income_precision) {
            return Err(SpotClientError::OutOfRange);
        }
        if !self.is_allow_transaction(price, &selling_quantity) {
            return Err(SpotClientError::MinimumNotReached);
        }
        let income_after_commission = self.selling_amount_with_commission(&income);
        Ok(
            SpotSelling {
                price: *price,
                quantity: selling_quantity,
                income,
                income_after_commission,
            },
        )
    }
}

/// A decimal whose value fits at `p` digits and whose scale is `p` has the
/// mantissa of its value at `p` digits.
proof fn lemma_rep_at(d: Decimal, p: nat)
    requires
        p <= 28,
    ensures
        d.sc() == p ==> d@.0 == mantissa_at(d.val(), p),
{
    if d.sc() == p {
        lemma_pow10_pos((28 - p) as nat);
        assert((d@.0 * pow10((28 - p) as nat)) / pow10((28 - p) as nat) == d@.0) by (nonlinear_arith)
            requires
                pow10((28 - p) as nat) >= 1,
        ;
    }
}

/// What fits at one scale fits at a smaller one.
proof fn lemma_commission_fits_smaller_scale(v: int, s: nat, t: nat, c: Decimal, p: nat)
    requires
        t <= s,
        commission_fits(v, s, c, p),
    ensures
        commission_fits(v, t, c, p),
{
    lemma_pow10_mono((28 - s) as nat, (28 - t) as nat);
    assert(MAX_MANTISSA * pow10((28 - s) as nat) <= MAX_MANTISSA * pow10((28 - t) as nat))
        by (nonlinear_arith)
        requires
            pow10((28 - s) as nat) <= pow10((28 - t) as nat),
    ;
    lemma_fits_smaller_scale(
        2 * abs(v) + pow10((28 - p) as nat),
        max_nat(s, p),
        max_nat(t, p),
    );
}

/// Whether `q * (1 - c)` is exact (see [`scaled_product_fits`]).
fn fits_scaled_product(q: &Decimal, c: &Decimal) -> (r: bool)
    ensures
        r == scaled_product_fits(*q, *c),
{
    q.limits_hold();
    c.limits_hold();
    let k = pow10_exec(c.scale());
    let m = q.mantissa();
    let a = if m >= 0 { m } else { -m };
    proof {
        lemma_pow10_pos(c.sc());
        assert(a * k >= 0) by (nonlinear_arith)
            requires
                a >= 0,
                k >= 1,
        ;
    }
    match a.checked_mul(k) {
        Some(x) => x <= MAX_MANTISSA && q.scale() + c.scale() <= 28,
        None => false,
    }
}

/// Whether taking commission `c` at `p` digits from `d` is exact (see
/// [`commission_fits`]).
fn fits_commission(d: &Decimal, c: &Decimal, p: u32) -> (r: bool)
    ensures
        r == commission_fits(d.val(), d.sc(), *c, p as nat),
{
    d.limits_hold();
    c.limits_hold();
    if p > 28 || d.scale() + c.scale() > 28 {
        return false;
    }
    let m = d.mantissa();
    let a = if m >= 0 { m } else { -m };
    let kc = pow10_exec(c.scale());
    let s = if d.scale() >= p { d.scale() } else { p };
    let kd = pow10_exec(s - d.scale());
    let kp = pow10_exec(s - p);
    proof {
        lemma_commission_terms(*d, *c, p as nat, s as nat);
        lemma_pow10_pos(c.sc());
        lemma_pow10_pos((s - d.sc()) as nat);
        lemma_pow10_mono((s - p) as nat, 28);
        lemma_pow10_28();
        assert(a * kc >= 0 && a * kd >= 0) by (nonlinear_arith)
            requires
                a >= 0,
                kc >= 1,
                kd >= 1,
        ;
    }
    let first = match a.checked_mul(kc) {
        Some(x) => x <= MAX_MANTISSA,
        None => false,
    };
    let second = match a.checked_mul(kd) {
        Some(x) => x <= MAX_MANTISSA && 2 * x + kp <= MAX_MANTISSA,
        None => false,
    };
    first && second
}

/// The terms of [`commission_fits`] written over the mantissa.
proof fn lemma_commission_terms(d: Decimal, c: Decimal, p: nat, s: nat)
    requires
        d.valid(),
        p <= 28,
        d.sc() + c.sc() <= 28,
        s == max_nat(d.sc(), p),
    ensures
        (abs(d.val()) * pow10(c.sc()) <= MAX_MANTISSA * pow10((28 - d.sc()) as nat)) <==> (abs(
            d@.0,
        ) * pow10(c.sc()) <= MAX_MANTISSA),
        fits_at(2 * abs(d.val()) + pow10((28 - p) as nat), s) <==> (2 * (abs(d@.0) * pow10(
            (s - d.sc()) as nat,
        )) + pow10((s - p) as nat) <= MAX_MANTISSA),
{
    let k = pow10((28 - d.sc()) as nat);
    let ks = pow10((28 - s) as nat);
    let f = pow10((s - d.sc()) as nat);
    let g = pow10((s - p) as nat);
    let a = abs(d@.0);
    lemma_pow10_pos((28 - d.sc()) as nat);
    lemma_pow10_pos((28 - s) as nat);
    lemma_pow10_pos(c.sc());
    lemma_pow10_pos((s - d.sc()) as nat);
    lemma_pow10_pos((s - p) as nat);
    lemma_pow10_add((s - d.sc()) as nat, (28 - s) as nat);
    lemma_pow10_add((s - p) as nat, (28 - s) as nat);
    assert(abs(d.val()) == a * k) by (nonlinear_arith)
        requires
            d.val() == d@.0 * k,
            a == abs(d@.0),
            k >= 1,
    ;
    assert(((a * k) * pow10(c.sc()) <= MAX_MANTISSA * k) <==> (a * pow10(c.sc()) <= MAX_MANTISSA))
        by (nonlinear_arith)
        requires
            k >= 1,
    ;
    assert(2 * (a * k) + pow10((28 - p) as nat) == (2 * (a * f) + g) * ks) by (nonlinear_arith)
        requires
            k == f * ks,
            pow10((28 - p) as nat) == g * ks,
    ;
    assert(((2 * (a * f) + g) * ks <= MAX_MANTISSA * ks) <==> (2 * (a * f) + g <= MAX_MANTISSA))
        by (nonlinear_arith)
        requires
            ks >= 1,
    ;
    assert(2 * (a * f) + g >= 0) by (nonlinear_arith)
        requires
            a >= 0,
            f >= 1,
            g >= 1,
    ;
}

/// `a * b`, exact.
fn exact_product(a: &Decimal, b: &Decimal) -> (r: Decimal)
    requires
        product_fits(*a, *b),
    ensures
        r.val() == product_val(a.val(), b.val()),
        r.sc() <= a.sc() + b.sc(),
        r.valid(),
{
    let r = a.checked_mul(b).unwrap();
    proof {
        lemma_pow10_pos(28);
        let x = a.val() * b.val();
        assert(x / pow10(28) == r.val()) by (nonlinear_arith)
            requires
                r.val() * pow10(28) == x,
                pow10(28) >= 1,
        ;
    }
    r
}

/// `1 - c` for a fraction `c`; its scale is at most `c`'s.
fn one_minus_fraction(c: &Decimal) -> (r: Decimal)
    requires
        is_fraction(*c),
    ensures
        r.val() == pow10(28) - c.val(),
        r.sc() <= c.sc(),
        r.valid(),
        is_fraction(r),
{
    let one = Decimal::one();
    c.limits_hold();
    proof {
        lemma_pow10_28();
        lemma_pow10_pos((28 - c.sc()) as nat);
        assert(one.val() == pow10(28));
        let k = pow10((28 - c.sc()) as nat);
        assert(pow10(28) <= MAX_MANTISSA * k) by (nonlinear_arith)
            requires
                k >= 1,
                pow10(28) == 10000000000000000000000000000,
        ;
    }
    one.checked_sub(c).unwrap()
}

/// `q * f` where `f` is a fraction whose scale is at most `c`'s.
fn exact_mul_by_fraction(q: &Decimal, f: &Decimal, c: &Decimal) -> (r: Decimal)
    requires
        is_fraction(*f),
        f.valid(),
        f.sc() <= c.sc(),
        scaled_product_fits(*q, *c),
    ensures
        r.val() == product_val(q.val(), f.val()),
        r.sc() <= q.sc() + c.sc(),
        r.valid(),
{
    proof {
        lemma_mantissa_of_unit(*f);
        lemma_pow10_mono(f.sc(), c.sc());
        let a = abs(q@.0);
        let b = abs(f@.0);
        assert(abs(q@.0 * f@.0) == a * b) by (nonlinear_arith)
            requires
                a == abs(q@.0),
                b == abs(f@.0),
        ;
        assert(a * b <= a * pow10(c.sc())) by (nonlinear_arith)
            requires
                a >= 0,
                b <= pow10(c.sc()),
        ;
    }
    let r = q.checked_mul(f).unwrap();
    proof {
        lemma_pow10_pos(28);
        let x = q.val() * f.val();
        assert(x / pow10(28) == r.val()) by (nonlinear_arith)
            requires
                r.val() * pow10(28) == x,
                pow10(28) >= 1,
        ;
    }
    r
}

} // verus!
