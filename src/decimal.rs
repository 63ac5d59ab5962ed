//! A fixed-point decimal number, `mantissa / 10^scale`, with the limits of
//! `rust_decimal` (a 96-bit mantissa and at most 28 fractional digits).
//! The arithmetic is done by `rust_decimal`; its results are stated here over
//! the exact value, counted in units of `10^-28`.
use vstd::prelude::*;

verus! {

/// Largest mantissa magnitude: `2^96 - 1`.
pub const MAX_MANTISSA: i128 = 79228162514264337593543950335;

/// Largest number of fractional digits.
pub const MAX_SCALE: u32 = 28;

pub open spec fn pow10(n: nat) -> int
    decreases n,
{
    if n == 0 {
        1
    } else {
        10 * pow10((n - 1) as nat)
    }
}

/// The value of `mantissa / 10^scale` counted in units of `10^-28`.
pub open spec fn units_of(m: int, s: nat) -> int {
    m * pow10((28 - s) as nat)
}

/// Integer division that rounds toward zero.
pub open spec fn div_toward_zero(m: int, k: int) -> int {
    if m >= 0 {
        m / k
    } else {
        -((-m) / k)
    }
}

/// Banker's rounding of `m / k` (halves go to the even neighbour).
pub open spec fn div_half_even(m: int, k: int) -> int {
    let a = if m >= 0 { m } else { -m };
    let q = a / k;
    let rem = a % k;
    let up = 2 * rem > k || (2 * rem == k && q % 2 == 1);
    let r = if up { q + 1 } else { q };
    if m >= 0 {
        r
    } else {
        -r
    }
}

pub open spec fn abs(x: int) -> int {
    if x >= 0 {
        x
    } else {
        -x
    }
}

pub open spec fn max_nat(a: nat, b: nat) -> nat {
    if a >= b {
        a
    } else {
        b
    }
}

/// `v` cut toward zero to `p` fractional digits.
pub open spec fn trunc_val(v: int, p: nat) -> int {
    div_toward_zero(v, pow10((28 - p) as nat)) * pow10((28 - p) as nat)
}

/// `v` rounded to `p` fractional digits, halves to the even neighbour.
pub open spec fn round_val(v: int, p: nat) -> int {
    div_half_even(v, pow10((28 - p) as nat)) * pow10((28 - p) as nat)
}

/// A value of the given units fits in a decimal of scale `s`.
pub open spec fn fits_at(v: int, s: nat) -> bool {
    s <= 28 && abs(v) <= MAX_MANTISSA * pow10((28 - s) as nat)
}

/// `a + b` is exact at the larger of the two scales: both operands and the sum
/// fit in a 96-bit mantissa there.
pub open spec fn sum_fits(a: Decimal, b: Decimal) -> bool {
    let s = max_nat(a.sc(), b.sc());
    fits_at(a.val(), s) && fits_at(b.val(), s) && fits_at(a.val() + b.val(), s)
}

/// `a - b` is exact at the larger of the two scales.
pub open spec fn difference_fits(a: Decimal, b: Decimal) -> bool {
    let s = max_nat(a.sc(), b.sc());
    fits_at(a.val(), s) && fits_at(b.val(), s) && fits_at(a.val() - b.val(), s)
}

/// `a * b` is exact: the product of the mantissas fits in 96 bits and the
/// scales add up to at most 28.
pub open spec fn product_fits(a: Decimal, b: Decimal) -> bool {
    abs(a@.0 * b@.0) <= MAX_MANTISSA && a@.1 + b@.1 <= 28
}

/// What `rust_decimal`'s `checked_div` returns for `a / b`, as mantissa and scale.
pub uninterp spec fn quotient_of(a: (int, nat), b: (int, nat)) -> Option<(int, nat)>;

/// A fixed-point decimal number.
#[derive(Clone, Copy, Debug)]
pub struct Decimal {
    mantissa: i128,
    scale: u32,
}

impl View for Decimal {
    type V = (int, nat);

    closed spec fn view(&self) -> (int, nat) {
        (self.mantissa as int, self.scale as nat)
    }
}

impl Decimal {
    #[verifier::type_invariant]
    spec fn inv(self) -> bool {
        -MAX_MANTISSA <= self.mantissa <= MAX_MANTISSA && self.scale <= MAX_SCALE
    }

    /// The exact value in units of `10^-28`.
    pub open spec fn val(self) -> int {
        units_of(self@.0, self@.1)
    }

    pub open spec fn sc(self) -> nat {
        self@.1
    }

    /// The limits that every decimal keeps.
    pub open spec fn valid(self) -> bool {
        -MAX_MANTISSA <= self@.0 <= MAX_MANTISSA && self@.1 <= 28
    }

    /// Checks nothing at run time; states the limits of `self` for proofs.
    pub fn limits_hold(&self)
        ensures
            self.valid(),
    {
        proof {
            use_type_invariant(self);
        }
    }

    /// `num / 10^scale`.
    pub fn new(num: i64, scale: u32) -> (r: Decimal)
        requires
            scale <= MAX_SCALE,
        ensures
            r@ == (num as int, scale as nat),
    {
        Decimal { mantissa: num as i128, scale }
    }

    /// `num / 10^scale`, or `None` where that is outside the limits.
    pub fn try_from_i128_with_scale(num: i128, scale: u32) -> (r: Option<Decimal>)
        ensures
            r is Some <==> (-MAX_MANTISSA <= num <= MAX_MANTISSA && scale <= MAX_SCALE),
            r is Some ==> r->0@ == (num as int, scale as nat),
    {
        if -MAX_MANTISSA <= num && num <= MAX_MANTISSA && scale <= MAX_SCALE {
            Some(Decimal { mantissa: num, scale })
        } else {
            None
        }
    }

    /// The whole number `n`.
    pub fn from_usize(n: usize) -> (r: Decimal)
        ensures
            r@ == (n as int, 0nat),
    {
        assert(n as i128 <= MAX_MANTISSA) by (nonlinear_arith)
            requires
                n <= usize::MAX,
        ;
        Decimal { mantissa: n as i128, scale: 0 }
    }

    pub fn zero() -> (r: Decimal)
        ensures
            r@ == (0int, 0nat),
    {
        Decimal { mantissa: 0, scale: 0 }
    }

    pub fn one() -> (r: Decimal)
        ensures
            r@ == (1int, 0nat),
    {
        Decimal { mantissa: 1, scale: 0 }
    }

    pub fn mantissa(&self) -> (r: i128)
        ensures
            r == self@.0,
    {
        self.mantissa
    }

    pub fn scale(&self) -> (r: u32)
        ensures
            r == self@.1,
    {
        self.scale
    }

    pub fn is_zero(&self) -> (r: bool)
        ensures
            r == (self.val() == 0),
    {
        proof {
            use_type_invariant(self);
            lemma_pow10_pos((28 - self.scale) as nat);
            lemma_mul_zero(self@.0, pow10((28 - self@.1) as nat));
        }
        self.mantissa == 0
    }

    /// Relies on `rust_decimal::Decimal::cmp`: decimals are ordered by value.
    #[verifier::external_body]
    pub(crate) fn compare(&self, o: &Decimal) -> (r: core::cmp::Ordering)
        ensures
            (r == core::cmp::Ordering::Less) == (self.val() < o.val()),
            (r == core::cmp::Ordering::Equal) == (self.val() == o.val()),
            (r == core::cmp::Ordering::Greater) == (self.val() > o.val()),
    {
        let a = rust_decimal::Decimal::from_i128_with_scale(self.mantissa, self.scale);
        let b = rust_decimal::Decimal::from_i128_with_scale(o.mantissa, o.scale);
        a.cmp(&b)
    }

    /// Relies on `rust_decimal::Decimal::checked_add`: the sum is exact where it
    /// fits at the larger scale, and then keeps at most that scale.
    #[verifier::external_body]
    pub(crate) fn checked_add(&self, o: &Decimal) -> (r: Option<Decimal>)
        ensures
            sum_fits(*self, *o) ==> r is Some && r->0.val() == self.val() + o.val() && r->0.sc()
                <= max_nat(self.sc(), o.sc()),
            r is Some ==> r->0.valid(),
    {
        let a = rust_decimal::Decimal::from_i128_with_scale(self.mantissa, self.scale);
        let b = rust_decimal::Decimal::from_i128_with_scale(o.mantissa, o.scale);
        match a.checked_add(b) {
            Some(d) => Some(Decimal { mantissa: d.mantissa(), scale: d.scale() }),
            None => None,
        }
    }

    /// Relies on `rust_decimal::Decimal::checked_sub`: the difference is exact
    /// where it fits at the larger scale, and then keeps at most that scale.
    #[verifier::external_body]
    pub(crate) fn checked_sub(&self, o: &Decimal) -> (r: Option<Decimal>)
        ensures
            difference_fits(*self, *o) ==> r is Some && r->0.val() == self.val() - o.val()
                && r->0.sc() <= max_nat(self.sc(), o.sc()),
            r is Some ==> r->0.valid(),
    {
        let a = rust_decimal::Decimal::from_i128_with_scale(self.mantissa, self.scale);
        let b = rust_decimal::Decimal::from_i128_with_scale(o.mantissa, o.scale);
        match a.checked_sub(b) {
            Some(d) => Some(Decimal { mantissa: d.mantissa(), scale: d.scale() }),
            None => None,
        }
    }

    /// Relies on `rust_decimal::Decimal::checked_mul`: the product is exact where
    /// the mantissas' product fits in 96 bits and the scales add up to at most
    /// 28, and then keeps at most that sum of scales.
    #[verifier::external_body]
    pub(crate) fn checked_mul(&self, o: &Decimal) -> (r: Option<Decimal>)
        ensures
            product_fits(*self, *o) ==> r is Some && r->0.val() * pow10(28) == self.val() * o.val()
                && r->0.sc() <= self.sc() + o.sc(),
            r is Some ==> r->0.valid(),
    {
        let a = rust_decimal::Decimal::from_i128_with_scale(self.mantissa, self.scale);
        let b = rust_decimal::Decimal::from_i128_with_scale(o.mantissa, o.scale);
        match a.checked_mul(b) {
            Some(d) => Some(Decimal { mantissa: d.mantissa(), scale: d.scale() }),
            None => None,
        }
    }

    /// Relies on `rust_decimal::Decimal::checked_div`: `None` on a zero divisor;
    /// a divisor that is a whole number of at least one gives a quotient of at
    /// most the dividend's magnitude.
    #[verifier::external_body]
    pub(crate) fn checked_div(&self, o: &Decimal) -> (r: Option<Decimal>)
        ensures
            r is Some ==> quotient_of(self@, o@) == Some(r->0@),
            r is None ==> quotient_of(self@, o@) is None,
            o@.0 == 0 ==> r is None,
            (o@.1 == 0 && o@.0 >= 1) ==> r is Some && abs(r->0.val()) <= abs(self.val()),
            r is Some ==> r->0.valid(),
    {
        let a = rust_decimal::Decimal::from_i128_with_scale(self.mantissa, self.scale);
        let b = rust_decimal::Decimal::from_i128_with_scale(o.mantissa, o.scale);
        match a.checked_div(b) {
            Some(d) => Some(Decimal { mantissa: d.mantissa(), scale: d.scale() }),
            None => None,
        }
    }

    /// Relies on `rust_decimal::Decimal::trunc_with_scale`: the value is cut
    /// toward zero to `scale` fractional digits, and no more digits are kept;
    /// a number with fewer digits is padded to `scale` digits as far as its
    /// mantissa fits.
    #[verifier::external_body]
    pub(crate) fn trunc_with_scale(&self, scale: u32) -> (r: Decimal)
        requires
            scale <= MAX_SCALE,
        ensures
            r.val() == trunc_val(self.val(), scale as nat),
            r.sc() <= scale,
            r.valid(),
            self.sc() <= scale && fits_at(self.val(), scale as nat) ==> r.sc() == scale,
            self.sc() > scale ==> r.sc() == scale,
    {
        let a = rust_decimal::Decimal::from_i128_with_scale(self.mantissa, self.scale);
        let d = a.trunc_with_scale(scale);
        Decimal { mantissa: d.mantissa(), scale: d.scale() }
    }

    /// Relies on `rust_decimal::Decimal::round_dp`: banker's rounding of the value
    /// to `dp` fractional digits; a number with at most `dp` digits comes back
    /// as it is.
    #[verifier::external_body]
    pub(crate) fn round_dp(&self, dp: u32) -> (r: Decimal)
        requires
            dp <= MAX_SCALE,
        ensures
            r.val() == round_val(self.val(), dp as nat),
            r.sc() <= dp,
            r.valid(),
            self.sc() <= dp ==> r@ == self@,
    {
        let a = rust_decimal::Decimal::from_i128_with_scale(self.mantissa, self.scale);
        let d = a.round_dp(dp);
        Decimal { mantissa: d.mantissa(), scale: d.scale() }
    }
}

/// `10^n` for `n` up to 28.
pub fn pow10_exec(n: u32) -> (r: i128)
    requires
        n <= 28,
    ensures
        r == pow10(n as nat),
{
    let mut r: i128 = 1;
    let mut i: u32 = 0;
    proof {
        lemma_pow10_mono(n as nat, 28);
        lemma_pow10_28();
    }
    while i < n
        invariant
            i <= n <= 28,
            r == pow10(i as nat),
            pow10(n as nat) <= pow10(28),
            pow10(28) == 10000000000000000000000000000,
        decreases n - i,
    {
        proof {
            lemma_pow10_mono((i + 1) as nat, n as nat);
            assert(pow10((i + 1) as nat) == 10 * pow10(i as nat));
            lemma_pow10_pos(i as nat);
            assert(r * 10 <= 10000000000000000000000000000);
        }
        r = r * 10;
        i = i + 1;
    }
    r
}

impl Decimal {
    /// The mantissa written at scale `s`, where that stays within 96 bits.
    fn aligned(&self, s: u32) -> (r: Option<i128>)
        requires
            self.sc() <= s <= 28,
        ensures
            r is Some <==> fits_at(self.val(), s as nat),
            r is Some ==> r->0 == self@.0 * pow10((s - self.sc()) as nat),
            r is Some ==> -MAX_MANTISSA <= r->0 <= MAX_MANTISSA,
    {
        proof {
            use_type_invariant(self);
            lemma_aligned(self@.0, self.sc(), s as nat);
        }
        let k = pow10_exec(s - self.scale);
        match self.mantissa.checked_mul(k) {
            Some(x) => {
                if -MAX_MANTISSA <= x && x <= MAX_MANTISSA {
                    Some(x)
                } else {
                    None
                }
            },
            None => None,
        }
    }

    /// Whether `self + o` is exact (see [`sum_fits`]).
    pub fn fits_sum(&self, o: &Decimal) -> (r: bool)
        ensures
            r == sum_fits(*self, *o),
    {
        proof {
            use_type_invariant(self);
            use_type_invariant(o);
        }
        let s = if self.scale >= o.scale { self.scale } else { o.scale };
        match (self.aligned(s), o.aligned(s)) {
            (Some(a), Some(b)) => {
                proof {
                    lemma_pow10_pos((28 - s) as nat);
                    lemma_aligned(a + b, s as nat, s as nat);
                    lemma_aligned_sum(*self, *o, a as int, b as int, s as nat);
                    assert(pow10(0) == 1);
                    assert((a + b) * pow10(0) == a + b);
                    assert(units_of(a + b, s as nat) == (a + b) * pow10((28 - s) as nat));
                }
                -MAX_MANTISSA <= a + b && a + b <= MAX_MANTISSA
            },
            _ => false,
        }
    }

    /// Whether `self - o` is exact (see [`difference_fits`]).
    pub fn fits_difference(&self, o: &Decimal) -> (r: bool)
        ensures
            r == difference_fits(*self, *o),
    {
        proof {
            use_type_invariant(self);
            use_type_invariant(o);
        }
        let s = if self.scale >= o.scale { self.scale } else { o.scale };
        match (self.aligned(s), o.aligned(s)) {
            (Some(a), Some(b)) => {
                proof {
                    lemma_pow10_pos((28 - s) as nat);
                    lemma_aligned(a - b, s as nat, s as nat);
                    lemma_aligned_sum(*self, *o, a as int, b as int, s as nat);
                    assert(pow10(0) == 1);
                    assert((a - b) * pow10(0) == a - b);
                    assert(units_of(a - b, s as nat) == (a - b) * pow10((28 - s) as nat));
                }
                -MAX_MANTISSA <= a - b && a - b <= MAX_MANTISSA
            },
            _ => false,
        }
    }

    /// Whether `self * o` is exact (see [`product_fits`]).
    pub fn fits_product(&self, o: &Decimal) -> (r: bool)
        ensures
            r == product_fits(*self, *o),
    {
        proof {
            use_type_invariant(self);
            use_type_invariant(o);
        }
        match self.mantissa.checked_mul(o.mantissa) {
            Some(x) => -MAX_MANTISSA <= x && x <= MAX_MANTISSA && self.scale + o.scale <= 28,
            None => false,
        }
    }
}

/// A value fits at scale `s` exactly where its mantissa written at `s` is
/// within 96 bits.
proof fn lemma_aligned(m: int, sc: nat, s: nat)
    requires
        sc <= s <= 28,
    ensures
        units_of(m, sc) == (m * pow10((s - sc) as nat)) * pow10((28 - s) as nat),
        fits_at(units_of(m, sc), s) <==> abs(m * pow10((s - sc) as nat)) <= MAX_MANTISSA,
{
    let f = pow10((s - sc) as nat);
    let k = pow10((28 - s) as nat);
    lemma_pow10_add((s - sc) as nat, (28 - s) as nat);
    lemma_pow10_pos((28 - s) as nat);
    assert(m * (f * k) == (m * f) * k) by (nonlinear_arith);
    let x = m * f;
    assert(abs(x * k) == abs(x) * k) by (nonlinear_arith)
        requires
            k >= 1,
    ;
    assert((abs(x) * k <= MAX_MANTISSA * k) <==> (abs(x) <= MAX_MANTISSA)) by (nonlinear_arith)
        requires
            k >= 1,
    ;
}

proof fn lemma_aligned_sum(a: Decimal, b: Decimal, x: int, y: int, s: nat)
    requires
        a.sc() <= s <= 28,
        b.sc() <= s,
        x == a@.0 * pow10((s - a.sc()) as nat),
        y == b@.0 * pow10((s - b.sc()) as nat),
    ensures
        a.val() + b.val() == (x + y) * pow10((28 - s) as nat),
        a.val() - b.val() == (x - y) * pow10((28 - s) as nat),
{
    lemma_aligned(a@.0, a.sc(), s);
    lemma_aligned(b@.0, b.sc(), s);
    let k = pow10((28 - s) as nat);
    assert(x * k + y * k == (x + y) * k && x * k - y * k == (x - y) * k) by (nonlinear_arith);
}

/// The order of decimals by value, as a spec function.
pub open spec fn order_of(a: Decimal, b: Decimal) -> core::cmp::Ordering {
    if a.val() < b.val() {
        core::cmp::Ordering::Less
    } else if a.val() == b.val() {
        core::cmp::Ordering::Equal
    } else {
        core::cmp::Ordering::Greater
    }
}

impl PartialEq for Decimal {
    fn eq(&self, o: &Decimal) -> (r: bool) {
        match self.compare(o) {
            core::cmp::Ordering::Equal => true,
            _ => false,
        }
    }
}

impl vstd::std_specs::cmp::PartialEqSpecImpl for Decimal {
    open spec fn obeys_eq_spec() -> bool {
        true
    }

    open spec fn eq_spec(&self, o: &Decimal) -> bool {
        self.val() == o.val()
    }
}

impl PartialOrd for Decimal {
    fn partial_cmp(&self, o: &Decimal) -> (r: Option<core::cmp::Ordering>) {
        Some(self.compare(o))
    }
}

impl vstd::std_specs::cmp::PartialOrdSpecImpl for Decimal {
    open spec fn obeys_partial_cmp_spec() -> bool {
        true
    }

    open spec fn partial_cmp_spec(&self, o: &Decimal) -> Option<core::cmp::Ordering> {
        Some(order_of(*self, *o))
    }
}

pub proof fn lemma_pow10_pos(n: nat)
    ensures
        pow10(n) >= 1,
    decreases n,
{
    if n > 0 {
        lemma_pow10_pos((n - 1) as nat);
    }
}

pub proof fn lemma_pow10_add(a: nat, b: nat)
    ensures
        pow10(a + b) == pow10(a) * pow10(b),
    decreases a,
{
    if a > 0 {
        lemma_pow10_add((a - 1) as nat, b);
        assert(pow10(a + b) == 10 * pow10((a - 1 + b) as nat));
        assert(10 * (pow10((a - 1) as nat) * pow10(b)) == (10 * pow10((a - 1) as nat)) * pow10(b))
            by (nonlinear_arith);
    }
}

pub proof fn lemma_pow10_mono(a: nat, b: nat)
    requires
        a <= b,
    ensures
        pow10(a) <= pow10(b),
    decreases b,
{
    if a < b {
        lemma_pow10_mono(a, (b - 1) as nat);
        lemma_pow10_pos((b - 1) as nat);
    }
}

pub proof fn lemma_pow10_28()
    ensures
        pow10(28) == 10000000000000000000000000000,
{
    reveal_with_fuel(pow10, 29);
}

/// A value of at most one in magnitude has a mantissa of at most `10^scale`.
pub proof fn lemma_mantissa_of_unit(d: Decimal)
    requires
        d.valid(),
        abs(d.val()) <= pow10(28),
    ensures
        abs(d@.0) <= pow10(d.sc()),
{
    let s = d.sc();
    let k = pow10((28 - s) as nat);
    lemma_pow10_add(s, (28 - s) as nat);
    lemma_pow10_pos((28 - s) as nat);
    let m = abs(d@.0);
    assert(abs(d.val()) == m * k) by (nonlinear_arith)
        requires
            d.val() == d@.0 * k,
            m == abs(d@.0),
            k >= 1,
    ;
    assert(m <= pow10(s)) by (nonlinear_arith)
        requires
            m * k <= pow10(s) * k,
            k >= 1,
    ;
}

/// Rounding moves a value by at most one step of the grid, and keeps its sign.
pub proof fn lemma_round_bound(v: int, p: nat)
    requires
        p <= 28,
    ensures
        abs(round_val(v, p)) <= abs(v) + pow10((28 - p) as nat),
        v >= 0 ==> round_val(v, p) >= 0,
        v <= 0 ==> round_val(v, p) <= 0,
{
    let k = pow10((28 - p) as nat);
    lemma_pow10_pos((28 - p) as nat);
    let a = abs(v);
    let q = a / k;
    let rem = a % k;
    assert(a == q * k + rem && 0 <= rem < k) by (nonlinear_arith)
        requires
            k >= 1,
            q == a / k,
            rem == a % k,
            a >= 0,
    ;
    assert(q >= 0) by (nonlinear_arith)
        requires
            k >= 1,
            q == a / k,
            a >= 0,
    ;
    let r = div_half_even(v, k);
    let ra = abs(r);
    assert(ra == q || ra == q + 1);
    assert(ra * k <= a + k) by (nonlinear_arith)
        requires
            ra <= q + 1,
            a == q * k + rem,
            rem >= 0,
            k >= 1,
    ;
    assert(abs(r * k) == ra * k) by (nonlinear_arith)
        requires
            ra == abs(r),
            k >= 1,
    ;
    if v >= 0 {
        assert(r >= 0);
        assert(r * k >= 0) by (nonlinear_arith)
            requires
                r >= 0,
                k >= 1,
        ;
    } else {
        assert(r <= 0);
        assert(r * k <= 0) by (nonlinear_arith)
            requires
                r <= 0,
                k >= 1,
        ;
    }
}

/// A non-negative value rounds to at most any point of the grid above it, and
/// a point of the grid rounds to itself.
pub proof fn lemma_round_below_grid(v: int, j: int, p: nat)
    requires
        p <= 28,
        0 <= v <= j * pow10((28 - p) as nat),
    ensures
        round_val(v, p) <= j * pow10((28 - p) as nat),
        v == j * pow10((28 - p) as nat) ==> round_val(v, p) == v,
{
    let k = pow10((28 - p) as nat);
    lemma_pow10_pos((28 - p) as nat);
    let q = v / k;
    let rem = v % k;
    assert(v == q * k + rem && 0 <= rem < k && q >= 0) by (nonlinear_arith)
        requires
            k >= 1,
            q == v / k,
            rem == v % k,
            v >= 0,
    ;
    assert(q <= j) by (nonlinear_arith)
        requires
            q * k <= v,
            v <= j * k,
            k >= 1,
    ;
    let up = 2 * rem > k || (2 * rem == k && q % 2 == 1);
    if up {
        assert(rem >= 1);
        assert(q + 1 <= j) by (nonlinear_arith)
            requires
                q * k < v,
                v <= j * k,
                k >= 1,
        ;
        assert((q + 1) * k <= j * k) by (nonlinear_arith)
            requires
                q + 1 <= j,
                k >= 1,
        ;
    } else {
        assert(q * k <= j * k) by (nonlinear_arith)
            requires
                q <= j,
                k >= 1,
        ;
    }
    if v == j * k {
        assert(q == j && rem == 0) by (nonlinear_arith)
            requires
                v == q * k + rem,
                0 <= rem < k,
                v == j * k,
                k >= 1,
        ;
    }
}

/// The value of a decimal whose scale is at most `p` is a point of the grid of
/// `p` fractional digits.
pub proof fn lemma_on_grid(d: Decimal, p: nat)
    requires
        d.sc() <= p <= 28,
    ensures
        d.val() == (d@.0 * pow10((p - d.sc()) as nat)) * pow10((28 - p) as nat),
{
    lemma_pow10_add((p - d.sc()) as nat, (28 - p) as nat);
    assert(d@.0 * (pow10((p - d.sc()) as nat) * pow10((28 - p) as nat)) == (d@.0 * pow10(
        (p - d.sc()) as nat,
    )) * pow10((28 - p) as nat)) by (nonlinear_arith);
}

/// A value that fits at some scale fits at every smaller scale.
pub proof fn lemma_fits_smaller_scale(v: int, s: nat, t: nat)
    requires
        t <= s,
        fits_at(v, s),
    ensures
        fits_at(v, t),
{
    lemma_pow10_mono((28 - s) as nat, (28 - t) as nat);
    assert(MAX_MANTISSA * pow10((28 - s) as nat) <= MAX_MANTISSA * pow10((28 - t) as nat))
        by (nonlinear_arith)
        requires
            pow10((28 - s) as nat) <= pow10((28 - t) as nat),
    ;
}

/// Truncation keeps the sign and does not grow the magnitude.
pub proof fn lemma_trunc_bound(v: int, p: nat)
    requires
        p <= 28,
    ensures
        abs(trunc_val(v, p)) <= abs(v),
        v >= 0 ==> trunc_val(v, p) >= 0,
{
    let k = pow10((28 - p) as nat);
    lemma_pow10_pos((28 - p) as nat);
    let a = abs(v);
    let q = a / k;
    assert(0 <= q * k <= a) by (nonlinear_arith)
        requires
            k >= 1,
            q == a / k,
            a >= 0,
    ;
    let t = div_toward_zero(v, k);
    assert(abs(t * k) == q * k) by (nonlinear_arith)
        requires
            t == q || t == -q,
            q >= 0,
            k >= 1,
    ;
}

/// A point of the grid of `p` fractional digits is unchanged by truncation to
/// `p` digits.
pub proof fn lemma_trunc_exact(j: int, p: nat)
    requires
        p <= 28,
    ensures
        trunc_val(j * pow10((28 - p) as nat), p) == j * pow10((28 - p) as nat),
{
    let k = pow10((28 - p) as nat);
    lemma_pow10_pos((28 - p) as nat);
    if j >= 0 {
        assert((j * k) / k == j && j * k >= 0) by (nonlinear_arith)
            requires
                k >= 1,
                j >= 0,
        ;
    } else {
        assert((-(j * k)) / k == -j && j * k < 0) by (nonlinear_arith)
            requires
                k >= 1,
                j < 0,
        ;
    }
}

/// A decimal of scale at most `s` whose value is at most `b` steps of `s`
/// digits has a mantissa of at most `b`.
pub proof fn lemma_mantissa_bound(d: Decimal, b: int, s: nat)
    requires
        d.sc() <= s <= 28,
        abs(d.val()) <= b * pow10((28 - s) as nat),
    ensures
        abs(d@.0) <= b,
{
    let k = pow10((28 - s) as nat);
    let f = pow10((s - d.sc()) as nat);
    lemma_pow10_pos((28 - s) as nat);
    lemma_pow10_pos((s - d.sc()) as nat);
    lemma_pow10_add((s - d.sc()) as nat, (28 - s) as nat);
    let m = abs(d@.0);
    assert(abs(d.val()) == (m * f) * k) by (nonlinear_arith)
        requires
            d.val() == d@.0 * (f * k),
            m == abs(d@.0),
            f >= 1,
            k >= 1,
    ;
    assert(m <= b) by (nonlinear_arith)
        requires
            (m * f) * k <= b * k,
            m >= 0,
            f >= 1,
            k >= 1,
    ;
}

/// A decimal's mantissa written at a scale `s` at least its own is at most its
/// value.
pub proof fn lemma_mantissa_scaled(d: Decimal, s: nat)
    requires
        d.sc() <= s <= 28,
    ensures
        abs(d@.0) * pow10((28 - s) as nat) <= abs(d.val()),
{
    let k = pow10((28 - s) as nat);
    let f = pow10((s - d.sc()) as nat);
    lemma_pow10_pos((28 - s) as nat);
    lemma_pow10_pos((s - d.sc()) as nat);
    lemma_pow10_add((s - d.sc()) as nat, (28 - s) as nat);
    let m = abs(d@.0);
    assert(abs(d.val()) == m * (f * k) && m * k <= m * (f * k)) by (nonlinear_arith)
        requires
            d.val() == d@.0 * (f * k),
            m == abs(d@.0),
            f >= 1,
            k >= 1,
    ;
}

/// A value below a bound that fits at scale `s` fits at every scale up to `s`.
pub proof fn lemma_fits_below(x: int, w: int, t: nat, s: nat)
    requires
        abs(x) <= w,
        w <= MAX_MANTISSA * pow10((28 - s) as nat),
        t <= s <= 28,
    ensures
        fits_at(x, t),
{
    lemma_fits_smaller_scale(x, s, t);
}

pub proof fn lemma_mul_zero(a: int, b: int)
    requires
        b >= 1,
    ensures
        (a * b == 0) == (a == 0),
{
    if a > 0 {
        assert(a * b > 0) by (nonlinear_arith)
            requires
                a > 0,
                b >= 1,
        ;
    } else if a < 0 {
        assert(a * b < 0) by (nonlinear_arith)
            requires
                a < 0,
                b >= 1,
        ;
    }
}

} // verus!
