//! Fixed-point decimal amounts.
//!
//! A [`Decimal`] is a signed integer mantissa of at most 96 bits together
//! with a scale between 0 and 28: it stands for `mantissa / 10^scale`. Its
//! view is that number counted in units of `10^-28`, an integer, so that
//! contracts compare and add amounts as plain integers.

use vstd::prelude::*;

verus! {

/// The largest scale an amount can have.
pub const MAX_SCALE: u32 = 28;

/// `2^96`: every mantissa is smaller than this in absolute value.
pub const MANTISSA_LIMIT: i128 = 79_228_162_514_264_337_593_543_950_336;

/// `10^28`: how many view units make one.
pub const UNITS_PER_ONE: i128 = 10_000_000_000_000_000_000_000_000_000;

/// `10^n`.
pub open spec fn pow10(n: nat) -> nat
    decreases n,
{
    if n == 0 {
        1
    } else {
        10 * pow10((n - 1) as nat)
    }
}

pub proof fn lemma_pow10_positive(n: nat)
    ensures
        pow10(n) >= 1,
    decreases n,
{
    if n > 0 {
        lemma_pow10_positive((n - 1) as nat);
    }
}

pub proof fn lemma_pow10_add(a: nat, b: nat)
    ensures
        pow10(a) * pow10(b) == pow10(a + b),
    decreases a,
{
    if a == 0 {
        assert(pow10(0) == 1);
        assert(1 * pow10(b) == pow10(b));
    } else {
        let a1: nat = (a - 1) as nat;
        lemma_pow10_add(a1, b);
        assert(pow10(a) == 10 * pow10(a1));
        assert(pow10(a + b) == 10 * pow10((a + b - 1) as nat));
        assert((10 * pow10(a1)) * pow10(b) == 10 * (pow10(a1) * pow10(b))) by (nonlinear_arith);
    }
}

pub proof fn lemma_pow10_monotonic(a: nat, b: nat)
    requires
        a <= b,
    ensures
        pow10(a) <= pow10(b),
    decreases b,
{
    if a < b {
        lemma_pow10_monotonic(a, (b - 1) as nat);
    }
}

pub proof fn lemma_pow10_values()
    ensures
        pow10(28) == UNITS_PER_ONE,
        pow10(20) == 100_000_000_000_000_000_000,
{
    reveal_with_fuel(pow10, 30);
}

/// A decimal amount: `mantissa / 10^scale`.
#[derive(Clone, Copy, Debug)]
pub struct Decimal {
    pub mantissa: i128,
    pub scale: u32,
}

impl View for Decimal {
    type V = int;

    /// The amount in units of `10^-28`.
    open spec fn view(&self) -> int {
        self.mantissa * pow10((MAX_SCALE - self.scale) as nat)
    }
}


/// `10^n` as a machine integer.
fn ten_to(n: u32) -> (r: i128)
    requires
        n <= MAX_SCALE,
    ensures
        r == pow10(n as nat),
        1 <= r <= UNITS_PER_ONE,
{
    let mut r: i128 = 1;
    let mut i: u32 = 0;
    while i < n
        invariant
            i <= n,
            n <= MAX_SCALE,
            r == pow10(i as nat),
        decreases n - i,
    {
        proof {
            lemma_pow10_monotonic((i + 1) as nat, 28);
            lemma_pow10_values();
        }
        r = r * 10;
        i = i + 1;
    }
    proof {
        lemma_pow10_positive(n as nat);
        lemma_pow10_monotonic(n as nat, 28);
        lemma_pow10_values();
    }
    r
}

/// Splits a non-negative mantissa at `scale` into whole ones and the
/// fraction in units of `10^-28`.
fn split_magnitude(m: i128, scale: u32) -> (k: (i128, i128))
    requires
        0 <= m < MANTISSA_LIMIT,
        scale <= MAX_SCALE,
    ensures
        k.0 * UNITS_PER_ONE + k.1 == m * pow10((MAX_SCALE - scale) as nat),
        0 <= k.0 <= m,
        0 <= k.1 < UNITS_PER_ONE,
{
    let p: i128 = ten_to(scale);
    let q: i128 = ten_to(MAX_SCALE - scale);
    let whole: i128 = m / p;
    let rest: i128 = m % p;
    proof {
        lemma_pow10_add(scale as nat, (MAX_SCALE - scale) as nat);
        lemma_pow10_values();
        assert(p * q == UNITS_PER_ONE);
        assert(m == whole * p + rest) by (nonlinear_arith)
            requires
                whole == m / p,
                rest == m % p,
                p > 0,
        ;
        assert(rest * q < p * q) by (nonlinear_arith)
            requires
                0 <= rest < p,
                q >= 1,
        ;
        assert(0 <= rest * q) by (nonlinear_arith)
            requires
                0 <= rest,
                q >= 1,
        ;
        assert(m * q == whole * (p * q) + rest * q) by (nonlinear_arith)
            requires
                m == whole * p + rest,
        ;
        assert(whole <= m) by (nonlinear_arith)
            requires
                whole == m / p,
                m >= 0,
                p >= 1,
        ;
    }
    let part: i128 = rest * q;
    (whole, part)
}

impl Decimal {
    /// The mantissa fits in 96 bits and the scale is at most 28.
    pub open spec fn wf(self) -> bool {
        -MANTISSA_LIMIT < self.mantissa < MANTISSA_LIMIT && self.scale <= MAX_SCALE
    }

    /// `num / 10^scale`.
    pub fn new(num: i64, scale: u32) -> (r: Decimal)
        requires
            scale <= MAX_SCALE,
        ensures
            r.wf(),
            r.mantissa == num,
            r.scale == scale,
    {
        Decimal { mantissa: num as i128, scale }
    }

    /// The amount 0.
    pub fn zero() -> (r: Decimal)
        ensures
            r.wf(),
            r.mantissa == 0,
            r.scale == 0,
            r@ == 0,
    {
        Decimal { mantissa: 0, scale: 0 }
    }

    /// The amount 1.
    pub fn one() -> (r: Decimal)
        ensures
            r.wf(),
            r.mantissa == 1,
            r.scale == 0,
            r@ == UNITS_PER_ONE,
    {
        proof {
            lemma_pow10_values();
        }
        Decimal { mantissa: 1, scale: 0 }
    }

    /// Whether the fields describe an amount at all.
    pub fn is_wf(&self) -> (b: bool)
        ensures
            b == self.wf(),
    {
        -MANTISSA_LIMIT < self.mantissa && self.mantissa < MANTISSA_LIMIT && self.scale
            <= MAX_SCALE
    }

    /// The amount as a pair of integers ordered as the amounts are: the
    /// whole ones, then the fraction in units of `10^-28`.
    pub fn order_key(&self) -> (k: (i128, i128))
        requires
            self.wf(),
        ensures
            k.0 * UNITS_PER_ONE + k.1 == self@,
            0 <= k.1 < UNITS_PER_ONE,
            -MANTISSA_LIMIT <= k.0 < MANTISSA_LIMIT,
    {
        if self.mantissa >= 0 {
            split_magnitude(self.mantissa, self.scale)
        } else {
            let n: i128 = -self.mantissa;
            let k = split_magnitude(n, self.scale);
            proof {
                let q = pow10((MAX_SCALE - self.scale) as nat) as int;
                assert(self.mantissa * q == -(n * q)) by (nonlinear_arith)
                    requires
                        n == -self.mantissa,
                ;
            }
            if k.1 == 0 {
                (-k.0, 0)
            } else {
                (-k.0 - 1, UNITS_PER_ONE - k.1)
            }
        }
    }

    /// `self < other`.
    pub fn lt(&self, other: &Decimal) -> (b: bool)
        requires
            self.wf(),
            other.wf(),
        ensures
            b == (self@ < other@),
    {
        let x = self.order_key();
        let y = other.order_key();
        x.0 < y.0 || (x.0 == y.0 && x.1 < y.1)
    }

    /// `self <= other`.
    pub fn le(&self, other: &Decimal) -> (b: bool)
        requires
            self.wf(),
            other.wf(),
        ensures
            b == (self@ <= other@),
    {
        !other.lt(self)
    }

    /// `self > other`.
    pub fn gt(&self, other: &Decimal) -> (b: bool)
        requires
            self.wf(),
            other.wf(),
        ensures
            b == (self@ > other@),
    {
        other.lt(self)
    }

    /// `self >= other`.
    pub fn ge(&self, other: &Decimal) -> (b: bool)
        requires
            self.wf(),
            other.wf(),
        ensures
            b == (self@ >= other@),
    {
        !self.lt(other)
    }

    /// Whether the two stand for the same number, whatever their scales.
    pub fn same(&self, other: &Decimal) -> (b: bool)
        requires
            self.wf(),
            other.wf(),
        ensures
            b == (self@ == other@),
    {
        let x = self.order_key();
        let y = other.order_key();
        x.0 == y.0 && x.1 == y.1
    }

    /// Whether the amount is 0.
    pub fn is_zero(&self) -> (b: bool)
        ensures
            b == (self.mantissa == 0),
            self.wf() ==> b == (self@ == 0),
    {
        proof {
            lemma_sign(*self);
        }
        self.mantissa == 0
    }

    /// Whether the amount is below 0.
    pub fn is_negative(&self) -> (b: bool)
        ensures
            b == (self.mantissa < 0),
            self.wf() ==> b == (self@ < 0),
    {
        proof {
            lemma_sign(*self);
        }
        self.mantissa < 0
    }

    /// The smaller of the two; `self` where they are equal.
    pub fn min(self, other: Decimal) -> (r: Decimal)
        requires
            self.wf(),
            other.wf(),
        ensures
            r == (if self@ <= other@ {
                self
            } else {
                other
            }),
    {
        if self.le(&other) {
            self
        } else {
            other
        }
    }

    /// The amount without its sign.
    pub fn abs(self) -> (r: Decimal)
        requires
            self.wf(),
        ensures
            r.wf(),
            r.scale == self.scale,
            r@ == (if self@ < 0 {
                -self@
            } else {
                self@
            }),
    {
        proof {
            lemma_sign(self);
        }
        if self.mantissa < 0 {
            let r = Decimal { mantissa: -self.mantissa, scale: self.scale };
            proof {
                let q = pow10((MAX_SCALE - self.scale) as nat) as int;
                assert((-self.mantissa) * q == -(self.mantissa * q)) by (nonlinear_arith);
            }
            r
        } else {
            self
        }
    }
}

/// What `rust_decimal` gives for the sum of `am / 10^asc` and `bm / 10^bsc`:
/// mantissa and scale, or nothing where it reports an overflow.
pub uninterp spec fn decimal_sum(am: int, asc: int, bm: int, bsc: int) -> Option<(int, int)>;

/// What `rust_decimal` gives for `am / 10^asc` minus `bm / 10^bsc`.
pub uninterp spec fn decimal_difference(am: int, asc: int, bm: int, bsc: int) -> Option<
    (int, int),
>;

/// What `rust_decimal` gives for `am / 10^asc` times `bm / 10^bsc`.
pub uninterp spec fn decimal_product(am: int, asc: int, bm: int, bsc: int) -> Option<(int, int)>;

/// What `rust_decimal` gives for `am / 10^asc` divided by `bm / 10^bsc`.
pub uninterp spec fn decimal_quotient(am: int, asc: int, bm: int, bsc: int) -> Option<(int, int)>;

/// What `rust_decimal` gives for `m / 10^sc` rounded to `places` decimal
/// places.
pub uninterp spec fn decimal_rounded(m: int, sc: int, places: int) -> (int, int);

/// The amount that a mantissa and a scale out of `rust_decimal` describe.
pub open spec fn amount_of(parts: Option<(int, int)>) -> Option<Decimal> {
    match parts {
        Some((m, s)) => Some(Decimal { mantissa: m as i128, scale: s as u32 }),
        None => None,
    }
}

/// The amount with the given mantissa and scale.
pub open spec fn amount_at(parts: (int, int)) -> Decimal {
    Decimal { mantissa: parts.0 as i128, scale: parts.1 as u32 }
}

impl Decimal {
    /// The mantissa that the amount has at the scale `s`, which is not below
    /// its own.
    pub open spec fn mantissa_at(self, s: int) -> int {
        self.mantissa * pow10((s - self.scale) as nat)
    }

    /// The larger of the two scales.
    pub open spec fn wider_scale(self, other: Decimal) -> int {
        if self.scale >= other.scale {
            self.scale as int
        } else {
            other.scale as int
        }
    }

    /// The sum is formed without rounding: at the larger of the two scales
    /// both mantissas and their sum fit in 96 bits.
    pub open spec fn adds_exactly(self, other: Decimal) -> bool {
        let s = self.wider_scale(other);
        &&& self.wf()
        &&& other.wf()
        &&& -MANTISSA_LIMIT < self.mantissa_at(s) < MANTISSA_LIMIT
        &&& -MANTISSA_LIMIT < other.mantissa_at(s) < MANTISSA_LIMIT
        &&& -MANTISSA_LIMIT < self.mantissa_at(s) + other.mantissa_at(s) < MANTISSA_LIMIT
    }

    /// The difference is formed without rounding: at the larger of the two
    /// scales both mantissas and their difference fit in 96 bits.
    pub open spec fn subtracts_exactly(self, other: Decimal) -> bool {
        let s = self.wider_scale(other);
        &&& self.wf()
        &&& other.wf()
        &&& -MANTISSA_LIMIT < self.mantissa_at(s) < MANTISSA_LIMIT
        &&& -MANTISSA_LIMIT < other.mantissa_at(s) < MANTISSA_LIMIT
        &&& -MANTISSA_LIMIT < self.mantissa_at(s) - other.mantissa_at(s) < MANTISSA_LIMIT
    }

    /// The sum where `rust_decimal` forms it without rounding, else
    /// nothing.
    pub open spec fn exact_sum(self, other: Decimal) -> Option<Decimal> {
        match self.sum(other) {
            Some(c) => if c.wf() && c@ == self@ + other@ {
                Some(c)
            } else {
                None
            },
            None => None,
        }
    }

    /// The difference where `rust_decimal` forms it without rounding, else
    /// nothing.
    pub open spec fn exact_difference(self, other: Decimal) -> Option<Decimal> {
        match self.difference(other) {
            Some(c) => if c.wf() && c@ == self@ - other@ {
                Some(c)
            } else {
                None
            },
            None => None,
        }
    }

    /// The amount is not negative and can be written with `s` decimal
    /// places: its scale is at most `s`, and at the scale `s` its mantissa
    /// fits in 96 bits. Amounts that fit at one scale add and subtract
    /// without rounding, as long as the result fits there too.
    pub open spec fn fits_at(self, s: int) -> bool {
        &&& self.wf()
        &&& self.scale <= s <= MAX_SCALE
        &&& 0 <= self.mantissa_at(s) < MANTISSA_LIMIT
    }

    /// The sum as `rust_decimal` forms it.
    pub open spec fn sum(self, other: Decimal) -> Option<Decimal> {
        amount_of(
            decimal_sum(
                self.mantissa as int,
                self.scale as int,
                other.mantissa as int,
                other.scale as int,
            ),
        )
    }

    /// The difference as `rust_decimal` forms it.
    pub open spec fn difference(self, other: Decimal) -> Option<Decimal> {
        amount_of(
            decimal_difference(
                self.mantissa as int,
                self.scale as int,
                other.mantissa as int,
                other.scale as int,
            ),
        )
    }

    /// The product as `rust_decimal` forms it.
    pub open spec fn product(self, other: Decimal) -> Option<Decimal> {
        amount_of(
            decimal_product(
                self.mantissa as int,
                self.scale as int,
                other.mantissa as int,
                other.scale as int,
            ),
        )
    }

    /// The quotient as `rust_decimal` forms it.
    pub open spec fn quotient(self, other: Decimal) -> Option<Decimal> {
        amount_of(
            decimal_quotient(
                self.mantissa as int,
                self.scale as int,
                other.mantissa as int,
                other.scale as int,
            ),
        )
    }

    /// The amount rounded to `places` decimal places as `rust_decimal`
    /// rounds it.
    pub open spec fn rounded(self, places: u32) -> Decimal {
        amount_at(decimal_rounded(self.mantissa as int, self.scale as int, places as int))
    }

    /// Calls `rust_decimal::Decimal::checked_add`. The result is the named
    /// sum and a well-formed amount. Where the operands add exactly, the
    /// call hands back the other operand of a zero, or scales the mantissa
    /// of the smaller scale up, which fits, and adds the two in 96 bits,
    /// which fits: there is a result, it is the exact sum, and its scale
    /// is one of the operands'.
    #[verifier::external_body]
    pub(crate) fn plus(self, other: Decimal) -> (r: Option<Decimal>)
        requires
            self.wf(),
            other.wf(),
        ensures
            r == amount_of(decimal_sum(self.mantissa as int, self.scale as int, other.mantissa as int, other.scale as int)),
            r matches Some(c) ==> c.wf(),
            self.adds_exactly(other) ==> r is Some,
            r matches Some(c) ==> (self.adds_exactly(other) ==> c@ == self@ + other@ && c.scale
                <= self.wider_scale(other)),
    {
        let x = rust_decimal::Decimal::from_i128_with_scale(self.mantissa, self.scale);
        let y = rust_decimal::Decimal::from_i128_with_scale(other.mantissa, other.scale);
        x.checked_add(y).map(|z| Decimal { mantissa: z.mantissa(), scale: z.scale() })
    }

    /// Calls `rust_decimal::Decimal::checked_sub`. The result is the named
    /// difference and a well-formed amount. Where the operands subtract
    /// exactly, there is a result, it is the exact difference, and its scale
    /// is one of the operands'.
    #[verifier::external_body]
    pub(crate) fn minus(self, other: Decimal) -> (r: Option<Decimal>)
        requires
            self.wf(),
            other.wf(),
        ensures
            r == amount_of(decimal_difference(self.mantissa as int, self.scale as int, other.mantissa as int, other.scale as int)),
            r matches Some(c) ==> c.wf(),
            self.subtracts_exactly(other) ==> r is Some,
            r matches Some(c) ==> (self.subtracts_exactly(other) ==> c@ == self@ - other@
                && c.scale <= self.wider_scale(other)),
    {
        let x = rust_decimal::Decimal::from_i128_with_scale(self.mantissa, self.scale);
        let y = rust_decimal::Decimal::from_i128_with_scale(other.mantissa, other.scale);
        x.checked_sub(y).map(|z| Decimal { mantissa: z.mantissa(), scale: z.scale() })
    }

    /// Calls `rust_decimal::Decimal::checked_mul`. The result is the named
    /// product and a well-formed amount.
    #[verifier::external_body]
    pub(crate) fn times(self, other: Decimal) -> (r: Option<Decimal>)
        requires
            self.wf(),
            other.wf(),
        ensures
            r == amount_of(decimal_product(self.mantissa as int, self.scale as int, other.mantissa as int, other.scale as int)),
            r matches Some(c) ==> c.wf(),
    {
        let x = rust_decimal::Decimal::from_i128_with_scale(self.mantissa, self.scale);
        let y = rust_decimal::Decimal::from_i128_with_scale(other.mantissa, other.scale);
        x.checked_mul(y).map(|z| Decimal { mantissa: z.mantissa(), scale: z.scale() })
    }

    /// Calls `rust_decimal::Decimal::checked_div`. The result is the named
    /// quotient and a well-formed amount. There is none where the divisor is
    /// zero.
    #[verifier::external_body]
    pub(crate) fn over(self, other: Decimal) -> (r: Option<Decimal>)
        requires
            self.wf(),
            other.wf(),
        ensures
            r == amount_of(decimal_quotient(self.mantissa as int, self.scale as int, other.mantissa as int, other.scale as int)),
            r matches Some(c) ==> c.wf(),
            other.mantissa == 0 ==> r is None,
    {
        let x = rust_decimal::Decimal::from_i128_with_scale(self.mantissa, self.scale);
        let y = rust_decimal::Decimal::from_i128_with_scale(other.mantissa, other.scale);
        x.checked_div(y).map(|z| Decimal { mantissa: z.mantissa(), scale: z.scale() })
    }

    /// Calls `rust_decimal::Decimal::round_dp`. The result is the named
    /// rounding and a well-formed amount; an amount that has no more than
    /// `places` decimal places comes back as it is, any other with
    /// `places` decimal places.
    #[verifier::external_body]
    pub(crate) fn round_to(self, places: u32) -> (r: Decimal)
        requires
            self.wf(),
        ensures
            r == amount_at(decimal_rounded(self.mantissa as int, self.scale as int, places as int)),
            r.wf(),
            self.scale <= places ==> r == self,
            self.scale > places ==> r.scale == places,
    {
        let x = rust_decimal::Decimal::from_i128_with_scale(self.mantissa, self.scale);
        let z = x.round_dp(places);
        Decimal { mantissa: z.mantissa(), scale: z.scale() }
    }
}

impl Decimal {
    /// Whether the amount is the sum of the two.
    pub fn is_sum_of(&self, a: &Decimal, b: &Decimal) -> (r: bool)
        requires
            self.wf(),
            a.wf(),
            b.wf(),
        ensures
            r == (self@ == a@ + b@),
    {
        let c = self.order_key();
        let x = a.order_key();
        let y = b.order_key();
        let whole: i128 = c.0 - x.0 - y.0;
        let part: i128 = x.1 + y.1 - c.1;
        (whole == 0 && part == 0) || (whole == 1 && part == UNITS_PER_ONE)
    }

    /// The sum, where it is formed without rounding; else nothing. There
    /// is one where the operands add exactly.
    pub fn plus_exact(self, other: Decimal) -> (r: Option<Decimal>)
        requires
            self.wf(),
            other.wf(),
        ensures
            r == self.exact_sum(other),
            r matches Some(c) ==> c.wf() && c@ == self@ + other@,
            self.adds_exactly(other) ==> r is Some,
            r matches Some(c) ==> (self.adds_exactly(other) ==> c.scale <= self.wider_scale(other)),
    {
        match self.plus(other) {
            Some(c) => {
                if c.is_sum_of(&self, &other) {
                    Some(c)
                } else {
                    None
                }
            },
            None => None,
        }
    }

    /// The difference, where it is formed without rounding; else nothing.
    /// There is one where the operands subtract exactly.
    pub fn minus_exact(self, other: Decimal) -> (r: Option<Decimal>)
        requires
            self.wf(),
            other.wf(),
        ensures
            r == self.exact_difference(other),
            r matches Some(c) ==> c.wf() && c@ == self@ - other@,
            self.subtracts_exactly(other) ==> r is Some,
            r matches Some(c) ==> (self.subtracts_exactly(other) ==> c.scale <= self.wider_scale(
                other,
            )),
    {
        match self.minus(other) {
            Some(c) => {
                if self.is_sum_of(&c, &other) {
                    Some(c)
                } else {
                    None
                }
            },
            None => None,
        }
    }
}

/// The mantissa at the scale `s`, counted in units of `10^-28`, is the
/// view.
pub proof fn lemma_mantissa_at(d: Decimal, s: int)
    requires
        d.scale <= s <= MAX_SCALE,
    ensures
        d.mantissa_at(s) * pow10((MAX_SCALE - s) as nat) == d@,
        pow10((MAX_SCALE - s) as nat) >= 1,
{
    let m = d.mantissa as int;
    let up = pow10((s - d.scale) as nat) as int;
    let rest = pow10((MAX_SCALE - s) as nat) as int;
    lemma_pow10_add((s - d.scale) as nat, (MAX_SCALE - s) as nat);
    lemma_pow10_positive((MAX_SCALE - s) as nat);
    vstd::arithmetic::mul::lemma_mul_is_associative(m, up, rest);
}

/// The mantissa at a larger scale is the mantissa at a smaller one with
/// zeros behind it.
pub proof fn lemma_mantissa_rescale(d: Decimal, t: int, s: int)
    requires
        d.scale <= t <= s,
    ensures
        d.mantissa_at(s) == d.mantissa_at(t) * pow10((s - t) as nat),
        pow10((s - t) as nat) >= 1,
{
    let m = d.mantissa as int;
    let first = pow10((t - d.scale) as nat) as int;
    let second = pow10((s - t) as nat) as int;
    lemma_pow10_add((t - d.scale) as nat, (s - t) as nat);
    lemma_pow10_positive((s - t) as nat);
    vstd::arithmetic::mul::lemma_mul_is_associative(m, first, second);
}

/// `x * r <= y * r` for a positive `r` orders `x` and `y`.
proof fn lemma_cancel(x: int, y: int, r: int)
    requires
        r >= 1,
        x * r <= y * r,
    ensures
        x <= y,
{
    if x > y {
        vstd::arithmetic::mul::lemma_mul_inequality(y + 1, x, r);
        vstd::arithmetic::mul::lemma_mul_is_distributive_add_other_way(r, y, 1);
    }
}

/// An amount that fits at a scale has, at every scale between its own and
/// that one, a mantissa that is not negative and no larger.
pub proof fn lemma_fits_between(d: Decimal, t: int, s: int)
    requires
        d.fits_at(s),
        d.scale <= t <= s,
    ensures
        0 <= d.mantissa_at(t) <= d.mantissa_at(s),
        d.fits_at(t),
{
    lemma_mantissa_rescale(d, t, s);
    let a = d.mantissa_at(t);
    let p = pow10((s - t) as nat) as int;
    assert(0 * p == 0);
    lemma_cancel(0, a, p);
    vstd::arithmetic::mul::lemma_mul_inequality(1, p, a);
    assert(1 * a == a);
    assert(p * a == a * p) by {
        vstd::arithmetic::mul::lemma_mul_is_commutative(p, a);
    }
}

/// An amount between zero and one that fits at a scale fits there too,
/// where it has no more decimal places.
pub proof fn lemma_fits_below(c: Decimal, q: Decimal, s: int)
    requires
        c.wf(),
        c.scale <= s,
        0 <= c@ <= q@,
        q.fits_at(s),
    ensures
        c.fits_at(s),
        c.mantissa_at(s) <= q.mantissa_at(s),
{
    lemma_mantissa_at(c, s);
    lemma_mantissa_at(q, s);
    let r = pow10((MAX_SCALE - s) as nat) as int;
    assert(0 * r == 0);
    lemma_cancel(0, c.mantissa_at(s), r);
    lemma_cancel(c.mantissa_at(s), q.mantissa_at(s), r);
}

/// Amounts that fit at one scale subtract without rounding.
pub proof fn lemma_subtracts_exactly(a: Decimal, b: Decimal, s: int)
    requires
        a.fits_at(s),
        b.fits_at(s),
    ensures
        a.subtracts_exactly(b),
        a.wider_scale(b) <= s,
{
    let w = a.wider_scale(b);
    lemma_fits_between(a, w, s);
    lemma_fits_between(b, w, s);
}

/// Amounts that fit at one scale add without rounding, where their sum is
/// no more than an amount that fits there.
pub proof fn lemma_adds_exactly(a: Decimal, b: Decimal, q: Decimal, s: int)
    requires
        a.fits_at(s),
        b.fits_at(s),
        q.fits_at(s),
        a@ + b@ <= q@,
    ensures
        a.adds_exactly(b),
        a.wider_scale(b) <= s,
{
    let w = a.wider_scale(b);
    lemma_fits_between(a, w, s);
    lemma_fits_between(b, w, s);
    lemma_mantissa_at(a, s);
    lemma_mantissa_at(b, s);
    lemma_mantissa_at(q, s);
    let r = pow10((MAX_SCALE - s) as nat) as int;
    vstd::arithmetic::mul::lemma_mul_is_distributive_add_other_way(
        r,
        a.mantissa_at(s),
        b.mantissa_at(s),
    );
    lemma_cancel(a.mantissa_at(s) + b.mantissa_at(s), q.mantissa_at(s), r);
}

/// Taking nothing from an amount is exact.
pub proof fn lemma_subtracts_zero(q: Decimal)
    requires
        q.wf(),
    ensures
        q.subtracts_exactly(lit(0, 0)),
{
    assert(pow10(0) == 1);
    assert(q.mantissa_at(q.scale as int) == q.mantissa * 1);
    assert(lit(0, 0).mantissa_at(q.scale as int) == 0 * pow10(q.scale as nat));
}

impl PartialEq for Decimal {
    /// Two amounts are equal where they stand for the same number.
    fn eq(&self, other: &Decimal) -> (b: bool) {
        if self.is_wf() && other.is_wf() {
            self.same(other)
        } else {
            self.mantissa == other.mantissa && self.scale == other.scale
        }
    }
}

impl vstd::std_specs::cmp::PartialEqSpecImpl for Decimal {
    open spec fn obeys_eq_spec() -> bool {
        true
    }

    open spec fn eq_spec(&self, other: &Decimal) -> bool {
        if self.wf() && other.wf() {
            self@ == other@
        } else {
            self.mantissa == other.mantissa && self.scale == other.scale
        }
    }
}

/// The amount `mantissa / 10^scale`, written out.
pub open spec fn lit(mantissa: int, scale: int) -> Decimal {
    Decimal { mantissa: mantissa as i128, scale: scale as u32 }
}

/// The sum of two amounts that may be missing.
pub open spec fn opt_sum(a: Option<Decimal>, b: Option<Decimal>) -> Option<Decimal> {
    match (a, b) {
        (Some(x), Some(y)) => x.sum(y),
        _ => None,
    }
}

/// The difference of two amounts that may be missing.
pub open spec fn opt_difference(a: Option<Decimal>, b: Option<Decimal>) -> Option<Decimal> {
    match (a, b) {
        (Some(x), Some(y)) => x.difference(y),
        _ => None,
    }
}

/// The product of two amounts that may be missing.
pub open spec fn opt_product(a: Option<Decimal>, b: Option<Decimal>) -> Option<Decimal> {
    match (a, b) {
        (Some(x), Some(y)) => x.product(y),
        _ => None,
    }
}

/// The quotient of two amounts that may be missing.
pub open spec fn opt_quotient(a: Option<Decimal>, b: Option<Decimal>) -> Option<Decimal> {
    match (a, b) {
        (Some(x), Some(y)) => x.quotient(y),
        _ => None,
    }
}

/// The amount is there and well-formed, or missing.
pub open spec fn opt_wf(a: Option<Decimal>) -> bool {
    a matches Some(x) ==> x.wf()
}

/// Adds two amounts that may be missing.
pub fn add_opt(a: Option<Decimal>, b: Option<Decimal>) -> (r: Option<Decimal>)
    requires
        opt_wf(a),
        opt_wf(b),
    ensures
        r == opt_sum(a, b),
        opt_wf(r),
{
    match (a, b) {
        (Some(x), Some(y)) => x.plus(y),
        _ => None,
    }
}

/// Subtracts two amounts that may be missing.
pub fn sub_opt(a: Option<Decimal>, b: Option<Decimal>) -> (r: Option<Decimal>)
    requires
        opt_wf(a),
        opt_wf(b),
    ensures
        r == opt_difference(a, b),
        opt_wf(r),
{
    match (a, b) {
        (Some(x), Some(y)) => x.minus(y),
        _ => None,
    }
}

/// Multiplies two amounts that may be missing.
pub fn mul_opt(a: Option<Decimal>, b: Option<Decimal>) -> (r: Option<Decimal>)
    requires
        opt_wf(a),
        opt_wf(b),
    ensures
        r == opt_product(a, b),
        opt_wf(r),
{
    match (a, b) {
        (Some(x), Some(y)) => x.times(y),
        _ => None,
    }
}

/// Divides two amounts that may be missing.
pub fn div_opt(a: Option<Decimal>, b: Option<Decimal>) -> (r: Option<Decimal>)
    requires
        opt_wf(a),
        opt_wf(b),
    ensures
        r == opt_quotient(a, b),
        opt_wf(r),
        r matches Some(c) ==> b.unwrap().mantissa != 0,
{
    match (a, b) {
        (Some(x), Some(y)) => x.over(y),
        _ => None,
    }
}

/// The view has the sign of the mantissa.
pub proof fn lemma_sign(d: Decimal)
    ensures
        d.wf() ==> (d@ == 0 <==> d.mantissa == 0),
        d.wf() ==> (d@ < 0 <==> d.mantissa < 0),
        d.wf() ==> (d@ > 0 <==> d.mantissa > 0),
{
    if d.wf() {
        let q = pow10((MAX_SCALE - d.scale) as nat) as int;
        lemma_pow10_positive((MAX_SCALE - d.scale) as nat);
        let m = d.mantissa as int;
        assert(m * q == 0 <==> m == 0) by (nonlinear_arith)
            requires
                q >= 1,
        ;
        assert(m * q < 0 <==> m < 0) by (nonlinear_arith)
            requires
                q >= 1,
        ;
        assert(m * q > 0 <==> m > 0) by (nonlinear_arith)
            requires
                q >= 1,
        ;
    }
}

} // verus!
