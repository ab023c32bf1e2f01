//! Fixed-point decimal numbers: a 96-bit mantissa and a scale of at most 28
//! fractional digits. The arithmetic itself is done by `rust_decimal`; this
//! module holds the number as plain integers and says what each operation
//! returns.

use core::cmp::Ordering;
use vstd::arithmetic::power::{lemma_pow0, lemma_pow1, lemma_pow_adds, lemma_pow_positive, pow};
use vstd::prelude::*;

use crate::seqs::{
    group_seqs, lemma_sorted_keeps, lemma_sorted_map, ranking, sorted, stable_sort, take_next, Precedence,
};
use crate::text::{
    all_digits, digits, digits_value, natural, pad_zeros, push_char, split_once_at, zero_padded,
};

verus! {

broadcast use group_seqs;

/// Most fractional digits a number can carry.
pub const MAX_SCALE: u32 = 28;

/// Two to the power of 96: every mantissa is smaller in magnitude.
pub const MANTISSA_LIMIT: i128 = 79_228_162_514_264_337_593_543_950_336;

/// A decimal number as mathematics sees it: `mantissa / 10^scale`, together
/// with the scale it is written at.
pub struct Dec {
    pub mantissa: int,
    pub scale: nat,
}

/// Ten to the power of `n`.
pub open spec fn pow10(n: nat) -> int {
    pow(10, n)
}

/// Whether `m` is a mantissa: smaller than 2^96 in magnitude.
pub open spec fn fits(m: int) -> bool {
    -MANTISSA_LIMIT < m < MANTISSA_LIMIT
}

impl Dec {
    pub open spec fn wf(self) -> bool {
        fits(self.mantissa) && self.scale <= MAX_SCALE
    }

    /// The mantissa the number has when it is written at `scale`.
    pub open spec fn at(self, scale: nat) -> int {
        self.mantissa * pow10((scale - self.scale) as nat)
    }

    /// The number in units of the finest digit, so that every scale compares.
    pub open spec fn value(self) -> int {
        self.at(MAX_SCALE as nat)
    }

    pub open spec fn lt(self, other: Dec) -> bool {
        self.value() < other.value()
    }

    pub open spec fn le(self, other: Dec) -> bool {
        self.value() <= other.value()
    }

    /// Equal in value, whatever the scales.
    pub open spec fn same(self, other: Dec) -> bool {
        self.value() == other.value()
    }

    pub open spec fn min(self, other: Dec) -> Dec {
        if other.lt(self) {
            other
        } else {
            self
        }
    }

    pub open spec fn max(self, other: Dec) -> Dec {
        if self.lt(other) {
            other
        } else {
            self
        }
    }

    pub open spec fn clamp(self, low: Dec, high: Dec) -> Dec {
        if self.lt(low) {
            low
        } else if high.lt(self) {
            high
        } else {
            self
        }
    }

    pub open spec fn abs(self) -> Dec {
        dec(if self.mantissa < 0 { -self.mantissa } else { self.mantissa }, self.scale)
    }

    /// Sign, whole part, and as many fractional digits as the scale says.
    pub open spec fn text(self) -> Seq<char> {
        let size = self.abs().mantissa as nat;
        let unit = pow10(self.scale) as nat;
        let sign = if self.mantissa < 0 {
            seq!['-']
        } else {
            seq![]
        };
        let whole = digits(size / unit);
        if self.scale == 0 {
            sign + whole
        } else {
            sign + whole + seq!['.'] + zero_padded(digits(size % unit), self.scale)
        }
    }
}

pub open spec fn dec(mantissa: int, scale: nat) -> Dec {
    Dec { mantissa, scale }
}

pub open spec fn zero() -> Dec {
    dec(0, 0)
}

pub open spec fn one() -> Dec {
    dec(1, 0)
}

/// The wider of two scales.
pub open spec fn common_scale(a: Dec, b: Dec) -> nat {
    if a.scale >= b.scale {
        a.scale
    } else {
        b.scale
    }
}

/// Both operands written at the common scale, and `total` beside them, are
/// mantissas.
pub open spec fn aligned_fit(a: Dec, b: Dec, total: int) -> bool {
    fits(a.at(common_scale(a, b))) && fits(b.at(common_scale(a, b))) && fits(total)
}

/// Whether two decimals add without rounding: one is zero, or the sum at the
/// wider scale fits.
pub open spec fn sum_is_exact(a: Dec, b: Dec) -> bool {
    a.mantissa == 0 || b.mantissa == 0 || aligned_fit(
        a,
        b,
        a.at(common_scale(a, b)) + b.at(common_scale(a, b)),
    )
}

/// The sum without rounding: an operand as it is when the other is zero, else
/// written at the wider scale.
pub open spec fn exact_sum(a: Dec, b: Dec) -> Dec {
    if a.mantissa == 0 {
        b
    } else if b.mantissa == 0 {
        a
    } else {
        dec(a.at(common_scale(a, b)) + b.at(common_scale(a, b)), common_scale(a, b))
    }
}

pub open spec fn negated(a: Dec) -> Dec {
    dec(-a.mantissa, a.scale)
}

/// Whether two decimals multiply without rounding.
pub open spec fn product_is_exact(a: Dec, b: Dec) -> bool {
    a.mantissa == 0 || b.mantissa == 0 || (fits(a.mantissa * b.mantissa) && a.scale + b.scale
        <= MAX_SCALE)
}

/// The product without rounding: plain zero when a factor is zero, else
/// written at the sum of the scales.
pub open spec fn exact_product(a: Dec, b: Dec) -> Dec {
    if a.mantissa == 0 || b.mantissa == 0 {
        zero()
    } else {
        dec(a.mantissa * b.mantissa, a.scale + b.scale)
    }
}

/// What `rust_decimal` adds to where the sum does not fit as it is: a rounded
/// number, or nothing on overflow.
pub uninterp spec fn rounded_sum(am: int, a_scale: nat, bm: int, b_scale: nat) -> Option<
    (int, nat),
>;

/// What `rust_decimal` subtracts to where the difference does not fit as it is.
pub uninterp spec fn rounded_difference(am: int, a_scale: nat, bm: int, b_scale: nat) -> Option<
    (int, nat),
>;

/// What `rust_decimal` multiplies to where the product does not fit as it is.
pub uninterp spec fn rounded_product(am: int, a_scale: nat, bm: int, b_scale: nat) -> Option<
    (int, nat),
>;

/// What `rust_decimal` divides to, for operands other than zero.
pub uninterp spec fn rounded_quotient(am: int, a_scale: nat, bm: int, b_scale: nat) -> Option<
    (int, nat),
>;

/// A named result as a decimal.
pub open spec fn as_dec(parts: Option<(int, nat)>) -> Option<Dec> {
    match parts {
        Some((m, s)) => Some(dec(m, s)),
        None => None,
    }
}

/// The sum of two decimals; nothing on overflow.
pub open spec fn sum(a: Dec, b: Dec) -> Option<Dec> {
    if sum_is_exact(a, b) {
        Some(exact_sum(a, b))
    } else {
        as_dec(rounded_sum(a.mantissa, a.scale, b.mantissa, b.scale))
    }
}

/// The difference of two decimals; nothing on overflow.
pub open spec fn difference(a: Dec, b: Dec) -> Option<Dec> {
    if sum_is_exact(a, negated(b)) {
        Some(exact_sum(a, negated(b)))
    } else {
        as_dec(rounded_difference(a.mantissa, a.scale, b.mantissa, b.scale))
    }
}

/// The product of two decimals; nothing on overflow.
pub open spec fn product(a: Dec, b: Dec) -> Option<Dec> {
    if product_is_exact(a, b) {
        Some(exact_product(a, b))
    } else {
        as_dec(rounded_product(a.mantissa, a.scale, b.mantissa, b.scale))
    }
}

/// Ten to the largest scale: the value of one.
pub open spec fn unit() -> int {
    pow10(MAX_SCALE as nat)
}

/// Whether `a / b`, as a fraction, is at most `d`.
pub open spec fn ratio_at_most(a: Dec, b: Dec, d: Dec) -> bool {
    if b.mantissa > 0 {
        a.value() * unit() <= d.value() * b.value()
    } else {
        a.value() * unit() >= d.value() * b.value()
    }
}

/// Whether `a / b`, as a fraction, is at least `d`.
pub open spec fn ratio_at_least(a: Dec, b: Dec, d: Dec) -> bool {
    if b.mantissa > 0 {
        a.value() * unit() >= d.value() * b.value()
    } else {
        a.value() * unit() <= d.value() * b.value()
    }
}

/// The magnitude of an integer.
pub open spec fn size(n: int) -> int {
    if n < 0 {
        -n
    } else {
        n
    }
}

/// Whether `q` is a rounding of `a / b`: rounding does not carry it past any
/// number that can be written, so it is exact where the fraction can be, and
/// a fraction of at most seven is off by no more than half of the last digit,
/// which is even where it is off by exactly that.
#[verifier::opaque]
pub open spec fn rounds_ratio(a: Dec, b: Dec, q: Dec) -> bool {
    &&& q.wf()
    &&& forall|d: Dec| d.wf() && #[trigger] ratio_at_most(a, b, d) ==> q.le(d)
    &&& forall|d: Dec| d.wf() && #[trigger] ratio_at_least(a, b, d) ==> d.le(q)
    &&& size(a.value()) <= 7 * size(b.value()) ==> 2 * size(
        q.value() * b.value() - a.value() * unit(),
    ) <= size(b.value())
    &&& size(a.value()) <= 7 * size(b.value()) && 2 * size(
        q.value() * b.value() - a.value() * unit(),
    ) == size(b.value()) ==> q.value() % 2 == 0
}

/// The quotient of two decimals: nothing over zero or on overflow, plain zero
/// of zero, and else a rounding of the fraction. What `rust_decimal` divides to
/// counts as the quotient where it is such a rounding, and the contract of the
/// division says that it always is.
pub open spec fn quotient(a: Dec, b: Dec) -> Option<Dec> {
    if b.mantissa == 0 {
        None
    } else if a.mantissa == 0 {
        Some(zero())
    } else {
        match as_dec(rounded_quotient(a.mantissa, a.scale, b.mantissa, b.scale)) {
            Some(q) => if rounds_ratio(a, b, q) {
                Some(q)
            } else {
                None
            },
            None => None,
        }
    }
}

/// Addition of results that may be missing: missing in, missing out.
pub open spec fn plus(a: Option<Dec>, b: Option<Dec>) -> Option<Dec> {
    match (a, b) {
        (Some(x), Some(y)) => sum(x, y),
        _ => None,
    }
}

/// Subtraction of results that may be missing.
pub open spec fn minus(a: Option<Dec>, b: Option<Dec>) -> Option<Dec> {
    match (a, b) {
        (Some(x), Some(y)) => difference(x, y),
        _ => None,
    }
}

/// Multiplication of results that may be missing.
pub open spec fn times(a: Option<Dec>, b: Option<Dec>) -> Option<Dec> {
    match (a, b) {
        (Some(x), Some(y)) => product(x, y),
        _ => None,
    }
}

/// Division of results that may be missing.
pub open spec fn over(a: Option<Dec>, b: Option<Dec>) -> Option<Dec> {
    match (a, b) {
        (Some(x), Some(y)) => quotient(x, y),
        _ => None,
    }
}

/// The sum of all the numbers, added from the front; nothing on overflow.
pub open spec fn total(values: Seq<Dec>) -> Option<Dec>
    decreases values.len(),
{
    if values.len() == 0 {
        Some(zero())
    } else {
        plus(total(values.drop_last()), Some(values.last()))
    }
}

/// The numbers of a list.
pub open spec fn decs(values: Seq<Decimal>) -> Seq<Dec> {
    values.map_values(|d: Decimal| d@)
}

/// `m / d` for `d > 0`, to the nearest integer, halves to the even one.
pub open spec fn nearest_even(m: int, d: int) -> int {
    let low = m / d;
    let rest = m % d;
    if 2 * rest < d || (2 * rest == d && low % 2 == 0) {
        low
    } else {
        low + 1
    }
}

/// The number at no more than `places` fractional digits: banker's rounding.
pub open spec fn rounded(d: Dec, places: nat) -> Dec {
    if d.scale <= places {
        d
    } else {
        dec(nearest_even(d.mantissa, pow10((d.scale - places) as nat)), places)
    }
}

/// The largest integer not above the number.
pub open spec fn floored(d: Dec) -> Dec {
    if d.scale == 0 {
        d
    } else {
        dec(d.mantissa / pow10(d.scale), 0)
    }
}

/// The decimal inside an optional one.
pub open spec fn dec_of(d: Option<Decimal>) -> Option<Dec> {
    match d {
        Some(d) => Some(d@),
        None => None,
    }
}

/// Ten to any power is positive.
pub proof fn lemma_pow10_positive(n: nat)
    ensures
        pow10(n) > 0,
{
    lemma_pow_positive(10, n);
}

/// Powers of ten multiply by adding exponents.
pub proof fn lemma_pow10_adds(a: nat, b: nat)
    ensures
        pow10(a) * pow10(b) == pow10(a + b),
{
    lemma_pow_adds(10, a, b);
}

/// The sign of a decimal is the sign of its value.
pub proof fn lemma_value_sign(d: Dec)
    ensures
        d.value() > 0 <==> d.mantissa > 0,
        d.value() < 0 <==> d.mantissa < 0,
        zero().value() == 0,
{
    let p = pow10((MAX_SCALE - d.scale) as nat);
    lemma_pow10_positive((MAX_SCALE - d.scale) as nat);
    assert(d.mantissa * p > 0 <==> d.mantissa > 0) by (nonlinear_arith)
        requires
            p > 0,
    ;
    assert(d.mantissa * p < 0 <==> d.mantissa < 0) by (nonlinear_arith)
        requires
            p > 0,
    ;
}

/// Writing a number at a wider scale first does not change its value.
pub proof fn lemma_value_at(d: Dec, scale: nat)
    requires
        d.scale <= scale <= MAX_SCALE,
    ensures
        dec(d.at(scale), scale).value() == d.value(),
{
    let a = (scale - d.scale) as nat;
    let b = (MAX_SCALE - scale) as nat;
    lemma_pow10_adds(a, b);
    assert(d.mantissa * pow10(a) * pow10(b) == d.mantissa * (pow10(a) * pow10(b)))
        by (nonlinear_arith);
}

/// An exact sum has the sum of the values.
pub proof fn lemma_exact_sum(a: Dec, b: Dec)
    requires
        a.scale <= MAX_SCALE,
        b.scale <= MAX_SCALE,
    ensures
        exact_sum(a, b).value() == a.value() + b.value(),
{
    let s = common_scale(a, b);
    lemma_value_at(a, s);
    lemma_value_at(b, s);
    lemma_value_sign(a);
    lemma_value_sign(b);
    let p = pow10((MAX_SCALE - s) as nat);
    assert((a.at(s) + b.at(s)) * p == a.at(s) * p + b.at(s) * p) by (nonlinear_arith);
}

/// A negated number has the negated value.
pub proof fn lemma_negated(a: Dec)
    ensures
        negated(a).value() == -a.value(),
        negated(a).scale == a.scale,
{
    let p = pow10((MAX_SCALE - a.scale) as nat);
    assert((-a.mantissa) * p == -(a.mantissa * p)) by (nonlinear_arith);
}

/// A quotient is at most every number that the fraction is at most.
pub proof fn lemma_quotient_at_most(a: Dec, b: Dec, d: Dec)
    requires
        d.wf(),
        b.mantissa > 0,
        a.value() * unit() <= d.value() * b.value(),
    ensures
        quotient(a, b) matches Some(q) ==> q.le(d) && q.wf(),
{
    reveal(rounds_ratio);
    lemma_value_sign(a);
    lemma_value_sign(b);
    if a.mantissa == 0 {
        let (x, y, u) = (d.value(), b.value(), unit());
        assert(x >= 0) by (nonlinear_arith)
            requires
                a.value() == 0,
                a.value() * u <= x * y,
                y > 0,
        ;
    } else {
        assert(ratio_at_most(a, b, d));
    }
}

/// A quotient is at least every number that the fraction is at least.
pub proof fn lemma_quotient_at_least(a: Dec, b: Dec, d: Dec)
    requires
        d.wf(),
        b.mantissa > 0,
        a.value() * unit() >= d.value() * b.value(),
    ensures
        quotient(a, b) matches Some(q) ==> d.le(q) && q.wf(),
{
    reveal(rounds_ratio);
    lemma_value_sign(a);
    lemma_value_sign(b);
    if a.mantissa == 0 {
        let (x, y, u) = (d.value(), b.value(), unit());
        assert(x <= 0) by (nonlinear_arith)
            requires
                a.value() == 0,
                a.value() * u >= x * y,
                y > 0,
        ;
    } else {
        assert(ratio_at_least(a, b, d));
    }
}

/// A quotient of numbers that are not negative is not negative.
pub proof fn lemma_quotient_sign(a: Dec, b: Dec)
    requires
        a.mantissa >= 0,
        b.mantissa >= 0,
    ensures
        quotient(a, b) matches Some(q) ==> q.mantissa >= 0 && q.wf(),
{
    if b.mantissa > 0 {
        lemma_value_sign(a);
        lemma_pow10_positive(MAX_SCALE as nat);
        assert(a.value() * unit() >= 0) by (nonlinear_arith)
            requires
                a.value() >= 0,
                unit() > 0,
        ;
        assert(zero().value() * b.value() == 0) by (nonlinear_arith)
            requires
                zero().value() == 0,
        ;
        lemma_quotient_at_least(a, b, zero());
        if let Some(q) = quotient(a, b) {
            lemma_value_sign(q);
        }
    }
}

/// How far a quotient of numbers that are not negative can be from the fraction.
pub proof fn lemma_quotient_close(a: Dec, b: Dec)
    requires
        a.mantissa >= 0,
        b.mantissa > 0,
        a.value() <= 7 * b.value(),
    ensures
        quotient(a, b) matches Some(q) ==> {
            let off = q.value() * b.value() - a.value() * unit();
            &&& q.value() >= 0
            &&& -b.value() <= 2 * off <= b.value()
            &&& (2 * off == b.value() || 2 * off == -b.value()) ==> q.value() % 2 == 0
        },
{
    reveal(rounds_ratio);
    lemma_value_sign(a);
    lemma_value_sign(b);
    lemma_quotient_sign(a, b);
    if let Some(q) = quotient(a, b) {
        lemma_value_sign(q);
        if a.mantissa == 0 {
            assert(zero().value() * b.value() == 0) by (nonlinear_arith)
                requires
                    zero().value() == 0,
            ;
            assert(a.value() * unit() == 0) by (nonlinear_arith)
                requires
                    a.value() == 0,
            ;
        }
    }
}

/// Where a fraction can be written exactly, that is the quotient.
pub proof fn exact_quotients_are_exact(a: Dec, b: Dec, d: Dec)
    requires
        d.wf(),
        b.mantissa > 0,
        a.value() * unit() == d.value() * b.value(),
    ensures
        quotient(a, b) matches Some(q) ==> q.same(d),
{
    lemma_quotient_at_most(a, b, d);
    lemma_quotient_at_least(a, b, d);
}

/// Numbers that fit at a common scale add up exactly.
pub proof fn lemma_sum_fits(a: Dec, b: Dec, scale: nat)
    requires
        a.scale <= scale <= MAX_SCALE,
        b.scale <= scale,
        fits(a.at(scale)),
        fits(b.at(scale)),
        fits(a.at(scale) + b.at(scale)),
    ensures
        sum_is_exact(a, b),
        exact_sum(a, b).value() == a.value() + b.value(),
        exact_sum(a, b).at(scale) == a.at(scale) + b.at(scale),
        exact_sum(a, b).scale <= scale,
{
    let s = common_scale(a, b);
    let rest = (scale - s) as nat;
    lemma_pow10_positive(rest);
    lemma_pow10_adds((s - a.scale) as nat, rest);
    lemma_pow10_adds((s - b.scale) as nat, rest);
    let (x, y, p) = (a.at(s), b.at(s), pow10(rest));
    assert(a.at(scale) == x * p) by (nonlinear_arith)
        requires
            x == a.mantissa * pow10((s - a.scale) as nat),
            a.at(scale) == a.mantissa * (pow10((s - a.scale) as nat) * p),
    ;
    assert(b.at(scale) == y * p) by (nonlinear_arith)
        requires
            y == b.mantissa * pow10((s - b.scale) as nat),
            b.at(scale) == b.mantissa * (pow10((s - b.scale) as nat) * p),
    ;
    lemma_shrinks(x, p);
    lemma_shrinks(y, p);
    assert((x + y) * p == x * p + y * p) by (nonlinear_arith);
    lemma_shrinks(x + y, p);
    lemma_exact_sum(a, b);
    assert(0 * pow10((scale - a.scale) as nat) == 0 && 0 * pow10((scale - b.scale) as nat) == 0)
        by (nonlinear_arith);
    if a.mantissa == 0 {
        assert(a.at(scale) == 0);
    } else if b.mantissa == 0 {
        assert(b.at(scale) == 0);
    }
}

proof fn lemma_shrinks(x: int, p: int)
    requires
        p >= 1,
        fits(x * p),
    ensures
        fits(x),
{
    assert(x >= 0 ==> x <= x * p) by (nonlinear_arith)
        requires
            p >= 1,
    ;
    assert(x <= 0 ==> x >= x * p) by (nonlinear_arith)
        requires
            p >= 1,
    ;
}

/// A fixed-point decimal number.
#[derive(Clone, Copy, Debug)]
pub struct Decimal {
    mantissa: i128,
    scale: u32,
}

impl View for Decimal {
    type V = Dec;

    closed spec fn view(&self) -> Dec {
        Dec { mantissa: self.mantissa as int, scale: self.scale as nat }
    }
}

impl Decimal {
    #[verifier::type_invariant]
    spec fn bounded(self) -> bool {
        -MANTISSA_LIMIT < self.mantissa < MANTISSA_LIMIT && self.scale <= MAX_SCALE
    }

    /// `mantissa / 10^scale`, when that is a decimal at all.
    pub fn from_parts(mantissa: i128, scale: u32) -> (result: Option<Decimal>)
        ensures
            result is Some <==> dec(mantissa as int, scale as nat).wf(),
            result matches Some(d) ==> d@ == dec(mantissa as int, scale as nat),
    {
        if -MANTISSA_LIMIT < mantissa && mantissa < MANTISSA_LIMIT && scale <= MAX_SCALE {
            Some(Decimal { mantissa, scale })
        } else {
            None
        }
    }

    /// `num / 10^scale`.
    pub fn new(num: i64, scale: u32) -> (result: Decimal)
        requires
            scale <= MAX_SCALE,
        ensures
            result@ == dec(num as int, scale as nat),
    {
        Decimal { mantissa: num as i128, scale }
    }

    pub fn zero() -> (result: Decimal)
        ensures
            result@ == zero(),
    {
        Decimal { mantissa: 0, scale: 0 }
    }

    pub fn one() -> (result: Decimal)
        ensures
            result@ == one(),
    {
        Decimal { mantissa: 1, scale: 0 }
    }

    pub fn two() -> (result: Decimal)
        ensures
            result@ == dec(2, 0),
    {
        Decimal { mantissa: 2, scale: 0 }
    }

    pub fn one_hundred() -> (result: Decimal)
        ensures
            result@ == dec(100, 0),
    {
        Decimal { mantissa: 100, scale: 0 }
    }

    /// A count as a number.
    pub fn from_count(count: usize) -> (result: Decimal)
        ensures
            result@ == dec(count as int, 0),
    {
        Decimal { mantissa: count as i128, scale: 0 }
    }

    pub fn mantissa(&self) -> (result: i128)
        ensures
            result == self@.mantissa,
            self@.wf(),
    {
        proof {
            use_type_invariant(self);
        }
        self.mantissa
    }

    pub fn scale(&self) -> (result: u32)
        ensures
            result == self@.scale,
            self@.wf(),
    {
        proof {
            use_type_invariant(self);
        }
        self.scale
    }

    /// Sum; `None` on overflow.
    pub fn checked_add(self, other: Decimal) -> (result: Option<Decimal>)
        ensures
            dec_of(result) == sum(self@, other@),
            result matches Some(d) ==> d@.wf(),
            self@.mantissa >= 0 && other@.mantissa >= 0 ==> (result matches Some(d) ==> d@.mantissa
                >= 0),
    {
        proof {
            use_type_invariant(&self);
            use_type_invariant(&other);
        }
        match decimal_add(self.mantissa, self.scale, other.mantissa, other.scale) {
            Some((mantissa, scale)) => Some(Decimal { mantissa, scale }),
            None => None,
        }
    }

    /// Difference; `None` on overflow.
    pub fn checked_sub(self, other: Decimal) -> (result: Option<Decimal>)
        ensures
            dec_of(result) == difference(self@, other@),
    {
        proof {
            use_type_invariant(&self);
            use_type_invariant(&other);
        }
        match decimal_sub(self.mantissa, self.scale, other.mantissa, other.scale) {
            Some((mantissa, scale)) => Some(Decimal { mantissa, scale }),
            None => None,
        }
    }

    /// Product; `None` on overflow.
    pub fn checked_mul(self, other: Decimal) -> (result: Option<Decimal>)
        ensures
            dec_of(result) == product(self@, other@),
    {
        proof {
            use_type_invariant(&self);
            use_type_invariant(&other);
        }
        match decimal_mul(self.mantissa, self.scale, other.mantissa, other.scale) {
            Some((mantissa, scale)) => Some(Decimal { mantissa, scale }),
            None => None,
        }
    }

    /// Quotient; `None` over zero, and where the fraction is larger than any
    /// number. The quotient of two numbers with one sign is not negative.
    pub fn checked_div(self, other: Decimal) -> (result: Option<Decimal>)
        ensures
            dec_of(result) == quotient(self@, other@),
            result is None ==> other@.mantissa == 0 || size(self@.value()) > (MANTISSA_LIMIT - 1)
                * size(other@.value()),
            result matches Some(d) ==> d@.wf(),
            self@.mantissa >= 0 && other@.mantissa >= 0 ==> (result matches Some(d) ==> d@.mantissa
                >= 0),
    {
        proof {
            use_type_invariant(&self);
            use_type_invariant(&other);
        }
        match decimal_div(self.mantissa, self.scale, other.mantissa, other.scale) {
            Some((mantissa, scale)) => {
                let q = Decimal { mantissa, scale };
                proof {
                    if self@.mantissa >= 0 && other@.mantissa >= 0 {
                        lemma_quotient_sign(self@, other@);
                    }
                }
                Some(q)
            },
            None => None,
        }
    }

    /// Smaller in value.
    pub fn less(self, other: Decimal) -> (result: bool)
        ensures
            result == self@.lt(other@),
    {
        proof {
            use_type_invariant(&self);
            use_type_invariant(&other);
        }
        decimal_lt(self.mantissa, self.scale, other.mantissa, other.scale)
    }

    /// Not larger in value.
    pub fn at_most(self, other: Decimal) -> (result: bool)
        ensures
            result == self@.le(other@),
    {
        !other.less(self)
    }

    /// Equal in value.
    pub fn equals(self, other: Decimal) -> (result: bool)
        ensures
            result == self@.same(other@),
    {
        !self.less(other) && !other.less(self)
    }

    /// The smaller of the two; `self` when they are equal.
    pub fn min(self, other: Decimal) -> (result: Decimal)
        ensures
            result@ == self@.min(other@),
    {
        if other.less(self) {
            other
        } else {
            self
        }
    }

    /// The larger of the two; `self` when they are equal.
    pub fn max(self, other: Decimal) -> (result: Decimal)
        ensures
            result@ == self@.max(other@),
    {
        if self.less(other) {
            other
        } else {
            self
        }
    }

    /// The nearest number between `low` and `high`.
    pub fn clamp(self, low: Decimal, high: Decimal) -> (result: Decimal)
        requires
            low@.le(high@),
        ensures
            result@ == self@.clamp(low@, high@),
    {
        if self.less(low) {
            low
        } else if high.less(self) {
            high
        } else {
            self
        }
    }

    /// The magnitude.
    pub fn abs(self) -> (result: Decimal)
        ensures
            result@ == self@.abs(),
    {
        proof {
            use_type_invariant(&self);
        }
        if self.mantissa < 0 {
            Decimal { mantissa: -self.mantissa, scale: self.scale }
        } else {
            self
        }
    }

    /// Banker's rounding to `places` fractional digits.
    pub fn round_dp(self, places: u32) -> (result: Decimal)
        ensures
            result@ == rounded(self@, places as nat),
    {
        proof {
            use_type_invariant(&self);
        }
        let (mantissa, scale) = decimal_round(self.mantissa, self.scale, places);
        Decimal { mantissa, scale }
    }

    /// The largest integer not above the number.
    pub fn floor(self) -> (result: Decimal)
        ensures
            result@ == floored(self@),
    {
        proof {
            use_type_invariant(&self);
        }
        let (mantissa, scale) = decimal_floor(self.mantissa, self.scale);
        Decimal { mantissa, scale }
    }

    /// The number as it is printed.
    pub fn to_text(&self) -> (result: String)
        ensures
            result@ == self@.text(),
    {
        proof {
            use_type_invariant(self);
        }
        let size: u128 = if self.mantissa < 0 {
            (-self.mantissa) as u128
        } else {
            self.mantissa as u128
        };
        let unit: u128 = power_of_ten(self.scale);
        let mut out = String::new();
        if self.mantissa < 0 {
            push_char(&mut out, '-');
        }
        let whole = natural(size / unit);
        out.append(whole.as_str());
        if self.scale > 0 {
            push_char(&mut out, '.');
            let rest = natural(size % unit);
            let padded = pad_zeros(rest.as_str(), self.scale as usize);
            out.append(padded.as_str());
        }
        assert(out@ =~= self@.text());
        out
    }
}

/// Ten to a power of at most 28.
fn power_of_ten(n: u32) -> (result: u128)
    requires
        n <= MAX_SCALE,
    ensures
        result == pow10(n as nat),
        result > 0,
{
    let mut out: u128 = 1;
    let mut i: u32 = 0;
    proof {
        lemma_pow0(10);
        lemma_pow10_max();
    }
    while i < n
        invariant
            i <= n <= MAX_SCALE,
            out == pow10(i as nat),
            out > 0,
            pow10(MAX_SCALE as nat) == 10_000_000_000_000_000_000_000_000_000,
        decreases n - i,
    {
        proof {
            lemma_pow_adds(10, i as nat, 1);
            lemma_pow1(10);
            lemma_pow10_adds((i + 1) as nat, (MAX_SCALE - i - 1) as nat);
            lemma_pow10_positive((MAX_SCALE - i - 1) as nat);
            lemma_pow10_positive((i + 1) as nat);
            let a = pow10((i + 1) as nat);
            let b = pow10((MAX_SCALE - i - 1) as nat);
            assert(a <= a * b) by (nonlinear_arith)
                requires
                    a > 0,
                    b > 0,
            ;
        }
        out = out * 10;
        i = i + 1;
    }
    out
}

/// The powers of ten that scales of up to four digits leave.
pub proof fn lemma_pow10_values()
    ensures
        pow10(24) == 1_000_000_000_000_000_000_000_000,
        pow10(25) == 10_000_000_000_000_000_000_000_000,
        pow10(26) == 100_000_000_000_000_000_000_000_000,
        pow10(27) == 1_000_000_000_000_000_000_000_000_000,
        pow10(28) == 10_000_000_000_000_000_000_000_000_000,
{
    reveal_with_fuel(pow, 29);
}

/// The value of a number, once the unit of its scale is known.
pub proof fn lemma_value_of(mantissa: int, scale: nat, unit: int)
    requires
        scale <= MAX_SCALE,
        pow10((MAX_SCALE - scale) as nat) == unit,
    ensures
        dec(mantissa, scale).value() == mantissa * unit,
{
}

/// Ten to the largest scale.
pub proof fn lemma_pow10_max()
    ensures
        pow10(MAX_SCALE as nat) == 10_000_000_000_000_000_000_000_000_000,
{
    reveal_with_fuel(pow, 29);
}

/// The order of the values.
pub struct ByValue;

impl Precedence<Decimal> for ByValue {
    open spec fn precedes(&self, a: Decimal, b: Decimal) -> bool {
        a@.lt(b@)
    }

    fn first(&self, a: &Decimal, b: &Decimal) -> (result: bool) {
        a.less(*b)
    }
}

/// The order of the values, as a function of two numbers.
pub open spec fn by_value() -> spec_fn(Dec, Dec) -> bool {
    |a: Dec, b: Dec| a.lt(b)
}

/// The numbers in the order of their values; equal ones keep their order.
pub fn sort_decimals(values: Vec<Decimal>) -> (result: Vec<Decimal>)
    ensures
        decs(result@) == sorted(decs(values@), by_value()),
{
    proof {
        lemma_sorted_map(
            values@,
            |d: Decimal| d@,
            ranking(ByValue),
            by_value(),
        );
    }
    stable_sort(values, &ByValue)
}

/// The middle of the numbers, or the mean of the two in the middle; nothing
/// without numbers or on overflow.
pub open spec fn median(values: Seq<Dec>) -> Option<Dec> {
    let ordered = sorted(values, by_value());
    let middle = values.len() as int / 2;
    if values.len() == 0 {
        None
    } else if values.len() % 2 == 0 {
        over(sum(ordered[middle - 1], ordered[middle]), Some(dec(2, 0)))
    } else {
        Some(ordered[middle])
    }
}

/// The middle of the numbers; `None` without numbers or on overflow.
pub fn median_of(values: Vec<Decimal>) -> (result: Option<Decimal>)
    ensures
        dec_of(result) == median(decs(values@)),
{
    let count: usize = values.len();
    if count == 0 {
        return None;
    }
    let ghost given = decs(values@);
    let ordered = sort_decimals(values);
    proof {
        lemma_sorted_keeps(given, by_value());
        assert(forall|i: int| 0 <= i < ordered@.len() ==> decs(ordered@)[i] == ordered@[i]@);
    }
    let middle: usize = count / 2;
    if count % 2 == 0 {
        let pair = ordered[middle - 1].checked_add(ordered[middle])?;
        pair.checked_div(Decimal::two())
    } else {
        Some(ordered[middle])
    }
}

impl PartialEq for Decimal {
    fn eq(&self, other: &Decimal) -> (result: bool) {
        self.equals(*other)
    }
}

impl vstd::std_specs::cmp::PartialEqSpecImpl for Decimal {
    open spec fn obeys_eq_spec() -> bool {
        true
    }

    open spec fn eq_spec(&self, other: &Decimal) -> bool {
        self@.same(other@)
    }
}

impl Eq for Decimal {

}

impl PartialOrd for Decimal {
    fn partial_cmp(&self, other: &Decimal) -> (result: Option<Ordering>) {
        if self.less(*other) {
            Some(Ordering::Less)
        } else if other.less(*self) {
            Some(Ordering::Greater)
        } else {
            Some(Ordering::Equal)
        }
    }
}

impl vstd::std_specs::cmp::PartialOrdSpecImpl for Decimal {
    open spec fn obeys_partial_cmp_spec() -> bool {
        true
    }

    open spec fn partial_cmp_spec(&self, other: &Decimal) -> Option<Ordering> {
        if self@.lt(other@) {
            Some(Ordering::Less)
        } else if other@.lt(self@) {
            Some(Ordering::Greater)
        } else {
            Some(Ordering::Equal)
        }
    }
}

/// The sum of all the numbers, added from the front; `None` on overflow.
pub fn checked_total(values: &Vec<Decimal>) -> (result: Option<Decimal>)
    ensures
        dec_of(result) == total(decs(values@)),
{
    let mut out = Decimal::zero();
    let mut i: usize = 0;
    while i < values.len()
        invariant
            i <= values@.len(),
            Some(out@) == total(decs(values@.take(i as int))),
        decreases values@.len() - i,
    {
        let ghost more = decs(values@.take(i + 1));
        proof {
            take_next(values@, i as int);
            assert(more.drop_last() =~= decs(values@.take(i as int)));
        }
        match out.checked_add(values[i]) {
            Some(next) => {
                out = next;
            },
            None => {
                proof {
                    assert(decs(values@).take(i + 1) =~= more);
                    lemma_total_stays_missing(decs(values@), i + 1);
                }
                return None;
            },
        }
        i = i + 1;
    }
    Some(out)
}

/// A sum that is missing at some point stays missing.
pub proof fn lemma_total_stays_missing(values: Seq<Dec>, at: int)
    requires
        0 <= at <= values.len(),
        total(values.take(at)) is None,
    ensures
        total(values) is None,
    decreases values.len() - at,
{
    if at < values.len() {
        take_next(values, at);
        lemma_total_stays_missing(values, at + 1);
    }
}

/// The number that a pair of integers stands for.
pub open spec fn pair(mantissa: i128, scale: u32) -> Dec {
    dec(mantissa as int, scale as nat)
}

pub open spec fn pair_of(d: Option<(i128, u32)>) -> Option<Dec> {
    match d {
        Some((m, s)) => Some(pair(m, s)),
        None => None,
    }
}

/// `rust_decimal::Decimal::checked_add`. A zero operand gives back the other
/// one as it is. Otherwise the operands are written at the wider scale; where
/// they and their sum stay below 2^96 that sum is the result, and elsewhere it
/// is some rounded number or `None`, which only has a name here. Operands that
/// are not negative never add up to a negative number.
#[verifier::external_body]
fn decimal_add(am: i128, a_scale: u32, bm: i128, b_scale: u32) -> (result: Option<(i128, u32)>)
    requires
        pair(am, a_scale).wf(),
        pair(bm, b_scale).wf(),
    ensures
        sum_is_exact(pair(am, a_scale), pair(bm, b_scale)) ==> pair_of(result) == Some(
            exact_sum(pair(am, a_scale), pair(bm, b_scale)),
        ),
        !sum_is_exact(pair(am, a_scale), pair(bm, b_scale)) ==> pair_of(result) == as_dec(
            rounded_sum(am as int, a_scale as nat, bm as int, b_scale as nat),
        ),
        am >= 0 && bm >= 0 ==> (result matches Some((m, s)) ==> m >= 0),
        result matches Some((m, s)) ==> pair(m, s).wf(),
{
    let a = rust_decimal::Decimal::from_i128_with_scale(am, a_scale);
    let b = rust_decimal::Decimal::from_i128_with_scale(bm, b_scale);
    a.checked_add(b).map(|d| (d.mantissa(), d.scale()))
}

/// `rust_decimal::Decimal::checked_sub`: as [`decimal_add`], with the second
/// operand negated.
#[verifier::external_body]
fn decimal_sub(am: i128, a_scale: u32, bm: i128, b_scale: u32) -> (result: Option<(i128, u32)>)
    requires
        pair(am, a_scale).wf(),
        pair(bm, b_scale).wf(),
    ensures
        sum_is_exact(pair(am, a_scale), negated(pair(bm, b_scale))) ==> pair_of(result) == Some(
            exact_sum(pair(am, a_scale), negated(pair(bm, b_scale))),
        ),
        !sum_is_exact(pair(am, a_scale), negated(pair(bm, b_scale))) ==> pair_of(result) == as_dec(
            rounded_difference(am as int, a_scale as nat, bm as int, b_scale as nat),
        ),
        result matches Some((m, s)) ==> pair(m, s).wf(),
{
    let a = rust_decimal::Decimal::from_i128_with_scale(am, a_scale);
    let b = rust_decimal::Decimal::from_i128_with_scale(bm, b_scale);
    a.checked_sub(b).map(|d| (d.mantissa(), d.scale()))
}

/// `rust_decimal::Decimal::checked_mul`. A zero factor gives plain zero. Where
/// the product of the mantissas stays below 2^96 and the scales add up to at
/// most 28, that is the result; elsewhere it is some rounded number or `None`,
/// which only has a name here.
#[verifier::external_body]
fn decimal_mul(am: i128, a_scale: u32, bm: i128, b_scale: u32) -> (result: Option<(i128, u32)>)
    requires
        pair(am, a_scale).wf(),
        pair(bm, b_scale).wf(),
    ensures
        product_is_exact(pair(am, a_scale), pair(bm, b_scale)) ==> pair_of(result) == Some(
            exact_product(pair(am, a_scale), pair(bm, b_scale)),
        ),
        !product_is_exact(pair(am, a_scale), pair(bm, b_scale)) ==> pair_of(result) == as_dec(
            rounded_product(am as int, a_scale as nat, bm as int, b_scale as nat),
        ),
        result matches Some((m, s)) ==> pair(m, s).wf(),
{
    let a = rust_decimal::Decimal::from_i128_with_scale(am, a_scale);
    let b = rust_decimal::Decimal::from_i128_with_scale(bm, b_scale);
    a.checked_mul(b).map(|d| (d.mantissa(), d.scale()))
}

/// `rust_decimal::Decimal::checked_div`. `None` over zero, plain zero of zero;
/// otherwise the quotient at the precision that `rust_decimal` gives it, which
/// has a name here. The long division keeps an exact remainder, goes on until
/// that is zero or no further digit fits, and rounds the last digit to the
/// nearest, halves to the even one: so the result never lies beyond a number
/// that can be written from the fraction itself, and at 28 digits it is off by
/// at most half of the last.
/// There is no result only where the fraction is larger than any number.
#[verifier::external_body]
fn decimal_div(am: i128, a_scale: u32, bm: i128, b_scale: u32) -> (result: Option<(i128, u32)>)
    requires
        pair(am, a_scale).wf(),
        pair(bm, b_scale).wf(),
    ensures
        bm == 0 ==> result is None,
        am == 0 && bm != 0 ==> result == Some((0i128, 0u32)),
        am != 0 && bm != 0 ==> pair_of(result) == as_dec(
            rounded_quotient(am as int, a_scale as nat, bm as int, b_scale as nat),
        ),
        am != 0 && bm != 0 ==> (result matches Some((m, s)) ==> rounds_ratio(
            pair(am, a_scale),
            pair(bm, b_scale),
            pair(m, s),
        )),
        bm != 0 && result is None ==> size(pair(am, a_scale).value()) > (MANTISSA_LIMIT - 1) * size(
            pair(bm, b_scale).value(),
        ),
        result matches Some((m, s)) ==> pair(m, s).wf(),
{
    let a = rust_decimal::Decimal::from_i128_with_scale(am, a_scale);
    let b = rust_decimal::Decimal::from_i128_with_scale(bm, b_scale);
    a.checked_div(b).map(|d| (d.mantissa(), d.scale()))
}

/// `rust_decimal::Decimal` under `<`: the order of the values.
#[verifier::external_body]
fn decimal_lt(am: i128, a_scale: u32, bm: i128, b_scale: u32) -> (result: bool)
    requires
        pair(am, a_scale).wf(),
        pair(bm, b_scale).wf(),
    ensures
        result == pair(am, a_scale).lt(pair(bm, b_scale)),
{
    let a = rust_decimal::Decimal::from_i128_with_scale(am, a_scale);
    let b = rust_decimal::Decimal::from_i128_with_scale(bm, b_scale);
    a < b
}

/// `rust_decimal::Decimal::round_dp`: unchanged at `places` digits or fewer,
/// else the nearest number with that many, halves to the even one.
#[verifier::external_body]
fn decimal_round(m: i128, scale: u32, places: u32) -> (result: (i128, u32))
    requires
        pair(m, scale).wf(),
    ensures
        pair(result.0, result.1) == rounded(pair(m, scale), places as nat),
        pair(result.0, result.1).wf(),
{
    let d = rust_decimal::Decimal::from_i128_with_scale(m, scale).round_dp(places);
    (d.mantissa(), d.scale())
}

/// `rust_decimal::Decimal::floor`: the largest integer not above the number.
#[verifier::external_body]
fn decimal_floor(m: i128, scale: u32) -> (result: (i128, u32))
    requires
        pair(m, scale).wf(),
    ensures
        pair(result.0, result.1) == floored(pair(m, scale)),
        pair(result.0, result.1).wf(),
{
    let d = rust_decimal::Decimal::from_i128_with_scale(m, scale).floor();
    (d.mantissa(), d.scale())
}

/// A number written out plainly, as mantissa and scale: at most 28 digits, some
/// of them behind a point, after a minus sign or nothing.
pub open spec fn plain_number(text: Seq<char>) -> Option<(int, nat)> {
    if text.len() > 0 && text[0] == '-' {
        match unsigned_plain_number(text.skip(1)) {
            Some((mantissa, scale)) => Some((-mantissa, scale)),
            None => None,
        }
    } else {
        unsigned_plain_number(text)
    }
}

pub open spec fn unsigned_plain_number(text: Seq<char>) -> Option<(int, nat)> {
    let (whole, fraction) = match split_once_at(text, "."@) {
        Some((whole, fraction)) => (whole, fraction),
        None => (text, seq![]),
    };
    if 0 < whole.len() && whole.len() + fraction.len() <= 28 && all_digits(whole + fraction) && (
    fraction.len() > 0 || whole == text) {
        Some((digits_value(whole + fraction), fraction.len()))
    } else {
        None
    }
}

/// What `rust_decimal` reads any other text as, rounding digits it cannot hold,
/// or the words of its complaint.
pub uninterp spec fn other_decimal(text: Seq<char>) -> Result<(int, nat), Seq<char>>;

/// What `rust_decimal` reads any other text as, refusing digits it cannot hold,
/// or the words of its complaint.
pub uninterp spec fn other_exact_decimal(text: Seq<char>) -> Result<(int, nat), Seq<char>>;

/// A text as a decimal number, with digits that cannot be held rounded, or the
/// words of a complaint.
pub open spec fn decimal_text(text: Seq<char>) -> Result<(int, nat), Seq<char>> {
    match plain_number(text) {
        Some(number) => Ok(number),
        None => other_decimal(text),
    }
}

/// A text as a decimal number, with digits that cannot be held refused, or the
/// words of a complaint.
pub open spec fn exact_decimal_text(text: Seq<char>) -> Result<(int, nat), Seq<char>> {
    match plain_number(text) {
        Some(number) => Ok(number),
        None => other_exact_decimal(text),
    }
}

/// `rust_decimal::Decimal` from `str::parse`. A plain number is read as it
/// stands. What any other text gives, a number or an error as it is worded, only
/// has a name here.
#[verifier::external_body]
fn decimal_from_str(text: &str) -> (result: Result<(i128, u32), String>)
    ensures
        match result {
            Ok((m, s)) => pair(m, s).wf() && match plain_number(text@) {
                Some(number) => number == (m as int, s as nat),
                None => other_decimal(text@) == Ok::<(int, nat), Seq<char>>((m as int, s as nat)),
            },
            Err(message) => plain_number(text@) is None && other_decimal(text@) == Err::<
                (int, nat),
                Seq<char>,
            >(message@),
        },
{
    match text.parse::<rust_decimal::Decimal>() {
        Ok(d) => Ok((d.mantissa(), d.scale())),
        Err(error) => Err(error.to_string()),
    }
}

/// `rust_decimal::Decimal::from_str_exact`. A plain number is read as it stands.
/// What any other text gives, a number or an error as it is worded, only has a
/// name here.
#[verifier::external_body]
fn decimal_from_str_exact(text: &str) -> (result: Result<(i128, u32), String>)
    ensures
        match result {
            Ok((m, s)) => pair(m, s).wf() && match plain_number(text@) {
                Some(number) => number == (m as int, s as nat),
                None => other_exact_decimal(text@) == Ok::<(int, nat), Seq<char>>(
                    (m as int, s as nat),
                ),
            },
            Err(message) => plain_number(text@) is None && other_exact_decimal(text@) == Err::<
                (int, nat),
                Seq<char>,
            >(message@),
        },
{
    match rust_decimal::Decimal::from_str_exact(text) {
        Ok(d) => Ok((d.mantissa(), d.scale())),
        Err(error) => Err(error.to_string()),
    }
}

/// Reads a decimal, rounding digits it cannot hold.
pub fn parse_decimal(text: &str) -> (result: Result<Decimal, String>)
    ensures
        match result {
            Ok(d) => decimal_text(text@) == Ok::<(int, nat), Seq<char>>(
                (d@.mantissa, d@.scale),
            ),
            Err(message) => decimal_text(text@) == Err::<(int, nat), Seq<char>>(message@),
        },
{
    match decimal_from_str(text) {
        Ok((mantissa, scale)) => Ok(Decimal { mantissa, scale }),
        Err(message) => Err(message),
    }
}

/// Reads a decimal, refusing digits it cannot hold.
pub fn parse_exact(text: &str) -> (result: Result<Decimal, String>)
    ensures
        match result {
            Ok(d) => exact_decimal_text(text@) == Ok::<(int, nat), Seq<char>>(
                (d@.mantissa, d@.scale),
            ),
            Err(message) => exact_decimal_text(text@) == Err::<(int, nat), Seq<char>>(message@),
        },
{
    match decimal_from_str_exact(text) {
        Ok((mantissa, scale)) => Ok(Decimal { mantissa, scale }),
        Err(message) => Err(message),
    }
}

} // verus!
