//! A fair price out of many quotes: one per family, margin removed, outliers
//! dropped, medians taken.

use vstd::prelude::*;

use crate::decimal::{
    by_value, dec, dec_of, decs, difference, lemma_exact_sum, lemma_negated, lemma_pow10_max,
    lemma_quotient_at_least, lemma_quotient_at_most, lemma_quotient_sign, lemma_value_sign, median,
    median_of, minus, one, over, plus, pow10, product, quotient, sum, unit, zero, Dec, Decimal,
};
use crate::domain::{
    source_quote_views, Consensus, ConsensusPrice, Fair, FairQuote, Family, Quote, SourceQuote,
};
use crate::error::{invalid, Error, Failure};
use crate::seqs::{
    group_seqs, how_many, is_order, lemma_all_counted, lemma_count_of_front, lemma_sorted_count,
    lemma_sorted_order, sorted, take_next,
};
use crate::text::{by_text, concat2, sort_texts, texts};
use crate::time::{Timestamp, NANOS_PER_SECOND};

verus! {

broadcast use group_seqs;

/// The share of the book that a neutral outcome takes, before scaling.
pub open spec fn neutral_inverse(quote: Quote) -> Result<Dec, Failure> {
    match quote.decimal_odds_neutral {
        Some(odds) => if one().lt(odds) {
            match quotient(one(), odds) {
                Some(d) => Ok(d),
                None => Err(Failure::Overflow),
            }
        } else {
            Err(Failure::InvalidData(quote.source_id + " supplied invalid neutral odds"@))
        },
        None => Ok(zero()),
    }
}

/// A quote with the margin scaled out: each outcome by its share of the summed
/// implied probabilities, and half of a neutral outcome to either side.
pub open spec fn fair_of(quote: Quote) -> Result<Fair, Failure> {
    if quote.decimal_odds_a.le(one()) || quote.decimal_odds_b.le(one()) {
        Err(Failure::InvalidData(quote.source_id + " supplied invalid decimal odds"@))
    } else {
        let a = quotient(one(), quote.decimal_odds_a);
        let b = quotient(one(), quote.decimal_odds_b);
        if a is None || b is None {
            Err(Failure::Overflow)
        } else {
            match neutral_inverse(quote) {
                Err(f) => Err(f),
                Ok(n) => match plus(plus(a, b), Some(n)) {
                    None => Err(Failure::Overflow),
                    Some(whole) => if whole.le(zero()) {
                        Err(Failure::InvalidData("implied probability sum is zero"@))
                    } else {
                        let neutral = quotient(n, whole);
                        let side = plus(
                            over(a, Some(whole)),
                            over(neutral, Some(dec(2, 0))),
                        );
                        match (side, minus(Some(one()), side), neutral) {
                            (Some(p), Some(q), Some(k)) => Ok(
                                Fair {
                                    source_id: quote.source_id,
                                    family: quote.family,
                                    probability_a: p,
                                    probability_b: q,
                                    probability_neutral: k,
                                    source_timestamp: quote.source_timestamp,
                                },
                            ),
                            _ => Err(Failure::Overflow),
                        }
                    },
                },
            }
        }
    }
}

/// One less a number that is not negative is exact.
proof fn lemma_complement(p: Dec)
    requires
        p.wf(),
        p.mantissa >= 0,
    ensures
        difference(one(), p) matches Some(q) && p.value() + q.value() == one().value(),
{
    lemma_pow10_max();
    crate::decimal::lemma_pow10_adds(p.scale, (28 - p.scale) as nat);
    crate::decimal::lemma_pow10_positive(p.scale);
    crate::decimal::lemma_pow10_positive((28 - p.scale) as nat);
    let unit = pow10(p.scale);
    assert(unit <= pow10(28)) by (nonlinear_arith)
        requires
            unit > 0,
            pow10((28 - p.scale) as nat) > 0,
            unit * pow10((28 - p.scale) as nat) == pow10(28),
    ;
    vstd::arithmetic::power::lemma_pow0(10);
    let n = crate::decimal::negated(p);
    assert(n.at(p.scale) == n.mantissa) by (nonlinear_arith)
        requires
            n.at(p.scale) == n.mantissa * pow10(0),
            pow10(0) == 1,
    ;
    assert(one().at(p.scale) == unit) by (nonlinear_arith)
        requires
            one().at(p.scale) == 1 * pow10(p.scale),
            unit == pow10(p.scale),
    ;
    assert(crate::decimal::common_scale(one(), n) == p.scale);
    assert(crate::decimal::sum_is_exact(one(), n));
    lemma_exact_sum(one(), n);
    lemma_negated(p);
}

/// A quote whose odds are numbers that can be written.
pub open spec fn odds_written(quote: Quote) -> bool {
    &&& quote.decimal_odds_a.wf()
    &&& quote.decimal_odds_b.wf()
    &&& quote.decimal_odds_neutral matches Some(odds) ==> odds.wf()
}

/// A probability: a number that can be written, from zero to one.
pub open spec fn is_probability(p: Dec) -> bool {
    p.wf() && 0 <= p.value() <= unit()
}

pub(crate) proof fn lemma_inverse(odds: Dec)
    requires
        odds.wf(),
        one().lt(odds),
    ensures
        quotient(one(), odds) matches Some(d) ==> is_probability(d) && d.mantissa >= 0,
{
    lemma_pow10_max();
    lemma_value_sign(odds);
    lemma_value_sign(one());
    assert(one().value() == unit()) by {
        lemma_one();
    }
    let (x, u) = (odds.value(), unit());
    assert(u * u <= u * x) by (nonlinear_arith)
        requires
            u > 0,
            u < x,
    ;
    lemma_quotient_at_most(one(), odds, one());
    lemma_quotient_sign(one(), odds);
    if let Some(d) = quotient(one(), odds) {
        lemma_value_sign(d);
    }
}

proof fn lemma_one()
    ensures
        one().value() == unit(),
        one().wf(),
        one().mantissa == 1,
{
    assert(1 * pow10(28) == pow10(28)) by (nonlinear_arith);
}

/// Two probabilities, or one and the sum of two, add up exactly.
pub(crate) proof fn lemma_small_sum(a: Dec, b: Dec)
    requires
        a.wf(),
        b.wf(),
        0 <= a.value() <= 2 * unit(),
        0 <= b.value() <= unit(),
    ensures
        sum(a, b) matches Some(c) && c.value() == a.value() + b.value() && c.wf(),
{
    lemma_pow10_max();
    crate::decimal::lemma_sum_fits(a, b, 28);
    let c = crate::decimal::exact_sum(a, b);
    lemma_fits_below(c);
}

/// A number that fits at the finest scale can be written.
proof fn lemma_fits_below(c: Dec)
    requires
        c.scale <= 28,
        crate::decimal::fits(c.value()),
    ensures
        c.wf(),
{
    let p = pow10((28 - c.scale) as nat);
    crate::decimal::lemma_pow10_positive((28 - c.scale) as nat);
    let m = c.mantissa;
    assert(m >= 0 ==> m <= m * p) by (nonlinear_arith)
        requires
            p >= 1,
    ;
    assert(m <= 0 ==> m >= m * p) by (nonlinear_arith)
        requires
            p >= 1,
    ;
}

/// Two roundings of fractions that add up to at most one do so too: `p` of
/// `a / w` and `n` of `b / w`, in units of the last digit.
proof fn lemma_shares(a: int, b: int, w: int, p: int, n: int, u: int)
    requires
        0 <= a,
        0 <= b,
        a + b <= w,
        0 < w,
        u % 2 == 0,
        -w <= 2 * (p * w - a * u) <= w,
        -w <= 2 * (n * w - b * u) <= w,
        2 * (p * w - a * u) == w ==> p % 2 == 0,
        2 * (n * w - b * u) == w ==> n % 2 == 0,
        0 < u,
    ensures
        p + n <= u,
{
    if p + n > u {
        let k = p + n - u;
        assert(a * u + b * u <= w * u) by (nonlinear_arith)
            requires
                a + b <= w,
                u > 0,
        ;
        assert(k * w == p * w + n * w - u * w) by (nonlinear_arith)
            requires
                k == p + n - u,
        ;
        assert(k >= 2 ==> k * w >= 2 * w) by (nonlinear_arith)
            requires
                w > 0,
        ;
        assert(u * w == w * u) by (nonlinear_arith);
        assert(k == 1);
        assert(k * w == w) by (nonlinear_arith)
            requires
                k == 1,
        ;
    }
}

proof fn lemma_side_is_probability(a: Dec, n: Dec, whole: Dec)
    requires
        is_probability(a) && is_probability(n),
        a.mantissa >= 0 && n.mantissa >= 0,
        whole.wf(),
        whole.mantissa > 0,
        a.value() + n.value() <= whole.value(),
    ensures
        plus(quotient(a, whole), over(quotient(n, whole), Some(dec(2, 0)))) matches Some(p)
            ==> is_probability(p) && p.mantissa >= 0,
{
    lemma_pow10_max();
    lemma_value_sign(a);
    lemma_value_sign(n);
    lemma_value_sign(whole);
    crate::decimal::lemma_quotient_close(a, whole);
    crate::decimal::lemma_quotient_close(n, whole);
    if let (Some(win), Some(neutral)) = (quotient(a, whole), quotient(n, whole)) {
        let (w, u) = (whole.value(), unit());
        lemma_shares(a.value(), n.value(), w, win.value(), neutral.value(), u);
        lemma_quotient_sign(a, whole);
        lemma_quotient_sign(n, whole);
        lemma_value_sign(win);
        lemma_value_sign(neutral);
        crate::decimal::lemma_value_of(2, 0, u);
        let x = neutral.value();
        assert(x * u <= x * (2 * u)) by (nonlinear_arith)
            requires
                x >= 0,
                u > 0,
        ;
        lemma_quotient_at_most(neutral, dec(2, 0), neutral);
        lemma_quotient_sign(neutral, dec(2, 0));
        if let Some(half) = quotient(neutral, dec(2, 0)) {
            lemma_value_sign(half);
            lemma_small_sum(win, half);
            lemma_value_sign(sum(win, half)->0);
        }
    }
}

/// Removing the margin gives probabilities: both sides lie between zero and one
/// and add up to exactly one.
pub proof fn fair_prices_are_probabilities(quote: Quote)
    requires
        odds_written(quote),
    ensures
        fair_of(quote) matches Ok(f) ==> {
            &&& is_probability(f.probability_a)
            &&& 0 <= f.probability_b.value() <= unit()
            &&& f.probability_a.value() + f.probability_b.value() == unit()
        },
{
    if fair_of(quote) is Ok {
        lemma_pow10_max();
        lemma_one();
        lemma_inverse(quote.decimal_odds_a);
        lemma_inverse(quote.decimal_odds_b);
        let a = quotient(one(), quote.decimal_odds_a)->0;
        let b = quotient(one(), quote.decimal_odds_b)->0;
        let n = neutral_inverse(quote)->Ok_0;
        if let Some(odds) = quote.decimal_odds_neutral {
            lemma_inverse(odds);
        }
        lemma_value_sign(zero());
        lemma_small_sum(a, b);
        let both = sum(a, b)->0;
        lemma_small_sum(both, n);
        let whole = sum(both, n)->0;
        lemma_value_sign(whole);
        lemma_side_is_probability(a, n, whole);
        let p = fair_of(quote)->Ok_0.probability_a;
        lemma_complement(p);
    }
}

proof fn lemma_inverses_keep_order(x: Dec, y: Dec)
    requires
        x.wf() && y.wf(),
        one().lt(x),
        x.lt(y),
    ensures
        (quotient(one(), x) matches Some(a) && quotient(one(), y) matches Some(b)) ==> quotient(
            one(),
            y,
        )->0.value() <= quotient(one(), x)->0.value(),
{
    lemma_pow10_max();
    lemma_one();
    lemma_value_sign(x);
    lemma_value_sign(y);
    crate::decimal::lemma_quotient_close(one(), x);
    crate::decimal::lemma_quotient_close(one(), y);
    if let (Some(a), Some(b)) = (quotient(one(), x), quotient(one(), y)) {
        let (p, q, m, n, u) = (a.value(), b.value(), x.value(), y.value(), unit());
        lemma_order_of_shares(p, q, m, n, u);
    }
}

/// The rounding `p` of `u * u / m` is at least the rounding `q` of `u * u / n`
/// where `m` is smaller than `n`.
proof fn lemma_order_of_shares(p: int, q: int, m: int, n: int, u: int)
    requires
        0 < m < n,
        0 < u,
        -m <= 2 * (p * m - u * u) <= m,
        -n <= 2 * (q * n - u * u) <= n,
    ensures
        q <= p,
{
    if q > p {
        let s = u * u;
        assert(s > 0) by (nonlinear_arith)
            requires
                u > 0,
                s == u * u,
        ;
        assert((2 * p + 1) * m == 2 * (p * m) + m) by (nonlinear_arith);
        assert((2 * q - 1) * n == 2 * (q * n) - n) by (nonlinear_arith);
        let (x, y) = (2 * p + 1, 2 * q - 1);
        assert(x * m >= 2 * s);
        assert(y * n <= 2 * s);
        assert(x > 0) by (nonlinear_arith)
            requires
                x * m >= 2 * s,
                s > 0,
                m > 0,
        ;
        assert(y * n > x * m) by (nonlinear_arith)
            requires
                y >= x,
                x > 0,
                n > m,
                m > 0,
        ;
    }
}

/// Of two outcomes without a third, the one at shorter odds has at least the
/// probability of the other.
pub proof fn shorter_odds_are_likelier(quote: Quote)
    requires
        odds_written(quote),
        quote.decimal_odds_neutral is None,
        quote.decimal_odds_a.lt(quote.decimal_odds_b) || quote.decimal_odds_b.lt(
            quote.decimal_odds_a,
        ),
    ensures
        fair_of(quote) matches Ok(f) ==> if quote.decimal_odds_a.lt(quote.decimal_odds_b) {
            f.probability_b.le(f.probability_a)
        } else {
            f.probability_a.le(f.probability_b)
        },
{
    if fair_of(quote) is Ok {
        let (x, y) = (quote.decimal_odds_a, quote.decimal_odds_b);
        fair_prices_are_probabilities(quote);
        lemma_pow10_max();
        lemma_one();
        lemma_inverse(x);
        lemma_inverse(y);
        let a = quotient(one(), x)->0;
        let b = quotient(one(), y)->0;
        lemma_value_sign(zero());
        lemma_small_sum(a, b);
        let both = sum(a, b)->0;
        lemma_small_sum(both, zero());
        let whole = sum(both, zero())->0;
        lemma_value_sign(whole);
        lemma_value_sign(a);
        let half = dec(5, 1);
        let u = unit();
        crate::decimal::lemma_pow10_values();
        assert(half.value() == 5 * pow10(27));
        assert(2 * half.value() == u);
        let (w, h, v) = (whole.value(), half.value(), a.value());
        let win = quotient(a, whole)->0;
        assert(quotient(zero(), whole) == Some(zero()));
        assert(quotient(zero(), dec(2, 0)) == Some(zero()));
        assert(h * w * 2 == u * w) by (nonlinear_arith)
            requires
                2 * h == u,
        ;
        if x.lt(y) {
            lemma_inverses_keep_order(x, y);
            assert(v * u >= h * w) by (nonlinear_arith)
                requires
                    h * w * 2 == u * w,
                    2 * v >= w,
                    u > 0,
            ;
            lemma_quotient_at_least(a, whole, half);
        } else {
            lemma_inverses_keep_order(y, x);
            assert(v * u <= h * w) by (nonlinear_arith)
                requires
                    h * w * 2 == u * w,
                    2 * v <= w,
                    u > 0,
            ;
            lemma_quotient_at_most(a, whole, half);
        }
        lemma_small_sum(win, zero());
    }
}

/// A share `a` and half of a share `n` of a whole `w`, rounded to `win`,
/// `neutral` and `half`, against half of one: no more than a digit off.
proof fn lemma_near_half(a: int, n: int, w: int, win: int, neutral: int, half: int, u: int)
    requires
        0 < w,
        0 < u,
        u % 2 == 0,
        -w <= 2 * (win * w - a * u) <= w,
        -w <= 2 * (neutral * w - n * u) <= w,
        -1 <= 2 * half - neutral <= 1,
    ensures
        2 * a + n >= w ==> win + half >= u / 2 - 1,
        2 * a + n <= w ==> win + half <= u / 2 + 1,
{
    let p = win + half;
    let k = 2 * win + neutral;
    assert(2 * p >= k - 1 && 2 * p <= k + 1);
    assert(k * w == 2 * (win * w) + neutral * w) by (nonlinear_arith)
        requires
            k == 2 * win + neutral,
    ;
    let s = 2 * a + n;
    assert(s * u == 2 * (a * u) + n * u) by (nonlinear_arith)
        requires
            s == 2 * a + n,
    ;
    assert(2 * (k * w) >= 2 * (s * u) - 3 * w);
    assert(2 * (k * w) <= 2 * (s * u) + 3 * w);
    assert(w * u == u * w) by (nonlinear_arith);
    if s >= w {
        assert(s * u >= w * u) by (nonlinear_arith)
            requires
                s >= w,
                u > 0,
        ;
        assert(2 * k >= 2 * u - 3) by (nonlinear_arith)
            requires
                2 * (k * w) >= 2 * (w * u) - 3 * w,
                w > 0,
        ;
    }
    if s <= w {
        assert(s * u <= w * u) by (nonlinear_arith)
            requires
                s <= w,
                u > 0,
        ;
        assert(2 * k <= 2 * u + 3) by (nonlinear_arith)
            requires
                2 * (k * w) <= 2 * (w * u) + 3 * w,
                w > 0,
        ;
    }
}

/// With a neutral outcome too, the side at shorter odds has at least the
/// probability of the other, to within two units of the last digit.
pub proof fn shorter_odds_are_likelier_with_a_neutral_outcome(quote: Quote)
    requires
        odds_written(quote),
        quote.decimal_odds_a.lt(quote.decimal_odds_b) || quote.decimal_odds_b.lt(
            quote.decimal_odds_a,
        ),
    ensures
        fair_of(quote) matches Ok(f) ==> if quote.decimal_odds_a.lt(quote.decimal_odds_b) {
            f.probability_b.value() <= f.probability_a.value() + 2
        } else {
            f.probability_a.value() <= f.probability_b.value() + 2
        },
{
    if fair_of(quote) is Ok {
        let (x, y) = (quote.decimal_odds_a, quote.decimal_odds_b);
        fair_prices_are_probabilities(quote);
        lemma_pow10_max();
        lemma_one();
        lemma_inverse(x);
        lemma_inverse(y);
        let a = quotient(one(), x)->0;
        let b = quotient(one(), y)->0;
        let n = neutral_inverse(quote)->Ok_0;
        if let Some(odds) = quote.decimal_odds_neutral {
            lemma_inverse(odds);
        }
        lemma_value_sign(zero());
        lemma_small_sum(a, b);
        let both = sum(a, b)->0;
        lemma_small_sum(both, n);
        let whole = sum(both, n)->0;
        lemma_value_sign(whole);
        lemma_value_sign(a);
        lemma_value_sign(n);
        crate::decimal::lemma_quotient_close(a, whole);
        crate::decimal::lemma_quotient_close(n, whole);
        let win = quotient(a, whole)->0;
        let neutral = quotient(n, whole)->0;
        let u = unit();
        let two = dec(2, 0);
        crate::decimal::lemma_value_of(2, 0, u);
        lemma_quotient_sign(a, whole);
        lemma_quotient_sign(n, whole);
        lemma_value_sign(win);
        lemma_value_sign(neutral);
        lemma_shares(a.value(), n.value(), whole.value(), win.value(), neutral.value(), u);
        crate::decimal::lemma_quotient_close(neutral, two);
        let half = quotient(neutral, two)->0;
        let (h, v) = (half.value(), neutral.value());
        assert(-1 <= 2 * h - v <= 1) by (nonlinear_arith)
            requires
                -(2 * u) <= 2 * (h * (2 * u) - v * u) <= 2 * u,
                u > 0,
        ;
        lemma_quotient_sign(neutral, two);
        lemma_value_sign(half);
        let m = v;
        assert(m * u <= m * (2 * u)) by (nonlinear_arith)
            requires
                m >= 0,
                u > 0,
        ;
        lemma_quotient_at_most(neutral, two, neutral);
        lemma_small_sum(win, half);
        if x.lt(y) {
            lemma_inverses_keep_order(x, y);
        } else {
            lemma_inverses_keep_order(y, x);
        }
        lemma_near_half(a.value(), n.value(), whole.value(), win.value(), v, h, u);
    }
}

/// Removes the bookmaker's margin. The two sides add up to exactly one.
pub fn remove_vig(quote: &SourceQuote) -> (result: Result<FairQuote, Error>)
    ensures
        match result {
            Ok(fair) => fair_of(quote@) == Ok::<Fair, Failure>(fair@) && fair@.probability_a.value()
                + fair@.probability_b.value() == one().value() && fair@.probability_a.mantissa >= 0,
            Err(e) => fair_of(quote@) == Err::<Fair, Failure>(e@),
        },
{
    let unit = Decimal::one();
    if quote.decimal_odds_a.at_most(unit) || quote.decimal_odds_b.at_most(unit) {
        return Err(
            Error::InvalidData(
                concat2(quote.source_id.as_str(), " supplied invalid decimal odds"),
            ),
        );
    }
    proof {
        lemma_value_sign(quote.decimal_odds_a@);
        lemma_value_sign(quote.decimal_odds_b@);
        lemma_value_sign(one());
    }
    let (inverse_a, inverse_b) = match (
        unit.checked_div(quote.decimal_odds_a),
        unit.checked_div(quote.decimal_odds_b),
    ) {
        (Some(a), Some(b)) => (a, b),
        _ => {
            return Err(Error::Overflow);
        },
    };
    let inverse_neutral = match quote.decimal_odds_neutral {
        Some(odds) => {
            if unit.less(odds) {
                proof {
                    lemma_value_sign(odds@);
                }
                match unit.checked_div(odds) {
                    Some(d) => d,
                    None => {
                        return Err(Error::Overflow);
                    },
                }
            } else {
                return Err(
                    Error::InvalidData(
                        concat2(quote.source_id.as_str(), " supplied invalid neutral odds"),
                    ),
                );
            }
        },
        None => Decimal::zero(),
    };
    let both = match inverse_a.checked_add(inverse_b) {
        Some(d) => d,
        None => {
            return Err(Error::Overflow);
        },
    };
    let whole = match both.checked_add(inverse_neutral) {
        Some(d) => d,
        None => {
            return Err(Error::Overflow);
        },
    };
    if whole.at_most(Decimal::zero()) {
        return Err(invalid("implied probability sum is zero"));
    }
    proof {
        lemma_value_sign(whole@);
    }
    let (win_a, neutral) = match (inverse_a.checked_div(whole), inverse_neutral.checked_div(whole)) {
        (Some(a), Some(n)) => (a, n),
        _ => {
            return Err(Error::Overflow);
        },
    };
    let half = match neutral.checked_div(Decimal::two()) {
        Some(d) => d,
        None => {
            return Err(Error::Overflow);
        },
    };
    let probability_a = match win_a.checked_add(half) {
        Some(d) => d,
        None => {
            return Err(Error::Overflow);
        },
    };
    proof {
        lemma_complement(probability_a@);
    }
    let probability_b = match unit.checked_sub(probability_a) {
        Some(d) => d,
        None => {
            return Err(Error::Overflow);
        },
    };
    Ok(
        FairQuote {
            source_id: quote.source_id.clone(),
            family: quote.family.clone(),
            probability_a,
            probability_b,
            probability_neutral: neutral,
            source_timestamp: quote.source_timestamp,
        },
    )
}

/// How far ahead of the clock a quote may be dated: half a minute.
pub const QUOTE_CLOCK_SKEW_NANOS: i128 = 30_000_000_000;

/// A quote that may count: not for validation only, observed inside the window
/// and not from the future.
pub open spec fn usable(quote: Quote, max_age_seconds: int, now: int) -> bool {
    &&& !quote.validation_only
    &&& quote.fetched_at >= now - max_age_seconds * NANOS_PER_SECOND
    &&& quote.fetched_at <= now + QUOTE_CLOCK_SKEW_NANOS
    &&& quote.source_timestamp <= now + QUOTE_CLOCK_SKEW_NANOS
}

/// Observed later, or moved later when observed together.
pub open spec fn newer(a: Quote, b: Quote) -> bool {
    a.fetched_at > b.fetched_at || (a.fetched_at == b.fetched_at && a.source_timestamp
        > b.source_timestamp)
}

/// Where a family stands in a list, from the front.
pub open spec fn family_at(quotes: Seq<Quote>, family: Family, from: int) -> Option<int>
    decreases quotes.len() - from,
{
    if from >= quotes.len() {
        None
    } else if quotes[from].family == family {
        Some(from)
    } else {
        family_at(quotes, family, from + 1)
    }
}

/// The list with a quote put in: in the place of its family's if it is newer,
/// behind the others if its family is not there yet.
pub open spec fn admitted(kept: Seq<Quote>, quote: Quote) -> Seq<Quote> {
    match family_at(kept, quote.family, 0) {
        Some(at) => if newer(quote, kept[at]) {
            kept.update(at, quote)
        } else {
            kept
        },
        None => kept.push(quote),
    }
}

/// The newest usable quote of each family, in the order in which the families
/// first come.
pub open spec fn newest(quotes: Seq<Quote>, max_age_seconds: int, now: int) -> Seq<Quote>
    decreases quotes.len(),
{
    if quotes.len() == 0 {
        seq![]
    } else {
        let kept = newest(quotes.drop_last(), max_age_seconds, now);
        if usable(quotes.last(), max_age_seconds, now) {
            admitted(kept, quotes.last())
        } else {
            kept
        }
    }
}

proof fn lemma_family_at(quotes: Seq<Quote>, family: Family, from: int)
    requires
        0 <= from,
    ensures
        match family_at(quotes, family, from) {
            Some(at) => from <= at < quotes.len() && quotes[at].family == family,
            None => forall|i: int| from <= i < quotes.len() ==> (#[trigger] quotes[i]).family
                != family,
        },
    decreases quotes.len() - from,
{
    if from < quotes.len() && quotes[from].family != family {
        lemma_family_at(quotes, family, from + 1);
    }
}

/// No family speaks twice.
pub open spec fn families_distinct(quotes: Seq<Quote>) -> bool {
    forall|i: int, j: int|
        0 <= i < j < quotes.len() ==> (#[trigger] quotes[i]).family != (
        #[trigger] quotes[j]).family
}

/// Every family that has a usable quote speaks with one that is not older.
pub open spec fn newest_wins(kept: Seq<Quote>, quotes: Seq<Quote>, age: int, now: int) -> bool {
    forall|i: int|
        0 <= i < quotes.len() && usable(#[trigger] quotes[i], age, now) ==> exists|k: int|
            0 <= k < kept.len() && (#[trigger] kept[k]).family == quotes[i].family && !newer(
                quotes[i],
                kept[k],
            )
}

/// Independent evidence: several quotes of one family count once, each family
/// speaks with the newest of its usable quotes, and nothing stale, future or
/// meant for validation only speaks at all.
pub proof fn one_voice_per_family(quotes: Seq<Quote>, age: int, now: int)
    ensures
        families_distinct(newest(quotes, age, now)),
        newest_wins(newest(quotes, age, now), quotes, age, now),
        forall|k: int|
            0 <= k < newest(quotes, age, now).len() ==> usable(
                #[trigger] newest(quotes, age, now)[k],
                age,
                now,
            ) && quotes.contains(newest(quotes, age, now)[k]),
    decreases quotes.len(),
{
    if quotes.len() > 0 {
        let front = quotes.drop_last();
        let quote = quotes.last();
        let kept = newest(front, age, now);
        let out = newest(quotes, age, now);
        one_voice_per_family(front, age, now);
        lemma_family_at(kept, quote.family, 0);
        assert forall|k: int| 0 <= k < kept.len() implies quotes.contains(#[trigger] kept[k]) by {
            assert(front.contains(kept[k]));
            let i = choose|i: int| 0 <= i < front.len() && front[i] == kept[k];
            assert(quotes[i] == kept[k]);
        }
        assert(quotes[quotes.len() - 1] == quote);
        assert(quotes.contains(quote));
        if usable(quote, age, now) {
            assert(families_distinct(out)) by {
                assert forall|i: int, j: int| 0 <= i < j < out.len() implies (
                #[trigger] out[i]).family != (#[trigger] out[j]).family by {
                    if j < kept.len() {
                        assert(kept[i].family != kept[j].family);
                    }
                }
            }
            assert forall|i: int|
                0 <= i < quotes.len() && usable(#[trigger] quotes[i], age, now) implies exists|k: int|
                0 <= k < out.len() && (#[trigger] out[k]).family == quotes[i].family && !newer(
                    quotes[i],
                    out[k],
                ) by {
                if i < front.len() {
                    assert(front[i] == quotes[i]);
                    let k = choose|k: int|
                        0 <= k < kept.len() && (#[trigger] kept[k]).family == front[i].family
                            && !newer(front[i], kept[k]);
                    assert(out[k].family == quotes[i].family && !newer(quotes[i], out[k]));
                } else {
                    match family_at(kept, quote.family, 0) {
                        Some(at) => {
                            assert(out[at].family == quote.family && !newer(quote, out[at]));
                        },
                        None => {
                            assert(out[kept.len() as int] == quote);
                            assert(out[kept.len() as int].family == quote.family && !newer(
                                quote,
                                out[kept.len() as int],
                            ));
                        },
                    }
                }
            }
        } else {
            assert forall|i: int|
                0 <= i < quotes.len() && usable(#[trigger] quotes[i], age, now) implies exists|k: int|
                0 <= k < out.len() && (#[trigger] out[k]).family == quotes[i].family && !newer(
                    quotes[i],
                    out[k],
                ) by {
                assert(front[i] == quotes[i]);
            }
        }
    }
}

/// Every quote without its margin, or the first complaint about one.
pub open spec fn all_fair(quotes: Seq<Quote>) -> Result<Seq<Fair>, Failure>
    decreases quotes.len(),
{
    if quotes.len() == 0 {
        Ok(seq![])
    } else {
        match all_fair(quotes.drop_last()) {
            Err(f) => Err(f),
            Ok(done) => match fair_of(quotes.last()) {
                Ok(fair) => Ok(done.push(fair)),
                Err(f) => Err(f),
            },
        }
    }
}

pub open spec fn sides_a(fair: Seq<Fair>) -> Seq<Dec> {
    fair.map_values(|f: Fair| f.probability_a)
}

pub open spec fn sides_b(fair: Seq<Fair>) -> Seq<Dec> {
    fair.map_values(|f: Fair| f.probability_b)
}

pub open spec fn neutrals(fair: Seq<Fair>) -> Seq<Dec> {
    fair.map_values(|f: Fair| f.probability_neutral)
}

/// How far a number lies from a center.
pub open spec fn deviation(value: Dec, center: Dec) -> Option<Dec> {
    match difference(value, center) {
        Some(d) => Some(d.abs()),
        None => None,
    }
}

/// How far each number lies from a center; nothing on overflow.
pub open spec fn deviations(values: Seq<Dec>, center: Dec) -> Option<Seq<Dec>>
    decreases values.len(),
{
    if values.len() == 0 {
        Some(seq![])
    } else {
        match (deviations(values.drop_last(), center), deviation(values.last(), center)) {
            (Some(done), Some(d)) => Some(done.push(d)),
            _ => None,
        }
    }
}

/// The median absolute deviation from a center.
pub open spec fn spread(values: Seq<Dec>, center: Dec) -> Option<Dec> {
    match deviations(values, center) {
        Some(ds) => median(ds),
        None => None,
    }
}

/// How far a price may lie from the center: three times the spread, and never
/// less than two and a half percentage points.
pub open spec fn outlier_limit(spread: Dec) -> Option<Dec> {
    match product(spread, dec(3, 0)) {
        Some(d) => Some(d.max(dec(25, 3))),
        None => None,
    }
}

/// The prices no farther from the center than the limit.
pub open spec fn inliers(fair: Seq<Fair>, center: Dec, limit: Dec) -> Option<Seq<Fair>>
    decreases fair.len(),
{
    if fair.len() == 0 {
        Some(seq![])
    } else {
        match (
            inliers(fair.drop_last(), center, limit),
            deviation(fair.last().probability_a, center),
        ) {
            (Some(kept), Some(d)) => if d.le(limit) {
                Some(kept.push(fair.last()))
            } else {
                Some(kept)
            },
            _ => None,
        }
    }
}

/// The latest move among the prices.
pub open spec fn latest_move(fair: Seq<Fair>) -> int
    decreases fair.len(),
{
    if fair.len() <= 1 {
        fair[0].source_timestamp
    } else {
        let before = latest_move(fair.drop_last());
        if before >= fair.last().source_timestamp {
            before
        } else {
            fair.last().source_timestamp
        }
    }
}

pub open spec fn any_reference(fair: Seq<Fair>) -> bool {
    exists|i: int| 0 <= i < fair.len() && (#[trigger] fair[i]).family.reference()
}

/// What the prices that are left agree on.
pub open spec fn agreed(fair: Seq<Fair>) -> Option<Consensus> {
    match median(sides_a(fair)) {
        None => None,
        Some(p) => match (median(sides_b(fair)), median(neutrals(fair)), spread(sides_a(fair), p)) {
            (Some(q), Some(n), Some(d)) => Some(
                Consensus {
                    probability_a: p,
                    probability_b: q,
                    probability_neutral: n,
                    dispersion_a: d,
                    family_count: fair.len(),
                    has_reference: any_reference(fair),
                    source_ids: sorted(fair.map_values(|f: Fair| f.source_id), by_text()),
                    newest_source_timestamp: latest_move(fair),
                },
            ),
            _ => None,
        },
    }
}

/// The prices that are left once outliers are gone; nothing on overflow.
pub open spec fn without_outliers(fair: Seq<Fair>) -> Option<Seq<Fair>> {
    match median(sides_a(fair)) {
        None => None,
        Some(center) => match spread(sides_a(fair), center) {
            None => None,
            Some(mad) => match outlier_limit(mad) {
                None => None,
                Some(limit) => inliers(fair, center, limit),
            },
        },
    }
}

/// The consensus of the newest usable quotes, one per family, or what stands
/// in its way.
pub open spec fn consensus_of(quotes: Seq<Quote>, max_age_seconds: int, now: int) -> Result<
    Consensus,
    Failure,
> {
    match all_fair(newest(quotes, max_age_seconds, now)) {
        Err(f) => Err(f),
        Ok(fair) => if fair.len() == 0 {
            Err(Failure::InvalidData("no fresh independent quotes"@))
        } else {
            match without_outliers(fair) {
                None => Err(Failure::Overflow),
                Some(kept) => if kept.len() == 0 {
                    Err(Failure::InvalidData("all quotes rejected as outliers"@))
                } else {
                    match agreed(kept) {
                        Some(consensus) => Ok(consensus),
                        None => Err(Failure::Overflow),
                    }
                },
            }
        },
    }
}

pub open spec fn fairs(items: Seq<FairQuote>) -> Seq<Fair> {
    items.map_values(|f: FairQuote| f@)
}

/// The newest usable quote of each family, by index.
fn pick_newest(quotes: &Vec<SourceQuote>, max_age_seconds: i64, now: Timestamp) -> (result: Vec<
    usize,
>)
    ensures
        forall|k: int| 0 <= k < result@.len() ==> (#[trigger] result@[k]) < quotes@.len(),
        picked(quotes@, result@) == newest(
            source_quote_views(quotes@),
            max_age_seconds as int,
            now@,
        ),
{
    let clock: i128 = now.nanos();
    let cutoff: i128 = clock - max_age_seconds as i128 * NANOS_PER_SECOND;
    let future: i128 = clock + QUOTE_CLOCK_SKEW_NANOS;
    let mut kept: Vec<usize> = Vec::new();
    let mut i: usize = 0;
    assert(picked(quotes@, kept@) =~= newest(
        source_quote_views(quotes@.take(0)),
        max_age_seconds as int,
        now@,
    ));
    while i < quotes.len()
        invariant
            i <= quotes@.len(),
            clock == now@,
            cutoff == clock - max_age_seconds * NANOS_PER_SECOND,
            future == clock + QUOTE_CLOCK_SKEW_NANOS,
            forall|k: int| 0 <= k < kept@.len() ==> (#[trigger] kept@[k]) < i,
            picked(quotes@, kept@) == newest(
                source_quote_views(quotes@.take(i as int)),
                max_age_seconds as int,
                now@,
            ),
        decreases quotes@.len() - i,
    {
        let quote: &SourceQuote = &quotes[i];
        let ghost more = source_quote_views(quotes@.take(i + 1));
        proof {
            take_next(quotes@, i as int);
            assert(more.drop_last() =~= source_quote_views(quotes@.take(i as int)));
        }
        let fetched: i128 = quote.fetched_at.nanos();
        let moved: i128 = quote.source_timestamp.nanos();
        if !quote.validation_only && fetched >= cutoff && fetched <= future && moved <= future {
            let mut k: usize = 0;
            let ghost list = picked(quotes@, kept@);
            while k < kept.len() && quotes[kept[k]].family != quote.family
                invariant
                    i < quotes@.len(),
                    *quote == quotes@[i as int],
                    list == picked(quotes@, kept@),
                    k <= kept@.len(),
                    forall|k: int| 0 <= k < kept@.len() ==> (#[trigger] kept@[k]) < i,
                    family_at(list, quote@.family, 0) == family_at(list, quote@.family, k as int),
                decreases kept@.len() - k,
            {
                k = k + 1;
            }
            if k < kept.len() {
                assert(list[k as int] == quotes@[kept@[k as int] as int]@);
                let current: &SourceQuote = &quotes[kept[k]];
                let at: i128 = current.fetched_at.nanos();
                let at_moved: i128 = current.source_timestamp.nanos();
                if fetched > at || (fetched == at && moved > at_moved) {
                    kept.set(k, i);
                    assert(picked(quotes@, kept@) =~= list.update(k as int, quote@));
                }
            } else {
                kept.push(i);
            }
        }
        i = i + 1;
    }
    kept
}

/// The quotes at some places of a list.
spec fn picked(quotes: Seq<SourceQuote>, places: Seq<usize>) -> Seq<Quote> {
    places.map_values(|k: usize| quotes[k as int]@)
}

proof fn lemma_fair_stays_wrong(quotes: Seq<Quote>, at: int)
    requires
        0 <= at <= quotes.len(),
        all_fair(quotes.take(at)) is Err,
    ensures
        all_fair(quotes) == all_fair(quotes.take(at)),
    decreases quotes.len() - at,
{
    if at < quotes.len() {
        take_next(quotes, at);
        lemma_fair_stays_wrong(quotes, at + 1);
    }
}

fn remove_all_vig(quotes: &Vec<SourceQuote>, places: &Vec<usize>) -> (result: Result<
    Vec<FairQuote>,
    Error,
>)
    requires
        forall|k: int| 0 <= k < places@.len() ==> (#[trigger] places@[k]) < quotes@.len(),
    ensures
        match result {
            Ok(fair) => all_fair(picked(quotes@, places@)) == Ok::<Seq<Fair>, Failure>(
                fairs(fair@),
            ),
            Err(e) => all_fair(picked(quotes@, places@)) == Err::<Seq<Fair>, Failure>(e@),
        },
{
    let mut out: Vec<FairQuote> = Vec::new();
    let mut k: usize = 0;
    let ghost list = picked(quotes@, places@);
    assert(fairs(out@) =~= seq![]);
    while k < places.len()
        invariant
            k <= places@.len(),
            list == picked(quotes@, places@),
            forall|k: int| 0 <= k < places@.len() ==> (#[trigger] places@[k]) < quotes@.len(),
            all_fair(list.take(k as int)) == Ok::<Seq<Fair>, Failure>(fairs(out@)),
        decreases places@.len() - k,
    {
        proof {
            take_next(list, k as int);
        }
        match remove_vig(&quotes[places[k]]) {
            Ok(fair) => {
                out.push(fair);
            },
            Err(e) => {
                proof {
                    lemma_fair_stays_wrong(list, k + 1);
                }
                return Err(e);
            },
        }
        k = k + 1;
    }
    Ok(out)
}

/// Which of a fair quote's numbers is meant.
#[derive(Clone, Copy)]
enum Outcome {
    A,
    B,
    Neutral,
}

fn column(fair: &Vec<FairQuote>, outcome: Outcome) -> (result: Vec<Decimal>)
    ensures
        decs(result@) == match outcome {
            Outcome::A => sides_a(fairs(fair@)),
            Outcome::B => sides_b(fairs(fair@)),
            Outcome::Neutral => neutrals(fairs(fair@)),
        },
{
    let mut out: Vec<Decimal> = Vec::new();
    let mut i: usize = 0;
    while i < fair.len()
        invariant
            i <= fair@.len(),
            out@.len() == i,
            forall|j: int|
                0 <= j < i ==> (#[trigger] out@[j])@ == match outcome {
                    Outcome::A => fair@[j]@.probability_a,
                    Outcome::B => fair@[j]@.probability_b,
                    Outcome::Neutral => fair@[j]@.probability_neutral,
                },
        decreases fair@.len() - i,
    {
        let value = match outcome {
            Outcome::A => fair[i].probability_a,
            Outcome::B => fair[i].probability_b,
            Outcome::Neutral => fair[i].probability_neutral,
        };
        out.push(value);
        i = i + 1;
    }
    proof {
        match outcome {
            Outcome::A => assert(decs(out@) =~= sides_a(fairs(fair@))),
            Outcome::B => assert(decs(out@) =~= sides_b(fairs(fair@))),
            Outcome::Neutral => assert(decs(out@) =~= neutrals(fairs(fair@))),
        }
    }
    out
}

proof fn lemma_deviations_stay_missing(values: Seq<Dec>, center: Dec, at: int)
    requires
        0 <= at <= values.len(),
        deviations(values.take(at), center) is None,
    ensures
        deviations(values, center) is None,
    decreases values.len() - at,
{
    if at < values.len() {
        take_next(values, at);
        lemma_deviations_stay_missing(values, center, at + 1);
    }
}

/// The median absolute deviation from a center; `None` on overflow.
fn spread_of(values: &Vec<Decimal>, center: Decimal) -> (result: Option<Decimal>)
    ensures
        dec_of(result) == spread(decs(values@), center@),
{
    let mut out: Vec<Decimal> = Vec::new();
    let mut i: usize = 0;
    let ghost list = decs(values@);
    assert(decs(out@) =~= seq![]);
    while i < values.len()
        invariant
            i <= values@.len(),
            list == decs(values@),
            deviations(list.take(i as int), center@) == Some(decs(out@)),
        decreases values@.len() - i,
    {
        proof {
            take_next(list, i as int);
        }
        match values[i].checked_sub(center) {
            Some(d) => {
                out.push(d.abs());
            },
            None => {
                proof {
                    lemma_deviations_stay_missing(list, center@, i + 1);
                }
                return None;
            },
        }
        i = i + 1;
    }
    median_of(out)
}

proof fn lemma_inliers_stay_missing(fair: Seq<Fair>, center: Dec, limit: Dec, at: int)
    requires
        0 <= at <= fair.len(),
        inliers(fair.take(at), center, limit) is None,
    ensures
        inliers(fair, center, limit) is None,
    decreases fair.len() - at,
{
    if at < fair.len() {
        take_next(fair, at);
        lemma_inliers_stay_missing(fair, center, limit, at + 1);
    }
}

fn keep_inliers(fair: &Vec<FairQuote>, center: Decimal, limit: Decimal) -> (result: Option<
    Vec<FairQuote>,
>)
    ensures
        match result {
            Some(kept) => inliers(fairs(fair@), center@, limit@) == Some(fairs(kept@)),
            None => inliers(fairs(fair@), center@, limit@) is None,
        },
{
    let mut out: Vec<FairQuote> = Vec::new();
    let mut i: usize = 0;
    let ghost list = fairs(fair@);
    assert(fairs(out@) =~= seq![]);
    while i < fair.len()
        invariant
            i <= fair@.len(),
            list == fairs(fair@),
            inliers(list.take(i as int), center@, limit@) == Some(fairs(out@)),
        decreases fair@.len() - i,
    {
        proof {
            take_next(list, i as int);
        }
        match fair[i].probability_a.checked_sub(center) {
            Some(d) => {
                if d.abs().at_most(limit) {
                    out.push(fair[i].clone());
                }
            },
            None => {
                proof {
                    lemma_inliers_stay_missing(list, center@, limit@, i + 1);
                }
                return None;
            },
        }
        i = i + 1;
    }
    Some(out)
}

/// Drops the prices too far from the median; `None` on overflow.
fn drop_outliers(fair: &Vec<FairQuote>) -> (result: Option<Vec<FairQuote>>)
    ensures
        match result {
            Some(kept) => without_outliers(fairs(fair@)) == Some(fairs(kept@)),
            None => without_outliers(fairs(fair@)) is None,
        },
{
    let values = column(fair, Outcome::A);
    let center = median_of(column(fair, Outcome::A))?;
    let mad = spread_of(&values, center)?;
    let tripled = mad.checked_mul(Decimal::new(3, 0))?;
    let limit = tripled.max(Decimal::new(25, 3));
    keep_inliers(fair, center, limit)
}

/// What the prices agree on; `None` on overflow.
fn agree(fair: &Vec<FairQuote>) -> (result: Option<ConsensusPrice>)
    requires
        fair@.len() > 0,
    ensures
        match result {
            Some(consensus) => agreed(fairs(fair@)) == Some(consensus@),
            None => agreed(fairs(fair@)) is None,
        },
{
    let values = column(fair, Outcome::A);
    let probability_a = median_of(column(fair, Outcome::A))?;
    let probability_b = median_of(column(fair, Outcome::B))?;
    let probability_neutral = median_of(column(fair, Outcome::Neutral))?;
    let dispersion_a = spread_of(&values, probability_a)?;
    let mut newest_source_timestamp = fair[0].source_timestamp;
    let mut has_reference = fair[0].family.is_reference();
    let mut ids: Vec<String> = Vec::new();
    ids.push(fair[0].source_id.clone());
    let ghost list = fairs(fair@);
    let mut i: usize = 1;
    proof {
        take_next(list, 0);
        assert(list.take(1)[0] == list[0]);
    }
    assert(texts(ids@) =~= list.take(1).map_values(|f: Fair| f.source_id));
    while i < fair.len()
        invariant
            1 <= i <= fair@.len(),
            list == fairs(fair@),
            newest_source_timestamp@ == latest_move(list.take(i as int)),
            has_reference == exists|j: int|
                0 <= j < i && (#[trigger] list[j]).family.reference(),
            texts(ids@) == list.take(i as int).map_values(|f: Fair| f.source_id),
        decreases fair@.len() - i,
    {
        proof {
            take_next(list, i as int);
        }
        assert(list[i as int] == fair@[i as int]@);
        newest_source_timestamp = newest_source_timestamp.later(fair[i].source_timestamp);
        if fair[i].family.is_reference() {
            has_reference = true;
        }
        ids.push(fair[i].source_id.clone());
        i = i + 1;
    }
    let source_ids = sort_texts(ids);
    Some(
        ConsensusPrice {
            probability_a,
            probability_b,
            probability_neutral,
            dispersion_a,
            family_count: fair.len(),
            has_reference,
            source_ids,
            newest_source_timestamp,
        },
    )
}

/// Builds a robust consensus from the quotes observed within
/// `max_quote_age_seconds` of `now`. Freshness is judged by when a quote was
/// last seen; when the book last moved it only breaks ties, because an unmoved
/// line is still a live price.
pub fn build_consensus(
    quotes: &Vec<SourceQuote>,
    max_quote_age_seconds: i64,
    now: Timestamp,
) -> (result: Result<ConsensusPrice, Error>)
    ensures
        match result {
            Ok(consensus) => consensus_of(
                source_quote_views(quotes@),
                max_quote_age_seconds as int,
                now@,
            ) == Ok::<Consensus, Failure>(consensus@),
            Err(e) => consensus_of(
                source_quote_views(quotes@),
                max_quote_age_seconds as int,
                now@,
            ) == Err::<Consensus, Failure>(e@),
        },
{
    let places = pick_newest(quotes, max_quote_age_seconds, now);
    let fair = match remove_all_vig(quotes, &places) {
        Ok(fair) => fair,
        Err(e) => {
            return Err(e);
        },
    };
    if fair.len() == 0 {
        return Err(invalid("no fresh independent quotes"));
    }
    let kept = match drop_outliers(&fair) {
        Some(kept) => kept,
        None => {
            return Err(Error::Overflow);
        },
    };
    if kept.len() == 0 {
        return Err(invalid("all quotes rejected as outliers"));
    }
    match agree(&kept) {
        Some(consensus) => Ok(consensus),
        None => Err(Error::Overflow),
    }
}

proof fn lemma_fair_len(quotes: Seq<Quote>)
    ensures
        all_fair(quotes) matches Ok(fair) ==> fair.len() == quotes.len() && forall|i: int|
            0 <= i < fair.len() ==> (#[trigger] fair[i]).family == quotes[i].family,
    decreases quotes.len(),
{
    if quotes.len() > 0 {
        lemma_fair_len(quotes.drop_last());
    }
}

pub(crate) proof fn lemma_inliers_len(fair: Seq<Fair>, center: Dec, limit: Dec)
    ensures
        inliers(fair, center, limit) matches Some(kept) ==> kept.len() <= fair.len() && forall|i: int|
            0 <= i < kept.len() ==> fair.contains(#[trigger] kept[i]),
    decreases fair.len(),
{
    if fair.len() > 0 {
        let front = fair.drop_last();
        lemma_inliers_len(front, center, limit);
        if let Some(kept) = inliers(front, center, limit) {
            assert forall|i: int| 0 <= i < kept.len() implies fair.contains(#[trigger] kept[i]) by {
                assert(front.contains(kept[i]));
                let j = choose|j: int| 0 <= j < front.len() && front[j] == kept[i];
                assert(fair[j] == kept[i]);
            }
            assert(fair[fair.len() - 1] == fair.last());
        }
    }
}

/// The quorum cannot be inflated: a consensus counts at least one family, at
/// most as many as have a usable quote, lists one source for each, and claims
/// a reference book only where a reference family has a usable quote.
pub proof fn quorum_counts_families_once(quotes: Seq<Quote>, age: int, now: int)
    ensures
        consensus_of(quotes, age, now) matches Ok(c) ==> {
            &&& 1 <= c.family_count <= newest(quotes, age, now).len()
            &&& c.source_ids.len() == c.family_count
            &&& c.has_reference ==> exists|i: int|
                0 <= i < quotes.len() && (#[trigger] quotes[i]).family.reference() && usable(
                    quotes[i],
                    age,
                    now,
                )
        },
{
    let kept_quotes = newest(quotes, age, now);
    lemma_fair_len(kept_quotes);
    one_voice_per_family(quotes, age, now);
    if let Ok(fair) = all_fair(kept_quotes) {
        if let Some(center) = median(sides_a(fair)) {
            if let Some(mad) = spread(sides_a(fair), center) {
                if let Some(limit) = outlier_limit(mad) {
                    lemma_inliers_len(fair, center, limit);
                    if let Some(kept) = inliers(fair, center, limit) {
                        crate::seqs::lemma_sorted_keeps(
                            kept.map_values(|f: Fair| f.source_id),
                            by_text(),
                        );
                        if any_reference(kept) {
                            let i = choose|i: int|
                                0 <= i < kept.len() && (#[trigger] kept[i]).family.reference();
                            assert(fair.contains(kept[i]));
                            let j = choose|j: int| 0 <= j < fair.len() && fair[j] == kept[i];
                            assert(fair[j].family == kept_quotes[j].family);
                            assert(quotes.contains(kept_quotes[j]));
                            let k = choose|k: int| 0 <= k < quotes.len() && quotes[k] == kept_quotes[j];
                            assert(quotes[k].family.reference() && usable(quotes[k], age, now));
                        }
                    }
                }
            }
        }
    }
}

/// Whether each number is a probability.
pub open spec fn all_probabilities(values: Seq<Dec>) -> bool {
    forall|i: int| 0 <= i < values.len() ==> is_probability(#[trigger] values[i])
}

proof fn lemma_by_value_is_order()
    ensures
        is_order(by_value()),
{
}

/// The median of probabilities is one, and at least half of them are at most
/// as large.
proof fn lemma_median(values: Seq<Dec>)
    requires
        all_probabilities(values),
    ensures
        median(values) matches Some(m) ==> is_probability(m) && 2 * how_many(
            values,
            |d: Dec| d.le(m),
        ) >= values.len(),
{
    if let Some(m) = median(values) {
        let ordered = sorted(values, by_value());
        let p = |d: Dec| d.le(m);
        let fine = |d: Dec| is_probability(d);
        lemma_count_of_front(values, values.len() as int, fine);
        lemma_all_counted(values, fine);
        lemma_sorted_count(values, by_value(), fine);
        lemma_all_counted(ordered, fine);
        lemma_sorted_count(values, by_value(), p);
        lemma_by_value_is_order();
        lemma_sorted_order(values, by_value());
        let middle = values.len() as int / 2;
        assert(fine(ordered[middle]));
        let reach = if values.len() % 2 == 0 {
            let (x, y) = (ordered[middle - 1], ordered[middle]);
            assert(fine(x));
            assert(!by_value()(y, x));
            lemma_mean(x, y);
            middle - 1
        } else {
            middle
        };
        assert forall|i: int| 0 <= i < reach + 1 implies p(#[trigger] ordered[i]) by {
            if i < reach {
                assert(!by_value()(ordered[reach], ordered[i]));
            }
        }
        lemma_count_of_front(ordered, reach + 1, p);
    }
}

/// The mean of two probabilities is one and not below the smaller.
proof fn lemma_mean(x: Dec, y: Dec)
    requires
        is_probability(x),
        is_probability(y),
        x.le(y),
    ensures
        over(sum(x, y), Some(dec(2, 0))) matches Some(m) ==> is_probability(m) && x.le(m),
{
    lemma_pow10_max();
    lemma_one();
    lemma_small_sum(x, y);
    let s = sum(x, y)->0;
    let u = unit();
    crate::decimal::lemma_value_of(2, 0, u);
    let two = dec(2, 0);
    let (a, b) = (x.value(), s.value());
    assert(b * u >= a * (2 * u)) by (nonlinear_arith)
        requires
            b >= 2 * a,
            u > 0,
    ;
    assert(b * u <= u * (2 * u)) by (nonlinear_arith)
        requires
            b <= 2 * u,
            u > 0,
    ;
    lemma_quotient_at_least(s, two, x);
    lemma_quotient_at_most(s, two, one());
}

pub(crate) proof fn lemma_deviation(value: Dec, center: Dec)
    requires
        is_probability(value),
        is_probability(center),
    ensures
        deviation(value, center) matches Some(d) && is_probability(d),
{
    lemma_pow10_max();
    lemma_negated(center);
    let n = crate::decimal::negated(center);
    crate::decimal::lemma_sum_fits(value, n, 28);
    let c = crate::decimal::exact_sum(value, n);
    lemma_fits_below(c);
    lemma_negated(c);
    lemma_value_sign(c);
}

pub(crate) proof fn lemma_deviations(values: Seq<Dec>, center: Dec)
    requires
        all_probabilities(values),
        is_probability(center),
    ensures
        deviations(values, center) matches Some(ds) && ds.len() == values.len()
            && all_probabilities(ds) && forall|i: int|
            0 <= i < ds.len() ==> Some(#[trigger] ds[i]) == deviation(values[i], center),
    decreases values.len(),
{
    if values.len() > 0 {
        let front = values.drop_last();
        assert forall|i: int| 0 <= i < front.len() implies is_probability(#[trigger] front[i]) by {
            assert(front[i] == values[i]);
        }
        assert(is_probability(values[values.len() - 1]));
        lemma_deviations(front, center);
        lemma_deviation(values.last(), center);
    }
}

proof fn lemma_inliers_count(fair: Seq<Fair>, center: Dec, limit: Dec, ds: Seq<Dec>)
    requires
        ds.len() == fair.len(),
        forall|i: int|
            0 <= i < ds.len() ==> Some(#[trigger] ds[i]) == deviation(
                fair[i].probability_a,
                center,
            ),
    ensures
        inliers(fair, center, limit) matches Some(kept) && kept.len() == how_many(
            ds,
            |d: Dec| d.le(limit),
        ),
    decreases fair.len(),
{
    if fair.len() > 0 {
        let (front, rest) = (fair.drop_last(), ds.drop_last());
        assert forall|i: int| 0 <= i < rest.len() implies Some(#[trigger] rest[i]) == deviation(
            front[i].probability_a,
            center,
        ) by {
            assert(rest[i] == ds[i]);
        }
        assert(Some(ds[ds.len() - 1]) == deviation(fair.last().probability_a, center));
        lemma_inliers_count(front, center, limit, rest);
    }
}

proof fn lemma_more_within(ds: Seq<Dec>, low: Dec, high: Dec)
    requires
        low.le(high),
    ensures
        how_many(ds, |d: Dec| d.le(low)) <= how_many(ds, |d: Dec| d.le(high)),
    decreases ds.len(),
{
    if ds.len() > 0 {
        lemma_more_within(ds.drop_last(), low, high);
    }
}

proof fn lemma_limit(mad: Dec)
    requires
        is_probability(mad),
    ensures
        outlier_limit(mad) matches Some(limit) && mad.le(limit),
{
    lemma_pow10_max();
    let p = crate::decimal::pow10((28 - mad.scale) as nat);
    crate::decimal::lemma_pow10_positive((28 - mad.scale) as nat);
    let m = mad.mantissa;
    lemma_value_sign(mad);
    assert(m <= m * p) by (nonlinear_arith)
        requires
            p >= 1,
            m >= 0,
    ;
    let three = dec(m * 3, mad.scale);
    assert(m * 3 * p == 3 * (m * p)) by (nonlinear_arith);
}

/// Dropping outliers never leaves fewer than half of the prices.
pub proof fn most_prices_stay(fair: Seq<Fair>)
    requires
        all_probabilities(sides_a(fair)),
    ensures
        without_outliers(fair) matches Some(kept) ==> 2 * kept.len() >= fair.len(),
{
    let values = sides_a(fair);
    if let Some(center) = median(values) {
        lemma_median(values);
        lemma_deviations(values, center);
        let ds = deviations(values, center)->0;
        if let Some(mad) = median(ds) {
            lemma_median(ds);
            lemma_limit(mad);
            let limit = outlier_limit(mad)->0;
            lemma_more_within(ds, mad, limit);
            assert forall|i: int| 0 <= i < ds.len() implies Some(#[trigger] ds[i]) == deviation(
                fair[i].probability_a,
                center,
            ) by {
                assert(values[i] == fair[i].probability_a);
            }
            lemma_inliers_count(fair, center, limit, ds);
        }
    }
}

proof fn lemma_all_fair_are_probabilities(quotes: Seq<Quote>)
    requires
        forall|i: int| 0 <= i < quotes.len() ==> odds_written(#[trigger] quotes[i]),
    ensures
        all_fair(quotes) matches Ok(fair) ==> fair.len() == quotes.len() && all_probabilities(
            sides_a(fair),
        ),
    decreases quotes.len(),
{
    if quotes.len() > 0 {
        let front = quotes.drop_last();
        assert forall|i: int| 0 <= i < front.len() implies odds_written(#[trigger] front[i]) by {
            assert(front[i] == quotes[i]);
        }
        assert(odds_written(quotes[quotes.len() - 1]));
        lemma_all_fair_are_probabilities(front);
        fair_prices_are_probabilities(quotes.last());
        if let Ok(fair) = all_fair(quotes) {
            assert forall|i: int| 0 <= i < fair.len() implies is_probability(
                #[trigger] sides_a(fair)[i],
            ) by {
                if i < front.len() {
                    assert(sides_a(all_fair(front)->Ok_0)[i] == fair[i].probability_a);
                }
            }
        }
    }
}

/// A consensus counts at least half of the families that have a usable quote.
pub proof fn a_consensus_keeps_most_families(quotes: Seq<Quote>, age: int, now: int)
    requires
        forall|i: int| 0 <= i < quotes.len() ==> odds_written(#[trigger] quotes[i]),
    ensures
        consensus_of(quotes, age, now) matches Ok(c) ==> 2 * c.family_count >= newest(
            quotes,
            age,
            now,
        ).len(),
{
    let kept = newest(quotes, age, now);
    one_voice_per_family(quotes, age, now);
    assert forall|i: int| 0 <= i < kept.len() implies odds_written(#[trigger] kept[i]) by {
        assert(quotes.contains(kept[i]));
    }
    lemma_all_fair_are_probabilities(kept);
    if let Ok(fair) = all_fair(kept) {
        most_prices_stay(fair);
    }
}

} // verus!
