//! What a consensus says of the quotes it is built from.

use vstd::prelude::*;

use crate::consensus::{
    agreed, all_fair, all_probabilities, consensus_of, deviation, deviations, fair_of, inliers,
    is_probability, lemma_deviation, lemma_deviations, lemma_inliers_len,
    neutrals, newest, odds_written, outlier_limit, sides_a, sides_b, spread,
    without_outliers,
};
use crate::decimal::{
    by_value, dec, lemma_value_sign, median, one, quotient, size, sum, unit, zero, Dec,
};
use crate::domain::{Fair, Quote};
use crate::laws::settling::lemma_one;
use crate::seqs::{
    group_seqs, how_many, in_order, is_order, lemma_all_counted, lemma_count_of_front,
    lemma_sorted_count, lemma_sorted_order, sorted,
};

verus! {

broadcast use group_seqs;

/// Whether at least half of the numbers are at most `m` and at least half at
/// least `m`.
pub open spec fn in_the_middle(values: Seq<Dec>, m: Dec) -> bool {
    &&& 2 * how_many(values, |d: Dec| d.value() <= m.value()) >= values.len()
    &&& 2 * how_many(values, |d: Dec| d.value() >= m.value()) >= values.len()
}

proof fn lemma_count_of_back<A>(s: Seq<A>, n: int, p: spec_fn(A) -> bool)
    requires
        0 <= n <= s.len(),
        forall|i: int| n <= i < s.len() ==> p(#[trigger] s[i]),
    ensures
        how_many(s, p) >= s.len() - n,
    decreases s.len(),
{
    if s.len() > n {
        let front = s.drop_last();
        assert forall|i: int| n <= i < front.len() implies p(#[trigger] front[i]) by {
            assert(front[i] == s[i]);
        }
        assert(p(s[s.len() - 1]));
        lemma_count_of_back(front, n, p);
    }
}

/// The median of probabilities is a probability in their middle, and the mean
/// of the two middle ones to the last digit.
pub proof fn medians_are_in_the_middle(values: Seq<Dec>)
    requires
        all_probabilities(values),
    ensures
        median(values) matches Some(m) ==> is_probability(m) && in_the_middle(values, m),
        values.len() == 0 ==> median(values) is None,
{
    let ordered = sorted(values, by_value());
    let fine = |d: Dec| is_probability(d);
    lemma_count_of_front(values, values.len() as int, fine);
    lemma_all_counted(values, fine);
    lemma_sorted_count(values, by_value(), fine);
    lemma_all_counted(ordered, fine);
    assert(is_order(by_value()));
    lemma_sorted_order(values, by_value());
    let middle = values.len() as int / 2;
    if median(values) is Some {
        assert(fine(ordered[middle]));
        if values.len() % 2 == 0 {
            let (x, y) = (ordered[middle - 1], ordered[middle]);
            assert(fine(x));
            assert(!by_value()(y, x));
            lemma_mean_between(x, y);
        }
        let m = median(values)->0;
        let (low, high) = (|d: Dec| d.value() <= m.value(), |d: Dec| d.value() >= m.value());
        lemma_sorted_count(values, by_value(), low);
        lemma_sorted_count(values, by_value(), high);
        let (first, last) = if values.len() % 2 == 0 {
            (middle - 1, middle)
        } else {
            (middle, middle)
        };
        assert forall|i: int| 0 <= i < first + 1 implies low(#[trigger] ordered[i]) by {
            if i < first {
                assert(!by_value()(ordered[first], ordered[i]));
            }
        }
        assert forall|i: int| last <= i < ordered.len() implies high(#[trigger] ordered[i]) by {
            if i > last {
                assert(!by_value()(ordered[i], ordered[last]));
            }
        }
        lemma_count_of_front(ordered, first + 1, low);
        lemma_count_of_back(ordered, last, high);
    }
}

proof fn lemma_mean_between(x: Dec, y: Dec)
    requires
        is_probability(x),
        is_probability(y),
        x.le(y),
    ensures
        crate::decimal::over(sum(x, y), Some(dec(2, 0))) matches Some(m) ==> is_probability(m)
            && x.le(m) && m.le(y) && -1 <= 2 * m.value() - (x.value() + y.value()) <= 1,
{
    lemma_one();
    crate::laws::numbers::lemma_near_sum(x, y);
    let s = sum(x, y)->0;
    let u = unit();
    let two = dec(2, 0);
    crate::decimal::lemma_value_of(2, 0, u);
    lemma_value_sign(x);
    lemma_value_sign(s);
    let (a, b, c) = (x.value(), y.value(), s.value());
    assert(c * u >= a * (2 * u)) by (nonlinear_arith)
        requires
            c >= 2 * a,
            u > 0,
    ;
    assert(c * u <= b * (2 * u)) by (nonlinear_arith)
        requires
            c <= 2 * b,
            u > 0,
    ;
    crate::decimal::lemma_quotient_at_least(s, two, x);
    crate::decimal::lemma_quotient_at_most(s, two, y);
    crate::decimal::lemma_quotient_close(s, two);
    if let Some(m) = crate::decimal::quotient(s, two) {
        let d = m.value();
        assert(-1 <= 2 * d - c <= 1) by (nonlinear_arith)
            requires
                -(2 * u) <= 2 * (d * (2 * u) - c * u) <= 2 * u,
                u > 0,
        ;
    }
}

proof fn lemma_two_kinds<A>(s: Seq<A>, p: spec_fn(A) -> bool, q: spec_fn(A) -> bool)
    requires
        forall|a: A| #[trigger] p(a) <==> !q(a),
    ensures
        how_many(s, p) + how_many(s, q) == s.len(),
    decreases s.len(),
{
    if s.len() > 0 {
        lemma_two_kinds(s.drop_last(), p, q);
        assert(p(s.last()) <==> !q(s.last()));
    }
}

proof fn lemma_rank(s: Seq<Dec>, i: int, v: int)
    requires
        in_order(s, by_value()),
        0 <= i < s.len(),
    ensures
        s[i].value() <= v <==> how_many(s, |d: Dec| d.value() <= v) >= i + 1,
{
    let (p, q) = (|d: Dec| d.value() <= v, |d: Dec| d.value() > v);
    if s[i].value() <= v {
        assert forall|j: int| 0 <= j < i + 1 implies p(#[trigger] s[j]) by {
            if j < i {
                assert(!by_value()(s[i], s[j]));
            }
        }
        lemma_count_of_front(s, i + 1, p);
    } else {
        assert forall|j: int| i <= j < s.len() implies q(#[trigger] s[j]) by {
            if j > i {
                assert(!by_value()(s[j], s[i]));
            }
        }
        lemma_count_of_back(s, i, q);
        lemma_two_kinds(s, p, q);
    }
}

/// Whether the two sides of each price share a dollar.
pub open spec fn sides_add_up(fair: Seq<Fair>) -> bool {
    forall|i: int|
        0 <= i < fair.len() ==> (#[trigger] fair[i]).probability_a.value()
            + fair[i].probability_b.value() == unit()
}

proof fn lemma_mirrored_counts(fair: Seq<Fair>, v: int)
    requires
        sides_add_up(fair),
    ensures
        how_many(sides_b(fair), |d: Dec| d.value() <= v) == how_many(
            sides_a(fair),
            |d: Dec| d.value() > unit() - v - 1,
        ),
    decreases fair.len(),
{
    if fair.len() > 0 {
        let front = fair.drop_last();
        assert forall|i: int| 0 <= i < front.len() implies (#[trigger] front[i]).probability_a.value()
            + front[i].probability_b.value() == unit() by {
            assert(front[i] == fair[i]);
        }
        lemma_mirrored_counts(front, v);
        assert(sides_a(fair).drop_last() =~= sides_a(front));
        assert(sides_b(fair).drop_last() =~= sides_b(front));
        assert(fair[fair.len() - 1] == fair.last());
    }
}

proof fn lemma_mirrored(fair: Seq<Fair>, i: int)
    requires
        sides_add_up(fair),
        0 <= i < fair.len(),
    ensures
        sorted(sides_b(fair), by_value())[i].value() + sorted(sides_a(fair), by_value())[fair.len()
            - 1 - i].value() == unit(),
{
    let n = fair.len() as int;
    let (oa, ob) = (sorted(sides_a(fair), by_value()), sorted(sides_b(fair), by_value()));
    assert(is_order(by_value()));
    lemma_sorted_order(sides_a(fair), by_value());
    lemma_sorted_order(sides_b(fair), by_value());
    let x = ob[i].value();
    lemma_mirror_at(fair, i, x);
    lemma_mirror_at(fair, i, x - 1);
}

proof fn lemma_mirror_at(fair: Seq<Fair>, i: int, v: int)
    requires
        sides_add_up(fair),
        0 <= i < fair.len(),
    ensures
        sorted(sides_b(fair), by_value())[i].value() <= v <==> sorted(
            sides_a(fair),
            by_value(),
        )[fair.len() - 1 - i].value() >= unit() - v,
{
    let n = fair.len() as int;
    let (oa, ob) = (sorted(sides_a(fair), by_value()), sorted(sides_b(fair), by_value()));
    assert(is_order(by_value()));
    lemma_sorted_order(sides_a(fair), by_value());
    lemma_sorted_order(sides_b(fair), by_value());
    let w = unit() - v - 1;
    let (low, high) = (|d: Dec| d.value() <= w, |d: Dec| d.value() > w);
    lemma_sorted_count(sides_b(fair), by_value(), |d: Dec| d.value() <= v);
    lemma_sorted_count(sides_a(fair), by_value(), low);
    lemma_sorted_count(sides_a(fair), by_value(), high);
    lemma_mirrored_counts(fair, v);
    lemma_rank(ob, i, v);
    lemma_rank(oa, n - 1 - i, w);
    lemma_two_kinds(oa, low, high);
    assert((|d: Dec| d.value() > unit() - v - 1) =~= high);
}

/// Whether the prices are probabilities whose sides share a dollar.
pub open spec fn fair_prices(fair: Seq<Fair>) -> bool {
    &&& all_probabilities(sides_a(fair))
    &&& all_probabilities(sides_b(fair))
    &&& all_probabilities(neutrals(fair))
    &&& sides_add_up(fair)
}

/// The prices that are at most `d` away from a center.
pub open spec fn near(center: Dec, d: Dec) -> spec_fn(Fair) -> bool {
    |f: Fair| -d.value() <= f.probability_a.value() - center.value() <= d.value()
}

/// The prices that are at least `d` away from a center.
pub open spec fn far(center: Dec, d: Dec) -> spec_fn(Fair) -> bool {
    |f: Fair|
        f.probability_a.value() - center.value() <= -d.value() || d.value()
            <= f.probability_a.value() - center.value()
}

/// What prices agree on: each side's probability is in the middle of that
/// side's prices, the two sides share a dollar to within the last digit, the
/// neutral probability is in the middle of the neutral ones, and the dispersion
/// in the middle of what the prices are away from the first side's.
pub proof fn an_agreement_is_in_the_middle(fair: Seq<Fair>)
    requires
        fair_prices(fair),
    ensures
        agreed(fair) matches Some(c) ==> {
            &&& in_the_middle(fair.map_values(|f: Fair| f.probability_a), c.probability_a)
            &&& in_the_middle(fair.map_values(|f: Fair| f.probability_b), c.probability_b)
            &&& in_the_middle(fair.map_values(|f: Fair| f.probability_neutral), c.probability_neutral)
            &&& -1 <= c.probability_a.value() + c.probability_b.value() - unit() <= 1
            &&& 0 <= c.dispersion_a.value() <= unit()
            &&& 2 * how_many(fair, near(c.probability_a, c.dispersion_a)) >= fair.len()
            &&& 2 * how_many(fair, far(c.probability_a, c.dispersion_a)) >= fair.len()
        },
{
    if let Some(c) = agreed(fair) {
        let (a, b) = (sides_a(fair), sides_b(fair));
        lemma_one();
        medians_are_in_the_middle(a);
        medians_are_in_the_middle(b);
        medians_are_in_the_middle(neutrals(fair));
        assert(fair.map_values(|f: Fair| f.probability_a) =~= a);
        assert(fair.map_values(|f: Fair| f.probability_b) =~= b);
        assert(fair.map_values(|f: Fair| f.probability_neutral) =~= neutrals(fair));
        let n = fair.len() as int;
        let (oa, ob) = (sorted(a, by_value()), sorted(b, by_value()));
        let middle = n / 2;
        let fine = |d: Dec| is_probability(d);
        lemma_sorted_count(a, by_value(), fine);
        lemma_sorted_count(b, by_value(), fine);
        lemma_count_of_front(a, n, fine);
        lemma_count_of_front(b, n, fine);
        lemma_all_counted(a, fine);
        lemma_all_counted(b, fine);
        lemma_all_counted(oa, fine);
        lemma_all_counted(ob, fine);
        assert(is_order(by_value()));
        lemma_sorted_order(a, by_value());
        lemma_sorted_order(b, by_value());
        lemma_mirrored(fair, middle);
        if n % 2 == 0 {
            lemma_mirrored(fair, middle - 1);
            assert(fine(oa[middle - 1]) && fine(oa[middle]));
            assert(fine(ob[middle - 1]) && fine(ob[middle]));
            assert(!by_value()(oa[middle], oa[middle - 1]));
            assert(!by_value()(ob[middle], ob[middle - 1]));
            lemma_mean_between(oa[middle - 1], oa[middle]);
            lemma_mean_between(ob[middle - 1], ob[middle]);
        }
        let center = c.probability_a;
        lemma_deviations(a, center);
        let ds = deviations(a, center)->0;
        medians_are_in_the_middle(ds);
        let d = c.dispersion_a;
        lemma_away(fair, ds, center, d);
    }
}

proof fn lemma_away(fair: Seq<Fair>, ds: Seq<Dec>, center: Dec, d: Dec)
    requires
        ds.len() == fair.len(),
        all_probabilities(sides_a(fair)),
        is_probability(center),
        forall|i: int|
            0 <= i < ds.len() ==> Some(#[trigger] ds[i]) == deviation(
                sides_a(fair)[i],
                center,
            ),
    ensures
        how_many(ds, |x: Dec| x.value() <= d.value()) == how_many(fair, near(center, d)),
        how_many(ds, |x: Dec| x.value() >= d.value()) == how_many(fair, far(center, d)),
    decreases fair.len(),
{
    if fair.len() > 0 {
        let (front, rest) = (fair.drop_last(), ds.drop_last());
        assert(sides_a(front) =~= sides_a(fair).drop_last());
        assert forall|i: int| 0 <= i < front.len() implies is_probability(
            #[trigger] sides_a(front)[i],
        ) by {
            assert(sides_a(front)[i] == sides_a(fair)[i]);
        }
        assert forall|i: int| 0 <= i < rest.len() implies Some(#[trigger] rest[i]) == deviation(
            sides_a(front)[i],
            center,
        ) by {
            assert(rest[i] == ds[i]);
            assert(sides_a(front)[i] == sides_a(fair)[i]);
        }
        lemma_away(front, rest, center, d);
        let last = fair.len() - 1;
        assert(Some(ds[last]) == deviation(sides_a(fair)[last], center));
        assert(is_probability(sides_a(fair)[last]));
        lemma_distance(sides_a(fair)[last], center);
    }
}

/// A deviation is the distance.
proof fn lemma_distance(value: Dec, center: Dec)
    requires
        is_probability(value),
        is_probability(center),
    ensures
        deviation(value, center) matches Some(d) && is_probability(d) && d.value()
            == crate::decimal::size(value.value() - center.value()),
{
    lemma_one();
    lemma_deviation(value, center);
    crate::laws::numbers::lemma_near_difference(value, center);
    let c = crate::decimal::difference(value, center)->0;
    crate::decimal::lemma_negated(c);
    lemma_value_sign(c);
}

/// What a consensus says of its sources: one for each family, each named once,
/// a reference book exactly where one of the families is one, and the latest
/// of their moves.
pub proof fn an_agreement_counts_its_prices(fair: Seq<Fair>)
    requires
        fair.len() > 0,
    ensures
        agreed(fair) matches Some(c) ==> {
            &&& c.family_count == fair.len()
            &&& c.source_ids.to_multiset() == fair.map_values(|f: Fair| f.source_id).to_multiset()
            &&& c.has_reference <==> exists|i: int|
                0 <= i < fair.len() && ((#[trigger] fair[i]).family is Pinnacle
                    || fair[i].family is Circa || fair[i].family is Bookmaker
                    || fair[i].family is BetOnline)
            &&& forall|i: int|
                0 <= i < fair.len() ==> (#[trigger] fair[i]).source_timestamp
                    <= c.newest_source_timestamp
            &&& exists|i: int|
                0 <= i < fair.len() && (#[trigger] fair[i]).source_timestamp
                    == c.newest_source_timestamp
        },
{
    crate::seqs::lemma_sorted_keeps(
        fair.map_values(|f: Fair| f.source_id),
        crate::text::by_text(),
    );
    lemma_latest(fair);
}

proof fn lemma_latest(fair: Seq<Fair>)
    requires
        fair.len() > 0,
    ensures
        forall|i: int|
            0 <= i < fair.len() ==> (#[trigger] fair[i]).source_timestamp
                <= crate::consensus::latest_move(fair),
        exists|i: int|
            0 <= i < fair.len() && (#[trigger] fair[i]).source_timestamp
                == crate::consensus::latest_move(fair),
    decreases fair.len(),
{
    let front = fair.drop_last();
    let last = fair.len() - 1;
    assert(fair[last] == fair.last());
    if fair.len() > 1 {
        lemma_latest(front);
        assert forall|i: int| 0 <= i < fair.len() implies (#[trigger] fair[i]).source_timestamp
            <= crate::consensus::latest_move(fair) by {
            if i < last {
                assert(front[i] == fair[i]);
            }
        }
        let k = choose|k: int|
            0 <= k < front.len() && (#[trigger] front[k]).source_timestamp
                == crate::consensus::latest_move(front);
        assert(fair[k] == front[k]);
    }
}

/// The sides of a de-vigged quote are probabilities that share a dollar, and so
/// is its neutral part; it speaks for the quote's own source and family, at the
/// quote's own time; and odds of one or less are refused.
pub proof fn fair_prices_come_from_paying_odds(quote: Quote)
    requires
        odds_written(quote),
    ensures
        fair_of(quote) matches Ok(f) ==> {
            &&& is_probability(f.probability_a)
            &&& is_probability(f.probability_b)
            &&& is_probability(f.probability_neutral)
            &&& f.probability_a.value() + f.probability_b.value() == unit()
            &&& quote.decimal_odds_neutral is None ==> f.probability_neutral.value() == 0
            &&& quote.decimal_odds_a.value() > unit()
            &&& quote.decimal_odds_b.value() > unit()
            &&& quote.decimal_odds_neutral matches Some(n) ==> n.value() > unit()
            &&& f.source_id == quote.source_id
            &&& f.family == quote.family
            &&& f.source_timestamp == quote.source_timestamp
        },
{
    crate::consensus::fair_prices_are_probabilities(quote);
    lemma_one();
    lemma_value_sign(zero());
    if let Ok(f) = fair_of(quote) {
        crate::laws::numbers::lemma_near_difference(one(), f.probability_a);
        crate::consensus::lemma_inverse(quote.decimal_odds_a);
        crate::consensus::lemma_inverse(quote.decimal_odds_b);
        let a = quotient(one(), quote.decimal_odds_a)->0;
        let b = quotient(one(), quote.decimal_odds_b)->0;
        let n = crate::consensus::neutral_inverse(quote)->Ok_0;
        if let Some(odds) = quote.decimal_odds_neutral {
            crate::consensus::lemma_inverse(odds);
        }
        crate::consensus::lemma_small_sum(a, b);
        let both = sum(a, b)->0;
        crate::consensus::lemma_small_sum(both, n);
        let whole = sum(both, n)->0;
        lemma_value_sign(whole);
        lemma_value_sign(n);
        let (x, w, u) = (n.value(), whole.value(), unit());
        assert(x * u <= u * w) by (nonlinear_arith)
            requires
                x <= w,
                u > 0,
        ;
        crate::decimal::lemma_quotient_at_most(n, whole, one());
        crate::decimal::lemma_quotient_sign(n, whole);
        lemma_value_sign(f.probability_neutral);
    }
}

/// Of a two-way quote with odds up to a thousand, the first side's probability
/// is the other side's odds over the sum of both, to within a thousand units of
/// the last digit.
pub proof fn the_margin_is_taken_in_proportion(quote: Quote)
    requires
        odds_written(quote),
        quote.decimal_odds_neutral is None,
        quote.decimal_odds_a.value() <= 1000 * unit(),
        quote.decimal_odds_b.value() <= 1000 * unit(),
    ensures
        fair_of(quote) matches Ok(f) ==> size(
            f.probability_a.value() * (quote.decimal_odds_a.value() + quote.decimal_odds_b.value())
                - quote.decimal_odds_b.value() * unit(),
        ) <= 1000 * (quote.decimal_odds_a.value() + quote.decimal_odds_b.value()),
{
    if let Ok(f) = fair_of(quote) {
        lemma_one();
        lemma_value_sign(zero());
        let (oa, ob) = (quote.decimal_odds_a, quote.decimal_odds_b);
        crate::consensus::lemma_inverse(oa);
        crate::consensus::lemma_inverse(ob);
        lemma_value_sign(oa);
        lemma_value_sign(ob);
        let a = quotient(one(), oa)->0;
        let b = quotient(one(), ob)->0;
        crate::decimal::lemma_quotient_close(one(), oa);
        crate::decimal::lemma_quotient_close(one(), ob);
        crate::consensus::lemma_small_sum(a, b);
        let both = sum(a, b)->0;
        crate::consensus::lemma_small_sum(both, zero());
        let whole = sum(both, zero())->0;
        lemma_value_sign(whole);
        lemma_value_sign(a);
        crate::decimal::lemma_quotient_close(a, whole);
        let win = quotient(a, whole)->0;
        let (x, y, u) = (oa.value(), ob.value(), unit());
        let w = whole.value();
        assert(a.value() * u <= u * w) by (nonlinear_arith)
            requires
                a.value() <= w,
                u > 0,
        ;
        crate::decimal::lemma_quotient_at_most(a, whole, one());
        crate::consensus::lemma_small_sum(win, zero());
        lemma_in_proportion(a.value(), b.value(), win.value(), x, y, u);
    }
}

proof fn lemma_in_proportion(a: int, b: int, p: int, x: int, y: int, u: int)
    requires
        u == 10_000_000_000_000_000_000_000_000_000,
        u < x <= 1000 * u,
        u < y <= 1000 * u,
        -x <= 2 * (a * x - u * u) <= x,
        -y <= 2 * (b * y - u * u) <= y,
        a >= 0,
        b >= 0,
        a + b > 0,
        -(a + b) <= 2 * (p * (a + b) - a * u) <= a + b,
    ensures
        size(p * (x + y) - y * u) <= 1000 * (x + y),
{
    let w = a + b;
    let t = x + y;
    let off = 2 * (p * w - a * u);
    let (ex, ey) = (a * x - u * u, b * y - u * u);
    let z = p * t - y * u;
    // 2 w z == off * t + 2 u (a x - b y)
    let (pw, au, yu) = (p * w, a * u, y * u);
    assert(w * z == pw * t - w * yu) by (nonlinear_arith)
        requires
            z == p * t - yu,
            pw == p * w,
    ;
    assert(w * yu == a * yu + b * yu) by (nonlinear_arith)
        requires
            w == a + b,
    ;
    assert(off * t == 2 * (pw * t) - 2 * (au * t)) by (nonlinear_arith)
        requires
            off == 2 * (pw - au),
    ;
    assert(au * t == u * (a * x) + a * yu) by (nonlinear_arith)
        requires
            t == x + y,
            au == a * u,
            yu == y * u,
    ;
    assert(u * (b * y) == b * yu) by (nonlinear_arith)
        requires
            yu == y * u,
    ;
    assert(u * (ex - ey) == u * (a * x) - u * (b * y)) by (nonlinear_arith)
        requires
            ex - ey == a * x - b * y,
    ;
    assert(2 * (w * z) == off * t + 2 * (u * (ex - ey)));
    assert(off * t <= w * t && -(w * t) <= off * t) by (nonlinear_arith)
        requires
            -w <= off <= w,
            t > 0,
    ;
    assert(2 * (u * (ex - ey)) <= u * t && -(u * t) <= 2 * (u * (ex - ey))) by (nonlinear_arith)
        requires
            -t <= 2 * (ex - ey) <= t,
            u > 0,
    ;
    // Each inverse is at least a thousandth.
    assert(2 * (a * x) >= 2 * (u * u) - x);
    assert(2 * a * 1000 >= 2 * u - 1000) by (nonlinear_arith)
        requires
            2 * (a * x) >= 2 * (u * u) - x,
            x <= 1000 * u,
            u > 0,
            x > 0,
            a >= 0,
    ;
    assert(2 * b * 1000 >= 2 * u - 1000) by (nonlinear_arith)
        requires
            2 * (b * y) >= 2 * (u * u) - y,
            y <= 1000 * u,
            u > 0,
            y > 0,
            b >= 0,
    ;
    assert(1000 * w >= u);
    assert(1000 * (w * t) >= u * t) by (nonlinear_arith)
        requires
            1000 * w >= u,
            t > 0,
    ;
    assert(2 * (w * z) <= 1001 * (w * t));
    assert(-(1001 * (w * t)) <= 2 * (w * z));
    assert(2 * z <= 1001 * t) by (nonlinear_arith)
        requires
            2 * (w * z) <= 1001 * (w * t),
            w > 0,
    ;
    assert(-(1001 * t) <= 2 * z) by (nonlinear_arith)
        requires
            -(1001 * (w * t)) <= 2 * (w * z),
            w > 0,
    ;
}

/// Outliers are the prices further from the middle than three times the middle
/// distance, and further than two and a half points; all others stay, in order.
pub proof fn outliers_are_far_from_the_middle(fair: Seq<Fair>)
    requires
        all_probabilities(sides_a(fair)),
    ensures
        without_outliers(fair) matches Some(kept) ==> exists|center: Dec, mad: Dec, limit: Dec|
            {
                &&& in_the_middle(fair.map_values(|f: Fair| f.probability_a), center)
                &&& 2 * how_many(fair, near(center, mad)) >= fair.len()
                &&& 2 * how_many(fair, far(center, mad)) >= fair.len()
                &&& limit.value() == if 3 * mad.value() > 250_000_000_000_000_000_000_000_000 {
                    3 * mad.value()
                } else {
                    250_000_000_000_000_000_000_000_000
                }
                &&& kept == fair.filter(#[trigger] near(center, limit))
                &&& #[trigger] is_probability(mad)
            },
{
    if let Some(kept) = without_outliers(fair) {
        let a = sides_a(fair);
        lemma_one();
        assert(fair.map_values(|f: Fair| f.probability_a) =~= a);
        let center = median(a)->0;
        medians_are_in_the_middle(a);
        lemma_deviations(a, center);
        let ds = deviations(a, center)->0;
        medians_are_in_the_middle(ds);
        let mad = median(ds)->0;
        lemma_away(fair, ds, center, mad);
        let limit = outlier_limit(mad)->0;
        lemma_limit_value(mad);
        lemma_filtered(fair, center, limit);
        assert(is_probability(mad));
    }
}

proof fn lemma_limit_value(mad: Dec)
    requires
        is_probability(mad),
    ensures
        outlier_limit(mad) matches Some(limit) && limit.value() == if 3 * mad.value()
            > 250_000_000_000_000_000_000_000_000 {
            3 * mad.value()
        } else {
            250_000_000_000_000_000_000_000_000
        },
{
    lemma_one();
    let p = crate::decimal::pow10((28 - mad.scale) as nat);
    crate::decimal::lemma_pow10_positive((28 - mad.scale) as nat);
    let m = mad.mantissa;
    lemma_value_sign(mad);
    assert(m <= m * p) by (nonlinear_arith)
        requires
            p >= 1,
            m >= 0,
    ;
    assert(m * 3 * p == 3 * (m * p)) by (nonlinear_arith);
    crate::decimal::lemma_pow10_values();
    crate::decimal::lemma_value_of(25, 3, crate::decimal::pow10(25));
    lemma_value_sign(zero());
}

proof fn lemma_filtered(fair: Seq<Fair>, center: Dec, limit: Dec)
    requires
        all_probabilities(sides_a(fair)),
        is_probability(center),
    ensures
        inliers(fair, center, limit) matches Some(kept) ==> kept == fair.filter(
            near(center, limit),
        ),
    decreases fair.len(),
{
    reveal(Seq::filter);
    if fair.len() > 0 {
        let front = fair.drop_last();
        assert(sides_a(front) =~= sides_a(fair).drop_last());
        assert forall|i: int| 0 <= i < front.len() implies is_probability(
            #[trigger] sides_a(front)[i],
        ) by {
            assert(sides_a(front)[i] == sides_a(fair)[i]);
        }
        lemma_filtered(front, center, limit);
        assert(is_probability(sides_a(fair)[fair.len() - 1]));
        lemma_distance(fair.last().probability_a, center);
    }
}

/// Whether a quote may speak: it is not for validation only, was observed inside
/// the window, and is dated no more than half a minute ahead.
pub open spec fn may_speak(quote: Quote, age: int, now: int) -> bool {
    &&& !quote.validation_only
    &&& now - quote.fetched_at <= age * 1_000_000_000
    &&& quote.fetched_at - now <= 30_000_000_000
    &&& quote.source_timestamp - now <= 30_000_000_000
}

/// Whether a quote was observed after another, or together with it and moved
/// after it.
pub open spec fn speaks_later(a: Quote, b: Quote) -> bool {
    b.fetched_at < a.fetched_at || (a.fetched_at == b.fetched_at && b.source_timestamp
        < a.source_timestamp)
}

/// Each family that has a quote which may speak does so once, with one of its
/// own that no other of its own is later than; nothing else speaks.
pub proof fn families_speak_once_and_latest(quotes: Seq<Quote>, age: int, now: int)
    ensures
        ({
            let kept = newest(quotes, age, now);
            &&& forall|i: int, j: int|
                0 <= i < j < kept.len() ==> (#[trigger] kept[i]).family != (
                #[trigger] kept[j]).family
            &&& forall|k: int|
                0 <= k < kept.len() ==> quotes.contains(#[trigger] kept[k]) && may_speak(
                    kept[k],
                    age,
                    now,
                )
            &&& forall|i: int|
                0 <= i < quotes.len() && may_speak(#[trigger] quotes[i], age, now) ==> exists|k: int|
                    0 <= k < kept.len() && (#[trigger] kept[k]).family == quotes[i].family
                        && !speaks_later(quotes[i], kept[k])
        }),
{
    crate::consensus::one_voice_per_family(quotes, age, now);
    let kept = newest(quotes, age, now);
    assert forall|i: int|
        0 <= i < quotes.len() && may_speak(#[trigger] quotes[i], age, now) implies exists|k: int|
        0 <= k < kept.len() && (#[trigger] kept[k]).family == quotes[i].family && !speaks_later(
            quotes[i],
            kept[k],
        ) by {
        assert(crate::consensus::usable(quotes[i], age, now));
    }
    assert forall|k: int| 0 <= k < kept.len() implies quotes.contains(#[trigger] kept[k])
        && may_speak(kept[k], age, now) by {
        assert(crate::consensus::usable(kept[k], age, now));
    }
}

/// A consensus is what the de-vigged newest quotes agree on, one per family,
/// once their outliers are gone; and there is one only where some quote may
/// speak.
pub proof fn a_consensus_is_what_the_newest_prices_agree_on(
    quotes: Seq<Quote>,
    age: int,
    now: int,
)
    requires
        forall|i: int| 0 <= i < quotes.len() ==> odds_written(#[trigger] quotes[i]),
    ensures
        consensus_of(quotes, age, now) matches Ok(c) ==> {
            let speaking = newest(quotes, age, now);
            &&& speaking.len() > 0
            &&& exists|fair: Seq<Fair>, kept: Seq<Fair>| #![auto]
                fair.len() == speaking.len() && (forall|i: int|
                    0 <= i < fair.len() ==> fair_of(speaking[i]) == Ok::<
                        Fair,
                        crate::error::Failure,
                    >(#[trigger] fair[i])) && without_outliers(fair) == Some(kept) && agreed(kept)
                    == Some(c) && fair_prices(kept) && kept.len() > 0
        },
{
    let speaking = newest(quotes, age, now);
    crate::consensus::one_voice_per_family(quotes, age, now);
    if let Ok(c) = consensus_of(quotes, age, now) {
        let fair = all_fair(speaking)->Ok_0;
        assert forall|i: int| 0 <= i < speaking.len() implies odds_written(
            #[trigger] speaking[i],
        ) by {
            assert(quotes.contains(speaking[i]));
        }
        lemma_fair_each(speaking);
        let kept = without_outliers(fair)->0;
        outliers_are_far_from_the_middle(fair);
        lemma_kept_fair(fair, kept);
    }
}

proof fn lemma_fair_each(quotes: Seq<Quote>)
    requires
        forall|i: int| 0 <= i < quotes.len() ==> odds_written(#[trigger] quotes[i]),
    ensures
        all_fair(quotes) matches Ok(fair) ==> fair.len() == quotes.len() && fair_prices(fair)
            && forall|i: int|
            0 <= i < fair.len() ==> fair_of(quotes[i]) == Ok::<Fair, crate::error::Failure>(
                #[trigger] fair[i],
            ),
    decreases quotes.len(),
{
    if quotes.len() > 0 {
        let front = quotes.drop_last();
        assert forall|i: int| 0 <= i < front.len() implies odds_written(#[trigger] front[i]) by {
            assert(front[i] == quotes[i]);
        }
        assert(odds_written(quotes[quotes.len() - 1]));
        lemma_fair_each(front);
        fair_prices_come_from_paying_odds(quotes.last());
        if let Ok(fair) = all_fair(quotes) {
            let done = all_fair(front)->Ok_0;
            assert forall|i: int| 0 <= i < fair.len() implies fair_of(quotes[i]) == Ok::<
                Fair,
                crate::error::Failure,
            >(#[trigger] fair[i]) && is_probability(fair[i].probability_a) && is_probability(
                fair[i].probability_b,
            ) && is_probability(fair[i].probability_neutral) && fair[i].probability_a.value()
                + fair[i].probability_b.value() == unit() by {
                if i < front.len() {
                    assert(done[i] == fair[i]);
                    assert(front[i] == quotes[i]);
                    assert(sides_a(done)[i] == fair[i].probability_a);
                    assert(sides_b(done)[i] == fair[i].probability_b);
                    assert(neutrals(done)[i] == fair[i].probability_neutral);
                }
            }
        }
    }
}

proof fn lemma_kept_fair(fair: Seq<Fair>, kept: Seq<Fair>)
    requires
        fair_prices(fair),
        without_outliers(fair) == Some(kept),
    ensures
        fair_prices(kept),
{
    let center = median(sides_a(fair))->0;
    let mad = spread(sides_a(fair), center)->0;
    let limit = outlier_limit(mad)->0;
    lemma_inliers_len(fair, center, limit);
    assert forall|i: int| 0 <= i < kept.len() implies is_probability(
        (#[trigger] kept[i]).probability_a,
    ) && is_probability(kept[i].probability_b) && is_probability(kept[i].probability_neutral)
        && kept[i].probability_a.value() + kept[i].probability_b.value() == unit() by {
        assert(fair.contains(kept[i]));
        let j = choose|j: int| 0 <= j < fair.len() && fair[j] == kept[i];
        assert(sides_a(fair)[j] == kept[i].probability_a);
        assert(sides_b(fair)[j] == kept[i].probability_b);
        assert(neutrals(fair)[j] == kept[i].probability_neutral);
    }
}

} // verus!
