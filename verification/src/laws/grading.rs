//! How predictions are scored and outcomes recorded.

use vstd::prelude::*;

use crate::decimal::{
    dec, difference, floored, lemma_quotient_close, lemma_value_sign, median, one, pow10, product,
    quotient, rounded, size, sum, total, unit, zero, Dec, MANTISSA_LIMIT, MAX_SCALE,
};
use crate::history::{
    answered_closing, answered_error, answered_settlement, backoff, pass_of, pending, recorded,
    Candidate, Learned, Recorded, VenueAnswer,
};
use crate::laws::numbers::{
    lemma_near_difference, lemma_product_at, lemma_rounded_close, lemma_sum_at,
};
use crate::laws::pricing::share;
use crate::laws::settling::lemma_one;
use crate::metrics::{
    brier_score, bucket_of, bucket_row, digest, members, positives, ratio, squared_error,
    total_error,
};
use crate::seqs::{group_seqs, how_many, sorted};
use crate::sizing::digit;

verus! {

broadcast use group_seqs;

/// The squares of what probabilities were away from their payouts, added up.
pub open spec fn squares(pairs: Seq<(Dec, Dec)>) -> int
    decreases pairs.len(),
{
    if pairs.len() == 0 {
        0
    } else {
        let (p, o) = pairs.last();
        squares(pairs.drop_last()) + (p.value() - o.value()) * (p.value() - o.value())
    }
}

/// Whether probabilities and payouts are shares whose squares can be written at
/// a scale.
pub open spec fn plain_pairs(pairs: Seq<(Dec, Dec)>, scale: nat) -> bool {
    &&& scale <= MAX_SCALE
    &&& pairs.len() * unit() < MANTISSA_LIMIT * digit(scale)
    &&& forall|i: int|
        0 <= i < pairs.len() ==> share((#[trigger] pairs[i]).0) && share(pairs[i].1) && 2
            * pairs[i].0.scale <= scale && 2 * pairs[i].1.scale <= scale
}

proof fn lemma_squared(p: Dec, o: Dec, scale: nat)
    requires
        scale <= MAX_SCALE,
        share(p),
        share(o),
        2 * p.scale <= scale,
        2 * o.scale <= scale,
        unit() < MANTISSA_LIMIT * digit(scale),
    ensures
        squared_error((p, o)) matches Some(s) && s.scale <= scale && s.wf() && 0 <= s.value()
            <= unit() && s.value() * unit() == (p.value() - o.value()) * (p.value() - o.value()),
{
    lemma_one();
    lemma_near_difference(p, o);
    let d = difference(p, o)->0;
    let (v, u) = (d.value(), unit());
    assert(0 <= v * v <= u * u) by (nonlinear_arith)
        requires
            -u <= v <= u,
            u > 0,
    ;
    assert(u * u < MANTISSA_LIMIT * digit(scale) * u) by (nonlinear_arith)
        requires
            u < MANTISSA_LIMIT * digit(scale),
            u > 0,
    ;
    lemma_product_at(d, d, scale);
    let s = product(d, d)->0;
    assert(0 <= s.value() <= u) by (nonlinear_arith)
        requires
            s.value() * u == v * v,
            0 <= v * v <= u * u,
            u > 0,
    ;
}

proof fn lemma_total_error(pairs: Seq<(Dec, Dec)>, scale: nat)
    requires
        plain_pairs(pairs, scale),
    ensures
        total_error(pairs) matches Some(t) && t.scale <= scale && t.wf() && 0 <= t.value()
            <= pairs.len() * unit() && t.value() * unit() == squares(pairs),
    decreases pairs.len(),
{
    lemma_one();
    lemma_value_sign(zero());
    let u = unit();
    if pairs.len() > 0 {
        let front = pairs.drop_last();
        let n = front.len() as int;
        assert((n + 1) * u == n * u + u) by (nonlinear_arith);
        assert forall|i: int| 0 <= i < front.len() implies share((#[trigger] front[i]).0) && share(
            front[i].1,
        ) && 2 * front[i].0.scale <= scale && 2 * front[i].1.scale <= scale by {
            assert(front[i] == pairs[i]);
        }
        assert(n * u >= 0) by (nonlinear_arith)
            requires
                n >= 0,
                u > 0,
        ;
        lemma_total_error(front, scale);
        let (p, o) = pairs[pairs.len() - 1];
        assert(share(p) && share(o));
        lemma_squared(p, o, scale);
        let (t, s) = (total_error(front)->0, squared_error((p, o))->0);
        lemma_sum_at(t, s, scale);
        let all = sum(t, s)->0;
        assert(all.value() * u == t.value() * u + s.value() * u) by (nonlinear_arith)
            requires
                all.value() == t.value() + s.value(),
        ;
    } else {
        assert(0 * u == 0) by (nonlinear_arith);
        assert(zero().value() * u == 0) by (nonlinear_arith)
            requires
                zero().value() == 0,
        ;
    }
}

/// A score is the mean of the squares of what probabilities were away from their
/// payouts, to half of the sixth digit and the last.
pub proof fn a_score_is_the_mean_square(pairs: Seq<(Dec, Dec)>, scale: nat)
    requires
        plain_pairs(pairs, scale),
        pairs.len() < MANTISSA_LIMIT,
    ensures
        pairs.len() == 0 ==> brier_score(pairs) == Some(None::<Dec>),
        pairs.len() > 0 ==> (brier_score(pairs) matches Some(r) ==> (r matches Some(score) && 2 * size(
            score.value() * pairs.len() * unit() - squares(pairs),
        ) <= (10_000_000_000_000_000_000_000 + 1) * pairs.len() * unit())),
{
    if pairs.len() > 0 && brier_score(pairs) is Some {
        lemma_one();
        lemma_total_error(pairs, scale);
        let t = total_error(pairs)->0;
        let n = pairs.len() as int;
        let (u, v) = (unit(), t.value());
        let count = dec(n, 0);
        assert(count.value() == n * u);
        lemma_value_sign(t);
        lemma_value_sign(count);
        lemma_quotient_close(t, count);
        let q = quotient(t, count)->0;
        crate::decimal::lemma_quotient_sign(t, count);
        crate::laws::pricing::lemma_sixth_digit();
        lemma_rounded_close(q, 6);
        let score = rounded(q, 6).value();
        let x = q.value();
        let w = n * u;
        assert(w > 0) by (nonlinear_arith)
            requires
                n > 0,
                u > 0,
                w == n * u,
        ;
        // 2 |x w - v u| <= w
        let off = score - x;
        let h = 10_000_000_000_000_000_000_000int;
        assert(score * n * u == score * w) by (nonlinear_arith)
            requires
                w == n * u,
        ;
        assert((h + 1) * n * u == h * w + w) by (nonlinear_arith)
            requires
                w == n * u,
        ;
        assert(score * w == x * w + off * w) by (nonlinear_arith)
            requires
                off == score - x,
        ;
        assert(2 * (off * w) <= h * w && -(h * w) <= 2 * (off * w)) by (nonlinear_arith)
            requires
                -h <= 2 * off <= h,
                w > 0,
        ;
    }
}

/// Of ten buckets a probability falls into the one whose tenth it lies in, one
/// itself into the last.
pub proof fn probabilities_fall_into_their_tenth(probability: Dec, width: Dec)
    requires
        share(probability),
        width.wf(),
        10 * width.value() == unit(),
    ensures
        bucket_of(probability, width, 10) matches Some(k) ==> {
            &&& 0 <= k < 10
            &&& k * unit() <= 10 * probability.value()
            &&& k < 9 ==> 10 * probability.value() < (k + 1) * unit()
        },
{
    lemma_one();
    let u = unit();
    lemma_value_sign(width);
    lemma_value_sign(probability);
    let m = probability.mantissa;
    let s = probability.scale;
    crate::decimal::lemma_pow10_max();
    let d = if s == 0 {
        dec(10 * m, 0)
    } else {
        dec(m, (s - 1) as nat)
    };
    let p = pow10((MAX_SCALE - s) as nat);
    crate::decimal::lemma_pow10_positive((MAX_SCALE - s) as nat);
    assert(d.value() == 10 * probability.value()) by {
        if s == 0 {
            assert((10 * m) * u == 10 * (m * u)) by (nonlinear_arith);
        } else {
            crate::decimal::lemma_pow10_adds(1, (MAX_SCALE - s) as nat);
            vstd::arithmetic::power::lemma_pow1(10);
            assert(m * (10 * p) == 10 * (m * p)) by (nonlinear_arith);
        }
    }
    assert(d.wf()) by {
        if s == 0 {
            assert(m * u <= u ==> m <= 1) by (nonlinear_arith)
                requires
                    u > 0,
            ;
        }
    }
    let (w, v) = (width.value(), probability.value());
    assert(v * u == d.value() * w) by (nonlinear_arith)
        requires
            d.value() == 10 * v,
            10 * w == u,
    ;
    crate::decimal::exact_quotients_are_exact(probability, width, d);
    crate::decimal::lemma_quotient_sign(probability, width);
    if let Some(q) = quotient(probability, width) {
        crate::sizing::lemma_floored(q);
        let k = floored(q).mantissa;
        assert(k <= 10) by (nonlinear_arith)
            requires
                k * u <= 10 * v,
                v <= u,
                u > 0,
        ;
        assert(k >= 0);
    }
}

/// A bucket's members are the pairs whose probability falls into it, in order.
pub proof fn members_fall_into_their_bucket(
    pairs: Seq<(Dec, Dec)>,
    width: Dec,
    buckets: nat,
    k: int,
)
    ensures
        members(pairs, width, buckets, k) =~= pairs.filter(
            |pair: (Dec, Dec)| bucket_of(pair.0, width, buckets) == Some(k),
        ),
    decreases pairs.len(),
{
    reveal(Seq::filter);
    if pairs.len() > 0 {
        members_fall_into_their_bucket(pairs.drop_last(), width, buckets, k);
    }
}

/// A bucket reports its bounds, how many it holds, the mean of their
/// probabilities and the mean of their payouts.
pub proof fn a_bucket_reports_both_means(inside: Seq<(Dec, Dec)>, width: Dec, k: int)
    ensures
        bucket_row(inside, width, k) matches Some(row) ==> {
            let count = dec(inside.len() as int, 0);
            &&& row.count == inside.len()
            &&& product(width, dec(k, 0)) == Some(row.lower)
            &&& product(width, dec(k + 1, 0)) == Some(row.upper)
            &&& total(inside.map_values(|pair: (Dec, Dec)| pair.0)) matches Some(all) && (quotient(
                all,
                count,
            ) matches Some(mean) && row.mean_probability == rounded(mean, 4))
            &&& total(inside.map_values(|pair: (Dec, Dec)| pair.1)) matches Some(all) && (quotient(
                all,
                count,
            ) matches Some(mean) && row.mean_outcome == rounded(mean, 4))
        },
{
}

/// A summary counts its values, and says their mean, their median, their sum and
/// the share of those above zero.
pub proof fn a_summary_says_mean_median_and_sum(values: Seq<Dec>)
    ensures
        values.len() == 0 ==> digest(values) == Some(None::<crate::metrics::Digest>),
        values.len() > 0 ==> (digest(values) matches Some(r) ==> (r matches Some(d) && {
            let count = dec(values.len() as int, 0);
            &&& d.count == values.len()
            &&& total(sorted(values, crate::decimal::by_value())) matches Some(all) && d.total
                == rounded(all, 6) && (quotient(all, count) matches Some(mean) && d.mean == rounded(
                mean,
                6,
            ))
            &&& median(values) matches Some(middle) && d.median == rounded(middle, 6)
            &&& quotient(
                dec(how_many(values, |v: Dec| v.value() > 0) as int, 0),
                count,
            ) matches Some(part) && d.positive_share == rounded(part, 4)
        })),
{
    lemma_positives(values);
}

proof fn lemma_positives(values: Seq<Dec>)
    ensures
        positives(values) == how_many(values, |v: Dec| v.value() > 0),
    decreases values.len(),
{
    lemma_value_sign(zero());
    if values.len() > 0 {
        lemma_positives(values.drop_last());
    }
}

/// A market is graded again after ten minutes at first, hourly from its third
/// attempt, and every six hours from its ninth.
pub proof fn attempts_wait_longer_and_longer(attempts: int)
    requires
        0 <= attempts,
    ensures
        attempts < 3 ==> backoff(attempts) == 600,
        3 <= attempts < 9 ==> backoff(attempts) == 3_600,
        9 <= attempts ==> backoff(attempts) == 21_600,
{
}

/// A market is due for grading exactly when it has started within the last
/// fortnight, has no settlement, and its wait is over.
pub proof fn started_unsettled_markets_are_due(c: Candidate, now: int)
    ensures
        pending(c, now) <==> 0 <= now - c.start_time < 14 * 86_400_000_000_000 && !c.settled && (
        c.next_attempt_at matches Some(at) ==> at <= now),
{
}

/// An attempt adds what was not known, and changes nothing that was: each side's
/// closing price from its own side, dated as observed, and the settlement; it
/// counts, and the next one waits.
pub proof fn an_attempt_adds_what_was_not_known(
    before: Option<Recorded>,
    learned: Learned,
    attempts: int,
    now: int,
)
    ensures
        recorded(before, learned, attempts, now) matches Some(after) ==> {
            let old_long = before is Some && before->0.closing_long is Some;
            let old_short = before is Some && before->0.closing_short is Some;
            let old_seen = before is Some && before->0.closing_observed_at is Some;
            let old_paid = before is Some && before->0.settlement is Some;
            &&& old_long ==> after.closing_long == before->0.closing_long
            &&& old_short ==> after.closing_short == before->0.closing_short
            &&& old_seen ==> after.closing_observed_at == before->0.closing_observed_at
            &&& old_paid ==> after.settlement == before->0.settlement
            &&& learned.closing matches Some((long, short, at)) ==> (!old_long
                ==> after.closing_long == Some(long)) && (!old_short ==> after.closing_short
                == Some(short)) && (!old_seen ==> after.closing_observed_at == Some(at))
            &&& learned.closing is None ==> (!old_long ==> after.closing_long is None) && (
            !old_short ==> after.closing_short is None)
            &&& !old_paid ==> after.settlement == learned.settlement
            &&& after.attempts == if before is Some {
                before->0.attempts + 1
            } else {
                1
            }
            &&& after.next_attempt_at == now + backoff(attempts) * 1_000_000_000
            &&& after.last_error == learned.error
        },
{
}

/// What an answer brings: a closing line only where one came, a settlement only
/// where one came, and the failure of either, the settlement's first.
pub proof fn an_answer_brings_what_came(answer: VenueAnswer)
    ensures
        answered_closing(answer) matches Some(c) ==> answer.closing == Some(
            Ok::<Option<crate::polymarket::ClosingPrice>, String>(Some(c)),
        ),
        answer.closing matches Some(Ok(Some(c))) ==> answered_closing(answer) == Some(c),
        answer.settlement matches Ok(s) ==> answered_settlement(answer) == s,
        answer.settlement is Err ==> answered_settlement(answer) is None && answered_error(answer)
            == Some(answer.settlement->Err_0@),
        answer.settlement is Ok ==> (answer.closing matches Some(Err(message)) ==> answered_error(
            answer,
        ) == Some(message@)),
        answer.settlement is Ok && !(answer.closing matches Some(Err(_))) ==> answered_error(answer)
            is None,
{
}

/// A pass leaves a due market out only where it is full of markets that started
/// no later.
pub proof fn the_earliest_are_graded_first(candidates: Seq<Candidate>, now: int, limit: int, c: Candidate)
    requires
        0 <= limit,
        candidates.contains(c),
        pending(c, now),
    ensures
        pass_of(candidates, now, limit).contains(c) || (pass_of(candidates, now, limit).len()
            == limit && forall|i: int|
            0 <= i < limit ==> (#[trigger] pass_of(candidates, now, limit)[i]).start_time
                <= c.start_time),
{
    let keep = |x: Candidate| pending(x, now);
    let due = candidates.filter(keep);
    let earlier = crate::history::by_start();
    let ranked = sorted(due, earlier);
    crate::seqs::filter_member(candidates, keep, c);
    crate::seqs::lemma_sorted_keeps(due, earlier);
    assert(crate::seqs::is_order(earlier));
    crate::seqs::lemma_sorted_order(due, earlier);
    due.to_multiset_ensures();
    ranked.to_multiset_ensures();
    assert(ranked.to_multiset().count(c) > 0);
    assert(ranked.contains(c));
    let k = choose|k: int| 0 <= k < ranked.len() && ranked[k] == c;
    let out = pass_of(candidates, now, limit);
    if ranked.len() <= limit || k < limit {
        assert(out[k] == c);
    } else {
        assert forall|i: int| 0 <= i < limit implies (#[trigger] out[i]).start_time
            <= c.start_time by {
            assert(out[i] == ranked[i]);
            assert(!earlier(ranked[k], ranked[i]));
        }
    }
}

} // verus!
