//! Evaluation arithmetic of a backtest report: Brier score, reliability
//! buckets, summaries and drawdown, over graded rows.

use vstd::prelude::*;

use crate::decimal::{
    by_value, checked_total, dec, dec_of, decs, difference, floored, lemma_exact_sum,
    lemma_negated, lemma_value_sign, median, median_of, negated, one, over, plus, product,
    quotient, rounded, sort_decimals, sum_is_exact, times, total, zero, Dec, Decimal,
};
use crate::seqs::{group_seqs, sorted, take_next};
use crate::time::Timestamp;

verus! {

broadcast use group_seqs;

/// Probabilities beside the payouts that came of them.
pub open spec fn pair_decs(pairs: Seq<(Decimal, Decimal)>) -> Seq<(Dec, Dec)> {
    pairs.map_values(|pair: (Decimal, Decimal)| (pair.0@, pair.1@))
}

/// The squared error of one probability.
pub open spec fn squared_error(pair: (Dec, Dec)) -> Option<Dec> {
    times(difference(pair.0, pair.1), difference(pair.0, pair.1))
}

/// The squared errors added up from the front.
pub open spec fn total_error(pairs: Seq<(Dec, Dec)>) -> Option<Dec>
    decreases pairs.len(),
{
    if pairs.len() == 0 {
        Some(zero())
    } else {
        plus(total_error(pairs.drop_last()), squared_error(pairs.last()))
    }
}

/// A quotient to some places.
pub open spec fn ratio(a: Option<Dec>, b: Dec, places: nat) -> Option<Dec> {
    match over(a, Some(b)) {
        Some(q) => Some(rounded(q, places)),
        None => None,
    }
}

/// The mean squared error: absent without pairs, missing on overflow.
pub open spec fn brier_score(pairs: Seq<(Dec, Dec)>) -> Option<Option<Dec>> {
    if pairs.len() == 0 {
        Some(None)
    } else {
        match ratio(total_error(pairs), dec(pairs.len() as int, 0), 6) {
            Some(score) => Some(Some(score)),
            None => None,
        }
    }
}

proof fn lemma_error_stays_missing(pairs: Seq<(Dec, Dec)>, at: int)
    requires
        0 <= at <= pairs.len(),
        total_error(pairs.take(at)) is None,
    ensures
        total_error(pairs) is None,
    decreases pairs.len() - at,
{
    if at < pairs.len() {
        take_next(pairs, at);
        lemma_error_stays_missing(pairs, at + 1);
    }
}

fn squared(pair: &(Decimal, Decimal)) -> (result: Option<Decimal>)
    ensures
        dec_of(result) == squared_error((pair.0@, pair.1@)),
{
    let miss = pair.0.checked_sub(pair.1)?;
    miss.checked_mul(miss)
}

/// Mean squared error between a probability and the payout (0, 1, or 0.5 for a
/// push), to six places. Lower is better; a coin flip scores 0.25. The outer
/// `None` on overflow, the inner one without pairs.
pub fn brier(pairs: &Vec<(Decimal, Decimal)>) -> (result: Option<Option<Decimal>>)
    ensures
        crate::opportunity::price_of(result) == brier_score(pair_decs(pairs@)),
{
    let count: usize = pairs.len();
    if count == 0 {
        return Some(None);
    }
    let ghost all = pair_decs(pairs@);
    let mut out = Decimal::zero();
    let mut i: usize = 0;
    while i < count
        invariant
            i <= count,
            count == pairs@.len(),
            all == pair_decs(pairs@),
            Some(out@) == total_error(all.take(i as int)),
        decreases count - i,
    {
        proof {
            take_next(all, i as int);
            assert(all.take(i + 1).drop_last() =~= all.take(i as int));
            assert(all.take(i + 1).last() == (pairs@[i as int].0@, pairs@[i as int].1@));
        }
        let next = match squared(&pairs[i]) {
            Some(miss) => out.checked_add(miss),
            None => None,
        };
        match next {
            Some(next) => {
                out = next;
            },
            None => {
                proof {
                    lemma_error_stays_missing(all, i + 1);
                }
                return None;
            },
        }
        i = i + 1;
    }
    let mean = out.checked_div(Decimal::from_count(count))?;
    Some(Some(mean.round_dp(6)))
}

/// A probability that is always the payout scores zero.
pub proof fn certainty_scores_zero(pairs: Seq<(Dec, Dec)>)
    requires
        pairs.len() > 0,
        forall|i: int| 0 <= i < pairs.len() ==> (#[trigger] pairs[i]).0 == pairs[i].1 && pairs[i].0.wf(),
    ensures
        brier_score(pairs) == Some(Some(zero())),
{
    lemma_certain_error(pairs);
}

proof fn lemma_no_difference(d: Dec)
    requires
        d.wf(),
    ensures
        difference(d, d) matches Some(z) && z.mantissa == 0,
{
    let n = negated(d);
    vstd::arithmetic::power::lemma_pow0(10);
    assert(d.at(d.scale) == d.mantissa);
    let unit = crate::decimal::pow10(0);
    assert(n.at(d.scale) == n.mantissa * unit);
    assert(n.mantissa * unit == n.mantissa) by (nonlinear_arith)
        requires
            unit == 1,
    ;
}

proof fn lemma_certain_error(pairs: Seq<(Dec, Dec)>)
    requires
        forall|i: int| 0 <= i < pairs.len() ==> (#[trigger] pairs[i]).0 == pairs[i].1 && pairs[i].0.wf(),
    ensures
        total_error(pairs) == Some(zero()),
    decreases pairs.len(),
{
    if pairs.len() > 0 {
        let front = pairs.drop_last();
        assert forall|i: int| 0 <= i < front.len() implies (#[trigger] front[i]).0 == front[i].1
            && front[i].0.wf() by {
            assert(front[i] == pairs[i]);
        }
        lemma_certain_error(front);
        assert(pairs.last() == pairs[pairs.len() - 1]);
        lemma_no_difference(pairs.last().0);
    }
}

/// One probability bucket of a reliability diagram. A calibrated source has
/// `mean_outcome` close to `mean_probability` in every populated bucket.
#[derive(Debug, Clone, Copy, PartialEq, Eq)]
pub struct ReliabilityBucket {
    pub lower: Decimal,
    pub upper: Decimal,
    pub count: usize,
    pub mean_probability: Decimal,
    pub mean_outcome: Decimal,
}

/// A bucket as mathematics.
pub struct Bucket {
    pub lower: Dec,
    pub upper: Dec,
    pub count: nat,
    pub mean_probability: Dec,
    pub mean_outcome: Dec,
}

impl View for ReliabilityBucket {
    type V = Bucket;

    open spec fn view(&self) -> Bucket {
        Bucket {
            lower: self.lower@,
            upper: self.upper@,
            count: self.count as nat,
            mean_probability: self.mean_probability@,
            mean_outcome: self.mean_outcome@,
        }
    }
}

pub open spec fn buckets_of(items: Seq<ReliabilityBucket>) -> Seq<Bucket> {
    items.map_values(|b: ReliabilityBucket| b@)
}

/// The bucket that a whole number points at: the last for one that is too
/// large, the first for one that no unsigned 64-bit integer holds.
pub open spec fn bucket_index(whole: int, buckets: nat) -> int {
    if 0 <= whole <= u64::MAX {
        if whole < buckets {
            whole
        } else {
            buckets - 1
        }
    } else {
        0
    }
}

/// Where a probability falls; missing on overflow.
pub open spec fn bucket_of(probability: Dec, width: Dec, buckets: nat) -> Option<int> {
    match quotient(probability, width) {
        Some(q) => Some(bucket_index(floored(q).mantissa, buckets)),
        None => None,
    }
}

/// The pairs in one bucket, in their order.
pub open spec fn members(pairs: Seq<(Dec, Dec)>, width: Dec, buckets: nat, k: int) -> Seq<
    (Dec, Dec),
>
    decreases pairs.len(),
{
    if pairs.len() == 0 {
        seq![]
    } else {
        let front = members(pairs.drop_last(), width, buckets, k);
        if bucket_of(pairs.last().0, width, buckets) == Some(k) {
            front.push(pairs.last())
        } else {
            front
        }
    }
}

pub open spec fn all_placed(pairs: Seq<(Dec, Dec)>, width: Dec, buckets: nat) -> bool {
    forall|i: int|
        0 <= i < pairs.len() ==> bucket_of((#[trigger] pairs[i]).0, width, buckets) is Some
}

pub open spec fn firsts(pairs: Seq<(Dec, Dec)>) -> Seq<Dec> {
    pairs.map_values(|pair: (Dec, Dec)| pair.0)
}

pub open spec fn seconds(pairs: Seq<(Dec, Dec)>) -> Seq<Dec> {
    pairs.map_values(|pair: (Dec, Dec)| pair.1)
}

/// The bucket numbered `k` with its members.
pub open spec fn bucket_row(inside: Seq<(Dec, Dec)>, width: Dec, k: int) -> Option<Bucket> {
    let count = dec(inside.len() as int, 0);
    match (
        product(width, dec(k, 0)),
        product(width, dec(k + 1, 0)),
        ratio(total(firsts(inside)), count, 4),
        ratio(total(seconds(inside)), count, 4),
    ) {
        (Some(lower), Some(upper), Some(mean_probability), Some(mean_outcome)) => Some(
            Bucket { lower, upper, count: inside.len(), mean_probability, mean_outcome },
        ),
        _ => None,
    }
}

/// The populated ones of the first `k` buckets.
pub open spec fn bucket_rows(pairs: Seq<(Dec, Dec)>, width: Dec, buckets: nat, k: nat) -> Option<
    Seq<Bucket>,
>
    decreases k,
{
    if k == 0 {
        Some(seq![])
    } else {
        let inside = members(pairs, width, buckets, k - 1);
        match bucket_rows(pairs, width, buckets, (k - 1) as nat) {
            Some(front) => if inside.len() == 0 {
                Some(front)
            } else {
                match bucket_row(inside, width, k - 1) {
                    Some(row) => Some(front.push(row)),
                    None => None,
                }
            },
            None => None,
        }
    }
}

/// The reliability diagram; missing on overflow.
pub open spec fn reliability_rows(pairs: Seq<(Dec, Dec)>, buckets: nat) -> Option<Seq<Bucket>> {
    if buckets == 0 {
        Some(seq![])
    } else {
        match quotient(one(), dec(buckets as int, 0)) {
            Some(width) => if all_placed(pairs, width, buckets) {
                bucket_rows(pairs, width, buckets, buckets)
            } else {
                None
            },
            None => None,
        }
    }
}

fn place(probability: Decimal, width: Decimal, buckets: usize) -> (result: Option<usize>)
    requires
        buckets > 0,
    ensures
        match result {
            Some(k) => bucket_of(probability@, width@, buckets as nat) == Some(k as int) && k
                < buckets,
            None => bucket_of(probability@, width@, buckets as nat) is None,
        },
{
    let q = probability.checked_div(width)?;
    let whole: i128 = q.floor().mantissa();
    if whole < 0 || whole > u64::MAX as i128 {
        Some(0)
    } else if whole < buckets as i128 {
        Some(whole as usize)
    } else {
        Some(buckets - 1)
    }
}

fn place_all(pairs: &Vec<(Decimal, Decimal)>, width: Decimal, buckets: usize) -> (result: Option<
    Vec<usize>,
>)
    requires
        buckets > 0,
    ensures
        match result {
            Some(places) => places@.len() == pairs@.len() && forall|i: int|
                0 <= i < pairs@.len() ==> bucket_of(
                    (#[trigger] pair_decs(pairs@)[i]).0,
                    width@,
                    buckets as nat,
                ) == Some(places@[i] as int),
            None => !all_placed(pair_decs(pairs@), width@, buckets as nat),
        },
{
    let mut places: Vec<usize> = Vec::new();
    let mut i: usize = 0;
    while i < pairs.len()
        invariant
            buckets > 0,
            i <= pairs@.len(),
            places@.len() == i,
            forall|j: int|
                0 <= j < i ==> bucket_of(
                    (#[trigger] pair_decs(pairs@)[j]).0,
                    width@,
                    buckets as nat,
                ) == Some(places@[j] as int),
        decreases pairs@.len() - i,
    {
        assert(pair_decs(pairs@)[i as int].0 == pairs@[i as int].0@);
        let k: usize = match place(pairs[i].0, width, buckets) {
            Some(k) => k,
            None => {
                return None;
            },
        };
        places.push(k);
        i = i + 1;
    }
    Some(places)
}

/// The probabilities and the payouts in one bucket.
fn gather(
    pairs: &Vec<(Decimal, Decimal)>,
    places: &Vec<usize>,
    k: usize,
    Ghost(width): Ghost<Dec>,
    Ghost(buckets): Ghost<nat>,
) -> (result: (Vec<Decimal>, Vec<Decimal>))
    requires
        places@.len() == pairs@.len(),
        forall|i: int|
            0 <= i < pairs@.len() ==> bucket_of(
                (#[trigger] pair_decs(pairs@)[i]).0,
                width,
                buckets,
            ) == Some(places@[i] as int),
    ensures
        decs(result.0@) == firsts(members(pair_decs(pairs@), width, buckets, k as int)),
        decs(result.1@) == seconds(members(pair_decs(pairs@), width, buckets, k as int)),
{
    let ghost all = pair_decs(pairs@);
    let mut probabilities: Vec<Decimal> = Vec::new();
    let mut outcomes: Vec<Decimal> = Vec::new();
    let mut i: usize = 0;
    while i < pairs.len()
        invariant
            i <= pairs@.len(),
            places@.len() == pairs@.len(),
            all == pair_decs(pairs@),
            forall|j: int|
                0 <= j < pairs@.len() ==> bucket_of((#[trigger] all[j]).0, width, buckets) == Some(
                    places@[j] as int,
                ),
            decs(probabilities@) == firsts(members(all.take(i as int), width, buckets, k as int)),
            decs(outcomes@) == seconds(members(all.take(i as int), width, buckets, k as int)),
        decreases pairs@.len() - i,
    {
        proof {
            take_next(all, i as int);
            assert(all.take(i + 1).drop_last() =~= all.take(i as int));
            assert(all.take(i + 1).last() == all[i as int]);
            assert(all[i as int] == (pairs@[i as int].0@, pairs@[i as int].1@));
        }
        if places[i] == k {
            probabilities.push(pairs[i].0);
            outcomes.push(pairs[i].1);
        }
        i = i + 1;
    }
    (probabilities, outcomes)
}

spec fn bucket_view(b: Option<ReliabilityBucket>) -> Option<Bucket> {
    match b {
        Some(b) => Some(b@),
        None => None,
    }
}

fn mean_to_four(values: &Vec<Decimal>) -> (result: Option<Decimal>)
    ensures
        dec_of(result) == ratio(total(decs(values@)), dec(values@.len() as int, 0), 4),
{
    let sum = checked_total(values)?;
    let mean = sum.checked_div(Decimal::from_count(values.len()))?;
    Some(mean.round_dp(4))
}

fn fill_bucket(
    probabilities: &Vec<Decimal>,
    outcomes: &Vec<Decimal>,
    width: Decimal,
    k: usize,
    Ghost(inside): Ghost<Seq<(Dec, Dec)>>,
) -> (result: Option<ReliabilityBucket>)
    requires
        decs(probabilities@) == firsts(inside),
        decs(outcomes@) == seconds(inside),
        k < usize::MAX,
    ensures
        bucket_view(result) == bucket_row(inside, width@, k as int),
{
    proof {
        assert(firsts(inside).len() == decs(probabilities@).len());
        assert(seconds(inside).len() == decs(outcomes@).len());
    }
    let lower = width.checked_mul(Decimal::from_count(k))?;
    let upper = width.checked_mul(Decimal::from_count(k + 1))?;
    let mean_probability = mean_to_four(probabilities)?;
    let mean_outcome = mean_to_four(outcomes)?;
    Some(
        ReliabilityBucket {
            lower,
            upper,
            count: probabilities.len(),
            mean_probability,
            mean_outcome,
        },
    )
}

proof fn lemma_rows_stay_missing(pairs: Seq<(Dec, Dec)>, width: Dec, buckets: nat, at: nat, k: nat)
    requires
        at <= k,
        bucket_rows(pairs, width, buckets, at) is None,
    ensures
        bucket_rows(pairs, width, buckets, k) is None,
    decreases k,
{
    if at < k {
        lemma_rows_stay_missing(pairs, width, buckets, at, (k - 1) as nat);
    }
}

/// Equal-width buckets over `[0, 1]`; probabilities of exactly 1 land in the
/// top bucket. Empty buckets are left out. `None` on overflow.
pub fn reliability(pairs: &Vec<(Decimal, Decimal)>, buckets: usize) -> (result: Option<
    Vec<ReliabilityBucket>,
>)
    ensures
        match result {
            Some(rows) => reliability_rows(pair_decs(pairs@), buckets as nat) == Some(
                buckets_of(rows@),
            ),
            None => reliability_rows(pair_decs(pairs@), buckets as nat) is None,
        },
{
    let mut rows: Vec<ReliabilityBucket> = Vec::new();
    if buckets == 0 {
        return Some(rows);
    }
    let ghost all = pair_decs(pairs@);
    let width = Decimal::one().checked_div(Decimal::from_count(buckets))?;
    let places = place_all(pairs, width, buckets)?;
    let mut k: usize = 0;
    while k < buckets
        invariant
            k <= buckets,
            places@.len() == pairs@.len(),
            all == pair_decs(pairs@),
            forall|j: int|
                0 <= j < pairs@.len() ==> bucket_of(
                    (#[trigger] pair_decs(pairs@)[j]).0,
                    width@,
                    buckets as nat,
                ) == Some(places@[j] as int),
            bucket_rows(all, width@, buckets as nat, k as nat) == Some(buckets_of(rows@)),
            quotient(one(), dec(buckets as int, 0)) == Some(width@),
            all_placed(all, width@, buckets as nat),
        decreases buckets - k,
    {
        let ghost inside = members(all, width@, buckets as nat, k as int);
        let (probabilities, outcomes) = gather(
            pairs,
            &places,
            k,
            Ghost(width@),
            Ghost(buckets as nat),
        );
        assert(firsts(inside).len() == decs(probabilities@).len());
        if probabilities.len() > 0 {
            match fill_bucket(&probabilities, &outcomes, width, k, Ghost(inside)) {
                Some(row) => {
                    rows.push(row);
                },
                None => {
                    proof {
                        lemma_rows_stay_missing(
                            all,
                            width@,
                            buckets as nat,
                            (k + 1) as nat,
                            buckets as nat,
                        );
                    }
                    return None;
                },
            }
        }
        k = k + 1;
    }
    Some(rows)
}

/// Every pair lies in one bucket: a populated bucket counts its members, and
/// the counts add up to the number of pairs.
pub proof fn buckets_hold_every_pair(pairs: Seq<(Dec, Dec)>, buckets: nat)
    ensures
        reliability_rows(pairs, buckets) matches Some(rows) ==> (buckets > 0 ==> counted(rows)
            == pairs.len()),
{
    if buckets > 0 {
        if let Some(width) = quotient(one(), dec(buckets as int, 0)) {
            if all_placed(pairs, width, buckets) {
                lemma_counted(pairs, width, buckets, buckets);
                lemma_members_add_up(pairs, width, buckets);
            }
        }
    }
}

/// How many pairs the buckets count.
pub open spec fn counted(rows: Seq<Bucket>) -> nat
    decreases rows.len(),
{
    if rows.len() == 0 {
        0
    } else {
        counted(rows.drop_last()) + rows.last().count
    }
}

/// How many members the first `k` buckets have.
spec fn members_below(pairs: Seq<(Dec, Dec)>, width: Dec, buckets: nat, k: nat) -> nat
    decreases k,
{
    if k == 0 {
        0
    } else {
        members_below(pairs, width, buckets, (k - 1) as nat) + members(
            pairs,
            width,
            buckets,
            k - 1,
        ).len()
    }
}

proof fn lemma_counted(pairs: Seq<(Dec, Dec)>, width: Dec, buckets: nat, k: nat)
    ensures
        bucket_rows(pairs, width, buckets, k) matches Some(rows) ==> counted(rows) == members_below(
            pairs,
            width,
            buckets,
            k,
        ),
    decreases k,
{
    if k > 0 {
        lemma_counted(pairs, width, buckets, (k - 1) as nat);
        if let Some(front) = bucket_rows(pairs, width, buckets, (k - 1) as nat) {
            let inside = members(pairs, width, buckets, k - 1);
            if let Some(row) = bucket_row(inside, width, k - 1) {
                assert(front.push(row).drop_last() =~= front);
            }
        }
    }
}

proof fn lemma_members_step(pairs: Seq<(Dec, Dec)>, width: Dec, buckets: nat, k: nat)
    requires
        pairs.len() > 0,
        bucket_of(pairs.last().0, width, buckets) is Some,
    ensures
        members_below(pairs, width, buckets, k) == members_below(
            pairs.drop_last(),
            width,
            buckets,
            k,
        ) + if 0 <= bucket_of(pairs.last().0, width, buckets)->0 < k {
            1nat
        } else {
            0
        },
    decreases k,
{
    if k > 0 {
        lemma_members_step(pairs, width, buckets, (k - 1) as nat);
    }
}

proof fn lemma_members_add_up(pairs: Seq<(Dec, Dec)>, width: Dec, buckets: nat)
    requires
        buckets > 0,
        all_placed(pairs, width, buckets),
    ensures
        members_below(pairs, width, buckets, buckets) == pairs.len(),
    decreases pairs.len(),
{
    if pairs.len() == 0 {
        lemma_none_below(width, buckets, buckets);
        assert(pairs =~= Seq::<(Dec, Dec)>::empty());
    } else {
        let front = pairs.drop_last();
        assert(forall|i: int| 0 <= i < front.len() ==> front[i] == pairs[i]);
        lemma_members_add_up(front, width, buckets);
        assert(pairs.last() == pairs[pairs.len() - 1]);
        lemma_members_step(pairs, width, buckets, buckets);
    }
}

proof fn lemma_none_below(width: Dec, buckets: nat, k: nat)
    ensures
        members_below(Seq::empty(), width, buckets, k) == 0,
    decreases k,
{
    if k > 0 {
        lemma_none_below(width, buckets, (k - 1) as nat);
    }
}

/// Count, mean, median, total and the share of positive values.
#[derive(Debug, Clone, Copy, PartialEq, Eq)]
pub struct Summary {
    pub count: usize,
    pub mean: Decimal,
    pub median: Decimal,
    pub total: Decimal,
    /// Fraction strictly greater than zero.
    pub positive_share: Decimal,
}

/// A summary as mathematics.
pub struct Digest {
    pub count: nat,
    pub mean: Dec,
    pub median: Dec,
    pub total: Dec,
    pub positive_share: Dec,
}

impl View for Summary {
    type V = Digest;

    open spec fn view(&self) -> Digest {
        Digest {
            count: self.count as nat,
            mean: self.mean@,
            median: self.median@,
            total: self.total@,
            positive_share: self.positive_share@,
        }
    }
}

/// How many of the values are above zero.
pub open spec fn positives(values: Seq<Dec>) -> nat
    decreases values.len(),
{
    if values.len() == 0 {
        0
    } else {
        positives(values.drop_last()) + if zero().lt(values.last()) {
            1nat
        } else {
            0
        }
    }
}

/// The summary of the values: absent without values, missing on overflow. The
/// total is added up from the smallest value.
pub open spec fn digest(values: Seq<Dec>) -> Option<Option<Digest>> {
    let count = dec(values.len() as int, 0);
    let all = total(sorted(values, by_value()));
    if values.len() == 0 {
        Some(None)
    } else {
        match (
            ratio(all, count, 6),
            median(values),
            all,
            ratio(Some(dec(positives(values) as int, 0)), count, 4),
        ) {
            (Some(mean), Some(middle), Some(sum), Some(positive_share)) => Some(
                Some(
                    Digest {
                        count: values.len(),
                        mean,
                        median: rounded(middle, 6),
                        total: rounded(sum, 6),
                        positive_share,
                    },
                ),
            ),
            _ => None,
        }
    }
}

/// The digest inside an optional summary.
pub open spec fn digest_of(s: Option<Summary>) -> Option<Digest> {
    match s {
        Some(s) => Some(s@),
        None => None,
    }
}

pub open spec fn digests_of(s: Option<Option<Summary>>) -> Option<Option<Digest>> {
    match s {
        Some(s) => Some(digest_of(s)),
        None => None,
    }
}

fn count_positive(values: &Vec<Decimal>) -> (result: usize)
    ensures
        result == positives(decs(values@)),
{
    let mut count: usize = 0;
    let mut i: usize = 0;
    while i < values.len()
        invariant
            i <= values@.len(),
            count <= i,
            count == positives(decs(values@).take(i as int)),
        decreases values@.len() - i,
    {
        proof {
            take_next(decs(values@), i as int);
            assert(decs(values@).take(i + 1).drop_last() =~= decs(values@).take(i as int));
        }
        if Decimal::zero().less(values[i]) {
            count = count + 1;
        }
        i = i + 1;
    }
    count
}

fn copy_decimals(values: &Vec<Decimal>) -> (result: Vec<Decimal>)
    ensures
        result@ == values@,
{
    let mut out: Vec<Decimal> = Vec::new();
    let mut i: usize = 0;
    while i < values.len()
        invariant
            i <= values@.len(),
            out@ == values@.take(i as int),
        decreases values@.len() - i,
    {
        proof {
            take_next(values@, i as int);
        }
        out.push(values[i]);
        i = i + 1;
    }
    out
}

/// The summary of the values. The outer `None` on overflow, the inner one
/// without values.
pub fn summary(values: &Vec<Decimal>) -> (result: Option<Option<Summary>>)
    ensures
        digests_of(result) == digest(decs(values@)),
{
    let count: usize = values.len();
    if count == 0 {
        return Some(None);
    }
    let number = Decimal::from_count(count);
    let ordered = sort_decimals(copy_decimals(values));
    let total = checked_total(&ordered)?;
    let mean = total.checked_div(number)?;
    let median = median_of(copy_decimals(values))?;
    let positive = count_positive(values);
    let share = Decimal::from_count(positive).checked_div(number)?;
    Some(
        Some(
            Summary {
                count,
                mean: mean.round_dp(6),
                median: median.round_dp(6),
                total: total.round_dp(6),
                positive_share: share.round_dp(4),
            },
        ),
    )
}

/// Largest peak-to-trough fall of an equity series, in currency, with the
/// instants that bound it. Zero for a series that never falls.
#[derive(Debug, Clone, Copy, PartialEq, Eq)]
pub struct Drawdown {
    pub amount: Decimal,
    pub peak_at: Option<Timestamp>,
    pub trough_at: Option<Timestamp>,
}

/// A drawdown as mathematics.
pub struct Fall {
    pub amount: Dec,
    pub peak_at: Option<int>,
    pub trough_at: Option<int>,
}

impl View for Drawdown {
    type V = Fall;

    open spec fn view(&self) -> Fall {
        Fall {
            amount: self.amount@,
            peak_at: crate::time::instant_of(self.peak_at),
            trough_at: crate::time::instant_of(self.trough_at),
        }
    }
}

pub open spec fn curve(equity: Seq<(Timestamp, Decimal)>) -> Seq<(int, Dec)> {
    equity.map_values(|point: (Timestamp, Decimal)| (point.0@, point.1@))
}

/// The highest point so far, the first of equals.
pub open spec fn peak(points: Seq<(int, Dec)>) -> Option<(int, Dec)>
    decreases points.len(),
{
    if points.len() == 0 {
        None
    } else {
        match peak(points.drop_last()) {
            Some(high) => if points.last().1.le(high.1) {
                Some(high)
            } else {
                Some(points.last())
            },
            None => Some(points.last()),
        }
    }
}

/// The deepest fall below the highest point before it, the first of equals;
/// missing on overflow.
pub open spec fn deepest(points: Seq<(int, Dec)>) -> Option<Fall>
    decreases points.len(),
{
    if points.len() == 0 {
        Some(Fall { amount: zero(), peak_at: None, trough_at: None })
    } else {
        let last = points.last();
        match (deepest(points.drop_last()), peak(points.drop_last())) {
            (Some(worst), Some(high)) => if last.1.le(high.1) {
                match difference(high.1, last.1) {
                    Some(fall) => Some(
                        if worst.amount.lt(fall) {
                            Fall { amount: fall, peak_at: Some(high.0), trough_at: Some(last.0) }
                        } else {
                            worst
                        },
                    ),
                    None => None,
                }
            } else {
                Some(worst)
            },
            (worst, _) => worst,
        }
    }
}

/// A drawdown is never negative.
pub proof fn drawdowns_are_not_negative(points: Seq<(int, Dec)>)
    ensures
        deepest(points) matches Some(fall) ==> zero().le(fall.amount),
    decreases points.len(),
{
    if points.len() > 0 {
        drawdowns_are_not_negative(points.drop_last());
    }
}

pub open spec fn fall_of(d: Option<Drawdown>) -> Option<Fall> {
    match d {
        Some(d) => Some(d@),
        None => None,
    }
}

proof fn lemma_fall_stays_missing(points: Seq<(int, Dec)>, at: int)
    requires
        0 <= at <= points.len(),
        deepest(points.take(at)) is None,
    ensures
        deepest(points) is None,
    decreases points.len() - at,
{
    if at < points.len() {
        take_next(points, at);
        assert(points.take(at + 1).drop_last() =~= points.take(at));
        lemma_fall_stays_missing(points, at + 1);
    }
}

/// The largest peak-to-trough fall; `None` on overflow.
pub fn max_drawdown(equity: &Vec<(Timestamp, Decimal)>) -> (result: Option<Drawdown>)
    ensures
        fall_of(result) == deepest(curve(equity@)),
{
    let ghost points = curve(equity@);
    let mut high: Option<(Timestamp, Decimal)> = None;
    let mut worst = Drawdown { amount: Decimal::zero(), peak_at: None, trough_at: None };
    let mut i: usize = 0;
    while i < equity.len()
        invariant
            i <= equity@.len(),
            points == curve(equity@),
            match high {
                Some(h) => peak(points.take(i as int)) == Some((h.0@, h.1@)),
                None => peak(points.take(i as int)) is None,
            },
            deepest(points.take(i as int)) == Some(worst@),
        decreases equity@.len() - i,
    {
        let (at, value) = equity[i];
        proof {
            take_next(points, i as int);
            assert(points.take(i + 1).drop_last() =~= points.take(i as int));
            assert(points.take(i + 1).last() == (at@, value@));
        }
        match high {
            Some((when, top)) => {
                if value.at_most(top) {
                    match top.checked_sub(value) {
                        Some(fall) => {
                            if worst.amount.less(fall) {
                                worst = Drawdown {
                                    amount: fall,
                                    peak_at: Some(when),
                                    trough_at: Some(at),
                                };
                            }
                        },
                        None => {
                            proof {
                                lemma_fall_stays_missing(points, i + 1);
                            }
                            return None;
                        },
                    }
                } else {
                    high = Some((at, value));
                }
            },
            None => {
                high = Some((at, value));
            },
        }
        i = i + 1;
    }
    Some(worst)
}

/// A series whose every value is above all earlier ones, which never falls.
pub open spec fn rising(points: Seq<(int, Dec)>) -> bool {
    forall|i: int, j: int|
        0 <= i < j < points.len() ==> (#[trigger] points[i]).1.lt((#[trigger] points[j]).1)
}

proof fn lemma_peak(points: Seq<(int, Dec)>)
    requires
        points.len() > 0,
    ensures
        peak(points) matches Some(high) && points.contains(high) && forall|i: int|
            0 <= i < points.len() ==> (#[trigger] points[i]).1.le(high.1),
    decreases points.len(),
{
    let front = points.drop_last();
    assert(points.last() == points[points.len() - 1]);
    if front.len() > 0 {
        lemma_peak(front);
        let high = peak(front)->0;
        let j = choose|j: int| 0 <= j < front.len() && front[j] == high;
        assert(points[j] == high);
        assert forall|i: int| 0 <= i < points.len() implies (#[trigger] points[i]).1.le(
            (peak(points)->0).1,
        ) by {
            if i < front.len() {
                assert(front[i] == points[i]);
            }
        }
    }
}

/// A series that only rises has no drawdown.
pub proof fn rising_series_has_no_drawdown(points: Seq<(int, Dec)>)
    requires
        rising(points),
    ensures
        deepest(points) == Some(Fall { amount: zero(), peak_at: None, trough_at: None }),
    decreases points.len(),
{
    if points.len() > 0 {
        let front = points.drop_last();
        assert(forall|i: int| 0 <= i < front.len() ==> front[i] == points[i]);
        rising_series_has_no_drawdown(front);
        if front.len() > 0 {
            lemma_peak(front);
            let high = peak(front)->0;
            let j = choose|j: int| 0 <= j < front.len() && front[j] == high;
            assert(points[j].1.lt(points[points.len() - 1].1));
        }
    }
}

/// Every value can be taken from every other without rounding.
pub open spec fn exact_differences(points: Seq<(int, Dec)>) -> bool {
    forall|i: int, j: int|
        0 <= i < points.len() && 0 <= j < points.len() ==> sum_is_exact(
            (#[trigger] points[i]).1,
            negated((#[trigger] points[j]).1),
        ) && points[i].1.wf() && points[j].1.wf()
}

/// The drawdown is the deepest fall there is: no value falls further below an
/// earlier one. Stated for series whose differences need no rounding.
pub proof fn drawdown_is_the_deepest_fall(points: Seq<(int, Dec)>)
    requires
        exact_differences(points),
    ensures
        deepest(points) matches Some(worst) && zero().le(worst.amount) && forall|i: int, j: int|
            0 <= i <= j < points.len() ==> (#[trigger] points[i]).1.value() - (
            #[trigger] points[j]).1.value() <= worst.amount.value(),
    decreases points.len(),
{
    lemma_value_sign(zero());
    if points.len() > 0 {
        let front = points.drop_last();
        assert(forall|i: int| 0 <= i < front.len() ==> front[i] == points[i]);
        let last = points.last();
        assert(last == points[points.len() - 1]);
        drawdown_is_the_deepest_fall(front);
        let before = deepest(front)->0;
        if front.len() > 0 {
            lemma_peak(front);
            let high = peak(front)->0;
            let k = choose|k: int| 0 <= k < front.len() && front[k] == high;
            assert(points[k] == high);
            assert(sum_is_exact(high.1, negated(last.1)));
            lemma_negated(last.1);
            lemma_exact_sum(high.1, negated(last.1));
        }
        let worst = deepest(points)->0;
        assert(before.amount.value() <= worst.amount.value());
        assert forall|i: int, j: int| 0 <= i <= j < points.len() implies (
        #[trigger] points[i]).1.value() - (#[trigger] points[j]).1.value()
            <= worst.amount.value() by {
            if j < front.len() {
                assert(front[i] == points[i] && front[j] == points[j]);
            } else if i < front.len() {
                assert(front[i].1.le((peak(front)->0).1));
            }
        }
    }
}

} // verus!
