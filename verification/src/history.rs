//! The history archive: how it grades the markets that it has seen against the
//! venue's closing line and settlement. The database itself is left to the
//! program; the rules by which a record replaces another are here.

use vstd::prelude::*;

use crate::decimal::{dec_of, Dec, Decimal};
use crate::polymarket::ClosingPrice;
use crate::seqs::{
    filter_member, filter_next, group_seqs, in_order, is_order, lemma_sorted_keeps,
    lemma_sorted_map, lemma_sorted_order, ranking, sorted, stable_sort, Precedence,
};
use crate::text::text_of;
use crate::textmap::{bump, bumped};
use crate::time::{instant_of, Timestamp, INSTANT_LIMIT, NANOS_PER_SECOND};

verus! {

broadcast use group_seqs;

/// How long after its start a market is graded, in days: a venue that has not
/// settled a game by then is not going to.
pub const GRADING_WINDOW_DAYS: i64 = 14;

/// How many markets one pass grades.
pub const GRADING_BATCH: i64 = 60;

/// Where a stored scan came from.
#[derive(Debug, Clone, Copy, PartialEq, Eq, Structural)]
pub enum Origin {
    /// Recorded by the scanner as it ran; carries books.
    Live,
    /// Loaded from files without books.
    Import,
}

impl Origin {
    pub open spec fn label(self) -> Seq<char> {
        match self {
            Origin::Live => "live"@,
            Origin::Import => "import"@,
        }
    }

    /// The origin as the archive names it.
    pub fn as_str(self) -> (result: &'static str)
        ensures
            result@ == self.label(),
    {
        match self {
            Origin::Live => "live",
            Origin::Import => "import",
        }
    }

    /// What scan files without books count as.
    pub fn of_files(book_count: usize) -> (result: Origin)
        ensures
            result is Import <==> book_count == 0,
    {
        if book_count == 0 {
            Origin::Import
        } else {
            Origin::Live
        }
    }
}

/// How long to wait after an attempt, in seconds: ten minutes for the first
/// attempts (a settlement usually lands within an hour of the end), then
/// hourly, at most six hours.
pub open spec fn backoff(attempts: int) -> int {
    if 0 <= attempts <= 2 {
        600
    } else if 3 <= attempts <= 8 {
        3_600
    } else {
        21_600
    }
}

/// How long to wait after so many attempts, in seconds.
pub fn grading_backoff(attempts: i32) -> (result: u64)
    ensures
        result == backoff(attempts as int),
{
    if 0 <= attempts && attempts <= 2 {
        600
    } else if 3 <= attempts && attempts <= 8 {
        3_600
    } else {
        21_600
    }
}

/// The wait grows with the attempts: from ten minutes, never past six hours.
pub proof fn backoff_grows(a: int, b: int)
    requires
        0 <= a <= b,
    ensures
        600 <= backoff(a) <= backoff(b) <= 21_600,
{
}

/// A market whose start has passed and whose settlement is not yet recorded.
#[derive(Debug)]
pub struct PendingOutcome {
    pub market_id: String,
    pub market_slug: String,
    pub start_time: Timestamp,
    pub has_closing: bool,
    pub attempts: i32,
}

/// A market that may have to be graded, and where its grading stands.
#[derive(Debug)]
pub struct GradingCandidate {
    pub market: PendingOutcome,
    pub settled: bool,
    pub next_attempt_at: Option<Timestamp>,
}

/// A candidate as mathematics.
pub struct Candidate {
    pub market_id: Seq<char>,
    pub market_slug: Seq<char>,
    pub start_time: int,
    pub has_closing: bool,
    pub attempts: int,
    pub settled: bool,
    pub next_attempt_at: Option<int>,
}

impl View for GradingCandidate {
    type V = Candidate;

    open spec fn view(&self) -> Candidate {
        Candidate {
            market_id: self.market.market_id@,
            market_slug: self.market.market_slug@,
            start_time: self.market.start_time@,
            has_closing: self.market.has_closing,
            attempts: self.market.attempts as int,
            settled: self.settled,
            next_attempt_at: instant_of(self.next_attempt_at),
        }
    }
}

impl Clone for GradingCandidate {
    fn clone(&self) -> (result: GradingCandidate)
        ensures
            result@ == self@,
    {
        GradingCandidate {
            market: PendingOutcome {
                market_id: self.market.market_id.clone(),
                market_slug: self.market.market_slug.clone(),
                start_time: self.market.start_time,
                has_closing: self.market.has_closing,
                attempts: self.market.attempts,
            },
            settled: self.settled,
            next_attempt_at: self.next_attempt_at,
        }
    }
}

pub open spec fn candidate_views(items: Seq<GradingCandidate>) -> Seq<Candidate> {
    items.map_values(|item: GradingCandidate| item@)
}

/// A market is due for grading once it has started, inside the window, while it
/// has no settlement and its wait has passed.
pub open spec fn pending(c: Candidate, now: int) -> bool {
    &&& c.start_time <= now
    &&& c.start_time > now - GRADING_WINDOW_DAYS * 86_400 * NANOS_PER_SECOND
    &&& !c.settled
    &&& match c.next_attempt_at {
        Some(at) => at <= now,
        None => true,
    }
}

pub fn is_pending(c: &GradingCandidate, now: Timestamp) -> (result: bool)
    ensures
        result == pending(c@, now@),
{
    let clock: i128 = now.nanos();
    let start: i128 = c.market.start_time.nanos();
    let window: i128 = GRADING_WINDOW_DAYS as i128 * 86_400 * NANOS_PER_SECOND;
    let waited: bool = match c.next_attempt_at {
        Some(at) => !now.before(at),
        None => true,
    };
    start <= clock && start > clock - window && !c.settled && waited
}

/// The earliest start first.
pub open spec fn by_start() -> spec_fn(Candidate, Candidate) -> bool {
    |a: Candidate, b: Candidate| a.start_time < b.start_time
}

struct ByStart;

impl Precedence<GradingCandidate> for ByStart {
    closed spec fn precedes(&self, a: GradingCandidate, b: GradingCandidate) -> bool {
        a@.start_time < b@.start_time
    }

    fn first(&self, a: &GradingCandidate, b: &GradingCandidate) -> (result: bool) {
        a.market.start_time.before(b.market.start_time)
    }
}

/// At most `limit` elements of a sequence.
pub open spec fn first_of<A>(s: Seq<A>, limit: int) -> Seq<A> {
    if s.len() <= limit {
        s
    } else {
        s.take(limit)
    }
}

/// What one pass grades.
pub open spec fn pass_of(candidates: Seq<Candidate>, now: int, limit: int) -> Seq<Candidate> {
    first_of(sorted(candidates.filter(|c: Candidate| pending(c, now)), by_start()), limit)
}

/// The markets that one pass grades: those due, earliest start first, at most
/// `limit` of them.
pub fn pending_outcomes(candidates: &Vec<GradingCandidate>, now: Timestamp, limit: usize) -> (result:
    Vec<GradingCandidate>)
    ensures
        candidate_views(result@) == pass_of(candidate_views(candidates@), now@, limit as int),
{
    let ghost all = candidate_views(candidates@);
    let ghost keep = |c: Candidate| pending(c, now@);
    let mut due: Vec<GradingCandidate> = Vec::new();
    let mut i: usize = 0;
    while i < candidates.len()
        invariant
            i <= candidates@.len(),
            all == candidate_views(candidates@),
            keep == (|c: Candidate| pending(c, now@)),
            candidate_views(due@) == all.take(i as int).filter(keep),
        decreases candidates@.len() - i,
    {
        proof {
            filter_next(all, keep, i as int);
        }
        if is_pending(&candidates[i], now) {
            due.push(candidates[i].clone());
        }
        i = i + 1;
    }
    proof {
        lemma_sorted_map(due@, |c: GradingCandidate| c@, ranking(ByStart), by_start());
    }
    let mut out: Vec<GradingCandidate> = stable_sort(due, &ByStart);
    let ghost ranked = out@;
    if out.len() > limit {
        out.truncate(limit);
        proof {
            assert(candidate_views(out@) =~= candidate_views(ranked).take(limit as int));
        }
    }
    out
}

/// A pass grades only markets that are due, and among them those that started
/// first.
pub proof fn passes_grade_due_markets_in_order(candidates: Seq<Candidate>, now: int, limit: int)
    requires
        0 <= limit,
    ensures
        pass_of(candidates, now, limit).len() <= limit,
        in_order(pass_of(candidates, now, limit), by_start()),
        forall|i: int|
            0 <= i < pass_of(candidates, now, limit).len() ==> pending(
                #[trigger] pass_of(candidates, now, limit)[i],
                now,
            ) && candidates.contains(pass_of(candidates, now, limit)[i]),
{
    let keep = |c: Candidate| pending(c, now);
    let due = candidates.filter(keep);
    let ranked = sorted(due, by_start());
    assert(is_order(by_start()));
    lemma_sorted_order(due, by_start());
    lemma_sorted_keeps(due, by_start());
    let out = pass_of(candidates, now, limit);
    assert forall|i: int| 0 <= i < out.len() implies pending(#[trigger] out[i], now)
        && candidates.contains(out[i]) by {
        assert(out[i] == ranked[i]);
        assert(ranked.to_multiset().count(ranked[i]) > 0) by {
            ranked.to_multiset_ensures();
            assert(ranked.contains(ranked[i]));
        }
        assert(due.contains(ranked[i])) by {
            due.to_multiset_ensures();
        }
        filter_member(candidates, keep, ranked[i]);
    }
    assert forall|i: int, j: int| 0 <= i < j < out.len() implies !by_start()(
        #[trigger] out[j],
        #[trigger] out[i],
    ) by {
        assert(!by_start()(ranked[j], ranked[i]));
    }
}

/// What one grading pass changed.
#[derive(Debug, Clone, Copy, PartialEq, Eq, Structural)]
pub struct GradingReport {
    pub attempted: usize,
    pub closing_lines_recorded: usize,
    pub settled: usize,
    pub errors: usize,
}

impl GradingReport {
    pub fn new() -> (result: GradingReport)
        ensures
            result == (GradingReport {
                attempted: 0,
                closing_lines_recorded: 0,
                settled: 0,
                errors: 0,
            }),
    {
        GradingReport { attempted: 0, closing_lines_recorded: 0, settled: 0, errors: 0 }
    }
}

/// What the venue said of one market: the closing line where it was asked for,
/// and the settlement.
#[derive(Debug)]
pub struct VenueAnswer {
    /// `None` where the closing line is already recorded and was not asked for.
    pub closing: Option<Result<Option<ClosingPrice>, String>>,
    pub settlement: Result<Option<Decimal>, String>,
}

/// What one attempt learned of a market.
#[derive(Debug)]
pub struct Attempt {
    pub closing: Option<ClosingPrice>,
    pub settlement: Option<Decimal>,
    pub error: Option<String>,
}

/// The closing line that an answer brings.
pub open spec fn answered_closing(answer: VenueAnswer) -> Option<ClosingPrice> {
    match answer.closing {
        Some(Ok(Some(closing))) => Some(closing),
        _ => None,
    }
}

/// The settlement that an answer brings.
pub open spec fn answered_settlement(answer: VenueAnswer) -> Option<Decimal> {
    match answer.settlement {
        Ok(settlement) => settlement,
        Err(_) => None,
    }
}

/// What failed last, if anything did.
pub open spec fn answered_error(answer: VenueAnswer) -> Option<Seq<char>> {
    match answer.settlement {
        Err(message) => Some(message@),
        Ok(_) => match answer.closing {
            Some(Err(message)) => Some(message@),
            _ => None,
        },
    }
}

/// A count after one more, if there is one more.
pub open spec fn counted(n: usize, more: bool) -> int {
    if more {
        bumped(n as int)
    } else {
        n as int
    }
}

fn counting(n: usize, more: bool) -> (result: usize)
    ensures
        result == counted(n, more),
{
    if more {
        bump(n)
    } else {
        n
    }
}

/// One market of a pass: errors are recorded and never end the pass.
pub fn grade_market(report: GradingReport, answer: VenueAnswer) -> (result: (
    GradingReport,
    Attempt,
))
    ensures
        result.0.attempted == bumped(report.attempted as int),
        result.0.closing_lines_recorded == counted(
            report.closing_lines_recorded,
            answered_closing(answer) is Some,
        ),
        result.0.settled == counted(report.settled, answered_settlement(answer) is Some),
        result.0.errors == counted(report.errors, answered_error(answer) is Some),
        result.1.closing == answered_closing(answer),
        result.1.settlement == answered_settlement(answer),
        text_of(result.1.error) == answered_error(answer),
{
    let mut error: Option<String> = None;
    let closing: Option<ClosingPrice> = match answer.closing {
        Some(Ok(closing)) => closing,
        Some(Err(message)) => {
            error = Some(message);
            None
        },
        None => None,
    };
    let settlement: Option<Decimal> = match answer.settlement {
        Ok(settlement) => settlement,
        Err(message) => {
            error = Some(message);
            None
        },
    };
    let next = GradingReport {
        attempted: bump(report.attempted),
        closing_lines_recorded: counting(report.closing_lines_recorded, closing.is_some()),
        settled: counting(report.settled, settlement.is_some()),
        errors: counting(report.errors, error.is_some()),
    };
    (next, Attempt { closing, settlement, error })
}

/// What the archive holds of a market's outcome.
#[derive(Debug)]
pub struct OutcomeRecord {
    pub closing_long: Option<Decimal>,
    pub closing_short: Option<Decimal>,
    pub closing_observed_at: Option<Timestamp>,
    pub closing_recorded_at: Option<Timestamp>,
    pub settlement: Option<Decimal>,
    pub settled_recorded_at: Option<Timestamp>,
    pub attempts: i32,
    pub next_attempt_at: Timestamp,
    pub last_error: Option<String>,
}

/// An outcome record as mathematics.
pub struct Recorded {
    pub closing_long: Option<Dec>,
    pub closing_short: Option<Dec>,
    pub closing_observed_at: Option<int>,
    pub closing_recorded_at: Option<int>,
    pub settlement: Option<Dec>,
    pub settled_recorded_at: Option<int>,
    pub attempts: int,
    pub next_attempt_at: int,
    pub last_error: Option<Seq<char>>,
}

impl View for OutcomeRecord {
    type V = Recorded;

    open spec fn view(&self) -> Recorded {
        Recorded {
            closing_long: dec_of(self.closing_long),
            closing_short: dec_of(self.closing_short),
            closing_observed_at: instant_of(self.closing_observed_at),
            closing_recorded_at: instant_of(self.closing_recorded_at),
            settlement: dec_of(self.settlement),
            settled_recorded_at: instant_of(self.settled_recorded_at),
            attempts: self.attempts as int,
            next_attempt_at: self.next_attempt_at@,
            last_error: text_of(self.last_error),
        }
    }
}

pub open spec fn outcome_record_view(record: Option<OutcomeRecord>) -> Option<Recorded> {
    match record {
        Some(record) => Some(record@),
        None => None,
    }
}

/// What one attempt learned, as mathematics.
pub struct Learned {
    pub closing: Option<(Dec, Dec, int)>,
    pub settlement: Option<Dec>,
    pub error: Option<Seq<char>>,
}

impl View for Attempt {
    type V = Learned;

    open spec fn view(&self) -> Learned {
        Learned {
            closing: match self.closing {
                Some(c) => Some((c.long_price@, c.short_price@, c.observed_at@)),
                None => None,
            },
            settlement: dec_of(self.settlement),
            error: text_of(self.error),
        }
    }
}

/// What was there, or else what is new.
pub open spec fn or_else<A>(old_value: Option<A>, new_value: Option<A>) -> Option<A> {
    match old_value {
        Some(_) => old_value,
        None => new_value,
    }
}

/// What an attempt that found nothing before it records.
pub open spec fn first_record(learned: Learned, next_attempt_at: int, now: int) -> Recorded {
    Recorded {
        closing_long: match learned.closing {
            Some((long, _, _)) => Some(long),
            None => None,
        },
        closing_short: match learned.closing {
            Some((_, short, _)) => Some(short),
            None => None,
        },
        closing_observed_at: match learned.closing {
            Some((_, _, at)) => Some(at),
            None => None,
        },
        closing_recorded_at: match learned.closing {
            Some(_) => Some(now),
            None => None,
        },
        settlement: learned.settlement,
        settled_recorded_at: match learned.settlement {
            Some(_) => Some(now),
            None => None,
        },
        attempts: 1,
        next_attempt_at,
        last_error: learned.error,
    }
}

/// What the archive holds after an attempt: what is recorded of the closing
/// line and the settlement stays, the attempt counts, and the next one waits
/// longer the more there were. Missing where a number leaves its range.
pub open spec fn recorded(
    before: Option<Recorded>,
    learned: Learned,
    attempts: int,
    now: int,
) -> Option<Recorded> {
    let next_attempt_at = now + backoff(attempts) * NANOS_PER_SECOND;
    if next_attempt_at > INSTANT_LIMIT {
        None
    } else {
        let fresh = first_record(learned, next_attempt_at, now);
        match before {
            None => Some(fresh),
            Some(r) => if r.attempts >= i32::MAX {
                None
            } else {
                Some(
                    Recorded {
                        closing_long: or_else(r.closing_long, fresh.closing_long),
                        closing_short: or_else(r.closing_short, fresh.closing_short),
                        closing_observed_at: or_else(
                            r.closing_observed_at,
                            fresh.closing_observed_at,
                        ),
                        closing_recorded_at: or_else(
                            r.closing_recorded_at,
                            fresh.closing_recorded_at,
                        ),
                        settlement: or_else(r.settlement, fresh.settlement),
                        settled_recorded_at: or_else(
                            r.settled_recorded_at,
                            fresh.settled_recorded_at,
                        ),
                        attempts: r.attempts + 1,
                        next_attempt_at,
                        last_error: fresh.last_error,
                    },
                )
            },
        }
    }
}

fn or_decimal(a: Option<Decimal>, b: Option<Decimal>) -> (result: Option<Decimal>)
    ensures
        dec_of(result) == or_else(dec_of(a), dec_of(b)),
{
    if a.is_some() {
        a
    } else {
        b
    }
}

fn or_instant(a: Option<Timestamp>, b: Option<Timestamp>) -> (result: Option<Timestamp>)
    ensures
        instant_of(result) == or_else(instant_of(a), instant_of(b)),
{
    if a.is_some() {
        a
    } else {
        b
    }
}

/// Records what one attempt learned. A closing line and a settlement are
/// written once; `None` where a number leaves its range.
pub fn record_outcome(
    before: Option<OutcomeRecord>,
    learned: Attempt,
    attempts: i32,
    now: Timestamp,
) -> (result: Option<OutcomeRecord>)
    ensures
        outcome_record_view(result) == recorded(
            outcome_record_view(before),
            learned@,
            attempts as int,
            now@,
        ),
{
    let wait: i128 = grading_backoff(attempts) as i128;
    let next_attempt_at: Timestamp = match Timestamp::from_nanos(
        now.nanos() + wait * NANOS_PER_SECOND,
    ) {
        Some(at) => at,
        None => return None,
    };
    let mut fresh = OutcomeRecord {
        closing_long: None,
        closing_short: None,
        closing_observed_at: None,
        closing_recorded_at: None,
        settlement: learned.settlement,
        settled_recorded_at: None,
        attempts: 1,
        next_attempt_at,
        last_error: learned.error,
    };
    if let Some(closing) = learned.closing {
        fresh.closing_long = Some(closing.long_price);
        fresh.closing_short = Some(closing.short_price);
        fresh.closing_observed_at = Some(closing.observed_at);
        fresh.closing_recorded_at = Some(now);
    }
    if fresh.settlement.is_some() {
        fresh.settled_recorded_at = Some(now);
    }
    match before {
        None => Some(fresh),
        Some(r) => {
            if r.attempts == i32::MAX {
                return None;
            }
            Some(
                OutcomeRecord {
                    closing_long: or_decimal(r.closing_long, fresh.closing_long),
                    closing_short: or_decimal(r.closing_short, fresh.closing_short),
                    closing_observed_at: or_instant(
                        r.closing_observed_at,
                        fresh.closing_observed_at,
                    ),
                    closing_recorded_at: or_instant(
                        r.closing_recorded_at,
                        fresh.closing_recorded_at,
                    ),
                    settlement: or_decimal(r.settlement, fresh.settlement),
                    settled_recorded_at: or_instant(
                        r.settled_recorded_at,
                        fresh.settled_recorded_at,
                    ),
                    attempts: r.attempts + 1,
                    next_attempt_at,
                    last_error: fresh.last_error,
                },
            )
        },
    }
}

/// No later attempt changes a recorded closing line or settlement.
pub proof fn outcomes_are_written_once(before: Recorded, learned: Learned, attempts: int, now: int)
    requires
        recorded(Some(before), learned, attempts, now) is Some,
    ensures
        before.closing_long is Some ==> recorded(
            Some(before),
            learned,
            attempts,
            now,
        )->0.closing_long == before.closing_long,
        before.closing_short is Some ==> recorded(
            Some(before),
            learned,
            attempts,
            now,
        )->0.closing_short == before.closing_short,
        before.settlement is Some ==> recorded(
            Some(before),
            learned,
            attempts,
            now,
        )->0.settlement == before.settlement,
        before.settled_recorded_at is Some ==> recorded(
            Some(before),
            learned,
            attempts,
            now,
        )->0.settled_recorded_at == before.settled_recorded_at,
        recorded(Some(before), learned, attempts, now)->0.attempts == before.attempts + 1,
{
}

} // verus!
