//! One scan from its first question to what it leaves behind. The program asks
//! the sources and the venue; what is asked, and what follows from the answers,
//! is decided here.

use vstd::prelude::*;

use crate::config::{Policy, Settings};
use crate::domain::{
    market_book_views, opportunity_views, source_health_views, source_quote_views,
    us_moneyline_market_views, Book, Capture, Consensus, ConsensusPrice, Health, Market, MarketBook,
    Opportunity, PaperPortfolio, Portfolio, Quote, Row, ScanCapture, SourceHealth, SourceQuote,
    Sport, UsMoneylineMarket,
};
use crate::error::{Error, Failure};
use crate::scanner::{
    absorb_collection, after_first_pass, candidate_sports, capture_scan, captured, evaluable_views,
    evaluate_books, is_candidate, judged, marked, merge_confirmation, merged,
    only_candidates_are_confirmed, pass, pass_markets, places, refetch, NextPass,
};
use crate::seqs::{group_seqs, kept, kept_next, take_next};
use crate::sources::{
    answered_record, append_quotes, failed_record, origins, Origin, SourceFacts,
};
use crate::text::{digits, texts};
use crate::time::Timestamp;

verus! {

broadcast use group_seqs;

/// What one source answered, and how long it took.
#[derive(Debug)]
pub struct Answer {
    /// The source's place among those configured.
    pub source: usize,
    pub outcome: Result<Vec<SourceQuote>, Error>,
    pub checked_at: Timestamp,
    pub latency_ms: u64,
}

/// An answer as mathematics.
pub struct Heard {
    pub source: int,
    pub outcome: Result<Seq<Quote>, Failure>,
    pub checked_at: int,
    pub latency_ms: int,
}

impl View for Answer {
    type V = Heard;

    open spec fn view(&self) -> Heard {
        Heard {
            source: self.source as int,
            outcome: match self.outcome {
                Ok(quotes) => Ok(source_quote_views(quotes@)),
                Err(error) => Err(error@),
            },
            checked_at: self.checked_at@,
            latency_ms: self.latency_ms as int,
        }
    }
}

pub open spec fn answer_views(answers: Seq<Answer>) -> Seq<Heard> {
    answers.map_values(|answer: Answer| answer@)
}

/// The quotes that one answer brings.
pub open spec fn quotes_of(sources: Seq<Origin>, answer: Heard) -> Seq<Quote> {
    if 0 <= answer.source < sources.len() {
        match answer.outcome {
            Ok(quotes) => marked(quotes, sources[answer.source].validation_only),
            Err(_) => seq![],
        }
    } else {
        seq![]
    }
}

/// The record that one answer leaves of its source.
pub open spec fn record_of(sources: Seq<Origin>, answer: Heard) -> Option<Health> {
    if 0 <= answer.source < sources.len() {
        let source = sources[answer.source];
        Some(
            match answer.outcome {
                Ok(quotes) => answered_record(
                    source,
                    answer.checked_at,
                    answer.latency_ms,
                    quotes.len(),
                    digits(quotes.len()) + " quotes"@,
                ),
                Err(failure) => failed_record(
                    source,
                    answer.checked_at,
                    answer.latency_ms,
                    failure,
                ),
            },
        )
    } else {
        None
    }
}

/// All that the answers bring, in their order.
pub open spec fn quotes_heard(sources: Seq<Origin>, answers: Seq<Heard>) -> Seq<Quote>
    decreases answers.len(),
{
    if answers.len() == 0 {
        seq![]
    } else {
        quotes_heard(sources, answers.drop_last()) + quotes_of(sources, answers.last())
    }
}

/// The records of all the answers, in their order.
pub open spec fn records_heard(sources: Seq<Origin>, answers: Seq<Heard>) -> Seq<Health> {
    kept(answers, |answer: Heard| record_of(sources, answer))
}

/// Takes in what the sources answered. An answer that belongs to no source
/// counts for nothing.
pub fn absorb_answers(sources: &Vec<SourceFacts>, answers: &Vec<Answer>) -> (result: (
    Vec<SourceQuote>,
    Vec<SourceHealth>,
))
    ensures
        source_quote_views(result.0@) == quotes_heard(origins(sources@), answer_views(answers@)),
        source_health_views(result.1@) == records_heard(origins(sources@), answer_views(answers@)),
{
    let ghost known = origins(sources@);
    let ghost all = answer_views(answers@);
    let ghost record = |answer: Heard| record_of(known, answer);
    let mut quotes: Vec<SourceQuote> = Vec::new();
    let mut health: Vec<SourceHealth> = Vec::new();
    let mut i: usize = 0;
    while i < answers.len()
        invariant
            i <= answers@.len(),
            known == origins(sources@),
            all == answer_views(answers@),
            record == (|answer: Heard| record_of(known, answer)),
            source_quote_views(quotes@) == quotes_heard(known, all.take(i as int)),
            source_health_views(health@) == kept(all.take(i as int), record),
        decreases answers@.len() - i,
    {
        proof {
            take_next(all, i as int);
            kept_next(all, record, i as int);
        }
        let answer = &answers[i];
        if answer.source < sources.len() {
            let (found, told) = absorb_collection(
                &sources[answer.source],
                &answer.outcome,
                answer.checked_at,
                answer.latency_ms,
            );
            append_quotes(&mut quotes, found);
            health.push(told);
        }
        i = i + 1;
    }
    (quotes, health)
}

/// Which sources to ask, by their places, and for which sports.
#[derive(Debug)]
pub struct Request {
    pub sources: Vec<usize>,
    pub sports: Vec<Sport>,
}

/// The places of the sources that run continuously.
pub open spec fn continuous_places(sources: Seq<Origin>, n: nat) -> Seq<int>
    decreases n,
{
    if n == 0 {
        seq![]
    } else {
        let front = continuous_places(sources, (n - 1) as nat);
        if sources[n - 1].confirmation_only {
            front
        } else {
            front.push(n - 1)
        }
    }
}

/// What a scan asks first: every source that is not kept for confirmation, for
/// every sport.
pub fn first_request(sources: &Vec<SourceFacts>) -> (result: Request)
    ensures
        places(result.sources@) == continuous_places(origins(sources@), sources@.len()),
        result.sports@ == seq![Sport::Nfl, Sport::Nba, Sport::Wnba, Sport::Mlb, Sport::Tennis],
{
    let mut asked: Vec<usize> = Vec::new();
    let mut i: usize = 0;
    while i < sources.len()
        invariant
            i <= sources@.len(),
            places(asked@) == continuous_places(origins(sources@), i as nat),
        decreases sources@.len() - i,
    {
        if !sources[i].confirmation_only {
            asked.push(i);
        }
        i = i + 1;
    }
    let sports: Vec<Sport> = vec![Sport::Nfl, Sport::Nba, Sport::Wnba, Sport::Mlb, Sport::Tennis];
    Request { sources: asked, sports }
}

/// A scan whose sources have answered and whose books are being asked for.
#[derive(Debug)]
pub struct Scan {
    pub scan_id: u128,
    pub started_at: Timestamp,
    pub settings: Settings,
    pub sources: Vec<SourceFacts>,
    pub markets: Vec<UsMoneylineMarket>,
    pub portfolio: PaperPortfolio,
    pub quotes: Vec<SourceQuote>,
    pub health: Vec<SourceHealth>,
    /// The markets to judge, each with its consensus, as of `evaluated_at`.
    pub evaluable: Vec<(UsMoneylineMarket, ConsensusPrice)>,
    pub evaluated_at: Timestamp,
    /// Whether the candidates were asked for again.
    pub confirmed: bool,
}

/// A scan as mathematics.
pub struct Run {
    pub scan_id: int,
    pub started_at: int,
    pub policy: Policy,
    pub sources: Seq<Origin>,
    pub markets: Seq<Market>,
    pub portfolio: Portfolio,
    pub quotes: Seq<Quote>,
    pub health: Seq<Health>,
    pub evaluable: Seq<(Market, Consensus)>,
    pub evaluated_at: int,
    pub confirmed: bool,
}

impl View for Scan {
    type V = Run;

    open spec fn view(&self) -> Run {
        Run {
            scan_id: self.scan_id as int,
            started_at: self.started_at@,
            policy: self.settings@,
            sources: origins(self.sources@),
            markets: us_moneyline_market_views(self.markets@),
            portfolio: self.portfolio@,
            quotes: source_quote_views(self.quotes@),
            health: source_health_views(self.health@),
            evaluable: evaluable_views(self.evaluable@),
            evaluated_at: self.evaluated_at@,
            confirmed: self.confirmed,
        }
    }
}

/// A scan after its first collection.
pub open spec fn opened(
    scan_id: int,
    started_at: int,
    policy: Policy,
    sources: Seq<Origin>,
    markets: Seq<Market>,
    portfolio: Portfolio,
    answers: Seq<Heard>,
    now: int,
) -> Run {
    let quotes = quotes_heard(sources, answers);
    Run {
        scan_id,
        started_at,
        policy,
        sources,
        markets,
        portfolio,
        quotes,
        health: records_heard(sources, answers),
        evaluable: pass(policy, markets, quotes, None, now),
        evaluated_at: now,
        confirmed: false,
    }
}

/// The rows of a pass, given the books that the venue returned; `None` on
/// overflow.
pub open spec fn rows(run: Run, books: Seq<Book>) -> Option<Seq<Row>> {
    judged(run.policy, run.evaluable, books, run.portfolio, run.evaluated_at)
}

/// Whether a pass is followed by a confirmation: there are candidates, and they
/// were not asked for again before.
pub open spec fn asks_again(run: Run, found: Seq<Row>) -> bool {
    !run.confirmed && candidate_sports(found).len() > 0
}

/// A scan after its confirmation: the quotes of the sources that were asked
/// again are replaced for the sports they were asked for, and must be fresh.
pub open spec fn reopened(
    run: Run,
    asked: Seq<int>,
    sports: Seq<Sport>,
    answers: Seq<Heard>,
    now: int,
) -> Run {
    let again = at_places(run.sources, asked);
    let quotes = merged(run.quotes, quotes_heard(run.sources, answers), again, sports);
    Run {
        quotes,
        health: run.health + records_heard(run.sources, answers),
        evaluable: pass(run.policy, run.markets, quotes, Some(again), now),
        evaluated_at: now,
        confirmed: true,
        ..run
    }
}

/// The sources at some places.
pub open spec fn at_places(sources: Seq<Origin>, asked: Seq<int>) -> Seq<Origin> {
    kept(
        asked,
        |place: int|
            if 0 <= place < sources.len() {
                Some(sources[place])
            } else {
                None
            },
    )
}

fn facts_at(sources: &Vec<SourceFacts>, asked: &Vec<usize>) -> (result: Vec<SourceFacts>)
    ensures
        origins(result@) == at_places(origins(sources@), places(asked@)),
{
    let ghost known = origins(sources@);
    let ghost all = places(asked@);
    let ghost at = |place: int|
        if 0 <= place < known.len() {
            Some(known[place])
        } else {
            None
        };
    let mut out: Vec<SourceFacts> = Vec::new();
    let mut i: usize = 0;
    while i < asked.len()
        invariant
            i <= asked@.len(),
            known == origins(sources@),
            all == places(asked@),
            at == (|place: int|
                if 0 <= place < known.len() {
                    Some(known[place])
                } else {
                    None
                }),
            origins(out@) == kept(all.take(i as int), at),
        decreases asked@.len() - i,
    {
        proof {
            kept_next(all, at, i as int);
        }
        if asked[i] < sources.len() {
            out.push(sources[asked[i]].clone());
        }
        i = i + 1;
    }
    out
}

fn append_records(out: &mut Vec<SourceHealth>, records: Vec<SourceHealth>)
    ensures
        source_health_views(final(out)@) == source_health_views(old(out)@) + source_health_views(
            records@,
        ),
{
    let ghost front = source_health_views(out@);
    let ghost more = source_health_views(records@);
    let mut i: usize = 0;
    while i < records.len()
        invariant
            i <= records@.len(),
            more == source_health_views(records@),
            source_health_views(out@) == front + more.take(i as int),
        decreases records@.len() - i,
    {
        proof {
            take_next(more, i as int);
            assert(front + more.take(i as int).push(more[i as int]) =~= (front + more.take(
                i as int,
            )).push(more[i as int]));
        }
        out.push(records[i].clone());
        i = i + 1;
    }
}

/// A scan that waits for its candidates to be confirmed.
#[derive(Debug)]
pub struct Confirmation {
    pub scan: Scan,
    pub request: Request,
}

/// A scan whose rows stand.
#[derive(Debug)]
pub struct Finished {
    pub scan: Scan,
    pub opportunities: Vec<Opportunity>,
    pub books: Vec<MarketBook>,
}

/// What follows a pass.
#[derive(Debug)]
pub enum Verdict {
    AskAgain(Confirmation),
    Done(Finished),
}

impl Scan {
    /// Takes in the first answers and finds the markets to judge as of `now`.
    pub fn open(
        scan_id: u128,
        started_at: Timestamp,
        settings: Settings,
        sources: Vec<SourceFacts>,
        markets: Vec<UsMoneylineMarket>,
        portfolio: PaperPortfolio,
        answers: &Vec<Answer>,
        now: Timestamp,
    ) -> (result: Scan)
        ensures
            result@ == opened(
                scan_id as int,
                started_at@,
                settings@,
                origins(sources@),
                us_moneyline_market_views(markets@),
                portfolio@,
                answer_views(answers@),
                now@,
            ),
    {
        let (quotes, health) = absorb_answers(&sources, answers);
        let evaluable = pass_markets(&settings, &markets, &quotes, None, now);
        Scan {
            scan_id,
            started_at,
            settings,
            sources,
            markets,
            portfolio,
            quotes,
            health,
            evaluable,
            evaluated_at: now,
            confirmed: false,
        }
    }

    /// The markets whose books are to be asked for, in order.
    pub fn slugs(&self) -> (result: Vec<String>)
        ensures
            texts(result@) == self@.evaluable.map_values(
                |item: (Market, Consensus)| item.0.market_slug,
            ),
    {
        let ghost all = self@.evaluable;
        let ghost slug = |item: (Market, Consensus)| item.0.market_slug;
        let mut out: Vec<String> = Vec::new();
        let mut i: usize = 0;
        while i < self.evaluable.len()
            invariant
                i <= self.evaluable@.len(),
                all == evaluable_views(self.evaluable@),
                slug == (|item: (Market, Consensus)| item.0.market_slug),
                texts(out@) == all.take(i as int).map_values(slug),
            decreases self.evaluable@.len() - i,
        {
            proof {
                take_next(all, i as int);
            }
            out.push(self.evaluable[i].0.market_slug.clone());
            i = i + 1;
        }
        out
    }

    /// Judges the books that the venue returned, and says what follows. `None`
    /// on overflow.
    pub fn judge(self, books: Vec<MarketBook>) -> (result: Option<Verdict>)
        ensures
            match result {
                Some(Verdict::AskAgain(next)) => match rows(self@, market_book_views(books@)) {
                    Some(found) => {
                        &&& asks_again(self@, found)
                        &&& next.scan@ == self@
                        &&& places(next.request.sources@) == refetch(self@.sources, found)
                        &&& next.request.sports@ == candidate_sports(found)
                    },
                    None => false,
                },
                Some(Verdict::Done(done)) => match rows(self@, market_book_views(books@)) {
                    Some(found) => {
                        &&& !asks_again(self@, found)
                        &&& done.scan@ == self@
                        &&& opportunity_views(done.opportunities@) == found
                        &&& done.books@ == books@
                    },
                    None => false,
                },
                None => rows(self@, market_book_views(books@)) is None,
            },
    {
        let opportunities = evaluate_books(
            &self.settings,
            &self.evaluable,
            &books,
            &self.portfolio,
            self.evaluated_at,
        )?;
        if !self.confirmed {
            match after_first_pass(&self.sources, &opportunities) {
                NextPass::Finish => {},
                NextPass::Confirm { sources, sports } => {
                    let request = Request { sources, sports };
                    return Some(Verdict::AskAgain(Confirmation { scan: self, request }));
                },
            }
        }
        Some(Verdict::Done(Finished { scan: self, opportunities, books }))
    }
}

impl Confirmation {
    /// Takes in the answers of the sources that were asked again and finds the
    /// markets to judge anew as of `now`.
    pub fn confirm(self, answers: &Vec<Answer>, now: Timestamp) -> (result: Scan)
        ensures
            result@ == reopened(
                self.scan@,
                places(self.request.sources@),
                self.request.sports@,
                answer_views(answers@),
                now@,
            ),
    {
        let ghost before = self.scan@;
        let mut scan = self.scan;
        let again = facts_at(&scan.sources, &self.request.sources);
        let (fresh, records) = absorb_answers(&scan.sources, answers);
        let quotes = merge_confirmation(scan.quotes, fresh, &again, &self.request.sports);
        scan.evaluable = pass_markets(&scan.settings, &scan.markets, &quotes, Some(&again), now);
        scan.quotes = quotes;
        append_records(&mut scan.health, records);
        scan.evaluated_at = now;
        scan.confirmed = true;
        scan
    }
}

/// What a finished scan leaves behind.
pub open spec fn left_behind(
    run: Run,
    found: Seq<Row>,
    books: Seq<Book>,
    completed_at: int,
) -> Capture {
    captured(
        run.scan_id,
        run.started_at,
        run.evaluated_at,
        completed_at,
        run.markets,
        books,
        run.quotes,
        run.portfolio,
        found,
        run.health,
    )
}

impl Finished {
    pub fn capture(self, completed_at: Timestamp) -> (result: ScanCapture)
        ensures
            result@ == left_behind(
                self.scan@,
                opportunity_views(self.opportunities@),
                market_book_views(self.books@),
                completed_at@,
            ),
    {
        capture_scan(
            self.scan.scan_id,
            self.scan.started_at,
            self.scan.evaluated_at,
            completed_at,
            self.scan.markets,
            self.books,
            self.scan.quotes,
            self.scan.portfolio,
            self.opportunities,
            self.scan.health,
        )
    }
}

/// A scan asks for confirmation exactly where its first pass found a candidate,
/// and at most once.
pub proof fn candidates_are_confirmed_once(
    run: Run,
    found: Seq<Row>,
    asked: Seq<int>,
    sports: Seq<Sport>,
    answers: Seq<Heard>,
    now: int,
    confirmed: Seq<Row>,
)
    requires
        !run.confirmed,
    ensures
        asks_again(run, found) <==> exists|i: int|
            0 <= i < found.len() && is_candidate(#[trigger] found[i]),
        !asks_again(reopened(run, asked, sports, answers, now), confirmed),
{
    only_candidates_are_confirmed(found);
    let named = candidate_sports(found);
    if named.len() > 0 {
        let first = named[0];
        assert(exists|i: int| 0 <= i < found.len() && is_candidate(#[trigger] found[i]));
    }
    if exists|i: int| 0 <= i < found.len() && is_candidate(#[trigger] found[i]) {
        let i = choose|i: int| 0 <= i < found.len() && is_candidate(#[trigger] found[i]);
        assert(named.contains(found[i].sport));
    }
}

/// What a confirmation leaves as it was: the scan's identity and start, its
/// gates, its markets and the paper book it is judged against.
pub proof fn confirmation_keeps_the_scan(
    run: Run,
    asked: Seq<int>,
    sports: Seq<Sport>,
    answers: Seq<Heard>,
    now: int,
)
    ensures
        ({
            let again = reopened(run, asked, sports, answers, now);
            &&& again.scan_id == run.scan_id
            &&& again.started_at == run.started_at
            &&& again.policy == run.policy
            &&& again.sources == run.sources
            &&& again.markets == run.markets
            &&& again.portfolio == run.portfolio
            &&& again.evaluated_at == now
        }),
{
}

} // verus!
