//! The decisions of a scan: which sources may run, which markets have a
//! consensus, what is asked for again, and what is kept.

use vstd::prelude::*;

use crate::config::{Policy, Settings};
use crate::consensus::{build_consensus, consensus_of};
use crate::domain::{
    market_book_views, opportunity_views, source_health_views, source_quote_views,
    us_moneyline_market_views, Book, Capture, Consensus, ConsensusPrice, Family, Health, Market,
    MarketBook, Opportunity, PaperPortfolio, Portfolio, Quote, RecommendationClass, Row,
    ScanCapture, ScanSnapshot, Snapshot, SourceFamily, SourceHealth, SourceQuote, Sport,
    UsMoneylineMarket,
};
use crate::error::{Error, Failure};
use crate::matching::{match_quote, orient_quote, orientation, oriented};
use crate::opportunity::{market_rows, OpportunityEngine};
use crate::seqs::{
    filter_member, filter_next, group_seqs, in_order, is_order, lemma_sorted_keeps,
    lemma_sorted_map, lemma_sorted_order, ranking, sorted, stable_sort, take_next, Precedence,
};
use crate::sources::{
    answered_record, failed_record, family_views, health_err, health_ok, origins, Origin,
    SourceFacts,
};
use crate::text::{
    before, concat2, concat6, digits, has_prefix, natural, owned, same, starts_with, text_before,
    texts, lemma_text_total, lemma_text_transitive,
};
use crate::time::{signed, signed_seconds, Timestamp, NANOS_PER_SECOND};

verus! {

broadcast use group_seqs;

/// Longest span of seconds that clock arithmetic takes.
pub const LONGEST_SPAN_SECONDS: u64 = 9_223_372_036_854_775;

/// A span of seconds in nanoseconds; one that clock arithmetic does not take
/// counts as none.
pub open spec fn span_nanos(seconds: int) -> int {
    if seconds <= LONGEST_SPAN_SECONDS {
        seconds * NANOS_PER_SECOND
    } else {
        0
    }
}

fn span(seconds: u64) -> (result: i128)
    ensures
        result == span_nanos(seconds as int),
        0 <= result <= 9_223_372_036_854_775_000_000_000,
{
    if seconds <= LONGEST_SPAN_SECONDS {
        seconds as i128 * NANOS_PER_SECOND
    } else {
        0
    }
}

/// Whether a quote's source id names a collector, or one of the books that the
/// collector fans out into: `<collector>:<book>`.
pub open spec fn belongs(quote_source_id: Seq<char>, source_id: Seq<char>) -> bool {
    quote_source_id == source_id || has_prefix(quote_source_id, source_id + ":"@)
}

pub open spec fn belongs_to_any(quote_source_id: Seq<char>, sources: Seq<Origin>) -> bool {
    exists|i: int| 0 <= i < sources.len() && belongs(quote_source_id, (#[trigger] sources[i]).id)
}

/// Adapters that fan one collector out into several books emit quote ids of the
/// form `<collector>:<book>`; both shapes belong to the collector.
pub fn quote_id_belongs_to(quote_source_id: &str, source_id: &str) -> (result: bool)
    ensures
        result == belongs(quote_source_id@, source_id@),
{
    same(quote_source_id, source_id) || starts_with(
        quote_source_id,
        concat2(source_id, ":").as_str(),
    )
}

fn belongs_to_one(quote: &SourceQuote, sources: &Vec<SourceFacts>) -> (result: bool)
    ensures
        result == belongs_to_any(quote@.source_id, origins(sources@)),
{
    let mut i: usize = 0;
    while i < sources.len()
        invariant
            i <= sources@.len(),
            forall|j: int|
                0 <= j < i ==> !belongs(
                    quote@.source_id,
                    (#[trigger] origins(sources@)[j]).id,
                ),
        decreases sources@.len() - i,
    {
        assert(origins(sources@)[i as int].id == sources@[i as int].id@);
        if quote_id_belongs_to(quote.source_id.as_str(), sources[i].id.as_str()) {
            return true;
        }
        i = i + 1;
    }
    false
}

/// Fetched inside the window, or not from a source that was asked again.
pub open spec fn confirmed(quote: Quote, refetched: Seq<Origin>, cutoff: int) -> bool {
    quote.fetched_at >= cutoff || !belongs_to_any(quote.source_id, refetched)
}

/// The quotes that survive the confirmation window.
pub open spec fn in_window(
    quotes: Seq<Quote>,
    refetched: Seq<Origin>,
    max_age: int,
    now: int,
) -> Seq<Quote> {
    quotes.filter(|q: Quote| confirmed(q, refetched, now - span_nanos(max_age)))
}

/// Keeps every quote except those from a refetched source that were fetched
/// longer than `max_age` seconds ago: a refetch that failed or fell back to a
/// stale cache must not confirm a candidate on the preliminary price.
pub fn apply_confirmation_window(
    quotes: &Vec<SourceQuote>,
    refetched: &Vec<SourceFacts>,
    max_age: u64,
    now: Timestamp,
) -> (result: Vec<SourceQuote>)
    ensures
        source_quote_views(result@) == in_window(
            source_quote_views(quotes@),
            origins(refetched@),
            max_age as int,
            now@,
        ),
{
    let ghost all = source_quote_views(quotes@);
    let cutoff: i128 = now.nanos() - span(max_age);
    let ghost keep = |q: Quote| confirmed(q, origins(refetched@), now@ - span_nanos(max_age as int));
    let mut kept: Vec<SourceQuote> = Vec::new();
    let mut i: usize = 0;
    while i < quotes.len()
        invariant
            i <= quotes@.len(),
            all == source_quote_views(quotes@),
            cutoff == now@ - span_nanos(max_age as int),
            keep == (|q: Quote|
                confirmed(q, origins(refetched@), now@ - span_nanos(max_age as int))),
            source_quote_views(kept@) == all.take(i as int).filter(keep),
        decreases quotes@.len() - i,
    {
        proof {
            filter_next(all, keep, i as int);
        }
        if quotes[i].fetched_at.nanos() >= cutoff || !belongs_to_one(&quotes[i], refetched) {
            kept.push(quotes[i].clone());
        }
        i = i + 1;
    }
    kept
}

/// Not asked for again: another sport, or another source.
pub open spec fn untouched(quote: Quote, refetched: Seq<Origin>, sports: Seq<Sport>) -> bool {
    !sports.contains(quote.sport) || !belongs_to_any(quote.source_id, refetched)
}

/// The quotes after a confirmation: the untouched ones, then the fresh ones.
pub open spec fn merged(
    quotes: Seq<Quote>,
    fresh: Seq<Quote>,
    refetched: Seq<Origin>,
    sports: Seq<Sport>,
) -> Seq<Quote> {
    quotes.filter(|q: Quote| untouched(q, refetched, sports)) + fresh
}

fn has_sport(sports: &Vec<Sport>, sport: Sport) -> (result: bool)
    ensures
        result == sports@.contains(sport),
{
    let mut i: usize = 0;
    while i < sports.len()
        invariant
            i <= sports@.len(),
            forall|j: int| 0 <= j < i ==> sports@[j] != sport,
        decreases sports@.len() - i,
    {
        if sports[i] == sport {
            assert(sports@[i as int] == sport);
            return true;
        }
        i = i + 1;
    }
    false
}

/// Replaces a refetched source's quotes for the refetched sports with the fresh
/// ones. Its quotes for other sports were not collected again and survive.
pub fn merge_confirmation(
    quotes: Vec<SourceQuote>,
    confirmation_quotes: Vec<SourceQuote>,
    refetched: &Vec<SourceFacts>,
    sports: &Vec<Sport>,
) -> (result: Vec<SourceQuote>)
    ensures
        source_quote_views(result@) == merged(
            source_quote_views(quotes@),
            source_quote_views(confirmation_quotes@),
            origins(refetched@),
            sports@,
        ),
{
    let ghost all = source_quote_views(quotes@);
    let ghost keep = |q: Quote| untouched(q, origins(refetched@), sports@);
    let mut kept: Vec<SourceQuote> = Vec::new();
    let mut i: usize = 0;
    while i < quotes.len()
        invariant
            i <= quotes@.len(),
            all == source_quote_views(quotes@),
            keep == (|q: Quote| untouched(q, origins(refetched@), sports@)),
            source_quote_views(kept@) == all.take(i as int).filter(keep),
        decreases quotes@.len() - i,
    {
        proof {
            filter_next(all, keep, i as int);
        }
        if !has_sport(sports, quotes[i].sport) || !belongs_to_one(&quotes[i], refetched) {
            kept.push(quotes[i].clone());
        }
        i = i + 1;
    }
    let ghost front = source_quote_views(kept@);
    let ghost fresh = source_quote_views(confirmation_quotes@);
    let mut k: usize = 0;
    while k < confirmation_quotes.len()
        invariant
            k <= confirmation_quotes@.len(),
            fresh == source_quote_views(confirmation_quotes@),
            source_quote_views(kept@) == front + fresh.take(k as int),
        decreases confirmation_quotes@.len() - k,
    {
        proof {
            take_next(fresh, k as int);
            assert(front + fresh.take(k as int).push(fresh[k as int]) =~= (front + fresh.take(
                k as int,
            )).push(fresh[k as int]));
        }
        kept.push(confirmation_quotes[k].clone());
        k = k + 1;
    }
    kept
}

/// A confirmation replaces only what was asked for again: every other quote
/// survives, every fresh one is there, and what is left of a refetched source
/// in a refetched sport is fresh.
pub proof fn confirmation_replaces_only_the_refetched(
    quotes: Seq<Quote>,
    fresh: Seq<Quote>,
    refetched: Seq<Origin>,
    sports: Seq<Sport>,
    quote: Quote,
)
    ensures
        quotes.contains(quote) && untouched(quote, refetched, sports) ==> merged(
            quotes,
            fresh,
            refetched,
            sports,
        ).contains(quote),
        fresh.contains(quote) ==> merged(quotes, fresh, refetched, sports).contains(quote),
        merged(quotes, fresh, refetched, sports).contains(quote) && !untouched(
            quote,
            refetched,
            sports,
        ) ==> fresh.contains(quote),
{
    let keep = |q: Quote| untouched(q, refetched, sports);
    let kept = quotes.filter(keep);
    let out = merged(quotes, fresh, refetched, sports);
    filter_member(quotes, keep, quote);
    if quotes.contains(quote) && untouched(quote, refetched, sports) {
        let i = choose|i: int| 0 <= i < kept.len() && kept[i] == quote;
        assert(out[i] == quote);
    }
    if fresh.contains(quote) {
        let i = choose|i: int| 0 <= i < fresh.len() && fresh[i] == quote;
        assert(out[kept.len() + i] == quote);
    }
    if out.contains(quote) {
        let i = choose|i: int| 0 <= i < out.len() && out[i] == quote;
        if i < kept.len() {
            assert(kept[i] == quote);
            assert(kept.contains(quote));
        } else {
            assert(fresh[i - kept.len()] == quote);
        }
    }
}

/// The confirmation window binds only the sources that were asked again.
pub proof fn window_binds_only_the_refetched(
    quotes: Seq<Quote>,
    refetched: Seq<Origin>,
    max_age: int,
    now: int,
    quote: Quote,
)
    ensures
        in_window(quotes, refetched, max_age, now).contains(quote) <==> quotes.contains(quote) && (
        quote.fetched_at >= now - span_nanos(max_age) || !belongs_to_any(
            quote.source_id,
            refetched,
        )),
{
    filter_member(
        quotes,
        |q: Quote| confirmed(q, refetched, now - span_nanos(max_age)),
        quote,
    );
}

/// The quotes that speak of a market, its way round, in their order. Exchange
/// families are left out far from the start.
pub open spec fn matching_quotes(market: Market, quotes: Seq<Quote>, no_exchanges: bool) -> Seq<
    Quote,
>
    decreases quotes.len(),
{
    if quotes.len() == 0 {
        seq![]
    } else {
        let front = matching_quotes(market, quotes.drop_last(), no_exchanges);
        let quote = quotes.last();
        if no_exchanges && quote.family.exchange() {
            front
        } else {
            match orientation(market, quote) {
                Some(way) => front.push(oriented(quote, way)),
                None => front,
            }
        }
    }
}

/// Whether a market is too far from its start for exchange prices.
pub open spec fn far_out(p: Policy, market: Market, now: int) -> bool {
    market.start_time - now > span_nanos(p.exchange_max_lead)
}

/// The consensus on a market from all the quotes, or what stands in its way.
pub open spec fn market_consensus(p: Policy, market: Market, quotes: Seq<Quote>, now: int) -> Result<
    Consensus,
    Failure,
> {
    consensus_of(
        matching_quotes(market, quotes, far_out(p, market, now)),
        signed(p.max_quote_age),
        now,
    )
}

/// The markets that have not started and have a consensus, each with it.
pub open spec fn evaluable(
    markets: Seq<Market>,
    quotes: Seq<Quote>,
    p: Policy,
    now: int,
) -> Seq<(Market, Consensus)>
    decreases markets.len(),
{
    if markets.len() == 0 {
        seq![]
    } else {
        let front = evaluable(markets.drop_last(), quotes, p, now);
        let market = markets.last();
        if market.start_time <= now {
            front
        } else {
            match market_consensus(p, market, quotes, now) {
                Ok(consensus) => front.push((market, consensus)),
                Err(_) => front,
            }
        }
    }
}

pub open spec fn evaluable_views(items: Seq<(UsMoneylineMarket, ConsensusPrice)>) -> Seq<
    (Market, Consensus),
> {
    items.map_values(|item: (UsMoneylineMarket, ConsensusPrice)| (item.0@, item.1@))
}

fn is_exchange_family(family: &SourceFamily) -> (result: bool)
    ensures
        result == family@.exchange(),
{
    match family {
        SourceFamily::Kalshi | SourceFamily::PolymarketGlobal => true,
        _ => false,
    }
}

fn match_all(market: &UsMoneylineMarket, quotes: &Vec<SourceQuote>, no_exchanges: bool) -> (result:
    Vec<SourceQuote>)
    ensures
        source_quote_views(result@) == matching_quotes(
            market@,
            source_quote_views(quotes@),
            no_exchanges,
        ),
{
    let ghost all = source_quote_views(quotes@);
    let mut out: Vec<SourceQuote> = Vec::new();
    let mut i: usize = 0;
    while i < quotes.len()
        invariant
            i <= quotes@.len(),
            all == source_quote_views(quotes@),
            source_quote_views(out@) == matching_quotes(market@, all.take(i as int), no_exchanges),
        decreases quotes@.len() - i,
    {
        proof {
            take_next(all, i as int);
        }
        let quote = &quotes[i];
        if !(no_exchanges && is_exchange_family(&quote.family)) {
            match match_quote(market, quote) {
                Some(way) => {
                    out.push(orient_quote(quote, way));
                },
                None => {},
            }
        }
        i = i + 1;
    }
    out
}

/// Every market not yet started that has a consensus from `quotes` as of `now`.
/// Shared by the live scan and the replay, so that both match, orient and
/// filter quotes identically.
pub fn consensus_markets(
    markets: &Vec<UsMoneylineMarket>,
    quotes: &Vec<SourceQuote>,
    settings: &Settings,
    now: Timestamp,
) -> (result: Vec<(UsMoneylineMarket, ConsensusPrice)>)
    ensures
        evaluable_views(result@) == evaluable(
            us_moneyline_market_views(markets@),
            source_quote_views(quotes@),
            settings@,
            now@,
        ),
{
    let ghost all = us_moneyline_market_views(markets@);
    let max_age_seconds: i64 = signed_seconds(settings.max_quote_age);
    let exchange_lead: i128 = span(settings.exchange_max_lead);
    let mut out: Vec<(UsMoneylineMarket, ConsensusPrice)> = Vec::new();
    let mut i: usize = 0;
    while i < markets.len()
        invariant
            i <= markets@.len(),
            all == us_moneyline_market_views(markets@),
            max_age_seconds == signed(settings@.max_quote_age),
            exchange_lead == span_nanos(settings@.exchange_max_lead),
            evaluable_views(out@) == evaluable(
                all.take(i as int),
                source_quote_views(quotes@),
                settings@,
                now@,
            ),
        decreases markets@.len() - i,
    {
        proof {
            take_next(all, i as int);
        }
        let market = &markets[i];
        if now.before(market.start_time) {
            let no_exchanges = market.start_time.nanos() - now.nanos() > exchange_lead;
            let matching = match_all(market, quotes, no_exchanges);
            match build_consensus(&matching, max_age_seconds, now) {
                Ok(consensus) => {
                    out.push((market.clone(), consensus));
                },
                Err(_) => {},
            }
        }
        i = i + 1;
    }
    out
}

/// The book of a market: the last one under its slug.
pub open spec fn book_of(books: Seq<Book>, slug: Seq<char>) -> Option<Book>
    decreases books.len(),
{
    if books.len() == 0 {
        None
    } else if books.last().market_slug == slug {
        Some(books.last())
    } else {
        book_of(books.drop_last(), slug)
    }
}

/// Where the last book under a slug stands.
pub fn find_book(books: &Vec<MarketBook>, slug: &str) -> (result: Option<usize>)
    ensures
        match result {
            Some(i) => i < books@.len() && book_of(market_book_views(books@), slug@) == Some(
                books@[i as int]@,
            ),
            None => book_of(market_book_views(books@), slug@) is None,
        },
{
    let ghost all = market_book_views(books@);
    let mut i: usize = books.len();
    while i > 0
        invariant
            i <= books@.len(),
            all == market_book_views(books@),
            book_of(all, slug@) == book_of(all.take(i as int), slug@),
        decreases i,
    {
        proof {
            take_next(all, i - 1);
        }
        i = i - 1;
        if same(books[i].market_slug.as_str(), slug) {
            return Some(i);
        }
    }
    None
}

/// The rows of every evaluable market with a book, both sides of each; missing
/// where a number overflows.
pub open spec fn judged(
    p: Policy,
    markets: Seq<(Market, Consensus)>,
    books: Seq<Book>,
    portfolio: Portfolio,
    now: int,
) -> Option<Seq<Row>>
    decreases markets.len(),
{
    if markets.len() == 0 {
        Some(seq![])
    } else {
        let (market, consensus) = markets.last();
        match (
            judged(p, markets.drop_last(), books, portfolio, now),
            book_of(books, market.market_slug),
        ) {
            (Some(front), Some(book)) => match market_rows(
                p,
                market,
                book,
                consensus,
                portfolio,
                now,
            ) {
                Some(rows) => Some(front + rows),
                None => None,
            },
            (front, _) => front,
        }
    }
}

proof fn lemma_judged_stays_missing(
    p: Policy,
    markets: Seq<(Market, Consensus)>,
    books: Seq<Book>,
    portfolio: Portfolio,
    now: int,
    at: int,
)
    requires
        0 <= at <= markets.len(),
        judged(p, markets.take(at), books, portfolio, now) is None,
    ensures
        judged(p, markets, books, portfolio, now) is None,
    decreases markets.len() - at,
{
    if at < markets.len() {
        take_next(markets, at);
        lemma_judged_stays_missing(p, markets, books, portfolio, now, at + 1);
    }
}

/// Appends the rows of one list to another.
pub fn append_rows(out: &mut Vec<Opportunity>, rows: Vec<Opportunity>)
    ensures
        opportunity_views(final(out)@) == opportunity_views(old(out)@) + opportunity_views(rows@),
{
    let ghost front = opportunity_views(out@);
    let ghost more = opportunity_views(rows@);
    let mut k: usize = 0;
    while k < rows.len()
        invariant
            k <= rows@.len(),
            more == opportunity_views(rows@),
            opportunity_views(out@) == front + more.take(k as int),
        decreases rows@.len() - k,
    {
        proof {
            take_next(more, k as int);
            assert(front + more.take(k as int).push(more[k as int]) =~= (front + more.take(
                k as int,
            )).push(more[k as int]));
        }
        out.push(rows[k].clone());
        k = k + 1;
    }
}

/// Classifies every market in `evaluable` whose book is present in `books`
/// (matched by slug). Markets without a book are skipped: the live scan failed
/// to fetch it, or the replay never stored one. `None` where a number
/// overflows.
pub fn evaluate_books(
    settings: &Settings,
    evaluable: &Vec<(UsMoneylineMarket, ConsensusPrice)>,
    books: &Vec<MarketBook>,
    portfolio: &PaperPortfolio,
    now: Timestamp,
) -> (result: Option<Vec<Opportunity>>)
    ensures
        crate::opportunity::rows_of(result) == judged(
            settings@,
            evaluable_views(evaluable@),
            market_book_views(books@),
            portfolio@,
            now@,
        ),
{
    let ghost all = evaluable_views(evaluable@);
    let ghost shelf = market_book_views(books@);
    let engine = OpportunityEngine::new(settings.clone());
    let mut out: Vec<Opportunity> = Vec::new();
    let mut i: usize = 0;
    while i < evaluable.len()
        invariant
            i <= evaluable@.len(),
            engine@ == settings@,
            all == evaluable_views(evaluable@),
            shelf == market_book_views(books@),
            judged(settings@, all.take(i as int), shelf, portfolio@, now@) == Some(
                opportunity_views(out@),
            ),
        decreases evaluable@.len() - i,
    {
        proof {
            take_next(all, i as int);
        }
        let market = &evaluable[i].0;
        let consensus = &evaluable[i].1;
        match find_book(books, market.market_slug.as_str()) {
            Some(k) => {
                match engine.evaluate(market, &books[k], consensus, portfolio, now) {
                    Some(rows) => {
                        append_rows(&mut out, rows);
                    },
                    None => {
                        proof {
                            lemma_judged_stays_missing(
                                settings@,
                                all,
                                shelf,
                                portfolio@,
                                now@,
                                i + 1,
                            );
                        }
                        return None;
                    },
                }
            },
            None => {},
        }
        i = i + 1;
    }
    Some(out)
}

/// A market that has started is never judged, so that a stale discovery cannot
/// leak an in-play book.
pub proof fn started_markets_are_dropped(
    markets: Seq<Market>,
    quotes: Seq<Quote>,
    p: Policy,
    now: int,
)
    ensures
        forall|i: int|
            0 <= i < evaluable(markets, quotes, p, now).len() ==> {
                let (market, consensus) = #[trigger] evaluable(markets, quotes, p, now)[i];
                &&& market.start_time > now
                &&& markets.contains(market)
                &&& market_consensus(p, market, quotes, now) == Ok::<Consensus, Failure>(consensus)
            },
    decreases markets.len(),
{
    if markets.len() > 0 {
        started_markets_are_dropped(markets.drop_last(), quotes, p, now);
        let front = evaluable(markets.drop_last(), quotes, p, now);
        assert(markets[markets.len() - 1] == markets.last());
        assert forall|i: int| 0 <= i < evaluable(markets, quotes, p, now).len() implies {
            let (market, consensus) = #[trigger] evaluable(markets, quotes, p, now)[i];
            &&& market.start_time > now
            &&& markets.contains(market)
            &&& market_consensus(p, market, quotes, now) == Ok::<Consensus, Failure>(consensus)
        } by {
            if i < front.len() {
                let (market, consensus) = front[i];
                let k = choose|k: int|
                    0 <= k < markets.drop_last().len() && markets.drop_last()[k] == market;
                assert(markets[k] == market);
            }
        }
    }
}

/// Far from the start no exchange has a say.
pub proof fn exchanges_are_silent_far_out(market: Market, quotes: Seq<Quote>)
    ensures
        forall|i: int|
            0 <= i < matching_quotes(market, quotes, true).len() ==> !(
            #[trigger] matching_quotes(market, quotes, true)[i]).family.exchange(),
    decreases quotes.len(),
{
    if quotes.len() > 0 {
        exchanges_are_silent_far_out(market, quotes.drop_last());
    }
}

/// A source of the preliminary pass whose quotes count.
pub open spec fn continuous(source: Origin) -> bool {
    !source.validation_only && !source.confirmation_only
}

/// The families of the continuous sources, one after the other.
pub open spec fn continuous_families(sources: Seq<Origin>) -> Seq<Family>
    decreases sources.len(),
{
    if sources.len() == 0 {
        seq![]
    } else {
        let front = continuous_families(sources.drop_last());
        if continuous(sources.last()) {
            front + sources.last().families
        } else {
            front
        }
    }
}

/// How many of the sources are continuous.
pub open spec fn continuous_count(sources: Seq<Origin>) -> nat {
    sources.filter(|s: Origin| continuous(s)).len()
}

/// Whether a result can be better than the watchlist at all: some source only
/// confirms, or some continuous family is a reference.
pub open spec fn reference_possible(sources: Seq<Origin>) -> bool {
    ||| exists|i: int| 0 <= i < sources.len() && (#[trigger] sources[i]).confirmation_only
    ||| exists|i: int|
        0 <= i < continuous_families(sources).len() && (#[trigger] continuous_families(
            sources,
        )[i]).reference()
}

/// What the startup check found.
#[derive(Debug, Clone, Copy, PartialEq, Eq)]
pub struct SourceQuorum {
    /// Independent families among the continuous sources.
    pub families: usize,
    /// Whether a reference book can take part.
    pub reference_possible: bool,
}

/// Too few families.
pub open spec fn quorum_failure(p: Policy, sources: Seq<Origin>) -> Failure {
    Failure::Config(
        "scanner requires "@ + digits(p.minimum_configured_sources)
            + " independent continuous source families; found "@ + digits(
            continuous_count(sources),
        ) + " sources across "@ + digits(continuous_families(sources).to_set().len())
            + " families"@,
    )
}

/// The families that a list adds to those already seen.
fn add_families(seen: Vec<SourceFamily>, more: &Vec<SourceFamily>) -> (result: Vec<SourceFamily>)
    requires
        family_views(seen@).no_duplicates(),
    ensures
        family_views(result@).no_duplicates(),
        family_views(result@).to_set() == family_views(seen@).to_set().union(
            family_views(more@).to_set(),
        ),
{
    let mut out = seen;
    let ghost old_set = family_views(seen@).to_set();
    let ghost all = family_views(more@);
    let mut i: usize = 0;
    assert(old_set =~= old_set.union(all.take(0).to_set()));
    while i < more.len()
        invariant
            i <= more@.len(),
            all == family_views(more@),
            family_views(out@).no_duplicates(),
            family_views(out@).to_set() == old_set.union(all.take(i as int).to_set()),
        decreases more@.len() - i,
    {
        let ghost listed = family_views(out@);
        let mut k: usize = 0;
        while k < out.len() && out[k] != more[i]
            invariant
                i < more@.len(),
                k <= out@.len(),
                listed == family_views(out@),
                forall|j: int| 0 <= j < k ==> listed[j] != more@[i as int]@,
            decreases out@.len() - k,
        {
            k = k + 1;
        }
        proof {
            take_next(all, i as int);
            lemma_push_set(all.take(i as int), all[i as int]);
        }
        if k == out.len() {
            assert(!listed.contains(all[i as int]));
            out.push(more[i].clone());
            proof {
                lemma_push_set(listed, all[i as int]);
                assert(family_views(out@) == listed.push(all[i as int]));
                assert(family_views(out@).to_set() =~= old_set.union(
                    all.take(i + 1).to_set(),
                ));
            }
        } else {
            assert(listed[k as int] == all[i as int]);
            assert(family_views(out@).to_set() =~= old_set.union(all.take(i + 1).to_set()));
        }
        i = i + 1;
    }
    out
}

proof fn lemma_push_set<A>(s: Seq<A>, x: A)
    ensures
        s.push(x).to_set() == s.to_set().insert(x),
{
    assert forall|y: A| s.push(x).to_set().contains(y) <==> #[trigger] s.to_set().insert(
        x,
    ).contains(y) by {
        if s.contains(y) {
            let i = choose|i: int| 0 <= i < s.len() && s[i] == y;
            assert(s.push(x)[i] == y);
        }
        if y == x {
            assert(s.push(x)[s.len() as int] == x);
        }
    }
    assert(s.push(x).to_set() =~= s.to_set().insert(x));
}

proof fn lemma_concat_set<A>(a: Seq<A>, b: Seq<A>)
    ensures
        (a + b).to_set() == a.to_set().union(b.to_set()),
    decreases b.len(),
{
    if b.len() == 0 {
        assert(a + b =~= a);
        assert(a.to_set() =~= a.to_set().union(b.to_set()));
    } else {
        lemma_concat_set(a, b.drop_last());
        assert(a + b =~= (a + b.drop_last()).push(b.last()));
        assert(b =~= b.drop_last().push(b.last()));
        lemma_push_set(a + b.drop_last(), b.last());
        lemma_push_set(b.drop_last(), b.last());
        assert((a + b).to_set() =~= a.to_set().union(b.to_set()));
    }
}

/// Whether a scan may start: enough independent families among the continuous
/// sources.
pub fn source_quorum(settings: &Settings, sources: &Vec<SourceFacts>) -> (result: Result<
    SourceQuorum,
    Error,
>)
    ensures
        match result {
            Ok(quorum) => {
                &&& quorum.families == continuous_families(origins(sources@)).to_set().len()
                &&& quorum.families >= settings@.minimum_configured_sources
                &&& quorum.reference_possible == reference_possible(origins(sources@))
            },
            Err(e) => {
                &&& continuous_families(origins(sources@)).to_set().len()
                    < settings@.minimum_configured_sources
                &&& e@ == quorum_failure(settings@, origins(sources@))
            },
        },
{
    let ghost all = origins(sources@);
    let mut families: Vec<SourceFamily> = Vec::new();
    let mut count: usize = 0;
    let mut confirmation = false;
    let mut i: usize = 0;
    let ghost keep = |s: Origin| continuous(s);
    while i < sources.len()
        invariant
            i <= sources@.len(),
            count <= i,
            all == origins(sources@),
            keep == (|s: Origin| continuous(s)),
            count == all.take(i as int).filter(keep).len(),
            family_views(families@).no_duplicates(),
            family_views(families@).to_set() == continuous_families(all.take(i as int)).to_set(),
            confirmation <==> exists|j: int| 0 <= j < i && (#[trigger] all[j]).confirmation_only,
        decreases sources@.len() - i,
    {
        proof {
            take_next(all, i as int);
            filter_next(all, keep, i as int);
            lemma_concat_set(continuous_families(all.take(i as int)), all[i as int].families);
        }
        let source = &sources[i];
        if source.confirmation_only {
            assert(all[i as int].confirmation_only);
            confirmation = true;
        }
        if !source.validation_only && !source.confirmation_only {
            count = count + 1;
            families = add_families(families, &source.families);
        }
        i = i + 1;
    }
    let ghost named = continuous_families(all);
    proof {
        family_views(families@).unique_seq_to_set();
        assert(all.take(all.len() as int) == all);
    }
    if families.len() < settings.minimum_configured_sources {
        let needed = natural(settings.minimum_configured_sources as u128);
        let found = natural(count as u128);
        let distinct = natural(families.len() as u128);
        let front = concat6(
            "scanner requires ",
            needed.as_str(),
            " independent continuous source families; found ",
            found.as_str(),
            " sources across ",
            distinct.as_str(),
        );
        return Err(Error::Config(concat2(front.as_str(), " families")));
    }
    let mut reference = false;
    let mut k: usize = 0;
    let ghost listed = family_views(families@);
    while k < families.len()
        invariant
            k <= families@.len(),
            listed == family_views(families@),
            reference <==> exists|j: int| 0 <= j < k && (#[trigger] listed[j]).reference(),
        decreases families@.len() - k,
    {
        assert(listed[k as int] == families@[k as int]@);
        if families[k].is_reference() {
            reference = true;
        }
        k = k + 1;
    }
    proof {
        if reference {
            let j = choose|j: int| 0 <= j < listed.len() && (#[trigger] listed[j]).reference();
            assert(listed.to_set().contains(listed[j]));
            assert(named.contains(listed[j]));
            let m = choose|m: int| 0 <= m < named.len() && named[m] == listed[j];
            assert(named[m].reference());
        }
        if exists|m: int| 0 <= m < named.len() && (#[trigger] named[m]).reference() {
            let m = choose|m: int| 0 <= m < named.len() && (#[trigger] named[m]).reference();
            assert(named.to_set().contains(named[m]));
            assert(listed.contains(named[m]));
            let j = choose|j: int| 0 <= j < listed.len() && listed[j] == named[m];
            assert(listed[j].reference());
        }
    }
    Ok(
        SourceQuorum {
            families: families.len(),
            reference_possible: confirmation || reference,
        },
    )
}

/// A row that a scan goes on with.
pub open spec fn is_candidate(row: Row) -> bool {
    row.class != RecommendationClass::Rejected
}

/// The source ids behind the candidates, one after the other.
pub open spec fn contributors(rows: Seq<Row>) -> Seq<Seq<char>>
    decreases rows.len(),
{
    if rows.len() == 0 {
        seq![]
    } else {
        let front = contributors(rows.drop_last());
        if is_candidate(rows.last()) {
            front + rows.last().source_ids
        } else {
            front
        }
    }
}

/// How many of the ids belong to a source.
pub open spec fn touches(ids: Seq<Seq<char>>, source_id: Seq<char>) -> nat
    decreases ids.len(),
{
    if ids.len() == 0 {
        0
    } else {
        touches(ids.drop_last(), source_id) + if belongs(ids.last(), source_id) {
            1nat
        } else {
            0
        }
    }
}

/// How many sources go by an id.
pub open spec fn namesakes(sources: Seq<Origin>, source_id: Seq<char>) -> nat
    decreases sources.len(),
{
    if sources.len() == 0 {
        0
    } else {
        namesakes(sources.drop_last(), source_id) + if sources.last().id == source_id {
            1nat
        } else {
            0
        }
    }
}

/// A source that could be asked again: its place, and what it is ranked by.
pub struct Claim {
    pub place: int,
    pub reference: bool,
    pub frequency: int,
    pub id: Seq<char>,
}

/// Reference books first, then by how often a source contributed, then by id.
pub open spec fn by_claim() -> spec_fn(Claim, Claim) -> bool {
    |a: Claim, b: Claim| claims_before(a, b)
}

pub open spec fn claims_before(a: Claim, b: Claim) -> bool {
    if a.reference != b.reference {
        a.reference
    } else if a.frequency != b.frequency {
        a.frequency > b.frequency
    } else {
        text_before(a.id, b.id)
    }
}

/// The claims of the first `n` sources: every one that is not only for
/// confirmation and contributed.
pub open spec fn claims(sources: Seq<Origin>, ids: Seq<Seq<char>>, n: nat) -> Seq<Claim>
    decreases n,
{
    if n == 0 {
        seq![]
    } else {
        let front = claims(sources, ids, (n - 1) as nat);
        let source = sources[n - 1];
        if !source.confirmation_only && touches(ids, source.id) > 0 {
            front.push(
                Claim {
                    place: n - 1,
                    reference: source.family.reference(),
                    frequency: (touches(ids, source.id) * namesakes(sources, source.id)) as int,
                    id: source.id,
                },
            )
        } else {
            front
        }
    }
}

/// The places of the sources that are only for confirmation, among the first
/// `n`.
pub open spec fn confirming(sources: Seq<Origin>, n: nat) -> Seq<int>
    decreases n,
{
    if n == 0 {
        seq![]
    } else if sources[n - 1].confirmation_only {
        confirming(sources, (n - 1) as nat).push(n - 1)
    } else {
        confirming(sources, (n - 1) as nat)
    }
}

/// Most continuous sources that are asked again.
pub const REFETCH_LIMIT: usize = 3;

pub open spec fn first_claims(ranked: Seq<Claim>) -> Seq<Claim> {
    if ranked.len() <= REFETCH_LIMIT {
        ranked
    } else {
        ranked.take(REFETCH_LIMIT as int)
    }
}

/// The places of the sources to ask again: the best few claims, then every
/// source that is only for confirmation.
pub open spec fn refetch(sources: Seq<Origin>, rows: Seq<Row>) -> Seq<int> {
    let ranked = sorted(claims(sources, contributors(rows), sources.len()), by_claim());
    first_claims(ranked).map_values(|c: Claim| c.place) + confirming(sources, sources.len())
}

struct RankedSource {
    place: usize,
    reference: bool,
    frequency: u128,
    id: String,
}

impl View for RankedSource {
    type V = Claim;

    closed spec fn view(&self) -> Claim {
        Claim {
            place: self.place as int,
            reference: self.reference,
            frequency: self.frequency as int,
            id: self.id@,
        }
    }
}

spec fn claim_views(items: Seq<RankedSource>) -> Seq<Claim> {
    items.map_values(|item: RankedSource| item@)
}

struct ByClaim;

impl Precedence<RankedSource> for ByClaim {
    closed spec fn precedes(&self, a: RankedSource, b: RankedSource) -> bool {
        claims_before(a@, b@)
    }

    fn first(&self, a: &RankedSource, b: &RankedSource) -> (result: bool) {
        if a.reference != b.reference {
            a.reference
        } else if a.frequency != b.frequency {
            a.frequency > b.frequency
        } else {
            before(a.id.as_str(), b.id.as_str())
        }
    }
}

fn candidate_ids(rows: &Vec<Opportunity>) -> (result: Vec<String>)
    ensures
        texts(result@) == contributors(opportunity_views(rows@)),
{
    let ghost all = opportunity_views(rows@);
    let mut out: Vec<String> = Vec::new();
    let mut i: usize = 0;
    while i < rows.len()
        invariant
            i <= rows@.len(),
            all == opportunity_views(rows@),
            texts(out@) == contributors(all.take(i as int)),
        decreases rows@.len() - i,
    {
        proof {
            take_next(all, i as int);
        }
        if rows[i].class != RecommendationClass::Rejected {
            let ghost front = texts(out@);
            let ghost more = texts(rows@[i as int].source_ids@);
            let mut k: usize = 0;
            while k < rows[i].source_ids.len()
                invariant
                    i < rows@.len(),
                    k <= rows@[i as int].source_ids@.len(),
                    more == texts(rows@[i as int].source_ids@),
                    texts(out@) == front + more.take(k as int),
                decreases rows@[i as int].source_ids@.len() - k,
            {
                proof {
                    take_next(more, k as int);
                    assert(front + more.take(k as int).push(more[k as int]) =~= (front
                        + more.take(k as int)).push(more[k as int]));
                }
                out.push(owned(rows[i].source_ids[k].as_str()));
                k = k + 1;
            }
        }
        i = i + 1;
    }
    out
}

fn count_touches(ids: &Vec<String>, source_id: &str) -> (result: usize)
    ensures
        result == touches(texts(ids@), source_id@),
{
    let mut count: usize = 0;
    let mut i: usize = 0;
    while i < ids.len()
        invariant
            i <= ids@.len(),
            count <= i,
            count == touches(texts(ids@).take(i as int), source_id@),
        decreases ids@.len() - i,
    {
        proof {
            take_next(texts(ids@), i as int);
        }
        if quote_id_belongs_to(ids[i].as_str(), source_id) {
            count = count + 1;
        }
        i = i + 1;
    }
    count
}

fn count_namesakes(sources: &Vec<SourceFacts>, source_id: &str) -> (result: usize)
    ensures
        result == namesakes(origins(sources@), source_id@),
{
    let mut count: usize = 0;
    let mut i: usize = 0;
    while i < sources.len()
        invariant
            i <= sources@.len(),
            count <= i,
            count == namesakes(origins(sources@).take(i as int), source_id@),
        decreases sources@.len() - i,
    {
        proof {
            take_next(origins(sources@), i as int);
        }
        if same(sources[i].id.as_str(), source_id) {
            count = count + 1;
        }
        i = i + 1;
    }
    count
}

pub open spec fn places(items: Seq<usize>) -> Seq<int> {
    items.map_values(|i: usize| i as int)
}

/// Every quota-limited confirmation source, plus up to three of the continuous
/// sources that contributed to a candidate (reference books first, then by how
/// many candidates they touched). Their initial quotes are replaced wholesale,
/// so a candidate must survive fresh prices. Gives the places of the sources.
pub fn confirmation_sources(sources: &Vec<SourceFacts>, opportunities: &Vec<Opportunity>) -> (result:
    Vec<usize>)
    ensures
        places(result@) == refetch(origins(sources@), opportunity_views(opportunities@)),
{
    let ghost all = origins(sources@);
    let ids = candidate_ids(opportunities);
    let ghost named = texts(ids@);
    let mut ranked: Vec<RankedSource> = Vec::new();
    let mut i: usize = 0;
    while i < sources.len()
        invariant
            i <= sources@.len(),
            all == origins(sources@),
            named == texts(ids@),
            claim_views(ranked@) == claims(all, named, i as nat),
        decreases sources@.len() - i,
    {
        let source = &sources[i];
        assert(all[i as int] == source@);
        let touched: usize = count_touches(&ids, source.id.as_str());
        if !source.confirmation_only && touched > 0 {
            let copies: usize = count_namesakes(sources, source.id.as_str());
            proof {
                assert(touched as int * copies as int <= u64::MAX as int * u64::MAX as int)
                    by (nonlinear_arith)
                    requires
                        0 <= touched <= u64::MAX,
                        0 <= copies <= u64::MAX,
                ;
            }
            ranked.push(
                RankedSource {
                    place: i,
                    reference: source.family.is_reference(),
                    frequency: touched as u128 * copies as u128,
                    id: owned(source.id.as_str()),
                },
            );
        }
        i = i + 1;
    }
    proof {
        lemma_sorted_map(ranked@, |item: RankedSource| item@, ranking(ByClaim), by_claim());
    }
    let ordered = stable_sort(ranked, &ByClaim);
    let ghost best = claim_views(ordered@);
    let mut out: Vec<usize> = Vec::new();
    let mut k: usize = 0;
    while k < ordered.len() && k < REFETCH_LIMIT
        invariant
            k <= ordered@.len(),
            k <= REFETCH_LIMIT,
            best == claim_views(ordered@),
            places(out@) == best.take(k as int).map_values(|c: Claim| c.place),
        decreases ordered@.len() - k,
    {
        proof {
            take_next(best, k as int);
        }
        out.push(ordered[k].place);
        k = k + 1;
    }
    let ghost head = places(out@);
    let mut j: usize = 0;
    while j < sources.len()
        invariant
            j <= sources@.len(),
            all == origins(sources@),
            places(out@) == head + confirming(all, j as nat),
        decreases sources@.len() - j,
    {
        assert(all[j as int] == sources@[j as int]@);
        if sources[j].confirmation_only {
            proof {
                assert(head + confirming(all, j as nat).push(j as int) =~= (head + confirming(
                    all,
                    j as nat,
                )).push(j as int));
            }
            out.push(j);
        }
        j = j + 1;
    }
    out
}

proof fn lemma_claims(sources: Seq<Origin>, ids: Seq<Seq<char>>, n: nat)
    requires
        n <= sources.len(),
    ensures
        forall|i: int|
            0 <= i < claims(sources, ids, n).len() ==> {
                let c = #[trigger] claims(sources, ids, n)[i];
                &&& 0 <= c.place < n
                &&& !sources[c.place].confirmation_only
                &&& touches(ids, sources[c.place].id) > 0
            },
    decreases n,
{
    if n > 0 {
        lemma_claims(sources, ids, (n - 1) as nat);
    }
}

proof fn lemma_confirming(sources: Seq<Origin>, n: nat)
    requires
        n <= sources.len(),
    ensures
        forall|i: int| 0 <= i < n && (#[trigger] sources[i]).confirmation_only ==> confirming(
            sources,
            n,
        ).contains(i),
    decreases n,
{
    if n > 0 {
        lemma_confirming(sources, (n - 1) as nat);
        let front = confirming(sources, (n - 1) as nat);
        assert forall|i: int| 0 <= i < n && (#[trigger] sources[i]).confirmation_only implies confirming(
            sources,
            n,
        ).contains(i) by {
            if i < n - 1 {
                let k = choose|k: int| 0 <= k < front.len() && front[k] == i;
                assert(confirming(sources, n)[k] == i);
            } else {
                assert(confirming(sources, n)[front.len() as int] == i);
            }
        }
    }
}

/// A confirmation asks every source that is only for confirmation, and at most
/// three others, each of which contributed to a candidate: a rejected row never
/// drives one.
pub proof fn confirmation_asks_few_contributors(sources: Seq<Origin>, rows: Seq<Row>)
    ensures
        forall|i: int|
            0 <= i < sources.len() && (#[trigger] sources[i]).confirmation_only ==> refetch(
                sources,
                rows,
            ).contains(i),
        refetch(sources, rows).len() <= REFETCH_LIMIT + confirming(sources, sources.len()).len(),
        forall|k: int|
            0 <= k < refetch(sources, rows).len() - confirming(sources, sources.len()).len() ==> {
                let place = #[trigger] refetch(sources, rows)[k];
                &&& 0 <= place < sources.len()
                &&& touches(contributors(rows), sources[place].id) > 0
            },
{
    let ids = contributors(rows);
    let all = claims(sources, ids, sources.len());
    let ranked = sorted(all, by_claim());
    let best = first_claims(ranked);
    let tail = confirming(sources, sources.len());
    let head = best.map_values(|c: Claim| c.place);
    lemma_confirming(sources, sources.len());
    assert forall|i: int| 0 <= i < sources.len() && (
    #[trigger] sources[i]).confirmation_only implies refetch(sources, rows).contains(i) by {
        let k = choose|k: int| 0 <= k < tail.len() && tail[k] == i;
        assert(refetch(sources, rows)[head.len() + k] == i);
    }
    lemma_sorted_keeps(all, by_claim());
    lemma_claims(sources, ids, sources.len());
    assert forall|k: int| 0 <= k < head.len() implies {
        let place = #[trigger] refetch(sources, rows)[k];
        &&& 0 <= place < sources.len()
        &&& touches(ids, sources[place].id) > 0
    } by {
        broadcast use vstd::seq_lib::group_to_multiset_ensures;

        assert(ranked[k] == best[k]);
        assert(ranked.contains(best[k]));
        assert(ranked.to_multiset().count(best[k]) > 0);
        assert(all.contains(best[k]));
        let m = choose|m: int| 0 <= m < all.len() && all[m] == best[k];
        assert(refetch(sources, rows)[k] == all[m].place);
    }
}

/// By source, the latest record of each first.
pub open spec fn health_before(a: Health, b: Health) -> bool {
    if a.source_id != b.source_id {
        text_before(a.source_id, b.source_id)
    } else {
        a.checked_at > b.checked_at
    }
}

pub open spec fn by_health() -> spec_fn(Health, Health) -> bool {
    |a: Health, b: Health| health_before(a, b)
}

/// The first of each run of records of one source.
pub open spec fn run_heads(records: Seq<Health>) -> Seq<Health>
    decreases records.len(),
{
    if records.len() == 0 {
        seq![]
    } else {
        let front = run_heads(records.drop_last());
        if front.len() > 0 && front.last().source_id == records.last().source_id {
            front
        } else {
            front.push(records.last())
        }
    }
}

/// One record for each source, the latest, by source.
pub open spec fn latest_health(records: Seq<Health>) -> Seq<Health> {
    run_heads(sorted(records, by_health()))
}

struct ByHealth;

impl Precedence<SourceHealth> for ByHealth {
    closed spec fn precedes(&self, a: SourceHealth, b: SourceHealth) -> bool {
        health_before(a@, b@)
    }

    fn first(&self, a: &SourceHealth, b: &SourceHealth) -> (result: bool) {
        if !same(a.source_id.as_str(), b.source_id.as_str()) {
            before(a.source_id.as_str(), b.source_id.as_str())
        } else {
            b.checked_at.before(a.checked_at)
        }
    }
}

/// Keeps the latest record of each source, in the order of the sources.
pub fn deduplicate_health(health: Vec<SourceHealth>) -> (result: Vec<SourceHealth>)
    ensures
        source_health_views(result@) == latest_health(source_health_views(health@)),
{
    proof {
        lemma_sorted_map(health@, |h: SourceHealth| h@, ranking(ByHealth), by_health());
    }
    let ordered = stable_sort(health, &ByHealth);
    let ghost all = source_health_views(ordered@);
    let mut out: Vec<SourceHealth> = Vec::new();
    let mut i: usize = 0;
    while i < ordered.len()
        invariant
            i <= ordered@.len(),
            all == source_health_views(ordered@),
            source_health_views(out@) == run_heads(all.take(i as int)),
        decreases ordered@.len() - i,
    {
        proof {
            take_next(all, i as int);
        }
        let count: usize = out.len();
        if count > 0 {
            assert(source_health_views(out@).last() == out@[count - 1]@);
        }
        if count == 0 || !same(
            out[count - 1].source_id.as_str(),
            ordered[i].source_id.as_str(),
        ) {
            out.push(ordered[i].clone());
        }
        i = i + 1;
    }
    out
}

proof fn lemma_health_order()
    ensures
        is_order(by_health()),
{
    let precedes = by_health();
    assert forall|a: Health, b: Health| #[trigger] precedes(a, b) implies !precedes(b, a) by {
        lemma_text_total(a.source_id, b.source_id);
    }
    assert forall|a: Health, b: Health, c: Health|
        !(#[trigger] precedes(b, a)) && !(#[trigger] precedes(c, b)) implies !precedes(c, a) by {
        lemma_text_total(a.source_id, b.source_id);
        lemma_text_total(b.source_id, c.source_id);
        lemma_text_total(a.source_id, c.source_id);
        if text_before(a.source_id, b.source_id) && text_before(b.source_id, c.source_id) {
            lemma_text_transitive(a.source_id, b.source_id, c.source_id);
        }
    }
}

/// A record of the same source that is at least as late.
pub open spec fn covered(out: Seq<Health>, record: Health) -> bool {
    exists|i: int|
        0 <= i < out.len() && (#[trigger] out[i]).source_id == record.source_id
            && out[i].checked_at >= record.checked_at
}

/// `out` holds exactly one of the records of each source, the latest.
pub open spec fn holds_the_latest(out: Seq<Health>, records: Seq<Health>) -> bool {
    &&& forall|i: int, j: int|
        0 <= i < j < out.len() ==> (#[trigger] out[i]).source_id != (#[trigger] out[j]).source_id
    &&& forall|record: Health| #[trigger] out.contains(record) ==> records.contains(record)
    &&& forall|record: Health| records.contains(record) ==> #[trigger] covered(out, record)
}

proof fn lemma_front_in_order(records: Seq<Health>)
    requires
        in_order(records, by_health()),
        records.len() > 0,
    ensures
        in_order(records.drop_last(), by_health()),
        forall|record: Health| #[trigger]
            records.drop_last().contains(record) ==> !health_before(records.last(), record),
{
    let precedes = by_health();
    let front = records.drop_last();
    assert forall|i: int, j: int| 0 <= i < j < front.len() implies !precedes(
        #[trigger] front[j],
        #[trigger] front[i],
    ) by {
        assert(!precedes(records[j], records[i]));
    }
    assert forall|record: Health| #[trigger] front.contains(record) implies !health_before(
        records.last(),
        record,
    ) by {
        let i = choose|i: int| 0 <= i < front.len() && front[i] == record;
        assert(!precedes(records[records.len() - 1], records[i]));
    }
}

proof fn lemma_heads_are_records(records: Seq<Health>, record: Health)
    ensures
        run_heads(records).contains(record) ==> records.contains(record),
    decreases records.len(),
{
    if records.len() > 0 {
        let front = records.drop_last();
        let heads = run_heads(front);
        let out = run_heads(records);
        lemma_heads_are_records(front, record);
        if out.contains(record) {
            let i = choose|i: int| 0 <= i < out.len() && out[i] == record;
            if i < heads.len() {
                assert(heads[i] == record);
                let k = choose|k: int| 0 <= k < front.len() && front[k] == record;
                assert(records[k] == record);
            } else {
                assert(records[records.len() - 1] == record);
            }
        }
    }
}

proof fn lemma_heads_increase(records: Seq<Health>)
    requires
        in_order(records, by_health()),
    ensures
        records.len() > 0 ==> run_heads(records).len() > 0 && run_heads(records).last().source_id
            == records.last().source_id,
        forall|i: int, j: int|
            0 <= i < j < run_heads(records).len() ==> text_before(
                (#[trigger] run_heads(records)[i]).source_id,
                (#[trigger] run_heads(records)[j]).source_id,
            ),
    decreases records.len(),
{
    if records.len() > 0 {
        let heads = run_heads(records.drop_last());
        let last = records.last();
        lemma_front_in_order(records);
        lemma_heads_increase(records.drop_last());
        if heads.len() > 0 && heads.last().source_id != last.source_id {
            let top = heads.last();
            lemma_heads_are_records(records.drop_last(), top);
            assert(heads.contains(top)) by {
                assert(heads[heads.len() - 1] == top);
            }
            lemma_text_total(last.source_id, top.source_id);
            assert(text_before(top.source_id, last.source_id));
            assert forall|i: int, j: int| 0 <= i < j < run_heads(records).len() implies text_before(
                (#[trigger] run_heads(records)[i]).source_id,
                (#[trigger] run_heads(records)[j]).source_id,
            ) by {
                if j == heads.len() && i < heads.len() - 1 {
                    assert(text_before(heads[i].source_id, heads[heads.len() - 1].source_id));
                    lemma_text_transitive(heads[i].source_id, top.source_id, last.source_id);
                }
            }
        }
    }
}

proof fn lemma_heads_cover(records: Seq<Health>, record: Health)
    requires
        in_order(records, by_health()),
        records.contains(record),
    ensures
        covered(run_heads(records), record),
    decreases records.len(),
{
    let front = records.drop_last();
    let last = records.last();
    let heads = run_heads(front);
    let out = run_heads(records);
    lemma_front_in_order(records);
    if front.contains(record) {
        lemma_heads_cover(front, record);
        let i = choose|i: int|
            0 <= i < heads.len() && (#[trigger] heads[i]).source_id == record.source_id
                && heads[i].checked_at >= record.checked_at;
        assert(out[i] == heads[i]);
    } else {
        let k = choose|k: int| 0 <= k < records.len() && records[k] == record;
        if k < front.len() {
            assert(front[k] == record);
        }
        if heads.len() > 0 && heads.last().source_id == last.source_id {
            let top = heads[heads.len() - 1];
            assert(heads.contains(top));
            lemma_heads_are_records(front, top);
            assert(out[heads.len() - 1] == top);
        } else {
            assert(out[heads.len() as int] == last);
        }
    }
}

/// A scan reports each source once, with its latest record.
pub proof fn one_latest_record_per_source(records: Seq<Health>)
    ensures
        holds_the_latest(latest_health(records), records),
{
    let ordered = sorted(records, by_health());
    let out = latest_health(records);
    lemma_health_order();
    lemma_sorted_order(records, by_health());
    lemma_heads_increase(ordered);
    assert forall|i: int, j: int| 0 <= i < j < out.len() implies (#[trigger] out[i]).source_id != (
    #[trigger] out[j]).source_id by {
        lemma_text_total(out[i].source_id, out[j].source_id);
    }
    assert forall|record: Health| #[trigger] out.contains(record) implies records.contains(
        record,
    ) by {
        lemma_heads_are_records(ordered, record);
        lemma_sorted_members(records, record);
    }
    assert forall|record: Health| records.contains(record) implies #[trigger] covered(
        out,
        record,
    ) by {
        lemma_sorted_members(records, record);
        lemma_heads_cover(ordered, record);
    }
}

proof fn lemma_sorted_members(records: Seq<Health>, record: Health)
    ensures
        sorted(records, by_health()).contains(record) <==> records.contains(record),
{
    broadcast use vstd::seq_lib::group_to_multiset_ensures;

    lemma_sorted_keeps(records, by_health());
    assert(sorted(records, by_health()).to_multiset().count(record)
        == records.to_multiset().count(record));
}

/// The quotes of a source as a scan takes them: those of a source that is only
/// for validation never count.
pub open spec fn marked(quotes: Seq<Quote>, validation_only: bool) -> Seq<Quote> {
    quotes.map_values(
        |q: Quote| Quote { validation_only: q.validation_only || validation_only, ..q },
    )
}

/// What one collection adds to a scan: its quotes, and a record of how it went.
pub fn absorb_collection(
    source: &SourceFacts,
    outcome: &Result<Vec<SourceQuote>, Error>,
    checked_at: Timestamp,
    latency_ms: u64,
) -> (result: (Vec<SourceQuote>, SourceHealth))
    ensures
        source_quote_views(result.0@) == match *outcome {
            Ok(quotes) => marked(source_quote_views(quotes@), source@.validation_only),
            Err(_) => Seq::<Quote>::empty(),
        },
        result.1@ == match *outcome {
            Ok(quotes) => answered_record(
                source@,
                checked_at@,
                latency_ms as int,
                quotes@.len(),
                digits(quotes@.len()) + " quotes"@,
            ),
            Err(error) => failed_record(source@, checked_at@, latency_ms as int, error@),
        },
{
    match outcome {
        Ok(quotes) => {
            let ghost all = marked(source_quote_views(quotes@), source@.validation_only);
            let count: usize = quotes.len();
            let mut out: Vec<SourceQuote> = Vec::new();
            let mut i: usize = 0;
            while i < count
                invariant
                    count == quotes@.len(),
                    i <= count,
                    all == marked(source_quote_views(quotes@), source@.validation_only),
                    source_quote_views(out@) == all.take(i as int),
                decreases count - i,
            {
                proof {
                    take_next(all, i as int);
                }
                let mut quote = quotes[i].clone();
                quote.validation_only = quote.validation_only || source.validation_only;
                out.push(quote);
                i = i + 1;
            }
            let message = concat2(natural(count as u128).as_str(), " quotes");
            let mut health = health_ok(source, checked_at, latency_ms, message);
            health.odds_found = count;
            (out, health)
        },
        Err(error) => {
            let none: Vec<SourceQuote> = Vec::new();
            (none, health_err(source, checked_at, latency_ms, error))
        },
    }
}

/// The markets to judge in one pass. On a confirmation pass, quotes from the
/// sources that were asked again must be inside the confirmation window; every
/// other family keeps its first observation.
pub open spec fn pass(
    p: Policy,
    markets: Seq<Market>,
    quotes: Seq<Quote>,
    refetched: Option<Seq<Origin>>,
    now: int,
) -> Seq<(Market, Consensus)> {
    match refetched {
        Some(refetched) => evaluable(
            markets,
            in_window(quotes, refetched, p.confirmation_max_age, now),
            p,
            now,
        ),
        None => evaluable(markets, quotes, p, now),
    }
}

/// The markets to judge in one pass, each with its consensus. `refetched` is
/// `Some` on the confirmation pass.
pub fn pass_markets(
    settings: &Settings,
    markets: &Vec<UsMoneylineMarket>,
    quotes: &Vec<SourceQuote>,
    refetched: Option<&Vec<SourceFacts>>,
    now: Timestamp,
) -> (result: Vec<(UsMoneylineMarket, ConsensusPrice)>)
    ensures
        evaluable_views(result@) == pass(
            settings@,
            us_moneyline_market_views(markets@),
            source_quote_views(quotes@),
            match refetched {
                Some(refetched) => Some(origins(refetched@)),
                None => None,
            },
            now@,
        ),
{
    match refetched {
        Some(refetched) => {
            let kept = apply_confirmation_window(
                quotes,
                refetched,
                settings.confirmation_max_age,
                now,
            );
            consensus_markets(markets, &kept, settings, now)
        },
        None => consensus_markets(markets, quotes, settings, now),
    }
}

/// The sports of the candidates, each once, in the order they come up.
pub open spec fn candidate_sports(rows: Seq<Row>) -> Seq<Sport>
    decreases rows.len(),
{
    if rows.len() == 0 {
        seq![]
    } else {
        let front = candidate_sports(rows.drop_last());
        let row = rows.last();
        if is_candidate(row) && !front.contains(row.sport) {
            front.push(row.sport)
        } else {
            front
        }
    }
}

fn sports_of_candidates(rows: &Vec<Opportunity>) -> (result: Vec<Sport>)
    ensures
        result@ == candidate_sports(opportunity_views(rows@)),
{
    let ghost all = opportunity_views(rows@);
    let mut out: Vec<Sport> = Vec::new();
    let mut i: usize = 0;
    while i < rows.len()
        invariant
            i <= rows@.len(),
            all == opportunity_views(rows@),
            out@ == candidate_sports(all.take(i as int)),
        decreases rows@.len() - i,
    {
        proof {
            take_next(all, i as int);
        }
        if rows[i].class != RecommendationClass::Rejected && !has_sport(&out, rows[i].sport) {
            out.push(rows[i].sport);
        }
        i = i + 1;
    }
    out
}

/// What a scan does after its first pass.
#[derive(Debug)]
pub enum NextPass {
    /// Nothing was found that fresh prices could confirm.
    Finish,
    /// Ask the sources at these places for these sports again.
    Confirm { sources: Vec<usize>, sports: Vec<Sport> },
}

/// Decides what follows the first pass: a confirmation of the candidates, or
/// the end of the scan where there are none.
pub fn after_first_pass(sources: &Vec<SourceFacts>, rows: &Vec<Opportunity>) -> (result: NextPass)
    ensures
        match result {
            NextPass::Finish => candidate_sports(opportunity_views(rows@)).len() == 0,
            NextPass::Confirm { sources: asked, sports } => sports@.len() > 0 && sports@
                == candidate_sports(opportunity_views(rows@)) && places(asked@) == refetch(
                origins(sources@),
                opportunity_views(rows@),
            ),
        },
{
    let sports = sports_of_candidates(rows);
    if sports.len() == 0 {
        NextPass::Finish
    } else {
        NextPass::Confirm { sources: confirmation_sources(sources, rows), sports }
    }
}

/// A scan ends after its first pass exactly where every row is rejected; else
/// the sports that are asked for again are those of the candidates.
pub proof fn only_candidates_are_confirmed(rows: Seq<Row>)
    ensures
        candidate_sports(rows).no_duplicates(),
        forall|i: int|
            0 <= i < rows.len() && is_candidate(#[trigger] rows[i]) ==> candidate_sports(
                rows,
            ).contains(rows[i].sport),
        forall|k: int|
            0 <= k < candidate_sports(rows).len() ==> exists|i: int|
                0 <= i < rows.len() && is_candidate(#[trigger] rows[i]) && rows[i].sport
                    == #[trigger] candidate_sports(rows)[k],
    decreases rows.len(),
{
    if rows.len() > 0 {
        let front = rows.drop_last();
        let before = candidate_sports(front);
        let out = candidate_sports(rows);
        only_candidates_are_confirmed(front);
        assert forall|i: int| 0 <= i < rows.len() && is_candidate(
            #[trigger] rows[i],
        ) implies out.contains(rows[i].sport) by {
            if i < front.len() {
                assert(front[i] == rows[i]);
                let k = choose|k: int| 0 <= k < before.len() && before[k] == rows[i].sport;
                assert(out[k] == rows[i].sport);
            } else if !before.contains(rows[i].sport) {
                assert(out[before.len() as int] == rows[i].sport);
            } else {
                let k = choose|k: int| 0 <= k < before.len() && before[k] == rows[i].sport;
                assert(out[k] == rows[i].sport);
            }
        }
        assert forall|k: int| 0 <= k < out.len() implies exists|i: int|
            0 <= i < rows.len() && is_candidate(#[trigger] rows[i]) && rows[i].sport
                == #[trigger] out[k] by {
            if k < before.len() {
                let i = choose|i: int|
                    0 <= i < front.len() && is_candidate(#[trigger] front[i]) && front[i].sport
                        == before[k];
                assert(rows[i] == front[i]);
            } else {
                assert(rows[rows.len() - 1] == rows.last());
            }
        }
    }
}

/// The largest net edge first.
pub open spec fn by_net_edge() -> spec_fn(Row, Row) -> bool {
    |a: Row, b: Row| b.net_edge.lt(a.net_edge)
}

struct ByNetEdge;

impl Precedence<Opportunity> for ByNetEdge {
    closed spec fn precedes(&self, a: Opportunity, b: Opportunity) -> bool {
        b@.net_edge.lt(a@.net_edge)
    }

    fn first(&self, a: &Opportunity, b: &Opportunity) -> (result: bool) {
        b.net_edge.less(a.net_edge)
    }
}

/// The rows with the largest net edge first.
pub fn rank_rows(rows: Vec<Opportunity>) -> (result: Vec<Opportunity>)
    ensures
        opportunity_views(result@) == sorted(opportunity_views(rows@), by_net_edge()),
{
    proof {
        lemma_sorted_map(rows@, |row: Opportunity| row@, ranking(ByNetEdge), by_net_edge());
    }
    stable_sort(rows, &ByNetEdge)
}

/// Rows are shown best first: none has a larger net edge than one above it.
pub proof fn rows_are_ranked_by_net_edge(rows: Seq<Row>)
    ensures
        in_order(sorted(rows, by_net_edge()), by_net_edge()),
        sorted(rows, by_net_edge()).to_multiset() == rows.to_multiset(),
{
    assert(is_order(by_net_edge()));
    lemma_sorted_order(rows, by_net_edge());
    lemma_sorted_keeps(rows, by_net_edge());
}

/// The rows that go on to news review.
pub fn news_candidates(rows: &Vec<Opportunity>) -> (result: Vec<Opportunity>)
    ensures
        opportunity_views(result@) == opportunity_views(rows@).filter(|row: Row| is_candidate(row)),
{
    let ghost all = opportunity_views(rows@);
    let ghost keep = |row: Row| is_candidate(row);
    let mut out: Vec<Opportunity> = Vec::new();
    let mut i: usize = 0;
    while i < rows.len()
        invariant
            i <= rows@.len(),
            all == opportunity_views(rows@),
            keep == (|row: Row| is_candidate(row)),
            opportunity_views(out@) == all.take(i as int).filter(keep),
        decreases rows@.len() - i,
    {
        proof {
            filter_next(all, keep, i as int);
        }
        if rows[i].class != RecommendationClass::Rejected {
            out.push(rows[i].clone());
        }
        i = i + 1;
    }
    out
}

/// What a scan leaves behind: its rows ranked, each source once, and the inputs
/// it decided on.
pub open spec fn captured(
    scan_id: int,
    started_at: int,
    evaluated_at: int,
    completed_at: int,
    markets: Seq<Market>,
    books: Seq<Book>,
    quotes: Seq<Quote>,
    portfolio: Portfolio,
    rows: Seq<Row>,
    health: Seq<Health>,
) -> Capture {
    Capture {
        snapshot: Snapshot {
            scan_id,
            started_at,
            evaluated_at,
            completed_at,
            market_count: markets.len(),
            quote_count: quotes.len(),
            opportunities: sorted(rows, by_net_edge()),
            source_health: latest_health(health),
        },
        markets,
        books,
        quotes,
        portfolio,
    }
}

/// Puts together what a scan leaves behind.
pub fn capture_scan(
    scan_id: u128,
    started_at: Timestamp,
    evaluated_at: Timestamp,
    completed_at: Timestamp,
    markets: Vec<UsMoneylineMarket>,
    books: Vec<MarketBook>,
    quotes: Vec<SourceQuote>,
    portfolio: PaperPortfolio,
    opportunities: Vec<Opportunity>,
    health: Vec<SourceHealth>,
) -> (result: ScanCapture)
    ensures
        result@ == captured(
            scan_id as int,
            started_at@,
            evaluated_at@,
            completed_at@,
            us_moneyline_market_views(markets@),
            market_book_views(books@),
            source_quote_views(quotes@),
            portfolio@,
            opportunity_views(opportunities@),
            source_health_views(health@),
        ),
{
    let snapshot = ScanSnapshot {
        scan_id,
        started_at,
        evaluated_at,
        completed_at,
        market_count: markets.len(),
        quote_count: quotes.len(),
        opportunities: rank_rows(opportunities),
        source_health: deduplicate_health(health),
    };
    ScanCapture { snapshot, markets, books, quotes, portfolio }
}

/// What a scan under a lease ends with: its own error first, then the one of
/// giving the lease back.
pub fn scan_outcome<T>(scan: Result<T, Error>, release: Result<(), Error>) -> (result: Result<
    T,
    Error,
>)
    ensures
        result == match (scan, release) {
            (Ok(snapshot), Ok(_)) => Ok::<T, Error>(snapshot),
            (Err(error), _) => Err::<T, Error>(error),
            (Ok(_), Err(error)) => Err::<T, Error>(error),
        },
{
    match (scan, release) {
        (Ok(snapshot), Ok(_)) => Ok(snapshot),
        (Err(error), _) => Err(error),
        (Ok(_), Err(error)) => Err(error),
    }
}

/// Whether a discovery that is so many nanoseconds old is used again.
pub fn discovery_is_fresh(age_nanos: u128, refresh_seconds: u64) -> (result: bool)
    ensures
        result == (age_nanos < refresh_seconds * NANOS_PER_SECOND),
{
    age_nanos < refresh_seconds as u128 * 1_000_000_000
}

} // verus!
