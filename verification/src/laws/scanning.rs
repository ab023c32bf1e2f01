//! What a scan takes from its sources, and what it judges.

use vstd::prelude::*;

use crate::config::Policy;
use crate::consensus::consensus_of;
use crate::domain::{
    Book, Capture, Consensus, Health, Market, Portfolio, Quote, RecommendationClass, Row, Sport,
};
use crate::error::Failure;
use crate::matching::{orientation, oriented};
use crate::opportunity::market_rows;
use crate::scan::{continuous_places, quotes_of, record_of, Heard};
use crate::scanner::{
    belongs, belongs_to_any, book_of, candidate_sports, captured, confirmed, continuous,
    continuous_families, contributors, evaluable, far_out, in_window, is_candidate, judged,
    market_consensus, marked, matching_quotes, merged, pass, reference_possible, touches, untouched,
};
use crate::seqs::{filter_member, group_seqs, kept};
use crate::sources::Origin;
use crate::text::has_prefix;

verus! {

broadcast use group_seqs;

/// Whether a quote comes from a source: under the source's own identifier, or
/// under one that the source's and a colon begin.
pub open spec fn comes_from(id: Seq<char>, source: Seq<char>) -> bool {
    id == source || (id.len() > source.len() && id.take(source.len() as int) == source
        && id[source.len() as int] == ':')
}

/// Whether it comes from one of some sources.
pub open spec fn comes_from_any(id: Seq<char>, sources: Seq<Origin>) -> bool {
    exists|i: int| 0 <= i < sources.len() && comes_from(id, (#[trigger] sources[i]).id)
}

proof fn lemma_comes_from(id: Seq<char>, source: Seq<char>)
    ensures
        belongs(id, source) <==> comes_from(id, source),
{
    reveal_strlit(":");
    let p = source + ":"@;
    if has_prefix(id, p) {
        assert forall|i: int| 0 <= i < source.len() implies id[i] == source[i] by {
            assert(p[i] == source[i]);
        }
        assert(p[source.len() as int] == ':');
        assert(id.take(source.len() as int) =~= source);
    }
    if comes_from(id, source) && id != source {
        assert forall|i: int| 0 <= i < p.len() implies id[i] == p[i] by {
            if i < source.len() {
                assert(id.take(source.len() as int)[i] == source[i]);
            }
        }
        assert(id.subrange(0, p.len() as int) =~= p);
        assert(has_prefix(id, p));
    }
}

proof fn lemma_comes_from_any(id: Seq<char>, sources: Seq<Origin>)
    ensures
        belongs_to_any(id, sources) <==> comes_from_any(id, sources),
{
    if belongs_to_any(id, sources) {
        let i = choose|i: int| 0 <= i < sources.len() && belongs(id, (#[trigger] sources[i]).id);
        lemma_comes_from(id, sources[i].id);
    }
    if comes_from_any(id, sources) {
        let i = choose|i: int| 0 <= i < sources.len() && comes_from(id, (#[trigger] sources[i]).id);
        lemma_comes_from(id, sources[i].id);
    }
}

/// A confirmation leaves out exactly the quotes of the sources asked again that
/// are older than the window; everything else stays.
pub proof fn only_stale_answers_of_the_asked_fall_out(
    quotes: Seq<Quote>,
    refetched: Seq<Origin>,
    max_age: int,
    now: int,
    quote: Quote,
)
    requires
        0 <= max_age <= 9_000_000_000_000_000,
    ensures
        in_window(quotes, refetched, max_age, now).contains(quote) <==> quotes.contains(quote) && !(
        comes_from_any(quote.source_id, refetched) && now - quote.fetched_at > max_age
            * 1_000_000_000),
{
    lemma_comes_from_any(quote.source_id, refetched);
    crate::scanner::window_binds_only_the_refetched(quotes, refetched, max_age, now, quote);
}

/// A confirmation takes every fresh quote, and keeps exactly those of the first
/// pass that are of another sport or of a source that was not asked again.
pub proof fn fresh_answers_replace_the_asked(
    quotes: Seq<Quote>,
    fresh: Seq<Quote>,
    refetched: Seq<Origin>,
    sports: Seq<Sport>,
    quote: Quote,
)
    ensures
        merged(quotes, fresh, refetched, sports).contains(quote) <==> fresh.contains(quote) || (
        quotes.contains(quote) && (!sports.contains(quote.sport) || !comes_from_any(
            quote.source_id,
            refetched,
        ))),
{
    lemma_comes_from_any(quote.source_id, refetched);
    crate::scanner::confirmation_replaces_only_the_refetched(
        quotes,
        fresh,
        refetched,
        sports,
        quote,
    );
    let keep = |q: Quote| untouched(q, refetched, sports);
    filter_member(quotes, keep, quote);
    let out = merged(quotes, fresh, refetched, sports);
    let kept = quotes.filter(keep);
    if out.contains(quote) && !fresh.contains(quote) {
        let i = choose|i: int| 0 <= i < out.len() && out[i] == quote;
        if i >= kept.len() {
            assert(fresh[i - kept.len()] == quote);
        } else {
            assert(kept[i] == quote);
        }
    }
}

/// What a quote says of a market: itself turned the market's way round, if it
/// matches, and nothing where it is an exchange's and exchanges have no say.
pub open spec fn said_of(market: Market, no_exchanges: bool) -> spec_fn(Quote) -> Option<Quote> {
    |q: Quote|
        if no_exchanges && (q.family is Kalshi || q.family is PolymarketGlobal) {
            None
        } else {
            match orientation(market, q) {
                Some(way) => Some(oriented(q, way)),
                None => None,
            }
        }
}

/// The quotes that speak of a market are those that match it, each turned its
/// way round, in order, and none of an exchange where exchanges have no say.
pub proof fn matching_quotes_are_turned_to_the_market(
    market: Market,
    quotes: Seq<Quote>,
    no_exchanges: bool,
)
    ensures
        matching_quotes(market, quotes, no_exchanges) == kept(
            quotes,
            said_of(market, no_exchanges),
        ),
    decreases quotes.len(),
{
    if quotes.len() > 0 {
        matching_quotes_are_turned_to_the_market(market, quotes.drop_last(), no_exchanges);
    }
}

/// The consensus on a market is built from the quotes that speak of it, in the
/// window of the settings; exchanges have a say only inside their lead.
pub proof fn exchanges_speak_only_close_to_the_start(
    p: Policy,
    market: Market,
    quotes: Seq<Quote>,
    now: int,
)
    requires
        0 <= p.exchange_max_lead <= 9_000_000_000_000_000,
        0 <= p.max_quote_age <= i64::MAX,
    ensures
        market_consensus(p, market, quotes, now) == consensus_of(
            matching_quotes(
                market,
                quotes,
                market.start_time - now > p.exchange_max_lead * 1_000_000_000,
            ),
            p.max_quote_age,
            now,
        ),
{
}

/// A market with its consensus, if it has not started and has one.
pub open spec fn with_its_consensus(p: Policy, quotes: Seq<Quote>, now: int) -> spec_fn(
    Market,
) -> Option<(Market, Consensus)> {
    |m: Market|
        if now < m.start_time {
            match market_consensus(p, m, quotes, now) {
                Ok(c) => Some((m, c)),
                Err(_) => None,
            }
        } else {
            None
        }
}

/// Every market that has not started and has a consensus is judged, with that
/// consensus, in order, and no other.
pub proof fn unstarted_markets_with_a_consensus_are_judged(
    markets: Seq<Market>,
    quotes: Seq<Quote>,
    p: Policy,
    now: int,
)
    ensures
        evaluable(markets, quotes, p, now) == kept(markets, with_its_consensus(p, quotes, now)),
    decreases markets.len(),
{
    if markets.len() > 0 {
        unstarted_markets_with_a_consensus_are_judged(markets.drop_last(), quotes, p, now);
    }
}

/// The book of a market is the last one under its slug.
pub proof fn the_last_book_counts(books: Seq<Book>, slug: Seq<char>)
    ensures
        book_of(books, slug) matches Some(book) ==> exists|i: int|
            0 <= i < books.len() && #[trigger] books[i] == book && book.market_slug == slug
                && forall|j: int| i < j < books.len() ==> (#[trigger] books[j]).market_slug != slug,
        book_of(books, slug) is None ==> forall|j: int|
            0 <= j < books.len() ==> (#[trigger] books[j]).market_slug != slug,
    decreases books.len(),
{
    if books.len() > 0 {
        let front = books.drop_last();
        let last = books.len() - 1;
        assert(books[last] == books.last());
        if books.last().market_slug != slug {
            the_last_book_counts(front, slug);
            if let Some(book) = book_of(books, slug) {
                let i = choose|i: int|
                    0 <= i < front.len() && #[trigger] front[i] == book && book.market_slug == slug
                        && forall|j: int|
                        i < j < front.len() ==> (#[trigger] front[j]).market_slug != slug;
                assert(books[i] == book);
                assert forall|j: int| i < j < books.len() implies (
                #[trigger] books[j]).market_slug != slug by {
                    if j < front.len() {
                        assert(front[j] == books[j]);
                    }
                }
            } else {
                assert forall|j: int| 0 <= j < books.len() implies (
                #[trigger] books[j]).market_slug != slug by {
                    if j < front.len() {
                        assert(front[j] == books[j]);
                    }
                }
            }
        }
    }
}

/// One more market adds the rows of both its sides, on its own book and
/// consensus, behind those of the others, and nothing where it has no book.
pub proof fn each_market_is_judged_on_its_own_book(
    p: Policy,
    markets: Seq<(Market, Consensus)>,
    market: Market,
    consensus: Consensus,
    books: Seq<Book>,
    portfolio: Portfolio,
    now: int,
)
    ensures
        judged(p, seq![], books, portfolio, now) == Some(Seq::<Row>::empty()),
        book_of(books, market.market_slug) is None ==> judged(
            p,
            markets.push((market, consensus)),
            books,
            portfolio,
            now,
        ) == judged(p, markets, books, portfolio, now),
        judged(p, markets.push((market, consensus)), books, portfolio, now) matches Some(rows) ==> (
        book_of(books, market.market_slug) matches Some(book) ==> (judged(
            p,
            markets,
            books,
            portfolio,
            now,
        ) matches Some(before) && (market_rows(p, market, book, consensus, portfolio, now) matches Some(
            own,
        ) && rows == before + own))),
{
    assert(markets.push((market, consensus)).drop_last() =~= markets);
}

/// A first pass judges on all the quotes; a confirmation on those that are left
/// inside the confirmation window.
pub proof fn a_confirmation_is_held_to_its_own_window(
    p: Policy,
    markets: Seq<Market>,
    quotes: Seq<Quote>,
    refetched: Seq<Origin>,
    now: int,
)
    ensures
        pass(p, markets, quotes, None, now) == evaluable(markets, quotes, p, now),
        pass(p, markets, quotes, Some(refetched), now) == evaluable(
            markets,
            in_window(quotes, refetched, p.confirmation_max_age, now),
            p,
            now,
        ),
{
}

/// What an answer brings: its quotes, which never count where the source is
/// only for validation, and a record of the source; a failure brings no quote
/// and is recorded as one.
pub proof fn an_answer_is_taken_as_its_sources(sources: Seq<Origin>, answer: Heard)
    requires
        0 <= answer.source < sources.len(),
    ensures
        ({
            let source = sources[answer.source];
            let out = quotes_of(sources, answer);
            &&& answer.outcome is Err ==> out.len() == 0
            &&& answer.outcome matches Ok(quotes) ==> out.len() == quotes.len() && forall|i: int|
                0 <= i < out.len() ==> {
                    &&& (#[trigger] out[i]).validation_only == (quotes[i].validation_only
                        || source.validation_only)
                    &&& out[i].source_id == quotes[i].source_id
                    &&& out[i].decimal_odds_a == quotes[i].decimal_odds_a
                    &&& out[i].decimal_odds_b == quotes[i].decimal_odds_b
                    &&& out[i].participant_a == quotes[i].participant_a
                    &&& out[i].participant_b == quotes[i].participant_b
                    &&& out[i].fetched_at == quotes[i].fetched_at
                    &&& out[i].family == quotes[i].family
                }
            &&& record_of(sources, answer) matches Some(record) && record.source_id == source.id
                && record.family == source.family && record.checked_at == answer.checked_at
                && record.latency_ms == answer.latency_ms && record.reachable
                == answer.outcome is Ok && record.odds_found == (match answer.outcome {
                Ok(quotes) => quotes.len(),
                Err(_) => 0,
            })
        }),
{
}

/// A scan first asks exactly the sources that are not kept for confirmation.
pub proof fn confirmation_sources_are_not_asked_first(sources: Seq<Origin>, n: nat)
    requires
        n <= sources.len(),
    ensures
        forall|i: int|
            0 <= i < n ==> (continuous_places(sources, n).contains(i) <==> !(
            #[trigger] sources[i]).confirmation_only),
        forall|k: int|
            0 <= k < continuous_places(sources, n).len() ==> 0 <= #[trigger] continuous_places(
                sources,
                n,
            )[k] < n,
    decreases n,
{
    if n > 0 {
        let m = (n - 1) as nat;
        confirmation_sources_are_not_asked_first(sources, m);
        let (before, out) = (continuous_places(sources, m), continuous_places(sources, n));
        assert forall|i: int| 0 <= i < n implies (out.contains(i) <==> !(
        #[trigger] sources[i]).confirmation_only) by {
            if i < m {
                if before.contains(i) {
                    let k = choose|k: int| 0 <= k < before.len() && before[k] == i;
                    assert(out[k] == i);
                }
                if out.contains(i) {
                    let k = choose|k: int| 0 <= k < out.len() && out[k] == i;
                    assert(before[k] == i);
                }
            } else {
                if !sources[i].confirmation_only {
                    assert(out[out.len() - 1] == i);
                } else if out.contains(i) {
                    let k = choose|k: int| 0 <= k < out.len() && out[k] == i;
                    assert(before[k] == i);
                }
            }
        }
    }
}

/// What a scan goes on with: the rows that are not rejected, and their sports.
pub proof fn rejected_rows_lead_nowhere(rows: Seq<Row>)
    ensures
        forall|row: Row| #[trigger] is_candidate(row) <==> !(row.class is Rejected),
        forall|sport: Sport| #[trigger]
            candidate_sports(rows).contains(sport) <==> exists|i: int|
                0 <= i < rows.len() && (#[trigger] rows[i]).sport == sport && !(
                rows[i].class is Rejected),
{
    crate::scanner::only_candidates_are_confirmed(rows);
    assert forall|sport: Sport| #[trigger]
        candidate_sports(rows).contains(sport) <==> exists|i: int|
            0 <= i < rows.len() && (#[trigger] rows[i]).sport == sport && !(
            rows[i].class is Rejected) by {
        if candidate_sports(rows).contains(sport) {
            let k = choose|k: int|
                0 <= k < candidate_sports(rows).len() && candidate_sports(rows)[k] == sport;
            assert(candidate_sports(rows)[k] == sport);
        }
        if exists|i: int|
            0 <= i < rows.len() && (#[trigger] rows[i]).sport == sport && !(
            rows[i].class is Rejected) {
            let i = choose|i: int|
                0 <= i < rows.len() && (#[trigger] rows[i]).sport == sport && !(
                rows[i].class is Rejected);
            assert(is_candidate(rows[i]));
        }
    }
}

/// A scan leaves behind what it was given and decided: every row once, none
/// behind one with a smaller net edge, counted as they are.
pub proof fn a_scan_leaves_what_it_decided(
    scan_id: int,
    started_at: int,
    evaluated_at: int,
    completed_at: int,
    markets: Seq<Market>,
    books: Seq<Book>,
    quotes: Seq<Quote>,
    portfolio: Portfolio,
    rows: Seq<Row>,
    health: Seq<Health>,
)
    ensures
        ({
            let c = captured(
                scan_id,
                started_at,
                evaluated_at,
                completed_at,
                markets,
                books,
                quotes,
                portfolio,
                rows,
                health,
            );
            &&& c.snapshot.scan_id == scan_id
            &&& c.snapshot.started_at == started_at
            &&& c.snapshot.evaluated_at == evaluated_at
            &&& c.snapshot.completed_at == completed_at
            &&& c.snapshot.market_count == markets.len()
            &&& c.snapshot.quote_count == quotes.len()
            &&& c.snapshot.opportunities.to_multiset() == rows.to_multiset()
            &&& forall|i: int, j: int|
                0 <= i < j < c.snapshot.opportunities.len() ==> (
                #[trigger] c.snapshot.opportunities[i]).net_edge.value() >= (
                #[trigger] c.snapshot.opportunities[j]).net_edge.value()
            &&& c.markets == markets
            &&& c.books == books
            &&& c.quotes == quotes
            &&& c.portfolio == portfolio
        }),
{
    crate::scanner::rows_are_ranked_by_net_edge(rows);
    let out = crate::seqs::sorted(rows, crate::scanner::by_net_edge());
    assert forall|i: int, j: int| 0 <= i < j < out.len() implies (
    #[trigger] out[i]).net_edge.value() >= (#[trigger] out[j]).net_edge.value() by {
        assert(!crate::scanner::by_net_edge()(out[j], out[i]));
    }
}

/// The families that count for a start are those of the sources that are neither
/// for validation nor kept for confirmation.
pub proof fn only_continuous_sources_count(sources: Seq<Origin>, family: crate::domain::Family)
    ensures
        continuous_families(sources).contains(family) <==> exists|i: int|
            0 <= i < sources.len() && !(#[trigger] sources[i]).validation_only
                && !sources[i].confirmation_only && sources[i].families.contains(family),
    decreases sources.len(),
{
    if sources.len() > 0 {
        let front = sources.drop_last();
        let last = sources.len() - 1;
        only_continuous_sources_count(front, family);
        let (before, all) = (continuous_families(front), continuous_families(sources));
        assert(sources[last] == sources.last());
        if before.contains(family) {
            let k = choose|k: int| 0 <= k < before.len() && before[k] == family;
            assert(all[k] == family);
            let i = choose|i: int|
                0 <= i < front.len() && !(#[trigger] front[i]).validation_only
                    && !front[i].confirmation_only && front[i].families.contains(family);
            assert(sources[i] == front[i]);
        }
        if continuous(sources.last()) && sources.last().families.contains(family) {
            let own = sources.last().families;
            let k = choose|k: int| 0 <= k < own.len() && own[k] == family;
            assert(all[before.len() + k] == family);
        }
        if all.contains(family) && !before.contains(family) {
            let k = choose|k: int| 0 <= k < all.len() && all[k] == family;
            if k < before.len() {
                assert(before[k] == family);
            } else {
                assert(sources.last().families[k - before.len()] == family);
            }
        }
        if exists|i: int|
            0 <= i < sources.len() && !(#[trigger] sources[i]).validation_only
                && !sources[i].confirmation_only && sources[i].families.contains(family) {
            let i = choose|i: int|
                0 <= i < sources.len() && !(#[trigger] sources[i]).validation_only
                    && !sources[i].confirmation_only && sources[i].families.contains(family);
            if i < last {
                assert(front[i] == sources[i]);
            }
        }
    }
}

/// What sources answered is taken in one after the other.
pub proof fn answers_are_taken_in_turn(sources: Seq<Origin>, answers: Seq<Heard>, answer: Heard)
    ensures
        crate::scan::quotes_heard(sources, seq![]) == Seq::<Quote>::empty(),
        crate::scan::quotes_heard(sources, answers.push(answer)) == crate::scan::quotes_heard(
            sources,
            answers,
        ) + quotes_of(sources, answer),
{
    assert(answers.push(answer).drop_last() =~= answers);
}

/// A scan is confirmed on what it had and what was answered again: the quotes
/// are merged for the sources and sports that were asked, judged inside the
/// confirmation window, and the records kept with the first ones.
pub proof fn a_confirmation_judges_the_merged_quotes(
    run: crate::scan::Run,
    asked: Seq<int>,
    sports: Seq<Sport>,
    answers: Seq<Heard>,
    now: int,
)
    ensures
        ({
            let again = crate::scan::reopened(run, asked, sports, answers, now);
            let refetched = crate::scan::at_places(run.sources, asked);
            &&& again.quotes == merged(
                run.quotes,
                crate::scan::quotes_heard(run.sources, answers),
                refetched,
                sports,
            )
            &&& again.evaluable == pass(run.policy, run.markets, again.quotes, Some(refetched), now)
            &&& again.confirmed
            &&& again.health == run.health + crate::scan::records_heard(run.sources, answers)
        }),
{
}

/// A reference can take part where a source is asked for confirmation only, or a
/// continuous source brings a reference family; and not otherwise.
pub proof fn references_come_from_the_sources(sources: Seq<Origin>)
    ensures
        reference_possible(sources) <==> (exists|i: int|
            0 <= i < sources.len() && (#[trigger] sources[i]).confirmation_only) || (exists|
            family: crate::domain::Family,
        |
            family.reference() && #[trigger] continuous_families(sources).contains(family)),
{
    let all = continuous_families(sources);
    if exists|i: int| 0 <= i < all.len() && (#[trigger] all[i]).reference() {
        let i = choose|i: int| 0 <= i < all.len() && (#[trigger] all[i]).reference();
        assert(all.contains(all[i]));
    }
    if exists|family: crate::domain::Family|
        family.reference() && #[trigger] all.contains(family) {
        let family = choose|family: crate::domain::Family|
            family.reference() && #[trigger] all.contains(family);
        let i = choose|i: int| 0 <= i < all.len() && all[i] == family;
        assert(all[i].reference());
    }
}

} // verus!
