//! What the archive holds of a scan, and what an operator is shown.

use vstd::prelude::*;

use crate::config::Policy;
use crate::decimal::{difference, lemma_pow10_values, lemma_value_sign, size, unit, zero, Dec};
use crate::domain::{
    totals, Book, Capture, Market, OutcomeSide, RecommendationClass, Research, Row, Snapshot, Sport,
};
use crate::laws::settling::lemma_one;
use crate::records::{
    archived, archived_row, bare, defined, listed_in, restored, supplies_start, updated, with_name,
    ArchivedBook, Known, Listed,
};
use crate::scanner::{
    by_claim, claims, claims_before, contributors, first_claims, refetch, touches, Claim,
};
use crate::seqs::{
    group_seqs, how_many, is_order, lemma_sorted_keeps, lemma_sorted_order, sorted,
};
use crate::sources::Origin;
use crate::text::{lemma_text_total, lemma_text_transitive, same_ignoring_case, text_before};
use crate::tui::data::{edge_shorter, families_short, gates_failed, price_out, shortfall};
use crate::tui::{closer, comes_first, Key, Outcome, SortKey, Tab, World};

verus! {

broadcast use group_seqs;

/// An archived opportunity holds each number under its own name, and its side,
/// class and sport by theirs.
pub proof fn opportunities_are_archived_field_by_field(row: Row)
    ensures
        ({
            let r = archived_row(row);
            &&& r.opportunity_id == row.id
            &&& r.market_id == row.market_id
            &&& r.event_id == row.event_id
            &&& r.side == if row.side is Long {
                "long"@
            } else {
                "short"@
            }
            &&& r.class == match row.class {
                RecommendationClass::Actionable => "actionable"@,
                RecommendationClass::Watchlist => "watchlist"@,
                RecommendationClass::Rejected => "rejected"@,
            }
            &&& r.sport == match row.sport {
                Sport::Nfl => "nfl"@,
                Sport::Nba => "nba"@,
                Sport::Wnba => "wnba"@,
                Sport::Mlb => "mlb"@,
                Sport::Tennis => "tennis"@,
            }
            &&& r.participant == row.participant
            &&& r.fair_probability == row.fair_probability
            &&& r.conservative_probability == row.conservative_probability
            &&& r.executable_price == row.executable_price
            &&& r.maker_price == row.maker_price
            &&& r.maker_net_edge == row.maker_net_edge
            &&& r.raw_edge == row.raw_edge
            &&& r.net_edge == row.net_edge
            &&& r.quantity == row.quantity
            &&& r.maximum_loss == row.maximum_loss
            &&& r.estimated_fee == row.estimated_fee
            &&& r.family_count == row.family_count
            &&& r.source_ids == row.source_ids
            &&& r.reasons == row.reasons
            &&& r.start_time == row.start_time
            &&& r.book_time == row.book_time
            &&& r.generated_at == row.generated_at
        }),
{
}

/// An archived book holds its own bids and offers, under its market.
pub proof fn books_are_archived_side_by_side(market: Market, book: Book)
    ensures
        ({
            let a = archived(market, book);
            &&& a.market_id == market.market_id
            &&& a.start_time == market.start_time
            &&& a.ep3_status == market.ep3_status
            &&& a.bids == book.bids
            &&& a.offers == book.offers
            &&& a.state == book.state
            &&& a.transact_time == book.transact_time
            &&& a.fetched_at == book.fetched_at
        }),
{
}

/// What comes back of an archived book: its own levels, state and instants, on
/// the market as it was then.
pub proof fn books_come_back_as_they_were(row: ArchivedBook, definition: Market)
    ensures
        ({
            let (market, book) = restored(row, definition);
            &&& book.bids == row.bids
            &&& book.offers == row.offers
            &&& book.state == row.state
            &&& book.transact_time == row.transact_time
            &&& book.fetched_at == row.fetched_at
            &&& book.market_slug == definition.market_slug
            &&& market.market_id == definition.market_id
            &&& market.start_time == row.start_time
            &&& market.ep3_status == row.ep3_status
            &&& market.fee_coefficient == definition.fee_coefficient
            &&& market.minimum_quantity == definition.minimum_quantity
            &&& market.long_participant == definition.long_participant
            &&& market.short_participant == definition.short_participant
        }),
{
}

/// A scan lists its markets by their definitions where it has them, each side
/// under its own name; an opportunity names only the side it backed.
pub proof fn scans_list_their_markets(capture: Capture, market: Market, row: Row, listed: Listed)
    ensures
        capture.markets.len() > 0 ==> listed_in(capture).len() == capture.markets.len() && forall|
            i: int,
        |
            0 <= i < capture.markets.len() ==> #[trigger] listed_in(capture)[i] == defined(
                capture.markets[i],
            ),
        ({
            let d = defined(market);
            &&& d.market_id == market.market_id
            &&& d.market_slug == market.market_slug
            &&& d.event_id == market.event_id
            &&& d.sport == market.sport
            &&& d.start_time == market.start_time
            &&& d.long_participant == market.long_participant.name
            &&& d.short_participant == market.short_participant.name
            &&& d.definition == Some(market)
        }),
        row.side is Long ==> with_name(listed, row).long_participant == row.participant
            && with_name(listed, row).short_participant == listed.short_participant,
        row.side is Short ==> with_name(listed, row).short_participant == row.participant
            && with_name(listed, row).long_participant == listed.long_participant,
        bare(row).market_id == row.market_id,
        bare(row).market_slug == row.market_slug,
        bare(row).start_time == row.start_time,
        bare(row).definition is None,
{
}

/// What the archive knows of a market grows: the latest scan says when it starts
/// and how it is defined, a definition or a name is never lost, and the first
/// and last sight of it span every scan.
pub proof fn what_is_known_of_a_market_grows(before: Known, market: Listed, seen_at: int)
    ensures
        ({
            let k = updated(Some(before), market, seen_at);
            let later = seen_at >= before.last_seen_at;
            &&& k.market.start_time == if later {
                market.start_time
            } else {
                before.market.start_time
            }
            &&& market.definition is None ==> k.market.definition == before.market.definition
            &&& market.definition is Some && (later || before.market.definition is None)
                ==> k.market.definition == market.definition
            &&& market.definition is Some && !later && before.market.definition is Some
                ==> k.market.definition == before.market.definition
            &&& k.market.long_participant == if market.long_participant.len() > 0 {
                market.long_participant
            } else {
                before.market.long_participant
            }
            &&& k.market.short_participant == if market.short_participant.len() > 0 {
                market.short_participant
            } else {
                before.market.short_participant
            }
            &&& k.first_seen_at <= seen_at && k.first_seen_at <= before.first_seen_at
            &&& k.first_seen_at == seen_at || k.first_seen_at == before.first_seen_at
            &&& k.last_seen_at >= seen_at && k.last_seen_at >= before.last_seen_at
            &&& k.last_seen_at == seen_at || k.last_seen_at == before.last_seen_at
        }),
        updated(None, market, seen_at).market == market,
        updated(None, market, seen_at).first_seen_at == seen_at,
        updated(None, market, seen_at).last_seen_at == seen_at,
{
}

/// A start is recovered only from a quote of the row's sport that names its
/// participant and knows its start to a quarter of an hour.
pub proof fn starts_come_from_exact_quotes(quote: crate::domain::Quote, sport: Sport, participant: Seq<char>)
    ensures
        supplies_start(quote, sport.label(), participant) ==> quote.start_time_tolerance_minutes
            <= 15 && quote.sport == sport && (same_ignoring_case(quote.participant_a, participant)
            || same_ignoring_case(quote.participant_b, participant)),
{
    crate::domain::names_are_distinct();
}

/// The totals of a scan count its rows and those of them that are not rejected.
pub proof fn totals_count_the_rows(s: Snapshot)
    ensures
        totals(s).evaluated_count == s.opportunities.len(),
        totals(s).candidate_count == how_many(
            s.opportunities,
            |row: Row| !(row.class is Rejected),
        ),
        totals(s).market_count == s.market_count,
        totals(s).quote_count == s.quote_count,
        totals(s).scan_id == s.scan_id,
        totals(s).started_at == s.started_at,
        totals(s).completed_at == s.completed_at,
{
    lemma_candidates(s.opportunities);
}

proof fn lemma_candidates(rows: Seq<Row>)
    ensures
        crate::domain::candidates(rows) == how_many(rows, |row: Row| !(row.class is Rejected)),
    decreases rows.len(),
{
    if rows.len() > 0 {
        lemma_candidates(rows.drop_last());
    }
}

/// What a row still lacks: the larger of what its raw and its net edge are short
/// of their gates, the families it is short of the watchlist's number, and a
/// price inside the band.
pub proof fn the_gap_is_what_is_missing(row: Row, p: Policy)
    requires
        p.minimum_raw_edge.wf() && p.minimum_net_edge.wf() && row.raw_edge.wf()
            && row.net_edge.wf(),
        size(p.minimum_raw_edge.value()) <= 3 * unit() && size(p.minimum_net_edge.value()) <= 3
            * unit(),
        size(row.raw_edge.value()) <= 3 * unit() && size(row.net_edge.value()) <= 3 * unit(),
    ensures
        shortfall(row, p) matches Some(short) && {
            let raw = p.minimum_raw_edge.value() - row.raw_edge.value();
            let net = p.minimum_net_edge.value() - row.net_edge.value();
            &&& short.value() >= 0 && short.value() >= raw && short.value() >= net
            &&& short.value() == 0 || short.value() == raw || short.value() == net
        },
        families_short(row, p) == if row.family_count < p.watchlist_source_families {
            p.watchlist_source_families - row.family_count
        } else {
            0
        },
        price_out(row, p) <==> row.executable_price.value() < p.minimum_price.value()
            || row.executable_price.value() > p.maximum_price.value(),
{
    lemma_one();
    lemma_value_sign(zero());
    crate::laws::numbers::lemma_near_difference(p.minimum_raw_edge, row.raw_edge);
    crate::laws::numbers::lemma_near_difference(p.minimum_net_edge, row.net_edge);
}

/// In the overview a better class comes first, then fewer missing gates, then a
/// smaller lack of edge, then fewer missing families.
pub proof fn the_overview_ranks_by_what_is_missing(p: Policy, a: Research, b: Research)
    ensures
        ({
            let rank = |c: RecommendationClass|
                match c {
                    RecommendationClass::Actionable => 0int,
                    RecommendationClass::Watchlist => 1,
                    RecommendationClass::Rejected => 2,
                };
            let (x, y) = (a.opportunity, b.opportunity);
            let (i, j) = (rank(a.effective_class), rank(b.effective_class));
            &&& i < j ==> closer(p, a, b) && !closer(p, b, a)
            &&& i == j && gates_failed(x, p) < gates_failed(y, p) ==> closer(p, a, b) && !closer(
                p,
                b,
                a,
            )
            &&& i == j && gates_failed(x, p) == gates_failed(y, p) && (shortfall(x, p) matches Some(
                m,
            ) && (shortfall(y, p) matches Some(n) && m.value() < n.value())) ==> closer(p, a, b)
                && !closer(p, b, a)
            &&& i == j && gates_failed(x, p) == gates_failed(y, p) && (shortfall(x, p) matches Some(
                m,
            ) && (shortfall(y, p) matches Some(n) && m.value() == n.value())) && families_short(
                x,
                p,
            ) < families_short(y, p) ==> closer(p, a, b) && !closer(p, b, a)
        }),
{
}

/// A missing price, missing families and a missing edge each count once.
pub proof fn gates_are_counted_once(row: Row, p: Policy)
    ensures
        ({
            let price: int = if row.executable_price.value() < p.minimum_price.value()
                || row.executable_price.value() > p.maximum_price.value() {
                1
            } else {
                0
            };
            let families: int = if row.family_count < p.watchlist_source_families {
                1
            } else {
                0
            };
            shortfall(row, p) matches Some(short) ==> gates_failed(row, p) == price + families + if short.value()
                > 0 {
                1int
            } else {
                0int
            }
        }),
{
    lemma_value_sign(zero());
}

/// The market view is sorted by what its key names, the largest first.
pub proof fn sort_keys_sort_by_their_name(a: Research, b: Research)
    ensures
        comes_first(SortKey::NetEdge, a, b) <==> a.opportunity.net_edge.value()
            > b.opportunity.net_edge.value(),
        comes_first(SortKey::RawEdge, a, b) <==> a.opportunity.raw_edge.value()
            > b.opportunity.raw_edge.value(),
        a.opportunity.family_count > b.opportunity.family_count ==> comes_first(
            SortKey::Families,
            a,
            b,
        ) && !comes_first(SortKey::Families, b, a),
        a.effective_class is Actionable && !(b.effective_class is Actionable) ==> comes_first(
            SortKey::Class,
            a,
            b,
        ),
        !(a.effective_class is Rejected) && b.effective_class is Rejected ==> comes_first(
            SortKey::Class,
            a,
            b,
        ),
{
}

/// The identifiers behind the candidates are those of the rows that are not
/// rejected.
pub proof fn contributors_stand_behind_candidates(rows: Seq<Row>, id: Seq<char>)
    ensures
        contributors(rows).contains(id) <==> exists|i: int|
            0 <= i < rows.len() && !((#[trigger] rows[i]).class is Rejected)
                && rows[i].source_ids.contains(id),
    decreases rows.len(),
{
    if rows.len() > 0 {
        let front = rows.drop_last();
        let last = rows.len() - 1;
        contributors_stand_behind_candidates(front, id);
        let (before, all) = (contributors(front), contributors(rows));
        assert(rows[last] == rows.last());
        if before.contains(id) {
            let k = choose|k: int| 0 <= k < before.len() && before[k] == id;
            assert(all[k] == id);
            let i = choose|i: int|
                0 <= i < front.len() && !((#[trigger] front[i]).class is Rejected)
                    && front[i].source_ids.contains(id);
            assert(rows[i] == front[i]);
        }
        if !(rows.last().class is Rejected) && rows.last().source_ids.contains(id) {
            let own = rows.last().source_ids;
            let k = choose|k: int| 0 <= k < own.len() && own[k] == id;
            assert(all[before.len() + k] == id);
        }
        if all.contains(id) && !before.contains(id) {
            let k = choose|k: int| 0 <= k < all.len() && all[k] == id;
            if k < before.len() {
                assert(before[k] == id);
            } else {
                assert(rows.last().source_ids[k - before.len()] == id);
            }
        }
        if exists|i: int|
            0 <= i < rows.len() && !((#[trigger] rows[i]).class is Rejected)
                && rows[i].source_ids.contains(id) {
            let i = choose|i: int|
                0 <= i < rows.len() && !((#[trigger] rows[i]).class is Rejected)
                    && rows[i].source_ids.contains(id);
            if i < last {
                assert(front[i] == rows[i]);
            }
        }
    }
}

/// A source is asked again before another where it is a reference book and the
/// other is not, and of two alike where it stands behind more.
pub proof fn references_are_asked_again_first(a: Claim, b: Claim)
    ensures
        a.reference && !b.reference ==> claims_before(a, b) && !claims_before(b, a),
        a.reference == b.reference && a.frequency > b.frequency ==> claims_before(a, b)
            && !claims_before(b, a),
{
}

proof fn lemma_claim_order()
    ensures
        is_order(by_claim()),
{
    assert forall|a: Claim| !#[trigger] by_claim()(a, a) by {
        lemma_text_total(a.id, a.id);
    }
    assert forall|a: Claim, b: Claim|
        #![trigger by_claim()(a, b)]
        by_claim()(a, b) implies !by_claim()(b, a) by {
        lemma_text_total(a.id, b.id);
        lemma_text_total(b.id, a.id);
    }
    assert forall|a: Claim, b: Claim, c: Claim|
        #![trigger by_claim()(b, a), by_claim()(c, b)]
        !by_claim()(b, a) && !by_claim()(c, b) implies !by_claim()(c, a) by {
        lemma_text_total(a.id, b.id);
        lemma_text_total(b.id, c.id);
        lemma_text_total(a.id, c.id);
        lemma_text_total(c.id, a.id);
        if text_before(a.id, b.id) && text_before(b.id, c.id) {
            lemma_text_transitive(a.id, b.id, c.id);
        }
    }
}

/// Of the sources that stand behind a candidate, one is left out only where
/// three are asked again of which none ranks behind it.
pub proof fn the_best_three_are_asked_again(sources: Seq<Origin>, rows: Seq<Row>, c: Claim)
    requires
        claims(sources, contributors(rows), sources.len()).contains(c),
    ensures
        ({
            let asked = refetch(sources, rows);
            asked.contains(c.place) || (asked.len() >= 3 && forall|k: int|
                0 <= k < 3 ==> exists|b: Claim| #[trigger]
                    claims(sources, contributors(rows), sources.len()).contains(b)
                        && #[trigger] asked[k] == b.place && !claims_before(c, b))
        }),
{
    let all = claims(sources, contributors(rows), sources.len());
    let ranked = sorted(all, by_claim());
    let best = first_claims(ranked);
    let asked = refetch(sources, rows);
    let head = best.map_values(|x: Claim| x.place);
    lemma_claim_order();
    lemma_sorted_keeps(all, by_claim());
    lemma_sorted_order(all, by_claim());
    all.to_multiset_ensures();
    ranked.to_multiset_ensures();
    assert(ranked.to_multiset().count(c) > 0);
    let i = choose|i: int| 0 <= i < ranked.len() && ranked[i] == c;
    if i < best.len() {
        assert(best[i] == c);
        assert(head[i] == c.place);
        assert(asked[i] == c.place);
    } else {
        assert(best.len() == 3);
        assert forall|k: int| 0 <= k < 3 implies exists|b: Claim| #[trigger]
            all.contains(b) && #[trigger] asked[k] == b.place && !claims_before(c, b) by {
            let b = ranked[k];
            assert(best[k] == b);
            assert(head[k] == b.place);
            assert(asked[k] == b.place);
            assert(!by_claim()(ranked[i], ranked[k]));
            assert(ranked.contains(b));
            assert(all.to_multiset().count(b) > 0);
            assert(all.contains(b));
        }
    }
}

/// A claim is of a source that is not kept for confirmation and stands behind a
/// candidate; it ranks by whether its family is a reference.
pub proof fn claims_are_of_contributing_sources(sources: Seq<Origin>, ids: Seq<Seq<char>>, n: nat)
    requires
        n <= sources.len(),
    ensures
        forall|k: int|
            0 <= k < claims(sources, ids, n).len() ==> {
                let c = #[trigger] claims(sources, ids, n)[k];
                &&& 0 <= c.place < n
                &&& !sources[c.place].confirmation_only
                &&& touches(ids, sources[c.place].id) > 0
                &&& c.id == sources[c.place].id
                &&& c.reference == (sources[c.place].family is Pinnacle
                    || sources[c.place].family is Circa || sources[c.place].family is Bookmaker
                    || sources[c.place].family is BetOnline)
            },
    decreases n,
{
    if n > 0 {
        let m = (n - 1) as nat;
        claims_are_of_contributing_sources(sources, ids, m);
        let (before, all) = (claims(sources, ids, m), claims(sources, ids, n));
        assert forall|k: int| 0 <= k < all.len() implies {
            let c = #[trigger] all[k];
            &&& 0 <= c.place < n
            &&& !sources[c.place].confirmation_only
            &&& touches(ids, sources[c.place].id) > 0
            &&& c.id == sources[c.place].id
            &&& c.reference == (sources[c.place].family is Pinnacle
                || sources[c.place].family is Circa || sources[c.place].family is Bookmaker
                || sources[c.place].family is BetOnline)
        } by {
            if k < before.len() {
                assert(all[k] == before[k]);
            }
        }
    }
}

/// The keys do what they are for: each view has its number, the paper keys act
/// on what is picked, and a scan is asked of the engine where there is one.
pub proof fn keys_do_what_they_are_for(app: crate::tui::App, world: World, control: bool)
    ensures
        app.pressed(Key::Char('1'), control, world).0.view is Overview,
        app.pressed(Key::Char('2'), control, world).0.view is Markets,
        app.pressed(Key::Char('3'), control, world).0.view is Sources,
        app.pressed(Key::Char('4'), control, world).0.view is Portfolio,
        app.pressed(Key::Char('5'), control, world).0.view is System,
        app.pressed(Key::Char('r'), control, world).1 == if world.has_engine {
            Outcome::RequestScan
        } else {
            Outcome::ReloadStore
        },
        app.pressed(Key::Char('o'), control, world).1 is OpenPaper ==> app.view is Markets
            || app.view is Overview,
        app.pressed(Key::Char('c'), false, world).1 matches Outcome::ClosePaper(id) ==> app.view is Portfolio
            && app.portfolio_cursor < world.open.len() && id
            == world.open[app.portfolio_cursor as int].opportunity_id as u128,
        app.view is Markets ==> app.pressed(Key::Enter, control, world).0.show_detail
            == !app.show_detail,
        !(app.view is Markets) ==> app.pressed(Key::Char('s'), control, world).0 == app
            && app.pressed(Key::Char('f'), control, world).0 == app,
{
}

} // verus!
