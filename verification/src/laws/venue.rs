//! What is read of the venue's markets, books and histories.

use vstd::prelude::*;

use crate::domain::{Book, Level, Market, Sport};
use crate::error::Failure;
use crate::polymarket::{
    amount, book_from, closing_place, event_markets, event_start, exact_number, level_of, levels_of,
    market_from, markets_from, offered, participant_of, providers, settlement_known, side_name,
    side_on, stamp, RawBookLevel, RawEvent, RawMarket, RawMarketData, RawMarketSide, RawProviderId,
};
use crate::seqs::{group_seqs, lemma_sorted_keeps};
use crate::text::{contains_text, is_blank, lowered, text_of};

verus! {

broadcast use group_seqs;

/// A level is its own price and quantity, and levels are read one for one.
pub proof fn levels_are_read_one_for_one(raw: Seq<RawBookLevel>)
    ensures
        levels_of(raw) matches Ok(levels) ==> levels.len() == raw.len() && forall|i: int|
            0 <= i < raw.len() ==> amount(raw[i].price, "book price"@) == Ok::<
                crate::decimal::Dec,
                Failure,
            >((#[trigger] levels[i]).yes_price) && exact_number(
                raw[i].quantity@,
                "book quantity"@,
            ) == Ok::<crate::decimal::Dec, Failure>(levels[i].quantity),
    decreases raw.len(),
{
    if raw.len() > 0 {
        let front = raw.drop_last();
        levels_are_read_one_for_one(front);
        if let Ok(levels) = levels_of(raw) {
            let before = levels_of(front)->Ok_0;
            assert forall|i: int| 0 <= i < raw.len() implies amount(
                raw[i].price,
                "book price"@,
            ) == Ok::<crate::decimal::Dec, Failure>((#[trigger] levels[i]).yes_price)
                && exact_number(raw[i].quantity@, "book quantity"@) == Ok::<
                crate::decimal::Dec,
                Failure,
            >(levels[i].quantity) by {
                if i < front.len() {
                    assert(front[i] == raw[i]);
                    assert(levels[i] == before[i]);
                }
            }
        }
    }
}

/// A book holds the bids that were sent, the dearest first, and the offers, the
/// cheapest first, each once; and the slug, state and instants as sent.
pub proof fn books_hold_what_was_sent(raw: RawMarketData, fetched_at: int)
    ensures
        book_from(raw, fetched_at) matches Ok(book) ==> {
            &&& levels_of(raw.bids@) matches Ok(bids) && book.bids.to_multiset()
                == bids.to_multiset()
            &&& levels_of(raw.offers@) matches Ok(offers) && book.offers.to_multiset()
                == offers.to_multiset()
            &&& forall|i: int, j: int|
                0 <= i < j < book.bids.len() ==> (#[trigger] book.bids[i]).yes_price.value() >= (
                #[trigger] book.bids[j]).yes_price.value()
            &&& forall|i: int, j: int|
                0 <= i < j < book.offers.len() ==> (#[trigger] book.offers[i]).yes_price.value()
                    <= (#[trigger] book.offers[j]).yes_price.value()
            &&& book.market_slug == raw.market_slug@
            &&& book.state == raw.state@
            &&& book.fetched_at == fetched_at
            &&& stamp(raw.transact_time@, "book transactTime"@) == Ok::<int, Failure>(
                book.transact_time,
            )
        },
{
    crate::polymarket::books_are_in_executable_order(raw, fetched_at);
    if let Ok(book) = book_from(raw, fetched_at) {
        lemma_sorted_keeps(levels_of(raw.bids@)->Ok_0, crate::polymarket::dearest_first());
        lemma_sorted_keeps(levels_of(raw.offers@)->Ok_0, crate::polymarket::cheapest_first());
        assert forall|i: int, j: int| 0 <= i < j < book.bids.len() implies (
        #[trigger] book.bids[i]).yes_price.value() >= (
        #[trigger] book.bids[j]).yes_price.value() by {
            assert(!crate::polymarket::dearest_first()(book.bids[j], book.bids[i]));
        }
        assert forall|i: int, j: int| 0 <= i < j < book.offers.len() implies (
        #[trigger] book.offers[i]).yes_price.value() <= (
        #[trigger] book.offers[j]).yes_price.value() by {
            assert(!crate::polymarket::cheapest_first()(book.offers[j], book.offers[i]));
        }
    }
}

/// A participant goes by its team's name where there is one, and else by what
/// the side is called, with the team's identifiers.
pub proof fn participants_go_by_their_team(side: RawMarketSide)
    ensures
        participant_of(side) matches Ok(p) ==> {
            &&& p.side_id == side.id@
            &&& p.long == side.long
            &&& p.team_id == side.team_id
            &&& side.team matches Some(team) ==> (!is_blank(team.name@) ==> p.name == team.name@)
            &&& (side.team is None || is_blank(side.team->0.name@)) ==> side.description is Some
                && p.name == side.description->0@
            &&& side.team matches Some(team) ==> p.provider_ids == providers(team.provider_ids@)
            &&& side.team is None ==> p.provider_ids == Map::<Seq<char>, Seq<char>>::empty()
        },
{
}

/// Each identifier of a participant is the last one that its provider gave.
pub proof fn the_last_identifier_of_a_provider_counts(ids: Seq<RawProviderId>)
    ensures
        forall|k: Seq<char>| #[trigger]
            providers(ids).contains_key(k) ==> exists|i: int|
                0 <= i < ids.len() && (#[trigger] ids[i]).provider@ == k && ids[i].provider_id@
                    == providers(ids)[k] && forall|j: int|
                    i < j < ids.len() ==> (#[trigger] ids[j]).provider@ != k,
        forall|i: int|
            0 <= i < ids.len() ==> providers(ids).contains_key((#[trigger] ids[i]).provider@),
    decreases ids.len(),
{
    if ids.len() > 0 {
        let front = ids.drop_last();
        let last = ids.len() - 1;
        the_last_identifier_of_a_provider_counts(front);
        assert forall|k: Seq<char>| #[trigger]
            providers(ids).contains_key(k) implies exists|i: int|
            0 <= i < ids.len() && (#[trigger] ids[i]).provider@ == k && ids[i].provider_id@
                == providers(ids)[k] && forall|j: int|
                i < j < ids.len() ==> (#[trigger] ids[j]).provider@ != k by {
            if ids[last].provider@ != k {
                assert(providers(front).contains_key(k));
                let i = choose|i: int|
                    0 <= i < front.len() && (#[trigger] front[i]).provider@ == k
                        && front[i].provider_id@ == providers(front)[k] && forall|j: int|
                        i < j < front.len() ==> (#[trigger] front[j]).provider@ != k;
                assert(ids[i] == front[i]);
                assert forall|j: int| i < j < ids.len() implies (
                #[trigger] ids[j]).provider@ != k by {
                    if j < last {
                        assert(front[j] == ids[j]);
                    }
                }
            } else {
                assert(ids[last].provider_id@ == providers(ids)[k]);
            }
        }
        assert forall|i: int| 0 <= i < ids.len() implies providers(ids).contains_key(
            (#[trigger] ids[i]).provider@,
        ) by {
            if i < last {
                assert(front[i] == ids[i]);
            }
        }
    }
}

/// The first side that is long, or not.
pub proof fn sides_are_told_by_their_flag(sides: Seq<RawMarketSide>, long: bool, from: int)
    requires
        0 <= from <= sides.len(),
    ensures
        side_on(sides, long, from) matches Some(side) ==> exists|i: int|
            from <= i < sides.len() && #[trigger] sides[i] == side && side.long == long,
        side_on(sides, long, from) is None ==> forall|i: int|
            from <= i < sides.len() ==> (#[trigger] sides[i]).long != long,
    decreases sides.len() - from,
{
    if from < sides.len() && sides[from].long != long {
        sides_are_told_by_their_flag(sides, long, from + 1);
    }
}

/// A market is its own sides and numbers: the long participant is that of a long
/// side and the short one of a short side, and tick, least quantity and fee are
/// each read from their own field.
pub proof fn markets_are_read_field_by_field(
    sport: Sport,
    event_id: Seq<char>,
    game_id: Option<i64>,
    sportradar: Option<Seq<char>>,
    start_time: int,
    raw: RawMarket,
)
    ensures
        market_from(sport, event_id, game_id, sportradar, start_time, raw) matches Ok(m) ==> {
            &&& m.sport == sport
            &&& m.event_id == event_id
            &&& m.game_id == game_id
            &&& m.sportradar_game_id == sportradar
            &&& m.start_time == start_time
            &&& m.market_id == raw.id@
            &&& m.market_slug == raw.slug@
            &&& exists|i: int|
                0 <= i < raw.market_sides@.len() && (#[trigger] raw.market_sides@[i]).long
                    && participant_of(raw.market_sides@[i]) == Ok::<
                    crate::domain::Participant,
                    Failure,
                >(m.long_participant)
            &&& exists|i: int|
                0 <= i < raw.market_sides@.len() && !(#[trigger] raw.market_sides@[i]).long
                    && participant_of(raw.market_sides@[i]) == Ok::<
                    crate::domain::Participant,
                    Failure,
                >(m.short_participant)
            &&& amount(raw.order_price_min_tick_size, "tick size"@) == Ok::<
                crate::decimal::Dec,
                Failure,
            >(m.tick_size)
            &&& amount(raw.minimum_trade_qty, "minimum quantity"@) == Ok::<
                crate::decimal::Dec,
                Failure,
            >(m.minimum_quantity)
            &&& amount(raw.fee_coefficient, "fee coefficient"@) == Ok::<
                crate::decimal::Dec,
                Failure,
            >(m.fee_coefficient)
            &&& raw.ep3_status matches Some(status) ==> m.ep3_status == status@
            &&& raw.description matches Some(text) ==> m.description == text@
            &&& settlement_known(sport, m.description)
        },
{
    sides_are_told_by_their_flag(raw.market_sides@, true, 0);
    sides_are_told_by_their_flag(raw.market_sides@, false, 0);
}

/// The rules under which a market's result is the sportsbooks': an NFL tie pays
/// half, a tennis match that is not played is void or settles at a fair price,
/// and any other sport's market says something at all.
pub proof fn settlement_rules_match_the_books(sport: Sport, description: Seq<char>)
    ensures
        ({
            let text = lowered(description);
            settlement_known(sport, description) <==> match sport {
                Sport::Nfl => contains_text(text, "tie"@) && contains_text(text, "$0.50"@),
                Sport::Tennis => (contains_text(text, "walkover"@) || contains_text(
                    text,
                    "withdrawal"@,
                )) && (contains_text(text, "$0.50"@) || contains_text(
                    text,
                    "fair market price"@,
                )),
                _ => !is_blank(description),
            }
        }),
{
}

/// A market is looked at exactly where it is the sport's full-game winner, not
/// said to be inactive, and not said to be closed or hidden.
pub proof fn only_open_winner_markets_are_looked_at(sport: Sport, raw: RawMarket)
    ensures
        offered(sport, raw) <==> {
            &&& raw.sports_market_type matches Some(kind) && kind@ == (match sport {
                Sport::Nfl => "football_team_full_game_winner"@,
                Sport::Nba | Sport::Wnba => "basketball_team_full_game_winner"@,
                Sport::Mlb => "baseball_team_full_game_winner"@,
                Sport::Tennis => "tennis_match_winner"@,
            })
            &&& raw.active != Some(false)
            &&& raw.closed != Some(true)
            &&& raw.hidden != Some(true)
        },
{
}

/// An event gives markets only while it is still to come: not live, ended,
/// closed or inactive, and starting after now. It then gives one for each of
/// those that are looked at, in order.
pub proof fn only_coming_events_give_markets(sport: Sport, event: RawEvent, now: int)
    ensures
        event.live == Some(true) || event.ended == Some(true) || event.closed == Some(true)
            || event.active == Some(false) ==> event_markets(sport, event, now) == Ok::<
            Seq<Market>,
            Failure,
        >(seq![]),
        event_start(event) matches Ok(start) ==> (start <= now ==> event_markets(sport, event, now)
            == Ok::<Seq<Market>, Failure>(seq![])),
        event_markets(sport, event, now) matches Ok(markets) ==> (markets.len() > 0 ==> (event_start(
            event,
        ) matches Ok(start) && now < start && markets.len() == event.markets@.filter(
            |raw: RawMarket| offered(sport, raw),
        ).len())),
        event.start_time matches Some(text) ==> event_start(event) == stamp(
            text@,
            "event startTime"@,
        ),
        event.start_time is None ==> (event.start_date matches Some(text) ==> event_start(event)
            == stamp(text@, "event startTime"@)),
{
    if let Ok(start) = event_start(event) {
        lemma_one_market_each(sport, event, start, event.markets@);
    }
}

proof fn lemma_one_market_each(sport: Sport, event: RawEvent, start: int, markets: Seq<RawMarket>)
    ensures
        markets_from(sport, event, start, markets) matches Ok(out) ==> out.len() == markets.filter(
            |raw: RawMarket| offered(sport, raw),
        ).len(),
    decreases markets.len(),
{
    reveal(Seq::filter);
    if markets.len() > 0 {
        lemma_one_market_each(sport, event, start, markets.drop_last());
    }
}

/// The closing line of a history is its last point at or before the start, and
/// where all come later, the earliest of them.
pub proof fn the_close_is_the_last_point_before_the_start(stamps: Seq<i64>, start_time: int)
    ensures
        closing_place(stamps, start_time) matches Some(i) ==> {
            &&& 0 <= i < stamps.len()
            &&& stamps[i] * 1_000_000_000 <= start_time ==> forall|j: int|
                0 <= j < stamps.len() && (#[trigger] stamps[j]) * 1_000_000_000 <= start_time
                    ==> stamps[j] <= stamps[i]
            &&& stamps[i] * 1_000_000_000 > start_time ==> forall|j: int|
                0 <= j < stamps.len() ==> (#[trigger] stamps[j]) * 1_000_000_000 > start_time
                    && stamps[i] <= stamps[j]
        },
        closing_place(stamps, start_time) is None ==> stamps.len() == 0,
{
    let cutoff = start_time / 1_000_000_000;
    crate::polymarket::lemma_last_by(stamps, cutoff);
    crate::polymarket::lemma_earliest(stamps);
}

} // verus!
