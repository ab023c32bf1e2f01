//! What is read of the odds feeds: whose price it is, and which.

use vstd::prelude::*;

use crate::decimal::{
    dec, dec_of, difference, exact_quotients_are_exact, lemma_pow10_values, lemma_quotient_close,
    lemma_quotient_sign, lemma_value_of, lemma_value_sign, one, plus, pow10, quotient, rounded, size,
    sum, unit, zero, Dec,
};
use crate::domain::{odds_api_family, Family, Quote, Sport};
use crate::error::Failure;
use crate::laws::numbers::{lemma_near_difference, lemma_near_sum, lemma_rounded_close};
use crate::laws::pricing::share;
use crate::laws::settling::lemma_one;
use crate::seqs::group_seqs;
use crate::sources::{
    action_network, american_price, canonical, espn, from_american, kalshi, pinnacle, plausible,
    polymarket_global, smarkets, the_odds_api, two_way,
};
use crate::text::text_of;

verus! {

broadcast use group_seqs;

/// American odds above zero say what a hundred wins, and below zero what must be
/// staked to win a hundred: decimal odds are the stake and the win over the
/// stake.
pub proof fn american_odds_say_what_a_hundred_wins(odds: int)
    requires
        -1_000_000_000_000 <= odds <= 600,
        odds > 0 || odds <= -20,
    ensures
        from_american(odds) matches Some(d) ==> {
            &&& odds > 0 ==> 100 * d.value() == (100 + odds) * unit()
            &&& odds < 0 ==> 2 * size((d.value() - unit()) * -odds - 100 * unit()) <= -odds
        },
{
    lemma_one();
    let u = unit();
    if odds > 0 {
        let (a, b, d) = (dec(odds, 0), dec(100, 0), dec(odds, 2));
        lemma_pow10_values();
        lemma_value_of(odds, 0, u);
        lemma_value_of(100, 0, u);
        lemma_value_of(odds, 2, pow10(26));
        assert(a.value() * u == d.value() * b.value()) by (nonlinear_arith)
            requires
                a.value() == odds * u,
                b.value() == 100 * u,
                d.value() == odds * pow10(26),
                u == 100 * pow10(26),
        ;
        exact_quotients_are_exact(a, b, d);
        lemma_quotient_sign(a, b);
        if let Some(q) = quotient(a, b) {
            lemma_near_sum(one(), q);
        }
    } else {
        let n = -odds;
        let (a, b) = (dec(100, 0), dec(n, 0));
        lemma_value_of(100, 0, u);
        lemma_value_of(n, 0, u);
        lemma_quotient_close(a, b);
        lemma_quotient_sign(a, b);
        if let Some(q) = quotient(a, b) {
            let x = q.value();
            assert(2 * (x * n - 100 * u) <= n && -n <= 2 * (x * n - 100 * u)) by (nonlinear_arith)
                requires
                    -(n * u) <= 2 * (x * (n * u) - (100 * u) * u) <= n * u,
                    u > 0,
            ;
            assert(x <= 6 * u) by (nonlinear_arith)
                requires
                    2 * (x * n - 100 * u) <= n,
                    n >= 20,
                    u == 10_000_000_000_000_000_000_000_000_000,
            ;
            lemma_near_sum(one(), q);
        }
    }
}

/// Two lines make a market in their own order, each to four digits, where both
/// pay and their inverses add up to between one and 1.15; else there is none.
pub proof fn two_lines_keep_their_order(home: int, away: int)
    ensures
        two_way(home, away) matches Some((a, b)) ==> {
            &&& home != 0 && away != 0
            &&& from_american(home) matches Some(x) && a == rounded(x, 4)
            &&& from_american(away) matches Some(y) && b == rounded(y, 4)
            &&& plausible(a, b)
        },
        home == 0 || away == 0 ==> two_way(home, away) is None,
{
}

/// A market is plausible where the inverses of its odds add up to at least one
/// and at most 1.15.
pub proof fn plausible_markets_hold_a_few_points(a: Dec, b: Dec)
    ensures
        plausible(a, b) <==> (quotient(one(), a) matches Some(x) && (quotient(one(), b) matches Some(
            y,
        ) && (sum(x, y) matches Some(s) && unit() <= s.value() && 100 * s.value() <= 115
            * unit()))),
{
    lemma_one();
    lemma_pow10_values();
    lemma_value_of(115, 2, pow10(26));
}

/// A Kalshi market has a price where both sides are quoted, the ask between zero
/// and one, no more than six cents above the bid: its ask.
pub proof fn kalshi_prices_are_tight_asks(market: kalshi::ApiMarket)
    requires
        kalshi::dollars(market.yes_bid_dollars) matches Some(b) ==> b.wf() && size(b.value())
            <= 3 * unit(),
        kalshi::dollars(market.yes_ask_dollars) matches Some(a) ==> a.wf() && size(a.value())
            <= 3 * unit(),
    ensures
        kalshi::real_ask(market) matches Some(ask) ==> kalshi::dollars(market.yes_ask_dollars)
            == Some(ask),
        kalshi::real_ask(market) is Some <==> (kalshi::dollars(market.yes_bid_dollars) matches Some(
            bid,
        ) && (kalshi::dollars(market.yes_ask_dollars) matches Some(ask) && 0 < bid.value() && 0
            < ask.value() < unit() && 100 * (ask.value() - bid.value()) <= 6 * unit())),
{
    lemma_one();
    lemma_value_sign(zero());
    lemma_pow10_values();
    lemma_value_of(6, 2, pow10(26));
    if let (Some(bid), Some(ask)) = (
        kalshi::dollars(market.yes_bid_dollars),
        kalshi::dollars(market.yes_ask_dollars),
    ) {
        lemma_near_difference(ask, bid);
    }
}

/// An event's two markets are its two participants, in order, each at the
/// inverse of its own ask.
pub proof fn kalshi_quotes_each_market_at_its_own_ask(
    sport: Sport,
    ticker: Seq<char>,
    markets: Seq<kalshi::ApiMarket>,
    fetched_at: int,
)
    ensures
        kalshi::event_quote(sport, ticker, markets, fetched_at) matches Some(q) ==> {
            &&& markets.len() == 2
            &&& kalshi::real_ask(markets[0]) matches Some(a) && quotient(one(), a) == Some(
                q.decimal_odds_a,
            )
            &&& kalshi::real_ask(markets[1]) matches Some(b) && quotient(one(), b) == Some(
                q.decimal_odds_b,
            )
            &&& q.participant_a == crate::text::trimmed(markets[0].yes_sub_title@)
            &&& q.participant_b == crate::text::trimmed(markets[1].yes_sub_title@)
            &&& q.participant_a_provider_ids["kalshi"@] == markets[0].ticker@
            &&& q.participant_b_provider_ids["kalshi"@] == markets[1].ticker@
            &&& q.family is Kalshi
            &&& q.sport == sport
            &&& q.event_id == ticker
            &&& q.fetched_at == fetched_at
            &&& q.decimal_odds_neutral is None
            &&& !q.validation_only
            &&& kalshi::start_in(markets[0].rules_primary@) == Some(
                (q.start_time, q.start_time_tolerance_minutes),
            )
        },
{
}

/// An event's markets are its active ones.
pub proof fn kalshi_reads_active_markets(markets: Seq<kalshi::ApiMarket>, ticker: Seq<char>)
    ensures
        kalshi::event_members(markets, ticker) =~= markets.filter(
            |m: kalshi::ApiMarket| m.status@ == "active"@ && m.event_ticker@ == ticker,
        ),
    decreases markets.len(),
{
    reveal(Seq::filter);
    if markets.len() > 0 {
        kalshi_reads_active_markets(markets.drop_last(), ticker);
    }
}

/// A line of a mapped book gives a quote of that book where it is of the full
/// game, has both prices, and changed within two days: the home team first, at
/// the home price.
pub proof fn action_network_quotes_home_first(game: action_network::Fixture, row: action_network::OddsRow)
    ensures
        action_network::row_quote(game, row) matches Some(q) ==> {
            &&& row.kind@ == "game"@
            &&& row.ml_home matches Some(home) && (row.ml_away matches Some(away) && two_way(
                home as int,
                away as int,
            ) == Some((q.decimal_odds_a, q.decimal_odds_b)))
            &&& q.participant_a == game.home.full_name@
            &&& q.participant_b == game.away.full_name@
            &&& action_network::book_of(row.book_id) matches Some((slug, family)) && q.family
                == family && q.source_id == "action_network:"@ + slug
            &&& action_network::inserted_at(row, game.fetched_at) == Some(q.source_timestamp)
            &&& game.fetched_at - q.source_timestamp <= 48 * 3_600_000_000_000
            &&& q.start_time == game.start_time
            &&& q.fetched_at == game.fetched_at
            &&& q.sport == game.sport
            &&& !q.validation_only
        },
{
}

/// An item with both lines gives a quote of its provider: the home team first,
/// at the home line.
pub proof fn espn_quotes_home_first(game: espn::Game, item: espn::OddsItem)
    ensures
        espn::item_quote(game, item) matches Ok(Some(q)) ==> {
            &&& item.home_money_line matches Some(home) && home != 0 && from_american(home as int)
                == Some(q.decimal_odds_a)
            &&& item.away_money_line matches Some(away) && away != 0 && from_american(away as int)
                == Some(q.decimal_odds_b)
            &&& q.participant_a == game.home.team.display_name@
            &&& q.participant_b == game.away.team.display_name@
            &&& q.participant_a_provider_ids["espn"@] == game.home.team.id@
            &&& q.participant_b_provider_ids["espn"@] == game.away.team.id@
            &&& q.family == espn::family_of(item.provider@)
            &&& q.start_time == game.start_time
            &&& q.fetched_at == game.fetched_at
            &&& !q.validation_only
        },
        item.home_money_line is None || item.away_money_line is None ==> espn::item_quote(
            game,
            item,
        ) == Ok::<Option<Quote>, Failure>(None),
{
}

/// A competition's home side is the competitor that plays at home.
pub proof fn espn_knows_home_from_away(
    sport: Sport,
    event_id: Seq<char>,
    date: Seq<char>,
    competition: espn::Competition,
    items: Seq<espn::OddsItem>,
    fetched_at: int,
)
    ensures
        espn::competition_quotes(sport, event_id, date, competition, items, fetched_at) matches Ok(
            quotes,
        ) ==> (espn::competitor_on(competition.competitors@, "home"@, 0) matches Some(home) && (
        espn::competitor_on(competition.competitors@, "away"@, 0) matches Some(away) && (
        espn::start_of(date) matches Ok(start_time) && espn::item_quotes(
            espn::Game { sport, event_id, home, away, start_time, fetched_at },
            items,
        ) == Ok::<Seq<Quote>, Failure>(quotes)))),
{
}

proof fn lemma_competitor(list: Seq<espn::Competitor>, side: Seq<char>, from: int)
    requires
        0 <= from,
    ensures
        espn::competitor_on(list, side, from) matches Some(c) ==> c.home_away@ == side
            && list.contains(c),
    decreases list.len() - from,
{
    if from < list.len() && list[from].home_away@ != side {
        lemma_competitor(list, side, from + 1);
    }
}

/// A competitor on a side is one of those listed there.
pub proof fn competitors_are_told_by_their_side(list: Seq<espn::Competitor>, side: Seq<char>)
    ensures
        espn::competitor_on(list, side, 0) matches Some(c) ==> c.home_away@ == side
            && list.contains(c),
{
    lemma_competitor(list, side, 0);
}

/// A Pinnacle quote is the open full-game moneyline of a coming game: the home
/// participant first, at the home price.
pub proof fn pinnacle_quotes_home_first(
    sport: Sport,
    matchups: Seq<pinnacle::Matchup>,
    market: pinnacle::Market,
    fetched_at: int,
)
    ensures
        pinnacle::market_quote(sport, matchups, market, fetched_at) matches Some(q) ==> {
            &&& market.key@ == "s;0;m"@ && market.status@ == "open"@ && !market.is_alternate
            &&& pinnacle::game_of(matchups, market.matchup_id) matches Some(game)
                && pinnacle::aligned(game.participants@, "home"@, 0) == Some(q.participant_a)
                && pinnacle::aligned(game.participants@, "away"@, 0) == Some(q.participant_b)
            &&& pinnacle::designated(market.prices@, "home"@, 0) matches Some(home) && (
            pinnacle::designated(market.prices@, "away"@, 0) matches Some(away) && two_way(
                home as int,
                away as int,
            ) == Some((q.decimal_odds_a, q.decimal_odds_b)))
            &&& market.prices@.len() == 2
            &&& fetched_at < q.start_time
            &&& q.family is Pinnacle
            &&& q.sport == sport
            &&& q.fetched_at == fetched_at
            &&& !q.validation_only
        },
{
}

/// A game is a matchup before its start, of its own, with the identifier asked
/// for.
pub proof fn pinnacle_games_are_not_live(matchups: Seq<pinnacle::Matchup>, id: u64)
    ensures
        pinnacle::game_of(matchups, id) matches Some(game) ==> matchups.contains(game) && game.id
            == id && game.kind@ == "matchup"@ && !game.special && game.parent_id is None
            && !game.is_live,
    decreases matchups.len(),
{
    if matchups.len() > 0 {
        let front = matchups.drop_last();
        pinnacle_games_are_not_live(front, id);
        assert(matchups[matchups.len() - 1] == matchups.last());
        if let Some(game) = pinnacle::game_of(front, id) {
            let i = choose|i: int| 0 <= i < front.len() && front[i] == game;
            assert(matchups[i] == game);
        }
    }
}

/// A name or a price stands for the side it is listed under.
pub proof fn pinnacle_sides_are_told_by_their_label(
    people: Seq<pinnacle::Participant>,
    prices: Seq<pinnacle::Price>,
    label: Seq<char>,
    from: int,
)
    requires
        0 <= from,
    ensures
        pinnacle::aligned(people, label, from) matches Some(name) ==> exists|i: int|
            from <= i < people.len() && (#[trigger] people[i]).alignment@ == label
                && people[i].name@ == name,
        pinnacle::designated(prices, label, from) matches Some(price) ==> exists|i: int|
            from <= i < prices.len() && text_of((#[trigger] prices[i]).designation) == Some(label)
                && prices[i].price == price,
    decreases people.len() + prices.len() - from,
{
    if from < people.len() || from < prices.len() {
        pinnacle_sides_are_told_by_their_label(people, prices, label, from + 1);
    }
}

/// A Gamma market has two sides where its bid is above zero, its ask higher and
/// below one, and no more than four cents lie between them, to four digits.
pub proof fn gamma_prices_are_two_sided(market: polymarket_global::GammaMarket)
    requires
        dec_of(market.best_bid) matches Some(b) ==> rounded(b, 4).wf() && size(
            rounded(b, 4).value(),
        ) <= 3 * unit(),
        dec_of(market.best_ask) matches Some(a) ==> rounded(a, 4).wf() && size(
            rounded(a, 4).value(),
        ) <= 3 * unit(),
    ensures
        polymarket_global::two_sided(market) matches Some((bid, ask)) ==> {
            &&& dec_of(market.best_bid) matches Some(b) && bid == rounded(b, 4)
            &&& dec_of(market.best_ask) matches Some(a) && ask == rounded(a, 4)
        },
        polymarket_global::two_sided(market) is Some <==> (dec_of(market.best_bid) matches Some(b)
            && (dec_of(market.best_ask) matches Some(a) && 0 < rounded(b, 4).value() && rounded(
            b,
            4,
        ).value() < rounded(a, 4).value() && rounded(a, 4).value() < unit() && 100 * (rounded(
            a,
            4,
        ).value() - rounded(b, 4).value()) <= 4 * unit())),
{
    lemma_one();
    lemma_value_sign(zero());
    lemma_pow10_values();
    lemma_value_of(4, 2, pow10(26));
    if let (Some(b), Some(a)) = (dec_of(market.best_bid), dec_of(market.best_ask)) {
        lemma_near_difference(rounded(a, 4), rounded(b, 4));
    }
}

/// The first side costs the ask and the second the rest of a dollar above the
/// bid: each side's odds are the inverse of that, to four digits.
pub proof fn gamma_sides_cost_the_ask_and_the_rest(bid: Dec, ask: Dec)
    requires
        share(bid),
        share(ask),
        bid.value() < unit(),
        0 < ask.value(),
    ensures
        polymarket_global::side_odds(bid, ask) matches Some((a, b)) ==> {
            &&& quotient(one(), ask) matches Some(x) && a == rounded(x, 4)
            &&& difference(one(), bid) matches Some(left) && left.value() == unit() - bid.value()
                && (quotient(one(), left) matches Some(y) && b == rounded(y, 4))
        },
{
    lemma_one();
    lemma_near_difference(one(), bid);
}

/// A Gamma quote is a moneyline that can be traded and is tested: its two
/// outcomes in order, each at its own side's odds.
pub proof fn gamma_quotes_its_outcomes_in_order(
    sport: Sport,
    teams: Seq<polymarket_global::GammaTeam>,
    market: polymarket_global::GammaMarket,
    floors: polymarket_global::MarketFloors,
    fetched_at: int,
)
    ensures
        polymarket_global::market_quote(sport, teams, market, floors, fetched_at) matches Some(q)
            ==> {
            &&& text_of(market.sports_market_type) == Some("moneyline"@)
            &&& market.accepting_orders && market.active && !market.closed
            &&& dec_of(market.liquidity) matches Some(l) && floors.min_liquidity@.value()
                <= l.value()
            &&& dec_of(market.volume) matches Some(v) && floors.min_volume@.value() <= v.value()
            &&& polymarket_global::two_sided(market) matches Some((bid, ask))
                && polymarket_global::side_odds(bid, ask) == Some(
                (q.decimal_odds_a, q.decimal_odds_b),
            )
            &&& polymarket_global::json_pair(market.outcomes@) matches Some((a, b))
                && q.participant_a == polymarket_global::name_behind(a, teams, 0)
                && q.participant_b == polymarket_global::name_behind(b, teams, 0)
            &&& q.family is PolymarketGlobal
            &&& q.sport == sport
            &&& q.fetched_at == fetched_at
            &&& !q.validation_only
            &&& text_of(market.game_start_time) matches Some(text)
                && polymarket_global::game_start(text) == Some(q.start_time)
        },
{
}

/// A contract is had at the lowest price offered, where enough is offered there,
/// there is a bid, and no more than ten points lie between.
pub proof fn smarkets_prices_are_the_best_offers(
    books: Map<Seq<char>, smarkets::Book>,
    id: Seq<char>,
)
    ensures
        smarkets::offer_price(books, id) matches Ok(price) ==> {
            let book = books[id];
            &&& books.contains_key(id)
            &&& 0 < price <= 10_000
            &&& exists|i: int|
                0 <= i < book.offers@.len() && (#[trigger] book.offers@[i]).price == price
                    && book.offers@[i].quantity >= smarkets::MIN_OFFER_QUANTITY
            &&& forall|i: int|
                0 <= i < book.offers@.len() ==> price <= (#[trigger] book.offers@[i]).price
            &&& exists|i: int|
                0 <= i < book.bids@.len() && price - (#[trigger] book.bids@[i]).price <= 1_000
                    && forall|j: int|
                    0 <= j < book.bids@.len() ==> (#[trigger] book.bids@[j]).price
                        <= book.bids@[i].price
        },
{
    if books.contains_key(id) {
        lemma_cheapest(books[id].offers@);
        lemma_highest(books[id].bids@);
    }
}

proof fn lemma_cheapest(levels: Seq<smarkets::Level>)
    ensures
        smarkets::cheapest(levels) matches Some(best) ==> (exists|i: int|
            0 <= i < levels.len() && #[trigger] levels[i] == best) && forall|i: int|
            0 <= i < levels.len() ==> best.price <= (#[trigger] levels[i]).price,
    decreases levels.len(),
{
    if levels.len() > 0 {
        let front = levels.drop_last();
        let last = levels.len() - 1;
        lemma_cheapest(front);
        assert(levels[last] == levels.last());
        if let Some(best) = smarkets::cheapest(front) {
            let k = choose|k: int| 0 <= k < front.len() && #[trigger] front[k] == best;
            assert(levels[k] == best);
            assert forall|i: int| 0 <= i < levels.len() implies smarkets::cheapest(levels)->0.price
                <= (#[trigger] levels[i]).price by {
                if i < last {
                    assert(front[i] == levels[i]);
                }
            }
        } else {
            assert(front.len() == 0);
        }
    }
}

proof fn lemma_highest(levels: Seq<smarkets::Level>)
    ensures
        smarkets::highest(levels) matches Some(best) ==> (exists|i: int|
            0 <= i < levels.len() && (#[trigger] levels[i]).price == best) && forall|i: int|
            0 <= i < levels.len() ==> (#[trigger] levels[i]).price <= best,
        smarkets::highest(levels) is None ==> levels.len() == 0,
    decreases levels.len(),
{
    if levels.len() > 0 {
        let front = levels.drop_last();
        let last = levels.len() - 1;
        lemma_highest(front);
        assert(levels[last] == levels.last());
        if let Some(best) = smarkets::highest(front) {
            let k = choose|k: int| 0 <= k < front.len() && (#[trigger] front[k]).price == best;
            assert(levels[k] == front[k]);
            assert forall|i: int| 0 <= i < levels.len() implies (#[trigger] levels[i]).price
                <= smarkets::highest(levels)->0 by {
                if i < last {
                    assert(front[i] == levels[i]);
                }
            }
        }
    }
}

/// Odds are ten thousand over the price in basis points, to four digits.
pub proof fn smarkets_odds_are_the_inverse_price(price: int)
    ensures
        smarkets::odds_at(price) matches Some(odds) ==> (quotient(
            dec(10_000, 0),
            dec(price, 0),
        ) matches Some(q) && odds == rounded(q, 4)),
{
}

/// A Smarkets quote has the home or first player first, each side at the odds of
/// its own contract, where the two prices make a book of at most what is
/// allowed above a dollar.
pub proof fn smarkets_quotes_home_first(
    sport: Sport,
    event: smarkets::Event,
    market: smarkets::Market,
    contracts: Seq<smarkets::Contract>,
    books: Map<Seq<char>, smarkets::Book>,
    fetched_at: int,
)
    ensures
        smarkets::market_quote(sport, event, market, contracts, books, fetched_at) matches Ok(q)
            ==> {
            &&& contracts.len() == 2
            &&& exists|i: int, j: int|
                {
                    let (a, b) = (#[trigger] contracts[i], #[trigger] contracts[j]);
                    &&& 0 <= i < 2 && 0 <= j < 2 && i != j
                    &&& a.contract_type@ == "PLAYER_A"@ || a.contract_type@ == "HOME"@
                    &&& b.contract_type@ == "PLAYER_B"@ || b.contract_type@ == "AWAY"@
                    &&& q.participant_a_provider_ids["smarkets"@] == a.id@
                    &&& q.participant_b_provider_ids["smarkets"@] == b.id@
                    &&& (q.participant_a, q.participant_b) == smarkets::names_of(event, a, b)
                    &&& smarkets::offer_price(books, a.id@) matches Ok(x) && (
                    smarkets::offer_price(books, b.id@) matches Ok(y) && smarkets::odds_at(x)
                        == Some(q.decimal_odds_a) && smarkets::odds_at(y) == Some(q.decimal_odds_b)
                        && 10_000 <= x + y <= smarkets::MAX_OVERROUND)
                }
            &&& q.sport == sport
            &&& q.event_id == event.id@
            &&& q.fetched_at == fetched_at
            &&& !q.validation_only
        },
{
    if smarkets::market_quote(sport, event, market, contracts, books, fetched_at) is Ok {
        let (first, second) = (contracts[0], contracts[1]);
        if smarkets::side_of(first) == Some(smarkets::Side::A) {
            assert(contracts[0] == first && contracts[1] == second);
        } else {
            assert(contracts[1] == second && contracts[0] == first);
        }
    }
}

/// A bookmaker's quote has the home team first, each team at the price of the
/// outcome with its name, and a draw at its own.
pub proof fn the_odds_api_quotes_home_first(
    sport: Sport,
    event: the_odds_api::ApiEvent,
    bookmaker: the_odds_api::ApiBookmaker,
    fetched_at: int,
)
    ensures
        the_odds_api::bookmaker_quote(sport, event, bookmaker, fetched_at) matches Ok(Some(q)) ==> {
            &&& the_odds_api::head_to_head(bookmaker.markets@, 0) matches Some(market) && {
                &&& the_odds_api::outcome_named(market.outcomes@, event.home_team@, 0) matches Some(
                    home,
                ) && dec_of(home.price) == Some(q.decimal_odds_a)
                &&& the_odds_api::outcome_named(market.outcomes@, event.away_team@, 0) matches Some(
                    away,
                ) && dec_of(away.price) == Some(q.decimal_odds_b)
                &&& the_odds_api::neutral_odds(market.outcomes@) == Ok::<Option<Dec>, Failure>(
                    q.decimal_odds_neutral,
                )
            }
            &&& q.participant_a == event.home_team@
            &&& q.participant_b == event.away_team@
            &&& q.source_id == "the_odds_api:"@ + bookmaker.key@
            &&& q.event_id == event.id@
            &&& q.sport == sport
            &&& q.fetched_at == fetched_at
            &&& !q.validation_only
        },
{
}

/// An outcome stands for the name it is listed under.
pub proof fn outcomes_are_told_by_their_name(
    outcomes: Seq<the_odds_api::ApiOutcome>,
    name: Seq<char>,
    from: int,
)
    requires
        0 <= from,
    ensures
        the_odds_api::outcome_named(outcomes, name, from) matches Some(o) ==> o.name@ == name
            && outcomes.contains(o),
        the_odds_api::neutral_outcome(outcomes, from) matches Some(o) ==> outcomes.contains(o) && (
        crate::text::same_ignoring_case(o.name@, "draw"@) || crate::text::same_ignoring_case(
            o.name@,
            "tie"@,
        )),
    decreases outcomes.len() - from,
{
    if from < outcomes.len() {
        outcomes_are_told_by_their_name(outcomes, name, from + 1);
        assert(outcomes.contains(outcomes[from]));
    }
}

/// A direct book's quote keeps the book's prices and takes the library's own
/// identity, and counts only for a sport that is wanted.
pub proof fn direct_books_keep_their_prices(
    quote: Quote,
    source_id: Seq<char>,
    family: Family,
    sports: Seq<Sport>,
    fetched_at: int,
)
    ensures
        canonical::wanted(quote, source_id, family, sports, fetched_at) is Some
            <==> sports.contains(quote.sport),
        canonical::wanted(quote, source_id, family, sports, fetched_at) matches Some(q) ==> {
            &&& q.decimal_odds_a == quote.decimal_odds_a
            &&& q.decimal_odds_b == quote.decimal_odds_b
            &&& q.decimal_odds_neutral == quote.decimal_odds_neutral
            &&& q.participant_a == quote.participant_a
            &&& q.participant_b == quote.participant_b
            &&& q.participant_a_provider_ids == quote.participant_a_provider_ids
            &&& q.participant_b_provider_ids == quote.participant_b_provider_ids
            &&& q.start_time == quote.start_time
            &&& q.source_timestamp == quote.source_timestamp
            &&& q.source_id == source_id
            &&& q.family == family
            &&& q.fetched_at == fetched_at
            &&& !q.validation_only
        },
{
}

/// The skins of one operator speak for one family: each of these books for the
/// one that owns it, and any other for itself.
pub proof fn skins_speak_for_their_owner(key: Seq<char>)
    ensures
        key == "pinnacle"@ ==> odds_api_family(key) is Pinnacle,
        key == "circasports"@ ==> odds_api_family(key) is Circa,
        key == "bookmaker"@ ==> odds_api_family(key) is Bookmaker,
        key == "betonlineag"@ ==> odds_api_family(key) is BetOnline,
        key == "bet365"@ ==> odds_api_family(key) is Bet365,
        key == "bet365_au"@ ==> odds_api_family(key) is Bet365,
        key == "draftkings"@ ==> odds_api_family(key) is DraftKings,
        key == "fanduel"@ ==> odds_api_family(key) is FanDuel,
        key == "williamhill_us"@ ==> odds_api_family(key) is Caesars,
        key == "williamhill"@ ==> odds_api_family(key) is Caesars,
        key == "caesars"@ ==> odds_api_family(key) is Caesars,
        key == "betmgm"@ ==> odds_api_family(key) is BetMgm,
        key == "betmgm_uk"@ ==> odds_api_family(key) is BetMgm,
        key == "fanatics"@ ==> odds_api_family(key) is Fanatics,
        key == "betrivers"@ ==> odds_api_family(key) is Kambi,
        key == "unibet_us"@ ==> odds_api_family(key) is Kambi,
        key == "unibet_uk"@ ==> odds_api_family(key) is Kambi,
        key == "unibet_eu"@ ==> odds_api_family(key) is Kambi,
        key == "hardrockbet"@ ==> odds_api_family(key) is HardRock,
        key == "hardrockbet_az"@ ==> odds_api_family(key) is HardRock,
        key == "hardrockbet_fl"@ ==> odds_api_family(key) is HardRock,
        key == "hardrockbet_oh"@ ==> odds_api_family(key) is HardRock,
        key == "espnbet"@ ==> odds_api_family(key) is Penn,
        key == "thescorebet"@ ==> odds_api_family(key) is Penn,
        key == "bovada"@ ==> odds_api_family(key) is Bovada,
        key == "lowvig"@ ==> odds_api_family(key) is LowVig,
        key == "kalshi"@ ==> odds_api_family(key) is Kalshi,
        key == "polymarket"@ ==> odds_api_family(key) is PolymarketGlobal,
        odds_api_family(key) matches Family::Other(name) ==> name == key,
{
    reveal_strlit("pinnacle");
    assert("pinnacle"@.len() == 8);
    assert("pinnacle"@[0] == 'p');
    reveal_strlit("circasports");
    assert("circasports"@.len() == 11);
    assert("circasports"@[0] == 'c');
    reveal_strlit("bookmaker");
    assert("bookmaker"@.len() == 9);
    assert("bookmaker"@[0] == 'b');
    assert("bookmaker"@[1] == 'o');
    reveal_strlit("betonlineag");
    assert("betonlineag"@.len() == 11);
    assert("betonlineag"@[0] == 'b');
    reveal_strlit("bet365");
    assert("bet365"@.len() == 6);
    assert("bet365"@[0] == 'b');
    assert("bet365"@[1] == 'e');
    assert("bet365"@[3] == '3');
    reveal_strlit("bet365_au");
    assert("bet365_au"@.len() == 9);
    assert("bet365_au"@[0] == 'b');
    assert("bet365_au"@[1] == 'e');
    assert("bet365_au"@[3] == '3');
    reveal_strlit("draftkings");
    assert("draftkings"@.len() == 10);
    assert("draftkings"@[0] == 'd');
    reveal_strlit("fanduel");
    assert("fanduel"@.len() == 7);
    assert("fanduel"@[0] == 'f');
    reveal_strlit("williamhill_us");
    assert("williamhill_us"@.len() == 14);
    assert("williamhill_us"@[0] == 'w');
    reveal_strlit("williamhill");
    assert("williamhill"@.len() == 11);
    assert("williamhill"@[0] == 'w');
    reveal_strlit("caesars");
    assert("caesars"@.len() == 7);
    assert("caesars"@[0] == 'c');
    reveal_strlit("betmgm");
    assert("betmgm"@.len() == 6);
    assert("betmgm"@[0] == 'b');
    assert("betmgm"@[1] == 'e');
    assert("betmgm"@[3] == 'm');
    reveal_strlit("betmgm_uk");
    assert("betmgm_uk"@.len() == 9);
    assert("betmgm_uk"@[0] == 'b');
    assert("betmgm_uk"@[1] == 'e');
    assert("betmgm_uk"@[3] == 'm');
    reveal_strlit("fanatics");
    assert("fanatics"@.len() == 8);
    assert("fanatics"@[0] == 'f');
    reveal_strlit("betrivers");
    assert("betrivers"@.len() == 9);
    assert("betrivers"@[0] == 'b');
    assert("betrivers"@[1] == 'e');
    assert("betrivers"@[3] == 'r');
    reveal_strlit("unibet_us");
    assert("unibet_us"@.len() == 9);
    assert("unibet_us"@[0] == 'u');
    assert("unibet_us"@[7] == 'u');
    assert("unibet_us"@[8] == 's');
    reveal_strlit("unibet_uk");
    assert("unibet_uk"@.len() == 9);
    assert("unibet_uk"@[0] == 'u');
    assert("unibet_uk"@[7] == 'u');
    assert("unibet_uk"@[8] == 'k');
    reveal_strlit("unibet_eu");
    assert("unibet_eu"@.len() == 9);
    assert("unibet_eu"@[0] == 'u');
    assert("unibet_eu"@[7] == 'e');
    reveal_strlit("hardrockbet");
    assert("hardrockbet"@.len() == 11);
    assert("hardrockbet"@[0] == 'h');
    reveal_strlit("hardrockbet_az");
    assert("hardrockbet_az"@.len() == 14);
    assert("hardrockbet_az"@[0] == 'h');
    assert("hardrockbet_az"@[12] == 'a');
    reveal_strlit("hardrockbet_fl");
    assert("hardrockbet_fl"@.len() == 14);
    assert("hardrockbet_fl"@[0] == 'h');
    assert("hardrockbet_fl"@[12] == 'f');
    reveal_strlit("hardrockbet_oh");
    assert("hardrockbet_oh"@.len() == 14);
    assert("hardrockbet_oh"@[0] == 'h');
    assert("hardrockbet_oh"@[12] == 'o');
    reveal_strlit("espnbet");
    assert("espnbet"@.len() == 7);
    assert("espnbet"@[0] == 'e');
    reveal_strlit("thescorebet");
    assert("thescorebet"@.len() == 11);
    assert("thescorebet"@[0] == 't');
    reveal_strlit("bovada");
    assert("bovada"@.len() == 6);
    assert("bovada"@[0] == 'b');
    assert("bovada"@[1] == 'o');
    reveal_strlit("lowvig");
    assert("lowvig"@.len() == 6);
    assert("lowvig"@[0] == 'l');
    reveal_strlit("kalshi");
    assert("kalshi"@.len() == 6);
    assert("kalshi"@[0] == 'k');
    reveal_strlit("polymarket");
    assert("polymarket"@.len() == 10);
    assert("polymarket"@[0] == 'p');
}

/// So do the providers of the scoreboard.
pub proof fn scoreboard_providers_speak_for_their_owner(key: Seq<char>)
    ensures
        key == "draftkings"@ ==> espn::family_with_key(key) is DraftKings,
        key == "espnbet"@ ==> espn::family_with_key(key) is Penn,
        key == "thescorebet"@ ==> espn::family_with_key(key) is Penn,
        key == "caesars"@ ==> espn::family_with_key(key) is Caesars,
        key == "caesarssportsbook"@ ==> espn::family_with_key(key) is Caesars,
        key == "williamhill"@ ==> espn::family_with_key(key) is Caesars,
        key == "fanduel"@ ==> espn::family_with_key(key) is FanDuel,
        key == "betmgm"@ ==> espn::family_with_key(key) is BetMgm,
        espn::family_with_key(key) matches Family::Other(name) ==> name == key,
{
    reveal_strlit("draftkings");
    assert("draftkings"@.len() == 10);
    reveal_strlit("espnbet");
    assert("espnbet"@.len() == 7);
    assert("espnbet"@[0] == 'e');
    reveal_strlit("thescorebet");
    assert("thescorebet"@.len() == 11);
    assert("thescorebet"@[0] == 't');
    reveal_strlit("caesars");
    assert("caesars"@.len() == 7);
    assert("caesars"@[0] == 'c');
    reveal_strlit("caesarssportsbook");
    assert("caesarssportsbook"@.len() == 17);
    reveal_strlit("williamhill");
    assert("williamhill"@.len() == 11);
    assert("williamhill"@[0] == 'w');
    reveal_strlit("fanduel");
    assert("fanduel"@.len() == 7);
    assert("fanduel"@[0] == 'f');
    reveal_strlit("betmgm");
    assert("betmgm"@.len() == 6);
}

/// Each listed book of the lines feed speaks for its own family, and no other
/// book is taken.
pub proof fn listed_books_speak_for_their_family(id: u64)
    ensures
        action_network::book_of(id) is Some <==> action_network::listed_books().contains(id),
        (action_network::book_of(68) matches Some((_, family)) && family is DraftKings),
        (action_network::book_of(69) matches Some((_, family)) && family is FanDuel),
        (action_network::book_of(75) matches Some((_, family)) && family is BetMgm),
        (action_network::book_of(123) matches Some((_, family)) && family is Caesars),
        (action_network::book_of(79) matches Some((_, family)) && family is Bet365),
        (action_network::book_of(71) matches Some((_, family)) && family is Kambi),
        (action_network::book_of(2988) matches Some((_, family)) && family is Fanatics),
        (action_network::book_of(78) matches Some((_, family)) && family is Circa),
        (action_network::book_of(34) matches Some((_, family)) && family is Bookmaker),
        (action_network::book_of(1) matches Some((_, family)) && family is BetOnline),
        (action_network::book_of(21) matches Some((_, family)) && family is Bovada),
{
    let ids = action_network::listed_books();
    assert(ids[0] == 68 && ids[1] == 69 && ids[2] == 75 && ids[3] == 123 && ids[4] == 79 && ids[5]
        == 71 && ids[6] == 2988 && ids[7] == 78 && ids[8] == 34 && ids[9] == 1 && ids[10] == 21
        && ids[11] == 16);
}

} // verus!
