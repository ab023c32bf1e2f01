//! Pinnacle's guest API: the read-only feed behind its odds pages. Pinnacle is
//! the reference book, so this source is what lets a candidate reach
//! `actionable` without a paid feed.

use vstd::prelude::*;

use crate::decimal::{Dec, Decimal};
use crate::domain::{
    source_quote_views, Family, Quote, SourceFamily, SourceQuote, Sport,
    DEFAULT_START_TIME_TOLERANCE_MINUTES,
};
use crate::seqs::{group_seqs, kept, kept_next, take_next};
use crate::sources::{no_ids, odds_pair, some_quote, two_way, two_way_odds};
use crate::text::{digits, natural, owned, same, text_of};
use crate::time::{parse_rfc3339, rfc3339, Timestamp};

verus! {

broadcast use group_seqs;

#[derive(Debug)]
pub struct Participant {
    pub name: String,
    pub alignment: String,
}

#[derive(Debug)]
pub struct Matchup {
    pub id: u64,
    pub kind: String,
    pub start_time: String,
    pub is_live: bool,
    pub parent_id: Option<u64>,
    /// Whether the matchup is a proposition.
    pub special: bool,
    pub participants: Vec<Participant>,
}

#[derive(Debug)]
pub struct Price {
    pub designation: Option<String>,
    pub price: i64,
}

#[derive(Debug)]
pub struct Market {
    pub key: String,
    pub matchup_id: u64,
    pub status: String,
    pub is_alternate: bool,
    pub prices: Vec<Price>,
}

/// Where the feed keeps a sport: a league, or every tennis tour.
pub open spec fn scope_of(sport: Sport) -> Seq<char> {
    match sport {
        Sport::Nfl => "/leagues/889"@,
        Sport::Nba => "/leagues/487"@,
        Sport::Wnba => "/leagues/578"@,
        Sport::Mlb => "/leagues/246"@,
        Sport::Tennis => "/sports/33"@,
    }
}

pub fn scope(sport: Sport) -> (result: &'static str)
    ensures
        result@ == scope_of(sport),
{
    match sport {
        Sport::Nfl => "/leagues/889",
        Sport::Nba => "/leagues/487",
        Sport::Wnba => "/leagues/578",
        Sport::Mlb => "/leagues/246",
        Sport::Tennis => "/sports/33",
    }
}

/// A game before its start: no proposition, no part of another matchup, not
/// live.
pub open spec fn is_game(matchup: Matchup) -> bool {
    matchup.kind@ == "matchup"@ && !matchup.special && matchup.parent_id is None
        && !matchup.is_live
}

/// The game with an identifier: the last one.
pub open spec fn game_of(matchups: Seq<Matchup>, id: u64) -> Option<Matchup>
    decreases matchups.len(),
{
    if matchups.len() == 0 {
        None
    } else if is_game(matchups.last()) && matchups.last().id == id {
        Some(matchups.last())
    } else {
        game_of(matchups.drop_last(), id)
    }
}

/// The first participant, from place `from` on, on one side.
pub open spec fn aligned(list: Seq<Participant>, alignment: Seq<char>, from: int) -> Option<Seq<char>>
    decreases list.len() - from,
{
    if from >= list.len() {
        None
    } else if list[from].alignment@ == alignment {
        Some(list[from].name@)
    } else {
        aligned(list, alignment, from + 1)
    }
}

/// The first price, from place `from` on, of one side.
pub open spec fn designated(list: Seq<Price>, designation: Seq<char>, from: int) -> Option<i64>
    decreases list.len() - from,
{
    if from >= list.len() {
        None
    } else if text_of(list[from].designation) == Some(designation) {
        Some(list[from].price)
    } else {
        designated(list, designation, from + 1)
    }
}

/// An open full-game moneyline that is no alternate.
pub open spec fn is_moneyline(market: Market) -> bool {
    market.key@ == "s;0;m"@ && market.status@ == "open"@ && !market.is_alternate
}

/// The odds of both sides of a market, if they make a plausible market.
pub open spec fn market_odds(market: Market) -> Option<(Dec, Dec)> {
    if market.prices@.len() != 2 {
        None
    } else {
        match (designated(market.prices@, "home"@, 0), designated(market.prices@, "away"@, 0)) {
            (Some(home), Some(away)) => two_way(home as int, away as int),
            _ => None,
        }
    }
}

/// The quote that a market gives, if it is the moneyline of a game to come.
pub open spec fn market_quote(
    sport: Sport,
    matchups: Seq<Matchup>,
    market: Market,
    fetched_at: int,
) -> Option<Quote> {
    if !is_moneyline(market) {
        None
    } else {
        match game_of(matchups, market.matchup_id) {
            None => None,
            Some(game) => match (
                rfc3339(game.start_time@),
                aligned(game.participants@, "home"@, 0),
                aligned(game.participants@, "away"@, 0),
                market_odds(market),
            ) {
                (Ok(start_time), Some(home), Some(away), Some((a, b))) => if start_time
                    <= fetched_at {
                    None
                } else {
                    Some(
                        Quote {
                            source_id: "pinnacle"@,
                            family: Family::Pinnacle,
                            sport,
                            event_id: digits(game.id as nat),
                            participant_a: home,
                            participant_b: away,
                            participant_a_provider_ids: Map::empty(),
                            participant_b_provider_ids: Map::empty(),
                            start_time,
                            start_time_tolerance_minutes:
                                DEFAULT_START_TIME_TOLERANCE_MINUTES as int,
                            decimal_odds_a: a,
                            decimal_odds_b: b,
                            decimal_odds_neutral: None,
                            source_timestamp: fetched_at,
                            fetched_at,
                            parser_version: "pinnacle-v1"@,
                            validation_only: false,
                        },
                    )
                },
                _ => None,
            },
        }
    }
}

/// The quotes of a sport: open full-game moneylines joined to pregame games.
pub open spec fn quotes_from(
    sport: Sport,
    matchups: Seq<Matchup>,
    markets: Seq<Market>,
    fetched_at: int,
) -> Seq<Quote> {
    kept(markets, |m: Market| market_quote(sport, matchups, m, fetched_at))
}

fn find_game(matchups: &Vec<Matchup>, id: u64) -> (result: Option<usize>)
    ensures
        match result {
            Some(i) => i < matchups@.len() && game_of(matchups@, id) == Some(matchups@[i as int]),
            None => game_of(matchups@, id) is None,
        },
{
    let mut i: usize = matchups.len();
    while i > 0
        invariant
            i <= matchups@.len(),
            game_of(matchups@, id) == game_of(matchups@.take(i as int), id),
        decreases i,
    {
        proof {
            take_next(matchups@, i - 1);
        }
        i = i - 1;
        let m = &matchups[i];
        if same(m.kind.as_str(), "matchup") && !m.special && m.parent_id.is_none() && !m.is_live
            && m.id == id {
            return Some(i);
        }
    }
    None
}

impl Matchup {
    /// The name of the participant on one side.
    pub fn participant(&self, alignment: &str) -> (result: Option<String>)
        ensures
            text_of(result) == aligned(self.participants@, alignment@, 0),
    {
        let mut i: usize = 0;
        while i < self.participants.len()
            invariant
                i <= self.participants@.len(),
                aligned(self.participants@, alignment@, 0) == aligned(
                    self.participants@,
                    alignment@,
                    i as int,
                ),
            decreases self.participants@.len() - i,
        {
            if same(self.participants[i].alignment.as_str(), alignment) {
                return Some(owned(self.participants[i].name.as_str()));
            }
            i = i + 1;
        }
        None
    }
}

impl Market {
    /// The price of one side.
    pub fn price(&self, designation: &str) -> (result: Option<i64>)
        ensures
            result == designated(self.prices@, designation@, 0),
    {
        let mut i: usize = 0;
        while i < self.prices.len()
            invariant
                i <= self.prices@.len(),
                designated(self.prices@, designation@, 0) == designated(
                    self.prices@,
                    designation@,
                    i as int,
                ),
            decreases self.prices@.len() - i,
        {
            match &self.prices[i].designation {
                Some(name) => {
                    if same(name.as_str(), designation) {
                        return Some(self.prices[i].price);
                    }
                },
                None => {},
            }
            i = i + 1;
        }
        None
    }
}

fn read_odds(market: &Market) -> (result: Option<(Decimal, Decimal)>)
    ensures
        odds_pair(result) == market_odds(*market),
{
    if market.prices.len() != 2 {
        return None;
    }
    let home = market.price("home")?;
    let away = market.price("away")?;
    two_way_odds(home, away)
}

fn read_market(sport: Sport, matchups: &Vec<Matchup>, market: &Market, fetched_at: Timestamp) -> (result:
    Option<SourceQuote>)
    ensures
        some_quote(result) == market_quote(sport, matchups@, *market, fetched_at@),
{
    if !(same(market.key.as_str(), "s;0;m") && same(market.status.as_str(), "open")
        && !market.is_alternate) {
        return None;
    }
    let i: usize = find_game(matchups, market.matchup_id)?;
    let game = &matchups[i];
    let start_time = match parse_rfc3339(game.start_time.as_str()) {
        Ok(t) => t,
        Err(_) => {
            return None;
        },
    };
    if !fetched_at.before(start_time) {
        return None;
    }
    let participant_a = game.participant("home")?;
    let participant_b = game.participant("away")?;
    let (decimal_odds_a, decimal_odds_b) = read_odds(market)?;
    Some(
        SourceQuote {
            source_id: owned("pinnacle"),
            family: SourceFamily::Pinnacle,
            sport,
            event_id: natural(game.id as u128),
            participant_a,
            participant_b,
            participant_a_provider_ids: no_ids(),
            participant_b_provider_ids: no_ids(),
            start_time,
            start_time_tolerance_minutes: DEFAULT_START_TIME_TOLERANCE_MINUTES,
            decimal_odds_a,
            decimal_odds_b,
            decimal_odds_neutral: None,
            source_timestamp: fetched_at,
            fetched_at,
            parser_version: owned("pinnacle-v1"),
            validation_only: false,
        },
    )
}

/// Joins open full-game moneylines to pregame games. Propositions, alternates,
/// live and started matchups, and rows that make no sense, are dropped.
pub fn normalize(
    sport: Sport,
    matchups: &Vec<Matchup>,
    markets: &Vec<Market>,
    fetched_at: Timestamp,
) -> (result: Vec<SourceQuote>)
    ensures
        source_quote_views(result@) == quotes_from(sport, matchups@, markets@, fetched_at@),
{
    let ghost f = |m: Market| market_quote(sport, matchups@, m, fetched_at@);
    let mut out: Vec<SourceQuote> = Vec::new();
    let mut i: usize = 0;
    while i < markets.len()
        invariant
            i <= markets@.len(),
            f == (|m: Market| market_quote(sport, matchups@, m, fetched_at@)),
            source_quote_views(out@) == kept(markets@.take(i as int), f),
        decreases markets@.len() - i,
    {
        proof {
            kept_next(markets@, f, i as int);
        }
        match read_market(sport, matchups, &markets[i], fetched_at) {
            Some(quote) => {
                out.push(quote);
            },
            None => {},
        }
        i = i + 1;
    }
    out
}

} // verus!
