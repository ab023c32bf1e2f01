//! ESPN's public scoreboard and core odds feeds. No key, no quota. Every
//! provider that the odds endpoint returns is a quote of its own, with its own
//! family.

use vstd::prelude::*;

use crate::domain::{
    source_quote_views, Family, Quote, SourceFamily, SourceQuote, Sport,
    DEFAULT_START_TIME_TOLERANCE_MINUTES,
};
use crate::error::{invalid, Error, Failure};
use crate::seqs::{filter_next, group_seqs, take_next};
use crate::sources::{
    american_to_decimal, from_american, one_id, quote_result, quotes_result, single_id,
};
use crate::text::{
    chars, concat2, concat4, is_ascii_alnum, lowercase, owned, push_char, same, lowered,
};
use crate::time::{naive_instant, parse_naive, parse_rfc3339, rfc3339, Timestamp};

verus! {

broadcast use group_seqs;

#[derive(Debug)]
pub struct Team {
    pub id: String,
    pub display_name: String,
}

#[derive(Debug)]
pub struct Competitor {
    pub home_away: String,
    pub team: Team,
}

#[derive(Debug)]
pub struct Competition {
    pub id: String,
    /// `pre` before the game.
    pub state: String,
    pub competitors: Vec<Competitor>,
}

#[derive(Debug)]
pub struct OddsItem {
    pub provider: String,
    pub home_money_line: Option<i64>,
    pub away_money_line: Option<i64>,
}

/// Where ESPN keeps a sport, if it does: the sport and the league.
pub open spec fn path_of(sport: Sport) -> Option<(Seq<char>, Seq<char>)> {
    match sport {
        Sport::Nfl => Some(("football"@, "nfl"@)),
        Sport::Nba => Some(("basketball"@, "nba"@)),
        Sport::Wnba => Some(("basketball"@, "wnba"@)),
        Sport::Mlb => Some(("baseball"@, "mlb"@)),
        Sport::Tennis => None,
    }
}

pub fn espn_path(sport: Sport) -> (result: Option<(&'static str, &'static str)>)
    ensures
        match result {
            Some((a, b)) => path_of(sport) == Some((a@, b@)),
            None => path_of(sport) is None,
        },
{
    match sport {
        Sport::Nfl => Some(("football", "nfl")),
        Sport::Nba => Some(("basketball", "nba")),
        Sport::Wnba => Some(("basketball", "wnba")),
        Sport::Mlb => Some(("baseball", "mlb")),
        Sport::Tennis => None,
    }
}

/// Whether a competition has not started.
pub fn is_pregame(competition: &Competition) -> (result: bool)
    ensures
        result == (competition.state@ == "pre"@),
{
    same(competition.state.as_str(), "pre")
}

/// The first competitor, from place `from` on, on one side.
pub open spec fn competitor_on(list: Seq<Competitor>, side: Seq<char>, from: int) -> Option<
    Competitor,
>
    decreases list.len() - from,
{
    if from >= list.len() {
        None
    } else if list[from].home_away@ == side {
        Some(list[from])
    } else {
        competitor_on(list, side, from + 1)
    }
}

fn find_competitor(list: &Vec<Competitor>, side: &str) -> (result: Option<usize>)
    ensures
        match result {
            Some(i) => i < list@.len() && competitor_on(list@, side@, 0) == Some(list@[i as int]),
            None => competitor_on(list@, side@, 0) is None,
        },
{
    let mut i: usize = 0;
    while i < list.len()
        invariant
            i <= list@.len(),
            competitor_on(list@, side@, 0) == competitor_on(list@, side@, i as int),
        decreases list@.len() - i,
    {
        if same(list[i].home_away.as_str(), side) {
            return Some(i);
        }
        i = i + 1;
    }
    None
}

/// A provider's name as an identifier: its letters and digits, in lower case.
pub open spec fn key_of(name: Seq<char>) -> Seq<char> {
    lowered(name.filter(|c: char| is_ascii_alnum(c)))
}

/// The family that a provider belongs to.
pub open spec fn family_of(name: Seq<char>) -> Family {
    family_with_key(key_of(name))
}

/// The family of a provider by its identifier.
pub open spec fn family_with_key(key: Seq<char>) -> Family {
    if key == "draftkings"@ {
        Family::DraftKings
    } else if key == "espnbet"@ || key == "thescorebet"@ {
        Family::Penn
    } else if key == "caesars"@ || key == "caesarssportsbook"@ || key == "williamhill"@ {
        Family::Caesars
    } else if key == "fanduel"@ {
        Family::FanDuel
    } else if key == "betmgm"@ {
        Family::BetMgm
    } else {
        Family::Other(key)
    }
}

pub fn provider_key(name: &str) -> (result: String)
    ensures
        result@ == key_of(name@),
{
    let all = chars(name);
    let ghost keep = |c: char| is_ascii_alnum(c);
    let mut out = String::new();
    let mut i: usize = 0;
    while i < all.len()
        invariant
            all@ == name@,
            i <= all@.len(),
            keep == (|c: char| is_ascii_alnum(c)),
            out@ == all@.take(i as int).filter(keep),
        decreases all@.len() - i,
    {
        proof {
            filter_next(all@, keep, i as int);
        }
        let c: char = all[i];
        if ('0' <= c && c <= '9') || ('a' <= c && c <= 'z') || ('A' <= c && c <= 'Z') {
            push_char(&mut out, c);
        }
        i = i + 1;
    }
    lowercase(out.as_str())
}

pub fn provider_family(name: &str) -> (result: SourceFamily)
    ensures
        result@ == family_of(name@),
{
    keyed_family(provider_key(name))
}

/// The family of the provider with an identifier.
pub fn keyed_family(key: String) -> (result: SourceFamily)
    ensures
        result@ == family_with_key(key@),
{
    let k = key.as_str();
    if same(k, "draftkings") {
        SourceFamily::DraftKings
    } else if same(k, "espnbet") || same(k, "thescorebet") {
        SourceFamily::Penn
    } else if same(k, "caesars") || same(k, "caesarssportsbook") || same(k, "williamhill") {
        SourceFamily::Caesars
    } else if same(k, "fanduel") {
        SourceFamily::FanDuel
    } else if same(k, "betmgm") {
        SourceFamily::BetMgm
    } else {
        SourceFamily::Other(key)
    }
}

/// When a game starts: minutes without seconds, or a full time stamp.
pub open spec fn start_of(value: Seq<char>) -> Result<int, Failure> {
    match naive_instant(value, "%Y-%m-%dT%H:%MZ"@) {
        Some(instant) => Ok(instant),
        None => match rfc3339(value) {
            Ok(instant) => Ok(instant),
            Err(message) => Err(
                Failure::InvalidData("ESPN date "@ + value + ": "@ + message),
            ),
        },
    }
}

pub fn parse_espn_date(value: &str) -> (result: Result<Timestamp, Error>)
    ensures
        match result {
            Ok(t) => start_of(value@) == Ok::<int, Failure>(t@),
            Err(e) => start_of(value@) == Err::<int, Failure>(e@),
        },
{
    match parse_naive(value, "%Y-%m-%dT%H:%MZ") {
        Some(t) => Ok(t),
        None => match parse_rfc3339(value) {
            Ok(t) => Ok(t),
            Err(message) => Err(
                Error::InvalidData(concat4("ESPN date ", value, ": ", message.as_str())),
            ),
        },
    }
}

/// A game that quotes are read for.
pub struct Game {
    pub sport: Sport,
    pub event_id: Seq<char>,
    pub home: Competitor,
    pub away: Competitor,
    pub start_time: int,
    pub fetched_at: int,
}

/// The quote that a provider's item gives, home side first: none without two
/// lines, missing on overflow.
pub open spec fn item_quote(game: Game, item: OddsItem) -> Result<Option<Quote>, Failure> {
    match (item.home_money_line, item.away_money_line) {
        (Some(home), Some(away)) => if home == 0 || away == 0 {
            Ok(None)
        } else {
            match (from_american(home as int), from_american(away as int)) {
                (Some(decimal_odds_a), Some(decimal_odds_b)) => Ok(
                    Some(
                        Quote {
                            source_id: "espn:"@ + key_of(item.provider@),
                            family: family_of(item.provider@),
                            sport: game.sport,
                            event_id: game.event_id,
                            participant_a: game.home.team.display_name@,
                            participant_b: game.away.team.display_name@,
                            participant_a_provider_ids: one_id("espn"@, game.home.team.id@),
                            participant_b_provider_ids: one_id("espn"@, game.away.team.id@),
                            start_time: game.start_time,
                            start_time_tolerance_minutes:
                                DEFAULT_START_TIME_TOLERANCE_MINUTES as int,
                            decimal_odds_a,
                            decimal_odds_b,
                            decimal_odds_neutral: None,
                            source_timestamp: game.fetched_at,
                            fetched_at: game.fetched_at,
                            parser_version: "espn-core-odds-v1"@,
                            validation_only: false,
                        },
                    ),
                ),
                _ => Err(Failure::Overflow),
            }
        },
        _ => Ok(None),
    }
}

pub open spec fn item_quotes(game: Game, items: Seq<OddsItem>) -> Result<Seq<Quote>, Failure>
    decreases items.len(),
{
    if items.len() == 0 {
        Ok(seq![])
    } else {
        match item_quotes(game, items.drop_last()) {
            Err(f) => Err(f),
            Ok(front) => match item_quote(game, items.last()) {
                Err(f) => Err(f),
                Ok(Some(quote)) => Ok(front.push(quote)),
                Ok(None) => Ok(front),
            },
        }
    }
}

/// The quotes on a competition, or what is wrong with it.
pub open spec fn competition_quotes(
    sport: Sport,
    event_id: Seq<char>,
    date: Seq<char>,
    competition: Competition,
    items: Seq<OddsItem>,
    fetched_at: int,
) -> Result<Seq<Quote>, Failure> {
    match (
        competitor_on(competition.competitors@, "home"@, 0),
        competitor_on(competition.competitors@, "away"@, 0),
    ) {
        (None, _) => Err(Failure::InvalidData("no home competitor"@)),
        (_, None) => Err(Failure::InvalidData("no away competitor"@)),
        (Some(home), Some(away)) => match start_of(date) {
            Err(f) => Err(f),
            Ok(start_time) => item_quotes(
                Game { sport, event_id, home, away, start_time, fetched_at },
                items,
            ),
        },
    }
}

fn read_item(
    sport: Sport,
    event_id: &str,
    home: &Competitor,
    away: &Competitor,
    start_time: Timestamp,
    fetched_at: Timestamp,
    item: &OddsItem,
) -> (result: Result<Option<SourceQuote>, Error>)
    ensures
        quote_result(result) == item_quote(
            Game {
                sport,
                event_id: event_id@,
                home: *home,
                away: *away,
                start_time: start_time@,
                fetched_at: fetched_at@,
            },
            *item,
        ),
{
    let (home_line, away_line) = match (item.home_money_line, item.away_money_line) {
        (Some(h), Some(a)) => (h, a),
        _ => {
            return Ok(None);
        },
    };
    if home_line == 0 || away_line == 0 {
        return Ok(None);
    }
    match (american_to_decimal(home_line), american_to_decimal(away_line)) {
        (Some(decimal_odds_a), Some(decimal_odds_b)) => {
            let key = provider_key(item.provider.as_str());
            Ok(
                Some(
                    SourceQuote {
                        source_id: concat2("espn:", key.as_str()),
                        family: provider_family(item.provider.as_str()),
                        sport,
                        event_id: owned(event_id),
                        participant_a: owned(home.team.display_name.as_str()),
                        participant_b: owned(away.team.display_name.as_str()),
                        participant_a_provider_ids: single_id("espn", home.team.id.as_str()),
                        participant_b_provider_ids: single_id("espn", away.team.id.as_str()),
                        start_time,
                        start_time_tolerance_minutes: DEFAULT_START_TIME_TOLERANCE_MINUTES,
                        decimal_odds_a,
                        decimal_odds_b,
                        decimal_odds_neutral: None,
                        source_timestamp: fetched_at,
                        fetched_at,
                        parser_version: owned("espn-core-odds-v1"),
                        validation_only: false,
                    },
                ),
            )
        },
        _ => Err(Error::Overflow),
    }
}

proof fn lemma_items_stay_wrong(game: Game, items: Seq<OddsItem>, at: int)
    requires
        0 <= at <= items.len(),
        item_quotes(game, items.take(at)) is Err,
    ensures
        item_quotes(game, items) == item_quotes(game, items.take(at)),
    decreases items.len() - at,
{
    if at < items.len() {
        take_next(items, at);
        lemma_items_stay_wrong(game, items, at + 1);
    }
}

/// Reads the odds of a competition, the home side as the first participant.
pub fn normalize_competition(
    sport: Sport,
    event_id: &str,
    date: &str,
    competition: &Competition,
    items: &Vec<OddsItem>,
    fetched_at: Timestamp,
) -> (result: Result<Vec<SourceQuote>, Error>)
    ensures
        quotes_result(result) == competition_quotes(
            sport,
            event_id@,
            date@,
            *competition,
            items@,
            fetched_at@,
        ),
{
    let home = match find_competitor(&competition.competitors, "home") {
        Some(i) => &competition.competitors[i],
        None => {
            return Err(invalid("no home competitor"));
        },
    };
    let away = match find_competitor(&competition.competitors, "away") {
        Some(i) => &competition.competitors[i],
        None => {
            return Err(invalid("no away competitor"));
        },
    };
    let start_time = match parse_espn_date(date) {
        Ok(t) => t,
        Err(e) => {
            return Err(e);
        },
    };
    let ghost game = Game {
        sport,
        event_id: event_id@,
        home: *home,
        away: *away,
        start_time: start_time@,
        fetched_at: fetched_at@,
    };
    let mut out: Vec<SourceQuote> = Vec::new();
    let mut i: usize = 0;
    while i < items.len()
        invariant
            i <= items@.len(),
            game == (Game {
                sport,
                event_id: event_id@,
                home: *home,
                away: *away,
                start_time: start_time@,
                fetched_at: fetched_at@,
            }),
            competition_quotes(sport, event_id@, date@, *competition, items@, fetched_at@)
                == item_quotes(game, items@),
            item_quotes(game, items@.take(i as int)) == Ok::<Seq<Quote>, Failure>(
                source_quote_views(out@),
            ),
        decreases items@.len() - i,
    {
        proof {
            take_next(items@, i as int);
        }
        match read_item(sport, event_id, home, away, start_time, fetched_at, &items[i]) {
            Ok(Some(quote)) => {
                out.push(quote);
            },
            Ok(None) => {},
            Err(e) => {
                proof {
                    lemma_items_stay_wrong(game, items@, i + 1);
                }
                return Err(e);
            },
        }
        i = i + 1;
    }
    Ok(out)
}

} // verus!
