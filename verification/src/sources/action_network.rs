//! Action Network's public web scoreboard. One request for each league returns
//! every game with a row of moneylines for each sportsbook; each mapped book is
//! a quote of its own with that book's family. Unmapped books and rows whose
//! last update is too old are dropped.

use vstd::prelude::*;

use crate::domain::{
    source_quote_views, Family, Quote, SourceFamily, SourceQuote, Sport,
    DEFAULT_START_TIME_TOLERANCE_MINUTES,
};
use crate::error::{Error, Failure};
use crate::seqs::{group_seqs, kept, kept_next, take_next};
use crate::sources::{
    family_views, one_id, quotes_result, single_id, some_quote, two_way, two_way_odds,
};
use crate::text::{concat2, concat4, digits, natural, owned, same};
use crate::time::{parse_rfc3339, rfc3339, Timestamp};

verus! {

broadcast use group_seqs;

/// How old a line may be: two days. A row's stamp is when the line last
/// changed, not when it was last confirmed; a line set the day before is still
/// the live price, an opener from months ago is not.
pub const MAX_LINE_AGE_NANOS: i128 = 172_800_000_000_000;

#[derive(Debug)]
pub struct Team {
    pub id: u64,
    pub full_name: String,
}

#[derive(Debug)]
pub struct OddsRow {
    pub book_id: u64,
    pub kind: String,
    pub ml_home: Option<i64>,
    pub ml_away: Option<i64>,
    pub inserted: Option<String>,
}

#[derive(Debug)]
pub struct Game {
    pub id: u64,
    pub start_time: String,
    pub status: String,
    pub home_team_id: u64,
    pub away_team_id: u64,
    pub teams: Vec<Team>,
    pub odds: Vec<OddsRow>,
}

/// The league of a sport, if it is offered.
pub open spec fn league_of(sport: Sport) -> Option<Seq<char>> {
    match sport {
        Sport::Nfl => Some("nfl"@),
        Sport::Nba => Some("nba"@),
        Sport::Wnba => Some("wnba"@),
        Sport::Mlb => Some("mlb"@),
        Sport::Tennis => None,
    }
}

pub fn league_slug(sport: Sport) -> (result: Option<&'static str>)
    ensures
        match result {
            Some(league) => league_of(sport) == Some(league@),
            None => league_of(sport) is None,
        },
{
    match sport {
        Sport::Nfl => Some("nfl"),
        Sport::Nba => Some("nba"),
        Sport::Wnba => Some("wnba"),
        Sport::Mlb => Some("mlb"),
        Sport::Tennis => None,
    }
}

/// The books that are asked for and accepted. The feed often ignores the
/// filter, so membership here is the real gate.
pub open spec fn listed_books() -> Seq<u64> {
    seq![68, 69, 75, 123, 79, 71, 2988, 78, 34, 1, 21, 16]
}

pub fn book_ids() -> (result: Vec<u64>)
    ensures
        result@ == listed_books(),
{
    let ids: Vec<u64> = vec![68, 69, 75, 123, 79, 71, 2988, 78, 34, 1, 21, 16];
    assert(ids@ =~= listed_books());
    ids
}

/// A mapped book: its name and its family.
pub open spec fn book_of(book_id: u64) -> Option<(Seq<char>, Family)> {
    if book_id == 68 {
        Some(("draftkings"@, Family::DraftKings))
    } else if book_id == 69 {
        Some(("fanduel"@, Family::FanDuel))
    } else if book_id == 75 {
        Some(("betmgm"@, Family::BetMgm))
    } else if book_id == 123 {
        Some(("caesars"@, Family::Caesars))
    } else if book_id == 79 {
        Some(("bet365"@, Family::Bet365))
    } else if book_id == 71 {
        Some(("betrivers"@, Family::Kambi))
    } else if book_id == 2988 {
        Some(("fanatics"@, Family::Fanatics))
    } else if book_id == 78 {
        Some(("circa"@, Family::Circa))
    } else if book_id == 34 {
        Some(("bookmaker"@, Family::Bookmaker))
    } else if book_id == 1 {
        Some(("betonline"@, Family::BetOnline))
    } else if book_id == 21 {
        Some(("bovada"@, Family::Bovada))
    } else if book_id == 16 {
        Some(("heritage"@, Family::Other("heritage"@)))
    } else {
        None
    }
}

pub fn book(book_id: u64) -> (result: Option<(&'static str, SourceFamily)>)
    ensures
        match result {
            Some((slug, family)) => book_of(book_id) == Some((slug@, family@)),
            None => book_of(book_id) is None,
        },
{
    match book_id {
        68 => Some(("draftkings", SourceFamily::DraftKings)),
        69 => Some(("fanduel", SourceFamily::FanDuel)),
        75 => Some(("betmgm", SourceFamily::BetMgm)),
        123 => Some(("caesars", SourceFamily::Caesars)),
        79 => Some(("bet365", SourceFamily::Bet365)),
        71 => Some(("betrivers", SourceFamily::Kambi)),
        2988 => Some(("fanatics", SourceFamily::Fanatics)),
        78 => Some(("circa", SourceFamily::Circa)),
        34 => Some(("bookmaker", SourceFamily::Bookmaker)),
        1 => Some(("betonline", SourceFamily::BetOnline)),
        21 => Some(("bovada", SourceFamily::Bovada)),
        16 => Some(("heritage", SourceFamily::Other(owned("heritage")))),
        _ => None,
    }
}

/// The families of the mapped books.
pub open spec fn mapped_families() -> Seq<Family> {
    kept(
        listed_books(),
        |id: u64|
            match book_of(id) {
                Some((_, family)) => Some(family),
                None => None,
            },
    )
}

/// The families of the mapped books.
pub fn families() -> (result: Vec<SourceFamily>)
    ensures
        family_views(result@) == mapped_families(),
{
    let ids = book_ids();
    let ghost f = |id: u64|
        match book_of(id) {
            Some((_, family)) => Some(family),
            None => None::<Family>,
        };
    let mut out: Vec<SourceFamily> = Vec::new();
    let mut i: usize = 0;
    while i < ids.len()
        invariant
            i <= ids@.len(),
            f == (|id: u64|
                match book_of(id) {
                    Some((_, family)) => Some(family),
                    None => None::<Family>,
                }),
            family_views(out@) == kept(ids@.take(i as int), f),
        decreases ids@.len() - i,
    {
        proof {
            kept_next(ids@, f, i as int);
        }
        match book(ids[i]) {
            Some((_, family)) => {
                out.push(family);
            },
            None => {},
        }
        i = i + 1;
    }
    out
}

proof fn lemma_all_kept<A, B>(s: Seq<A>, f: spec_fn(A) -> Option<B>)
    requires
        forall|i: int| 0 <= i < s.len() ==> f(#[trigger] s[i]) is Some,
    ensures
        kept(s, f).len() == s.len(),
    decreases s.len(),
{
    if s.len() > 0 {
        assert(f(s[s.len() - 1]) is Some);
        assert(forall|i: int| 0 <= i < s.len() - 1 ==> s.drop_last()[i] == s[i]);
        lemma_all_kept(s.drop_last(), f);
    }
}

/// Every listed book is mapped, so the source has a family for each.
pub proof fn every_listed_book_is_mapped()
    ensures
        forall|i: int| 0 <= i < listed_books().len() ==> book_of(#[trigger] listed_books()[i]) is Some,
        mapped_families().len() == listed_books().len(),
{
    lemma_all_kept(
        listed_books(),
        |id: u64|
            match book_of(id) {
                Some((_, family)) => Some(family),
                None => None,
            },
    );
}

/// The first team, from place `from` on, with an identifier.
pub open spec fn team_with(teams: Seq<Team>, id: u64, from: int) -> Option<Team>
    decreases teams.len() - from,
{
    if from >= teams.len() {
        None
    } else if teams[from].id == id {
        Some(teams[from])
    } else {
        team_with(teams, id, from + 1)
    }
}

fn find_team(teams: &Vec<Team>, id: u64) -> (result: Option<usize>)
    ensures
        match result {
            Some(i) => i < teams@.len() && team_with(teams@, id, 0) == Some(teams@[i as int]),
            None => team_with(teams@, id, 0) is None,
        },
{
    let mut i: usize = 0;
    while i < teams.len()
        invariant
            i <= teams@.len(),
            team_with(teams@, id, 0) == team_with(teams@, id, i as int),
        decreases teams@.len() - i,
    {
        if teams[i].id == id {
            return Some(i);
        }
        i = i + 1;
    }
    None
}

pub open spec fn stamp_of(value: Seq<char>) -> Result<int, Failure> {
    match rfc3339(value) {
        Ok(instant) => Ok(instant),
        Err(message) => Err(
            Failure::InvalidData("Action Network timestamp "@ + value + ": "@ + message),
        ),
    }
}

pub fn parse_timestamp(value: &str) -> (result: Result<Timestamp, Error>)
    ensures
        match result {
            Ok(t) => stamp_of(value@) == Ok::<int, Failure>(t@),
            Err(e) => stamp_of(value@) == Err::<int, Failure>(e@),
        },
{
    match parse_rfc3339(value) {
        Ok(t) => Ok(t),
        Err(message) => Err(
            Error::InvalidData(
                concat4("Action Network timestamp ", value, ": ", message.as_str()),
            ),
        ),
    }
}

/// When a row's line last changed, if that can be read; now where it is not
/// said.
pub open spec fn inserted_at(row: OddsRow, fetched_at: int) -> Option<int> {
    match row.inserted {
        Some(text) => match rfc3339(text@) {
            Ok(instant) => Some(instant),
            Err(_) => None,
        },
        None => Some(fetched_at),
    }
}

/// A game that rows are read for.
pub struct Fixture {
    pub sport: Sport,
    pub id: u64,
    pub home: Team,
    pub away: Team,
    pub start_time: int,
    pub fetched_at: int,
}

/// The quote that a row gives: a full-game line of a mapped book with two
/// plausible prices, not too old.
pub open spec fn row_quote(game: Fixture, row: OddsRow) -> Option<Quote> {
    if row.kind@ != "game"@ {
        None
    } else {
        match (
            book_of(row.book_id),
            row.ml_home,
            row.ml_away,
            inserted_at(row, game.fetched_at),
        ) {
            (Some((slug, family)), Some(home), Some(away), Some(source_timestamp)) => if game.fetched_at
                - source_timestamp > MAX_LINE_AGE_NANOS {
                None
            } else {
                match two_way(home as int, away as int) {
                    Some((decimal_odds_a, decimal_odds_b)) => Some(
                        Quote {
                            source_id: "action_network:"@ + slug,
                            family,
                            sport: game.sport,
                            event_id: digits(game.id as nat),
                            participant_a: game.home.full_name@,
                            participant_b: game.away.full_name@,
                            participant_a_provider_ids: one_id(
                                "action_network"@,
                                digits(game.home.id as nat),
                            ),
                            participant_b_provider_ids: one_id(
                                "action_network"@,
                                digits(game.away.id as nat),
                            ),
                            start_time: game.start_time,
                            start_time_tolerance_minutes:
                                DEFAULT_START_TIME_TOLERANCE_MINUTES as int,
                            decimal_odds_a,
                            decimal_odds_b,
                            decimal_odds_neutral: None,
                            source_timestamp,
                            fetched_at: game.fetched_at,
                            parser_version: "action_network-v1"@,
                            validation_only: false,
                        },
                    ),
                    None => None,
                }
            },
            _ => None,
        }
    }
}

/// The quotes on a game, home side first, or what is wrong with it.
pub open spec fn game_quotes(sport: Sport, game: Game, fetched_at: int) -> Result<
    Seq<Quote>,
    Failure,
> {
    match (
        team_with(game.teams@, game.home_team_id, 0),
        team_with(game.teams@, game.away_team_id, 0),
    ) {
        (None, _) => Err(
            Failure::InvalidData("no home team "@ + digits(game.home_team_id as nat)),
        ),
        (_, None) => Err(
            Failure::InvalidData("no away team "@ + digits(game.away_team_id as nat)),
        ),
        (Some(home), Some(away)) => match stamp_of(game.start_time@) {
            Err(f) => Err(f),
            Ok(start_time) => {
                let fixture = Fixture { sport, id: game.id, home, away, start_time, fetched_at };
                Ok(kept(game.odds@, |row: OddsRow| row_quote(fixture, row)))
            },
        },
    }
}

fn read_row(
    sport: Sport,
    id: u64,
    home: &Team,
    away: &Team,
    start_time: Timestamp,
    fetched_at: Timestamp,
    row: &OddsRow,
) -> (result: Option<SourceQuote>)
    ensures
        some_quote(result) == row_quote(
            Fixture {
                sport,
                id,
                home: *home,
                away: *away,
                start_time: start_time@,
                fetched_at: fetched_at@,
            },
            *row,
        ),
{
    if !same(row.kind.as_str(), "game") {
        return None;
    }
    let (slug, family) = book(row.book_id)?;
    let home_line = row.ml_home?;
    let away_line = row.ml_away?;
    let source_timestamp = match &row.inserted {
        Some(text) => match parse_rfc3339(text.as_str()) {
            Ok(t) => t,
            Err(_) => {
                return None;
            },
        },
        None => fetched_at,
    };
    if fetched_at.nanos() - source_timestamp.nanos() > MAX_LINE_AGE_NANOS {
        return None;
    }
    let (decimal_odds_a, decimal_odds_b) = two_way_odds(home_line, away_line)?;
    Some(
        SourceQuote {
            source_id: concat2("action_network:", slug),
            family,
            sport,
            event_id: natural(id as u128),
            participant_a: owned(home.full_name.as_str()),
            participant_b: owned(away.full_name.as_str()),
            participant_a_provider_ids: single_id(
                "action_network",
                natural(home.id as u128).as_str(),
            ),
            participant_b_provider_ids: single_id(
                "action_network",
                natural(away.id as u128).as_str(),
            ),
            start_time,
            start_time_tolerance_minutes: DEFAULT_START_TIME_TOLERANCE_MINUTES,
            decimal_odds_a,
            decimal_odds_b,
            decimal_odds_neutral: None,
            source_timestamp,
            fetched_at,
            parser_version: owned("action_network-v1"),
            validation_only: false,
        },
    )
}

/// Reads the rows of one game.
pub fn normalize_game(sport: Sport, game: &Game, fetched_at: Timestamp) -> (result: Result<
    Vec<SourceQuote>,
    Error,
>)
    ensures
        quotes_result(result) == game_quotes(sport, *game, fetched_at@),
{
    let home = match find_team(&game.teams, game.home_team_id) {
        Some(i) => &game.teams[i],
        None => {
            let id = natural(game.home_team_id as u128);
            return Err(Error::InvalidData(concat2("no home team ", id.as_str())));
        },
    };
    let away = match find_team(&game.teams, game.away_team_id) {
        Some(i) => &game.teams[i],
        None => {
            let id = natural(game.away_team_id as u128);
            return Err(Error::InvalidData(concat2("no away team ", id.as_str())));
        },
    };
    let start_time = match parse_timestamp(game.start_time.as_str()) {
        Ok(t) => t,
        Err(e) => {
            return Err(e);
        },
    };
    let ghost fixture = Fixture {
        sport,
        id: game.id,
        home: *home,
        away: *away,
        start_time: start_time@,
        fetched_at: fetched_at@,
    };
    let ghost f = |row: OddsRow| row_quote(fixture, row);
    let mut out: Vec<SourceQuote> = Vec::new();
    let mut i: usize = 0;
    while i < game.odds.len()
        invariant
            i <= game.odds@.len(),
            fixture == (Fixture {
                sport,
                id: game.id,
                home: *home,
                away: *away,
                start_time: start_time@,
                fetched_at: fetched_at@,
            }),
            f == (|row: OddsRow| row_quote(fixture, row)),
            source_quote_views(out@) == kept(game.odds@.take(i as int), f),
        decreases game.odds@.len() - i,
    {
        proof {
            kept_next(game.odds@, f, i as int);
        }
        match read_row(sport, game.id, home, away, start_time, fetched_at, &game.odds[i]) {
            Some(quote) => {
                out.push(quote);
            },
            None => {},
        }
        i = i + 1;
    }
    Ok(out)
}

/// The quotes on the scheduled games, one game after the other; a game that
/// cannot be read is left out.
pub open spec fn all_quotes(sport: Sport, games: Seq<Game>, fetched_at: int) -> Seq<Quote>
    decreases games.len(),
{
    if games.len() == 0 {
        seq![]
    } else {
        let front = all_quotes(sport, games.drop_last(), fetched_at);
        if games.last().status@ != "scheduled"@ {
            front
        } else {
            match game_quotes(sport, games.last(), fetched_at) {
                Ok(quotes) => front + quotes,
                Err(_) => front,
            }
        }
    }
}

/// Pregame full-game moneylines from every mapped book, home as the first
/// participant. `fetched_at` is also what the age of a line is judged by.
pub fn normalize_games(sport: Sport, games: &Vec<Game>, fetched_at: Timestamp) -> (result: Vec<
    SourceQuote,
>)
    ensures
        source_quote_views(result@) == all_quotes(sport, games@, fetched_at@),
{
    let mut out: Vec<SourceQuote> = Vec::new();
    let mut i: usize = 0;
    while i < games.len()
        invariant
            i <= games@.len(),
            source_quote_views(out@) == all_quotes(sport, games@.take(i as int), fetched_at@),
        decreases games@.len() - i,
    {
        proof {
            take_next(games@, i as int);
        }
        if same(games[i].status.as_str(), "scheduled") {
            match normalize_game(sport, &games[i], fetched_at) {
                Ok(quotes) => {
                    crate::sources::append_quotes(&mut out, quotes);
                },
                Err(_) => {},
            }
        }
        i = i + 1;
    }
    out
}

} // verus!
