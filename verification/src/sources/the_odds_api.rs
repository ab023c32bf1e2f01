//! The Odds API. Its free plan is far too small for a continuous feed, but one
//! call returns every major book for a sport, which is what the confirmation
//! pass needs after the continuous sources flag a candidate.

use vstd::prelude::*;

use crate::config::{parse_i64, parsed_i64};
use crate::decimal::{dec_of, Dec, Decimal};
use crate::domain::{
    odds_api_family, Quote, SourceFamily, SourceQuote, Sport,
    DEFAULT_START_TIME_TOLERANCE_MINUTES,
};
use crate::error::{invalid, Error, Failure};
use crate::seqs::{group_seqs, take_next};
use crate::sources::{no_ids, quote_result};
use crate::text::{
    concat2, concat3, concat4, concat6, int_text, integer, owned, same, same_any_case,
    same_ignoring_case, text_of,
};
use crate::time::{parse_rfc3339, rfc3339, Timestamp};

verus! {

broadcast use group_seqs;

#[derive(Debug)]
pub struct ApiSport {
    pub key: String,
    pub group: String,
    pub active: bool,
}

/// A price; `None` where the feed's number is not one that a decimal holds.
#[derive(Debug)]
pub struct ApiOutcome {
    pub name: String,
    pub price: Option<Decimal>,
}

#[derive(Debug)]
pub struct ApiMarket {
    pub key: String,
    pub last_update: Option<String>,
    pub outcomes: Vec<ApiOutcome>,
}

#[derive(Debug)]
pub struct ApiBookmaker {
    pub key: String,
    pub last_update: Option<String>,
    pub markets: Vec<ApiMarket>,
}

#[derive(Debug)]
pub struct ApiEvent {
    pub id: String,
    pub commence_time: String,
    pub home_team: String,
    pub away_team: String,
}

/// What the account has left, as far as the feed has said, and what is never
/// spent.
#[derive(Debug, Clone, Copy, PartialEq, Eq)]
pub struct CreditBudget {
    pub remaining: Option<i64>,
    pub minimum_remaining: i64,
}

/// What the account keeps unless told.
pub const DEFAULT_MINIMUM_REMAINING: i64 = 40;

impl CreditBudget {
    /// An account of which nothing is known yet.
    pub fn new(minimum_remaining: i64) -> (result: CreditBudget)
        ensures
            result.remaining is None,
            result.minimum_remaining == minimum_remaining,
    {
        CreditBudget { remaining: None, minimum_remaining }
    }

    /// Whether another request may be made: nothing is known, or enough is left.
    pub fn budget_allows(&self) -> (result: bool)
        ensures
            result == match self.remaining {
                Some(left) => left >= self.minimum_remaining,
                None => true,
            },
    {
        match self.remaining {
            Some(left) => left >= self.minimum_remaining,
            None => true,
        }
    }
}

/// The credits to keep, from the variable that says so, or what is wrong with it.
pub fn minimum_remaining(value: &Option<String>) -> (result: Result<i64, Error>)
    ensures
        match result {
            Ok(n) => match text_of(*value) {
                Some(text) => parsed_i64(text) == Ok::<int, Seq<char>>(n as int),
                None => n == DEFAULT_MINIMUM_REMAINING,
            },
            Err(e) => text_of(*value) matches Some(text) && parsed_i64(text) matches Err(message)
                && e@ == Failure::Config("THE_ODDS_API_MIN_REMAINING: "@ + message),
        },
{
    match value {
        Some(text) => match parse_i64(text.as_str()) {
            Ok(n) => Ok(n),
            Err(message) => Err(
                Error::Config(concat2("THE_ODDS_API_MIN_REMAINING: ", message.as_str())),
            ),
        },
        None => Ok(DEFAULT_MINIMUM_REMAINING),
    }
}

/// A probe's message with the credits that are left.
pub fn probe_message(message: &str, remaining: Option<i64>) -> (result: String)
    ensures
        result@ == match remaining {
            Some(left) => message@ + " ("@ + int_text(left as int) + " credits remaining)"@,
            None => message@,
        },
{
    match remaining {
        Some(left) => concat4(
            message,
            " (",
            integer(left as i128).as_str(),
            " credits remaining)",
        ),
        None => owned(message),
    }
}

/// The key of a team sport.
pub open spec fn team_key(sport: Sport) -> Option<Seq<char>> {
    match sport {
        Sport::Nfl => Some("americanfootball_nfl"@),
        Sport::Nba => Some("basketball_nba"@),
        Sport::Wnba => Some("basketball_wnba"@),
        Sport::Mlb => Some("baseball_mlb"@),
        Sport::Tennis => None,
    }
}

/// The keys of some sports, in their order.
pub open spec fn team_keys(sports: Seq<Sport>) -> Seq<(Seq<char>, Sport)>
    decreases sports.len(),
{
    if sports.len() == 0 {
        seq![]
    } else {
        match team_key(sports.last()) {
            Some(key) => team_keys(sports.drop_last()).push((key, sports.last())),
            None => team_keys(sports.drop_last()),
        }
    }
}

/// Whether the index of tournaments is asked for: where tennis is among the
/// sports and is to be had.
pub fn asks_for_tennis(wanted: bool, sports: &Vec<Sport>) -> (result: bool)
    ensures
        result == (wanted && sports@.contains(Sport::Tennis)),
{
    let mut i: usize = 0;
    while i < sports.len()
        invariant
            i <= sports@.len(),
            forall|j: int| 0 <= j < i ==> sports@[j] != Sport::Tennis,
        decreases sports@.len() - i,
    {
        if sports[i] == Sport::Tennis {
            return wanted;
        }
        i = i + 1;
    }
    false
}

/// The keys of the active tennis tournaments.
pub open spec fn tennis_keys(listed: Seq<ApiSport>) -> Seq<(Seq<char>, Sport)>
    decreases listed.len(),
{
    if listed.len() == 0 {
        seq![]
    } else {
        let last = listed.last();
        let front = tennis_keys(listed.drop_last());
        if last.active && same_ignoring_case(last.group@, "tennis"@) {
            front.push((last.key@, Sport::Tennis))
        } else {
            front
        }
    }
}

pub open spec fn key_views(items: Seq<(String, Sport)>) -> Seq<(Seq<char>, Sport)> {
    items.map_values(|item: (String, Sport)| (item.0@, item.1))
}

/// The keys to ask for: those of the team sports, then those of the tennis
/// tournaments in `listed`.
pub fn sport_keys(sports: &Vec<Sport>, listed: &Vec<ApiSport>) -> (result: Vec<(String, Sport)>)
    ensures
        key_views(result@) == team_keys(sports@) + tennis_keys(listed@),
{
    let mut out: Vec<(String, Sport)> = Vec::new();
    let mut i: usize = 0;
    while i < sports.len()
        invariant
            i <= sports@.len(),
            key_views(out@) == team_keys(sports@.take(i as int)),
        decreases sports@.len() - i,
    {
        proof {
            take_next(sports@, i as int);
        }
        let sport = sports[i];
        match sport {
            Sport::Nfl => {
                out.push((owned("americanfootball_nfl"), sport));
            },
            Sport::Nba => {
                out.push((owned("basketball_nba"), sport));
            },
            Sport::Wnba => {
                out.push((owned("basketball_wnba"), sport));
            },
            Sport::Mlb => {
                out.push((owned("baseball_mlb"), sport));
            },
            Sport::Tennis => {},
        }
        i = i + 1;
    }
    let ghost head = key_views(out@);
    let mut k: usize = 0;
    assert(head + tennis_keys(listed@.take(0)) =~= head);
    while k < listed.len()
        invariant
            k <= listed@.len(),
            key_views(out@) == head + tennis_keys(listed@.take(k as int)),
        decreases listed@.len() - k,
    {
        proof {
            take_next(listed@, k as int);
        }
        if listed[k].active && same_any_case(listed[k].group.as_str(), "tennis") {
            proof {
                let front = tennis_keys(listed@.take(k as int));
                let item = (listed@[k as int].key@, Sport::Tennis);
                assert(head + front.push(item) =~= (head + front).push(item));
            }
            out.push((owned(listed[k].key.as_str()), Sport::Tennis));
        }
        k = k + 1;
    }
    out
}

/// Where the odds under a key are.
pub fn odds_url(base: &str, key: &str, api_key: &str, regions: &str) -> (result: String)
    ensures
        result@ == base@ + "/v4/sports/"@ + key@ + "/odds?apiKey="@ + api_key@ + "&regions="@
            + regions@ + "&markets=h2h&oddsFormat=decimal&dateFormat=iso"@,
{
    let front = concat6(base, "/v4/sports/", key, "/odds?apiKey=", api_key, "&regions=");
    concat3(front.as_str(), regions, "&markets=h2h&oddsFormat=decimal&dateFormat=iso")
}

/// The first head-to-head market, from place `from` on.
pub open spec fn head_to_head(markets: Seq<ApiMarket>, from: int) -> Option<ApiMarket>
    decreases markets.len() - from,
{
    if from >= markets.len() {
        None
    } else if markets[from].key@ == "h2h"@ {
        Some(markets[from])
    } else {
        head_to_head(markets, from + 1)
    }
}

/// The first outcome, from place `from` on, with a name.
pub open spec fn outcome_named(outcomes: Seq<ApiOutcome>, name: Seq<char>, from: int) -> Option<
    ApiOutcome,
>
    decreases outcomes.len() - from,
{
    if from >= outcomes.len() {
        None
    } else if outcomes[from].name@ == name {
        Some(outcomes[from])
    } else {
        outcome_named(outcomes, name, from + 1)
    }
}

pub open spec fn is_neutral(name: Seq<char>) -> bool {
    same_ignoring_case(name, "draw"@) || same_ignoring_case(name, "tie"@)
}

/// The first draw, from place `from` on.
pub open spec fn neutral_outcome(outcomes: Seq<ApiOutcome>, from: int) -> Option<ApiOutcome>
    decreases outcomes.len() - from,
{
    if from >= outcomes.len() {
        None
    } else if is_neutral(outcomes[from].name@) {
        Some(outcomes[from])
    } else {
        neutral_outcome(outcomes, from + 1)
    }
}

/// The odds of a draw, where one is offered.
pub open spec fn neutral_odds(outcomes: Seq<ApiOutcome>) -> Result<Option<Dec>, Failure> {
    match neutral_outcome(outcomes, 0) {
        Some(outcome) => match dec_of(outcome.price) {
            Some(price) => Ok(Some(price)),
            None => Err(Failure::InvalidData("neutral odds are not finite"@)),
        },
        None => Ok(None),
    }
}

/// When the line last moved: what the market says, else the bookmaker, else
/// now.
pub open spec fn moved_at(market: ApiMarket, bookmaker: ApiBookmaker, now: int) -> Result<
    int,
    Failure,
> {
    let text = match text_of(market.last_update) {
        Some(text) => Some(text),
        None => text_of(bookmaker.last_update),
    };
    match text {
        Some(text) => match rfc3339(text) {
            Ok(instant) => Ok(instant),
            Err(message) => Err(Failure::InvalidData("bookmaker timestamp: "@ + message)),
        },
        None => Ok(now),
    }
}

/// The quote that a bookmaker gives on an event, home side first: none without
/// a head-to-head market on both teams, or what is wrong with it.
pub open spec fn bookmaker_quote(
    sport: Sport,
    event: ApiEvent,
    bookmaker: ApiBookmaker,
    fetched_at: int,
) -> Result<Option<Quote>, Failure> {
    match head_to_head(bookmaker.markets@, 0) {
        None => Ok(None),
        Some(market) => match (
            outcome_named(market.outcomes@, event.home_team@, 0),
            outcome_named(market.outcomes@, event.away_team@, 0),
        ) {
            (Some(a), Some(b)) => match neutral_odds(market.outcomes@) {
                Err(f) => Err(f),
                Ok(decimal_odds_neutral) => match moved_at(market, bookmaker, fetched_at) {
                    Err(f) => Err(f),
                    Ok(source_timestamp) => match rfc3339(event.commence_time@) {
                        Err(message) => Err(
                            Failure::InvalidData("commence time: "@ + message),
                        ),
                        Ok(start_time) => match (dec_of(a.price), dec_of(b.price)) {
                            (None, _) => Err(Failure::InvalidData("home odds are not finite"@)),
                            (_, None) => Err(Failure::InvalidData("away odds are not finite"@)),
                            (Some(decimal_odds_a), Some(decimal_odds_b)) => Ok(
                                Some(
                                    Quote {
                                        source_id: "the_odds_api:"@ + bookmaker.key@,
                                        family: odds_api_family(bookmaker.key@),
                                        sport,
                                        event_id: event.id@,
                                        participant_a: event.home_team@,
                                        participant_b: event.away_team@,
                                        participant_a_provider_ids: Map::empty(),
                                        participant_b_provider_ids: Map::empty(),
                                        start_time,
                                        start_time_tolerance_minutes:
                                            DEFAULT_START_TIME_TOLERANCE_MINUTES as int,
                                        decimal_odds_a,
                                        decimal_odds_b,
                                        decimal_odds_neutral,
                                        source_timestamp,
                                        fetched_at,
                                        parser_version: "the-odds-api-v4"@,
                                        validation_only: false,
                                    },
                                ),
                            ),
                        },
                    },
                },
            },
            _ => Ok(None),
        },
    }
}

fn find_market(markets: &Vec<ApiMarket>) -> (result: Option<usize>)
    ensures
        match result {
            Some(i) => i < markets@.len() && head_to_head(markets@, 0) == Some(
                markets@[i as int],
            ),
            None => head_to_head(markets@, 0) is None,
        },
{
    let mut i: usize = 0;
    while i < markets.len()
        invariant
            i <= markets@.len(),
            head_to_head(markets@, 0) == head_to_head(markets@, i as int),
        decreases markets@.len() - i,
    {
        if same(markets[i].key.as_str(), "h2h") {
            return Some(i);
        }
        i = i + 1;
    }
    None
}

fn find_outcome(outcomes: &Vec<ApiOutcome>, name: &str) -> (result: Option<usize>)
    ensures
        match result {
            Some(i) => i < outcomes@.len() && outcome_named(outcomes@, name@, 0) == Some(
                outcomes@[i as int],
            ),
            None => outcome_named(outcomes@, name@, 0) is None,
        },
{
    let mut i: usize = 0;
    while i < outcomes.len()
        invariant
            i <= outcomes@.len(),
            outcome_named(outcomes@, name@, 0) == outcome_named(outcomes@, name@, i as int),
        decreases outcomes@.len() - i,
    {
        if same(outcomes[i].name.as_str(), name) {
            return Some(i);
        }
        i = i + 1;
    }
    None
}

fn find_neutral(outcomes: &Vec<ApiOutcome>) -> (result: Option<usize>)
    ensures
        match result {
            Some(i) => i < outcomes@.len() && neutral_outcome(outcomes@, 0) == Some(
                outcomes@[i as int],
            ),
            None => neutral_outcome(outcomes@, 0) is None,
        },
{
    let mut i: usize = 0;
    while i < outcomes.len()
        invariant
            i <= outcomes@.len(),
            neutral_outcome(outcomes@, 0) == neutral_outcome(outcomes@, i as int),
        decreases outcomes@.len() - i,
    {
        if same_any_case(outcomes[i].name.as_str(), "draw") || same_any_case(
            outcomes[i].name.as_str(),
            "tie",
        ) {
            return Some(i);
        }
        i = i + 1;
    }
    None
}

/// Reads what one bookmaker offers on an event.
pub fn normalize_event(
    sport: Sport,
    event: &ApiEvent,
    bookmaker: &ApiBookmaker,
    fetched_at: Timestamp,
) -> (result: Result<Option<SourceQuote>, Error>)
    ensures
        quote_result(result) == bookmaker_quote(sport, *event, *bookmaker, fetched_at@),
{
    let market = match find_market(&bookmaker.markets) {
        Some(i) => &bookmaker.markets[i],
        None => {
            return Ok(None);
        },
    };
    let (a, b) = match (
        find_outcome(&market.outcomes, event.home_team.as_str()),
        find_outcome(&market.outcomes, event.away_team.as_str()),
    ) {
        (Some(a), Some(b)) => (a, b),
        _ => {
            return Ok(None);
        },
    };
    let decimal_odds_neutral = match find_neutral(&market.outcomes) {
        Some(i) => match market.outcomes[i].price {
            Some(price) => Some(price),
            None => {
                return Err(invalid("neutral odds are not finite"));
            },
        },
        None => None,
    };
    let update = match &market.last_update {
        Some(text) => Some(text),
        None => match &bookmaker.last_update {
            Some(text) => Some(text),
            None => None,
        },
    };
    let source_timestamp = match update {
        Some(text) => match parse_rfc3339(text.as_str()) {
            Ok(t) => t,
            Err(message) => {
                return Err(
                    Error::InvalidData(concat2("bookmaker timestamp: ", message.as_str())),
                );
            },
        },
        None => fetched_at,
    };
    let start_time = match parse_rfc3339(event.commence_time.as_str()) {
        Ok(t) => t,
        Err(message) => {
            return Err(Error::InvalidData(concat2("commence time: ", message.as_str())));
        },
    };
    let decimal_odds_a = match market.outcomes[a].price {
        Some(price) => price,
        None => {
            return Err(invalid("home odds are not finite"));
        },
    };
    let decimal_odds_b = match market.outcomes[b].price {
        Some(price) => price,
        None => {
            return Err(invalid("away odds are not finite"));
        },
    };
    Ok(
        Some(
            SourceQuote {
                source_id: concat2("the_odds_api:", bookmaker.key.as_str()),
                family: SourceFamily::from_odds_api_key(bookmaker.key.as_str()),
                sport,
                event_id: owned(event.id.as_str()),
                participant_a: owned(event.home_team.as_str()),
                participant_b: owned(event.away_team.as_str()),
                participant_a_provider_ids: no_ids(),
                participant_b_provider_ids: no_ids(),
                start_time,
                start_time_tolerance_minutes: DEFAULT_START_TIME_TOLERANCE_MINUTES,
                decimal_odds_a,
                decimal_odds_b,
                decimal_odds_neutral,
                source_timestamp,
                fetched_at,
                parser_version: owned("the-odds-api-v4"),
                validation_only: false,
            },
        ),
    )
}

} // verus!
