//! Polymarket's global order book, from its public Gamma API. A freshly listed
//! market carries liquidity seeded near even before anyone has traded it, so a
//! price counts only once the market has both liquidity and volume.

use vstd::prelude::*;
use vstd::utf8::encode_utf8;

use crate::config::{parse_i64, parsed_i64};
use crate::decimal::{
    dec, dec_of, difference, exact_decimal_text, one, parse_exact, quotient, rounded, zero, Dec,
    Decimal,
};
use crate::domain::{
    Family, Quote, SourceFamily, SourceQuote, Sport, DEFAULT_START_TIME_TOLERANCE_MINUTES,
};
use crate::error::{Error, Failure};
use crate::seqs::group_seqs;
use crate::sources::{no_ids, one_id, single_id, some_quote};
use crate::text::{
    chars, concat5, from_range, has_prefix, owned, quote, quoted, same, same_any_case,
    same_ignoring_case, strip_prefix, text_of, texts, trim, trimmed,
};
use crate::textmap::TextMap;
use crate::time::{
    instant_of, naive_instant, parse_naive, parse_rfc3339, rfc3339, Timestamp, INSTANT_LIMIT,
    NANOS_PER_SECOND,
};

verus! {

broadcast use group_seqs;

/// Floors that a market must clear before its price enters a consensus.
#[derive(Debug, Clone, Copy)]
pub struct MarketFloors {
    pub min_liquidity: Decimal,
    pub min_volume: Decimal,
}

impl Default for MarketFloors {
    fn default() -> (result: MarketFloors)
        ensures
            result.min_liquidity@ == dec(2000, 0),
            result.min_volume@ == dec(250, 0),
    {
        MarketFloors { min_liquidity: Decimal::new(2000, 0), min_volume: Decimal::new(250, 0) }
    }
}

/// A number from a variable, or what is wrong with it.
pub open spec fn floor_var(
    vars: Map<Seq<char>, Seq<char>>,
    name: Seq<char>,
    default: Dec,
) -> Result<Dec, Failure> {
    if vars.contains_key(name) {
        match exact_decimal_text(trimmed(vars[name])) {
            Ok((m, s)) => Ok(dec(m, s)),
            Err(message) => Err(
                Failure::Config(name + " "@ + quoted(vars[name]) + ": "@ + message),
            ),
        }
    } else {
        Ok(default)
    }
}

fn decimal_env(vars: &TextMap<String>, name: &str, default: Decimal) -> (result: Result<
    Decimal,
    Error,
>)
    ensures
        crate::polymarket::number_result(result) == floor_var(vars.deep(), name@, default@),
{
    match vars.get(name) {
        Some(text) => match parse_exact(trim(text.as_str()).as_str()) {
            Ok(d) => Ok(d),
            Err(message) => Err(
                Error::Config(
                    concat5(name, " ", quote(text.as_str()).as_str(), ": ", message.as_str()),
                ),
            ),
        },
        None => Ok(default),
    }
}

impl MarketFloors {
    /// The floors that the variables ask for.
    pub fn from_env(vars: &TextMap<String>) -> (result: Result<MarketFloors, Error>)
        ensures
            ({
                let liquidity = floor_var(
                    vars.deep(),
                    "POLYMARKET_GLOBAL_MIN_LIQUIDITY"@,
                    dec(2000, 0),
                );
                let volume = floor_var(
                    vars.deep(),
                    "POLYMARKET_GLOBAL_MIN_VOLUME"@,
                    dec(250, 0),
                );
                match result {
                    Ok(floors) => liquidity == Ok::<Dec, Failure>(floors.min_liquidity@) && volume
                        == Ok::<Dec, Failure>(floors.min_volume@),
                    Err(e) => liquidity == Err::<Dec, Failure>(e@) || (liquidity is Ok && volume
                        == Err::<Dec, Failure>(e@)),
                }
            }),
    {
        let standard = MarketFloors::default();
        let min_liquidity = match decimal_env(
            vars,
            "POLYMARKET_GLOBAL_MIN_LIQUIDITY",
            standard.min_liquidity,
        ) {
            Ok(d) => d,
            Err(e) => {
                return Err(e);
            },
        };
        match decimal_env(vars, "POLYMARKET_GLOBAL_MIN_VOLUME", standard.min_volume) {
            Ok(min_volume) => Ok(MarketFloors { min_liquidity, min_volume }),
            Err(e) => Err(e),
        }
    }
}

#[derive(Debug)]
pub struct GammaTeam {
    pub name: String,
    pub alias: Option<String>,
    pub abbreviation: Option<String>,
}

/// A market of the feed. A number is `None` where the feed gives none or one
/// that a decimal does not hold.
#[derive(Debug)]
pub struct GammaMarket {
    pub id: String,
    pub sports_market_type: Option<String>,
    pub game_start_time: Option<String>,
    /// JSON array of outcome names.
    pub outcomes: String,
    /// JSON array of token identifiers.
    pub clob_token_ids: Option<String>,
    pub best_bid: Option<Decimal>,
    pub best_ask: Option<Decimal>,
    pub liquidity: Option<Decimal>,
    pub volume: Option<Decimal>,
    pub accepting_orders: bool,
    pub active: bool,
    pub closed: bool,
    pub updated_at: Option<String>,
}

/// The tag of a sport.
pub fn tag_slug(sport: Sport) -> (result: &'static str)
    ensures
        result@ == sport.label(),
{
    sport.name()
}

/// Events on one page.
pub const PAGE_SIZE: usize = 100;

/// Most pages that are asked for.
pub const MAX_PAGES: usize = 5;

/// Whether another page follows one with so many events.
pub fn wants_next_page(page: usize, events: usize) -> (result: bool)
    ensures
        result == (events >= PAGE_SIZE && page + 1 < MAX_PAGES),
{
    events >= PAGE_SIZE && page < MAX_PAGES - 1
}

/// The texts of a JSON array of texts, if it is one.
pub uninterp spec fn json_texts(text: Seq<char>) -> Option<Seq<Seq<char>>>;

/// `serde_json::from_str` into a list of texts; nothing where it fails.
/// Claimed: the list is a function of the text.
#[verifier::external_body]
fn parse_json_texts(text: &str) -> (result: Option<Vec<String>>)
    ensures
        match result {
            Some(list) => json_texts(text@) == Some(texts(list@)),
            None => json_texts(text@) is None,
        },
{
    serde_json::from_str::<Vec<String>>(text).ok()
}

/// Two texts in a JSON array, if it holds just two.
pub open spec fn json_pair(text: Seq<char>) -> Option<(Seq<char>, Seq<char>)> {
    match json_texts(text) {
        Some(list) => if list.len() == 2 {
            Some((list[0], list[1]))
        } else {
            None
        },
        None => None,
    }
}

fn parse_pair(text: &str) -> (result: Option<(String, String)>)
    ensures
        match result {
            Some((a, b)) => json_pair(text@) == Some((a@, b@)),
            None => json_pair(text@) is None,
        },
{
    let list = parse_json_texts(text)?;
    let ghost named = texts(list@);
    if list.len() == 2 {
        assert(named[0] == list@[0]@ && named[1] == list@[1]@);
        Some((owned(list[0].as_str()), owned(list[1].as_str())))
    } else {
        None
    }
}

pub open spec fn answers_to(team: GammaTeam, outcome: Seq<char>) -> bool {
    ||| same_ignoring_case(team.name@, outcome)
    ||| text_of(team.alias) matches Some(alias) && same_ignoring_case(alias, outcome)
    ||| text_of(team.abbreviation) matches Some(short) && same_ignoring_case(short, outcome)
}

/// The full name behind an outcome, from the teams at place `from` on. Some
/// outcomes are short names; those of no team stay as they are.
pub open spec fn name_behind(outcome: Seq<char>, teams: Seq<GammaTeam>, from: int) -> Seq<char>
    decreases teams.len() - from,
{
    if from >= teams.len() {
        outcome
    } else if answers_to(teams[from], outcome) {
        teams[from].name@
    } else {
        name_behind(outcome, teams, from + 1)
    }
}

fn goes_by(name: &Option<String>, outcome: &str) -> (result: bool)
    ensures
        result == (text_of(*name) matches Some(n) && same_ignoring_case(n, outcome@)),
{
    match name {
        Some(n) => same_any_case(n.as_str(), outcome),
        None => false,
    }
}

/// The full name behind an outcome.
pub fn full_name(outcome: String, teams: &Vec<GammaTeam>) -> (result: String)
    ensures
        result@ == name_behind(outcome@, teams@, 0),
{
    let mut i: usize = 0;
    while i < teams.len()
        invariant
            i <= teams@.len(),
            name_behind(outcome@, teams@, 0) == name_behind(outcome@, teams@, i as int),
        decreases teams@.len() - i,
    {
        let team = &teams[i];
        if same_any_case(team.name.as_str(), outcome.as_str()) || goes_by(
            &team.alias,
            outcome.as_str(),
        ) || goes_by(&team.abbreviation, outcome.as_str()) {
            return owned(team.name.as_str());
        }
        i = i + 1;
    }
    outcome
}

/// The number of characters, from `from` on, at which a text is so many bytes
/// long.
pub open spec fn byte_place(text: Seq<char>, bytes: usize, from: int) -> Option<int>
    decreases text.len() - from,
{
    if from > text.len() {
        None
    } else if encode_utf8(text.take(from)).len() as usize == bytes {
        Some(from)
    } else if from == text.len() {
        None
    } else {
        byte_place(text, bytes, from + 1)
    }
}

/// A text cut after so many bytes, if a character ends there.
pub open spec fn byte_split(text: Seq<char>, bytes: usize) -> Option<(Seq<char>, Seq<char>)> {
    match byte_place(text, bytes, 0) {
        Some(k) => Some((text.take(k), text.skip(k))),
        None => None,
    }
}

fn split_bytes(text: &str, bytes: usize) -> (result: Option<(String, String)>)
    ensures
        match result {
            Some((a, b)) => byte_split(text@, bytes) == Some((a@, b@)),
            None => byte_split(text@, bytes) is None,
        },
{
    let all = chars(text);
    let count: usize = all.len();
    let mut k: usize = 0;
    loop
        invariant
            all@ == text@,
            count == all@.len(),
            k <= count,
            byte_place(text@, bytes, 0) == byte_place(text@, bytes, k as int),
        decreases count - k,
    {
        let front = from_range(&all, 0, k);
        assert(all@.subrange(0, k as int) =~= text@.take(k as int));
        if front.as_str().len() == bytes {
            let back = from_range(&all, k, count);
            assert(all@.subrange(k as int, count as int) =~= text@.skip(k as int));
            return Some((front, back));
        }
        if k == count {
            return None;
        }
        k = k + 1;
    }
}

/// A text without the characters of one kind that it starts with.
pub open spec fn without_leading(text: Seq<char>, drop: spec_fn(char) -> bool) -> Seq<char>
    decreases text.len(),
{
    if text.len() > 0 && drop(text[0]) {
        without_leading(text.skip(1), drop)
    } else {
        text
    }
}

pub open spec fn without_digits(text: Seq<char>) -> Seq<char> {
    without_leading(text, |c: char| crate::text::is_digit(c))
}

pub open spec fn without_colons(text: Seq<char>) -> Seq<char> {
    without_leading(text, |c: char| c == ':')
}

fn drop_digits(text: &str) -> (result: String)
    ensures
        result@ == without_digits(text@),
{
    let ghost f = |c: char| crate::text::is_digit(c);
    let all = chars(text);
    let mut i: usize = 0;
    assert(all@.skip(0) =~= all@);
    while i < all.len() && '0' <= all[i] && all[i] <= '9'
        invariant
            all@ == text@,
            i <= all@.len(),
            f == (|c: char| crate::text::is_digit(c)),
            without_leading(text@, f) == without_leading(all@.skip(i as int), f),
        decreases all@.len() - i,
    {
        assert(all@.skip(i as int)[0] == all@[i as int]);
        assert(all@.skip(i as int).skip(1) =~= all@.skip(i + 1));
        i = i + 1;
    }
    proof {
        if i < all@.len() {
            assert(all@.skip(i as int)[0] == all@[i as int]);
        }
        assert(all@.subrange(i as int, all@.len() as int) =~= all@.skip(i as int));
    }
    from_range(&all, i, all.len())
}

fn drop_colons(text: &str) -> (result: String)
    ensures
        result@ == without_colons(text@),
{
    let ghost f = |c: char| c == ':';
    let all = chars(text);
    let mut i: usize = 0;
    assert(all@.skip(0) =~= all@);
    while i < all.len() && all[i] == ':'
        invariant
            all@ == text@,
            i <= all@.len(),
            f == (|c: char| c == ':'),
            without_leading(text@, f) == without_leading(all@.skip(i as int), f),
        decreases all@.len() - i,
    {
        assert(all@.skip(i as int)[0] == all@[i as int]);
        assert(all@.skip(i as int).skip(1) =~= all@.skip(i + 1));
        i = i + 1;
    }
    proof {
        if i < all@.len() {
            assert(all@.skip(i as int)[0] == all@[i as int]);
        }
        assert(all@.subrange(i as int, all@.len() as int) =~= all@.skip(i as int));
    }
    from_range(&all, i, all.len())
}

/// A number that fits in 32 bits with a sign.
pub open spec fn small_integer(text: Seq<char>) -> Option<int> {
    match parsed_i64(text) {
        Ok(n) => if i32::MIN <= n <= i32::MAX {
            Some(n)
        } else {
            None
        },
        Err(_) => None,
    }
}

fn parse_small(text: &str) -> (result: Option<i64>)
    ensures
        match result {
            Some(n) => small_integer(text@) == Some(n as int) && i32::MIN <= n <= i32::MAX,
            None => small_integer(text@) is None,
        },
{
    match parse_i64(text) {
        Ok(n) => if -0x8000_0000 <= n && n <= 0x7fff_ffff {
            Some(n)
        } else {
            None
        },
        Err(_) => None,
    }
}

/// How far a clock is ahead of UTC in seconds: `+00`, `-05`, `+02:00`, `+0200`.
/// Less than a day.
pub open spec fn offset_seconds(text: Seq<char>) -> Option<int> {
    if text.len() == 0 || (text[0] != '+' && text[0] != '-') {
        None
    } else {
        match byte_split(text.skip(1), 2) {
            None => None,
            Some((front, tail)) => {
                let minutes = if tail.len() == 0 {
                    Some(0)
                } else {
                    small_integer(without_colons(tail))
                };
                match (small_integer(front), minutes) {
                    (Some(hours), Some(minutes)) => {
                        let seconds = hours * 3600 + minutes * 60;
                        if hours > 23 || minutes > 59 || seconds <= -86_400 || seconds >= 86_400 {
                            None
                        } else if text[0] == '+' {
                            Some(seconds)
                        } else {
                            Some(-seconds)
                        }
                    },
                    _ => None,
                }
            },
        }
    }
}

/// How far a clock is ahead of UTC in seconds.
pub fn parse_offset(raw: &str) -> (result: Option<i64>)
    ensures
        match result {
            Some(n) => offset_seconds(raw@) == Some(n as int) && -86_400 < n < 86_400,
            None => offset_seconds(raw@) is None,
        },
{
    let all = chars(raw);
    if all.len() == 0 || (all[0] != '+' && all[0] != '-') {
        return None;
    }
    let body = from_range(&all, 1, all.len());
    assert(all@.subrange(1, all@.len() as int) =~= raw@.skip(1));
    let (front, tail) = split_bytes(body.as_str(), 2)?;
    let hours: i64 = parse_small(front.as_str())?;
    let minutes: i64 = if tail.as_str().unicode_len() == 0 {
        0
    } else {
        parse_small(drop_colons(tail.as_str()).as_str())?
    };
    let seconds: i64 = hours * 3600 + minutes * 60;
    if hours > 23 || minutes > 59 || seconds <= -86_400 || seconds >= 86_400 {
        return None;
    }
    if all[0] == '+' {
        Some(seconds)
    } else {
        Some(-seconds)
    }
}

/// What follows the seconds, without a fraction of them.
pub open spec fn zone_text(rest: Seq<char>) -> Seq<char> {
    trimmed(
        if has_prefix(rest, "."@) {
            without_digits(rest.skip("."@.len() as int))
        } else {
            rest
        },
    )
}

/// How far ahead of UTC a zone is; none is UTC.
pub open spec fn zone_seconds(zone: Seq<char>) -> Option<int> {
    if zone == ""@ || zone == "Z"@ || zone == "z"@ {
        Some(0)
    } else {
        offset_seconds(zone)
    }
}

/// When a game starts: a full time stamp, or `2026-09-22 17:05:00+00` and its
/// like, without a zone in UTC.
pub open spec fn game_start(raw: Seq<char>) -> Option<int> {
    let text = trimmed(raw);
    match rfc3339(text) {
        Ok(instant) => Some(instant),
        Err(_) => match byte_split(text, 19) {
            None => None,
            Some((front, rest)) => match (
                naive_instant(front, "%Y-%m-%d %H:%M:%S"@),
                zone_seconds(zone_text(rest)),
            ) {
                (Some(local), Some(ahead)) => {
                    let instant = local - ahead * NANOS_PER_SECOND;
                    if -INSTANT_LIMIT <= instant <= INSTANT_LIMIT {
                        Some(instant)
                    } else {
                        None
                    }
                },
                _ => None,
            },
        },
    }
}

/// When a game starts.
pub fn parse_game_start_time(raw: &str) -> (result: Option<Timestamp>)
    ensures
        instant_of(result) == game_start(raw@),
{
    let text = trim(raw);
    match parse_rfc3339(text.as_str()) {
        Ok(t) => {
            return Some(t);
        },
        Err(_) => {},
    }
    let (front, rest) = split_bytes(text.as_str(), 19)?;
    let local = parse_naive(front.as_str(), "%Y-%m-%d %H:%M:%S")?;
    let bare = match strip_prefix(rest.as_str(), ".") {
        Some(fraction) => drop_digits(fraction.as_str()),
        None => rest,
    };
    let zone = trim(bare.as_str());
    let ahead: i64 = if same(zone.as_str(), "") || same(zone.as_str(), "Z") || same(
        zone.as_str(),
        "z",
    ) {
        0
    } else {
        parse_offset(zone.as_str())?
    };
    Timestamp::from_nanos(local.nanos() - ahead as i128 * NANOS_PER_SECOND)
}

/// A two-sided market: a bid above zero, a higher ask below one, and no more
/// than four cents between them, both to four places.
pub open spec fn two_sided(market: GammaMarket) -> Option<(Dec, Dec)> {
    match (dec_of(market.best_bid), dec_of(market.best_ask)) {
        (Some(bid), Some(ask)) => {
            let low = rounded(bid, 4);
            let high = rounded(ask, 4);
            match difference(high, low) {
                Some(spread) => if zero().lt(low) && low.lt(high) && high.lt(one()) && spread.le(
                    dec(4, 2),
                ) {
                    Some((low, high))
                } else {
                    None
                },
                None => None,
            }
        },
        _ => None,
    }
}

/// Enough liquidity and volume.
pub open spec fn tested(market: GammaMarket, floors: MarketFloors) -> bool {
    match (dec_of(market.liquidity), dec_of(market.volume)) {
        (Some(liquidity), Some(volume)) => floors.min_liquidity@.le(liquidity)
            && floors.min_volume@.le(volume),
        _ => false,
    }
}

/// A moneyline that can be traded.
pub open spec fn tradable(market: GammaMarket) -> bool {
    &&& text_of(market.sports_market_type) == Some("moneyline"@)
    &&& market.accepting_orders
    &&& market.active
    &&& !market.closed
}

/// The participants of a market, if its outcomes are two names.
pub open spec fn participants(market: GammaMarket, teams: Seq<GammaTeam>) -> Option<
    (Seq<char>, Seq<char>),
> {
    match json_pair(market.outcomes@) {
        Some((a, b)) => if same_ignoring_case(a, "yes"@) || same_ignoring_case(b, "no"@) {
            None
        } else {
            Some((name_behind(a, teams, 0), name_behind(b, teams, 0)))
        },
        None => None,
    }
}

/// The token identifiers of the two sides, if there are two. Without them the
/// matcher goes by names, rather than see both sides share one identifier.
pub open spec fn side_ids(market: GammaMarket) -> (Map<Seq<char>, Seq<char>>, Map<
    Seq<char>,
    Seq<char>,
>) {
    let pair = match text_of(market.clob_token_ids) {
        Some(text) => json_pair(text),
        None => None,
    };
    match pair {
        Some((a, b)) => (one_id("polymarket_global"@, a), one_id("polymarket_global"@, b)),
        None => (Map::empty(), Map::empty()),
    }
}

/// When a market last moved; now where it is not said.
pub open spec fn updated(market: GammaMarket, now: int) -> Option<int> {
    match text_of(market.updated_at) {
        Some(text) => match rfc3339(text) {
            Ok(instant) => Some(instant),
            Err(_) => None,
        },
        None => Some(now),
    }
}

/// The start of a market's game, if it can be read.
pub open spec fn market_start(market: GammaMarket) -> Option<int> {
    match text_of(market.game_start_time) {
        Some(text) => game_start(text),
        None => None,
    }
}

/// Odds to four places: at the ask for the first side, at what is left of a
/// dollar above the bid for the second.
pub open spec fn side_odds(bid: Dec, ask: Dec) -> Option<(Dec, Dec)> {
    match (quotient(one(), ask), difference(one(), bid)) {
        (Some(a), Some(left)) => match quotient(one(), left) {
            Some(b) => Some((rounded(a, 4), rounded(b, 4))),
            None => None,
        },
        _ => None,
    }
}

/// The quote that a market gives: none unless it is a tested, two-sided
/// moneyline that can be traded and read.
pub open spec fn market_quote(
    sport: Sport,
    teams: Seq<GammaTeam>,
    market: GammaMarket,
    floors: MarketFloors,
    fetched_at: int,
) -> Option<Quote> {
    if !tradable(market) || !tested(market, floors) {
        None
    } else {
        match (
            two_sided(market),
            participants(market, teams),
            market_start(market),
            updated(market, fetched_at),
        ) {
            (
                Some((bid, ask)),
                Some((participant_a, participant_b)),
                Some(start_time),
                Some(source_timestamp),
            ) => match side_odds(bid, ask) {
                Some((decimal_odds_a, decimal_odds_b)) => Some(
                    Quote {
                        source_id: "polymarket_global"@,
                        family: Family::PolymarketGlobal,
                        sport,
                        event_id: market.id@,
                        participant_a,
                        participant_b,
                        participant_a_provider_ids: side_ids(market).0,
                        participant_b_provider_ids: side_ids(market).1,
                        start_time,
                        start_time_tolerance_minutes: DEFAULT_START_TIME_TOLERANCE_MINUTES as int,
                        decimal_odds_a,
                        decimal_odds_b,
                        decimal_odds_neutral: None,
                        source_timestamp,
                        fetched_at,
                        parser_version: "gamma-moneyline-v1"@,
                        validation_only: false,
                    },
                ),
                None => None,
            },
            _ => None,
        }
    }
}

fn read_prices(market: &GammaMarket) -> (result: Option<(Decimal, Decimal)>)
    ensures
        crate::sources::odds_pair(result) == two_sided(*market),
{
    let bid = market.best_bid?.round_dp(4);
    let ask = market.best_ask?.round_dp(4);
    let spread = ask.checked_sub(bid)?;
    if Decimal::zero().less(bid) && bid.less(ask) && ask.less(Decimal::one()) && spread.at_most(
        Decimal::new(4, 2),
    ) {
        Some((bid, ask))
    } else {
        None
    }
}

fn read_participants(market: &GammaMarket, teams: &Vec<GammaTeam>) -> (result: Option<
    (String, String),
>)
    ensures
        match result {
            Some((a, b)) => participants(*market, teams@) == Some((a@, b@)),
            None => participants(*market, teams@) is None,
        },
{
    let (a, b) = parse_pair(market.outcomes.as_str())?;
    if same_any_case(a.as_str(), "yes") || same_any_case(b.as_str(), "no") {
        return None;
    }
    Some((full_name(a, teams), full_name(b, teams)))
}

fn provider_ids(market: &GammaMarket) -> (result: (TextMap<String>, TextMap<String>))
    ensures
        (result.0.deep(), result.1.deep()) == side_ids(*market),
{
    let pair = match &market.clob_token_ids {
        Some(text) => parse_pair(text.as_str()),
        None => None,
    };
    match pair {
        Some((a, b)) => (
            single_id("polymarket_global", a.as_str()),
            single_id("polymarket_global", b.as_str()),
        ),
        None => (no_ids(), no_ids()),
    }
}

fn read_odds(bid: Decimal, ask: Decimal) -> (result: Option<(Decimal, Decimal)>)
    ensures
        crate::sources::odds_pair(result) == side_odds(bid@, ask@),
{
    let a = Decimal::one().checked_div(ask)?;
    let left = Decimal::one().checked_sub(bid)?;
    let b = Decimal::one().checked_div(left)?;
    Some((a.round_dp(4), b.round_dp(4)))
}

/// Reads one market of the feed.
pub fn normalize_market(
    sport: Sport,
    teams: &Vec<GammaTeam>,
    market: &GammaMarket,
    floors: MarketFloors,
    fetched_at: Timestamp,
) -> (result: Option<SourceQuote>)
    ensures
        some_quote(result) == market_quote(sport, teams@, *market, floors, fetched_at@),
{
    let moneyline = match &market.sports_market_type {
        Some(kind) => same(kind.as_str(), "moneyline"),
        None => false,
    };
    if !moneyline || !market.accepting_orders || !market.active || market.closed {
        return None;
    }
    let liquidity = market.liquidity?;
    let volume = market.volume?;
    if liquidity.less(floors.min_liquidity) || volume.less(floors.min_volume) {
        return None;
    }
    let (bid, ask) = read_prices(market)?;
    let (participant_a, participant_b) = read_participants(market, teams)?;
    let start_time = match &market.game_start_time {
        Some(text) => parse_game_start_time(text.as_str())?,
        None => {
            return None;
        },
    };
    let source_timestamp = match &market.updated_at {
        Some(text) => match parse_rfc3339(text.as_str()) {
            Ok(t) => t,
            Err(_) => {
                return None;
            },
        },
        None => fetched_at,
    };
    let (decimal_odds_a, decimal_odds_b) = read_odds(bid, ask)?;
    let (participant_a_provider_ids, participant_b_provider_ids) = provider_ids(market);
    Some(
        SourceQuote {
            source_id: owned("polymarket_global"),
            family: SourceFamily::PolymarketGlobal,
            sport,
            event_id: owned(market.id.as_str()),
            participant_a,
            participant_b,
            participant_a_provider_ids,
            participant_b_provider_ids,
            start_time,
            start_time_tolerance_minutes: DEFAULT_START_TIME_TOLERANCE_MINUTES,
            decimal_odds_a,
            decimal_odds_b,
            decimal_odds_neutral: None,
            source_timestamp,
            fetched_at,
            parser_version: owned("gamma-moneyline-v1"),
            validation_only: false,
        },
    )
}

} // verus!
