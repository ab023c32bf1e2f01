//! The public gateway of Polymarket US: what its answers mean, how requests are
//! addressed and paced, and which markets are exact pregame moneylines.

use vstd::prelude::*;

use crate::decimal::{
    exact_decimal_text, parse_exact, rounded, Dec, Decimal,
};
use crate::domain::{
    book_level_views, us_moneyline_market_views, Book, BookLevel, Level, Market, MarketBook,
    MarketParticipant, Participant, Sport, UsMoneylineMarket,
};
use crate::error::{Error, Failure};
use crate::seqs::{
    group_seqs, in_order, is_order, lemma_sorted_map, lemma_sorted_order, ranking, sorted,
    stable_sort, take_next, Precedence,
};
use crate::text::{
    blank, chars, concat2, concat3, concat4, concat6, contains, contains_text, copy_text, digits,
    from_range, int_text, integer, is_ascii_alnum, is_blank, lowercase, natural, owned, same, text_of, lowered,
};
use crate::textmap::TextMap;
use crate::time::{
    calendar_reaches, in_calendar, parse_rfc3339, rfc3339, Timestamp, EPOCH_DAY, INSTANT_LIMIT,
    NANOS_PER_SECOND,
};

verus! {

broadcast use group_seqs;

/// A number as the gateway writes it: as a text, as a number in its own
/// spelling, or as something else.
#[derive(Debug)]
pub enum RawAmount {
    Text(String),
    Number(String),
    Other,
}

/// What a number of the gateway is worth, or what is wrong with it.
pub open spec fn amount(value: RawAmount, field: Seq<char>) -> Result<Dec, Failure> {
    match value {
        RawAmount::Text(text) => exact_number(text@, field),
        RawAmount::Number(text) => exact_number(text@, field),
        RawAmount::Other => Err(Failure::InvalidData(field + " is not numeric"@)),
    }
}

pub open spec fn exact_number(text: Seq<char>, field: Seq<char>) -> Result<Dec, Failure> {
    match exact_decimal_text(text) {
        Ok((m, s)) => Ok(crate::decimal::dec(m, s)),
        Err(message) => Err(Failure::InvalidData(field + ": "@ + message)),
    }
}

pub open spec fn number_result(r: Result<Decimal, Error>) -> Result<Dec, Failure> {
    match r {
        Ok(d) => Ok(d@),
        Err(e) => Err(e@),
    }
}

pub fn parse_number(text: &str, field: &str) -> (result: Result<Decimal, Error>)
    ensures
        number_result(result) == exact_number(text@, field@),
{
    match parse_exact(text) {
        Ok(d) => Ok(d),
        Err(message) => Err(Error::InvalidData(concat3(field, ": ", message.as_str()))),
    }
}

pub fn decimal_from_value(value: &RawAmount, field: &str) -> (result: Result<Decimal, Error>)
    ensures
        number_result(result) == amount(*value, field@),
{
    match value {
        RawAmount::Text(text) => parse_number(text.as_str(), field),
        RawAmount::Number(text) => parse_number(text.as_str(), field),
        RawAmount::Other => Err(Error::InvalidData(concat2(field, " is not numeric"))),
    }
}

/// What a time stamp of the gateway says, or what is wrong with it.
pub open spec fn stamp(text: Seq<char>, field: Seq<char>) -> Result<int, Failure> {
    match rfc3339(text) {
        Ok(instant) => Ok(instant),
        Err(message) => Err(Failure::InvalidData(field + ": "@ + message)),
    }
}

pub open spec fn instant_result(r: Result<Timestamp, Error>) -> Result<int, Failure> {
    match r {
        Ok(t) => Ok(t@),
        Err(e) => Err(e@),
    }
}

pub fn parse_datetime(value: &str, field: &str) -> (result: Result<Timestamp, Error>)
    ensures
        instant_result(result) == stamp(value@, field@),
{
    match parse_rfc3339(value) {
        Ok(t) => Ok(t),
        Err(message) => Err(Error::InvalidData(concat3(field, ": ", message.as_str()))),
    }
}

#[derive(Debug)]
pub struct RawBookLevel {
    pub price: RawAmount,
    pub quantity: String,
}

#[derive(Debug)]
pub struct RawMarketData {
    pub market_slug: String,
    pub bids: Vec<RawBookLevel>,
    pub offers: Vec<RawBookLevel>,
    pub state: String,
    pub transact_time: String,
}

/// What a level is worth, or what is wrong with it; the price is looked at
/// first.
pub open spec fn level_of(raw: RawBookLevel) -> Result<Level, Failure> {
    match amount(raw.price, "book price"@) {
        Err(f) => Err(f),
        Ok(yes_price) => match exact_number(raw.quantity@, "book quantity"@) {
            Err(f) => Err(f),
            Ok(quantity) => Ok(Level { yes_price, quantity }),
        },
    }
}

/// All the levels, or what is wrong with the first that is.
pub open spec fn levels_of(raw: Seq<RawBookLevel>) -> Result<Seq<Level>, Failure>
    decreases raw.len(),
{
    if raw.len() == 0 {
        Ok(seq![])
    } else {
        match levels_of(raw.drop_last()) {
            Err(f) => Err(f),
            Ok(front) => match level_of(raw.last()) {
                Err(f) => Err(f),
                Ok(level) => Ok(front.push(level)),
            },
        }
    }
}

/// The highest price first.
pub open spec fn dearest_first() -> spec_fn(Level, Level) -> bool {
    |a: Level, b: Level| b.yes_price.lt(a.yes_price)
}

/// The lowest price first.
pub open spec fn cheapest_first() -> spec_fn(Level, Level) -> bool {
    |a: Level, b: Level| a.yes_price.lt(b.yes_price)
}

/// The book in the order it can be executed, or what is wrong with it.
pub open spec fn book_from(raw: RawMarketData, fetched_at: int) -> Result<Book, Failure> {
    match levels_of(raw.bids@) {
        Err(f) => Err(f),
        Ok(bids) => match levels_of(raw.offers@) {
            Err(f) => Err(f),
            Ok(offers) => match stamp(raw.transact_time@, "book transactTime"@) {
                Err(f) => Err(f),
                Ok(transact_time) => Ok(
                    Book {
                        market_slug: raw.market_slug@,
                        bids: sorted(bids, dearest_first()),
                        offers: sorted(offers, cheapest_first()),
                        state: raw.state@,
                        transact_time,
                        fetched_at,
                    },
                ),
            },
        },
    }
}

struct DearestFirst;

impl Precedence<BookLevel> for DearestFirst {
    closed spec fn precedes(&self, a: BookLevel, b: BookLevel) -> bool {
        b@.yes_price.lt(a@.yes_price)
    }

    fn first(&self, a: &BookLevel, b: &BookLevel) -> (result: bool) {
        b.yes_price.less(a.yes_price)
    }
}

struct CheapestFirst;

impl Precedence<BookLevel> for CheapestFirst {
    closed spec fn precedes(&self, a: BookLevel, b: BookLevel) -> bool {
        a@.yes_price.lt(b@.yes_price)
    }

    fn first(&self, a: &BookLevel, b: &BookLevel) -> (result: bool) {
        a.yes_price.less(b.yes_price)
    }
}

spec fn level_result(r: Result<BookLevel, Error>) -> Result<Level, Failure> {
    match r {
        Ok(level) => Ok(level@),
        Err(e) => Err(e@),
    }
}

fn normalize_level(raw: &RawBookLevel) -> (result: Result<BookLevel, Error>)
    ensures
        level_result(result) == level_of(*raw),
{
    let yes_price = match decimal_from_value(&raw.price, "book price") {
        Ok(d) => d,
        Err(e) => {
            return Err(e);
        },
    };
    match parse_number(raw.quantity.as_str(), "book quantity") {
        Ok(quantity) => Ok(BookLevel { yes_price, quantity }),
        Err(e) => Err(e),
    }
}

proof fn lemma_levels_stay_wrong(raw: Seq<RawBookLevel>, at: int)
    requires
        0 <= at <= raw.len(),
        levels_of(raw.take(at)) is Err,
    ensures
        levels_of(raw) == levels_of(raw.take(at)),
    decreases raw.len() - at,
{
    if at < raw.len() {
        take_next(raw, at);
        lemma_levels_stay_wrong(raw, at + 1);
    }
}

spec fn levels_result(r: Result<Vec<BookLevel>, Error>) -> Result<Seq<Level>, Failure> {
    match r {
        Ok(levels) => Ok(book_level_views(levels@)),
        Err(e) => Err(e@),
    }
}

fn normalize_levels(raw: &Vec<RawBookLevel>) -> (result: Result<Vec<BookLevel>, Error>)
    ensures
        levels_result(result) == levels_of(raw@),
{
    let mut out: Vec<BookLevel> = Vec::new();
    let mut i: usize = 0;
    while i < raw.len()
        invariant
            i <= raw@.len(),
            levels_of(raw@.take(i as int)) == Ok::<Seq<Level>, Failure>(book_level_views(out@)),
        decreases raw@.len() - i,
    {
        proof {
            take_next(raw@, i as int);
        }
        match normalize_level(&raw[i]) {
            Ok(level) => {
                out.push(level);
            },
            Err(e) => {
                proof {
                    lemma_levels_stay_wrong(raw@, i + 1);
                }
                return Err(e);
            },
        }
        i = i + 1;
    }
    Ok(out)
}

/// Reads a book: bids from the highest price down, offers from the lowest up.
pub fn normalize_book(raw: &RawMarketData, fetched_at: Timestamp) -> (result: Result<
    MarketBook,
    Error,
>)
    ensures
        match result {
            Ok(book) => book_from(*raw, fetched_at@) == Ok::<Book, Failure>(book@),
            Err(e) => book_from(*raw, fetched_at@) == Err::<Book, Failure>(e@),
        },
{
    let bids = match normalize_levels(&raw.bids) {
        Ok(levels) => levels,
        Err(e) => {
            return Err(e);
        },
    };
    let offers = match normalize_levels(&raw.offers) {
        Ok(levels) => levels,
        Err(e) => {
            return Err(e);
        },
    };
    proof {
        lemma_sorted_map(bids@, |l: BookLevel| l@, ranking(DearestFirst), dearest_first());
        lemma_sorted_map(offers@, |l: BookLevel| l@, ranking(CheapestFirst), cheapest_first());
    }
    let bids = stable_sort(bids, &DearestFirst);
    let offers = stable_sort(offers, &CheapestFirst);
    match parse_datetime(raw.transact_time.as_str(), "book transactTime") {
        Ok(transact_time) => Ok(
            MarketBook {
                market_slug: owned(raw.market_slug.as_str()),
                bids,
                offers,
                state: owned(raw.state.as_str()),
                transact_time,
                fetched_at,
            },
        ),
        Err(e) => Err(e),
    }
}

/// A book is read in executable order: no bid is above the first, no offer
/// below it.
pub proof fn books_are_in_executable_order(raw: RawMarketData, fetched_at: int)
    ensures
        book_from(raw, fetched_at) matches Ok(book) ==> in_order(book.bids, dearest_first())
            && in_order(book.offers, cheapest_first()),
{
    assert(is_order(dearest_first()));
    assert(is_order(cheapest_first()));
    if let Ok(bids) = levels_of(raw.bids@) {
        lemma_sorted_order(bids, dearest_first());
        if let Ok(offers) = levels_of(raw.offers@) {
            lemma_sorted_order(offers, cheapest_first());
        }
    }
}

#[derive(Debug)]
pub struct RawProviderId {
    pub provider: String,
    pub provider_id: String,
}

#[derive(Debug)]
pub struct RawTeam {
    pub name: String,
    pub provider_ids: Vec<RawProviderId>,
}

#[derive(Debug)]
pub struct RawMarketSide {
    pub id: String,
    pub description: Option<String>,
    pub long: bool,
    pub team_id: Option<i64>,
    pub team: Option<RawTeam>,
}

#[derive(Debug)]
pub struct RawMarket {
    pub id: String,
    pub slug: String,
    pub description: Option<String>,
    pub sports_market_type: Option<String>,
    pub active: Option<bool>,
    pub closed: Option<bool>,
    pub hidden: Option<bool>,
    pub ep3_status: Option<String>,
    pub ep3_synced_at: Option<String>,
    pub market_sides: Vec<RawMarketSide>,
    pub order_price_min_tick_size: RawAmount,
    pub minimum_trade_qty: RawAmount,
    pub fee_coefficient: RawAmount,
}

#[derive(Debug)]
pub struct RawEvent {
    pub id: String,
    pub start_time: Option<String>,
    pub start_date: Option<String>,
    pub active: Option<bool>,
    pub closed: Option<bool>,
    pub live: Option<bool>,
    pub ended: Option<bool>,
    pub game_id: Option<i64>,
    pub sportradar_game_id: Option<String>,
    pub markets: Vec<RawMarket>,
}

/// A flag, or what it is unless said.
pub open spec fn flag(value: Option<bool>, default: bool) -> bool {
    match value {
        Some(b) => b,
        None => default,
    }
}

fn flag_or(value: Option<bool>, default: bool) -> (result: bool)
    ensures
        result == flag(value, default),
{
    match value {
        Some(b) => b,
        None => default,
    }
}

/// A text, or nothing where there is none.
pub open spec fn text_or_empty(value: Option<String>) -> Seq<char> {
    match value {
        Some(text) => text@,
        None => seq![],
    }
}

fn copy_or_empty(value: &Option<String>) -> (result: String)
    ensures
        result@ == text_or_empty(*value),
{
    match value {
        Some(text) => owned(text.as_str()),
        None => String::new(),
    }
}

/// The identifiers by provider: a later one takes the place of an earlier one.
pub open spec fn providers(ids: Seq<RawProviderId>) -> Map<Seq<char>, Seq<char>>
    decreases ids.len(),
{
    if ids.len() == 0 {
        Map::empty()
    } else {
        providers(ids.drop_last()).insert(ids.last().provider@, ids.last().provider_id@)
    }
}

/// What a side is called. The description is a display nickname; the team
/// record carries the full name that every other source uses.
pub open spec fn side_name(side: RawMarketSide) -> Option<Seq<char>> {
    match side.team {
        Some(team) if !is_blank(team.name@) => Some(team.name@),
        _ => text_of(side.description),
    }
}

/// The participant behind a side, or what is wrong with it.
pub open spec fn participant_of(side: RawMarketSide) -> Result<Participant, Failure> {
    match side_name(side) {
        Some(name) => Ok(
            Participant {
                side_id: side.id@,
                name,
                long: side.long,
                team_id: side.team_id,
                provider_ids: match side.team {
                    Some(team) => providers(team.provider_ids@),
                    None => Map::empty(),
                },
            },
        ),
        None => Err(Failure::InvalidData("market side "@ + side.id@ + " has no name"@)),
    }
}

fn collect_providers(ids: &Vec<RawProviderId>) -> (result: TextMap<String>)
    ensures
        result.deep() == providers(ids@),
{
    let mut out: TextMap<String> = TextMap::new();
    let mut i: usize = 0;
    assert(out.deep() =~= Map::empty());
    while i < ids.len()
        invariant
            i <= ids@.len(),
            out.deep() == providers(ids@.take(i as int)),
        decreases ids@.len() - i,
    {
        proof {
            take_next(ids@, i as int);
        }
        out = out.put(owned(ids[i].provider.as_str()), owned(ids[i].provider_id.as_str()));
        i = i + 1;
    }
    out
}

pub fn normalize_participant(side: &RawMarketSide) -> (result: Result<MarketParticipant, Error>)
    ensures
        match result {
            Ok(p) => participant_of(*side) == Ok::<Participant, Failure>(p@),
            Err(e) => participant_of(*side) == Err::<Participant, Failure>(e@),
        },
{
    let provider_ids: TextMap<String> = match &side.team {
        Some(team) => collect_providers(&team.provider_ids),
        None => TextMap::new(),
    };
    assert(side.team is None ==> provider_ids.deep() =~= Map::empty());
    let team_name = match &side.team {
        Some(team) if !blank(team.name.as_str()) => Some(owned(team.name.as_str())),
        _ => copy_text(&side.description),
    };
    match team_name {
        Some(name) => Ok(
            MarketParticipant {
                side_id: owned(side.id.as_str()),
                name,
                long: side.long,
                team_id: side.team_id,
                provider_ids,
            },
        ),
        None => Err(
            Error::InvalidData(concat3("market side ", side.id.as_str(), " has no name")),
        ),
    }
}

/// Recognized settlement profiles. Anything else is left out because the
/// contract would not match the sportsbook moneyline it is compared with: an
/// NFL tie must pay half, and a tennis match that never starts must be void.
pub open spec fn settlement_known(sport: Sport, description: Seq<char>) -> bool {
    profile_known(sport, description, lowered(description))
}

/// The same of a description whose lower-case form is `text`.
pub open spec fn profile_known(sport: Sport, description: Seq<char>, text: Seq<char>) -> bool {
    match sport {
        Sport::Nfl => contains_text(text, "tie"@) && contains_text(text, "$0.50"@),
        Sport::Tennis => (contains_text(text, "walkover"@) || contains_text(text, "withdrawal"@))
            && (contains_text(text, "$0.50"@) || contains_text(text, "fair market price"@)),
        _ => !is_blank(description),
    }
}

pub fn settlement_rules_supported(sport: Sport, description: &str) -> (result: bool)
    ensures
        result == settlement_known(sport, description@),
{
    let text = lowercase(description);
    settlement_profile_known(sport, description, text.as_str())
}

/// Whether a description, `text` in lower case, is of a recognized profile.
pub fn settlement_profile_known(sport: Sport, description: &str, text: &str) -> (result: bool)
    ensures
        result == profile_known(sport, description@, text@),
{
    match sport {
        Sport::Nfl => contains(text, "tie") && contains(text, "$0.50"),
        Sport::Tennis => (contains(text, "walkover") || contains(text, "withdrawal")) && (contains(
            text,
            "$0.50",
        ) || contains(text, "fair market price")),
        _ => !blank(description),
    }
}

/// The first side, from place `from` on, that is long or not.
pub open spec fn side_on(sides: Seq<RawMarketSide>, long: bool, from: int) -> Option<RawMarketSide>
    decreases sides.len() - from,
{
    if from >= sides.len() {
        None
    } else if sides[from].long == long {
        Some(sides[from])
    } else {
        side_on(sides, long, from + 1)
    }
}

/// When the venue last synced a market, or what is wrong with the stamp.
pub open spec fn synced(value: Option<String>) -> Result<Option<int>, Failure> {
    match value {
        None => Ok(None),
        Some(text) => match stamp(text@, "ep3SyncedAt"@) {
            Ok(instant) => Ok(Some(instant)),
            Err(f) => Err(f),
        },
    }
}

/// The market, or what keeps it out: both sides, a known settlement profile,
/// names, numbers and the sync stamp, in this order.
pub open spec fn market_from(
    sport: Sport,
    event_id: Seq<char>,
    game_id: Option<i64>,
    sportradar_game_id: Option<Seq<char>>,
    start_time: int,
    raw: RawMarket,
) -> Result<Market, Failure> {
    match (side_on(raw.market_sides@, true, 0), side_on(raw.market_sides@, false, 0)) {
        (None, _) => Err(Failure::InvalidData("market "@ + raw.id@ + " has no long side"@)),
        (_, None) => Err(Failure::InvalidData("market "@ + raw.id@ + " has no short side"@)),
        (Some(long), Some(short)) => if !settlement_known(sport, text_or_empty(raw.description)) {
            Err(
                Failure::InvalidData(
                    "market "@ + raw.id@ + " has an unrecognized settlement profile"@,
                ),
            )
        } else {
            match participant_of(long) {
                Err(f) => Err(f),
                Ok(long_participant) => match participant_of(short) {
                    Err(f) => Err(f),
                    Ok(short_participant) => match amount(
                        raw.order_price_min_tick_size,
                        "tick size"@,
                    ) {
                        Err(f) => Err(f),
                        Ok(tick_size) => match amount(
                            raw.minimum_trade_qty,
                            "minimum quantity"@,
                        ) {
                            Err(f) => Err(f),
                            Ok(minimum_quantity) => match amount(
                                raw.fee_coefficient,
                                "fee coefficient"@,
                            ) {
                                Err(f) => Err(f),
                                Ok(fee_coefficient) => match synced(raw.ep3_synced_at) {
                                    Err(f) => Err(f),
                                    Ok(ep3_synced_at) => Ok(
                                        Market {
                                            event_id,
                                            game_id,
                                            sportradar_game_id,
                                            sport,
                                            start_time,
                                            market_id: raw.id@,
                                            market_slug: raw.slug@,
                                            description: text_or_empty(raw.description),
                                            sports_market_type: text_or_empty(
                                                raw.sports_market_type,
                                            ),
                                            long_participant,
                                            short_participant,
                                            tick_size,
                                            minimum_quantity,
                                            fee_coefficient,
                                            ep3_status: text_or_empty(raw.ep3_status),
                                            ep3_synced_at,
                                        },
                                    ),
                                },
                            },
                        },
                    },
                },
            }
        },
    }
}

fn find_side(sides: &Vec<RawMarketSide>, long: bool) -> (result: Option<usize>)
    ensures
        match result {
            Some(i) => i < sides@.len() && side_on(sides@, long, 0) == Some(sides@[i as int]),
            None => side_on(sides@, long, 0) is None,
        },
{
    let mut i: usize = 0;
    while i < sides.len()
        invariant
            i <= sides@.len(),
            side_on(sides@, long, 0) == side_on(sides@, long, i as int),
        decreases sides@.len() - i,
    {
        if sides[i].long == long {
            return Some(i);
        }
        i = i + 1;
    }
    None
}

/// Reads one market of an event.
pub fn normalize_market(
    sport: Sport,
    event_id: &str,
    game_id: Option<i64>,
    sportradar_game_id: &Option<String>,
    start_time: Timestamp,
    raw: &RawMarket,
) -> (result: Result<UsMoneylineMarket, Error>)
    ensures
        match result {
            Ok(m) => market_from(
                sport,
                event_id@,
                game_id,
                text_of(*sportradar_game_id),
                start_time@,
                *raw,
            ) == Ok::<Market, Failure>(m@),
            Err(e) => market_from(
                sport,
                event_id@,
                game_id,
                text_of(*sportradar_game_id),
                start_time@,
                *raw,
            ) == Err::<Market, Failure>(e@),
        },
{
    let long = match find_side(&raw.market_sides, true) {
        Some(i) => i,
        None => {
            return Err(
                Error::InvalidData(concat3("market ", raw.id.as_str(), " has no long side")),
            );
        },
    };
    let short = match find_side(&raw.market_sides, false) {
        Some(i) => i,
        None => {
            return Err(
                Error::InvalidData(concat3("market ", raw.id.as_str(), " has no short side")),
            );
        },
    };
    let description = copy_or_empty(&raw.description);
    if !settlement_rules_supported(sport, description.as_str()) {
        return Err(
            Error::InvalidData(
                concat3("market ", raw.id.as_str(), " has an unrecognized settlement profile"),
            ),
        );
    }
    let long_participant = match normalize_participant(&raw.market_sides[long]) {
        Ok(p) => p,
        Err(e) => {
            return Err(e);
        },
    };
    let short_participant = match normalize_participant(&raw.market_sides[short]) {
        Ok(p) => p,
        Err(e) => {
            return Err(e);
        },
    };
    let tick_size = match decimal_from_value(&raw.order_price_min_tick_size, "tick size") {
        Ok(d) => d,
        Err(e) => {
            return Err(e);
        },
    };
    let minimum_quantity = match decimal_from_value(&raw.minimum_trade_qty, "minimum quantity") {
        Ok(d) => d,
        Err(e) => {
            return Err(e);
        },
    };
    let fee_coefficient = match decimal_from_value(&raw.fee_coefficient, "fee coefficient") {
        Ok(d) => d,
        Err(e) => {
            return Err(e);
        },
    };
    let ep3_synced_at = match &raw.ep3_synced_at {
        Some(text) => match parse_datetime(text.as_str(), "ep3SyncedAt") {
            Ok(t) => Some(t),
            Err(e) => {
                return Err(e);
            },
        },
        None => None,
    };
    Ok(
        UsMoneylineMarket {
            event_id: owned(event_id),
            game_id,
            sportradar_game_id: copy_text(sportradar_game_id),
            sport,
            start_time,
            market_id: owned(raw.id.as_str()),
            market_slug: owned(raw.slug.as_str()),
            description,
            sports_market_type: copy_or_empty(&raw.sports_market_type),
            long_participant,
            short_participant,
            tick_size,
            minimum_quantity,
            fee_coefficient,
            ep3_status: copy_or_empty(&raw.ep3_status),
            ep3_synced_at,
        },
    )
}

/// A market that is looked at: the sport's full-game winner, active, and
/// neither closed nor hidden.
pub open spec fn offered(sport: Sport, raw: RawMarket) -> bool {
    &&& text_of(raw.sports_market_type) == Some(sport.winner_type())
    &&& flag(raw.active, true)
    &&& !flag(raw.closed, false)
    &&& !flag(raw.hidden, false)
}

/// The markets of an event that are looked at, or what is wrong with the first
/// that is.
pub open spec fn markets_from(
    sport: Sport,
    event: RawEvent,
    start_time: int,
    markets: Seq<RawMarket>,
) -> Result<Seq<Market>, Failure>
    decreases markets.len(),
{
    if markets.len() == 0 {
        Ok(seq![])
    } else {
        match markets_from(sport, event, start_time, markets.drop_last()) {
            Err(f) => Err(f),
            Ok(front) => if !offered(sport, markets.last()) {
                Ok(front)
            } else {
                match market_from(
                    sport,
                    event.id@,
                    event.game_id,
                    text_of(event.sportradar_game_id),
                    start_time,
                    markets.last(),
                ) {
                    Err(f) => Err(f),
                    Ok(market) => Ok(front.push(market)),
                }
            },
        }
    }
}

/// An event before its game: not live, ended or closed, and active.
pub open spec fn pregame(event: RawEvent) -> bool {
    &&& !flag(event.live, false)
    &&& !flag(event.ended, false)
    &&& !flag(event.closed, false)
    &&& flag(event.active, true)
}

/// When an event starts, or what is wrong with what it says.
pub open spec fn event_start(event: RawEvent) -> Result<int, Failure> {
    match (text_of(event.start_time), text_of(event.start_date)) {
        (Some(text), _) => stamp(text, "event startTime"@),
        (None, Some(text)) => stamp(text, "event startTime"@),
        (None, None) => Err(
            Failure::InvalidData("event "@ + event.id@ + " has no start time"@),
        ),
    }
}

/// The moneylines of an event: none unless it is still to come.
pub open spec fn event_markets(sport: Sport, event: RawEvent, now: int) -> Result<
    Seq<Market>,
    Failure,
> {
    if !pregame(event) {
        Ok(seq![])
    } else {
        match event_start(event) {
            Err(f) => Err(f),
            Ok(start) => if start <= now {
                Ok(seq![])
            } else {
                markets_from(sport, event, start, event.markets@)
            },
        }
    }
}

fn is_offered(sport: Sport, raw: &RawMarket) -> (result: bool)
    ensures
        result == offered(sport, *raw),
{
    let winner = match &raw.sports_market_type {
        Some(kind) => same(kind.as_str(), sport.moneyline_type()),
        None => false,
    };
    winner && flag_or(raw.active, true) && !flag_or(raw.closed, false) && !flag_or(
        raw.hidden,
        false,
    )
}

proof fn lemma_markets_stay_wrong(
    sport: Sport,
    event: RawEvent,
    start_time: int,
    markets: Seq<RawMarket>,
    at: int,
)
    requires
        0 <= at <= markets.len(),
        markets_from(sport, event, start_time, markets.take(at)) is Err,
    ensures
        markets_from(sport, event, start_time, markets) == markets_from(
            sport,
            event,
            start_time,
            markets.take(at),
        ),
    decreases markets.len() - at,
{
    if at < markets.len() {
        take_next(markets, at);
        lemma_markets_stay_wrong(sport, event, start_time, markets, at + 1);
    }
}

/// Reads an event: the exact pregame moneylines of its game.
pub fn normalize_event(sport: Sport, event: &RawEvent, now: Timestamp) -> (result: Result<
    Vec<UsMoneylineMarket>,
    Error,
>)
    ensures
        match result {
            Ok(markets) => event_markets(sport, *event, now@) == Ok::<Seq<Market>, Failure>(
                us_moneyline_market_views(markets@),
            ),
            Err(e) => event_markets(sport, *event, now@) == Err::<Seq<Market>, Failure>(e@),
        },
{
    let mut out: Vec<UsMoneylineMarket> = Vec::new();
    if flag_or(event.live, false) || flag_or(event.ended, false) || flag_or(event.closed, false)
        || !flag_or(event.active, true) {
        return Ok(out);
    }
    let text = match (&event.start_time, &event.start_date) {
        (Some(text), _) => text,
        (None, Some(text)) => text,
        (None, None) => {
            return Err(
                Error::InvalidData(concat3("event ", event.id.as_str(), " has no start time")),
            );
        },
    };
    let start_time = match parse_datetime(text.as_str(), "event startTime") {
        Ok(t) => t,
        Err(e) => {
            return Err(e);
        },
    };
    if !now.before(start_time) {
        return Ok(out);
    }
    let mut i: usize = 0;
    while i < event.markets.len()
        invariant
            i <= event.markets@.len(),
            event_markets(sport, *event, now@) == markets_from(
                sport,
                *event,
                start_time@,
                event.markets@,
            ),
            markets_from(sport, *event, start_time@, event.markets@.take(i as int)) == Ok::<
                Seq<Market>,
                Failure,
            >(us_moneyline_market_views(out@)),
        decreases event.markets@.len() - i,
    {
        proof {
            take_next(event.markets@, i as int);
        }
        if is_offered(sport, &event.markets[i]) {
            match normalize_market(
                sport,
                event.id.as_str(),
                event.game_id,
                &event.sportradar_game_id,
                start_time,
                &event.markets[i],
            ) {
                Ok(market) => {
                    out.push(market);
                },
                Err(e) => {
                    proof {
                        lemma_markets_stay_wrong(
                            sport,
                            *event,
                            start_time@,
                            event.markets@,
                            i + 1,
                        );
                    }
                    return Err(e);
                },
            }
        }
        i = i + 1;
    }
    Ok(out)
}

proof fn lemma_markets_share_the_event(
    sport: Sport,
    event: RawEvent,
    start_time: int,
    markets: Seq<RawMarket>,
)
    ensures
        markets_from(sport, event, start_time, markets) matches Ok(out) ==> forall|i: int|
            0 <= i < out.len() ==> {
                let m = #[trigger] out[i];
                &&& m.sport == sport
                &&& m.start_time == start_time
                &&& m.sports_market_type == sport.winner_type()
                &&& settlement_known(sport, m.description)
            },
    decreases markets.len(),
{
    if markets.len() > 0 {
        lemma_markets_share_the_event(sport, event, start_time, markets.drop_last());
    }
}

/// Whatever is discovered is an exact pregame moneyline: it starts after `now`,
/// is the sport's full-game winner, and settles by rules that sportsbooks
/// share.
pub proof fn discovered_markets_are_pregame_moneylines(sport: Sport, event: RawEvent, now: int)
    ensures
        event_markets(sport, event, now) matches Ok(out) ==> forall|i: int|
            0 <= i < out.len() ==> {
                let m = #[trigger] out[i];
                &&& m.start_time > now
                &&& m.sport == sport
                &&& m.sports_market_type == sport.winner_type()
                &&& settlement_known(sport, m.description)
            },
{
    if let Ok(start) = event_start(event) {
        lemma_markets_share_the_event(sport, event, start, event.markets@);
    }
}

/// The earliest start first.
pub open spec fn by_start() -> spec_fn(Market, Market) -> bool {
    |a: Market, b: Market| a.start_time < b.start_time
}

struct ByStart;

impl Precedence<UsMoneylineMarket> for ByStart {
    closed spec fn precedes(&self, a: UsMoneylineMarket, b: UsMoneylineMarket) -> bool {
        a@.start_time < b@.start_time
    }

    fn first(&self, a: &UsMoneylineMarket, b: &UsMoneylineMarket) -> (result: bool) {
        a.start_time.before(b.start_time)
    }
}

/// The markets in the order they start.
pub fn sort_markets(markets: Vec<UsMoneylineMarket>) -> (result: Vec<UsMoneylineMarket>)
    ensures
        us_moneyline_market_views(result@) == sorted(
            us_moneyline_market_views(markets@),
            by_start(),
        ),
{
    proof {
        lemma_sorted_map(markets@, |m: UsMoneylineMarket| m@, ranking(ByStart), by_start());
    }
    stable_sort(markets, &ByStart)
}

/// Events on one page of a discovery.
pub const PAGE_LIMIT: u32 = 100;

/// Most pages that a discovery asks for.
pub const PAGE_COUNT: u32 = 20;

/// Whether another page follows one with so many events.
pub fn wants_next_page(page: u32, events: usize) -> (result: bool)
    ensures
        result == (events >= PAGE_LIMIT && page + 1 < PAGE_COUNT),
{
    events >= PAGE_LIMIT as usize && page < PAGE_COUNT - 1
}

/// The upper-case hexadecimal digit of a number below sixteen.
pub open spec fn upper_hex(n: int) -> char {
    "0123456789ABCDEF"@[n]
}

/// A byte as it stands in an address: letters, digits and `*-._` as they are, a
/// space as a plus sign, any other as its number.
pub open spec fn encoded_byte(byte: u8) -> Seq<char> {
    let c = byte as char;
    if is_ascii_alnum(c) || c == '*' || c == '-' || c == '.' || c == '_' {
        seq![c]
    } else if c == ' ' {
        seq!['+']
    } else {
        seq!['%', upper_hex(byte as int / 16), upper_hex(byte as int % 16)]
    }
}

/// Bytes as they stand in an address.
pub open spec fn encoded_bytes(bytes: Seq<u8>) -> Seq<char>
    decreases bytes.len(),
{
    if bytes.len() == 0 {
        seq![]
    } else {
        encoded_bytes(bytes.drop_last()) + encoded_byte(bytes.last())
    }
}

/// A text as it stands in an address: the bytes of its UTF-8 form.
pub open spec fn form_encoded(text: Seq<char>) -> Seq<char> {
    encoded_bytes(vstd::utf8::encode_utf8(text))
}

/// `url::form_urlencoded::byte_serialize` over the bytes of the text, collected
/// into one text: the form that a browser sends.
#[verifier::external_body]
pub(crate) fn encode_slug(market_slug: &str) -> (result: String)
    ensures
        result@ == form_encoded(market_slug@),
{
    url::form_urlencoded::byte_serialize(market_slug.as_bytes()).collect()
}

/// An address without the slashes it ends with.
pub open spec fn without_slashes(base: Seq<char>) -> Seq<char>
    decreases base.len(),
{
    if base.len() > 0 && base.last() == '/' {
        without_slashes(base.drop_last())
    } else {
        base
    }
}

/// An address without the slashes it ends with.
pub fn trim_base_url(base: &str) -> (result: String)
    ensures
        result@ == without_slashes(base@),
{
    let all = chars(base);
    let mut end: usize = all.len();
    while end > 0 && all[end - 1] == '/'
        invariant
            all@ == base@,
            end <= all@.len(),
            without_slashes(base@) == without_slashes(all@.take(end as int)),
        decreases end,
    {
        proof {
            take_next(all@, end - 1);
        }
        end = end - 1;
    }
    assert(end > 0 ==> all@.take(end as int).last() == all@[end - 1]);
    let out = from_range(&all, 0, end);
    assert(all@.subrange(0, end as int) =~= all@.take(end as int));
    out
}

/// Where a page of a sport's events is.
pub fn events_url(base: &str, sport: Sport, page: u32) -> (result: String)
    ensures
        result@ == base@ + sport.path() + "?limit="@ + digits(PAGE_LIMIT as nat) + "&offset="@
            + digits((page * PAGE_LIMIT) as nat),
{
    concat6(
        base,
        sport.discovery_path(),
        "?limit=",
        natural(PAGE_LIMIT as u128).as_str(),
        "&offset=",
        natural(page as u128 * PAGE_LIMIT as u128).as_str(),
    )
}

/// Where a market's book is.
pub fn book_url(base: &str, market_slug: &str) -> (result: String)
    ensures
        result@ == base@ + "/v1/markets/"@ + form_encoded(market_slug@) + "/book"@,
{
    concat4(base, "/v1/markets/", encode_slug(market_slug).as_str(), "/book")
}

/// Where a market's settlement is.
pub fn settlement_url(base: &str, market_slug: &str) -> (result: String)
    ensures
        result@ == base@ + "/v1/markets/"@ + form_encoded(market_slug@) + "/settlement"@,
{
    concat4(base, "/v1/markets/", encode_slug(market_slug).as_str(), "/settlement")
}

/// Where a market's price history is.
pub fn price_history_url(base: &str, market_slug: &str) -> (result: String)
    ensures
        result@ == base@ + "/v1/price-history?symbol="@ + form_encoded(market_slug@)
            + "&fixedInterval=INTERVAL_LIVE&fidelity=1"@,
{
    concat4(
        base,
        "/v1/price-history?symbol=",
        encode_slug(market_slug).as_str(),
        "&fixedInterval=INTERVAL_LIVE&fidelity=1",
    )
}

/// The place of the latest time stamp at or before the cutoff, the last of
/// equals.
pub open spec fn last_by(stamps: Seq<i64>, cutoff: int) -> Option<int>
    decreases stamps.len(),
{
    if stamps.len() == 0 {
        None
    } else {
        let here = stamps.len() - 1;
        match last_by(stamps.drop_last(), cutoff) {
            Some(best) => if stamps.last() <= cutoff && stamps.last() >= stamps[best] {
                Some(here)
            } else {
                Some(best)
            },
            None => if stamps.last() <= cutoff {
                Some(here)
            } else {
                None
            },
        }
    }
}

/// The place of the earliest time stamp, the first of equals.
pub open spec fn earliest(stamps: Seq<i64>) -> Option<int>
    decreases stamps.len(),
{
    if stamps.len() == 0 {
        None
    } else {
        let here = stamps.len() - 1;
        match earliest(stamps.drop_last()) {
            Some(best) => if stamps.last() < stamps[best] {
                Some(here)
            } else {
                Some(best)
            },
            None => Some(here),
        }
    }
}

/// The place of the closing line: the last point at or before the start, else
/// the earliest point.
pub open spec fn closing_place(stamps: Seq<i64>, start_time: int) -> Option<int> {
    match last_by(stamps, start_time / (NANOS_PER_SECOND as int)) {
        Some(i) => Some(i),
        None => earliest(stamps),
    }
}

pub(crate) proof fn lemma_last_by(stamps: Seq<i64>, cutoff: int)
    ensures
        match last_by(stamps, cutoff) {
            Some(i) => 0 <= i < stamps.len() && stamps[i] <= cutoff && forall|j: int|
                0 <= j < stamps.len() && (#[trigger] stamps[j]) <= cutoff ==> stamps[j]
                    <= stamps[i],
            None => forall|j: int| 0 <= j < stamps.len() ==> (#[trigger] stamps[j]) > cutoff,
        },
    decreases stamps.len(),
{
    if stamps.len() > 0 {
        lemma_last_by(stamps.drop_last(), cutoff);
        assert(forall|j: int| 0 <= j < stamps.len() - 1 ==> stamps.drop_last()[j] == stamps[j]);
    }
}

pub(crate) proof fn lemma_earliest(stamps: Seq<i64>)
    ensures
        match earliest(stamps) {
            Some(i) => 0 <= i < stamps.len() && forall|j: int|
                0 <= j < stamps.len() ==> (#[trigger] stamps[j]) >= stamps[i],
            None => stamps.len() == 0,
        },
    decreases stamps.len(),
{
    if stamps.len() > 0 {
        lemma_earliest(stamps.drop_last());
        assert(forall|j: int| 0 <= j < stamps.len() - 1 ==> stamps.drop_last()[j] == stamps[j]);
    }
}

/// The closing line is a point of the history; it is not after the start where
/// any point is not, and no such point is later.
pub proof fn closing_line_is_the_last_before_the_start(stamps: Seq<i64>, start_time: int)
    ensures
        stamps.len() == 0 <==> closing_place(stamps, start_time) is None,
        closing_place(stamps, start_time) matches Some(i) ==> {
            let cutoff = start_time / (NANOS_PER_SECOND as int);
            &&& 0 <= i < stamps.len()
            &&& forall|j: int|
                0 <= j < stamps.len() && (#[trigger] stamps[j]) <= cutoff ==> stamps[i] <= cutoff
                    && stamps[j] <= stamps[i]
        },
{
    lemma_last_by(stamps, start_time / (NANOS_PER_SECOND as int));
    lemma_earliest(stamps);
}

/// The place of the closing line in a price history, by the points' time
/// stamps.
pub fn select_closing_point(stamps: &Vec<i64>, start_time: Timestamp) -> (result: Option<usize>)
    ensures
        match result {
            Some(i) => closing_place(stamps@, start_time@) == Some(i as int) && i < stamps@.len(),
            None => closing_place(stamps@, start_time@) is None,
        },
{
    let cutoff: i64 = start_time.seconds();
    let mut last: Option<usize> = None;
    let mut first: Option<usize> = None;
    let mut i: usize = 0;
    while i < stamps.len()
        invariant
            i <= stamps@.len(),
            cutoff == start_time@ / (NANOS_PER_SECOND as int),
            match last {
                Some(k) => k < i && last_by(stamps@.take(i as int), cutoff as int) == Some(
                    k as int,
                ),
                None => last_by(stamps@.take(i as int), cutoff as int) is None,
            },
            match first {
                Some(k) => k < i && earliest(stamps@.take(i as int)) == Some(k as int),
                None => earliest(stamps@.take(i as int)) is None,
            },
        decreases stamps@.len() - i,
    {
        proof {
            take_next(stamps@, i as int);
        }
        let stamp: i64 = stamps[i];
        match last {
            Some(k) => {
                if stamp <= cutoff && stamp >= stamps[k] {
                    last = Some(i);
                }
            },
            None => {
                if stamp <= cutoff {
                    last = Some(i);
                }
            },
        }
        match first {
            Some(k) => {
                if stamp < stamps[k] {
                    first = Some(i);
                }
            },
            None => {
                first = Some(i);
            },
        }
        i = i + 1;
    }
    match last {
        Some(k) => Some(k),
        None => first,
    }
}

/// Pre-game closing line of a market: side prices at the last observation
/// before the scheduled start.
#[derive(Debug, Clone, Copy, PartialEq, Eq)]
pub struct ClosingPrice {
    pub long_price: Decimal,
    pub short_price: Decimal,
    pub observed_at: Timestamp,
}

/// The closing line at a point: prices to four places; the calendar must reach
/// the time stamp.
pub fn closing_price(long_price: Decimal, short_price: Decimal, stamp: i64) -> (result: Result<
    ClosingPrice,
    Error,
>)
    ensures
        match result {
            Ok(closing) => in_calendar(stamp as int / 86_400 + EPOCH_DAY) && closing.long_price@ == rounded(
                long_price@,
                4,
            ) && closing.short_price@ == rounded(short_price@, 4) && closing.observed_at@ == stamp
                * NANOS_PER_SECOND,
            Err(e) => !(in_calendar(stamp as int / 86_400 + EPOCH_DAY) && -INSTANT_LIMIT <= stamp
                * NANOS_PER_SECOND <= INSTANT_LIMIT) && e@ == Failure::InvalidData(
                "price history timestamp out of range: "@ + int_text(stamp as int),
            ),
        },
{
    let reached = calendar_reaches(stamp);
    match Timestamp::from_seconds(stamp) {
        Some(observed_at) if reached => Ok(
            ClosingPrice {
                long_price: long_price.round_dp(4),
                short_price: short_price.round_dp(4),
                observed_at,
            },
        ),
        _ => Err(
            Error::InvalidData(
                concat2(
                    "price history timestamp out of range: ",
                    integer(stamp as i128).as_str(),
                ),
            ),
        ),
    }
}

/// What follows an answer of the gateway.
#[derive(Debug, Clone, Copy, PartialEq, Eq, Structural)]
pub enum GatewayStep {
    /// There is no such thing.
    Missing,
    /// Back off, then ask once more.
    BackOff,
    /// Read the body, or fail with the status.
    Read,
}

/// A 404 is nothing; the first 429 backs off and asks again; anything else is
/// read.
pub fn gateway_step(status: u16, retried: bool) -> (result: GatewayStep)
    ensures
        result == if status == 404 {
            GatewayStep::Missing
        } else if status == 429 && !retried {
            GatewayStep::BackOff
        } else {
            GatewayStep::Read
        },
{
    if status == 404 {
        GatewayStep::Missing
    } else if status == 429 && !retried {
        GatewayStep::BackOff
    } else {
        GatewayStep::Read
    }
}

/// How long a refused request waits, in nanoseconds: one second.
pub const RATE_LIMIT_BACKOFF_NANOS: u64 = 1_000_000_000;

/// The space between two request starts, in nanoseconds: a second's share,
/// rounded up so that a second never holds one start more.
pub open spec fn spacing(requests_per_second: int) -> int {
    if requests_per_second < 1 {
        1_000_000_000
    } else {
        (1_000_000_000 + requests_per_second - 1) / requests_per_second
    }
}

/// When a request starts that may not start before `next`.
pub open spec fn slot(next: int, now: int) -> int {
    if next >= now {
        next
    } else {
        now
    }
}

/// When the request after one may start; the clock ends at its largest number.
pub open spec fn slot_after(start: int, interval: int) -> int {
    if start + interval <= u64::MAX {
        start + interval
    } else {
        u64::MAX as int
    }
}

/// When the next request may start, on some clock that counts nanoseconds.
#[derive(Debug, Clone, Copy)]
pub struct Pacer {
    next: u64,
    interval: u64,
}

impl Pacer {
    /// The earliest start of the next request.
    pub closed spec fn next(&self) -> int {
        self.next as int
    }

    /// The space between two starts.
    pub closed spec fn interval(&self) -> int {
        self.interval as int
    }

    /// A pacer from `now` on: no more than so many requests in a second.
    pub fn new(now: u64, requests_per_second: u32) -> (result: Pacer)
        ensures
            result.next() == now,
            result.interval() == spacing(requests_per_second as int),
    {
        let rate: u64 = if requests_per_second < 1 {
            1
        } else {
            requests_per_second as u64
        };
        Pacer { next: now, interval: (1_000_000_000 + rate - 1) / rate }
    }

    /// Reserves the next permitted start and says when it is: now, or when the
    /// one before leaves room. The clock ends at its largest number.
    pub fn reserve(&mut self, now: u64) -> (start: u64)
        ensures
            start == slot(old(self).next(), now as int),
            final(self).next() == slot_after(start as int, old(self).interval()),
            final(self).interval() == old(self).interval(),
    {
        let start: u64 = if self.next >= now {
            self.next
        } else {
            now
        };
        self.next = if self.interval <= u64::MAX - start {
            start + self.interval
        } else {
            u64::MAX
        };
        start
    }

    /// Pushes every pending start out to at least `delay` from now.
    pub fn back_off(&mut self, now: u64, delay: u64)
        ensures
            final(self).next() == slot(
                old(self).next(),
                slot_after(now as int, delay as int),
            ),
            final(self).interval() == old(self).interval(),
    {
        let until: u64 = if delay <= u64::MAX - now {
            now + delay
        } else {
            u64::MAX
        };
        if self.next < until {
            self.next = until;
        }
    }
}

/// Two requests that a pacer lets start one after the other are at least its
/// interval apart, whatever the clock says in between.
pub proof fn starts_are_spaced(next: int, interval: int, first_now: int, second_now: int)
    requires
        slot(next, first_now) + interval <= u64::MAX,
    ensures
        slot(slot_after(slot(next, first_now), interval), second_now) >= slot(next, first_now)
            + interval,
{
}

/// However the starts of requests follow each other, as long as each is spaced
/// from the one before, any that are the rate's number of starts apart are a
/// second apart: no second holds more starts than the rate.
pub proof fn no_second_holds_more(starts: Seq<int>, rate: int, i: int)
    requires
        rate >= 1,
        0 <= i,
        i + rate < starts.len(),
        forall|j: int|
            0 <= j < starts.len() - 1 ==> #[trigger] starts[j + 1] >= starts[j] + spacing(rate),
    ensures
        starts[i + rate] >= starts[i] + 1_000_000_000,
{
    lemma_starts_apart(starts, rate, i, rate);
    let share = spacing(rate);
    assert(rate * share >= 1_000_000_000) by (nonlinear_arith)
        requires
            rate >= 1,
            share == (1_000_000_000 + rate - 1) / rate,
    ;
}

proof fn lemma_starts_apart(starts: Seq<int>, rate: int, i: int, n: int)
    requires
        0 <= i,
        0 <= n,
        i + n < starts.len(),
        forall|j: int|
            0 <= j < starts.len() - 1 ==> #[trigger] starts[j + 1] >= starts[j] + spacing(rate),
    ensures
        starts[i + n] >= starts[i] + n * spacing(rate),
    decreases n,
{
    let share = spacing(rate);
    if n == 0 {
        assert(n * share == 0) by (nonlinear_arith)
            requires
                n == 0,
        ;
    } else {
        lemma_starts_apart(starts, rate, i, n - 1);
        let before = i + n - 1;
        assert(starts[before + 1] >= starts[before] + share);
        assert(n * share == (n - 1) * share + share) by (nonlinear_arith);
    }
}

} // verus!
