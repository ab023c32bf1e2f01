//! Kalshi regulated exchange, public market data. Each event of a game series
//! holds one market for each side; the two together are one moneyline quote at
//! the inverse of what a side costs.

use vstd::prelude::*;

use crate::decimal::{
    dec, difference, exact_decimal_text, one, parse_exact, quotient, zero, Dec, Decimal,
};
use crate::domain::{
    source_quote_views, Family, Quote, SourceFamily, SourceQuote, Sport,
    DEFAULT_START_TIME_TOLERANCE_MINUTES,
};
use crate::error::{Error, Failure};
use crate::seqs::{filter_next, group_seqs, kept, kept_next, sorted, take_next};
use crate::sources::{one_id, single_id, some_quote};
use crate::text::{
    by_text, concat2, concat5, digits, leading_digits, natural, number_in,
    owned, parse_natural, same, same_any_case, same_ignoring_case, sort_texts, split_leading_digits,
    split_once, split_once_at, split_words, strip_prefix, has_prefix, texts, trim, trim_start,
    trimmed, trimmed_start, words,
};
use crate::time::{
    civil_day, day_number, lemma_months, parse_rfc3339, rfc3339, Timestamp, EPOCH_DAY,
    NANOS_PER_SECOND,
};

verus! {

broadcast use group_seqs;

/// Date-only rules: any start on that calendar day is accepted, fourteen hours
/// around noon in New York.
pub const DATE_ONLY_TOLERANCE_MINUTES: i64 = 840;

/// Markets on one page.
pub const PAGE_LIMIT: u32 = 200;

/// Most pages that are asked for, so that a misbehaving cursor cannot loop
/// forever.
pub const MAX_PAGES: u32 = 100;

#[derive(Debug)]
pub struct ApiMarket {
    pub ticker: String,
    pub event_ticker: String,
    pub yes_sub_title: String,
    pub yes_bid_dollars: Option<String>,
    pub yes_ask_dollars: Option<String>,
    pub status: String,
    pub rules_primary: String,
    pub updated_time: String,
}

/// The game series of a sport. Tennis has none here: its markets carry no start
/// time and settle under another walkover rule.
pub open spec fn series_of(sport: Sport) -> Option<Seq<char>> {
    match sport {
        Sport::Nfl => Some("KXNFLGAME"@),
        Sport::Nba => Some("KXNBAGAME"@),
        Sport::Wnba => Some("KXWNBAGAME"@),
        Sport::Mlb => Some("KXMLBGAME"@),
        Sport::Tennis => None,
    }
}

pub fn series_ticker(sport: Sport) -> (result: Option<&'static str>)
    ensures
        match result {
            Some(series) => series_of(sport) == Some(series@),
            None => series_of(sport) is None,
        },
{
    match sport {
        Sport::Nfl => Some("KXNFLGAME"),
        Sport::Nba => Some("KXNBAGAME"),
        Sport::Wnba => Some("KXWNBAGAME"),
        Sport::Mlb => Some("KXMLBGAME"),
        Sport::Tennis => None,
    }
}

/// Where a page of a series is.
pub fn series_url(base: &str, series: &str, cursor: &str) -> (result: String)
    ensures
        result@ == base@ + "/markets?limit="@ + digits(PAGE_LIMIT as nat)
            + "&status=open&series_ticker="@ + series@ + if cursor@.len() == 0 {
            Seq::<char>::empty()
        } else {
            "&cursor="@ + cursor@
        },
{
    let first = concat5(
        base,
        "/markets?limit=",
        natural(PAGE_LIMIT as u128).as_str(),
        "&status=open&series_ticker=",
        series,
    );
    if cursor.unicode_len() == 0 {
        assert(first@ =~= first@ + Seq::<char>::empty());
        first
    } else {
        let rest = concat2("&cursor=", cursor);
        concat2(first.as_str(), rest.as_str())
    }
}

/// The cursor of the next page, if there is one: it must say something new.
pub fn next_cursor(current: &str, next: &Option<String>) -> (result: Option<String>)
    ensures
        crate::text::text_of(result) == match crate::text::text_of(*next) {
            Some(n) => if n.len() > 0 && n != current@ {
                Some(n)
            } else {
                None
            },
            None => None,
        },
{
    match next {
        Some(n) => if n.as_str().unicode_len() > 0 && !same(n.as_str(), current) {
            Some(owned(n.as_str()))
        } else {
            None
        },
        None => None,
    }
}

/// What is wrong with a series that has too many pages.
pub fn too_many_pages(series: &str) -> (result: Error)
    ensures
        result@ == (Failure::Source {
            source_id: "kalshi"@,
            message: series@ + ": pagination exceeded "@ + digits(MAX_PAGES as nat) + " pages"@,
        }),
{
    Error::Source {
        source_id: owned("kalshi"),
        message: crate::text::concat4(
            series,
            ": pagination exceeded ",
            natural(MAX_PAGES as u128).as_str(),
            " pages",
        ),
    }
}

/// A price in dollars, if it is one.
pub open spec fn dollars(value: Option<String>) -> Option<Dec> {
    match value {
        Some(text) => match exact_decimal_text(trimmed(text@)) {
            Ok((m, s)) => Some(dec(m, s)),
            Err(_) => None,
        },
        None => None,
    }
}

fn parse_dollars(value: &Option<String>) -> (result: Option<Decimal>)
    ensures
        crate::decimal::dec_of(result) == dollars(*value),
{
    match value {
        Some(text) => match parse_exact(trim(text.as_str()).as_str()) {
            Ok(d) => Some(d),
            Err(_) => None,
        },
        None => None,
    }
}

/// The YES ask of a market whose book is real: both sides quoted, the ask
/// strictly between zero and one, and no more than six cents above the bid.
pub open spec fn real_ask(market: ApiMarket) -> Option<Dec> {
    match (dollars(market.yes_bid_dollars), dollars(market.yes_ask_dollars)) {
        (Some(bid), Some(ask)) => if ask.le(zero()) || one().le(ask) || bid.le(zero()) {
            None
        } else {
            match difference(ask, bid) {
                Some(spread) => if dec(6, 2).lt(spread) {
                    None
                } else {
                    Some(ask)
                },
                None => None,
            }
        },
        _ => None,
    }
}

fn liquid_ask(market: &ApiMarket) -> (result: Option<Decimal>)
    ensures
        crate::decimal::dec_of(result) == real_ask(*market),
{
    let bid = parse_dollars(&market.yes_bid_dollars)?;
    let ask = parse_dollars(&market.yes_ask_dollars)?;
    let nil = Decimal::zero();
    if ask.at_most(nil) || Decimal::one().at_most(ask) || bid.at_most(nil) {
        return None;
    }
    let spread = ask.checked_sub(bid)?;
    if Decimal::new(6, 2).less(spread) {
        None
    } else {
        Some(ask)
    }
}

pub open spec fn month_names() -> Seq<Seq<char>> {
    seq![
        "Jan"@,
        "Feb"@,
        "Mar"@,
        "Apr"@,
        "May"@,
        "Jun"@,
        "Jul"@,
        "Aug"@,
        "Sep"@,
        "Oct"@,
        "Nov"@,
        "Dec"@,
    ]
}

/// The place of a name among some, from place `from` on, whatever the case.
pub open spec fn name_at(names: Seq<Seq<char>>, name: Seq<char>, from: int) -> Option<int>
    decreases names.len() - from,
{
    if from >= names.len() {
        None
    } else if same_ignoring_case(name, names[from]) {
        Some(from)
    } else {
        name_at(names, name, from + 1)
    }
}

/// The number of a month by its short name, whatever the case.
pub open spec fn month_of(name: Seq<char>) -> Option<int> {
    match name_at(month_names(), name, 0) {
        Some(i) => Some(i + 1),
        None => None,
    }
}

pub fn month_from_abbrev(name: &str) -> (result: Option<u32>)
    ensures
        match result {
            Some(n) => month_of(name@) == Some(n as int) && 1 <= n <= 12,
            None => month_of(name@) is None,
        },
{
    let names: [&'static str; 12] = [
        "Jan",
        "Feb",
        "Mar",
        "Apr",
        "May",
        "Jun",
        "Jul",
        "Aug",
        "Sep",
        "Oct",
        "Nov",
        "Dec",
    ];
    let ghost all = names@.map_values(|t: &'static str| t@);
    assert(all =~= month_names());
    let mut i: usize = 0;
    while i < 12
        invariant
            i <= 12,
            all == names@.map_values(|t: &'static str| t@),
            all == month_names(),
            all.len() == 12,
            name_at(all, name@, 0) == name_at(all, name@, i as int),
        decreases 12 - i,
    {
        assert(all[i as int] == names@[i as int]@);
        if same_any_case(name, names[i]) {
            return Some(i as u32 + 1);
        }
        i = i + 1;
    }
    None
}

/// The day number of the n-th Sunday of a month. Day numbers count from a
/// Monday, so the multiples of seven are Sundays.
pub open spec fn sunday(year: int, month: int, n: int) -> Option<int> {
    match day_number(year, month, 1) {
        Some(first) => Some(first + (7 - first % 7) % 7 + 7 * (n - 1)),
        None => None,
    }
}

/// Daylight saving in the United States: from the second Sunday of March to the
/// first Sunday of November.
pub open spec fn in_dst(year: int, day: int) -> bool {
    match (sunday(year, 3, 2), sunday(year, 11, 1)) {
        (Some(start), Some(end)) => start <= day < end,
        _ => false,
    }
}

fn nth_sunday(year: i32, month: u32, n: i64) -> (result: Option<i64>)
    requires
        1 <= n <= 5,
    ensures
        match result {
            Some(day) => sunday(year as int, month as int, n as int) == Some(day as int),
            None => sunday(year as int, month as int, n as int) is None,
        },
{
    match civil_day(year, month, 1) {
        Some(first) => {
            let day: i128 = first as i128;
            let weekday: i128 = day - 7 * crate::time::floor_div(day, 7);
            let to_sunday: i128 = if weekday == 0 {
                0
            } else {
                7 - weekday
            };
            assert(weekday == first as int % 7);
            assert(to_sunday == (7 - weekday) % 7);
            Some((day + to_sunday + 7 * (n as i128 - 1)) as i64)
        },
        None => None,
    }
}

fn day_in_dst(year: i32, day: i64) -> (result: bool)
    ensures
        result == in_dst(year as int, day as int),
{
    match (nth_sunday(year, 3, 2), nth_sunday(year, 11, 1)) {
        (Some(start), Some(end)) => start <= day && day < end,
        _ => false,
    }
}

/// Whether daylight saving is in force on a date in the United States; not on
/// one that is no date.
pub fn is_us_dst(year: i32, month: u32, day: u32) -> (result: bool)
    ensures
        result == match day_number(year as int, month as int, day as int) {
            Some(number) => in_dst(year as int, number),
            None => false,
        },
{
    match civil_day(year, month, day) {
        Some(number) => day_in_dst(year, number as i64),
        None => false,
    }
}

/// The second Sunday of March is at least a week into it, and a Sunday: the
/// start of daylight saving lies between the eighth and the fourteenth.
pub proof fn dst_starts_on_the_second_sunday(year: int)
    ensures
        sunday(year, 3, 2) matches Some(day) ==> day % 7 == 0 && {
            let first = day_number(year, 3, 1)->0;
            first + 7 <= day <= first + 13
        },
{
}

/// Daylight saving is in force from April to October, and not from December to
/// February.
pub proof fn summers_are_saved_and_winters_are_not(year: int, month: int, day: int)
    requires
        day_number(year, month, day) is Some,
    ensures
        4 <= month <= 10 ==> in_dst(year, day_number(year, month, day)->0),
        month <= 2 || month == 12 ==> !in_dst(year, day_number(year, month, day)->0),
{
    lemma_months(year);
}

/// Hours that New York is behind UTC: what the zone says, else the rule.
pub open spec fn hours_behind(zone: Option<Seq<char>>, year: int, day: int) -> int {
    if zone == Some("EDT"@) {
        4
    } else if zone == Some("EST"@) {
        5
    } else if in_dst(year, day) {
        4
    } else {
        5
    }
}

/// A time of day in New York as an instant, in nanoseconds since the epoch.
pub open spec fn new_york(
    year: int,
    day: int,
    hour: int,
    minute: int,
    zone: Option<Seq<char>>,
) -> int {
    ((day - EPOCH_DAY) * 86_400 + (hour + hours_behind(zone, year, day)) * 3_600 + minute * 60)
        * NANOS_PER_SECOND
}

/// The hour of the day that a clock with two halves shows.
pub open spec fn hour_of(half: Seq<char>, hour: int) -> Option<int> {
    if half == "AM"@ && hour == 12 {
        Some(0)
    } else if half == "AM"@ && hour < 12 {
        Some(hour)
    } else if half == "PM"@ && hour == 12 {
        Some(12)
    } else if half == "PM"@ && hour < 12 {
        Some(hour + 12)
    } else {
        None
    }
}

/// A number that fits in 32 bits.
pub open spec fn small_number(text: Seq<char>, most: int) -> Option<int> {
    match number_in(text) {
        Some(n) => if n <= most {
            Some(n)
        } else {
            None
        },
        None => None,
    }
}

/// A date and what follows it.
pub struct Dated {
    pub year: int,
    pub day: int,
    pub rest: Seq<char>,
}

/// `Sep 14, 2026 at 9:40 PM EDT, then ...`: the date, and what follows the year.
pub open spec fn date_in(text: Seq<char>) -> Option<Dated> {
    match split_once_at(text, ","@) {
        None => None,
        Some((month_day, after)) => {
            let parts = words(month_day);
            let tail = trimmed_start(after);
            let n = leading_digits(tail);
            if parts.len() < 2 {
                None
            } else {
                match (
                    month_of(parts[0]),
                    small_number(parts[1], u32::MAX as int),
                    small_number(tail.take(n), i32::MAX as int),
                ) {
                    (Some(month), Some(day), Some(year)) => match day_number(year, month, day) {
                        Some(number) => Some(Dated { year, day: number, rest: tail.skip(n) }),
                        None => None,
                    },
                    _ => None,
                }
            }
        },
    }
}

/// Everything before the first comma.
pub open spec fn before_comma(text: Seq<char>) -> Seq<char> {
    match split_once_at(text, ","@) {
        Some((front, _)) => front,
        None => text,
    }
}

/// `9:40 PM EDT` on a date, as an instant.
pub open spec fn clock_in(text: Seq<char>, date: Dated) -> Option<int> {
    let parts = words(before_comma(text));
    if parts.len() < 2 {
        None
    } else {
        match split_once_at(parts[0], ":"@) {
            None => None,
            Some((h, m)) => match (
                small_number(h, u32::MAX as int),
                small_number(m, u32::MAX as int),
            ) {
                (Some(hour), Some(minute)) => match hour_of(parts[1], hour) {
                    Some(hour) => if minute >= 60 {
                        None
                    } else {
                        let zone = if parts.len() > 2 && (parts[2] == "EDT"@ || parts[2]
                            == "EST"@) {
                            Some(parts[2])
                        } else {
                            None
                        };
                        Some(new_york(date.year, date.day, hour, minute, zone))
                    },
                    None => None,
                },
                _ => None,
            },
        }
    }
}

/// What follows the words that announce the schedule.
pub open spec fn schedule_in(rules: Seq<char>) -> Option<Seq<char>> {
    match split_once_at(rules, "originally scheduled for "@) {
        Some((_, rest)) => Some(rest),
        None => match split_once_at(rules, "scheduled for "@) {
            Some((_, rest)) => Some(rest),
            None => None,
        },
    }
}

/// The scheduled start in the rules text, and how far a match may be off: a
/// quarter of an hour where a clock time is given, else the whole day around
/// noon.
pub open spec fn start_in(rules: Seq<char>) -> Option<(int, int)> {
    match schedule_in(rules) {
        None => None,
        Some(text) => match date_in(text) {
            None => None,
            Some(date) => if has_prefix(date.rest, " at "@) {
                match clock_in(date.rest.skip(" at "@.len() as int), date) {
                    Some(instant) => Some((instant, DEFAULT_START_TIME_TOLERANCE_MINUTES as int)),
                    None => None,
                }
            } else {
                Some(
                    (
                        new_york(date.year, date.day, 12, 0, None),
                        DATE_ONLY_TOLERANCE_MINUTES as int,
                    ),
                )
            },
        },
    }
}

fn eastern_to_utc(year: i32, day: i32, hour: u64, minute: u64, zone: &Option<String>) -> (result:
    Timestamp)
    requires
        hour < 24,
        minute < 60,
    ensures
        result@ == new_york(
            year as int,
            day as int,
            hour as int,
            minute as int,
            crate::text::text_of(*zone),
        ),
{
    let behind: i128 = match zone {
        Some(z) if same(z.as_str(), "EDT") => 4,
        Some(z) if same(z.as_str(), "EST") => 5,
        _ => if day_in_dst(year, day as i64) {
            4
        } else {
            5
        },
    };
    let seconds: i128 = (day as i128 - EPOCH_DAY) * 86_400 + (hour as i128 + behind) * 3_600
        + minute as i128 * 60;
    Timestamp::exactly(seconds * NANOS_PER_SECOND)
}

fn read_date(text: &str) -> (result: Option<(i32, i32, String)>)
    ensures
        match result {
            Some((year, day, rest)) => date_in(text@) == Some(
                Dated { year: year as int, day: day as int, rest: rest@ },
            ),
            None => date_in(text@) is None,
        },
{
    let (month_day, after) = split_once(text, ",")?;
    let parts = split_words(month_day.as_str());
    let ghost named = words(month_day@);
    if parts.len() < 2 {
        assert(named.len() < 2);
        return None;
    }
    assert(named[0] == parts@[0]@ && named[1] == parts@[1]@);
    let month: u32 = month_from_abbrev(parts[0].as_str())?;
    let day: u64 = parse_natural(parts[1].as_str(), 0xffff_ffff)?;
    let tail = trim_start(after.as_str());
    let (year_text, rest) = split_leading_digits(tail.as_str());
    let year: u64 = parse_natural(year_text.as_str(), 0x7fff_ffff)?;
    let number: i32 = civil_day(year as i32, month, day as u32)?;
    Some((year as i32, number, rest))
}

fn read_clock(text: &str, year: i32, day: i32, Ghost(date): Ghost<Dated>) -> (result: Option<
    Timestamp,
>)
    requires
        date.year == year,
        date.day == day,
    ensures
        crate::time::instant_of(result) == clock_in(text@, date),
{
    let clock = match split_once(text, ",") {
        Some((front, _)) => front,
        None => owned(text),
    };
    let parts = split_words(clock.as_str());
    let ghost named = words(before_comma(text@));
    assert(texts(parts@) == named);
    if parts.len() < 2 {
        assert(named.len() < 2);
        return None;
    }
    assert(named[0] == parts@[0]@ && named[1] == parts@[1]@);
    let (h, m) = split_once(parts[0].as_str(), ":")?;
    let shown: u64 = parse_natural(h.as_str(), 0xffff_ffff)?;
    let minute: u64 = parse_natural(m.as_str(), 0xffff_ffff)?;
    let half = parts[1].as_str();
    let morning = same(half, "AM");
    let evening = same(half, "PM");
    let hour: u64 = if morning && shown == 12 {
        0
    } else if morning && shown < 12 {
        shown
    } else if evening && shown == 12 {
        12
    } else if evening && shown < 12 {
        shown + 12
    } else {
        return None;
    };
    if minute >= 60 {
        return None;
    }
    let zone: Option<String> = if parts.len() > 2 && (same(parts[2].as_str(), "EDT") || same(
        parts[2].as_str(),
        "EST",
    )) {
        Some(owned(parts[2].as_str()))
    } else {
        None
    };
    proof {
        if parts@.len() > 2 {
            assert(named[2] == parts@[2]@);
        }
    }
    Some(eastern_to_utc(year, day, hour, minute, &zone))
}

/// The scheduled start in the rules text, e.g. `... originally scheduled for
/// Sep 14, 2026 at 9:40 PM EDT, then ...`, with the matcher's tolerance.
pub fn parse_start_time(rules: &str) -> (result: Option<(Timestamp, i64)>)
    ensures
        match result {
            Some((start, minutes)) => start_in(rules@) == Some((start@, minutes as int)),
            None => start_in(rules@) is None,
        },
{
    let text = match split_once(rules, "originally scheduled for ") {
        Some((_, rest)) => rest,
        None => match split_once(rules, "scheduled for ") {
            Some((_, rest)) => rest,
            None => {
                return None;
            },
        },
    };
    let (year, day, rest) = read_date(text.as_str())?;
    let ghost date = Dated { year: year as int, day: day as int, rest: rest@ };
    match strip_prefix(rest.as_str(), " at ") {
        Some(clock) => {
            let start = read_clock(clock.as_str(), year, day, Ghost(date))?;
            Some((start, DEFAULT_START_TIME_TOLERANCE_MINUTES))
        },
        None => Some(
            (eastern_to_utc(year, day, 12, 0, &None), DATE_ONLY_TOLERANCE_MINUTES),
        ),
    }
}

/// When either side last moved, if that is known.
pub open spec fn moved_at(a: ApiMarket, b: ApiMarket) -> Option<int> {
    match (rfc3339(a.updated_time@), rfc3339(b.updated_time@)) {
        (Ok(x), Ok(y)) => Some(
            if x >= y {
                x
            } else {
                y
            },
        ),
        (Ok(x), Err(_)) => Some(x),
        (Err(_), Ok(y)) => Some(y),
        (Err(_), Err(_)) => None,
    }
}

/// The quote of an event with two real markets, a start and a time stamp.
pub open spec fn event_quote(
    sport: Sport,
    event_ticker: Seq<char>,
    markets: Seq<ApiMarket>,
    fetched_at: int,
) -> Option<Quote> {
    if markets.len() != 2 {
        None
    } else {
        let a = markets[0];
        let b = markets[1];
        match (real_ask(a), real_ask(b), start_in(a.rules_primary@), moved_at(a, b)) {
            (Some(ask_a), Some(ask_b), Some((start_time, minutes)), Some(source_timestamp)) => match (
                quotient(one(), ask_a),
                quotient(one(), ask_b),
            ) {
                (Some(decimal_odds_a), Some(decimal_odds_b)) => Some(
                    Quote {
                        source_id: "kalshi"@,
                        family: Family::Kalshi,
                        sport,
                        event_id: event_ticker,
                        participant_a: trimmed(a.yes_sub_title@),
                        participant_b: trimmed(b.yes_sub_title@),
                        participant_a_provider_ids: one_id("kalshi"@, a.ticker@),
                        participant_b_provider_ids: one_id("kalshi"@, b.ticker@),
                        start_time,
                        start_time_tolerance_minutes: minutes,
                        decimal_odds_a,
                        decimal_odds_b,
                        decimal_odds_neutral: None,
                        source_timestamp,
                        fetched_at,
                        parser_version: "kalshi-v2-markets"@,
                        validation_only: false,
                    },
                ),
                _ => None,
            },
            _ => None,
        }
    }
}

fn read_updated(text: &str) -> (result: Option<Timestamp>)
    ensures
        match result {
            Some(t) => rfc3339(text@) == Ok::<int, Seq<char>>(t@),
            None => rfc3339(text@) is Err,
        },
{
    match parse_rfc3339(text) {
        Ok(t) => Some(t),
        Err(_) => None,
    }
}

fn normalize_event(
    sport: Sport,
    event_ticker: &str,
    a: &ApiMarket,
    b: &ApiMarket,
    fetched_at: Timestamp,
) -> (result: Option<SourceQuote>)
    ensures
        some_quote(result) == event_quote(sport, event_ticker@, seq![*a, *b], fetched_at@),
{
    let ask_a = liquid_ask(a)?;
    let ask_b = liquid_ask(b)?;
    let (start_time, start_time_tolerance_minutes) = parse_start_time(a.rules_primary.as_str())?;
    let source_timestamp = match (
        read_updated(a.updated_time.as_str()),
        read_updated(b.updated_time.as_str()),
    ) {
        (Some(x), Some(y)) => x.later(y),
        (Some(x), None) => x,
        (None, Some(y)) => y,
        (None, None) => {
            return None;
        },
    };
    let decimal_odds_a = Decimal::one().checked_div(ask_a)?;
    let decimal_odds_b = Decimal::one().checked_div(ask_b)?;
    Some(
        SourceQuote {
            source_id: owned("kalshi"),
            family: SourceFamily::Kalshi,
            sport,
            event_id: owned(event_ticker),
            participant_a: trim(a.yes_sub_title.as_str()),
            participant_b: trim(b.yes_sub_title.as_str()),
            participant_a_provider_ids: single_id("kalshi", a.ticker.as_str()),
            participant_b_provider_ids: single_id("kalshi", b.ticker.as_str()),
            start_time,
            start_time_tolerance_minutes,
            decimal_odds_a,
            decimal_odds_b,
            decimal_odds_neutral: None,
            source_timestamp,
            fetched_at,
            parser_version: owned("kalshi-v2-markets"),
            validation_only: false,
        },
    )
}

pub open spec fn is_active(market: ApiMarket) -> bool {
    market.status@ == "active"@
}

/// The active markets of an event, in their order.
pub open spec fn event_members(markets: Seq<ApiMarket>, event_ticker: Seq<char>) -> Seq<ApiMarket> {
    markets.filter(|m: ApiMarket| is_active(m) && m.event_ticker@ == event_ticker)
}

/// The events with active markets, each once.
pub open spec fn event_tickers(markets: Seq<ApiMarket>) -> Seq<Seq<char>>
    decreases markets.len(),
{
    if markets.len() == 0 {
        seq![]
    } else {
        let front = event_tickers(markets.drop_last());
        let last = markets.last();
        if is_active(last) && !front.contains(last.event_ticker@) {
            front.push(last.event_ticker@)
        } else {
            front
        }
    }
}

/// One quote for each event that has one, in the order of the tickers.
pub open spec fn quotes_from(sport: Sport, markets: Seq<ApiMarket>, fetched_at: int) -> Seq<Quote> {
    kept(
        sorted(event_tickers(markets), by_text()),
        |ticker: Seq<char>|
            event_quote(sport, ticker, event_members(markets, ticker), fetched_at),
    )
}

fn has_text(list: &Vec<String>, text: &str) -> (result: bool)
    ensures
        result == texts(list@).contains(text@),
{
    let mut i: usize = 0;
    while i < list.len()
        invariant
            i <= list@.len(),
            forall|j: int| 0 <= j < i ==> texts(list@)[j] != text@,
        decreases list@.len() - i,
    {
        if same(list[i].as_str(), text) {
            assert(texts(list@)[i as int] == text@);
            return true;
        }
        i = i + 1;
    }
    false
}

fn list_events(markets: &Vec<ApiMarket>) -> (result: Vec<String>)
    ensures
        texts(result@) == event_tickers(markets@),
{
    let mut out: Vec<String> = Vec::new();
    let mut i: usize = 0;
    while i < markets.len()
        invariant
            i <= markets@.len(),
            texts(out@) == event_tickers(markets@.take(i as int)),
        decreases markets@.len() - i,
    {
        proof {
            take_next(markets@, i as int);
        }
        if same(markets[i].status.as_str(), "active") && !has_text(
            &out,
            markets[i].event_ticker.as_str(),
        ) {
            out.push(owned(markets[i].event_ticker.as_str()));
        }
        i = i + 1;
    }
    out
}

fn list_members(markets: &Vec<ApiMarket>, event_ticker: &str) -> (result: Vec<usize>)
    ensures
        forall|k: int| 0 <= k < result@.len() ==> (#[trigger] result@[k]) < markets@.len(),
        result@.map_values(|k: usize| markets@[k as int]) == event_members(
            markets@,
            event_ticker@,
        ),
{
    let ghost keep = |m: ApiMarket| is_active(m) && m.event_ticker@ == event_ticker@;
    let mut out: Vec<usize> = Vec::new();
    let mut i: usize = 0;
    while i < markets.len()
        invariant
            i <= markets@.len(),
            keep == (|m: ApiMarket| is_active(m) && m.event_ticker@ == event_ticker@),
            forall|k: int| 0 <= k < out@.len() ==> (#[trigger] out@[k]) < i,
            out@.map_values(|k: usize| markets@[k as int]) == markets@.take(i as int).filter(keep),
        decreases markets@.len() - i,
    {
        proof {
            filter_next(markets@, keep, i as int);
        }
        if same(markets[i].status.as_str(), "active") && same(
            markets[i].event_ticker.as_str(),
            event_ticker,
        ) {
            out.push(i);
        }
        i = i + 1;
    }
    out
}

/// Groups markets by event and gives one quote for each two-sided, liquid event.
pub fn normalize_markets(sport: Sport, markets: &Vec<ApiMarket>, fetched_at: Timestamp) -> (result:
    Vec<SourceQuote>)
    ensures
        source_quote_views(result@) == quotes_from(sport, markets@, fetched_at@),
{
    let events = sort_texts(list_events(markets));
    let ghost named = texts(events@);
    let ghost f = |ticker: Seq<char>|
        event_quote(sport, ticker, event_members(markets@, ticker), fetched_at@);
    let mut out: Vec<SourceQuote> = Vec::new();
    let mut i: usize = 0;
    while i < events.len()
        invariant
            i <= events@.len(),
            named == texts(events@),
            f == (|ticker: Seq<char>|
                event_quote(sport, ticker, event_members(markets@, ticker), fetched_at@)),
            source_quote_views(out@) == kept(named.take(i as int), f),
        decreases events@.len() - i,
    {
        proof {
            kept_next(named, f, i as int);
        }
        let members = list_members(markets, events[i].as_str());
        let ghost inside = event_members(markets@, named[i as int]);
        assert(inside.len() == members@.len());
        if members.len() == 2 {
            assert(inside =~= seq![
                markets@[members@[0] as int],
                markets@[members@[1] as int],
            ]);
            match normalize_event(
                sport,
                events[i].as_str(),
                &markets[members[0]],
                &markets[members[1]],
                fetched_at,
            ) {
                Some(quote) => {
                    out.push(quote);
                },
                None => {},
            }
        }
        i = i + 1;
    }
    out
}

} // verus!
