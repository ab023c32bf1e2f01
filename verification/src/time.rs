//! Instants on the UTC time line.

use chrono::Datelike;
use vstd::prelude::*;

use crate::text::{all_digits, digits_value};

verus! {

pub const NANOS_PER_SECOND: i128 = 1_000_000_000;

/// Farthest an instant can lie from the epoch, in nanoseconds: about 31 million
/// years.
pub const INSTANT_LIMIT: i128 = 1_000_000_000_000_000_000_000_000;

/// Quotient rounded toward zero, for `b > 0`.
pub open spec fn trunc_div(a: int, b: int) -> int {
    if a >= 0 {
        a / b
    } else {
        -((-a) / b)
    }
}

/// A span of seconds as signed clock arithmetic counts it: one beyond the
/// largest signed span wraps below zero.
pub open spec fn signed(seconds: int) -> int {
    if seconds <= i64::MAX {
        seconds
    } else {
        seconds - 0x1_0000_0000_0000_0000
    }
}

/// A span of seconds as signed clock arithmetic counts it.
pub fn signed_seconds(seconds: u64) -> (result: i64)
    ensures
        result == signed(seconds as int),
{
    if seconds <= 0x7fff_ffff_ffff_ffff {
        seconds as i64
    } else {
        (seconds as i128 - 0x1_0000_0000_0000_0000) as i64
    }
}

/// An instant: nanoseconds since the start of 1970, UTC.
#[derive(Clone, Copy, Debug, PartialEq, Eq)]
pub struct Timestamp {
    nanos: i128,
}

impl View for Timestamp {
    type V = int;

    closed spec fn view(&self) -> int {
        self.nanos as int
    }
}

/// The instant inside an optional one.
pub open spec fn instant_of(t: Option<Timestamp>) -> Option<int> {
    match t {
        Some(t) => Some(t@),
        None => None,
    }
}

impl Timestamp {
    #[verifier::type_invariant]
    spec fn bounded(self) -> bool {
        -INSTANT_LIMIT <= self.nanos <= INSTANT_LIMIT
    }

    /// The instant `nanos` nanoseconds after the epoch, if it is near enough.
    pub fn from_nanos(nanos: i128) -> (result: Option<Timestamp>)
        ensures
            result is Some <==> -INSTANT_LIMIT <= nanos <= INSTANT_LIMIT,
            result matches Some(t) ==> t@ == nanos,
    {
        if -INSTANT_LIMIT <= nanos && nanos <= INSTANT_LIMIT {
            Some(Timestamp { nanos })
        } else {
            None
        }
    }

    /// The instant `seconds` after the epoch, if it is near enough.
    pub fn from_seconds(seconds: i64) -> (result: Option<Timestamp>)
        ensures
            result is Some <==> -INSTANT_LIMIT <= seconds * NANOS_PER_SECOND <= INSTANT_LIMIT,
            result matches Some(t) ==> t@ == seconds * NANOS_PER_SECOND,
    {
        Timestamp::from_nanos(seconds as i128 * NANOS_PER_SECOND)
    }

    pub(crate) fn exactly(nanos: i128) -> (result: Timestamp)
        requires
            -INSTANT_LIMIT <= nanos <= INSTANT_LIMIT,
        ensures
            result@ == nanos,
    {
        Timestamp { nanos }
    }

    pub fn nanos(&self) -> (result: i128)
        ensures
            result == self@,
            -INSTANT_LIMIT <= result <= INSTANT_LIMIT,
    {
        proof {
            use_type_invariant(self);
        }
        self.nanos
    }

    /// Whole seconds since the epoch, toward the past.
    pub fn seconds(&self) -> (result: i64)
        ensures
            result == self@ / (NANOS_PER_SECOND as int),
    {
        proof {
            use_type_invariant(self);
        }
        floor_div(self.nanos, NANOS_PER_SECOND) as i64
    }

    /// Whole seconds from `earlier` to this instant, toward zero.
    pub fn seconds_since(&self, earlier: Timestamp) -> (result: i128)
        ensures
            result == trunc_div(self@ - earlier@, NANOS_PER_SECOND as int),
            -2 * INSTANT_LIMIT <= result <= 2 * INSTANT_LIMIT,
    {
        proof {
            use_type_invariant(self);
            use_type_invariant(&earlier);
        }
        truncated(self.nanos - earlier.nanos, NANOS_PER_SECOND)
    }

    /// Nanoseconds from `earlier` to this instant.
    pub fn nanos_since(&self, earlier: Timestamp) -> (result: i128)
        ensures
            result == self@ - earlier@,
            -2 * INSTANT_LIMIT <= result <= 2 * INSTANT_LIMIT,
    {
        proof {
            use_type_invariant(self);
            use_type_invariant(&earlier);
        }
        self.nanos - earlier.nanos
    }

    /// Whole minutes from `earlier` to this instant, toward zero.
    pub fn minutes_since(&self, earlier: Timestamp) -> (result: i128)
        ensures
            result == trunc_div(self@ - earlier@, 60 * NANOS_PER_SECOND as int),
            -2 * INSTANT_LIMIT <= result <= 2 * INSTANT_LIMIT,
    {
        proof {
            use_type_invariant(self);
            use_type_invariant(&earlier);
        }
        truncated(self.nanos - earlier.nanos, 60 * NANOS_PER_SECOND)
    }

    /// Whether this instant is strictly before `other`.
    pub fn before(&self, other: Timestamp) -> (result: bool)
        ensures
            result == (self@ < other@),
    {
        self.nanos < other.nanos
    }

    /// The later of the two.
    pub fn later(self, other: Timestamp) -> (result: Timestamp)
        ensures
            result@ == if self@ >= other@ {
                self@
            } else {
                other@
            },
    {
        if self.nanos >= other.nanos {
            self
        } else {
            other
        }
    }
}

/// The largest integer not above `a / b`.
pub fn floor_div(a: i128, b: i128) -> (result: i128)
    requires
        b > 0,
        -4 * INSTANT_LIMIT <= a <= 4 * INSTANT_LIMIT,
    ensures
        result == (a as int) / (b as int),
{
    if a >= 0 {
        assert(0 <= a / b <= a) by (nonlinear_arith)
            requires
                a >= 0,
                b > 0,
        ;
        a / b
    } else {
        let k: i128 = -a;
        let q: i128 = k / b;
        let r: i128 = k % b;
        proof {
            vstd::arithmetic::div_mod::lemma_fundamental_div_mod(k as int, b as int);
            assert(0 <= q <= k) by (nonlinear_arith)
                requires
                    q == k / b,
                    k >= 0,
                    b > 0,
            ;
        }
        if r == 0 {
            proof {
                assert((-q) * (b as int) == a) by (nonlinear_arith)
                    requires
                        a == -k,
                        k == b * q,
                ;
                vstd::arithmetic::div_mod::lemma_fundamental_div_mod_converse(
                    a as int,
                    b as int,
                    -q as int,
                    0,
                );
            }
            -q
        } else {
            proof {
                assert((-q - 1) * (b as int) + (b - r) == a) by (nonlinear_arith)
                    requires
                        a == -k,
                        k == b * q + r,
                ;
                vstd::arithmetic::div_mod::lemma_fundamental_div_mod_converse(
                    a as int,
                    b as int,
                    (-q - 1) as int,
                    (b - r) as int,
                );
            }
            -q - 1
        }
    }
}

/// `a / b` rounded toward zero.
pub fn truncated(a: i128, b: i128) -> (result: i128)
    requires
        b > 0,
        -4 * INSTANT_LIMIT <= a <= 4 * INSTANT_LIMIT,
    ensures
        result == trunc_div(a as int, b as int),
        a >= 0 ==> 0 <= result <= a,
        a < 0 ==> a <= result <= 0,
{
    if a >= 0 {
        assert(0 <= a / b <= a) by (nonlinear_arith)
            requires
                a >= 0,
                b > 0,
        ;
        a / b
    } else {
        let k: i128 = -a;
        assert(0 <= k / b <= k) by (nonlinear_arith)
            requires
                k >= 0,
                b > 0,
        ;
        -(k / b)
    }
}

/// The number that some characters of a text are.
pub open spec fn number_at(text: Seq<char>, from: int, to: int) -> Option<int> {
    if 0 <= from < to <= text.len() && all_digits(text.subrange(from, to)) {
        Some(digits_value(text.subrange(from, to)))
    } else {
        None
    }
}

/// The day number of a date written as four digits, two and two, with hyphens
/// between.
pub open spec fn plain_date(text: Seq<char>) -> Option<int> {
    match (number_at(text, 0, 4), number_at(text, 5, 7), number_at(text, 8, 10)) {
        (Some(year), Some(month), Some(day)) => if text.len() == 10 && text[4] == '-' && text[7]
            == '-' {
            day_number(year, month, day)
        } else {
            None
        },
        _ => None,
    }
}

/// The second of the day of a time written as three times two digits, with
/// colons between.
pub open spec fn plain_time(text: Seq<char>) -> Option<int> {
    match (number_at(text, 0, 2), number_at(text, 3, 5), number_at(text, 6, 8)) {
        (Some(hour), Some(minute), Some(second)) => if text.len() == 8 && text[2] == ':' && text[5]
            == ':' && hour < 24 && minute < 60 && second < 60 {
            Some(hour * 3600 + minute * 60 + second)
        } else {
            None
        },
        _ => None,
    }
}

/// The seconds since the epoch of a date and a time with a separator between.
pub open spec fn plain_instant(text: Seq<char>, separator: char) -> Option<int> {
    if text.len() == 19 && text[10] == separator {
        match (plain_date(text.take(10)), plain_time(text.skip(11))) {
            (Some(day), Some(second)) => Some((day - EPOCH_DAY) * 86_400 + second),
            _ => None,
        }
    } else {
        None
    }
}

/// What `chrono` reads any other RFC 3339 text as: seconds since the epoch with
/// the nanoseconds behind them, or the words of its complaint.
pub uninterp spec fn other_rfc3339(text: Seq<char>) -> Result<(int, int), Seq<char>>;

/// The seconds since the epoch of a date and a time in UTC in the plain form.
pub open spec fn plain_utc(text: Seq<char>) -> Option<int> {
    if text.len() == 20 && text[19] == 'Z' {
        plain_instant(text.take(19), 'T')
    } else {
        None
    }
}

/// An RFC 3339 text as seconds since the epoch with the nanoseconds behind
/// them, or the words of a complaint.
pub open spec fn rfc3339_parts(text: Seq<char>) -> Result<(int, int), Seq<char>> {
    match plain_utc(text) {
        Some(seconds) => Ok((seconds, 0)),
        None => other_rfc3339(text),
    }
}

/// `chrono::DateTime::parse_from_rfc3339`. A date and a time in the plain form
/// `2026-09-13T17:00:00Z` gives that second in UTC. What any other text gives,
/// an instant or an error as `chrono` words it, only has a name here; no year
/// of `chrono` lies beyond the bounds stated.
#[verifier::external_body]
fn chrono_rfc3339(text: &str) -> (result: Result<(i64, u32), String>)
    ensures
        match result {
            Ok((seconds, nanos)) => {
                &&& -9_000_000_000_000 < seconds < 9_000_000_000_000 && nanos < 2_000_000_000
                &&& match plain_utc(text@) {
                    Some(second) => seconds == second && nanos == 0,
                    None => other_rfc3339(text@) == Ok::<(int, int), Seq<char>>(
                        (seconds as int, nanos as int),
                    ),
                }
            },
            Err(message) => plain_utc(text@) is None && other_rfc3339(text@) == Err::<
                (int, int),
                Seq<char>,
            >(message@),
        },
{
    match chrono::DateTime::parse_from_rfc3339(text) {
        Ok(t) => Ok((t.timestamp(), t.timestamp_subsec_nanos())),
        Err(error) => Err(error.to_string()),
    }
}

/// The instant that an RFC 3339 text stands for, or the words of the error.
pub open spec fn rfc3339(text: Seq<char>) -> Result<int, Seq<char>> {
    match rfc3339_parts(text) {
        Ok((seconds, nanos)) => Ok(seconds * NANOS_PER_SECOND + nanos),
        Err(message) => Err(message),
    }
}

/// Reads an RFC 3339 instant; the error is worded by `chrono`.
pub fn parse_rfc3339(text: &str) -> (result: Result<Timestamp, String>)
    ensures
        match result {
            Ok(t) => rfc3339(text@) == Ok::<int, Seq<char>>(t@),
            Err(message) => rfc3339(text@) == Err::<int, Seq<char>>(message@),
        },
{
    match chrono_rfc3339(text) {
        Ok((seconds, nanos)) => Ok(
            Timestamp { nanos: seconds as i128 * NANOS_PER_SECOND + nanos as i128 },
        ),
        Err(message) => Err(message),
    }
}

/// A year with a 29th of February, in the Gregorian calendar.
pub open spec fn leap_year(year: int) -> bool {
    year % 4 == 0 && (year % 100 != 0 || year % 400 == 0)
}

/// How many days a month has.
pub open spec fn month_days(year: int, month: int) -> int {
    if month == 2 {
        if leap_year(year) {
            29
        } else {
            28
        }
    } else if month == 4 || month == 6 || month == 9 || month == 11 {
        30
    } else {
        31
    }
}

/// The days of a year before a month.
pub open spec fn days_before_month(year: int, month: int) -> int
    decreases month,
{
    if month <= 1 {
        0
    } else {
        days_before_month(year, month - 1) + month_days(year, month - 1)
    }
}

/// The days from the first of January of year 1 to that of another year.
pub open spec fn days_before_year(year: int) -> int {
    365 * (year - 1) + (year - 1) / 4 - (year - 1) / 100 + (year - 1) / 400
}

/// The number of a calendar day, the first of January of year 1 being number
/// one; nothing for a day that does not exist, or that lies outside the years
/// the calendar covers.
pub open spec fn day_number(year: int, month: int, day: int) -> Option<int> {
    if -262_143 <= year <= 262_142 && 1 <= month <= 12 && 1 <= day <= month_days(year, month) {
        Some(days_before_year(year) + days_before_month(year, month) + day)
    } else {
        None
    }
}

/// The days that the calendar covers.
pub open spec fn in_calendar(day: int) -> bool {
    days_before_year(-262_143) < day <= days_before_year(262_143)
}

/// The calendar date, as year, month and day, of a day number.
pub open spec fn date_of(day: int) -> (int, int, int) {
    choose|date: (int, int, int)| #[trigger] day_number(date.0, date.1, date.2) == Some(day)
}

/// How many days of a year lie before each month.
pub proof fn lemma_months(year: int)
    ensures
        ({
            let extra: int = if leap_year(year) {
                1
            } else {
                0
            };
            &&& days_before_month(year, 1) == 0
            &&& days_before_month(year, 2) == 31
            &&& days_before_month(year, 3) == 59 + extra
            &&& days_before_month(year, 4) == 90 + extra
            &&& days_before_month(year, 5) == 120 + extra
            &&& days_before_month(year, 6) == 151 + extra
            &&& days_before_month(year, 7) == 181 + extra
            &&& days_before_month(year, 8) == 212 + extra
            &&& days_before_month(year, 9) == 243 + extra
            &&& days_before_month(year, 10) == 273 + extra
            &&& days_before_month(year, 11) == 304 + extra
            &&& days_before_month(year, 12) == 334 + extra
        }),
{
    reveal_with_fuel(days_before_month, 13);
}

/// One more year takes in one more multiple of `k` exactly where it is one.
proof fn lemma_multiples(year: int, k: int)
    requires
        k > 1,
    ensures
        year / k == (year - 1) / k + if year % k == 0 {
            1int
        } else {
            0
        },
{
    let q = year / k;
    let r = year % k;
    vstd::arithmetic::div_mod::lemma_fundamental_div_mod(year, k);
    if r == 0 {
        assert(year - 1 == (q - 1) * k + (k - 1)) by (nonlinear_arith)
            requires
                year == k * q,
        ;
        vstd::arithmetic::div_mod::lemma_fundamental_div_mod_converse(year - 1, k, q - 1, k - 1);
    } else {
        assert(year - 1 == q * k + (r - 1)) by (nonlinear_arith)
            requires
                year == k * q + r,
        ;
        vstd::arithmetic::div_mod::lemma_fundamental_div_mod_converse(year - 1, k, q, r - 1);
    }
}

proof fn lemma_year_length(year: int)
    ensures
        days_before_year(year + 1) == days_before_year(year) + 365 + if leap_year(year) {
            1int
        } else {
            0
        },
{
    lemma_multiples(year, 4);
    lemma_multiples(year, 100);
    lemma_multiples(year, 400);
    assert(year % 100 == 0 ==> year % 4 == 0);
    assert(year % 400 == 0 ==> year % 100 == 0);
}

proof fn lemma_years(earlier: int, later: int)
    requires
        earlier < later,
    ensures
        days_before_year(earlier) + 365 + if leap_year(earlier) {
            1int
        } else {
            0
        } <= days_before_year(later),
    decreases later - earlier,
{
    lemma_year_length(earlier);
    if earlier + 1 < later {
        lemma_years(earlier, later - 1);
        lemma_year_length(later - 1);
    }
}

/// Every day has one date.
pub proof fn every_day_has_one_date(a: (int, int, int), b: (int, int, int))
    requires
        day_number(a.0, a.1, a.2) is Some,
        day_number(a.0, a.1, a.2) == day_number(b.0, b.1, b.2),
    ensures
        a == b,
{
    lemma_months(a.0);
    lemma_months(b.0);
    if a.0 < b.0 {
        lemma_years(a.0, b.0);
    }
    if b.0 < a.0 {
        lemma_years(b.0, a.0);
    }
}

/// `chrono::NaiveDate::from_ymd_opt` with `num_days_from_ce`: the number of a
/// Gregorian calendar day, or `None` where there is no such day or its year is
/// out of `chrono`'s range.
#[verifier::external_body]
pub(crate) fn civil_day(year: i32, month: u32, day: u32) -> (result: Option<i32>)
    ensures
        match result {
            Some(n) => day_number(year as int, month as int, day as int) == Some(n as int),
            None => day_number(year as int, month as int, day as int) is None,
        },
{
    chrono::NaiveDate::from_ymd_opt(year, month, day).map(|d| d.num_days_from_ce())
}

/// The day number of the first of January 1970.
pub const EPOCH_DAY: i128 = 719_163;

/// What any other text is as a calendar date under a format, as a day number,
/// or what is wrong with it.
pub uninterp spec fn other_date(text: Seq<char>, format: Seq<char>) -> Result<int, Seq<char>>;

/// What a text is as a calendar date under a format, as a day number, or what is
/// wrong with it.
pub open spec fn date_number(text: Seq<char>, format: Seq<char>) -> Result<int, Seq<char>> {
    match plain_date(text) {
        Some(day) => if format == "%Y-%m-%d"@ {
            Ok(day)
        } else {
            other_date(text, format)
        },
        None => other_date(text, format),
    }
}

/// `chrono::NaiveDate::parse_from_str`: the day number of the date that `text`
/// is under `format`, or the text of chrono's complaint. A plain date is read
/// as it stands under `%Y-%m-%d`; what else comes back only has a name here.
#[verifier::external_body]
fn chrono_date(text: &str, format: &str) -> (result: Result<i32, String>)
    ensures
        match result {
            Ok(day) => if format@ == "%Y-%m-%d"@ && plain_date(text@) is Some {
                plain_date(text@) == Some(day as int)
            } else {
                other_date(text@, format@) == Ok::<int, Seq<char>>(day as int)
            },
            Err(e) => !(format@ == "%Y-%m-%d"@ && plain_date(text@) is Some) && other_date(
                text@,
                format@,
            ) == Err::<int, Seq<char>>(e@),
        },
{
    chrono::NaiveDate::parse_from_str(text, format)
        .map(|date| date.num_days_from_ce())
        .map_err(|error| error.to_string())
}

/// The start of the day with a number, in nanoseconds since the epoch.
pub open spec fn midnight(day: int) -> int {
    (day - EPOCH_DAY) * 86_400 * NANOS_PER_SECOND
}

/// The start of the day that a text names as year, month and day.
pub fn parse_day(text: &str) -> (result: Result<Timestamp, String>)
    ensures
        match result {
            Ok(t) => date_number(text@, "%Y-%m-%d"@) matches Ok(day) && t@ == midnight(day),
            Err(e) => date_number(text@, "%Y-%m-%d"@) == Err::<int, Seq<char>>(e@),
        },
{
    match chrono_date(text, "%Y-%m-%d") {
        Ok(day) => Ok(
            Timestamp { nanos: (day as i128 - EPOCH_DAY as i128) * 86_400 * NANOS_PER_SECOND },
        ),
        Err(e) => Err(e),
    }
}

/// How an instant that the calendar covers is printed.
pub uninterp spec fn instant_text(seconds: int, nanos: int) -> Seq<char>;

/// `chrono::DateTime::from_timestamp` and its `Display`: how the instant that
/// many seconds and nanoseconds after the epoch is printed in UTC, or `None`
/// the calendar does not cover its day. The text itself only has a name here.
#[verifier::external_body]
fn chrono_display(seconds: i64, nanos: u32) -> (result: Option<String>)
    requires
        nanos < 1_000_000_000,
    ensures
        result is Some <==> in_calendar(seconds as int / 86_400 + EPOCH_DAY),
        result matches Some(text) ==> text@ == instant_text(seconds as int, nanos as int),
{
    chrono::DateTime::from_timestamp(seconds, nanos).map(|instant| instant.to_string())
}

/// Whether the calendar reaches the instant so many seconds after the epoch.
pub fn calendar_reaches(seconds: i64) -> (result: bool)
    ensures
        result == in_calendar(seconds as int / 86_400 + EPOCH_DAY),
{
    chrono_display(seconds, 0).is_some()
}

/// How an instant is printed in UTC; its seconds where the calendar does not
/// reach it.
pub open spec fn printed(instant: int) -> Seq<char> {
    let seconds = instant / (NANOS_PER_SECOND as int);
    if in_calendar(seconds / 86_400 + EPOCH_DAY) {
        instant_text(seconds, instant % (NANOS_PER_SECOND as int))
    } else {
        crate::text::int_text(seconds)
    }
}

impl Timestamp {
    /// How the instant is printed in UTC.
    pub fn to_text(&self) -> (result: String)
        ensures
            result@ == printed(self@),
    {
        proof {
            use_type_invariant(self);
        }
        let seconds: i64 = self.seconds();
        let rest: i128 = self.nanos - seconds as i128 * NANOS_PER_SECOND;
        match chrono_display(seconds, rest as u32) {
            Some(text) => text,
            None => crate::text::integer(seconds as i128),
        }
    }
}

/// What any other text is as a date and time of day under a format, in seconds
/// and nanoseconds since the epoch when taken as UTC, if it is one.
pub uninterp spec fn other_naive(text: Seq<char>, format: Seq<char>) -> Option<(int, int)>;

/// What a text is as a date and time of day under a format, in seconds and
/// nanoseconds since the epoch when taken as UTC, if it is one.
pub open spec fn naive_parts(text: Seq<char>, format: Seq<char>) -> Option<(int, int)> {
    match plain_instant(text, ' ') {
        Some(seconds) => if format == "%Y-%m-%d %H:%M:%S"@ {
            Some((seconds, 0))
        } else {
            other_naive(text, format)
        },
        None => other_naive(text, format),
    }
}

/// `chrono::NaiveDateTime::parse_from_str`: the date and time that `text` is
/// under `format`, taken as UTC, in whole seconds since the epoch and the
/// nanoseconds beyond them. A plain date and time with a space between is read
/// as it stands under `%Y-%m-%d %H:%M:%S`; what else comes back only has a name
/// here.
#[verifier::external_body]
fn chrono_naive(text: &str, format: &str) -> (result: Option<(i64, u32)>)
    ensures
        match result {
            Some((seconds, nanos)) => if format@ == "%Y-%m-%d %H:%M:%S"@ && plain_instant(
                text@,
                ' ',
            ) is Some {
                plain_instant(text@, ' ') == Some(seconds as int) && nanos == 0
            } else {
                other_naive(text@, format@) == Some((seconds as int, nanos as int))
            },
            None => !(format@ == "%Y-%m-%d %H:%M:%S"@ && plain_instant(text@, ' ') is Some)
                && other_naive(text@, format@) is None,
        },
{
    chrono::NaiveDateTime::parse_from_str(text, format)
        .ok()
        .map(|t| (t.and_utc().timestamp(), t.and_utc().timestamp_subsec_nanos()))
}

/// The instant that a text is under a format, taken as UTC.
pub open spec fn naive_instant(text: Seq<char>, format: Seq<char>) -> Option<int> {
    match naive_parts(text, format) {
        Some((seconds, nanos)) => {
            let instant = seconds * NANOS_PER_SECOND + nanos;
            if -INSTANT_LIMIT <= instant <= INSTANT_LIMIT {
                Some(instant)
            } else {
                None
            }
        },
        None => None,
    }
}

/// The instant that a text is under a format, taken as UTC.
pub fn parse_naive(text: &str, format: &str) -> (result: Option<Timestamp>)
    ensures
        instant_of(result) == naive_instant(text@, format@),
{
    match chrono_naive(text, format) {
        Some((seconds, nanos)) => Timestamp::from_nanos(
            seconds as i128 * NANOS_PER_SECOND + nanos as i128,
        ),
        None => None,
    }
}

} // verus!
