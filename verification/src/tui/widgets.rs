//! Presentation primitives: tones, ages and durations, text fitting. No
//! knowledge of scans or markets.

use vstd::prelude::*;

use crate::decimal::nearest_even;
use crate::domain::RecommendationClass;
use crate::text::{
    chars, concat2, concat4, digits, from_range, natural, owned, pad_zeros, push_char, same,
    zero_padded,
};
use crate::time::{floor_div, instant_of, trunc_div, Timestamp, NANOS_PER_SECOND};

verus! {

/// How a text is coloured.
#[derive(Debug, Clone, Copy, PartialEq, Eq, Structural)]
pub enum Tone {
    Neutral,
    Muted,
    Good,
    Warn,
    Bad,
    Accent,
}

impl Tone {
    pub fn for_class(class: RecommendationClass) -> (result: Tone)
        ensures
            result == match class {
                RecommendationClass::Actionable => Tone::Good,
                RecommendationClass::Watchlist => Tone::Warn,
                RecommendationClass::Rejected => Tone::Muted,
            },
    {
        match class {
            RecommendationClass::Actionable => Tone::Good,
            RecommendationClass::Watchlist => Tone::Warn,
            RecommendationClass::Rejected => Tone::Muted,
        }
    }

    /// The tone of what news does to a recommendation.
    pub fn for_effect(effect: &str) -> (result: Tone)
        ensures
            result == if effect@ == "unchanged"@ {
                Tone::Good
            } else if effect@ == "lower"@ || effect@ == "review"@ {
                Tone::Warn
            } else if effect@ == "reject"@ {
                Tone::Bad
            } else {
                Tone::Neutral
            },
    {
        if same(effect, "unchanged") {
            Tone::Good
        } else if same(effect, "lower") || same(effect, "review") {
            Tone::Warn
        } else if same(effect, "reject") {
            Tone::Bad
        } else {
            Tone::Neutral
        }
    }
}

/// A number with two digits.
pub open spec fn two_digits(n: int) -> Seq<char> {
    zero_padded(digits(n as nat), 2)
}

/// A duration as `42s`, `2m05s` or `1h12m`; a negative one counts as none.
pub open spec fn duration_text(seconds: int) -> Seq<char> {
    let s = if seconds < 0 {
        0
    } else {
        seconds
    };
    if s < 60 {
        digits(s as nat) + "s"@
    } else if s < 3600 {
        digits((s / 60) as nat) + "m"@ + two_digits(s % 60) + "s"@
    } else {
        digits((s / 3600) as nat) + "h"@ + two_digits((s % 3600) / 60) + "m"@
    }
}

fn pair(n: u128) -> (result: String)
    ensures
        result@ == two_digits(n as int),
{
    let text: String = natural(n);
    pad_zeros(text.as_str(), 2)
}

/// A duration in seconds as the views show it.
pub fn duration_label(seconds: i64) -> (result: String)
    ensures
        result@ == duration_text(seconds as int),
{
    label_of_seconds(seconds as i128)
}

fn label_of_seconds(seconds: i128) -> (result: String)
    ensures
        result@ == duration_text(seconds as int),
{
    let s: u128 = if seconds < 0 {
        0
    } else {
        seconds as u128
    };
    if s < 60 {
        concat2(natural(s).as_str(), "s")
    } else if s < 3600 {
        concat4(natural(s / 60).as_str(), "m", pair(s % 60).as_str(), "s")
    } else {
        concat4(natural(s / 3600).as_str(), "h", pair((s % 3600) / 60).as_str(), "m")
    }
}

/// How long ago an instant was, or `-` where it is unknown.
pub open spec fn age_text(since: Option<int>, now: int) -> Seq<char> {
    match since {
        Some(at) => duration_text(trunc_div(now - at, NANOS_PER_SECOND as int)),
        None => "-"@,
    }
}

/// How long ago an instant was: `4s`, `2m05s`, `1h12m`, or `-` where it is
/// unknown.
pub fn age(since: Option<Timestamp>, now: Timestamp) -> (result: String)
    ensures
        result@ == age_text(instant_of(since), now@),
{
    match since {
        Some(at) => label_of_seconds(now.seconds_since(at)),
        None => owned("-"),
    }
}

/// How long until an instant.
pub open spec fn countdown_text(until: Option<int>, now: int) -> Seq<char> {
    match until {
        Some(at) => {
            let seconds = trunc_div(at - now, NANOS_PER_SECOND as int);
            if seconds <= 0 {
                "due"@
            } else {
                "in "@ + duration_text(seconds)
            }
        },
        None => "-"@,
    }
}

/// How long until an instant: `in 42s`, `in 4m10s`, `due`, or `-` where it is
/// unknown.
pub fn countdown(until: Option<Timestamp>, now: Timestamp) -> (result: String)
    ensures
        result@ == countdown_text(instant_of(until), now@),
{
    match until {
        Some(at) => {
            let seconds: i128 = at.seconds_since(now);
            if seconds <= 0 {
                owned("due")
            } else {
                concat2("in ", label_of_seconds(seconds).as_str())
            }
        },
        None => owned("-"),
    }
}

/// The number of steps of a double between one power of two and the next.
pub const DOUBLE_STEPS: u128 = 4_503_599_627_370_496;

/// The largest power of two that is at most `n`.
pub open spec fn grain(n: int) -> int
    decreases n,
{
    if n < 2 {
        1
    } else {
        2 * grain(n / 2)
    }
}

/// The double nearest to a whole number, in the steps of the doubles at one.
pub open spec fn double_of(n: int) -> int {
    grain(n) * nearest_even(n * DOUBLE_STEPS, grain(n))
}

/// The double nearest to a thousandth of a double, in the same steps; for at
/// least a thousand.
pub open spec fn thousandth(double: int) -> int {
    let g = grain(double / (1000 * DOUBLE_STEPS));
    g * nearest_even(double, 1000 * g)
}

/// Milliseconds as hundredths of a second, by way of a double: ties of the
/// double go to the even hundredth.
pub open spec fn hundredths(millis: int) -> int {
    nearest_even(100 * thousandth(double_of(millis)), DOUBLE_STEPS as int)
}

/// A duration as `443ms` or `3.28s`.
pub open spec fn millis_text(millis: int) -> Seq<char> {
    if millis < 1000 {
        digits(millis as nat) + "ms"@
    } else {
        digits((hundredths(millis) / 100) as nat) + "."@ + two_digits(hundredths(millis) % 100)
            + "s"@
    }
}

fn find_grain(n: u128) -> (result: u128)
    ensures
        result == grain(n as int),
        1 <= result,
        n >= 1 ==> result <= n,
    decreases n,
{
    if n < 2 {
        1
    } else {
        2 * find_grain(n / 2)
    }
}

fn round_even(m: u128, d: u128) -> (result: u128)
    requires
        0 < d < 0x1000_0000_0000_0000_0000_0000_0000_0000,
    ensures
        result == nearest_even(m as int, d as int),
        result * d <= m + d,
{
    let low: u128 = m / d;
    let rest: u128 = m % d;
    proof {
        vstd::arithmetic::div_mod::lemma_fundamental_div_mod(m as int, d as int);
        assert(d * low == low * d) by (nonlinear_arith);
        assert((low + 1) * d == low * d + d) by (nonlinear_arith);
        assert(d >= 2 ==> low < u128::MAX) by (nonlinear_arith)
            requires
                low * d <= m,
                m <= u128::MAX,
        ;
        assert(d == 1 ==> rest == 0);
    }
    if 2 * rest < d || (2 * rest == d && low % 2 == 0) {
        low
    } else {
        low + 1
    }
}

/// A duration in milliseconds as the views show it: `443ms`, or seconds with
/// two places.
pub fn millis_label(millis: u64) -> (result: String)
    ensures
        result@ == millis_text(millis as int),
{
    let n: u128 = millis as u128;
    if n < 1000 {
        return concat2(natural(n).as_str(), "ms");
    }
    let g: u128 = find_grain(n);
    let counted: u128 = round_even(n * DOUBLE_STEPS, g);
    assert(g * counted == counted * g) by (nonlinear_arith);
    let double: u128 = g * counted;
    let h: u128 = find_grain(double / (1000 * DOUBLE_STEPS));
    assert(h <= 0x80_0000_0000_0000);
    let scaled: u128 = round_even(double, 1000 * h);
    assert(scaled * (1000 * h) == 1000 * (h * scaled)) by (nonlinear_arith);
    let seconds: u128 = h * scaled;
    let result: u128 = round_even(100 * seconds, DOUBLE_STEPS);
    concat4(natural(result / 100).as_str(), ".", pair(result % 100).as_str(), "s")
}

/// The time of day of an instant in UTC.
pub open spec fn clock_text(instant: int) -> Seq<char> {
    let second = (instant / (NANOS_PER_SECOND as int)) % 86_400;
    two_digits(second / 3600) + ":"@ + two_digits((second % 3600) / 60) + ":"@ + two_digits(
        second % 60,
    )
}

/// The time of day of an instant in UTC, as `HH:MM:SS`.
pub fn clock(value: Timestamp) -> (result: String)
    ensures
        result@ == clock_text(value@),
{
    let seconds: i128 = value.seconds() as i128;
    let day: i128 = floor_div(seconds, 86_400);
    let second: u128 = (seconds - day * 86_400) as u128;
    let result: String = crate::text::concat5(
        pair(second / 3600).as_str(),
        ":",
        pair((second % 3600) / 60).as_str(),
        ":",
        pair(second % 60).as_str(),
    );
    result
}

/// A text cut to a number of columns, with an ellipsis where anything is left
/// out.
pub open spec fn fitted(text: Seq<char>, width: int) -> Seq<char> {
    if width <= 0 {
        Seq::empty()
    } else if text.len() <= width {
        text
    } else {
        text.take(width - 1).push('\u{2026}')
    }
}

/// Cuts a text to `width` columns, with an ellipsis where anything is left out.
pub fn fit(text: &str, width: usize) -> (result: String)
    ensures
        result@ == fitted(text@, width as int),
        result@.len() <= width,
{
    if width == 0 {
        return String::new();
    }
    let all: Vec<char> = chars(text);
    if all.len() <= width {
        return owned(text);
    }
    let mut out: String = from_range(&all, 0, width - 1);
    assert(out@ =~= text@.take(width - 1));
    push_char(&mut out, '\u{2026}');
    out
}

/// Fitting a text that already fits changes nothing, and a fitted text fits.
pub proof fn fitting_twice_is_fitting_once(text: Seq<char>, width: int)
    ensures
        fitted(fitted(text, width), width) == fitted(text, width),
        width >= 0 ==> fitted(text, width).len() <= width,
{
}

} // verus!
