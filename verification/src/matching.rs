//! Which quotes speak of which market, and which way round.

use vstd::prelude::*;
use vstd::utf8::encode_utf8;

use crate::domain::{
    Market, Quote, SourceQuote, UsMoneylineMarket, DEFAULT_START_TIME_TOLERANCE_MINUTES,
};
use crate::seqs::{group_seqs, take_next};
use crate::text::{
    chars, has_prefix, is_ascii_alnum, lowercase, push_char, replace, replaced, same,
    starts_with, lowered,
};
use crate::textmap::TextMap;
use crate::time::NANOS_PER_SECOND;

verus! {

broadcast use group_seqs;

#[derive(Debug, Clone, Copy, PartialEq, Eq, Structural)]
pub enum QuoteOrientation {
    Direct,
    Swapped,
}

/// A provider that both know, under the same identifier.
pub open spec fn shares_id(
    left: Map<Seq<char>, Seq<char>>,
    right: Map<Seq<char>, Seq<char>>,
) -> bool {
    exists|k: Seq<char>| #[trigger]
        left.contains_key(k) && right.contains_key(k) && left[k] == right[k]
}

/// A provider that both know.
pub open spec fn shares_provider(
    left: Map<Seq<char>, Seq<char>>,
    right: Map<Seq<char>, Seq<char>>,
) -> bool {
    exists|k: Seq<char>| #[trigger] left.contains_key(k) && right.contains_key(k)
}

pub open spec fn is_name_char(c: char) -> bool {
    is_ascii_alnum(c) || c == '/'
}

/// The letters, digits and slashes of a text.
pub open spec fn name_chars(text: Seq<char>) -> Seq<char> {
    text.filter(|c: char| is_name_char(c))
}

/// A name as it is compared: lower case, without club words and articles,
/// letters and digits only, the doubles separator kept.
pub open spec fn normalized(name: Seq<char>) -> Seq<char> {
    normalized_lower(lowered(name))
}

/// The same of a name that is already in lower case.
pub open spec fn normalized_lower(lower: Seq<char>) -> Seq<char> {
    let a = replaced(lower, "football club"@, ""@);
    let b = replaced(a, "baseball club"@, ""@);
    let c = replaced(b, "basketball club"@, ""@);
    let d = replaced(c, "the "@, ""@);
    name_chars(replaced(d, "fc"@, ""@))
}

/// The same name, or a short form of at least five bytes that the market's name
/// starts with.
pub open spec fn names_agree(market_name: Seq<char>, quote_name: Seq<char>) -> bool {
    market_name == quote_name || (encode_utf8(quote_name).len() as usize >= 5 && has_prefix(
        market_name,
        quote_name,
    ))
}

/// The mismatch of two start times in nanoseconds.
pub open spec fn apart(a: int, b: int) -> int {
    if a < b {
        b - a
    } else {
        a - b
    }
}

/// The mismatch that a quote allows, in minutes.
pub open spec fn tolerance(quote: Quote) -> int {
    if quote.start_time_tolerance_minutes >= DEFAULT_START_TIME_TOLERANCE_MINUTES {
        quote.start_time_tolerance_minutes
    } else {
        DEFAULT_START_TIME_TOLERANCE_MINUTES as int
    }
}

/// Whether some provider could tell the participants apart.
pub open spec fn comparable(market: Market, quote: Quote) -> bool {
    let long = market.long_participant.provider_ids;
    let short = market.short_participant.provider_ids;
    let a = quote.participant_a_provider_ids;
    let b = quote.participant_b_provider_ids;
    shares_provider(long, a) || shares_provider(long, b) || shares_provider(short, a)
        || shares_provider(short, b)
}

/// How a quote speaks of a market. Sport and start must agree; shared
/// identifiers decide; comparable identifiers that do not agree refuse; else
/// both names must agree one way round and not the other.
pub open spec fn orientation(market: Market, quote: Quote) -> Option<QuoteOrientation> {
    let long = market.long_participant.provider_ids;
    let short = market.short_participant.provider_ids;
    let a = quote.participant_a_provider_ids;
    let b = quote.participant_b_provider_ids;
    if market.sport != quote.sport || apart(market.start_time, quote.start_time)
        > tolerance(quote) * 60 * NANOS_PER_SECOND {
        None
    } else if shares_id(long, a) && shares_id(short, b) {
        Some(QuoteOrientation::Direct)
    } else if shares_id(long, b) && shares_id(short, a) {
        Some(QuoteOrientation::Swapped)
    } else if comparable(market, quote) {
        None
    } else {
        let long_name = normalized(market.long_participant.name);
        let short_name = normalized(market.short_participant.name);
        let a_name = normalized(quote.participant_a);
        let b_name = normalized(quote.participant_b);
        let direct = names_agree(long_name, a_name) && names_agree(short_name, b_name);
        let swapped = names_agree(long_name, b_name) && names_agree(short_name, a_name);
        if direct && !swapped {
            Some(QuoteOrientation::Direct)
        } else if swapped && !direct {
            Some(QuoteOrientation::Swapped)
        } else {
            None
        }
    }
}

/// The quote with its participants the market's way round.
pub open spec fn oriented(quote: Quote, orientation: QuoteOrientation) -> Quote {
    match orientation {
        QuoteOrientation::Direct => quote,
        QuoteOrientation::Swapped => Quote {
            participant_a: quote.participant_b,
            participant_b: quote.participant_a,
            participant_a_provider_ids: quote.participant_b_provider_ids,
            participant_b_provider_ids: quote.participant_a_provider_ids,
            decimal_odds_a: quote.decimal_odds_b,
            decimal_odds_b: quote.decimal_odds_a,
            ..quote
        },
    }
}

/// Turning a quote round twice gives it back.
pub proof fn orienting_twice_restores(quote: Quote, orientation: QuoteOrientation)
    ensures
        oriented(oriented(quote, orientation), orientation) == quote,
{
}

/// Comparable identifiers that agree neither way refuse a quote, whatever the
/// names say.
pub proof fn conflicting_ids_refuse(market: Market, quote: Quote)
    requires
        comparable(market, quote),
        !(shares_id(
            market.long_participant.provider_ids,
            quote.participant_a_provider_ids,
        ) && shares_id(
            market.short_participant.provider_ids,
            quote.participant_b_provider_ids,
        )),
        !(shares_id(
            market.long_participant.provider_ids,
            quote.participant_b_provider_ids,
        ) && shares_id(
            market.short_participant.provider_ids,
            quote.participant_a_provider_ids,
        )),
    ensures
        orientation(market, quote) is None,
{
}

/// A quote for another sport, or starting outside its tolerance, never
/// matches; the default tolerance is never undercut.
pub proof fn sport_and_start_must_agree(market: Market, quote: Quote)
    ensures
        orientation(market, quote) is Some ==> market.sport == quote.sport && apart(
            market.start_time,
            quote.start_time,
        ) <= tolerance(quote) * 60 * NANOS_PER_SECOND,
        tolerance(quote) >= DEFAULT_START_TIME_TOLERANCE_MINUTES,
{
}

fn provider_overlap(left: &TextMap<String>, right: &TextMap<String>) -> (result: bool)
    ensures
        result == shares_id(left.deep(), right.deep()),
{
    let entries = left.entries();
    let mut i: usize = 0;
    while i < entries.len()
        invariant
            i <= entries@.len(),
            forall|j: int|
                0 <= j < entries@.len() ==> left@.contains_key((#[trigger] entries@[j]).0@)
                    && left@[entries@[j].0@] == entries@[j].1,
            forall|j: int|
                0 <= j < i ==> !(right@.contains_key((#[trigger] entries@[j]).0@)
                    && right@[entries@[j].0@]@ == entries@[j].1@),
        decreases entries@.len() - i,
    {
        match right.get(entries[i].0.as_str()) {
            Some(other) => {
                if same(other.as_str(), entries[i].1.as_str()) {
                    assert(left.deep().contains_key(entries@[i as int].0@));
                    return true;
                }
            },
            None => {},
        }
        i = i + 1;
    }
    proof {
        assert forall|k: Seq<char>| #[trigger] left.deep().contains_key(k) implies !(
        right.deep().contains_key(k) && left.deep()[k] == right.deep()[k]) by {
            assert(left@.contains_key(k));
            let j = choose|j: int| 0 <= j < entries@.len() && (#[trigger] entries@[j]).0@ == k;
            assert(entries@[j].0@ == k);
        }
    }
    false
}

fn has_shared_provider(left: &TextMap<String>, right: &TextMap<String>) -> (result: bool)
    ensures
        result == shares_provider(left.deep(), right.deep()),
{
    let entries = left.entries();
    let mut i: usize = 0;
    while i < entries.len()
        invariant
            i <= entries@.len(),
            forall|j: int|
                0 <= j < entries@.len() ==> left@.contains_key((#[trigger] entries@[j]).0@),
            forall|j: int| 0 <= j < i ==> !right@.contains_key((#[trigger] entries@[j]).0@),
        decreases entries@.len() - i,
    {
        if right.contains_key(entries[i].0.as_str()) {
            assert(left.deep().contains_key(entries@[i as int].0@));
            return true;
        }
        i = i + 1;
    }
    proof {
        assert forall|k: Seq<char>| #[trigger]
            left.deep().contains_key(k) implies !right.deep().contains_key(k) by {
            assert(left@.contains_key(k));
            let j = choose|j: int| 0 <= j < entries@.len() && (#[trigger] entries@[j]).0@ == k;
            assert(entries@[j].0@ == k);
        }
    }
    false
}

/// Exact equality, or the quote name is a city or short-form prefix of the
/// market name. The prefix rule is only safe because the caller demands that
/// both participants resolve to distinct sides.
pub fn names_match(market_name: &str, quote_name: &str) -> (result: bool)
    ensures
        result == names_agree(market_name@, quote_name@),
{
    same(market_name, quote_name) || (quote_name.len() >= 5 && starts_with(market_name, quote_name))
}

fn name_char(c: char) -> (result: bool)
    ensures
        result == is_name_char(c),
{
    ('0' <= c && c <= '9') || ('a' <= c && c <= 'z') || ('A' <= c && c <= 'Z') || c == '/'
}

/// A name as it is compared.
pub fn normalize_participant(value: &str) -> (result: String)
    ensures
        result@ == normalized(value@),
{
    normalize_lowered(lowercase(value).as_str())
}

/// A name in lower case as it is compared.
pub fn normalize_lowered(value: &str) -> (result: String)
    ensures
        result@ == normalized_lower(value@),
{
    proof {
        reveal_strlit("football club");
        reveal_strlit("baseball club");
        reveal_strlit("basketball club");
        reveal_strlit("the ");
        reveal_strlit("fc");
    }
    let a = replace(value, "football club", "");
    let b = replace(a.as_str(), "baseball club", "");
    let c = replace(b.as_str(), "basketball club", "");
    let d = replace(c.as_str(), "the ", "");
    let e = replace(d.as_str(), "fc", "");
    let all = chars(e.as_str());
    let mut out = String::new();
    let mut i: usize = 0;
    let ghost keep = |c: char| is_name_char(c);
    proof {
        reveal(Seq::filter);
    }
    while i < all.len()
        invariant
            all@ == e@,
            i <= all@.len(),
            keep == (|c: char| is_name_char(c)),
            out@ == all@.take(i as int).filter(keep),
        decreases all@.len() - i,
    {
        proof {
            take_next(all@, i as int);
            reveal(Seq::filter);
            let more = all@.take(i as int + 1);
            assert(more.drop_last() =~= all@.take(i as int));
        }
        if name_char(all[i]) {
            push_char(&mut out, all[i]);
        }
        i = i + 1;
    }
    out
}

/// How a quote speaks of a market, if it does.
pub fn match_quote(market: &UsMoneylineMarket, quote: &SourceQuote) -> (result: Option<
    QuoteOrientation,
>)
    ensures
        result == orientation(market@, quote@),
{
    if market.sport != quote.sport {
        return None;
    }
    let allowed: i128 = if quote.start_time_tolerance_minutes
        >= DEFAULT_START_TIME_TOLERANCE_MINUTES {
        quote.start_time_tolerance_minutes as i128
    } else {
        DEFAULT_START_TIME_TOLERANCE_MINUTES as i128
    };
    let gap: i128 = market.start_time.nanos_since(quote.start_time);
    let distance: i128 = if gap < 0 {
        -gap
    } else {
        gap
    };
    if distance > allowed * 60 * NANOS_PER_SECOND as i128 {
        return None;
    }
    let long_ids = &market.long_participant.provider_ids;
    let short_ids = &market.short_participant.provider_ids;
    let a_ids = &quote.participant_a_provider_ids;
    let b_ids = &quote.participant_b_provider_ids;
    if provider_overlap(long_ids, a_ids) && provider_overlap(short_ids, b_ids) {
        return Some(QuoteOrientation::Direct);
    }
    if provider_overlap(long_ids, b_ids) && provider_overlap(short_ids, a_ids) {
        return Some(QuoteOrientation::Swapped);
    }
    if has_shared_provider(long_ids, a_ids) || has_shared_provider(long_ids, b_ids)
        || has_shared_provider(short_ids, a_ids) || has_shared_provider(short_ids, b_ids) {
        return None;
    }
    let long = normalize_participant(market.long_participant.name.as_str());
    let short = normalize_participant(market.short_participant.name.as_str());
    let a = normalize_participant(quote.participant_a.as_str());
    let b = normalize_participant(quote.participant_b.as_str());
    let direct = names_match(long.as_str(), a.as_str()) && names_match(short.as_str(), b.as_str());
    let swapped = names_match(long.as_str(), b.as_str()) && names_match(short.as_str(), a.as_str());
    if direct && !swapped {
        Some(QuoteOrientation::Direct)
    } else if swapped && !direct {
        Some(QuoteOrientation::Swapped)
    } else {
        None
    }
}

/// The quote with its participants the market's way round.
pub fn orient_quote(quote: &SourceQuote, orientation: QuoteOrientation) -> (result: SourceQuote)
    ensures
        result@ == oriented(quote@, orientation),
{
    let copy = quote.clone();
    match orientation {
        QuoteOrientation::Direct => copy,
        QuoteOrientation::Swapped => SourceQuote {
            source_id: copy.source_id,
            family: copy.family,
            sport: copy.sport,
            event_id: copy.event_id,
            participant_a: copy.participant_b,
            participant_b: copy.participant_a,
            participant_a_provider_ids: copy.participant_b_provider_ids,
            participant_b_provider_ids: copy.participant_a_provider_ids,
            start_time: copy.start_time,
            start_time_tolerance_minutes: copy.start_time_tolerance_minutes,
            decimal_odds_a: copy.decimal_odds_b,
            decimal_odds_b: copy.decimal_odds_a,
            decimal_odds_neutral: copy.decimal_odds_neutral,
            source_timestamp: copy.source_timestamp,
            fetched_at: copy.fetched_at,
            parser_version: copy.parser_version,
            validation_only: copy.validation_only,
        },
    }
}

} // verus!
