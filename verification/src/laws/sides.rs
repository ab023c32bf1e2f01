//! Which way round a quote speaks of a market.

use vstd::prelude::*;
use vstd::utf8::encode_utf8;

use crate::domain::{Market, Quote};
use crate::matching::{
    name_chars, normalized, normalized_lower, orientation, oriented, QuoteOrientation,
};
use crate::text::{has_prefix, is_ascii_alnum, replaced};

verus! {

/// Whether two participants carry the same identifier of some provider.
pub open spec fn same_identity(
    left: Map<Seq<char>, Seq<char>>,
    right: Map<Seq<char>, Seq<char>>,
) -> bool {
    exists|k: Seq<char>| #[trigger]
        left.contains_key(k) && right.contains_key(k) && right[k] == left[k]
}

/// Whether some provider knows two participants.
pub open spec fn same_provider(
    left: Map<Seq<char>, Seq<char>>,
    right: Map<Seq<char>, Seq<char>>,
) -> bool {
    exists|k: Seq<char>| #[trigger] left.contains_key(k) && right.contains_key(k)
}

/// Whether a provider knows a participant of the market and one of the quote.
pub open spec fn identifiable(market: Market, quote: Quote) -> bool {
    same_provider(market.long_participant.provider_ids, quote.participant_a_provider_ids)
        || same_provider(market.long_participant.provider_ids, quote.participant_b_provider_ids)
        || same_provider(market.short_participant.provider_ids, quote.participant_a_provider_ids)
        || same_provider(market.short_participant.provider_ids, quote.participant_b_provider_ids)
}

/// Whether a quote names the long participant first, by identifiers.
pub open spec fn identified(market: Market, quote: Quote) -> bool {
    same_identity(market.long_participant.provider_ids, quote.participant_a_provider_ids)
        && same_identity(market.short_participant.provider_ids, quote.participant_b_provider_ids)
}

/// Whether a quote's name is a market's, or a short form of at least five bytes.
pub open spec fn short_for(market_name: Seq<char>, quote_name: Seq<char>) -> bool {
    let (long, short) = (normalized(market_name), normalized(quote_name));
    long == short || (encode_utf8(short).len() as usize >= 5 && has_prefix(long, short))
}

/// Whether a quote names the long participant first, by names.
pub open spec fn named(market: Market, quote: Quote) -> bool {
    short_for(market.long_participant.name, quote.participant_a) && short_for(
        market.short_participant.name,
        quote.participant_b,
    )
}

/// The quote with its two participants exchanged, each with its own odds.
pub open spec fn turned(quote: Quote) -> Quote {
    Quote {
        participant_a: quote.participant_b,
        participant_b: quote.participant_a,
        participant_a_provider_ids: quote.participant_b_provider_ids,
        participant_b_provider_ids: quote.participant_a_provider_ids,
        decimal_odds_a: quote.decimal_odds_b,
        decimal_odds_b: quote.decimal_odds_a,
        ..quote
    }
}

/// Whether sport and start of a quote are those of a market: no further apart
/// than the quote allows, which is never less than a quarter of an hour.
pub open spec fn same_game(market: Market, quote: Quote) -> bool {
    let allowed = if quote.start_time_tolerance_minutes > 15 {
        quote.start_time_tolerance_minutes
    } else {
        15
    };
    &&& market.sport == quote.sport
    &&& market.start_time - quote.start_time <= allowed * 60_000_000_000
    &&& quote.start_time - market.start_time <= allowed * 60_000_000_000
}

/// A quote that matches, once oriented, has the long participant on its side A
/// and the short participant on its side B: by their identifiers where a
/// provider knows both quote and market, and else by their names, which then
/// do not fit the other way round.
pub proof fn oriented_quotes_name_the_long_side_first(market: Market, quote: Quote)
    ensures
        orientation(market, quote) matches Some(o) ==> {
            let q = oriented(quote, o);
            &&& same_game(market, quote)
            &&& if identifiable(market, quote) {
                identified(market, q)
            } else {
                named(market, q) && !named(market, turned(q))
            }
        },
{
}

/// A quote of the same game matches whenever its identifiers fit, and where no
/// provider knows both, whenever its names fit exactly one way round.
pub proof fn fitting_quotes_match(market: Market, quote: Quote)
    requires
        same_game(market, quote),
    ensures
        identified(market, quote) ==> orientation(market, quote) == Some(QuoteOrientation::Direct),
        identified(market, turned(quote)) && !identified(market, quote) ==> orientation(
            market,
            quote,
        ) == Some(QuoteOrientation::Swapped),
        !identifiable(market, quote) && named(market, quote) && !named(market, turned(quote))
            ==> orientation(market, quote) == Some(QuoteOrientation::Direct),
        !identifiable(market, quote) && !named(market, quote) && named(market, turned(quote))
            ==> orientation(market, quote) == Some(QuoteOrientation::Swapped),
{
    if identified(market, quote) || identified(market, turned(quote)) {
        assert(crate::matching::comparable(market, quote)) by {
            lemma_identity_is_known(
                market.long_participant.provider_ids,
                quote.participant_a_provider_ids,
            );
            lemma_identity_is_known(
                market.long_participant.provider_ids,
                quote.participant_b_provider_ids,
            );
        }
    }
    if !identifiable(market, quote) {
        lemma_identity_is_known(
            market.long_participant.provider_ids,
            quote.participant_a_provider_ids,
        );
        lemma_identity_is_known(
            market.long_participant.provider_ids,
            quote.participant_b_provider_ids,
        );
    }
}

proof fn lemma_identity_is_known(
    left: Map<Seq<char>, Seq<char>>,
    right: Map<Seq<char>, Seq<char>>,
)
    ensures
        same_identity(left, right) ==> same_provider(left, right),
{
}

/// Turning a quote round turns the way it matches, unless it fits both ways.
pub proof fn turning_a_quote_turns_its_orientation(market: Market, quote: Quote)
    requires
        !(identified(market, quote) && identified(market, turned(quote))),
    ensures
        orientation(market, quote) is None <==> orientation(market, turned(quote)) is None,
        orientation(market, quote) == Some(QuoteOrientation::Direct) <==> orientation(
            market,
            turned(quote),
        ) == Some(QuoteOrientation::Swapped),
        orientation(market, quote) == Some(QuoteOrientation::Swapped) <==> orientation(
            market,
            turned(quote),
        ) == Some(QuoteOrientation::Direct),
{
    let q = turned(quote);
    assert(turned(q) == quote);
    if same_game(market, quote) {
        fitting_quotes_match(market, quote);
        fitting_quotes_match(market, q);
    }
}

/// Orienting keeps each participant with its identifiers and its odds, and the
/// neutral odds, the source and every instant as they are.
pub proof fn orienting_keeps_each_participants_odds(quote: Quote)
    ensures
        oriented(quote, QuoteOrientation::Direct) == quote,
        oriented(quote, QuoteOrientation::Swapped) == turned(quote),
        oriented(quote, QuoteOrientation::Swapped).decimal_odds_neutral
            == quote.decimal_odds_neutral,
        oriented(quote, QuoteOrientation::Swapped).fetched_at == quote.fetched_at,
        oriented(quote, QuoteOrientation::Swapped).family == quote.family,
{
}

/// A name as it is compared holds letters, digits and slashes only.
pub proof fn compared_names_are_plain(name: Seq<char>)
    ensures
        forall|i: int|
            0 <= i < normalized(name).len() ==> is_ascii_alnum(#[trigger] normalized(name)[i])
                || normalized(name)[i] == '/',
{
    let lower = crate::text::lowered(name);
    let a = replaced(lower, "football club"@, ""@);
    let b = replaced(a, "baseball club"@, ""@);
    let c = replaced(b, "basketball club"@, ""@);
    let d = replaced(c, "the "@, ""@);
    lemma_only_name_chars(replaced(d, "fc"@, ""@));
}

proof fn lemma_only_name_chars(text: Seq<char>)
    ensures
        forall|i: int|
            0 <= i < name_chars(text).len() ==> is_ascii_alnum(#[trigger] name_chars(text)[i])
                || name_chars(text)[i] == '/',
    decreases text.len(),
{
    reveal(Seq::filter);
    if text.len() > 0 {
        lemma_only_name_chars(text.drop_last());
    }
}

/// A name in lower case is compared without club words and articles, with only
/// its letters, digits and slashes.
pub proof fn names_lose_club_words_and_articles(lower: Seq<char>)
    ensures
        normalized_lower(lower) == replaced(
            replaced(
                replaced(
                    replaced(replaced(lower, "football club"@, ""@), "baseball club"@, ""@),
                    "basketball club"@,
                    ""@,
                ),
                "the "@,
                ""@,
            ),
            "fc"@,
            ""@,
        ).filter(|c: char| is_ascii_alnum(c) || c == '/'),
        normalized(lower) == normalized_lower(crate::text::lowered(lower)),
{
    assert((|c: char| crate::matching::is_name_char(c)) =~= (|c: char|
        is_ascii_alnum(c) || c == '/'));
}

} // verus!
