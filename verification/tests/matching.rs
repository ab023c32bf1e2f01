use polybot::decimal::Decimal;
use polybot::domain::{MarketParticipant, SourceFamily, SourceQuote, Sport, UsMoneylineMarket};
use polybot::matching::{
    match_quote, normalize_lowered, normalize_participant, orient_quote, QuoteOrientation,
};
use polybot::textmap::TextMap;
use polybot::time::Timestamp;

const NOW: i64 = 1_760_000_000;

fn at(seconds: i64) -> Timestamp {
    Timestamp::from_seconds(seconds).unwrap()
}

fn ids(provider: &str, id: &str) -> TextMap<String> {
    TextMap::new().put(provider.to_string(), id.to_string())
}

fn market(long: &str, short: &str) -> UsMoneylineMarket {
    UsMoneylineMarket {
        event_id: "event".into(),
        game_id: None,
        sportradar_game_id: None,
        sport: Sport::Tennis,
        start_time: at(NOW + 2 * 3600),
        market_id: "market".into(),
        market_slug: "market".into(),
        description: "walkover settles to $0.50".into(),
        sports_market_type: "tennis_match_winner".into(),
        long_participant: MarketParticipant {
            side_id: "a".into(),
            name: long.into(),
            long: true,
            team_id: None,
            provider_ids: TextMap::new(),
        },
        short_participant: MarketParticipant {
            side_id: "b".into(),
            name: short.into(),
            long: false,
            team_id: None,
            provider_ids: TextMap::new(),
        },
        tick_size: Decimal::new(1, 2),
        minimum_quantity: Decimal::one(),
        fee_coefficient: Decimal::zero(),
        ep3_status: "OPEN".into(),
        ep3_synced_at: None,
    }
}

fn quote(a: &str, b: &str) -> SourceQuote {
    SourceQuote {
        source_id: "source".into(),
        family: SourceFamily::Pinnacle,
        sport: Sport::Tennis,
        event_id: "other".into(),
        participant_a: a.into(),
        participant_b: b.into(),
        participant_a_provider_ids: TextMap::new(),
        participant_b_provider_ids: TextMap::new(),
        start_time: at(NOW + 2 * 3600),
        start_time_tolerance_minutes: 15,
        decimal_odds_a: Decimal::new(19, 1),
        decimal_odds_b: Decimal::new(2, 0),
        decimal_odds_neutral: None,
        source_timestamp: at(NOW),
        fetched_at: at(NOW),
        parser_version: "test".into(),
        validation_only: false,
    }
}

#[test]
fn normalization_preserves_doubles_separator() {
    assert_eq!(normalize_participant("Ruehl / Veldheer"), "ruehl/veldheer");
}

#[test]
fn both_participants_are_required() {
    assert_eq!(
        match_quote(&market("Bad Luck", "Yawara"), &quote("Players", "Bad Luck")),
        None
    );
}

#[test]
fn provider_ids_take_precedence_over_different_names() {
    let mut market = market("LA", "New York");
    market.long_participant.provider_ids = ids("sportradar", "team-1");
    market.short_participant.provider_ids = ids("sportradar", "team-2");
    let mut quote = quote("Los Angeles", "NY");
    quote.participant_a_provider_ids = ids("sportradar", "team-1");
    quote.participant_b_provider_ids = ids("sportradar", "team-2");
    assert_eq!(match_quote(&market, &quote), Some(QuoteOrientation::Direct));
}

#[test]
fn conflicting_provider_ids_reject_matching_names() {
    let mut market = market("LA", "New York");
    market.long_participant.provider_ids = ids("sportradar", "team-1");
    market.short_participant.provider_ids = ids("sportradar", "team-2");
    let mut quote = quote("LA", "New York");
    quote.participant_a_provider_ids = ids("sportradar", "different-1");
    quote.participant_b_provider_ids = ids("sportradar", "different-2");
    assert_eq!(match_quote(&market, &quote), None);
}

#[test]
fn tennis_doubles_match_in_swapped_orientation() {
    let market = market("Ruehl / Veldheer", "Jones / Smith");
    let quote = quote("Jones/Smith", "Ruehl/Veldheer");
    assert_eq!(match_quote(&market, &quote), Some(QuoteOrientation::Swapped));
}

#[test]
fn city_prefix_matches_when_both_sides_are_distinct() {
    let mut market = market("Kansas City Royals", "Boston Red Sox");
    market.sport = Sport::Mlb;
    let mut quote = quote("Boston", "Kansas City");
    quote.sport = Sport::Mlb;
    assert_eq!(match_quote(&market, &quote), Some(QuoteOrientation::Swapped));
}

#[test]
fn ambiguous_prefix_is_rejected() {
    let mut market = market("Chicago Cubs", "Chicago White Sox");
    market.sport = Sport::Mlb;
    let mut quote = quote("Chicago", "Chicago");
    quote.sport = Sport::Mlb;
    assert_eq!(match_quote(&market, &quote), None);
}

#[test]
fn date_only_quotes_use_their_wider_tolerance() {
    let market = market("Ruehl / Veldheer", "Jones / Smith");
    let mut quote = quote("Ruehl/Veldheer", "Jones/Smith");
    quote.start_time = at(NOW + 2 * 3600 - 9 * 3600);
    assert_eq!(match_quote(&market, &quote), None);
    quote.start_time_tolerance_minutes = 14 * 60;
    assert_eq!(match_quote(&market, &quote), Some(QuoteOrientation::Direct));
}

#[test]
fn another_sport_never_matches() {
    let market = market("Jones", "Smith");
    let mut quote = quote("Jones", "Smith");
    assert_eq!(match_quote(&market, &quote), Some(QuoteOrientation::Direct));
    quote.sport = Sport::Nba;
    assert_eq!(match_quote(&market, &quote), None);
}

#[test]
fn orienting_swaps_and_swaps_back() {
    let quote = quote("Jones", "Smith");
    let swapped = orient_quote(&quote, QuoteOrientation::Swapped);
    assert_eq!(swapped.participant_a, "Smith");
    assert_eq!(swapped.decimal_odds_a, Decimal::new(2, 0));
    let back = orient_quote(&swapped, QuoteOrientation::Swapped);
    assert_eq!(back.participant_a, "Jones");
    assert_eq!(back.decimal_odds_a, Decimal::new(19, 1));
    let direct = orient_quote(&quote, QuoteOrientation::Direct);
    assert_eq!(direct.participant_a, "Jones");
}

#[test]
fn club_words_and_letter_case_do_not_count() {
    assert_eq!(normalize_participant("The Boston Football Club"), "boston");
    assert_eq!(normalize_participant("Ärzte FC"), "rzte");
    assert_eq!(normalize_participant("St. Louis"), "stlouis");
}

#[test]
fn a_start_is_held_to_its_tolerance_exactly() {
    let market = market("Jones", "Smith");
    let mut quote = quote("Jones", "Smith");
    let start = quote.start_time.seconds();
    quote.start_time = at(start + 15 * 60);
    assert_eq!(match_quote(&market, &quote), Some(QuoteOrientation::Direct));
    quote.start_time = at(start + 15 * 60 + 30);
    assert_eq!(match_quote(&market, &quote), None);
}

#[test]
fn lower_case_names_lose_their_club_words() {
    assert_eq!(normalize_lowered("the arsenal football club"), "arsenal");
    assert_eq!(normalize_participant("The ARSENAL Football Club"), "arsenal");
}
