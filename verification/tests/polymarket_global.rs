use polybot::decimal::{parse_exact, Decimal};
use polybot::domain::{
    SourceFamily, SourceQuote, Sport, DEFAULT_START_TIME_TOLERANCE_MINUTES,
};
use polybot::sources::polymarket_global::{
    full_name, normalize_market, parse_game_start_time, parse_offset, tag_slug, wants_next_page,
    GammaMarket, GammaTeam, MarketFloors,
};
use polybot::textmap::TextMap;
use polybot::time::{parse_rfc3339, Timestamp};

fn number(text: &str) -> Option<Decimal> {
    Some(parse_exact(text).unwrap())
}

fn teams() -> Vec<GammaTeam> {
    vec![
        GammaTeam {
            name: "Tampa Bay Rays".into(),
            alias: Some("Rays".into()),
            abbreviation: Some("tb".into()),
        },
        GammaTeam {
            name: "New York Yankees".into(),
            alias: Some("Yankees".into()),
            abbreviation: Some("nyy".into()),
        },
    ]
}

fn market(id: &str, kind: &str, outcomes: &str, bid: &str, ask: &str) -> GammaMarket {
    GammaMarket {
        id: id.into(),
        sports_market_type: Some(kind.into()),
        game_start_time: Some("2026-09-22 17:05:00+00".into()),
        outcomes: outcomes.into(),
        clob_token_ids: None,
        best_bid: number(bid),
        best_ask: number(ask),
        liquidity: None,
        volume: None,
        accepting_orders: true,
        active: true,
        closed: false,
        updated_at: Some("2026-09-12T17:36:51.772231Z".into()),
    }
}

fn markets() -> Vec<GammaMarket> {
    let full = r#"["Tampa Bay Rays", "New York Yankees"]"#;
    let mut game = market(
        "608540",
        "moneyline",
        r#"["Rays", "New York Yankees"]"#,
        "0.42",
        "0.43",
    );
    game.liquidity = number("118054.37");
    game.volume = number("41000.5");
    game.clob_token_ids = Some(r#"["9564", "4368"]"#.into());
    let mut inning = market("608541", "nrfi", r#"["Yes", "No"]"#, "0.5", "0.52");
    inning.liquidity = number("50000");
    let mut thin = market("608542", "moneyline", full, "0.42", "0.43");
    thin.liquidity = number("1999.99");
    thin.volume = number("900");
    let mut seeded = market("608543", "moneyline", full, "0.45", "0.46");
    seeded.liquidity = number("2538.47");
    seeded.volume = number("85");
    vec![game, inning, thin, seeded]
}

fn quotes(markets: &[GammaMarket]) -> Vec<SourceQuote> {
    markets
        .iter()
        .filter_map(|market| {
            normalize_market(
                Sport::Mlb,
                &teams(),
                market,
                MarketFloors::default(),
                Timestamp::from_seconds(1_760_000_000).unwrap(),
            )
        })
        .collect()
}

fn expected() -> Timestamp {
    parse_rfc3339("2026-09-22T17:05:00Z").unwrap()
}

#[test]
fn parses_postgres_style_game_start_time() {
    assert_eq!(
        parse_game_start_time("2026-09-22 17:05:00+00"),
        Some(expected())
    );
    assert_eq!(
        parse_game_start_time("2026-09-22 19:05:00+02"),
        Some(expected())
    );
    assert_eq!(
        parse_game_start_time("2026-09-22 12:05:00.123-05:00"),
        Timestamp::from_nanos(expected().nanos() + 123_000_000)
    );
    assert_eq!(
        parse_game_start_time("2026-09-22T17:05:00Z"),
        Some(expected())
    );
    assert_eq!(parse_game_start_time("tomorrow"), None);
}

#[test]
fn normalizes_moneyline_and_drops_non_moneyline_and_thin_markets() {
    let quotes = quotes(&markets());
    assert_eq!(
        quotes.len(),
        1,
        "nrfi and sub-floor markets must be dropped"
    );
    let quote = &quotes[0];
    assert_eq!(quote.source_id, "polymarket_global");
    assert_eq!(quote.family, SourceFamily::PolymarketGlobal);
    assert_eq!(quote.event_id, "608540");
    assert_eq!(quote.participant_a, "Tampa Bay Rays");
    assert_eq!(quote.participant_b, "New York Yankees");
    assert_eq!(quote.decimal_odds_a, parse_exact("2.3256").unwrap());
    assert_eq!(quote.decimal_odds_b, parse_exact("1.7241").unwrap());
    assert_eq!(quote.start_time, expected());
    assert_eq!(
        quote.source_timestamp,
        parse_rfc3339("2026-09-12T17:36:51.772231Z").unwrap()
    );
    assert_eq!(
        quote.start_time_tolerance_minutes,
        DEFAULT_START_TIME_TOLERANCE_MINUTES
    );
    assert_eq!(quote.parser_version, "gamma-moneyline-v1");
    assert_eq!(
        quote.participant_a_provider_ids.get("polymarket_global").unwrap(),
        "9564"
    );
    assert_eq!(
        quote.participant_b_provider_ids.get("polymarket_global").unwrap(),
        "4368"
    );
    assert!(!quote.validation_only);
}

#[test]
fn drops_wide_spreads_and_markets_not_accepting_orders() {
    let mut wide = markets();
    wide[0].best_ask = number("0.47");
    assert!(quotes(&wide).is_empty());
    let mut halted = markets();
    halted[0].accepting_orders = false;
    assert!(quotes(&halted).is_empty());
}

#[test]
fn floors_come_from_the_environment() {
    let floors = MarketFloors::from_env(&TextMap::new()).unwrap();
    assert_eq!(floors.min_liquidity, MarketFloors::default().min_liquidity);
}

#[test]
fn names_are_completed_from_the_teams() {
    assert_eq!(full_name("Rays".into(), &teams()), "Tampa Bay Rays");
    assert_eq!(full_name("Nobody".into(), &teams()), "Nobody");
    assert_eq!(tag_slug(Sport::Mlb), "mlb");
    assert_eq!(parse_offset("-05:30"), Some(-19_800));
    assert_eq!(parse_offset("later"), None);
}

#[test]
fn malformed_outcomes_give_no_quote() {
    let mut odd = markets();
    odd[0].outcomes = "[\"only\"]".into();
    assert!(quotes(&odd).is_empty());
    odd[0].outcomes = "not json".into();
    assert!(quotes(&odd).is_empty());
}

#[test]
fn a_full_page_is_followed_up_to_the_last() {
    assert!(wants_next_page(0, 100));
    assert!(!wants_next_page(0, 99));
    assert!(wants_next_page(3, 100));
    assert!(!wants_next_page(4, 100));
}
