use polybot::decimal::Decimal;
use polybot::domain::{SourceFamily, Sport};
use polybot::sources::the_odds_api::{
    asks_for_tennis, minimum_remaining, normalize_event, odds_url, probe_message, sport_keys, ApiBookmaker, ApiEvent,
    ApiMarket, ApiOutcome, ApiSport, CreditBudget,
};
use polybot::time::{parse_rfc3339, Timestamp};

fn from_float(value: f64) -> Decimal {
    let number = rust_decimal::Decimal::from_f64_retain(value).unwrap();
    Decimal::from_parts(number.mantissa(), number.scale()).unwrap()
}

fn event() -> ApiEvent {
    ApiEvent {
        id: "abc".into(),
        commence_time: "2026-09-13T17:00:00Z".into(),
        home_team: "Cincinnati Bengals".into(),
        away_team: "Tampa Bay Buccaneers".into(),
    }
}

fn bookmaker(key: &str) -> ApiBookmaker {
    ApiBookmaker {
        key: key.into(),
        last_update: Some("2026-09-12T17:00:00Z".into()),
        markets: vec![ApiMarket {
            key: "h2h".into(),
            last_update: Some("2026-09-12T17:05:00Z".into()),
            outcomes: vec![
                ApiOutcome {
                    name: "Cincinnati Bengals".into(),
                    price: Some(from_float(1.48)),
                },
                ApiOutcome {
                    name: "Tampa Bay Buccaneers".into(),
                    price: Some(from_float(2.72)),
                },
            ],
        }],
    }
}

fn now() -> Timestamp {
    Timestamp::from_seconds(1_760_000_000).unwrap()
}

#[test]
fn bookmakers_map_to_families_and_enter_consensus() {
    let quote = normalize_event(Sport::Nfl, &event(), &bookmaker("pinnacle"), now())
        .unwrap()
        .unwrap();
    assert_eq!(quote.family, SourceFamily::Pinnacle);
    assert!(quote.family.is_reference());
    assert!(!quote.validation_only);
    assert_eq!(quote.source_id, "the_odds_api:pinnacle");
    assert_eq!(
        quote.source_timestamp,
        parse_rfc3339("2026-09-12T17:05:00Z").unwrap()
    );
    assert_eq!(quote.decimal_odds_a, from_float(1.48));
}

#[test]
fn skins_collapse_onto_one_family() {
    assert_eq!(
        SourceFamily::from_odds_api_key("betrivers"),
        SourceFamily::from_odds_api_key("unibet_us")
    );
    assert_eq!(
        SourceFamily::from_odds_api_key("williamhill_us"),
        SourceFamily::Caesars
    );
    assert_eq!(
        SourceFamily::from_odds_api_key("novig"),
        SourceFamily::Other("novig".into())
    );
    assert!(!SourceFamily::from_odds_api_key("novig").is_reference());
}

#[test]
fn a_book_without_the_market_gives_nothing() {
    let mut book = bookmaker("pinnacle");
    book.markets[0].key = "spreads".into();
    assert!(normalize_event(Sport::Nfl, &event(), &book, now())
        .unwrap()
        .is_none());
}

#[test]
fn credits_are_kept_back() {
    let mut budget = CreditBudget::new(40);
    assert!(budget.budget_allows());
    budget.remaining = Some(41);
    assert!(budget.budget_allows());
    budget.remaining = Some(39);
    assert!(!budget.budget_allows());
    assert_eq!(minimum_remaining(&None).unwrap(), 40);
    assert_eq!(minimum_remaining(&Some("7".into())).unwrap(), 7);
    assert!(minimum_remaining(&Some("x".into())).is_err());
    assert!(probe_message("ok", Some(12)).contains("12"));
}

#[test]
fn tennis_follows_the_active_tournaments() {
    let listed = vec![
        ApiSport {
            key: "tennis_atp_us_open".into(),
            group: "Tennis".into(),
            active: true,
        },
        ApiSport {
            key: "tennis_wta_us_open".into(),
            group: "Tennis".into(),
            active: false,
        },
    ];
    let keys = sport_keys(&vec![Sport::Tennis, Sport::Nfl], &listed);
    assert!(keys.iter().any(|(key, sport)| key == "tennis_atp_us_open" && *sport == Sport::Tennis));
    assert!(!keys.iter().any(|(key, _)| key == "tennis_wta_us_open"));
    assert!(keys.iter().any(|(_, sport)| *sport == Sport::Nfl));
    let url = odds_url("https://example.com", "nfl", "key", "us");
    assert!(url.contains("key") && url.contains("us"), "{url}");
}

#[test]
fn the_index_is_asked_for_only_with_tennis() {
    assert!(asks_for_tennis(true, &vec![Sport::Nfl, Sport::Tennis]));
    assert!(!asks_for_tennis(false, &vec![Sport::Tennis]));
    assert!(!asks_for_tennis(true, &vec![Sport::Nfl]));
}
