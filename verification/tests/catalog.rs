use polybot::decimal::Decimal;
use polybot::domain::{SourceFamily, SourceQuote, Sport};
use polybot::error::Error;
use polybot::sources::canonical::brand_quotes;
use polybot::sources::{page_is_reachable, probe_health, SourceFacts};
use polybot::sources::catalog::{
    parse_family, ConfiguredSource, SourceCatalog, SourceSpec, SourceTier,
};
use polybot::textmap::TextMap;
use polybot::time::Timestamp;

fn spec(id: &str, family: &str, tier: SourceTier, reference: bool) -> SourceSpec {
    SourceSpec {
        id: id.into(),
        display_name: id.to_uppercase(),
        family: family.into(),
        tier,
        reference,
        homepage: format!("https://{id}.example.com"),
        endpoint_env: format!("{}_ENDPOINT", id.to_uppercase()),
    }
}

fn catalog() -> SourceCatalog {
    SourceCatalog {
        specs: vec![
            spec("pinnacle", "pinnacle", SourceTier::Primary, true),
            spec("circa", "circa", SourceTier::Primary, true),
            spec("bookmaker", "bookmaker", SourceTier::Primary, true),
            spec("betonline", "bet_online", SourceTier::Primary, true),
            spec("bet365", "bet365", SourceTier::Primary, false),
            spec("draftkings", "draft_kings", SourceTier::Primary, false),
            spec("fanduel", "fan_duel", SourceTier::Primary, false),
            spec("caesars", "caesars", SourceTier::Primary, false),
            spec("betmgm", "bet_mgm", SourceTier::Primary, false),
            spec("fanatics", "fanatics", SourceTier::Primary, false),
            spec("bovada", "bovada", SourceTier::Fallback, false),
        ],
    }
}

fn vars(pairs: &[(&str, &str)]) -> TextMap<String> {
    let mut map: TextMap<String> = TextMap::new();
    for (name, value) in pairs {
        map = map.put(name.to_string(), value.to_string());
    }
    map
}

#[test]
fn catalog_has_ten_primary_books_and_distinct_families() {
    let primary = catalog().primary_specs();
    let mut families = primary
        .iter()
        .map(|source| source.family.clone())
        .collect::<Vec<_>>();
    families.sort();
    families.dedup();
    assert_eq!(primary.len(), 10);
    assert_eq!(families.len(), 10);
    assert_eq!(primary.iter().filter(|source| source.reference).count(), 4);
}

#[test]
fn books_come_in_with_their_endpoint_and_the_metered_source_with_a_key() {
    let configured = catalog()
        .configured_sources(&vars(&[
            ("CIRCA_ENDPOINT", "https://circa.example.com/quotes"),
            ("ODDS_API_KEY", "key"),
            ("ENABLE_THE_ODDS_API", "true"),
        ]))
        .unwrap();
    assert!(configured.iter().any(|source| matches!(
        source,
        ConfiguredSource::Canonical { spec, endpoint }
            if spec.id == "circa" && endpoint == "https://circa.example.com/quotes"
    )));
    let without = catalog().configured_sources(&vars(&[])).unwrap();
    assert!(!without
        .iter()
        .any(|source| matches!(source, ConfiguredSource::Canonical { .. })));
    assert!(!without
        .iter()
        .any(|source| matches!(source, ConfiguredSource::TheOddsApi { .. })));
}

#[test]
fn families_are_read_by_name() {
    assert_eq!(parse_family("pinnacle").unwrap(), SourceFamily::Pinnacle);
    assert!(parse_family("nobody").is_err());
}

#[test]
fn adapters_do_not_choose_their_own_identity() {
    let at = |seconds: i64| Timestamp::from_seconds(seconds).unwrap();
    let quote = SourceQuote {
        source_id: "someone".into(),
        family: SourceFamily::Pinnacle,
        sport: Sport::Nba,
        event_id: "provider-event-1".into(),
        participant_a: "A".into(),
        participant_b: "B".into(),
        participant_a_provider_ids: TextMap::new(),
        participant_b_provider_ids: TextMap::new(),
        start_time: at(10),
        start_time_tolerance_minutes: 15,
        decimal_odds_a: Decimal::new(19, 1),
        decimal_odds_b: Decimal::new(20, 1),
        decimal_odds_neutral: None,
        source_timestamp: at(5),
        fetched_at: at(5),
        parser_version: "v".into(),
        validation_only: true,
    };
    let branded = brand_quotes(
        &vec![quote.clone()],
        "circa",
        &SourceFamily::Circa,
        &vec![Sport::Nba],
        at(7),
    );
    assert_eq!(branded.len(), 1);
    assert_eq!(branded[0].source_id, "circa");
    assert_eq!(branded[0].family, SourceFamily::Circa);
    assert_eq!(branded[0].fetched_at, at(7));
    assert!(!branded[0].validation_only);
    assert!(brand_quotes(
        &vec![quote],
        "circa",
        &SourceFamily::Circa,
        &vec![Sport::Nfl],
        at(7)
    )
    .is_empty());
}

#[test]
fn canonical_fixture_uses_decimal_strings() {
    let quotes = brand_quotes(
        &vec![SourceQuote {
            source_id: String::new(),
            family: SourceFamily::Validation("fixture".into()),
            sport: Sport::Nba,
            event_id: "provider-event-1".into(),
            participant_a: "A".into(),
            participant_b: "B".into(),
            participant_a_provider_ids: TextMap::new(),
            participant_b_provider_ids: TextMap::new(),
            start_time: Timestamp::from_seconds(10).unwrap(),
            start_time_tolerance_minutes: 15,
            decimal_odds_a: polybot::decimal::parse_decimal("1.9").unwrap(),
            decimal_odds_b: polybot::decimal::parse_decimal("2.0").unwrap(),
            decimal_odds_neutral: None,
            source_timestamp: Timestamp::from_seconds(5).unwrap(),
            fetched_at: Timestamp::from_seconds(5).unwrap(),
            parser_version: "v".into(),
            validation_only: false,
        }],
        "fixture",
        &SourceFamily::Bovada,
        &vec![Sport::Nba],
        Timestamp::from_seconds(6).unwrap(),
    );
    assert_eq!(quotes.len(), 1);
    assert_eq!(quotes[0].event_id, "provider-event-1");
    assert_eq!(quotes[0].decimal_odds_a, Decimal::new(19, 1));
    assert_eq!(quotes[0].sport, Sport::Nba);
}

#[test]
fn probes_tell_what_they_found() {
    let facts = SourceFacts::single("kalshi".into(), SourceFamily::Kalshi);
    let at = Timestamp::from_seconds(1_760_000_000).unwrap();
    let health = probe_health(&facts, at, 12, Ok(3));
    assert!(health.reachable);
    assert_eq!((health.odds_found, health.latency_ms), (3, 12));
    assert_eq!(health.message, "3 normalized quotes");
    let health = probe_health(&facts, at, 12, Err(Error::Http("timed out".into())));
    assert!(!health.reachable);
    assert_eq!(health.message, "HTTP error: timed out");
    assert!(page_is_reachable(200) && page_is_reachable(302));
    assert!(!page_is_reachable(404) && !page_is_reachable(101));
}
