use polybot::config::{RunMode, Settings};
use polybot::decimal::Decimal;
use polybot::textmap::TextMap;

fn vars(pairs: &[(&str, &str)]) -> TextMap<String> {
    let mut map: TextMap<String> = TextMap::new();
    for (name, value) in pairs {
        map = map.put(name.to_string(), value.to_string());
    }
    map
}

fn complaint(pairs: &[(&str, &str)]) -> String {
    Settings::from_env(&vars(pairs)).unwrap_err().to_text()
}

#[test]
fn defaults_enforce_requested_risk_limits() {
    let settings = Settings::default();
    settings.validate().unwrap();
    assert_eq!(settings.bankroll, Decimal::one_hundred());
    assert_eq!(settings.maximum_position_fraction, Decimal::new(5, 2));
    assert_eq!(settings.maximum_total_exposure, Decimal::new(5, 0));
}

#[test]
fn position_risk_above_five_percent_is_invalid() {
    let settings = Settings {
        maximum_position_fraction: Decimal::new(6, 2),
        ..Settings::default()
    };
    assert!(settings.validate().is_err());
}

#[test]
fn an_empty_environment_gives_the_defaults() {
    let settings = Settings::from_env(&vars(&[])).unwrap();
    let defaults = Settings::default();
    assert_eq!(settings.run_mode, RunMode::Local);
    assert_eq!(settings.scan_interval, defaults.scan_interval);
    assert_eq!(settings.minimum_net_edge, defaults.minimum_net_edge);
    assert!(settings.database_url.is_none());
}

#[test]
fn run_modes_are_read_without_regard_to_case() {
    assert_eq!(RunMode::parse(" AWS ").unwrap(), RunMode::Cloud);
    assert_eq!(RunMode::parse("Local").unwrap(), RunMode::Local);
    assert_eq!(RunMode::parse("moon").unwrap_err(), "expected local or cloud, got moon");
}

#[test]
fn unreadable_numbers_name_their_variable() {
    let text = complaint(&[("SCAN_INTERVAL_SECONDS", "soon")]);
    assert!(text.starts_with("configuration error: "), "{text}");
    assert!(text.contains("SCAN_INTERVAL_SECONDS"), "{text}");
    let text = complaint(&[("PAPER_BANKROLL", "many")]);
    assert!(text.contains("PAPER_BANKROLL"), "{text}");
}

#[test]
fn a_set_bankroll_is_used() {
    let settings = Settings::from_env(&vars(&[("PAPER_BANKROLL", "250.50")])).unwrap();
    assert_eq!(settings.bankroll, Decimal::new(25050, 2));
    assert_eq!(settings.bankroll.to_text(), "250.50");
}

#[test]
fn narrow_numbers_are_read_as_their_own_type() {
    assert_eq!(
        complaint(&[("LOCAL_RETENTION_DAYS", "99999999999x")]),
        "configuration error: LOCAL_RETENTION_DAYS: number too large to fit in target type"
    );
}
