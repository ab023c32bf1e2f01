use polybot::consensus::{build_consensus, remove_vig};
use polybot::decimal::Decimal;
use polybot::domain::{SourceFamily, SourceQuote, Sport};
use polybot::textmap::TextMap;
use polybot::time::Timestamp;

const NOW: i64 = 1_760_000_000;

fn at(seconds: i64) -> Timestamp {
    Timestamp::from_seconds(seconds).unwrap()
}

fn quote(source: &str, family: SourceFamily, a: i64, b: i64) -> SourceQuote {
    SourceQuote {
        source_id: source.into(),
        family,
        sport: Sport::Nfl,
        event_id: "event".into(),
        participant_a: "A".into(),
        participant_b: "B".into(),
        participant_a_provider_ids: TextMap::new(),
        participant_b_provider_ids: TextMap::new(),
        start_time: at(NOW),
        start_time_tolerance_minutes: 15,
        decimal_odds_a: Decimal::new(a, 2),
        decimal_odds_b: Decimal::new(b, 2),
        decimal_odds_neutral: None,
        source_timestamp: at(NOW),
        fetched_at: at(NOW),
        parser_version: "test".into(),
        validation_only: false,
    }
}

fn sum(a: Decimal, b: Decimal) -> Decimal {
    a.checked_add(b).unwrap()
}

#[test]
fn proportional_de_vig_sums_to_one() {
    let fair = remove_vig(&quote("a", SourceFamily::Circa, 180, 220)).unwrap();
    assert_eq!(sum(fair.probability_a, fair.probability_b), Decimal::one());
}

#[test]
fn neutral_outcome_is_split_between_contract_sides() {
    let mut value = quote("a", SourceFamily::Circa, 200, 200);
    value.decimal_odds_neutral = Some(Decimal::new(1000, 2));
    let fair = remove_vig(&value).unwrap();
    assert_eq!(sum(fair.probability_a, fair.probability_b), Decimal::one());
    assert!(fair.probability_neutral > Decimal::zero());
}

#[test]
fn consensus_deduplicates_families_and_rejects_outlier() {
    let quotes = vec![
        quote("circa", SourceFamily::Circa, 190, 200),
        quote("kambi-a", SourceFamily::Kambi, 195, 195),
        quote("kambi-b", SourceFamily::Kambi, 194, 196),
        quote("fanduel", SourceFamily::FanDuel, 192, 198),
        quote("bad", SourceFamily::Validation("bad".into()), 101, 900),
    ];
    let result = build_consensus(&quotes, 600, at(NOW)).unwrap();
    assert_eq!(result.family_count, 3);
    assert!(result.has_reference);
    assert!(result.probability_a < Decimal::new(60, 2));
}

#[test]
fn consensus_excludes_stale_and_validation_only_quotes() {
    let mut stale = quote("stale", SourceFamily::Circa, 190, 200);
    stale.fetched_at = at(NOW - 20 * 60);
    let mut validator = quote(
        "validator",
        SourceFamily::Validation("validator".into()),
        190,
        200,
    );
    validator.validation_only = true;
    let quotes = vec![
        stale,
        validator,
        quote("pinnacle", SourceFamily::Pinnacle, 190, 200),
    ];
    let result = build_consensus(&quotes, 300, at(NOW)).unwrap();
    assert_eq!(result.family_count, 1);
    assert_eq!(result.source_ids, vec!["pinnacle"]);
}

#[test]
fn even_odds_are_an_even_chance() {
    let fair = remove_vig(&quote("a", SourceFamily::Circa, 190, 190)).unwrap();
    assert_eq!(fair.probability_a, Decimal::new(5, 1));
    assert_eq!(fair.probability_b, Decimal::new(5, 1));
    assert_eq!(fair.probability_neutral, Decimal::zero());
}

#[test]
fn odds_that_pay_nothing_are_refused() {
    let error = remove_vig(&quote("a", SourceFamily::Circa, 100, 190)).unwrap_err();
    assert_eq!(error.to_text(), "invalid upstream data: a supplied invalid decimal odds");
}

#[test]
fn no_usable_quote_is_an_error() {
    assert!(build_consensus(&vec![], 300, at(NOW)).is_err());
    let mut old = quote("old", SourceFamily::Circa, 190, 190);
    old.fetched_at = at(NOW - 301);
    assert!(build_consensus(&vec![old], 300, at(NOW)).is_err());
}

#[test]
fn a_second_skin_of_a_family_adds_no_voice() {
    let one = vec![quote("kambi-a", SourceFamily::Kambi, 195, 195)];
    let two = vec![
        quote("kambi-a", SourceFamily::Kambi, 195, 195),
        quote("kambi-b", SourceFamily::Kambi, 195, 195),
    ];
    assert_eq!(build_consensus(&one, 600, at(NOW)).unwrap().family_count, 1);
    assert_eq!(build_consensus(&two, 600, at(NOW)).unwrap().family_count, 1);
}

#[test]
fn fair_prices_are_probabilities_in_the_order_of_the_odds() {
    for (a, b) in [(101, 5000), (150, 300), (199, 201), (9_999_999, 101)] {
        let fair = remove_vig(&quote("one", SourceFamily::Pinnacle, a, b)).unwrap();
        assert!(fair.probability_a >= Decimal::zero() && fair.probability_a <= Decimal::one());
        assert!(fair.probability_b >= Decimal::zero() && fair.probability_b <= Decimal::one());
        assert_eq!(a < b, fair.probability_a > fair.probability_b);
    }
    let mut three = quote("one", SourceFamily::Pinnacle, 101, 9_000_000);
    three.decimal_odds_neutral = Some(Decimal::new(9_000_000, 2));
    let fair = remove_vig(&three).unwrap();
    assert!(fair.probability_a <= Decimal::one());
    assert_eq!(sum(fair.probability_a, fair.probability_b), Decimal::one());
}

#[test]
fn outliers_never_take_more_than_half_of_the_families() {
    let quotes = vec![
        quote("a", SourceFamily::Pinnacle, 150, 300),
        quote("b", SourceFamily::Circa, 110, 900),
        quote("c", SourceFamily::FanDuel, 900, 110),
        quote("d", SourceFamily::DraftKings, 300, 150),
    ];
    let consensus = build_consensus(&quotes, 120, at(NOW)).unwrap();
    assert!(2 * consensus.family_count >= quotes.len());
}
