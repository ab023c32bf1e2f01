use polybot::decimal::{parse_exact, Decimal};
use polybot::domain::{SourceFamily, Sport, DEFAULT_START_TIME_TOLERANCE_MINUTES};
use polybot::sources::kalshi::{
    is_us_dst, month_from_abbrev, next_cursor, normalize_markets, parse_start_time, series_ticker,
    series_url, too_many_pages, ApiMarket, DATE_ONLY_TOLERANCE_MINUTES,
};
use polybot::time::{parse_rfc3339, Timestamp};

fn utc(value: &str) -> Timestamp {
    parse_rfc3339(value).unwrap()
}

fn market(
    event: &str,
    code: &str,
    name: &str,
    bid: &str,
    ask: &str,
    rules: &str,
    updated: &str,
) -> ApiMarket {
    ApiMarket {
        ticker: format!("{event}-{code}"),
        event_ticker: event.into(),
        yes_sub_title: name.into(),
        yes_bid_dollars: Some(bid.into()),
        yes_ask_dollars: Some(ask.into()),
        status: "active".into(),
        rules_primary: rules.into(),
        updated_time: updated.into(),
    }
}

#[test]
fn rules_with_clock_time_give_exact_instant() {
    let rules = "If Miami wins the Miami vs Arizona professional baseball game originally scheduled for Sep 14, 2026 at 9:40 PM EDT, then the market resolves to Yes.";
    assert_eq!(
        parse_start_time(rules),
        Some((
            utc("2026-09-15T01:40:00Z"),
            DEFAULT_START_TIME_TOLERANCE_MINUTES
        ))
    );
    // Explicit zone beats the DST rule; missing zone falls back to it.
    let winter = "game scheduled for Jan 5, 2026 at 1:00 PM EST, then";
    assert_eq!(
        parse_start_time(winter).unwrap().0,
        utc("2026-01-05T18:00:00Z")
    );
    let unzoned = "game scheduled for Jan 5, 2026 at 12:30 AM, then";
    assert_eq!(
        parse_start_time(unzoned).unwrap().0,
        utc("2026-01-05T05:30:00Z")
    );
    assert!(parse_start_time("no schedule here").is_none());
}

#[test]
fn date_only_rules_cover_the_whole_day() {
    let rules = "If Baltimore wins the Baltimore vs Cleveland professional football game originally scheduled for Sep 21, 2026, then the market resolves to Yes.";
    assert_eq!(
        parse_start_time(rules),
        Some((utc("2026-09-21T16:00:00Z"), DATE_ONLY_TOLERANCE_MINUTES))
    );
}

#[test]
fn dst_boundaries_follow_us_rules() {
    assert!(!is_us_dst(2026, 3, 7));
    assert!(is_us_dst(2026, 3, 8));
    assert!(is_us_dst(2026, 10, 31));
    assert!(!is_us_dst(2026, 11, 1));
}

#[test]
fn two_market_event_becomes_one_quote_and_wide_spread_is_rejected() {
    let markets = vec![
        market(
            "KXMLBGAME-26SEP142140MIAAZ",
            "MIA",
            "Miami",
            "0.4200",
            "0.4500",
            "If Miami wins the Miami vs Arizona professional baseball game originally scheduled for Sep 14, 2026 at 9:40 PM EDT, then the market resolves to Yes.",
            "2026-09-12T17:38:58.431951Z",
        ),
        market(
            "KXMLBGAME-26SEP142140MIAAZ",
            "AZ",
            "Arizona",
            "0.5500",
            "0.5800",
            "If Arizona wins the Miami vs Arizona professional baseball game originally scheduled for Sep 14, 2026 at 9:40 PM EDT, then the market resolves to Yes.",
            "2026-09-12T17:40:00Z",
        ),
        market(
            "KXMLBGAME-26SEP152140MIAAZ",
            "MIA",
            "Miami",
            "0.3000",
            "0.4500",
            "... originally scheduled for Sep 15, 2026 at 9:40 PM EDT, then ...",
            "2026-09-12T17:40:00Z",
        ),
        market(
            "KXMLBGAME-26SEP152140MIAAZ",
            "AZ",
            "Arizona",
            "0.5500",
            "0.5800",
            "... originally scheduled for Sep 15, 2026 at 9:40 PM EDT, then ...",
            "2026-09-12T17:40:00Z",
        ),
    ];
    let fetched_at = utc("2026-09-12T18:00:00Z");
    let quotes = normalize_markets(Sport::Mlb, &markets, fetched_at);
    assert_eq!(quotes.len(), 1, "wide-spread event must be dropped");
    let quote = &quotes[0];
    assert_eq!(quote.source_id, "kalshi");
    assert_eq!(quote.family, SourceFamily::Kalshi);
    assert_eq!(quote.sport, Sport::Mlb);
    assert_eq!(quote.event_id, "KXMLBGAME-26SEP142140MIAAZ");
    assert_eq!(quote.participant_a, "Miami");
    assert_eq!(quote.participant_b, "Arizona");
    assert_eq!(
        quote
            .participant_a_provider_ids
            .get("kalshi")
            .map(String::as_str),
        Some("KXMLBGAME-26SEP142140MIAAZ-MIA")
    );
    assert_eq!(
        quote.decimal_odds_a,
        Decimal::one()
            .checked_div(parse_exact("0.4500").unwrap())
            .unwrap()
    );
    assert_eq!(
        quote.decimal_odds_b,
        Decimal::one()
            .checked_div(parse_exact("0.5800").unwrap())
            .unwrap()
    );
    assert_eq!(quote.decimal_odds_neutral, None);
    assert_eq!(quote.start_time, utc("2026-09-15T01:40:00Z"));
    assert_eq!(
        quote.start_time_tolerance_minutes,
        DEFAULT_START_TIME_TOLERANCE_MINUTES
    );
    assert_eq!(quote.source_timestamp, utc("2026-09-12T17:40:00Z"));
    assert_eq!(quote.fetched_at, fetched_at);
    assert_eq!(quote.parser_version, "kalshi-v2-markets");
    assert!(!quote.validation_only);
}

#[test]
fn months_and_series_are_known_by_name() {
    assert_eq!(month_from_abbrev("Sep"), Some(9));
    assert_eq!(month_from_abbrev("Foo"), None);
    assert!(series_ticker(Sport::Mlb).is_some());
    let url = series_url("https://example.com", "KXMLBGAME", "next");
    assert!(url.contains("KXMLBGAME") && url.contains("next"), "{url}");
}

#[test]
fn an_empty_or_repeated_cursor_ends_the_pages() {
    assert_eq!(next_cursor("a", &Some("b".into())), Some("b".to_string()));
    assert_eq!(next_cursor("a", &Some("".into())), None);
    assert_eq!(next_cursor("a", &None), None);
}

#[test]
fn endless_series_are_refused() {
    assert_eq!(
        too_many_pages("KXNFLGAME").to_text(),
        "source kalshi failed: KXNFLGAME: pagination exceeded 100 pages"
    );
}
