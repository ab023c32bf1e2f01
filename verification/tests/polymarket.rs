use polybot::decimal::Decimal;
use polybot::domain::Sport;
use polybot::polymarket::{
    book_url, closing_price, decimal_from_value, events_url, gateway_step, normalize_book,
    normalize_event, parse_datetime, price_history_url, select_closing_point,
    settlement_profile_known, settlement_rules_supported, settlement_url, sort_markets, trim_base_url, wants_next_page, ClosingPrice, GatewayStep, Pacer,
    RawAmount, RawBookLevel, RawEvent, RawMarket, RawMarketData, RawMarketSide, RawProviderId,
    RawTeam,
};
use polybot::time::Timestamp;

const NOW: i64 = 1_760_000_000;

fn at(seconds: i64) -> Timestamp {
    Timestamp::from_seconds(seconds).unwrap()
}

fn level(price: &str, quantity: &str) -> RawBookLevel {
    RawBookLevel {
        price: RawAmount::Text(price.into()),
        quantity: quantity.into(),
    }
}

fn raw_book() -> RawMarketData {
    RawMarketData {
        market_slug: "game".into(),
        bids: vec![level("0.42", "10"), level("0.44", "5"), level("0.43", "7")],
        offers: vec![level("0.47", "3"), level("0.45", "9"), level("0.46", "1")],
        state: "MARKET_STATE_OPEN".into(),
        transact_time: "2026-05-01T10:00:00Z".into(),
    }
}

fn side(id: &str, name: &str, long: bool) -> RawMarketSide {
    RawMarketSide {
        id: id.into(),
        description: None,
        long,
        team_id: Some(7),
        team: Some(RawTeam {
            name: name.into(),
            provider_ids: vec![RawProviderId {
                provider: "SPORTRADAR".into(),
                provider_id: format!("sr-{id}"),
            }],
        }),
    }
}

fn raw_market(kind: &str) -> RawMarket {
    RawMarket {
        id: "m1".into(),
        slug: "sparks-aces".into(),
        description: Some("The winner of the full game.".into()),
        sports_market_type: Some(kind.into()),
        active: Some(true),
        closed: Some(false),
        hidden: None,
        ep3_status: Some("OPEN".into()),
        ep3_synced_at: None,
        market_sides: vec![
            side("s1", "Los Angeles Sparks", true),
            side("s2", "Las Vegas Aces", false),
        ],
        order_price_min_tick_size: RawAmount::Number("0.01".into()),
        minimum_trade_qty: RawAmount::Text("1".into()),
        fee_coefficient: RawAmount::Number("0.06".into()),
    }
}

fn raw_event(markets: Vec<RawMarket>) -> RawEvent {
    RawEvent {
        id: "e1".into(),
        start_time: Some("2026-05-01T19:00:00Z".into()),
        start_date: None,
        active: Some(true),
        closed: Some(false),
        live: Some(false),
        ended: Some(false),
        game_id: Some(42),
        sportradar_game_id: None,
        markets,
    }
}

fn before_start() -> Timestamp {
    parse_datetime("2026-05-01T10:00:00Z", "now").unwrap()
}

#[test]
fn nfl_requires_half_dollar_tie_rule() {
    assert!(settlement_rules_supported(
        Sport::Nfl,
        "If the game ends in a tie, the market will settle to $0.50."
    ));
    assert!(!settlement_rules_supported(
        Sport::Nfl,
        "The winner resolves to one."
    ));
}

#[test]
fn tennis_accepts_last_fair_market_price_wording() {
    assert!(settlement_rules_supported(
        Sport::Tennis,
        "A walkover before the first serve settles at the last fair market price."
    ));
}

#[test]
fn closing_point_is_last_at_or_before_start() {
    let stamps = vec![100, 1_000, 1_060];
    let chosen = select_closing_point(&stamps, at(1_000)).unwrap();
    assert_eq!(stamps[chosen], 1_000);
}

#[test]
fn closing_point_falls_back_to_earliest_when_series_starts_late() {
    let stamps = vec![1_120, 1_060, 1_180];
    let chosen = select_closing_point(&stamps, at(1_000)).unwrap();
    assert_eq!(stamps[chosen], 1_060);
}

#[test]
fn closing_point_is_none_for_empty_history() {
    assert!(select_closing_point(&vec![], at(1_000)).is_none());
}

#[test]
fn price_history_converts_floats_to_four_places() {
    let closing = closing_price(
        Decimal::new(43_210_012, 8),
        Decimal::new(56_789_988, 8),
        1,
    )
    .unwrap();
    assert_eq!(closing.long_price, Decimal::new(4321, 4));
    assert_eq!(closing.short_price, Decimal::new(5679, 4));
}

#[test]
fn pacer_spaces_request_starts() {
    let mut pacer = Pacer::new(1_000, 50);
    let starts: Vec<u64> = (0..4).map(|_| pacer.reserve(1_000)).collect();
    // First start is immediate; three more slots of 20 ms follow.
    assert_eq!(
        starts,
        vec![1_000, 20_001_000, 40_001_000, 60_001_000]
    );
}

#[test]
fn no_second_holds_more_starts_than_the_rate() {
    let mut pacer = Pacer::new(0, 18);
    let starts: Vec<u64> = (0..19).map(|_| pacer.reserve(0)).collect();
    assert_eq!(starts[1], 55_555_556);
    assert!(starts[18] - starts[0] >= 1_000_000_000);
}

#[test]
fn settlement_maps_404_to_none_and_parses_payout() {
    assert_eq!(gateway_step(404, false), GatewayStep::Missing);
    assert_eq!(gateway_step(200, false), GatewayStep::Read);
    assert_eq!(
        decimal_from_value(&RawAmount::Text("1".into()), "settlement").unwrap(),
        Decimal::one()
    );
}

#[test]
fn closing_price_uses_last_pre_start_point() {
    let stamps = vec![900, 960, 1_020];
    let long = [Decimal::new(40, 2), Decimal::new(42, 2), Decimal::new(70, 2)];
    let short = [Decimal::new(60, 2), Decimal::new(58, 2), Decimal::new(30, 2)];
    let chosen = select_closing_point(&stamps, at(1_000)).unwrap();
    assert_eq!(
        closing_price(long[chosen], short[chosen], stamps[chosen]).unwrap(),
        ClosingPrice {
            long_price: Decimal::new(42, 2),
            short_price: Decimal::new(58, 2),
            observed_at: at(960),
        }
    );
}

#[test]
fn book_levels_sort_in_executable_order() {
    let book = normalize_book(&raw_book(), at(NOW)).unwrap();
    assert_eq!(book.bids[0].yes_price, Decimal::new(44, 2));
    assert_eq!(book.offers[0].yes_price, Decimal::new(45, 2));
    assert_eq!(book.bids[2].yes_price, Decimal::new(42, 2));
    assert_eq!(book.offers[2].yes_price, Decimal::new(47, 2));
    assert_eq!(book.fetched_at, at(NOW));
}

#[test]
fn event_fixture_filters_to_exact_pregame_moneyline() {
    let mut live = raw_event(vec![raw_market("basketball_team_full_game_winner")]);
    live.live = Some(true);
    let mut hidden = raw_market("basketball_team_full_game_winner");
    hidden.hidden = Some(true);
    let events = vec![
        raw_event(vec![
            raw_market("basketball_team_spread"),
            raw_market("basketball_team_full_game_winner"),
            hidden,
        ]),
        live,
    ];
    let mut markets = Vec::new();
    for event in &events {
        markets.extend(normalize_event(Sport::Nba, event, before_start()).unwrap());
    }
    assert_eq!(markets.len(), 1);
    assert_eq!(
        markets[0].sports_market_type,
        "basketball_team_full_game_winner"
    );
    assert_eq!(markets[0].long_participant.name, "Los Angeles Sparks");
    assert_eq!(markets[0].fee_coefficient, Decimal::new(6, 2));
    assert_eq!(markets[0].tick_size, Decimal::new(1, 2));
}

#[test]
fn started_events_are_left_out() {
    let event = raw_event(vec![raw_market("basketball_team_full_game_winner")]);
    let late = parse_datetime("2026-05-01T19:00:01Z", "now").unwrap();
    assert!(normalize_event(Sport::Nba, &event, late).unwrap().is_empty());
}

#[test]
fn unreadable_books_are_errors() {
    let mut raw = raw_book();
    raw.bids[0].quantity = "ten".into();
    assert!(normalize_book(&raw, at(NOW)).is_err());
    let mut raw = raw_book();
    raw.transact_time = "yesterday".into();
    assert!(normalize_book(&raw, at(NOW)).is_err());
    assert!(decimal_from_value(&RawAmount::Other, "price").is_err());
    assert!(decimal_from_value(&RawAmount::Text("x".into()), "price").is_err());
}

#[test]
fn slugs_are_encoded_into_urls() {
    assert_eq!(trim_base_url("https://example.com//"), "https://example.com");
    let base = "https://example.com";
    assert_eq!(book_url(base, "a b&c"), "https://example.com/v1/markets/a+b%26c/book");
    assert_eq!(
        book_url(base, "A-1_b.c*~\u{e9}"),
        "https://example.com/v1/markets/A-1_b.c*%7E%C3%A9/book"
    );
    assert_eq!(
        settlement_url(base, "game"),
        "https://example.com/v1/markets/game/settlement"
    );
    assert_eq!(
        price_history_url(base, "game"),
        "https://example.com/v1/price-history?symbol=game&fixedInterval=INTERVAL_LIVE&fidelity=1"
    );
    assert!(events_url(base, Sport::Nfl, 1).contains("/v2/leagues/nfl/events"));
    assert!(wants_next_page(0, 100));
    assert!(!wants_next_page(0, 99));
    assert!(!wants_next_page(19, 100));
}

#[test]
fn a_refusal_is_waited_out_once() {
    assert_eq!(gateway_step(429, false), GatewayStep::BackOff);
    assert_eq!(gateway_step(429, true), GatewayStep::Read);
    let mut pacer = Pacer::new(0, 50);
    pacer.back_off(0, 1_000_000_000);
    assert_eq!(pacer.reserve(5), 1_000_000_000);
}

#[test]
fn stamps_beyond_the_calendar_are_errors() {
    let error = closing_price(Decimal::zero(), Decimal::one(), i64::MAX).unwrap_err();
    assert_eq!(
        error.to_text(),
        "invalid upstream data: price history timestamp out of range: 9223372036854775807"
    );
}

#[test]
fn markets_are_listed_by_their_start() {
    let early = raw_event(vec![raw_market("basketball_team_full_game_winner")]);
    let mut late = raw_event(vec![raw_market("basketball_team_full_game_winner")]);
    late.start_time = Some("2026-05-02T19:00:00Z".into());
    let mut markets = normalize_event(Sport::Nba, &late, before_start()).unwrap();
    markets.extend(normalize_event(Sport::Nba, &early, before_start()).unwrap());
    let sorted = sort_markets(markets);
    assert!(sorted[0].start_time.before(sorted[1].start_time));
}

#[test]
fn profiles_are_told_by_their_lower_case_text() {
    assert!(settlement_profile_known(Sport::Nfl, "any", "a tie pays $0.50"));
    assert!(!settlement_profile_known(Sport::Nfl, "A TIE PAYS $0.50", "a draw pays $0.50"));
    assert!(settlement_profile_known(
        Sport::Tennis,
        "any",
        "a walkover settles at fair market price"
    ));
    assert!(!settlement_profile_known(Sport::Nba, "  ", "text"));
    assert!(settlement_rules_supported(Sport::Nfl, "A TIE pays $0.50"));
}

#[test]
fn any_page_has_an_address() {
    assert!(events_url("https://x", Sport::Nfl, 1_000_000).ends_with("&offset=100000000"));
}
