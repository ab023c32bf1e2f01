use std::collections::BTreeMap;

use polybot::decimal::Decimal;
use polybot::domain::{SourceFamily, SourceQuote, Sport};
use polybot::error::Error;
use polybot::sources::smarkets::{
    batched, competition_ids, event_ids, event_sport, league_sport, list_contracts, next_query,
    normalize_market, price_to_decimal, select_winner_markets, sports_by_type, upcoming,
    wanted_events, Book, Contract, Event, Level, Market,
};
use polybot::textmap::TextMap;
use polybot::time::{parse_rfc3339, Timestamp};

fn utc(value: &str) -> Timestamp {
    parse_rfc3339(value).unwrap()
}

fn event(id: &str, name: &str, start: &str, bettable: bool, parent: &str) -> Event {
    Event {
        id: id.into(),
        name: name.into(),
        start_datetime: Some(utc(start)),
        bettable,
        parent_id: Some(parent.into()),
    }
}

fn events() -> Vec<Event> {
    vec![
        event(
            "45315769",
            "Whitney Osuigwe vs Fernanda Labrana",
            "2026-09-12T22:30:00Z",
            true,
            "44600126",
        ),
        event(
            "45170336",
            "Houston Astros at Tampa Bay Rays",
            "2026-09-12T22:10:00Z",
            true,
            "13240353",
        ),
        event(
            "45310230",
            "Merrimack Warriors at Maine Black Bears",
            "2026-09-12T21:00:00Z",
            true,
            "42832523",
        ),
        event(
            "45076647",
            "Chicago Bears at Carolina Panthers",
            "2026-09-13T17:00:00Z",
            false,
            "7763291",
        ),
    ]
}

fn market(id: &str, event_id: &str, name: &str, state: &str, kind: &str) -> Market {
    Market {
        id: id.into(),
        event_id: event_id.into(),
        name: name.into(),
        state: state.into(),
        market_type: kind.into(),
    }
}

fn markets() -> Vec<Market> {
    vec![
        market("163795275", "45315769", "Match winner", "open", "WINNER_2_WAY"),
        market("163795276", "45315769", "Set 1 winner", "open", "SET_ONE_WINNER"),
        market("163740482", "45170336", "Match winner", "open", "WINNER_2_WAY"),
        market("163740618", "45170336", "Astros +3.5 / Rays -3.5", "open", "HANDICAP"),
        market("139996523", "45069402", "Winner", "open", "WINNER_DNB"),
        market(
            "162801054",
            "45069402",
            "Winner (only regular time)",
            "open",
            "WINNER_3_WAY",
        ),
        market("163740999", "45170337", "Match winner", "suspended", "WINNER_2_WAY"),
    ]
}

fn contract(id: &str, market_id: &str, name: &str, kind: &str) -> Contract {
    Contract {
        id: id.into(),
        market_id: market_id.into(),
        name: name.into(),
        contract_type: kind.into(),
    }
}

fn contracts() -> Vec<Contract> {
    vec![
        contract("452969441", "163795275", "Whitney Osuigwe", "PLAYER_A"),
        contract("452969442", "163795275", "Fernanda Labrana", "PLAYER_B"),
        contract("452793500", "163740482", "Astros (P. Lambert)", "AWAY"),
        contract("452793499", "163740482", "Rays (I. Seymour)", "HOME"),
    ]
}

fn levels(pairs: &[(i64, i64)]) -> Vec<Level> {
    pairs
        .iter()
        .map(|(price, quantity)| Level {
            price: *price,
            quantity: *quantity,
        })
        .collect()
}

fn book(bids: &[(i64, i64)], offers: &[(i64, i64)]) -> Book {
    Book {
        bids: levels(bids),
        offers: levels(offers),
    }
}

fn books() -> TextMap<Book> {
    TextMap::new()
        .insert(
            "452969441".into(),
            book(&[(8772, 393752), (8547, 382923)], &[(9174, 16394467)]),
        )
        .insert(
            "452969442".into(),
            book(
                &[(833, 539013), (667, 7679300)],
                &[(1220, 8135400), (1111, 3049346)],
            ),
        )
        .insert("452793500".into(), book(&[(4237, 287938)], &[]))
        .insert(
            "452793499".into(),
            book(&[(5587, 3865082)], &[(5780, 2681126)]),
        )
}

fn winner(id: &str) -> Market {
    select_winner_markets(markets())
        .into_iter()
        .find(|market| market.id == id)
        .unwrap()
}

fn quote(
    sport: Sport,
    event: &Event,
    market_id: &str,
    books: &TextMap<Book>,
) -> Result<SourceQuote, Error> {
    let contracts = contracts();
    let places = list_contracts(&contracts, market_id);
    normalize_market(
        sport,
        event,
        &winner(market_id),
        &contracts,
        &places,
        books,
        Timestamp::from_seconds(1_760_000_000).unwrap(),
    )
}

#[test]
fn price_converts_to_decimal_odds() {
    assert_eq!(price_to_decimal(8772), Some(Decimal::new(114, 2)));
    assert_eq!(price_to_decimal(9174), Some(Decimal::new(10900, 4)));
    assert_eq!(price_to_decimal(1111), Some(Decimal::new(90009, 4)));
    assert_eq!(price_to_decimal(5000), Some(Decimal::two()));
}

#[test]
fn tennis_market_normalizes_from_best_offers() {
    let quote = quote(Sport::Tennis, &events()[0], "163795275", &books()).unwrap();
    assert_eq!(quote.source_id, "smarkets");
    assert_eq!(quote.family, SourceFamily::Other("smarkets".into()));
    assert_eq!(quote.event_id, "45315769");
    assert_eq!(quote.participant_a, "Whitney Osuigwe");
    assert_eq!(quote.participant_b, "Fernanda Labrana");
    assert_eq!(quote.participant_a_provider_ids.get("smarkets").unwrap(), "452969441");
    assert_eq!(quote.participant_b_provider_ids.get("smarkets").unwrap(), "452969442");
    assert_eq!(quote.decimal_odds_a, Decimal::new(10900, 4));
    assert_eq!(quote.decimal_odds_b, Decimal::new(90009, 4));
    assert_eq!(quote.decimal_odds_neutral, None);
    assert_eq!(quote.start_time, utc("2026-09-12T22:30:00Z"));
    assert_eq!(quote.source_timestamp, quote.fetched_at);
    assert_eq!(quote.parser_version, "smarkets-v1");
}

#[test]
fn team_market_without_offers_on_one_side_is_skipped() {
    let error = quote(Sport::Mlb, &events()[1], "163740482", &books()).unwrap_err();
    assert!(error.to_text().contains("no offers"), "{error:?}");
}

#[test]
fn team_names_come_from_event_title_with_home_as_participant_a() {
    let books = books().insert(
        "452793500".into(),
        book(&[(4237, 287938)], &[(4386, 5918200)]),
    );
    let quote = quote(Sport::Mlb, &events()[1], "163740482", &books).unwrap();
    assert_eq!(quote.participant_a, "Tampa Bay Rays");
    assert_eq!(quote.participant_b, "Houston Astros");
    assert_eq!(quote.participant_a_provider_ids.get("smarkets").unwrap(), "452793499");
    assert_eq!(Some(quote.decimal_odds_a), price_to_decimal(5780));
    assert_eq!(Some(quote.decimal_odds_b), price_to_decimal(4386));
}

#[test]
fn illiquid_and_thin_books_are_skipped() {
    // Overround: 9174 + 2500 = 11674 bp > 11500 even with a tight spread.
    let wide = books().insert(
        "452969442".into(),
        book(&[(2400, 539013)], &[(2500, 3049346)]),
    );
    let error = quote(Sport::Tennis, &events()[0], "163795275", &wide).unwrap_err();
    assert!(error.to_text().contains("11674 bp"), "{error:?}");

    // Spread: best bid 833 vs offer 1900 is 1067 bp > 1000.
    let spread = books().insert(
        "452969442".into(),
        book(&[(833, 539013)], &[(1900, 3049346)]),
    );
    let error = quote(Sport::Tennis, &events()[0], "163795275", &spread).unwrap_err();
    assert!(error.to_text().contains("spread 1067 bp"), "{error:?}");

    // Size: best offer below the minimum quantity.
    let thin = books().insert(
        "452969442".into(),
        book(&[(833, 539013)], &[(1111, 9999)]),
    );
    let error = quote(Sport::Tennis, &events()[0], "163795275", &thin).unwrap_err();
    assert!(error.to_text().contains("quantity 9999"), "{error:?}");
}

#[test]
fn winner_market_selection_keeps_one_open_two_way_market_per_event() {
    let winners = select_winner_markets(markets());
    let by_event = winners
        .iter()
        .map(|market| (market.event_id.as_str(), market.market_type.as_str()))
        .collect::<BTreeMap<_, _>>();
    assert_eq!(
        by_event,
        BTreeMap::from([
            ("45315769", "WINNER_2_WAY"),
            ("45170336", "WINNER_2_WAY"),
            ("45069402", "WINNER_DNB"),
        ])
    );
}

#[test]
fn competition_name_filters_sport_and_bettable_flag() {
    let events = events();
    let competitions = TextMap::new()
        .put("13240353".to_string(), "MLB".to_string())
        .put("42832523".to_string(), "College Football".to_string())
        .put("7763291".to_string(), "NFL".to_string());
    let now = utc("2026-09-12T22:00:00Z");
    let kept = events
        .iter()
        .filter(|event| event.is_pregame(now))
        .filter_map(|event| {
            event_sport(event, &competitions, &vec![Sport::Mlb, Sport::Nfl])
                .map(|sport| (event.id.as_str(), sport))
        })
        .collect::<Vec<_>>();
    // Tennis event has no US competition; college game is not NFL; the
    // NFL game is not bettable; only MLB remains (and it starts after now).
    assert_eq!(kept, vec![("45170336", Sport::Mlb)]);

    assert_eq!(
        event_sport(&events[0], &competitions, &vec![Sport::Tennis]),
        Some(Sport::Tennis)
    );
    assert_eq!(event_sport(&events[1], &competitions, &vec![Sport::Nba]), None);
    assert_eq!(league_sport("WNBA"), Some(Sport::Wnba));
    assert_eq!(league_sport("NBA Summer League"), None);
}

#[test]
fn identifiers_are_asked_for_in_batches() {
    let ids: Vec<String> = (0..51).map(|n| n.to_string()).collect();
    let batches = batched(&ids);
    assert_eq!(batches.len(), 2);
    assert_eq!(batches[1], "50");
    assert_eq!(next_query("?a", &None), None);
}

#[test]
fn one_type_serves_several_sports() {
    let groups = sports_by_type(&vec![Sport::Wnba, Sport::Tennis, Sport::Nba]);
    assert_eq!(
        groups,
        vec![
            ("basketball_match", vec![Sport::Wnba, Sport::Nba]),
            ("tennis_match", vec![Sport::Tennis]),
        ]
    );
}

#[test]
fn competitions_are_looked_up_once_and_never_for_tennis() {
    let mut all = events();
    all.push(event("9", "Texas Rangers at Seattle Mariners", "2026-09-12T23:10:00Z", true, "13240353"));
    let open = upcoming(&all, utc("2026-09-12T20:00:00Z"));
    assert_eq!(open.len(), 4);
    assert_eq!(
        competition_ids(&open, &vec![Sport::Mlb]),
        vec!["13240353", "42832523", "44600126"]
    );
    assert!(competition_ids(&open, &vec![Sport::Tennis]).is_empty());

    let competitions = TextMap::new().put("13240353".into(), "MLB".into());
    let wanted = wanted_events(&open, &competitions, &vec![Sport::Mlb]);
    assert_eq!(event_ids(&wanted), vec!["45170336", "9"]);
    assert!(wanted.iter().all(|(sport, _)| *sport == Sport::Mlb));
}
