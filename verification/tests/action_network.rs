use polybot::decimal::Decimal;
use polybot::domain::{SourceFamily, Sport};
use polybot::sources::action_network::{
    book, book_ids, families, league_slug, normalize_games, parse_timestamp, Game, OddsRow, Team,
};
use polybot::time::{parse_rfc3339, Timestamp};

fn utc(value: &str) -> Timestamp {
    parse_rfc3339(value).unwrap()
}

fn team(id: u64, name: &str) -> Team {
    Team {
        id,
        full_name: name.into(),
    }
}

fn row(book_id: u64, home: i64, away: Option<i64>, inserted: &str) -> OddsRow {
    OddsRow {
        book_id,
        kind: "game".into(),
        ml_home: Some(home),
        ml_away: away,
        inserted: Some(inserted.into()),
    }
}

/// Books: 68 DraftKings, 69 FanDuel, 75 BetMGM (fresh), 30 Open (unmapped),
/// 1 BetOnline (stale, three weeks old), 71 BetRivers (one-sided).
fn games() -> Vec<Game> {
    vec![
        Game {
            id: 290844,
            start_time: "2026-09-13T17:00:00.000Z".into(),
            status: "scheduled".into(),
            home_team_id: 135,
            away_team_id: 127,
            teams: vec![team(127, "New York Jets"), team(135, "Tennessee Titans")],
            odds: vec![
                row(68, -130, Some(110), "2026-09-12T18:50:02.294126+00:00"),
                row(69, -118, Some(-100), "2026-09-12T15:57:07.241901+00:00"),
                row(75, -120, Some(100), "2026-09-12T18:39:50.215594+00:00"),
                row(30, -145, Some(120), "2026-09-12T18:42:12.525190+00:00"),
                row(1, -130, Some(110), "2026-08-24T13:42:12.525190+00:00"),
                row(71, -125, None, "2026-09-12T19:06:14.350421+00:00"),
            ],
        },
        Game {
            id: 290801,
            start_time: "2026-09-12T00:15:00.000Z".into(),
            status: "complete".into(),
            home_team_id: 112,
            away_team_id: 120,
            teams: vec![
                team(112, "Green Bay Packers"),
                team(120, "Washington Commanders"),
            ],
            odds: vec![row(68, -160, Some(135), "2026-09-12T18:50:02.294126+00:00")],
        },
    ]
}

#[test]
fn scheduled_game_emits_one_quote_per_mapped_fresh_book() {
    let fetched_at = utc("2026-09-12T21:00:00Z");
    let quotes = normalize_games(Sport::Nfl, &games(), fetched_at);

    let mut source_ids = quotes
        .iter()
        .map(|quote| quote.source_id.as_str())
        .collect::<Vec<_>>();
    source_ids.sort_unstable();
    assert_eq!(
        source_ids,
        [
            "action_network:betmgm",
            "action_network:draftkings",
            "action_network:fanduel"
        ]
    );
    let families = quotes
        .iter()
        .map(|quote| quote.family.clone())
        .collect::<Vec<_>>();
    assert!(families.contains(&SourceFamily::DraftKings));
    assert!(families.contains(&SourceFamily::FanDuel));
    assert!(families.contains(&SourceFamily::BetMgm));
    assert!(quotes.iter().all(|quote| quote.event_id == "290844"));

    let draftkings = quotes
        .iter()
        .find(|quote| quote.source_id == "action_network:draftkings")
        .unwrap();
    assert_eq!(draftkings.sport, Sport::Nfl);
    assert_eq!(draftkings.participant_a, "Tennessee Titans");
    assert_eq!(draftkings.participant_b, "New York Jets");
    assert_eq!(
        draftkings.participant_a_provider_ids.get("action_network").unwrap(),
        "135"
    );
    assert_eq!(
        draftkings.participant_b_provider_ids.get("action_network").unwrap(),
        "127"
    );
    assert_eq!(draftkings.decimal_odds_a, Decimal::new(17692, 4));
    assert_eq!(draftkings.decimal_odds_b, Decimal::new(21, 1));
    assert_eq!(draftkings.start_time, utc("2026-09-13T17:00:00Z"));
    assert_eq!(
        draftkings.source_timestamp,
        utc("2026-09-12T18:50:02.294126Z")
    );
    assert_eq!(draftkings.fetched_at, fetched_at);
    assert_eq!(draftkings.parser_version, "action_network-v1");
}

#[test]
fn stale_row_is_fresh_again_when_fetched_within_the_window() {
    let quotes = normalize_games(Sport::Nfl, &games(), utc("2026-08-24T20:00:00Z"));
    assert!(quotes
        .iter()
        .any(|quote| quote.source_id == "action_network:betonline"));
}

#[test]
fn families_cover_every_mapped_book() {
    let families = families();
    assert_eq!(families.len(), book_ids().len());
    assert!(families.contains(&SourceFamily::DraftKings));
    assert!(families.contains(&SourceFamily::FanDuel));
    for id in book_ids() {
        assert!(book(id).is_some());
    }
}

#[test]
fn tennis_is_not_offered_and_needs_no_request() {
    assert!(league_slug(Sport::Tennis).is_none());
    assert_eq!(league_slug(Sport::Nfl), Some("nfl"));
}

#[test]
fn unreadable_instants_are_errors() {
    assert!(parse_timestamp("noon").is_err());
    assert!(book(30).is_none());
}
