use polybot::decimal::Decimal;
use polybot::domain::{SourceFamily, Sport};
use polybot::sources::american_to_decimal;
use polybot::sources::espn::{
    espn_path, is_pregame, keyed_family, normalize_competition, parse_espn_date, provider_family, provider_key, Competition,
    Competitor, OddsItem, Team,
};
use polybot::time::{parse_rfc3339, Timestamp};

fn competition() -> Competition {
    Competition {
        id: "401".into(),
        state: "pre".into(),
        competitors: vec![
            Competitor {
                home_away: "away".into(),
                team: Team {
                    id: "27".into(),
                    display_name: "Tampa Bay Buccaneers".into(),
                },
            },
            Competitor {
                home_away: "home".into(),
                team: Team {
                    id: "4".into(),
                    display_name: "Cincinnati Bengals".into(),
                },
            },
        ],
    }
}

fn now() -> Timestamp {
    Timestamp::from_seconds(1_760_000_000).unwrap()
}

#[test]
fn american_odds_convert_to_decimal() {
    assert_eq!(american_to_decimal(170), Some(Decimal::new(27, 1)));
    assert_eq!(
        american_to_decimal(-205),
        Decimal::one_hundred()
            .checked_div(Decimal::new(205, 0))
            .and_then(|ratio| Decimal::one().checked_add(ratio))
    );
}

#[test]
fn competition_normalizes_with_home_as_participant_a() {
    let competition = competition();
    assert!(is_pregame(&competition));
    let items = vec![OddsItem {
        provider: "DraftKings".into(),
        home_money_line: Some(-205),
        away_money_line: Some(170),
    }];
    let quotes = normalize_competition(
        Sport::Nfl,
        "401",
        "2026-09-13T17:00Z",
        &competition,
        &items,
        now(),
    )
    .unwrap();
    assert_eq!(quotes.len(), 1);
    let quote = &quotes[0];
    assert_eq!(quote.participant_a, "Cincinnati Bengals");
    assert_eq!(quote.participant_b, "Tampa Bay Buccaneers");
    assert_eq!(quote.family, SourceFamily::DraftKings);
    assert_eq!(quote.source_id, "espn:draftkings");
    assert_eq!(quote.decimal_odds_b, Decimal::new(27, 1));
    assert_eq!(
        quote.start_time,
        parse_rfc3339("2026-09-13T17:00:00Z").unwrap()
    );
    assert_eq!(quote.participant_a_provider_ids.get("espn").unwrap(), "4");
}

#[test]
fn one_sided_items_and_missing_teams_give_nothing() {
    let items = vec![OddsItem {
        provider: "DraftKings".into(),
        home_money_line: Some(-205),
        away_money_line: None,
    }];
    assert!(normalize_competition(
        Sport::Nfl,
        "401",
        "2026-09-13T17:00Z",
        &competition(),
        &items,
        now()
    )
    .unwrap()
    .is_empty());
    let mut lonely = competition();
    lonely.competitors.pop();
    assert!(normalize_competition(
        Sport::Nfl,
        "401",
        "2026-09-13T17:00Z",
        &lonely,
        &items,
        now()
    )
    .is_err());
}

#[test]
fn providers_are_keyed_without_blanks() {
    assert_eq!(provider_key("ESPN BET"), "espnbet");
    assert!(espn_path(Sport::Nfl).is_some());
    assert!(parse_espn_date("2026-09-13").is_err());
}

#[test]
fn zero_is_no_price() {
    assert_eq!(american_to_decimal(0), None);
}

#[test]
fn families_follow_the_key() {
    assert_eq!(keyed_family("draftkings".into()), SourceFamily::DraftKings);
    assert_eq!(keyed_family("thescorebet".into()), SourceFamily::Penn);
    assert_eq!(keyed_family("acme".into()), SourceFamily::Other("acme".into()));
    assert_eq!(provider_family("Caesars Sportsbook"), SourceFamily::Caesars);
}
