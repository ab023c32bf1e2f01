use polybot::decimal::Decimal;
use polybot::domain::{SourceFamily, Sport};
use polybot::sources::pinnacle::{normalize, scope, Market, Matchup, Participant, Price};
use polybot::time::Timestamp;

fn participants(home: &str, away: &str, first: &str, second: &str) -> Vec<Participant> {
    vec![
        Participant {
            name: home.into(),
            alignment: first.into(),
        },
        Participant {
            name: away.into(),
            alignment: second.into(),
        },
    ]
}

fn matchups() -> Vec<Matchup> {
    vec![
        Matchup {
            id: 1630889899,
            kind: "matchup".into(),
            start_time: "2099-09-13T17:00:00Z".into(),
            is_live: false,
            parent_id: None,
            special: false,
            participants: participants("Pittsburgh Steelers", "Atlanta Falcons", "home", "away"),
        },
        Matchup {
            id: 1635782187,
            kind: "special".into(),
            start_time: "2099-09-13T17:00:00Z".into(),
            is_live: false,
            parent_id: Some(1630889899),
            special: true,
            participants: participants("Over", "Under", "neutral", "neutral"),
        },
        Matchup {
            id: 1630889900,
            kind: "matchup".into(),
            start_time: "2000-01-01T00:00:00Z".into(),
            is_live: true,
            parent_id: None,
            special: false,
            participants: participants("Old Team", "Older Team", "home", "away"),
        },
    ]
}

fn market(key: &str, matchup_id: u64, alternate: bool, home: i64, away: i64) -> Market {
    Market {
        key: key.into(),
        matchup_id,
        status: "open".into(),
        is_alternate: alternate,
        prices: vec![
            Price {
                designation: Some("home".into()),
                price: home,
            },
            Price {
                designation: Some("away".into()),
                price: away,
            },
        ],
    }
}

fn markets() -> Vec<Market> {
    vec![
        market("s;0;m", 1630889899, false, -112, -101),
        market("s;0;s", 1630889899, false, -105, -105),
        market("s;1;m", 1630889899, false, -120, 105),
        market("s;0;m", 1630889899, true, -300, 250),
        market("s;0;m", 1635782187, false, -115, -105),
        market("s;0;m", 1630889900, false, -115, -105),
    ]
}

#[test]
fn game_moneyline_becomes_one_quote_and_everything_else_is_dropped() {
    let quotes = normalize(
        Sport::Nfl,
        &matchups(),
        &markets(),
        Timestamp::from_seconds(1_760_000_000).unwrap(),
    );
    assert_eq!(quotes.len(), 1, "{quotes:?}");
    let quote = &quotes[0];
    assert_eq!(quote.participant_a, "Pittsburgh Steelers");
    assert_eq!(quote.participant_b, "Atlanta Falcons");
    assert_eq!(quote.decimal_odds_a, Decimal::new(18929, 4));
    assert_eq!(quote.decimal_odds_b, Decimal::new(19901, 4));
    assert_eq!(quote.family, SourceFamily::Pinnacle);
    assert_eq!(quote.event_id, "1630889899");
}

#[test]
fn tennis_uses_the_sport_scope_and_team_leagues_are_pinned() {
    assert_eq!(scope(Sport::Tennis), "/sports/33");
    assert_eq!(scope(Sport::Nfl), "/leagues/889");
}

#[test]
fn closed_markets_are_dropped() {
    let mut all = markets();
    all[0].status = "closed".into();
    assert!(normalize(
        Sport::Nfl,
        &matchups(),
        &all,
        Timestamp::from_seconds(1_760_000_000).unwrap()
    )
    .is_empty());
}
