use polybot::config::Settings;
use polybot::decimal::{parse_decimal, Decimal};
use polybot::domain::{
    BookLevel, MarketBook, MarketParticipant, PaperPortfolio, RecommendationClass, SourceFamily,
    SourceQuote, Sport, UsMoneylineMarket,
};
use polybot::error::Error;
use polybot::scan::{absorb_answers, first_request, Answer, Scan, Verdict};
use polybot::sources::SourceFacts;
use polybot::textmap::TextMap;
use polybot::time::Timestamp;

fn d(value: &str) -> Decimal {
    parse_decimal(value).unwrap()
}

fn t(minutes: i64) -> Timestamp {
    Timestamp::from_seconds(1_800_000_000 + minutes * 60).unwrap()
}

fn market(start: Timestamp) -> UsMoneylineMarket {
    UsMoneylineMarket {
        event_id: "event".into(),
        game_id: None,
        sportradar_game_id: None,
        sport: Sport::Nba,
        start_time: start,
        market_id: "market".into(),
        market_slug: "slug".into(),
        description: "full game winner".into(),
        sports_market_type: "moneyline".into(),
        long_participant: MarketParticipant {
            side_id: "a".into(),
            name: "Home".into(),
            long: true,
            team_id: None,
            provider_ids: TextMap::new(),
        },
        short_participant: MarketParticipant {
            side_id: "b".into(),
            name: "Away".into(),
            long: false,
            team_id: None,
            provider_ids: TextMap::new(),
        },
        tick_size: d("0.01"),
        minimum_quantity: d("0.01"),
        fee_coefficient: d("0.06"),
        ep3_status: "OPEN".into(),
        ep3_synced_at: None,
    }
}

fn book(ask: &str, at: Timestamp) -> MarketBook {
    MarketBook {
        market_slug: "slug".into(),
        bids: vec![BookLevel {
            yes_price: d(ask).checked_sub(d("0.01")).unwrap(),
            quantity: d("1000"),
        }],
        offers: vec![BookLevel {
            yes_price: d(ask),
            quantity: d("1000"),
        }],
        state: "MARKET_STATE_OPEN".into(),
        transact_time: at,
        fetched_at: at,
    }
}

fn quote(id: &str, family: SourceFamily, at: Timestamp, start: Timestamp) -> SourceQuote {
    SourceQuote {
        source_id: id.into(),
        family,
        sport: Sport::Nba,
        event_id: "e".into(),
        participant_a: "Home".into(),
        participant_b: "Away".into(),
        participant_a_provider_ids: TextMap::new(),
        participant_b_provider_ids: TextMap::new(),
        start_time: start,
        start_time_tolerance_minutes: 15,
        // Fair ~0.667 for Home.
        decimal_odds_a: d("1.45"),
        decimal_odds_b: d("2.90"),
        decimal_odds_neutral: None,
        source_timestamp: at,
        fetched_at: at,
        parser_version: "test".into(),
        validation_only: false,
    }
}


const FEEDS: [&str; 5] = ["pinnacle", "circa", "fanduel", "draftkings", "betmgm"];

fn family(place: usize) -> SourceFamily {
    match place {
        0 => SourceFamily::Pinnacle,
        1 => SourceFamily::Circa,
        2 => SourceFamily::FanDuel,
        3 => SourceFamily::DraftKings,
        _ => SourceFamily::BetMgm,
    }
}

fn sources() -> Vec<SourceFacts> {
    let mut all: Vec<SourceFacts> = FEEDS
        .iter()
        .enumerate()
        .map(|(place, id)| SourceFacts::single(id.to_string(), family(place)))
        .collect();
    let mut last = SourceFacts::single("the_odds_api".into(), SourceFamily::Other("api".into()));
    last.confirmation_only = true;
    all.push(last);
    all
}

fn answer(place: usize, at: Timestamp) -> Answer {
    Answer {
        source: place,
        outcome: Ok(vec![quote(FEEDS[place], family(place), at, t(120))]),
        checked_at: at,
        latency_ms: 7,
    }
}

fn settings() -> Settings {
    Settings {
        minimum_position_fraction: Decimal::zero(),
        ..Settings::default()
    }
}

fn opened(markets: Vec<UsMoneylineMarket>) -> Scan {
    let answers = (0..5).map(|place| answer(place, t(0))).collect();
    Scan::open(
        5,
        t(0),
        settings(),
        sources(),
        markets,
        PaperPortfolio::new(Decimal::one_hundred()),
        &answers,
        t(0),
    )
}

#[test]
fn the_first_question_leaves_out_confirmation_sources() {
    let request = first_request(&sources());
    assert_eq!(request.sources, vec![0, 1, 2, 3, 4]);
    assert_eq!(request.sports, Sport::all().to_vec());
}

#[test]
fn candidates_are_confirmed_on_fresh_prices() {
    let scan = opened(vec![market(t(120))]);
    assert_eq!(scan.slugs(), vec!["slug"]);
    let confirmation = match scan.judge(vec![book("0.55", t(0))]).unwrap() {
        Verdict::AskAgain(confirmation) => confirmation,
        Verdict::Done(_) => panic!("a candidate must be confirmed"),
    };
    // Two reference books and one more contributor, then the source that is
    // kept for confirmation.
    assert_eq!(confirmation.request.sources, vec![1, 0, 4, 5]);
    assert_eq!(confirmation.request.sports, vec![Sport::Nba]);

    let answers = vec![answer(1, t(1)), answer(0, t(1)), answer(4, t(1))];
    let scan = confirmation.confirm(&answers, t(1));
    assert!(scan.confirmed);
    assert_eq!(scan.quotes.len(), 5);
    let finished = match scan.judge(vec![book("0.55", t(1))]).unwrap() {
        Verdict::Done(finished) => finished,
        Verdict::AskAgain(_) => panic!("a scan confirms once"),
    };
    let capture = finished.capture(t(2));
    assert_eq!(capture.snapshot.scan_id, 5);
    assert_eq!(capture.snapshot.started_at, t(0));
    assert_eq!(capture.snapshot.evaluated_at, t(1));
    assert_eq!(capture.snapshot.completed_at, t(2));
    assert_eq!(
        capture.snapshot.opportunities[0].class,
        RecommendationClass::Actionable
    );
    // Each source once, with its latest record.
    assert_eq!(capture.snapshot.source_health.len(), 5);
}

#[test]
fn a_scan_without_candidates_ends_after_one_pass() {
    let scan = opened(vec![market(t(120))]);
    match scan.judge(vec![book("0.70", t(0))]).unwrap() {
        Verdict::Done(finished) => {
            let capture = finished.capture(t(1));
            assert_eq!(capture.snapshot.market_count, 1);
            assert_eq!(capture.snapshot.quote_count, 5);
            assert!(capture
                .snapshot
                .opportunities
                .iter()
                .all(|row| row.class == RecommendationClass::Rejected));
        }
        Verdict::AskAgain(_) => panic!("nothing to confirm"),
    }
}

#[test]
fn a_failed_source_leaves_a_record_and_no_quotes() {
    let answers = vec![
        Answer {
            source: 2,
            outcome: Err(Error::InvalidData("no".into())),
            checked_at: t(0),
            latency_ms: 9,
        },
        answer(0, t(0)),
        Answer {
            source: 99,
            outcome: Ok(Vec::new()),
            checked_at: t(0),
            latency_ms: 1,
        },
    ];
    let (quotes, health) = absorb_answers(&sources(), &answers);
    assert_eq!(quotes.len(), 1);
    assert_eq!(health.len(), 2);
    assert_eq!(health[0].source_id, "fanduel");
    assert!(!health[0].reachable);
    assert_eq!(health[1].message, "1 quotes");
}
