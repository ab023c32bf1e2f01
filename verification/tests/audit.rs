use polybot::audit::{differences, parse_time, replay_window, Audit};
use polybot::config::Settings;
use polybot::decimal::Decimal;
use polybot::domain::{Opportunity, OutcomeSide, PaperPortfolio, RecommendationClass, Sport};
use polybot::replay::Frame;
use polybot::time::{parse_rfc3339, Timestamp};

const NOW: i64 = 1_760_000_000;

fn at(seconds: i64) -> Timestamp {
    Timestamp::from_seconds(seconds).unwrap()
}

fn row() -> Opportunity {
    Opportunity {
        id: 3,
        generated_at: at(NOW),
        class: RecommendationClass::Watchlist,
        sport: Sport::Mlb,
        event_id: "event".into(),
        market_id: "market".into(),
        market_slug: "slug".into(),
        participant: "A".into(),
        side: OutcomeSide::Long,
        fair_probability: Decimal::new(5, 1),
        conservative_probability: Decimal::new(5, 1),
        executable_price: Decimal::new(4, 1),
        maker_price: None,
        maker_net_edge: None,
        raw_edge: Decimal::new(1, 1),
        net_edge: Decimal::new(1, 1),
        quantity: Decimal::one(),
        maximum_loss: Decimal::one(),
        estimated_fee: Decimal::zero(),
        family_count: 3,
        source_ids: vec!["a".into()],
        start_time: at(NOW),
        book_time: at(NOW),
        reasons: Vec::new(),
    }
}

#[test]
fn equal_rows_do_not_differ_and_a_changed_field_does() {
    assert!(differences(&row(), &row()).is_empty());
    let mut other = row();
    other.class = RecommendationClass::Rejected;
    other.net_edge = Decimal::new(2, 1);
    let found = differences(&row(), &other);
    assert_eq!(found.len(), 2);
    assert!(found.iter().any(|f| f.field == "net_edge" && f.stored == "0.1" && f.recomputed == "0.2"));
}

#[test]
fn frames_without_their_gates_are_skipped() {
    let frame = Frame {
        scan_id: 1,
        evaluated_at: at(NOW),
        origin: "import".into(),
        settings: None,
        portfolio: PaperPortfolio::new(Decimal::one_hundred()),
        markets: Vec::new(),
        books: Vec::new(),
        quotes: Vec::new(),
        opportunities: vec![row()],
    };
    let audit = Audit::new().frame(&frame).unwrap();
    assert_eq!(audit.frames, 1);
    assert_eq!(audit.frames_skipped, 1);
    let live = Frame {
        origin: "live".into(),
        settings: Some(Settings::default()),
        ..frame
    };
    let audit = audit.frame(&live).unwrap();
    assert_eq!(audit.frames, 2);
}

#[test]
fn windows_are_read_and_bounded() {
    assert_eq!(parse_time("1970-01-02").unwrap(), at(86_400));
    assert_eq!(parse_time("1970-01-01T00:00:05Z").unwrap(), at(5));
    assert!(parse_time("soon").is_err());
    let now = parse_rfc3339("2026-06-01T00:00:00Z").unwrap();
    let (from, through) = replay_window(&None, &None, now).unwrap();
    assert_eq!(through, now);
    assert_eq!(through.seconds() - from.seconds(), 30 * 86_400);
    assert!(replay_window(&None, &Some("2026-06-02".into()), now).is_err());
    assert!(replay_window(&Some("2026-05-02".into()), &Some("2026-05-01".into()), now).is_err());
}
