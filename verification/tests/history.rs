use polybot::decimal::Decimal;
use polybot::history::{
    grade_market, grading_backoff, pending_outcomes, record_outcome, GradingCandidate,
    GradingReport, Origin, PendingOutcome, VenueAnswer,
};
use polybot::polymarket::ClosingPrice;
use polybot::time::Timestamp;

const NOW: i64 = 1_760_000_000;

fn at(seconds: i64) -> Timestamp {
    Timestamp::from_seconds(seconds).unwrap()
}

fn candidate(id: &str, start: i64) -> GradingCandidate {
    GradingCandidate {
        market: PendingOutcome {
            market_id: id.into(),
            market_slug: format!("{id}-slug"),
            start_time: at(start),
            has_closing: false,
            attempts: 0,
        },
        settled: false,
        next_attempt_at: None,
    }
}

fn closing(long: i64) -> ClosingPrice {
    ClosingPrice {
        long_price: Decimal::new(long, 2),
        short_price: Decimal::new(100 - long, 2),
        observed_at: at(NOW - 60),
    }
}

#[test]
fn grading_backoff_grows_with_attempts() {
    assert_eq!(grading_backoff(0), 10 * 60);
    assert_eq!(grading_backoff(3), 3600);
    assert_eq!(grading_backoff(20), 6 * 3600);
}

#[test]
fn due_markets_are_graded_earliest_first() {
    let mut waiting = candidate("waiting", NOW - 30);
    waiting.next_attempt_at = Some(at(NOW + 1));
    let mut settled = candidate("settled", NOW - 40);
    settled.settled = true;
    let candidates = vec![
        candidate("second", NOW - 10),
        candidate("future", NOW + 1),
        waiting,
        settled,
        candidate("ancient", NOW - 14 * 86_400),
        candidate("first", NOW - 20),
        candidate("third", NOW),
    ];
    let due = pending_outcomes(&candidates, at(NOW), 2);
    let ids: Vec<&str> = due.iter().map(|c| c.market.market_id.as_str()).collect();
    assert_eq!(ids, vec!["first", "second"]);
    assert_eq!(pending_outcomes(&candidates, at(NOW), 60).len(), 3);
}

#[test]
fn answers_are_counted_and_errors_kept() {
    let report = GradingReport::new();
    let (report, learned) = grade_market(
        report,
        VenueAnswer {
            closing: Some(Ok(Some(closing(42)))),
            settlement: Ok(Some(Decimal::one())),
        },
    );
    assert_eq!(report.attempted, 1);
    assert_eq!(report.closing_lines_recorded, 1);
    assert_eq!(report.settled, 1);
    assert_eq!(report.errors, 0);
    assert_eq!(learned.settlement, Some(Decimal::one()));
    let (report, learned) = grade_market(
        report,
        VenueAnswer {
            closing: Some(Err("no line".into())),
            settlement: Err("no answer".into()),
        },
    );
    assert_eq!(report.attempted, 2);
    assert_eq!(report.errors, 1);
    assert_eq!(learned.error.as_deref(), Some("no answer"));
}

#[test]
fn a_recorded_line_and_settlement_stay() {
    let answer = |long: i64, settled: Option<Decimal>| {
        grade_market(
            GradingReport::new(),
            VenueAnswer {
                closing: Some(Ok(Some(closing(long)))),
                settlement: Ok(settled),
            },
        )
        .1
    };
    let first = record_outcome(None, answer(42, None), 0, at(NOW)).unwrap();
    assert_eq!(first.attempts, 1);
    assert_eq!(first.next_attempt_at, at(NOW + 600));
    assert_eq!(first.settlement, None);
    assert_eq!(first.closing_recorded_at, Some(at(NOW)));
    let second = record_outcome(
        Some(first),
        answer(77, Some(Decimal::one())),
        1,
        at(NOW + 600),
    )
    .unwrap();
    assert_eq!(second.closing_long, Some(Decimal::new(42, 2)));
    assert_eq!(second.settlement, Some(Decimal::one()));
    assert_eq!(second.attempts, 2);
    let third = record_outcome(
        Some(second),
        answer(10, Some(Decimal::zero())),
        2,
        at(NOW + 1200),
    )
    .unwrap();
    assert_eq!(third.settlement, Some(Decimal::one()));
    assert_eq!(third.settled_recorded_at, Some(at(NOW + 600)));
}

#[test]
fn origins_are_named() {
    assert_eq!(Origin::Live.as_str(), "live");
    assert_eq!(Origin::of_files(0), Origin::Import);
    assert_eq!(Origin::of_files(3), Origin::Live);
}
