use polybot::dashboard::{latest_research, wants_news};
use polybot::decimal::Decimal;
use polybot::domain::{
    NewsEvidence, Opportunity, OutcomeSide, RecommendationClass, ScanSummary, Sport,
};
use polybot::health::{HealthSnapshot, HEALTH_FILE};
use polybot::time::Timestamp;
use polybot::tui::feed::{
    engine_action, retention_seconds, EngineAction, EngineCommand, EngineEvent, EngineStatus, Phase,
};

const NOW: i64 = 1_760_000_000;

fn at(seconds: i64) -> Timestamp {
    Timestamp::from_seconds(seconds).unwrap()
}

fn status() -> EngineStatus {
    EngineStatus::new(vec!["pinnacle".into()], Some("keyword".into()), at(NOW))
}

fn summary() -> ScanSummary {
    ScanSummary {
        scan_id: 9,
        started_at: at(NOW),
        completed_at: at(NOW + 3),
        market_count: 4,
        quote_count: 30,
        evaluated_count: 8,
        candidate_count: 2,
        source_health: Vec::new(),
    }
}

fn opportunity(class: RecommendationClass) -> Opportunity {
    Opportunity {
        id: 1,
        generated_at: at(NOW),
        class,
        sport: Sport::Nba,
        event_id: "event".into(),
        market_id: "market".into(),
        market_slug: "slug".into(),
        participant: "Team".into(),
        side: OutcomeSide::Long,
        fair_probability: Decimal::zero(),
        conservative_probability: Decimal::zero(),
        executable_price: Decimal::zero(),
        maker_price: None,
        maker_net_edge: None,
        raw_edge: Decimal::zero(),
        net_edge: Decimal::zero(),
        quantity: Decimal::zero(),
        maximum_loss: Decimal::zero(),
        estimated_fee: Decimal::zero(),
        family_count: 0,
        source_ids: Vec::new(),
        start_time: at(NOW),
        book_time: at(NOW),
        reasons: Vec::new(),
    }
}

fn evidence() -> Option<NewsEvidence> {
    Some(NewsEvidence {
        opportunity_id: 1,
        generated_at: at(NOW),
        summary: "fine".into(),
        confidence_effect: "unchanged".into(),
        manual_review: false,
        citations: Vec::new(),
    })
}

#[test]
fn snapshot_round_trips_and_summarizes() {
    let mut status = status();
    status.scans_completed = 3;
    status.last_error = Some("boom".into());
    let snapshot = HealthSnapshot::from_status(&status, true, at(NOW), 42, "abc1234");
    assert_eq!(snapshot.phase, "starting");
    assert_eq!(snapshot.sources, vec!["pinnacle"]);
    assert!(snapshot.history_archive);
    assert_eq!(
        snapshot.status_line(),
        "starting | scans ok=3 failed=0 | last error: boom"
    );
    assert_eq!(snapshot.pid, 42);
    assert_eq!(snapshot.git_commit, "abc1234");
    assert_eq!(HEALTH_FILE, "health.json");
}

#[test]
fn a_status_follows_the_scans() {
    let status = status().begin_scan(at(NOW), 300).unwrap();
    assert!(matches!(status.phase, Phase::Scanning { since } if since == at(NOW)));
    assert_eq!(status.next_scan_at, Some(at(NOW + 300)));
    let status = status.fail_scan("boom".into());
    assert_eq!(status.scans_failed, 1);
    assert_eq!(status.last_error.as_deref(), Some("boom"));
    let status = status.finish_scan(summary(), 3000);
    assert_eq!(status.scans_completed, 1);
    assert!(status.last_error.is_none());
    let snapshot = HealthSnapshot::from_status(&status, false, at(NOW + 5), 1, "unknown");
    assert_eq!(snapshot.last_scan_id, Some(9));
    assert_eq!(snapshot.last_candidate_count, Some(2));
    assert_eq!(
        snapshot.status_line(),
        "idle | scans ok=1 failed=1 | last error: none"
    );
}

#[test]
fn empty_news_passes_leave_no_trace() {
    let status = status().begin_review().finish_review(Some(0), at(NOW));
    assert!(status.last_news_pass.is_none());
    let status = status.begin_review().finish_review(Some(2), at(NOW + 1));
    assert_eq!(status.last_news_pass, Some((at(NOW + 1), 2)));
    let status = status.begin_review().finish_review(None, at(NOW + 2));
    assert_eq!(status.last_news_pass, Some((at(NOW + 1), 2)));
    assert!(matches!(status.shut_down().phase, Phase::ShuttingDown));
}

#[test]
fn the_loop_answers_its_events() {
    assert_eq!(engine_action(EngineEvent::ScanDue, false), EngineAction::Scan);
    assert_eq!(engine_action(EngineEvent::NewsDue, true), EngineAction::ReviewNews);
    assert_eq!(engine_action(EngineEvent::NewsDue, false), EngineAction::DrainNews);
    assert_eq!(
        engine_action(EngineEvent::Command(Some(EngineCommand::ScanNow)), true),
        EngineAction::HastenScan
    );
    assert_eq!(engine_action(EngineEvent::Command(None), true), EngineAction::RaiseShutdown);
    assert_eq!(
        engine_action(
            EngineEvent::ShutdownChanged {
                closed: false,
                requested: true
            },
            true
        ),
        EngineAction::Stop
    );
    assert_eq!(retention_seconds(2), 172_800);
}

#[test]
fn rejected_rows_are_shown_without_news() {
    assert!(!wants_news(&opportunity(RecommendationClass::Rejected)));
    let rows = latest_research(
        vec![
            opportunity(RecommendationClass::Rejected),
            opportunity(RecommendationClass::Actionable),
            opportunity(RecommendationClass::Actionable),
        ],
        &vec![evidence(), evidence()],
        at(NOW),
    );
    assert_eq!(rows.len(), 3);
    assert_eq!(rows[0].effective_class, RecommendationClass::Rejected);
    assert!(rows[0].news.is_none());
    assert_eq!(rows[1].effective_class, RecommendationClass::Actionable);
    assert_eq!(rows[2].effective_class, RecommendationClass::Watchlist);
}
