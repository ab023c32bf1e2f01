use polybot::config::{RunMode, Settings};
use polybot::decimal::Decimal;
use polybot::domain::{Opportunity, OutcomeSide, PaperPortfolio, PaperPosition, RecommendationClass, Sport};
use polybot::storage::{
    cloud_lease_expiry, is_expired, lease_step, new_lease, news_file, normalize_portfolio, opportunity_key,
    releases, scan_paths, store_for, Archive, LeaseAttempt, LeaseStep,
};
use polybot::time::{parse_rfc3339, Timestamp};

const NOW: i64 = 1_760_000_000;

fn at(seconds: i64) -> Timestamp {
    Timestamp::from_seconds(seconds).unwrap()
}

fn opportunity(maximum_loss: Decimal) -> Opportunity {
    Opportunity {
        id: 1,
        generated_at: at(NOW),
        class: RecommendationClass::Actionable,
        sport: Sport::Nba,
        event_id: "event".into(),
        market_id: "market".into(),
        market_slug: "market-slug".into(),
        participant: "Team".into(),
        side: OutcomeSide::Long,
        fair_probability: Decimal::new(55, 2),
        conservative_probability: Decimal::new(52, 2),
        executable_price: Decimal::new(50, 2),
        maker_price: None,
        maker_net_edge: None,
        raw_edge: Decimal::new(5, 2),
        net_edge: Decimal::new(2, 2),
        quantity: Decimal::new(4, 0),
        maximum_loss,
        estimated_fee: Decimal::new(1, 2),
        family_count: 3,
        source_ids: vec!["a".into(), "b".into(), "c".into()],
        start_time: at(NOW + 7200),
        book_time: at(NOW),
        reasons: Vec::new(),
    }
}

fn position(maximum_loss: Decimal) -> PaperPosition {
    PaperPosition::from_opportunity(&opportunity(maximum_loss), at(NOW))
}

#[test]
fn local_store_persists_portfolio_and_enforces_lease() {
    let first = new_lease(1, at(NOW), 30).unwrap();
    assert_eq!(
        lease_step(&LeaseAttempt::Created, 1, at(NOW)),
        LeaseStep::Acquired
    );
    assert_eq!(
        lease_step(&LeaseAttempt::Present(Some(first)), 1, at(NOW + 29)),
        LeaseStep::Refused
    );
    assert!(releases(&first, 1));
    assert!(!releases(&first, 2));

    let mut portfolio = PaperPortfolio::new(Decimal::one_hundred());
    portfolio.open_exposure = Decimal::new(99, 0);
    portfolio.open_positions.push(position(Decimal::new(2, 0)));
    let mut settled = position(Decimal::new(3, 0));
    settled.realized_pnl = Some(Decimal::new(-3, 0));
    settled.closed_at = Some(at(NOW));
    portfolio.closed_positions.push(settled);
    portfolio.closed_positions.push(position(Decimal::new(1, 0)));
    let loaded = normalize_portfolio(portfolio, Decimal::one_hundred()).unwrap();
    assert_eq!(loaded.open_exposure, Decimal::new(2, 0));
    assert_eq!(loaded.open_positions.len(), 1);
    assert_eq!(loaded.closed_positions.len(), 2);
    // Realized P&L is recomputed from the settled records (a manual close
    // without a result counts as zero) and the bankroll carries it.
    assert_eq!(loaded.realized_pnl, Decimal::new(-3, 0));
    assert_eq!(loaded.bankroll, Decimal::new(97, 0));

    let again = normalize_portfolio(loaded.clone(), Decimal::one_hundred()).unwrap();
    assert_eq!(again.bankroll, loaded.bankroll);
    assert_eq!(again.open_exposure, loaded.open_exposure);
}

#[test]
fn a_lapsed_or_unreadable_lease_is_taken_over() {
    let old = new_lease(1, at(NOW), 30).unwrap();
    assert_eq!(
        lease_step(&LeaseAttempt::Present(Some(old)), 1, at(NOW + 30)),
        LeaseStep::Reclaim
    );
    assert_eq!(
        lease_step(&LeaseAttempt::Present(None), 1, at(NOW)),
        LeaseStep::Reclaim
    );
    assert_eq!(
        lease_step(&LeaseAttempt::Present(None), 2, at(NOW)),
        LeaseStep::ReclaimLast
    );
}

#[test]
fn an_endless_lease_is_refused() {
    assert_eq!(
        new_lease(1, at(NOW), u64::MAX).unwrap_err().to_text(),
        "storage error: lease TTL: Source duration value is out of range for the target type"
    );
    assert_eq!(
        new_lease(1, at(NOW), 9_223_372_036_854_775).unwrap_err().to_text(),
        "decimal overflow"
    );
    assert_eq!(cloud_lease_expiry(100, 30).unwrap(), 130);
    assert_eq!(
        cloud_lease_expiry(100, u64::MAX).unwrap_err().to_text(),
        "storage error: lease TTL: out of range integral type conversion attempted"
    );
    assert!(cloud_lease_expiry(i64::MAX, 1).is_err());
}

#[test]
fn portfolios_that_cannot_be_are_refused() {
    let message = |portfolio: PaperPortfolio, bankroll: Decimal| {
        normalize_portfolio(portfolio, bankroll).unwrap_err().to_text()
    };
    let empty = || PaperPortfolio::new(Decimal::one_hundred());
    assert_eq!(
        message(empty(), Decimal::zero()),
        "configuration error: PAPER_BANKROLL must be positive"
    );
    let mut worthless = empty();
    worthless.open_positions.push(position(Decimal::zero()));
    assert_eq!(
        message(worthless, Decimal::one()),
        "storage error: paper portfolio contains a non-positive position"
    );
    let mut exposed = empty();
    exposed.open_positions.push(position(Decimal::new(2, 0)));
    assert_eq!(
        message(exposed, Decimal::one()),
        "storage error: paper portfolio exposure exceeds bankroll"
    );
}

#[test]
fn scans_are_filed_by_their_day() {
    let started = parse_rfc3339("2026-03-07T23:59:59Z").unwrap();
    let paths = scan_paths(0x0123_4567_89ab_cdef_0123_4567_89ab_cdef, started).unwrap();
    let stem = "scans/year=2026/month=03/day=07/01234567-89ab-cdef-0123-456789abcdef";
    assert_eq!(paths.snapshot, format!("{stem}.json"));
    assert_eq!(paths.quotes, format!("{stem}-quotes.json"));
    assert_eq!(paths.markets, format!("{stem}-markets.json"));
    assert_eq!(paths.books, format!("{stem}-books.json"));
    assert_eq!(
        opportunity_key(1),
        "OPPORTUNITY#00000000-0000-0000-0000-000000000001"
    );
    assert_eq!(news_file(1), "00000000-0000-0000-0000-000000000001.json");
}

#[test]
fn the_archive_is_opened_only_where_scans_are_written() {
    let settings = Settings {
        run_mode: RunMode::Cloud,
        database_url: Some("postgres://archive".into()),
        ..Settings::default()
    };
    let writing = store_for(&settings, Archive::Enabled);
    assert_eq!(writing.mode, RunMode::Cloud);
    assert_eq!(writing.archive_url.as_deref(), Some("postgres://archive"));
    assert!(store_for(&settings, Archive::Disabled).archive_url.is_none());
}

#[test]
fn scans_expire_after_their_retention() {
    let retention = 90 * 86_400;
    assert!(!is_expired(at(NOW - retention as i64), at(NOW), retention));
    assert!(is_expired(at(NOW - retention as i64 - 1), at(NOW), retention));
}
