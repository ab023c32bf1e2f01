use polybot::config::Settings;
use polybot::decimal::Decimal;
use polybot::domain::{
    NewsEvidence, Opportunity, OutcomeSide, PaperPortfolio, PaperPosition, RecommendationClass,
    Sport,
};
use polybot::paper::{
    close_position, find_opportunity, open_position, settle, settle_positions, VenueReply,
};
use polybot::time::Timestamp;

const NOW: i64 = 1_760_000_000;

fn at(seconds: i64) -> Timestamp {
    Timestamp::from_seconds(seconds).unwrap()
}

fn position(side: OutcomeSide) -> PaperPosition {
    PaperPosition {
        opportunity_id: 21,
        event_id: "event".into(),
        market_id: "market".into(),
        market_slug: "slug".into(),
        side,
        quantity: Decimal::new(10, 0),
        entry_price: Decimal::new(40, 2),
        fair_probability: Decimal::new(45, 2),
        estimated_fee: Decimal::new(5, 2),
        maximum_loss: Decimal::new(405, 2),
        start_time: Some(at(NOW)),
        opened_at: at(NOW),
        closing_price: None,
        settlement_payout: None,
        realized_pnl: None,
        closed_at: None,
    }
}

fn opportunity(class: RecommendationClass) -> Opportunity {
    Opportunity {
        id: 33,
        generated_at: at(NOW),
        class,
        sport: Sport::Nba,
        event_id: "event".into(),
        market_id: "market".into(),
        market_slug: "market-slug".into(),
        participant: "Team".into(),
        side: OutcomeSide::Long,
        fair_probability: Decimal::new(55, 2),
        conservative_probability: Decimal::new(52, 2),
        executable_price: Decimal::new(50, 2),
        maker_price: None,
        maker_net_edge: None,
        raw_edge: Decimal::new(5, 2),
        net_edge: Decimal::new(2, 2),
        quantity: Decimal::new(4, 0),
        maximum_loss: Decimal::new(2, 0),
        estimated_fee: Decimal::new(1, 2),
        family_count: 3,
        source_ids: vec!["a".into(), "b".into(), "c".into()],
        start_time: at(NOW + 7200),
        book_time: at(NOW),
        reasons: Vec::new(),
    }
}

fn clean_news() -> Option<NewsEvidence> {
    Some(NewsEvidence {
        opportunity_id: 33,
        generated_at: at(NOW),
        summary: "fine".into(),
        confidence_effect: "unchanged".into(),
        manual_review: false,
        citations: Vec::new(),
    })
}

#[test]
fn long_settlement_pays_yes_and_short_pays_complement() {
    let now = at(NOW + 60);
    let mut long = position(OutcomeSide::Long);
    // 10 contracts at 0.40 win: 10 * (1 - 0.40) - 0.05 = 5.95.
    assert_eq!(settle(&mut long, Decimal::one(), now), Some(Decimal::new(595, 2)));
    assert_eq!(long.settlement_payout, Some(Decimal::one()));
    assert_eq!(long.closed_at, Some(now));

    let mut short = position(OutcomeSide::Short);
    // YES settled 1 means the short loses its stake: 10 * (0 - 0.40) - 0.05.
    assert_eq!(settle(&mut short, Decimal::one(), now), Some(Decimal::new(-405, 2)));
    assert_eq!(short.settlement_payout, Some(Decimal::zero()));
    assert_eq!(short.realized_pnl, Some(Decimal::new(-405, 2)));
}

#[test]
fn opening_needs_an_actionable_reviewed_row() {
    let settings = Settings::default();
    let book = || PaperPortfolio::new(Decimal::one_hundred());
    let opened = open_position(
        book(),
        opportunity(RecommendationClass::Actionable),
        clean_news(),
        &settings,
        at(NOW),
    )
    .unwrap();
    assert_eq!(opened.open_positions.len(), 1);
    assert_eq!(opened.open_exposure, Decimal::new(2, 0));
    assert!(open_position(
        book(),
        opportunity(RecommendationClass::Actionable),
        None,
        &settings,
        at(NOW)
    )
    .is_err());
    assert!(open_position(
        book(),
        opportunity(RecommendationClass::Watchlist),
        clean_news(),
        &settings,
        at(NOW)
    )
    .is_err());
    // The same side a second time.
    assert!(open_position(
        opened,
        opportunity(RecommendationClass::Actionable),
        clean_news(),
        &settings,
        at(NOW)
    )
    .is_err());
}

#[test]
fn closing_archives_the_position() {
    let mut portfolio = PaperPortfolio::new(Decimal::one_hundred());
    portfolio.open_positions.push(position(OutcomeSide::Long));
    portfolio.open_exposure = Decimal::new(405, 2);
    let closed = close_position(portfolio, 21, at(NOW + 5)).unwrap();
    assert!(closed.open_positions.is_empty());
    assert_eq!(closed.closed_positions.len(), 1);
    assert_eq!(closed.closed_positions[0].closed_at, Some(at(NOW + 5)));
    assert_eq!(closed.closed_positions[0].realized_pnl, None);
    assert_eq!(closed.open_exposure, Decimal::zero());
    assert!(close_position(closed, 21, at(NOW + 6)).is_err());
}

#[test]
fn settlement_grades_started_positions_and_keeps_the_rest() {
    let mut portfolio = PaperPortfolio::new(Decimal::one_hundred());
    portfolio.open_positions.push(position(OutcomeSide::Long));
    let mut later = position(OutcomeSide::Short);
    later.opportunity_id = 22;
    later.start_time = Some(at(NOW + 7200));
    portfolio.open_positions.push(later);
    portfolio.open_exposure = Decimal::new(810, 2);
    let replies = vec![
        VenueReply {
            closing: Some((Decimal::new(60, 2), Decimal::new(40, 2))),
            settlement: Some(Decimal::one()),
        },
        VenueReply {
            closing: None,
            settlement: None,
        },
    ];
    let pass = settle_positions(&portfolio, &Settings::default(), &replies, at(NOW + 60)).unwrap();
    assert!(pass.changed);
    assert_eq!(pass.report.settled, 1);
    assert_eq!(pass.report.closing_lines_recorded, 1);
    assert_eq!(pass.report.realized_pnl, Decimal::new(595, 2));
    assert_eq!(pass.portfolio.open_positions.len(), 1);
    assert_eq!(pass.portfolio.closed_positions.len(), 1);
    assert_eq!(pass.portfolio.bankroll, Decimal::new(10595, 2));
    assert_eq!(
        pass.portfolio.closed_positions[0].closing_line_value(),
        Some(Decimal::new(20, 2))
    );
    assert_eq!(pass.portfolio.open_exposure, Decimal::new(405, 2));
}

#[test]
fn rows_are_found_by_identifier() {
    let rows = vec![opportunity(RecommendationClass::Actionable)];
    assert_eq!(find_opportunity(&rows, 33).unwrap().market_id, "market");
    assert!(find_opportunity(&rows, 34).is_err());
}

#[test]
fn an_event_has_a_cap_of_its_own() {
    let settings = Settings::default();
    let opened = open_position(
        PaperPortfolio::new(Decimal::one_hundred()),
        opportunity(RecommendationClass::Actionable),
        clean_news(),
        &settings,
        at(NOW),
    )
    .unwrap();
    // 2.00 is open in the event; another 2.00 is within 5.00 in all and beyond
    // 2.50 for one event.
    let mut same_event = opportunity(RecommendationClass::Actionable);
    same_event.market_id = "another-market".into();
    let error =
        open_position(opened, same_event, clean_news(), &settings, at(NOW)).unwrap_err();
    assert!(error.to_text().contains("paper position violates bankroll or exposure limits"));
}
