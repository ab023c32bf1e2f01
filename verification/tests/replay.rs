use polybot::config::Settings;
use polybot::decimal::{parse_decimal, Decimal};
use polybot::domain::{
    BookLevel, MarketBook, MarketParticipant, OutcomeSide, PaperPortfolio, RecommendationClass, SourceFamily,
    SourceQuote, Sport, UsMoneylineMarket,
};
use polybot::replay::{FillModel, Frame, MarketOutcome, Replay, ReplayOptions};
use polybot::textmap::TextMap;
use polybot::time::Timestamp;

fn d(value: &str) -> Decimal {
    parse_decimal(value).unwrap()
}

fn t(minutes: i64) -> Timestamp {
    Timestamp::from_seconds(1_800_000_000 + minutes * 60).unwrap()
}

fn market(start: Timestamp) -> UsMoneylineMarket {
    UsMoneylineMarket {
        event_id: "event".into(),
        game_id: None,
        sportradar_game_id: None,
        sport: Sport::Nba,
        start_time: start,
        market_id: "market".into(),
        market_slug: "slug".into(),
        description: "full game winner".into(),
        sports_market_type: "moneyline".into(),
        long_participant: MarketParticipant {
            side_id: "a".into(),
            name: "Home".into(),
            long: true,
            team_id: None,
            provider_ids: TextMap::new(),
        },
        short_participant: MarketParticipant {
            side_id: "b".into(),
            name: "Away".into(),
            long: false,
            team_id: None,
            provider_ids: TextMap::new(),
        },
        tick_size: d("0.01"),
        minimum_quantity: d("0.01"),
        fee_coefficient: d("0.06"),
        ep3_status: "OPEN".into(),
        ep3_synced_at: None,
    }
}

fn book(ask: &str, at: Timestamp) -> MarketBook {
    MarketBook {
        market_slug: "slug".into(),
        bids: vec![BookLevel {
            yes_price: d(ask).checked_sub(d("0.01")).unwrap(),
            quantity: d("1000"),
        }],
        offers: vec![BookLevel {
            yes_price: d(ask),
            quantity: d("1000"),
        }],
        state: "MARKET_STATE_OPEN".into(),
        transact_time: at,
        fetched_at: at,
    }
}

fn quote(id: &str, family: SourceFamily, at: Timestamp, start: Timestamp) -> SourceQuote {
    SourceQuote {
        source_id: id.into(),
        family,
        sport: Sport::Nba,
        event_id: "e".into(),
        participant_a: "Home".into(),
        participant_b: "Away".into(),
        participant_a_provider_ids: TextMap::new(),
        participant_b_provider_ids: TextMap::new(),
        start_time: start,
        start_time_tolerance_minutes: 15,
        // Fair ~0.667 for Home.
        decimal_odds_a: d("1.45"),
        decimal_odds_b: d("2.90"),
        decimal_odds_neutral: None,
        source_timestamp: at,
        fetched_at: at,
        parser_version: "test".into(),
        validation_only: false,
    }
}

fn frame(at: Timestamp, start: Timestamp, ask: &str) -> Frame {
    let quotes = vec![
        quote("pinnacle", SourceFamily::Pinnacle, at, start),
        quote("circa", SourceFamily::Circa, at, start),
        quote("fanduel", SourceFamily::FanDuel, at, start),
        quote("draftkings", SourceFamily::DraftKings, at, start),
        quote("betmgm", SourceFamily::BetMgm, at, start),
    ];
    Frame {
        scan_id: 1,
        evaluated_at: at,
        origin: "live".into(),
        settings: None,
        portfolio: PaperPortfolio::new(Decimal::one_hundred()),
        markets: vec![market(start)],
        books: vec![book(ask, at)],
        quotes,
        opportunities: Vec::new(),
    }
}

fn options(fill: FillModel) -> ReplayOptions {
    ReplayOptions {
        settings: Settings {
            minimum_position_fraction: Decimal::zero(),
            ..Settings::default()
        },
        open_class: RecommendationClass::Actionable,
        fill,
        settlement_lag_hours: 4,
    }
}

fn settled(payout: Decimal) -> TextMap<MarketOutcome> {
    TextMap::new().insert(
        "market".to_string(),
        MarketOutcome {
            market_id: "market".into(),
            start_time: t(120),
            closing_long: Some(d("0.60")),
            closing_short: Some(d("0.40")),
            closing_observed_at: None,
            settlement: Some(payout),
            settled_recorded_at: None,
        },
    )
}

#[test]
fn same_book_opens_settles_and_grades() {
    let outcomes = settled(Decimal::one());
    let replay = Replay::new(options(FillModel::SameBook))
        .step(&frame(t(0), t(120), "0.55"), &outcomes)
        .unwrap();
    let report = replay.finish(t(120 + 5 * 60), &outcomes, t(1000)).unwrap();
    assert_eq!(report.frames_recomputed, 1);
    assert_eq!(report.rows_by_class.get("actionable"), Some(&1));
    assert_eq!(report.paper.filled, 1);
    assert_eq!(report.paper.settled, 1);
    assert!(report.paper.realized_pnl > Decimal::zero(), "{report:?}");
    assert_eq!(report.efficiency.graded_markets, 1);
    assert_eq!(report.paper.closing_line_value.as_ref().unwrap().count, 1);
    // Entered at 0.55, closed at 0.60: five cents of closing-line value.
    assert_eq!(
        report.paper.closing_line_value.as_ref().unwrap().mean,
        d("0.05")
    );
    assert!(!report.production_approved);
}

#[test]
fn next_book_fills_only_at_or_below_the_decision_price() {
    let outcomes = settled(Decimal::one());
    let replay = Replay::new(options(FillModel::NextBook))
        .step(&frame(t(0), t(120), "0.55"), &outcomes)
        .unwrap();
    assert_eq!(replay.pending.len(), 1, "order waits for the next book");
    // Price moved up: no fill.
    let replay = replay.step(&frame(t(5), t(120), "0.58"), &outcomes).unwrap();
    assert_eq!(replay.filled, 0);
    assert_eq!(replay.unfilled.get("price moved through limit"), Some(&1));
    // The row re-qualifies at 0.58 and is resubmitted; the next book at
    // 0.57 is at or below that decision price, so it fills.
    let replay = replay.step(&frame(t(10), t(120), "0.57"), &outcomes).unwrap();
    assert_eq!(replay.filled, 1);
    let report = replay.finish(t(600), &outcomes, t(1000)).unwrap();
    assert_eq!(report.paper.settled, 1);
}

#[test]
fn unsettled_positions_stay_open_and_are_reported() {
    let outcomes: TextMap<MarketOutcome> = TextMap::new();
    let replay = Replay::new(options(FillModel::SameBook))
        .step(&frame(t(0), t(120), "0.55"), &outcomes)
        .unwrap();
    let report = replay.finish(t(600), &outcomes, t(1000)).unwrap();
    assert_eq!(report.paper.unsettled_open, 1);
    assert_eq!(report.paper.settled, 0);
    assert_eq!(report.graded_observations, 0);
    assert!(report
        .limitations
        .iter()
        .any(|l| l.contains("never settled")));
}

#[test]
fn every_frame_counts_and_stored_rows_stand_in_for_missing_books() {
    let outcomes: TextMap<MarketOutcome> = TextMap::new();
    let mut bare = frame(t(5), t(120), "0.55");
    bare.books = Vec::new();
    let replay = Replay::new(options(FillModel::SameBook))
        .step(&frame(t(0), t(120), "0.90"), &outcomes)
        .unwrap()
        .step(&bare, &outcomes)
        .unwrap();
    assert_eq!(replay.frames, 2);
    assert_eq!(replay.frames_recomputed, 1);
    assert_eq!(replay.frames_stored, 1);
}

#[test]
fn outcomes_pay_each_side() {
    let outcome = settled(d("1"));
    let outcome = outcome.get("market").unwrap();
    assert_eq!(outcome.payout(OutcomeSide::Long), Some(Some(Decimal::one())));
    assert_eq!(outcome.payout(OutcomeSide::Short), Some(Some(Decimal::zero())));
    assert_eq!(outcome.closing_side_price(OutcomeSide::Short), Some(d("0.40")));
}

#[test]
fn a_next_book_too_thin_for_the_order_leaves_it_unfilled() {
    let outcomes = settled(Decimal::one());
    let replay = Replay::new(options(FillModel::NextBook))
        .step(&frame(t(0), t(120), "0.55"), &outcomes)
        .unwrap();
    let ordered = replay.pending[0].opportunity.quantity;
    assert!(ordered > d("0.1"));
    let mut thin = frame(t(5), t(120), "0.55");
    thin.books[0].offers[0].quantity = d("0.1");
    let replay = replay.step(&thin, &outcomes).unwrap();
    assert_eq!(replay.filled, 0);
    assert_eq!(replay.partial_fills, 0);
    assert_eq!(replay.unfilled.get("price moved through limit"), Some(&1));
    assert_eq!(replay.submitted, 1 + replay.pending.len());
    let report = replay.finish(t(600), &outcomes, t(1000)).unwrap();
    let unfilled: usize = ["price moved through limit", "market started", "window ended"]
        .iter()
        .filter_map(|reason| report.paper.unfilled.get(reason))
        .sum();
    assert_eq!(
        report.paper.submitted,
        report.paper.filled + report.paper.blocked_by_exposure + unfilled
    );
    assert_eq!(report.paper.final_bankroll, Decimal::one_hundred());
}

#[test]
fn a_book_that_has_not_moved_fills_the_order() {
    for ask in ["0.57", "0.58", "0.55"] {
        let outcomes = settled(Decimal::one());
        let replay = Replay::new(options(FillModel::NextBook))
            .step(&frame(t(0), t(120), ask), &outcomes)
            .unwrap();
        assert_eq!(replay.pending.len(), 1);
        let replay = replay.step(&frame(t(5), t(120), ask), &outcomes).unwrap();
        assert_eq!(replay.filled, 1, "{ask}");
        assert!(replay.unfilled.get("price moved through limit").is_none());
        assert_eq!(replay.pending.len(), 0);
    }
}

#[test]
fn a_fill_for_fewer_contracts_is_counted_as_partial() {
    let outcomes = settled(Decimal::one());
    let replay = Replay::new(options(FillModel::NextBook))
        .step(&frame(t(0), t(120), "0.57"), &outcomes)
        .unwrap();
    // 2.50 buys 4.27 contracts and loses 2.4939 with its fee of 0.06; 2.4939
    // buys 4.26.
    assert_eq!(replay.pending[0].opportunity.quantity, d("4.27"));
    assert_eq!(replay.pending[0].opportunity.maximum_loss, d("2.4939"));
    let replay = replay.step(&frame(t(5), t(120), "0.57"), &outcomes).unwrap();
    assert_eq!(replay.partial_fills, 1);
    assert_eq!(replay.portfolio.open_positions[0].quantity, d("4.26"));
}

#[test]
fn the_exposure_is_the_sum_of_the_open_losses() {
    let outcomes = TextMap::new();
    let replay = Replay::new(options(FillModel::SameBook))
        .step(&frame(t(0), t(120), "0.55"), &outcomes)
        .unwrap();
    let sum = replay
        .portfolio
        .open_positions
        .iter()
        .fold(Decimal::zero(), |sum, item| sum.checked_add(item.maximum_loss).unwrap());
    assert!(sum > Decimal::zero());
    assert_eq!(replay.portfolio.open_exposure, sum);
    assert!(sum <= options(FillModel::SameBook).settings.maximum_total_exposure);
    let report = replay.finish(t(600), &outcomes, t(1000)).unwrap();
    assert_eq!(report.paper.settled, 0);
    assert_eq!(report.paper.realized_pnl, Decimal::zero());
    assert!(report.paper.roi_on_risk.is_none());
    assert!(report.paper.drawdown.amount >= Decimal::zero());
}

#[test]
fn an_order_too_small_to_be_sized_again_fills_as_decided() {
    let outcomes = settled(Decimal::one());
    let mut replay = Replay::new(options(FillModel::NextBook))
        .step(&frame(t(0), t(120), "0.57"), &outcomes)
        .unwrap();
    // One increment at 0.57, whose fee rounds to nothing.
    replay.pending[0].opportunity.quantity = d("0.01");
    replay.pending[0].opportunity.estimated_fee = Decimal::zero();
    replay.pending[0].opportunity.maximum_loss = d("0.0057");
    let replay = replay.step(&frame(t(5), t(120), "0.57"), &outcomes).unwrap();
    assert_eq!(replay.filled, 1);
    assert_eq!(replay.portfolio.open_positions[0].quantity, d("0.01"));
    assert_eq!(replay.portfolio.open_exposure, d("0.0057"));
}
