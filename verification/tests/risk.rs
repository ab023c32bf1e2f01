use polybot::decimal::Decimal;
use polybot::domain::{OutcomeSide, PaperPortfolio, PaperPosition};
use polybot::risk::{
    eligible_depth, exact_fee, floor_to_increment, quarter_kelly_fraction, rounded_fee, size_position,
    size_position_from_levels, ExecutionLevel,
};
use polybot::time::Timestamp;

#[test]
fn fee_uses_bankers_rounding() {
    let rounded = Decimal::new(25, 3).round_dp(2);
    assert_eq!(rounded, Decimal::new(2, 2));
    let rounded = Decimal::new(35, 3).round_dp(2);
    assert_eq!(rounded, Decimal::new(4, 2));
}

#[test]
fn sizing_never_exceeds_risk_budget() {
    let (_, loss, _) = size_position(
        Decimal::new(5, 0),
        Decimal::new(50, 2),
        Decimal::new(50, 2),
        Decimal::new(6, 2),
        Decimal::new(1, 2),
        Decimal::new(100, 0),
    )
    .unwrap();
    assert!(loss <= Decimal::new(5, 0));
    assert!(loss > Decimal::new(49, 1));
}

#[test]
fn quarter_kelly_is_zero_without_edge() {
    assert_eq!(
        quarter_kelly_fraction(
            Decimal::new(50, 2),
            Decimal::new(51, 2),
            Decimal::new(25, 2)
        ),
        Some(Decimal::zero())
    );
}

#[test]
fn sizing_walks_multiple_levels_and_reports_vwap() {
    let result = size_position_from_levels(
        Decimal::new(5, 0),
        Decimal::zero(),
        Decimal::one(),
        Decimal::new(65, 2),
        &vec![
            ExecutionLevel {
                side_price: Decimal::new(40, 2),
                yes_price: Decimal::new(40, 2),
                quantity: Decimal::new(5, 0),
            },
            ExecutionLevel {
                side_price: Decimal::new(50, 2),
                yes_price: Decimal::new(50, 2),
                quantity: Decimal::new(10, 0),
            },
        ],
    )
    .unwrap();
    assert_eq!(result.quantity, Decimal::new(11, 0));
    assert_eq!(result.maximum_loss, Decimal::new(5, 0));
    assert_eq!(
        result.average_side_price,
        Decimal::new(5, 0).checked_div(Decimal::new(11, 0)).unwrap()
    );
}

#[test]
fn sizing_does_not_cross_price_ceiling() {
    let result = size_position_from_levels(
        Decimal::new(5, 0),
        Decimal::zero(),
        Decimal::one(),
        Decimal::new(65, 2),
        &vec![
            ExecutionLevel {
                side_price: Decimal::new(60, 2),
                yes_price: Decimal::new(60, 2),
                quantity: Decimal::new(2, 0),
            },
            ExecutionLevel {
                side_price: Decimal::new(66, 2),
                yes_price: Decimal::new(66, 2),
                quantity: Decimal::new(100, 0),
            },
        ],
    )
    .unwrap();
    assert_eq!(result.quantity, Decimal::new(2, 0));
    assert_eq!(result.maximum_loss, Decimal::new(12, 1));
}

fn position() -> PaperPosition {
    PaperPosition {
        opportunity_id: 5,
        event_id: "event".into(),
        market_id: "market".into(),
        market_slug: "slug".into(),
        side: OutcomeSide::Long,
        quantity: Decimal::one(),
        entry_price: Decimal::new(50, 2),
        fair_probability: Decimal::new(55, 2),
        estimated_fee: Decimal::zero(),
        maximum_loss: Decimal::new(3, 0),
        start_time: None,
        opened_at: Timestamp::from_seconds(0).unwrap(),
        closing_price: None,
        settlement_payout: None,
        realized_pnl: None,
        closed_at: None,
    }
}

#[test]
fn portfolio_enforces_total_exposure_and_duplicate_side() {
    let mut portfolio = PaperPortfolio::new(Decimal::one_hundred());
    assert_eq!(portfolio.open(position(), Decimal::new(5, 0)), Some(true));
    assert!(portfolio.has_market_side("market", OutcomeSide::Long));
    assert_eq!(
        portfolio.can_open(Decimal::new(3, 0), Decimal::new(5, 0)),
        Some(false)
    );
    assert_eq!(
        portfolio.exposure_for_event("event"),
        Some(Decimal::new(3, 0))
    );
}

#[test]
fn a_refused_position_leaves_the_portfolio_alone() {
    let mut portfolio = PaperPortfolio::new(Decimal::one_hundred());
    assert_eq!(portfolio.open(position(), Decimal::new(2, 0)), Some(false));
    assert!(portfolio.open_positions.is_empty());
    assert_eq!(portfolio.open_exposure, Decimal::zero());
    assert!(!portfolio.has_market_side("market", OutcomeSide::Long));
}

#[test]
fn fees_follow_price_and_size() {
    // 0.06 * 10 * 0.5 * 0.5 = 0.15
    assert_eq!(
        exact_fee(Decimal::new(6, 2), Decimal::new(10, 0), Decimal::new(50, 2)),
        Some(Decimal::new(15, 2))
    );
    // 0.06 * 1 * 0.25 = 0.015, and half a cent goes to the even cent.
    assert_eq!(
        rounded_fee(Decimal::new(6, 2), Decimal::new(1, 0), Decimal::new(50, 2)),
        Some(Decimal::new(2, 2))
    );
}

#[test]
fn kelly_is_a_quarter_of_the_full_fraction() {
    // (0.6 - 0.5) / (1 - 0.5) = 0.2
    assert_eq!(
        quarter_kelly_fraction(Decimal::new(60, 2), Decimal::new(50, 2), Decimal::new(25, 2)),
        Some(Decimal::new(5, 2))
    );
}

#[test]
fn quantities_are_cut_to_the_increment() {
    assert_eq!(
        floor_to_increment(Decimal::new(1239, 3), Decimal::new(1, 2)),
        Some(Decimal::new(123, 2))
    );
    assert_eq!(
        floor_to_increment(Decimal::new(7, 0), Decimal::new(2, 0)),
        Some(Decimal::new(6, 0))
    );
}

#[test]
fn sizing_takes_whole_increments_of_what_is_offered() {
    let level = |price: i64, quantity: i64| ExecutionLevel {
        side_price: Decimal::new(price, 2),
        yes_price: Decimal::new(price, 2),
        quantity: Decimal::new(quantity, 3),
    };
    let levels = vec![level(40, 1_237), level(45, 2_508), level(70, 9_000)];
    let increment = Decimal::new(1, 2);
    let ceiling = Decimal::new(50, 2);
    let sized = size_position_from_levels(
        Decimal::new(100, 0),
        Decimal::new(6, 2),
        increment,
        ceiling,
        &levels,
    )
    .unwrap();
    // 1.23 at 0.40 and 2.50 at 0.45.
    assert_eq!(sized.quantity, Decimal::new(373, 2));
    assert!(sized.average_side_price <= ceiling);
    // 3.745 in all, cut to the increment.
    assert_eq!(eligible_depth(increment, ceiling, &levels), Some(Decimal::new(374, 2)));
    assert_eq!(
        eligible_depth(increment, Decimal::new(39, 2), &levels),
        Some(Decimal::zero())
    );
}
