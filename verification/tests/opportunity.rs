use polybot::config::Settings;
use polybot::decimal::Decimal;
use polybot::domain::{
    BookLevel, ConsensusPrice, MarketBook, MarketParticipant, Opportunity, OutcomeSide,
    PaperPortfolio, PaperPosition, RecommendationClass, Sport, UsMoneylineMarket,
};
use polybot::opportunity::OpportunityEngine;
use polybot::textmap::TextMap;
use polybot::time::Timestamp;

const NOW: i64 = 1_760_000_000;

fn at(seconds: i64) -> Timestamp {
    Timestamp::from_seconds(seconds).unwrap()
}

fn market() -> UsMoneylineMarket {
    UsMoneylineMarket {
        event_id: "event".into(),
        game_id: None,
        sportradar_game_id: None,
        sport: Sport::Nba,
        start_time: at(NOW + 2 * 3600),
        market_id: "market".into(),
        market_slug: "market".into(),
        description: "full game winner".into(),
        sports_market_type: "basketball_team_full_game_winner".into(),
        long_participant: MarketParticipant {
            side_id: "a".into(),
            name: "Team A".into(),
            long: true,
            team_id: None,
            provider_ids: TextMap::new(),
        },
        short_participant: MarketParticipant {
            side_id: "b".into(),
            name: "Team B".into(),
            long: false,
            team_id: None,
            provider_ids: TextMap::new(),
        },
        tick_size: Decimal::new(1, 2),
        minimum_quantity: Decimal::one(),
        fee_coefficient: Decimal::zero(),
        ep3_status: "OPEN".into(),
        ep3_synced_at: None,
    }
}

fn book() -> MarketBook {
    MarketBook {
        market_slug: "market".into(),
        bids: vec![BookLevel {
            yes_price: Decimal::new(55, 2),
            quantity: Decimal::new(20, 0),
        }],
        offers: vec![BookLevel {
            yes_price: Decimal::new(57, 2),
            quantity: Decimal::new(20, 0),
        }],
        state: "MARKET_STATE_OPEN".into(),
        transact_time: at(NOW),
        fetched_at: at(NOW),
    }
}

fn consensus() -> ConsensusPrice {
    ConsensusPrice {
        probability_a: Decimal::new(30, 2),
        probability_b: Decimal::new(70, 2),
        probability_neutral: Decimal::zero(),
        dispersion_a: Decimal::zero(),
        family_count: 5,
        has_reference: true,
        source_ids: vec!["a".into(), "b".into(), "c".into(), "d".into(), "e".into()],
        newest_source_timestamp: at(NOW),
    }
}

fn portfolio() -> PaperPortfolio {
    PaperPortfolio::new(Decimal::one_hundred())
}

fn rows(
    settings: Settings,
    market: &UsMoneylineMarket,
    book: &MarketBook,
    consensus: &ConsensusPrice,
    portfolio: &PaperPortfolio,
) -> Vec<Opportunity> {
    OpportunityEngine::new(settings)
        .evaluate(market, book, consensus, portfolio, at(NOW))
        .unwrap()
}

fn short(
    settings: Settings,
    market: &UsMoneylineMarket,
    consensus: &ConsensusPrice,
) -> Opportunity {
    rows(settings, market, &book(), consensus, &portfolio())
        .into_iter()
        .find(|item| item.side == OutcomeSide::Short)
        .unwrap()
}

fn minus(a: Decimal, b: Decimal) -> Decimal {
    a.checked_sub(b).unwrap()
}

#[test]
fn short_side_uses_one_minus_yes_bid() {
    let opportunities = rows(
        Settings::default(),
        &market(),
        &book(),
        &consensus(),
        &portfolio(),
    );
    let short = opportunities
        .iter()
        .find(|item| item.side == OutcomeSide::Short)
        .unwrap();
    assert_eq!(short.executable_price, Decimal::new(45, 2));
    assert_eq!(short.maker_price, Some(Decimal::new(44, 2)));
    assert_eq!(short.class, RecommendationClass::Actionable);
}

#[test]
fn consensus_bias_lowers_net_edge_only() {
    let unbiased = short(
        Settings {
            consensus_bias: Decimal::zero(),
            ..Settings::default()
        },
        &market(),
        &consensus(),
    );
    let biased = short(Settings::default(), &market(), &consensus());
    assert_eq!(biased.raw_edge, unbiased.raw_edge);
    assert_eq!(minus(unbiased.net_edge, biased.net_edge), Decimal::new(2, 2));
    assert_eq!(
        minus(
            unbiased.conservative_probability,
            biased.conservative_probability
        ),
        Decimal::new(2, 2)
    );
}

#[test]
fn market_inside_minimum_lead_is_rejected() {
    let mut market = market();
    market.start_time = at(NOW + 5 * 60);
    let short = short(Settings::default(), &market, &consensus());
    assert_eq!(short.class, RecommendationClass::Rejected);
    assert!(short.reasons.iter().any(|r| r.contains("minimum lead")));
}

#[test]
fn maker_edge_earns_rebate_instead_of_fee() {
    let mut market = market();
    market.fee_coefficient = Decimal::new(175, 4);
    let short = short(Settings::default(), &market, &consensus());
    // Short at maker 0.44 sells YES at 0.56: 0.68 - 0.44 + 0.0125 * 0.56 * 0.44.
    assert_eq!(short.maker_net_edge, Some(Decimal::new(24308, 5)));
    assert!(short.estimated_fee > Decimal::zero());
    assert!(short.maker_net_edge.unwrap() > short.net_edge);
}

#[test]
fn reference_book_requirement_is_a_setting() {
    let mut consensus = consensus();
    consensus.has_reference = false;
    let short = |settings: Settings| short(settings, &market(), &consensus);
    let strict = short(Settings::default());
    assert_eq!(strict.class, RecommendationClass::Watchlist);
    assert!(strict.reasons.iter().any(|r| r.contains("reference")));
    let relaxed = short(Settings {
        require_reference_book: false,
        ..Settings::default()
    });
    assert_eq!(relaxed.class, RecommendationClass::Actionable);
}

#[test]
fn position_floor_zero_admits_tiny_edges() {
    // Short side: fair 0.47 vs 0.45 executable is a 2 pp edge, which
    // quarter-Kelly sizes below the default one-percent floor.
    let mut consensus = consensus();
    consensus.probability_a = Decimal::new(53, 2);
    consensus.probability_b = Decimal::new(47, 2);
    let short = |settings: Settings| short(settings, &market(), &consensus);
    let relaxed_edges = Settings {
        minimum_raw_edge: Decimal::zero(),
        minimum_net_edge: Decimal::zero(),
        consensus_bias: Decimal::zero(),
        ..Settings::default()
    };
    let floored = short(relaxed_edges.clone());
    assert_eq!(floored.class, RecommendationClass::Rejected);
    assert!(floored.reasons.iter().any(|r| r.contains("Kelly")));
    let unfloored = short(Settings {
        minimum_position_fraction: Decimal::zero(),
        ..relaxed_edges
    });
    assert_ne!(unfloored.class, RecommendationClass::Rejected);
}

#[test]
fn stale_or_suspended_book_is_rejected() {
    let mut book = book();
    book.state = "MARKET_STATE_SUSPENDED".into();
    book.fetched_at = at(NOW - 2 * 60);
    let opportunities = rows(
        Settings::default(),
        &market(),
        &book,
        &consensus(),
        &portfolio(),
    );
    assert!(opportunities
        .iter()
        .all(|item| item.class == RecommendationClass::Rejected));
    assert!(opportunities.iter().any(|item| item
        .reasons
        .iter()
        .any(|reason| reason.contains("SUSPENDED"))));
}

#[test]
fn a_side_keeps_its_identifier() {
    let first = rows(Settings::default(), &market(), &book(), &consensus(), &portfolio());
    let mut moved = book();
    moved.bids[0].yes_price = Decimal::new(54, 2);
    let second = rows(Settings::default(), &market(), &moved, &consensus(), &portfolio());
    assert_eq!(first[0].id, second[0].id);
    assert_ne!(first[0].id, first[1].id);
    // The version 5 identifier, with its version and variant bits set.
    assert_eq!((first[0].id >> 76) & 0xf, 5);
    assert_eq!((first[0].id >> 62) & 0b11, 0b10);
}

#[test]
fn a_held_side_is_not_bought_again() {
    let found = short(Settings::default(), &market(), &consensus());
    let mut held = portfolio();
    held.open_positions.push(PaperPosition::from_opportunity(&found, at(NOW)));
    held.open_exposure = found.maximum_loss;
    let again = rows(Settings::default(), &market(), &book(), &consensus(), &held)
        .into_iter()
        .find(|item| item.side == OutcomeSide::Short)
        .unwrap();
    assert_ne!(again.class, RecommendationClass::Actionable);
}

#[test]
fn sizes_stay_inside_the_exposure_cap() {
    let settings = Settings::default();
    let cap = settings.maximum_total_exposure;
    for row in rows(settings, &market(), &book(), &consensus(), &portfolio()) {
        assert!(row.maximum_loss <= cap);
    }
}

#[test]
fn an_overflow_gives_no_rows() {
    let largest = Decimal::from_parts(79_228_162_514_264_337_593_543_950_335, 0).unwrap();
    let mut spread = consensus();
    spread.dispersion_a = largest;
    let settings = Settings {
        consensus_bias: largest,
        ..Settings::default()
    };
    assert!(OpportunityEngine::new(settings)
        .evaluate(&market(), &book(), &spread, &portfolio(), at(NOW))
        .is_none());
}

#[test]
fn decisions_do_not_read_the_clock_itself() {
    let shift = 86_400;
    let engine = OpportunityEngine::new(Settings::default());
    let first = engine
        .evaluate(&market(), &book(), &consensus(), &portfolio(), at(NOW + 3))
        .unwrap();
    let mut later_market = market();
    later_market.start_time = at(later_market.start_time.seconds() + shift);
    let mut later_book = book();
    later_book.transact_time = at(NOW + shift);
    later_book.fetched_at = at(NOW + shift);
    let second = engine
        .evaluate(
            &later_market,
            &later_book,
            &consensus(),
            &portfolio(),
            at(NOW + 3 + shift),
        )
        .unwrap();
    assert_eq!(first.len(), 2);
    for (a, b) in first.iter().zip(&second) {
        assert_eq!((a.id, a.side, a.class), (b.id, b.side, b.class));
        assert_eq!(a.reasons, b.reasons);
        assert_eq!(a.quantity, b.quantity);
        assert_eq!(a.generated_at.seconds() + shift, b.generated_at.seconds());
        assert_eq!(a.start_time.seconds() + shift, b.start_time.seconds());
    }
    assert_eq!(first[0].side, OutcomeSide::Long);
    assert_eq!(first[1].side, OutcomeSide::Short);
}
