use polybot::config::Settings;
use polybot::decimal::Decimal;
use polybot::domain::{
    Opportunity, OutcomeSide, PaperPortfolio, RecommendationClass, SourceFamily, SourceHealth,
    SourceQuote, Sport,
};
use polybot::error::Error;
use polybot::scanner::{
    absorb_collection, after_first_pass, apply_confirmation_window, capture_scan,
    confirmation_sources, deduplicate_health, discovery_is_fresh, merge_confirmation,
    news_candidates, quote_id_belongs_to, rank_rows, scan_outcome, source_quorum, NextPass,
};
use polybot::sources::SourceFacts;
use polybot::textmap::TextMap;
use polybot::time::Timestamp;

const NOW: i64 = 1_760_000_000;

fn at(seconds: i64) -> Timestamp {
    Timestamp::from_seconds(seconds).unwrap()
}

fn source(id: &str, family: SourceFamily, confirmation: bool) -> SourceFacts {
    let mut facts = SourceFacts::single(id.to_string(), family);
    facts.confirmation_only = confirmation;
    facts
}

fn opportunity(class: RecommendationClass, source_ids: &[&str]) -> Opportunity {
    Opportunity {
        id: 9,
        generated_at: at(NOW),
        class,
        sport: Sport::Mlb,
        event_id: "event".into(),
        market_id: "market".into(),
        market_slug: "market".into(),
        participant: "A".into(),
        side: OutcomeSide::Long,
        fair_probability: Decimal::zero(),
        conservative_probability: Decimal::zero(),
        executable_price: Decimal::zero(),
        maker_price: None,
        maker_net_edge: None,
        raw_edge: Decimal::zero(),
        net_edge: Decimal::zero(),
        quantity: Decimal::zero(),
        maximum_loss: Decimal::zero(),
        estimated_fee: Decimal::zero(),
        family_count: source_ids.len(),
        source_ids: source_ids.iter().map(|id| id.to_string()).collect(),
        start_time: at(NOW + 7200),
        book_time: at(NOW),
        reasons: Vec::new(),
    }
}

fn quote(source_id: &str, sport: Sport, odds_a: i64) -> SourceQuote {
    SourceQuote {
        source_id: source_id.into(),
        family: SourceFamily::Kalshi,
        sport,
        event_id: "event".into(),
        participant_a: "A".into(),
        participant_b: "B".into(),
        participant_a_provider_ids: TextMap::new(),
        participant_b_provider_ids: TextMap::new(),
        start_time: at(NOW),
        start_time_tolerance_minutes: 15,
        decimal_odds_a: Decimal::new(odds_a, 2),
        decimal_odds_b: Decimal::new(200, 2),
        decimal_odds_neutral: None,
        source_timestamp: at(NOW),
        fetched_at: at(NOW),
        parser_version: "test".into(),
        validation_only: false,
    }
}

#[test]
fn confirmation_replaces_only_the_refetched_sports() {
    let kalshi = source("kalshi", SourceFamily::Kalshi, false);
    let initial = vec![
        quote("kalshi", Sport::Nfl, 180),
        quote("kalshi", Sport::Mlb, 180),
        quote("espn:draftkings", Sport::Mlb, 180),
    ];
    let fresh = vec![quote("kalshi", Sport::Mlb, 190)];
    let merged = merge_confirmation(initial, fresh, &vec![kalshi], &vec![Sport::Mlb]);
    let mut seen = merged
        .iter()
        .map(|q| (q.source_id.as_str(), q.sport, q.decimal_odds_a))
        .collect::<Vec<_>>();
    seen.sort_by_key(|(id, sport, _)| (id.to_string(), format!("{sport:?}")));
    assert_eq!(
        seen,
        vec![
            ("espn:draftkings", Sport::Mlb, Decimal::new(180, 2)),
            ("kalshi", Sport::Mlb, Decimal::new(190, 2)),
            ("kalshi", Sport::Nfl, Decimal::new(180, 2)),
        ]
    );
}

#[test]
fn confirmation_window_only_binds_refetched_sources() {
    let kalshi = source("kalshi", SourceFamily::Kalshi, false);
    let mut refetched_stale = quote("kalshi", Sport::Mlb, 180);
    refetched_stale.fetched_at = at(NOW - 120);
    let mut refetched_fresh = quote("kalshi", Sport::Nfl, 180);
    refetched_fresh.fetched_at = at(NOW - 30);
    let mut untouched_stale = quote("espn:draftkings", Sport::Mlb, 180);
    untouched_stale.fetched_at = at(NOW - 120);
    let quotes = vec![refetched_stale, refetched_fresh, untouched_stale];

    let kept = apply_confirmation_window(&quotes, &vec![kalshi], 90, at(NOW));
    let mut seen = kept
        .iter()
        .map(|q| (q.source_id.as_str(), q.sport))
        .collect::<Vec<_>>();
    seen.sort_by_key(|(id, sport)| (id.to_string(), format!("{sport:?}")));
    assert_eq!(
        seen,
        vec![("espn:draftkings", Sport::Mlb), ("kalshi", Sport::Nfl)]
    );
}

#[test]
fn confirmation_refetches_contributors_and_every_confirmation_tier_source() {
    let sources = vec![
        source("espn", SourceFamily::DraftKings, false),
        source("kalshi", SourceFamily::Kalshi, false),
        source("polymarket_global", SourceFamily::PolymarketGlobal, false),
        source("idle", SourceFamily::Bovada, false),
        source("pinnacle_direct", SourceFamily::Pinnacle, false),
        source(
            "the_odds_api",
            SourceFamily::Other("the_odds_api".into()),
            true,
        ),
    ];
    let opportunities = vec![
        opportunity(
            RecommendationClass::Watchlist,
            &["espn:draftkings", "kalshi", "polymarket_global"],
        ),
        opportunity(
            RecommendationClass::Watchlist,
            &["kalshi", "polymarket_global"],
        ),
        // Rejected candidates never drive a refetch.
        opportunity(RecommendationClass::Rejected, &["idle", "pinnacle_direct"]),
    ];
    let selected = confirmation_sources(&sources, &opportunities)
        .into_iter()
        .map(|place| sources[place].id.clone())
        .collect::<Vec<_>>();
    assert_eq!(
        selected,
        vec!["kalshi", "polymarket_global", "espn", "the_odds_api"]
    );
}

#[test]
fn fan_out_quote_ids_belong_to_their_collector() {
    assert!(quote_id_belongs_to("espn", "espn"));
    assert!(quote_id_belongs_to("espn:draftkings", "espn"));
    assert!(!quote_id_belongs_to("espnbet", "espn"));
    assert!(!quote_id_belongs_to("kalshi", "espn"));
}

#[test]
fn rows_are_ranked_and_candidates_picked() {
    let mut low = opportunity(RecommendationClass::Watchlist, &["a"]);
    low.id = 1;
    low.net_edge = Decimal::new(1, 2);
    let mut high = opportunity(RecommendationClass::Rejected, &["a"]);
    high.id = 2;
    high.net_edge = Decimal::new(5, 2);
    let ranked = rank_rows(vec![low, high]);
    assert_eq!(ranked[0].id, 2);
    let candidates = news_candidates(&ranked);
    assert_eq!(candidates.len(), 1);
    assert_eq!(candidates[0].id, 1);
}

#[test]
fn the_latest_health_of_a_source_is_kept() {
    let record = |id: &str, seconds: i64, reachable: bool| SourceHealth {
        source_id: id.into(),
        family: SourceFamily::Kalshi,
        checked_at: at(seconds),
        reachable,
        odds_found: 0,
        latency_ms: 1,
        message: String::new(),
    };
    let kept = deduplicate_health(vec![
        record("b", NOW, false),
        record("a", NOW, true),
        record("b", NOW + 5, true),
    ]);
    assert_eq!(kept.len(), 2);
    assert_eq!(kept[0].source_id, "a");
    assert!(kept[1].reachable);
}

#[test]
fn only_candidates_call_for_a_second_pass() {
    let sources = vec![source("kalshi", SourceFamily::Kalshi, false)];
    assert!(matches!(
        after_first_pass(&sources, &vec![opportunity(RecommendationClass::Rejected, &["kalshi"])]),
        NextPass::Finish
    ));
    match after_first_pass(&sources, &vec![opportunity(RecommendationClass::Watchlist, &["kalshi"])]) {
        NextPass::Confirm { sources, sports } => {
            assert_eq!(sources, vec![0]);
            assert_eq!(sports, vec![Sport::Mlb]);
        }
        NextPass::Finish => panic!("a candidate must be confirmed"),
    }
}

#[test]
fn collections_are_absorbed_with_their_health() {
    let facts = source("kalshi", SourceFamily::Kalshi, false);
    let (quotes, health) = absorb_collection(
        &facts,
        &Ok(vec![quote("kalshi", Sport::Mlb, 180)]),
        at(NOW),
        12,
    );
    assert_eq!(quotes.len(), 1);
    assert!(health.reachable);
    assert_eq!(health.odds_found, 1);
    let (quotes, health) =
        absorb_collection(&facts, &Err(Error::InvalidData("no".into())), at(NOW), 12);
    assert!(quotes.is_empty());
    assert!(!health.reachable);
    assert_eq!(health.message, "invalid upstream data: no");
}

#[test]
fn a_failed_release_is_reported_unless_the_scan_failed_first() {
    assert_eq!(scan_outcome(Ok(1), Ok(())).unwrap(), 1);
    let late = scan_outcome(Ok(1), Err(Error::Storage("gone".into()))).unwrap_err();
    assert_eq!(late.to_text(), "storage error: gone");
    let first = scan_outcome::<u32>(
        Err(Error::Config("bad".into())),
        Err(Error::Storage("gone".into())),
    )
    .unwrap_err();
    assert_eq!(first.to_text(), "configuration error: bad");
}

#[test]
fn too_few_sources_are_an_error() {
    let none: Vec<SourceFacts> = Vec::new();
    assert!(source_quorum(&Settings::default(), &none).is_err());
}

#[test]
fn discovery_is_cached_for_its_time() {
    assert!(discovery_is_fresh(59_999_999_999, 60));
    assert!(!discovery_is_fresh(60_000_000_000, 60));
}

#[test]
fn a_capture_keeps_what_the_scan_saw() {
    let capture = capture_scan(
        5,
        at(NOW),
        at(NOW + 1),
        at(NOW + 2),
        Vec::new(),
        Vec::new(),
        vec![quote("kalshi", Sport::Mlb, 180)],
        PaperPortfolio::new(Decimal::one_hundred()),
        vec![opportunity(RecommendationClass::Watchlist, &["kalshi"])],
        Vec::new(),
    );
    assert_eq!(capture.snapshot.quote_count, 1);
    let summary = capture.snapshot.summary();
    assert_eq!(summary.scan_id, 5);
    assert_eq!(summary.evaluated_count, 1);
    assert_eq!(summary.candidate_count, 1);
}
