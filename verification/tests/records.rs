use polybot::decimal::Decimal;
use polybot::domain::{
    BookLevel, MarketBook, MarketParticipant, Opportunity, OutcomeSide, PaperPortfolio,
    RecommendationClass, ScanCapture, ScanSnapshot, SourceFamily, SourceQuote, Sport,
    UsMoneylineMarket,
};
use polybot::records::{
    book_rows, count, is_scan_file, market_rows, opportunity_from_record, opportunity_record,
    recover_start_time, restore_book, restore_books, update_market, ImportOutcome, ImportReport,
};
use polybot::textmap::TextMap;
use polybot::time::Timestamp;

const NOW: i64 = 1_760_000_000;

fn at(seconds: i64) -> Timestamp {
    Timestamp::from_seconds(seconds).unwrap()
}

fn market(id: &str) -> UsMoneylineMarket {
    let participant = |name: &str, long: bool| MarketParticipant {
        side_id: name.into(),
        name: name.into(),
        long,
        team_id: None,
        provider_ids: TextMap::new(),
    };
    UsMoneylineMarket {
        event_id: "event".into(),
        game_id: None,
        sportradar_game_id: None,
        sport: Sport::Nba,
        start_time: at(NOW + 7200),
        market_id: id.into(),
        market_slug: format!("{id}-slug"),
        description: "winner".into(),
        sports_market_type: "moneyline".into(),
        long_participant: participant("Home", true),
        short_participant: participant("Away", false),
        tick_size: Decimal::new(1, 2),
        minimum_quantity: Decimal::one(),
        fee_coefficient: Decimal::zero(),
        ep3_status: "OPEN".into(),
        ep3_synced_at: None,
    }
}

fn book(slug: &str) -> MarketBook {
    MarketBook {
        market_slug: slug.into(),
        bids: vec![BookLevel {
            yes_price: Decimal::new(44, 2),
            quantity: Decimal::new(5, 0),
        }],
        offers: Vec::new(),
        state: "MARKET_STATE_OPEN".into(),
        transact_time: at(NOW - 5),
        fetched_at: at(NOW),
    }
}

fn opportunity(market_id: &str, side: OutcomeSide, participant: &str) -> Opportunity {
    Opportunity {
        id: 77,
        generated_at: at(NOW),
        class: RecommendationClass::Watchlist,
        sport: Sport::Nba,
        event_id: "event".into(),
        market_id: market_id.into(),
        market_slug: format!("{market_id}-slug"),
        participant: participant.into(),
        side,
        fair_probability: Decimal::new(55, 2),
        conservative_probability: Decimal::new(52, 2),
        executable_price: Decimal::new(50, 2),
        maker_price: Some(Decimal::new(49, 2)),
        maker_net_edge: None,
        raw_edge: Decimal::new(5, 2),
        net_edge: Decimal::new(2, 2),
        quantity: Decimal::new(4, 0),
        maximum_loss: Decimal::new(2, 0),
        estimated_fee: Decimal::new(1, 2),
        family_count: 3,
        source_ids: vec!["a".into(), "b".into()],
        start_time: at(NOW + 7200),
        book_time: at(NOW),
        reasons: vec!["why".into()],
    }
}

fn capture(
    markets: Vec<UsMoneylineMarket>,
    books: Vec<MarketBook>,
    opportunities: Vec<Opportunity>,
) -> ScanCapture {
    ScanCapture {
        snapshot: ScanSnapshot {
            scan_id: 1,
            started_at: at(NOW),
            evaluated_at: at(NOW),
            completed_at: at(NOW),
            market_count: markets.len(),
            quote_count: 0,
            opportunities,
            source_health: Vec::new(),
        },
        markets,
        books,
        quotes: Vec::new(),
        portfolio: PaperPortfolio::new(Decimal::one_hundred()),
    }
}

#[test]
fn definitions_are_listed_where_there_are_any() {
    let rows = market_rows(&capture(
        vec![market("m1"), market("m2")],
        Vec::new(),
        vec![opportunity("m3", OutcomeSide::Long, "X")],
    ));
    assert_eq!(rows.len(), 2);
    assert_eq!(rows[0].long_participant, "Home");
    assert!(rows[1].definition.is_some());
}

#[test]
fn opportunities_tell_each_market_once() {
    let rows = market_rows(&capture(
        Vec::new(),
        Vec::new(),
        vec![
            opportunity("m1", OutcomeSide::Long, "Home"),
            opportunity("m2", OutcomeSide::Long, "Red"),
            opportunity("m1", OutcomeSide::Short, "Away"),
        ],
    ));
    assert_eq!(rows.len(), 2);
    assert_eq!(rows[0].market_id, "m1");
    assert_eq!(rows[0].long_participant, "Home");
    assert_eq!(rows[0].short_participant, "Away");
    assert_eq!(rows[1].short_participant, "");
    assert!(rows[0].definition.is_none());
}

#[test]
fn an_import_erases_nothing() {
    let mut first = market_rows(&capture(vec![market("m1")], Vec::new(), Vec::new()));
    let known = update_market(None, first.remove(0), at(NOW));
    let mut bare = market_rows(&capture(
        Vec::new(),
        Vec::new(),
        vec![opportunity("m1", OutcomeSide::Long, "Hosts")],
    ));
    let merged = update_market(Some(known), bare.remove(0), at(NOW - 100));
    assert!(merged.market.definition.is_some());
    assert_eq!(merged.market.long_participant, "Hosts");
    assert_eq!(merged.market.short_participant, "Away");
    assert_eq!(merged.first_seen_at, at(NOW - 100));
    assert_eq!(merged.last_seen_at, at(NOW));
}

#[test]
fn books_come_back_with_their_market() {
    let mut rows = book_rows(&capture(
        vec![market("m1")],
        vec![book("m1-slug"), book("nobody")],
        Vec::new(),
    ));
    assert_eq!(rows.len(), 1);
    let mut later = market("m1");
    later.start_time = at(NOW + 9999);
    later.ep3_status = "CLOSED".into();
    let (found, levels) = restore_book(&rows[0], &later);
    assert_eq!(found.start_time, at(NOW + 7200));
    assert_eq!(found.ep3_status, "OPEN");
    assert_eq!(levels.market_slug, "m1-slug");
    assert_eq!(levels.bids[0].yes_price, Decimal::new(44, 2));
    let shelf = vec![(rows.remove(0), Some(later))];
    let (markets, books) = restore_books(&shelf);
    assert_eq!(markets.len(), 1);
    assert_eq!(books[0].market_slug, "m1-slug");
    let mut rows = book_rows(&capture(vec![market("m1")], vec![book("m1-slug")], Vec::new()));
    let (markets, books) = restore_books(&vec![(rows.remove(0), None)]);
    assert!(markets.is_empty());
    assert!(books.is_empty());
}

#[test]
fn rows_come_back_from_their_records() {
    let row = opportunity("m1", OutcomeSide::Short, "Away");
    let record = opportunity_record(&row).unwrap();
    assert_eq!(record.side, "short");
    assert_eq!(record.class, "watchlist");
    assert_eq!(record.family_count, 3);
    let back = opportunity_from_record(record, "m1-slug".into()).unwrap();
    assert_eq!(back.id, row.id);
    assert_eq!(back.side, row.side);
    assert_eq!(back.class, row.class);
    assert_eq!(back.maker_price, row.maker_price);
    assert_eq!(back.reasons, row.reasons);
    let mut broken = opportunity_record(&row).unwrap();
    broken.family_count = -1;
    assert_eq!(
        opportunity_from_record(broken, "s".into()).unwrap_err().to_text(),
        "storage error: family_count: out of range integral type conversion attempted"
    );
    let mut broken = opportunity_record(&row).unwrap();
    broken.sport = "chess".into();
    assert!(opportunity_from_record(broken, "s".into()).is_err());
    assert_eq!(
        count(usize::MAX).unwrap_err().to_text(),
        "storage error: count overflow: out of range integral type conversion attempted"
    );
}

#[test]
fn scan_files_are_named_by_an_identifier() {
    assert!(is_scan_file("01234567-89ab-cdef-0123-456789abcdef", Some("json")));
    assert!(!is_scan_file("01234567-89ab-cdef-0123-456789abcdef-books", Some("json")));
    assert!(!is_scan_file("01234567-89ab-cdef-0123-456789abcdef", Some("tmp")));
    assert!(!is_scan_file("01234567-89ab-cdef-0123-456789abcdef", None));
}

#[test]
fn lost_starts_come_from_exact_quotes_only() {
    let quote = |tolerance: i64, start: i64| SourceQuote {
        source_id: "s".into(),
        family: SourceFamily::Kalshi,
        sport: Sport::Nba,
        event_id: "e".into(),
        participant_a: "Home".into(),
        participant_b: "Away".into(),
        participant_a_provider_ids: TextMap::new(),
        participant_b_provider_ids: TextMap::new(),
        start_time: at(start),
        start_time_tolerance_minutes: tolerance,
        decimal_odds_a: Decimal::two(),
        decimal_odds_b: Decimal::two(),
        decimal_odds_neutral: None,
        source_timestamp: at(NOW),
        fetched_at: at(NOW),
        parser_version: "v".into(),
        validation_only: false,
    };
    let quotes = vec![quote(840, NOW + 1), quote(15, NOW + 2), quote(15, NOW + 3)];
    assert_eq!(recover_start_time(&quotes, "nba", "AWAY"), Some(at(NOW + 2)));
    assert_eq!(recover_start_time(&quotes, "nfl", "Away"), None);
    assert_eq!(recover_start_time(&quotes, "nba", "Visitors"), None);
}

#[test]
fn imports_are_counted() {
    let report = ImportReport::new(4)
        .note(ImportOutcome::Imported { with_books: true })
        .note(ImportOutcome::Present { with_books: false })
        .note(ImportOutcome::Refused { with_books: true })
        .note(ImportOutcome::Unreadable);
    assert_eq!(report.files, 4);
    assert_eq!(report.imported, 1);
    assert_eq!(report.already_archived, 1);
    assert_eq!(report.failed, 2);
    assert_eq!(report.with_books, 2);
}
