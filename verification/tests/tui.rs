use polybot::config::{RunMode, Settings};
use polybot::decimal::{parse_decimal, Decimal};
use polybot::domain::{
    Opportunity, OutcomeSide, PaperPortfolio, PaperPosition, RecommendationClass,
    ResearchOpportunity, ScanSummary, SourceFamily, SourceHealth, Sport,
};
use polybot::error::Error;
use polybot::time::{parse_rfc3339, Timestamp};
use polybot::tui::data::{poll_seconds, EdgeStats, GateGap};
use polybot::tui::feed::EngineStatus;
use polybot::tui::log::{short_target, LogBuffer, LogLevel, LogLine};
use polybot::tui::views::{
    candidates_piece, class_label, closed_height, coverage, log_window, news_piece, position_name,
    position_standing, reach_piece, scan_panel, settings_lines, source_columns, sport_label,
    status_line, tab_piece, viewport, Piece,
};
use polybot::tui::widgets::{age, clock, countdown, duration_label, fit, millis_label, Tone};
use polybot::tui::{
    candidate_rows, class_rank, next_sport_filter, paper_notice, App, Key, Notice, Outcome, SortKey,
    Tab,
};

const NOW: i64 = 1_760_000_000;

fn at(seconds: i64) -> Timestamp {
    Timestamp::from_seconds(seconds).unwrap()
}

fn row(id: u128, class: RecommendationClass, sport: Sport, net: &str, families: usize) -> ResearchOpportunity {
    ResearchOpportunity {
        opportunity: Opportunity {
            id,
            generated_at: at(NOW),
            class,
            sport,
            event_id: "event".into(),
            market_id: format!("market-{}", id / 2),
            market_slug: "slug".into(),
            participant: format!("Team {id}"),
            side: OutcomeSide::Long,
            fair_probability: Decimal::zero(),
            conservative_probability: Decimal::zero(),
            executable_price: Decimal::new(50, 2),
            maker_price: None,
            maker_net_edge: None,
            raw_edge: parse_decimal(net).unwrap(),
            net_edge: parse_decimal(net).unwrap(),
            quantity: Decimal::zero(),
            maximum_loss: Decimal::zero(),
            estimated_fee: Decimal::zero(),
            family_count: families,
            source_ids: vec!["espn".into(), "kalshi".into()],
            start_time: at(NOW),
            book_time: at(NOW),
            reasons: Vec::new(),
        },
        effective_class: class,
        news: None,
    }
}

fn rows() -> Vec<ResearchOpportunity> {
    vec![
        row(2, RecommendationClass::Rejected, Sport::Nfl, "0.09", 1),
        row(3, RecommendationClass::Actionable, Sport::Mlb, "0.03", 5),
        row(4, RecommendationClass::Watchlist, Sport::Nfl, "0.05", 3),
        row(6, RecommendationClass::Rejected, Sport::Tennis, "-0.01", 2),
    ]
}

fn book() -> PaperPortfolio {
    let mut portfolio = PaperPortfolio::new(Decimal::one_hundred());
    portfolio
        .open_positions
        .push(PaperPosition::from_opportunity(&rows()[1].opportunity, at(NOW)));
    portfolio
}

fn press(app: &mut App, key: Key) -> Outcome {
    app.handle_key(key, false, &rows(), &book(), 7, true, &Settings::default())
}

fn text(pieces: &[Piece]) -> String {
    pieces.iter().map(|piece| piece.text.as_str()).collect()
}

fn ids(rows: &[&ResearchOpportunity]) -> Vec<u128> {
    rows.iter().map(|row| row.opportunity.id).collect()
}

fn summary() -> ScanSummary {
    ScanSummary {
        scan_id: 9,
        started_at: at(NOW),
        completed_at: at(NOW + 3),
        market_count: 4,
        quote_count: 30,
        evaluated_count: 8,
        candidate_count: 2,
        source_health: Vec::new(),
    }
}

#[test]
fn fit_truncates_with_ellipsis() {
    assert_eq!(fit("Baltimore Ravens", 9), "Baltimor…");
    assert_eq!(fit("short", 9), "short");
    assert_eq!(fit("anything", 0), "");
}

#[test]
fn durations_are_compact() {
    assert_eq!(duration_label(42), "42s");
    assert_eq!(duration_label(125), "2m05s");
    assert_eq!(duration_label(4320), "1h12m");
    assert_eq!(millis_label(443), "443ms");
    assert_eq!(millis_label(3283), "3.28s");
}

#[test]
fn milliseconds_print_as_a_double_would() {
    for millis in (1000..40_000).chain([999_995, 8_125, 4_503_599_627_370_496_125, u64::MAX]) {
        assert_eq!(
            millis_label(millis),
            format!("{:.2}s", millis as f64 / 1000.0),
            "{millis}"
        );
    }
}

#[test]
fn ages_and_countdowns_are_compact() {
    assert_eq!(age(None, at(NOW)), "-");
    assert_eq!(age(Some(at(NOW - 4)), at(NOW)), "4s");
    assert_eq!(age(Some(at(NOW + 4)), at(NOW)), "0s");
    assert_eq!(countdown(None, at(NOW)), "-");
    assert_eq!(countdown(Some(at(NOW)), at(NOW)), "due");
    assert_eq!(countdown(Some(at(NOW + 250)), at(NOW)), "in 4m10s");
    assert_eq!(clock(parse_rfc3339("2026-01-02T03:04:05.9Z").unwrap()), "03:04:05");
    assert_eq!(clock(parse_rfc3339("1969-12-31T23:59:59Z").unwrap()), "23:59:59");
    assert_eq!(duration_label(-5), "0s");
}

#[test]
fn tones_follow_class_and_effect() {
    assert_eq!(Tone::for_class(RecommendationClass::Actionable), Tone::Good);
    assert_eq!(Tone::for_effect("reject"), Tone::Bad);
    assert_eq!(Tone::for_effect("other"), Tone::Neutral);
}

#[test]
fn tabs_go_round_and_have_their_keys() {
    let mut app = App::new();
    for _ in 0..5 {
        assert_eq!(press(&mut app, Key::Tab), Outcome::Redraw);
    }
    assert_eq!(app.view, Tab::Overview);
    press(&mut app, Key::BackTab);
    assert_eq!(app.view, Tab::System);
    press(&mut app, Key::Char('2'));
    assert_eq!(app.view, Tab::Markets);
    assert_eq!(press(&mut app, Key::Char('6')), Outcome::Ignored);
    for tab in Tab::all() {
        assert_eq!(tab.next().previous(), tab);
    }
    assert_eq!(tab_piece(Tab::Markets, Tab::Markets).text, "[2 Markets]");
    assert_eq!(tab_piece(Tab::System, Tab::Markets).text, " 5 System ");
}

#[test]
fn markets_are_filtered_and_sorted() {
    let all = rows();
    let mut app = App::new();
    assert_eq!(ids(&app.market_rows(&all)), vec![2, 4, 3, 6]);
    app.sort = SortKey::Families;
    assert_eq!(ids(&app.market_rows(&all)), vec![3, 4, 6, 2]);
    app.sort = SortKey::Class;
    assert_eq!(ids(&app.market_rows(&all)), vec![3, 4, 2, 6]);
    app.sort = SortKey::Sport;
    assert_eq!(ids(&app.market_rows(&all)), vec![3, 2, 4, 6]);
    app.sport_filter = Some(Sport::Nfl);
    assert_eq!(ids(&app.market_rows(&all)), vec![2, 4]);
    assert_eq!(ids(&candidate_rows(&all, &Settings::default())), vec![3, 4, 2, 6]);
    assert_eq!(class_rank(RecommendationClass::Rejected), 2);
}

#[test]
fn overview_ranks_by_closeness_to_the_gates() {
    let mut far = row(1, RecommendationClass::Rejected, Sport::Nfl, "-0.15", 8);
    far.opportunity.raw_edge = parse_decimal("-0.10").unwrap();
    far.opportunity.executable_price = Decimal::new(80, 2);
    let mut near = row(2, RecommendationClass::Rejected, Sport::Nfl, "0.03", 3);
    near.opportunity.raw_edge = parse_decimal("0.049").unwrap();
    let rows = vec![far, near];
    assert_eq!(ids(&candidate_rows(&rows, &Settings::default())), vec![2, 1]);
    let mut app = App::new();
    let outcome =
        app.handle_key(Key::Char('o'), false, &rows, &book(), 0, false, &Settings::default());
    assert_eq!(outcome, Outcome::OpenPaper(2));
}

#[test]
fn filters_and_sort_keys_come_round() {
    let mut filter = None;
    for _ in 0..6 {
        filter = next_sport_filter(filter);
    }
    assert_eq!(filter, None);
    let mut app = App::new();
    app.view = Tab::Markets;
    app.markets_cursor = 2;
    assert_eq!(press(&mut app, Key::Char('s')), Outcome::Redraw);
    assert_eq!(app.sort, SortKey::RawEdge);
    assert_eq!(app.markets_cursor, 0);
    press(&mut app, Key::Char('f'));
    assert_eq!(app.sport_filter, Some(Sport::Nfl));
    app.view = Tab::Sources;
    assert_eq!(press(&mut app, Key::Char('s')), Outcome::Ignored);
}

#[test]
fn cursors_stay_on_their_rows() {
    let mut app = App::new();
    app.view = Tab::Markets;
    press(&mut app, Key::Up);
    assert_eq!(app.markets_cursor, 0);
    press(&mut app, Key::PageDown);
    assert_eq!(app.markets_cursor, 3);
    press(&mut app, Key::Char('k'));
    assert_eq!(app.markets_cursor, 2);
    press(&mut app, Key::Home);
    assert_eq!(app.markets_cursor, 0);
    app.view = Tab::System;
    press(&mut app, Key::Char('G'));
    assert_eq!(app.log_scroll, 6);
    assert_eq!(app.markets_cursor, 0);
}

#[test]
fn keys_lead_to_paper_orders_scans_and_the_exit() {
    let mut app = App::new();
    assert_eq!(press(&mut app, Key::Char('o')), Outcome::OpenPaper(3));
    app.view = Tab::Markets;
    assert_eq!(press(&mut app, Key::Char('o')), Outcome::OpenPaper(2));
    app.view = Tab::Portfolio;
    assert_eq!(press(&mut app, Key::Char('c')), Outcome::ClosePaper(3));
    app.portfolio_cursor = 1;
    assert_eq!(press(&mut app, Key::Char('c')), Outcome::Ignored);
    assert_eq!(press(&mut app, Key::Char('r')), Outcome::RequestScan);
    assert_eq!(
        app.handle_key(Key::Char('r'), false, &rows(), &book(), 0, false, &Settings::default()),
        Outcome::ReloadStore
    );
    assert_eq!(press(&mut app, Key::Char('q')), Outcome::Quit { stop_engine: true });
    assert_eq!(
        app.handle_key(Key::Char('c'), true, &rows(), &book(), 0, false, &Settings::default()),
        Outcome::Quit { stop_engine: false }
    );
    app.view = Tab::Markets;
    assert!(app.show_detail);
    press(&mut app, Key::Enter);
    assert!(!app.show_detail);
    assert_eq!(press(&mut app, Key::Other), Outcome::Ignored);
}

#[test]
fn notices_go_away_and_name_the_exposure() {
    let notice = Notice {
        at: at(NOW),
        text: "hello".into(),
        tone: Tone::Accent,
    };
    assert!(!notice.expired(at(NOW + 8)));
    assert!(notice.expired(at(NOW + 9)));
    let mut portfolio = book();
    portfolio.open_exposure = Decimal::new(250, 2);
    assert_eq!(
        paper_notice(true, &Ok(portfolio)),
        ("paper position opened; exposure 2.50".to_string(), Tone::Good)
    );
    assert_eq!(
        paper_notice(false, &Err(Error::Storage("gone".into()))),
        ("storage error: gone".to_string(), Tone::Bad)
    );
}

#[test]
fn rows_are_counted_by_class_family_and_sport() {
    let stats = EdgeStats::from_rows(&rows());
    assert_eq!(stats.evaluated, 4);
    assert_eq!((stats.actionable, stats.watchlist, stats.rejected), (1, 1, 2));
    assert_eq!(stats.by_families, [1, 1, 2]);
    assert_eq!(
        stats.by_sport,
        vec![(Sport::Mlb, 1), (Sport::Nfl, 2), (Sport::Tennis, 1)]
    );
    assert_eq!(stats.quorum.len(), 2);
    assert_eq!(stats.quorum[0].0, parse_decimal("0.03").unwrap());
    assert_eq!(EdgeStats::none().evaluated, 0);
}

#[test]
fn gaps_name_what_is_missing() {
    let settings = Settings {
        minimum_raw_edge: Decimal::new(5, 2),
        minimum_net_edge: Decimal::new(2, 2),
        watchlist_source_families: 3,
        minimum_price: Decimal::new(60, 2),
        maximum_price: Decimal::new(90, 2),
        ..Settings::default()
    };
    let gap = GateGap::of(&row(1, RecommendationClass::Rejected, Sport::Nfl, "0.01", 1), &settings).unwrap();
    assert!(gap.price);
    assert_eq!(gap.families, 2);
    assert_eq!(gap.edge, Decimal::new(4, 2));
    assert_eq!(gap.failures(), 3);
    assert_eq!(gap.label("4.0"), "edge +4.0pp · fam +2 · price");
    let relaxed = Settings {
        minimum_price: Decimal::new(10, 2),
        ..settings
    };
    let none = GateGap::of(&row(1, RecommendationClass::Watchlist, Sport::Nfl, "0.20", 4), &relaxed).unwrap();
    assert_eq!(none.failures(), 0);
    assert_eq!(none.label("0.0"), "-");
    assert_eq!(poll_seconds(RunMode::Local), 2);
    assert_eq!(poll_seconds(RunMode::Cloud), 10);
}

#[test]
fn the_log_keeps_its_newest_lines() {
    let mut log = LogBuffer::new(2);
    assert!(log.is_empty());
    for n in 0..3 {
        log.push(LogLine {
            at: at(NOW),
            level: LogLevel::Info,
            target: "t".into(),
            message: n.to_string(),
        });
    }
    assert_eq!(log.len(), 2);
    let lines: Vec<String> = log.snapshot().into_iter().map(|line| line.message).collect();
    assert_eq!(lines, vec!["1", "2"]);
    let mut least = LogBuffer::new(0);
    least.push(LogLine {
        at: at(NOW),
        level: LogLevel::Warn,
        target: "t".into(),
        message: "only".into(),
    });
    assert_eq!(least.len(), 1);
    assert_eq!(short_target("polybot::tui::log"), "log");
    assert_eq!(short_target("polybot"), "polybot");
    assert_eq!(short_target("a:::b"), "b");
    assert_eq!(log_window(10, 2, 5, usize::MAX), (3, 8));
    assert_eq!(log_window(10, 20, 5, 6), (0, 0));
    assert_eq!(log_window(3, 0, 0, 6), (2, 3));
}

#[test]
fn the_status_line_tells_phase_scan_and_trouble() {
    let engine = Some(
        EngineStatus::new(vec!["espn".into()], None, at(NOW))
            .begin_scan(at(NOW), 300)
            .unwrap()
            .finish_scan(summary(), 3000),
    );
    let line = status_line(
        RunMode::Local,
        false,
        &engine,
        &None,
        &None,
        &Some("disk full".into()),
        at(NOW + 10),
    );
    assert_eq!(
        text(&line),
        " polybot · LOCAL · IDLE   last scan 7s · took 3.00s · 4 markets · 30 quotes · 8 evaluated · 2 candidates · next in 4m50s   error: disk full"
    );
    let attached = status_line(RunMode::Cloud, true, &None, &None, &None, &None, at(NOW));
    assert_eq!(text(&attached), " polybot · CLOUD · ATTACHED   last scan -");
}

#[test]
fn the_scan_panel_tells_the_last_scan() {
    let lines = scan_panel(&None, &Some(summary()), 300, at(NOW), at(NOW + 10));
    let texts: Vec<String> = lines.iter().map(|line| text(line)).collect();
    assert_eq!(texts.len(), 5);
    assert!(texts[0].ends_with("(7s ago)"), "{}", texts[0]);
    assert_eq!(texts[1], "duration  3.00s");
    assert_eq!(texts[4], "store     polled 10s ago");
    let engine = Some(EngineStatus::new(vec!["espn".into()], Some("keyword".into()), at(NOW)));
    let lines = scan_panel(&engine, &None, 300, at(NOW), at(NOW + 10));
    let texts: Vec<String> = lines.iter().map(|line| text(line)).collect();
    assert_eq!(
        texts,
        vec![
            "no scan recorded yet",
            "scans     0 ok · 0 failed",
            "interval  5m00s · next -",
            "news      keyword · no pass yet",
        ]
    );
}

#[test]
fn sources_show_their_reach() {
    let health = |reachable: bool| SourceHealth {
        source_id: "espn".into(),
        family: SourceFamily::DraftKings,
        checked_at: at(NOW),
        reachable,
        odds_found: 12,
        latency_ms: 80,
        message: "ok".into(),
    };
    let mixed = vec![health(true), health(false)];
    assert_eq!(reach_piece(&mixed).text, "1/2 reachable");
    assert_eq!(reach_piece(&mixed).tone, Tone::Warn);
    assert_eq!(reach_piece(&vec![]).tone, Tone::Muted);
    assert_eq!(text(&source_columns(&mixed[0])), "●espn1280msok");
}

#[test]
fn coverage_counts_each_market_once() {
    let table = coverage(&rows());
    assert_eq!(table.len(), 2);
    assert_eq!(table[0].source, "espn");
    // Rows 2 and 3 are of one market, which its first row files under football.
    assert_eq!(table[0].counts, [2, 0, 0, 0, 1]);
    assert_eq!(table[0].total, 3);
    assert_eq!(table[1].source, "kalshi");
}

#[test]
fn tables_keep_the_cursor_in_sight() {
    assert_eq!(viewport(None, 10), (0, 9));
    assert_eq!(viewport(Some(8), 10), (0, 9));
    assert_eq!(viewport(Some(9), 10), (1, 9));
    assert_eq!(viewport(Some(4), 0), (4, 1));
    assert_eq!(closed_height(0), 0);
    assert_eq!(closed_height(3), 5);
    assert_eq!(closed_height(100), 10);
}

#[test]
fn positions_show_how_they_stand() {
    let all = rows();
    let portfolio = book();
    let position = &portfolio.open_positions[0];
    let (name, standing) = position_standing(position, &all);
    assert_eq!(name, "Team 3");
    assert_eq!(standing.text, "ACTIONABLE");
    let (name, standing) = position_standing(position, &vec![]);
    assert_eq!(name, "slug");
    assert_eq!(standing.text, "not in latest scan");
    let mut bare = position.clone();
    bare.market_slug = String::new();
    assert_eq!(position_name(&bare), "market-1");
    assert_eq!(class_label(RecommendationClass::Rejected), "rejected");
    assert_eq!(sport_label(Sport::Wnba), "WNBA");
    assert_eq!(news_piece(&all[0]).text, "-");
    assert_eq!(news_piece(&all[1]).text, "pending");
}

#[test]
fn headings_tell_the_gates() {
    let settings = Settings::default();
    assert_eq!(candidates_piece(&rows(), &settings).text, "2 live");
    let none = candidates_piece(&vec![], &settings).text;
    assert!(none.starts_with("none live · nearest the gates first (raw ≥ "), "{none}");
    let lines = settings_lines(&settings);
    assert_eq!(lines.len(), 4);
    assert!(text(&lines[0]).starts_with("edge gates raw ≥ "));
    assert!(text(&lines[3]).contains("concurrency"));
}
