//! What each view shows, piece by piece. Laying the pieces out on a screen is
//! left to the program.

use vstd::prelude::*;

use crate::config::{Policy, RunMode, Settings};
use crate::domain::{
    all_sports, research_opportunity_views, scan_summary_view, source_health_views, Health,
    PaperPosition, Position, RecommendationClass, Research, ResearchOpportunity, Row, ScanSummary,
    ScanTotals, SourceHealth, Sport,
};
use crate::records::is_empty;
use crate::seqs::{filter_next, group_seqs, sorted, take_next};
use crate::text::{
    ascii_uppered, by_text, concat2, concat3, concat4, concat5, concat6, copy_text, digits, natural,
    owned, push_char, same, sort_texts, text_of, texts, upper,
};
use crate::time::{trunc_div, Timestamp};
use crate::tui::feed::{EngineStatus, Phase, Stage, Status};
use crate::tui::widgets::{
    age, age_text, clock, clock_text, countdown, countdown_text, duration_label, duration_text, fit,
    fitted, millis_label, millis_text, Tone,
};
use crate::tui::{Notice, Tab};

verus! {

broadcast use group_seqs;

/// A text and how it is shown.
#[derive(Debug)]
pub struct Piece {
    pub text: String,
    pub tone: Tone,
    pub bold: bool,
}

/// A piece as mathematics.
pub struct Bit {
    pub text: Seq<char>,
    pub tone: Tone,
    pub bold: bool,
}

impl View for Piece {
    type V = Bit;

    open spec fn view(&self) -> Bit {
        Bit { text: self.text@, tone: self.tone, bold: self.bold }
    }
}

pub open spec fn bits(pieces: Seq<Piece>) -> Seq<Bit> {
    pieces.map_values(|p: Piece| p@)
}

/// A text as it is.
pub open spec fn plain_bit(text: Seq<char>) -> Bit {
    Bit { text, tone: Tone::Neutral, bold: false }
}

/// A text in the background.
pub open spec fn muted_bit(text: Seq<char>) -> Bit {
    Bit { text, tone: Tone::Muted, bold: false }
}

/// What names the value behind it.
pub open spec fn label_bit(text: Seq<char>) -> Bit {
    muted_bit(text + " "@)
}

/// What stands between two values.
pub open spec fn sep_bit() -> Bit {
    muted_bit(" \u{b7} "@)
}

/// A text that stands out.
pub open spec fn badge_bit(text: Seq<char>, tone: Tone) -> Bit {
    Bit { text, tone, bold: true }
}

fn plain(text: String) -> (result: Piece)
    ensures
        result@ == plain_bit(text@),
{
    Piece { text, tone: Tone::Neutral, bold: false }
}

fn muted(text: String) -> (result: Piece)
    ensures
        result@ == muted_bit(text@),
{
    Piece { text, tone: Tone::Muted, bold: false }
}

fn label(text: &str) -> (result: Piece)
    ensures
        result@ == label_bit(text@),
{
    muted(concat2(text, " "))
}

fn sep() -> (result: Piece)
    ensures
        result@ == sep_bit(),
{
    muted(owned(" \u{b7} "))
}

fn badge(text: String, tone: Tone) -> (result: Piece)
    ensures
        result@ == badge_bit(text@, tone),
{
    Piece { text, tone, bold: true }
}

fn counted(n: usize) -> (result: String)
    ensures
        result@ == digits(n as nat),
{
    natural(n as u128)
}

fn extended(front: Vec<Piece>, back: Vec<Piece>) -> (result: Vec<Piece>)
    ensures
        bits(result@) == bits(front@) + bits(back@),
{
    let mut out = front;
    let mut rest = back;
    out.append(&mut rest);
    assert(bits(out@) =~= bits(front@) + bits(back@));
    out
}

/// The scan that the views show: the engine's last one, or else the stored one.
pub open spec fn scan_shown(engine: Option<Status>, stored: Option<ScanTotals>) -> Option<ScanTotals> {
    match engine {
        Some(Status { last_scan: Some(scan), .. }) => Some(scan),
        _ => stored,
    }
}

pub open spec fn status_view(engine: Option<EngineStatus>) -> Option<Status> {
    match engine {
        Some(status) => Some(status@),
        None => None,
    }
}

/// The scan that the views show.
pub fn shown_scan<'a>(engine: &'a Option<EngineStatus>, stored: &'a Option<ScanSummary>) -> (result:
    Option<&'a ScanSummary>)
    ensures
        match result {
            Some(scan) => scan_shown(status_view(*engine), scan_summary_view(*stored)) == Some(
                scan@,
            ),
            None => scan_shown(status_view(*engine), scan_summary_view(*stored)) is None,
        },
{
    if let Some(status) = engine {
        if let Some(scan) = &status.last_scan {
            return Some(scan);
        }
    }
    match stored {
        Some(scan) => Some(scan),
        None => None,
    }
}

/// How long a scan took, in whole milliseconds.
pub open spec fn scan_millis(scan: ScanTotals) -> int {
    let millis = trunc_div(scan.completed_at - scan.started_at, 1_000_000);
    if millis < 0 {
        0
    } else {
        millis
    }
}

fn scan_duration(scan: &ScanSummary) -> (result: u64)
    ensures
        result == scan_millis(scan@),
{
    let millis: i128 = crate::time::truncated(
        scan.completed_at.nanos() - scan.started_at.nanos(),
        1_000_000,
    );
    if millis < 0 {
        0
    } else {
        millis as u64
    }
}

/// The badge of a phase.
pub open spec fn phase_bit(phase: Stage, now: int) -> Bit {
    match phase {
        Stage::Starting => badge_bit("STARTING"@, Tone::Warn),
        Stage::Idle => badge_bit("IDLE"@, Tone::Good),
        Stage::Scanning { since } => badge_bit("SCANNING "@ + age_text(Some(since), now), Tone::Accent),
        Stage::Reviewing => badge_bit("REVIEWING"@, Tone::Accent),
        Stage::ShuttingDown => badge_bit("SHUTDOWN"@, Tone::Bad),
    }
}

fn phase_piece(phase: Phase, now: Timestamp) -> (result: Piece)
    ensures
        result@ == phase_bit(phase@, now@),
{
    match phase {
        Phase::Starting => badge(owned("STARTING"), Tone::Warn),
        Phase::Idle => badge(owned("IDLE"), Tone::Good),
        Phase::Scanning { since } => {
            let text: String = age(Some(since), now);
            badge(concat2("SCANNING ", text.as_str()), Tone::Accent)
        },
        Phase::Reviewing => badge(owned("REVIEWING"), Tone::Accent),
        Phase::ShuttingDown => badge(owned("SHUTDOWN"), Tone::Bad),
    }
}

/// The run mode in capitals.
pub open spec fn mode_text(mode: RunMode) -> Seq<char> {
    match mode {
        RunMode::Local => "LOCAL"@,
        RunMode::Cloud => "CLOUD"@,
    }
}

/// The start of the status line: the name, the run mode, and the engine's phase
/// or that there is none.
pub open spec fn status_front(mode: RunMode, attached: bool, engine: Option<Status>, now: int) -> Seq<Bit> {
    seq![
        plain_bit(" "@),
        badge_bit("polybot"@, Tone::Neutral),
        sep_bit(),
        badge_bit(mode_text(mode), Tone::Accent),
        sep_bit(),
    ] + if attached {
        seq![badge_bit("ATTACHED"@, Tone::Muted)]
    } else {
        match engine {
            Some(status) => seq![phase_bit(status.phase, now)],
            None => Seq::empty(),
        }
    }
}

fn front_pieces(mode: RunMode, attached: bool, engine: &Option<EngineStatus>, now: Timestamp) -> (result:
    Vec<Piece>)
    ensures
        bits(result@) == status_front(mode, attached, status_view(*engine), now@),
{
    let name: &str = match mode {
        RunMode::Local => "LOCAL",
        RunMode::Cloud => "CLOUD",
    };
    let mut out: Vec<Piece> = vec![
        plain(owned(" ")),
        badge(owned("polybot"), Tone::Neutral),
        sep(),
        badge(owned(name), Tone::Accent),
        sep(),
    ];
    if attached {
        out.push(badge(owned("ATTACHED"), Tone::Muted));
    } else if let Some(status) = engine {
        out.push(phase_piece(status.phase, now));
    }
    assert(bits(out@) =~= status_front(mode, attached, status_view(*engine), now@));
    out
}

/// The tone of a count of candidates.
pub open spec fn candidate_tone(n: nat) -> Tone {
    if n > 0 {
        Tone::Good
    } else {
        Tone::Neutral
    }
}

/// What the status line says of the last scan.
pub open spec fn status_scan(scan: Option<ScanTotals>, now: int) -> Seq<Bit> {
    seq![
        plain_bit("   "@),
        label_bit("last scan"@),
        plain_bit(
            age_text(
                match scan {
                    Some(s) => Some(s.completed_at),
                    None => None,
                },
                now,
            ),
        ),
    ] + match scan {
        Some(s) => seq![
            sep_bit(),
            label_bit("took"@),
            plain_bit(millis_text(scan_millis(s))),
            sep_bit(),
            plain_bit(
                digits(s.market_count) + " markets \u{b7} "@ + digits(s.quote_count)
                    + " quotes \u{b7} "@ + digits(s.evaluated_count) + " evaluated \u{b7} "@,
            ),
            badge_bit(digits(s.candidate_count) + " candidates"@, candidate_tone(s.candidate_count)),
        ],
        None => Seq::empty(),
    }
}

fn scan_pieces(scan: Option<&ScanSummary>, now: Timestamp) -> (result: Vec<Piece>)
    ensures
        bits(result@) == status_scan(
            match scan {
                Some(s) => Some(s@),
                None => None,
            },
            now@,
        ),
{
    let since: Option<Timestamp> = match scan {
        Some(s) => Some(s.completed_at),
        None => None,
    };
    let mut out: Vec<Piece> = vec![plain(owned("   ")), label("last scan"), plain(age(since, now))];
    if let Some(s) = scan {
        let markets: String = counted(s.market_count);
        let quotes: String = counted(s.quote_count);
        let evaluated: String = counted(s.evaluated_count);
        let candidates: String = counted(s.candidate_count);
        out.push(sep());
        out.push(label("took"));
        out.push(plain(millis_label(scan_duration(s))));
        out.push(sep());
        let counts: String = concat6(
            markets.as_str(),
            " markets \u{b7} ",
            quotes.as_str(),
            " quotes \u{b7} ",
            evaluated.as_str(),
            " evaluated \u{b7} ",
        );
        out.push(plain(counts));
        let tone: Tone = if s.candidate_count > 0 {
            Tone::Good
        } else {
            Tone::Neutral
        };
        out.push(badge(concat2(candidates.as_str(), " candidates"), tone));
    }
    assert(bits(out@) =~= status_scan(
        match scan {
            Some(s) => Some(s@),
            None => None,
        },
        now@,
    ));
    out
}

/// What went wrong, if no notice hides it: with the store, or else with the
/// engine.
pub open spec fn error_shown(store_error: Option<Seq<char>>, engine: Option<Status>) -> Option<Seq<char>> {
    match store_error {
        Some(message) => Some(message),
        None => match engine {
            Some(status) => status.last_error,
            None => None,
        },
    }
}

/// The end of the status line: when the next scan is due, and a notice or an
/// error.
pub open spec fn status_end(
    engine: Option<Status>,
    notice: Option<(Seq<char>, Tone)>,
    store_error: Option<Seq<char>>,
    now: int,
) -> Seq<Bit> {
    (match engine {
        Some(status) => seq![
            sep_bit(),
            label_bit("next"@),
            plain_bit(countdown_text(status.next_scan_at, now)),
        ],
        None => Seq::empty(),
    }) + match notice {
        Some((text, tone)) => seq![plain_bit("   "@), badge_bit(text, tone)],
        None => match error_shown(store_error, engine) {
            Some(error) => seq![
                plain_bit("   "@),
                Bit { text: "error: "@ + fitted(error, 60), tone: Tone::Bad, bold: false },
            ],
            None => Seq::empty(),
        },
    }
}

pub open spec fn notice_view(notice: Option<Notice>) -> Option<(Seq<char>, Tone)> {
    match notice {
        Some(n) => Some((n.text@, n.tone)),
        None => None,
    }
}

fn end_pieces(
    engine: &Option<EngineStatus>,
    notice: &Option<Notice>,
    store_error: &Option<String>,
    now: Timestamp,
) -> (result: Vec<Piece>)
    ensures
        bits(result@) == status_end(
            status_view(*engine),
            notice_view(*notice),
            text_of(*store_error),
            now@,
        ),
{
    let mut out: Vec<Piece> = Vec::new();
    if let Some(status) = engine {
        out.push(sep());
        out.push(label("next"));
        out.push(plain(countdown(status.next_scan_at, now)));
    }
    match notice {
        Some(n) => {
            out.push(plain(owned("   ")));
            out.push(badge(n.text.clone(), n.tone));
        },
        None => {
            let error: Option<String> = match store_error {
                Some(message) => Some(message.clone()),
                None => match engine {
                    Some(status) => copy_text(&status.last_error),
                    None => None,
                },
            };
            if let Some(message) = error {
                let short: String = fit(message.as_str(), 60);
                out.push(plain(owned("   ")));
                out.push(
                    Piece {
                        text: concat2("error: ", short.as_str()),
                        tone: Tone::Bad,
                        bold: false,
                    },
                );
            }
        },
    }
    assert(bits(out@) =~= status_end(
        status_view(*engine),
        notice_view(*notice),
        text_of(*store_error),
        now@,
    ));
    out
}

/// The status line.
pub open spec fn status_bits(
    mode: RunMode,
    attached: bool,
    engine: Option<Status>,
    stored: Option<ScanTotals>,
    notice: Option<(Seq<char>, Tone)>,
    store_error: Option<Seq<char>>,
    now: int,
) -> Seq<Bit> {
    status_front(mode, attached, engine, now) + status_scan(scan_shown(engine, stored), now)
        + status_end(engine, notice, store_error, now)
}

/// The status line: phase, last scan, next scan, and a notice or else an error.
pub fn status_line(
    mode: RunMode,
    attached: bool,
    engine: &Option<EngineStatus>,
    stored: &Option<ScanSummary>,
    notice: &Option<Notice>,
    store_error: &Option<String>,
    now: Timestamp,
) -> (result: Vec<Piece>)
    ensures
        bits(result@) == status_bits(
            mode,
            attached,
            status_view(*engine),
            scan_summary_view(*stored),
            notice_view(*notice),
            text_of(*store_error),
            now@,
        ),
{
    let front: Vec<Piece> = front_pieces(mode, attached, engine, now);
    let scan: Vec<Piece> = scan_pieces(shown_scan(engine, stored), now);
    let end: Vec<Piece> = end_pieces(engine, notice, store_error, now);
    extended(extended(front, scan), end)
}

/// A line of pieces.
pub open spec fn line_bits(lines: Seq<Vec<Piece>>) -> Seq<Seq<Bit>> {
    lines.map_values(|line: Vec<Piece>| bits(line@))
}

/// What the scan panel says of the last scan.
pub open spec fn scan_lines(scan: Option<ScanTotals>, now: int) -> Seq<Seq<Bit>> {
    match scan {
        Some(s) => seq![
            seq![
                label_bit("completed"@),
                plain_bit(clock_text(s.completed_at)),
                muted_bit(" ("@ + age_text(Some(s.completed_at), now) + " ago)"@),
            ],
            seq![label_bit("duration "@), plain_bit(millis_text(scan_millis(s)))],
            seq![
                label_bit("markets  "@),
                plain_bit(digits(s.market_count)),
                sep_bit(),
                label_bit("quotes"@),
                plain_bit(digits(s.quote_count)),
            ],
            seq![
                label_bit("evaluated"@),
                plain_bit(digits(s.evaluated_count)),
                sep_bit(),
                label_bit("candidates"@),
                Bit {
                    text: digits(s.candidate_count),
                    tone: candidate_tone(s.candidate_count),
                    bold: s.candidate_count > 0,
                },
            ],
        ],
        None => seq![seq![muted_bit("no scan recorded yet"@)]],
    }
}

fn panel_scan_lines(scan: Option<&ScanSummary>, now: Timestamp) -> (result: Vec<Vec<Piece>>)
    ensures
        line_bits(result@) == scan_lines(
            match scan {
                Some(s) => Some(s@),
                None => None,
            },
            now@,
        ),
{
    let mut out: Vec<Vec<Piece>> = Vec::new();
    match scan {
        Some(s) => {
            let since: String = age(Some(s.completed_at), now);
            let completed: Vec<Piece> = vec![
                label("completed"),
                plain(clock(s.completed_at)),
                muted(concat3(" (", since.as_str(), " ago)")),
            ];
            let duration: Vec<Piece> = vec![
                label("duration "),
                plain(millis_label(scan_duration(s))),
            ];
            let markets: Vec<Piece> = vec![
                label("markets  "),
                plain(counted(s.market_count)),
                sep(),
                label("quotes"),
                plain(counted(s.quote_count)),
            ];
            let tone: Tone = if s.candidate_count > 0 {
                Tone::Good
            } else {
                Tone::Neutral
            };
            let evaluated: Vec<Piece> = vec![
                label("evaluated"),
                plain(counted(s.evaluated_count)),
                sep(),
                label("candidates"),
                Piece { text: counted(s.candidate_count), tone, bold: s.candidate_count > 0 },
            ];
            proof {
                let lines = scan_lines(Some(s@), now@);
                assert(bits(completed@) =~= lines[0]);
                assert(bits(duration@) =~= lines[1]);
                assert(bits(markets@) =~= lines[2]);
                assert(bits(evaluated@) =~= lines[3]);
            }
            out.push(completed);
            out.push(duration);
            out.push(markets);
            out.push(evaluated);
            assert(line_bits(out@) =~= scan_lines(Some(s@), now@));
        },
        None => {
            let line: Vec<Piece> = vec![muted(owned("no scan recorded yet"))];
            assert(bits(line@) =~= seq![muted_bit("no scan recorded yet"@)]);
            out.push(line);
            assert(line_bits(out@) =~= scan_lines(None, now@));
        },
    }
    out
}

/// What the scan panel says of the engine, or of the store where there is none.
pub open spec fn engine_lines(engine: Option<Status>, interval: int, loaded_at: int, now: int) -> Seq<
    Seq<Bit>,
> {
    match engine {
        Some(e) => seq![
            seq![
                label_bit("scans    "@),
                plain_bit(digits(e.scans_completed as nat) + " ok"@),
                sep_bit(),
                Bit {
                    text: digits(e.scans_failed as nat) + " failed"@,
                    tone: if e.scans_failed > 0 {
                        Tone::Bad
                    } else {
                        Tone::Muted
                    },
                    bold: false,
                },
            ],
            seq![
                label_bit("interval "@),
                plain_bit(duration_text(interval)),
                sep_bit(),
                label_bit("next"@),
                plain_bit(countdown_text(e.next_scan_at, now)),
            ],
            seq![
                label_bit("news     "@),
                plain_bit(
                    match e.reviewer {
                        Some(name) => name,
                        None => "none"@,
                    },
                ),
                sep_bit(),
                plain_bit(
                    match e.last_news_pass {
                        Some((at, reviewed)) => digits(reviewed as nat) + " reviewed "@ + age_text(
                            Some(at),
                            now,
                        ) + " ago"@,
                        None => "no pass yet"@,
                    },
                ),
            ],
        ],
        None => seq![
            seq![
                label_bit("store    "@),
                plain_bit("polled "@ + age_text(Some(loaded_at), now) + " ago"@),
            ],
        ],
    }
}

/// A number of seconds as the views take it: one beyond the signed range counts
/// as negative, that is, as none.
pub open spec fn shown_seconds(seconds: int) -> int {
    if seconds <= i64::MAX {
        seconds
    } else {
        -1
    }
}

fn signed(seconds: u64) -> (result: i64)
    ensures
        duration_text(result as int) == duration_text(shown_seconds(seconds as int)),
{
    if seconds <= i64::MAX as u64 {
        seconds as i64
    } else {
        -1
    }
}

fn panel_engine_lines(
    engine: &Option<EngineStatus>,
    interval: u64,
    loaded_at: Timestamp,
    now: Timestamp,
) -> (result: Vec<Vec<Piece>>)
    ensures
        line_bits(result@) == engine_lines(
            status_view(*engine),
            shown_seconds(interval as int),
            loaded_at@,
            now@,
        ),
{
    let mut out: Vec<Vec<Piece>> = Vec::new();
    match engine {
        Some(e) => {
            let completed: String = natural(e.scans_completed as u128);
            let failed: String = natural(e.scans_failed as u128);
            let tone: Tone = if e.scans_failed > 0 {
                Tone::Bad
            } else {
                Tone::Muted
            };
            let scans: Vec<Piece> = vec![
                label("scans    "),
                plain(concat2(completed.as_str(), " ok")),
                sep(),
                Piece { text: concat2(failed.as_str(), " failed"), tone, bold: false },
            ];
            let cadence: Vec<Piece> = vec![
                label("interval "),
                plain(duration_label(signed(interval))),
                sep(),
                label("next"),
                plain(countdown(e.next_scan_at, now)),
            ];
            let reviewer: String = match &e.reviewer {
                Some(name) => name.clone(),
                None => owned("none"),
            };
            let passed: String = match e.last_news_pass {
                Some((at, reviewed)) => {
                    let n: String = counted(reviewed);
                    let since: String = age(Some(at), now);
                    concat4(n.as_str(), " reviewed ", since.as_str(), " ago")
                },
                None => owned("no pass yet"),
            };
            let news: Vec<Piece> = vec![
                label("news     "),
                plain(reviewer),
                sep(),
                plain(passed),
            ];
            proof {
                let lines = engine_lines(
                    Some(e@),
                    shown_seconds(interval as int),
                    loaded_at@,
                    now@,
                );
                assert(bits(scans@) =~= lines[0]);
                assert(bits(cadence@) =~= lines[1]);
                assert(bits(news@) =~= lines[2]);
            }
            out.push(scans);
            out.push(cadence);
            out.push(news);
            assert(line_bits(out@) =~= engine_lines(
                Some(e@),
                shown_seconds(interval as int),
                loaded_at@,
                now@,
            ));
        },
        None => {
            let since: String = age(Some(loaded_at), now);
            let line: Vec<Piece> = vec![
                label("store    "),
                plain(concat3("polled ", since.as_str(), " ago")),
            ];
            proof {
                let lines = engine_lines(None, shown_seconds(interval as int), loaded_at@, now@);
                assert(bits(line@) =~= lines[0]);
            }
            out.push(line);
            assert(line_bits(out@) =~= engine_lines(
                None,
                shown_seconds(interval as int),
                loaded_at@,
                now@,
            ));
        },
    }
    out
}

/// The scan panel: the last scan, and the engine or the store behind it.
pub fn scan_panel(
    engine: &Option<EngineStatus>,
    stored: &Option<ScanSummary>,
    scan_interval: u64,
    loaded_at: Timestamp,
    now: Timestamp,
) -> (result: Vec<Vec<Piece>>)
    ensures
        line_bits(result@) == scan_lines(
            scan_shown(status_view(*engine), scan_summary_view(*stored)),
            now@,
        ) + engine_lines(
            status_view(*engine),
            shown_seconds(scan_interval as int),
            loaded_at@,
            now@,
        ),
{
    let mut out: Vec<Vec<Piece>> = panel_scan_lines(shown_scan(engine, stored), now);
    let mut back: Vec<Vec<Piece>> = panel_engine_lines(engine, scan_interval, loaded_at, now);
    let ghost front = out@;
    let ghost behind = back@;
    out.append(&mut back);
    assert(line_bits(out@) =~= line_bits(front) + line_bits(behind));
    out
}

/// How many sources were reached.
pub open spec fn reached(health: Seq<Health>) -> nat {
    health.filter(|h: Health| h.reachable).len()
}

/// The heading of the source panel.
pub open spec fn reach_bit(health: Seq<Health>) -> Bit {
    Bit {
        text: digits(reached(health)) + "/"@ + digits(health.len()) + " reachable"@,
        tone: if health.len() == 0 {
            Tone::Muted
        } else if reached(health) == health.len() {
            Tone::Good
        } else {
            Tone::Warn
        },
        bold: false,
    }
}

/// The heading of the source panel: how many sources were reached.
pub fn reach_piece(health: &Vec<SourceHealth>) -> (result: Piece)
    ensures
        result@ == reach_bit(source_health_views(health@)),
{
    let ghost all = source_health_views(health@);
    let ghost keep = |h: Health| h.reachable;
    let mut n: usize = 0;
    let mut i: usize = 0;
    while i < health.len()
        invariant
            i <= health@.len(),
            n <= i,
            all == source_health_views(health@),
            keep == (|h: Health| h.reachable),
            n == all.take(i as int).filter(keep).len(),
        decreases health@.len() - i,
    {
        proof {
            filter_next(all, keep, i as int);
        }
        if health[i].reachable {
            n = n + 1;
        }
        i = i + 1;
    }
    let tone: Tone = if health.len() == 0 {
        Tone::Muted
    } else if n == health.len() {
        Tone::Good
    } else {
        Tone::Warn
    };
    let found: String = counted(n);
    let all_of_them: String = counted(health.len());
    Piece {
        text: concat4(found.as_str(), "/", all_of_them.as_str(), " reachable"),
        tone,
        bold: false,
    }
}

/// The columns of one source: whether it was reached, its name, its quotes, its
/// latency, and its message.
pub open spec fn source_bits(h: Health) -> Seq<Bit> {
    seq![
        if h.reachable {
            badge_bit("\u{25cf}"@, Tone::Good)
        } else {
            badge_bit("\u{25cb}"@, Tone::Bad)
        },
        plain_bit(h.source_id),
        plain_bit(digits(h.odds_found)),
        plain_bit(millis_text(h.latency_ms as int)),
        muted_bit(fitted(h.message, 28)),
    ]
}

/// The columns of one source in the source panel.
pub fn source_columns(health: &SourceHealth) -> (result: Vec<Piece>)
    ensures
        bits(result@) == source_bits(health@),
{
    let mark: Piece = if health.reachable {
        badge(owned("\u{25cf}"), Tone::Good)
    } else {
        badge(owned("\u{25cb}"), Tone::Bad)
    };
    let out: Vec<Piece> = vec![
        mark,
        plain(health.source_id.clone()),
        plain(counted(health.odds_found)),
        plain(millis_label(health.latency_ms)),
        muted(fit(health.message.as_str(), 28)),
    ];
    assert(bits(out@) =~= source_bits(health@));
    out
}

/// The tab of a view, with brackets round the one that is shown.
pub fn tab_piece(tab: Tab, selected: Tab) -> (result: Piece)
    ensures
        ({
            let text = seq![('1' as int + tab.place()) as char] + " "@ + tab.title();
            result@ == if tab == selected {
                badge_bit("["@ + text + "]"@, Tone::Warn)
            } else {
                muted_bit(" "@ + text + " "@)
            }
        }),
{
    let mut key: String = String::new();
    push_char(&mut key, tab.shortcut());
    let text: String = concat3(key.as_str(), " ", tab.label());
    proof {
        assert(key@ =~= seq![('1' as int + tab.place()) as char]);
    }
    if tab == selected {
        badge(concat3("[", text.as_str(), "]"), Tone::Warn)
    } else {
        muted(concat3(" ", text.as_str(), " "))
    }
}

/// Which rows of a table are seen: where they start, and how many there is room
/// for below the heading.
pub open spec fn window(cursor: Option<int>, height: int) -> (int, int) {
    let visible = if height <= 2 {
        1
    } else {
        height - 1
    };
    (
        match cursor {
            Some(c) if c >= visible => c + 1 - visible,
            _ => 0,
        },
        visible,
    )
}

/// Which rows of a table are seen: as little scrolling as keeps the cursor in
/// sight.
pub fn viewport(cursor: Option<usize>, height: u16) -> (result: (usize, usize))
    ensures
        (result.0 as int, result.1 as int) == window(
            match cursor {
                Some(c) => Some(c as int),
                None => None,
            },
            height as int,
        ),
{
    let visible: usize = if height <= 2 {
        1
    } else {
        height as usize - 1
    };
    let start: usize = match cursor {
        Some(c) => if c >= visible {
            c - (visible - 1)
        } else {
            0
        },
        None => 0,
    };
    (start, visible)
}

/// The cursor is always in sight.
pub proof fn the_cursor_stays_in_sight(cursor: int, height: int)
    requires
        0 <= cursor,
        0 <= height,
    ensures
        window(Some(cursor), height).0 <= cursor < window(Some(cursor), height).0 + window(
            Some(cursor),
            height,
        ).1,
{
}

/// Which log lines are seen: the newest at the bottom, `scroll` of them hidden
/// below.
pub open spec fn log_range(len: int, scroll: int, height: int) -> (int, int) {
    let room = if height < 1 {
        1
    } else {
        height
    };
    let end = if scroll >= len {
        0
    } else {
        len - scroll
    };
    (
        if end <= room {
            0
        } else {
            end - room
        },
        end,
    )
}

/// Which log lines are seen in a panel of some height that shows at most
/// `limit` lines: from the first place up to, but without, the second.
pub fn log_window(len: usize, scroll: usize, height: u16, limit: usize) -> (result: (usize, usize))
    ensures
        (result.0 as int, result.1 as int) == log_range(
            len as int,
            scroll as int,
            if (height as int) < limit {
                height as int
            } else {
                limit as int
            },
        ),
        result.0 <= result.1 <= len,
{
    let cut: usize = if (height as usize) < limit {
        height as usize
    } else {
        limit
    };
    let room: usize = if cut < 1 {
        1
    } else {
        cut
    };
    let end: usize = if scroll >= len {
        0
    } else {
        len - scroll
    };
    let start: usize = if end <= room {
        0
    } else {
        end - room
    };
    (start, end)
}

/// How many lines the closed positions take: none without any, else up to eight
/// and their headings.
pub fn closed_height(closed: usize) -> (result: u16)
    ensures
        result == if closed == 0 {
            0
        } else if closed < 8 {
            closed + 2
        } else {
            10
        },
{
    if closed == 0 {
        0
    } else if closed < 8 {
        closed as u16 + 2
    } else {
        10
    }
}

/// How a position is called: by its market's slug, or else by its id.
pub open spec fn name_of(position: Position) -> Seq<char> {
    if position.market_slug.len() == 0 {
        position.market_id
    } else {
        position.market_slug
    }
}

/// The market's slug where the position recorded one, else the market's id.
pub fn position_name(position: &PaperPosition) -> (result: String)
    ensures
        result@ == name_of(position@),
{
    if is_empty(position.market_slug.as_str()) {
        position.market_id.clone()
    } else {
        position.market_slug.clone()
    }
}

/// The place of the row that a position came from, from `from` on.
pub open spec fn row_at(rows: Seq<Research>, id: int, from: int) -> Option<int>
    decreases rows.len() - from,
{
    if from < 0 || from >= rows.len() {
        None
    } else if rows[from].opportunity.id == id {
        Some(from)
    } else {
        row_at(rows, id, from + 1)
    }
}

/// Who a position backs and how its opportunity stands now.
pub open spec fn standing(position: Position, rows: Seq<Research>) -> (Seq<char>, Bit) {
    match row_at(rows, position.opportunity_id, 0) {
        Some(at) => (
            rows[at].opportunity.participant,
            badge_bit(class_text(rows[at].effective_class), class_tone(rows[at].effective_class)),
        ),
        None => (name_of(position), muted_bit("not in latest scan"@)),
    }
}

/// Who a position backs and how its opportunity stands now.
pub fn position_standing(position: &PaperPosition, rows: &Vec<ResearchOpportunity>) -> (result: (
    String,
    Piece,
))
    ensures
        (result.0@, result.1@) == standing(position@, research_opportunity_views(rows@)),
{
    let ghost all = research_opportunity_views(rows@);
    let id: u128 = position.opportunity_id;
    let mut i: usize = 0;
    while i < rows.len()
        invariant
            i <= rows@.len(),
            all == research_opportunity_views(rows@),
            id == position.opportunity_id,
            row_at(all, id as int, 0) == row_at(all, id as int, i as int),
        decreases rows@.len() - i,
    {
        if rows[i].opportunity.id == id {
            let class: RecommendationClass = rows[i].effective_class;
            return (
                rows[i].opportunity.participant.clone(),
                badge(owned(class_label(class)), Tone::for_class(class)),
            );
        }
        i = i + 1;
    }
    (position_name(position), muted(owned("not in latest scan")))
}

/// A class as the tables show it.
pub open spec fn class_text(class: RecommendationClass) -> Seq<char> {
    match class {
        RecommendationClass::Actionable => "ACTIONABLE"@,
        RecommendationClass::Watchlist => "WATCHLIST"@,
        RecommendationClass::Rejected => "rejected"@,
    }
}

pub open spec fn class_tone(class: RecommendationClass) -> Tone {
    match class {
        RecommendationClass::Actionable => Tone::Good,
        RecommendationClass::Watchlist => Tone::Warn,
        RecommendationClass::Rejected => Tone::Muted,
    }
}

/// A class as the tables show it.
pub fn class_label(class: RecommendationClass) -> (result: &'static str)
    ensures
        result@ == class_text(class),
{
    match class {
        RecommendationClass::Actionable => "ACTIONABLE",
        RecommendationClass::Watchlist => "WATCHLIST",
        RecommendationClass::Rejected => "rejected",
    }
}

/// A sport in capitals.
pub fn sport_label(sport: Sport) -> (result: String)
    ensures
        result@ == ascii_uppered(sport.label()),
{
    upper(sport.name())
}

/// What the tables say of a row's news: its effect, or whether any is to come.
pub open spec fn news_bit(row: Research) -> Bit {
    match row.news {
        Some(news) => Bit {
            text: news.confidence_effect,
            tone: effect_tone(news.confidence_effect),
            bold: false,
        },
        None => muted_bit(
            if row.effective_class is Rejected {
                "-"@
            } else {
                "pending"@
            },
        ),
    }
}

pub open spec fn effect_tone(effect: Seq<char>) -> Tone {
    if effect == "unchanged"@ {
        Tone::Good
    } else if effect == "lower"@ || effect == "review"@ {
        Tone::Warn
    } else if effect == "reject"@ {
        Tone::Bad
    } else {
        Tone::Neutral
    }
}

/// What the tables say of a row's news.
pub fn news_piece(row: &ResearchOpportunity) -> (result: Piece)
    ensures
        result@ == news_bit(row@),
{
    match &row.news {
        Some(news) => Piece {
            text: news.confidence_effect.clone(),
            tone: Tone::for_effect(news.confidence_effect.as_str()),
            bold: false,
        },
        None => if row.effective_class == RecommendationClass::Rejected {
            muted(owned("-"))
        } else {
            muted(owned("pending"))
        },
    }
}

/// The heading of the candidates: how many are live, or what the gates ask.
pub open spec fn candidates_bit(rows: Seq<Research>, policy: Policy) -> Bit {
    let live = rows.filter(|r: Research| !(r.effective_class is Rejected)).len();
    if live > 0 {
        Bit { text: digits(live) + " live"@, tone: Tone::Good, bold: false }
    } else {
        muted_bit(
            "none live \u{b7} nearest the gates first (raw \u{2265} "@
                + policy.minimum_raw_edge.text() + ", net \u{2265} "@
                + policy.minimum_net_edge.text() + ", "@ + digits(
                policy.watchlist_source_families,
            ) + "+ families, price "@ + policy.minimum_price.text() + "\u{2013}"@
                + policy.maximum_price.text() + ") \u{b7} gap = what each row still needs"@,
        )
    }
}

/// The heading of the candidates.
pub fn candidates_piece(rows: &Vec<ResearchOpportunity>, settings: &Settings) -> (result: Piece)
    ensures
        result@ == candidates_bit(research_opportunity_views(rows@), settings@),
{
    let ghost all = research_opportunity_views(rows@);
    let ghost keep = |r: Research| !(r.effective_class is Rejected);
    let mut live: usize = 0;
    let mut i: usize = 0;
    while i < rows.len()
        invariant
            i <= rows@.len(),
            live <= i,
            all == research_opportunity_views(rows@),
            keep == (|r: Research| !(r.effective_class is Rejected)),
            live == all.take(i as int).filter(keep).len(),
        decreases rows@.len() - i,
    {
        proof {
            filter_next(all, keep, i as int);
        }
        if rows[i].effective_class != RecommendationClass::Rejected {
            live = live + 1;
        }
        i = i + 1;
    }
    if live > 0 {
        let n: String = counted(live);
        return Piece { text: concat2(n.as_str(), " live"), tone: Tone::Good, bold: false };
    }
    let raw: String = settings.minimum_raw_edge.to_text();
    let net: String = settings.minimum_net_edge.to_text();
    let families: String = counted(settings.watchlist_source_families);
    let low: String = settings.minimum_price.to_text();
    let high: String = settings.maximum_price.to_text();
    let front: String = concat6(
        "none live \u{b7} nearest the gates first (raw \u{2265} ",
        raw.as_str(),
        ", net \u{2265} ",
        net.as_str(),
        ", ",
        families.as_str(),
    );
    let back: String = concat5(
        "+ families, price ",
        low.as_str(),
        "\u{2013}",
        high.as_str(),
        ") \u{b7} gap = what each row still needs",
    );
    let text: String = concat2(front.as_str(), back.as_str());
    proof {
        assert(text@ =~= candidates_bit(all, settings@).text);
    }
    muted(text)
}

/// A source that priced a market of a sport.
pub open spec fn touches(row: Row) -> Seq<(Seq<char>, Sport)> {
    row.source_ids.map_values(|s: Seq<char>| (s, row.sport))
}

/// Whether a market has a row among these.
pub open spec fn has_market(rows: Seq<Research>, market_id: Seq<char>) -> bool {
    exists|i: int|
        0 <= i < rows.len() && (#[trigger] rows[i]).opportunity.market_id == market_id
}

/// Which sources priced which markets: each market counts once, by its first
/// row.
pub open spec fn all_touches(rows: Seq<Research>) -> Seq<(Seq<char>, Sport)>
    decreases rows.len(),
{
    if rows.len() == 0 {
        Seq::empty()
    } else {
        let front = rows.drop_last();
        if has_market(front, rows.last().opportunity.market_id) {
            all_touches(front)
        } else {
            all_touches(front) + touches(rows.last().opportunity)
        }
    }
}

/// The sources that priced anything, in the order in which they first did.
pub open spec fn touching(pairs: Seq<(Seq<char>, Sport)>) -> Seq<Seq<char>>
    decreases pairs.len(),
{
    if pairs.len() == 0 {
        Seq::empty()
    } else {
        let front = touching(pairs.drop_last());
        if front.contains(pairs.last().0) {
            front
        } else {
            front.push(pairs.last().0)
        }
    }
}

pub open spec fn touch_of(source: Seq<char>, sport: Sport) -> spec_fn((Seq<char>, Sport)) -> bool {
    |p: (Seq<char>, Sport)| p.0 == source && p.1 == sport
}

pub open spec fn touch_by(source: Seq<char>) -> spec_fn((Seq<char>, Sport)) -> bool {
    |p: (Seq<char>, Sport)| p.0 == source
}

/// How many markets of a sport a source priced.
pub open spec fn touch_count(pairs: Seq<(Seq<char>, Sport)>, source: Seq<char>, sport: Sport) -> nat {
    pairs.filter(touch_of(source, sport)).len()
}

/// How many markets a source priced.
pub open spec fn touch_total(pairs: Seq<(Seq<char>, Sport)>, source: Seq<char>) -> nat {
    pairs.filter(touch_by(source)).len()
}

/// How many markets of each sport a source priced.
#[derive(Debug)]
pub struct CoverageRow {
    pub source: String,
    /// In the order of the sports.
    pub counts: [usize; 5],
    pub total: usize,
}

impl CoverageRow {
    pub open spec fn counts_in(&self, pairs: Seq<(Seq<char>, Sport)>) -> bool {
        &&& forall|k: int|
            0 <= k < 5 ==> #[trigger] self.counts@[k] == touch_count(
                pairs,
                self.source@,
                all_sports()[k],
            )
        &&& self.total == touch_total(pairs, self.source@)
    }
}

pub open spec fn pair_views(pairs: Seq<(String, Sport)>) -> Seq<(Seq<char>, Sport)> {
    pairs.map_values(|p: (String, Sport)| (p.0@, p.1))
}

fn seen_before(rows: &Vec<ResearchOpportunity>, at: usize) -> (result: bool)
    requires
        at < rows@.len(),
    ensures
        result == has_market(
            research_opportunity_views(rows@).take(at as int),
            rows@[at as int]@.opportunity.market_id,
        ),
{
    let ghost front = research_opportunity_views(rows@).take(at as int);
    let ghost id = rows@[at as int]@.opportunity.market_id;
    let mut i: usize = 0;
    while i < at
        invariant
            i <= at < rows@.len(),
            front == research_opportunity_views(rows@).take(at as int),
            id == rows@[at as int]@.opportunity.market_id,
            forall|k: int| 0 <= k < i ==> (#[trigger] front[k]).opportunity.market_id != id,
        decreases at - i,
    {
        if same(
            rows[i].opportunity.market_id.as_str(),
            rows[at].opportunity.market_id.as_str(),
        ) {
            assert(front[i as int].opportunity.market_id == id);
            return true;
        }
        i = i + 1;
    }
    false
}

fn collect_touches(rows: &Vec<ResearchOpportunity>) -> (result: Vec<(String, Sport)>)
    ensures
        pair_views(result@) == all_touches(research_opportunity_views(rows@)),
{
    let ghost all = research_opportunity_views(rows@);
    let mut out: Vec<(String, Sport)> = Vec::new();
    let mut i: usize = 0;
    while i < rows.len()
        invariant
            i <= rows@.len(),
            all == research_opportunity_views(rows@),
            pair_views(out@) == all_touches(all.take(i as int)),
        decreases rows@.len() - i,
    {
        proof {
            take_next(all, i as int);
        }
        if !seen_before(rows, i) {
            let ghost before = pair_views(out@);
            let sources: &Vec<String> = &rows[i].opportunity.source_ids;
            let sport: Sport = rows[i].opportunity.sport;
            let ghost more = touches(all[i as int].opportunity);
            let mut j: usize = 0;
            while j < sources.len()
                invariant
                    j <= sources@.len(),
                    more == texts(sources@).map_values(|s: Seq<char>| (s, sport)),
                    pair_views(out@) == before + more.take(j as int),
                decreases sources@.len() - j,
            {
                proof {
                    take_next(more, j as int);
                    assert(more[j as int] == (sources@[j as int]@, sport));
                    assert((before + more.take(j as int)).push(more[j as int]) =~= before + more.take(
                        j + 1,
                    ));
                }
                out.push((sources[j].clone(), sport));
                j = j + 1;
            }
            proof {
                assert(before + more =~= before + more.take(j as int));
            }
        }
        i = i + 1;
    }
    out
}

fn listed(names: &Vec<String>, name: &str) -> (result: bool)
    ensures
        result == texts(names@).contains(name@),
{
    let ghost all = texts(names@);
    let mut i: usize = 0;
    while i < names.len()
        invariant
            i <= names@.len(),
            all == texts(names@),
            forall|k: int| 0 <= k < i ==> #[trigger] all[k] != name@,
        decreases names@.len() - i,
    {
        if same(names[i].as_str(), name) {
            assert(all[i as int] == name@);
            return true;
        }
        i = i + 1;
    }
    false
}

fn collect_sources(pairs: &Vec<(String, Sport)>) -> (result: Vec<String>)
    ensures
        texts(result@) == touching(pair_views(pairs@)),
{
    let ghost all = pair_views(pairs@);
    let mut out: Vec<String> = Vec::new();
    let mut i: usize = 0;
    while i < pairs.len()
        invariant
            i <= pairs@.len(),
            all == pair_views(pairs@),
            texts(out@) == touching(all.take(i as int)),
        decreases pairs@.len() - i,
    {
        proof {
            take_next(all, i as int);
        }
        if !listed(&out, pairs[i].0.as_str()) {
            out.push(pairs[i].0.clone());
        }
        i = i + 1;
    }
    out
}

fn count_touches(pairs: &Vec<(String, Sport)>, source: &str, sport: Sport) -> (result: usize)
    ensures
        result == touch_count(pair_views(pairs@), source@, sport),
{
    let ghost all = pair_views(pairs@);
    let ghost keep = touch_of(source@, sport);
    let mut n: usize = 0;
    let mut i: usize = 0;
    while i < pairs.len()
        invariant
            i <= pairs@.len(),
            n <= i,
            all == pair_views(pairs@),
            keep == touch_of(source@, sport),
            n == all.take(i as int).filter(keep).len(),
        decreases pairs@.len() - i,
    {
        proof {
            filter_next(all, keep, i as int);
        }
        if same(pairs[i].0.as_str(), source) && pairs[i].1 == sport {
            n = n + 1;
        }
        i = i + 1;
    }
    n
}

fn count_source(pairs: &Vec<(String, Sport)>, source: &str) -> (result: usize)
    ensures
        result == touch_total(pair_views(pairs@), source@),
{
    let ghost all = pair_views(pairs@);
    let ghost keep = touch_by(source@);
    let mut n: usize = 0;
    let mut i: usize = 0;
    while i < pairs.len()
        invariant
            i <= pairs@.len(),
            n <= i,
            all == pair_views(pairs@),
            keep == touch_by(source@),
            n == all.take(i as int).filter(keep).len(),
        decreases pairs@.len() - i,
    {
        proof {
            filter_next(all, keep, i as int);
        }
        if same(pairs[i].0.as_str(), source) {
            n = n + 1;
        }
        i = i + 1;
    }
    n
}

/// How many markets of each sport each source priced: one row for each source
/// that priced any, in the order of their names.
pub fn coverage(rows: &Vec<ResearchOpportunity>) -> (result: Vec<CoverageRow>)
    ensures
        ({
            let pairs = all_touches(research_opportunity_views(rows@));
            &&& result@.map_values(|r: CoverageRow| r.source@) == sorted(touching(pairs), by_text())
            &&& forall|i: int| 0 <= i < result@.len() ==> (#[trigger] result@[i]).counts_in(pairs)
        }),
{
    let pairs: Vec<(String, Sport)> = collect_touches(rows);
    let names: Vec<String> = sort_texts(collect_sources(&pairs));
    let ghost all = pair_views(pairs@);
    let mut out: Vec<CoverageRow> = Vec::new();
    let mut i: usize = 0;
    while i < names.len()
        invariant
            i <= names@.len(),
            all == pair_views(pairs@),
            out@.map_values(|r: CoverageRow| r.source@) == texts(names@).take(i as int),
            forall|k: int| 0 <= k < out@.len() ==> (#[trigger] out@[k]).counts_in(all),
        decreases names@.len() - i,
    {
        proof {
            take_next(texts(names@), i as int);
        }
        let source: String = names[i].clone();
        let counts = [
            count_touches(&pairs, source.as_str(), Sport::Nfl),
            count_touches(&pairs, source.as_str(), Sport::Nba),
            count_touches(&pairs, source.as_str(), Sport::Wnba),
            count_touches(&pairs, source.as_str(), Sport::Mlb),
            count_touches(&pairs, source.as_str(), Sport::Tennis),
        ];
        let total: usize = count_source(&pairs, source.as_str());
        out.push(CoverageRow { source, counts, total });
        i = i + 1;
    }
    out
}

/// A source's total is the sum over the sports.
pub proof fn coverage_adds_up(pairs: Seq<(Seq<char>, Sport)>, source: Seq<char>)
    ensures
        touch_total(pairs, source) == touch_count(pairs, source, Sport::Nfl) + touch_count(
            pairs,
            source,
            Sport::Nba,
        ) + touch_count(pairs, source, Sport::Wnba) + touch_count(pairs, source, Sport::Mlb)
            + touch_count(pairs, source, Sport::Tennis),
    decreases pairs.len(),
{
    reveal(Seq::filter);
    if pairs.len() > 0 {
        coverage_adds_up(pairs.drop_last(), source);
    }
}

/// The gates in force: the edges.
pub open spec fn edge_line(p: Policy) -> Seq<Bit> {
    seq![
        label_bit("edge gates"@),
        plain_bit(
            "raw \u{2265} "@ + p.minimum_raw_edge.text() + " \u{b7} net \u{2265} "@
                + p.minimum_net_edge.text() + " after dispersion and fees"@,
        ),
    ]
}

/// The gates in force: the price band and the quorum.
pub open spec fn quorum_line(p: Policy) -> Seq<Bit> {
    seq![
        label_bit("price band"@),
        plain_bit(p.minimum_price.text() + " \u{2013} "@ + p.maximum_price.text()),
        sep_bit(),
        label_bit("quorum"@),
        plain_bit(
            digits(p.watchlist_source_families) + " families watchlist \u{b7} "@ + digits(
                p.minimum_source_families,
            ) + (if p.require_reference_book {
                " + reference"@
            } else {
                ""@
            }) + " actionable"@,
        ),
    ]
}

/// The gates in force: how old prices may be.
pub open spec fn freshness_line(p: Policy) -> Seq<Bit> {
    seq![
        label_bit("freshness"@),
        plain_bit(
            "quotes "@ + digits(p.max_quote_age as nat) + "s \u{b7} confirmation "@ + digits(
                p.confirmation_max_age as nat,
            ) + "s \u{b7} book "@ + digits(p.book_max_age as nat) + "s"@,
        ),
    ]
}

/// How often and how widely the engine works.
pub open spec fn cadence_line(p: Policy) -> Seq<Bit> {
    seq![
        label_bit("cadence"@),
        plain_bit(
            "scan "@ + duration_text(shown_seconds(p.scan_interval)) + " \u{b7} discovery cache "@
                + duration_text(shown_seconds(p.discovery_refresh)) + " \u{b7} retention "@ + digits(
                p.retention_days as nat,
            ) + "d"@,
        ),
        sep_bit(),
        label_bit("concurrency"@),
        plain_bit(
            "books "@ + digits(p.book_concurrency) + " \u{b7} sources "@ + digits(
                p.source_concurrency,
            ),
        ),
    ]
}

fn seconds_text(n: u64) -> (result: String)
    ensures
        result@ == digits(n as nat),
{
    natural(n as u128)
}

/// The settings in force, a line each: edges, price band and quorum, freshness,
/// cadence.
pub fn settings_lines(settings: &Settings) -> (result: Vec<Vec<Piece>>)
    ensures
        line_bits(result@) == seq![
            edge_line(settings@),
            quorum_line(settings@),
            freshness_line(settings@),
            cadence_line(settings@),
        ],
{
    let raw: String = settings.minimum_raw_edge.to_text();
    let net: String = settings.minimum_net_edge.to_text();
    let edges: Vec<Piece> = vec![
        label("edge gates"),
        plain(
            concat5(
                "raw \u{2265} ",
                raw.as_str(),
                " \u{b7} net \u{2265} ",
                net.as_str(),
                " after dispersion and fees",
            ),
        ),
    ];
    assert(bits(edges@) =~= edge_line(settings@));
    let low: String = settings.minimum_price.to_text();
    let high: String = settings.maximum_price.to_text();
    let watch: String = counted(settings.watchlist_source_families);
    let act: String = counted(settings.minimum_source_families);
    let reference: &str = if settings.require_reference_book {
        " + reference"
    } else {
        ""
    };
    let quorum: Vec<Piece> = vec![
        label("price band"),
        plain(concat3(low.as_str(), " \u{2013} ", high.as_str())),
        sep(),
        label("quorum"),
        plain(
            concat5(
                watch.as_str(),
                " families watchlist \u{b7} ",
                act.as_str(),
                reference,
                " actionable",
            ),
        ),
    ];
    assert(bits(quorum@) =~= quorum_line(settings@));
    let quote_age: String = seconds_text(settings.max_quote_age);
    let confirmation: String = seconds_text(settings.confirmation_max_age);
    let book_age: String = seconds_text(settings.book_max_age);
    let ages: String = concat6(
        "quotes ",
        quote_age.as_str(),
        "s \u{b7} confirmation ",
        confirmation.as_str(),
        "s \u{b7} book ",
        book_age.as_str(),
    );
    let freshness: Vec<Piece> = vec![label("freshness"), plain(concat2(ages.as_str(), "s"))];
    assert(bits(freshness@) =~= freshness_line(settings@));
    let scan: String = duration_label(signed(settings.scan_interval));
    let discovery: String = duration_label(signed(settings.discovery_refresh));
    let days: String = natural(settings.retention_days as u128);
    let pace: String = concat6(
        "scan ",
        scan.as_str(),
        " \u{b7} discovery cache ",
        discovery.as_str(),
        " \u{b7} retention ",
        days.as_str(),
    );
    let books: String = counted(settings.book_concurrency);
    let sources: String = counted(settings.source_concurrency);
    let cadence: Vec<Piece> = vec![
        label("cadence"),
        plain(concat2(pace.as_str(), "d")),
        sep(),
        label("concurrency"),
        plain(concat4("books ", books.as_str(), " \u{b7} sources ", sources.as_str())),
    ];
    assert(bits(cadence@) =~= cadence_line(settings@));
    let out: Vec<Vec<Piece>> = vec![edges, quorum, freshness, cadence];
    assert(line_bits(out@) =~= seq![
        edge_line(settings@),
        quorum_line(settings@),
        freshness_line(settings@),
        cadence_line(settings@),
    ]);
    out
}

} // verus!
