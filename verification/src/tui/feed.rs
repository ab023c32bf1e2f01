//! The status that a running engine publishes, the commands that come back from
//! the views, and what the engine's loop does next.

use vstd::prelude::*;

use crate::domain::{scan_summary_view, ScanSummary, ScanTotals};
use crate::scanner::{span_nanos, LONGEST_SPAN_SECONDS};
use crate::text::{text_of, texts};
use crate::time::{instant_of, Timestamp, INSTANT_LIMIT, NANOS_PER_SECOND};

verus! {

#[derive(Debug, Clone, Copy)]
pub enum Phase {
    Starting,
    Idle,
    Scanning { since: Timestamp },
    Reviewing,
    ShuttingDown,
}

/// A phase with its instant as a number.
pub enum Stage {
    Starting,
    Idle,
    Scanning { since: int },
    Reviewing,
    ShuttingDown,
}

impl View for Phase {
    type V = Stage;

    open spec fn view(&self) -> Stage {
        match *self {
            Phase::Starting => Stage::Starting,
            Phase::Idle => Stage::Idle,
            Phase::Scanning { since } => Stage::Scanning { since: since@ },
            Phase::Reviewing => Stage::Reviewing,
            Phase::ShuttingDown => Stage::ShuttingDown,
        }
    }
}

#[derive(Debug)]
pub struct EngineStatus {
    pub started_at: Timestamp,
    pub phase: Phase,
    pub scans_completed: u64,
    pub scans_failed: u64,
    pub last_scan: Option<ScanSummary>,
    pub last_scan_duration_ms: Option<u64>,
    pub next_scan_at: Option<Timestamp>,
    pub last_error: Option<String>,
    pub reviewer: Option<String>,
    /// When the last news pass found anything, and how much.
    pub last_news_pass: Option<(Timestamp, usize)>,
    pub source_ids: Vec<String>,
}

/// A status as mathematics.
pub struct Status {
    pub started_at: int,
    pub phase: Stage,
    pub scans_completed: int,
    pub scans_failed: int,
    pub last_scan: Option<ScanTotals>,
    pub last_scan_duration_ms: Option<int>,
    pub next_scan_at: Option<int>,
    pub last_error: Option<Seq<char>>,
    pub reviewer: Option<Seq<char>>,
    pub last_news_pass: Option<(int, int)>,
    pub source_ids: Seq<Seq<char>>,
}

impl View for EngineStatus {
    type V = Status;

    open spec fn view(&self) -> Status {
        Status {
            started_at: self.started_at@,
            phase: self.phase@,
            scans_completed: self.scans_completed as int,
            scans_failed: self.scans_failed as int,
            last_scan: scan_summary_view(self.last_scan),
            last_scan_duration_ms: match self.last_scan_duration_ms {
                Some(ms) => Some(ms as int),
                None => None,
            },
            next_scan_at: instant_of(self.next_scan_at),
            last_error: text_of(self.last_error),
            reviewer: text_of(self.reviewer),
            last_news_pass: match self.last_news_pass {
                Some((at, reviewed)) => Some((at@, reviewed as int)),
                None => None,
            },
            source_ids: texts(self.source_ids@),
        }
    }
}

/// An engine that has just started.
pub open spec fn fresh(source_ids: Seq<Seq<char>>, reviewer: Option<Seq<char>>, now: int) -> Status {
    Status {
        started_at: now,
        phase: Stage::Starting,
        scans_completed: 0,
        scans_failed: 0,
        last_scan: None,
        last_scan_duration_ms: None,
        next_scan_at: None,
        last_error: None,
        reviewer,
        last_news_pass: None,
        source_ids,
    }
}

/// A count of scans after one more; it stays where it cannot grow.
pub open spec fn one_more(n: int) -> int {
    if n < u64::MAX {
        n + 1
    } else {
        n
    }
}

/// A scan begins: the next one is due an interval later.
pub open spec fn scan_begun(status: Status, now: int, interval: int) -> Status {
    Status {
        phase: Stage::Scanning { since: now },
        next_scan_at: Some(now + span_nanos(interval)),
        ..status
    }
}

/// A scan went through: it counts, and no error is left.
pub open spec fn scan_passed(status: Status, summary: ScanTotals, elapsed_ms: int) -> Status {
    Status {
        phase: Stage::Idle,
        scans_completed: one_more(status.scans_completed),
        last_scan: Some(summary),
        last_scan_duration_ms: Some(elapsed_ms),
        last_error: None,
        ..status
    }
}

/// A scan failed: it counts, and the last scan that went through stays.
pub open spec fn scan_lost(status: Status, message: Seq<char>) -> Status {
    Status {
        phase: Stage::Idle,
        scans_failed: one_more(status.scans_failed),
        last_error: Some(message),
        ..status
    }
}

/// A news pass is over; one that found nothing or failed leaves no trace.
pub open spec fn review_over(status: Status, reviewed: Option<int>, now: int) -> Status {
    Status {
        phase: Stage::Idle,
        last_news_pass: match reviewed {
            Some(n) if n > 0 => Some((now, n)),
            _ => status.last_news_pass,
        },
        ..status
    }
}

impl EngineStatus {
    pub fn new(source_ids: Vec<String>, reviewer: Option<String>, now: Timestamp) -> (result:
        EngineStatus)
        ensures
            result@ == fresh(texts(source_ids@), text_of(reviewer), now@),
    {
        EngineStatus {
            started_at: now,
            phase: Phase::Starting,
            scans_completed: 0,
            scans_failed: 0,
            last_scan: None,
            last_scan_duration_ms: None,
            next_scan_at: None,
            last_error: None,
            reviewer,
            last_news_pass: None,
            source_ids,
        }
    }

    /// The status while a scan runs; `None` where the next scan would lie
    /// beyond the last instant.
    pub fn begin_scan(self, now: Timestamp, interval: u64) -> (result: Option<EngineStatus>)
        ensures
            match result {
                Some(status) => status@ == scan_begun(self@, now@, interval as int),
                None => now@ + span_nanos(interval as int) > INSTANT_LIMIT,
            },
    {
        let span: i128 = if interval <= LONGEST_SPAN_SECONDS {
            interval as i128 * NANOS_PER_SECOND
        } else {
            0
        };
        match Timestamp::from_nanos(now.nanos() + span) {
            Some(next) => {
                let mut status = self;
                status.phase = Phase::Scanning { since: now };
                status.next_scan_at = Some(next);
                Some(status)
            },
            None => None,
        }
    }

    /// The status after a scan that went through.
    pub fn finish_scan(self, summary: ScanSummary, elapsed_ms: u64) -> (result: EngineStatus)
        ensures
            result@ == scan_passed(self@, summary@, elapsed_ms as int),
    {
        let mut status = self;
        status.scans_completed = status.scans_completed.saturating_add(1);
        status.last_scan = Some(summary);
        status.last_scan_duration_ms = Some(elapsed_ms);
        status.last_error = None;
        status.phase = Phase::Idle;
        status
    }

    /// The status after a scan that failed.
    pub fn fail_scan(self, message: String) -> (result: EngineStatus)
        ensures
            result@ == scan_lost(self@, message@),
    {
        let mut status = self;
        status.scans_failed = status.scans_failed.saturating_add(1);
        status.last_error = Some(message);
        status.phase = Phase::Idle;
        status
    }

    /// The status while news is reviewed.
    pub fn begin_review(self) -> (result: EngineStatus)
        ensures
            result@ == (Status { phase: Stage::Reviewing, ..self@ }),
    {
        let mut status = self;
        status.phase = Phase::Reviewing;
        status
    }

    /// The status after a news pass: how many it reviewed, or nothing where it
    /// failed.
    pub fn finish_review(self, reviewed: Option<usize>, now: Timestamp) -> (result: EngineStatus)
        ensures
            result@ == review_over(
                self@,
                match reviewed {
                    Some(n) => Some(n as int),
                    None => None,
                },
                now@,
            ),
    {
        let mut status = self;
        if let Some(n) = reviewed {
            if n > 0 {
                status.last_news_pass = Some((now, n));
            }
        }
        status.phase = Phase::Idle;
        status
    }

    /// The status of an engine that stops.
    pub fn shut_down(self) -> (result: EngineStatus)
        ensures
            result@ == (Status { phase: Stage::ShuttingDown, ..self@ }),
    {
        let mut status = self;
        status.phase = Phase::ShuttingDown;
        status
    }
}

/// Every scan attempt ends idle and counts once, as completed or as failed; a
/// failure hides neither the last scan nor its own message, and a success
/// clears the error.
pub proof fn attempts_count_once(status: Status, summary: ScanTotals, elapsed_ms: int, message: Seq<char>)
    requires
        0 <= status.scans_completed < u64::MAX,
        0 <= status.scans_failed < u64::MAX,
    ensures
        ({
            let passed = scan_passed(status, summary, elapsed_ms);
            let lost = scan_lost(status, message);
            &&& passed.scans_completed + passed.scans_failed == status.scans_completed
                + status.scans_failed + 1
            &&& lost.scans_completed + lost.scans_failed == status.scans_completed
                + status.scans_failed + 1
            &&& passed.phase is Idle && lost.phase is Idle
            &&& passed.last_error is None && lost.last_error == Some(message)
            &&& lost.last_scan == status.last_scan
        }),
{
}

#[derive(Debug, Clone, Copy, PartialEq, Eq, Structural)]
pub enum EngineCommand {
    ScanNow,
    Shutdown,
}

/// What wakes the engine's loop.
#[derive(Debug, Clone, Copy, PartialEq, Eq, Structural)]
pub enum EngineEvent {
    ScanDue,
    NewsDue,
    SettlementDue,
    /// A command; `None` where the views are gone.
    Command(Option<EngineCommand>),
    /// The shutdown flag changed, or can change no more.
    ShutdownChanged { closed: bool, requested: bool },
}

/// What the engine's loop does.
#[derive(Debug, Clone, Copy, PartialEq, Eq, Structural)]
pub enum EngineAction {
    /// Schedule the next scan an interval from now, then scan.
    Scan,
    ReviewNews,
    /// Empty the news queue that nobody reviews.
    DrainNews,
    Settle,
    /// Make the next scan due at once.
    HastenScan,
    RaiseShutdown,
    /// Publish the shutdown and leave the loop.
    Stop,
    Wait,
}

/// What an event asks of the loop.
pub open spec fn action_for(event: EngineEvent, reviewed: bool) -> EngineAction {
    match event {
        EngineEvent::ScanDue => EngineAction::Scan,
        EngineEvent::NewsDue => if reviewed {
            EngineAction::ReviewNews
        } else {
            EngineAction::DrainNews
        },
        EngineEvent::SettlementDue => EngineAction::Settle,
        EngineEvent::Command(Some(EngineCommand::ScanNow)) => EngineAction::HastenScan,
        EngineEvent::Command(_) => EngineAction::RaiseShutdown,
        EngineEvent::ShutdownChanged { closed, requested } => if closed || requested {
            EngineAction::Stop
        } else {
            EngineAction::Wait
        },
    }
}

/// What the loop does about an event; `has_reviewer` says whether news is
/// reviewed at all.
pub fn engine_action(event: EngineEvent, has_reviewer: bool) -> (result: EngineAction)
    ensures
        result == action_for(event, has_reviewer),
{
    match event {
        EngineEvent::ScanDue => EngineAction::Scan,
        EngineEvent::NewsDue => if has_reviewer {
            EngineAction::ReviewNews
        } else {
            EngineAction::DrainNews
        },
        EngineEvent::SettlementDue => EngineAction::Settle,
        EngineEvent::Command(command) => match command {
            Some(EngineCommand::ScanNow) => EngineAction::HastenScan,
            Some(EngineCommand::Shutdown) => EngineAction::RaiseShutdown,
            None => EngineAction::RaiseShutdown,
        },
        EngineEvent::ShutdownChanged { closed, requested } => if closed || requested {
            EngineAction::Stop
        } else {
            EngineAction::Wait
        },
    }
}

/// Losing the views, or a command to stop, raises the shutdown; a raised
/// shutdown stops the loop; nothing else does.
pub proof fn only_a_shutdown_stops(event: EngineEvent, reviewed: bool)
    ensures
        action_for(event, reviewed) is RaiseShutdown <==> (event matches EngineEvent::Command(c)
            && c != Some(EngineCommand::ScanNow)),
        action_for(event, reviewed) is Stop <==> (event matches EngineEvent::ShutdownChanged {
            closed,
            requested,
        } && (closed || requested)),
{
}

/// How long scans are kept, in seconds.
pub fn retention_seconds(retention_days: u32) -> (result: u64)
    ensures
        result == retention_days * 86_400,
{
    retention_days as u64 * 86_400
}

} // verus!
