//! Liveness for unattended operation: what an operator or a watchdog needs to
//! judge the engine from outside the process.

use vstd::prelude::*;

use crate::text::{concat2, concat6, copy_text, copy_texts, digits, natural, owned, text_of, texts};
use crate::time::{instant_of, Timestamp};
use crate::tui::feed::{EngineStatus, Phase, Stage, Status};

verus! {

/// The file that the engine publishes its health in.
pub const HEALTH_FILE: &'static str = "health.json";

/// Every field is also in the views' status panel.
#[derive(Debug)]
pub struct HealthSnapshot {
    pub captured_at: Timestamp,
    pub started_at: Timestamp,
    pub pid: u32,
    pub git_commit: String,
    pub phase: String,
    pub scans_completed: u64,
    pub scans_failed: u64,
    pub last_scan_id: Option<u128>,
    pub last_scan_completed_at: Option<Timestamp>,
    pub last_scan_duration_ms: Option<u64>,
    pub last_candidate_count: Option<usize>,
    pub next_scan_at: Option<Timestamp>,
    pub last_error: Option<String>,
    pub reviewer: Option<String>,
    pub last_news_pass_at: Option<Timestamp>,
    pub sources: Vec<String>,
    /// Whether scans are also archived in a database.
    pub history_archive: bool,
}

/// A health snapshot as mathematics.
pub struct Pulse {
    pub captured_at: int,
    pub started_at: int,
    pub pid: int,
    pub git_commit: Seq<char>,
    pub phase: Seq<char>,
    pub scans_completed: int,
    pub scans_failed: int,
    pub last_scan_id: Option<int>,
    pub last_scan_completed_at: Option<int>,
    pub last_scan_duration_ms: Option<int>,
    pub last_candidate_count: Option<int>,
    pub next_scan_at: Option<int>,
    pub last_error: Option<Seq<char>>,
    pub reviewer: Option<Seq<char>>,
    pub last_news_pass_at: Option<int>,
    pub sources: Seq<Seq<char>>,
    pub history_archive: bool,
}

impl View for HealthSnapshot {
    type V = Pulse;

    open spec fn view(&self) -> Pulse {
        Pulse {
            captured_at: self.captured_at@,
            started_at: self.started_at@,
            pid: self.pid as int,
            git_commit: self.git_commit@,
            phase: self.phase@,
            scans_completed: self.scans_completed as int,
            scans_failed: self.scans_failed as int,
            last_scan_id: match self.last_scan_id {
                Some(id) => Some(id as int),
                None => None,
            },
            last_scan_completed_at: instant_of(self.last_scan_completed_at),
            last_scan_duration_ms: match self.last_scan_duration_ms {
                Some(ms) => Some(ms as int),
                None => None,
            },
            last_candidate_count: match self.last_candidate_count {
                Some(n) => Some(n as int),
                None => None,
            },
            next_scan_at: instant_of(self.next_scan_at),
            last_error: text_of(self.last_error),
            reviewer: text_of(self.reviewer),
            last_news_pass_at: instant_of(self.last_news_pass_at),
            sources: texts(self.sources@),
            history_archive: self.history_archive,
        }
    }
}

/// A phase as the snapshot names it.
pub open spec fn phase_label(phase: Stage) -> Seq<char> {
    match phase {
        Stage::Starting => "starting"@,
        Stage::Idle => "idle"@,
        Stage::Scanning { since } => "scanning"@,
        Stage::Reviewing => "reviewing"@,
        Stage::ShuttingDown => "shutting_down"@,
    }
}

fn phase_text(phase: &Phase) -> (result: &'static str)
    ensures
        result@ == phase_label(phase@),
{
    match phase {
        Phase::Starting => "starting",
        Phase::Idle => "idle",
        Phase::Scanning { since } => "scanning",
        Phase::Reviewing => "reviewing",
        Phase::ShuttingDown => "shutting_down",
    }
}

/// The snapshot of a status.
pub open spec fn pulse_of(
    status: Status,
    history_archive: bool,
    now: int,
    pid: int,
    git_commit: Seq<char>,
) -> Pulse {
    Pulse {
        captured_at: now,
        started_at: status.started_at,
        pid,
        git_commit,
        phase: phase_label(status.phase),
        scans_completed: status.scans_completed,
        scans_failed: status.scans_failed,
        last_scan_id: match status.last_scan {
            Some(scan) => Some(scan.scan_id),
            None => None,
        },
        last_scan_completed_at: match status.last_scan {
            Some(scan) => Some(scan.completed_at),
            None => None,
        },
        last_scan_duration_ms: status.last_scan_duration_ms,
        last_candidate_count: match status.last_scan {
            Some(scan) => Some(scan.candidate_count as int),
            None => None,
        },
        next_scan_at: status.next_scan_at,
        last_error: status.last_error,
        reviewer: status.reviewer,
        last_news_pass_at: match status.last_news_pass {
            Some((at, _)) => Some(at),
            None => None,
        },
        sources: status.source_ids,
        history_archive,
    }
}

impl HealthSnapshot {
    /// The snapshot of a status at `now`, of the process `pid` built from
    /// `git_commit`.
    pub fn from_status(
        status: &EngineStatus,
        history_archive: bool,
        now: Timestamp,
        pid: u32,
        git_commit: &str,
    ) -> (result: HealthSnapshot)
        ensures
            result@ == pulse_of(status@, history_archive, now@, pid as int, git_commit@),
    {
        let mut last_scan_id: Option<u128> = None;
        let mut last_scan_completed_at: Option<Timestamp> = None;
        let mut last_candidate_count: Option<usize> = None;
        if let Some(scan) = &status.last_scan {
            last_scan_id = Some(scan.scan_id);
            last_scan_completed_at = Some(scan.completed_at);
            last_candidate_count = Some(scan.candidate_count);
        }
        let last_news_pass_at: Option<Timestamp> = match status.last_news_pass {
            Some((at, _)) => Some(at),
            None => None,
        };
        HealthSnapshot {
            captured_at: now,
            started_at: status.started_at,
            pid,
            git_commit: owned(git_commit),
            phase: owned(phase_text(&status.phase)),
            scans_completed: status.scans_completed,
            scans_failed: status.scans_failed,
            last_scan_id,
            last_scan_completed_at,
            last_scan_duration_ms: status.last_scan_duration_ms,
            last_candidate_count,
            next_scan_at: status.next_scan_at,
            last_error: copy_text(&status.last_error),
            reviewer: copy_text(&status.reviewer),
            last_news_pass_at,
            sources: copy_texts(&status.source_ids),
            history_archive,
        }
    }

    /// One line for the service manager.
    pub fn status_line(&self) -> (result: String)
        ensures
            result@ == line_of(self@),
    {
        let completed: String = natural(self.scans_completed as u128);
        let failed: String = natural(self.scans_failed as u128);
        let error: String = match &self.last_error {
            Some(message) => message.clone(),
            None => owned("none"),
        };
        let front: String = concat6(
            self.phase.as_str(),
            " | scans ok=",
            completed.as_str(),
            " failed=",
            failed.as_str(),
            " | last error: ",
        );
        let result: String = concat2(front.as_str(), error.as_str());
        assert(result@ =~= line_of(self@));
        result
    }
}

/// One line for the service manager.
pub open spec fn line_of(pulse: Pulse) -> Seq<char> {
    pulse.phase + " | scans ok="@ + digits(pulse.scans_completed as nat) + " failed="@ + digits(
        pulse.scans_failed as nat,
    ) + " | last error: "@ + match pulse.last_error {
        Some(message) => message,
        None => "none"@,
    }
}

} // verus!
