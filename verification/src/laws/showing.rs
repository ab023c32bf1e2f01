//! What an operator sees of the engine, the sources and the paper book.

use vstd::prelude::*;

use crate::domain::{Health, Position, RecommendationClass, Research, ScanTotals};
use crate::health::pulse_of;
use crate::seqs::group_seqs;
use crate::tui::feed::{
    action_for, review_over, scan_begun, scan_lost, scan_passed, EngineAction, EngineEvent, Stage,
    Status,
};
use crate::tui::views::{
    class_text, class_tone, effect_tone, error_shown, name_of, news_bit, reached, row_at, scan_millis,
    scan_shown, standing,
};
use crate::tui::widgets::Tone;

verus! {

broadcast use group_seqs;

/// The colours say the same everywhere: good for what can be acted on and what
/// is unchanged, a warning for what is watched, lowered or to be reviewed, bad
/// for what news rejects, and muted for rejected rows.
pub proof fn colours_say_the_same_everywhere()
    ensures
        class_tone(RecommendationClass::Actionable) is Good,
        class_tone(RecommendationClass::Watchlist) is Warn,
        class_tone(RecommendationClass::Rejected) is Muted,
        effect_tone("unchanged"@) is Good,
        effect_tone("lower"@) is Warn,
        effect_tone("review"@) is Warn,
        effect_tone("reject"@) is Bad,
{
    reveal_strlit("unchanged");
    reveal_strlit("lower");
    reveal_strlit("review");
    reveal_strlit("reject");
    assert("unchanged"@.len() == 9);
    assert("lower"@.len() == 5);
    assert("review"@.len() == 6);
    assert("reject"@.len() == 6);
    assert("review"@[2] == 'v');
    assert("reject"@[2] == 'j');
}

/// A row's news is shown by its own effect, in that effect's colour; without any
/// it is pending, unless the row is rejected.
pub proof fn news_is_shown_by_its_effect(row: Research)
    ensures
        row.news matches Some(news) ==> news_bit(row).text == news.confidence_effect && news_bit(
            row,
        ).tone == effect_tone(news.confidence_effect),
        row.news is None && row.effective_class is Rejected ==> news_bit(row).text == "-"@,
        row.news is None && !(row.effective_class is Rejected) ==> news_bit(row).text == "pending"@,
{
}

/// A position is shown with whom it backs and how that row stands now, or as no
/// longer in the latest scan.
pub proof fn positions_are_shown_by_their_row(position: Position, rows: Seq<Research>, i: int)
    requires
        0 <= i < rows.len(),
        rows[i].opportunity.id == position.opportunity_id,
        forall|j: int|
            0 <= j < i ==> (#[trigger] rows[j]).opportunity.id != position.opportunity_id,
    ensures
        standing(position, rows).0 == rows[i].opportunity.participant,
        standing(position, rows).1.text == class_text(rows[i].effective_class),
        standing(position, rows).1.tone == class_tone(rows[i].effective_class),
{
    lemma_row_at(rows, position.opportunity_id, 0, i);
}

proof fn lemma_row_at(rows: Seq<Research>, id: int, from: int, i: int)
    requires
        0 <= from <= i < rows.len(),
        rows[i].opportunity.id == id,
        forall|j: int| 0 <= j < i ==> (#[trigger] rows[j]).opportunity.id != id,
    ensures
        row_at(rows, id, from) == Some(i),
    decreases i - from,
{
    if from < i {
        lemma_row_at(rows, id, from + 1, i);
    }
}

/// A position goes by its market's slug, and by the market's identifier where it
/// has none.
pub proof fn positions_go_by_their_slug(position: Position)
    ensures
        position.market_slug.len() > 0 ==> name_of(position) == position.market_slug,
        position.market_slug.len() == 0 ==> name_of(position) == position.market_id,
{
}

/// The sources that were reached are counted, and no others.
pub proof fn reached_sources_are_counted(health: Seq<Health>, record: Health)
    ensures
        reached(health.push(record)) == reached(health) + if record.reachable {
            1nat
        } else {
            0nat
        },
        reached(seq![]) == 0,
{
    reveal(Seq::filter);
    assert(health.push(record).drop_last() =~= health);
}

/// The engine's own last scan is shown before the stored one, and the store's
/// failure before the engine's.
pub proof fn the_engine_speaks_for_its_scan(
    engine: Option<Status>,
    stored: Option<ScanTotals>,
    failure: Option<Seq<char>>,
)
    ensures
        engine matches Some(status) ==> (status.last_scan is Some ==> scan_shown(engine, stored)
            == status.last_scan),
        engine matches Some(status) ==> (status.last_scan is None ==> scan_shown(engine, stored)
            == stored),
        engine is None ==> scan_shown(engine, stored) == stored,
        failure is Some ==> error_shown(failure, engine) == failure,
        failure is None ==> (engine matches Some(status) ==> error_shown(failure, engine)
            == status.last_error),
{
}

/// A scan takes from its start to its completion, in whole milliseconds.
pub proof fn scans_take_their_time(scan: ScanTotals)
    requires
        scan.started_at <= scan.completed_at,
    ensures
        scan_millis(scan) * 1_000_000 <= scan.completed_at - scan.started_at < (scan_millis(scan)
            + 1) * 1_000_000,
{
}

/// A scan that begins is under way, and the next is due an interval later; one
/// that goes through is counted and shown, and clears the last error; one that
/// fails is counted, leaves the last good one, and says why.
pub proof fn the_engine_counts_its_scans(
    status: Status,
    summary: ScanTotals,
    elapsed_ms: int,
    message: Seq<char>,
    now: int,
    interval: int,
)
    requires
        0 <= status.scans_completed < u64::MAX,
        0 <= status.scans_failed < u64::MAX,
        0 <= interval <= 9_000_000_000_000_000,
    ensures
        scan_begun(status, now, interval).phase == (Stage::Scanning { since: now }),
        scan_begun(status, now, interval).next_scan_at == Some(now + interval * 1_000_000_000),
        scan_begun(status, now, interval).last_scan == status.last_scan,
        ({
            let after = scan_passed(status, summary, elapsed_ms);
            &&& after.phase is Idle
            &&& after.scans_completed == status.scans_completed + 1
            &&& after.scans_failed == status.scans_failed
            &&& after.last_scan == Some(summary)
            &&& after.last_scan_duration_ms == Some(elapsed_ms)
            &&& after.last_error is None
            &&& after.next_scan_at == status.next_scan_at
        }),
        ({
            let after = scan_lost(status, message);
            &&& after.phase is Idle
            &&& after.scans_completed == status.scans_completed
            &&& after.scans_failed == status.scans_failed + 1
            &&& after.last_scan == status.last_scan
            &&& after.last_error == Some(message)
        }),
{
}

/// A news pass leaves a trace only where it reviewed something.
pub proof fn empty_news_passes_leave_no_trace(status: Status, reviewed: Option<int>, now: int)
    ensures
        reviewed matches Some(n) ==> (n > 0 ==> review_over(status, reviewed, now).last_news_pass
            == Some((now, n))),
        reviewed is None || reviewed->0 <= 0 ==> review_over(status, reviewed, now).last_news_pass
            == status.last_news_pass,
{
}

/// Each tick leads to its own work.
pub proof fn ticks_lead_to_their_work(reviewed: bool)
    ensures
        action_for(EngineEvent::ScanDue, reviewed) is Scan,
        action_for(EngineEvent::SettlementDue, reviewed) is Settle,
        action_for(EngineEvent::NewsDue, true) is ReviewNews,
        action_for(EngineEvent::NewsDue, false) is DrainNews,
{
}

/// The health snapshot says what the status says.
pub proof fn the_health_snapshot_says_what_the_status_says(
    status: Status,
    archive: bool,
    now: int,
    pid: int,
    commit: Seq<char>,
)
    ensures
        ({
            let p = pulse_of(status, archive, now, pid, commit);
            &&& p.captured_at == now
            &&& p.started_at == status.started_at
            &&& p.pid == pid
            &&& p.git_commit == commit
            &&& p.scans_completed == status.scans_completed
            &&& p.scans_failed == status.scans_failed
            &&& p.next_scan_at == status.next_scan_at
            &&& p.last_error == status.last_error
            &&& p.sources == status.source_ids
            &&& p.history_archive == archive
            &&& status.last_scan matches Some(scan) ==> p.last_scan_id == Some(scan.scan_id)
                && p.last_scan_completed_at == Some(scan.completed_at) && p.last_candidate_count
                == Some(scan.candidate_count as int)
            &&& status.last_scan is None ==> p.last_scan_id is None
                && p.last_scan_completed_at is None && p.last_candidate_count is None
        }),
{
}

} // verus!
