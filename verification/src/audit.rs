//! Whether the archive, the replay and the classifier still agree: every live
//! frame is decided again under the gates and portfolio it was archived with,
//! and compared with its stored rows. And the window that a replay covers.

use vstd::prelude::*;

use crate::decimal::{Dec, Decimal};
use crate::domain::{opportunity_views, Opportunity, Row};
use crate::error::{Error, Failure};
use crate::replay::{Frame, Moment};
use crate::scanner::{consensus_markets, evaluable, evaluate_books, judged};
use crate::seqs::{group_seqs, take_next};
use crate::text::{concat3, concat4, join, joined, owned, quote, quoted, same, texts};
use crate::textmap::{bump, bumped, raise, raised};
use crate::time::{
    date_number, midnight, parse_day, parse_rfc3339, printed, rfc3339, Timestamp, INSTANT_LIMIT,
};

verus! {

broadcast use group_seqs;

/// A field that differs, with both texts.
pub struct Difference {
    pub field: Seq<char>,
    pub stored: Seq<char>,
    pub recomputed: Seq<char>,
}

/// One more difference, if there is one.
pub open spec fn differing(list: Seq<Difference>, differs: bool, field: Seq<char>, stored: Seq<char>, recomputed: Seq<char>) -> Seq<
    Difference,
> {
    if differs {
        list.push(Difference { field, stored, recomputed })
    } else {
        list
    }
}

pub open spec fn number_differing(list: Seq<Difference>, field: Seq<char>, stored: Dec, recomputed: Dec) -> Seq<
    Difference,
> {
    differing(list, !stored.same(recomputed), field, stored.text(), recomputed.text())
}

/// What two rows for the same side disagree on: numbers by value, everything
/// else exactly.
pub open spec fn difference_list(stored: Row, recomputed: Row) -> Seq<Difference> {
    let a = differing(
        seq![],
        stored.class != recomputed.class,
        "class"@,
        stored.class.title(),
        recomputed.class.title(),
    );
    let b = number_differing(
        a,
        "fair_probability"@,
        stored.fair_probability,
        recomputed.fair_probability,
    );
    let c = number_differing(
        b,
        "executable_price"@,
        stored.executable_price,
        recomputed.executable_price,
    );
    let d = number_differing(c, "net_edge"@, stored.net_edge, recomputed.net_edge);
    let e = number_differing(d, "quantity"@, stored.quantity, recomputed.quantity);
    let f = number_differing(e, "maximum_loss"@, stored.maximum_loss, recomputed.maximum_loss);
    differing(
        f,
        stored.reasons != recomputed.reasons,
        "reasons"@,
        joined(stored.reasons, " | "@),
        joined(recomputed.reasons, " | "@),
    )
}

/// A row agrees with itself, and rows that agree on nothing but what is
/// compared have no difference.
pub proof fn equal_rows_have_no_difference(row: Row)
    ensures
        difference_list(row, row) == Seq::<Difference>::empty(),
{
}

#[derive(Debug)]
pub struct FieldDifference {
    pub field: String,
    pub stored: String,
    pub recomputed: String,
}

impl View for FieldDifference {
    type V = Difference;

    open spec fn view(&self) -> Difference {
        Difference { field: self.field@, stored: self.stored@, recomputed: self.recomputed@ }
    }
}

pub open spec fn difference_views(items: Seq<FieldDifference>) -> Seq<Difference> {
    items.map_values(|item: FieldDifference| item@)
}

fn note_number(list: Vec<FieldDifference>, field: &str, stored: Decimal, recomputed: Decimal) -> (result:
    Vec<FieldDifference>)
    ensures
        difference_views(result@) == number_differing(
            difference_views(list@),
            field@,
            stored@,
            recomputed@,
        ),
{
    let mut out = list;
    if !stored.equals(recomputed) {
        out.push(
            FieldDifference {
                field: owned(field),
                stored: stored.to_text(),
                recomputed: recomputed.to_text(),
            },
        );
    }
    out
}

fn same_texts(a: &Vec<String>, b: &Vec<String>) -> (result: bool)
    ensures
        result == (texts(a@) == texts(b@)),
{
    if a.len() != b.len() {
        assert(texts(a@).len() != texts(b@).len());
        return false;
    }
    let mut i: usize = 0;
    while i < a.len()
        invariant
            a@.len() == b@.len(),
            i <= a@.len(),
            forall|j: int| 0 <= j < i ==> texts(a@)[j] == texts(b@)[j],
        decreases a@.len() - i,
    {
        if !same(a[i].as_str(), b[i].as_str()) {
            assert(texts(a@)[i as int] != texts(b@)[i as int]);
            return false;
        }
        i = i + 1;
    }
    assert(texts(a@) =~= texts(b@));
    true
}

/// What two rows for the same side disagree on.
pub fn differences(stored: &Opportunity, recomputed: &Opportunity) -> (result: Vec<FieldDifference>)
    ensures
        difference_views(result@) == difference_list(stored@, recomputed@),
{
    let mut out: Vec<FieldDifference> = Vec::new();
    if stored.class != recomputed.class {
        out.push(
            FieldDifference {
                field: owned("class"),
                stored: owned(stored.class.capitalized()),
                recomputed: owned(recomputed.class.capitalized()),
            },
        );
    }
    let out = note_number(
        out,
        "fair_probability",
        stored.fair_probability,
        recomputed.fair_probability,
    );
    let out = note_number(
        out,
        "executable_price",
        stored.executable_price,
        recomputed.executable_price,
    );
    let out = note_number(out, "net_edge", stored.net_edge, recomputed.net_edge);
    let out = note_number(out, "quantity", stored.quantity, recomputed.quantity);
    let mut out = note_number(out, "maximum_loss", stored.maximum_loss, recomputed.maximum_loss);
    if !same_texts(&stored.reasons, &recomputed.reasons) {
        out.push(
            FieldDifference {
                field: owned("reasons"),
                stored: join(&stored.reasons, " | "),
                recomputed: join(&recomputed.reasons, " | "),
            },
        );
    }
    out
}

/// A difference with the row it was found in.
#[derive(Debug)]
pub struct Mismatch {
    pub scan_id: u128,
    pub opportunity_id: u128,
    pub market_slug: String,
    pub field: String,
    pub stored: String,
    pub recomputed: String,
}

/// A mismatch as mathematics.
pub struct Finding {
    pub scan_id: int,
    pub opportunity_id: int,
    pub market_slug: Seq<char>,
    pub difference: Difference,
}

impl View for Mismatch {
    type V = Finding;

    open spec fn view(&self) -> Finding {
        Finding {
            scan_id: self.scan_id as int,
            opportunity_id: self.opportunity_id as int,
            market_slug: self.market_slug@,
            difference: Difference {
                field: self.field@,
                stored: self.stored@,
                recomputed: self.recomputed@,
            },
        }
    }
}

pub open spec fn finding_views(items: Seq<Mismatch>) -> Seq<Finding> {
    items.map_values(|item: Mismatch| item@)
}

/// Most mismatches that are kept for diagnosis.
pub const SAMPLE_LIMIT: usize = 20;

/// Decides each live frame again under the gates and portfolio it was archived
/// with and compares the rows. Any mismatch means that the archive, the replay
/// or the classifier drifted; the count is the finding.
#[derive(Debug)]
pub struct Audit {
    pub frames: usize,
    pub frames_audited: usize,
    /// Imported frames (no books) or frames whose archived settings cannot be
    /// read; both are left out, not assumed.
    pub frames_skipped: usize,
    pub rows_stored: usize,
    pub rows_recomputed: usize,
    pub rows_matched: usize,
    pub rows_only_stored: usize,
    pub rows_only_recomputed: usize,
    pub mismatches: usize,
    /// First mismatches, for diagnosis.
    pub samples: Vec<Mismatch>,
}

/// An audit as mathematics.
pub struct Tally {
    pub frames: int,
    pub frames_audited: int,
    pub frames_skipped: int,
    pub rows_stored: int,
    pub rows_recomputed: int,
    pub rows_matched: int,
    pub rows_only_stored: int,
    pub rows_only_recomputed: int,
    pub mismatches: int,
    pub samples: Seq<Finding>,
}

impl View for Audit {
    type V = Tally;

    open spec fn view(&self) -> Tally {
        Tally {
            frames: self.frames as int,
            frames_audited: self.frames_audited as int,
            frames_skipped: self.frames_skipped as int,
            rows_stored: self.rows_stored as int,
            rows_recomputed: self.rows_recomputed as int,
            rows_matched: self.rows_matched as int,
            rows_only_stored: self.rows_only_stored as int,
            rows_only_recomputed: self.rows_only_recomputed as int,
            mismatches: self.mismatches as int,
            samples: finding_views(self.samples@),
        }
    }
}

pub open spec fn fresh_tally() -> Tally {
    Tally {
        frames: 0,
        frames_audited: 0,
        frames_skipped: 0,
        rows_stored: 0,
        rows_recomputed: 0,
        rows_matched: 0,
        rows_only_stored: 0,
        rows_only_recomputed: 0,
        mismatches: 0,
        samples: seq![],
    }
}

/// Where a row stands among some, by its identifier.
pub open spec fn id_at(rows: Seq<Row>, id: int, from: int) -> Option<int>
    decreases rows.len() - from,
{
    if from >= rows.len() {
        None
    } else if rows[from].id == id {
        Some(from)
    } else {
        id_at(rows, id, from + 1)
    }
}

/// The rows by identifier: a later one takes the place of an earlier one.
pub open spec fn rows_by_id(rows: Seq<Row>) -> Seq<Row>
    decreases rows.len(),
{
    if rows.len() == 0 {
        seq![]
    } else {
        let front = rows_by_id(rows.drop_last());
        match id_at(front, rows.last().id, 0) {
            Some(i) => front.update(i, rows.last()),
            None => front.push(rows.last()),
        }
    }
}

/// The tally after one difference.
pub open spec fn difference_counted(t: Tally, scan_id: int, row: Row, d: Difference) -> Tally {
    Tally {
        mismatches: bumped(t.mismatches),
        samples: if t.samples.len() < SAMPLE_LIMIT {
            t.samples.push(
                Finding {
                    scan_id,
                    opportunity_id: row.id,
                    market_slug: row.market_slug,
                    difference: d,
                },
            )
        } else {
            t.samples
        },
        ..t
    }
}

pub open spec fn differences_counted(t: Tally, scan_id: int, row: Row, list: Seq<Difference>) -> Tally
    decreases list.len(),
{
    if list.len() == 0 {
        t
    } else {
        difference_counted(
            differences_counted(t, scan_id, row, list.drop_last()),
            scan_id,
            row,
            list.last(),
        )
    }
}

/// A tally with the stored rows that are not matched yet.
pub struct Comparison {
    pub tally: Tally,
    pub left: Seq<Row>,
}

/// The comparison after one more recomputed row.
pub open spec fn compared(c: Comparison, scan_id: int, row: Row) -> Comparison {
    match id_at(c.left, row.id, 0) {
        None => Comparison {
            tally: Tally {
                rows_only_recomputed: bumped(c.tally.rows_only_recomputed),
                ..c.tally
            },
            ..c
        },
        Some(i) => {
            let list = difference_list(c.left[i], row);
            let left = c.left.remove(i);
            if list.len() == 0 {
                Comparison {
                    tally: Tally { rows_matched: bumped(c.tally.rows_matched), ..c.tally },
                    left,
                }
            } else {
                Comparison { tally: differences_counted(c.tally, scan_id, row, list), left }
            }
        },
    }
}

pub open spec fn all_compared(c: Comparison, scan_id: int, rows: Seq<Row>) -> Comparison
    decreases rows.len(),
{
    if rows.len() == 0 {
        c
    } else {
        compared(all_compared(c, scan_id, rows.drop_last()), scan_id, rows.last())
    }
}

/// The tally after one more frame; missing where a number overflows.
pub open spec fn frame_audited(t: Tally, frame: Moment) -> Option<Tally> {
    let counted = Tally { frames: bumped(t.frames), ..t };
    if frame.origin != "live"@ || frame.books.len() == 0 || frame.settings is None {
        Some(Tally { frames_skipped: bumped(t.frames_skipped), ..counted })
    } else {
        let p = frame.settings->0;
        let at = frame.evaluated_at;
        match judged(
            p,
            evaluable(frame.markets, frame.quotes, p, at),
            frame.books,
            frame.portfolio,
            at,
        ) {
            Some(rows) => {
                let start = Comparison {
                    tally: Tally {
                        frames_audited: bumped(t.frames_audited),
                        rows_stored: raised(t.rows_stored, frame.opportunities.len() as int),
                        rows_recomputed: raised(t.rows_recomputed, rows.len() as int),
                        ..counted
                    },
                    left: rows_by_id(frame.opportunities),
                };
                let end = all_compared(start, frame.scan_id, rows);
                Some(
                    Tally {
                        rows_only_stored: raised(
                            end.tally.rows_only_stored,
                            end.left.len() as int,
                        ),
                        ..end.tally
                    },
                )
            },
            None => None,
        }
    }
}

fn find_id(rows: &Vec<Opportunity>, id: u128) -> (result: Option<usize>)
    ensures
        match result {
            Some(i) => i < rows@.len() && id_at(opportunity_views(rows@), id as int, 0) == Some(
                i as int,
            ),
            None => id_at(opportunity_views(rows@), id as int, 0) is None,
        },
{
    let ghost all = opportunity_views(rows@);
    let mut i: usize = 0;
    while i < rows.len()
        invariant
            i <= rows@.len(),
            all == opportunity_views(rows@),
            id_at(all, id as int, 0) == id_at(all, id as int, i as int),
        decreases rows@.len() - i,
    {
        assert(all[i as int] == rows@[i as int]@);
        if rows[i].id == id {
            return Some(i);
        }
        i = i + 1;
    }
    None
}

fn index_rows(rows: &Vec<Opportunity>) -> (result: Vec<Opportunity>)
    ensures
        opportunity_views(result@) == rows_by_id(opportunity_views(rows@)),
{
    let ghost all = opportunity_views(rows@);
    let mut out: Vec<Opportunity> = Vec::new();
    let mut i: usize = 0;
    while i < rows.len()
        invariant
            i <= rows@.len(),
            all == opportunity_views(rows@),
            opportunity_views(out@) == rows_by_id(all.take(i as int)),
        decreases rows@.len() - i,
    {
        proof {
            take_next(all, i as int);
        }
        let ghost front = opportunity_views(out@);
        match find_id(&out, rows[i].id) {
            Some(k) => {
                out.set(k, rows[i].clone());
                assert(opportunity_views(out@) =~= front.update(k as int, all[i as int]));
            },
            None => {
                out.push(rows[i].clone());
            },
        }
        i = i + 1;
    }
    out
}

fn count_differences(audit: Audit, scan_id: u128, row: &Opportunity, list: &Vec<FieldDifference>) -> (result:
    Audit)
    ensures
        result@ == differences_counted(audit@, scan_id as int, row@, difference_views(list@)),
{
    let ghost all = difference_views(list@);
    let mut out = audit;
    let mut i: usize = 0;
    while i < list.len()
        invariant
            i <= list@.len(),
            all == difference_views(list@),
            out@ == differences_counted(audit@, scan_id as int, row@, all.take(i as int)),
        decreases list@.len() - i,
    {
        proof {
            take_next(all, i as int);
        }
        out.mismatches = bump(out.mismatches);
        if out.samples.len() < SAMPLE_LIMIT {
            out.samples.push(
                Mismatch {
                    scan_id,
                    opportunity_id: row.id,
                    market_slug: owned(row.market_slug.as_str()),
                    field: owned(list[i].field.as_str()),
                    stored: owned(list[i].stored.as_str()),
                    recomputed: owned(list[i].recomputed.as_str()),
                },
            );
        }
        i = i + 1;
    }
    out
}

fn compare_row(audit: Audit, left: Vec<Opportunity>, scan_id: u128, row: &Opportunity) -> (result: (
    Audit,
    Vec<Opportunity>,
))
    ensures
        (Comparison { tally: result.0@, left: opportunity_views(result.1@) }) == compared(
            Comparison { tally: audit@, left: opportunity_views(left@) },
            scan_id as int,
            row@,
        ),
{
    let ghost before = opportunity_views(left@);
    let mut audit = audit;
    let mut left = left;
    match find_id(&left, row.id) {
        None => {
            audit.rows_only_recomputed = bump(audit.rows_only_recomputed);
            (audit, left)
        },
        Some(i) => {
            assert(before[i as int] == left@[i as int]@);
            let original = left.remove(i);
            assert(opportunity_views(left@) =~= before.remove(i as int));
            let list = differences(&original, row);
            if list.len() == 0 {
                assert(difference_views(list@).len() == 0);
                audit.rows_matched = bump(audit.rows_matched);
                (audit, left)
            } else {
                (count_differences(audit, scan_id, row, &list), left)
            }
        },
    }
}

fn compare_rows(audit: Audit, stored: Vec<Opportunity>, scan_id: u128, rows: &Vec<Opportunity>) -> (result: (
    Audit,
    Vec<Opportunity>,
))
    ensures
        (Comparison { tally: result.0@, left: opportunity_views(result.1@) }) == all_compared(
            Comparison { tally: audit@, left: opportunity_views(stored@) },
            scan_id as int,
            opportunity_views(rows@),
        ),
{
    let ghost all = opportunity_views(rows@);
    let ghost start = Comparison { tally: audit@, left: opportunity_views(stored@) };
    let mut audit = audit;
    let mut left = stored;
    let mut i: usize = 0;
    while i < rows.len()
        invariant
            i <= rows@.len(),
            all == opportunity_views(rows@),
            (Comparison { tally: audit@, left: opportunity_views(left@) }) == all_compared(
                start,
                scan_id as int,
                all.take(i as int),
            ),
        decreases rows@.len() - i,
    {
        proof {
            take_next(all, i as int);
        }
        let (next, rest) = compare_row(audit, left, scan_id, &rows[i]);
        audit = next;
        left = rest;
        i = i + 1;
    }
    (audit, left)
}

/// The tally inside an optional audit.
pub open spec fn tally_of(audit: Option<Audit>) -> Option<Tally> {
    match audit {
        Some(audit) => Some(audit@),
        None => None,
    }
}

impl Audit {
    pub fn new() -> (result: Audit)
        ensures
            result@ == fresh_tally(),
    {
        Audit {
            frames: 0,
            frames_audited: 0,
            frames_skipped: 0,
            rows_stored: 0,
            rows_recomputed: 0,
            rows_matched: 0,
            rows_only_stored: 0,
            rows_only_recomputed: 0,
            mismatches: 0,
            samples: Vec::new(),
        }
    }

    /// Audits one more frame; `None` where a number overflows.
    pub fn frame(self, frame: &Frame) -> (result: Option<Audit>)
        ensures
            tally_of(result) == frame_audited(self@, frame@),
    {
        let mut audit = self;
        audit.frames = bump(audit.frames);
        let live = same(frame.origin.as_str(), "live") && frame.has_books();
        match &frame.settings {
            Some(settings) if live => {
                let at = frame.evaluated_at;
                let evaluable = consensus_markets(&frame.markets, &frame.quotes, settings, at);
                let rows = evaluate_books(
                    settings,
                    &evaluable,
                    &frame.books,
                    &frame.portfolio,
                    at,
                )?;
                audit.frames_audited = bump(audit.frames_audited);
                audit.rows_stored = raise(audit.rows_stored, frame.opportunities.len());
                audit.rows_recomputed = raise(audit.rows_recomputed, rows.len());
                let stored = index_rows(&frame.opportunities);
                assert(opportunity_views(rows@).len() == rows@.len());
                let (mut done, left) = compare_rows(audit, stored, frame.scan_id, &rows);
                assert(opportunity_views(left@).len() == left@.len());
                done.rows_only_stored = raise(done.rows_only_stored, left.len());
                Some(done)
            },
            _ => {
                audit.frames_skipped = bump(audit.frames_skipped);
                Some(audit)
            },
        }
    }
}

/// What a text says as an instant: a full time stamp, or the start of a day.
pub open spec fn instant_in(text: Seq<char>) -> Result<int, Failure> {
    match rfc3339(text) {
        Ok(instant) => Ok(instant),
        Err(_) => match date_number(text, "%Y-%m-%d"@) {
            Ok(day) => Ok(midnight(day)),
            Err(message) => Err(
                Failure::Config("time "@ + quoted(text) + ": "@ + message),
            ),
        },
    }
}

/// Reads a time stamp, or a day as its start.
pub fn parse_time(text: &str) -> (result: Result<Timestamp, Error>)
    ensures
        match result {
            Ok(instant) => instant_in(text@) == Ok::<int, Failure>(instant@),
            Err(e) => instant_in(text@) == Err::<int, Failure>(e@),
        },
{
    match parse_rfc3339(text) {
        Ok(instant) => Ok(instant),
        Err(_) => match parse_day(text) {
            Ok(instant) => Ok(instant),
            Err(message) => Err(
                Error::Config(
                    concat4("time ", quote(text).as_str(), ": ", message.as_str()),
                ),
            ),
        },
    }
}

/// How far back a replay reaches unless told: thirty days.
pub const DEFAULT_WINDOW_NANOS: i128 = 2_592_000_000_000_000;

/// The window of a replay, or what is wrong with it: it may not reach past now
/// and must not be empty.
pub open spec fn window(from: Option<Seq<char>>, through: Option<Seq<char>>, now: int) -> Result<
    (int, int),
    Failure,
> {
    let end = match through {
        Some(text) => instant_in(text),
        None => Ok(now),
    };
    match end {
        Err(f) => Err(f),
        Ok(end) => if end > now {
            Err(
                Failure::Config(
                    "--through "@ + printed(end)
                        + " is in the future; a replay cannot see past now"@,
                ),
            )
        } else {
            let start = match from {
                Some(text) => instant_in(text),
                None => if end - DEFAULT_WINDOW_NANOS < -INSTANT_LIMIT {
                    Err(Failure::Overflow)
                } else {
                    Ok(end - DEFAULT_WINDOW_NANOS)
                },
            };
            match start {
                Err(f) => Err(f),
                Ok(start) => if start >= end {
                    Err(
                        Failure::Config(
                            "--from "@ + printed(start) + " must precede --through "@
                                + printed(end),
                        ),
                    )
                } else {
                    Ok((start, end))
                },
            }
        },
    }
}

/// The window of a replay.
pub fn replay_window(from: &Option<String>, through: &Option<String>, now: Timestamp) -> (result:
    Result<(Timestamp, Timestamp), Error>)
    ensures
        match result {
            Ok((start, end)) => window(
                crate::text::text_of(*from),
                crate::text::text_of(*through),
                now@,
            ) == Ok::<(int, int), Failure>((start@, end@)),
            Err(e) => window(
                crate::text::text_of(*from),
                crate::text::text_of(*through),
                now@,
            ) == Err::<(int, int), Failure>(e@),
        },
{
    let end = match through {
        Some(text) => match parse_time(text.as_str()) {
            Ok(end) => end,
            Err(e) => {
                return Err(e);
            },
        },
        None => now,
    };
    if now.before(end) {
        return Err(
            Error::Config(
                concat3(
                    "--through ",
                    end.to_text().as_str(),
                    " is in the future; a replay cannot see past now",
                ),
            ),
        );
    }
    let start = match from {
        Some(text) => match parse_time(text.as_str()) {
            Ok(start) => start,
            Err(e) => {
                return Err(e);
            },
        },
        None => match Timestamp::from_nanos(end.nanos() - DEFAULT_WINDOW_NANOS) {
            Some(start) => start,
            None => {
                return Err(Error::Overflow);
            },
        },
    };
    if !start.before(end) {
        return Err(
            Error::Config(
                concat4(
                    "--from ",
                    start.to_text().as_str(),
                    " must precede --through ",
                    end.to_text().as_str(),
                ),
            ),
        );
    }
    Ok((start, end))
}

/// A replay window lies in the past and holds some time.
pub proof fn windows_end_by_now(from: Option<Seq<char>>, through: Option<Seq<char>>, now: int)
    ensures
        window(from, through, now) matches Ok((start, end)) ==> start < end <= now,
{
}

} // verus!
