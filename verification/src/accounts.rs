//! What always adds up in a replay, whatever its frames and outcomes.

use vstd::prelude::*;

use crate::decimal::{sum, zero, Dec};
use crate::domain::{Book, Market, OutcomeSide, Portfolio, Position, Row};
use crate::replay::{
    ended, every_frame_counts_once, frame_counted, frame_rows, fresh_run,
    lemma_meeting_keeps_counts, lemma_rows_keep_counts, looked_through, order_met, orders_met, reported, resolved, rows_taken, settled_due, stepped, tallied_times,
    unlooked, waits, Books, Moment, Options, Order, Outcome, Run,
};
use crate::risk::holds_side;
use crate::seqs::group_seqs;
use crate::textmap::{tallied, tally};

verus! {

broadcast use group_seqs;

/// How many orders were left unfilled, over the reasons that there are.
pub open spec fn left_unfilled(counts: Map<Seq<char>, usize>) -> int {
    tally(counts, "market started"@) + tally(counts, "price moved through limit"@) + tally(
        counts,
        "no book in next frame"@,
    ) + tally(counts, "window ended"@)
}

/// Whether a reason is one of those for which an order is left unfilled.
pub open spec fn known_reason(reason: Seq<char>) -> bool {
    reason == "market started"@ || reason == "price moved through limit"@ || reason
        == "no book in next frame"@ || reason == "window ended"@
}

/// The bankroll is what the run started with and what it realized since.
pub open spec fn bankroll_follows(base: Dec, portfolio: Portfolio) -> bool {
    sum(base, portfolio.realized_pnl) == Some(portfolio.bankroll) || (portfolio.bankroll == base
        && portfolio.realized_pnl == zero())
}

/// The accounts of a run in which `owed` submitted orders are still to be
/// met: every submitted order was filled, blocked, left unfilled or waits, every
/// filled one is open or closed, and the curve has a point for each closed one.
pub open spec fn accounted(r: Run, owed: int) -> bool {
    &&& 0 <= owed
    &&& 0 <= r.filled
    &&& 0 <= r.blocked_by_exposure
    &&& r.submitted <= usize::MAX
    &&& r.submitted == r.filled + r.blocked_by_exposure + left_unfilled(r.unfilled)
        + r.pending.len() + owed
    &&& r.filled == r.portfolio.open_positions.len() + r.portfolio.closed_positions.len()
    &&& r.equity.len() == r.portfolio.closed_positions.len()
    &&& bankroll_follows(r.options.settings.bankroll, r.portfolio)
    &&& r.portfolio.closed_positions.len() == 0 ==> r.portfolio.realized_pnl == zero()
    &&& forall|reason: Seq<char>| #[trigger]
        r.unfilled.contains_key(reason) ==> known_reason(reason)
}

proof fn lemma_reasons_differ()
    ensures
        "market started"@.len() == 14,
        "price moved through limit"@.len() == 25,
        "no book in next frame"@.len() == 21,
        "window ended"@.len() == 12,
{
    reveal_strlit("market started");
    reveal_strlit("price moved through limit");
    reveal_strlit("no book in next frame");
    reveal_strlit("window ended");
}

proof fn lemma_one_more_unfilled(counts: Map<Seq<char>, usize>, reason: Seq<char>)
    requires
        known_reason(reason),
        left_unfilled(counts) < usize::MAX,
    ensures
        left_unfilled(tallied(counts, reason)) == left_unfilled(counts) + 1,
{
    lemma_reasons_differ();
}

proof fn lemma_more_unfilled(counts: Map<Seq<char>, usize>, n: nat)
    requires
        left_unfilled(counts) + n <= usize::MAX,
        forall|reason: Seq<char>| #[trigger] counts.contains_key(reason) ==> known_reason(reason),
    ensures
        left_unfilled(tallied_times(counts, "window ended"@, n)) == left_unfilled(counts) + n,
        forall|reason: Seq<char>| #[trigger]
            tallied_times(counts, "window ended"@, n).contains_key(reason) ==> known_reason(reason),
    decreases n,
{
    if n > 0 {
        lemma_more_unfilled(counts, (n - 1) as nat);
        lemma_one_more_unfilled(
            tallied_times(counts, "window ended"@, (n - 1) as nat),
            "window ended"@,
        );
    }
}

proof fn lemma_look_accounts(
    start: Books,
    positions: Seq<Position>,
    outcomes: Map<Seq<char>, Outcome>,
    options: Options,
    now: int,
)
    requires
        start.equity.len() == start.portfolio.closed_positions.len(),
        bankroll_follows(options.settings.bankroll, start.portfolio),
        start.portfolio.closed_positions.len() == 0 ==> start.portfolio.realized_pnl == zero(),
    ensures
        looked_through(start, positions, outcomes, options, now) matches Some(after) ==> {
            &&& after.portfolio.open_positions.len() + after.portfolio.closed_positions.len()
                == start.portfolio.open_positions.len() + start.portfolio.closed_positions.len()
                + positions.len()
            &&& after.equity.len() == after.portfolio.closed_positions.len()
            &&& bankroll_follows(options.settings.bankroll, after.portfolio)
            &&& after.portfolio.closed_positions.len() == 0 ==> after.portfolio.realized_pnl
                == zero()
        },
    decreases positions.len(),
{
    if positions.len() > 0 {
        lemma_look_accounts(start, positions.drop_last(), outcomes, options, now);
    }
}

pub(crate) proof fn lemma_due_accounts(r: Run, outcomes: Map<Seq<char>, Outcome>, now: int, owed: int)
    requires
        accounted(r, owed),
    ensures
        settled_due(r, outcomes, now) matches Some(due) ==> accounted(due, owed) && due.submitted
            == r.submitted && due.pending == r.pending,
{
    lemma_look_accounts(unlooked(r), r.portfolio.open_positions, outcomes, r.options, now);
}

proof fn lemma_order_accounts(
    r: Run,
    order: Order,
    markets: Seq<Market>,
    books: Seq<Book>,
    now: int,
    owed: int,
)
    requires
        owed >= 1,
        accounted(r, owed),
    ensures
        order_met(r, order, markets, books, now) matches Some(after) ==> accounted(after, owed - 1)
            && after.submitted == r.submitted,
{
    lemma_one_more_unfilled(r.unfilled, "market started"@);
    lemma_one_more_unfilled(r.unfilled, "price moved through limit"@);
    lemma_one_more_unfilled(r.unfilled, "no book in next frame"@);
}

proof fn lemma_orders_account(
    r: Run,
    orders: Seq<Order>,
    markets: Seq<Market>,
    books: Seq<Book>,
    now: int,
    owed: int,
)
    requires
        owed >= orders.len(),
        accounted(r, owed),
    ensures
        orders_met(r, orders, markets, books, now) matches Some(after) ==> accounted(
            after,
            owed - orders.len(),
        ) && after.submitted == r.submitted,
    decreases orders.len(),
{
    if orders.len() > 0 {
        lemma_orders_account(r, orders.drop_last(), markets, books, now, owed);
        if let Some(next) = orders_met(r, orders.drop_last(), markets, books, now) {
            lemma_order_accounts(
                next,
                orders.last(),
                markets,
                books,
                now,
                owed - orders.drop_last().len(),
            );
        }
    }
}

proof fn lemma_rows_account(r: Run, rows: Seq<Row>, books: Seq<Book>, now: int)
    requires
        accounted(r, 0),
    ensures
        rows_taken(r, rows, books, now) matches Some(after) ==> after.submitted >= r.submitted && (
        after.submitted < usize::MAX ==> accounted(after, 0)),
    decreases rows.len(),
{
    if rows.len() > 0 {
        lemma_rows_account(r, rows.drop_last(), books, now);
    }
}

/// One more frame leaves the accounts in order, as long as the counter of
/// submitted orders does not reach its largest number.
pub proof fn frames_keep_the_accounts(r: Run, frame: Moment, outcomes: Map<Seq<char>, Outcome>)
    requires
        accounted(r, 0),
    ensures
        stepped(r, frame, outcomes) matches Some(after) ==> (after.submitted < usize::MAX
            ==> accounted(after, 0)),
{
    let now = frame.evaluated_at;
    let counted = frame_counted(r, frame);
    assert(accounted(counted, 0));
    lemma_due_accounts(counted, outcomes, now, 0);
    if let Some(due) = settled_due(counted, outcomes, now) {
        let start = Run { pending: seq![], ..due };
        lemma_orders_account(
            start,
            due.pending,
            frame.markets,
            frame.books,
            now,
            due.pending.len() as int,
        );
        if let (Some(rows), Some(met)) = (
            frame_rows(due, frame),
            resolved(due, frame.markets, frame.books, now),
        ) {
            lemma_rows_account(met, rows, frame.books, now);
        }
    }
}

/// A frame, and the outcomes that are known when it comes.
pub struct Shown {
    pub frame: Moment,
    pub outcomes: Map<Seq<char>, Outcome>,
}

/// The run after some frames in turn, from the first; missing on overflow.
pub open spec fn played(options: Options, frames: Seq<Shown>) -> Option<Run>
    decreases frames.len(),
{
    if frames.len() == 0 {
        Some(fresh_run(options))
    } else {
        match played(options, frames.drop_last()) {
            Some(r) => stepped(r, frames.last().frame, frames.last().outcomes),
            None => None,
        }
    }
}

proof fn lemma_meeting_submits_nothing(
    r: Run,
    orders: Seq<Order>,
    markets: Seq<Market>,
    books: Seq<Book>,
    now: int,
)
    ensures
        orders_met(r, orders, markets, books, now) matches Some(after) ==> after.submitted
            == r.submitted,
    decreases orders.len(),
{
    if orders.len() > 0 {
        lemma_meeting_submits_nothing(r, orders.drop_last(), markets, books, now);
    }
}

proof fn lemma_rows_submit_more(r: Run, rows: Seq<Row>, books: Seq<Book>, now: int)
    ensures
        rows_taken(r, rows, books, now) matches Some(after) ==> after.submitted >= r.submitted,
    decreases rows.len(),
{
    if rows.len() > 0 {
        lemma_rows_submit_more(r, rows.drop_last(), books, now);
    }
}

proof fn lemma_frame_submits_more(r: Run, frame: Moment, outcomes: Map<Seq<char>, Outcome>)
    ensures
        stepped(r, frame, outcomes) matches Some(after) ==> after.submitted >= r.submitted,
{
    let now = frame.evaluated_at;
    if let Some(due) = settled_due(frame_counted(r, frame), outcomes, now) {
        let start = Run { pending: seq![], ..due };
        lemma_meeting_submits_nothing(start, due.pending, frame.markets, frame.books, now);
        if let (Some(rows), Some(met)) = (
            frame_rows(due, frame),
            resolved(due, frame.markets, frame.books, now),
        ) {
            lemma_rows_submit_more(met, rows, frame.books, now);
        }
    }
}

proof fn lemma_fresh_accounts(options: Options)
    ensures
        accounted(fresh_run(options), 0),
{
    assert(left_unfilled(Map::empty()) == 0);
}

/// The accounts of a run after `n` frames.
pub open spec fn in_balance(r: Run, n: int) -> bool {
    &&& r.submitted < usize::MAX ==> accounted(r, 0)
    &&& r.frames == n
    &&& r.frames == r.frames_recomputed + r.frames_stored
    &&& r.frames_recomputed >= 0
    &&& r.frames_stored >= 0
}

proof fn lemma_frame_keeps_counts_whole(r: Run, frame: Moment, outcomes: Map<Seq<char>, Outcome>)
    requires
        r.frames_recomputed >= 0,
        r.frames_stored >= 0,
    ensures
        stepped(r, frame, outcomes) matches Some(after) ==> after.frames_recomputed >= 0
            && after.frames_stored >= 0,
{
    let now = frame.evaluated_at;
    if let Some(due) = settled_due(frame_counted(r, frame), outcomes, now) {
        let start = Run { pending: seq![], ..due };
        lemma_meeting_keeps_counts(start, due.pending, frame.markets, frame.books, now);
        if let (Some(rows), Some(met)) = (
            frame_rows(due, frame),
            resolved(due, frame.markets, frame.books, now),
        ) {
            lemma_rows_keep_counts(met, rows, frame.books, now);
        }
    }
}

/// After any frames the accounts are in order and each frame was counted once,
/// as long as the counters stay below their largest number.
pub proof fn runs_keep_the_accounts(options: Options, frames: Seq<Shown>)
    requires
        frames.len() < usize::MAX,
    ensures
        played(options, frames) matches Some(r) ==> in_balance(r, frames.len() as int),
    decreases frames.len(),
{
    if frames.len() == 0 {
        lemma_fresh_accounts(options);
    } else {
        let before = frames.drop_last();
        let (frame, outcomes) = (frames.last().frame, frames.last().outcomes);
        runs_keep_the_accounts(options, before);
        if let Some(r) = played(options, before) {
            lemma_frame_submits_more(r, frame, outcomes);
            every_frame_counts_once(r, frame, outcomes);
            lemma_frame_keeps_counts_whole(r, frame, outcomes);
            if r.submitted < usize::MAX {
                frames_keep_the_accounts(r, frame, outcomes);
            }
        }
    }
}

/// The report on any run adds up: every submitted order was filled, blocked or
/// left unfilled for one of four reasons and no other, every filled one was
/// settled or is still open, the curve has a point for each settled one, every frame was decided again or stored, every
/// observation was graded or not, and nothing is approved. This holds as long
/// as the counters stay below their largest number.
pub proof fn reports_add_up(
    options: Options,
    frames: Seq<Shown>,
    outcomes: Map<Seq<char>, Outcome>,
    through: int,
    generated_at: int,
)
    requires
        frames.len() < usize::MAX,
        played(options, frames) is Some,
        played(options, frames)->0.submitted < usize::MAX,
        ended(played(options, frames)->0, outcomes, through) is Some,
    ensures
        reported(
            ended(played(options, frames)->0, outcomes, through)->0,
            outcomes,
            generated_at,
        ) matches Some(report) ==> {
            &&& report.paper.submitted == report.paper.filled + report.paper.blocked_by_exposure
                + left_unfilled(report.paper.unfilled)
            &&& forall|reason: Seq<char>| #[trigger]
                report.paper.unfilled.contains_key(reason) ==> known_reason(reason)
            &&& report.paper.filled == report.paper.settled + report.paper.unsettled_open
            &&& report.paper.equity.len() == report.paper.settled
            &&& report.frames == frames.len()
            &&& report.frames == report.frames_recomputed + report.frames_stored
            &&& report.observations == report.graded_observations + report.ungraded_observations
            &&& !report.production_approved
        },
{
    let r = played(options, frames)->0;
    runs_keep_the_accounts(options, frames);
    lemma_due_accounts(r, outcomes, through, 0);
    let due = settled_due(r, outcomes, through)->0;
    lemma_more_unfilled(due.unfilled, due.pending.len());
}

/// After a run has ended, its bankroll is what it started with and what it
/// realized since.
pub proof fn bankroll_is_base_and_realized(
    options: Options,
    frames: Seq<Shown>,
    outcomes: Map<Seq<char>, Outcome>,
    through: int,
)
    requires
        frames.len() < usize::MAX,
        played(options, frames) is Some,
        played(options, frames)->0.submitted < usize::MAX,
    ensures
        ended(played(options, frames)->0, outcomes, through) matches Some(done)
            ==> bankroll_follows(done.options.settings.bankroll, done.portfolio),
{
    let r = played(options, frames)->0;
    runs_keep_the_accounts(options, frames);
    lemma_due_accounts(r, outcomes, through, 0);
}

/// No two positions are on one side of a market.
pub open spec fn positions_distinct(positions: Seq<Position>) -> bool {
    forall|i: int, j: int|
        0 <= i < j < positions.len() ==> !((#[trigger] positions[i]).market_id == (
        #[trigger] positions[j]).market_id && positions[i].side == positions[j].side)
}

/// No two orders are for one side of a market.
pub open spec fn orders_distinct(orders: Seq<Order>) -> bool {
    forall|i: int, j: int|
        0 <= i < j < orders.len() ==> !((#[trigger] orders[i]).row.market_id == (
        #[trigger] orders[j]).row.market_id && orders[i].row.side == orders[j].row.side)
}

/// No side is held twice, waited for twice, or held and waited for.
pub open spec fn one_each(r: Run) -> bool {
    &&& positions_distinct(r.portfolio.open_positions)
    &&& orders_distinct(r.pending)
    &&& forall|i: int|
        0 <= i < r.pending.len() ==> !holds_side(
            r.portfolio,
            (#[trigger] r.pending[i]).row.market_id,
            r.pending[i].row.side,
        )
}

proof fn lemma_looking_keeps_apart(
    start: Books,
    positions: Seq<Position>,
    outcomes: Map<Seq<char>, Outcome>,
    options: Options,
    now: int,
)
    requires
        start.portfolio.open_positions.len() == 0,
        positions_distinct(positions),
    ensures
        looked_through(start, positions, outcomes, options, now) matches Some(after) ==> {
            &&& positions_distinct(after.portfolio.open_positions)
            &&& forall|i: int|
                0 <= i < after.portfolio.open_positions.len() ==> positions.contains(
                    #[trigger] after.portfolio.open_positions[i],
                )
        },
    decreases positions.len(),
{
    if positions.len() > 0 {
        let front = positions.drop_last();
        lemma_looking_keeps_apart(start, front, outcomes, options, now);
        if let Some(b) = looked_through(start, front, outcomes, options, now) {
            let open = b.portfolio.open_positions;
            assert(positions[positions.len() - 1] == positions.last());
            assert forall|i: int| 0 <= i < open.len() implies positions.contains(
                #[trigger] open[i],
            ) && !(open[i].market_id == positions.last().market_id && open[i].side
                == positions.last().side) by {
                let k = choose|k: int| 0 <= k < front.len() && front[k] == open[i];
                assert(positions[k] == open[i]);
            }
        }
    }
}

proof fn lemma_meeting_keeps_out(
    r: Run,
    orders: Seq<Order>,
    markets: Seq<Market>,
    books: Seq<Book>,
    now: int,
    market_id: Seq<char>,
    side: OutcomeSide,
)
    requires
        !holds_side(r.portfolio, market_id, side),
        !waits(r.pending, market_id, side),
        !waits(orders, market_id, side),
    ensures
        orders_met(r, orders, markets, books, now) matches Some(after) ==> !holds_side(
            after.portfolio,
            market_id,
            side,
        ) && !waits(after.pending, market_id, side),
    decreases orders.len(),
{
    if orders.len() > 0 {
        let front = orders.drop_last();
        assert forall|i: int| 0 <= i < front.len() implies !((#[trigger] front[i]).row.market_id
            == market_id && front[i].row.side == side) by {
            assert(front[i] == orders[i]);
        }
        assert(orders[orders.len() - 1] == orders.last());
        lemma_meeting_keeps_out(r, front, markets, books, now, market_id, side);
    }
}

proof fn lemma_meeting_keeps_apart(
    r: Run,
    orders: Seq<Order>,
    markets: Seq<Market>,
    books: Seq<Book>,
    now: int,
)
    requires
        r.pending.len() == 0,
        one_each(Run { pending: orders, ..r }),
    ensures
        orders_met(r, orders, markets, books, now) matches Some(after) ==> one_each(after),
    decreases orders.len(),
{
    if orders.len() > 0 {
        let front = orders.drop_last();
        let last = orders.last();
        assert(orders[orders.len() - 1] == last);
        assert forall|i: int| 0 <= i < front.len() implies front[i] == orders[i] by {}
        lemma_meeting_keeps_apart(r, front, markets, books, now);
        lemma_meeting_keeps_out(
            r,
            front,
            markets,
            books,
            now,
            last.row.market_id,
            last.row.side,
        );
    }
}

proof fn lemma_rows_keep_apart(r: Run, rows: Seq<Row>, books: Seq<Book>, now: int)
    requires
        one_each(r),
    ensures
        rows_taken(r, rows, books, now) matches Some(after) ==> one_each(after),
    decreases rows.len(),
{
    if rows.len() > 0 {
        lemma_rows_keep_apart(r, rows.drop_last(), books, now);
    }
}

/// After any frames no side of a market is held twice, waited for twice, or
/// held and waited for.
pub proof fn sides_are_taken_once(options: Options, frames: Seq<Shown>)
    ensures
        played(options, frames) matches Some(r) ==> one_each(r),
    decreases frames.len(),
{
    if frames.len() > 0 {
        sides_are_taken_once(options, frames.drop_last());
        let outcomes = frames.last().outcomes;
        if let Some(r) = played(options, frames.drop_last()) {
            let frame = frames.last().frame;
            let now = frame.evaluated_at;
            let counted = frame_counted(r, frame);
            let held = r.portfolio.open_positions;
            lemma_looking_keeps_apart(unlooked(counted), held, outcomes, r.options, now);
            if let Some(due) = settled_due(counted, outcomes, now) {
                let open = due.portfolio.open_positions;
                assert forall|i: int| 0 <= i < due.pending.len() implies !holds_side(
                    due.portfolio,
                    (#[trigger] due.pending[i]).row.market_id,
                    due.pending[i].row.side,
                ) by {
                    assert(!holds_side(
                        r.portfolio,
                        r.pending[i].row.market_id,
                        r.pending[i].row.side,
                    ));
                    assert forall|j: int| 0 <= j < open.len() implies held.contains(
                        #[trigger] open[j],
                    ) by {}
                }
                let start = Run { pending: seq![], ..due };
                assert(one_each(Run { pending: due.pending, ..start }));
                lemma_meeting_keeps_apart(start, due.pending, frame.markets, frame.books, now);
                if let (Some(rows), Some(met)) = (
                    frame_rows(due, frame),
                    resolved(due, frame.markets, frame.books, now),
                ) {
                    lemma_rows_keep_apart(met, rows, frame.books, now);
                }
            }
        }
    }
}

} // verus!
