//! What a book gives an order, and what becomes of it in a replay.

use vstd::prelude::*;

use crate::decimal::{
    difference, exact_sum, lemma_value_sign, one, plus, product, quotient, rounded, sum, unit, zero,
    Dec, MANTISSA_LIMIT, MAX_SCALE,
};
use crate::domain::{Book, Market, OutcomeSide, Position, Row};
use crate::laws::numbers::lemma_sum_at;
use crate::metrics::digest;
use crate::replay::{
    candidate_lines, edge_bounds, edges_in, efficiency_of, ended, filled_position, frame_counted,
    frame_rows, grades, looked_at, looked_through, market_of, order_filled, orders_met,
    order_met, paper_record, position_lines, position_results, refilled, reported, resolved,
    return_on_risk, rows_taken, row_taken, settled_due, side_rungs, stepped, still_offered,
    tried_open, unlooked, Books, Moment, Options, Order, Outcome, Run,
};
use crate::risk::{
    depth, fee, filled, fits_portfolio, floor_to, largest_take, level_filled, limits, loss, offered,
    offers_at, opened, sized, taken, unfilled, Fill, Limits, Rung, Sized,
};
use crate::seqs::group_seqs;
use crate::sizing::digit;

verus! {

broadcast use group_seqs;

/// Whether a level may be taken at or below a price: something is there, at a
/// price above zero and no higher than that, for a YES price between zero and
/// one.
pub open spec fn there_for(rung: Rung, ceiling: Dec) -> bool {
    &&& 0 < rung.side_price.value() <= ceiling.value()
    &&& 0 < rung.yes_price.value() < unit()
    &&& 0 < rung.quantity.value()
}

proof fn lemma_there(rung: Rung, ceiling: Dec)
    ensures
        offers_at(rung, ceiling) <==> there_for(rung, ceiling),
{
    crate::laws::settling::lemma_one();
    lemma_value_sign(zero());
}

/// What may be taken at or below a price, added up.
pub open spec fn all_there(levels: Seq<Rung>, ceiling: Dec) -> int
    decreases levels.len(),
{
    if levels.len() == 0 {
        0
    } else {
        all_there(levels.drop_last(), ceiling) + if there_for(levels.last(), ceiling) {
            levels.last().quantity.value()
        } else {
            0
        }
    }
}

/// The depth at or below a price is the sum of what may be taken there, where
/// it can be written at one scale.
pub proof fn depth_is_what_may_be_taken(levels: Seq<Rung>, ceiling: Dec, scale: nat)
    requires
        scale <= MAX_SCALE,
        forall|i: int|
            0 <= i < levels.len() ==> (#[trigger] levels[i]).quantity.scale <= scale,
        all_there(levels, ceiling) < MANTISSA_LIMIT * digit(scale),
    ensures
        depth(levels, ceiling) matches Some(d) && d.scale <= scale && d.value() == all_there(
            levels,
            ceiling,
        ),
        0 <= all_there(levels, ceiling),
    decreases levels.len(),
{
    lemma_value_sign(zero());
    if levels.len() > 0 {
        let front = levels.drop_last();
        let last = levels.len() - 1;
        lemma_all_there(front, ceiling);
        assert forall|i: int| 0 <= i < front.len() implies (#[trigger] front[i]).quantity.scale
            <= scale by {
            assert(front[i] == levels[i]);
        }
        assert(levels[last].quantity.scale <= scale);
        depth_is_what_may_be_taken(front, ceiling, scale);
        lemma_there(levels.last(), ceiling);
        if there_for(levels.last(), ceiling) {
            lemma_sum_at(depth(front, ceiling)->0, levels.last().quantity, scale);
        }
    }
}

proof fn lemma_all_there(levels: Seq<Rung>, ceiling: Dec)
    ensures
        0 <= all_there(levels, ceiling),
    decreases levels.len(),
{
    if levels.len() > 0 {
        lemma_all_there(levels.drop_last(), ceiling);
    }
}

/// A level that may not be taken gives nothing, and one that may gives no less
/// than nothing.
pub proof fn only_eligible_levels_are_taken(fill: Fill, rung: Rung, limits: Limits)
    ensures
        !there_for(rung, limits.ceiling) ==> level_filled(fill, rung, limits) == Some(fill),
{
    lemma_there(rung, limits.ceiling);
}

/// Taking from a level adds the quantity, its cost at the level's price, and the
/// venue's fee on it; the order pays the sum of the rounded fees or the rounded
/// sum of the fees, whichever is less.
pub proof fn taking_costs_price_and_fee(fill: Fill, rung: Rung, take: Dec, limits: Limits)
    ensures
        taken(fill, rung, take, limits) matches Some(next) ==> {
            &&& sum(fill.quantity, take) == Some(next.quantity)
            &&& product(take, rung.side_price) matches Some(cost) && sum(fill.gross, cost) == Some(
                next.gross,
            )
            &&& fee(limits.coefficient, take, rung.yes_price) matches Some(f) && sum(
                fill.rounded_fees,
                rounded(f, 2),
            ) == Some(next.rounded_fees) && sum(fill.exact_fees, f) == Some(next.exact_fees)
            &&& next.fee.value() <= next.rounded_fees.value()
            &&& next.fee.value() <= rounded(next.exact_fees, 2).value()
            &&& next.fee == next.rounded_fees || next.fee == rounded(next.exact_fees, 2)
        },
{
}

/// A sized position costs its average price for each contract and its fee on
/// top, which together are the most it can lose.
pub proof fn positions_can_lose_what_they_cost(levels: Seq<Rung>, limits: Limits)
    ensures
        sized(levels, limits) matches Some(s) ==> (s.quantity.value() > 0 ==> exists|gross: Dec|
            {
                &&& #[trigger] quotient(gross, s.quantity) == Some(s.average_side_price)
                &&& sum(gross, s.estimated_fee) == Some(s.maximum_loss)
                &&& filled(levels, limits) matches Some(fill) && fill.gross == gross
                    && fill.quantity == s.quantity && fill.fee == s.estimated_fee
            }),
        sized(levels, limits) matches Some(s) ==> (s.quantity.value() <= 0 ==> s.maximum_loss.value()
            == 0 && s.estimated_fee.value() == 0),
{
    lemma_value_sign(zero());
    if let Some(s) = sized(levels, limits) {
        if s.quantity.value() > 0 {
            let fill = filled(levels, limits)->0;
            assert(quotient(fill.gross, s.quantity) == Some(s.average_side_price));
        }
    }
}

proof fn lemma_from_nothing(rung: Rung, take: Dec, limits: Limits)
    ensures
        taken(unfilled(), rung, take, limits) matches Some(next) ==> next.quantity == take
            && product(take, rung.side_price) == Some(next.gross) && (fee(
            limits.coefficient,
            take,
            rung.yes_price,
        ) matches Some(f) && next.fee == rounded(f, 2)),
{
}

/// At a single level a position takes the most whole increments that are there
/// and can be afforded, or the next more would cost above the budget; its fee is
/// the venue's, rounded to cents.
pub proof fn one_level_is_taken_as_far_as_the_budget_goes(rung: Rung, limits: Limits)
    ensures
        sized(seq![rung], limits) matches Some(s) ==> (s.quantity.value() > 0 ==> {
            &&& fee(limits.coefficient, s.quantity, rung.yes_price) matches Some(f)
                && s.estimated_fee == rounded(f, 2)
            &&& product(s.quantity, rung.side_price) matches Some(cost) && sum(
                cost,
                s.estimated_fee,
            ) == Some(s.maximum_loss)
            &&& s.maximum_loss.value() <= limits.budget.value()
            &&& floor_to(rung.quantity, limits.step) matches Some(whole) && (plus(
                Some(rung.side_price),
                fee(limits.coefficient, one(), rung.yes_price),
            ) matches Some(each) && (quotient(limits.budget, each) matches Some(affordable)
                && (floor_to(
                if affordable.value() < whole.value() {
                    affordable
                } else {
                    whole
                },
                limits.step,
            ) matches Some(first) && (s.quantity == first || exists|more: Dec|
                {
                    &&& #[trigger] difference(more, limits.step) == Some(s.quantity)
                    &&& taken(unfilled(), rung, more, limits) matches Some(next) && (loss(
                        next,
                    ) matches Some(l) && limits.budget.value() < l.value())
                }))))
        }),
{
    lemma_value_sign(zero());
    let levels = seq![rung];
    assert(levels.drop_last() =~= seq![]);
    assert(levels.last() == rung);
    assert(filled(levels.drop_last(), limits) == Some(unfilled()));
    assert(filled(levels, limits) == level_filled(unfilled(), rung, limits));
    if let Some(s) = sized(levels, limits) {
        if s.quantity.value() > 0 {
            let b = limits.budget;
            lemma_value_sign(b);
            lemma_less_nothing(b);
            let whole = floor_to(rung.quantity, limits.step)->0;
            let each = plus(
                Some(rung.side_price),
                fee(limits.coefficient, one(), rung.yes_price),
            )->0;
            let affordable = quotient(b, each)->0;
            let first = floor_to(whole.min(affordable), limits.step)->0;
            lemma_largest(rung, first, limits);
        }
    }
}

proof fn lemma_less_nothing(b: Dec)
    requires
        b.mantissa != 0,
    ensures
        difference(b, zero()) == Some(b),
{
}

proof fn lemma_largest(rung: Rung, take: Dec, limits: Limits)
    ensures
        largest_take(unfilled(), rung, take, limits) matches Some(next) ==> next == unfilled() || {
            &&& taken(unfilled(), rung, next.quantity, limits) == Some(next)
            &&& loss(next) matches Some(l) && l.value() <= limits.budget.value()
            &&& next.quantity == take || exists|more: Dec|
                {
                    &&& #[trigger] difference(more, limits.step) == Some(next.quantity)
                    &&& taken(unfilled(), rung, more, limits) matches Some(over) && (loss(
                        over,
                    ) matches Some(l) && limits.budget.value() < l.value())
                }
        },
    decreases crate::risk::at_least_zero(take.value()),
{
    lemma_value_sign(zero());
    if !take.le(zero()) {
        if let Some(next) = taken(unfilled(), rung, take, limits) {
            lemma_from_nothing(rung, take, limits);
            if let Some(l) = loss(next) {
                if !l.le(limits.budget) {
                    if let Some(smaller) = difference(take, limits.step) {
                        if smaller.lt(take) {
                            lemma_value_sign(take);
                            lemma_largest(rung, smaller, limits);
                        }
                    }
                }
            }
        }
    }
}

/// A waiting order is sized again for what it risked, under its market's fee and
/// increment, at no more than its own price; and becomes a position of that
/// size and cost, otherwise as decided.
pub proof fn waiting_orders_keep_their_risk_and_price(
    row: Row,
    market: Market,
    book: Book,
    s: Sized,
    now: int,
)
    ensures
        side_rungs(book, row.side) matches Some(levels) ==> refilled(row, market, book) == sized(
            levels,
            limits(
                row.maximum_loss,
                market.fee_coefficient,
                market.minimum_quantity,
                row.executable_price,
            ),
        ) && (depth(levels, row.executable_price) matches Some(d) ==> still_offered(
            row,
            market,
            book,
        ) == floor_to(d, market.minimum_quantity)),
        ({
            let p = filled_position(row, s, now);
            &&& p.quantity == s.quantity
            &&& p.entry_price == s.average_side_price
            &&& p.estimated_fee == s.estimated_fee
            &&& p.maximum_loss == s.maximum_loss
            &&& p.market_id == row.market_id
            &&& p.event_id == row.event_id
            &&& p.side == row.side
            &&& p.fair_probability == row.fair_probability
            &&& p.start_time == Some(row.start_time)
            &&& p.opened_at == now
            &&& p.realized_pnl is None
        }),
{
}

/// A position that fits is opened and counted as filled; one that does not is
/// counted as blocked, and nothing else changes.
pub proof fn what_does_not_fit_is_blocked(r: Run, position: Position)
    requires
        0 <= r.filled < usize::MAX,
        0 <= r.blocked_by_exposure < usize::MAX,
    ensures
        tried_open(r, position) matches Some(after) ==> {
            let fits = fits_portfolio(
                r.portfolio,
                position.maximum_loss,
                r.options.settings.maximum_total_exposure,
            );
            &&& fits is Some
            &&& fits == Some(true) ==> after.portfolio == opened(r.portfolio, position)
                && after.filled == r.filled + 1 && after.blocked_by_exposure
                == r.blocked_by_exposure
            &&& fits == Some(false) ==> after.portfolio == r.portfolio && after.filled == r.filled
                && after.blocked_by_exposure == r.blocked_by_exposure + 1
            &&& after.pending == r.pending && after.unfilled == r.unfilled && after.submitted
                == r.submitted && after.observations == r.observations
        },
{
}

/// A frame first settles what is due, decides its rows on what is then held,
/// lets the waiting orders meet its books, and only then takes its rows.
pub proof fn frames_settle_before_they_decide(
    r: Run,
    frame: Moment,
    outcomes: Map<Seq<char>, Outcome>,
)
    ensures
        stepped(r, frame, outcomes) matches Some(after) ==> (settled_due(
            frame_counted(r, frame),
            outcomes,
            frame.evaluated_at,
        ) matches Some(due) && (frame_rows(due, frame) matches Some(rows) && (orders_met(
            Run { pending: seq![], ..due },
            due.pending,
            frame.markets,
            frame.books,
            frame.evaluated_at,
        ) matches Some(met) && rows_taken(met, rows, frame.books, frame.evaluated_at) == Some(
            after,
        )))),
        frame_counted(r, frame).last_input_at == Some(frame.evaluated_at),
        r.first_input_at is Some ==> frame_counted(r, frame).first_input_at == r.first_input_at,
        r.first_input_at is None ==> frame_counted(r, frame).first_input_at == Some(
            frame.evaluated_at,
        ),
        frame_counted(r, frame).portfolio == r.portfolio,
        frame_counted(r, frame).pending == r.pending,
{
}

/// Settling looks at every open position once, in order, each on the books that
/// the ones before it left.
pub proof fn every_open_position_is_looked_at(
    start: Books,
    positions: Seq<Position>,
    position: Position,
    outcomes: Map<Seq<char>, Outcome>,
    options: Options,
    now: int,
)
    ensures
        looked_through(start, seq![], outcomes, options, now) == Some(start),
        looked_through(start, positions.push(position), outcomes, options, now)
            == match looked_through(start, positions, outcomes, options, now) {
            Some(b) => looked_at(b, position, outcomes, options, now),
            None => None,
        },
{
    assert(positions.push(position).drop_last() =~= positions);
}

/// Orders meet a frame in the order in which they wait, and rows are taken in
/// the order in which they were decided.
pub proof fn orders_and_rows_are_taken_in_turn(
    r: Run,
    orders: Seq<Order>,
    order: Order,
    rows: Seq<Row>,
    row: Row,
    markets: Seq<Market>,
    books: Seq<Book>,
    now: int,
)
    ensures
        orders_met(r, orders.push(order), markets, books, now) == match orders_met(
            r,
            orders,
            markets,
            books,
            now,
        ) {
            Some(next) => order_met(next, order, markets, books, now),
            None => None,
        },
        rows_taken(r, rows.push(row), books, now) == match rows_taken(r, rows, books, now) {
            Some(next) => row_taken(next, row, books, now),
            None => None,
        },
{
    assert(orders.push(order).drop_last() =~= orders);
    assert(rows.push(row).drop_last() =~= rows);
}

/// A market without a book in the frame, or not in the frame at all, leaves an
/// order unfilled, and so does a market that has started, each for that reason.
pub proof fn orders_without_a_market_are_dropped(
    r: Run,
    order: Order,
    markets: Seq<Market>,
    books: Seq<Book>,
    now: int,
)
    requires
        order.submitted_at < now,
    ensures
        market_of(markets, order.row.market_id) is None || crate::scanner::book_of(
            books,
            order.row.market_slug,
        ) is None ==> order_met(r, order, markets, books, now) == Some(
            crate::replay::not_filled(r, "no book in next frame"@),
        ),
        market_of(markets, order.row.market_id) is Some && crate::scanner::book_of(
            books,
            order.row.market_slug,
        ) is Some && market_of(markets, order.row.market_id)->0.start_time <= now ==> order_met(
            r,
            order,
            markets,
            books,
            now,
        ) == Some(crate::replay::not_filled(r, "market started"@)),
{
}

/// At the end of a window what is due is settled, and what still waits is
/// left unfilled.
pub proof fn a_window_ends_with_nothing_waiting(
    r: Run,
    outcomes: Map<Seq<char>, Outcome>,
    through: int,
)
    ensures
        ended(r, outcomes, through) matches Some(done) ==> done.pending.len() == 0 && (settled_due(
            r,
            outcomes,
            through,
        ) matches Some(due) && done.portfolio == due.portfolio && done.equity == due.equity
            && done.observations == r.observations && done.filled == r.filled),
{
}

/// The return on risk is what was realized over what was risked, to four digits,
/// and there is none where nothing was risked.
pub proof fn returns_are_over_what_was_risked(realized: Dec, risked: Dec)
    ensures
        risked.value() <= 0 ==> return_on_risk(realized, risked) == Some(None::<Dec>),
        risked.value() > 0 ==> (return_on_risk(realized, risked) matches Some(r) ==> (r matches Some(
            roi,
        ) && (quotient(realized, risked) matches Some(q) && roi == rounded(q, 4)))),
{
    lemma_value_sign(zero());
}

/// The paper record says what the run did: its counters, how many positions it
/// closed and left open, what they earned and risked, and their results and
/// closing-line values.
pub proof fn the_paper_record_says_what_was_done(r: Run)
    ensures
        paper_record(r) matches Some(p) ==> {
            let closed = r.portfolio.closed_positions;
            &&& p.submitted == r.submitted
            &&& p.filled == r.filled
            &&& p.partial_fills == r.partial_fills
            &&& p.blocked_by_exposure == r.blocked_by_exposure
            &&& p.unfilled == r.unfilled
            &&& p.settled == closed.len()
            &&& p.unsettled_open == r.portfolio.open_positions.len()
            &&& p.realized_pnl == rounded(r.portfolio.realized_pnl, 4)
            &&& p.final_bankroll == rounded(r.portfolio.bankroll, 4)
            &&& p.equity == r.equity
            &&& crate::decimal::total(
                closed.map_values(|x: Position| x.maximum_loss),
            ) matches Some(risked) && p.risked == rounded(risked, 4) && return_on_risk(
                r.portfolio.realized_pnl,
                risked,
            ) == Some(p.roi_on_risk)
            &&& digest(position_results(closed)) == Some(p.position_pnl)
            &&& digest(position_lines(closed)) == Some(p.closing_line_value)
            &&& crate::metrics::deepest(r.equity) == Some(p.drawdown)
        },
{
}

/// A report grades what was observed, scores it, groups its returns by edge and
/// holds the candidates to their close.
pub proof fn a_report_says_what_was_graded(
    r: Run,
    outcomes: Map<Seq<char>, Outcome>,
    generated_at: int,
)
    ensures
        reported(r, outcomes, generated_at) matches Some(report) ==> (grades(
            r.observations,
            outcomes,
        ) matches Some(graded) && {
            &&& report.generated_at == generated_at
            &&& report.observations == r.observations.len()
            &&& report.graded_observations == graded.len()
            &&& report.frames == r.frames
            &&& report.rows_by_class == r.rows_by_class
            &&& report.options == r.options
            &&& efficiency_of(graded) == Some(report.efficiency)
            &&& edges_in(graded, edge_bounds()) == Some(report.edge_buckets)
            &&& candidate_lines(graded, r.options.open_class) matches Some(lines) && digest(lines)
                == Some(report.candidate_closing_line_value)
            &&& paper_record(r) == Some(report.paper)
            &&& !report.production_approved
        }),
{
}

/// What the earlier levels cost is no longer there to spend: where it reaches the
/// budget, nothing more is taken.
pub proof fn spent_money_is_not_spent_again(
    fill: Fill,
    rung: Rung,
    limits: Limits,
    rest: Dec,
    left: Dec,
)
    requires
        difference(limits.budget, fill.gross) == Some(rest),
        difference(rest, fill.fee) == Some(left),
        left.value() <= 0,
    ensures
        level_filled(fill, rung, limits) matches Some(after) ==> after == fill,
{
    lemma_value_sign(left);
    lemma_value_sign(zero());
}

} // verus!
