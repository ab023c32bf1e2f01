//! What a replay has at risk: the sum of what its open positions can lose,
//! within the cap.

use vstd::prelude::*;

use crate::accounts::{lemma_due_accounts, played, runs_keep_the_accounts, Shown};
use crate::decimal::{
    exact_sum, fits, lemma_negated, lemma_pow10_positive, lemma_sum_fits, lemma_value_at,
    lemma_value_sign, nearest_even, negated, pow10, rounded, sum, sum_is_exact, total, zero, Dec,
    MANTISSA_LIMIT, MAX_SCALE,
};
use crate::domain::{Book, Market, Portfolio, Position, Row};
use crate::metrics::drawdowns_are_not_negative;
use crate::paper::{exposure, losses};
use crate::replay::{
    ended, frame_counted, frame_rows, fresh_run, looked_at, looked_through, order_met, orders_met,
    reported, resolved, row_taken, rows_taken, settled_due, stepped, tried_open, unlooked, Books, Moment,
    Options, Order, Outcome, Run,
};
use crate::seqs::group_seqs;
use crate::sizing::digit;

verus! {

broadcast use group_seqs;

/// What positions can lose in all, in units of the finest digit.
pub open spec fn losses_value(positions: Seq<Position>) -> int
    decreases positions.len(),
{
    if positions.len() == 0 {
        0
    } else {
        losses_value(positions.drop_last()) + positions.last().maximum_loss.value()
    }
}

/// Whether what a position can lose is written at no finer scale than `scale`,
/// and still fits there on top of the cap.
pub open spec fn plain_loss(position: Position, cap: Dec, scale: nat) -> bool {
    &&& position.maximum_loss.wf()
    &&& position.maximum_loss.scale <= scale
    &&& position.maximum_loss.value() + cap.value() < MANTISSA_LIMIT * digit(scale)
}

/// Whether that holds of every position of a list.
pub open spec fn plain_losses(positions: Seq<Position>, cap: Dec, scale: nat) -> bool {
    forall|i: int| 0 <= i < positions.len() ==> plain_loss(#[trigger] positions[i], cap, scale)
}

/// Whether that holds of every position that was ever filled.
pub open spec fn plain_book(portfolio: Portfolio, cap: Dec, scale: nat) -> bool {
    plain_losses(portfolio.open_positions, cap, scale) && plain_losses(
        portfolio.closed_positions,
        cap,
        scale,
    )
}

/// Whether each position can lose something.
pub open spec fn all_at_risk(positions: Seq<Position>) -> bool {
    forall|i: int| 0 <= i < positions.len() ==> zero().lt((#[trigger] positions[i]).maximum_loss)
}

/// The exposure is the sum of the open losses, with `rest` still to be looked
/// at, and within the cap.
pub open spec fn exposed(portfolio: Portfolio, rest: int, cap: Dec, scale: nat) -> bool {
    &&& portfolio.open_exposure.wf()
    &&& portfolio.open_exposure.scale <= scale
    &&& portfolio.open_exposure.value() == losses_value(portfolio.open_positions) + rest
    &&& portfolio.open_exposure.le(cap)
    &&& all_at_risk(portfolio.open_positions)
    &&& all_at_risk(portfolio.closed_positions)
}

proof fn lemma_losses_positive(positions: Seq<Position>)
    requires
        all_at_risk(positions),
    ensures
        losses_value(positions) >= 0,
    decreases positions.len(),
{
    lemma_value_sign(zero());
    if positions.len() > 0 {
        let front = positions.drop_last();
        assert forall|i: int| 0 <= i < front.len() implies zero().lt(
            (#[trigger] front[i]).maximum_loss,
        ) by {
            assert(front[i] == positions[i]);
        }
        assert(zero().lt(positions[positions.len() - 1].maximum_loss));
        lemma_losses_positive(front);
    }
}

proof fn lemma_losses_push(positions: Seq<Position>, position: Position)
    ensures
        losses_value(positions.push(position)) == losses_value(positions)
            + position.maximum_loss.value(),
{
    assert(positions.push(position).drop_last() =~= positions);
}

proof fn lemma_at_risk_push(positions: Seq<Position>, position: Position)
    requires
        all_at_risk(positions),
        zero().lt(position.maximum_loss),
    ensures
        all_at_risk(positions.push(position)),
{
    let more = positions.push(position);
    assert forall|i: int| 0 <= i < more.len() implies zero().lt(
        (#[trigger] more[i]).maximum_loss,
    ) by {
        if i < positions.len() {
            assert(more[i] == positions[i]);
        }
    }
}

proof fn lemma_plain_push(positions: Seq<Position>, position: Position, cap: Dec, scale: nat)
    requires
        plain_losses(positions.push(position), cap, scale),
    ensures
        plain_losses(positions, cap, scale),
        plain_loss(position, cap, scale),
{
    let more = positions.push(position);
    assert(more[positions.len() as int] == position);
    assert forall|i: int| 0 <= i < positions.len() implies plain_loss(
        #[trigger] positions[i],
        cap,
        scale,
    ) by {
        assert(more[i] == positions[i]);
    }
}

/// Two plain amounts add up exactly, as far as their sum fits.
proof fn lemma_amounts(a: Dec, b: Dec, scale: nat)
    requires
        a.wf() && b.wf(),
        a.scale <= scale <= MAX_SCALE,
        b.scale <= scale,
        0 <= a.value() < MANTISSA_LIMIT * digit(scale),
        -MANTISSA_LIMIT * digit(scale) < b.value() < MANTISSA_LIMIT * digit(scale),
        0 <= a.value() + b.value() < MANTISSA_LIMIT * digit(scale),
    ensures
        sum(a, b) == Some(exact_sum(a, b)),
        crate::decimal::sum_is_exact(a, b),
        exact_sum(a, b).wf(),
        exact_sum(a, b).scale <= scale,
        exact_sum(a, b).value() == a.value() + b.value(),
{
    lemma_pow10_positive((MAX_SCALE - scale) as nat);
    lemma_value_at(a, scale);
    lemma_value_at(b, scale);
    let (x, y, p) = (a.at(scale), b.at(scale), digit(scale));
    assert((x + y) * p == x * p + y * p) by (nonlinear_arith);
    assert(-MANTISSA_LIMIT * p < 0) by (nonlinear_arith)
        requires
            p > 0,
    ;
    lemma_within(x, p);
    lemma_within(y, p);
    lemma_within(x + y, p);
    lemma_sum_fits(a, b, scale);
    let c = exact_sum(a, b);
    lemma_pow10_positive((scale - c.scale) as nat);
    let (m, q) = (c.mantissa, pow10((scale - c.scale) as nat));
    assert(m >= 0 ==> m <= m * q) by (nonlinear_arith)
        requires
            q >= 1,
    ;
    assert(m <= 0 ==> m >= m * q) by (nonlinear_arith)
        requires
            q >= 1,
    ;
}

proof fn lemma_within(m: int, p: int)
    requires
        p > 0,
        -MANTISSA_LIMIT * p < m * p < MANTISSA_LIMIT * p,
    ensures
        fits(m),
{
    assert(m < MANTISSA_LIMIT) by (nonlinear_arith)
        requires
            m * p < MANTISSA_LIMIT * p,
            p > 0,
    ;
    assert(-MANTISSA_LIMIT < m) by (nonlinear_arith)
        requires
            -MANTISSA_LIMIT * p < m * p,
            p > 0,
    ;
}

proof fn lemma_opening(r: Run, position: Position, cap: Dec, scale: nat)
    requires
        scale <= MAX_SCALE,
        cap == r.options.settings.maximum_total_exposure,
        zero().le(cap),
        plain_book(r.portfolio, cap, scale) ==> exposed(r.portfolio, 0, cap, scale),
    ensures
        tried_open(r, position) matches Some(after) ==> after.options == r.options && (plain_book(
            after.portfolio,
            cap,
            scale,
        ) ==> exposed(after.portfolio, 0, cap, scale)),
{
    lemma_value_sign(zero());
    if let Some(after) = tried_open(r, position) {
        if after.portfolio != r.portfolio && plain_book(after.portfolio, cap, scale) {
            let open = r.portfolio.open_positions;
            lemma_plain_push(open, position, cap, scale);
            lemma_losses_positive(open);
            lemma_losses_push(open, position);
            lemma_at_risk_push(open, position);
            lemma_amounts(r.portfolio.open_exposure, position.maximum_loss, scale);
        }
    }
}

proof fn lemma_looking(
    start: Books,
    positions: Seq<Position>,
    outcomes: Map<Seq<char>, Outcome>,
    options: Options,
    now: int,
    cap: Dec,
    scale: nat,
)
    requires
        scale <= MAX_SCALE,
        start.portfolio.open_positions.len() == 0,
    ensures
        looked_through(start, positions, outcomes, options, now) matches Some(after) ==> (plain_book(
            after.portfolio,
            cap,
            scale,
        ) ==> plain_book(start.portfolio, cap, scale) && plain_losses(positions, cap, scale)),
    decreases positions.len(),
{
    if positions.len() > 0 {
        let front = positions.drop_last();
        let last = positions.last();
        lemma_looking(start, front, outcomes, options, now, cap, scale);
        if let Some(b) = looked_through(start, front, outcomes, options, now) {
            if let Some(after) = looked_at(b, last, outcomes, options, now) {
                if plain_book(after.portfolio, cap, scale) {
                    if after.portfolio.closed_positions == b.portfolio.closed_positions {
                        lemma_plain_push(b.portfolio.open_positions, last, cap, scale);
                    } else {
                        let done = after.portfolio.closed_positions.last();
                        assert(after.portfolio.closed_positions
                            =~= b.portfolio.closed_positions.push(done));
                        lemma_plain_push(b.portfolio.closed_positions, done, cap, scale);
                        assert(done.maximum_loss == last.maximum_loss);
                    }
                    assert forall|i: int| 0 <= i < positions.len() implies plain_loss(
                        #[trigger] positions[i],
                        cap,
                        scale,
                    ) by {
                        if i < front.len() {
                            assert(front[i] == positions[i]);
                        }
                    }
                }
            }
        }
    }
}

proof fn lemma_looking_keeps_exposure(
    start: Books,
    positions: Seq<Position>,
    outcomes: Map<Seq<char>, Outcome>,
    options: Options,
    now: int,
    cap: Dec,
    scale: nat,
    rest: int,
)
    requires
        scale <= MAX_SCALE,
        rest >= 0,
        exposed(start.portfolio, losses_value(positions) + rest, cap, scale),
        plain_losses(positions, cap, scale),
        all_at_risk(positions),
        cap.value() < MANTISSA_LIMIT * digit(scale),
    ensures
        looked_through(start, positions, outcomes, options, now) matches Some(after) ==> exposed(
            after.portfolio,
            rest,
            cap,
            scale,
        ),
    decreases positions.len(),
{
    lemma_value_sign(zero());
    if positions.len() > 0 {
        let front = positions.drop_last();
        let last = positions.last();
        assert forall|i: int| 0 <= i < front.len() implies plain_loss(
            #[trigger] front[i],
            cap,
            scale,
        ) && zero().lt(front[i].maximum_loss) by {
            assert(front[i] == positions[i]);
        }
        assert(plain_loss(positions[positions.len() - 1], cap, scale));
        assert(zero().lt(positions[positions.len() - 1].maximum_loss));
        let more = rest + last.maximum_loss.value();
        lemma_looking_keeps_exposure(
            start,
            front,
            outcomes,
            options,
            now,
            cap,
            scale,
            more,
        );
        if let Some(b) = looked_through(start, front, outcomes, options, now) {
            let open = b.portfolio.open_positions;
            lemma_losses_positive(open);
            lemma_losses_push(open, last);
            lemma_at_risk_push(open, last);
            lemma_negated(last.maximum_loss);
            let n = negated(last.maximum_loss);
            lemma_amounts(b.portfolio.open_exposure, n, scale);
            if let Some(after) = looked_at(b, last, outcomes, options, now) {
                let closed = b.portfolio.closed_positions;
                if after.portfolio.closed_positions != closed {
                    let done = after.portfolio.closed_positions.last();
                    assert(after.portfolio.closed_positions =~= closed.push(done));
                    lemma_at_risk_push(closed, done);
                }
            }
        }
    }
}

/// Whether the exposure is in order in a run whose filled positions are plain.
pub open spec fn sound(r: Run, scale: nat) -> bool {
    let cap = r.options.settings.maximum_total_exposure;
    plain_book(r.portfolio, cap, scale) ==> exposed(r.portfolio, 0, cap, scale)
}

proof fn lemma_due(r: Run, outcomes: Map<Seq<char>, Outcome>, now: int, scale: nat)
    requires
        scale <= MAX_SCALE,
        sound(r, scale),
        zero().le(r.options.settings.maximum_total_exposure),
        r.options.settings.maximum_total_exposure.value() < MANTISSA_LIMIT * digit(scale),
    ensures
        settled_due(r, outcomes, now) matches Some(due) ==> sound(due, scale) && due.options
            == r.options,
{
    let cap = r.options.settings.maximum_total_exposure;
    let held = r.portfolio.open_positions;
    let start = unlooked(r);
    lemma_looking(start, held, outcomes, r.options, now, cap, scale);
    if let Some(b) = looked_through(start, held, outcomes, r.options, now) {
        if plain_book(b.portfolio, cap, scale) {
            assert(exposed(r.portfolio, 0, cap, scale));
            assert(losses_value(start.portfolio.open_positions) == 0);
            lemma_looking_keeps_exposure(start, held, outcomes, r.options, now, cap, scale, 0);
        }
    }
}

proof fn lemma_order(
    r: Run,
    order: Order,
    markets: Seq<Market>,
    books: Seq<Book>,
    now: int,
    scale: nat,
)
    requires
        scale <= MAX_SCALE,
        sound(r, scale),
        zero().le(r.options.settings.maximum_total_exposure),
    ensures
        order_met(r, order, markets, books, now) matches Some(after) ==> sound(after, scale)
            && after.options == r.options,
{
    let cap = r.options.settings.maximum_total_exposure;
    let counted = Run { partial_fills: crate::textmap::bumped(r.partial_fills), ..r };
    if let (Some(market), Some(book)) = (
        crate::replay::market_of(markets, order.row.market_id),
        crate::scanner::book_of(books, order.row.market_slug),
    ) {
        let plain = crate::domain::position_of(order.row, now);
        lemma_opening(r, plain, cap, scale);
        if let Some(s) = crate::replay::refilled(order.row, market, book) {
            let position = crate::replay::filled_position(order.row, s, now);
            lemma_opening(r, position, cap, scale);
            lemma_opening(counted, position, cap, scale);
        }
    }
}

proof fn lemma_orders(
    r: Run,
    orders: Seq<Order>,
    markets: Seq<Market>,
    books: Seq<Book>,
    now: int,
    scale: nat,
)
    requires
        scale <= MAX_SCALE,
        sound(r, scale),
        zero().le(r.options.settings.maximum_total_exposure),
    ensures
        orders_met(r, orders, markets, books, now) matches Some(after) ==> sound(after, scale)
            && after.options == r.options,
    decreases orders.len(),
{
    if orders.len() > 0 {
        lemma_orders(r, orders.drop_last(), markets, books, now, scale);
        if let Some(next) = orders_met(r, orders.drop_last(), markets, books, now) {
            lemma_order(next, orders.last(), markets, books, now, scale);
        }
    }
}

proof fn lemma_row(r: Run, row: Row, books: Seq<Book>, now: int, scale: nat)
    requires
        scale <= MAX_SCALE,
        sound(r, scale),
        zero().le(r.options.settings.maximum_total_exposure),
    ensures
        row_taken(r, row, books, now) matches Some(after) ==> sound(after, scale) && after.options
            == r.options,
{
    if let Some(seen) = crate::replay::observed(row, books) {
        let ordered = Run {
            rows_by_class: crate::textmap::tallied(r.rows_by_class, row.class.label()),
            observations: crate::replay::kept_last(r.observations, seen),
            submitted: crate::textmap::bumped(r.submitted),
            ..r
        };
        lemma_opening(
            ordered,
            crate::domain::position_of(row, now),
            r.options.settings.maximum_total_exposure,
            scale,
        );
    }
}

proof fn lemma_rows(r: Run, rows: Seq<Row>, books: Seq<Book>, now: int, scale: nat)
    requires
        scale <= MAX_SCALE,
        sound(r, scale),
        zero().le(r.options.settings.maximum_total_exposure),
    ensures
        rows_taken(r, rows, books, now) matches Some(after) ==> sound(after, scale)
            && after.options == r.options,
    decreases rows.len(),
{
    if rows.len() > 0 {
        lemma_rows(r, rows.drop_last(), books, now, scale);
        if let Some(next) = rows_taken(r, rows.drop_last(), books, now) {
            lemma_row(next, rows.last(), books, now, scale);
        }
    }
}

proof fn lemma_frame(r: Run, frame: Moment, outcomes: Map<Seq<char>, Outcome>, scale: nat)
    requires
        scale <= MAX_SCALE,
        sound(r, scale),
        zero().le(r.options.settings.maximum_total_exposure),
        r.options.settings.maximum_total_exposure.value() < MANTISSA_LIMIT * digit(scale),
    ensures
        stepped(r, frame, outcomes) matches Some(after) ==> sound(after, scale) && after.options
            == r.options,
{
    let now = frame.evaluated_at;
    let counted = frame_counted(r, frame);
    lemma_due(counted, outcomes, now, scale);
    if let Some(due) = settled_due(counted, outcomes, now) {
        let start = Run { pending: seq![], ..due };
        lemma_orders(start, due.pending, frame.markets, frame.books, now, scale);
        if let (Some(rows), Some(met)) = (
            frame_rows(due, frame),
            resolved(due, frame.markets, frame.books, now),
        ) {
            lemma_rows(met, rows, frame.books, now, scale);
        }
    }
}

/// After any frames the exposure is the sum of what the open positions can lose,
/// each of them something, and within the cap: as long as these amounts can be
/// added without rounding, all of them written at some `scale`.
pub proof fn exposure_is_the_sum_within_the_cap(
    options: Options,
    frames: Seq<Shown>,
    scale: nat,
)
    requires
        scale <= MAX_SCALE,
        zero().le(options.settings.maximum_total_exposure),
        options.settings.maximum_total_exposure.value() < MANTISSA_LIMIT * digit(scale),
    ensures
        played(options, frames) matches Some(r) ==> r.options == options && (plain_book(
            r.portfolio,
            options.settings.maximum_total_exposure,
            scale,
        ) ==> {
            &&& r.portfolio.open_exposure.value() == losses_value(r.portfolio.open_positions)
            &&& r.portfolio.open_exposure.le(options.settings.maximum_total_exposure)
            &&& all_at_risk(r.portfolio.open_positions)
            &&& all_at_risk(r.portfolio.closed_positions)
        }),
{
    lemma_run(options, frames, scale);
}

proof fn lemma_run(options: Options, frames: Seq<Shown>, scale: nat)
    requires
        scale <= MAX_SCALE,
        zero().le(options.settings.maximum_total_exposure),
        options.settings.maximum_total_exposure.value() < MANTISSA_LIMIT * digit(scale),
    ensures
        played(options, frames) matches Some(r) ==> r.options == options && sound(r, scale),
    decreases frames.len(),
{
    lemma_value_sign(zero());
    if frames.len() > 0 {
        lemma_run(options, frames.drop_last(), scale);
        if let Some(r) = played(options, frames.drop_last()) {
            lemma_frame(r, frames.last().frame, frames.last().outcomes, scale);
        }
    } else {
        assert(losses_value(fresh_run(options).portfolio.open_positions) == 0);
    }
}

proof fn lemma_total_of_losses(positions: Seq<Position>, cap: Dec, scale: nat)
    requires
        scale <= MAX_SCALE,
        zero().le(cap),
        plain_losses(positions, cap, scale),
        all_at_risk(positions),
        losses_value(positions) < MANTISSA_LIMIT * digit(scale),
    ensures
        losses_total(positions) matches Some(t) && t.wf() && t.scale <= scale && t.value()
            == losses_value(positions),
    decreases positions.len(),
{
    lemma_value_sign(zero());
    if positions.len() > 0 {
        let front = positions.drop_last();
        let last = positions.last();
        assert forall|i: int| 0 <= i < front.len() implies plain_loss(
            #[trigger] front[i],
            cap,
            scale,
        ) && zero().lt(front[i].maximum_loss) by {
            assert(front[i] == positions[i]);
        }
        assert(plain_loss(positions[positions.len() - 1], cap, scale));
        assert(zero().lt(positions[positions.len() - 1].maximum_loss));
        lemma_losses_positive(front);
        lemma_total_of_losses(front, cap, scale);
        assert(losses(positions).drop_last() =~= losses(front));
        lemma_amounts(losses_total(front)->0, last.maximum_loss, scale);
    }
}

/// The sum of what positions can lose.
spec fn losses_total(positions: Seq<Position>) -> Option<Dec> {
    total(losses(positions))
}

/// A whole number more is a whole number more after rounding too.
proof fn lemma_rounding_shifts(m: int, c: int, d: int)
    requires
        d > 0,
        c % 2 == 0,
    ensures
        nearest_even(m + c * d, d) == nearest_even(m, d) + c,
{
    vstd::arithmetic::div_mod::lemma_fundamental_div_mod(m, d);
    vstd::arithmetic::div_mod::lemma_mod_bound(m, d);
    let (low, rest) = (m / d, m % d);
    assert(m + c * d == (low + c) * d + rest) by (nonlinear_arith)
        requires
            m == d * low + rest,
    ;
    vstd::arithmetic::div_mod::lemma_fundamental_div_mod_converse(m + c * d, d, low + c, rest);
}

/// A whole base and an amount, added exactly and then rounded to cents of a
/// cent, are the base and the rounded amount.
proof fn lemma_rounded_sum(base: Dec, amount: Dec)
    requires
        base.wf(),
        base.scale == 0,
        amount.wf(),
        sum_is_exact(base, amount),
    ensures
        rounded(exact_sum(base, amount), 4).value() == base.value() + rounded(amount, 4).value(),
{
    lemma_value_sign(zero());
    lemma_value_sign(base);
    lemma_value_sign(amount);
    let s = amount.scale;
    if amount.mantissa == 0 {
        if s > 4 {
            let d = pow10((s - 4) as nat);
            lemma_pow10_positive((s - 4) as nat);
            lemma_rounding_shifts(0, 0, d);
            vstd::arithmetic::div_mod::lemma_fundamental_div_mod_converse(0, d, 0, 0);
            lemma_value_sign(rounded(amount, 4));
        }
        if base.mantissa == 0 {
            lemma_value_sign(rounded(exact_sum(base, amount), 4));
        }
    } else if base.mantissa == 0 {
    } else {
        crate::decimal::lemma_exact_sum(base, amount);
        if s > 4 {
            let rest = (s - 4) as nat;
            let d = pow10(rest);
            lemma_pow10_positive(rest);
            crate::decimal::lemma_pow10_adds(4, rest);
            vstd::arithmetic::power::lemma_pow0(10);
            let b = base.mantissa;
            let c = b * pow10(4);
            reveal_with_fuel(vstd::arithmetic::power::pow, 5);
            assert(pow10(4) == 10_000);
            assert(c % 2 == 0);
            let m = amount.mantissa;
            assert(amount.at(s) == m) by (nonlinear_arith)
                requires
                    amount.at(s) == m * pow10(0),
                    pow10(0) == 1,
            ;
            assert(base.at(s) == c * d) by (nonlinear_arith)
                requires
                    base.at(s) == b * pow10(s),
                    pow10(4) * d == pow10(s),
                    c == b * pow10(4),
            ;
            lemma_rounding_shifts(m, c, d);
            let n = nearest_even(m, d);
            let q = pow10(24);
            crate::decimal::lemma_pow10_adds(4, 24);
            assert((n + c) * q == n * q + c * q) by (nonlinear_arith);
            assert(c * q == b * pow10(28)) by (nonlinear_arith)
                requires
                    c == b * pow10(4),
                    pow10(4) * q == pow10(28),
            ;
        }
    }
}

/// What a report says of the results: a drawdown is not negative; where nothing
/// was settled nothing was earned or risked; a return is given exactly where
/// something was settled, as long as the settled losses add up without
/// rounding; and the final bankroll is a whole first one and what was earned,
/// as long as that sum needs none.
pub proof fn reports_show_the_results(
    options: Options,
    frames: Seq<Shown>,
    outcomes: Map<Seq<char>, Outcome>,
    through: int,
    generated_at: int,
    scale: nat,
)
    requires
        scale <= MAX_SCALE,
        zero().le(options.settings.maximum_total_exposure),
        options.settings.maximum_total_exposure.value() < MANTISSA_LIMIT * digit(scale),
        options.settings.bankroll.wf(),
        options.settings.bankroll.scale == 0,
        frames.len() < usize::MAX,
        played(options, frames) is Some,
        played(options, frames)->0.submitted < usize::MAX,
        ended(played(options, frames)->0, outcomes, through) is Some,
    ensures
        ({
            let done = ended(played(options, frames)->0, outcomes, through)->0;
            let closed = done.portfolio.closed_positions;
            let cap = options.settings.maximum_total_exposure;
            let base = options.settings.bankroll;
            let realized = done.portfolio.realized_pnl;
            reported(done, outcomes, generated_at) matches Some(report) ==> {
                &&& zero().le(report.paper.drawdown.amount)
                &&& report.paper.settled == 0 ==> report.paper.realized_pnl == zero()
                    && report.paper.risked == zero() && report.paper.roi_on_risk is None
                &&& report.paper.settled > 0 && plain_book(done.portfolio, cap, scale)
                    && losses_value(closed) < MANTISSA_LIMIT * digit(scale)
                    ==> report.paper.roi_on_risk is Some
                &&& realized.wf() && sum_is_exact(base, realized)
                    ==> report.paper.final_bankroll.value() == base.value()
                    + report.paper.realized_pnl.value()
            }
        }),
{
    let r = played(options, frames)->0;
    let done = ended(r, outcomes, through)->0;
    let closed = done.portfolio.closed_positions;
    let cap = options.settings.maximum_total_exposure;
    let base = options.settings.bankroll;
    let realized = done.portfolio.realized_pnl;
    lemma_value_sign(zero());
    lemma_run(options, frames, scale);
    lemma_due(r, outcomes, through, scale);
    runs_keep_the_accounts(options, frames);
    lemma_due_accounts(r, outcomes, through, 0);
    let due = settled_due(r, outcomes, through)->0;
    assert(done.portfolio == due.portfolio);
    drawdowns_are_not_negative(done.equity);
    if closed.len() == 0 {
        assert(losses(closed) =~= seq![]);
        assert(exposure(closed) == Some(zero()));
    } else if plain_book(done.portfolio, cap, scale) && losses_value(closed) < MANTISSA_LIMIT
        * digit(scale) {
        lemma_total_of_losses(closed, cap, scale);
        let front = closed.drop_last();
        assert forall|i: int| 0 <= i < front.len() implies zero().lt(
            (#[trigger] front[i]).maximum_loss,
        ) by {
            assert(front[i] == closed[i]);
        }
        lemma_losses_positive(front);
        assert(zero().lt(closed[closed.len() - 1].maximum_loss));
    }
    if realized.wf() && sum_is_exact(base, realized) {
        lemma_rounded_sum(base, realized);
    }
}

} // verus!
