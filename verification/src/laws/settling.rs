//! What a settlement pays and books.

use vstd::prelude::*;

use crate::decimal::{
    difference, lemma_pow10_max, lemma_value_sign, one, product, size, sum, total, unit, zero, Dec,
    MANTISSA_LIMIT, MAX_SCALE,
};
use crate::config::Policy;
use crate::domain::{
    effective_class, line_value, position_of, Evidence, OutcomeSide, Portfolio, Position, Row,
};
use crate::laws::numbers::{
    lemma_difference_at, lemma_near_difference, lemma_product_at,
};
use crate::paper::{
    closing, exposure, graded, opening, position_at, profit, regraded, reply_at,
    side_payout, Grading, Reply,
};
use crate::replay::{payout_on, Outcome};
use crate::risk::{event_losses, fits_portfolio, holds_side, opened};
use crate::seqs::group_seqs;
use crate::sizing::digit;

verus! {

broadcast use group_seqs;

pub proof fn lemma_one()
    ensures
        one().value() == unit(),
        one().wf(),
        unit() == 10_000_000_000_000_000_000_000_000_000,
{
    lemma_pow10_max();
    assert(1 * unit() == unit()) by (nonlinear_arith);
}

/// At any settlement from zero to one the two sides of a market share a dollar:
/// the long side is paid the settlement and the short side the rest of it.
pub proof fn the_sides_share_a_dollar(settlement: Dec)
    requires
        settlement.wf(),
        0 <= settlement.value() <= unit(),
    ensures
        side_payout(OutcomeSide::Long, settlement) matches Some(long) && long.value()
            == settlement.value(),
        side_payout(OutcomeSide::Short, settlement) matches Some(short) && short.value() == unit()
            - settlement.value(),
{
    lemma_one();
    lemma_near_difference(one(), settlement);
}

/// In a replay too: before a settlement neither side is paid, and at any
/// settlement from zero to one the two sides share a dollar.
pub proof fn replayed_sides_share_a_dollar(outcome: Outcome)
    ensures
        outcome.settlement is None ==> payout_on(outcome, OutcomeSide::Long) == Some(None::<Dec>)
            && payout_on(outcome, OutcomeSide::Short) == Some(None::<Dec>),
        outcome.settlement matches Some(s) ==> (s.wf() && 0 <= s.value() <= unit() ==> {
            &&& payout_on(outcome, OutcomeSide::Long) matches Some(Some(long)) && long.value()
                == s.value()
            &&& payout_on(outcome, OutcomeSide::Short) matches Some(Some(short)) && short.value()
                == unit() - s.value()
        }),
{
    if let Some(s) = outcome.settlement {
        if s.wf() && 0 <= s.value() <= unit() {
            lemma_one();
            lemma_near_difference(one(), s);
        }
    }
}

/// A replay pays a side what the paper book pays it.
pub proof fn replays_pay_as_the_paper_book(outcome: Outcome, side: OutcomeSide)
    requires
        outcome.settlement is Some,
        outcome.settlement->0.wf(),
        0 <= outcome.settlement->0.value() <= unit(),
    ensures
        payout_on(outcome, side) == Some(side_payout(side, outcome.settlement->0)),
{
    lemma_one();
    lemma_near_difference(one(), outcome.settlement->0);
}

/// What a position earns is its quantity times what each contract is paid above
/// its entry price, less the fee, where all of it can be written at one scale.
pub proof fn profit_is_what_is_paid_above_the_entry(position: Position, payout: Dec, scale: nat)
    requires
        payout.wf(),
        position.entry_price.wf(),
        position.quantity.wf(),
        position.estimated_fee.wf(),
        0 <= payout.value() <= unit(),
        0 <= position.entry_price.value() <= unit(),
        scale <= MAX_SCALE,
        position.quantity.scale + payout.scale <= scale,
        position.quantity.scale + position.entry_price.scale <= scale,
        position.estimated_fee.scale <= scale,
        size(position.quantity.value()) + size(position.estimated_fee.value()) < MANTISSA_LIMIT
            * digit(scale),
    ensures
        profit(position, Some(payout)) matches Some(realized) && (realized.value()
            + position.estimated_fee.value()) * unit() == position.quantity.value() * (
        payout.value() - position.entry_price.value()),
{
    lemma_one();
    let (q, f, u) = (position.quantity, position.estimated_fee, unit());
    let common = (scale - q.scale) as nat;
    lemma_near_difference(payout, position.entry_price);
    let gain = difference(payout, position.entry_price)->0;
    assert(gain.scale <= common);
    let (x, g) = (q.value(), gain.value());
    assert(size(x * g) <= size(x) * u) by (nonlinear_arith)
        requires
            -u <= g <= u,
            u > 0,
            size(x * g) == x * g || size(x * g) == -(x * g),
            size(x) == x || size(x) == -x,
            size(x) >= 0,
    ;
    assert(size(x) * u < MANTISSA_LIMIT * digit(scale) * u) by (nonlinear_arith)
        requires
            size(x) < MANTISSA_LIMIT * digit(scale),
            u > 0,
    ;
    lemma_product_at(q, gain, scale);
    let gross = product(q, gain)->0;
    let v = gross.value();
    assert(size(v) <= size(x)) by (nonlinear_arith)
        requires
            v * u == x * g,
            -u <= g <= u,
            u > 0,
            size(v) == v || size(v) == -v,
            size(x) == x || size(x) == -x,
            size(x) >= 0,
            size(x * g) <= size(x) * u,
            size(x * g) >= x * g,
            size(x * g) >= -(x * g),
    ;
    lemma_difference_at(gross, f, scale);
}

/// Opening records the row's own size, price and loss, dated now, with no
/// result yet.
pub proof fn a_position_is_the_row_as_decided(row: Row, now: int)
    ensures
        ({
            let p = position_of(row, now);
            &&& p.opportunity_id == row.id
            &&& p.event_id == row.event_id
            &&& p.market_id == row.market_id
            &&& p.market_slug == row.market_slug
            &&& p.side == row.side
            &&& p.quantity == row.quantity
            &&& p.entry_price == row.executable_price
            &&& p.fair_probability == row.fair_probability
            &&& p.estimated_fee == row.estimated_fee
            &&& p.maximum_loss == row.maximum_loss
            &&& p.start_time == Some(row.start_time)
            &&& p.opened_at == now
            &&& p.closing_price is None
            &&& p.settlement_payout is None
            &&& p.realized_pnl is None
            &&& p.closed_at is None
        }),
{
}

/// A portfolio opens a position by adding it and what it can lose; bankroll,
/// results and the other positions stay.
pub proof fn opening_adds_one_position(portfolio: Portfolio, position: Position, cap: Dec)
    requires
        fits_portfolio(portfolio, position.maximum_loss, cap) == Some(true),
    ensures
        ({
            let after = opened(portfolio, position);
            &&& after.open_positions == portfolio.open_positions.push(position)
            &&& after.closed_positions == portfolio.closed_positions
            &&& after.bankroll == portfolio.bankroll
            &&& after.realized_pnl == portfolio.realized_pnl
            &&& sum(portfolio.open_exposure, position.maximum_loss) == Some(after.open_exposure)
        }),
{
}

/// A loss fits exactly when it is positive, is within the bankroll, and keeps
/// the exposure within the cap.
pub proof fn what_fits_is_positive_and_within_both_limits(portfolio: Portfolio, most: Dec, cap: Dec)
    ensures
        fits_portfolio(portfolio, most, cap) == Some(true) <==> (0 < most.value()
            && most.value() <= portfolio.bankroll.value() && (sum(portfolio.open_exposure, most)
            matches Some(exposure) && exposure.value() <= cap.value())),
        fits_portfolio(portfolio, most, cap) is None ==> sum(portfolio.open_exposure, most) is None,
{
    lemma_value_sign(zero());
}

/// The losses of an event are those of its own open positions, and no others.
pub proof fn an_event_counts_its_own_positions(positions: Seq<Position>, event_id: Seq<char>)
    ensures
        event_losses(positions, event_id) =~= positions.filter(
            |p: Position| p.event_id == event_id,
        ).map_values(|p: Position| p.maximum_loss),
    decreases positions.len(),
{
    reveal(Seq::filter);
    if positions.len() > 0 {
        an_event_counts_its_own_positions(positions.drop_last(), event_id);
    }
}

/// Closing by hand takes the first open position with the identifier out, dates
/// it, and gives it no result; nothing is earned or lost.
pub proof fn closing_by_hand_has_no_result(portfolio: Portfolio, id: int, now: int, i: int)
    requires
        0 <= i < portfolio.open_positions.len(),
        portfolio.open_positions[i].opportunity_id == id,
        forall|j: int|
            0 <= j < i ==> (#[trigger] portfolio.open_positions[j]).opportunity_id != id,
    ensures
        closing(portfolio, id, now) matches Ok(after) ==> {
            let held = portfolio.open_positions[i];
            let done = after.closed_positions.last();
            &&& after.open_positions == portfolio.open_positions.remove(i)
            &&& after.closed_positions == portfolio.closed_positions.push(done)
            &&& after.bankroll == portfolio.bankroll
            &&& after.realized_pnl == portfolio.realized_pnl
            &&& done.closed_at == Some(now)
            &&& done.realized_pnl == held.realized_pnl
            &&& done.settlement_payout == held.settlement_payout
            &&& done.market_id == held.market_id
            &&& done.side == held.side
            &&& done.quantity == held.quantity
            &&& done.entry_price == held.entry_price
            &&& done.maximum_loss == held.maximum_loss
            &&& done.opportunity_id == id
        },
{
    lemma_first_position(portfolio.open_positions, id, 0, i);
}

proof fn lemma_first_position(positions: Seq<Position>, id: int, from: int, i: int)
    requires
        0 <= from <= i < positions.len(),
        positions[i].opportunity_id == id,
        forall|j: int| 0 <= j < i ==> (#[trigger] positions[j]).opportunity_id != id,
    ensures
        position_at(positions, id, from) == Some(i),
    decreases i - from,
{
    if from < i {
        lemma_first_position(positions, id, from + 1, i);
    }
}

/// The grading of one open position: before the start, or without a market to
/// ask about, it stays as it is; once started it keeps its first closing line,
/// taken from its own side; and where the market has settled it is closed with
/// its side's payout and its profit, which are added to what was earned.
pub proof fn a_started_position_is_graded(g: Grading, position: Position, reply: Reply, now: int)
    ensures
        graded(g, position, reply, now) matches Some(after) ==> {
            let started = position.market_slug.len() > 0 && position.start_time is Some
                && position.start_time->0 <= now;
            let line = if position.closing_price is Some || reply.closing is None {
                position.closing_price
            } else {
                let (long, short) = reply.closing->0;
                Some(if position.side is Long { long } else { short })
            };
            if !started {
                after.open == g.open.push(position) && after.closed == g.closed && after.realized
                    == g.realized && after.gained == g.gained && after.lines == g.lines
                    && after.settled == g.settled
            } else {
                &&& after.lines == g.lines + if position.closing_price is None
                    && reply.closing is Some {
                    1nat
                } else {
                    0nat
                }
                &&& reply.settlement is None ==> {
                    &&& after.open == g.open.push(
                        Position { closing_price: line, ..position },
                    )
                    &&& after.closed == g.closed
                    &&& after.realized == g.realized
                    &&& after.gained == g.gained
                    &&& after.settled == g.settled
                }
                &&& reply.settlement matches Some(s) ==> {
                    let paid = side_payout(position.side, s);
                    let earned = profit(position, paid);
                    &&& paid is Some
                    &&& earned is Some
                    &&& after.open == g.open
                    &&& after.closed == g.closed.push(
                        Position {
                            closing_price: line,
                            settlement_payout: paid,
                            realized_pnl: earned,
                            closed_at: Some(now),
                            ..position
                        },
                    )
                    &&& sum(g.realized, earned->0) == Some(after.realized)
                    &&& sum(g.gained, earned->0) == Some(after.gained)
                    &&& after.settled == g.settled + 1
                }
            }
        },
{
}

/// The closing-line value of a position is what the market closed above its
/// entry price.
pub proof fn a_line_is_worth_what_the_close_is_above_the_entry(position: Position)
    requires
        position.entry_price.wf(),
        0 <= position.entry_price.value() <= unit(),
        position.closing_price matches Some(c) ==> c.wf() && 0 <= c.value() <= unit(),
    ensures
        position.closing_price is None ==> line_value(position) is None,
        position.closing_price matches Some(c) ==> (line_value(position) matches Some(v)
            && v.value() == c.value() - position.entry_price.value()),
{
    lemma_one();
    if let Some(c) = position.closing_price {
        lemma_near_difference(c, position.entry_price);
    }
}

/// A reviewed row opens exactly where it is still actionable with its news, its
/// side is not held, and what it can lose fits its event, the total and the
/// bankroll; it is then added as decided.
pub proof fn reviewed_rows_open_where_they_fit(
    portfolio: Portfolio,
    row: Row,
    news: Option<Evidence>,
    p: Policy,
    now: int,
)
    ensures
        ({
            let held = exists|i: int|
                0 <= i < portfolio.open_positions.len() && (
                #[trigger] portfolio.open_positions[i]).market_id == row.market_id
                    && portfolio.open_positions[i].side == row.side;
            let in_event = total(event_losses(portfolio.open_positions, row.event_id));
            opening(portfolio, row, news, p, now) is Ok <==> {
                &&& effective_class(row.class, news, now) is Actionable
                &&& !held
                &&& in_event matches Some(there) && (sum(there, row.maximum_loss) matches Some(all)
                    && all.value() <= p.maximum_event_exposure.value())
                &&& fits_portfolio(portfolio, row.maximum_loss, p.maximum_total_exposure) == Some(
                    true,
                )
            }
        }),
        opening(portfolio, row, news, p, now) matches Ok(after) ==> after == opened(
            portfolio,
            position_of(row, now),
        ),
{
}

/// A pass that changed nothing leaves the book as it was; any other leaves what is
/// open and closed after it, the exposure of what is open, and the starting money
/// with all that was won or lost.
pub proof fn a_pass_books_what_it_settled(book: Portfolio, pass: Grading, start: Dec)
    ensures
        pass.lines == 0 && pass.settled == 0 ==> regraded(book, pass, start) == Some(book),
        pass.lines > 0 || pass.settled > 0 ==> (regraded(book, pass, start) matches Some(after) ==> {
            &&& after.open_positions == pass.open
            &&& after.closed_positions == pass.closed
            &&& after.realized_pnl == pass.realized
            &&& sum(start, pass.realized) == Some(after.bankroll)
            &&& exposure(pass.open) == Some(after.open_exposure)
        }),
{
}

/// Opening a position holds its own side of its own market, and leaves every
/// other side as it was held or not.
pub proof fn a_position_holds_its_own_side(
    book: Portfolio,
    position: Position,
    market_id: Seq<char>,
    side: OutcomeSide,
)
    ensures
        holds_side(opened(book, position), market_id, side) <==> holds_side(book, market_id, side)
            || (position.market_id == market_id && position.side == side),
        book.open_positions.len() == 0 ==> !holds_side(book, market_id, side),
{
    let before = book.open_positions;
    let after = opened(book, position).open_positions;
    assert(after == before.push(position));
    assert(after[before.len() as int] == position);
    if holds_side(book, market_id, side) {
        let i = choose|i: int|
            0 <= i < before.len() && (#[trigger] before[i]).market_id == market_id && before[i].side
                == side;
        assert(after[i] == before[i]);
    }
    if holds_side(opened(book, position), market_id, side) {
        let i = choose|i: int|
            0 <= i < after.len() && (#[trigger] after[i]).market_id == market_id && after[i].side
                == side;
        if i < before.len() {
            assert(before[i] == after[i]);
        }
    }
}

/// Each position is graded on its own reply; one without a reply hears nothing.
pub proof fn replies_belong_to_their_position(replies: Seq<Reply>, reply: Reply, i: int)
    ensures
        0 <= i < replies.len() ==> reply_at(replies.push(reply), i) == replies[i],
        reply_at(replies.push(reply), replies.len() as int) == reply,
        replies.len() <= i ==> reply_at(replies, i).closing is None && reply_at(
            replies,
            i,
        ).settlement is None,
{
}

} // verus!
