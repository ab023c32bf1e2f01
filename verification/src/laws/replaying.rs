//! What a replay makes of orders, settlements and observations.

use vstd::prelude::*;

use crate::decimal::{
    dec, difference, lemma_quotient_at_most, lemma_quotient_close, lemma_value_of, lemma_value_sign, minus,
    one, plus, quotient, size, sum, unit, zero, Dec, MANTISSA_LIMIT,
};
use crate::domain::{
    line_value, position_of, Book, Market, OutcomeSide, Position, RecommendationClass, Row, Sport,
};
use crate::laws::numbers::{lemma_near_difference, lemma_near_sum};
use crate::laws::settling::lemma_one;
use crate::metrics::{brier_score, reliability_rows};
use crate::paper::profit;
use crate::replay::{
    book_settled, candidate_lines, closing_on, contract_return, edge_bounds, edges_in,
    efficiency_of, fee_each, frame_rows, grade_of, grades, kept_last, looked_at, market_of, mid_on,
    observed, payout_on, position_lines, position_results, returns_within, row_taken, scores_by_sport, side_at,
    side_rungs, venue_probability, within, Books, FillModel, Grade, Moment, Options, Order, Outcome,
    Run, Seen,
};
use crate::risk::holds_side;
use crate::scanner::book_of;
use crate::seqs::group_seqs;

verus! {

broadcast use group_seqs;

/// A side's closing price is the one recorded for that side.
pub proof fn each_side_has_its_own_closing_line(outcome: Outcome)
    ensures
        closing_on(outcome, OutcomeSide::Long) == outcome.closing_long,
        closing_on(outcome, OutcomeSide::Short) == outcome.closing_short,
{
}

/// Settling a position in a replay books its profit once: realized profit and
/// bankroll move by it, the exposure by what the position could lose, the curve
/// gains the new bankroll, and the position is closed with its payout, its
/// profit and its side's closing line, otherwise as it was.
pub proof fn a_replayed_settlement_is_booked_once(
    b: Books,
    position: Position,
    payout: Dec,
    outcome: Outcome,
    base: Dec,
    now: int,
)
    ensures
        book_settled(b, position, payout, outcome, base, now) matches Some(after) ==> {
            let done = after.portfolio.closed_positions.last();
            &&& after.portfolio.open_positions == b.portfolio.open_positions
            &&& after.portfolio.closed_positions == b.portfolio.closed_positions.push(done)
            &&& after.equity == b.equity.push((now, after.portfolio.bankroll))
            &&& done.realized_pnl == profit(position, Some(payout))
            &&& done.realized_pnl is Some
            &&& done.settlement_payout == Some(payout)
            &&& done.closed_at == Some(now)
            &&& done.closing_price == (if position.side is Long {
                outcome.closing_long
            } else {
                outcome.closing_short
            })
            &&& sum(b.portfolio.realized_pnl, done.realized_pnl->0) == Some(
                after.portfolio.realized_pnl,
            )
            &&& sum(base, after.portfolio.realized_pnl) == Some(after.portfolio.bankroll)
            &&& difference(b.portfolio.open_exposure, position.maximum_loss) == Some(
                after.portfolio.open_exposure,
            )
            &&& done.opportunity_id == position.opportunity_id
            &&& done.event_id == position.event_id
            &&& done.market_id == position.market_id
            &&& done.market_slug == position.market_slug
            &&& done.side == position.side
            &&& done.quantity == position.quantity
            &&& done.entry_price == position.entry_price
            &&& done.fair_probability == position.fair_probability
            &&& done.estimated_fee == position.estimated_fee
            &&& done.maximum_loss == position.maximum_loss
            &&& done.start_time == position.start_time
            &&& done.opened_at == position.opened_at
        },
{
}

/// A position settles exactly when its market's settlement is known and the lag
/// since its start has passed; until then it stays open as it is.
pub proof fn positions_settle_after_the_lag(
    b: Books,
    position: Position,
    outcomes: Map<Seq<char>, Outcome>,
    options: Options,
    now: int,
)
    ensures
        looked_at(b, position, outcomes, options, now) matches Some(after) ==> {
            let due = position.start_time is Some && position.start_time->0
                + options.settlement_lag_hours * 3_600_000_000_000 <= now;
            let known = outcomes.contains_key(position.market_id)
                && outcomes[position.market_id].settlement is Some;
            if due && known {
                &&& payout_on(outcomes[position.market_id], position.side) matches Some(Some(paid))
                    && book_settled(
                    b,
                    position,
                    paid,
                    outcomes[position.market_id],
                    options.settings.bankroll,
                    now,
                ) == Some(after)
            } else {
                &&& after.portfolio.open_positions == b.portfolio.open_positions.push(position)
                &&& after.portfolio.closed_positions == b.portfolio.closed_positions
                &&& after.portfolio.realized_pnl == b.portfolio.realized_pnl
                &&& after.portfolio.bankroll == b.portfolio.bankroll
                &&& after.portfolio.open_exposure == b.portfolio.open_exposure
                &&& after.equity == b.equity
            }
        },
{
}

/// The venue's view of a side is the middle of the book: half of bid and offer
/// to the last digit for the long side, and the rest of a dollar for the short.
pub proof fn the_middle_of_the_book_is_shared(book: Book)
    requires
        book.bids.len() > 0,
        book.offers.len() > 0,
        book.bids[0].yes_price.wf(),
        book.offers[0].yes_price.wf(),
        0 <= book.bids[0].yes_price.value() <= unit(),
        0 <= book.offers[0].yes_price.value() <= unit(),
    ensures
        mid_on(book, OutcomeSide::Long) matches Some(Some(mid)) ==> -1 <= 2 * mid.value() - (
        book.bids[0].yes_price.value() + book.offers[0].yes_price.value()) <= 1,
        (mid_on(book, OutcomeSide::Long) matches Some(Some(long)) && mid_on(
            book,
            OutcomeSide::Short,
        ) matches Some(Some(short))) ==> mid_on(book, OutcomeSide::Long)->0->0.value() + mid_on(
            book,
            OutcomeSide::Short,
        )->0->0.value() == unit(),
        mid_on(book, OutcomeSide::Long) != Some(None::<Dec>),
        mid_on(book, OutcomeSide::Short) != Some(None::<Dec>),
{
    lemma_one();
    let (x, y) = (book.bids[0].yes_price, book.offers[0].yes_price);
    lemma_value_sign(x);
    lemma_value_sign(y);
    lemma_near_sum(x, y);
    let s = sum(x, y)->0;
    lemma_value_sign(s);
    let u = unit();
    lemma_value_of(2, 0, u);
    lemma_quotient_close(s, dec(2, 0));
    if let Some(mid) = quotient(s, dec(2, 0)) {
        let m = mid.value();
        let t = s.value();
        assert(-1 <= 2 * m - t <= 1) by (nonlinear_arith)
            requires
                -(2 * u) <= 2 * (m * (2 * u) - t * u) <= 2 * u,
                u > 0,
        ;
        assert(t * u <= (2 * u) * (2 * u)) by (nonlinear_arith)
            requires
                t <= 2 * u,
                u > 0,
        ;
        lemma_quotient_at_most(s, dec(2, 0), dec(2, 0));
        lemma_near_difference(one(), mid);
    }
}

/// The venue's probability of a row's side is the middle of its market's book,
/// and the price of the row where there is no such book or one half is empty.
pub proof fn the_venue_is_read_from_the_book(row: Row, books: Seq<Book>)
    ensures
        book_of(books, row.market_slug) is None ==> venue_probability(row, books) == Some(
            row.executable_price,
        ),
        book_of(books, row.market_slug) matches Some(book) ==> (book.bids.len() == 0
            || book.offers.len() == 0 ==> venue_probability(row, books) == Some(
            row.executable_price,
        )),
        book_of(books, row.market_slug) matches Some(book) ==> (book.bids.len() > 0
            && book.offers.len() > 0 ==> (venue_probability(row, books) matches Some(p) ==> mid_on(
            book,
            row.side,
        ) == Some(Some(p)))),
{
}

/// An observation repeats what was decided of a row, with the fee of one
/// contract.
pub proof fn an_observation_is_the_row_as_decided(row: Row, books: Seq<Book>)
    ensures
        observed(row, books) matches Some(seen) ==> {
            &&& seen.class == row.class
            &&& seen.sport == row.sport
            &&& seen.market_id == row.market_id
            &&& seen.side == row.side
            &&& seen.fair_probability == row.fair_probability
            &&& seen.conservative_probability == row.conservative_probability
            &&& seen.executable_price == row.executable_price
            &&& seen.raw_edge == row.raw_edge
            &&& venue_probability(row, books) == Some(seen.market_probability)
            &&& row.quantity.value() > 0 ==> quotient(row.estimated_fee, row.quantity) == Some(
                seen.fee_per_contract,
            )
            &&& row.quantity.value() <= 0 ==> seen.fee_per_contract.value() == 0
        },
{
    lemma_value_sign(zero());
}

/// The last observation of a side stands, and every other side's stays.
pub proof fn the_last_observation_of_a_side_stands(observations: Seq<Seen>, seen: Seen)
    ensures
        ({
            let after = kept_last(observations, seen);
            &&& exists|i: int| 0 <= i < after.len() && after[i] == seen
            &&& after.len() <= observations.len() + 1
            &&& forall|i: int|
                0 <= i < observations.len() && !((#[trigger] observations[i]).market_id
                    == seen.market_id && observations[i].side == seen.side) ==> after[i]
                    == observations[i]
            &&& (forall|i: int|
                0 <= i < observations.len() ==> !((#[trigger] observations[i]).market_id
                    == seen.market_id && observations[i].side == seen.side)) ==> after.len()
                == observations.len() + 1
            &&& (exists|i: int|
                0 <= i < observations.len() && (#[trigger] observations[i]).market_id
                    == seen.market_id && observations[i].side == seen.side) ==> after.len()
                == observations.len()
        }),
{
    crate::replay::lemma_side_at(observations, seen.market_id, seen.side, 0);
    let after = kept_last(observations, seen);
    match side_at(observations, seen.market_id, seen.side, 0) {
        Some(i) => {
            assert(after[i] == seen);
        },
        None => {
            assert(after[observations.len() as int] == seen);
        },
    }
}

/// A row is ordered exactly when it is at least of the class to open, of some
/// size, and its side is neither held nor waited for. Where it is, the same-book
/// model opens it as decided or finds it blocked, and the next-book model lets
/// it wait; where it is not, nothing is submitted.
pub proof fn orders_follow_the_class_to_open(r: Run, row: Row, books: Seq<Book>, now: int)
    ensures
        row_taken(r, row, books, now) matches Some(after) ==> {
            let strength = |c: RecommendationClass|
                match c {
                    RecommendationClass::Rejected => 0int,
                    RecommendationClass::Watchlist => 1,
                    RecommendationClass::Actionable => 2,
                };
            let waiting = exists|i: int|
                0 <= i < r.pending.len() && (#[trigger] r.pending[i]).row.market_id == row.market_id
                    && r.pending[i].row.side == row.side;
            let held = exists|i: int|
                0 <= i < r.portfolio.open_positions.len() && (
                #[trigger] r.portfolio.open_positions[i]).market_id == row.market_id
                    && r.portfolio.open_positions[i].side == row.side;
            let ordered = strength(row.class) >= strength(r.options.open_class)
                && row.quantity.value() > 0 && !waiting && !held;
            &&& !ordered ==> after.portfolio == r.portfolio && after.pending == r.pending
                && after.submitted == r.submitted && after.filled == r.filled
            &&& ordered && r.submitted < usize::MAX ==> after.submitted == r.submitted + 1
            &&& ordered && r.options.fill is NextBook ==> after.portfolio == r.portfolio
                && after.pending == r.pending.push(Order { row, submitted_at: now })
            &&& ordered && r.options.fill is SameBook ==> after.pending == r.pending && (
            after.portfolio == r.portfolio || after.portfolio.open_positions
                == r.portfolio.open_positions.push(position_of(row, now)))
        },
{
    lemma_value_sign(zero());
}

/// The graded observations are those whose market's settlement is known, each
/// with its own market's outcome and its own side's payout, in order.
pub proof fn what_has_settled_is_graded(observations: Seq<Seen>, outcomes: Map<Seq<char>, Outcome>)
    ensures
        grades(observations, outcomes) matches Some(graded) ==> {
            &&& forall|k: int|
                0 <= k < graded.len() ==> {
                    let g = #[trigger] graded[k];
                    &&& outcomes.contains_key(g.seen.market_id)
                    &&& g.outcome == outcomes[g.seen.market_id]
                    &&& g.outcome.settlement is Some
                    &&& payout_on(g.outcome, g.seen.side) == Some(Some(g.payout))
                }
            &&& graded.map_values(|g: Grade| g.seen) =~= observations.filter(
                |s: Seen|
                    outcomes.contains_key(s.market_id) && outcomes[s.market_id].settlement is Some,
            )
        },
    decreases observations.len(),
{
    reveal(Seq::filter);
    if observations.len() > 0 {
        what_has_settled_is_graded(observations.drop_last(), outcomes);
    }
}

/// Each probability is scored against the payouts of the settled long sides:
/// the consensus's, the conservative one and the venue's.
pub proof fn efficiency_scores_the_long_sides(graded: Seq<Grade>)
    ensures
        efficiency_of(graded) matches Some(e) ==> {
            let long = graded.filter(|g: Grade| g.seen.side is Long);
            &&& e.graded_markets == long.len()
            &&& brier_score(
                long.map_values(|g: Grade| (g.seen.fair_probability, g.payout)),
            ) == Some(e.brier_consensus)
            &&& brier_score(
                long.map_values(|g: Grade| (g.seen.conservative_probability, g.payout)),
            ) == Some(e.brier_conservative)
            &&& brier_score(
                long.map_values(|g: Grade| (g.seen.market_probability, g.payout)),
            ) == Some(e.brier_polymarket)
            &&& reliability_rows(
                long.map_values(|g: Grade| (g.seen.fair_probability, g.payout)),
                10,
            ) == Some(e.reliability_consensus)
            &&& reliability_rows(
                long.map_values(|g: Grade| (g.seen.market_probability, g.payout)),
                10,
            ) == Some(e.reliability_polymarket)
        },
{
    let long = graded.filter(|g: Grade| g.seen.side is Long);
    assert((|g: Grade| g.seen.side is Long) =~= (|g: Grade| g.seen.side == OutcomeSide::Long));
    assert(long == crate::replay::long_grades(graded));
}

/// A contract returns its payout less its price and its fee.
pub proof fn a_contract_returns_its_payout_less_its_cost(g: Grade)
    requires
        g.payout.wf() && g.seen.executable_price.wf() && g.seen.fee_per_contract.wf(),
        0 <= g.payout.value() <= unit(),
        0 <= g.seen.executable_price.value() <= unit(),
        0 <= g.seen.fee_per_contract.value() <= unit(),
    ensures
        contract_return(g) matches Some(v) && v.value() == g.payout.value()
            - g.seen.executable_price.value() - g.seen.fee_per_contract.value(),
{
    lemma_one();
    lemma_near_difference(g.payout, g.seen.executable_price);
    let d = difference(g.payout, g.seen.executable_price)->0;
    lemma_near_difference(d, g.seen.fee_per_contract);
}

/// Every raw edge belongs to exactly one bucket, and the buckets break at
/// nothing, two, five and ten points.
pub proof fn every_edge_has_one_bucket(edge: Dec)
    requires
        edge.wf(),
    ensures
        edge_bounds().len() == 5,
        edge.value() < 0 <==> within(edge, edge_bounds()[0]),
        0 <= edge.value() && 100 * edge.value() < 2 * unit() <==> within(edge, edge_bounds()[1]),
        2 * unit() <= 100 * edge.value() && 100 * edge.value() < 5 * unit() <==> within(
            edge,
            edge_bounds()[2],
        ),
        5 * unit() <= 100 * edge.value() && 100 * edge.value() < 10 * unit() <==> within(
            edge,
            edge_bounds()[3],
        ),
        10 * unit() <= 100 * edge.value() <==> within(edge, edge_bounds()[4]),
{
    lemma_one();
    lemma_value_sign(zero());
    lemma_value_sign(edge);
    crate::decimal::lemma_pow10_values();
    lemma_value_of(2, 2, crate::decimal::pow10(26));
    lemma_value_of(5, 2, crate::decimal::pow10(26));
    lemma_value_of(10, 2, crate::decimal::pow10(26));
}

/// A bucket holds the returns of the graded sides with an edge in it, in order.
pub proof fn a_bucket_holds_its_returns(graded: Seq<Grade>, bounds: (Option<Dec>, Option<Dec>))
    ensures
        returns_within(graded, bounds) matches Some(values) ==> {
            let inside = graded.filter(|g: Grade| within(g.seen.raw_edge, bounds));
            &&& values.len() == inside.len()
            &&& forall|i: int|
                0 <= i < values.len() ==> Some(#[trigger] values[i]) == contract_return(inside[i])
        },
    decreases graded.len(),
{
    reveal(Seq::filter);
    if graded.len() > 0 {
        a_bucket_holds_its_returns(graded.drop_last(), bounds);
    }
}

/// The candidates' closing-line values: what the close of the side was above
/// its price, for each graded side at or above the class that has a close.
pub proof fn candidates_are_held_to_their_close(graded: Seq<Grade>, open_class: RecommendationClass)
    ensures
        candidate_lines(graded, open_class) matches Some(values) ==> {
            let strength = |c: RecommendationClass|
                match c {
                    RecommendationClass::Rejected => 0int,
                    RecommendationClass::Watchlist => 1,
                    RecommendationClass::Actionable => 2,
                };
            let inside = graded.filter(
                |g: Grade|
                    strength(g.seen.class) >= strength(open_class) && closing_on(
                        g.outcome,
                        g.seen.side,
                    ) is Some,
            );
            &&& values.len() == inside.len()
            &&& forall|i: int|
                0 <= i < values.len() ==> Some(#[trigger] values[i]) == difference(
                    closing_on(inside[i].outcome, inside[i].seen.side)->0,
                    inside[i].seen.executable_price,
                )
        },
    decreases graded.len(),
{
    reveal(Seq::filter);
    if graded.len() > 0 {
        candidates_are_held_to_their_close(graded.drop_last(), open_class);
    }
}

/// The results of positions are those that were realized, in order.
pub proof fn results_are_what_was_realized(positions: Seq<Position>)
    ensures
        position_results(positions) =~= positions.filter(
            |p: Position| p.realized_pnl is Some,
        ).map_values(|p: Position| p.realized_pnl->0),
        position_lines(positions) =~= positions.filter(
            |p: Position| line_value(p) is Some,
        ).map_values(|p: Position| line_value(p)->0),
    decreases positions.len(),
{
    reveal(Seq::filter);
    if positions.len() > 0 {
        results_are_what_was_realized(positions.drop_last());
    }
}

/// The side of a book that an order takes: the long side buys the offers as
/// they are, the short side sells to the bids at the rest of a dollar.
pub proof fn orders_take_their_own_side(book: Book)
    ensures
        side_rungs(book, OutcomeSide::Long) == Some(crate::opportunity::long_rungs(book.offers)),
        side_rungs(book, OutcomeSide::Short) == crate::opportunity::short_rungs(book.bids),
{
}

/// A sport is scored on its own graded sides, and only a sport that has some is.
pub proof fn sports_are_scored_on_their_own(graded: Seq<Grade>, sports: Seq<Sport>, sport: Sport)
    ensures
        scores_by_sport(graded, sports.push(sport)) matches Some(rows) ==> (scores_by_sport(
            graded,
            sports,
        ) matches Some(before) && {
            let own = graded.filter(|g: Grade| g.seen.sport == sport);
            &&& own.len() == 0 ==> rows == before
            &&& own.len() > 0 ==> rows.len() == before.len() + 1 && rows.last().0 == sport.label()
                && rows.last().1.graded_markets == own.len() && brier_score(
                own.map_values(|g: Grade| (g.seen.fair_probability, g.payout)),
            ) == Some(rows.last().1.brier_consensus) && brier_score(
                own.map_values(|g: Grade| (g.seen.market_probability, g.payout)),
            ) == Some(rows.last().1.brier_polymarket)
        }),
        efficiency_of(graded) matches Some(e) ==> scores_by_sport(
            graded.filter(|g: Grade| g.seen.side is Long),
            seq![Sport::Mlb, Sport::Nba, Sport::Nfl, Sport::Tennis, Sport::Wnba],
        ) == Some(e.by_sport),
{
    assert(sports.push(sport).drop_last() =~= sports);
    let long = graded.filter(|g: Grade| g.seen.side is Long);
    assert((|g: Grade| g.seen.side is Long) =~= (|g: Grade| g.seen.side == OutcomeSide::Long));
    assert(long == crate::replay::long_grades(graded));
}

/// A bucket of edges is reported with its bounds and the summary of its returns,
/// behind the others, where it holds any.
pub proof fn populated_buckets_are_reported(
    graded: Seq<Grade>,
    bounds: Seq<(Option<Dec>, Option<Dec>)>,
    last: (Option<Dec>, Option<Dec>),
)
    ensures
        edges_in(graded, bounds.push(last)) matches Some(rows) ==> (edges_in(
            graded,
            bounds,
        ) matches Some(before) && (returns_within(graded, last) matches Some(values) && (
        crate::metrics::digest(values) matches Some(summary) && {
            &&& summary is None ==> rows == before
            &&& summary matches Some(d) ==> rows.len() == before.len() + 1 && rows.last().lower
                == last.0 && rows.last().upper == last.1 && rows.last().return_per_contract == d
        }))),
{
    assert(bounds.push(last).drop_last() =~= bounds);
}

/// The market under an identifier is the last one.
pub proof fn the_last_market_counts(markets: Seq<Market>, id: Seq<char>)
    ensures
        market_of(markets, id) matches Some(m) ==> m.market_id == id && markets.contains(m),
        market_of(markets, id) is None ==> forall|i: int|
            0 <= i < markets.len() ==> (#[trigger] markets[i]).market_id != id,
    decreases markets.len(),
{
    if markets.len() > 0 {
        let front = markets.drop_last();
        the_last_market_counts(front, id);
        assert(markets[markets.len() - 1] == markets.last());
        if let Some(m) = market_of(front, id) {
            let i = choose|i: int| 0 <= i < front.len() && front[i] == m;
            assert(markets[i] == m);
        } else {
            assert forall|i: int| 0 <= i < markets.len() && markets.last().market_id
                != id implies (#[trigger] markets[i]).market_id != id by {
                if i < front.len() {
                    assert(front[i] == markets[i]);
                }
            }
        }
    }
}

} // verus!
