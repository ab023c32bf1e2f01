//! Point-in-time replay of the classifier over archived scans. Each frame is
//! evaluated at its own `evaluated_at` with the functions that the live scan
//! runs, a paper portfolio is simulated through the frames, and every observed
//! market side is graded against the venue's closing line and settlement.
//! Frames and outcomes come in, a report comes out; nothing here reads a store
//! or a clock.

use vstd::prelude::*;

use crate::config::{Policy, Settings};
use crate::decimal::{
    dec, dec_of, decs, difference, minus, one, over, plus, quotient, rounded, sum, times, zero,
    Dec, Decimal,
};
use crate::domain::{
    copy_opportunities, empty_book, line_value, market_book_views, opportunity_views,
    paper_position_views, position_of, source_quote_views, us_moneyline_market_views, Book, Market,
    MarketBook, Opportunity, OutcomeSide, PaperPortfolio, PaperPosition, Portfolio, Position,
    Quote, RecommendationClass, Row, SourceQuote, Sport, UsMoneylineMarket,
};
use crate::metrics::{
    brier, brier_score, buckets_of, curve, deepest, digest, digest_of, max_drawdown, pair_decs,
    reliability, reliability_rows, summary, Bucket, Digest, Drawdown, Fall, ReliabilityBucket,
    Summary,
};
use crate::opportunity::{long_levels, long_rungs, price_of, short_levels, short_rungs};
use crate::paper::{exposure, profit, settled};
use crate::risk::{
    eligible_depth, fits_portfolio, holds_side, limits, offered, opened, rungs, sized,
    size_position_from_levels,
    ExecutionLevel, Rung, Sized,
};
use crate::scanner::{
    book_of, consensus_markets, evaluable, evaluate_books, find_book, judged,
};
use crate::seqs::{filter_next, group_seqs, take_next};
use crate::text::{concat2, concat3, concat4, int_text, integer, owned, same, texts};
use crate::textmap::{bump, bumped, tallied, TextMap};
use crate::time::{instant_of, Timestamp};

verus! {

broadcast use group_seqs;

/// Closing line and settlement of one market; either half may be missing until
/// the venue publishes it.
#[derive(Debug)]
pub struct MarketOutcome {
    pub market_id: String,
    pub start_time: Timestamp,
    pub closing_long: Option<Decimal>,
    pub closing_short: Option<Decimal>,
    pub closing_observed_at: Option<Timestamp>,
    /// YES payout per contract.
    pub settlement: Option<Decimal>,
    pub settled_recorded_at: Option<Timestamp>,
}

/// An outcome as mathematics.
pub struct Outcome {
    pub market_id: Seq<char>,
    pub start_time: int,
    pub closing_long: Option<Dec>,
    pub closing_short: Option<Dec>,
    pub closing_observed_at: Option<int>,
    pub settlement: Option<Dec>,
    pub settled_recorded_at: Option<int>,
}

impl View for MarketOutcome {
    type V = Outcome;

    open spec fn view(&self) -> Outcome {
        Outcome {
            market_id: self.market_id@,
            start_time: self.start_time@,
            closing_long: dec_of(self.closing_long),
            closing_short: dec_of(self.closing_short),
            closing_observed_at: instant_of(self.closing_observed_at),
            settlement: dec_of(self.settlement),
            settled_recorded_at: instant_of(self.settled_recorded_at),
        }
    }
}

/// The closing price of a side.
pub open spec fn closing_on(outcome: Outcome, side: OutcomeSide) -> Option<Dec> {
    match side {
        OutcomeSide::Long => outcome.closing_long,
        OutcomeSide::Short => outcome.closing_short,
    }
}

/// The payout of a side: absent before the settlement, missing on overflow.
pub open spec fn payout_on(outcome: Outcome, side: OutcomeSide) -> Option<Option<Dec>> {
    match outcome.settlement {
        None => Some(None),
        Some(settlement) => match side {
            OutcomeSide::Long => Some(Some(settlement)),
            OutcomeSide::Short => match difference(one(), settlement) {
                Some(no) => Some(Some(no)),
                None => None,
            },
        },
    }
}

impl MarketOutcome {
    pub fn closing_side_price(&self, side: OutcomeSide) -> (result: Option<Decimal>)
        ensures
            dec_of(result) == closing_on(self@, side),
    {
        match side {
            OutcomeSide::Long => self.closing_long,
            OutcomeSide::Short => self.closing_short,
        }
    }

    /// Side payout per contract: `settlement` for long, `1 - settlement` for
    /// short. The outer `None` on overflow.
    pub fn payout(&self, side: OutcomeSide) -> (result: Option<Option<Decimal>>)
        ensures
            price_of(result) == payout_on(self@, side),
    {
        match self.settlement {
            None => Some(None),
            Some(settlement) => match side {
                OutcomeSide::Long => Some(Some(settlement)),
                OutcomeSide::Short => {
                    let no = Decimal::one().checked_sub(settlement)?;
                    Some(Some(no))
                },
            },
        }
    }
}

/// The outcomes by market.
pub open spec fn outcome_views(outcomes: Map<Seq<char>, MarketOutcome>) -> Map<Seq<char>, Outcome> {
    outcomes.map_values(|o: MarketOutcome| o@)
}

/// One archived scan with everything a replay needs. `markets` and `books` cover
/// only the markets that the scan fetched a book for; an imported scan has
/// neither, only its decided rows.
#[derive(Debug)]
pub struct Frame {
    pub scan_id: u128,
    pub evaluated_at: Timestamp,
    pub origin: String,
    /// The gates that the scan ran under, where they can be read.
    pub settings: Option<Settings>,
    pub portfolio: PaperPortfolio,
    pub markets: Vec<UsMoneylineMarket>,
    pub books: Vec<MarketBook>,
    pub quotes: Vec<SourceQuote>,
    pub opportunities: Vec<Opportunity>,
}

/// A frame as mathematics.
pub struct Moment {
    pub scan_id: int,
    pub evaluated_at: int,
    pub origin: Seq<char>,
    pub settings: Option<Policy>,
    pub portfolio: Portfolio,
    pub markets: Seq<Market>,
    pub books: Seq<Book>,
    pub quotes: Seq<Quote>,
    pub opportunities: Seq<Row>,
}

impl View for Frame {
    type V = Moment;

    open spec fn view(&self) -> Moment {
        Moment {
            scan_id: self.scan_id as int,
            evaluated_at: self.evaluated_at@,
            origin: self.origin@,
            settings: match self.settings {
                Some(settings) => Some(settings@),
                None => None,
            },
            portfolio: self.portfolio@,
            markets: us_moneyline_market_views(self.markets@),
            books: market_book_views(self.books@),
            quotes: source_quote_views(self.quotes@),
            opportunities: opportunity_views(self.opportunities@),
        }
    }
}

impl Frame {
    /// Whether the classifier can be run on this frame again.
    pub fn has_books(&self) -> (result: bool)
        ensures
            result == (self@.books.len() > 0),
    {
        self.books.len() > 0
    }
}

/// How a paper order becomes a position.
#[derive(Debug, Clone, Copy, PartialEq, Eq, Structural)]
pub enum FillModel {
    /// Fill at the depth-weighted price of the book the decision saw.
    /// Optimistic: assumes the fill happened within the same second.
    SameBook,
    /// Submit at the decision, fill against the next frame's book only if it
    /// still offers the quantity at or below the decision price. Unfilled
    /// orders are counted, never assumed.
    NextBook,
}

#[derive(Debug)]
pub struct ReplayOptions {
    pub settings: Settings,
    /// Least class that opens a paper position.
    pub open_class: RecommendationClass,
    pub fill: FillModel,
    /// Hours after the scheduled start at which a settled market releases its
    /// exposure in the simulation; the venue's actual settlement time is not
    /// archived per position.
    pub settlement_lag_hours: i64,
}

/// Options as mathematics.
pub struct Options {
    pub settings: Policy,
    pub open_class: RecommendationClass,
    pub fill: FillModel,
    pub settlement_lag_hours: int,
}

impl View for ReplayOptions {
    type V = Options;

    open spec fn view(&self) -> Options {
        Options {
            settings: self.settings@,
            open_class: self.open_class,
            fill: self.fill,
            settlement_lag_hours: self.settlement_lag_hours as int,
        }
    }
}

/// The last evaluation of one market side inside the window.
#[derive(Debug)]
pub struct Observation {
    pub class: RecommendationClass,
    pub sport: Sport,
    pub market_id: String,
    pub side: OutcomeSide,
    pub fair_probability: Decimal,
    pub conservative_probability: Decimal,
    /// Taker side price for the sized quantity.
    pub executable_price: Decimal,
    /// The venue's implied probability for the side: top-of-book mid where the
    /// book is archived, else the executable price.
    pub market_probability: Decimal,
    pub raw_edge: Decimal,
    pub fee_per_contract: Decimal,
}

/// An observation as mathematics.
pub struct Seen {
    pub class: RecommendationClass,
    pub sport: Sport,
    pub market_id: Seq<char>,
    pub side: OutcomeSide,
    pub fair_probability: Dec,
    pub conservative_probability: Dec,
    pub executable_price: Dec,
    pub market_probability: Dec,
    pub raw_edge: Dec,
    pub fee_per_contract: Dec,
}

impl View for Observation {
    type V = Seen;

    open spec fn view(&self) -> Seen {
        Seen {
            class: self.class,
            sport: self.sport,
            market_id: self.market_id@,
            side: self.side,
            fair_probability: self.fair_probability@,
            conservative_probability: self.conservative_probability@,
            executable_price: self.executable_price@,
            market_probability: self.market_probability@,
            raw_edge: self.raw_edge@,
            fee_per_contract: self.fee_per_contract@,
        }
    }
}

pub open spec fn seen_views(items: Seq<Observation>) -> Seq<Seen> {
    items.map_values(|item: Observation| item@)
}

/// An order that waits for the next book.
#[derive(Debug)]
pub struct PendingOrder {
    pub opportunity: Opportunity,
    pub submitted_at: Timestamp,
}

/// A waiting order as mathematics.
pub struct Order {
    pub row: Row,
    pub submitted_at: int,
}

impl View for PendingOrder {
    type V = Order;

    open spec fn view(&self) -> Order {
        Order { row: self.opportunity@, submitted_at: self.submitted_at@ }
    }
}

pub open spec fn order_views(items: Seq<PendingOrder>) -> Seq<Order> {
    items.map_values(|item: PendingOrder| item@)
}

/// A replay under way.
#[derive(Debug)]
pub struct Replay {
    pub options: ReplayOptions,
    pub portfolio: PaperPortfolio,
    pub pending: Vec<PendingOrder>,
    /// The last observation of each market side, in the order the sides came up.
    pub observations: Vec<Observation>,
    pub equity: Vec<(Timestamp, Decimal)>,
    pub frames: usize,
    pub frames_recomputed: usize,
    pub frames_stored: usize,
    pub rows_by_class: TextMap<usize>,
    pub submitted: usize,
    pub filled: usize,
    /// Fills for fewer contracts than were ordered, where what an order risked
    /// buys fewer at the next book.
    pub partial_fills: usize,
    pub unfilled: TextMap<usize>,
    pub blocked_by_exposure: usize,
    pub first_input_at: Option<Timestamp>,
    pub last_input_at: Option<Timestamp>,
}

/// A replay as mathematics.
pub struct Run {
    pub options: Options,
    pub portfolio: Portfolio,
    pub pending: Seq<Order>,
    pub observations: Seq<Seen>,
    pub equity: Seq<(int, Dec)>,
    pub frames: int,
    pub frames_recomputed: int,
    pub frames_stored: int,
    pub rows_by_class: Map<Seq<char>, usize>,
    pub submitted: int,
    pub filled: int,
    pub partial_fills: int,
    pub unfilled: Map<Seq<char>, usize>,
    pub blocked_by_exposure: int,
    pub first_input_at: Option<int>,
    pub last_input_at: Option<int>,
}

impl View for Replay {
    type V = Run;

    open spec fn view(&self) -> Run {
        Run {
            options: self.options@,
            portfolio: self.portfolio@,
            pending: order_views(self.pending@),
            observations: seen_views(self.observations@),
            equity: curve(self.equity@),
            frames: self.frames as int,
            frames_recomputed: self.frames_recomputed as int,
            frames_stored: self.frames_stored as int,
            rows_by_class: self.rows_by_class@,
            submitted: self.submitted as int,
            filled: self.filled as int,
            partial_fills: self.partial_fills as int,
            unfilled: self.unfilled@,
            blocked_by_exposure: self.blocked_by_exposure as int,
            first_input_at: instant_of(self.first_input_at),
            last_input_at: instant_of(self.last_input_at),
        }
    }
}

/// A replay before its first frame.
pub open spec fn fresh_run(options: Options) -> Run {
    Run {
        options,
        portfolio: empty_book(options.settings.bankroll),
        pending: seq![],
        observations: seq![],
        equity: seq![],
        frames: 0,
        frames_recomputed: 0,
        frames_stored: 0,
        rows_by_class: Map::empty(),
        submitted: 0,
        filled: 0,
        partial_fills: 0,
        unfilled: Map::empty(),
        blocked_by_exposure: 0,
        first_input_at: None,
        last_input_at: None,
    }
}

/// The replay inside an optional one.
pub open spec fn run_of(r: Option<Replay>) -> Option<Run> {
    match r {
        Some(r) => Some(r@),
        None => None,
    }
}

/// Nanoseconds of some hours.
pub open spec fn hours_nanos(hours: int) -> int {
    hours * 3_600_000_000_000
}

/// A position whose game started at least the settlement lag ago.
pub open spec fn releasable(position: Position, lag_hours: int, now: int) -> bool {
    position.start_time matches Some(start) && start + hours_nanos(lag_hours) <= now
}

/// The payout of a position, where its market's outcome is known: absent before
/// the settlement, missing on overflow.
pub open spec fn position_payout(position: Position, outcomes: Map<Seq<char>, Outcome>) -> Option<
    Option<Dec>,
> {
    if outcomes.contains_key(position.market_id) {
        payout_on(outcomes[position.market_id], position.side)
    } else {
        Some(None)
    }
}

/// A portfolio and an equity curve on the way through a settlement.
pub struct Books {
    pub portfolio: Portfolio,
    pub equity: Seq<(int, Dec)>,
}

/// The books after settling one position; missing on overflow.
pub open spec fn book_settled(
    b: Books,
    position: Position,
    payout: Dec,
    outcome: Outcome,
    bankroll: Dec,
    now: int,
) -> Option<Books> {
    match profit(position, Some(payout)) {
        Some(realized) => match (
            sum(b.portfolio.realized_pnl, realized),
            difference(b.portfolio.open_exposure, position.maximum_loss),
            plus(Some(bankroll), sum(b.portfolio.realized_pnl, realized)),
        ) {
            (Some(realized_pnl), Some(open_exposure), Some(after)) => {
                let done = Position {
                    closing_price: closing_on(outcome, position.side),
                    ..settled(position, payout, realized, now)
                };
                Some(
                    Books {
                        portfolio: Portfolio {
                            bankroll: after,
                            open_exposure,
                            realized_pnl,
                            closed_positions: b.portfolio.closed_positions.push(done),
                            ..b.portfolio
                        },
                        equity: b.equity.push((now, after)),
                    },
                )
            },
            _ => None,
        },
        None => None,
    }
}

/// The books after looking at one open position: kept, or settled where it is
/// due and its payout is known.
pub open spec fn looked_at(
    b: Books,
    position: Position,
    outcomes: Map<Seq<char>, Outcome>,
    options: Options,
    now: int,
) -> Option<Books> {
    let kept = Books {
        portfolio: Portfolio {
            open_positions: b.portfolio.open_positions.push(position),
            ..b.portfolio
        },
        ..b
    };
    match position_payout(position, outcomes) {
        None => None,
        Some(Some(payout)) => if releasable(position, options.settlement_lag_hours, now) {
            book_settled(
                b,
                position,
                payout,
                outcomes[position.market_id],
                options.settings.bankroll,
                now,
            )
        } else {
            Some(kept)
        },
        Some(None) => Some(kept),
    }
}

/// The books after looking at some open positions in turn.
pub open spec fn looked_through(
    start: Books,
    positions: Seq<Position>,
    outcomes: Map<Seq<char>, Outcome>,
    options: Options,
    now: int,
) -> Option<Books>
    decreases positions.len(),
{
    if positions.len() == 0 {
        Some(start)
    } else {
        match looked_through(start, positions.drop_last(), outcomes, options, now) {
            Some(b) => looked_at(b, positions.last(), outcomes, options, now),
            None => None,
        }
    }
}

/// The books of a run with no position looked at yet.
pub open spec fn unlooked(r: Run) -> Books {
    Books {
        portfolio: Portfolio { open_positions: seq![], ..r.portfolio },
        equity: r.equity,
    }
}

/// The run after settling what is due at `now`; missing on overflow.
pub open spec fn settled_due(r: Run, outcomes: Map<Seq<char>, Outcome>, now: int) -> Option<Run> {
    match looked_through(unlooked(r), r.portfolio.open_positions, outcomes, r.options, now) {
        Some(b) => Some(Run { portfolio: b.portfolio, equity: b.equity, ..r }),
        None => None,
    }
}

/// The rows of a frame: decided again where it has books, else as they were
/// stored. Missing on overflow.
pub open spec fn frame_rows(r: Run, frame: Moment) -> Option<Seq<Row>> {
    if frame.books.len() > 0 {
        judged(
            r.options.settings,
            evaluable(frame.markets, frame.quotes, r.options.settings, frame.evaluated_at),
            frame.books,
            r.portfolio,
            frame.evaluated_at,
        )
    } else {
        Some(frame.opportunities)
    }
}

/// The market with an identifier: the last one.
pub open spec fn market_of(markets: Seq<Market>, id: Seq<char>) -> Option<Market>
    decreases markets.len(),
{
    if markets.len() == 0 {
        None
    } else if markets.last().market_id == id {
        Some(markets.last())
    } else {
        market_of(markets.drop_last(), id)
    }
}

/// The levels at which a side of a book can be taken; missing on overflow.
pub open spec fn side_rungs(book: Book, side: OutcomeSide) -> Option<Seq<Rung>> {
    match side {
        OutcomeSide::Long => Some(long_rungs(book.offers)),
        OutcomeSide::Short => short_rungs(book.bids),
    }
}

/// What the next book gives an order: at most what it risked, at no more than
/// its price.
pub open spec fn refilled(row: Row, market: Market, book: Book) -> Option<Sized> {
    match side_rungs(book, row.side) {
        Some(levels) => sized(
            levels,
            limits(
                row.maximum_loss,
                market.fee_coefficient,
                market.minimum_quantity,
                row.executable_price,
            ),
        ),
        None => None,
    }
}

/// What a book offers an order at or below its price, in whole increments;
/// missing on overflow.
pub open spec fn still_offered(row: Row, market: Market, book: Book) -> Option<Dec> {
    match side_rungs(book, row.side) {
        Some(levels) => offered(levels, market.minimum_quantity, row.executable_price),
        None => None,
    }
}

/// The run after an order met a book that still offers its quantity. It is
/// sized again for what it risked; where that buys fewer contracts than
/// were ordered the fill is counted as partial, and where it buys none the
/// order fills as it was decided.
pub open spec fn order_filled(r: Run, row: Row, s: Sized, now: int) -> Option<Run> {
    if !zero().lt(s.quantity) {
        tried_open(r, position_of(row, now))
    } else {
        let counted = if s.quantity.lt(row.quantity) {
            Run { partial_fills: bumped(r.partial_fills), ..r }
        } else {
            r
        };
        tried_open(counted, filled_position(row, s, now))
    }
}

/// The position that an order becomes.
pub open spec fn filled_position(row: Row, s: Sized, now: int) -> Position {
    Position {
        quantity: s.quantity,
        entry_price: s.average_side_price,
        estimated_fee: s.estimated_fee,
        maximum_loss: s.maximum_loss,
        ..position_of(row, now)
    }
}

/// The run after trying to open a position; missing on overflow.
pub open spec fn tried_open(r: Run, position: Position) -> Option<Run> {
    match fits_portfolio(
        r.portfolio,
        position.maximum_loss,
        r.options.settings.maximum_total_exposure,
    ) {
        Some(true) => Some(
            Run { portfolio: opened(r.portfolio, position), filled: bumped(r.filled), ..r },
        ),
        Some(false) => Some(Run { blocked_by_exposure: bumped(r.blocked_by_exposure), ..r }),
        None => None,
    }
}

pub open spec fn not_filled(r: Run, reason: Seq<char>) -> Run {
    Run { unfilled: tallied(r.unfilled, reason), ..r }
}

/// The run after one waiting order met a frame: an order fills against a later
/// frame's book, never its own, and only where that book still offers its
/// quantity at or below its price.
pub open spec fn order_met(r: Run, order: Order, markets: Seq<Market>, books: Seq<Book>, now: int) -> Option<
    Run,
> {
    if order.submitted_at >= now {
        Some(Run { pending: r.pending.push(order), ..r })
    } else {
        match (market_of(markets, order.row.market_id), book_of(books, order.row.market_slug)) {
            (Some(market), Some(book)) => if market.start_time <= now {
                Some(not_filled(r, "market started"@))
            } else {
                match still_offered(order.row, market, book) {
                    Some(there) => if !zero().lt(there) || there.lt(order.row.quantity) {
                        Some(not_filled(r, "price moved through limit"@))
                    } else {
                        match refilled(order.row, market, book) {
                            Some(s) => order_filled(r, order.row, s, now),
                            None => None,
                        }
                    },
                    None => None,
                }
            },
            _ => Some(not_filled(r, "no book in next frame"@)),
        }
    }
}

/// The run after some waiting orders met a frame in turn.
pub open spec fn orders_met(
    r: Run,
    orders: Seq<Order>,
    markets: Seq<Market>,
    books: Seq<Book>,
    now: int,
) -> Option<Run>
    decreases orders.len(),
{
    if orders.len() == 0 {
        Some(r)
    } else {
        match orders_met(r, orders.drop_last(), markets, books, now) {
            Some(next) => order_met(next, orders.last(), markets, books, now),
            None => None,
        }
    }
}

/// The run after every waiting order met a frame.
pub open spec fn resolved(r: Run, markets: Seq<Market>, books: Seq<Book>, now: int) -> Option<Run> {
    orders_met(Run { pending: seq![], ..r }, r.pending, markets, books, now)
}

/// Top-of-book mid as the venue's implied probability for a side: absent where
/// either side of the book is empty, missing on overflow.
pub open spec fn mid_on(book: Book, side: OutcomeSide) -> Option<Option<Dec>> {
    if book.bids.len() == 0 || book.offers.len() == 0 {
        Some(None)
    } else {
        match over(sum(book.bids[0].yes_price, book.offers[0].yes_price), Some(dec(2, 0))) {
            Some(mid) => match side {
                OutcomeSide::Long => Some(Some(mid)),
                OutcomeSide::Short => match difference(one(), mid) {
                    Some(rest) => Some(Some(rest)),
                    None => None,
                },
            },
            None => None,
        }
    }
}

/// What the venue thinks of a row's side.
pub open spec fn venue_probability(row: Row, books: Seq<Book>) -> Option<Dec> {
    match book_of(books, row.market_slug) {
        Some(book) => match mid_on(book, row.side) {
            Some(Some(mid)) => Some(mid),
            Some(None) => Some(row.executable_price),
            None => None,
        },
        None => Some(row.executable_price),
    }
}

pub open spec fn fee_each(row: Row) -> Option<Dec> {
    if zero().lt(row.quantity) {
        quotient(row.estimated_fee, row.quantity)
    } else {
        Some(zero())
    }
}

/// What a row amounts to as an observation.
pub open spec fn observed(row: Row, books: Seq<Book>) -> Option<Seen> {
    match (venue_probability(row, books), fee_each(row)) {
        (Some(market_probability), Some(fee_per_contract)) => Some(
            Seen {
                class: row.class,
                sport: row.sport,
                market_id: row.market_id,
                side: row.side,
                fair_probability: row.fair_probability,
                conservative_probability: row.conservative_probability,
                executable_price: row.executable_price,
                market_probability,
                raw_edge: row.raw_edge,
                fee_per_contract,
            },
        ),
        _ => None,
    }
}

/// Where a market side stands among the observations.
pub open spec fn side_at(
    observations: Seq<Seen>,
    market_id: Seq<char>,
    side: OutcomeSide,
    from: int,
) -> Option<int>
    decreases observations.len() - from,
{
    if from >= observations.len() {
        None
    } else if observations[from].market_id == market_id && observations[from].side == side {
        Some(from)
    } else {
        side_at(observations, market_id, side, from + 1)
    }
}

/// The observations with one put in, in the place of its side's last one.
pub open spec fn kept_last(observations: Seq<Seen>, seen: Seen) -> Seq<Seen> {
    match side_at(observations, seen.market_id, seen.side, 0) {
        Some(i) => observations.update(i, seen),
        None => observations.push(seen),
    }
}

/// Whether an order for a market side waits.
pub open spec fn waits(pending: Seq<Order>, market_id: Seq<char>, side: OutcomeSide) -> bool {
    exists|i: int|
        0 <= i < pending.len() && (#[trigger] pending[i]).row.market_id == market_id
            && pending[i].row.side == side
}

/// Whether a row is ordered: strong enough, of some size, and neither held nor
/// waited for.
pub open spec fn orders(r: Run, row: Row) -> bool {
    &&& row.class.strength() >= r.options.open_class.strength()
    &&& zero().lt(row.quantity)
    &&& !holds_side(r.portfolio, row.market_id, row.side)
    &&& !waits(r.pending, row.market_id, row.side)
}

/// The run after one row of a frame; missing on overflow.
pub open spec fn row_taken(r: Run, row: Row, books: Seq<Book>, now: int) -> Option<Run> {
    match observed(row, books) {
        Some(seen) => {
            let noted = Run {
                rows_by_class: tallied(r.rows_by_class, row.class.label()),
                observations: kept_last(r.observations, seen),
                ..r
            };
            if !orders(r, row) {
                Some(noted)
            } else {
                let ordered = Run { submitted: bumped(r.submitted), ..noted };
                match r.options.fill {
                    FillModel::SameBook => tried_open(ordered, position_of(row, now)),
                    FillModel::NextBook => Some(
                        Run {
                            pending: ordered.pending.push(Order { row, submitted_at: now }),
                            ..ordered
                        },
                    ),
                }
            }
        },
        None => None,
    }
}

/// The run after some rows of a frame in turn.
pub open spec fn rows_taken(r: Run, rows: Seq<Row>, books: Seq<Book>, now: int) -> Option<Run>
    decreases rows.len(),
{
    if rows.len() == 0 {
        Some(r)
    } else {
        match rows_taken(r, rows.drop_last(), books, now) {
            Some(next) => row_taken(next, rows.last(), books, now),
            None => None,
        }
    }
}

/// The run with one more frame counted.
pub open spec fn frame_counted(r: Run, frame: Moment) -> Run {
    Run {
        frames: bumped(r.frames),
        frames_recomputed: if frame.books.len() > 0 {
            bumped(r.frames_recomputed)
        } else {
            r.frames_recomputed
        },
        frames_stored: if frame.books.len() > 0 {
            r.frames_stored
        } else {
            bumped(r.frames_stored)
        },
        first_input_at: match r.first_input_at {
            Some(at) => Some(at),
            None => Some(frame.evaluated_at),
        },
        last_input_at: Some(frame.evaluated_at),
        ..r
    }
}

/// The run after one more frame: what is due is settled, the frame's rows are
/// decided, waiting orders meet its books, and its rows are taken. Missing on
/// overflow.
pub open spec fn stepped(r: Run, frame: Moment, outcomes: Map<Seq<char>, Outcome>) -> Option<Run> {
    let now = frame.evaluated_at;
    match settled_due(frame_counted(r, frame), outcomes, now) {
        Some(due) => match (
            frame_rows(due, frame),
            resolved(due, frame.markets, frame.books, now),
        ) {
            (Some(rows), Some(met)) => rows_taken(met, rows, frame.books, now),
            _ => None,
        },
        None => None,
    }
}

/// The run with other books.
spec fn with_books(r: Run, b: Option<Books>) -> Option<Run> {
    match b {
        Some(b) => Some(Run { portfolio: b.portfolio, equity: b.equity, ..r }),
        None => None,
    }
}

spec fn books_of(r: Run) -> Books {
    Books { portfolio: r.portfolio, equity: r.equity }
}

fn lag_nanos(hours: i64) -> (result: i128)
    ensures
        result == hours_nanos(hours as int),
        -34_000_000_000_000_000_000_000_000_000_000 <= result
            <= 34_000_000_000_000_000_000_000_000_000_000,
{
    hours as i128 * 3_600_000_000_000
}

fn settle_one(
    run: Replay,
    position: PaperPosition,
    payout: Decimal,
    outcome: &MarketOutcome,
    now: Timestamp,
) -> (result: Option<Replay>)
    ensures
        run_of(result) == with_books(
            run@,
            book_settled(
                books_of(run@),
                position@,
                payout@,
                outcome@,
                run@.options.settings.bankroll,
                now@,
            ),
        ),
{
    let mut run = run;
    let mut done = position;
    let gain = payout.checked_sub(done.entry_price)?;
    let gross = done.quantity.checked_mul(gain)?;
    let realized = gross.checked_sub(done.estimated_fee)?;
    let in_all = run.portfolio.realized_pnl.checked_add(realized)?;
    let open_exposure = run.portfolio.open_exposure.checked_sub(done.maximum_loss)?;
    let bankroll = run.options.settings.bankroll.checked_add(in_all)?;
    done.settlement_payout = Some(payout);
    done.realized_pnl = Some(realized);
    done.closed_at = Some(now);
    done.closing_price = outcome.closing_side_price(done.side);
    run.portfolio.realized_pnl = in_all;
    run.portfolio.open_exposure = open_exposure;
    run.portfolio.bankroll = bankroll;
    run.equity.push((now, bankroll));
    run.portfolio.closed_positions.push(done);
    Some(run)
}

fn look_at(
    run: Replay,
    position: PaperPosition,
    outcomes: &TextMap<MarketOutcome>,
    now: Timestamp,
) -> (result: Option<Replay>)
    ensures
        run_of(result) == with_books(
            run@,
            looked_at(
                books_of(run@),
                position@,
                outcome_views(outcomes@),
                run@.options,
                now@,
            ),
        ),
{
    let due = match position.start_time {
        Some(start) => start.nanos() + lag_nanos(run.options.settlement_lag_hours) <= now.nanos(),
        None => false,
    };
    match outcomes.get(position.market_id.as_str()) {
        Some(outcome) => {
            assert(outcome_views(outcomes@)[position@.market_id] == outcome@);
            let payout = outcome.payout(position.side)?;
            match payout {
                Some(payout) => {
                    if due {
                        return settle_one(run, position, payout, outcome, now);
                    }
                },
                None => {},
            }
        },
        None => {},
    }
    let mut run = run;
    run.portfolio.open_positions.push(position);
    Some(run)
}

proof fn lemma_look_stays_missing(
    start: Books,
    positions: Seq<Position>,
    outcomes: Map<Seq<char>, Outcome>,
    options: Options,
    now: int,
    at: int,
)
    requires
        0 <= at <= positions.len(),
        looked_through(start, positions.take(at), outcomes, options, now) is None,
    ensures
        looked_through(start, positions, outcomes, options, now) is None,
    decreases positions.len() - at,
{
    if at < positions.len() {
        take_next(positions, at);
        lemma_look_stays_missing(start, positions, outcomes, options, now, at + 1);
    }
}

fn find_market(markets: &Vec<UsMoneylineMarket>, id: &str) -> (result: Option<usize>)
    ensures
        match result {
            Some(i) => i < markets@.len() && market_of(us_moneyline_market_views(markets@), id@)
                == Some(markets@[i as int]@),
            None => market_of(us_moneyline_market_views(markets@), id@) is None,
        },
{
    let ghost all = us_moneyline_market_views(markets@);
    let mut i: usize = markets.len();
    while i > 0
        invariant
            i <= markets@.len(),
            all == us_moneyline_market_views(markets@),
            market_of(all, id@) == market_of(all.take(i as int), id@),
        decreases i,
    {
        proof {
            take_next(all, i - 1);
        }
        i = i - 1;
        if same(markets[i].market_id.as_str(), id) {
            return Some(i);
        }
    }
    None
}

spec fn rungs_of(levels: Option<Vec<ExecutionLevel>>) -> Option<Seq<Rung>> {
    match levels {
        Some(levels) => Some(rungs(levels@)),
        None => None,
    }
}

fn execution_levels(book: &MarketBook, side: OutcomeSide) -> (result: Option<Vec<ExecutionLevel>>)
    ensures
        rungs_of(result) == side_rungs(book@, side),
{
    match side {
        OutcomeSide::Long => Some(long_levels(&book.offers)),
        OutcomeSide::Short => short_levels(&book.bids),
    }
}

fn try_open(run: Replay, position: PaperPosition) -> (result: Option<Replay>)
    ensures
        run_of(result) == tried_open(run@, position@),
{
    let mut run = run;
    let opened = run.portfolio.open(position, run.options.settings.maximum_total_exposure)?;
    if opened {
        run.filled = bump(run.filled);
    } else {
        run.blocked_by_exposure = bump(run.blocked_by_exposure);
    }
    Some(run)
}

fn leave_unfilled(run: Replay, reason: &str) -> (result: Replay)
    ensures
        result@ == not_filled(run@, reason@),
{
    let unfilled = run.unfilled.count(reason);
    Replay { unfilled, ..run }
}

fn meet_order(
    run: Replay,
    order: &PendingOrder,
    markets: &Vec<UsMoneylineMarket>,
    books: &Vec<MarketBook>,
    now: Timestamp,
) -> (result: Option<Replay>)
    ensures
        run_of(result) == order_met(
            run@,
            order@,
            us_moneyline_market_views(markets@),
            market_book_views(books@),
            now@,
        ),
{
    let row = &order.opportunity;
    if !order.submitted_at.before(now) {
        let mut run = run;
        run.pending.push(
            PendingOrder { opportunity: row.clone(), submitted_at: order.submitted_at },
        );
        return Some(run);
    }
    let (market, book) = match (
        find_market(markets, row.market_id.as_str()),
        find_book(books, row.market_slug.as_str()),
    ) {
        (Some(m), Some(b)) => (&markets[m], &books[b]),
        _ => {
            return Some(leave_unfilled(run, "no book in next frame"));
        },
    };
    if !now.before(market.start_time) {
        return Some(leave_unfilled(run, "market started"));
    }
    let levels = execution_levels(book, row.side)?;
    let there = eligible_depth(market.minimum_quantity, row.executable_price, &levels)?;
    if !Decimal::zero().less(there) || there.less(row.quantity) {
        return Some(leave_unfilled(run, "price moved through limit"));
    }
    let sized = size_position_from_levels(
        row.maximum_loss,
        market.fee_coefficient,
        market.minimum_quantity,
        row.executable_price,
        &levels,
    )?;
    let mut run = run;
    let mut position = PaperPosition::from_opportunity(row, now);
    if !Decimal::zero().less(sized.quantity) {
        return try_open(run, position);
    }
    if sized.quantity.less(row.quantity) {
        run.partial_fills = bump(run.partial_fills);
    }
    position.quantity = sized.quantity;
    position.entry_price = sized.average_side_price;
    position.estimated_fee = sized.estimated_fee;
    position.maximum_loss = sized.maximum_loss;
    try_open(run, position)
}

proof fn lemma_orders_stay_missing(
    r: Run,
    orders: Seq<Order>,
    markets: Seq<Market>,
    books: Seq<Book>,
    now: int,
    at: int,
)
    requires
        0 <= at <= orders.len(),
        orders_met(r, orders.take(at), markets, books, now) is None,
    ensures
        orders_met(r, orders, markets, books, now) is None,
    decreases orders.len() - at,
{
    if at < orders.len() {
        take_next(orders, at);
        lemma_orders_stay_missing(r, orders, markets, books, now, at + 1);
    }
}

/// Top-of-book mid as the venue's implied probability for `side`; the outer
/// `None` on overflow, the inner one where either side of the book is empty.
fn side_mid(book: &MarketBook, side: OutcomeSide) -> (result: Option<Option<Decimal>>)
    ensures
        price_of(result) == mid_on(book@, side),
{
    if book.bids.len() == 0 || book.offers.len() == 0 {
        return Some(None);
    }
    assert(book@.bids[0] == book.bids@[0]@ && book@.offers[0] == book.offers@[0]@);
    let both = book.bids[0].yes_price.checked_add(book.offers[0].yes_price)?;
    let mid = both.checked_div(Decimal::two())?;
    match side {
        OutcomeSide::Long => Some(Some(mid)),
        OutcomeSide::Short => {
            let rest = Decimal::one().checked_sub(mid)?;
            Some(Some(rest))
        },
    }
}

fn fee_per_contract(row: &Opportunity) -> (result: Option<Decimal>)
    ensures
        dec_of(result) == fee_each(row@),
{
    if Decimal::zero().less(row.quantity) {
        row.estimated_fee.checked_div(row.quantity)
    } else {
        Some(Decimal::zero())
    }
}

spec fn seen_of(o: Option<Observation>) -> Option<Seen> {
    match o {
        Some(o) => Some(o@),
        None => None,
    }
}

fn observe(row: &Opportunity, books: &Vec<MarketBook>) -> (result: Option<Observation>)
    ensures
        seen_of(result) == observed(row@, market_book_views(books@)),
{
    let market_probability = match find_book(books, row.market_slug.as_str()) {
        Some(k) => match side_mid(&books[k], row.side)? {
            Some(mid) => mid,
            None => row.executable_price,
        },
        None => row.executable_price,
    };
    let fee_per_contract = fee_per_contract(row)?;
    Some(
        Observation {
            class: row.class,
            sport: row.sport,
            market_id: owned(row.market_id.as_str()),
            side: row.side,
            fair_probability: row.fair_probability,
            conservative_probability: row.conservative_probability,
            executable_price: row.executable_price,
            market_probability,
            raw_edge: row.raw_edge,
            fee_per_contract,
        },
    )
}

fn keep_last(observations: Vec<Observation>, seen: Observation) -> (result: Vec<Observation>)
    ensures
        seen_views(result@) == kept_last(seen_views(observations@), seen@),
{
    let ghost all = seen_views(observations@);
    let mut out = observations;
    let mut i: usize = 0;
    while i < out.len() && !(same(out[i].market_id.as_str(), seen.market_id.as_str())
        && out[i].side == seen.side)
        invariant
            all == seen_views(out@),
            i <= out@.len(),
            side_at(all, seen@.market_id, seen@.side, 0) == side_at(
                all,
                seen@.market_id,
                seen@.side,
                i as int,
            ),
        decreases out@.len() - i,
    {
        assert(all[i as int] == out@[i as int]@);
        i = i + 1;
    }
    if i < out.len() {
        assert(all[i as int] == out@[i as int]@);
        out.set(i, seen);
        assert(seen_views(out@) =~= all.update(i as int, seen@));
    } else {
        out.push(seen);
    }
    out
}

fn is_waiting(pending: &Vec<PendingOrder>, market_id: &str, side: OutcomeSide) -> (result: bool)
    ensures
        result == waits(order_views(pending@), market_id@, side),
{
    let ghost all = order_views(pending@);
    let mut i: usize = 0;
    while i < pending.len()
        invariant
            i <= pending@.len(),
            all == order_views(pending@),
            forall|j: int|
                0 <= j < i ==> !((#[trigger] all[j]).row.market_id == market_id@ && all[j].row.side
                    == side),
        decreases pending@.len() - i,
    {
        assert(all[i as int] == pending@[i as int]@);
        if same(pending[i].opportunity.market_id.as_str(), market_id)
            && pending[i].opportunity.side == side {
            return true;
        }
        i = i + 1;
    }
    false
}

fn take_row(run: Replay, row: &Opportunity, books: &Vec<MarketBook>, now: Timestamp) -> (result:
    Option<Replay>)
    ensures
        run_of(result) == row_taken(run@, row@, market_book_views(books@), now@),
{
    let seen = observe(row, books)?;
    let rejected = row.class.rank() < run.options.open_class.rank()
        || !Decimal::zero().less(row.quantity) || run.portfolio.has_market_side(
        row.market_id.as_str(),
        row.side,
    ) || is_waiting(&run.pending, row.market_id.as_str(), row.side);
    let rows_by_class = run.rows_by_class.count(row.class.name());
    let observations = keep_last(run.observations, seen);
    let mut run = Replay { rows_by_class, observations, ..run };
    if rejected {
        return Some(run);
    }
    run.submitted = bump(run.submitted);
    match run.options.fill {
        FillModel::SameBook => {
            let position = PaperPosition::from_opportunity(row, now);
            try_open(run, position)
        },
        FillModel::NextBook => {
            run.pending.push(PendingOrder { opportunity: row.clone(), submitted_at: now });
            Some(run)
        },
    }
}

proof fn lemma_rows_stay_missing(r: Run, rows: Seq<Row>, books: Seq<Book>, now: int, at: int)
    requires
        0 <= at <= rows.len(),
        rows_taken(r, rows.take(at), books, now) is None,
    ensures
        rows_taken(r, rows, books, now) is None,
    decreases rows.len() - at,
{
    if at < rows.len() {
        take_next(rows, at);
        lemma_rows_stay_missing(r, rows, books, now, at + 1);
    }
}

impl Replay {
    pub fn new(options: ReplayOptions) -> (result: Replay)
        ensures
            result@ == fresh_run(options@),
    {
        let portfolio = PaperPortfolio::new(options.settings.bankroll);
        Replay {
            options,
            portfolio,
            pending: Vec::new(),
            observations: Vec::new(),
            equity: Vec::new(),
            frames: 0,
            frames_recomputed: 0,
            frames_stored: 0,
            rows_by_class: TextMap::new(),
            submitted: 0,
            filled: 0,
            partial_fills: 0,
            unfilled: TextMap::new(),
            blocked_by_exposure: 0,
            first_input_at: None,
            last_input_at: None,
        }
    }

    /// Settles open positions whose game started at least the settlement lag
    /// ago and whose market has a recorded settlement. Positions without one
    /// stay open and are reported as unsettled. `None` on overflow.
    pub fn settle_due(self, now: Timestamp, outcomes: &TextMap<MarketOutcome>) -> (result: Option<
        Replay,
    >)
        ensures
            run_of(result) == settled_due(self@, outcome_views(outcomes@), now@),
    {
        let ghost before = self@;
        let ghost known = outcome_views(outcomes@);
        let held = crate::domain::copy_paper_positions(&self.portfolio.open_positions);
        let ghost all = paper_position_views(held@);
        let mut run = self;
        run.portfolio.open_positions = Vec::new();
        let ghost start = books_of(run@);
        assert(start == unlooked(before));
        let mut i: usize = 0;
        while i < held.len()
            invariant
                i <= held@.len(),
                all == paper_position_views(held@),
                known == outcome_views(outcomes@),
                before == self@,
                start == unlooked(before),
                all == before.portfolio.open_positions,
                run@.options == before.options,
                Some(run@) == with_books(
                    before,
                    looked_through(start, all.take(i as int), known, before.options, now@),
                ),
            decreases held@.len() - i,
        {
            proof {
                take_next(all, i as int);
            }
            let position = held[i].clone();
            match look_at(run, position, outcomes, now) {
                Some(next) => {
                    run = next;
                },
                None => {
                    proof {
                        lemma_look_stays_missing(start, all, known, before.options, now@, i + 1);
                    }
                    return None;
                },
            }
            i = i + 1;
        }
        Some(run)
    }

    /// Orders submitted on an earlier frame fill against this frame's book,
    /// never their own. A book that no longer offers the quantity at or below the
    /// decision price leaves the order unfilled; a market without a book in
    /// this frame (started, suspended, lost its consensus) is dropped. `None`
    /// on overflow.
    fn resolve_pending(
        self,
        markets: &Vec<UsMoneylineMarket>,
        books: &Vec<MarketBook>,
        now: Timestamp,
    ) -> (result: Option<Replay>)
        ensures
            run_of(result) == resolved(
                self@,
                us_moneyline_market_views(markets@),
                market_book_views(books@),
                now@,
            ),
    {
        let ghost before = self@;
        let ghost shelf = market_book_views(books@);
        let ghost field = us_moneyline_market_views(markets@);
        let none: Vec<PendingOrder> = Vec::new();
        let waiting = self.pending;
        let mut run = Replay { pending: none, ..self };
        let ghost all = order_views(waiting@);
        let ghost start = run@;
        assert(start == (Run { pending: seq![], ..before }));
        let mut i: usize = 0;
        while i < waiting.len()
            invariant
                i <= waiting@.len(),
                all == order_views(waiting@),
                shelf == market_book_views(books@),
                field == us_moneyline_market_views(markets@),
                before == self@,
                start == (Run { pending: seq![], ..before }),
                all == before.pending,
                orders_met(start, all.take(i as int), field, shelf, now@) == Some(run@),
            decreases waiting@.len() - i,
        {
            proof {
                take_next(all, i as int);
            }
            match meet_order(run, &waiting[i], markets, books, now) {
                Some(next) => {
                    run = next;
                },
                None => {
                    proof {
                        lemma_orders_stay_missing(start, all, field, shelf, now@, i + 1);
                    }
                    return None;
                },
            }
            i = i + 1;
        }
        Some(run)
    }

    /// Advances to `frame`. Frames must arrive in the order of `evaluated_at`.
    /// `None` on overflow.
    pub fn step(self, frame: &Frame, outcomes: &TextMap<MarketOutcome>) -> (result: Option<Replay>)
        ensures
            run_of(result) == stepped(self@, frame@, outcome_views(outcomes@)),
    {
        let now = frame.evaluated_at;
        let recomputed = frame.has_books();
        let ghost before = self@;
        let mut run = self;
        run.frames = bump(run.frames);
        if recomputed {
            run.frames_recomputed = bump(run.frames_recomputed);
        } else {
            run.frames_stored = bump(run.frames_stored);
        }
        if run.first_input_at.is_none() {
            run.first_input_at = Some(now);
        }
        run.last_input_at = Some(now);
        assert(run@ == frame_counted(before, frame@));
        let run = run.settle_due(now, outcomes)?;
        let ghost due = run@;
        let rows = if recomputed {
            let evaluable = consensus_markets(
                &frame.markets,
                &frame.quotes,
                &run.options.settings,
                now,
            );
            evaluate_books(&run.options.settings, &evaluable, &frame.books, &run.portfolio, now)?
        } else {
            copy_opportunities(&frame.opportunities)
        };
        assert(frame_rows(due, frame@) == Some(opportunity_views(rows@)));
        let run = run.resolve_pending(&frame.markets, &frame.books, now)?;
        run.take_rows(&rows, &frame.books, now)
    }

    fn take_rows(self, rows: &Vec<Opportunity>, books: &Vec<MarketBook>, now: Timestamp) -> (result:
        Option<Replay>)
        ensures
            run_of(result) == rows_taken(
                self@,
                opportunity_views(rows@),
                market_book_views(books@),
                now@,
            ),
    {
        let ghost met = self@;
        let ghost all = opportunity_views(rows@);
        let ghost shelf = market_book_views(books@);
        let mut run = self;
        let mut i: usize = 0;
        while i < rows.len()
            invariant
                i <= rows@.len(),
                met == self@,
                all == opportunity_views(rows@),
                shelf == market_book_views(books@),
                rows_taken(met, all.take(i as int), shelf, now@) == Some(run@),
            decreases rows@.len() - i,
        {
            proof {
                take_next(all, i as int);
            }
            match take_row(run, &rows[i], books, now) {
                Some(next) => {
                    run = next;
                },
                None => {
                    proof {
                        lemma_rows_stay_missing(met, all, shelf, now@, i + 1);
                    }
                    return None;
                },
            }
            i = i + 1;
        }
        Some(run)
    }
}

/// An observation whose market has settled.
pub struct Grade {
    pub seen: Seen,
    pub outcome: Outcome,
    pub payout: Dec,
}

/// What came of an observation: absent before the settlement, missing on
/// overflow.
pub open spec fn grade_of(seen: Seen, outcomes: Map<Seq<char>, Outcome>) -> Option<Option<Grade>> {
    if outcomes.contains_key(seen.market_id) {
        let outcome = outcomes[seen.market_id];
        match payout_on(outcome, seen.side) {
            Some(Some(payout)) => Some(Some(Grade { seen, outcome, payout })),
            Some(None) => Some(None),
            None => None,
        }
    } else {
        Some(None)
    }
}

/// The observations whose markets have settled; missing on overflow.
pub open spec fn grades(observations: Seq<Seen>, outcomes: Map<Seq<char>, Outcome>) -> Option<
    Seq<Grade>,
>
    decreases observations.len(),
{
    if observations.len() == 0 {
        Some(seq![])
    } else {
        match (grades(observations.drop_last(), outcomes), grade_of(observations.last(), outcomes)) {
            (Some(front), Some(Some(grade))) => Some(front.push(grade)),
            (Some(front), Some(None)) => Some(front),
            _ => None,
        }
    }
}

/// The graded long sides. The short side is the mirror image and would count
/// every market twice.
pub open spec fn long_grades(graded: Seq<Grade>) -> Seq<Grade> {
    graded.filter(|g: Grade| g.seen.side == OutcomeSide::Long)
}

pub open spec fn of_sport(graded: Seq<Grade>, sport: Sport) -> Seq<Grade> {
    graded.filter(|g: Grade| g.seen.sport == sport)
}

pub open spec fn consensus_pairs(graded: Seq<Grade>) -> Seq<(Dec, Dec)> {
    graded.map_values(|g: Grade| (g.seen.fair_probability, g.payout))
}

pub open spec fn conservative_pairs(graded: Seq<Grade>) -> Seq<(Dec, Dec)> {
    graded.map_values(|g: Grade| (g.seen.conservative_probability, g.payout))
}

pub open spec fn market_pairs(graded: Seq<Grade>) -> Seq<(Dec, Dec)> {
    graded.map_values(|g: Grade| (g.seen.market_probability, g.payout))
}

#[derive(Debug)]
pub struct SportEfficiency {
    pub graded_markets: usize,
    pub brier_consensus: Option<Decimal>,
    pub brier_polymarket: Option<Decimal>,
}

/// The scores of one sport.
pub struct SportScores {
    pub graded_markets: nat,
    pub brier_consensus: Option<Dec>,
    pub brier_polymarket: Option<Dec>,
}

impl View for SportEfficiency {
    type V = SportScores;

    open spec fn view(&self) -> SportScores {
        SportScores {
            graded_markets: self.graded_markets as nat,
            brier_consensus: dec_of(self.brier_consensus),
            brier_polymarket: dec_of(self.brier_polymarket),
        }
    }
}

pub open spec fn sport_rows(items: Seq<(String, SportEfficiency)>) -> Seq<(Seq<char>, SportScores)> {
    items.map_values(|item: (String, SportEfficiency)| (item.0@, item.1@))
}

/// The sports in the order of their names.
pub open spec fn sports_by_name() -> Seq<Sport> {
    seq![Sport::Mlb, Sport::Nba, Sport::Nfl, Sport::Tennis, Sport::Wnba]
}

pub open spec fn sport_scores(graded: Seq<Grade>) -> Option<SportScores> {
    match (brier_score(consensus_pairs(graded)), brier_score(market_pairs(graded))) {
        (Some(brier_consensus), Some(brier_polymarket)) => Some(
            SportScores { graded_markets: graded.len(), brier_consensus, brier_polymarket },
        ),
        _ => None,
    }
}

/// The scores of each of some sports that has graded markets; missing on
/// overflow.
pub open spec fn scores_by_sport(graded: Seq<Grade>, sports: Seq<Sport>) -> Option<
    Seq<(Seq<char>, SportScores)>,
>
    decreases sports.len(),
{
    if sports.len() == 0 {
        Some(seq![])
    } else {
        let sport = sports.last();
        let inside = of_sport(graded, sport);
        match scores_by_sport(graded, sports.drop_last()) {
            Some(front) => if inside.len() == 0 {
                Some(front)
            } else {
                match sport_scores(inside) {
                    Some(scores) => Some(front.push((sport.label(), scores))),
                    None => None,
                }
            },
            None => None,
        }
    }
}

#[derive(Debug)]
pub struct Efficiency {
    /// Settled markets with a long-side observation.
    pub graded_markets: usize,
    pub brier_consensus: Option<Decimal>,
    pub brier_conservative: Option<Decimal>,
    pub brier_polymarket: Option<Decimal>,
    pub reliability_consensus: Vec<ReliabilityBucket>,
    pub reliability_polymarket: Vec<ReliabilityBucket>,
    /// By the name of the sport, in the order of the names.
    pub by_sport: Vec<(String, SportEfficiency)>,
}

/// Efficiency as mathematics.
pub struct Scores {
    pub graded_markets: nat,
    pub brier_consensus: Option<Dec>,
    pub brier_conservative: Option<Dec>,
    pub brier_polymarket: Option<Dec>,
    pub reliability_consensus: Seq<Bucket>,
    pub reliability_polymarket: Seq<Bucket>,
    pub by_sport: Seq<(Seq<char>, SportScores)>,
}

impl View for Efficiency {
    type V = Scores;

    open spec fn view(&self) -> Scores {
        Scores {
            graded_markets: self.graded_markets as nat,
            brier_consensus: dec_of(self.brier_consensus),
            brier_conservative: dec_of(self.brier_conservative),
            brier_polymarket: dec_of(self.brier_polymarket),
            reliability_consensus: buckets_of(self.reliability_consensus@),
            reliability_polymarket: buckets_of(self.reliability_polymarket@),
            by_sport: sport_rows(self.by_sport@),
        }
    }
}

/// How well consensus and venue predicted the graded long sides.
pub open spec fn efficiency_of(graded: Seq<Grade>) -> Option<Scores> {
    let long = long_grades(graded);
    match (
        brier_score(consensus_pairs(long)),
        brier_score(conservative_pairs(long)),
        brier_score(market_pairs(long)),
        reliability_rows(consensus_pairs(long), 10),
        reliability_rows(market_pairs(long), 10),
        scores_by_sport(long, sports_by_name()),
    ) {
        (
            Some(brier_consensus),
            Some(brier_conservative),
            Some(brier_polymarket),
            Some(reliability_consensus),
            Some(reliability_polymarket),
            Some(by_sport),
        ) => Some(
            Scores {
                graded_markets: long.len(),
                brier_consensus,
                brier_conservative,
                brier_polymarket,
                reliability_consensus,
                reliability_polymarket,
                by_sport,
            },
        ),
        _ => None,
    }
}

#[derive(Debug)]
pub struct EdgeBucket {
    pub lower: Option<Decimal>,
    pub upper: Option<Decimal>,
    pub return_per_contract: Summary,
}

/// An edge bucket as mathematics.
pub struct EdgeRow {
    pub lower: Option<Dec>,
    pub upper: Option<Dec>,
    pub return_per_contract: Digest,
}

impl View for EdgeBucket {
    type V = EdgeRow;

    open spec fn view(&self) -> EdgeRow {
        EdgeRow {
            lower: dec_of(self.lower),
            upper: dec_of(self.upper),
            return_per_contract: self.return_per_contract@,
        }
    }
}

pub open spec fn edge_rows(items: Seq<EdgeBucket>) -> Seq<EdgeRow> {
    items.map_values(|item: EdgeBucket| item@)
}

/// The bounds of the edge buckets: below zero, then at 2, 5 and 10 points.
pub open spec fn edge_bounds() -> Seq<(Option<Dec>, Option<Dec>)> {
    seq![
        (None, Some(zero())),
        (Some(zero()), Some(dec(2, 2))),
        (Some(dec(2, 2)), Some(dec(5, 2))),
        (Some(dec(5, 2)), Some(dec(10, 2))),
        (Some(dec(10, 2)), None),
    ]
}

/// At or above the lower bound and below the upper one.
pub open spec fn within(edge: Dec, bounds: (Option<Dec>, Option<Dec>)) -> bool {
    &&& bounds.0 matches Some(lower) ==> lower.le(edge)
    &&& bounds.1 matches Some(upper) ==> edge.lt(upper)
}

/// What a contract of a graded side returned.
pub open spec fn contract_return(g: Grade) -> Option<Dec> {
    minus(difference(g.payout, g.seen.executable_price), Some(g.seen.fee_per_contract))
}

/// The returns of the graded sides with an edge inside the bounds; missing on
/// overflow.
pub open spec fn returns_within(graded: Seq<Grade>, bounds: (Option<Dec>, Option<Dec>)) -> Option<
    Seq<Dec>,
>
    decreases graded.len(),
{
    if graded.len() == 0 {
        Some(seq![])
    } else {
        let last = graded.last();
        match returns_within(graded.drop_last(), bounds) {
            Some(front) => if !within(last.seen.raw_edge, bounds) {
                Some(front)
            } else {
                match contract_return(last) {
                    Some(r) => Some(front.push(r)),
                    None => None,
                }
            },
            None => None,
        }
    }
}

/// The populated ones of some edge buckets; missing on overflow.
pub open spec fn edges_in(graded: Seq<Grade>, bounds: Seq<(Option<Dec>, Option<Dec>)>) -> Option<
    Seq<EdgeRow>,
>
    decreases bounds.len(),
{
    if bounds.len() == 0 {
        Some(seq![])
    } else {
        let last = bounds.last();
        match (edges_in(graded, bounds.drop_last()), returns_within(graded, last)) {
            (Some(front), Some(gains)) => match digest(gains) {
                Some(Some(d)) => Some(
                    front.push(EdgeRow { lower: last.0, upper: last.1, return_per_contract: d }),
                ),
                Some(None) => Some(front),
                None => None,
            },
            _ => None,
        }
    }
}

/// Closing price minus executable price of the graded sides at or above a
/// class; missing on overflow.
pub open spec fn candidate_lines(graded: Seq<Grade>, open_class: RecommendationClass) -> Option<
    Seq<Dec>,
>
    decreases graded.len(),
{
    if graded.len() == 0 {
        Some(seq![])
    } else {
        let last = graded.last();
        let closing = closing_on(last.outcome, last.seen.side);
        match candidate_lines(graded.drop_last(), open_class) {
            Some(front) => if last.seen.class.strength() < open_class.strength() || closing is None {
                Some(front)
            } else {
                match minus(closing, Some(last.seen.executable_price)) {
                    Some(line) => Some(front.push(line)),
                    None => None,
                }
            },
            None => None,
        }
    }
}

/// The closing-line values of the positions that have one.
pub open spec fn position_lines(positions: Seq<Position>) -> Seq<Dec>
    decreases positions.len(),
{
    if positions.len() == 0 {
        seq![]
    } else {
        match line_value(positions.last()) {
            Some(line) => position_lines(positions.drop_last()).push(line),
            None => position_lines(positions.drop_last()),
        }
    }
}

/// The results of the positions that have one.
pub open spec fn position_results(positions: Seq<Position>) -> Seq<Dec>
    decreases positions.len(),
{
    if positions.len() == 0 {
        seq![]
    } else {
        match positions.last().realized_pnl {
            Some(r) => position_results(positions.drop_last()).push(r),
            None => position_results(positions.drop_last()),
        }
    }
}

#[derive(Debug)]
pub struct Paper {
    pub submitted: usize,
    pub filled: usize,
    /// Fills for fewer contracts than were ordered, where what an order risked
    /// buys fewer at the next book.
    pub partial_fills: usize,
    pub unfilled: TextMap<usize>,
    pub blocked_by_exposure: usize,
    pub settled: usize,
    pub unsettled_open: usize,
    pub realized_pnl: Decimal,
    pub risked: Decimal,
    pub roi_on_risk: Option<Decimal>,
    pub final_bankroll: Decimal,
    pub drawdown: Drawdown,
    pub position_pnl: Option<Summary>,
    pub closing_line_value: Option<Summary>,
    pub equity: Vec<(Timestamp, Decimal)>,
}

/// The paper record as mathematics.
pub struct PaperRecord {
    pub submitted: int,
    pub filled: int,
    pub partial_fills: int,
    pub unfilled: Map<Seq<char>, usize>,
    pub blocked_by_exposure: int,
    pub settled: nat,
    pub unsettled_open: nat,
    pub realized_pnl: Dec,
    pub risked: Dec,
    pub roi_on_risk: Option<Dec>,
    pub final_bankroll: Dec,
    pub drawdown: Fall,
    pub position_pnl: Option<Digest>,
    pub closing_line_value: Option<Digest>,
    pub equity: Seq<(int, Dec)>,
}

impl View for Paper {
    type V = PaperRecord;

    open spec fn view(&self) -> PaperRecord {
        PaperRecord {
            submitted: self.submitted as int,
            filled: self.filled as int,
            partial_fills: self.partial_fills as int,
            unfilled: self.unfilled@,
            blocked_by_exposure: self.blocked_by_exposure as int,
            settled: self.settled as nat,
            unsettled_open: self.unsettled_open as nat,
            realized_pnl: self.realized_pnl@,
            risked: self.risked@,
            roi_on_risk: dec_of(self.roi_on_risk),
            final_bankroll: self.final_bankroll@,
            drawdown: self.drawdown@,
            position_pnl: digest_of(self.position_pnl),
            closing_line_value: digest_of(self.closing_line_value),
            equity: curve(self.equity@),
        }
    }
}

/// What was earned per dollar risked: absent where nothing was, missing on
/// overflow.
pub open spec fn return_on_risk(realized: Dec, risked: Dec) -> Option<Option<Dec>> {
    if zero().lt(risked) {
        match quotient(realized, risked) {
            Some(q) => Some(Some(rounded(q, 4))),
            None => None,
        }
    } else {
        Some(None)
    }
}

/// What the simulated portfolio did; missing on overflow.
pub open spec fn paper_record(r: Run) -> Option<PaperRecord> {
    let done = r.portfolio.closed_positions;
    match (
        exposure(done),
        deepest(r.equity),
        digest(position_results(done)),
        digest(position_lines(done)),
    ) {
        (Some(risked), Some(drawdown), Some(position_pnl), Some(closing_line_value)) => match return_on_risk(
            r.portfolio.realized_pnl,
            risked,
        ) {
            Some(roi_on_risk) => Some(
                PaperRecord {
                    submitted: r.submitted,
                    filled: r.filled,
                    partial_fills: r.partial_fills,
                    unfilled: r.unfilled,
                    blocked_by_exposure: r.blocked_by_exposure,
                    settled: done.len(),
                    unsettled_open: r.portfolio.open_positions.len(),
                    realized_pnl: rounded(r.portfolio.realized_pnl, 4),
                    risked: rounded(risked, 4),
                    roi_on_risk,
                    final_bankroll: rounded(r.portfolio.bankroll, 4),
                    drawdown,
                    position_pnl,
                    closing_line_value,
                    equity: r.equity,
                },
            ),
            None => None,
        },
        _ => None,
    }
}

/// What a reader must know about the limits of the record.
pub open spec fn caveats(r: Run) -> Seq<Seq<char>> {
    let always = seq![
        "News evidence is not replayable; classes are pre-news (Actionable here means the numeric gates passed, which the live system would still send to review)."@,
        "Fills are assumed from displayed depth; no queue position, no partial-fill timing, no maker fills."@,
        "Settlement releases exposure "@ + int_text(r.options.settlement_lag_hours)
            + " h after scheduled start regardless of when the venue actually settled."@,
    ];
    let stored = crate::opportunity::noted(
        always,
        r.frames_stored > 0,
        int_text(r.frames_stored) + " of "@ + int_text(r.frames)
            + " frames were imported without books: their rows keep the class decided under the gates of that time and their market probability is the taker price, not the mid."@,
    );
    crate::opportunity::noted(
        stored,
        r.portfolio.open_positions.len() > 0,
        int_text(r.portfolio.open_positions.len() as int)
            + " positions never settled inside the window; realized P&L excludes them."@,
    )
}

#[derive(Debug)]
pub struct ReplayReport {
    pub generated_at: Timestamp,
    /// Always false: a backtest is evidence for research, not approval.
    pub production_approved: bool,
    pub frames: usize,
    pub frames_recomputed: usize,
    pub frames_stored: usize,
    pub first_input_at: Option<Timestamp>,
    pub last_input_at: Option<Timestamp>,
    pub options: ReplayOptions,
    pub rows_by_class: TextMap<usize>,
    /// Distinct market sides observed.
    pub observations: usize,
    pub graded_observations: usize,
    pub ungraded_observations: usize,
    pub efficiency: Efficiency,
    pub edge_buckets: Vec<EdgeBucket>,
    /// Closing side price minus executable price for the last observation of
    /// every side at or above `open_class`, whether or not it was opened.
    pub candidate_closing_line_value: Option<Summary>,
    pub paper: Paper,
    pub limitations: Vec<String>,
}

/// A report as mathematics.
pub struct Report {
    pub generated_at: int,
    pub production_approved: bool,
    pub frames: int,
    pub frames_recomputed: int,
    pub frames_stored: int,
    pub first_input_at: Option<int>,
    pub last_input_at: Option<int>,
    pub options: Options,
    pub rows_by_class: Map<Seq<char>, usize>,
    pub observations: nat,
    pub graded_observations: nat,
    pub ungraded_observations: int,
    pub efficiency: Scores,
    pub edge_buckets: Seq<EdgeRow>,
    pub candidate_closing_line_value: Option<Digest>,
    pub paper: PaperRecord,
    pub limitations: Seq<Seq<char>>,
}

impl View for ReplayReport {
    type V = Report;

    open spec fn view(&self) -> Report {
        Report {
            generated_at: self.generated_at@,
            production_approved: self.production_approved,
            frames: self.frames as int,
            frames_recomputed: self.frames_recomputed as int,
            frames_stored: self.frames_stored as int,
            first_input_at: instant_of(self.first_input_at),
            last_input_at: instant_of(self.last_input_at),
            options: self.options@,
            rows_by_class: self.rows_by_class@,
            observations: self.observations as nat,
            graded_observations: self.graded_observations as nat,
            ungraded_observations: self.ungraded_observations as int,
            efficiency: self.efficiency@,
            edge_buckets: edge_rows(self.edge_buckets@),
            candidate_closing_line_value: digest_of(self.candidate_closing_line_value),
            paper: self.paper@,
            limitations: texts(self.limitations@),
        }
    }
}

/// The counts after `n` more of a key.
pub open spec fn tallied_times(counts: Map<Seq<char>, usize>, key: Seq<char>, n: nat) -> Map<
    Seq<char>,
    usize,
>
    decreases n,
{
    if n == 0 {
        counts
    } else {
        tallied(tallied_times(counts, key, (n - 1) as nat), key)
    }
}

/// The run after its window ended: what is due is settled, and what still waits
/// is not filled.
pub open spec fn ended(r: Run, outcomes: Map<Seq<char>, Outcome>, through: int) -> Option<Run> {
    match settled_due(r, outcomes, through) {
        Some(due) => Some(
            Run {
                pending: seq![],
                unfilled: tallied_times(due.unfilled, "window ended"@, due.pending.len()),
                ..due
            },
        ),
        None => None,
    }
}

/// The report on a run that has ended; missing on overflow.
pub open spec fn reported(r: Run, outcomes: Map<Seq<char>, Outcome>, generated_at: int) -> Option<
    Report,
> {
    match grades(r.observations, outcomes) {
        Some(graded) => match (
            efficiency_of(graded),
            edges_in(graded, edge_bounds()),
            candidate_lines(graded, r.options.open_class),
            paper_record(r),
        ) {
            (Some(efficiency), Some(edge_buckets), Some(lines), Some(paper)) => match digest(lines) {
                Some(candidate_closing_line_value) => Some(
                    Report {
                        generated_at,
                        production_approved: false,
                        frames: r.frames,
                        frames_recomputed: r.frames_recomputed,
                        frames_stored: r.frames_stored,
                        first_input_at: r.first_input_at,
                        last_input_at: r.last_input_at,
                        options: r.options,
                        rows_by_class: r.rows_by_class,
                        observations: r.observations.len(),
                        graded_observations: graded.len(),
                        ungraded_observations: r.observations.len() - graded.len(),
                        efficiency,
                        edge_buckets,
                        candidate_closing_line_value,
                        paper,
                        limitations: caveats(r),
                    },
                ),
                None => None,
            },
            _ => None,
        },
        None => None,
    }
}

/// An observation whose market has settled.
struct Graded {
    seen: Observation,
    outcome: MarketOutcome,
    payout: Decimal,
}

impl View for Graded {
    type V = Grade;

    closed spec fn view(&self) -> Grade {
        Grade { seen: self.seen@, outcome: self.outcome@, payout: self.payout@ }
    }
}

spec fn grade_views(items: Seq<Graded>) -> Seq<Grade> {
    items.map_values(|item: Graded| item@)
}

impl Clone for MarketOutcome {
    fn clone(&self) -> (result: MarketOutcome)
        ensures
            result@ == self@,
    {
        MarketOutcome {
            market_id: owned(self.market_id.as_str()),
            start_time: self.start_time,
            closing_long: self.closing_long,
            closing_short: self.closing_short,
            closing_observed_at: self.closing_observed_at,
            settlement: self.settlement,
            settled_recorded_at: self.settled_recorded_at,
        }
    }
}

impl Clone for Observation {
    fn clone(&self) -> (result: Observation)
        ensures
            result@ == self@,
    {
        Observation {
            class: self.class,
            sport: self.sport,
            market_id: owned(self.market_id.as_str()),
            side: self.side,
            fair_probability: self.fair_probability,
            conservative_probability: self.conservative_probability,
            executable_price: self.executable_price,
            market_probability: self.market_probability,
            raw_edge: self.raw_edge,
            fee_per_contract: self.fee_per_contract,
        }
    }
}

impl Clone for Graded {
    fn clone(&self) -> (result: Graded)
        ensures
            result@ == self@,
    {
        Graded { seen: self.seen.clone(), outcome: self.outcome.clone(), payout: self.payout }
    }
}

proof fn lemma_grades_stay_missing(
    observations: Seq<Seen>,
    outcomes: Map<Seq<char>, Outcome>,
    at: int,
)
    requires
        0 <= at <= observations.len(),
        grades(observations.take(at), outcomes) is None,
    ensures
        grades(observations, outcomes) is None,
    decreases observations.len() - at,
{
    if at < observations.len() {
        take_next(observations, at);
        lemma_grades_stay_missing(observations, outcomes, at + 1);
    }
}

fn grade_all(observations: &Vec<Observation>, outcomes: &TextMap<MarketOutcome>) -> (result: Option<
    Vec<Graded>,
>)
    ensures
        match result {
            Some(graded) => grades(seen_views(observations@), outcome_views(outcomes@)) == Some(
                grade_views(graded@),
            ) && graded@.len() <= observations@.len(),
            None => grades(seen_views(observations@), outcome_views(outcomes@)) is None,
        },
{
    let ghost all = seen_views(observations@);
    let ghost known = outcome_views(outcomes@);
    let mut out: Vec<Graded> = Vec::new();
    let mut i: usize = 0;
    while i < observations.len()
        invariant
            i <= observations@.len(),
            out@.len() <= i,
            all == seen_views(observations@),
            known == outcome_views(outcomes@),
            grades(all.take(i as int), known) == Some(grade_views(out@)),
        decreases observations@.len() - i,
    {
        proof {
            take_next(all, i as int);
        }
        let seen = &observations[i];
        match outcomes.get(seen.market_id.as_str()) {
            Some(outcome) => {
                assert(known[seen@.market_id] == outcome@);
                match outcome.payout(seen.side) {
                    Some(Some(payout)) => {
                        out.push(
                            Graded { seen: seen.clone(), outcome: outcome.clone(), payout },
                        );
                    },
                    Some(None) => {},
                    None => {
                        proof {
                            lemma_grades_stay_missing(all, known, i + 1);
                        }
                        return None;
                    },
                }
            },
            None => {},
        }
        i = i + 1;
    }
    Some(out)
}

fn keep_long(graded: &Vec<Graded>) -> (result: Vec<Graded>)
    ensures
        grade_views(result@) == long_grades(grade_views(graded@)),
{
    let ghost all = grade_views(graded@);
    let ghost keep = |g: Grade| g.seen.side == OutcomeSide::Long;
    let mut out: Vec<Graded> = Vec::new();
    let mut i: usize = 0;
    while i < graded.len()
        invariant
            i <= graded@.len(),
            all == grade_views(graded@),
            keep == (|g: Grade| g.seen.side == OutcomeSide::Long),
            grade_views(out@) == all.take(i as int).filter(keep),
        decreases graded@.len() - i,
    {
        proof {
            filter_next(all, keep, i as int);
        }
        if graded[i].seen.side == OutcomeSide::Long {
            out.push(graded[i].clone());
        }
        i = i + 1;
    }
    out
}

fn keep_sport(graded: &Vec<Graded>, sport: Sport) -> (result: Vec<Graded>)
    ensures
        grade_views(result@) == of_sport(grade_views(graded@), sport),
{
    let ghost all = grade_views(graded@);
    let ghost keep = |g: Grade| g.seen.sport == sport;
    let mut out: Vec<Graded> = Vec::new();
    let mut i: usize = 0;
    while i < graded.len()
        invariant
            i <= graded@.len(),
            all == grade_views(graded@),
            keep == (|g: Grade| g.seen.sport == sport),
            grade_views(out@) == all.take(i as int).filter(keep),
        decreases graded@.len() - i,
    {
        proof {
            filter_next(all, keep, i as int);
        }
        if graded[i].seen.sport == sport {
            out.push(graded[i].clone());
        }
        i = i + 1;
    }
    out
}

/// Whose probability is scored.
#[derive(Clone, Copy, PartialEq, Eq, Structural)]
enum Predictor {
    Consensus,
    Conservative,
    Venue,
}

spec fn predicted(graded: Seq<Grade>, who: Predictor) -> Seq<(Dec, Dec)> {
    match who {
        Predictor::Consensus => consensus_pairs(graded),
        Predictor::Conservative => conservative_pairs(graded),
        Predictor::Venue => market_pairs(graded),
    }
}

fn pairs(graded: &Vec<Graded>, who: Predictor) -> (result: Vec<(Decimal, Decimal)>)
    ensures
        pair_decs(result@) == predicted(grade_views(graded@), who),
{
    let ghost all = predicted(grade_views(graded@), who);
    let mut out: Vec<(Decimal, Decimal)> = Vec::new();
    let mut i: usize = 0;
    while i < graded.len()
        invariant
            i <= graded@.len(),
            all == predicted(grade_views(graded@), who),
            all.len() == graded@.len(),
            pair_decs(out@) == all.take(i as int),
        decreases graded@.len() - i,
    {
        proof {
            take_next(all, i as int);
        }
        let seen = &graded[i].seen;
        let probability = match who {
            Predictor::Consensus => seen.fair_probability,
            Predictor::Conservative => seen.conservative_probability,
            Predictor::Venue => seen.market_probability,
        };
        out.push((probability, graded[i].payout));
        i = i + 1;
    }
    out
}

proof fn lemma_sports_stay_missing(graded: Seq<Grade>, sports: Seq<Sport>, at: int)
    requires
        0 <= at <= sports.len(),
        scores_by_sport(graded, sports.take(at)) is None,
    ensures
        scores_by_sport(graded, sports) is None,
    decreases sports.len() - at,
{
    if at < sports.len() {
        take_next(sports, at);
        lemma_sports_stay_missing(graded, sports, at + 1);
    }
}

spec fn sport_scores_of(s: Option<SportEfficiency>) -> Option<SportScores> {
    match s {
        Some(s) => Some(s@),
        None => None,
    }
}

fn score_sport(graded: &Vec<Graded>) -> (result: Option<SportEfficiency>)
    ensures
        sport_scores_of(result) == sport_scores(grade_views(graded@)),
{
    let brier_consensus = brier(&pairs(graded, Predictor::Consensus))?;
    let brier_polymarket = brier(&pairs(graded, Predictor::Venue))?;
    Some(
        SportEfficiency { graded_markets: graded.len(), brier_consensus, brier_polymarket },
    )
}

spec fn sport_rows_of(rows: Option<Vec<(String, SportEfficiency)>>) -> Option<
    Seq<(Seq<char>, SportScores)>,
> {
    match rows {
        Some(rows) => Some(sport_rows(rows@)),
        None => None,
    }
}

fn score_sports(graded: &Vec<Graded>) -> (result: Option<Vec<(String, SportEfficiency)>>)
    ensures
        sport_rows_of(result) == scores_by_sport(grade_views(graded@), sports_by_name()),
{
    let ghost all = grade_views(graded@);
    let ghost named = sports_by_name();
    let sports: [Sport; 5] = [Sport::Mlb, Sport::Nba, Sport::Nfl, Sport::Tennis, Sport::Wnba];
    assert(sports@ =~= named);
    let mut out: Vec<(String, SportEfficiency)> = Vec::new();
    let mut i: usize = 0;
    while i < 5
        invariant
            i <= 5,
            sports@ == named,
            named.len() == 5,
            named == sports_by_name(),
            all == grade_views(graded@),
            scores_by_sport(all, named.take(i as int)) == Some(sport_rows(out@)),
        decreases 5 - i,
    {
        proof {
            take_next(named, i as int);
        }
        let inside = keep_sport(graded, sports[i]);
        if inside.len() > 0 {
            match score_sport(&inside) {
                Some(scores) => {
                    out.push((owned(sports[i].name()), scores));
                },
                None => {
                    proof {
                        lemma_sports_stay_missing(all, named, i + 1);
                    }
                    return None;
                },
            }
        }
        i = i + 1;
    }
    Some(out)
}

spec fn scores_of(e: Option<Efficiency>) -> Option<Scores> {
    match e {
        Some(e) => Some(e@),
        None => None,
    }
}

fn measure_efficiency(graded: &Vec<Graded>) -> (result: Option<Efficiency>)
    ensures
        scores_of(result) == efficiency_of(grade_views(graded@)),
{
    let long = keep_long(graded);
    let consensus = pairs(&long, Predictor::Consensus);
    let conservative = pairs(&long, Predictor::Conservative);
    let venue = pairs(&long, Predictor::Venue);
    let brier_consensus = brier(&consensus)?;
    let brier_conservative = brier(&conservative)?;
    let brier_polymarket = brier(&venue)?;
    let reliability_consensus = reliability(&consensus, 10)?;
    let reliability_polymarket = reliability(&venue, 10)?;
    let by_sport = score_sports(&long)?;
    Some(
        Efficiency {
            graded_markets: long.len(),
            brier_consensus,
            brier_conservative,
            brier_polymarket,
            reliability_consensus,
            reliability_polymarket,
            by_sport,
        },
    )
}

proof fn lemma_gains_stay_missing(graded: Seq<Grade>, bounds: (Option<Dec>, Option<Dec>), at: int)
    requires
        0 <= at <= graded.len(),
        returns_within(graded.take(at), bounds) is None,
    ensures
        returns_within(graded, bounds) is None,
    decreases graded.len() - at,
{
    if at < graded.len() {
        take_next(graded, at);
        lemma_gains_stay_missing(graded, bounds, at + 1);
    }
}

spec fn decs_of(values: Option<Vec<Decimal>>) -> Option<Seq<Dec>> {
    match values {
        Some(values) => Some(decs(values@)),
        None => None,
    }
}

fn gain(graded: &Graded) -> (result: Option<Decimal>)
    ensures
        dec_of(result) == contract_return(graded@),
{
    let before_fee = graded.payout.checked_sub(graded.seen.executable_price)?;
    before_fee.checked_sub(graded.seen.fee_per_contract)
}

fn gains_within(graded: &Vec<Graded>, lower: Option<Decimal>, upper: Option<Decimal>) -> (result:
    Option<Vec<Decimal>>)
    ensures
        decs_of(result) == returns_within(
            grade_views(graded@),
            (dec_of(lower), dec_of(upper)),
        ),
{
    let ghost all = grade_views(graded@);
    let ghost bounds = (dec_of(lower), dec_of(upper));
    let mut out: Vec<Decimal> = Vec::new();
    let mut i: usize = 0;
    while i < graded.len()
        invariant
            i <= graded@.len(),
            all == grade_views(graded@),
            bounds == (dec_of(lower), dec_of(upper)),
            returns_within(all.take(i as int), bounds) == Some(decs(out@)),
        decreases graded@.len() - i,
    {
        proof {
            take_next(all, i as int);
        }
        let edge = graded[i].seen.raw_edge;
        let high_enough = match lower {
            Some(lower) => lower.at_most(edge),
            None => true,
        };
        let low_enough = match upper {
            Some(upper) => edge.less(upper),
            None => true,
        };
        if high_enough && low_enough {
            match gain(&graded[i]) {
                Some(r) => {
                    out.push(r);
                },
                None => {
                    proof {
                        lemma_gains_stay_missing(all, bounds, i + 1);
                    }
                    return None;
                },
            }
        }
        i = i + 1;
    }
    Some(out)
}

proof fn lemma_edges_stay_missing(
    graded: Seq<Grade>,
    bounds: Seq<(Option<Dec>, Option<Dec>)>,
    at: int,
)
    requires
        0 <= at <= bounds.len(),
        edges_in(graded, bounds.take(at)) is None,
    ensures
        edges_in(graded, bounds) is None,
    decreases bounds.len() - at,
{
    if at < bounds.len() {
        take_next(bounds, at);
        lemma_edges_stay_missing(graded, bounds, at + 1);
    }
}

spec fn edge_rows_of(rows: Option<Vec<EdgeBucket>>) -> Option<Seq<EdgeRow>> {
    match rows {
        Some(rows) => Some(edge_rows(rows@)),
        None => None,
    }
}

spec fn bound_views(bounds: Seq<(Option<Decimal>, Option<Decimal>)>) -> Seq<
    (Option<Dec>, Option<Dec>),
> {
    bounds.map_values(|b: (Option<Decimal>, Option<Decimal>)| (dec_of(b.0), dec_of(b.1)))
}

/// Realized return per contract of the last observation of every graded side,
/// grouped by raw edge. If the edge is real, higher buckets earn more.
fn edge_buckets(graded: &Vec<Graded>) -> (result: Option<Vec<EdgeBucket>>)
    ensures
        edge_rows_of(result) == edges_in(grade_views(graded@), edge_bounds()),
{
    let ghost all = grade_views(graded@);
    let mut bounds: Vec<(Option<Decimal>, Option<Decimal>)> = Vec::new();
    bounds.push((None, Some(Decimal::zero())));
    bounds.push((Some(Decimal::zero()), Some(Decimal::new(2, 2))));
    bounds.push((Some(Decimal::new(2, 2)), Some(Decimal::new(5, 2))));
    bounds.push((Some(Decimal::new(5, 2)), Some(Decimal::new(10, 2))));
    bounds.push((Some(Decimal::new(10, 2)), None));
    let ghost limits = edge_bounds();
    assert(bound_views(bounds@) =~= limits);
    let mut out: Vec<EdgeBucket> = Vec::new();
    let mut i: usize = 0;
    while i < bounds.len()
        invariant
            i <= bounds@.len(),
            bound_views(bounds@) == limits,
            limits == edge_bounds(),
            all == grade_views(graded@),
            edges_in(all, limits.take(i as int)) == Some(edge_rows(out@)),
        decreases bounds@.len() - i,
    {
        let (lower, upper) = bounds[i];
        proof {
            take_next(limits, i as int);
            assert(bound_views(bounds@)[i as int] == (dec_of(lower), dec_of(upper)));
        }
        let digested = match gains_within(graded, lower, upper) {
            Some(gains) => summary(&gains),
            None => None,
        };
        match digested {
            Some(Some(return_per_contract)) => {
                out.push(EdgeBucket { lower, upper, return_per_contract });
            },
            Some(None) => {},
            None => {
                proof {
                    lemma_edges_stay_missing(all, limits, i + 1);
                }
                return None;
            },
        }
        i = i + 1;
    }
    Some(out)
}

proof fn lemma_lines_stay_missing(graded: Seq<Grade>, open_class: RecommendationClass, at: int)
    requires
        0 <= at <= graded.len(),
        candidate_lines(graded.take(at), open_class) is None,
    ensures
        candidate_lines(graded, open_class) is None,
    decreases graded.len() - at,
{
    if at < graded.len() {
        take_next(graded, at);
        lemma_lines_stay_missing(graded, open_class, at + 1);
    }
}

fn lines_of_candidates(graded: &Vec<Graded>, open_class: RecommendationClass) -> (result: Option<
    Vec<Decimal>,
>)
    ensures
        decs_of(result) == candidate_lines(grade_views(graded@), open_class),
{
    let ghost all = grade_views(graded@);
    let mut out: Vec<Decimal> = Vec::new();
    let mut i: usize = 0;
    while i < graded.len()
        invariant
            i <= graded@.len(),
            all == grade_views(graded@),
            candidate_lines(all.take(i as int), open_class) == Some(decs(out@)),
        decreases graded@.len() - i,
    {
        proof {
            take_next(all, i as int);
        }
        let seen = &graded[i].seen;
        if seen.class.rank() >= open_class.rank() {
            match graded[i].outcome.closing_side_price(seen.side) {
                Some(closing) => match closing.checked_sub(seen.executable_price) {
                    Some(line) => {
                        out.push(line);
                    },
                    None => {
                        proof {
                            lemma_lines_stay_missing(all, open_class, i + 1);
                        }
                        return None;
                    },
                },
                None => {},
            }
        }
        i = i + 1;
    }
    Some(out)
}

fn lines_of_positions(positions: &Vec<PaperPosition>) -> (result: Vec<Decimal>)
    ensures
        decs(result@) == position_lines(paper_position_views(positions@)),
{
    let ghost all = paper_position_views(positions@);
    let mut out: Vec<Decimal> = Vec::new();
    let mut i: usize = 0;
    while i < positions.len()
        invariant
            i <= positions@.len(),
            all == paper_position_views(positions@),
            decs(out@) == position_lines(all.take(i as int)),
        decreases positions@.len() - i,
    {
        proof {
            take_next(all, i as int);
        }
        match positions[i].closing_line_value() {
            Some(line) => {
                out.push(line);
            },
            None => {},
        }
        i = i + 1;
    }
    out
}

fn results_of_positions(positions: &Vec<PaperPosition>) -> (result: Vec<Decimal>)
    ensures
        decs(result@) == position_results(paper_position_views(positions@)),
{
    let ghost all = paper_position_views(positions@);
    let mut out: Vec<Decimal> = Vec::new();
    let mut i: usize = 0;
    while i < positions.len()
        invariant
            i <= positions@.len(),
            all == paper_position_views(positions@),
            decs(out@) == position_results(all.take(i as int)),
        decreases positions@.len() - i,
    {
        proof {
            take_next(all, i as int);
        }
        match positions[i].realized_pnl {
            Some(r) => {
                out.push(r);
            },
            None => {},
        }
        i = i + 1;
    }
    out
}

fn roi(realized: Decimal, risked: Decimal) -> (result: Option<Option<Decimal>>)
    ensures
        price_of(result) == return_on_risk(realized@, risked@),
{
    if Decimal::zero().less(risked) {
        let q = realized.checked_div(risked)?;
        Some(Some(q.round_dp(4)))
    } else {
        Some(None)
    }
}

fn list_caveats(run: &Replay) -> (result: Vec<String>)
    ensures
        texts(result@) == caveats(run@),
{
    let mut out: Vec<String> = Vec::new();
    out.push(
        owned(
            "News evidence is not replayable; classes are pre-news (Actionable here means the numeric gates passed, which the live system would still send to review).",
        ),
    );
    out.push(
        owned(
            "Fills are assumed from displayed depth; no queue position, no partial-fill timing, no maker fills.",
        ),
    );
    out.push(
        concat3(
            "Settlement releases exposure ",
            integer(run.options.settlement_lag_hours as i128).as_str(),
            " h after scheduled start regardless of when the venue actually settled.",
        ),
    );
    proof {
        let always = caveats(Run {
            frames_stored: 0,
            portfolio: Portfolio { open_positions: seq![], ..run@.portfolio },
            ..run@
        });
        assert(texts(out@) =~= always);
    }
    if run.frames_stored > 0 {
        out.push(
            concat4(
                integer(run.frames_stored as i128).as_str(),
                " of ",
                integer(run.frames as i128).as_str(),
                " frames were imported without books: their rows keep the class decided under the gates of that time and their market probability is the taker price, not the mid.",
            ),
        );
    }
    let open: usize = run.portfolio.open_positions.len();
    if open > 0 {
        out.push(
            concat2(
                integer(open as i128).as_str(),
                " positions never settled inside the window; realized P&L excludes them.",
            ),
        );
    }
    out
}

fn count_times(counts: TextMap<usize>, key: &str, times: usize) -> (result: TextMap<usize>)
    ensures
        result@ == tallied_times(counts@, key@, times as nat),
{
    let mut out = counts;
    let mut i: usize = 0;
    while i < times
        invariant
            i <= times,
            out@ == tallied_times(counts@, key@, i as nat),
        decreases times - i,
    {
        out = out.count(key);
        i = i + 1;
    }
    out
}

impl Replay {
    /// Settles what is due at `through` and builds the report. `None` on
    /// overflow.
    pub fn finish(
        self,
        through: Timestamp,
        outcomes: &TextMap<MarketOutcome>,
        generated_at: Timestamp,
    ) -> (result: Option<ReplayReport>)
        ensures
            match ended(self@, outcome_views(outcomes@), through@) {
                Some(done) => report_view(result) == reported(
                    done,
                    outcome_views(outcomes@),
                    generated_at@,
                ),
                None => result is None,
            },
    {
        let ghost before = self@;
        let run = self.settle_due(through, outcomes)?;
        let waiting: usize = run.pending.len();
        let none: Vec<PendingOrder> = Vec::new();
        let unfilled = count_times(run.unfilled, "window ended", waiting);
        let run = Replay { unfilled, pending: none, ..run };
        assert(ended(before, outcome_views(outcomes@), through@) == Some(run@));
        run.report(outcomes, generated_at)
    }

    fn report(self, outcomes: &TextMap<MarketOutcome>, generated_at: Timestamp) -> (result: Option<
        ReplayReport,
    >)
        ensures
            report_view(result) == reported(self@, outcome_views(outcomes@), generated_at@),
    {
        let graded = grade_all(&self.observations, outcomes)?;
        let efficiency = measure_efficiency(&graded)?;
        let edge_buckets = edge_buckets(&graded)?;
        let lines = lines_of_candidates(&graded, self.options.open_class)?;
        let candidate_closing_line_value = summary(&lines)?;
        let limitations = list_caveats(&self);
        let observations: usize = self.observations.len();
        let frames = self.frames;
        let frames_recomputed = self.frames_recomputed;
        let frames_stored = self.frames_stored;
        let first_input_at = self.first_input_at;
        let last_input_at = self.last_input_at;
        let ghost run = self@;
        let settled: usize = self.portfolio.closed_positions.len();
        let unsettled_open: usize = self.portfolio.open_positions.len();
        let risked = crate::paper::open_exposure(&self.portfolio.closed_positions)?;
        let roi_on_risk = roi(self.portfolio.realized_pnl, risked)?;
        let drawdown = max_drawdown(&self.equity)?;
        let position_pnl = summary(&results_of_positions(&self.portfolio.closed_positions))?;
        let closing_line_value = summary(&lines_of_positions(&self.portfolio.closed_positions))?;
        let paper = Paper {
            submitted: self.submitted,
            filled: self.filled,
            partial_fills: self.partial_fills,
            unfilled: self.unfilled,
            blocked_by_exposure: self.blocked_by_exposure,
            settled,
            unsettled_open,
            realized_pnl: self.portfolio.realized_pnl.round_dp(4),
            risked: risked.round_dp(4),
            roi_on_risk,
            final_bankroll: self.portfolio.bankroll.round_dp(4),
            drawdown,
            position_pnl,
            closing_line_value,
            equity: self.equity,
        };
        assert(paper_record(run) == Some(paper@));
        Some(
            ReplayReport {
                generated_at,
                production_approved: false,
                frames,
                frames_recomputed,
                frames_stored,
                first_input_at,
                last_input_at,
                options: self.options,
                rows_by_class: self.rows_by_class,
                observations,
                graded_observations: graded.len(),
                ungraded_observations: observations - graded.len(),
                efficiency,
                edge_buckets,
                candidate_closing_line_value,
                paper,
                limitations,
            },
        )
    }
}

/// The report inside an optional one.
pub open spec fn report_view(r: Option<ReplayReport>) -> Option<Report> {
    match r {
        Some(r) => Some(r@),
        None => None,
    }
}

/// An order never fills on the frame that submitted it, nor on an earlier one:
/// it waits, and nothing else changes.
pub proof fn orders_never_fill_on_their_own_book(
    r: Run,
    order: Order,
    markets: Seq<Market>,
    books: Seq<Book>,
    now: int,
)
    requires
        order.submitted_at >= now,
    ensures
        order_met(r, order, markets, books, now) == Some(
            Run { pending: r.pending.push(order), ..r },
        ),
{
}

/// Under the next-book model a decision opens nothing by itself.
pub proof fn next_book_decisions_only_wait(r: Run, row: Row, books: Seq<Book>, now: int)
    requires
        r.options.fill == FillModel::NextBook,
    ensures
        row_taken(r, row, books, now) matches Some(after) ==> after.portfolio == r.portfolio
            && after.filled == r.filled,
{
}

/// A later book that offers an order's quantity at or below its price, on a
/// market that has not started, fills the order or the caps block it: it is
/// never left unfilled, and waits no longer.
pub proof fn what_is_still_offered_fills(
    r: Run,
    order: Order,
    markets: Seq<Market>,
    books: Seq<Book>,
    now: int,
)
    requires
        order.submitted_at < now,
        market_of(markets, order.row.market_id) is Some,
        book_of(books, order.row.market_slug) is Some,
        market_of(markets, order.row.market_id)->0.start_time > now,
        still_offered(
            order.row,
            market_of(markets, order.row.market_id)->0,
            book_of(books, order.row.market_slug)->0,
        ) matches Some(there) && zero().lt(order.row.quantity) && order.row.quantity.le(there),
    ensures
        order_met(r, order, markets, books, now) matches Some(after) ==> {
            &&& after.unfilled == r.unfilled
            &&& after.pending == r.pending
            &&& after.submitted == r.submitted
            &&& (after.filled == bumped(r.filled) && after.blocked_by_exposure
                == r.blocked_by_exposure && after.portfolio.open_positions.len()
                == r.portfolio.open_positions.len() + 1) || (after.filled == r.filled
                && after.blocked_by_exposure == bumped(r.blocked_by_exposure) && after.portfolio
                == r.portfolio)
        },
{
}

/// A later book that offers less than an order's quantity at or below its price
/// leaves it unfilled, and opens nothing.
pub proof fn what_is_no_longer_offered_stays_unfilled(
    r: Run,
    order: Order,
    markets: Seq<Market>,
    books: Seq<Book>,
    now: int,
)
    requires
        order.submitted_at < now,
        market_of(markets, order.row.market_id) is Some,
        book_of(books, order.row.market_slug) is Some,
        market_of(markets, order.row.market_id)->0.start_time > now,
        still_offered(
            order.row,
            market_of(markets, order.row.market_id)->0,
            book_of(books, order.row.market_slug)->0,
        ) matches Some(there) && there.lt(order.row.quantity),
    ensures
        order_met(r, order, markets, books, now) == Some(
            not_filled(r, "price moved through limit"@),
        ),
{
}

/// A fill never takes a level above the price of the decision.
pub proof fn fills_stop_at_the_decision_price(row: Row, market: Market, rung: Rung)
    requires
        row.executable_price.lt(rung.side_price),
    ensures
        !crate::risk::eligible(
            rung,
            limits(
                row.maximum_loss,
                market.fee_coefficient,
                market.minimum_quantity,
                row.executable_price,
            ),
        ),
{
}

/// Exposure is released only after the lag and only where the market has
/// settled; any other position stays open as it is.
pub proof fn only_due_and_settled_positions_close(
    b: Books,
    position: Position,
    outcomes: Map<Seq<char>, Outcome>,
    options: Options,
    now: int,
)
    requires
        !releasable(position, options.settlement_lag_hours, now) || !outcomes.contains_key(
            position.market_id,
        ) || outcomes[position.market_id].settlement is None,
    ensures
        looked_at(b, position, outcomes, options, now) matches Some(after) ==> after == (Books {
            portfolio: Portfolio {
                open_positions: b.portfolio.open_positions.push(position),
                ..b.portfolio
            },
            ..b
        }),
{
}

pub(crate) proof fn lemma_meeting_keeps_counts(
    r: Run,
    orders: Seq<Order>,
    markets: Seq<Market>,
    books: Seq<Book>,
    now: int,
)
    ensures
        orders_met(r, orders, markets, books, now) matches Some(after) ==> after.frames == r.frames
            && after.frames_recomputed == r.frames_recomputed && after.frames_stored
            == r.frames_stored && after.observations == r.observations && after.options
            == r.options,
    decreases orders.len(),
{
    if orders.len() > 0 {
        lemma_meeting_keeps_counts(r, orders.drop_last(), markets, books, now);
    }
}

pub(crate) proof fn lemma_rows_keep_counts(r: Run, rows: Seq<Row>, books: Seq<Book>, now: int)
    ensures
        rows_taken(r, rows, books, now) matches Some(after) ==> after.frames == r.frames
            && after.frames_recomputed == r.frames_recomputed && after.frames_stored
            == r.frames_stored,
    decreases rows.len(),
{
    if rows.len() > 0 {
        lemma_rows_keep_counts(r, rows.drop_last(), books, now);
    }
}

/// Every frame is either decided again or taken as stored, and counted once.
pub proof fn every_frame_counts_once(r: Run, frame: Moment, outcomes: Map<Seq<char>, Outcome>)
    requires
        r.frames == r.frames_recomputed + r.frames_stored,
        r.frames < usize::MAX,
        r.frames_recomputed >= 0,
        r.frames_stored >= 0,
    ensures
        stepped(r, frame, outcomes) matches Some(after) ==> after.frames == r.frames + 1
            && after.frames == after.frames_recomputed + after.frames_stored,
{
    let now = frame.evaluated_at;
    if let Some(due) = settled_due(frame_counted(r, frame), outcomes, now) {
        lemma_meeting_keeps_counts(
            Run { pending: seq![], ..due },
            due.pending,
            frame.markets,
            frame.books,
            now,
        );
        if let Some(rows) = frame_rows(due, frame) {
            if let Some(met) = resolved(due, frame.markets, frame.books, now) {
                lemma_rows_keep_counts(met, rows, frame.books, now);
            }
        }
    }
}

/// No market side is observed twice.
pub open spec fn sides_distinct(observations: Seq<Seen>) -> bool {
    forall|i: int, j: int|
        0 <= i < j < observations.len() ==> !((#[trigger] observations[i]).market_id == (
        #[trigger] observations[j]).market_id && observations[i].side == observations[j].side)
}

pub(crate) proof fn lemma_side_at(observations: Seq<Seen>, market_id: Seq<char>, side: OutcomeSide, from: int)
    requires
        0 <= from <= observations.len(),
    ensures
        match side_at(observations, market_id, side, from) {
            Some(i) => from <= i < observations.len() && observations[i].market_id == market_id
                && observations[i].side == side,
            None => forall|i: int|
                from <= i < observations.len() ==> !((#[trigger] observations[i]).market_id
                    == market_id && observations[i].side == side),
        },
    decreases observations.len() - from,
{
    if from < observations.len() {
        lemma_side_at(observations, market_id, side, from + 1);
    }
}

proof fn lemma_rows_keep_sides(r: Run, rows: Seq<Row>, books: Seq<Book>, now: int)
    requires
        sides_distinct(r.observations),
    ensures
        rows_taken(r, rows, books, now) matches Some(after) ==> sides_distinct(after.observations),
    decreases rows.len(),
{
    if rows.len() > 0 {
        lemma_rows_keep_sides(r, rows.drop_last(), books, now);
        if let Some(next) = rows_taken(r, rows.drop_last(), books, now) {
            if let Some(seen) = observed(rows.last(), books) {
                lemma_side_at(next.observations, seen.market_id, seen.side, 0);
                let out = kept_last(next.observations, seen);
                assert forall|i: int, j: int| 0 <= i < j < out.len() implies !((
                #[trigger] out[i]).market_id == (#[trigger] out[j]).market_id && out[i].side
                    == out[j].side) by {
                    if i < next.observations.len() && j < next.observations.len() {
                        assert(!(next.observations[i].market_id == next.observations[j].market_id
                            && next.observations[i].side == next.observations[j].side));
                    }
                }
            }
        }
    }
}

/// A replay keeps one observation for each market side, the last.
pub proof fn one_observation_per_side(r: Run, frame: Moment, outcomes: Map<Seq<char>, Outcome>)
    requires
        sides_distinct(r.observations),
    ensures
        stepped(r, frame, outcomes) matches Some(after) ==> sides_distinct(after.observations),
{
    let now = frame.evaluated_at;
    if let Some(due) = settled_due(frame_counted(r, frame), outcomes, now) {
        lemma_meeting_keeps_counts(
            Run { pending: seq![], ..due },
            due.pending,
            frame.markets,
            frame.books,
            now,
        );
        if let Some(rows) = frame_rows(due, frame) {
            if let Some(met) = resolved(due, frame.markets, frame.books, now) {
                lemma_rows_keep_sides(met, rows, frame.books, now);
            }
        }
    }
}

/// A report approves nothing, and every observation is either graded or not.
pub proof fn reports_approve_nothing(r: Run, outcomes: Map<Seq<char>, Outcome>, at: int)
    ensures
        reported(r, outcomes, at) matches Some(report) ==> !report.production_approved
            && report.graded_observations + report.ungraded_observations == report.observations,
{
}

/// A frame with books is decided exactly as the live scan decides: the same
/// markets, quotes, books and portfolio at the same instant give the same rows,
/// whatever happened before.
pub proof fn replay_decides_as_the_scan(r: Run, frame: Moment)
    requires
        frame.books.len() > 0,
    ensures
        frame_rows(r, frame) == judged(
            r.options.settings,
            crate::scanner::pass(
                r.options.settings,
                frame.markets,
                frame.quotes,
                None,
                frame.evaluated_at,
            ),
            frame.books,
            r.portfolio,
            frame.evaluated_at,
        ),
{
}

} // verus!
