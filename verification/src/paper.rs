//! The paper-position workflow. Opening requires an actionable, news-reviewed
//! opportunity from the latest scan; closing archives the position without a
//! result; settlement grades started positions against the venue's closing
//! line and settlement price.

use vstd::prelude::*;

use crate::config::{Policy, Settings};
use crate::decimal::{
    dec_of, checked_total, decs, difference, minus, one, plus, sum, times, total, zero, Dec,
    Decimal,
};
use crate::domain::{
    effective_class, news_evidence_view, opportunity_views, paper_position_views, position_of,
    Evidence, NewsEvidence, Opportunity, OutcomeSide, PaperPortfolio, PaperPosition, Portfolio,
    Position, RecommendationClass, ResearchOpportunity, Row,
};
use crate::error::{invalid, Error, Failure};
use crate::risk::{event_exposure_with, fits_event, fits_portfolio, holds_side, opened};
use crate::seqs::{group_seqs, take_next};
use crate::time::Timestamp;

verus! {

broadcast use group_seqs;

/// The price of a side.
pub open spec fn price_on(side: OutcomeSide, long: Dec, short: Dec) -> Dec {
    match side {
        OutcomeSide::Long => long,
        OutcomeSide::Short => short,
    }
}

pub fn side_price(side: OutcomeSide, long: Decimal, short: Decimal) -> (result: Decimal)
    ensures
        result@ == price_on(side, long@, short@),
{
    match side {
        OutcomeSide::Long => long,
        OutcomeSide::Short => short,
    }
}

pub open spec fn losses(positions: Seq<Position>) -> Seq<Dec> {
    positions.map_values(|p: Position| p.maximum_loss)
}

/// What the open positions can lose in all; missing on overflow.
pub open spec fn exposure(positions: Seq<Position>) -> Option<Dec> {
    total(losses(positions))
}

/// What the open positions can lose in all; `None` on overflow.
pub fn open_exposure(positions: &Vec<PaperPosition>) -> (result: Option<Decimal>)
    ensures
        dec_of(result) == exposure(paper_position_views(positions@)),
{
    let ghost all = losses(paper_position_views(positions@));
    let mut values: Vec<Decimal> = Vec::new();
    let mut i: usize = 0;
    while i < positions.len()
        invariant
            i <= positions@.len(),
            all == losses(paper_position_views(positions@)),
            decs(values@) == all.take(i as int),
        decreases positions@.len() - i,
    {
        proof {
            take_next(all, i as int);
        }
        values.push(positions[i].maximum_loss);
        i = i + 1;
    }
    checked_total(&values)
}

/// The payout of a side when YES settles at `settlement`; missing on overflow.
pub open spec fn side_payout(side: OutcomeSide, settlement: Dec) -> Option<Dec> {
    match difference(one(), settlement) {
        Some(no) => Some(price_on(side, settlement, no)),
        None => None,
    }
}

/// `quantity * (payout - entry_price) - estimated_fee`.
pub open spec fn profit(position: Position, payout: Option<Dec>) -> Option<Dec> {
    minus(
        times(Some(position.quantity), minus(payout, Some(position.entry_price))),
        Some(position.estimated_fee),
    )
}

/// A position with its result.
pub open spec fn settled(position: Position, payout: Dec, realized: Dec, at: int) -> Position {
    Position {
        settlement_payout: Some(payout),
        realized_pnl: Some(realized),
        closed_at: Some(at),
        ..position
    }
}

/// Marks a position settled at the YES payout `settlement` and returns its
/// realized profit: `quantity * (payout - entry_price) - estimated_fee`. `None`,
/// and the position unchanged, on overflow.
pub fn settle(position: &mut PaperPosition, settlement: Decimal, closed_at: Timestamp) -> (result:
    Option<Decimal>)
    ensures
        dec_of(result) == profit(
            old(position)@,
            side_payout(old(position)@.side, settlement@),
        ),
        final(position)@ == match result {
            Some(realized) => settled(
                old(position)@,
                side_payout(old(position)@.side, settlement@)->0,
                realized@,
                closed_at@,
            ),
            None => old(position)@,
        },
{
    let no = Decimal::one().checked_sub(settlement)?;
    let payout = side_price(position.side, settlement, no);
    let gain = payout.checked_sub(position.entry_price)?;
    let gross = position.quantity.checked_mul(gain)?;
    let realized = gross.checked_sub(position.estimated_fee)?;
    position.settlement_payout = Some(payout);
    position.realized_pnl = Some(realized);
    position.closed_at = Some(closed_at);
    Some(realized)
}

/// The first row with an identifier.
pub open spec fn row_with(rows: Seq<Row>, id: int) -> Option<Row>
    decreases rows.len(),
{
    if rows.len() == 0 {
        None
    } else {
        match row_with(rows.drop_last(), id) {
            Some(row) => Some(row),
            None => if rows.last().id == id {
                Some(rows.last())
            } else {
                None
            },
        }
    }
}

/// The opportunity of the latest scan with an identifier.
pub fn find_opportunity(rows: &Vec<Opportunity>, opportunity_id: u128) -> (result: Result<
    Opportunity,
    Error,
>)
    ensures
        match result {
            Ok(row) => row_with(opportunity_views(rows@), opportunity_id as int) == Some(row@),
            Err(e) => row_with(opportunity_views(rows@), opportunity_id as int) is None && e@
                == Failure::InvalidData("opportunity is not in the latest scan"@),
        },
{
    let ghost all = opportunity_views(rows@);
    let mut i: usize = 0;
    while i < rows.len()
        invariant
            i <= rows@.len(),
            all == opportunity_views(rows@),
            row_with(all.take(i as int), opportunity_id as int) is None,
        decreases rows@.len() - i,
    {
        proof {
            take_next(all, i as int);
        }
        if rows[i].id == opportunity_id {
            proof {
                lemma_row_stays(all, i + 1, opportunity_id as int);
            }
            return Ok(rows[i].clone());
        }
        i = i + 1;
    }
    Err(invalid("opportunity is not in the latest scan"))
}

proof fn lemma_row_stays(rows: Seq<Row>, at: int, id: int)
    requires
        0 <= at <= rows.len(),
        row_with(rows.take(at), id) is Some,
    ensures
        row_with(rows, id) == row_with(rows.take(at), id),
    decreases rows.len() - at,
{
    if at < rows.len() {
        take_next(rows, at);
        lemma_row_stays(rows, at + 1, id);
    }
}

/// The portfolio after opening a reviewed opportunity, or why it is refused.
pub open spec fn opening(
    portfolio: Portfolio,
    row: Row,
    news: Option<Evidence>,
    p: Policy,
    now: int,
) -> Result<Portfolio, Failure> {
    if effective_class(row.class, news, now) != RecommendationClass::Actionable {
        Err(
            Failure::InvalidData(
                "paper position requires an actionable, news-reviewed opportunity"@,
            ),
        )
    } else if holds_side(portfolio, row.market_id, row.side) {
        Err(Failure::InvalidData("paper portfolio already contains this market side"@))
    } else {
        match fits_event(portfolio, row.event_id, row.maximum_loss, p.maximum_event_exposure) {
            Some(true) => match fits_portfolio(
                portfolio,
                row.maximum_loss,
                p.maximum_total_exposure,
            ) {
                Some(true) => Ok(opened(portfolio, position_of(row, now))),
                Some(false) => Err(
                    Failure::InvalidData("paper position violates bankroll or exposure limits"@),
                ),
                None => Err(Failure::Overflow),
            },
            Some(false) => Err(
                Failure::InvalidData("paper position violates bankroll or exposure limits"@),
            ),
            None => Err(Failure::Overflow),
        }
    }
}

/// Opens a paper position on an opportunity with its news, judged at `now`.
pub fn open_position(
    portfolio: PaperPortfolio,
    opportunity: Opportunity,
    news: Option<NewsEvidence>,
    settings: &Settings,
    now: Timestamp,
) -> (result: Result<PaperPortfolio, Error>)
    ensures
        match result {
            Ok(after) => opening(
                portfolio@,
                opportunity@,
                news_evidence_view(news),
                settings@,
                now@,
            ) == Ok::<Portfolio, Failure>(after@),
            Err(e) => opening(
                portfolio@,
                opportunity@,
                news_evidence_view(news),
                settings@,
                now@,
            ) == Err::<Portfolio, Failure>(e@),
        },
{
    let research = ResearchOpportunity::at(opportunity, news, now);
    if research.effective_class != RecommendationClass::Actionable {
        return Err(invalid("paper position requires an actionable, news-reviewed opportunity"));
    }
    let row = &research.opportunity;
    if portfolio.has_market_side(row.market_id.as_str(), row.side) {
        return Err(invalid("paper portfolio already contains this market side"));
    }
    match portfolio.fits_event(
        row.event_id.as_str(),
        row.maximum_loss,
        settings.maximum_event_exposure,
    ) {
        Some(true) => {},
        Some(false) => {
            return Err(invalid("paper position violates bankroll or exposure limits"));
        },
        None => {
            return Err(Error::Overflow);
        },
    }
    let position = PaperPosition::from_opportunity(row, now);
    let mut after = portfolio;
    match after.open(position, settings.maximum_total_exposure) {
        Some(true) => Ok(after),
        Some(false) => Err(invalid("paper position violates bankroll or exposure limits")),
        None => Err(Error::Overflow),
    }
}

/// Only an actionable row with clean, fresh news opens a position, and only
/// within the caps of its event and of the portfolio and on a side that is not
/// held yet.
pub proof fn opening_needs_review_and_room(
    portfolio: Portfolio,
    row: Row,
    news: Option<Evidence>,
    p: Policy,
    now: int,
)
    ensures
        opening(portfolio, row, news, p, now) matches Ok(after) ==> {
            &&& row.class == RecommendationClass::Actionable
            &&& news is Some
            &&& news->0.confidence_effect == "unchanged"@
            &&& !news->0.manual_review
            &&& event_exposure_with(portfolio, row.event_id, row.maximum_loss) is Some
            &&& event_exposure_with(portfolio, row.event_id, row.maximum_loss)->0.le(
                p.maximum_event_exposure,
            )
            &&& !holds_side(portfolio, row.market_id, row.side)
            &&& after.open_exposure.le(p.maximum_total_exposure)
            &&& row.maximum_loss.le(portfolio.bankroll)
        },
{
    if opening(portfolio, row, news, p, now) is Ok {
        crate::domain::actionable_needs_clean_fresh_news(row.class, news, now);
    }
}

/// Where the first open position of an opportunity stands.
pub open spec fn position_at(positions: Seq<Position>, id: int, from: int) -> Option<int>
    decreases positions.len() - from,
{
    if from >= positions.len() {
        None
    } else if positions[from].opportunity_id == id {
        Some(from)
    } else {
        position_at(positions, id, from + 1)
    }
}

/// The portfolio after a manual close, or why there is nothing to close.
pub open spec fn closing(portfolio: Portfolio, id: int, now: int) -> Result<Portfolio, Failure> {
    match position_at(portfolio.open_positions, id, 0) {
        None => Err(Failure::InvalidData("paper position was not found"@)),
        Some(i) => {
            let rest = portfolio.open_positions.remove(i);
            let done = Position { closed_at: Some(now), ..portfolio.open_positions[i] };
            match exposure(rest) {
                Some(open_exposure) => Ok(
                    Portfolio {
                        open_exposure,
                        open_positions: rest,
                        closed_positions: portfolio.closed_positions.push(done),
                        ..portfolio
                    },
                ),
                None => Err(Failure::Overflow),
            }
        },
    }
}

/// Manual close: the position is archived with no result, so that the record
/// survives for review.
pub fn close_position(portfolio: PaperPortfolio, opportunity_id: u128, now: Timestamp) -> (result:
    Result<PaperPortfolio, Error>)
    ensures
        match result {
            Ok(after) => closing(portfolio@, opportunity_id as int, now@) == Ok::<
                Portfolio,
                Failure,
            >(after@),
            Err(e) => closing(portfolio@, opportunity_id as int, now@) == Err::<
                Portfolio,
                Failure,
            >(e@),
        },
{
    let ghost held = portfolio@.open_positions;
    let mut after = portfolio;
    let mut i: usize = 0;
    while i < after.open_positions.len() && after.open_positions[i].opportunity_id
        != opportunity_id
        invariant
            after == portfolio,
            held == portfolio@.open_positions,
            i <= after.open_positions@.len(),
            position_at(held, opportunity_id as int, 0) == position_at(
                held,
                opportunity_id as int,
                i as int,
            ),
        decreases after.open_positions@.len() - i,
    {
        assert(held[i as int] == after.open_positions@[i as int]@);
        i = i + 1;
    }
    if i == after.open_positions.len() {
        return Err(invalid("paper position was not found"));
    }
    assert(held[i as int] == after.open_positions@[i as int]@);
    let mut position = after.open_positions.remove(i);
    position.closed_at = Some(now);
    assert(paper_position_views(after.open_positions@) =~= held.remove(i as int));
    match open_exposure(&after.open_positions) {
        Some(open) => {
            after.open_exposure = open;
        },
        None => {
            return Err(Error::Overflow);
        },
    }
    after.closed_positions.push(position);
    Ok(after)
}

/// What the venue answered about one position: its closing line, long and
/// short, and the YES payout, as far as known.
#[derive(Debug, Clone, Copy)]
pub struct VenueReply {
    pub closing: Option<(Decimal, Decimal)>,
    pub settlement: Option<Decimal>,
}

/// An answer as mathematics.
pub struct Reply {
    pub closing: Option<(Dec, Dec)>,
    pub settlement: Option<Dec>,
}

impl View for VenueReply {
    type V = Reply;

    open spec fn view(&self) -> Reply {
        Reply {
            closing: match self.closing {
                Some((long, short)) => Some((long@, short@)),
                None => None,
            },
            settlement: dec_of(self.settlement),
        }
    }
}

pub open spec fn reply_views(items: Seq<VenueReply>) -> Seq<Reply> {
    items.map_values(|item: VenueReply| item@)
}

/// The answer about the position at a place; none at all where there is none.
pub open spec fn reply_at(replies: Seq<Reply>, i: int) -> Reply {
    if 0 <= i < replies.len() {
        replies[i]
    } else {
        Reply { closing: None, settlement: None }
    }
}

/// A position that can be graded: its game has started, and the venue can be
/// asked about it.
pub open spec fn due(position: Position, now: int) -> bool {
    &&& position.market_slug.len() > 0
    &&& position.start_time matches Some(start) && start <= now
}

/// Whether a position can be graded now, and whether its closing line is still
/// to be asked for.
pub fn is_due(position: &PaperPosition, now: Timestamp) -> (result: bool)
    ensures
        result == due(position@, now@),
{
    match position.start_time {
        Some(start) => !now.before(start) && position.market_slug.as_str().unicode_len() > 0,
        None => false,
    }
}

/// Whether an answer brings a closing line that is not recorded yet.
pub open spec fn brings_line(position: Position, reply: Reply) -> bool {
    position.closing_price is None && reply.closing is Some
}

/// The position with its closing line, recorded once.
pub open spec fn lined(position: Position, reply: Reply) -> Position {
    if brings_line(position, reply) {
        let (long, short) = reply.closing->0;
        Position { closing_price: Some(price_on(position.side, long, short)), ..position }
    } else {
        position
    }
}

/// What one settlement pass changed.
#[derive(Debug, Clone, Copy, PartialEq, Eq)]
pub struct SettlementReport {
    pub closing_lines_recorded: usize,
    pub settled: usize,
    pub realized_pnl: Decimal,
}

/// A settlement pass half done.
pub struct Grading {
    pub open: Seq<Position>,
    pub closed: Seq<Position>,
    pub realized: Dec,
    pub lines: nat,
    pub settled: nat,
    pub gained: Dec,
}

/// The pass after one more position; missing on overflow.
pub open spec fn graded(g: Grading, position: Position, reply: Reply, now: int) -> Option<Grading> {
    if !due(position, now) {
        Some(Grading { open: g.open.push(position), ..g })
    } else {
        let with_line = lined(position, reply);
        let lines = g.lines + if brings_line(position, reply) {
            1nat
        } else {
            0
        };
        match reply.settlement {
            None => Some(Grading { open: g.open.push(with_line), lines, ..g }),
            Some(settlement) => {
                let payout = side_payout(position.side, settlement);
                let realized = profit(position, payout);
                match (
                    realized,
                    plus(Some(g.realized), realized),
                    plus(Some(g.gained), realized),
                ) {
                    (Some(r), Some(in_all), Some(gained)) => Some(
                        Grading {
                            closed: g.closed.push(settled(with_line, payout->0, r, now)),
                            realized: in_all,
                            lines,
                            settled: g.settled + 1,
                            gained,
                            ..g
                        },
                    ),
                    _ => None,
                }
            },
        }
    }
}

/// The pass over the first `n` open positions.
pub open spec fn grading(portfolio: Portfolio, replies: Seq<Reply>, now: int, n: nat) -> Option<
    Grading,
>
    decreases n,
{
    if n == 0 {
        Some(
            Grading {
                open: seq![],
                closed: portfolio.closed_positions,
                realized: portfolio.realized_pnl,
                lines: 0,
                settled: 0,
                gained: zero(),
            },
        )
    } else {
        match grading(portfolio, replies, now, (n - 1) as nat) {
            Some(g) => graded(g, portfolio.open_positions[n - 1], reply_at(replies, n - 1), now),
            None => None,
        }
    }
}

/// The portfolio after a pass: exposure and bankroll follow the positions where
/// anything changed. Missing on overflow.
pub open spec fn regraded(portfolio: Portfolio, g: Grading, bankroll: Dec) -> Option<Portfolio> {
    if g.lines == 0 && g.settled == 0 {
        Some(portfolio)
    } else {
        match (exposure(g.open), sum(bankroll, g.realized)) {
            (Some(open_exposure), Some(bankroll)) => Some(
                Portfolio {
                    bankroll,
                    open_exposure,
                    open_positions: g.open,
                    closed_positions: g.closed,
                    realized_pnl: g.realized,
                },
            ),
            _ => None,
        }
    }
}

/// What a settlement pass leaves.
#[derive(Debug)]
pub struct Settlement {
    pub portfolio: PaperPortfolio,
    pub report: SettlementReport,
    /// Whether there is anything to save.
    pub changed: bool,
}

struct Pass {
    open: Vec<PaperPosition>,
    closed: Vec<PaperPosition>,
    realized: Decimal,
    lines: usize,
    settled: usize,
    gained: Decimal,
}

impl View for Pass {
    type V = Grading;

    closed spec fn view(&self) -> Grading {
        Grading {
            open: paper_position_views(self.open@),
            closed: paper_position_views(self.closed@),
            realized: self.realized@,
            lines: self.lines as nat,
            settled: self.settled as nat,
            gained: self.gained@,
        }
    }
}

fn grade(pass: &mut Pass, position: &PaperPosition, reply: VenueReply, now: Timestamp) -> (result:
    bool)
    requires
        old(pass).lines < usize::MAX,
        old(pass).settled < usize::MAX,
    ensures
        match graded(old(pass)@, position@, reply@, now@) {
            Some(next) => result && final(pass)@ == next,
            None => !result,
        },
        final(pass).lines <= old(pass).lines + 1,
        final(pass).settled <= old(pass).settled + 1,
{
    let mut current = position.clone();
    if !is_due(position, now) {
        pass.open.push(current);
        return true;
    }
    if current.closing_price.is_none() {
        match reply.closing {
            Some((long, short)) => {
                current.closing_price = Some(side_price(current.side, long, short));
                pass.lines = pass.lines + 1;
            },
            None => {},
        }
    }
    assert(current@ == lined(position@, reply@));
    match reply.settlement {
        None => {
            pass.open.push(current);
            true
        },
        Some(settlement) => {
            let realized = match settle(&mut current, settlement, now) {
                Some(realized) => realized,
                None => {
                    return false;
                },
            };
            match (pass.realized.checked_add(realized), pass.gained.checked_add(realized)) {
                (Some(in_all), Some(gained)) => {
                    pass.realized = in_all;
                    pass.gained = gained;
                    pass.settled = pass.settled + 1;
                    pass.closed.push(current);
                    true
                },
                _ => false,
            }
        },
    }
}

proof fn lemma_grading_stays_missing(portfolio: Portfolio, replies: Seq<Reply>, now: int, at: nat, n: nat)
    requires
        at <= n,
        grading(portfolio, replies, now, at) is None,
    ensures
        grading(portfolio, replies, now, n) is None,
    decreases n,
{
    if at < n {
        lemma_grading_stays_missing(portfolio, replies, now, at, (n - 1) as nat);
    }
}

/// Grades every open position whose game has started: records the venue's
/// closing line once, then settles where the market has resolved. `replies`
/// holds the venue's answers, in the order of the open positions. `None` on
/// overflow.
pub fn settle_positions(
    portfolio: &PaperPortfolio,
    settings: &Settings,
    replies: &Vec<VenueReply>,
    now: Timestamp,
) -> (result: Option<Settlement>)
    ensures
        match result {
            Some(done) => match grading(
                portfolio@,
                reply_views(replies@),
                now@,
                portfolio@.open_positions.len(),
            ) {
                Some(g) => {
                    &&& regraded(portfolio@, g, settings@.bankroll) == Some(done.portfolio@)
                    &&& done.report.closing_lines_recorded == g.lines
                    &&& done.report.settled == g.settled
                    &&& done.report.realized_pnl@ == g.gained
                    &&& done.changed == (g.lines > 0 || g.settled > 0)
                },
                None => false,
            },
            None => match grading(
                portfolio@,
                reply_views(replies@),
                now@,
                portfolio@.open_positions.len(),
            ) {
                Some(g) => regraded(portfolio@, g, settings@.bankroll) is None,
                None => true,
            },
        },
{
    let ghost answers = reply_views(replies@);
    let count: usize = portfolio.open_positions.len();
    let none: Vec<PaperPosition> = Vec::new();
    let mut pass = Pass {
        open: none,
        closed: crate::domain::copy_paper_positions(&portfolio.closed_positions),
        realized: portfolio.realized_pnl,
        lines: 0,
        settled: 0,
        gained: Decimal::zero(),
    };
    let mut i: usize = 0;
    while i < count
        invariant
            count == portfolio.open_positions@.len(),
            i <= count,
            answers == reply_views(replies@),
            pass.lines <= i,
            pass.settled <= i,
            grading(portfolio@, answers, now@, i as nat) == Some(pass@),
        decreases count - i,
    {
        let reply = if i < replies.len() {
            replies[i]
        } else {
            VenueReply { closing: None, settlement: None }
        };
        assert(reply@ == reply_at(answers, i as int));
        assert(portfolio@.open_positions[i as int] == portfolio.open_positions@[i as int]@);
        if !grade(&mut pass, &portfolio.open_positions[i], reply, now) {
            proof {
                lemma_grading_stays_missing(
                    portfolio@,
                    answers,
                    now@,
                    (i + 1) as nat,
                    count as nat,
                );
            }
            return None;
        }
        i = i + 1;
    }
    let report = SettlementReport {
        closing_lines_recorded: pass.lines,
        settled: pass.settled,
        realized_pnl: pass.gained,
    };
    if pass.lines == 0 && pass.settled == 0 {
        return Some(Settlement { portfolio: portfolio.clone(), report, changed: false });
    }
    let exposure = open_exposure(&pass.open)?;
    let bankroll = settings.bankroll.checked_add(pass.realized)?;
    let after = PaperPortfolio {
        bankroll,
        open_exposure: exposure,
        open_positions: pass.open,
        closed_positions: pass.closed,
        realized_pnl: pass.realized,
    };
    Some(Settlement { portfolio: after, report, changed: true })
}

/// A settlement pass loses no position, and leaves the ones that were closed
/// before as they are.
pub proof fn settlement_keeps_every_position(
    portfolio: Portfolio,
    replies: Seq<Reply>,
    now: int,
    n: nat,
)
    requires
        n <= portfolio.open_positions.len(),
    ensures
        grading(portfolio, replies, now, n) matches Some(g) ==> {
            &&& g.open.len() + g.closed.len() == n + portfolio.closed_positions.len()
            &&& g.closed.len() == portfolio.closed_positions.len() + g.settled
            &&& g.closed.take(portfolio.closed_positions.len() as int)
                == portfolio.closed_positions
        },
    decreases n,
{
    if n > 0 {
        settlement_keeps_every_position(portfolio, replies, now, (n - 1) as nat);
        if let Some(g) = grading(portfolio, replies, now, (n - 1) as nat) {
            if let Some(after) = grading(portfolio, replies, now, n) {
                let old_count = portfolio.closed_positions.len() as int;
                assert(after.closed.take(old_count) =~= g.closed.take(old_count));
            }
        }
    } else {
        assert(portfolio.closed_positions.take(portfolio.closed_positions.len() as int)
            =~= portfolio.closed_positions);
    }
}

/// A position whose game has not started is left as it is, whatever the venue
/// answers; a closing line that is recorded is never replaced.
pub proof fn settlement_waits_and_records_once(g: Grading, position: Position, reply: Reply, now: int)
    ensures
        !due(position, now) ==> graded(g, position, reply, now) == Some(
            Grading { open: g.open.push(position), ..g },
        ),
        position.closing_price is Some ==> lined(position, reply).closing_price
            == position.closing_price,
{
}

/// Once anything changed, the bankroll is what the settings started with plus
/// what was realized, and the exposure is what the open positions can lose.
pub proof fn settled_books_balance(portfolio: Portfolio, g: Grading, bankroll: Dec)
    requires
        g.lines > 0 || g.settled > 0,
    ensures
        regraded(portfolio, g, bankroll) matches Some(after) ==> {
            &&& sum(bankroll, after.realized_pnl) == Some(after.bankroll)
            &&& exposure(after.open_positions) == Some(after.open_exposure)
        },
{
}

} // verus!
