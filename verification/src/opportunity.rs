//! What a scan thinks of the two sides of a market: the gates, the size and
//! the class.

use vstd::prelude::*;

use crate::config::{Policy, Settings};
use crate::decimal::{
    dec_of, difference, minus, one, plus, product, quotient, rounded, sum, times, total, zero, Dec,
    Decimal,
};
use crate::domain::{
    book_level_views, Book, BookLevel, Consensus, ConsensusPrice, Level, Market, MarketBook,
    Opportunity, OutcomeSide, PaperPortfolio, Portfolio, RecommendationClass, Row,
    UsMoneylineMarket,
};
use crate::risk::{
    event_losses, exact_fee, fee, holds_side, kelly, limits, quarter_kelly_fraction, rungs, sized,
    sized_of, size_position_from_levels, ExecutionLevel, Rung, Sized, SizedPosition,
};
use crate::seqs::{group_seqs, take_next};
use crate::text::{
    concat2, concat3, concat4, concat5, concat6, copy_texts, digits, int_text, integer, natural,
    owned, same, texts,
};
use crate::time::{signed, signed_seconds, trunc_div, truncated, Timestamp, NANOS_PER_SECOND};

verus! {

broadcast use group_seqs;

/// What the book and the consensus say of one side.
pub struct Reading {
    pub participant: Seq<char>,
    pub fair: Dec,
    pub dispersion: Dec,
    pub top_price: Dec,
    pub top_yes_price: Dec,
    pub levels: Seq<Rung>,
    pub maker_price: Option<Dec>,
}

/// The levels at which YES can be bought.
pub open spec fn long_rungs(offers: Seq<Level>) -> Seq<Rung> {
    offers.map_values(
        |level: Level|
            Rung {
                side_price: level.yes_price,
                yes_price: level.yes_price,
                quantity: level.quantity,
            },
    )
}

/// The levels at which YES can be sold, each at what is left of a dollar.
pub open spec fn short_rungs(bids: Seq<Level>) -> Option<Seq<Rung>>
    decreases bids.len(),
{
    if bids.len() == 0 {
        Some(seq![])
    } else {
        match (short_rungs(bids.drop_last()), difference(one(), bids.last().yes_price)) {
            (Some(front), Some(side_price)) => Some(
                front.push(
                    Rung {
                        side_price,
                        yes_price: bids.last().yes_price,
                        quantity: bids.last().quantity,
                    },
                ),
            ),
            _ => None,
        }
    }
}

/// One tick above the best bid, if that is below the best offer.
pub open spec fn maker_buy(book: Book, tick: Dec) -> Option<Option<Dec>> {
    if book.bids.len() == 0 || book.offers.len() == 0 {
        Some(None)
    } else {
        match sum(book.bids[0].yes_price, tick) {
            Some(price) => Some(
                if price.lt(book.offers[0].yes_price) {
                    Some(price)
                } else {
                    None
                },
            ),
            None => None,
        }
    }
}

/// What is left of a dollar one tick below the best offer, if that is above
/// the best bid.
pub open spec fn maker_sell(book: Book, tick: Dec) -> Option<Option<Dec>> {
    if book.bids.len() == 0 || book.offers.len() == 0 {
        Some(None)
    } else {
        match difference(book.offers[0].yes_price, tick) {
            Some(yes_price) => match difference(one(), yes_price) {
                Some(price) => Some(
                    if book.bids[0].yes_price.lt(yes_price) {
                        Some(price)
                    } else {
                        None
                    },
                ),
                None => None,
            },
            None => None,
        }
    }
}

/// What the book and the consensus say of a side; missing on overflow.
pub open spec fn reading(
    market: Market,
    book: Book,
    consensus: Consensus,
    side: OutcomeSide,
) -> Option<Reading> {
    match side {
        OutcomeSide::Long => {
            let top = if book.offers.len() == 0 {
                one()
            } else {
                book.offers[0].yes_price
            };
            match maker_buy(book, market.tick_size) {
                Some(maker_price) => Some(
                    Reading {
                        participant: market.long_participant.name,
                        fair: consensus.probability_a,
                        dispersion: consensus.dispersion_a,
                        top_price: top,
                        top_yes_price: top,
                        levels: long_rungs(book.offers),
                        maker_price,
                    },
                ),
                None => None,
            }
        },
        OutcomeSide::Short => {
            let top = if book.bids.len() == 0 {
                zero()
            } else {
                book.bids[0].yes_price
            };
            match (
                maker_sell(book, market.tick_size),
                difference(one(), top),
                short_rungs(book.bids),
            ) {
                (Some(maker_price), Some(top_price), Some(levels)) => Some(
                    Reading {
                        participant: market.short_participant.name,
                        fair: consensus.probability_b,
                        dispersion: consensus.dispersion_a,
                        top_price,
                        top_yes_price: top,
                        levels,
                        maker_price,
                    },
                ),
                _ => None,
            }
        },
    }
}

/// One more reason, if it applies.
pub open spec fn noted(reasons: Seq<Seq<char>>, applies: bool, reason: Seq<char>) -> Seq<Seq<char>> {
    if applies {
        reasons.push(reason)
    } else {
        reasons
    }
}

pub open spec fn outside(price: Dec, p: Policy) -> bool {
    price.lt(p.minimum_price) || p.maximum_price.lt(price)
}

pub open spec fn range_reason(word: Seq<char>, price: Dec, p: Policy) -> Seq<char> {
    word + rounded(price, 4).text() + " is outside "@ + p.minimum_price.text() + "-"@
        + p.maximum_price.text()
}

/// Seconds since the book was fetched.
pub open spec fn book_age(book: Book, now: int) -> int {
    trunc_div(now - book.fetched_at, NANOS_PER_SECOND as int)
}

pub open spec fn stale(p: Policy, book: Book, now: int) -> bool {
    book_age(book, now) < 0 || book_age(book, now) > signed(p.book_max_age)
}

pub open spec fn from_the_future(book: Book, now: int) -> bool {
    book.transact_time > now + 60 * NANOS_PER_SECOND
}

pub open spec fn lead_seconds(market: Market, now: int) -> int {
    trunc_div(market.start_time - now, NANOS_PER_SECOND as int)
}

pub open spec fn too_close(p: Policy, market: Market, now: int) -> bool {
    lead_seconds(market, now) < signed(p.minimum_lead)
}

/// What speaks against a side before any size is known.
pub open spec fn market_reasons(
    p: Policy,
    market: Market,
    book: Book,
    consensus: Consensus,
    portfolio: Portfolio,
    side: OutcomeSide,
    top_price: Dec,
    now: int,
) -> Seq<Seq<char>> {
    let a = noted(
        seq![],
        book.state != "MARKET_STATE_OPEN"@,
        "book state is "@ + book.state,
    );
    let b = noted(a, market.ep3_status != "OPEN"@, "market status is "@ + market.ep3_status);
    let c = noted(
        b,
        stale(p, book, now),
        "book snapshot is "@ + int_text(book_age(book, now)) + "s old"@,
    );
    let d = noted(c, from_the_future(book, now), "book transact time is in the future"@);
    let e = noted(d, outside(top_price, p), range_reason("executable price "@, top_price, p));
    let f = noted(
        e,
        consensus.family_count < p.watchlist_source_families,
        "fewer than "@ + digits(p.watchlist_source_families) + " independent source families"@,
    );
    let g = noted(
        f,
        holds_side(portfolio, market.market_id, side),
        "paper portfolio already has this market side"@,
    );
    noted(
        g,
        too_close(p, market, now),
        "starts in "@ + int_text(
            trunc_div(market.start_time - now, 60 * NANOS_PER_SECOND as int),
        ) + "m, below the "@ + int_text(trunc_div(signed(p.minimum_lead), 60)) + "m minimum lead"@,
    )
}

/// The fair probability less its dispersion and the bias, at least zero.
pub open spec fn conservative(fair: Dec, dispersion: Dec, bias: Dec) -> Option<Dec> {
    match minus(difference(fair, dispersion), Some(bias)) {
        Some(d) => Some(d.max(zero())),
        None => None,
    }
}

/// The Kelly fraction at a cost, capped.
pub open spec fn capped_kelly(p: Policy, sure: Dec, cost: Option<Dec>) -> Option<Dec> {
    match cost {
        Some(cost) => match kelly(sure, cost, p.kelly_fraction) {
            Some(k) => Some(k.min(p.maximum_position_fraction)),
            None => None,
        },
        None => None,
    }
}

/// What the exposure caps leave, at least zero.
pub open spec fn exposure_left(p: Policy, portfolio: Portfolio, event_id: Seq<char>) -> Option<
    Dec,
> {
    let event = total(event_losses(portfolio.open_positions, event_id));
    match (
        difference(p.maximum_total_exposure, portfolio.open_exposure),
        minus(Some(p.maximum_event_exposure), event),
    ) {
        (Some(in_all), Some(in_event)) => Some(in_all.max(zero()).min(in_event.max(zero()))),
        _ => None,
    }
}

/// The position at a Kelly fraction.
pub open spec fn sized_at(
    p: Policy,
    market: Market,
    levels: Seq<Rung>,
    left: Dec,
    fraction: Dec,
) -> Option<Sized> {
    match product(p.bankroll, fraction) {
        Some(stake) => sized(
            levels,
            limits(
                stake.min(left),
                market.fee_coefficient,
                market.minimum_quantity,
                p.maximum_price,
            ),
        ),
        None => None,
    }
}

/// A Kelly fraction and the position that it gives.
pub struct Plan {
    pub kelly: Dec,
    pub sized: Sized,
}

/// The Kelly fraction at the top of the book, and the position at it; where
/// the depth-weighted cost of that position asks for a smaller fraction, that
/// one.
pub open spec fn planned(
    p: Policy,
    market: Market,
    portfolio: Portfolio,
    r: Reading,
    sure: Dec,
    top_fee: Dec,
) -> Option<Plan> {
    match (
        capped_kelly(p, sure, sum(r.top_price, top_fee)),
        exposure_left(p, portfolio, market.event_id),
    ) {
        (Some(first), Some(left)) => match sized_at(p, market, r.levels, left, first) {
            Some(s) => if !zero().lt(s.quantity) {
                Some(Plan { kelly: first, sized: s })
            } else {
                let cost = plus(
                    Some(s.average_side_price),
                    quotient(s.estimated_fee, s.quantity),
                );
                match capped_kelly(p, sure, cost) {
                    Some(second) => if second.lt(first) {
                        match sized_at(p, market, r.levels, left, second) {
                            Some(again) => Some(Plan { kelly: second, sized: again }),
                            None => None,
                        }
                    } else {
                        Some(Plan { kelly: first, sized: s })
                    },
                    None => None,
                }
            },
            None => None,
        },
        _ => None,
    }
}

/// What a side is worth at the price it can be had for.
pub struct Edges {
    pub executable: Dec,
    pub raw: Dec,
    pub net: Dec,
}

/// The edges at the depth-weighted price of the position, or at the top of the
/// book where there is none, to six places.
pub open spec fn edges(r: Reading, s: Sized, sure: Dec, top_fee: Dec) -> Option<Edges> {
    let executable = if zero().lt(s.quantity) {
        s.average_side_price
    } else {
        r.top_price
    };
    let fee_each = if zero().lt(s.quantity) {
        quotient(s.estimated_fee, s.quantity)
    } else {
        Some(top_fee)
    };
    match (
        difference(r.fair, executable),
        minus(difference(sure, executable), fee_each),
    ) {
        (Some(raw), Some(net)) => Some(
            Edges { executable, raw: rounded(raw, 6), net: rounded(net, 6) },
        ),
        _ => None,
    }
}

/// What speaks against a side once its size and edges are known; `floor` is
/// the least that a position must put at stake.
pub open spec fn size_reasons(
    before: Seq<Seq<char>>,
    p: Policy,
    market: Market,
    plan: Plan,
    e: Edges,
    floor: Dec,
) -> Seq<Seq<char>> {
    let a = noted(
        before,
        plan.kelly.lt(p.minimum_position_fraction),
        "quarter-Kelly size "@ + rounded(plan.kelly, 4).text() + " is below "@
            + p.minimum_position_fraction.text(),
    );
    let b = noted(
        a,
        plan.sized.quantity.lt(market.minimum_quantity),
        "insufficient eligible book depth"@,
    );
    let c = noted(
        b,
        plan.sized.maximum_loss.lt(floor),
        "depth-limited maximum loss is below "@ + p.minimum_position_fraction.text()
            + " of bankroll"@,
    );
    let d = noted(
        c,
        outside(e.executable, p),
        range_reason("depth-weighted price "@, e.executable, p),
    );
    let f = noted(
        d,
        e.raw.lt(p.minimum_raw_edge),
        "raw edge "@ + e.raw.text() + " is below "@ + p.minimum_raw_edge.text(),
    );
    noted(
        f,
        e.net.lt(p.minimum_net_edge),
        "conservative after-fee edge "@ + e.net.text() + " is below "@
            + p.minimum_net_edge.text(),
    )
}

/// What a resting order would earn: the rebate in place of the fee. Missing on
/// overflow; absent without a maker price.
pub open spec fn maker_edge(
    p: Policy,
    maker: Option<Dec>,
    side: OutcomeSide,
    sure: Dec,
) -> Option<Option<Dec>> {
    match maker {
        None => Some(None),
        Some(price) => {
            let yes = match side {
                OutcomeSide::Long => Some(price),
                OutcomeSide::Short => difference(one(), price),
            };
            let rebate = times(
                times(Some(p.maker_rebate_coefficient), yes),
                minus(Some(one()), yes),
            );
            match plus(difference(sure, price), rebate) {
                Some(edge) => Some(Some(rounded(edge, 6))),
                None => None,
            }
        },
    }
}

/// Whether the consensus holds a reference book, where one is required.
pub open spec fn reference_ok(p: Policy, consensus: Consensus) -> bool {
    consensus.has_reference || !p.require_reference_book
}

/// Any reason rejects; a full quorum with a reference book acts; the rest is
/// watched.
pub open spec fn class_of(p: Policy, consensus: Consensus, reasons: Seq<Seq<char>>) -> RecommendationClass {
    if reasons.len() > 0 {
        RecommendationClass::Rejected
    } else if consensus.family_count >= p.minimum_source_families && reference_ok(p, consensus) {
        RecommendationClass::Actionable
    } else {
        RecommendationClass::Watchlist
    }
}

/// What a watched side lacks.
pub open spec fn watch_reasons(
    before: Seq<Seq<char>>,
    p: Policy,
    consensus: Consensus,
    class: RecommendationClass,
) -> Seq<Seq<char>> {
    let watched = class == RecommendationClass::Watchlist;
    let a = noted(
        before,
        watched && consensus.family_count < p.minimum_source_families,
        "requires "@ + digits(p.minimum_source_families) + " independent source families"@,
    );
    noted(
        a,
        watched && !reference_ok(p, consensus),
        "requires a reference sportsbook"@,
    )
}

/// The text that the identifier of a market side is made from.
pub open spec fn side_text(market_id: Seq<char>, side: OutcomeSide) -> Seq<char> {
    "polybot:"@ + market_id + ":"@ + side.title()
}

/// The version 5 identifier of a text in the URL namespace, as the `uuid` crate
/// makes it.
pub uninterp spec fn url_uuid(text: Seq<char>) -> int;

/// Calls `uuid::Uuid::new_v5` with the URL namespace and the bytes of the text,
/// and hands the identifier back as a number. Claimed: it is a function of the
/// text.
#[verifier::external_body]
fn uuid_of_url(text: &str) -> (result: u128)
    ensures
        result == url_uuid(text@),
{
    uuid::Uuid::new_v5(&uuid::Uuid::NAMESPACE_URL, text.as_bytes()).as_u128()
}

/// Everything that is computed about a side before its row is written.
pub struct Appraisal {
    pub reading: Reading,
    pub sure: Dec,
    pub plan: Plan,
    pub edges: Edges,
    pub floor: Dec,
    pub maker_net_edge: Option<Dec>,
}

/// What the numbers say of a side; missing on overflow.
pub open spec fn appraised(
    p: Policy,
    market: Market,
    book: Book,
    consensus: Consensus,
    portfolio: Portfolio,
    side: OutcomeSide,
) -> Option<Appraisal> {
    match reading(market, book, consensus, side) {
        Some(r) => match (
            conservative(r.fair, r.dispersion, p.consensus_bias),
            fee(market.fee_coefficient, one(), r.top_yes_price),
            product(p.bankroll, p.minimum_position_fraction),
        ) {
            (Some(sure), Some(top_fee), Some(floor)) => match planned(
                p,
                market,
                portfolio,
                r,
                sure,
                top_fee,
            ) {
                Some(plan) => match (
                    edges(r, plan.sized, sure, top_fee),
                    maker_edge(p, r.maker_price, side, sure),
                ) {
                    (Some(e), Some(maker_net_edge)) => Some(
                        Appraisal { reading: r, sure, plan, edges: e, floor, maker_net_edge },
                    ),
                    _ => None,
                },
                None => None,
            },
            _ => None,
        },
        None => None,
    }
}

/// What speaks against an appraised side.
pub open spec fn hard_reasons(
    p: Policy,
    market: Market,
    book: Book,
    consensus: Consensus,
    portfolio: Portfolio,
    side: OutcomeSide,
    now: int,
    a: Appraisal,
) -> Seq<Seq<char>> {
    size_reasons(
        market_reasons(
            p,
            market,
            book,
            consensus,
            portfolio,
            side,
            a.reading.top_price,
            now,
        ),
        p,
        market,
        a.plan,
        a.edges,
        a.floor,
    )
}

/// The row of one side; missing where a number overflows.
pub open spec fn side_row(
    p: Policy,
    market: Market,
    book: Book,
    consensus: Consensus,
    portfolio: Portfolio,
    side: OutcomeSide,
    now: int,
) -> Option<Row> {
    match appraised(p, market, book, consensus, portfolio, side) {
        Some(a) => {
            let hard = hard_reasons(p, market, book, consensus, portfolio, side, now, a);
            let class = class_of(p, consensus, hard);
            Some(
                Row {
                    id: url_uuid(side_text(market.market_id, side)),
                    generated_at: now,
                    class,
                    sport: market.sport,
                    event_id: market.event_id,
                    market_id: market.market_id,
                    market_slug: market.market_slug,
                    participant: a.reading.participant,
                    side,
                    fair_probability: rounded(a.reading.fair, 6),
                    conservative_probability: rounded(a.sure, 6),
                    executable_price: rounded(a.edges.executable, 6),
                    maker_price: a.reading.maker_price,
                    maker_net_edge: a.maker_net_edge,
                    raw_edge: a.edges.raw,
                    net_edge: a.edges.net,
                    quantity: a.plan.sized.quantity,
                    maximum_loss: a.plan.sized.maximum_loss,
                    estimated_fee: a.plan.sized.estimated_fee,
                    family_count: consensus.family_count,
                    source_ids: consensus.source_ids,
                    start_time: market.start_time,
                    book_time: book.transact_time,
                    reasons: watch_reasons(hard, p, consensus, class),
                },
            )
        },
        None => None,
    }
}

/// The rows of both sides.
pub open spec fn market_rows(
    p: Policy,
    market: Market,
    book: Book,
    consensus: Consensus,
    portfolio: Portfolio,
    now: int,
) -> Option<Seq<Row>> {
    both(
        side_row(p, market, book, consensus, portfolio, OutcomeSide::Long, now),
        side_row(p, market, book, consensus, portfolio, OutcomeSide::Short, now),
    )
}

/// Two rows in a sequence, if both are there.
pub open spec fn both(long: Option<Row>, short: Option<Row>) -> Option<Seq<Row>> {
    match (long, short) {
        (Some(long), Some(short)) => Some(seq![long, short]),
        _ => None,
    }
}

/// The row inside an optional one.
pub open spec fn row_of(row: Option<Opportunity>) -> Option<Row> {
    match row {
        Some(row) => Some(row@),
        None => None,
    }
}

/// The rows inside optional ones.
pub open spec fn rows_of(rows: Option<Vec<Opportunity>>) -> Option<Seq<Row>> {
    match rows {
        Some(rows) => Some(crate::domain::opportunity_views(rows@)),
        None => None,
    }
}

/// What the book and the consensus say of one side.
struct SideReading {
    participant: String,
    fair: Decimal,
    dispersion: Decimal,
    top_price: Decimal,
    top_yes_price: Decimal,
    levels: Vec<ExecutionLevel>,
    maker_price: Option<Decimal>,
}

impl View for SideReading {
    type V = Reading;

    closed spec fn view(&self) -> Reading {
        Reading {
            participant: self.participant@,
            fair: self.fair@,
            dispersion: self.dispersion@,
            top_price: self.top_price@,
            top_yes_price: self.top_yes_price@,
            levels: rungs(self.levels@),
            maker_price: dec_of(self.maker_price),
        }
    }
}

/// The levels at which YES can be bought.
pub fn long_levels(offers: &Vec<BookLevel>) -> (result: Vec<ExecutionLevel>)
    ensures
        rungs(result@) == long_rungs(book_level_views(offers@)),
{
    let mut levels: Vec<ExecutionLevel> = Vec::new();
    let mut i: usize = 0;
    while i < offers.len()
        invariant
            i <= offers@.len(),
            levels@.len() == i,
            forall|j: int|
                0 <= j < i ==> (#[trigger] levels@[j])@ == (Rung {
                    side_price: offers@[j]@.yes_price,
                    yes_price: offers@[j]@.yes_price,
                    quantity: offers@[j]@.quantity,
                }),
        decreases offers@.len() - i,
    {
        levels.push(
            ExecutionLevel {
                side_price: offers[i].yes_price,
                yes_price: offers[i].yes_price,
                quantity: offers[i].quantity,
            },
        );
        i = i + 1;
    }
    levels
}

proof fn lemma_short_stays_missing(bids: Seq<Level>, at: int)
    requires
        0 <= at <= bids.len(),
        short_rungs(bids.take(at)) is None,
    ensures
        short_rungs(bids) is None,
    decreases bids.len() - at,
{
    if at < bids.len() {
        take_next(bids, at);
        assert(bids.take(at + 1).drop_last() =~= bids.take(at));
        lemma_short_stays_missing(bids, at + 1);
    }
}

/// The levels at which YES can be sold; `None` on overflow.
pub fn short_levels(bids: &Vec<BookLevel>) -> (result: Option<Vec<ExecutionLevel>>)
    ensures
        match result {
            Some(levels) => short_rungs(book_level_views(bids@)) == Some(rungs(levels@)),
            None => short_rungs(book_level_views(bids@)) is None,
        },
{
    let mut levels: Vec<ExecutionLevel> = Vec::new();
    let mut i: usize = 0;
    while i < bids.len()
        invariant
            i <= bids@.len(),
            short_rungs(book_level_views(bids@).take(i as int)) == Some(rungs(levels@)),
        decreases bids@.len() - i,
    {
        let ghost all = book_level_views(bids@);
        let ghost more = all.take(i as int + 1);
        proof {
            take_next(all, i as int);
            assert(more.drop_last() =~= all.take(i as int));
            assert(more.last() == bids@[i as int]@);
        }
        match Decimal::one().checked_sub(bids[i].yes_price) {
            Some(side_price) => {
                levels.push(
                    ExecutionLevel {
                        side_price,
                        yes_price: bids[i].yes_price,
                        quantity: bids[i].quantity,
                    },
                );
            },
            None => {
                proof {
                    lemma_short_stays_missing(all, i as int + 1);
                }
                return None;
            },
        }
        i = i + 1;
    }
    Some(levels)
}

pub open spec fn price_of(price: Option<Option<Decimal>>) -> Option<Option<Dec>> {
    match price {
        Some(price) => Some(dec_of(price)),
        None => None,
    }
}

/// Where a resting buy of YES would stand; the outer `None` on overflow.
fn maker_long(book: &MarketBook, tick: Decimal) -> (result: Option<Option<Decimal>>)
    ensures
        price_of(result) == maker_buy(book@, tick@),
{
    if book.bids.len() == 0 || book.offers.len() == 0 {
        return Some(None);
    }
    assert(book@.bids[0] == book.bids@[0]@ && book@.offers[0] == book.offers@[0]@);
    let price = book.bids[0].yes_price.checked_add(tick)?;
    Some(
        if price.less(book.offers[0].yes_price) {
            Some(price)
        } else {
            None
        },
    )
}

/// Where a resting sale of YES would stand, as the price of the other side; the
/// outer `None` on overflow.
fn maker_short(book: &MarketBook, tick: Decimal) -> (result: Option<Option<Decimal>>)
    ensures
        price_of(result) == maker_sell(book@, tick@),
{
    if book.bids.len() == 0 || book.offers.len() == 0 {
        return Some(None);
    }
    assert(book@.bids[0] == book.bids@[0]@ && book@.offers[0] == book.offers@[0]@);
    let yes_price = book.offers[0].yes_price.checked_sub(tick)?;
    let price = Decimal::one().checked_sub(yes_price)?;
    Some(
        if book.bids[0].yes_price.less(yes_price) {
            Some(price)
        } else {
            None
        },
    )
}

spec fn reading_of(r: Option<SideReading>) -> Option<Reading> {
    match r {
        Some(r) => Some(r@),
        None => None,
    }
}

fn read_side(
    market: &UsMoneylineMarket,
    book: &MarketBook,
    consensus: &ConsensusPrice,
    side: OutcomeSide,
) -> (result: Option<SideReading>)
    ensures
        reading_of(result) == reading(market@, book@, consensus@, side),
{
    match side {
        OutcomeSide::Long => {
            let maker_price = maker_long(book, market.tick_size)?;
            let top = if book.offers.len() == 0 {
                Decimal::one()
            } else {
                assert(book@.offers[0] == book.offers@[0]@);
                book.offers[0].yes_price
            };
            Some(
                SideReading {
                    participant: owned(market.long_participant.name.as_str()),
                    fair: consensus.probability_a,
                    dispersion: consensus.dispersion_a,
                    top_price: top,
                    top_yes_price: top,
                    levels: long_levels(&book.offers),
                    maker_price,
                },
            )
        },
        OutcomeSide::Short => {
            let maker_price = maker_short(book, market.tick_size)?;
            let top = if book.bids.len() == 0 {
                Decimal::zero()
            } else {
                assert(book@.bids[0] == book.bids@[0]@);
                book.bids[0].yes_price
            };
            let top_price = Decimal::one().checked_sub(top)?;
            let levels = short_levels(&book.bids)?;
            Some(
                SideReading {
                    participant: owned(market.short_participant.name.as_str()),
                    fair: consensus.probability_b,
                    dispersion: consensus.dispersion_a,
                    top_price,
                    top_yes_price: top,
                    levels,
                    maker_price,
                },
            )
        },
    }
}

fn outside_range(price: Decimal, settings: &Settings) -> (result: bool)
    ensures
        result == outside(price@, settings@),
{
    price.less(settings.minimum_price) || settings.maximum_price.less(price)
}

fn range_text(word: &str, price: Decimal, settings: &Settings) -> (result: String)
    ensures
        result@ == range_reason(word@, price@, settings@),
{
    concat6(
        word,
        price.round_dp(4).to_text().as_str(),
        " is outside ",
        settings.minimum_price.to_text().as_str(),
        "-",
        settings.maximum_price.to_text().as_str(),
    )
}

/// What speaks against a side before any size is known.
fn market_objections(
    settings: &Settings,
    market: &UsMoneylineMarket,
    book: &MarketBook,
    consensus: &ConsensusPrice,
    portfolio: &PaperPortfolio,
    side: OutcomeSide,
    top_price: Decimal,
    now: Timestamp,
) -> (result: Vec<String>)
    ensures
        texts(result@) == market_reasons(
            settings@,
            market@,
            book@,
            consensus@,
            portfolio@,
            side,
            top_price@,
            now@,
        ),
{
    let mut reasons: Vec<String> = Vec::new();
    if !same(book.state.as_str(), "MARKET_STATE_OPEN") {
        reasons.push(concat2("book state is ", book.state.as_str()));
    }
    if !same(market.ep3_status.as_str(), "OPEN") {
        reasons.push(concat2("market status is ", market.ep3_status.as_str()));
    }
    let age: i128 = now.seconds_since(book.fetched_at);
    if age < 0 || age > signed_seconds(settings.book_max_age) as i128 {
        reasons.push(concat3("book snapshot is ", integer(age).as_str(), "s old"));
    }
    if book.transact_time.nanos() > now.nanos() + 60 * NANOS_PER_SECOND {
        reasons.push(owned("book transact time is in the future"));
    }
    if outside_range(top_price, settings) {
        reasons.push(range_text("executable price ", top_price, settings));
    }
    if consensus.family_count < settings.watchlist_source_families {
        let needed = natural(settings.watchlist_source_families as u128);
        reasons.push(concat3("fewer than ", needed.as_str(), " independent source families"));
    }
    if portfolio.has_market_side(market.market_id.as_str(), side) {
        reasons.push(owned("paper portfolio already has this market side"));
    }
    let least: i64 = signed_seconds(settings.minimum_lead);
    if market.start_time.seconds_since(now) < least as i128 {
        let minutes: i128 = market.start_time.minutes_since(now);
        let least_minutes: i128 = truncated(least as i128, 60);
        reasons.push(
            concat5(
                "starts in ",
                integer(minutes).as_str(),
                "m, below the ",
                integer(least_minutes).as_str(),
                "m minimum lead",
            ),
        );
    }
    reasons
}

fn conservative_probability(fair: Decimal, dispersion: Decimal, bias: Decimal) -> (result: Option<
    Decimal,
>)
    ensures
        dec_of(result) == conservative(fair@, dispersion@, bias@),
{
    let spread_off = fair.checked_sub(dispersion)?;
    let bias_off = spread_off.checked_sub(bias)?;
    Some(bias_off.max(Decimal::zero()))
}

fn kelly_at(settings: &Settings, sure: Decimal, cost: Decimal) -> (result: Option<Decimal>)
    ensures
        dec_of(result) == capped_kelly(settings@, sure@, Some(cost@)),
{
    let k = quarter_kelly_fraction(sure, cost, settings.kelly_fraction)?;
    Some(k.min(settings.maximum_position_fraction))
}

fn exposure_remaining(settings: &Settings, portfolio: &PaperPortfolio, event_id: &str) -> (result:
    Option<Decimal>)
    ensures
        dec_of(result) == exposure_left(settings@, portfolio@, event_id@),
{
    let nil = Decimal::zero();
    let event = portfolio.exposure_for_event(event_id)?;
    let in_all = settings.maximum_total_exposure.checked_sub(portfolio.open_exposure)?;
    let in_event = settings.maximum_event_exposure.checked_sub(event)?;
    Some(in_all.max(nil).min(in_event.max(nil)))
}

fn size_at(
    settings: &Settings,
    market: &UsMoneylineMarket,
    levels: &Vec<ExecutionLevel>,
    left: Decimal,
    fraction: Decimal,
) -> (result: Option<SizedPosition>)
    ensures
        sized_of(result) == sized_at(settings@, market@, rungs(levels@), left@, fraction@),
{
    let stake = settings.bankroll.checked_mul(fraction)?;
    size_position_from_levels(
        stake.min(left),
        market.fee_coefficient,
        market.minimum_quantity,
        settings.maximum_price,
        levels,
    )
}

spec fn plan_of(plan: Option<(Decimal, SizedPosition)>) -> Option<Plan> {
    match plan {
        Some(plan) => Some(Plan { kelly: plan.0@, sized: plan.1@ }),
        None => None,
    }
}

/// The Kelly fraction and the position at it. The top of the book overstates
/// the edge once the fill climbs the book, so the size is taken once more at
/// the depth-weighted cost where that asks for less.
fn plan_side(
    settings: &Settings,
    market: &UsMoneylineMarket,
    portfolio: &PaperPortfolio,
    read: &SideReading,
    sure: Decimal,
    top_fee: Decimal,
) -> (result: Option<(Decimal, SizedPosition)>)
    ensures
        plan_of(result) == planned(settings@, market@, portfolio@, read@, sure@, top_fee@),
{
    let top_cost = read.top_price.checked_add(top_fee)?;
    let first = kelly_at(settings, sure, top_cost)?;
    let left = exposure_remaining(settings, portfolio, market.event_id.as_str())?;
    let sized = size_at(settings, market, &read.levels, left, first)?;
    if !Decimal::zero().less(sized.quantity) {
        return Some((first, sized));
    }
    let fee_each = sized.estimated_fee.checked_div(sized.quantity)?;
    let cost = sized.average_side_price.checked_add(fee_each)?;
    let second = kelly_at(settings, sure, cost)?;
    if second.less(first) {
        let again = size_at(settings, market, &read.levels, left, second)?;
        Some((second, again))
    } else {
        Some((first, sized))
    }
}

/// What a side is worth at the price it can be had for.
struct SideEdges {
    executable: Decimal,
    raw: Decimal,
    net: Decimal,
}

impl View for SideEdges {
    type V = Edges;

    closed spec fn view(&self) -> Edges {
        Edges { executable: self.executable@, raw: self.raw@, net: self.net@ }
    }
}

spec fn edges_of(e: Option<SideEdges>) -> Option<Edges> {
    match e {
        Some(e) => Some(e@),
        None => None,
    }
}

fn side_edges(read: &SideReading, sized: SizedPosition, sure: Decimal, top_fee: Decimal) -> (result:
    Option<SideEdges>)
    ensures
        edges_of(result) == edges(read@, sized@, sure@, top_fee@),
{
    let filled = Decimal::zero().less(sized.quantity);
    let executable = if filled {
        sized.average_side_price
    } else {
        read.top_price
    };
    let fee_each = if filled {
        sized.estimated_fee.checked_div(sized.quantity)?
    } else {
        top_fee
    };
    let raw = read.fair.checked_sub(executable)?;
    let before_fee = sure.checked_sub(executable)?;
    let net = before_fee.checked_sub(fee_each)?;
    Some(SideEdges { executable, raw: raw.round_dp(6), net: net.round_dp(6) })
}

/// Adds what speaks against a side once its size and edges are known.
fn size_objections(
    before: Vec<String>,
    settings: &Settings,
    market: &UsMoneylineMarket,
    fraction: Decimal,
    sized: SizedPosition,
    edges: &SideEdges,
    floor: Decimal,
) -> (result: Vec<String>)
    ensures
        texts(result@) == size_reasons(
            texts(before@),
            settings@,
            market@,
            Plan { kelly: fraction@, sized: sized@ },
            edges@,
            floor@,
        ),
{
    let mut reasons = before;
    let least = settings.minimum_position_fraction;
    if fraction.less(least) {
        reasons.push(
            concat4(
                "quarter-Kelly size ",
                fraction.round_dp(4).to_text().as_str(),
                " is below ",
                least.to_text().as_str(),
            ),
        );
    }
    if sized.quantity.less(market.minimum_quantity) {
        reasons.push(owned("insufficient eligible book depth"));
    }
    if sized.maximum_loss.less(floor) {
        reasons.push(
            concat3(
                "depth-limited maximum loss is below ",
                least.to_text().as_str(),
                " of bankroll",
            ),
        );
    }
    if outside_range(edges.executable, settings) {
        reasons.push(range_text("depth-weighted price ", edges.executable, settings));
    }
    if edges.raw.less(settings.minimum_raw_edge) {
        reasons.push(
            concat4(
                "raw edge ",
                edges.raw.to_text().as_str(),
                " is below ",
                settings.minimum_raw_edge.to_text().as_str(),
            ),
        );
    }
    if edges.net.less(settings.minimum_net_edge) {
        reasons.push(
            concat4(
                "conservative after-fee edge ",
                edges.net.to_text().as_str(),
                " is below ",
                settings.minimum_net_edge.to_text().as_str(),
            ),
        );
    }
    reasons
}

/// What a resting order would earn. It is not sure to fill, so this is told and
/// never classifies. The outer `None` on overflow.
fn maker_edge_of(settings: &Settings, maker: Option<Decimal>, side: OutcomeSide, sure: Decimal) -> (result:
    Option<Option<Decimal>>)
    ensures
        price_of(result) == maker_edge(settings@, dec_of(maker), side, sure@),
{
    match maker {
        None => Some(None),
        Some(price) => {
            let yes = match side {
                OutcomeSide::Long => price,
                OutcomeSide::Short => Decimal::one().checked_sub(price)?,
            };
            let at_yes = settings.maker_rebate_coefficient.checked_mul(yes)?;
            let no = Decimal::one().checked_sub(yes)?;
            let rebate = at_yes.checked_mul(no)?;
            let before = sure.checked_sub(price)?;
            let edge = before.checked_add(rebate)?;
            Some(Some(edge.round_dp(6)))
        },
    }
}

/// Classifies the sides of markets under fixed settings.
pub struct OpportunityEngine {
    settings: Settings,
}

impl View for OpportunityEngine {
    type V = Policy;

    closed spec fn view(&self) -> Policy {
        self.settings@
    }
}

impl OpportunityEngine {
    pub fn new(settings: Settings) -> (result: OpportunityEngine)
        ensures
            result@ == settings@,
    {
        OpportunityEngine { settings }
    }

    /// Classifies both sides of `market` as of `now`, the scan's evaluation
    /// time. Every age and lead check is relative to it, so that a replay over
    /// stored books gives the live decision again. `None` where a number
    /// overflows.
    #[verifier::spinoff_prover]
    #[verifier::rlimit(40)]
    pub fn evaluate(
        &self,
        market: &UsMoneylineMarket,
        book: &MarketBook,
        consensus: &ConsensusPrice,
        portfolio: &PaperPortfolio,
        now: Timestamp,
    ) -> (result: Option<Vec<Opportunity>>)
        ensures
            rows_of(result) == market_rows(
                self@,
                market@,
                book@,
                consensus@,
                portfolio@,
                now@,
            ),
    {
        let long = self.evaluate_side(market, book, consensus, portfolio, OutcomeSide::Long, now)?;
        let short = self.evaluate_side(
            market,
            book,
            consensus,
            portfolio,
            OutcomeSide::Short,
            now,
        )?;
        let mut rows: Vec<Opportunity> = Vec::new();
        rows.push(long);
        rows.push(short);
        assert(crate::domain::opportunity_views(rows@) =~= seq![long@, short@]);
        Some(rows)
    }

    /// Classifies one side; `None` where a number overflows.
    pub fn evaluate_side(
        &self,
        market: &UsMoneylineMarket,
        book: &MarketBook,
        consensus: &ConsensusPrice,
        portfolio: &PaperPortfolio,
        side: OutcomeSide,
        now: Timestamp,
    ) -> (result: Option<Opportunity>)
        ensures
            row_of(result) == side_row(
                self@,
                market@,
                book@,
                consensus@,
                portfolio@,
                side,
                now@,
            ),
    {
        let settings = &self.settings;
        let read = read_side(market, book, consensus, side)?;
        let sure = conservative_probability(read.fair, read.dispersion, settings.consensus_bias)?;
        let top_fee = exact_fee(market.fee_coefficient, Decimal::one(), read.top_yes_price)?;
        let floor = settings.bankroll.checked_mul(settings.minimum_position_fraction)?;
        let (fraction, sized) = plan_side(settings, market, portfolio, &read, sure, top_fee)?;
        let edges = side_edges(&read, sized, sure, top_fee)?;
        let maker_net_edge = maker_edge_of(settings, read.maker_price, side, sure)?;
        let early = market_objections(
            settings,
            market,
            book,
            consensus,
            portfolio,
            side,
            read.top_price,
            now,
        );
        let mut reasons = size_objections(early, settings, market, fraction, sized, &edges, floor);
        let ghost hard = texts(reasons@);
        let has_reference = consensus.has_reference || !settings.require_reference_book;
        let enough = consensus.family_count >= settings.minimum_source_families;
        let class = if reasons.len() > 0 {
            RecommendationClass::Rejected
        } else if enough && has_reference {
            RecommendationClass::Actionable
        } else {
            RecommendationClass::Watchlist
        };
        assert(class == class_of(settings@, consensus@, hard));
        if class == RecommendationClass::Watchlist {
            if !enough {
                let needed = natural(settings.minimum_source_families as u128);
                reasons.push(concat3("requires ", needed.as_str(), " independent source families"));
            }
            if !has_reference {
                reasons.push(owned("requires a reference sportsbook"));
            }
        }
        let name = concat4("polybot:", market.market_id.as_str(), ":", side.capitalized());
        Some(
            Opportunity {
                id: uuid_of_url(name.as_str()),
                generated_at: now,
                class,
                sport: market.sport,
                event_id: owned(market.event_id.as_str()),
                market_id: owned(market.market_id.as_str()),
                market_slug: owned(market.market_slug.as_str()),
                participant: read.participant,
                side,
                fair_probability: read.fair.round_dp(6),
                conservative_probability: sure.round_dp(6),
                executable_price: edges.executable.round_dp(6),
                maker_price: read.maker_price,
                maker_net_edge,
                raw_edge: edges.raw,
                net_edge: edges.net,
                quantity: sized.quantity,
                maximum_loss: sized.maximum_loss,
                estimated_fee: sized.estimated_fee,
                family_count: consensus.family_count,
                source_ids: copy_texts(&consensus.source_ids),
                start_time: market.start_time,
                book_time: book.transact_time,
                reasons,
            },
        )
    }
}

/// A side acts exactly where nothing speaks against it; it is rejected exactly
/// where a gate does, and a watched side says what it lacks.
pub proof fn class_follows_the_reasons(
    p: Policy,
    market: Market,
    book: Book,
    consensus: Consensus,
    portfolio: Portfolio,
    side: OutcomeSide,
    now: int,
)
    ensures
        side_row(p, market, book, consensus, portfolio, side, now) matches Some(row) ==> {
            let a = appraised(p, market, book, consensus, portfolio, side)->0;
            let hard = hard_reasons(p, market, book, consensus, portfolio, side, now, a);
            &&& row.class == RecommendationClass::Actionable <==> row.reasons.len() == 0
            &&& row.class == RecommendationClass::Rejected <==> hard.len() > 0
            &&& row.class == RecommendationClass::Rejected ==> row.reasons == hard
        },
{
}

/// What an actionable side has passed: every gate.
pub proof fn actionable_passes_every_gate(
    p: Policy,
    market: Market,
    book: Book,
    consensus: Consensus,
    portfolio: Portfolio,
    side: OutcomeSide,
    now: int,
)
    ensures
        side_row(p, market, book, consensus, portfolio, side, now) matches Some(row) ==> (row.class
            == RecommendationClass::Actionable ==> {
            let a = appraised(p, market, book, consensus, portfolio, side)->0;
            &&& book.state == "MARKET_STATE_OPEN"@
            &&& market.ep3_status == "OPEN"@
            &&& 0 <= book_age(book, now) <= signed(p.book_max_age)
            &&& book.transact_time <= now + 60 * NANOS_PER_SECOND
            &&& consensus.family_count >= p.minimum_source_families
            &&& consensus.has_reference || !p.require_reference_book
            &&& !holds_side(portfolio, market.market_id, side)
            &&& lead_seconds(market, now) >= signed(p.minimum_lead)
            &&& market.minimum_quantity.le(row.quantity)
            &&& p.minimum_raw_edge.le(row.raw_edge)
            &&& p.minimum_net_edge.le(row.net_edge)
            &&& !outside(a.reading.top_price, p)
            &&& !outside(a.edges.executable, p)
            &&& p.minimum_position_fraction.le(a.plan.kelly)
            &&& a.floor.le(row.maximum_loss)
        }),
{
}

/// What a side that is not rejected has passed: every gate, the quorum being
/// that of the watchlist.
pub proof fn watched_passes_every_other_gate(
    p: Policy,
    market: Market,
    book: Book,
    consensus: Consensus,
    portfolio: Portfolio,
    side: OutcomeSide,
    now: int,
)
    ensures
        side_row(p, market, book, consensus, portfolio, side, now) matches Some(row) ==> (row.class
            != RecommendationClass::Rejected ==> {
            let a = appraised(p, market, book, consensus, portfolio, side)->0;
            &&& book.state == "MARKET_STATE_OPEN"@
            &&& market.ep3_status == "OPEN"@
            &&& 0 <= book_age(book, now) <= signed(p.book_max_age)
            &&& book.transact_time <= now + 60 * NANOS_PER_SECOND
            &&& consensus.family_count >= p.watchlist_source_families
            &&& !holds_side(portfolio, market.market_id, side)
            &&& lead_seconds(market, now) >= signed(p.minimum_lead)
            &&& market.minimum_quantity.le(row.quantity)
            &&& p.minimum_raw_edge.le(row.raw_edge)
            &&& p.minimum_net_edge.le(row.net_edge)
            &&& !outside(a.reading.top_price, p)
            &&& !outside(a.edges.executable, p)
            &&& p.minimum_position_fraction.le(a.plan.kelly)
            &&& a.floor.le(row.maximum_loss)
        }),
{
}

/// A market, a book and a row with every instant moved by `d` nanoseconds.
pub open spec fn market_moved(market: Market, d: int) -> Market {
    Market {
        start_time: market.start_time + d,
        ep3_synced_at: match market.ep3_synced_at {
            Some(at) => Some(at + d),
            None => None,
        },
        ..market
    }
}

pub open spec fn book_moved(book: Book, d: int) -> Book {
    Book { transact_time: book.transact_time + d, fetched_at: book.fetched_at + d, ..book }
}

pub open spec fn row_moved(row: Row, d: int) -> Row {
    Row {
        generated_at: row.generated_at + d,
        start_time: row.start_time + d,
        book_time: row.book_time + d,
        ..row
    }
}

proof fn lemma_side_moves(
    p: Policy,
    market: Market,
    book: Book,
    consensus: Consensus,
    portfolio: Portfolio,
    side: OutcomeSide,
    now: int,
    d: int,
)
    ensures
        side_row(
            p,
            market_moved(market, d),
            book_moved(book, d),
            consensus,
            portfolio,
            side,
            now + d,
        ) == moved_if_there(
            side_row(p, market, book, consensus, portfolio, side, now),
            d,
        ),
{
    let (m, b) = (market_moved(market, d), book_moved(book, d));
    assert(reading(m, b, consensus, side) == reading(market, book, consensus, side));
    assert(appraised(p, m, b, consensus, portfolio, side) == appraised(
        p,
        market,
        book,
        consensus,
        portfolio,
        side,
    ));
    assert((now + d) - b.fetched_at == now - book.fetched_at);
    assert(m.start_time - (now + d) == market.start_time - now);
    if let Some(a) = appraised(p, market, book, consensus, portfolio, side) {
        assert(market_reasons(p, m, b, consensus, portfolio, side, a.reading.top_price, now + d)
            == market_reasons(
            p,
            market,
            book,
            consensus,
            portfolio,
            side,
            a.reading.top_price,
            now,
        ));
    }
}

/// No age or lead depends on the clock itself: with every instant moved by the
/// same span, the rows are the same but for their instants, which move along.
#[verifier::rlimit(60)]
pub proof fn decisions_move_with_the_clock(
    p: Policy,
    market: Market,
    book: Book,
    consensus: Consensus,
    portfolio: Portfolio,
    now: int,
    d: int,
)
    ensures
        market_rows(
            p,
            market_moved(market, d),
            book_moved(book, d),
            consensus,
            portfolio,
            now + d,
        ) == match market_rows(p, market, book, consensus, portfolio, now) {
            Some(rows) => Some(rows.map_values(|row: Row| row_moved(row, d))),
            None => None,
        },
{
    lemma_side_moves(p, market, book, consensus, portfolio, OutcomeSide::Long, now, d);
    lemma_side_moves(p, market, book, consensus, portfolio, OutcomeSide::Short, now, d);
    lemma_both_move(
        side_row(p, market, book, consensus, portfolio, OutcomeSide::Long, now),
        side_row(p, market, book, consensus, portfolio, OutcomeSide::Short, now),
        d,
    );
}

/// A row that is there, with its instants moved.
pub open spec fn moved_if_there(row: Option<Row>, d: int) -> Option<Row> {
    match row {
        Some(row) => Some(row_moved(row, d)),
        None => None,
    }
}

proof fn lemma_both_move(long: Option<Row>, short: Option<Row>, d: int)
    ensures
        both(moved_if_there(long, d), moved_if_there(short, d)) == match both(long, short) {
            Some(rows) => Some(rows.map_values(|row: Row| row_moved(row, d))),
            None => None,
        },
{
    if let Some(rows) = both(long, short) {
        assert(rows.map_values(|row: Row| row_moved(row, d)) =~= both(
            moved_if_there(long, d),
            moved_if_there(short, d),
        )->0);
    }
}

proof fn lemma_side_texts_differ(market_id: Seq<char>)
    ensures
        side_text(market_id, OutcomeSide::Long) != side_text(market_id, OutcomeSide::Short),
{
    reveal_strlit("Long");
    reveal_strlit("Short");
    let (a, b) = (side_text(market_id, OutcomeSide::Long), side_text(market_id, OutcomeSide::Short));
    assert(a.len() != b.len());
}

/// A market gives two rows, the long side and then the short side, both dated
/// now, and each with the identifier that its side has in every scan.
#[verifier::rlimit(60)]
pub proof fn a_market_has_two_rows(
    p: Policy,
    market: Market,
    book: Book,
    consensus: Consensus,
    portfolio: Portfolio,
    now: int,
)
    ensures
        market_rows(p, market, book, consensus, portfolio, now) matches Some(rows) ==> {
            &&& rows.len() == 2
            &&& rows[0].side == OutcomeSide::Long
            &&& rows[1].side == OutcomeSide::Short
            &&& rows[0].generated_at == now && rows[1].generated_at == now
            &&& rows[0].id == url_uuid(side_text(market.market_id, OutcomeSide::Long))
            &&& rows[1].id == url_uuid(side_text(market.market_id, OutcomeSide::Short))
            &&& side_text(market.market_id, OutcomeSide::Long) != side_text(
                market.market_id,
                OutcomeSide::Short,
            )
        },
{
    lemma_side_texts_differ(market.market_id);
}

/// A side has the same identifier in every scan.
pub proof fn same_side_same_id(
    p: Policy,
    market: Market,
    book: Book,
    consensus: Consensus,
    portfolio: Portfolio,
    side: OutcomeSide,
    now: int,
)
    ensures
        side_row(p, market, book, consensus, portfolio, side, now) matches Some(row) ==> row.id
            == url_uuid(side_text(market.market_id, side)),
{
}

proof fn lemma_plan_ignores_rebate(
    p: Policy,
    rebate: Dec,
    market: Market,
    portfolio: Portfolio,
    r: Reading,
    sure: Dec,
    top_fee: Dec,
)
    ensures
        planned(p, market, portfolio, r, sure, top_fee) == planned(
            Policy { maker_rebate_coefficient: rebate, ..p },
            market,
            portfolio,
            r,
            sure,
            top_fee,
        ),
{
    let q = Policy { maker_rebate_coefficient: rebate, ..p };
    assert(exposure_left(p, portfolio, market.event_id) == exposure_left(
        q,
        portfolio,
        market.event_id,
    ));
    assert forall|cost: Option<Dec>| #[trigger]
        capped_kelly(p, sure, cost) == capped_kelly(q, sure, cost) by {};
    assert forall|left: Dec, fraction: Dec| #[trigger]
        sized_at(p, market, r.levels, left, fraction) == sized_at(
            q,
            market,
            r.levels,
            left,
            fraction,
        ) by {};
}

/// The maker's rebate is told and never classifies: another rebate changes
/// nothing but the maker's edge.
pub proof fn rebate_never_classifies(
    p: Policy,
    rebate: Dec,
    market: Market,
    book: Book,
    consensus: Consensus,
    portfolio: Portfolio,
    side: OutcomeSide,
    now: int,
)
    ensures
        ({
            let q = Policy { maker_rebate_coefficient: rebate, ..p };
            match (
                side_row(p, market, book, consensus, portfolio, side, now),
                side_row(q, market, book, consensus, portfolio, side, now),
            ) {
                (Some(with), Some(without)) => with == (Row {
                    maker_net_edge: with.maker_net_edge,
                    ..without
                }),
                _ => true,
            }
        }),
{
    let q = Policy { maker_rebate_coefficient: rebate, ..p };
    if let Some(a) = appraised(p, market, book, consensus, portfolio, side) {
        if let Some(b) = appraised(q, market, book, consensus, portfolio, side) {
            let r = reading(market, book, consensus, side)->0;
            let top_fee = fee(market.fee_coefficient, one(), r.top_yes_price)->0;
            assert(a.reading == r && b.reading == r && a.sure == b.sure && a.floor == b.floor);
            lemma_plan_ignores_rebate(p, rebate, market, portfolio, r, a.sure, top_fee);
            assert(a.plan == b.plan && a.edges == b.edges);
            assert(market_reasons(p, market, book, consensus, portfolio, side, r.top_price, now)
                == market_reasons(q, market, book, consensus, portfolio, side, r.top_price, now));
            assert(hard_reasons(p, market, book, consensus, portfolio, side, now, a)
                == hard_reasons(q, market, book, consensus, portfolio, side, now, b));
        }
    }
}

/// The second sizing pass never asks for more than the first, and no pass for
/// more than the cap on one position.
pub proof fn kelly_is_only_lowered(
    p: Policy,
    market: Market,
    portfolio: Portfolio,
    r: Reading,
    sure: Dec,
    top_fee: Dec,
)
    ensures
        planned(p, market, portfolio, r, sure, top_fee) matches Some(plan) ==> plan.kelly.le(
            capped_kelly(p, sure, sum(r.top_price, top_fee))->0,
        ) && plan.kelly.le(p.maximum_position_fraction),
{
}

/// Where the first sizing pass takes something, no plan asks for more than the
/// capped Kelly fraction at the depth-weighted cost of that pass.
pub proof fn kelly_counts_the_depth_weighted_cost(
    p: Policy,
    market: Market,
    portfolio: Portfolio,
    r: Reading,
    sure: Dec,
    top_fee: Dec,
)
    ensures
        planned(p, market, portfolio, r, sure, top_fee) matches Some(plan) ==> {
            let first = capped_kelly(p, sure, sum(r.top_price, top_fee))->0;
            let left = exposure_left(p, portfolio, market.event_id)->0;
            let s = sized_at(p, market, r.levels, left, first)->0;
            let cost = plus(Some(s.average_side_price), quotient(s.estimated_fee, s.quantity));
            zero().lt(s.quantity) ==> capped_kelly(p, sure, cost) is Some && plan.kelly.le(
                capped_kelly(p, sure, cost)->0,
            )
        },
{
}

/// A row never risks more than the exposure caps leave, nor more than its Kelly
/// fraction of the bankroll.
pub proof fn rows_stay_within_exposure(
    p: Policy,
    market: Market,
    book: Book,
    consensus: Consensus,
    portfolio: Portfolio,
    side: OutcomeSide,
    now: int,
)
    ensures
        side_row(p, market, book, consensus, portfolio, side, now) matches Some(row) ==> {
            let a = appraised(p, market, book, consensus, portfolio, side)->0;
            let left = exposure_left(p, portfolio, market.event_id)->0;
            let stake = product(p.bankroll, a.plan.kelly)->0;
            &&& row.maximum_loss.le(left)
            &&& row.maximum_loss.le(stake.max(zero()))
        },
{
    if let Some(a) = appraised(p, market, book, consensus, portfolio, side) {
        let left = exposure_left(p, portfolio, market.event_id)->0;
        let stake = product(p.bankroll, a.plan.kelly)->0;
        crate::risk::sizing_stays_within_budget(
            a.reading.levels,
            limits(
                stake.min(left),
                market.fee_coefficient,
                market.minimum_quantity,
                p.maximum_price,
            ),
        );
    }
}

} // verus!
