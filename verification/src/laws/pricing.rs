//! What a side costs, what it is worth, and what it takes to act on it.

use vstd::prelude::*;

use crate::config::Policy;
use crate::decimal::{
    difference, lemma_quotient_at_least, lemma_quotient_at_most, lemma_quotient_close,
    lemma_quotient_sign, lemma_value_sign, minus, one, plus, pow10, product, quotient, rounded,
    size, sum, times, unit, zero, Dec, MANTISSA_LIMIT, MAX_SCALE,
};
use crate::domain::{Book, Consensus, Level, Market, OutcomeSide, Portfolio, RecommendationClass, Row};
use crate::laws::numbers::{
    lemma_difference_at, lemma_near_difference, lemma_near_sum, lemma_product_at,
    lemma_rounded_close,
};
use crate::laws::settling::lemma_one;
use crate::opportunity::{
    appraised, capped_kelly, conservative, edges, exposure_left, long_rungs, maker_buy, maker_edge,
    maker_sell, planned, reading, short_rungs, side_row, sized_at, Reading,
};
use crate::risk::{event_losses, fee, holds_side, kelly, limits, sized, Sized};
use crate::seqs::group_seqs;
use crate::sizing::digit;

verus! {

broadcast use group_seqs;

/// Whether a number can be written and lies from zero to one.
pub open spec fn share(d: Dec) -> bool {
    d.wf() && 0 <= d.value() <= unit()
}

/// The conservative probability is the fair one less the dispersion and less
/// the bias, and nothing where that is negative: so it is never above the fair
/// one, and never rises with dispersion or bias.
pub proof fn caution_lowers_the_probability(fair: Dec, dispersion: Dec, bias: Dec)
    requires
        share(fair),
        share(dispersion),
        share(bias),
    ensures
        conservative(fair, dispersion, bias) matches Some(sure) && sure.wf() && sure.value() == if fair.value()
            - dispersion.value() - bias.value() > 0 {
            fair.value() - dispersion.value() - bias.value()
        } else {
            0
        },
{
    lemma_one();
    lemma_value_sign(zero());
    lemma_near_difference(fair, dispersion);
    let d = difference(fair, dispersion)->0;
    lemma_near_difference(d, bias);
}

/// More disagreement between the books never makes a side likelier.
pub proof fn disagreement_never_helps(fair: Dec, less: Dec, more: Dec, bias: Dec)
    requires
        share(fair),
        share(less),
        share(more),
        share(bias),
        less.value() <= more.value(),
    ensures
        conservative(fair, more, bias)->0.value() <= conservative(fair, less, bias)->0.value(),
        conservative(fair, more, bias)->0.value() <= fair.value(),
{
    caution_lowers_the_probability(fair, less, bias);
    caution_lowers_the_probability(fair, more, bias);
}

/// Buying a side: the long side buys YES at the offers as they stand, and the
/// short side sells YES to the bids, each at the rest of a dollar, with the
/// quantities and in the order of the book.
pub proof fn a_side_is_bought_from_the_book(offers: Seq<Level>, bids: Seq<Level>)
    requires
        forall|i: int| 0 <= i < bids.len() ==> share((#[trigger] bids[i]).yes_price),
    ensures
        long_rungs(offers).len() == offers.len(),
        forall|i: int|
            0 <= i < offers.len() ==> (#[trigger] long_rungs(offers)[i]).side_price
                == offers[i].yes_price && long_rungs(offers)[i].yes_price == offers[i].yes_price
                && long_rungs(offers)[i].quantity == offers[i].quantity,
        short_rungs(bids) matches Some(levels) && levels.len() == bids.len() && (forall|i: int|
            0 <= i < bids.len() ==> (#[trigger] levels[i]).side_price.value()
                + bids[i].yes_price.value() == unit() && levels[i].yes_price == bids[i].yes_price
                && levels[i].quantity == bids[i].quantity),
    decreases bids.len(),
{
    if bids.len() > 0 {
        let front = bids.drop_last();
        assert forall|i: int| 0 <= i < front.len() implies share(
            (#[trigger] front[i]).yes_price,
        ) by {
            assert(front[i] == bids[i]);
        }
        a_side_is_bought_from_the_book(offers, front);
        assert(share(bids[bids.len() - 1].yes_price));
        lemma_one();
        lemma_near_difference(one(), bids.last().yes_price);
        let levels = short_rungs(bids)->0;
        let done = short_rungs(front)->0;
        assert forall|i: int| 0 <= i < bids.len() implies (
        #[trigger] levels[i]).side_price.value() + bids[i].yes_price.value() == unit()
            && levels[i].yes_price == bids[i].yes_price && levels[i].quantity
            == bids[i].quantity by {
            if i < front.len() {
                assert(levels[i] == done[i]);
                assert(front[i] == bids[i]);
            }
        }
    }
}

/// What is read of the long side: its own name, the first probability, and the
/// best offer, or a dollar where there is none.
pub proof fn the_long_side_reads_the_offers(market: Market, book: Book, consensus: Consensus)
    ensures
        reading(market, book, consensus, OutcomeSide::Long) matches Some(r) ==> {
            &&& r.participant == market.long_participant.name
            &&& r.fair == consensus.probability_a
            &&& r.dispersion == consensus.dispersion_a
            &&& book.offers.len() > 0 ==> r.top_price == book.offers[0].yes_price
            &&& book.offers.len() == 0 ==> r.top_price.value() == unit()
            &&& r.top_yes_price == r.top_price
            &&& r.levels == long_rungs(book.offers)
            &&& maker_buy(book, market.tick_size) == Some(r.maker_price)
        },
{
    lemma_one();
}

/// What is read of the short side: its own name, the second probability, and
/// the rest of a dollar at the best bid, or a dollar where there is none.
pub proof fn the_short_side_reads_the_bids(market: Market, book: Book, consensus: Consensus)
    requires
        book.bids.len() > 0 ==> share(book.bids[0].yes_price),
    ensures
        reading(market, book, consensus, OutcomeSide::Short) matches Some(r) ==> {
            &&& r.participant == market.short_participant.name
            &&& r.fair == consensus.probability_b
            &&& r.dispersion == consensus.dispersion_a
            &&& book.bids.len() > 0 ==> r.top_yes_price == book.bids[0].yes_price
                && r.top_price.value() == unit() - book.bids[0].yes_price.value()
            &&& book.bids.len() == 0 ==> r.top_price.value() == unit() && r.top_yes_price.value()
                == 0
            &&& Some(r.levels) == short_rungs(book.bids)
            &&& maker_sell(book, market.tick_size) == Some(r.maker_price)
        },
{
    lemma_one();
    lemma_value_sign(zero());
    if book.bids.len() > 0 {
        lemma_near_difference(one(), book.bids[0].yes_price);
    } else {
        lemma_near_difference(one(), zero());
    }
}

/// A resting order stands one tick inside the spread, on its own side of the
/// book, and only where there is room for it.
pub proof fn resting_orders_stand_inside_the_spread(book: Book, tick: Dec)
    requires
        book.bids.len() > 0,
        book.offers.len() > 0,
        share(book.bids[0].yes_price),
        share(book.offers[0].yes_price),
        share(tick),
    ensures
        ({
            let (bid, offer) = (book.bids[0].yes_price.value(), book.offers[0].yes_price.value());
            &&& maker_buy(book, tick) is Some
            &&& maker_sell(book, tick) is Some
            &&& maker_buy(book, tick)->0 is Some <==> bid + tick.value() < offer
            &&& maker_buy(book, tick)->0 matches Some(price) ==> price.value() == bid
                + tick.value()
            &&& maker_sell(book, tick)->0 is Some <==> bid < offer - tick.value()
            &&& maker_sell(book, tick)->0 matches Some(price) ==> price.value() == unit() - (offer
                - tick.value())
        }),
{
    lemma_one();
    let (bid, offer) = (book.bids[0].yes_price, book.offers[0].yes_price);
    lemma_near_sum(bid, tick);
    lemma_near_difference(offer, tick);
    lemma_near_difference(one(), difference(offer, tick)->0);
}

/// The venue's fee is its coefficient times the quantity, the price and the rest
/// of a dollar, where all of it can be written at one scale.
pub proof fn fees_follow_quantity_and_both_prices(coefficient: Dec, quantity: Dec, price: Dec, scale: nat)
    requires
        share(coefficient),
        share(price),
        quantity.wf(),
        quantity.mantissa >= 0,
        scale <= MAX_SCALE,
        coefficient.scale + quantity.scale + 2 * price.scale <= scale,
        quantity.value() < MANTISSA_LIMIT * digit(scale),
    ensures
        fee(coefficient, quantity, price) matches Some(f) && f.value() * unit() * unit() * unit()
            == coefficient.value() * quantity.value() * price.value() * (unit() - price.value()),
{
    lemma_one();
    let u = unit();
    let (c, q, p) = (coefficient.value(), quantity.value(), price.value());
    let limit = MANTISSA_LIMIT * digit(scale);
    lemma_value_sign(quantity);
    assert(0 <= c * q <= u * q) by (nonlinear_arith)
        requires
            0 <= c <= u,
            0 <= q,
    ;
    assert(u * q < limit * u) by (nonlinear_arith)
        requires
            q < limit,
            u > 0,
    ;
    lemma_product_at(coefficient, quantity, scale);
    lemma_product_scale(coefficient, quantity, scale);
    let a = product(coefficient, quantity)->0;
    let x = a.value();
    assert(0 <= x <= q) by (nonlinear_arith)
        requires
            x * u == c * q,
            0 <= c * q <= u * q,
            u > 0,
    ;
    assert(0 <= x * p <= x * u) by (nonlinear_arith)
        requires
            0 <= p <= u,
            0 <= x,
    ;
    assert(x * u < limit * u) by (nonlinear_arith)
        requires
            x < limit,
            u > 0,
    ;
    lemma_product_at(a, price, scale);
    lemma_product_scale(a, price, scale);
    let b = product(a, price)->0;
    let y = b.value();
    assert(0 <= y <= x) by (nonlinear_arith)
        requires
            y * u == x * p,
            0 <= x * p <= x * u,
            u > 0,
    ;
    lemma_near_difference(one(), price);
    let rest = difference(one(), price)->0;
    let r = rest.value();
    assert(0 <= y * r <= y * u) by (nonlinear_arith)
        requires
            0 <= r <= u,
            0 <= y,
    ;
    assert(y * u < limit * u) by (nonlinear_arith)
        requires
            y < limit,
            u > 0,
    ;
    lemma_product_at(b, rest, scale);
    let f = product(b, rest)->0;
    let z = f.value();
    assert(z * u * u * u == c * q * p * r) by (nonlinear_arith)
        requires
            z * u == y * r,
            y * u == x * p,
            x * u == c * q,
    ;
}

/// A product is written at no finer scale than its factors' together.
proof fn lemma_product_scale(a: Dec, b: Dec, scale: nat)
    requires
        a.wf(),
        b.wf(),
        a.scale + b.scale <= scale <= MAX_SCALE,
        size(a.value() * b.value()) < MANTISSA_LIMIT * digit(scale) * unit(),
    ensures
        product(a, b)->0.scale <= a.scale + b.scale,
{
    // Of a product at `scale`, that at the factors' own scale is no larger.
    let s = a.scale + b.scale;
    crate::decimal::lemma_pow10_adds((scale - s) as nat, (MAX_SCALE - scale) as nat);
    crate::decimal::lemma_pow10_positive((scale - s) as nat);
    crate::decimal::lemma_pow10_positive((MAX_SCALE - scale) as nat);
    crate::decimal::lemma_pow10_positive(MAX_SCALE as nat);
    let (w, p, u) = (pow10((scale - s) as nat), digit(scale), unit());
    assert(MANTISSA_LIMIT * p * u <= MANTISSA_LIMIT * (w * p) * u) by (nonlinear_arith)
        requires
            w >= 1,
            p > 0,
            u > 0,
    ;
    lemma_product_at(a, b, s);
}

/// With an edge, the full Kelly fraction is the edge over what is left of a
/// dollar above the cost, to half of the last digit, and a share of it is that
/// share times it; without an edge there is none.
pub proof fn kelly_is_the_edge_over_the_odds(fair: Dec, cost: Dec, fraction: Dec)
    requires
        share(fair),
        share(cost),
    ensures
        fair.value() <= cost.value() ==> kelly(fair, cost, fraction) == Some(zero()),
        cost.value() < fair.value() ==> (kelly(fair, cost, one()) matches Some(full) ==> {
            &&& 0 <= full.value() <= unit()
            &&& 2 * size(
                full.value() * (unit() - cost.value()) - (fair.value() - cost.value()) * unit(),
            ) <= unit() - cost.value()
            &&& kelly(fair, cost, fraction) matches Some(f) ==> (product(full, fraction) matches Some(
                part,
            ) && f.value() == if part.value() < 0 {
                0
            } else if part.value() > unit() {
                unit()
            } else {
                part.value()
            })
        }),
{
    lemma_one();
    lemma_value_sign(zero());
    if cost.value() < fair.value() {
        lemma_near_difference(fair, cost);
        lemma_near_difference(one(), cost);
        let (edge, room) = (difference(fair, cost)->0, difference(one(), cost)->0);
        lemma_value_sign(edge);
        lemma_value_sign(room);
        lemma_quotient_close(edge, room);
        lemma_quotient_sign(edge, room);
        let (e, r, u) = (edge.value(), room.value(), unit());
        assert(e * u <= u * r) by (nonlinear_arith)
            requires
                e <= r,
                u > 0,
        ;
        lemma_quotient_at_most(edge, room, one());
        if let Some(q) = quotient(edge, room) {
            lemma_value_sign(q);
            vstd::arithmetic::power::lemma_pow0(10);
            assert(product(q, one()) matches Some(same) && same.value() == q.value()
                && (q.mantissa != 0 ==> same == q)) by {
                if q.mantissa != 0 {
                    assert(q.mantissa * 1 == q.mantissa);
                }
            }
            if q.mantissa == 0 {
                // Half of the last digit is more than any edge that rounds to nothing.
                lemma_value_sign(product(q, one())->0);
                assert(product(q, fraction) == Some(zero()));
                assert(product(zero(), fraction) == Some(zero()));
            }
        }
    }
}

/// The edges of a side: the raw one is the fair probability above the price, the
/// net one the conservative probability above price and fee, each to half of the
/// sixth digit; price and fee are those of the sized position, or of the top of
/// the book where nothing can be had.
pub proof fn edges_are_what_is_left_above_the_cost(r: Reading, s: Sized, sure: Dec, top_fee: Dec, each: Dec)
    requires
        share(r.fair),
        share(r.top_price),
        share(sure),
        share(top_fee),
        share(each),
        s.quantity.value() > 0 ==> share(s.average_side_price) && quotient(
            s.estimated_fee,
            s.quantity,
        ) == Some(each),
        s.quantity.value() <= 0 ==> each == top_fee,
    ensures
        edges(r, s, sure, top_fee) matches Some(e) && {
            &&& e.executable == if s.quantity.value() > 0 {
                s.average_side_price
            } else {
                r.top_price
            }
            &&& 2 * size(e.raw.value() - (r.fair.value() - e.executable.value()))
                <= 10_000_000_000_000_000_000_000
            &&& 2 * size(
                e.net.value() - (sure.value() - e.executable.value() - each.value()),
            ) <= 10_000_000_000_000_000_000_000
        },
{
    lemma_one();
    lemma_value_sign(zero());
    let executable = if s.quantity.value() > 0 {
        s.average_side_price
    } else {
        r.top_price
    };
    lemma_near_difference(r.fair, executable);
    lemma_near_difference(sure, executable);
    let after = difference(sure, executable)->0;
    lemma_near_difference(after, each);
    lemma_sixth_digit();
    lemma_rounded_close(difference(r.fair, executable)->0, 6);
    lemma_rounded_close(difference(after, each)->0, 6);
}

pub proof fn lemma_sixth_digit()
    ensures
        pow10(22) == 10_000_000_000_000_000_000_000,
{
    crate::decimal::lemma_pow10_values();
    crate::decimal::lemma_pow10_adds(22, 2);
    reveal_with_fuel(vstd::arithmetic::power::pow, 3);
    assert(pow10(2) == 100);
    let x = pow10(22);
    assert(x * 100 == 1_000_000_000_000_000_000_000_000);
}

/// A resting order is worth the conservative probability above its price, and
/// the rebate on top: the coefficient times the price and the rest of a dollar,
/// whichever side it is on.
pub proof fn resting_orders_earn_the_rebate(p: Policy, price: Dec, side: OutcomeSide, sure: Dec)
    requires
        share(price),
        share(sure),
        share(p.maker_rebate_coefficient),
        p.maker_rebate_coefficient.scale + 2 * price.scale <= MAX_SCALE,
    ensures
        maker_edge(p, None, side, sure) == Some(None::<Dec>),
        maker_edge(p, Some(price), side, sure) matches Some(Some(edge)) && 2 * size(
            (edge.value() - (sure.value() - price.value())) * unit() * unit()
                - p.maker_rebate_coefficient.value() * price.value() * (unit() - price.value()),
        ) <= 10_000_000_000_000_000_000_000 * unit() * unit(),
{
    lemma_one();
    let u = unit();
    let c = p.maker_rebate_coefficient;
    lemma_near_difference(one(), price);
    let other = difference(one(), price)->0;
    let yes = match side {
        OutcomeSide::Long => price,
        OutcomeSide::Short => other,
    };
    lemma_near_difference(one(), yes);
    let no = difference(one(), yes)->0;
    vstd::arithmetic::power::lemma_pow0(10);
    let limit = MANTISSA_LIMIT * digit(28);
    assert(digit(28) == 1);
    let (a, y, z) = (c.value(), yes.value(), no.value());
    assert(0 <= a * y <= u * u) by (nonlinear_arith)
        requires
            0 <= a <= u,
            0 <= y <= u,
    ;
    assert(u * u < limit * u) by (nonlinear_arith)
        requires
            u < limit,
            u > 0,
    ;
    lemma_product_at(c, yes, 28);
    lemma_product_scale(c, yes, 28);
    let first = product(c, yes)->0;
    let f = first.value();
    assert(0 <= f <= u) by (nonlinear_arith)
        requires
            f * u == a * y,
            0 <= a * y <= u * u,
            u > 0,
    ;
    assert(0 <= f * z <= u * u) by (nonlinear_arith)
        requires
            0 <= f <= u,
            0 <= z <= u,
    ;
    lemma_product_at(first, no, 28);
    let rebate = product(first, no)->0;
    let b = rebate.value();
    assert(0 <= b <= u) by (nonlinear_arith)
        requires
            b * u == f * z,
            0 <= f * z <= u * u,
            u > 0,
    ;
    lemma_near_difference(sure, price);
    let above = difference(sure, price)->0;
    lemma_near_sum(above, rebate);
    let whole = sum(above, rebate)->0;
    lemma_sixth_digit();
    lemma_rounded_close(whole, 6);
    let edge = rounded(whole, 6);
    let k = price.value();
    assert(b * u * u == a * k * (u - k)) by (nonlinear_arith)
        requires
            b * u == f * z,
            f * u == a * y,
            (y == k && z == u - k) || (y == u - k && z == k),
    ;
    let off = edge.value() - whole.value();
    let g = edge.value() - (sure.value() - k);
    assert(g * u * u - b * u * u == off * u * u) by (nonlinear_arith)
        requires
            off == g - b,
    ;
    let w = u * u;
    assert(off * u * u == off * w) by (nonlinear_arith)
        requires
            w == u * u,
    ;
    assert(w > 0) by (nonlinear_arith)
        requires
            u > 0,
            w == u * u,
    ;
    let h = 10_000_000_000_000_000_000_000int;
    assert(h * u * u == h * w) by (nonlinear_arith)
        requires
            w == u * u,
    ;
    assert(2 * (off * w) <= h * w && -(h * w) <= 2 * (off * w)) by (nonlinear_arith)
        requires
            -h <= 2 * off <= h,
            w > 0,
    ;
}

/// What the caps leave is the smaller of what is left in all and what is left
/// for the event, and nothing where either is used up.
pub proof fn exposure_is_limited_twice(p: Policy, portfolio: Portfolio, event_id: Seq<char>, held: Dec, scale: nat)
    requires
        scale <= MAX_SCALE,
        crate::decimal::total(event_losses(portfolio.open_positions, event_id)) == Some(held),
        p.maximum_total_exposure.scale <= scale,
        p.maximum_event_exposure.scale <= scale,
        portfolio.open_exposure.scale <= scale,
        held.scale <= scale,
        size(p.maximum_total_exposure.value()) + size(portfolio.open_exposure.value())
            < MANTISSA_LIMIT * digit(scale),
        size(p.maximum_event_exposure.value()) + size(held.value()) < MANTISSA_LIMIT * digit(scale),
    ensures
        exposure_left(p, portfolio, event_id) matches Some(left) && {
            let in_all = p.maximum_total_exposure.value() - portfolio.open_exposure.value();
            let in_event = p.maximum_event_exposure.value() - held.value();
            &&& left.value() >= 0
            &&& left.value() > 0 ==> left.value() <= in_all && left.value() <= in_event && (
            left.value() == in_all || left.value() == in_event)
            &&& left.value() == 0 <==> in_all <= 0 || in_event <= 0
        },
{
    lemma_value_sign(zero());
    lemma_difference_at(p.maximum_total_exposure, portfolio.open_exposure, scale);
    lemma_difference_at(p.maximum_event_exposure, held, scale);
}

/// A plan sizes the side's own levels, under the market's fee and increment and
/// up to the highest price, for the smaller of its share of the bankroll and
/// what the caps leave.
pub proof fn plans_stake_a_share_of_the_bankroll(
    p: Policy,
    market: Market,
    portfolio: Portfolio,
    r: Reading,
    sure: Dec,
    top_fee: Dec,
)
    ensures
        planned(p, market, portfolio, r, sure, top_fee) matches Some(plan) ==> {
            &&& product(p.bankroll, plan.kelly) matches Some(stake) && (exposure_left(
                p,
                portfolio,
                market.event_id,
            ) matches Some(left) && Some(plan.sized) == sized(
                r.levels,
                limits(
                    if left.value() < stake.value() {
                        left
                    } else {
                        stake
                    },
                    market.fee_coefficient,
                    market.minimum_quantity,
                    p.maximum_price,
                ),
            ))
            &&& sum(r.top_price, top_fee) matches Some(cost) && (kelly(
                sure,
                cost,
                p.kelly_fraction,
            ) matches Some(k) && plan.kelly.value() <= k.value())
            &&& plan.kelly.value() <= p.maximum_position_fraction.value()
        },
{
}

/// Whether everything but the numbers of families and the reference speaks for
/// a side, in terms of the market, the book and the numbers found.
pub open spec fn clears_the_gates(
    p: Policy,
    market: Market,
    book: Book,
    consensus: Consensus,
    portfolio: Portfolio,
    side: OutcomeSide,
    now: int,
) -> bool {
    let a = appraised(p, market, book, consensus, portfolio, side)->0;
    &&& book.state == "MARKET_STATE_OPEN"@
    &&& market.ep3_status == "OPEN"@
    &&& -1_000_000_000 < now - book.fetched_at < (p.book_max_age + 1) * 1_000_000_000
    &&& book.transact_time - now <= 60_000_000_000
    &&& p.minimum_lead * 1_000_000_000 <= market.start_time - now
    &&& p.minimum_price.value() <= a.reading.top_price.value() <= p.maximum_price.value()
    &&& p.minimum_price.value() <= a.edges.executable.value() <= p.maximum_price.value()
    &&& consensus.family_count >= p.watchlist_source_families
    &&& !(exists|i: int|
        0 <= i < portfolio.open_positions.len() && (
        #[trigger] portfolio.open_positions[i]).market_id == market.market_id
            && portfolio.open_positions[i].side == side)
    &&& a.plan.kelly.value() >= p.minimum_position_fraction.value()
    &&& a.plan.sized.quantity.value() >= market.minimum_quantity.value()
    &&& a.plan.sized.maximum_loss.value() >= a.floor.value()
    &&& a.edges.raw.value() >= p.minimum_raw_edge.value()
    &&& a.edges.net.value() >= p.minimum_net_edge.value()
}

/// A side is rejected exactly where it fails a gate, actionable exactly where it
/// fails none and has the full number of families with a reference book where
/// one is asked for, and watched otherwise; a rejected side says why.
pub proof fn classes_follow_the_gates(
    p: Policy,
    market: Market,
    book: Book,
    consensus: Consensus,
    portfolio: Portfolio,
    side: OutcomeSide,
    now: int,
)
    requires
        0 <= p.book_max_age <= i64::MAX,
        0 < p.minimum_lead <= i64::MAX,
    ensures
        side_row(p, market, book, consensus, portfolio, side, now) matches Some(row) ==> {
            let clear = clears_the_gates(p, market, book, consensus, portfolio, side, now);
            let full = consensus.family_count >= p.minimum_source_families && (
            consensus.has_reference || !p.require_reference_book);
            &&& row.class is Rejected <==> !clear
            &&& row.class is Actionable <==> clear && full
            &&& row.class is Watchlist <==> clear && !full
            &&& row.reasons.len() == 0 <==> row.class is Actionable
        },
{
    let age = now - book.fetched_at;
    let lead = market.start_time - now;
    assert(crate::time::trunc_div(age, 1_000_000_000) < 0 <==> age <= -1_000_000_000);
    assert(crate::time::trunc_div(age, 1_000_000_000) > p.book_max_age <==> age >= (p.book_max_age
        + 1) * 1_000_000_000);
    assert(crate::time::trunc_div(lead, 1_000_000_000) < p.minimum_lead <==> lead < p.minimum_lead
        * 1_000_000_000);
}

/// A row repeats its market and side, and the numbers found for them: the fair
/// and conservative probability and the price to half of the sixth digit, and
/// size, loss, fee and edges as they are.
pub proof fn rows_repeat_what_was_found(
    p: Policy,
    market: Market,
    book: Book,
    consensus: Consensus,
    portfolio: Portfolio,
    side: OutcomeSide,
    now: int,
)
    ensures
        side_row(p, market, book, consensus, portfolio, side, now) matches Some(row) ==> (appraised(
            p,
            market,
            book,
            consensus,
            portfolio,
            side,
        ) matches Some(a) && {
            &&& row.generated_at == now
            &&& row.side == side
            &&& row.sport == market.sport
            &&& row.event_id == market.event_id
            &&& row.market_id == market.market_id
            &&& row.market_slug == market.market_slug
            &&& row.start_time == market.start_time
            &&& row.book_time == book.transact_time
            &&& row.family_count == consensus.family_count
            &&& row.source_ids == consensus.source_ids
            &&& row.participant == a.reading.participant
            &&& row.maker_price == a.reading.maker_price
            &&& row.maker_net_edge == a.maker_net_edge
            &&& row.quantity == a.plan.sized.quantity
            &&& row.maximum_loss == a.plan.sized.maximum_loss
            &&& row.estimated_fee == a.plan.sized.estimated_fee
            &&& row.raw_edge == a.edges.raw
            &&& row.net_edge == a.edges.net
            &&& row.fair_probability == rounded(a.reading.fair, 6)
            &&& row.conservative_probability == rounded(a.sure, 6)
            &&& row.executable_price == rounded(a.edges.executable, 6)
        }),
{
}

/// The numbers found for a side are those of its own reading: the conservative
/// probability under the settings' bias, the plan at the top of its book, the
/// edges of that plan, the rebate of its resting price, and the least stake.
pub proof fn numbers_belong_to_their_side(
    p: Policy,
    market: Market,
    book: Book,
    consensus: Consensus,
    portfolio: Portfolio,
    side: OutcomeSide,
)
    ensures
        appraised(p, market, book, consensus, portfolio, side) matches Some(a) ==> {
            &&& reading(market, book, consensus, side) == Some(a.reading)
            &&& conservative(a.reading.fair, a.reading.dispersion, p.consensus_bias) == Some(a.sure)
            &&& fee(market.fee_coefficient, one(), a.reading.top_yes_price) matches Some(top_fee)
                && planned(p, market, portfolio, a.reading, a.sure, top_fee) == Some(a.plan)
                && edges(a.reading, a.plan.sized, a.sure, top_fee) == Some(a.edges)
            &&& maker_edge(p, a.reading.maker_price, side, a.sure) == Some(a.maker_net_edge)
            &&& product(p.bankroll, p.minimum_position_fraction) == Some(a.floor)
        },
{
}

} // verus!
