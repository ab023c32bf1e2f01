//! Fees, Kelly fractions and position sizing over the levels of a book.

use vstd::prelude::*;

use crate::decimal::{
    dec_of, difference, floored, lemma_value_sign, minus, one, over, plus, product, quotient,
    rounded, sum, times, total, zero, Dec, Decimal,
};
use crate::domain::{
    paper_position_views, OutcomeSide, PaperPortfolio, PaperPosition, Portfolio, Position,
};
use crate::seqs::{group_seqs, take_next};
use crate::text::same;

verus! {

broadcast use group_seqs;

/// One price at which a side can be taken, with the YES price it trades at.
#[derive(Debug, Clone, Copy)]
pub struct ExecutionLevel {
    pub side_price: Decimal,
    pub yes_price: Decimal,
    pub quantity: Decimal,
}

/// A level as mathematics.
pub struct Rung {
    pub side_price: Dec,
    pub yes_price: Dec,
    pub quantity: Dec,
}

impl View for ExecutionLevel {
    type V = Rung;

    open spec fn view(&self) -> Rung {
        Rung {
            side_price: self.side_price@,
            yes_price: self.yes_price@,
            quantity: self.quantity@,
        }
    }
}

pub open spec fn rungs(levels: Seq<ExecutionLevel>) -> Seq<Rung> {
    levels.map_values(|level: ExecutionLevel| level@)
}

/// What a sizing pass ends with.
#[derive(Debug, Clone, Copy)]
pub struct SizedPosition {
    pub quantity: Decimal,
    pub average_side_price: Decimal,
    pub maximum_loss: Decimal,
    pub estimated_fee: Decimal,
}

/// A sized position as mathematics.
pub struct Sized {
    pub quantity: Dec,
    pub average_side_price: Dec,
    pub maximum_loss: Dec,
    pub estimated_fee: Dec,
}

impl View for SizedPosition {
    type V = Sized;

    open spec fn view(&self) -> Sized {
        Sized {
            quantity: self.quantity@,
            average_side_price: self.average_side_price@,
            maximum_loss: self.maximum_loss@,
            estimated_fee: self.estimated_fee@,
        }
    }
}

/// The sized position inside an optional one.
pub open spec fn sized_of(s: Option<SizedPosition>) -> Option<Sized> {
    match s {
        Some(s) => Some(s@),
        None => None,
    }
}

/// No position.
pub open spec fn nothing() -> Sized {
    Sized {
        quantity: zero(),
        average_side_price: zero(),
        maximum_loss: zero(),
        estimated_fee: zero(),
    }
}

impl SizedPosition {
    pub fn empty() -> (result: SizedPosition)
        ensures
            result@ == nothing(),
    {
        SizedPosition {
            quantity: Decimal::zero(),
            average_side_price: Decimal::zero(),
            maximum_loss: Decimal::zero(),
            estimated_fee: Decimal::zero(),
        }
    }
}

/// `coefficient * quantity * price * (1 - price)`.
pub open spec fn fee(coefficient: Dec, quantity: Dec, yes_price: Dec) -> Option<Dec> {
    times(
        times(product(coefficient, quantity), Some(yes_price)),
        difference(one(), yes_price),
    )
}

/// A missing number stays missing, any other is rounded.
pub open spec fn rounded_to(d: Option<Dec>, places: nat) -> Option<Dec> {
    match d {
        Some(d) => Some(rounded(d, places)),
        None => None,
    }
}

/// The venue's fee before rounding; `None` on overflow.
pub fn exact_fee(coefficient: Decimal, quantity: Decimal, yes_trade_price: Decimal) -> (result:
    Option<Decimal>)
    ensures
        dec_of(result) == fee(coefficient@, quantity@, yes_trade_price@),
{
    let a = coefficient.checked_mul(quantity)?;
    let b = a.checked_mul(yes_trade_price)?;
    let rest = Decimal::one().checked_sub(yes_trade_price)?;
    b.checked_mul(rest)
}

/// The venue's fee for one fill: banker's rounding to cents.
pub fn rounded_fee(coefficient: Decimal, quantity: Decimal, yes_trade_price: Decimal) -> (result:
    Option<Decimal>)
    ensures
        dec_of(result) == rounded_to(fee(coefficient@, quantity@, yes_trade_price@), 2),
{
    let exact = exact_fee(coefficient, quantity, yes_trade_price)?;
    Some(exact.round_dp(2))
}

/// `(fair - cost) / (1 - cost) * fraction`, between zero and one; zero without
/// an edge.
pub open spec fn kelly(fair: Dec, cost: Dec, fraction: Dec) -> Option<Dec> {
    if fair.le(cost) || one().le(cost) {
        Some(zero())
    } else {
        match times(
            over(difference(fair, cost), difference(one(), cost)),
            Some(fraction),
        ) {
            Some(f) => Some(f.clamp(zero(), one())),
            None => None,
        }
    }
}

/// The fraction of the bankroll that Kelly allows, times `fraction`.
pub fn quarter_kelly_fraction(
    fair_probability: Decimal,
    effective_cost: Decimal,
    fraction: Decimal,
) -> (result: Option<Decimal>)
    ensures
        dec_of(result) == kelly(fair_probability@, effective_cost@, fraction@),
{
    let nil = Decimal::zero();
    let unit = Decimal::one();
    if fair_probability.at_most(effective_cost) || unit.at_most(effective_cost) {
        return Some(nil);
    }
    let edge = fair_probability.checked_sub(effective_cost)?;
    let room = unit.checked_sub(effective_cost)?;
    let ratio = edge.checked_div(room)?;
    let scaled = ratio.checked_mul(fraction)?;
    proof {
        lemma_value_sign(one());
        lemma_value_sign(zero());
    }
    Some(scaled.clamp(nil, unit))
}

/// A Kelly fraction is never below zero or above one.
pub proof fn kelly_is_a_fraction(fair: Dec, cost: Dec, fraction: Dec)
    ensures
        kelly(fair, cost, fraction) matches Some(f) ==> zero().le(f) && f.le(one()),
{
    lemma_value_sign(one());
    lemma_value_sign(zero());
}

/// Without an edge over the cost there is no position.
pub proof fn no_edge_no_position(fair: Dec, cost: Dec, fraction: Dec)
    requires
        fair.le(cost),
    ensures
        kelly(fair, cost, fraction) == Some(zero()),
{
}

/// The largest multiple of `increment` that the division reaches; zero for an
/// increment that is not positive.
pub open spec fn floor_to(value: Dec, increment: Dec) -> Option<Dec> {
    if increment.le(zero()) {
        Some(zero())
    } else {
        match quotient(value, increment) {
            Some(q) => product(floored(q), increment),
            None => None,
        }
    }
}

pub fn floor_to_increment(value: Decimal, increment: Decimal) -> (result: Option<Decimal>)
    ensures
        dec_of(result) == floor_to(value@, increment@),
{
    if increment.at_most(Decimal::zero()) {
        return Some(Decimal::zero());
    }
    let ratio = value.checked_div(increment)?;
    ratio.floor().checked_mul(increment)
}

/// What a sizing pass works under.
pub struct Limits {
    pub budget: Dec,
    pub coefficient: Dec,
    pub step: Dec,
    pub ceiling: Dec,
}

/// What a sizing pass has taken so far. `rounded_fees` adds up the fees of the
/// fills, each rounded to cents; `exact_fees` adds them up unrounded; `fee` is
/// what the order pays, the first capped at the rounding of the second.
pub struct Fill {
    pub quantity: Dec,
    pub gross: Dec,
    pub rounded_fees: Dec,
    pub exact_fees: Dec,
    pub fee: Dec,
}

pub open spec fn unfilled() -> Fill {
    Fill {
        quantity: zero(),
        gross: zero(),
        rounded_fees: zero(),
        exact_fees: zero(),
        fee: zero(),
    }
}

/// A level that may be taken at or below a price.
pub open spec fn offers_at(rung: Rung, ceiling: Dec) -> bool {
    &&& zero().lt(rung.side_price)
    &&& rung.side_price.le(ceiling)
    &&& zero().lt(rung.yes_price)
    &&& rung.yes_price.lt(one())
    &&& zero().lt(rung.quantity)
}

/// A level that may be taken at all.
pub open spec fn eligible(rung: Rung, limits: Limits) -> bool {
    offers_at(rung, limits.ceiling)
}

/// The fill after taking `take` at a level.
pub open spec fn taken(fill: Fill, rung: Rung, take: Dec, limits: Limits) -> Option<Fill> {
    let exact = fee(limits.coefficient, take, rung.yes_price);
    match (
        sum(fill.quantity, take),
        plus(Some(fill.gross), product(take, rung.side_price)),
        plus(Some(fill.rounded_fees), rounded_to(exact, 2)),
        plus(Some(fill.exact_fees), exact),
    ) {
        (Some(quantity), Some(gross), Some(rounded_fees), Some(exact_fees)) => Some(
            Fill {
                quantity,
                gross,
                rounded_fees,
                exact_fees,
                fee: rounded_fees.min(rounded(exact_fees, 2)),
            },
        ),
        _ => None,
    }
}

/// What a fill can lose: everything it cost.
pub open spec fn loss(fill: Fill) -> Option<Dec> {
    sum(fill.gross, fill.fee)
}

pub open spec fn at_least_zero(n: int) -> nat {
    if n < 0 {
        0
    } else {
        n as nat
    }
}

/// The fill after taking as much of a level as the budget bears: `take`, or
/// the first of `take - step`, `take - 2 * step`, ... that fits. Nothing on
/// overflow, or when a step is too small to make a difference.
pub open spec fn largest_take(fill: Fill, rung: Rung, take: Dec, limits: Limits) -> Option<Fill>
    decreases at_least_zero(take.value()),
{
    if take.le(zero()) {
        Some(fill)
    } else {
        match taken(fill, rung, take, limits) {
            Some(next) => match loss(next) {
                Some(l) => if l.le(limits.budget) {
                    Some(next)
                } else {
                    match difference(take, limits.step) {
                        Some(smaller) => if smaller.lt(take) {
                            proof {
                                lemma_value_sign(take);
                            }
                            largest_take(fill, rung, smaller, limits)
                        } else {
                            None
                        },
                        None => None,
                    }
                },
                None => None,
            },
            None => None,
        }
    }
}

/// The fill after one level: unchanged where the level may not be taken or
/// nothing is left to spend.
pub open spec fn level_filled(fill: Fill, rung: Rung, limits: Limits) -> Option<Fill> {
    if !eligible(rung, limits) {
        Some(fill)
    } else {
        match (
            floor_to(rung.quantity, limits.step),
            plus(Some(rung.side_price), fee(limits.coefficient, one(), rung.yes_price)),
            minus(difference(limits.budget, fill.gross), Some(fill.fee)),
        ) {
            (Some(available), Some(unit), Some(left)) => if available.le(zero()) || unit.le(zero())
                || left.le(zero()) {
                Some(fill)
            } else {
                match quotient(left, unit) {
                    Some(affordable) => match floor_to(available.min(affordable), limits.step) {
                        Some(take) => largest_take(fill, rung, take, limits),
                        None => None,
                    },
                    None => None,
                }
            },
            _ => None,
        }
    }
}

/// The fill after walking the levels from the front.
pub open spec fn filled(levels: Seq<Rung>, limits: Limits) -> Option<Fill>
    decreases levels.len(),
{
    if levels.len() == 0 {
        Some(unfilled())
    } else {
        match filled(levels.drop_last(), limits) {
            Some(fill) => level_filled(fill, levels.last(), limits),
            None => None,
        }
    }
}

/// The position that the levels give within the limits: no position for a
/// budget, step or ceiling that is not positive.
pub open spec fn sized(levels: Seq<Rung>, limits: Limits) -> Option<Sized> {
    if limits.budget.le(zero()) || limits.step.le(zero()) || limits.ceiling.le(zero()) {
        Some(nothing())
    } else {
        match filled(levels, limits) {
            Some(fill) => if fill.quantity.le(zero()) {
                Some(nothing())
            } else {
                match (quotient(fill.gross, fill.quantity), loss(fill)) {
                    (Some(average), Some(most)) => Some(
                        Sized {
                            quantity: fill.quantity,
                            average_side_price: average,
                            maximum_loss: most,
                            estimated_fee: fill.fee,
                        },
                    ),
                    _ => None,
                }
            },
            None => None,
        }
    }
}

/// A fill that is empty or costs no more than the budget.
pub open spec fn within_budget(fill: Fill, limits: Limits) -> bool {
    fill == unfilled() || (loss(fill) matches Some(l) && l.le(limits.budget))
}

proof fn lemma_take_within_budget(fill: Fill, rung: Rung, take: Dec, limits: Limits)
    requires
        within_budget(fill, limits),
    ensures
        largest_take(fill, rung, take, limits) matches Some(next) ==> within_budget(next, limits),
    decreases at_least_zero(take.value()),
{
    if !take.le(zero()) {
        if let Some(next) = taken(fill, rung, take, limits) {
            if let Some(l) = loss(next) {
                if !l.le(limits.budget) {
                    if let Some(smaller) = difference(take, limits.step) {
                        if smaller.lt(take) {
                            lemma_value_sign(take);
                            lemma_take_within_budget(fill, rung, smaller, limits);
                        }
                    }
                }
            }
        }
    }
}

proof fn lemma_filled_within_budget(levels: Seq<Rung>, limits: Limits)
    ensures
        filled(levels, limits) matches Some(fill) ==> within_budget(fill, limits),
    decreases levels.len(),
{
    if levels.len() > 0 {
        lemma_filled_within_budget(levels.drop_last(), limits);
        if let Some(fill) = filled(levels.drop_last(), limits) {
            let rung = levels.last();
            if eligible(rung, limits) {
                if let Some(available) = floor_to(rung.quantity, limits.step) {
                    if let Some(left) = minus(
                        difference(limits.budget, fill.gross),
                        Some(fill.fee),
                    ) {
                        if let Some(unit) = plus(
                            Some(rung.side_price),
                            fee(limits.coefficient, one(), rung.yes_price),
                        ) {
                            if let Some(affordable) = quotient(left, unit) {
                                if let Some(take) = floor_to(
                                    available.min(affordable),
                                    limits.step,
                                ) {
                                    lemma_take_within_budget(fill, rung, take, limits);
                                }
                            }
                        }
                    }
                }
            }
        }
    }
}

/// Sizing never exceeds the risk budget: what a position can lose, fees
/// included, is at most the budget, and nothing for a budget that is not
/// positive.
pub proof fn sizing_stays_within_budget(levels: Seq<Rung>, limits: Limits)
    ensures
        sized(levels, limits) matches Some(s) ==> s.maximum_loss.le(limits.budget.max(zero())),
{
    lemma_filled_within_budget(levels, limits);
    lemma_value_sign(limits.budget);
    lemma_value_sign(zero());
}

/// The fee of a fill is at most the rounding of its unrounded fees, and at most
/// the fees of its parts.
pub open spec fn fee_is_capped(fill: Fill) -> bool {
    fill.fee.le(rounded(fill.exact_fees, 2)) && fill.fee.le(fill.rounded_fees)
}

proof fn lemma_take_caps_fee(fill: Fill, rung: Rung, take: Dec, limits: Limits)
    requires
        fee_is_capped(fill),
    ensures
        largest_take(fill, rung, take, limits) matches Some(next) ==> fee_is_capped(next),
    decreases at_least_zero(take.value()),
{
    if !take.le(zero()) {
        if let Some(next) = taken(fill, rung, take, limits) {
            if let Some(l) = loss(next) {
                if !l.le(limits.budget) {
                    if let Some(smaller) = difference(take, limits.step) {
                        if smaller.lt(take) {
                            lemma_value_sign(take);
                            lemma_take_caps_fee(fill, rung, smaller, limits);
                        }
                    }
                }
            }
        }
    }
}

/// The order total is capped: whatever levels are walked, the fee is at most
/// the rounding of the cumulative exact fee.
pub proof fn order_fee_is_capped(levels: Seq<Rung>, limits: Limits)
    ensures
        filled(levels, limits) matches Some(fill) ==> fee_is_capped(fill),
    decreases levels.len(),
{
    if levels.len() == 0 {
        lemma_value_sign(zero());
    } else {
        order_fee_is_capped(levels.drop_last(), limits);
        if let Some(fill) = filled(levels.drop_last(), limits) {
            let rung = levels.last();
            if eligible(rung, limits) {
                if let Some(available) = floor_to(rung.quantity, limits.step) {
                    if let Some(left) = minus(
                        difference(limits.budget, fill.gross),
                        Some(fill.fee),
                    ) {
                        if let Some(unit) = plus(
                            Some(rung.side_price),
                            fee(limits.coefficient, one(), rung.yes_price),
                        ) {
                            if let Some(affordable) = quotient(left, unit) {
                                if let Some(take) = floor_to(
                                    available.min(affordable),
                                    limits.step,
                                ) {
                                    lemma_take_caps_fee(fill, rung, take, limits);
                                }
                            }
                        }
                    }
                }
            }
        }
    }
}

/// Sizing does not cross the price ceiling: a level that may not be taken
/// changes nothing, wherever it stands behind the others.
pub proof fn ineligible_level_changes_nothing(levels: Seq<Rung>, rung: Rung, limits: Limits)
    requires
        !eligible(rung, limits),
    ensures
        sized(levels.push(rung), limits) == sized(levels, limits),
{
    assert(levels.push(rung).drop_last() =~= levels);
    assert(levels.push(rung).last() == rung);
}

/// The running state of a sizing pass.
#[derive(Clone, Copy)]
struct Taking {
    quantity: Decimal,
    gross: Decimal,
    rounded_fees: Decimal,
    exact_fees: Decimal,
    fee: Decimal,
}

impl View for Taking {
    type V = Fill;

    closed spec fn view(&self) -> Fill {
        Fill {
            quantity: self.quantity@,
            gross: self.gross@,
            rounded_fees: self.rounded_fees@,
            exact_fees: self.exact_fees@,
            fee: self.fee@,
        }
    }
}

spec fn taking_of(t: Option<Taking>) -> Option<Fill> {
    match t {
        Some(t) => Some(t@),
        None => None,
    }
}

/// Takes `take` of a level.
fn take_from(state: Taking, level: ExecutionLevel, take: Decimal, coefficient: Decimal) -> (result:
    Option<Taking>)
    ensures
        forall|limits: Limits|
            limits.coefficient == coefficient@ ==> taking_of(result) == #[trigger] taken(
                state@,
                level@,
                take@,
                limits,
            ),
{
    let exact = exact_fee(coefficient, take, level.yes_price)?;
    let quantity = state.quantity.checked_add(take)?;
    let cost = take.checked_mul(level.side_price)?;
    let gross = state.gross.checked_add(cost)?;
    let rounded_fees = state.rounded_fees.checked_add(exact.round_dp(2))?;
    let exact_fees = state.exact_fees.checked_add(exact)?;
    let fee = rounded_fees.min(exact_fees.round_dp(2));
    Some(Taking { quantity, gross, rounded_fees, exact_fees, fee })
}

/// Takes as much of a level as the budget bears, from `take` down.
fn take_down(
    state: Taking,
    level: ExecutionLevel,
    first_take: Decimal,
    risk_budget: Decimal,
    fee_coefficient: Decimal,
    minimum_quantity: Decimal,
    Ghost(limits): Ghost<Limits>,
) -> (result: Option<Taking>)
    requires
        limits.budget == risk_budget@,
        limits.coefficient == fee_coefficient@,
        limits.step == minimum_quantity@,
    ensures
        taking_of(result) == largest_take(state@, level@, first_take@, limits),
{
    let mut take = first_take;
    loop
        invariant
            limits.budget == risk_budget@,
            limits.coefficient == fee_coefficient@,
            limits.step == minimum_quantity@,
            largest_take(state@, level@, first_take@, limits) == largest_take(
                state@,
                level@,
                take@,
                limits,
            ),
        decreases at_least_zero(take@.value()),
    {
        if take.at_most(Decimal::zero()) {
            return Some(state);
        }
        let next = take_from(state, level, take, fee_coefficient)?;
        assert(Some(next@) == taken(state@, level@, take@, limits));
        let most = next.gross.checked_add(next.fee)?;
        if most.at_most(risk_budget) {
            return Some(next);
        }
        let smaller = take.checked_sub(minimum_quantity)?;
        if !smaller.less(take) {
            return None;
        }
        proof {
            lemma_value_sign(take@);
        }
        take = smaller;
    }
}

/// Whether a level may be taken at or below a price.
fn takeable(level: ExecutionLevel, ceiling: Decimal) -> (result: bool)
    ensures
        result == offers_at(level@, ceiling@),
{
    let nil = Decimal::zero();
    nil.less(level.side_price) && level.side_price.at_most(ceiling) && nil.less(level.yes_price)
        && level.yes_price.less(Decimal::one()) && nil.less(level.quantity)
}

/// Takes what one level gives.
fn fill_level(
    state: Taking,
    level: ExecutionLevel,
    risk_budget: Decimal,
    fee_coefficient: Decimal,
    minimum_quantity: Decimal,
    maximum_side_price: Decimal,
    Ghost(limits): Ghost<Limits>,
) -> (result: Option<Taking>)
    requires
        limits.budget == risk_budget@,
        limits.coefficient == fee_coefficient@,
        limits.step == minimum_quantity@,
        limits.ceiling == maximum_side_price@,
    ensures
        taking_of(result) == level_filled(state@, level@, limits),
{
    let nil = Decimal::zero();
    let unit = Decimal::one();
    if !takeable(level, maximum_side_price) {
        return Some(state);
    }
    let available = floor_to_increment(level.quantity, minimum_quantity)?;
    let unit_fee = exact_fee(fee_coefficient, unit, level.yes_price)?;
    let unit_cost = level.side_price.checked_add(unit_fee)?;
    let after_cost = risk_budget.checked_sub(state.gross)?;
    let remaining_budget = after_cost.checked_sub(state.fee)?;
    if available.at_most(nil) || unit_cost.at_most(nil) || remaining_budget.at_most(nil) {
        return Some(state);
    }
    let affordable = remaining_budget.checked_div(unit_cost)?;
    let take = floor_to_increment(available.min(affordable), minimum_quantity)?;
    take_down(
        state,
        level,
        take,
        risk_budget,
        fee_coefficient,
        minimum_quantity,
        Ghost(limits),
    )
}

/// What a sizing pass works under.
pub open spec fn limits(budget: Dec, coefficient: Dec, step: Dec, ceiling: Dec) -> Limits {
    Limits { budget, coefficient, step, ceiling }
}

/// A missing fill stays missing however many levels follow.
proof fn lemma_fill_stays_missing(levels: Seq<Rung>, at: int, limits: Limits)
    requires
        0 <= at <= levels.len(),
        filled(levels.take(at), limits) is None,
    ensures
        filled(levels, limits) is None,
    decreases levels.len() - at,
{
    if at < levels.len() {
        take_next(levels, at);
        lemma_fill_stays_missing(levels, at + 1, limits);
    }
}

/// Walks the levels from the front and takes what the budget bears, fees
/// included. `None` where a number overflows or a step makes no difference.
pub fn size_position_from_levels(
    risk_budget: Decimal,
    fee_coefficient: Decimal,
    minimum_quantity: Decimal,
    maximum_side_price: Decimal,
    levels: &Vec<ExecutionLevel>,
) -> (result: Option<SizedPosition>)
    ensures
        sized_of(result) == sized(
            rungs(levels@),
            limits(risk_budget@, fee_coefficient@, minimum_quantity@, maximum_side_price@),
        ),
{
    let nil = Decimal::zero();
    let ghost bounds = limits(
        risk_budget@,
        fee_coefficient@,
        minimum_quantity@,
        maximum_side_price@,
    );
    if risk_budget.at_most(nil) || minimum_quantity.at_most(nil) || maximum_side_price.at_most(
        nil,
    ) {
        return Some(SizedPosition::empty());
    }
    let mut state = Taking {
        quantity: nil,
        gross: nil,
        rounded_fees: nil,
        exact_fees: nil,
        fee: nil,
    };
    let mut i: usize = 0;
    while i < levels.len()
        invariant
            i <= levels@.len(),
            !bounds.budget.le(zero()) && !bounds.step.le(zero()) && !bounds.ceiling.le(zero()),
            bounds == limits(
                risk_budget@,
                fee_coefficient@,
                minimum_quantity@,
                maximum_side_price@,
            ),
            Some(state@) == filled(rungs(levels@.take(i as int)), bounds),
        decreases levels@.len() - i,
    {
        let ghost more = rungs(levels@.take(i + 1));
        proof {
            take_next(levels@, i as int);
            assert(more.drop_last() =~= rungs(levels@.take(i as int)));
        }
        match fill_level(
            state,
            levels[i],
            risk_budget,
            fee_coefficient,
            minimum_quantity,
            maximum_side_price,
            Ghost(bounds),
        ) {
            Some(next) => {
                state = next;
            },
            None => {
                proof {
                    assert(rungs(levels@).take(i + 1) =~= more);
                    lemma_fill_stays_missing(rungs(levels@), i + 1, bounds);
                }
                return None;
            },
        }
        i = i + 1;
    }
    if state.quantity.at_most(nil) {
        return Some(SizedPosition::empty());
    }
    let average_side_price = state.gross.checked_div(state.quantity)?;
    let maximum_loss = state.gross.checked_add(state.fee)?;
    Some(
        SizedPosition {
            quantity: state.quantity,
            average_side_price,
            maximum_loss,
            estimated_fee: state.fee,
        },
    )
}

/// The quantities that may be taken at or below a price, added up; nothing on
/// overflow.
pub open spec fn depth(levels: Seq<Rung>, ceiling: Dec) -> Option<Dec>
    decreases levels.len(),
{
    if levels.len() == 0 {
        Some(zero())
    } else if offers_at(levels.last(), ceiling) {
        plus(depth(levels.drop_last(), ceiling), Some(levels.last().quantity))
    } else {
        depth(levels.drop_last(), ceiling)
    }
}

/// What the levels offer at or below a price, in whole increments; nothing on
/// overflow.
pub open spec fn offered(levels: Seq<Rung>, step: Dec, ceiling: Dec) -> Option<Dec> {
    match depth(levels, ceiling) {
        Some(all) => floor_to(all, step),
        None => None,
    }
}

proof fn lemma_depth_stays_missing(levels: Seq<Rung>, at: int, ceiling: Dec)
    requires
        0 <= at <= levels.len(),
        depth(levels.take(at), ceiling) is None,
    ensures
        depth(levels, ceiling) is None,
    decreases levels.len() - at,
{
    if at < levels.len() {
        take_next(levels, at);
        lemma_depth_stays_missing(levels, at + 1, ceiling);
    }
}

/// What the levels offer at or below a price, in whole increments; `None` on
/// overflow.
pub fn eligible_depth(
    minimum_quantity: Decimal,
    maximum_side_price: Decimal,
    levels: &Vec<ExecutionLevel>,
) -> (result: Option<Decimal>)
    ensures
        dec_of(result) == offered(rungs(levels@), minimum_quantity@, maximum_side_price@),
{
    let mut all = Decimal::zero();
    let mut i: usize = 0;
    while i < levels.len()
        invariant
            i <= levels@.len(),
            Some(all@) == depth(rungs(levels@.take(i as int)), maximum_side_price@),
        decreases levels@.len() - i,
    {
        let ghost more = rungs(levels@.take(i + 1));
        proof {
            take_next(levels@, i as int);
            assert(more.drop_last() =~= rungs(levels@.take(i as int)));
        }
        let level = levels[i];
        if takeable(level, maximum_side_price) {
            match all.checked_add(level.quantity) {
                Some(next) => {
                    all = next;
                },
                None => {
                    proof {
                        assert(rungs(levels@).take(i + 1) =~= more);
                        lemma_depth_stays_missing(rungs(levels@), i + 1, maximum_side_price@);
                    }
                    return None;
                },
            }
        }
        i = i + 1;
    }
    assert(levels@.take(levels@.len() as int) =~= levels@);
    floor_to_increment(all, minimum_quantity)
}

/// Sizes against a single price: quantity, maximum loss and fee.
pub fn size_position(
    risk_budget: Decimal,
    side_cost: Decimal,
    yes_trade_price: Decimal,
    fee_coefficient: Decimal,
    minimum_quantity: Decimal,
    available_depth: Decimal,
) -> (result: Option<(Decimal, Decimal, Decimal)>)
    ensures
        ({
            let whole = sized(
                seq![
                    Rung {
                        side_price: side_cost@,
                        yes_price: yes_trade_price@,
                        quantity: available_depth@,
                    },
                ],
                limits(risk_budget@, fee_coefficient@, minimum_quantity@, one()),
            );
            match result {
                Some((quantity, maximum_loss, estimated_fee)) => whole is Some && quantity@
                    == whole->0.quantity && maximum_loss@ == whole->0.maximum_loss
                    && estimated_fee@ == whole->0.estimated_fee,
                None => whole is None,
            }
        }),
{
    let level = ExecutionLevel {
        side_price: side_cost,
        yes_price: yes_trade_price,
        quantity: available_depth,
    };
    let mut levels: Vec<ExecutionLevel> = Vec::new();
    levels.push(level);
    assert(rungs(levels@) =~= seq![level@]);
    let whole = size_position_from_levels(
        risk_budget,
        fee_coefficient,
        minimum_quantity,
        Decimal::one(),
        &levels,
    )?;
    Some((whole.quantity, whole.maximum_loss, whole.estimated_fee))
}

/// Whether a loss fits: positive, within the total cap and the bankroll.
/// Missing where the sum overflows.
pub open spec fn fits_portfolio(portfolio: Portfolio, most: Dec, cap: Dec) -> Option<bool> {
    if !zero().lt(most) {
        Some(false)
    } else {
        match sum(portfolio.open_exposure, most) {
            Some(exposure) => Some(exposure.le(cap) && most.le(portfolio.bankroll)),
            None => None,
        }
    }
}

/// The portfolio with one more open position.
pub open spec fn opened(portfolio: Portfolio, position: Position) -> Portfolio {
    Portfolio {
        open_exposure: sum(portfolio.open_exposure, position.maximum_loss)->0,
        open_positions: portfolio.open_positions.push(position),
        ..portfolio
    }
}

/// The maximum losses of the positions in one event.
pub open spec fn event_losses(positions: Seq<Position>, event_id: Seq<char>) -> Seq<Dec>
    decreases positions.len(),
{
    if positions.len() == 0 {
        seq![]
    } else if positions.last().event_id == event_id {
        event_losses(positions.drop_last(), event_id).push(positions.last().maximum_loss)
    } else {
        event_losses(positions.drop_last(), event_id)
    }
}

/// What one event may lose with one more position in it; missing where the sum
/// overflows.
pub open spec fn event_exposure_with(
    portfolio: Portfolio,
    event_id: Seq<char>,
    most: Dec,
) -> Option<Dec> {
    match total(event_losses(portfolio.open_positions, event_id)) {
        Some(held) => sum(held, most),
        None => None,
    }
}

/// Whether a loss fits under the cap of its event; missing where the sum
/// overflows.
pub open spec fn fits_event(
    portfolio: Portfolio,
    event_id: Seq<char>,
    most: Dec,
    cap: Dec,
) -> Option<bool> {
    match event_exposure_with(portfolio, event_id, most) {
        Some(exposure) => Some(exposure.le(cap)),
        None => None,
    }
}

/// Whether a position on one side of a market is open.
pub open spec fn holds_side(portfolio: Portfolio, market_id: Seq<char>, side: OutcomeSide) -> bool {
    exists|i: int|
        0 <= i < portfolio.open_positions.len() && (#[trigger] portfolio.open_positions[i]).market_id
            == market_id && portfolio.open_positions[i].side == side
}

impl PaperPortfolio {
    /// Whether a position with that maximum loss fits under the cap of its event;
    /// `None` where the sum overflows.
    pub fn fits_event(&self, event_id: &str, maximum_loss: Decimal, event_cap: Decimal) -> (result:
        Option<bool>)
        ensures
            result == fits_event(self@, event_id@, maximum_loss@, event_cap@),
    {
        let held = self.exposure_for_event(event_id)?;
        let exposure = held.checked_add(maximum_loss)?;
        Some(exposure.at_most(event_cap))
    }

    /// Whether a position with that maximum loss may be opened; `None` where
    /// the sum of the exposures overflows.
    pub fn can_open(&self, maximum_loss: Decimal, maximum_total_exposure: Decimal) -> (result:
        Option<bool>)
        ensures
            result == fits_portfolio(self@, maximum_loss@, maximum_total_exposure@),
    {
        if !Decimal::zero().less(maximum_loss) {
            return Some(false);
        }
        let exposure = self.open_exposure.checked_add(maximum_loss)?;
        Some(exposure.at_most(maximum_total_exposure) && maximum_loss.at_most(self.bankroll))
    }

    /// Opens a position if it fits, and says whether it did. `None`, and the
    /// portfolio unchanged, where the sum of the exposures overflows.
    pub fn open(&mut self, position: PaperPosition, maximum_total_exposure: Decimal) -> (result:
        Option<bool>)
        ensures
            result == fits_portfolio(
                old(self)@,
                position@.maximum_loss,
                maximum_total_exposure@,
            ),
            final(self)@ == if result == Some(true) {
                opened(old(self)@, position@)
            } else {
                old(self)@
            },
    {
        let fits = self.can_open(position.maximum_loss, maximum_total_exposure)?;
        if !fits {
            return Some(false);
        }
        let exposure = self.open_exposure.checked_add(position.maximum_loss)?;
        self.open_exposure = exposure;
        self.open_positions.push(position);
        Some(true)
    }

    /// The summed maximum loss of the open positions in one event; `None` on
    /// overflow.
    pub fn exposure_for_event(&self, event_id: &str) -> (result: Option<Decimal>)
        ensures
            dec_of(result) == total(event_losses(self@.open_positions, event_id@)),
    {
        let mut losses: Vec<Decimal> = Vec::new();
        let mut i: usize = 0;
        while i < self.open_positions.len()
            invariant
                i <= self.open_positions@.len(),
                crate::decimal::decs(losses@) == event_losses(
                    paper_position_views(self.open_positions@.take(i as int)),
                    event_id@,
                ),
            decreases self.open_positions@.len() - i,
        {
            let ghost more = paper_position_views(self.open_positions@.take(i + 1));
            proof {
                take_next(self.open_positions@, i as int);
                assert(more.drop_last() =~= paper_position_views(
                    self.open_positions@.take(i as int),
                ));
            }
            if same(self.open_positions[i].event_id.as_str(), event_id) {
                losses.push(self.open_positions[i].maximum_loss);
            }
            i = i + 1;
        }
        crate::decimal::checked_total(&losses)
    }

    /// Whether a position on this side of this market is open.
    pub fn has_market_side(&self, market_id: &str, side: OutcomeSide) -> (result: bool)
        ensures
            result == holds_side(self@, market_id@, side),
    {
        let mut i: usize = 0;
        while i < self.open_positions.len()
            invariant
                i <= self.open_positions@.len(),
                forall|j: int|
                    0 <= j < i ==> !((#[trigger] self@.open_positions[j]).market_id == market_id@
                        && self@.open_positions[j].side == side),
            decreases self.open_positions@.len() - i,
        {
            assert(self@.open_positions[i as int] == self.open_positions@[i as int]@);
            if same(self.open_positions[i].market_id.as_str(), market_id)
                && self.open_positions[i].side == side {
                return true;
            }
            i = i + 1;
        }
        false
    }
}

/// Opening never pushes the exposure over the cap, nor risks more than the
/// bankroll on one position.
pub proof fn opening_respects_the_caps(portfolio: Portfolio, position: Position, cap: Dec)
    requires
        fits_portfolio(portfolio, position.maximum_loss, cap) == Some(true),
    ensures
        opened(portfolio, position).open_exposure.le(cap),
        position.maximum_loss.le(portfolio.bankroll),
        holds_side(opened(portfolio, position), position.market_id, position.side),
{
    let after = opened(portfolio, position).open_positions;
    assert(after[after.len() - 1] == position);
}

} // verus!
