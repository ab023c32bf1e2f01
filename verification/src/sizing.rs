//! What a sizing pass takes: whole increments, no more than is offered, at no
//! more than the ceiling on average.

use vstd::prelude::*;

use crate::decimal::{
    dec, difference, exact_product, exact_sum, fits, floored, lemma_negated, lemma_pow10_adds,
    lemma_pow10_positive, lemma_quotient_at_most, lemma_quotient_sign, lemma_sum_fits,
    lemma_value_at, lemma_value_sign, minus, negated, one, plus, pow10, product, product_is_exact,
    quotient, unit, zero, Dec, MANTISSA_LIMIT, MAX_SCALE,
};
use crate::risk::{
    eligible, fee, filled, floor_to, largest_take, level_filled, offers_at, sized, taken, unfilled,
    Fill, Limits, Rung,
};
use crate::seqs::group_seqs;

verus! {

broadcast use group_seqs;

/// Whether a number is `n` increments, written at no finer scale.
pub open spec fn steps(q: Dec, step: Dec, n: int) -> bool {
    q.wf() && q.scale <= step.scale && q.at(step.scale) == n * step.mantissa
}

/// Whether a number is a whole number of increments.
pub open spec fn in_steps(q: Dec, step: Dec) -> bool {
    exists|n: int| n >= 0 && #[trigger] steps(q, step, n)
}

/// Whether a number over an increment can be written exactly.
pub open spec fn divides_evenly(q: Dec, step: Dec) -> bool {
    exists|d: Dec| d.wf() && #[trigger] (d.value() * step.value()) == q.value() * unit()
}

/// What the levels offer at or below a price, in units of the finest digit.
pub open spec fn depth_value(levels: Seq<Rung>, ceiling: Dec) -> int
    decreases levels.len(),
{
    if levels.len() == 0 {
        0
    } else {
        depth_value(levels.drop_last(), ceiling) + if offers_at(levels.last(), ceiling) {
            levels.last().quantity.value()
        } else {
            0
        }
    }
}

/// The value of the last digit of numbers written at a scale.
pub open spec fn digit(scale: nat) -> int {
    pow10((MAX_SCALE - scale) as nat)
}

/// Whether a level's numbers need no rounding: its quantity over the increment,
/// and its price times a number of increments at `scale`.
pub open spec fn plain_rung(rung: Rung, step: Dec, scale: nat) -> bool {
    &&& rung.quantity.wf()
    &&& rung.side_price.wf()
    &&& divides_evenly(rung.quantity, step)
    &&& step.scale + rung.side_price.scale <= scale
}

/// Whether sizing needs no rounding for quantities and costs: so it is for each
/// level that may be taken, and all of them together can be written at the
/// increment's scale, and their cost at `scale`.
pub open spec fn plain_levels(levels: Seq<Rung>, limits: Limits, scale: nat) -> bool {
    &&& scale <= MAX_SCALE
    &&& limits.step.wf()
    &&& limits.step.scale <= scale
    &&& limits.ceiling.wf()
    &&& forall|i: int|
        0 <= i < levels.len() && offers_at(#[trigger] levels[i], limits.ceiling) ==> plain_rung(
            levels[i],
            limits.step,
            scale,
        )
    &&& depth_value(levels, limits.ceiling) < MANTISSA_LIMIT * digit(limits.step.scale)
    &&& depth_value(levels, limits.ceiling) * limits.ceiling.value() < MANTISSA_LIMIT * digit(scale)
        * unit()
}

proof fn lemma_steps_value(q: Dec, step: Dec, n: int)
    requires
        step.wf(),
        steps(q, step, n),
    ensures
        q.value() == n * step.value(),
        q.value() == q.at(step.scale) * digit(step.scale),
{
    lemma_value_at(q, step.scale);
    let p = digit(step.scale);
    assert(n * step.mantissa * p == n * (step.mantissa * p)) by (nonlinear_arith);
}

/// A number whose value is small enough fits at a scale.
proof fn lemma_fits_at(m: int, scale: nat)
    requires
        scale <= MAX_SCALE,
        0 <= m * digit(scale) < MANTISSA_LIMIT * digit(scale),
    ensures
        fits(m),
        m >= 0,
{
    lemma_pow10_positive((MAX_SCALE - scale) as nat);
    let p = digit(scale);
    assert(m < MANTISSA_LIMIT) by (nonlinear_arith)
        requires
            m * p < MANTISSA_LIMIT * p,
            p > 0,
    ;
    assert(m >= 0) by (nonlinear_arith)
        requires
            m * p >= 0,
            p > 0,
    ;
}

/// A positive quotient rounded down is a whole number not above it.
pub(crate) proof fn lemma_floored(q: Dec)
    requires
        q.wf(),
        q.mantissa >= 0,
    ensures
        floored(q).scale == 0,
        floored(q).wf(),
        floored(q).mantissa >= 0,
        floored(q).mantissa * unit() <= q.value() < (floored(q).mantissa + 1) * unit(),
{
    let p = pow10(q.scale);
    let r = pow10((MAX_SCALE - q.scale) as nat);
    lemma_pow10_positive(q.scale);
    lemma_pow10_positive((MAX_SCALE - q.scale) as nat);
    lemma_pow10_adds(q.scale, (MAX_SCALE - q.scale) as nat);
    if q.scale == 0 {
        vstd::arithmetic::power::lemma_pow0(10);
        let m = q.mantissa;
        assert((m + 1) * unit() == m * unit() + unit()) by (nonlinear_arith);
    } else {
        let m = q.mantissa;
        let k = m / p;
        vstd::arithmetic::div_mod::lemma_fundamental_div_mod(m, p);
        vstd::arithmetic::div_mod::lemma_mod_bound(m, p);
        vstd::arithmetic::div_mod::lemma_div_pos_is_pos(m, p);
        assert(k <= m) by (nonlinear_arith)
            requires
                p * k <= m,
                p >= 1,
                k >= 0,
        ;
        assert(k * (p * r) <= m * r) by (nonlinear_arith)
            requires
                p * k <= m,
                r > 0,
        ;
        assert(m * r < (k + 1) * (p * r)) by (nonlinear_arith)
            requires
                m < p * k + p,
                r > 0,
        ;
    }
}

/// What is taken of a number in whole increments where it is at most some
/// whole number of increments that can be written.
proof fn lemma_floor_to(v: Dec, step: Dec, most: int)
    requires
        v.wf(),
        step.wf(),
        step.mantissa > 0,
        v.mantissa >= 0,
        0 <= most < MANTISSA_LIMIT,
        fits(most * step.mantissa),
        v.value() <= most * step.value(),
    ensures
        floor_to(v, step) matches Some(t) ==> exists|k: int| 0 <= k <= most && steps(t, step, k),
{
    lemma_value_sign(step);
    lemma_value_sign(v);
    lemma_value_sign(zero());
    if let Some(q) = quotient(v, step) {
        let d = dec(most, 0);
        let u = unit();
        lemma_pow10_positive(MAX_SCALE as nat);
        assert(d.value() == most * u);
        assert(v.value() * u <= most * u * step.value()) by (nonlinear_arith)
            requires
                v.value() <= most * step.value(),
                u > 0,
        ;
        lemma_quotient_at_most(v, step, d);
        lemma_quotient_sign(v, step);
        lemma_floored(q);
        let k = floored(q).mantissa;
        assert(k <= most) by (nonlinear_arith)
            requires
                k * u <= most * u,
                u > 0,
        ;
        lemma_whole_steps(k, step, most);
        if let Some(t) = product(dec(k, 0), step) {
            assert(floored(q) == dec(k, 0));
            assert(steps(t, step, k));
        }
    }
}

proof fn lemma_whole_steps(k: int, step: Dec, most: int)
    requires
        step.wf(),
        step.mantissa > 0,
        0 <= k <= most,
        fits(most * step.mantissa),
    ensures
        product(dec(k, 0), step) matches Some(t) && steps(t, step, k),
{
    let m = step.mantissa;
    assert(0 <= k * m <= most * m) by (nonlinear_arith)
        requires
            0 <= k <= most,
            m > 0,
    ;
    vstd::arithmetic::power::lemma_pow0(10);
    let t = exact_product(dec(k, 0), step);
    if k == 0 {
        assert(0 * pow10(step.scale) == 0) by (nonlinear_arith);
        assert(0 * m == 0) by (nonlinear_arith);
    } else {
        assert(t.at(step.scale) == k * m * 1);
    }
}

/// Of a quantity that divides evenly, the whole increments are no more than it.
proof fn lemma_available(v: Dec, step: Dec)
    requires
        v.wf(),
        step.wf(),
        step.mantissa > 0,
        v.mantissa >= 0,
        divides_evenly(v, step),
        v.value() < MANTISSA_LIMIT * digit(step.scale),
    ensures
        floor_to(v, step) matches Some(t) ==> exists|k: int|
            0 <= k < MANTISSA_LIMIT && steps(t, step, k) && k * step.value() <= v.value() && fits(
                k * step.mantissa,
            ),
{
    lemma_value_sign(step);
    lemma_value_sign(v);
    lemma_value_sign(zero());
    if let Some(q) = quotient(v, step) {
        let d = choose|d: Dec| d.wf() && #[trigger] (d.value() * step.value()) == v.value() * unit();
        lemma_quotient_at_most(v, step, d);
        lemma_quotient_sign(v, step);
        lemma_floored(q);
        let k = floored(q).mantissa;
        let (u, s, m, p) = (unit(), step.value(), step.mantissa, digit(step.scale));
        lemma_pow10_positive(MAX_SCALE as nat);
        lemma_pow10_positive((MAX_SCALE - step.scale) as nat);
        assert(k * u <= d.value());
        assert((k * u) * s <= d.value() * s) by (nonlinear_arith)
            requires
                k * u <= d.value(),
                s > 0,
        ;
        assert(k * s <= v.value()) by (nonlinear_arith)
            requires
                (k * u) * s <= v.value() * u,
                u > 0,
        ;
        assert(k * m * p == k * s) by (nonlinear_arith)
            requires
                s == m * p,
        ;
        assert(0 <= k * m) by (nonlinear_arith)
            requires
                k >= 0,
                m > 0,
        ;
        assert(0 <= (k * m) * p) by (nonlinear_arith)
            requires
                k * m >= 0,
                p > 0,
        ;
        lemma_fits_at(k * m, step.scale);
        assert(k <= k * m) by (nonlinear_arith)
            requires
                k >= 0,
                m >= 1,
        ;
        lemma_whole_steps(k, step, k);
        assert(floored(q) == dec(k, 0));
    }
}

/// What a fill keeps to while levels that offer `there` have been looked at:
/// whole increments, no more than `there`, at no more than the ceiling each.
spec fn orderly(fill: Fill, there: int, limits: Limits, scale: nat) -> bool {
    &&& in_steps(fill.quantity, limits.step)
    &&& 0 <= fill.quantity.value() <= there
    &&& fill.gross.wf()
    &&& fill.gross.scale <= scale
    &&& 0 <= fill.gross.value()
    &&& fill.gross.value() * unit() <= limits.ceiling.value() * fill.quantity.value()
}

/// The exact product of two numbers, at the sum of their scales or coarser.
proof fn lemma_product_fits(a: Dec, b: Dec, scale: nat)
    requires
        a.wf(),
        b.wf(),
        a.mantissa >= 0,
        b.mantissa >= 0,
        a.scale + b.scale <= scale <= MAX_SCALE,
        a.value() * b.value() < MANTISSA_LIMIT * digit(scale) * unit(),
    ensures
        product(a, b) matches Some(c) && c.wf() && c.scale <= scale && c.mantissa >= 0 && c.value()
            * unit() == a.value() * b.value(),
{
    let m = a.mantissa * b.mantissa;
    let s = a.scale + b.scale;
    let (x, y) = (pow10((MAX_SCALE - a.scale) as nat), pow10((MAX_SCALE - b.scale) as nat));
    let z = pow10((MAX_SCALE - s) as nat);
    let u = unit();
    lemma_pow10_positive(MAX_SCALE as nat);
    lemma_pow10_positive((MAX_SCALE - s) as nat);
    lemma_pow10_positive((MAX_SCALE - scale) as nat);
    lemma_pow10_adds((MAX_SCALE - s) as nat, MAX_SCALE as nat);
    lemma_pow10_adds((MAX_SCALE - a.scale) as nat, (MAX_SCALE - b.scale) as nat);
    assert(x * y == z * u);
    assert(a.value() * b.value() == m * z * u) by (nonlinear_arith)
        requires
            a.value() == a.mantissa * x,
            b.value() == b.mantissa * y,
            m == a.mantissa * b.mantissa,
            x * y == z * u,
    ;
    assert(m >= 0) by (nonlinear_arith)
        requires
            m == a.mantissa * b.mantissa,
            a.mantissa >= 0,
            b.mantissa >= 0,
    ;
    let p = digit(scale);
    assert(m * z < MANTISSA_LIMIT * p) by (nonlinear_arith)
        requires
            m * z * u < MANTISSA_LIMIT * p * u,
            u > 0,
    ;
    lemma_pow10_adds((scale - s) as nat, (MAX_SCALE - scale) as nat);
    lemma_pow10_positive((scale - s) as nat);
    let w = pow10((scale - s) as nat);
    assert(w * p == z);
    assert(m * w * p == m * z) by (nonlinear_arith)
        requires
            w * p == z,
    ;
    assert(0 <= m * w) by (nonlinear_arith)
        requires
            m >= 0,
            w > 0,
    ;
    assert(0 <= (m * w) * p) by (nonlinear_arith)
        requires
            m * w >= 0,
            p > 0,
    ;
    lemma_fits_at(m * w, scale);
    assert(m <= m * w) by (nonlinear_arith)
        requires
            m >= 0,
            w >= 1,
    ;
    assert(product_is_exact(a, b));
    let c = exact_product(a, b);
    if a.mantissa == 0 || b.mantissa == 0 {
        assert(m == 0) by (nonlinear_arith)
            requires
                m == a.mantissa * b.mantissa,
                a.mantissa == 0 || b.mantissa == 0,
        ;
        lemma_value_sign(zero());
        assert(c.value() * u == 0) by (nonlinear_arith)
            requires
                c.value() == 0,
        ;
        assert(m * z * u == 0) by (nonlinear_arith)
            requires
                m == 0,
        ;
    }
}

proof fn lemma_taken(
    fill: Fill,
    rung: Rung,
    take: Dec,
    k: int,
    limits: Limits,
    scale: nat,
    there: int,
    most: int,
)
    requires
        limits.step.wf(),
        limits.step.mantissa > 0,
        limits.ceiling.wf(),
        scale <= MAX_SCALE,
        orderly(fill, there, limits, scale),
        steps(take, limits.step, k),
        k >= 1,
        k * limits.step.value() <= rung.quantity.value(),
        there + rung.quantity.value() <= most,
        most < MANTISSA_LIMIT * digit(limits.step.scale),
        most * limits.ceiling.value() < MANTISSA_LIMIT * digit(scale) * unit(),
        offers_at(rung, limits.ceiling),
        plain_rung(rung, limits.step, scale),
    ensures
        taken(fill, rung, take, limits) matches Some(next) ==> orderly(
            next,
            there + rung.quantity.value(),
            limits,
            scale,
        ),
{
    let (step, ceiling, price) = (limits.step, limits.ceiling, rung.side_price);
    let n = choose|n: int| n >= 0 && #[trigger] steps(fill.quantity, step, n);
    let (m, p, u) = (step.mantissa, digit(step.scale), unit());
    lemma_steps_value(fill.quantity, step, n);
    lemma_steps_value(take, step, k);
    lemma_value_sign(zero());
    lemma_value_sign(step);
    lemma_value_sign(price);
    lemma_value_sign(take);
    lemma_value_sign(ceiling);
    lemma_pow10_positive((MAX_SCALE - step.scale) as nat);
    lemma_pow10_positive(MAX_SCALE as nat);
    let (a, b) = (fill.quantity.at(step.scale), take.at(step.scale));
    assert(a + b == (n + k) * m) by (nonlinear_arith)
        requires
            a == n * m,
            b == k * m,
    ;
    assert(take.value() > 0) by (nonlinear_arith)
        requires
            take.value() == k * step.value(),
            k >= 1,
            step.value() > 0,
    ;
    assert((a + b) * p == a * p + b * p) by (nonlinear_arith);
    lemma_fits_at(a, step.scale);
    lemma_fits_at(b, step.scale);
    lemma_fits_at(a + b, step.scale);
    lemma_sum_fits(fill.quantity, take, step.scale);
    let quantity = exact_sum(fill.quantity, take);
    assert(quantity.wf()) by {
        lemma_smaller_at(quantity, step.scale);
    }
    assert(steps(quantity, step, n + k));
    // The cost.
    let (t, c, s) = (take.value(), price.value(), ceiling.value());
    assert(t * c <= s * t) by (nonlinear_arith)
        requires
            t > 0,
            c <= s,
    ;
    assert(s * t <= most * s) by (nonlinear_arith)
        requires
            s > 0,
            t <= most,
    ;
    lemma_product_fits(take, price, scale);
    let cost = product(take, price)->0;
    lemma_value_sign(cost);
    lemma_value_at(cost, scale);
    lemma_value_at(fill.gross, scale);
    let q = digit(scale);
    let (x, y, f) = (fill.gross.at(scale), cost.at(scale), fill.quantity.value());
    assert((x + y) * q == x * q + y * q) by (nonlinear_arith);
    let g = fill.gross.value() + cost.value();
    assert(g * u <= s * quantity.value()) by (nonlinear_arith)
        requires
            g == fill.gross.value() + cost.value(),
            fill.gross.value() * u <= s * f,
            cost.value() * u <= s * t,
            quantity.value() == f + t,
    ;
    assert(s * quantity.value() <= most * s) by (nonlinear_arith)
        requires
            s > 0,
            quantity.value() <= most,
    ;
    assert(g < MANTISSA_LIMIT * q) by (nonlinear_arith)
        requires
            g * u < MANTISSA_LIMIT * q * u,
            u > 0,
    ;
    lemma_fits_at(x, scale);
    lemma_fits_at(y, scale);
    lemma_fits_at(x + y, scale);
    lemma_sum_fits(fill.gross, cost, scale);
    let gross = exact_sum(fill.gross, cost);
    lemma_smaller_at(gross, scale);
    if let Some(next) = taken(fill, rung, take, limits) {
        assert(next.quantity == quantity);
        assert(next.gross == gross);
    }
}

/// A number that fits at a finer scale can be written.
proof fn lemma_smaller_at(d: Dec, scale: nat)
    requires
        d.scale <= scale <= MAX_SCALE,
        fits(d.at(scale)),
    ensures
        d.wf(),
{
    lemma_pow10_positive((scale - d.scale) as nat);
    let (m, p) = (d.mantissa, pow10((scale - d.scale) as nat));
    assert(m >= 0 ==> m <= m * p) by (nonlinear_arith)
        requires
            p >= 1,
    ;
    assert(m <= 0 ==> m >= m * p) by (nonlinear_arith)
        requires
            p >= 1,
    ;
}

proof fn lemma_more_room(fill: Fill, there: int, more: int, limits: Limits, scale: nat)
    requires
        orderly(fill, there, limits, scale),
        there <= more,
    ensures
        orderly(fill, more, limits, scale),
{
}

proof fn lemma_largest_take(
    fill: Fill,
    rung: Rung,
    take: Dec,
    k: int,
    limits: Limits,
    scale: nat,
    there: int,
    most: int,
)
    requires
        limits.step.wf(),
        limits.step.mantissa > 0,
        limits.ceiling.wf(),
        scale <= MAX_SCALE,
        orderly(fill, there, limits, scale),
        steps(take, limits.step, k),
        k >= 0,
        k * limits.step.value() <= rung.quantity.value(),
        there + rung.quantity.value() <= most,
        most < MANTISSA_LIMIT * digit(limits.step.scale),
        most * limits.ceiling.value() < MANTISSA_LIMIT * digit(scale) * unit(),
        offers_at(rung, limits.ceiling),
        plain_rung(rung, limits.step, scale),
    ensures
        largest_take(fill, rung, take, limits) matches Some(next) ==> orderly(
            next,
            there + rung.quantity.value(),
            limits,
            scale,
        ),
    decreases k,
{
    let step = limits.step;
    lemma_value_sign(take);
    lemma_value_sign(zero());
    lemma_value_sign(step);
    lemma_value_sign(rung.quantity);
    lemma_steps_value(take, step, k);
    lemma_more_room(fill, there, there + rung.quantity.value(), limits, scale);
    if !take.le(zero()) {
        assert(k >= 1) by (nonlinear_arith)
            requires
                k * step.value() > 0,
                step.value() > 0,
        ;
        lemma_taken(fill, rung, take, k, limits, scale, there, most);
        lemma_negated(step);
        vstd::arithmetic::power::lemma_pow0(10);
        let n = negated(step);
        let m = step.mantissa;
        assert(step.at(step.scale) == m) by (nonlinear_arith)
            requires
                step.at(step.scale) == m * pow10(0),
                pow10(0) == 1,
        ;
        assert(n.at(step.scale) == -m) by (nonlinear_arith)
            requires
                n.at(step.scale) == (-m) * pow10(0),
                pow10(0) == 1,
        ;
        let a = take.at(step.scale);
        lemma_pow10_positive((MAX_SCALE - step.scale) as nat);
        lemma_fits_at(a, step.scale);
        assert(a - m == (k - 1) * m) by (nonlinear_arith)
            requires
                a == k * m,
        ;
        assert((k - 1) * m >= 0) by (nonlinear_arith)
            requires
                k >= 1,
                m > 0,
        ;
        lemma_sum_fits(take, n, step.scale);
        let smaller = exact_sum(take, n);
        lemma_smaller_at(smaller, step.scale);
        assert(difference(take, step) == Some(smaller));
        assert(steps(smaller, step, k - 1));
        let v = step.value();
        assert((k - 1) * v <= k * v) by (nonlinear_arith)
            requires
                v > 0,
        ;
        lemma_largest_take(fill, rung, smaller, k - 1, limits, scale, there, most);
    }
}

proof fn lemma_level(
    fill: Fill,
    rung: Rung,
    limits: Limits,
    scale: nat,
    there: int,
    most: int,
)
    requires
        limits.step.wf(),
        limits.step.mantissa > 0,
        limits.ceiling.wf(),
        scale <= MAX_SCALE,
        orderly(fill, there, limits, scale),
        0 <= there,
        there + rung.quantity.value() <= most,
        most < MANTISSA_LIMIT * digit(limits.step.scale),
        most * limits.ceiling.value() < MANTISSA_LIMIT * digit(scale) * unit(),
        offers_at(rung, limits.ceiling),
        plain_rung(rung, limits.step, scale),
    ensures
        level_filled(fill, rung, limits) matches Some(next) ==> orderly(
            next,
            there + rung.quantity.value(),
            limits,
            scale,
        ),
{
    let step = limits.step;
    lemma_value_sign(rung.quantity);
    lemma_value_sign(zero());
    lemma_more_room(fill, there, there + rung.quantity.value(), limits, scale);
    lemma_available(rung.quantity, step);
    if let (Some(available), Some(unit_cost), Some(left)) = (
        floor_to(rung.quantity, step),
        plus(Some(rung.side_price), fee(limits.coefficient, one(), rung.yes_price)),
        minus(difference(limits.budget, fill.gross), Some(fill.fee)),
    ) {
        let k = choose|k: int|
            0 <= k < MANTISSA_LIMIT && steps(available, step, k) && k * step.value()
                <= rung.quantity.value() && fits(k * step.mantissa);
        lemma_steps_value(available, step, k);
        if !(available.le(zero()) || unit_cost.le(zero()) || left.le(zero())) {
            lemma_value_sign(unit_cost);
            lemma_value_sign(left);
            lemma_value_sign(available);
            if let Some(affordable) = quotient(left, unit_cost) {
                lemma_quotient_sign(left, unit_cost);
                lemma_value_sign(affordable);
                let v = available.min(affordable);
                lemma_floor_to(v, step, k);
                if let Some(take) = floor_to(v, step) {
                    let j = choose|j: int| 0 <= j <= k && steps(take, step, j);
                    let s = step.value();
                    lemma_value_sign(step);
                    assert(j * s <= k * s) by (nonlinear_arith)
                        requires
                            j <= k,
                            s > 0,
                    ;
                    lemma_largest_take(fill, rung, take, j, limits, scale, there, most);
                }
            }
        }
    }
}

proof fn lemma_depth_grows(levels: Seq<Rung>, ceiling: Dec)
    ensures
        0 <= depth_value(levels, ceiling),
    decreases levels.len(),
{
    if levels.len() > 0 {
        lemma_depth_grows(levels.drop_last(), ceiling);
        lemma_value_sign(zero());
    }
}

proof fn lemma_filled(levels: Seq<Rung>, limits: Limits, scale: nat)
    requires
        plain_levels(levels, limits, scale),
        limits.step.mantissa > 0,
        limits.ceiling.mantissa > 0,
    ensures
        filled(levels, limits) matches Some(fill) ==> orderly(
            fill,
            depth_value(levels, limits.ceiling),
            limits,
            scale,
        ),
    decreases levels.len(),
{
    let (step, ceiling) = (limits.step, limits.ceiling);
    lemma_value_sign(zero());
    lemma_value_sign(ceiling);
    lemma_depth_grows(levels, ceiling);
    if levels.len() == 0 {
        assert(0 * pow10(step.scale) == 0) by (nonlinear_arith);
        assert(0 * step.mantissa == 0) by (nonlinear_arith);
        assert(steps(zero(), step, 0));
        assert(0 * unit() <= ceiling.value() * 0) by (nonlinear_arith);
        assert(unfilled().quantity.value() == 0);
        assert(unfilled().gross.value() == 0);
        assert(unfilled().gross.value() * unit() <= ceiling.value() * unfilled().quantity.value())
            by (nonlinear_arith)
            requires
                unfilled().gross.value() == 0,
                unfilled().quantity.value() == 0,
        ;
    } else {
        let front = levels.drop_last();
        let rung = levels.last();
        let (there, most) = (depth_value(front, ceiling), depth_value(levels, ceiling));
        lemma_depth_grows(front, ceiling);
        assert(there <= most);
        let c = ceiling.value();
        assert(there * c <= most * c) by (nonlinear_arith)
            requires
                there <= most,
                c > 0,
        ;
        assert forall|i: int| 0 <= i < front.len() && offers_at(
            #[trigger] front[i],
            ceiling,
        ) implies plain_rung(front[i], step, scale) by {
            assert(front[i] == levels[i]);
        }
        lemma_filled(front, limits, scale);
        assert(levels[levels.len() - 1] == rung);
        if let Some(fill) = filled(front, limits) {
            if eligible(rung, limits) {
                lemma_level(fill, rung, limits, scale, there, most);
            }
        }
    }
}

/// A sized position is a whole number of increments, no more than the levels
/// offer at or below the ceiling, and costs no more than the ceiling on average.
/// This holds where quantities and costs need no rounding on the way.
pub proof fn sizing_takes_what_is_offered(levels: Seq<Rung>, limits: Limits, scale: nat)
    requires
        plain_levels(levels, limits, scale),
    ensures
        sized(levels, limits) matches Some(s) ==> {
            &&& in_steps(s.quantity, limits.step)
            &&& s.quantity.value() <= depth_value(levels, limits.ceiling)
            &&& zero().lt(s.quantity) ==> s.average_side_price.le(limits.ceiling)
        },
{
    let (step, ceiling) = (limits.step, limits.ceiling);
    lemma_value_sign(zero());
    lemma_value_sign(step);
    lemma_value_sign(ceiling);
    lemma_depth_grows(levels, ceiling);
    assert(0 * pow10(step.scale) == 0) by (nonlinear_arith);
    assert(0 * step.mantissa == 0) by (nonlinear_arith);
    assert(steps(zero(), step, 0));
    if !(step.le(zero()) || ceiling.le(zero())) {
        lemma_filled(levels, limits, scale);
        if let Some(fill) = filled(levels, limits) {
            lemma_value_sign(fill.quantity);
            if !fill.quantity.le(zero()) {
                lemma_quotient_at_most(fill.gross, fill.quantity, ceiling);
            }
        }
    }
}

} // verus!
