//! Sums, differences, products and roundings as plain arithmetic.

use vstd::prelude::*;

use crate::decimal::{
    common_scale, difference, exact_product, exact_sum, fits, lemma_exact_sum, lemma_negated, lemma_pow10_adds,
    lemma_pow10_positive, lemma_sum_fits, lemma_value_sign, nearest_even, negated, pow10, product,
    product_is_exact, rounded, size, sum, sum_is_exact, unit, Dec, MANTISSA_LIMIT, MAX_SCALE,
};
use crate::sizing::digit;

verus! {

/// A number that fits at the finest scale can be written.
pub proof fn lemma_value_fits(d: Dec)
    requires
        d.scale <= MAX_SCALE,
        fits(d.value()),
    ensures
        d.wf(),
{
    let p = pow10((MAX_SCALE - d.scale) as nat);
    lemma_pow10_positive((MAX_SCALE - d.scale) as nat);
    let m = d.mantissa;
    assert(m >= 0 ==> m <= m * p) by (nonlinear_arith)
        requires
            p >= 1,
    ;
    assert(m <= 0 ==> m >= m * p) by (nonlinear_arith)
        requires
            p >= 1,
    ;
}

/// Numbers of a few units add up exactly.
pub proof fn lemma_near_sum(a: Dec, b: Dec)
    requires
        a.wf(),
        b.wf(),
        size(a.value()) + size(b.value()) < MANTISSA_LIMIT,
    ensures
        sum(a, b) matches Some(c) && c.wf() && c.value() == a.value() + b.value(),
{
    lemma_sum_fits(a, b, MAX_SCALE as nat);
    lemma_value_fits(exact_sum(a, b));
}

/// Numbers of a few units are subtracted exactly.
pub proof fn lemma_near_difference(a: Dec, b: Dec)
    requires
        a.wf(),
        b.wf(),
        size(a.value()) + size(b.value()) < MANTISSA_LIMIT,
    ensures
        difference(a, b) matches Some(c) && c.wf() && c.value() == a.value() - b.value() && c.scale
            <= common_scale(a, b),
{
    lemma_negated(b);
    let n = negated(b);
    lemma_sum_fits(a, n, MAX_SCALE as nat);
    lemma_value_fits(exact_sum(a, n));
}

/// A product that needs no rounding has the product of the values.
pub proof fn lemma_exact_product(a: Dec, b: Dec)
    requires
        a.scale <= MAX_SCALE,
        b.scale <= MAX_SCALE,
        product_is_exact(a, b),
    ensures
        product(a, b) matches Some(c) && c.value() * unit() == a.value() * b.value(),
{
    let c = exact_product(a, b);
    lemma_value_sign(c);
    lemma_value_sign(a);
    lemma_value_sign(b);
    let u = unit();
    if a.mantissa == 0 || b.mantissa == 0 {
        assert(c.value() * u == a.value() * b.value()) by (nonlinear_arith)
            requires
                c.value() == 0,
                a.value() == 0 || b.value() == 0,
        ;
    } else {
        let s = a.scale + b.scale;
        let (x, y) = (pow10((MAX_SCALE - a.scale) as nat), pow10((MAX_SCALE - b.scale) as nat));
        let z = pow10((MAX_SCALE - s) as nat);
        lemma_pow10_adds((MAX_SCALE - s) as nat, MAX_SCALE as nat);
        lemma_pow10_adds((MAX_SCALE - a.scale) as nat, (MAX_SCALE - b.scale) as nat);
        assert(c.value() * u == a.value() * b.value()) by (nonlinear_arith)
            requires
                c.value() == (a.mantissa * b.mantissa) * z,
                a.value() == a.mantissa * x,
                b.value() == b.mantissa * y,
                x * y == z * u,
        ;
    }
}

/// A mantissa whose value is small enough fits.
proof fn lemma_small_fits(m: int, p: int)
    requires
        p > 0,
        size(m * p) < MANTISSA_LIMIT * p,
    ensures
        fits(m),
{
    assert(m < MANTISSA_LIMIT) by (nonlinear_arith)
        requires
            m * p < MANTISSA_LIMIT * p,
            p > 0,
    ;
    assert(-MANTISSA_LIMIT < m) by (nonlinear_arith)
        requires
            -(m * p) < MANTISSA_LIMIT * p,
            p > 0,
    ;
}

/// Numbers that fit together at a scale add up exactly, and their sum is
/// written at no finer scale.
pub proof fn lemma_sum_at(a: Dec, b: Dec, scale: nat)
    requires
        a.scale <= scale <= MAX_SCALE,
        b.scale <= scale,
        size(a.value()) + size(b.value()) < MANTISSA_LIMIT * digit(scale),
    ensures
        sum(a, b) matches Some(c) && c.wf() && c.scale <= scale && c.value() == a.value()
            + b.value(),
{
    lemma_pow10_positive((MAX_SCALE - scale) as nat);
    crate::decimal::lemma_value_at(a, scale);
    crate::decimal::lemma_value_at(b, scale);
    let (x, y, p) = (a.at(scale), b.at(scale), digit(scale));
    assert((x + y) * p == x * p + y * p) by (nonlinear_arith);
    lemma_small_fits(x, p);
    lemma_small_fits(y, p);
    lemma_small_fits(x + y, p);
    lemma_sum_fits(a, b, scale);
    let c = exact_sum(a, b);
    lemma_pow10_positive((scale - c.scale) as nat);
    let (m, q) = (c.mantissa, pow10((scale - c.scale) as nat));
    assert(m >= 0 ==> m <= m * q) by (nonlinear_arith)
        requires
            q >= 1,
    ;
    assert(m <= 0 ==> m >= m * q) by (nonlinear_arith)
        requires
            q >= 1,
    ;
}

/// The same of a difference.
pub proof fn lemma_difference_at(a: Dec, b: Dec, scale: nat)
    requires
        a.scale <= scale <= MAX_SCALE,
        b.scale <= scale,
        size(a.value()) + size(b.value()) < MANTISSA_LIMIT * digit(scale),
    ensures
        difference(a, b) matches Some(c) && c.wf() && c.scale <= scale && c.value() == a.value()
            - b.value(),
{
    lemma_negated(b);
    let n = negated(b);
    lemma_sum_at(a, n, scale);
    assert(sum_is_exact(a, n)) by {
        lemma_pow10_positive((MAX_SCALE - scale) as nat);
        crate::decimal::lemma_value_at(a, scale);
        crate::decimal::lemma_value_at(n, scale);
        let (x, y, p) = (a.at(scale), n.at(scale), digit(scale));
        assert((x + y) * p == x * p + y * p) by (nonlinear_arith);
        lemma_small_fits(x, p);
        lemma_small_fits(y, p);
        lemma_small_fits(x + y, p);
        lemma_sum_fits(a, n, scale);
    }
}

/// A product that fits at a scale is exact, and written at no finer scale.
pub proof fn lemma_product_at(a: Dec, b: Dec, scale: nat)
    requires
        a.wf(),
        b.wf(),
        a.scale + b.scale <= scale <= MAX_SCALE,
        size(a.value() * b.value()) < MANTISSA_LIMIT * digit(scale) * unit(),
    ensures
        product(a, b) matches Some(c) && c.wf() && c.scale <= scale && c.value() * unit()
            == a.value() * b.value(),
{
    let m = a.mantissa * b.mantissa;
    let s = a.scale + b.scale;
    let (x, y) = (pow10((MAX_SCALE - a.scale) as nat), pow10((MAX_SCALE - b.scale) as nat));
    let z = pow10((MAX_SCALE - s) as nat);
    let u = unit();
    lemma_pow10_positive(MAX_SCALE as nat);
    lemma_pow10_positive((MAX_SCALE - s) as nat);
    lemma_pow10_positive((MAX_SCALE - scale) as nat);
    lemma_pow10_adds((MAX_SCALE - s) as nat, MAX_SCALE as nat);
    lemma_pow10_adds((MAX_SCALE - a.scale) as nat, (MAX_SCALE - b.scale) as nat);
    assert(a.value() * b.value() == m * z * u) by (nonlinear_arith)
        requires
            a.value() == a.mantissa * x,
            b.value() == b.mantissa * y,
            m == a.mantissa * b.mantissa,
            x * y == z * u,
    ;
    let p = digit(scale);
    assert(m * z < MANTISSA_LIMIT * p) by (nonlinear_arith)
        requires
            m * z * u < MANTISSA_LIMIT * p * u,
            u > 0,
    ;
    assert(-(m * z) < MANTISSA_LIMIT * p) by (nonlinear_arith)
        requires
            -(m * z * u) < MANTISSA_LIMIT * p * u,
            u > 0,
    ;
    lemma_pow10_adds((scale - s) as nat, (MAX_SCALE - scale) as nat);
    lemma_pow10_positive((scale - s) as nat);
    let w = pow10((scale - s) as nat);
    assert(m * w * p == m * z) by (nonlinear_arith)
        requires
            w * p == z,
    ;
    lemma_small_fits(m * w, p);
    assert(m >= 0 ==> m <= m * w) by (nonlinear_arith)
        requires
            w >= 1,
    ;
    assert(m <= 0 ==> m >= m * w) by (nonlinear_arith)
        requires
            w >= 1,
    ;
    lemma_exact_product(a, b);
}

/// A difference that needs no rounding has the difference of the values.
pub proof fn lemma_exact_difference(a: Dec, b: Dec)
    requires
        a.scale <= MAX_SCALE,
        b.scale <= MAX_SCALE,
        crate::decimal::sum_is_exact(a, negated(b)),
    ensures
        difference(a, b) matches Some(c) && c.value() == a.value() - b.value() && c.scale
            <= MAX_SCALE,
{
    lemma_negated(b);
    lemma_exact_sum(a, negated(b));
}

/// Rounding moves a number by at most half of the last digit that is kept.
pub proof fn lemma_rounded_close(d: Dec, places: nat)
    requires
        d.scale <= MAX_SCALE,
        places <= MAX_SCALE,
    ensures
        2 * size(rounded(d, places).value() - d.value()) <= pow10((MAX_SCALE - places) as nat),
        rounded(d, places).scale <= places || rounded(d, places) == d,
{
    lemma_pow10_positive((MAX_SCALE - places) as nat);
    if d.scale > places {
        let p = pow10((d.scale - places) as nat);
        let q = pow10((MAX_SCALE - d.scale) as nat);
        let r = pow10((MAX_SCALE - places) as nat);
        lemma_pow10_positive((d.scale - places) as nat);
        lemma_pow10_positive((MAX_SCALE - d.scale) as nat);
        lemma_pow10_adds((d.scale - places) as nat, (MAX_SCALE - d.scale) as nat);
        let m = d.mantissa;
        let n = nearest_even(m, p);
        vstd::arithmetic::div_mod::lemma_fundamental_div_mod(m, p);
        vstd::arithmetic::div_mod::lemma_mod_bound(m, p);
        let k = m / p;
        assert((k + 1) * p == p * k + p) by (nonlinear_arith);
        assert(k * p == p * k) by (nonlinear_arith);
        let off = n * p - m;
        assert(-p <= 2 * off <= p);
        assert(n * r - m * q == off * q) by (nonlinear_arith)
            requires
                off == n * p - m,
                r == p * q,
        ;
        assert(-r <= 2 * (off * q) <= r) by (nonlinear_arith)
            requires
                -p <= 2 * off <= p,
                r == p * q,
                q > 0,
        ;
    }
}

} // verus!
