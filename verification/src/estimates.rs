//! How errors of rounding add up over a few operations.
use crate::amounts::{
    amount, bounded, extent, half_unit, lemma_amounts_ordered, lemma_as_sum, lemma_extent,
    lemma_product_bounded, lemma_product_off, lemma_scale_in_figures, lemma_sum_off, off, scale,
};
use crate::number_laws::{law_order, minus, size};
use crate::order::lemma_units_zero;
use crate::rounding::units;
use crate::scalar::{group_bits, Scalar};
use vstd::prelude::*;

verus! {

/// What rounding moves an amount of up to `m` at most, with something to spare.
pub open spec fn nudge(m: real) -> real {
    m / 0x80_0000 as real + 2 as real * half_unit()
}

/// Whether a finite number stands for `x` but for `k` roundings of amounts up to `m`.
pub open spec fn stands(a: Scalar, x: real, m: real, k: real) -> bool {
    &&& a.is_finite()
    &&& off(amount(a), x, k * nudge(m))
    &&& 0 as real <= k
    &&& k <= 0x400 as real
    &&& 0 as real <= m
}

/// A number stands for its amount.
#[verifier::spinoff_prover]
pub proof fn lemma_stands(a: Scalar, m: real)
    requires
        a.is_finite(),
        m >= 0 as real,
    ensures
        stands(a, amount(a), m, 0 as real),
{
    let n = nudge(m);
    assert(0 as real * n == 0 as real) by (nonlinear_arith);
}

#[verifier::spinoff_prover]
pub proof fn lemma_nudge(m: real)
    requires
        m >= 0 as real,
    ensures
        nudge(m) > 0 as real,
        nudge(m) >= m / 0x80_0000 as real,
{
    lemma_scale_in_figures();
}

/// A sum of numbers that stand for something.
#[verifier::spinoff_prover]
pub proof fn lemma_added(a: Scalar, b: Scalar, x: real, y: real, m: real, i: real, j: real)
    requires
        stands(a, x, m, i),
        stands(b, y, m, j),
        (a + b).is_finite(),
        bounded(x + y, m),
        i + j + 1 as real <= 0x400 as real,
    ensures
        stands(a + b, x + y, m, i + j + 1 as real),
{
    lemma_scale_in_figures();
    lemma_nudge(m);
    let n = nudge(m);
    let k = i + j;
    let kn = k * n;
    assert(i * n + j * n == kn && (k + 1 as real) * n == kn + n) by (nonlinear_arith)
        requires
            k == i + j,
            kn == k * n,
    ;
    assert(kn <= 0x400 as real * n && kn >= 0 as real) by (nonlinear_arith)
        requires
            kn == k * n,
            0 as real <= k,
            k <= 0x400 as real,
            n > 0 as real,
    ;
    lemma_sum_off(a, b, m + kn);
}

/// A difference of numbers that stand for something.
#[verifier::spinoff_prover]
pub proof fn lemma_taken(a: Scalar, b: Scalar, x: real, y: real, m: real, i: real, j: real)
    requires
        stands(a, x, m, i),
        stands(b, y, m, j),
        (a - b).is_finite(),
        bounded(x - y, m),
        i + j + 1 as real <= 0x400 as real,
    ensures
        stands(a - b, x - y, m, i + j + 1 as real),
{
    lemma_as_sum(a, b);
    lemma_added(a, b.negated(), x, 0 as real - y, m, i, j);
}

/// A number that stands for something, times one of at most `q`.
#[verifier::spinoff_prover]
pub proof fn lemma_scaled(a: Scalar, b: Scalar, x: real, m: real, i: real, q: real)
    requires
        stands(a, x, m, i),
        (a * b).is_finite(),
        bounded(amount(b), q),
        q >= 0 as real,
        bounded(x * amount(b), m),
        q * i + 1 as real <= 0x400 as real,
    ensures
        stands(a * b, x * amount(b), m, q * i + 1 as real),
{
    lemma_scale_in_figures();
    lemma_nudge(m);
    let n = nudge(m);
    let y = amount(b);
    let d = i * n;
    let f = amount(a) - x;
    lemma_not_less(i, n);
    lemma_product_bounded(f, y, d, q);
    let k = q * i;
    let dq = d * q;
    assert(dq == k * n && (k + 1 as real) * n == k * n + n) by (nonlinear_arith)
        requires
            d == i * n,
            k == q * i,
            dq == d * q,
    ;
    let p = amount(a) * y;
    assert(p == x * y + f * y) by (nonlinear_arith)
        requires
            p == amount(a) * y,
            f == amount(a) - x,
    ;
    assert(0 as real <= k) by (nonlinear_arith)
        requires
            k == q * i,
            q >= 0 as real,
            i >= 0 as real,
    ;
    assert(dq <= 0x400 as real * n && dq >= 0 as real) by (nonlinear_arith)
        requires
            dq == k * n,
            0 as real <= k,
            k <= 0x400 as real,
            n > 0 as real,
    ;
    lemma_product_off(a, b, m + dq);
}

#[verifier::spinoff_prover]
proof fn lemma_not_less(i: real, n: real)
    requires
        i >= 0 as real,
        n >= 0 as real,
    ensures
        i * n >= 0 as real,
{
    assert(i * n >= 0 as real) by (nonlinear_arith)
        requires
            i >= 0 as real,
            n >= 0 as real,
    ;
}

/// The other way around.
#[verifier::spinoff_prover]
pub proof fn lemma_scaling(b: Scalar, a: Scalar, x: real, m: real, i: real, q: real)
    requires
        stands(a, x, m, i),
        (b * a).is_finite(),
        bounded(amount(b), q),
        q >= 0 as real,
        bounded(amount(b) * x, m),
        q * i + 1 as real <= 0x400 as real,
    ensures
        stands(b * a, amount(b) * x, m, q * i + 1 as real),
{
    lemma_scale_in_figures();
    lemma_nudge(m);
    let n = nudge(m);
    let y = amount(b);
    let d = i * n;
    let f = amount(a) - x;
    lemma_not_less(i, n);
    lemma_product_bounded(y, f, q, d);
    let k = q * i;
    let dq = q * d;
    assert(dq == k * n && (k + 1 as real) * n == k * n + n) by (nonlinear_arith)
        requires
            d == i * n,
            k == q * i,
            dq == q * d,
    ;
    let p = y * amount(a);
    assert(p == y * x + y * f) by (nonlinear_arith)
        requires
            p == y * amount(a),
            f == amount(a) - x,
    ;
    assert(0 as real <= k) by (nonlinear_arith)
        requires
            k == q * i,
            q >= 0 as real,
            i >= 0 as real,
    ;
    assert(dq <= 0x400 as real * n && dq >= 0 as real) by (nonlinear_arith)
        requires
            dq == k * n,
            0 as real <= k,
            k <= 0x400 as real,
            n > 0 as real,
    ;
    lemma_product_off(b, a, m + dq);
}

/// A product of two numbers that stand for something, with errors `d` and `e`.
#[verifier::spinoff_prover]
pub proof fn lemma_product_near(
    a: Scalar,
    b: Scalar,
    x: real,
    y: real,
    p: real,
    q: real,
    d: real,
    e: real,
)
    requires
        (a * b).is_finite(),
        off(amount(a), x, d),
        off(amount(b), y, e),
        bounded(x, p),
        bounded(y, q),
        d >= 0 as real,
        e >= 0 as real,
        p >= 0 as real,
        q >= 0 as real,
    ensures
        off(
            amount(a * b),
            x * y,
            p * e + d * q + d * e + ((p + d) * (q + e)) / 0x100_0000 as real + half_unit(),
        ),
{
    let f = amount(a) - x;
    let g = amount(b) - y;
    lemma_product_bounded(x, g, p, e);
    lemma_product_bounded(f, y, d, q);
    lemma_product_bounded(f, g, d, e);
    lemma_product_bounded(amount(a), amount(b), p + d, q + e);
    let m = amount(a) * amount(b);
    assert(m == x * y + x * g + f * y + f * g) by (nonlinear_arith)
        requires
            m == amount(a) * amount(b),
            f == amount(a) - x,
            g == amount(b) - y,
    ;
    lemma_product_off(a, b, (p + d) * (q + e));
}

/// The lesser of two.
pub open spec fn least(x: real, y: real) -> real {
    if x <= y {
        x
    } else {
        y
    }
}

/// The greater of two.
pub open spec fn greatest(x: real, y: real) -> real {
    if x <= y {
        y
    } else {
        x
    }
}

/// The lesser of two numbers stands for the lesser of two amounts.
#[verifier::spinoff_prover]
pub proof fn lemma_least(a: Scalar, b: Scalar, x: real, y: real, m: real, k: real)
    requires
        stands(a, x, m, k),
        stands(b, y, m, k),
    ensures
        stands(a.min(b), least(x, y), m, k),
        stands(a.max(b), greatest(x, y), m, k),
{
    broadcast use group_bits;

    reveal(Scalar::spec_min);
    reveal(Scalar::spec_max);
    reveal(Scalar::spec_lt);
    reveal(Scalar::spec_le);
    reveal(Scalar::spec_is_finite);
    if a.le(b) {
        lemma_amounts_ordered(a, b);
    }
    if b.le(a) {
        lemma_amounts_ordered(b, a);
    }
}

/// Finite numbers compare as their amounts do.
#[verifier::spinoff_prover]
pub proof fn lemma_compared(a: Scalar, b: Scalar)
    requires
        a.is_finite(),
        b.is_finite(),
    ensures
        a.lt(b) <==> amount(a) < amount(b),
        a.le(b) <==> amount(a) <= amount(b),
{
    broadcast use group_bits;

    reveal(Scalar::spec_lt);
    reveal(Scalar::spec_le);
    reveal(Scalar::spec_is_finite);
    if a.le(b) {
        lemma_amounts_ordered(a, b);
    }
    if b.le(a) {
        lemma_amounts_ordered(b, a);
    }
    law_order(a, b);
    lemma_extent(a);
    lemma_extent(b);
    if amount(a) == amount(b) {
        lemma_same_amount(a, b);
    }
}

/// Numbers of one amount are the same.
#[verifier::spinoff_prover]
proof fn lemma_same_amount(a: Scalar, b: Scalar)
    requires
        a.is_finite(),
        b.is_finite(),
        amount(a) == amount(b),
    ensures
        !a.lt(b),
        !b.lt(a),
{
    law_order(a, b);
    law_order(b, a);
    lemma_extent(a);
    lemma_extent(b);
    let p = scale();
    let (x, y) = (extent(a), extent(b));
    assert(x == y || x == 0 as real - y);
    assert(x == y);
    assert(units(size(a)) as real == units(size(b)) as real);
    assert(units(size(a)) == units(size(b)));
    if minus(a) != minus(b) {
        lemma_units_zero(size(a));
        lemma_units_zero(size(b));
    }
}

} // verus!
