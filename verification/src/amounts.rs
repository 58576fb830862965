//! The amounts that numbers stand for, and how far rounding moves them.
use crate::ieee;
use crate::ieee::value;
use crate::number_laws::{
    law_order, lemma_opposite, lemma_product, lemma_quotient, lemma_sum, minus, size,
};
use crate::order::lemma_units_zero;
use crate::rounding::{
    doublings_for, half_even, lemma_doublings_bounds, lemma_half_even_error,
    lemma_nearest_root_error, lemma_units_of_nearest, nearest, nearest_root, units, INFINITE,
    PRECISION,
};
use crate::scalar::{group_bits, num, Scalar, ZERO};
use crate::vector::Vec3;
use vstd::arithmetic::power2::{
    lemma2_to64, lemma_pow2_adds, lemma_pow2_pos, lemma_pow2_unfold, pow2,
};
use vstd::prelude::*;

verus! {

/// How many units make one.
pub open spec fn scale() -> real {
    pow2(149) as real
}

/// The amount that a finite number stands for, without its sign.
pub open spec fn extent(a: Scalar) -> real {
    units(size(a)) as real / scale()
}

/// How much of an amount rounding moves at most.
pub open spec fn epsilon() -> real {
    1 as real / 0x100_0000 as real
}

/// Half a unit: how far rounding moves the smallest amounts at most.
pub open spec fn half_unit() -> real {
    1 as real / (2 as real * scale())
}

/// Rounding moves by half a unit, or by a small part of what is rounded.
#[verifier::spinoff_prover]
pub proof fn lemma_nearest_error(n: nat, d: nat)
    requires
        d > 0,
        nearest(n, d) < INFINITE,
    ensures
        ({
            let k = units(nearest(n, d)) * d;
            ||| 2 * n <= 2 * k + d && 2 * k <= 2 * n + d
            ||| 0x100_0000 * n <= 0x100_0000 * k + n && 0x100_0000 * k <= 0x100_0000 * n + n
        }),
{
    let s = doublings_for(n, d);
    let w = pow2(s);
    let e = d * w;
    lemma_units_of_nearest(n, d);
    lemma_doublings_bounds(n, d);
    lemma_pow2_pos(s);
    assert(e > 0) by (nonlinear_arith)
        requires
            e == d * w,
            d > 0,
            w > 0,
    ;
    lemma_half_even_error(n, e);
    let j = half_even(n, e);
    assert((j * w) * d == j * e) by (nonlinear_arith)
        requires
            e == d * w,
    ;
    if s == 0 {
        lemma2_to64();
        assert(e == d) by (nonlinear_arith)
            requires
                e == d * w,
                w == 1,
        ;
    } else {
        lemma_pow2_unfold(s);
        let u = pow2((s - 1) as nat);
        assert(2 * n >= 0x100_0000 * e) by (nonlinear_arith)
            requires
                n >= d * 0x100_0000 * u,
                e == d * w,
                w == 2 * u,
        ;
    }
}

/// Whether `x` is `y` but for rounding.
pub open spec fn rounded(x: real, y: real) -> bool {
    &&& x <= y + epsilon() * y + half_unit()
    &&& y <= x + epsilon() * y + half_unit()
}

#[verifier::spinoff_prover]
proof fn lemma_scale()
    ensures
        scale() > 0 as real,
        half_unit() > 0 as real,
        half_unit() * (2 as real * scale()) == 1 as real,
        epsilon() * 0x100_0000 as real == 1 as real,
{
    lemma_pow2_pos(149);
    let p = scale();
    assert((1 as real / (2 as real * p)) * (2 as real * p) == 1 as real) by (nonlinear_arith)
        requires
            p > 0 as real,
    ;
    assert(1 as real / (2 as real * p) > 0 as real) by (nonlinear_arith)
        requires
            p > 0 as real,
    ;
}

#[verifier::spinoff_prover]
pub proof fn lemma_extent(a: Scalar)
    ensures
        extent(a) >= 0 as real,
        extent(a) * scale() == units(size(a)) as real,
        size(a) == 0 <==> extent(a) == 0 as real,
{
    lemma_scale();
    lemma_units_zero(size(a));
    let p = scale();
    let u = units(size(a)) as real;
    assert(u / p >= 0 as real && (u / p) * p == u && (u == 0 as real <==> u / p == 0 as real))
        by (nonlinear_arith)
        requires
            p > 0 as real,
            u >= 0 as real,
    ;
}

/// From an error in units to one in amounts: `k` units for `n / d` units.
#[verifier::spinoff_prover]
proof fn lemma_rounded(x: real, y: real, k: real, n: real, d: real)
    requires
        d > 0 as real,
        n >= 0 as real,
        x * scale() == k,
        y * scale() * d == n,
        ({
            ||| 2 as real * n <= 2 as real * (k * d) + d && 2 as real * (k * d) <= 2 as real * n
                + d
            ||| 0x100_0000 as real * n <= 0x100_0000 as real * (k * d) + n && 0x100_0000 as real
                * (k * d) <= 0x100_0000 as real * n + n
        }),
    ensures
        y >= 0 as real,
        rounded(x, y),
{
    lemma_scale();
    let p = scale();
    let e = epsilon();
    let t = half_unit();
    let q = p * d;
    assert(q > 0 as real) by (nonlinear_arith)
        requires
            p > 0 as real,
            d > 0 as real,
            q == p * d,
    ;
    assert(k * d == x * q && n == y * q) by (nonlinear_arith)
        requires
            x * p == k,
            y * p * d == n,
            q == p * d,
    ;
    assert(y >= 0 as real) by (nonlinear_arith)
        requires
            n == y * q,
            n >= 0 as real,
            q > 0 as real,
    ;
    assert(e * y >= 0 as real) by (nonlinear_arith)
        requires
            e * 0x100_0000 as real == 1 as real,
            y >= 0 as real,
    ;
    if 2 as real * n <= 2 as real * (k * d) + d && 2 as real * (k * d) <= 2 as real * n + d {
        assert(d == (t * (2 as real)) * q) by (nonlinear_arith)
            requires
                t * (2 as real * p) == 1 as real,
                q == p * d,
        ;
        assert(y <= x + t && x <= y + t) by (nonlinear_arith)
            requires
                2 as real * (y * q) <= 2 as real * (x * q) + (t * (2 as real)) * q,
                2 as real * (x * q) <= 2 as real * (y * q) + (t * (2 as real)) * q,
                q > 0 as real,
        ;
    } else {
        assert(y <= x + e * y && x <= y + e * y) by (nonlinear_arith)
            requires
                0x100_0000 as real * (y * q) <= 0x100_0000 as real * (x * q) + y * q,
                0x100_0000 as real * (x * q) <= 0x100_0000 as real * (y * q) + y * q,
                q > 0 as real,
                e * 0x100_0000 as real == 1 as real,
        ;
    }
}

#[verifier::spinoff_prover]
proof fn lemma_nearest_rounded(x: real, y: real, n: nat, d: nat)
    requires
        d > 0,
        nearest(n, d) < INFINITE,
        x * scale() == units(nearest(n, d)) as real,
        y * scale() * (d as real) == n as real,
    ensures
        y >= 0 as real,
        rounded(x, y),
{
    lemma_nearest_error(n, d);
    let k = units(nearest(n, d));
    assert((k * d) as real == (k as real) * (d as real)) by (nonlinear_arith);
    lemma_rounded(x, y, k as real, n as real, d as real);
}

/// A product is rounded.
#[verifier::spinoff_prover]
pub proof fn law_product_rounded(a: Scalar, b: Scalar)
    requires
        a.is_finite(),
        b.is_finite(),
        (a * b).is_finite(),
    ensures
        rounded(extent(a * b), extent(a) * extent(b)),
{
    reveal(Scalar::spec_is_finite);
    lemma_product(a, b);
    lemma_extent(a);
    lemma_extent(b);
    lemma_extent(a * b);
    lemma_scale();
    let p = scale();
    let x = extent(a);
    let y = extent(b);
    let u = units(size(a));
    let v = units(size(b));
    lemma_pow2_pos(149);
    assert((u * v) as real == (u as real) * (v as real)) by (nonlinear_arith);
    assert((x * y) * p * p == (u as real) * (v as real)) by (nonlinear_arith)
        requires
            x * p == u as real,
            y * p == v as real,
    ;
    lemma_nearest_rounded(extent(a * b), x * y, u * v, pow2(149));
}

/// A quotient is rounded.
#[verifier::spinoff_prover]
pub proof fn law_quotient_rounded(a: Scalar, b: Scalar)
    requires
        a.is_finite(),
        b.is_finite(),
        size(b) > 0,
        a.over(b).is_finite(),
    ensures
        extent(b) > 0 as real,
        rounded(extent(a.over(b)), extent(a) / extent(b)),
{
    reveal(Scalar::spec_is_finite);
    lemma_quotient(a, b);
    lemma_extent(a);
    lemma_extent(b);
    lemma_extent(a.over(b));
    lemma_scale();
    lemma_units_zero(size(b));
    let p = scale();
    let x = extent(a);
    let y = extent(b);
    let u = units(size(a));
    let v = units(size(b));
    let w = pow2(149);
    assert((u * w) as real == (u as real) * (w as real)) by (nonlinear_arith);
    assert((x / y) * p * (v as real) == (u as real) * p) by (nonlinear_arith)
        requires
            x * p == u as real,
            y * p == v as real,
            y > 0 as real,
            p > 0 as real,
    ;
    lemma_nearest_rounded(extent(a.over(b)), x / y, u * w, v);
}

/// A sum of numbers that are not negative is rounded, and exact where it is small.
#[verifier::spinoff_prover]
pub proof fn law_sum_rounded(a: Scalar, b: Scalar)
    requires
        num(ZERO).le(a),
        num(ZERO).le(b),
        a.is_finite(),
        b.is_finite(),
        (a + b).is_finite(),
    ensures
        ({
            let y = extent(a) + extent(b);
            let x = extent(a + b);
            x <= y + epsilon() * y && y <= x + epsilon() * y
        }),
{
    broadcast use group_bits;

    reveal(Scalar::spec_is_finite);
    reveal(Scalar::spec_le);
    lemma_sum(a, b);
    lemma_extent(a);
    lemma_extent(b);
    lemma_extent(a + b);
    lemma_scale();
    lemma_units_zero(size(a));
    lemma_units_zero(size(b));
    let p = scale();
    let n = units(size(a)) + units(size(b));
    assert(size(a + b) == nearest(n, 1));
    let k = units(nearest(n, 1));
    lemma_nearest_error(n, 1);
    let x = extent(a + b);
    let y = extent(a) + extent(b);
    let e = epsilon();
    assert(y * p == n as real) by (nonlinear_arith)
        requires
            y == extent(a) + extent(b),
            extent(a) * p + extent(b) * p == n as real,
    ;
    assert(0x100_0000 * n <= 0x100_0000 * k + n && 0x100_0000 * k <= 0x100_0000 * n + n);
    assert(y <= x + e * y && x <= y + e * y) by (nonlinear_arith)
        requires
            x * p == k as real,
            y * p == n as real,
            0x100_0000 * n <= 0x100_0000 * k + n,
            0x100_0000 * k <= 0x100_0000 * n + n,
            p > 0 as real,
            e * 0x100_0000 as real == 1 as real,
    ;
}

/// A square root is rounded.
#[verifier::spinoff_prover]
pub proof fn law_root_rounded(a: Scalar)
    requires
        num(ZERO).lt(a),
        a.is_finite(),
        a.sqrt().is_finite(),
    ensures
        ({
            let x = extent(a);
            let r = extent(a.sqrt());
            &&& r > 0 as real
            &&& x <= r * r + (r * r) / 0x40_0000 as real
            &&& r * r <= x + (r * r) / 0x40_0000 as real
        }),
{
    broadcast use group_bits;

    reveal(Scalar::spec_is_finite);
    reveal(Scalar::spec_lt);
    reveal(Scalar::spec_sqrt);
    reveal(ieee::root);
    lemma_extent(a);
    lemma_extent(a.sqrt());
    lemma_scale();
    lemma_units_zero(size(a));
    let p = scale();
    let e = epsilon();
    let x = extent(a);
    let r = extent(a.sqrt());
    let u = units(size(a));
    let n = u * pow2(149);
    lemma2_to64();
    lemma_pow2_adds(64, 85);
    lemma_pow2_pos(85);
    assert(n >= PRECISION * PRECISION) by (nonlinear_arith)
        requires
            n == u * pow2(149),
            u >= 1,
            pow2(149) == pow2(64) * pow2(85),
            pow2(64) == 0x1_0000_0000_0000_0000,
            pow2(85) >= 1,
            PRECISION == 0x100_0000,
    ;
    assert(size(a.sqrt()) == nearest_root(n));
    lemma_nearest_root_error(n);
    let k = units(nearest_root(n));
    assert(n as real == x * p * p) by (nonlinear_arith)
        requires
            n == u * pow2(149),
            x * p == u as real,
            p == pow2(149) as real,
    ;
    let q = p * p;
    assert(q > 0 as real) by (nonlinear_arith)
        requires
            p > 0 as real,
            q == p * p,
    ;
    let up = r + e * r;
    let low = r - e * r;
    assert(up * p * 0x100_0000 as real == (0x100_0001 * k) as real) by (nonlinear_arith)
        requires
            up == r + e * r,
            r * p == k as real,
            e * 0x100_0000 as real == 1 as real,
    ;
    assert(low * p * 0x100_0000 as real == (0xff_ffff * k) as real) by (nonlinear_arith)
        requires
            low == r - e * r,
            r * p == k as real,
            e * 0x100_0000 as real == 1 as real,
    ;
    let c = 0x100_0000 as real;
    let kk = (0x100_0001 * k) as real;
    let ll = (0xff_ffff * k) as real;
    assert((c * c) * (n as real) <= kk * kk) by (nonlinear_arith)
        requires
            (0x100_0000 * 0x100_0000) * n <= (0x100_0001 * k) * (0x100_0001 * k),
            c == 0x100_0000 as real,
            kk == (0x100_0001 * k) as real,
    ;
    assert(ll * ll <= (c * c) * (n as real)) by (nonlinear_arith)
        requires
            (0xff_ffff * k) * (0xff_ffff * k) <= (0x100_0000 * 0x100_0000) * n,
            c == 0x100_0000 as real,
            ll == (0xff_ffff * k) as real,
    ;
    let f = q * (c * c);
    assert(f > 0 as real) by (nonlinear_arith)
        requires
            f == q * (c * c),
            q > 0 as real,
            c == 0x100_0000 as real,
    ;
    assert(x * f <= (up * up) * f) by (nonlinear_arith)
        requires
            (c * c) * (n as real) <= kk * kk,
            n as real == x * p * p,
            kk == up * p * c,
            q == p * p,
            f == q * (c * c),
    ;
    assert((low * low) * f <= x * f) by (nonlinear_arith)
        requires
            ll * ll <= (c * c) * (n as real),
            n as real == x * p * p,
            ll == low * p * c,
            q == p * p,
            f == q * (c * c),
    ;
    lemma_cancel(x, up * up, f);
    lemma_cancel(low * low, x, f);
    let rr = r * r;
    let ee = e * e;
    assert(rr >= 0 as real && up * up == rr + 2 as real * (e * rr) + ee * rr && low * low == rr - 2
        as real * (e * rr) + ee * rr) by (nonlinear_arith)
        requires
            up == r + e * r,
            low == r - e * r,
            rr == r * r,
            ee == e * e,
    ;
    assert(ee == 1 as real / 0x1_0000_0000_0000 as real) by (nonlinear_arith)
        requires
            ee == e * e,
            e == 1 as real / 0x100_0000 as real,
    ;
    assert(x <= rr + rr / 0x40_0000 as real && rr <= x + rr / 0x40_0000 as real)
        by (nonlinear_arith)
        requires
            rr >= 0 as real,
            x <= rr + 2 as real * (e * rr) + ee * rr,
            rr - 2 as real * (e * rr) + ee * rr <= x,
            e == 1 as real / 0x100_0000 as real,
            ee == 1 as real / 0x1_0000_0000_0000 as real,
    ;
    assert(r > 0 as real) by {
        if r == 0 as real {
            assert(up * up == 0 as real) by (nonlinear_arith)
                requires
                    up == r + e * r,
                    r == 0 as real,
            ;
        }
    }
}

/// A common factor of both sides is left out.
#[verifier::spinoff_prover]
pub proof fn lemma_cancel(x: real, y: real, f: real)
    requires
        f > 0 as real,
        x * f <= y * f,
    ensures
        x <= y,
{
    assert(x <= y) by (nonlinear_arith)
        requires
            f > 0 as real,
            x * f <= y * f,
    ;
}

/// How many units make one, in figures.
#[verifier::spinoff_prover]
pub proof fn lemma_scale_in_figures()
    ensures
        scale() == 0x20_0000_0000_0000_0000_0000_0000_0000_0000_0000 as real,
        half_unit() == 1 as real / 0x40_0000_0000_0000_0000_0000_0000_0000_0000_0000 as real,
        epsilon() == 1 as real / 0x100_0000 as real,
{
    lemma2_to64();
    lemma_pow2_adds(64, 64);
    lemma_pow2_adds(128, 21);
    assert(pow2(21) == 0x20_0000);
    assert(pow2(149) == 0x20_0000_0000_0000_0000_0000_0000_0000_0000_0000) by (nonlinear_arith)
        requires
            pow2(149) == pow2(128) * pow2(21),
            pow2(128) == pow2(64) * pow2(64),
            pow2(64) == 0x1_0000_0000_0000_0000,
            pow2(21) == 0x20_0000,
    ;
}

/// The amount that a finite number stands for.
pub open spec fn amount(a: Scalar) -> real {
    if minus(a) {
        0 as real - extent(a)
    } else {
        extent(a)
    }
}

/// Whether `x` is no farther than `d` from `y`.
pub open spec fn off(x: real, y: real, d: real) -> bool {
    &&& x <= y + d
    &&& y <= x + d
}

/// Whether `x` is no farther than `b` from zero.
pub open spec fn bounded(x: real, b: real) -> bool {
    &&& x <= b
    &&& 0 as real - b <= x
}

/// A product is off by a small part of its bound.
#[verifier::spinoff_prover]
pub proof fn lemma_product_off(a: Scalar, b: Scalar, bound: real)
    requires
        (a * b).is_finite(),
        bounded(amount(a) * amount(b), bound),
    ensures
        a.is_finite(),
        b.is_finite(),
        off(
            amount(a * b),
            amount(a) * amount(b),
            bound / 0x100_0000 as real + half_unit(),
        ),
{
    broadcast use group_bits;

    assert(a.is_finite() && b.is_finite()) by {
        reveal(Scalar::spec_is_finite);
        reveal(Scalar::spec_mul);
        reveal(ieee::product);
    }
    lemma_product(a, b);
    law_product_rounded(a, b);
    lemma_extent(a);
    lemma_extent(b);
    lemma_scale_in_figures();
    let x = extent(a);
    let y = extent(b);
    let p = x * y;
    assert(p >= 0 as real) by (nonlinear_arith)
        requires
            p == x * y,
            x >= 0 as real,
            y >= 0 as real,
    ;
    assert((0 as real - x) * y == 0 as real - p && x * (0 as real - y) == 0 as real - p && (0
        as real - x) * (0 as real - y) == p) by (nonlinear_arith)
        requires
            p == x * y,
    ;
    let e = epsilon();
    assert(e * p <= bound / 0x100_0000 as real) by (nonlinear_arith)
        requires
            e == 1 as real / 0x100_0000 as real,
            p <= bound,
    ;
}

/// A sum is off by a small part of its bound.
#[verifier::spinoff_prover]
pub proof fn lemma_sum_off(a: Scalar, b: Scalar, bound: real)
    requires
        (a + b).is_finite(),
        bounded(amount(a) + amount(b), bound),
    ensures
        a.is_finite(),
        b.is_finite(),
        off(amount(a + b), amount(a) + amount(b), bound / 0x100_0000 as real),
{
    broadcast use group_bits;

    assert(a.is_finite() && b.is_finite()) by {
        reveal(Scalar::spec_is_finite);
        reveal(Scalar::spec_add);
        reveal(ieee::sum);
    }
    lemma_sum(a, b);
    lemma_extent(a);
    lemma_extent(b);
    lemma_extent(a + b);
    lemma_scale_in_figures();
    reveal(Scalar::spec_is_finite);
    let t = value(a.bits()) + value(b.bits());
    let n: nat = if t < 0 {
        (-t) as nat
    } else {
        t as nat
    };
    lemma_nearest_error(n, 1);
    let k = units(nearest(n, 1));
    let p = scale();
    let x = extent(a + b);
    let sum = amount(a) + amount(b);
    assert(sum * p == t as real) by (nonlinear_arith)
        requires
            sum == amount(a) + amount(b),
            amount(a) * p == value(a.bits()) as real,
            amount(b) * p == value(b.bits()) as real,
            t == value(a.bits()) + value(b.bits()),
    ;
    let y = if t < 0 {
        0 as real - sum
    } else {
        sum
    };
    assert(y * p == n as real) by (nonlinear_arith)
        requires
            sum * p == t as real,
            t < 0 ==> y == 0 as real - sum && n == -t,
            t >= 0 ==> y == sum && n == t,
    ;
    assert(x * p == k as real);
    assert(0x100_0000 * n <= 0x100_0000 * k + n && 0x100_0000 * k <= 0x100_0000 * n + n);
    assert(y <= x + y / 0x100_0000 as real && x <= y + y / 0x100_0000 as real) by (nonlinear_arith)
        requires
            x * p == k as real,
            y * p == n as real,
            0x100_0000 * n <= 0x100_0000 * k + n,
            0x100_0000 * k <= 0x100_0000 * n + n,
            p > 0 as real,
    ;
    if t == 0 {
        assert(k == 0);
    }
}

/// A difference is off by a small part of its bound.
#[verifier::spinoff_prover]
pub proof fn lemma_difference_off(a: Scalar, b: Scalar, bound: real)
    requires
        (a - b).is_finite(),
        bounded(amount(a) - amount(b), bound),
    ensures
        a.is_finite(),
        b.is_finite(),
        off(amount(a - b), amount(a) - amount(b), bound / 0x100_0000 as real),
{
    lemma_as_sum(a, b);
    lemma_sum_off(a, b.negated(), bound);
}

/// A difference is the sum with the opposite.
#[verifier::spinoff_prover]
pub proof fn lemma_as_sum(a: Scalar, b: Scalar)
    ensures
        a - b == a + b.negated(),
        b.is_finite() <==> b.negated().is_finite(),
        extent(b.negated()) == extent(b),
        amount(b.negated()) == 0 as real - amount(b),
{
    broadcast use group_bits;

    lemma_opposite(b);
    reveal(Scalar::spec_is_finite);
    reveal(Scalar::spec_sub);
    reveal(Scalar::spec_add);
}

/// A product of bounded amounts is bounded.
#[verifier::spinoff_prover]
pub proof fn lemma_product_bounded(x: real, y: real, a: real, b: real)
    requires
        bounded(x, a),
        bounded(y, b),
        a >= 0 as real,
        b >= 0 as real,
    ensures
        bounded(x * y, a * b),
{
    assert(x * y <= a * b && 0 as real - a * b <= x * y) by (nonlinear_arith)
        requires
            x <= a,
            0 as real - a <= x,
            y <= b,
            0 as real - b <= y,
            a >= 0 as real,
            b >= 0 as real,
    {
        if x >= 0 as real {
            assert(x * y <= x * b && x * b <= a * b);
            assert(x * y >= x * (0 as real - b) && x * (0 as real - b) == 0 as real - x * b);
        } else {
            let z = 0 as real - x;
            assert(z * y <= z * b && z * b <= a * b);
            assert(z * y >= z * (0 as real - b) && z * (0 as real - b) == 0 as real - z * b);
            assert(x * y == 0 as real - z * y);
        }
    }
}

/// The product of two vectors, not rounded.
pub open spec fn exact_dot(v: Vec3, n: Vec3) -> real {
    amount(v.x) * amount(n.x) + amount(v.y) * amount(n.y) + amount(v.z) * amount(n.z)
}

/// Finite numbers are ordered as the amounts that they stand for.
#[verifier::spinoff_prover]
pub proof fn lemma_amounts_ordered(a: Scalar, b: Scalar)
    requires
        a.is_finite(),
        b.is_finite(),
        a.le(b),
    ensures
        amount(a) <= amount(b),
{
    law_order(a, b);
    lemma_extent(a);
    lemma_extent(b);
    lemma_scale_in_figures();
    let p = scale();
    assert(amount(a) * p == value(a.bits()) as real && amount(b) * p == value(b.bits()) as real)
        by (nonlinear_arith)
        requires
            extent(a) * p == units(size(a)) as real,
            extent(b) * p == units(size(b)) as real,
            amount(a) == if minus(a) {
                0 as real - extent(a)
            } else {
                extent(a)
            },
            amount(b) == if minus(b) {
                0 as real - extent(b)
            } else {
                extent(b)
            },
            value(a.bits()) == if minus(a) {
                -(units(size(a)) as int)
            } else {
                units(size(a)) as int
            },
            value(b.bits()) == if minus(b) {
                -(units(size(b)) as int)
            } else {
                units(size(b)) as int
            },
    ;
    lemma_cancel(amount(a), amount(b), p);
}

} // verus!
