//! Rounding keeps order: what follows for sums, products and quotients.
use crate::rounding::{
    doublings, doublings_for, half_even, lemma_doublings_bounds, lemma_magnitude_parts,
    lemma_nearest_close, lemma_nearest_scale, nearest, significand, units, BINADE, INFINITE,
    PRECISION,
};
use vstd::arithmetic::div_mod::{lemma_div_is_ordered, lemma_fundamental_div_mod};
use vstd::arithmetic::power2::{
    lemma2_to64, lemma_pow2_pos, lemma_pow2_strictly_increases, lemma_pow2_unfold, pow2,
};
use vstd::prelude::*;

verus! {

/// A greater magnitude stands for more units.
pub proof fn lemma_units_increase(m: nat, n: nat)
    requires
        m < n,
    ensures
        units(m) < units(n),
{
    lemma_magnitude_parts(m);
    lemma_magnitude_parts(n);
    let s = doublings(m);
    let t = doublings(n);
    let k = significand(m);
    let l = significand(n);
    lemma_pow2_pos(s);
    let w = pow2(s);
    if s == t {
        assert(k * w < l * w) by (nonlinear_arith)
            requires
                k < l,
                w > 0,
        ;
    } else {
        assert(s < t) by {
            if s > t {
                assert(s * BINADE >= t * BINADE + BINADE) by (nonlinear_arith)
                    requires
                        s >= t + 1,
                ;
                assert(t * BINADE + l < t * BINADE + PRECISION);
            }
        }
        lemma_pow2_unfold(s + 1);
        if s + 1 < t {
            lemma_pow2_strictly_increases(s + 1, t);
        }
        let v = pow2(t);
        assert(k * w < l * v) by (nonlinear_arith)
            requires
                k < 0x100_0000,
                l >= 0x80_0000,
                v >= 2 * w,
                w > 0,
        ;
    }
}

/// No units are less than none, and only zero is none.
pub proof fn lemma_units_zero(m: nat)
    ensures
        units(m) == 0 <==> m == 0,
{
    lemma2_to64();
    assert(units(0) == 0) by (nonlinear_arith)
        requires
            units(0) == 0 * pow2(0),
    ;
    if m > 0 {
        lemma_units_increase(0, m);
    }
}

proof fn lemma_half_even_increases(n: nat, k: nat, d: nat)
    requires
        n <= k,
        d > 0,
    ensures
        half_even(n, d) <= half_even(k, d),
{
    lemma_fundamental_div_mod(n as int, d as int);
    lemma_fundamental_div_mod(k as int, d as int);
    lemma_div_is_ordered(n as int, k as int, d as int);
    if n / d == k / d {
        assert(n % d <= k % d);
    }
}

/// A number of units between two whole ones rounds to one of them.
proof fn lemma_half_even_between(n: nat, d: nat, low: nat, high: nat)
    requires
        d > 0,
        low * d <= n <= high * d,
    ensures
        low <= half_even(n, d) <= high,
{
    let q = n / d;
    let r = n % d;
    lemma_fundamental_div_mod(n as int, d as int);
    assert(low <= q) by (nonlinear_arith)
        requires
            low * d <= n,
            n == d * q + r,
            r < d,
            d > 0,
    ;
    assert(q <= high && (q == high ==> r == 0)) by (nonlinear_arith)
        requires
            n <= high * d,
            n == d * q + r,
            0 <= r < d,
            d > 0,
    ;
}

proof fn lemma_nearest_increases_alike(n: nat, k: nat, d: nat)
    requires
        n <= k,
        d > 0,
    ensures
        nearest(n, d) <= nearest(k, d),
{
    let s = doublings_for(n, d);
    let t = doublings_for(k, d);
    lemma_doublings_bounds(n, d);
    lemma_doublings_bounds(k, d);
    lemma_pow2_pos(s);
    lemma_pow2_pos(t);
    let v = pow2(s);
    let w = pow2(t);
    assert(d * v > 0 && d * w > 0) by (nonlinear_arith)
        requires
            d > 0,
            v > 0,
            w > 0,
    ;
    if s == t {
        lemma_half_even_increases(n, k, d * v);
    } else if s < t {
        assert(0 * (d * v) <= n <= PRECISION * (d * v)) by (nonlinear_arith)
            requires
                n < d * PRECISION * v,
        ;
        lemma_half_even_between(n, d * v, 0, PRECISION as nat);
        lemma_pow2_unfold(t);
        let u = pow2((t - 1) as nat);
        assert(BINADE * (d * w) <= k) by (nonlinear_arith)
            requires
                k >= d * 0x100_0000 * u,
                w == 2 * u,
                BINADE == 0x80_0000,
        ;
        assert(k <= k * (d * w)) by (nonlinear_arith)
            requires
                d * w >= 1,
        ;
        lemma_half_even_between(k, d * w, BINADE as nat, k);
        assert(t * BINADE >= s * BINADE + BINADE) by (nonlinear_arith)
            requires
                t >= s + 1,
        ;
    } else {
        lemma_pow2_unfold(s);
        let u = pow2((s - 1) as nat);
        if t < s - 1 {
            lemma_pow2_strictly_increases(t, (s - 1) as nat);
        }
        assert(d * PRECISION * w <= d * PRECISION * u) by (nonlinear_arith)
            requires
                w <= u,
        ;
        assert(false);
    }
}

/// Rounding keeps order.
pub proof fn lemma_nearest_increases(n: nat, d: nat, k: nat, e: nat)
    requires
        d > 0,
        e > 0,
        n * e <= k * d,
    ensures
        nearest(n, d) <= nearest(k, e),
{
    lemma_nearest_scale(n, d, e);
    lemma_nearest_scale(k, e, d);
    assert(d * e > 0) by (nonlinear_arith)
        requires
            d > 0,
            e > 0,
    ;
    assert(e * d == d * e) by (nonlinear_arith);
    lemma_nearest_increases_alike(n * e, k * d, d * e);
}

/// What can be represented is rounded to itself, and what is infinite stays so.
pub proof fn lemma_nearest_exact(m: nat)
    requires
        m <= INFINITE,
    ensures
        nearest(units(m), 1) == m,
{
    if m < INFINITE {
        lemma_nearest_close(m, 0);
    } else {
        let k = (INFINITE - 1) as nat;
        lemma_nearest_close(k, 0);
        lemma_units_increase(k, m);
        lemma_magnitude_parts(m);
        let w = pow2(254);
        lemma_pow2_pos(254);
        assert(m / BINADE as nat == 255 && m % BINADE as nat == 0);
        assert(doublings(m) == 254 && significand(m) == BINADE);
        let n = units(m);
        assert(n == BINADE * w);
        lemma_doublings_bounds(n, 1);
        let s = doublings_for(n, 1);
        lemma_pow2_unfold(254);
        lemma_pow2_pos(s);
        let v = pow2(s);
        if s < 254 {
            if s < 253 {
                lemma_pow2_strictly_increases(s, 253);
            }
            assert(1 * PRECISION * v <= BINADE * w) by (nonlinear_arith)
                requires
                    w == 2 * pow2(253),
                    v <= pow2(253),
                    PRECISION == 2 * BINADE,
            ;
            assert(false);
        }
        assert(s >= 254);
        assert(s * BINADE >= 254 * BINADE) by (nonlinear_arith)
            requires
                s >= 254,
        ;
        if s == 254 {
            assert(BINADE * (1 * v) <= n <= BINADE * (1 * v));
            lemma_half_even_between(n, 1 * v, BINADE as nat, BINADE as nat);
        } else {
            assert(s * BINADE >= 255 * BINADE) by (nonlinear_arith)
                requires
                    s >= 255,
            ;
        }
    }
}

/// An amount of at most `units(m)` rounds to at most `m`, and one of at least that to at least
/// `m`.
pub proof fn lemma_nearest_against(n: nat, d: nat, m: nat)
    requires
        d > 0,
        m <= INFINITE,
    ensures
        n <= units(m) * d ==> nearest(n, d) <= m,
        n >= units(m) * d ==> nearest(n, d) >= m,
{
    lemma_nearest_exact(m);
    if n <= units(m) * d {
        assert(n * 1 <= units(m) * d) by (nonlinear_arith)
            requires
                n <= units(m) * d,
        ;
        lemma_nearest_increases(n, d, units(m), 1);
    }
    if n >= units(m) * d {
        assert(units(m) * d <= n * 1) by (nonlinear_arith)
            requires
                n >= units(m) * d,
        ;
        lemma_nearest_increases(units(m), 1, n, d);
    }
}

} // verus!
