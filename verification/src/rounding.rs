//! Rounding of exact quotients to the binary32 grid, to nearest with ties to even.
//!
//! The grid is indexed by the magnitude bits of a binary32 number (all bits but the sign). Exact
//! amounts are counted in units of the smallest positive number of the format.
use vstd::arithmetic::div_mod::{lemma_fundamental_div_mod, lemma_fundamental_div_mod_converse};
use vstd::arithmetic::power2::{
    lemma2_to64, lemma_pow2_adds, lemma_pow2_pos, lemma_pow2_strictly_increases, lemma_pow2_unfold,
    pow2,
};
use vstd::prelude::*;

verus! {

/// The number of magnitudes that share one exponent.
pub const BINADE: u32 = 0x80_0000;

/// The number of integers that a significand can tell apart.
pub const PRECISION: u32 = 0x100_0000;

/// The magnitude bits of infinity.
pub const INFINITE: u32 = 0x7f80_0000;

/// How many times the spacing of the grid has doubled at magnitude `m`.
pub open spec fn doublings(m: nat) -> nat {
    if m < PRECISION {
        0
    } else {
        (m / BINADE as nat - 1) as nat
    }
}

/// The significand at magnitude `m`, as an integer.
pub open spec fn significand(m: nat) -> nat {
    if m < PRECISION {
        m
    } else {
        m % BINADE as nat + BINADE as nat
    }
}

/// What the magnitude `m` stands for, in units.
pub open spec fn units(m: nat) -> nat {
    significand(m) * pow2(doublings(m))
}

/// The integer nearest to `n / d`; of two equally near, the even one.
pub open spec fn half_even(n: nat, d: nat) -> nat {
    let q = n / d;
    let r = n % d;
    if 2 * r < d || (2 * r == d && q % 2 == 0) {
        q
    } else {
        q + 1
    }
}

/// How many doublings the grid needs so that `n / d` spans at most a full significand.
pub open spec fn doublings_for(n: nat, d: nat) -> nat
    decreases (if n >= d { n - d } else { 0 }),
{
    if d == 0 || n < d * PRECISION {
        0
    } else {
        1 + doublings_for(n, 2 * d)
    }
}

/// The magnitude nearest to `n / d` units, ties to even, infinity when out of range.
pub open spec fn nearest(n: nat, d: nat) -> nat {
    let s = doublings_for(n, d);
    let m = s * BINADE as nat + half_even(n, d * pow2(s));
    if m >= INFINITE {
        INFINITE as nat
    } else {
        m
    }
}

/// [`nearest`] of `p` times two to the power `x`.
pub open spec fn nearest_scaled(p: nat, x: int) -> nat {
    if x >= 0 {
        nearest(p * pow2(x as nat), 1)
    } else {
        nearest(p, pow2((-x) as nat))
    }
}

pub proof fn lemma_half_even(n: nat, d: nat, q: nat, r: nat)
    requires
        n == q * d + r,
        r < d,
    ensures
        n / d == q,
        n % d == r,
        2 * r < d ==> half_even(n, d) == q,
        2 * r > d ==> half_even(n, d) == q + 1,
        2 * r == d ==> half_even(n, d) == q + q % 2,
{
    lemma_fundamental_div_mod_converse(n as int, d as int, q as int, r as int);
}

pub proof fn lemma_half_even_scale(n: nat, d: nat, c: nat)
    requires
        d > 0,
        c > 0,
    ensures
        half_even(n * c, d * c) == half_even(n, d),
{
    let q = n / d;
    let r = n % d;
    lemma_fundamental_div_mod(n as int, d as int);
    lemma_half_even(n, d, q, r);
    assert(n * c == q * (d * c) + r * c) by (nonlinear_arith)
        requires
            n == d * q + r,
    ;
    assert(r * c < d * c) by (nonlinear_arith)
        requires
            r < d,
            c > 0,
    ;
    assert(2 * (r * c) < d * c <==> 2 * r < d) by (nonlinear_arith)
        requires
            c > 0,
    ;
    assert(2 * (r * c) == d * c <==> 2 * r == d) by (nonlinear_arith)
        requires
            c > 0,
    ;
    lemma_half_even(n * c, d * c, q, r * c);
}

/// [`doublings_for`] is the smallest number of doublings that suffices.
pub proof fn lemma_doublings_bounds(n: nat, d: nat)
    requires
        d > 0,
    ensures
        n < d * PRECISION * pow2(doublings_for(n, d)),
        doublings_for(n, d) > 0 ==> n >= d * PRECISION * pow2((doublings_for(n, d) - 1) as nat),
    decreases (if n >= d { n - d } else { 0 }),
{
    lemma2_to64();
    if n < d * PRECISION {
        assert(d * PRECISION * 1 == d * PRECISION) by (nonlinear_arith);
    } else {
        lemma_doublings_bounds(n, 2 * d);
        let s = doublings_for(n, 2 * d);
        lemma_pow2_unfold(s + 1);
        assert(2 * d * PRECISION * pow2(s) == d * PRECISION * (2 * pow2(s))) by (nonlinear_arith);
        if s > 0 {
            lemma_pow2_unfold(s);
            let h = pow2((s - 1) as nat);
            assert(2 * d * PRECISION * h == d * PRECISION * (2 * h)) by (nonlinear_arith);
        } else {
            assert(d * PRECISION * 1 == d * PRECISION) by (nonlinear_arith);
        }
    }
}

pub proof fn lemma_doublings(n: nat, d: nat, s: nat)
    requires
        d > 0,
        n < d * PRECISION * pow2(s),
        s > 0 ==> n >= d * PRECISION * pow2((s - 1) as nat),
    ensures
        doublings_for(n, d) == s,
{
    let t = doublings_for(n, d);
    lemma_doublings_bounds(n, d);
    if t < s {
        if t < s - 1 {
            lemma_pow2_strictly_increases(t, (s - 1) as nat);
        }
        let a = pow2(t);
        let b = pow2((s - 1) as nat);
        assert(d * PRECISION * a <= d * PRECISION * b) by (nonlinear_arith)
            requires
                a <= b,
        ;
    } else if t > s {
        if s < t - 1 {
            lemma_pow2_strictly_increases(s, (t - 1) as nat);
        }
        let a = pow2(s);
        let b = pow2((t - 1) as nat);
        assert(d * PRECISION * a <= d * PRECISION * b) by (nonlinear_arith)
            requires
                a <= b,
        ;
    }
}

/// Only the quotient matters.
pub proof fn lemma_nearest_scale(n: nat, d: nat, c: nat)
    requires
        d > 0,
        c > 0,
    ensures
        nearest(n * c, d * c) == nearest(n, d),
{
    let s = doublings_for(n, d);
    lemma_doublings_bounds(n, d);
    let a = pow2(s);
    lemma_pow2_pos(s);
    assert(d * c > 0) by (nonlinear_arith)
        requires
            d > 0,
            c > 0,
    ;
    assert(n * c < d * c * PRECISION * a) by (nonlinear_arith)
        requires
            n < d * PRECISION * a,
            c > 0,
    ;
    if s > 0 {
        let b = pow2((s - 1) as nat);
        assert(n * c >= d * c * PRECISION * b) by (nonlinear_arith)
            requires
                n >= d * PRECISION * b,
                c > 0,
        ;
    }
    lemma_doublings(n * c, d * c, s);
    assert(d * a > 0) by (nonlinear_arith)
        requires
            d > 0,
            a > 0,
    ;
    assert(d * c * a == (d * a) * c) by (nonlinear_arith);
    lemma_half_even_scale(n, d * a, c);
}


proof fn lemma_shl_one(k: u128)
    requires
        k < 128,
    ensures
        1u128 << k == pow2(k as nat),
    decreases k,
{
    lemma2_to64();
    if k == 0 {
        assert(1u128 << 0u128 == 1u128) by (bit_vector);
    } else {
        let j: u128 = (k - 1) as u128;
        lemma_shl_one(j);
        lemma_pow2_unfold(k as nat);
        assert(1u128 << k == 2 * (1u128 << j)) by (bit_vector)
            requires
                k < 128,
                k == j + 1,
        ;
    }
}

pub fn power_of_two(k: u32) -> (d: u128)
    requires
        k < 128,
    ensures
        d == pow2(k as nat),
{
    proof {
        lemma_shl_one(k as u128);
    }
    1u128 << (k as u128)
}

/// The number of binary digits of `p`.
fn digits(p: u128) -> (l: u32)
    requires
        0 < p,
        p < 0x8000_0000_0000_0000_0000_0000_0000_0000,
    ensures
        1 <= l <= 127,
        pow2((l - 1) as nat) <= p < pow2(l as nat),
{
    proof {
        lemma2_to64();
        lemma_pow2_adds(64, 63);
        assert(pow2(63) == 0x8000_0000_0000_0000) by {
            lemma_pow2_unfold(64);
        }
    }
    let mut l: u32 = if p >= 0x1_0000_0000_0000_0000 {
        65
    } else {
        1
    };
    let mut rest: u128 = p;
    if p >= 0x1_0000_0000_0000_0000 {
        rest = p / 0x1_0000_0000_0000_0000;
    }
    proof {
        let a = pow2((l - 1) as nat);
        if p >= 0x1_0000_0000_0000_0000 {
            lemma_fundamental_div_mod(p as int, 0x1_0000_0000_0000_0000);
            assert(a == 0x1_0000_0000_0000_0000);
        } else {
            assert(a == 1);
        }
        assert(a * rest <= p < a * (rest + 1)) by (nonlinear_arith)
            requires
                a == 1 && rest == p || a == 0x1_0000_0000_0000_0000 && rest == p
                    / 0x1_0000_0000_0000_0000,
        ;
    }
    while rest > 1
        invariant
            1 <= l <= 127,
            1 <= rest,
            rest == 1 || l < 127,
            pow2((l - 1) as nat) * rest <= p < pow2((l - 1) as nat) * (rest + 1),
            p < pow2(127),
        decreases rest,
    {
        let half = rest / 2;
        proof {
            lemma_pow2_unfold(l as nat);
            let a = pow2((l - 1) as nat);
            lemma_pow2_pos((l - 1) as nat);
            assert(2 * a * half <= p < 2 * a * (half + 1)) by (nonlinear_arith)
                requires
                    a * rest <= p < a * (rest + 1),
                    half == rest / 2,
                    a > 0,
            ;
            if l + 1 == 127 && half > 1 {
                lemma_pow2_unfold(127);
                assert(2 * a * half >= 2 * (2 * a)) by (nonlinear_arith)
                    requires
                        half >= 2,
                        a > 0,
                ;
            }
        }
        rest = half;
        l = l + 1;
    }
    proof {
        lemma_pow2_unfold(l as nat);
        let a = pow2((l - 1) as nat);
        assert(a * rest == a && a * (rest + 1) == 2 * a) by (nonlinear_arith)
            requires
                rest == 1,
        ;
    }
    l
}

/// `p` divided by two to the power `shift`, rounded to an integer.
fn shift_half_even(p: u128, shift: u32) -> (k: u128)
    requires
        p < 0x8000_0000_0000_0000_0000_0000_0000_0000,
        0 < shift,
    ensures
        k == half_even(p as nat, pow2(shift as nat)),
        k <= p + 1,
{
    proof {
        lemma2_to64();
        lemma_pow2_unfold(64);
        lemma_pow2_adds(64, 63);
    }
    if shift >= 128 {
        proof {
            lemma_pow2_unfold(128);
            if shift > 128 {
                lemma_pow2_strictly_increases(128, shift as nat);
            }
            lemma_half_even(p as nat, pow2(shift as nat), 0, p as nat);
        }
        return 0;
    }
    proof {
        if shift < 127 {
            lemma_pow2_strictly_increases(shift as nat, 127);
        }
    }
    let d: u128 = power_of_two(shift);
    proof {
        lemma_pow2_pos(shift as nat);
    }
    let q: u128 = p / d;
    let r: u128 = p % d;
    proof {
        lemma_pow2_unfold(shift as nat);
        lemma_fundamental_div_mod(p as int, d as int);
        assert(q * d + r == d * q + r) by (nonlinear_arith);
        assert(q <= p) by (nonlinear_arith)
            requires
                p == d * q + r,
                d > 0,
                r >= 0,
                q >= 0,
        ;
        lemma_half_even(p as nat, d as nat, q as nat, r as nat);
    }
    let half: u128 = d / 2;
    if r < half || (r == half && q % 2 == 0) {
        q
    } else {
        q + 1
    }
}

/// The rounding of `p` times two to the power `x`, given the binary digits `l` of `p`.
proof fn lemma_nearest_scaled(p: nat, x: int, l: nat, s: nat)
    requires
        1 <= l,
        pow2((l - 1) as nat) <= p < pow2(l),
        s == if l + x > 24 {
            l + x - 24
        } else {
            0
        },
    ensures
        s > x ==> nearest_scaled(p, x) == {
            let m = s * BINADE + half_even(p, pow2((s - x) as nat));
            if m >= INFINITE {
                INFINITE as int
            } else {
                m
            }
        },
        s <= x ==> p * pow2((x - s) as nat) < PRECISION,
        s <= x ==> nearest_scaled(p, x) == {
            let m = s * BINADE + p * pow2((x - s) as nat);
            if m >= INFINITE {
                INFINITE as int
            } else {
                m
            }
        },
{
    lemma2_to64();
    let g = pow2(24);
    assert(g == PRECISION);
    lemma_pow2_pos(s);
    lemma_pow2_adds(24, s);
    if s > 0 {
        lemma_pow2_adds(24, (s - 1) as nat);
    }
    if x >= 0 {
        let a = pow2(x as nat);
        lemma_pow2_pos(x as nat);
        let n = p * a;
        lemma_pow2_adds(l, x as nat);
        assert(n < pow2(l) * a) by (nonlinear_arith)
            requires
                p < pow2(l),
                a > 0,
                n == p * a,
        ;
        if l + x < 24 + s {
            lemma_pow2_strictly_increases((l + x) as nat, 24 + s);
        }
        assert(1 * PRECISION * pow2(s) == g * pow2(s)) by (nonlinear_arith)
            requires
                g == PRECISION,
        ;
        if s > 0 {
            lemma_pow2_adds((l - 1) as nat, x as nat);
            assert(n >= pow2((l - 1) as nat) * a) by (nonlinear_arith)
                requires
                    p >= pow2((l - 1) as nat),
                    n == p * a,
            ;
            assert((l - 1) as nat + x as nat == 24 + (s - 1) as nat);
            let b = pow2((s - 1) as nat);
            assert(1 * PRECISION * b == g * b) by (nonlinear_arith)
                requires
                    g == PRECISION,
            ;
        }
        lemma_doublings(n, 1, s);
        assert(1 * pow2(s) == pow2(s)) by (nonlinear_arith);
        if s > x {
            let shift = (s - x) as nat;
            lemma_pow2_adds(shift, x as nat);
            lemma_pow2_pos(shift);
            assert(shift + x as nat == s);
            lemma_half_even_scale(p, pow2(shift), a);
        } else {
            let lift = (x - s) as nat;
            lemma_pow2_adds(lift, s);
            let e = p * pow2(lift);
            assert(n == e * pow2(s)) by (nonlinear_arith)
                requires
                    n == p * a,
                    a == pow2(lift) * pow2(s),
                    e == p * pow2(lift),
            ;
            lemma_half_even(n, pow2(s), e, 0);
            assert(e < g) by (nonlinear_arith)
                requires
                    n == e * pow2(s),
                    n < g * pow2(s),
                    pow2(s) > 0,
            ;
        }
    } else {
        let z = (-x) as nat;
        let d = pow2(z);
        lemma_pow2_pos(z);
        lemma_pow2_adds(z, 24 + s);
        if l < z + 24 + s {
            lemma_pow2_strictly_increases(l, z + (24 + s));
        }
        assert(d * PRECISION * pow2(s) == d * (g * pow2(s))) by (nonlinear_arith)
            requires
                g == PRECISION,
        ;
        if s > 0 {
            let b = pow2((s - 1) as nat);
            lemma_pow2_adds(z, 24 + (s - 1) as nat);
            assert(z + (24 + (s - 1) as nat) == (l - 1) as nat);
            assert(d * PRECISION * b == d * (g * b)) by (nonlinear_arith)
                requires
                    g == PRECISION,
            ;
        }
        lemma_doublings(p, d, s);
        lemma_pow2_adds(z, s);
    }
}

/// Rounds `p` times two to the power `x` to the nearest magnitude.
pub fn round_scaled(p: u128, x: i32) -> (m: u32)
    requires
        p < 0x8000_0000_0000_0000_0000_0000_0000_0000,
        -1000 <= x <= 1000,
    ensures
        m == nearest_scaled(p as nat, x as int),
        m <= INFINITE,
{
    if p == 0 {
        proof {
            if x >= 0 {
                assert(0 * pow2(x as nat) == 0) by (nonlinear_arith);
                lemma_nearest_zero(1);
            } else {
                lemma_pow2_pos((-x) as nat);
                lemma_nearest_zero(pow2((-x) as nat));
            }
        }
        return 0;
    }
    let l: i32 = digits(p) as i32;
    let s: i32 = if l + x > 24 {
        l + x - 24
    } else {
        0
    };
    proof {
        lemma_nearest_scaled(p as nat, x as int, l as nat, s as nat);
        lemma2_to64();
    }
    let k: u128 = if s > x {
        shift_half_even(p, (s - x) as u32)
    } else {
        proof {
            let lift = (x - s) as nat;
            assert(pow2(lift) <= p * pow2(lift)) by (nonlinear_arith)
                requires
                    p >= 1,
            ;
            if lift >= 24 {
                if lift > 24 {
                    lemma_pow2_strictly_increases(24, lift);
                }
            }
            assert(lift < 24);
        }
        p * power_of_two((x - s) as u32)
    };
    let m: u128 = s as u128 * BINADE as u128 + k;
    if m >= INFINITE as u128 {
        INFINITE
    } else {
        m as u32
    }
}

pub proof fn lemma_nearest_zero(d: nat)
    requires
        d > 0,
    ensures
        nearest(0, d) == 0,
{
    lemma2_to64();
    assert(d * PRECISION > 0) by (nonlinear_arith)
        requires
            d > 0,
    ;
    assert(doublings_for(0, d) == 0);
    assert(d * pow2(0) == d) by (nonlinear_arith)
        requires
            pow2(0) == 1,
    ;
    lemma_half_even(0, d, 0, 0);
}

/// A magnitude is its exponent's share plus its significand.
pub proof fn lemma_magnitude_parts(m: nat)
    ensures
        m == doublings(m) * BINADE + significand(m),
        significand(m) < PRECISION,
        doublings(m) > 0 ==> significand(m) >= BINADE,
        m < INFINITE ==> doublings(m) <= 253,
{
    if m >= PRECISION {
        let q = m / BINADE as nat;
        assert(m == q * BINADE + m % BINADE as nat && q >= 2) by (nonlinear_arith)
            requires
                q == m / 0x80_0000,
                m >= 0x100_0000,
        ;
        if m < INFINITE {
            assert(q <= 254) by (nonlinear_arith)
                requires
                    q == m / 0x80_0000,
                    m < 0x7f80_0000,
            ;
        }
    }
}

/// Scaling numerator and denominator by powers of two.
pub proof fn lemma_nearest_ratio(p: nat, e: nat, f: nat)
    ensures
        nearest(p * pow2(e), pow2(f)) == nearest_scaled(p, e - f),
{
    lemma_pow2_pos(e);
    lemma_pow2_pos(f);
    if e >= f {
        let g = (e - f) as nat;
        lemma_pow2_adds(g, f);
        lemma_nearest_scale(p * pow2(g), 1, pow2(f));
        assert(p * pow2(e) == p * pow2(g) * pow2(f)) by (nonlinear_arith)
            requires
                pow2(e) == pow2(g) * pow2(f),
        ;
    } else {
        let g = (f - e) as nat;
        lemma_pow2_adds(g, e);
        lemma_pow2_pos(g);
        lemma_nearest_scale(p, pow2(g), pow2(e));
    }
}

/// An amount that is a quarter of the spacing or less away from a magnitude rounds to it.
pub proof fn lemma_nearest_close(m: nat, t: nat)
    requires
        m < INFINITE,
        t == 0 || 4 * t < pow2(doublings(m)),
    ensures
        nearest(units(m) + t, 1) == m,
        t <= units(m) ==> nearest((units(m) - t) as nat, 1) == m,
{
    lemma2_to64();
    lemma_magnitude_parts(m);
    let s = doublings(m);
    let k = significand(m);
    let u = pow2(s);
    lemma_pow2_pos(s);
    let n = units(m);
    if s > 0 {
        lemma_pow2_unfold(s);
    }
    assert(t < u && 2 * t < u);
    assert(n + t < 1 * PRECISION * u) by (nonlinear_arith)
        requires
            n == k * u,
            k < PRECISION,
            t < u,
    ;
    if s > 0 {
        let b = pow2((s - 1) as nat);
        assert(n >= 1 * PRECISION * b) by (nonlinear_arith)
            requires
                n == k * u,
                u == 2 * b,
                k >= 0x80_0000,
        ;
    }
    lemma_doublings(n + t, 1, s);
    assert(1 * u == u) by (nonlinear_arith);
    lemma_half_even(n + t, u, k, t);
    if t == 0 {
    } else if k > BINADE || s == 0 {
        if s > 0 {
            let b = pow2((s - 1) as nat);
            assert(n - t >= 1 * PRECISION * b) by (nonlinear_arith)
                requires
                    n == k * u,
                    u == 2 * b,
                    k > 0x80_0000,
                    t < u,
            ;
            lemma_doublings((n - t) as nat, 1, s);
            assert(n - t == (k - 1) * u + (u - t)) by (nonlinear_arith)
                requires
                    n == k * u,
            ;
            lemma_half_even((n - t) as nat, u, (k - 1) as nat, (u - t) as nat);
        }
    } else {
        let z = (s - 1) as nat;
        let b = pow2(z);
        assert(n == PRECISION * b) by (nonlinear_arith)
            requires
                n == k * u,
                u == 2 * b,
                k == 0x80_0000,
        ;
        assert(n - t < 1 * PRECISION * b);
        assert(z > 0) by {
            if z == 0 {
                assert(u == 2);
            }
        }
        lemma_pow2_unfold(z);
        let c = pow2((z - 1) as nat);
        assert(n - t >= 1 * PRECISION * c);
        lemma_doublings((n - t) as nat, 1, z);
        assert(1 * b == b) by (nonlinear_arith);
        assert(n - t == (PRECISION - 1) * b + (b - t)) by (nonlinear_arith)
            requires
                n == PRECISION * b,
        ;
        lemma_half_even((n - t) as nat, b, (PRECISION - 1) as nat, (b - t) as nat);
    }
}

/// One extra digit that says whether anything was cut off decides a rounding as the rest would.
pub proof fn lemma_half_even_sticky(n: nat, d: nat, q: nat, r: nat, h: nat)
    requires
        n == q * d + r,
        r < d,
        h >= 1,
    ensures
        half_even(n, d * pow2(h)) == half_even(2 * q + if r > 0 { 1nat } else { 0 }, pow2(h + 1)),
{
    let cut: nat = if r > 0 {
        1
    } else {
        0
    };
    let c = pow2(h);
    lemma_pow2_pos(h);
    lemma_pow2_unfold(h);
    lemma_pow2_unfold(h + 1);
    let a = q / c;
    let w = q % c;
    lemma_fundamental_div_mod(q as int, c as int);
    assert(n == a * (d * c) + (w * d + r)) by (nonlinear_arith)
        requires
            n == q * d + r,
            q == c * a + w,
    ;
    assert(w * d + r < d * c) by (nonlinear_arith)
        requires
            w <= c - 1,
            r < d,
    ;
    lemma_half_even(n, d * c, a, w * d + r);
    assert(2 * q + cut == a * (2 * c) + (2 * w + cut)) by (nonlinear_arith)
        requires
            q == c * a + w,
    ;
    lemma_half_even(2 * q + cut, 2 * c, a, 2 * w + cut);
    let b = pow2((h - 1) as nat);
    assert(w < b ==> 2 * (w * d + r) < d * c) by (nonlinear_arith)
        requires
            c == 2 * b,
            r < d,
    ;
    assert(w > b ==> 2 * (w * d + r) > d * c) by (nonlinear_arith)
        requires
            c == 2 * b,
            d > 0,
            r >= 0,
    ;
    assert(w == b ==> 2 * (w * d + r) == d * c + 2 * r) by (nonlinear_arith)
        requires
            c == 2 * b,
    ;
}

/// A truncated quotient with one such digit rounds as the exact quotient does.
pub proof fn lemma_nearest_sticky(n: nat, d: nat, q: nat, r: nat, u: nat, v: nat)
    requires
        n == q * d + r,
        r < d,
        q >= 0x200_0000,
    ensures
        nearest(n * pow2(u), d * pow2(v)) == nearest_scaled(
            2 * q + if r > 0 { 1nat } else { 0 },
            u - v - 1,
        ),
{
    let p: nat = 2 * q + if r > 0 {
        1nat
    } else {
        0
    };
    lemma2_to64();
    lemma_nearest_ratio(p, u, v + 1);
    let uu = pow2(u);
    lemma_pow2_pos(u);
    lemma_pow2_pos(v);
    lemma_pow2_pos(v + 1);
    let s = doublings_for(p * uu, pow2(v + 1));
    lemma_doublings_bounds(p * uu, pow2(v + 1));
    lemma_pow2_pos(s);
    lemma_pow2_adds(v + 1, 24);
    lemma_pow2_adds(v + 25, s);
    assert(p * uu < pow2(v + 25 + s));
    if v + 25 + s <= u + 26 {
        if v + 25 + s < u + 26 {
            lemma_pow2_strictly_increases(v + 25 + s, u + 26);
        }
        lemma_pow2_adds(26, u);
        assert(p * uu >= pow2(26) * uu) by (nonlinear_arith)
            requires
                p >= 0x400_0000,
                pow2(26) == 0x400_0000,
        ;
        assert(false);
    }
    let g = (v + 24 + s - u) as nat;
    let gg = pow2(g);
    lemma_pow2_adds(g + 1, u);
    lemma_pow2_unfold(g + 1);
    assert(g + 1 + u == v + 25 + s);
    assert(p < 2 * gg) by (nonlinear_arith)
        requires
            p * uu < 2 * gg * uu,
            uu > 0,
    ;
    assert(n < d * gg) by (nonlinear_arith)
        requires
            n == q * d + r,
            r < d,
            q + 1 <= gg,
    ;
    let dv = d * pow2(v);
    assert(dv > 0) by (nonlinear_arith)
        requires
            d > 0,
            pow2(v) > 0,
            dv == d * pow2(v),
    ;
    lemma_pow2_adds(g, u);
    lemma_pow2_adds(v, 24);
    lemma_pow2_adds(v + 24, s);
    assert(g + u == v + 24 + s);
    assert(n * uu < dv * PRECISION * pow2(s)) by (nonlinear_arith)
        requires
            n < d * gg,
            uu > 0,
            gg * uu == pow2(v) * PRECISION * pow2(s),
            dv == d * pow2(v),
    ;
    lemma_pow2_unfold(g);
    if s > 0 {
        let t = (s - 1) as nat;
        let f = pow2((g - 1) as nat);
        lemma_pow2_adds((v + 25) as nat, t);
        assert(v + 25 + t == g + u);
        assert(pow2(v + 1) * PRECISION * pow2(t) == gg * uu);
        assert(p >= gg) by (nonlinear_arith)
            requires
                p * uu >= gg * uu,
                uu > 0,
        ;
        assert(q >= f);
        assert(n >= d * f) by (nonlinear_arith)
            requires
                n == q * d + r,
                q >= f,
        ;
        lemma_pow2_adds((g - 1) as nat, u);
        lemma_pow2_adds(v + 24, t);
        assert((g - 1) as nat + u == v + 24 + t);
        assert(n * uu >= dv * PRECISION * pow2(t)) by (nonlinear_arith)
            requires
                n >= d * f,
                f * uu == pow2(v) * PRECISION * pow2(t),
                dv == d * pow2(v),
        ;
    }
    lemma_doublings(n * uu, dv, s);
    let h = (g - 24) as nat;
    lemma_pow2_adds(v, s);
    lemma_pow2_adds(v + 1, s);
    lemma_pow2_adds(h, u);
    lemma_pow2_adds(h + 1, u);
    assert(h + u == v + s);
    assert(h + 1 + u == v + 1 + s);
    lemma_pow2_pos(h);
    lemma_pow2_pos(h + 1);
    assert(d * pow2(h) > 0) by (nonlinear_arith)
        requires
            d > 0,
            pow2(h) > 0,
    ;
    lemma_half_even_scale(n, d * pow2(h), uu);
    lemma_half_even_scale(p, pow2(h + 1), uu);
    assert(d * pow2(h) * uu == dv * pow2(s)) by (nonlinear_arith)
        requires
            pow2(h) * uu == pow2(v) * pow2(s),
            dv == d * pow2(v),
    ;
    lemma_half_even_sticky(n, d, q, r, h);
}

/// The integer part of the square root.
pub open spec fn floor_root(n: nat) -> nat {
    choose|q: nat| #[trigger] (q * q) <= n && n < (q + 1) * (q + 1)
}

/// The integer nearest to the square root of `n` divided by `d`; of two equally near, the even one.
pub open spec fn half_even_root(n: nat, d: nat) -> nat {
    let q = floor_root(n / (d * d));
    let middle = (2 * q + 1) * d;
    if 4 * n < middle * middle || (4 * n == middle * middle && q % 2 == 0) {
        q
    } else {
        q + 1
    }
}

/// Whether `s` doublings of the grid let the square root of `n` span at most a full significand.
pub open spec fn root_fits(n: nat, s: nat) -> bool {
    n < (PRECISION * pow2(s)) * (PRECISION * pow2(s))
}

/// The smallest such number of doublings.
pub open spec fn doublings_for_root(n: nat) -> nat {
    choose|s: nat| #[trigger] root_fits(n, s) && (s > 0 ==> !root_fits(n, (s - 1) as nat))
}

/// The magnitude nearest to the square root of `n`, in units, ties to even.
pub open spec fn nearest_root(n: nat) -> nat {
    let s = doublings_for_root(n);
    let m = s * BINADE as nat + half_even_root(n, pow2(s));
    if m >= INFINITE {
        INFINITE as nat
    } else {
        m
    }
}

proof fn lemma_squares(a: nat, b: nat)
    ensures
        a < b <==> a * a < b * b,
        a == b <==> a * a == b * b,
{
    assert(a < b ==> a * a < b * b) by (nonlinear_arith);
    assert(b < a ==> b * b < a * a) by (nonlinear_arith);
}

proof fn lemma_floor_root(n: nat, q: nat)
    requires
        q * q <= n < (q + 1) * (q + 1),
    ensures
        floor_root(n) == q,
{
    let p = floor_root(n);
    assert(p * p <= n && n < (p + 1) * (p + 1));
    lemma_squares(p, q + 1);
    lemma_squares(q, p + 1);
}

proof fn lemma_doublings_root(n: nat, s: nat)
    requires
        root_fits(n, s),
        s > 0 ==> !root_fits(n, (s - 1) as nat),
    ensures
        doublings_for_root(n) == s,
{
    let t = doublings_for_root(n);
    assert(root_fits(n, t) && (t > 0 ==> !root_fits(n, (t - 1) as nat)));
    if t < s {
        lemma_root_fits_more(n, t, (s - 1) as nat);
    } else if s < t {
        lemma_root_fits_more(n, s, (t - 1) as nat);
    }
}

proof fn lemma_root_fits_more(n: nat, s: nat, t: nat)
    requires
        root_fits(n, s),
        s <= t,
    ensures
        root_fits(n, t),
{
    if s < t {
        lemma_pow2_strictly_increases(s, t);
        let a = PRECISION * pow2(s);
        let b = PRECISION * pow2(t);
        lemma_squares(a as nat, b as nat);
    }
}

/// A truncated root with one digit that says whether anything was cut off rounds as the exact root
/// does.
pub proof fn lemma_nearest_root_sticky(n: nat, m: nat, q: nat, c: nat)
    requires
        n == m * (pow2(c) * pow2(c)),
        q * q <= m < (q + 1) * (q + 1),
        q >= 0x200_0000,
        c >= 1,
    ensures
        nearest_root(n) == nearest_scaled(2 * q + if m == q * q { 0nat } else { 1 }, c - 1),
{
    let cut: nat = if m == q * q {
        0
    } else {
        1
    };
    let p: nat = 2 * q + cut;
    let low = (c - 1) as nat;
    let cc = pow2(c);
    lemma2_to64();
    lemma_pow2_pos(c);
    lemma_pow2_pos(low);
    lemma_pow2_unfold(c);
    let x = p * pow2(low);
    let s = doublings_for(x, 1);
    lemma_doublings_bounds(x, 1);
    lemma_pow2_adds(24, s);
    assert(x < pow2(24 + s)) by {
        assert(1 * PRECISION * pow2(s) == pow2(24) * pow2(s)) by (nonlinear_arith)
            requires
                pow2(24) == PRECISION,
        ;
    }
    if 24 + s <= low + 26 {
        if 24 + s < low + 26 {
            lemma_pow2_strictly_increases(24 + s, low + 26);
        }
        lemma_pow2_adds(26, low);
        assert(x >= pow2(26) * pow2(low)) by (nonlinear_arith)
            requires
                p >= 0x400_0000,
                pow2(26) == 0x400_0000,
                x == p * pow2(low),
        ;
        assert(false);
    }
    let g = (24 + s - c) as nat;
    let gg = pow2(g);
    lemma_pow2_unfold(g + 1);
    lemma_pow2_adds(g + 1, low);
    assert(g + 1 + low == 24 + s);
    assert(p < 2 * gg) by (nonlinear_arith)
        requires
            p * pow2(low) < 2 * gg * pow2(low),
            pow2(low) > 0,
    ;
    lemma_pow2_adds(g, c);
    assert(g + c == 24 + s);
    let wide = PRECISION * pow2(s);
    assert(wide == gg * cc);
    assert(n < wide * wide) by (nonlinear_arith)
        requires
            n == m * (cc * cc),
            m < (q + 1) * (q + 1),
            q + 1 <= gg,
            cc > 0,
            wide == gg * cc,
    ;
    lemma_pow2_unfold(g);
    if s > 0 {
        let t = (s - 1) as nat;
        let f = pow2((g - 1) as nat);
        lemma_pow2_adds(24, t);
        lemma_pow2_adds(g, low);
        assert(g + low == 24 + t);
        assert(1 * PRECISION * pow2(t) == gg * pow2(low)) by (nonlinear_arith)
            requires
                pow2(24) == PRECISION,
                pow2(24) * pow2(t) == gg * pow2(low),
        ;
        assert(p >= gg) by (nonlinear_arith)
            requires
                p * pow2(low) >= gg * pow2(low),
                pow2(low) > 0,
        ;
        assert(q >= f);
        lemma_pow2_adds((g - 1) as nat, c);
        assert((g - 1) as nat + c == 24 + t);
        let narrow = PRECISION * pow2(t);
        assert(n >= narrow * narrow) by (nonlinear_arith)
            requires
                n == m * (cc * cc),
                m >= q * q,
                q >= f,
                narrow == f * cc,
        ;
    }
    lemma_doublings_root(n, s);
    let h = (g - 24) as nat;
    let k = pow2(h);
    lemma_pow2_pos(h);
    lemma_pow2_unfold(h);
    lemma_pow2_unfold(h + 1);
    lemma_pow2_adds(h, c);
    assert(h + c == s);
    let d = pow2(s);
    let a = q / k;
    let w = q % k;
    lemma_fundamental_div_mod(q as int, k as int);
    // The integer part.
    let kk = k * k;
    assert(a * a * kk <= m && m < (a + 1) * (a + 1) * kk) by (nonlinear_arith)
        requires
            q == k * a + w,
            w <= k - 1,
            q * q <= m < (q + 1) * (q + 1),
            kk == k * k,
    ;
    let v = cc * cc;
    assert(d * d == kk * v) by (nonlinear_arith)
        requires
            d == k * cc,
            kk == k * k,
            v == cc * cc,
    ;
    assert(kk > 0 && v > 0) by (nonlinear_arith)
        requires
            k > 0,
            cc > 0,
            kk == k * k,
            v == cc * cc,
    ;
    let whole = m / kk;
    lemma_fundamental_div_mod(m as int, kk as int);
    let rest = m % kk;
    assert(n == whole * (kk * v) + rest * v) by (nonlinear_arith)
        requires
            n == m * v,
            m == kk * whole + rest,
    ;
    assert(rest * v < kk * v) by (nonlinear_arith)
        requires
            rest < kk,
            v > 0,
    ;
    lemma_fundamental_div_mod_converse(n as int, (kk * v) as int, whole as int, (rest * v) as int);
    assert(a * a <= whole && whole < (a + 1) * (a + 1)) by (nonlinear_arith)
        requires
            m == kk * whole + rest,
            0 <= rest < kk,
            a * a * kk <= m,
            m < (a + 1) * (a + 1) * kk,
    ;
    lemma_floor_root(whole, a);
    // The rest against one half.
    let b = pow2((h - 1) as nat);
    let t = (2 * a + 1) * b;
    let middle = (2 * a + 1) * d;
    assert(middle * middle == 4 * (t * t) * v) by (nonlinear_arith)
        requires
            middle == (2 * a + 1) * d,
            t == (2 * a + 1) * b,
            d == k * cc,
            k == 2 * b,
            v == cc * cc,
    ;
    assert(4 * n < middle * middle <==> m < t * t) by (nonlinear_arith)
        requires
            n == m * v,
            v > 0,
            middle * middle == 4 * (t * t) * v,
    ;
    assert(4 * n == middle * middle <==> m == t * t) by (nonlinear_arith)
        requires
            n == m * v,
            v > 0,
            middle * middle == 4 * (t * t) * v,
    ;
    lemma_squares(q, t);
    lemma_squares(q + 1, t);
    assert(t == k * a + b) by (nonlinear_arith)
        requires
            t == (2 * a + 1) * b,
            k == 2 * b,
    ;
    assert(p == a * (2 * k) + (2 * w + cut)) by (nonlinear_arith)
        requires
            q == k * a + w,
            p == 2 * q + cut,
    ;
    lemma_half_even(p, 2 * k, a, 2 * w + cut);
    // The two roundings agree.
    lemma_pow2_adds(h + 1, low);
    assert(h + 1 + low == s);
    lemma_half_even_scale(p, pow2(h + 1), pow2(low));
    assert(1 * d == d) by (nonlinear_arith);
}

/// Every number has an integer part of its square root.
proof fn lemma_floor_root_exists(n: nat) -> (q: nat)
    ensures
        q * q <= n < (q + 1) * (q + 1),
    decreases n,
{
    if n == 0 {
        assert(0 * 0 == 0 && (0 + 1) * (0 + 1) == 1) by (nonlinear_arith);
        0
    } else {
        let p = lemma_floor_root_exists((n - 1) as nat);
        if n < (p + 1) * (p + 1) {
            p
        } else {
            let q = p + 1;
            assert(q * q < (q + 1) * (q + 1)) by (nonlinear_arith);
            assert(q * q == (p + 1) * (p + 1));
            q
        }
    }
}

/// Among the numbers of doublings that fit there is a smallest one.
proof fn lemma_doublings_root_exists(n: nat, s: nat) -> (t: nat)
    requires
        root_fits(n, s),
    ensures
        root_fits(n, t),
        t > 0 ==> !root_fits(n, (t - 1) as nat),
    decreases s,
{
    if s > 0 && root_fits(n, (s - 1) as nat) {
        lemma_doublings_root_exists(n, (s - 1) as nat)
    } else {
        s
    }
}

/// The number of doublings for a square root fits, and no smaller one does.
proof fn lemma_doublings_for_root(n: nat)
    ensures
        root_fits(n, doublings_for_root(n)),
        doublings_for_root(n) > 0 ==> !root_fits(n, (doublings_for_root(n) - 1) as nat),
{
    lemma_pow2_pos(n);
    lemma_pow2_grows(n);
    let p = PRECISION * pow2(n);
    assert(n < p * p) by (nonlinear_arith)
        requires
            p >= n + 1,
    ;
    assert(root_fits(n, n));
    let t = lemma_doublings_root_exists(n, n);
    lemma_doublings_root(n, t);
}

proof fn lemma_pow2_grows(n: nat)
    ensures
        pow2(n) >= n + 1,
    decreases n,
{
    lemma2_to64();
    if n > 0 {
        lemma_pow2_grows((n - 1) as nat);
        lemma_pow2_unfold(n);
    }
}

/// The rounded square root of at least a square is at least what was squared.
pub proof fn lemma_nearest_root_at_least(n: nat, m: nat)
    requires
        m <= INFINITE,
        n >= units(m) * units(m),
    ensures
        nearest_root(n) >= m,
{
    lemma_magnitude_parts(m);
    let t = doublings(m);
    let k = significand(m);
    lemma_doublings_for_root(n);
    let s = doublings_for_root(n);
    let d = pow2(s);
    let w = pow2(t);
    lemma_pow2_pos(s);
    lemma_pow2_pos(t);
    let base = n / (d * d);
    let q = lemma_floor_root_exists(base);
    lemma_floor_root(base, q);
    assert(d * d > 0) by (nonlinear_arith)
        requires
            d > 0,
    ;
    lemma_fundamental_div_mod(n as int, (d * d) as int);
    if s == t {
        assert(base >= k * k) by (nonlinear_arith)
            requires
                n >= (k * d) * (k * d),
                n == (d * d) * base + n % (d * d),
                n % (d * d) < d * d,
                d * d > 0,
        ;
        lemma_squares(k, q + 1);
    } else if t < s {
        let u = pow2((s - 1) as nat);
        lemma_pow2_unfold(s);
        assert(n >= (PRECISION * u) * (PRECISION * u));
        assert(base >= BINADE * BINADE) by (nonlinear_arith)
            requires
                n >= (0x100_0000 * u) * (0x100_0000 * u),
                d == 2 * u,
                n == (d * d) * base + n % (d * d),
                n % (d * d) < d * d,
                d * d > 0,
                BINADE == 0x80_0000,
        ;
        lemma_squares(BINADE as nat, q + 1);
        assert(s * BINADE >= t * BINADE + BINADE) by (nonlinear_arith)
            requires
                s >= t + 1,
        ;
    } else {
        lemma_pow2_unfold(s + 1);
        if s + 1 < t {
            lemma_pow2_strictly_increases(s + 1, t);
        }
        assert(PRECISION * d <= k * w) by (nonlinear_arith)
            requires
                PRECISION == 0x100_0000,
                k >= 0x80_0000,
                w >= 2 * d,
        ;
        let low = (PRECISION * d) as nat;
        let high = k * w;
        assert(low * low <= high * high) by (nonlinear_arith)
            requires
                low <= high,
        ;
        assert(false);
    }
}

/// Rounding to an integer is off by half at most.
pub proof fn lemma_half_even_error(n: nat, d: nat)
    requires
        d > 0,
    ensures
        2 * n <= 2 * (half_even(n, d) * d) + d,
        2 * (half_even(n, d) * d) <= 2 * n + d,
{
    let q = n / d;
    let r = n % d;
    lemma_fundamental_div_mod(n as int, d as int);
    assert(n == q * d + r && (q + 1) * d == q * d + d) by (nonlinear_arith)
        requires
            n == d * q + r,
    ;
}

/// The units of the magnitude with the given doublings and significand, which may be one too many.
proof fn lemma_units_of_parts(s: nat, k: nat)
    requires
        k <= PRECISION,
        s > 0 ==> k >= BINADE,
    ensures
        units(s * BINADE as nat + k) == k * pow2(s),
{
    let m = s * BINADE as nat + k;
    let w = pow2(s);
    lemma2_to64();
    if k == PRECISION {
        assert(m == (s + 2) * BINADE) by (nonlinear_arith)
            requires
                m == s * BINADE + 2 * BINADE,
        ;
        assert(m >= PRECISION && m / BINADE as nat == s + 2 && m % BINADE as nat == 0)
            by (nonlinear_arith)
            requires
                m == (s + 2) * 0x80_0000,
                BINADE == 0x80_0000,
                PRECISION == 0x100_0000,
        ;
        lemma_pow2_unfold(s + 1);
        assert(BINADE * pow2(s + 1) == k * w) by (nonlinear_arith)
            requires
                pow2(s + 1) == 2 * w,
                k == 2 * BINADE,
        ;
    } else if s > 0 {
        assert(m >= PRECISION && m / BINADE as nat == s + 1 && m % BINADE as nat == k - BINADE)
            by (nonlinear_arith)
            requires
                m == s * 0x80_0000 + k,
                s >= 1,
                0x80_0000 <= k < 0x100_0000,
                BINADE == 0x80_0000,
                PRECISION == 0x100_0000,
        ;
    }
}

/// A rounded amount, in units.
pub proof fn lemma_units_of_nearest(n: nat, d: nat)
    requires
        d > 0,
        nearest(n, d) < INFINITE,
    ensures
        units(nearest(n, d)) == half_even(n, d * pow2(doublings_for(n, d))) * pow2(
            doublings_for(n, d),
        ),
{
    let s = doublings_for(n, d);
    let w = pow2(s);
    let e = d * w;
    let k = half_even(n, e);
    lemma_doublings_bounds(n, d);
    lemma_pow2_pos(s);
    assert(e > 0) by (nonlinear_arith)
        requires
            e == d * w,
            d > 0,
            w > 0,
    ;
    lemma_half_even_error(n, e);
    assert(k <= PRECISION) by (nonlinear_arith)
        requires
            2 * (k * e) <= 2 * n + e,
            n < d * PRECISION * w,
            e == d * w,
            e > 0,
    ;
    if s > 0 {
        let u = pow2((s - 1) as nat);
        lemma_pow2_unfold(s);
        assert(k >= BINADE) by (nonlinear_arith)
            requires
                2 * n <= 2 * (k * e) + e,
                n >= d * PRECISION * u,
                w == 2 * u,
                e == d * w,
                e > 0,
                PRECISION == 2 * BINADE,
        ;
    }
    assert(nearest(n, d) == s * BINADE + k);
    lemma_units_of_parts(s, k);
}

/// The rounded square root of more than what lies half a place below a magnitude is at least that
/// magnitude.
pub proof fn lemma_nearest_root_above(n: nat, m: nat)
    requires
        m < INFINITE,
        significand(m) > BINADE,
        4 * n > ((2 * significand(m) - 1) * pow2(doublings(m))) * ((2 * significand(m) - 1) * pow2(
            doublings(m),
        )),
    ensures
        nearest_root(n) >= m,
{
    lemma_magnitude_parts(m);
    let t = doublings(m);
    let k = significand(m);
    lemma_doublings_for_root(n);
    let s = doublings_for_root(n);
    let d = pow2(s);
    let w = pow2(t);
    lemma_pow2_pos(s);
    lemma_pow2_pos(t);
    let base = n / (d * d);
    let q = lemma_floor_root_exists(base);
    lemma_floor_root(base, q);
    assert(d * d > 0) by (nonlinear_arith)
        requires
            d > 0,
    ;
    lemma_fundamental_div_mod(n as int, (d * d) as int);
    if s == t {
        let j = (k - 1) as nat;
        assert(base >= j * j) by (nonlinear_arith)
            requires
                4 * n > ((2 * k - 1) * d) * ((2 * k - 1) * d),
                n == (d * d) * base + n % (d * d),
                n % (d * d) < d * d,
                d * d > 0,
                j == k - 1,
                k >= 1,
        ;
        lemma_squares(j, q + 1);
        assert(q >= j);
        if q == j {
            assert(2 * q + 1 == 2 * k - 1);
        }
    } else if t < s {
        let u = pow2((s - 1) as nat);
        lemma_pow2_unfold(s);
        assert(n >= (PRECISION * u) * (PRECISION * u));
        assert(base >= BINADE * BINADE) by (nonlinear_arith)
            requires
                n >= (0x100_0000 * u) * (0x100_0000 * u),
                d == 2 * u,
                n == (d * d) * base + n % (d * d),
                n % (d * d) < d * d,
                d * d > 0,
                BINADE == 0x80_0000,
        ;
        lemma_squares(BINADE as nat, q + 1);
        assert(s * BINADE >= t * BINADE + BINADE) by (nonlinear_arith)
            requires
                s >= t + 1,
        ;
    } else {
        lemma_pow2_unfold(s + 1);
        if s + 1 < t {
            lemma_pow2_strictly_increases(s + 1, t);
        }
        let low = (PRECISION * d) as nat;
        let high = ((2 * k - 1) * w) as nat;
        assert(2 * low <= high) by (nonlinear_arith)
            requires
                low == 0x100_0000 * d,
                high == (2 * k - 1) * w,
                k >= 0x80_0001,
                w >= 2 * d,
                d > 0,
        ;
        assert(4 * (low * low) <= high * high) by (nonlinear_arith)
            requires
                2 * low <= high,
        ;
        assert(false);
    }
}

/// The square root of a finite number is finite.
#[verifier::spinoff_prover]
pub proof fn lemma_nearest_root_finite(n: nat, t: nat)
    requires
        root_fits(n, t),
        t <= 190,
    ensures
        nearest_root(n) < INFINITE,
{
    lemma_doublings_for_root(n);
    let s = doublings_for_root(n);
    if s > t {
        lemma_root_fits_more(n, t, (s - 1) as nat);
    }
    let d = pow2(s);
    lemma_pow2_pos(s);
    let base = n / (d * d);
    let q = lemma_floor_root_exists(base);
    lemma_floor_root(base, q);
    assert(d * d > 0) by (nonlinear_arith)
        requires
            d > 0,
    ;
    lemma_fundamental_div_mod(n as int, (d * d) as int);
    let r = n % (d * d);
    assert((q * d) * (q * d) <= n) by (nonlinear_arith)
        requires
            q * q <= base,
            n == (d * d) * base + r,
            r >= 0,
    ;
    assert(q < PRECISION) by (nonlinear_arith)
        requires
            (q * d) * (q * d) <= n,
            n < (PRECISION * d) * (PRECISION * d),
            d > 0,
    ;
    assert(half_even_root(n, d) <= PRECISION);
    assert(s * BINADE <= 190 * BINADE) by (nonlinear_arith)
        requires
            s <= 190,
    ;
}

/// How far the root of a large number is rounded.
pub proof fn lemma_nearest_root_error(n: nat)
    requires
        n >= PRECISION * PRECISION,
        nearest_root(n) < INFINITE,
    ensures
        ({
            let k = units(nearest_root(n));
            &&& (0x100_0000 * 0x100_0000) * n <= (0x100_0001 * k) * (0x100_0001 * k)
            &&& (0xff_ffff * k) * (0xff_ffff * k) <= (0x100_0000 * 0x100_0000) * n
        }),
{
    lemma2_to64();
    lemma_doublings_for_root(n);
    let s = doublings_for_root(n);
    let d = pow2(s);
    lemma_pow2_pos(s);
    assert(s > 0) by {
        if s == 0 {
            assert((PRECISION * 1) * (PRECISION * 1) == PRECISION * PRECISION);
        }
    }
    lemma_pow2_unfold(s);
    let half = pow2((s - 1) as nat);
    let base = n / (d * d);
    let q = lemma_floor_root_exists(base);
    lemma_floor_root(base, q);
    assert(d * d > 0) by (nonlinear_arith)
        requires
            d > 0,
    ;
    lemma_fundamental_div_mod(n as int, (d * d) as int);
    let r = n % (d * d);
    assert((q * d) * (q * d) <= n) by (nonlinear_arith)
        requires
            q * q <= base,
            n == (d * d) * base + r,
            r >= 0,
    ;
    assert(n < ((q + 1) * d) * ((q + 1) * d)) by (nonlinear_arith)
        requires
            base + 1 <= (q + 1) * (q + 1),
            n == (d * d) * base + r,
            r < d * d,
    ;
    assert(q < PRECISION) by (nonlinear_arith)
        requires
            (q * d) * (q * d) <= n,
            n < (PRECISION * d) * (PRECISION * d),
            d > 0,
    ;
    assert(q >= BINADE) by (nonlinear_arith)
        requires
            n < ((q + 1) * d) * ((q + 1) * d),
            n >= (PRECISION * half) * (PRECISION * half),
            d == 2 * half,
            half > 0,
            PRECISION == 2 * BINADE,
    ;
    let j = half_even_root(n, d);
    assert(q <= j <= q + 1);
    lemma_units_of_parts(s, j);
    let k = j * d;
    let low = ((2 * j - 1) * d) as nat;
    let high = (2 * j + 1) * d;
    assert(low * low <= 4 * n) by {
        if j == q {
            assert(low * low <= 4 * ((q * d) * (q * d))) by (nonlinear_arith)
                requires
                    low == (2 * q - 1) * d,
                    q >= 1,
            ;
        }
    }
    assert(4 * n <= high * high) by {
        if j == q + 1 {
            assert(4 * (((q + 1) * d) * ((q + 1) * d)) <= high * high) by (nonlinear_arith)
                requires
                    high == (2 * q + 3) * d,
            ;
        }
    }
    assert(0x100_0000 * high <= 2 * (0x100_0001 * k)) by (nonlinear_arith)
        requires
            high == (2 * j + 1) * d,
            k == j * d,
            j >= 0x80_0000,
    ;
    assert(2 * (0xff_ffff * k) <= 0x100_0000 * low) by (nonlinear_arith)
        requires
            low == (2 * j - 1) * d,
            k == j * d,
            j >= 0x80_0000,
    ;
    assert((0x100_0000 * 0x100_0000) * n <= (0x100_0001 * k) * (0x100_0001 * k))
        by (nonlinear_arith)
        requires
            0x100_0000 * high <= 2 * (0x100_0001 * k),
            4 * n <= high * high,
    ;
    assert((0xff_ffff * k) * (0xff_ffff * k) <= (0x100_0000 * 0x100_0000) * n)
        by (nonlinear_arith)
        requires
            2 * (0xff_ffff * k) <= 0x100_0000 * low,
            low * low <= 4 * n,
            k >= 0,
    ;
}

} // verus!
