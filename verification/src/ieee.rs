//! Binary32 arithmetic on bit patterns, in integers.
//!
//! Each operation is proved to return the exact result rounded to nearest, ties to even. Every
//! result that is not a number is the one quiet pattern [`NAN`].
use crate::rounding::{
    doublings, lemma_magnitude_parts, lemma_nearest_close, lemma_nearest_ratio,
    lemma_nearest_root_sticky, lemma_nearest_sticky, lemma_nearest_zero, nearest, nearest_root,
    power_of_two, round_scaled, significand, units, BINADE, INFINITE, PRECISION,
};
use vstd::arithmetic::div_mod::lemma_fundamental_div_mod;
use vstd::arithmetic::power2::{
    lemma2_to64, lemma_pow2_adds, lemma_pow2_pos, lemma_pow2_strictly_increases, lemma_pow2_unfold,
    pow2,
};
use vstd::prelude::*;

verus! {

/// The sign bit.
pub const SIGN: u32 = 0x8000_0000;

/// The quiet pattern that stands for every result that is not a number.
pub const NAN: u32 = 0x7fc0_0000;

/// Whether the sign bit is set.
pub open spec fn is_negative(b: u32) -> bool {
    b >= SIGN
}

/// All bits but the sign.
pub open spec fn magnitude(b: u32) -> nat {
    if b >= SIGN {
        (b - SIGN) as nat
    } else {
        b as nat
    }
}

pub open spec fn is_nan(b: u32) -> bool {
    magnitude(b) > INFINITE
}

pub open spec fn is_infinite(b: u32) -> bool {
    magnitude(b) == INFINITE
}

pub open spec fn is_finite(b: u32) -> bool {
    magnitude(b) < INFINITE
}

/// The number that a pattern stands for, in units.
pub open spec fn value(b: u32) -> int {
    if is_negative(b) {
        -(units(magnitude(b)) as int)
    } else {
        units(magnitude(b)) as int
    }
}

/// The pattern with the given sign and magnitude.
pub open spec fn signed(negative: bool, m: nat) -> u32 {
    if negative {
        (m + SIGN) as u32
    } else {
        m as u32
    }
}

/// The rounded sum.
#[verifier::opaque]
pub open spec fn sum(a: u32, b: u32) -> u32 {
    if is_nan(a) || is_nan(b) {
        NAN
    } else if is_infinite(a) {
        if is_infinite(b) && is_negative(a) != is_negative(b) {
            NAN
        } else {
            a
        }
    } else if is_infinite(b) {
        b
    } else {
        let t = value(a) + value(b);
        if t == 0 {
            signed(is_negative(a) && is_negative(b), 0)
        } else if t > 0 {
            signed(false, nearest(t as nat, 1))
        } else {
            signed(true, nearest((-t) as nat, 1))
        }
    }
}

/// The rounded product. The product of two amounts in units is one in units of units.
#[verifier::opaque]
pub open spec fn product(a: u32, b: u32) -> u32 {
    let negative = is_negative(a) != is_negative(b);
    if is_nan(a) || is_nan(b) {
        NAN
    } else if is_infinite(a) || is_infinite(b) {
        if magnitude(a) == 0 || magnitude(b) == 0 {
            NAN
        } else {
            signed(negative, INFINITE as nat)
        }
    } else {
        signed(negative, nearest(units(magnitude(a)) * units(magnitude(b)), pow2(149)))
    }
}

/// Reads `m` as significand and doublings.
fn parts(m: u32) -> (r: (u32, u32))
    requires
        m < INFINITE,
    ensures
        r.0 == significand(m as nat),
        r.1 == doublings(m as nat),
        r.0 < PRECISION,
        r.1 <= 253,
        r.1 > 0 ==> r.0 >= BINADE,
        units(m as nat) == r.0 * pow2(r.1 as nat),
{
    proof {
        lemma_magnitude_parts(m as nat);
    }
    if m < PRECISION {
        (m, 0)
    } else {
        (m % BINADE + BINADE, m / BINADE - 1)
    }
}

pub fn magnitude_of(b: u32) -> (m: u32)
    ensures
        m == magnitude(b),
        m < SIGN,
{
    if b >= SIGN {
        b - SIGN
    } else {
        b
    }
}

fn with_sign(negative: bool, m: u32) -> (b: u32)
    requires
        m <= INFINITE,
    ensures
        b == signed(negative, m as nat),
        is_negative(b) == negative,
        magnitude(b) == m,
{
    if negative {
        m + SIGN
    } else {
        m
    }
}

/// The product of two patterns.
pub fn multiply(a: u32, b: u32) -> (r: u32)
    ensures
        r == product(a, b),
{
    reveal(product);
    let m: u32 = magnitude_of(a);
    let n: u32 = magnitude_of(b);
    if m > INFINITE || n > INFINITE {
        return NAN;
    }
    let negative = (a >= SIGN) != (b >= SIGN);
    if m == INFINITE || n == INFINITE {
        if m == 0 || n == 0 {
            return NAN;
        }
        return with_sign(negative, INFINITE);
    }
    let (f, s) = parts(m);
    let (g, t) = parts(n);
    assert(f * g < 0x1_0000_0000_0000) by (nonlinear_arith)
        requires
            f < 0x100_0000,
            g < 0x100_0000,
    ;
    let p: u128 = f as u128 * g as u128;
    proof {
        let e = s as nat + t as nat;
        lemma_pow2_adds(s as nat, t as nat);
        assert(units(m as nat) * units(n as nat) == p * pow2(e)) by (nonlinear_arith)
            requires
                units(m as nat) == f * pow2(s as nat),
                units(n as nat) == g * pow2(t as nat),
                p == f * g,
                pow2(e) == pow2(s as nat) * pow2(t as nat),
        ;
        lemma_nearest_ratio(p as nat, e, 149);
    }
    let k: u32 = round_scaled(p, s as i32 + t as i32 - 149);
    with_sign(negative, k)
}

/// The sum of two finite patterns, the first on the coarser part of the grid.
fn total_finite(a: u32, b: u32) -> (r: u32)
    requires
        is_finite(a),
        is_finite(b),
        doublings(magnitude(a)) >= doublings(magnitude(b)),
    ensures
        r == sum(a, b),
{
    reveal(sum);
    let m: u32 = magnitude_of(a);
    let n: u32 = magnitude_of(b);
    let (f, s) = parts(m);
    let (g, t) = parts(n);
    let gap: u32 = s - t;
    let ghost w = pow2(t as nat);
    proof {
        lemma2_to64();
        lemma_pow2_pos(t as nat);
        lemma_pow2_adds(gap as nat, t as nat);
        assert(units(n as nat) < PRECISION * w) by (nonlinear_arith)
            requires
                units(n as nat) == g * w,
                g < PRECISION,
                w > 0,
        ;
    }
    if gap > 100 {
        proof {
            lemma_pow2_strictly_increases(27, gap as nat);
            let c = pow2(gap as nat);
            assert(4 * units(n as nat) < c * w && units(n as nat) < units(m as nat)) by (nonlinear_arith)
                requires
                    units(n as nat) < 0x100_0000 * w,
                    c > 0x800_0000,
                    w > 0,
                    units(m as nat) == f * (c * w),
                    f >= 0x80_0000,
            ;
            lemma_nearest_close(m as nat, units(n as nat));
        }
        return a;
    }
    let c: u128 = power_of_two(gap);
    proof {
        if gap < 100 {
            lemma_pow2_strictly_increases(gap as nat, 100);
        }
        lemma_pow2_adds(64, 36);
        lemma_pow2_adds(32, 4);
        assert(f * c <= 0xff_ffff * 0x10_0000_0000_0000_0000_0000_0000) by (nonlinear_arith)
            requires
                f < 0x100_0000,
                c <= 0x10_0000_0000_0000_0000_0000_0000,
        ;
    }
    let h: u128 = f as u128 * c;
    let k: u128 = g as u128;
    proof {
        assert(units(m as nat) == h * w) by (nonlinear_arith)
            requires
                units(m as nat) == f * (c * w),
                h == f * c,
        ;
        assert((h + k) * w == units(m as nat) + units(n as nat)) by (nonlinear_arith)
            requires
                units(m as nat) == h * w,
                units(n as nat) == k * w,
        ;
        assert((h - k) * w == units(m as nat) - units(n as nat) && (k - h) * w == units(n as nat)
            - units(m as nat)) by (nonlinear_arith)
            requires
                units(m as nat) == h * w,
                units(n as nat) == k * w,
        ;
        assert(h > k ==> (h - k) * w > 0) by (nonlinear_arith)
            requires
                w > 0,
        ;
        assert(h < k ==> (k - h) * w > 0) by (nonlinear_arith)
            requires
                w > 0,
        ;
        assert(h + k > 0 ==> (h + k) * w > 0) by (nonlinear_arith)
            requires
                w > 0,
        ;
    }
    if (a >= SIGN) == (b >= SIGN) {
        with_sign(a >= SIGN, round_scaled(h + k, t as i32))
    } else if h > k {
        with_sign(a >= SIGN, round_scaled(h - k, t as i32))
    } else if h < k {
        with_sign(b >= SIGN, round_scaled(k - h, t as i32))
    } else {
        0
    }
}

/// The sum of two patterns.
pub fn total(a: u32, b: u32) -> (r: u32)
    ensures
        r == sum(a, b),
{
    reveal(sum);
    let m: u32 = magnitude_of(a);
    let n: u32 = magnitude_of(b);
    if m > INFINITE || n > INFINITE {
        return NAN;
    }
    if m == INFINITE {
        if n == INFINITE && (a >= SIGN) != (b >= SIGN) {
            return NAN;
        }
        return a;
    }
    if n == INFINITE {
        return b;
    }
    if parts(m).1 >= parts(n).1 {
        total_finite(a, b)
    } else {
        total_finite(b, a)
    }
}

/// The rounded quotient.
#[verifier::opaque]
pub open spec fn quotient(a: u32, b: u32) -> u32 {
    let negative = is_negative(a) != is_negative(b);
    if is_nan(a) || is_nan(b) || (is_infinite(a) && is_infinite(b)) {
        NAN
    } else if magnitude(a) == 0 && magnitude(b) == 0 {
        NAN
    } else if is_infinite(a) || magnitude(b) == 0 {
        signed(negative, INFINITE as nat)
    } else if is_infinite(b) {
        signed(negative, 0)
    } else {
        signed(negative, nearest(units(magnitude(a)) * pow2(149), units(magnitude(b))))
    }
}

/// The quotient of two patterns.
pub fn divide(a: u32, b: u32) -> (r: u32)
    ensures
        r == quotient(a, b),
{
    reveal(quotient);
    let m: u32 = magnitude_of(a);
    let n: u32 = magnitude_of(b);
    let negative = (a >= SIGN) != (b >= SIGN);
    if m > INFINITE || n > INFINITE || (m == INFINITE && n == INFINITE) || (m == 0 && n == 0) {
        return NAN;
    }
    if m == INFINITE || n == 0 {
        return with_sign(negative, INFINITE);
    }
    if n == INFINITE {
        return with_sign(negative, 0);
    }
    let (f, s) = parts(m);
    let (g, t) = parts(n);
    proof {
        lemma_magnitude_parts(n as nat);
        assert(g > 0);
        lemma_pow2_pos(t as nat);
        lemma_pow2_pos(s as nat);
    }
    if f == 0 {
        proof {
            assert(units(m as nat) == 0 && units(m as nat) * pow2(149) == 0 && units(n as nat) > 0)
                by (nonlinear_arith)
                requires
                    units(m as nat) == f * pow2(s as nat),
                    units(n as nat) == g * pow2(t as nat),
                    f == 0,
                    g > 0,
                    pow2(t as nat) > 0,
            ;
            lemma_nearest_zero(units(n as nat));
        }
        return with_sign(negative, 0);
    }
    let h: u128 = f as u128 * 0x1_0000_0000_0000_0000;
    let q: u128 = h / g as u128;
    let r: u128 = h % g as u128;
    proof {
        lemma_fundamental_div_mod(h as int, g as int);
        assert(q >= 0x200_0000 && q <= 0xff_ffff * 0x1_0000_0000_0000_0000) by (nonlinear_arith)
            requires
                h == g * q + r,
                0 <= r < g,
                h >= 0x1_0000_0000_0000_0000,
                h <= 0xff_ffff * 0x1_0000_0000_0000_0000,
                0 < g < 0x100_0000,
        ;
        assert(h == q * g + r) by (nonlinear_arith)
            requires
                h == g * q + r,
        ;
        lemma2_to64();
        let u = (s + 85) as nat;
        lemma_pow2_adds(s as nat, 149);
        lemma_pow2_adds(64, u);
        assert(64 + u == s as nat + 149);
        assert(units(m as nat) * pow2(149) == h * pow2(u)) by (nonlinear_arith)
            requires
                units(m as nat) == f * pow2(s as nat),
                h == f * pow2(64),
                pow2(s as nat) * pow2(149) == pow2(64) * pow2(u),
        ;
        lemma_nearest_sticky(h as nat, g as nat, q as nat, r as nat, u, t as nat);
    }
    let p: u128 = if r > 0 {
        2 * q + 1
    } else {
        2 * q
    };
    let k: u32 = round_scaled(p, s as i32 + 84 - t as i32);
    with_sign(negative, k)
}

/// The rounded square root. A square root in units is that of an amount in units of units.
#[verifier::opaque]
pub open spec fn root(a: u32) -> u32 {
    if is_nan(a) {
        NAN
    } else if magnitude(a) == 0 {
        a
    } else if is_negative(a) {
        NAN
    } else if is_infinite(a) {
        a
    } else {
        nearest_root(units(magnitude(a)) * pow2(149)) as u32
    }
}

/// The integer part of a square root.
fn floor_sqrt(m: u128) -> (q: u128)
    requires
        m < 0x40_0000_0000_0000_0000_0000,
    ensures
        q * q <= m < (q + 1) * (q + 1),
        q < 0x800_0000_0000,
{
    let mut low: u128 = 0;
    let mut span: u128 = 0x800_0000_0000;
    while span > 1
        invariant
            low * low <= m < (low + span) * (low + span),
            1 <= span,
            low + span <= 0x800_0000_0000,
        decreases span,
    {
        let half: u128 = span / 2;
        let mid: u128 = low + half;
        assert(mid * mid <= 0x800_0000_0000 * 0x800_0000_0000) by (nonlinear_arith)
            requires
                mid <= 0x800_0000_0000,
        ;
        if mid * mid <= m {
            low = mid;
            span = span - half;
        } else {
            span = half;
        }
    }
    low
}

/// The square root of a pattern.
pub fn square_root(a: u32) -> (r: u32)
    ensures
        r == root(a),
{
    reveal(root);
    let m: u32 = magnitude_of(a);
    if m > INFINITE {
        return NAN;
    }
    if m == 0 {
        return a;
    }
    if a >= SIGN {
        return NAN;
    }
    if m == INFINITE {
        return a;
    }
    let (f, s) = parts(m);
    // An even power of two is left over.
    let k: u32 = if s % 2 == 1 {
        60
    } else {
        61
    };
    let w: u128 = power_of_two(k);
    proof {
        lemma_magnitude_parts(m as nat);
        assert(f > 0);
        lemma2_to64();
        lemma_pow2_adds(32, 28);
        lemma_pow2_unfold(61);
        assert(f * w <= 0xff_ffff * 0x2000_0000_0000_0000 && f * w >= 0x1000_0000_0000_0000)
            by (nonlinear_arith)
            requires
                1 <= f < 0x100_0000,
                0x1000_0000_0000_0000 <= w <= 0x2000_0000_0000_0000,
        ;
    }
    let h: u128 = f as u128 * w;
    let q: u128 = floor_sqrt(h);
    let c: u32 = (s + 149 - k) / 2;
    proof {
        assert(q >= 0x200_0000) by (nonlinear_arith)
            requires
                h < (q + 1) * (q + 1),
                h >= 0x1000_0000_0000_0000,
        ;
        assert(q * q <= 0x800_0000_0000 * 0x800_0000_0000) by (nonlinear_arith)
            requires
                q < 0x800_0000_0000,
        ;
        lemma_pow2_adds(s as nat, 149);
        lemma_pow2_adds(c as nat, c as nat);
        lemma_pow2_adds(k as nat, 2 * c as nat);
        assert(k as nat + 2 * c as nat == s as nat + 149);
        let v = pow2(c as nat) * pow2(c as nat);
        assert(units(m as nat) * pow2(149) == h * v) by (nonlinear_arith)
            requires
                units(m as nat) == f * pow2(s as nat),
                h == f * pow2(k as nat),
                pow2(s as nat) * pow2(149) == pow2(k as nat) * v,
        ;
        lemma_nearest_root_sticky((h * v) as nat, h as nat, q as nat, c as nat);
    }
    let p: u128 = if q * q == h {
        2 * q
    } else {
        2 * q + 1
    };
    round_scaled(p, c as i32 - 1)
}

} // verus!
