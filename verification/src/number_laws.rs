//! Laws of single-precision arithmetic that the laws of movement rest on.
use crate::ieee;
use crate::ieee::{magnitude, value};
use crate::order::{
    lemma_nearest_against, lemma_nearest_exact, lemma_nearest_increases, lemma_units_increase,
    lemma_units_zero,
};
use crate::rounding::{
    doublings, doublings_for, half_even, lemma_doublings_bounds, lemma_half_even_error,
    lemma_magnitude_parts, lemma_nearest_root_above, lemma_nearest_root_at_least,
    lemma_nearest_root_finite, lemma_nearest_zero, lemma_units_of_nearest, nearest, root_fits,
    significand, units, BINADE, INFINITE, PRECISION,
};
use crate::scalar::{group_bits, num, Scalar, ONE, ZERO};
use vstd::arithmetic::power2::{
    lemma2_to64, lemma_pow2_adds, lemma_pow2_pos, lemma_pow2_unfold, pow2,
};
use vstd::prelude::*;

verus! {

/// The bits of a number but the sign.
pub open spec fn size(a: Scalar) -> nat {
    magnitude(a.bits())
}

/// Whether the sign bit of a number is set.
pub open spec fn minus(a: Scalar) -> bool {
    ieee::is_negative(a.bits())
}

/// Numbers compare as the amounts that they stand for.
pub proof fn law_order(a: Scalar, b: Scalar)
    requires
        a.is_finite(),
        b.is_finite(),
    ensures
        a.lt(b) <==> value(a.bits()) < value(b.bits()),
        a.le(b) <==> value(a.bits()) <= value(b.bits()),
        a.same(b) <==> value(a.bits()) == value(b.bits()),
{
    reveal(Scalar::spec_is_finite);
    reveal(Scalar::spec_lt);
    reveal(Scalar::spec_le);
    reveal(Scalar::spec_same);
    let m = size(a);
    let n = size(b);
    if m < n {
        lemma_units_increase(m, n);
    } else if n < m {
        lemma_units_increase(n, m);
    }
    lemma_units_zero(m);
    lemma_units_zero(n);
}

/// What a product of finite numbers is.
pub proof fn lemma_product(a: Scalar, b: Scalar)
    requires
        a.is_finite(),
        b.is_finite(),
    ensures
        size(a * b) == nearest(units(size(a)) * units(size(b)), pow2(149)),
        size(a * b) <= INFINITE,
        minus(a * b) == (minus(a) != minus(b)),
{
    broadcast use group_bits;

    reveal(Scalar::spec_is_finite);
    reveal(Scalar::spec_mul);
    reveal(ieee::product);
}

/// What a quotient of finite numbers is.
pub proof fn lemma_quotient(a: Scalar, b: Scalar)
    requires
        a.is_finite(),
        b.is_finite(),
        size(b) > 0,
    ensures
        size(a.over(b)) == nearest(units(size(a)) * pow2(149), units(size(b))),
        size(a.over(b)) <= INFINITE,
        minus(a.over(b)) == (minus(a) != minus(b)),
{
    broadcast use group_bits;

    reveal(Scalar::spec_is_finite);
    reveal(Scalar::spec_over);
    reveal(ieee::quotient);
}

/// The units of the power of two at the start of a binade.
pub proof fn lemma_power_units(e: nat)
    ensures
        units((e + 1) * BINADE as nat) == pow2(23 + e),
{
    lemma2_to64();
    lemma_pow2_adds(23, e);
    let m = (e + 1) * BINADE as nat;
    assert(pow2(23) == BINADE);
    if e == 0 {
        assert(m == BINADE);
    } else {
        assert(m >= PRECISION && m / BINADE as nat == e + 1 && m % BINADE as nat == 0)
            by (nonlinear_arith)
            requires
                m == (e + 1) * 0x80_0000,
                e >= 1,
                PRECISION == 0x100_0000,
                BINADE == 0x80_0000,
        ;
    }
    assert(doublings(m) == e && significand(m) == BINADE);
}

/// One, in units.
pub proof fn lemma_one()
    ensures
        size(num(ONE)) == ONE,
        !minus(num(ONE)),
        units(ONE as nat) == pow2(149),
        num(ONE).is_finite(),
        size(num(ZERO)) == 0,
        !minus(num(ZERO)),
        units(0) == 0,
        num(ZERO).is_finite(),
{
    broadcast use group_bits;

    reveal(Scalar::spec_is_finite);
    lemma_power_units(126);
    lemma_units_zero(0);
}

proof fn lemma_pow2_149()
    ensures
        pow2(149) > 0,
{
    lemma_pow2_pos(149);
}

/// The units of sizes are ordered as the sizes are.
pub proof fn lemma_units_ordered(m: nat, n: nat)
    ensures
        m <= n <==> units(m) <= units(n),
        m < n <==> units(m) < units(n),
{
    if m < n {
        lemma_units_increase(m, n);
    } else if n < m {
        lemma_units_increase(n, m);
    }
}

/// Multiplying by at most one makes nothing greater.
pub proof fn law_product_shrinks(a: Scalar, f: Scalar)
    requires
        a.is_finite(),
        f.is_finite(),
        size(f) <= ONE,
    ensures
        size(a * f) <= size(a),
        (a * f).is_finite(),
{
    reveal(Scalar::spec_is_finite);
    lemma_product(a, f);
    lemma_one();
    lemma_pow2_149();
    lemma_units_ordered(size(f), ONE as nat);
    let u = units(size(a));
    assert(u * units(size(f)) <= u * pow2(149)) by (nonlinear_arith)
        requires
            units(size(f)) <= pow2(149),
    ;
    lemma_nearest_against(u * units(size(f)), pow2(149), size(a));
}

/// Dividing by at least one makes nothing greater.
pub proof fn law_quotient_shrinks(a: Scalar, b: Scalar)
    requires
        a.is_finite(),
        b.is_finite(),
        size(b) >= ONE,
    ensures
        size(a.over(b)) <= size(a),
        a.over(b).is_finite(),
{
    reveal(Scalar::spec_is_finite);
    lemma_quotient(a, b);
    lemma_one();
    lemma_pow2_149();
    lemma_units_ordered(ONE as nat, size(b));
    let u = units(size(a));
    let d = units(size(b));
    assert(u * pow2(149) <= u * d) by (nonlinear_arith)
        requires
            pow2(149) <= d,
    ;
    lemma_nearest_against(u * pow2(149), d, size(a));
}

/// The ratio of a number to one that is no smaller is at most one; to one that is no greater, at
/// least one.
pub proof fn law_ratio(a: Scalar, b: Scalar)
    requires
        a.is_finite(),
        b.is_finite(),
        size(b) > 0,
    ensures
        size(a) <= size(b) ==> size(a.over(b)) <= ONE,
        size(a) >= size(b) ==> size(a.over(b)) >= ONE,
{
    reveal(Scalar::spec_is_finite);
    lemma_quotient(a, b);
    lemma_one();
    lemma_pow2_149();
    lemma_units_zero(size(b));
    let u = units(size(a));
    let d = units(size(b));
    lemma_units_ordered(size(a), size(b));
    lemma_units_ordered(size(b), size(a));
    assert(u <= d ==> u * pow2(149) <= pow2(149) * d) by (nonlinear_arith);
    assert(u >= d ==> u * pow2(149) >= pow2(149) * d) by (nonlinear_arith);
    lemma_nearest_against(u * pow2(149), d, ONE as nat);
}

/// Taking away what is not negative makes nothing greater.
pub proof fn law_difference_shrinks(a: Scalar, b: Scalar)
    requires
        a.is_finite(),
        num(ZERO).le(b),
    ensures
        (a - b).le(a),
        (a - b).is_number(),
{
    broadcast use group_bits;

    reveal(Scalar::spec_is_finite);
    reveal(Scalar::spec_is_number);
    reveal(Scalar::spec_le);
    reveal(Scalar::spec_sub);
    reveal(Scalar::spec_negated);
    reveal(ieee::sum);
    lemma_units_zero(size(a));
    lemma_units_zero(size(b));
    let c = b.negated();
    if b.is_finite() {
        let t = value(a.bits()) + value(c.bits());
        assert(value(c.bits()) <= 0);
        if t > 0 {
            lemma_nearest_against(t as nat, 1, size(a));
        } else if t < 0 {
            lemma_nearest_against((-t) as nat, 1, size(a));
        }
    }
}

/// Adding what is not negative makes nothing smaller, and what is not negative stays so.
pub proof fn law_sum_grows(a: Scalar, b: Scalar)
    requires
        num(ZERO).le(a),
        num(ZERO).le(b),
    ensures
        (a + b).is_number(),
        num(ZERO).le(a + b),
        size(a) <= size(a + b),
        size(b) <= size(a + b),
{
    broadcast use group_bits;

    reveal(Scalar::spec_is_finite);
    reveal(Scalar::spec_is_number);
    reveal(Scalar::spec_le);
    reveal(Scalar::spec_add);
    reveal(ieee::sum);
    lemma_units_zero(size(a));
    lemma_units_zero(size(b));
    if a.is_finite() && b.is_finite() {
        let t = value(a.bits()) + value(b.bits());
        if t > 0 {
            lemma_nearest_against(t as nat, 1, size(a));
            lemma_nearest_against(t as nat, 1, size(b));
        }
    }
}

/// The square of a finite number is a number that is not negative.
pub proof fn law_square(a: Scalar)
    requires
        a.is_finite(),
    ensures
        num(ZERO).le(a * a),
        (a * a).is_number(),
        size(a) >= ONE ==> size(a * a) >= ONE,
        size(a) >= 0x5f80_0000 ==> size(a * a) == INFINITE,
{
    broadcast use group_bits;

    reveal(Scalar::spec_is_finite);
    reveal(Scalar::spec_is_number);
    reveal(Scalar::spec_le);
    lemma_product(a, a);
    lemma_one();
    lemma_pow2_149();
    let u = units(size(a));
    if size(a) >= ONE {
        lemma_units_ordered(ONE as nat, size(a));
        assert(u * u >= pow2(149) * pow2(149)) by (nonlinear_arith)
            requires
                u >= pow2(149),
                pow2(149) > 0,
        ;
        lemma_nearest_against(u * u, pow2(149), ONE as nat);
    }
    if size(a) >= 0x5f80_0000 {
        lemma_power_units(190);
        lemma_power_units(254);
        lemma_units_ordered(0x5f80_0000, size(a));
        lemma_pow2_adds(213, 213);
        lemma_pow2_adds(277, 149);
        assert(u * u >= pow2(213) * pow2(213)) by (nonlinear_arith)
            requires
                u >= pow2(213),
                pow2(213) >= 0,
        ;
        lemma_nearest_against(u * u, pow2(149), INFINITE as nat);
    }
}

/// The product of two numbers below two to the power 64 is finite.
pub proof fn law_product_finite(a: Scalar, b: Scalar)
    requires
        size(a) < 0x5f80_0000,
        size(b) < 0x5f80_0000,
    ensures
        (a * b).is_finite(),
{
    reveal(Scalar::spec_is_finite);
    lemma_product(a, b);
    lemma_pow2_149();
    let top: nat = 0x5f7f_ffff;
    lemma_units_ordered(size(a), top);
    lemma_units_ordered(size(b), top);
    let k: nat = 0xff_ffff;
    assert(significand(top) == k && doublings(top) == 189);
    let w = pow2(189);
    lemma_pow2_pos(189);
    let u = units(size(a));
    let v = units(size(b));
    assert(u * v <= (k * w) * (k * w)) by (nonlinear_arith)
        requires
            u <= k * w,
            v <= k * w,
    ;
    let last: nat = 0x7f7f_ffff;
    assert(significand(last) == k && doublings(last) == 253);
    lemma2_to64();
    lemma_pow2_adds(189, 189);
    lemma_pow2_adds(253, 149);
    lemma_pow2_adds(24, 378);
    let x = pow2(378);
    assert((k * w) * (k * w) <= (k * pow2(253)) * pow2(149)) by (nonlinear_arith)
        requires
            w * w == x,
            pow2(253) * pow2(149) == 0x100_0000 * x,
            k == 0xff_ffff,
    ;
    lemma_nearest_against(u * v, pow2(149), last);
}

/// The square root of a finite number that is not negative is finite.
pub proof fn law_root_finite(a: Scalar)
    requires
        num(ZERO).le(a),
        a.is_finite(),
    ensures
        a.sqrt().is_finite(),
{
    broadcast use group_bits;

    reveal(Scalar::spec_is_finite);
    reveal(Scalar::spec_le);
    reveal(Scalar::spec_sqrt);
    reveal(ieee::root);
    if size(a) > 0 {
        let u = units(size(a));
        let n = u * pow2(149);
        lemma_power_units(254);
        lemma_units_ordered(size(a), INFINITE as nat);
        lemma_pow2_adds(277, 149);
        lemma_pow2_adds(24, 190);
        lemma_pow2_adds(214, 214);
        lemma_pow2_adds(426, 2);
        lemma_pow2_pos(426);
        lemma_pow2_pos(149);
        lemma2_to64();
        assert(pow2(24) == PRECISION);
        assert(n < pow2(428)) by (nonlinear_arith)
            requires
                n == u * pow2(149),
                u <= pow2(277),
                pow2(426) == pow2(277) * pow2(149),
                pow2(428) == pow2(426) * 4,
                pow2(426) > 0,
        ;
        assert(root_fits(n, 190));
        lemma_nearest_root_finite(n, 190);
    }
}

/// The square root of a number that is not negative is one, too; that of at least one is at least
/// one, and that of anything positive at least two to the power -75.
pub proof fn law_root(a: Scalar)
    requires
        num(ZERO).le(a),
    ensures
        num(ZERO).le(a.sqrt()),
        a.sqrt().is_number(),
        size(a) >= ONE ==> size(a.sqrt()) >= ONE,
        size(a) > 0 ==> size(a.sqrt()) >= 0x1a00_0000,
{
    broadcast use group_bits;

    reveal(Scalar::spec_is_finite);
    reveal(Scalar::spec_is_number);
    reveal(Scalar::spec_le);
    reveal(Scalar::spec_sqrt);
    reveal(ieee::root);
    lemma_one();
    lemma_pow2_149();
    if 0 < size(a) < INFINITE {
        let u = units(size(a));
        let n = u * pow2(149);
        lemma_units_zero(size(a));
        lemma_power_units(51);
        lemma_pow2_adds(74, 74);
        lemma_pow2_adds(148, 1);
        lemma2_to64();
        assert(n >= pow2(148)) by (nonlinear_arith)
            requires
                n == u * pow2(149),
                u >= 1,
                pow2(149) == pow2(148) * 2,
                pow2(149) > 0,
        ;
        lemma_nearest_root_at_least(n, 0x1a00_0000);
        if size(a) >= ONE {
            lemma_units_ordered(ONE as nat, size(a));
            assert(n >= pow2(149) * pow2(149)) by (nonlinear_arith)
                requires
                    n == u * pow2(149),
                    u >= pow2(149),
                    pow2(149) > 0,
            ;
            lemma_nearest_root_at_least(n, ONE as nat);
        }
    }
}

/// A number below one, divided by at least two to the power -75, is finite.
pub proof fn law_quotient_finite(a: Scalar, b: Scalar)
    requires
        size(a) < ONE,
        b.is_finite(),
        size(b) >= 0x1a00_0000,
    ensures
        a.over(b).is_finite(),
{
    reveal(Scalar::spec_is_finite);
    lemma_quotient(a, b);
    lemma_one();
    lemma_pow2_149();
    lemma_power_units(51);
    lemma_power_units(201);
    lemma_units_ordered(size(a), ONE as nat);
    lemma_units_ordered(0x1a00_0000, size(b));
    lemma_pow2_adds(149, 149);
    lemma_pow2_adds(224, 74);
    let u = units(size(a));
    let d = units(size(b));
    assert(u * pow2(149) <= pow2(224) * d) by (nonlinear_arith)
        requires
            u <= pow2(149),
            d >= pow2(74),
            pow2(149) * pow2(149) == pow2(224) * pow2(74),
            pow2(149) > 0,
            pow2(224) >= 0,
    ;
    lemma_pow2_pos(74);
    lemma_nearest_against(u * pow2(149), d, 0x6500_0000);
}

/// Nothing finite is left of what is divided by something infinite.
pub proof fn lemma_over_infinite(a: Scalar, b: Scalar)
    requires
        a.is_finite(),
        size(b) == INFINITE,
    ensures
        size(a.over(b)) == 0,
        a.over(b).is_finite(),
{
    broadcast use group_bits;

    reveal(Scalar::spec_is_finite);
    reveal(Scalar::spec_over);
    reveal(ieee::quotient);
}

/// What a square of a normal size loses in rounding is too little for its root to notice.
proof fn lemma_rounded_square(k: nat, w: nat, he: nat, d: nat)
    by (nonlinear_arith)
    requires
        0x80_0000 < k < 0x100_0000,
        w > 0,
        2 * ((k * w) * (k * w)) <= 2 * (he * d) + d,
        d * 0x80_0000 <= (k * w) * (k * w),
    ensures
        4 * (he * d) > ((2 * k - 1) * w) * ((2 * k - 1) * w),
{
    let x = w * w;
    assert((k * w) * (k * w) == (k * k) * x);
    assert(((2 * k - 1) * w) * ((2 * k - 1) * w) == (4 * (k * k) - 4 * k + 1) * x);
    assert(4 * (he * d) >= 4 * ((k * k) * x) - 2 * d);
    assert(k * (0x100_0000 - k) >= 0x80_0001);
    assert(0x40_0000 * (4 * k - 1) > k * k);
    assert(0x40_0000 * (2 * d) <= (k * k) * x);
    assert((0x40_0000 * (4 * k - 1)) * x > (k * k) * x);
    assert(0x40_0000 * ((4 * k - 1) * x) > 0x40_0000 * (2 * d));
    assert((4 * k - 1) * x > 2 * d);
    assert((4 * (k * k) - 4 * k + 1) * x == 4 * ((k * k) * x) - (4 * k - 1) * x);
}

/// The root of at least the square of a number of normal size is at least that number, rounding
/// notwithstanding.
pub proof fn law_root_of_square(a: Scalar, squared: Scalar)
    requires
        a.is_finite(),
        size(a) >= 0x2000_0000,
        num(ZERO).le(squared),
        size(a * a) <= size(squared),
    ensures
        size(a) <= size(squared.sqrt()),
{
    broadcast use group_bits;

    reveal(Scalar::spec_is_finite);
    reveal(Scalar::spec_le);
    reveal(Scalar::spec_sqrt);
    reveal(ieee::root);
    law_square(a);
    if size(squared) < INFINITE {
        law_product_finite(a, a);
        lemma_product(a, a);
        lemma_pow2_149();
        let m = size(a);
        let v = units(m);
        let p = pow2(149);
        let s = doublings_for(v * v, p);
        let d = p * pow2(s);
        let he = half_even(v * v, d);
        lemma_power_units(63);
        lemma_units_ordered(0x2000_0000, m);
        lemma_magnitude_parts(m);
        let k = significand(m);
        let w = pow2(doublings(m));
        lemma_pow2_pos(doublings(m));
        lemma_pow2_pos(s);
        assert(d > 0) by (nonlinear_arith)
            requires
                d == p * pow2(s),
                p > 0,
                pow2(s) > 0,
        ;
        lemma_doublings_bounds(v * v, p);
        lemma_half_even_error(v * v, d);
        lemma_units_of_nearest(v * v, p);
        let low = units(size(a * a)) * p;
        let n = units(size(squared)) * p;
        assert(low == he * d) by (nonlinear_arith)
            requires
                low == (he * pow2(s)) * p,
                d == p * pow2(s),
        ;
        lemma_units_ordered(size(a * a), size(squared));
        assert(n >= low) by (nonlinear_arith)
            requires
                n == units(size(squared)) * p,
                low == units(size(a * a)) * p,
                units(size(squared)) >= units(size(a * a)),
        ;
        assert(d * 0x80_0000 <= v * v) by {
            if s > 0 {
                let u = pow2((s - 1) as nat);
                lemma_pow2_unfold(s);
                assert(d * 0x80_0000 <= v * v) by (nonlinear_arith)
                    requires
                        v * v >= p * 0x100_0000 * u,
                        d == p * (2 * u),
                ;
            } else {
                lemma2_to64();
                lemma_pow2_adds(86, 86);
                lemma_pow2_adds(149, 23);
                assert(v * v >= pow2(86) * pow2(86)) by (nonlinear_arith)
                    requires
                        v >= pow2(86),
                ;
                assert(d == p) by (nonlinear_arith)
                    requires
                        d == p * pow2(s),
                        pow2(s) == 1,
                ;
            }
        }
        assert(low > 0) by (nonlinear_arith)
            requires
                low == he * d,
                2 * (v * v) <= 2 * (he * d) + d,
                d * 0x80_0000 <= v * v,
                d > 0,
        ;
        assert(units(size(a * a)) > 0) by (nonlinear_arith)
            requires
                low == units(size(a * a)) * p,
                low > 0,
        ;
        lemma_units_zero(size(squared));
        if k > BINADE {
            lemma_rounded_square(k, w, he, d);
            lemma_nearest_root_above(n, m);
        } else {
            assert(k == BINADE);
            lemma_square_of_power(m);
            lemma_nearest_root_at_least(n, m);
        }
    }
}

/// The square of a power of two of normal size is not rounded.
proof fn lemma_square_of_power(m: nat)
    requires
        0x2000_0000 <= m < INFINITE,
        significand(m) == BINADE,
        nearest(units(m) * units(m), pow2(149)) < INFINITE,
    ensures
        units(nearest(units(m) * units(m), pow2(149))) * pow2(149) == units(m) * units(m),
{
    lemma2_to64();
    lemma_magnitude_parts(m);
    let t = doublings(m);
    assert(t >= 63);
    let v = units(m);
    lemma_pow2_adds(23, t);
    assert(v == pow2(23 + t));
    lemma_pow2_adds(23 + t, 23 + t);
    let e = (2 * t - 126) as nat;
    lemma_power_units(e);
    let power = (e + 1) * BINADE as nat;
    lemma_pow2_adds(23 + e, 149);
    assert(v * v == units(power) * pow2(149));
    lemma_pow2_149();
    if power >= INFINITE {
        lemma_units_ordered(INFINITE as nat, power);
        assert(v * v >= units(INFINITE as nat) * pow2(149)) by (nonlinear_arith)
            requires
                v * v == units(power) * pow2(149),
                units(power) >= units(INFINITE as nat),
        ;
        lemma_nearest_against(v * v, pow2(149), INFINITE as nat);
        assert(false);
    }
    lemma_nearest_against(v * v, pow2(149), power);
}

/// A number is made of its sign and its size.
pub proof fn lemma_parts(a: Scalar, b: Scalar)
    requires
        size(a) == size(b),
        minus(a) == minus(b),
    ensures
        a == b,
{
    broadcast use group_bits;

    assert(num(a.bits()) == a && num(b.bits()) == b);
}

/// Multiplying by one changes nothing.
pub proof fn law_times_one(a: Scalar)
    requires
        a.is_finite(),
    ensures
        a * num(ONE) == a,
{
    reveal(Scalar::spec_is_finite);
    lemma_one();
    lemma_pow2_149();
    lemma_product(a, num(ONE));
    lemma_nearest_against(units(size(a)) * pow2(149), pow2(149), size(a));
    lemma_parts(a * num(ONE), a);
}

/// A number other than zero divided by itself is one.
pub proof fn law_over_itself(a: Scalar)
    requires
        a.is_finite(),
        size(a) > 0,
    ensures
        a.over(a) == num(ONE),
{
    reveal(Scalar::spec_is_finite);
    lemma_one();
    lemma_quotient(a, a);
    lemma_units_zero(size(a));
    let u = units(size(a));
    assert(u * pow2(149) == pow2(149) * u) by (nonlinear_arith);
    lemma_nearest_against(u * pow2(149), u, ONE as nat);
    lemma_parts(a.over(a), num(ONE));
}

/// What a sum of finite numbers is.
pub proof fn lemma_sum(a: Scalar, b: Scalar)
    requires
        a.is_finite(),
        b.is_finite(),
    ensures
        ({
            let t = value(a.bits()) + value(b.bits());
            &&& (a + b).is_number()
            &&& size(a + b) == nearest(
                if t < 0 {
                    (-t) as nat
                } else {
                    t as nat
                },
                1,
            )
            &&& t > 0 ==> !minus(a + b)
            &&& t < 0 ==> minus(a + b)
        }),
{
    broadcast use group_bits;

    reveal(Scalar::spec_is_finite);
    reveal(Scalar::spec_is_number);
    reveal(Scalar::spec_add);
    reveal(ieee::sum);
    lemma_nearest_exact(0);
    lemma_units_zero(0);
}

/// Adding zero changes nothing.
pub proof fn law_plus_zero(a: Scalar, z: Scalar)
    requires
        a.is_finite(),
        size(z) == 0,
    ensures
        (a + z).same(a),
        (a + z).is_finite(),
        size(a) > 0 ==> a + z == a,
{
    broadcast use group_bits;

    reveal(Scalar::spec_is_finite);
    reveal(Scalar::spec_same);
    lemma_units_zero(size(z));
    lemma_units_zero(size(a));
    lemma_sum(a, z);
    lemma_nearest_exact(size(a));
    if size(a) > 0 {
        lemma_parts(a + z, a);
    }
}

/// Sums are ordered as what is added to.
pub proof fn law_sum_ordered(a: Scalar, b: Scalar, c: Scalar)
    requires
        a.is_finite(),
        b.is_finite(),
        c.is_finite(),
        a.le(b),
    ensures
        (a + c).le(b + c),
        (c + a).le(c + b),
{
    broadcast use group_bits;

    reveal(Scalar::spec_is_number);
    reveal(Scalar::spec_le);
    law_order(a, b);
    lemma_sum(a, c);
    lemma_sum(b, c);
    lemma_sum(c, a);
    lemma_sum(c, b);
    let t = value(a.bits()) + value(c.bits());
    let u = value(b.bits()) + value(c.bits());
    lemma_nearest_exact(0);
    lemma_units_zero(0);
    if t >= 0 {
        lemma_nearest_increases(t as nat, 1, u as nat, 1);
    } else if u <= 0 {
        lemma_nearest_increases((-u) as nat, 1, (-t) as nat, 1);
    }
    if t == 0 {
        lemma_nearest_increases(0, 1, u as nat, 1);
    }
}

/// The opposite of a number.
pub proof fn lemma_opposite(a: Scalar)
    ensures
        size(a.negated()) == size(a),
        minus(a.negated()) != minus(a),
        a.is_finite() ==> a.negated().is_finite() && value(a.negated().bits()) == -value(a.bits()),
{
    broadcast use group_bits;

    reveal(Scalar::spec_is_finite);
    reveal(Scalar::spec_negated);
}

/// Products with a number that is not negative are ordered as what is multiplied.
pub proof fn law_product_ordered(a: Scalar, b: Scalar, c: Scalar)
    requires
        a.is_finite(),
        b.is_finite(),
        c.is_finite(),
        a.le(b),
        num(ZERO).le(c),
    ensures
        (a * c).le(b * c),
        (c * a).le(c * b),
{
    broadcast use group_bits;

    reveal(Scalar::spec_is_finite);
    reveal(Scalar::spec_le);
    lemma_product(a, c);
    lemma_product(b, c);
    lemma_product(c, a);
    lemma_product(c, b);
    lemma_products_ordered(size(a), size(b), size(c));
    lemma_products_ordered(size(b), size(a), size(c));
}

proof fn lemma_products_ordered(m: nat, n: nat, k: nat)
    requires
        m <= INFINITE,
        n <= INFINITE,
        k <= INFINITE,
    ensures
        m <= n ==> nearest(units(m) * units(k), pow2(149)) <= nearest(
            units(n) * units(k),
            pow2(149),
        ),
        k == 0 ==> nearest(units(m) * units(k), pow2(149)) == 0,
        m == 0 ==> nearest(units(m) * units(k), pow2(149)) == 0,
        units(k) * units(m) == units(m) * units(k),
        units(k) * units(n) == units(n) * units(k),
{
    lemma_pow2_pos(149);
    lemma_units_zero(k);
    lemma_units_zero(m);
    let (u, v, w, d) = (units(m), units(n), units(k), pow2(149));
    assert(w * u == u * w && w * v == v * w) by (nonlinear_arith);
    lemma_nearest_zero(d);
    if m == 0 || k == 0 {
        assert(u * w == 0) by (nonlinear_arith)
            requires
                u == 0 || w == 0,
        ;
    }
    if m <= n {
        lemma_units_ordered(m, n);
        assert((u * w) * d <= (v * w) * d) by (nonlinear_arith)
            requires
                u <= v,
        ;
        lemma_nearest_increases(u * w, d, v * w, d);
    }
}

/// Differences are ordered against what is taken away.
pub proof fn law_difference_ordered(a: Scalar, b: Scalar, c: Scalar)
    requires
        a.is_finite(),
        b.is_finite(),
        c.is_finite(),
        b.le(c),
    ensures
        (a - c).le(a - b),
{
    lemma_opposite(b);
    lemma_opposite(c);
    law_order(b, c);
    law_order(c.negated(), b.negated());
    law_sum_ordered(c.negated(), b.negated(), a);
    reveal(Scalar::spec_sub);
    reveal(Scalar::spec_add);
}

/// What is not negative, taken from what is no smaller, leaves nothing negative.
pub proof fn law_difference_not_negative(a: Scalar, b: Scalar)
    requires
        a.is_finite(),
        b.is_finite(),
        b.le(a),
    ensures
        num(ZERO).le(a - b),
{
    broadcast use group_bits;

    reveal(Scalar::spec_le);
    reveal(Scalar::spec_is_number);
    lemma_one();
    law_difference_ordered(a, b, a);
    lemma_opposite(a);
    lemma_sum(a, a.negated());
    lemma_nearest_exact(0);
    reveal(Scalar::spec_sub);
    reveal(Scalar::spec_add);
    assert(size(a - a) == 0);
}

/// A product of numbers that are not negative is not negative.
pub proof fn law_product_not_negative(a: Scalar, b: Scalar)
    requires
        !a.lt(num(ZERO)),
        !b.lt(num(ZERO)),
    ensures
        !(a * b).lt(num(ZERO)),
{
    broadcast use group_bits;

    reveal(Scalar::spec_lt);
    reveal(Scalar::spec_mul);
    reveal(ieee::product);
    lemma_units_zero(0);
    lemma_pow2_149();
    lemma_nearest_exact(0);
    lemma_nearest_against(0, pow2(149), 0);
    let u = units(size(a));
    let v = units(size(b));
    assert(u == 0 || v == 0 ==> u * v == 0) by (nonlinear_arith);
}

/// Quotients are ordered as what is divided.
pub proof fn law_quotient_ordered(a: Scalar, b: Scalar, d: Scalar)
    requires
        a.is_finite(),
        b.is_finite(),
        d.is_finite(),
        num(ZERO).le(a),
        a.le(b),
        num(ZERO).lt(d),
    ensures
        a.over(d).le(b.over(d)),
{
    broadcast use group_bits;

    reveal(Scalar::spec_is_finite);
    reveal(Scalar::spec_lt);
    reveal(Scalar::spec_le);
    lemma_quotient(a, d);
    lemma_quotient(b, d);
    lemma_units_zero(size(d));
    lemma_units_zero(size(a));
    lemma_units_ordered(size(a), size(b));
    let u = units(size(a)) * pow2(149);
    let v = units(size(b)) * pow2(149);
    let w = units(size(d));
    assert(units(size(a)) <= units(size(b)));
    assert(u * w <= v * w) by (nonlinear_arith)
        requires
            u == units(size(a)) * pow2(149),
            v == units(size(b)) * pow2(149),
            units(size(a)) <= units(size(b)),
    ;
    lemma_nearest_increases(u, w, v, w);
    if size(a) == 0 {
        lemma_nearest_exact(0);
        assert(u == 0) by (nonlinear_arith)
            requires
                u == units(size(a)) * pow2(149),
                units(size(a)) == 0,
        ;
        lemma_nearest_against(u, w, 0);
    }
}

/// Zero divided by anything is zero.
pub proof fn law_zero_over(a: Scalar, b: Scalar)
    requires
        size(a) == 0,
        b.is_finite(),
        size(b) > 0,
    ensures
        size(a.over(b)) == 0,
{
    reveal(Scalar::spec_is_finite);
    lemma_quotient(a, b);
    lemma_units_zero(0);
    lemma_units_zero(size(b));
    let n = units(size(a)) * pow2(149);
    assert(n == 0) by (nonlinear_arith)
        requires
            n == units(size(a)) * pow2(149),
            units(size(a)) == 0,
    ;
    lemma_nearest_against(n, units(size(b)), 0);
}

/// Anything finite times zero is zero.
pub proof fn law_times_zero(a: Scalar, b: Scalar)
    requires
        a.is_finite(),
        b.is_finite(),
        size(a) == 0 || size(b) == 0,
    ensures
        size(a * b) == 0,
{
    lemma_product(a, b);
    lemma_units_zero(0);
    lemma_pow2_149();
    let u = units(size(a));
    let v = units(size(b));
    assert(u == 0 || v == 0 ==> u * v == 0) by (nonlinear_arith);
    lemma_nearest_against(u * v, pow2(149), 0);
}

} // verus!
