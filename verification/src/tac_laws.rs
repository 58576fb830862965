//! How a tic tac leaves the wall.
use crate::amounts::{
    amount, bounded, exact_dot, extent, half_unit, lemma_amounts_ordered, lemma_extent,
    lemma_product_bounded, lemma_scale_in_figures, lemma_sum_off, off,
};
use crate::context::Ctx;
use crate::direction_laws::{along, law_normalized_along, lemma_measured, measurable};
use crate::estimates::{
    lemma_added, lemma_nudge, lemma_product_near, lemma_scaled, lemma_scaling, lemma_stands,
    lemma_taken, nudge, stands,
};
use crate::frame_laws::{lemma_exact_sum, lemma_simple_amounts};
use crate::jump::tac_off;
use crate::jump_laws::lemma_summand_finite;
use crate::laws::finite;
use crate::length_laws::{
    law_direction_is_unit, law_squared_length_rounded, lemma_extent_below, lemma_factor_finite,
    lemma_not_negative, lemma_stretched, lemma_stretched_part, lemma_sum_moderate, slack, speck,
    squared_length,
};
use crate::number_laws::{law_product_finite, law_times_zero, lemma_one};
use crate::reach_laws::lemma_one_times;
use crate::scalar::{group_bits, num, Scalar, ONE, ZERO};
use crate::vector::{up, zero, Vec3};
use crate::wish_laws::{lemma_direction_bounded, lemma_within_two};
use vstd::prelude::*;

verus! {

/// A dot product with a vector whose parts are at most two.
#[verifier::spinoff_prover]
pub proof fn lemma_dot_stands(v: Vec3, n: Vec3, most: real, m: real)
    requires
        v.dot(n).is_finite(),
        most >= 0 as real,
        m >= 8 as real * most,
        bounded(amount(v.x), most),
        bounded(amount(v.y), most),
        bounded(amount(v.z), most),
        bounded(amount(n.x), 2 as real),
        bounded(amount(n.y), 2 as real),
        bounded(amount(n.z), 2 as real),
    ensures
        finite(v),
        finite(n),
        stands(v.dot(n), exact_dot(v, n), m, 5 as real),
        bounded(exact_dot(v, n), 6 as real * most),
{
    reveal(Vec3::spec_dot);
    let (xx, yy, zz) = (v.x * n.x, v.y * n.y, v.z * n.z);
    lemma_summand_finite(xx + yy, zz);
    lemma_summand_finite(xx, yy);
    lemma_factor_finite(v.x, n.x);
    lemma_factor_finite(v.y, n.y);
    lemma_factor_finite(v.z, n.z);
    let (x, y, z) = (amount(v.x), amount(v.y), amount(v.z));
    let (p, q, r) = (amount(n.x), amount(n.y), amount(n.z));
    let two = 2 as real;
    let no = 0 as real;
    let one = 1 as real;
    lemma_product_bounded(x, p, most, two);
    lemma_product_bounded(y, q, most, two);
    lemma_product_bounded(z, r, most, two);
    lemma_stands(v.x, m);
    lemma_stands(v.y, m);
    lemma_stands(v.z, m);
    lemma_scaled(v.x, n.x, x, m, no, two);
    lemma_scaled(v.y, n.y, y, m, no, two);
    lemma_scaled(v.z, n.z, z, m, no, two);
    lemma_added(xx, yy, x * p, y * q, m, one, one);
    lemma_added(xx + yy, zz, x * p + y * q, z * r, m, 3 as real, one);
}

/// The lesser of a number and nothing.
#[verifier::spinoff_prover]
proof fn lemma_into(a: Scalar, x: real, m: real, k: real)
    requires
        stands(a, x, m, k),
    ensures
        stands(
            a.min(num(ZERO)),
            if x < 0 as real {
                x
            } else {
                0 as real
            },
            m,
            k,
        ),
        num(ZERO).is_finite(),
        a.min(num(ZERO)).le(num(ZERO)),
{
    broadcast use group_bits;

    lemma_one();
    lemma_simple_amounts();
    reveal(Scalar::spec_min);
    reveal(Scalar::spec_lt);
    reveal(Scalar::spec_le);
    reveal(Scalar::spec_is_finite);
    let z = num(ZERO);
    if z.lt(a) {
        lemma_amounts_ordered(z, a);
    } else {
        lemma_amounts_ordered(a, z);
    }
    lemma_nudge(m);
    let n = nudge(m);
    assert(k * n >= 0 as real) by (nonlinear_arith)
        requires
            k >= 0 as real,
            n > 0 as real,
    ;
}

/// Whether a normal is level and has length one, but for rounding.
pub open spec fn level_normal(n: Vec3) -> bool {
    &&& finite(n)
    &&& amount(n.y) == 0 as real
    &&& bounded(amount(n.x), 2 as real)
    &&& bounded(amount(n.z), 2 as real)
    &&& off(exact_dot(n, n), 1 as real, 1 as real / 0x1_0000 as real)
}

/// What lies along a wall with a level normal, seen from a vector.
pub open spec fn along_wall(v: Vec3, n: Vec3) -> real {
    amount(v.z) * amount(n.x) - amount(v.x) * amount(n.z)
}

/// The greater of a number and nothing.
pub open spec fn at_least_nothing(x: real) -> real {
    if x < 0 as real {
        0 as real
    } else {
        x
    }
}

/// The parts of a kick before it is scaled, not rounded: off the wall, along it and up.
pub open spec fn off_wall(u: Vec3, n: Vec3) -> real {
    1 as real + at_least_nothing(exact_dot(u, n))
}

/// The vector that a kick points along, and what it stands for.
#[verifier::spinoff_prover]
proof fn lemma_kick(u: Vec3, n: Vec3, factor: Scalar)
    requires
        finite(u),
        bounded(amount(u.x), 3 as real),
        bounded(amount(u.y), 3 as real),
        bounded(amount(u.z), 3 as real),
        finite(n),
        bounded(amount(n.x), 2 as real),
        bounded(amount(n.y), 2 as real),
        bounded(amount(n.z), 2 as real),
        factor.is_finite(),
        extent(factor) <= 0x1000_0000 as real,
    ensures
        ({
            let away = u - n.flat() * (u.dot(n).min(num(ZERO)) - num(ONE));
            let t = up() * factor + away;
            let m = 64 as real + extent(factor);
            let d = exact_dot(u, n);
            let c = (if d < 0 as real {
                d
            } else {
                0 as real
            }) - 1 as real;
            &&& finite(t)
            &&& stands(t.x, amount(u.x) - amount(n.x) * c, 64 as real, 14 as real)
            &&& stands(t.y, amount(factor) + amount(u.y), m, 1 as real)
            &&& stands(t.z, amount(u.z) - amount(n.z) * c, 64 as real, 14 as real)
            &&& bounded(c, 19 as real)
            &&& bounded(amount(t.x), 64 as real)
            &&& bounded(amount(t.z), 64 as real)
        }),
{
    broadcast use group_bits;

    reveal(Vec3::spec_add);
    reveal(Vec3::spec_sub);
    reveal(Vec3::spec_mul);
    lemma_one();
    lemma_simple_amounts();
    lemma_scale_in_figures();
    lemma_extent(factor);
    let m = 64 as real;
    let no = 0 as real;
    let one = 1 as real;
    lemma_nudge(m);
    lemma_dot_finite(u, n);
    lemma_dot_stands(u, n, 3 as real, m);
    let wd = u.dot(n);
    let d = exact_dot(u, n);
    lemma_into(wd, d, m, 5 as real);
    let mn = wd.min(num(ZERO));
    let into = if d < no {
        d
    } else {
        no
    };
    lemma_extent(mn);
    lemma_extent(num(ONE));
    lemma_sum_moderate(mn, num(ONE));
    lemma_stands(num(ONE), m);
    lemma_taken(mn, num(ONE), into, one, m, 5 as real, no);
    let cc = mn - num(ONE);
    let c = into - one;
    lemma_extent(cc);
    lemma_pushed(u.x, n.x, cc, c, m);
    lemma_pushed(u.z, n.z, cc, c, m);
    // Up.
    let tall = 64 as real + extent(factor);
    assert((num(ZERO) * cc).is_finite() && (num(ZERO) * factor).is_finite()) by {
        law_times_zero(num(ZERO), cc);
        law_times_zero(num(ZERO), factor);
        reveal(Scalar::spec_is_finite);
    }
    law_times_zero(num(ZERO), cc);
    lemma_extent(num(ZERO) * cc);
    lemma_exact_sum(u.y, num(ZERO) * cc);
    let ay = u.y - num(ZERO) * cc;
    lemma_one_times(factor);
    lemma_extent(ay);
    lemma_sum_moderate(factor, ay);
    lemma_stands(factor, tall);
    lemma_stands(ay, tall);
    lemma_added(factor, ay, amount(factor), amount(ay), tall, no, no);
    // Aside.
    law_times_zero(num(ZERO), factor);
    lemma_extent(num(ZERO) * factor);
    lemma_exact_sum(num(ZERO) * factor, u.x - n.x * cc);
    lemma_exact_sum(num(ZERO) * factor, u.z - n.z * cc);
}

/// A dot product of small vectors is finite.
#[verifier::spinoff_prover]
pub proof fn lemma_dot_finite(u: Vec3, n: Vec3)
    requires
        finite(u),
        finite(n),
        bounded(amount(u.x), 0x1_0000_0000 as real),
        bounded(amount(u.y), 0x1_0000_0000 as real),
        bounded(amount(u.z), 0x1_0000_0000 as real),
        bounded(amount(n.x), 0x1_0000_0000 as real),
        bounded(amount(n.y), 0x1_0000_0000 as real),
        bounded(amount(n.z), 0x1_0000_0000 as real),
    ensures
        u.dot(n).is_finite(),
{
    reveal(Vec3::spec_dot);
    lemma_product_small(u.x, n.x);
    lemma_product_small(u.y, n.y);
    lemma_product_small(u.z, n.z);
    let (xx, yy, zz) = (u.x * n.x, u.y * n.y, u.z * n.z);
    lemma_sum_moderate(xx, yy);
    lemma_sum_small(xx, yy);
    lemma_sum_moderate(xx + yy, zz);
}

#[verifier::spinoff_prover]
proof fn lemma_product_small(a: Scalar, b: Scalar)
    requires
        a.is_finite(),
        b.is_finite(),
        bounded(amount(a), 0x1_0000_0000 as real),
        bounded(amount(b), 0x1_0000_0000 as real),
    ensures
        (a * b).is_finite(),
        extent(a * b) <= 0x2_0000_0000_0000_0000 as real,
{
    lemma_extent(a);
    lemma_extent(b);
    lemma_extent_below(a);
    lemma_extent_below(b);
    law_product_finite(a, b);
    lemma_scale_in_figures();
    lemma_extent(a * b);
    let k = 0x1_0000_0000 as real;
    lemma_product_bounded(amount(a), amount(b), k, k);
    lemma_stands(a, k * k);
    assert(k * k == 0x1_0000_0000_0000_0000 as real) by (nonlinear_arith)
        requires
            k == 0x1_0000_0000 as real,
    ;
    lemma_product_near(a, b, amount(a), amount(b), k, k, 0 as real, 0 as real);
    let no = 0 as real;
    assert(k * no + no * k + no * no == no && (k + no) * (k + no) == k * k) by (nonlinear_arith)
        requires
            no == 0 as real,
    ;
}

#[verifier::spinoff_prover]
proof fn lemma_sum_small(a: Scalar, b: Scalar)
    requires
        (a + b).is_finite(),
        a.is_finite(),
        b.is_finite(),
        extent(a) <= 0x2_0000_0000_0000_0000 as real,
        extent(b) <= 0x2_0000_0000_0000_0000 as real,
    ensures
        extent(a + b) <= 0x8_0000_0000_0000_0000 as real,
{
    lemma_extent(a);
    lemma_extent(b);
    lemma_extent(a + b);
    lemma_sum_off(a, b, 0x4_0000_0000_0000_0000 as real);
}

/// One horizontal part of what a kick points along.
#[verifier::spinoff_prover]
proof fn lemma_pushed(u: Scalar, n: Scalar, cc: Scalar, c: real, m: real)
    requires
        u.is_finite(),
        n.is_finite(),
        bounded(amount(u), 3 as real),
        bounded(amount(n), 2 as real),
        stands(cc, c, m, 6 as real),
        bounded(c, 19 as real),
        m == 64 as real,
    ensures
        (u - n * cc).is_finite(),
        stands(u - n * cc, amount(u) - amount(n) * c, m, 14 as real),
        bounded(amount(u - n * cc), 64 as real),
{
    lemma_scale_in_figures();
    lemma_extent(u);
    lemma_extent(n);
    lemma_extent(cc);
    lemma_nudge(m);
    lemma_extent_below(n);
    lemma_extent_below(cc);
    law_product_finite(n, cc);
    lemma_product_bounded(amount(n), c, 2 as real, 19 as real);
    lemma_scaling(n, cc, c, m, 6 as real, 2 as real);
    let p = n * cc;
    lemma_extent(p);
    lemma_sum_moderate(u, p);
    lemma_stands(u, m);
    lemma_taken(u, p, amount(u), amount(n) * c, m, 0 as real, 13 as real);
}

/// Two parts seen along a normal and across it.
#[verifier::spinoff_prover]
proof fn lemma_turned_square(a: real, b: real, x: real, z: real)
    ensures
        ({
            let f = a * x + b * z;
            let g = b * x - a * z;
            f * f + g * g == (a * a + b * b) * (x * x + z * z)
        }),
{
    let (ax, bz, bx, az) = (a * x, b * z, b * x, a * z);
    let f = ax + bz;
    let g = bx - az;
    assert(f * f == ax * ax + 2 as real * (ax * bz) + bz * bz) by (nonlinear_arith)
        requires
            f == ax + bz,
    ;
    assert(g * g == bx * bx - 2 as real * (bx * az) + az * az) by (nonlinear_arith)
        requires
            g == bx - az,
    ;
    assert(ax * bz == bx * az) by (nonlinear_arith)
        requires
            ax == a * x,
            bz == b * z,
            bx == b * x,
            az == a * z,
    ;
    let (aa, bb, xx, zz) = (a * a, b * b, x * x, z * z);
    assert(ax * ax == aa * xx) by (nonlinear_arith)
        requires
            ax == a * x,
            aa == a * a,
            xx == x * x,
    ;
    assert(bz * bz == bb * zz) by (nonlinear_arith)
        requires
            bz == b * z,
            bb == b * b,
            zz == z * z,
    ;
    assert(bx * bx == bb * xx) by (nonlinear_arith)
        requires
            bx == b * x,
            bb == b * b,
            xx == x * x,
    ;
    assert(az * az == aa * zz) by (nonlinear_arith)
        requires
            az == a * z,
            aa == a * a,
            zz == z * z,
    ;
    assert((aa + bb) * (xx + zz) == aa * xx + aa * zz + bb * xx + bb * zz) by (nonlinear_arith);
}

/// What a kick points along, off the wall and along it.
#[verifier::spinoff_prover]
proof fn lemma_kick_parts(u: Vec3, n: Vec3, t: Vec3, c: real)
    requires
        level_normal(n),
        bounded(c, 19 as real),
        c == exact_dot(u, n) - at_least_nothing(exact_dot(u, n)) - 1 as real,
        off(amount(t.x), amount(u.x) - amount(n.x) * c, 1 as real / 0x2000 as real),
        off(amount(t.z), amount(u.z) - amount(n.z) * c, 1 as real / 0x2000 as real),
    ensures
        off(
            amount(t.x) * amount(n.x) + amount(t.z) * amount(n.z),
            off_wall(u, n),
            1 as real / 0x400 as real,
        ),
        off(along_wall(t, n), along_wall(u, n), 1 as real / 0x400 as real),
{
    let (a, b) = (amount(t.x), amount(t.z));
    let (p, q) = (amount(u.x), amount(u.z));
    let (x, z) = (amount(n.x), amount(n.z));
    let e = 1 as real / 0x2000 as real;
    let f = a - (p - x * c);
    let g = b - (q - z * c);
    lemma_product_bounded(f, x, e, 2 as real);
    lemma_product_bounded(f, z, e, 2 as real);
    lemma_product_bounded(g, x, e, 2 as real);
    lemma_product_bounded(g, z, e, 2 as real);
    let w = amount(u.y);
    let v = amount(n.y);
    assert(w * v == 0 as real && v * v == 0 as real) by (nonlinear_arith)
        requires
            v == 0 as real,
    ;
    let nn = x * x + z * z;
    let d = exact_dot(u, n);
    let h = nn - 1 as real;
    lemma_product_bounded(c, h, 19 as real, 1 as real / 0x1_0000 as real);
    assert(a * x == p * x - (x * x) * c + f * x) by (nonlinear_arith)
        requires
            f == a - (p - x * c),
    ;
    assert(b * z == q * z - (z * z) * c + g * z) by (nonlinear_arith)
        requires
            g == b - (q - z * c),
    ;
    assert((x * x) * c + (z * z) * c == c + c * h) by (nonlinear_arith)
        requires
            h == x * x + z * z - 1 as real,
    ;
    assert(b * x == q * x - (z * x) * c + g * x) by (nonlinear_arith)
        requires
            g == b - (q - z * c),
    ;
    assert(a * z == p * z - (z * x) * c + f * z) by (nonlinear_arith)
        requires
            f == a - (p - x * c),
    ;
}

/// What a kick points along can be measured, and is not short.
#[verifier::spinoff_prover]
proof fn lemma_kick_measured(u: Vec3, n: Vec3, t: Vec3)
    requires
        level_normal(n),
        finite(t),
        bounded(amount(t.x), 64 as real),
        bounded(amount(t.y), 0x1_0000_0000 as real),
        bounded(amount(t.z), 64 as real),
        off(
            amount(t.x) * amount(n.x) + amount(t.z) * amount(n.z),
            off_wall(u, n),
            1 as real / 0x400 as real,
        ),
    ensures
        measurable(t),
        1 as real / extent(t.length()) <= 2 as real,
        1 as real / extent(t.length()) > 0 as real,
{
    reveal(Vec3::spec_length_squared);
    let (a, b) = (amount(t.x), amount(t.z));
    let (x, z) = (amount(n.x), amount(n.z));
    lemma_turned_square(a, b, x, z);
    let f = a * x + b * z;
    let g = b * x - a * z;
    lemma_not_negative(g);
    let aa = a * a + b * b;
    let v = amount(n.y);
    assert(v * v == 0 as real) by (nonlinear_arith)
        requires
            v == 0 as real,
    ;
    let nn = x * x + z * z;
    lemma_not_negative(a);
    lemma_not_negative(b);
    assert(f * f >= 15 as real / 16 as real) by (nonlinear_arith)
        requires
            f >= 1 as real - 1 as real / 0x400 as real,
    ;
    assert(aa >= 7 as real / 8 as real) by (nonlinear_arith)
        requires
            aa * nn >= 15 as real / 16 as real,
            nn <= 1 as real + 1 as real / 0x1_0000 as real,
            nn >= 0 as real,
            aa >= 0 as real,
    {
        assert(aa * nn <= aa * (1 as real + 1 as real / 0x1_0000 as real));
    }
    lemma_dot_finite(t, t);
    lemma_extent(t.x);
    lemma_extent(t.y);
    lemma_extent(t.z);
    law_squared_length_rounded(t);
    lemma_not_negative(extent(t.y));
    let (ex, ez) = (extent(t.x), extent(t.z));
    assert(ex * ex == a * a && ez * ez == b * b) by (nonlinear_arith)
        requires
            a == ex || a == 0 as real - ex,
            b == ez || b == 0 as real - ez,
    ;
    lemma_scale_in_figures();
    let l = extent(t.length_squared());
    lemma_extent(t.length_squared());
    assert(l >= 1 as real / 2 as real);
    lemma_measured(t);
    let r = extent(t.length());
    let rr = r * r;
    let k = 1 as real / r;
    assert(r >= 1 as real / 2 as real) by (nonlinear_arith)
        requires
            rr == r * r,
            r > 0 as real,
            7 as real / 8 as real <= rr + rr / 0x10_0000 as real,
    {
        if r < 1 as real / 2 as real {
            assert(r * r < 1 as real / 4 as real);
        }
    }
    assert(k <= 2 as real && k > 0 as real) by (nonlinear_arith)
        requires
            k == 1 as real / r,
            r >= 1 as real / 2 as real,
    ;
}

/// What two roundings move a part of a kick at most.
spec fn jolt(p: real) -> real {
    p / 0x4_0000 as real + 2 as real * half_unit() * (p + 1 as real)
}

/// Two numbers, one after the other, times one part of a direction.
#[verifier::spinoff_prover]
proof fn lemma_strengthened(d: Scalar, g: Scalar, p: Scalar, x: real)
    requires
        (d * g * p).is_finite(),
        off(amount(d), x, 1 as real / 0x10_0000 as real),
        bounded(x, 2 as real),
        0 as real <= amount(g),
        amount(g) <= 1 as real,
        amount(p) >= 0 as real,
    ensures
        off(
            amount(d * g * p),
            (x * amount(g)) * amount(p),
            jolt(amount(p)),
        ),
{
    lemma_scale_in_figures();
    lemma_factor_finite(d * g, p);
    let (y, q) = (amount(g), amount(p));
    let e = 1 as real / 0x10_0000 as real;
    let no = 0 as real;
    let h = half_unit();
    lemma_product_near(d, g, x, y, 2 as real, 1 as real, e, no);
    lemma_product_bounded(x, y, 2 as real, 1 as real);
    let f = e + ((2 as real + e) * 1 as real) / 0x100_0000 as real + h;
    assert(2 as real * no + e * 1 as real + e * no + ((2 as real + e) * (1 as real + no))
        / 0x100_0000 as real + h == f) by (nonlinear_arith)
        requires
            no == 0 as real,
            f == e + ((2 as real + e) * 1 as real) / 0x100_0000 as real + h,
    ;
    let xy = x * y;
    lemma_product_near(d * g, p, xy, q, 2 as real, q, f, no);
    assert(2 as real * no + f * q + f * no + ((2 as real + f) * (q + no)) / 0x100_0000 as real + h
        <= q / 0x4_0000 as real + 2 as real * h * (q + 1 as real)) by (nonlinear_arith)
        requires
            no == 0 as real,
            f == e + ((2 as real + e) * 1 as real) / 0x100_0000 as real + h,
            e == 1 as real / 0x10_0000 as real,
            0 as real <= h,
            h <= 1 as real / 0x100_0000 as real,
            q >= 0 as real,
    {
        assert(f * q == (e + (2 as real + e) / 0x100_0000 as real) * q + h * q);
        assert((2 as real + f) * (q + no) == 2 as real * q + f * q);
        assert(2 as real * h * (q + 1 as real) == 2 as real * (h * q) + 2 as real * h);
        assert(h * q >= 0 as real);
    }
}

/// How far apart a kick and what it is made of may be.
pub open spec fn shake(power: real) -> real {
    power / 0x80 as real + 16 as real * half_unit() * (power + 1 as real)
}

/// Whether a kick goes off the wall by one, and by what the wish has off it already; along the wall
/// as the wish does; and up as the wish does and by the jump factor: all times `k`. Here `u` is the
/// direction of the wish and `n` the normal of the wall.
pub open spec fn kicked(
    kick: Vec3,
    u: Vec3,
    n: Vec3,
    factor: Scalar,
    power: real,
    k: real,
) -> bool {
    &&& k >= 0 as real
    &&& off(exact_dot(kick, n), k * off_wall(u, n), shake(power))
    &&& off(along_wall(kick, n), k * along_wall(u, n), shake(power))
    &&& off(
        amount(kick.y),
        k * (amount(factor) + amount(u.y)),
        shake(power * (1 as real + extent(factor))),
    )
}

/// No more than one.
pub open spec fn at_most_one(x: real) -> real {
    if x > 1 as real {
        1 as real
    } else {
        x
    }
}

/// Whether a vector is `g` times `p` long, but for rounding.
pub open spec fn as_long(v: Vec3, g: real, p: real) -> bool {
    off(
        squared_length(v),
        (g * g) * (p * p),
        ((g * g) * (p * p)) / 0x4000 as real + 2 as real * slack() * (p * p + 1 as real),
    )
}

/// How hard a kick is: as much as was built up, but not more than one.
#[verifier::spinoff_prover]
proof fn lemma_strength(built: Scalar, into: Scalar)
    requires
        built.is_finite(),
        num(ZERO).le(built),
        into.le(num(ZERO)),
    ensures
        ({
            let g = built.max(into).min(num(ONE));
            &&& g.is_finite()
            &&& amount(g) == at_most_one(amount(built))
            &&& amount(g) >= 0 as real
            &&& amount(g) <= 1 as real
        }),
{
    broadcast use group_bits;

    reveal(Scalar::spec_min);
    reveal(Scalar::spec_max);
    reveal(Scalar::spec_lt);
    reveal(Scalar::spec_le);
    reveal(Scalar::spec_is_finite);
    lemma_one();
    lemma_simple_amounts();
    lemma_amounts_ordered(num(ZERO), built);
    let one = num(ONE);
    let g = built.max(into);
    assert(g == built);
    if one.lt(built) {
        lemma_amounts_ordered(one, built);
    } else {
        lemma_amounts_ordered(built, one);
    }
}

/// A kick off a wall, seen along the wall's normal, along the wall and up.
#[verifier::spinoff_prover]
proof fn lemma_kicked(kick: Vec3, t: Vec3, u: Vec3, n: Vec3, factor: Scalar, p: real, k: real)
    requires
        level_normal(n),
        p >= 0 as real,
        k >= 0 as real,
        k <= 2 as real * p,
        off(amount(kick.x), k * amount(t.x), jolt(p)),
        off(amount(kick.y), k * amount(t.y), jolt(p)),
        off(amount(kick.z), k * amount(t.z), jolt(p)),
        off(
            amount(t.x) * amount(n.x) + amount(t.z) * amount(n.z),
            off_wall(u, n),
            1 as real / 0x400 as real,
        ),
        off(along_wall(t, n), along_wall(u, n), 1 as real / 0x400 as real),
        off(
            amount(t.y),
            amount(factor) + amount(u.y),
            (1 as real + extent(factor)) / 0x1_0000 as real,
        ),
    ensures
        kicked(kick, u, n, factor, p, k),
{
    lemma_scale_in_figures();
    lemma_extent(factor);
    let h = half_unit();
    let e = p / 0x4_0000 as real + 2 as real * h * (p + 1 as real);
    let (x, z) = (amount(n.x), amount(n.z));
    let (a, b, c) = (amount(t.x), amount(t.y), amount(t.z));
    let (d, f, g) = (amount(kick.x), amount(kick.y), amount(kick.z));
    let (i, j) = (d - k * a, g - k * c);
    let two = 2 as real;
    let hp = h * (p + 1 as real);
    assert(hp >= 0 as real) by (nonlinear_arith)
        requires
            hp == h * (p + 1 as real),
            h >= 0 as real,
            p >= 0 as real,
    ;
    assert(two * h * (p + 1 as real) == two * hp && 16 as real * h * (p + 1 as real) == 16 as real
        * hp) by (nonlinear_arith)
        requires
            two == 2 as real,
            hp == h * (p + 1 as real),
    ;
    lemma_product_bounded(i, x, e, two);
    lemma_product_bounded(i, z, e, two);
    lemma_product_bounded(j, x, e, two);
    lemma_product_bounded(j, z, e, two);
    let v = amount(n.y);
    assert(f * v == 0 as real) by (nonlinear_arith)
        requires
            v == 0 as real,
    ;
    let w = a * x + c * z;
    let l = c * x - a * z;
    lemma_part_seen(d, k, a, x);
    lemma_part_seen(d, k, a, z);
    lemma_part_seen(g, k, c, x);
    lemma_part_seen(g, k, c, z);
    assert(k * w == k * (a * x) + k * (c * z)) by (nonlinear_arith)
        requires
            w == a * x + c * z,
    ;
    assert(k * l == k * (c * x) - k * (a * z)) by (nonlinear_arith)
        requires
            l == c * x - a * z,
    ;
    let small = 1 as real / 0x400 as real;
    let (ow, al) = (off_wall(u, n), along_wall(u, n));
    let (dw, dl) = (w - ow, l - al);
    lemma_product_bounded(k, dw, two * p, small);
    lemma_product_bounded(k, dl, two * p, small);
    lemma_apart(k, w, ow);
    lemma_apart(k, l, al);
    let rise = amount(factor) + amount(u.y);
    let db = b - rise;
    let o = 1 as real + extent(factor);
    lemma_product_bounded(k, db, two * p, o / 0x1_0000 as real);
    lemma_apart(k, b, rise);
    let po = p * o;
    lemma_more_than(p, o);
    let q = o / 0x1_0000 as real;
    assert((two * p) * q == two * (p * q)) by (nonlinear_arith)
        requires
            two == 2 as real,
    ;
    assert(p * q == po / 0x1_0000 as real) by (nonlinear_arith)
        requires
            q == o / 0x1_0000 as real,
            po == p * o,
    ;
    let hpo = h * (po + 1 as real);
    assert(hpo >= hp) by (nonlinear_arith)
        requires
            hpo == h * (po + 1 as real),
            hp == h * (p + 1 as real),
            po >= p,
            h >= 0 as real,
    ;
    assert(16 as real * h * (po + 1 as real) == 16 as real * hpo) by (nonlinear_arith)
        requires
            hpo == h * (po + 1 as real),
    ;
}

#[verifier::spinoff_prover]
proof fn lemma_apart(k: real, x: real, y: real)
    ensures
        k * x == k * y + k * (x - y),
{
    assert(k * x == k * y + k * (x - y)) by (nonlinear_arith);
}

#[verifier::spinoff_prover]
proof fn lemma_part_seen(d: real, k: real, a: real, x: real)
    ensures
        d * x == k * (a * x) + (d - k * a) * x,
{
    assert((k * a) * x == k * (a * x)) by (nonlinear_arith);
    let ka = k * a;
    assert(d * x == ka * x + (d - ka) * x) by (nonlinear_arith);
}

#[verifier::spinoff_prover]
proof fn lemma_more_than(p: real, o: real)
    requires
        p >= 0 as real,
        o >= 1 as real,
    ensures
        p * o >= p,
{
    let k = o - 1 as real;
    assert(p * k >= 0 as real) by (nonlinear_arith)
        requires
            p >= 0 as real,
            k >= 0 as real,
    ;
    assert(p * o == p + p * k) by (nonlinear_arith)
        requires
            k == o - 1 as real,
    ;
}

/// A tic tac kicks off the wall. Before it is tilted up, the kick has one unit along the wall's
/// normal, and what the wish has off the wall already: what the wish has into the wall is taken out
/// of it. Along the wall it has what the wish has. It goes up by the jump factor, and by what the
/// wish rises. All this is scaled by one factor, such that the kick is as long as its power, times
/// what was built up, but for rounding. The normal is level and of length one, the wish not so
/// small that its square loses digits, and the jump factor at most two to the power 28.
#[verifier::spinoff_prover]
pub proof fn law_kick(c: Ctx, wish_velocity: Vec3, n: Vec3)
    requires
        measurable(wish_velocity),
        level_normal(n),
        c.cfg.tac_jump_factor.is_finite(),
        extent(c.cfg.tac_jump_factor) <= 0x1000_0000 as real,
        c.state.tac_velocity.is_finite(),
        num(ZERO).le(c.state.tac_velocity),
        num(ZERO).le(c.cfg.tac_power),
        tac_off(c, wish_velocity, n) matches Some((_, kick)) && finite(kick),
    ensures
        tac_off(c, wish_velocity, n) matches Some((after, kick)) && {
            let u = wish_velocity.normalize();
            let p = amount(c.cfg.tac_power);
            &&& along(u, wish_velocity, 1 as real / extent(wish_velocity.length()))
            &&& after.state.tac_velocity == num(ZERO)
            &&& exists|k: real| #[trigger]
                kicked(kick, u, n, c.cfg.tac_jump_factor, p, k) && k <= 2 as real * p * at_most_one(
                    amount(c.state.tac_velocity),
                )
            &&& as_long(kick, at_most_one(amount(c.state.tac_velocity)), p)
        },
{
    broadcast use group_bits;

    reveal(tac_off);
    reveal(Vec3::spec_mul);
    lemma_scale_in_figures();
    lemma_simple_amounts();
    law_normalized_along(wish_velocity);
    lemma_direction_bounded(wish_velocity);
    let u = wish_velocity.normalize();
    let jf = c.cfg.tac_jump_factor;
    lemma_extent(jf);
    lemma_kick(u, n, jf);
    let away = u - n.flat() * (u.dot(n).min(num(ZERO)) - num(ONE));
    let t = up() * jf + away;
    let d = exact_dot(u, n);
    let into = (if d < 0 as real {
        d
    } else {
        0 as real
    }) - 1 as real;
    lemma_kick_parts(u, n, t, into);
    lemma_kick_measured(u, n, t);
    law_normalized_along(t);
    lemma_measured(t);
    let r = extent(t.length());
    let k0 = 1 as real / r;
    lemma_within_two(t.x, r);
    lemma_within_two(t.y, r);
    lemma_within_two(t.z, r);
    let dir = t.normalize();
    let vd = c.velocity.dot(n).min(num(ZERO));
    assert(vd.le(num(ZERO))) by {
        reveal(Scalar::spec_min);
        reveal(Scalar::spec_lt);
        reveal(Scalar::spec_le);
    }
    lemma_strength(c.state.tac_velocity, vd);
    let g = c.state.tac_velocity.max(vd).min(num(ONE));
    let power = c.cfg.tac_power;
    let kick = dir * g * power;
    lemma_factor_finite(dir.x * g, power);
    assert(amount(power) >= 0 as real) by {
        lemma_one();
        reveal(Scalar::spec_is_finite);
        lemma_amounts_ordered(num(ZERO), power);
    }
    lemma_strengthened(dir.x, g, power, k0 * amount(t.x));
    lemma_strengthened(dir.y, g, power, k0 * amount(t.y));
    lemma_strengthened(dir.z, g, power, k0 * amount(t.z));
    let p = amount(power);
    let gg = amount(g);
    let k = k0 * gg * p;
    lemma_regrouped(k0, amount(t.x), gg, p);
    lemma_regrouped(k0, amount(t.y), gg, p);
    lemma_regrouped(k0, amount(t.z), gg, p);
    lemma_scaled_by(k0, gg, p);
    lemma_kicked(kick, t, u, n, jf, p, k);
    lemma_kick_length(t, g, power);
}

#[verifier::spinoff_prover]
proof fn lemma_regrouped(k: real, t: real, g: real, p: real)
    ensures
        ((k * t) * g) * p == (k * g * p) * t,
{
    let kg = k * g;
    assert((k * t) * g == kg * t) by (nonlinear_arith)
        requires
            kg == k * g,
    ;
    assert((kg * t) * p == (kg * p) * t) by (nonlinear_arith);
}

#[verifier::spinoff_prover]
proof fn lemma_scaled_by(k: real, g: real, p: real)
    requires
        k > 0 as real,
        k <= 2 as real,
        g >= 0 as real,
        g <= 1 as real,
        p >= 0 as real,
    ensures
        k * g * p >= 0 as real,
        k * g * p <= 2 as real * p * g,
        2 as real * p * g <= 2 as real * p,
{
    let pg = p * g;
    assert(pg >= 0 as real) by (nonlinear_arith)
        requires
            pg == p * g,
            p >= 0 as real,
            g >= 0 as real,
    ;
    assert(pg <= p) by (nonlinear_arith)
        requires
            pg == p * g,
            p >= 0 as real,
            g <= 1 as real,
    ;
    assert(k * g * p == k * pg) by (nonlinear_arith)
        requires
            pg == p * g,
    ;
    assert(2 as real * p * g == 2 as real * pg) by (nonlinear_arith)
        requires
            pg == p * g,
    ;
    assert(k * pg >= 0 as real) by (nonlinear_arith)
        requires
            k > 0 as real,
            pg >= 0 as real,
    ;
    assert(k * pg <= 2 as real * pg) by (nonlinear_arith)
        requires
            k <= 2 as real,
            pg >= 0 as real,
    ;
}

/// A sum of three squares, each scaled by a square and rounded.
#[verifier::spinoff_prover]
proof fn lemma_stretched_again(a: real, b: real, c: real, mm: real, p: real, q: real, o: real)
    requires
        mm >= 0 as real,
        a >= 0 as real,
        b >= 0 as real,
        c >= 0 as real,
        p <= a * mm + (a * mm) / 0x10_0000 as real + speck(),
        a * mm <= p + (a * mm) / 0x10_0000 as real + speck(),
        q <= b * mm + (b * mm) / 0x10_0000 as real + speck(),
        b * mm <= q + (b * mm) / 0x10_0000 as real + speck(),
        o <= c * mm + (c * mm) / 0x10_0000 as real + speck(),
        c * mm <= o + (c * mm) / 0x10_0000 as real + speck(),
    ensures
        off(
            p + q + o,
            (a + b + c) * mm,
            ((a + b + c) * mm) / 0x10_0000 as real + 3 as real * speck(),
        ),
{
    let n = a + b + c;
    assert(n * mm == a * mm + b * mm + c * mm) by (nonlinear_arith)
        requires
            n == a + b + c,
    ;
}

/// How long a kick is.
#[verifier::spinoff_prover]
proof fn lemma_kick_length(t: Vec3, g: Scalar, power: Scalar)
    requires
        measurable(t),
        finite(t.normalize() * g * power),
        g.is_finite(),
        power.is_finite(),
    ensures
        ({
            let gg = amount(g) * amount(g);
            let pp = amount(power) * amount(power);
            off(
                squared_length(t.normalize() * g * power),
                gg * pp,
                (gg * pp) / 0x4000 as real + 2 as real * slack() * (pp + 1 as real),
            )
        }),
{
    reveal(Vec3::spec_mul);
    law_normalized_along(t);
    law_direction_is_unit(t);
    lemma_simple_amounts();
    let dir = t.normalize();
    let k = 1 as real / extent(t.length());
    if dir == zero() {
        lemma_not_zero_length(t, k);
    }
    let mid = dir * g;
    let kick = mid * power;
    lemma_factor_finite(mid.x, power);
    lemma_factor_finite(mid.y, power);
    lemma_factor_finite(mid.z, power);
    lemma_stretched_part(dir.x, g);
    lemma_stretched_part(dir.y, g);
    lemma_stretched_part(dir.z, g);
    lemma_stretched_part(mid.x, power);
    lemma_stretched_part(mid.y, power);
    lemma_stretched_part(mid.z, power);
    let (a, b, c) = (
        extent(dir.x) * extent(dir.x),
        extent(dir.y) * extent(dir.y),
        extent(dir.z) * extent(dir.z),
    );
    let (d, e, f) = (
        extent(mid.x) * extent(mid.x),
        extent(mid.y) * extent(mid.y),
        extent(mid.z) * extent(mid.z),
    );
    let (x, y, z) = (
        extent(kick.x) * extent(kick.x),
        extent(kick.y) * extent(kick.y),
        extent(kick.z) * extent(kick.z),
    );
    let gg = extent(g) * extent(g);
    let pp = extent(power) * extent(power);
    lemma_not_negative(extent(g));
    lemma_not_negative(extent(power));
    lemma_not_negative(extent(mid.x));
    lemma_not_negative(extent(mid.y));
    lemma_not_negative(extent(mid.z));
    lemma_stretched(a, b, c, gg, d, e, f);
    lemma_stretched_again(d, e, f, pp, x, y, z);
    lemma_squared_amount(g);
    lemma_squared_amount(power);
    let s = d + e + f;
    let all = gg * pp;
    let sp = s * pp;
    let h = s - gg;
    let hp = h * pp;
    assert(sp == all + hp) by (nonlinear_arith)
        requires
            sp == s * pp,
            all == gg * pp,
            hp == h * pp,
            h == s - gg,
    ;
    let w = gg / 0x1_0000 as real + slack();
    lemma_product_bounded(h, pp, w, pp);
    let sl = slack();
    let slp = sl * pp;
    assert(w * pp == (gg * pp) / 0x1_0000 as real + slp) by (nonlinear_arith)
        requires
            w == gg / 0x1_0000 as real + sl,
            slp == sl * pp,
    ;
    assert(all >= 0 as real) by (nonlinear_arith)
        requires
            all == gg * pp,
            gg >= 0 as real,
            pp >= 0 as real,
    ;
    assert(slp >= 0 as real) by (nonlinear_arith)
        requires
            slp == sl * pp,
            sl >= 0 as real,
            pp >= 0 as real,
    ;
    assert(2 as real * sl * (pp + 1 as real) == 2 as real * slp + 2 as real * sl)
        by (nonlinear_arith)
        requires
            slp == sl * pp,
    ;
}

#[verifier::spinoff_prover]
pub proof fn lemma_squared_amount(a: Scalar)
    ensures
        amount(a) * amount(a) == extent(a) * extent(a),
{
    let (x, y) = (amount(a), extent(a));
    assert(x * x == y * y) by (nonlinear_arith)
        requires
            x == y || x == 0 as real - y,
    ;
}

/// What is scaled to length one does not vanish.
#[verifier::spinoff_prover]
pub proof fn lemma_not_zero_length(t: Vec3, k: real)
    ensures
        !along(zero(), t, k),
{
    if along(zero(), t, k) {
        lemma_tiny_length(t, k);
    }
}

#[verifier::spinoff_prover]
proof fn lemma_tiny_length(t: Vec3, k: real)
    requires
        along(zero(), t, k),
    ensures
        (k * k) * squared_length(t) <= 1 as real / 0x10_0000 as real,
{
    lemma_simple_amounts();
    let (x, y, z) = (amount(t.x), amount(t.y), amount(t.z));
    let e = 1 as real / 0x10_0000 as real;
    let (a, b, c) = (k * x, k * y, k * z);
    lemma_product_bounded(a, a, e, e);
    lemma_product_bounded(b, b, e, e);
    lemma_product_bounded(c, c, e, e);
    lemma_squared_amount(t.x);
    lemma_squared_amount(t.y);
    lemma_squared_amount(t.z);
    lemma_square_of_product(k, x);
    lemma_square_of_product(k, y);
    lemma_square_of_product(k, z);
    let kk = k * k;
    let (p, q, r) = (x * x, y * y, z * z);
    let all = p + q + r;
    assert(kk * all == kk * p + kk * q + kk * r) by (nonlinear_arith)
        requires
            all == p + q + r,
    ;
}

#[verifier::spinoff_prover]
pub proof fn lemma_square_of_product(k: real, x: real)
    ensures
        (k * x) * (k * x) == (k * k) * (x * x),
{
    let a = k * x;
    assert(a * k == (k * k) * x) by (nonlinear_arith)
        requires
            a == k * x,
    ;
    let kk = k * k;
    assert(a * a == (a * k) * x) by (nonlinear_arith)
        requires
            a == k * x,
    ;
    assert((kk * x) * x == kk * (x * x)) by (nonlinear_arith);
}

/// What a kick does to a horizontal part of the wish, not rounded: `n` is that part of the normal,
/// and `d` what the wish has along the whole normal.
pub open spec fn pushed_off(u: real, n: real, d: real) -> real {
    u + n * (1 as real + at_least_nothing(d) - d)
}

/// Whether a kick points along what the wall makes of the wish, all times `k`, but for rounding:
/// the wall pushes horizontally only, whichever way its normal leans.
pub open spec fn leaned(
    kick: Vec3,
    u: Vec3,
    n: Vec3,
    factor: Scalar,
    power: real,
    k: real,
) -> bool {
    let d = exact_dot(u, n);
    &&& k >= 0 as real
    &&& off(amount(kick.x), k * pushed_off(amount(u.x), amount(n.x), d), shake(power))
    &&& off(amount(kick.y), k * (amount(factor) + amount(u.y)), shake(power))
    &&& off(amount(kick.z), k * pushed_off(amount(u.z), amount(n.z), d), shake(power))
}

/// A vector that is not short in one of its parts can be measured.
#[verifier::spinoff_prover]
proof fn lemma_long_enough(t: Vec3)
    requires
        finite(t),
        bounded(amount(t.x), 64 as real),
        bounded(amount(t.y), 0x1_0000_0000 as real),
        bounded(amount(t.z), 64 as real),
        amount(t.x) * amount(t.x) + amount(t.y) * amount(t.y) + amount(t.z) * amount(t.z)
            >= 1 as real / 16 as real,
    ensures
        measurable(t),
        1 as real / extent(t.length()) <= 8 as real,
        1 as real / extent(t.length()) > 0 as real,
{
    reveal(Vec3::spec_length_squared);
    lemma_dot_finite(t, t);
    lemma_squared_amount(t.x);
    lemma_squared_amount(t.y);
    lemma_squared_amount(t.z);
    lemma_scale_in_figures();
    law_squared_length_rounded(t);
    let l = extent(t.length_squared());
    lemma_extent(t.length_squared());
    assert(l >= 1 as real / 32 as real);
    lemma_measured(t);
    let r = extent(t.length());
    let rr = r * r;
    assert(rr >= 1 as real / 32 as real);
    assert(r >= 1 as real / 8 as real) by (nonlinear_arith)
        requires
            rr == r * r,
            r > 0 as real,
            rr >= 1 as real / 32 as real,
    {
        if r < 1 as real / 8 as real {
            assert(r * r < 1 as real / 64 as real);
        }
    }
    let k = 1 as real / r;
    assert(k <= 8 as real && k > 0 as real) by (nonlinear_arith)
        requires
            k == 1 as real / r,
            r >= 1 as real / 8 as real,
    ;
}

/// A part that is near another one has nearly as large a square.
#[verifier::spinoff_prover]
proof fn lemma_near_square(t: real, e: real, d: real)
    requires
        off(t, e, d),
        0 as real <= d,
        d <= 1 as real / 0x100 as real,
    ensures
        4 as real * (t * t) >= 2 as real * (e * e) - 4 as real * (d * d),
{
    let f = t - e;
    lemma_product_bounded(f, f, d, d);
    let g = 2 as real * t - e;
    lemma_not_negative(g);
    assert(g * g == 4 as real * (t * t) - 4 as real * (t * e) + e * e) by (nonlinear_arith)
        requires
            g == 2 as real * t - e,
    ;
    assert(f * f == t * t - 2 as real * (t * e) + e * e) by (nonlinear_arith)
        requires
            f == t - e,
    ;
    lemma_not_negative(t);
}

/// One part of a kick, seen from what it is made of.
#[verifier::spinoff_prover]
proof fn lemma_leaned_part(kick: Scalar, t: real, e: real, d: real, p: real, k: real)
    requires
        off(amount(kick), k * t, jolt(p)),
        off(t, e, d),
        0 as real <= d,
        d <= 1 as real / 0x700 as real,
        0 as real <= k,
        k <= 8 as real * p,
        p >= 0 as real,
    ensures
        off(amount(kick), k * e, shake(p)),
{
    lemma_scale_in_figures();
    let f = t - e;
    lemma_product_bounded(k, f, 8 as real * p, d);
    lemma_apart(k, t, e);
    let pd = p * d;
    assert((8 as real * p) * d == 8 as real * pd) by (nonlinear_arith)
        requires
            pd == p * d,
    ;
    assert(pd <= p / 0x700 as real) by (nonlinear_arith)
        requires
            pd == p * d,
            p >= 0 as real,
            d <= 1 as real / 0x700 as real,
    ;
    let h = half_unit();
    let hp = h * (p + 1 as real);
    assert(hp >= 0 as real) by (nonlinear_arith)
        requires
            hp == h * (p + 1 as real),
            h >= 0 as real,
            p >= 0 as real,
    ;
    assert(2 as real * h * (p + 1 as real) == 2 as real * hp && 16 as real * h * (p + 1 as real)
        == 16 as real * hp) by (nonlinear_arith)
        requires
            hp == h * (p + 1 as real),
    ;
}

/// A tic tac off any wall, however its normal leans: what the wish has into the wall is taken out
/// of it along the horizontal part of the normal, one unit is added along that part, and up it has
/// what the wish rises and the jump factor. All this is scaled by one factor, such that the kick is
/// as long as its power, times what was built up, but for rounding. What it is made of may not be
/// so short that it has no direction, and the jump factor is at most two to the power 11.
#[verifier::spinoff_prover]
pub proof fn law_kick_off_slope(c: Ctx, wish_velocity: Vec3, n: Vec3)
    requires
        measurable(wish_velocity),
        finite(n),
        bounded(amount(n.x), 2 as real),
        bounded(amount(n.y), 2 as real),
        bounded(amount(n.z), 2 as real),
        c.cfg.tac_jump_factor.is_finite(),
        extent(c.cfg.tac_jump_factor) <= 0x800 as real,
        c.state.tac_velocity.is_finite(),
        num(ZERO).le(c.state.tac_velocity),
        num(ZERO).le(c.cfg.tac_power),
        tac_off(c, wish_velocity, n) matches Some((_, kick)) && finite(kick),
        ({
            let u = wish_velocity.normalize();
            let d = exact_dot(u, n);
            let x = pushed_off(amount(u.x), amount(n.x), d);
            let y = amount(c.cfg.tac_jump_factor) + amount(u.y);
            let z = pushed_off(amount(u.z), amount(n.z), d);
            x * x + y * y + z * z >= 1 as real / 4 as real
        }),
    ensures
        tac_off(c, wish_velocity, n) matches Some((_, kick)) && {
            let u = wish_velocity.normalize();
            let p = amount(c.cfg.tac_power);
            &&& exists|k: real| #[trigger] leaned(kick, u, n, c.cfg.tac_jump_factor, p, k)
            &&& as_long(kick, at_most_one(amount(c.state.tac_velocity)), p)
        },
{
    broadcast use group_bits;

    reveal(tac_off);
    reveal(Vec3::spec_mul);
    lemma_scale_in_figures();
    lemma_simple_amounts();
    law_normalized_along(wish_velocity);
    lemma_direction_bounded(wish_velocity);
    let u = wish_velocity.normalize();
    let jf = c.cfg.tac_jump_factor;
    lemma_extent(jf);
    lemma_kick(u, n, jf);
    let away = u - n.flat() * (u.dot(n).min(num(ZERO)) - num(ONE));
    let t = up() * jf + away;
    let d = exact_dot(u, n);
    let into = (if d < 0 as real {
        d
    } else {
        0 as real
    }) - 1 as real;
    lemma_taken_out(amount(n.x), into, d);
    lemma_taken_out(amount(n.z), into, d);
    let x = pushed_off(amount(u.x), amount(n.x), d);
    let y = amount(jf) + amount(u.y);
    let z = pushed_off(amount(u.z), amount(n.z), d);
    let e = 1 as real / 0x700 as real;
    assert(off(amount(t.x), x, e) && off(amount(t.y), y, e) && off(amount(t.z), z, e));
    lemma_near_square(amount(t.x), x, e);
    lemma_near_square(amount(t.y), y, e);
    lemma_near_square(amount(t.z), z, e);
    assert(e * e <= 1 as real / 0x1_0000 as real) by (nonlinear_arith)
        requires
            e == 1 as real / 0x700 as real,
    ;
    lemma_long_enough(t);
    law_normalized_along(t);
    lemma_measured(t);
    let r = extent(t.length());
    let k0 = 1 as real / r;
    lemma_within_two(t.x, r);
    lemma_within_two(t.y, r);
    lemma_within_two(t.z, r);
    let dir = t.normalize();
    let vd = c.velocity.dot(n).min(num(ZERO));
    assert(vd.le(num(ZERO))) by {
        reveal(Scalar::spec_min);
        reveal(Scalar::spec_lt);
        reveal(Scalar::spec_le);
    }
    lemma_strength(c.state.tac_velocity, vd);
    let g = c.state.tac_velocity.max(vd).min(num(ONE));
    let power = c.cfg.tac_power;
    let kick = dir * g * power;
    lemma_factor_finite(dir.x * g, power);
    assert(amount(power) >= 0 as real) by {
        lemma_one();
        reveal(Scalar::spec_is_finite);
        lemma_amounts_ordered(num(ZERO), power);
    }
    lemma_strengthened(dir.x, g, power, k0 * amount(t.x));
    lemma_strengthened(dir.y, g, power, k0 * amount(t.y));
    lemma_strengthened(dir.z, g, power, k0 * amount(t.z));
    let p = amount(power);
    let gg = amount(g);
    let k = k0 * gg * p;
    lemma_regrouped(k0, amount(t.x), gg, p);
    lemma_regrouped(k0, amount(t.y), gg, p);
    lemma_regrouped(k0, amount(t.z), gg, p);
    lemma_scaled_within(k0, gg, p);
    lemma_leaned_part(kick.x, amount(t.x), x, e, p, k);
    lemma_leaned_part(kick.y, amount(t.y), y, e, p, k);
    lemma_leaned_part(kick.z, amount(t.z), z, e, p, k);
    assert(leaned(kick, u, n, jf, p, k));
    lemma_kick_length(t, g, power);
}

#[verifier::spinoff_prover]
proof fn lemma_taken_out(n: real, into: real, d: real)
    requires
        into == d - at_least_nothing(d) - 1 as real,
    ensures
        n * (1 as real + at_least_nothing(d) - d) == 0 as real - n * into,
{
    let a = 1 as real + at_least_nothing(d) - d;
    assert(n * a == 0 as real - n * into) by (nonlinear_arith)
        requires
            a == 0 as real - into,
    ;
}

#[verifier::spinoff_prover]
proof fn lemma_scaled_within(k: real, g: real, p: real)
    requires
        k > 0 as real,
        k <= 8 as real,
        g >= 0 as real,
        g <= 1 as real,
        p >= 0 as real,
    ensures
        k * g * p >= 0 as real,
        k * g * p <= 8 as real * p,
{
    let j = k / 4 as real;
    lemma_scaled_by(j, g, p);
    assert(k * g * p == 4 as real * (j * g * p)) by (nonlinear_arith)
        requires
            j == k / 4 as real,
    {
        assert(k * g == 4 as real * (j * g));
    }
}

} // verus!
