//! Right, up and backward form a frame.
use crate::amounts::{
    amount, bounded, exact_dot, extent, lemma_as_sum, lemma_cancel, lemma_extent,
    lemma_product_bounded, lemma_product_off, lemma_scale_in_figures, lemma_sum_off, off, scale,
};
use crate::laws::finite;
use crate::length_laws::{
    lemma_extent_below, lemma_extent_of_one, lemma_not_negative, lemma_sum_moderate,
};
use crate::motion::{forward, right};
use crate::number_laws::{
    law_product_finite, law_times_one, law_times_zero, lemma_one, lemma_power_units, lemma_sum,
    minus, size,
};
use crate::order::{lemma_nearest_exact, lemma_units_zero};
use crate::reach_laws::lemma_one_times;
use crate::rounding::BINADE;
use crate::scalar::{group_bits, num, Scalar, MINUS_ONE, ONE, TWO, ZERO};
use crate::vector::{minus_unit_z, unit_x, up, vec3, Quat, Vec3};
use vstd::arithmetic::power2::{lemma2_to64, lemma_pow2_adds, pow2};
use vstd::prelude::*;

verus! {

/// What rounding moves one step of a rotation at most, for each unit of what comes out.
pub open spec fn jot() -> real {
    1 as real / 0x80_0000 as real
}

/// A number that stands for `x`, bounded by `b`, but for an error of `d`.
pub open spec fn stands_for(a: Scalar, x: real, b: real, d: real) -> bool {
    &&& a.is_finite()
    &&& off(amount(a), x, d)
    &&& bounded(x, b)
    &&& 0 as real <= d
    &&& d <= 1 as real / 0x8000 as real
    &&& 0 as real <= b
    &&& b <= 8 as real
}

/// A product of numbers that stand for something stands for the product.
#[verifier::spinoff_prover]
proof fn lemma_times(
    a: Scalar,
    b: Scalar,
    x: real,
    y: real,
    p: real,
    q: real,
    d: real,
    e: real,
    k: real,
)
    requires
        stands_for(a, x, p, d),
        stands_for(b, y, q, e),
        bounded(x * y, k),
        1 as real <= k,
        k <= 8 as real,
    ensures
        (a * b).is_finite(),
        off(amount(a * b), x * y, p * e + q * d + k * jot()),
{
    lemma_scale_in_figures();
    lemma_extent(a);
    lemma_extent(b);
    lemma_extent_below(a);
    lemma_extent_below(b);
    law_product_finite(a, b);
    let f = amount(a) - x;
    let g = amount(b) - y;
    lemma_product_bounded(x, g, p, e);
    lemma_product_bounded(f, y, d, q);
    lemma_product_bounded(f, g, d, e);
    let fg = f * g;
    let de = d * e;
    let m = amount(a) * amount(b);
    assert(m == x * y + x * g + f * y + fg) by (nonlinear_arith)
        requires
            m == amount(a) * amount(b),
            f == amount(a) - x,
            g == amount(b) - y,
            fg == f * g,
    ;
    assert(de <= 1 as real / 0x4000_0000 as real && de >= 0 as real) by (nonlinear_arith)
        requires
            de == d * e,
            0 as real <= d,
            d <= 1 as real / 0x8000 as real,
            0 as real <= e,
            e <= 1 as real / 0x8000 as real,
    ;
    let pe = p * e;
    let dq = d * q;
    assert(dq == q * d) by (nonlinear_arith)
        requires
            dq == d * q,
    ;
    assert(pe <= 1 as real / 0x1000 as real && pe >= 0 as real) by (nonlinear_arith)
        requires
            pe == p * e,
            0 as real <= p,
            p <= 8 as real,
            0 as real <= e,
            e <= 1 as real / 0x8000 as real,
    ;
    assert(dq <= 1 as real / 0x1000 as real && dq >= 0 as real) by (nonlinear_arith)
        requires
            dq == d * q,
            0 as real <= q,
            q <= 8 as real,
            0 as real <= d,
            d <= 1 as real / 0x8000 as real,
    ;
    lemma_product_off(a, b, k + 1 as real / 0x400 as real);
    let u = jot();
    assert(k * u == k / 0x80_0000 as real) by (nonlinear_arith)
        requires
            u == 1 as real / 0x80_0000 as real,
    ;
}

/// A sum of numbers that stand for something stands for the sum.
#[verifier::spinoff_prover]
proof fn lemma_plus(
    a: Scalar,
    b: Scalar,
    x: real,
    y: real,
    p: real,
    q: real,
    d: real,
    e: real,
    k: real,
)
    requires
        stands_for(a, x, p, d),
        stands_for(b, y, q, e),
        bounded(x + y, k),
        1 as real <= k,
    ensures
        (a + b).is_finite(),
        off(amount(a + b), x + y, d + e + k * jot()),
{
    lemma_scale_in_figures();
    lemma_extent(a);
    lemma_extent(b);
    lemma_sum_moderate(a, b);
    lemma_sum_off(a, b, k + 1 as real / 0x400 as real);
    let u = jot();
    assert(k * u == k / 0x80_0000 as real) by (nonlinear_arith)
        requires
            u == 1 as real / 0x80_0000 as real,
    ;
}

/// A difference of numbers that stand for something stands for the difference.
#[verifier::spinoff_prover]
proof fn lemma_minus(
    a: Scalar,
    b: Scalar,
    x: real,
    y: real,
    p: real,
    q: real,
    d: real,
    e: real,
    k: real,
)
    requires
        stands_for(a, x, p, d),
        stands_for(b, y, q, e),
        bounded(x - y, k),
        1 as real <= k,
    ensures
        (a - b).is_finite(),
        off(amount(a - b), x - y, d + e + k * jot()),
{
    lemma_as_sum(a, b);
    lemma_plus(a, b.negated(), x, 0 as real - y, p, q, d, e, k);
}

/// A part of a vector along an axis.
pub open spec fn axis_part(v: Scalar) -> bool {
    v == num(ZERO) || v == num(ONE) || v == num(MINUS_ONE)
}

/// A product with a part of a vector along an axis is exact.
#[verifier::spinoff_prover]
proof fn lemma_axis_times(v: Scalar, c: Scalar)
    requires
        axis_part(v),
        c.is_finite(),
    ensures
        (v * c).is_finite(),
        (c * v).is_finite(),
        amount(v * c) == amount(v) * amount(c),
        amount(c * v) == amount(c) * amount(v),
{
    broadcast use group_bits;

    reveal(Scalar::spec_is_finite);
    lemma_simple_amounts();
    lemma_one();
    lemma_one_times(c);
    law_times_one(c);
    lemma_as_sum(c, c);
    law_times_zero(num(ZERO), c);
    law_times_zero(c, num(ZERO));
    lemma_extent(num(ZERO) * c);
    lemma_extent(c * num(ZERO));
    let x = amount(c);
    assert(0 as real * x == 0 as real && 1 as real * x == x && (0 as real - 1 as real) * x == 0
        as real - x) by (nonlinear_arith);
    assert(x * 0 as real == 0 as real && x * 1 as real == x && x * (0 as real - 1 as real) == 0
        as real - x) by (nonlinear_arith);
}

/// A sum with zero is exact, and so is a difference.
#[verifier::spinoff_prover]
pub proof fn lemma_exact_sum(a: Scalar, b: Scalar)
    requires
        a.is_finite(),
        b.is_finite(),
        amount(a) == 0 as real || amount(b) == 0 as real,
    ensures
        (a + b).is_finite(),
        amount(a + b) == amount(a) + amount(b),
        (a - b).is_finite(),
        amount(a - b) == amount(a) - amount(b),
{
    lemma_as_sum(a, b);
    lemma_zero_added(a, b);
    lemma_zero_added(a, b.negated());
}

#[verifier::spinoff_prover]
proof fn lemma_zero_added(a: Scalar, b: Scalar)
    requires
        a.is_finite(),
        b.is_finite(),
        amount(a) == 0 as real || amount(b) == 0 as real,
    ensures
        (a + b).is_finite(),
        amount(a + b) == amount(a) + amount(b),
{
    broadcast use group_bits;

    lemma_extent(a);
    lemma_extent(b);
    lemma_extent(a + b);
    lemma_units_zero(size(a));
    lemma_units_zero(size(b));
    reveal(Scalar::spec_is_finite);
    lemma_sum(a, b);
    lemma_nearest_exact(size(a));
    lemma_nearest_exact(size(b));
}

/// One part of a turned vector along an axis: `v` of the part itself, `b` and the crossed factors of
/// the axis of the turn and the vector.
#[verifier::spinoff_prover]
proof fn lemma_turned_part(
    v: Scalar,
    sc: Scalar,
    b: Scalar,
    f: Scalar,
    bj: Scalar,
    vk: Scalar,
    vj: Scalar,
    bk: Scalar,
    g: Scalar,
    s: real,
    t: real,
    w: real,
)
    requires
        b.is_finite() && bj.is_finite() && bk.is_finite(),
        axis_part(v) && axis_part(vj) && axis_part(vk),
        vj == num(ZERO) || vk == num(ZERO),
        bounded(amount(b), 5 as real / 4 as real),
        bounded(amount(bj), 5 as real / 4 as real),
        bounded(amount(bk), 5 as real / 4 as real),
        stands_for(sc, s, 5 as real / 4 as real, 35 as real / 4 as real * jot()),
        stands_for(f, t, 5 as real / 2 as real, 5 as real / 2 as real * jot()),
        stands_for(g, w, 5 as real / 2 as real, 5 as real / 2 as real * jot()),
    ensures
        (v * sc + b * f + (bj * vk - vj * bk) * g).is_finite(),
        off(
            amount(v * sc + b * f + (bj * vk - vj * bk) * g),
            amount(v) * s + amount(b) * t + (amount(bj) * amount(vk) - amount(vj) * amount(bk)) * w,
            34 as real * jot(),
        ),
{
    let no = 0 as real;
    let q = 5 as real / 4 as real;
    let h = 5 as real / 2 as real;
    let u = jot();
    let most = 25 as real / 8 as real;
    lemma_simple_amounts();
    lemma_axis_times(v, sc);
    lemma_axis_times(vk, bj);
    lemma_axis_times(vj, bk);
    lemma_exact_sum(bj * vk, vj * bk);
    let cross = bj * vk - vj * bk;
    let x = amount(bj) * amount(vk) - amount(vj) * amount(bk);
    let a = amount(v) * s;
    assert(bounded(a, q) && off(amount(v * sc), a, 35 as real / 4 as real * u) && bounded(x, q)) by {
        lemma_unit_times(amount(v), s);
        lemma_unit_times(amount(v), amount(sc));
        lemma_unit_times(amount(vk), amount(bj));
        lemma_unit_times(amount(vj), amount(bk));
    }
    let c = amount(b) * t;
    let e = x * w;
    lemma_product_bounded(amount(b), t, q, h);
    lemma_product_bounded(x, w, q, h);
    lemma_times(b, f, amount(b), t, q, h, no, h * u, most);
    lemma_times(cross, g, x, w, q, h, no, h * u, most);
    lemma_plus(
        v * sc,
        b * f,
        a,
        c,
        q,
        most,
        35 as real / 4 as real * u,
        25 as real / 4 as real * u,
        35 as real / 8 as real,
    );
    lemma_plus(
        v * sc + b * f,
        cross * g,
        a + c,
        e,
        35 as real / 8 as real,
        most,
        155 as real / 8 as real * u,
        25 as real / 4 as real * u,
        15 as real / 2 as real,
    );
}

/// A product with one, zero or minus one.
#[verifier::spinoff_prover]
proof fn lemma_unit_times(v: real, x: real)
    requires
        v == 0 as real || v == 1 as real || v == 0 as real - 1 as real,
    ensures
        v * x == x * v,
        v * x == if v == 0 as real {
            0 as real
        } else if v == 1 as real {
            x
        } else {
            0 as real - x
        },
{
    assert(v * x == x * v) by (nonlinear_arith);
    assert(0 as real * x == 0 as real && 1 as real * x == x && (0 as real - 1 as real) * x == 0
        as real - x) by (nonlinear_arith);
}

/// A part of a vector turned by `(x, y, z, w)`, not rounded.
pub open spec fn turned_part(
    v: real,
    s: real,
    b: real,
    t: real,
    bj: real,
    vk: real,
    vj: real,
    bk: real,
    w: real,
) -> real {
    v * s + b * (t * 2 as real) + (bj * vk - vj * bk) * (w * 2 as real)
}

/// The parts of a rotation are no greater than one, but for rounding.
#[verifier::spinoff_prover]
pub proof fn lemma_part_of_unit(x: real, rest: real)
    requires
        x * x + rest <= 1 as real + 1 as real / 0x400 as real,
        rest >= 0 as real,
    ensures
        bounded(x, 5 as real / 4 as real),
{
    assert(x <= 5 as real / 4 as real && 0 as real - 5 as real / 4 as real <= x)
        by (nonlinear_arith)
        requires
            x * x + rest <= 1 as real + 1 as real / 0x400 as real,
            rest >= 0 as real,
    ;
}

/// Whether a rotation has finite parts and length one, but for rounding.
pub open spec fn unit_rotation(q: Quat) -> bool {
    let n = amount(q.x) * amount(q.x) + amount(q.y) * amount(q.y) + amount(q.z) * amount(q.z)
        + amount(q.w) * amount(q.w);
    &&& q.x.is_finite() && q.y.is_finite() && q.z.is_finite() && q.w.is_finite()
    &&& n <= 1 as real + 1 as real / 0x1_0000 as real
    &&& 1 as real <= n + 1 as real / 0x1_0000 as real
}

/// The amount of two.
#[verifier::spinoff_prover]
pub proof fn lemma_two()
    ensures
        amount(num(TWO)) == 2 as real,
        num(TWO).is_finite(),
{
    broadcast use group_bits;

    reveal(Scalar::spec_is_finite);
    lemma_extent(num(TWO));
    lemma_scale_in_figures();
    lemma_power_units(127);
    lemma_pow2_adds(149, 1);
    lemma2_to64();
    let p = scale();
    assert(size(num(TWO)) == 128 * BINADE as nat);
    assert(pow2(150) == pow2(149) * 2);
    assert(extent(num(TWO)) * p == 2 as real * p);
    lemma_cancel(extent(num(TWO)), 2 as real, p);
    lemma_cancel(2 as real, extent(num(TWO)), p);
}

/// Whether a vector is along an axis.
pub open spec fn axis(v: Vec3) -> bool {
    &&& axis_part(v.x) && axis_part(v.y) && axis_part(v.z)
    &&& v.x == num(ZERO) || v.y == num(ZERO)
    &&& v.y == num(ZERO) || v.z == num(ZERO)
    &&& v.z == num(ZERO) || v.x == num(ZERO)
}

/// A vector along an axis, turned by a rotation of length one.
#[verifier::spinoff_prover]
proof fn lemma_turned(q: Quat, v: Vec3)
    requires
        unit_rotation(q),
        axis(v),
    ensures
        ({
            let x = amount(q.x);
            let y = amount(q.y);
            let z = amount(q.z);
            let w = amount(q.w);
            let a = amount(v.x);
            let b = amount(v.y);
            let c = amount(v.z);
            let s = w * w - (x * x + y * y + z * z);
            let t = a * x + b * y + c * z;
            let r = q.rotate(v);
            &&& finite(r)
            &&& off(amount(r.x), turned_part(a, s, x, t, y, c, b, z, w), 34 as real * jot())
            &&& off(amount(r.y), turned_part(b, s, y, t, z, a, c, x, w), 34 as real * jot())
            &&& off(amount(r.z), turned_part(c, s, z, t, x, b, a, y, w), 34 as real * jot())
        }),
{
    reveal(Quat::spec_rotate);
    reveal(Vec3::spec_add);
    reveal(Vec3::spec_mul);
    reveal(Vec3::spec_dot);
    reveal(Vec3::spec_cross);
    let (x, y, z, w) = (amount(q.x), amount(q.y), amount(q.z), amount(q.w));
    lemma_bounded_parts(q);
    let along = vec3(q.x, q.y, q.z);
    let bb = along.dot(along);
    let sc = q.w * q.w - bb;
    let vb = v.dot(along);
    let f = vb * num(TWO);
    let g = q.w * num(TWO);
    let s = w * w - (x * x + y * y + z * z);
    let t = amount(v.x) * x + amount(v.y) * y + amount(v.z) * z;
    lemma_turn_scale(q);
    lemma_turn_dot(q, v);
    lemma_twice(vb, t);
    lemma_twice(q.w, w);
    lemma_turned_part(v.x, sc, q.x, f, q.y, v.z, v.y, q.z, g, s, t * 2 as real, w * 2 as real);
    lemma_turned_part(v.y, sc, q.y, f, q.z, v.x, v.z, q.x, g, s, t * 2 as real, w * 2 as real);
    lemma_turned_part(v.z, sc, q.z, f, q.x, v.y, v.x, q.y, g, s, t * 2 as real, w * 2 as real);
}

/// The parts of a rotation of length one are bounded.
#[verifier::spinoff_prover]
proof fn lemma_bounded_parts(q: Quat)
    requires
        unit_rotation(q),
    ensures
        bounded(amount(q.x), 5 as real / 4 as real),
        bounded(amount(q.y), 5 as real / 4 as real),
        bounded(amount(q.z), 5 as real / 4 as real),
        bounded(amount(q.w), 5 as real / 4 as real),
{
    let (x, y, z, w) = (amount(q.x), amount(q.y), amount(q.z), amount(q.w));
    lemma_not_negative(x);
    lemma_not_negative(y);
    lemma_not_negative(z);
    lemma_not_negative(w);
    lemma_part_of_unit(x, y * y + z * z + w * w);
    lemma_part_of_unit(y, x * x + z * z + w * w);
    lemma_part_of_unit(z, x * x + y * y + w * w);
    lemma_part_of_unit(w, x * x + y * y + z * z);
}

/// How a rotation of length one scales what it turns.
#[verifier::spinoff_prover]
proof fn lemma_turn_scale(q: Quat)
    requires
        unit_rotation(q),
    ensures
        ({
            let (x, y, z, w) = (amount(q.x), amount(q.y), amount(q.z), amount(q.w));
            let bb = q.x * q.x + q.y * q.y + q.z * q.z;
            stands_for(
                q.w * q.w - bb,
                w * w - (x * x + y * y + z * z),
                5 as real / 4 as real,
                35 as real / 4 as real * jot(),
            )
        }),
{
    let (x, y, z, w) = (amount(q.x), amount(q.y), amount(q.z), amount(q.w));
    let k = 5 as real / 4 as real;
    let u = jot();
    lemma_not_negative(x);
    lemma_not_negative(y);
    lemma_not_negative(z);
    lemma_not_negative(w);
    lemma_bounded_parts(q);
    let (xx, yy, zz, ww) = (x * x, y * y, z * z, w * w);
    lemma_square_term(q.x, x);
    lemma_square_term(q.y, y);
    lemma_square_term(q.z, z);
    lemma_square_term(q.w, w);
    lemma_plus(q.x * q.x, q.y * q.y, xx, yy, k, k, k * u, k * u, k);
    lemma_plus(
        q.x * q.x + q.y * q.y,
        q.z * q.z,
        xx + yy,
        zz,
        k,
        k,
        15 as real / 4 as real * u,
        k * u,
        k,
    );
    lemma_minus(
        q.w * q.w,
        q.x * q.x + q.y * q.y + q.z * q.z,
        ww,
        xx + yy + zz,
        k,
        k,
        k * u,
        25 as real / 4 as real * u,
        k,
    );
}

/// The square of one part of a rotation.
#[verifier::spinoff_prover]
proof fn lemma_square_term(a: Scalar, x: real)
    requires
        a.is_finite(),
        x == amount(a),
        x * x <= 5 as real / 4 as real,
        bounded(x, 5 as real / 4 as real),
    ensures
        stands_for(a * a, x * x, 5 as real / 4 as real, 5 as real / 4 as real * jot()),
{
    let k = 5 as real / 4 as real;
    let no = 0 as real;
    lemma_not_negative(x);
    lemma_times(a, a, x, x, k, k, no, no, k);
    assert(k * no == no) by (nonlinear_arith)
        requires
            no == 0 as real,
    ;
}

/// A vector along an axis, and the axis of a turn.
#[verifier::spinoff_prover]
proof fn lemma_turn_dot(q: Quat, v: Vec3)
    requires
        unit_rotation(q),
        axis(v),
    ensures
        ({
            let (x, y, z) = (amount(q.x), amount(q.y), amount(q.z));
            let t = amount(v.x) * x + amount(v.y) * y + amount(v.z) * z;
            let dot = v.x * q.x + v.y * q.y + v.z * q.z;
            dot.is_finite() && amount(dot) == t && bounded(t, 5 as real / 4 as real)
        }),
{
    lemma_bounded_parts(q);
    lemma_simple_amounts();
    lemma_axis_times(v.x, q.x);
    lemma_axis_times(v.y, q.y);
    lemma_axis_times(v.z, q.z);
    lemma_unit_times(amount(v.x), amount(q.x));
    lemma_unit_times(amount(v.y), amount(q.y));
    lemma_unit_times(amount(v.z), amount(q.z));
    lemma_exact_sum(v.x * q.x, v.y * q.y);
    lemma_exact_sum(v.x * q.x + v.y * q.y, v.z * q.z);
}

/// Twice a number.
#[verifier::spinoff_prover]
proof fn lemma_twice(a: Scalar, x: real)
    requires
        a.is_finite(),
        amount(a) == x,
        bounded(x, 5 as real / 4 as real),
    ensures
        stands_for(
            a * num(TWO),
            x * 2 as real,
            5 as real / 2 as real,
            5 as real / 2 as real * jot(),
        ),
{
    lemma_two();
    let k = 5 as real / 4 as real;
    let no = 0 as real;
    lemma_times(a, num(TWO), x, 2 as real, k, 2 as real, no, no, 5 as real / 2 as real);
    assert(k * no == no && 2 as real * no == no) by (nonlinear_arith)
        requires
            no == 0 as real,
    ;
}

/// One term of a product of vectors that are off by `d`.
#[verifier::spinoff_prover]
proof fn lemma_term(a: real, b: real, x: real, y: real, d: real)
    requires
        off(a, x, d),
        off(b, y, d),
        bounded(x, 5 as real / 4 as real),
        bounded(y, 5 as real / 4 as real),
        0 as real <= d,
        d <= 1 as real / 4 as real,
    ensures
        off(a * b, x * y, 3 as real * d),
{
    let f = a - x;
    let g = b - y;
    let k = 5 as real / 4 as real;
    lemma_product_bounded(x, g, k, d);
    lemma_product_bounded(f, y, d, k);
    lemma_product_bounded(f, g, d, d);
    let m = a * b;
    let fg = f * g;
    assert(m == x * y + x * g + f * y + fg) by (nonlinear_arith)
        requires
            m == a * b,
            f == a - x,
            g == b - y,
            fg == f * g,
    ;
    let dd = d * d;
    assert(dd <= d / 4 as real) by (nonlinear_arith)
        requires
            dd == d * d,
            0 as real <= d,
            d <= 1 as real / 4 as real,
    ;
    assert(k * d == d * k && d * k == 5 as real / 4 as real * d) by (nonlinear_arith)
        requires
            k == 5 as real / 4 as real,
    ;
}

/// A vector that stands for three exact parts.
pub open spec fn stands_at(v: Vec3, x: real, y: real, z: real) -> bool {
    &&& off(amount(v.x), x, 34 as real * jot())
    &&& off(amount(v.y), y, 34 as real * jot())
    &&& off(amount(v.z), z, 34 as real * jot())
    &&& bounded(x, 5 as real / 4 as real)
    &&& bounded(y, 5 as real / 4 as real)
    &&& bounded(z, 5 as real / 4 as real)
}

/// The product of two such vectors.
#[verifier::spinoff_prover]
proof fn lemma_dot_of(a: Vec3, b: Vec3, x: real, y: real, z: real, p: real, q: real, r: real)
    requires
        stands_at(a, x, y, z),
        stands_at(b, p, q, r),
    ensures
        off(exact_dot(a, b), x * p + y * q + z * r, 306 as real * jot()),
{
    let d = 34 as real * jot();
    lemma_term(amount(a.x), amount(b.x), x, p, d);
    lemma_term(amount(a.y), amount(b.y), y, q, d);
    lemma_term(amount(a.z), amount(b.z), z, r, d);
}

/// A part of a vector of squared length `n * n` is bounded.
#[verifier::spinoff_prover]
proof fn lemma_part_of_turned(x: real, y: real, z: real, n: real)
    requires
        x * x + y * y + z * z == n * n,
        0 as real <= n,
        n <= 1 as real + 1 as real / 0x1_0000 as real,
    ensures
        bounded(x, 5 as real / 4 as real),
        bounded(y, 5 as real / 4 as real),
        bounded(z, 5 as real / 4 as real),
        1 as real <= n + 1 as real / 0x1_0000 as real ==> off(
            n * n,
            1 as real,
            1 as real / 0x4000 as real,
        ),
{
    lemma_not_negative(x);
    lemma_not_negative(y);
    lemma_not_negative(z);
    let nn = n * n;
    assert(nn <= 1 as real + 1 as real / 0x4000 as real) by (nonlinear_arith)
        requires
            nn == n * n,
            0 as real <= n,
            n <= 1 as real + 1 as real / 0x1_0000 as real,
    ;
    lemma_part_of_unit(x, y * y + z * z);
    lemma_part_of_unit(y, x * x + z * z);
    lemma_part_of_unit(z, x * x + y * y);
    if 1 as real <= n + 1 as real / 0x1_0000 as real {
        assert(1 as real <= nn + 1 as real / 0x4000 as real) by (nonlinear_arith)
            requires
                nn == n * n,
                0 as real <= n,
                1 as real <= n + 1 as real / 0x1_0000 as real,
        ;
    }
}

/// Factors change places.
#[verifier::spinoff_prover]
proof fn lemma_exchange(x: real, y: real, z: real, w: real)
    ensures
        (x * y) * (z * w) == (x * z) * (y * w),
{
    let a = x * y;
    assert(a * (z * w) == (a * z) * w) by (nonlinear_arith);
    assert((x * y) * z == (x * z) * y) by (nonlinear_arith);
    let b = x * z;
    assert((b * y) * w == b * (y * w)) by (nonlinear_arith);
}

/// The squared length of an axis, from products of the parts of its rotation.
#[verifier::spinoff_prover]
proof fn lemma_axis_length(a: real, b: real, c: real, d: real, p: real, q: real, r: real, m: real)
    requires
        p * p == a * b,
        q * q == c * d,
        r * r == a * c,
        m * m == b * d,
        p * q == r * m,
    ensures
        ({
            let i = d + a - b - c;
            let j = 2 as real * (p + q);
            let k = 2 as real * (r - m);
            i * i + j * j + k * k == (a + b + c + d) * (a + b + c + d)
        }),
{
    let i = d + a - b - c;
    let n = a + b + c + d;
    let u = d + a;
    let v = b + c;
    assert(i * i == u * u - 2 as real * (u * v) + v * v) by (nonlinear_arith)
        requires
            i == u - v,
    ;
    assert(n * n == u * u + 2 as real * (u * v) + v * v) by (nonlinear_arith)
        requires
            n == u + v,
    ;
    assert(u * v == d * b + d * c + a * b + a * c) by (nonlinear_arith)
        requires
            u == d + a,
            v == b + c,
    ;
    let j = 2 as real * (p + q);
    let k = 2 as real * (r - m);
    assert(j * j == 4 as real * (p * p) + 8 as real * (p * q) + 4 as real * (q * q))
        by (nonlinear_arith)
        requires
            j == 2 as real * (p + q),
    ;
    assert(k * k == 4 as real * (r * r) - 8 as real * (r * m) + 4 as real * (m * m))
        by (nonlinear_arith)
        requires
            k == 2 as real * (r - m),
    ;
    assert(d * b == b * d && d * c == c * d) by (nonlinear_arith);
}

/// An axis is across the next one, from products of the parts of its rotation.
#[verifier::spinoff_prover]
proof fn lemma_axis_across(
    a: real,
    b: real,
    c: real,
    d: real,
    p: real,
    q: real,
    r: real,
    m: real,
    k: real,
    l: real,
)
    requires
        r * k == p * c,
        r * l == a * q,
        m * k == b * q,
        m * l == p * d,
    ensures
        (d + a - b - c) * (2 as real * (p - q)) + (2 as real * (p + q)) * (d + b - a - c) + (2
            as real * (r - m)) * (2 as real * (k + l)) == 0 as real,
{
    let i = d + a - b - c;
    let j = d + b - a - c;
    assert(i * (2 as real * (p - q)) + (2 as real * (p + q)) * j == 4 as real * (p * d - p * c + b
        * q - a * q)) by (nonlinear_arith)
        requires
            i == d + a - b - c,
            j == d + b - a - c,
    ;
    assert((2 as real * (r - m)) * (2 as real * (k + l)) == 4 as real * (r * k + r * l - m * k - m
        * l)) by (nonlinear_arith);
}

/// One axis of an exact rotation: as long as the squared length of the rotation, and across the
/// next axis.
#[verifier::spinoff_prover]
proof fn lemma_exact_axis(x: real, y: real, z: real, w: real)
    ensures
        ({
            let (a, b, c, d) = (x * x, y * y, z * z, w * w);
            let n = a + b + c + d;
            let (p, q, r, m, k, l) = (x * y, z * w, x * z, y * w, y * z, x * w);
            let i = d + a - b - c;
            let j = 2 as real * (p + q);
            let o = 2 as real * (r - m);
            &&& i * i + j * j + o * o == n * n
            &&& i * (2 as real * (p - q)) + j * (d + b - a - c) + o * (2 as real * (k + l)) == 0
                as real
        }),
{
    let (a, b, c, d) = (x * x, y * y, z * z, w * w);
    let (p, q, r, m, k, l) = (x * y, z * w, x * z, y * w, y * z, x * w);
    lemma_exchange(x, y, x, y);
    lemma_exchange(z, w, z, w);
    lemma_exchange(x, z, x, z);
    lemma_exchange(y, w, y, w);
    lemma_exchange(x, y, z, w);
    lemma_axis_length(a, b, c, d, p, q, r, m);
    lemma_exchange(x, z, y, z);
    lemma_exchange(x, z, x, w);
    lemma_exchange(y, w, y, z);
    assert(w * z == z * w && w * w == d) by (nonlinear_arith)
        requires
            d == w * w,
    ;
    assert(m * k == b * q);
    lemma_exchange(y, w, x, w);
    assert(y * x == x * y) by (nonlinear_arith);
    assert(m * l == p * d);
    lemma_axis_across(a, b, c, d, p, q, r, m, k, l);
}

/// Products of two terms.
#[verifier::spinoff_prover]
proof fn lemma_two_terms(x: real, y: real, u: real, v: real)
    ensures
        (x + y) * (u + v) == x * u + x * v + y * u + y * v,
        (x - y) * (u - v) == x * u - x * v - y * u + y * v,
        (x - y) * (x + y) == x * x - y * y,
        (x + y) * u == x * u + y * u,
        (x - y) * u == x * u - y * u,
{
    assert((x + y) * u == x * u + y * u) by (nonlinear_arith);
    assert((x - y) * u == x * u - y * u) by (nonlinear_arith);
    assert((x + y) * v == x * v + y * v) by (nonlinear_arith);
    assert((x - y) * v == x * v - y * v) by (nonlinear_arith);
    let a = x + y;
    let d = x - y;
    assert(a * (u + v) == a * u + a * v) by (nonlinear_arith);
    assert(d * (u - v) == d * u - d * v) by (nonlinear_arith);
    assert((x - y) * (x + y) == x * x - y * y) by (nonlinear_arith);
}

/// Twice a number times a number.
#[verifier::spinoff_prover]
proof fn lemma_doubled(x: real, y: real)
    ensures
        (2 as real * x) * y == 2 as real * (x * y),
        x * (2 as real * y) == 2 as real * (x * y),
        (2 as real * x) * (2 as real * y) == 4 as real * (x * y),
{
    assert((2 as real * x) * y == 2 as real * (x * y)) by (nonlinear_arith);
    assert(x * (2 as real * y) == 2 as real * (x * y)) by (nonlinear_arith);
    assert((2 as real * x) * (2 as real * y) == 4 as real * (x * y)) by (nonlinear_arith);
}

/// A product with four terms.
#[verifier::spinoff_prover]
proof fn lemma_four_terms(p: real, a: real, b: real, c: real, d: real)
    ensures
        p * (a + b - c - d) == p * a + p * b - p * c - p * d,
        p * (a + b + c + d) == p * a + p * b + p * c + p * d,
        (a + b - c - d) * p == p * a + p * b - p * c - p * d,
        (a + b + c + d) * p == p * a + p * b + p * c + p * d,
{
    let u = a + b;
    let v = c + d;
    assert(p * (u - v) == p * u - p * v) by (nonlinear_arith);
    assert(p * (u + v) == p * u + p * v) by (nonlinear_arith);
    assert(p * (a + b) == p * a + p * b) by (nonlinear_arith);
    assert(p * (c + d) == p * c + p * d) by (nonlinear_arith);
    let m = u - v;
    let n = u + v;
    assert(p * m == m * p && p * n == n * p) by (nonlinear_arith);
}

/// The square of a sum and of a difference.
#[verifier::spinoff_prover]
proof fn lemma_square_of(x: real, y: real)
    ensures
        (x + y) * (x + y) == x * x + 2 as real * (x * y) + y * y,
        (x - y) * (x - y) == x * x - 2 as real * (x * y) + y * y,
{
    assert((x + y) * (x + y) == x * x + 2 as real * (x * y) + y * y) by (nonlinear_arith);
    assert((x - y) * (x - y) == x * x - 2 as real * (x * y) + y * y) by (nonlinear_arith);
}

/// The first part of one axis across another.
#[verifier::spinoff_prover]
proof fn lemma_first_crossed(
    a: real,
    b: real,
    c: real,
    d: real,
    p: real,
    q: real,
    r: real,
    m: real,
    k: real,
    l: real,
)
    requires
        r * k == p * c,
        r * l == q * a,
        m * k == q * b,
        m * l == p * d,
    ensures
        (2 as real * (r - m)) * (2 as real * (k - l)) - (2 as real * (p + q)) * (d + c - a - b) == (
        a + b + c + d) * (2 as real * (p - q)),
{
    let i = d + c - a - b;
    let n = a + b + c + d;
    lemma_doubled(r - m, k - l);
    lemma_two_terms(r, m, k, l);
    lemma_doubled(p + q, i);
    lemma_two_terms(p, q, i, i);
    lemma_four_terms(p, d, c, a, b);
    lemma_four_terms(q, d, c, a, b);
    lemma_doubled(n, p - q);
    lemma_four_terms(p, a, b, c, d);
    lemma_four_terms(q, a, b, c, d);
    assert(n * (p - q) == n * p - n * q) by (nonlinear_arith);
}

/// The second part of one axis across another.
#[verifier::spinoff_prover]
proof fn lemma_second_crossed(a: real, b: real, c: real, d: real, r: real, m: real)
    requires
        r * r == a * c,
        m * m == d * b,
    ensures
        (d + a - b - c) * (d + c - a - b) - (2 as real * (r - m)) * (2 as real * (r + m)) == (a + b
            + c + d) * (d + b - a - c),
{
    let u = d - b;
    let v = a - c;
    let e = d + b;
    let f = a + c;
    let i = d + c - a - b;
    let o = d + a - b - c;
    let n = a + b + c + d;
    let g = d + b - a - c;
    lemma_doubled(r - m, r + m);
    lemma_two_terms(r, m, r, m);
    assert(o * i == u * u - v * v) by (nonlinear_arith)
        requires
            o == u + v,
            i == u - v,
    ;
    assert(n * g == e * e - f * f) by (nonlinear_arith)
        requires
            n == e + f,
            g == e - f,
    ;
    lemma_square_of(d, b);
    lemma_square_of(a, c);
}

/// The third part of one axis across another.
#[verifier::spinoff_prover]
proof fn lemma_third_crossed(
    a: real,
    b: real,
    c: real,
    d: real,
    p: real,
    q: real,
    r: real,
    m: real,
    k: real,
    l: real,
)
    requires
        p * r == k * a,
        p * m == l * b,
        q * r == l * c,
        q * m == k * d,
    ensures
        (2 as real * (p + q)) * (2 as real * (r + m)) - (d + a - b - c) * (2 as real * (k - l)) == (
        a + b + c + d) * (2 as real * (k + l)),
{
    let o = d + a - b - c;
    let n = a + b + c + d;
    lemma_doubled(p + q, r + m);
    lemma_two_terms(p, q, r, m);
    lemma_doubled(o, k - l);
    assert(o * (k - l) == o * k - o * l) by (nonlinear_arith);
    lemma_four_terms(k, d, a, b, c);
    lemma_four_terms(l, d, a, b, c);
    lemma_doubled(n, k + l);
    assert(n * (k + l) == n * k + n * l) by (nonlinear_arith);
    lemma_four_terms(k, a, b, c, d);
    lemma_four_terms(l, a, b, c, d);
}

/// The parts of the cross product of two axes, from products of the parts of the rotation.
#[verifier::spinoff_prover]
proof fn lemma_exact_cross(x: real, y: real, z: real, w: real)
    ensures
        ({
            let (a, b, c, d) = (x * x, y * y, z * z, w * w);
            let (p, q, r, m, k, l) = (x * y, z * w, x * z, y * w, y * z, x * w);
            let n = a + b + c + d;
            let two = 2 as real;
            &&& (two * (r - m)) * (two * (k - l)) - (two * (p + q)) * (d + c - a - b) == n * (two
                * (p - q))
            &&& (d + a - b - c) * (d + c - a - b) - (two * (r - m)) * (two * (r + m)) == n * (d + b
                - a - c)
            &&& (two * (p + q)) * (two * (r + m)) - (d + a - b - c) * (two * (k - l)) == n * (two
                * (k + l))
        }),
{
    let (a, b, c, d) = (x * x, y * y, z * z, w * w);
    let (p, q, r, m, k, l) = (x * y, z * w, x * z, y * w, y * z, x * w);
    lemma_swapped(x, y, z, w);
    lemma_exchange(x, z, y, z);
    lemma_exchange(z, x, w, x);
    lemma_exchange(w, y, z, y);
    lemma_exchange(y, w, x, w);
    lemma_first_crossed(a, b, c, d, p, q, r, m, k, l);
    lemma_exchange(x, z, x, z);
    lemma_exchange(w, y, w, y);
    lemma_second_crossed(a, b, c, d, r, m);
    lemma_exchange(y, x, z, x);
    lemma_exchange(x, y, w, y);
    lemma_exchange(w, z, x, z);
    lemma_exchange(z, w, y, w);
    lemma_third_crossed(a, b, c, d, p, q, r, m, k, l);
}

/// Products of the parts of a rotation, either way around.
#[verifier::spinoff_prover]
proof fn lemma_swapped(x: real, y: real, z: real, w: real)
    ensures
        y * x == x * y,
        z * x == x * z,
        w * x == x * w,
        z * y == y * z,
        w * y == y * w,
        w * z == z * w,
{
    assert(y * x == x * y) by (nonlinear_arith);
    assert(z * x == x * z) by (nonlinear_arith);
    assert(w * x == x * w) by (nonlinear_arith);
    assert(z * y == y * z) by (nonlinear_arith);
    assert(w * y == y * w) by (nonlinear_arith);
    assert(w * z == z * w) by (nonlinear_arith);
}

/// The amounts of one, of its opposite and of zero.
#[verifier::spinoff_prover]
pub proof fn lemma_simple_amounts()
    ensures
        amount(num(ONE)) == 1 as real,
        amount(num(MINUS_ONE)) == 0 as real - 1 as real,
        amount(num(ZERO)) == 0 as real,
{
    broadcast use group_bits;

    lemma_one();
    lemma_extent_of_one();
    lemma_extent(num(ZERO));
    assert(size(num(MINUS_ONE)) == size(num(ONE)) && minus(num(MINUS_ONE)));
}

/// The parts of the three axes that a rotation turns, not rounded.
#[verifier::spinoff_prover]
proof fn lemma_axis_parts(x: real, y: real, z: real, w: real)
    ensures
        ({
            let (a, b, c, d) = (x * x, y * y, z * z, w * w);
            let (p, q, r, m, k, l) = (x * y, z * w, x * z, y * w, y * z, x * w);
            let s = d - (a + b + c);
            let no = 0 as real;
            let one = 1 as real;
            let back = no - one;
            let two = 2 as real;
            let (tx, ty) = (one * x + no * y + no * z, no * x + one * y + no * z);
            let tz = no * x + no * y + back * z;
            &&& tx == x
            &&& ty == y
            &&& tz == no - z
            &&& turned_part(one, s, x, tx, y, no, no, z, w) == d + a - b - c
            &&& turned_part(no, s, y, tx, z, one, no, x, w) == two * (p + q)
            &&& turned_part(no, s, z, tx, x, no, one, y, w) == two * (r - m)
            &&& turned_part(no, s, x, ty, y, no, one, z, w) == two * (p - q)
            &&& turned_part(one, s, y, ty, z, no, no, x, w) == d + b - a - c
            &&& turned_part(no, s, z, ty, x, one, no, y, w) == two * (k + l)
            &&& turned_part(no, s, x, tz, y, back, no, z, w) == no - two * (r + m)
            &&& turned_part(no, s, y, tz, z, no, back, x, w) == no - two * (k - l)
            &&& turned_part(back, s, z, tz, x, no, no, y, w) == no - (d + c - a - b)
        }),
{
    let (a, b, c, d) = (x * x, y * y, z * z, w * w);
    let s = d - (a + b + c);
    let no = 0 as real;
    let one = 1 as real;
    let back = no - one;
    let two = 2 as real;
    lemma_simple_part(one, s, x, x, y, no, no, z, w);
    lemma_simple_part(no, s, y, x, z, one, no, x, w);
    lemma_simple_part(no, s, z, x, x, no, one, y, w);
    lemma_simple_part(no, s, x, y, y, no, one, z, w);
    lemma_simple_part(one, s, y, y, z, no, no, x, w);
    lemma_simple_part(no, s, z, y, x, one, no, y, w);
    let f = no - z;
    lemma_simple_part(no, s, x, f, y, back, no, z, w);
    lemma_simple_part(no, s, y, f, z, no, back, x, w);
    lemma_simple_part(back, s, z, f, x, no, no, y, w);
    lemma_swapped(x, y, z, w);
    assert(x * f == no - x * z) by (nonlinear_arith)
        requires
            f == no - z,
            no == 0 as real,
    ;
    assert(y * f == no - y * z) by (nonlinear_arith)
        requires
            f == no - z,
            no == 0 as real,
    ;
    assert(z * f == no - z * z) by (nonlinear_arith)
        requires
            f == no - z,
            no == 0 as real,
    ;
}

/// A part of a turned vector whose own parts are one, zero or minus one.
#[verifier::spinoff_prover]
proof fn lemma_simple_part(
    v: real,
    s: real,
    b: real,
    t: real,
    bj: real,
    vk: real,
    vj: real,
    bk: real,
    w: real,
)
    requires
        v == 0 as real || v == 1 as real || v == 0 as real - 1 as real,
        vk == 0 as real || vk == 1 as real || vk == 0 as real - 1 as real,
        vj == 0 as real || vj == 1 as real || vj == 0 as real - 1 as real,
        vj == 0 as real || vk == 0 as real,
    ensures
        ({
            let own = if v == 0 as real {
                0 as real
            } else if v == 1 as real {
                s
            } else {
                0 as real - s
            };
            let turn = if vk == 1 as real {
                bj * w
            } else if vk == 0 as real - 1 as real {
                0 as real - bj * w
            } else if vj == 1 as real {
                0 as real - bk * w
            } else if vj == 0 as real - 1 as real {
                bk * w
            } else {
                0 as real
            };
            turned_part(v, s, b, t, bj, vk, vj, bk, w) == own + 2 as real * (b * t) + 2 as real
                * turn
        }),
{
    assert(b * (t * 2 as real) == 2 as real * (b * t)) by (nonlinear_arith);
    let e = bj * vk - vj * bk;
    assert(e * (w * 2 as real) == 2 as real * (e * w)) by (nonlinear_arith);
    assert(0 as real * s == 0 as real && 1 as real * s == s && (0 as real - 1 as real) * s == 0
        as real - s) by (nonlinear_arith);
    assert(bj * 0 as real == 0 as real && bj * 1 as real == bj && bj * (0 as real - 1 as real) == 0
        as real - bj) by (nonlinear_arith);
    assert(0 as real * bk == 0 as real && 1 as real * bk == bk && (0 as real - 1 as real) * bk == 0
        as real - bk) by (nonlinear_arith);
    assert((0 as real - bj) * w == 0 as real - bj * w) by (nonlinear_arith);
    assert((0 as real - bk) * w == 0 as real - bk * w) by (nonlinear_arith);
    assert(0 as real * w == 0 as real) by (nonlinear_arith);
}

/// The cross product of two vectors, not rounded.
pub open spec fn exact_cross(v: Vec3, n: Vec3) -> (real, real, real) {
    let (a, b, c) = (amount(v.x), amount(v.y), amount(v.z));
    let (p, q, r) = (amount(n.x), amount(n.y), amount(n.z));
    (b * r - c * q, c * p - a * r, a * q - b * p)
}

/// How far rounding moves a product of two of the three axes at most.
pub open spec fn tilt() -> real {
    1 as real / 0x2000 as real
}

/// The three axes of a rotation, and the exact ones that they stand for.
#[verifier::spinoff_prover]
proof fn lemma_axes(q: Quat)
    requires
        unit_rotation(q),
    ensures
        ({
            let (x, y, z, w) = (amount(q.x), amount(q.y), amount(q.z), amount(q.w));
            let (a, b, c, d) = (x * x, y * y, z * z, w * w);
            let (p, o, r, m, k, l) = (x * y, z * w, x * z, y * w, y * z, x * w);
            let two = 2 as real;
            let no = 0 as real;
            &&& finite(right(q)) && finite(forward(q)) && finite(q.rotate(up()))
            &&& stands_at(right(q), d + a - b - c, two * (p + o), two * (r - m))
            &&& stands_at(q.rotate(up()), two * (p - o), d + b - a - c, two * (k + l))
            &&& stands_at(
                forward(q),
                no - two * (r + m),
                no - two * (k - l),
                no - (d + c - a - b),
            )
        }),
{
    let (x, y, z, w) = (amount(q.x), amount(q.y), amount(q.z), amount(q.w));
    let (a, b, c, d) = (x * x, y * y, z * z, w * w);
    let (p, o, r, m, k, l) = (x * y, z * w, x * z, y * w, y * z, x * w);
    let two = 2 as real;
    let n = a + b + c + d;
    lemma_simple_amounts();
    lemma_axis_parts(x, y, z, w);
    lemma_not_negative(x);
    lemma_not_negative(y);
    lemma_not_negative(z);
    lemma_not_negative(w);
    lemma_part_of_unit(x, b + c + d);
    lemma_part_of_unit(y, a + c + d);
    lemma_part_of_unit(z, a + b + d);
    lemma_turned(q, unit_x());
    lemma_turned(q, up());
    lemma_turned(q, minus_unit_z());
    lemma_swapped(x, y, z, w);
    lemma_exact_axis(x, y, z, w);
    lemma_exact_axis(y, z, x, w);
    lemma_exact_axis(z, x, y, w);
    lemma_part_of_turned(d + a - b - c, two * (p + o), two * (r - m), n);
    lemma_part_of_turned(d + b - c - a, two * (k + l), two * (p - o), n);
    lemma_part_of_turned(d + c - a - b, two * (r + m), two * (k - l), n);
}

/// Products of opposites.
#[verifier::spinoff_prover]
proof fn lemma_opposites(x: real, y: real)
    ensures
        (0 as real - x) * y == 0 as real - x * y,
        x * (0 as real - y) == 0 as real - x * y,
        (0 as real - x) * (0 as real - y) == x * y,
        y * x == x * y,
{
    assert((0 as real - x) * y == 0 as real - x * y) by (nonlinear_arith);
    assert(x * (0 as real - y) == 0 as real - x * y) by (nonlinear_arith);
    assert((0 as real - x) * (0 as real - y) == x * y) by (nonlinear_arith);
    assert(y * x == x * y) by (nonlinear_arith);
}

/// What the parts `u`, `v` and `t` of a first vector make with a second vector that points against
/// `g`, `h` and `i`.
#[verifier::spinoff_prover]
proof fn lemma_against(u: real, v: real, t: real, g: real, h: real, i: real)
    ensures
        ({
            let no = 0 as real;
            let sum = g * u + h * v + i * t;
            u * (no - g) + v * (no - h) + t * (no - i) == no - sum
        }),
        ({
            let no = 0 as real;
            (no - g) * (no - g) + (no - h) * (no - h) + (no - i) * (no - i) == g * g + h * h + i * i
        }),
        v * (0 as real - i) - t * (0 as real - h) == t * h - v * i,
        t * (0 as real - g) - u * (0 as real - i) == u * i - t * g,
        u * (0 as real - h) - v * (0 as real - g) == v * g - u * h,
{
    lemma_opposites(g, g);
    lemma_opposites(h, h);
    lemma_opposites(i, i);
    lemma_opposites(u, g);
    lemma_opposites(u, h);
    lemma_opposites(u, i);
    lemma_opposites(v, g);
    lemma_opposites(v, h);
    lemma_opposites(v, i);
    lemma_opposites(t, g);
    lemma_opposites(t, h);
    lemma_opposites(t, i);
}

/// A part of a cross product of two vectors that stand for something.
#[verifier::spinoff_prover]
proof fn lemma_cross_part(
    a: real,
    b: real,
    c: real,
    d: real,
    x: real,
    y: real,
    z: real,
    w: real,
    n: real,
    u: real,
    v: real,
)
    requires
        off(a, x, 34 as real * jot()),
        off(b, y, 34 as real * jot()),
        off(c, z, 34 as real * jot()),
        off(d, w, 34 as real * jot()),
        off(v, u, 34 as real * jot()),
        bounded(x, 5 as real / 4 as real),
        bounded(y, 5 as real / 4 as real),
        bounded(z, 5 as real / 4 as real),
        bounded(w, 5 as real / 4 as real),
        bounded(u, 5 as real / 4 as real),
        x * y - z * w == n * u,
        off(n, 1 as real, 1 as real / 0x1_0000 as real),
    ensures
        off(a * b - c * d, v, tilt()),
{
    let e = 34 as real * jot();
    lemma_term(a, b, x, y, e);
    lemma_term(c, d, z, w, e);
    let f = n - 1 as real;
    lemma_product_bounded(f, u, 1 as real / 0x1_0000 as real, 5 as real / 4 as real);
    assert(n * u == u + f * u) by (nonlinear_arith)
        requires
            f == n - 1 as real,
    ;
    assert((1 as real / 0x1_0000 as real) * (5 as real / 4 as real) <= 1 as real / 0x8000 as real)
        by (nonlinear_arith);
}

/// Right, up and backward form a frame: the three vectors that a rotation of length one makes of
/// the axes have length one, each is across the others, and right across forward is up, all but for
/// rounding.
#[verifier::spinoff_prover]
pub proof fn law_frame(q: Quat)
    requires
        unit_rotation(q),
    ensures
        ({
            let r = right(q);
            let u = q.rotate(up());
            let f = forward(q);
            let (i, j, k) = exact_cross(r, f);
            &&& finite(r) && finite(u) && finite(f)
            &&& off(exact_dot(r, r), 1 as real, tilt())
            &&& off(exact_dot(u, u), 1 as real, tilt())
            &&& off(exact_dot(f, f), 1 as real, tilt())
            &&& off(exact_dot(r, u), 0 as real, tilt())
            &&& off(exact_dot(r, f), 0 as real, tilt())
            &&& off(exact_dot(u, f), 0 as real, tilt())
            &&& off(i, amount(u.x), tilt())
            &&& off(j, amount(u.y), tilt())
            &&& off(k, amount(u.z), tilt())
        }),
{
    let right = right(q);
    let above = q.rotate(up());
    let ahead = forward(q);
    let no = 0 as real;
    let two = 2 as real;
    let (x, y, z, w) = (amount(q.x), amount(q.y), amount(q.z), amount(q.w));
    let (a, b, c, d) = (x * x, y * y, z * z, w * w);
    let (p, o, r, m, k, l) = (x * y, z * w, x * z, y * w, y * z, x * w);
    let n = a + b + c + d;
    let (ra, rb, rc) = (d + a - b - c, two * (p + o), two * (r - m));
    let (ua, ub, uc) = (two * (p - o), d + b - a - c, two * (k + l));
    let (ba, bb, bc) = (two * (r + m), two * (k - l), d + c - a - b);
    lemma_axes(q);
    lemma_swapped(x, y, z, w);
    lemma_exact_axis(x, y, z, w);
    lemma_exact_axis(y, z, x, w);
    lemma_exact_axis(z, x, y, w);
    lemma_exact_cross(x, y, z, w);
    lemma_not_negative(x);
    lemma_not_negative(y);
    lemma_not_negative(z);
    lemma_not_negative(w);
    assert(ra * ra + rb * rb + rc * rc == n * n);
    lemma_part_of_turned(ra, rb, rc, n);
    lemma_dot_of(right, right, ra, rb, rc, ra, rb, rc);
    assert(ua * ua + ub * ub + uc * uc == n * n);
    lemma_dot_of(above, above, ua, ub, uc, ua, ub, uc);
    lemma_against(ra, rb, rc, ba, bb, bc);
    assert(ba * ba + bb * bb + bc * bc == n * n);
    lemma_dot_of(ahead, ahead, no - ba, no - bb, no - bc, no - ba, no - bb, no - bc);
    lemma_dot_of(right, above, ra, rb, rc, ua, ub, uc);
    assert(ra * ua + rb * ub + rc * uc == no);
    lemma_dot_of(right, ahead, ra, rb, rc, no - ba, no - bb, no - bc);
    lemma_opposites(bc, rc);
    lemma_opposites(ba, ra);
    lemma_opposites(bb, rb);
    assert(ba * ra + bb * rb + bc * rc == no);
    lemma_dot_of(above, ahead, ua, ub, uc, no - ba, no - bb, no - bc);
    lemma_against(ua, ub, uc, ba, bb, bc);
    lemma_opposites(ba, ua);
    lemma_opposites(bb, ub);
    lemma_opposites(bc, uc);
    assert(ba * ua + bb * ub + bc * uc == no);
    let (i, j, h) = (amount(right.x), amount(right.y), amount(right.z));
    let (e, f, g) = (amount(ahead.x), amount(ahead.y), amount(ahead.z));
    lemma_cross_part(j, g, h, f, rb, no - bc, rc, no - bb, n, ua, amount(above.x));
    lemma_cross_part(h, e, i, g, rc, no - ba, ra, no - bc, n, ub, amount(above.y));
    lemma_cross_part(i, f, j, e, ra, no - bb, rb, no - ba, n, uc, amount(above.z));
}

} // verus!
