//! Laws of lengths: how long limited velocities and wishes really are.
use crate::amounts::{
    amount, bounded, epsilon, extent, half_unit, law_product_rounded, law_quotient_rounded,
    law_root_rounded, law_sum_rounded, lemma_as_sum, lemma_cancel, lemma_extent,
    lemma_product_bounded, lemma_scale_in_figures, off, rounded, scale,
};
use crate::context::Ctx;
use crate::ieee;
use crate::ieee::value;
use crate::laws::{
    finite, law_valid_velocity_is_finite, law_valid_velocity_stays, lemma_length_squared,
    lemma_zero_square,
};
use crate::motion::{
    finite_or_zero, forward, movement, right, valid_velocity, wish_speed, wish_velocity_of,
};
use crate::number_laws::{
    law_plus_zero, law_product_finite, law_root, law_root_finite, law_square, law_sum_grows,
    law_times_zero, lemma_one, lemma_over_infinite, lemma_power_units, lemma_product,
    lemma_quotient, lemma_sum, lemma_units_ordered, minus, size,
};
use crate::order::{
    lemma_nearest_against, lemma_nearest_exact, lemma_nearest_increases, lemma_units_zero,
};
use crate::rounding::{units, INFINITE};
use crate::scalar::{group_bits, num, Scalar, ONE, ZERO};
use crate::vector::{vec3, zero, Vec3};
use vstd::arithmetic::power2::{lemma2_to64, lemma_pow2_adds, lemma_pow2_pos, pow2};
use vstd::prelude::*;

verus! {

/// The squared length of a finite vector, not rounded.
pub open spec fn squared_length(v: Vec3) -> real {
    extent(v.x) * extent(v.x) + extent(v.y) * extent(v.y) + extent(v.z) * extent(v.z)
}

/// What rounding moves the smallest squared lengths at most.
pub open spec fn speck() -> real {
    1 as real / 0x10_0000_0000_0000_0000_0000_0000_0000_0000_0000 as real
}

/// What rounding moves the smallest scaled parts at most.
pub open spec fn crumb() -> real {
    1 as real / 0x1_0000_0000_0000_0000_0000_0000_0000_0000_0000 as real
}

#[verifier::spinoff_prover]
pub proof fn lemma_add_squares(
    a: real,
    b: real,
    c: real,
    x: real,
    y: real,
    z: real,
    s: real,
    l: real,
)
    requires
        a >= 0 as real,
        b >= 0 as real,
        c >= 0 as real,
        rounded(x, a),
        rounded(y, b),
        rounded(z, c),
        s <= (x + y) + epsilon() * (x + y),
        x + y <= s + epsilon() * (x + y),
        l <= (s + z) + epsilon() * (s + z),
        s + z <= l + epsilon() * (s + z),
    ensures
        a + b + c <= l + l / 0x40_0000 as real + speck(),
        l <= (a + b + c) + (a + b + c) / 0x40_0000 as real + speck(),
{
    lemma_scale_in_figures();
    let e = epsilon();
    let t = half_unit();
    let d = speck();
    assert(a + b + c <= l + l / 0x40_0000 as real + d && l <= (a + b + c) + (a + b + c)
        / 0x40_0000 as real + d) by (nonlinear_arith)
        requires
            a >= 0 as real,
            b >= 0 as real,
            c >= 0 as real,
            x <= a + e * a + t,
            a <= x + e * a + t,
            y <= b + e * b + t,
            b <= y + e * b + t,
            z <= c + e * c + t,
            c <= z + e * c + t,
            s <= (x + y) + e * (x + y),
            x + y <= s + e * (x + y),
            l <= (s + z) + e * (s + z),
            s + z <= l + e * (s + z),
            e == 1 as real / 0x100_0000 as real,
            t == 1 as real / 0x40_0000_0000_0000_0000_0000_0000_0000_0000_0000 as real,
            d == 1 as real / 0x10_0000_0000_0000_0000_0000_0000_0000_0000_0000 as real,
    ;
}

/// The squared length of a finite vector is rounded.
#[verifier::spinoff_prover]
pub proof fn law_squared_length_rounded(v: Vec3)
    requires
        finite(v),
        v.length_squared().is_finite(),
    ensures
        ({
            let l = extent(v.length_squared());
            let sum = squared_length(v);
            &&& sum <= l + l / 0x40_0000 as real + speck()
            &&& l <= sum + sum / 0x40_0000 as real + speck()
        }),
{
    reveal(Vec3::spec_length_squared);
    reveal(Vec3::spec_dot);
    lemma_length_squared(v);
    let xx = v.x * v.x;
    let yy = v.y * v.y;
    let zz = v.z * v.z;
    law_square(v.x);
    law_square(v.y);
    law_square(v.z);
    law_sum_grows(xx, yy);
    law_sum_grows(xx + yy, zz);
    assert(xx.is_finite() && yy.is_finite() && zz.is_finite() && (xx + yy).is_finite()) by {
        reveal(Scalar::spec_is_finite);
    }
    law_product_rounded(v.x, v.x);
    law_product_rounded(v.y, v.y);
    law_product_rounded(v.z, v.z);
    law_sum_rounded(xx, yy);
    law_sum_rounded(xx + yy, zz);
    lemma_extent(v.x);
    lemma_extent(v.y);
    lemma_extent(v.z);
    let x = extent(v.x);
    let y = extent(v.y);
    let z = extent(v.z);
    assert(x * x >= 0 as real && y * y >= 0 as real && z * z >= 0 as real) by (nonlinear_arith);
    lemma_add_squares(
        x * x,
        y * y,
        z * z,
        extent(xx),
        extent(yy),
        extent(zz),
        extent(xx + yy),
        extent(v.length_squared()),
    );
}

/// The square of one part of a vector that was divided by a length `r` and then scaled to `m`.
#[verifier::spinoff_prover]
proof fn lemma_scaled_part(x: real, r: real, q: real, m: real, p: real)
    requires
        x >= 0 as real,
        r > 0 as real,
        m >= 0 as real,
        q >= 0 as real,
        p >= 0 as real,
        (x / r) * (x / r) <= 4 as real,
        rounded(q, x / r),
        rounded(p, q * m),
    ensures
        ({
            let y = x / r;
            let a = (y * y) * (m * m);
            &&& a >= 0 as real
            &&& p * p <= a + a / 0x20_0000 as real + (m * m) * crumb() + crumb()
        }),
{
    lemma_scale_in_figures();
    let e = epsilon();
    let t = half_unit();
    let y = x / r;
    assert(y >= 0 as real) by (nonlinear_arith)
        requires
            y == x / r,
            x >= 0 as real,
            r > 0 as real,
    ;
    assert(y <= 2 as real) by (nonlinear_arith)
        requires
            y * y <= 4 as real,
            y >= 0 as real,
    ;
    let w = y * m;
    assert(w >= 0 as real && w <= 2 as real * m) by (nonlinear_arith)
        requires
            w == y * m,
            y >= 0 as real,
            y <= 2 as real,
            m >= 0 as real,
    ;
    let g = q * m;
    assert(g <= w + e * w + t * m) by (nonlinear_arith)
        requires
            g == q * m,
            w == y * m,
            q <= y + e * y + t,
            m >= 0 as real,
    ;
    let a = w + 3 as real * e * w;
    let b = t * (2 as real * m + 1 as real);
    let tm = t * m;
    assert(p <= a + b) by (nonlinear_arith)
        requires
            p <= g + e * g + t,
            g <= w + e * w + tm,
            a == w + 3 as real * e * w,
            b == 2 as real * tm + t,
            w >= 0 as real,
            tm >= 0 as real,
            e == 1 as real / 0x100_0000 as real,
    ;
    assert(p * p <= a * a + 2 as real * a * b + b * b) by (nonlinear_arith)
        requires
            p >= 0 as real,
            p <= a + b,
    ;
    let ww = w * w;
    let mm = m * m;
    assert(a * a <= ww + 7 as real * e * ww) by (nonlinear_arith)
        requires
            a == w + 3 as real * e * w,
            ww == w * w,
            e == 1 as real / 0x100_0000 as real,
    ;
    assert(m <= mm + 1 as real) by (nonlinear_arith)
        requires
            mm == m * m,
    ;
    assert(a <= 3 as real * m && a >= 0 as real && b >= 0 as real) by (nonlinear_arith)
        requires
            a == w + 3 as real * e * w,
            w >= 0 as real,
            w <= 2 as real * m,
            b == t * (2 as real * m + 1 as real),
            m >= 0 as real,
            t > 0 as real,
            e == 1 as real / 0x100_0000 as real,
    ;
    assert(a * b <= t * (9 as real * mm + 3 as real)) by (nonlinear_arith)
        requires
            a <= 3 as real * m,
            a >= 0 as real,
            b == t * (2 as real * m + 1 as real),
            b >= 0 as real,
            m <= mm + 1 as real,
            mm == m * m,
            t > 0 as real,
            m >= 0 as real,
    {
        assert(a * b <= (3 as real * m) * b);
        assert((3 as real * m) * b == t * (6 as real * mm + 3 as real * m));
        assert(t * (6 as real * mm + 3 as real * m) <= t * (9 as real * mm + 3 as real));
    }
    assert(b * b <= t * (8 as real * mm + 2 as real)) by (nonlinear_arith)
        requires
            b == t * (2 as real * m + 1 as real),
            m <= mm + 1 as real,
            mm == m * m,
            t > 0 as real,
            t <= 1 as real,
            m >= 0 as real,
    {
        let k = 2 as real * m + 1 as real;
        assert(k * k <= 8 as real * mm + 2 as real) by {
            assert((2 as real * m - 1 as real) * (2 as real * m - 1 as real) >= 0 as real);
        }
        assert(b * b == (t * t) * (k * k));
        assert(t * t <= t);
        assert((t * t) * (k * k) <= t * (k * k));
        assert(t * (k * k) <= t * (8 as real * mm + 2 as real));
    }
    assert(ww == (y * y) * mm) by (nonlinear_arith)
        requires
            ww == w * w,
            w == y * m,
            mm == m * m,
    ;
    let tmm = t * mm;
    assert(tmm >= 0 as real) by (nonlinear_arith)
        requires
            tmm == t * mm,
            t > 0 as real,
            mm == m * m,
    ;
    assert(p * p <= ww + 7 as real * e * ww + 40 as real * tmm + 10 as real * t)
        by (nonlinear_arith)
        requires
            p * p <= a * a + 2 as real * a * b + b * b,
            a * a <= ww + 7 as real * e * ww,
            a * b <= t * (9 as real * mm + 3 as real),
            b * b <= t * (8 as real * mm + 2 as real),
            tmm == t * mm,
            tmm >= 0 as real,
            t > 0 as real,
    ;
    let d = crumb();
    let dm = mm * d;
    assert(40 as real * tmm <= dm) by (nonlinear_arith)
        requires
            tmm == t * mm,
            dm == mm * d,
            40 as real * t <= d,
            mm == m * m,
    {
        assert(mm >= 0 as real);
        assert((40 as real * t) * mm <= d * mm);
    }
    assert(ww >= 0 as real) by (nonlinear_arith)
        requires
            ww == w * w,
    ;
    assert(p * p <= ww + ww / 0x20_0000 as real + dm + d) by (nonlinear_arith)
        requires
            p * p <= ww + 7 as real * e * ww + 40 as real * tmm + 10 as real * t,
            40 as real * tmm <= dm,
            10 as real * t <= d,
            ww >= 0 as real,
            e == 1 as real / 0x100_0000 as real,
    ;
}

/// The least squared length at which rounding takes no more than a small part of it: the least
/// number that has all its digits.
pub open spec fn sharp() -> real {
    1 as real / 0x4000_0000_0000_0000_0000_0000_0000_0000 as real
}

/// How the squared length compares to the square of the rounded length.
#[verifier::spinoff_prover]
pub proof fn lemma_length_ratio(sum: real, l: real, rr: real)
    requires
        sum >= 0 as real,
        rr > 0 as real,
        sum <= l + l / 0x40_0000 as real + speck(),
        l <= sum + sum / 0x40_0000 as real + speck(),
        l <= rr + rr / 0x40_0000 as real,
        rr <= l + rr / 0x40_0000 as real,
        l >= 2 as real * half_unit(),
    ensures
        sum <= 4 as real * rr,
        l >= sharp() ==> {
            &&& sum <= rr + rr / 0x10_0000 as real
            &&& rr <= sum + rr / 0x10_0000 as real
        },
{
    lemma_scale_in_figures();
    let d = speck();
    let u = 2 as real * half_unit();
    assert(sum <= 4 as real * rr) by (nonlinear_arith)
        requires
            rr > 0 as real,
            sum <= l + l / 0x40_0000 as real + d,
            l <= rr + rr / 0x40_0000 as real,
            l >= u,
            d <= 2 as real * u,
    ;
    let k = sharp();
    if l >= k {
        assert(sum <= rr + rr / 0x10_0000 as real && rr <= sum + rr / 0x10_0000 as real)
            by (nonlinear_arith)
            requires
                sum >= 0 as real,
                rr > 0 as real,
                sum <= l + l / 0x40_0000 as real + d,
                l <= sum + sum / 0x40_0000 as real + d,
                l <= rr + rr / 0x40_0000 as real,
                rr <= l + rr / 0x40_0000 as real,
                l >= k,
                d * 0x40_0000 as real <= k,
        ;
    }
}

/// The square of a quotient.
#[verifier::spinoff_prover]
proof fn lemma_square_over(x: real, r: real)
    requires
        r > 0 as real,
    ensures
        ((x / r) * (x / r)) * (r * r) == x * x,
{
    let y = x / r;
    assert(y * r == x) by (nonlinear_arith)
        requires
            y == x / r,
            r > 0 as real,
    ;
    assert((y * y) * (r * r) == (y * r) * (y * r)) by (nonlinear_arith);
}

/// The squared parts of a vector that was divided by a length.
#[verifier::spinoff_prover]
proof fn lemma_divided(x: real, y: real, z: real, r: real)
    requires
        r > 0 as real,
    ensures
        ({
            let all = (x / r) * (x / r) + (y / r) * (y / r) + (z / r) * (z / r);
            &&& all * (r * r) == x * x + y * y + z * z
            &&& (x / r) * (x / r) <= all
            &&& (y / r) * (y / r) <= all
            &&& (z / r) * (z / r) <= all
        }),
{
    lemma_square_over(x, r);
    lemma_square_over(y, r);
    lemma_square_over(z, r);
    let a = (x / r) * (x / r);
    let b = (y / r) * (y / r);
    let c = (z / r) * (z / r);
    let rr = r * r;
    assert((a + b + c) * rr == a * rr + b * rr + c * rr) by (nonlinear_arith);
    lemma_not_negative(x / r);
    lemma_not_negative(y / r);
    lemma_not_negative(z / r);
}

/// A square is not negative.
#[verifier::spinoff_prover]
pub proof fn lemma_not_negative(x: real)
    ensures
        x * x >= 0 as real,
{
    assert(x * x >= 0 as real) by (nonlinear_arith);
}

/// The squared length of a vector that was divided by a length and scaled to `m`, from its parts.
#[verifier::spinoff_prover]
proof fn lemma_scaled_length(a: real, b: real, c: real, mm: real, p: real, q: real, o: real)
    requires
        mm >= 0 as real,
        p <= a * mm + (a * mm) / 0x20_0000 as real + mm * crumb() + crumb(),
        q <= b * mm + (b * mm) / 0x20_0000 as real + mm * crumb() + crumb(),
        o <= c * mm + (c * mm) / 0x20_0000 as real + mm * crumb() + crumb(),
    ensures
        ({
            let am = (a + b + c) * mm;
            p + q + o <= am + am / 0x20_0000 as real + mm / 0x100_0000 as real + 3 as real * crumb()
        }),
{
    let am = a * mm;
    let bm = b * mm;
    let cm = c * mm;
    let d = crumb();
    let dm = mm * d;
    assert((a + b + c) * mm == am + bm + cm) by (nonlinear_arith)
        requires
            am == a * mm,
            bm == b * mm,
            cm == c * mm,
    ;
    assert(3 as real * dm <= mm / 0x100_0000 as real) by (nonlinear_arith)
        requires
            dm == mm * d,
            mm >= 0 as real,
            d == 1 as real / 0x1_0000_0000_0000_0000_0000_0000_0000_0000_0000 as real,
    ;
    let all = am + bm + cm;
    assert(p + q + o <= all + all / 0x20_0000 as real + mm / 0x100_0000 as real + 3 as real * d)
        by (nonlinear_arith)
        requires
            p <= am + am / 0x20_0000 as real + dm + d,
            q <= bm + bm / 0x20_0000 as real + dm + d,
            o <= cm + cm / 0x20_0000 as real + dm + d,
            all == am + bm + cm,
            3 as real * dm <= mm / 0x100_0000 as real,
    ;
}

/// How much longer than its limit rounding lets a limited vector be, squared.
pub open spec fn slack() -> real {
    1 as real / 0x400_0000_0000_0000_0000_0000_0000_0000 as real
}

/// Whether a vector is no longer than `max`, but for rounding.
pub open spec fn no_longer(v: Vec3, max: Scalar) -> bool {
    let mm = extent(max) * extent(max);
    squared_length(v) <= mm + mm / 0x8_0000 as real + slack()
}

/// The bound on a limited vector, from what its parts come to.
#[verifier::spinoff_prover]
proof fn lemma_limited(total: real, all: real, mm: real, m2: real, l: real)
    requires
        mm >= 0 as real,
        all <= 4 as real,
        l >= sharp() ==> all <= 1 as real + 1 as real / 0x10_0000 as real,
        total <= all * mm + (all * mm) / 0x20_0000 as real + mm / 0x100_0000 as real + 3 as real
            * crumb(),
        mm <= m2 + mm / 0x100_0000 as real + half_unit(),
        m2 <= l,
    ensures
        total <= mm + mm / 0x8_0000 as real + slack(),
{
    lemma_scale_in_figures();
    let am = all * mm;
    let d = crumb();
    let k = sharp();
    let t = half_unit();
    let o = slack();
    if l >= k {
        let c = 1 as real + 1 as real / 0x10_0000 as real;
        assert(am <= c * mm) by (nonlinear_arith)
            requires
                am == all * mm,
                all <= c,
                mm >= 0 as real,
        ;
        assert(c * mm == mm + mm / 0x10_0000 as real) by (nonlinear_arith)
            requires
                c == 1 as real + 1 as real / 0x10_0000 as real,
        ;
        assert(total <= mm + mm / 0x8_0000 as real + o) by (nonlinear_arith)
            requires
                total <= am + am / 0x20_0000 as real + mm / 0x100_0000 as real + 3 as real * d,
                am <= mm + mm / 0x10_0000 as real,
                mm >= 0 as real,
                3 as real * d <= o,
        ;
    } else {
        assert(am <= 4 as real * mm) by (nonlinear_arith)
            requires
                am == all * mm,
                all <= 4 as real,
                mm >= 0 as real,
        ;
        assert(total <= mm + mm / 0x8_0000 as real + o) by (nonlinear_arith)
            requires
                total <= am + am / 0x20_0000 as real + mm / 0x100_0000 as real + 3 as real * d,
                am <= 4 as real * mm,
                mm <= m2 + mm / 0x100_0000 as real + t,
                m2 <= l,
                l <= k,
                mm >= 0 as real,
                3 as real * d + 8 as real * k + 8 as real * t <= o,
        ;
    }
}

/// Only finite numbers have a finite product.
#[verifier::spinoff_prover]
pub proof fn lemma_factor_finite(q: Scalar, m: Scalar)
    requires
        (q * m).is_finite(),
    ensures
        q.is_finite(),
        m.is_finite(),
{
    broadcast use group_bits;

    reveal(Scalar::spec_is_finite);
    reveal(Scalar::spec_mul);
    reveal(ieee::product);
}

/// Numbers that are not negative are ordered as their amounts are.
#[verifier::spinoff_prover]
pub proof fn lemma_extents_ordered(a: Scalar, b: Scalar)
    requires
        a.is_finite(),
        b.is_finite(),
        num(ZERO).le(a),
        a.le(b),
    ensures
        extent(a) <= extent(b),
{
    broadcast use group_bits;

    reveal(Scalar::spec_le);
    lemma_units_ordered(size(a), size(b));
    lemma_extent(a);
    lemma_extent(b);
    lemma_scale_in_figures();
    lemma_cancel(extent(a), extent(b), scale());
}

/// The least amount but zero.
#[verifier::spinoff_prover]
proof fn lemma_at_least_a_unit(a: Scalar)
    requires
        size(a) > 0,
    ensures
        extent(a) >= 2 as real * half_unit(),
{
    lemma_scale_in_figures();
    lemma_units_zero(size(a));
    lemma_extent(a);
    let p = scale();
    let t = 2 as real * half_unit();
    assert(t * p == 1 as real);
    lemma_cancel(t, extent(a), p);
}

/// One part of a vector that is divided by a length and scaled, with the finite numbers that it
/// goes through.
#[verifier::spinoff_prover]
proof fn lemma_part(part: Scalar, len: Scalar, max: Scalar)
    requires
        part.is_finite(),
        len.is_finite(),
        max.is_finite(),
        size(len) > 0,
        (part.over(len) * max).is_finite(),
        ({
            let y = extent(part) / extent(len);
            y * y <= 4 as real
        }),
    ensures
        ({
            let y = extent(part) / extent(len);
            let mm = extent(max) * extent(max);
            let p = extent(part.over(len) * max);
            p * p <= (y * y) * mm + ((y * y) * mm) / 0x20_0000 as real + mm * crumb() + crumb()
        }),
{
    lemma_factor_finite(part.over(len), max);
    law_quotient_rounded(part, len);
    law_product_rounded(part.over(len), max);
    lemma_extent(part);
    lemma_extent(max);
    lemma_extent(part.over(len));
    lemma_extent(part.over(len) * max);
    lemma_scaled_part(
        extent(part),
        extent(len),
        extent(part.over(len)),
        extent(max),
        extent(part.over(len) * max),
    );
}

/// A vector that is divided by its own infinite length and scaled is zero.
#[verifier::spinoff_prover]
proof fn lemma_lost(v: Vec3, len: Scalar, max: Scalar)
    requires
        finite(v),
        size(len) == INFINITE,
        max.is_finite(),
    ensures
        squared_length(v.over(len) * max) == 0 as real,
{
    reveal(Vec3::spec_over);
    reveal(Vec3::spec_mul);
    let w = v.over(len) * max;
    lemma_over_infinite(v.x, len);
    lemma_over_infinite(v.y, len);
    lemma_over_infinite(v.z, len);
    law_times_zero(v.x.over(len), max);
    law_times_zero(v.y.over(len), max);
    law_times_zero(v.z.over(len), max);
    lemma_extent(w.x);
    lemma_extent(w.y);
    lemma_extent(w.z);
    assert(0 as real * 0 as real == 0 as real) by (nonlinear_arith);
}

/// What the parts of a vector come to once they are divided by its rounded length.
#[verifier::spinoff_prover]
pub proof fn lemma_directed(v: Vec3)
    requires
        finite(v),
        num(ZERO).lt(v.length_squared()),
        v.length_squared().is_finite(),
        v.length_squared().sqrt().is_finite(),
    ensures
        ({
            let r = extent(v.length_squared().sqrt());
            let l = extent(v.length_squared());
            let x = extent(v.x) / r;
            let y = extent(v.y) / r;
            let z = extent(v.z) / r;
            let all = x * x + y * y + z * z;
            &&& r > 0 as real
            &&& all * (r * r) == squared_length(v)
            &&& x * x <= all
            &&& y * y <= all
            &&& z * z <= all
            &&& all <= 4 as real
            &&& l >= sharp() ==> {
                &&& all <= 1 as real + 1 as real / 0x10_0000 as real
                &&& 1 as real <= all + 1 as real / 0x10_0000 as real
            }
        }),
{
    let squared = v.length_squared();
    let r = extent(squared.sqrt());
    let l = extent(squared);
    law_squared_length_rounded(v);
    law_root_rounded(squared);
    assert(size(squared) > 0) by {
        broadcast use group_bits;

        reveal(Scalar::spec_lt);
    }
    lemma_at_least_a_unit(squared);
    lemma_divided(extent(v.x), extent(v.y), extent(v.z), r);
    lemma_not_negative(extent(v.x));
    lemma_not_negative(extent(v.y));
    lemma_not_negative(extent(v.z));
    let rr = r * r;
    assert(rr > 0 as real) by (nonlinear_arith)
        requires
            rr == r * r,
            r > 0 as real,
    ;
    lemma_length_ratio(squared_length(v), l, rr);
    let x = extent(v.x) / r;
    let y = extent(v.y) / r;
    let z = extent(v.z) / r;
    let all = x * x + y * y + z * z;
    lemma_cancel(all, 4 as real, rr);
    if l >= sharp() {
        let c = 1 as real + 1 as real / 0x10_0000 as real;
        assert(c * rr == rr + rr / 0x10_0000 as real) by (nonlinear_arith)
            requires
                c == 1 as real + 1 as real / 0x10_0000 as real,
        ;
        lemma_cancel(all, c, rr);
        let k = 1 as real - 1 as real / 0x10_0000 as real;
        assert(k * rr == rr - rr / 0x10_0000 as real) by (nonlinear_arith)
            requires
                k == 1 as real - 1 as real / 0x10_0000 as real,
        ;
        lemma_cancel(k, all, rr);
    }
}

/// A vector that is too long, shortened, is no longer than its limit.
#[verifier::spinoff_prover]
proof fn lemma_shortened_length(v: Vec3, max: Scalar)
    requires
        finite(v),
        max.is_finite(),
        (max * max).is_finite(),
        (max * max).lt(v.length_squared()),
        finite(v.over(v.length_squared().sqrt()) * max),
    ensures
        no_longer(v.over(v.length_squared().sqrt()) * max, max),
{
    broadcast use group_bits;

    lemma_length_squared(v);
    law_square(max);
    let squared = v.length_squared();
    let len = squared.sqrt();
    let w = v.over(len) * max;
    let mm = extent(max) * extent(max);
    lemma_not_negative(extent(max));
    assert(num(ZERO).lt(squared) && (max * max).le(squared)) by {
        reveal(Scalar::spec_lt);
        reveal(Scalar::spec_le);
    }
    law_root(squared);
    if !len.is_finite() {
        assert(size(len) == INFINITE) by {
            reveal(Scalar::spec_is_finite);
            reveal(Scalar::spec_is_number);
        }
        lemma_lost(v, len, max);
        assert(mm / 0x8_0000 as real >= 0 as real) by (nonlinear_arith)
            requires
                mm >= 0 as real,
        ;
    } else {
        assert(squared.is_finite()) by {
            reveal(Scalar::spec_is_finite);
            reveal(Scalar::spec_le);
            reveal(Scalar::spec_sqrt);
            reveal(ieee::root);
        }
        lemma_directed(v);
        assert(size(len) > 0) by {
            lemma_extent(len);
        }
        reveal(Vec3::spec_over);
        reveal(Vec3::spec_mul);
        lemma_part(v.x, len, max);
        lemma_part(v.y, len, max);
        lemma_part(v.z, len, max);
        let r = extent(len);
        let x = extent(v.x) / r;
        let y = extent(v.y) / r;
        let z = extent(v.z) / r;
        lemma_scaled_length(
            x * x,
            y * y,
            z * z,
            mm,
            extent(w.x) * extent(w.x),
            extent(w.y) * extent(w.y),
            extent(w.z) * extent(w.z),
        );
        law_product_rounded(max, max);
        lemma_extents_ordered(max * max, squared);
        lemma_scale_in_figures();
        let m2 = extent(max * max);
        let e = epsilon();
        let t = half_unit();
        assert(mm <= m2 + mm / 0x100_0000 as real + t) by (nonlinear_arith)
            requires
                mm <= m2 + e * mm + t,
                e == 1 as real / 0x100_0000 as real,
        ;
        lemma_limited(squared_length(w), x * x + y * y + z * z, mm, m2, extent(squared));
    }
}

/// A vector whose computed squared length is within the limit is no longer than the limit.
#[verifier::spinoff_prover]
proof fn lemma_kept_length(v: Vec3, max: Scalar)
    requires
        finite(v),
        max.is_finite(),
        (max * max).is_finite(),
        !(max * max).lt(v.length_squared()),
    ensures
        no_longer(v, max),
{
    broadcast use group_bits;

    lemma_length_squared(v);
    law_square(max);
    let squared = v.length_squared();
    assert(squared.le(max * max) && squared.is_finite()) by {
        reveal(Scalar::spec_lt);
        reveal(Scalar::spec_le);
        reveal(Scalar::spec_is_finite);
        reveal(Scalar::spec_is_number);
    }
    law_squared_length_rounded(v);
    law_product_rounded(max, max);
    lemma_extents_ordered(squared, max * max);
    lemma_scale_in_figures();
    lemma_not_negative(extent(max));
    let mm = extent(max) * extent(max);
    let m2 = extent(max * max);
    let l = extent(squared);
    let sum = squared_length(v);
    let e = epsilon();
    let t = half_unit();
    let d = speck();
    let o = slack();
    assert(m2 <= mm + mm / 0x100_0000 as real + t) by (nonlinear_arith)
        requires
            m2 <= mm + e * mm + t,
            e == 1 as real / 0x100_0000 as real,
    ;
    assert(sum <= mm + mm / 0x8_0000 as real + o) by (nonlinear_arith)
        requires
            sum <= l + l / 0x40_0000 as real + d,
            l <= m2,
            m2 <= mm + mm / 0x100_0000 as real + t,
            mm >= 0 as real,
            t >= 0 as real,
            2 as real * t + d <= o,
    ;
}

/// A validated velocity is no longer than the highest speed, but for rounding, whatever it was. A
/// highest speed whose square is too great to hold is left out.
#[verifier::spinoff_prover]
pub proof fn law_valid_velocity_is_limited(velocity: Vec3, max_speed: Scalar)
    requires
        max_speed.is_finite(),
        (max_speed * max_speed).is_finite(),
    ensures
        no_longer(valid_velocity(velocity, max_speed), max_speed),
{
    law_valid_velocity_is_finite(velocity, max_speed);
    reveal(valid_velocity);
    lemma_one();
    let v = vec3(
        finite_or_zero(velocity.x),
        finite_or_zero(velocity.y),
        finite_or_zero(velocity.z),
    );
    lemma_length_squared(v);
    lemma_zero_square();
    reveal(Vec3::spec_clamp_length);
    assert(!v.length_squared().lt(num(ZERO) * num(ZERO))) by {
        reveal(Scalar::spec_lt);
        reveal(Scalar::spec_le);
        broadcast use group_bits;

    }
    if (max_speed * max_speed).lt(v.length_squared()) {
        lemma_shortened_length(v, max_speed);
    } else {
        lemma_kept_length(v, max_speed);
    }
}

/// Two wishes together, as for swimming ahead and up at once, ask for no more than one alone may,
/// but for rounding.
#[verifier::spinoff_prover]
pub proof fn law_joint_wish_length(wish: Vec3, speed: Scalar)
    requires
        finite(wish),
        speed.is_finite(),
        (speed * speed).is_finite(),
        finite(wish.clamp_length_max(speed)),
    ensures
        no_longer(wish.clamp_length_max(speed), speed),
{
    reveal(Vec3::spec_clamp_length_max);
    if (speed * speed).lt(wish.length_squared()) {
        lemma_shortened_length(wish, speed);
    } else {
        lemma_kept_length(wish, speed);
    }
}

/// How far from a limit rounding leaves the smallest lengths at most.
pub open spec fn mote() -> real {
    1 as real / 0x400_0000_0000_0000 as real
}

/// Lengths with close squares are close.
#[verifier::spinoff_prover]
proof fn lemma_close_lengths(m: real, r: real)
    requires
        m >= 0 as real,
        r >= 0 as real,
        r * r <= m * m + (m * m) / 0x2_0000 as real + 2 as real * slack(),
        m * m <= r * r + (m * m) / 0x2_0000 as real + 2 as real * slack(),
    ensures
        off(r, m, m / 0x2_0000 as real + mote() / 4 as real),
{
    let g = mote() / 4 as real;
    let u = m / 0x2_0000 as real;
    let mm = m * m;
    let rr = r * r;
    let gg = g * g;
    let b = m + u;
    assert(gg >= 2 as real * slack()) by (nonlinear_arith)
        requires
            gg == g * g,
            g == 1 as real / 0x1000_0000_0000_0000 as real,
            slack() == 1 as real / 0x400_0000_0000_0000_0000_0000_0000_0000 as real,
    ;
    assert(b * b >= mm + mm / 0x2_0000 as real) by (nonlinear_arith)
        requires
            b == m + m / 0x2_0000 as real,
            mm == m * m,
            m >= 0 as real,
    ;
    let c = b + g;
    assert(c * c >= b * b + gg) by (nonlinear_arith)
        requires
            c == b + g,
            gg == g * g,
            b >= 0 as real,
            g >= 0 as real,
    ;
    assert(r <= c) by (nonlinear_arith)
        requires
            r * r <= c * c,
            r >= 0 as real,
            c >= 0 as real,
    {
        if r > c {
            assert(r * r > c * c);
        }
    }
    let a = m - u;
    assert(a * a <= mm - mm / 0x2_0000 as real) by (nonlinear_arith)
        requires
            a == m - m / 0x2_0000 as real,
            mm == m * m,
            m >= 0 as real,
    ;
    if r + g < a {
        let k = a - g;
        assert(rr < k * k) by (nonlinear_arith)
            requires
                rr == r * r,
                0 as real <= r,
                r < k,
        ;
        assert(k * k <= a * a - gg) by (nonlinear_arith)
            requires
                k == a - g,
                gg == g * g,
                g >= 0 as real,
                a >= g,
        {
            assert(k * k == a * a - 2 as real * (a * g) + g * g);
            assert(a * g >= g * g);
        }
    }
}

/// One part of a vector of a length close to `m` that is divided by it and scaled to `m`.
#[verifier::spinoff_prover]
proof fn lemma_again_part(x: real, r: real, q: real, m: real, p: real)
    requires
        x >= 0 as real,
        r > 0 as real,
        m >= 0 as real,
        q >= 0 as real,
        p >= 0 as real,
        (x / r) * (x / r) <= 4 as real,
        rounded(q, x / r),
        rounded(p, q * m),
        off(r, m, m / 0x2_0000 as real + mote() / 4 as real),
    ensures
        off(p, x, m / 0x8000 as real + mote()),
        m == 0 as real ==> p + x <= mote(),
{
    lemma_scale_in_figures();
    let e = epsilon();
    let t = half_unit();
    let y = x / r;
    assert(y >= 0 as real && y * r == x) by (nonlinear_arith)
        requires
            y == x / r,
            x >= 0 as real,
            r > 0 as real,
    ;
    assert(y <= 2 as real) by (nonlinear_arith)
        requires
            y * y <= 4 as real,
            y >= 0 as real,
    ;
    let w = y * m;
    assert(w >= 0 as real && w <= 2 as real * m) by (nonlinear_arith)
        requires
            w == y * m,
            y >= 0 as real,
            y <= 2 as real,
            m >= 0 as real,
    ;
    let g = q * m;
    let tm = t * m;
    assert(g <= w + e * w + tm && w <= g + e * w + tm && g >= 0 as real) by (nonlinear_arith)
        requires
            g == q * m,
            w == y * m,
            tm == t * m,
            q <= y + e * y + t,
            y <= q + e * y + t,
            q >= 0 as real,
            m >= 0 as real,
    {
        assert(q * m <= (y + e * y + t) * m);
        assert(y * m <= (q + e * y + t) * m);
        assert((y + e * y + t) * m == y * m + e * (y * m) + t * m);
        assert((q + e * y + t) * m == q * m + e * (y * m) + t * m);
    }
    assert(tm <= m / 0x100_0000 as real && tm >= 0 as real) by (nonlinear_arith)
        requires
            tm == t * m,
            m >= 0 as real,
            0 as real <= t,
            t <= 1 as real / 0x100_0000 as real,
    ;
    let d = m / 0x10_0000 as real + t;
    assert(off(p, w, d)) by {
        assert(p <= w + d && w <= p + d) by (nonlinear_arith)
            requires
                p <= g + e * g + t,
                g <= p + e * g + t,
                g <= w + e * w + tm,
                w <= g + e * w + tm,
                g >= 0 as real,
                w >= 0 as real,
                w <= 2 as real * m,
                tm <= m / 0x100_0000 as real,
                tm >= 0 as real,
                d == m / 0x10_0000 as real + t,
                e == 1 as real / 0x100_0000 as real,
        ;
    }
    let f = m - r;
    let b = m / 0x2_0000 as real + mote() / 4 as real;
    lemma_product_bounded(y, f, 2 as real, b);
    assert(w - x == y * f) by (nonlinear_arith)
        requires
            w == y * m,
            x == y * r,
            f == m - r,
    ;
}

/// A velocity that rounding left above the highest speed, validated again.
#[verifier::spinoff_prover]
proof fn lemma_validated_again(v: Vec3, max: Scalar)
    requires
        finite(v),
        no_longer(v, max),
        max.is_finite(),
        num(ZERO).le(max),
        (max * max).is_finite(),
        v.length_squared().is_finite(),
        (max * max).lt(v.length_squared()),
        finite(v.over(v.length_squared().sqrt()) * max),
    ensures
        ({
            let w = v.over(v.length_squared().sqrt()) * max;
            let d = extent(max) / 0x8000 as real + mote();
            &&& off(amount(w.x), amount(v.x), d)
            &&& off(amount(w.y), amount(v.y), d)
            &&& off(amount(w.z), amount(v.z), d)
        }),
{
    broadcast use group_bits;

    lemma_length_squared(v);
    law_square(max);
    let squared = v.length_squared();
    let len = squared.sqrt();
    let w = v.over(len) * max;
    let m = extent(max);
    let mm = m * m;
    lemma_not_negative(m);
    lemma_extent(max);
    assert(num(ZERO).lt(squared) && (max * max).le(squared)) by {
        reveal(Scalar::spec_lt);
        reveal(Scalar::spec_le);
    }
    law_root(squared);
    law_root_finite(squared);
    assert(!minus(len)) by {
        reveal(Scalar::spec_le);
        reveal(Scalar::spec_lt);
    }
    lemma_directed(v);
    law_root_rounded(squared);
    law_squared_length_rounded(v);
    law_product_rounded(max, max);
    lemma_extents_ordered(max * max, squared);
    lemma_scale_in_figures();
    let r = extent(len);
    let rr = r * r;
    let l = extent(squared);
    let sum = squared_length(v);
    let m2 = extent(max * max);
    let e = epsilon();
    let t = half_unit();
    assert(mm <= m2 + mm / 0x100_0000 as real + t) by (nonlinear_arith)
        requires
            mm <= m2 + e * mm + t,
            e == 1 as real / 0x100_0000 as real,
    ;
    assert(size(len) > 0) by {
        lemma_extent(len);
    }
    assert(minus(max) ==> m == 0 as real) by {
        reveal(Scalar::spec_le);
    }
    reveal(Vec3::spec_over);
    reveal(Vec3::spec_mul);
    if l >= sharp() {
        let all = (extent(v.x) / r) * (extent(v.x) / r) + (extent(v.y) / r) * (extent(v.y) / r) + (
        extent(v.z) / r) * (extent(v.z) / r);
        let k = 1 as real - 1 as real / 0x10_0000 as real;
        lemma_not_negative(r);
        assert(k * rr <= all * rr) by (nonlinear_arith)
            requires
                k <= all,
                rr >= 0 as real,
        ;
        assert(k * rr == rr - rr / 0x10_0000 as real) by (nonlinear_arith)
            requires
                k == 1 as real - 1 as real / 0x10_0000 as real,
        ;
        lemma_close_lengths(m, r);
        lemma_part_again(v.x, len, max);
        lemma_part_again(v.y, len, max);
        lemma_part_again(v.z, len, max);
    } else {
        lemma_shortened_length(v, max);
        assert(no_longer(w, max));
        let o = 1 as real / 0x80_0000_0000_0000_0000_0000_0000_0000 as real;
        assert(squared_length(w) <= o && sum <= o);
        lemma_small_parts(v.x, v.y, v.z);
        lemma_small_parts(w.x, w.y, w.z);
    }
}

/// The parts of a very short vector are very small.
#[verifier::spinoff_prover]
proof fn lemma_small_parts(x: Scalar, y: Scalar, z: Scalar)
    requires
        squared_length(vec3(x, y, z)) <= 1 as real
            / 0x80_0000_0000_0000_0000_0000_0000_0000 as real,
    ensures
        bounded(amount(x), mote() / 2 as real),
        bounded(amount(y), mote() / 2 as real),
        bounded(amount(z), mote() / 2 as real),
{
    lemma_extent(x);
    lemma_extent(y);
    lemma_extent(z);
    lemma_not_negative(extent(x));
    lemma_not_negative(extent(y));
    lemma_not_negative(extent(z));
    lemma_small_part(extent(x));
    lemma_small_part(extent(y));
    lemma_small_part(extent(z));
}

#[verifier::spinoff_prover]
proof fn lemma_small_part(x: real)
    requires
        x >= 0 as real,
        x * x <= 1 as real / 0x80_0000_0000_0000_0000_0000_0000_0000 as real,
    ensures
        x <= mote() / 2 as real,
{
    let g = mote() / 2 as real;
    assert(x <= g) by (nonlinear_arith)
        requires
            x >= 0 as real,
            x * x <= 1 as real / 0x80_0000_0000_0000_0000_0000_0000_0000 as real,
            g == 1 as real / 0x800_0000_0000_0000 as real,
    {
        if x > g {
            assert(x * x > g * g);
            assert(g * g == 1 as real / 0x40_0000_0000_0000_0000_0000_0000_0000 as real);
        }
    }
}

/// One part of a velocity that is divided by its own length and scaled.
#[verifier::spinoff_prover]
proof fn lemma_part_again(part: Scalar, len: Scalar, max: Scalar)
    requires
        part.is_finite(),
        len.is_finite(),
        !minus(len),
        max.is_finite(),
        minus(max) ==> extent(max) == 0 as real,
        size(len) > 0,
        (part.over(len) * max).is_finite(),
        ({
            let y = extent(part) / extent(len);
            y * y <= 4 as real
        }),
        off(extent(len), extent(max), extent(max) / 0x2_0000 as real + mote() / 4 as real),
    ensures
        off(
            amount(part.over(len) * max),
            amount(part),
            extent(max) / 0x8000 as real + mote(),
        ),
{
    lemma_factor_finite(part.over(len), max);
    law_quotient_rounded(part, len);
    law_product_rounded(part.over(len), max);
    lemma_quotient(part, len);
    lemma_product(part.over(len), max);
    lemma_extent(part);
    lemma_extent(max);
    lemma_extent(part.over(len));
    lemma_extent(part.over(len) * max);
    lemma_again_part(
        extent(part),
        extent(len),
        extent(part.over(len)),
        extent(max),
        extent(part.over(len) * max),
    );
}

/// Validating a velocity twice does what validating it once does, but for rounding, and exactly so
/// unless rounding left it above the highest speed. A velocity that rounding left so long that its
/// squared length is too great to hold is left out.
#[verifier::spinoff_prover]
pub proof fn law_validating_twice(velocity: Vec3, max_speed: Scalar)
    ensures
        ({
            let once = valid_velocity(velocity, max_speed);
            let twice = valid_velocity(once, max_speed);
            let d = extent(max_speed) / 0x8000 as real + mote();
            &&& !(max_speed * max_speed).lt(once.length_squared()) ==> twice == once
            &&& num(ZERO).le(max_speed) && once.length_squared().is_finite() ==> {
                &&& off(amount(twice.x), amount(once.x), d)
                &&& off(amount(twice.y), amount(once.y), d)
                &&& off(amount(twice.z), amount(once.z), d)
            }
        }),
{
    let once = valid_velocity(velocity, max_speed);
    law_valid_velocity_is_finite(velocity, max_speed);
    law_valid_velocity_is_finite(once, max_speed);
    lemma_extent(max_speed);
    if !(max_speed * max_speed).lt(once.length_squared()) {
        law_valid_velocity_stays(once, max_speed);
    } else if num(ZERO).le(max_speed) && once.length_squared().is_finite() {
        assert((max_speed * max_speed).is_finite()) by {
            broadcast use group_bits;

            reveal(Scalar::spec_is_finite);
            reveal(Scalar::spec_lt);
            reveal(Scalar::spec_mul);
            reveal(ieee::product);
        }
        lemma_factor_finite(max_speed, max_speed);
        law_valid_velocity_is_limited(velocity, max_speed);
        lemma_shortened(once, max_speed);
        lemma_validated_again(once, max_speed);
    }
}

/// What validating does to a finite velocity above the highest speed.
#[verifier::spinoff_prover]
proof fn lemma_shortened(v: Vec3, max: Scalar)
    requires
        finite(v),
        (max * max).lt(v.length_squared()),
    ensures
        valid_velocity(v, max) == v.over(v.length_squared().sqrt()) * max,
{
    reveal(valid_velocity);
    lemma_length_squared(v);
    lemma_zero_square();
    reveal(Vec3::spec_clamp_length);
    assert(!v.length_squared().lt(num(ZERO) * num(ZERO))) by {
        reveal(Scalar::spec_lt);
        reveal(Scalar::spec_le);
        broadcast use group_bits;

    }
}

/// What rounding adds to one part of a direction at most.
pub open spec fn grain() -> real {
    1 as real / 0x1_0000_0000_0000_0000_0000 as real
}

/// Whether `n` is `y` but for a small part of it, or a grain.
pub open spec fn near(n: real, y: real) -> bool {
    &&& n <= y + y / 0x40_0000 as real + grain()
    &&& y <= n + y / 0x40_0000 as real + grain()
}

/// The square of what is near.
#[verifier::spinoff_prover]
proof fn lemma_near_square(n: real, y: real)
    requires
        n >= 0 as real,
        0 as real <= y <= 2 as real,
        near(n, y),
    ensures
        n * n <= y * y + (y * y) / 0x10_0000 as real + 8 as real * grain(),
        y * y <= n * n + (y * y) / 0x10_0000 as real + 8 as real * grain(),
{
    let g = grain();
    let d = y / 0x40_0000 as real + g;
    let yy = y * y;
    let yd = y * d;
    let dd = d * d;
    let nn = n * n;
    assert(yd <= yy / 0x40_0000 as real + 2 as real * g && yd >= 0 as real) by (nonlinear_arith)
        requires
            yd == y * d,
            d == y / 0x40_0000 as real + g,
            yy == y * y,
            0 as real <= y <= 2 as real,
            g > 0 as real,
    {
        assert(y * d == yy / 0x40_0000 as real + y * g);
        assert(y * g <= 2 as real * g && y * g >= 0 as real);
        assert(yy >= 0 as real);
    }
    assert(d <= 1 as real && d >= 0 as real);
    assert(dd <= yd / 0x40_0000 as real + g) by (nonlinear_arith)
        requires
            dd == d * d,
            yd == y * d,
            d == y / 0x40_0000 as real + g,
            d <= 1 as real,
            d >= 0 as real,
            g > 0 as real,
    {
        assert(d * d == (y * d) / 0x40_0000 as real + g * d);
        assert(g * d <= g);
    }
    assert(nn <= yy + 2 as real * yd + dd) by (nonlinear_arith)
        requires
            nn == n * n,
            yy == y * y,
            yd == y * d,
            dd == d * d,
            n >= 0 as real,
            n <= y + d,
    {
        assert(n * n <= (y + d) * (y + d));
    }
    if y >= d {
        let m = y - d;
        assert(m * m <= nn) by (nonlinear_arith)
            requires
                nn == n * n,
                0 as real <= m <= n,
        ;
        assert(m * m == yy - 2 as real * yd + dd) by (nonlinear_arith)
            requires
                m == y - d,
                yy == y * y,
                yd == y * d,
                dd == d * d,
        ;
    } else {
        assert(yy <= yd) by (nonlinear_arith)
            requires
                yy == y * y,
                yd == y * d,
                0 as real <= y <= d,
        ;
    }
    lemma_not_negative(d);
    lemma_not_negative(n);
}

/// One part of a vector times the inverse of its length.
#[verifier::spinoff_prover]
pub proof fn lemma_inverse_part(x: real, r: real, i: real, n: real)
    requires
        0 as real <= x <= 0x1_0000_0000_0000_0000 as real,
        r > 0 as real,
        i >= 0 as real,
        rounded(i, 1 as real / r),
        rounded(n, x * i),
    ensures
        near(n, x / r),
{
    lemma_scale_in_figures();
    let e = epsilon();
    let t = half_unit();
    let k = 1 as real / r;
    let y = x / r;
    assert(y == x * k && y >= 0 as real) by (nonlinear_arith)
        requires
            y == x / r,
            k == 1 as real / r,
            r > 0 as real,
            x >= 0 as real,
    ;
    let xi = x * i;
    let xt = x * t;
    assert(xi <= y + e * y + xt && y <= xi + e * y + xt && xi >= 0 as real) by (nonlinear_arith)
        requires
            xi == x * i,
            xt == x * t,
            y == x * k,
            i >= 0 as real,
            i <= k + e * k + t,
            k <= i + e * k + t,
            x >= 0 as real,
    {
        assert(x * i <= x * (k + e * k + t));
        assert(x * k <= x * (i + e * k + t));
        assert(x * (k + e * k + t) == x * k + e * (x * k) + x * t);
        assert(x * (i + e * k + t) == x * i + e * (x * k) + x * t);
    }
    assert(xt <= 0x1_0000_0000_0000_0000 as real * t) by (nonlinear_arith)
        requires
            xt == x * t,
            x <= 0x1_0000_0000_0000_0000 as real,
            t > 0 as real,
    ;
    let g = grain();
    assert(n <= y + y / 0x40_0000 as real + g && y <= n + y / 0x40_0000 as real + g)
        by (nonlinear_arith)
        requires
            n <= xi + e * xi + t,
            xi <= n + e * xi + t,
            xi <= y + e * y + xt,
            y <= xi + e * y + xt,
            y >= 0 as real,
            xi >= 0 as real,
            xt <= 0x1_0000_0000_0000_0000 as real * t,
            e == 1 as real / 0x100_0000 as real,
            t == 1 as real / 0x40_0000_0000_0000_0000_0000_0000_0000_0000_0000 as real,
            g == 1 as real / 0x1_0000_0000_0000_0000_0000 as real,
    ;
}

/// The square of a rounded amount.
#[verifier::spinoff_prover]
proof fn lemma_rounded_square(w: real, u: real)
    requires
        w >= 0 as real,
        u >= 0 as real,
        rounded(w, u),
    ensures
        w * w <= u * u + (u * u) / 0x10_0000 as real + speck(),
        u * u <= w * w + (u * u) / 0x10_0000 as real + speck(),
{
    lemma_scale_in_figures();
    let e = epsilon();
    let t = half_unit();
    let d = e * u + t;
    let uu = u * u;
    let ww = w * w;
    let ud = u * d;
    let dd = d * d;
    let eu = e * u;
    assert(eu >= 0 as real) by (nonlinear_arith)
        requires
            eu == e * u,
            u >= 0 as real,
            e > 0 as real,
    ;
    assert(u * t <= (uu + 1 as real) * t) by (nonlinear_arith)
        requires
            uu == u * u,
            t > 0 as real,
    {
        assert((u - 1 as real) * (u - 1 as real) >= 0 as real);
        assert(u <= uu + 1 as real);
    }
    let tuu = t * uu;
    assert(tuu >= 0 as real && tuu <= uu / 0x100_0000 as real) by (nonlinear_arith)
        requires
            tuu == t * uu,
            uu == u * u,
            t == 1 as real / 0x40_0000_0000_0000_0000_0000_0000_0000_0000_0000 as real,
    {
        assert(uu >= 0 as real);
    }
    assert(ud <= uu / 0x100_0000 as real + tuu + t && ud >= 0 as real) by (nonlinear_arith)
        requires
            ud == u * d,
            d == e * u + t,
            uu == u * u,
            u >= 0 as real,
            t > 0 as real,
            tuu == t * uu,
            u * t <= (uu + 1 as real) * t,
            e == 1 as real / 0x100_0000 as real,
    {
        assert(u * d == e * uu + u * t);
        assert((uu + 1 as real) * t == tuu + t);
        assert(uu >= 0 as real);
    }
    assert(dd <= uu / 0x100_0000 as real + t) by (nonlinear_arith)
        requires
            dd == d * d,
            d == e * u + t,
            uu == u * u,
            u >= 0 as real,
            e == 1 as real / 0x100_0000 as real,
            t > 0 as real,
            4 as real * t <= 1 as real,
    {
        let a = e * u;
        assert(d * d <= 2 as real * (a * a) + 2 as real * (t * t)) by {
            assert((a - t) * (a - t) >= 0 as real);
        }
        assert(a * a == (e * e) * uu);
        assert(t * t <= t / 4 as real);
        assert(uu >= 0 as real);
    }
    assert(ww <= uu + 2 as real * ud + dd) by (nonlinear_arith)
        requires
            ww == w * w,
            uu == u * u,
            ud == u * d,
            dd == d * d,
            0 as real <= w <= u + d,
    {
        assert(w * w <= (u + d) * (u + d));
    }
    lemma_not_negative(u);
    lemma_not_negative(w);
    lemma_not_negative(d);
    if u >= d {
        let m = u - d;
        assert(m * m <= ww) by (nonlinear_arith)
            requires
                ww == w * w,
                0 as real <= m <= w,
        ;
        assert(m * m == uu - 2 as real * ud + dd) by (nonlinear_arith)
            requires
                m == u - d,
                uu == u * u,
                ud == u * d,
                dd == d * d,
        ;
    } else {
        assert(uu <= ud) by (nonlinear_arith)
            requires
                uu == u * u,
                ud == u * d,
                0 as real <= u <= d,
        ;
    }
}

/// Whether the squared length of a vector is one, but for rounding.
pub open spec fn unit_length(v: Vec3) -> bool {
    &&& squared_length(v) <= 1 as real + 1 as real / 0x4_0000 as real
    &&& 1 as real <= squared_length(v) + 1 as real / 0x4_0000 as real
}

/// The squared length of a direction, from its parts.
#[verifier::spinoff_prover]
proof fn lemma_unit(a: real, b: real, c: real, p: real, q: real, o: real)
    requires
        p <= a + a / 0x10_0000 as real + 8 as real * grain(),
        a <= p + a / 0x10_0000 as real + 8 as real * grain(),
        q <= b + b / 0x10_0000 as real + 8 as real * grain(),
        b <= q + b / 0x10_0000 as real + 8 as real * grain(),
        o <= c + c / 0x10_0000 as real + 8 as real * grain(),
        c <= o + c / 0x10_0000 as real + 8 as real * grain(),
        a + b + c <= 1 as real + 1 as real / 0x10_0000 as real,
        1 as real <= a + b + c + 1 as real / 0x10_0000 as real,
    ensures
        p + q + o <= 1 as real + 1 as real / 0x4_0000 as real,
        1 as real <= p + q + o + 1 as real / 0x4_0000 as real,
{
}

/// The parts of a vector of finite length are finite, and below the root of the greatest number.
#[verifier::spinoff_prover]
pub proof fn lemma_parts_finite(v: Vec3)
    requires
        v.length_squared().is_finite(),
    ensures
        finite(v),
        size(v.x) < 0x5f80_0000,
        size(v.y) < 0x5f80_0000,
        size(v.z) < 0x5f80_0000,
{
    broadcast use group_bits;

    assert(finite(v)) by {
        reveal(Vec3::spec_length_squared);
        reveal(Vec3::spec_dot);
        reveal(Scalar::spec_is_finite);
        reveal(Scalar::spec_add);
        reveal(Scalar::spec_mul);
        reveal(ieee::sum);
        reveal(ieee::product);
    }
    lemma_length_squared(v);
    law_square(v.x);
    law_square(v.y);
    law_square(v.z);
    reveal(Scalar::spec_is_finite);
}

/// An amount below the root of the greatest number.
#[verifier::spinoff_prover]
pub proof fn lemma_extent_below(a: Scalar)
    ensures
        size(a) < 0x5f80_0000 <==> extent(a) < 0x1_0000_0000_0000_0000 as real,
{
    lemma_scale_in_figures();
    lemma_extent(a);
    lemma_power_units(190);
    lemma_pow2_adds(149, 64);
    lemma2_to64();
    lemma_units_ordered(size(a), 0x5f80_0000);
    let u = units(size(a));
    let p = scale();
    let k = 0x1_0000_0000_0000_0000 as real;
    assert(pow2(213) as real == p * k) by (nonlinear_arith)
        requires
            pow2(213) == pow2(149) * pow2(64),
            p == pow2(149) as real,
            k == 0x1_0000_0000_0000_0000 as real,
            pow2(64) == 0x1_0000_0000_0000_0000,
    ;
    assert(u < pow2(213) <==> size(a) < 0x5f80_0000);
    let x = extent(a);
    assert(x < k <==> x * p < p * k) by (nonlinear_arith)
        requires
            p > 0 as real,
    ;
}

/// Sums and differences of numbers that are not beyond all measure are finite.
#[verifier::spinoff_prover]
pub proof fn lemma_sum_moderate(a: Scalar, b: Scalar)
    requires
        a.is_finite(),
        b.is_finite(),
        extent(a) <= 0x1000_0000_0000_0000_0000_0000_0000_0000 as real,
        extent(b) <= 0x1000_0000_0000_0000_0000_0000_0000_0000 as real,
    ensures
        (a + b).is_finite(),
        (a - b).is_finite(),
{
    lemma_as_sum(a, b);
    lemma_sum_finite(a, b);
    lemma_sum_finite(a, b.negated());
}

#[verifier::spinoff_prover]
proof fn lemma_sum_finite(a: Scalar, b: Scalar)
    requires
        a.is_finite(),
        b.is_finite(),
        extent(a) <= 0x1000_0000_0000_0000_0000_0000_0000_0000 as real,
        extent(b) <= 0x1000_0000_0000_0000_0000_0000_0000_0000 as real,
    ensures
        (a + b).is_finite(),
{
    reveal(Scalar::spec_is_finite);
    lemma_units_moderate(a);
    lemma_units_moderate(b);
    lemma_sum(a, b);
    lemma_power_units(251);
    lemma_pow2_adds(273, 1);
    lemma2_to64();
    let top: nat = 0x7e00_0000;
    let t = value(a.bits()) + value(b.bits());
    let n: nat = if t < 0 {
        (-t) as nat
    } else {
        t as nat
    };
    lemma_nearest_exact(top);
    lemma_nearest_increases(n, 1, units(top), 1);
}

/// A number that is not beyond all measure, in units.
#[verifier::spinoff_prover]
proof fn lemma_units_moderate(a: Scalar)
    requires
        extent(a) <= 0x1000_0000_0000_0000_0000_0000_0000_0000 as real,
    ensures
        units(size(a)) <= pow2(273),
{
    lemma_scale_in_figures();
    lemma_extent(a);
    lemma_pow2_adds(149, 124);
    lemma_pow2_adds(64, 60);
    lemma_pow2_adds(30, 30);
    lemma2_to64();
    assert(pow2(60) == 0x1000_0000_0000_0000) by (nonlinear_arith)
        requires
            pow2(60) == pow2(30) * pow2(30),
            pow2(30) == 0x4000_0000,
    ;
    let p = scale();
    let x = extent(a);
    let k = 0x1000_0000_0000_0000_0000_0000_0000_0000 as real;
    assert(pow2(124) == 0x1000_0000_0000_0000_0000_0000_0000_0000) by (nonlinear_arith)
        requires
            pow2(124) == pow2(64) * pow2(60),
            pow2(64) == 0x1_0000_0000_0000_0000,
            pow2(60) == 0x1000_0000_0000_0000,
    ;
    assert(x * p <= k * p) by (nonlinear_arith)
        requires
            x <= k,
            p > 0 as real,
    ;
    assert(pow2(273) as real == k * p) by (nonlinear_arith)
        requires
            pow2(273) == pow2(149) * pow2(124),
            p == pow2(149) as real,
            k == pow2(124) as real,
    ;
}

/// Scaling a vector to length one gives the zero vector, or one of length one but for rounding. A
/// vector so short that its squared length loses digits is left out.
#[verifier::spinoff_prover]
pub proof fn law_direction_is_unit(v: Vec3)
    requires
        v.length_squared().is_finite() ==> size(v.length_squared()) == 0 || extent(
            v.length_squared(),
        ) >= sharp(),
    ensures
        v.normalize_or_zero() == zero() || (finite(v.normalize_or_zero()) && unit_length(
            v.normalize_or_zero(),
        )),
{
    broadcast use group_bits;

    reveal(Vec3::spec_normalize_or_zero);
    reveal(Vec3::spec_length);
    reveal(Vec3::spec_length_squared);
    let squared = v.length_squared();
    let len = squared.sqrt();
    let inverse = num(ONE).over(len);
    lemma_one();
    if inverse.is_finite() && num(ZERO).lt(inverse) {
        assert(squared.is_finite() && size(squared) > 0 && len.is_finite() && size(len) > 0) by {
            reveal(Scalar::spec_is_finite);
            reveal(Scalar::spec_lt);
            reveal(Scalar::spec_over);
            reveal(Scalar::spec_sqrt);
            reveal(ieee::quotient);
            reveal(ieee::root);
        }
        lemma_parts_finite(v);
        lemma_length_squared(v);
        assert(num(ZERO).lt(squared)) by {
            reveal(Scalar::spec_lt);
            reveal(Scalar::spec_le);
        }
        lemma_directed(v);
        lemma_inverse(len, squared, inverse);
        lemma_extent_below(inverse);
        reveal(Vec3::spec_mul);
        let n = v * inverse;
        lemma_unit_part(v.x, len, inverse);
        lemma_unit_part(v.y, len, inverse);
        lemma_unit_part(v.z, len, inverse);
        let r = extent(len);
        let x = extent(v.x) / r;
        let y = extent(v.y) / r;
        let z = extent(v.z) / r;
        lemma_unit(
            x * x,
            y * y,
            z * z,
            extent(n.x) * extent(n.x),
            extent(n.y) * extent(n.y),
            extent(n.z) * extent(n.z),
        );
    }
}

/// The inverse of the length of a vector that is not too short is not too great.
#[verifier::spinoff_prover]
pub proof fn lemma_inverse(len: Scalar, squared: Scalar, inverse: Scalar)
    requires
        num(ZERO).lt(squared),
        squared.is_finite(),
        len == squared.sqrt(),
        len.is_finite(),
        size(len) > 0,
        inverse == num(ONE).over(len),
        inverse.is_finite(),
        extent(squared) >= sharp(),
    ensures
        extent(inverse) < 0x1_0000_0000_0000_0000 as real,
        rounded(extent(inverse), 1 as real / extent(len)),
{
    lemma_one();
    law_root_rounded(squared);
    law_quotient_rounded(num(ONE), len);
    lemma_scale_in_figures();
    lemma_extent_of_one();
    let r = extent(len);
    let rr = r * r;
    let l = extent(squared);
    let k = sharp();
    assert(rr >= k / 2 as real) by (nonlinear_arith)
        requires
            l <= rr + rr / 0x40_0000 as real,
            l >= k,
            k > 0 as real,
    ;
    let b = 5 as real / 0x4_0000_0000_0000_0000 as real;
    assert(r >= b) by (nonlinear_arith)
        requires
            rr == r * r,
            rr >= k / 2 as real,
            r > 0 as real,
            k == 1 as real / 0x4000_0000_0000_0000_0000_0000_0000_0000 as real,
            b == 5 as real / 0x4_0000_0000_0000_0000 as real,
    {
        if r < b {
            assert(r * r < b * b);
        }
    }
    let q = 1 as real / r;
    assert(5 as real * q <= 0x4_0000_0000_0000_0000 as real && q > 0 as real) by (nonlinear_arith)
        requires
            q == 1 as real / r,
            r >= b,
            b == 5 as real / 0x4_0000_0000_0000_0000 as real,
    ;
    let e = epsilon();
    let t = half_unit();
    let i = extent(inverse);
    assert(i < 0x1_0000_0000_0000_0000 as real) by (nonlinear_arith)
        requires
            i <= q + e * q + t,
            5 as real * q <= 0x4_0000_0000_0000_0000 as real,
            q > 0 as real,
            e == 1 as real / 0x100_0000 as real,
            t <= 1 as real,
    ;
}

/// One part of a direction.
#[verifier::spinoff_prover]
proof fn lemma_unit_part(part: Scalar, len: Scalar, inverse: Scalar)
    requires
        part.is_finite(),
        size(part) < 0x5f80_0000,
        size(inverse) < 0x5f80_0000,
        inverse.is_finite(),
        extent(len) > 0 as real,
        rounded(extent(inverse), 1 as real / extent(len)),
        ({
            let y = extent(part) / extent(len);
            y * y <= 4 as real
        }),
    ensures
        ({
            let y = extent(part) / extent(len);
            let n = extent(part * inverse);
            &&& (part * inverse).is_finite()
            &&& n * n <= y * y + (y * y) / 0x10_0000 as real + 8 as real * grain()
            &&& y * y <= n * n + (y * y) / 0x10_0000 as real + 8 as real * grain()
        }),
{
    law_product_finite(part, inverse);
    law_product_rounded(part, inverse);
    lemma_extent(part);
    lemma_extent(inverse);
    lemma_extent(part * inverse);
    lemma_extent_below(part);
    let x = extent(part);
    let r = extent(len);
    let y = x / r;
    lemma_inverse_part(x, r, extent(inverse), extent(part * inverse));
    assert(y >= 0 as real) by (nonlinear_arith)
        requires
            y == x / r,
            x >= 0 as real,
            r > 0 as real,
    ;
    assert(y <= 2 as real) by (nonlinear_arith)
        requires
            y >= 0 as real,
            y * y <= 4 as real,
    ;
    lemma_near_square(extent(part * inverse), y);
}

/// Whether the length of a vector is `m`, but for rounding.
pub open spec fn as_long_as(v: Vec3, m: Scalar) -> bool {
    let mm = extent(m) * extent(m);
    &&& squared_length(v) <= mm + mm / 0x1_0000 as real + slack()
    &&& mm <= squared_length(v) + mm / 0x1_0000 as real + slack()
}

/// The squared length of a scaled direction, from its parts.
#[verifier::spinoff_prover]
pub proof fn lemma_stretched(a: real, b: real, c: real, mm: real, p: real, q: real, o: real)
    requires
        mm >= 0 as real,
        p <= a * mm + (a * mm) / 0x10_0000 as real + speck(),
        a * mm <= p + (a * mm) / 0x10_0000 as real + speck(),
        q <= b * mm + (b * mm) / 0x10_0000 as real + speck(),
        b * mm <= q + (b * mm) / 0x10_0000 as real + speck(),
        o <= c * mm + (c * mm) / 0x10_0000 as real + speck(),
        c * mm <= o + (c * mm) / 0x10_0000 as real + speck(),
        a + b + c <= 1 as real + 1 as real / 0x4_0000 as real,
        1 as real <= a + b + c + 1 as real / 0x4_0000 as real,
    ensures
        p + q + o <= mm + mm / 0x1_0000 as real + slack(),
        mm <= p + q + o + mm / 0x1_0000 as real + slack(),
{
    let am = a * mm;
    let bm = b * mm;
    let cm = c * mm;
    let n = a + b + c;
    let all = am + bm + cm;
    assert(n * mm == all) by (nonlinear_arith)
        requires
            n == a + b + c,
            am == a * mm,
            bm == b * mm,
            cm == c * mm,
            all == am + bm + cm,
    ;
    let k = 1 as real / 0x4_0000 as real;
    assert(all <= mm + mm / 0x4_0000 as real && mm <= all + mm / 0x4_0000 as real)
        by (nonlinear_arith)
        requires
            n * mm == all,
            mm >= 0 as real,
            n <= 1 as real + k,
            1 as real <= n + k,
            k == 1 as real / 0x4_0000 as real,
    {
        assert(n * mm <= (1 as real + k) * mm);
        assert(1 as real * mm <= (n + k) * mm);
        assert((1 as real + k) * mm == mm + k * mm);
        assert((n + k) * mm == n * mm + k * mm);
        assert(k * mm == mm / 0x4_0000 as real);
    }
}

/// One part of a direction, scaled.
#[verifier::spinoff_prover]
pub proof fn lemma_stretched_part(n: Scalar, m: Scalar)
    requires
        n.is_finite(),
        m.is_finite(),
        (n * m).is_finite(),
    ensures
        ({
            let a = extent(n) * extent(n);
            let mm = extent(m) * extent(m);
            let p = extent(n * m) * extent(n * m);
            &&& p <= a * mm + (a * mm) / 0x10_0000 as real + speck()
            &&& a * mm <= p + (a * mm) / 0x10_0000 as real + speck()
        }),
{
    law_product_rounded(n, m);
    lemma_extent(n);
    lemma_extent(m);
    lemma_extent(n * m);
    let x = extent(n);
    let y = extent(m);
    let u = x * y;
    assert(u >= 0 as real) by (nonlinear_arith)
        requires
            u == x * y,
            x >= 0 as real,
            y >= 0 as real,
    ;
    lemma_rounded_square(extent(n * m), u);
    assert(u * u == (x * x) * (y * y)) by (nonlinear_arith)
        requires
            u == x * y,
    ;
}

/// The sum of the directions that a wish asks for.
pub open spec fn wish_sum(c: Ctx) -> Vec3 {
    forward(c.state.orientation).flat().normalize_or_zero() * movement(c.input).y + right(
        c.state.orientation,
    ).flat().normalize_or_zero() * movement(c.input).x
}

/// A wish is for nothing, or for the full speed but for rounding. A wish whose direction is so
/// short that its squared length loses digits is left out.
#[verifier::spinoff_prover]
pub proof fn law_wish_is_full(c: Ctx)
    requires
        wish_speed(c.cfg, c.state.crouching).is_finite(),
        finite(wish_velocity_of(c)),
        wish_sum(c).length_squared().is_finite() ==> size(wish_sum(c).length_squared()) == 0
            || extent(wish_sum(c).length_squared()) >= sharp(),
    ensures
        squared_length(wish_velocity_of(c)) == 0 as real || as_long_as(
            wish_velocity_of(c),
            wish_speed(c.cfg, c.state.crouching),
        ),
{
    reveal(wish_velocity_of);
    reveal(Vec3::spec_mul);
    let speed = wish_speed(c.cfg, c.state.crouching);
    let n = wish_sum(c).normalize_or_zero();
    let w = wish_velocity_of(c);
    assert(w == n * speed);
    law_direction_is_unit(wish_sum(c));
    if n == zero() {
        lemma_nothing_wished(speed);
    } else {
        lemma_stretched_part(n.x, speed);
        lemma_stretched_part(n.y, speed);
        lemma_stretched_part(n.z, speed);
        lemma_not_negative(extent(speed));
        lemma_stretched(
            extent(n.x) * extent(n.x),
            extent(n.y) * extent(n.y),
            extent(n.z) * extent(n.z),
            extent(speed) * extent(speed),
            extent(w.x) * extent(w.x),
            extent(w.y) * extent(w.y),
            extent(w.z) * extent(w.z),
        );
    }
}

#[verifier::spinoff_prover]
proof fn lemma_nothing_wished(speed: Scalar)
    requires
        speed.is_finite(),
    ensures
        squared_length(zero() * speed) == 0 as real,
{
    reveal(Vec3::spec_mul);
    lemma_one();
    law_times_zero(num(ZERO), speed);
    let w = zero() * speed;
    lemma_extent(w.x);
    lemma_extent(w.y);
    lemma_extent(w.z);
    assert(0 as real * 0 as real == 0 as real) by (nonlinear_arith);
}

/// Whether all parts of a vector are zero.
pub open spec fn nothing(v: Vec3) -> bool {
    size(v.x) == 0 && size(v.y) == 0 && size(v.z) == 0
}

/// A product of at most four is finite.
#[verifier::spinoff_prover]
proof fn lemma_small_product(a: Scalar, b: Scalar)
    requires
        a.is_finite(),
        b.is_finite(),
        extent(a) * extent(b) <= 4 as real,
    ensures
        (a * b).is_finite(),
{
    reveal(Scalar::spec_is_finite);
    lemma_product(a, b);
    lemma_extent(a);
    lemma_extent(b);
    lemma_scale_in_figures();
    lemma_power_units(128);
    lemma_pow2_adds(149, 2);
    lemma2_to64();
    lemma_pow2_pos(149);
    let p = scale();
    let u = units(size(a));
    let v = units(size(b));
    let x = extent(a);
    let y = extent(b);
    let n = u * v;
    let k = pow2(149);
    let q = p * p;
    let xy = x * y;
    lemma_not_negative(p);
    assert((u * v) as real == (u as real) * (v as real)) by (nonlinear_arith);
    assert(xy * q == (x * p) * (y * p)) by (nonlinear_arith)
        requires
            xy == x * y,
            q == p * p,
    ;
    assert(xy * q <= 4 as real * q) by (nonlinear_arith)
        requires
            xy <= 4 as real,
            q >= 0 as real,
    ;
    assert((k * k) as real == (k as real) * (k as real)) by (nonlinear_arith);
    assert(pow2(151) * k == 4 * (k * k)) by (nonlinear_arith)
        requires
            pow2(151) == k * 4,
    ;
    lemma_nearest_against(n, k, 0x4080_0000);
}

/// Scaling to length one always gives a finite vector.
#[verifier::spinoff_prover]
pub proof fn law_direction_is_finite(v: Vec3)
    ensures
        finite(v.normalize_or_zero()),
{
    broadcast use group_bits;

    reveal(Vec3::spec_normalize_or_zero);
    reveal(Vec3::spec_length);
    reveal(Vec3::spec_length_squared);
    reveal(Vec3::spec_mul);
    let squared = v.length_squared();
    let len = squared.sqrt();
    let inverse = num(ONE).over(len);
    lemma_one();
    if inverse.is_finite() && num(ZERO).lt(inverse) {
        assert(squared.is_finite() && size(squared) > 0 && len.is_finite() && size(len) > 0) by {
            reveal(Scalar::spec_is_finite);
            reveal(Scalar::spec_lt);
            reveal(Scalar::spec_over);
            reveal(Scalar::spec_sqrt);
            reveal(ieee::quotient);
            reveal(ieee::root);
        }
        lemma_parts_finite(v);
        lemma_length_squared(v);
        assert(num(ZERO).lt(squared)) by {
            reveal(Scalar::spec_lt);
            reveal(Scalar::spec_le);
        }
        lemma_directed(v);
        law_quotient_rounded(num(ONE), len);
        lemma_extent_of_one();
        lemma_direction_part(v.x, len, inverse);
        lemma_direction_part(v.y, len, inverse);
        lemma_direction_part(v.z, len, inverse);
    }
}

#[verifier::spinoff_prover]
pub proof fn lemma_extent_of_one()
    ensures
        extent(num(ONE)) == 1 as real,
{
    lemma_one();
    lemma_extent(num(ONE));
    lemma_scale_in_figures();
    let p = scale();
    lemma_cancel(extent(num(ONE)), 1 as real, p);
    lemma_cancel(1 as real, extent(num(ONE)), p);
}

#[verifier::spinoff_prover]
proof fn lemma_direction_part(part: Scalar, len: Scalar, inverse: Scalar)
    requires
        part.is_finite(),
        size(part) < 0x5f80_0000,
        inverse.is_finite(),
        extent(len) > 0 as real,
        rounded(extent(inverse), 1 as real / extent(len)),
        ({
            let y = extent(part) / extent(len);
            y * y <= 4 as real
        }),
    ensures
        (part * inverse).is_finite(),
{
    lemma_extent(part);
    lemma_extent(inverse);
    lemma_extent_below(part);
    lemma_scale_in_figures();
    let x = extent(part);
    let r = extent(len);
    let i = extent(inverse);
    let e = epsilon();
    let t = half_unit();
    let k = 1 as real / r;
    let y = x / r;
    assert(y == x * k && y >= 0 as real) by (nonlinear_arith)
        requires
            y == x / r,
            k == 1 as real / r,
            r > 0 as real,
            x >= 0 as real,
    ;
    assert(y <= 2 as real) by (nonlinear_arith)
        requires
            y >= 0 as real,
            y * y <= 4 as real,
    ;
    let xi = x * i;
    let xt = x * t;
    assert(xi <= y + e * y + xt) by (nonlinear_arith)
        requires
            xi == x * i,
            xt == x * t,
            y == x * k,
            i <= k + e * k + t,
            x >= 0 as real,
    {
        assert(x * i <= x * (k + e * k + t));
        assert(x * (k + e * k + t) == x * k + e * (x * k) + x * t);
    }
    assert(xt <= 1 as real) by (nonlinear_arith)
        requires
            xt == x * t,
            x <= 0x1_0000_0000_0000_0000 as real,
            t == 1 as real / 0x40_0000_0000_0000_0000_0000_0000_0000_0000_0000 as real,
    ;
    assert(xi <= 4 as real) by (nonlinear_arith)
        requires
            xi <= y + e * y + xt,
            0 as real <= y,
            y <= 2 as real,
            xt <= 1 as real,
            e == 1 as real / 0x100_0000 as real,
    ;
    lemma_small_product(part, inverse);
}

/// Without a movement, or with one of zero, a wish is for nothing.
#[verifier::spinoff_prover]
pub proof fn law_no_movement_no_wish(c: Ctx)
    requires
        wish_speed(c.cfg, c.state.crouching).is_finite(),
        size(movement(c.input).x) == 0,
        size(movement(c.input).y) == 0,
    ensures
        nothing(wish_velocity_of(c)),
{
    broadcast use group_bits;

    reveal(wish_velocity_of);
    reveal(Vec3::spec_mul);
    reveal(Vec3::spec_add);
    lemma_one();
    let ahead = forward(c.state.orientation).flat().normalize_or_zero();
    let aside = right(c.state.orientation).flat().normalize_or_zero();
    law_direction_is_finite(forward(c.state.orientation).flat());
    law_direction_is_finite(right(c.state.orientation).flat());
    let v = wish_sum(c);
    assert(movement(c.input).x.is_finite() && movement(c.input).y.is_finite()) by {
        reveal(Scalar::spec_is_finite);
    }
    let a = ahead * movement(c.input).y;
    let b = aside * movement(c.input).x;
    law_times_zero(ahead.x, movement(c.input).y);
    law_times_zero(ahead.y, movement(c.input).y);
    law_times_zero(ahead.z, movement(c.input).y);
    law_times_zero(aside.x, movement(c.input).x);
    law_times_zero(aside.y, movement(c.input).x);
    law_times_zero(aside.z, movement(c.input).x);
    lemma_zero_sum(a.x, b.x);
    lemma_zero_sum(a.y, b.y);
    lemma_zero_sum(a.z, b.z);
    assert(nothing(v) && finite(v)) by {
        reveal(Scalar::spec_is_finite);
    }
    assert(v.normalize_or_zero() == zero()) by {
        reveal(Vec3::spec_normalize_or_zero);
        reveal(Vec3::spec_length);
        reveal(Vec3::spec_dot);
        law_times_zero(v.x, v.x);
        law_times_zero(v.y, v.y);
        law_times_zero(v.z, v.z);
        lemma_zero_sum(v.x * v.x, v.y * v.y);
        lemma_zero_sum(v.x * v.x + v.y * v.y, v.z * v.z);
        reveal(Scalar::spec_sqrt);
        reveal(Scalar::spec_over);
        reveal(Scalar::spec_is_finite);
        reveal(ieee::root);
        reveal(ieee::quotient);
    }
    law_times_zero(num(ZERO), wish_speed(c.cfg, c.state.crouching));
}

#[verifier::spinoff_prover]
pub proof fn lemma_zero_sum(a: Scalar, b: Scalar)
    requires
        size(a) == 0,
        size(b) == 0,
    ensures
        size(a + b) == 0,
{
    broadcast use group_bits;

    reveal(Scalar::spec_is_finite);
    reveal(Scalar::spec_same);
    law_plus_zero(a, b);
}

} // verus!
