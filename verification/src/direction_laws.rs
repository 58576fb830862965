//! Directions point along what they are directions of.
use crate::amounts::{
    amount, epsilon, extent, half_unit, law_product_rounded, law_quotient_rounded, law_root_rounded,
    lemma_extent, lemma_scale_in_figures, off, rounded, scale,
};
use crate::laws::{finite, lemma_length_squared};
use crate::length_laws::{
    lemma_directed, lemma_extent_below, lemma_inverse, lemma_inverse_part, lemma_not_negative,
    lemma_parts_finite, near, sharp, squared_length,
};
use crate::number_laws::{
    law_product_finite, law_root, law_root_finite, lemma_one, lemma_power_units, lemma_product,
    lemma_quotient, lemma_units_ordered, minus, size,
};
use crate::order::{lemma_nearest_against, lemma_units_zero};
use crate::rounding::{units, INFINITE};
use crate::scalar::{group_bits, num, Scalar, ONE, ZERO};
use crate::vector::Vec3;
use vstd::arithmetic::power2::{lemma2_to64, lemma_pow2_adds, lemma_pow2_pos, pow2};
use vstd::prelude::*;

verus! {

/// Whether the squared length of a vector is finite and has all its digits.
pub open spec fn measurable(v: Vec3) -> bool {
    v.length_squared().is_finite() && extent(v.length_squared()) >= sharp()
}

/// Whether `n` is `v` scaled by `k` to length one, but for rounding.
pub open spec fn along(n: Vec3, v: Vec3, k: real) -> bool {
    &&& finite(n)
    &&& k > 0 as real
    &&& off(amount(n.x), k * amount(v.x), 1 as real / 0x10_0000 as real)
    &&& off(amount(n.y), k * amount(v.y), 1 as real / 0x10_0000 as real)
    &&& off(amount(n.z), k * amount(v.z), 1 as real / 0x10_0000 as real)
    &&& off((k * k) * squared_length(v), 1 as real, 1 as real / 0x8_0000 as real)
}

/// A finite amount is below two to the power 128.
#[verifier::spinoff_prover]
pub proof fn lemma_extent_finite(a: Scalar)
    requires
        a.is_finite(),
    ensures
        extent(a) <= 0x1_0000_0000_0000_0000_0000_0000_0000_0000 as real,
{
    reveal(Scalar::spec_is_finite);
    lemma_scale_in_figures();
    lemma_extent(a);
    lemma_power_units(254);
    lemma_units_ordered(size(a), INFINITE as nat);
    lemma_pow2_adds(149, 128);
    lemma_pow2_adds(64, 64);
    lemma2_to64();
    let p = scale();
    let k = 0x1_0000_0000_0000_0000_0000_0000_0000_0000 as real;
    let x = extent(a);
    assert(pow2(128) == 0x1_0000_0000_0000_0000_0000_0000_0000_0000) by (nonlinear_arith)
        requires
            pow2(128) == pow2(64) * pow2(64),
            pow2(64) == 0x1_0000_0000_0000_0000,
    ;
    assert(pow2(277) as real == k * p) by (nonlinear_arith)
        requires
            pow2(277) == pow2(149) * pow2(128),
            p == pow2(149) as real,
            k == pow2(128) as real,
    ;
    assert(x <= k) by (nonlinear_arith)
        requires
            x * p <= k * p,
            p > 0 as real,
    ;
}

/// The length of a measurable vector.
#[verifier::spinoff_prover]
pub proof fn lemma_measured(v: Vec3)
    requires
        measurable(v),
    ensures
        ({
            let len = v.length();
            let r = extent(len);
            let sum = squared_length(v);
            &&& finite(v)
            &&& size(v.x) < 0x5f80_0000 && size(v.y) < 0x5f80_0000 && size(v.z) < 0x5f80_0000
            &&& len == v.length_squared().sqrt()
            &&& len.is_finite() && !minus(len) && size(len) > 0 && num(ZERO).lt(len)
            &&& amount(len) == r
            &&& r > 0 as real
            &&& r <= 0x4_0000_0000_0000_0000 as real
            &&& num(ZERO).lt(v.length_squared())
            &&& sum <= r * r + (r * r) / 0x10_0000 as real
            &&& r * r <= sum + (r * r) / 0x10_0000 as real
            &&& (extent(v.x) / r) * (extent(v.x) / r) <= 4 as real
            &&& (extent(v.y) / r) * (extent(v.y) / r) <= 4 as real
            &&& (extent(v.z) / r) * (extent(v.z) / r) <= 4 as real
        }),
{
    broadcast use group_bits;

    reveal(Vec3::spec_length);
    reveal(Vec3::spec_length_squared);
    lemma_parts_finite(v);
    lemma_length_squared(v);
    let squared = v.length_squared();
    let len = squared.sqrt();
    lemma_scale_in_figures();
    lemma_extent(squared);
    assert(num(ZERO).lt(squared) && size(squared) > 0) by {
        reveal(Scalar::spec_lt);
        reveal(Scalar::spec_le);
    }
    law_root(squared);
    law_root_finite(squared);
    law_root_rounded(squared);
    lemma_extent(len);
    assert(!minus(len) && num(ZERO).lt(len)) by {
        reveal(Scalar::spec_le);
        reveal(Scalar::spec_lt);
    }
    lemma_directed(v);
    let r = extent(len);
    let rr = r * r;
    let sum = squared_length(v);
    let all = (extent(v.x) / r) * (extent(v.x) / r) + (extent(v.y) / r) * (extent(v.y) / r) + (
    extent(v.z) / r) * (extent(v.z) / r);
    let d = 1 as real / 0x10_0000 as real;
    lemma_not_negative(r);
    assert(all * rr <= rr + rr / 0x10_0000 as real && rr <= all * rr + rr / 0x10_0000 as real)
        by (nonlinear_arith)
        requires
            rr >= 0 as real,
            all <= 1 as real + d,
            1 as real <= all + d,
            d == 1 as real / 0x10_0000 as real,
    {
        assert(all * rr <= (1 as real + d) * rr);
        assert(1 as real * rr <= (all + d) * rr);
        assert((1 as real + d) * rr == rr + d * rr);
        assert((all + d) * rr == all * rr + d * rr);
        assert(d * rr == rr / 0x10_0000 as real);
    }
    lemma_extent_finite(squared);
    let l = extent(squared);
    assert(r <= 0x4_0000_0000_0000_0000 as real) by (nonlinear_arith)
        requires
            rr == r * r,
            rr <= l + rr / 0x40_0000 as real,
            l <= 0x1_0000_0000_0000_0000_0000_0000_0000_0000 as real,
            r > 0 as real,
    {
        let b = 0x4_0000_0000_0000_0000 as real;
        if r > b {
            assert(r * r > b * b);
        }
    }
}

/// The inverse of the length of a measurable vector.
#[verifier::spinoff_prover]
proof fn lemma_inverse_of(v: Vec3)
    requires
        measurable(v),
    ensures
        ({
            let inverse = num(ONE).over(v.length());
            &&& inverse.is_finite() && num(ZERO).lt(inverse) && !minus(inverse)
            &&& size(inverse) < 0x5f80_0000
            &&& rounded(extent(inverse), 1 as real / extent(v.length()))
        }),
{
    broadcast use group_bits;

    lemma_measured(v);
    lemma_one();
    let squared = v.length_squared();
    let len = v.length();
    let inverse = num(ONE).over(len);
    assert(num(ZERO).le(squared) && size(squared) > 0) by {
        reveal(Scalar::spec_le);
        reveal(Scalar::spec_lt);
    }
    law_root(squared);
    lemma_quotient(num(ONE), len);
    lemma_inverse_finite(len);
    lemma_inverse(len, squared, inverse);
    lemma_extent_below(inverse);
    lemma_extent(inverse);
    lemma_scale_in_figures();
    let r = extent(len);
    let k = 1 as real / r;
    let e = epsilon();
    let t = half_unit();
    let i = extent(inverse);
    assert(i > 0 as real) by (nonlinear_arith)
        requires
            k == 1 as real / r,
            r > 0 as real,
            r <= 0x4_0000_0000_0000_0000 as real,
            k <= i + e * k + t,
            e == 1 as real / 0x100_0000 as real,
            t == 1 as real / 0x40_0000_0000_0000_0000_0000_0000_0000_0000_0000 as real,
    {
        let b = 1 as real / 0x4_0000_0000_0000_0000 as real;
        assert(k * r == 1 as real);
        assert(k >= b);
    }
    assert(num(ZERO).lt(inverse)) by {
        reveal(Scalar::spec_lt);
        reveal(Scalar::spec_is_finite);
    }
}

/// The inverse of a number of at least two to the power -75 is finite.
proof fn lemma_inverse_finite(b: Scalar)
    requires
        b.is_finite(),
        size(b) >= 0x1a00_0000,
    ensures
        num(ONE).over(b).is_finite(),
{
    reveal(Scalar::spec_is_finite);
    lemma_one();
    lemma_quotient(num(ONE), b);
    lemma_power_units(51);
    lemma_power_units(253);
    lemma_pow2_adds(149, 149);
    lemma_pow2_adds(74, 276);
    lemma_pow2_adds(298, 52);
    lemma_pow2_pos(276);
    lemma_pow2_pos(298);
    lemma_pow2_pos(52);
    lemma_units_ordered(0x1a00_0000, size(b));
    let u = units(size(b));
    let top: nat = 0x7f00_0000;
    assert(units(top) == pow2(276));
    assert(pow2(149) * pow2(149) <= u * pow2(276)) by (nonlinear_arith)
        requires
            u >= pow2(74),
            pow2(298) == pow2(149) * pow2(149),
            pow2(350) == pow2(74) * pow2(276),
            pow2(350) == pow2(298) * pow2(52),
            pow2(52) >= 1,
            pow2(298) >= 1,
            pow2(276) >= 1,
    {
        assert(u * pow2(276) >= pow2(74) * pow2(276));
        assert(pow2(298) * pow2(52) >= pow2(298));
    }
    lemma_nearest_against(pow2(149) * pow2(149), u, top);
}

/// One part of a direction.
#[verifier::spinoff_prover]
proof fn lemma_part_along(a: Scalar, n: Scalar, r: real)
    requires
        r > 0 as real,
        n.is_finite(),
        minus(n) == minus(a),
        (extent(a) / r) * (extent(a) / r) <= 4 as real,
        near(extent(n), extent(a) / r),
    ensures
        off(amount(n), (1 as real / r) * amount(a), 1 as real / 0x10_0000 as real),
{
    lemma_extent(a);
    lemma_extent(n);
    let x = extent(a);
    let y = x / r;
    let k = 1 as real / r;
    assert(k * x == y && y >= 0 as real && k * (0 as real - x) == 0 as real - y)
        by (nonlinear_arith)
        requires
            y == x / r,
            k == 1 as real / r,
            r > 0 as real,
            x >= 0 as real,
    ;
    assert(y <= 2 as real) by (nonlinear_arith)
        requires
            y * y <= 4 as real,
            y >= 0 as real,
    ;
}

/// The squared length of a vector that is divided by its length.
#[verifier::spinoff_prover]
proof fn lemma_scaled_to_one(sum: real, r: real)
    requires
        r > 0 as real,
        sum <= r * r + (r * r) / 0x10_0000 as real,
        r * r <= sum + (r * r) / 0x10_0000 as real,
    ensures
        ({
            let k = 1 as real / r;
            &&& k > 0 as real
            &&& off((k * k) * sum, 1 as real, 1 as real / 0x8_0000 as real)
        }),
{
    let k = 1 as real / r;
    let kk = k * k;
    let rr = r * r;
    assert(k > 0 as real && k * r == 1 as real) by (nonlinear_arith)
        requires
            k == 1 as real / r,
            r > 0 as real,
    ;
    assert(kk * rr == 1 as real && kk >= 0 as real) by (nonlinear_arith)
        requires
            kk == k * k,
            rr == r * r,
            k * r == 1 as real,
    {
        assert((k * k) * (r * r) == (k * r) * (k * r));
    }
    let c = rr / 0x10_0000 as real;
    assert(kk * sum <= kk * (rr + c) && kk * rr <= kk * (sum + c)) by (nonlinear_arith)
        requires
            kk >= 0 as real,
            sum <= rr + c,
            rr <= sum + c,
    ;
    assert(kk * (rr + c) == kk * rr + kk * c && kk * (sum + c) == kk * sum + kk * c)
        by (nonlinear_arith);
    assert(kk * c == (kk * rr) / 0x10_0000 as real) by (nonlinear_arith)
        requires
            c == rr / 0x10_0000 as real,
    ;
}

/// Scaling a vector to length one keeps its direction.
#[verifier::spinoff_prover]
pub proof fn law_normalized_along(v: Vec3)
    requires
        measurable(v),
    ensures
        along(v.normalize_or_zero(), v, 1 as real / extent(v.length())),
        v.normalize() == v.normalize_or_zero(),
{
    reveal(Vec3::spec_normalize);
    reveal(Vec3::spec_normalize_or_zero);
    reveal(Vec3::spec_mul);
    lemma_measured(v);
    lemma_inverse_of(v);
    let inverse = num(ONE).over(v.length());
    lemma_inverse_times(v.x, v.length(), inverse);
    lemma_inverse_times(v.y, v.length(), inverse);
    lemma_inverse_times(v.z, v.length(), inverse);
    lemma_scaled_to_one(squared_length(v), extent(v.length()));
}

#[verifier::spinoff_prover]
proof fn lemma_inverse_times(a: Scalar, len: Scalar, inverse: Scalar)
    requires
        a.is_finite(),
        size(a) < 0x5f80_0000,
        inverse.is_finite(),
        !minus(inverse),
        size(inverse) < 0x5f80_0000,
        extent(len) > 0 as real,
        rounded(extent(inverse), 1 as real / extent(len)),
        (extent(a) / extent(len)) * (extent(a) / extent(len)) <= 4 as real,
    ensures
        (a * inverse).is_finite(),
        off(
            amount(a * inverse),
            (1 as real / extent(len)) * amount(a),
            1 as real / 0x10_0000 as real,
        ),
{
    law_product_finite(a, inverse);
    law_product_rounded(a, inverse);
    lemma_product(a, inverse);
    lemma_extent(a);
    lemma_extent(inverse);
    lemma_extent_below(a);
    lemma_inverse_part(extent(a), extent(len), extent(inverse), extent(a * inverse));
    lemma_part_along(a, a * inverse, extent(len));
}

/// The direction of a vector points along it, and comes with its length.
#[verifier::spinoff_prover]
pub proof fn law_direction_along(v: Vec3)
    requires
        measurable(v),
    ensures
        v.direction_and_length() matches Some((dir, len)) && len == v.length() && along(
            dir,
            v,
            1 as real / extent(v.length()),
        ),
        v.direction() == Some(v.direction_and_length()->Some_0.0),
{
    reveal(Vec3::spec_direction_and_length);
    reveal(Vec3::spec_direction);
    reveal(Vec3::spec_over);
    lemma_measured(v);
    lemma_divided_by(v.x, v.length());
    lemma_divided_by(v.y, v.length());
    lemma_divided_by(v.z, v.length());
    lemma_scaled_to_one(squared_length(v), extent(v.length()));
}

#[verifier::spinoff_prover]
proof fn lemma_divided_by(a: Scalar, len: Scalar)
    requires
        a.is_finite(),
        len.is_finite(),
        !minus(len),
        size(len) > 0,
        (extent(a) / extent(len)) * (extent(a) / extent(len)) <= 4 as real,
    ensures
        a.over(len).is_finite(),
        off(
            amount(a.over(len)),
            (1 as real / extent(len)) * amount(a),
            1 as real / 0x10_0000 as real,
        ),
{
    reveal(Scalar::spec_is_finite);
    lemma_quotient(a, len);
    lemma_extent(a);
    lemma_extent(len);
    lemma_scale_in_figures();
    let x = extent(a);
    let r = extent(len);
    let y = x / r;
    assert(y >= 0 as real && y * r == x) by (nonlinear_arith)
        requires
            y == x / r,
            r > 0 as real,
            x >= 0 as real,
    ;
    assert(y <= 2 as real) by (nonlinear_arith)
        requires
            y >= 0 as real,
            y * y <= 4 as real,
    ;
    assert(x <= 2 as real * r) by (nonlinear_arith)
        requires
            y * r == x,
            y <= 2 as real,
            r > 0 as real,
    ;
    let p = scale();
    let u = units(size(a));
    let v = units(size(len));
    assert(x * p <= 2 as real * (r * p)) by (nonlinear_arith)
        requires
            x <= 2 as real * r,
            p > 0 as real,
    ;
    assert(u <= 2 * v);
    lemma_power_units(127);
    lemma_pow2_adds(149, 1);
    lemma2_to64();
    let top: nat = 0x4000_0000;
    assert(units(top) == pow2(150));
    lemma_units_zero(size(len));
    assert(u * pow2(149) <= v * pow2(150)) by (nonlinear_arith)
        requires
            u <= 2 * v,
            pow2(150) == pow2(149) * 2,
    ;
    lemma_nearest_against(u * pow2(149), v, top);
    law_quotient_rounded(a, len);
    let e = epsilon();
    assert(e * y <= y / 0x40_0000 as real) by (nonlinear_arith)
        requires
            y >= 0 as real,
            e == 1 as real / 0x100_0000 as real,
    ;
    lemma_part_along(a, a.over(len), r);
}

} // verus!
