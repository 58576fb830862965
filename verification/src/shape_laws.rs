//! How the shapes of a character follow from its collider.
use crate::amounts::{
    amount, epsilon, extent, half_unit, law_quotient_rounded, lemma_extent, lemma_product_bounded,
    lemma_scale_in_figures, off,
};
use crate::collider::{crouch_shape, setup_of, CrouchShape, Enlisted};
use crate::estimates::{
    greatest, lemma_least, lemma_nudge, lemma_stands, lemma_taken, nudge, stands,
};
use crate::frame_laws::{lemma_simple_amounts, lemma_two};
use crate::ieee;
use crate::laws::finite;
use crate::number_laws::{law_zero_over, lemma_one, minus, size};
use crate::reach_laws::lemma_one_times;
use crate::ride_laws::lemma_difference_stands;
use crate::scalar::{group_bits, num, Scalar, TWO, ZERO};
use crate::slope_laws::lemma_nothing_times;
use crate::vector::Vec3;
use crate::world::ColliderBounds;
use vstd::prelude::*;

verus! {

/// A quotient times what was divided by.
#[verifier::spinoff_prover]
pub proof fn lemma_quotient_amount(a: Scalar, b: Scalar)
    requires
        a.is_finite(),
        b.is_finite(),
        a.over(b).is_finite(),
        amount(b) > 0 as real,
    ensures
        off(
            amount(a.over(b)) * amount(b),
            amount(a),
            extent(a) / 0x100_0000 as real + half_unit() * amount(b),
        ),
{
    broadcast use group_bits;

    lemma_scale_in_figures();
    lemma_extent(a);
    lemma_extent(b);
    let q = a.over(b);
    lemma_extent(q);
    law_quotient_rounded(a, b);
    if size(a) == 0 {
        law_zero_over(a, b);
    }
    assert(size(q) == 0 || minus(q) == minus(a)) by {
        reveal(Scalar::spec_over);
        reveal(ieee::quotient);
        reveal(Scalar::spec_is_finite);
    }
    let (x, y, t) = (extent(q), extent(a), extent(b));
    let z = y / t;
    let e = epsilon();
    let hu = half_unit();
    assert(z * t == y) by (nonlinear_arith)
        requires
            z == y / t,
            t > 0 as real,
    ;
    let d = x - z;
    let ez = e * z;
    assert(ez == z / 0x100_0000 as real) by (nonlinear_arith)
        requires
            ez == e * z,
            e == 1 as real / 0x100_0000 as real,
    ;
    assert(z >= 0 as real) by (nonlinear_arith)
        requires
            z == y / t,
            t > 0 as real,
            y >= 0 as real,
    ;
    let w = z / 0x100_0000 as real + hu;
    lemma_product_bounded(d, t, w, t);
    let ht = hu * t;
    assert(w * t == y / 0x100_0000 as real + ht) by (nonlinear_arith)
        requires
            w == z / 0x100_0000 as real + hu,
            z * t == y,
            ht == hu * t,
    ;
    assert(x * t == y + d * t) by (nonlinear_arith)
        requires
            d == x - z,
            z * t == y,
    ;
    let no = 0 as real;
    let xt = x * t;
    assert((no - x) * t == no - xt) by (nonlinear_arith)
        requires
            no == 0 as real,
            xt == x * t,
    ;
    if size(q) == 0 {
        assert(xt == no && amount(q) * t == no) by (nonlinear_arith)
            requires
                xt == x * t,
                x == no,
                amount(q) == no,
                no == 0 as real,
        ;
    }
}

/// Whether a crouching shape is within the measure `m`.
pub open spec fn crouches_within(height: Scalar, bounds: ColliderBounds, m: real) -> bool {
    &&& height.is_finite()
    &&& bounds.max_y.is_finite() && bounds.min_y.is_finite()
    &&& (bounds.max_y - bounds.min_y).is_finite()
    &&& 4 as real * (extent(height) + extent(bounds.max_y) + extent(bounds.min_y)) <= m
    &&& bounds.capsule_radius matches Some(r) ==> r.is_finite() && 4 as real * extent(r) <= m
        && (height - r).is_finite()
}

/// A capsule crouches as a capsule of the same radius, whose straight half is half of what the
/// crouching height has over the radius, and nothing where it has less. Another shape is squeezed
/// vertically only, such that its height becomes the crouching height, but for rounding.
#[verifier::spinoff_prover]
pub proof fn law_crouch_shape(height: Scalar, bounds: ColliderBounds, m: real)
    requires
        crouches_within(height, bounds, m),
        match crouch_shape(height, bounds) {
            CrouchShape::Capsule { half_height, .. } => half_height.is_finite(),
            CrouchShape::Scaled { scale, .. } => scale.y.is_finite() && amount(
                bounds.max_y - bounds.min_y,
            ) > 0 as real,
        },
    ensures
        match crouch_shape(height, bounds) {
            CrouchShape::Capsule { half_height, radius } => bounds.capsule_radius == Some(radius)
                && off(
                amount(half_height) * 2 as real,
                greatest(amount(height) - amount(radius), 0 as real),
                4 as real * nudge(m),
            ),
            CrouchShape::Scaled { scale, .. } => {
                let stands_up = bounds.max_y - bounds.min_y;
                &&& bounds.capsule_radius is None
                &&& amount(scale.x) == 1 as real && amount(scale.z) == 1 as real
                &&& stands(stands_up, amount(bounds.max_y) - amount(bounds.min_y), m, 1 as real)
                &&& off(
                    amount(scale.y) * amount(stands_up),
                    amount(height),
                    extent(height) / 0x100_0000 as real + half_unit() * amount(stands_up),
                )
            },
        },
{
    broadcast use group_bits;

    reveal(crouch_shape);
    lemma_one();
    lemma_two();
    lemma_simple_amounts();
    lemma_scale_in_figures();
    lemma_nudge(m);
    lemma_extent(height);
    lemma_extent(bounds.max_y);
    lemma_extent(bounds.min_y);
    assert(num(ZERO).is_finite()) by {
        reveal(Scalar::spec_is_finite);
    }
    match bounds.capsule_radius {
        Some(r) => {
            let d = height - r;
            lemma_extent(r);
            lemma_difference_stands(height, r, m);
            let x = amount(height) - amount(r);
            lemma_stands(num(ZERO), m);
            let k = nudge(m);
            assert(0 as real * k == 0 as real && 1 as real * k == k) by (nonlinear_arith);
            assert(stands(num(ZERO), 0 as real, m, 1 as real));
            lemma_least(d, num(ZERO), x, 0 as real, m, 1 as real);
            let a = d.max(num(ZERO));
            lemma_extent(a);
            lemma_quotient_amount(a, num(TWO));
        },
        None => {
            lemma_difference_stands(bounds.max_y, bounds.min_y, m);
            lemma_quotient_amount(height, bounds.max_y - bounds.min_y);
        },
    }
}

/// A crouching character keeps its feet where they are: its shape is lowered by half of what it
/// lost in height, but for rounding. Its hands are as large as the space that they need, and its
/// collider is the first one that it has.
#[verifier::spinoff_prover]
pub proof fn law_crouch_offset(r: Enlisted, bounds: ColliderBounds, m: real)
    requires
        r.colliders.len() > 0,
        crouches_within(r.crouch_height, bounds, m),
        (r.crouch_height - (bounds.max_y - bounds.min_y)).is_finite(),
        finite(setup_of(r, bounds).crouch_offset),
    ensures
        ({
            let setup = setup_of(r, bounds);
            let lost = amount(r.crouch_height) - (amount(bounds.max_y) - amount(bounds.min_y));
            &&& amount(setup.crouch_offset.x) == 0 as real
            &&& amount(setup.crouch_offset.z) == 0 as real
            &&& off(amount(setup.crouch_offset.y) * 2 as real, lost, 4 as real * nudge(m))
            &&& setup.hand_half_size == r.hand_half_size
            &&& setup.collider == r.colliders[0] && setup.entity == r.entity
            &&& setup.ambiguous <==> r.colliders.len() > 1
        }),
{
    broadcast use group_bits;

    reveal(setup_of);
    reveal(Vec3::spec_mul);
    reveal(Vec3::spec_over);
    lemma_one();
    lemma_two();
    lemma_simple_amounts();
    lemma_scale_in_figures();
    lemma_nudge(m);
    lemma_extent(r.crouch_height);
    lemma_extent(bounds.max_y);
    lemma_extent(bounds.min_y);
    let tall = bounds.max_y - bounds.min_y;
    lemma_difference_stands(bounds.max_y, bounds.min_y, m);
    let d = r.crouch_height - tall;
    lemma_stands(r.crouch_height, m);
    let (x, y) = (amount(r.crouch_height), amount(bounds.max_y) - amount(bounds.min_y));
    lemma_taken(r.crouch_height, tall, x, y, m, 0 as real, 1 as real);
    lemma_one_times(d);
    lemma_nothing_times(d);
    lemma_extent(d);
    lemma_quotient_amount(d, num(TWO));
    let z = num(ZERO) * d;
    lemma_extent(z);
    law_zero_over(z, num(TWO));
    lemma_extent(z.over(num(TWO)));
    lemma_extent(num(TWO));
    let k = nudge(m);
    assert(2 as real * k <= 3 as real * k);
}

} // verus!
