//! A velocity that is too fast keeps its direction.
use crate::amounts::{amount, extent, lemma_amounts_ordered, off};
use crate::direction_laws::{along, law_direction_along, lemma_measured, measurable};
use crate::frame_laws::lemma_simple_amounts;
use crate::laws::{finite, lemma_zero_square};
use crate::leap_laws::{lemma_leap_part, wobble};
use crate::motion::valid_velocity;
use crate::number_laws::lemma_one;
use crate::scalar::{group_bits, num, Scalar, ZERO};
use crate::vector::Vec3;
use crate::wish_laws::lemma_within_two;
use vstd::prelude::*;

verus! {

/// Whether `w` points along `v` and is `s` long, with `k` one over the length of `v`, but for
/// rounding.
pub open spec fn shortened_to(w: Vec3, v: Vec3, k: real, s: real) -> bool {
    &&& k > 0 as real
    &&& off(amount(w.x), (k * amount(v.x)) * s, wobble(s))
    &&& off(amount(w.y), (k * amount(v.y)) * s, wobble(s))
    &&& off(amount(w.z), (k * amount(v.z)) * s, wobble(s))
}

#[verifier::spinoff_prover]
proof fn lemma_shortened_to(v: Vec3, max: Scalar)
    requires
        measurable(v),
        max.is_finite(),
        num(ZERO).le(max),
        finite(v.over(v.length_squared().sqrt()) * max),
    ensures
        shortened_to(
            v.over(v.length_squared().sqrt()) * max,
            v,
            1 as real / extent(v.length()),
            amount(max),
        ),
        along(v.over(v.length_squared().sqrt()), v, 1 as real / extent(v.length())),
{
    broadcast use group_bits;

    lemma_one();
    lemma_simple_amounts();
    assert(num(ZERO).is_finite()) by {
        reveal(Scalar::spec_is_finite);
    }
    lemma_amounts_ordered(num(ZERO), max);
    lemma_measured(v);
    law_direction_along(v);
    reveal(Vec3::spec_direction_and_length);
    reveal(Vec3::spec_mul);
    let dir = v.over(v.length());
    let r = extent(v.length());
    let k = 1 as real / r;
    lemma_within_two(v.x, r);
    lemma_within_two(v.y, r);
    lemma_within_two(v.z, r);
    lemma_leap_part(dir.x, max, k * amount(v.x));
    lemma_leap_part(dir.y, max, k * amount(v.y));
    lemma_leap_part(dir.z, max, k * amount(v.z));
}

/// A wish that is longer than the full speed is shortened to it and keeps its direction, but for
/// rounding.
#[verifier::spinoff_prover]
pub proof fn law_joint_wish_along(wish: Vec3, speed: Scalar)
    requires
        measurable(wish),
        speed.is_finite(),
        num(ZERO).le(speed),
        (speed * speed).lt(wish.length_squared()),
        finite(wish.clamp_length_max(speed)),
    ensures
        shortened_to(
            wish.clamp_length_max(speed),
            wish,
            1 as real / extent(wish.length()),
            amount(speed),
        ),
{
    reveal(Vec3::spec_clamp_length_max);
    lemma_shortened_to(wish, speed);
}

/// A velocity above the highest speed is slowed down to it and keeps its direction, but for
/// rounding.
#[verifier::spinoff_prover]
pub proof fn law_too_fast_along(velocity: Vec3, max_speed: Scalar)
    requires
        measurable(velocity),
        max_speed.is_finite(),
        num(ZERO).le(max_speed),
        (max_speed * max_speed).lt(velocity.length_squared()),
        finite(valid_velocity(velocity, max_speed)),
    ensures
        shortened_to(
            valid_velocity(velocity, max_speed),
            velocity,
            1 as real / extent(velocity.length()),
            amount(max_speed),
        ),
{
    broadcast use group_bits;

    reveal(valid_velocity);
    reveal(Vec3::spec_clamp_length);
    lemma_measured(velocity);
    lemma_zero_square();
    assert(!velocity.length_squared().lt(num(ZERO) * num(ZERO))) by {
        reveal(Scalar::spec_lt);
        reveal(Scalar::spec_le);
    }
    lemma_shortened_to(velocity, max_speed);
}

} // verus!
