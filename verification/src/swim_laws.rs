//! How a swimmer's wish comes about.
use crate::amounts::{amount, bounded, extent, lemma_extent, lemma_product_bounded};
use crate::context::Ctx;
use crate::estimates::{lemma_nudge, lemma_scaled, lemma_stands, nudge, stands};
use crate::frame_laws::{lemma_exact_sum, lemma_simple_amounts};
use crate::gravity_laws::lemma_difference_finite;
use crate::jump_laws::lemma_summand_finite;
use crate::laws::finite;
use crate::length_laws::lemma_factor_finite;
use crate::locomotion::swim_wish;
use crate::number_laws::{law_times_zero, lemma_one};
use crate::reach_laws::lemma_one_times;
use crate::ride_laws::lemma_sum_stands;
use crate::scalar::{group_bits, num, Scalar, ONE, ZERO};
use crate::slope_laws::lemma_nothing_times;
use crate::vector::{up, zero, Vec3};
use vstd::prelude::*;

verus! {

/// What a swimmer asks for: the wish, and full speed up where that was asked for too.
pub open spec fn swim_asked(c: Ctx, wish_velocity: Vec3) -> Vec3 {
    if c.input.swim_up {
        wish_velocity + up() * c.cfg.speed
    } else {
        wish_velocity
    }
}

/// Whether swimming is within the measure `m`, and water slows down.
pub open spec fn swims_within(c: Ctx, wish_velocity: Vec3, m: real) -> bool {
    &&& 2 as real * (extent(wish_velocity.x) + extent(c.cfg.speed)) <= m
    &&& 2 as real * (extent(wish_velocity.y) + extent(c.cfg.speed)) <= m
    &&& 2 as real * (extent(wish_velocity.z) + extent(c.cfg.speed)) <= m
    &&& 2 as real * extent(c.cfg.water_gravity) <= m
    &&& 0 as real <= amount(c.cfg.water_slowdown)
    &&& amount(c.cfg.water_slowdown) <= 1 as real
}

#[verifier::spinoff_prover]
proof fn lemma_slowed(a: Scalar, f: Scalar, x: real, m: real)
    requires
        (a * f).is_finite(),
        stands(a, x, m, 1 as real),
        bounded(x, m),
        0 as real <= amount(f),
        amount(f) <= 1 as real,
    ensures
        stands(a * f, x * amount(f), m, 2 as real),
{
    lemma_product_bounded(x, amount(f), m, 1 as real);
    lemma_scaled(a, f, x, m, 1 as real, 1 as real);
}

/// A number stands for its amount, with one rounding to spare.
#[verifier::spinoff_prover]
proof fn lemma_stands_spare(a: Scalar, m: real)
    requires
        a.is_finite(),
        m >= 0 as real,
    ensures
        stands(a, amount(a), m, 1 as real),
{
    lemma_stands(a, m);
    lemma_nudge(m);
    let n = nudge(m);
    assert(0 as real * n == 0 as real && 1 as real * n == n) by (nonlinear_arith);
}

/// A swimmer who asks for something, and for no more than the full speed, wishes for what was asked
/// for, slowed down by the water: along the wish, and up at full speed where that was asked for,
/// but for rounding.
#[verifier::spinoff_prover]
pub proof fn law_swims_as_asked(c: Ctx, wish_velocity: Vec3, m: real)
    requires
        swims_within(c, wish_velocity, m),
        finite(swim_asked(c, wish_velocity)),
        c.cfg.speed.is_finite(),
        !swim_asked(c, wish_velocity).same(zero()),
        !(c.cfg.speed * c.cfg.speed).lt(swim_asked(c, wish_velocity).length_squared()),
        finite(swim_wish(c, wish_velocity)),
    ensures
        ({
            let wish = swim_wish(c, wish_velocity);
            let slow = amount(c.cfg.water_slowdown);
            let rise = if c.input.swim_up {
                amount(c.cfg.speed)
            } else {
                0 as real
            };
            &&& stands(wish.x, amount(wish_velocity.x) * slow, m, 2 as real)
            &&& stands(wish.y, (amount(wish_velocity.y) + rise) * slow, m, 2 as real)
            &&& stands(wish.z, amount(wish_velocity.z) * slow, m, 2 as real)
        }),
{
    broadcast use group_bits;

    reveal(swim_wish);
    reveal(Vec3::spec_mul);
    reveal(Vec3::spec_add);
    reveal(Vec3::spec_clamp_length_max);
    let asked = swim_asked(c, wish_velocity);
    let slow = c.cfg.water_slowdown;
    let speed = c.cfg.speed;
    let w = wish_velocity;
    lemma_extent(w.x);
    lemma_extent(w.y);
    lemma_extent(w.z);
    lemma_extent(speed);
    if c.input.swim_up {
        lemma_one_times(speed);
        lemma_nothing_times(speed);
        lemma_summand_finite(w.x, num(ZERO) * speed);
        lemma_summand_finite(w.y, speed);
        lemma_summand_finite(w.z, num(ZERO) * speed);
        lemma_exact_sum(w.x, num(ZERO) * speed);
        lemma_exact_sum(w.z, num(ZERO) * speed);
        lemma_sum_stands(w.y, speed, m);
    } else {
        lemma_stands_spare(w.y, m);
    }
    lemma_stands_spare(asked.x, m);
    lemma_stands_spare(asked.z, m);
    let rise = if c.input.swim_up {
        amount(speed)
    } else {
        0 as real
    };
    lemma_slowed(asked.x, slow, amount(w.x), m);
    lemma_slowed(asked.y, slow, amount(w.y) + rise, m);
    lemma_slowed(asked.z, slow, amount(w.z), m);
}

/// A swimmer who asks for nothing sinks: straight down, at the gravity of the water, slowed down by
/// it, but for rounding.
#[verifier::spinoff_prover]
pub proof fn law_sinks(c: Ctx, m: real)
    requires
        swims_within(c, zero(), m),
        !c.input.swim_up,
        c.cfg.speed.is_finite(),
        !(c.cfg.speed * c.cfg.speed).lt(zero().length_squared()),
        finite(swim_wish(c, zero())),
    ensures
        ({
            let wish = swim_wish(c, zero());
            let slow = amount(c.cfg.water_slowdown);
            &&& amount(wish.x) == 0 as real && amount(wish.z) == 0 as real
            &&& stands(wish.y, (0 as real - amount(c.cfg.water_gravity)) * slow, m, 2 as real)
        }),
{
    broadcast use group_bits;

    reveal(swim_wish);
    reveal(Vec3::spec_mul);
    reveal(Vec3::spec_sub);
    reveal(Vec3::spec_clamp_length_max);
    lemma_one();
    lemma_simple_amounts();
    let no = num(ZERO);
    assert(no.is_finite() && zero().same(zero())) by {
        reveal(Scalar::spec_is_finite);
        reveal(Vec3::spec_same);
        reveal(Scalar::spec_same);
    }
    let g = c.cfg.water_gravity;
    let slow = c.cfg.water_slowdown;
    let pull = up() * g;
    lemma_factor_finite(no - pull.x, slow);
    lemma_factor_finite(no - pull.y, slow);
    lemma_factor_finite(no - pull.z, slow);
    lemma_difference_finite(no, pull.y);
    lemma_factor_finite(num(ONE), g);
    lemma_one_times(g);
    lemma_nothing_times(g);
    lemma_exact_sum(no, g);
    lemma_exact_sum(no, no * g);
    lemma_extent(g);
    lemma_extent(c.cfg.speed);
    lemma_extent(zero().x);
    lemma_stands_spare(no - g, m);
    lemma_slowed(no - g, slow, 0 as real - amount(g), m);
    let z = no - no * g;
    lemma_extent(z);
    law_times_zero(z, slow);
    lemma_extent(z * slow);
}

} // verus!
