//! How gravity changes a velocity.
use crate::amounts::{amount, extent, lemma_as_sum, lemma_extent, lemma_product_bounded};
use crate::context::Ctx;
use crate::estimates::{
    lemma_added, lemma_nudge, lemma_scaled, lemma_stands, lemma_taken, nudge, stands,
};
use crate::figures::law_constants;
use crate::jump_laws::lemma_summand_finite;
use crate::laws::{finite, law_valid_velocity_stays};
use crate::length_laws::lemma_factor_finite;
use crate::motion::{gravity_finished, gravity_started};
use crate::scalar::{group_bits, num, Scalar, HALF};
use crate::vector::Vec3;
use vstd::prelude::*;

verus! {

/// Whether `m` bounds what gravity and the ground do to a velocity.
pub open spec fn pulls_within(c: Ctx, secs: Scalar, m: real) -> bool {
    &&& extent(c.velocity.y) + extent(c.cfg.gravity) + extent(c.state.platform_velocity.y) <= m
    &&& 0 as real <= amount(secs)
    &&& amount(secs) <= 1 as real
}

/// Whether a velocity is allowed as it is.
pub open spec fn allowed(velocity: Vec3, max_speed: Scalar) -> bool {
    finite(velocity) && !(max_speed * max_speed).lt(velocity.length_squared())
}

/// Half of what gravity takes from an upward velocity in a step, with what the ground adds.
#[verifier::spinoff_prover]
proof fn lemma_half_fall(y: Scalar, p: Scalar, g: Scalar, secs: Scalar, m: real)
    requires
        (y + (p - g * num(HALF)) * secs).is_finite(),
        extent(y) + extent(g) + extent(p) <= m,
        0 as real <= amount(secs),
        amount(secs) <= 1 as real,
    ensures
        stands(
            y + (p - g * num(HALF)) * secs,
            amount(y) + (amount(p) - amount(g) / 2 as real) * amount(secs),
            m,
            5 as real,
        ),
{
    law_constants();
    let half = num(HALF);
    let down = g * half;
    let fall = p - down;
    lemma_summand_finite(y, fall * secs);
    lemma_factor_finite(fall, secs);
    lemma_as_sum(p, down);
    assert(down.is_finite() && p.is_finite()) by {
        lemma_difference_finite(p, down);
    }
    lemma_factor_finite(g, half);
    lemma_extent(y);
    lemma_extent(g);
    lemma_extent(p);
    let no = 0 as real;
    let one = 1 as real;
    let (gg, pp, s) = (amount(g), amount(p), amount(secs));
    let hh = amount(half);
    assert(gg * hh == gg / 2 as real) by (nonlinear_arith)
        requires
            hh == 1 as real / 2 as real,
    ;
    lemma_stands(g, m);
    lemma_stands(p, m);
    lemma_stands(y, m);
    lemma_scaled(g, half, gg, m, no, one);
    assert(one * no + one == one) by (nonlinear_arith)
        requires
            one == 1 as real,
            no == 0 as real,
    ;
    lemma_taken(p, down, pp, gg * hh, m, no, one);
    let f = pp - gg / 2 as real;
    let most = extent(p) + extent(g);
    lemma_product_bounded(f, s, most, one);
    lemma_scaled(fall, secs, f, m, 2 as real, one);
    lemma_added(y, fall * secs, amount(y), f * s, m, no, 3 as real);
    lemma_nudge(m);
    let n = nudge(m);
    assert(4 as real * n <= 5 as real * n);
}

#[verifier::spinoff_prover]
pub proof fn lemma_difference_finite(a: Scalar, b: Scalar)
    requires
        (a - b).is_finite(),
    ensures
        a.is_finite(),
        b.is_finite(),
{
    broadcast use group_bits;

    lemma_as_sum(a, b);
    lemma_summand_finite(a, b.negated());
    reveal(Scalar::spec_is_finite);
    reveal(Scalar::spec_negated);
}

/// The first half of gravity: the upward velocity loses half of what gravity takes in a step, and
/// gains what the ground rises in one, but for rounding. The rest of the velocity stays, and the
/// ground keeps its horizontal velocity only. This holds as long as the speed is allowed.
#[verifier::spinoff_prover]
pub proof fn law_gravity_starts(c: Ctx, secs: Scalar, m: real)
    requires
        pulls_within(c, secs, m),
        ({
            let fall = (c.state.platform_velocity.y - c.cfg.gravity * num(HALF)) * secs;
            allowed(c.velocity.with_y(c.velocity.y + fall), c.cfg.max_speed)
        }),
    ensures
        ({
            let after = gravity_started(c, secs);
            let rise = amount(c.state.platform_velocity.y);
            let g = amount(c.cfg.gravity);
            &&& after.velocity.x == c.velocity.x && after.velocity.z == c.velocity.z
            &&& stands(
                after.velocity.y,
                amount(c.velocity.y) + (rise - g / 2 as real) * amount(secs),
                m,
                5 as real,
            )
            &&& after.state.platform_velocity == c.state.platform_velocity.flat()
            &&& after.state.grounded == c.state.grounded
        }),
{
    reveal(gravity_started);
    let fall = (c.state.platform_velocity.y - c.cfg.gravity * num(HALF)) * secs;
    law_valid_velocity_stays(c.velocity.with_y(c.velocity.y + fall), c.cfg.max_speed);
    lemma_half_fall(c.velocity.y, c.state.platform_velocity.y, c.cfg.gravity, secs, m);
}

/// The second half of gravity: the upward velocity loses half of what gravity takes in a step, but
/// for rounding, and nothing else changes. This holds as long as the speed is allowed.
#[verifier::spinoff_prover]
pub proof fn law_gravity_ends(c: Ctx, secs: Scalar, m: real)
    requires
        pulls_within(c, secs, m),
        ({
            let fall = c.cfg.gravity * num(HALF) * secs;
            allowed(c.velocity.with_y(c.velocity.y - fall), c.cfg.max_speed)
        }),
    ensures
        ({
            let after = gravity_finished(c, secs);
            let g = amount(c.cfg.gravity);
            &&& after.velocity.x == c.velocity.x && after.velocity.z == c.velocity.z
            &&& stands(
                after.velocity.y,
                amount(c.velocity.y) - (g / 2 as real) * amount(secs),
                m,
                5 as real,
            )
            &&& after.state == c.state && after.input == c.input
        }),
{
    reveal(gravity_finished);
    law_constants();
    let half = num(HALF);
    let g = c.cfg.gravity;
    let down = g * half;
    let y = c.velocity.y;
    law_valid_velocity_stays(c.velocity.with_y(y - down * secs), c.cfg.max_speed);
    lemma_difference_finite(y, down * secs);
    lemma_factor_finite(down, secs);
    lemma_factor_finite(g, half);
    lemma_extent(y);
    lemma_extent(g);
    lemma_extent(c.state.platform_velocity.y);
    let no = 0 as real;
    let one = 1 as real;
    let (gg, s) = (amount(g), amount(secs));
    let hh = amount(half);
    assert(gg * hh == gg / 2 as real) by (nonlinear_arith)
        requires
            hh == 1 as real / 2 as real,
    ;
    lemma_stands(g, m);
    lemma_stands(y, m);
    lemma_scaled(g, half, gg, m, no, one);
    assert(one * no + one == one) by (nonlinear_arith)
        requires
            one == 1 as real,
            no == 0 as real,
    ;
    let f = gg * hh;
    lemma_product_bounded(f, s, extent(g), one);
    lemma_scaled(down, secs, f, m, one, one);
    lemma_taken(y, down * secs, amount(y), f * s, m, no, 2 as real);
    lemma_nudge(m);
    let n = nudge(m);
    assert(3 as real * n <= 5 as real * n);
}

} // verus!
