//! How a slope pulls on a slide.
use crate::amounts::{amount, bounded, exact_dot, extent, lemma_extent, lemma_product_bounded};
use crate::context::{CharacterControllerState, Ctx};
use crate::estimates::{
    lemma_added, lemma_nudge, lemma_scaled, lemma_scaling, lemma_stands, lemma_taken, nudge, stands,
};
use crate::frame_laws::lemma_simple_amounts;
use crate::gravity_laws::lemma_difference_finite;
use crate::jump_laws::lemma_summand_finite;
use crate::laws::finite;
use crate::length_laws::lemma_factor_finite;
use crate::locomotion::{downhill, spec_downhill, walking_velocity};
use crate::number_laws::{law_times_zero, lemma_one};
use crate::reach_laws::lemma_one_times;
use crate::scalar::{group_bits, num, Scalar, ZERO};
use crate::tac_laws::lemma_dot_stands;
use crate::vector::{down, Vec3};
use vstd::prelude::*;

verus! {

/// Whether the parts of a normal are at most two, and the pull of gravity is within the measure
/// `m`.
pub open spec fn slopes_within(gravity: Scalar, n: Vec3, m: real) -> bool {
    &&& 64 as real * extent(gravity) <= m
    &&& bounded(amount(n.x), 2 as real)
    &&& bounded(amount(n.y), 2 as real)
    &&& bounded(amount(n.z), 2 as real)
}

/// Zero times a number.
#[verifier::spinoff_prover]
pub proof fn lemma_nothing_times(a: Scalar)
    requires
        a.is_finite(),
    ensures
        (num(ZERO) * a).is_finite(),
        amount(num(ZERO) * a) == 0 as real,
{
    broadcast use group_bits;

    lemma_one();
    assert(num(ZERO).is_finite()) by {
        reveal(Scalar::spec_is_finite);
    }
    law_times_zero(num(ZERO), a);
    lemma_extent(num(ZERO) * a);
    reveal(Scalar::spec_is_finite);
}

/// The pull of gravity along a plane: gravity, without its part along the normal of the plane, but
/// for rounding. It pulls a slide down the slope, and not at all on level ground.
#[verifier::spinoff_prover]
pub proof fn law_downhill(gravity: Scalar, n: Vec3, m: real)
    requires
        slopes_within(gravity, n, m),
        finite(downhill(gravity, n)),
    ensures
        ({
            let pull = downhill(gravity, n);
            let g = amount(gravity);
            let (x, y, z) = (amount(n.x), amount(n.y), amount(n.z));
            &&& stands(pull.x, g * (x * y), m, 12 as real)
            &&& stands(pull.y, g * (y * y) - g, m, 12 as real)
            &&& stands(pull.z, g * (z * y), m, 12 as real)
            &&& bounded(g * (x * y), 4 as real * extent(gravity))
            &&& bounded(g * (z * y), 4 as real * extent(gravity))
        }),
{
    broadcast use group_bits;

    reveal(spec_downhill);
    reveal(Vec3::spec_sub);
    reveal(Vec3::spec_mul);
    lemma_simple_amounts();
    let pull = down() * gravity;
    let d = pull.dot(n);
    lemma_difference_finite(pull.x, n.x * d);
    lemma_difference_finite(pull.y, n.y * d);
    lemma_difference_finite(pull.z, n.z * d);
    lemma_factor_finite(n.x, d);
    lemma_factor_finite(num(ZERO), gravity);
    lemma_nothing_times(gravity);
    lemma_one_times(gravity);
    lemma_extent(gravity);
    lemma_extent(gravity.negated());
    let g = amount(gravity);
    let (x, y, z) = (amount(n.x), amount(n.y), amount(n.z));
    assert(amount(pull.y) == 0 as real - g) by {
        reveal(Scalar::spec_negated);
    }
    let most = extent(gravity);
    lemma_dot_stands(pull, n, most, m);
    let e = exact_dot(pull, n);
    let gy = g * y;
    let no = 0 as real;
    assert(no * x == no && no * z == no && (no - g) * y == no - gy) by (nonlinear_arith)
        requires
            no == 0 as real,
            gy == g * y,
    ;
    assert(e == no - gy);
    lemma_drawn(pull.x, n.x, d, e, m, most);
    lemma_drawn(pull.y, n.y, d, e, m, most);
    lemma_drawn(pull.z, n.z, d, e, m, most);
    lemma_along_slope(x, y, g);
    lemma_along_slope(y, y, g);
    lemma_along_slope(z, y, g);
    lemma_product_bounded(x, y, 2 as real, 2 as real);
    lemma_product_bounded(z, y, 2 as real, 2 as real);
    lemma_product_bounded(g, x * y, most, 4 as real);
    lemma_product_bounded(g, z * y, most, 4 as real);
}

#[verifier::spinoff_prover]
proof fn lemma_along_slope(x: real, y: real, g: real)
    ensures
        x * (0 as real - g * y) == 0 as real - g * (x * y),
{
    let gy = g * y;
    assert(x * (0 as real - gy) == 0 as real - gy * x) by (nonlinear_arith);
    assert(gy * x == g * (x * y)) by (nonlinear_arith)
        requires
            gy == g * y,
    ;
}

/// One part of a vector without its part along a normal.
#[verifier::spinoff_prover]
proof fn lemma_drawn(p: Scalar, n: Scalar, d: Scalar, e: real, m: real, most: real)
    requires
        (p - n * d).is_finite(),
        stands(d, e, m, 5 as real),
        bounded(e, 6 as real * most),
        bounded(amount(n), 2 as real),
        bounded(amount(p), most),
        64 as real * most <= m,
        most >= 0 as real,
    ensures
        stands(p - n * d, amount(p) - amount(n) * e, m, 12 as real),
{
    lemma_difference_finite(p, n * d);
    lemma_product_bounded(amount(n), e, 2 as real, 6 as real * most);
    lemma_scaling(n, d, e, m, 5 as real, 2 as real);
    lemma_stands(p, m);
    lemma_taken(p, n * d, amount(p), amount(n) * e, m, 0 as real, 11 as real);
}

/// A slide on a slope gains, against a walk with the same wish, what the slope pulls horizontally
/// in the time, but for rounding: down the slope, the more the steeper it is. A walk is not pulled.
#[verifier::spinoff_prover]
pub proof fn law_slide_gains_downhill(c: Ctx, wish_velocity: Vec3, secs: Scalar, m: real)
    requires
        c.state.sliding,
        c.state.grounded is Some,
        slopes_within(c.cfg.gravity, c.state.grounded->Some_0.normal1, m),
        0 as real <= amount(secs),
        amount(secs) <= 1 as real,
        finite(downhill(c.cfg.gravity, c.state.grounded->Some_0.normal1)),
        finite(walking_velocity(c, wish_velocity, secs)),
        ({
            let walk = walking_velocity(
                c.with_state(CharacterControllerState { sliding: false, ..c.state }),
                wish_velocity,
                secs,
            );
            2 as real * (extent(walk.x) + extent(walk.z)) <= m
        }),
    ensures
        ({
            let slide = walking_velocity(c, wish_velocity, secs);
            let walk = walking_velocity(
                c.with_state(CharacterControllerState { sliding: false, ..c.state }),
                wish_velocity,
                secs,
            );
            let n = c.state.grounded->Some_0.normal1;
            let g = amount(c.cfg.gravity);
            let s = amount(secs);
            let (x, y, z) = (amount(n.x), amount(n.y), amount(n.z));
            &&& stands(slide.x, amount(walk.x) + (g * (x * y)) * s, m, 16 as real)
            &&& stands(slide.z, amount(walk.z) + (g * (z * y)) * s, m, 16 as real)
            &&& slide.y == walk.y && walk.y == num(ZERO)
        }),
{
    reveal(walking_velocity);
    let n = c.state.grounded->Some_0.normal1;
    law_downhill(c.cfg.gravity, n, m);
    let pull = downhill(c.cfg.gravity, n);
    let walk = walking_velocity(
        c.with_state(CharacterControllerState { sliding: false, ..c.state }),
        wish_velocity,
        secs,
    );
    let g = amount(c.cfg.gravity);
    let (x, y, z) = (amount(n.x), amount(n.y), amount(n.z));
    let most = extent(c.cfg.gravity);
    lemma_extent(c.cfg.gravity);
    lemma_extent(walk.x);
    lemma_extent(walk.z);
    lemma_gained(walk.x, pull.x, secs, g * (x * y), m, most);
    lemma_gained(walk.z, pull.z, secs, g * (z * y), m, most);
}

#[verifier::spinoff_prover]
proof fn lemma_gained(w: Scalar, p: Scalar, secs: Scalar, e: real, m: real, most: real)
    requires
        (w + p * secs).is_finite(),
        stands(p, e, m, 12 as real),
        bounded(e, 4 as real * most),
        64 as real * most <= m,
        2 as real * extent(w) <= m,
        0 as real <= amount(secs),
        amount(secs) <= 1 as real,
    ensures
        stands(w + p * secs, amount(w) + e * amount(secs), m, 16 as real),
{
    lemma_summand_finite(w, p * secs);
    lemma_extent(w);
    lemma_product_bounded(e, amount(secs), 4 as real * most, 1 as real);
    lemma_scaled(p, secs, e, m, 12 as real, 1 as real);
    lemma_stands(w, m);
    lemma_added(w, p * secs, amount(w), e * amount(secs), m, 0 as real, 13 as real);
    lemma_nudge(m);
    let n = nudge(m);
    assert(14 as real * n <= 16 as real * n);
}

} // verus!
