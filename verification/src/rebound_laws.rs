//! What a wall gives back, and what is given up at it.
use crate::amounts::{amount, bounded, exact_dot, lemma_extent, lemma_product_bounded, off};
use crate::context::Ctx;
use crate::estimates::{
    greatest, least, lemma_compared, lemma_least, lemma_nudge, lemma_scaling, lemma_stands,
    lemma_taken, nudge, stands,
};
use crate::figures::law_constants;
use crate::frame_laws::lemma_simple_amounts;
use crate::gravity_laws::lemma_difference_finite;
use crate::jump::{
    bounce_speed, bounced_velocity, into_wall, jump_speed, mirrored_velocity, tac_off,
    MINUS_HUNDREDTH,
};
use crate::laws::finite;
use crate::number_laws::{lemma_one, lemma_opposite};
use crate::scalar::{group_bits, num, Scalar, ZERO};
use crate::tac_laws::lemma_dot_stands;
use crate::vector::Vec3;
use vstd::prelude::*;

verus! {

/// Whether the parts of a vector are at most `most`.
pub open spec fn parts_below(v: Vec3, most: real) -> bool {
    &&& bounded(amount(v.x), most)
    &&& bounded(amount(v.y), most)
    &&& bounded(amount(v.z), most)
}

/// The amount of the opposite.
#[verifier::spinoff_prover]
pub proof fn lemma_opposite_amount(a: Scalar)
    requires
        a.is_finite(),
    ensures
        a.negated().is_finite(),
        amount(a.negated()) == 0 as real - amount(a),
{
    lemma_opposite(a);
    lemma_extent(a);
    lemma_extent(a.negated());
}

/// How fast a character goes into a wall: the faster of now and before the last slide, where going
/// into the wall counts as negative.
#[verifier::spinoff_prover]
pub proof fn law_into_wall(c: Ctx, n: Vec3, most: real, m: real)
    requires
        most >= 0 as real,
        m >= 8 as real * most,
        parts_below(c.velocity, most),
        parts_below(c.state.last_velocity, most),
        parts_below(n, 2 as real),
        c.velocity.dot(n).is_finite(),
        c.state.last_velocity.dot(n).is_finite(),
    ensures
        stands(
            into_wall(c, n),
            least(exact_dot(c.velocity, n), exact_dot(c.state.last_velocity, n)),
            m,
            5 as real,
        ),
        bounded(
            least(exact_dot(c.velocity, n), exact_dot(c.state.last_velocity, n)),
            6 as real * most,
        ),
{
    lemma_dot_stands(c.velocity, n, most, m);
    lemma_dot_stands(c.state.last_velocity, n, most, m);
    lemma_least(
        c.velocity.dot(n),
        c.state.last_velocity.dot(n),
        exact_dot(c.velocity, n),
        exact_dot(c.state.last_velocity, n),
        m,
        5 as real,
    );
}

/// How fast a bounce leaves the wall: as fast as the character went into it, now or before the last
/// slide, times the restitution, but at least at the smallest speed, but for rounding. Restitution
/// takes speed and does not add any.
#[verifier::spinoff_prover]
pub proof fn law_bounce_speed(c: Ctx, n: Vec3, most: real, m: real)
    requires
        most >= 0 as real,
        m >= 8 as real * most,
        parts_below(c.velocity, most),
        parts_below(c.state.last_velocity, most),
        parts_below(n, 2 as real),
        c.velocity.dot(n).is_finite(),
        c.state.last_velocity.dot(n).is_finite(),
        c.cfg.bounce_restitution.is_finite(),
        0 as real <= amount(c.cfg.bounce_restitution),
        amount(c.cfg.bounce_restitution) <= 1 as real,
        c.cfg.bounce_min_speed.is_finite(),
        (c.cfg.bounce_restitution.negated() * into_wall(c, n)).is_finite(),
    ensures
        ({
            let into = least(exact_dot(c.velocity, n), exact_dot(c.state.last_velocity, n));
            stands(
                bounce_speed(c.cfg, into_wall(c, n)),
                greatest(
                    (0 as real - amount(c.cfg.bounce_restitution)) * into,
                    amount(c.cfg.bounce_min_speed),
                ),
                m,
                6 as real,
            )
        }),
{
    reveal(bounce_speed);
    law_into_wall(c, n, most, m);
    let into = least(exact_dot(c.velocity, n), exact_dot(c.state.last_velocity, n));
    let r = c.cfg.bounce_restitution;
    lemma_opposite_amount(r);
    let back = amount(r.negated());
    lemma_product_bounded(back, into, 1 as real, 6 as real * most);
    lemma_scaling(r.negated(), into_wall(c, n), into, m, 5 as real, 1 as real);
    let min = c.cfg.bounce_min_speed;
    lemma_stands(min, m);
    lemma_nudge(m);
    let k = nudge(m);
    assert(0 as real * k == 0 as real && 6 as real * k >= 0 as real) by (nonlinear_arith)
        requires
            k > 0 as real,
    ;
    assert(stands(min, amount(min), m, 6 as real));
    lemma_least(r.negated() * into_wall(c, n), min, back * into, amount(min), m, 6 as real);
}

/// A bounce goes up with the greater of the velocity up that it has and that of its launch.
#[verifier::spinoff_prover]
pub proof fn law_bounce_rises(c: Ctx, n: Vec3)
    requires
        mirrored_velocity(c, n).y.is_finite(),
        (jump_speed(c.cfg) * c.cfg.bounce_jump_factor).is_finite(),
    ensures
        amount(bounced_velocity(c, n).y) == greatest(
            amount(mirrored_velocity(c, n).y),
            amount(jump_speed(c.cfg) * c.cfg.bounce_jump_factor),
        ),
{
    broadcast use group_bits;

    reveal(bounced_velocity);
    reveal(Scalar::spec_max);
    reveal(Scalar::spec_is_finite);
    lemma_compared(mirrored_velocity(c, n).y, jump_speed(c.cfg) * c.cfg.bounce_jump_factor);
}

/// One part of a velocity without what goes into a wall.
#[verifier::spinoff_prover]
proof fn lemma_given_up_part(v: Scalar, n: Scalar, i: Scalar, e: real, most: real, m: real)
    requires
        (v - n * i).is_finite(),
        stands(i, e, m, 5 as real),
        bounded(e, 6 as real * most),
        bounded(amount(n), 2 as real),
        bounded(amount(v), most),
        most >= 0 as real,
        m >= 16 as real * most,
    ensures
        stands(v - n * i, amount(v) - amount(n) * e, m, 12 as real),
{
    lemma_difference_finite(v, n * i);
    lemma_product_bounded(amount(n), e, 2 as real, 6 as real * most);
    lemma_scaling(n, i, e, m, 5 as real, 2 as real);
    lemma_stands(v, m);
    lemma_taken(v, n * i, amount(v), amount(n) * e, m, 0 as real, 11 as real);
}

/// A tic tac gives up the velocity into the wall: off the wall the velocity is what it was, or
/// nothing where it went into the wall, and along the wall it stays, but for rounding. The normal
/// has length one, and `most` bounds the parts of the velocity.
#[verifier::spinoff_prover]
pub proof fn law_tac_gives_up(c: Ctx, wish_velocity: Vec3, n: Vec3, most: real, m: real)
    requires
        most >= 0 as real,
        m >= 16 as real * most,
        parts_below(c.velocity, most),
        parts_below(n, 2 as real),
        c.velocity.dot(n).is_finite(),
        tac_off(c, wish_velocity, n) matches Some((after, _)) && finite(after.velocity),
    ensures
        tac_off(c, wish_velocity, n) matches Some((after, _)) && {
            let into = least(exact_dot(c.velocity, n), 0 as real);
            let (v, w) = (c.velocity, after.velocity);
            &&& stands(w.x, amount(v.x) - amount(n.x) * into, m, 12 as real)
            &&& stands(w.y, amount(v.y) - amount(n.y) * into, m, 12 as real)
            &&& stands(w.z, amount(v.z) - amount(n.z) * into, m, 12 as real)
            &&& after.input == c.input && after.state.grounded == c.state.grounded
        },
{
    broadcast use group_bits;

    reveal(tac_off);
    reveal(Vec3::spec_sub);
    reveal(Vec3::spec_mul);
    lemma_one();
    lemma_simple_amounts();
    assert(num(ZERO).is_finite()) by {
        reveal(Scalar::spec_is_finite);
    }
    lemma_dot_stands(c.velocity, n, most, m);
    let d = exact_dot(c.velocity, n);
    lemma_stands(num(ZERO), m);
    lemma_nudge(m);
    let k = nudge(m);
    assert(0 as real * k == 0 as real && 5 as real * k >= 0 as real) by (nonlinear_arith)
        requires
            k > 0 as real,
    ;
    assert(stands(num(ZERO), 0 as real, m, 5 as real));
    lemma_least(c.velocity.dot(n), num(ZERO), d, 0 as real, m, 5 as real);
    let i = c.velocity.dot(n).min(num(ZERO));
    let e = least(d, 0 as real);
    lemma_given_up_part(c.velocity.x, n.x, i, e, most, m);
    lemma_given_up_part(c.velocity.y, n.y, i, e, most, m);
    lemma_given_up_part(c.velocity.z, n.z, i, e, most, m);
}

/// A wall can be kicked off of where its normal does not point down by more than a hundredth, and
/// where the wish does not face it more directly than allowed; and only there, but for rounding.
#[verifier::spinoff_prover]
pub proof fn law_tac_faces(c: Ctx, wish_velocity: Vec3, n: Vec3)
    requires
        n.y.is_finite(),
        c.cfg.max_tac_cos.is_finite(),
        parts_below(wish_velocity.normalize(), 3 as real),
        parts_below(n, 2 as real),
        wish_velocity.normalize().dot(n).is_finite(),
    ensures
        ({
            let facing = 0 as real - exact_dot(wish_velocity.normalize(), n);
            let limit = amount(c.cfg.max_tac_cos);
            let bit = 1 as real / 0x1000_0000 as real;
            let slip = 5 as real * nudge(64 as real);
            let lean = 0 as real - 1 as real / 100 as real;
            let found = tac_off(c, wish_velocity, n) is Some;
            &&& amount(n.y) > lean + bit && facing < limit - slip ==> found
            &&& amount(n.y) < lean - bit ==> !found
            &&& facing > limit + slip ==> !found
        }),
{
    reveal(tac_off);
    law_constants();
    let u = wish_velocity.normalize();
    lemma_dot_stands(u, n, 3 as real, 64 as real);
    let d = u.dot(n);
    lemma_opposite_amount(d);
    lemma_compared(n.y, num(MINUS_HUNDREDTH));
    lemma_compared(c.cfg.max_tac_cos, d.negated());
}

} // verus!
