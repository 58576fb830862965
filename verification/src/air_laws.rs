//! How a turn in the air gains speed.
use crate::amounts::{
    amount, bounded, exact_dot, extent, half_unit, lemma_extent, lemma_product_bounded,
    lemma_scale_in_figures, off,
};
use crate::clock::Time;
use crate::direction_laws::{along, law_direction_along, lemma_measured, measurable};
use crate::estimates::{
    greatest, lemma_added, lemma_least, lemma_nudge, lemma_product_near, lemma_scaled,
    lemma_scaling, lemma_stands, nudge, stands,
};
use crate::frame_laws::lemma_simple_amounts;
use crate::jump_laws::lemma_summand_finite;
use crate::laws::finite;
use crate::length_laws::lemma_factor_finite;
use crate::motion::{air_accelerate_model, air_pushed, carves};
use crate::number_laws::lemma_one;
use crate::scalar::{group_bits, num, Scalar, ONE, ZERO};
use crate::speed_laws::lemma_direction_small;
use crate::tac_laws::{lemma_dot_finite, lemma_dot_stands};
use crate::vector::Vec3;
use crate::world::{ask_angle_between, History, Step};
use vstd::prelude::*;

verus! {

/// How much faster a carve gets: the carve gain times the turn, as far as the wish and the velocity
/// go the same way.
#[verifier::spinoff_prover]
proof fn lemma_carve_gain(dir: Vec3, n: Vec3, gain: Scalar, turn: Scalar)
    requires
        finite(dir),
        finite(n),
        bounded(amount(dir.x), 2 as real),
        bounded(amount(dir.y), 2 as real),
        bounded(amount(dir.z), 2 as real),
        bounded(amount(n.x), 2 as real),
        bounded(amount(n.y), 2 as real),
        bounded(amount(n.z), 2 as real),
        (num(ONE) + gain * turn * dir.dot(n).max(num(ZERO))).is_finite(),
        extent(gain) * extent(turn) <= 1 as real,
    ensures
        ({
            let same = greatest(exact_dot(dir, n), 0 as real);
            let more = (amount(gain) * amount(turn)) * same;
            &&& stands(
                num(ONE) + gain * turn * dir.dot(n).max(num(ZERO)),
                1 as real + more,
                64 as real,
                14 as real,
            )
            &&& bounded(more, 12 as real)
        }),
{
    broadcast use group_bits;

    lemma_one();
    lemma_simple_amounts();
    lemma_scale_in_figures();
    let no = 0 as real;
    let one = 1 as real;
    let m = 64 as real;
    lemma_nudge(m);
    lemma_nudge(one);
    assert(num(ZERO).is_finite()) by {
        reveal(Scalar::spec_is_finite);
    }
    lemma_dot_finite(dir, n);
    lemma_dot_stands(dir, n, 2 as real, m);
    let d = exact_dot(dir, n);
    let nm = nudge(m);
    let n1 = nudge(one);
    lemma_stands(num(ZERO), m);
    assert(stands(num(ZERO), no, m, 5 as real)) by {
        assert(5 as real * nm >= 0 as real) by (nonlinear_arith)
            requires
                nm > 0 as real,
        ;
    }
    lemma_least(dir.dot(n), num(ZERO), d, no, m, 5 as real);
    let coh = dir.dot(n).max(num(ZERO));
    let c = greatest(d, no);
    let gt = gain * turn;
    lemma_summand_finite(num(ONE), gt * coh);
    lemma_factor_finite(gt, coh);
    lemma_factor_finite(gain, turn);
    lemma_extent(gain);
    lemma_extent(turn);
    let t = amount(gain) * amount(turn);
    lemma_product_bounded(amount(gain), amount(turn), extent(gain), extent(turn));
    lemma_stands(gain, one);
    lemma_scaled(gain, turn, amount(gain), one, no, extent(turn));
    let et = extent(turn);
    assert(et * no + one == one && one * n1 == n1) by (nonlinear_arith)
        requires
            one == 1 as real,
            no == 0 as real,
    ;
    let a = amount(gt);
    lemma_product_bounded(a, c, 2 as real, 12 as real);
    lemma_scaling(gt, coh, c, m, 5 as real, 2 as real);
    let e = a - t;
    lemma_product_bounded(e, c, n1, 12 as real);
    lemma_product_bounded(t, c, one, 12 as real);
    assert(a * c == t * c + e * c) by (nonlinear_arith)
        requires
            e == a - t,
    ;
    assert(off(amount(gt * coh), a * c, 11 as real * nm));
    assert(12 as real * n1 <= nm);
    assert(n1 * 12 as real == 12 as real * n1) by (nonlinear_arith);
    assert(stands(gt * coh, t * c, m, 12 as real));
    lemma_stands(num(ONE), m);
    lemma_added(num(ONE), gt * coh, one, t * c, m, no, 12 as real);
    assert(13 as real * nm <= 14 as real * nm);
}

/// Whether a scalar is `x` times `f`, but for rounding.
pub open spec fn scaled_by(a: Scalar, x: real, f: real, size: real) -> bool {
    off(amount(a), x * f, size / 0x1000 as real + half_unit())
}

#[verifier::spinoff_prover]
proof fn lemma_scaled_by_gain(a: Scalar, g: Scalar, f: real)
    requires
        (a * g).is_finite(),
        stands(g, f, 64 as real, 14 as real),
        bounded(f, 13 as real),
    ensures
        scaled_by(a * g, amount(a), f, extent(a)),
{
    lemma_scale_in_figures();
    lemma_extent(a);
    let no = 0 as real;
    let m = 64 as real;
    let e = 14 as real * nudge(m);
    let x = extent(a);
    let q = 13 as real;
    lemma_product_near(a, g, amount(a), f, x, q, no, e);
    let xe = x * e;
    assert(no * q == no && no * e == no && x + no == x) by (nonlinear_arith)
        requires
            no == 0 as real,
    ;
    assert(x * (q + e) == q * x + xe) by (nonlinear_arith)
        requires
            xe == x * e,
    ;
    assert(xe <= x / 0x2000 as real) by (nonlinear_arith)
        requires
            xe == x * e,
            x >= 0 as real,
            e <= 1 as real / 0x2000 as real,
    ;
}

/// A turn in the air at speed gains speed: the pushed velocity is scaled by one, and by the carve
/// gain times the angle of the turn, as far as the wish and the velocity before go the same way; a
/// turn against the velocity gains nothing. Without a gain the pushed velocity stays. The vertical
/// velocity stays in any case. All this holds but for rounding.
#[verifier::spinoff_prover]
pub proof fn law_carve(h: History, s: Step, wish_velocity: Vec3, accel: Scalar, time: Time)
    requires
        measurable(wish_velocity),
        measurable(s.ctx.velocity.flat()),
        air_accelerate_model(h, s, wish_velocity, accel, time).ok,
        finite(air_accelerate_model(h, s, wish_velocity, accel, time).ctx.velocity),
        ({
            let (dir, speed) = wish_velocity.direction_and_length()->Some_0;
            let before = s.ctx.velocity.flat();
            &&& air_pushed(s.ctx.velocity, dir, speed, accel * time.delta_secs) is Some
            &&& carves(s.ctx.cfg, before.length(), speed) ==> {
                let turn = h[s.at as int]->AngleBetween_reply;
                let n = before.direction()->Some_0;
                &&& extent(s.ctx.cfg.carve_gain) * extent(turn) <= 1 as real
                &&& (num(ONE) + s.ctx.cfg.carve_gain * turn * dir.dot(n).max(
                    num(ZERO),
                )).is_finite()
            }
        }),
    ensures
        ({
            let (dir, speed) = wish_velocity.direction_and_length()->Some_0;
            let before = s.ctx.velocity.flat();
            let pushed = air_pushed(s.ctx.velocity, dir, speed, accel * time.delta_secs)->Some_0;
            let after = air_accelerate_model(h, s, wish_velocity, accel, time).ctx.velocity;
            let n = before.direction()->Some_0;
            &&& along(n, before, 1 as real / extent(before.length()))
            &&& along(dir, wish_velocity, 1 as real / extent(wish_velocity.length()))
            &&& after.y == s.ctx.velocity.y
            &&& if carves(s.ctx.cfg, before.length(), speed) {
                let turn = h[s.at as int]->AngleBetween_reply;
                let same = greatest(exact_dot(dir, n), 0 as real);
                let f = 1 as real + (amount(s.ctx.cfg.carve_gain) * amount(turn)) * same;
                &&& h[s.at as int] is AngleBetween
                &&& h[s.at as int]->AngleBetween_from == before
                &&& h[s.at as int]->AngleBetween_to == pushed
                &&& scaled_by(after.x, amount(pushed.x), f, extent(pushed.x))
                &&& scaled_by(after.z, amount(pushed.z), f, extent(pushed.z))
            } else {
                after.x == pushed.x && after.z == pushed.z
            }
        }),
{
    broadcast use group_bits;

    reveal(air_accelerate_model);
    reveal(ask_angle_between);
    reveal(Vec3::spec_mul);
    law_direction_along(wish_velocity);
    let before = s.ctx.velocity.flat();
    law_direction_along(before);
    lemma_measured(before);
    lemma_measured(wish_velocity);
    let (dir, speed) = wish_velocity.direction_and_length()->Some_0;
    let n = before.direction()->Some_0;
    assert(n == before.over(before.length())) by {
        reveal(Vec3::spec_direction);
        reveal(Vec3::spec_direction_and_length);
    }
    let pushed = air_pushed(s.ctx.velocity, dir, speed, accel * time.delta_secs)->Some_0;
    if carves(s.ctx.cfg, before.length(), speed) {
        let turn = h[s.at as int]->AngleBetween_reply;
        lemma_direction_small(dir, wish_velocity, 1 as real / extent(wish_velocity.length()));
        lemma_direction_small(n, before, 1 as real / extent(before.length()));
        lemma_carve_gain(dir, n, s.ctx.cfg.carve_gain, turn);
        let same = greatest(exact_dot(dir, n), 0 as real);
        let f = 1 as real + (amount(s.ctx.cfg.carve_gain) * amount(turn)) * same;
        let g = num(ONE) + s.ctx.cfg.carve_gain * turn * dir.dot(n).max(num(ZERO));
        lemma_scaled_by_gain(pushed.x, g, f);
        lemma_scaled_by_gain(pushed.z, g, f);
    }
}

} // verus!
