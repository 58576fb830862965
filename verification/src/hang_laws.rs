//! How a mantle climbs, and how a look turns with the ground.
use crate::amounts::{
    amount, bounded, extent, half_unit, lemma_extent, lemma_product_bounded, lemma_scale_in_figures,
    off,
};
use crate::casting::{cast_move_model, move_character_model, slid};
use crate::climb::{climb_distance, climb_factor, mantle_climb_model};
use crate::clock::Time;
use crate::config::CharacterController;
use crate::context::{CharacterControllerState, CharacterLook};
use crate::estimates::{
    greatest, least, lemma_added, lemma_compared, lemma_least, lemma_nudge, lemma_scaled,
    lemma_stands, lemma_taken, nudge, stands,
};
use crate::frame_laws::{lemma_exact_sum, lemma_simple_amounts, lemma_two};
use crate::gravity_laws::lemma_difference_finite;
use crate::jump_laws::lemma_summand_finite;
use crate::laws::finite;
use crate::length_laws::lemma_factor_finite;
use crate::number_laws::{law_times_one, law_zero_over, lemma_one, minus, size};
use crate::reach_laws::lemma_one_times;
use crate::rebound_laws::lemma_opposite_amount;
use crate::ride_laws::{lemma_sum_stands, lemma_turn_stands};
use crate::scalar::{group_bits, num, Scalar, MINUS_ONE, ONE, TWO, ZERO};
use crate::shape_laws::lemma_quotient_amount;
use crate::slope_laws::lemma_nothing_times;
use crate::stepper::{spin_angle, spin_character_look_model, Looking};
use crate::vector::{up, Vec3};
use crate::world::{ask_cast_move, ask_slide, History, Step};
use vstd::prelude::*;

verus! {

/// Numbers in figures: the size without the sign, the sign, and the nearest number of a range.
#[verifier::spinoff_prover]
pub proof fn law_figures(a: Scalar, low: Scalar, high: Scalar)
    requires
        a.is_finite(),
        low.is_finite(),
        high.is_finite(),
        amount(low) <= amount(high),
    ensures
        a.abs().is_finite(),
        amount(a.abs()) == extent(a),
        amount(a) > 0 as real ==> amount(a.signum()) == 1 as real,
        amount(a) < 0 as real ==> amount(a.signum()) == 0 as real - 1 as real,
        amount(a.clamp(low, high)) == least(greatest(amount(a), amount(low)), amount(high)),
        amount(a.negated()) == 0 as real - amount(a),
{
    broadcast use group_bits;

    reveal(Scalar::spec_abs);
    reveal(Scalar::spec_signum);
    reveal(Scalar::spec_clamp);
    reveal(Scalar::spec_is_finite);
    lemma_simple_amounts();
    lemma_extent(a);
    lemma_opposite_amount(a);
    lemma_compared(a, low);
    lemma_compared(high, a);
    lemma_abs_parts(a);
}

#[verifier::spinoff_prover]
proof fn lemma_abs_parts(a: Scalar)
    ensures
        size(a.abs()) == size(a),
        !minus(a.abs()),
{
    broadcast use group_bits;

    reveal(Scalar::spec_abs);
}

/// A climb moves a character by the velocity that takes it the way up or down that there is room
/// for in the time, with the velocity of the wall added and taken away again. What it climbs is
/// taken from what is left, and it counts as a step up exactly if it climbs up.
#[verifier::spinoff_prover]
pub proof fn law_mantle_slides(
    h: History,
    s: Step,
    wish_velocity: Vec3,
    left: Scalar,
    time: Time,
    m: real,
)
    requires
        mantle_climb_model(h, s, wish_velocity, left, time).ok,
        ({
            let climb = climb_distance(
                s.ctx.cfg,
                left,
                climb_factor(s.ctx, wish_velocity),
                time.delta_secs,
            );
            let way = match h[s.at as int]->CastMove_reply {
                Some(hit) => hit.distance,
                None => climb.abs(),
            };
            let travel = way * climb.signum();
            let secs = time.delta_secs;
            let base = s.ctx.state.platform_velocity;
            &&& climb.is_finite() && way.is_finite()
            &&& secs.is_finite() && amount(secs) > 0 as real && amount(secs) <= 1 as real
            &&& finite(base)
            &&& travel.over(secs).is_finite()
            &&& (travel.over(secs) + base.y).is_finite()
            &&& extent(travel.over(secs)) + extent(base.y) + extent(way) <= m
        }),
    ensures
        ({
            let after = mantle_climb_model(h, s, wish_velocity, left, time);
            let climb = climb_distance(
                s.ctx.cfg,
                left,
                climb_factor(s.ctx, wish_velocity),
                time.delta_secs,
            );
            let asked = h[s.at as int]->CastMove_query.movement;
            let slide = h[s.at as int + 1]->Slide_query;
            let base = s.ctx.state.platform_velocity;
            let t = amount(time.delta_secs);
            let way = match h[s.at as int]->CastMove_reply {
                Some(hit) => amount(hit.distance),
                None => extent(climb),
            };
            &&& amount(asked.x) == 0 as real && amount(asked.z) == 0 as real
            &&& amount(asked.y) == amount(climb)
            &&& amount(climb) > 0 as real ==> off(
                amount(slide.velocity.y) * t,
                way + amount(base.y) * t,
                3 as real * nudge(m),
            )
            &&& amount(climb) < 0 as real ==> off(
                amount(slide.velocity.y) * t,
                amount(base.y) * t - way,
                3 as real * nudge(m),
            )
            &&& amount(slide.velocity.x) == amount(base.x)
            &&& amount(slide.velocity.z) == amount(base.z)
            &&& after.ctx.velocity == h[s.at as int + 1]->Slide_reply.projected_velocity - base
            &&& after.transform.translation == h[s.at as int + 1]->Slide_reply.position
            &&& amount(climb) > 0 as real ==> after.ctx.state.last_step_up
                == s.ctx.state.last_step_up.restarted() && after.ctx.state.last_step_down
                == s.ctx.state.last_step_down
            &&& amount(climb) < 0 as real ==> after.ctx.state.last_step_down
                == s.ctx.state.last_step_down.restarted() && after.ctx.state.last_step_up
                == s.ctx.state.last_step_up
        }),
{
    broadcast use group_bits;

    reveal(mantle_climb_model);
    reveal(cast_move_model);
    reveal(ask_cast_move);
    reveal(move_character_model);
    reveal(ask_slide);
    reveal(slid);
    reveal(Vec3::spec_mul);
    reveal(Vec3::spec_add);
    reveal(Vec3::spec_over);
    lemma_one();
    lemma_simple_amounts();
    lemma_scale_in_figures();
    assert(num(ZERO).is_finite()) by {
        reveal(Scalar::spec_is_finite);
    }
    let climb = climb_distance(
        s.ctx.cfg,
        left,
        climb_factor(s.ctx, wish_velocity),
        time.delta_secs,
    );
    let way = match h[s.at as int]->CastMove_reply {
        Some(hit) => hit.distance,
        None => climb.abs(),
    };
    let secs = time.delta_secs;
    let base = s.ctx.state.platform_velocity;
    let travel = way * climb.signum();
    lemma_one_times(climb);
    lemma_nothing_times(climb);
    law_figures(climb, climb, climb);
    lemma_compared(num(ZERO), climb);
    lemma_one_times(way);
    lemma_opposite_amount(way);
    law_times_one(way);
    assert(climb.signum() == num(ONE) || climb.signum() == num(MINUS_ONE)) by {
        reveal(Scalar::spec_signum);
        reveal(Scalar::spec_is_finite);
    }
    assert(travel == way || travel == way.negated());
    lemma_one_times(travel);
    lemma_nothing_times(travel);
    let none = num(ZERO) * travel;
    lemma_extent(none);
    lemma_extent(secs);
    law_zero_over(none, secs);
    let z = none.over(secs);
    lemma_extent(z);
    assert(z.is_finite()) by {
        reveal(Scalar::spec_is_finite);
    }
    lemma_exact_sum(z, base.x);
    lemma_exact_sum(z, base.z);
    let q = travel.over(secs);
    lemma_quotient_amount(travel, secs);
    lemma_extent(way);
    lemma_extent(travel);
    lemma_extent(q);
    lemma_extent(base.y);
    lemma_sum_stands(q, base.y, m);
    lemma_nudge(m);
    let (x, b, t) = (amount(q), amount(base.y), amount(secs));
    let v = amount(q + base.y);
    let d = v - (x + b);
    let n = nudge(m);
    assert(1 as real * n == n) by (nonlinear_arith);
    lemma_product_bounded(d, t, n, 1 as real);
    assert(v * t == x * t + b * t + d * t) by (nonlinear_arith)
        requires
            d == v - (x + b),
    ;
    let hu = half_unit();
    assert(hu * t <= hu) by (nonlinear_arith)
        requires
            hu >= 0 as real,
            t <= 1 as real,
    ;
}

/// The angle by which a look turns with the ground: the ground's spin about the vertical times the
/// time, but for rounding.
#[verifier::spinoff_prover]
pub proof fn law_spin_angle(state: CharacterControllerState, time: Time, m: real)
    requires
        spin_angle(state, time).is_finite(),
        extent(state.platform_angular_velocity.y) <= m,
        0 as real <= amount(time.delta_secs),
        amount(time.delta_secs) <= 1 as real,
    ensures
        stands(
            spin_angle(state, time),
            amount(state.platform_angular_velocity.y) * amount(time.delta_secs),
            m,
            1 as real,
        ),
{
    lemma_turn_stands(state.platform_angular_velocity.y, time.delta_secs, m);
}

/// Turning looks leaves every look alone whose character stands on nothing; every other one is
/// turned by the angle of the ground that its character stands on.
pub proof fn law_spin(h: History, at: nat, all: Seq<Looking>, time: Time, i: int)
    requires
        0 <= i < all.len(),
    ensures
        ({
            let turned = spin_character_look_model(h, at, all, time);
            &&& turned.looks.len() == all.len()
            &&& turned.at >= at
            &&& all[i].state.grounded is None ==> turned.looks[i] == all[i].look
            &&& all[i].state.grounded is Some && turned.ok ==> exists|j: int|
                at <= j < turned.at && #[trigger] turned_at(h, j, all[i], time, turned.looks[i])
        }),
    decreases all.len(),
{
    let before = spin_character_look_model(h, at, all.drop_last(), time);
    let turned = spin_character_look_model(h, at, all, time);
    lemma_spin_grows(h, at, all.drop_last(), time);
    if i < all.len() - 1 {
        law_spin(h, at, all.drop_last(), time, i);
        assert(all.drop_last()[i] == all[i]);
        assert(turned.looks[i] == before.looks[i]);
        if all[i].state.grounded is Some && turned.ok {
            let j = choose|j: int|
                at <= j < before.at && #[trigger] turned_at(
                    h,
                    j,
                    all[i],
                    time,
                    before.looks[i],
                );
            assert(turned_at(h, j, all[i], time, turned.looks[i]));
        }
    } else {
        assert(turned.looks[i] == turned.looks.last());
        if all[i].state.grounded is Some && turned.ok {
            assert(turned_at(h, before.at as int, all[i], time, turned.looks[i]));
        }
    }
}

/// Whether a look was turned at a place of a history, into `result`.
pub open spec fn turned_at(
    h: History,
    j: int,
    looking: Looking,
    time: Time,
    result: CharacterLook,
) -> bool {
    &&& h[j] is TurnLook
    &&& h[j]->TurnLook_look == looking.look
    &&& h[j]->TurnLook_angle == looking.state.platform_angular_velocity.y * time.delta_secs
    &&& h[j]->TurnLook_reply == result
}

proof fn lemma_spin_grows(h: History, at: nat, all: Seq<Looking>, time: Time)
    ensures
        spin_character_look_model(h, at, all, time).at >= at,
        spin_character_look_model(h, at, all, time).looks.len() == all.len(),
    decreases all.len(),
{
    if all.len() > 0 {
        lemma_spin_grows(h, at, all.drop_last(), time);
    }
}

/// How far a climb goes in a step: as the speed of the mantle, the time and the factor say, but no
/// farther up than what is left, and no farther down than where what is left would be more than the
/// height of a mantle less what the hands take up twice, but for rounding.
#[verifier::spinoff_prover]
pub proof fn law_climb_distance(
    cfg: CharacterController,
    left: Scalar,
    factor: Scalar,
    secs: Scalar,
    m: real,
)
    requires
        left.is_finite(),
        (cfg.mantle_speed * secs * factor).is_finite(),
        (cfg.mantle_height - cfg.min_ledge_grab_space.y * num(TWO)).is_finite(),
        (left - (cfg.mantle_speed * secs * factor).min(left)).is_finite(),
        (left - cfg.mantle_height + cfg.min_ledge_grab_space.y * num(TWO)).is_finite(),
        8 as real * (extent(cfg.mantle_speed) + extent(left) + extent(cfg.mantle_height) + extent(
            cfg.min_ledge_grab_space.y,
        )) <= m,
        0 as real <= amount(secs),
        amount(secs) <= 1 as real,
        bounded(amount(factor), 1 as real),
    ensures
        ({
            let wanted = (amount(cfg.mantle_speed) * amount(secs)) * amount(factor);
            let lowest = amount(left) - (amount(cfg.mantle_height) - 2 as real * amount(
                cfg.min_ledge_grab_space.y,
            ));
            stands(
                climb_distance(cfg, left, factor, secs),
                greatest(least(wanted, amount(left)), lowest),
                m,
                8 as real,
            )
        }),
{
    reveal(climb_distance);
    lemma_two();
    let (v, g, tall) = (cfg.mantle_speed, cfg.min_ledge_grab_space.y, cfg.mantle_height);
    let (no, one) = (0 as real, 1 as real);
    let n = nudge(m);
    lemma_factor_finite(v * secs, factor);
    lemma_extent(v);
    lemma_extent(g);
    lemma_extent(tall);
    lemma_extent(left);
    lemma_nudge(m);
    lemma_turn_stands(v, secs, m);
    let vt = amount(v) * amount(secs);
    let most = extent(v);
    lemma_product_bounded(amount(v), amount(secs), most, one);
    lemma_product_bounded(vt, amount(factor), most, one);
    lemma_scaled(v * secs, factor, vt, m, one, one);
    let asked = v * secs * factor;
    let x = vt * amount(factor);
    let l = amount(left);
    lemma_stands(left, m);
    assert(stands(left, l, m, 2 as real)) by {
        assert(no * n == no && 2 as real * n >= no) by (nonlinear_arith)
            requires
                n > 0 as real,
                no == 0 as real,
        ;
    }
    lemma_least(asked, left, x, l, m, 2 as real);
    let wanted = asked.min(left);
    let w = least(x, l);
    let grip = g * num(TWO);
    lemma_difference_finite(tall, grip);
    lemma_factor_finite(g, num(TWO));
    lemma_stands(g, m);
    lemma_product_bounded(amount(g), 2 as real, extent(g), 2 as real);
    lemma_scaled(g, num(TWO), amount(g), m, no, 2 as real);
    assert(2 as real * no + one == one) by (nonlinear_arith)
        requires
            no == 0 as real,
            one == 1 as real,
    ;
    let gg = amount(g) * 2 as real;
    lemma_stands(tall, m);
    lemma_taken(tall, grip, amount(tall), gg, m, no, one);
    lemma_taken(left, wanted, l, w, m, no, 2 as real);
    let room = tall - grip;
    let rest = left - wanted;
    lemma_compared(room, rest);
    lemma_summand_finite(left - tall, grip);
    lemma_taken(left, tall, l, amount(tall), m, no, no);
    lemma_added(left - tall, grip, l - amount(tall), gg, m, one, one);
    let (a, b) = (amount(tall) - gg, l - w);
    assert(off(amount(room), a, 2 as real * n));
    assert(off(amount(rest), b, 3 as real * n));
}

} // verus!
