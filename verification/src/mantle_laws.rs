//! Laws of mantles: how much is left to climb.
use crate::amounts::{
    amount, bounded, half_unit, lemma_amounts_ordered, lemma_as_sum, lemma_difference_off,
    lemma_extent, lemma_product_off, lemma_scale_in_figures, lemma_sum_off, off,
};
use crate::casting::{cast_move_model, closest_wall_normal_model, group_casts};
use crate::climb::{
    climb_distance, climb_factor, handle_mantle_movement_model, mantle_carry_model,
    mantle_climb_model,
};
use crate::clock::Time;
use crate::config::CharacterController;
use crate::context::{CharacterControllerState, MoveHitData};
use crate::frame_laws::lemma_two;
use crate::grip::{lemma_grip_calculate_platform_movement, lemma_grip_move_character};
use crate::ground::calculate_platform_movement_model;
use crate::ieee;
use crate::keeps::{
    lemma_keeps_calculate_platform_movement, lemma_keeps_handle_mantle_movement,
};
use crate::length_laws::lemma_sum_moderate;
use crate::number_laws::{
    law_difference_not_negative, law_difference_ordered, law_plus_zero, law_times_one, lemma_one,
    lemma_opposite, lemma_sum, minus,
};
use crate::reach_laws::{lemma_one_times, within};
use crate::scalar::{group_bits, num, Scalar, TWO, ZERO};
use crate::vector::{up, zero, Vec3};
use crate::world::{group_asks, History, Step};
use vstd::prelude::*;

verus! {

/// How far a mantle moves along the wall, of a climb that a cast may have stopped.
pub open spec fn travel_of(climb: Scalar, end: Option<MoveHitData>) -> Scalar {
    let way = match end {
        Some(hit) => hit.distance,
        None => climb.abs(),
    };
    way * climb.signum()
}

/// What is travelled lies between nothing and the climb, on the side of the climb.
proof fn lemma_travel(climb: Scalar, end: Option<MoveHitData>)
    requires
        climb.is_finite(),
        within(end, climb.abs()),
    ensures
        travel_of(climb, end).is_finite(),
        minus(climb) ==> travel_of(climb, end).le(num(ZERO)) && climb.le(travel_of(climb, end)),
        !minus(climb) ==> num(ZERO).le(travel_of(climb, end)) && travel_of(climb, end).le(climb),
{
    broadcast use group_bits;

    reveal(Scalar::spec_is_finite);
    reveal(Scalar::spec_le);
    reveal(Scalar::spec_abs);
    reveal(Scalar::spec_signum);
    lemma_one();
    let way = match end {
        Some(hit) => hit.distance,
        None => climb.abs(),
    };
    assert(num(ZERO).le(way) && way.le(climb.abs()) && way.is_finite());
    lemma_one_times(way);
    law_times_one(way);
    lemma_opposite(way);
}

/// A climb that the lower limit does not cut short takes no more than what is left.
pub proof fn law_climb_takes_what_is_left(
    cfg: CharacterController,
    left: Scalar,
    factor: Scalar,
    secs: Scalar,
)
    requires
        left.is_number(),
    ensures
        climb_distance(cfg, left, factor, secs).le(left) || climb_distance(cfg, left, factor, secs)
            == left - cfg.mantle_height + cfg.min_ledge_grab_space.y * num(TWO),
{
    reveal(climb_distance);
    reveal(Scalar::spec_min);
    reveal(Scalar::spec_lt);
    reveal(Scalar::spec_le);
    reveal(Scalar::spec_is_number);
}

/// Whether the tuning of mantles makes sense: the height to climb is no less than what the hands
/// take up, and not beyond all measure.
pub open spec fn firm(cfg: CharacterController) -> bool {
    &&& cfg.mantle_height.is_finite()
    &&& amount(cfg.mantle_height) <= 0x100_0000_0000_0000_0000_0000_0000_0000 as real
    &&& (cfg.min_ledge_grab_space.y * num(TWO)).is_finite()
    &&& 0 as real <= amount(cfg.min_ledge_grab_space.y)
    &&& 2 as real * amount(cfg.min_ledge_grab_space.y) <= amount(cfg.mantle_height)
}

/// How far rounding moves what is left to climb at most.
pub open spec fn give(cfg: CharacterController) -> real {
    amount(cfg.mantle_height) / 0x8_0000 as real + 2 as real * half_unit()
}

/// Whether what is left to climb is not negative, and no more than the height of a mantle less what
/// the hands take up, but for rounding.
pub open spec fn climbable(cfg: CharacterController, left: Scalar) -> bool {
    &&& left.is_finite()
    &&& 0 as real <= amount(left) + give(cfg)
    &&& amount(left) <= amount(cfg.mantle_height) - 2 as real * amount(cfg.min_ledge_grab_space.y)
        + give(cfg)
}

/// The height of a mantle, and a little more.
spec fn span(cfg: CharacterController) -> real {
    amount(cfg.mantle_height) + 2 as real * half_unit()
}

/// Numbers within a few times the height of a mantle have finite sums and differences.
#[verifier::spinoff_prover]
proof fn lemma_within_reach(cfg: CharacterController, a: Scalar, b: Scalar)
    requires
        firm(cfg),
        a.is_finite(),
        b.is_finite(),
        bounded(amount(a), 8 as real * span(cfg)),
        bounded(amount(b), 8 as real * span(cfg)),
    ensures
        (a + b).is_finite(),
        (a - b).is_finite(),
{
    lemma_scale_in_figures();
    lemma_extent(a);
    lemma_extent(b);
    lemma_sum_moderate(a, b);
}

/// What the hands take up, and the height below which they can hold on.
#[verifier::spinoff_prover]
proof fn lemma_reach(cfg: CharacterController)
    requires
        firm(cfg),
    ensures
        ({
            let height = amount(cfg.mantle_height);
            let wide = 2 as real * amount(cfg.min_ledge_grab_space.y);
            let grip = cfg.min_ledge_grab_space.y * num(TWO);
            let reach = cfg.mantle_height - grip;
            &&& grip.is_finite()
            &&& off(amount(grip), wide, height / 0x100_0000 as real + half_unit())
            &&& reach.is_finite()
            &&& off(amount(reach), height - wide, height / 0x40_0000 as real + half_unit())
        }),
{
    lemma_scale_in_figures();
    lemma_two();
    let height = amount(cfg.mantle_height);
    let y = amount(cfg.min_ledge_grab_space.y);
    let wide = 2 as real * y;
    let grip = cfg.min_ledge_grab_space.y * num(TWO);
    assert(y * 2 as real == wide) by (nonlinear_arith)
        requires
            wide == 2 as real * y,
    ;
    lemma_product_off(cfg.min_ledge_grab_space.y, num(TWO), height);
    lemma_within_reach(cfg, cfg.mantle_height, grip);
    lemma_difference_off(cfg.mantle_height, grip, 2 as real * span(cfg));
}

/// What a climb comes to: no more than what is left, and so little downwards that the hands still
/// hold on; or, where that limit cuts it short, what is missing to the limit.
#[verifier::spinoff_prover]
proof fn lemma_climb(cfg: CharacterController, left: Scalar, factor: Scalar, secs: Scalar)
    requires
        firm(cfg),
        climbable(cfg, left),
    ensures
        ({
            let climb = climb_distance(cfg, left, factor, secs);
            let height = amount(cfg.mantle_height);
            let wide = 2 as real * amount(cfg.min_ledge_grab_space.y);
            &&& climb.is_finite()
            &&& {
                ||| {
                    &&& climb.le(left)
                    &&& (left - climb).is_finite()
                    &&& amount(left - climb) <= height - wide + give(cfg)
                }
                ||| off(
                    amount(climb),
                    amount(left) - height + wide,
                    height / 0x10_0000 as real + half_unit(),
                )
            }
        }),
{
    broadcast use group_bits;

    reveal(climb_distance);
    lemma_reach(cfg);
    lemma_scale_in_figures();
    let height = amount(cfg.mantle_height);
    let grip = cfg.min_ledge_grab_space.y * num(TWO);
    let reach = cfg.mantle_height - grip;
    let wanted = (cfg.mantle_speed * secs * factor).min(left);
    if reach.lt(left - wanted) {
        lemma_within_reach(cfg, left, cfg.mantle_height);
        lemma_difference_off(left, cfg.mantle_height, 3 as real * span(cfg));
        lemma_within_reach(cfg, left - cfg.mantle_height, grip);
        lemma_sum_off(left - cfg.mantle_height, grip, 6 as real * span(cfg));
    } else {
        lemma_wanted(reach, left, wanted, cfg.mantle_speed * secs * factor);
        lemma_amounts_ordered(left - wanted, reach);
    }
}

/// A climb that the hands allow is finite.
proof fn lemma_wanted(reach: Scalar, left: Scalar, wanted: Scalar, asked: Scalar)
    requires
        reach.is_finite(),
        left.is_finite(),
        wanted == asked.min(left),
        !reach.lt(left - wanted),
    ensures
        wanted.is_finite(),
        wanted.le(left),
        (left - wanted).is_finite(),
        (left - wanted).le(reach),
{
    broadcast use group_bits;

    assert(wanted.le(left)) by {
        reveal(Scalar::spec_min);
        reveal(Scalar::spec_lt);
        reveal(Scalar::spec_le);
        reveal(Scalar::spec_is_finite);
    }
    if !wanted.is_finite() {
        assert(reach.lt(left - wanted)) by {
            reveal(Scalar::spec_is_finite);
            reveal(Scalar::spec_le);
            reveal(Scalar::spec_lt);
            reveal(Scalar::spec_sub);
            reveal(Scalar::spec_negated);
            reveal(ieee::sum);
        }
    }
    law_difference_not_negative(left, wanted);
    lemma_opposite(wanted);
    lemma_sum(left, wanted.negated());
    assert(left - wanted == left + wanted.negated()) by {
        reveal(Scalar::spec_sub);
        reveal(Scalar::spec_add);
    }
    reveal(Scalar::spec_is_finite);
    reveal(Scalar::spec_is_number);
    reveal(Scalar::spec_le);
    reveal(Scalar::spec_lt);
}

/// What is left after a climb that a cast may have stopped.
#[verifier::spinoff_prover]
proof fn lemma_left(
    cfg: CharacterController,
    left: Scalar,
    factor: Scalar,
    secs: Scalar,
    end: Option<MoveHitData>,
)
    requires
        firm(cfg),
        climbable(cfg, left),
        within(end, climb_distance(cfg, left, factor, secs).abs()),
    ensures
        climbable(
            cfg,
            left - travel_of(climb_distance(cfg, left, factor, secs), end),
        ),
{
    broadcast use group_bits;

    let climb = climb_distance(cfg, left, factor, secs);
    let travel = travel_of(climb, end);
    lemma_climb(cfg, left, factor, secs);
    lemma_travel(climb, end);
    lemma_reach(cfg);
    lemma_scale_in_figures();
    lemma_one();
    let height = amount(cfg.mantle_height);
    let none = num(ZERO);
    lemma_extent(none);
    lemma_opposite(none);
    law_plus_zero(left, none.negated());
    lemma_as_sum(left, none);
    assert((left - none).is_finite() && amount(left - none) == amount(left)) by {
        lemma_extent(left);
        lemma_extent(left - none);
        reveal(Scalar::spec_same);
    }
    let now = left - travel;
    if climb.le(left) && (left - climb).is_finite() && amount(left - climb) <= height - 2 as real
        * amount(cfg.min_ledge_grab_space.y) + give(cfg) {
        if minus(climb) {
            law_difference_ordered(left, travel, none);
            law_difference_ordered(left, climb, travel);
            lemma_between_finite(left - none, now, left - climb);
        } else {
            law_difference_ordered(left, none, travel);
            assert(travel.le(left)) by {
                reveal(Scalar::spec_le);
            }
            law_difference_not_negative(left, travel);
            lemma_between_finite(none, now, left - none);
        }
    } else {
        if minus(climb) {
            lemma_amounts_ordered(travel, none);
            lemma_amounts_ordered(climb, travel);
            lemma_within_reach(cfg, left, travel);
            law_difference_ordered(left, travel, none);
            lemma_amounts_ordered(left - none, now);
        } else {
            lemma_amounts_ordered(none, travel);
            lemma_amounts_ordered(travel, climb);
            lemma_within_reach(cfg, left, travel);
            law_difference_ordered(left, none, travel);
            lemma_amounts_ordered(now, left - none);
        }
        lemma_difference_off(left, travel, 7 as real * span(cfg));
    }
}

/// A number between finite numbers is finite, and its amount between theirs.
#[verifier::spinoff_prover]
proof fn lemma_between_finite(a: Scalar, b: Scalar, c: Scalar)
    requires
        a.is_finite(),
        c.is_finite(),
        a.le(b),
        b.le(c),
    ensures
        b.is_finite(),
        amount(a) <= amount(b),
        amount(b) <= amount(c),
{
    assert(b.is_finite()) by {
        reveal(Scalar::spec_is_finite);
        reveal(Scalar::spec_le);
    }
    lemma_amounts_ordered(a, b);
    lemma_amounts_ordered(b, c);
}

/// A climb leaves something to climb that is not negative, and no more than the height of a mantle
/// less what the hands take up, but for rounding, if that held before.
pub proof fn law_mantle_height(
    h: History,
    s: Step,
    wish_velocity: Vec3,
    left: Scalar,
    time: Time,
)
    requires
        firm(s.ctx.cfg),
        climbable(s.ctx.cfg, left),
        ({
            let factor = climb_factor(s.ctx, wish_velocity);
            let climb = climb_distance(s.ctx.cfg, left, factor, time.delta_secs);
            within(cast_move_model(h, s, up() * climb).1, climb.abs())
        }),
    ensures
        ({
            let t = mantle_climb_model(h, s, wish_velocity, left, time);
            &&& t.ctx.state.mantle matches Some(mantle) && climbable(
                s.ctx.cfg,
                mantle.height_left,
            )
            &&& t.ctx.mantle == s.ctx.mantle
        }),
{
    broadcast use group_casts;
    broadcast use lemma_grip_move_character;

    reveal(mantle_climb_model);
    let factor = climb_factor(s.ctx, wish_velocity);
    let climb = climb_distance(s.ctx.cfg, left, factor, time.delta_secs);
    let end = cast_move_model(h, s, up() * climb).1;
    lemma_left(s.ctx.cfg, left, factor, time.delta_secs, end);
}

/// Where a mantle goes on climbing from: with its hands on the wall that it holds on to, and moved
/// along with it. There is no such place if the wall is out of reach.
pub open spec fn held_at(h: History, s: Step, time: Time) -> Option<Step> {
    let reach = s.ctx.cfg.max_ledge_grab_distance;
    let (s1, wall) = closest_wall_normal_model(
        h,
        s.with_state(
            CharacterControllerState { mantle: None, ..s.ctx.state },
        ).with_velocity(zero()),
        reach,
    );
    match wall {
        None => None,
        Some((_, wall_normal)) => {
            let (s2, hit) = cast_move_model(h, s1, wall_normal.negated() * reach);
            match hit {
                None => None,
                Some(hit) => Some(mantle_carry_model(h, s2, wall_normal, hit, time)),
            }
        },
    }
}

/// A mantle goes on as a climb from where the character holds on to the wall, which it then
/// reports, or ends where there is no wall to hold on to.
pub proof fn law_mantle_goes_on(h: History, s: Step, wish_velocity: Vec3, time: Time)
    requires
        s.ctx.state.mantle is Some,
    ensures
        ({
            let t = handle_mantle_movement_model(h, s, wish_velocity, time);
            match held_at(h, s, time) {
                None => t.ctx.state.mantle is None,
                Some(held) => {
                    &&& t == mantle_climb_model(
                        h,
                        held,
                        wish_velocity,
                        s.ctx.state.mantle->Some_0.height_left,
                        time,
                    )
                    &&& held.ctx.mantle is Some
                    &&& held.ctx.cfg == s.ctx.cfg
                    &&& held.ctx.input.last_movement == s.ctx.input.last_movement
                    &&& held.ctx.state.orientation == s.ctx.state.orientation
                    &&& held.transform == s.transform
                },
            }
        }),
{
    broadcast use group_asks;
    broadcast use group_casts;
    broadcast use lemma_keeps_calculate_platform_movement;
    broadcast use lemma_grip_calculate_platform_movement;

    reveal(handle_mantle_movement_model);
    reveal(mantle_carry_model);
    reveal(calculate_platform_movement_model);
}

/// What is left to climb is within reach if it is not negative, and no more than the computed height
/// below which the hands can hold on.
#[verifier::spinoff_prover]
pub proof fn law_computed_reach(cfg: CharacterController, left: Scalar)
    requires
        firm(cfg),
        num(ZERO).le(left),
        left.le(cfg.mantle_height - cfg.min_ledge_grab_space.y * num(TWO)),
    ensures
        climbable(cfg, left),
{
    lemma_reach(cfg);
    lemma_one();
    lemma_scale_in_figures();
    lemma_extent(num(ZERO));
    lemma_between_finite(
        num(ZERO),
        left,
        cfg.mantle_height - cfg.min_ledge_grab_space.y * num(TWO),
    );
}

/// A mantle that goes on is reported, and what is left to climb is not negative, and no more than
/// the height of a mantle less what the hands take up, but for rounding, if that held before and
/// the cast along the climb was stopped within the climb. So climbing neither goes beyond the top
/// nor below the reach of the hands, however many steps it takes.
pub proof fn law_mantle_stays_in_reach(h: History, s: Step, wish_velocity: Vec3, time: Time)
    requires
        firm(s.ctx.cfg),
        s.ctx.state.mantle matches Some(mantle) ==> climbable(s.ctx.cfg, mantle.height_left) && (
        held_at(h, s, time) matches Some(held) ==> {
            let factor = climb_factor(held.ctx, wish_velocity);
            let climb = climb_distance(
                s.ctx.cfg,
                mantle.height_left,
                factor,
                time.delta_secs,
            );
            within(cast_move_model(h, held, up() * climb).1, climb.abs())
        }),
    ensures
        ({
            let t = handle_mantle_movement_model(h, s, wish_velocity, time);
            &&& t.ctx.cfg == s.ctx.cfg
            &&& t.ctx.state.mantle matches Some(mantle) ==> {
                &&& s.ctx.state.mantle is Some
                &&& t.ctx.mantle is Some
                &&& climbable(t.ctx.cfg, mantle.height_left)
            }
        }),
{
    broadcast use lemma_keeps_handle_mantle_movement;

    if let Some(mantle) = s.ctx.state.mantle {
        law_mantle_goes_on(h, s, wish_velocity, time);
        if let Some(held) = held_at(h, s, time) {
            law_mantle_height(h, held, wish_velocity, mantle.height_left, time);
        }
    } else {
        reveal(handle_mantle_movement_model);
    }
}

} // verus!
