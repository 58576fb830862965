//! How a crane lifts a character, and what a slide leaves behind.
use crate::amounts::{amount, extent, lemma_amounts_ordered, lemma_extent, lemma_product_bounded};
use crate::casting::{cast_move_model, move_character_model, slid, TAC_DECAY};
use crate::climb::crane_up_model;
use crate::clock::Time;
use crate::context::{Ctx, MoveHitData};
use crate::direction_laws::{lemma_measured, measurable};
use crate::estimates::{
    least, lemma_added, lemma_least, lemma_nudge, lemma_stands, lemma_taken, nudge, stands,
};
use crate::figures::law_constants;
use crate::frame_laws::{lemma_exact_sum, lemma_simple_amounts};
use crate::gravity_laws::lemma_difference_finite;
use crate::jump_laws::lemma_summand_finite;
use crate::laws::finite;
use crate::ledge::{hand_reach, mantle_onto};
use crate::length_laws::{lemma_factor_finite, squared_length};
use crate::number_laws::lemma_one;
use crate::reach_laws::lemma_one_times;
use crate::ride_laws::{lemma_difference_stands, lemma_sum_stands, lemma_turn_stands};
use crate::scalar::{group_bits, num, Scalar, ZERO};
use crate::slope_laws::lemma_nothing_times;
use crate::vector::{up, Vec3};
use crate::world::{ask_cast_move, ask_slide, History, SlideReply, Step};
use vstd::prelude::*;

verus! {

/// Whether a crane works within the measure `m`: its speed, the height left and where it is.
pub open spec fn lifts_within(s: Step, height: Scalar, time: Time, m: real) -> bool {
    &&& extent(s.ctx.cfg.crane_speed) <= m / 4 as real
    &&& height.is_finite() && amount(height) >= 0 as real && amount(height) <= m / 4 as real
    &&& extent(s.transform.translation.y) <= m / 4 as real
    &&& finite(s.transform.translation)
    &&& (s.ctx.cfg.crane_speed * time.delta_secs).is_finite()
    &&& amount(time.delta_secs) >= 0 as real
    &&& amount(time.delta_secs) <= 1 as real
}

/// A crane lifts a character by its speed times the time, but no farther than the height that is
/// left, and as far as there is room. What it rose is taken from the height that is left; nothing
/// is left below a ceiling. It rises straight up, is carried along with the ground's own velocity,
/// and keeps its own, but for rounding.
#[verifier::spinoff_prover]
pub proof fn law_crane_lifts(h: History, s: Step, height: Scalar, time: Time, m: real)
    requires
        lifts_within(s, height, time, m),
        crane_up_model(h, s, height, time).ok,
        ({
            let room = h[s.at as int]->CastMove_reply;
            let slide = h[s.at as int + 1]->Slide_query;
            &&& slide.placement.position.y.is_finite()
            &&& room matches Some(hit) ==> hit.distance.is_finite() && extent(hit.distance) <= m
                / 4 as real
            &&& room is None ==> (height - (s.ctx.cfg.crane_speed * time.delta_secs).min(
                height,
            )).is_finite()
        }),
    ensures
        ({
            let after = crane_up_model(h, s, height, time);
            let asked = h[s.at as int]->CastMove_query;
            let room = h[s.at as int]->CastMove_reply;
            let slide = h[s.at as int + 1]->Slide_query;
            let way = least(
                amount(s.ctx.cfg.crane_speed) * amount(time.delta_secs),
                amount(height),
            );
            let rise = match room {
                Some(hit) => amount(hit.distance),
                None => way,
            };
            &&& amount(asked.movement.x) == 0 as real && amount(asked.movement.z) == 0 as real
            &&& stands(asked.movement.y, way, m, 1 as real)
            &&& slide.velocity == s.ctx.state.platform_velocity
            &&& stands(
                slide.placement.position.y,
                amount(s.transform.translation.y) + rise,
                m,
                2 as real,
            )
            &&& amount(slide.placement.position.x) == amount(s.transform.translation.x)
            &&& amount(slide.placement.position.z) == amount(s.transform.translation.z)
            &&& after.ctx.velocity == s.ctx.velocity
            &&& after.ctx.state.crane_height_left matches Some(left) && if room is Some {
                amount(left) == 0 as real
            } else {
                stands(left, amount(height) - way, m, 2 as real)
            }
        }),
{
    broadcast use group_bits;

    reveal(crane_up_model);
    reveal(cast_move_model);
    reveal(move_character_model);
    reveal(ask_cast_move);
    reveal(ask_slide);
    reveal(slid);
    reveal(Vec3::spec_add);
    reveal(Vec3::spec_mul);
    lemma_simple_amounts();
    lemma_nudge(m);
    let secs = time.delta_secs;
    let cs = s.ctx.cfg.crane_speed;
    lemma_extent(cs);
    lemma_extent(height);
    let t = s.transform.translation;
    lemma_extent(t.y);
    lemma_turn_stands(cs, secs, m);
    lemma_stands(height, m);
    let n = nudge(m);
    assert(stands(height, amount(height), m, 1 as real)) by {
        assert(0 as real * n == 0 as real) by (nonlinear_arith);
        assert(1 as real * n == n) by (nonlinear_arith);
    }
    lemma_product_bounded(amount(cs), amount(secs), m / 4 as real, 1 as real);
    let way = least(amount(cs) * amount(secs), amount(height));
    lemma_least(cs * secs, height, amount(cs) * amount(secs), amount(height), m, 1 as real);
    let reach = (cs * secs).min(height);
    lemma_one_times(reach);
    lemma_nothing_times(reach);
    let room = h[s.at as int]->CastMove_reply;
    let travel = match room {
        Some(hit) => hit.distance,
        None => reach,
    };
    let rise = match room {
        Some(hit) => amount(hit.distance),
        None => way,
    };
    lemma_one_times(travel);
    lemma_nothing_times(travel);
    lemma_exact_sum(t.x, num(ZERO) * travel);
    lemma_exact_sum(t.z, num(ZERO) * travel);
    lemma_extent(travel);
    lemma_stands(t.y, m);
    if room is Some {
        lemma_stands(travel, m);
        lemma_added(t.y, travel, amount(t.y), rise, m, 0 as real, 0 as real);
        assert(1 as real * n <= 2 as real * n);
    } else {
        lemma_added(t.y, travel, amount(t.y), rise, m, 0 as real, 1 as real);
        lemma_taken(height, travel, amount(height), way, m, 0 as real, 1 as real);
        lemma_left(height - travel, amount(height) - way, m);
    }
}

#[verifier::spinoff_prover]
proof fn lemma_left(a: Scalar, x: real, m: real)
    requires
        stands(a, x, m, 2 as real),
        x >= 0 as real,
    ensures
        stands(a.max(num(ZERO)), x, m, 2 as real),
{
    broadcast use group_bits;

    lemma_one();
    lemma_simple_amounts();
    lemma_nudge(m);
    assert(num(ZERO).is_finite()) by {
        reveal(Scalar::spec_is_finite);
    }
    let n = nudge(m);
    assert(2 as real * n >= 0 as real) by (nonlinear_arith)
        requires
            n > 0 as real,
    ;
    lemma_least(a, num(ZERO), x, 0 as real, m, 2 as real);
}

/// What is left to climb onto a floor: the height of the ledge, less how far the head is above the
/// position, and as much farther as the hands pull up, but for rounding. There is a mantle exactly
/// where the floor is walkable and that is not negative, and it reports the wall and the ledge.
#[verifier::spinoff_prover]
pub proof fn law_mantle_onto(c: Ctx, wall_normal: Vec3, height: Scalar, floor: MoveHitData, m: real)
    requires
        ({
            let head = c.derived.pos_to_head_dist(c.state);
            let pull = c.cfg.climb_pull_up_height;
            &&& (height - head + pull).is_finite()
            &&& 2 as real * (extent(height) + extent(head) + extent(pull)) <= m
        }),
    ensures
        ({
            let head = amount(c.derived.pos_to_head_dist(c.state));
            let left = amount(height) - head + amount(c.cfg.climb_pull_up_height);
            let found = mantle_onto(c, wall_normal, height, floor);
            &&& found matches Some((state, output)) ==> {
                &&& stands(state.height_left, left, m, 2 as real)
                &&& !floor.normal1.y.lt(c.cfg.min_walk_cos)
                &&& output.wall_normal == wall_normal
                &&& output.ledge_position == floor.point1
                &&& output.wall_entity == floor.entity
            }
            &&& found is Some ==> left >= 0 as real - 2 as real * nudge(m)
            &&& left > 2 as real * nudge(m) && c.cfg.min_walk_cos.le(floor.normal1.y)
                ==> found is Some
        }),
{
    broadcast use group_bits;

    reveal(mantle_onto);
    lemma_one();
    lemma_simple_amounts();
    let head = c.derived.pos_to_head_dist(c.state);
    let pull = c.cfg.climb_pull_up_height;
    let d = height - head;
    lemma_summand_finite(d, pull);
    lemma_extent(height);
    lemma_extent(head);
    lemma_extent(pull);
    lemma_difference_finite(height, head);
    lemma_difference_stands(height, head, m);
    lemma_stands(pull, m);
    lemma_added(d, pull, amount(height) - amount(head), amount(pull), m, 1 as real, 0 as real);
    let left = d + pull;
    assert(num(ZERO).is_finite()) by {
        reveal(Scalar::spec_is_finite);
    }
    reveal(Scalar::spec_lt);
    reveal(Scalar::spec_le);
    reveal(Scalar::spec_is_finite);
    if left.lt(num(ZERO)) {
        lemma_amounts_ordered(left, num(ZERO));
    } else {
        lemma_amounts_ordered(num(ZERO), left);
    }
}

/// How far the hands reach from the body's center onto a ledge: the body's radius, the skin and the
/// depth that the hands need, but for rounding.
#[verifier::spinoff_prover]
pub proof fn law_hand_reach(c: Ctx, m: real)
    requires
        hand_reach(c).is_finite(),
        2 as real * (extent(c.derived.radius(c.state)) + extent(c.cfg.skin_width) + extent(
            c.cfg.min_ledge_grab_space.z,
        )) <= m,
    ensures
        stands(
            hand_reach(c),
            amount(c.derived.radius(c.state)) + amount(c.cfg.skin_width) + amount(
                c.cfg.min_ledge_grab_space.z,
            ),
            m,
            2 as real,
        ),
{
    reveal(hand_reach);
    let (a, b, d) = (c.derived.radius(c.state), c.cfg.skin_width, c.cfg.min_ledge_grab_space.z);
    lemma_summand_finite(a + b, d);
    lemma_summand_finite(a, b);
    lemma_extent(a);
    lemma_extent(b);
    lemma_extent(d);
    lemma_sum_stands(a, b, m);
    lemma_stands(d, m);
    lemma_added(a + b, d, amount(a) + amount(b), amount(d), m, 1 as real, 0 as real);
}

/// A slide builds up readiness for a tic tac: what was built up decays by one hundredth, and the
/// length of what the slide took from the velocity is added, but for rounding. The velocity before
/// the slide is remembered, and what the slide touched is added to what was touched before. A slide
/// that takes so little that its square loses digits is left out.
#[verifier::spinoff_prover]
pub proof fn law_slide_builds_up(c: Ctx, out: SlideReply, m: real)
    requires
        measurable(c.velocity - out.projected_velocity),
        slid(c, out).state.tac_velocity.is_finite(),
        2 as real * (extent(c.state.tac_velocity) + extent(
            (c.velocity - out.projected_velocity).length(),
        )) <= m,
    ensures
        ({
            let after = slid(c, out);
            let taken = c.velocity - out.projected_velocity;
            let r = amount(taken.length());
            &&& stands(
                after.state.tac_velocity,
                amount(c.state.tac_velocity) * (99 as real / 100 as real) + r,
                m,
                4 as real,
            )
            &&& squared_length(taken) <= r * r + (r * r) / 0x10_0000 as real
            &&& r * r <= squared_length(taken) + (r * r) / 0x10_0000 as real
            &&& r >= 0 as real
            &&& after.velocity == out.projected_velocity
            &&& after.state.last_velocity == c.velocity
            &&& after.touching == c.touching + out.touched
            &&& after.state.grounded == c.state.grounded
        }),
{
    reveal(slid);
    law_constants();
    let taken = c.velocity - out.projected_velocity;
    lemma_measured(taken);
    let r = taken.length();
    let t = c.state.tac_velocity;
    let decay = num(TAC_DECAY);
    lemma_summand_finite(t * decay, r);
    lemma_factor_finite(t, decay);
    lemma_extent(t);
    lemma_extent(r);
    lemma_turn_stands(t, decay, m);
    let (x, f) = (amount(t), amount(decay));
    let g = 99 as real / 100 as real;
    let e = f - g;
    lemma_product_bounded(x, e, extent(t), 1 as real / 0x100_0000 as real);
    assert(x * f == x * g + x * e) by (nonlinear_arith)
        requires
            e == f - g,
    ;
    lemma_product_bounded(x, g, extent(t), 1 as real);
    lemma_nudge(m);
    let n = nudge(m);
    assert(stands(t * decay, x * g, m, 2 as real));
    lemma_stands(r, m);
    lemma_added(t * decay, r, x * g, amount(r), m, 2 as real, 0 as real);
    assert(3 as real * n <= 4 as real * n);
}

} // verus!
