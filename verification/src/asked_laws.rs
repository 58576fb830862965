//! What is asked of the surroundings, and what is made of the replies.
use crate::amounts::{amount, extent, lemma_extent};
use crate::casting::{
    body, cast_move_hands_model, cast_move_model, depenetrate_character_model, group_casts,
    is_intersecting_model, move_character_model, slid,
};
use crate::choice_laws::{hit_at, way_at};
use crate::climb::{handle_climbdown_model, mantle_carry_model};
use crate::clock::Time;
use crate::context::{Ctx, MoveHitData, WaterLevel};
use crate::direction_laws::{along, law_direction_along, measurable};
use crate::estimates::{lemma_compared, stands};
use crate::frame_laws::lemma_simple_amounts;
use crate::ground::{
    calculate_platform_movement_model, carrying, ground_movement_model, ground_reach, grounded_on,
    lifts_off, moving_ground, set_grounded_model, update_grounded_model,
};
use crate::ieee;
use crate::laws::{finite, lemma_zero_square};
use crate::ledge::{
    cast_probe_model, ledge_direction, ledge_floor_model, ledge_top_model, mantle_direction,
};
use crate::length_laws::lemma_zero_sum;
use crate::motion::{
    air_accelerate_model, forward, gravity_finished, gravity_started, valid_velocity,
    wish_velocity_3d_of, wish_velocity_of,
};
use crate::number_laws::{lemma_one, size};
use crate::ride_laws::lemma_sum_stands;
use crate::scalar::{group_bits, num, Scalar, ONE, ZERO};
use crate::stance::{handle_crouching_model, sliding_updated};
use crate::step::{
    advance_model, begun, collider_global_transform_model, ended, orient_model, prepare_model,
    settle_model, step_body_model,
};
use crate::vector::{down, up, zero, Quat, Vec3};
use crate::world::{
    ask_carry_point, ask_cast_move, ask_depenetrate, ask_overlaps, ask_platform, ask_pose,
    ask_slide, group_asks, History, Placement, Shape, Step,
};
use vstd::prelude::*;

verus! {

/// Whether a placement is that of the body of a character: where it is and how it is turned,
/// crouching or standing.
pub open spec fn placed(p: Placement, s: Step) -> bool {
    &&& p.entity == s.ctx.entity
    &&& p.position == s.transform.translation
    &&& p.rotation == s.transform.rotation
    &&& s.ctx.state.crouching ==> p.shape == Shape::Crouching
    &&& !s.ctx.state.crouching ==> p.shape == Shape::Standing
}

/// A cast asks what the body runs into on its way, skin included, and the reply is what it runs
/// into. The character and its body stay.
pub proof fn law_cast(h: History, s: Step, movement: Vec3)
    ensures
        ({
            let (t, hit) = cast_move_model(h, s, movement);
            let asked = h[s.at as int]->CastMove_query;
            &&& hit == h[s.at as int]->CastMove_reply
            &&& t.ok ==> {
                &&& h[s.at as int] is CastMove
                &&& placed(asked.placement, s)
                &&& asked.movement == movement
                &&& asked.skin_width == s.ctx.cfg.skin_width
            }
            &&& t.ctx == s.ctx && t.transform == s.transform && t.at == s.at + 1
        }),
{
    reveal(cast_move_model);
    reveal(ask_cast_move);
}

/// A cast of the hands asks what they run into, at the place of the body.
pub proof fn law_cast_hands(h: History, s: Step, movement: Vec3)
    ensures
        ({
            let (t, hit) = cast_move_hands_model(h, s, movement);
            let asked = h[s.at as int]->CastMove_query;
            &&& hit == h[s.at as int]->CastMove_reply
            &&& t.ok ==> {
                &&& h[s.at as int] is CastMove
                &&& asked.placement.shape == Shape::Hands
                &&& asked.placement.position == s.transform.translation
                &&& asked.placement.rotation == s.transform.rotation
                &&& asked.placement.entity == s.ctx.entity
                &&& asked.movement == movement
                &&& asked.skin_width == s.ctx.cfg.skin_width
            }
            &&& t.ctx == s.ctx && t.transform == s.transform && t.at == s.at + 1
        }),
{
    reveal(cast_move_hands_model);
    reveal(ask_cast_move);
}

/// A body that is freed from what it is inside of is moved by the reply, but for rounding, and
/// nothing else changes.
#[verifier::spinoff_prover]
pub proof fn law_freed(h: History, s: Step, m: real)
    requires
        ({
            let from = s.transform.translation;
            let by = h[s.at as int]->Depenetrate_reply;
            &&& finite(from + by)
            &&& extent(from.x) + extent(by.x) <= m
            &&& extent(from.y) + extent(by.y) <= m
            &&& extent(from.z) + extent(by.z) <= m
        }),
    ensures
        ({
            let t = depenetrate_character_model(h, s);
            let from = s.transform.translation;
            let by = h[s.at as int]->Depenetrate_reply;
            let to = t.transform.translation;
            &&& t.ok ==> h[s.at as int] is Depenetrate && placed(
                h[s.at as int]->Depenetrate_placement,
                s,
            )
            &&& stands(to.x, amount(from.x) + amount(by.x), m, 1 as real)
            &&& stands(to.y, amount(from.y) + amount(by.y), m, 1 as real)
            &&& stands(to.z, amount(from.z) + amount(by.z), m, 1 as real)
            &&& t.transform.rotation == s.transform.rotation && t.ctx == s.ctx
        }),
{
    reveal(depenetrate_character_model);
    reveal(ask_depenetrate);
    reveal(Vec3::spec_add);
    let from = s.transform.translation;
    let by = h[s.at as int]->Depenetrate_reply;
    lemma_sum_stands(from.x, by.x, m);
    lemma_sum_stands(from.y, by.y, m);
    lemma_sum_stands(from.z, by.z, m);
}

/// A slide asks where the velocity takes the body in the time of the step, along the ground that
/// the character stands on. The body ends where the reply says, with the velocity and the touches
/// that it brings.
pub proof fn law_slide(h: History, s: Step, time: Time)
    ensures
        ({
            let t = move_character_model(h, s, time);
            let asked = h[s.at as int]->Slide_query;
            let reply = h[s.at as int]->Slide_reply;
            &&& t.ok ==> {
                &&& h[s.at as int] is Slide
                &&& placed(asked.placement, s)
                &&& asked.velocity == s.ctx.velocity
                &&& asked.delta == time.delta
                &&& s.ctx.state.grounded is None ==> asked.ground is None
                &&& s.ctx.state.grounded matches Some(ground) ==> asked.ground == Some(
                    ground.normal1,
                )
            }
            &&& t.transform.translation == reply.position
            &&& t.ctx.velocity == reply.projected_velocity
            &&& t.ctx.touching == s.ctx.touching + reply.touched
        }),
{
    reveal(move_character_model);
    reveal(ask_slide);
    reveal(slid);
}

/// A body is in the way of something exactly if what it is inside of holds something other than
/// water.
pub proof fn law_intersects(h: History, s: Step)
    ensures
        ({
            let (t, inside) = is_intersecting_model(h, s);
            let found = h[s.at as int]->Overlaps_reply;
            &&& inside <==> exists|i: int| 0 <= i < found.len() && !(#[trigger] found[i]).water
            &&& t.ok ==> h[s.at as int] is Overlaps && placed(h[s.at as int]->Overlaps_placement, s)
        }),
{
    reveal(is_intersecting_model);
    reveal(ask_overlaps);
}

/// Whose movement counts: that of the ground that is stood on from now on, else of the one just
/// left. Without either nothing is asked and the ground's velocity stays.
pub proof fn law_ground_asked(h: History, s: Step, new_ground: Option<MoveHitData>, time: Time)
    ensures
        ({
            let t = ground_movement_model(h, s, new_ground, time);
            &&& new_ground is None && s.ctx.state.grounded is None ==> t == s
            &&& t.ok && (new_ground is Some || s.ctx.state.grounded is Some) ==> {
                &&& h[s.at as int] is Platform
                &&& new_ground matches Some(ground) ==> h[s.at as int]->Platform_entity
                    == ground.entity
                &&& new_ground is None ==> h[s.at as int]->Platform_entity
                    == s.ctx.state.grounded->Some_0.entity
            }
            &&& h[s.at as int]->Platform_reply is None ==> t.ctx == s.ctx
        }),
{
    broadcast use group_asks;

    reveal(ground_movement_model);
    reveal(moving_ground);
    reveal(ask_platform);
    reveal(calculate_platform_movement_model);
}

/// Ground is looked for straight below, as far as ground is reached.
pub proof fn law_ground_looked_for(h: History, s: Step, time: Time)
    requires
        !s.ctx.water.above_feet(),
        s.ctx.velocity.y.le(s.ctx.cfg.unground_speed),
    ensures
        update_grounded_model(h, s, time).ok ==> h[s.at as int]->CastMove_query.movement == down()
            * ground_reach(s.ctx, time.delta_secs),
{
    broadcast use group_asks;

    reveal(update_grounded_model);
    reveal(cast_move_model);
    reveal(ask_cast_move);
    reveal(Scalar::spec_le);
    reveal(Scalar::spec_lt);
    reveal(lifts_off);
    reveal(set_grounded_model);
    reveal(ground_movement_model);
    reveal(calculate_platform_movement_model);
}

/// The pose of a character is that of its first collider, without any scale; a character without a
/// collider, or with one that has no pose, has none.
pub proof fn law_pose(h: History, s: Step)
    ensures
        ({
            let (t, pose) = collider_global_transform_model(h, s);
            let reply = h[s.at as int]->Pose_reply;
            &&& s.ctx.colliders.len() == 0 ==> pose is None && t == s
            &&& s.ctx.colliders.len() > 0 ==> {
                &&& t.ok ==> h[s.at as int] is Pose && h[s.at as int]->Pose_entity
                    == s.ctx.colliders[0]
                &&& pose is Some <==> reply is Some
                &&& reply matches Some((translation, rotation)) ==> {
                    &&& pose->Some_0.translation == translation
                    &&& pose->Some_0.rotation == rotation
                    &&& pose->Some_0.scale.x == num(ONE)
                    &&& pose->Some_0.scale.y == num(ONE)
                    &&& pose->Some_0.scale.z == num(ONE)
                }
            }
        }),
{
    reveal(collider_global_transform_model);
    reveal(ask_pose);
}

/// A slide starts exactly on the ground, crouching, at its smallest speed or faster, and after its
/// cooldown; one that goes on ends exactly where the character stands up or gets too slow.
pub proof fn law_slide_state(c: Ctx)
    ensures
        ({
            let speed = c.velocity.xz().length();
            let after = sliding_updated(c).state.sliding;
            &&& !c.state.sliding ==> (after <==> c.state.crouching && c.state.grounded is Some
                && c.cfg.slide_min_speed.le(speed) && !c.state.last_slide.elapsed.lt(
                c.cfg.slide_cooldown,
            ))
            &&& c.state.sliding ==> (after <==> c.state.crouching && !speed.lt(
                c.cfg.slide_end_speed,
            ))
        }),
{
    reveal(sliding_updated);
}

/// Water counts as above the feet from the center on. A cast starts inside of what it hits exactly
/// if it hits at no distance, skin aside. The size of a body is that of its current shape.
pub proof fn law_plain(c: Ctx, hit: MoveHitData)
    ensures
        WaterLevel::Center.above_feet() && WaterLevel::Head.above_feet(),
        !WaterLevel::Dry.above_feet() && !WaterLevel::Feet.above_feet(),
        hit.collision_distance.is_finite() ==> (hit.intersects() <==> amount(
            hit.collision_distance,
        ) == 0 as real),
        c.state.crouching ==> c.derived.radius(c.state) == c.derived.crouching.radius
            && c.derived.pos_to_head_dist(c.state) == c.derived.crouching.pos_to_head_dist,
        !c.state.crouching ==> c.derived.radius(c.state) == c.derived.standing.radius
            && c.derived.pos_to_head_dist(c.state) == c.derived.standing.pos_to_head_dist,
{
    if hit.collision_distance.is_finite() {
        let d = hit.collision_distance;
        lemma_simple_amounts();
        lemma_one();
        reveal(Scalar::spec_is_finite);
        reveal(Scalar::spec_same);
        reveal(Scalar::spec_le);
        lemma_compared(d, num(ZERO));
        lemma_compared(num(ZERO), d);
    }
}

/// Without a wish nothing pushes in the air.
pub proof fn law_no_push(
    h: History,
    s: Step,
    wish_velocity: Vec3,
    accel: Scalar,
    time: Time,
)
    requires
        wish_velocity.direction_and_length() is None,
    ensures
        air_accelerate_model(h, s, wish_velocity, accel, time) == s,
{
    reveal(air_accelerate_model);
}

/// How the top of a ledge is looked for. The probe goes up as far as it may, or until it hits. From
/// there it is moved into the wall, against its normal, by the depth that is needed, and goes down
/// by as much as it went up. The top is found where it hits, above the start by what it went up
/// less what it went down. The body stays.
pub proof fn law_ledge_top(
    h: History,
    s: Step,
    hands: bool,
    wall_normal: Vec3,
    depth: Scalar,
    max_height: Scalar,
)
    ensures
        ({
            let (t, top) = ledge_top_model(h, s, hands, wall_normal, depth, max_height);
            let first = h[s.at as int]->CastMove_query;
            let second = h[(s.at + 1) as int]->CastMove_query;
            let way = way_at(h, s.at, max_height);
            let from = s.transform.translation;
            &&& t.ok ==> {
                &&& first.movement == up() * max_height
                &&& first.placement.position == from
                &&& second.movement == down() * way
                &&& second.placement.position == from + up() * way + wall_normal.negated() * depth
                &&& hands <==> first.placement.shape == Shape::Hands
                &&& hands <==> second.placement.shape == Shape::Hands
            }
            &&& top is Some <==> hit_at(h, s.at + 1) is Some
            &&& top matches Some(height) ==> height == way - way_at(h, s.at + 1, num(ZERO))
            &&& t.transform == s.transform && t.ctx == s.ctx && t.at == s.at + 2
        }),
{
    reveal(ledge_top_model);
    reveal(cast_probe_model);
    reveal(cast_move_model);
    reveal(cast_move_hands_model);
    reveal(ask_cast_move);
}

/// How a floor behind a ledge is looked for: raised to the height of the ledge, the probe has to be
/// free to move into the wall by the depth that is needed, and then goes down by that height until
/// it hits the floor. The body stays.
pub proof fn law_ledge_floor(
    h: History,
    s: Step,
    hands: bool,
    wall_normal: Vec3,
    depth: Scalar,
    height: Scalar,
)
    ensures
        ({
            let (t, floor) = ledge_floor_model(h, s, hands, wall_normal, depth, height);
            let first = h[s.at as int]->CastMove_query;
            let second = h[(s.at + 1) as int]->CastMove_query;
            let from = s.transform.translation;
            let top = from.with_y(from.y + height);
            let into = wall_normal.negated() * depth;
            &&& t.ok ==> first.movement == into && first.placement.position == top
            &&& hit_at(h, s.at) is Some ==> floor is None
            &&& hit_at(h, s.at) is None ==> floor == hit_at(h, s.at + 1)
            &&& hit_at(h, s.at) is None && t.ok ==> second.movement == down() * height
                && second.placement.position == top + into
            &&& t.transform == s.transform && t.ctx == s.ctx
        }),
{
    reveal(ledge_floor_model);
    reveal(cast_probe_model);
    reveal(cast_move_model);
    reveal(cast_move_hands_model);
    reveal(ask_cast_move);
}

/// The way that ledges are looked for: along the wish, else along the horizontal velocity; to
/// mantle, along the wish, else ahead of the look, horizontally. Vectors so short that their
/// squares lose digits are left out.
#[verifier::spinoff_prover]
pub proof fn law_ways(wish_velocity: Vec3, velocity: Vec3, orientation: Quat)
    ensures
        measurable(wish_velocity) ==> {
            let k = 1 as real / extent(wish_velocity.length());
            &&& ledge_direction(wish_velocity, velocity) matches Some(dir) && along(
                dir,
                wish_velocity,
                k,
            )
            &&& mantle_direction(wish_velocity, orientation) == ledge_direction(
                wish_velocity,
                velocity,
            )
        },
        wish_velocity == zero() && measurable(velocity.flat()) ==> {
            let k = 1 as real / extent(velocity.flat().length());
            ledge_direction(wish_velocity, velocity) matches Some(dir) && along(
                dir,
                velocity.flat(),
                k,
            )
        },
        wish_velocity == zero() && measurable(forward(orientation).flat()) ==> {
            let look = forward(orientation).flat();
            let k = 1 as real / extent(look.length());
            mantle_direction(wish_velocity, orientation) matches Some(dir) && along(dir, look, k)
        },
{
    if measurable(wish_velocity) {
        law_direction_along(wish_velocity);
    }
    if measurable(velocity.flat()) {
        law_direction_along(velocity.flat());
    }
    if measurable(forward(orientation).flat()) {
        law_direction_along(forward(orientation).flat());
    }
    lemma_no_direction();
}

/// The zero vector has no direction.
#[verifier::spinoff_prover]
proof fn lemma_no_direction()
    ensures
        zero().direction() is None,
{
    broadcast use group_bits;

    lemma_zero_square();
    let none = num(ZERO) * num(ZERO);
    lemma_zero_sum(none, none);
    lemma_zero_sum(none + none, none);
    let squared = zero().length_squared();
    assert(size(squared) == 0) by {
        reveal(Vec3::spec_length_squared);
        reveal(Vec3::spec_dot);
    }
    assert(size(squared.sqrt()) == 0) by {
        reveal(Scalar::spec_sqrt);
        reveal(ieee::root);
    }
    let len = zero().length();
    assert(len == squared.sqrt()) by {
        reveal(Vec3::spec_length);
        reveal(Vec3::spec_length_squared);
    }
    lemma_one();
    assert(num(ZERO).is_finite() && len.is_finite()) by {
        reveal(Scalar::spec_is_finite);
    }
    lemma_extent(len);
    lemma_extent(num(ZERO));
    lemma_compared(num(ZERO), len);
    reveal(Vec3::spec_direction);
    reveal(Vec3::spec_direction_and_length);
}

/// A mantle that is carried reports the wall that it holds on to and the point where it does, and
/// moves along with that wall as with a ground.
pub proof fn law_mantle_carried(
    h: History,
    s: Step,
    wall_normal: Vec3,
    hit: MoveHitData,
    time: Time,
)
    ensures
        ({
            let t = mantle_carry_model(h, s, wall_normal, hit, time);
            &&& t.ctx.mantle matches Some(output) && output.wall_normal == wall_normal
                && output.ledge_position == hit.point1 && output.wall_entity == hit.entity
            &&& t.ok ==> h[s.at as int] is Platform && h[s.at as int]->Platform_entity
                == hit.entity
            &&& h[s.at as int]->Platform_reply is None ==> t.ctx.state == s.ctx.state
            &&& t.ok && h[s.at as int]->Platform_reply is Some ==> {
                let asked = h[(s.at + 1) as int]->CarryPoint_query;
                &&& h[(s.at + 1) as int] is CarryPoint
                &&& asked.point == s.transform.translation.with_y(hit.point1.y)
            }
            &&& t.transform == s.transform && t.ctx.velocity == s.ctx.velocity
        }),
{
    reveal(mantle_carry_model);
    reveal(ask_platform);
    reveal(calculate_platform_movement_model);
    reveal(carrying);
    reveal(ask_carry_point);
}

/// As a step is prepared the body is freed and the ground below it is found, the stance follows,
/// and gravity pulls, once, but not in water that is above the feet. The look is taken last.
pub proof fn law_prepared(h: History, s: Step, time: Time)
    ensures
        ({
            let t = prepare_model(h, s, time);
            let freed = depenetrate_character_model(h, s.with_ctx(begun(s.ctx, time.delta)));
            let placed = update_grounded_model(h, freed, time);
            let stance = handle_crouching_model(h, placed).ctx;
            &&& t.transform == freed.transform
            &&& t.ctx.state.grounded == placed.ctx.state.grounded
            &&& t.ctx.state.crouching == stance.state.crouching
            &&& t.ctx.state.sliding == sliding_updated(stance).state.sliding
            &&& s.ctx.water.above_feet() ==> t.ctx.velocity == sliding_updated(stance).velocity
            &&& !s.ctx.water.above_feet() ==> t.ctx.velocity == gravity_started(
                sliding_updated(stance),
                time.delta_secs,
            ).velocity
            &&& t.ctx.input == s.ctx.input
        }),
{
    broadcast use {group_asks, group_casts};

    reveal(prepare_model);
    reveal(orient_model);
    reveal(begun);
    reveal(sliding_updated);
    reveal(gravity_started);
    reveal(update_grounded_model);
    reveal(set_grounded_model);
    reveal(ground_movement_model);
    reveal(calculate_platform_movement_model);
    reveal(grounded_on);
    reveal(handle_crouching_model);
}

/// As a step settles the ground below is found again. A character that stood on ground until now
/// may climb down from it; another one stays where it is. Then the velocity is kept within the
/// highest speed and gravity pulls once more, but not in water that is above the feet; on the
/// ground the vertical velocity becomes that of the ground.
pub proof fn law_settled(h: History, s: Step, wish_velocity: Vec3, time: Time)
    ensures
        ({
            let t = settle_model(h, s, wish_velocity, time);
            let placed = update_grounded_model(h, s, time);
            let lower = handle_climbdown_model(h, placed, wish_velocity, time);
            let end = if s.ctx.state.grounded is Some {
                lower
            } else {
                placed
            };
            let c = end.ctx;
            let limited = c.with_velocity(valid_velocity(c.velocity, c.cfg.max_speed));
            &&& t.transform == end.transform && t.at == end.at && t.ok == end.ok
            &&& t.ctx.state.mantle == c.state.mantle && t.ctx.state.grounded == c.state.grounded
            &&& c.state.grounded is None && c.water.above_feet() ==> t.ctx.velocity
                == limited.velocity
            &&& c.state.grounded is None && !c.water.above_feet() ==> t.ctx.velocity
                == gravity_finished(limited, time.delta_secs).velocity
            &&& c.state.grounded is Some ==> t.ctx.velocity.y == c.state.platform_velocity.y
                && t.ctx.state.last_ground == c.state.last_ground.restarted()
        }),
{
    reveal(settle_model);
    reveal(ended);
    reveal(gravity_finished);
}

/// Who follows whom in a step: what a character wishes for is taken once it is prepared, and goes
/// into everything that it does, and what it does is settled last.
pub proof fn law_step_order(h: History, s: Step, default_friction: Scalar, time: Time)
    ensures
        ({
            let ready = prepare_model(h, s, time);
            let flat = wish_velocity_of(ready.ctx);
            let deep = wish_velocity_3d_of(ready.ctx);
            step_body_model(h, s, default_friction, time) == settle_model(
                h,
                advance_model(h, ready, flat, deep, default_friction, time),
                flat,
                time,
            )
        }),
{
    reveal(step_body_model);
}

} // verus!
