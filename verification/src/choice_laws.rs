//! What a character does with what it is told about its surroundings.
use crate::casting::{
    cast_move_hands_model, cast_move_model, closest_wall, closest_wall_normal_model,
    depenetrate_character_model, snap_to_ground_model,
};
use crate::climb::{climbs_down, handle_climbdown_model, mantling};
use crate::clock::Time;
use crate::context::{Ctx, MoveHitData};
use crate::ground::{
    calculate_platform_movement_model, ground_movement_model, ground_reach, lifts_off,
    set_grounded_model, update_grounded_model,
};
use crate::jump::{
    bounce_ready, bounced, handle_bounce_model, handle_tac_model, tac_off, tac_ready,
    tac_wall_model, TENTH,
};
use crate::laws::law_ground_contact;
use crate::ledge::{
    available_ledge_height_model, available_mantle_height_model, cast_probe_model,
    ledge_along_model, ledge_behind_model, ledge_direction, ledge_floor_model, ledge_top_model,
    mantle_along_model, mantle_direction, mantle_onto, probe_velocity,
};
use crate::motion::surface_friction_model;
use crate::scalar::{num, Scalar, ZERO};
use crate::vector::{down, up, Vec3};
use crate::world::{
    ask_body_friction, ask_cast_move, ask_collider_friction, ask_contacts, ask_depenetrate,
    group_asks, History, Step,
};
use vstd::prelude::*;

verus! {

/// What the cast at a place of a history hit.
pub open spec fn hit_at(h: History, at: nat) -> Option<MoveHitData> {
    h[at as int]->CastMove_reply
}

/// How far a cast goes until it hits.
pub open spec fn way_at(h: History, at: nat, whole: Scalar) -> Scalar {
    match hit_at(h, at) {
        Some(hit) => hit.distance,
        None => whole,
    }
}

/// A character that does not rise too fast, with its feet out of the water, stands on what is below
/// it exactly if that is walkable.
pub proof fn law_stands_on_ground(h: History, s: Step, time: Time)
    requires
        !s.ctx.water.above_feet(),
        s.ctx.velocity.y.le(s.ctx.cfg.unground_speed),
    ensures
        ({
            let t = update_grounded_model(h, s, time);
            &&& hit_at(h, s.at) matches Some(ground) ==> if s.ctx.cfg.min_walk_cos.le(
                ground.normal1.y,
            ) {
                t.ctx.state.grounded == Some(ground)
            } else {
                t.ctx.state.grounded is None
            }
            &&& hit_at(h, s.at) is None ==> t.ctx.state.grounded is None
            &&& t.ok ==> h[s.at as int] is CastMove
            &&& t.ok ==> h[s.at as int]->CastMove_query.placement.position
                == s.transform.translation
        }),
{
    broadcast use group_asks;

    reveal(update_grounded_model);
    reveal(cast_move_model);
    reveal(ask_cast_move);
    reveal(Scalar::spec_le);
    reveal(Scalar::spec_lt);
    reveal(lifts_off);
    let c = s.ctx;
    let (t, hit) = cast_move_model(
        h,
        s,
        down() * ground_reach(c, time.delta_secs),
    );
    let new_ground = match hit {
        Some(ground) => if c.cfg.min_walk_cos.le(ground.normal1.y) {
            Some(ground)
        } else {
            None
        },
        None => None,
    };
    law_ground_contact(h, t, new_ground, time);
    reveal(set_grounded_model);
    reveal(ground_movement_model);
    reveal(calculate_platform_movement_model);
}

/// A character in the water or that rises too fast stands on nothing.
pub proof fn law_leaves_ground(h: History, s: Step, time: Time)
    requires
        s.ctx.water.above_feet() || (s.ctx.cfg.unground_speed.lt(s.ctx.velocity.y) && (
        s.ctx.state.grounded is Some ==> s.ctx.cfg.unground_speed.lt(
            s.ctx.velocity.y - s.ctx.state.platform_velocity.y,
        ))),
    ensures
        update_grounded_model(h, s, time).ctx.state.grounded is None,
{
    reveal(update_grounded_model);
    reveal(lifts_off);
    law_ground_contact(h, s, None, time);
}

/// Walkable ground below that is farther than the distance that counts as standing on it, and that
/// the body is not inside of, is stepped down to: the body is raised, as far as there is room, and
/// lowered until it hits. Without such ground the body stays.
pub proof fn law_snaps_to_ground(h: History, s: Step)
    ensures
        ({
            let t = snap_to_ground_model(h, s);
            let cfg = s.ctx.cfg;
            let rise = way_at(h, s.at, cfg.ground_distance);
            let landed = s.transform.translation + up() * rise + down() * way_at(
                h,
                s.at + 1,
                num(ZERO),
            );
            &&& hit_at(h, s.at + 1) is None ==> t.transform == s.transform && t.ctx == s.ctx
            &&& hit_at(h, s.at + 1) matches Some(hit) ==> if !hit.intersects()
                && !hit.normal1.y.lt(cfg.min_walk_cos) && !hit.distance.le(cfg.ground_distance) {
                &&& t.transform.translation == landed
                    + h[(s.at + 2) as int]->Depenetrate_reply
                &&& t.ctx.velocity == s.ctx.velocity
                &&& t.ok ==> h[(s.at + 2) as int] is Depenetrate
                    && h[(s.at + 2) as int]->Depenetrate_placement.position == landed
            } else {
                t.transform == s.transform && t.ctx == s.ctx
            }
        }),
{
    reveal(snap_to_ground_model);
    reveal(cast_move_model);
    reveal(ask_cast_move);
    reveal(depenetrate_character_model);
    reveal(ask_depenetrate);
}

/// The casts that find a ledge, one after another from `at` on: there is a wall ahead that is
/// faced, a top behind it, room at the top, a walkable floor, and a stop on the way.
pub open spec fn ledge_told(
    h: History,
    at: nat,
    c: Ctx,
    dir: Vec3,
    min_cos: Scalar,
) -> bool {
    &&& hit_at(h, at) matches Some(wall) && !wall.normal1.flat().normalize_or_zero().negated().dot(
        dir,
    ).lt(min_cos)
    &&& hit_at(h, at + 2) is Some
    &&& hit_at(h, at + 3) is None
    &&& hit_at(h, at + 4) matches Some(floor) && !floor.normal1.y.lt(c.cfg.min_walk_cos)
    &&& hit_at(h, at + 5) is Some
}

/// A ledge is found where one is told of, at the height that the second cast went up less what the
/// third went down; and only there.
pub proof fn law_ledge_is_found(
    h: History,
    s: Step,
    wish_velocity: Vec3,
    min_depth: Scalar,
    min_cos: Scalar,
    max_height: Scalar,
    time: Time,
)
    requires
        ledge_direction(wish_velocity, s.ctx.velocity) is Some,
    ensures
        ({
            let dir = ledge_direction(wish_velocity, s.ctx.velocity)->Some_0;
            let found = available_ledge_height_model(
                h,
                s,
                wish_velocity,
                min_depth,
                min_cos,
                max_height,
                time,
            ).1;
            &&& found is Some <==> ledge_told(h, s.at, s.ctx, dir, min_cos)
            &&& found matches Some(height) ==> height == way_at(h, s.at + 1, max_height) - way_at(
                h,
                s.at + 2,
                num(ZERO),
            )
        }),
{
    reveal(available_ledge_height_model);
    reveal(ledge_along_model);
    reveal(ledge_behind_model);
    reveal(ledge_top_model);
    reveal(ledge_floor_model);
    reveal(cast_probe_model);
    reveal(cast_move_model);
    reveal(ask_cast_move);
}

/// The casts that find a ledge to mantle onto, one after another from `at` on, with the body freed
/// after the first: there is a wall ahead that is faced, a top behind it, room at the top and a
/// floor.
pub open spec fn mantle_told(h: History, at: nat, c: Ctx, dir: Vec3) -> bool {
    &&& hit_at(h, at) matches Some(wall) && !wall.normal1.negated().dot(dir).lt(
        c.cfg.min_mantle_cos,
    )
    &&& hit_at(h, at + 3) is Some
    &&& hit_at(h, at + 4) is None
    &&& hit_at(h, at + 5) is Some
}

/// A mantle is found where a ledge is told of, onto the floor there and from the wall ahead, at the
/// height that the hands went up less what they went down; and only there.
pub proof fn law_mantle_is_found(h: History, s: Step, wish_velocity: Vec3, time: Time)
    requires
        mantle_direction(wish_velocity, s.ctx.state.orientation) is Some,
    ensures
        ({
            let dir = mantle_direction(wish_velocity, s.ctx.state.orientation)->Some_0;
            let found = available_mantle_height_model(h, s, wish_velocity, time).1;
            let height = way_at(h, s.at + 2, s.ctx.cfg.mantle_height) - way_at(
                h,
                s.at + 3,
                num(ZERO),
            );
            if mantle_told(h, s.at, s.ctx, dir) {
                exists|c: Ctx| #[trigger]
                    mantle_onto(
                        c,
                        hit_at(h, s.at)->Some_0.normal1,
                        height,
                        hit_at(h, s.at + 5)->Some_0,
                    ) == found && c.cfg == s.ctx.cfg && c.derived == s.ctx.derived && c.state
                        == s.ctx.state
            } else {
                found is None
            }
        }),
{
    reveal(available_mantle_height_model);
    reveal(mantle_along_model);
    reveal(ledge_top_model);
    reveal(ledge_floor_model);
    reveal(cast_probe_model);
    reveal(cast_move_model);
    reveal(cast_move_hands_model);
    reveal(ask_cast_move);
    reveal(depenetrate_character_model);
    reveal(ask_depenetrate);
    let dir = mantle_direction(wish_velocity, s.ctx.state.orientation)->Some_0;
    let found = available_mantle_height_model(h, s, wish_velocity, time).1;
    let height = way_at(h, s.at + 2, s.ctx.cfg.mantle_height) - way_at(h, s.at + 3, num(ZERO));
    if mantle_told(h, s.at, s.ctx, dir) {
        let velocity = probe_velocity(s.ctx, wish_velocity, time.delta_secs);
        let c = s.ctx.with_velocity(velocity);
        assert(mantle_onto(
            c,
            hit_at(h, s.at)->Some_0.normal1,
            height,
            hit_at(h, s.at + 5)->Some_0,
        ) == found);
    }
}

/// The friction of what a character stands on: that of the collider, else that of its body, else
/// the default. In the air it is the friction of the air.
pub proof fn law_surface(h: History, s: Step, default_friction: Scalar)
    ensures
        ({
            let (t, friction) = surface_friction_model(h, s, default_friction);
            let collider = h[s.at as int]->ColliderFriction_reply;
            let of_body = h[(s.at + 1) as int]->BodyFriction_reply;
            &&& s.ctx.state.grounded is None ==> friction == s.ctx.cfg.air_friction
            &&& s.ctx.state.grounded matches Some(ground) ==> {
                &&& t.ok ==> h[s.at as int] is ColliderFriction
                    && h[s.at as int]->ColliderFriction_entity == ground.entity
                &&& collider is None ==> friction == default_friction
                &&& collider matches Some(found) ==> {
                    &&& found.friction is Some ==> friction == found.friction->Some_0
                    &&& found.friction is None ==> (t.ok ==> h[(s.at + 1) as int] is BodyFriction
                        && h[(s.at + 1) as int]->BodyFriction_body == found.body)
                    &&& found.friction is None && of_body is Some ==> friction == of_body->Some_0
                    &&& found.friction is None && of_body is None ==> friction == default_friction
                }
            }
        }),
{
    reveal(surface_friction_model);
    reveal(ask_collider_friction);
    reveal(ask_body_friction);
}

/// A bounce that was asked for in time, after its cooldown, happens off the closest wall in reach;
/// without one nothing happens.
pub proof fn law_bounces(h: History, s: Step)
    requires
        s.ctx.input.bounced matches Some(press) && !s.ctx.cfg.bounce_input_buffer.lt(press.elapsed),
        !s.ctx.state.last_bounce.elapsed.lt(s.ctx.cfg.bounce_cooldown),
    ensures
        ({
            let t = handle_bounce_model(h, s);
            let wall = closest_wall(
                h[s.at as int]->Contacts_reply,
                s.ctx.cfg.min_walk_cos,
            );
            &&& wall is None ==> t.ctx == s.ctx
            &&& wall matches Some(contact) ==> t.ctx == bounced(s.ctx, contact.normal)
            &&& t.transform == s.transform
            &&& t.ok ==> h[s.at as int] is Contacts && h[s.at as int]->Contacts_reach
                == s.ctx.cfg.bounce_distance + s.ctx.cfg.skin_width
        }),
{
    reveal(handle_bounce_model);
    reveal(bounce_ready);
    reveal(closest_wall_normal_model);
    reveal(ask_contacts);
}

/// A tic tac that was asked for in time, after its cooldown, with a wish and without a mantle, is
/// made off the wall that the velocity reaches next, else off the one that the wish reaches next.
pub proof fn law_tac_happens(h: History, s: Step, wish_velocity: Vec3, time: Time)
    requires
        s.ctx.state.mantle is None,
        s.ctx.input.tac matches Some(press) && !s.ctx.cfg.tac_input_buffer.lt(press.elapsed),
        !wish_velocity.length_squared().lt(num(TENTH)),
        !s.ctx.state.last_tac.elapsed.lt(s.ctx.cfg.tac_cooldown),
    ensures
        ({
            let (t, kick) = handle_tac_model(h, s, wish_velocity, time);
            let ahead = hit_at(h, s.at);
            let wished = hit_at(h, s.at + 1);
            let wall = if ahead is Some {
                ahead
            } else {
                wished
            };
            &&& wall is None ==> kick is None
            &&& wall matches Some(hit) ==> {
                let off_it = tac_off(s.ctx, wish_velocity, hit.normal1);
                &&& kick is Some <==> off_it is Some
                &&& off_it is Some ==> kick == Some(off_it->Some_0.1) && t.ctx == off_it->Some_0.0
            }
            &&& t.ok ==> h[s.at as int]->CastMove_query.movement == s.ctx.velocity
                * time.delta_secs
            &&& t.ok && ahead is None ==> h[(s.at + 1) as int]->CastMove_query.movement
                == wish_velocity * time.delta_secs
        }),
{
    reveal(handle_tac_model);
    reveal(tac_ready);
    reveal(tac_wall_model);
    reveal(cast_move_model);
    reveal(ask_cast_move);
}

/// A character in the air that moves back, with a fresh press to climb down and nothing within the
/// height of a crane below, hangs on to the ledge that it finds there, looking back. It is lowered
/// by that height; where there is no ledge, or something is below, it stays where it is.
pub proof fn law_climbs_down(h: History, s: Step, wish_velocity: Vec3, time: Time)
    requires
        s.ctx.state.grounded is None,
        s.ctx.input.last_movement matches Some(movement) && movement.y.lt(num(ZERO)),
        s.ctx.input.climbdown matches Some(press) && !s.ctx.cfg.mantle_input_buffer.lt(
            press.elapsed,
        ),
    ensures
        ({
            let t = handle_climbdown_model(h, s, wish_velocity, time);
            let drop = down() * s.ctx.cfg.crane_height;
            let lowered = Step { at: s.at + 1, ..s }.with_translation(
                s.transform.translation + drop,
            );
            let found = available_mantle_height_model(
                h,
                lowered,
                wish_velocity.negated(),
                time,
            ).1;
            &&& t.ok ==> h[s.at as int]->CastMove_query.movement == drop
            &&& hit_at(h, s.at) is Some ==> t.transform == s.transform && t.ctx == s.ctx
            &&& hit_at(h, s.at) is None && found is None ==> t.transform.translation
                == s.transform.translation && t.ctx.state.mantle == s.ctx.state.mantle
            &&& hit_at(h, s.at) is None && found is Some ==> {
                &&& t.transform.translation == s.transform.translation + drop
                &&& t.ctx.state.mantle == Some(found->Some_0.0)
                &&& t.ctx.mantle == Some(found->Some_0.1)
                &&& t.ctx.input.climbdown is None && t.ctx.input.jumped is None
            }
        }),
{
    reveal(handle_climbdown_model);
    reveal(climbs_down);
    reveal(cast_move_model);
    reveal(ask_cast_move);
    reveal(mantling);
    reveal(Scalar::spec_lt);
    reveal(Scalar::spec_le);
    reveal(available_mantle_height_model);
    reveal(mantle_along_model);
    reveal(ledge_top_model);
    reveal(ledge_floor_model);
    reveal(cast_probe_model);
    reveal(cast_move_hands_model);
    reveal(depenetrate_character_model);
    reveal(ask_depenetrate);
}

} // verus!
