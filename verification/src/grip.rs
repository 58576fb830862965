//! What starts no mantle.
use crate::casting::{group_casts, move_character_model, slid, snap_to_ground_model};
use crate::climb::{
    crane_along_model, crane_over_model, crane_up_model, handle_crane_movement_model,
};
use crate::clock::Time;
use crate::context::MoveHitData;
use crate::ground::{
    calculate_platform_movement_model, ground_movement_model, grounded_on, set_grounded_model,
    update_grounded_model,
};
use crate::jump::{
    bounced, handle_bounce_model, handle_jump_model, handle_tac_model, launched, tac_off,
    tac_wall_model, taking_off,
};
use crate::locomotion::{
    air_move_model, carried_step_model, ground_move_model, step_move_model, stepped_model,
    water_move_model,
};
use crate::motion::{air_accelerate_model, friction_model, surface_friction_model};
use crate::scalar::Scalar;
use crate::step::locomote_model;
use crate::vector::Vec3;
use crate::world::{group_asks, History, Platform, Step};
use vstd::prelude::*;

verus! {

/// Whether part of a step starts no mantle and leaves the report of one alone.
pub open spec fn starts_no_mantle(s: Step, t: Step) -> bool {
    &&& t.ctx.state.mantle is Some ==> s.ctx.state.mantle is Some
    &&& t.ctx.mantle == s.ctx.mantle
}

pub broadcast proof fn lemma_grip_move_character(h: History, s: Step, time: Time)
    ensures
        starts_no_mantle(s, #[trigger] move_character_model(h, s, time)),
{
    broadcast use group_asks;
    broadcast use group_casts;

    reveal(move_character_model);
    reveal(slid);
}

pub broadcast proof fn lemma_grip_snap_to_ground(h: History, s: Step)
    ensures
        starts_no_mantle(s, #[trigger] snap_to_ground_model(h, s)),
{
    broadcast use group_asks;
    broadcast use group_casts;

    reveal(snap_to_ground_model);
}

pub broadcast proof fn lemma_grip_calculate_platform_movement(
    h: History,
    s: Step,
    ground: Vec3,
    platform: Platform,
    time: Time,
)
    ensures
        starts_no_mantle(
            s,
            #[trigger] calculate_platform_movement_model(
                h,
                s,
                ground,
                platform,
                time,
            ),
        ),
{
    broadcast use group_asks;
    broadcast use group_casts;

    reveal(calculate_platform_movement_model);
}

pub broadcast proof fn lemma_grip_ground_movement(
    h: History,
    s: Step,
    new_ground: Option<MoveHitData>,
    time: Time,
)
    ensures
        starts_no_mantle(s, #[trigger] ground_movement_model(h, s, new_ground, time)),
{
    broadcast use group_asks;
    broadcast use group_casts;
    broadcast use lemma_grip_calculate_platform_movement;

    reveal(ground_movement_model);
}

pub broadcast proof fn lemma_grip_set_grounded(
    h: History,
    s: Step,
    new_ground: Option<MoveHitData>,
    time: Time,
)
    ensures
        starts_no_mantle(s, #[trigger] set_grounded_model(h, s, new_ground, time)),
{
    broadcast use group_asks;
    broadcast use group_casts;
    broadcast use lemma_grip_ground_movement;

    reveal(set_grounded_model);
    reveal(grounded_on);
}

pub broadcast proof fn lemma_grip_update_grounded(h: History, s: Step, time: Time)
    ensures
        starts_no_mantle(s, #[trigger] update_grounded_model(h, s, time)),
{
    broadcast use group_asks;
    broadcast use group_casts;
    broadcast use lemma_grip_set_grounded;

    reveal(update_grounded_model);
}

pub broadcast proof fn lemma_grip_air_accelerate(
    h: History,
    s: Step,
    wish_velocity: Vec3,
    accel: Scalar,
    time: Time,
)
    ensures
        starts_no_mantle(s, #[trigger] air_accelerate_model(h, s, wish_velocity, accel, time)),
{
    broadcast use group_asks;
    broadcast use group_casts;

    reveal(air_accelerate_model);
}

pub broadcast proof fn lemma_grip_surface_friction(h: History, s: Step, default_friction: Scalar)
    ensures
        starts_no_mantle(s, (#[trigger] surface_friction_model(h, s, default_friction)).0),
{
    broadcast use group_asks;
    broadcast use group_casts;

    reveal(surface_friction_model);
}

pub broadcast proof fn lemma_grip_friction(
    h: History,
    s: Step,
    default_friction: Scalar,
    time: Time,
)
    ensures
        starts_no_mantle(s, #[trigger] friction_model(h, s, default_friction, time)),
{
    broadcast use group_asks;
    broadcast use group_casts;
    broadcast use lemma_grip_surface_friction;

    reveal(friction_model);
}

pub broadcast proof fn lemma_grip_stepped(
    h: History,
    s: Step,
    direct: Step,
    origin: Vec3,
    time: Time,
)
    requires
        starts_no_mantle(s, direct),
    ensures
        starts_no_mantle(s, #[trigger] stepped_model(h, s, direct, origin, time)),
{
    broadcast use group_asks;
    broadcast use group_casts;
    broadcast use lemma_grip_move_character;

    reveal(stepped_model);
}

pub broadcast proof fn lemma_grip_step_move(h: History, s: Step, time: Time)
    ensures
        starts_no_mantle(s, #[trigger] step_move_model(h, s, time)),
{
    broadcast use group_asks;
    broadcast use group_casts;
    broadcast use lemma_grip_move_character;
    broadcast use lemma_grip_stepped;

    reveal(step_move_model);
}

pub broadcast proof fn lemma_grip_ground_move(h: History, s: Step, wish_velocity: Vec3, time: Time)
    ensures
        starts_no_mantle(s, #[trigger] ground_move_model(h, s, wish_velocity, time)),
{
    broadcast use group_asks;
    broadcast use group_casts;
    broadcast use lemma_grip_snap_to_ground;
    broadcast use lemma_grip_step_move;

    reveal(ground_move_model);
}

pub broadcast proof fn lemma_grip_carried_step(h: History, s: Step, time: Time)
    ensures
        starts_no_mantle(s, #[trigger] carried_step_model(h, s, time)),
{
    broadcast use group_asks;
    broadcast use group_casts;
    broadcast use lemma_grip_step_move;

    reveal(carried_step_model);
}

pub broadcast proof fn lemma_grip_air_move(h: History, s: Step, wish_velocity: Vec3, time: Time)
    ensures
        starts_no_mantle(s, #[trigger] air_move_model(h, s, wish_velocity, time)),
{
    broadcast use group_asks;
    broadcast use group_casts;
    broadcast use lemma_grip_air_accelerate;
    broadcast use lemma_grip_carried_step;

    reveal(air_move_model);
}

pub broadcast proof fn lemma_grip_water_move(h: History, s: Step, wish_velocity: Vec3, time: Time)
    ensures
        starts_no_mantle(s, #[trigger] water_move_model(h, s, wish_velocity, time)),
{
    broadcast use group_asks;
    broadcast use group_casts;
    broadcast use lemma_grip_carried_step;

    reveal(water_move_model);
}

pub broadcast proof fn lemma_grip_crane_over(
    h: History,
    s: Step,
    dir: Vec3,
    speed: Scalar,
    time: Time,
)
    ensures
        starts_no_mantle(s, #[trigger] crane_over_model(h, s, dir, speed, time)),
{
    broadcast use group_asks;
    broadcast use group_casts;

    reveal(crane_over_model);
}

pub broadcast proof fn lemma_grip_crane_up(h: History, s: Step, height: Scalar, time: Time)
    ensures
        starts_no_mantle(s, #[trigger] crane_up_model(h, s, height, time)),
{
    broadcast use group_asks;
    broadcast use group_casts;
    broadcast use lemma_grip_move_character;

    reveal(crane_up_model);
}

pub broadcast proof fn lemma_grip_crane_along(
    h: History,
    s: Step,
    height: Scalar,
    wish_dir: Vec3,
    dir: Vec3,
    speed: Scalar,
    time: Time,
)
    ensures
        starts_no_mantle(s, #[trigger] crane_along_model(h, s, height, wish_dir, dir, speed, time)),
{
    broadcast use group_asks;
    broadcast use group_casts;
    broadcast use lemma_grip_crane_over;
    broadcast use lemma_grip_crane_up;

    reveal(crane_along_model);
}

pub broadcast proof fn lemma_grip_handle_crane_movement(
    h: History,
    s: Step,
    wish_velocity: Vec3,
    time: Time,
)
    ensures
        starts_no_mantle(s, #[trigger] handle_crane_movement_model(h, s, wish_velocity, time)),
{
    broadcast use group_asks;
    broadcast use group_casts;
    broadcast use lemma_grip_crane_along;

    reveal(handle_crane_movement_model);
}

pub broadcast proof fn lemma_grip_tac_wall(h: History, s: Step, wish_velocity: Vec3, time: Time)
    ensures
        starts_no_mantle(s, (#[trigger] tac_wall_model(h, s, wish_velocity, time)).0),
{
    broadcast use group_asks;
    broadcast use group_casts;

    reveal(tac_wall_model);
}

pub broadcast proof fn lemma_grip_handle_tac(h: History, s: Step, wish_velocity: Vec3, time: Time)
    ensures
        starts_no_mantle(s, (#[trigger] handle_tac_model(h, s, wish_velocity, time)).0),
{
    broadcast use group_asks;
    broadcast use group_casts;
    broadcast use lemma_grip_tac_wall;

    reveal(handle_tac_model);
    reveal(tac_off);
}

pub broadcast proof fn lemma_grip_handle_bounce(h: History, s: Step)
    ensures
        starts_no_mantle(s, #[trigger] handle_bounce_model(h, s)),
{
    broadcast use group_asks;
    broadcast use group_casts;

    reveal(handle_bounce_model);
    reveal(bounced);
}

pub broadcast proof fn lemma_grip_handle_jump(h: History, s: Step, wish_velocity: Vec3, time: Time)
    ensures
        starts_no_mantle(s, #[trigger] handle_jump_model(h, s, wish_velocity, time)),
{
    broadcast use group_asks;
    broadcast use group_casts;
    broadcast use lemma_grip_set_grounded;
    broadcast use lemma_grip_handle_tac;

    reveal(handle_jump_model);
    reveal(launched);
    reveal(taking_off);
}

pub broadcast proof fn lemma_grip_locomote(
    h: History,
    s: Step,
    wish_velocity: Vec3,
    wish_velocity_3d: Vec3,
    default_friction: Scalar,
    time: Time,
)
    ensures
        starts_no_mantle(
            s,
            #[trigger] locomote_model(
                h,
                s,
                wish_velocity,
                wish_velocity_3d,
                default_friction,
                time,
            ),
        ),
{
    broadcast use group_asks;
    broadcast use group_casts;
    broadcast use lemma_grip_friction;
    broadcast use lemma_grip_ground_move;
    broadcast use lemma_grip_air_move;
    broadcast use lemma_grip_water_move;
    broadcast use lemma_grip_handle_bounce;
    broadcast use lemma_grip_handle_jump;

    reveal(locomote_model);
}

} // verus!
