//! What a step leaves alone.
use crate::casting::{group_casts, move_character_model, slid, snap_to_ground_model};
use crate::climb::{
    crane_along_model, crane_over_model, crane_up_model, craning, handle_climbdown_model,
    handle_crane_movement_model, handle_mantle_movement_model, mantle_carry_model,
    mantle_climb_model, mantling, update_crane_state_model, update_mantle_state_model,
};
use crate::clock::Time;
use crate::context::{Ctx, MoveHitData};
use crate::ground::{
    calculate_platform_movement_model, ground_movement_model, grounded_on, set_grounded_model,
    update_grounded_model,
};
use crate::jump::{
    bounced, handle_bounce_model, handle_jump_model, handle_tac_model, launched, tac_off,
    tac_wall_model, taking_off,
};
use crate::ledge::{
    available_crane_height_model, available_ledge_height_model, available_mantle_height_model,
    cast_probe_model, ledge_along_model, ledge_behind_model, ledge_floor_model, ledge_top_model,
    mantle_along_model,
};
use crate::locomotion::{
    air_move_model, carried_step_model, ground_move_model, step_move_model, stepped_model,
    water_move_model,
};
use crate::motion::{
    air_accelerate_model, friction_model, gravity_finished, gravity_started,
    surface_friction_model,
};
use crate::scalar::Scalar;
use crate::stance::{handle_crouching_model, sliding_updated};
use crate::step::{
    advance_model, begun, ended, locomote_model, orient_model, prepare_model, settle_model,
    step_body_model,
};
use crate::vector::Vec3;
use crate::world::{group_asks, History, Platform, Step};
use vstd::prelude::*;

verus! {

/// Whether a character is the same but for what moving changes: its velocity, its memory, its
/// presses and its report.
pub open spec fn keeps(a: Ctx, b: Ctx) -> bool {
    &&& b.entity == a.entity
    &&& b.derived == a.derived
    &&& b.transform == a.transform
    &&& b.cfg == a.cfg
    &&& b.water == a.water
    &&& b.look == a.look
    &&& b.colliders == a.colliders
    &&& b.input.last_movement == a.input.last_movement
    &&& b.input.crouched == a.input.crouched
}

/// Whether part of a step changes nothing of a character but what moving changes, and of its body
/// nothing but where it is, and mends no history that did not fit.
pub open spec fn spares(s: Step, t: Step) -> bool {
    &&& keeps(s.ctx, t.ctx)
    &&& t.transform.rotation == s.transform.rotation
    &&& t.transform.scale == s.transform.scale
    &&& t.ok ==> s.ok
}

pub broadcast proof fn lemma_keeps_move_character(h: History, s: Step, time: Time)
    ensures
        spares(s, #[trigger] move_character_model(h, s, time)),
{
    broadcast use group_asks;
    broadcast use group_casts;

    reveal(move_character_model);
    reveal(slid);
}

pub broadcast proof fn lemma_keeps_snap_to_ground(h: History, s: Step)
    ensures
        spares(s, #[trigger] snap_to_ground_model(h, s)),
{
    broadcast use group_asks;
    broadcast use group_casts;

    reveal(snap_to_ground_model);
}

pub broadcast proof fn lemma_keeps_calculate_platform_movement(
    h: History,
    s: Step,
    ground: Vec3,
    platform: Platform,
    time: Time,
)
    ensures
        spares(s, #[trigger] calculate_platform_movement_model(h, s, ground, platform, time)),
{
    broadcast use group_asks;
    broadcast use group_casts;

    reveal(calculate_platform_movement_model);
}

pub broadcast proof fn lemma_keeps_ground_movement(
    h: History,
    s: Step,
    new_ground: Option<MoveHitData>,
    time: Time,
)
    ensures
        spares(s, #[trigger] ground_movement_model(h, s, new_ground, time)),
{
    broadcast use group_asks;
    broadcast use group_casts;
    broadcast use lemma_keeps_calculate_platform_movement;

    reveal(ground_movement_model);
}

pub broadcast proof fn lemma_keeps_set_grounded(
    h: History,
    s: Step,
    new_ground: Option<MoveHitData>,
    time: Time,
)
    ensures
        spares(s, #[trigger] set_grounded_model(h, s, new_ground, time)),
{
    broadcast use group_asks;
    broadcast use group_casts;
    broadcast use lemma_keeps_ground_movement;

    reveal(set_grounded_model);
    reveal(grounded_on);
}

pub broadcast proof fn lemma_keeps_update_grounded(h: History, s: Step, time: Time)
    ensures
        spares(s, #[trigger] update_grounded_model(h, s, time)),
{
    broadcast use group_asks;
    broadcast use group_casts;
    broadcast use lemma_keeps_set_grounded;

    reveal(update_grounded_model);
}

pub broadcast proof fn lemma_keeps_air_accelerate(
    h: History,
    s: Step,
    wish_velocity: Vec3,
    accel: Scalar,
    time: Time,
)
    ensures
        spares(s, #[trigger] air_accelerate_model(h, s, wish_velocity, accel, time)),
{
    broadcast use group_asks;
    broadcast use group_casts;

    reveal(air_accelerate_model);
}

pub broadcast proof fn lemma_keeps_surface_friction(h: History, s: Step, default_friction: Scalar)
    ensures
        spares(s, (#[trigger] surface_friction_model(h, s, default_friction)).0),
{
    broadcast use group_asks;
    broadcast use group_casts;

    reveal(surface_friction_model);
}

pub broadcast proof fn lemma_keeps_friction(
    h: History,
    s: Step,
    default_friction: Scalar,
    time: Time,
)
    ensures
        spares(s, #[trigger] friction_model(h, s, default_friction, time)),
{
    broadcast use group_asks;
    broadcast use group_casts;
    broadcast use lemma_keeps_surface_friction;

    reveal(friction_model);
}

pub broadcast proof fn lemma_keeps_stepped(
    h: History,
    s: Step,
    direct: Step,
    origin: Vec3,
    time: Time,
)
    ensures
        spares(s, #[trigger] stepped_model(h, s, direct, origin, time)),
{
    broadcast use group_asks;
    broadcast use group_casts;
    broadcast use lemma_keeps_move_character;

    reveal(stepped_model);
}

pub broadcast proof fn lemma_keeps_step_move(h: History, s: Step, time: Time)
    ensures
        spares(s, #[trigger] step_move_model(h, s, time)),
{
    broadcast use group_asks;
    broadcast use group_casts;
    broadcast use lemma_keeps_move_character;
    broadcast use lemma_keeps_stepped;

    reveal(step_move_model);
}

pub broadcast proof fn lemma_keeps_ground_move(h: History, s: Step, wish_velocity: Vec3, time: Time)
    ensures
        spares(s, #[trigger] ground_move_model(h, s, wish_velocity, time)),
{
    broadcast use group_asks;
    broadcast use group_casts;
    broadcast use lemma_keeps_snap_to_ground;
    broadcast use lemma_keeps_step_move;

    reveal(ground_move_model);
}

pub broadcast proof fn lemma_keeps_carried_step(h: History, s: Step, time: Time)
    ensures
        spares(s, #[trigger] carried_step_model(h, s, time)),
{
    broadcast use group_asks;
    broadcast use group_casts;
    broadcast use lemma_keeps_step_move;

    reveal(carried_step_model);
}

pub broadcast proof fn lemma_keeps_air_move(h: History, s: Step, wish_velocity: Vec3, time: Time)
    ensures
        spares(s, #[trigger] air_move_model(h, s, wish_velocity, time)),
{
    broadcast use group_asks;
    broadcast use group_casts;
    broadcast use lemma_keeps_air_accelerate;
    broadcast use lemma_keeps_carried_step;

    reveal(air_move_model);
}

pub broadcast proof fn lemma_keeps_water_move(h: History, s: Step, wish_velocity: Vec3, time: Time)
    ensures
        spares(s, #[trigger] water_move_model(h, s, wish_velocity, time)),
{
    broadcast use group_asks;
    broadcast use group_casts;
    broadcast use lemma_keeps_carried_step;

    reveal(water_move_model);
}

pub broadcast proof fn lemma_keeps_cast_probe(h: History, s: Step, hands: bool, movement: Vec3)
    ensures
        spares(s, (#[trigger] cast_probe_model(h, s, hands, movement)).0),
{
    broadcast use group_asks;
    broadcast use group_casts;

    reveal(cast_probe_model);
}

pub broadcast proof fn lemma_keeps_ledge_top(
    h: History,
    s: Step,
    hands: bool,
    wall_normal: Vec3,
    depth: Scalar,
    max_height: Scalar,
)
    ensures
        spares(s, (#[trigger] ledge_top_model(h, s, hands, wall_normal, depth, max_height)).0),
{
    broadcast use group_asks;
    broadcast use group_casts;
    broadcast use lemma_keeps_cast_probe;

    reveal(ledge_top_model);
}

pub broadcast proof fn lemma_keeps_ledge_floor(
    h: History,
    s: Step,
    hands: bool,
    wall_normal: Vec3,
    depth: Scalar,
    height: Scalar,
)
    ensures
        spares(s, (#[trigger] ledge_floor_model(h, s, hands, wall_normal, depth, height)).0),
{
    broadcast use group_asks;
    broadcast use group_casts;
    broadcast use lemma_keeps_cast_probe;

    reveal(ledge_floor_model);
}

pub broadcast proof fn lemma_keeps_ledge_behind(
    h: History,
    s: Step,
    wall_normal: Vec3,
    min_depth: Scalar,
    max_height: Scalar,
)
    ensures
        spares(s, (#[trigger] ledge_behind_model(h, s, wall_normal, min_depth, max_height)).0),
{
    broadcast use group_asks;
    broadcast use group_casts;
    broadcast use lemma_keeps_ledge_top;
    broadcast use lemma_keeps_ledge_floor;

    reveal(ledge_behind_model);
}

pub broadcast proof fn lemma_keeps_ledge_along(
    h: History,
    s: Step,
    dir: Vec3,
    min_depth: Scalar,
    min_cos: Scalar,
    max_height: Scalar,
)
    ensures
        spares(s, (#[trigger] ledge_along_model(h, s, dir, min_depth, min_cos, max_height)).0),
{
    broadcast use group_asks;
    broadcast use group_casts;
    broadcast use lemma_keeps_ledge_behind;

    reveal(ledge_along_model);
}

pub broadcast proof fn lemma_keeps_available_ledge_height(
    h: History,
    s: Step,
    wish_velocity: Vec3,
    min_depth: Scalar,
    min_cos: Scalar,
    max_height: Scalar,
    time: Time,
)
    ensures
        spares(
            s,
            (#[trigger] available_ledge_height_model(
                h,
                s,
                wish_velocity,
                min_depth,
                min_cos,
                max_height,
                time,
            )).0,
        ),
{
    broadcast use group_asks;
    broadcast use group_casts;
    broadcast use lemma_keeps_ledge_along;

    reveal(available_ledge_height_model);
}

pub broadcast proof fn lemma_keeps_available_crane_height(
    h: History,
    s: Step,
    wish_velocity: Vec3,
    time: Time,
)
    ensures
        spares(s, (#[trigger] available_crane_height_model(h, s, wish_velocity, time)).0),
{
    broadcast use group_asks;
    broadcast use group_casts;
    broadcast use lemma_keeps_available_ledge_height;

    reveal(available_crane_height_model);
}

pub broadcast proof fn lemma_keeps_mantle_along(h: History, s: Step, dir: Vec3)
    ensures
        spares(s, (#[trigger] mantle_along_model(h, s, dir)).0),
{
    broadcast use group_asks;
    broadcast use group_casts;
    broadcast use lemma_keeps_ledge_top;
    broadcast use lemma_keeps_ledge_floor;

    reveal(mantle_along_model);
}

pub broadcast proof fn lemma_keeps_available_mantle_height(
    h: History,
    s: Step,
    wish_velocity: Vec3,
    time: Time,
)
    ensures
        spares(s, (#[trigger] available_mantle_height_model(h, s, wish_velocity, time)).0),
{
    broadcast use group_asks;
    broadcast use group_casts;
    broadcast use lemma_keeps_mantle_along;

    reveal(available_mantle_height_model);
}

pub broadcast proof fn lemma_keeps_update_crane_state(
    h: History,
    s: Step,
    wish_velocity: Vec3,
    time: Time,
)
    ensures
        spares(s, #[trigger] update_crane_state_model(h, s, wish_velocity, time)),
{
    broadcast use group_asks;
    broadcast use group_casts;
    broadcast use lemma_keeps_available_crane_height;

    reveal(update_crane_state_model);
    reveal(craning);
}

pub broadcast proof fn lemma_keeps_crane_over(
    h: History,
    s: Step,
    dir: Vec3,
    speed: Scalar,
    time: Time,
)
    ensures
        spares(s, #[trigger] crane_over_model(h, s, dir, speed, time)),
{
    broadcast use group_asks;
    broadcast use group_casts;

    reveal(crane_over_model);
}

pub broadcast proof fn lemma_keeps_crane_up(h: History, s: Step, height: Scalar, time: Time)
    ensures
        spares(s, #[trigger] crane_up_model(h, s, height, time)),
{
    broadcast use group_asks;
    broadcast use group_casts;
    broadcast use lemma_keeps_move_character;

    reveal(crane_up_model);
}

pub broadcast proof fn lemma_keeps_crane_along(
    h: History,
    s: Step,
    height: Scalar,
    wish_dir: Vec3,
    dir: Vec3,
    speed: Scalar,
    time: Time,
)
    ensures
        spares(s, #[trigger] crane_along_model(h, s, height, wish_dir, dir, speed, time)),
{
    broadcast use group_asks;
    broadcast use group_casts;
    broadcast use lemma_keeps_crane_over;
    broadcast use lemma_keeps_crane_up;

    reveal(crane_along_model);
}

pub broadcast proof fn lemma_keeps_handle_crane_movement(
    h: History,
    s: Step,
    wish_velocity: Vec3,
    time: Time,
)
    ensures
        spares(s, #[trigger] handle_crane_movement_model(h, s, wish_velocity, time)),
{
    broadcast use group_asks;
    broadcast use group_casts;
    broadcast use lemma_keeps_crane_along;

    reveal(handle_crane_movement_model);
}

pub broadcast proof fn lemma_keeps_update_mantle_state(
    h: History,
    s: Step,
    wish_velocity: Vec3,
    time: Time,
)
    ensures
        spares(s, #[trigger] update_mantle_state_model(h, s, wish_velocity, time)),
{
    broadcast use group_asks;
    broadcast use group_casts;
    broadcast use lemma_keeps_available_mantle_height;

    reveal(update_mantle_state_model);
    reveal(mantling);
}

pub broadcast proof fn lemma_keeps_mantle_climb(
    h: History,
    s: Step,
    wish_velocity: Vec3,
    left: Scalar,
    time: Time,
)
    ensures
        spares(s, #[trigger] mantle_climb_model(h, s, wish_velocity, left, time)),
{
    broadcast use group_asks;
    broadcast use group_casts;
    broadcast use lemma_keeps_move_character;

    reveal(mantle_climb_model);
}

pub broadcast proof fn lemma_keeps_mantle_carry(
    h: History,
    s: Step,
    wall_normal: Vec3,
    hit: MoveHitData,
    time: Time,
)
    ensures
        spares(s, #[trigger] mantle_carry_model(h, s, wall_normal, hit, time)),
{
    broadcast use group_asks;
    broadcast use group_casts;
    broadcast use lemma_keeps_calculate_platform_movement;

    reveal(mantle_carry_model);
}

pub broadcast proof fn lemma_keeps_handle_mantle_movement(
    h: History,
    s: Step,
    wish_velocity: Vec3,
    time: Time,
)
    ensures
        spares(s, #[trigger] handle_mantle_movement_model(h, s, wish_velocity, time)),
{
    broadcast use group_asks;
    broadcast use group_casts;
    broadcast use lemma_keeps_mantle_climb;
    broadcast use lemma_keeps_mantle_carry;

    reveal(handle_mantle_movement_model);
}

pub broadcast proof fn lemma_keeps_handle_climbdown(
    h: History,
    s: Step,
    wish_velocity: Vec3,
    time: Time,
)
    ensures
        spares(s, #[trigger] handle_climbdown_model(h, s, wish_velocity, time)),
{
    broadcast use group_asks;
    broadcast use group_casts;
    broadcast use lemma_keeps_available_mantle_height;

    reveal(handle_climbdown_model);
    reveal(mantling);
}

pub broadcast proof fn lemma_keeps_tac_wall(h: History, s: Step, wish_velocity: Vec3, time: Time)
    ensures
        spares(s, (#[trigger] tac_wall_model(h, s, wish_velocity, time)).0),
{
    broadcast use group_asks;
    broadcast use group_casts;

    reveal(tac_wall_model);
}

pub broadcast proof fn lemma_keeps_handle_tac(h: History, s: Step, wish_velocity: Vec3, time: Time)
    ensures
        spares(s, (#[trigger] handle_tac_model(h, s, wish_velocity, time)).0),
{
    broadcast use group_asks;
    broadcast use group_casts;
    broadcast use lemma_keeps_tac_wall;

    reveal(handle_tac_model);
    reveal(tac_off);
}

pub broadcast proof fn lemma_keeps_handle_bounce(h: History, s: Step)
    ensures
        spares(s, #[trigger] handle_bounce_model(h, s)),
{
    broadcast use group_asks;
    broadcast use group_casts;

    reveal(handle_bounce_model);
    reveal(bounced);
}

pub broadcast proof fn lemma_keeps_handle_jump(h: History, s: Step, wish_velocity: Vec3, time: Time)
    ensures
        spares(s, #[trigger] handle_jump_model(h, s, wish_velocity, time)),
{
    broadcast use group_asks;
    broadcast use group_casts;
    broadcast use lemma_keeps_set_grounded;
    broadcast use lemma_keeps_handle_tac;

    reveal(handle_jump_model);
    reveal(launched);
    reveal(taking_off);
}

pub broadcast proof fn lemma_keeps_handle_crouching(h: History, s: Step)
    ensures
        spares(s, #[trigger] handle_crouching_model(h, s)),
{
    broadcast use group_asks;
    broadcast use group_casts;

    reveal(handle_crouching_model);
}

pub broadcast proof fn lemma_keeps_orient(h: History, s: Step)
    ensures
        spares(s, #[trigger] orient_model(h, s)),
{
    broadcast use group_asks;
    broadcast use group_casts;

    reveal(orient_model);
}

pub broadcast proof fn lemma_keeps_prepare(h: History, s: Step, time: Time)
    ensures
        spares(s, #[trigger] prepare_model(h, s, time)),
{
    broadcast use group_asks;
    broadcast use group_casts;
    broadcast use lemma_keeps_update_grounded;
    broadcast use lemma_keeps_handle_crouching;
    broadcast use lemma_keeps_orient;

    reveal(prepare_model);
    reveal(begun);
    reveal(sliding_updated);
    reveal(gravity_started);
}

pub broadcast proof fn lemma_keeps_locomote(
    h: History,
    s: Step,
    wish_velocity: Vec3,
    wish_velocity_3d: Vec3,
    default_friction: Scalar,
    time: Time,
)
    ensures
        spares(
            s,
            #[trigger] locomote_model(
                h,
                s,
                wish_velocity,
                wish_velocity_3d,
                default_friction,
                time,
            ),
        ),
{
    broadcast use group_asks;
    broadcast use group_casts;
    broadcast use lemma_keeps_friction;
    broadcast use lemma_keeps_ground_move;
    broadcast use lemma_keeps_air_move;
    broadcast use lemma_keeps_water_move;
    broadcast use lemma_keeps_handle_bounce;
    broadcast use lemma_keeps_handle_jump;

    reveal(locomote_model);
}

pub broadcast proof fn lemma_keeps_advance(
    h: History,
    s: Step,
    wish_velocity: Vec3,
    wish_velocity_3d: Vec3,
    default_friction: Scalar,
    time: Time,
)
    ensures
        spares(
            s,
            #[trigger] advance_model(
                h,
                s,
                wish_velocity,
                wish_velocity_3d,
                default_friction,
                time,
            ),
        ),
{
    broadcast use group_asks;
    broadcast use group_casts;
    broadcast use lemma_keeps_update_crane_state;
    broadcast use lemma_keeps_handle_crane_movement;
    broadcast use lemma_keeps_update_mantle_state;
    broadcast use lemma_keeps_handle_mantle_movement;
    broadcast use lemma_keeps_handle_jump;
    broadcast use lemma_keeps_locomote;

    reveal(advance_model);
}

pub broadcast proof fn lemma_keeps_settle(h: History, s: Step, wish_velocity: Vec3, time: Time)
    ensures
        spares(s, #[trigger] settle_model(h, s, wish_velocity, time)),
{
    broadcast use group_asks;
    broadcast use group_casts;
    broadcast use lemma_keeps_update_grounded;
    broadcast use lemma_keeps_handle_climbdown;

    reveal(settle_model);
    reveal(ended);
    reveal(gravity_finished);
}

pub broadcast proof fn lemma_keeps_step_body(
    h: History,
    s: Step,
    default_friction: Scalar,
    time: Time,
)
    ensures
        spares(s, #[trigger] step_body_model(h, s, default_friction, time)),
{
    broadcast use group_asks;
    broadcast use group_casts;
    broadcast use lemma_keeps_prepare;
    broadcast use lemma_keeps_advance;
    broadcast use lemma_keeps_settle;

    reveal(step_body_model);
}

} // verus!
