//! Asked the same questions, a world that does not change gives the same step.
use crate::casting::{
    cast_move_hands_model, cast_move_model, closest_wall_normal_model, depenetrate_character_model,
    group_casts, is_intersecting_model, move_character_model, snap_to_ground_model,
};
use crate::climb::{
    crane_along_model, crane_over_model, crane_up_model, handle_climbdown_model,
    handle_crane_movement_model, handle_mantle_movement_model, mantle_carry_model,
    mantle_climb_model, update_crane_state_model, update_mantle_state_model,
};
use crate::clock::{Duration, Time};
use crate::context::{CharacterLook, MoveHitData};
use crate::ground::{
    calculate_platform_movement_model, ground_movement_model, set_grounded_model,
    update_grounded_model,
};
use crate::jump::{handle_bounce_model, handle_jump_model, handle_tac_model, tac_wall_model};
use crate::keeps::{
    lemma_keeps_advance, lemma_keeps_air_accelerate, lemma_keeps_air_move,
    lemma_keeps_available_crane_height, lemma_keeps_available_ledge_height,
    lemma_keeps_available_mantle_height, lemma_keeps_calculate_platform_movement,
    lemma_keeps_carried_step, lemma_keeps_cast_probe, lemma_keeps_crane_along,
    lemma_keeps_crane_over, lemma_keeps_crane_up, lemma_keeps_friction, lemma_keeps_ground_move,
    lemma_keeps_ground_movement, lemma_keeps_handle_bounce, lemma_keeps_handle_climbdown,
    lemma_keeps_handle_crane_movement, lemma_keeps_handle_crouching, lemma_keeps_handle_jump,
    lemma_keeps_handle_mantle_movement, lemma_keeps_handle_tac, lemma_keeps_ledge_along,
    lemma_keeps_ledge_behind, lemma_keeps_ledge_floor, lemma_keeps_ledge_top, lemma_keeps_locomote,
    lemma_keeps_mantle_along, lemma_keeps_mantle_carry, lemma_keeps_mantle_climb,
    lemma_keeps_move_character, lemma_keeps_orient, lemma_keeps_prepare, lemma_keeps_set_grounded,
    lemma_keeps_settle, lemma_keeps_snap_to_ground, lemma_keeps_step_body, lemma_keeps_step_move,
    lemma_keeps_stepped, lemma_keeps_surface_friction, lemma_keeps_tac_wall,
    lemma_keeps_update_crane_state, lemma_keeps_update_grounded, lemma_keeps_update_mantle_state,
    lemma_keeps_water_move,
};
use crate::ledge::{
    available_crane_height_model, available_ledge_height_model, available_mantle_height_model,
    cast_probe_model, ledge_along_model, ledge_behind_model, ledge_floor_model, ledge_top_model,
    mantle_along_model,
};
use crate::locomotion::{
    air_move_model, carried_step_model, ground_move_model, step_move_model, stepped_model,
    water_move_model,
};
use crate::motion::{air_accelerate_model, friction_model, surface_friction_model};
use crate::scalar::Scalar;
use crate::stance::handle_crouching_model;
use crate::step::{
    advance_model, collider_global_transform_model, locomote_model, orient_model, prepare_model,
    settle_model, step_body_model, step_kcc_model,
};
use crate::vector::Vec3;
use crate::world::{
    ask_angle_between, ask_apply_movement, ask_body_friction, ask_bounds, ask_carry_point,
    ask_cast_move, ask_collider_friction, ask_contacts, ask_depenetrate, ask_look_rotation,
    ask_overlaps, ask_platform, ask_pose, ask_seconds, ask_slide, ask_turn_look, group_asks,
    ApplyMovement, CarryPoint, CastMove, ColliderFriction, Event, History, Placement, Platform,
    Slide, Step,
};
use vstd::prelude::*;

verus! {

/// Whether two questions are the same.
pub open spec fn same_question(a: Event, b: Event) -> bool {
    match a {
        Event::CastMove { query, .. } => b is CastMove && b->CastMove_query == query,
        Event::Depenetrate { placement, .. } => {
            &&& b is Depenetrate
            &&& b->Depenetrate_placement == placement
        },
        Event::Slide { query, .. } => b is Slide && b->Slide_query == query,
        Event::Contacts { placement, reach, .. } => {
            &&& b is Contacts
            &&& b->Contacts_placement == placement
            &&& b->Contacts_reach == reach
        },
        Event::Overlaps { placement, .. } => b is Overlaps && b->Overlaps_placement == placement,
        Event::Pose { entity, .. } => b is Pose && b->Pose_entity == entity,
        Event::Platform { entity, .. } => b is Platform && b->Platform_entity == entity,
        Event::ColliderFriction { entity, .. } => {
            &&& b is ColliderFriction
            &&& b->ColliderFriction_entity == entity
        },
        Event::BodyFriction { body, .. } => b is BodyFriction && b->BodyFriction_body == body,
        Event::Bounds { entity, .. } => b is Bounds && b->Bounds_entity == entity,
        Event::Seconds { duration, .. } => b is Seconds && b->Seconds_duration == duration,
        Event::AngleBetween { from, to, .. } => {
            &&& b is AngleBetween
            &&& b->AngleBetween_from == from
            &&& b->AngleBetween_to == to
        },
        Event::CarryPoint { query, .. } => b is CarryPoint && b->CarryPoint_query == query,
        Event::ApplyMovement { query, .. } => b is ApplyMovement && b->ApplyMovement_query == query,
        Event::LookRotation { look, .. } => b is LookRotation && b->LookRotation_look == look,
        Event::TurnLook { look, angle, .. } => {
            &&& b is TurnLook
            &&& b->TurnLook_look == look
            &&& b->TurnLook_angle == angle
        },
    }
}

/// Whether the same question has the same answer in both histories, as in a world that does not
/// change between them.
#[verifier::opaque]
pub open spec fn consistent(g: History, h: History) -> bool {
    forall|i: int, j: int|
        #![trigger g[i], h[j]]
        0 <= i < g.len() && 0 <= j < h.len() && same_question(g[i], h[j]) ==> g[i] == h[j]
}

/// Whether two parts of steps are the same but for where they are in their histories.
pub open spec fn alike(s: Step, t: Step) -> bool {
    s.ctx == t.ctx && s.transform == t.transform
}

/// Whether what follows from `s` in one history and from `t` in another is alike, as long as both
/// fit their histories.
pub open spec fn repeats(g: History, s: Step, h: History, t: Step, a: Step, b: Step) -> bool {
    consistent(g, h) && alike(s, t) && a.ok && b.ok ==> alike(a, b)
}

/// The same, with a result.
pub open spec fn repeats_with<R>(
    g: History,
    s: Step,
    h: History,
    t: Step,
    a: (Step, R),
    b: (Step, R),
) -> bool {
    consistent(g, h) && alike(s, t) && a.0.ok && b.0.ok ==> alike(a.0, b.0) && a.1 == b.1
}

pub broadcast proof fn lemma_again_ask_cast_move(
    g: History,
    s: Step,
    h: History,
    t: Step,
    query: CastMove,
)
    ensures
        repeats_with(
            g,
            s,
            h,
            t,
            #[trigger] ask_cast_move(g, s, query),
            #[trigger] ask_cast_move(h, t, query),
        ),
{
    reveal(consistent);
    reveal(ask_cast_move);
    if ask_cast_move(g, s, query).0.ok && ask_cast_move(h, t, query).0.ok {
        assert(same_question(g[s.at as int], h[t.at as int]));
    }
}

pub broadcast proof fn lemma_again_ask_depenetrate(
    g: History,
    s: Step,
    h: History,
    t: Step,
    placement: Placement,
)
    ensures
        repeats_with(
            g,
            s,
            h,
            t,
            #[trigger] ask_depenetrate(g, s, placement),
            #[trigger] ask_depenetrate(h, t, placement),
        ),
{
    reveal(consistent);
    reveal(ask_depenetrate);
    if ask_depenetrate(g, s, placement).0.ok && ask_depenetrate(h, t, placement).0.ok {
        assert(same_question(g[s.at as int], h[t.at as int]));
    }
}

pub broadcast proof fn lemma_again_ask_slide(g: History, s: Step, h: History, t: Step, query: Slide)
    ensures
        repeats_with(
            g,
            s,
            h,
            t,
            #[trigger] ask_slide(g, s, query),
            #[trigger] ask_slide(h, t, query),
        ),
{
    reveal(consistent);
    reveal(ask_slide);
    if ask_slide(g, s, query).0.ok && ask_slide(h, t, query).0.ok {
        assert(same_question(g[s.at as int], h[t.at as int]));
    }
}

pub broadcast proof fn lemma_again_ask_contacts(
    g: History,
    s: Step,
    h: History,
    t: Step,
    placement: Placement,
    reach: Scalar,
)
    ensures
        repeats_with(
            g,
            s,
            h,
            t,
            #[trigger] ask_contacts(g, s, placement, reach),
            #[trigger] ask_contacts(h, t, placement, reach),
        ),
{
    reveal(consistent);
    reveal(ask_contacts);
    if ask_contacts(g, s, placement, reach).0.ok && ask_contacts(h, t, placement, reach).0.ok {
        assert(same_question(g[s.at as int], h[t.at as int]));
    }
}

pub broadcast proof fn lemma_again_ask_overlaps(
    g: History,
    s: Step,
    h: History,
    t: Step,
    placement: Placement,
)
    ensures
        repeats_with(
            g,
            s,
            h,
            t,
            #[trigger] ask_overlaps(g, s, placement),
            #[trigger] ask_overlaps(h, t, placement),
        ),
{
    reveal(consistent);
    reveal(ask_overlaps);
    if ask_overlaps(g, s, placement).0.ok && ask_overlaps(h, t, placement).0.ok {
        assert(same_question(g[s.at as int], h[t.at as int]));
    }
}

pub broadcast proof fn lemma_again_ask_pose(g: History, s: Step, h: History, t: Step, entity: u64)
    ensures
        repeats_with(
            g,
            s,
            h,
            t,
            #[trigger] ask_pose(g, s, entity),
            #[trigger] ask_pose(h, t, entity),
        ),
{
    reveal(consistent);
    reveal(ask_pose);
    if ask_pose(g, s, entity).0.ok && ask_pose(h, t, entity).0.ok {
        assert(same_question(g[s.at as int], h[t.at as int]));
    }
}

pub broadcast proof fn lemma_again_ask_platform(
    g: History,
    s: Step,
    h: History,
    t: Step,
    entity: u64,
)
    ensures
        repeats_with(
            g,
            s,
            h,
            t,
            #[trigger] ask_platform(g, s, entity),
            #[trigger] ask_platform(h, t, entity),
        ),
{
    reveal(consistent);
    reveal(ask_platform);
    if ask_platform(g, s, entity).0.ok && ask_platform(h, t, entity).0.ok {
        assert(same_question(g[s.at as int], h[t.at as int]));
    }
}

pub broadcast proof fn lemma_again_ask_collider_friction(
    g: History,
    s: Step,
    h: History,
    t: Step,
    entity: u64,
)
    ensures
        repeats_with(
            g,
            s,
            h,
            t,
            #[trigger] ask_collider_friction(g, s, entity),
            #[trigger] ask_collider_friction(h, t, entity),
        ),
{
    reveal(consistent);
    reveal(ask_collider_friction);
    if ask_collider_friction(g, s, entity).0.ok && ask_collider_friction(h, t, entity).0.ok {
        assert(same_question(g[s.at as int], h[t.at as int]));
    }
}

pub broadcast proof fn lemma_again_ask_body_friction(
    g: History,
    s: Step,
    h: History,
    t: Step,
    body: u64,
)
    ensures
        repeats_with(
            g,
            s,
            h,
            t,
            #[trigger] ask_body_friction(g, s, body),
            #[trigger] ask_body_friction(h, t, body),
        ),
{
    reveal(consistent);
    reveal(ask_body_friction);
    if ask_body_friction(g, s, body).0.ok && ask_body_friction(h, t, body).0.ok {
        assert(same_question(g[s.at as int], h[t.at as int]));
    }
}

pub broadcast proof fn lemma_again_ask_bounds(g: History, s: Step, h: History, t: Step, entity: u64)
    ensures
        repeats_with(
            g,
            s,
            h,
            t,
            #[trigger] ask_bounds(g, s, entity),
            #[trigger] ask_bounds(h, t, entity),
        ),
{
    reveal(consistent);
    reveal(ask_bounds);
    if ask_bounds(g, s, entity).0.ok && ask_bounds(h, t, entity).0.ok {
        assert(same_question(g[s.at as int], h[t.at as int]));
    }
}

pub broadcast proof fn lemma_again_ask_seconds(
    g: History,
    s: Step,
    h: History,
    t: Step,
    duration: Duration,
)
    ensures
        repeats_with(
            g,
            s,
            h,
            t,
            #[trigger] ask_seconds(g, s, duration),
            #[trigger] ask_seconds(h, t, duration),
        ),
{
    reveal(consistent);
    reveal(ask_seconds);
    if ask_seconds(g, s, duration).0.ok && ask_seconds(h, t, duration).0.ok {
        assert(same_question(g[s.at as int], h[t.at as int]));
    }
}

pub broadcast proof fn lemma_again_ask_angle_between(
    g: History,
    s: Step,
    h: History,
    t: Step,
    from: Vec3,
    to: Vec3,
)
    ensures
        repeats_with(
            g,
            s,
            h,
            t,
            #[trigger] ask_angle_between(g, s, from, to),
            #[trigger] ask_angle_between(h, t, from, to),
        ),
{
    reveal(consistent);
    reveal(ask_angle_between);
    if ask_angle_between(g, s, from, to).0.ok && ask_angle_between(h, t, from, to).0.ok {
        assert(same_question(g[s.at as int], h[t.at as int]));
    }
}

pub broadcast proof fn lemma_again_ask_carry_point(
    g: History,
    s: Step,
    h: History,
    t: Step,
    query: CarryPoint,
)
    ensures
        repeats_with(
            g,
            s,
            h,
            t,
            #[trigger] ask_carry_point(g, s, query),
            #[trigger] ask_carry_point(h, t, query),
        ),
{
    reveal(consistent);
    reveal(ask_carry_point);
    if ask_carry_point(g, s, query).0.ok && ask_carry_point(h, t, query).0.ok {
        assert(same_question(g[s.at as int], h[t.at as int]));
    }
}

pub broadcast proof fn lemma_again_ask_apply_movement(
    g: History,
    s: Step,
    h: History,
    t: Step,
    query: ApplyMovement,
)
    ensures
        repeats_with(
            g,
            s,
            h,
            t,
            #[trigger] ask_apply_movement(g, s, query),
            #[trigger] ask_apply_movement(h, t, query),
        ),
{
    reveal(consistent);
    reveal(ask_apply_movement);
    if ask_apply_movement(g, s, query).0.ok && ask_apply_movement(h, t, query).0.ok {
        assert(same_question(g[s.at as int], h[t.at as int]));
    }
}

pub broadcast proof fn lemma_again_ask_look_rotation(
    g: History,
    s: Step,
    h: History,
    t: Step,
    look: CharacterLook,
)
    ensures
        repeats_with(
            g,
            s,
            h,
            t,
            #[trigger] ask_look_rotation(g, s, look),
            #[trigger] ask_look_rotation(h, t, look),
        ),
{
    reveal(consistent);
    reveal(ask_look_rotation);
    if ask_look_rotation(g, s, look).0.ok && ask_look_rotation(h, t, look).0.ok {
        assert(same_question(g[s.at as int], h[t.at as int]));
    }
}

pub broadcast proof fn lemma_again_ask_turn_look(
    g: History,
    s: Step,
    h: History,
    t: Step,
    look: CharacterLook,
    angle: Scalar,
)
    ensures
        repeats_with(
            g,
            s,
            h,
            t,
            #[trigger] ask_turn_look(g, s, look, angle),
            #[trigger] ask_turn_look(h, t, look, angle),
        ),
{
    reveal(consistent);
    reveal(ask_turn_look);
    if ask_turn_look(g, s, look, angle).0.ok && ask_turn_look(h, t, look, angle).0.ok {
        assert(same_question(g[s.at as int], h[t.at as int]));
    }
}

pub broadcast group group_again {
    lemma_again_ask_cast_move,
    lemma_again_ask_depenetrate,
    lemma_again_ask_slide,
    lemma_again_ask_contacts,
    lemma_again_ask_overlaps,
    lemma_again_ask_pose,
    lemma_again_ask_platform,
    lemma_again_ask_collider_friction,
    lemma_again_ask_body_friction,
    lemma_again_ask_bounds,
    lemma_again_ask_seconds,
    lemma_again_ask_angle_between,
    lemma_again_ask_carry_point,
    lemma_again_ask_apply_movement,
    lemma_again_ask_look_rotation,
    lemma_again_ask_turn_look,
}

pub broadcast proof fn lemma_again_cast_move(
    g: History,
    s: Step,
    h: History,
    t: Step,
    movement: Vec3,
)
    ensures
        repeats_with(
            g,
            s,
            h,
            t,
            #[trigger] cast_move_model(g, s, movement),
            #[trigger] cast_move_model(h, t, movement),
        ),
{
    broadcast use group_asks;
    broadcast use group_casts;
    broadcast use group_again;

    reveal(cast_move_model);
}

pub broadcast proof fn lemma_again_cast_move_hands(
    g: History,
    s: Step,
    h: History,
    t: Step,
    movement: Vec3,
)
    ensures
        repeats_with(
            g,
            s,
            h,
            t,
            #[trigger] cast_move_hands_model(g, s, movement),
            #[trigger] cast_move_hands_model(h, t, movement),
        ),
{
    broadcast use group_asks;
    broadcast use group_casts;
    broadcast use group_again;

    reveal(cast_move_hands_model);
}

pub broadcast proof fn lemma_again_depenetrate_character(g: History, s: Step, h: History, t: Step)
    ensures
        repeats(
            g,
            s,
            h,
            t,
            #[trigger] depenetrate_character_model(g, s),
            #[trigger] depenetrate_character_model(h, t),
        ),
{
    broadcast use group_asks;
    broadcast use group_casts;
    broadcast use group_again;

    reveal(depenetrate_character_model);
}

pub broadcast proof fn lemma_again_closest_wall_normal(
    g: History,
    s: Step,
    h: History,
    t: Step,
    dist: Scalar,
)
    ensures
        repeats_with(
            g,
            s,
            h,
            t,
            #[trigger] closest_wall_normal_model(g, s, dist),
            #[trigger] closest_wall_normal_model(h, t, dist),
        ),
{
    broadcast use group_asks;
    broadcast use group_casts;
    broadcast use group_again;

    reveal(closest_wall_normal_model);
}

pub broadcast proof fn lemma_again_is_intersecting(g: History, s: Step, h: History, t: Step)
    ensures
        repeats_with(
            g,
            s,
            h,
            t,
            #[trigger] is_intersecting_model(g, s),
            #[trigger] is_intersecting_model(h, t),
        ),
{
    broadcast use group_asks;
    broadcast use group_casts;
    broadcast use group_again;

    reveal(is_intersecting_model);
}

pub broadcast proof fn lemma_again_collider_global_transform(
    g: History,
    s: Step,
    h: History,
    t: Step,
)
    ensures
        repeats_with(
            g,
            s,
            h,
            t,
            #[trigger] collider_global_transform_model(g, s),
            #[trigger] collider_global_transform_model(h, t),
        ),
{
    broadcast use group_asks;
    broadcast use group_casts;
    broadcast use group_again;

    reveal(collider_global_transform_model);
}

pub broadcast proof fn lemma_again_move_character(
    g: History,
    s: Step,
    h: History,
    t: Step,
    time: Time,
)
    ensures
        repeats(
            g,
            s,
            h,
            t,
            #[trigger] move_character_model(g, s, time),
            #[trigger] move_character_model(h, t, time),
        ),
{
    broadcast use group_asks;
    broadcast use group_casts;
    broadcast use group_again;

    reveal(move_character_model);
}

pub broadcast proof fn lemma_again_snap_to_ground(g: History, s: Step, h: History, t: Step)
    ensures
        repeats(
            g,
            s,
            h,
            t,
            #[trigger] snap_to_ground_model(g, s),
            #[trigger] snap_to_ground_model(h, t),
        ),
{
    broadcast use group_asks;
    broadcast use group_casts;
    broadcast use group_again;
    broadcast use lemma_again_cast_move;
    broadcast use lemma_again_depenetrate_character;

    reveal(snap_to_ground_model);
}

pub broadcast proof fn lemma_again_calculate_platform_movement(
    g: History,
    s: Step,
    h: History,
    t: Step,
    ground: Vec3,
    platform: Platform,
    time: Time,
)
    ensures
        repeats(
            g,
            s,
            h,
            t,
            #[trigger] calculate_platform_movement_model(g, s, ground, platform, time),
            #[trigger] calculate_platform_movement_model(h, t, ground, platform, time),
        ),
{
    broadcast use group_asks;
    broadcast use group_casts;
    broadcast use group_again;

    reveal(calculate_platform_movement_model);
}

pub broadcast proof fn lemma_again_ground_movement(
    g: History,
    s: Step,
    h: History,
    t: Step,
    new_ground: Option<MoveHitData>,
    time: Time,
)
    ensures
        repeats(
            g,
            s,
            h,
            t,
            #[trigger] ground_movement_model(g, s, new_ground, time),
            #[trigger] ground_movement_model(h, t, new_ground, time),
        ),
{
    broadcast use group_asks;
    broadcast use group_casts;
    broadcast use group_again;
    broadcast use lemma_again_calculate_platform_movement;
    broadcast use lemma_keeps_calculate_platform_movement;

    reveal(ground_movement_model);
}

pub broadcast proof fn lemma_again_set_grounded(
    g: History,
    s: Step,
    h: History,
    t: Step,
    new_ground: Option<MoveHitData>,
    time: Time,
)
    ensures
        repeats(
            g,
            s,
            h,
            t,
            #[trigger] set_grounded_model(g, s, new_ground, time),
            #[trigger] set_grounded_model(h, t, new_ground, time),
        ),
{
    broadcast use group_asks;
    broadcast use group_casts;
    broadcast use group_again;
    broadcast use lemma_again_ground_movement;
    broadcast use lemma_keeps_ground_movement;

    reveal(set_grounded_model);
}

pub broadcast proof fn lemma_again_update_grounded(
    g: History,
    s: Step,
    h: History,
    t: Step,
    time: Time,
)
    ensures
        repeats(
            g,
            s,
            h,
            t,
            #[trigger] update_grounded_model(g, s, time),
            #[trigger] update_grounded_model(h, t, time),
        ),
{
    broadcast use group_asks;
    broadcast use group_casts;
    broadcast use group_again;
    broadcast use lemma_again_cast_move;
    broadcast use lemma_again_set_grounded;
    broadcast use lemma_keeps_set_grounded;

    reveal(update_grounded_model);
}

pub broadcast proof fn lemma_again_air_accelerate(
    g: History,
    s: Step,
    h: History,
    t: Step,
    wish_velocity: Vec3,
    accel: Scalar,
    time: Time,
)
    ensures
        repeats(
            g,
            s,
            h,
            t,
            #[trigger] air_accelerate_model(g, s, wish_velocity, accel, time),
            #[trigger] air_accelerate_model(h, t, wish_velocity, accel, time),
        ),
{
    broadcast use group_asks;
    broadcast use group_casts;
    broadcast use group_again;

    reveal(air_accelerate_model);
}

pub broadcast proof fn lemma_again_surface_friction(
    g: History,
    s: Step,
    h: History,
    t: Step,
    default_friction: Scalar,
)
    ensures
        repeats_with(
            g,
            s,
            h,
            t,
            #[trigger] surface_friction_model(g, s, default_friction),
            #[trigger] surface_friction_model(h, t, default_friction),
        ),
{
    broadcast use group_asks;
    broadcast use group_casts;
    broadcast use group_again;

    reveal(surface_friction_model);
}

pub broadcast proof fn lemma_again_friction(
    g: History,
    s: Step,
    h: History,
    t: Step,
    default_friction: Scalar,
    time: Time,
)
    ensures
        repeats(
            g,
            s,
            h,
            t,
            #[trigger] friction_model(g, s, default_friction, time),
            #[trigger] friction_model(h, t, default_friction, time),
        ),
{
    broadcast use group_asks;
    broadcast use group_casts;
    broadcast use group_again;
    broadcast use lemma_again_surface_friction;
    broadcast use lemma_keeps_surface_friction;

    reveal(friction_model);
}

pub broadcast proof fn lemma_again_stepped(
    g: History,
    s: Step,
    direct: Step,
    h: History,
    t: Step,
    straight: Step,
    origin: Vec3,
    time: Time,
)
    requires
        alike(direct, straight),
    ensures
        repeats(
            g,
            s,
            h,
            t,
            #[trigger] stepped_model(g, s, direct, origin, time),
            #[trigger] stepped_model(h, t, straight, origin, time),
        ),
{
    broadcast use group_asks;
    broadcast use group_casts;
    broadcast use group_again;
    broadcast use lemma_again_cast_move;
    broadcast use lemma_again_depenetrate_character;
    broadcast use lemma_again_move_character;
    broadcast use lemma_keeps_move_character;

    reveal(stepped_model);
}

pub broadcast proof fn lemma_again_step_move(g: History, s: Step, h: History, t: Step, time: Time)
    ensures
        repeats(
            g,
            s,
            h,
            t,
            #[trigger] step_move_model(g, s, time),
            #[trigger] step_move_model(h, t, time),
        ),
{
    broadcast use group_asks;
    broadcast use group_casts;
    broadcast use group_again;
    broadcast use lemma_again_cast_move;
    broadcast use lemma_again_move_character;
    broadcast use lemma_again_stepped;
    broadcast use lemma_keeps_move_character;
    broadcast use lemma_keeps_stepped;

    reveal(step_move_model);
}

pub broadcast proof fn lemma_again_ground_move(
    g: History,
    s: Step,
    h: History,
    t: Step,
    wish_velocity: Vec3,
    time: Time,
)
    ensures
        repeats(
            g,
            s,
            h,
            t,
            #[trigger] ground_move_model(g, s, wish_velocity, time),
            #[trigger] ground_move_model(h, t, wish_velocity, time),
        ),
{
    broadcast use group_asks;
    broadcast use group_casts;
    broadcast use group_again;
    broadcast use lemma_again_cast_move;
    broadcast use lemma_again_depenetrate_character;
    broadcast use lemma_again_snap_to_ground;
    broadcast use lemma_again_step_move;
    broadcast use lemma_keeps_snap_to_ground;
    broadcast use lemma_keeps_step_move;

    reveal(ground_move_model);
}

pub broadcast proof fn lemma_again_carried_step(
    g: History,
    s: Step,
    h: History,
    t: Step,
    time: Time,
)
    ensures
        repeats(
            g,
            s,
            h,
            t,
            #[trigger] carried_step_model(g, s, time),
            #[trigger] carried_step_model(h, t, time),
        ),
{
    broadcast use group_asks;
    broadcast use group_casts;
    broadcast use group_again;
    broadcast use lemma_again_step_move;
    broadcast use lemma_keeps_step_move;

    reveal(carried_step_model);
}

pub broadcast proof fn lemma_again_air_move(
    g: History,
    s: Step,
    h: History,
    t: Step,
    wish_velocity: Vec3,
    time: Time,
)
    ensures
        repeats(
            g,
            s,
            h,
            t,
            #[trigger] air_move_model(g, s, wish_velocity, time),
            #[trigger] air_move_model(h, t, wish_velocity, time),
        ),
{
    broadcast use group_asks;
    broadcast use group_casts;
    broadcast use group_again;
    broadcast use lemma_again_air_accelerate;
    broadcast use lemma_again_carried_step;
    broadcast use lemma_keeps_air_accelerate;
    broadcast use lemma_keeps_carried_step;

    reveal(air_move_model);
}

pub broadcast proof fn lemma_again_water_move(
    g: History,
    s: Step,
    h: History,
    t: Step,
    wish_velocity: Vec3,
    time: Time,
)
    ensures
        repeats(
            g,
            s,
            h,
            t,
            #[trigger] water_move_model(g, s, wish_velocity, time),
            #[trigger] water_move_model(h, t, wish_velocity, time),
        ),
{
    broadcast use group_asks;
    broadcast use group_casts;
    broadcast use group_again;
    broadcast use lemma_again_carried_step;
    broadcast use lemma_keeps_carried_step;

    reveal(water_move_model);
}

pub broadcast proof fn lemma_again_cast_probe(
    g: History,
    s: Step,
    h: History,
    t: Step,
    hands: bool,
    movement: Vec3,
)
    ensures
        repeats_with(
            g,
            s,
            h,
            t,
            #[trigger] cast_probe_model(g, s, hands, movement),
            #[trigger] cast_probe_model(h, t, hands, movement),
        ),
{
    broadcast use group_asks;
    broadcast use group_casts;
    broadcast use group_again;
    broadcast use lemma_again_cast_move;
    broadcast use lemma_again_cast_move_hands;

    reveal(cast_probe_model);
}

pub broadcast proof fn lemma_again_ledge_top(
    g: History,
    s: Step,
    h: History,
    t: Step,
    hands: bool,
    wall_normal: Vec3,
    depth: Scalar,
    max_height: Scalar,
)
    ensures
        repeats_with(
            g,
            s,
            h,
            t,
            #[trigger] ledge_top_model(g, s, hands, wall_normal, depth, max_height),
            #[trigger] ledge_top_model(h, t, hands, wall_normal, depth, max_height),
        ),
{
    broadcast use group_asks;
    broadcast use group_casts;
    broadcast use group_again;
    broadcast use lemma_again_cast_probe;
    broadcast use lemma_keeps_cast_probe;

    reveal(ledge_top_model);
}

pub broadcast proof fn lemma_again_ledge_floor(
    g: History,
    s: Step,
    h: History,
    t: Step,
    hands: bool,
    wall_normal: Vec3,
    depth: Scalar,
    height: Scalar,
)
    ensures
        repeats_with(
            g,
            s,
            h,
            t,
            #[trigger] ledge_floor_model(g, s, hands, wall_normal, depth, height),
            #[trigger] ledge_floor_model(h, t, hands, wall_normal, depth, height),
        ),
{
    broadcast use group_asks;
    broadcast use group_casts;
    broadcast use group_again;
    broadcast use lemma_again_cast_probe;
    broadcast use lemma_keeps_cast_probe;

    reveal(ledge_floor_model);
}

pub broadcast proof fn lemma_again_ledge_behind(
    g: History,
    s: Step,
    h: History,
    t: Step,
    wall_normal: Vec3,
    min_depth: Scalar,
    max_height: Scalar,
)
    ensures
        repeats_with(
            g,
            s,
            h,
            t,
            #[trigger] ledge_behind_model(g, s, wall_normal, min_depth, max_height),
            #[trigger] ledge_behind_model(h, t, wall_normal, min_depth, max_height),
        ),
{
    broadcast use group_asks;
    broadcast use group_casts;
    broadcast use group_again;
    broadcast use lemma_again_cast_move;
    broadcast use lemma_again_ledge_top;
    broadcast use lemma_again_ledge_floor;
    broadcast use lemma_keeps_ledge_top;
    broadcast use lemma_keeps_ledge_floor;

    reveal(ledge_behind_model);
}

pub broadcast proof fn lemma_again_ledge_along(
    g: History,
    s: Step,
    h: History,
    t: Step,
    dir: Vec3,
    min_depth: Scalar,
    min_cos: Scalar,
    max_height: Scalar,
)
    ensures
        repeats_with(
            g,
            s,
            h,
            t,
            #[trigger] ledge_along_model(g, s, dir, min_depth, min_cos, max_height),
            #[trigger] ledge_along_model(h, t, dir, min_depth, min_cos, max_height),
        ),
{
    broadcast use group_asks;
    broadcast use group_casts;
    broadcast use group_again;
    broadcast use lemma_again_cast_move;
    broadcast use lemma_again_ledge_behind;
    broadcast use lemma_keeps_ledge_behind;

    reveal(ledge_along_model);
}

pub broadcast proof fn lemma_again_available_ledge_height(
    g: History,
    s: Step,
    h: History,
    t: Step,
    wish_velocity: Vec3,
    min_depth: Scalar,
    min_cos: Scalar,
    max_height: Scalar,
    time: Time,
)
    ensures
        repeats_with(
            g,
            s,
            h,
            t,
            #[trigger] available_ledge_height_model(
                g,
                s,
                wish_velocity,
                min_depth,
                min_cos,
                max_height,
                time,
            ),
            #[trigger] available_ledge_height_model(
                h,
                t,
                wish_velocity,
                min_depth,
                min_cos,
                max_height,
                time,
            ),
        ),
{
    broadcast use group_asks;
    broadcast use group_casts;
    broadcast use group_again;
    broadcast use lemma_again_ledge_along;
    broadcast use lemma_keeps_ledge_along;

    reveal(available_ledge_height_model);
}

pub broadcast proof fn lemma_again_available_crane_height(
    g: History,
    s: Step,
    h: History,
    t: Step,
    wish_velocity: Vec3,
    time: Time,
)
    ensures
        repeats_with(
            g,
            s,
            h,
            t,
            #[trigger] available_crane_height_model(g, s, wish_velocity, time),
            #[trigger] available_crane_height_model(h, t, wish_velocity, time),
        ),
{
    broadcast use group_asks;
    broadcast use group_casts;
    broadcast use group_again;
    broadcast use lemma_again_available_ledge_height;
    broadcast use lemma_keeps_available_ledge_height;

    reveal(available_crane_height_model);
}

pub broadcast proof fn lemma_again_mantle_along(g: History, s: Step, h: History, t: Step, dir: Vec3)
    ensures
        repeats_with(
            g,
            s,
            h,
            t,
            #[trigger] mantle_along_model(g, s, dir),
            #[trigger] mantle_along_model(h, t, dir),
        ),
{
    broadcast use group_asks;
    broadcast use group_casts;
    broadcast use group_again;
    broadcast use lemma_again_cast_move;
    broadcast use lemma_again_depenetrate_character;
    broadcast use lemma_again_ledge_top;
    broadcast use lemma_again_ledge_floor;
    broadcast use lemma_keeps_ledge_top;
    broadcast use lemma_keeps_ledge_floor;

    reveal(mantle_along_model);
}

pub broadcast proof fn lemma_again_available_mantle_height(
    g: History,
    s: Step,
    h: History,
    t: Step,
    wish_velocity: Vec3,
    time: Time,
)
    ensures
        repeats_with(
            g,
            s,
            h,
            t,
            #[trigger] available_mantle_height_model(g, s, wish_velocity, time),
            #[trigger] available_mantle_height_model(h, t, wish_velocity, time),
        ),
{
    broadcast use group_asks;
    broadcast use group_casts;
    broadcast use group_again;
    broadcast use lemma_again_mantle_along;
    broadcast use lemma_keeps_mantle_along;

    reveal(available_mantle_height_model);
}

pub broadcast proof fn lemma_again_update_crane_state(
    g: History,
    s: Step,
    h: History,
    t: Step,
    wish_velocity: Vec3,
    time: Time,
)
    ensures
        repeats(
            g,
            s,
            h,
            t,
            #[trigger] update_crane_state_model(g, s, wish_velocity, time),
            #[trigger] update_crane_state_model(h, t, wish_velocity, time),
        ),
{
    broadcast use group_asks;
    broadcast use group_casts;
    broadcast use group_again;
    broadcast use lemma_again_available_crane_height;
    broadcast use lemma_keeps_available_crane_height;

    reveal(update_crane_state_model);
}

pub broadcast proof fn lemma_again_crane_over(
    g: History,
    s: Step,
    h: History,
    t: Step,
    dir: Vec3,
    speed: Scalar,
    time: Time,
)
    ensures
        repeats(
            g,
            s,
            h,
            t,
            #[trigger] crane_over_model(g, s, dir, speed, time),
            #[trigger] crane_over_model(h, t, dir, speed, time),
        ),
{
    broadcast use group_asks;
    broadcast use group_casts;
    broadcast use group_again;
    broadcast use lemma_again_cast_move;
    broadcast use lemma_again_depenetrate_character;

    reveal(crane_over_model);
}

pub broadcast proof fn lemma_again_crane_up(
    g: History,
    s: Step,
    h: History,
    t: Step,
    height: Scalar,
    time: Time,
)
    ensures
        repeats(
            g,
            s,
            h,
            t,
            #[trigger] crane_up_model(g, s, height, time),
            #[trigger] crane_up_model(h, t, height, time),
        ),
{
    broadcast use group_asks;
    broadcast use group_casts;
    broadcast use group_again;
    broadcast use lemma_again_cast_move;
    broadcast use lemma_again_move_character;
    broadcast use lemma_keeps_move_character;

    reveal(crane_up_model);
}

pub broadcast proof fn lemma_again_crane_along(
    g: History,
    s: Step,
    h: History,
    t: Step,
    height: Scalar,
    wish_dir: Vec3,
    dir: Vec3,
    speed: Scalar,
    time: Time,
)
    ensures
        repeats(
            g,
            s,
            h,
            t,
            #[trigger] crane_along_model(g, s, height, wish_dir, dir, speed, time),
            #[trigger] crane_along_model(h, t, height, wish_dir, dir, speed, time),
        ),
{
    broadcast use group_asks;
    broadcast use group_casts;
    broadcast use group_again;
    broadcast use lemma_again_cast_move;
    broadcast use lemma_again_crane_over;
    broadcast use lemma_again_crane_up;
    broadcast use lemma_keeps_crane_over;
    broadcast use lemma_keeps_crane_up;

    reveal(crane_along_model);
}

pub broadcast proof fn lemma_again_handle_crane_movement(
    g: History,
    s: Step,
    h: History,
    t: Step,
    wish_velocity: Vec3,
    time: Time,
)
    ensures
        repeats(
            g,
            s,
            h,
            t,
            #[trigger] handle_crane_movement_model(g, s, wish_velocity, time),
            #[trigger] handle_crane_movement_model(h, t, wish_velocity, time),
        ),
{
    broadcast use group_asks;
    broadcast use group_casts;
    broadcast use group_again;
    broadcast use lemma_again_crane_along;
    broadcast use lemma_keeps_crane_along;

    reveal(handle_crane_movement_model);
}

pub broadcast proof fn lemma_again_update_mantle_state(
    g: History,
    s: Step,
    h: History,
    t: Step,
    wish_velocity: Vec3,
    time: Time,
)
    ensures
        repeats(
            g,
            s,
            h,
            t,
            #[trigger] update_mantle_state_model(g, s, wish_velocity, time),
            #[trigger] update_mantle_state_model(h, t, wish_velocity, time),
        ),
{
    broadcast use group_asks;
    broadcast use group_casts;
    broadcast use group_again;
    broadcast use lemma_again_available_mantle_height;
    broadcast use lemma_keeps_available_mantle_height;

    reveal(update_mantle_state_model);
}

pub broadcast proof fn lemma_again_mantle_climb(
    g: History,
    s: Step,
    h: History,
    t: Step,
    wish_velocity: Vec3,
    left: Scalar,
    time: Time,
)
    ensures
        repeats(
            g,
            s,
            h,
            t,
            #[trigger] mantle_climb_model(g, s, wish_velocity, left, time),
            #[trigger] mantle_climb_model(h, t, wish_velocity, left, time),
        ),
{
    broadcast use group_asks;
    broadcast use group_casts;
    broadcast use group_again;
    broadcast use lemma_again_cast_move;
    broadcast use lemma_again_move_character;
    broadcast use lemma_keeps_move_character;

    reveal(mantle_climb_model);
}

pub broadcast proof fn lemma_again_mantle_carry(
    g: History,
    s: Step,
    h: History,
    t: Step,
    wall_normal: Vec3,
    hit: MoveHitData,
    time: Time,
)
    ensures
        repeats(
            g,
            s,
            h,
            t,
            #[trigger] mantle_carry_model(g, s, wall_normal, hit, time),
            #[trigger] mantle_carry_model(h, t, wall_normal, hit, time),
        ),
{
    broadcast use group_asks;
    broadcast use group_casts;
    broadcast use group_again;
    broadcast use lemma_again_calculate_platform_movement;
    broadcast use lemma_keeps_calculate_platform_movement;

    reveal(mantle_carry_model);
}

pub broadcast proof fn lemma_again_handle_mantle_movement(
    g: History,
    s: Step,
    h: History,
    t: Step,
    wish_velocity: Vec3,
    time: Time,
)
    ensures
        repeats(
            g,
            s,
            h,
            t,
            #[trigger] handle_mantle_movement_model(g, s, wish_velocity, time),
            #[trigger] handle_mantle_movement_model(h, t, wish_velocity, time),
        ),
{
    broadcast use group_asks;
    broadcast use group_casts;
    broadcast use group_again;
    broadcast use lemma_again_cast_move;
    broadcast use lemma_again_closest_wall_normal;
    broadcast use lemma_again_mantle_climb;
    broadcast use lemma_again_mantle_carry;
    broadcast use lemma_keeps_mantle_climb;
    broadcast use lemma_keeps_mantle_carry;

    reveal(handle_mantle_movement_model);
}

pub broadcast proof fn lemma_again_handle_climbdown(
    g: History,
    s: Step,
    h: History,
    t: Step,
    wish_velocity: Vec3,
    time: Time,
)
    ensures
        repeats(
            g,
            s,
            h,
            t,
            #[trigger] handle_climbdown_model(g, s, wish_velocity, time),
            #[trigger] handle_climbdown_model(h, t, wish_velocity, time),
        ),
{
    broadcast use group_asks;
    broadcast use group_casts;
    broadcast use group_again;
    broadcast use lemma_again_cast_move;
    broadcast use lemma_again_available_mantle_height;
    broadcast use lemma_keeps_available_mantle_height;

    reveal(handle_climbdown_model);
}

pub broadcast proof fn lemma_again_tac_wall(
    g: History,
    s: Step,
    h: History,
    t: Step,
    wish_velocity: Vec3,
    time: Time,
)
    ensures
        repeats_with(
            g,
            s,
            h,
            t,
            #[trigger] tac_wall_model(g, s, wish_velocity, time),
            #[trigger] tac_wall_model(h, t, wish_velocity, time),
        ),
{
    broadcast use group_asks;
    broadcast use group_casts;
    broadcast use group_again;
    broadcast use lemma_again_cast_move;

    reveal(tac_wall_model);
}

pub broadcast proof fn lemma_again_handle_tac(
    g: History,
    s: Step,
    h: History,
    t: Step,
    wish_velocity: Vec3,
    time: Time,
)
    ensures
        repeats_with(
            g,
            s,
            h,
            t,
            #[trigger] handle_tac_model(g, s, wish_velocity, time),
            #[trigger] handle_tac_model(h, t, wish_velocity, time),
        ),
{
    broadcast use group_asks;
    broadcast use group_casts;
    broadcast use group_again;
    broadcast use lemma_again_tac_wall;
    broadcast use lemma_keeps_tac_wall;

    reveal(handle_tac_model);
}

pub broadcast proof fn lemma_again_handle_bounce(g: History, s: Step, h: History, t: Step)
    ensures
        repeats(
            g,
            s,
            h,
            t,
            #[trigger] handle_bounce_model(g, s),
            #[trigger] handle_bounce_model(h, t),
        ),
{
    broadcast use group_asks;
    broadcast use group_casts;
    broadcast use group_again;
    broadcast use lemma_again_closest_wall_normal;

    reveal(handle_bounce_model);
}

pub broadcast proof fn lemma_again_handle_jump(
    g: History,
    s: Step,
    h: History,
    t: Step,
    wish_velocity: Vec3,
    time: Time,
)
    ensures
        repeats(
            g,
            s,
            h,
            t,
            #[trigger] handle_jump_model(g, s, wish_velocity, time),
            #[trigger] handle_jump_model(h, t, wish_velocity, time),
        ),
{
    broadcast use group_asks;
    broadcast use group_casts;
    broadcast use group_again;
    broadcast use lemma_again_set_grounded;
    broadcast use lemma_again_handle_tac;
    broadcast use lemma_keeps_set_grounded;
    broadcast use lemma_keeps_handle_tac;

    reveal(handle_jump_model);
}

pub broadcast proof fn lemma_again_handle_crouching(g: History, s: Step, h: History, t: Step)
    ensures
        repeats(
            g,
            s,
            h,
            t,
            #[trigger] handle_crouching_model(g, s),
            #[trigger] handle_crouching_model(h, t),
        ),
{
    broadcast use group_asks;
    broadcast use group_casts;
    broadcast use group_again;
    broadcast use lemma_again_is_intersecting;

    reveal(handle_crouching_model);
}

pub broadcast proof fn lemma_again_orient(g: History, s: Step, h: History, t: Step)
    ensures
        repeats(g, s, h, t, #[trigger] orient_model(g, s), #[trigger] orient_model(h, t)),
{
    broadcast use group_asks;
    broadcast use group_casts;
    broadcast use group_again;

    reveal(orient_model);
}

pub broadcast proof fn lemma_again_prepare(g: History, s: Step, h: History, t: Step, time: Time)
    ensures
        repeats(
            g,
            s,
            h,
            t,
            #[trigger] prepare_model(g, s, time),
            #[trigger] prepare_model(h, t, time),
        ),
{
    broadcast use group_asks;
    broadcast use group_casts;
    broadcast use group_again;
    broadcast use lemma_again_depenetrate_character;
    broadcast use lemma_again_update_grounded;
    broadcast use lemma_again_handle_crouching;
    broadcast use lemma_again_orient;
    broadcast use lemma_keeps_update_grounded;
    broadcast use lemma_keeps_handle_crouching;
    broadcast use lemma_keeps_orient;

    reveal(prepare_model);
}

pub broadcast proof fn lemma_again_locomote(
    g: History,
    s: Step,
    h: History,
    t: Step,
    wish_velocity: Vec3,
    wish_velocity_3d: Vec3,
    default_friction: Scalar,
    time: Time,
)
    ensures
        repeats(
            g,
            s,
            h,
            t,
            #[trigger] locomote_model(
                g,
                s,
                wish_velocity,
                wish_velocity_3d,
                default_friction,
                time,
            ),
            #[trigger] locomote_model(
                h,
                t,
                wish_velocity,
                wish_velocity_3d,
                default_friction,
                time,
            ),
        ),
{
    broadcast use group_asks;
    broadcast use group_casts;
    broadcast use group_again;
    broadcast use lemma_again_friction;
    broadcast use lemma_again_ground_move;
    broadcast use lemma_again_air_move;
    broadcast use lemma_again_water_move;
    broadcast use lemma_again_handle_bounce;
    broadcast use lemma_again_handle_jump;
    broadcast use lemma_keeps_friction;
    broadcast use lemma_keeps_ground_move;
    broadcast use lemma_keeps_air_move;
    broadcast use lemma_keeps_water_move;
    broadcast use lemma_keeps_handle_bounce;
    broadcast use lemma_keeps_handle_jump;

    reveal(locomote_model);
}

pub broadcast proof fn lemma_again_advance(
    g: History,
    s: Step,
    h: History,
    t: Step,
    wish_velocity: Vec3,
    wish_velocity_3d: Vec3,
    default_friction: Scalar,
    time: Time,
)
    ensures
        repeats(
            g,
            s,
            h,
            t,
            #[trigger] advance_model(g, s, wish_velocity, wish_velocity_3d, default_friction, time),
            #[trigger] advance_model(h, t, wish_velocity, wish_velocity_3d, default_friction, time),
        ),
{
    broadcast use group_asks;
    broadcast use group_casts;
    broadcast use group_again;
    broadcast use lemma_again_update_crane_state;
    broadcast use lemma_again_handle_crane_movement;
    broadcast use lemma_again_update_mantle_state;
    broadcast use lemma_again_handle_mantle_movement;
    broadcast use lemma_again_handle_jump;
    broadcast use lemma_again_locomote;
    broadcast use lemma_keeps_update_crane_state;
    broadcast use lemma_keeps_handle_crane_movement;
    broadcast use lemma_keeps_update_mantle_state;
    broadcast use lemma_keeps_handle_mantle_movement;
    broadcast use lemma_keeps_handle_jump;
    broadcast use lemma_keeps_locomote;

    reveal(advance_model);
}

pub broadcast proof fn lemma_again_settle(
    g: History,
    s: Step,
    h: History,
    t: Step,
    wish_velocity: Vec3,
    time: Time,
)
    ensures
        repeats(
            g,
            s,
            h,
            t,
            #[trigger] settle_model(g, s, wish_velocity, time),
            #[trigger] settle_model(h, t, wish_velocity, time),
        ),
{
    broadcast use group_asks;
    broadcast use group_casts;
    broadcast use group_again;
    broadcast use lemma_again_update_grounded;
    broadcast use lemma_again_handle_climbdown;
    broadcast use lemma_keeps_update_grounded;
    broadcast use lemma_keeps_handle_climbdown;

    reveal(settle_model);
}

pub broadcast proof fn lemma_again_step_body(
    g: History,
    s: Step,
    h: History,
    t: Step,
    default_friction: Scalar,
    time: Time,
)
    ensures
        repeats(
            g,
            s,
            h,
            t,
            #[trigger] step_body_model(g, s, default_friction, time),
            #[trigger] step_body_model(h, t, default_friction, time),
        ),
{
    broadcast use group_asks;
    broadcast use group_casts;
    broadcast use group_again;
    broadcast use lemma_again_prepare;
    broadcast use lemma_again_advance;
    broadcast use lemma_again_settle;
    broadcast use lemma_keeps_prepare;
    broadcast use lemma_keeps_advance;
    broadcast use lemma_keeps_settle;

    reveal(step_body_model);
}

pub broadcast proof fn lemma_again_step_kcc(
    g: History,
    s: Step,
    h: History,
    t: Step,
    default_friction: Scalar,
    time: Time,
)
    ensures
        repeats_with(
            g,
            s,
            h,
            t,
            #[trigger] step_kcc_model(g, s, default_friction, time),
            #[trigger] step_kcc_model(h, t, default_friction, time),
        ),
{
    broadcast use group_asks;
    broadcast use group_casts;
    broadcast use group_again;
    broadcast use lemma_again_collider_global_transform;
    broadcast use lemma_again_step_body;
    broadcast use lemma_keeps_step_body;

    reveal(step_kcc_model);
}

} // verus!
