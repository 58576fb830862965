//! Which course a step takes.
use crate::amounts::{amount, extent};
use crate::casting::{cast_move_model, depenetrate_character_model, move_character_model};
use crate::choice_laws::hit_at;
use crate::climb::{
    crane_along_model, crane_over_model, crane_up_model, craning, handle_crane_movement_model,
    handle_mantle_movement_model, mantling, update_crane_state_model, update_mantle_state_model,
};
use crate::clock::Time;
use crate::config::CharacterController;
use crate::context::{AccumulatedInput, CharacterControllerState};
use crate::estimates::{lemma_compared, stands};
use crate::figures::law_constants;
use crate::jump::{
    bounce_ready, handle_bounce_model, handle_jump_model, handle_tac_model, launched, ledge_jump,
};
use crate::laws::{finite, law_ledge_probe_is_harmless, law_mantle_probe_is_harmless};
use crate::ledge::{
    available_crane_height_model, available_ledge_height_model, available_mantle_height_model,
    probe_velocity,
};
use crate::locomotion::{
    air_move_model, carried_step_model, ground_move_model, step_move_model, swim_wish,
    water_move_model,
};
use crate::motion::{
    accelerated, air_accelerate_model, braked, friction_drop, friction_model, friction_speed,
    surface_friction_model, valid_velocity, wish_speed, THOUSANDTH,
};
use crate::ride_laws::{lemma_difference_stands, lemma_sum_stands, lemma_turn_stands};
use crate::scalar::{num, Scalar, ZERO};
use crate::step::{advance_model, locomote_model, orient_model};
use crate::vector::Vec3;
use crate::world::{
    ask_cast_move, ask_depenetrate, ask_look_rotation, ask_slide, group_asks, History, Step,
};
use vstd::prelude::*;

verus! {

/// Friction works on the horizontal speed on the ground, on the whole speed in water and not at all
/// in the air. Less than a thousandth is left alone; of more, it takes what the surface takes.
#[verifier::spinoff_prover]
pub proof fn law_friction_acts(h: History, s: Step, default_friction: Scalar, time: Time)
    requires
        s.ctx.velocity.xz().length().is_finite(),
        s.ctx.velocity.length().is_finite(),
    ensures
        ({
            let t = friction_model(h, s, default_friction, time);
            let v = s.ctx.velocity;
            let speed = if s.ctx.state.grounded is Some {
                v.xz().length()
            } else {
                v.length()
            };
            let surface = surface_friction_model(h, s, default_friction).1;
            let bit = 1 as real / 0x1000_0000 as real;
            let works = s.ctx.state.grounded is Some || s.ctx.water.above_feet();
            &&& !works ==> t == s
            &&& works && amount(speed) < 1 as real / 1000 as real - bit ==> t == s
            &&& works && amount(speed) > 1 as real / 1000 as real + bit ==> t.ctx.velocity
                == braked(v, speed, friction_drop(s.ctx, speed, surface, time.delta_secs))
            &&& t.transform == s.transform && t.ctx.state == s.ctx.state
        }),
{
    broadcast use group_asks;

    reveal(friction_model);
    reveal(friction_speed);
    reveal(surface_friction_model);
    law_constants();
    lemma_compared(s.ctx.velocity.xz().length(), num(THOUSANDTH));
    lemma_compared(s.ctx.velocity.length(), num(THOUSANDTH));
}

/// The speed that a wish asks for: the full speed, or when crouching a share of it, but for
/// rounding.
#[verifier::spinoff_prover]
pub proof fn law_wish_speed(cfg: CharacterController, m: real)
    requires
        (cfg.speed * cfg.crouch_speed_scale).is_finite(),
        extent(cfg.speed) <= m,
        0 as real <= amount(cfg.crouch_speed_scale),
        amount(cfg.crouch_speed_scale) <= 1 as real,
    ensures
        wish_speed(cfg, false) == cfg.speed,
        stands(
            wish_speed(cfg, true),
            amount(cfg.speed) * amount(cfg.crouch_speed_scale),
            m,
            1 as real,
        ),
{
    lemma_turn_stands(cfg.speed, cfg.crouch_speed_scale, m);
}

/// Whether the parts of `a` are those of `b` and `c` together, but for rounding.
pub open spec fn together(a: Vec3, b: Vec3, c: Vec3, m: real) -> bool {
    &&& stands(a.x, amount(b.x) + amount(c.x), m, 1 as real)
    &&& stands(a.y, amount(b.y) + amount(c.y), m, 1 as real)
    &&& stands(a.z, amount(b.z) + amount(c.z), m, 1 as real)
}

/// Whether the parts of `a` and `b` are within the measure `m`.
pub open spec fn both_within(a: Vec3, b: Vec3, m: real) -> bool {
    &&& extent(a.x) + extent(b.x) <= m
    &&& extent(a.y) + extent(b.y) <= m
    &&& extent(a.z) + extent(b.z) <= m
}

#[verifier::spinoff_prover]
pub proof fn lemma_together(a: Vec3, b: Vec3, m: real)
    requires
        finite(a + b),
        both_within(a, b, m),
    ensures
        together(a + b, a, b, m),
{
    reveal(Vec3::spec_add);
    lemma_sum_stands(a.x, b.x, m);
    lemma_sum_stands(a.y, b.y, m);
    lemma_sum_stands(a.z, b.z, m);
}

/// Whether the parts of `a` are those of `b` without those of `c`, but for rounding.
pub open spec fn without(a: Vec3, b: Vec3, c: Vec3, m: real) -> bool {
    &&& stands(a.x, amount(b.x) - amount(c.x), m, 1 as real)
    &&& stands(a.y, amount(b.y) - amount(c.y), m, 1 as real)
    &&& stands(a.z, amount(b.z) - amount(c.z), m, 1 as real)
}

#[verifier::spinoff_prover]
pub proof fn lemma_without(a: Vec3, b: Vec3, m: real)
    requires
        finite(a - b),
        both_within(a, b, m),
    ensures
        without(a - b, a, b, m),
{
    reveal(Vec3::spec_sub);
    lemma_difference_stands(a.x, b.x, m);
    lemma_difference_stands(a.y, b.y, m);
    lemma_difference_stands(a.z, b.z, m);
}

/// In the air and in water a character moves with the velocity of the ground that it left added to
/// its own, and has it taken away again afterwards, but for rounding.
#[verifier::spinoff_prover]
pub proof fn law_carried_step(h: History, s: Step, time: Time, m: real)
    requires
        ({
            let base = s.ctx.state.platform_velocity;
            let moving = s.with_velocity(s.ctx.velocity + base);
            let moved = step_move_model(h, moving, time);
            &&& finite(s.ctx.velocity + base) && both_within(s.ctx.velocity, base, m)
            &&& finite(moved.ctx.velocity - moved.ctx.state.platform_velocity)
            &&& both_within(moved.ctx.velocity, moved.ctx.state.platform_velocity, m)
        }),
    ensures
        exists|moving: Step|
            {
                let moved = #[trigger] step_move_model(h, moving, time);
                let after = carried_step_model(h, s, time);
                &&& together(
                    moving.ctx.velocity,
                    s.ctx.velocity,
                    s.ctx.state.platform_velocity,
                    m,
                )
                &&& moving == s.with_velocity(moving.ctx.velocity)
                &&& without(
                    after.ctx.velocity,
                    moved.ctx.velocity,
                    moved.ctx.state.platform_velocity,
                    m,
                )
                &&& after == moved.with_velocity(after.ctx.velocity)
            },
{
    reveal(carried_step_model);
    let base = s.ctx.state.platform_velocity;
    let moving = s.with_velocity(s.ctx.velocity + base);
    let moved = step_move_model(h, moving, time);
    lemma_together(s.ctx.velocity, base, m);
    lemma_without(moved.ctx.velocity, moved.ctx.state.platform_velocity, m);
    assert(moving == s.with_velocity(moving.ctx.velocity));
}

/// A swimmer speeds up along its wish at the acceleration of the water before it moves, and a wish
/// to rise is spent. In the air the wish pushes with the control that a character has there.
pub proof fn law_moves_off_ground(h: History, s: Step, wish_velocity: Vec3, time: Time)
    ensures
        exists|swimming: Step|
            {
                &&& water_move_model(h, s, wish_velocity, time) == #[trigger] carried_step_model(
                    h,
                    swimming,
                    time,
                )
                &&& swimming.ctx.velocity == accelerated(
                    s.ctx.velocity,
                    swim_wish(s.ctx, wish_velocity),
                    s.ctx.cfg.water_acceleration_hz,
                    time.delta_secs,
                )
                &&& !swimming.ctx.input.swim_up
                &&& swimming.transform == s.transform && swimming.ctx.state == s.ctx.state
            },
        air_move_model(h, s, wish_velocity, time) == carried_step_model(
            h,
            air_accelerate_model(h, s, wish_velocity, s.ctx.cfg.air_control, time),
            time,
        ),
{
    reveal(water_move_model);
    reveal(air_move_model);
    let c = s.ctx;
    let velocity = accelerated(
        c.velocity,
        swim_wish(c, wish_velocity),
        c.cfg.water_acceleration_hz,
        time.delta_secs,
    );
    let swimming = s.with_ctx(
        c.with_input(
            AccumulatedInput { swim_up: false, ..c.input },
        ).with_velocity(velocity),
    );
    assert(water_move_model(h, s, wish_velocity, time) == carried_step_model(h, swimming, time));
}

/// A crane that was asked for in time starts where a ledge is found within its height, and has that
/// height to go. Where none is found, no crane goes on.
pub proof fn law_crane_starts(h: History, s: Step, wish_velocity: Vec3, time: Time)
    requires
        s.ctx.input.craned matches Some(press) && !s.ctx.cfg.crane_input_buffer.lt(press.elapsed),
    ensures
        ({
            let cfg = s.ctx.cfg;
            let t = update_crane_state_model(h, s, wish_velocity, time);
            let found = available_ledge_height_model(
                h,
                s,
                wish_velocity,
                cfg.min_crane_ledge_space,
                cfg.min_crane_cos,
                cfg.crane_height,
                time,
            ).1;
            &&& t.ctx.state.crane_height_left == found
            &&& found is Some ==> t.ctx.state.mantle is None && t.ctx.input.craned is None
            &&& found is None ==> t.ctx.input.craned == s.ctx.input.craned
        }),
{
    reveal(update_crane_state_model);
    reveal(available_crane_height_model);
    reveal(craning);
    law_ledge_probe_is_harmless(
        h,
        s,
        wish_velocity,
        s.ctx.cfg.min_crane_ledge_space,
        s.ctx.cfg.min_crane_cos,
        s.ctx.cfg.crane_height,
        time,
    );
}

/// A mantle that was asked for in time, without a crane or a mantle going on, starts where one is
/// found, as it was found, and is reported. Where none is found, none starts.
pub proof fn law_mantle_starts(h: History, s: Step, wish_velocity: Vec3, time: Time)
    requires
        s.ctx.state.crane_height_left is None,
        s.ctx.state.mantle is None,
        s.ctx.input.mantled matches Some(press) && !s.ctx.cfg.mantle_input_buffer.lt(
            press.elapsed,
        ),
    ensures
        ({
            let t = update_mantle_state_model(h, s, wish_velocity, time);
            let found = available_mantle_height_model(h, s, wish_velocity, time).1;
            &&& found is None ==> t.ctx.state.mantle is None && t.ctx.mantle == s.ctx.mantle
            &&& found matches Some((state, output)) ==> t.ctx.state.mantle == Some(state)
                && t.ctx.mantle == Some(output)
        }),
{
    reveal(update_mantle_state_model);
    reveal(mantling);
    law_mantle_probe_is_harmless(h, s, wish_velocity, time);
}

/// A crane goes on as long as there is a wall ahead that is faced. It rises, and at the top it goes
/// over the ledge: with nothing ahead the body moves on in its direction and the crane is over.
/// With something ahead the crane goes on exactly if height is left.
pub proof fn law_crane_course(
    h: History,
    s: Step,
    height: Scalar,
    wish_dir: Vec3,
    dir: Vec3,
    speed: Scalar,
    time: Time,
)
    ensures
        ({
            let t = crane_along_model(h, s, height, wish_dir, dir, speed, time);
            let wall = hit_at(h, s.at);
            let faced = wall matches Some(hit) && {
                let normal = hit.normal1.flat().normalize_or_zero();
                !normal.negated().dot(wish_dir).lt(s.ctx.cfg.min_crane_cos)
            };
            let near = cast_move_model(h, s, wish_dir * s.ctx.cfg.min_crane_ledge_space).0;
            let top = crane_up_model(h, near, height, time);
            let there = top.transform.translation;
            let ahead = hit_at(h, top.at);
            let left = top.ctx.state.crane_height_left;
            let over = left is None || left->Some_0.same(num(ZERO));
            &&& !faced ==> t.ctx.state.crane_height_left is None && t.transform == s.transform
            &&& t.ok ==> h[s.at as int]->CastMove_query.movement == wish_dir
                * s.ctx.cfg.min_crane_ledge_space
            &&& faced && ahead is None ==> t.ctx.state.crane_height_left is None
                && t.transform.translation == there + dir * speed * time.delta_secs + h[(top.at
                + 1) as int]->Depenetrate_reply
            &&& faced && ahead is Some ==> t.transform.translation == there
                && t.ctx.state.crane_height_left == if over {
                None
            } else {
                left
            }
            &&& faced && t.ok ==> h[top.at as int]->CastMove_query.movement == dir
                * top.ctx.cfg.min_crane_ledge_space
        }),
{
    reveal(crane_along_model);
    reveal(crane_over_model);
    reveal(cast_move_model);
    reveal(ask_cast_move);
    reveal(depenetrate_character_model);
    reveal(ask_depenetrate);
    reveal(crane_up_model);
    reveal(move_character_model);
    reveal(ask_slide);
}

/// The look of a character follows what it looks at, else its body.
pub proof fn law_orients(h: History, s: Step)
    ensures
        ({
            let t = orient_model(h, s);
            &&& s.ctx.look is None ==> t.ctx.state.orientation == s.transform.rotation
            &&& s.ctx.look matches Some(look) ==> {
                &&& t.ctx.state.orientation == h[s.at as int]->LookRotation_reply
                &&& t.ok ==> h[s.at as int] is LookRotation
                    && h[s.at as int]->LookRotation_look == look
            }
            &&& t.transform == s.transform && t.ctx.velocity == s.ctx.velocity
        }),
{
    reveal(orient_model);
    reveal(ask_look_rotation);
}

/// What a character does in a step, once a crane and a mantle had their chance to start: a crane
/// goes before a mantle, which may jump off, and both go before everything else.
pub proof fn law_advance(
    h: History,
    s: Step,
    wish_velocity: Vec3,
    wish_velocity_3d: Vec3,
    default_friction: Scalar,
    time: Time,
)
    ensures
        ({
            let t = advance_model(h, s, wish_velocity, wish_velocity_3d, default_friction, time);
            let ready = update_mantle_state_model(
                h,
                update_crane_state_model(h, s, wish_velocity, time),
                wish_velocity,
                time,
            );
            let state = ready.ctx.state;
            &&& state.crane_height_left is Some ==> t == handle_crane_movement_model(
                h,
                ready,
                wish_velocity,
                time,
            )
            &&& state.crane_height_left is None && state.mantle is Some ==> t
                == handle_mantle_movement_model(
                h,
                handle_jump_model(h, ready, wish_velocity, time),
                wish_velocity_3d,
                time,
            )
            &&& state.crane_height_left is None && state.mantle is None ==> t == locomote_model(
                h,
                ready,
                wish_velocity,
                wish_velocity_3d,
                default_friction,
                time,
            )
        }),
{
    reveal(advance_model);
}

/// Without a crane or a mantle a character jumps, bounces, loses speed to friction and is kept
/// within its highest speed. Then it swims where the water is above its feet, along its look; else
/// it walks on the ground, else it moves through the air, both along its horizontal wish.
pub proof fn law_locomotion(
    h: History,
    s: Step,
    wish_velocity: Vec3,
    wish_velocity_3d: Vec3,
    default_friction: Scalar,
    time: Time,
)
    ensures
        ({
            let end = locomote_model(
                h,
                s,
                wish_velocity,
                wish_velocity_3d,
                default_friction,
                time,
            );
            let jumped = handle_bounce_model(h, handle_jump_model(h, s, wish_velocity, time));
            let slowed = friction_model(h, jumped, default_friction, time);
            let t = slowed.with_velocity(
                valid_velocity(slowed.ctx.velocity, slowed.ctx.cfg.max_speed),
            );
            if t.ctx.water.above_feet() {
                end == water_move_model(h, t, wish_velocity_3d, time)
            } else if t.ctx.state.grounded is Some {
                end == ground_move_model(h, t, wish_velocity, time)
            } else {
                end == air_move_model(h, t, wish_velocity, time)
            }
        }),
{
    reveal(locomote_model);
}

/// A crane that goes on moves along the level velocity, sped up along the wish, with the ground's
/// own; it faces the way of the wish, or of that velocity where there is no wish. At rest it ends.
pub proof fn law_crane_moves(h: History, s: Step, wish_velocity: Vec3, time: Time)
    requires
        s.ctx.state.crane_height_left is Some,
    ensures
        ({
            let t = handle_crane_movement_model(h, s, wish_velocity, time);
            let base = s.ctx.state.platform_velocity;
            let velocity = accelerated(
                s.ctx.velocity.flat(),
                wish_velocity,
                s.ctx.cfg.acceleration_hz,
                time.delta_secs,
            ).flat() + base;
            let from = s.with_velocity(velocity - base);
            match velocity.direction_and_length() {
                None => t.ctx.state.crane_height_left is None && t.transform == s.transform,
                Some((dir, speed)) => t == crane_along_model(
                    h,
                    from,
                    s.ctx.state.crane_height_left->Some_0,
                    match wish_velocity.direction() {
                        Some(wish_dir) => wish_dir,
                        None => dir,
                    },
                    dir,
                    speed,
                    time,
                ),
            }
        }),
{
    reveal(handle_crane_movement_model);
    reveal(probe_velocity);
}

/// What was not asked for does not happen, and nothing is asked of the surroundings for it: no
/// crane, mantle or bounce starts without a press, a mantle that goes on is not started again, and
/// without a crane or a mantle neither moves the character.
pub proof fn law_unasked(h: History, s: Step, wish_velocity: Vec3, time: Time)
    ensures
        s.ctx.input.craned is None ==> update_crane_state_model(h, s, wish_velocity, time) == s,
        s.ctx.state.crane_height_left is None && (s.ctx.state.mantle is Some
            || s.ctx.input.mantled is None) ==> update_mantle_state_model(
            h,
            s,
            wish_velocity,
            time,
        ) == s,
        s.ctx.input.bounced is None ==> handle_bounce_model(h, s) == s,
        s.ctx.state.crane_height_left is None ==> handle_crane_movement_model(
            h,
            s,
            wish_velocity,
            time,
        ) == s,
        s.ctx.state.mantle is None ==> handle_mantle_movement_model(h, s, wish_velocity, time) == s,
{
    reveal(update_crane_state_model);
    reveal(update_mantle_state_model);
    reveal(handle_bounce_model);
    reveal(bounce_ready);
    reveal(handle_crane_movement_model);
    reveal(handle_mantle_movement_model);
}

/// Off the ground for longer than it still counts as on it, a character kicks off a wall where it
/// can; else it leaps off the ledge that it holds, and lets go of it; else nothing happens to it.
pub proof fn law_jump_in_the_air(h: History, s: Step, wish_velocity: Vec3, time: Time)
    requires
        s.ctx.state.grounded is None,
        s.ctx.cfg.coyote_time.lt(s.ctx.state.last_ground.elapsed),
    ensures
        ({
            let t = handle_jump_model(h, s, wish_velocity, time);
            let (near, kick) = handle_tac_model(h, s, wish_velocity, time);
            let leap = ledge_jump(near.ctx);
            &&& t.transform == near.transform && t.at == near.at && t.ok == near.ok
            &&& kick matches Some(dir) ==> t.ctx == launched(near.ctx, dir)
            &&& kick is None && leap is None ==> t.ctx == near.ctx
            &&& kick is None && leap is Some ==> {
                let free = CharacterControllerState { mantle: None, ..near.ctx.state };
                t.ctx == launched(near.ctx.with_state(free), leap->Some_0)
            }
        }),
{
    reveal(handle_jump_model);
}

} // verus!
