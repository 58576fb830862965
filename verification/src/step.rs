//! One step of a character.
use crate::casting::{depenetrate_character, depenetrate_character_model};
use crate::climb::{
    handle_climbdown, handle_climbdown_model, handle_crane_movement, handle_crane_movement_model,
    handle_mantle_movement, handle_mantle_movement_model, update_crane_state,
    update_crane_state_model, update_mantle_state, update_mantle_state_model,
};
use crate::clock::{Duration, Time};
use crate::context::{no_new_press, CharacterControllerState, Ctx, CtxItem};
use crate::ground::{update_grounded, update_grounded_model};
use crate::jump::{handle_bounce, handle_bounce_model, handle_jump, handle_jump_model};
use crate::locomotion::{
    air_move, air_move_model, ground_move, ground_move_model, water_move, water_move_model,
};
use crate::motion::{
    calculate_3d_wish_velocity, calculate_wish_velocity, finish_gravity, friction, friction_model,
    gravity_finished, gravity_started, start_gravity, valid_velocity, validate_velocity,
    wish_velocity_3d_of, wish_velocity_of,
};
use crate::scalar::Scalar;
use crate::stance::{handle_crouching, handle_crouching_model, sliding_updated, update_sliding};
use crate::vector::{one, Transform, Vec3};
use crate::world::{
    ask_apply_movement, ask_look_rotation, ask_pose, extends, group_extends, step_at,
    ApplyMovement, History, Session, Step, World,
};
use vstd::prelude::*;

verus! {

/// The model of [`CtxItem::collider_global_transform`].
#[verifier::opaque]
pub open spec fn collider_global_transform_model(h: History, s: Step) -> (Step, Option<Transform>) {
    if s.ctx.colliders.len() == 0 {
        (s, None)
    } else {
        let (t, pose) = ask_pose(h, s, s.ctx.colliders[0]);
        (
            t,
            match pose {
                Some((translation, rotation)) => Some(
                    Transform { translation, rotation, scale: one() },
                ),
                None => None,
            },
        )
    }
}

impl CtxItem {
    /// Where the first collider of the body is.
    pub fn collider_global_transform<W: World>(&self, session: &mut Session<W>) -> (r: Option<
        Transform,
    >)
        ensures
            final(session).surroundings() == old(session).surroundings(),
        extends(old(session).log(), final(session).log()),
            forall|h: History|
                extends(final(session).log(), h) ==> #[trigger] collider_global_transform_model(
                    h,
                    step_at(old(session).log(), self@, self.transform),
                ) == (step_at(final(session).log(), self@, self.transform), r),
    {
        broadcast use group_extends;

        reveal(collider_global_transform_model);
        if self.colliders.len() == 0 {
            return None;
        }
        match session.pose(self.colliders[0]) {
            Some((translation, rotation)) => Some(
                Transform { translation, rotation, scale: one() },
            ),
            None => None,
        }
    }
}

/// A character as a step begins: nothing reported yet, and every clock one step later.
#[verifier::opaque]
pub open spec fn begun(c: Ctx, delta: Duration) -> Ctx {
    let state = CharacterControllerState {
        last_ground: c.state.last_ground.ticked(delta),
        last_land: c.state.last_land.ticked(delta),
        last_slide: c.state.last_slide.ticked(delta),
        last_bounce: c.state.last_bounce.ticked(delta),
        last_jump: c.state.last_jump.ticked(delta),
        last_tac: c.state.last_tac.ticked(delta),
        last_step_up: c.state.last_step_up.ticked(delta),
        last_step_down: c.state.last_step_down.ticked(delta),
        ..c.state
    };
    Ctx { mantle: None, touching: Seq::empty(), state, ..c }
}

/// Clears the report and lets the clocks tick.
fn begin(delta: Duration, ctx: &mut CtxItem)
    ensures
        final(ctx).cfg == old(ctx).cfg,
        final(ctx).input == old(ctx).input,
        final(ctx)@ == begun(old(ctx)@, delta),
{
    reveal(begun);
    ctx.output.mantle = None;
    ctx.output.touching_entities.clear();
    ctx.state.last_ground = ctx.state.last_ground.ticked(delta);
    ctx.state.last_land = ctx.state.last_land.ticked(delta);
    ctx.state.last_slide = ctx.state.last_slide.ticked(delta);
    ctx.state.last_bounce = ctx.state.last_bounce.ticked(delta);
    ctx.state.last_jump = ctx.state.last_jump.ticked(delta);
    ctx.state.last_tac = ctx.state.last_tac.ticked(delta);
    ctx.state.last_step_up = ctx.state.last_step_up.ticked(delta);
    ctx.state.last_step_down = ctx.state.last_step_down.ticked(delta);
}

/// The model of [`orient`].
#[verifier::opaque]
pub open spec fn orient_model(h: History, s: Step) -> Step {
    let (t, orientation) = match s.ctx.look {
        Some(look) => ask_look_rotation(h, s, look),
        None => (s, s.transform.rotation),
    };
    t.with_state(CharacterControllerState { orientation, ..t.ctx.state })
}

/// Turns a character to where it looks, or to how its body is turned.
pub fn orient<W: World>(session: &mut Session<W>, ctx: &mut CtxItem, transform: &Transform)
    ensures
        final(session).surroundings() == old(session).surroundings(),
        extends(old(session).log(), final(session).log()),
        final(ctx).cfg == old(ctx).cfg,
        no_new_press(old(ctx).input, final(ctx).input),
        forall|h: History|
            extends(final(session).log(), h) ==> #[trigger] orient_model(
                h,
                step_at(old(session).log(), old(ctx)@, *transform),
            ) == step_at(final(session).log(), final(ctx)@, *transform),
{
    broadcast use group_extends;

    reveal(orient_model);
    ctx.state.orientation = match ctx.look {
        Some(look) => session.look_rotation(look),
        None => transform.rotation,
    };
}

/// The model of [`prepare`].
#[verifier::opaque]
pub open spec fn prepare_model(h: History, s: Step, time: Time) -> Step {
    let s1 = s.with_ctx(begun(s.ctx, time.delta));
    let s2 = update_grounded_model(h, depenetrate_character_model(h, s1), time);
    let s3 = handle_crouching_model(h, s2);
    let s4 = s3.with_ctx(sliding_updated(s3.ctx));
    let s5 = if s4.ctx.water.above_feet() {
        s4
    } else {
        s4.with_ctx(gravity_started(s4.ctx, time.delta_secs))
    };
    orient_model(h, s5)
}

/// The part of a step before its movement: the ground, the stance, and half of gravity.
pub fn prepare<W: World>(
    time: &Time,
    session: &mut Session<W>,
    ctx: &mut CtxItem,
    transform: &mut Transform,
)
    ensures
        final(session).surroundings() == old(session).surroundings(),
        extends(old(session).log(), final(session).log()),
        final(ctx).cfg == old(ctx).cfg,
        no_new_press(old(ctx).input, final(ctx).input),
        final(transform).rotation == old(transform).rotation,
        final(transform).scale == old(transform).scale,
        forall|h: History|
            extends(final(session).log(), h) ==> #[trigger] prepare_model(
                h,
                step_at(old(session).log(), old(ctx)@, *old(transform)),
                *time,
            ) == step_at(final(session).log(), final(ctx)@, *final(transform)),
{
    broadcast use group_extends;

    reveal(prepare_model);
    begin(time.delta, ctx);
    depenetrate_character(session, ctx, transform);
    update_grounded(time, session, ctx, transform);
    handle_crouching(session, ctx, transform);
    update_sliding(ctx);
    if !ctx.water.above_feet() {
        start_gravity(time, ctx);
    }
    orient(session, ctx, transform);
}

/// The model of [`locomote`].
#[verifier::opaque]
pub open spec fn locomote_model(
    h: History,
    s: Step,
    wish_velocity: Vec3,
    wish_velocity_3d: Vec3,
    default_friction: Scalar,
    time: Time,
) -> Step {
    let s1 = handle_bounce_model(h, handle_jump_model(h, s, wish_velocity, time));
    let s2 = friction_model(h, s1, default_friction, time);
    let s3 = s2.with_velocity(valid_velocity(s2.ctx.velocity, s2.ctx.cfg.max_speed));
    if s3.ctx.water.above_feet() {
        water_move_model(h, s3, wish_velocity_3d, time)
    } else if s3.ctx.state.grounded is Some {
        ground_move_model(h, s3, wish_velocity, time)
    } else {
        air_move_model(h, s3, wish_velocity, time)
    }
}

/// Jumps, bounces, brakes, and then swims, walks or flies. Friction comes before the velocity of
/// the ground is added, so that a conveyor does not slow what stands still on it.
pub fn locomote<W: World>(
    wish_velocity: Vec3,
    wish_velocity_3d: Vec3,
    default_friction: Scalar,
    time: &Time,
    session: &mut Session<W>,
    ctx: &mut CtxItem,
    transform: &mut Transform,
)
    ensures
        final(session).surroundings() == old(session).surroundings(),
        extends(old(session).log(), final(session).log()),
        final(ctx).cfg == old(ctx).cfg,
        no_new_press(old(ctx).input, final(ctx).input),
        final(transform).rotation == old(transform).rotation,
        final(transform).scale == old(transform).scale,
        forall|h: History|
            extends(final(session).log(), h) ==> #[trigger] locomote_model(
                h,
                step_at(old(session).log(), old(ctx)@, *old(transform)),
                wish_velocity,
                wish_velocity_3d,
                default_friction,
                *time,
            ) == step_at(final(session).log(), final(ctx)@, *final(transform)),
{
    broadcast use group_extends;

    reveal(locomote_model);
    handle_jump(wish_velocity, time, session, ctx, transform);
    handle_bounce(session, ctx, transform);
    friction(time, default_friction, session, ctx, transform);
    validate_velocity(ctx);
    if ctx.water.above_feet() {
        water_move(wish_velocity_3d, time, session, ctx, transform);
    } else if ctx.state.grounded.is_some() {
        ground_move(wish_velocity, time, session, ctx, transform);
    } else {
        air_move(wish_velocity, time, session, ctx, transform);
    }
}

/// The model of [`advance`].
#[verifier::opaque]
pub open spec fn advance_model(
    h: History,
    s: Step,
    wish_velocity: Vec3,
    wish_velocity_3d: Vec3,
    default_friction: Scalar,
    time: Time,
) -> Step {
    let s1 = update_mantle_state_model(
        h,
        update_crane_state_model(h, s, wish_velocity, time),
        wish_velocity,
        time,
    );
    if s1.ctx.state.crane_height_left is Some {
        handle_crane_movement_model(h, s1, wish_velocity, time)
    } else if s1.ctx.state.mantle is Some {
        handle_mantle_movement_model(
            h,
            handle_jump_model(h, s1, wish_velocity, time),
            wish_velocity_3d,
            time,
        )
    } else {
        locomote_model(h, s1, wish_velocity, wish_velocity_3d, default_friction, time)
    }
}

/// The movement of a step: a crane, a mantle, or everything else.
pub fn advance<W: World>(
    wish_velocity: Vec3,
    wish_velocity_3d: Vec3,
    default_friction: Scalar,
    time: &Time,
    session: &mut Session<W>,
    ctx: &mut CtxItem,
    transform: &mut Transform,
)
    ensures
        final(session).surroundings() == old(session).surroundings(),
        extends(old(session).log(), final(session).log()),
        final(ctx).cfg == old(ctx).cfg,
        no_new_press(old(ctx).input, final(ctx).input),
        final(transform).rotation == old(transform).rotation,
        final(transform).scale == old(transform).scale,
        forall|h: History|
            extends(final(session).log(), h) ==> #[trigger] advance_model(
                h,
                step_at(old(session).log(), old(ctx)@, *old(transform)),
                wish_velocity,
                wish_velocity_3d,
                default_friction,
                *time,
            ) == step_at(final(session).log(), final(ctx)@, *final(transform)),
{
    broadcast use group_extends;

    reveal(advance_model);
    update_crane_state(wish_velocity, time, session, ctx, transform);
    update_mantle_state(wish_velocity, time, session, ctx, transform);
    if ctx.state.crane_height_left.is_some() {
        handle_crane_movement(wish_velocity, time, session, ctx, transform);
    } else if ctx.state.mantle.is_some() {
        handle_jump(wish_velocity, time, session, ctx, transform);
        handle_mantle_movement(wish_velocity_3d, time, session, ctx, transform);
    } else {
        locomote(
            wish_velocity,
            wish_velocity_3d,
            default_friction,
            time,
            session,
            ctx,
            transform,
        );
    }
}

/// A character as a step ends: the other half of gravity, and on the ground the ground's own
/// vertical velocity.
#[verifier::opaque]
pub open spec fn ended(c: Ctx, secs: Scalar) -> Ctx {
    let valid = c.with_velocity(valid_velocity(c.velocity, c.cfg.max_speed));
    let fell = if c.water.above_feet() {
        valid
    } else {
        gravity_finished(valid, secs)
    };
    if fell.state.grounded is Some {
        fell.with_velocity(
            fell.velocity.with_y(fell.state.platform_velocity.y),
        ).with_state(
            CharacterControllerState {
                last_ground: fell.state.last_ground.restarted(),
                ..fell.state
            },
        )
    } else {
        fell
    }
}

/// Ends a step.
fn end(time: &Time, ctx: &mut CtxItem)
    ensures
        final(ctx).cfg == old(ctx).cfg,
        final(ctx).input == old(ctx).input,
        final(ctx)@ == ended(old(ctx)@, time.delta_secs),
{
    reveal(ended);
    validate_velocity(ctx);
    if !ctx.water.above_feet() {
        finish_gravity(time, ctx);
    }
    if ctx.state.grounded.is_some() {
        ctx.velocity.y = ctx.state.platform_velocity.y;
        ctx.state.last_ground = ctx.state.last_ground.restarted();
    }
}

/// The model of [`settle`].
#[verifier::opaque]
pub open spec fn settle_model(h: History, s: Step, wish_velocity: Vec3, time: Time) -> Step {
    let s1 = update_grounded_model(h, s, time);
    let s2 = if s.ctx.state.grounded is Some {
        handle_climbdown_model(h, s1, wish_velocity, time)
    } else {
        s1
    };
    s2.with_ctx(ended(s2.ctx, time.delta_secs))
}

/// The part of a step after its movement: the new ground, a climb down where the ground ended, and
/// the rest of gravity.
pub fn settle<W: World>(
    wish_velocity: Vec3,
    time: &Time,
    session: &mut Session<W>,
    ctx: &mut CtxItem,
    transform: &mut Transform,
)
    ensures
        final(session).surroundings() == old(session).surroundings(),
        extends(old(session).log(), final(session).log()),
        final(ctx).cfg == old(ctx).cfg,
        no_new_press(old(ctx).input, final(ctx).input),
        final(transform).rotation == old(transform).rotation,
        final(transform).scale == old(transform).scale,
        forall|h: History|
            extends(final(session).log(), h) ==> #[trigger] settle_model(
                h,
                step_at(old(session).log(), old(ctx)@, *old(transform)),
                wish_velocity,
                *time,
            ) == step_at(final(session).log(), final(ctx)@, *final(transform)),
{
    broadcast use group_extends;

    reveal(settle_model);
    let was_grounded = ctx.state.grounded.is_some();
    update_grounded(time, session, ctx, transform);
    if was_grounded {
        handle_climbdown(wish_velocity, time, session, ctx, transform);
    }
    end(time, ctx);
}

/// The model of the step of a body that starts out at `s.transform`.
#[verifier::opaque]
pub open spec fn step_body_model(h: History, s: Step, default_friction: Scalar, time: Time) -> Step {
    let s1 = prepare_model(h, s, time);
    let wish_velocity = wish_velocity_of(s1.ctx);
    let s2 = advance_model(
        h,
        s1,
        wish_velocity,
        wish_velocity_3d_of(s1.ctx),
        default_friction,
        time,
    );
    settle_model(h, s2, wish_velocity, time)
}

/// Steps a character whose body is at `transform`.
pub fn step_body<W: World>(
    default_friction: Scalar,
    time: &Time,
    session: &mut Session<W>,
    ctx: &mut CtxItem,
    transform: &mut Transform,
)
    ensures
        final(session).surroundings() == old(session).surroundings(),
        extends(old(session).log(), final(session).log()),
        final(ctx).cfg == old(ctx).cfg,
        no_new_press(old(ctx).input, final(ctx).input),
        final(transform).rotation == old(transform).rotation,
        final(transform).scale == old(transform).scale,
        forall|h: History|
            extends(final(session).log(), h) ==> #[trigger] step_body_model(
                h,
                step_at(old(session).log(), old(ctx)@, *old(transform)),
                default_friction,
                *time,
            ) == step_at(final(session).log(), final(ctx)@, *final(transform)),
{
    broadcast use group_extends;

    reveal(step_body_model);
    prepare(time, session, ctx, transform);
    let wish_velocity = calculate_wish_velocity(ctx);
    let wish_velocity_3d = calculate_3d_wish_velocity(ctx);
    advance(wish_velocity, wish_velocity_3d, default_friction, time, session, ctx, transform);
    settle(wish_velocity, time, session, ctx, transform);
}

/// The step of a character that is about to be stepped.
pub open spec fn step_of(at: nat, ok: bool, c: Ctx) -> Step {
    Step { ctx: c, transform: c.transform, at, ok }
}

/// The model of [`step_kcc`].
#[verifier::opaque]
pub open spec fn step_kcc_model(h: History, s: Step, default_friction: Scalar, time: Time) -> (
    Step,
    bool,
) {
    let (s1, pose) = collider_global_transform_model(h, s);
    match pose {
        None => (s1, false),
        Some(original) => {
            let s2 = step_body_model(h, Step { transform: original, ..s1 }, default_friction, time);
            let (s3, moved) = ask_apply_movement(
                h,
                s2,
                ApplyMovement { original, moved: s2.transform, current: s2.ctx.transform },
            );
            (step_of(s3.at, s3.ok, Ctx { transform: moved, ..s3.ctx }), true)
        },
    }
}

/// Steps a character: moves its body from where its collider is, and moves the character along.
/// Nothing happens to a character whose collider is nowhere; the result tells which it was.
pub fn step_kcc<W: World>(
    default_friction: Scalar,
    time: &Time,
    session: &mut Session<W>,
    ctx: &mut CtxItem,
) -> (r: bool)
    ensures
        final(session).faithful(),
        final(session).surroundings() == old(session).surroundings(),
        extends(old(session).log(), final(session).log()),
        final(ctx).cfg == old(ctx).cfg,
        no_new_press(old(ctx).input, final(ctx).input),
        !r ==> final(ctx)@ == old(ctx)@,
        forall|h: History|
            extends(final(session).log(), h) ==> #[trigger] step_kcc_model(
                h,
                step_at(old(session).log(), old(ctx)@, old(ctx).transform),
                default_friction,
                *time,
            ) == (step_at(final(session).log(), final(ctx)@, final(ctx).transform), r),
{
    broadcast use group_extends;

    reveal(step_kcc_model);
    let original = match ctx.collider_global_transform(session) {
        Some(transform) => transform,
        None => {
            session.attest();
            return false;
        },
    };
    let mut transform = original;
    step_body(default_friction, time, session, ctx, &mut transform);
    ctx.transform = session.apply_movement(
        ApplyMovement { original, moved: transform, current: ctx.transform },
    );
    session.attest();
    true
}

} // verus!
