//! How velocity changes: wishes, acceleration, friction and gravity.
use crate::clock::Time;
use crate::config::CharacterController;
use crate::context::{no_new_press, AccumulatedInput, CharacterControllerState, Ctx, CtxItem};
use crate::scalar::{num, Scalar, HALF, ONE, ZERO};
use crate::vector::{minus_unit_z, unit_x, vec3, Quat, Transform, Vec2, Vec3};
use crate::world::{
    ask_angle_between, ask_body_friction, ask_collider_friction, extends, group_extends, step_at,
    History, Session, Step, World,
};
use vstd::prelude::*;

verus! {

/// The bit pattern of 0.01.
pub const HUNDREDTH: u32 = 0x3c23_d70a;

/// The bit pattern of 0.001.
pub const THOUSANDTH: u32 = 0x3a83_126f;

pub open spec fn spec_forward(orientation: Quat) -> Vec3 {
    orientation.rotate(minus_unit_z())
}

/// The vector that points ahead of an orientation.
#[verifier::when_used_as_spec(spec_forward)]
pub fn forward(orientation: Quat) -> (r: Vec3)
    ensures
        r == spec_forward(orientation),
{
    orientation.rotate(minus_unit_z())
}

pub open spec fn spec_right(orientation: Quat) -> Vec3 {
    orientation.rotate(unit_x())
}

/// The vector that points to the right of an orientation.
#[verifier::when_used_as_spec(spec_right)]
pub fn right(orientation: Quat) -> (r: Vec3)
    ensures
        r == spec_right(orientation),
{
    orientation.rotate(unit_x())
}

pub open spec fn spec_movement(input: AccumulatedInput) -> Vec2 {
    match input.last_movement {
        Some(movement) => movement,
        None => Vec2 { x: num(ZERO), y: num(ZERO) },
    }
}

/// The movement asked for, none being zero.
#[verifier::when_used_as_spec(spec_movement)]
pub fn movement(input: AccumulatedInput) -> (r: Vec2)
    ensures
        r == spec_movement(input),
{
    match input.last_movement {
        Some(movement) => movement,
        None => Vec2 { x: num(ZERO), y: num(ZERO) },
    }
}

pub open spec fn spec_wish_speed(cfg: CharacterController, crouching: bool) -> Scalar {
    if crouching {
        cfg.speed * cfg.crouch_speed_scale
    } else {
        cfg.speed
    }
}

/// The speed asked for, lower when crouching.
#[verifier::when_used_as_spec(spec_wish_speed)]
pub fn wish_speed(cfg: CharacterController, crouching: bool) -> (r: Scalar)
    ensures
        r == spec_wish_speed(cfg, crouching),
{
    if crouching {
        cfg.speed * cfg.crouch_speed_scale
    } else {
        cfg.speed
    }
}

/// The horizontal velocity that the input asks for.
#[verifier::opaque]
pub open spec fn wish_velocity_of(c: Ctx) -> Vec3 {
    let ahead = forward(c.state.orientation).flat().normalize_or_zero();
    let aside = right(c.state.orientation).flat().normalize_or_zero();
    let wish = movement(c.input);
    (ahead * wish.y + aside * wish.x).normalize_or_zero() * wish_speed(c.cfg, c.state.crouching)
}

/// The horizontal velocity that the input asks for.
pub fn calculate_wish_velocity(ctx: &CtxItem) -> (r: Vec3)
    ensures
        r == wish_velocity_of(ctx@),
{
    reveal(wish_velocity_of);
    let wish = movement(ctx.input);
    let ahead = forward(ctx.state.orientation).flat().normalize_or_zero();
    let aside = right(ctx.state.orientation).flat().normalize_or_zero();
    let wish_dir = (ahead * wish.y + aside * wish.x).normalize_or_zero();
    wish_dir * wish_speed(ctx.cfg, ctx.state.crouching)
}

/// The velocity that the input asks for along the look.
#[verifier::opaque]
pub open spec fn wish_velocity_3d_of(c: Ctx) -> Vec3 {
    let wish = movement(c.input);
    (forward(c.state.orientation) * wish.y + right(c.state.orientation)
        * wish.x).normalize_or_zero() * wish_speed(c.cfg, c.state.crouching)
}

/// The velocity that the input asks for along the look.
pub fn calculate_3d_wish_velocity(ctx: &CtxItem) -> (r: Vec3)
    ensures
        r == wish_velocity_3d_of(ctx@),
{
    reveal(wish_velocity_3d_of);
    let wish = movement(ctx.input);
    let wish_vel = forward(ctx.state.orientation) * wish.y + right(ctx.state.orientation) * wish.x;
    wish_vel.normalize_or_zero() * wish_speed(ctx.cfg, ctx.state.crouching)
}

/// `velocity` sped up along a wish: by at most what is missing in the direction of the wish, and
/// not at all where nothing is.
#[verifier::opaque]
pub open spec fn accelerated(velocity: Vec3, wish_velocity: Vec3, hz: Scalar, secs: Scalar) -> Vec3 {
    match wish_velocity.direction_and_length() {
        None => velocity,
        Some((dir, speed)) => {
            let missing = speed - velocity.dot(dir);
            if missing.le(num(ZERO)) {
                velocity
            } else {
                velocity + dir * (speed * hz * secs).min(missing)
            }
        },
    }
}

/// Speeds up along a wish on the ground.
pub fn ground_accelerate(wish_velocity: Vec3, acceleration_hz: Scalar, time: &Time, ctx: &mut CtxItem)
    ensures
        final(ctx)@ == old(ctx)@.with_velocity(
            accelerated(old(ctx)@.velocity, wish_velocity, acceleration_hz, time.delta_secs),
        ),
{
    reveal(accelerated);
    let (wish_dir, wish_speed) = match wish_velocity.direction_and_length() {
        Some(wish) => wish,
        None => {
            return;
        },
    };
    let current_speed = ctx.velocity.dot(wish_dir);
    let add_speed = wish_speed - current_speed;
    if add_speed.le(num(ZERO)) {
        return;
    }
    let accel_speed = wish_speed * acceleration_hz * time.delta_secs;
    let accel_speed = accel_speed.min(add_speed);
    ctx.velocity = ctx.velocity + wish_dir * accel_speed;
}

/// Speeds up along a wish in water.
pub fn water_accelerate(wish_velocity: Vec3, acceleration_hz: Scalar, time: &Time, ctx: &mut CtxItem)
    ensures
        final(ctx)@ == old(ctx)@.with_velocity(
            accelerated(old(ctx)@.velocity, wish_velocity, acceleration_hz, time.delta_secs),
        ),
{
    reveal(accelerated);
    let (wish_dir, wish_speed) = match wish_velocity.direction_and_length() {
        Some(wish) => wish,
        None => {
            return;
        },
    };
    let current_speed = ctx.velocity.dot(wish_dir);
    let add_speed = wish_speed - current_speed;
    if add_speed.le(num(ZERO)) {
        return;
    }
    let accel_speed = wish_speed * acceleration_hz * time.delta_secs;
    let accel_speed = accel_speed.min(add_speed);
    ctx.velocity = ctx.velocity + wish_dir * accel_speed;
}

/// The horizontal velocity after a push in the air towards `dir` at `speed` or faster, none where
/// there is nowhere to push.
///
/// Above the wished speed the target keeps the current speed, so that a gentle turn loses nothing
/// and a sharp one ends on the chord. The push does not grow with speed: being fast means being
/// committed to a line.
#[verifier::opaque]
pub open spec fn air_pushed(velocity: Vec3, dir: Vec3, speed: Scalar, push: Scalar) -> Option<Vec3> {
    let target = dir * speed.max(velocity.flat().length());
    match (target - velocity).flat().direction_and_length() {
        None => None,
        Some((push_dir, push_len)) => Some(velocity.flat() + push_dir * push.min(push_len)),
    }
}

/// Whether turning gains speed: only at or above the wished speed, where the push does not refund
/// what a turn loses, and below the limit.
#[verifier::opaque]
pub open spec fn carves(cfg: CharacterController, old_speed: Scalar, wish_speed: Scalar) -> bool {
    wish_speed.le(old_speed + num(HUNDREDTH)) && old_speed.lt(cfg.max_carve_speed)
}

/// The model of [`air_accelerate`].
#[verifier::opaque]
pub open spec fn air_accelerate_model(
    h: History,
    s: Step,
    wish_velocity: Vec3,
    accel: Scalar,
    time: Time,
) -> Step {
    let velocity = s.ctx.velocity;
    let old_h = velocity.flat();
    let old_speed = old_h.length();
    match wish_velocity.direction_and_length() {
        None => s,
        Some((dir, speed)) => match air_pushed(velocity, dir, speed, accel * time.delta_secs) {
            None => s,
            Some(new_h) => if carves(s.ctx.cfg, old_speed, speed) {
                let (t, turn) = ask_angle_between(h, s, old_h, new_h);
                let coherence = dir.dot(old_h.over(old_speed)).max(num(ZERO));
                let gain = num(ONE) + s.ctx.cfg.carve_gain * turn * coherence;
                t.with_velocity((new_h * gain).with_y(velocity.y))
            } else {
                s.with_velocity(new_h.with_y(velocity.y))
            },
        },
    }
}

/// Pushes the velocity in the air straight towards a wish, in the horizontal plane only.
pub fn air_accelerate<W: World>(
    wish_velocity: Vec3,
    accel: Scalar,
    time: &Time,
    session: &mut Session<W>,
    ctx: &mut CtxItem,
    transform: &Transform,
)
    ensures
        final(session).surroundings() == old(session).surroundings(),
        extends(old(session).log(), final(session).log()),
        final(ctx).cfg == old(ctx).cfg,
        no_new_press(old(ctx).input, final(ctx).input),
        forall|h: History|
            extends(final(session).log(), h) ==> #[trigger] air_accelerate_model(
                h,
                step_at(old(session).log(), old(ctx)@, *transform),
                wish_velocity,
                accel,
                *time,
            ) == step_at(final(session).log(), final(ctx)@, *transform),
{
    broadcast use group_extends;

    reveal(air_accelerate_model);
    reveal(carves);
    reveal(air_pushed);
    let (wish_dir, wish_speed) = match wish_velocity.direction_and_length() {
        Some(wish) => wish,
        None => {
            return;
        },
    };
    let old_h = ctx.velocity.flat();
    let old_speed = old_h.length();
    let target_vel = wish_dir * wish_speed.max(old_speed);
    let (push_dir, push_len) = match (target_vel - ctx.velocity).flat().direction_and_length() {
        Some(push) => push,
        None => {
            return;
        },
    };
    let can_push = (accel * time.delta_secs).min(push_len);
    let mut new_h = old_h + push_dir * can_push;
    if wish_speed.le(old_speed + num(HUNDREDTH)) && old_speed.lt(ctx.cfg.max_carve_speed) {
        let turn = session.angle_between(old_h, new_h);
        let coherence = wish_dir.dot(old_h.over(old_speed)).max(num(ZERO));
        new_h = new_h * (num(ONE) + ctx.cfg.carve_gain * turn * coherence);
    }
    ctx.velocity = new_h.with_y(ctx.velocity.y);
}

/// How much speed friction takes in `secs` seconds.
#[verifier::opaque]
pub open spec fn friction_drop(
    c: Ctx,
    speed: Scalar,
    surface_friction: Scalar,
    secs: Scalar,
) -> Scalar {
    let hz = if c.state.sliding {
        c.cfg.slide_friction_hz
    } else {
        c.cfg.friction_hz
    };
    num(ZERO) + speed.max(c.cfg.stop_speed) * (hz * surface_friction) * secs
}

/// `velocity` of the given speed after it lost `drop` of it, at rest where it had no more.
#[verifier::opaque]
pub open spec fn braked(velocity: Vec3, speed: Scalar, drop: Scalar) -> Vec3 {
    let left = (speed - drop).max(num(ZERO));
    if left.same(speed) {
        velocity
    } else {
        velocity * left.over(speed)
    }
}

/// The model of [`surface_friction`].
#[verifier::opaque]
pub open spec fn surface_friction_model(h: History, s: Step, default_friction: Scalar) -> (
    Step,
    Scalar,
) {
    match s.ctx.state.grounded {
        None => (s, s.ctx.cfg.air_friction),
        Some(ground) => {
            let (s1, collider) = ask_collider_friction(h, s, ground.entity);
            match collider {
                None => (s1, default_friction),
                Some(found) => match found.friction {
                    Some(friction) => (s1, friction),
                    None => {
                        let (s2, of_body) = ask_body_friction(h, s1, found.body);
                        (
                            s2,
                            match of_body {
                                Some(friction) => friction,
                                None => default_friction,
                            },
                        )
                    },
                },
            }
        },
    }
}

/// The friction of what the character moves on: that of the ground's collider, else that of its
/// body, else the default; without ground, that of air.
pub fn surface_friction<W: World>(
    default_friction: Scalar,
    session: &mut Session<W>,
    ctx: &CtxItem,
    transform: &Transform,
) -> (r: Scalar)
    ensures
        final(session).surroundings() == old(session).surroundings(),
        extends(old(session).log(), final(session).log()),
        forall|h: History|
            extends(final(session).log(), h) ==> #[trigger] surface_friction_model(
                h,
                step_at(old(session).log(), ctx@, *transform),
                default_friction,
            ) == (step_at(final(session).log(), ctx@, *transform), r),
{
    broadcast use group_extends;

    reveal(surface_friction_model);
    let ground = match ctx.state.grounded {
        Some(ground) => ground,
        None => {
            return ctx.cfg.air_friction;
        },
    };
    let found = match session.collider_friction(ground.entity) {
        Some(found) => found,
        None => {
            return default_friction;
        },
    };
    match found.friction {
        Some(friction) => friction,
        None => match session.body_friction(found.body) {
            Some(friction) => friction,
            None => default_friction,
        },
    }
}

/// The speed that friction works on: horizontal on the ground, whole in water, none in the air.
pub open spec fn friction_speed(c: Ctx) -> Option<Scalar> {
    if c.state.grounded is Some {
        Some(c.velocity.xz().length())
    } else if c.water.above_feet() {
        Some(c.velocity.length())
    } else {
        None
    }
}

/// The model of [`friction`].
#[verifier::opaque]
pub open spec fn friction_model(h: History, s: Step, default_friction: Scalar, time: Time) -> Step {
    match friction_speed(s.ctx) {
        None => s,
        Some(speed) => if speed.lt(num(THOUSANDTH)) {
            s
        } else {
            let (t, surface) = surface_friction_model(h, s, default_friction);
            t.with_velocity(
                braked(s.ctx.velocity, speed, friction_drop(s.ctx, speed, surface, time.delta_secs)),
            )
        },
    }
}

/// Slows a character down on the ground and in water.
pub fn friction<W: World>(
    time: &Time,
    default_friction: Scalar,
    session: &mut Session<W>,
    ctx: &mut CtxItem,
    transform: &Transform,
)
    ensures
        final(session).surroundings() == old(session).surroundings(),
        extends(old(session).log(), final(session).log()),
        final(ctx).cfg == old(ctx).cfg,
        no_new_press(old(ctx).input, final(ctx).input),
        forall|h: History|
            extends(final(session).log(), h) ==> #[trigger] friction_model(
                h,
                step_at(old(session).log(), old(ctx)@, *transform),
                default_friction,
                *time,
            ) == step_at(final(session).log(), final(ctx)@, *transform),
{
    broadcast use group_extends;

    reveal(friction_model);
    reveal(braked);
    reveal(friction_drop);
    let speed = if ctx.state.grounded.is_some() {
        ctx.velocity.xz().length()
    } else if ctx.water.above_feet() {
        ctx.velocity.length()
    } else {
        return;
    };
    if speed.lt(num(THOUSANDTH)) {
        return;
    }
    let surface = surface_friction(default_friction, session, ctx, transform);
    let friction_hz = if ctx.state.sliding {
        ctx.cfg.slide_friction_hz
    } else {
        ctx.cfg.friction_hz
    };
    let friction = friction_hz * surface;
    let control = speed.max(ctx.cfg.stop_speed);
    let drop = num(ZERO) + control * friction * time.delta_secs;
    let new_speed = (speed - drop).max(num(ZERO));
    if !new_speed.same(speed) {
        ctx.velocity = ctx.velocity * new_speed.over(speed);
    }
}

pub open spec fn spec_finite_or_zero(x: Scalar) -> Scalar {
    if x.is_finite() {
        x
    } else {
        num(ZERO)
    }
}

/// `x`, or zero where `x` is infinite or not a number.
#[verifier::when_used_as_spec(spec_finite_or_zero)]
pub fn finite_or_zero(x: Scalar) -> (r: Scalar)
    ensures
        r == spec_finite_or_zero(x),
{
    if x.is_finite() {
        x
    } else {
        num(ZERO)
    }
}

/// `velocity` without components that are not finite, and no longer than `max_speed`.
#[verifier::opaque]
pub open spec fn valid_velocity(velocity: Vec3, max_speed: Scalar) -> Vec3 {
    vec3(
        finite_or_zero(velocity.x),
        finite_or_zero(velocity.y),
        finite_or_zero(velocity.z),
    ).clamp_length(num(ZERO), max_speed)
}

/// Drops components of the velocity that are not finite and limits its length.
pub fn validate_velocity(ctx: &mut CtxItem)
    ensures
        final(ctx).cfg == old(ctx).cfg,
        final(ctx).input == old(ctx).input,
        final(ctx)@ == old(ctx)@.with_velocity(
            valid_velocity(old(ctx)@.velocity, old(ctx)@.cfg.max_speed),
        ),
{
    reveal(valid_velocity);
    ctx.velocity = vec3(
        finite_or_zero(ctx.velocity.x),
        finite_or_zero(ctx.velocity.y),
        finite_or_zero(ctx.velocity.z),
    );
    ctx.velocity = ctx.velocity.clamp_length(num(ZERO), ctx.cfg.max_speed);
}

/// The character after the first half of gravity, which also takes up the vertical velocity of the
/// ground.
#[verifier::opaque]
pub open spec fn gravity_started(c: Ctx, secs: Scalar) -> Ctx {
    let fall = (c.state.platform_velocity.y - c.cfg.gravity * num(HALF)) * secs;
    let velocity = c.velocity.with_y(c.velocity.y + fall);
    c.with_state(
        CharacterControllerState { platform_velocity: c.state.platform_velocity.flat(), ..c.state },
    ).with_velocity(valid_velocity(velocity, c.cfg.max_speed))
}

/// The first half of gravity.
pub fn start_gravity(time: &Time, ctx: &mut CtxItem)
    ensures
        final(ctx).cfg == old(ctx).cfg,
        final(ctx).input == old(ctx).input,
        final(ctx)@ == gravity_started(old(ctx)@, time.delta_secs),
{
    reveal(gravity_started);
    ctx.velocity.y = ctx.velocity.y + (ctx.state.platform_velocity.y - ctx.cfg.gravity * num(HALF))
        * time.delta_secs;
    ctx.state.platform_velocity.y = num(ZERO);
    validate_velocity(ctx);
}

/// The character after the second half of gravity.
#[verifier::opaque]
pub open spec fn gravity_finished(c: Ctx, secs: Scalar) -> Ctx {
    let velocity = c.velocity.with_y(c.velocity.y - c.cfg.gravity * num(HALF) * secs);
    c.with_velocity(valid_velocity(velocity, c.cfg.max_speed))
}

/// The second half of gravity.
pub fn finish_gravity(time: &Time, ctx: &mut CtxItem)
    ensures
        final(ctx).cfg == old(ctx).cfg,
        final(ctx).input == old(ctx).input,
        final(ctx)@ == gravity_finished(old(ctx)@, time.delta_secs),
{
    reveal(gravity_finished);
    ctx.velocity.y = ctx.velocity.y - ctx.cfg.gravity * num(HALF) * time.delta_secs;
    validate_velocity(ctx);
}

} // verus!
