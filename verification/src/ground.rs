//! The ground under a character and how it carries the character along.
use crate::casting::{cast_move, cast_move_model};
use crate::clock::Time;
use crate::context::{no_new_press, CharacterControllerState, Ctx, CtxItem, MoveHitData};
use crate::scalar::{num, Scalar, ZERO};
use crate::vector::{down, zero, Transform, Vec3};
use crate::world::{
    ask_carry_point, ask_platform, extends, group_extends, step_at, CarryPoint, History, Platform,
    Session, Step, World,
};
use vstd::prelude::*;

verus! {

pub open spec fn spec_or_zero(v: Option<Vec3>) -> Vec3 {
    match v {
        Some(v) => v,
        None => zero(),
    }
}

/// The vector, none being zero.
#[verifier::when_used_as_spec(spec_or_zero)]
pub fn or_zero(v: Option<Vec3>) -> (r: Vec3)
    ensures
        r == spec_or_zero(v),
{
    match v {
        Some(v) => v,
        None => zero(),
    }
}

/// The point of the body's column that touches the ground, and the frame that carries it.
pub open spec fn carrying(ground: Vec3, platform: Platform, secs: Scalar, translation: Vec3) -> CarryPoint {
    let center = platform.rotation.rotate(or_zero(platform.center_of_mass)) + platform.position;
    CarryPoint {
        from: center,
        rotation: platform.rotation,
        to: center + or_zero(platform.linear_velocity) * secs,
        spin: or_zero(platform.angular_velocity) * secs,
        point: translation.with_y(ground.y),
    }
}

/// The model of [`calculate_platform_movement`].
#[verifier::opaque]
pub open spec fn calculate_platform_movement_model(
    h: History,
    s: Step,
    ground: Vec3,
    platform: Platform,
    time: Time,
) -> Step {
    let query = carrying(ground, platform, time.delta_secs, s.transform.translation);
    let (t, carried) = ask_carry_point(h, s, query);
    t.with_ctx(
        s.ctx.with_state(
            CharacterControllerState {
                platform_velocity: (carried - query.point).over(time.delta_secs),
                platform_angular_velocity: or_zero(platform.angular_velocity),
                ..s.ctx.state
            },
        ),
    )
}

/// Finds how fast `platform` moves the point under the body.
pub fn calculate_platform_movement<W: World>(
    ground: Vec3,
    platform: &Platform,
    time: &Time,
    session: &mut Session<W>,
    ctx: &mut CtxItem,
    transform: &Transform,
)
    ensures
        final(session).surroundings() == old(session).surroundings(),
        extends(old(session).log(), final(session).log()),
        final(ctx).cfg == old(ctx).cfg,
        no_new_press(old(ctx).input, final(ctx).input),
        forall|h: History|
            extends(final(session).log(), h) ==> #[trigger] calculate_platform_movement_model(
                h,
                step_at(old(session).log(), old(ctx)@, *transform),
                ground,
                *platform,
                *time,
            ) == step_at(final(session).log(), final(ctx)@, *transform),
{
    broadcast use group_extends;

    reveal(calculate_platform_movement_model);
    let platform_ang_vel = or_zero(platform.angular_velocity);
    let ground_com = platform.rotation.rotate(or_zero(platform.center_of_mass)) + platform.position;
    let touch_point = transform.translation.with_y(ground.y);
    let carried = session.carry_point(
        CarryPoint {
            from: ground_com,
            rotation: platform.rotation,
            to: ground_com + or_zero(platform.linear_velocity) * time.delta_secs,
            spin: platform_ang_vel * time.delta_secs,
            point: touch_point,
        },
    );
    let platform_movement = carried - touch_point;
    ctx.state.platform_velocity = platform_movement.over(time.delta_secs);
    ctx.state.platform_angular_velocity = platform_ang_vel;
}

/// The ground whose movement matters: the new one, else the one just left.
pub open spec fn moving_ground(old_ground: Option<MoveHitData>, new_ground: Option<MoveHitData>) -> Option<
    MoveHitData,
> {
    match new_ground {
        Some(ground) => Some(ground),
        None => old_ground,
    }
}

/// The model of the movement of the ground.
#[verifier::opaque]
pub open spec fn ground_movement_model(
    h: History,
    s: Step,
    new_ground: Option<MoveHitData>,
    time: Time,
) -> Step {
    match moving_ground(s.ctx.state.grounded, new_ground) {
        None => s,
        Some(ground) => {
            let (t, platform) = ask_platform(h, s, ground.entity);
            match platform {
                None => t,
                Some(platform) => calculate_platform_movement_model(
                    h,
                    t,
                    ground.point1,
                    platform,
                    time,
                ),
            }
        },
    }
}

/// Finds the movement of the ground that matters.
fn track_ground<W: World>(
    new_ground: Option<MoveHitData>,
    time: &Time,
    session: &mut Session<W>,
    ctx: &mut CtxItem,
    transform: &Transform,
)
    ensures
        final(session).surroundings() == old(session).surroundings(),
        extends(old(session).log(), final(session).log()),
        final(ctx).cfg == old(ctx).cfg,
        no_new_press(old(ctx).input, final(ctx).input),
        forall|h: History|
            extends(final(session).log(), h) ==> #[trigger] ground_movement_model(
                h,
                step_at(old(session).log(), old(ctx)@, *transform),
                new_ground,
                *time,
            ) == step_at(final(session).log(), final(ctx)@, *transform),
{
    broadcast use group_extends;

    reveal(ground_movement_model);
    let ground = match new_ground {
        Some(ground) => Some(ground),
        None => ctx.state.grounded,
    };
    if let Some(ground) = ground {
        if let Some(platform) = session.platform(ground.entity) {
            calculate_platform_movement(ground.point1, &platform, time, session, ctx, transform);
        }
    }
}

/// A character that stands on `new_ground` from now on. Landing remembers the speed that a quick
/// jump can restore.
#[verifier::opaque]
pub open spec fn grounded_on(c: Ctx, new_ground: Option<MoveHitData>) -> Ctx {
    let landed = c.state.grounded is None && new_ground is Some;
    let state = CharacterControllerState {
        grounded: new_ground,
        land_speed: if landed {
            c.velocity.xz().length()
        } else {
            c.state.land_speed
        },
        last_land: if landed {
            c.state.last_land.restarted()
        } else {
            c.state.last_land
        },
        mantle: if new_ground is Some {
            None
        } else {
            c.state.mantle
        },
        ..c.state
    };
    let velocity = if new_ground is Some {
        c.velocity.flat()
    } else {
        c.velocity
    };
    c.with_state(state).with_velocity(velocity)
}

/// Records the ground that a character stands on.
fn ground_on(new_ground: Option<MoveHitData>, ctx: &mut CtxItem)
    ensures
        final(ctx).cfg == old(ctx).cfg,
        final(ctx).input == old(ctx).input,
        final(ctx)@ == grounded_on(old(ctx)@, new_ground),
{
    reveal(grounded_on);
    if ctx.state.grounded.is_none() && new_ground.is_some() {
        ctx.state.land_speed = ctx.velocity.xz().length();
        ctx.state.last_land = ctx.state.last_land.restarted();
    }
    ctx.state.grounded = new_ground;
    if new_ground.is_some() {
        ctx.state.mantle = None;
        ctx.velocity.y = num(ZERO);
    }
}

/// The model of [`set_grounded`].
#[verifier::opaque]
pub open spec fn set_grounded_model(
    h: History,
    s: Step,
    new_ground: Option<MoveHitData>,
    time: Time,
) -> Step {
    let t = ground_movement_model(h, s, new_ground, time);
    t.with_ctx(grounded_on(t.ctx, new_ground))
}

/// Puts a character on new ground, or in the air.
pub fn set_grounded<W: World>(
    new_ground: Option<MoveHitData>,
    time: &Time,
    session: &mut Session<W>,
    ctx: &mut CtxItem,
    transform: &Transform,
)
    ensures
        final(session).surroundings() == old(session).surroundings(),
        extends(old(session).log(), final(session).log()),
        final(ctx).cfg == old(ctx).cfg,
        no_new_press(old(ctx).input, final(ctx).input),
        forall|h: History|
            extends(final(session).log(), h) ==> #[trigger] set_grounded_model(
                h,
                step_at(old(session).log(), old(ctx)@, *transform),
                new_ground,
                *time,
            ) == step_at(final(session).log(), final(ctx)@, *transform),
{
    broadcast use group_extends;

    reveal(set_grounded_model);
    track_ground(new_ground, time, session, ctx, transform);
    ground_on(new_ground, ctx);
}

/// Whether a character rises too fast to stay on the ground. On the ground only what exceeds the
/// ground's own rise counts.
pub open spec fn lifts_off(c: Ctx) -> bool {
    c.cfg.unground_speed.lt(c.velocity.y) && (c.state.grounded is Some ==> c.cfg.unground_speed.lt(
        c.velocity.y - c.state.platform_velocity.y,
    ))
}

/// How far below the ground is looked for: farther when it sinks.
pub open spec fn ground_reach(c: Ctx, secs: Scalar) -> Scalar {
    if c.state.platform_velocity.y.lt(num(ZERO)) {
        c.cfg.ground_distance - c.state.platform_velocity.y * secs
    } else {
        c.cfg.ground_distance
    }
}

/// The model of [`update_grounded`].
#[verifier::opaque]
pub open spec fn update_grounded_model(h: History, s: Step, time: Time) -> Step {
    if s.ctx.water.above_feet() || lifts_off(s.ctx) {
        set_grounded_model(h, s, None, time)
    } else {
        let (t, hit) = cast_move_model(h, s, down() * ground_reach(s.ctx, time.delta_secs));
        set_grounded_model(
            h,
            t,
            match hit {
                Some(ground) => if s.ctx.cfg.min_walk_cos.le(ground.normal1.y) {
                    Some(ground)
                } else {
                    None
                },
                None => None,
            },
            time,
        )
    }
}

/// Finds the ground that a character stands on.
pub fn update_grounded<W: World>(
    time: &Time,
    session: &mut Session<W>,
    ctx: &mut CtxItem,
    transform: &Transform,
)
    ensures
        final(session).surroundings() == old(session).surroundings(),
        extends(old(session).log(), final(session).log()),
        final(ctx).cfg == old(ctx).cfg,
        no_new_press(old(ctx).input, final(ctx).input),
        forall|h: History|
            extends(final(session).log(), h) ==> #[trigger] update_grounded_model(
                h,
                step_at(old(session).log(), old(ctx)@, *transform),
                *time,
            ) == step_at(final(session).log(), final(ctx)@, *transform),
{
    broadcast use group_extends;

    reveal(update_grounded_model);
    if ctx.water.above_feet() {
        set_grounded(None, time, session, ctx, transform);
        return;
    }
    let y_vel = ctx.velocity.y;
    let mut moving_up_rapidly = ctx.cfg.unground_speed.lt(y_vel);
    if moving_up_rapidly && ctx.state.grounded.is_some() {
        let ground_entity_y_vel = ctx.state.platform_velocity.y;
        moving_up_rapidly = ctx.cfg.unground_speed.lt(y_vel - ground_entity_y_vel);
    }
    if moving_up_rapidly {
        set_grounded(None, time, session, ctx, transform);
    } else {
        let cast_dist = if ctx.state.platform_velocity.y.lt(num(ZERO)) {
            ctx.cfg.ground_distance - ctx.state.platform_velocity.y * time.delta_secs
        } else {
            ctx.cfg.ground_distance
        };
        let hit = cast_move(down() * cast_dist, session, ctx, transform);
        let new_ground = match hit {
            Some(ground) => if ctx.cfg.min_walk_cos.le(ground.normal1.y) {
                Some(ground)
            } else {
                None
            },
            None => None,
        };
        set_grounded(new_ground, time, session, ctx, transform);
    }
}

} // verus!
