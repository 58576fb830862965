//! Jumps, tic tacs, ledge jumps and bounces.
use crate::casting::{cast_move, cast_move_model, closest_wall_normal, closest_wall_normal_model};
use crate::clock::Time;
use crate::config::CharacterController;
use crate::context::{no_new_press, AccumulatedInput, CharacterControllerState, Ctx, CtxItem};
use crate::ground::{set_grounded, set_grounded_model};
use crate::motion::{forward, movement, HUNDREDTH};
use crate::scalar::{num, Scalar, ONE, TWO, ZERO};
use crate::vector::{down, up, vec3, Transform, Vec3};
use crate::world::{extends, group_extends, step_at, History, Session, Step, World};
use vstd::prelude::*;

verus! {

/// The bit pattern of 0.1.
pub const TENTH: u32 = 0x3dcc_cccd;

/// The bit pattern of -0.01.
pub const MINUS_HUNDREDTH: u32 = 0xbc23_d70a;

/// Whether a tic tac was asked for in time and is allowed again.
#[verifier::opaque]
pub open spec fn tac_ready(c: Ctx, wish_velocity: Vec3) -> bool {
    &&& c.state.mantle is None
    &&& c.input.tac matches Some(press) && !c.cfg.tac_input_buffer.lt(press.elapsed)
    &&& !wish_velocity.length_squared().lt(num(TENTH))
    &&& !c.state.last_tac.elapsed.lt(c.cfg.tac_cooldown)
}

/// Whether a tic tac was asked for in time and is allowed again.
fn wants_tac(ctx: &CtxItem, wish_velocity: Vec3) -> (r: bool)
    ensures
        r == tac_ready(ctx@, wish_velocity),
{
    reveal(tac_ready);
    if ctx.state.mantle.is_some() {
        return false;
    }
    let pressed = match ctx.input.tac {
        Some(press) => !ctx.cfg.tac_input_buffer.lt(press.elapsed),
        None => false,
    };
    pressed && !(wish_velocity.length_squared().lt(num(TENTH)) || ctx.state.last_tac.elapsed.lt(
        ctx.cfg.tac_cooldown,
    ))
}

/// A character that kicks off a wall, and the direction it takes, scaled by its strength. Velocity
/// into the wall is given up. There is none off ceilings and overhangs, nor against a wall that is
/// faced too directly.
#[verifier::opaque]
pub open spec fn tac_off(c: Ctx, wish_velocity: Vec3, normal: Vec3) -> Option<(Ctx, Vec3)> {
    let wish = wish_velocity.normalize();
    let wish_dot = wish.dot(normal);
    if normal.y.lt(num(MINUS_HUNDREDTH)) || c.cfg.max_tac_cos.lt(wish_dot.negated()) {
        None
    } else {
        let into = c.velocity.dot(normal).min(num(ZERO));
        let strength = c.state.tac_velocity.max(into).min(num(ONE));
        let away = wish - normal.flat() * (wish_dot.min(num(ZERO)) - num(ONE));
        let dir = (up() * c.cfg.tac_jump_factor + away).normalize();
        Some(
            (
                c.with_velocity(c.velocity - normal * into).with_state(
                    CharacterControllerState { tac_velocity: num(ZERO), ..c.state },
                ),
                dir * strength * c.cfg.tac_power,
            ),
        )
    }
}

/// Kicks off a wall.
fn kick_off(wish_velocity: Vec3, normal: Vec3, ctx: &mut CtxItem) -> (r: Option<Vec3>)
    ensures
        final(ctx).cfg == old(ctx).cfg,
        final(ctx).input == old(ctx).input,
        (final(ctx)@, r) == (match tac_off(old(ctx)@, wish_velocity, normal) {
            Some((c, dir)) => (c, Some(dir)),
            None => (old(ctx)@, None),
        }),
{
    reveal(tac_off);
    if normal.y.lt(num(MINUS_HUNDREDTH)) {
        return None;
    }
    let wish_unit = wish_velocity.normalize();
    let wish_dot = wish_unit.dot(normal);
    if ctx.cfg.max_tac_cos.lt(wish_dot.negated()) {
        return None;
    }
    let vel_dot = ctx.velocity.dot(normal).min(num(ZERO));
    ctx.velocity = ctx.velocity - normal * vel_dot;
    let groundedness = ctx.state.tac_velocity.max(vel_dot).min(num(ONE));
    ctx.state.tac_velocity = num(ZERO);
    let tac_wish = wish_unit - normal.flat() * (wish_dot.min(num(ZERO)) - num(ONE));
    let tac_dir = (up() * ctx.cfg.tac_jump_factor + tac_wish).normalize();
    Some(tac_dir * groundedness * ctx.cfg.tac_power)
}

/// The model of [`tac_wall`].
#[verifier::opaque]
pub open spec fn tac_wall_model(h: History, s: Step, wish_velocity: Vec3, time: Time) -> (
    Step,
    Option<Vec3>,
) {
    let (s1, ahead) = cast_move_model(h, s, s.ctx.velocity * time.delta_secs);
    match ahead {
        Some(hit) => (s1, Some(hit.normal1)),
        None => {
            let (s2, wished) = cast_move_model(h, s1, wish_velocity * time.delta_secs);
            (
                s2,
                match wished {
                    Some(hit) => Some(hit.normal1),
                    None => None,
                },
            )
        },
    }
}

/// The normal of the wall that is reached next, by the velocity or else by the wish.
pub fn tac_wall<W: World>(
    wish_velocity: Vec3,
    time: &Time,
    session: &mut Session<W>,
    ctx: &CtxItem,
    transform: &Transform,
) -> (r: Option<Vec3>)
    ensures
        final(session).surroundings() == old(session).surroundings(),
        extends(old(session).log(), final(session).log()),
        forall|h: History|
            extends(final(session).log(), h) ==> #[trigger] tac_wall_model(
                h,
                step_at(old(session).log(), ctx@, *transform),
                wish_velocity,
                *time,
            ) == (step_at(final(session).log(), ctx@, *transform), r),
{
    broadcast use group_extends;

    reveal(tac_wall_model);
    let ahead = cast_move(ctx.velocity * time.delta_secs, session, ctx, transform);
    if let Some(hit) = ahead {
        return Some(hit.normal1);
    }
    let wished = cast_move(wish_velocity * time.delta_secs, session, ctx, transform);
    match wished {
        Some(hit) => Some(hit.normal1),
        None => None,
    }
}

/// The model of [`handle_tac`].
#[verifier::opaque]
pub open spec fn handle_tac_model(h: History, s: Step, wish_velocity: Vec3, time: Time) -> (
    Step,
    Option<Vec3>,
) {
    if !tac_ready(s.ctx, wish_velocity) {
        (s, None)
    } else {
        let (t, wall) = tac_wall_model(h, s, wish_velocity, time);
        match wall {
            None => (t, None),
            Some(normal) => match tac_off(t.ctx, wish_velocity, normal) {
                None => (t, None),
                Some((c, dir)) => (t.with_ctx(c), Some(dir)),
            },
        }
    }
}

/// Kicks off a wall, if a tic tac was asked for. Gives the direction, scaled by its strength.
pub fn handle_tac<W: World>(
    wish_velocity: Vec3,
    time: &Time,
    session: &mut Session<W>,
    ctx: &mut CtxItem,
    transform: &Transform,
) -> (r: Option<Vec3>)
    ensures
        final(session).surroundings() == old(session).surroundings(),
        extends(old(session).log(), final(session).log()),
        final(ctx).cfg == old(ctx).cfg,
        no_new_press(old(ctx).input, final(ctx).input),
        forall|h: History|
            extends(final(session).log(), h) ==> #[trigger] handle_tac_model(
                h,
                step_at(old(session).log(), old(ctx)@, *transform),
                wish_velocity,
                *time,
            ) == (step_at(final(session).log(), final(ctx)@, *transform), r),
        final(ctx).input == old(ctx).input,
        r is Some ==> tac_ready(old(ctx)@, wish_velocity),
        r is None ==> final(ctx)@ == old(ctx)@,
{
    broadcast use group_extends;

    reveal(handle_tac_model);
    if !wants_tac(ctx, wish_velocity) {
        return None;
    }
    match tac_wall(wish_velocity, time, session, ctx, transform) {
        Some(normal) => kick_off(wish_velocity, normal, ctx),
        None => None,
    }
}

/// The upward speed that reaches the jump height.
#[verifier::opaque]
pub open spec fn jump_speed(cfg: CharacterController) -> Scalar {
    (num(TWO) * cfg.gravity * cfg.jump_height).sqrt()
}

/// The upward speed that reaches the jump height.
fn find_jump_speed(cfg: &CharacterController) -> (r: Scalar)
    ensures
        r == jump_speed(*cfg),
{
    reveal(jump_speed);
    (num(TWO) * cfg.gravity * cfg.jump_height).sqrt()
}

/// Whether a bounce was asked for in time and is allowed again.
#[verifier::opaque]
pub open spec fn bounce_ready(c: Ctx) -> bool {
    &&& c.input.bounced matches Some(press) && !c.cfg.bounce_input_buffer.lt(press.elapsed)
    &&& !c.state.last_bounce.elapsed.lt(c.cfg.bounce_cooldown)
}

/// How fast a character goes into a wall, now or before the last slide; what goes in is negative.
pub open spec fn into_wall(c: Ctx, normal: Vec3) -> Scalar {
    c.velocity.dot(normal).min(c.state.last_velocity.dot(normal))
}

/// How fast a bounce goes off the wall: as fast as it went into it, less what the wall takes, but at
/// least at the smallest speed.
#[verifier::opaque]
pub open spec fn bounce_speed(cfg: CharacterController, into: Scalar) -> Scalar {
    (cfg.bounce_restitution.negated() * into).max(cfg.bounce_min_speed)
}

/// The velocity after a bounce, before it goes up: what is along the wall stays, and what is across
/// it becomes the speed of the bounce, unless it is more already.
#[verifier::opaque]
pub open spec fn mirrored_velocity(c: Ctx, normal: Vec3) -> Vec3 {
    let now = c.velocity.dot(normal);
    let out = bounce_speed(c.cfg, into_wall(c, normal));
    if now.lt(out) {
        c.velocity + normal * (out - now)
    } else {
        c.velocity
    }
}

/// The velocity after a bounce. It launches up like a jump, without slowing an ascent.
#[verifier::opaque]
pub open spec fn bounced_velocity(c: Ctx, normal: Vec3) -> Vec3 {
    let mirrored = mirrored_velocity(c, normal);
    mirrored.with_y(mirrored.y.max(jump_speed(c.cfg) * c.cfg.bounce_jump_factor))
}

/// A character that bounces off a wall.
#[verifier::opaque]
pub open spec fn bounced(c: Ctx, normal: Vec3) -> Ctx {
    c.with_input(AccumulatedInput { bounced: None, ..c.input }).with_state(
        CharacterControllerState { last_bounce: c.state.last_bounce.restarted(), ..c.state },
    ).with_velocity(bounced_velocity(c, normal))
}

/// Bounces off a wall.
fn bounce_off(normal: Vec3, ctx: &mut CtxItem)
    ensures
        final(ctx).cfg == old(ctx).cfg,
        no_new_press(old(ctx).input, final(ctx).input),
        final(ctx)@ == bounced(old(ctx)@, normal),
{
    reveal(bounced);
    reveal(bounced_velocity);
    reveal(mirrored_velocity);
    reveal(bounce_speed);
    ctx.input.bounced = None;
    ctx.state.last_bounce = ctx.state.last_bounce.restarted();
    let now = ctx.velocity.dot(normal);
    let into = now.min(ctx.state.last_velocity.dot(normal));
    let out = (ctx.cfg.bounce_restitution.negated() * into).max(ctx.cfg.bounce_min_speed);
    // The slide may already have taken what went into the wall, so only what is missing is added.
    if now.lt(out) {
        ctx.velocity = ctx.velocity + normal * (out - now);
    }
    let speed = find_jump_speed(&ctx.cfg);
    ctx.velocity.y = ctx.velocity.y.max(speed * ctx.cfg.bounce_jump_factor);
}

/// The model of [`handle_bounce`].
#[verifier::opaque]
pub open spec fn handle_bounce_model(h: History, s: Step) -> Step {
    if !bounce_ready(s.ctx) {
        s
    } else {
        let (t, wall) = closest_wall_normal_model(h, s, s.ctx.cfg.bounce_distance);
        match wall {
            None => t,
            Some((_, normal)) => t.with_ctx(bounced(t.ctx, normal)),
        }
    }
}

/// Bounces off a wall nearby, if that was asked for.
pub fn handle_bounce<W: World>(session: &mut Session<W>, ctx: &mut CtxItem, transform: &Transform)
    ensures
        final(session).surroundings() == old(session).surroundings(),
        extends(old(session).log(), final(session).log()),
        final(ctx).cfg == old(ctx).cfg,
        no_new_press(old(ctx).input, final(ctx).input),
        forall|h: History|
            extends(final(session).log(), h) ==> #[trigger] handle_bounce_model(
                h,
                step_at(old(session).log(), old(ctx)@, *transform),
            ) == step_at(final(session).log(), final(ctx)@, *transform),
{
    broadcast use group_extends;

    reveal(handle_bounce_model);
    reveal(bounce_ready);
    let bounce_time = match ctx.input.bounced {
        Some(press) => press,
        None => {
            return;
        },
    };
    if ctx.cfg.bounce_input_buffer.lt(bounce_time.elapsed) {
        return;
    }
    if ctx.state.last_bounce.elapsed.lt(ctx.cfg.bounce_cooldown) {
        return;
    }
    let wall = closest_wall_normal(ctx.cfg.bounce_distance, session, ctx, transform);
    if let Some((_, normal)) = wall {
        bounce_off(normal, ctx);
    }
}

/// The direction of a jump off a ledge that is held, scaled by its strength: ahead and up, or
/// straight down when moving back. There is none right after a mantle was asked for.
#[verifier::opaque]
pub open spec fn ledge_jump(c: Ctx) -> Option<Vec3> {
    let fresh = c.input.mantled matches Some(press) && press.elapsed.lt(c.cfg.mantle_input_buffer);
    if c.state.mantle is None || fresh || c.input.jumped is None {
        None
    } else {
        match forward(c.state.orientation).flat().direction() {
            None => None,
            Some(ahead) => if num(ZERO).le(movement(c.input).y) {
                match (up() * c.cfg.ledge_jump_factor + ahead).direction() {
                    None => None,
                    Some(dir) => Some(dir * c.cfg.ledge_jump_power),
                }
            } else {
                Some(down() * c.cfg.ledge_jump_power)
            },
        }
    }
}

/// Lets go of a ledge to jump off it. Gives the direction, scaled by its strength.
pub fn handle_ledge_jump_dir(ctx: &mut CtxItem) -> (r: Option<Vec3>)
    ensures
        final(ctx).cfg == old(ctx).cfg,
        final(ctx).input == old(ctx).input,
        r == ledge_jump(old(ctx)@),
        final(ctx)@ == (if r is Some {
            old(ctx)@.with_state(
                CharacterControllerState { mantle: None, ..old(ctx)@.state },
            )
        } else {
            old(ctx)@
        }),
{
    reveal(ledge_jump);
    let fresh = match ctx.input.mantled {
        Some(press) => press.elapsed.lt(ctx.cfg.mantle_input_buffer),
        None => false,
    };
    if ctx.state.mantle.is_none() || fresh || ctx.input.jumped.is_none() {
        return None;
    }
    let flat_fwd = match forward(ctx.state.orientation).flat().direction() {
        Some(dir) => dir,
        None => {
            return None;
        },
    };
    let jump_dir = if num(ZERO).le(movement(ctx.input).y) {
        match (up() * ctx.cfg.ledge_jump_factor + flat_fwd).direction() {
            Some(dir) => dir,
            None => {
                return None;
            },
        }
    } else {
        down()
    };
    ctx.state.mantle = None;
    Some(jump_dir * ctx.cfg.ledge_jump_power)
}

/// The horizontal velocity of a jump. Soon after landing it has the speed of the landing back,
/// as far as that is preserved.
#[verifier::opaque]
pub open spec fn takeoff_velocity(c: Ctx) -> Vec3 {
    let preserved = c.state.land_speed * c.cfg.land_momentum_preservation;
    let speed = c.velocity.xz().length();
    if c.state.last_land.elapsed.lt(c.cfg.land_momentum_window) && num(HUNDREDTH).lt(speed)
        && speed.lt(preserved) {
        let scale = preserved.over(speed);
        vec3(c.velocity.x * scale, c.velocity.y, c.velocity.z * scale)
    } else {
        c.velocity
    }
}

/// A character that takes off. Its time off the ground counts as used up, so that it cannot jump
/// again right away.
#[verifier::opaque]
pub open spec fn taking_off(c: Ctx) -> Ctx {
    c.with_velocity(takeoff_velocity(c)).with_state(
        CharacterControllerState {
            last_ground: c.state.last_ground.with_elapsed(c.cfg.coyote_time),
            ..c.state
        },
    )
}

/// Takes off.
fn take_off(ctx: &mut CtxItem)
    ensures
        final(ctx).cfg == old(ctx).cfg,
        final(ctx).input == old(ctx).input,
        final(ctx)@ == taking_off(old(ctx)@),
{
    reveal(taking_off);
    reveal(takeoff_velocity);
    ctx.state.last_ground = ctx.state.last_ground.with_elapsed(ctx.cfg.coyote_time);
    if ctx.state.last_land.elapsed.lt(ctx.cfg.land_momentum_window) {
        let preserved = ctx.state.land_speed * ctx.cfg.land_momentum_preservation;
        let speed = ctx.velocity.xz().length();
        if num(HUNDREDTH).lt(speed) && speed.lt(preserved) {
            let scale = preserved.over(speed);
            ctx.velocity.x = ctx.velocity.x * scale;
            ctx.velocity.z = ctx.velocity.z * scale;
        }
    }
}

/// A character that is launched. The presses are spent, and a buffered crane press keeps only the
/// time that chains it to the jump.
#[verifier::opaque]
pub open spec fn launched(c: Ctx, dir: Vec3) -> Ctx {
    let impulse = dir * num(ONE) * jump_speed(c.cfg) + up() * c.state.platform_velocity.y;
    c.with_velocity(c.velocity + impulse).with_state(
        CharacterControllerState {
            last_tac: c.state.last_tac.restarted(),
            last_jump: c.state.last_jump.restarted(),
            ..c.state
        },
    ).with_input(
        AccumulatedInput {
            jumped: None,
            tac: None,
            craned: match c.input.craned {
                Some(press) => Some(
                    press.ticked(c.cfg.crane_input_buffer.minus(c.cfg.jump_crane_chain_time)),
                ),
                None => None,
            },
            ..c.input
        },
    )
}

/// Launches a character.
fn launch(dir: Vec3, ctx: &mut CtxItem)
    ensures
        final(ctx).cfg == old(ctx).cfg,
        no_new_press(old(ctx).input, final(ctx).input),
        final(ctx)@ == launched(old(ctx)@, dir),
{
    reveal(launched);
    ctx.state.last_tac = ctx.state.last_tac.restarted();
    ctx.state.last_jump = ctx.state.last_jump.restarted();
    ctx.input.jumped = None;
    ctx.input.tac = None;
    let ground_factor = num(ONE);
    let speed = find_jump_speed(&ctx.cfg);
    ctx.velocity = ctx.velocity + (dir * ground_factor * speed + up()
        * ctx.state.platform_velocity.y);
    if let Some(press) = ctx.input.craned {
        let spent = ctx.cfg.crane_input_buffer.minus(ctx.cfg.jump_crane_chain_time);
        ctx.input.craned = Some(press.ticked(spent));
    }
}

/// Whether the ground was left too long ago to jump off it.
pub open spec fn airborne(c: Ctx) -> bool {
    c.state.grounded is None && c.cfg.coyote_time.lt(c.state.last_ground.elapsed)
}

/// The model of [`handle_jump`].
#[verifier::opaque]
pub open spec fn handle_jump_model(h: History, s: Step, wish_velocity: Vec3, time: Time) -> Step {
    if airborne(s.ctx) {
        let (t, tac) = handle_tac_model(h, s, wish_velocity, time);
        match tac {
            Some(dir) => t.with_ctx(launched(t.ctx, dir)),
            None => match ledge_jump(t.ctx) {
                Some(dir) => {
                    let freed = t.ctx.with_state(
                        CharacterControllerState { mantle: None, ..t.ctx.state },
                    );
                    t.with_ctx(launched(freed, dir))
                },
                None => t,
            },
        }
    } else {
        match s.ctx.input.jumped {
            None => s,
            Some(press) => if s.ctx.cfg.jump_input_buffer.lt(press.elapsed) {
                s
            } else {
                let t = set_grounded_model(h, s, None, time);
                t.with_ctx(launched(taking_off(t.ctx), up()))
            },
        }
    }
}

/// Jumps where that was asked for: off the ground, off a wall, or off a ledge.
pub fn handle_jump<W: World>(
    wish_velocity: Vec3,
    time: &Time,
    session: &mut Session<W>,
    ctx: &mut CtxItem,
    transform: &Transform,
)
    ensures
        final(session).surroundings() == old(session).surroundings(),
        extends(old(session).log(), final(session).log()),
        final(ctx).cfg == old(ctx).cfg,
        no_new_press(old(ctx).input, final(ctx).input),
        forall|h: History|
            extends(final(session).log(), h) ==> #[trigger] handle_jump_model(
                h,
                step_at(old(session).log(), old(ctx)@, *transform),
                wish_velocity,
                *time,
            ) == step_at(final(session).log(), final(ctx)@, *transform),
{
    broadcast use group_extends;

    reveal(handle_jump_model);
    let flying = ctx.state.grounded.is_none() && ctx.cfg.coyote_time.lt(
        ctx.state.last_ground.elapsed,
    );
    let jump_dir = if flying {
        match handle_tac(wish_velocity, time, session, ctx, transform) {
            Some(dir) => dir,
            None => match handle_ledge_jump_dir(ctx) {
                Some(dir) => dir,
                None => {
                    return;
                },
            },
        }
    } else {
        let jump_time = match ctx.input.jumped {
            Some(press) => press,
            None => {
                return;
            },
        };
        if ctx.cfg.jump_input_buffer.lt(jump_time.elapsed) {
            return;
        }
        set_grounded(None, time, session, ctx, transform);
        take_off(ctx);
        up()
    };
    launch(jump_dir, ctx);
}

} // verus!
