//! Craning and mantling: climbing onto ledges.
use crate::casting::{
    cast_move, cast_move_model, closest_wall_normal, closest_wall_normal_model,
    depenetrate_character, depenetrate_character_model, move_character, move_character_model,
};
use crate::clock::Time;
use crate::config::CharacterController;
use crate::context::{
    no_new_press, AccumulatedInput, CharacterControllerState, Ctx, CtxItem, MantleOutput,
    MantleState, MoveHitData,
};
use crate::ground::{calculate_platform_movement, calculate_platform_movement_model};
use crate::ledge::{
    available_crane_height, available_crane_height_model, available_mantle_height,
    available_mantle_height_model, probe_velocity, start_probe,
};
use crate::motion::{forward, movement, HUNDREDTH};
use crate::scalar::{num, Scalar, MINUS_ONE, ONE, TWO, ZERO};
use crate::vector::{down, up, zero, Transform, Vec3};
use crate::world::{ask_platform, extends, group_extends, step_at, History, Session, Step, World};
use vstd::prelude::*;

verus! {

impl Step {
    pub open spec fn with_state(self, state: CharacterControllerState) -> Step {
        self.with_ctx(self.ctx.with_state(state))
    }

    /// The step with another height left to crane.
    pub open spec fn with_crane(self, crane_height_left: Option<Scalar>) -> Step {
        self.with_state(CharacterControllerState { crane_height_left, ..self.ctx.state })
    }
}

/// A character that starts to crane. The other presses are spent, so that one key bound to
/// several moves does not make a jump follow at once.
#[verifier::opaque]
pub open spec fn craning(c: Ctx, height: Scalar) -> Ctx {
    c.with_input(
        AccumulatedInput { craned: None, jumped: None, mantled: None, tac: None, ..c.input },
    ).with_state(
        CharacterControllerState { mantle: None, crane_height_left: Some(height), ..c.state },
    )
}

/// The model of [`update_crane_state`].
#[verifier::opaque]
pub open spec fn update_crane_state_model(h: History, s: Step, wish_velocity: Vec3, time: Time) -> Step {
    match s.ctx.input.craned {
        None => s,
        Some(press) => if s.ctx.cfg.crane_input_buffer.lt(press.elapsed) {
            s
        } else {
            let (t, height) = available_crane_height_model(h, s, wish_velocity, time);
            match height {
                None => t.with_crane(None),
                Some(height) => t.with_ctx(craning(t.ctx, height)),
            }
        },
    }
}

/// Starts a crane where one was asked for and there is a ledge.
pub fn update_crane_state<W: World>(
    wish_velocity: Vec3,
    time: &Time,
    session: &mut Session<W>,
    ctx: &mut CtxItem,
    transform: &mut Transform,
)
    ensures
        final(session).surroundings() == old(session).surroundings(),
        extends(old(session).log(), final(session).log()),
        final(ctx).cfg == old(ctx).cfg,
        no_new_press(old(ctx).input, final(ctx).input),
        final(transform).rotation == old(transform).rotation,
        final(transform).scale == old(transform).scale,
        forall|h: History|
            extends(final(session).log(), h) ==> #[trigger] update_crane_state_model(
                h,
                step_at(old(session).log(), old(ctx)@, *old(transform)),
                wish_velocity,
                *time,
            ) == step_at(final(session).log(), final(ctx)@, *final(transform)),
        *final(transform) == *old(transform),
{
    broadcast use group_extends;

    reveal(update_crane_state_model);
    reveal(craning);
    let crane_time = match ctx.input.craned {
        Some(press) => press,
        None => {
            return;
        },
    };
    if ctx.cfg.crane_input_buffer.lt(crane_time.elapsed) {
        return;
    }
    let crane_height = match available_crane_height(wish_velocity, time, session, ctx, transform) {
        Some(height) => height,
        None => {
            ctx.state.crane_height_left = None;
            return;
        },
    };
    ctx.input.craned = None;
    ctx.input.jumped = None;
    ctx.input.mantled = None;
    ctx.input.tac = None;
    ctx.state.mantle = None;
    ctx.state.crane_height_left = Some(crane_height);
}

/// The model of [`crane_over`].
#[verifier::opaque]
pub open spec fn crane_over_model(h: History, s: Step, dir: Vec3, speed: Scalar, time: Time) -> Step {
    let (s1, ahead) = cast_move_model(h, s, dir * s.ctx.cfg.min_crane_ledge_space);
    if ahead is None {
        depenetrate_character_model(
            h,
            s1.with_translation(s.transform.translation + dir * speed * time.delta_secs),
        ).with_crane(None)
    } else if s.ctx.state.crane_height_left matches Some(left) && !left.same(num(ZERO)) {
        s1
    } else {
        s1.with_crane(None)
    }
}

/// Moves onto the ledge once there is nothing ahead; gives up where nothing is left to climb.
pub fn crane_over<W: World>(
    dir: Vec3,
    speed: Scalar,
    time: &Time,
    session: &mut Session<W>,
    ctx: &mut CtxItem,
    transform: &mut Transform,
)
    ensures
        final(session).surroundings() == old(session).surroundings(),
        extends(old(session).log(), final(session).log()),
        final(ctx).cfg == old(ctx).cfg,
        no_new_press(old(ctx).input, final(ctx).input),
        final(transform).rotation == old(transform).rotation,
        final(transform).scale == old(transform).scale,
        forall|h: History|
            extends(final(session).log(), h) ==> #[trigger] crane_over_model(
                h,
                step_at(old(session).log(), old(ctx)@, *old(transform)),
                dir,
                speed,
                *time,
            ) == step_at(final(session).log(), final(ctx)@, *final(transform)),
{
    broadcast use group_extends;

    reveal(crane_over_model);
    let ahead = cast_move(dir * ctx.cfg.min_crane_ledge_space, session, ctx, transform);
    if ahead.is_none() {
        transform.translation = transform.translation + dir * speed * time.delta_secs;
        depenetrate_character(session, ctx, transform);
        ctx.state.crane_height_left = None;
        return;
    }
    let unfinished = match ctx.state.crane_height_left {
        Some(left) => !left.same(num(ZERO)),
        None => false,
    };
    if !unfinished {
        ctx.state.crane_height_left = None;
    }
}

/// The model of [`crane_up`].
#[verifier::opaque]
pub open spec fn crane_up_model(h: History, s: Step, height: Scalar, time: Time) -> Step {
    let reach = (s.ctx.cfg.crane_speed * time.delta_secs).min(height);
    let (s1, ceiling) = cast_move_model(h, s, up() * reach);
    let travel = match ceiling {
        Some(hit) => hit.distance,
        None => reach,
    };
    let left = if ceiling is Some {
        num(ZERO)
    } else {
        (height - travel).max(num(ZERO))
    };
    let s2 = move_character_model(
        h,
        s1.with_translation(s.transform.translation + up() * travel).with_velocity(
            s.ctx.state.platform_velocity,
        ),
        time,
    );
    s2.with_velocity(s.ctx.velocity).with_state(
        CharacterControllerState {
            crane_height_left: Some(left),
            last_step_up: s2.ctx.state.last_step_up.restarted(),
            ..s2.ctx.state
        },
    )
}

/// Rises along the wall, as far as one step of a crane reaches, carried by the ground.
pub fn crane_up<W: World>(
    height: Scalar,
    time: &Time,
    session: &mut Session<W>,
    ctx: &mut CtxItem,
    transform: &mut Transform,
)
    ensures
        final(session).surroundings() == old(session).surroundings(),
        extends(old(session).log(), final(session).log()),
        final(ctx).cfg == old(ctx).cfg,
        no_new_press(old(ctx).input, final(ctx).input),
        final(transform).rotation == old(transform).rotation,
        final(transform).scale == old(transform).scale,
        forall|h: History|
            extends(final(session).log(), h) ==> #[trigger] crane_up_model(
                h,
                step_at(old(session).log(), old(ctx)@, *old(transform)),
                height,
                *time,
            ) == step_at(final(session).log(), final(ctx)@, *final(transform)),
{
    broadcast use group_extends;

    reveal(crane_up_model);
    let reach = (ctx.cfg.crane_speed * time.delta_secs).min(height);
    let top_hit = cast_move(up() * reach, session, ctx, transform);
    let travel_dist = match top_hit {
        Some(hit) => hit.distance,
        None => reach,
    };
    transform.translation = transform.translation + up() * travel_dist;
    let velocity_stash = ctx.velocity;
    ctx.velocity = ctx.state.platform_velocity;
    move_character(time, session, ctx, transform);
    ctx.velocity = velocity_stash;
    ctx.state.crane_height_left = Some(
        if top_hit.is_some() {
            num(ZERO)
        } else {
            (height - travel_dist).max(num(ZERO))
        },
    );
    ctx.state.last_step_up = ctx.state.last_step_up.restarted();
}

/// The model of [`crane_along`].
#[verifier::opaque]
pub open spec fn crane_along_model(
    h: History,
    s: Step,
    height: Scalar,
    wish_dir: Vec3,
    dir: Vec3,
    speed: Scalar,
    time: Time,
) -> Step {
    let (s1, wall) = cast_move_model(h, s, wish_dir * s.ctx.cfg.min_crane_ledge_space);
    match wall {
        None => s1.with_crane(None),
        Some(hit) => if hit.normal1.flat().normalize_or_zero().negated().dot(wish_dir).lt(
            s.ctx.cfg.min_crane_cos,
        ) {
            s1.with_crane(None)
        } else {
            crane_over_model(h, crane_up_model(h, s1, height, time), dir, speed, time)
        },
    }
}

/// Cranes up a wall that the wish faces, and gives up where there is none.
pub fn crane_along<W: World>(
    height: Scalar,
    wish_dir: Vec3,
    dir: Vec3,
    speed: Scalar,
    time: &Time,
    session: &mut Session<W>,
    ctx: &mut CtxItem,
    transform: &mut Transform,
)
    ensures
        final(session).surroundings() == old(session).surroundings(),
        extends(old(session).log(), final(session).log()),
        final(ctx).cfg == old(ctx).cfg,
        no_new_press(old(ctx).input, final(ctx).input),
        final(transform).rotation == old(transform).rotation,
        final(transform).scale == old(transform).scale,
        forall|h: History|
            extends(final(session).log(), h) ==> #[trigger] crane_along_model(
                h,
                step_at(old(session).log(), old(ctx)@, *old(transform)),
                height,
                wish_dir,
                dir,
                speed,
                *time,
            ) == step_at(final(session).log(), final(ctx)@, *final(transform)),
{
    broadcast use group_extends;

    reveal(crane_along_model);
    let wall = cast_move(wish_dir * ctx.cfg.min_crane_ledge_space, session, ctx, transform);
    let wall_hit = match wall {
        Some(hit) => hit,
        None => {
            ctx.state.crane_height_left = None;
            return;
        },
    };
    let wall_normal = wall_hit.normal1.flat().normalize_or_zero();
    if wall_normal.negated().dot(wish_dir).lt(ctx.cfg.min_crane_cos) {
        ctx.state.crane_height_left = None;
        return;
    }
    crane_up(height, time, session, ctx, transform);
    crane_over(dir, speed, time, session, ctx, transform);
}

/// The model of [`handle_crane_movement`].
#[verifier::opaque]
pub open spec fn handle_crane_movement_model(
    h: History,
    s: Step,
    wish_velocity: Vec3,
    time: Time,
) -> Step {
    match s.ctx.state.crane_height_left {
        None => s,
        Some(height) => {
            let velocity = probe_velocity(s.ctx, wish_velocity, time.delta_secs);
            let t = s.with_velocity(velocity - s.ctx.state.platform_velocity);
            match velocity.direction_and_length() {
                None => t.with_crane(None),
                Some((dir, speed)) => crane_along_model(
                    h,
                    t,
                    height,
                    match wish_velocity.direction() {
                        Some(wish_dir) => wish_dir,
                        None => dir,
                    },
                    dir,
                    speed,
                    time,
                ),
            }
        },
    }
}

/// Continues a crane.
pub fn handle_crane_movement<W: World>(
    wish_velocity: Vec3,
    time: &Time,
    session: &mut Session<W>,
    ctx: &mut CtxItem,
    transform: &mut Transform,
)
    ensures
        final(session).surroundings() == old(session).surroundings(),
        extends(old(session).log(), final(session).log()),
        final(ctx).cfg == old(ctx).cfg,
        no_new_press(old(ctx).input, final(ctx).input),
        final(transform).rotation == old(transform).rotation,
        final(transform).scale == old(transform).scale,
        forall|h: History|
            extends(final(session).log(), h) ==> #[trigger] handle_crane_movement_model(
                h,
                step_at(old(session).log(), old(ctx)@, *old(transform)),
                wish_velocity,
                *time,
            ) == step_at(final(session).log(), final(ctx)@, *final(transform)),
{
    broadcast use group_extends;

    reveal(handle_crane_movement_model);
    let crane_height = match ctx.state.crane_height_left {
        Some(height) => height,
        None => {
            return;
        },
    };
    start_probe(wish_velocity, time, ctx);
    let heading = ctx.velocity.direction_and_length();
    ctx.velocity = ctx.velocity - ctx.state.platform_velocity;
    let (vel_dir, speed) = match heading {
        Some(heading) => heading,
        None => {
            ctx.state.crane_height_left = None;
            return;
        },
    };
    let wish_dir = match wish_velocity.direction() {
        Some(wish_dir) => wish_dir,
        None => vel_dir,
    };
    crane_along(crane_height, wish_dir, vel_dir, speed, time, session, ctx, transform);
}

/// A character that starts to mantle. The presses for what a mantle rules out are spent.
#[verifier::opaque]
pub open spec fn mantling(c: Ctx, state: MantleState, output: MantleOutput) -> Ctx {
    let started = c.with_input(
        AccumulatedInput { craned: None, mantled: None, jumped: None, ..c.input },
    ).with_state(CharacterControllerState { mantle: Some(state), ..c.state });
    Ctx { mantle: Some(output), ..started }
}

/// Starts a mantle.
fn start_mantle(found: (MantleState, MantleOutput), ctx: &mut CtxItem)
    ensures
        final(ctx)@ == mantling(old(ctx)@, found.0, found.1),
        final(ctx).cfg == old(ctx).cfg,
        no_new_press(old(ctx).input, final(ctx).input),
{
    reveal(mantling);
    ctx.input.craned = None;
    ctx.input.mantled = None;
    ctx.input.jumped = None;
    ctx.state.mantle = Some(found.0);
    ctx.output.mantle = Some(found.1);
}

/// The model of [`update_mantle_state`].
#[verifier::opaque]
pub open spec fn update_mantle_state_model(h: History, s: Step, wish_velocity: Vec3, time: Time) -> Step {
    if s.ctx.state.crane_height_left is Some {
        s.with_state(CharacterControllerState { mantle: None, ..s.ctx.state })
    } else if s.ctx.state.mantle is Some {
        s
    } else {
        match s.ctx.input.mantled {
            None => s,
            Some(press) => if s.ctx.cfg.mantle_input_buffer.lt(press.elapsed) {
                s
            } else {
                let (t, found) = available_mantle_height_model(h, s, wish_velocity, time);
                match found {
                    None => t,
                    Some((state, output)) => t.with_ctx(mantling(t.ctx, state, output)),
                }
            },
        }
    }
}

/// Starts a mantle where one was asked for and there is a ledge. A crane goes before.
pub fn update_mantle_state<W: World>(
    wish_velocity: Vec3,
    time: &Time,
    session: &mut Session<W>,
    ctx: &mut CtxItem,
    transform: &mut Transform,
)
    ensures
        final(session).surroundings() == old(session).surroundings(),
        extends(old(session).log(), final(session).log()),
        final(ctx).cfg == old(ctx).cfg,
        no_new_press(old(ctx).input, final(ctx).input),
        final(transform).rotation == old(transform).rotation,
        final(transform).scale == old(transform).scale,
        forall|h: History|
            extends(final(session).log(), h) ==> #[trigger] update_mantle_state_model(
                h,
                step_at(old(session).log(), old(ctx)@, *old(transform)),
                wish_velocity,
                *time,
            ) == step_at(final(session).log(), final(ctx)@, *final(transform)),
        *final(transform) == *old(transform),
{
    broadcast use group_extends;

    reveal(update_mantle_state_model);
    reveal(mantling);
    if ctx.state.crane_height_left.is_some() {
        ctx.state.mantle = None;
        return;
    }
    if ctx.state.mantle.is_some() {
        return;
    }
    let mantle_time = match ctx.input.mantled {
        Some(press) => press,
        None => {
            return;
        },
    };
    if ctx.cfg.mantle_input_buffer.lt(mantle_time.elapsed) {
        return;
    }
    if let Some(found) = available_mantle_height(wish_velocity, time, session, ctx, transform) {
        start_mantle(found, ctx);
    }
}

/// How fast to climb, from -1 to 1. Looking at the wall or above it climbs, looking down
/// descends, and moving back turns that around.
#[verifier::opaque]
pub open spec fn climb_factor(c: Ctx, wish_velocity: Vec3) -> Scalar {
    if wish_velocity.length_squared().lt(num(HUNDREDTH)) {
        num(ZERO)
    } else {
        let ahead = movement(c.input).y;
        let rise = (forward(c.state.orientation) * ahead.abs()).y;
        let factor = ((rise + c.cfg.climb_reverse_sin) * c.cfg.climb_sensitivity).clamp(
            num(MINUS_ONE),
            num(ONE),
        );
        if ahead.lt(num(ZERO)) {
            factor.negated()
        } else {
            factor
        }
    }
}

/// How fast to climb.
pub fn calc_climb_factor(ctx: &CtxItem, wish_velocity: Vec3) -> (r: Scalar)
    ensures
        r == climb_factor(ctx@, wish_velocity),
{
    reveal(climb_factor);
    if wish_velocity.length_squared().lt(num(HUNDREDTH)) {
        return num(ZERO);
    }
    let ahead = movement(ctx.input).y;
    let cos = (forward(ctx.state.orientation) * ahead.abs()).y;
    let factor = ((cos + ctx.cfg.climb_reverse_sin) * ctx.cfg.climb_sensitivity).clamp(
        num(MINUS_ONE),
        num(ONE),
    );
    if ahead.lt(num(ZERO)) {
        factor.negated()
    } else {
        factor
    }
}

/// How far to climb in one step: up to what is left, and down no farther than the hands can
/// hold on.
#[verifier::opaque]
pub open spec fn climb_distance(
    cfg: CharacterController,
    left: Scalar,
    factor: Scalar,
    secs: Scalar,
) -> Scalar {
    let wanted = (cfg.mantle_speed * secs * factor).min(left);
    let grip = cfg.min_ledge_grab_space.y * num(TWO);
    if (cfg.mantle_height - grip).lt(left - wanted) {
        left - cfg.mantle_height + grip
    } else {
        wanted
    }
}

/// How far to climb in one step.
fn find_climb_distance(
    cfg: &CharacterController,
    left: Scalar,
    factor: Scalar,
    secs: Scalar,
) -> (r: Scalar)
    ensures
        r == climb_distance(*cfg, left, factor, secs),
{
    reveal(climb_distance);
    let wanted = (cfg.mantle_speed * secs * factor).min(left);
    let grip = cfg.min_ledge_grab_space.y * num(TWO);
    if (cfg.mantle_height - grip).lt(left - wanted) {
        left - cfg.mantle_height + grip
    } else {
        wanted
    }
}

/// The model of [`mantle_climb`].
#[verifier::opaque]
pub open spec fn mantle_climb_model(
    h: History,
    s: Step,
    wish_velocity: Vec3,
    left: Scalar,
    time: Time,
) -> Step {
    let climb = climb_distance(
        s.ctx.cfg,
        left,
        climb_factor(s.ctx, wish_velocity),
        time.delta_secs,
    );
    let (s1, end) = cast_move_model(h, s, up() * climb);
    let travel = match end {
        Some(hit) => hit.distance,
        None => climb.abs(),
    } * climb.signum();
    let s2 = move_character_model(
        h,
        s1.with_velocity(
            (up() * travel).over(time.delta_secs) + s.ctx.state.platform_velocity,
        ),
        time,
    );
    let rose = num(ZERO).lt(climb);
    s2.with_velocity(s2.ctx.velocity - s2.ctx.state.platform_velocity).with_state(
        CharacterControllerState {
            mantle: Some(MantleState { height_left: left - travel }),
            last_step_up: if rose {
                s2.ctx.state.last_step_up.restarted()
            } else {
                s2.ctx.state.last_step_up
            },
            last_step_down: if rose {
                s2.ctx.state.last_step_down
            } else {
                s2.ctx.state.last_step_down.restarted()
            },
            ..s2.ctx.state
        },
    )
}

/// Climbs up or down along the wall.
pub fn mantle_climb<W: World>(
    wish_velocity: Vec3,
    left: Scalar,
    time: &Time,
    session: &mut Session<W>,
    ctx: &mut CtxItem,
    transform: &mut Transform,
)
    ensures
        final(session).surroundings() == old(session).surroundings(),
        extends(old(session).log(), final(session).log()),
        final(ctx).cfg == old(ctx).cfg,
        no_new_press(old(ctx).input, final(ctx).input),
        final(transform).rotation == old(transform).rotation,
        final(transform).scale == old(transform).scale,
        forall|h: History|
            extends(final(session).log(), h) ==> #[trigger] mantle_climb_model(
                h,
                step_at(old(session).log(), old(ctx)@, *old(transform)),
                wish_velocity,
                left,
                *time,
            ) == step_at(final(session).log(), final(ctx)@, *final(transform)),
{
    broadcast use group_extends;

    reveal(mantle_climb_model);
    let factor = calc_climb_factor(ctx, wish_velocity);
    let climb_dist = find_climb_distance(&ctx.cfg, left, factor, time.delta_secs);
    let top_hit = cast_move(up() * climb_dist, session, ctx, transform);
    let free_dist = match top_hit {
        Some(hit) => hit.distance,
        None => climb_dist.abs(),
    };
    let travel_dist = free_dist * climb_dist.signum();
    ctx.velocity = (up() * travel_dist).over(time.delta_secs) + ctx.state.platform_velocity;
    move_character(time, session, ctx, transform);
    ctx.velocity = ctx.velocity - ctx.state.platform_velocity;
    if num(ZERO).lt(climb_dist) {
        ctx.state.last_step_up = ctx.state.last_step_up.restarted();
    } else {
        ctx.state.last_step_down = ctx.state.last_step_down.restarted();
    }
    ctx.state.mantle = Some(MantleState { height_left: left - travel_dist });
}

/// The model of [`mantle_carry`].
#[verifier::opaque]
pub open spec fn mantle_carry_model(
    h: History,
    s: Step,
    wall_normal: Vec3,
    hit: MoveHitData,
    time: Time,
) -> Step {
    let output = MantleOutput {
        wall_normal,
        ledge_position: hit.point1,
        wall_entity: hit.entity,
    };
    let (t, platform) = ask_platform(
        h,
        s.with_ctx(Ctx { mantle: Some(output), ..s.ctx }),
        hit.entity,
    );
    match platform {
        None => t,
        Some(platform) => calculate_platform_movement_model(h, t, hit.point1, platform, time),
    }
}

/// Records the wall that is held on to and how it moves.
pub fn mantle_carry<W: World>(
    wall_normal: Vec3,
    hit: MoveHitData,
    time: &Time,
    session: &mut Session<W>,
    ctx: &mut CtxItem,
    transform: &Transform,
)
    ensures
        final(session).surroundings() == old(session).surroundings(),
        extends(old(session).log(), final(session).log()),
        final(ctx).cfg == old(ctx).cfg,
        no_new_press(old(ctx).input, final(ctx).input),
        forall|h: History|
            extends(final(session).log(), h) ==> #[trigger] mantle_carry_model(
                h,
                step_at(old(session).log(), old(ctx)@, *transform),
                wall_normal,
                hit,
                *time,
            ) == step_at(final(session).log(), final(ctx)@, *transform),
{
    broadcast use group_extends;

    reveal(mantle_carry_model);
    ctx.output.mantle = Some(
        MantleOutput { wall_normal, ledge_position: hit.point1, wall_entity: hit.entity },
    );
    if let Some(platform) = session.platform(hit.entity) {
        calculate_platform_movement(hit.point1, &platform, time, session, ctx, transform);
    }
}

/// The model of [`handle_mantle_movement`].
#[verifier::opaque]
pub open spec fn handle_mantle_movement_model(
    h: History,
    s: Step,
    wish_velocity: Vec3,
    time: Time,
) -> Step {
    match s.ctx.state.mantle {
        None => s,
        Some(mantle) => {
            let reach = s.ctx.cfg.max_ledge_grab_distance;
            let (s1, wall) = closest_wall_normal_model(
                h,
                s.with_state(
                    CharacterControllerState { mantle: None, ..s.ctx.state },
                ).with_velocity(zero()),
                reach,
            );
            match wall {
                None => s1,
                Some((_, wall_normal)) => {
                    let (s2, hit) = cast_move_model(h, s1, wall_normal.negated() * reach);
                    match hit {
                        None => s2,
                        Some(hit) => mantle_climb_model(
                            h,
                            mantle_carry_model(h, s2, wall_normal, hit, time),
                            wish_velocity,
                            mantle.height_left,
                            time,
                        ),
                    }
                },
            }
        },
    }
}

/// Continues a mantle, as long as the wall is near enough.
pub fn handle_mantle_movement<W: World>(
    wish_velocity: Vec3,
    time: &Time,
    session: &mut Session<W>,
    ctx: &mut CtxItem,
    transform: &mut Transform,
)
    ensures
        final(session).surroundings() == old(session).surroundings(),
        extends(old(session).log(), final(session).log()),
        final(ctx).cfg == old(ctx).cfg,
        no_new_press(old(ctx).input, final(ctx).input),
        final(transform).rotation == old(transform).rotation,
        final(transform).scale == old(transform).scale,
        forall|h: History|
            extends(final(session).log(), h) ==> #[trigger] handle_mantle_movement_model(
                h,
                step_at(old(session).log(), old(ctx)@, *old(transform)),
                wish_velocity,
                *time,
            ) == step_at(final(session).log(), final(ctx)@, *final(transform)),
{
    broadcast use group_extends;

    reveal(handle_mantle_movement_model);
    let mantle_state = match ctx.state.mantle {
        Some(mantle) => mantle,
        None => {
            return;
        },
    };
    ctx.state.mantle = None;
    ctx.velocity = zero();
    let reach = ctx.cfg.max_ledge_grab_distance;
    let wall = closest_wall_normal(reach, session, ctx, transform);
    let wall_normal = match wall {
        Some((_, normal)) => normal,
        None => {
            return;
        },
    };
    let held = cast_move(wall_normal.negated() * reach, session, ctx, transform);
    let hit = match held {
        Some(hit) => hit,
        None => {
            return;
        },
    };
    mantle_carry(wall_normal, hit, time, session, ctx, transform);
    mantle_climb(wish_velocity, mantle_state.height_left, time, session, ctx, transform);
}

/// Whether a character in the air asks to climb down: moving back, with a fresh press.
#[verifier::opaque]
pub open spec fn climbs_down(c: Ctx) -> bool {
    &&& c.state.grounded is None
    &&& c.input.last_movement matches Some(movement) && !num(ZERO).le(movement.y)
    &&& c.input.climbdown matches Some(press) && !c.cfg.mantle_input_buffer.lt(press.elapsed)
}

/// Whether a character asks to climb down.
fn wants_down(ctx: &CtxItem) -> (r: bool)
    ensures
        r == climbs_down(ctx@),
{
    reveal(climbs_down);
    if ctx.state.grounded.is_some() {
        return false;
    }
    let back = match ctx.input.last_movement {
        Some(last_movement) => !num(ZERO).le(last_movement.y),
        None => false,
    };
    let fresh = match ctx.input.climbdown {
        Some(press) => !ctx.cfg.mantle_input_buffer.lt(press.elapsed),
        None => false,
    };
    back && fresh
}

/// The model of [`handle_climbdown`].
#[verifier::opaque]
pub open spec fn handle_climbdown_model(h: History, s: Step, wish_velocity: Vec3, time: Time) -> Step {
    if !climbs_down(s.ctx) {
        s
    } else {
        let drop = down() * s.ctx.cfg.crane_height;
        let (s1, floor) = cast_move_model(h, s, drop);
        if floor is Some {
            s1
        } else {
            let (s2, found) = available_mantle_height_model(
                h,
                s1.with_translation(s.transform.translation + drop),
                wish_velocity.negated(),
                time,
            );
            match found {
                None => s2.with_translation(s.transform.translation),
                Some((state, output)) => {
                    let held = mantling(s2.ctx, state, output);
                    s2.with_ctx(
                        held.with_input(AccumulatedInput { climbdown: None, ..held.input }),
                    )
                },
            }
        }
    }
}

/// Climbs down from a ledge that was just left: drops below it and holds on to its wall.
pub fn handle_climbdown<W: World>(
    wish_velocity: Vec3,
    time: &Time,
    session: &mut Session<W>,
    ctx: &mut CtxItem,
    transform: &mut Transform,
)
    ensures
        final(session).surroundings() == old(session).surroundings(),
        extends(old(session).log(), final(session).log()),
        final(ctx).cfg == old(ctx).cfg,
        no_new_press(old(ctx).input, final(ctx).input),
        final(transform).rotation == old(transform).rotation,
        final(transform).scale == old(transform).scale,
        forall|h: History|
            extends(final(session).log(), h) ==> #[trigger] handle_climbdown_model(
                h,
                step_at(old(session).log(), old(ctx)@, *old(transform)),
                wish_velocity,
                *time,
            ) == step_at(final(session).log(), final(ctx)@, *final(transform)),
{
    broadcast use group_extends;

    reveal(handle_climbdown_model);
    if !wants_down(ctx) {
        return;
    }
    let drop = down() * ctx.cfg.crane_height;
    if cast_move(drop, session, ctx, transform).is_some() {
        return;
    }
    let original_position = transform.translation;
    transform.translation = transform.translation + drop;
    let found = available_mantle_height(wish_velocity.negated(), time, session, ctx, transform);
    match found {
        Some(found) => {
            start_mantle(found, ctx);
            ctx.input.climbdown = None;
        },
        None => {
            transform.translation = original_position;
        },
    }
}

} // verus!
