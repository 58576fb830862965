//! Walking, flying and swimming.
use crate::casting::{
    cast_move, cast_move_model, depenetrate_character, depenetrate_character_model, move_character,
    move_character_model, snap_to_ground, snap_to_ground_model,
};
use crate::clock::Time;
use crate::context::{no_new_press, AccumulatedInput, CharacterControllerState, Ctx, CtxItem};
use crate::motion::{
    accelerated, air_accelerate, air_accelerate_model, ground_accelerate, water_accelerate,
    HUNDREDTH,
};
use crate::scalar::{num, Scalar, ZERO};
use crate::vector::{down, up, vec3, zero, Transform, Vec3};
use crate::world::{extends, group_extends, step_at, History, Session, Step, World};
use vstd::prelude::*;

verus! {

impl Step {
    /// This step with the position, the velocity and the touches of another one.
    pub open spec fn taking_path_of(self, other: Step) -> Step {
        self.with_translation(other.transform.translation).with_ctx(
            Ctx { velocity: other.ctx.velocity, touching: other.ctx.touching, ..self.ctx },
        )
    }
}

/// The model of the second half of [`step_move`]: from `s`, raised onto the step, with `direct`
/// the end of the direct path and `origin` where both started.
#[verifier::opaque]
pub open spec fn stepped_model(h: History, s: Step, direct: Step, origin: Vec3, time: Time) -> Step {
    let s5 = move_character_model(h, s, time);
    let (s6, floor) = cast_move_model(h, s5, down() * s.ctx.cfg.step_size);
    match floor {
        None => s6.taking_path_of(direct),
        Some(hit) => if !s.ctx.cfg.min_walk_cos.le(hit.normal1.y) {
            s6.taking_path_of(direct)
        } else {
            let s7 = depenetrate_character_model(
                h,
                s6.with_translation(s6.transform.translation + down() * hit.distance),
            );
            let direct_dist = direct.transform.translation.xz().distance_squared(origin.xz());
            let step_dist = s7.transform.translation.xz().distance_squared(origin.xz());
            if step_dist.le(direct_dist) {
                s7.taking_path_of(direct)
            } else {
                s7.with_ctx(
                    s7.ctx.with_velocity(
                        s7.ctx.velocity.with_y(direct.ctx.velocity.y),
                    ).with_state(
                        CharacterControllerState {
                            last_step_up: s7.ctx.state.last_step_up.restarted(),
                            ..s7.ctx.state
                        },
                    ),
                )
            }
        },
    }
}

/// The model of [`step_move`].
#[verifier::opaque]
pub open spec fn step_move_model(h: History, s: Step, time: Time) -> Step {
    let cfg = s.ctx.cfg;
    let direct = move_character_model(h, s, time);
    let s2 = direct.taking_path_of(s);
    let (s3, ceiling) = cast_move_model(h, s2, up() * cfg.step_size);
    let rise = match ceiling {
        Some(hit) => hit.distance,
        None => cfg.step_size,
    };
    let raised = s3.with_translation(s.transform.translation + up() * rise);
    let (s4, wall) = cast_move_model(
        h,
        raised,
        raised.ctx.velocity.normalize_or_zero() * cfg.min_step_ledge_space,
    );
    if wall is Some {
        s4.taking_path_of(direct)
    } else {
        stepped_model(h, s4, direct, s.transform.translation, time)
    }
}

/// Slides, and climbs a step where that leads farther.
pub fn step_move<W: World>(
    time: &Time,
    session: &mut Session<W>,
    ctx: &mut CtxItem,
    transform: &mut Transform,
)
    ensures
        final(session).surroundings() == old(session).surroundings(),
        extends(old(session).log(), final(session).log()),
        final(ctx).cfg == old(ctx).cfg,
        no_new_press(old(ctx).input, final(ctx).input),
        final(transform).rotation == old(transform).rotation,
        final(transform).scale == old(transform).scale,
        forall|h: History|
            extends(final(session).log(), h) ==> #[trigger] step_move_model(
                h,
                step_at(old(session).log(), old(ctx)@, *old(transform)),
                *time,
            ) == step_at(final(session).log(), final(ctx)@, *final(transform)),
{
    broadcast use group_extends;

    reveal(step_move_model);
    reveal(stepped_model);
    let original_position = transform.translation;
    let original_velocity = ctx.velocity;
    let original_touching_entities = ctx.output.touching_entities.clone();
    assert(original_touching_entities@ == old(ctx)@.touching);

    // Slide the direct path.
    move_character(time, session, ctx, transform);

    let down_touching_entities = ctx.output.touching_entities.clone();
    assert(down_touching_entities@ == ctx@.touching);
    let down_position = transform.translation;
    let down_velocity = ctx.velocity;

    transform.translation = original_position;
    ctx.velocity = original_velocity;
    ctx.output.touching_entities = original_touching_entities;

    // Step up.
    let cast_len = ctx.cfg.step_size;
    let dist = match cast_move(up() * cast_len, session, ctx, transform) {
        Some(hit) => hit.distance,
        None => cast_len,
    };
    transform.translation = transform.translation + up() * dist;

    // There must be enough space to stand.
    let hit = cast_move(
        ctx.velocity.normalize_or_zero() * ctx.cfg.min_step_ledge_space,
        session,
        ctx,
        transform,
    );
    if hit.is_some() {
        transform.translation = down_position;
        ctx.velocity = down_velocity;
        ctx.output.touching_entities = down_touching_entities;
        return;
    }

    // Slide from the top of the step.
    move_character(time, session, ctx, transform);

    // A fall or a slope that cannot be walked on leaves the direct path.
    let floor = cast_move(down() * cast_len, session, ctx, transform);
    let hit = match floor {
        Some(hit) => hit,
        None => {
            transform.translation = down_position;
            ctx.velocity = down_velocity;
            ctx.output.touching_entities = down_touching_entities;
            return;
        },
    };
    if !ctx.cfg.min_walk_cos.le(hit.normal1.y) {
        transform.translation = down_position;
        ctx.velocity = down_velocity;
        ctx.output.touching_entities = down_touching_entities;
        return;
    }
    transform.translation = transform.translation + down() * hit.distance;
    depenetrate_character(session, ctx, transform);

    // Keep the path that went farther.
    let down_dist = down_position.xz().distance_squared(original_position.xz());
    let up_dist = transform.translation.xz().distance_squared(original_position.xz());
    if up_dist.le(down_dist) {
        transform.translation = down_position;
        ctx.velocity = down_velocity;
        ctx.output.touching_entities = down_touching_entities;
    } else {
        ctx.velocity.y = down_velocity.y;
        ctx.state.last_step_up = ctx.state.last_step_up.restarted();
    }
}

/// The pull of gravity along a plane.
#[verifier::opaque]
pub open spec fn spec_downhill(gravity: Scalar, normal: Vec3) -> Vec3 {
    let pull = down() * gravity;
    pull - normal * pull.dot(normal)
}

/// The pull of gravity along a plane.
#[verifier::when_used_as_spec(spec_downhill)]
pub fn downhill(gravity: Scalar, normal: Vec3) -> (r: Vec3)
    ensures
        r == spec_downhill(gravity, normal),
{
    reveal(spec_downhill);
    let pull = down() * gravity;
    pull - normal * pull.dot(normal)
}

/// The velocity of a walk before the ground's own is added. A slide gains from the slope.
#[verifier::opaque]
pub open spec fn walking_velocity(c: Ctx, wish_velocity: Vec3, secs: Scalar) -> Vec3 {
    let walk = accelerated(
        c.velocity.flat(),
        wish_velocity,
        c.cfg.acceleration_hz,
        secs,
    ).flat();
    match c.state.grounded {
        Some(ground) => if c.state.sliding {
            let pull = downhill(c.cfg.gravity, ground.normal1);
            vec3(walk.x + pull.x * secs, walk.y, walk.z + pull.z * secs)
        } else {
            walk
        },
        None => walk,
    }
}

/// The model of [`ground_move`].
#[verifier::opaque]
pub open spec fn ground_move_model(h: History, s: Step, wish_velocity: Vec3, time: Time) -> Step {
    let base = s.ctx.state.platform_velocity;
    let velocity = walking_velocity(s.ctx, wish_velocity, time.delta_secs) + base;
    if velocity.length().lt(num(HUNDREDTH)) {
        s.with_velocity(base.negated())
    } else {
        let movement = (velocity * time.delta_secs).flat();
        let (s1, hit) = cast_move_model(h, s.with_velocity(velocity), movement);
        if hit is None {
            let s2 = s1.with_translation(s.transform.translation + movement).with_velocity(
                velocity - base,
            );
            snap_to_ground_model(h, depenetrate_character_model(h, s2))
        } else {
            let s2 = step_move_model(h, s1, time);
            snap_to_ground_model(
                h,
                s2.with_velocity(s2.ctx.velocity - s2.ctx.state.platform_velocity),
            )
        }
    }
}

/// Walks.
pub fn ground_move<W: World>(
    wish_velocity: Vec3,
    time: &Time,
    session: &mut Session<W>,
    ctx: &mut CtxItem,
    transform: &mut Transform,
)
    ensures
        final(session).surroundings() == old(session).surroundings(),
        extends(old(session).log(), final(session).log()),
        final(ctx).cfg == old(ctx).cfg,
        no_new_press(old(ctx).input, final(ctx).input),
        final(transform).rotation == old(transform).rotation,
        final(transform).scale == old(transform).scale,
        forall|h: History|
            extends(final(session).log(), h) ==> #[trigger] ground_move_model(
                h,
                step_at(old(session).log(), old(ctx)@, *old(transform)),
                wish_velocity,
                *time,
            ) == step_at(final(session).log(), final(ctx)@, *final(transform)),
{
    broadcast use group_extends;

    reveal(ground_move_model);
    reveal(walking_velocity);
    ctx.velocity.y = num(ZERO);
    let hz = ctx.cfg.acceleration_hz;
    ground_accelerate(wish_velocity, hz, time, ctx);
    ctx.velocity.y = num(ZERO);

    // Gravity along the ground keeps up or builds the momentum of a slide.
    if ctx.state.sliding {
        if let Some(grounded) = ctx.state.grounded {
            let pull = downhill(ctx.cfg.gravity, grounded.normal1);
            ctx.velocity.x = ctx.velocity.x + pull.x * time.delta_secs;
            ctx.velocity.z = ctx.velocity.z + pull.z * time.delta_secs;
        }
    }
    ctx.velocity = ctx.velocity + ctx.state.platform_velocity;
    if ctx.velocity.length().lt(num(HUNDREDTH)) {
        ctx.velocity = ctx.state.platform_velocity.negated();
        return;
    }
    let movement = (ctx.velocity * time.delta_secs).flat();
    let hit = cast_move(movement, session, ctx, transform);
    if hit.is_none() {
        transform.translation = transform.translation + movement;
        ctx.velocity = ctx.velocity - ctx.state.platform_velocity;
        depenetrate_character(session, ctx, transform);
        snap_to_ground(session, ctx, transform);
        return;
    }
    step_move(time, session, ctx, transform);
    ctx.velocity = ctx.velocity - ctx.state.platform_velocity;
    snap_to_ground(session, ctx, transform);
}

/// The model of moving along with the ground's velocity and giving it back afterwards.
#[verifier::opaque]
pub open spec fn carried_step_model(h: History, s: Step, time: Time) -> Step {
    let t = step_move_model(h, s.with_velocity(s.ctx.velocity + s.ctx.state.platform_velocity), time);
    t.with_velocity(t.ctx.velocity - t.ctx.state.platform_velocity)
}

/// The model of [`air_move`].
#[verifier::opaque]
pub open spec fn air_move_model(h: History, s: Step, wish_velocity: Vec3, time: Time) -> Step {
    carried_step_model(
        h,
        air_accelerate_model(h, s, wish_velocity, s.ctx.cfg.air_control, time),
        time,
    )
}

/// Flies.
pub fn air_move<W: World>(
    wish_velocity: Vec3,
    time: &Time,
    session: &mut Session<W>,
    ctx: &mut CtxItem,
    transform: &mut Transform,
)
    ensures
        final(session).surroundings() == old(session).surroundings(),
        extends(old(session).log(), final(session).log()),
        final(ctx).cfg == old(ctx).cfg,
        no_new_press(old(ctx).input, final(ctx).input),
        final(transform).rotation == old(transform).rotation,
        final(transform).scale == old(transform).scale,
        forall|h: History|
            extends(final(session).log(), h) ==> #[trigger] air_move_model(
                h,
                step_at(old(session).log(), old(ctx)@, *old(transform)),
                wish_velocity,
                *time,
            ) == step_at(final(session).log(), final(ctx)@, *final(transform)),
{
    broadcast use group_extends;

    reveal(air_move_model);
    reveal(carried_step_model);
    let accel = ctx.cfg.air_control;
    air_accelerate(wish_velocity, accel, time, session, ctx, transform);
    ctx.velocity = ctx.velocity + ctx.state.platform_velocity;
    step_move(time, session, ctx, transform);
    ctx.velocity = ctx.velocity - ctx.state.platform_velocity;
}

/// The wish of a swimmer: upward too when asked, never faster than the full speed, sinking
/// without input, and slowed down.
#[verifier::opaque]
pub open spec fn swim_wish(c: Ctx, wish_velocity: Vec3) -> Vec3 {
    let asked = if c.input.swim_up {
        wish_velocity + up() * c.cfg.speed
    } else {
        wish_velocity
    };
    let limited = asked.clamp_length_max(c.cfg.speed);
    let sinking = if limited.same(zero()) {
        limited - up() * c.cfg.water_gravity
    } else {
        limited
    };
    sinking * c.cfg.water_slowdown
}

/// The model of [`water_move`].
#[verifier::opaque]
pub open spec fn water_move_model(h: History, s: Step, wish_velocity: Vec3, time: Time) -> Step {
    let c = s.ctx;
    let velocity = accelerated(
        c.velocity,
        swim_wish(c, wish_velocity),
        c.cfg.water_acceleration_hz,
        time.delta_secs,
    );
    carried_step_model(
        h,
        s.with_ctx(
            c.with_input(AccumulatedInput { swim_up: false, ..c.input }).with_velocity(velocity),
        ),
        time,
    )
}

/// Swims.
pub fn water_move<W: World>(
    wish_velocity: Vec3,
    time: &Time,
    session: &mut Session<W>,
    ctx: &mut CtxItem,
    transform: &mut Transform,
)
    ensures
        final(session).surroundings() == old(session).surroundings(),
        extends(old(session).log(), final(session).log()),
        final(ctx).cfg == old(ctx).cfg,
        no_new_press(old(ctx).input, final(ctx).input),
        final(transform).rotation == old(transform).rotation,
        final(transform).scale == old(transform).scale,
        forall|h: History|
            extends(final(session).log(), h) ==> #[trigger] water_move_model(
                h,
                step_at(old(session).log(), old(ctx)@, *old(transform)),
                wish_velocity,
                *time,
            ) == step_at(final(session).log(), final(ctx)@, *final(transform)),
{
    broadcast use group_extends;

    reveal(water_move_model);
    reveal(carried_step_model);
    reveal(swim_wish);
    let mut wish = wish_velocity;
    if ctx.input.swim_up {
        ctx.input.swim_up = false;
        wish = wish + up() * ctx.cfg.speed;
    }
    wish = wish.clamp_length_max(ctx.cfg.speed);
    if wish.same(zero()) {
        wish = wish - up() * ctx.cfg.water_gravity;
    }
    wish = wish * ctx.cfg.water_slowdown;
    let hz = ctx.cfg.water_acceleration_hz;
    water_accelerate(wish, hz, time, ctx);
    ctx.velocity = ctx.velocity + ctx.state.platform_velocity;
    step_move(time, session, ctx, transform);
    ctx.velocity = ctx.velocity - ctx.state.platform_velocity;
}

} // verus!
