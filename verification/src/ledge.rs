//! Looking for ledges to climb onto.
use crate::casting::{
    cast_move, cast_move_hands, cast_move_hands_model, cast_move_model, depenetrate_character,
    depenetrate_character_model,
};
use crate::clock::Time;
use crate::context::{no_new_press, Ctx, CtxItem, MantleOutput, MantleState, MoveHitData};
use crate::motion::{accelerated, forward, ground_accelerate};
use crate::scalar::{num, Scalar, ZERO};
use crate::vector::{down, up, Quat, Transform, Vec3};
use crate::world::{extends, group_extends, step_at, History, Session, Step, World};
use vstd::prelude::*;

verus! {

/// The velocity that a probe for a ledge starts from: a level one, sped up along the wish, along
/// with the ground's own.
#[verifier::opaque]
pub open spec fn probe_velocity(c: Ctx, wish_velocity: Vec3, secs: Scalar) -> Vec3 {
    accelerated(c.velocity.flat(), wish_velocity, c.cfg.acceleration_hz, secs).flat()
        + c.state.platform_velocity
}

/// Takes up the velocity that a probe for a ledge starts from.
pub fn start_probe(wish_velocity: Vec3, time: &Time, ctx: &mut CtxItem)
    ensures
        final(ctx)@ == old(ctx)@.with_velocity(
            probe_velocity(old(ctx)@, wish_velocity, time.delta_secs),
        ),
{
    reveal(probe_velocity);
    ctx.velocity.y = num(ZERO);
    let hz = ctx.cfg.acceleration_hz;
    ground_accelerate(wish_velocity, hz, time, ctx);
    ctx.velocity.y = num(ZERO);
    ctx.velocity = ctx.velocity + ctx.state.platform_velocity;
}

/// The model of [`cast_probe`].
#[verifier::opaque]
pub open spec fn cast_probe_model(h: History, s: Step, hands: bool, movement: Vec3) -> (
    Step,
    Option<MoveHitData>,
) {
    if hands {
        cast_move_hands_model(h, s, movement)
    } else {
        cast_move_model(h, s, movement)
    }
}

/// What the hands, or the body, run into when they are moved.
pub fn cast_probe<W: World>(
    hands: bool,
    movement: Vec3,
    session: &mut Session<W>,
    ctx: &CtxItem,
    transform: &Transform,
) -> (r: Option<MoveHitData>)
    ensures
        final(session).surroundings() == old(session).surroundings(),
        extends(old(session).log(), final(session).log()),
        forall|h: History|
            extends(final(session).log(), h) ==> #[trigger] cast_probe_model(
                h,
                step_at(old(session).log(), ctx@, *transform),
                hands,
                movement,
            ) == (step_at(final(session).log(), ctx@, *transform), r),
{
    broadcast use group_extends;

    reveal(cast_probe_model);
    if hands {
        cast_move_hands(movement, session, ctx, transform)
    } else {
        cast_move(movement, session, ctx, transform)
    }
}

/// The model of [`ledge_top`].
#[verifier::opaque]
pub open spec fn ledge_top_model(
    h: History,
    s: Step,
    hands: bool,
    wall_normal: Vec3,
    depth: Scalar,
    max_height: Scalar,
) -> (Step, Option<Scalar>) {
    let (s1, ceiling) = cast_probe_model(h, s, hands, up() * max_height);
    let up_dist = match ceiling {
        Some(hit) => hit.distance,
        None => max_height,
    };
    let over = s.transform.translation + up() * up_dist + wall_normal.negated() * depth;
    let (s2, floor) = cast_probe_model(h, s1.with_translation(over), hands, down() * up_dist);
    (
        s2.with_translation(s.transform.translation),
        match floor {
            Some(hit) => Some(up_dist - hit.distance),
            None => None,
        },
    )
}

/// How high the floor lies `depth` behind a wall, if there is any within `max_height`. The way
/// there may lead through something, as the ledge can be below another wall.
pub fn ledge_top<W: World>(
    hands: bool,
    wall_normal: Vec3,
    depth: Scalar,
    max_height: Scalar,
    session: &mut Session<W>,
    ctx: &CtxItem,
    transform: &mut Transform,
) -> (r: Option<Scalar>)
    ensures
        final(session).surroundings() == old(session).surroundings(),
        extends(old(session).log(), final(session).log()),
        final(transform).rotation == old(transform).rotation,
        final(transform).scale == old(transform).scale,
        forall|h: History|
            extends(final(session).log(), h) ==> #[trigger] ledge_top_model(
                h,
                step_at(old(session).log(), ctx@, *old(transform)),
                hands,
                wall_normal,
                depth,
                max_height,
            ) == (step_at(final(session).log(), ctx@, *final(transform)), r),
        *final(transform) == *old(transform),
{
    broadcast use group_extends;

    reveal(ledge_top_model);
    let original_position = transform.translation;
    let up_dist = match cast_probe(hands, up() * max_height, session, ctx, transform) {
        Some(hit) => hit.distance,
        None => max_height,
    };
    transform.translation = transform.translation + up() * up_dist;
    transform.translation = transform.translation + wall_normal.negated() * depth;
    let floor = cast_probe(hands, down() * up_dist, session, ctx, transform);
    transform.translation = original_position;
    match floor {
        Some(hit) => Some(up_dist - hit.distance),
        None => None,
    }
}

pub open spec fn spec_raised(translation: Vec3, height: Scalar) -> Vec3 {
    translation.with_y(translation.y + height)
}

/// A position raised by a height.
#[verifier::when_used_as_spec(spec_raised)]
pub fn raised(translation: Vec3, height: Scalar) -> (r: Vec3)
    ensures
        r == spec_raised(translation, height),
{
    translation.with_y(translation.y + height)
}

/// The model of [`ledge_floor`].
#[verifier::opaque]
pub open spec fn ledge_floor_model(
    h: History,
    s: Step,
    hands: bool,
    wall_normal: Vec3,
    depth: Scalar,
    height: Scalar,
) -> (Step, Option<MoveHitData>) {
    let top = raised(s.transform.translation, height);
    let (s1, wall) = cast_probe_model(
        h,
        s.with_translation(top),
        hands,
        wall_normal.negated() * depth,
    );
    if wall is Some {
        (s1.with_translation(s.transform.translation), None)
    } else {
        let (s2, floor) = cast_probe_model(
            h,
            s1.with_translation(top + wall_normal.negated() * depth),
            hands,
            down() * height,
        );
        (s2.with_translation(s.transform.translation), floor)
    }
}

/// The floor of a ledge of the given height, if the way up and then over it is free. Without a
/// floor the way led through something.
pub fn ledge_floor<W: World>(
    hands: bool,
    wall_normal: Vec3,
    depth: Scalar,
    height: Scalar,
    session: &mut Session<W>,
    ctx: &CtxItem,
    transform: &mut Transform,
) -> (r: Option<MoveHitData>)
    ensures
        final(session).surroundings() == old(session).surroundings(),
        extends(old(session).log(), final(session).log()),
        final(transform).rotation == old(transform).rotation,
        final(transform).scale == old(transform).scale,
        forall|h: History|
            extends(final(session).log(), h) ==> #[trigger] ledge_floor_model(
                h,
                step_at(old(session).log(), ctx@, *old(transform)),
                hands,
                wall_normal,
                depth,
                height,
            ) == (step_at(final(session).log(), ctx@, *final(transform)), r),
        *final(transform) == *old(transform),
{
    broadcast use group_extends;

    reveal(ledge_floor_model);
    let original_position = transform.translation;
    let top = raised(original_position, height);
    transform.translation = top;
    let onto = wall_normal.negated() * depth;
    if cast_probe(hands, onto, session, ctx, transform).is_some() {
        transform.translation = original_position;
        return None;
    }
    transform.translation = top + onto;
    let floor = cast_probe(hands, down() * height, session, ctx, transform);
    transform.translation = original_position;
    floor
}

/// The model of [`ledge_behind`].
#[verifier::opaque]
pub open spec fn ledge_behind_model(
    h: History,
    s: Step,
    wall_normal: Vec3,
    min_depth: Scalar,
    max_height: Scalar,
) -> (Step, Option<Scalar>) {
    let (s1, top) = ledge_top_model(h, s, false, wall_normal, min_depth, max_height);
    match top {
        None => (s1, None),
        Some(height) => {
            let (s2, floor) = ledge_floor_model(h, s1, false, wall_normal, min_depth, height);
            match floor {
                None => (s2, None),
                Some(hit) => if hit.normal1.y.lt(s.ctx.cfg.min_walk_cos) {
                    (s2, None)
                } else {
                    let end = raised(s.transform.translation, height) + wall_normal.negated()
                        * min_depth + down() * hit.distance;
                    let (s3, way) = cast_move_model(h, s2, end - s.transform.translation);
                    (
                        s3,
                        if way is Some {
                            Some(height)
                        } else {
                            None
                        },
                    )
                },
            }
        },
    }
}

/// The height of the ledge behind a wall, if one can be stood on. Where nothing is in the straight
/// way to it, it is just a slope.
pub fn ledge_behind<W: World>(
    wall_normal: Vec3,
    min_depth: Scalar,
    max_height: Scalar,
    session: &mut Session<W>,
    ctx: &CtxItem,
    transform: &mut Transform,
) -> (r: Option<Scalar>)
    ensures
        final(session).surroundings() == old(session).surroundings(),
        extends(old(session).log(), final(session).log()),
        final(transform).rotation == old(transform).rotation,
        final(transform).scale == old(transform).scale,
        forall|h: History|
            extends(final(session).log(), h) ==> #[trigger] ledge_behind_model(
                h,
                step_at(old(session).log(), ctx@, *old(transform)),
                wall_normal,
                min_depth,
                max_height,
            ) == (step_at(final(session).log(), ctx@, *final(transform)), r),
        *final(transform) == *old(transform),
{
    broadcast use group_extends;

    reveal(ledge_behind_model);
    let top = ledge_top(false, wall_normal, min_depth, max_height, session, ctx, transform);
    let height = match top {
        Some(height) => height,
        None => {
            return None;
        },
    };
    let floor = ledge_floor(false, wall_normal, min_depth, height, session, ctx, transform);
    let hit = match floor {
        Some(hit) => hit,
        None => {
            return None;
        },
    };
    if hit.normal1.y.lt(ctx.cfg.min_walk_cos) {
        return None;
    }
    let ledge_pos = raised(transform.translation, height) + wall_normal.negated() * min_depth;
    let end_pos = ledge_pos + down() * hit.distance;
    let way = cast_move(end_pos - transform.translation, session, ctx, transform);
    if way.is_some() {
        Some(height)
    } else {
        None
    }
}

/// The model of [`ledge_along`].
#[verifier::opaque]
pub open spec fn ledge_along_model(
    h: History,
    s: Step,
    dir: Vec3,
    min_depth: Scalar,
    min_cos: Scalar,
    max_height: Scalar,
) -> (Step, Option<Scalar>) {
    let (s1, wall) = cast_move_model(h, s, dir * min_depth);
    match wall {
        None => (s1, None),
        Some(hit) => {
            let wall_normal = hit.normal1.flat().normalize_or_zero();
            if wall_normal.negated().dot(dir).lt(min_cos) {
                (s1, None)
            } else {
                ledge_behind_model(h, s1, wall_normal, min_depth, max_height)
            }
        },
    }
}

/// The height of the ledge in a direction that faces its wall.
pub fn ledge_along<W: World>(
    dir: Vec3,
    min_depth: Scalar,
    min_cos: Scalar,
    max_height: Scalar,
    session: &mut Session<W>,
    ctx: &CtxItem,
    transform: &mut Transform,
) -> (r: Option<Scalar>)
    ensures
        final(session).surroundings() == old(session).surroundings(),
        extends(old(session).log(), final(session).log()),
        final(transform).rotation == old(transform).rotation,
        final(transform).scale == old(transform).scale,
        forall|h: History|
            extends(final(session).log(), h) ==> #[trigger] ledge_along_model(
                h,
                step_at(old(session).log(), ctx@, *old(transform)),
                dir,
                min_depth,
                min_cos,
                max_height,
            ) == (step_at(final(session).log(), ctx@, *final(transform)), r),
        *final(transform) == *old(transform),
{
    broadcast use group_extends;

    reveal(ledge_along_model);
    let wall = cast_move(dir * min_depth, session, ctx, transform);
    let wall_hit = match wall {
        Some(hit) => hit,
        None => {
            return None;
        },
    };
    let wall_normal = wall_hit.normal1.flat().normalize_or_zero();
    if wall_normal.negated().dot(dir).lt(min_cos) {
        return None;
    }
    ledge_behind(wall_normal, min_depth, max_height, session, ctx, transform)
}

pub open spec fn spec_ledge_direction(wish_velocity: Vec3, velocity: Vec3) -> Option<Vec3> {
    match wish_velocity.direction() {
        Some(dir) => Some(dir),
        None => velocity.flat().direction(),
    }
}

/// Where to look for a ledge: along the wish, else along the horizontal velocity.
#[verifier::when_used_as_spec(spec_ledge_direction)]
pub fn ledge_direction(wish_velocity: Vec3, velocity: Vec3) -> (r: Option<Vec3>)
    ensures
        r == spec_ledge_direction(wish_velocity, velocity),
{
    match wish_velocity.direction() {
        Some(dir) => Some(dir),
        None => velocity.flat().direction(),
    }
}

/// The model of [`available_ledge_height`].
#[verifier::opaque]
pub open spec fn available_ledge_height_model(
    h: History,
    s: Step,
    wish_velocity: Vec3,
    min_depth: Scalar,
    min_cos: Scalar,
    max_height: Scalar,
    time: Time,
) -> (Step, Option<Scalar>) {
    match ledge_direction(wish_velocity, s.ctx.velocity) {
        None => (s, None),
        Some(dir) => {
            let velocity = probe_velocity(s.ctx, wish_velocity, time.delta_secs);
            let (t, height) = ledge_along_model(
                h,
                s.with_velocity(velocity),
                dir,
                min_depth,
                min_cos,
                max_height,
            );
            (t.with_velocity(s.ctx.velocity), height)
        },
    }
}

/// The height of a ledge ahead that there is room to climb onto. The character does not move.
pub fn available_ledge_height<W: World>(
    wish_velocity: Vec3,
    min_depth: Scalar,
    min_cos: Scalar,
    max_height: Scalar,
    time: &Time,
    session: &mut Session<W>,
    ctx: &mut CtxItem,
    transform: &mut Transform,
) -> (r: Option<Scalar>)
    ensures
        final(session).surroundings() == old(session).surroundings(),
        extends(old(session).log(), final(session).log()),
        final(ctx).cfg == old(ctx).cfg,
        no_new_press(old(ctx).input, final(ctx).input),
        final(transform).rotation == old(transform).rotation,
        final(transform).scale == old(transform).scale,
        forall|h: History|
            extends(final(session).log(), h) ==> #[trigger] available_ledge_height_model(
                h,
                step_at(old(session).log(), old(ctx)@, *old(transform)),
                wish_velocity,
                min_depth,
                min_cos,
                max_height,
                *time,
            ) == (step_at(final(session).log(), final(ctx)@, *final(transform)), r),
        final(ctx)@ == old(ctx)@,
        *final(transform) == *old(transform),
{
    broadcast use group_extends;

    reveal(available_ledge_height_model);
    let original_velocity = ctx.velocity;
    let wish_dir = match ledge_direction(wish_velocity, ctx.velocity) {
        Some(dir) => dir,
        None => {
            return None;
        },
    };
    start_probe(wish_velocity, time, ctx);
    let height = ledge_along(wish_dir, min_depth, min_cos, max_height, session, ctx, transform);
    ctx.velocity = original_velocity;
    height
}

/// The model of [`available_crane_height`].
#[verifier::opaque]
pub open spec fn available_crane_height_model(
    h: History,
    s: Step,
    wish_velocity: Vec3,
    time: Time,
) -> (Step, Option<Scalar>) {
    available_ledge_height_model(
        h,
        s,
        wish_velocity,
        s.ctx.cfg.min_crane_ledge_space,
        s.ctx.cfg.min_crane_cos,
        s.ctx.cfg.crane_height,
        time,
    )
}

/// The height of a ledge that a crane can reach.
pub fn available_crane_height<W: World>(
    wish_velocity: Vec3,
    time: &Time,
    session: &mut Session<W>,
    ctx: &mut CtxItem,
    transform: &mut Transform,
) -> (r: Option<Scalar>)
    ensures
        final(session).surroundings() == old(session).surroundings(),
        extends(old(session).log(), final(session).log()),
        final(ctx).cfg == old(ctx).cfg,
        no_new_press(old(ctx).input, final(ctx).input),
        final(transform).rotation == old(transform).rotation,
        final(transform).scale == old(transform).scale,
        forall|h: History|
            extends(final(session).log(), h) ==> #[trigger] available_crane_height_model(
                h,
                step_at(old(session).log(), old(ctx)@, *old(transform)),
                wish_velocity,
                *time,
            ) == (step_at(final(session).log(), final(ctx)@, *final(transform)), r),
        final(ctx)@ == old(ctx)@,
        *final(transform) == *old(transform),
{
    broadcast use group_extends;

    reveal(available_crane_height_model);
    let min_depth = ctx.cfg.min_crane_ledge_space;
    let min_cos = ctx.cfg.min_crane_cos;
    let max_height = ctx.cfg.crane_height;
    available_ledge_height(
        wish_velocity,
        min_depth,
        min_cos,
        max_height,
        time,
        session,
        ctx,
        transform,
    )
}

/// How far the hands reach past the body's center onto a ledge.
#[verifier::opaque]
pub open spec fn hand_reach(c: Ctx) -> Scalar {
    c.derived.radius(c.state) + c.cfg.skin_width + c.cfg.min_ledge_grab_space.z
}

/// The mantle onto a floor at the given height, if there is anything left to climb.
#[verifier::opaque]
pub open spec fn mantle_onto(c: Ctx, wall_normal: Vec3, ledge_height: Scalar, floor: MoveHitData) -> Option<
    (MantleState, MantleOutput),
> {
    let height_left = ledge_height - c.derived.pos_to_head_dist(c.state)
        + c.cfg.climb_pull_up_height;
    if floor.normal1.y.lt(c.cfg.min_walk_cos) || height_left.lt(num(ZERO)) {
        None
    } else {
        Some(
            (
                MantleState { height_left },
                MantleOutput {
                    wall_normal,
                    ledge_position: floor.point1,
                    wall_entity: floor.entity,
                },
            ),
        )
    }
}

/// Works out a mantle onto a floor.
fn plan_mantle(ctx: &CtxItem, wall_normal: Vec3, ledge_height: Scalar, floor: MoveHitData) -> (r: Option<
    (MantleState, MantleOutput),
>)
    ensures
        r == mantle_onto(ctx@, wall_normal, ledge_height, floor),
{
    reveal(mantle_onto);
    if floor.normal1.y.lt(ctx.cfg.min_walk_cos) {
        return None;
    }
    let kcc_height = ctx.derived.pos_to_head_dist(ctx.state);
    let mantle_height = ledge_height - kcc_height + ctx.cfg.climb_pull_up_height;
    if mantle_height.lt(num(ZERO)) {
        return None;
    }
    Some(
        (
            MantleState { height_left: mantle_height },
            MantleOutput { wall_normal, ledge_position: floor.point1, wall_entity: floor.entity },
        ),
    )
}

/// The model of [`mantle_along`].
#[verifier::opaque]
pub open spec fn mantle_along_model(h: History, s: Step, dir: Vec3) -> (
    Step,
    Option<(MantleState, MantleOutput)>,
) {
    let origin = s.transform.translation;
    let (s1, wall) = cast_move_model(h, s, dir * s.ctx.cfg.max_ledge_grab_distance);
    match wall {
        None => (s1, None),
        Some(hit) => {
            let wall_normal = hit.normal1;
            if wall_normal.negated().dot(dir).lt(s.ctx.cfg.min_mantle_cos) {
                (s1, None)
            } else {
                let s2 = depenetrate_character_model(
                    h,
                    s1.with_translation(origin + dir * hit.distance),
                );
                let reach = hand_reach(s.ctx);
                let (s3, top) = ledge_top_model(
                    h,
                    s2,
                    true,
                    wall_normal,
                    reach,
                    s.ctx.cfg.mantle_height,
                );
                match top {
                    None => (s3.with_translation(origin), None),
                    Some(height) => {
                        let (s4, floor) = ledge_floor_model(
                            h,
                            s3,
                            true,
                            wall_normal,
                            reach,
                            height,
                        );
                        (
                            s4.with_translation(origin),
                            match floor {
                                None => None,
                                Some(hit) => mantle_onto(s.ctx, wall_normal, height, hit),
                            },
                        )
                    },
                }
            }
        },
    }
}

/// The mantle in a direction that faces its wall.
pub fn mantle_along<W: World>(
    dir: Vec3,
    session: &mut Session<W>,
    ctx: &CtxItem,
    transform: &mut Transform,
) -> (r: Option<(MantleState, MantleOutput)>)
    ensures
        final(session).surroundings() == old(session).surroundings(),
        extends(old(session).log(), final(session).log()),
        final(transform).rotation == old(transform).rotation,
        final(transform).scale == old(transform).scale,
        forall|h: History|
            extends(final(session).log(), h) ==> #[trigger] mantle_along_model(
                h,
                step_at(old(session).log(), ctx@, *old(transform)),
                dir,
            ) == (step_at(final(session).log(), ctx@, *final(transform)), r),
        *final(transform) == *old(transform),
{
    broadcast use group_extends;

    reveal(mantle_along_model);
    reveal(hand_reach);
    let original_position = transform.translation;
    let wall = cast_move(dir * ctx.cfg.max_ledge_grab_distance, session, ctx, transform);
    let wall_hit = match wall {
        Some(hit) => hit,
        None => {
            return None;
        },
    };
    let wall_normal = wall_hit.normal1;
    if wall_normal.negated().dot(dir).lt(ctx.cfg.min_mantle_cos) {
        return None;
    }
    transform.translation = transform.translation + dir * wall_hit.distance;
    depenetrate_character(session, ctx, transform);
    let reach = ctx.derived.radius(ctx.state) + ctx.cfg.skin_width
        + ctx.cfg.min_ledge_grab_space.z;
    let top = ledge_top(true, wall_normal, reach, ctx.cfg.mantle_height, session, ctx, transform);
    let height = match top {
        Some(height) => height,
        None => {
            transform.translation = original_position;
            return None;
        },
    };
    let floor = ledge_floor(true, wall_normal, reach, height, session, ctx, transform);
    transform.translation = original_position;
    match floor {
        Some(hit) => plan_mantle(ctx, wall_normal, height, hit),
        None => None,
    }
}

pub open spec fn spec_mantle_direction(wish_velocity: Vec3, orientation: Quat) -> Option<Vec3> {
    match wish_velocity.direction() {
        Some(dir) => Some(dir),
        None => forward(orientation).flat().direction(),
    }
}

/// Where to look for a mantle: along the wish, else ahead.
#[verifier::when_used_as_spec(spec_mantle_direction)]
pub fn mantle_direction(wish_velocity: Vec3, orientation: Quat) -> (r: Option<Vec3>)
    ensures
        r == spec_mantle_direction(wish_velocity, orientation),
{
    match wish_velocity.direction() {
        Some(dir) => Some(dir),
        None => forward(orientation).flat().direction(),
    }
}

/// The model of [`available_mantle_height`].
#[verifier::opaque]
pub open spec fn available_mantle_height_model(
    h: History,
    s: Step,
    wish_velocity: Vec3,
    time: Time,
) -> (Step, Option<(MantleState, MantleOutput)>) {
    match mantle_direction(wish_velocity, s.ctx.state.orientation) {
        None => (s, None),
        Some(dir) => {
            let velocity = probe_velocity(s.ctx, wish_velocity, time.delta_secs);
            let (t, found) = mantle_along_model(h, s.with_velocity(velocity), dir);
            (t.with_velocity(s.ctx.velocity), found)
        },
    }
}

/// A mantle onto a ledge ahead that the hands can hold. The character does not move.
pub fn available_mantle_height<W: World>(
    wish_velocity: Vec3,
    time: &Time,
    session: &mut Session<W>,
    ctx: &mut CtxItem,
    transform: &mut Transform,
) -> (r: Option<(MantleState, MantleOutput)>)
    ensures
        final(session).surroundings() == old(session).surroundings(),
        extends(old(session).log(), final(session).log()),
        final(ctx).cfg == old(ctx).cfg,
        no_new_press(old(ctx).input, final(ctx).input),
        final(transform).rotation == old(transform).rotation,
        final(transform).scale == old(transform).scale,
        forall|h: History|
            extends(final(session).log(), h) ==> #[trigger] available_mantle_height_model(
                h,
                step_at(old(session).log(), old(ctx)@, *old(transform)),
                wish_velocity,
                *time,
            ) == (step_at(final(session).log(), final(ctx)@, *final(transform)), r),
        final(ctx)@ == old(ctx)@,
        *final(transform) == *old(transform),
{
    broadcast use group_extends;

    reveal(available_mantle_height_model);
    let original_velocity = ctx.velocity;
    let wish_dir = match mantle_direction(wish_velocity, ctx.state.orientation) {
        Some(dir) => dir,
        None => {
            return None;
        },
    };
    start_probe(wish_velocity, time, ctx);
    let found = mantle_along(wish_dir, session, ctx, transform);
    ctx.velocity = original_velocity;
    found
}

} // verus!
