//! Moving the body of a character among its surroundings.
use crate::clock::Time;
use crate::context::{no_new_press, CharacterControllerState, Ctx, CtxItem, MoveHitData};
use crate::scalar::{num, Scalar};
use crate::vector::{down, up, Transform, Vec3};
use crate::world::{
    ask_cast_move, ask_contacts, ask_depenetrate, ask_overlaps, ask_slide, extends, group_asks,
    group_extends, step_at, CastMove, Contact, History, Overlap, Placement, Session, Shape, Slide,
    SlideReply, Step, World,
};
use vstd::prelude::*;

verus! {

/// The bit pattern of 0.99.
pub const TAC_DECAY: u32 = 0x3f7d_70a4;

pub open spec fn spec_body(
    entity: u64,
    state: CharacterControllerState,
    transform: Transform,
) -> Placement {
    Placement {
        entity,
        shape: if state.crouching {
            Shape::Crouching
        } else {
            Shape::Standing
        },
        position: transform.translation,
        rotation: transform.rotation,
    }
}

/// The body of a character where it is.
#[verifier::when_used_as_spec(spec_body)]
pub fn body(entity: u64, state: CharacterControllerState, transform: Transform) -> (r: Placement)
    ensures
        r == spec_body(entity, state, transform),
{
    Placement {
        entity,
        shape: if state.crouching {
            Shape::Crouching
        } else {
            Shape::Standing
        },
        position: transform.translation,
        rotation: transform.rotation,
    }
}

/// The model of [`cast_move`].
#[verifier::opaque]
pub open spec fn cast_move_model(h: History, s: Step, movement: Vec3) -> (
    Step,
    Option<MoveHitData>,
) {
    ask_cast_move(
        h,
        s,
        CastMove {
            placement: body(s.ctx.entity, s.ctx.state, s.transform),
            movement,
            skin_width: s.ctx.cfg.skin_width,
        },
    )
}

/// What the body runs into when it is moved.
pub fn cast_move<W: World>(
    movement: Vec3,
    session: &mut Session<W>,
    ctx: &CtxItem,
    transform: &Transform,
) -> (r: Option<MoveHitData>)
    ensures
        final(session).surroundings() == old(session).surroundings(),
        extends(old(session).log(), final(session).log()),
        forall|h: History|
            extends(final(session).log(), h) ==> #[trigger] cast_move_model(
                h,
                step_at(old(session).log(), ctx@, *transform),
                movement,
            ) == (step_at(final(session).log(), ctx@, *transform), r),
{
    broadcast use group_extends;

    reveal(cast_move_model);
    session.cast_move(
        CastMove {
            placement: body(ctx.entity, ctx.state, *transform),
            movement,
            skin_width: ctx.cfg.skin_width,
        },
    )
}

/// The model of [`cast_move_hands`].
#[verifier::opaque]
pub open spec fn cast_move_hands_model(h: History, s: Step, movement: Vec3) -> (
    Step,
    Option<MoveHitData>,
) {
    ask_cast_move(
        h,
        s,
        CastMove {
            placement: Placement {
                entity: s.ctx.entity,
                shape: Shape::Hands,
                position: s.transform.translation,
                rotation: s.transform.rotation,
            },
            movement,
            skin_width: s.ctx.cfg.skin_width,
        },
    )
}

/// What the hands run into when they are moved from where the body is.
pub fn cast_move_hands<W: World>(
    movement: Vec3,
    session: &mut Session<W>,
    ctx: &CtxItem,
    transform: &Transform,
) -> (r: Option<MoveHitData>)
    ensures
        final(session).surroundings() == old(session).surroundings(),
        extends(old(session).log(), final(session).log()),
        forall|h: History|
            extends(final(session).log(), h) ==> #[trigger] cast_move_hands_model(
                h,
                step_at(old(session).log(), ctx@, *transform),
                movement,
            ) == (step_at(final(session).log(), ctx@, *transform), r),
{
    broadcast use group_extends;

    reveal(cast_move_hands_model);
    session.cast_move(
        CastMove {
            placement: Placement {
                entity: ctx.entity,
                shape: Shape::Hands,
                position: transform.translation,
                rotation: transform.rotation,
            },
            movement,
            skin_width: ctx.cfg.skin_width,
        },
    )
}

/// The model of [`depenetrate_character`].
#[verifier::opaque]
pub open spec fn depenetrate_character_model(h: History, s: Step) -> Step {
    let (t, offset) = ask_depenetrate(h, s, body(s.ctx.entity, s.ctx.state, s.transform));
    t.with_translation(s.transform.translation + offset)
}

/// Moves the body out of what it is inside of.
pub fn depenetrate_character<W: World>(
    session: &mut Session<W>,
    ctx: &CtxItem,
    transform: &mut Transform,
)
    ensures
        final(session).surroundings() == old(session).surroundings(),
        extends(old(session).log(), final(session).log()),
        final(transform).rotation == old(transform).rotation,
        final(transform).scale == old(transform).scale,
        forall|h: History|
            extends(final(session).log(), h) ==> #[trigger] depenetrate_character_model(
                h,
                step_at(old(session).log(), ctx@, *old(transform)),
            ) == step_at(final(session).log(), ctx@, *final(transform)),
{
    broadcast use group_extends;

    reveal(depenetrate_character_model);
    let offset = session.depenetrate(body(ctx.entity, ctx.state, *transform));
    transform.translation = transform.translation + offset;
}

/// The character after a slide.
pub open spec fn slid(c: Ctx, out: SlideReply) -> Ctx {
    let lost = (c.velocity - out.projected_velocity).length();
    Ctx {
        velocity: out.projected_velocity,
        touching: c.touching + out.touched,
        state: CharacterControllerState {
            last_velocity: c.velocity,
            tac_velocity: c.state.tac_velocity * num(TAC_DECAY) + lost,
            ..c.state
        },
        ..c
    }
}

/// The model of [`move_character`].
#[verifier::opaque]
pub open spec fn move_character_model(h: History, s: Step, time: Time) -> Step {
    let (t, out) = ask_slide(
        h,
        s,
        Slide {
            placement: body(s.ctx.entity, s.ctx.state, s.transform),
            velocity: s.ctx.velocity,
            delta: time.delta,
            ground: match s.ctx.state.grounded {
                Some(ground) => Some(ground.normal1),
                None => None,
            },
        },
    );
    t.with_ctx(slid(s.ctx, out)).with_translation(out.position)
}

/// Lets the body slide along its velocity, never into the ground that it stands on.
pub fn move_character<W: World>(
    time: &Time,
    session: &mut Session<W>,
    ctx: &mut CtxItem,
    transform: &mut Transform,
)
    ensures
        final(session).surroundings() == old(session).surroundings(),
        extends(old(session).log(), final(session).log()),
        final(ctx).cfg == old(ctx).cfg,
        no_new_press(old(ctx).input, final(ctx).input),
        final(transform).rotation == old(transform).rotation,
        final(transform).scale == old(transform).scale,
        forall|h: History|
            extends(final(session).log(), h) ==> #[trigger] move_character_model(
                h,
                step_at(old(session).log(), old(ctx)@, *old(transform)),
                *time,
            ) == step_at(final(session).log(), final(ctx)@, *final(transform)),
{
    broadcast use group_extends;

    reveal(move_character_model);
    let ground = match ctx.state.grounded {
        Some(ground) => Some(ground.normal1),
        None => None,
    };
    let mut out = session.slide(
        Slide {
            placement: body(ctx.entity, ctx.state, *transform),
            velocity: ctx.velocity,
            delta: time.delta,
            ground,
        },
    );
    ctx.output.touching_entities.append(&mut out.touched);
    ctx.state.last_velocity = ctx.velocity;
    let lost = (ctx.velocity - out.projected_velocity).length();
    ctx.state.tac_velocity = ctx.state.tac_velocity * num(TAC_DECAY) + lost;
    transform.translation = out.position;
    ctx.velocity = out.projected_velocity;
}

/// The model of [`snap_to_ground`].
#[verifier::opaque]
pub open spec fn snap_to_ground_model(h: History, s: Step) -> Step {
    let cfg = s.ctx.cfg;
    let (s1, above) = cast_move_model(h, s, up() * cfg.ground_distance);
    let rise = match above {
        Some(hit) => hit.distance,
        None => cfg.ground_distance,
    };
    let start = s.transform.translation + up() * rise;
    let (s2, below) = cast_move_model(h, s1.with_translation(start), down() * (rise + cfg.step_size));
    let back = s2.with_translation(s.transform.translation);
    match below {
        None => back,
        Some(hit) => if hit.intersects() || hit.normal1.y.lt(cfg.min_walk_cos) || hit.distance.le(
            cfg.ground_distance,
        ) {
            back
        } else {
            let landed = start + down() * hit.distance;
            let state = if cfg.step_down_detection_distance.lt(
                s.transform.translation.y - landed.y,
            ) {
                CharacterControllerState {
                    last_step_down: s.ctx.state.last_step_down.restarted(),
                    ..s.ctx.state
                }
            } else {
                s.ctx.state
            };
            depenetrate_character_model(
                h,
                back.with_translation(landed).with_ctx(s.ctx.with_state(state)),
            )
        },
    }
}

/// Lowers the body onto ground that is within a step below.
pub fn snap_to_ground<W: World>(
    session: &mut Session<W>,
    ctx: &mut CtxItem,
    transform: &mut Transform,
)
    ensures
        final(session).surroundings() == old(session).surroundings(),
        extends(old(session).log(), final(session).log()),
        final(ctx).cfg == old(ctx).cfg,
        no_new_press(old(ctx).input, final(ctx).input),
        final(transform).rotation == old(transform).rotation,
        final(transform).scale == old(transform).scale,
        forall|h: History|
            extends(final(session).log(), h) ==> #[trigger] snap_to_ground_model(
                h,
                step_at(old(session).log(), old(ctx)@, *old(transform)),
            ) == step_at(final(session).log(), final(ctx)@, *final(transform)),
{
    broadcast use group_extends;

    reveal(snap_to_ground_model);
    let reach = ctx.cfg.ground_distance;
    let rise = match cast_move(up() * reach, session, ctx, transform) {
        Some(hit) => hit.distance,
        None => reach,
    };
    let original = transform.translation;
    let start = original + up() * rise;
    transform.translation = start;
    let below = cast_move(down() * (rise + ctx.cfg.step_size), session, ctx, transform);
    transform.translation = original;
    let hit = match below {
        Some(hit) => hit,
        None => {
            return;
        },
    };
    if hit.intersects() || hit.normal1.y.lt(ctx.cfg.min_walk_cos) || hit.distance.le(
        ctx.cfg.ground_distance,
    ) {
        return;
    }
    transform.translation = start + down() * hit.distance;
    if ctx.cfg.step_down_detection_distance.lt(original.y - transform.translation.y) {
        ctx.state.last_step_down = ctx.state.last_step_down.restarted();
    }
    depenetrate_character(session, ctx, transform);
}

/// The wall among `contacts` that is kept when they are gone through in order: one with a normal
/// close enough to level, unless the one kept so far is less deep.
pub open spec fn closest_wall(contacts: Seq<Contact>, min_walk_cos: Scalar) -> Option<Contact>
    decreases contacts.len(),
{
    if contacts.len() == 0 {
        None
    } else {
        let kept = closest_wall(contacts.drop_last(), min_walk_cos);
        let next = contacts.last();
        if next.normal.y.abs().lt(min_walk_cos) && !(kept matches Some(wall)
            && wall.penetration.lt(next.penetration)) {
            Some(next)
        } else {
            kept
        }
    }
}

/// The wall among `contacts` that a character would hold on to.
pub fn pick_wall(contacts: &Vec<Contact>, min_walk_cos: Scalar) -> (r: Option<Contact>)
    ensures
        r == closest_wall(contacts@, min_walk_cos),
{
    let mut kept: Option<Contact> = None;
    let mut i: usize = 0;
    while i < contacts.len()
        invariant
            i <= contacts@.len(),
            kept == closest_wall(contacts@.take(i as int), min_walk_cos),
        decreases contacts@.len() - i,
    {
        let next = contacts[i];
        let nearer = match kept {
            Some(wall) => wall.penetration.lt(next.penetration),
            None => false,
        };
        assert(contacts@.take(i + 1).drop_last() == contacts@.take(i as int));
        if next.normal.y.abs().lt(min_walk_cos) && !nearer {
            kept = Some(next);
        }
        i = i + 1;
    }
    assert(contacts@.take(i as int) == contacts@);
    kept
}

/// The model of [`closest_wall_normal`].
#[verifier::opaque]
pub open spec fn closest_wall_normal_model(h: History, s: Step, dist: Scalar) -> (
    Step,
    Option<(Vec3, Vec3)>,
) {
    let (t, contacts) = ask_contacts(
        h,
        s,
        body(s.ctx.entity, s.ctx.state, s.transform),
        dist + s.ctx.cfg.skin_width,
    );
    (
        t,
        match closest_wall(contacts, s.ctx.cfg.min_walk_cos) {
            Some(wall) => Some((wall.point, wall.normal)),
            None => None,
        },
    )
}

/// The point and the normal of the closest wall within `dist` of the body.
pub fn closest_wall_normal<W: World>(
    dist: Scalar,
    session: &mut Session<W>,
    ctx: &CtxItem,
    transform: &Transform,
) -> (r: Option<(Vec3, Vec3)>)
    ensures
        final(session).surroundings() == old(session).surroundings(),
        extends(old(session).log(), final(session).log()),
        forall|h: History|
            extends(final(session).log(), h) ==> #[trigger] closest_wall_normal_model(
                h,
                step_at(old(session).log(), ctx@, *transform),
                dist,
            ) == (step_at(final(session).log(), ctx@, *transform), r),
{
    broadcast use group_extends;

    reveal(closest_wall_normal_model);
    let contacts = session.contacts(body(ctx.entity, ctx.state, *transform), dist + ctx.cfg.skin_width);
    match pick_wall(&contacts, ctx.cfg.min_walk_cos) {
        Some(wall) => Some((wall.point, wall.normal)),
        None => None,
    }
}

/// Whether anything but water is among `overlaps`.
pub open spec fn blocked(overlaps: Seq<Overlap>) -> bool {
    exists|i: int| 0 <= i < overlaps.len() && !(#[trigger] overlaps[i]).water
}

/// Tells whether anything but water is among `overlaps`.
pub fn any_solid(overlaps: &Vec<Overlap>) -> (r: bool)
    ensures
        r == blocked(overlaps@),
{
    let mut i: usize = 0;
    while i < overlaps.len()
        invariant
            i <= overlaps@.len(),
            forall|j: int| 0 <= j < i ==> (#[trigger] overlaps@[j]).water,
        decreases overlaps@.len() - i,
    {
        if !overlaps[i].water {
            return true;
        }
        i = i + 1;
    }
    false
}

/// The model of [`is_intersecting`].
#[verifier::opaque]
pub open spec fn is_intersecting_model(h: History, s: Step) -> (Step, bool) {
    let (t, overlaps) = ask_overlaps(h, s, body(s.ctx.entity, s.ctx.state, s.transform));
    (t, blocked(overlaps))
}

/// Whether the body is inside of anything but water.
///
/// The skin does not count: a body closer than its skin to the ground, as under a slope, could
/// otherwise never stand up.
pub fn is_intersecting<W: World>(
    session: &mut Session<W>,
    ctx: &CtxItem,
    transform: &Transform,
) -> (r: bool)
    ensures
        final(session).surroundings() == old(session).surroundings(),
        extends(old(session).log(), final(session).log()),
        forall|h: History|
            extends(final(session).log(), h) ==> #[trigger] is_intersecting_model(
                h,
                step_at(old(session).log(), ctx@, *transform),
            ) == (step_at(final(session).log(), ctx@, *transform), r),
{
    broadcast use group_extends;

    reveal(is_intersecting_model);
    let overlaps = session.overlaps(body(ctx.entity, ctx.state, *transform));
    any_solid(&overlaps)
}

pub broadcast proof fn lemma_cast_move(h: History, s: Step, movement: Vec3)
    ensures
        (#[trigger] cast_move_model(h, s, movement)).0.ctx == s.ctx,
        cast_move_model(h, s, movement).0.transform == s.transform,
        cast_move_model(h, s, movement).0.ok ==> s.ok,
{
    broadcast use group_asks;

    reveal(cast_move_model);
}

pub broadcast proof fn lemma_cast_move_hands(h: History, s: Step, movement: Vec3)
    ensures
        (#[trigger] cast_move_hands_model(h, s, movement)).0.ctx == s.ctx,
        cast_move_hands_model(h, s, movement).0.transform == s.transform,
        cast_move_hands_model(h, s, movement).0.ok ==> s.ok,
{
    broadcast use group_asks;

    reveal(cast_move_hands_model);
}

pub broadcast proof fn lemma_depenetrate_character(h: History, s: Step)
    ensures
        (#[trigger] depenetrate_character_model(h, s)).ctx == s.ctx,
        depenetrate_character_model(h, s).transform.rotation == s.transform.rotation,
        depenetrate_character_model(h, s).transform.scale == s.transform.scale,
        depenetrate_character_model(h, s).ok ==> s.ok,
{
    broadcast use group_asks;

    reveal(depenetrate_character_model);
}

pub broadcast proof fn lemma_closest_wall_normal(h: History, s: Step, dist: Scalar)
    ensures
        (#[trigger] closest_wall_normal_model(h, s, dist)).0.ctx == s.ctx,
        closest_wall_normal_model(h, s, dist).0.transform == s.transform,
        closest_wall_normal_model(h, s, dist).0.ok ==> s.ok,
{
    broadcast use group_asks;

    reveal(closest_wall_normal_model);
}

pub broadcast proof fn lemma_is_intersecting(h: History, s: Step)
    ensures
        (#[trigger] is_intersecting_model(h, s)).0.ctx == s.ctx,
        is_intersecting_model(h, s).0.transform == s.transform,
        is_intersecting_model(h, s).0.ok ==> s.ok,
{
    broadcast use group_asks;

    reveal(is_intersecting_model);
}

/// Casts change neither the character nor its body; depenetration moves the body only.
pub broadcast group group_casts {
    lemma_cast_move,
    lemma_cast_move_hands,
    lemma_depenetrate_character,
    lemma_closest_wall_normal,
    lemma_is_intersecting,
}

} // verus!
