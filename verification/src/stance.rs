//! Crouching and sliding.
use crate::casting::{is_intersecting, is_intersecting_model};
use crate::config::CharacterController;
use crate::context::{no_new_press, CharacterControllerState, Ctx, CtxItem};
use crate::scalar::{num, Scalar, ONE, ZERO};
use crate::vector::{vec3, Transform};
use crate::world::{extends, group_extends, step_at, History, Session, Step, World};
use vstd::prelude::*;

verus! {

/// What a slide adds to the speed that it starts with. It fades to nothing toward the highest
/// speed that is boosted, so that fast slides do not stack boosts.
#[verifier::opaque]
pub open spec fn slide_boost_at(cfg: CharacterController, speed: Scalar) -> Scalar {
    cfg.slide_boost * (num(ONE) - speed.over(cfg.slide_boost_max_speed)).max(num(ZERO))
}

/// A character whose slide ends or starts where it has to. A slide ends when the character stands
/// up or is too slow. It starts on the ground, crouching and fast enough, after a while without.
#[verifier::opaque]
pub open spec fn sliding_updated(c: Ctx) -> Ctx {
    let speed = c.velocity.xz().length();
    if c.state.sliding {
        if !c.state.crouching || speed.lt(c.cfg.slide_end_speed) {
            c.with_state(CharacterControllerState { sliding: false, ..c.state })
        } else {
            c
        }
    } else if c.state.crouching && c.state.grounded is Some && c.cfg.slide_min_speed.le(speed)
        && !c.state.last_slide.elapsed.lt(c.cfg.slide_cooldown) {
        let scale = (speed + slide_boost_at(c.cfg, speed)).over(speed);
        c.with_state(
            CharacterControllerState {
                sliding: true,
                last_slide: c.state.last_slide.restarted(),
                ..c.state
            },
        ).with_velocity(vec3(c.velocity.x * scale, c.velocity.y, c.velocity.z * scale))
    } else {
        c
    }
}

/// Ends or starts a slide.
pub fn update_sliding(ctx: &mut CtxItem)
    ensures
        final(ctx).cfg == old(ctx).cfg,
        final(ctx).input == old(ctx).input,
        final(ctx)@ == sliding_updated(old(ctx)@),
{
    reveal(sliding_updated);
    reveal(slide_boost_at);
    let speed = ctx.velocity.xz().length();
    if ctx.state.sliding {
        if !ctx.state.crouching || speed.lt(ctx.cfg.slide_end_speed) {
            ctx.state.sliding = false;
        }
    } else if ctx.state.crouching && ctx.state.grounded.is_some() && ctx.cfg.slide_min_speed.le(
        speed,
    ) && !ctx.state.last_slide.elapsed.lt(ctx.cfg.slide_cooldown) {
        ctx.state.sliding = true;
        ctx.state.last_slide = ctx.state.last_slide.restarted();
        let boost = ctx.cfg.slide_boost * (num(ONE) - speed.over(
            ctx.cfg.slide_boost_max_speed,
        )).max(num(ZERO));
        let scale = (speed + boost).over(speed);
        ctx.velocity.x = ctx.velocity.x * scale;
        ctx.velocity.z = ctx.velocity.z * scale;
    }
}

impl Ctx {
    pub open spec fn with_crouching(self, crouching: bool) -> Ctx {
        self.with_state(CharacterControllerState { crouching, ..self.state })
    }
}

/// The model of [`handle_crouching`].
#[verifier::opaque]
pub open spec fn handle_crouching_model(h: History, s: Step) -> Step {
    if s.ctx.input.crouched {
        s.with_ctx(s.ctx.with_crouching(true))
    } else if s.ctx.state.crouching {
        let (t, blocked) = is_intersecting_model(h, s.with_ctx(s.ctx.with_crouching(false)));
        t.with_ctx(t.ctx.with_crouching(blocked))
    } else {
        s
    }
}

/// Crouches where that is asked for, and stands up again where there is room.
pub fn handle_crouching<W: World>(
    session: &mut Session<W>,
    ctx: &mut CtxItem,
    transform: &Transform,
)
    ensures
        final(session).surroundings() == old(session).surroundings(),
        extends(old(session).log(), final(session).log()),
        final(ctx).cfg == old(ctx).cfg,
        no_new_press(old(ctx).input, final(ctx).input),
        forall|h: History|
            extends(final(session).log(), h) ==> #[trigger] handle_crouching_model(
                h,
                step_at(old(session).log(), old(ctx)@, *transform),
            ) == step_at(final(session).log(), final(ctx)@, *transform),
        final(ctx).input == old(ctx).input,
{
    broadcast use group_extends;

    reveal(handle_crouching_model);
    if ctx.input.crouched {
        ctx.state.crouching = true;
    } else if ctx.state.crouching {
        ctx.state.crouching = false;
        let blocked = is_intersecting(session, ctx, transform);
        ctx.state.crouching = blocked;
    }
}

} // verus!
