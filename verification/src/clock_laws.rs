//! How time passes for a character.
use crate::clock::{lemma_span, span, Duration, Stopwatch, LONGEST};
use crate::context::Ctx;
use crate::jump::launched;
use crate::step::begun;
use crate::vector::Vec3;
use vstd::prelude::*;

verus! {

/// Whether two durations together are within the longest one.
pub open spec fn fits(a: Duration, b: Duration) -> bool {
    a.nanos() + b.nanos() <= LONGEST
}

/// Durations add up, and taking one away again gives back the other. Taking away more than there is
/// leaves nothing, and the order of durations is that of their lengths.
pub proof fn law_durations(a: Duration, b: Duration)
    ensures
        fits(a, b) ==> a.plus(b).nanos() == a.nanos() + b.nanos(),
        !fits(a, b) ==> a.plus(b).nanos() == LONGEST,
        fits(a, b) ==> a.plus(b).minus(b).nanos() == a.nanos(),
        a.lt(b) ==> a.minus(b).nanos() == 0,
        !a.lt(b) ==> a.minus(b).nanos() + b.nanos() == a.nanos(),
        a.lt(b) <==> a.nanos() < b.nanos(),
{
    broadcast use lemma_span;

    reveal(Duration::spec_plus);
    reveal(Duration::spec_minus);
    reveal(Duration::spec_lt);
}

/// Whether a running clock shows `delta` more than before. A paused one stands still.
pub open spec fn advanced(before: Stopwatch, after: Stopwatch, delta: Duration) -> bool {
    &&& after.paused == before.paused
    &&& before.paused ==> after.elapsed == before.elapsed
    &&& !before.paused && fits(before.elapsed, delta) ==> after.elapsed.nanos()
        == before.elapsed.nanos() + delta.nanos()
}

/// A clock shows how much time passed since it was started again.
pub proof fn law_clock(clock: Stopwatch, delta: Duration)
    ensures
        advanced(clock, clock.ticked(delta), delta),
        clock.restarted().elapsed.nanos() == 0,
        clock.restarted().paused == clock.paused,
        !clock.paused && delta.nanos() <= LONGEST ==> clock.restarted().ticked(
            delta,
        ).elapsed.nanos() == delta.nanos(),
{
    broadcast use lemma_span;

    reveal(Stopwatch::spec_ticked);
    reveal(Stopwatch::spec_restarted);
    reveal(Stopwatch::spec_with_elapsed);
    law_durations(clock.elapsed, delta);
    law_durations(span(0), delta);
}

/// As a step begins every clock of a character advances by the time of the step, nothing is touched
/// and no mantle is reported yet. Everything else is as it was.
pub proof fn law_step_begins(c: Ctx, delta: Duration)
    ensures
        ({
            let (a, b) = (c.state, begun(c, delta).state);
            &&& advanced(a.last_ground, b.last_ground, delta)
            &&& advanced(a.last_land, b.last_land, delta)
            &&& advanced(a.last_slide, b.last_slide, delta)
            &&& advanced(a.last_bounce, b.last_bounce, delta)
            &&& advanced(a.last_jump, b.last_jump, delta)
            &&& advanced(a.last_tac, b.last_tac, delta)
            &&& advanced(a.last_step_up, b.last_step_up, delta)
            &&& advanced(a.last_step_down, b.last_step_down, delta)
            &&& a.grounded == b.grounded && a.mantle == b.mantle && a.crouching == b.crouching
            &&& a.sliding == b.sliding && a.crane_height_left == b.crane_height_left
            &&& a.orientation == b.orientation && a.platform_velocity == b.platform_velocity
            &&& a.tac_velocity == b.tac_velocity && a.last_velocity == b.last_velocity
            &&& a.land_speed == b.land_speed
            &&& begun(c, delta).velocity == c.velocity && begun(c, delta).input == c.input
            &&& begun(c, delta).touching.len() == 0 && begun(c, delta).mantle is None
        }),
{
    reveal(begun);
    law_clock(c.state.last_ground, delta);
    law_clock(c.state.last_land, delta);
    law_clock(c.state.last_slide, delta);
    law_clock(c.state.last_bounce, delta);
    law_clock(c.state.last_jump, delta);
    law_clock(c.state.last_tac, delta);
    law_clock(c.state.last_step_up, delta);
    law_clock(c.state.last_step_down, delta);
}

/// A press for a crane that waits when a character is launched keeps only the time that chains it
/// to the jump: a while later it is too old exactly if it is older than that time by then.
pub proof fn law_jump_crane_chain(c: Ctx, dir: Vec3, later: Duration)
    requires
        c.input.craned matches Some(press) && !press.paused && press.elapsed.nanos()
            + c.cfg.crane_input_buffer.nanos() + later.nanos() <= LONGEST,
        !c.cfg.crane_input_buffer.lt(c.cfg.jump_crane_chain_time),
    ensures
        launched(c, dir).input.craned matches Some(kept) && (c.cfg.crane_input_buffer.lt(
            kept.ticked(later).elapsed,
        ) <==> c.cfg.jump_crane_chain_time.nanos() < c.input.craned->Some_0.elapsed.nanos()
            + later.nanos()),
{
    reveal(launched);
    let press = c.input.craned->Some_0;
    let buffer = c.cfg.crane_input_buffer;
    let chain = c.cfg.jump_crane_chain_time;
    let spent = buffer.minus(chain);
    law_durations(buffer, chain);
    law_clock(press, spent);
    let kept = press.ticked(spent);
    law_clock(kept, later);
    law_durations(buffer, kept.ticked(later).elapsed);
}

} // verus!
