//! Stepping many characters, or one chosen among them.
use crate::clock::{Duration, Time};
use crate::context::{CharacterControllerState, CharacterLook, Ctx, CtxItem};
use crate::scalar::Scalar;
use crate::step::{step_kcc, step_kcc_model, step_of};
use crate::world::{ask_seconds, extends, group_extends, History, Session, World};
use vstd::prelude::*;

verus! {

/// The characters, as contracts see them.
pub open spec fn views(ctxs: Seq<CtxItem>) -> Seq<Ctx> {
    Seq::new(ctxs.len(), |i: int| ctxs[i]@)
}

/// Where a pass over many characters is in the history, whether the history fits so far, and the
/// characters that are done.
pub struct Pass {
    pub at: nat,
    pub ok: bool,
    pub done: Seq<Ctx>,
}

/// The pass that a session has made.
pub open spec fn pass_at(log: History, done: Seq<Ctx>) -> Pass {
    Pass { at: log.len(), ok: true, done }
}

/// The model of [`run_kcc`]: the characters are stepped one after another. The second part says of
/// each whether it was stepped.
pub open spec fn run_kcc_model(
    h: History,
    at: nat,
    ctxs: Seq<Ctx>,
    default_friction: Scalar,
    time: Time,
) -> (Pass, Seq<bool>)
    decreases ctxs.len(),
{
    if ctxs.len() == 0 {
        (Pass { at, ok: true, done: Seq::empty() }, Seq::empty())
    } else {
        let (before, results) = run_kcc_model(h, at, ctxs.drop_last(), default_friction, time);
        let (s, stepped) = step_kcc_model(
            h,
            step_of(before.at, before.ok, ctxs.last()),
            default_friction,
            time,
        );
        (Pass { at: s.at, ok: s.ok, done: before.done.push(s.ctx) }, results.push(stepped))
    }
}

/// Steps every character, and says of each whether it was stepped: one whose collider is nowhere
/// is passed over, and the others are stepped all the same.
pub fn run_kcc<W: World>(
    kccs: &mut Vec<CtxItem>,
    default_friction: Scalar,
    time: &Time,
    session: &mut Session<W>,
) -> (r: Vec<bool>)
    ensures
        final(session).faithful(),
        final(session).surroundings() == old(session).surroundings(),
        extends(old(session).log(), final(session).log()),
        forall|h: History|
            extends(final(session).log(), h) ==> #[trigger] run_kcc_model(
                h,
                old(session).log().len(),
                views(old(kccs)@),
                default_friction,
                *time,
            ) == (pass_at(final(session).log(), views(final(kccs)@)), r@),
{
    broadcast use group_extends;

    let ghost start = session.log();
    let ghost all = views(kccs@);
    let ghost before = kccs@;
    let mut stepped: Vec<bool> = Vec::new();
    let mut i: usize = 0;
    assert(all.take(0) =~= Seq::empty());
    assert(views(kccs@).take(0) =~= Seq::empty());
    while i < kccs.len()
        invariant
            before == old(kccs)@,
            all == views(before),
            start == old(session).log(),
            i <= kccs@.len(),
            kccs@.len() == before.len(),
            session.surroundings() == old(session).surroundings(),
            extends(start, session.log()),
            forall|j: int| i <= j < before.len() ==> #[trigger] kccs@[j] == before[j],
            forall|h: History|
                extends(session.log(), h) ==> #[trigger] run_kcc_model(
                    h,
                    start.len(),
                    all.take(i as int),
                    default_friction,
                    *time,
                ) == (pass_at(session.log(), views(kccs@).take(i as int)), stepped@),
        decreases kccs@.len() - i,
    {
        broadcast use group_extends;

        let ghost seen = session.log();
        let ghost done = views(kccs@).take(i as int);
        let ghost results = stepped@;
        assert(kccs@[i as int] == before[i as int]);
        let found = step_kcc(default_friction, time, session, &mut kccs[i]);
        stepped.push(found);
        assert(all.take(i + 1).drop_last() =~= all.take(i as int));
        assert(all.take(i + 1).last() == before[i as int]@);
        assert(views(kccs@).take(i + 1) =~= done.push(kccs@[i as int]@));
        proof {
            assert forall|h: History|
                extends(session.log(), h) implies #[trigger] run_kcc_model(
                h,
                start.len(),
                all.take(i + 1),
                default_friction,
                *time,
            ) == (pass_at(session.log(), views(kccs@).take(i + 1)), stepped@) by {
                assert(run_kcc_model(
                    h,
                    start.len(),
                    all.take(i as int),
                    default_friction,
                    *time,
                ) == (pass_at(seen, done), results));
            }
        }
        i = i + 1;
    }
    assert(all.take(i as int) =~= all);
    assert(views(kccs@).take(i as int) =~= views(kccs@));
    session.attest();
    stepped
}

/// A character as far as turning its look goes.
#[derive(Clone, Copy, PartialEq, Eq, Structural, Debug)]
pub struct Looking {
    pub state: CharacterControllerState,
    pub look: CharacterLook,
}

/// How far the ground turns a look in a step.
pub open spec fn spin_angle(state: CharacterControllerState, time: Time) -> Scalar {
    state.platform_angular_velocity.y * time.delta_secs
}

/// Looks turned one after another: where that is in the history, whether the history fits so far,
/// and the looks.
pub struct Turned {
    pub at: nat,
    pub ok: bool,
    pub looks: Seq<CharacterLook>,
}

/// The model of [`spin_character_look`].
pub open spec fn spin_character_look_model(
    h: History,
    at: nat,
    all: Seq<Looking>,
    time: Time,
) -> Turned
    decreases all.len(),
{
    if all.len() == 0 {
        Turned { at, ok: true, looks: Seq::empty() }
    } else {
        let before = spin_character_look_model(h, at, all.drop_last(), time);
        let c = all.last();
        if c.state.grounded is None {
            Turned { looks: before.looks.push(c.look), ..before }
        } else {
            let event = h[before.at as int];
            Turned {
                at: before.at + 1,
                ok: before.ok && before.at < h.len() && event is TurnLook && event->TurnLook_look
                    == c.look && event->TurnLook_angle == spin_angle(c.state, time),
                looks: before.looks.push(event->TurnLook_reply),
            }
        }
    }
}

/// The looks of characters.
pub open spec fn looks(all: Seq<Looking>) -> Seq<CharacterLook> {
    Seq::new(all.len(), |i: int| all[i].look)
}

/// Turns the look of every character that stands on something along with it, and nothing else.
pub fn spin_character_look<W: World>(
    kccs: &mut Vec<Looking>,
    time: &Time,
    session: &mut Session<W>,
)
    ensures
        final(session).faithful(),
        final(session).surroundings() == old(session).surroundings(),
        extends(old(session).log(), final(session).log()),
        final(kccs)@.len() == old(kccs)@.len(),
        forall|i: int|
            0 <= i < old(kccs)@.len() ==> (#[trigger] final(kccs)@[i]).state == old(
                kccs,
            )@[i].state,
        forall|h: History|
            extends(final(session).log(), h) ==> #[trigger] spin_character_look_model(
                h,
                old(session).log().len(),
                old(kccs)@,
                *time,
            ) == (Turned {
                at: final(session).log().len(),
                ok: true,
                looks: looks(final(kccs)@),
            }),
{
    broadcast use group_extends;

    let ghost start = session.log();
    let ghost all = kccs@;
    let mut i: usize = 0;
    assert(all.take(0) =~= Seq::empty());
    assert(looks(kccs@).take(0) =~= Seq::empty());
    while i < kccs.len()
        invariant
            all == old(kccs)@,
            start == old(session).log(),
            i <= kccs@.len(),
            kccs@.len() == all.len(),
            session.surroundings() == old(session).surroundings(),
            extends(start, session.log()),
            forall|j: int| i <= j < all.len() ==> #[trigger] kccs@[j] == all[j],
            forall|j: int| 0 <= j < all.len() ==> (#[trigger] kccs@[j]).state == all[j].state,
            forall|h: History|
                extends(session.log(), h) ==> #[trigger] spin_character_look_model(
                    h,
                    start.len(),
                    all.take(i as int),
                    *time,
                ) == (Turned {
                    at: session.log().len(),
                    ok: true,
                    looks: looks(kccs@).take(i as int),
                }),
        decreases kccs@.len() - i,
    {
        broadcast use group_extends;

        let ghost seen = session.log();
        let ghost done = looks(kccs@).take(i as int);
        let Looking { state, look } = kccs[i];
        if state.grounded.is_some() {
            let angle = state.platform_angular_velocity.y * time.delta_secs;
            let turned = session.turn_look(look, angle);
            kccs.set(i, Looking { state, look: turned });
        }
        assert(all.take(i + 1).drop_last() =~= all.take(i as int));
        assert(all.take(i + 1).last() == all[i as int]);
        assert(looks(kccs@).take(i + 1) =~= done.push(kccs@[i as int].look));
        proof {
            assert forall|h: History|
                extends(session.log(), h) implies #[trigger] spin_character_look_model(
                h,
                start.len(),
                all.take(i + 1),
                *time,
            ) == (Turned {
                at: session.log().len(),
                ok: true,
                looks: looks(kccs@).take(i + 1),
            }) by {
                reveal(extends);
                assert(spin_character_look_model(h, start.len(), all.take(i as int), *time) == (
                Turned { at: seen.len(), ok: true, looks: done }));
                assert(seen.len() < session.log().len() ==> h[seen.len() as int]
                    == session.log()[seen.len() as int]);
            }
        }
        i = i + 1;
    }
    assert(all.take(i as int) =~= all);
    assert(looks(kccs@).take(i as int) =~= looks(kccs@));
    session.attest();
}

/// What became of a request to step one character.
#[derive(Clone, Copy, PartialEq, Eq, Structural, Debug)]
pub enum Outcome {
    Stepped,
    /// The collider of the character is nowhere.
    NoCollider,
    /// There is no such character.
    NoCharacter,
}

/// Where the first character with the given entity is.
pub open spec fn first_of(ctxs: Seq<Ctx>, entity: u64) -> Option<int>
    decreases ctxs.len(),
{
    if ctxs.len() == 0 {
        None
    } else {
        match first_of(ctxs.drop_last(), entity) {
            Some(i) => Some(i),
            None => if ctxs.last().entity == entity {
                Some(ctxs.len() - 1)
            } else {
                None
            },
        }
    }
}

/// The model of [`CharacterControllerStepper::run_kcc`].
#[verifier::opaque]
pub open spec fn run_one_model(
    h: History,
    at: nat,
    ctxs: Seq<Ctx>,
    entity: u64,
    fixed_delta: Duration,
    default_friction: Scalar,
) -> (Pass, Outcome) {
    match first_of(ctxs, entity) {
        None => (Pass { at, ok: true, done: ctxs }, Outcome::NoCharacter),
        Some(i) => {
            let (s1, delta_secs) = ask_seconds(h, step_of(at, true, ctxs[i]), fixed_delta);
            let (s2, stepped) = step_kcc_model(
                h,
                s1,
                default_friction,
                Time { delta: fixed_delta, delta_secs },
            );
            (
                Pass { at: s2.at, ok: s2.ok, done: ctxs.update(i, s2.ctx) },
                if stepped {
                    Outcome::Stepped
                } else {
                    Outcome::NoCollider
                },
            )
        },
    }
}

/// Steps one chosen character at a time, for callers that own the order of movement.
pub struct CharacterControllerStepper<'a, W: World> {
    pub kccs: Vec<CtxItem>,
    /// The friction of what has none of its own.
    pub default_friction: Scalar,
    pub session: Session<'a, W>,
}

impl<'a, W: World> CharacterControllerStepper<'a, W> {
    /// Where the first character with the given entity is.
    fn find(&self, entity: u64) -> (r: Option<usize>)
        ensures
            match r {
                Some(i) => i < self.kccs@.len() && self.kccs@[i as int].entity == entity && first_of(
                    views(self.kccs@),
                    entity,
                ) == Some(i as int),
                None => first_of(views(self.kccs@), entity) is None,
            },
    {
        let ghost all = views(self.kccs@);
        let mut found: Option<usize> = None;
        let mut i: usize = 0;
        assert(all.take(0) =~= Seq::empty());
        while i < self.kccs.len()
            invariant
                all == views(self.kccs@),
                i <= self.kccs@.len(),
                match found {
                    Some(k) => k < i && self.kccs@[k as int].entity == entity && first_of(
                        all.take(i as int),
                        entity,
                    ) == Some(k as int),
                    None => first_of(all.take(i as int), entity) is None,
                },
            decreases self.kccs@.len() - i,
        {
            assert(all.take(i + 1).drop_last() =~= all.take(i as int));
            assert(all.take(i + 1).last() == self.kccs@[i as int]@);
            if found.is_none() && self.kccs[i].entity == entity {
                found = Some(i);
            }
            i = i + 1;
        }
        assert(all.take(i as int) =~= all);
        found
    }

    /// Steps the character `entity` by `fixed_delta`.
    pub fn run_kcc(&mut self, entity: u64, fixed_delta: Duration) -> (r: Outcome)
        ensures
            final(self).session.faithful(),
            final(self).session.surroundings() == old(self).session.surroundings(),
            extends(old(self).session.log(), final(self).session.log()),
            final(self).default_friction == old(self).default_friction,
            forall|h: History|
                extends(final(self).session.log(), h) ==> #[trigger] run_one_model(
                    h,
                    old(self).session.log().len(),
                    views(old(self).kccs@),
                    entity,
                    fixed_delta,
                    old(self).default_friction,
                ) == (pass_at(final(self).session.log(), views(final(self).kccs@)), r),
    {
        broadcast use group_extends;

        reveal(run_one_model);
        let i: usize = match self.find(entity) {
            Some(i) => i,
            None => {
                self.session.attest();
                return Outcome::NoCharacter;
            },
        };
        let ghost before = views(self.kccs@);
        let delta_secs = self.session.seconds(fixed_delta);
        let time = Time { delta: fixed_delta, delta_secs };
        let default_friction = self.default_friction;
        let stepped = step_kcc(default_friction, &time, &mut self.session, &mut self.kccs[i]);
        assert(views(self.kccs@) =~= before.update(i as int, self.kccs@[i as int]@));
        self.session.attest();
        if stepped {
            Outcome::Stepped
        } else {
            Outcome::NoCollider
        }
    }

    /// Steps the character `entity` by `fixed_delta`: another name for
    /// [`CharacterControllerStepper::run_kcc`].
    pub fn step_entity(&mut self, entity: u64, fixed_delta: Duration) -> (r: Outcome)
        ensures
            final(self).session.faithful(),
            final(self).session.surroundings() == old(self).session.surroundings(),
            extends(old(self).session.log(), final(self).session.log()),
            final(self).default_friction == old(self).default_friction,
            forall|h: History|
                extends(final(self).session.log(), h) ==> #[trigger] run_one_model(
                    h,
                    old(self).session.log().len(),
                    views(old(self).kccs@),
                    entity,
                    fixed_delta,
                    old(self).default_friction,
                ) == (pass_at(final(self).session.log(), views(final(self).kccs@)), r),
    {
        self.run_kcc(entity, fixed_delta)
    }
}

} // verus!
