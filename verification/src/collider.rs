//! The shapes that a character gets from its collider.
use crate::scalar::{num, Scalar, ONE, TWO, ZERO};
use crate::vector::{up, vec3, Vec3};
use crate::world::{extends, group_extends, ColliderBounds, History, Session, World};
use vstd::prelude::*;

verus! {

/// How many times a curved shape is subdivided when it is squeezed.
pub const SUBDIVISIONS: u32 = 16;

/// The shape of a crouching character.
#[derive(Clone, Copy, PartialEq, Eq, Structural, Debug)]
pub enum CrouchShape {
    /// An upright capsule.
    Capsule { half_height: Scalar, radius: Scalar },
    /// The standing shape, squeezed.
    Scaled { scale: Vec3, subdivisions: u32 },
}

/// How the shapes of a character follow from its collider.
#[derive(Clone, Copy, PartialEq, Eq, Structural, Debug)]
pub struct ColliderSetup {
    pub entity: u64,
    /// The collider, which the character's own casts ignore from now on.
    pub collider: u64,
    /// Whether there were other colliders to choose from.
    pub ambiguous: bool,
    pub crouching: CrouchShape,
    /// Where the crouching shape stands in the standing one: the feet stay where they are.
    pub crouch_offset: Vec3,
    /// Half the size of the hands.
    pub hand_half_size: Vec3,
}

/// The crouching shape for a collider of the given extent.
#[verifier::opaque]
pub open spec fn crouch_shape(crouch_height: Scalar, bounds: ColliderBounds) -> CrouchShape {
    match bounds.capsule_radius {
        Some(radius) => CrouchShape::Capsule {
            half_height: (crouch_height - radius).max(num(ZERO)).over(num(TWO)),
            radius,
        },
        None => CrouchShape::Scaled {
            scale: vec3(num(ONE), crouch_height.over(bounds.max_y - bounds.min_y), num(ONE)),
            subdivisions: SUBDIVISIONS,
        },
    }
}

/// A character to set up: which colliders its casts ignore, and its setup once it is made.
pub struct Recruit {
    pub entity: u64,
    pub crouch_height: Scalar,
    /// Half the size of the space that the hands need on a ledge.
    pub hand_half_size: Vec3,
    pub colliders: Vec<u64>,
    pub excluded: Vec<u64>,
    pub setup: Option<ColliderSetup>,
}

/// A character to set up, as contracts see it.
pub struct Enlisted {
    pub entity: u64,
    pub crouch_height: Scalar,
    pub hand_half_size: Vec3,
    pub colliders: Seq<u64>,
    pub excluded: Seq<u64>,
    pub setup: Option<ColliderSetup>,
}

impl View for Recruit {
    type V = Enlisted;

    open spec fn view(&self) -> Enlisted {
        Enlisted {
            entity: self.entity,
            crouch_height: self.crouch_height,
            hand_half_size: self.hand_half_size,
            colliders: self.colliders@,
            excluded: self.excluded@,
            setup: self.setup,
        }
    }
}

/// The characters to set up, as contracts see them.
pub open spec fn enlisted(recruits: Seq<Recruit>) -> Seq<Enlisted> {
    Seq::new(recruits.len(), |i: int| recruits[i]@)
}

/// The setup of a character whose first collider has the given extent.
#[verifier::opaque]
pub open spec fn setup_of(r: Enlisted, bounds: ColliderBounds) -> ColliderSetup {
    ColliderSetup {
        entity: r.entity,
        collider: r.colliders[0],
        ambiguous: r.colliders.len() > 1,
        crouching: crouch_shape(r.crouch_height, bounds),
        crouch_offset: (up() * (r.crouch_height - (bounds.max_y - bounds.min_y))).over(num(TWO)),
        hand_half_size: r.hand_half_size,
    }
}

/// Works out the setup of a character.
pub fn plan_setup(recruit: &Recruit, bounds: ColliderBounds) -> (r: ColliderSetup)
    requires
        recruit.colliders@.len() > 0,
    ensures
        r == setup_of(recruit@, bounds),
{
    reveal(setup_of);
    reveal(crouch_shape);
    let standing_height = bounds.max_y - bounds.min_y;
    let crouch_height = recruit.crouch_height;
    let crouching = match bounds.capsule_radius {
        Some(radius) => CrouchShape::Capsule {
            half_height: (crouch_height - radius).max(num(ZERO)).over(num(TWO)),
            radius,
        },
        None => CrouchShape::Scaled {
            scale: vec3(num(ONE), crouch_height.over(standing_height), num(ONE)),
            subdivisions: SUBDIVISIONS,
        },
    };
    ColliderSetup {
        entity: recruit.entity,
        collider: recruit.colliders[0],
        ambiguous: recruit.colliders.len() > 1,
        crouching,
        crouch_offset: (up() * (crouch_height - standing_height)).over(num(TWO)),
        hand_half_size: recruit.hand_half_size,
    }
}

/// A collection of entities with one more, which it holds once.
pub open spec fn including(entities: Seq<u64>, entity: u64) -> Seq<u64> {
    if entities.contains(entity) {
        entities
    } else {
        entities.push(entity)
    }
}

/// Adds an entity, unless it is there already.
fn exclude(entities: &mut Vec<u64>, entity: u64)
    ensures
        final(entities)@ == including(old(entities)@, entity),
{
    let mut i: usize = 0;
    while i < entities.len()
        invariant
            entities@ == old(entities)@,
            i <= entities@.len(),
            forall|j: int| 0 <= j < i ==> #[trigger] entities@[j] != entity,
        decreases entities@.len() - i,
    {
        if entities[i] == entity {
            assert(entities@.contains(entity));
            return;
        }
        i = i + 1;
    }
    entities.push(entity);
}

/// A character whose first collider has the given extent, set up.
#[verifier::opaque]
pub open spec fn enlist_model(r: Enlisted, bounds: ColliderBounds) -> Enlisted {
    Enlisted {
        excluded: including(r.excluded, r.colliders[0]),
        setup: Some(setup_of(r, bounds)),
        ..r
    }
}

/// Sets up a character.
pub fn enlist(recruit: &mut Recruit, bounds: ColliderBounds)
    requires
        old(recruit).colliders@.len() > 0,
    ensures
        final(recruit)@ == enlist_model(old(recruit)@, bounds),
{
    reveal(enlist_model);
    let setup = plan_setup(recruit, bounds);
    exclude(&mut recruit.excluded, setup.collider);
    recruit.setup = Some(setup);
    reveal(setup_of);
}

/// Characters set up one after another: where that is in the history, whether the history fits,
/// whether a collider was missing, and the characters.
pub struct Roster {
    pub at: nat,
    pub ok: bool,
    pub missing: bool,
    pub done: Seq<Enlisted>,
}

/// The model of [`setup_collider`].
pub open spec fn setup_collider_model(h: History, at: nat, recruits: Seq<Enlisted>) -> Roster
    decreases recruits.len(),
{
    if recruits.len() == 0 {
        Roster { at, ok: true, missing: false, done: Seq::empty() }
    } else {
        let before = setup_collider_model(h, at, recruits.drop_last());
        let r = recruits.last();
        if before.missing || r.setup is Some {
            Roster { done: before.done.push(r), ..before }
        } else {
            let event = h[before.at as int];
            let ok = before.ok && before.at < h.len() && event is Bounds && event->Bounds_entity
                == r.colliders[0];
            match event->Bounds_reply {
                None => Roster {
                    at: before.at + 1,
                    ok,
                    missing: true,
                    done: before.done.push(r),
                },
                Some(bounds) => Roster {
                    at: before.at + 1,
                    ok,
                    missing: false,
                    done: before.done.push(enlist_model(r, bounds)),
                },
            }
        }
    }
}

/// Sets up the characters that are not set up yet, up to one whose collider cannot be found, and
/// says whether none was missing.
pub fn setup_collider<W: World>(recruits: &mut Vec<Recruit>, session: &mut Session<W>) -> (r: bool)
    requires
        forall|i: int|
            0 <= i < old(recruits)@.len() && (#[trigger] old(recruits)@[i]).setup is None
                ==> old(recruits)@[i].colliders@.len() > 0,
    ensures
        final(session).faithful(),
        final(session).surroundings() == old(session).surroundings(),
        extends(old(session).log(), final(session).log()),
        forall|h: History|
            extends(final(session).log(), h) ==> #[trigger] setup_collider_model(
                h,
                old(session).log().len(),
                enlisted(old(recruits)@),
            ) == (Roster {
                at: final(session).log().len(),
                ok: true,
                missing: !r,
                done: enlisted(final(recruits)@),
            }),
{
    broadcast use group_extends;

    let ghost start = session.log();
    let ghost all = enlisted(recruits@);
    let ghost before = recruits@;
    let mut missing = false;
    let mut i: usize = 0;
    assert(all.take(0) =~= Seq::empty());
    assert(enlisted(recruits@).take(0) =~= Seq::empty());
    while i < recruits.len()
        invariant
            before == old(recruits)@,
            all == enlisted(before),
            start == old(session).log(),
            i <= recruits@.len(),
            recruits@.len() == before.len(),
            session.surroundings() == old(session).surroundings(),
            extends(start, session.log()),
            forall|j: int| i <= j < before.len() ==> #[trigger] recruits@[j] == before[j],
            forall|j: int|
                0 <= j < before.len() && (#[trigger] before[j]).setup is None
                    ==> before[j].colliders@.len() > 0,
            forall|h: History|
                extends(session.log(), h) ==> #[trigger] setup_collider_model(
                    h,
                    start.len(),
                    all.take(i as int),
                ) == (Roster {
                    at: session.log().len(),
                    ok: true,
                    missing,
                    done: enlisted(recruits@).take(i as int),
                }),
        decreases recruits@.len() - i,
    {
        broadcast use group_extends;

        let ghost seen = session.log();
        let ghost done = enlisted(recruits@).take(i as int);
        let ghost stopped = missing;
        assert(recruits@[i as int] == before[i as int]);
        assert(before[i as int].setup is None ==> before[i as int].colliders@.len() > 0);
        if !missing && recruits[i].setup.is_none() {
            let collider: u64 = recruits[i].colliders[0];
            match session.bounds(collider) {
                Some(bounds) => {
                    enlist(&mut recruits[i], bounds);
                },
                None => {
                    missing = true;
                },
            }
        }
        assert(all.take(i + 1).drop_last() =~= all.take(i as int));
        assert(all.take(i + 1).last() == before[i as int]@);
        assert(enlisted(recruits@).take(i + 1) =~= done.push(recruits@[i as int]@));
        proof {
            assert forall|h: History|
                extends(session.log(), h) implies #[trigger] setup_collider_model(
                h,
                start.len(),
                all.take(i + 1),
            ) == (Roster {
                at: session.log().len(),
                ok: true,
                missing,
                done: enlisted(recruits@).take(i + 1),
            }) by {
                reveal(extends);
                assert(setup_collider_model(h, start.len(), all.take(i as int)) == (Roster {
                    at: seen.len(),
                    ok: true,
                    missing: stopped,
                    done,
                }));
                assert(seen.len() < session.log().len() ==> h[seen.len() as int]
                    == session.log()[seen.len() as int]);
            }
        }
        i = i + 1;
    }
    assert(all.take(i as int) =~= all);
    assert(enlisted(recruits@).take(i as int) =~= enlisted(recruits@));
    session.attest();
    !missing
}

} // verus!
