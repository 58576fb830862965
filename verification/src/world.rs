//! The surroundings of a character: what a step asks of them, and what was asked.
use crate::clock::Duration;
use crate::context::{CharacterLook, Ctx, MoveHitData, TouchingEntity};
use crate::scalar::Scalar;
use crate::vector::{Quat, Transform, Vec3};
use vstd::prelude::*;

verus! {

/// One of the shapes of a character.
#[derive(Clone, Copy, PartialEq, Eq, Structural, Debug)]
pub enum Shape {
    Standing,
    Crouching,
    Hands,
}

/// A shape somewhere.
#[derive(Clone, Copy, PartialEq, Eq, Structural, Debug)]
pub struct Placement {
    /// The character that the shape belongs to.
    pub entity: u64,
    pub shape: Shape,
    pub position: Vec3,
    pub rotation: Quat,
}

/// A shape that is moved.
#[derive(Clone, Copy, PartialEq, Eq, Structural, Debug)]
pub struct CastMove {
    pub placement: Placement,
    pub movement: Vec3,
    pub skin_width: Scalar,
}

/// A shape that slides.
#[derive(Clone, Copy, PartialEq, Eq, Structural, Debug)]
pub struct Slide {
    pub placement: Placement,
    pub velocity: Vec3,
    pub delta: Duration,
    /// The normal of a plane that the slide never enters.
    pub ground: Option<Vec3>,
}

/// Where a slide ended.
pub struct SlideOutput {
    pub position: Vec3,
    /// The velocity that is left.
    pub projected_velocity: Vec3,
    /// What was touched on the way, in order.
    pub touched: Vec<TouchingEntity>,
}

/// Where a slide ended, as contracts see it.
pub struct SlideReply {
    pub position: Vec3,
    pub projected_velocity: Vec3,
    pub touched: Seq<TouchingEntity>,
}

impl View for SlideOutput {
    type V = SlideReply;

    open spec fn view(&self) -> SlideReply {
        SlideReply {
            position: self.position,
            projected_velocity: self.projected_velocity,
            touched: self.touched@,
        }
    }
}

/// A contact with a nearby collider.
#[derive(Clone, Copy, PartialEq, Eq, Structural, Debug)]
pub struct Contact {
    pub point: Vec3,
    /// How deep the contact is; negative at a distance.
    pub penetration: Scalar,
    /// The outward normal of the collider.
    pub normal: Vec3,
}

/// A collider that a shape is inside of.
#[derive(Clone, Copy, PartialEq, Eq, Structural, Debug)]
pub struct Overlap {
    pub entity: u64,
    /// Whether the collider is water.
    pub water: bool,
}

/// A collider that may move.
#[derive(Clone, Copy, PartialEq, Eq, Structural, Debug)]
pub struct Platform {
    pub center_of_mass: Option<Vec3>,
    pub linear_velocity: Option<Vec3>,
    pub angular_velocity: Option<Vec3>,
    pub position: Vec3,
    pub rotation: Quat,
}

/// The friction of a collider.
#[derive(Clone, Copy, PartialEq, Eq, Structural, Debug)]
pub struct ColliderFriction {
    /// The collider's own friction.
    pub friction: Option<Scalar>,
    /// The body that the collider belongs to.
    pub body: u64,
}

/// The vertical extent of a collider at the origin.
#[derive(Clone, Copy, PartialEq, Eq, Structural, Debug)]
pub struct ColliderBounds {
    pub min_y: Scalar,
    pub max_y: Scalar,
    /// The radius, if the collider is a capsule.
    pub capsule_radius: Option<Scalar>,
}

/// A point fixed to a frame that moves and spins.
#[derive(Clone, Copy, PartialEq, Eq, Structural, Debug)]
pub struct CarryPoint {
    /// Where the frame is.
    pub from: Vec3,
    /// How the frame is turned.
    pub rotation: Quat,
    /// Where the frame goes.
    pub to: Vec3,
    /// The axis that the frame spins about, as long as the angle in radians.
    pub spin: Vec3,
    pub point: Vec3,
}

/// A movement, given by where it starts and ends, and the pose to apply it to.
#[derive(Clone, Copy, PartialEq, Eq, Structural, Debug)]
pub struct ApplyMovement {
    pub original: Transform,
    pub moved: Transform,
    pub current: Transform,
}

/// What a step can ask of its surroundings. No contract relies on what the replies are.
pub trait World {
    /// What a shape runs into when it is moved.
    fn cast_move(&self, query: CastMove) -> Option<MoveHitData>;

    /// The offset that frees a shape from what it is inside of.
    fn depenetrate(&self, placement: Placement) -> Vec3;

    /// Where a shape ends when it slides along what it meets.
    fn slide(&self, query: Slide) -> SlideOutput;

    /// The deepest contacts with what is within `reach` of a shape, one after another.
    fn contacts(&self, placement: Placement, reach: Scalar) -> Vec<Contact>;

    /// What a shape is inside of, at least up to the first collider that is not water.
    fn overlaps(&self, placement: Placement) -> Vec<Overlap>;

    /// Where a collider is and how it is turned.
    fn pose(&self, entity: u64) -> Option<(Vec3, Quat)>;

    /// How a collider moves.
    fn platform(&self, entity: u64) -> Option<Platform>;

    /// The friction of a collider and the body that it belongs to.
    fn collider_friction(&self, entity: u64) -> Option<ColliderFriction>;

    /// The friction of a body.
    fn body_friction(&self, body: u64) -> Option<Scalar>;

    /// The vertical extent of a collider.
    fn bounds(&self, entity: u64) -> Option<ColliderBounds>;

    /// A duration in seconds.
    fn seconds(&self, duration: Duration) -> Scalar;

    /// The angle between two vectors, in radians.
    fn angle_between(&self, from: Vec3, to: Vec3) -> Scalar;

    /// Where a moving frame carries a point that is fixed to it.
    fn carry_point(&self, query: CarryPoint) -> Vec3;

    /// A pose after the movement that takes one pose to another.
    fn apply_movement(&self, query: ApplyMovement) -> Transform;

    /// The rotation of a look.
    fn look_rotation(&self, look: CharacterLook) -> Quat;

    /// A look turned about the vertical axis.
    fn turn_look(&self, look: CharacterLook, angle: Scalar) -> CharacterLook;
}

/// Something that was asked, and the reply.
#[allow(inconsistent_fields)]
pub enum Event {
    CastMove { query: CastMove, reply: Option<MoveHitData> },
    Depenetrate { placement: Placement, reply: Vec3 },
    Slide { query: Slide, reply: SlideReply },
    Contacts { placement: Placement, reach: Scalar, reply: Seq<Contact> },
    Overlaps { placement: Placement, reply: Seq<Overlap> },
    Pose { entity: u64, reply: Option<(Vec3, Quat)> },
    Platform { entity: u64, reply: Option<Platform> },
    ColliderFriction { entity: u64, reply: Option<ColliderFriction> },
    BodyFriction { body: u64, reply: Option<Scalar> },
    Bounds { entity: u64, reply: Option<ColliderBounds> },
    Seconds { duration: Duration, reply: Scalar },
    AngleBetween { from: Vec3, to: Vec3, reply: Scalar },
    CarryPoint { query: CarryPoint, reply: Vec3 },
    ApplyMovement { query: ApplyMovement, reply: Transform },
    LookRotation { look: CharacterLook, reply: Quat },
    TurnLook { look: CharacterLook, angle: Scalar, reply: CharacterLook },
}

/// Everything that was asked, in order.
pub type History = Seq<Event>;

/// Whether `later` continues `earlier`.
#[verifier::opaque]
pub open spec fn extends(earlier: History, later: History) -> bool {
    &&& earlier.len() <= later.len()
    &&& forall|i: int| 0 <= i < earlier.len() ==> earlier[i] == #[trigger] later[i]
}

pub broadcast proof fn lemma_extends_transitive(a: History, b: History, c: History)
    requires
        #[trigger] extends(a, b),
        #[trigger] extends(b, c),
    ensures
        extends(a, c),
{
    reveal(extends);
}

pub broadcast proof fn lemma_extends_reflexive(a: History)
    ensures
        #[trigger] extends(a, a),
{
    reveal(extends);
}

/// A record goes on with the event that is added to it.
proof fn lemma_recorded(a: History, e: Event)
    ensures
        extends(a, a.push(e)),
        forall|h: History| #[trigger]
            extends(a.push(e), h) ==> a.len() < h.len() && h[a.len() as int] == e,
{
    reveal(extends);
    assert forall|h: History| #[trigger] extends(a.push(e), h) implies a.len() < h.len()
        && h[a.len() as int] == e by {
        assert(h[a.len() as int] == a.push(e)[a.len() as int]);
    }
}

pub broadcast group group_extends {
    lemma_extends_transitive,
    lemma_extends_reflexive,
}

/// Whether `world` can have replied to a question what an event says that it did.
pub open spec fn answered<W: World>(world: &W, event: Event) -> bool {
    match event {
        Event::CastMove { query, reply } => call_ensures(W::cast_move, (world, query), reply),
        Event::Depenetrate { placement, reply } => call_ensures(
            W::depenetrate,
            (world, placement),
            reply,
        ),
        Event::Slide { query, reply } => exists|r: SlideOutput|
            r@ == reply && #[trigger] call_ensures(W::slide, (world, query), r),
        Event::Contacts { placement, reach, reply } => exists|r: Vec<Contact>|
            r@ == reply && #[trigger] call_ensures(W::contacts, (world, placement, reach), r),
        Event::Overlaps { placement, reply } => exists|r: Vec<Overlap>|
            r@ == reply && #[trigger] call_ensures(W::overlaps, (world, placement), r),
        Event::Pose { entity, reply } => call_ensures(W::pose, (world, entity), reply),
        Event::Platform { entity, reply } => call_ensures(W::platform, (world, entity), reply),
        Event::ColliderFriction { entity, reply } => call_ensures(
            W::collider_friction,
            (world, entity),
            reply,
        ),
        Event::BodyFriction { body, reply } => call_ensures(W::body_friction, (world, body), reply),
        Event::Bounds { entity, reply } => call_ensures(W::bounds, (world, entity), reply),
        Event::Seconds { duration, reply } => call_ensures(W::seconds, (world, duration), reply),
        Event::AngleBetween { from, to, reply } => call_ensures(
            W::angle_between,
            (world, from, to),
            reply,
        ),
        Event::CarryPoint { query, reply } => call_ensures(W::carry_point, (world, query), reply),
        Event::ApplyMovement { query, reply } => call_ensures(
            W::apply_movement,
            (world, query),
            reply,
        ),
        Event::LookRotation { look, reply } => call_ensures(W::look_rotation, (world, look), reply),
        Event::TurnLook { look, angle, reply } => call_ensures(
            W::turn_look,
            (world, look, angle),
            reply,
        ),
    }
}

/// The surroundings, with a record of what was asked of them and what they replied.
pub struct Session<'a, W: World> {
    world: &'a W,
    events: Ghost<History>,
}

impl<'a, W: World> Session<'a, W> {
    /// Everything that was asked so far, and the replies.
    pub closed spec fn log(&self) -> History {
        self.events@
    }

    /// What is asked.
    pub closed spec fn surroundings(&self) -> &'a W {
        self.world
    }

    /// Whether the surroundings gave every reply that is on record.
    pub open spec fn faithful(&self) -> bool {
        forall|i: int|
            0 <= i < self.log().len() ==> answered(self.surroundings(), #[trigger] self.log()[i])
    }

    #[verifier::type_invariant]
    spec fn keeps_faith(&self) -> bool {
        self.faithful()
    }

    /// A session in which nothing was asked yet.
    pub fn new(world: &'a W) -> (session: Session<'a, W>)
        ensures
            session.log() == History::empty(),
            session.surroundings() == world,
    {
        Session { world, events: Ghost(History::empty()) }
    }

    /// Vouches for the record.
    pub fn attest(&self)
        ensures
            self.faithful(),
    {
        proof {
            use_type_invariant(self);
        }
    }

    /// What a shape runs into when it is moved.
    pub fn cast_move(&mut self, query: CastMove) -> (r: Option<MoveHitData>)
        ensures
            call_ensures(W::cast_move, (old(self).surroundings(), query), r),
            final(self).surroundings() == old(self).surroundings(),
            final(self).log() == old(self).log().push(Event::CastMove { query, reply: r }),
            extends(old(self).log(), final(self).log()),
            forall|h: History, s: Step|
                extends(final(self).log(), h) && s.at == old(self).log().len()
                    ==> #[trigger] ask_cast_move(h, s, query) == (s.passed(), r),
    {
        let r = self.world.cast_move(query);
        let ghost event = Event::CastMove { query, reply: r };
        proof {
            use_type_invariant(&*self);
            lemma_recorded(self.log(), event);
            reveal(ask_cast_move);
        }
        self.events = Ghost(self.events@.push(event));
        r
    }

    /// The offset that frees a shape from what it is inside of.
    pub fn depenetrate(&mut self, placement: Placement) -> (r: Vec3)
        ensures
            call_ensures(W::depenetrate, (old(self).surroundings(), placement), r),
            final(self).surroundings() == old(self).surroundings(),
            final(self).log() == old(self).log().push(Event::Depenetrate { placement, reply: r }),
            extends(old(self).log(), final(self).log()),
            forall|h: History, s: Step|
                extends(final(self).log(), h) && s.at == old(self).log().len()
                    ==> #[trigger] ask_depenetrate(h, s, placement) == (s.passed(), r),
    {
        let r = self.world.depenetrate(placement);
        let ghost event = Event::Depenetrate { placement, reply: r };
        proof {
            use_type_invariant(&*self);
            lemma_recorded(self.log(), event);
            reveal(ask_depenetrate);
        }
        self.events = Ghost(self.events@.push(event));
        r
    }

    /// Where a shape ends when it slides along what it meets.
    pub fn slide(&mut self, query: Slide) -> (r: SlideOutput)
        ensures
            call_ensures(W::slide, (old(self).surroundings(), query), r),
            final(self).surroundings() == old(self).surroundings(),
            final(self).log() == old(self).log().push(Event::Slide { query, reply: r@ }),
            extends(old(self).log(), final(self).log()),
            forall|h: History, s: Step|
                extends(final(self).log(), h) && s.at == old(self).log().len()
                    ==> #[trigger] ask_slide(h, s, query) == (s.passed(), r@),
    {
        let r = self.world.slide(query);
        let ghost event = Event::Slide { query, reply: r@ };
        proof {
            use_type_invariant(&*self);
            lemma_recorded(self.log(), event);
            reveal(ask_slide);
        }
        self.events = Ghost(self.events@.push(event));
        r
    }

    /// The deepest contacts with what is within `reach` of a shape, one after another.
    pub fn contacts(&mut self, placement: Placement, reach: Scalar) -> (r: Vec<Contact>)
        ensures
            call_ensures(W::contacts, (old(self).surroundings(), placement, reach), r),
            final(self).surroundings() == old(self).surroundings(),
            final(self).log() == old(self).log().push(Event::Contacts { placement, reach, reply: r@ }),
            extends(old(self).log(), final(self).log()),
            forall|h: History, s: Step|
                extends(final(self).log(), h) && s.at == old(self).log().len()
                    ==> #[trigger] ask_contacts(h, s, placement, reach) == (s.passed(), r@),
    {
        let r = self.world.contacts(placement, reach);
        let ghost event = Event::Contacts { placement, reach, reply: r@ };
        proof {
            use_type_invariant(&*self);
            lemma_recorded(self.log(), event);
            reveal(ask_contacts);
        }
        self.events = Ghost(self.events@.push(event));
        r
    }

    /// What a shape is inside of, at least up to the first collider that is not water.
    pub fn overlaps(&mut self, placement: Placement) -> (r: Vec<Overlap>)
        ensures
            call_ensures(W::overlaps, (old(self).surroundings(), placement), r),
            final(self).surroundings() == old(self).surroundings(),
            final(self).log() == old(self).log().push(Event::Overlaps { placement, reply: r@ }),
            extends(old(self).log(), final(self).log()),
            forall|h: History, s: Step|
                extends(final(self).log(), h) && s.at == old(self).log().len()
                    ==> #[trigger] ask_overlaps(h, s, placement) == (s.passed(), r@),
    {
        let r = self.world.overlaps(placement);
        let ghost event = Event::Overlaps { placement, reply: r@ };
        proof {
            use_type_invariant(&*self);
            lemma_recorded(self.log(), event);
            reveal(ask_overlaps);
        }
        self.events = Ghost(self.events@.push(event));
        r
    }

    /// Where a collider is and how it is turned.
    pub fn pose(&mut self, entity: u64) -> (r: Option<(Vec3, Quat)>)
        ensures
            call_ensures(W::pose, (old(self).surroundings(), entity), r),
            final(self).surroundings() == old(self).surroundings(),
            final(self).log() == old(self).log().push(Event::Pose { entity, reply: r }),
            extends(old(self).log(), final(self).log()),
            forall|h: History, s: Step|
                extends(final(self).log(), h) && s.at == old(self).log().len()
                    ==> #[trigger] ask_pose(h, s, entity) == (s.passed(), r),
    {
        let r = self.world.pose(entity);
        let ghost event = Event::Pose { entity, reply: r };
        proof {
            use_type_invariant(&*self);
            lemma_recorded(self.log(), event);
            reveal(ask_pose);
        }
        self.events = Ghost(self.events@.push(event));
        r
    }

    /// How a collider moves.
    pub fn platform(&mut self, entity: u64) -> (r: Option<Platform>)
        ensures
            call_ensures(W::platform, (old(self).surroundings(), entity), r),
            final(self).surroundings() == old(self).surroundings(),
            final(self).log() == old(self).log().push(Event::Platform { entity, reply: r }),
            extends(old(self).log(), final(self).log()),
            forall|h: History, s: Step|
                extends(final(self).log(), h) && s.at == old(self).log().len()
                    ==> #[trigger] ask_platform(h, s, entity) == (s.passed(), r),
    {
        let r = self.world.platform(entity);
        let ghost event = Event::Platform { entity, reply: r };
        proof {
            use_type_invariant(&*self);
            lemma_recorded(self.log(), event);
            reveal(ask_platform);
        }
        self.events = Ghost(self.events@.push(event));
        r
    }

    /// The friction of a collider and the body that it belongs to.
    pub fn collider_friction(&mut self, entity: u64) -> (r: Option<ColliderFriction>)
        ensures
            call_ensures(W::collider_friction, (old(self).surroundings(), entity), r),
            final(self).surroundings() == old(self).surroundings(),
            final(self).log() == old(self).log().push(Event::ColliderFriction { entity, reply: r }),
            extends(old(self).log(), final(self).log()),
            forall|h: History, s: Step|
                extends(final(self).log(), h) && s.at == old(self).log().len()
                    ==> #[trigger] ask_collider_friction(h, s, entity) == (s.passed(), r),
    {
        let r = self.world.collider_friction(entity);
        let ghost event = Event::ColliderFriction { entity, reply: r };
        proof {
            use_type_invariant(&*self);
            lemma_recorded(self.log(), event);
            reveal(ask_collider_friction);
        }
        self.events = Ghost(self.events@.push(event));
        r
    }

    /// The friction of a body.
    pub fn body_friction(&mut self, body: u64) -> (r: Option<Scalar>)
        ensures
            call_ensures(W::body_friction, (old(self).surroundings(), body), r),
            final(self).surroundings() == old(self).surroundings(),
            final(self).log() == old(self).log().push(Event::BodyFriction { body, reply: r }),
            extends(old(self).log(), final(self).log()),
            forall|h: History, s: Step|
                extends(final(self).log(), h) && s.at == old(self).log().len()
                    ==> #[trigger] ask_body_friction(h, s, body) == (s.passed(), r),
    {
        let r = self.world.body_friction(body);
        let ghost event = Event::BodyFriction { body, reply: r };
        proof {
            use_type_invariant(&*self);
            lemma_recorded(self.log(), event);
            reveal(ask_body_friction);
        }
        self.events = Ghost(self.events@.push(event));
        r
    }

    /// The vertical extent of a collider.
    pub fn bounds(&mut self, entity: u64) -> (r: Option<ColliderBounds>)
        ensures
            call_ensures(W::bounds, (old(self).surroundings(), entity), r),
            final(self).surroundings() == old(self).surroundings(),
            final(self).log() == old(self).log().push(Event::Bounds { entity, reply: r }),
            extends(old(self).log(), final(self).log()),
            forall|h: History, s: Step|
                extends(final(self).log(), h) && s.at == old(self).log().len()
                    ==> #[trigger] ask_bounds(h, s, entity) == (s.passed(), r),
    {
        let r = self.world.bounds(entity);
        let ghost event = Event::Bounds { entity, reply: r };
        proof {
            use_type_invariant(&*self);
            lemma_recorded(self.log(), event);
            reveal(ask_bounds);
        }
        self.events = Ghost(self.events@.push(event));
        r
    }

    /// A duration in seconds.
    pub fn seconds(&mut self, duration: Duration) -> (r: Scalar)
        ensures
            call_ensures(W::seconds, (old(self).surroundings(), duration), r),
            final(self).surroundings() == old(self).surroundings(),
            final(self).log() == old(self).log().push(Event::Seconds { duration, reply: r }),
            extends(old(self).log(), final(self).log()),
            forall|h: History, s: Step|
                extends(final(self).log(), h) && s.at == old(self).log().len()
                    ==> #[trigger] ask_seconds(h, s, duration) == (s.passed(), r),
    {
        let r = self.world.seconds(duration);
        let ghost event = Event::Seconds { duration, reply: r };
        proof {
            use_type_invariant(&*self);
            lemma_recorded(self.log(), event);
            reveal(ask_seconds);
        }
        self.events = Ghost(self.events@.push(event));
        r
    }

    /// The angle between two vectors, in radians.
    pub fn angle_between(&mut self, from: Vec3, to: Vec3) -> (r: Scalar)
        ensures
            call_ensures(W::angle_between, (old(self).surroundings(), from, to), r),
            final(self).surroundings() == old(self).surroundings(),
            final(self).log() == old(self).log().push(Event::AngleBetween { from, to, reply: r }),
            extends(old(self).log(), final(self).log()),
            forall|h: History, s: Step|
                extends(final(self).log(), h) && s.at == old(self).log().len()
                    ==> #[trigger] ask_angle_between(h, s, from, to) == (s.passed(), r),
    {
        let r = self.world.angle_between(from, to);
        let ghost event = Event::AngleBetween { from, to, reply: r };
        proof {
            use_type_invariant(&*self);
            lemma_recorded(self.log(), event);
            reveal(ask_angle_between);
        }
        self.events = Ghost(self.events@.push(event));
        r
    }

    /// Where a moving frame carries a point that is fixed to it.
    pub fn carry_point(&mut self, query: CarryPoint) -> (r: Vec3)
        ensures
            call_ensures(W::carry_point, (old(self).surroundings(), query), r),
            final(self).surroundings() == old(self).surroundings(),
            final(self).log() == old(self).log().push(Event::CarryPoint { query, reply: r }),
            extends(old(self).log(), final(self).log()),
            forall|h: History, s: Step|
                extends(final(self).log(), h) && s.at == old(self).log().len()
                    ==> #[trigger] ask_carry_point(h, s, query) == (s.passed(), r),
    {
        let r = self.world.carry_point(query);
        let ghost event = Event::CarryPoint { query, reply: r };
        proof {
            use_type_invariant(&*self);
            lemma_recorded(self.log(), event);
            reveal(ask_carry_point);
        }
        self.events = Ghost(self.events@.push(event));
        r
    }

    /// A pose after the movement that takes one pose to another.
    pub fn apply_movement(&mut self, query: ApplyMovement) -> (r: Transform)
        ensures
            call_ensures(W::apply_movement, (old(self).surroundings(), query), r),
            final(self).surroundings() == old(self).surroundings(),
            final(self).log() == old(self).log().push(Event::ApplyMovement { query, reply: r }),
            extends(old(self).log(), final(self).log()),
            forall|h: History, s: Step|
                extends(final(self).log(), h) && s.at == old(self).log().len()
                    ==> #[trigger] ask_apply_movement(h, s, query) == (s.passed(), r),
    {
        let r = self.world.apply_movement(query);
        let ghost event = Event::ApplyMovement { query, reply: r };
        proof {
            use_type_invariant(&*self);
            lemma_recorded(self.log(), event);
            reveal(ask_apply_movement);
        }
        self.events = Ghost(self.events@.push(event));
        r
    }

    /// The rotation of a look.
    pub fn look_rotation(&mut self, look: CharacterLook) -> (r: Quat)
        ensures
            call_ensures(W::look_rotation, (old(self).surroundings(), look), r),
            final(self).surroundings() == old(self).surroundings(),
            final(self).log() == old(self).log().push(Event::LookRotation { look, reply: r }),
            extends(old(self).log(), final(self).log()),
            forall|h: History, s: Step|
                extends(final(self).log(), h) && s.at == old(self).log().len()
                    ==> #[trigger] ask_look_rotation(h, s, look) == (s.passed(), r),
    {
        let r = self.world.look_rotation(look);
        let ghost event = Event::LookRotation { look, reply: r };
        proof {
            use_type_invariant(&*self);
            lemma_recorded(self.log(), event);
            reveal(ask_look_rotation);
        }
        self.events = Ghost(self.events@.push(event));
        r
    }

    /// A look turned about the vertical axis.
    pub fn turn_look(&mut self, look: CharacterLook, angle: Scalar) -> (r: CharacterLook)
        ensures
            call_ensures(W::turn_look, (old(self).surroundings(), look, angle), r),
            final(self).surroundings() == old(self).surroundings(),
            final(self).log() == old(self).log().push(Event::TurnLook { look, angle, reply: r }),
            extends(old(self).log(), final(self).log()),
            forall|h: History, s: Step|
                extends(final(self).log(), h) && s.at == old(self).log().len()
                    ==> #[trigger] ask_turn_look(h, s, look, angle) == (s.passed(), r),
    {
        let r = self.world.turn_look(look, angle);
        let ghost event = Event::TurnLook { look, angle, reply: r };
        proof {
            use_type_invariant(&*self);
            lemma_recorded(self.log(), event);
            reveal(ask_turn_look);
        }
        self.events = Ghost(self.events@.push(event));
        r
    }
}

/// How far a step has come: the character, where its body is, and how much was asked so far.
/// Models of a step map one of these to the next, reading replies from a history. `ok` says that
/// what the model asked is what the history holds.
pub struct Step {
    pub ctx: Ctx,
    pub transform: Transform,
    pub at: nat,
    pub ok: bool,
}

/// The step of which `log` is what was asked so far.
pub open spec fn step_at(log: History, ctx: Ctx, transform: Transform) -> Step {
    Step { ctx, transform, at: log.len(), ok: true }
}

impl Step {
    pub open spec fn with_ctx(self, ctx: Ctx) -> Step {
        Step { ctx, ..self }
    }

    pub open spec fn with_velocity(self, velocity: Vec3) -> Step {
        Step { ctx: self.ctx.with_velocity(velocity), ..self }
    }

    pub open spec fn with_translation(self, translation: Vec3) -> Step {
        Step { transform: Transform { translation, ..self.transform }, ..self }
    }

    /// The step after one more question that the history holds.
    pub open spec fn passed(self) -> Step {
        Step { at: self.at + 1, ..self }
    }

    /// The step after one more question, `good` if the history holds that question next.
    pub open spec fn asked(self, h: History, good: bool) -> Step {
        Step { at: self.at + 1, ok: self.ok && self.at < h.len() && good, ..self }
    }
}

/// The model of [`Session::cast_move`].
#[verifier::opaque]
pub open spec fn ask_cast_move(h: History, s: Step, query: CastMove) -> (Step, Option<MoveHitData>) {
    (
        s.asked(h, h[s.at as int] is CastMove && h[s.at as int]->CastMove_query == query),
        h[s.at as int]->CastMove_reply,
    )
}

/// The model of [`Session::depenetrate`].
#[verifier::opaque]
pub open spec fn ask_depenetrate(h: History, s: Step, placement: Placement) -> (Step, Vec3) {
    (
        s.asked(h, h[s.at as int] is Depenetrate && h[s.at as int]->Depenetrate_placement == placement),
        h[s.at as int]->Depenetrate_reply,
    )
}

/// The model of [`Session::slide`].
#[verifier::opaque]
pub open spec fn ask_slide(h: History, s: Step, query: Slide) -> (Step, SlideReply) {
    (
        s.asked(h, h[s.at as int] is Slide && h[s.at as int]->Slide_query == query),
        h[s.at as int]->Slide_reply,
    )
}

/// The model of [`Session::contacts`].
#[verifier::opaque]
pub open spec fn ask_contacts(h: History, s: Step, placement: Placement, reach: Scalar) -> (Step, Seq<Contact>) {
    (
        s.asked(h, h[s.at as int] is Contacts && h[s.at as int]->Contacts_placement == placement && h[s.at as int]->Contacts_reach == reach),
        h[s.at as int]->Contacts_reply,
    )
}

/// The model of [`Session::overlaps`].
#[verifier::opaque]
pub open spec fn ask_overlaps(h: History, s: Step, placement: Placement) -> (Step, Seq<Overlap>) {
    (
        s.asked(h, h[s.at as int] is Overlaps && h[s.at as int]->Overlaps_placement == placement),
        h[s.at as int]->Overlaps_reply,
    )
}

/// The model of [`Session::pose`].
#[verifier::opaque]
pub open spec fn ask_pose(h: History, s: Step, entity: u64) -> (Step, Option<(Vec3, Quat)>) {
    (
        s.asked(h, h[s.at as int] is Pose && h[s.at as int]->Pose_entity == entity),
        h[s.at as int]->Pose_reply,
    )
}

/// The model of [`Session::platform`].
#[verifier::opaque]
pub open spec fn ask_platform(h: History, s: Step, entity: u64) -> (Step, Option<Platform>) {
    (
        s.asked(h, h[s.at as int] is Platform && h[s.at as int]->Platform_entity == entity),
        h[s.at as int]->Platform_reply,
    )
}

/// The model of [`Session::collider_friction`].
#[verifier::opaque]
pub open spec fn ask_collider_friction(h: History, s: Step, entity: u64) -> (Step, Option<ColliderFriction>) {
    (
        s.asked(h, h[s.at as int] is ColliderFriction && h[s.at as int]->ColliderFriction_entity == entity),
        h[s.at as int]->ColliderFriction_reply,
    )
}

/// The model of [`Session::body_friction`].
#[verifier::opaque]
pub open spec fn ask_body_friction(h: History, s: Step, body: u64) -> (Step, Option<Scalar>) {
    (
        s.asked(h, h[s.at as int] is BodyFriction && h[s.at as int]->BodyFriction_body == body),
        h[s.at as int]->BodyFriction_reply,
    )
}

/// The model of [`Session::bounds`].
#[verifier::opaque]
pub open spec fn ask_bounds(h: History, s: Step, entity: u64) -> (Step, Option<ColliderBounds>) {
    (
        s.asked(h, h[s.at as int] is Bounds && h[s.at as int]->Bounds_entity == entity),
        h[s.at as int]->Bounds_reply,
    )
}

/// The model of [`Session::seconds`].
#[verifier::opaque]
pub open spec fn ask_seconds(h: History, s: Step, duration: Duration) -> (Step, Scalar) {
    (
        s.asked(h, h[s.at as int] is Seconds && h[s.at as int]->Seconds_duration == duration),
        h[s.at as int]->Seconds_reply,
    )
}

/// The model of [`Session::angle_between`].
#[verifier::opaque]
pub open spec fn ask_angle_between(h: History, s: Step, from: Vec3, to: Vec3) -> (Step, Scalar) {
    (
        s.asked(h, h[s.at as int] is AngleBetween && h[s.at as int]->AngleBetween_from == from && h[s.at as int]->AngleBetween_to == to),
        h[s.at as int]->AngleBetween_reply,
    )
}

/// The model of [`Session::carry_point`].
#[verifier::opaque]
pub open spec fn ask_carry_point(h: History, s: Step, query: CarryPoint) -> (Step, Vec3) {
    (
        s.asked(h, h[s.at as int] is CarryPoint && h[s.at as int]->CarryPoint_query == query),
        h[s.at as int]->CarryPoint_reply,
    )
}

/// The model of [`Session::apply_movement`].
#[verifier::opaque]
pub open spec fn ask_apply_movement(h: History, s: Step, query: ApplyMovement) -> (Step, Transform) {
    (
        s.asked(h, h[s.at as int] is ApplyMovement && h[s.at as int]->ApplyMovement_query == query),
        h[s.at as int]->ApplyMovement_reply,
    )
}

/// The model of [`Session::look_rotation`].
#[verifier::opaque]
pub open spec fn ask_look_rotation(h: History, s: Step, look: CharacterLook) -> (Step, Quat) {
    (
        s.asked(h, h[s.at as int] is LookRotation && h[s.at as int]->LookRotation_look == look),
        h[s.at as int]->LookRotation_reply,
    )
}

/// The model of [`Session::turn_look`].
#[verifier::opaque]
pub open spec fn ask_turn_look(h: History, s: Step, look: CharacterLook, angle: Scalar) -> (Step, CharacterLook) {
    (
        s.asked(h, h[s.at as int] is TurnLook && h[s.at as int]->TurnLook_look == look && h[s.at as int]->TurnLook_angle == angle),
        h[s.at as int]->TurnLook_reply,
    )
}

pub broadcast proof fn lemma_ask_cast_move(h: History, s: Step, query: CastMove)
    ensures
        (#[trigger] ask_cast_move(h, s, query)).0.ctx == s.ctx,
        ask_cast_move(h, s, query).0.transform == s.transform,
        ask_cast_move(h, s, query).0.at == s.at + 1,
        ask_cast_move(h, s, query).0.ok ==> s.ok,
{
    reveal(ask_cast_move);
}

pub broadcast proof fn lemma_ask_depenetrate(h: History, s: Step, placement: Placement)
    ensures
        (#[trigger] ask_depenetrate(h, s, placement)).0.ctx == s.ctx,
        ask_depenetrate(h, s, placement).0.transform == s.transform,
        ask_depenetrate(h, s, placement).0.at == s.at + 1,
        ask_depenetrate(h, s, placement).0.ok ==> s.ok,
{
    reveal(ask_depenetrate);
}

pub broadcast proof fn lemma_ask_slide(h: History, s: Step, query: Slide)
    ensures
        (#[trigger] ask_slide(h, s, query)).0.ctx == s.ctx,
        ask_slide(h, s, query).0.transform == s.transform,
        ask_slide(h, s, query).0.at == s.at + 1,
        ask_slide(h, s, query).0.ok ==> s.ok,
{
    reveal(ask_slide);
}

pub broadcast proof fn lemma_ask_contacts(h: History, s: Step, placement: Placement, reach: Scalar)
    ensures
        (#[trigger] ask_contacts(h, s, placement, reach)).0.ctx == s.ctx,
        ask_contacts(h, s, placement, reach).0.transform == s.transform,
        ask_contacts(h, s, placement, reach).0.at == s.at + 1,
        ask_contacts(h, s, placement, reach).0.ok ==> s.ok,
{
    reveal(ask_contacts);
}

pub broadcast proof fn lemma_ask_overlaps(h: History, s: Step, placement: Placement)
    ensures
        (#[trigger] ask_overlaps(h, s, placement)).0.ctx == s.ctx,
        ask_overlaps(h, s, placement).0.transform == s.transform,
        ask_overlaps(h, s, placement).0.at == s.at + 1,
        ask_overlaps(h, s, placement).0.ok ==> s.ok,
{
    reveal(ask_overlaps);
}

pub broadcast proof fn lemma_ask_pose(h: History, s: Step, entity: u64)
    ensures
        (#[trigger] ask_pose(h, s, entity)).0.ctx == s.ctx,
        ask_pose(h, s, entity).0.transform == s.transform,
        ask_pose(h, s, entity).0.at == s.at + 1,
        ask_pose(h, s, entity).0.ok ==> s.ok,
{
    reveal(ask_pose);
}

pub broadcast proof fn lemma_ask_platform(h: History, s: Step, entity: u64)
    ensures
        (#[trigger] ask_platform(h, s, entity)).0.ctx == s.ctx,
        ask_platform(h, s, entity).0.transform == s.transform,
        ask_platform(h, s, entity).0.at == s.at + 1,
        ask_platform(h, s, entity).0.ok ==> s.ok,
{
    reveal(ask_platform);
}

pub broadcast proof fn lemma_ask_collider_friction(h: History, s: Step, entity: u64)
    ensures
        (#[trigger] ask_collider_friction(h, s, entity)).0.ctx == s.ctx,
        ask_collider_friction(h, s, entity).0.transform == s.transform,
        ask_collider_friction(h, s, entity).0.at == s.at + 1,
        ask_collider_friction(h, s, entity).0.ok ==> s.ok,
{
    reveal(ask_collider_friction);
}

pub broadcast proof fn lemma_ask_body_friction(h: History, s: Step, body: u64)
    ensures
        (#[trigger] ask_body_friction(h, s, body)).0.ctx == s.ctx,
        ask_body_friction(h, s, body).0.transform == s.transform,
        ask_body_friction(h, s, body).0.at == s.at + 1,
        ask_body_friction(h, s, body).0.ok ==> s.ok,
{
    reveal(ask_body_friction);
}

pub broadcast proof fn lemma_ask_bounds(h: History, s: Step, entity: u64)
    ensures
        (#[trigger] ask_bounds(h, s, entity)).0.ctx == s.ctx,
        ask_bounds(h, s, entity).0.transform == s.transform,
        ask_bounds(h, s, entity).0.at == s.at + 1,
        ask_bounds(h, s, entity).0.ok ==> s.ok,
{
    reveal(ask_bounds);
}

pub broadcast proof fn lemma_ask_seconds(h: History, s: Step, duration: Duration)
    ensures
        (#[trigger] ask_seconds(h, s, duration)).0.ctx == s.ctx,
        ask_seconds(h, s, duration).0.transform == s.transform,
        ask_seconds(h, s, duration).0.at == s.at + 1,
        ask_seconds(h, s, duration).0.ok ==> s.ok,
{
    reveal(ask_seconds);
}

pub broadcast proof fn lemma_ask_angle_between(h: History, s: Step, from: Vec3, to: Vec3)
    ensures
        (#[trigger] ask_angle_between(h, s, from, to)).0.ctx == s.ctx,
        ask_angle_between(h, s, from, to).0.transform == s.transform,
        ask_angle_between(h, s, from, to).0.at == s.at + 1,
        ask_angle_between(h, s, from, to).0.ok ==> s.ok,
{
    reveal(ask_angle_between);
}

pub broadcast proof fn lemma_ask_carry_point(h: History, s: Step, query: CarryPoint)
    ensures
        (#[trigger] ask_carry_point(h, s, query)).0.ctx == s.ctx,
        ask_carry_point(h, s, query).0.transform == s.transform,
        ask_carry_point(h, s, query).0.at == s.at + 1,
        ask_carry_point(h, s, query).0.ok ==> s.ok,
{
    reveal(ask_carry_point);
}

pub broadcast proof fn lemma_ask_apply_movement(h: History, s: Step, query: ApplyMovement)
    ensures
        (#[trigger] ask_apply_movement(h, s, query)).0.ctx == s.ctx,
        ask_apply_movement(h, s, query).0.transform == s.transform,
        ask_apply_movement(h, s, query).0.at == s.at + 1,
        ask_apply_movement(h, s, query).0.ok ==> s.ok,
{
    reveal(ask_apply_movement);
}

pub broadcast proof fn lemma_ask_look_rotation(h: History, s: Step, look: CharacterLook)
    ensures
        (#[trigger] ask_look_rotation(h, s, look)).0.ctx == s.ctx,
        ask_look_rotation(h, s, look).0.transform == s.transform,
        ask_look_rotation(h, s, look).0.at == s.at + 1,
        ask_look_rotation(h, s, look).0.ok ==> s.ok,
{
    reveal(ask_look_rotation);
}

pub broadcast proof fn lemma_ask_turn_look(h: History, s: Step, look: CharacterLook, angle: Scalar)
    ensures
        (#[trigger] ask_turn_look(h, s, look, angle)).0.ctx == s.ctx,
        ask_turn_look(h, s, look, angle).0.transform == s.transform,
        ask_turn_look(h, s, look, angle).0.at == s.at + 1,
        ask_turn_look(h, s, look, angle).0.ok ==> s.ok,
{
    reveal(ask_turn_look);
}

/// Asking changes neither the character nor its body, and mends no history that did not fit.
pub broadcast group group_asks {
    lemma_ask_cast_move,
    lemma_ask_depenetrate,
    lemma_ask_slide,
    lemma_ask_contacts,
    lemma_ask_overlaps,
    lemma_ask_pose,
    lemma_ask_platform,
    lemma_ask_collider_friction,
    lemma_ask_body_friction,
    lemma_ask_bounds,
    lemma_ask_seconds,
    lemma_ask_angle_between,
    lemma_ask_carry_point,
    lemma_ask_apply_movement,
    lemma_ask_look_rotation,
    lemma_ask_turn_look,
}

} // verus!
