//! What one character is made of.
use crate::clock::Stopwatch;
use crate::config::CharacterController;
use crate::scalar::{num, Scalar, ZERO};
use crate::vector::{Quat, Transform, Vec2, Vec3};
use vstd::prelude::*;

verus! {

/// What a cast ran into.
#[derive(Clone, Copy, PartialEq, Eq, Structural, Debug)]
pub struct MoveHitData {
    /// The collider that was hit.
    pub entity: u64,
    /// How far the cast shape can move and still keep its skin free.
    pub distance: Scalar,
    /// The closest point on the collider.
    pub point1: Vec3,
    /// The closest point on the cast shape.
    pub point2: Vec3,
    /// The outward normal of the collider.
    pub normal1: Vec3,
    /// The outward normal of the cast shape.
    pub normal2: Vec3,
    /// The distance without regard to the skin.
    pub collision_distance: Scalar,
}

impl MoveHitData {
    pub open spec fn spec_intersects(self) -> bool {
        self.collision_distance.same(num(ZERO))
    }

    /// Whether the cast started inside the collider.
    #[verifier::when_used_as_spec(spec_intersects)]
    pub fn intersects(self) -> (r: bool)
        ensures
            r == self.spec_intersects(),
    {
        self.collision_distance.same(num(ZERO))
    }
}

/// Something that a slide touched.
#[derive(Clone, Copy, PartialEq, Eq, Structural, Debug)]
pub struct TouchingEntity {
    /// The collider that was touched.
    pub entity: u64,
    /// How far the slide could go before it.
    pub distance: Scalar,
    /// The point of contact.
    pub point: Vec3,
    /// The outward normal of the collider.
    pub normal: Vec3,
    /// Where the slide was.
    pub position: Vec3,
    /// The velocity of the slide.
    pub velocity: Vec3,
    /// The distance without regard to the skin.
    pub collision_distance: Scalar,
}

/// A mantle in progress.
#[derive(Clone, Copy, PartialEq, Eq, Structural, Debug)]
pub struct MantleState {
    /// The height still to climb.
    pub height_left: Scalar,
}

/// The ledge of a mantle.
#[derive(Clone, Copy, PartialEq, Eq, Structural, Debug)]
pub struct MantleOutput {
    /// The outward normal of the wall.
    pub wall_normal: Vec3,
    /// A point on the ledge.
    pub ledge_position: Vec3,
    /// The collider that the ledge belongs to.
    pub wall_entity: u64,
}

/// How deep a character stands in water.
#[derive(Clone, Copy, PartialEq, Eq, Structural, Debug)]
pub enum WaterLevel {
    Dry,
    Feet,
    Center,
    Head,
}

impl WaterLevel {
    pub open spec fn spec_above_feet(self) -> bool {
        match self {
            WaterLevel::Dry => false,
            WaterLevel::Feet => false,
            WaterLevel::Center => true,
            WaterLevel::Head => true,
        }
    }

    /// Whether the water reaches above the feet.
    #[verifier::when_used_as_spec(spec_above_feet)]
    pub fn above_feet(self) -> (r: bool)
        ensures
            r == self.spec_above_feet(),
    {
        match self {
            WaterLevel::Dry => false,
            WaterLevel::Feet => false,
            WaterLevel::Center => true,
            WaterLevel::Head => true,
        }
    }
}

/// Where a character looks.
#[derive(Clone, Copy, PartialEq, Eq, Structural, Debug)]
pub struct CharacterLook {
    pub yaw: Scalar,
    pub pitch: Scalar,
}

/// What a character remembers from step to step.
#[derive(Clone, Copy, PartialEq, Eq, Structural, Debug)]
pub struct CharacterControllerState {
    /// Which way the character faces.
    pub orientation: Quat,
    /// The ground that the character stands on.
    pub grounded: Option<MoveHitData>,
    /// The velocity of the ground.
    pub platform_velocity: Vec3,
    /// The angular velocity of the ground.
    pub platform_angular_velocity: Vec3,
    pub crouching: bool,
    pub sliding: bool,
    /// The height still to go in a crane.
    pub crane_height_left: Option<Scalar>,
    pub mantle: Option<MantleState>,
    /// The velocity before the last slide.
    pub last_velocity: Vec3,
    /// The velocity lately lost to walls.
    pub tac_velocity: Scalar,
    /// The horizontal speed of the last landing.
    pub land_speed: Scalar,
    /// The time since the character was on the ground.
    pub last_ground: Stopwatch,
    /// The time since the last landing.
    pub last_land: Stopwatch,
    /// The time since the last slide began.
    pub last_slide: Stopwatch,
    /// The time since the last bounce.
    pub last_bounce: Stopwatch,
    /// The time since the last jump.
    pub last_jump: Stopwatch,
    /// The time since the last tic tac.
    pub last_tac: Stopwatch,
    /// The time since the last step up.
    pub last_step_up: Stopwatch,
    /// The time since the last step down.
    pub last_step_down: Stopwatch,
}

/// What the player asked for. A press counts the time since it was made.
#[derive(Clone, Copy, PartialEq, Eq, Structural, Debug)]
pub struct AccumulatedInput {
    /// The movement asked for: `y` ahead, `x` to the right.
    pub last_movement: Option<Vec2>,
    pub jumped: Option<Stopwatch>,
    pub tac: Option<Stopwatch>,
    pub bounced: Option<Stopwatch>,
    pub craned: Option<Stopwatch>,
    pub mantled: Option<Stopwatch>,
    pub climbdown: Option<Stopwatch>,
    pub crouched: bool,
    pub swim_up: bool,
}

/// Whether every press that is there `after` was there `before`.
pub open spec fn no_new_press(before: AccumulatedInput, after: AccumulatedInput) -> bool {
    &&& after.jumped is Some ==> before.jumped is Some
    &&& after.tac is Some ==> before.tac is Some
    &&& after.bounced is Some ==> before.bounced is Some
    &&& after.craned is Some ==> before.craned is Some
    &&& after.mantled is Some ==> before.mantled is Some
    &&& after.climbdown is Some ==> before.climbdown is Some
}

/// The measures of a body shape.
#[derive(Clone, Copy, PartialEq, Eq, Structural, Debug)]
pub struct BodyMeasures {
    /// The horizontal radius.
    pub radius: Scalar,
    /// The distance from the position to the top of the head.
    pub pos_to_head_dist: Scalar,
}

/// The measures of a character's two body shapes.
#[derive(Clone, Copy, PartialEq, Eq, Structural, Debug)]
pub struct CharacterControllerDerivedProps {
    pub standing: BodyMeasures,
    pub crouching: BodyMeasures,
}

impl CharacterControllerDerivedProps {
    pub open spec fn spec_radius(self, state: CharacterControllerState) -> Scalar {
        if state.crouching {
            self.crouching.radius
        } else {
            self.standing.radius
        }
    }

    /// The radius of the current body shape.
    #[verifier::when_used_as_spec(spec_radius)]
    pub fn radius(self, state: CharacterControllerState) -> (r: Scalar)
        ensures
            r == self.spec_radius(state),
    {
        if state.crouching {
            self.crouching.radius
        } else {
            self.standing.radius
        }
    }

    pub open spec fn spec_pos_to_head_dist(self, state: CharacterControllerState) -> Scalar {
        if state.crouching {
            self.crouching.pos_to_head_dist
        } else {
            self.standing.pos_to_head_dist
        }
    }

    /// The distance from the position to the top of the head of the current body shape.
    #[verifier::when_used_as_spec(spec_pos_to_head_dist)]
    pub fn pos_to_head_dist(self, state: CharacterControllerState) -> (r: Scalar)
        ensures
            r == self.spec_pos_to_head_dist(state),
    {
        if state.crouching {
            self.crouching.pos_to_head_dist
        } else {
            self.standing.pos_to_head_dist
        }
    }
}

/// What a step reports.
pub struct CharacterControllerOutput {
    /// What slides touched, in order.
    pub touching_entities: Vec<TouchingEntity>,
    /// The ledge of the current mantle.
    pub mantle: Option<MantleOutput>,
}

/// One character.
pub struct CtxItem {
    pub entity: u64,
    pub velocity: Vec3,
    pub state: CharacterControllerState,
    pub derived: CharacterControllerDerivedProps,
    pub output: CharacterControllerOutput,
    pub transform: Transform,
    pub input: AccumulatedInput,
    pub cfg: CharacterController,
    pub water: WaterLevel,
    pub look: Option<CharacterLook>,
    /// The colliders of the character's body.
    pub colliders: Vec<u64>,
}

/// One character, as contracts see it.
pub struct Ctx {
    pub entity: u64,
    pub velocity: Vec3,
    pub state: CharacterControllerState,
    pub derived: CharacterControllerDerivedProps,
    pub touching: Seq<TouchingEntity>,
    pub mantle: Option<MantleOutput>,
    pub transform: Transform,
    pub input: AccumulatedInput,
    pub cfg: CharacterController,
    pub water: WaterLevel,
    pub look: Option<CharacterLook>,
    pub colliders: Seq<u64>,
}

impl View for CtxItem {
    type V = Ctx;

    open spec fn view(&self) -> Ctx {
        Ctx {
            entity: self.entity,
            velocity: self.velocity,
            state: self.state,
            derived: self.derived,
            touching: self.output.touching_entities@,
            mantle: self.output.mantle,
            transform: self.transform,
            input: self.input,
            cfg: self.cfg,
            water: self.water,
            look: self.look,
            colliders: self.colliders@,
        }
    }
}

impl Ctx {
    pub open spec fn with_velocity(self, velocity: Vec3) -> Ctx {
        Ctx { velocity, ..self }
    }

    pub open spec fn with_state(self, state: CharacterControllerState) -> Ctx {
        Ctx { state, ..self }
    }

    pub open spec fn with_input(self, input: AccumulatedInput) -> Ctx {
        Ctx { input, ..self }
    }
}

} // verus!
