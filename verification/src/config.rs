//! What tunes a character.
use crate::clock::Duration;
use crate::scalar::Scalar;
use crate::vector::Vec3;
use vstd::prelude::*;

verus! {

/// The tuning of one character.
#[derive(Clone, Copy, PartialEq, Eq, Structural, Debug)]
pub struct CharacterController {
    // Moving on the ground.
    /// The speed that full input asks for.
    pub speed: Scalar,
    /// The speed that no velocity may exceed.
    pub max_speed: Scalar,
    /// How fast velocity approaches the wish on the ground.
    pub acceleration_hz: Scalar,
    /// The downward acceleration.
    pub gravity: Scalar,
    /// How fast friction brakes.
    pub friction_hz: Scalar,
    /// The speed below which friction brakes as if at that speed.
    pub stop_speed: Scalar,
    /// The friction coefficient without ground.
    pub air_friction: Scalar,
    /// How far below the ground may be.
    pub ground_distance: Scalar,
    /// The smallest vertical part of a normal that can be walked on.
    pub min_walk_cos: Scalar,
    /// The upward speed above which the ground lets go.
    pub unground_speed: Scalar,
    /// The distance kept from everything.
    pub skin_width: Scalar,
    // Steps.
    /// The highest step that is climbed without effort.
    pub step_size: Scalar,
    /// The space needed on top of a step.
    pub min_step_ledge_space: Scalar,
    /// The drop from which a snap counts as a step down.
    pub step_down_detection_distance: Scalar,
    // Air.
    /// The acceleration in the air.
    pub air_control: Scalar,
    /// The speed from which turning gains nothing.
    pub max_carve_speed: Scalar,
    /// The gain per radian turned.
    pub carve_gain: Scalar,
    // Water.
    /// The sinking speed without input.
    pub water_gravity: Scalar,
    /// What water leaves of a wish.
    pub water_slowdown: Scalar,
    /// How fast velocity approaches the wish in water.
    pub water_acceleration_hz: Scalar,
    // Crouching and sliding.
    /// The height when crouching.
    pub crouch_height: Scalar,
    /// What crouching leaves of the speed.
    pub crouch_speed_scale: Scalar,
    /// How fast friction brakes a slide.
    pub slide_friction_hz: Scalar,
    /// The speed below which a slide ends.
    pub slide_end_speed: Scalar,
    /// The speed that starts a slide.
    pub slide_min_speed: Scalar,
    /// The largest gain at the start of a slide.
    pub slide_boost: Scalar,
    /// The entry speed at which the gain has faded.
    pub slide_boost_max_speed: Scalar,
    /// The time between two slides.
    pub slide_cooldown: Duration,
    // Jumping.
    /// The height of a jump.
    pub jump_height: Scalar,
    /// How long a jump press counts.
    pub jump_input_buffer: Duration,
    /// How long after leaving the ground a jump still works.
    pub coyote_time: Duration,
    /// What a jump leaves of a buffered crane press.
    pub jump_crane_chain_time: Duration,
    /// How soon after landing a jump restores speed.
    pub land_momentum_window: Duration,
    /// How much of the landing speed is restored.
    pub land_momentum_preservation: Scalar,
    // Wall jumps.
    /// How long a tic tac press counts.
    pub tac_input_buffer: Duration,
    /// The time between two tic tacs.
    pub tac_cooldown: Duration,
    /// How directly the wish may point into the wall.
    pub max_tac_cos: Scalar,
    /// The upward share of a tic tac.
    pub tac_jump_factor: Scalar,
    /// The strength of a tic tac.
    pub tac_power: Scalar,
    /// How long a bounce press counts.
    pub bounce_input_buffer: Duration,
    /// The time between two bounces.
    pub bounce_cooldown: Duration,
    /// How far the wall of a bounce may be.
    pub bounce_distance: Scalar,
    /// How much speed a bounce returns.
    pub bounce_restitution: Scalar,
    /// The least speed off the wall.
    pub bounce_min_speed: Scalar,
    /// The share of a jump that a bounce adds upward.
    pub bounce_jump_factor: Scalar,
    /// The upward share of a jump off a ledge.
    pub ledge_jump_factor: Scalar,
    /// The strength of a jump off a ledge.
    pub ledge_jump_power: Scalar,
    // Craning.
    /// The highest ledge that is craned onto.
    pub crane_height: Scalar,
    /// The upward speed of a crane.
    pub crane_speed: Scalar,
    /// How long a crane press counts.
    pub crane_input_buffer: Duration,
    /// The space needed on top of the ledge.
    pub min_crane_ledge_space: Scalar,
    /// How directly the wish must point at the wall.
    pub min_crane_cos: Scalar,
    // Mantling.
    /// The highest ledge that is grabbed.
    pub mantle_height: Scalar,
    /// The speed of climbing.
    pub mantle_speed: Scalar,
    /// How long a mantle press counts.
    pub mantle_input_buffer: Duration,
    /// How directly the wish must point at the wall.
    pub min_mantle_cos: Scalar,
    /// How far the wall may be.
    pub max_ledge_grab_distance: Scalar,
    /// Half the size of the space that the hands need.
    pub min_ledge_grab_space: Vec3,
    /// How far the head ends above the ledge.
    pub climb_pull_up_height: Scalar,
    /// How far below the horizon climbing turns around.
    pub climb_reverse_sin: Scalar,
    /// How fast the look changes the climbing speed.
    pub climb_sensitivity: Scalar,
}

} // verus!
