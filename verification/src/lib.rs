//! A kinematic character controller.
//!
//! A character walks, climbs steps, jumps, swims, slides and climbs ledges. It never touches its
//! surroundings itself: whatever a step has to know of them, such as what a shape runs into when
//! it is moved, it asks of a [`world::World`].
//!
//! # Numbers
//!
//! All quantities are single-precision numbers. [`scalar::Scalar`] holds one as its bit pattern and
//! computes in integers. [`rounding`] and [`ieee`] prove that every operation gives the exact
//! result, rounded to nearest with ties to even; [`order`] and [`number_laws`] prove what follows
//! for the order of results, and [`amounts`] how far rounding moves them.
//!
//! # Contracts
//!
//! What a step does depends on the replies that it gets. A [`world::Session`] keeps a ghost record
//! of every question and its reply, the [`world::History`]. Beside each function that asks
//! anything stands its model: a specification function that reads the replies from a history and
//! says what the character and its body become, which question comes next, and, in
//! [`world::Step::ok`], whether the history holds the questions that are asked. The contract of
//! the function says that its model, run on any history that continues the record, arrives exactly
//! where the function did.
//!
//! A session asks only the surroundings that it was made for, and every reply in its record is one
//! that they gave: [`world::Session::faithful`].
//!
//! # Laws
//!
//! The laws prove what holds of the models on every history, and so of every step, whatever the
//! surroundings reply. [`keeps`] and [`grip`] say what parts of a step leave alone, and [`replay`]
//! that the same replies lead to the same step. [`laws`] go from function to function;
//! [`motion_laws`], [`length_laws`] and [`bounce_laws`] speak of speeds, [`reach_laws`] and
//! [`mantle_laws`] of distances, [`frame_laws`] of directions, and [`step_laws`] of whole steps and
//! of many characters.
//!
//! What the movements amount to is said in real numbers, up to what rounding moves: [`figures`] are
//! the constants, [`estimates`] how roundings add up and [`direction_laws`] what directions are.
//! From there [`wish_laws`], [`speed_laws`], [`air_laws`], [`swim_laws`], [`brake_laws`],
//! [`gravity_laws`], [`slope_laws`] and [`limit_laws`] say what becomes of a velocity,
//! [`jump_laws`], [`leap_laws`], [`tac_laws`] and [`rebound_laws`] how a character leaves the
//! ground, a ledge or a wall, [`walk_laws`], [`path_laws`], [`ride_laws`], [`lift_laws`],
//! [`climb_laws`] and [`hang_laws`] where it goes, and [`shape_laws`] how large it is.
//! [`asked_laws`] say what is asked of the surroundings, [`choice_laws`] and [`course_laws`] what
//! follows from the replies, and [`clock_laws`] how time passes.
pub mod air_laws;
pub mod amounts;
pub mod asked_laws;
pub mod bounce_laws;
pub mod brake_laws;
pub mod casting;
pub mod choice_laws;
pub mod climb;
pub mod climb_laws;
pub mod clock;
pub mod clock_laws;
pub mod collider;
pub mod config;
pub mod context;
pub mod course_laws;
pub mod direction_laws;
pub mod estimates;
pub mod figures;
pub mod frame_laws;
pub mod gravity_laws;
pub mod grip;
pub mod ground;
pub mod hang_laws;
pub mod ieee;
pub mod jump;
pub mod jump_laws;
pub mod keeps;
pub mod laws;
pub mod leap_laws;
pub mod ledge;
pub mod length_laws;
pub mod lift_laws;
pub mod limit_laws;
pub mod locomotion;
pub mod mantle_laws;
pub mod motion;
pub mod motion_laws;
pub mod number_laws;
pub mod order;
pub mod path_laws;
pub mod reach_laws;
pub mod rebound_laws;
pub mod replay;
pub mod ride_laws;
pub mod rounding;
pub mod scalar;
pub mod shape_laws;
pub mod slope_laws;
pub mod speed_laws;
pub mod stance;
pub mod step;
pub mod step_laws;
pub mod stepper;
pub mod swim_laws;
pub mod tac_laws;
pub mod vector;
pub mod walk_laws;
pub mod wish_laws;
pub mod world;
