//! Laws of movement: what holds of every step, whatever the surroundings reply.
use crate::casting::{
    cast_move_model, closest_wall, group_casts, is_intersecting_model, move_character_model,
    snap_to_ground_model,
};
use crate::climb::{
    climbs_down, craning, handle_climbdown_model, mantling, update_crane_state_model,
    update_mantle_state_model,
};
use crate::clock::{lemma_span, span, Duration, Stopwatch, Time, LONGEST};
use crate::config::CharacterController;
use crate::context::{CharacterControllerState, Ctx, MoveHitData};
use crate::ground::{
    calculate_platform_movement_model, ground_movement_model, grounded_on, set_grounded_model,
    update_grounded_model,
};
use crate::ieee;
use crate::jump::{
    airborne, bounce_ready, bounce_speed, bounced, bounced_velocity, handle_bounce_model,
    handle_jump_model, handle_tac_model, into_wall, jump_speed, launched, ledge_jump,
    mirrored_velocity, tac_off, tac_ready, tac_wall_model, taking_off, MINUS_HUNDREDTH, TENTH,
};
use crate::keeps::{
    keeps, lemma_keeps_advance, lemma_keeps_handle_climbdown, lemma_keeps_prepare,
    lemma_keeps_step_body, lemma_keeps_update_grounded,
};
use crate::ledge::{
    available_crane_height_model, available_ledge_height_model, available_mantle_height_model,
    cast_probe_model, ledge_along_model, ledge_behind_model, ledge_floor_model, ledge_top_model,
    mantle_along_model, mantle_onto,
};
use crate::locomotion::{step_move_model, stepped_model};
use crate::motion::{
    air_accelerate_model, braked, finite_or_zero, forward, friction_drop, friction_model,
    friction_speed, gravity_finished, movement, right, surface_friction_model, valid_velocity,
    wish_speed, wish_velocity_3d_of, wish_velocity_of, THOUSANDTH,
};
use crate::number_laws::{
    law_difference_shrinks, law_product_finite, law_product_shrinks, law_quotient_finite,
    law_quotient_shrinks, law_ratio, law_root, law_root_of_square, law_square, law_sum_grows,
    lemma_one, lemma_over_infinite, lemma_product, lemma_quotient, lemma_units_ordered, size,
};
use crate::order::lemma_units_zero;
use crate::rounding::{lemma_nearest_zero, units, INFINITE};
use crate::scalar::{group_bits, num, Scalar, HALF, ONE, ZERO};
use crate::stance::{handle_crouching_model, slide_boost_at, sliding_updated};
use crate::step::{
    advance_model, begun, collider_global_transform_model, ended, prepare_model, settle_model,
    step_body_model, step_kcc_model, step_of,
};
use crate::stepper::{first_of, run_kcc_model, run_one_model, Outcome};
use crate::vector::{down, vec3, Vec2, Vec3};
use crate::world::{ask_seconds, group_asks, Contact, History, Step};
use vstd::arithmetic::power2::{lemma_pow2_pos, pow2};
use vstd::prelude::*;

verus! {

pub proof fn lemma_zero_square()
    ensures
        size(num(ZERO) * num(ZERO)) == 0,
        (num(ZERO) * num(ZERO)).is_finite(),
{
    lemma_one();
    law_product_shrinks(num(ZERO), num(ZERO));
}

/// Whether all parts of a vector are finite.
pub open spec fn finite(v: Vec3) -> bool {
    v.x.is_finite() && v.y.is_finite() && v.z.is_finite()
}

/// The squared length of a finite vector is a number that is not negative, and no smaller than the
/// square of any part.
pub proof fn lemma_length_squared(v: Vec3)
    requires
        finite(v),
    ensures
        num(ZERO).le(v.length_squared()),
        size(v.x * v.x) <= size(v.length_squared()),
        size(v.y * v.y) <= size(v.length_squared()),
        size(v.z * v.z) <= size(v.length_squared()),
{
    reveal(Vec3::spec_length_squared);
    reveal(Vec3::spec_dot);
    law_square(v.x);
    law_square(v.y);
    law_square(v.z);
    law_sum_grows(v.x * v.x, v.y * v.y);
    law_sum_grows(v.x * v.x + v.y * v.y, v.z * v.z);
}

proof fn lemma_limited_part(part: Scalar, squared: Scalar, max: Scalar)
    requires
        part.is_finite(),
        max.is_finite(),
        num(ZERO).le(squared),
        size(part * part) <= size(squared),
        (max * max).lt(squared),
    ensures
        (part.over(squared.sqrt()) * max).is_finite(),
{
    broadcast use group_bits;

    reveal(Scalar::spec_is_finite);
    reveal(Scalar::spec_lt);
    reveal(Scalar::spec_le);
    law_root(squared);
    law_square(part);
    law_square(max);
    lemma_one();
    let len = squared.sqrt();
    let q = part.over(len);
    assert(squared.is_finite() || size(len) == INFINITE) by {
        reveal(Scalar::spec_sqrt);
        reveal(ieee::root);
    }
    reveal(Scalar::spec_is_number);
    if size(len) == INFINITE {
        lemma_over_infinite(part, len);
        lemma_product(q, max);
        lemma_units_zero(0);
        lemma_pow2_pos(149);
        assert(units(size(q)) * units(size(max)) == 0) by (nonlinear_arith)
            requires
                units(size(q)) == 0,
        ;
        lemma_nearest_zero(pow2(149));
    } else if size(len) >= ONE {
        law_quotient_shrinks(part, len);
        law_product_finite(q, max);
    } else {
        law_quotient_finite(part, len);
        law_product_shrinks(q, max);
    }
}

/// A validated velocity is finite, whatever it was and whatever the highest speed is.
pub proof fn law_valid_velocity_is_finite(velocity: Vec3, max_speed: Scalar)
    ensures
        finite(valid_velocity(velocity, max_speed)),
{
    reveal(valid_velocity);
    lemma_one();
    let v = vec3(
        finite_or_zero(velocity.x),
        finite_or_zero(velocity.y),
        finite_or_zero(velocity.z),
    );
    lemma_length_squared(v);
    lemma_zero_square();
    reveal(Vec3::spec_clamp_length);
    let squared = v.length_squared();
    assert(!squared.lt(num(ZERO) * num(ZERO))) by {
        reveal(Scalar::spec_lt);
        reveal(Scalar::spec_le);
        broadcast use group_bits;

    }
    if (max_speed * max_speed).lt(squared) {
        assert(max_speed.is_finite()) by {
            broadcast use group_bits;

            reveal(Scalar::spec_is_finite);
            reveal(Scalar::spec_lt);
            reveal(Scalar::spec_le);
            reveal(Scalar::spec_mul);
            reveal(ieee::product);
        }
        lemma_limited_part(v.x, squared, max_speed);
        lemma_limited_part(v.y, squared, max_speed);
        lemma_limited_part(v.z, squared, max_speed);
        reveal(Vec3::spec_over);
        reveal(Vec3::spec_mul);
    }
}

/// A finite velocity within the highest speed is valid as it is.
pub proof fn law_valid_velocity_stays(velocity: Vec3, max_speed: Scalar)
    requires
        finite(velocity),
        !(max_speed * max_speed).lt(velocity.length_squared()),
    ensures
        valid_velocity(velocity, max_speed) == velocity,
{
    reveal(valid_velocity);
    lemma_length_squared(velocity);
    lemma_zero_square();
    reveal(Vec3::spec_clamp_length);
    assert(!velocity.length_squared().lt(num(ZERO) * num(ZERO))) by {
        reveal(Scalar::spec_lt);
        reveal(Scalar::spec_le);
        broadcast use group_bits;

    }
}

/// Whether a number is zero, or large enough that its square keeps all its digits.
pub open spec fn normal(a: Scalar) -> bool {
    size(a) == 0 || size(a) >= 0x2000_0000
}

proof fn lemma_shortened_part(part: Scalar, squared: Scalar, max: Scalar)
    requires
        part.is_finite(),
        normal(part),
        max.is_finite(),
        num(ZERO).lt(squared),
        size(part * part) <= size(squared),
    ensures
        size(part.over(squared.sqrt()) * max) <= size(max),
{
    broadcast use group_bits;

    reveal(Scalar::spec_is_finite);
    reveal(Scalar::spec_is_number);
    reveal(Scalar::spec_lt);
    reveal(Scalar::spec_le);
    lemma_one();
    law_root(squared);
    let len = squared.sqrt();
    let q = part.over(len);
    if size(len) == INFINITE {
        lemma_over_infinite(part, len);
    } else {
        if size(part) > 0 {
            law_root_of_square(part, squared);
        }
        law_ratio(part, len);
        assert(size(q) <= ONE);
    }
    law_product_shrinks(max, q);
    lemma_product(max, q);
    lemma_product(q, max);
    assert(units(size(q)) * units(size(max)) == units(size(max)) * units(size(q)))
        by (nonlinear_arith);
}

proof fn lemma_shortened(v: Vec3, max: Scalar)
    requires
        finite(v),
        normal(v.x),
        normal(v.y),
        normal(v.z),
        max.is_finite(),
        (max * max).lt(v.length_squared()),
    ensures
        size((v.over(v.length_squared().sqrt()) * max).x) <= size(max),
        size((v.over(v.length_squared().sqrt()) * max).y) <= size(max),
        size((v.over(v.length_squared().sqrt()) * max).z) <= size(max),
{
    reveal(Vec3::spec_over);
    reveal(Vec3::spec_mul);
    let squared = v.length_squared();
    lemma_length_squared(v);
    law_square(max);
    assert(num(ZERO).lt(squared)) by {
        broadcast use group_bits;

        reveal(Scalar::spec_lt);
        reveal(Scalar::spec_le);
    }
    lemma_shortened_part(v.x, squared, max);
    lemma_shortened_part(v.y, squared, max);
    lemma_shortened_part(v.z, squared, max);
}

/// A velocity that is too fast is shortened so that no part of it exceeds the highest speed. Parts
/// that are too small for their squares to keep all digits are left out.
pub proof fn law_too_fast_is_limited(velocity: Vec3, max_speed: Scalar)
    requires
        finite(velocity),
        normal(velocity.x),
        normal(velocity.y),
        normal(velocity.z),
        max_speed.is_finite(),
        (max_speed * max_speed).lt(velocity.length_squared()),
    ensures
        valid_velocity(velocity, max_speed).x.abs().le(max_speed.abs()),
        valid_velocity(velocity, max_speed).y.abs().le(max_speed.abs()),
        valid_velocity(velocity, max_speed).z.abs().le(max_speed.abs()),
{
    reveal(valid_velocity);
    lemma_length_squared(velocity);
    lemma_zero_square();
    reveal(Vec3::spec_clamp_length);
    assert(!velocity.length_squared().lt(num(ZERO) * num(ZERO))) by {
        reveal(Scalar::spec_lt);
        reveal(Scalar::spec_le);
        broadcast use group_bits;

    }
    lemma_shortened(velocity, max_speed);
    let v = valid_velocity(velocity, max_speed);
    lemma_abs(v.x, max_speed);
    lemma_abs(v.y, max_speed);
    lemma_abs(v.z, max_speed);
}

/// Two wishes together, as for swimming ahead and up at once, ask for no more along any axis
/// than one alone may. Parts that are too small for their squares to keep all digits are left out.
pub proof fn law_joint_wish_is_limited(wish: Vec3, speed: Scalar)
    requires
        finite(wish),
        normal(wish.x),
        normal(wish.y),
        normal(wish.z),
        speed.is_finite(),
        (speed * speed).lt(wish.length_squared()),
    ensures
        wish.clamp_length_max(speed).x.abs().le(speed.abs()),
        wish.clamp_length_max(speed).y.abs().le(speed.abs()),
        wish.clamp_length_max(speed).z.abs().le(speed.abs()),
{
    reveal(Vec3::spec_clamp_length_max);
    lemma_shortened(wish, speed);
    let v = wish.clamp_length_max(speed);
    lemma_abs(v.x, speed);
    lemma_abs(v.y, speed);
    lemma_abs(v.z, speed);
}

proof fn lemma_braked_part(part: Scalar, speed: Scalar, drop: Scalar)
    requires
        part.is_finite(),
        num(ZERO).lt(speed),
        num(ZERO).le(drop),
        !(speed - drop).max(num(ZERO)).same(speed),
    ensures
        size(part * (speed - drop).max(num(ZERO)).over(speed)) <= size(part),
{
    broadcast use group_bits;

    reveal(Scalar::spec_is_finite);
    reveal(Scalar::spec_is_number);
    reveal(Scalar::spec_lt);
    reveal(Scalar::spec_le);
    reveal(Scalar::spec_max);
    lemma_one();
    let left = (speed - drop).max(num(ZERO));
    if speed.is_finite() {
        law_difference_shrinks(speed, drop);
        assert(left.is_finite() && size(left) <= size(speed));
        law_ratio(left, speed);
        let factor = left.over(speed);
        law_product_shrinks(part, factor);
    } else {
        assert(left == num(ZERO)) by {
            reveal(Scalar::spec_sub);
            reveal(Scalar::spec_negated);
            reveal(Scalar::spec_same);
            reveal(ieee::sum);
        }
        lemma_over_infinite(left, speed);
        law_product_shrinks(part, left.over(speed));
    }
}

pub proof fn lemma_abs(a: Scalar, b: Scalar)
    requires
        b.is_finite(),
        size(a) <= size(b),
    ensures
        a.abs().le(b.abs()),
{
    broadcast use group_bits;

    reveal(Scalar::spec_is_finite);
    reveal(Scalar::spec_le);
    reveal(Scalar::spec_abs);
}

/// Braking never makes any part of a velocity greater.
pub proof fn law_braking_never_speeds_up(velocity: Vec3, speed: Scalar, drop: Scalar)
    requires
        finite(velocity),
        num(ZERO).lt(speed),
        num(ZERO).le(drop),
    ensures
        braked(velocity, speed, drop).x.abs().le(velocity.x.abs()),
        braked(velocity, speed, drop).y.abs().le(velocity.y.abs()),
        braked(velocity, speed, drop).z.abs().le(velocity.z.abs()),
{
    reveal(braked);
    reveal(Vec3::spec_mul);
    let v = braked(velocity, speed, drop);
    if !(speed - drop).max(num(ZERO)).same(speed) {
        lemma_braked_part(velocity.x, speed, drop);
        lemma_braked_part(velocity.y, speed, drop);
        lemma_braked_part(velocity.z, speed, drop);
    }
    lemma_abs(v.x, velocity.x);
    lemma_abs(v.y, velocity.y);
    lemma_abs(v.z, velocity.z);
}

/// The speed that friction works on is a number that is not negative.
pub proof fn lemma_friction_speed(c: Ctx, speed: Scalar)
    requires
        finite(c.velocity),
        friction_speed(c) == Some(speed),
    ensures
        num(ZERO).le(speed),
{
    reveal(Vec2::spec_length);
    reveal(Vec2::spec_dot);
    reveal(Vec3::spec_length);
    reveal(Vec3::spec_length_squared);
    lemma_length_squared(c.velocity);
    law_root(c.velocity.length_squared());
    law_square(c.velocity.x);
    law_square(c.velocity.z);
    law_sum_grows(c.velocity.x * c.velocity.x, c.velocity.z * c.velocity.z);
    law_root(c.velocity.x * c.velocity.x + c.velocity.z * c.velocity.z);
}

/// Friction never speeds a character up along any axis, as long as what it takes away is not
/// negative.
pub proof fn law_friction_never_speeds_up(h: History, s: Step, default_friction: Scalar, time: Time)
    requires
        finite(s.ctx.velocity),
        friction_speed(s.ctx) matches Some(speed) ==> num(ZERO).le(
            friction_drop(
                s.ctx,
                speed,
                surface_friction_model(h, s, default_friction).1,
                time.delta_secs,
            ),
        ),
    ensures
        friction_model(h, s, default_friction, time).ctx.velocity.x.abs().le(
            s.ctx.velocity.x.abs(),
        ),
        friction_model(h, s, default_friction, time).ctx.velocity.y.abs().le(
            s.ctx.velocity.y.abs(),
        ),
        friction_model(h, s, default_friction, time).ctx.velocity.z.abs().le(
            s.ctx.velocity.z.abs(),
        ),
{
    reveal(friction_model);
    let v = s.ctx.velocity;
    lemma_abs(v.x, v.x);
    lemma_abs(v.y, v.y);
    lemma_abs(v.z, v.z);
    if let Some(speed) = friction_speed(s.ctx) {
        lemma_friction_speed(s.ctx, speed);
        if !speed.lt(num(THOUSANDTH)) {
            let drop = friction_drop(
                s.ctx,
                speed,
                surface_friction_model(h, s, default_friction).1,
                time.delta_secs,
            );
            assert(num(ZERO).lt(speed)) by {
                broadcast use group_bits;

                reveal(Scalar::spec_lt);
                reveal(Scalar::spec_le);
            }
            law_braking_never_speeds_up(v, speed, drop);
        }
    }
}

/// Friction leaves alone what hardly moves, what flies, and everything but the velocity.
pub proof fn law_friction_at_rest(h: History, s: Step, default_friction: Scalar, time: Time)
    ensures
        friction_speed(s.ctx) matches Some(speed) ==> (speed.lt(num(THOUSANDTH)) ==> friction_model(
            h,
            s,
            default_friction,
            time,
        ) == s),
        friction_speed(s.ctx) is None ==> friction_model(h, s, default_friction, time) == s,
        friction_model(h, s, default_friction, time).ctx.with_velocity(s.ctx.velocity) == s.ctx,
{
    broadcast use group_asks;

    reveal(friction_model);
    reveal(surface_friction_model);
}

/// Steering in the air keeps the vertical velocity, and everything but the velocity.
pub proof fn law_air_control_keeps_fall(
    h: History,
    s: Step,
    wish_velocity: Vec3,
    accel: Scalar,
    time: Time,
)
    ensures
        air_accelerate_model(h, s, wish_velocity, accel, time).ctx.velocity.y == s.ctx.velocity.y,
        air_accelerate_model(h, s, wish_velocity, accel, time).ctx.with_velocity(s.ctx.velocity)
            == s.ctx,
        air_accelerate_model(h, s, wish_velocity, accel, time).transform == s.transform,
{
    broadcast use group_asks;

    reveal(air_accelerate_model);
}

/// Ground that is stood on ends a mantle and a fall; ground that is left is gone.
pub proof fn law_ground_contact(
    h: History,
    s: Step,
    new_ground: Option<MoveHitData>,
    time: Time,
)
    ensures
        ({
            let t = set_grounded_model(h, s, new_ground, time);
            &&& t.ctx.state.grounded == new_ground
            &&& new_ground is Some ==> t.ctx.state.mantle is None && t.ctx.velocity.y == num(ZERO)
            &&& t.transform == s.transform
        }),
{
    broadcast use group_asks;

    reveal(set_grounded_model);
    reveal(ground_movement_model);
    reveal(calculate_platform_movement_model);
    reveal(grounded_on);
}

/// A landing remembers its horizontal speed and starts the clock of the landing; nothing else
/// does.
pub proof fn law_landing(h: History, s: Step, new_ground: Option<MoveHitData>, time: Time)
    ensures
        ({
            let t = set_grounded_model(h, s, new_ground, time);
            if s.ctx.state.grounded is None && new_ground is Some {
                &&& t.ctx.state.land_speed == s.ctx.velocity.xz().length()
                &&& t.ctx.state.last_land == s.ctx.state.last_land.restarted()
            } else {
                &&& t.ctx.state.land_speed == s.ctx.state.land_speed
                &&& t.ctx.state.last_land == s.ctx.state.last_land
            }
        }),
{
    broadcast use group_asks;

    reveal(set_grounded_model);
    reveal(ground_movement_model);
    reveal(calculate_platform_movement_model);
    reveal(grounded_on);
}

/// A move over a step ends where the direct slide ends, with its velocity and its touches; or it
/// ends strictly farther away horizontally, keeps the vertical velocity of the direct slide and
/// counts as a step up.
pub proof fn law_step_or_direct(h: History, s: Step, time: Time)
    ensures
        ({
            let direct = move_character_model(h, s, time);
            let t = step_move_model(h, s, time);
            let origin = s.transform.translation.xz();
            ||| {
                &&& t.transform.translation == direct.transform.translation
                &&& t.ctx.velocity == direct.ctx.velocity
                &&& t.ctx.touching == direct.ctx.touching
            }
            ||| {
                &&& !t.transform.translation.xz().distance_squared(origin).le(
                    direct.transform.translation.xz().distance_squared(origin),
                )
                &&& t.ctx.velocity.y == direct.ctx.velocity.y
                &&& t.ctx.state.last_step_up.elapsed == span(0)
            }
        }),
{
    reveal(step_move_model);
    reveal(stepped_model);
    reveal(Stopwatch::spec_restarted);
    reveal(Stopwatch::spec_with_elapsed);
}

/// Looking for a ledge changes neither the character nor its body, whatever is found.
pub proof fn law_ledge_probe_is_harmless(
    h: History,
    s: Step,
    wish_velocity: Vec3,
    min_depth: Scalar,
    min_cos: Scalar,
    max_height: Scalar,
    time: Time,
)
    ensures
        available_ledge_height_model(
            h,
            s,
            wish_velocity,
            min_depth,
            min_cos,
            max_height,
            time,
        ).0.ctx == s.ctx,
        available_ledge_height_model(
            h,
            s,
            wish_velocity,
            min_depth,
            min_cos,
            max_height,
            time,
        ).0.transform == s.transform,
{
    broadcast use group_casts;

    reveal(available_ledge_height_model);
    reveal(ledge_along_model);
    reveal(ledge_behind_model);
    reveal(ledge_top_model);
    reveal(ledge_floor_model);
    reveal(cast_probe_model);
}

/// Looking for a mantle changes neither the character nor its body, whatever is found.
pub proof fn law_mantle_probe_is_harmless(h: History, s: Step, wish_velocity: Vec3, time: Time)
    ensures
        available_mantle_height_model(h, s, wish_velocity, time).0.ctx == s.ctx,
        available_mantle_height_model(h, s, wish_velocity, time).0.transform == s.transform,
{
    broadcast use group_casts;

    reveal(available_mantle_height_model);
    reveal(mantle_along_model);
    reveal(ledge_top_model);
    reveal(ledge_floor_model);
    reveal(cast_probe_model);
}

/// A mantle is only found where something is left to climb onto a floor that can be walked on.
pub proof fn law_mantle_has_height(h: History, s: Step, wish_velocity: Vec3, time: Time)
    ensures
        available_mantle_height_model(h, s, wish_velocity, time).1 matches Some((state, _))
            ==> !state.height_left.lt(num(ZERO)),
{
    reveal(available_mantle_height_model);
    reveal(mantle_along_model);
    reveal(mantle_onto);
}

/// A crane that starts spends the presses for a crane, a jump, a mantle and a tic tac, and ends a
/// mantle; otherwise no press is spent.
pub proof fn law_crane_spends_presses(h: History, s: Step, wish_velocity: Vec3, time: Time)
    ensures
        ({
            let t = update_crane_state_model(h, s, wish_velocity, time);
            if s.ctx.input.craned is Some && t.ctx.input.craned is None {
                &&& t.ctx.input.jumped is None
                &&& t.ctx.input.mantled is None
                &&& t.ctx.input.tac is None
                &&& t.ctx.state.mantle is None
                &&& t.ctx.state.crane_height_left is Some
            } else {
                t.ctx.input == s.ctx.input
            }
        }),
{
    reveal(update_crane_state_model);
    reveal(available_crane_height_model);
    reveal(craning);
    law_ledge_probe_is_harmless(
        h,
        s,
        wish_velocity,
        s.ctx.cfg.min_crane_ledge_space,
        s.ctx.cfg.min_crane_cos,
        s.ctx.cfg.crane_height,
        time,
    );
}

/// A mantle that starts spends the presses for a crane, a mantle and a jump; otherwise no press is
/// spent.
pub proof fn law_mantle_spends_presses(h: History, s: Step, wish_velocity: Vec3, time: Time)
    ensures
        ({
            let t = update_mantle_state_model(h, s, wish_velocity, time);
            if s.ctx.state.mantle is None && t.ctx.state.mantle is Some {
                &&& t.ctx.input.craned is None
                &&& t.ctx.input.mantled is None
                &&& t.ctx.input.jumped is None
                &&& t.ctx.mantle is Some
            } else {
                t.ctx.input == s.ctx.input
            }
        }),
{
    reveal(update_mantle_state_model);
    reveal(mantling);
    law_mantle_probe_is_harmless(h, s, wish_velocity, time);
}

/// When it is decided how to move, a character that cranes does not mantle.
pub proof fn law_crane_rules_out_mantle(h: History, s: Step, wish_velocity: Vec3, time: Time)
    ensures
        ({
            let t = update_mantle_state_model(
                h,
                update_crane_state_model(h, s, wish_velocity, time),
                wish_velocity,
                time,
            );
            t.ctx.state.crane_height_left is Some ==> t.ctx.state.mantle is None
        }),
{
    let s1 = update_crane_state_model(h, s, wish_velocity, time);
    reveal(update_mantle_state_model);
    reveal(mantling);
    law_mantle_probe_is_harmless(h, s1, wish_velocity, time);
}

/// Whether a press is older than its buffer.
pub open spec fn stale(press: Option<Stopwatch>, buffer: Duration) -> bool {
    press matches Some(press) && buffer.lt(press.elapsed)
}

/// A press that is older than its buffer does nothing.
pub proof fn law_stale_presses(h: History, s: Step, wish_velocity: Vec3, time: Time)
    ensures
        stale(s.ctx.input.craned, s.ctx.cfg.crane_input_buffer) ==> update_crane_state_model(
            h,
            s,
            wish_velocity,
            time,
        ) == s,
        stale(s.ctx.input.mantled, s.ctx.cfg.mantle_input_buffer)
            && s.ctx.state.crane_height_left is None ==> update_mantle_state_model(
            h,
            s,
            wish_velocity,
            time,
        ) == s,
        stale(s.ctx.input.jumped, s.ctx.cfg.jump_input_buffer) && !airborne(s.ctx)
            ==> handle_jump_model(h, s, wish_velocity, time) == s,
        stale(s.ctx.input.tac, s.ctx.cfg.tac_input_buffer) ==> handle_tac_model(
            h,
            s,
            wish_velocity,
            time,
        ) == (s, None::<Vec3>),
        stale(s.ctx.input.bounced, s.ctx.cfg.bounce_input_buffer) ==> handle_bounce_model(h, s)
            == s,
        stale(s.ctx.input.climbdown, s.ctx.cfg.mantle_input_buffer) ==> handle_climbdown_model(
            h,
            s,
            wish_velocity,
            time,
        ) == s,
{
    reveal(update_crane_state_model);
    reveal(update_mantle_state_model);
    reveal(handle_jump_model);
    reveal(handle_tac_model);
    reveal(tac_ready);
    reveal(handle_bounce_model);
    reveal(bounce_ready);
    reveal(handle_climbdown_model);
    reveal(climbs_down);
}

/// Neither a bounce nor a tic tac nor a slide starts before its cooldown is over.
pub proof fn law_cooldowns(h: History, s: Step, wish_velocity: Vec3, time: Time)
    ensures
        s.ctx.state.last_bounce.elapsed.lt(s.ctx.cfg.bounce_cooldown) ==> handle_bounce_model(h, s)
            == s,
        s.ctx.state.last_tac.elapsed.lt(s.ctx.cfg.tac_cooldown) ==> handle_tac_model(
            h,
            s,
            wish_velocity,
            time,
        ) == (s, None::<Vec3>),
        s.ctx.state.last_slide.elapsed.lt(s.ctx.cfg.slide_cooldown) && !s.ctx.state.sliding
            ==> sliding_updated(s.ctx) == s.ctx,
{
    reveal(handle_bounce_model);
    reveal(bounce_ready);
    reveal(handle_tac_model);
    reveal(tac_ready);
    reveal(sliding_updated);
}

/// Snapping to the ground moves the body only, and restarts no clock but that of steps down.
pub proof fn law_snap_moves_body_only(h: History, s: Step)
    ensures
        ({
            let t = snap_to_ground_model(h, s);
            let state = CharacterControllerState {
                last_step_down: s.ctx.state.last_step_down,
                ..t.ctx.state
            };
            t.ctx.with_state(state) == s.ctx
        }),
{
    broadcast use group_casts;

    reveal(snap_to_ground_model);
}

/// Without a press for a jump or a tic tac nothing is launched.
pub proof fn law_no_press_no_jump(h: History, s: Step, wish_velocity: Vec3, time: Time)
    requires
        s.ctx.input.jumped is None,
        s.ctx.input.tac is None,
    ensures
        handle_jump_model(h, s, wish_velocity, time) == s,
{
    reveal(handle_jump_model);
    reveal(handle_tac_model);
    reveal(tac_ready);
    reveal(ledge_jump);
}

/// A jump off the ground leaves the ground, spends the presses for a jump and a tic tac, and uses
/// up the time in which a jump would still work.
pub proof fn law_jump_leaves_ground(h: History, s: Step, wish_velocity: Vec3, time: Time)
    requires
        !airborne(s.ctx),
        s.ctx.input.jumped matches Some(press) && !s.ctx.cfg.jump_input_buffer.lt(press.elapsed),
    ensures
        ({
            let t = handle_jump_model(h, s, wish_velocity, time);
            &&& t.ctx.state.grounded is None
            &&& t.ctx.input.jumped is None
            &&& t.ctx.input.tac is None
            &&& t.ctx.state.last_ground.elapsed == s.ctx.cfg.coyote_time
            &&& t.ctx.state.last_ground.paused == s.ctx.state.last_ground.paused
            &&& t.ctx.state.last_jump.elapsed == span(0)
            &&& t.ctx.state.last_tac.elapsed == span(0)
        }),
{
    broadcast use group_asks;

    reveal(handle_jump_model);
    reveal(set_grounded_model);
    reveal(ground_movement_model);
    reveal(calculate_platform_movement_model);
    reveal(grounded_on);
    reveal(taking_off);
    reveal(launched);
    reveal(Stopwatch::spec_restarted);
    reveal(Stopwatch::spec_with_elapsed);
}

/// After a jump off the ground, any later step that does not find ground finds the character too
/// far off it to jump again.
pub proof fn law_no_second_jump(c: Ctx, delta: Duration)
    requires
        c.state.grounded is None,
        c.state.last_ground.elapsed == c.cfg.coyote_time,
        !c.state.last_ground.paused,
        delta.nanos() > 0,
        c.cfg.coyote_time.nanos() < LONGEST,
    ensures
        airborne(begun(c, delta)),
{
    broadcast use lemma_span;

    reveal(begun);
    reveal(Stopwatch::spec_ticked);
    reveal(Duration::spec_plus);
    reveal(Duration::spec_lt);
}

/// A bounce depends on nothing but the velocity, the velocity before the last slide and the
/// tuning: neither on the keys nor on the look.
pub proof fn law_bounce_ignores_input(a: Ctx, b: Ctx, normal: Vec3)
    requires
        a.velocity == b.velocity,
        a.state.last_velocity == b.state.last_velocity,
        a.cfg == b.cfg,
    ensures
        bounced_velocity(a, normal) == bounced_velocity(b, normal),
{
    reveal(bounced_velocity);
    reveal(mirrored_velocity);
}

/// The greater of two is at least each of them that is a number.
pub proof fn lemma_max(a: Scalar, b: Scalar)
    ensures
        a.is_number() ==> a.le(a.max(b)),
        b.is_number() ==> b.le(a.max(b)),
{
    reveal(Scalar::spec_is_number);
    reveal(Scalar::spec_le);
    reveal(Scalar::spec_lt);
    reveal(Scalar::spec_max);
}

/// A bounce is at least as fast as the smallest bounce. Where the character leaves the wall slower
/// than that, exactly what is missing is added off the wall; else the velocity stays. Then it goes
/// up with at least the speed of its launch, without slowing an ascent.
pub proof fn law_bounce_speeds(c: Ctx, normal: Vec3)
    ensures
        ({
            let away = c.velocity.dot(normal);
            let speed = bounce_speed(c.cfg, into_wall(c, normal));
            if away.lt(speed) {
                mirrored_velocity(c, normal) == c.velocity + normal * (speed - away)
            } else {
                mirrored_velocity(c, normal) == c.velocity
            }
        }),
        c.cfg.bounce_min_speed.is_number() ==> c.cfg.bounce_min_speed.le(
            bounce_speed(c.cfg, into_wall(c, normal)),
        ),
        mirrored_velocity(c, normal).y.is_number() ==> mirrored_velocity(c, normal).y.le(
            bounced_velocity(c, normal).y,
        ),
        (jump_speed(c.cfg) * c.cfg.bounce_jump_factor).is_number() ==> (jump_speed(c.cfg)
            * c.cfg.bounce_jump_factor).le(bounced_velocity(c, normal).y),
        bounced_velocity(c, normal).x == mirrored_velocity(c, normal).x,
        bounced_velocity(c, normal).z == mirrored_velocity(c, normal).z,
{
    reveal(mirrored_velocity);
    reveal(bounced_velocity);
    reveal(bounce_speed);
    lemma_max(c.cfg.bounce_restitution.negated() * into_wall(c, normal), c.cfg.bounce_min_speed);
    lemma_max(
        mirrored_velocity(c, normal).y,
        jump_speed(c.cfg) * c.cfg.bounce_jump_factor,
    );
}

/// A bounce spends its press and restarts its clock, and there is none without a fresh press.
pub proof fn law_bounce_spends_press(h: History, s: Step)
    ensures
        ({
            let t = handle_bounce_model(h, s);
            if s.ctx.input.bounced is Some && t.ctx.input.bounced is None {
                t.ctx.state.last_bounce.elapsed == span(0)
            } else {
                t.ctx == s.ctx
            }
        }),
{
    broadcast use group_casts;

    reveal(handle_bounce_model);
    reveal(bounce_ready);
    reveal(bounced);
    reveal(Stopwatch::spec_restarted);
    reveal(Stopwatch::spec_with_elapsed);
}

/// A character crouches when that is asked for, and as long as it cannot stand up.
pub proof fn law_crouching(h: History, s: Step)
    ensures
        handle_crouching_model(h, s).ctx == s.ctx.with_crouching(
            s.ctx.input.crouched || (s.ctx.state.crouching && is_intersecting_model(
                h,
                s.with_ctx(s.ctx.with_crouching(false)),
            ).1),
        ),
{
    broadcast use group_casts;

    reveal(handle_crouching_model);
}

/// A slide that starts at the highest boosted speed, or faster, is not boosted.
pub proof fn law_slide_boost_fades(cfg: CharacterController, speed: Scalar)
    requires
        speed.is_finite(),
        cfg.slide_boost.is_finite(),
        num(ZERO).lt(cfg.slide_boost_max_speed),
        cfg.slide_boost_max_speed.le(speed),
    ensures
        slide_boost_at(cfg, speed).same(num(ZERO)),
{
    broadcast use group_bits;

    reveal(slide_boost_at);
    reveal(Scalar::spec_is_finite);
    reveal(Scalar::spec_lt);
    reveal(Scalar::spec_le);
    reveal(Scalar::spec_same);
    reveal(Scalar::spec_max);
    lemma_one();
    let ratio = speed.over(cfg.slide_boost_max_speed);
    law_ratio(speed, cfg.slide_boost_max_speed);
    lemma_quotient(speed, cfg.slide_boost_max_speed);
    let left = (num(ONE) - ratio).max(num(ZERO));
    assert(size(left) == 0) by {
        reveal(Scalar::spec_sub);
        reveal(Scalar::spec_negated);
        reveal(ieee::sum);
        lemma_units_ordered(ONE as nat, size(ratio));
    }
    lemma_product(cfg.slide_boost, left);
    lemma_units_zero(0);
    lemma_pow2_pos(149);
    assert(units(size(cfg.slide_boost)) * units(size(left)) == 0) by (nonlinear_arith)
        requires
            units(size(left)) == 0,
    ;
    lemma_nearest_zero(pow2(149));
}

/// A slide ends as soon as the character stands, and starts on the ground only. One that goes on
/// changes nothing.
pub proof fn law_sliding(c: Ctx)
    ensures
        sliding_updated(c).state.sliding && c.state.sliding ==> sliding_updated(c) == c,
        !sliding_updated(c).state.sliding ==> sliding_updated(c).velocity == c.velocity,
        sliding_updated(c).state.sliding ==> c.state.crouching
            && sliding_updated(c).state.crouching,
        c.state.sliding ==> sliding_updated(c).velocity == c.velocity
            && sliding_updated(c).state.last_slide == c.state.last_slide,
        sliding_updated(c).state.sliding && !c.state.sliding ==> c.state.grounded is Some
            && sliding_updated(c).state.last_slide.elapsed == span(0),
        sliding_updated(c).velocity.y == c.velocity.y,
{
    reveal(sliding_updated);
    reveal(Stopwatch::spec_restarted);
    reveal(Stopwatch::spec_with_elapsed);
}

pub proof fn lemma_grounded_without_mantle(h: History, s: Step, time: Time)
    ensures
        update_grounded_model(h, s, time).ctx.state.grounded is Some ==> update_grounded_model(
            h,
            s,
            time,
        ).ctx.state.mantle is None,
{
    reveal(update_grounded_model);
    reveal(set_grounded_model);
    reveal(grounded_on);
}

pub proof fn lemma_climbdown_off_ground(h: History, s: Step, wish_velocity: Vec3, time: Time)
    ensures
        handle_climbdown_model(h, s, wish_velocity, time).ctx.state.grounded
            == s.ctx.state.grounded,
        s.ctx.state.grounded is Some ==> handle_climbdown_model(h, s, wish_velocity, time) == s,
{
    broadcast use group_casts;

    reveal(handle_climbdown_model);
    reveal(climbs_down);
    reveal(mantling);
    let drop = down() * s.ctx.cfg.crane_height;
    let (t, _) = cast_move_model(h, s, drop);
    law_mantle_probe_is_harmless(
        h,
        t.with_translation(s.transform.translation + drop),
        wish_velocity.negated(),
        time,
    );
}

/// A step that ends on the ground ends with the ground's vertical velocity, with the clock of the
/// ground at zero and without a mantle.
pub proof fn law_step_ends_on_ground(h: History, s: Step, default_friction: Scalar, time: Time)
    ensures
        ({
            let t = step_body_model(h, s, default_friction, time);
            t.ctx.state.grounded is Some ==> {
                &&& t.ctx.velocity.y == t.ctx.state.platform_velocity.y
                &&& t.ctx.state.last_ground.elapsed == span(0)
                &&& t.ctx.state.mantle is None
            }
        }),
{
    reveal(step_body_model);
    reveal(settle_model);
    reveal(ended);
    reveal(gravity_finished);
    reveal(Stopwatch::spec_restarted);
    reveal(Stopwatch::spec_with_elapsed);
    let s1 = prepare_model(h, s, time);
    let wish_velocity = wish_velocity_of(s1.ctx);
    let s2 = advance_model(
        h,
        s1,
        wish_velocity,
        wish_velocity_3d_of(s1.ctx),
        default_friction,
        time,
    );
    let s3 = update_grounded_model(h, s2, time);
    lemma_grounded_without_mantle(h, s2, time);
    lemma_climbdown_off_ground(h, s3, wish_velocity, time);
}

/// A step ends with a finite velocity; on the ground the vertical part is the ground's.
pub proof fn law_step_ends_finite(h: History, s: Step, default_friction: Scalar, time: Time)
    ensures
        ({
            let t = step_body_model(h, s, default_friction, time);
            &&& t.ctx.velocity.x.is_finite()
            &&& t.ctx.velocity.z.is_finite()
            &&& t.ctx.state.grounded is None ==> t.ctx.velocity.y.is_finite()
        }),
{
    reveal(step_body_model);
    reveal(settle_model);
    reveal(ended);
    reveal(gravity_finished);
    let s1 = prepare_model(h, s, time);
    let wish_velocity = wish_velocity_of(s1.ctx);
    let s2 = advance_model(
        h,
        s1,
        wish_velocity,
        wish_velocity_3d_of(s1.ctx),
        default_friction,
        time,
    );
    let s3 = update_grounded_model(h, s2, time);
    let s4 = if s2.ctx.state.grounded is Some {
        handle_climbdown_model(h, s3, wish_velocity, time)
    } else {
        s3
    };
    lemma_keeps_prepare(h, s, time);
    lemma_keeps_advance(
        h,
        s1,
        wish_velocity,
        wish_velocity_3d_of(s1.ctx),
        default_friction,
        time,
    );
    lemma_keeps_update_grounded(h, s2, time);
    lemma_keeps_handle_climbdown(h, s3, wish_velocity, time);
    let max_speed = s.ctx.cfg.max_speed;
    let valid = valid_velocity(s4.ctx.velocity, max_speed);
    law_valid_velocity_is_finite(s4.ctx.velocity, max_speed);
    law_valid_velocity_is_finite(
        valid.with_y(valid.y - s4.ctx.cfg.gravity * num(HALF) * time.delta_secs),
        max_speed,
    );
}

/// A step leaves the tuning, the measures, the water, the look, the colliders and the direction
/// that is asked for as they are; and a character whose collider is nowhere is left alone.
pub proof fn law_step_keeps(h: History, s: Step, default_friction: Scalar, time: Time)
    ensures
        ({
            let (t, stepped) = step_kcc_model(h, s, default_friction, time);
            &&& keeps(s.ctx, Ctx { transform: s.ctx.transform, ..t.ctx })
            &&& !stepped ==> t.ctx == s.ctx
        }),
{
    broadcast use group_asks;
    broadcast use lemma_keeps_step_body;

    reveal(step_kcc_model);
    reveal(collider_global_transform_model);
}

/// Stepping one character changes that character only, and nothing where there is none.
pub proof fn law_one_character(
    h: History,
    at: nat,
    ctxs: Seq<Ctx>,
    entity: u64,
    fixed_delta: Duration,
    default_friction: Scalar,
)
    ensures
        ({
            let (pass, outcome) = run_one_model(
                h,
                at,
                ctxs,
                entity,
                fixed_delta,
                default_friction,
            );
            &&& pass.done.len() == ctxs.len()
            &&& forall|j: int|
                0 <= j < ctxs.len() && ctxs[j].entity != entity ==> #[trigger] pass.done[j]
                    == ctxs[j]
            &&& outcome == Outcome::NoCharacter <==> forall|j: int|
                0 <= j < ctxs.len() ==> (#[trigger] ctxs[j]).entity != entity
            &&& outcome != Outcome::Stepped ==> pass.done == ctxs
        }),
{
    broadcast use group_asks;

    reveal(run_one_model);
    lemma_first_of(ctxs, entity);
    if let Some(i) = first_of(ctxs, entity) {
        let (s1, delta_secs) = ask_seconds(h, step_of(at, true, ctxs[i]), fixed_delta);
        let time = Time { delta: fixed_delta, delta_secs };
        law_step_keeps(h, s1, default_friction, time);
        let (s2, stepped) = step_kcc_model(h, s1, default_friction, time);
        if !stepped {
            assert(ctxs.update(i, s2.ctx) =~= ctxs);
        }
    }
}

proof fn lemma_first_of(ctxs: Seq<Ctx>, entity: u64)
    ensures
        match first_of(ctxs, entity) {
            Some(i) => 0 <= i < ctxs.len() && ctxs[i].entity == entity,
            None => forall|j: int| 0 <= j < ctxs.len() ==> (#[trigger] ctxs[j]).entity != entity,
        },
    decreases ctxs.len(),
{
    if ctxs.len() > 0 {
        let rest = ctxs.drop_last();
        lemma_first_of(rest, entity);
        assert forall|j: int| 0 <= j < ctxs.len() && first_of(ctxs, entity) is None implies (
        #[trigger] ctxs[j]).entity != entity by {
            if j < rest.len() {
                assert(rest[j] == ctxs[j]);
            }
        }
    }
}

/// Stepping a single character by hand does what stepping all characters does, once the length of
/// the step in seconds is known.
pub proof fn law_alone(
    h: History,
    at: nat,
    c: Ctx,
    fixed_delta: Duration,
    default_friction: Scalar,
)
    requires
        at < h.len(),
        h[at as int] is Seconds,
        h[at as int]->Seconds_duration == fixed_delta,
    ensures
        run_one_model(h, at, seq![c], c.entity, fixed_delta, default_friction).0 == run_kcc_model(
            h,
            at + 1,
            seq![c],
            default_friction,
            Time { delta: fixed_delta, delta_secs: h[at as int]->Seconds_reply },
        ).0,
{
    let ctxs = seq![c];
    reveal(run_one_model);
    reveal(ask_seconds);
    assert(ctxs.drop_last() =~= Seq::empty());
    assert(ctxs.last() == c);
    assert(first_of(ctxs.drop_last(), c.entity) is None);
    assert(first_of(ctxs, c.entity) == Some(0int));
    let time = Time { delta: fixed_delta, delta_secs: h[at as int]->Seconds_reply };
    let empty = run_kcc_model(h, at + 1, ctxs.drop_last(), default_friction, time).0;
    assert(empty.done =~= Seq::empty());
    let (s, _) = step_kcc_model(h, step_of(at + 1, true, c), default_friction, time);
    assert(ctxs.update(0, s.ctx) =~= empty.done.push(s.ctx));
}

/// Where the pass over all characters starts with the one at `i`.
pub open spec fn turn_of(
    h: History,
    at: nat,
    ctxs: Seq<Ctx>,
    i: int,
    default_friction: Scalar,
    time: Time,
) -> Step {
    let before = run_kcc_model(h, at, ctxs.take(i), default_friction, time).0;
    step_of(before.at, before.ok, ctxs[i])
}

/// Stepping all characters steps each of them once, in order, and each from its own state alone.
pub proof fn law_every_character(
    h: History,
    at: nat,
    ctxs: Seq<Ctx>,
    default_friction: Scalar,
    time: Time,
)
    ensures
        ({
            let (pass, results) = run_kcc_model(h, at, ctxs, default_friction, time);
            &&& pass.done.len() == ctxs.len()
            &&& results.len() == ctxs.len()
            &&& forall|i: int|
                #![trigger pass.done[i]]
                #![trigger results[i]]
                0 <= i < ctxs.len() ==> {
                    let (s, stepped) = step_kcc_model(
                        h,
                        turn_of(h, at, ctxs, i, default_friction, time),
                        default_friction,
                        time,
                    );
                    pass.done[i] == s.ctx && results[i] == stepped
                }
        }),
    decreases ctxs.len(),
{
    if ctxs.len() > 0 {
        let rest = ctxs.drop_last();
        law_every_character(h, at, rest, default_friction, time);
        let (pass, results) = run_kcc_model(h, at, ctxs, default_friction, time);
        let (before, earlier) = run_kcc_model(h, at, rest, default_friction, time);
        assert(ctxs.take(ctxs.len() - 1) =~= rest);
        assert forall|i: int|
            #![trigger pass.done[i]]
            #![trigger results[i]]
            0 <= i < ctxs.len() implies {
            let (s, stepped) = step_kcc_model(
                h,
                turn_of(h, at, ctxs, i, default_friction, time),
                default_friction,
                time,
            );
            pass.done[i] == s.ctx && results[i] == stepped
        } by {
            if i < rest.len() {
                assert(rest.take(i) =~= ctxs.take(i));
                assert(pass.done[i] == before.done[i]);
                assert(results[i] == earlier[i]);
            }
        }
    }
}

/// The wall that is picked is one of the contacts, close enough to level; there is one exactly if
/// any contact is; and among contacts of known depth it is the least deep.
pub proof fn law_closest_wall(contacts: Seq<Contact>, min_walk_cos: Scalar)
    ensures
        match closest_wall(contacts, min_walk_cos) {
            Some(wall) => {
                &&& contacts.contains(wall)
                &&& wall.normal.y.abs().lt(min_walk_cos)
                &&& (forall|i: int|
                    0 <= i < contacts.len() ==> (#[trigger] contacts[i]).penetration.is_number())
                    ==> forall|i: int|
                    0 <= i < contacts.len() && (#[trigger] contacts[i]).normal.y.abs().lt(
                        min_walk_cos,
                    ) ==> wall.penetration.le(contacts[i].penetration)
            },
            None => forall|i: int|
                0 <= i < contacts.len() ==> !(#[trigger] contacts[i]).normal.y.abs().lt(
                    min_walk_cos,
                ),
        },
    decreases contacts.len(),
{
    if contacts.len() > 0 {
        let rest = contacts.drop_last();
        let next = contacts.last();
        law_closest_wall(rest, min_walk_cos);
        assert forall|i: int| 0 <= i < rest.len() implies #[trigger] rest[i] == contacts[i] by {}
        assert(contacts[contacts.len() - 1] == next);
        if let Some(wall) = closest_wall(rest, min_walk_cos) {
            let i = choose|i: int| 0 <= i < rest.len() && rest[i] == wall;
            assert(contacts[i] == wall);
            assert(contacts.contains(wall));
        }
        assert(contacts.contains(next));
        reveal(Scalar::spec_is_number);
        reveal(Scalar::spec_lt);
        reveal(Scalar::spec_le);
        if let Some(wall) = closest_wall(contacts, min_walk_cos) {
            if forall|i: int|
                0 <= i < contacts.len() ==> (#[trigger] contacts[i]).penetration.is_number() {
                assert forall|i: int|
                    0 <= i < contacts.len() && (#[trigger] contacts[i]).normal.y.abs().lt(
                        min_walk_cos,
                    ) implies wall.penetration.le(contacts[i].penetration) by {
                    if i < rest.len() {
                        assert(rest[i] == contacts[i]);
                    }
                }
            }
        } else {
            assert forall|i: int| 0 <= i < contacts.len() implies !(
            #[trigger] contacts[i]).normal.y.abs().lt(min_walk_cos) by {
                if i < rest.len() {
                    assert(rest[i] == contacts[i]);
                }
            }
        }
    }
}

proof fn lemma_nothing(a: Scalar, b: Scalar)
    requires
        size(a) == 0,
        b.is_finite(),
    ensures
        size(a * b) == 0,
        (a * b).is_finite(),
{
    reveal(Scalar::spec_is_finite);
    lemma_product(a, b);
    lemma_units_zero(0);
    lemma_pow2_pos(149);
    assert(units(size(a)) * units(size(b)) == 0) by (nonlinear_arith)
        requires
            units(size(a)) == 0,
    ;
    lemma_nearest_zero(pow2(149));
}

proof fn lemma_level_direction(v: Vec3)
    requires
        size(v.y) == 0,
    ensures
        size(v.normalize_or_zero().y) == 0,
{
    reveal(Vec3::spec_normalize_or_zero);
    reveal(Vec3::spec_mul);
    lemma_one();
    let recip = num(ONE).over(v.length());
    if recip.is_finite() {
        lemma_nothing(v.y, recip);
    }
}

proof fn lemma_nothing_more(a: Scalar, b: Scalar)
    requires
        size(a) == 0,
        size(b) == 0,
    ensures
        size(a + b) == 0,
{
    broadcast use group_bits;

    reveal(Scalar::spec_add);
    reveal(ieee::sum);
    lemma_units_zero(0);
}

/// The velocity that the input asks for on the ground and in the air is level.
pub proof fn law_wish_is_level(c: Ctx)
    requires
        movement(c.input).x.is_finite(),
        movement(c.input).y.is_finite(),
        wish_speed(c.cfg, c.state.crouching).is_finite(),
    ensures
        wish_velocity_of(c).y.same(num(ZERO)),
{
    reveal(wish_velocity_of);
    reveal(Vec3::spec_add);
    reveal(Vec3::spec_mul);
    lemma_one();
    let wish = movement(c.input);
    let ahead = forward(c.state.orientation).flat().normalize_or_zero();
    let aside = right(c.state.orientation).flat().normalize_or_zero();
    lemma_level_direction(forward(c.state.orientation).flat());
    lemma_level_direction(right(c.state.orientation).flat());
    lemma_nothing(ahead.y, wish.y);
    lemma_nothing(aside.y, wish.x);
    lemma_nothing_more((ahead * wish.y).y, (aside * wish.x).y);
    let sum = ahead * wish.y + aside * wish.x;
    lemma_level_direction(sum);
    lemma_nothing(sum.normalize_or_zero().y, wish_speed(c.cfg, c.state.crouching));
    broadcast use group_bits;

    reveal(Scalar::spec_same);
}

/// There is no tic tac without a press, without a wish, during a mantle or too soon after the last
/// one; nor off ceilings, nor against a wall that is faced too directly.
pub proof fn law_tac_refused(h: History, s: Step, wish_velocity: Vec3, time: Time)
    ensures
        handle_tac_model(h, s, wish_velocity, time).1 is Some ==> {
            &&& s.ctx.state.mantle is None
            &&& s.ctx.input.tac matches Some(press) && !s.ctx.cfg.tac_input_buffer.lt(
                press.elapsed,
            )
            &&& !wish_velocity.length_squared().lt(num(TENTH))
            &&& !s.ctx.state.last_tac.elapsed.lt(s.ctx.cfg.tac_cooldown)
            &&& tac_wall_model(h, s, wish_velocity, time).1 matches Some(normal)
                && !normal.y.lt(num(MINUS_HUNDREDTH)) && !s.ctx.cfg.max_tac_cos.lt(
                wish_velocity.normalize().dot(normal).negated(),
            )
        },
        handle_tac_model(h, s, wish_velocity, time).1 is None ==> handle_tac_model(
            h,
            s,
            wish_velocity,
            time,
        ).0.ctx == s.ctx,
{
    broadcast use group_casts;

    reveal(handle_tac_model);
    reveal(tac_ready);
    reveal(tac_wall_model);
    reveal(tac_off);
}

} // verus!
