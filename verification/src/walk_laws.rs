//! How a walk moves a character over the ground.
use crate::amounts::{amount, extent, lemma_extent, lemma_product_bounded, off};
use crate::casting::{
    cast_move_model, depenetrate_character_model, group_casts, move_character_model,
    snap_to_ground_model,
};
use crate::clock::Time;
use crate::config::CharacterController;
use crate::context::Ctx;
use crate::course_laws::{both_within, lemma_together, lemma_without, together, without};
use crate::estimates::{
    greatest, lemma_added, lemma_compared, lemma_nudge, lemma_scaled, lemma_stands, lemma_taken,
    nudge, stands,
};
use crate::figures::law_constants;
use crate::frame_laws::{lemma_exact_sum, lemma_simple_amounts};
use crate::gravity_laws::lemma_difference_finite;
use crate::ground::{ground_reach, lifts_off};
use crate::jump_laws::lemma_summand_finite;
use crate::laws::finite;
use crate::length_laws::lemma_factor_finite;
use crate::locomotion::{ground_move_model, step_move_model, stepped_model, walking_velocity};
use crate::motion::{carves, HUNDREDTH};
use crate::number_laws::lemma_one;
use crate::ride_laws::{lemma_difference_stands, lemma_sum_stands, lemma_turn_stands};
use crate::scalar::{group_bits, num, Scalar, ZERO};
use crate::vector::Vec3;
use crate::world::{ask_cast_move, group_asks, History, Step};
use vstd::prelude::*;

verus! {

/// Whether a walk is within the measure `m`.
pub open spec fn walks_within(walk: Vec3, base: Vec3, from: Vec3, secs: Scalar, m: real) -> bool {
    &&& 8 as real * (extent(walk.x) + extent(base.x) + extent(from.x)) <= m
    &&& 8 as real * (extent(walk.z) + extent(base.z) + extent(from.z)) <= m
    &&& 0 as real <= amount(secs)
    &&& amount(secs) <= 1 as real
}

/// One horizontal part of a walk: how far it goes, where it ends and the velocity that is left.
#[verifier::spinoff_prover]
proof fn lemma_walked_part(w: Scalar, b: Scalar, from: Scalar, secs: Scalar, m: real)
    requires
        (from + (w + b) * secs).is_finite(),
        (w + b - b).is_finite(),
        8 as real * (extent(w) + extent(b) + extent(from)) <= m,
        0 as real <= amount(secs),
        amount(secs) <= 1 as real,
    ensures
        ({
            let way = (amount(w) + amount(b)) * amount(secs);
            &&& stands((w + b) * secs, way, m, 2 as real)
            &&& stands(from + (w + b) * secs, amount(from) + way, m, 3 as real)
            &&& stands(w + b - b, amount(w), m, 2 as real)
        }),
{
    let v = w + b;
    lemma_summand_finite(from, v * secs);
    lemma_factor_finite(v, secs);
    lemma_summand_finite(w, b);
    lemma_extent(w);
    lemma_extent(b);
    lemma_extent(from);
    lemma_sum_stands(w, b, m);
    let x = amount(w) + amount(b);
    let s = amount(secs);
    let one = 1 as real;
    lemma_product_bounded(x, s, m / 4 as real, one);
    lemma_scaled(v, secs, x, m, one, one);
    lemma_stands(from, m);
    lemma_stands(b, m);
    lemma_added(from, v * secs, amount(from), x * s, m, 0 as real, 2 as real);
    lemma_taken(v, b, x, amount(b), m, one, 0 as real);
}

/// A walk with nothing in the way moves the body horizontally by its velocity, and the ground's
/// own, times the time, but for rounding. It keeps its height until it is freed from what it is
/// inside of and snapped to the ground, and the velocity that is left is that of the walk without
/// the ground's.
#[verifier::spinoff_prover]
pub proof fn law_walks_freely(h: History, s: Step, wish_velocity: Vec3, time: Time, m: real)
    requires
        ({
            let walk = walking_velocity(s.ctx, wish_velocity, time.delta_secs);
            let base = s.ctx.state.platform_velocity;
            let from = s.transform.translation;
            let velocity = walk + base;
            &&& walks_within(walk, base, from, time.delta_secs, m)
            &&& !velocity.length().lt(num(HUNDREDTH))
            &&& h[s.at as int]->CastMove_reply is None
            &&& finite(velocity - base)
            &&& finite(from)
            &&& (from.x + velocity.x * time.delta_secs).is_finite()
            &&& (from.z + velocity.z * time.delta_secs).is_finite()
        }),
    ensures
        ({
            let walk = walking_velocity(s.ctx, wish_velocity, time.delta_secs);
            let base = s.ctx.state.platform_velocity;
            let from = s.transform.translation;
            let secs = amount(time.delta_secs);
            let asked = h[s.at as int]->CastMove_query.movement;
            exists|t: Step|
                {
                    &&& ground_move_model(h, s, wish_velocity, time) == snap_to_ground_model(
                        h,
                        #[trigger] depenetrate_character_model(h, t),
                    )
                    &&& stands(
                        t.transform.translation.x,
                        amount(from.x) + (amount(walk.x) + amount(base.x)) * secs,
                        m,
                        3 as real,
                    )
                    &&& amount(t.transform.translation.y) == amount(from.y)
                    &&& stands(
                        t.transform.translation.z,
                        amount(from.z) + (amount(walk.z) + amount(base.z)) * secs,
                        m,
                        3 as real,
                    )
                    &&& stands(t.ctx.velocity.x, amount(walk.x), m, 2 as real)
                    &&& stands(t.ctx.velocity.z, amount(walk.z), m, 2 as real)
                    &&& t.ctx.state == s.ctx.state
                    &&& t.ok ==> {
                        &&& stands(asked.x, (amount(walk.x) + amount(base.x)) * secs, m, 2 as real)
                        &&& asked.y == num(ZERO)
                        &&& stands(asked.z, (amount(walk.z) + amount(base.z)) * secs, m, 2 as real)
                    }
                }
        }),
{
    broadcast use group_bits;

    reveal(ground_move_model);
    reveal(cast_move_model);
    reveal(ask_cast_move);
    reveal(Vec3::spec_add);
    reveal(Vec3::spec_sub);
    reveal(Vec3::spec_mul);
    lemma_one();
    lemma_simple_amounts();
    assert(num(ZERO).is_finite()) by {
        reveal(Scalar::spec_is_finite);
    }
    let walk = walking_velocity(s.ctx, wish_velocity, time.delta_secs);
    let base = s.ctx.state.platform_velocity;
    let from = s.transform.translation;
    let velocity = walk + base;
    let movement = (velocity * time.delta_secs).flat();
    lemma_walked_part(walk.x, base.x, from.x, time.delta_secs, m);
    lemma_walked_part(walk.z, base.z, from.z, time.delta_secs, m);
    lemma_exact_sum(from.y, num(ZERO));
    let (s1, _) = cast_move_model(h, s.with_velocity(velocity), movement);
    let t = s1.with_translation(from + movement).with_velocity(velocity - base);
    assert(ground_move_model(h, s, wish_velocity, time) == snap_to_ground_model(
        h,
        depenetrate_character_model(h, t),
    ));
}

/// A walk slower than a hundredth, the ground's own velocity taken in, is at rest: the body stays
/// where it is, nothing is asked, and the velocity is what keeps it there against the ground's. A
/// faster one asks for its way.
#[verifier::spinoff_prover]
pub proof fn law_walk_rests(h: History, s: Step, wish_velocity: Vec3, time: Time)
    requires
        (walking_velocity(s.ctx, wish_velocity, time.delta_secs)
            + s.ctx.state.platform_velocity).length().is_finite(),
    ensures
        ({
            let base = s.ctx.state.platform_velocity;
            let speed = amount(
                (walking_velocity(s.ctx, wish_velocity, time.delta_secs) + base).length(),
            );
            let t = ground_move_model(h, s, wish_velocity, time);
            let bit = 1 as real / 0x1000_0000 as real;
            &&& speed < 1 as real / 100 as real - bit ==> {
                &&& t.transform == s.transform
                &&& t.at == s.at && t.ok == s.ok
                &&& t.ctx.velocity == base.negated()
                &&& t.ctx.state == s.ctx.state
            }
            &&& speed > 1 as real / 100 as real + bit && t.ok ==> h[s.at as int] is CastMove
        }),
{
    reveal(ground_move_model);
    law_constants();
    let base = s.ctx.state.platform_velocity;
    let velocity = walking_velocity(s.ctx, wish_velocity, time.delta_secs) + base;
    lemma_compared(velocity.length(), num(HUNDREDTH));
    if !velocity.length().lt(num(HUNDREDTH)) {
        let movement = (velocity * time.delta_secs).flat();
        let s0 = s.with_velocity(velocity);
        let (s1, hit) = cast_move_model(h, s0, movement);
        assert(s1.ok ==> h[s.at as int] is CastMove) by {
            reveal(cast_move_model);
            reveal(ask_cast_move);
        }
        assert(ground_move_model(h, s, wish_velocity, time).ok ==> s1.ok) by {
            lemma_walk_asked(h, s, wish_velocity, time);
        }
    }
}

/// What follows the first cast of a walk does not mend a history that did not fit.
#[verifier::spinoff_prover]
proof fn lemma_walk_asked(h: History, s: Step, wish_velocity: Vec3, time: Time)
    requires
        ({
            let base = s.ctx.state.platform_velocity;
            let velocity = walking_velocity(s.ctx, wish_velocity, time.delta_secs) + base;
            !velocity.length().lt(num(HUNDREDTH))
        }),
    ensures
        ({
            let base = s.ctx.state.platform_velocity;
            let velocity = walking_velocity(s.ctx, wish_velocity, time.delta_secs) + base;
            let (s1, _) = cast_move_model(
                h,
                s.with_velocity(velocity),
                (velocity * time.delta_secs).flat(),
            );
            ground_move_model(h, s, wish_velocity, time).ok ==> s1.ok
        }),
{
    broadcast use {group_casts, group_asks};

    reveal(ground_move_model);
    reveal(step_move_model);
    reveal(stepped_model);
    reveal(move_character_model);
    reveal(snap_to_ground_model);
}

/// How far below ground is looked for: the distance that counts as standing, and as much farther as
/// the ground sinks in the time, but for rounding.
#[verifier::spinoff_prover]
pub proof fn law_ground_reach(c: Ctx, secs: Scalar, m: real)
    requires
        ground_reach(c, secs).is_finite(),
        c.state.platform_velocity.y.is_finite(),
        2 as real * (extent(c.cfg.ground_distance) + extent(c.state.platform_velocity.y)) <= m,
        0 as real <= amount(secs),
        amount(secs) <= 1 as real,
    ensures
        stands(
            ground_reach(c, secs),
            amount(c.cfg.ground_distance) + greatest(
                0 as real - amount(c.state.platform_velocity.y),
                0 as real,
            ) * amount(secs),
            m,
            2 as real,
        ),
{
    broadcast use group_bits;

    reveal(ground_reach);
    lemma_one();
    lemma_simple_amounts();
    assert(num(ZERO).is_finite()) by {
        reveal(Scalar::spec_is_finite);
    }
    let y = c.state.platform_velocity.y;
    let d = c.cfg.ground_distance;
    lemma_compared(y, num(ZERO));
    lemma_extent(y);
    lemma_extent(d);
    let (p, s) = (amount(y), amount(secs));
    let no = 0 as real;
    assert((no - p) * s == no - p * s && no * s == no) by (nonlinear_arith)
        requires
            no == 0 as real,
    ;
    if y.lt(num(ZERO)) {
        lemma_difference_finite(d, y * secs);
        lemma_turn_stands(y, secs, m);
        lemma_stands(d, m);
        lemma_product_bounded(p, s, m / 2 as real, 1 as real);
        lemma_taken(d, y * secs, amount(d), p * s, m, no, 1 as real);
    } else {
        lemma_stands(d, m);
        lemma_nudge(m);
        let n = nudge(m);
        assert(0 as real * n == 0 as real && 2 as real * n >= 0 as real) by (nonlinear_arith)
            requires
                n > 0 as real,
        ;
    }
}

/// A character lifts off where it rises faster than the speed that takes it off the ground. On the
/// ground what counts is how much faster than the ground it rises, but for rounding.
#[verifier::spinoff_prover]
pub proof fn law_lifts_off(c: Ctx, m: real)
    requires
        c.velocity.y.is_finite(),
        c.cfg.unground_speed.is_finite(),
        (c.velocity.y - c.state.platform_velocity.y).is_finite(),
        extent(c.velocity.y) + extent(c.state.platform_velocity.y) <= m,
    ensures
        ({
            let rise = amount(c.velocity.y);
            let over = rise - amount(c.state.platform_velocity.y);
            let limit = amount(c.cfg.unground_speed);
            &&& c.state.grounded is None ==> (lifts_off(c) <==> rise > limit)
            &&& c.state.grounded is Some && rise > limit && over > limit + nudge(m) ==> lifts_off(c)
            &&& c.state.grounded is Some && (rise <= limit || over < limit - nudge(m))
                ==> !lifts_off(c)
        }),
{
    reveal(lifts_off);
    let d = c.velocity.y - c.state.platform_velocity.y;
    lemma_compared(c.cfg.unground_speed, c.velocity.y);
    lemma_compared(c.cfg.unground_speed, d);
    lemma_difference_stands(c.velocity.y, c.state.platform_velocity.y, m);
    let n = nudge(m);
    assert(1 as real * n == n) by (nonlinear_arith);
}

/// A turn gains speed exactly where the speed is at least the wished one, up to a hundredth, and
/// below the highest speed that is carved at, but for rounding.
#[verifier::spinoff_prover]
pub proof fn law_carves(cfg: CharacterController, old_speed: Scalar, wish_speed: Scalar, m: real)
    requires
        old_speed.is_finite(),
        wish_speed.is_finite(),
        cfg.max_carve_speed.is_finite(),
        (old_speed + num(HUNDREDTH)).is_finite(),
        extent(old_speed) + 1 as real <= m,
    ensures
        ({
            let (now, wish) = (amount(old_speed), amount(wish_speed));
            let limit = amount(cfg.max_carve_speed);
            let most = now + 1 as real / 100 as real;
            &&& carves(cfg, old_speed, wish_speed) ==> wish <= most + 2 as real * nudge(m) && now
                < limit
            &&& wish < most - 2 as real * nudge(m) && now < limit ==> carves(
                cfg,
                old_speed,
                wish_speed,
            )
        }),
{
    reveal(carves);
    law_constants();
    let sum = old_speed + num(HUNDREDTH);
    lemma_extent(num(HUNDREDTH));
    lemma_extent(old_speed);
    lemma_sum_stands(old_speed, num(HUNDREDTH), m);
    lemma_compared(wish_speed, sum);
    lemma_compared(old_speed, cfg.max_carve_speed);
    lemma_nudge(m);
    let n = nudge(m);
    assert(1 as real * n == n) by (nonlinear_arith);
}

/// A walk with something in the way moves over a step or slides along, with the ground's own
/// velocity added to that of the walk, and taken away again before it is snapped to the ground, but
/// for rounding.
#[verifier::spinoff_prover]
pub proof fn law_walk_blocked(h: History, s: Step, wish_velocity: Vec3, time: Time, m: real)
    requires
        ({
            let walk = walking_velocity(s.ctx, wish_velocity, time.delta_secs);
            let base = s.ctx.state.platform_velocity;
            let moving = Step { at: s.at + 1, ..s }.with_velocity(walk + base);
            let ok = cast_move_model(
                h,
                s.with_velocity(walk + base),
                ((walk + base) * time.delta_secs).flat(),
            ).0.ok;
            let moved = step_move_model(h, Step { ok, ..moving }, time);
            &&& !(walk + base).length().lt(num(HUNDREDTH))
            &&& h[s.at as int]->CastMove_reply is Some
            &&& finite(walk + base) && both_within(walk, base, m)
            &&& finite(moved.ctx.velocity - moved.ctx.state.platform_velocity)
            &&& both_within(moved.ctx.velocity, moved.ctx.state.platform_velocity, m)
        }),
    ensures
        ({
            let walk = walking_velocity(s.ctx, wish_velocity, time.delta_secs);
            let base = s.ctx.state.platform_velocity;
            exists|moving: Step, after: Step|
                {
                    let moved = #[trigger] step_move_model(h, moving, time);
                    &&& together(moving.ctx.velocity, walk, base, m)
                    &&& moving.transform == s.transform
                    &&& moving.ctx == s.ctx.with_velocity(moving.ctx.velocity)
                    &&& without(
                        after.ctx.velocity,
                        moved.ctx.velocity,
                        moved.ctx.state.platform_velocity,
                        m,
                    )
                    &&& after == moved.with_velocity(after.ctx.velocity)
                    &&& #[trigger] snap_to_ground_model(h, after) == ground_move_model(
                        h,
                        s,
                        wish_velocity,
                        time,
                    )
                }
        }),
{
    reveal(ground_move_model);
    let walk = walking_velocity(s.ctx, wish_velocity, time.delta_secs);
    let base = s.ctx.state.platform_velocity;
    let velocity = walk + base;
    let (moving, _) = cast_move_model(
        h,
        s.with_velocity(velocity),
        (velocity * time.delta_secs).flat(),
    );
    assert(moving == Step { at: s.at + 1, ok: moving.ok, ..s.with_velocity(velocity) }
        && cast_move_model(h, s.with_velocity(velocity), (velocity * time.delta_secs).flat()).1
        == h[s.at as int]->CastMove_reply) by {
        reveal(cast_move_model);
        reveal(ask_cast_move);
    }
    let moved = step_move_model(h, moving, time);
    lemma_together(walk, base, m);
    lemma_without(moved.ctx.velocity, moved.ctx.state.platform_velocity, m);
    let after = moved.with_velocity(moved.ctx.velocity - moved.ctx.state.platform_velocity);
    assert(ground_move_model(h, s, wish_velocity, time) == snap_to_ground_model(h, after));
    assert(moving.ctx == s.ctx.with_velocity(moving.ctx.velocity));
}

} // verus!
