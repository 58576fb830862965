//! Laws of snapping to the ground and of ledges.
use crate::amounts::{
    amount, extent, lemma_amounts_ordered, lemma_difference_off, lemma_extent, lemma_sum_off,
};
use crate::casting::{
    body, cast_move_hands_model, cast_move_model, depenetrate_character_model, group_casts,
    snap_to_ground_model,
};
use crate::clock::Time;
use crate::config::CharacterController;
use crate::context::{Ctx, MoveHitData};
use crate::ieee;
use crate::keeps::lemma_keeps_cast_probe;
use crate::laws::finite;
use crate::ledge::{
    available_ledge_height_model, available_mantle_height_model, cast_probe_model, hand_reach,
    ledge_along_model, ledge_behind_model, ledge_direction, ledge_floor_model, ledge_top_model,
    mantle_along_model, mantle_direction, mantle_onto, probe_velocity, raised,
};
use crate::length_laws::lemma_sum_moderate;
use crate::number_laws::{
    law_difference_ordered, law_plus_zero, law_sum_grows, law_sum_ordered, law_times_one,
    law_times_zero, lemma_one, lemma_opposite, lemma_parts, lemma_product, minus, size,
};
use crate::rounding::units;
use crate::scalar::{group_bits, num, Scalar, MINUS_ONE, ONE, ZERO};
use crate::vector::{down, up, zero, Transform, Vec3};
use crate::world::{
    ask_cast_move, ask_depenetrate, group_asks, CastMove, Event, History, Placement, Shape, Step,
};
use vstd::prelude::*;

verus! {

/// One times a number is that number.
pub proof fn lemma_one_times(a: Scalar)
    requires
        a.is_finite(),
    ensures
        num(ONE) * a == a,
        num(MINUS_ONE) * a == a.negated(),
        a * num(MINUS_ONE) == a.negated(),
{
    broadcast use group_bits;

    lemma_one();
    law_times_one(a);
    lemma_product(a, num(ONE));
    lemma_product(num(ONE), a);
    assert(units(size(a)) * units(ONE as nat) == units(ONE as nat) * units(size(a)))
        by (nonlinear_arith);
    lemma_parts(num(ONE) * a, a);
    assert(num(MINUS_ONE).is_finite() && size(num(MINUS_ONE)) == ONE && minus(num(MINUS_ONE))) by {
        reveal(Scalar::spec_is_finite);
    }
    lemma_product(num(MINUS_ONE), a);
    lemma_product(a, num(MINUS_ONE));
    lemma_opposite(a);
    lemma_parts(num(MINUS_ONE) * a, a.negated());
    lemma_parts(a * num(MINUS_ONE), a.negated());
}

/// A number between finite numbers is finite.
proof fn lemma_between(a: Scalar, b: Scalar, c: Scalar)
    requires
        a.is_finite(),
        c.is_finite(),
        a.le(b),
        b.le(c),
    ensures
        b.is_finite(),
        a.le(c),
{
    reveal(Scalar::spec_is_finite);
    reveal(Scalar::spec_le);
}

/// Moving up or down leaves the horizontal position.
proof fn lemma_vertical(p: Vec3, d: Scalar)
    requires
        finite(p),
        d.is_finite(),
    ensures
        (p + up() * d).x.same(p.x) && (p + up() * d).x.is_finite(),
        (p + up() * d).y == p.y + d,
        (p + up() * d).z.same(p.z) && (p + up() * d).z.is_finite(),
        (p + down() * d).x.same(p.x) && (p + down() * d).x.is_finite(),
        (p + down() * d).y == p.y - d,
        (p + down() * d).z.same(p.z) && (p + down() * d).z.is_finite(),
{
    broadcast use group_bits;

    reveal(Vec3::spec_add);
    reveal(Vec3::spec_mul);
    lemma_one();
    lemma_one_times(d);
    law_times_zero(num(ZERO), d);
    law_plus_zero(p.x, num(ZERO) * d);
    law_plus_zero(p.z, num(ZERO) * d);
    reveal(Scalar::spec_sub);
    reveal(Scalar::spec_add);
}

/// Where a body lands that rose by `rise` before it was lowered onto the ground: straight below,
/// no higher than it was and no lower than a step, but for the rounding of the way up and down.
pub open spec fn lands(cfg: CharacterController, from: Vec3, rise: Scalar, landed: Vec3) -> bool {
    &&& num(ZERO).le(rise)
    &&& rise.le(cfg.ground_distance)
    &&& landed.x.same(from.x)
    &&& landed.z.same(from.z)
    &&& landed.y.le(from.y + rise - rise)
    &&& (from.y + rise - (rise + cfg.step_size)).le(landed.y)
}

/// Whether a place and the ways of a step are within all measure.
pub open spec fn near_by(cfg: CharacterController, from: Vec3) -> bool {
    let most = 0x100_0000_0000_0000_0000_0000_0000_0000 as real;
    &&& extent(from.y) <= most
    &&& extent(cfg.ground_distance) <= most
    &&& extent(cfg.step_size) <= most
}

/// Whether a body was lowered by no less than nothing and no more than a step, but for rounding.
pub open spec fn dropped(cfg: CharacterController, from: Vec3, landed: Vec3) -> bool {
    let slip = (extent(from.y) + extent(cfg.ground_distance) + extent(cfg.step_size))
        / 0x10_0000 as real;
    &&& landed.y.is_finite()
    &&& amount(landed.y) <= amount(from.y) + slip
    &&& amount(from.y) <= amount(landed.y) + amount(cfg.step_size) + slip
}

/// A body that lands is lowered by no less than nothing and no more than a step.
#[verifier::spinoff_prover]
proof fn lemma_dropped(cfg: CharacterController, from: Vec3, rise: Scalar, landed: Vec3)
    requires
        lands(cfg, from, rise, landed),
        near_by(cfg, from),
        from.y.is_finite(),
        rise.is_finite(),
        cfg.ground_distance.is_finite(),
        cfg.step_size.is_finite(),
        num(ZERO).le(cfg.step_size),
    ensures
        dropped(cfg, from, landed),
{
    broadcast use group_bits;

    let none = num(ZERO);
    lemma_one();
    lemma_extent(none);
    lemma_extent(from.y);
    lemma_extent(rise);
    lemma_extent(cfg.ground_distance);
    lemma_extent(cfg.step_size);
    lemma_amounts_ordered(none, rise);
    lemma_amounts_ordered(rise, cfg.ground_distance);
    lemma_amounts_ordered(none, cfg.step_size);
    let all = extent(from.y) + extent(cfg.ground_distance) + extent(cfg.step_size);
    let high = from.y + rise;
    let deep = rise + cfg.step_size;
    lemma_sum_moderate(from.y, rise);
    lemma_sum_moderate(rise, cfg.step_size);
    lemma_sum_off(from.y, rise, all);
    lemma_sum_off(rise, cfg.step_size, all);
    lemma_extent(high);
    lemma_extent(deep);
    lemma_sum_moderate(high, rise);
    lemma_sum_moderate(high, deep);
    lemma_difference_off(high, rise, 4 as real * all);
    lemma_difference_off(high, deep, 4 as real * all);
    lemma_between(high - deep, landed.y, high - rise);
    lemma_amounts_ordered(high - deep, landed.y);
    lemma_amounts_ordered(landed.y, high - rise);
}

/// Whether a cast was stopped within the way that it was sent.
pub open spec fn within(hit: Option<MoveHitData>, way: Scalar) -> bool {
    hit matches Some(hit) ==> num(ZERO).le(hit.distance) && hit.distance.le(way)
}

/// Whether two places are the same.
pub open spec fn at_place(p: Vec3, q: Vec3) -> bool {
    p.x.same(q.x) && p.y.same(q.y) && p.z.same(q.z)
}

/// Moving by nothing changes no place.
proof fn lemma_moved_by_nothing(p: Vec3)
    requires
        p.x.is_number(),
        p.y.is_number(),
        p.z.is_number(),
    ensures
        at_place(p + zero(), p),
{
    reveal(Vec3::spec_add);
    lemma_plus_nothing(p.x);
    lemma_plus_nothing(p.y);
    lemma_plus_nothing(p.z);
}

proof fn lemma_plus_nothing(a: Scalar)
    requires
        a.is_number(),
    ensures
        (a + num(ZERO)).same(a),
{
    broadcast use group_bits;

    lemma_one();
    if a.is_finite() {
        law_plus_zero(a, num(ZERO));
    } else {
        reveal(Scalar::spec_is_finite);
        reveal(Scalar::spec_is_number);
        reveal(Scalar::spec_same);
        reveal(Scalar::spec_add);
        reveal(ieee::sum);
    }
}

/// How far a body rises before it is lowered onto the ground.
pub open spec fn rise_of(cfg: CharacterController, above: Option<MoveHitData>) -> Scalar {
    match above {
        Some(hit) => hit.distance,
        None => cfg.ground_distance,
    }
}

/// Snapping to the ground leaves a character where it is, or lowers it straight down by no more
/// than a step before it is freed from what it is inside of. It counts as a step down exactly if it
/// is lowered by more than what is noticed as one.
pub proof fn law_snap_drop(h: History, s: Step)
    requires
        finite(s.transform.translation),
        num(ZERO).le(s.ctx.cfg.ground_distance),
        num(ZERO).le(s.ctx.cfg.step_size),
        (s.transform.translation.y + s.ctx.cfg.ground_distance).is_finite(),
        (s.ctx.cfg.ground_distance + s.ctx.cfg.step_size).is_finite(),
        ({
            let cfg = s.ctx.cfg;
            let (s1, above) = cast_move_model(h, s, up() * cfg.ground_distance);
            let rise = rise_of(cfg, above);
            let (_, below) = cast_move_model(
                h,
                s1.with_translation(s.transform.translation + up() * rise),
                down() * (rise + cfg.step_size),
            );
            within(above, cfg.ground_distance) && within(below, rise + cfg.step_size)
        }),
    ensures
        ({
            let cfg = s.ctx.cfg;
            let from = s.transform.translation;
            let t = snap_to_ground_model(h, s);
            ||| t.transform == s.transform && t.ctx == s.ctx
            ||| exists|rise: Scalar, landed: Vec3| #[trigger]
                lands(cfg, from, rise, landed) && {
                    &&& near_by(cfg, from) ==> dropped(cfg, from, landed)
                    &&& t.transform.translation == landed + h[(s.at + 2) as int]->Depenetrate_reply
                    &&& h[(s.at + 2) as int]->Depenetrate_reply == zero() ==> at_place(
                        t.transform.translation,
                        landed,
                    )
                    &&& t.transform.rotation == s.transform.rotation
                    &&& t.ctx.velocity == s.ctx.velocity
                    &&& t.ctx.state.last_step_down == if cfg.step_down_detection_distance.lt(
                        from.y - landed.y,
                    ) {
                        s.ctx.state.last_step_down.restarted()
                    } else {
                        s.ctx.state.last_step_down
                    }
                }
        }),
{
    broadcast use group_casts;
    broadcast use group_asks;
    broadcast use group_bits;

    reveal(snap_to_ground_model);
    let cfg = s.ctx.cfg;
    let from = s.transform.translation;
    let (s1, above) = cast_move_model(h, s, up() * cfg.ground_distance);
    let rise = rise_of(cfg, above);
    let start = from + up() * rise;
    let (s2, below) = cast_move_model(
        h,
        s1.with_translation(start),
        down() * (rise + cfg.step_size),
    );
    lemma_one();
    assert(num(ZERO).le(rise) && rise.le(cfg.ground_distance)) by {
        reveal(Scalar::spec_le);
    }
    assert(cfg.ground_distance.is_finite() && cfg.step_size.is_finite()) by {
        reveal(Scalar::spec_is_finite);
        reveal(Scalar::spec_is_number);
        reveal(Scalar::spec_le);
        law_sum_grows(cfg.ground_distance, cfg.step_size);
    }
    lemma_between(num(ZERO), rise, cfg.ground_distance);
    lemma_vertical(from, rise);
    law_plus_zero(from.y, num(ZERO));
    law_sum_ordered(num(ZERO), rise, from.y);
    law_sum_ordered(rise, cfg.ground_distance, from.y);
    lemma_between(from.y + num(ZERO), start.y, from.y + cfg.ground_distance);
    if let Some(hit) = below {
        if !(hit.intersects() || hit.normal1.y.lt(cfg.min_walk_cos) || hit.distance.le(
            cfg.ground_distance,
        )) {
            let deep = rise + cfg.step_size;
            law_sum_ordered(rise, cfg.ground_distance, cfg.step_size);
            law_sum_grows(rise, cfg.step_size);
            lemma_between(num(ZERO), deep, cfg.ground_distance + cfg.step_size);
            lemma_between(num(ZERO), hit.distance, deep);
            let landed = start + down() * hit.distance;
            lemma_vertical(start, hit.distance);
            assert(rise.le(hit.distance)) by {
                reveal(Scalar::spec_le);
            }
            law_difference_ordered(start.y, rise, hit.distance);
            law_difference_ordered(start.y, hit.distance, deep);
            assert(landed.x.same(from.x) && landed.z.same(from.z)) by {
                reveal(Scalar::spec_same);
            }
            assert(lands(cfg, from, rise, landed));
            if near_by(cfg, from) {
                lemma_dropped(cfg, from, rise, landed);
            }
            assert(s2.at == s.at + 2) by {
                reveal(cast_move_model);
            }
            reveal(depenetrate_character_model);
            reveal(ask_depenetrate);
            assert(landed.x.is_number() && landed.y.is_number() && landed.z.is_number()) by {
                reveal(Scalar::spec_is_finite);
                reveal(Scalar::spec_is_number);
                reveal(Scalar::spec_le);
            }
            lemma_moved_by_nothing(landed);
        }
    }
}

/// Whether the world was asked what the body or the hands of a character run into on a way, and
/// gave this answer.
pub open spec fn cast_seen(
    h: History,
    c: Ctx,
    hands: bool,
    from: Transform,
    way: Vec3,
    reply: Option<MoveHitData>,
) -> bool {
    exists|i: int|
        #![trigger h[i]]
        0 <= i < h.len() && h[i] == (Event::CastMove {
            query: CastMove {
                placement: if hands {
                    Placement {
                        entity: c.entity,
                        shape: Shape::Hands,
                        position: from.translation,
                        rotation: from.rotation,
                    }
                } else {
                    body(c.entity, c.state, from)
                },
                movement: way,
                skin_width: c.cfg.skin_width,
            },
            reply,
        })
}

proof fn lemma_cast_seen(h: History, s: Step, hands: bool, way: Vec3)
    ensures
        ({
            let (t, reply) = cast_probe_model(h, s, hands, way);
            t.ok ==> s.ok && cast_seen(h, s.ctx, hands, s.transform, way, reply)
        }),
{
    reveal(cast_probe_model);
    reveal(cast_move_model);
    reveal(cast_move_hands_model);
    reveal(ask_cast_move);
}

/// Where something is looked for above a place.
pub open spec fn above(from: Transform, height: Scalar) -> Transform {
    Transform { translation: raised(from.translation, height), ..from }
}

/// What was seen of a floor at some height behind a wall: the way over the wall is free, and below
/// the end of that way is a floor.
pub open spec fn floor_seen(
    h: History,
    c: Ctx,
    hands: bool,
    from: Transform,
    wall_normal: Vec3,
    depth: Scalar,
    height: Scalar,
    floor: MoveHitData,
) -> bool {
    let top = above(from, height);
    let onto = wall_normal.negated() * depth;
    let over = Transform { translation: top.translation + onto, ..top };
    &&& cast_seen(h, c, hands, top, onto, None)
    &&& cast_seen(h, c, hands, over, down() * height, Some(floor))
}

proof fn lemma_floor_seen(
    h: History,
    s: Step,
    hands: bool,
    wall_normal: Vec3,
    depth: Scalar,
    height: Scalar,
)
    ensures
        ({
            let (t, floor) = ledge_floor_model(h, s, hands, wall_normal, depth, height);
            &&& t.ok ==> s.ok
            &&& t.ok ==> (floor matches Some(floor) ==> floor_seen(
                h,
                s.ctx,
                hands,
                s.transform,
                wall_normal,
                depth,
                height,
                floor,
            ))
        }),
{
    broadcast use lemma_keeps_cast_probe;

    reveal(ledge_floor_model);
    let top = raised(s.transform.translation, height);
    let onto = wall_normal.negated() * depth;
    let raised_step = s.with_translation(top);
    lemma_cast_seen(h, raised_step, hands, onto);
    let (s1, _) = cast_probe_model(h, raised_step, hands, onto);
    assert(s1.ctx == s.ctx) by {
        broadcast use group_casts;

        reveal(cast_probe_model);
    }
    lemma_cast_seen(h, s1.with_translation(top + onto), hands, down() * height);
}

/// What was seen of a ledge: a wall is in the way and faced; the way over it is free and ends above
/// a floor that can be walked on; and the straight way to that floor is not free.
pub open spec fn ledge_seen(
    h: History,
    c: Ctx,
    from: Transform,
    dir: Vec3,
    depth: Scalar,
    min_cos: Scalar,
    height: Scalar,
    wall: MoveHitData,
    floor: MoveHitData,
    stop: MoveHitData,
) -> bool {
    let wall_normal = wall.normal1.flat().normalize_or_zero();
    let end = raised(from.translation, height) + wall_normal.negated() * depth + down()
        * floor.distance;
    &&& cast_seen(h, c, false, from, dir * depth, Some(wall))
    &&& !wall_normal.negated().dot(dir).lt(min_cos)
    &&& floor_seen(h, c, false, from, wall_normal, depth, height, floor)
    &&& !floor.normal1.y.lt(c.cfg.min_walk_cos)
    &&& cast_seen(h, c, false, from, end - from.translation, Some(stop))
}

/// A ledge is only found where one was seen, in the direction that is asked for or moved in.
pub proof fn law_ledge_is_seen(
    h: History,
    s: Step,
    wish_velocity: Vec3,
    min_depth: Scalar,
    min_cos: Scalar,
    max_height: Scalar,
    time: Time,
)
    ensures
        ({
            let (t, found) = available_ledge_height_model(
                h,
                s,
                wish_velocity,
                min_depth,
                min_cos,
                max_height,
                time,
            );
            t.ok && found is Some ==> exists|
                dir: Vec3,
                wall: MoveHitData,
                floor: MoveHitData,
                stop: MoveHitData,
            | #[trigger]
                ledge_seen(
                    h,
                    s.ctx,
                    s.transform,
                    dir,
                    min_depth,
                    min_cos,
                    found->Some_0,
                    wall,
                    floor,
                    stop,
                ) && ledge_direction(wish_velocity, s.ctx.velocity) == Some(dir)
        }),
{
    broadcast use group_casts;

    reveal(available_ledge_height_model);
    reveal(ledge_along_model);
    reveal(ledge_behind_model);
    let (t, found) = available_ledge_height_model(
        h,
        s,
        wish_velocity,
        min_depth,
        min_cos,
        max_height,
        time,
    );
    if let Some(dir) = ledge_direction(wish_velocity, s.ctx.velocity) {
        let s0 = s.with_velocity(probe_velocity(s.ctx, wish_velocity, time.delta_secs));
        let (s1, wall) = cast_move_model(h, s0, dir * min_depth);
        lemma_body_cast_seen(h, s0, dir * min_depth);
        if let Some(wall) = wall {
            let wall_normal = wall.normal1.flat().normalize_or_zero();
            let (s2, top) = ledge_top_model(h, s1, false, wall_normal, min_depth, max_height);
            assert(s2.ctx == s1.ctx && s2.transform == s1.transform && (s2.ok ==> s1.ok)) by {
                reveal(ledge_top_model);
                reveal(cast_probe_model);
            }
            if let Some(height) = top {
                let (s3, floor) = ledge_floor_model(
                    h,
                    s2,
                    false,
                    wall_normal,
                    min_depth,
                    height,
                );
                lemma_floor_seen(h, s2, false, wall_normal, min_depth, height);
                assert(s3.ctx == s2.ctx && s3.transform == s2.transform) by {
                    reveal(ledge_floor_model);
                    reveal(cast_probe_model);
                }
                if let Some(floor) = floor {
                    let end = raised(s1.transform.translation, height) + wall_normal.negated()
                        * min_depth + down() * floor.distance;
                    lemma_body_cast_seen(h, s3, end - s1.transform.translation);
                    if t.ok && found is Some {
                        let stop = cast_move_model(
                            h,
                            s3,
                            end - s1.transform.translation,
                        ).1->Some_0;
                        assert(ledge_seen(
                            h,
                            s.ctx,
                            s.transform,
                            dir,
                            min_depth,
                            min_cos,
                            height,
                            wall,
                            floor,
                            stop,
                        ));
                    }
                }
            }
        }
    }
}

proof fn lemma_body_cast_seen(h: History, s: Step, way: Vec3)
    ensures
        ({
            let (t, reply) = cast_move_model(h, s, way);
            t.ok ==> s.ok && cast_seen(h, s.ctx, false, s.transform, way, reply)
        }),
{
    lemma_cast_seen(h, s, false, way);
    reveal(cast_probe_model);
}

/// What was seen of a mantle: a wall is near enough and faced; and the hands of the body against
/// it, which is then at `at`, can reach over it to a floor that can be walked on, with something
/// left to climb.
pub open spec fn mantle_seen(
    h: History,
    c: Ctx,
    from: Transform,
    dir: Vec3,
    at: Transform,
    height: Scalar,
    wall: MoveHitData,
    floor: MoveHitData,
) -> bool {
    let left = height - c.derived.pos_to_head_dist(c.state) + c.cfg.climb_pull_up_height;
    &&& cast_seen(h, c, false, from, dir * c.cfg.max_ledge_grab_distance, Some(wall))
    &&& !wall.normal1.negated().dot(dir).lt(c.cfg.min_mantle_cos)
    &&& at.rotation == from.rotation
    &&& floor_seen(h, c, true, at, wall.normal1, hand_reach(c), height, floor)
    &&& !floor.normal1.y.lt(c.cfg.min_walk_cos)
    &&& !left.lt(num(ZERO))
}

/// A mantle is only found where one was seen.
pub proof fn law_mantle_is_seen(h: History, s: Step, wish_velocity: Vec3, time: Time)
    ensures
        ({
            let (t, found) = available_mantle_height_model(h, s, wish_velocity, time);
            t.ok && found is Some ==> exists|
                dir: Vec3,
                at: Transform,
                height: Scalar,
                wall: MoveHitData,
                floor: MoveHitData,
            | #[trigger]
                mantle_seen(h, s.ctx, s.transform, dir, at, height, wall, floor)
                    && mantle_direction(wish_velocity, s.ctx.state.orientation) == Some(dir)
                    && found == mantle_onto(s.ctx, wall.normal1, height, floor)
        }),
{
    broadcast use group_casts;

    reveal(available_mantle_height_model);
    reveal(mantle_along_model);
    reveal(mantle_onto);
    let (t, found) = available_mantle_height_model(h, s, wish_velocity, time);
    if let Some(dir) = mantle_direction(wish_velocity, s.ctx.state.orientation) {
        let s0 = s.with_velocity(probe_velocity(s.ctx, wish_velocity, time.delta_secs));
        let c = s0.ctx;
        let way = dir * c.cfg.max_ledge_grab_distance;
        let (s1, wall) = cast_move_model(h, s0, way);
        lemma_body_cast_seen(h, s0, way);
        if let Some(wall) = wall {
            let s2 = depenetrate_character_model(
                h,
                s1.with_translation(s.transform.translation + dir * wall.distance),
            );
            let reach = hand_reach(c);
            assert(reach == hand_reach(s.ctx)) by {
                reveal(hand_reach);
            }
            let (s3, top) = ledge_top_model(
                h,
                s2,
                true,
                wall.normal1,
                reach,
                c.cfg.mantle_height,
            );
            assert(s3.ctx == c && s3.transform == s2.transform && (s3.ok ==> s1.ok)) by {
                reveal(ledge_top_model);
                reveal(cast_probe_model);
            }
            if let Some(height) = top {
                lemma_floor_seen(h, s3, true, wall.normal1, reach, height);
                let (_, floor) = ledge_floor_model(h, s3, true, wall.normal1, reach, height);
                if let Some(floor) = floor {
                    if t.ok && found is Some {
                        assert(mantle_seen(
                            h,
                            s.ctx,
                            s.transform,
                            dir,
                            s3.transform,
                            height,
                            wall,
                            floor,
                        ));
                    }
                }
            }
        }
    }
}

} // verus!
