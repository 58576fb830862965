//! Laws of whole steps, of passes over many characters, and of setting characters up.
use crate::climb::{
    handle_climbdown_model, handle_mantle_movement_model, mantle_carry_model, mantle_climb_model,
    mantling, update_crane_state_model, update_mantle_state_model,
};
use crate::casting::{cast_move_model, group_casts};
use crate::clock::Time;
use crate::collider::{
    enlist_model, including, setup_collider_model, setup_of, Enlisted, Roster,
};
use crate::context::Ctx;
use crate::grip::{
    lemma_grip_calculate_platform_movement, lemma_grip_handle_crane_movement, lemma_grip_locomote,
    lemma_grip_move_character, lemma_grip_update_grounded,
};
use crate::ground::update_grounded_model;
use crate::jump::handle_jump_model;
use crate::keeps::{
    lemma_keeps_advance, lemma_keeps_handle_climbdown, lemma_keeps_prepare, lemma_keeps_step_body,
    lemma_keeps_update_grounded,
};
use crate::laws::{
    finite, law_crane_rules_out_mantle, law_every_character, law_ground_contact,
    law_mantle_probe_is_harmless, law_step_ends_finite, law_step_ends_on_ground, turn_of,
    lemma_climbdown_off_ground,
};
use crate::length_laws::{law_valid_velocity_is_limited, no_longer};
use crate::motion::{gravity_finished, valid_velocity, wish_velocity_3d_of, wish_velocity_of};
use crate::replay::{alike, consistent, lemma_again_step_kcc};
use crate::scalar::{num, Scalar, HALF};
use crate::step::{
    advance_model, collider_global_transform_model, ended, prepare_model, settle_model,
    step_body_model, step_kcc_model, step_of,
};
use crate::stepper::{first_of, run_kcc_model, run_one_model, Outcome};
use crate::vector::{down, Vec3};
use crate::world::{ask_apply_movement, ask_seconds, group_asks, History, Step};
use vstd::prelude::*;

verus! {

/// Whether a character that holds on to a ledge also reports it.
pub open spec fn reports_mantle(c: Ctx) -> bool {
    c.state.mantle is Some ==> c.mantle is Some
}

/// A mantle that goes on is reported.
pub proof fn law_mantle_movement_is_reported(
    h: History,
    s: Step,
    wish_velocity: Vec3,
    time: Time,
)
    requires
        s.ctx.state.mantle is Some,
    ensures
        reports_mantle(handle_mantle_movement_model(h, s, wish_velocity, time).ctx),
{
    broadcast use group_asks;
    broadcast use group_casts;
    broadcast use lemma_grip_move_character;
    broadcast use lemma_grip_calculate_platform_movement;

    reveal(handle_mantle_movement_model);
    reveal(mantle_carry_model);
    reveal(mantle_climb_model);
}

proof fn lemma_advance_reports_mantle(
    h: History,
    s: Step,
    wish_velocity: Vec3,
    wish_velocity_3d: Vec3,
    default_friction: Scalar,
    time: Time,
)
    ensures
        reports_mantle(
            advance_model(h, s, wish_velocity, wish_velocity_3d, default_friction, time).ctx,
        ),
{
    broadcast use lemma_grip_handle_crane_movement;
    broadcast use lemma_grip_locomote;

    reveal(advance_model);
    let s1 = update_mantle_state_model(
        h,
        update_crane_state_model(h, s, wish_velocity, time),
        wish_velocity,
        time,
    );
    law_crane_rules_out_mantle(h, s, wish_velocity, time);
    if s1.ctx.state.crane_height_left is None && s1.ctx.state.mantle is Some {
        let s2 = handle_jump_model(h, s1, wish_velocity, time);
        if s2.ctx.state.mantle is Some {
            law_mantle_movement_is_reported(h, s2, wish_velocity_3d, time);
        } else {
            reveal(handle_mantle_movement_model);
        }
    }
}

proof fn lemma_climbdown_reports_mantle(h: History, s: Step, wish_velocity: Vec3, time: Time)
    requires
        reports_mantle(s.ctx),
    ensures
        reports_mantle(handle_climbdown_model(h, s, wish_velocity, time).ctx),
{
    broadcast use group_casts;

    reveal(handle_climbdown_model);
    reveal(mantling);
    let drop = down() * s.ctx.cfg.crane_height;
    let (t, _) = cast_move_model(h, s, drop);
    law_mantle_probe_is_harmless(
        h,
        t.with_translation(s.transform.translation + drop),
        wish_velocity.negated(),
        time,
    );
}

/// A step ends as its parts say: a character that holds on to a ledge reports it; one whose feet
/// are under water stands on nothing; and one that stands on nothing has a finite velocity.
pub proof fn law_step_ends(h: History, s: Step, default_friction: Scalar, time: Time)
    ensures
        ({
            let (t, stepped) = step_kcc_model(h, s, default_friction, time);
            stepped ==> {
                &&& reports_mantle(t.ctx)
                &&& s.ctx.water.above_feet() ==> t.ctx.state.grounded is None
                &&& t.ctx.state.grounded is None ==> finite(t.ctx.velocity)
                &&& t.ctx.state.grounded is Some ==> t.ctx.state.mantle is None
                    && t.ctx.velocity.y == t.ctx.state.platform_velocity.y
            }
        }),
{
    broadcast use group_asks;

    reveal(step_kcc_model);
    let (s0, found) = collider_global_transform_model(h, s);
    assert(s0.ctx == s.ctx) by {
        reveal(collider_global_transform_model);
    }
    if let Some(original) = found {
        let begin = Step { transform: original, ..s0 };
        law_step_ends_finite(h, begin, default_friction, time);
        law_step_ends_on_ground(h, begin, default_friction, time);
        lemma_body_ends(h, begin, default_friction, time);
    }
}

/// A step only moves a character: the last thing it does is to move the character as its body has
/// moved, with the turn and the scale that the body had at first, and the character ends where that
/// took it.
pub proof fn law_step_only_translates(h: History, s: Step, default_friction: Scalar, time: Time)
    ensures
        ({
            let (t, stepped) = step_kcc_model(h, s, default_friction, time);
            stepped && t.ok ==> {
                let event = h[t.at - 1];
                let query = event->ApplyMovement_query;
                &&& 1 <= t.at <= h.len()
                &&& event is ApplyMovement
                &&& query.moved.rotation == query.original.rotation
                &&& query.moved.scale == query.original.scale
                &&& query.current == s.ctx.transform
                &&& t.ctx.transform == event->ApplyMovement_reply
                &&& collider_global_transform_model(h, s).1 == Some(query.original)
            }
        }),
{
    broadcast use group_asks;
    broadcast use lemma_keeps_step_body;

    reveal(step_kcc_model);
    reveal(ask_apply_movement);
    reveal(collider_global_transform_model);
}

/// A step that ends off the ground ends no faster than the highest speed, but for rounding. A
/// highest speed whose square is too great to hold is left out.
pub proof fn law_step_is_limited(h: History, s: Step, default_friction: Scalar, time: Time)
    requires
        s.ctx.cfg.max_speed.is_finite(),
        (s.ctx.cfg.max_speed * s.ctx.cfg.max_speed).is_finite(),
    ensures
        ({
            let (t, stepped) = step_kcc_model(h, s, default_friction, time);
            stepped && t.ctx.state.grounded is None ==> no_longer(
                t.ctx.velocity,
                s.ctx.cfg.max_speed,
            )
        }),
{
    broadcast use group_asks;

    reveal(step_kcc_model);
    let (s0, found) = collider_global_transform_model(h, s);
    assert(s0.ctx == s.ctx) by {
        reveal(collider_global_transform_model);
    }
    if let Some(original) = found {
        lemma_body_is_limited(h, Step { transform: original, ..s0 }, default_friction, time);
    }
}

proof fn lemma_body_is_limited(h: History, s: Step, default_friction: Scalar, time: Time)
    requires
        s.ctx.cfg.max_speed.is_finite(),
        (s.ctx.cfg.max_speed * s.ctx.cfg.max_speed).is_finite(),
    ensures
        ({
            let t = step_body_model(h, s, default_friction, time);
            t.ctx.state.grounded is None ==> no_longer(t.ctx.velocity, s.ctx.cfg.max_speed)
        }),
{
    reveal(step_body_model);
    reveal(settle_model);
    reveal(ended);
    reveal(gravity_finished);
    let s1 = prepare_model(h, s, time);
    let wish_velocity = wish_velocity_of(s1.ctx);
    let wish_velocity_3d = wish_velocity_3d_of(s1.ctx);
    let s2 = advance_model(h, s1, wish_velocity, wish_velocity_3d, default_friction, time);
    let s3 = update_grounded_model(h, s2, time);
    let s4 = if s2.ctx.state.grounded is Some {
        handle_climbdown_model(h, s3, wish_velocity, time)
    } else {
        s3
    };
    lemma_keeps_prepare(h, s, time);
    lemma_keeps_advance(h, s1, wish_velocity, wish_velocity_3d, default_friction, time);
    lemma_keeps_update_grounded(h, s2, time);
    lemma_keeps_handle_climbdown(h, s3, wish_velocity, time);
    let max_speed = s.ctx.cfg.max_speed;
    let valid = valid_velocity(s4.ctx.velocity, max_speed);
    law_valid_velocity_is_limited(s4.ctx.velocity, max_speed);
    law_valid_velocity_is_limited(
        valid.with_y(valid.y - s4.ctx.cfg.gravity * num(HALF) * time.delta_secs),
        max_speed,
    );
}

proof fn lemma_body_ends(h: History, s: Step, default_friction: Scalar, time: Time)
    ensures
        ({
            let t = step_body_model(h, s, default_friction, time);
            &&& reports_mantle(t.ctx)
            &&& s.ctx.water.above_feet() ==> t.ctx.state.grounded is None
        }),
{
    broadcast use lemma_grip_update_grounded;

    reveal(step_body_model);
    reveal(settle_model);
    reveal(ended);
    reveal(gravity_finished);
    let s1 = prepare_model(h, s, time);
    let wish_velocity = wish_velocity_of(s1.ctx);
    let wish_velocity_3d = wish_velocity_3d_of(s1.ctx);
    let s2 = advance_model(h, s1, wish_velocity, wish_velocity_3d, default_friction, time);
    let s3 = update_grounded_model(h, s2, time);
    lemma_keeps_prepare(h, s, time);
    lemma_keeps_advance(h, s1, wish_velocity, wish_velocity_3d, default_friction, time);
    lemma_advance_reports_mantle(
        h,
        s1,
        wish_velocity,
        wish_velocity_3d,
        default_friction,
        time,
    );
    lemma_climbdown_reports_mantle(h, s3, wish_velocity, time);
    lemma_climbdown_off_ground(h, s3, wish_velocity, time);
    if s.ctx.water.above_feet() {
        reveal(update_grounded_model);
        law_ground_contact(h, s2, None, time);
    }
}

proof fn lemma_pass_fits(
    h: History,
    at: nat,
    ctxs: Seq<Ctx>,
    i: int,
    default_friction: Scalar,
    time: Time,
)
    requires
        0 <= i < ctxs.len(),
        run_kcc_model(h, at, ctxs, default_friction, time).0.ok,
    ensures
        step_kcc_model(
            h,
            turn_of(h, at, ctxs, i, default_friction, time),
            default_friction,
            time,
        ).0.ok,
    decreases ctxs.len(),
{
    broadcast use group_asks;

    let rest = ctxs.drop_last();
    let turn = turn_of(h, at, ctxs, ctxs.len() - 1, default_friction, time);
    assert(ctxs.take(ctxs.len() - 1) =~= rest);
    if i < rest.len() {
        assert(step_kcc_model(h, turn, default_friction, time).0.ok ==> turn.ok) by {
            broadcast use lemma_keeps_step_body;

            reveal(step_kcc_model);
            reveal(collider_global_transform_model);
        }
        lemma_pass_fits(h, at, rest, i, default_friction, time);
        assert(rest.take(i) =~= ctxs.take(i));
    }
}

/// In a world that does not change, a character is stepped alike in every pass over characters:
/// alone or among others, and whatever their order.
pub proof fn law_order_of_characters(
    g: History,
    start: nat,
    ctxs: Seq<Ctx>,
    i: int,
    h: History,
    at: nat,
    others: Seq<Ctx>,
    j: int,
    default_friction: Scalar,
    time: Time,
)
    requires
        consistent(g, h),
        0 <= i < ctxs.len(),
        0 <= j < others.len(),
        ctxs[i] == others[j],
        run_kcc_model(g, start, ctxs, default_friction, time).0.ok,
        run_kcc_model(h, at, others, default_friction, time).0.ok,
    ensures
        run_kcc_model(g, start, ctxs, default_friction, time).0.done[i] == run_kcc_model(
            h,
            at,
            others,
            default_friction,
            time,
        ).0.done[j],
        run_kcc_model(g, start, ctxs, default_friction, time).1[i] == run_kcc_model(
            h,
            at,
            others,
            default_friction,
            time,
        ).1[j],
{
    let (first, stepped) = run_kcc_model(g, start, ctxs, default_friction, time);
    let (second, again) = run_kcc_model(h, at, others, default_friction, time);
    law_every_character(g, start, ctxs, default_friction, time);
    law_every_character(h, at, others, default_friction, time);
    lemma_pass_fits(g, start, ctxs, i, default_friction, time);
    lemma_pass_fits(h, at, others, j, default_friction, time);
    let s = turn_of(g, start, ctxs, i, default_friction, time);
    let t = turn_of(h, at, others, j, default_friction, time);
    assert(alike(s, t));
    lemma_again_step_kcc(g, s, h, t, default_friction, time);
    assert(first.done[i] == second.done[j] && stepped[i] == again[j]);
}

/// In a world that does not change, stepping all characters does to each of them what stepping it
/// by hand does.
pub proof fn law_all_as_by_hand(
    g: History,
    start: nat,
    ctxs: Seq<Ctx>,
    i: int,
    h: History,
    at: nat,
    others: Seq<Ctx>,
    j: int,
    default_friction: Scalar,
    time: Time,
)
    requires
        consistent(g, h),
        0 <= i < ctxs.len(),
        0 <= j < others.len(),
        ctxs[i] == others[j],
        first_of(others, ctxs[i].entity) == Some(j),
        run_kcc_model(g, start, ctxs, default_friction, time).0.ok,
        run_one_model(h, at, others, ctxs[i].entity, time.delta, default_friction).0.ok,
        h[at as int]->Seconds_reply == time.delta_secs,
    ensures
        ({
            let (pass, results) = run_kcc_model(g, start, ctxs, default_friction, time);
            let (lone, outcome) = run_one_model(
                h,
                at,
                others,
                ctxs[i].entity,
                time.delta,
                default_friction,
            );
            &&& pass.done[i] == lone.done[j]
            &&& results[i] <==> outcome == Outcome::Stepped
        }),
{
    law_every_character(g, start, ctxs, default_friction, time);
    lemma_pass_fits(g, start, ctxs, i, default_friction, time);
    reveal(run_one_model);
    let (t, secs) = ask_seconds(h, step_of(at, true, others[j]), time.delta);
    assert(secs == time.delta_secs && alike(t, step_of(at, true, others[j]))) by {
        reveal(ask_seconds);
    }
    let s = turn_of(g, start, ctxs, i, default_friction, time);
    assert(alike(s, t));
    assert(time == (Time { delta: time.delta, delta_secs: secs }));
    lemma_again_step_kcc(g, s, h, t, default_friction, time);
    let (pass, results) = run_kcc_model(g, start, ctxs, default_friction, time);
    assert(pass.done[i] == step_kcc_model(g, s, default_friction, time).0.ctx);
    assert(results[i] == step_kcc_model(g, s, default_friction, time).1);
}

/// Setting up leaves everything of a character but its setup and what its casts ignore. What was
/// set up already stays as it is. What is set up ignores its first collider, and nothing else that
/// it did not ignore before.
pub proof fn law_setup_each(h: History, at: nat, recruits: Seq<Enlisted>)
    ensures
        ({
            let roster = setup_collider_model(h, at, recruits);
            &&& roster.done.len() == recruits.len()
            &&& forall|i: int|
                0 <= i < recruits.len() ==> {
                    let before = recruits[i];
                    let after = #[trigger] roster.done[i];
                    ||| after == before && (before.setup is None ==> roster.missing)
                    ||| {
                        &&& before.setup is None
                        &&& after == (Enlisted {
                            excluded: after.excluded,
                            setup: after.setup,
                            ..before
                        })
                        &&& after.excluded == including(before.excluded, before.colliders[0])
                        &&& after.excluded.contains(before.colliders[0])
                        &&& after.setup matches Some(setup) && {
                            &&& setup.entity == before.entity
                            &&& setup.collider == before.colliders[0]
                            &&& setup.hand_half_size == before.hand_half_size
                        }
                    }
                }
        }),
    decreases recruits.len(),
{
    if recruits.len() > 0 {
        let rest = recruits.drop_last();
        law_setup_each(h, at, rest);
        let earlier = setup_collider_model(h, at, rest);
        let roster = setup_collider_model(h, at, recruits);
        reveal(enlist_model);
        reveal(setup_of);
        let r = recruits.last();
        assert(r.excluded.push(r.colliders[0]).last() == r.colliders[0]);
        assert(including(r.excluded, r.colliders[0]).contains(r.colliders[0])) by {
            let all = r.excluded.push(r.colliders[0]);
            assert(all[all.len() - 1] == r.colliders[0]);
        }
        assert forall|i: int| 0 <= i < rest.len() implies #[trigger] roster.done[i]
            == earlier.done[i] && rest[i] == recruits[i] by {}
    }
}

/// Once all characters are set up, setting up again changes nothing and asks nothing.
pub proof fn law_setup_once(g: History, start: nat, h: History, at: nat, recruits: Seq<Enlisted>)
    requires
        !setup_collider_model(g, start, recruits).missing,
    ensures
        setup_collider_model(h, at, setup_collider_model(g, start, recruits).done) == (Roster {
            at,
            ok: true,
            missing: false,
            done: setup_collider_model(g, start, recruits).done,
        }),
{
    law_setup_each(g, start, recruits);
    lemma_set_up(h, at, setup_collider_model(g, start, recruits).done);
}

proof fn lemma_set_up(h: History, at: nat, recruits: Seq<Enlisted>)
    requires
        forall|i: int| 0 <= i < recruits.len() ==> (#[trigger] recruits[i]).setup is Some,
    ensures
        setup_collider_model(h, at, recruits) == (Roster {
            at,
            ok: true,
            missing: false,
            done: recruits,
        }),
    decreases recruits.len(),
{
    if recruits.len() > 0 {
        let rest = recruits.drop_last();
        assert forall|i: int| 0 <= i < rest.len() implies (#[trigger] rest[i]).setup is Some by {
            assert(rest[i] == recruits[i]);
        }
        lemma_set_up(h, at, rest);
        assert(rest.push(recruits.last()) =~= recruits);
    } else {
        assert(recruits =~= Seq::empty());
    }
}

} // verus!
