//! Which way a character takes.
use crate::amounts::{
    amount, epsilon, extent, law_product_rounded, law_sum_rounded, lemma_amounts_ordered,
    lemma_difference_off, lemma_extent, lemma_scale_in_figures, off,
};
use crate::casting::{
    cast_move_model, depenetrate_character_model, group_casts, move_character_model, slid,
};
use crate::clock::{span, Stopwatch, Time};
use crate::ieee;
use crate::length_laws::{lemma_add_squares, lemma_not_negative, speck};
use crate::locomotion::{step_move_model, stepped_model};
use crate::number_laws::{law_square, law_sum_grows, lemma_one};
use crate::scalar::{group_bits, num, Scalar, ZERO};
use crate::vector::{down, up, Vec2, Vec3};
use crate::world::{group_asks, History, Step};
use vstd::prelude::*;

verus! {

/// The square of how far apart two places are horizontally, not rounded.
pub open spec fn apart(p: Vec3, q: Vec3) -> real {
    let x = amount(p.x) - amount(q.x);
    let z = amount(p.z) - amount(q.z);
    x * x + z * z
}

/// The square of a rounded difference.
#[verifier::spinoff_prover]
proof fn lemma_difference_square(a: Scalar, b: Scalar)
    requires
        (a - b).is_finite(),
    ensures
        ({
            let x = amount(a) - amount(b);
            let y = extent(a - b);
            &&& y * y <= x * x + (x * x) / 0x40_0000 as real
            &&& x * x <= y * y + (x * x) / 0x40_0000 as real
        }),
{
    let x = amount(a) - amount(b);
    let m = if x < 0 as real {
        0 as real - x
    } else {
        x
    };
    lemma_difference_off(a, b, m);
    lemma_extent(a - b);
    let y = extent(a - b);
    let xx = x * x;
    let yy = y * y;
    let d = m / 0x100_0000 as real;
    assert(y <= m + d && m <= y + d);
    assert(m * m == x * x) by (nonlinear_arith)
        requires
            m == x || m == 0 as real - x,
    ;
    assert(yy <= xx + xx / 0x40_0000 as real && xx <= yy + xx / 0x40_0000 as real)
        by (nonlinear_arith)
        requires
            xx == m * m,
            yy == y * y,
            0 as real <= y,
            0 as real <= m,
            y <= m + d,
            m <= y + d,
            d == m / 0x100_0000 as real,
    {
        let up = m + d;
        let low = m - d;
        assert(y * y <= up * up);
        assert(low * low <= y * y);
        assert(up * up == xx + 2 as real * (m * d) + d * d);
        assert(low * low == xx - 2 as real * (m * d) + d * d);
        assert(m * d == xx / 0x100_0000 as real);
        assert(d * d == (m * d) / 0x100_0000 as real);
    }
}

/// The computed square of a horizontal distance.
#[verifier::spinoff_prover]
pub proof fn lemma_distance(p: Vec3, q: Vec3)
    requires
        p.xz().distance_squared(q.xz()).is_finite(),
    ensures
        ({
            let far = p.xz().distance_squared(q.xz());
            &&& num(ZERO).le(far)
            &&& off(
                amount(far),
                apart(p, q),
                apart(p, q) / 0x10_0000 as real + 2 as real * speck(),
            )
            &&& apart(p, q) >= 0 as real
        }),
{
    broadcast use group_bits;

    reveal(Vec2::spec_distance_squared);
    reveal(Vec2::spec_dot);
    let dx = p.x - q.x;
    let dz = p.z - q.z;
    let xx = dx * dx;
    let zz = dz * dz;
    let far = xx + zz;
    assert(dx.is_finite() && dz.is_finite() && xx.is_finite() && zz.is_finite()) by {
        reveal(Scalar::spec_is_finite);
        reveal(Scalar::spec_add);
        reveal(Scalar::spec_mul);
        reveal(ieee::sum);
        reveal(ieee::product);
    }
    law_square(dx);
    law_square(dz);
    law_sum_grows(xx, zz);
    law_product_rounded(dx, dx);
    law_product_rounded(dz, dz);
    law_sum_rounded(xx, zz);
    lemma_scale_in_figures();
    lemma_extent(dx);
    lemma_extent(dz);
    lemma_extent(xx);
    lemma_extent(far);
    let x = extent(dx);
    let z = extent(dz);
    let no = 0 as real;
    lemma_not_negative(x);
    lemma_not_negative(z);
    let e = epsilon();
    let f = extent(xx);
    let ef = e * f;
    assert(ef >= no && e * no == no) by (nonlinear_arith)
        requires
            ef == e * f,
            f >= no,
            no == 0 as real,
            e == 1 as real / 0x100_0000 as real,
    ;
    lemma_add_squares(x * x, no, z * z, f, no, extent(zz), f, extent(far));
    lemma_difference_square(p.x, q.x);
    lemma_difference_square(p.z, q.z);
    lemma_not_negative(amount(p.x) - amount(q.x));
    lemma_not_negative(amount(p.z) - amount(q.z));
    assert(amount(far) == extent(far)) by {
        reveal(Scalar::spec_le);
        lemma_one();
    }
}

/// The end of the way over a step, freed from what it is inside of: the character is raised by the
/// size of a step, or as far as there is room, slides from there, and is lowered onto a floor that
/// can be walked on. There is no such way where something is too close ahead of the raised
/// character, or where no such floor is found.
pub open spec fn over_step(h: History, s: Step, time: Time) -> Option<Step> {
    let direct = move_character_model(h, s, time);
    let (s1, ceiling) = cast_move_model(h, direct.taking_path_of(s), up() * s.ctx.cfg.step_size);
    let room = match ceiling {
        Some(hit) => hit.distance,
        None => s.ctx.cfg.step_size,
    };
    let (s2, wall) = cast_move_model(
        h,
        s1.with_translation(s.transform.translation + up() * room),
        s.ctx.velocity.normalize_or_zero() * s.ctx.cfg.min_step_ledge_space,
    );
    let (s3, floor) = cast_move_model(
        h,
        move_character_model(h, s2, time),
        down() * s.ctx.cfg.step_size,
    );
    match (wall, floor) {
        (None, Some(hit)) => if s.ctx.cfg.min_walk_cos.le(hit.normal1.y) {
            Some(
                depenetrate_character_model(
                    h,
                    s3.with_translation(s3.transform.translation + down() * hit.distance),
                ),
            )
        } else {
            None
        },
        _ => None,
    }
}

/// A move takes the way over a step where that leads farther, and the direct way where it does not:
/// it ends at the end of the way that is farther from the start horizontally, whichever way that
/// is. A difference that rounding hides decides nothing.
#[verifier::spinoff_prover]
pub proof fn law_farther_way(h: History, s: Step, time: Time)
    requires
        ({
            let from = s.transform.translation.xz();
            let direct = move_character_model(h, s, time);
            &&& direct.transform.translation.xz().distance_squared(from).is_finite()
            &&& over_step(h, s, time) matches Some(end)
                ==> end.transform.translation.xz().distance_squared(from).is_finite()
        }),
    ensures
        ({
            let from = s.transform.translation;
            let direct = move_character_model(h, s, time);
            let t = step_move_model(h, s, time);
            let far = apart(direct.transform.translation, from);
            let goes_direct = {
                &&& t.transform.translation == direct.transform.translation
                &&& t.ctx.velocity == direct.ctx.velocity
                &&& t.ctx.touching == direct.ctx.touching
                &&& t.ctx.state.last_step_up == s.ctx.state.last_step_up
            };
            match over_step(h, s, time) {
                None => goes_direct,
                Some(end) => {
                    let farther = apart(end.transform.translation, from);
                    let blur = (far + farther) / 0x8_0000 as real + 8 as real * speck();
                    &&& farther > far + blur ==> {
                        &&& t.transform.translation == end.transform.translation
                        &&& t.ctx.velocity == end.ctx.velocity.with_y(direct.ctx.velocity.y)
                        &&& t.ctx.touching == end.ctx.touching
                        &&& t.ctx.state.last_step_up.elapsed == span(0)
                    }
                    &&& far > farther + blur ==> goes_direct
                }
            }
        }),
{
    broadcast use group_casts;
    broadcast use group_asks;

    reveal(step_move_model);
    reveal(stepped_model);
    reveal(move_character_model);
    reveal(slid);
    reveal(Stopwatch::spec_restarted);
    reveal(Stopwatch::spec_with_elapsed);
    let from = s.transform.translation;
    let direct = move_character_model(h, s, time);
    lemma_distance(direct.transform.translation, from);
    let near = direct.transform.translation.xz().distance_squared(from.xz());
    if let Some(end) = over_step(h, s, time) {
        lemma_distance(end.transform.translation, from);
        let far = end.transform.translation.xz().distance_squared(from.xz());
        if far.le(near) {
            lemma_amounts_ordered(far, near);
        } else {
            assert(near.le(far)) by {
                reveal(Scalar::spec_le);
                reveal(Scalar::spec_is_finite);
            }
            lemma_amounts_ordered(near, far);
        }
        lemma_scale_in_figures();
    }
}

} // verus!
