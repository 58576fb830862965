//! How a character leaps off a ledge.
use crate::amounts::{
    amount, bounded, extent, half_unit, lemma_amounts_ordered, lemma_extent, lemma_product_bounded,
    lemma_scale_in_figures, off,
};
use crate::context::Ctx;
use crate::direction_laws::{along, law_direction_along, lemma_measured, measurable};
use crate::estimates::{lemma_added, lemma_product_near, lemma_scaled, lemma_stands, stands};
use crate::frame_laws::{lemma_exact_sum, lemma_simple_amounts};
use crate::jump::{jump_speed, launched, ledge_jump};
use crate::jump_laws::lemma_summand_finite;
use crate::laws::finite;
use crate::length_laws::{lemma_factor_finite, lemma_not_negative, squared_length};
use crate::motion::{forward, movement};
use crate::number_laws::{law_times_one, law_zero_over, lemma_one};
use crate::reach_laws::lemma_one_times;
use crate::scalar::{group_bits, num, Scalar, ONE, ZERO};
use crate::slope_laws::lemma_nothing_times;
use crate::tac_laws::{lemma_square_of_product, lemma_squared_amount};
use crate::vector::{up, Vec3};
use crate::wish_laws::lemma_within_two;
use vstd::prelude::*;

verus! {

/// Whether a ledge that is held can be jumped off: a jump was asked for, and a mantle not just now.
pub open spec fn leaps(c: Ctx) -> bool {
    &&& c.state.mantle is Some
    &&& c.input.jumped is Some
    &&& c.input.mantled matches Some(press) ==> !press.elapsed.lt(c.cfg.mantle_input_buffer)
}

/// How far apart a leap and what it is made of may be.
pub open spec fn wobble(power: real) -> real {
    power / 0x1_0000 as real + 4 as real * half_unit() * (power + 1 as real)
}

/// Whether a leap goes ahead and up, the rise being `factor` times the way ahead, all times `k`.
pub open spec fn leaping(leap: Vec3, ahead: Vec3, factor: real, power: real, k: real) -> bool {
    &&& k >= 0 as real
    &&& off(amount(leap.x), k * amount(ahead.x), wobble(power))
    &&& off(amount(leap.y), k * factor, wobble(power))
    &&& off(amount(leap.z), k * amount(ahead.z), wobble(power))
}

#[verifier::spinoff_prover]
pub proof fn lemma_leap_part(d: Scalar, p: Scalar, x: real)
    requires
        (d * p).is_finite(),
        off(amount(d), x, 1 as real / 0x10_0000 as real),
        bounded(x, 2 as real),
        amount(p) >= 0 as real,
    ensures
        off(amount(d * p), x * amount(p), wobble(amount(p))),
{
    lemma_scale_in_figures();
    let q = amount(p);
    let e = 1 as real / 0x10_0000 as real;
    let no = 0 as real;
    let h = half_unit();
    lemma_product_near(d, p, x, q, 2 as real, q, e, no);
    assert(2 as real * no == no && e * no == no && q + no == q) by (nonlinear_arith)
        requires
            no == 0 as real,
    ;
    let f = 2 as real + e;
    let fq = f * q;
    let eq = e * q;
    assert(eq == q / 0x10_0000 as real) by (nonlinear_arith)
        requires
            eq == e * q,
            e == 1 as real / 0x10_0000 as real,
    ;
    assert(fq == 2 as real * q + eq) by (nonlinear_arith)
        requires
            fq == f * q,
            eq == e * q,
            f == 2 as real + e,
    ;
    let hq = h * q;
    assert(hq >= 0 as real) by (nonlinear_arith)
        requires
            hq == h * q,
            h >= 0 as real,
            q >= 0 as real,
    ;
    assert(4 as real * h * (q + 1 as real) == 4 as real * hq + 4 as real * h) by (nonlinear_arith)
        requires
            hq == h * q,
    ;
}

/// A leap off a ledge: there is one exactly where a ledge is held, a jump was asked for and a
/// mantle was not asked for just now. Without moving back it goes ahead of the look, horizontally,
/// and up, with the rise the jump factor times the way ahead; moving back it goes straight down. It
/// is as strong as its power, but for rounding. Looks straight up or down are left out.
#[verifier::spinoff_prover]
pub proof fn law_leap(c: Ctx)
    requires
        measurable(forward(c.state.orientation).flat()),
        num(ZERO).le(c.cfg.ledge_jump_power),
        c.cfg.ledge_jump_power.is_finite(),
        movement(c.input).y.is_finite(),
        ({
            let (ahead, _) = forward(c.state.orientation).flat().direction_and_length()->Some_0;
            measurable(up() * c.cfg.ledge_jump_factor + ahead)
        }),
        ledge_jump(c) matches Some(leap) ==> finite(leap),
    ensures
        ledge_jump(c) is Some <==> leaps(c),
        ledge_jump(c) matches Some(leap) ==> {
            let look = forward(c.state.orientation).flat();
            let p = amount(c.cfg.ledge_jump_power);
            let factor = amount(c.cfg.ledge_jump_factor);
            if amount(movement(c.input).y) >= 0 as real {
                exists|ahead: Vec3, k: real| #[trigger]
                    leaping(leap, ahead, factor, p, k) && along(
                        ahead,
                        look,
                        1 as real / extent(look.length()),
                    ) && as_strong(ahead, factor, p, k)
            } else {
                &&& amount(leap.x) == 0 as real
                &&& amount(leap.y) == 0 as real - p
                &&& amount(leap.z) == 0 as real
            }
        },
{
    broadcast use group_bits;

    reveal(ledge_jump);
    reveal(Vec3::spec_mul);
    reveal(Vec3::spec_add);
    lemma_one();
    lemma_simple_amounts();
    let look = forward(c.state.orientation).flat();
    law_direction_along(look);
    let (ahead, _) = look.direction_and_length()->Some_0;
    let factor = c.cfg.ledge_jump_factor;
    let t = up() * factor + ahead;
    lemma_measured(t);
    law_direction_along(t);
    let power = c.cfg.ledge_jump_power;
    let y = movement(c.input).y;
    assert(num(ZERO).is_finite()) by {
        reveal(Scalar::spec_is_finite);
    }
    lemma_amounts_ordered(num(ZERO), power);
    let p = amount(power);
    lemma_measured(look);
    assert(amount(ahead.y) == 0 as real && ahead.y.is_finite()) by {
        reveal(Vec3::spec_direction_and_length);
        reveal(Vec3::spec_over);
        lemma_extent(look.y);
        lemma_zero_divided(look.length());
    }
    lemma_summand_finite(num(ONE) * factor, ahead.y);
    lemma_factor_finite(num(ONE), factor);
    lemma_one_times(factor);
    lemma_nothing_times(factor);
    lemma_exact_sum(num(ZERO) * factor, ahead.x);
    lemma_exact_sum(num(ZERO) * factor, ahead.z);
    lemma_exact_sum(factor, ahead.y);
    if leaps(c) {
        let leap = ledge_jump(c)->Some_0;
        if num(ZERO).le(y) {
            lemma_amounts_ordered(num(ZERO), y);
            let dir = t.direction()->Some_0;
            let r = extent(t.length());
            let k0 = 1 as real / r;
            lemma_within_two(t.x, r);
            lemma_within_two(t.y, r);
            lemma_within_two(t.z, r);
            lemma_leap_part(dir.x, power, k0 * amount(t.x));
            lemma_leap_part(dir.y, power, k0 * amount(t.y));
            lemma_leap_part(dir.z, power, k0 * amount(t.z));
            let k = k0 * p;
            lemma_other_order(k0, amount(t.x), p);
            lemma_other_order(k0, amount(t.y), p);
            lemma_other_order(k0, amount(t.z), p);
            assert(k >= 0 as real) by (nonlinear_arith)
                requires
                    k == k0 * p,
                    k0 > 0 as real,
                    p >= 0 as real,
            ;
            lemma_strong(t, ahead, amount(factor), p, k0);
            assert(leaping(leap, ahead, amount(factor), p, k));
        } else {
            lemma_below(y);
            lemma_one_times(power);
            lemma_nothing_times(power);
            assert(amount(power.negated()) == 0 as real - p) by {
                reveal(Scalar::spec_negated);
            }
        }
    }
}

/// Whether `k` scales what goes ahead by one and up by `factor` to the length of the power.
pub open spec fn as_strong(ahead: Vec3, factor: real, power: real, k: real) -> bool {
    let way = amount(ahead.x) * amount(ahead.x) + amount(ahead.z) * amount(ahead.z);
    off(
        (k * k) * (way + factor * factor),
        power * power,
        (power * power) / 0x8_0000 as real,
    )
}

#[verifier::spinoff_prover]
proof fn lemma_strong(t: Vec3, ahead: Vec3, factor: real, p: real, k: real)
    requires
        amount(t.x) == amount(ahead.x),
        amount(t.y) == factor,
        amount(t.z) == amount(ahead.z),
        off(
            (k * k) * squared_length(t),
            1 as real,
            1 as real / 0x8_0000 as real,
        ),
    ensures
        as_strong(ahead, factor, p, k * p),
{
    lemma_squared_amount(t.x);
    lemma_squared_amount(t.y);
    lemma_squared_amount(t.z);
    lemma_square_of_product(k, p);
    let way = amount(ahead.x) * amount(ahead.x) + amount(ahead.z) * amount(ahead.z);
    let all = way + factor * factor;
    assert(all == squared_length(t));
    let kk = k * k;
    let pp = p * p;
    let ka = kk * all;
    assert((kk * pp) * all == ka * pp) by (nonlinear_arith)
        requires
            ka == kk * all,
    ;
    let e = ka - 1 as real;
    lemma_not_negative(p);
    lemma_product_bounded(e, pp, 1 as real / 0x8_0000 as real, pp);
    assert(ka * pp == pp + e * pp) by (nonlinear_arith)
        requires
            e == ka - 1 as real,
    ;
    assert((1 as real / 0x8_0000 as real) * pp == pp / 0x8_0000 as real) by (nonlinear_arith);
}

#[verifier::spinoff_prover]
proof fn lemma_other_order(k: real, t: real, p: real)
    ensures
        (k * t) * p == (k * p) * t,
{
    assert((k * t) * p == (k * p) * t) by (nonlinear_arith);
}

/// A finite number that is not at least zero is negative.
#[verifier::spinoff_prover]
pub proof fn lemma_below(y: Scalar)
    requires
        y.is_finite(),
        !num(ZERO).le(y),
    ensures
        amount(y) < 0 as real,
{
    broadcast use group_bits;

    reveal(Scalar::spec_is_finite);
    reveal(Scalar::spec_le);
    lemma_one();
    lemma_simple_amounts();
    lemma_extent(y);
    lemma_amounts_ordered(y, num(ZERO));
}

#[verifier::spinoff_prover]
proof fn lemma_zero_divided(r: Scalar)
    requires
        r.is_finite(),
        extent(r) > 0 as real,
    ensures
        num(ZERO).over(r).is_finite(),
        amount(num(ZERO).over(r)) == 0 as real,
{
    broadcast use group_bits;

    lemma_extent(r);
    lemma_one();
    assert(num(ZERO).is_finite()) by {
        reveal(Scalar::spec_is_finite);
    }
    law_zero_over(num(ZERO), r);
    lemma_extent(num(ZERO).over(r));
    reveal(Scalar::spec_is_finite);
}

/// Whether a launch along `dir` is within the measure `m`.
pub open spec fn launches_within(c: Ctx, dir: Vec3, m: real) -> bool {
    let js = extent(jump_speed(c.cfg));
    &&& 4 as real * (extent(c.velocity.x) + extent(dir.x) * js) <= m
    &&& 4 as real * (extent(c.velocity.y) + extent(dir.y) * js + extent(
        c.state.platform_velocity.y,
    )) <= m
    &&& 4 as real * (extent(c.velocity.z) + extent(dir.z) * js) <= m
}

/// One part of a velocity that is launched.
#[verifier::spinoff_prover]
proof fn lemma_launched_part(v: Scalar, d: Scalar, speed: Scalar, lift: Scalar, m: real)
    requires
        (v + (d * num(ONE) * speed + lift)).is_finite(),
        4 as real * (extent(v) + extent(d) * extent(speed) + extent(lift)) <= m,
    ensures
        stands(
            v + (d * num(ONE) * speed + lift),
            amount(v) + amount(d) * amount(speed) + amount(lift),
            m,
            3 as real,
        ),
{
    let push = d * num(ONE) * speed;
    lemma_summand_finite(v, push + lift);
    lemma_summand_finite(push, lift);
    lemma_factor_finite(d * num(ONE), speed);
    lemma_factor_finite(d, num(ONE));
    law_times_one(d);
    lemma_extent(v);
    lemma_extent(d);
    lemma_extent(speed);
    lemma_extent(lift);
    let (x, y) = (extent(d), extent(speed));
    let xy = x * y;
    assert(xy >= 0 as real) by (nonlinear_arith)
        requires
            xy == x * y,
            x >= 0 as real,
            y >= 0 as real,
    ;
    lemma_product_bounded(amount(d), amount(speed), x, y);
    let no = 0 as real;
    let one = 1 as real;
    lemma_stands(d, m);
    lemma_stands(v, m);
    lemma_stands(lift, m);
    lemma_scaled(d, speed, amount(d), m, no, y);
    assert(y * no + one == one) by (nonlinear_arith)
        requires
            one == 1 as real,
            no == 0 as real,
    ;
    lemma_added(push, lift, amount(d) * amount(speed), amount(lift), m, one, no);
    lemma_added(
        v,
        push + lift,
        amount(v),
        amount(d) * amount(speed) + amount(lift),
        m,
        no,
        2 as real,
    );
}

/// A launch adds the direction of the launch times the speed of a jump to the velocity, and the
/// rise of the ground, but for rounding. It spends the presses for a jump and a tic tac, and starts
/// the waits for the next ones; what was being held or stood on stays.
#[verifier::spinoff_prover]
pub proof fn law_launch(c: Ctx, dir: Vec3, m: real)
    requires
        launches_within(c, dir, m),
        finite(launched(c, dir).velocity),
        c.state.platform_velocity.y.is_finite(),
    ensures
        ({
            let after = launched(c, dir);
            let js = amount(jump_speed(c.cfg));
            let rise = amount(c.state.platform_velocity.y);
            &&& stands(after.velocity.x, amount(c.velocity.x) + amount(dir.x) * js, m, 3 as real)
            &&& stands(
                after.velocity.y,
                amount(c.velocity.y) + amount(dir.y) * js + rise,
                m,
                3 as real,
            )
            &&& stands(after.velocity.z, amount(c.velocity.z) + amount(dir.z) * js, m, 3 as real)
            &&& after.input.jumped is None && after.input.tac is None
            &&& after.state.last_jump == c.state.last_jump.restarted()
            &&& after.state.last_tac == c.state.last_tac.restarted()
            &&& after.state.grounded == c.state.grounded && after.state.mantle == c.state.mantle
        }),
{
    broadcast use group_bits;

    reveal(launched);
    reveal(Vec3::spec_mul);
    reveal(Vec3::spec_add);
    let rise = c.state.platform_velocity.y;
    lemma_one_times(rise);
    lemma_nothing_times(rise);
    lemma_extent(num(ZERO) * rise);
    let js = jump_speed(c.cfg);
    lemma_launched_part(c.velocity.x, dir.x, js, num(ZERO) * rise, m);
    lemma_launched_part(c.velocity.y, dir.y, js, rise, m);
    lemma_launched_part(c.velocity.z, dir.z, js, num(ZERO) * rise, m);
}

} // verus!
