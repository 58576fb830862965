//! How climbing follows the look.
use crate::amounts::{
    amount, bounded, extent, half_unit, lemma_amounts_ordered, lemma_extent, lemma_product_bounded,
    lemma_scale_in_figures, lemma_sum_off, off,
};
use crate::climb::climb_factor;
use crate::context::Ctx;
use crate::estimates::{
    lemma_added, lemma_nudge, lemma_product_near, lemma_scaled, lemma_stands, nudge, stands,
};
use crate::frame_laws::lemma_simple_amounts;
use crate::length_laws::{lemma_extent_below, lemma_sum_moderate};
use crate::motion::{forward, movement, HUNDREDTH};
use crate::number_laws::{
    law_product_finite, law_product_ordered, law_sum_ordered, law_times_zero, lemma_one,
    lemma_opposite, lemma_product, minus, size,
};
use crate::scalar::{group_bits, num, Scalar, MINUS_ONE, ONE, ZERO};
use crate::vector::Vec3;
use vstd::prelude::*;

verus! {

/// Whether the look, the movement and the tuning of climbs are within all measure.
pub open spec fn climbs_in_measure(c: Ctx) -> bool {
    let most = 0x1000_0000_0000 as real;
    &&& forward(c.state.orientation).y.is_finite()
    &&& bounded(amount(forward(c.state.orientation).y), 2 as real)
    &&& movement(c.input).y.is_finite() && extent(movement(c.input).y) <= most
    &&& c.cfg.climb_reverse_sin.is_finite() && extent(c.cfg.climb_reverse_sin) <= most
    &&& c.cfg.climb_sensitivity.is_finite() && extent(c.cfg.climb_sensitivity) <= most
}

/// `x`, but no less than minus one and no more than one.
pub open spec fn held_in(x: real) -> real {
    if x < 0 as real - 1 as real {
        0 as real - 1 as real
    } else if x > 1 as real {
        1 as real
    } else {
        x
    }
}

/// How the look is seen by a climb, not rounded: how far up it points, as much as the movement is
/// ahead or back, counted from where it turns around.
pub open spec fn steep(c: Ctx) -> real {
    amount(forward(c.state.orientation).y) * extent(movement(c.input).y) + amount(
        c.cfg.climb_reverse_sin,
    )
}

/// What the numbers of a climb factor stand for.
#[verifier::spinoff_prover]
proof fn lemma_steep(c: Ctx)
    requires
        climbs_in_measure(c),
    ensures
        ({
            let a = movement(c.input).y.abs();
            let rise = forward(c.state.orientation).y * a;
            let sum = rise + c.cfg.climb_reverse_sin;
            let m = 2 as real * extent(movement(c.input).y) + extent(c.cfg.climb_reverse_sin);
            &&& a.is_finite() && num(ZERO).le(a)
            &&& rise.is_finite()
            &&& stands(sum, steep(c), m, 2 as real)
            &&& bounded(steep(c), m)
            &&& (sum * c.cfg.climb_sensitivity).is_finite()
        }),
{
    broadcast use group_bits;

    let y = forward(c.state.orientation).y;
    let ahead = movement(c.input).y;
    let a = ahead.abs();
    let r = c.cfg.climb_reverse_sin;
    let s = c.cfg.climb_sensitivity;
    let m = 2 as real * extent(ahead) + extent(r);
    assert(a.is_finite() && num(ZERO).le(a) && size(a) == size(ahead) && !minus(a)) by {
        reveal(Scalar::spec_is_finite);
        reveal(Scalar::spec_le);
        reveal(Scalar::spec_abs);
    }
    lemma_extent(y);
    lemma_extent(a);
    lemma_extent(ahead);
    lemma_extent(r);
    lemma_extent(s);
    assert(amount(a) == extent(ahead));
    lemma_extent_below(y);
    lemma_extent_below(a);
    law_product_finite(y, a);
    lemma_stands(y, m);
    let x = amount(y) * amount(a);
    lemma_product_bounded(amount(y), amount(a), 2 as real, extent(ahead));
    let no = 0 as real;
    let q = extent(ahead);
    assert(q * no == no) by (nonlinear_arith)
        requires
            no == 0 as real,
    ;
    lemma_scaled(y, a, amount(y), m, no, q);
    let rise = y * a;
    lemma_nudge(m);
    lemma_scale_in_figures();
    lemma_extent(rise);
    lemma_sum_moderate(rise, r);
    lemma_stands(r, m);
    lemma_added(rise, r, x, amount(r), m, 1 as real, no);
    let sum = rise + r;
    lemma_extent(sum);
    lemma_extent_below(sum);
    lemma_extent_below(s);
    law_product_finite(sum, s);
}

/// What clamping to one does.
proof fn lemma_held(f: Scalar)
    requires
        f.is_finite(),
    ensures
        ({
            let g = f.clamp(num(MINUS_ONE), num(ONE));
            &&& g.is_finite()
            &&& amount(g) == held_in(amount(f))
            &&& num(MINUS_ONE).le(g) && g.le(num(ONE))
        }),
{
    broadcast use group_bits;

    lemma_simple_amounts();
    reveal(Scalar::spec_clamp);
    reveal(Scalar::spec_is_finite);
    reveal(Scalar::spec_lt);
    reveal(Scalar::spec_le);
    let low = num(MINUS_ONE);
    let high = num(ONE);
    if f.lt(low) {
        lemma_amounts_ordered(f, low);
    } else if high.lt(f) {
        lemma_amounts_ordered(high, f);
    } else {
        lemma_amounts_ordered(low, f);
        lemma_amounts_ordered(f, high);
    }
}

/// A climb follows the look: with a movement ahead its factor is how far up the look points,
/// counted from where climbing turns around and times the sensitivity, held between minus one and
/// one, but for rounding. A movement back turns the factor around, and without a wish there is
/// none.
#[verifier::spinoff_prover]
pub proof fn law_climb_factor(c: Ctx, wish_velocity: Vec3)
    requires
        climbs_in_measure(c),
    ensures
        ({
            let factor = climb_factor(c, wish_velocity);
            let s = amount(c.cfg.climb_sensitivity);
            let size = 2 as real * extent(movement(c.input).y) + extent(c.cfg.climb_reverse_sin)
                + 1 as real;
            let wide = (size * (extent(c.cfg.climb_sensitivity) + 1 as real)) / 0x10_0000 as real;
            &&& factor.is_finite()
            &&& num(MINUS_ONE).le(factor) && factor.le(num(ONE))
            &&& wish_velocity.length_squared().lt(num(HUNDREDTH)) ==> amount(factor) == 0 as real
            &&& !wish_velocity.length_squared().lt(num(HUNDREDTH)) ==> if amount(
                movement(c.input).y,
            ) < 0 as real {
                off(amount(factor), 0 as real - held_in(steep(c) * s), wide)
            } else {
                off(amount(factor), held_in(steep(c) * s), wide)
            }
        }),
{
    broadcast use group_bits;

    reveal(climb_factor);
    reveal(Vec3::spec_mul);
    lemma_simple_amounts();
    lemma_one();
    lemma_steep(c);
    let ahead = movement(c.input).y;
    let a = ahead.abs();
    let y = forward(c.state.orientation).y;
    let r = c.cfg.climb_reverse_sin;
    let sens = c.cfg.climb_sensitivity;
    let sum = y * a + r;
    let raw = sum * sens;
    let f = raw.clamp(num(MINUS_ONE), num(ONE));
    lemma_held(raw);
    lemma_opposite(f);
    lemma_extent(ahead);
    lemma_extent(r);
    lemma_extent(sens);
    lemma_extent(f);
    lemma_extent(num(ZERO));
    let m = 2 as real * extent(ahead) + extent(r);
    let d = 2 as real * nudge(m);
    let q = extent(sens);
    lemma_nudge(m);
    lemma_product_near(sum, sens, steep(c), amount(sens), m, q, d, 0 as real);
    lemma_scale_in_figures();
    let h = half_unit();
    let size = m + 1 as real;
    let wide = (size * (q + 1 as real)) / 0x10_0000 as real;
    let no = 0 as real;
    let e = m * no + d * q + d * no + ((m + d) * (q + no)) / 0x100_0000 as real + h;
    let sq = size * q;
    let dq = d * q;
    let mq = m * q;
    assert(m * no == no && d * no == no) by (nonlinear_arith)
        requires
            no == 0 as real,
    ;
    assert((m + d) * (q + no) == mq + dq) by (nonlinear_arith)
        requires
            mq == m * q,
            dq == d * q,
            no == 0 as real,
    ;
    assert(size * (q + 1 as real) == sq + size) by (nonlinear_arith)
        requires
            sq == size * q,
    ;
    assert(mq <= sq && mq >= no) by (nonlinear_arith)
        requires
            mq == m * q,
            sq == size * q,
            size == m + 1 as real,
            q >= 0 as real,
            m >= 0 as real,
            no == 0 as real,
    ;
    assert(dq <= sq / 0x20_0000 as real && dq >= no) by (nonlinear_arith)
        requires
            dq == d * q,
            sq == size * q,
            0 as real <= d,
            d <= size / 0x20_0000 as real,
            q >= 0 as real,
            no == 0 as real,
    ;
    assert(e <= wide);
    if !wish_velocity.length_squared().lt(num(HUNDREDTH)) {
        assert(ahead.lt(num(ZERO)) <==> amount(ahead) < 0 as real) by {
            reveal(Scalar::spec_lt);
            reveal(Scalar::spec_is_finite);
        }
        reveal(Scalar::spec_is_finite);
        reveal(Scalar::spec_le);
    } else {
        reveal(Scalar::spec_is_finite);
        reveal(Scalar::spec_le);
    }
}

/// Looking farther up never climbs slower: with a movement ahead the factor of a climb does not
/// decrease as the look rises.
pub proof fn law_climb_rises_with_look(c: Ctx, d: Ctx, wish_velocity: Vec3)
    requires
        climbs_in_measure(c),
        climbs_in_measure(d),
        c.cfg == d.cfg,
        movement(c.input) == movement(d.input),
        num(ZERO).le(movement(c.input).y),
        num(ZERO).le(c.cfg.climb_sensitivity),
        forward(c.state.orientation).y.le(forward(d.state.orientation).y),
    ensures
        climb_factor(c, wish_velocity).le(climb_factor(d, wish_velocity)),
{
    broadcast use group_bits;

    reveal(climb_factor);
    reveal(Vec3::spec_mul);
    lemma_steep(c);
    lemma_steep(d);
    let a = movement(c.input).y.abs();
    let (y, z) = (forward(c.state.orientation).y, forward(d.state.orientation).y);
    let r = c.cfg.climb_reverse_sin;
    let s = c.cfg.climb_sensitivity;
    law_product_ordered(y, z, a);
    law_sum_ordered(y * a, z * a, r);
    law_product_ordered(y * a + r, z * a + r, s);
    reveal(Scalar::spec_clamp);
    reveal(Scalar::spec_lt);
    reveal(Scalar::spec_le);
}

/// A product of numbers that are not negative is not negative.
#[verifier::spinoff_prover]
pub proof fn lemma_product_sign(a: Scalar, b: Scalar)
    requires
        a.is_finite(),
        b.is_finite(),
        amount(a) >= 0 as real,
        amount(b) >= 0 as real,
        (a * b).is_finite(),
    ensures
        amount(a * b) >= 0 as real,
{
    lemma_extent(a);
    lemma_extent(b);
    lemma_extent(a * b);
    lemma_product(a, b);
    if minus(a) {
        law_times_zero(a, b);
    } else if minus(b) {
        law_times_zero(a, b);
    }
}

/// A sum of numbers that are not negative is not negative.
#[verifier::spinoff_prover]
pub proof fn lemma_sum_sign(a: Scalar, b: Scalar)
    requires
        amount(a) >= 0 as real,
        amount(b) >= 0 as real,
        (a + b).is_finite(),
    ensures
        amount(a + b) >= 0 as real,
{
    lemma_sum_off(a, b, amount(a) + amount(b));
}

/// A look that is level or upward never climbs down with a movement ahead, and never climbs up with
/// a movement back.
pub proof fn law_climb_side(c: Ctx, wish_velocity: Vec3)
    requires
        climbs_in_measure(c),
        num(ZERO).le(c.cfg.climb_sensitivity),
    ensures
        ({
            let factor = climb_factor(c, wish_velocity);
            let ahead = amount(movement(c.input).y);
            let up = amount(forward(c.state.orientation).y) >= 0 as real && amount(
                c.cfg.climb_reverse_sin,
            ) >= 0 as real;
            &&& ahead >= 0 as real && up ==> amount(factor) >= 0 as real
            &&& ahead < 0 as real && up ==> amount(factor) <= 0 as real
        }),
{
    broadcast use group_bits;

    reveal(climb_factor);
    reveal(Vec3::spec_mul);
    lemma_steep(c);
    lemma_one();
    lemma_simple_amounts();
    let ahead = movement(c.input).y;
    let a = ahead.abs();
    let y = forward(c.state.orientation).y;
    let r = c.cfg.climb_reverse_sin;
    let s = c.cfg.climb_sensitivity;
    let raw = (y * a + r) * s;
    lemma_held(raw);
    lemma_opposite(raw.clamp(num(MINUS_ONE), num(ONE)));
    lemma_extent(ahead);
    lemma_extent(num(ZERO));
    lemma_extent(raw.clamp(num(MINUS_ONE), num(ONE)));
    assert(ahead.lt(num(ZERO)) <==> amount(ahead) < 0 as real) by {
        reveal(Scalar::spec_lt);
        reveal(Scalar::spec_is_finite);
    }
    if amount(y) >= 0 as real && amount(r) >= 0 as real {
        lemma_extent(a);
        lemma_amounts_ordered(num(ZERO), a);
        lemma_amounts_ordered(num(ZERO), s);
        lemma_product_sign(y, a);
        lemma_sum_sign(y * a, r);
        lemma_product_sign(y * a + r, s);
    }
}

} // verus!
