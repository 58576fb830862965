//! How much friction takes.
use crate::amounts::{
    amount, bounded, epsilon, extent, half_unit, law_quotient_rounded, lemma_as_sum, lemma_extent,
    lemma_product_bounded, lemma_scale_in_figures, off,
};
use crate::context::Ctx;
use crate::estimates::{
    greatest, lemma_compared, lemma_nudge, lemma_product_near, lemma_stands, lemma_taken, nudge,
};
use crate::frame_laws::{lemma_exact_sum, lemma_simple_amounts};
use crate::ieee;
use crate::jump_laws::lemma_summand_finite;
use crate::laws::finite;
use crate::length_laws::lemma_factor_finite;
use crate::motion::{braked, friction_drop};
use crate::number_laws::{
    law_difference_ordered, law_zero_over, lemma_one, lemma_opposite, lemma_sum, minus, size,
};
use crate::rounding::lemma_nearest_zero;
use crate::scalar::{group_bits, num, Scalar, ZERO};
use crate::vector::Vec3;
use vstd::prelude::*;

verus! {

/// A product of three numbers, none of them negative and the last at most one.
#[verifier::spinoff_prover]
proof fn lemma_triple(a: Scalar, b: Scalar, c: Scalar, t: Scalar)
    requires
        (a * (b * c) * t).is_finite(),
        amount(a) >= 0 as real,
        amount(b) >= 0 as real,
        amount(c) >= 0 as real,
        amount(t) >= 0 as real,
        amount(t) <= 1 as real,
    ensures
        ({
            let all = (amount(a) * (amount(b) * amount(c))) * amount(t);
            off(
                amount(a * (b * c) * t),
                all,
                all / 0x20_0000 as real + 8 as real * half_unit() * (amount(a) + 1 as real),
            )
        }),
{
    lemma_scale_in_figures();
    let bc = b * c;
    let abc = a * bc;
    lemma_factor_finite(abc, t);
    lemma_factor_finite(a, bc);
    lemma_factor_finite(b, c);
    let (x, y, z, s) = (amount(a), amount(b), amount(c), amount(t));
    let no = 0 as real;
    let hu = half_unit();
    let yz = y * z;
    lemma_times_nothing(y, z);
    lemma_product_near(b, c, y, z, y, z, no, no);
    let e1 = yz / 0x100_0000 as real + hu;
    assert(off(amount(bc), yz, e1));
    lemma_not_under(y, z);
    lemma_times_nothing(x, e1);
    lemma_times_nothing(yz, e1);
    lemma_product_near(a, bc, x, yz, x, yz, no, e1);
    let all = x * yz;
    lemma_not_under(x, yz);
    let xh = x * hu;
    lemma_not_under(x, hu);
    let xe = x * e1;
    assert(xe == all / 0x100_0000 as real + xh) by (nonlinear_arith)
        requires
            xe == x * e1,
            e1 == yz / 0x100_0000 as real + hu,
            all == x * yz,
            xh == x * hu,
    ;
    assert(x * (yz + e1) == all + xe) by (nonlinear_arith)
        requires
            xe == x * e1,
            all == x * yz,
    ;
    let e2 = xe + (all + xe) / 0x100_0000 as real + hu;
    assert(off(amount(abc), all, e2));
    assert(e2 >= no && e2 <= all / 0x40_0000 as real + 2 as real * xh + hu);
    lemma_times_nothing(all, s);
    lemma_times_nothing(e2, s);
    lemma_product_near(abc, t, all, s, all, s, e2, no);
    let at = all * s;
    let es = e2 * s;
    lemma_not_under(all, s);
    assert((all + e2) * s == at + es) by (nonlinear_arith)
        requires
            at == all * s,
            es == e2 * s,
    ;
    let e3 = es + (at + es) / 0x100_0000 as real + hu;
    assert(off(amount(abc * t), at, e3));
    let w = 2 as real * xh + hu;
    let q = all / 0x40_0000 as real;
    assert(es <= at / 0x40_0000 as real + w) by (nonlinear_arith)
        requires
            es == e2 * s,
            e2 <= q + w,
            q == all / 0x40_0000 as real,
            at == all * s,
            0 as real <= s,
            s <= 1 as real,
            w >= 0 as real,
    {
        assert(e2 * s <= (q + w) * s);
        assert((q + w) * s == q * s + w * s);
        assert(w * s <= w);
        assert(q * s == at / 0x40_0000 as real);
    }
    assert(8 as real * hu * (x + 1 as real) == 8 as real * xh + 8 as real * hu)
        by (nonlinear_arith)
        requires
            xh == x * hu,
    ;
}

#[verifier::spinoff_prover]
proof fn lemma_times_nothing(x: real, y: real)
    ensures
        x * 0 as real == 0 as real,
        y * 0 as real == 0 as real,
        0 as real * x == 0 as real,
        0 as real * y == 0 as real,
        0 as real * 0 as real == 0 as real,
{
    assert(x * 0 as real == 0 as real && 0 as real * x == 0 as real) by (nonlinear_arith);
    assert(y * 0 as real == 0 as real && 0 as real * y == 0 as real) by (nonlinear_arith);
}

#[verifier::spinoff_prover]
proof fn lemma_not_under(x: real, y: real)
    requires
        x >= 0 as real,
        y >= 0 as real,
    ensures
        x * y >= 0 as real,
{
    assert(x * y >= 0 as real) by (nonlinear_arith)
        requires
            x >= 0 as real,
            y >= 0 as real,
    ;
}

/// What friction takes: the speed, but at least the speed below which a body stops sooner, times
/// the friction of the surface, how hard friction works and the time, but for rounding. A slide has
/// a friction of its own.
#[verifier::spinoff_prover]
pub proof fn law_friction_drop(c: Ctx, speed: Scalar, surface: Scalar, secs: Scalar)
    requires
        friction_drop(c, speed, surface, secs).is_finite(),
        speed.is_finite(),
        c.cfg.stop_speed.is_finite(),
        amount(speed) >= 0 as real,
        amount(c.cfg.friction_hz) >= 0 as real,
        amount(c.cfg.slide_friction_hz) >= 0 as real,
        amount(surface) >= 0 as real,
        amount(secs) >= 0 as real,
        amount(secs) <= 1 as real,
    ensures
        ({
            let hz = if c.state.sliding {
                amount(c.cfg.slide_friction_hz)
            } else {
                amount(c.cfg.friction_hz)
            };
            let control = greatest(amount(speed), amount(c.cfg.stop_speed));
            let taken = (control * (hz * amount(surface))) * amount(secs);
            off(
                amount(friction_drop(c, speed, surface, secs)),
                taken,
                taken / 0x20_0000 as real + 8 as real * half_unit() * (control + 1 as real),
            )
        }),
{
    broadcast use group_bits;

    reveal(friction_drop);
    lemma_one();
    lemma_simple_amounts();
    assert(num(ZERO).is_finite()) by {
        reveal(Scalar::spec_is_finite);
    }
    let hz = if c.state.sliding {
        c.cfg.slide_friction_hz
    } else {
        c.cfg.friction_hz
    };
    let stop = c.cfg.stop_speed;
    let control = speed.max(stop);
    let taken = control * (hz * surface) * secs;
    lemma_summand_finite(num(ZERO), taken);
    lemma_exact_sum(num(ZERO), taken);
    lemma_compared(speed, stop);
    assert(amount(control) == greatest(amount(speed), amount(stop))) by {
        reveal(Scalar::spec_max);
        reveal(Scalar::spec_is_finite);
    }
    lemma_triple(control, hz, surface, secs);
}

/// Whether `b` is `a` slowed down from the speed `s` to the speed `l`, but for rounding.
pub open spec fn slowed_part(b: Scalar, a: Scalar, s: real, l: real) -> bool {
    off(
        amount(b) * s,
        amount(a) * l,
        extent(a) * (s / 0x8_0000 as real + 8 as real * half_unit() * (s + 1 as real))
            + half_unit() * s,
    )
}

/// The share of the speed that is left.
#[verifier::spinoff_prover]
proof fn lemma_share(left: Scalar, speed: Scalar, l: real)
    requires
        left.is_finite(),
        speed.is_finite(),
        left.over(speed).is_finite(),
        amount(speed) > 0 as real,
        amount(left) >= 0 as real,
        amount(left) <= amount(speed),
        off(amount(left), l, nudge(amount(speed))),
    ensures
        ({
            let s = amount(speed);
            &&& off(
                amount(left.over(speed)) * s,
                l,
                s / 0x20_0000 as real + 4 as real * half_unit() * (s + 1 as real),
            )
            &&& amount(left.over(speed)) >= 0 as real
            &&& amount(left.over(speed)) <= 2 as real
        }),
{
    broadcast use group_bits;

    lemma_scale_in_figures();
    lemma_extent(left);
    lemma_extent(speed);
    let q = left.over(speed);
    lemma_extent(q);
    law_quotient_rounded(left, speed);
    assert(size(q) == 0 || !minus(q) || size(left) == 0) by {
        reveal(Scalar::spec_over);
        reveal(ieee::quotient);
        reveal(Scalar::spec_is_finite);
    }
    let (x, y, t) = (extent(q), extent(left), extent(speed));
    assert(y == amount(left));
    if size(left) == 0 {
        law_zero_over(left, speed);
    }
    assert(amount(q) == x);
    let z = y / t;
    let e = epsilon();
    let hu = half_unit();
    assert(z * t == y && z >= 0 as real && z <= 1 as real) by (nonlinear_arith)
        requires
            z == y / t,
            t > 0 as real,
            y >= 0 as real,
            y <= t,
    ;
    let ez = e * z;
    assert(ez == z / 0x100_0000 as real) by (nonlinear_arith)
        requires
            ez == e * z,
            e == 1 as real / 0x100_0000 as real,
    ;
    let d = x - z;
    let b = 1 as real / 0x100_0000 as real + hu;
    assert(bounded(d, b));
    lemma_product_bounded(d, t, b, t);
    assert(x * t == z * t + d * t) by (nonlinear_arith)
        requires
            d == x - z,
    ;
    let ht = hu * t;
    assert(b * t == t / 0x100_0000 as real + ht) by (nonlinear_arith)
        requires
            b == 1 as real / 0x100_0000 as real + hu,
            ht == hu * t,
    ;
    assert(ht >= 0 as real) by (nonlinear_arith)
        requires
            ht == hu * t,
            hu >= 0 as real,
            t > 0 as real,
    ;
    assert(4 as real * hu * (t + 1 as real) == 4 as real * ht + 4 as real * hu) by (nonlinear_arith)
        requires
            ht == hu * t,
    ;
}

/// One part of a velocity that is slowed down.
#[verifier::spinoff_prover]
proof fn lemma_slowed_part(a: Scalar, f: Scalar, s: real, l: real)
    requires
        (a * f).is_finite(),
        s > 0 as real,
        amount(f) >= 0 as real,
        amount(f) <= 2 as real,
        off(
            amount(f) * s,
            l,
            s / 0x20_0000 as real + 4 as real * half_unit() * (s + 1 as real),
        ),
    ensures
        slowed_part(a * f, a, s, l),
{
    lemma_scale_in_figures();
    lemma_extent(a);
    let (x, g) = (amount(a), amount(f));
    let ex = extent(a);
    let no = 0 as real;
    let hu = half_unit();
    let b = amount(a * f);
    lemma_times_nothing(ex, 2 as real);
    lemma_product_near(a, f, x, g, ex, 2 as real, no, no);
    let d = b - x * g;
    let e = (ex * 2 as real) / 0x100_0000 as real + hu;
    assert(bounded(d, e));
    lemma_product_bounded(d, s, e, s);
    let gs = g * s;
    assert(b * s == x * gs + d * s) by (nonlinear_arith)
        requires
            d == b - x * g,
            gs == g * s,
    {
        assert((x * g) * s == x * (g * s));
    }
    let r = gs - l;
    let w = s / 0x20_0000 as real + 4 as real * hu * (s + 1 as real);
    lemma_product_bounded(x, r, ex, w);
    assert(x * gs == x * l + x * r) by (nonlinear_arith)
        requires
            r == gs - l,
    ;
    let xs = ex * s;
    let u = hu * (s + 1 as real);
    let xu = ex * u;
    assert(4 as real * hu * (s + 1 as real) == 4 as real * u && 8 as real * hu * (s + 1 as real)
        == 8 as real * u) by (nonlinear_arith)
        requires
            u == hu * (s + 1 as real),
    ;
    assert(ex * w == xs / 0x20_0000 as real + 4 as real * xu) by (nonlinear_arith)
        requires
            w == s / 0x20_0000 as real + 4 as real * u,
            xs == ex * s,
            xu == ex * u,
    ;
    let wide = s / 0x8_0000 as real + 8 as real * u;
    assert(ex * wide == xs / 0x8_0000 as real + 8 as real * xu) by (nonlinear_arith)
        requires
            wide == s / 0x8_0000 as real + 8 as real * u,
            xs == ex * s,
            xu == ex * u,
    ;
    assert(e * s == (2 as real * xs) / 0x100_0000 as real + hu * s) by (nonlinear_arith)
        requires
            e == (ex * 2 as real) / 0x100_0000 as real + hu,
            xs == ex * s,
    ;
    lemma_not_under(ex, s);
    lemma_not_under(hu, s + 1 as real);
    lemma_not_under(ex, u);
}

/// Braking slows a velocity of the given speed down by what is taken, to rest where there is no
/// more: every part is scaled by the share of the speed that is left, but for rounding.
#[verifier::spinoff_prover]
pub proof fn law_braked(velocity: Vec3, speed: Scalar, drop: Scalar)
    requires
        finite(velocity),
        speed.is_finite(),
        drop.is_finite(),
        (speed - drop).is_finite(),
        num(ZERO).lt(speed),
        num(ZERO).le(drop),
        finite(braked(velocity, speed, drop)),
    ensures
        ({
            let after = braked(velocity, speed, drop);
            let s = amount(speed);
            let l = greatest(s - amount(drop), 0 as real);
            &&& slowed_part(after.x, velocity.x, s, l)
            &&& slowed_part(after.y, velocity.y, s, l)
            &&& slowed_part(after.z, velocity.z, s, l)
        }),
{
    broadcast use group_bits;

    reveal(braked);
    reveal(Vec3::spec_mul);
    lemma_one();
    lemma_simple_amounts();
    assert(num(ZERO).is_finite()) by {
        reveal(Scalar::spec_is_finite);
    }
    lemma_compared(num(ZERO), speed);
    lemma_compared(num(ZERO), drop);
    let s = amount(speed);
    let d = amount(drop);
    let l = greatest(s - d, 0 as real);
    lemma_left_over(speed, drop);
    let left = (speed - drop).max(num(ZERO));
    if left.same(speed) {
        lemma_same_left(left, speed);
        lemma_kept_part(velocity.x, s, l);
        lemma_kept_part(velocity.y, s, l);
        lemma_kept_part(velocity.z, s, l);
    } else {
        let f = left.over(speed);
        lemma_factor_finite(velocity.x, f);
        lemma_share(left, speed, l);
        lemma_slowed_part(velocity.x, f, s, l);
        lemma_slowed_part(velocity.y, f, s, l);
        lemma_slowed_part(velocity.z, f, s, l);
    }
}

#[verifier::spinoff_prover]
proof fn lemma_same_left(left: Scalar, speed: Scalar)
    requires
        left.is_finite(),
        speed.is_finite(),
        left.same(speed),
    ensures
        amount(left) == amount(speed),
{
    reveal(Scalar::spec_same);
    reveal(Scalar::spec_le);
    lemma_compared(left, speed);
    lemma_compared(speed, left);
}

/// The speed that is left.
#[verifier::spinoff_prover]
proof fn lemma_left_over(speed: Scalar, drop: Scalar)
    requires
        speed.is_finite(),
        drop.is_finite(),
        (speed - drop).is_finite(),
        amount(speed) > 0 as real,
        amount(drop) >= 0 as real,
    ensures
        ({
            let left = (speed - drop).max(num(ZERO));
            let s = amount(speed);
            &&& left.is_finite()
            &&& off(amount(left), greatest(s - amount(drop), 0 as real), nudge(s))
            &&& amount(left) >= 0 as real
            &&& amount(left) <= s
        }),
{
    broadcast use group_bits;

    lemma_one();
    lemma_simple_amounts();
    assert(num(ZERO).is_finite()) by {
        reveal(Scalar::spec_is_finite);
    }
    let no = num(ZERO);
    let diff = speed - drop;
    let s = amount(speed);
    lemma_nudge(s);
    lemma_compared(diff, no);
    lemma_compared(speed, drop);
    lemma_compared(drop, speed);
    lemma_compared(no, drop);
    law_difference_ordered(speed, no, drop);
    lemma_exact_sum(speed, no);
    reveal(Scalar::spec_max);
    reveal(Scalar::spec_lt);
    reveal(Scalar::spec_le);
    reveal(Scalar::spec_is_finite);
    lemma_compared(diff, speed - no);
    if amount(drop) <= s {
        lemma_stands(speed, s);
        lemma_stands(drop, s);
        lemma_taken(speed, drop, s, amount(drop), s, 0 as real, 0 as real);
        let n = nudge(s);
        assert(1 as real * n == n) by (nonlinear_arith);
    } else {
        law_difference_ordered(speed, speed, drop);
        lemma_itself(speed);
        lemma_compared(diff, speed - speed);
    }
}

#[verifier::spinoff_prover]
proof fn lemma_itself(a: Scalar)
    requires
        a.is_finite(),
    ensures
        (a - a).is_finite(),
        amount(a - a) == 0 as real,
{
    broadcast use group_bits;

    lemma_as_sum(a, a);
    lemma_opposite(a);
    lemma_sum(a, a.negated());
    lemma_extent(a - a);
    lemma_nearest_zero(1);
    reveal(Scalar::spec_is_finite);
}

#[verifier::spinoff_prover]
proof fn lemma_kept_part(a: Scalar, s: real, l: real)
    requires
        a.is_finite(),
        s > 0 as real,
        off(s, l, nudge(s)),
    ensures
        slowed_part(a, a, s, l),
{
    lemma_scale_in_figures();
    lemma_extent(a);
    let x = amount(a);
    let ex = extent(a);
    let hu = half_unit();
    let d = s - l;
    let n = nudge(s);
    lemma_nudge(s);
    lemma_product_bounded(x, d, ex, n);
    assert(x * s == x * l + x * d) by (nonlinear_arith)
        requires
            d == s - l,
    ;
    let u = hu * (s + 1 as real);
    assert(u >= hu) by (nonlinear_arith)
        requires
            u == hu * (s + 1 as real),
            s > 0 as real,
            hu >= 0 as real,
    ;
    assert(8 as real * hu * (s + 1 as real) == 8 as real * u) by (nonlinear_arith)
        requires
            u == hu * (s + 1 as real),
    ;
    let w = s / 0x8_0000 as real + 8 as real * u;
    assert(ex * n <= ex * w) by (nonlinear_arith)
        requires
            ex >= 0 as real,
            n <= w,
    ;
    lemma_not_under(hu, s);
}

} // verus!
