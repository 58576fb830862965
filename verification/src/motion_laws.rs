//! Laws of friction, slides and pushes in the air.
use crate::amounts::{
    epsilon, extent, half_unit, law_product_rounded, law_quotient_rounded, law_root_rounded,
    law_sum_rounded, lemma_extent, lemma_scale_in_figures, rounded,
};
use crate::clock::Time;
use crate::context::Ctx;
use crate::ieee;
use crate::laws::{finite, law_slide_boost_fades, lemma_friction_speed};
use crate::length_laws::{
    lemma_add_squares, lemma_extents_ordered, lemma_factor_finite, lemma_length_ratio,
    lemma_not_negative, lemma_stretched_part, sharp, slack, speck,
};
use crate::motion::{
    air_pushed, braked, friction_drop, friction_model, friction_speed, surface_friction_model,
    THOUSANDTH,
};
use crate::number_laws::{
    law_difference_shrinks, law_over_itself, law_plus_zero, law_product_not_negative,
    law_product_shrinks, law_quotient_ordered, law_ratio, law_square, law_sum_grows,
    law_sum_ordered, law_root, law_times_one, law_times_zero, law_zero_over, lemma_one,
    lemma_over_infinite, lemma_product, lemma_quotient, size,
};
use crate::scalar::{group_bits, num, Scalar, ONE, ZERO};
use crate::stance::{slide_boost_at, sliding_updated};
use crate::vector::{Vec2, Vec3};
use crate::world::{History, Step};
use vstd::prelude::*;

verus! {

/// Whether `after` is `before` with all parts scaled by one factor from zero to one.
pub open spec fn slowed(before: Vec3, after: Vec3, factor: Scalar) -> bool {
    &&& num(ZERO).le(factor)
    &&& factor.le(num(ONE))
    &&& after == before * factor
}

proof fn lemma_unscaled(v: Vec3)
    requires
        finite(v),
    ensures
        v * num(ONE) == v,
        slowed(v, v, num(ONE)),
{
    broadcast use group_bits;

    reveal(Vec3::spec_mul);
    reveal(Scalar::spec_le);
    law_times_one(v.x);
    law_times_one(v.y);
    law_times_one(v.z);
}

/// Braking scales a velocity by one factor from zero to one.
pub proof fn law_braking_scales(velocity: Vec3, speed: Scalar, drop: Scalar)
    requires
        finite(velocity),
        num(ZERO).lt(speed),
        !drop.lt(num(ZERO)),
    ensures
        exists|factor: Scalar| #[trigger] slowed(velocity, braked(velocity, speed, drop), factor),
{
    broadcast use group_bits;

    reveal(braked);
    let left = (speed - drop).max(num(ZERO));
    let after = braked(velocity, speed, drop);
    if left.same(speed) {
        lemma_unscaled(velocity);
        assert(slowed(velocity, after, num(ONE)));
    } else {
        let factor = left.over(speed);
        reveal(Scalar::spec_is_finite);
        reveal(Scalar::spec_is_number);
        reveal(Scalar::spec_lt);
        reveal(Scalar::spec_le);
        reveal(Scalar::spec_max);
        lemma_one();
        if drop.is_nan() {
            assert((speed - drop).is_nan()) by {
                reveal(Scalar::spec_sub);
                reveal(Scalar::spec_negated);
                reveal(ieee::sum);
            }
        }
        if speed.is_finite() {
            if !drop.is_nan() {
                law_difference_shrinks(speed, drop);
            }
            law_ratio(left, speed);
            lemma_quotient(left, speed);
            if size(left) == 0 {
                law_zero_over(left, speed);
            }
        } else {
            assert(left == num(ZERO)) by {
                reveal(Scalar::spec_sub);
                reveal(Scalar::spec_negated);
                reveal(Scalar::spec_same);
                reveal(ieee::sum);
            }
            lemma_over_infinite(left, speed);
        }
        assert(slowed(velocity, after, factor));
    }
}

/// What friction takes is not negative, as long as neither the tuning nor the surface is.
pub proof fn law_friction_takes(c: Ctx, speed: Scalar, surface: Scalar, secs: Scalar)
    requires
        num(ZERO).le(speed),
        !c.cfg.friction_hz.lt(num(ZERO)),
        !c.cfg.slide_friction_hz.lt(num(ZERO)),
        !surface.lt(num(ZERO)),
        !secs.lt(num(ZERO)),
    ensures
        !friction_drop(c, speed, surface, secs).lt(num(ZERO)),
{
    broadcast use group_bits;

    reveal(friction_drop);
    let hz = if c.state.sliding {
        c.cfg.slide_friction_hz
    } else {
        c.cfg.friction_hz
    };
    let control = speed.max(c.cfg.stop_speed);
    assert(!control.lt(num(ZERO))) by {
        reveal(Scalar::spec_lt);
        reveal(Scalar::spec_le);
        reveal(Scalar::spec_max);
    }
    law_product_not_negative(hz, surface);
    law_product_not_negative(control, hz * surface);
    let taken = control * (hz * surface) * secs;
    law_product_not_negative(control * (hz * surface), secs);
    reveal(Scalar::spec_lt);
    lemma_one();
    if taken.is_nan() {
        reveal(Scalar::spec_add);
        reveal(ieee::sum);
    } else {
        assert(num(ZERO).le(num(ZERO)) && num(ZERO).le(taken)) by {
            reveal(Scalar::spec_le);
        }
        law_sum_grows(num(ZERO), taken);
        reveal(Scalar::spec_le);
    }
}

/// Friction scales the velocity by one factor from zero to one, so that it keeps its direction and
/// does not grow, as long as neither the tuning nor the surface is negative.
pub proof fn law_friction_scales(h: History, s: Step, default_friction: Scalar, time: Time)
    requires
        finite(s.ctx.velocity),
        !s.ctx.cfg.friction_hz.lt(num(ZERO)),
        !s.ctx.cfg.slide_friction_hz.lt(num(ZERO)),
        !surface_friction_model(h, s, default_friction).1.lt(num(ZERO)),
        !time.delta_secs.lt(num(ZERO)),
    ensures
        exists|factor: Scalar| #[trigger]
            slowed(
                s.ctx.velocity,
                friction_model(h, s, default_friction, time).ctx.velocity,
                factor,
            ),
{
    reveal(friction_model);
    lemma_unscaled(s.ctx.velocity);
    if let Some(speed) = friction_speed(s.ctx) {
        lemma_friction_speed(s.ctx, speed);
        if !speed.lt(num(THOUSANDTH)) {
            let surface = surface_friction_model(h, s, default_friction).1;
            assert(num(ZERO).lt(speed)) by {
                broadcast use group_bits;

                reveal(Scalar::spec_lt);
                reveal(Scalar::spec_le);
            }
            law_friction_takes(s.ctx, speed, surface, time.delta_secs);
            let drop = friction_drop(s.ctx, speed, surface, time.delta_secs);
            law_braking_scales(s.ctx.velocity, speed, drop);
            assert(friction_model(h, s, default_friction, time).ctx.velocity == braked(
                s.ctx.velocity,
                speed,
                drop,
            ));
        }
    }
}

/// The horizontal speed of a finite velocity is not negative.
pub proof fn lemma_level_speed(v: Vec3)
    requires
        finite(v),
    ensures
        num(ZERO).le(v.xz().length()),
{
    reveal(Vec2::spec_length);
    reveal(Vec2::spec_dot);
    law_square(v.x);
    law_square(v.z);
    law_sum_grows(v.x * v.x, v.z * v.z);
    law_root(v.x * v.x + v.z * v.z);
}

/// What a slide adds is between nothing and the full boost.
pub proof fn law_slide_boost_is_limited(c: Ctx, speed: Scalar)
    requires
        speed.is_finite(),
        num(ZERO).le(speed),
        num(ZERO).le(c.cfg.slide_boost),
        c.cfg.slide_boost.is_finite(),
        num(ZERO).lt(c.cfg.slide_boost_max_speed),
    ensures
        num(ZERO).le(slide_boost_at(c.cfg, speed)),
        slide_boost_at(c.cfg, speed).le(c.cfg.slide_boost),
        slide_boost_at(c.cfg, speed).is_finite(),
{
    broadcast use group_bits;

    reveal(slide_boost_at);
    reveal(Scalar::spec_is_finite);
    reveal(Scalar::spec_is_number);
    reveal(Scalar::spec_lt);
    reveal(Scalar::spec_le);
    reveal(Scalar::spec_max);
    lemma_one();
    let ratio = speed.over(c.cfg.slide_boost_max_speed);
    if c.cfg.slide_boost_max_speed.is_finite() {
        lemma_quotient(speed, c.cfg.slide_boost_max_speed);
        if size(speed) == 0 {
            law_zero_over(speed, c.cfg.slide_boost_max_speed);
        }
    } else {
        lemma_over_infinite(speed, c.cfg.slide_boost_max_speed);
    }
    law_difference_shrinks(num(ONE), ratio);
    let share = (num(ONE) - ratio).max(num(ZERO));
    law_product_shrinks(c.cfg.slide_boost, share);
    lemma_product(c.cfg.slide_boost, share);
    if size(c.cfg.slide_boost) == 0 || size(share) == 0 {
        law_times_zero(c.cfg.slide_boost, share);
    }
}

/// Whether `after` is `before` with its horizontal parts scaled by one factor, from one to
/// `limit`.
pub open spec fn boosted(before: Vec3, after: Vec3, factor: Scalar, limit: Scalar) -> bool {
    &&& num(ONE).le(factor)
    &&& factor.le(limit)
    &&& after.x == before.x * factor
    &&& after.y == before.y
    &&& after.z == before.z * factor
}

/// A slide that starts scales the horizontal velocity by one factor: no smaller than one, and no
/// greater than what the full boost would make of the speed. At the highest boosted speed or above
/// it the velocity stays.
pub proof fn law_slide_start(c: Ctx)
    requires
        !c.state.sliding,
        sliding_updated(c).state.sliding,
        finite(c.velocity),
        num(ZERO).lt(c.cfg.slide_min_speed),
        num(ZERO).le(c.cfg.slide_boost),
        (c.velocity.xz().length() + c.cfg.slide_boost).is_finite(),
        num(ZERO).lt(c.cfg.slide_boost_max_speed),
    ensures
        ({
            let speed = c.velocity.xz().length();
            exists|factor: Scalar| #[trigger]
                boosted(
                    c.velocity,
                    sliding_updated(c).velocity,
                    factor,
                    (speed + c.cfg.slide_boost).over(speed),
                )
        }),
        c.cfg.slide_boost_max_speed.le(c.velocity.xz().length()) ==> sliding_updated(c).velocity
            == c.velocity,
{
    broadcast use group_bits;

    reveal(sliding_updated);
    let speed = c.velocity.xz().length();
    let boost = slide_boost_at(c.cfg, speed);
    lemma_level_speed(c.velocity);
    law_sum_grows(speed, c.cfg.slide_boost);
    assert(speed.is_finite() && c.cfg.slide_boost.is_finite() && size(speed) > 0) by {
        reveal(Scalar::spec_is_finite);
        reveal(Scalar::spec_is_number);
        reveal(Scalar::spec_lt);
        reveal(Scalar::spec_le);
    }
    law_slide_boost_is_limited(c, speed);
    law_sum_grows(speed, boost);
    law_sum_ordered(boost, c.cfg.slide_boost, speed);
    reveal(Scalar::spec_is_finite);
    reveal(Scalar::spec_is_number);
    reveal(Scalar::spec_lt);
    reveal(Scalar::spec_le);
    lemma_one();
    let factor = (speed + boost).over(speed);
    law_ratio(speed + boost, speed);
    lemma_quotient(speed + boost, speed);
    law_quotient_ordered(speed + boost, speed + c.cfg.slide_boost, speed);
    assert(boosted(
        c.velocity,
        sliding_updated(c).velocity,
        factor,
        (speed + c.cfg.slide_boost).over(speed),
    ));
    if c.cfg.slide_boost_max_speed.le(speed) {
        law_slide_boost_fades(c.cfg, speed);
        assert(size(boost) == 0) by {
            reveal(Scalar::spec_same);
        }
        law_plus_zero(speed, boost);
        law_over_itself(speed);
        law_times_one(c.velocity.x);
        law_times_one(c.velocity.z);
    }
}

/// The squared horizontal length of a vector, not rounded.
pub open spec fn squared_level(v: Vec3) -> real {
    extent(v.x) * extent(v.x) + extent(v.z) * extent(v.z)
}

/// How the horizontal length of a vector compares to its rounded length.
#[verifier::spinoff_prover]
pub proof fn lemma_level_length(v: Vec3)
    requires
        finite(v),
        v.xz().length().is_finite(),
        extent(v.xz().dot(v.xz())) >= sharp(),
    ensures
        ({
            let r = extent(v.xz().length());
            let rr = r * r;
            let sum = squared_level(v);
            &&& num(ZERO).le(v.xz().length())
            &&& r > 0 as real
            &&& sum <= rr + rr / 0x10_0000 as real
            &&& rr <= sum + rr / 0x10_0000 as real
        }),
{
    broadcast use group_bits;

    reveal(Vec2::spec_length);
    reveal(Vec2::spec_dot);
    let xx = v.x * v.x;
    let zz = v.z * v.z;
    let squared = xx + zz;
    law_square(v.x);
    law_square(v.z);
    law_sum_grows(xx, zz);
    law_root(squared);
    lemma_extent(squared);
    lemma_scale_in_figures();
    assert(squared.is_finite() && num(ZERO).lt(squared) && xx.is_finite() && zz.is_finite()) by {
        reveal(Scalar::spec_is_finite);
        reveal(Scalar::spec_is_number);
        reveal(Scalar::spec_le);
        reveal(Scalar::spec_lt);
        reveal(Scalar::spec_sqrt);
        reveal(ieee::root);
    }
    law_root_rounded(squared);
    law_product_rounded(v.x, v.x);
    law_product_rounded(v.z, v.z);
    law_sum_rounded(xx, zz);
    let x = extent(v.x);
    let z = extent(v.z);
    let r = extent(squared.sqrt());
    let no = 0 as real;
    lemma_not_negative(x);
    lemma_not_negative(z);
    lemma_extent(xx);
    let e = epsilon();
    let f = extent(xx);
    let ef = e * f;
    assert(ef >= no && e * no == no) by (nonlinear_arith)
        requires
            ef == e * f,
            f >= no,
            no == 0 as real,
            e == 1 as real / 0x100_0000 as real,
    ;
    lemma_add_squares(x * x, no, z * z, f, no, extent(zz), f, extent(squared));
    assert(r * r > 0 as real) by (nonlinear_arith)
        requires
            r > 0 as real,
    ;
    lemma_length_ratio(x * x + z * z, extent(squared), r * r);
}

/// A rounded quotient of at least one, times what it was divided by.
#[verifier::spinoff_prover]
pub proof fn lemma_quotient_back(s: real, t: real, g: real)
    requires
        s > 0 as real,
        t >= s,
        g >= 0 as real,
        rounded(g, t / s),
    ensures
        ({
            let tt = t * t;
            let back = (g * g) * (s * s);
            &&& back <= tt + tt / 0x10_0000 as real
            &&& tt <= back + tt / 0x10_0000 as real
            &&& tt >= 0 as real
        }),
{
    lemma_scale_in_figures();
    let k = t / s;
    assert(k * s == t && k >= 1 as real) by (nonlinear_arith)
        requires
            k == t / s,
            s > 0 as real,
            t >= s,
    ;
    let e = epsilon();
    let h = half_unit();
    let d = k / 0x40_0000 as real;
    assert(g <= k + d && k <= g + d) by (nonlinear_arith)
        requires
            g <= k + e * k + h,
            k <= g + e * k + h,
            k >= 1 as real,
            d == k / 0x40_0000 as real,
            e == 1 as real / 0x100_0000 as real,
            h <= 1 as real / 0x100_0000 as real,
    ;
    let kk = k * k;
    let gg = g * g;
    assert(gg <= kk + kk / 0x10_0000 as real && kk <= gg + kk / 0x10_0000 as real)
        by (nonlinear_arith)
        requires
            gg == g * g,
            kk == k * k,
            g >= 0 as real,
            k >= 1 as real,
            g <= k + d,
            k <= g + d,
            d == k / 0x40_0000 as real,
    {
        let a = k + d;
        let b = k - d;
        assert(g * g <= a * a);
        assert(b * b <= g * g);
        assert(a * a == kk + 2 as real * (k * d) + d * d);
        assert(b * b == kk - 2 as real * (k * d) + d * d);
        assert(k * d == kk / 0x40_0000 as real);
        assert(d * d == (k * d) / 0x40_0000 as real);
    }
    let ss = s * s;
    let tt = t * t;
    lemma_not_negative(s);
    lemma_not_negative(t);
    assert(kk * ss == tt) by (nonlinear_arith)
        requires
            kk == k * k,
            ss == s * s,
            tt == t * t,
            k * s == t,
    {
        assert((k * k) * (s * s) == (k * s) * (k * s));
    }
    let c = kk / 0x10_0000 as real;
    assert(c * ss == tt / 0x10_0000 as real) by (nonlinear_arith)
        requires
            c == kk / 0x10_0000 as real,
            kk * ss == tt,
    ;
    assert(gg * ss <= (kk + c) * ss && kk * ss <= (gg + c) * ss) by (nonlinear_arith)
        requires
            ss >= 0 as real,
            gg <= kk + c,
            kk <= gg + c,
    ;
    assert((kk + c) * ss == kk * ss + c * ss && (gg + c) * ss == gg * ss + c * ss)
        by (nonlinear_arith);
}

/// The square of one part of a vector that is scaled.
#[verifier::spinoff_prover]
pub proof fn lemma_scaled_square(part: Scalar, factor: Scalar)
    requires
        part.is_finite(),
        factor.is_finite(),
        (part * factor).is_finite(),
    ensures
        ({
            let a = (extent(part) * extent(part)) * (extent(factor) * extent(factor));
            let p = extent(part * factor) * extent(part * factor);
            &&& a >= 0 as real
            &&& p <= a + a / 0x10_0000 as real + speck()
            &&& a <= p + a / 0x10_0000 as real + speck()
        }),
{
    lemma_stretched_part(part, factor);
    let x = extent(part) * extent(part);
    let y = extent(factor) * extent(factor);
    lemma_not_negative(extent(part));
    lemma_not_negative(extent(factor));
    assert(x * y >= 0 as real) by (nonlinear_arith)
        requires
            x >= 0 as real,
            y >= 0 as real,
    ;
}

/// The squared speed of a slide, from what scaling comes to: `f` the square of the factor, `a` and
/// `b` the squared parts before it and `p` and `q` after it, `ss` the square of the speed before it,
/// `tt` that of the speed it aims for, and `top` the greatest.
#[verifier::spinoff_prover]
pub proof fn lemma_slide_square(
    a: real,
    b: real,
    f: real,
    p: real,
    q: real,
    ss: real,
    tt: real,
    top: real,
)
    requires
        f >= 0 as real,
        a * f >= 0 as real,
        b * f >= 0 as real,
        p <= a * f + (a * f) / 0x10_0000 as real + speck(),
        a * f <= p + (a * f) / 0x10_0000 as real + speck(),
        q <= b * f + (b * f) / 0x10_0000 as real + speck(),
        b * f <= q + (b * f) / 0x10_0000 as real + speck(),
        ss >= 0 as real,
        a + b <= ss + ss / 0x10_0000 as real,
        ss <= a + b + ss / 0x10_0000 as real,
        f * ss <= tt + tt / 0x10_0000 as real,
        tt <= f * ss + tt / 0x10_0000 as real,
        ss <= tt,
        tt <= top + top / 0x10_0000 as real,
        top >= 0 as real,
    ensures
        p + q <= top + top / 0x1_0000 as real + slack(),
        ss <= p + q + ss / 0x1_0000 as real + slack(),
{
    let af = a * f;
    let bf = b * f;
    let sf = f * ss;
    let all = af + bf;
    assert((a + b) * f == all) by (nonlinear_arith)
        requires
            af == a * f,
            bf == b * f,
            all == af + bf,
    ;
    let n = a + b;
    assert(n * f <= (ss + ss / 0x10_0000 as real) * f && ss * f <= (n + ss / 0x10_0000 as real) * f)
        by (nonlinear_arith)
        requires
            f >= 0 as real,
            n <= ss + ss / 0x10_0000 as real,
            ss <= n + ss / 0x10_0000 as real,
    ;
    assert((ss + ss / 0x10_0000 as real) * f == sf + sf / 0x10_0000 as real) by (nonlinear_arith)
        requires
            sf == f * ss,
    ;
    assert((n + ss / 0x10_0000 as real) * f == n * f + sf / 0x10_0000 as real) by (nonlinear_arith)
        requires
            sf == f * ss,
    ;
    assert(ss * f == sf) by (nonlinear_arith)
        requires
            sf == f * ss,
    ;
}

/// Starting, going on with or ending a slide keeps the horizontal speed, or adds to it up to the
/// full boost, but for rounding. A speed so small that its square loses digits is left out, and so
/// is a velocity too great to hold.
#[verifier::spinoff_prover]
pub proof fn law_slide_speed(c: Ctx)
    requires
        finite(c.velocity),
        finite(sliding_updated(c).velocity),
        num(ZERO).le(c.cfg.slide_boost),
        (c.velocity.xz().length() + c.cfg.slide_boost).is_finite(),
        num(ZERO).lt(c.cfg.slide_boost_max_speed),
        extent(c.velocity.xz().dot(c.velocity.xz())) >= sharp(),
    ensures
        ({
            let speed = extent(c.velocity.xz().length());
            let most = speed + extent(c.cfg.slide_boost);
            let after = squared_level(sliding_updated(c).velocity);
            &&& speed * speed <= after + (speed * speed) / 0x1_0000 as real + slack()
            &&& after <= most * most + (most * most) / 0x1_0000 as real + slack()
            &&& sliding_updated(c).velocity.y == c.velocity.y
        }),
{
    broadcast use group_bits;

    reveal(sliding_updated);
    let v = c.velocity;
    let speed = v.xz().length();
    let full = c.cfg.slide_boost;
    let boost = slide_boost_at(c.cfg, speed);
    let w = sliding_updated(c).velocity;
    lemma_level_speed(v);
    law_sum_grows(speed, full);
    assert(speed.is_finite() && full.is_finite()) by {
        reveal(Scalar::spec_is_finite);
        reveal(Scalar::spec_is_number);
        reveal(Scalar::spec_le);
    }
    lemma_level_length(v);
    law_slide_boost_is_limited(c, speed);
    law_sum_grows(speed, boost);
    law_sum_ordered(boost, full, speed);
    if sliding_updated(c).velocity != c.velocity {
        let aim = speed + boost;
        let factor = aim.over(speed);
        assert(aim.is_finite() && num(ZERO).le(aim) && speed.le(aim)) by {
            reveal(Scalar::spec_is_finite);
            reveal(Scalar::spec_is_number);
            reveal(Scalar::spec_le);
        }
        lemma_factor_finite(v.x, factor);
        lemma_extent(speed);
        lemma_extent(boost);
        lemma_extent(full);
        lemma_extent(factor);
        assert(size(speed) > 0);
        law_quotient_rounded(aim, speed);
        law_sum_rounded(speed, boost);
        lemma_extents_ordered(speed, aim);
        lemma_extents_ordered(boost, full);
        lemma_scale_in_figures();
        let s = extent(speed);
        let t = extent(aim);
        let most = s + extent(full);
        let e = epsilon();
        let y = s + extent(boost);
        assert(t <= most + most / 0x100_0000 as real) by (nonlinear_arith)
            requires
                t <= y + e * y,
                y <= most,
                e == 1 as real / 0x100_0000 as real,
        ;
        let top = most * most;
        lemma_not_negative(most);
        lemma_not_negative(s);
        assert(t * t <= top + top / 0x10_0000 as real) by (nonlinear_arith)
            requires
                0 as real <= t,
                t <= most + most / 0x100_0000 as real,
                0 as real <= most,
                top == most * most,
        {
            let a = most + most / 0x100_0000 as real;
            assert(t * t <= a * a);
            assert(a * a == top + top / 0x80_0000 as real + top / 0x1_0000_0000_0000 as real);
        }
        assert(s * s <= t * t) by (nonlinear_arith)
            requires
                0 as real <= s,
                s <= t,
        ;
        lemma_quotient_back(s, t, extent(factor));
        lemma_scaled_square(v.x, factor);
        lemma_scaled_square(v.z, factor);
        let f = extent(factor) * extent(factor);
        lemma_not_negative(extent(factor));
        lemma_slide_square(
            extent(v.x) * extent(v.x),
            extent(v.z) * extent(v.z),
            f,
            extent(w.x) * extent(w.x),
            extent(w.z) * extent(w.z),
            s * s,
            t * t,
            top,
        );
    } else {
        lemma_extent(speed);
        lemma_extent(full);
        lemma_scale_in_figures();
        let s = extent(speed);
        let most = s + extent(full);
        assert(s * s <= most * most) by (nonlinear_arith)
            requires
                0 as real <= s,
                s <= most,
        ;
        lemma_not_negative(s);
    }
}

/// A push in the air uses its budget and no more; where the budget covers the whole way to the
/// target, the push covers it and ends there, so that a gentle turn at speed loses nothing.
pub proof fn law_air_push_budget(velocity: Vec3, dir: Vec3, speed: Scalar, push: Scalar)
    requires
        push.is_number(),
    ensures
        ({
            let target = dir * speed.max(velocity.flat().length());
            match (target - velocity).flat().direction_and_length() {
                None => air_pushed(velocity, dir, speed, push) is None,
                Some((way, length)) => exists|pushed: Scalar|
                    {
                        &&& air_pushed(velocity, dir, speed, push) == Some(
                            velocity.flat() + #[trigger] (way * pushed),
                        )
                        &&& pushed.le(push)
                        &&& length.le(push) ==> pushed.same(length)
                        &&& push.le(length) ==> pushed.same(push)
                    },
            }
        }),
{
    reveal(air_pushed);
    let target = dir * speed.max(velocity.flat().length());
    if let Some((way, length)) = (target - velocity).flat().direction_and_length() {
        let pushed = push.min(length);
        assert(pushed.le(push) && (length.le(push) ==> pushed.same(length)) && (push.le(length)
            ==> pushed.same(push))) by {
            reveal(Scalar::spec_min);
            reveal(Scalar::spec_is_number);
            reveal(Scalar::spec_lt);
            reveal(Scalar::spec_le);
            reveal(Scalar::spec_same);
        }
        assert(air_pushed(velocity, dir, speed, push) == Some(velocity.flat() + way * pushed));
    }
}

} // verus!
