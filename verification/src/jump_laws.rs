//! How high and how fast jumps are.
use crate::amounts::{
    amount, epsilon, extent, half_unit, law_product_rounded, law_quotient_rounded, law_root_rounded,
    lemma_extent, lemma_scale_in_figures, off, rounded,
};
use crate::clock::Time;
use crate::config::CharacterController;
use crate::context::Ctx;
use crate::estimates::{lemma_added, lemma_stands, stands};
use crate::frame_laws::lemma_two;
use crate::ground::{
    calculate_platform_movement_model, ground_movement_model, grounded_on, set_grounded_model,
};
use crate::ieee;
use crate::jump::{handle_jump_model, jump_speed, launched, takeoff_velocity, taking_off};
use crate::laws::finite;
use crate::length_laws::{
    lemma_extents_ordered, lemma_factor_finite, lemma_not_negative, sharp, slack, speck,
};
use crate::motion::HUNDREDTH;
use crate::motion_laws::{
    boosted, lemma_level_length, lemma_level_speed, lemma_quotient_back, lemma_scaled_square,
    squared_level,
};
use crate::number_laws::{
    law_plus_zero, law_ratio, law_root, law_root_finite, law_times_zero, lemma_one, lemma_product,
    lemma_quotient, minus, size,
};
use crate::reach_laws::lemma_one_times;
use crate::scalar::{group_bits, num, Scalar, ONE, TWO, ZERO};
use crate::vector::{up, Vec3};
use crate::world::{group_asks, History, Step};
use vstd::prelude::*;

verus! {

/// The square of a root of a rounded product, from what its parts come to.
#[verifier::spinoff_prover]
proof fn lemma_root_of_product(g: real, k: real, a: real, x: real, rr: real)
    requires
        g >= 0 as real,
        k >= 0 as real,
        a >= 0 as real,
        rr >= 0 as real,
        rounded(a, 2 as real * g),
        rounded(x, a * k),
        x <= rr + rr / 0x40_0000 as real,
        rr <= x + rr / 0x40_0000 as real,
    ensures
        off(
            rr,
            2 as real * (g * k),
            (g * k) / 0x4_0000 as real + 4 as real * half_unit() * (k + 1 as real),
        ),
{
    lemma_scale_in_figures();
    let e = epsilon();
    let t = half_unit();
    let gk = g * k;
    let ak = a * k;
    let tk = t * k;
    assert(gk >= 0 as real && ak >= 0 as real && tk >= 0 as real) by (nonlinear_arith)
        requires
            gk == g * k,
            ak == a * k,
            tk == t * k,
            g >= 0 as real,
            k >= 0 as real,
            a >= 0 as real,
            t >= 0 as real,
    ;
    assert(ak <= 2 as real * gk + gk / 0x80_0000 as real + tk && 2 as real * gk <= ak + gk
        / 0x80_0000 as real + tk) by (nonlinear_arith)
        requires
            gk == g * k,
            ak == a * k,
            tk == t * k,
            k >= 0 as real,
            a <= 2 as real * g + e * (2 as real * g) + t,
            2 as real * g <= a + e * (2 as real * g) + t,
            e == 1 as real / 0x100_0000 as real,
    {
        let up = 2 as real * g + g / 0x80_0000 as real + t;
        assert(a <= up);
        assert(a * k <= up * k);
        assert(up * k == 2 as real * (g * k) + (g * k) / 0x80_0000 as real + t * k);
        let low = a + g / 0x80_0000 as real + t;
        assert((2 as real * g) * k <= low * k);
        assert(low * k == a * k + (g * k) / 0x80_0000 as real + t * k);
        assert((2 as real * g) * k == 2 as real * (g * k));
    }
    assert(4 as real * t * (k + 1 as real) == 4 as real * tk + 4 as real * t) by (nonlinear_arith)
        requires
            tk == t * k,
    ;
    let ea = e * ak;
    assert(ea == ak / 0x100_0000 as real) by (nonlinear_arith)
        requires
            ea == e * ak,
            e == 1 as real / 0x100_0000 as real,
    ;
}

/// A jump reaches its height: the square of the speed at which it takes off is twice the gravity
/// times the height, but for rounding.
#[verifier::spinoff_prover]
pub proof fn law_jump_height(cfg: CharacterController)
    requires
        num(ZERO).le(cfg.gravity),
        num(ZERO).le(cfg.jump_height),
        (num(TWO) * cfg.gravity * cfg.jump_height).is_finite(),
    ensures
        ({
            let v = amount(jump_speed(cfg));
            let g = amount(cfg.gravity);
            let height = amount(cfg.jump_height);
            &&& jump_speed(cfg).is_finite()
            &&& v >= 0 as real
            &&& off(
                v * v,
                2 as real * (g * height),
                (g * height) / 0x4_0000 as real + 4 as real * half_unit() * (height + 1 as real),
            )
        }),
{
    broadcast use group_bits;

    reveal(jump_speed);
    let twice = num(TWO) * cfg.gravity;
    let p = twice * cfg.jump_height;
    lemma_factor_finite(twice, cfg.jump_height);
    lemma_factor_finite(num(TWO), cfg.gravity);
    lemma_two();
    lemma_extent(num(TWO));
    lemma_extent(cfg.gravity);
    lemma_extent(cfg.jump_height);
    lemma_extent(twice);
    lemma_extent(p);
    lemma_product(num(TWO), cfg.gravity);
    lemma_product(twice, cfg.jump_height);
    law_product_rounded(num(TWO), cfg.gravity);
    law_product_rounded(twice, cfg.jump_height);
    let g = extent(cfg.gravity);
    let k = extent(cfg.jump_height);
    assert(amount(cfg.gravity) == g && amount(cfg.jump_height) == k) by {
        reveal(Scalar::spec_le);
    }
    if minus(cfg.gravity) {
        law_times_zero(num(TWO), cfg.gravity);
        law_times_zero(twice, cfg.jump_height);
    }
    if minus(cfg.jump_height) {
        law_times_zero(twice, cfg.jump_height);
    }
    assert(num(ZERO).le(p)) by {
        reveal(Scalar::spec_le);
        reveal(Scalar::spec_is_finite);
    }
    law_root(p);
    law_root_finite(p);
    let v = p.sqrt();
    lemma_extent(v);
    let r = extent(v);
    if size(p) > 0 {
        assert(num(ZERO).lt(p)) by {
            reveal(Scalar::spec_lt);
            reveal(Scalar::spec_le);
        }
        law_root_rounded(p);
    } else {
        assert(size(v) == 0) by {
            reveal(Scalar::spec_sqrt);
            reveal(ieee::root);
        }
        assert(r * r == 0 as real) by (nonlinear_arith)
            requires
                r == 0 as real,
        ;
    }
    assert(amount(v) == r) by {
        reveal(Scalar::spec_le);
    }
    lemma_not_negative(r);
    lemma_root_of_product(g, k, extent(twice), extent(p), r * r);
}

/// What a launch adds to one part of a velocity that it does not push: nothing.
proof fn lemma_not_pushed(v: Scalar, js: Scalar, pv: Scalar)
    requires
        v.is_finite(),
        js.is_finite(),
        pv.is_finite(),
    ensures
        (v + (num(ZERO) * num(ONE) * js + num(ZERO) * pv)).same(v),
{
    broadcast use group_bits;

    lemma_one();
    reveal(Scalar::spec_is_finite);
    law_times_zero(num(ZERO), num(ONE));
    law_times_zero(num(ZERO) * num(ONE), js);
    law_times_zero(num(ZERO), pv);
    law_plus_zero(num(ZERO) * num(ONE) * js, num(ZERO) * pv);
    assert(size(num(ZERO) * num(ONE) * js + num(ZERO) * pv) == 0) by {
        reveal(Scalar::spec_same);
    }
    law_plus_zero(v, num(ZERO) * num(ONE) * js + num(ZERO) * pv);
}

/// A jump that was asked for in time, from the ground or soon after leaving it, adds to the
/// vertical velocity the speed that reaches the jump height, and the ground's own, but for
/// rounding, and nothing to the other parts: they are what they were, or soon after landing both
/// scaled alike.
#[verifier::spinoff_prover]
pub proof fn law_jump_takes_off(h: History, s: Step, wish_velocity: Vec3, time: Time)
    requires
        s.ctx.state.grounded is Some || !s.ctx.cfg.coyote_time.lt(
            s.ctx.state.last_ground.elapsed,
        ),
        s.ctx.input.jumped matches Some(press) && !s.ctx.cfg.jump_input_buffer.lt(press.elapsed),
        finite(s.ctx.velocity),
        finite(takeoff_velocity(s.ctx)),
        jump_speed(s.ctx.cfg).is_finite(),
        handle_jump_model(h, s, wish_velocity, time).ctx.velocity.y.is_finite(),
        finite(handle_jump_model(h, s, wish_velocity, time).ctx.state.platform_velocity),
    ensures
        ({
            let t = handle_jump_model(h, s, wish_velocity, time);
            let lift = t.ctx.state.platform_velocity.y;
            let v = jump_speed(s.ctx.cfg);
            let start = takeoff_velocity(s.ctx);
            let most = extent(s.ctx.velocity.y) + extent(v) + extent(lift);
            &&& stands(
                t.ctx.velocity.y,
                amount(s.ctx.velocity.y) + amount(v) + amount(lift),
                most,
                2 as real,
            )
            &&& t.ctx.velocity.x.same(start.x)
            &&& t.ctx.velocity.z.same(start.z)
        }),
{
    broadcast use group_asks;
    broadcast use group_bits;

    reveal(handle_jump_model);
    reveal(set_grounded_model);
    reveal(ground_movement_model);
    reveal(calculate_platform_movement_model);
    reveal(grounded_on);
    reveal(taking_off);
    reveal(launched);
    reveal(takeoff_velocity);
    reveal(Vec3::spec_add);
    reveal(Vec3::spec_mul);
    let t = handle_jump_model(h, s, wish_velocity, time);
    let lift = t.ctx.state.platform_velocity.y;
    let v = jump_speed(s.ctx.cfg);
    let start = takeoff_velocity(s.ctx);
    let y = s.ctx.velocity.y;
    lemma_one();
    lemma_one_times(num(ONE));
    lemma_one_times(v);
    lemma_one_times(lift);
    lemma_not_pushed(start.x, v, lift);
    lemma_not_pushed(start.z, v, lift);
    assert(t.ctx.velocity.y == y + (v + lift));
    lemma_summand_finite(y, v + lift);
    lemma_extent(y);
    lemma_extent(v);
    lemma_extent(lift);
    let most = extent(y) + extent(v) + extent(lift);
    let no = 0 as real;
    lemma_stands(y, most);
    lemma_stands(v, most);
    lemma_stands(lift, most);
    lemma_added(v, lift, amount(v), amount(lift), most, no, no);
    lemma_added(y, v + lift, amount(y), amount(v) + amount(lift), most, no, 1 as real);
}

/// Only finite numbers have a finite sum.
pub proof fn lemma_summand_finite(a: Scalar, b: Scalar)
    requires
        (a + b).is_finite(),
    ensures
        a.is_finite(),
        b.is_finite(),
{
    broadcast use group_bits;

    reveal(Scalar::spec_is_finite);
    reveal(Scalar::spec_add);
    reveal(ieee::sum);
}

/// The squared horizontal length of a scaled vector, from what scaling comes to: `f` the square of
/// the factor, `a` and `b` the squared parts before it and `p` and `q` after it, `ss` the squared
/// length before it and `tt` what it aims for.
#[verifier::spinoff_prover]
proof fn lemma_aimed_square(a: real, b: real, f: real, p: real, q: real, ss: real, tt: real)
    requires
        f >= 0 as real,
        a * f >= 0 as real,
        b * f >= 0 as real,
        p <= a * f + (a * f) / 0x10_0000 as real + speck(),
        a * f <= p + (a * f) / 0x10_0000 as real + speck(),
        q <= b * f + (b * f) / 0x10_0000 as real + speck(),
        b * f <= q + (b * f) / 0x10_0000 as real + speck(),
        ss >= 0 as real,
        a + b <= ss + ss / 0x10_0000 as real,
        ss <= a + b + ss / 0x10_0000 as real,
        f * ss <= tt + tt / 0x10_0000 as real,
        tt <= f * ss + tt / 0x10_0000 as real,
        tt >= 0 as real,
    ensures
        off(p + q, tt, tt / 0x1_0000 as real + slack()),
{
    let af = a * f;
    let bf = b * f;
    let sf = f * ss;
    let all = af + bf;
    let n = a + b;
    assert(n * f == all) by (nonlinear_arith)
        requires
            af == a * f,
            bf == b * f,
            all == af + bf,
            n == a + b,
    ;
    assert(n * f <= (ss + ss / 0x10_0000 as real) * f && ss * f <= (n + ss / 0x10_0000 as real) * f)
        by (nonlinear_arith)
        requires
            f >= 0 as real,
            n <= ss + ss / 0x10_0000 as real,
            ss <= n + ss / 0x10_0000 as real,
    ;
    assert((ss + ss / 0x10_0000 as real) * f == sf + sf / 0x10_0000 as real) by (nonlinear_arith)
        requires
            sf == f * ss,
    ;
    assert((n + ss / 0x10_0000 as real) * f == n * f + sf / 0x10_0000 as real) by (nonlinear_arith)
        requires
            sf == f * ss,
    ;
    assert(ss * f == sf) by (nonlinear_arith)
        requires
            sf == f * ss,
    ;
}

/// A jump soon after landing has the horizontal speed of the landing back, as far as that is
/// preserved and more than there is; else the velocity stays. Speeds are meant but for rounding,
/// and a speed so small that its square loses digits is left out.
#[verifier::spinoff_prover]
pub proof fn law_landing_momentum(c: Ctx)
    requires
        finite(c.velocity),
        finite(takeoff_velocity(c)),
        extent(c.velocity.xz().dot(c.velocity.xz())) >= sharp(),
    ensures
        ({
            let kept = c.state.land_speed * c.cfg.land_momentum_preservation;
            let speed = c.velocity.xz().length();
            let kk = extent(kept) * extent(kept);
            let after = takeoff_velocity(c);
            &&& after.y == c.velocity.y
            &&& if c.state.last_land.elapsed.lt(c.cfg.land_momentum_window) && num(HUNDREDTH).lt(
                speed,
            ) && speed.lt(kept) {
                &&& off(squared_level(after), kk, kk / 0x1_0000 as real + slack())
                &&& exists|factor: Scalar| #[trigger] boosted(c.velocity, after, factor, factor)
            } else {
                after == c.velocity
            }
        }),
{
    broadcast use group_bits;

    reveal(takeoff_velocity);
    let v = c.velocity;
    let w = takeoff_velocity(c);
    let kept = c.state.land_speed * c.cfg.land_momentum_preservation;
    let speed = v.xz().length();
    if c.state.last_land.elapsed.lt(c.cfg.land_momentum_window) && num(HUNDREDTH).lt(speed)
        && speed.lt(kept) {
        let factor = kept.over(speed);
        lemma_factor_finite(v.x, factor);
        lemma_level_speed(v);
        assert(speed.is_finite() && kept.is_finite() && num(ZERO).le(kept) && speed.le(kept)) by {
            reveal(Scalar::spec_is_finite);
            reveal(Scalar::spec_lt);
            reveal(Scalar::spec_le);
            reveal(Scalar::spec_over);
            reveal(ieee::quotient);
        }
        lemma_level_length(v);
        lemma_extent(speed);
        lemma_extent(kept);
        lemma_extent(factor);
        law_quotient_rounded(kept, speed);
        lemma_extents_ordered(speed, kept);
        let s = extent(speed);
        let t = extent(kept);
        lemma_quotient_back(s, t, extent(factor));
        lemma_scaled_square(v.x, factor);
        lemma_scaled_square(v.z, factor);
        lemma_not_negative(s);
        lemma_not_negative(t);
        lemma_not_negative(extent(factor));
        lemma_aimed_square(
            extent(v.x) * extent(v.x),
            extent(v.z) * extent(v.z),
            extent(factor) * extent(factor),
            extent(w.x) * extent(w.x),
            extent(w.z) * extent(w.z),
            s * s,
            t * t,
        );
        lemma_quotient(kept, speed);
        law_ratio(kept, speed);
        lemma_one();
        assert(boosted(v, w, factor, factor)) by {
            reveal(Scalar::spec_le);
            reveal(Scalar::spec_is_finite);
            reveal(Scalar::spec_lt);
        }
    }
}

} // verus!
