//! How a wish changes a velocity.
use crate::amounts::{
    amount, bounded, exact_dot, extent, half_unit, lemma_amounts_ordered, lemma_extent,
    lemma_product_bounded, lemma_scale_in_figures, off,
};
use crate::config::CharacterController;
use crate::direction_laws::{along, law_direction_along, lemma_measured, measurable};
use crate::estimates::{
    greatest, lemma_added, lemma_least, lemma_nudge, lemma_product_near, lemma_scaled,
    lemma_scaling, lemma_stands, lemma_taken, nudge, stands,
};
use crate::frame_laws::lemma_simple_amounts;
use crate::jump_laws::lemma_summand_finite;
use crate::laws::finite;
use crate::length_laws::{lemma_factor_finite, lemma_not_negative, lemma_sum_moderate};
use crate::motion::accelerated;
use crate::number_laws::lemma_one;
use crate::scalar::{group_bits, num, Scalar, ONE, ZERO};
use crate::shape_laws::lemma_quotient_amount;
use crate::stance::slide_boost_at;
use crate::tac_laws::{lemma_dot_stands, lemma_square_of_product, lemma_squared_amount};
use crate::vector::Vec3;
use vstd::prelude::*;

verus! {

/// The parts of a direction are at most one, but for rounding.
#[verifier::spinoff_prover]
pub proof fn lemma_direction_small(n: Vec3, v: Vec3, k: real)
    requires
        along(n, v, k),
    ensures
        bounded(amount(n.x), 2 as real),
        bounded(amount(n.y), 2 as real),
        bounded(amount(n.z), 2 as real),
{
    let (x, y, z) = (amount(v.x), amount(v.y), amount(v.z));
    lemma_squared_amount(v.x);
    lemma_squared_amount(v.y);
    lemma_squared_amount(v.z);
    lemma_square_of_product(k, x);
    lemma_square_of_product(k, y);
    lemma_square_of_product(k, z);
    let (a, b, c) = (k * x, k * y, k * z);
    lemma_not_negative(a);
    lemma_not_negative(b);
    lemma_not_negative(c);
    let kk = k * k;
    let (p, q, r) = (x * x, y * y, z * z);
    let all = p + q + r;
    assert(kk * all == kk * p + kk * q + kk * r) by (nonlinear_arith)
        requires
            all == p + q + r,
    ;
    lemma_root_small(a);
    lemma_root_small(b);
    lemma_root_small(c);
}

#[verifier::spinoff_prover]
proof fn lemma_root_small(a: real)
    requires
        a * a <= 9 as real / 4 as real,
    ensures
        bounded(a, 3 as real / 2 as real),
{
    if a > 3 as real / 2 as real {
        assert(a * a > 9 as real / 4 as real) by (nonlinear_arith)
            requires
                a > 3 as real / 2 as real,
        ;
    }
    if a < 0 as real - 3 as real / 2 as real {
        assert(a * a > 9 as real / 4 as real) by (nonlinear_arith)
            requires
                a < 0 as real - 3 as real / 2 as real,
        ;
    }
}

/// What a wish for `speed` adds to a speed of `now` along it, not rounded: what is missing, but no
/// more than the acceleration allows, and nothing where nothing is missing.
pub open spec fn speed_gained(now: real, speed: real, hz: real, secs: real) -> real {
    if speed <= now {
        0 as real
    } else if speed * hz * secs < speed - now {
        speed * hz * secs
    } else {
        speed - now
    }
}

/// Whether `m` bounds everything that speeding up works with.
pub open spec fn speeds_within(v: Vec3, speed: real, hz: Scalar, secs: Scalar, m: real) -> bool {
    &&& 32 as real * (extent(v.x) + extent(v.y) + extent(v.z)) + speed <= m
    &&& 0 as real <= amount(hz)
    &&& speed * amount(hz) <= m
    &&& 0 as real <= amount(secs)
    &&& amount(secs) <= 1 as real
}

/// The gain in speed as it is computed.
#[verifier::spinoff_prover]
proof fn lemma_speed_gained(d: Scalar, len: Scalar, hz: Scalar, secs: Scalar, now: real, m: real)
    requires
        stands(d, now, m, 5 as real),
        (len - d).is_finite(),
        (len * hz * secs).is_finite(),
        amount(len) >= 0 as real,
        bounded(amount(len) - now, m),
        0 as real <= amount(hz),
        amount(len) * amount(hz) <= m,
        0 as real <= amount(secs),
        amount(secs) <= 1 as real,
    ensures
        ({
            let gain = speed_gained(now, amount(len), amount(hz), amount(secs));
            &&& (len - d).le(num(ZERO)) ==> 0 as real <= gain && gain <= 6 as real * nudge(m)
            &&& !(len - d).le(num(ZERO)) ==> stands(
                (len * hz * secs).min(len - d),
                gain,
                m,
                6 as real,
            )
            &&& bounded(gain, m)
        }),
{
    broadcast use group_bits;

    reveal(Scalar::spec_min);
    reveal(Scalar::spec_lt);
    reveal(Scalar::spec_le);
    reveal(Scalar::spec_is_finite);
    lemma_one();
    lemma_simple_amounts();
    lemma_nudge(m);
    let no = 0 as real;
    let one = 1 as real;
    let (r, f, s) = (amount(len), amount(hz), amount(secs));
    lemma_factor_finite(len * hz, secs);
    lemma_factor_finite(len, hz);
    lemma_stands(len, m);
    lemma_taken(len, d, r, now, m, no, 5 as real);
    let missing = len - d;
    let rf = r * f;
    assert(rf >= 0 as real) by (nonlinear_arith)
        requires
            rf == r * f,
            r >= 0 as real,
            f >= 0 as real,
    ;
    lemma_scaled(len, hz, r, m, no, f);
    assert(f * no + one == one) by (nonlinear_arith)
        requires
            one == 1 as real,
            no == 0 as real,
    ;
    lemma_product_bounded(rf, s, rf, one);
    let push = rf * s;
    assert(push >= 0 as real) by (nonlinear_arith)
        requires
            push == rf * s,
            rf >= 0 as real,
            s >= 0 as real,
    ;
    lemma_scaled(len * hz, secs, rf, m, one, one);
    let a = len * hz * secs;
    let n = nudge(m);
    assert(2 as real * n <= 6 as real * n);
    if missing.le(num(ZERO)) {
        lemma_amounts_ordered(missing, num(ZERO));
    } else {
        lemma_amounts_ordered(num(ZERO), missing);
        if missing.lt(a) {
            lemma_amounts_ordered(missing, a);
        } else {
            lemma_amounts_ordered(a, missing);
        }
    }
}

/// One part of a velocity that is sped up.
#[verifier::spinoff_prover]
proof fn lemma_sped_part(v: Scalar, n: Scalar, a: Scalar, gain: real, m: real)
    requires
        (v + n * a).is_finite(),
        bounded(amount(n), 2 as real),
        stands(a, gain, m, 6 as real),
        bounded(gain, m),
        extent(v) <= m,
    ensures
        stands(v + n * a, amount(v) + amount(n) * gain, 4 as real * m, 16 as real),
{
    lemma_summand_finite(v, n * a);
    lemma_extent(v);
    let no = 0 as real;
    let two = 2 as real;
    let w = 4 as real * m;
    lemma_nudge(m);
    lemma_nudge(w);
    lemma_product_bounded(amount(n), gain, two, m);
    let p = nudge(m);
    let q = nudge(w);
    assert(6 as real * p <= 6 as real * q);
    lemma_scaling(n, a, gain, w, 6 as real, two);
    lemma_stands(v, w);
    lemma_added(v, n * a, amount(v), amount(n) * gain, w, no, 13 as real);
    assert(14 as real * q <= 16 as real * q);
}

/// Speeding up along a wish adds to a velocity along the direction of the wish, and by as much as
/// is missing there to the speed of the wish, but no more than the acceleration allows in the time,
/// and nothing where the velocity is as fast already, but for rounding. A wish so small that its
/// square loses digits is left out.
#[verifier::spinoff_prover]
pub proof fn law_speeds_up(v: Vec3, wish: Vec3, hz: Scalar, secs: Scalar, m: real)
    requires
        measurable(wish),
        finite(v),
        speeds_within(v, extent(wish.length()), hz, secs, m),
        wish.direction_and_length() matches Some((dir, len)) && {
            &&& v.dot(dir).is_finite()
            &&& (len - v.dot(dir)).is_finite()
            &&& (len * hz * secs).is_finite()
        },
        finite(accelerated(v, wish, hz, secs)),
    ensures
        wish.direction_and_length() matches Some((dir, _)) && {
            let after = accelerated(v, wish, hz, secs);
            let gain = speed_gained(
                exact_dot(v, dir),
                extent(wish.length()),
                amount(hz),
                amount(secs),
            );
            let w = 4 as real * m;
            &&& along(dir, wish, 1 as real / extent(wish.length()))
            &&& stands(after.x, amount(v.x) + amount(dir.x) * gain, w, 16 as real)
            &&& stands(after.y, amount(v.y) + amount(dir.y) * gain, w, 16 as real)
            &&& stands(after.z, amount(v.z) + amount(dir.z) * gain, w, 16 as real)
        },
{
    reveal(accelerated);
    reveal(Vec3::spec_add);
    reveal(Vec3::spec_mul);
    lemma_measured(wish);
    law_direction_along(wish);
    let (dir, len) = wish.direction_and_length()->Some_0;
    let r = extent(wish.length());
    lemma_direction_small(dir, wish, 1 as real / r);
    lemma_extent(v.x);
    lemma_extent(v.y);
    lemma_extent(v.z);
    let most = extent(v.x) + extent(v.y) + extent(v.z);
    lemma_dot_stands(v, dir, most, m);
    let d = v.dot(dir);
    let now = exact_dot(v, dir);
    lemma_speed_gained(d, len, hz, secs, now, m);
    let gain = speed_gained(now, r, amount(hz), amount(secs));
    let a = (len * hz * secs).min(len - d);
    if (len - d).le(num(ZERO)) {
        lemma_left_alone(v.x, dir.x, gain, m);
        lemma_left_alone(v.y, dir.y, gain, m);
        lemma_left_alone(v.z, dir.z, gain, m);
    } else {
        lemma_sped_part(v.x, dir.x, a, gain, m);
        lemma_sped_part(v.y, dir.y, a, gain, m);
        lemma_sped_part(v.z, dir.z, a, gain, m);
    }
}

/// One part of a velocity that is fast enough already.
#[verifier::spinoff_prover]
proof fn lemma_left_alone(v: Scalar, n: Scalar, gain: real, m: real)
    requires
        v.is_finite(),
        bounded(amount(n), 2 as real),
        0 as real <= gain,
        gain <= 6 as real * nudge(m),
        m >= 0 as real,
    ensures
        stands(v, amount(v) + amount(n) * gain, 4 as real * m, 16 as real),
{
    let w = 4 as real * m;
    lemma_nudge(m);
    lemma_nudge(w);
    let p = nudge(m);
    let q = nudge(w);
    assert(12 as real * p <= 16 as real * q);
    lemma_product_bounded(amount(n), gain, 2 as real, 6 as real * p);
}

/// What a slide adds to the speed that it starts with: the boost, times the share by which the
/// speed is below the highest speed that is boosted, and nothing from there on, but for rounding.
/// Speeds above four times the highest boosted one are left out; they are not boosted either.
#[verifier::spinoff_prover]
pub proof fn law_slide_boost(cfg: CharacterController, speed: Scalar)
    requires
        speed.is_finite(),
        cfg.slide_boost_max_speed.is_finite(),
        speed.over(cfg.slide_boost_max_speed).is_finite(),
        amount(speed) >= 0 as real,
        amount(cfg.slide_boost_max_speed) > 0 as real,
        amount(speed) <= 4 as real * amount(cfg.slide_boost_max_speed),
        slide_boost_at(cfg, speed).is_finite(),
    ensures
        ({
            let share = amount(speed) / amount(cfg.slide_boost_max_speed);
            off(
                amount(slide_boost_at(cfg, speed)),
                amount(cfg.slide_boost) * greatest(1 as real - share, 0 as real),
                extent(cfg.slide_boost) / 0x4_0000 as real + half_unit(),
            )
        }),
{
    broadcast use group_bits;

    reveal(slide_boost_at);
    lemma_one();
    lemma_simple_amounts();
    lemma_scale_in_figures();
    assert(num(ZERO).is_finite() && num(ONE).is_finite()) by {
        reveal(Scalar::spec_is_finite);
    }
    let top = cfg.slide_boost_max_speed;
    let boost = cfg.slide_boost;
    let q = speed.over(top);
    lemma_extent(speed);
    lemma_extent(top);
    lemma_extent(q);
    lemma_extent(num(ONE));
    lemma_quotient_amount(speed, top);
    let (s, t, x) = (amount(speed), amount(top), amount(q));
    let share = s / t;
    let hu = half_unit();
    let four = 4 as real;
    assert(share * t == s && share >= 0 as real && share <= four) by (nonlinear_arith)
        requires
            share == s / t,
            t > 0 as real,
            s >= 0 as real,
            s <= four * t,
    ;
    let d = x - share;
    let w = share / 0x100_0000 as real + hu;
    assert(bounded(d, w)) by {
        let dt = d * t;
        let wt = w * t;
        assert(x * t == share * t + dt) by (nonlinear_arith)
            requires
                d == x - share,
                dt == d * t,
        ;
        assert(wt == s / 0x100_0000 as real + hu * t) by (nonlinear_arith)
            requires
                wt == w * t,
                w == share / 0x100_0000 as real + hu,
                share * t == s,
        ;
        assert(dt <= wt && 0 as real - wt <= dt);
        assert(d <= w && 0 as real - w <= d) by (nonlinear_arith)
            requires
                dt == d * t,
                wt == w * t,
                dt <= wt,
                0 as real - wt <= dt,
                t > 0 as real,
        ;
    }
    let n = nudge(four);
    lemma_nudge(four);
    assert(1 as real * n == n) by (nonlinear_arith);
    assert(stands(q, share, four, 1 as real));
    lemma_sum_moderate(num(ONE), q);
    lemma_stands(num(ONE), four);
    let (no, one) = (0 as real, 1 as real);
    lemma_taken(num(ONE), q, one, share, four, no, one);
    let rest = num(ONE) - q;
    lemma_stands(num(ZERO), four);
    assert(stands(num(ZERO), no, four, 2 as real)) by {
        assert(no * n == no && 2 as real * n >= no) by (nonlinear_arith)
            requires
                n > 0 as real,
                no == 0 as real,
        ;
    }
    lemma_least(rest, num(ZERO), one - share, no, four, 2 as real);
    let kept = rest.max(num(ZERO));
    let k = greatest(one - share, no);
    let e = 2 as real * n;
    lemma_extent(boost);
    let b = extent(boost);
    lemma_product_near(boost, kept, amount(boost), k, b, one, no, e);
    let be = b * e;
    assert(no * one == no && no * e == no && b + no == b) by (nonlinear_arith)
        requires
            no == 0 as real,
    ;
    assert(b * (one + e) == b + be) by (nonlinear_arith)
        requires
            be == b * e,
            one == 1 as real,
    ;
    assert(be <= b / 0x8_0000 as real) by (nonlinear_arith)
        requires
            be == b * e,
            b >= 0 as real,
            e <= 1 as real / 0x8_0000 as real,
    ;
}

} // verus!
