//! How the ground carries a character.
use crate::amounts::{
    amount, epsilon, extent, half_unit, law_quotient_rounded, lemma_extent, lemma_product_bounded,
    lemma_scale_in_figures, off,
};
use crate::clock::Time;
use crate::estimates::{
    lemma_added, lemma_nudge, lemma_scaled, lemma_stands, lemma_taken, nudge, stands,
};
use crate::gravity_laws::lemma_difference_finite;
use crate::ground::{calculate_platform_movement_model, carrying, or_zero};
use crate::ieee;
use crate::jump_laws::lemma_summand_finite;
use crate::laws::finite;
use crate::length_laws::lemma_factor_finite;
use crate::number_laws::{minus, size};
use crate::scalar::{group_bits, Scalar};
use crate::vector::Vec3;
use crate::world::{ask_carry_point, History, Platform, Step};
use vstd::prelude::*;

verus! {

/// A difference over a time, times that time.
#[verifier::spinoff_prover]
pub proof fn lemma_rate(a: Scalar, b: Scalar, secs: Scalar, m: real)
    requires
        a.is_finite(),
        b.is_finite(),
        secs.is_finite(),
        (a - b).is_finite(),
        (a - b).over(secs).is_finite(),
        amount(secs) > 0 as real,
        amount(secs) <= 1 as real,
        extent(a) + extent(b) <= m,
    ensures
        off(
            amount((a - b).over(secs)) * amount(secs),
            amount(a) - amount(b),
            3 as real * nudge(m),
        ),
{
    broadcast use group_bits;

    lemma_scale_in_figures();
    lemma_nudge(m);
    lemma_extent(a);
    lemma_extent(b);
    lemma_extent(secs);
    let d = a - b;
    let no = 0 as real;
    lemma_stands(a, m);
    lemma_stands(b, m);
    lemma_taken(a, b, amount(a), amount(b), m, no, no);
    lemma_extent(d);
    law_quotient_rounded(d, secs);
    let q = d.over(secs);
    lemma_extent(q);
    assert(!minus(secs) && amount(secs) == extent(secs));
    assert(size(q) == 0 || minus(q) == minus(d)) by {
        reveal(Scalar::spec_over);
        reveal(ieee::quotient);
        reveal(Scalar::spec_is_finite);
    }
    let (x, y, t) = (extent(q), extent(d), extent(secs));
    let z = y / t;
    let e = epsilon();
    let hu = half_unit();
    assert(z * t == y) by (nonlinear_arith)
        requires
            z == y / t,
            t > 0 as real,
    ;
    let xt = x * t;
    let et = e * y;
    assert(xt <= y + et + hu * t) by (nonlinear_arith)
        requires
            x <= z + e * z + hu,
            z * t == y,
            xt == x * t,
            et == e * y,
            t > 0 as real,
    {
        assert(x * t <= (z + e * z + hu) * t);
        assert((z + e * z + hu) * t == z * t + e * (z * t) + hu * t);
    }
    assert(y <= xt + et + hu * t) by (nonlinear_arith)
        requires
            z <= x + e * z + hu,
            z * t == y,
            xt == x * t,
            et == e * y,
            t > 0 as real,
    {
        assert(z * t <= (x + e * z + hu) * t);
        assert((x + e * z + hu) * t == x * t + e * (z * t) + hu * t);
    }
    assert(hu * t <= hu) by (nonlinear_arith)
        requires
            t <= 1 as real,
            hu >= 0 as real,
    ;
    let s = amount(secs);
    let aq = amount(q);
    assert((no - x) * t == no - xt) by (nonlinear_arith)
        requires
            xt == x * t,
            no == 0 as real,
    ;
    let n = nudge(m);
    assert(y <= m + n);
    assert(et == y / 0x100_0000 as real) by (nonlinear_arith)
        requires
            et == e * y,
            e == 1 as real / 0x100_0000 as real,
    ;
    if size(q) == 0 {
        assert(xt == no) by (nonlinear_arith)
            requires
                xt == x * t,
                x == no,
                no == 0 as real,
        ;
        assert(aq * s == no) by (nonlinear_arith)
            requires
                aq == no,
                no == 0 as real,
        ;
    }
}

/// Whether `b` is `a`, moved at `rate` for `secs` seconds, but for rounding.
pub open spec fn moved_at(b: Vec3, a: Vec3, rate: Vec3, secs: Scalar, m: real) -> bool {
    &&& stands(b.x, amount(a.x) + amount(rate.x) * amount(secs), m, 3 as real)
    &&& stands(b.y, amount(a.y) + amount(rate.y) * amount(secs), m, 3 as real)
    &&& stands(b.z, amount(a.z) + amount(rate.z) * amount(secs), m, 3 as real)
}

/// Whether going from `a` to `b` takes `secs` seconds at `rate`, but for rounding.
pub open spec fn rate_between(rate: Vec3, a: Vec3, b: Vec3, secs: Scalar, m: real) -> bool {
    &&& off(amount(rate.x) * amount(secs), amount(b.x) - amount(a.x), 3 as real * nudge(m))
    &&& off(amount(rate.y) * amount(secs), amount(b.y) - amount(a.y), 3 as real * nudge(m))
    &&& off(amount(rate.z) * amount(secs), amount(b.z) - amount(a.z), 3 as real * nudge(m))
}

/// Whether no part of a vector is larger than `m`.
pub open spec fn parts_within(v: Vec3, m: real) -> bool {
    extent(v.x) <= m && extent(v.y) <= m && extent(v.z) <= m
}

#[verifier::spinoff_prover]
pub proof fn lemma_moved_part(a: Scalar, rate: Scalar, secs: Scalar, m: real)
    requires
        (a + rate * secs).is_finite(),
        2 as real * extent(a) <= m,
        2 as real * extent(rate) <= m,
        amount(secs) >= 0 as real,
        amount(secs) <= 1 as real,
    ensures
        stands(a + rate * secs, amount(a) + amount(rate) * amount(secs), m, 3 as real),
{
    lemma_summand_finite(a, rate * secs);
    lemma_factor_finite(rate, secs);
    lemma_extent(a);
    lemma_extent(rate);
    let no = 0 as real;
    let one = 1 as real;
    let half = m / 2 as real;
    lemma_product_bounded(amount(rate), amount(secs), half, one);
    lemma_stands(a, m);
    lemma_stands(rate, m);
    lemma_scaled(rate, secs, amount(rate), m, no, one);
    assert(one * no + one == one) by (nonlinear_arith)
        requires
            one == 1 as real,
            no == 0 as real,
    ;
    lemma_added(a, rate * secs, amount(a), amount(rate) * amount(secs), m, no, one);
    lemma_nudge(m);
    let n = nudge(m);
    assert(2 as real * n <= 3 as real * n);
}

/// A vector moved at a rate.
#[verifier::spinoff_prover]
pub proof fn lemma_moved(a: Vec3, rate: Vec3, secs: Scalar, m: real)
    requires
        finite(a + rate * secs),
        parts_within(a, m / 2 as real),
        parts_within(rate, m / 2 as real),
        amount(secs) >= 0 as real,
        amount(secs) <= 1 as real,
    ensures
        moved_at(a + rate * secs, a, rate, secs, m),
{
    reveal(Vec3::spec_add);
    reveal(Vec3::spec_mul);
    lemma_moved_part(a.x, rate.x, secs, m);
    lemma_moved_part(a.y, rate.y, secs, m);
    lemma_moved_part(a.z, rate.z, secs, m);
}

/// What a moving ground does to a character. The point of the ground's surface below the body's
/// center is carried along: the ground's frame moves at its linear velocity and spins at its
/// angular velocity for the time of the step. The velocity of the ground there is what takes the
/// point from where it was to where it is carried in that time, but for rounding. Position and
/// velocity of the character stay.
#[verifier::spinoff_prover]
pub proof fn law_carried(h: History, s: Step, ground: Vec3, platform: Platform, time: Time, m: real)
    requires
        ({
            let after = calculate_platform_movement_model(h, s, ground, platform, time);
            let asked = h[s.at as int]->CarryPoint_query;
            let reply = h[s.at as int]->CarryPoint_reply;
            let secs = time.delta_secs;
            &&& after.ok
            &&& secs.is_finite() && amount(secs) > 0 as real && amount(secs) <= 1 as real
            &&& finite(reply) && finite(asked.point) && finite(reply - asked.point)
            &&& finite(after.ctx.state.platform_velocity)
            &&& parts_within(reply, m / 2 as real) && parts_within(asked.point, m / 2 as real)
            &&& finite(asked.to) && parts_within(asked.from, m / 2 as real)
            &&& platform.linear_velocity matches Some(v) && parts_within(v, m / 2 as real)
        }),
    ensures
        ({
            let after = calculate_platform_movement_model(h, s, ground, platform, time);
            let asked = h[s.at as int]->CarryPoint_query;
            let reply = h[s.at as int]->CarryPoint_reply;
            let secs = time.delta_secs;
            &&& h[s.at as int] is CarryPoint
            &&& asked.point.x == s.transform.translation.x
            &&& asked.point.z == s.transform.translation.z
            &&& asked.point.y == ground.y
            &&& asked.rotation == platform.rotation
            &&& moved_at(asked.to, asked.from, platform.linear_velocity->Some_0, secs, m)
            &&& rate_between(after.ctx.state.platform_velocity, asked.point, reply, secs, m)
            &&& platform.angular_velocity matches Some(spin)
                ==> after.ctx.state.platform_angular_velocity == spin
            &&& after.transform == s.transform
            &&& after.ctx.velocity == s.ctx.velocity
        }),
{
    reveal(calculate_platform_movement_model);
    reveal(carrying);
    reveal(ask_carry_point);
    let secs = time.delta_secs;
    let query = carrying(ground, platform, secs, s.transform.translation);
    let reply = h[s.at as int]->CarryPoint_reply;
    lemma_moved(query.from, platform.linear_velocity->Some_0, secs, m);
    reveal(Vec3::spec_sub);
    reveal(Vec3::spec_over);
    lemma_extent(reply.x);
    lemma_extent(reply.y);
    lemma_extent(reply.z);
    lemma_rate(reply.x, query.point.x, secs, m);
    lemma_rate(reply.y, query.point.y, secs, m);
    lemma_rate(reply.z, query.point.z, secs, m);
}

/// Where the frame of a moving ground is: at its center of mass, which turns with the ground and
/// moves with its position. A ground without a center of mass turns about its position, and one
/// that does not move or spin stays.
#[verifier::spinoff_prover]
pub proof fn law_frame_of_ground(
    ground: Vec3,
    platform: Platform,
    secs: Scalar,
    translation: Vec3,
    m: real,
)
    requires
        ({
            let asked = carrying(ground, platform, secs, translation);
            let center = platform.rotation.rotate(or_zero(platform.center_of_mass));
            &&& finite(asked.from) && finite(asked.spin)
            &&& parts_within(center, m / 2 as real)
            &&& parts_within(platform.position, m / 2 as real)
            &&& amount(secs) >= 0 as real && amount(secs) <= 1 as real
            &&& platform.angular_velocity matches Some(spin) && parts_within(spin, m / 2 as real)
        }),
    ensures
        ({
            let asked = carrying(ground, platform, secs, translation);
            let center = platform.rotation.rotate(or_zero(platform.center_of_mass));
            let spin = platform.angular_velocity->Some_0;
            let p = platform.position;
            let t = amount(secs);
            &&& stands(asked.from.x, amount(center.x) + amount(p.x), m, 1 as real)
            &&& stands(asked.from.y, amount(center.y) + amount(p.y), m, 1 as real)
            &&& stands(asked.from.z, amount(center.z) + amount(p.z), m, 1 as real)
            &&& stands(asked.spin.x, amount(spin.x) * t, m, 1 as real)
            &&& stands(asked.spin.y, amount(spin.y) * t, m, 1 as real)
            &&& stands(asked.spin.z, amount(spin.z) * t, m, 1 as real)
        }),
{
    reveal(carrying);
    reveal(Vec3::spec_add);
    reveal(Vec3::spec_mul);
    let center = platform.rotation.rotate(or_zero(platform.center_of_mass));
    let p = platform.position;
    let spin = platform.angular_velocity->Some_0;
    lemma_sum_stands(center.x, p.x, m);
    lemma_sum_stands(center.y, p.y, m);
    lemma_sum_stands(center.z, p.z, m);
    lemma_turn_stands(spin.x, secs, m);
    lemma_turn_stands(spin.y, secs, m);
    lemma_turn_stands(spin.z, secs, m);
}

#[verifier::spinoff_prover]
pub proof fn lemma_sum_stands(a: Scalar, b: Scalar, m: real)
    requires
        (a + b).is_finite(),
        extent(a) + extent(b) <= m,
    ensures
        stands(a + b, amount(a) + amount(b), m, 1 as real),
{
    lemma_summand_finite(a, b);
    lemma_extent(a);
    lemma_extent(b);
    lemma_stands(a, m);
    lemma_stands(b, m);
    lemma_added(a, b, amount(a), amount(b), m, 0 as real, 0 as real);
}

#[verifier::spinoff_prover]
pub proof fn lemma_difference_stands(a: Scalar, b: Scalar, m: real)
    requires
        (a - b).is_finite(),
        extent(a) + extent(b) <= m,
    ensures
        stands(a - b, amount(a) - amount(b), m, 1 as real),
{
    lemma_difference_finite(a, b);
    lemma_extent(a);
    lemma_extent(b);
    lemma_stands(a, m);
    lemma_stands(b, m);
    lemma_taken(a, b, amount(a), amount(b), m, 0 as real, 0 as real);
}

/// A number times a share of at most one.
#[verifier::spinoff_prover]
pub proof fn lemma_turn_stands(a: Scalar, secs: Scalar, m: real)
    requires
        (a * secs).is_finite(),
        extent(a) <= m,
        amount(secs) >= 0 as real,
        amount(secs) <= 1 as real,
    ensures
        stands(a * secs, amount(a) * amount(secs), m, 1 as real),
{
    lemma_factor_finite(a, secs);
    lemma_extent(a);
    let no = 0 as real;
    let one = 1 as real;
    lemma_product_bounded(amount(a), amount(secs), m, one);
    lemma_stands(a, m);
    lemma_scaled(a, secs, amount(a), m, no, one);
    assert(one * no + one == one) by (nonlinear_arith)
        requires
            one == 1 as real,
            no == 0 as real,
    ;
}

} // verus!
