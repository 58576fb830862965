//! Wishes point the way of the movement.
use crate::amounts::{
    amount, bounded, exact_dot, extent, half_unit, law_root_rounded, lemma_amounts_ordered,
    lemma_extent, lemma_product_bounded, lemma_scale_in_figures, off,
};
use crate::context::Ctx;
use crate::direction_laws::{along, law_normalized_along, lemma_measured, measurable};
use crate::estimates::{lemma_added, lemma_product_near, lemma_scaled, lemma_stands};
use crate::frame_laws::{law_frame, lemma_part_of_unit, tilt, unit_rotation};
use crate::jump_laws::lemma_summand_finite;
use crate::laws::finite;
use crate::length_laws::{
    law_direction_is_unit, lemma_factor_finite, lemma_not_negative, lemma_stretched,
    lemma_stretched_part, slack, squared_length, wish_sum,
};
use crate::motion::{forward, movement, right, wish_speed, wish_velocity_3d_of, wish_velocity_of};
use crate::number_laws::lemma_one;
use crate::scalar::{group_bits, num, Scalar, ZERO};
use crate::tac_laws::lemma_not_zero_length;
use crate::vector::{up, Quat, Vec2, Vec3};
use vstd::prelude::*;

verus! {

/// How much both parts of a movement are together.
pub open spec fn strength(m: Vec2) -> real {
    extent(m.x) + extent(m.y)
}

/// What a movement asks for along one axis of space, not rounded, with `a` of the way ahead and `b`
/// of the way aside along that axis.
pub open spec fn asked(m: Vec2, a: Scalar, b: Scalar) -> real {
    amount(m.y) * amount(a) + amount(m.x) * amount(b)
}

/// One part of the sum of directions that a movement asks for.
#[verifier::spinoff_prover]
proof fn lemma_asked(m: Vec2, a: Scalar, b: Scalar)
    requires
        (a * m.y + b * m.x).is_finite(),
        bounded(amount(a), 3 as real),
        bounded(amount(b), 3 as real),
    ensures
        off(
            amount(a * m.y + b * m.x),
            asked(m, a, b),
            strength(m) / 0x8_0000 as real + 6 as real * half_unit(),
        ),
        bounded(asked(m, a, b), 3 as real * strength(m)),
{
    lemma_summand_finite(a * m.y, b * m.x);
    lemma_factor_finite(a, m.y);
    lemma_factor_finite(b, m.x);
    lemma_extent(m.x);
    lemma_extent(m.y);
    lemma_scale_in_figures();
    let most = 3 as real * strength(m);
    let (x, y) = (amount(m.x), amount(m.y));
    let no = 0 as real;
    let q = strength(m);
    lemma_product_bounded(y, amount(a), extent(m.y), 3 as real);
    lemma_product_bounded(x, amount(b), extent(m.x), 3 as real);
    assert(amount(a) * y == y * amount(a) && amount(b) * x == x * amount(b)) by (nonlinear_arith);
    assert(q * no == no) by (nonlinear_arith)
        requires
            no == 0 as real,
    ;
    lemma_stands(a, most);
    lemma_stands(b, most);
    lemma_scaled(a, m.y, amount(a), most, no, q);
    lemma_scaled(b, m.x, amount(b), most, no, q);
    lemma_added(
        a * m.y,
        b * m.x,
        amount(a) * y,
        amount(b) * x,
        most,
        1 as real,
        1 as real,
    );
}

/// Whether a wish is `k` times what a movement asks for, with `a` the way ahead, `b` the way aside
/// and `s` the full speed, but for rounding.
pub open spec fn follows(w: Vec3, a: Vec3, b: Vec3, m: Vec2, s: real, k: real) -> bool {
    let blur = s / 0x4_0000 as real + k * (strength(m) / 0x8_0000 as real + 6 as real * half_unit())
        + half_unit();
    &&& k >= 0 as real
    &&& off(amount(w.x), k * asked(m, a.x, b.x), blur)
    &&& off(amount(w.y), k * asked(m, a.y, b.y), blur)
    &&& off(amount(w.z), k * asked(m, a.z, b.z), blur)
}

/// One part of a wish.
#[verifier::spinoff_prover]
proof fn lemma_wished(n: Scalar, speed: Scalar, v: real, x: real, k: real, d: real)
    requires
        (n * speed).is_finite(),
        k > 0 as real,
        amount(speed) >= 0 as real,
        off(amount(n), k * v, 1 as real / 0x10_0000 as real),
        bounded(k * v, 2 as real),
        off(v, x, d),
        d >= 0 as real,
    ensures
        off(
            amount(n * speed),
            (k * amount(speed)) * x,
            amount(speed) / 0x4_0000 as real + (k * amount(speed)) * d + half_unit(),
        ),
{
    let s = amount(speed);
    let e = 1 as real / 0x10_0000 as real;
    let no = 0 as real;
    let kv = k * v;
    lemma_product_near(n, speed, kv, s, 2 as real, s, e, no);
    let ks = k * s;
    let f = v - x;
    assert(2 as real * no + e * s + e * no + ((2 as real + e) * (s + no)) / 0x100_0000 as real <= s
        / 0x4_0000 as real) by (nonlinear_arith)
        requires
            e == 1 as real / 0x10_0000 as real,
            s >= 0 as real,
            no == 0 as real,
    ;
    assert(ks >= 0 as real) by (nonlinear_arith)
        requires
            ks == k * s,
            k > 0 as real,
            s >= 0 as real,
    ;
    lemma_product_bounded(ks, f, ks, d);
    assert(kv * s == ks * x + ks * f) by (nonlinear_arith)
        requires
            kv == k * v,
            ks == k * s,
            f == v - x,
    ;
}

/// A wish follows from the sum of the directions that it asks for.
#[verifier::spinoff_prover]
proof fn lemma_follows(a: Vec3, b: Vec3, m: Vec2, speed: Scalar)
    requires
        measurable(a * m.y + b * m.x),
        finite((a * m.y + b * m.x).normalize_or_zero() * speed),
        amount(speed) >= 0 as real,
        bounded(amount(a.x), 3 as real) && bounded(amount(b.x), 3 as real),
        bounded(amount(a.y), 3 as real) && bounded(amount(b.y), 3 as real),
        bounded(amount(a.z), 3 as real) && bounded(amount(b.z), 3 as real),
    ensures
        ({
            let sum = a * m.y + b * m.x;
            let k = 1 as real / extent(sum.length());
            &&& k > 0 as real
            &&& follows(sum.normalize_or_zero() * speed, a, b, m, amount(speed), k * amount(speed))
        }),
{
    reveal(Vec3::spec_mul);
    reveal(Vec3::spec_add);
    let sum = a * m.y + b * m.x;
    let n = sum.normalize_or_zero();
    let r = extent(sum.length());
    let k = 1 as real / r;
    let s = amount(speed);
    lemma_measured(sum);
    law_normalized_along(sum);
    lemma_asked(m, a.x, b.x);
    lemma_asked(m, a.y, b.y);
    lemma_asked(m, a.z, b.z);
    lemma_extent(m.x);
    lemma_extent(m.y);
    lemma_scale_in_figures();
    let d = strength(m) / 0x8_0000 as real + 6 as real * half_unit();
    lemma_within_two(sum.x, r);
    lemma_within_two(sum.y, r);
    lemma_within_two(sum.z, r);
    lemma_wished(n.x, speed, amount(sum.x), asked(m, a.x, b.x), k, d);
    lemma_wished(n.y, speed, amount(sum.y), asked(m, a.y, b.y), k, d);
    lemma_wished(n.z, speed, amount(sum.z), asked(m, a.z, b.z), k, d);
    assert(k * s >= 0 as real) by (nonlinear_arith)
        requires
            k > 0 as real,
            s >= 0 as real,
    ;
}

#[verifier::spinoff_prover]
pub proof fn lemma_within_two(a: Scalar, r: real)
    requires
        r > 0 as real,
        (extent(a) / r) * (extent(a) / r) <= 4 as real,
    ensures
        bounded((1 as real / r) * amount(a), 2 as real),
{
    lemma_extent(a);
    let x = extent(a);
    let y = x / r;
    let k = 1 as real / r;
    assert(k * x == y && y >= 0 as real && k * (0 as real - x) == 0 as real - y)
        by (nonlinear_arith)
        requires
            y == x / r,
            k == 1 as real / r,
            r > 0 as real,
            x >= 0 as real,
    ;
    assert(y <= 2 as real) by (nonlinear_arith)
        requires
            y * y <= 4 as real,
            y >= 0 as real,
    ;
}

/// The parts of a direction are bounded.
#[verifier::spinoff_prover]
pub proof fn lemma_direction_bounded(v: Vec3)
    requires
        measurable(v),
    ensures
        bounded(amount(v.normalize_or_zero().x), 3 as real),
        bounded(amount(v.normalize_or_zero().y), 3 as real),
        bounded(amount(v.normalize_or_zero().z), 3 as real),
{
    lemma_measured(v);
    law_normalized_along(v);
    let r = extent(v.length());
    lemma_within_two(v.x, r);
    lemma_within_two(v.y, r);
    lemma_within_two(v.z, r);
}

/// The horizontal wish points the way of the movement: it is the part of the movement ahead along
/// the horizontal direction of the look, and the part aside along that of the side, with one
/// positive factor for both, but for rounding. A look straight up or down has no horizontal
/// direction, and a movement so small that its square loses digits is left out.
#[verifier::spinoff_prover]
pub proof fn law_wish_follows_movement(c: Ctx)
    requires
        measurable(forward(c.state.orientation).flat()),
        measurable(right(c.state.orientation).flat()),
        measurable(wish_sum(c)),
        finite(wish_velocity_of(c)),
        num(ZERO).le(wish_speed(c.cfg, c.state.crouching)),
    ensures
        ({
            let ahead = forward(c.state.orientation).flat();
            let aside = right(c.state.orientation).flat();
            let a = ahead.normalize_or_zero();
            let b = aside.normalize_or_zero();
            let s = amount(wish_speed(c.cfg, c.state.crouching));
            let k = 1 as real / extent(wish_sum(c).length());
            &&& along(a, ahead, 1 as real / extent(ahead.length()))
            &&& along(b, aside, 1 as real / extent(aside.length()))
            &&& k > 0 as real
            &&& follows(wish_velocity_of(c), a, b, movement(c.input), s, k * s)
        }),
{
    broadcast use group_bits;

    reveal(wish_velocity_of);
    let ahead = forward(c.state.orientation).flat();
    let aside = right(c.state.orientation).flat();
    law_normalized_along(ahead);
    law_normalized_along(aside);
    lemma_direction_bounded(ahead);
    lemma_direction_bounded(aside);
    let speed = wish_speed(c.cfg, c.state.crouching);
    lemma_full_speed(wish_sum(c).normalize_or_zero(), speed);
    lemma_follows(
        ahead.normalize_or_zero(),
        aside.normalize_or_zero(),
        movement(c.input),
        speed,
    );
}

#[verifier::spinoff_prover]
proof fn lemma_full_speed(n: Vec3, speed: Scalar)
    requires
        finite(n * speed),
        num(ZERO).le(speed),
    ensures
        speed.is_finite(),
        amount(speed) >= 0 as real,
{
    broadcast use group_bits;

    reveal(Vec3::spec_mul);
    lemma_factor_finite(n.x, speed);
    lemma_one();
    lemma_extent(num(ZERO));
    lemma_amounts_ordered(num(ZERO), speed);
}

/// The wish along the look points the way of the movement: it is the part of the movement ahead
/// along the look, and the part aside along the side, with one positive factor for both, but for
/// rounding.
#[verifier::spinoff_prover]
pub proof fn law_3d_wish_follows_movement(c: Ctx)
    requires
        unit_rotation(c.state.orientation),
        measurable(look_sum(c)),
        finite(wish_velocity_3d_of(c)),
        num(ZERO).le(wish_speed(c.cfg, c.state.crouching)),
    ensures
        ({
            let look = forward(c.state.orientation);
            let side = right(c.state.orientation);
            let s = amount(wish_speed(c.cfg, c.state.crouching));
            let k = 1 as real / extent(look_sum(c).length());
            &&& k > 0 as real
            &&& follows(wish_velocity_3d_of(c), look, side, movement(c.input), s, k * s)
        }),
{
    reveal(wish_velocity_3d_of);
    let look = forward(c.state.orientation);
    let side = right(c.state.orientation);
    law_frame(c.state.orientation);
    lemma_axis_bounded(look);
    lemma_axis_bounded(side);
    let speed = wish_speed(c.cfg, c.state.crouching);
    lemma_full_speed(look_sum(c).normalize_or_zero(), speed);
    lemma_follows(look, side, movement(c.input), speed);
}

/// The sum of the directions that a wish along the look asks for.
pub open spec fn look_sum(c: Ctx) -> Vec3 {
    forward(c.state.orientation) * movement(c.input).y + right(c.state.orientation) * movement(
        c.input,
    ).x
}

/// The parts of an axis are bounded.
#[verifier::spinoff_prover]
proof fn lemma_axis_bounded(v: Vec3)
    requires
        off(exact_dot(v, v), 1 as real, tilt()),
    ensures
        bounded(amount(v.x), 5 as real / 4 as real),
        bounded(amount(v.y), 5 as real / 4 as real),
        bounded(amount(v.z), 5 as real / 4 as real),
{
    let (x, y, z) = (amount(v.x), amount(v.y), amount(v.z));
    lemma_not_negative(x);
    lemma_not_negative(y);
    lemma_not_negative(z);
    lemma_part_of_unit(x, y * y + z * z);
    lemma_part_of_unit(y, x * x + z * z);
    lemma_part_of_unit(z, x * x + y * y);
}

/// The dot product of a wish that follows a movement with an axis, from its parts.
#[verifier::spinoff_prover]
proof fn lemma_dot_followed(w: Vec3, n: Vec3, x: real, y: real, z: real, blur: real)
    requires
        off(amount(w.x), x, blur),
        off(amount(w.y), y, blur),
        off(amount(w.z), z, blur),
        blur >= 0 as real,
        bounded(amount(n.x), 5 as real / 4 as real),
        bounded(amount(n.y), 5 as real / 4 as real),
        bounded(amount(n.z), 5 as real / 4 as real),
    ensures
        off(
            exact_dot(w, n),
            x * amount(n.x) + y * amount(n.y) + z * amount(n.z),
            4 as real * blur,
        ),
{
    lemma_off_times(amount(w.x), x, amount(n.x), blur);
    lemma_off_times(amount(w.y), y, amount(n.y), blur);
    lemma_off_times(amount(w.z), z, amount(n.z), blur);
}

#[verifier::spinoff_prover]
proof fn lemma_off_times(a: real, x: real, n: real, d: real)
    requires
        off(a, x, d),
        d >= 0 as real,
        bounded(n, 5 as real / 4 as real),
    ensures
        off(a * n, x * n, 5 as real / 4 as real * d),
{
    let f = a - x;
    lemma_product_bounded(f, n, d, 5 as real / 4 as real);
    assert(a * n == x * n + f * n) by (nonlinear_arith)
        requires
            f == a - x,
    ;
    assert(d * (5 as real / 4 as real) == 5 as real / 4 as real * d) by (nonlinear_arith);
}

/// What a movement asks for along an axis, where the other way is across it.
#[verifier::spinoff_prover]
proof fn lemma_asked_along(m: Vec2, a: Vec3, b: Vec3, n: Vec3, k: real, y: real, x: real)
    requires
        k >= 0 as real,
        off(exact_dot(a, n), y, tilt()),
        off(exact_dot(b, n), x, tilt()),
    ensures
        ({
            let sum = (k * asked(m, a.x, b.x)) * amount(n.x) + (k * asked(m, a.y, b.y)) * amount(
                n.y,
            ) + (k * asked(m, a.z, b.z)) * amount(n.z);
            off(
                sum,
                k * (amount(m.y) * y + amount(m.x) * x),
                k * (strength(m) / 0x2000 as real),
            )
        }),
{
    lemma_extent(m.x);
    lemma_extent(m.y);
    let (p, q) = (amount(m.y), amount(m.x));
    lemma_three_terms(p, q, amount(a.x), amount(b.x), amount(n.x), k);
    lemma_three_terms(p, q, amount(a.y), amount(b.y), amount(n.y), k);
    lemma_three_terms(p, q, amount(a.z), amount(b.z), amount(n.z), k);
    let an = exact_dot(a, n);
    let bn = exact_dot(b, n);
    let (ax, ay, az) = (
        amount(a.x) * amount(n.x),
        amount(a.y) * amount(n.y),
        amount(a.z) * amount(n.z),
    );
    let (bx, by, bz) = (
        amount(b.x) * amount(n.x),
        amount(b.y) * amount(n.y),
        amount(b.z) * amount(n.z),
    );
    lemma_gathered(p, k, ax, ay, az);
    lemma_gathered(q, k, bx, by, bz);
    let f = an - y;
    let g = bn - x;
    lemma_product_bounded(p, f, extent(m.y), tilt());
    lemma_product_bounded(q, g, extent(m.x), tilt());
    let d = p * f + q * g;
    let t = strength(m) / 0x2000 as real;
    assert(extent(m.y) * tilt() + extent(m.x) * tilt() == t) by (nonlinear_arith)
        requires
            tilt() == 1 as real / 0x2000 as real,
            t == (extent(m.x) + extent(m.y)) / 0x2000 as real,
    ;
    lemma_product_bounded(k, d, k, t);
    assert(k * (p * an) + k * (q * bn) == k * (p * y + q * x) + k * d) by (nonlinear_arith)
        requires
            f == an - y,
            g == bn - x,
            d == p * f + q * g,
    {
        assert(p * an == p * y + p * f);
        assert(q * bn == q * x + q * g);
        let u = p * y + q * x;
        assert(p * an + q * bn == u + d);
        assert(k * (p * an) + k * (q * bn) == k * (p * an + q * bn));
        assert(k * (u + d) == k * u + k * d);
    }
}

#[verifier::spinoff_prover]
proof fn lemma_three_terms(p: real, q: real, a: real, b: real, n: real, k: real)
    ensures
        (k * (p * a + q * b)) * n == k * (p * (a * n)) + k * (q * (b * n)),
{
    let u = p * a;
    let v = q * b;
    assert((k * (u + v)) * n == k * (u * n) + k * (v * n)) by (nonlinear_arith);
    assert(u * n == p * (a * n)) by (nonlinear_arith)
        requires
            u == p * a,
    ;
    assert(v * n == q * (b * n)) by (nonlinear_arith)
        requires
            v == q * b,
    ;
}

#[verifier::spinoff_prover]
proof fn lemma_gathered(p: real, k: real, x: real, y: real, z: real)
    ensures
        k * (p * x) + k * (p * y) + k * (p * z) == k * (p * (x + y + z)),
{
    assert(p * (x + y + z) == p * x + p * y + p * z) by (nonlinear_arith);
    let (a, b, c) = (p * x, p * y, p * z);
    assert(k * (a + b + c) == k * a + k * b + k * c) by (nonlinear_arith);
}

/// How far apart a wish and the movement that it follows may be along an axis.
pub open spec fn stray(m: Vec2, s: real, k: real) -> real {
    s / 0x1_0000 as real + k * (strength(m) / 0x1000 as real + 24 as real * half_unit()) + 4 as real
        * half_unit()
}

/// The wish along the look goes ahead as the movement does and aside as the movement does: its part
/// along the look is the part of the movement ahead, its part along the side is the part of the
/// movement aside, both times one factor that is not negative, and it has none along what is up for
/// the look, but for rounding. The factor is what makes the wish as fast as it should be. So it
/// turns around where the movement does.
#[verifier::spinoff_prover]
pub proof fn law_3d_wish_along_look(c: Ctx)
    requires
        unit_rotation(c.state.orientation),
        measurable(look_sum(c)),
        finite(wish_velocity_3d_of(c)),
        num(ZERO).le(wish_speed(c.cfg, c.state.crouching)),
    ensures
        ({
            let w = wish_velocity_3d_of(c);
            let m = movement(c.input);
            let s = amount(wish_speed(c.cfg, c.state.crouching));
            let q = c.state.orientation;
            exists|k: real| #[trigger] guided(w, q, m, s, k)
        }),
{
    law_3d_wish_follows_movement(c);
    let q = c.state.orientation;
    let w = wish_velocity_3d_of(c);
    let m = movement(c.input);
    let s = amount(wish_speed(c.cfg, c.state.crouching));
    let inverse = 1 as real / extent(look_sum(c).length());
    let k = inverse * s;
    let look = forward(q);
    let side = right(q);
    let top = q.rotate(up());
    lemma_scale_in_figures();
    lemma_extent(m.x);
    lemma_extent(m.y);
    let blur = s / 0x4_0000 as real + k * (strength(m) / 0x8_0000 as real + 6 as real * half_unit())
        + half_unit();
    lemma_speed_not_negative(c);
    let d = strength(m) / 0x8_0000 as real + 6 as real * half_unit();
    assert(k * d >= 0 as real) by (nonlinear_arith)
        requires
            k >= 0 as real,
            d >= 0 as real,
    ;
    law_frame(q);
    lemma_axis_bounded(look);
    lemma_axis_bounded(side);
    lemma_axis_bounded(top);
    let (x, y, z) = (
        k * asked(m, look.x, side.x),
        k * asked(m, look.y, side.y),
        k * asked(m, look.z, side.z),
    );
    lemma_dot_followed(w, look, x, y, z, blur);
    lemma_dot_followed(w, side, x, y, z, blur);
    lemma_dot_followed(w, top, x, y, z, blur);
    let (one, no) = (1 as real, 0 as real);
    lemma_dot_swapped(look, side);
    lemma_dot_swapped(look, top);
    lemma_dot_swapped(side, top);
    lemma_asked_along(m, look, side, look, k, one, no);
    lemma_asked_along(m, look, side, side, k, no, one);
    lemma_asked_along(m, look, side, top, k, no, no);
    let (mx, my) = (amount(m.x), amount(m.y));
    assert(my * one + mx * no == my && my * no + mx * one == mx && my * no + mx * no == no)
        by (nonlinear_arith)
        requires
            one == 1 as real,
            no == 0 as real,
    ;
    assert(k * no == no) by (nonlinear_arith)
        requires
            no == 0 as real,
    ;
    let a = strength(m);
    let h = half_unit();
    let f = k * a;
    let g = k * h;
    assert(k * (a / 0x1000 as real + 24 as real * h) == f / 0x1000 as real + 24 as real * g)
        by (nonlinear_arith)
        requires
            f == k * a,
            g == k * h,
    ;
    assert(k * (a / 0x8_0000 as real + 6 as real * h) == f / 0x8_0000 as real + 6 as real * g)
        by (nonlinear_arith)
        requires
            f == k * a,
            g == k * h,
    ;
    assert(k * (a / 0x2000 as real) == f / 0x2000 as real) by (nonlinear_arith)
        requires
            f == k * a,
    ;
    assert(f >= 0 as real && g >= 0 as real) by (nonlinear_arith)
        requires
            f == k * a,
            g == k * h,
            k >= 0 as real,
            a >= 0 as real,
            h >= 0 as real,
    ;
    lemma_factor_in_range(c);
    assert(guided(w, q, m, s, k));
}

/// Whether a wish goes along the axes of the look as a movement says, times `k`.
pub open spec fn guided(w: Vec3, q: Quat, m: Vec2, s: real, k: real) -> bool {
    &&& k >= 0 as real
    &&& s <= 8 as real * (k * (strength(m) + 2 as real * half_unit()))
    &&& k * strength(m) <= 16 as real * s
    &&& off(exact_dot(w, forward(q)), k * amount(m.y), stray(m, s, k))
    &&& off(exact_dot(w, right(q)), k * amount(m.x), stray(m, s, k))
    &&& off(exact_dot(w, q.rotate(up())), 0 as real, stray(m, s, k))
}

#[verifier::spinoff_prover]
proof fn lemma_dot_swapped(a: Vec3, b: Vec3)
    ensures
        exact_dot(a, b) == exact_dot(b, a),
{
    let (x, y, z) = (amount(a.x), amount(a.y), amount(a.z));
    let (p, q, r) = (amount(b.x), amount(b.y), amount(b.z));
    assert(x * p == p * x) by (nonlinear_arith);
    assert(y * q == q * y) by (nonlinear_arith);
    assert(z * r == r * z) by (nonlinear_arith);
}

proof fn lemma_speed_not_negative(c: Ctx)
    requires
        finite(wish_velocity_3d_of(c)),
        num(ZERO).le(wish_speed(c.cfg, c.state.crouching)),
    ensures
        amount(wish_speed(c.cfg, c.state.crouching)) >= 0 as real,
{
    reveal(wish_velocity_3d_of);
    lemma_full_speed(look_sum(c).normalize_or_zero(), wish_speed(c.cfg, c.state.crouching));
}

/// The factor from a movement to a wish along the look.
#[verifier::spinoff_prover]
proof fn lemma_factor_in_range(c: Ctx)
    requires
        unit_rotation(c.state.orientation),
        measurable(look_sum(c)),
        amount(wish_speed(c.cfg, c.state.crouching)) >= 0 as real,
    ensures
        ({
            let m = movement(c.input);
            let s = amount(wish_speed(c.cfg, c.state.crouching));
            let k = (1 as real / extent(look_sum(c).length())) * s;
            &&& s <= 8 as real * (k * (strength(m) + 2 as real * half_unit()))
            &&& k * strength(m) <= 16 as real * s
        }),
{
    let m = movement(c.input);
    let s = amount(wish_speed(c.cfg, c.state.crouching));
    let i = 1 as real / extent(look_sum(c).length());
    let a = strength(m);
    let b = a + 2 as real * half_unit();
    lemma_inverse_in_range(c);
    let k = i * s;
    assert(k * a == (i * a) * s && k * b == (i * b) * s) by (nonlinear_arith)
        requires
            k == i * s,
    ;
    let (ia, ib) = (i * a, i * b);
    assert(ia * s <= 16 as real * s && s <= 8 as real * (ib * s)) by (nonlinear_arith)
        requires
            s >= 0 as real,
            ia <= 16 as real,
            1 as real <= 8 as real * ib,
    ;
}

/// The inverse of the length of what a movement asks for along the look.
#[verifier::spinoff_prover]
proof fn lemma_inverse_in_range(c: Ctx)
    requires
        unit_rotation(c.state.orientation),
        measurable(look_sum(c)),
    ensures
        ({
            let i = 1 as real / extent(look_sum(c).length());
            let a = strength(movement(c.input));
            &&& i * a <= 16 as real
            &&& 1 as real <= 8 as real * (i * (a + 2 as real * half_unit()))
        }),
{
    reveal(Vec3::spec_mul);
    reveal(Vec3::spec_add);
    let q = c.state.orientation;
    let m = movement(c.input);
    let look = forward(q);
    let side = right(q);
    let v = look_sum(c);
    let r = extent(v.length());
    let i = 1 as real / r;
    law_frame(q);
    lemma_axis_bounded(look);
    lemma_axis_bounded(side);
    lemma_measured(v);
    lemma_asked(m, look.x, side.x);
    lemma_asked(m, look.y, side.y);
    lemma_asked(m, look.z, side.z);
    lemma_extent(m.x);
    lemma_extent(m.y);
    lemma_extent(v.x);
    lemma_extent(v.y);
    lemma_extent(v.z);
    lemma_scale_in_figures();
    lemma_within_two(v.x, r);
    lemma_within_two(v.y, r);
    lemma_within_two(v.z, r);
    let a = strength(m);
    let h = half_unit();
    let d = a / 0x8_0000 as real + 6 as real * h;
    let (x, y, z) = (asked(m, look.x, side.x), asked(m, look.y, side.y), asked(m, look.z, side.z));
    lemma_dot_followed(v, look, x, y, z, d);
    lemma_dot_followed(v, side, x, y, z, d);
    lemma_dot_swapped(look, side);
    let (one, no) = (1 as real, 0 as real);
    lemma_asked_along(m, look, side, look, one, one, no);
    lemma_asked_along(m, look, side, side, one, no, one);
    let (mx, my) = (amount(m.x), amount(m.y));
    assert(one * x == x && one * y == y && one * z == z) by (nonlinear_arith)
        requires
            one == 1 as real,
    ;
    assert(one * (my * one + mx * no) == my && one * (my * no + mx * one) == mx)
        by (nonlinear_arith)
        requires
            one == 1 as real,
            no == 0 as real,
    ;
    assert(one * (a / 0x2000 as real) == a / 0x2000 as real) by (nonlinear_arith)
        requires
            one == 1 as real,
    ;
    let e = a / 0x2000 as real + 4 as real * d;
    let f = exact_dot(v, look);
    let g = exact_dot(v, side);
    assert(off(f, my, e) && off(g, mx, e));
    lemma_directed_dot(v, look, i);
    lemma_directed_dot(v, side, i);
    assert(i > 0 as real && i * r == 1 as real) by (nonlinear_arith)
        requires
            i == 1 as real / r,
            r > 0 as real,
    ;
    lemma_least_length(v);
    // The greatest.
    let ie = i * e;
    lemma_scaled_bound(i, my, f, e, 15 as real / 2 as real);
    lemma_scaled_bound(i, mx, g, e, 15 as real / 2 as real);
    let ih = i * h;
    let ia = i * a;
    assert(ie == ia / 0x2000 as real + ia / 0x2_0000 as real + 24 as real * ih) by (nonlinear_arith)
        requires
            ie == i * e,
            ia == i * a,
            ih == i * h,
            e == a / 0x2000 as real + 4 as real * (a / 0x8_0000 as real + 6 as real * h),
    ;
    assert(ih <= 1 as real / 0x1_0000 as real && ih >= 0 as real) by (nonlinear_arith)
        requires
            ih == i * h,
            i * r == 1 as real,
            i > 0 as real,
            r >= 1 as real / 0x1_0000_0000_0000_0000 as real,
            0 as real <= h,
            h <= 1 as real / 0x1_0000_0000_0000_0000_0000 as real,
    {
        let b = 0x1_0000_0000_0000_0000 as real;
        assert(r * b >= 1 as real);
        assert(i <= b) by {
            assert(i * (r * b) >= i * 1 as real);
            assert(i * (r * b) == (i * r) * b);
        }
        assert(i * h <= b * h);
    }
    let (ux, uy) = (extent(m.x), extent(m.y));
    assert(i * ux + i * uy == ia) by (nonlinear_arith)
        requires
            ia == i * (ux + uy),
    ;
    lemma_sign_out(i, mx, ux);
    lemma_sign_out(i, my, uy);
    assert(ia <= 16 as real);
    // The least.
    let b = a + 2 as real * h;
    let c = 4 as real * b;
    assert(extent(v.x) <= c && extent(v.y) <= c && extent(v.z) <= c);
    let rr = r * r;
    lemma_within(extent(v.x), c);
    lemma_within(extent(v.y), c);
    lemma_within(extent(v.z), c);
    let cc = c * c;
    assert(r <= 8 as real * b) by (nonlinear_arith)
        requires
            rr == r * r,
            r > 0 as real,
            rr <= 3 as real * cc + rr / 0x10_0000 as real,
            cc == c * c,
            c == 4 as real * b,
            b >= 0 as real,
    {
        let k = 8 as real * b;
        if r > k {
            assert(r * r > k * k);
            assert(k * k == 4 as real * cc);
        }
    }
    assert(1 as real <= 8 as real * (i * b)) by (nonlinear_arith)
        requires
            i * r == 1 as real,
            r <= 8 as real * b,
            i > 0 as real,
    {
        assert(i * r <= i * (8 as real * b));
        assert(i * (8 as real * b) == 8 as real * (i * b));
    }
}

#[verifier::spinoff_prover]
proof fn lemma_within(x: real, c: real)
    requires
        0 as real <= x,
        x <= c,
    ensures
        x * x <= c * c,
{
    assert(x * x <= c * c) by (nonlinear_arith)
        requires
            0 as real <= x,
            x <= c,
    ;
}

#[verifier::spinoff_prover]
proof fn lemma_sign_out(i: real, x: real, u: real)
    requires
        x == u || x == 0 as real - u,
    ensures
        i * x == i * u || i * x == 0 as real - i * u,
{
    assert(i * (0 as real - u) == 0 as real - i * u) by (nonlinear_arith);
}

/// What a dot product with a direction comes to at most.
#[verifier::spinoff_prover]
proof fn lemma_directed_dot(v: Vec3, n: Vec3, i: real)
    requires
        bounded(i * amount(v.x), 2 as real),
        bounded(i * amount(v.y), 2 as real),
        bounded(i * amount(v.z), 2 as real),
        bounded(amount(n.x), 5 as real / 4 as real),
        bounded(amount(n.y), 5 as real / 4 as real),
        bounded(amount(n.z), 5 as real / 4 as real),
    ensures
        bounded(i * exact_dot(v, n), 15 as real / 2 as real),
{
    let (x, y, z) = (amount(v.x), amount(v.y), amount(v.z));
    let (p, q, r) = (amount(n.x), amount(n.y), amount(n.z));
    lemma_product_bounded(i * x, p, 2 as real, 5 as real / 4 as real);
    lemma_product_bounded(i * y, q, 2 as real, 5 as real / 4 as real);
    lemma_product_bounded(i * z, r, 2 as real, 5 as real / 4 as real);
    assert((i * x) * p == i * (x * p)) by (nonlinear_arith);
    assert((i * y) * q == i * (y * q)) by (nonlinear_arith);
    assert((i * z) * r == i * (z * r)) by (nonlinear_arith);
    let (a, b, c) = (x * p, y * q, z * r);
    assert(i * (a + b + c) == i * a + i * b + i * c) by (nonlinear_arith);
}

#[verifier::spinoff_prover]
proof fn lemma_scaled_bound(i: real, x: real, f: real, e: real, b: real)
    requires
        i > 0 as real,
        off(f, x, e),
        bounded(i * f, b),
    ensures
        bounded(i * x, b + i * e),
{
    assert(i * x <= i * (f + e) && i * (f - e) <= i * x) by (nonlinear_arith)
        requires
            i > 0 as real,
            x <= f + e,
            f - e <= x,
    ;
    assert(i * (f + e) == i * f + i * e && i * (f - e) == i * f - i * e) by (nonlinear_arith);
}

/// A measurable vector is not shorter than two to the power -64.
#[verifier::spinoff_prover]
pub proof fn lemma_least_length(v: Vec3)
    requires
        measurable(v),
    ensures
        extent(v.length()) >= 1 as real / 0x1_0000_0000_0000_0000 as real,
{
    lemma_measured(v);
    law_root_rounded(v.length_squared());
    let r = extent(v.length());
    let rr = r * r;
    let l = extent(v.length_squared());
    assert(r >= 1 as real / 0x1_0000_0000_0000_0000 as real) by (nonlinear_arith)
        requires
            rr == r * r,
            r > 0 as real,
            l <= rr + rr / 0x40_0000 as real,
            l >= 1 as real / 0x4000_0000_0000_0000_0000_0000_0000_0000 as real,
    {
        let b = 1 as real / 0x1_0000_0000_0000_0000 as real;
        if r < b {
            assert(r * r < b * b);
        }
    }
}

/// A wish along the look is as fast as wishes are, whatever the movement, but for rounding. A
/// movement so small that its square loses digits is left out.
#[verifier::spinoff_prover]
pub proof fn law_3d_wish_is_full(c: Ctx)
    requires
        measurable(look_sum(c)),
        finite(wish_velocity_3d_of(c)),
        wish_speed(c.cfg, c.state.crouching).is_finite(),
    ensures
        ({
            let s = extent(wish_speed(c.cfg, c.state.crouching));
            off(
                squared_length(wish_velocity_3d_of(c)),
                s * s,
                (s * s) / 0x1_0000 as real + slack(),
            )
        }),
{
    reveal(wish_velocity_3d_of);
    reveal(Vec3::spec_mul);
    let v = look_sum(c);
    law_normalized_along(v);
    law_direction_is_unit(v);
    lemma_not_zero_length(v, 1 as real / extent(v.length()));
    let n = v.normalize_or_zero();
    let speed = wish_speed(c.cfg, c.state.crouching);
    let w = n * speed;
    lemma_stretched_part(n.x, speed);
    lemma_stretched_part(n.y, speed);
    lemma_stretched_part(n.z, speed);
    let s = extent(speed);
    lemma_not_negative(s);
    lemma_stretched(
        extent(n.x) * extent(n.x),
        extent(n.y) * extent(n.y),
        extent(n.z) * extent(n.z),
        s * s,
        extent(w.x) * extent(w.x),
        extent(w.y) * extent(w.y),
        extent(w.z) * extent(w.z),
    );
}

} // verus!
