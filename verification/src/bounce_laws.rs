//! How fast a bounce leaves the wall.
use crate::amounts::{
    amount, bounded, exact_dot, half_unit, lemma_amounts_ordered, lemma_extent,
    lemma_product_bounded, lemma_product_off, lemma_scale_in_figures, lemma_sum_off, off,
};
use crate::context::Ctx;
use crate::ieee;
use crate::jump::{bounce_speed, into_wall, mirrored_velocity};
use crate::laws::finite;
use crate::length_laws::crumb;
use crate::number_laws::{lemma_one, lemma_opposite};
use crate::scalar::{group_bits, num, Scalar, ZERO};
use crate::vector::Vec3;
use vstd::prelude::*;

verus! {

/// One part of a velocity that is pushed by `k` along `n`, seen along `n`.
#[verifier::spinoff_prover]
proof fn lemma_pushed_part(v: real, n: real, k: real, m: real, w: real, d: real)
    requires
        bounded(n, 2 as real),
        d >= 0 as real,
        off(m, n * k, d),
        off(w, v + m, d),
    ensures
        off(w * n, v * n + (n * n) * k, 4 as real * d),
{
    let err = w - v - n * k;
    assert(bounded(err, 2 as real * d));
    lemma_product_bounded(err, n, 2 as real * d, 2 as real);
    assert(w * n == v * n + (n * n) * k + err * n) by (nonlinear_arith)
        requires
            err == w - v - n * k,
    ;
    assert((2 as real * d) * (2 as real) == 4 as real * d) by (nonlinear_arith);
}

/// How far apart the exact and the computed way of a bounce may be.
pub open spec fn reach(v: real, o: real) -> real {
    64 as real * (v + o) + 16 as real * crumb()
}

/// What rounding moves one step of the computation at most.
pub open spec fn drift(v: real, o: real) -> real {
    reach(v, o) / 0x100_0000 as real + half_unit()
}

/// The computed speed along a normal.
#[verifier::spinoff_prover]
proof fn lemma_dot_off(v: Vec3, n: Vec3, most: real, o: real)
    requires
        v.dot(n).is_finite(),
        most >= 0 as real,
        o >= 0 as real,
        bounded(amount(v.x), most),
        bounded(amount(v.y), most),
        bounded(amount(v.z), most),
        bounded(amount(n.x), 2 as real),
        bounded(amount(n.y), 2 as real),
        bounded(amount(n.z), 2 as real),
    ensures
        off(amount(v.dot(n)), exact_dot(v, n), 5 as real * drift(most, o)),
        bounded(amount(v.dot(n)), 7 as real * most + o + crumb()),
{
    broadcast use group_bits;

    reveal(Vec3::spec_dot);
    lemma_scale_in_figures();
    let px = v.x * n.x;
    let py = v.y * n.y;
    let pz = v.z * n.z;
    assert((px + py).is_finite() && pz.is_finite() && px.is_finite() && py.is_finite()) by {
        reveal(Scalar::spec_is_finite);
        reveal(Scalar::spec_add);
        reveal(ieee::sum);
    }
    let b = reach(most, o);
    let d = drift(most, o);
    lemma_product_bounded(amount(v.x), amount(n.x), most, 2 as real);
    lemma_product_bounded(amount(v.y), amount(n.y), most, 2 as real);
    lemma_product_bounded(amount(v.z), amount(n.z), most, 2 as real);
    assert(most * 2 as real <= b && most * 2 as real == 2 as real * most);
    lemma_product_off(v.x, n.x, b);
    lemma_product_off(v.y, n.y, b);
    lemma_product_off(v.z, n.z, b);
    let x = amount(px);
    let y = amount(py);
    let z = amount(pz);
    let c = crumb();
    let t = half_unit();
    assert(d <= (most + o) / 0x1_0000 as real + c / 16 as real && d >= 0 as real)
        by (nonlinear_arith)
        requires
            d == b / 0x100_0000 as real + t,
            b == 64 as real * (most + o) + 16 as real * c,
            most >= 0 as real,
            o >= 0 as real,
            32 as real * t <= c,
            t >= 0 as real,
    ;
    assert(bounded(x, 2 as real * most + d) && bounded(y, 2 as real * most + d) && bounded(
        z,
        2 as real * most + d,
    ));
    assert(bounded(x + y, b));
    lemma_sum_off(px, py, b);
    assert(bounded(amount(px + py) + z, b));
    lemma_sum_off(px + py, pz, b);
}

/// The speed off the wall of a velocity that is pushed along the normal by what is missing.
#[verifier::spinoff_prover]
proof fn lemma_leaving(v: Vec3, n: Vec3, out: Scalar, most: real)
    requires
        finite(v + n * (out - v.dot(n))),
        most >= 0 as real,
        amount(out) >= 0 as real,
        bounded(amount(v.x), most),
        bounded(amount(v.y), most),
        bounded(amount(v.z), most),
        bounded(amount(n.x), 2 as real),
        bounded(amount(n.y), 2 as real),
        bounded(amount(n.z), 2 as real),
        exact_dot(n, n) <= 1 as real + 1 as real / 0x4_0000 as real,
        1 as real <= exact_dot(n, n) + 1 as real / 0x4_0000 as real,
    ensures
        ({
            let o = amount(out);
            o <= exact_dot(v + n * (out - v.dot(n)), n) + (most + o) / 0x400 as real + 2 as real
                * crumb()
        }),
{
    broadcast use group_bits;

    reveal(Vec3::spec_add);
    reveal(Vec3::spec_mul);
    lemma_scale_in_figures();
    let now = v.dot(n);
    let k = out - now;
    let m = n * k;
    let w = v + m;
    let o = amount(out);
    let b = reach(most, o);
    let d = drift(most, o);
    let c = crumb();
    let t = half_unit();
    assert(m.x.is_finite() && m.y.is_finite() && m.z.is_finite()) by {
        reveal(Scalar::spec_is_finite);
        reveal(Scalar::spec_add);
        reveal(ieee::sum);
    }
    assert(k.is_finite()) by {
        reveal(Scalar::spec_is_finite);
        reveal(Scalar::spec_mul);
        reveal(ieee::product);
    }
    lemma_opposite(now);
    assert(k == out + now.negated()) by {
        reveal(Scalar::spec_sub);
        reveal(Scalar::spec_add);
    }
    assert(now.is_finite()) by {
        reveal(Scalar::spec_is_finite);
        reveal(Scalar::spec_add);
        reveal(ieee::sum);
    }
    lemma_dot_off(v, n, most, o);
    let s = amount(now);
    assert(amount(now.negated()) == 0 as real - s);
    assert(d <= (most + o) / 0x1_0000 as real + c / 16 as real && d >= 0 as real)
        by (nonlinear_arith)
        requires
            d == b / 0x100_0000 as real + t,
            b == 64 as real * (most + o) + 16 as real * c,
            most >= 0 as real,
            o >= 0 as real,
            32 as real * t <= c,
            t >= 0 as real,
    ;
    lemma_sum_off(out, now.negated(), b);
    let a = amount(k);
    let far = 8 as real * most + 3 as real * o + 2 as real * c;
    assert(bounded(a, far));
    lemma_product_bounded(amount(n.x), a, 2 as real, far);
    lemma_product_bounded(amount(n.y), a, 2 as real, far);
    lemma_product_bounded(amount(n.z), a, 2 as real, far);
    assert((2 as real) * far == 16 as real * most + 6 as real * o + 4 as real * c)
        by (nonlinear_arith)
        requires
            far == 8 as real * most + 3 as real * o + 2 as real * c,
    ;
    lemma_product_off(n.x, k, b);
    lemma_product_off(n.y, k, b);
    lemma_product_off(n.z, k, b);
    lemma_sum_off(v.x, m.x, b);
    lemma_sum_off(v.y, m.y, b);
    lemma_sum_off(v.z, m.z, b);
    lemma_pushed_part(amount(v.x), amount(n.x), a, amount(m.x), amount(w.x), d);
    lemma_pushed_part(amount(v.y), amount(n.y), a, amount(m.y), amount(w.y), d);
    lemma_pushed_part(amount(v.z), amount(n.z), a, amount(m.z), amount(w.z), d);
    let h = 1 as real / 0x4_0000 as real;
    let nn = exact_dot(n, n);
    let x = amount(n.x) * amount(n.x);
    let y = amount(n.y) * amount(n.y);
    let z = amount(n.z) * amount(n.z);
    let na = nn * a;
    assert(x * a + y * a + z * a == na) by (nonlinear_arith)
        requires
            na == nn * a,
            nn == x + y + z,
    ;
    lemma_product_bounded(nn - 1 as real, a, h, far);
    assert((nn - 1 as real) * a == na - a) by (nonlinear_arith)
        requires
            na == nn * a,
    ;
    let hf = h * far;
    assert(hf == far / 0x4_0000 as real) by (nonlinear_arith)
        requires
            hf == h * far,
            h == 1 as real / 0x4_0000 as real,
    ;
    let along = exact_dot(w, n);
    let before = exact_dot(v, n);
    assert(off(along, before + na, 12 as real * d));
    assert(off(s, before, 5 as real * d));
    assert(off(a, o - s, d));
    assert(off(na, a, far / 0x4_0000 as real));
    assert(o <= along + 18 as real * d + far / 0x4_0000 as real);
    assert(o <= along + (most + o) / 0x400 as real + 2 as real * c) by (nonlinear_arith)
        requires
            o <= along + 18 as real * d + far / 0x4_0000 as real,
            d <= (most + o) / 0x1_0000 as real + c / 16 as real,
            far == 8 as real * most + 3 as real * o + 2 as real * c,
            most >= 0 as real,
            o >= 0 as real,
            c >= 0 as real,
    ;
}

/// A bounce leaves the wall at least as fast as a bounce has to be, and so at least at the smallest
/// speed, but for rounding. Here `most` bounds the parts of the velocity, and the normal has length
/// one, but for rounding.
#[verifier::spinoff_prover]
pub proof fn law_bounce_leaves_wall(c: Ctx, normal: Vec3, most: real)
    requires
        most >= 0 as real,
        bounded(amount(c.velocity.x), most),
        bounded(amount(c.velocity.y), most),
        bounded(amount(c.velocity.z), most),
        bounded(amount(normal.x), 2 as real),
        bounded(amount(normal.y), 2 as real),
        bounded(amount(normal.z), 2 as real),
        exact_dot(normal, normal) <= 1 as real + 1 as real / 0x4_0000 as real,
        1 as real <= exact_dot(normal, normal) + 1 as real / 0x4_0000 as real,
        c.velocity.dot(normal).is_finite(),
        finite(mirrored_velocity(c, normal)),
        num(ZERO).le(c.cfg.bounce_min_speed),
        bounce_speed(c.cfg, into_wall(c, normal)).is_finite(),
    ensures
        ({
            let o = amount(bounce_speed(c.cfg, into_wall(c, normal)));
            let off_wall = exact_dot(mirrored_velocity(c, normal), normal);
            &&& amount(c.cfg.bounce_min_speed) <= o
            &&& o <= off_wall + (most + o) / 0x400 as real + 2 as real * crumb()
        }),
{
    broadcast use group_bits;

    reveal(mirrored_velocity);
    let now = c.velocity.dot(normal);
    let least = c.cfg.bounce_min_speed;
    let out = bounce_speed(c.cfg, into_wall(c, normal));
    assert(least.le(out) && num(ZERO).le(out) && least.is_finite()) by {
        reveal(bounce_speed);
        reveal(Scalar::spec_max);
        reveal(Scalar::spec_lt);
        reveal(Scalar::spec_le);
        reveal(Scalar::spec_is_finite);
    }
    lemma_amounts_ordered(least, out);
    lemma_one();
    lemma_amounts_ordered(num(ZERO), out);
    lemma_extent(num(ZERO));
    let o = amount(out);
    assert(o >= 0 as real);
    if now.lt(out) {
        lemma_leaving(c.velocity, normal, out, most);
    } else {
        assert(out.le(now)) by {
            reveal(Scalar::spec_lt);
            reveal(Scalar::spec_le);
            reveal(Scalar::spec_is_finite);
        }
        lemma_amounts_ordered(out, now);
        lemma_dot_off(c.velocity, normal, most, o);
        lemma_scale_in_figures();
        let d = drift(most, o);
        let b = reach(most, o);
        let k = crumb();
        let t = half_unit();
        let along = exact_dot(c.velocity, normal);
        assert(o <= along + 5 as real * d);
        assert(o <= along + (most + o) / 0x400 as real + 2 as real * k) by (nonlinear_arith)
            requires
                o <= along + 5 as real * d,
                d == b / 0x100_0000 as real + t,
                b == 64 as real * (most + o) + 16 as real * k,
                most >= 0 as real,
                o >= 0 as real,
                32 as real * t <= k,
                t >= 0 as real,
        ;
    }
}

} // verus!
