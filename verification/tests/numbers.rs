use ahoy_kcc::clock::{span, Stopwatch, LONGEST};
use ahoy_kcc::scalar::{num, Scalar, HALF, MINUS_ONE, ONE, TWO, ZERO};
use ahoy_kcc::vector::{down, minus_unit_z, one, unit_x, up, vec3, zero, Quat, Vec2, Vec3};
use bevy_math as native;

fn s(x: f32) -> Scalar {
    num(x.to_bits())
}

fn f(x: Scalar) -> f32 {
    f32::from_bits(x.bits())
}

/// The pattern of a number; every NaN is alike.
fn pattern(x: f32) -> u32 {
    if x.is_nan() {
        0x7fc0_0000
    } else {
        x.to_bits()
    }
}

fn v(x: f32, y: f32, z: f32) -> Vec3 {
    vec3(s(x), s(y), s(z))
}

fn native_vec(a: Vec3) -> native::Vec3 {
    native::Vec3::new(f(a.x), f(a.y), f(a.z))
}

fn assert_alike(a: Vec3, b: native::Vec3) {
    assert_eq!(a.x.bits(), pattern(b.x), "x of {:?} and {}", native_vec(a), b);
    assert_eq!(a.y.bits(), pattern(b.y), "y of {:?} and {}", native_vec(a), b);
    assert_eq!(a.z.bits(), pattern(b.z), "z of {:?} and {}", native_vec(a), b);
}

/// A small generator of bit patterns.
struct Patterns(u64);

impl Patterns {
    fn next(&mut self) -> u32 {
        self.0 = self.0.wrapping_mul(6364136223846793005).wrapping_add(1442695040888963407);
        (self.0 >> 32) as u32
    }

    /// A number of everyday size.
    fn everyday(&mut self) -> f32 {
        let a = self.next();
        (a as i32 as f32) / 65_536.0 / ((a % 97) as f32 + 1.0)
    }
}

fn interesting() -> Vec<u32> {
    let mut all = vec![
        0x0000_0000, 0x8000_0000, 0x0000_0001, 0x8000_0001, 0x0000_0002, 0x007f_ffff, 0x0080_0000,
        0x0080_0001, 0x00ff_ffff, 0x0100_0000, 0x3f80_0000, 0xbf80_0000, 0x3f80_0001, 0x3f7f_ffff,
        0x4000_0000, 0x3f00_0000, 0x7f7f_ffff, 0xff7f_ffff, 0x7f00_0000, 0x7f80_0000, 0xff80_0000,
        0x7fc0_0000, 0x7f80_0001, 0x5f80_0000, 0x5f7f_ffff, 0x1a00_0000, 0x2000_0000, 0x3380_0000,
        0x3300_0000, 0x4b80_0000, 0x4b7f_ffff, 0x3dcc_cccd, 0x3c23_d70a,
    ];
    let mut g = Patterns(7);
    for _ in 0..40 {
        all.push(g.next());
    }
    all
}

fn check_pair(a: u32, b: u32) {
    let (x, y) = (f32::from_bits(a), f32::from_bits(b));
    let (p, q) = (num(a), num(b));
    assert_eq!((p + q).bits(), pattern(x + y), "{x} + {y}");
    assert_eq!((p - q).bits(), pattern(x - y), "{x} - {y}");
    assert_eq!((p * q).bits(), pattern(x * y), "{x} * {y}");
    assert_eq!(p.over(q).bits(), pattern(x / y), "{x} / {y}");
    assert_eq!(p.lt(q), x < y, "{x} < {y}");
    assert_eq!(p.le(q), x <= y, "{x} <= {y}");
    assert_eq!(p.same(q), x == y, "{x} == {y}");
    if x.is_nan() || y.is_nan() {
        // The other one, where only one is not a number.
        if !y.is_nan() {
            assert_eq!(p.min(q).bits(), b);
            assert_eq!(p.max(q).bits(), b);
        } else if !x.is_nan() {
            assert_eq!(p.min(q).bits(), a);
            assert_eq!(p.max(q).bits(), a);
        }
    } else {
        assert_eq!(f(p.min(q)), x.min(y));
        assert_eq!(f(p.max(q)), x.max(y));
    }
}

fn check_one(a: u32) {
    let x = f32::from_bits(a);
    let p = num(a);
    assert_eq!(p.bits(), a);
    let root = if x < 0.0 { f32::NAN } else { x.sqrt() };
    assert_eq!(p.sqrt().bits(), pattern(root), "sqrt {x}");
    assert_eq!(p.abs().bits(), x.abs().to_bits());
    assert_eq!(p.negated().bits(), (-x).to_bits());
    assert_eq!(p.signum().bits(), pattern(x.signum()));
    assert_eq!(p.is_finite(), x.is_finite());
    assert_eq!(p.is_number(), !x.is_nan());
    if !x.is_nan() {
        assert_eq!(f(p.clamp(num(MINUS_ONE), num(ONE))), x.clamp(-1.0, 1.0));
    }
}

#[test]
fn constants_stand_for_their_numbers() {
    assert_eq!(f(num(ZERO)), 0.0);
    assert_eq!(f(num(ONE)), 1.0);
    assert_eq!(f(num(MINUS_ONE)), -1.0);
    assert_eq!(f(num(TWO)), 2.0);
    assert_eq!(f(num(HALF)), 0.5);
    assert_eq!(f(num(ahoy_kcc::motion::HUNDREDTH)), 0.01);
    assert_eq!(f(num(ahoy_kcc::motion::THOUSANDTH)), 0.001);
    assert_eq!(f(num(ahoy_kcc::jump::TENTH)), 0.1);
    assert_eq!(f(num(ahoy_kcc::jump::MINUS_HUNDREDTH)), -0.01);
    assert_eq!(f(num(ahoy_kcc::casting::TAC_DECAY)), 0.99);
}

#[test]
fn exact_results() {
    assert_eq!(f(s(1.5) + s(2.25)), 3.75);
    assert_eq!(f(s(1.5) - s(2.25)), -0.75);
    assert_eq!(f(s(1.5) * s(-2.0)), -3.0);
    assert_eq!(f(s(1.0).over(s(3.0))), 0.333_333_34);
    assert_eq!(f(s(2.0).sqrt()), 1.414_213_5);
    assert_eq!((s(0.1) + s(0.2)).bits(), 0x3e99_999a);
}

#[test]
fn arithmetic_matches_the_machine_on_edges() {
    let all = interesting();
    for &a in &all {
        check_one(a);
        for &b in &all {
            check_pair(a, b);
        }
    }
}

#[test]
fn arithmetic_matches_the_machine_on_many() {
    let mut g = Patterns(1);
    for _ in 0..20_000 {
        let (a, b) = (g.next(), g.next());
        check_one(a);
        check_pair(a, b);
    }
}

#[test]
fn arithmetic_matches_the_machine_close_together() {
    let mut g = Patterns(2);
    for _ in 0..20_000 {
        let a = g.everyday().to_bits();
        let b = a.wrapping_add(g.next() % 512).wrapping_sub(256) ^ (g.next() & 0x8000_0000);
        check_pair(a, b);
        check_pair(g.everyday().to_bits(), g.everyday().to_bits());
    }
}

#[test]
fn overflow_and_underflow() {
    let max = s(f32::MAX);
    assert_eq!(f(max + max), f32::INFINITY);
    assert_eq!(f(max * s(-2.0)), f32::NEG_INFINITY);
    assert_eq!(f(num(1) * s(0.5)), 0.0);
    assert_eq!((num(3) * s(0.5)).bits(), 2);
    assert_eq!(f(s(1.0).over(s(0.0))), f32::INFINITY);
    assert!(!s(0.0).over(s(0.0)).is_number());
    assert!(!s(-1.0).sqrt().is_number());
    assert_eq!(s(-0.0).sqrt().bits(), 0x8000_0000);
}

#[test]
fn order_agrees_with_amounts() {
    assert!(s(-0.0).same(s(0.0)));
    assert!(!s(-0.0).lt(s(0.0)));
    assert!(s(-2.0).lt(s(-1.0)));
    assert!(num(1).lt(num(2)));
    assert!(!s(f32::NAN).le(s(f32::NAN)));
}

#[test]
fn braking_arithmetic_never_grows() {
    // Each of the steps that friction is made of, on numbers that round.
    let mut g = Patterns(3);
    for _ in 0..5_000 {
        let speed = s(g.everyday().abs() + 0.001);
        let drop = s(g.everyday().abs());
        let part = s(g.everyday());
        let left = (speed - drop).max(num(ZERO));
        assert!((speed - drop).le(speed));
        assert!(left.over(speed).le(num(ONE)));
        assert!((part * left.over(speed)).abs().le(part.abs()));
    }
}

#[test]
fn vectors_match_the_math_library() {
    let mut g = Patterns(4);
    for _ in 0..3_000 {
        let a = v(g.everyday(), g.everyday(), g.everyday());
        let b = v(g.everyday(), g.everyday(), g.everyday());
        let k = g.everyday();
        let (m, n) = (native_vec(a), native_vec(b));
        assert_alike(a + b, m + n);
        assert_alike(a - b, m - n);
        assert_alike(a * s(k), m * k);
        assert_alike(a.over(s(k)), m / k);
        assert_alike(a.negated(), -m);
        assert_eq!(a.dot(b).bits(), pattern(m.dot(n)));
        assert_alike(a.cross(b), m.cross(n));
        assert_eq!(a.length_squared().bits(), pattern(m.length_squared()));
        assert_eq!(a.length().bits(), pattern(m.length()));
        assert_alike(a.normalize(), m.normalize());
        assert_alike(a.normalize_or_zero(), m.normalize_or_zero());
        assert_alike(a.clamp_length_max(s(k.abs())), m.clamp_length_max(k.abs()));
        assert_alike(a.clamp_length(s(0.0), s(k.abs())), m.clamp_length(0.0, k.abs()));
        assert_eq!(a.same(b), m == n);
        let q = Vec2 { x: a.x, y: a.z };
        assert_eq!(a.xz(), q);
        let (c, d) = (native::Vec2::new(m.x, m.z), native::Vec2::new(n.x, n.z));
        assert_eq!(q.length().bits(), pattern(c.length()));
        assert_eq!(q.distance_squared(b.xz()).bits(), pattern(c.distance_squared(d)));
    }
}

#[test]
fn rotations_match_the_math_library() {
    let mut g = Patterns(5);
    for _ in 0..3_000 {
        let axis = native::Vec3::new(g.everyday(), g.everyday(), g.everyday()).normalize_or_zero();
        let turn = native::Quat::from_axis_angle(axis, g.everyday());
        let q = Quat { x: s(turn.x), y: s(turn.y), z: s(turn.z), w: s(turn.w) };
        let a = v(g.everyday(), g.everyday(), g.everyday());
        assert_alike(q.rotate(a), turn * native_vec(a));
    }
}

#[test]
fn directions_exist_for_finite_lengths_only() {
    assert!(zero().direction().is_none());
    assert!(v(f32::NAN, 0.0, 0.0).direction().is_none());
    assert!(v(f32::INFINITY, 0.0, 0.0).direction().is_none());
    assert!(v(1e30, 0.0, 0.0).direction().is_none());
    let (dir, len) = v(0.0, 3.0, -4.0).direction_and_length().unwrap();
    assert_eq!(f(len), 5.0);
    assert_alike(dir, native::Vec3::new(0.0, 0.6, -0.8));
    let mut g = Patterns(6);
    for _ in 0..1_000 {
        let a = v(g.everyday(), g.everyday(), g.everyday());
        let (dir, len) = native::Dir3::new_and_length(native_vec(a)).unwrap();
        let (d, l) = a.direction_and_length().unwrap();
        assert_alike(d, *dir);
        assert_eq!(l.bits(), len.to_bits());
    }
}

#[test]
fn named_vectors() {
    assert_alike(zero(), native::Vec3::ZERO);
    assert_alike(one(), native::Vec3::ONE);
    assert_alike(up(), native::Vec3::Y);
    assert_alike(down(), native::Vec3::NEG_Y);
    assert_alike(unit_x(), native::Vec3::X);
    assert_alike(minus_unit_z(), native::Vec3::NEG_Z);
    assert_alike(v(1.0, 2.0, 3.0).with_y(s(7.0)), native::Vec3::new(1.0, 7.0, 3.0));
    assert_alike(v(1.0, 2.0, 3.0).flat(), native::Vec3::new(1.0, 0.0, 3.0));
}

#[test]
fn clocks_count_and_saturate() {
    let clock = Stopwatch { elapsed: span(5), paused: false };
    assert_eq!(clock.ticked(span(7)).elapsed, span(12));
    assert_eq!(clock.ticked(span(LONGEST)).elapsed, span(LONGEST));
    assert_eq!(clock.ticked(span(u128::MAX)).elapsed.nanos(), LONGEST);
    assert_eq!(clock.restarted().elapsed, span(0));
    assert_eq!(clock.with_elapsed(span(9)), Stopwatch { elapsed: span(9), paused: false });
    let stopped = Stopwatch { elapsed: span(5), paused: true };
    assert_eq!(stopped.ticked(span(7)), stopped);
    assert!(span(1).lt(span(2)));
    assert!(!span(2).lt(span(2)));
    assert_eq!(span(9).minus(span(4)), span(5));
    assert_eq!(span(4).minus(span(9)), span(0));
}

#[test]
fn the_root_of_a_square_is_no_smaller() {
    let mut g = Patterns(8);
    for _ in 0..5_000 {
        let a = s(g.everyday());
        assert!(a.abs().le((a * a).sqrt()));
        let b = s(g.everyday());
        assert!(a.abs().le((a * a + b * b).sqrt()));
    }
}

#[test]
fn shortened_vectors_have_no_part_above_the_limit() {
    let mut g = Patterns(9);
    for _ in 0..3_000 {
        let a = v(g.everyday(), g.everyday(), g.everyday());
        let max = s(g.everyday());
        let short = a.clamp_length(num(ZERO), max);
        if (max * max).lt(a.length_squared()) {
            assert!(short.x.abs().le(max.abs()));
            assert!(short.y.abs().le(max.abs()));
            assert!(short.z.abs().le(max.abs()));
            assert_eq!(a.clamp_length_max(max), short);
        } else {
            assert_eq!(short, a);
        }
    }
    // Squares that lose digits let a part slip above the limit.
    let limit = s(2.6e-23);
    let tiny = v(4.5e-23, 0.0, 0.0).clamp_length_max(limit);
    assert!(limit.lt(tiny.x));
}
