//! Vectors, rotations and poses.
use crate::scalar::{num, Scalar, MINUS_ONE, ONE, TWO, ZERO};
use vstd::prelude::*;

verus! {

/// A vector with two components.
#[derive(Clone, Copy, PartialEq, Eq, Structural, Debug)]
pub struct Vec2 {
    pub x: Scalar,
    pub y: Scalar,
}

/// A vector with three components; `y` points up.
#[derive(Clone, Copy, PartialEq, Eq, Structural, Debug)]
pub struct Vec3 {
    pub x: Scalar,
    pub y: Scalar,
    pub z: Scalar,
}

/// A quaternion that stands for a rotation.
#[derive(Clone, Copy, PartialEq, Eq, Structural, Debug)]
pub struct Quat {
    pub x: Scalar,
    pub y: Scalar,
    pub z: Scalar,
    pub w: Scalar,
}

/// Where something is, how it is turned and how it is scaled.
#[derive(Clone, Copy, PartialEq, Eq, Structural, Debug)]
pub struct Transform {
    pub translation: Vec3,
    pub rotation: Quat,
    pub scale: Vec3,
}

pub open spec fn spec_vec3(x: Scalar, y: Scalar, z: Scalar) -> Vec3 {
    Vec3 { x, y, z }
}

/// The vector with the given components.
#[verifier::when_used_as_spec(spec_vec3)]
pub fn vec3(x: Scalar, y: Scalar, z: Scalar) -> (r: Vec3)
    ensures
        r == spec_vec3(x, y, z),
{
    Vec3 { x, y, z }
}

pub open spec fn spec_zero() -> Vec3 {
    Vec3 { x: num(ZERO), y: num(ZERO), z: num(ZERO) }
}

/// The zero vector.
#[verifier::when_used_as_spec(spec_zero)]
pub fn zero() -> (r: Vec3)
    ensures
        r == spec_zero(),
{
    Vec3 { x: num(ZERO), y: num(ZERO), z: num(ZERO) }
}

pub open spec fn spec_one() -> Vec3 {
    Vec3 { x: num(ONE), y: num(ONE), z: num(ONE) }
}

/// The vector of ones.
#[verifier::when_used_as_spec(spec_one)]
pub fn one() -> (r: Vec3)
    ensures
        r == spec_one(),
{
    Vec3 { x: num(ONE), y: num(ONE), z: num(ONE) }
}

pub open spec fn spec_up() -> Vec3 {
    Vec3 { x: num(ZERO), y: num(ONE), z: num(ZERO) }
}

/// The unit vector that points up.
#[verifier::when_used_as_spec(spec_up)]
pub fn up() -> (r: Vec3)
    ensures
        r == spec_up(),
{
    Vec3 { x: num(ZERO), y: num(ONE), z: num(ZERO) }
}

pub open spec fn spec_down() -> Vec3 {
    Vec3 { x: num(ZERO), y: num(MINUS_ONE), z: num(ZERO) }
}

/// The unit vector that points down.
#[verifier::when_used_as_spec(spec_down)]
pub fn down() -> (r: Vec3)
    ensures
        r == spec_down(),
{
    Vec3 { x: num(ZERO), y: num(MINUS_ONE), z: num(ZERO) }
}

pub open spec fn spec_unit_x() -> Vec3 {
    Vec3 { x: num(ONE), y: num(ZERO), z: num(ZERO) }
}

/// The unit vector along `x`.
#[verifier::when_used_as_spec(spec_unit_x)]
pub fn unit_x() -> (r: Vec3)
    ensures
        r == spec_unit_x(),
{
    Vec3 { x: num(ONE), y: num(ZERO), z: num(ZERO) }
}

pub open spec fn spec_minus_unit_z() -> Vec3 {
    Vec3 { x: num(ZERO), y: num(ZERO), z: num(MINUS_ONE) }
}

/// The unit vector against `z`.
#[verifier::when_used_as_spec(spec_minus_unit_z)]
pub fn minus_unit_z() -> (r: Vec3)
    ensures
        r == spec_minus_unit_z(),
{
    Vec3 { x: num(ZERO), y: num(ZERO), z: num(MINUS_ONE) }
}

impl Vec2 {
    #[verifier::opaque]
    pub open spec fn spec_dot(self, rhs: Vec2) -> Scalar {
        self.x * rhs.x + self.y * rhs.y
    }

    /// The dot product.
    #[verifier::when_used_as_spec(spec_dot)]
    pub fn dot(self, rhs: Vec2) -> (r: Scalar)
        ensures
            r == self.spec_dot(rhs),
    {
        reveal(Vec2::spec_dot);
        self.x * rhs.x + self.y * rhs.y
    }

    #[verifier::opaque]
    pub open spec fn spec_length(self) -> Scalar {
        self.dot(self).sqrt()
    }

    /// The length.
    #[verifier::when_used_as_spec(spec_length)]
    pub fn length(self) -> (r: Scalar)
        ensures
            r == self.spec_length(),
    {
        reveal(Vec2::spec_length);
        self.dot(self).sqrt()
    }

    #[verifier::opaque]
    pub open spec fn spec_distance_squared(self, rhs: Vec2) -> Scalar {
        let d = Vec2 { x: self.x - rhs.x, y: self.y - rhs.y };
        d.dot(d)
    }

    /// The squared distance between two points.
    #[verifier::when_used_as_spec(spec_distance_squared)]
    pub fn distance_squared(self, rhs: Vec2) -> (r: Scalar)
        ensures
            r == self.spec_distance_squared(rhs),
    {
        reveal(Vec2::spec_distance_squared);
        let d = Vec2 { x: self.x - rhs.x, y: self.y - rhs.y };
        d.dot(d)
    }
}

impl Vec3 {
    #[verifier::opaque]
    pub open spec fn spec_add(self, rhs: Vec3) -> Vec3 {
        Vec3 { x: self.x + rhs.x, y: self.y + rhs.y, z: self.z + rhs.z }
    }

    #[verifier::opaque]
    pub open spec fn spec_sub(self, rhs: Vec3) -> Vec3 {
        Vec3 { x: self.x - rhs.x, y: self.y - rhs.y, z: self.z - rhs.z }
    }

    #[verifier::opaque]
    pub open spec fn spec_mul(self, rhs: Scalar) -> Vec3 {
        Vec3 { x: self.x * rhs, y: self.y * rhs, z: self.z * rhs }
    }

    #[verifier::opaque]
    pub open spec fn spec_negated(self) -> Vec3 {
        Vec3 { x: self.x.negated(), y: self.y.negated(), z: self.z.negated() }
    }

    /// The vector that points the other way.
    #[verifier::when_used_as_spec(spec_negated)]
    pub fn negated(self) -> (r: Vec3)
        ensures
            r == self.spec_negated(),
    {
        reveal(Vec3::spec_negated);
        Vec3 { x: self.x.negated(), y: self.y.negated(), z: self.z.negated() }
    }

    #[verifier::opaque]
    pub open spec fn spec_over(self, rhs: Scalar) -> Vec3 {
        Vec3 { x: self.x.over(rhs), y: self.y.over(rhs), z: self.z.over(rhs) }
    }

    /// The vector divided by a number.
    #[verifier::when_used_as_spec(spec_over)]
    pub fn over(self, rhs: Scalar) -> (r: Vec3)
        ensures
            r == self.spec_over(rhs),
    {
        reveal(Vec3::spec_over);
        Vec3 { x: self.x.over(rhs), y: self.y.over(rhs), z: self.z.over(rhs) }
    }

    pub open spec fn spec_with_y(self, y: Scalar) -> Vec3 {
        Vec3 { x: self.x, y, z: self.z }
    }

    /// The vector with another vertical component.
    #[verifier::when_used_as_spec(spec_with_y)]
    pub fn with_y(self, y: Scalar) -> (r: Vec3)
        ensures
            r == self.spec_with_y(y),
    {
        Vec3 { x: self.x, y, z: self.z }
    }

    pub open spec fn spec_flat(self) -> Vec3 {
        self.with_y(num(ZERO))
    }

    /// The vector without its vertical component.
    #[verifier::when_used_as_spec(spec_flat)]
    pub fn flat(self) -> (r: Vec3)
        ensures
            r == self.spec_flat(),
    {
        self.with_y(num(ZERO))
    }

    pub open spec fn spec_xz(self) -> Vec2 {
        Vec2 { x: self.x, y: self.z }
    }

    /// The horizontal components.
    #[verifier::when_used_as_spec(spec_xz)]
    pub fn xz(self) -> (r: Vec2)
        ensures
            r == self.spec_xz(),
    {
        Vec2 { x: self.x, y: self.z }
    }

    #[verifier::opaque]
    pub open spec fn spec_dot(self, rhs: Vec3) -> Scalar {
        self.x * rhs.x + self.y * rhs.y + self.z * rhs.z
    }

    /// The dot product.
    #[verifier::when_used_as_spec(spec_dot)]
    pub fn dot(self, rhs: Vec3) -> (r: Scalar)
        ensures
            r == self.spec_dot(rhs),
    {
        reveal(Vec3::spec_dot);
        self.x * rhs.x + self.y * rhs.y + self.z * rhs.z
    }

    #[verifier::opaque]
    pub open spec fn spec_cross(self, rhs: Vec3) -> Vec3 {
        Vec3 {
            x: self.y * rhs.z - rhs.y * self.z,
            y: self.z * rhs.x - rhs.z * self.x,
            z: self.x * rhs.y - rhs.x * self.y,
        }
    }

    /// The cross product.
    #[verifier::when_used_as_spec(spec_cross)]
    pub fn cross(self, rhs: Vec3) -> (r: Vec3)
        ensures
            r == self.spec_cross(rhs),
    {
        reveal(Vec3::spec_cross);
        Vec3 {
            x: self.y * rhs.z - rhs.y * self.z,
            y: self.z * rhs.x - rhs.z * self.x,
            z: self.x * rhs.y - rhs.x * self.y,
        }
    }

    #[verifier::opaque]
    pub open spec fn spec_length_squared(self) -> Scalar {
        self.dot(self)
    }

    /// The squared length.
    #[verifier::when_used_as_spec(spec_length_squared)]
    pub fn length_squared(self) -> (r: Scalar)
        ensures
            r == self.spec_length_squared(),
    {
        reveal(Vec3::spec_length_squared);
        self.dot(self)
    }

    #[verifier::opaque]
    pub open spec fn spec_length(self) -> Scalar {
        self.dot(self).sqrt()
    }

    /// The length.
    #[verifier::when_used_as_spec(spec_length)]
    pub fn length(self) -> (r: Scalar)
        ensures
            r == self.spec_length(),
    {
        reveal(Vec3::spec_length);
        self.dot(self).sqrt()
    }

    #[verifier::opaque]
    pub open spec fn spec_normalize(self) -> Vec3 {
        self * (num(ONE).over(self.length()))
    }

    /// The vector scaled to length one, whatever its length is.
    #[verifier::when_used_as_spec(spec_normalize)]
    pub fn normalize(self) -> (r: Vec3)
        ensures
            r == self.spec_normalize(),
    {
        reveal(Vec3::spec_normalize);
        self * (num(ONE).over(self.length()))
    }

    #[verifier::opaque]
    pub open spec fn spec_normalize_or_zero(self) -> Vec3 {
        let inverse = num(ONE).over(self.length());
        if inverse.is_finite() && num(ZERO).lt(inverse) {
            self * inverse
        } else {
            zero()
        }
    }

    /// The vector scaled to length one where it can be, else the zero vector.
    #[verifier::when_used_as_spec(spec_normalize_or_zero)]
    pub fn normalize_or_zero(self) -> (r: Vec3)
        ensures
            r == self.spec_normalize_or_zero(),
    {
        reveal(Vec3::spec_normalize_or_zero);
        let inverse = num(ONE).over(self.length());
        if inverse.is_finite() && num(ZERO).lt(inverse) {
            self * inverse
        } else {
            zero()
        }
    }

    #[verifier::opaque]
    pub open spec fn spec_clamp_length_max(self, max: Scalar) -> Vec3 {
        let squared = self.length_squared();
        if (max * max).lt(squared) {
            self.over(squared.sqrt()) * max
        } else {
            self
        }
    }

    /// The vector shortened to `max` where it is longer.
    #[verifier::when_used_as_spec(spec_clamp_length_max)]
    pub fn clamp_length_max(self, max: Scalar) -> (r: Vec3)
        ensures
            r == self.spec_clamp_length_max(max),
    {
        reveal(Vec3::spec_clamp_length_max);
        let squared = self.length_squared();
        if (max * max).lt(squared) {
            self.over(squared.sqrt()) * max
        } else {
            self
        }
    }

    #[verifier::opaque]
    pub open spec fn spec_clamp_length(self, min: Scalar, max: Scalar) -> Vec3 {
        let squared = self.length_squared();
        if squared.lt(min * min) {
            self.over(squared.sqrt()) * min
        } else if (max * max).lt(squared) {
            self.over(squared.sqrt()) * max
        } else {
            self
        }
    }

    /// The vector lengthened to `min` or shortened to `max` where it is out of range.
    #[verifier::when_used_as_spec(spec_clamp_length)]
    pub fn clamp_length(self, min: Scalar, max: Scalar) -> (r: Vec3)
        ensures
            r == self.spec_clamp_length(min, max),
    {
        reveal(Vec3::spec_clamp_length);
        let squared = self.length_squared();
        if squared.lt(min * min) {
            self.over(squared.sqrt()) * min
        } else if (max * max).lt(squared) {
            self.over(squared.sqrt()) * max
        } else {
            self
        }
    }

    #[verifier::opaque]
    pub open spec fn spec_same(self, rhs: Vec3) -> bool {
        self.x.same(rhs.x) && self.y.same(rhs.y) && self.z.same(rhs.z)
    }

    /// Whether all components are numbers and equal.
    #[verifier::when_used_as_spec(spec_same)]
    pub fn same(self, rhs: Vec3) -> (r: bool)
        ensures
            r == self.spec_same(rhs),
    {
        reveal(Vec3::spec_same);
        self.x.same(rhs.x) && self.y.same(rhs.y) && self.z.same(rhs.z)
    }

    #[verifier::opaque]
    pub open spec fn spec_direction_and_length(self) -> Option<(Vec3, Scalar)> {
        let length = self.length();
        if length.is_finite() && num(ZERO).lt(length) {
            Some((self.over(length), length))
        } else {
            None
        }
    }

    /// The direction and the length, unless the length is zero, infinite or not a number.
    #[verifier::when_used_as_spec(spec_direction_and_length)]
    pub fn direction_and_length(self) -> (r: Option<(Vec3, Scalar)>)
        ensures
            r == self.spec_direction_and_length(),
    {
        reveal(Vec3::spec_direction_and_length);
        let length = self.length();
        if length.is_finite() && num(ZERO).lt(length) {
            Some((self.over(length), length))
        } else {
            None
        }
    }

    #[verifier::opaque]
    pub open spec fn spec_direction(self) -> Option<Vec3> {
        match self.direction_and_length() {
            Some((direction, length)) => Some(direction),
            None => None,
        }
    }

    /// The direction, unless the length is zero, infinite or not a number.
    #[verifier::when_used_as_spec(spec_direction)]
    pub fn direction(self) -> (r: Option<Vec3>)
        ensures
            r == self.spec_direction(),
    {
        reveal(Vec3::spec_direction);
        match self.direction_and_length() {
            Some((direction, length)) => Some(direction),
            None => None,
        }
    }
}

impl std::ops::Add<Vec3> for Vec3 {
    type Output = Vec3;

    fn add(self, rhs: Vec3) -> (r: Vec3) {
        reveal(Vec3::spec_add);
        Vec3 { x: self.x + rhs.x, y: self.y + rhs.y, z: self.z + rhs.z }
    }
}

impl vstd::std_specs::ops::AddSpecImpl<Vec3> for Vec3 {
    open spec fn obeys_add_spec() -> bool {
        true
    }

    open spec fn add_req(self, rhs: Vec3) -> bool {
        true
    }

    open spec fn add_spec(self, rhs: Vec3) -> Vec3 {
        self.spec_add(rhs)
    }
}

impl std::ops::Sub<Vec3> for Vec3 {
    type Output = Vec3;

    fn sub(self, rhs: Vec3) -> (r: Vec3) {
        reveal(Vec3::spec_sub);
        Vec3 { x: self.x - rhs.x, y: self.y - rhs.y, z: self.z - rhs.z }
    }
}

impl vstd::std_specs::ops::SubSpecImpl<Vec3> for Vec3 {
    open spec fn obeys_sub_spec() -> bool {
        true
    }

    open spec fn sub_req(self, rhs: Vec3) -> bool {
        true
    }

    open spec fn sub_spec(self, rhs: Vec3) -> Vec3 {
        self.spec_sub(rhs)
    }
}

impl std::ops::Mul<Scalar> for Vec3 {
    type Output = Vec3;

    fn mul(self, rhs: Scalar) -> (r: Vec3) {
        reveal(Vec3::spec_mul);
        Vec3 { x: self.x * rhs, y: self.y * rhs, z: self.z * rhs }
    }
}

impl vstd::std_specs::ops::MulSpecImpl<Scalar> for Vec3 {
    open spec fn obeys_mul_spec() -> bool {
        true
    }

    open spec fn mul_req(self, rhs: Scalar) -> bool {
        true
    }

    open spec fn mul_spec(self, rhs: Scalar) -> Vec3 {
        self.spec_mul(rhs)
    }
}

impl Quat {
    #[verifier::opaque]
    pub open spec fn spec_rotate(self, v: Vec3) -> Vec3 {
        let b = vec3(self.x, self.y, self.z);
        let w = self.w;
        v * (w * w - b.dot(b)) + b * (v.dot(b) * num(TWO)) + b.cross(v) * (w * num(TWO))
    }

    /// The vector `v` turned by this rotation.
    #[verifier::when_used_as_spec(spec_rotate)]
    pub fn rotate(self, v: Vec3) -> (r: Vec3)
        ensures
            r == self.spec_rotate(v),
    {
        reveal(Quat::spec_rotate);
        let b = vec3(self.x, self.y, self.z);
        let w = self.w;
        v * (w * w - b.dot(b)) + b * (v.dot(b) * num(TWO)) + b.cross(v) * (w * num(TWO))
    }
}

} // verus!
