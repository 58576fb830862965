//! Single-precision numbers, held as binary32 bit patterns.
use crate::ieee;
use crate::rounding::INFINITE;
use vstd::prelude::*;

verus! {

/// A single-precision number.
#[derive(Clone, Copy, PartialEq, Eq, Structural, Debug)]
pub struct Scalar {
    bits: u32,
}

/// The bit pattern of 0.0.
pub const ZERO: u32 = 0;

/// The bit pattern of 1.0.
pub const ONE: u32 = 0x3f80_0000;

/// The bit pattern of -1.0.
pub const MINUS_ONE: u32 = 0xbf80_0000;

/// The bit pattern of 2.0.
pub const TWO: u32 = 0x4000_0000;

/// The bit pattern of 0.5.
pub const HALF: u32 = 0x3f00_0000;

pub closed spec fn spec_num(bits: u32) -> Scalar {
    Scalar { bits }
}

/// The number with the given bit pattern.
#[verifier::when_used_as_spec(spec_num)]
pub fn num(bits: u32) -> (r: Scalar)
    ensures
        r == spec_num(bits),
{
    Scalar { bits }
}

/// A number is made from its bit pattern and gives it back.
pub broadcast proof fn lemma_num(bits: u32)
    ensures
        #[trigger] num(bits).bits() == bits,
{
}

/// Numbers with the same bit pattern are the same.
pub broadcast proof fn lemma_bits(a: Scalar)
    ensures
        num(#[trigger] a.bits()) == a,
{
}

pub broadcast group group_bits {
    lemma_num,
    lemma_bits,
}

impl Scalar {
    pub closed spec fn spec_bits(self) -> u32 {
        self.bits
    }

    /// The bit pattern.
    #[verifier::when_used_as_spec(spec_bits)]
    pub fn bits(self) -> (r: u32)
        ensures
            r == self.spec_bits(),
    {
        self.bits
    }

    /// Where the number stands among all numbers; both zeros stand at 0.
    pub open spec fn rank(self) -> int {
        if ieee::is_negative(self.bits()) {
            -(ieee::magnitude(self.bits()) as int)
        } else {
            ieee::magnitude(self.bits()) as int
        }
    }

    pub open spec fn is_nan(self) -> bool {
        ieee::is_nan(self.bits())
    }

    #[verifier::opaque]
    pub open spec fn spec_add(self, rhs: Scalar) -> Scalar {
        num(ieee::sum(self.bits(), rhs.bits()))
    }

    #[verifier::opaque]
    pub open spec fn spec_sub(self, rhs: Scalar) -> Scalar {
        num(ieee::sum(self.bits(), rhs.negated().bits()))
    }

    #[verifier::opaque]
    pub open spec fn spec_mul(self, rhs: Scalar) -> Scalar {
        num(ieee::product(self.bits(), rhs.bits()))
    }

    #[verifier::opaque]
    pub open spec fn spec_negated(self) -> Scalar {
        if self.bits() >= ieee::SIGN {
            num((self.bits() - ieee::SIGN) as u32)
        } else {
            num((self.bits() + ieee::SIGN) as u32)
        }
    }

    /// The number with the other sign.
    #[verifier::when_used_as_spec(spec_negated)]
    pub fn negated(self) -> (r: Scalar)
        ensures
            r == self.spec_negated(),
    {
        reveal(Scalar::spec_negated);
        if self.bits >= ieee::SIGN {
            Scalar { bits: self.bits - ieee::SIGN }
        } else {
            Scalar { bits: self.bits + ieee::SIGN }
        }
    }

    #[verifier::opaque]
    pub open spec fn spec_over(self, rhs: Scalar) -> Scalar {
        num(ieee::quotient(self.bits(), rhs.bits()))
    }

    /// The quotient.
    #[verifier::when_used_as_spec(spec_over)]
    pub fn over(self, rhs: Scalar) -> (r: Scalar)
        ensures
            r == self.spec_over(rhs),
    {
        reveal(Scalar::spec_over);
        Scalar { bits: ieee::divide(self.bits, rhs.bits) }
    }

    #[verifier::opaque]
    pub open spec fn spec_sqrt(self) -> Scalar {
        num(ieee::root(self.bits()))
    }

    /// The square root.
    #[verifier::when_used_as_spec(spec_sqrt)]
    pub fn sqrt(self) -> (r: Scalar)
        ensures
            r == self.spec_sqrt(),
    {
        reveal(Scalar::spec_sqrt);
        Scalar { bits: ieee::square_root(self.bits) }
    }

    #[verifier::opaque]
    pub open spec fn spec_is_number(self) -> bool {
        !self.is_nan()
    }

    /// Whether this is a number.
    #[verifier::when_used_as_spec(spec_is_number)]
    pub fn is_number(self) -> (r: bool)
        ensures
            r == self.spec_is_number(),
    {
        reveal(Scalar::spec_is_number);
        ieee::magnitude_of(self.bits) <= INFINITE
    }

    #[verifier::opaque]
    pub open spec fn spec_is_finite(self) -> bool {
        ieee::is_finite(self.bits())
    }

    /// Whether this is neither infinite nor not a number.
    #[verifier::when_used_as_spec(spec_is_finite)]
    pub fn is_finite(self) -> (r: bool)
        ensures
            r == self.spec_is_finite(),
    {
        reveal(Scalar::spec_is_finite);
        ieee::magnitude_of(self.bits) < INFINITE
    }

    #[verifier::opaque]
    pub open spec fn spec_lt(self, rhs: Scalar) -> bool {
        !self.is_nan() && !rhs.is_nan() && self.rank() < rhs.rank()
    }

    /// Whether `self` is less than `rhs`.
    #[verifier::when_used_as_spec(spec_lt)]
    pub fn lt(self, rhs: Scalar) -> (r: bool)
        ensures
            r == self.spec_lt(rhs),
    {
        reveal(Scalar::spec_lt);
        let m: u32 = ieee::magnitude_of(self.bits);
        let n: u32 = ieee::magnitude_of(rhs.bits);
        if m > INFINITE || n > INFINITE {
            false
        } else if self.bits >= ieee::SIGN {
            if rhs.bits >= ieee::SIGN {
                n < m
            } else {
                m != 0 || n != 0
            }
        } else {
            rhs.bits < ieee::SIGN && m < n
        }
    }

    #[verifier::opaque]
    pub open spec fn spec_le(self, rhs: Scalar) -> bool {
        !self.is_nan() && !rhs.is_nan() && self.rank() <= rhs.rank()
    }

    /// Whether `self` is less than or equal to `rhs`.
    #[verifier::when_used_as_spec(spec_le)]
    pub fn le(self, rhs: Scalar) -> (r: bool)
        ensures
            r == self.spec_le(rhs),
    {
        reveal(Scalar::spec_le);
        reveal(Scalar::spec_lt);
        reveal(Scalar::spec_is_number);
        self.is_number() && rhs.is_number() && !rhs.lt(self)
    }

    #[verifier::opaque]
    pub open spec fn spec_same(self, rhs: Scalar) -> bool {
        !self.is_nan() && !rhs.is_nan() && self.rank() == rhs.rank()
    }

    /// Whether both are numbers and equal; the two zeros are.
    #[verifier::when_used_as_spec(spec_same)]
    pub fn same(self, rhs: Scalar) -> (r: bool)
        ensures
            r == self.spec_same(rhs),
    {
        reveal(Scalar::spec_same);
        reveal(Scalar::spec_le);
        self.le(rhs) && rhs.le(self)
    }

    #[verifier::opaque]
    pub open spec fn spec_min(self, rhs: Scalar) -> Scalar {
        if self.is_nan() || rhs.lt(self) {
            rhs
        } else {
            self
        }
    }

    /// The lesser of two; the other one where one is not a number.
    #[verifier::when_used_as_spec(spec_min)]
    pub fn min(self, rhs: Scalar) -> (r: Scalar)
        ensures
            r == self.spec_min(rhs),
    {
        reveal(Scalar::spec_min);
        reveal(Scalar::spec_is_number);
        if !self.is_number() || rhs.lt(self) {
            rhs
        } else {
            self
        }
    }

    #[verifier::opaque]
    pub open spec fn spec_max(self, rhs: Scalar) -> Scalar {
        if self.is_nan() || self.lt(rhs) {
            rhs
        } else {
            self
        }
    }

    /// The greater of two; the other one where one is not a number.
    #[verifier::when_used_as_spec(spec_max)]
    pub fn max(self, rhs: Scalar) -> (r: Scalar)
        ensures
            r == self.spec_max(rhs),
    {
        reveal(Scalar::spec_max);
        reveal(Scalar::spec_is_number);
        if !self.is_number() || self.lt(rhs) {
            rhs
        } else {
            self
        }
    }

    #[verifier::opaque]
    pub open spec fn spec_abs(self) -> Scalar {
        num(ieee::magnitude(self.bits()) as u32)
    }

    /// The absolute value.
    #[verifier::when_used_as_spec(spec_abs)]
    pub fn abs(self) -> (r: Scalar)
        ensures
            r == self.spec_abs(),
    {
        reveal(Scalar::spec_abs);
        Scalar { bits: ieee::magnitude_of(self.bits) }
    }

    #[verifier::opaque]
    pub open spec fn spec_signum(self) -> Scalar {
        if self.is_nan() {
            num(ieee::NAN)
        } else if ieee::is_negative(self.bits()) {
            num(MINUS_ONE)
        } else {
            num(ONE)
        }
    }

    /// One with the sign of the number.
    #[verifier::when_used_as_spec(spec_signum)]
    pub fn signum(self) -> (r: Scalar)
        ensures
            r == self.spec_signum(),
    {
        reveal(Scalar::spec_signum);
        reveal(Scalar::spec_is_number);
        if !self.is_number() {
            num(ieee::NAN)
        } else if self.bits >= ieee::SIGN {
            num(MINUS_ONE)
        } else {
            num(ONE)
        }
    }

    #[verifier::opaque]
    pub open spec fn spec_clamp(self, low: Scalar, high: Scalar) -> Scalar {
        if self.lt(low) {
            low
        } else if high.lt(self) {
            high
        } else {
            self
        }
    }

    /// The number moved into the range from `low` to `high`.
    #[verifier::when_used_as_spec(spec_clamp)]
    pub fn clamp(self, low: Scalar, high: Scalar) -> (r: Scalar)
        ensures
            r == self.spec_clamp(low, high),
    {
        reveal(Scalar::spec_clamp);
        if self.lt(low) {
            low
        } else if high.lt(self) {
            high
        } else {
            self
        }
    }
}

impl std::ops::Add<Scalar> for Scalar {
    type Output = Scalar;

    fn add(self, rhs: Scalar) -> (r: Scalar) {
        reveal(Scalar::spec_add);
        Scalar { bits: ieee::total(self.bits, rhs.bits) }
    }
}

impl vstd::std_specs::ops::AddSpecImpl<Scalar> for Scalar {
    open spec fn obeys_add_spec() -> bool {
        true
    }

    open spec fn add_req(self, rhs: Scalar) -> bool {
        true
    }

    open spec fn add_spec(self, rhs: Scalar) -> Scalar {
        self.spec_add(rhs)
    }
}

impl std::ops::Sub<Scalar> for Scalar {
    type Output = Scalar;

    fn sub(self, rhs: Scalar) -> (r: Scalar) {
        reveal(Scalar::spec_sub);
        Scalar { bits: ieee::total(self.bits, rhs.negated().bits) }
    }
}

impl vstd::std_specs::ops::SubSpecImpl<Scalar> for Scalar {
    open spec fn obeys_sub_spec() -> bool {
        true
    }

    open spec fn sub_req(self, rhs: Scalar) -> bool {
        true
    }

    open spec fn sub_spec(self, rhs: Scalar) -> Scalar {
        self.spec_sub(rhs)
    }
}

impl std::ops::Mul<Scalar> for Scalar {
    type Output = Scalar;

    fn mul(self, rhs: Scalar) -> (r: Scalar) {
        reveal(Scalar::spec_mul);
        Scalar { bits: ieee::multiply(self.bits, rhs.bits) }
    }
}

impl vstd::std_specs::ops::MulSpecImpl<Scalar> for Scalar {
    open spec fn obeys_mul_spec() -> bool {
        true
    }

    open spec fn mul_req(self, rhs: Scalar) -> bool {
        true
    }

    open spec fn mul_spec(self, rhs: Scalar) -> Scalar {
        self.spec_mul(rhs)
    }
}

} // verus!
