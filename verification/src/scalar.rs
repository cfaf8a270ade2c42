//! Binary64 numbers by their bit pattern: classification, order, sign.

use vstd::prelude::*;

verus! {

/// The sign bit of a binary64 pattern.
pub const SIGN_BIT: u64 = 0x8000_0000_0000_0000;

/// The pattern of positive infinity; every larger magnitude is a NaN.
pub const INFINITY_BITS: u64 = 0x7FF0_0000_0000_0000;

/// The pattern of 1.0.
pub const ONE_BITS: u64 = 0x3FF0_0000_0000_0000;

/// The pattern of the tolerance 1.0e-5.
pub const EPSILON_BITS: u64 = 0x3EE4_F8B5_88E3_68F1;

/// A binary64 number, held by its bit pattern: one sign bit, eleven exponent
/// bits, fifty-two fraction bits.
#[derive(Clone, Copy, Debug)]
pub struct Scalar {
    pub bits: u64,
}

impl Scalar {
    /// The pattern without its sign bit.
    pub open spec fn magnitude(self) -> u64 {
        if self.bits >= SIGN_BIT {
            (self.bits - SIGN_BIT) as u64
        } else {
            self.bits
        }
    }

    /// The sign bit is set (also on a negative zero or a NaN).
    pub open spec fn sign_negative(self) -> bool {
        self.bits >= SIGN_BIT
    }

    /// Not a number: the exponent bits are all set and the fraction is not zero.
    pub open spec fn nan(self) -> bool {
        self.magnitude() > INFINITY_BITS
    }

    /// Neither an infinity nor a NaN.
    pub open spec fn finite(self) -> bool {
        self.magnitude() < INFINITY_BITS
    }

    /// The place of the number on the number line, as an integer that grows
    /// with the number. Both zeros have rank 0. It orders numbers only: a NaN
    /// has a rank that means nothing.
    pub open spec fn rank(self) -> int {
        if self.sign_negative() {
            -(self.magnitude() as int)
        } else {
            self.magnitude() as int
        }
    }

    /// `self == other` as numbers: neither is a NaN and they lie at one place.
    pub open spec fn equals(self, other: Scalar) -> bool {
        !self.nan() && !other.nan() && self.rank() == other.rank()
    }

    /// `self < other` as numbers; false when either is a NaN.
    pub open spec fn less_than(self, other: Scalar) -> bool {
        !self.nan() && !other.nan() && self.rank() < other.rank()
    }

    /// `self <= other` as numbers; false when either is a NaN.
    pub open spec fn at_most(self, other: Scalar) -> bool {
        !self.nan() && !other.nan() && self.rank() <= other.rank()
    }

    /// The number with the other sign: the same pattern but for the sign bit.
    pub open spec fn negated(self) -> Scalar {
        if self.bits >= SIGN_BIT {
            Scalar { bits: (self.bits - SIGN_BIT) as u64 }
        } else {
            Scalar { bits: (self.bits + SIGN_BIT) as u64 }
        }
    }

    /// Positive zero.
    pub open spec fn zero_value() -> Scalar {
        Scalar { bits: 0 }
    }

    /// 1.0.
    pub open spec fn one_value() -> Scalar {
        Scalar { bits: ONE_BITS }
    }

    /// The tolerance, 1.0e-5.
    pub open spec fn epsilon_value() -> Scalar {
        Scalar { bits: EPSILON_BITS }
    }

    pub fn from_bits(bits: u64) -> (r: Scalar)
        ensures
            r.bits == bits,
    {
        Scalar { bits }
    }

    pub fn to_bits(&self) -> (r: u64)
        ensures
            r == self.bits,
    {
        self.bits
    }

    pub fn zero() -> (r: Scalar)
        ensures
            r == Scalar::zero_value(),
    {
        Scalar { bits: 0 }
    }

    pub fn one() -> (r: Scalar)
        ensures
            r == Scalar::one_value(),
    {
        Scalar { bits: ONE_BITS }
    }

    pub fn epsilon() -> (r: Scalar)
        ensures
            r == Scalar::epsilon_value(),
    {
        Scalar { bits: EPSILON_BITS }
    }

    /// The pattern without its sign bit, and whether the sign bit was set.
    pub fn parts(&self) -> (r: (u64, bool))
        ensures
            r.0 == self.magnitude(),
            r.1 == self.sign_negative(),
    {
        if self.bits >= SIGN_BIT {
            (self.bits - SIGN_BIT, true)
        } else {
            (self.bits, false)
        }
    }

    pub fn is_nan(&self) -> (r: bool)
        ensures
            r == self.nan(),
    {
        self.parts().0 > INFINITY_BITS
    }

    pub fn is_finite(&self) -> (r: bool)
        ensures
            r == self.finite(),
    {
        self.parts().0 < INFINITY_BITS
    }

    pub fn is_sign_negative(&self) -> (r: bool)
        ensures
            r == self.sign_negative(),
    {
        self.bits >= SIGN_BIT
    }

    /// `self < other`, as the hardware compares the two numbers.
    pub fn lt(&self, other: &Scalar) -> (r: bool)
        ensures
            r == self.less_than(*other),
    {
        let (a, a_neg) = self.parts();
        let (b, b_neg) = other.parts();
        if a > INFINITY_BITS || b > INFINITY_BITS {
            false
        } else if a_neg {
            if b_neg {
                b < a
            } else {
                a > 0 || b > 0
            }
        } else {
            !b_neg && a < b
        }
    }

    /// `self <= other`, as the hardware compares the two numbers.
    pub fn le(&self, other: &Scalar) -> (r: bool)
        ensures
            r == self.at_most(*other),
    {
        let (a, a_neg) = self.parts();
        let (b, b_neg) = other.parts();
        if a > INFINITY_BITS || b > INFINITY_BITS {
            false
        } else if a_neg {
            !b_neg || b <= a
        } else if b_neg {
            a == 0 && b == 0
        } else {
            a <= b
        }
    }

    /// `self > other`, as the hardware compares the two numbers.
    pub fn gt(&self, other: &Scalar) -> (r: bool)
        ensures
            r == other.less_than(*self),
    {
        other.lt(self)
    }

    /// `self >= other`, as the hardware compares the two numbers.
    pub fn ge(&self, other: &Scalar) -> (r: bool)
        ensures
            r == other.at_most(*self),
    {
        other.le(self)
    }

    /// `-self`: the sign bit is turned over, whatever the number is.
    pub fn neg(&self) -> (r: Scalar)
        ensures
            r == self.negated(),
            r.magnitude() == self.magnitude(),
            r.sign_negative() == !self.sign_negative(),
            r.rank() == -self.rank(),
    {
        if self.bits >= SIGN_BIT {
            Scalar { bits: self.bits - SIGN_BIT }
        } else {
            Scalar { bits: self.bits + SIGN_BIT }
        }
    }

    /// `|self|`: the sign bit is cleared.
    pub fn abs(&self) -> (r: Scalar)
        ensures
            r.bits == self.magnitude(),
            !r.sign_negative(),
    {
        Scalar { bits: self.parts().0 }
    }
}

impl PartialEq for Scalar {
    /// `self == other`, as the hardware compares the two numbers: the two
    /// zeros are equal, and a NaN equals nothing.
    fn eq(&self, other: &Scalar) -> (r: bool) {
        let (a, a_neg) = self.parts();
        let (b, b_neg) = other.parts();
        a <= INFINITY_BITS && a == b && (a == 0 || a_neg == b_neg)
    }
}

impl vstd::std_specs::cmp::PartialEqSpecImpl for Scalar {
    open spec fn obeys_eq_spec() -> bool {
        true
    }

    open spec fn eq_spec(&self, other: &Scalar) -> bool {
        self.equals(*other)
    }
}

/// Among numbers, `less_than` is a strict total order up to `equals`, and
/// `at_most` is what is not `less_than` the other way.
pub proof fn lemma_order_of_numbers(a: Scalar, b: Scalar, c: Scalar)
    requires
        !a.nan(),
        !b.nan(),
        !c.nan(),
    ensures
        a.less_than(b) || a.equals(b) || b.less_than(a),
        !(a.less_than(b) && b.less_than(a)),
        a.at_most(b) <==> !b.less_than(a),
        a.at_most(b) && b.at_most(c) ==> a.at_most(c),
        a.less_than(b) && b.at_most(c) ==> a.less_than(c),
        a.at_most(b) && b.less_than(c) ==> a.less_than(c),
        a.equals(a),
{
}

/// Negation turns the order over.
pub proof fn lemma_negation_reverses(a: Scalar, b: Scalar)
    ensures
        a.negated().negated() == a,
        a.negated().nan() == a.nan(),
        a.less_than(b) <==> b.negated().less_than(a.negated()),
        a.equals(b) <==> a.negated().equals(b.negated()),
{
}

} // verus!
