//! Points and directions in homogeneous coordinates.

use vstd::prelude::*;
use crate::scalar::Scalar;

verus! {

/// Four coordinates. `w` = 1 marks a point, `w` = 0 a direction.
#[derive(Clone, Copy, Debug)]
pub struct Tuple {
    pub x: Scalar,
    pub y: Scalar,
    pub z: Scalar,
    pub w: Scalar,
}

impl Tuple {
    /// `w` is 1.
    pub open spec fn point_like(self) -> bool {
        self.w.equals(Scalar::one_value())
    }

    /// `w` is a zero, of either sign.
    pub open spec fn vector_like(self) -> bool {
        self.w.equals(Scalar::zero_value())
    }

    /// Coordinate by coordinate, the two are equal as numbers.
    pub open spec fn same(self, other: Tuple) -> bool {
        &&& self.x.equals(other.x)
        &&& self.y.equals(other.y)
        &&& self.z.equals(other.z)
        &&& self.w.equals(other.w)
    }

    /// Every coordinate with the other sign.
    pub open spec fn negated(self) -> Tuple {
        Tuple {
            x: self.x.negated(),
            y: self.y.negated(),
            z: self.z.negated(),
            w: self.w.negated(),
        }
    }

    pub fn new(x: Scalar, y: Scalar, z: Scalar, w: Scalar) -> (r: Self)
        ensures
            r == (Tuple { x, y, z, w }),
    {
        Tuple { x, y, z, w }
    }

    pub fn is_point(&self) -> (r: bool)
        ensures
            r == self.point_like(),
    {
        self.w == Scalar::one()
    }

    pub fn is_vector(&self) -> (r: bool)
        ensures
            r == self.vector_like(),
    {
        self.w == Scalar::zero()
    }

    /// The same three coordinates as a direction.
    pub fn to_vector(&self) -> (r: Tuple)
        ensures
            r == (Tuple { w: Scalar::zero_value(), ..*self }),
            r.vector_like(),
    {
        Tuple { x: self.x, y: self.y, z: self.z, w: Scalar::zero() }
    }

    /// The same three coordinates as a point.
    pub fn to_point(&self) -> (r: Tuple)
        ensures
            r == (Tuple { w: Scalar::one_value(), ..*self }),
            r.point_like(),
    {
        Tuple { x: self.x, y: self.y, z: self.z, w: Scalar::one() }
    }

    /// `-self`. The opposite of a direction is a direction.
    pub fn neg(&self) -> (r: Tuple)
        ensures
            r == self.negated(),
            self.vector_like() ==> r.vector_like(),
    {
        Tuple { x: self.x.neg(), y: self.y.neg(), z: self.z.neg(), w: self.w.neg() }
    }
}

impl PartialEq for Tuple {
    fn eq(&self, other: &Tuple) -> (r: bool) {
        self.x == other.x && self.y == other.y && self.z == other.z && self.w == other.w
    }
}

impl vstd::std_specs::cmp::PartialEqSpecImpl for Tuple {
    open spec fn obeys_eq_spec() -> bool {
        true
    }

    open spec fn eq_spec(&self, other: &Tuple) -> bool {
        self.same(*other)
    }
}

/// The point (x, y, z).
pub fn point(x: Scalar, y: Scalar, z: Scalar) -> (r: Tuple)
    ensures
        r == (Tuple { x, y, z, w: Scalar::one_value() }),
        r.point_like(),
{
    Tuple { x, y, z, w: Scalar::one() }
}

/// The direction (x, y, z).
pub fn vector(x: Scalar, y: Scalar, z: Scalar) -> (r: Tuple)
    ensures
        r == (Tuple { x, y, z, w: Scalar::zero_value() }),
        r.vector_like(),
{
    Tuple { x, y, z, w: Scalar::zero() }
}

/// Whether two numbers are equal within the tolerance: whether their
/// difference, formed and rounded as the hardware does, is below 1.0e-5 in
/// size.
pub fn float_equal(a: Scalar, b: Scalar) -> (r: bool)
    ensures
        r == a.within_tolerance(b),
{
    a.near(&b)
}

} // verus!
