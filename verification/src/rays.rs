//! Rays: where a line of sight starts and which way it goes.

use vstd::prelude::*;
use crate::tuple::Tuple;

verus! {

/// A half-line: a point and a direction.
#[derive(Clone, Copy, Debug)]
pub struct Ray {
    pub origin: Tuple,
    pub direction: Tuple,
}

impl Ray {
    /// The origin is a point and the direction is a direction.
    pub open spec fn well_formed(self) -> bool {
        self.origin.point_like() && self.direction.vector_like()
    }

    /// Origin and direction are equal as numbers, coordinate by coordinate.
    pub open spec fn same(self, other: Ray) -> bool {
        self.origin.same(other.origin) && self.direction.same(other.direction)
    }

    /// The ray from `origin` along `direction`. A ray cannot start at a
    /// direction nor run along a point.
    pub fn new(origin: Tuple, direction: Tuple) -> (r: Self)
        requires
            origin.point_like(),
            direction.vector_like(),
        ensures
            r == (Ray { origin, direction }),
            r.well_formed(),
    {
        Ray { origin, direction }
    }

    /// Whether `new` accepts the two.
    pub fn accepts(origin: &Tuple, direction: &Tuple) -> (r: bool)
        ensures
            r == (origin.point_like() && direction.vector_like()),
    {
        origin.is_point() && direction.is_vector()
    }
}

impl PartialEq for Ray {
    fn eq(&self, other: &Ray) -> (r: bool) {
        self.origin == other.origin && self.direction == other.direction
    }
}

impl vstd::std_specs::cmp::PartialEqSpecImpl for Ray {
    open spec fn obeys_eq_spec() -> bool {
        true
    }

    open spec fn eq_spec(&self, other: &Ray) -> bool {
        self.same(*other)
    }
}

} // verus!
