//! Light sources.

use vstd::prelude::*;
use crate::colour::Colour;
use crate::tuple::Tuple;

verus! {

/// A light without size: it shines from one point, in one colour.
#[derive(Clone, Copy, Debug)]
pub struct PointLight {
    pub colour: Colour,
    pub position: Tuple,
}

impl PointLight {
    /// Colour and position are equal as numbers.
    pub open spec fn same(self, other: PointLight) -> bool {
        self.colour.same(other.colour) && self.position.same(other.position)
    }

    pub fn new(colour: Colour, position: Tuple) -> (r: Self)
        ensures
            r == (PointLight { colour, position }),
    {
        PointLight { colour, position }
    }
}

impl PartialEq for PointLight {
    fn eq(&self, other: &PointLight) -> (r: bool) {
        self.colour == other.colour && self.position == other.position
    }
}

impl vstd::std_specs::cmp::PartialEqSpecImpl for PointLight {
    open spec fn obeys_eq_spec() -> bool {
        true
    }

    open spec fn eq_spec(&self, other: &PointLight) -> bool {
        self.same(*other)
    }
}

} // verus!
