//! What is known of a hit before it is shaded.

use vstd::prelude::*;
use crate::primitives::Object;
use crate::scalar::Scalar;
use crate::tuple::Tuple;

verus! {

/// What the arithmetic gave for the place where a ray meets a surface. The
/// normal is that of the surface, whichever side the ray comes from.
#[derive(Clone, Copy, Debug)]
pub struct Surface {
    /// The place of the hit.
    pub pos: Tuple,
    /// The normal of the surface there.
    pub normal: Tuple,
    /// The dot product of the normal with the direction to the eye.
    pub facing: Scalar,
    /// The place moved along the normal by the tolerance.
    pub over_pos: Tuple,
    /// The place moved against the normal by the tolerance.
    pub under_pos: Tuple,
    /// The direction of the ray, mirrored at the surface.
    pub reflect_vec: Tuple,
}

/// A hit, prepared for shading.
#[derive(Clone, Copy, Debug)]
pub struct PreCompData {
    pub t: Scalar,
    pub object: Object,
    pub pos: Tuple,
    /// The place moved off the surface towards the eye: shadow rays and
    /// mirrored rays start here, clear of the surface itself.
    pub over_pos: Tuple,
    /// The place moved off the surface away from the eye: refracted rays
    /// start here, inside what they pass through.
    pub under_pos: Tuple,
    pub eye_vec: Tuple,
    /// The index of refraction of what the ray leaves.
    pub n1: Scalar,
    /// The index of refraction of what the ray enters.
    pub n2: Scalar,
    /// The normal on the side of the eye.
    pub normal_vec: Tuple,
    pub reflect_vec: Tuple,
    /// Whether the eye is inside the object.
    pub inside: bool,
}

impl PreCompData {
    /// The ray leaves the denser medium at an angle too flat to get out:
    /// all light is mirrored. `sin2_t` is the square of the sine of the
    /// angle of refraction, by Snell's law.
    pub open spec fn total_reflection(self, sin2_t: Scalar) -> bool {
        self.n2.less_than(self.n1) && Scalar::one_value().less_than(sin2_t)
    }

    pub fn new(
        t: Scalar,
        object: Object,
        pos: Tuple,
        over_pos: Tuple,
        under_pos: Tuple,
        eye_vec: Tuple,
        n1: Scalar,
        n2: Scalar,
        normal_vec: Tuple,
        reflect_vec: Tuple,
        inside: bool,
    ) -> (c: Self)
        ensures
            c == (PreCompData {
                t,
                object,
                pos,
                over_pos,
                under_pos,
                eye_vec,
                n1,
                n2,
                normal_vec,
                reflect_vec,
                inside,
            }),
    {
        PreCompData {
            t,
            object,
            pos,
            over_pos,
            under_pos,
            eye_vec,
            n1,
            n2,
            normal_vec,
            reflect_vec,
            inside,
        }
    }

    /// Whether the ray passes into a thinner medium, so that the angle of
    /// refraction, not that of incidence, decides how much is mirrored.
    pub fn leaves_denser(&self) -> (r: bool)
        ensures
            r == self.n2.less_than(self.n1),
    {
        self.n1.gt(&self.n2)
    }

    /// The share of the light that the surface mirrors, by Schlick's
    /// approximation: all of it under total reflection, else `reflectance`,
    /// which is what the approximation's polynomial gave for the angle.
    pub fn schlick(&self, sin2_t: Scalar, reflectance: Scalar) -> (r: Scalar)
        ensures
            r == if self.total_reflection(sin2_t) {
                Scalar::one_value()
            } else {
                reflectance
            },
    {
        if self.n1.gt(&self.n2) && sin2_t.gt(&Scalar::one()) {
            Scalar::one()
        } else {
            reflectance
        }
    }
}

} // verus!
