//! Materials: how a surface answers light.

use vstd::prelude::*;
use crate::colour::Colour;
use crate::patterns::{Pattern, Patterns, SolidPattern};
use crate::scalar::{Scalar, ONE_BITS};

verus! {

/// The pattern of 0.1, as a binary32 number widened to binary64: the share
/// of ambient light of a material made by default.
pub const DEFAULT_AMBIENT_BITS: u64 = 0x3FB9_9999_A000_0000;

/// The pattern of 0.9, as a binary32 number widened to binary64: the diffuse
/// and the specular share of a material made by default.
pub const DEFAULT_SHARE_BITS: u64 = 0x3FEC_CCCC_C000_0000;

/// The pattern of 200.0: the shininess of a material made by default.
pub const DEFAULT_SMOOTHNESS_BITS: u64 = 0x4069_0000_0000_0000;

/// The pattern of 255.0: the shininess of the material that answers no light.
pub const NULL_SMOOTHNESS_BITS: u64 = 0x406F_E000_0000_0000;

/// What a surface is made of. The shares and indices are binary32 numbers,
/// held widened.
#[derive(Clone, Copy, Debug)]
pub struct Material {
    pub ambient: Scalar,
    pub diffuse: Scalar,
    pub specular: Scalar,
    pub smoothness: Scalar,
    pub reflectivity: Scalar,
    pub transparency: Scalar,
    pub ior: Scalar,
    pub pattern: Pattern,
}

/// The three parts of the light that leaves a surface towards the eye. Their
/// sum is the colour of the surface.
#[derive(Clone, Copy, Debug)]
pub struct Lighting {
    pub ambient: Colour,
    pub diffuse: Colour,
    pub specular: Colour,
}

impl Material {
    /// Every share and index is equal as a number, and the patterns are the same.
    pub open spec fn same(self, other: Material) -> bool {
        &&& self.ambient.equals(other.ambient)
        &&& self.diffuse.equals(other.diffuse)
        &&& self.specular.equals(other.specular)
        &&& self.smoothness.equals(other.smoothness)
        &&& self.reflectivity.equals(other.reflectivity)
        &&& self.transparency.equals(other.transparency)
        &&& self.ior.equals(other.ior)
        &&& self.pattern.same(other.pattern)
    }

    /// The material that a shape has unless it is given another: matt white,
    /// opaque, not reflecting.
    pub open spec fn default_value() -> Material {
        Material {
            ambient: Scalar { bits: DEFAULT_AMBIENT_BITS },
            diffuse: Scalar { bits: DEFAULT_SHARE_BITS },
            specular: Scalar { bits: DEFAULT_SHARE_BITS },
            smoothness: Scalar { bits: DEFAULT_SMOOTHNESS_BITS },
            reflectivity: Scalar { bits: 0 },
            transparency: Scalar { bits: 0 },
            ior: Scalar { bits: ONE_BITS },
            pattern: Pattern::plain(Patterns::Solid(SolidPattern { colour: Colour::white_value() })),
        }
    }

    /// The light reaches the surface from its front: the cosine of the
    /// angle between the way to the light and the normal is not below zero.
    pub open spec fn lit(light_dot_normal: Scalar) -> bool {
        !light_dot_normal.less_than(Scalar::zero_value())
    }

    /// The mirrored light runs towards the eye: the cosine of the angle
    /// between the two is above zero.
    pub open spec fn glints(reflect_dot_eye: Scalar) -> bool {
        !reflect_dot_eye.at_most(Scalar::zero_value())
    }

    pub fn new(
        ambient: Scalar,
        diffuse: Scalar,
        specular: Scalar,
        smoothness: Scalar,
        reflectivity: Scalar,
        transparency: Scalar,
        ior: Scalar,
        pattern: Pattern,
    ) -> (m: Self)
        ensures
            m == (Material {
                ambient,
                diffuse,
                specular,
                smoothness,
                reflectivity,
                transparency,
                ior,
                pattern,
            }),
    {
        Material {
            ambient,
            diffuse,
            specular,
            smoothness,
            reflectivity,
            transparency,
            ior,
            pattern,
        }
    }

    /// The material that answers no light at all, to build others from.
    pub fn null() -> (m: Self)
        ensures
            m == (Material {
                ambient: Scalar { bits: 0 },
                diffuse: Scalar { bits: 0 },
                specular: Scalar { bits: 0 },
                smoothness: Scalar { bits: NULL_SMOOTHNESS_BITS },
                ..Material::default_value()
            }),
    {
        Material {
            ambient: Scalar::zero(),
            diffuse: Scalar::zero(),
            specular: Scalar::zero(),
            smoothness: Scalar::from_bits(NULL_SMOOTHNESS_BITS),
            reflectivity: Scalar::zero(),
            transparency: Scalar::zero(),
            ior: Scalar::one(),
            pattern: Pattern::new_solid(Colour::white()),
        }
    }

    pub fn with_ambient(self, ambient: Scalar) -> (m: Self)
        ensures
            m == (Material { ambient, ..self }),
    {
        Material { ambient, ..self }
    }

    /// The material in one solid colour, not moved.
    pub fn with_colour(self, colour: Colour) -> (m: Self)
        ensures
            m == (Material {
                pattern: Pattern::plain(Patterns::Solid(SolidPattern { colour })),
                ..self
            }),
    {
        Material { pattern: Pattern::new_solid(colour), ..self }
    }

    pub fn with_diffuse(self, diffuse: Scalar) -> (m: Self)
        ensures
            m == (Material { diffuse, ..self }),
    {
        Material { diffuse, ..self }
    }

    /// Sets the index of refraction.
    pub fn with_ior(self, ior: Scalar) -> (m: Self)
        ensures
            m == (Material { ior, ..self }),
    {
        Material { ior, ..self }
    }

    pub fn with_pattern(self, pattern: Pattern) -> (m: Self)
        ensures
            m == (Material { pattern, ..self }),
    {
        Material { pattern, ..self }
    }

    pub fn with_reflectivity(self, reflectivity: Scalar) -> (m: Self)
        ensures
            m == (Material { reflectivity, ..self }),
    {
        Material { reflectivity, ..self }
    }

    /// Sets the shininess.
    pub fn with_smoothness(self, smoothness: Scalar) -> (m: Self)
        ensures
            m == (Material { smoothness, ..self }),
    {
        Material { smoothness, ..self }
    }

    pub fn with_specular(self, specular: Scalar) -> (m: Self)
        ensures
            m == (Material { specular, ..self }),
    {
        Material { specular, ..self }
    }

    pub fn with_transparency(self, transparency: Scalar) -> (m: Self)
        ensures
            m == (Material { transparency, ..self }),
    {
        Material { transparency, ..self }
    }

    /// Which of the three parts of the light count at a point.
    ///
    /// `ambient`, `diffuse` and `specular` are the parts as the arithmetic
    /// gave them for a surface in full light. Ambient light is never
    /// shadowed. The two others are black in shadow and where the light is
    /// behind the surface; the specular part is black, too, where the
    /// mirrored light runs away from the eye.
    pub fn lighting(
        &self,
        ambient: Colour,
        diffuse: Colour,
        specular: Colour,
        light_dot_normal: Scalar,
        reflect_dot_eye: Scalar,
        shadow: bool,
    ) -> (r: Lighting)
        ensures
            r.ambient == ambient,
            r.diffuse == if !shadow && Material::lit(light_dot_normal) {
                diffuse
            } else {
                Colour::black_value()
            },
            r.specular == if !shadow && Material::lit(light_dot_normal) && Material::glints(
                reflect_dot_eye,
            ) {
                specular
            } else {
                Colour::black_value()
            },
    {
        let zero = Scalar::zero();
        if shadow || light_dot_normal.lt(&zero) {
            Lighting { ambient, diffuse: Colour::black(), specular: Colour::black() }
        } else if reflect_dot_eye.le(&zero) {
            Lighting { ambient, diffuse, specular: Colour::black() }
        } else {
            Lighting { ambient, diffuse, specular }
        }
    }
}

impl Default for Material {
    fn default() -> (m: Self)
        ensures
            m == Material::default_value(),
    {
        Material {
            ambient: Scalar::from_bits(DEFAULT_AMBIENT_BITS),
            diffuse: Scalar::from_bits(DEFAULT_SHARE_BITS),
            specular: Scalar::from_bits(DEFAULT_SHARE_BITS),
            smoothness: Scalar::from_bits(DEFAULT_SMOOTHNESS_BITS),
            reflectivity: Scalar::zero(),
            transparency: Scalar::zero(),
            ior: Scalar::one(),
            pattern: Pattern::new_solid(Colour::white()),
        }
    }
}

impl PartialEq for Material {
    fn eq(&self, other: &Material) -> (r: bool) {
        self.ambient == other.ambient && self.diffuse == other.diffuse && self.specular
            == other.specular && self.smoothness == other.smoothness && self.reflectivity
            == other.reflectivity && self.transparency == other.transparency && self.ior
            == other.ior && self.pattern == other.pattern
    }
}

impl vstd::std_specs::cmp::PartialEqSpecImpl for Material {
    open spec fn obeys_eq_spec() -> bool {
        true
    }

    open spec fn eq_spec(&self, other: &Material) -> bool {
        self.same(*other)
    }
}

} // verus!
