//! The shapes, and the objects made of them.
//!
//! A shape lies in a space of its own: a sphere of radius 1 about the origin,
//! the plane y = 0. An object places a shape in the scene by a transform and
//! gives it a material. Where a ray meets a shape is found by arithmetic on
//! the ray in the shape's space; what the arithmetic gave comes in as `Roots`.

use vstd::prelude::*;
use crate::intersections::{Intersection, Intersections};
use crate::materials::Material;
use crate::matrix::Matrix4;
use crate::rays::Ray;
use crate::scalar::{Scalar, ONE_BITS};
use crate::tuple::{point, vector, Tuple};

verus! {

/// The pattern of 1.5, the index of refraction of glass.
pub const GLASS_IOR_BITS: u64 = 0x3FF8_0000_0000_0000;

/// The plane y = 0: boundless, with the same normal everywhere.
#[derive(Clone, Copy, Debug)]
pub struct Plane;

/// The sphere of radius 1 about the origin.
#[derive(Clone, Copy, Debug)]
pub struct Sphere;

/// A shape that no ray meets. It keeps the ray that it was last asked with,
/// as the ray is in the shape's own space.
#[derive(Clone, Copy, Debug)]
pub struct TestShape {
    pub saved_ray: Ray,
}

/// The kinds of shape.
#[derive(Clone, Copy, Debug)]
pub enum Primitive {
    Plane(),
    Sphere(),
    TestShape(TestShape),
}

/// A shape in the scene.
#[derive(Clone, Copy, Debug)]
pub struct Object {
    pub shape: Primitive,
    pub material: Material,
    pub transform: Matrix4,
    pub inverse_transform: Matrix4,
    /// Whether the object casts a shadow.
    pub umbra: bool,
    /// Whether a pattern is laid on the object through the shape's own map.
    pub uv_manifold: bool,
}

/// What the arithmetic gave for a ray and a shape, in the shape's space.
#[derive(Clone, Copy, Debug)]
pub enum Roots {
    /// For the plane: the y of the ray's direction, and minus the y of its
    /// origin divided by that.
    Plane { slope: Scalar, t: Scalar },
    /// For the sphere: the discriminant of the quadratic, and its two roots,
    /// the one with the minus sign first.
    Sphere { discriminant: Scalar, near: Scalar, far: Scalar },
    /// For a shape that has no equation.
    Nothing,
}

impl Plane {
    /// The ray runs along the plane, or nearly so: the y of its direction
    /// is below the tolerance in size.
    pub open spec fn parallel(slope: Scalar) -> bool {
        (Scalar { bits: slope.magnitude() }).less_than(Scalar::epsilon_value())
    }

    pub fn new() -> (r: Self)
        ensures
            r == Plane,
    {
        Plane {  }
    }

    /// Where a ray crosses the plane: nowhere if it runs along it, else at `t`.
    pub fn intersect(slope: Scalar, t: Scalar, object: &Object) -> (xs: Intersections)
        ensures
            xs.intrsc@ == if Plane::parallel(slope) {
                Seq::<Intersection>::empty()
            } else {
                seq![Intersection { t, object: *object }]
            },
    {
        if slope.abs().lt(&Scalar::epsilon()) {
            Intersections::default()
        } else {
            let mut hits: Vec<Intersection> = Vec::new();
            hits.push(Intersection::new(t, *object));
            proof {
                crate::intersections::lemma_arranged_one(Intersection { t, object: *object }, false);
            }
            Intersections::new(hits)
        }
    }

    /// The normal of the plane, in its own space: up, wherever it is asked.
    pub fn normal_at(_object_point: Tuple, _object: &Object) -> (n: Tuple)
        ensures
            n == (Tuple {
                x: Scalar::zero_value(),
                y: Scalar::one_value(),
                z: Scalar::zero_value(),
                w: Scalar::zero_value(),
            }),
    {
        vector(Scalar::zero(), Scalar::one(), Scalar::zero())
    }
}

impl Sphere {
    /// The ray passes the sphere by: the discriminant is below zero.
    pub open spec fn missed(discriminant: Scalar) -> bool {
        discriminant.less_than(Scalar::zero_value())
    }

    pub fn new() -> (r: Self)
        ensures
            r == Sphere,
    {
        Sphere {  }
    }

    /// Where a ray crosses the sphere: nowhere if it passes by, else at the
    /// two roots (one root twice, where it touches).
    pub fn intersect(discriminant: Scalar, near: Scalar, far: Scalar, object: &Object) -> (xs:
        Intersections)
        ensures
            xs.intrsc@ == if Sphere::missed(discriminant) {
                Seq::<Intersection>::empty()
            } else {
                crate::intersections::arranged(
                    seq![
                        Intersection { t: near, object: *object },
                        Intersection { t: far, object: *object },
                    ],
                    false,
                )
            },
    {
        if discriminant.lt(&Scalar::zero()) {
            Intersections::default()
        } else {
            let mut hits: Vec<Intersection> = Vec::new();
            hits.push(Intersection::new(near, *object));
            hits.push(Intersection::new(far, *object));
            assert(hits@ =~= seq![
                Intersection { t: near, object: *object },
                Intersection { t: far, object: *object },
            ]);
            Intersections::new(hits)
        }
    }
}

impl TestShape {
    /// The test shape that was asked with no ray yet: it keeps the ray from
    /// the origin along z.
    pub open spec fn fresh() -> TestShape {
        let o = Scalar::zero_value();
        let i = Scalar::one_value();
        TestShape {
            saved_ray: Ray {
                origin: Tuple { x: o, y: o, z: o, w: i },
                direction: Tuple { x: o, y: o, z: i, w: o },
            },
        }
    }

    pub fn new() -> (r: Self)
        ensures
            r == TestShape::fresh(),
    {
        let o = Scalar::zero();
        TestShape { saved_ray: Ray::new(point(o, o, o), vector(o, o, Scalar::one())) }
    }

    /// Keeps the ray, given in the shape's space, and reports no crossing.
    pub fn intersect(&mut self, local_ray: Ray, _object: &Object) -> (xs: Intersections)
        ensures
            final(self).saved_ray == local_ray,
            xs.intrsc@ == Seq::<Intersection>::empty(),
    {
        self.saved_ray = local_ray;
        Intersections::default()
    }

    /// The point itself, as the normal there.
    pub fn normal_at(&self, object_point: Tuple, _object: &Object) -> (n: Tuple)
        ensures
            n == (Tuple { w: Scalar::one_value(), ..object_point }),
    {
        point(object_point.x, object_point.y, object_point.z)
    }

    /// The shape's own map for patterns: every point stays where it is.
    pub fn uv_manifold(&self, pos: Tuple) -> (r: Tuple)
        ensures
            r == pos,
    {
        pos
    }
}

impl Primitive {
    /// The same kind of shape; two test shapes keep equal rays.
    pub open spec fn same(self, other: Primitive) -> bool {
        match (self, other) {
            (Primitive::Plane(), Primitive::Plane()) => true,
            (Primitive::Sphere(), Primitive::Sphere()) => true,
            (Primitive::TestShape(a), Primitive::TestShape(b)) => a.saved_ray.same(b.saved_ray),
            _ => false,
        }
    }

    fn matches(&self, other: &Primitive) -> (r: bool)
        ensures
            r == self.same(*other),
    {
        match (self, other) {
            (Primitive::Plane(), Primitive::Plane()) => true,
            (Primitive::Sphere(), Primitive::Sphere()) => true,
            (Primitive::TestShape(a), Primitive::TestShape(b)) => a.saved_ray == b.saved_ray,
            _ => false,
        }
    }
}

impl Object {
    /// The two objects are equal field by field, numbers compared as
    /// numbers. This is what "the same object" means wherever objects are
    /// told apart.
    pub open spec fn same(self, other: Object) -> bool {
        &&& self.shape.same(other.shape)
        &&& self.material.same(other.material)
        &&& self.transform.same(other.transform)
        &&& self.inverse_transform.same(other.inverse_transform)
        &&& self.umbra == other.umbra
        &&& self.uv_manifold == other.uv_manifold
    }

    /// The object of the given shape in the default material, not moved,
    /// casting a shadow.
    pub open spec fn plain(shape: Primitive) -> Object {
        Object {
            shape,
            material: Material::default_value(),
            transform: Matrix4::identity_value(),
            inverse_transform: Matrix4::identity_value(),
            umbra: true,
            uv_manifold: false,
        }
    }

    /// What the object's shape makes of the roots that the arithmetic gave.
    pub open spec fn crossings(self, roots: Roots) -> Seq<Intersection> {
        match (self.shape, roots) {
            (Primitive::Plane(), Roots::Plane { slope, t }) => if Plane::parallel(slope) {
                Seq::<Intersection>::empty()
            } else {
                seq![Intersection { t, object: self }]
            },
            (Primitive::Sphere(), Roots::Sphere { discriminant, near, far }) => if Sphere::missed(
                discriminant,
            ) {
                Seq::<Intersection>::empty()
            } else {
                crate::intersections::arranged(
                    seq![Intersection { t: near, object: self }, Intersection { t: far, object: self }],
                    false,
                )
            },
            _ => Seq::<Intersection>::empty(),
        }
    }

    fn of(shape: Primitive) -> (r: Self)
        ensures
            r == Object::plain(shape),
    {
        Object {
            shape,
            material: Material::default(),
            transform: Matrix4::identity(),
            inverse_transform: Matrix4::identity(),
            umbra: true,
            uv_manifold: false,
        }
    }

    /// A plane through the origin.
    pub fn new_plane() -> (r: Self)
        ensures
            r == Object::plain(Primitive::Plane()),
    {
        Object::of(Primitive::Plane())
    }

    /// A sphere of radius 1 about the origin.
    pub fn new_sphere() -> (r: Self)
        ensures
            r == Object::plain(Primitive::Sphere()),
    {
        Object::of(Primitive::Sphere())
    }

    /// A test shape at the origin.
    pub fn new_test_shape() -> (r: Self)
        ensures
            r == Object::plain(Primitive::TestShape(TestShape::fresh())),
    {
        Object::of(Primitive::TestShape(TestShape::new()))
    }

    /// A sphere of glass: fully transparent, with the index of refraction 1.5.
    pub fn glass_orb() -> (r: Self)
        ensures
            r == (Object {
                material: Material {
                    transparency: Scalar { bits: ONE_BITS },
                    ior: Scalar { bits: GLASS_IOR_BITS },
                    ..Material::default_value()
                },
                ..Object::plain(Primitive::Sphere())
            }),
    {
        let material = Material::default().with_transparency(Scalar::one()).with_ior(
            Scalar::from_bits(GLASS_IOR_BITS),
        );
        Object { material, ..Object::of(Primitive::Sphere()) }
    }

    /// The crossings of a ray with the object, each tagged with the object.
    /// The roots are those of the ray taken into the object's space. Roots
    /// for another kind of shape give no crossing.
    pub fn intersect(&self, roots: Roots) -> (xs: Intersections)
        ensures
            xs.intrsc@ == self.crossings(roots),
    {
        match (self.shape, roots) {
            (Primitive::Plane(), Roots::Plane { slope, t }) => Plane::intersect(slope, t, self),
            (Primitive::Sphere(), Roots::Sphere { discriminant, near, far }) => Sphere::intersect(
                discriminant,
                near,
                far,
                self,
            ),
            _ => Intersections::default(),
        }
    }

    /// Places the object by a transform. A transform is kept with its
    /// inverse: the two are set together. The object is changed, and given back.
    pub fn with_transform(&mut self, transform: Matrix4, inverse: Matrix4) -> (r: Self)
        ensures
            *final(self) == (Object { transform, inverse_transform: inverse, ..*old(self) }),
            r == *final(self),
    {
        self.transform = transform;
        self.inverse_transform = inverse;
        *self
    }

    /// Gives the object a material. The object is changed, and given back.
    pub fn with_material(&mut self, material: Material) -> (r: Self)
        ensures
            *final(self) == (Object { material, ..*old(self) }),
            r == *final(self),
    {
        self.material = material;
        *self
    }

    /// The object, casting no shadow.
    pub fn cast_no_shadow(self) -> (r: Self)
        ensures
            r == (Object { umbra: false, ..self }),
    {
        Object { umbra: false, ..self }
    }

    /// The object, wearing its pattern through the shape's own map.
    pub fn use_manifold(self) -> (r: Self)
        ensures
            r == (Object { uv_manifold: true, ..self }),
    {
        Object { uv_manifold: true, ..self }
    }
}

impl Default for Object {
    /// A sphere.
    fn default() -> (r: Self)
        ensures
            r == Object::plain(Primitive::Sphere()),
    {
        Object::of(Primitive::Sphere())
    }
}

impl PartialEq for Object {
    fn eq(&self, other: &Object) -> (r: bool) {
        self.shape.matches(&other.shape) && self.material == other.material && self.transform
            == other.transform && self.inverse_transform == other.inverse_transform && self.umbra
            == other.umbra && self.uv_manifold == other.uv_manifold
    }
}

impl vstd::std_specs::cmp::PartialEqSpecImpl for Object {
    open spec fn obeys_eq_spec() -> bool {
        true
    }

    open spec fn eq_spec(&self, other: &Object) -> bool {
        self.same(*other)
    }
}

} // verus!
