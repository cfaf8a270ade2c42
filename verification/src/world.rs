//! The scene, and what a ray through it calls for.
//!
//! The colour that a ray sees is made in steps. The world says which
//! crossing is seen, whether a point lies in shadow, and which mirrored and
//! refracted rays are to be followed, with what budget and what weight. The
//! colours themselves are summed by the caller.

use vstd::prelude::*;
use crate::colour::Colour;
use crate::intersections::{
    all_numbers, arranged, hit_place, lemma_arranged_contains, lemma_arranged_ordered,
    lemma_first_visible, lemma_hit_is_nearest, lemma_numbers_consistent, ordered, stable,
    Intersection, Intersections,
};
use crate::lights::PointLight;
use crate::materials::Material;
use crate::matrix::Matrix4;
use crate::precomp::PreCompData;
use crate::primitives::{Object, Primitive, Roots};
use crate::scalar::{Scalar, ONE_BITS};
use crate::tuple::{point, Tuple};

verus! {

/// The depth to which mirrored and refracted rays are followed by default.
pub const DEFAULT_RECURSIONS: u8 = 5;

/// The objects and lights of a scene, and how deep rays are followed.
#[derive(Debug)]
pub struct World {
    pub objects: Vec<Object>,
    pub lights: Vec<PointLight>,
    pub rcrs_lim: u8,
}

/// What a ray sees.
#[derive(Debug)]
pub enum Sight {
    /// Nothing: the ray leaves the scene, and its colour is black.
    Black,
    /// A surface: crossing `index` of `crossings`, which are all the
    /// crossings of the ray, in order.
    Surface { crossings: Intersections, index: usize },
}

/// The colour that a mirrored or refracted ray brings to a hit.
#[derive(Clone, Copy, Debug)]
pub enum Secondary {
    /// Black: the ray is not followed.
    Black,
    /// What the ray from `origin` along `direction` sees when it is followed
    /// with `remaining` as its budget, times `weight`.
    Trace { origin: Tuple, direction: Tuple, remaining: u8, weight: Scalar },
}

/// What Snell's law gave for a hit: the square of the sine of the angle of
/// refraction, and the direction of the refracted ray.
#[derive(Clone, Copy, Debug)]
pub struct Bend {
    pub sin2_t: Scalar,
    pub direction: Tuple,
}

/// How the colour of a hit is put together.
#[derive(Clone, Copy, Debug)]
pub struct Shading {
    pub reflected: Secondary,
    pub refracted: Secondary,
    /// Whether the surface both mirrors and lets light through. Then the
    /// mirrored colour counts by the reflectance and the refracted colour
    /// by what is left of 1; else the two are added to the colour of the
    /// surface as they are.
    pub fresnel: bool,
}

/// The roots for object `i`, or none where the list is too short.
pub open spec fn roots_for(roots: Seq<Roots>, i: int) -> Roots {
    if 0 <= i < roots.len() {
        roots[i]
    } else {
        Roots::Nothing
    }
}

/// The crossings of the first `count` objects, object after object.
pub open spec fn gathered(objects: Seq<Object>, roots: Seq<Roots>, count: int) -> Seq<
    Intersection,
>
    decreases count,
{
    if count <= 0 {
        Seq::<Intersection>::empty()
    } else {
        gathered(objects, roots, count - 1) + objects[count - 1].crossings(
            roots_for(roots, count - 1),
        )
    }
}

impl World {
    /// The same objects and the same lights in the same order, and the
    /// same depth.
    pub open spec fn same(self, other: World) -> bool {
        &&& self.objects@.len() == other.objects@.len()
        &&& forall|i: int|
            0 <= i < self.objects@.len() ==> (#[trigger] self.objects@[i]).same(other.objects@[i])
        &&& self.lights@.len() == other.lights@.len()
        &&& forall|i: int|
            0 <= i < self.lights@.len() ==> (#[trigger] self.lights@[i]).same(other.lights@[i])
        &&& self.rcrs_lim == other.rcrs_lim
    }

    /// All crossings of a ray with the scene, in order of distance.
    pub open spec fn crossings(self, roots: Seq<Roots>) -> Seq<Intersection> {
        arranged(gathered(self.objects@, roots, self.objects@.len() as int), true)
    }

    /// The mirrored ray of a hit: none where the budget is spent or the
    /// surface does not mirror; else the ray from just above the surface
    /// along the mirrored direction, with the budget one less, weighted by
    /// the reflectivity.
    pub open spec fn reflection(comps: PreCompData, remaining: u8) -> Secondary {
        if remaining == 0 || comps.object.material.reflectivity.equals(Scalar::zero_value()) {
            Secondary::Black
        } else {
            Secondary::Trace {
                origin: comps.over_pos,
                direction: comps.reflect_vec,
                remaining: (remaining - 1) as u8,
                weight: comps.object.material.reflectivity,
            }
        }
    }

    /// The refracted ray of a hit: none where the budget is spent, the
    /// surface lets no light through, or all light is mirrored inside; else
    /// the ray from just below the surface along the bent direction, with
    /// the budget one less, weighted by the transparency.
    pub open spec fn refraction(comps: PreCompData, remaining: u8, bend: Bend) -> Secondary {
        if remaining == 0 || comps.object.material.transparency.equals(Scalar::zero_value())
            || Scalar::one_value().less_than(bend.sin2_t) {
            Secondary::Black
        } else {
            Secondary::Trace {
                origin: comps.under_pos,
                direction: bend.direction,
                remaining: (remaining - 1) as u8,
                weight: comps.object.material.transparency,
            }
        }
    }

    /// The surface both mirrors and lets light through.
    pub open spec fn blends(comps: PreCompData) -> bool {
        Scalar::zero_value().less_than(comps.object.material.reflectivity)
            && Scalar::zero_value().less_than(comps.object.material.transparency)
    }

    /// Whether the nearest visible crossing lies nearer than the light,
    /// with an object that casts a shadow.
    pub open spec fn shadowed(xs: Seq<Intersection>, distance: Scalar) -> bool {
        match hit_place(xs) {
            Some(i) => xs[i].t.less_than(distance) && xs[i].object.umbra,
            None => false,
        }
    }

    pub fn new(objects: Vec<Object>, lights: Vec<PointLight>, rcrs_lim: u8) -> (w: Self)
        ensures
            w.objects == objects,
            w.lights == lights,
            w.rcrs_lim == rcrs_lim,
    {
        World { objects, lights, rcrs_lim }
    }

    /// What the ray sees: black where it has no visible crossing, else the
    /// first visible one among all its crossings. `roots` holds, object by
    /// object, what the arithmetic gave for the ray.
    pub fn colour_at(&self, roots: &Vec<Roots>) -> (s: Sight)
        ensures
            match s {
                Sight::Black => hit_place(self.crossings(roots@)).is_none(),
                Sight::Surface { crossings, index } => crossings.intrsc@ == self.crossings(roots@)
                    && hit_place(self.crossings(roots@)) == Some(index as int),
            },
    {
        let crossings = self.intersect(roots);
        match crossings.hit_index() {
            Some(index) => Sight::Surface { crossings, index },
            None => Sight::Black,
        }
    }

    /// A scene to try things on: a light in white at (-10, 10, -10), a
    /// sphere in matt green, and in it a sphere in the default material,
    /// half the size.
    pub fn default_world() -> (w: Self)
        ensures
            w.rcrs_lim == DEFAULT_RECURSIONS,
            w.lights@ =~= seq![
                PointLight {
                    colour: Colour::white_value(),
                    position: Tuple {
                        x: Scalar { bits: 0xC024_0000_0000_0000 },
                        y: Scalar { bits: 0x4024_0000_0000_0000 },
                        z: Scalar { bits: 0xC024_0000_0000_0000 },
                        w: Scalar::one_value(),
                    },
                },
            ],
            w.objects@.len() == 2,
            w.objects@[0] == (Object {
                material: Material {
                    diffuse: Scalar { bits: 0x3FE6_6666_6000_0000 },
                    specular: Scalar { bits: 0x3FC9_9999_A000_0000 },
                    pattern: crate::patterns::Pattern::plain(
                        crate::patterns::Patterns::Solid(
                            crate::patterns::SolidPattern {
                                colour: Colour::of_bits(
                                    0x3FE9_9999_A000_0000,
                                    ONE_BITS,
                                    0x3FE3_3333_4000_0000,
                                ),
                            },
                        ),
                    ),
                    ..Material::default_value()
                },
                ..Object::plain(Primitive::Sphere())
            }),
            w.objects@[1] == (Object {
                transform: Matrix4::scaling_value(
                    Scalar { bits: 0x3FE0_0000_0000_0000 },
                    Scalar { bits: 0x3FE0_0000_0000_0000 },
                    Scalar { bits: 0x3FE0_0000_0000_0000 },
                ),
                inverse_transform: Matrix4::scaling_value(
                    Scalar { bits: 0x4000_0000_0000_0000 },
                    Scalar { bits: 0x4000_0000_0000_0000 },
                    Scalar { bits: 0x4000_0000_0000_0000 },
                ),
                ..Object::plain(Primitive::Sphere())
            }),
    {
        let m = Material::default().with_colour(
            Colour::new(
                Scalar::from_bits(0x3FE9_9999_A000_0000),
                Scalar::one(),
                Scalar::from_bits(0x3FE3_3333_4000_0000),
            ),
        ).with_diffuse(Scalar::from_bits(0x3FE6_6666_6000_0000)).with_specular(
            Scalar::from_bits(0x3FC9_9999_A000_0000),
        );
        let mut s1 = Object::new_sphere();
        s1.with_material(m);
        let mut s2 = Object::new_sphere();
        s2.with_transform(
            Matrix4::uscale(Scalar::from_bits(0x3FE0_0000_0000_0000)),
            Matrix4::uscale(Scalar::from_bits(0x4000_0000_0000_0000)),
        );
        let far = Scalar::from_bits(0x4024_0000_0000_0000);
        let light = PointLight::new(Colour::white(), point(far.neg(), far, far.neg()));
        let mut objects: Vec<Object> = Vec::new();
        objects.push(s1);
        objects.push(s2);
        let mut lights: Vec<PointLight> = Vec::new();
        lights.push(light);
        World { objects, lights, rcrs_lim: DEFAULT_RECURSIONS }
    }

    /// All crossings of a ray with the scene, in order of distance; equal
    /// distances stay in the order of the objects. `roots` holds, object by
    /// object, what the arithmetic gave for the ray; an object without
    /// roots has no crossing.
    pub fn intersect(&self, roots: &Vec<Roots>) -> (xs: Intersections)
        ensures
            xs.intrsc@ == self.crossings(roots@),
            all_numbers(gathered(self.objects@, roots@, self.objects@.len() as int)) ==> ordered(
                xs.intrsc@,
                true,
            ) && ordered(xs.intrsc@, false),
            stable(gathered(self.objects@, roots@, self.objects@.len() as int), xs.intrsc@, true),
    {
        let mut all: Vec<Intersection> = Vec::new();
        let mut i: usize = 0;
        while i < self.objects.len()
            invariant
                i <= self.objects@.len(),
                all@ == gathered(self.objects@, roots@, i as int),
            decreases self.objects@.len() - i,
        {
            let r = if i < roots.len() {
                roots[i]
            } else {
                Roots::Nothing
            };
            let found = self.objects[i].intersect(r);
            let ghost before = all@;
            let mut k: usize = 0;
            while k < found.intrsc.len()
                invariant
                    k <= found.intrsc@.len(),
                    all@ == before + found.intrsc@.take(k as int),
                decreases found.intrsc@.len() - k,
            {
                all.push(found.intrsc[k]);
                assert(found.intrsc@.take(k + 1) =~= found.intrsc@.take(k as int).push(
                    found.intrsc@[k as int],
                ));
                assert(all@ =~= before + found.intrsc@.take(k + 1));
                k = k + 1;
            }
            assert(found.intrsc@.take(found.intrsc@.len() as int) =~= found.intrsc@);
            i = i + 1;
        }
        Intersections::sorted(all)
    }

    /// Whether a point lies in the shadow of a light. `roots` holds, object
    /// by object, what the arithmetic gave for the ray from the point
    /// towards the light; `distance` is how far the light is. The point is
    /// in shadow where the ray's hit lies nearer than the light, with an
    /// object that casts a shadow. Only the hit is asked.
    pub fn is_shadowed(&self, roots: &Vec<Roots>, distance: Scalar) -> (r: bool)
        ensures
            r == World::shadowed(self.crossings(roots@), distance),
    {
        let xs = self.intersect(roots);
        match xs.hit() {
            Some(h) => h.t.lt(&distance) && h.object.umbra,
            None => false,
        }
    }

    /// How the colour of a hit is put together: which mirrored and which
    /// refracted ray is followed, and whether the two are blended by the
    /// reflectance.
    pub fn shade_hit(&self, comps: &PreCompData, remaining: u8, bend: &Bend) -> (s: Shading)
        ensures
            s.reflected == World::reflection(*comps, remaining),
            s.refracted == World::refraction(*comps, remaining, *bend),
            s.fresnel == World::blends(*comps),
    {
        let zero = Scalar::zero();
        let material = &comps.object.material;
        Shading {
            reflected: self.reflected_colour(comps, remaining),
            refracted: self.refracted_colour(comps, remaining, bend),
            fresnel: material.reflectivity.gt(&zero) && material.transparency.gt(&zero),
        }
    }

    /// The colour that the mirrored ray brings to a hit: black where the
    /// budget is spent or the surface does not mirror, else what the
    /// mirrored ray sees with the budget one less, times the reflectivity.
    pub fn reflected_colour(&self, comps: &PreCompData, remaining: u8) -> (s: Secondary)
        ensures
            s == World::reflection(*comps, remaining),
            remaining == 0 ==> s is Black,
            s is Trace ==> s->remaining < remaining,
    {
        let reflectivity = comps.object.material.reflectivity;
        if remaining == 0 || reflectivity == Scalar::zero() {
            Secondary::Black
        } else {
            Secondary::Trace {
                origin: comps.over_pos,
                direction: comps.reflect_vec,
                remaining: remaining - 1,
                weight: reflectivity,
            }
        }
    }

    /// The colour that the refracted ray brings to a hit: black where the
    /// budget is spent, the surface lets no light through, or all light is
    /// mirrored inside; else what the refracted ray sees with the budget
    /// one less, times the transparency.
    pub fn refracted_colour(&self, comps: &PreCompData, remaining: u8, bend: &Bend) -> (s:
        Secondary)
        ensures
            s == World::refraction(*comps, remaining, *bend),
            remaining == 0 ==> s is Black,
            s is Trace ==> s->remaining < remaining,
    {
        let transparency = comps.object.material.transparency;
        if remaining == 0 || transparency == Scalar::zero() || bend.sin2_t.gt(&Scalar::one()) {
            Secondary::Black
        } else {
            Secondary::Trace {
                origin: comps.under_pos,
                direction: bend.direction,
                remaining: remaining - 1,
                weight: transparency,
            }
        }
    }

    /// The world with one more light.
    pub fn with_light(self, light: PointLight) -> (w: Self)
        ensures
            w.lights@ == self.lights@.push(light),
            w.objects == self.objects,
            w.rcrs_lim == self.rcrs_lim,
    {
        let mut w = self;
        w.lights.push(light);
        w
    }

    /// The world with one more object.
    pub fn with_object(self, object: Object) -> (w: Self)
        ensures
            w.objects@ == self.objects@.push(object),
            w.lights == self.lights,
            w.rcrs_lim == self.rcrs_lim,
    {
        let mut w = self;
        w.objects.push(object);
        w
    }

    /// The world with another depth to which rays are followed.
    pub fn with_recursions(self, rcrs_lim: u8) -> (w: Self)
        ensures
            w.rcrs_lim == rcrs_lim,
            w.objects == self.objects,
            w.lights == self.lights,
    {
        let mut w = self;
        w.rcrs_lim = rcrs_lim;
        w
    }
}

/// Whether two lists of objects are equal, object by object.
fn same_objects(a: &Vec<Object>, b: &Vec<Object>) -> (r: bool)
    ensures
        r == (a@.len() == b@.len() && forall|i: int|
            0 <= i < a@.len() ==> (#[trigger] a@[i]).same(b@[i])),
{
    if a.len() != b.len() {
        return false;
    }
    let mut i: usize = 0;
    while i < a.len()
        invariant
            i <= a@.len(),
            a@.len() == b@.len(),
            forall|j: int| 0 <= j < i ==> (#[trigger] a@[j]).same(b@[j]),
        decreases a@.len() - i,
    {
        if !(a[i] == b[i]) {
            return false;
        }
        i = i + 1;
    }
    true
}

/// Whether two lists of lights are equal, light by light.
fn same_lights(a: &Vec<PointLight>, b: &Vec<PointLight>) -> (r: bool)
    ensures
        r == (a@.len() == b@.len() && forall|i: int|
            0 <= i < a@.len() ==> (#[trigger] a@[i]).same(b@[i])),
{
    if a.len() != b.len() {
        return false;
    }
    let mut i: usize = 0;
    while i < a.len()
        invariant
            i <= a@.len(),
            a@.len() == b@.len(),
            forall|j: int| 0 <= j < i ==> (#[trigger] a@[j]).same(b@[j]),
        decreases a@.len() - i,
    {
        if !(a[i] == b[i]) {
            return false;
        }
        i = i + 1;
    }
    true
}

impl PartialEq for World {
    fn eq(&self, other: &World) -> (r: bool) {
        same_objects(&self.objects, &other.objects) && same_lights(&self.lights, &other.lights)
            && self.rcrs_lim == other.rcrs_lim
    }
}

impl vstd::std_specs::cmp::PartialEqSpecImpl for World {
    open spec fn obeys_eq_spec() -> bool {
        true
    }

    open spec fn eq_spec(&self, other: &World) -> bool {
        self.same(*other)
    }
}

impl Default for World {
    /// An empty world, with rays followed five deep.
    fn default() -> (w: Self)
        ensures
            w.objects@.len() == 0,
            w.lights@.len() == 0,
            w.rcrs_lim == DEFAULT_RECURSIONS,
    {
        World { objects: Vec::new(), lights: Vec::new(), rcrs_lim: DEFAULT_RECURSIONS }
    }
}

/// What a ray sees is the nearest of all that lies in front of it: where
/// no distance is a NaN, no crossing of the ray with any object of the
/// scene, visible from the ray's origin, is nearer than the hit.
pub proof fn lemma_sight_is_nearest(w: World, roots: Seq<Roots>, c: Intersection)
    requires
        all_numbers(gathered(w.objects@, roots, w.objects@.len() as int)),
        gathered(w.objects@, roots, w.objects@.len() as int).contains(c),
        c.visible(),
    ensures
        hit_place(w.crossings(roots)) matches Some(i) && w.crossings(roots)[i].t.at_most(c.t),
{
    let all = gathered(w.objects@, roots, w.objects@.len() as int);
    let xs = w.crossings(roots);
    lemma_numbers_consistent(all);
    lemma_arranged_ordered(all, true);
    lemma_arranged_contains(all, true, c);
    let j = choose|j: int| 0 <= j < xs.len() && xs[j] == c;
    lemma_first_visible(xs, j);
    lemma_hit_is_nearest(xs, true, j);
}

/// Rays that are followed one after another come to an end: each has a
/// smaller budget than the one it springs from, and with the budget spent
/// no ray is followed, whatever the surface is made of.
pub proof fn lemma_budget_runs_out(comps: PreCompData, remaining: u8, bend: Bend)
    ensures
        remaining == 0 ==> World::reflection(comps, remaining) is Black && World::refraction(
            comps,
            remaining,
            bend,
        ) is Black,
        World::reflection(comps, remaining) matches Secondary::Trace { remaining: left, .. }
            ==> left < remaining,
        World::refraction(comps, remaining, bend) matches Secondary::Trace { remaining: left, .. }
            ==> left < remaining,
{
}

} // verus!
