use feoray::colour::Colour;
use feoray::intersections::Intersections;
use feoray::lights::PointLight;
use feoray::materials::Material;
use feoray::precomp::PreCompData;
use feoray::primitives::{Object, Roots};
use feoray::scalar::Scalar;
use feoray::tuple::{point, vector, Tuple};
use feoray::world::{Bend, Secondary, Sight, World};

fn s(x: f64) -> Scalar {
    Scalar::from_bits(x.to_bits())
}

fn f(x: Scalar) -> f64 {
    f64::from_bits(x.to_bits())
}

fn ts(xs: &Intersections) -> Vec<f64> {
    xs.intrsc.iter().map(|x| f(x.t)).collect()
}

fn sphere_roots(near: f64, far: f64) -> Roots {
    Roots::Sphere { discriminant: s(1.0), near: s(near), far: s(far) }
}

fn hit_data(material: Material, n1: f64, n2: f64) -> PreCompData {
    let mut object = Object::new_sphere();
    object.with_material(material);
    let o = s(0.0);
    PreCompData::new(
        s(4.0),
        object,
        point(o, o, s(-1.0)),
        point(o, o, s(-1.00001)),
        point(o, o, s(-0.99999)),
        vector(o, o, s(-1.0)),
        s(n1),
        s(n2),
        vector(o, o, s(-1.0)),
        vector(o, s(1.0), s(0.0)),
        false,
    )
}

fn straight_on() -> Bend {
    Bend { sin2_t: s(0.0), direction: vector(s(0.0), s(0.0), s(1.0)) }
}

#[test]
fn crossings_of_all_objects_come_in_order_of_distance() {
    let w = World::default_world();
    let xs = w.intersect(&vec![sphere_roots(4.0, 6.0), sphere_roots(4.5, 5.5)]);
    assert_eq!(ts(&xs), vec![4.0, 4.5, 5.5, 6.0]);
    assert_eq!(xs.intrsc[0].object, w.objects[0]);
    assert_eq!(xs.intrsc[1].object, w.objects[1]);
    assert_eq!(xs.intrsc[2].object, w.objects[1]);
    assert_eq!(xs.intrsc[3].object, w.objects[0]);
    // equal distances stay in the order of the objects
    let xs = w.intersect(&vec![sphere_roots(5.0, 6.0), sphere_roots(5.0, 6.0)]);
    assert_eq!(ts(&xs), vec![5.0, 5.0, 6.0, 6.0]);
    assert_eq!(xs.intrsc[0].object, w.objects[0]);
    assert_eq!(xs.intrsc[1].object, w.objects[1]);
    // distances within the tolerance are told apart here
    let xs = w.intersect(&vec![sphere_roots(5.000001, 6.0), sphere_roots(5.0, 6.0)]);
    assert_eq!(ts(&xs), vec![5.0, 5.000001, 6.0, 6.0]);
}

#[test]
fn an_object_without_roots_has_no_crossing() {
    let w = World::default_world();
    assert_eq!(ts(&w.intersect(&vec![sphere_roots(4.0, 6.0)])), vec![4.0, 6.0]);
    assert_eq!(w.intersect(&vec![]).len(), 0);
    let more = vec![Roots::Nothing, sphere_roots(1.0, 2.0), sphere_roots(8.0, 9.0)];
    assert_eq!(ts(&w.intersect(&more)), vec![1.0, 2.0]);
    assert_eq!(World::default().intersect(&more).len(), 0);
}

#[test]
fn what_a_ray_sees() {
    let w = World::default_world();
    match w.colour_at(&vec![sphere_roots(-6.0, -4.0), sphere_roots(-5.5, 4.5)]) {
        Sight::Surface { crossings, index } => {
            assert_eq!(ts(&crossings), vec![-6.0, -5.5, -4.0, 4.5]);
            assert_eq!(index, 3);
            assert_eq!(crossings.intrsc[index].object, w.objects[1]);
        }
        Sight::Black => panic!("the inner sphere lies ahead"),
    }
    assert!(matches!(
        w.colour_at(&vec![sphere_roots(-6.0, -4.0), sphere_roots(-5.5, -4.5)]),
        Sight::Black
    ));
    assert!(matches!(w.colour_at(&vec![]), Sight::Black));
    let miss = Roots::Sphere { discriminant: s(-1.0), near: s(1.0), far: s(2.0) };
    assert!(matches!(w.colour_at(&vec![miss, miss]), Sight::Black));
}

#[test]
fn a_shadow_needs_a_hit_that_is_nearer_than_the_light() {
    let w = World::default()
        .with_light(PointLight::new(Colour::white(), point(s(0.0), s(0.0), s(-10.0))))
        .with_object(Object::new_sphere());
    let roots = vec![sphere_roots(5.0, 7.0)];
    assert!(w.is_shadowed(&roots, s(5.000001)));
    assert!(w.is_shadowed(&roots, s(f64::INFINITY)));
    assert!(!w.is_shadowed(&roots, s(5.0)));
    assert!(!w.is_shadowed(&roots, s(4.0)));
    assert!(!w.is_shadowed(&roots, s(f64::NAN)));
    // the nearest crossing in front decides, and one behind does not count
    assert!(w.is_shadowed(&vec![sphere_roots(-5.0, 7.0)], s(8.0)));
    assert!(!w.is_shadowed(&vec![sphere_roots(-5.0, 7.0)], s(6.0)));
    assert!(!w.is_shadowed(&vec![sphere_roots(-7.0, -5.0)], s(8.0)));
    assert!(!w.is_shadowed(&vec![], s(8.0)));
}

#[test]
fn a_ray_is_followed_only_with_budget_left() {
    let w = World::default();
    let bend = straight_on();
    for reflectivity in [0.0, -0.0, 0.5, 1.0, -0.5, f64::NAN] {
        for transparency in [0.0, -0.0, 0.5, 1.0, -0.5, f64::NAN] {
            let material = Material::default()
                .with_reflectivity(s(reflectivity))
                .with_transparency(s(transparency));
            let comps = hit_data(material, 1.0, 1.5);
            assert!(matches!(w.reflected_colour(&comps, 0), Secondary::Black));
            assert!(matches!(w.refracted_colour(&comps, 0, &bend), Secondary::Black));
            let plan = w.shade_hit(&comps, 0, &bend);
            assert!(matches!(plan.reflected, Secondary::Black));
            assert!(matches!(plan.refracted, Secondary::Black));
            for remaining in [1u8, 2, 5, 255] {
                let mirrored = w.reflected_colour(&comps, remaining);
                let through = w.refracted_colour(&comps, remaining, &bend);
                match mirrored {
                    Secondary::Black => assert!(reflectivity == 0.0),
                    Secondary::Trace { origin, direction, remaining: left, weight } => {
                        assert!(reflectivity != 0.0);
                        assert_eq!(left, remaining - 1);
                        assert_eq!(weight.to_bits(), reflectivity.to_bits());
                        assert_eq!(origin, comps.over_pos);
                        assert_eq!(direction, comps.reflect_vec);
                    }
                }
                match through {
                    Secondary::Black => assert!(transparency == 0.0),
                    Secondary::Trace { origin, direction, remaining: left, weight } => {
                        assert!(transparency != 0.0);
                        assert_eq!(left, remaining - 1);
                        assert_eq!(weight.to_bits(), transparency.to_bits());
                        assert_eq!(origin, comps.under_pos);
                        assert_eq!(direction, bend.direction);
                    }
                }
                let plan = w.shade_hit(&comps, remaining, &bend);
                assert_eq!(plan.fresnel, reflectivity > 0.0 && transparency > 0.0);
                assert_eq!(
                    matches!(plan.reflected, Secondary::Black),
                    matches!(mirrored, Secondary::Black)
                );
                assert_eq!(
                    matches!(plan.refracted, Secondary::Black),
                    matches!(through, Secondary::Black)
                );
            }
        }
    }
}

#[test]
fn no_ray_gets_out_under_total_reflection() {
    let w = World::default();
    let glass = Material::default().with_transparency(s(1.0)).with_ior(s(1.5));
    let comps = hit_data(glass, 1.5, 1.0);
    let direction: Tuple = vector(s(0.0), s(0.0), s(1.0));
    for (sin2_t, followed) in
        [(0.0, true), (0.99, true), (1.0, true), (1.0000000000000002, false), (2.0, false)]
    {
        let through = w.refracted_colour(&comps, 5, &Bend { sin2_t: s(sin2_t), direction });
        assert_eq!(matches!(through, Secondary::Trace { remaining: 4, .. }), followed);
    }
    let odd = w.refracted_colour(&comps, 5, &Bend { sin2_t: s(f64::NAN), direction });
    assert!(matches!(odd, Secondary::Trace { .. }));
}

#[test]
fn the_share_that_is_mirrored() {
    let glass = Material::default().with_transparency(s(1.0)).with_ior(s(1.5));
    let leaving = hit_data(glass, 1.5, 1.0);
    let entering = hit_data(glass, 1.0, 1.5);
    let level = hit_data(glass, 1.5, 1.5);
    assert!(leaving.leaves_denser());
    assert!(!entering.leaves_denser());
    assert!(!level.leaves_denser());
    // all of it, where no light gets out
    assert_eq!(f(leaving.schlick(s(1.125), s(0.3))), 1.0);
    assert_eq!(f(leaving.schlick(s(1.125), s(f64::NAN))), 1.0);
    // else what the polynomial gave
    assert_eq!(f(leaving.schlick(s(1.0), s(0.3))), 0.3);
    assert_eq!(f(leaving.schlick(s(0.5), s(0.3))), 0.3);
    assert_eq!(f(entering.schlick(s(1.125), s(0.3))), 0.3);
    assert_eq!(f(level.schlick(s(1.125), s(0.04))), 0.04);
}
