use feoray::colour::Colour;
use feoray::intersections::{Intersection, Intersections};
use feoray::materials::Material;
use feoray::matrix::Matrix4;
use feoray::precomp::Surface;
use feoray::primitives::Object;
use feoray::rays::Ray;
use feoray::scalar::Scalar;
use feoray::tuple::{point, vector};
use std::cmp::Ordering;

fn s(x: f64) -> Scalar {
    Scalar::from_bits(x.to_bits())
}

fn f(x: Scalar) -> f64 {
    f64::from_bits(x.to_bits())
}

fn crossing(t: f64, object: Object) -> Intersection {
    Intersection::new(s(t), object)
}

fn ts(xs: &Intersections) -> Vec<f64> {
    xs.intrsc.iter().map(|x| f(x.t)).collect()
}

fn glass(ior: f64, shift: f64) -> Object {
    let mut orb = Object::glass_orb();
    orb.with_material(Material::default().with_transparency(s(1.0)).with_ior(s(ior)));
    orb.with_transform(
        Matrix4::translate(s(0.0), s(0.0), s(shift)),
        Matrix4::translate(s(0.0), s(0.0), s(-shift)),
    )
}

#[test]
fn intersections_intersection_encapsulates_t_and_object() {
    let sphere = Object::new_sphere();
    let i = Intersection::new(s(3.5), sphere);

    assert_eq!(f(i.t), 3.5);
    assert_eq!(i.object, sphere);
}

#[test]
fn intersections_aggregating_intersections() {
    let sphere = Object::new_sphere();
    let i1 = crossing(1.0, sphere);
    let i2 = crossing(2.0, sphere);
    let mut intrsc = vec![];
    intrsc.push(i1);
    intrsc.push(i2);
    let xs = Intersections::new(intrsc);

    assert_eq!(xs.len(), 2);
    assert_eq!(f(xs.intrsc[0].t), 1.0);
    assert_eq!(f(xs.intrsc[1].t), 2.0);
    assert_eq!(f(xs.get(1).t), 2.0);
    assert_eq!(xs.iter().count(), 2);
}

#[test]
fn intersections_the_hit_when_all_ints_have_pos_t() {
    let sphere = Object::new_sphere();
    let i1 = crossing(1.0, sphere);
    let i2 = crossing(2.0, sphere);
    let xs = Intersections::new(vec![i1.clone(), i2]);

    assert_eq!(xs.hit().unwrap(), &i1);
    assert_eq!(f(xs.hit().unwrap().t), 1.0);
    assert_eq!(xs.hit_index(), Some(0));
}

#[test]
fn intersections_the_hit_when_some_ints_have_neg_t() {
    let sphere = Object::new_sphere();
    let i1 = crossing(-1.0, sphere);
    let i2 = crossing(1.0, sphere);
    let xs = Intersections::new(vec![i1, i2.clone()]);

    assert_eq!(xs.hit().unwrap(), &i2);
    assert_eq!(f(xs.hit().unwrap().t), 1.0);
    assert_eq!(xs.hit_index(), Some(1));
}

#[test]
fn intersections_the_hit_when_all_ints_have_neg_t() {
    let sphere = Object::new_sphere();
    let i1 = crossing(-2.0, sphere);
    let i2 = crossing(-1.0, sphere);
    let xs = Intersections::new(vec![i1, i2.clone()]);

    assert_eq!(xs.hit(), None);
    assert_eq!(xs.hit_index(), None);
}

#[test]
fn intersections_the_hit_always_the_lowest_pos_t() {
    let sphere = Object::new_sphere();
    let i1 = crossing(5.0, sphere);
    let i2 = crossing(7.0, sphere);
    let i3 = crossing(-3.0, sphere);
    let i4 = crossing(2.0, sphere);
    let xs = Intersections::new(vec![i1, i2, i3, i4.clone()]);

    assert_eq!(xs.hit().unwrap(), &i4);
    assert_eq!(f(xs.hit().unwrap().t), 2.0);
    assert_eq!(ts(&xs), vec![-3.0, 2.0, 5.0, 7.0]);
}

#[test]
fn the_hit_is_found_again() {
    let sphere = Object::new_sphere();
    let xs = Intersections::new(vec![
        crossing(5.0, sphere),
        crossing(7.0, sphere),
        crossing(-3.0, sphere),
        crossing(2.0, sphere),
    ]);
    let first = *xs.hit().unwrap();
    let again = *xs.hit().unwrap();
    assert_eq!(f(first.t), f(again.t));
    let alone = Intersections::new(vec![first]);
    assert_eq!(alone.hit_index(), Some(0));
    assert_eq!(f(alone.hit().unwrap().t), 2.0);
}

#[test]
fn a_crossing_at_the_origin_is_visible() {
    let sphere = Object::new_sphere();
    for zero in [0.0, -0.0] {
        let xs = Intersections::new(vec![crossing(zero, sphere), crossing(1.0, sphere)]);
        assert_eq!(xs.hit_index(), Some(0));
    }
    let xs = Intersections::new(vec![crossing(-5e-324, sphere), crossing(f64::NAN, sphere)]);
    assert_eq!(xs.hit_index(), None);
    let xs = Intersections::new(vec![crossing(f64::NAN, sphere), crossing(f64::INFINITY, sphere)]);
    assert_eq!(xs.hit_index(), Some(1));
    assert_eq!(Intersections::default().hit_index(), None);
    assert_eq!(Intersections::default().len(), 0);
}

#[test]
fn crossings_compare_with_the_tolerance() {
    let sphere = Object::new_sphere();
    let compare = |a: f64, b: f64| crossing(a, sphere).cmp(&crossing(b, sphere));
    let reference = |a: f64, b: f64| {
        let diff = a - b;
        if diff.abs() < 1.0e-5 {
            Ordering::Equal
        } else if diff < 0.0 {
            Ordering::Less
        } else {
            Ordering::Greater
        }
    };
    let samples = [
        0.0, -0.0, 1.0, 1.000001, 1.00001, 1.00002, 0.99999, -1.0, 4.0, 4.5, 1.0e-5, 0.5e-5,
        -0.5e-5, 1.0e300, -1.0e300, f64::MAX, f64::INFINITY, f64::NEG_INFINITY, f64::NAN,
    ];
    for a in samples {
        for b in samples {
            assert_eq!(compare(a, b), reference(a, b), "{a:e} {b:e}");
            assert_eq!(crossing(a, sphere) == crossing(b, sphere), (a - b).abs() < 1.0e-5);
        }
    }
    assert_eq!(compare(1.0, 1.000001), Ordering::Equal);
    assert_eq!(compare(1.0, 1.1), Ordering::Less);
    assert_eq!(compare(1.1, 1.0), Ordering::Greater);
}

#[test]
fn crossings_that_are_alike_stay_as_they_came() {
    let a = Object::new_sphere();
    let b = Object::new_plane();
    // alike within the tolerance: the order of arrival is kept by `new`
    let xs = Intersections::new(vec![crossing(2.000001, a), crossing(2.0, b), crossing(1.0, a)]);
    assert_eq!(ts(&xs), vec![1.0, 2.000001, 2.0]);
    assert_eq!(xs.intrsc[1].object, a);
    assert_eq!(xs.intrsc[2].object, b);
    // by distance alone: the nearer one comes first, equal ones stay
    let xs = Intersections::sorted(vec![
        crossing(2.000001, a),
        crossing(2.0, b),
        crossing(1.0, a),
        crossing(2.0, a),
    ]);
    assert_eq!(ts(&xs), vec![1.0, 2.0, 2.0, 2.000001]);
    assert_eq!(xs.intrsc[1].object, b);
    assert_eq!(xs.intrsc[2].object, a);
}

#[test]
fn putting_in_order_follows_a_stable_sort() {
    let sphere = Object::new_sphere();
    let mut state: u64 = 0x0123_4567_89AB_CDEF;
    for round in 0..2000u32 {
        let count = (round % 9) as usize;
        let mut raw: Vec<f64> = Vec::new();
        for _ in 0..count {
            state ^= state << 13;
            state ^= state >> 7;
            state ^= state << 17;
            raw.push(((state % 2001) as f64 - 1000.0) / 8.0);
        }
        let xs = Intersections::sorted(raw.iter().map(|t| crossing(*t, sphere)).collect());
        let mut expected = raw.clone();
        expected.sort_by(|a, b| a.partial_cmp(b).unwrap());
        assert_eq!(ts(&xs), expected);
        // on distances that lie far apart, the tolerance changes nothing
        let xs = Intersections::new(raw.iter().map(|t| crossing(*t, sphere)).collect());
        assert_eq!(ts(&xs), expected);
    }
}

#[test]
fn the_indices_of_refraction_of_nested_glass() {
    let a = {
        let mut orb = Object::glass_orb();
        orb.with_transform(Matrix4::uscale(s(2.0)), Matrix4::uscale(s(0.5)))
    };
    let b = glass(2.0, -0.25);
    let c = glass(2.5, 0.25);
    let xs = Intersections::new(vec![
        crossing(2.0, a),
        crossing(2.75, b),
        crossing(3.25, c),
        crossing(4.75, b),
        crossing(5.25, c),
        crossing(6.0, a),
    ]);
    let expected = [(1.0, 1.5), (1.5, 2.0), (2.0, 2.5), (2.5, 2.5), (2.5, 1.5), (1.5, 1.0)];
    for (index, (n1, n2)) in expected.iter().enumerate() {
        let found = xs.refractive_indices(index);
        assert_eq!((f(found.0), f(found.1)), (*n1, *n2), "crossing {index}");
    }
}

#[test]
fn an_object_with_a_nan_never_equals_itself() {
    let mut odd = Object::glass_orb();
    odd.material.ambient = s(f64::NAN);
    assert!(odd != odd);
    // it is entered at both crossings, and never left
    let xs = Intersections::new(vec![crossing(1.0, odd), crossing(2.0, odd)]);
    assert_eq!(f(xs.refractive_indices(1).0), 1.5);
    assert_eq!(f(xs.refractive_indices(1).1), 1.5);
    let sound = Object::glass_orb();
    let xs = Intersections::new(vec![crossing(1.0, sound), crossing(2.0, sound)]);
    assert_eq!(f(xs.refractive_indices(1).0), 1.5);
    assert_eq!(f(xs.refractive_indices(1).1), 1.0);
}

#[test]
fn preparing_a_hit_from_what_the_arithmetic_gave() {
    let sphere = Object::new_sphere();
    let xs = Intersections::new(vec![crossing(4.0, sphere), crossing(6.0, sphere)]);
    let o = s(0.0);
    let ray = Ray::new(point(o, o, s(-5.0)), vector(o, o, s(1.0)));
    let surface = Surface {
        pos: point(o, o, s(-1.0)),
        normal: vector(o, o, s(-1.0)),
        facing: s(1.0),
        over_pos: point(o, o, s(-1.00001)),
        under_pos: point(o, o, s(-0.99999)),
        reflect_vec: vector(o, o, s(-1.0)),
    };
    let comps = xs.prepare_computations(0, &ray, &surface);
    assert_eq!(f(comps.t), 4.0);
    assert!(!comps.inside);
    assert_eq!(comps.eye_vec, vector(o, o, s(-1.0)));
    assert_eq!(f(comps.eye_vec.x).to_bits(), (-0.0f64).to_bits());
    assert_eq!(comps.normal_vec, surface.normal);
    assert_eq!(comps.over_pos, surface.over_pos);
    assert_eq!(comps.under_pos, surface.under_pos);
    assert_eq!((f(comps.n1), f(comps.n2)), (1.0, 1.0));

    let turned = Surface { facing: s(-1.0), ..surface };
    let comps = xs.prepare_computations(1, &ray, &turned);
    assert_eq!(f(comps.t), 6.0);
    assert!(comps.inside);
    assert_eq!(comps.normal_vec, vector(o, o, s(1.0)));
    assert_eq!(comps.over_pos, surface.under_pos);
    assert_eq!(comps.under_pos, surface.over_pos);
    assert_eq!(comps.reflect_vec, surface.reflect_vec);
    assert_eq!(comps.pos, surface.pos);
    let _ = Colour::black();
}
