use feoray::scalar::Scalar;
use feoray::tuple::{point, vector, Tuple};

fn s(x: f64) -> Scalar {
    Scalar::from_bits(x.to_bits())
}

fn f(x: Scalar) -> f64 {
    f64::from_bits(x.to_bits())
}

fn tuple(x: f64, y: f64, z: f64, w: f64) -> Tuple {
    Tuple::new(s(x), s(y), s(z), s(w))
}

#[test]
fn tuple_tuple_is_point() {
    let tup = tuple(4.3, -4.2, 3.1, 1.0);

    assert_eq!((f(tup.x), f(tup.y), f(tup.z), f(tup.w)), (4.3, -4.2, 3.1, 1.0));
    assert_eq!(tup.is_point(), true);
}

#[test]
fn tuple_tuple_is_vector() {
    let tup = tuple(4.3, -4.2, 3.1, 0.0);

    assert_eq!((f(tup.x), f(tup.y), f(tup.z), f(tup.w)), (4.3, -4.2, 3.1, 0.0));
    assert_eq!(tup.is_vector(), true);
}

#[test]
fn tuple_negate_tuple() {
    let tup = tuple(1.0, -2.0, 3.0, -4.0);

    assert_eq!(tup.neg(), tuple(-1.0, 2.0, -3.0, 4.0));
}

#[test]
fn coordinate_to_point() {
    assert_eq!(point(s(4.0), s(-4.0), s(3.0)), tuple(4.0, -4.0, 3.0, 1.0));
}

#[test]
fn coordinate_to_vector() {
    assert_eq!(vector(s(4.0), s(-4.0), s(3.0)), tuple(4.0, -4.0, 3.0, 0.0));
}

#[test]
fn math_tuple_is_point() {
    let tup = tuple(4.3, -4.2, 3.1, 1.0);

    assert_eq!((f(tup.x), f(tup.y), f(tup.z), f(tup.w)), (4.3, -4.2, 3.1, 1.0));
    assert_eq!(tup.is_point(), true);
    assert_eq!(tup.is_vector(), false);
}

#[test]
fn math_tuple_is_vector() {
    let tup = tuple(4.3, -4.2, 3.1, 0.0);

    assert_eq!((f(tup.x), f(tup.y), f(tup.z), f(tup.w)), (4.3, -4.2, 3.1, 0.0));
    assert_eq!(tup.is_vector(), true);
    assert_eq!(tup.is_point(), false);
}

#[test]
fn math_negate_tuple() {
    let tup = tuple(1.0, -2.0, 3.0, -4.0);
    let negated = tup.neg();

    assert_eq!(negated, tuple(-1.0, 2.0, -3.0, 4.0));
    assert_eq!(negated.neg(), tup);
    assert_eq!(f(tuple(0.0, 0.0, 0.0, 0.0).neg().x).to_bits(), (-0.0f64).to_bits());
}
