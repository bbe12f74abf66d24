use raytracer::decimal::Dec;
use raytracer::tuple::{point, vector, zero_vector, Tuple, TupleType};
use rust_decimal::prelude::FromPrimitive;
use rust_decimal::Decimal;

fn f(v: f32) -> Dec {
    let d = Decimal::from_f32(v).unwrap();
    Dec::new(d.mantissa() as i64, d.scale())
}

fn tuple(x: f32, y: f32, z: f32, w: f32) -> Tuple {
    Tuple::new(f(x), f(y), f(z), f(w))
}

fn approx(d: Dec) -> f64 {
    d.mantissa as f64 / 10f64.powi(d.scale as i32)
}

#[test]
fn tuple_test_is_a_point() {
    let a = point(f(4.3), f(-4.2), f(3.1));

    assert_eq!(a.x, Dec::new(43, 1));
    assert_eq!(a.y, Dec::new(-42, 1));
    assert_eq!(a.z, Dec::new(31, 1));
    assert_eq!(a.w, Dec::new(10, 1));
    assert_eq!(a.is(), TupleType::Point);
    assert_ne!(a.is(), TupleType::Vector);
}

#[test]
fn tuple_test_is_a_vector() {
    let a = vector(f(4.3), f(-4.2), f(3.1));

    assert_eq!(a.x, Dec::new(43, 1));
    assert_eq!(a.y, Dec::new(-42, 1));
    assert_eq!(a.z, Dec::new(31, 1));
    assert_eq!(a.w, Dec::new(0, 1));
    assert_eq!(a.is(), TupleType::Vector);
    assert_ne!(a.is(), TupleType::Point);
}

#[test]
fn tuple_test_adding_two_tuples() {
    let a1 = tuple(3.0, -2.0, 5.0, 1.0);
    let a2 = vector(f(-2.0), f(3.0), f(1.0));

    assert_eq!(a1.add(a2), tuple(1.0, 1.0, 6.0, 1.0))
}

#[test]
fn tuple_test_subtracting_2_points() {
    let p1 = point(f(3.0), f(2.0), f(1.0));
    let p2 = point(f(5.0), f(6.0), f(7.0));

    assert_eq!(p1.sub(p2), vector(f(-2.0), f(-4.0), f(-6.0)));
}

#[test]
fn tuple_test_subtracting_a_vector_from_a_point() {
    let p = point(f(3.0), f(2.0), f(1.0));
    let v = vector(f(5.0), f(6.0), f(7.0));

    assert_eq!(p.sub(v), point(f(-2.0), f(-4.0), f(-6.0)));
}

#[test]
fn tuple_test_subtracting_a_vector_from_the_zero_vector() {
    let v = vector(f(1.0), f(-2.0), f(3.0));

    assert_eq!(zero_vector().sub(v), vector(f(-1.0), f(2.0), f(-3.0)));
}

#[test]
fn tuple_test_negating_tuple() {
    let a = tuple(1.0, -2.0, -3.0, -4.0);

    assert_eq!(a.neg(), tuple(-1.0, 2.0, 3.0, 4.0));
}

#[test]
fn tuple_test_multiplying_a_tuple_by_a_scalar() {
    let a = tuple(1.0, -2.0, 3.0, -4.0);

    assert_eq!(a.mul(f(3.5)), tuple(3.5, -7.0, 10.5, -14.0));
}

#[test]
fn tuple_test_multiplying_a_tuple_by_a_fraction() {
    let a = tuple(1.0, -2.0, 3.0, -4.0);

    assert_eq!(a.mul(f(0.5)), tuple(0.5, -1.0, 1.5, -2.0));
}

#[test]
fn tuple_test_dividing_a_tuple_by_a_scalar() {
    let a = tuple(1.0, -2.0, 3.0, -4.0);

    assert_eq!(a.div(f(2.0)), Some(tuple(0.5, -1.0, 1.5, -2.0)));
}

#[test]
fn test_computing_the_magnitude_of_a_vector() {
    assert_eq!(vector(f(1.0), f(0.0), f(0.0)).magnitude(), Dec::new(10, 1));
    assert_eq!(vector(f(0.0), f(1.0), f(0.0)).magnitude(), Dec::new(10, 1));
    assert!((approx(vector(f(1.0), f(2.0), f(3.0)).magnitude()) - 3.7416575).abs() < 1e-6);
    assert!((approx(vector(f(-1.0), f(-2.0), f(-3.0)).magnitude()) - 3.7416575).abs() < 1e-6);
}

#[test]
fn test_normalising_vector() {
    assert_eq!(vector(f(4.0), f(0.0), f(0.0)).normalise(), Some(tuple(1.0, 0.0, 0.0, 0.0)));

    let n = vector(f(1.0), f(2.0), f(3.0)).normalise().unwrap();
    assert!((approx(n.x) - 0.26726124).abs() < 1e-6);
    assert!((approx(n.y) - 0.5345225).abs() < 1e-6);
    assert!((approx(n.z) - 0.8017837).abs() < 1e-6);
    assert_eq!(n.w, Dec::zero());

    let normalized = vector(f(1.0), f(2.0), f(3.0)).normalise().unwrap();

    assert!((approx(normalized.magnitude()) - 1.0).abs() < 1e-9);
}

#[test]
fn test_the_dot_product_of_two_tuples() {
    let a = vector(f(1.0), f(2.0), f(3.0));
    let b = vector(f(2.0), f(3.0), f(4.0));

    assert_eq!(a.dot_product(b), Dec::new(200, 1));
}

#[test]
fn test_the_cross_product_of_two_vectors() {
    let a = vector(f(1.0), f(2.0), f(3.0));
    let b = vector(f(2.0), f(3.0), f(4.0));

    assert_eq!(a.cross_product(b), vector(f(-1.0), f(2.0), f(-1.0)));
    assert_eq!(b.cross_product(a), vector(f(1.0), f(-2.0), f(1.0)));
}

#[test]
fn tuples_test_is_a_point() {
    let a = point(f(4.3), f(-4.2), f(3.1));

    assert_eq!(a.x, f(4.3));
    assert_eq!(a.y, f(-4.2));
    assert_eq!(a.z, f(3.1));
    assert_eq!(a.w, f(1.0));
    assert_eq!(a.is(), TupleType::Point);
    assert_ne!(a.is(), TupleType::Vector);
}

#[test]
fn tuples_test_is_a_vector() {
    let a = vector(f(4.3), f(-4.2), f(3.1));

    assert_eq!(a.x, f(4.3));
    assert_eq!(a.y, f(-4.2));
    assert_eq!(a.z, f(3.1));
    assert_eq!(a.w, f(0.0));
    assert_eq!(a.is(), TupleType::Vector);
    assert_ne!(a.is(), TupleType::Point);
}

#[test]
fn tuples_test_adding_two_tuples() {
    let a1 = tuple(3.0, -2.0, 5.0, 1.0);
    let a2 = vector(f(-2.0), f(3.0), f(1.0));

    assert_eq!(a1.add(a2), tuple(1.0, 1.0, 6.0, 1.0))
}

#[test]
fn tuples_test_subtracting_2_points() {
    let p1 = point(f(3.0), f(2.0), f(1.0));
    let p2 = point(f(5.0), f(6.0), f(7.0));

    assert_eq!(p1.sub(p2), vector(f(-2.0), f(-4.0), f(-6.0)));
}

#[test]
fn tuples_test_subtracting_a_vector_from_a_point() {
    let p = point(f(3.0), f(2.0), f(1.0));
    let v = vector(f(5.0), f(6.0), f(7.0));

    assert_eq!(p.sub(v), point(f(-2.0), f(-4.0), f(-6.0)));
}

#[test]
fn tuples_test_subtracting_a_vector_from_the_zero_vector() {
    let v = vector(f(1.0), f(-2.0), f(3.0));

    assert_eq!(zero_vector().sub(v), vector(f(-1.0), f(2.0), f(-3.0)));
}

#[test]
fn tuples_test_negating_tuple() {
    let a = tuple(1.0, -2.0, -3.0, -4.0);

    assert_eq!(a.neg(), tuple(-1.0, 2.0, 3.0, 4.0));
}

#[test]
fn tuples_test_multiplying_a_tuple_by_a_scalar() {
    let a = tuple(1.0, -2.0, 3.0, -4.0);

    assert_eq!(a.mul(f(3.5)), tuple(3.5, -7.0, 10.5, -14.0));
}

#[test]
fn tuples_test_multiplying_a_tuple_by_a_fraction() {
    let a = tuple(1.0, -2.0, 3.0, -4.0);

    assert_eq!(a.mul(f(0.5)), tuple(0.5, -1.0, 1.5, -2.0));
}

#[test]
fn tuples_test_dividing_a_tuple_by_a_scalar() {
    let a = tuple(1.0, -2.0, 3.0, -4.0);

    assert_eq!(a.div(f(2.0)), Some(tuple(0.5, -1.0, 1.5, -2.0)));
}

#[test]
fn vector_test_is_a_point() {
    let a = point(f(4.3), f(-4.2), f(3.1));

    assert_eq!(a.x, f(4.3));
    assert_eq!(a.y, f(-4.2));
    assert_eq!(a.z, f(3.1));
    assert_eq!(a.w, f(1.0));
    assert_eq!(a.is(), TupleType::Point);
}

#[test]
fn vector_test_is_a_vector() {
    let a = vector(f(4.3), f(-4.2), f(3.1));

    assert_eq!(a.x, f(4.3));
    assert_eq!(a.y, f(-4.2));
    assert_eq!(a.z, f(3.1));
    assert_eq!(a.w, f(0.0));
    assert_eq!(a.is(), TupleType::Vector);
}

#[test]
fn test_adding_a_vector_to_a_point() {
    let a1 = point(f(3.0), f(-2.0), f(5.0));
    let a2 = vector(f(-2.0), f(3.0), f(1.0));

    assert_eq!(a1.get_type(a2), TupleType::Point);
    assert_eq!(a1.add(a2), point(f(1.0), f(1.0), f(6.0)))
}

#[test]
fn vector_test_subtracting_a_vector_from_a_point() {
    let a1 = point(f(3.0), f(2.0), f(1.0));
    let a2 = vector(f(5.0), f(6.0), f(7.0));

    assert_eq!(a1.sub(a2), point(f(-2.0), f(-4.0), f(-6.0)))
}

#[test]
fn test_subtracting_2_vectors() {
    let a1 = vector(f(3.0), f(2.0), f(1.0));
    let a2 = vector(f(5.0), f(6.0), f(7.0));

    assert_eq!(a1.get_type(a2), TupleType::Vector);
    assert_eq!(a1.sub(a2), vector(f(-2.0), f(-4.0), f(-6.0)))
}

#[test]
fn vector_test_subtracting_a_vector_from_the_zero_vector() {
    let v = vector(f(1.0), f(-2.0), f(3.0));

    assert_eq!(zero_vector().sub(v), vector(f(-1.0), f(2.0), f(-3.0)));
}

#[test]
fn vector_test_negating_tuple() {
    let a = vector(f(1.0), f(-2.0), f(-3.0));

    assert_eq!(a.negate(), vector(f(-1.0), f(2.0), f(3.0)));
}
