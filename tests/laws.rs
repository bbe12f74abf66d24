use raytracer::decimal::Dec;
use raytracer::tuple::{point, vector, Tuple, TupleType};

fn d(m: i64, s: u32) -> Dec {
    Dec::new(m, s)
}

#[test]
fn constructors_set_w() {
    let v = vector(d(12, 1), d(-3, 0), d(7, 2));
    let p = point(d(12, 1), d(-3, 0), d(7, 2));
    assert_eq!(v.w, Dec::zero());
    assert_eq!(p.w, Dec::one());
    assert_eq!(v.is(), TupleType::Vector);
    assert_eq!(p.is(), TupleType::Point);
}

#[test]
fn differences_keep_the_point_vector_distinction() {
    let p1 = point(d(3, 0), d(2, 0), d(1, 0));
    let p2 = point(d(5, 1), d(6, 0), d(-7, 0));
    let v1 = vector(d(5, 0), d(6, 2), d(7, 0));
    let v2 = vector(d(-1, 0), d(0, 0), d(9, 3));
    assert_eq!(p1.sub(p2).is(), TupleType::Vector);
    assert_eq!(p1.sub(v1).is(), TupleType::Point);
    assert_eq!(v1.sub(v2).is(), TupleType::Vector);
}

#[test]
fn cross_product_is_anti_commutative() {
    let a = vector(d(15, 1), d(-2, 0), d(33, 2));
    let b = vector(d(4, 0), d(25, 1), d(-1, 1));
    assert_eq!(a.cross_product(b), b.cross_product(a).neg());
}

#[test]
fn normalised_vector_has_unit_magnitude() {
    let v = vector(d(3, 0), d(-4, 0), d(12, 0));
    let n = v.normalise().unwrap();
    let m = n.magnitude();
    let approx = m.mantissa as f64 / 10f64.powi(m.scale as i32);
    assert!((approx - 1.0).abs() < 1e-12);
    assert_eq!(v.magnitude(), d(13, 0));
}

#[test]
fn dividing_by_zero_gives_none() {
    let v = vector(d(1, 0), d(2, 0), d(3, 0));
    assert_eq!(v.div(Dec::zero()), None);
    assert_eq!(Tuple::new(Dec::zero(), Dec::zero(), Dec::zero(), Dec::zero()).normalise(), None);
}

#[test]
fn adding_two_points_gives_w_two() {
    let p = point(d(1, 0), d(2, 0), d(3, 0));
    let s = p.add(p);
    assert_eq!(s.w, d(2, 0));
    assert_eq!(s.is(), TupleType::Point);
}

#[test]
fn dot_product_includes_w() {
    let a = Tuple::new(d(1, 0), d(2, 0), d(3, 0), d(2, 0));
    let b = Tuple::new(d(2, 0), d(3, 0), d(4, 0), d(5, 0));
    assert_eq!(a.dot_product(b), d(30, 0));
}

#[test]
fn decimals_are_canonical() {
    assert_eq!(d(1500, 3), d(15, 1));
    assert_eq!(d(1500, 3).scale, 1);
    assert_eq!(d(0, 5), Dec::zero());
    assert_eq!(d(5, 1).mul(d(2, 0)), Dec::one());
}

#[test]
fn square_root_is_rounded_down() {
    assert_eq!(vector(d(3, 0), d(4, 0), d(0, 0)).magnitude(), d(5, 0));
    assert_eq!(vector(d(0, 0), d(0, 0), d(0, 0)).magnitude(), Dec::zero());
    assert_eq!(vector(d(1, 1), d(0, 0), d(0, 0)).magnitude(), d(1, 1));
    // sqrt(2) = 1.41421356237309504880..., to 19 digits after the point
    let r = vector(d(1, 0), d(1, 0), d(0, 0)).magnitude();
    assert_eq!(r, Dec { mantissa: 14142135623730950488, scale: 19 });
}

#[test]
fn checked_variants_agree_or_refuse() {
    let a = vector(d(1, 0), d(2, 0), d(3, 0));
    let b = vector(d(2, 0), d(3, 0), d(4, 0));
    assert_eq!(a.try_magnitude(), Some(a.magnitude()));
    assert_eq!(a.try_normalise(), a.normalise());
    assert_eq!(a.try_dot_product(&b), Some(d(20, 0)));
    assert_eq!(a.try_cross_product(&b), Some(vector(d(-1, 0), d(2, 0), d(-1, 0))));
    let huge = vector(Dec { mantissa: 10_000_000_000_000, scale: 0 }, d(0, 0), d(0, 0));
    assert_eq!(huge.try_magnitude(), None);
    assert_eq!(huge.try_normalise(), None);
    assert_eq!(huge.try_dot_product(&b), None);
    assert_eq!(huge.try_cross_product(&b), None);
}

#[test]
fn dividing_zero_gives_zero_and_normalising_keeps_vectors() {
    let v = vector(d(0, 0), d(6, 0), d(0, 0));
    assert_eq!(v.div(d(3, 0)), Some(vector(d(0, 0), d(2, 0), d(0, 0))));
    assert_eq!(v.normalise(), Some(vector(d(0, 0), d(1, 0), d(0, 0))));
}

#[test]
fn integer_part_and_size_tests() {
    assert_eq!(d(-375, 2).int_part(), 3);
    assert_eq!(d(99, 2).int_part(), 0);
    assert!(d(12, 0).is_moderate());
    assert!(!Dec { mantissa: 10_000_000_000_000, scale: 0 }.is_moderate());
    assert!(Dec { mantissa: 9_999_999_999_999, scale: 0 }.is_moderate());
    assert!(!Dec { mantissa: 3961408125713216879677197516, scale: 0 }.is_small());
    assert!(Dec { mantissa: 3961408125713216879677197515, scale: 0 }.is_small());
}
