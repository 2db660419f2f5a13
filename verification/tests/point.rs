use elliptic::finite_fields::FieldElement;
use elliptic::point::{CreationError, Point};
use rug::Integer;

fn element(value: i32, prime: i32) -> FieldElement {
    FieldElement::new(value.rem_euclid(prime), prime).unwrap()
}

fn point(x: i32, y: i32, a: i32, b: i32, prime: i32) -> Result<Point, CreationError> {
    Point::new(element(x, prime), element(y, prime), element(a, prime), element(b, prime))
}

fn infinity(a: i32, b: i32, prime: i32) -> Point {
    Point::infinity(element(a, prime), element(b, prime))
}

#[test]
fn elliptic_curves_test_not_equal() {
    let a: Point = point(3, -7, 5, 7, 223).unwrap();
    let b: Point = point(18, 77, 5, 7, 223).unwrap();

    assert_eq!(a, a);
    assert_ne!(a, b);
    assert!(a.equal(&a));
    assert!(a.not_equal(&b));
}

#[test]
fn test_add0() {
    let a: Point = infinity(5, 7, 223);
    let b: Point = point(2, 5, 5, 7, 223).unwrap();
    let c: Point = point(2, -5, 5, 7, 223).unwrap();

    assert_eq!(a + b, b);
    assert_eq!(b + a, b);
    assert_eq!(b + c, a);
}

#[test]
fn test_add1() {
    let a: Point = point(3, 7, 5, 7, 223).unwrap();
    let b: Point = point(-1, -1, 5, 7, 223).unwrap();

    assert_eq!(a + b, point(2, -5, 5, 7, 223).unwrap());
}

#[test]
fn test_on_curve() {
    let prime = 223;
    let a = 0;
    let b = 7;

    assert!(point(192, 105, a, b, prime).is_ok());
    assert!(point(17, 56, a, b, prime).is_ok());
    assert!(point(200, 119, a, b, prime).is_err());
    assert!(point(1, 193, a, b, prime).is_ok());
    assert!(point(42, 99, a, b, prime).is_err());
}

#[test]
fn point_test_add() {
    let prime = 223;
    let a = 0;
    let b = 7;

    let p1 = point(192, 105, a, b, prime).unwrap();
    let p2 = point(17, 56, a, b, prime).unwrap();
    let p3 = point(170, 142, a, b, prime).unwrap();

    assert_eq!(p1 + p2, p3);

    let p1 = point(47, 71, a, b, prime).unwrap();
    let p2 = point(117, 141, a, b, prime).unwrap();
    let p3 = point(60, 139, a, b, prime).unwrap();

    assert_eq!(p1 + p2, p3);

    let p1 = point(143, 98, a, b, prime).unwrap();
    let p2 = point(76, 66, a, b, prime).unwrap();
    let p3 = point(47, 71, a, b, prime).unwrap();

    assert_eq!(p1 + p2, p3);
}

#[test]
fn new_reports_a_point_off_the_curve() {
    assert_eq!(point(192, 106, 0, 7, 223), Err(CreationError::PointNotInCurve));
    assert_eq!(point(193, 105, 0, 7, 223), Err(CreationError::PointNotInCurve));
}

#[test]
fn infinity_is_the_identity() {
    let o = infinity(0, 7, 223);
    let p = point(192, 105, 0, 7, 223).unwrap();
    assert!(o.is_infinity());
    assert!(!p.is_infinity());
    assert_eq!(p + o, p);
    assert_eq!(o + p, p);
    assert_eq!(o + o, o);
}

#[test]
fn a_point_and_its_mirror_image_sum_to_infinity() {
    let p = point(192, 105, 0, 7, 223).unwrap();
    let q = point(192, -105, 0, 7, 223).unwrap();
    assert_eq!(p + q, infinity(0, 7, 223));
    assert_eq!(q + p, infinity(0, 7, 223));
}

#[test]
fn doubling_follows_the_tangent() {
    // (47, 71) doubled on y^2 = x^3 + 7 over the field of 223 elements.
    let p = point(47, 71, 0, 7, 223).unwrap();
    assert_eq!(p + p, point(36, 111, 0, 7, 223).unwrap());
    let p = point(192, 105, 0, 7, 223).unwrap();
    assert_eq!(p + p, point(49, 71, 0, 7, 223).unwrap());
}

#[test]
fn doubling_a_point_with_a_vertical_tangent_gives_infinity() {
    // y^2 = x^3 - x over the field of 7 elements holds (0, 0) and (1, 0).
    let p = point(0, 0, -1, 0, 7).unwrap();
    assert_eq!(p + p, infinity(-1, 0, 7));
    let q = point(1, 0, -1, 0, 7).unwrap();
    assert_eq!(q + q, infinity(-1, 0, 7));
    assert_eq!(p + q, point(6, 0, -1, 0, 7).unwrap());
}

#[test]
fn doubling_in_characteristic_three() {
    // y^2 = x^3 + x + 1 over the field of 3 elements: tangent slope a / (2y).
    let p = point(0, 1, 1, 1, 3).unwrap();
    assert_eq!(p + p, point(1, 0, 1, 1, 3).unwrap());
}

#[test]
fn squares_are_true_squares_in_small_fields() {
    // 0^2 is 0, also where the exponent 2 is a multiple of p - 1.
    assert!(point(2, 0, 0, 1, 3).is_ok());
    assert!(point(0, 0, 0, 1, 3).is_err());
    assert!(point(0, 1, 0, 1, 3).is_ok());
}

#[test]
fn addition_commutes_and_associates_on_a_small_curve() {
    let prime = 223;
    let coordinates = [(192, 105), (17, 56), (1, 193), (47, 71), (117, 141), (143, 98)];
    let mut points = vec![infinity(0, 7, prime)];
    for (x, y) in coordinates {
        points.push(point(x, y, 0, 7, prime).unwrap());
        points.push(point(x, -y, 0, 7, prime).unwrap());
    }
    for p in &points {
        for q in &points {
            assert_eq!(*p + *q, *q + *p);
            for r in &points {
                assert_eq!((*p + *q) + *r, *p + (*q + *r));
            }
        }
    }
}

#[test]
fn sums_stay_on_the_curve() {
    let prime = 223;
    let p = point(192, 105, 0, 7, prime).unwrap();
    let q = point(17, 56, 0, 7, prime).unwrap();
    let s = p + q;
    assert_eq!(s, point(170, 142, 0, 7, prime).unwrap());
    let d = s + s;
    assert_ne!(d, s);
    // The sum is again a point that the constructor accepts.
    let mut found = false;
    for x in 0..prime {
        for y in 0..prime {
            if let Ok(candidate) = point(x, y, 0, 7, prime) {
                if candidate == d {
                    found = true;
                }
            }
        }
    }
    assert!(found);
}

#[test]
fn points_of_different_curves_differ() {
    let p = point(2, 5, 5, 7, 223).unwrap();
    let o5 = infinity(5, 7, 223);
    let o0 = infinity(0, 7, 223);
    assert!(o5.not_equal(&o0));
    assert!(!o5.equal(&o0));
    assert!(p.not_equal(&o5));
    assert!(o5.equal(&infinity(5, 7, 223)));
}

#[test]
fn point_test_mul() {
    let prime = 223;
    let a = 0;
    let b = 7;

    let p1 = point(170, 142, a, b, prime).unwrap();
    assert_eq!(p1.clone() + p1.clone(), Integer::from(2) * p1.clone());
    assert_eq!(
        Integer::from(2) * p1.clone() + p1.clone(),
        Integer::from(3) * p1
    );
}

#[test]
fn zero_times_a_point_is_infinity() {
    let p = point(170, 142, 0, 7, 223).unwrap();
    assert_eq!(Integer::from(0) * p, infinity(0, 7, 223));
    assert_eq!(Integer::from(0) * infinity(0, 7, 223), infinity(0, 7, 223));
}

#[test]
fn a_negative_scalar_gives_infinity() {
    let p = point(170, 142, 0, 7, 223).unwrap();
    assert_eq!(Integer::from(-1) * p, infinity(0, 7, 223));
    assert_eq!(Integer::from(-6) * p, infinity(0, 7, 223));
}

#[test]
fn one_times_a_point_is_the_point() {
    let p = point(170, 142, 0, 7, 223).unwrap();
    assert_eq!(Integer::from(1) * p, p);
}

#[test]
fn scalar_multiples_on_a_small_curve() {
    // Multiples of (47, 71) on y^2 = x^3 + 7 over the field of 223 elements.
    let p = point(47, 71, 0, 7, 223).unwrap();
    let expected = [(47, 71), (36, 111), (15, 137), (194, 51), (126, 96), (139, 137), (92, 47)];
    for (i, (x, y)) in expected.iter().enumerate() {
        assert_eq!(Integer::from(i as u32 + 1) * p, point(*x, *y, 0, 7, 223).unwrap());
    }
    assert_eq!(Integer::from(20) * p, point(47, 152, 0, 7, 223).unwrap());
    assert_eq!(Integer::from(21) * p, infinity(0, 7, 223));
}

#[test]
fn scalar_multiple_agrees_with_repeated_addition() {
    let p = point(15, 86, 0, 7, 223).unwrap();
    let mut sum = infinity(0, 7, 223);
    for k in 0..30 {
        assert_eq!(Integer::from(k) * p, sum);
        sum = sum + p;
    }
    // (15, 86) has order 7.
    assert_eq!(Integer::from(7) * p, infinity(0, 7, 223));
}

#[test]
fn scalar_beyond_the_machine_word() {
    // (15, 86) has order 7, and 2^200 = 4 modulo 7.
    let p = point(15, 86, 0, 7, 223).unwrap();
    let k = Integer::from(1) << 200;
    assert_eq!(k * p, Integer::from(4) * p);
    let k = (Integer::from(1) << 200) + 3;
    assert_eq!(k * p, infinity(0, 7, 223));
}

#[test]
fn scalar_multiple_of_infinity_is_infinity() {
    assert_eq!(Integer::from(12345) * infinity(0, 7, 223), infinity(0, 7, 223));
}

#[test]
fn a_finite_point_as_text() {
    assert_eq!(point(192, 105, 0, 7, 223).unwrap().to_string(), "Point(192, 105)_0_7");
    assert_eq!(point(0, 0, -1, 0, 7).unwrap().to_string(), "Point(0, 0)_6_0");
    assert_eq!(point(2, -5, 5, 7, 223).unwrap().to_string(), "Point(2, 218)_5_7");
}

#[test]
fn coefficients_can_be_read_back() {
    let p = point(192, 105, 0, 7, 223).unwrap();
    assert_eq!(p.a(), element(0, 223));
    assert_eq!(p.b(), element(7, 223));
    let o = infinity(5, 7, 223);
    assert_eq!(o.a(), element(5, 223));
    assert_eq!(o.b(), element(7, 223));
}

#[test]
fn coordinates_can_be_read_back() {
    let p = point(192, 105, 0, 7, 223).unwrap();
    assert_eq!(p.x(), Some(element(192, 223)));
    assert_eq!(p.y(), Some(element(105, 223)));
    let o = infinity(0, 7, 223);
    assert_eq!(o.x(), None);
    assert_eq!(o.y(), None);
    let s = p + point(17, 56, 0, 7, 223).unwrap();
    assert_eq!(s.x().unwrap().num(), 170);
    assert_eq!(s.y().unwrap().num(), 142);
}

#[test]
fn addition_does_not_associate_through_a_singular_point() {
    // y^2 = x^3 has the singular point (0, 0).
    let p = point(0, 0, 0, 0, 223).unwrap();
    let q = point(1, 1, 0, 0, 223).unwrap();
    assert_eq!(p + p, infinity(0, 0, 223));
    assert_eq!(p + q, p);
    assert_eq!((p + p) + q, q);
    assert_eq!(p + (p + q), infinity(0, 0, 223));
}

#[test]
fn multiples_of_infinity_over_the_field_of_two_elements() {
    let o = infinity(0, 1, 2);
    assert_eq!(Integer::from(5) * o, o);
    assert_eq!(Integer::from(0) * o, o);
    assert_eq!(Integer::from(-2) * o, o);
}

#[test]
fn multiples_of_a_point_with_y_zero_over_the_field_of_two_elements() {
    // (1, 0) on y^2 = x^3 + 1: its double is the point at infinity.
    let p = point(1, 0, 0, 1, 2).unwrap();
    let o = infinity(0, 1, 2);
    assert_eq!(p + p, o);
    assert_eq!(Integer::from(1) * p, p);
    assert_eq!(Integer::from(2) * p, o);
    assert_eq!(Integer::from(3) * p, p);
    assert_eq!(Integer::from(6) * p, o);
    assert_eq!(Integer::from(7) * p, Integer::from(6) * p + p);
}

#[test]
fn a_scalar_that_is_not_positive_over_the_field_of_two_elements() {
    // (0, 1) on y^2 = x^3 + 1 cannot be doubled, and is not.
    let q = point(0, 1, 0, 1, 2).unwrap();
    assert_eq!(Integer::from(0) * q, infinity(0, 1, 2));
    assert_eq!(Integer::from(-3) * q, infinity(0, 1, 2));
}

#[test]
fn a_multiple_is_of_the_same_curve() {
    let p = point(47, 71, 0, 7, 223).unwrap();
    for k in 0..25 {
        let m = Integer::from(k) * p;
        assert_eq!(m.a(), p.a());
        assert_eq!(m.b(), p.b());
        if let (Some(x), Some(y)) = (m.x(), m.y()) {
            assert!(Point::new(x, y, m.a(), m.b()).is_ok());
        }
    }
}

#[test]
fn times_takes_a_machine_word() {
    let p = point(47, 71, 0, 7, 223).unwrap();
    assert_eq!(p.times(5), point(126, 96, 0, 7, 223).unwrap());
    assert_eq!(p.times(2), p + p);
    assert_eq!(p.times(3), p.times(2) + p);
    assert_eq!(p.times(1), p);
    assert_eq!(p.times(0), infinity(0, 7, 223));
    assert_eq!(p.times(-4), infinity(0, 7, 223));
    assert_eq!(p.times(i32::MAX), Integer::from(i32::MAX) * p);
    assert_eq!(p.times(21), infinity(0, 7, 223));
}

#[test]
fn the_next_multiple_is_the_multiple_plus_the_point() {
    let p = point(15, 86, 0, 7, 223).unwrap();
    for k in 0..20 {
        assert_eq!(Integer::from(k + 1) * p, Integer::from(k) * p + p);
    }
}

#[test]
fn addition_associates_through_infinity() {
    let o = infinity(0, 7, 223);
    let p = point(192, 105, 0, 7, 223).unwrap();
    let q = point(17, 56, 0, 7, 223).unwrap();
    assert_eq!((o + p) + q, o + (p + q));
    assert_eq!((p + o) + q, p + (o + q));
    assert_eq!((p + q) + o, p + (q + o));
}
