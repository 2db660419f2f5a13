use elliptic::finite_fields::{modular_pow, CreationError, FieldElement};

fn element(num: i32, prime: i32) -> FieldElement {
    FieldElement::new(num, prime).unwrap()
}

#[test]
fn finite_fields_test_not_equal() {
    let a = element(2, 31);
    let b = element(2, 31);
    let c = element(15, 31);
    assert_eq!(a.equal(&b), true);
    assert_eq!(a.equal(&c), false);
    assert_eq!(a.not_equal(&b), false);
}

#[test]
fn finite_fields_test_add() {
    let a = element(2, 31);
    let b = element(15, 31);
    assert_eq!(a + b, element(17, 31));

    let a = element(17, 31);
    let b = element(21, 31);
    assert_eq!(a + b, element(7, 31));
}

#[test]
fn test_sub() {
    let a = element(29, 31);
    let b = element(4, 31);
    assert_eq!(a - b, element(25, 31));

    let a = element(15, 31);
    let b = element(30, 31);
    assert_eq!(a - b, element(16, 31));
}

#[test]
fn finite_fields_test_mul() {
    let a = element(24, 31);
    let b = element(19, 31);
    assert_eq!(a * b, element(22, 31));
}

#[test]
fn test_pow() {
    let a: FieldElement = element(17, 31);
    assert_eq!(a.pow(3), element(15, 31));

    let a: FieldElement = element(5, 31);
    let b: FieldElement = element(18, 31);
    assert_eq!(a.pow(5) * b, element(16, 31));
}

#[test]
fn test_div() {
    let a: FieldElement = element(3, 31);
    let b: FieldElement = element(24, 31);
    assert_eq!(a / b, element(4, 31));

    let a: FieldElement = element(17, 31);
    assert_eq!(a.pow(-3), element(29, 31));

    let a: FieldElement = element(4, 31);
    let b: FieldElement = element(11, 31);
    assert_eq!(a.pow(-4) * b, element(13, 31));
}

#[test]
fn new_accepts_the_whole_range() {
    assert!(FieldElement::new(0, 31).is_ok());
    assert!(FieldElement::new(30, 31).is_ok());
    assert_eq!(FieldElement::new(0, 1).unwrap().num(), 0);
    let e = element(7, 13);
    assert_eq!(e.num(), 7);
    assert_eq!(e.prime(), 13);
}

#[test]
fn new_rejects_a_number_at_or_above_the_prime() {
    assert_eq!(FieldElement::new(31, 31), Err(CreationError::NumberGreaterPrime));
    assert_eq!(FieldElement::new(40, 31), Err(CreationError::NumberGreaterPrime));
    assert_eq!(FieldElement::new(-1, -5), Err(CreationError::NumberGreaterPrime));
}

#[test]
fn new_rejects_a_negative_number() {
    assert_eq!(FieldElement::new(-1, 31), Err(CreationError::Negative));
    assert_eq!(FieldElement::new(i32::MIN, 2), Err(CreationError::Negative));
}

#[test]
fn not_equal_tells_fields_apart() {
    let a = element(2, 31);
    let b = element(2, 37);
    assert!(a.not_equal(&b));
    assert!(!a.equal(&b));
    assert!(a.not_equal(&element(3, 31)));
}

#[test]
fn modular_pow_exact_values() {
    assert_eq!(modular_pow(2, 10, 1000), 24);
    assert_eq!(modular_pow(3, 0, 7), 1);
    assert_eq!(modular_pow(0, 0, 7), 1);
    assert_eq!(modular_pow(0, 5, 7), 0);
    assert_eq!(modular_pow(17, 3, 31), 15);
    assert_eq!(modular_pow(5, 29, 31), 25);
    assert_eq!(modular_pow(7, 222, 223), 1);
}

#[test]
fn modular_pow_modulus_one_is_zero() {
    assert_eq!(modular_pow(5, 3, 1), 0);
    assert_eq!(modular_pow(5, 0, 1), 0);
    assert_eq!(modular_pow(0, 0, 1), 0);
}

#[test]
fn modular_pow_negative_base_and_exponent() {
    // -2 is 5 modulo 7, and 5^3 = 125 = 6 modulo 7.
    assert_eq!(modular_pow(-2, 3, 7), 6);
    assert_eq!(modular_pow(i32::MIN, 1, 7), (i32::MIN as i64).rem_euclid(7) as i32);
    assert_eq!(modular_pow(3, -4, 7), 1);
}

#[test]
fn modular_pow_large_modulus_does_not_overflow() {
    let p = 2147483647;
    assert_eq!(modular_pow(2, 31, p), 1);
    assert_eq!(modular_pow(p - 1, 2, p), 1);
    assert_eq!(modular_pow(p - 1, 2147483645, p), p - 1);
    assert_eq!(modular_pow(3, p - 1, p), 1);
}

#[test]
fn arithmetic_in_a_large_field() {
    let p = 2147483647;
    let a = element(p - 1, p);
    let b = element(p - 2, p);
    assert_eq!(a + b, element(p - 3, p));
    assert_eq!(b - a, element(p - 1, p));
    assert_eq!(a * b, element(2, p));
    assert_eq!((a / b) * b, a);
}

#[test]
fn sub_wraps_into_range() {
    let zero = element(0, 31);
    let one = element(1, 31);
    assert_eq!(zero - one, element(30, 31));
    assert_eq!(one - one, zero);
}

#[test]
fn additive_inverse_sums_to_zero() {
    for n in 1..31 {
        assert_eq!(element(n, 31) + element(31 - n, 31), element(0, 31));
    }
}

#[test]
fn multiplicative_inverse_is_the_power_prime_minus_two() {
    for n in 1..31 {
        let x = element(n, 31);
        assert_eq!(x * x.pow(29), element(1, 31));
        assert_eq!(element(1, 31) / x, x.pow(29));
    }
}

#[test]
fn field_operations_commute_and_associate() {
    let p = 13;
    for i in 0..p {
        for j in 0..p {
            let (x, y) = (element(i, p), element(j, p));
            assert_eq!(x + y, y + x);
            assert_eq!(x * y, y * x);
            let z = element((i * j + 1) % p, p);
            assert_eq!((x + y) + z, x + (y + z));
            assert_eq!((x * y) * z, x * (y * z));
        }
    }
}

#[test]
fn results_stay_in_range() {
    let p = 11;
    for i in 0..p {
        for j in 0..p {
            let (x, y) = (element(i, p), element(j, p));
            for r in [x + y, x - y, x * y] {
                assert!(0 <= r.num() && r.num() < p);
                assert_eq!(r.prime(), p);
            }
            if j != 0 {
                let q = x / y;
                assert!(0 <= q.num() && q.num() < p);
                assert_eq!(q * y, x);
            }
        }
    }
}

#[test]
fn pow_reduces_the_exponent() {
    let p = 31;
    for n in 1..p {
        let x = element(n, p);
        for e in [-61, -30, -1, 0, 1, 29, 30, 31, 95] {
            assert_eq!(x.pow(e), x.pow(e.rem_euclid(p - 1)));
        }
    }
    assert_eq!(element(3, 31).pow(30), element(1, 31));
    assert_eq!(element(3, 31).pow(-1), element(21, 31));
    assert_eq!(element(3, 31).pow(i32::MIN), element(3, 31).pow(22));
}

#[test]
fn pow_in_the_field_of_two_elements() {
    assert_eq!(element(1, 2).pow(5), element(1, 2));
    assert_eq!(element(0, 2).pow(5), element(1, 2));
}

#[test]
fn division_in_the_field_of_two_elements() {
    assert_eq!(element(1, 2) / element(1, 2), element(1, 2));
    assert_eq!(element(0, 2) / element(1, 2), element(0, 2));
}

#[test]
fn repr_names_the_field_and_the_number() {
    assert_eq!(element(2, 31).repr(), "FieldElement_31(2)");
    assert_eq!(element(0, 1).repr(), "FieldElement_1(0)");
    assert_eq!(element(10, 223).repr(), "FieldElement_223(10)");
    assert_eq!(element(2147483646, 2147483647).repr(), "FieldElement_2147483647(2147483646)");
}
