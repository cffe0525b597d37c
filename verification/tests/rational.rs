use gw_pn::foundation::rational::Rational;
use gw_pn::order::Order;

#[test]
fn algebra_rational_reduces_signs() {
    assert_eq!(Rational::new(2, -4).text(), "-1/2");
    assert_eq!(Rational::new(-6, -8).text(), "3/4");
}

#[test]
fn integers_print_without_a_denominator() {
    assert_eq!(Rational::new(12, 4).text(), "3");
    assert_eq!(Rational::zero().text(), "0");
    assert_eq!(Rational::new(0, -5), Rational::zero());
}

#[test]
fn field_operations_are_exact() {
    let a = Rational::new(1, 3);
    let b = Rational::new(1, 6);
    assert_eq!(a.add(&b), Rational::new(1, 2));
    assert_eq!(a.sub(&b), Rational::new(1, 6));
    assert_eq!(a.mul(&b), Rational::new(1, 18));
    assert_eq!(a.div(&b), Rational::from_i128(2));
    assert_eq!(a.neg(), Rational::new(-1, 3));
    assert_eq!(Rational::from_usize(7).sub(&Rational::from_i64(9)), Rational::from_i128(-2));
}

#[test]
fn powers_by_squaring_match_repeated_products() {
    let x = Rational::new(-2, 3);
    assert_eq!(x.pow_usize(0), Rational::one());
    assert_eq!(x.pow_usize(1), x);
    assert_eq!(x.pow_usize(5), Rational::new(-32, 243));
    assert_eq!(Rational::new(1, 2).pow_usize(10), Rational::new(1, 1024));
}

#[test]
fn sign_queries_and_absolute_value() {
    let x = Rational::new(-5, 7);
    assert!(x.is_negative());
    assert!(!x.is_zero());
    assert_eq!(x.abs(), Rational::new(5, 7));
    assert!(Rational::zero().is_zero());
    assert!(!Rational::zero().is_negative());
}

#[test]
fn comparison_and_value_equality() {
    let a = Rational::new(1, 3);
    let b = Rational::new(2, 5);
    assert_eq!(a.compare(&b), Order::Less);
    assert_eq!(b.compare(&a), Order::Greater);
    assert_eq!(a.compare(&Rational::new(3, 9)), Order::Equal);
    assert!(a.equals(&Rational::new(-2, -6)));
    assert!(!a.equals(&b));
}
