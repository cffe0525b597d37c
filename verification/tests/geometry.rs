use gw_pn::foundation::rational::Rational;
use gw_pn::geometry::EquivariantProjectiveSpace;

#[test]
fn classical_integrals_of_pure_powers_fill_the_dimension() {
    let p2 = EquivariantProjectiveSpace::new(2);
    assert_eq!(p2.classical_integral_of_pure_powers(&[1, 1]), Rational::one());
    assert_eq!(p2.classical_integral_of_pure_powers(&[2, 0]), Rational::one());
    assert_eq!(p2.classical_integral_of_pure_powers(&[1]), Rational::zero());
}

#[test]
fn three_point_primaries_fill_the_virtual_dimension() {
    let p2 = EquivariantProjectiveSpace::new(2);
    assert_eq!(p2.genus_zero_three_point_primary(&[1, 1, 0], 0), Rational::one());
    assert_eq!(p2.genus_zero_three_point_primary(&[2, 2, 1], 1), Rational::one());
    assert_eq!(p2.genus_zero_three_point_primary(&[2, 2, 0], 1), Rational::zero());
}
