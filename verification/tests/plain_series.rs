use gw_pn::foundation::plain_series::{
    compose_plain_series, exp_series, invert_mirror_map, invert_series_with_linear_term_one, mul_plain_series,
};
use gw_pn::foundation::rational::Rational;

fn texts(values: &[Rational]) -> Vec<String> {
    values.iter().map(|c| c.text()).collect()
}

#[test]
fn series_inversion_round_trips_through_composition() {
    let max_degree = 6;
    let mut series = vec![Rational::zero(); max_degree + 1];
    for (degree, coeff) in series.iter_mut().enumerate().skip(1) {
        *coeff = Rational::from_usize(degree);
    }
    let inverse = invert_series_with_linear_term_one(&series, max_degree);
    let composed = compose_plain_series(&series, &inverse, max_degree);
    for (degree, coeff) in composed.iter().enumerate() {
        let expected = if degree == 1 { Rational::one() } else { Rational::zero() };
        assert_eq!(*coeff, expected, "composition defect at degree {degree}");
    }
}

#[test]
fn series_inversion_accepts_degree_zero_truncation() {
    assert_eq!(invert_series_with_linear_term_one(&[Rational::zero()], 0), vec![Rational::zero()]);
    assert_eq!(invert_mirror_map(&[Rational::zero()], 0), vec![Rational::zero()]);
}

#[test]
fn exponential_of_z_has_factorial_denominators() {
    let z = vec![Rational::zero(), Rational::one()];
    assert_eq!(texts(&exp_series(&z, 4)), vec!["1", "1", "1/2", "1/6", "1/24"]);
    assert_eq!(texts(&exp_series(&[], 2)), vec!["1", "0", "0"]);
}

#[test]
fn plain_products_truncate() {
    let one_plus_z = vec![Rational::one(), Rational::one()];
    let padded = vec![Rational::one(), Rational::one(), Rational::zero()];
    assert_eq!(texts(&mul_plain_series(&padded, &padded, 2)), vec!["1", "2", "1"]);
    assert_eq!(texts(&mul_plain_series(&padded, &padded, 1)), vec!["1", "2"]);
    // Only the coefficients of the right factor that meet a nonzero one of
    // the left factor are read.
    let z = vec![Rational::zero(), Rational::one(), Rational::zero()];
    assert_eq!(texts(&mul_plain_series(&z, &one_plus_z, 2)), vec!["0", "1", "1"]);
}

#[test]
fn composition_substitutes_the_input() {
    // (1 + z + z^2) composed with 2z.
    let series = vec![Rational::one(), Rational::one(), Rational::one()];
    let input = vec![Rational::zero(), Rational::from_usize(2), Rational::zero()];
    assert_eq!(texts(&compose_plain_series(&series, &input, 2)), vec!["1", "2", "4"]);
}

#[test]
fn inverse_of_z_plus_z_squared() {
    // The inverse of z + z^2 is z - z^2 + 2 z^3 - 5 z^4 (Catalan numbers).
    let series = vec![Rational::zero(), Rational::one(), Rational::one()];
    let inverse = invert_series_with_linear_term_one(&series, 4);
    assert_eq!(texts(&inverse), vec!["0", "1", "-1", "2", "-5"]);
}

#[test]
fn a_trivial_mirror_map_is_the_identity() {
    let mirror = vec![Rational::zero(); 4];
    assert_eq!(texts(&invert_mirror_map(&mirror, 3)), vec!["0", "1", "0", "0"]);
    // q = Q exp(Q): the inverse is the Lambert series Q = q - q^2 + 3/2 q^3.
    let lambert = vec![Rational::zero(), Rational::one(), Rational::zero(), Rational::zero()];
    assert_eq!(texts(&invert_mirror_map(&lambert, 3)), vec!["0", "1", "-1", "3/2"]);
}
