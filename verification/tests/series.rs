use gw_pn::foundation::rational::Rational;
use gw_pn::foundation::series::{QSeries, RationalQSeries};
use gw_pn::foundation::series_matrix::{
    integrate_q_derivative_zero_constant_matrix, RationalSeriesMatrix, SeriesMatrix,
};

#[test]
fn inverse_multiplies_to_one() {
    let max_degree = 3;
    let one = QSeries::one(max_degree);
    let s = one.add(&QSeries::q(max_degree));
    let inv = s.inverse().unwrap();
    let product = s.mul(&inv);
    assert_eq!(product.coeff(0), Some(&Rational::one()));
    assert_eq!(product.coeff(1), Some(&Rational::zero()));
    assert_eq!(product.coeff(2), Some(&Rational::zero()));
    assert_eq!(product.coeff(3), Some(&Rational::zero()));
}

#[test]
fn multiplication_truncates() {
    let q = QSeries::q(2);
    let two = QSeries::constant(Rational::from_i128(2), 2);
    let s = q.add(&two);
    let square = s.mul(&s);
    assert_eq!(square.coeff(0).unwrap().text(), "4");
    assert_eq!(square.coeff(1).unwrap().text(), "4");
    assert_eq!(square.coeff(2).unwrap().text(), "1");
}

#[test]
fn sqrt_and_q_derivative_work_for_unit_series() {
    let max_degree = 2;
    let one_plus_q = QSeries::one(max_degree).add(&QSeries::q(max_degree));
    let sqrt = one_plus_q.sqrt_with_constant_one().unwrap();
    assert_eq!(sqrt.coeff(0), Some(&Rational::one()));
    assert_eq!(sqrt.coeff(1).unwrap().text(), "1/2");
    assert_eq!(sqrt.coeff(2).unwrap().text(), "-1/8");
    assert_eq!(one_plus_q.q_derivative().coeff(1), Some(&Rational::one()));
}

#[test]
fn rational_q_series_uses_plain_rational_coefficients() {
    let max_degree = 3;
    let one = RationalQSeries::one(max_degree);
    let q = RationalQSeries::q(max_degree);
    let two = RationalQSeries::constant(Rational::from_usize(2), max_degree);
    let series = one.add(&q).mul(&two);

    assert_eq!(series.coeff(0), Some(&Rational::from_usize(2)));
    assert_eq!(series.coeff(1), Some(&Rational::from_usize(2)));
    assert_eq!(series.coeff(2), Some(&Rational::zero()));

    let inv = one.add(&q).inverse().unwrap();
    assert_eq!(inv.coeff(0), Some(&Rational::one()));
    assert_eq!(inv.coeff(1), Some(&Rational::from_i128(-1)));
    assert_eq!(inv.coeff(2), Some(&Rational::one()));
    assert_eq!(inv.coeff(3), Some(&Rational::from_i128(-1)));
}

#[test]
fn a_series_with_zero_constant_has_no_inverse() {
    let q = QSeries::q(2);
    let err = q.inverse().unwrap_err();
    assert_eq!(err.message(), "algebra failure: cannot invert q-series with zero constant term");
    assert!(QSeries::one(2).div(&q).is_err());
}

#[test]
fn division_multiplies_by_the_inverse() {
    let one_plus_q = QSeries::one(2).add(&QSeries::q(2));
    let quotient = one_plus_q.div(&one_plus_q).unwrap();
    assert!(quotient.is_structurally_one());
}

#[test]
fn sqrt_requires_constant_one() {
    let two = QSeries::constant(Rational::from_i128(2), 2);
    let err = two.sqrt_with_constant_one().unwrap_err();
    assert_eq!(err.message(), "algebra failure: sqrt_with_constant_one requires constant coefficient 1");
}

#[test]
fn sqrt_squares_back_to_the_series() {
    let series = QSeries::one(4).add(&QSeries::q(4).scale(&Rational::new(3, 1)));
    let root = series.sqrt_with_constant_one().unwrap();
    assert_eq!(root.mul(&root), series);
}

#[test]
fn powers_repeat_the_product() {
    let one_plus_q = QSeries::one(3).add(&QSeries::q(3));
    let cube = one_plus_q.pow_usize(3);
    let texts: Vec<String> = cube.coeffs().iter().map(|c| c.text()).collect();
    assert_eq!(texts, vec!["1", "3", "3", "1"]);
    assert!(one_plus_q.pow_usize(0).is_structurally_one());
}

#[test]
fn q_derivative_weights_by_degree() {
    let s = QSeries::from_coeffs(vec![Rational::new(5, 1), Rational::new(1, 2), Rational::new(2, 3)]);
    let d = s.q_derivative();
    let texts: Vec<String> = d.coeffs().iter().map(|c| c.text()).collect();
    assert_eq!(texts, vec!["0", "1/2", "4/3"]);
}

#[test]
fn complexity_counts_nonzero_terms() {
    let s = QSeries::from_coeffs(vec![Rational::zero(), Rational::new(1, 2), Rational::zero(), Rational::one()]);
    assert_eq!(s.complexity_terms(), 2);
    assert_eq!(s.complexity_denominator_factors(), 0);
    assert_eq!(s.max_degree(), 3);
    assert!(s.coeff(4).is_none());
    assert!(QSeries::zero(3).is_zero());
    assert!(!s.is_structurally_zero());
}

#[test]
fn matrix_multiplication_works_over_q_series() {
    let q = QSeries::q(1);
    let one = QSeries::one(1);
    let a = SeriesMatrix::from_entries(vec![
        vec![one.clone(), q.clone()],
        vec![QSeries::zero(1), one.clone()],
    ]);
    let product = a.mul(&SeriesMatrix::identity(2, 1));
    assert_eq!(product, a);
    assert_eq!(a.transpose().rows(), 2);
    assert!(SeriesMatrix::zero(2, 2, 1).is_zero());
    assert_eq!(a.add(&a.neg()), SeriesMatrix::zero(2, 2, 1));
}

#[test]
fn rational_series_matrix_multiplication_works() {
    let one = RationalQSeries::one(1);
    let q = RationalQSeries::q(1);
    let matrix = RationalSeriesMatrix::from_entries(vec![
        vec![one.clone(), q.clone()],
        vec![RationalQSeries::zero(1), one],
    ]);
    let product = matrix.mul(&RationalSeriesMatrix::identity(2, 1));
    assert_eq!(product, matrix);
}

#[test]
fn matrix_product_sums_over_the_inner_index() {
    let q = QSeries::q(2);
    let one = QSeries::one(2);
    let a = SeriesMatrix::from_entries(vec![vec![one.clone(), q.clone()]]);
    let b = SeriesMatrix::from_entries(vec![vec![q.clone()], vec![one.clone()]]);
    let product = a.mul(&b);
    assert_eq!(product.rows(), 1);
    assert_eq!(product.cols(), 1);
    let texts: Vec<String> = product.entry(0, 0).coeffs().iter().map(|c| c.text()).collect();
    assert_eq!(texts, vec!["0", "2", "0"]);
}

#[test]
fn matrix_transpose_swaps_rows_and_columns() {
    let q = QSeries::q(1);
    let one = QSeries::one(1);
    let a = SeriesMatrix::from_entries(vec![vec![one.clone(), q.clone(), QSeries::zero(1)]]);
    let t = a.transpose();
    assert_eq!(t.rows(), 3);
    assert_eq!(t.cols(), 1);
    assert_eq!(t.entry(1, 0), &q);
    assert_eq!(t.transpose(), a);
    assert_eq!(a.max_degree(), 1);
    assert_eq!(SeriesMatrix::zero(0, 3, 5).max_degree(), 0);
}

#[test]
fn constant_and_diagonal_matrices() {
    let c = SeriesMatrix::constant(vec![vec![Rational::from_i128(2), Rational::zero()]], 2);
    assert_eq!(c.rows(), 1);
    assert_eq!(c.cols(), 2);
    assert_eq!(c.entry(0, 0), &QSeries::constant(Rational::from_i128(2), 2));
    let d = SeriesMatrix::diagonal(vec![QSeries::one(2), QSeries::q(2)]);
    assert_eq!(d.entry(0, 0), &QSeries::one(2));
    assert_eq!(d.entry(1, 1), &QSeries::q(2));
    assert_eq!(d.entry(0, 1), &QSeries::zero(2));
    assert_eq!(d.sub(&d), SeriesMatrix::zero(2, 2, 2));
    let derivative = d.q_derivative();
    assert_eq!(derivative.entry(1, 1), &QSeries::q(2));
    assert!(derivative.entry(0, 0).is_zero());
    let mut sum = d.clone();
    sum.add_assign(&d);
    assert_eq!(sum.entry(1, 1).coeff(1), Some(&Rational::from_i128(2)));
    assert!(!sum.is_structurally_zero());
    assert_eq!(sum.entries().len(), 2);
}

#[test]
fn integration_inverts_the_q_derivative() {
    let s = QSeries::from_coeffs(vec![Rational::zero(), Rational::new(2, 1), Rational::new(6, 1)]);
    let integral = s.integrate_q_derivative_zero_constant().unwrap();
    let texts: Vec<String> = integral.coeffs().iter().map(|c| c.text()).collect();
    assert_eq!(texts, vec!["0", "2", "3"]);
    assert_eq!(integral.q_derivative(), s);
    let err = QSeries::one(2).integrate_q_derivative_zero_constant().unwrap_err();
    assert_eq!(
        err.message(),
        "algebra failure: cannot integrate q d/dq with nonzero constant term and zero integration constant"
    );
}

#[test]
fn matrix_integration_is_entrywise() {
    let m = SeriesMatrix::from_entries(vec![vec![QSeries::q(2), QSeries::zero(2)]]);
    let integral = integrate_q_derivative_zero_constant_matrix(&m).unwrap();
    assert_eq!(integral.entry(0, 0), &QSeries::q(2));
    assert!(integral.entry(0, 1).is_zero());
    let bad = SeriesMatrix::identity(2, 1);
    assert!(integrate_q_derivative_zero_constant_matrix(&bad).is_err());
}

#[test]
fn series_print_their_nonzero_terms() {
    let one_plus_q = QSeries::one(2).add(&QSeries::q(2));
    assert_eq!(one_plus_q.text(), "1 + (1)*q");
    let s = QSeries::from_coeffs(vec![Rational::zero(), Rational::new(1, 2), Rational::from_i128(-3)]);
    assert_eq!(s.text(), "(1/2)*q + (-3)*q^2");
    assert_eq!(QSeries::zero(3).text(), "0");
}
