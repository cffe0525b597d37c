use gw_pn::foundation::error::GwError;
use gw_pn::foundation::rational::Rational;
use gw_pn::foundation::state_space::{
    CharacteristicNumbers, NondegeneratePairing, StateSpace, StateSpaceMatrix,
};
use gw_pn::foundation::theory::{BasisElement, BasisId, Parity};

fn matrix(rows: &[&[i128]]) -> StateSpaceMatrix {
    StateSpaceMatrix::try_new(
        rows.iter()
            .map(|row| row.iter().map(|value| Rational::from_i128(*value)).collect())
            .collect(),
    )
    .unwrap()
}

fn basis_element(index: usize, degree: usize) -> BasisElement {
    BasisElement {
        id: BasisId(index),
        label: format!("H^{index}"),
        hodge_p_degree: degree,
        complex_codimension: degree,
        parity: Parity::Even,
    }
}

#[test]
fn characteristic_anomaly_uses_wide_dimension_arithmetic() {
    let numbers = CharacteristicNumbers {
        top_chern_integral: Rational::one(),
        c1_c_dim_minus_one_integral: Rational::zero(),
        convention: "test".to_string(),
        source: "test".to_string(),
    };
    assert_eq!(
        numbers.virasoro_anomaly(usize::MAX),
        Rational::new(3i128 - usize::MAX as i128, 48)
    );
    assert_eq!(
        StateSpaceMatrix::try_identity(2).unwrap(),
        StateSpaceMatrix::identity(2)
    );
}

#[test]
fn projective_line_anomaly_vanishes() {
    let numbers = CharacteristicNumbers {
        top_chern_integral: Rational::from_i128(2),
        c1_c_dim_minus_one_integral: Rational::from_i128(2),
        convention: "P^1".to_string(),
        source: "test".to_string(),
    };
    assert_eq!(numbers.virasoro_anomaly(1), Rational::zero());
    let point = CharacteristicNumbers {
        top_chern_integral: Rational::one(),
        c1_c_dim_minus_one_integral: Rational::zero(),
        convention: "point".to_string(),
        source: "test".to_string(),
    };
    assert_eq!(point.virasoro_anomaly(0), Rational::new(1, 16));
}

#[test]
fn non_square_tables_are_refused() {
    let result = StateSpaceMatrix::try_new(vec![vec![Rational::one(), Rational::zero()]]);
    assert!(matches!(result, Err(GwError::ConventionMismatch(_))));
}

#[test]
fn matrix_product_is_exact() {
    let a = matrix(&[&[1, 2], &[3, 4]]);
    let b = matrix(&[&[0, 1], &[1, 0]]);
    let product = a.multiply(&b).unwrap();
    assert_eq!(product, matrix(&[&[2, 1], &[4, 3]]));
    assert_eq!(product.entry(1, 0), &Rational::from_i128(4));
    let mismatched = a.multiply(&StateSpaceMatrix::identity(3));
    assert!(matches!(mismatched, Err(GwError::ConventionMismatch(_))));
}

#[test]
fn set_entry_replaces_one_cell() {
    let mut m = StateSpaceMatrix::zero(2);
    m.set_entry(0, 1, Rational::new(1, 2));
    assert_eq!(m.entry(0, 1), &Rational::new(1, 2));
    assert_eq!(m.entry(1, 0), &Rational::zero());
    assert_eq!(m.size(), 2);
}

#[test]
fn pairing_inverse_is_checked_exactly() {
    let metric = matrix(&[&[0, 1], &[1, 0]]);
    let good = NondegeneratePairing::try_new(metric.clone(), matrix(&[&[0, 1], &[1, 0]]));
    assert!(good.is_ok());
    let bad = NondegeneratePairing::try_new(metric.clone(), matrix(&[&[1, 0], &[0, 1]]));
    match bad {
        Err(GwError::ConventionMismatch(message)) => {
            assert_eq!(message, "claimed inverse Poincare pairing is not an inverse")
        }
        other => panic!("unexpected {other:?}"),
    }
    let sized = NondegeneratePairing::try_new(metric, StateSpaceMatrix::identity(3));
    assert!(matches!(sized, Err(GwError::ConventionMismatch(_))));
}

#[test]
fn state_space_requires_dense_ids_and_unit() {
    let basis = vec![basis_element(0, 0), basis_element(1, 1)];
    assert!(StateSpace::try_new(basis.clone(), BasisId(0), None, None).is_ok());
    assert!(matches!(
        StateSpace::try_new(Vec::new(), BasisId(0), None, None),
        Err(GwError::ConventionMismatch(_))
    ));
    assert!(matches!(
        StateSpace::try_new(basis.clone(), BasisId(2), None, None),
        Err(GwError::ConventionMismatch(_))
    ));
    let shuffled = vec![basis_element(1, 1), basis_element(0, 0)];
    assert!(matches!(
        StateSpace::try_new(shuffled, BasisId(0), None, None),
        Err(GwError::ConventionMismatch(_))
    ));
    let state = StateSpace::try_new(basis, BasisId(0), None, Some(StateSpaceMatrix::zero(2))).unwrap();
    assert_eq!(state.element(BasisId(1)).unwrap().hodge_p_degree, 1);
    assert!(state.element(BasisId(2)).is_none());
}
