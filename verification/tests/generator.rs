use gw_pn::constraints::virasoro::ast::{Descendant, TimeMonomial};
use gw_pn::constraints::virasoro::generator::{
    enforce_term_budget, expand_time_coefficient, getzler_bracket, labelled_marking_splits,
    validate_compact_virasoro_data, DEFAULT_GENERATED_TERM_LIMIT,
    MAX_STANDARD_VIRASORO_OPERATOR_INDEX, MAX_VIRASORO_MARKINGS,
};
use gw_pn::foundation::error::GwError;
use gw_pn::foundation::rational::Rational;
use gw_pn::foundation::state_space::{NondegeneratePairing, StateSpace, StateSpaceMatrix};
use gw_pn::foundation::theory::{BasisElement, BasisId, Parity};

fn matrix(rows: &[&[i128]]) -> StateSpaceMatrix {
    StateSpaceMatrix::try_new(
        rows.iter()
            .map(|row| row.iter().map(|value| Rational::from_i128(*value)).collect())
            .collect(),
    )
    .unwrap()
}

fn projective_line() -> StateSpace {
    let basis = (0..2)
        .map(|index| BasisElement {
            id: BasisId(index),
            label: format!("H^{index}"),
            hodge_p_degree: index,
            complex_codimension: index,
            parity: Parity::Even,
        })
        .collect();
    let metric = matrix(&[&[0, 1], &[1, 0]]);
    let pairing = NondegeneratePairing::try_new(metric.clone(), metric).unwrap();
    let c1 = matrix(&[&[0, 0], &[2, 0]]);
    StateSpace::try_new(basis, BasisId(0), Some(pairing), Some(c1)).unwrap()
}

#[test]
fn getzler_brackets_match_defining_polynomial() {
    let x = Rational::new(1, 2);
    assert_eq!(getzler_bracket(x.clone(), 1, 0).unwrap(), Rational::new(3, 4));
    assert_eq!(getzler_bracket(x.clone(), 1, 1).unwrap(), Rational::from_i128(2));
    assert_eq!(getzler_bracket(x, 1, 2).unwrap(), Rational::one());
}

#[test]
fn getzler_bracket_rejects_index_overflow() {
    assert!(matches!(
        getzler_bracket(Rational::zero(), usize::MAX, 0),
        Err(GwError::UnsupportedInvariant(_))
    ));
}

#[test]
fn getzler_bracket_vanishes_beyond_the_top_index() {
    assert_eq!(getzler_bracket(Rational::new(5, 3), 2, 4).unwrap(), Rational::zero());
    // e_3(0, 1, 2) = 0 and e_2(0, 1, 2) = 2.
    assert_eq!(getzler_bracket(Rational::zero(), 2, 0).unwrap(), Rational::zero());
    assert_eq!(getzler_bracket(Rational::zero(), 2, 1).unwrap(), Rational::from_i128(2));
}

#[test]
fn generation_guards_have_their_documented_values() {
    assert_eq!(DEFAULT_GENERATED_TERM_LIMIT, 1_000_000);
    assert_eq!(MAX_STANDARD_VIRASORO_OPERATOR_INDEX, 64);
    assert_eq!(MAX_VIRASORO_MARKINGS, 64);
}

#[test]
fn term_budget_counts_linear_and_quadratic_slots() {
    // k=1, genus 1, two markings, four basis elements, three curve splits:
    // linear 3*4*3 = 36; pairs 1; 16 basis pairs; 1 + 2*3*4 = 25 -> 400; total 438.
    assert!(enforce_term_budget(1, 1, 2, 4, 3, 438).is_ok());
    match enforce_term_budget(1, 1, 2, 4, 3, 437) {
        Err(GwError::ResourceLimit { operation, requested, limit }) => {
            assert_eq!(operation, "Virasoro coefficient expansion upper bound");
            assert_eq!(requested, 438);
            assert_eq!(limit, 437);
        }
        other => panic!("unexpected {other:?}"),
    }
    assert!(matches!(
        enforce_term_budget(usize::MAX, 0, 0, 1, 0, usize::MAX),
        Err(GwError::UnsupportedInvariant(_))
    ));
    assert!(matches!(
        enforce_term_budget(2, 0, 200, 1, 1, usize::MAX),
        Err(GwError::UnsupportedInvariant(_))
    ));
}

#[test]
fn time_coefficients_expand_to_labelled_insertions() {
    let a = Descendant::new(0, BasisId(1));
    let b = Descendant::new(2, BasisId(0));
    let monomial = TimeMonomial::try_from_factors(vec![(b, 1), (a, 2)]).unwrap();
    assert_eq!(expand_time_coefficient(&monomial).unwrap(), vec![a, a, b]);
    assert!(expand_time_coefficient(&TimeMonomial::one()).unwrap().is_empty());
}

#[test]
fn marking_splits_enumerate_every_labelled_partition() {
    let a = Descendant::new(0, BasisId(0));
    let b = Descendant::new(1, BasisId(1));
    let splits = labelled_marking_splits(&[a, b], 4).unwrap();
    assert_eq!(
        splits,
        vec![
            (vec![a, b], vec![]),
            (vec![a], vec![b]),
            (vec![b], vec![a]),
            (vec![], vec![a, b]),
        ]
    );
    match labelled_marking_splits(&[a, b], 3) {
        Err(GwError::ResourceLimit { requested, limit, .. }) => {
            assert_eq!((requested, limit), (4, 3));
        }
        other => panic!("unexpected {other:?}"),
    }
}

#[test]
fn projective_line_data_passes_compact_validation() {
    let state = projective_line();
    assert!(validate_compact_virasoro_data(&state, 1, Some(Rational::zero())).is_ok());
    match validate_compact_virasoro_data(&state, 1, Some(Rational::new(1, 48))) {
        Err(GwError::ConventionMismatch(message)) => assert_eq!(
            message,
            "canonical-theory characteristic anomaly 1/48 disagrees with the grading identity 0"
        ),
        other => panic!("unexpected {other:?}"),
    }
    assert!(matches!(
        validate_compact_virasoro_data(&state, 1, None),
        Err(GwError::UnsupportedInvariant(_))
    ));
}

#[test]
fn compact_validation_refuses_a_grading_violation() {
    let state = projective_line();
    match validate_compact_virasoro_data(&state, 2, Some(Rational::zero())) {
        Err(GwError::ConventionMismatch(message)) => {
            assert_eq!(message, "nonzero Poincare pairing violates the complex grading")
        }
        other => panic!("unexpected {other:?}"),
    }
    let local = StateSpace { pairing: None, ..state };
    assert!(matches!(
        validate_compact_virasoro_data(&local, 1, Some(Rational::zero())),
        Err(GwError::UnsupportedInvariant(_))
    ));
}
