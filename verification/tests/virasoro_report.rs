use gw_pn::constraints::virasoro::ast::{CorrelatorKey, Descendant};
use gw_pn::constraints::virasoro::report::{
    EvaluatedTerm, IncompleteReason, MissingCorrelator, ResidualOutcome, ResidualReport,
    ResidualStatus,
};
use gw_pn::foundation::theory::{BasisId, CurveClass};

fn degree(d: i64) -> CurveClass {
    CurveClass::new(vec![d])
}

#[test]
fn incomplete_term_accounting_can_never_pass() {
    let report = ResidualReport::<i32>::verified_zero(
        0,
        2,
        vec![EvaluatedTerm { term_index: 0, exact_contribution: 7 }],
    );
    assert_eq!(report.status(), ResidualStatus::Incomplete);
    assert!(!report.is_complete());
    assert!(matches!(report.outcome(), ResidualOutcome::Incomplete { .. }));
    assert!(report.notes()[0].contains("every constraint term"));
}

#[test]
fn missing_correlator_is_explicitly_incomplete() {
    let missing = MissingCorrelator {
        correlator: CorrelatorKey::new(2, degree(3), vec![Descendant::new(1, BasisId(0))]),
        reason: IncompleteReason::OutsideBounds,
    };
    let report = ResidualReport::<i32>::incomplete(Some(5), 1, Vec::new(), vec![missing.clone()]);
    assert_eq!(report.status(), ResidualStatus::Incomplete);
    assert_eq!(report.missing_correlators(), &[missing]);
    assert_eq!(report.outcome().exact_residual(), None);
    assert_eq!(report.exact_residual(), None);
}

#[test]
fn exact_complete_residual_has_a_decisive_status() {
    let evaluated = vec![EvaluatedTerm { term_index: 0, exact_contribution: 0 }];
    let zero = ResidualReport::<i32>::verified_zero(0, 1, evaluated.clone());
    let nonzero = ResidualReport::<i32>::nonzero(4, 1, evaluated);
    assert_eq!(zero.status(), ResidualStatus::VerifiedZero);
    assert_eq!(zero.outcome().exact_residual(), Some(&0));
    assert_eq!(zero.exact_residual(), Some(&0));
    assert_eq!(nonzero.status(), ResidualStatus::Nonzero);
    assert_eq!(nonzero.outcome().exact_residual(), Some(&4));
    assert_eq!(nonzero.exact_residual(), Some(&4));
}

#[test]
fn dependency_coverage_counts_its_two_resolution_sources() {
    let backend = CorrelatorKey::new(0, degree(0), vec![Descendant::new(0, BasisId(0))]);
    let structural = CorrelatorKey::new(0, degree(0), Vec::new());
    let report = ResidualReport::<i32>::verified_zero(
        0,
        1,
        vec![EvaluatedTerm { term_index: 0, exact_contribution: 0 }],
    )
    .with_dependency_coverage(vec![backend.clone()], vec![structural.clone()]);

    assert_eq!(report.backend_correlators(), &[backend]);
    assert_eq!(report.structural_zero_correlators(), &[structural]);
    assert_eq!(report.backend_correlator_count(), 1);
    assert_eq!(report.structural_zero_correlator_count(), 1);
    assert_eq!(report.resolved_correlator_count(), 2);
    assert_eq!(report.missing_correlator_count(), 0);
    assert_eq!(report.dependency_count(), 2);
}

#[test]
fn truncated_dependency_metadata_forces_an_incomplete_outcome() {
    let report = ResidualReport::<i32>::verified_zero(0, 0, Vec::new())
        .with_truncated_dependency_closure(0);

    assert!(report.dependency_closure_truncated());
    assert_eq!(report.status(), ResidualStatus::Incomplete);
    assert!(!report.is_complete());
    assert!(matches!(
        report.outcome(),
        ResidualOutcome::Incomplete { exact_partial_sum: Some(0) }
    ));
    assert_eq!(report.exact_residual(), None);
    assert!(report
        .notes()
        .iter()
        .any(|note| note.contains("dependency closure truncated at 0")));
}
