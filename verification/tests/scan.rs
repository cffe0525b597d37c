use gw_pn::constraints::virasoro::scan::{derive_dependency_bounds, scan_bounds_from_request};
use gw_pn::constraints::virasoro::ast::{CorrelatorKey, Descendant};
use gw_pn::constraints::virasoro::evaluator::CorrelatorEvaluationBounds;
use gw_pn::constraints::virasoro::scan::{
    multiset_profile_count, VirasoroScanBounds, MAX_VIRASORO_SCAN_MARKINGS,
};
use gw_pn::foundation::error::GwError;
use gw_pn::foundation::theory::{BasisId, CurveClass};

#[test]
fn small_scan_bounds_are_the_documented_defaults() {
    let bounds = VirasoroScanBounds::small();
    assert_eq!((bounds.operator_min, bounds.operator_max), (-1, 1));
    assert_eq!(bounds.markings_max, 2);
    assert_eq!(bounds.correlator_bounds.max_markings, Some(4));
    assert_eq!(MAX_VIRASORO_SCAN_MARKINGS, 20);
}

#[test]
fn profile_count_sums_multiset_coefficients() {
    // 1 + 2 + 3 monomials of degree at most two in two atoms.
    assert_eq!(multiset_profile_count(2, 2).unwrap(), 6);
    // 1 + 3 + 6 + 10 in three atoms up to degree three.
    assert_eq!(multiset_profile_count(3, 3).unwrap(), 20);
    assert_eq!(multiset_profile_count(0, 5).unwrap(), 1);
    assert_eq!(multiset_profile_count(7, 0).unwrap(), 1);
    assert!(matches!(
        multiset_profile_count(usize::MAX, 2),
        Err(GwError::UnsupportedInvariant(_))
    ));
}

#[test]
fn correlator_bounds_filter_genus_markings_and_powers() {
    let key = CorrelatorKey::new(
        1,
        CurveClass::new(vec![0]),
        vec![Descendant::new(3, BasisId(0)), Descendant::new(0, BasisId(1))],
    );
    assert!(CorrelatorEvaluationBounds::unbounded().contains(&key));
    assert!(CorrelatorEvaluationBounds::default().contains(&key));
    let bounds = VirasoroScanBounds::small().correlator_bounds;
    assert!(!bounds.contains(&key));
    let shallow = CorrelatorEvaluationBounds { max_descendant_power: Some(3), ..bounds };
    assert!(shallow.contains(&key));
    let flat = CorrelatorEvaluationBounds { max_genus: Some(0), ..shallow };
    assert!(!flat.contains(&key));
}

#[test]
fn dependency_bounds_are_derived_from_scan_bounds() {
    assert_eq!(derive_dependency_bounds(2, 1, 1, None, None).unwrap(), (4, 2));
    assert_eq!(derive_dependency_bounds(2, 0, 3, None, None).unwrap(), (4, 4));
    assert_eq!(derive_dependency_bounds(2, 5, -1, None, None).unwrap(), (4, 5));
    assert_eq!(derive_dependency_bounds(2, 5, 3, Some(7), Some(9)).unwrap(), (7, 9));
    match derive_dependency_bounds(usize::MAX, 0, 0, None, None) {
        Err(GwError::UnsupportedInvariant(m)) => {
            assert_eq!(m, "dependency marking bound derived from --markings-max overflowed")
        },
        other => panic!("unexpected {other:?}"),
    }
    match derive_dependency_bounds(0, usize::MAX, 1, None, None) {
        Err(GwError::UnsupportedInvariant(m)) => {
            assert_eq!(m, "dependency descendant bound derived from scan bounds overflowed")
        },
        other => panic!("unexpected {other:?}"),
    }
}

#[test]
fn request_bounds_carry_the_derived_dependency_envelope() {
    let bounds = scan_bounds_from_request(-1, 2, 1, 3, 2, 1, 500, 1_000, 10_000, None, None, 77).unwrap();
    assert_eq!(bounds.operator_min, -1);
    assert_eq!(bounds.operator_max, 2);
    assert_eq!(bounds.genus_max, 1);
    assert_eq!(bounds.degree_grading_max, 3);
    assert_eq!(bounds.equation_limit, 500);
    assert_eq!(bounds.generated_term_limit, 1_000);
    assert_eq!(bounds.total_generated_term_limit, 10_000);
    assert_eq!(
        bounds.correlator_bounds,
        CorrelatorEvaluationBounds {
            max_genus: Some(1),
            max_markings: Some(4),
            max_descendant_power: Some(3),
            dependency_limit: 77,
        }
    );
    let error = scan_bounds_from_request(0, 1, 0, 0, usize::MAX, 0, 1, 1, 1, None, Some(1), 1).unwrap_err();
    assert!(matches!(error, GwError::UnsupportedInvariant(_)));
}
