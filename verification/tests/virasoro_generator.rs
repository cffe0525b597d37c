use gw_pn::constraints::virasoro::ast::{ConstraintTerm, CorrelatorKey, Descendant, TermOrigin, TimeMonomial};
use gw_pn::constraints::virasoro::generator::{
    generate_constraint, generate_constraint_with_term_limit, MAX_STANDARD_VIRASORO_OPERATOR_INDEX,
    MAX_VIRASORO_MARKINGS,
};
use gw_pn::foundation::error::GwError;
use gw_pn::foundation::gw_theory::GwTheory;
use gw_pn::foundation::rational::Rational;
use gw_pn::foundation::state_space::{
    CharacteristicNumbers, NondegeneratePairing, StateSpace, StateSpaceMatrix,
};
use gw_pn::foundation::theory::{
    BasisElement, BasisId, CurveClass, CurveClassSpace, CurveClassSplit, CurveEffectivity, Parity,
    VirasoroOperatorKind,
};

/// Projective space `P^n` with basis `1, H, ..., H^n`.
struct ProjectiveSpaceTheory {
    n: usize,
    state_space: StateSpace,
    curve_space: CurveClassSpace,
    characteristic: CharacteristicNumbers,
    kind: VirasoroOperatorKind,
}

fn binomial(n: u64, k: u64) -> i128 {
    let mut value: i128 = 1;
    for i in 0..k {
        value = value * (n - i) as i128 / (i + 1) as i128;
    }
    value
}

impl ProjectiveSpaceTheory {
    fn new(n: usize) -> Self {
        let size = n + 1;
        let basis = (0..size)
            .map(|i| BasisElement {
                id: BasisId(i),
                label: if i == 0 { "1".to_string() } else { format!("H^{i}") },
                hodge_p_degree: i,
                complex_codimension: i,
                parity: Parity::Even,
            })
            .collect();
        let metric_rows = (0..size)
            .map(|i| {
                (0..size)
                    .map(|j| if i + j == n { Rational::one() } else { Rational::zero() })
                    .collect()
            })
            .collect();
        let metric = StateSpaceMatrix::try_new(metric_rows).unwrap();
        let c1_rows = (0..size)
            .map(|output| {
                (0..size)
                    .map(|input| {
                        if output == input + 1 {
                            Rational::from_usize(n + 1)
                        } else {
                            Rational::zero()
                        }
                    })
                    .collect()
            })
            .collect();
        let c1 = StateSpaceMatrix::try_new(c1_rows).unwrap();
        let pairing = NondegeneratePairing::try_new(metric.clone(), metric).unwrap();
        let state_space = StateSpace::try_new(basis, BasisId(0), Some(pairing), Some(c1)).unwrap();
        let c1_c = if n == 0 {
            0
        } else {
            (n as i128 + 1) * binomial(n as u64 + 1, n as u64 - 1)
        };
        Self {
            n,
            state_space,
            curve_space: CurveClassSpace {
                coordinate_names: vec!["d".to_string()],
                effective_grading: "degree".to_string(),
            },
            characteristic: CharacteristicNumbers {
                top_chern_integral: Rational::from_usize(n + 1),
                c1_c_dim_minus_one_integral: Rational::from_i128(c1_c),
                convention: "Chern classes of the tangent bundle".to_string(),
                source: "test".to_string(),
            },
            kind: VirasoroOperatorKind::StandardCompactGetzler,
        }
    }

    fn curve(&self, degree: i64) -> CurveClass {
        CurveClass::new(vec![degree])
    }
}

impl GwTheory for ProjectiveSpaceTheory {
    fn theory_id(&self) -> String {
        format!("P^{}", self.n)
    }

    fn target_dimension(&self) -> usize {
        self.n
    }

    fn virasoro_operator_kind(&self) -> VirasoroOperatorKind {
        self.kind
    }

    fn theory_fingerprint(&self) -> String {
        format!("projective-space-{}-test", self.n)
    }

    fn state_space(&self) -> &StateSpace {
        &self.state_space
    }

    fn curve_class_space(&self) -> &CurveClassSpace {
        &self.curve_space
    }

    fn c1_pairing(&self, curve: &CurveClass) -> Result<i64, GwError> {
        self.curve_space.validate(curve)?;
        Ok((self.n as i64 + 1) * curve.coordinates()[0])
    }

    fn effectivity(&self, curve: &CurveClass) -> Result<CurveEffectivity, GwError> {
        self.curve_space.validate(curve)?;
        Ok(if curve.coordinates()[0] >= 0 {
            CurveEffectivity::Effective
        } else {
            CurveEffectivity::Ineffective
        })
    }

    fn characteristic_numbers(&self) -> Option<&CharacteristicNumbers> {
        Some(&self.characteristic)
    }

    fn admissible_decompositions(&self, total: &CurveClass) -> Result<Vec<CurveClassSplit>, GwError> {
        self.curve_space.validate(total)?;
        let d = total.coordinates()[0];
        Ok((0..=d.max(-1))
            .map(|a| CurveClassSplit { left: self.curve(a), right: self.curve(d - a) })
            .collect())
    }

    fn admissible_decomposition_count(&self, total: &CurveClass) -> Result<usize, GwError> {
        self.curve_space.validate(total)?;
        Ok((total.coordinates()[0].max(-1) + 1) as usize)
    }

    fn bounded_admissible_class_count(&self, max_total: usize) -> Result<usize, GwError> {
        Ok(max_total + 1)
    }

    fn bounded_admissible_classes(&self, max_total: usize) -> Result<Vec<CurveClass>, GwError> {
        Ok((0..=max_total as i64).map(|d| self.curve(d)).collect())
    }
}

/// A theory that reports a huge split count and must never be asked for the
/// splits themselves.
struct CountOnlyTheory(ProjectiveSpaceTheory);

impl GwTheory for CountOnlyTheory {
    fn theory_id(&self) -> String {
        "count-only test theory".to_string()
    }
    fn target_dimension(&self) -> usize {
        self.0.target_dimension()
    }
    fn virasoro_operator_kind(&self) -> VirasoroOperatorKind {
        VirasoroOperatorKind::StandardCompactGetzler
    }
    fn theory_fingerprint(&self) -> String {
        "count-only-test-v1".to_string()
    }
    fn state_space(&self) -> &StateSpace {
        self.0.state_space()
    }
    fn curve_class_space(&self) -> &CurveClassSpace {
        self.0.curve_class_space()
    }
    fn c1_pairing(&self, curve: &CurveClass) -> Result<i64, GwError> {
        self.0.c1_pairing(curve)
    }
    fn effectivity(&self, curve: &CurveClass) -> Result<CurveEffectivity, GwError> {
        self.0.effectivity(curve)
    }
    fn characteristic_numbers(&self) -> Option<&CharacteristicNumbers> {
        self.0.characteristic_numbers()
    }
    fn admissible_decompositions(&self, _total: &CurveClass) -> Result<Vec<CurveClassSplit>, GwError> {
        panic!("term-budget rejection must precede decomposition materialization")
    }
    fn admissible_decomposition_count(&self, _total: &CurveClass) -> Result<usize, GwError> {
        Ok(1_000_000)
    }
    fn bounded_admissible_class_count(&self, max_total: usize) -> Result<usize, GwError> {
        self.0.bounded_admissible_class_count(max_total)
    }
    fn bounded_admissible_classes(&self, max_total: usize) -> Result<Vec<CurveClass>, GwError> {
        self.0.bounded_admissible_classes(max_total)
    }
}

/// A state space whose second basis element has an overflowing degree.
struct OverflowGradingTheory {
    state_space: StateSpace,
    curve_space: CurveClassSpace,
}

impl OverflowGradingTheory {
    fn new() -> Self {
        let identity = StateSpaceMatrix::identity(2);
        Self {
            state_space: StateSpace {
                basis: vec![
                    BasisElement {
                        id: BasisId(0),
                        label: "1".to_string(),
                        hodge_p_degree: 0,
                        complex_codimension: 0,
                        parity: Parity::Even,
                    },
                    BasisElement {
                        id: BasisId(1),
                        label: "overflowing class".to_string(),
                        hodge_p_degree: usize::MAX,
                        complex_codimension: usize::MAX,
                        parity: Parity::Even,
                    },
                ],
                unit: BasisId(0),
                pairing: Some(NondegeneratePairing { metric: identity.clone(), inverse: identity }),
                c1_action: Some(StateSpaceMatrix::zero(2)),
            },
            curve_space: CurveClassSpace {
                coordinate_names: Vec::new(),
                effective_grading: "zero".to_string(),
            },
        }
    }
}

impl GwTheory for OverflowGradingTheory {
    fn theory_id(&self) -> String {
        "overflow-grading test theory".to_string()
    }
    fn target_dimension(&self) -> usize {
        0
    }
    fn virasoro_operator_kind(&self) -> VirasoroOperatorKind {
        VirasoroOperatorKind::StandardCompactGetzler
    }
    fn theory_fingerprint(&self) -> String {
        "overflow-grading-test-v1".to_string()
    }
    fn state_space(&self) -> &StateSpace {
        &self.state_space
    }
    fn curve_class_space(&self) -> &CurveClassSpace {
        &self.curve_space
    }
    fn c1_pairing(&self, curve: &CurveClass) -> Result<i64, GwError> {
        self.curve_space.validate(curve)?;
        Ok(0)
    }
    fn effectivity(&self, curve: &CurveClass) -> Result<CurveEffectivity, GwError> {
        self.curve_space.validate(curve)?;
        Ok(CurveEffectivity::Effective)
    }
    fn characteristic_numbers(&self) -> Option<&CharacteristicNumbers> {
        None
    }
    fn admissible_decompositions(&self, total: &CurveClass) -> Result<Vec<CurveClassSplit>, GwError> {
        self.curve_space.validate(total)?;
        Ok(vec![CurveClassSplit { left: CurveClass::zero(0), right: CurveClass::zero(0) }])
    }
    fn admissible_decomposition_count(&self, total: &CurveClass) -> Result<usize, GwError> {
        self.curve_space.validate(total)?;
        Ok(1)
    }
    fn bounded_admissible_class_count(&self, _max_total: usize) -> Result<usize, GwError> {
        Ok(1)
    }
    fn bounded_admissible_classes(&self, _max_total: usize) -> Result<Vec<CurveClass>, GwError> {
        Ok(vec![CurveClass::zero(0)])
    }
}

fn descendants(items: &[(usize, usize)]) -> Vec<Descendant> {
    items.iter().map(|(psi, class)| Descendant::new(*psi, BasisId(*class))).collect()
}

#[test]
fn quadratic_grading_precedes_metric_index_raising() {
    let p1 = ProjectiveSpaceTheory::new(1);
    let constraint = generate_constraint(
        &p1,
        2,
        1,
        p1.curve(0),
        TimeMonomial::from_descendants(descendants(&[(0, 0), (0, 0)])),
    )
    .unwrap();
    let expected = CorrelatorKey::new(0, p1.curve(0), descendants(&[(0, 0), (0, 0), (0, 1), (0, 1)]));
    assert!(constraint.terms.iter().any(|term| matches!(
        term,
        ConstraintTerm::Linear(term)
            if term.origin == TermOrigin::GenusReduction
                && term.correlator == expected
                && term.coefficient == Rational::one()
    )));
}

#[test]
fn generator_caps_operator_polynomial_work() {
    let point = ProjectiveSpaceTheory::new(0);
    let error = generate_constraint(
        &point,
        i32::try_from(MAX_STANDARD_VIRASORO_OPERATOR_INDEX + 1).unwrap(),
        0,
        point.curve(0),
        TimeMonomial::one(),
    )
    .unwrap_err();
    assert!(matches!(error, GwError::ResourceLimit { requested: 65, limit: 64, .. }));
}

#[test]
fn point_l0_genus_one_constant_has_anomaly_and_tau_one() {
    let point = ProjectiveSpaceTheory::new(0);
    let constraint = generate_constraint(&point, 0, 1, point.curve(0), TimeMonomial::one()).unwrap();
    assert!(constraint.terms.iter().any(|term| matches!(
        term,
        ConstraintTerm::Constant { coefficient, .. } if coefficient == &Rational::new(1, 16)
    )));
    assert!(constraint.terms.iter().any(|term| matches!(
        term,
        ConstraintTerm::Linear(term)
            if term.coefficient == Rational::new(-3, 2)
                && term.correlator.insertions() == [Descendant::new(1, BasisId(0))]
    )));
}

#[test]
fn string_constraint_has_explicit_unstable_correction() {
    let point = ProjectiveSpaceTheory::new(0);
    let time = TimeMonomial::from_descendants(descendants(&[(0, 0), (0, 0)]));
    let constraint = generate_constraint(&point, -1, 0, point.curve(0), time).unwrap();
    assert!(constraint.terms.iter().any(|term| matches!(
        term,
        ConstraintTerm::Constant { coefficient, .. } if coefficient == &Rational::one()
    )));
}

#[test]
fn local_theory_is_not_misidentified_as_compact() {
    let mut local = ProjectiveSpaceTheory::new(2);
    local.kind = VirasoroOperatorKind::QrrConjugatedRequired;
    let error = generate_constraint(&local, 0, 0, CurveClass::new(vec![0]), TimeMonomial::one()).unwrap_err();
    assert!(matches!(error, GwError::UnsupportedFeature { .. }));
    assert!(error.message().contains("QRR"));
}

#[test]
fn final_c1_power_uses_primary_derivative_without_unsigned_underflow() {
    let p1 = ProjectiveSpaceTheory::new(1);
    let constraint = generate_constraint(&p1, 0, 0, p1.curve(0), TimeMonomial::one()).unwrap();
    assert!(constraint.terms.iter().any(|term| matches!(
        term,
        ConstraintTerm::Linear(term) if term.correlator.insertions() == [Descendant::new(0, BasisId(1))]
    )));
}

#[test]
fn repeated_markings_are_aggregated_with_labelled_multiplicity() {
    let point = ProjectiveSpaceTheory::new(0);
    let time = TimeMonomial::from_descendants(descendants(&[(0, 0), (0, 0), (0, 0), (0, 0)]));
    let constraint = generate_constraint(&point, 1, 0, point.curve(0), time).unwrap();
    assert!(constraint.terms.iter().any(|term| matches!(
        term,
        ConstraintTerm::Linear(term)
            if term.coefficient == Rational::from_i128(3)
                && term.correlator.insertions().len() == 4
                && term.correlator.insertions()[3].psi_power == 1
    )));
    assert!(constraint.terms.iter().any(|term| matches!(
        term,
        ConstraintTerm::Quadratic(term) if term.origin == TermOrigin::DegreeSplitting
    )));
}

#[test]
fn positive_genus_l1_contains_genus_reduction() {
    let point = ProjectiveSpaceTheory::new(0);
    let constraint = generate_constraint(
        &point,
        1,
        1,
        point.curve(0),
        TimeMonomial::from_descendants(descendants(&[(0, 0)])),
    )
    .unwrap();
    assert!(constraint.terms.iter().any(|term| matches!(
        term,
        ConstraintTerm::Linear(term) if term.origin == TermOrigin::GenusReduction
    )));
}

#[test]
fn string_term_budget_rejects_multiplicity_overflow_before_expansion() {
    let point = ProjectiveSpaceTheory::new(0);
    let time = TimeMonomial::try_from_factors(vec![(Descendant::new(0, BasisId(0)), usize::MAX)]).unwrap();
    let error = generate_constraint_with_term_limit(&point, -1, 0, point.curve(0), time, usize::MAX).unwrap_err();
    assert!(matches!(error, GwError::UnsupportedInvariant(_)));
    assert!(error.message().contains("size overflow"));
}

#[test]
fn large_projective_string_constraint_obeys_term_budget_before_validation() {
    let projective = ProjectiveSpaceTheory::new(100);
    let error = generate_constraint_with_term_limit(&projective, -1, 0, projective.curve(0), TimeMonomial::one(), 1)
        .unwrap_err();
    assert!(matches!(error, GwError::ResourceLimit { requested: 2, limit: 1, .. }));
}

#[test]
fn overflowing_public_grading_is_rejected_without_panicking() {
    let theory = OverflowGradingTheory::new();
    let error = generate_constraint(&theory, -1, 0, CurveClass::zero(0), TimeMonomial::one()).unwrap_err();
    assert!(matches!(error, GwError::ConventionMismatch(_)));
    assert!(error.message().contains("complex grading"));
}

#[test]
fn marking_cap_precedes_labelled_time_allocation() {
    let point = ProjectiveSpaceTheory::new(0);
    let time = TimeMonomial::try_from_factors(vec![(Descendant::new(0, BasisId(0)), usize::MAX - 2)]).unwrap();
    let error = generate_constraint_with_term_limit(&point, -1, 0, point.curve(0), time, usize::MAX).unwrap_err();
    assert!(matches!(
        error,
        GwError::ResourceLimit { requested, limit: MAX_VIRASORO_MARKINGS, .. } if requested == usize::MAX - 2
    ));
}

#[test]
fn nonnegative_operator_checks_marking_cap_before_quadratic_cloning() {
    let point = ProjectiveSpaceTheory::new(0);
    let time = TimeMonomial::try_from_factors(vec![(Descendant::new(0, BasisId(0)), MAX_VIRASORO_MARKINGS + 1)])
        .unwrap();
    let error = generate_constraint_with_term_limit(&point, 0, 0, point.curve(0), time, usize::MAX).unwrap_err();
    assert!(matches!(
        error,
        GwError::ResourceLimit { requested, limit: MAX_VIRASORO_MARKINGS, .. } if requested == MAX_VIRASORO_MARKINGS + 1
    ));
}

#[test]
fn term_budget_precedes_curve_split_materialization() {
    let theory = CountOnlyTheory(ProjectiveSpaceTheory::new(0));
    let error = generate_constraint_with_term_limit(&theory, 1, 0, theory.0.curve(0), TimeMonomial::one(), 100)
        .unwrap_err();
    assert!(matches!(error, GwError::ResourceLimit { limit: 100, .. }));
}

#[test]
fn l0_does_not_materialize_unused_labelled_partitions() {
    let point = ProjectiveSpaceTheory::new(0);
    let time = TimeMonomial::try_from_factors(vec![(Descendant::new(0, BasisId(0)), 20)]).unwrap();
    let constraint = generate_constraint_with_term_limit(&point, 0, 0, point.curve(0), time, 50).unwrap();
    assert!(!constraint.terms.is_empty());
}

#[test]
fn string_equation_of_the_point_lists_its_terms() {
    let point = ProjectiveSpaceTheory::new(0);
    let time = TimeMonomial::from_descendants(descendants(&[(1, 0), (0, 0)]));
    let constraint = generate_constraint(&point, -1, 0, point.curve(0), time).unwrap();
    // -<tau_0 tau_0 tau_1> + <tau_0 tau_0>: the first marking's psi lowered.
    assert_eq!(constraint.terms.len(), 2);
    assert!(constraint.terms.iter().all(|term| !matches!(term, ConstraintTerm::Constant { .. })));
    assert_eq!(constraint.operator.index, -1);
    assert_eq!(constraint.sector.genus, 0);
}

#[test]
fn generated_equation_stays_within_its_term_limit() {
    let projective = ProjectiveSpaceTheory::new(1);
    let time = TimeMonomial::try_from_factors(vec![(Descendant::new(0, BasisId(1)), 2)]).unwrap();
    for k in -1..=2 {
        let constraint =
            generate_constraint_with_term_limit(&projective, k, 0, projective.curve(1), time.clone(), 10_000).unwrap();
        assert!(constraint.terms.len() <= 10_000);
    }
    let string = generate_constraint_with_term_limit(&projective, -1, 0, projective.curve(0), time.clone(), 4).unwrap();
    assert!(string.terms.len() <= 4);
}
