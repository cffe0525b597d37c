use std::cell::Cell;

use gw_pn::constraints::virasoro::ast::{
    ConstraintTerm, CorrelatorKey, Descendant, LinearTerm, QuadraticTerm, TermOrigin, TimeMonomial, VirasoroConstraint,
};
use gw_pn::constraints::virasoro::evaluator::{
    evaluate_constraint, evaluate_constraint_with_bounds, CanonicalCorrelatorEvaluator,
    CorrelatorEvaluationBounds,
};
use gw_pn::constraints::virasoro::generator::generate_constraint;
use gw_pn::constraints::virasoro::notation::{named_degree, CanonicalTheoryNotation};
use gw_pn::constraints::virasoro::render::ConstraintNotation;
use gw_pn::constraints::virasoro::scan::{
    descendant_profiles, scan_constraints, VirasoroScanBounds, MAX_VIRASORO_SCAN_MARKINGS,
};
use gw_pn::constraints::virasoro::report::{IncompleteReason, ResidualStatus};
use gw_pn::foundation::error::GwError;
use gw_pn::foundation::gw_theory::GwTheory;
use gw_pn::foundation::rational::Rational;
use gw_pn::foundation::state_space::{
    CharacteristicNumbers, NondegeneratePairing, StateSpace, StateSpaceMatrix,
};
use gw_pn::foundation::theory::{
    BasisElement, BasisId, CurveClass, CurveClassSpace, CurveClassSplit, CurveEffectivity, Parity,
    VirasoroOperatorKind,
};

/// Projective space `P^n` with basis `1, H, ..., H^n`.
struct ProjectiveSpaceTheory {
    n: usize,
    state_space: StateSpace,
    curve_space: CurveClassSpace,
    characteristic: CharacteristicNumbers,
    kind: VirasoroOperatorKind,
}

fn binomial(n: u64, k: u64) -> i128 {
    let mut value: i128 = 1;
    for i in 0..k {
        value = value * (n - i) as i128 / (i + 1) as i128;
    }
    value
}

impl ProjectiveSpaceTheory {
    fn new(n: usize) -> Self {
        let size = n + 1;
        let basis = (0..size)
            .map(|i| BasisElement {
                id: BasisId(i),
                label: if i == 0 { "1".to_string() } else { format!("H^{i}") },
                hodge_p_degree: i,
                complex_codimension: i,
                parity: Parity::Even,
            })
            .collect();
        let metric_rows = (0..size)
            .map(|i| {
                (0..size)
                    .map(|j| if i + j == n { Rational::one() } else { Rational::zero() })
                    .collect()
            })
            .collect();
        let metric = StateSpaceMatrix::try_new(metric_rows).unwrap();
        let c1_rows = (0..size)
            .map(|output| {
                (0..size)
                    .map(|input| {
                        if output == input + 1 {
                            Rational::from_usize(n + 1)
                        } else {
                            Rational::zero()
                        }
                    })
                    .collect()
            })
            .collect();
        let c1 = StateSpaceMatrix::try_new(c1_rows).unwrap();
        let pairing = NondegeneratePairing::try_new(metric.clone(), metric).unwrap();
        let state_space = StateSpace::try_new(basis, BasisId(0), Some(pairing), Some(c1)).unwrap();
        let c1_c = if n == 0 {
            0
        } else {
            (n as i128 + 1) * binomial(n as u64 + 1, n as u64 - 1)
        };
        Self {
            n,
            state_space,
            curve_space: CurveClassSpace {
                coordinate_names: vec!["d".to_string()],
                effective_grading: "degree".to_string(),
            },
            characteristic: CharacteristicNumbers {
                top_chern_integral: Rational::from_usize(n + 1),
                c1_c_dim_minus_one_integral: Rational::from_i128(c1_c),
                convention: "Chern classes of the tangent bundle".to_string(),
                source: "test".to_string(),
            },
            kind: VirasoroOperatorKind::StandardCompactGetzler,
        }
    }

    fn curve(&self, degree: i64) -> CurveClass {
        CurveClass::new(vec![degree])
    }
}

impl GwTheory for ProjectiveSpaceTheory {
    fn theory_id(&self) -> String {
        format!("P^{}", self.n)
    }

    fn target_dimension(&self) -> usize {
        self.n
    }

    fn virasoro_operator_kind(&self) -> VirasoroOperatorKind {
        self.kind
    }

    fn theory_fingerprint(&self) -> String {
        format!("projective-space-{}-test", self.n)
    }

    fn state_space(&self) -> &StateSpace {
        &self.state_space
    }

    fn curve_class_space(&self) -> &CurveClassSpace {
        &self.curve_space
    }

    fn c1_pairing(&self, curve: &CurveClass) -> Result<i64, GwError> {
        self.curve_space.validate(curve)?;
        Ok((self.n as i64 + 1) * curve.coordinates()[0])
    }

    fn effectivity(&self, curve: &CurveClass) -> Result<CurveEffectivity, GwError> {
        self.curve_space.validate(curve)?;
        Ok(if curve.coordinates()[0] >= 0 {
            CurveEffectivity::Effective
        } else {
            CurveEffectivity::Ineffective
        })
    }

    fn characteristic_numbers(&self) -> Option<&CharacteristicNumbers> {
        Some(&self.characteristic)
    }

    fn admissible_decompositions(&self, total: &CurveClass) -> Result<Vec<CurveClassSplit>, GwError> {
        self.curve_space.validate(total)?;
        let d = total.coordinates()[0];
        Ok((0..=d.max(-1))
            .map(|a| CurveClassSplit { left: self.curve(a), right: self.curve(d - a) })
            .collect())
    }

    fn admissible_decomposition_count(&self, total: &CurveClass) -> Result<usize, GwError> {
        self.curve_space.validate(total)?;
        Ok((total.coordinates()[0].max(-1) + 1) as usize)
    }

    fn bounded_admissible_class_count(&self, max_total: usize) -> Result<usize, GwError> {
        // The point has no curves of positive degree.
        Ok(if self.n == 0 { 1 } else { max_total + 1 })
    }

    fn bounded_admissible_classes(&self, max_total: usize) -> Result<Vec<CurveClass>, GwError> {
        if self.n == 0 {
            return Ok(vec![self.curve(0)]);
        }
        Ok((0..=max_total as i64).map(|d| self.curve(d)).collect())
    }
}


/// Descendant integrals of the point in genus zero and one, by the string
/// and dilaton equations from `<tau_0^3>_0 = 1` and `<tau_1>_1 = 1/24`.
fn point_integral(genus: usize, powers: &[usize]) -> Option<Rational> {
    let n = powers.len();
    if genus > 1 || 2 * genus + n < 3 && !(genus == 1 && n >= 1) {
        return if genus <= 1 { Some(Rational::zero()) } else { None };
    }
    let sum: usize = powers.iter().sum();
    if sum + 3 != 3 * genus + n {
        return Some(Rational::zero());
    }
    if genus == 0 && n == 3 {
        return Some(Rational::one());
    }
    if genus == 1 && n == 1 {
        return Some(Rational::new(1, 24));
    }
    if let Some(position) = powers.iter().position(|&p| p == 0) {
        let mut rest = powers.to_vec();
        rest.remove(position);
        let mut total = Rational::zero();
        for j in 0..rest.len() {
            if rest[j] > 0 {
                let mut lowered = rest.clone();
                lowered[j] -= 1;
                total = total.add(&point_integral(genus, &lowered)?);
            }
        }
        return Some(total);
    }
    if let Some(position) = powers.iter().position(|&p| p == 1) {
        let mut rest = powers.to_vec();
        rest.remove(position);
        let factor = Rational::from_i128(2 * genus as i128 - 2 + rest.len() as i128);
        return Some(factor.mul(&point_integral(genus, &rest)?));
    }
    None
}

/// Exact point invariants in genus at most one.
struct PointEvaluator {
    theory: ProjectiveSpaceTheory,
}

impl PointEvaluator {
    fn new() -> Self {
        Self { theory: ProjectiveSpaceTheory::new(0) }
    }
}

impl CanonicalCorrelatorEvaluator for PointEvaluator {
    type Theory = ProjectiveSpaceTheory;

    fn theory(&self) -> &ProjectiveSpaceTheory {
        &self.theory
    }

    fn evaluate_backend(&self, correlator: &CorrelatorKey) -> Result<Rational, GwError> {
        let powers: Vec<usize> = correlator.insertions().iter().map(|d| d.psi_power).collect();
        point_integral(correlator.genus, &powers)
            .ok_or_else(|| GwError::UnsupportedInvariant("point integral outside the test table".to_string()))
    }
}

fn point_constraint(
    operator: i32,
    genus: usize,
    insertions: Vec<Descendant>,
) -> (PointEvaluator, VirasoroConstraint<Rational>) {
    let evaluator = PointEvaluator::new();
    let constraint = generate_constraint(
        &evaluator.theory,
        operator,
        genus,
        evaluator.theory.curve(0),
        TimeMonomial::from_descendants(insertions),
    )
    .unwrap();
    (evaluator, constraint)
}

struct CountingEvaluator {
    theory: ProjectiveSpaceTheory,
    backend_calls: Cell<usize>,
}

impl CanonicalCorrelatorEvaluator for CountingEvaluator {
    type Theory = ProjectiveSpaceTheory;

    fn theory(&self) -> &ProjectiveSpaceTheory {
        &self.theory
    }

    fn evaluate_backend(&self, _correlator: &CorrelatorKey) -> Result<Rational, GwError> {
        self.backend_calls.set(self.backend_calls.get() + 1);
        Ok(Rational::zero())
    }
}

fn counting_evaluator() -> CountingEvaluator {
    CountingEvaluator { theory: ProjectiveSpaceTheory::new(0), backend_calls: Cell::new(0) }
}

fn l0_genus_one(theory: &ProjectiveSpaceTheory) -> VirasoroConstraint<Rational> {
    generate_constraint(theory, 0, 1, theory.curve(0), TimeMonomial::one()).unwrap()
}

fn point_constraint_with_dependencies(
    theory: &ProjectiveSpaceTheory,
    genera: Vec<usize>,
) -> VirasoroConstraint<Rational> {
    let mut constraint = l0_genus_one(theory);
    constraint.terms = genera
        .into_iter()
        .map(|genus| {
            let psi_power = genus
                .checked_mul(3)
                .and_then(|value| value.checked_sub(2))
                .expect("test genus has a stable one-point dimension");
            ConstraintTerm::Linear(LinearTerm::new(
                Rational::one(),
                CorrelatorKey::new(genus, theory.curve(0), vec![Descendant::new(psi_power, BasisId(0))]),
                TermOrigin::Other("bounded dependency test".to_string()),
            ))
        })
        .collect();
    constraint
}

fn bounds_with_limit(limit: usize) -> CorrelatorEvaluationBounds {
    CorrelatorEvaluationBounds { dependency_limit: limit, ..CorrelatorEvaluationBounds::unbounded() }
}

#[test]
fn point_string_constraint_is_verified_exactly() {
    let (evaluator, constraint) =
        point_constraint(-1, 0, vec![Descendant::new(0, BasisId(0)), Descendant::new(0, BasisId(0))]);
    let report = evaluate_constraint(&evaluator, &constraint);
    assert_eq!(report.status(), ResidualStatus::VerifiedZero);
}

#[test]
fn point_l0_anomaly_constraint_is_verified_exactly() {
    let (evaluator, constraint) = point_constraint(0, 1, vec![]);
    let report = evaluate_constraint(&evaluator, &constraint);
    assert_eq!(report.status(), ResidualStatus::VerifiedZero);
    assert_eq!(report.backend_correlator_count(), 1);
    assert_eq!(report.structural_zero_correlator_count(), 0);
}

#[test]
fn unbounded_entry_points_are_equivalent() {
    let (evaluator, constraint) = point_constraint(0, 1, vec![]);
    assert_eq!(
        evaluate_constraint(&evaluator, &constraint),
        evaluate_constraint_with_bounds(&evaluator, &constraint, CorrelatorEvaluationBounds::default())
    );
}

#[test]
fn report_distinguishes_backend_values_from_structural_zeros() {
    let (evaluator, mut constraint) = point_constraint(0, 1, vec![]);
    let unstable = CorrelatorKey::new(0, evaluator.theory.curve(0), Vec::new());
    constraint.terms.push(ConstraintTerm::Linear(LinearTerm::new(
        Rational::one(),
        unstable.clone(),
        TermOrigin::Other("coverage test".to_string()),
    )));

    let report = evaluate_constraint(&evaluator, &constraint);
    assert_eq!(report.status(), ResidualStatus::VerifiedZero);
    assert_eq!(report.backend_correlator_count(), 1);
    assert_eq!(report.structural_zero_correlators(), &[unstable]);
    assert_eq!(report.resolved_correlator_count(), 2);
}

#[test]
fn zero_coefficient_terms_do_not_create_dependencies() {
    let (evaluator, mut constraint) = point_constraint(0, 1, vec![]);
    let ignored = CorrelatorKey::new(
        usize::MAX,
        evaluator.theory.curve(0),
        vec![Descendant::new(usize::MAX, BasisId(0))],
    );
    constraint.terms.push(ConstraintTerm::Linear(LinearTerm::new(
        Rational::zero(),
        ignored.clone(),
        TermOrigin::Other("zero coefficient".to_string()),
    )));
    let report = evaluate_constraint(&evaluator, &constraint);
    assert_eq!(report.status(), ResidualStatus::VerifiedZero);
    assert!(!report.backend_correlators().contains(&ignored));
    assert!(!report.structural_zero_correlators().contains(&ignored));
    assert_eq!(report.evaluated_term_count(), report.total_term_count());
}

#[test]
fn genus_bound_is_enforced_before_backend_calls() {
    let evaluator = counting_evaluator();
    let constraint = l0_genus_one(&evaluator.theory);
    let report = evaluate_constraint_with_bounds(
        &evaluator,
        &constraint,
        CorrelatorEvaluationBounds { max_genus: Some(0), ..CorrelatorEvaluationBounds::unbounded() },
    );

    assert_eq!(report.status(), ResidualStatus::Incomplete);
    assert_eq!(evaluator.backend_calls.get(), 0);
    assert_eq!(report.backend_correlator_count(), 0);
    assert_eq!(report.structural_zero_correlator_count(), 0);
    assert_eq!(report.missing_correlator_count(), 1);
    assert_eq!(report.missing_correlators()[0].reason, IncompleteReason::OutsideBounds);
    assert_eq!(report.exact_residual(), None);
}

#[test]
fn marking_and_descendant_bounds_block_only_excluded_backend_keys() {
    let evaluator = counting_evaluator();
    let mut constraint = l0_genus_one(&evaluator.theory);
    let three_primaries =
        CorrelatorKey::new(0, evaluator.theory.curve(0), vec![Descendant::new(0, BasisId(0)); 3]);
    let mut four_with_descendant = vec![Descendant::new(0, BasisId(0)); 3];
    four_with_descendant.push(Descendant::new(1, BasisId(0)));
    let four_with_descendant = CorrelatorKey::new(0, evaluator.theory.curve(0), four_with_descendant);
    for correlator in [&three_primaries, &four_with_descendant] {
        constraint.terms.push(ConstraintTerm::Linear(LinearTerm::new(
            Rational::one(),
            correlator.clone(),
            TermOrigin::Other("per-dependency bound test".to_string()),
        )));
    }

    let marking_bounded = evaluate_constraint_with_bounds(
        &evaluator,
        &constraint,
        CorrelatorEvaluationBounds { max_markings: Some(2), ..CorrelatorEvaluationBounds::unbounded() },
    );
    assert_eq!(evaluator.backend_calls.get(), 1);
    assert_eq!(marking_bounded.missing_correlator_count(), 2);
    assert!(marking_bounded
        .missing_correlators()
        .iter()
        .all(|missing| missing.reason == IncompleteReason::OutsideBounds));

    evaluator.backend_calls.set(0);
    let descendant_bounded = evaluate_constraint_with_bounds(
        &evaluator,
        &constraint,
        CorrelatorEvaluationBounds { max_descendant_power: Some(0), ..CorrelatorEvaluationBounds::unbounded() },
    );
    assert_eq!(evaluator.backend_calls.get(), descendant_bounded.backend_correlator_count());
    assert!(descendant_bounded.backend_correlators().contains(&three_primaries));
    assert!(!descendant_bounded.backend_correlators().contains(&four_with_descendant));
    assert_eq!(descendant_bounded.missing_correlator_count(), 2);
    assert!(descendant_bounded.missing_correlators().iter().any(|missing| {
        missing.correlator == four_with_descendant && missing.reason == IncompleteReason::OutsideBounds
    }));
    assert!(descendant_bounded
        .missing_correlators()
        .iter()
        .all(|missing| missing.reason == IncompleteReason::OutsideBounds));
}

#[test]
fn zero_dependency_limit_is_explicitly_incomplete() {
    let evaluator = counting_evaluator();
    let constraint = l0_genus_one(&evaluator.theory);
    let report = evaluate_constraint_with_bounds(&evaluator, &constraint, bounds_with_limit(0));

    assert_eq!(report.status(), ResidualStatus::Incomplete);
    assert_eq!(evaluator.backend_calls.get(), 0);
    assert!(report.dependency_closure_truncated());
    assert_eq!(report.missing_correlator_count(), 1);
    assert_eq!(report.dependency_count(), 1);
    assert!(report
        .missing_correlators()
        .iter()
        .all(|missing| missing.reason == IncompleteReason::OutsideBounds));
    assert!(report.notes().iter().any(|note| note.contains("dependency closure truncated at 0")));
}

#[test]
fn zero_dependency_limit_does_not_truncate_a_constant_only_equation() {
    let (evaluator, mut constraint) = point_constraint(0, 1, vec![]);
    constraint.terms = vec![ConstraintTerm::Constant {
        coefficient: Rational::one(),
        origin: TermOrigin::Other("constant-only dependency test".to_string()),
    }];

    let report = evaluate_constraint_with_bounds(&evaluator, &constraint, bounds_with_limit(0));

    assert_eq!(report.status(), ResidualStatus::Nonzero);
    assert_eq!(report.evaluated_term_count(), 1);
    assert_eq!(report.dependency_count(), 0);
    assert_eq!(report.missing_correlator_count(), 0);
    assert!(!report.dependency_closure_truncated());
}

#[test]
fn zero_dependency_limit_keeps_one_witness_for_a_large_closure() {
    const DEPENDENCY_COUNT: usize = 20_000;
    let evaluator = counting_evaluator();
    let constraint =
        point_constraint_with_dependencies(&evaluator.theory, (1..=DEPENDENCY_COUNT).rev().collect());

    let report = evaluate_constraint_with_bounds(&evaluator, &constraint, bounds_with_limit(0));

    assert_eq!(report.status(), ResidualStatus::Incomplete);
    assert_eq!(evaluator.backend_calls.get(), 0);
    assert_eq!(report.evaluated_term_count(), 0);
    assert_eq!(report.total_term_count(), DEPENDENCY_COUNT);
    assert_eq!(report.missing_correlator_count(), 1);
    assert_eq!(report.dependency_count(), 1);
    assert!(report.dependency_closure_truncated());
    let witness = &report.missing_correlators()[0];
    assert_eq!(witness.reason, IncompleteReason::OutsideBounds);
    assert_eq!(witness.correlator.genus, 1);
}

#[test]
fn dependency_limit_evaluates_the_smallest_keys_and_keeps_the_next_witness() {
    let evaluator = counting_evaluator();
    let constraint = point_constraint_with_dependencies(&evaluator.theory, vec![4, 2, 3, 1, 2]);

    let report = evaluate_constraint_with_bounds(&evaluator, &constraint, bounds_with_limit(2));

    assert_eq!(report.status(), ResidualStatus::Incomplete);
    assert_eq!(evaluator.backend_calls.get(), 2);
    assert_eq!(
        report.backend_correlators().iter().map(|correlator| correlator.genus).collect::<Vec<_>>(),
        vec![1, 2]
    );
    assert_eq!(report.missing_correlator_count(), 1);
    assert_eq!(report.missing_correlators()[0].correlator.genus, 3);
    assert_eq!(report.missing_correlators()[0].reason, IncompleteReason::OutsideBounds);
    assert!(report.dependency_closure_truncated());
    assert_eq!(report.dependency_count(), 3);
}

#[test]
fn fingerprint_mismatch_uses_the_same_bounded_dependency_diagnostics() {
    let evaluator = counting_evaluator();
    let mut constraint = point_constraint_with_dependencies(&evaluator.theory, vec![4, 2, 3, 1]);
    constraint.theory_fingerprint = "deliberately different theory".to_string();

    let report = evaluate_constraint_with_bounds(&evaluator, &constraint, bounds_with_limit(2));

    assert_eq!(report.status(), ResidualStatus::Incomplete);
    assert_eq!(evaluator.backend_calls.get(), 0);
    assert_eq!(report.missing_correlator_count(), 3);
    assert_eq!(
        report.missing_correlators().iter().map(|missing| missing.correlator.genus).collect::<Vec<_>>(),
        vec![1, 2, 3]
    );
    assert!(report.missing_correlators()[..2]
        .iter()
        .all(|missing| matches!(missing.reason, IncompleteReason::EvaluationError(_))));
    assert_eq!(report.missing_correlators()[2].reason, IncompleteReason::OutsideBounds);
    assert!(report.dependency_closure_truncated());
    assert!(report.notes().iter().any(|note| note.contains("different theories")));
}

#[test]
fn outside_bounds_takes_precedence_over_structural_zero_proofs() {
    let (evaluator, mut constraint) = point_constraint(0, 1, vec![]);
    // This genus-two vacuum has virtual dimension three and is therefore a
    // structural zero when evaluated without bounds.
    let high_genus_zero = CorrelatorKey::new(2, evaluator.theory.curve(0), Vec::new());
    constraint.terms.push(ConstraintTerm::Linear(LinearTerm::new(
        Rational::one(),
        high_genus_zero.clone(),
        TermOrigin::Other("bounded structural-zero test".to_string()),
    )));
    let unbounded = evaluate_constraint(&evaluator, &constraint);
    assert!(unbounded.structural_zero_correlators().contains(&high_genus_zero));

    let bounded = evaluate_constraint_with_bounds(
        &evaluator,
        &constraint,
        CorrelatorEvaluationBounds { max_genus: Some(1), ..CorrelatorEvaluationBounds::unbounded() },
    );
    assert_eq!(bounded.status(), ResidualStatus::Incomplete);
    assert!(!bounded.structural_zero_correlators().contains(&high_genus_zero));
    assert!(bounded.missing_correlators().iter().any(|missing| {
        missing.correlator == high_genus_zero && missing.reason == IncompleteReason::OutsideBounds
    }));
}

#[test]
fn point_l1_checks_labelled_partitions_and_genus_reduction() {
    let (evaluator, constraint) = point_constraint(1, 0, vec![Descendant::new(0, BasisId(0)); 4]);
    assert_eq!(evaluate_constraint(&evaluator, &constraint).status(), ResidualStatus::VerifiedZero);

    let (evaluator, constraint) = point_constraint(1, 1, vec![Descendant::new(0, BasisId(0))]);
    assert_eq!(evaluate_constraint(&evaluator, &constraint).status(), ResidualStatus::VerifiedZero);
}

/// Golden `P^1` values for the degree-one `L_1` relation.
struct GoldenP1 {
    theory: ProjectiveSpaceTheory,
}

impl CanonicalCorrelatorEvaluator for GoldenP1 {
    type Theory = ProjectiveSpaceTheory;

    fn theory(&self) -> &ProjectiveSpaceTheory {
        &self.theory
    }

    fn evaluate_backend(&self, correlator: &CorrelatorKey) -> Result<Rational, GwError> {
        let insertions: Vec<(usize, usize)> =
            correlator.insertions().iter().map(|d| (d.psi_power, d.class.0)).collect();
        let value = match insertions.as_slice() {
            [(0, 0), (2, 0)] => Rational::from_i128(-2),
            [(0, 0), (1, 1)] => Rational::one(),
            [(0, 1)] => Rational::one(),
            _ => return Err(GwError::UnsupportedInvariant("not in the P1 golden oracle".to_string())),
        };
        Ok(value)
    }
}

#[test]
fn p1_degree_one_l1_exposes_backend_gaps_without_false_pass() {
    let golden = GoldenP1 { theory: ProjectiveSpaceTheory::new(1) };
    let constraint = generate_constraint(
        &golden.theory,
        1,
        0,
        golden.theory.curve(1),
        TimeMonomial::from_descendants(vec![Descendant::new(0, BasisId(0))]),
    )
    .unwrap();
    assert_eq!(evaluate_constraint(&golden, &constraint).status(), ResidualStatus::VerifiedZero);
}

struct UnsupportedEvaluator {
    theory: ProjectiveSpaceTheory,
}

impl CanonicalCorrelatorEvaluator for UnsupportedEvaluator {
    type Theory = ProjectiveSpaceTheory;

    fn theory(&self) -> &ProjectiveSpaceTheory {
        &self.theory
    }

    fn evaluate_backend(&self, _correlator: &CorrelatorKey) -> Result<Rational, GwError> {
        Err(GwError::UnsupportedInvariant("deliberate gap".to_string()))
    }
}

#[test]
fn unsupported_dependencies_can_never_pass() {
    let evaluator = UnsupportedEvaluator { theory: ProjectiveSpaceTheory::new(0) };
    let constraint = l0_genus_one(&evaluator.theory);
    let report = evaluate_constraint(&evaluator, &constraint);
    assert_eq!(report.status(), ResidualStatus::Incomplete);
    assert_eq!(report.missing_correlator_count(), 1);
}

#[test]
fn unsupported_reason_keeps_the_backend_message() {
    let evaluator = UnsupportedEvaluator { theory: ProjectiveSpaceTheory::new(0) };
    let constraint = l0_genus_one(&evaluator.theory);
    let report = evaluate_constraint(&evaluator, &constraint);
    assert_eq!(
        report.missing_correlators()[0].reason,
        IncompleteReason::Unsupported("deliberate gap".to_string())
    );
    assert_eq!(report.exact_residual(), None);
}

#[test]
fn unknown_basis_ids_are_evaluation_errors_before_any_backend_call() {
    let evaluator = counting_evaluator();
    let mut constraint = l0_genus_one(&evaluator.theory);
    let unknown = CorrelatorKey::new(0, evaluator.theory.curve(0), vec![Descendant::new(0, BasisId(7)); 3]);
    constraint.terms = vec![ConstraintTerm::Linear(LinearTerm::new(
        Rational::one(),
        unknown,
        TermOrigin::Other("unknown basis".to_string()),
    ))];
    let report = evaluate_constraint(&evaluator, &constraint);
    assert_eq!(evaluator.backend_calls.get(), 0);
    assert_eq!(
        report.missing_correlators()[0].reason,
        IncompleteReason::EvaluationError("unknown basis id 7 in correlator".to_string())
    );
}

#[test]
fn ineffective_classes_are_structural_zeros() {
    let evaluator = counting_evaluator();
    let mut constraint = l0_genus_one(&evaluator.theory);
    let negative = CorrelatorKey::new(0, evaluator.theory.curve(-1), vec![Descendant::new(0, BasisId(0)); 3]);
    constraint.terms = vec![ConstraintTerm::Linear(LinearTerm::new(
        Rational::new(5, 2),
        negative.clone(),
        TermOrigin::Other("ineffective".to_string()),
    ))];
    let report = evaluate_constraint(&evaluator, &constraint);
    assert_eq!(evaluator.backend_calls.get(), 0);
    assert_eq!(report.structural_zero_correlators(), &[negative]);
    assert_eq!(report.status(), ResidualStatus::VerifiedZero);
}

#[test]
fn residual_sums_the_exact_contributions() {
    let (evaluator, mut constraint) = point_constraint(0, 1, vec![]);
    let three_points = CorrelatorKey::new(0, evaluator.theory.curve(0), vec![Descendant::new(0, BasisId(0)); 3]);
    constraint.terms = vec![
        ConstraintTerm::Constant { coefficient: Rational::new(1, 3), origin: TermOrigin::Other("c".to_string()) },
        ConstraintTerm::Linear(LinearTerm::new(Rational::new(1, 2), three_points.clone(), TermOrigin::Other("l".to_string()))),
    ];
    let report = evaluate_constraint(&evaluator, &constraint);
    assert_eq!(report.status(), ResidualStatus::Nonzero);
    assert_eq!(report.exact_residual(), Some(&Rational::new(5, 6)));
    assert_eq!(report.evaluated_terms()[1].exact_contribution, Rational::new(1, 2));
}

#[test]
fn virtual_dimension_follows_the_dimension_formula() {
    let theory = ProjectiveSpaceTheory::new(2);
    assert_eq!(theory.virtual_dimension(0, &theory.curve(1), 2), Ok(-1 + 3 + 2));
    assert_eq!(theory.virtual_dimension(2, &theory.curve(0), 0), Ok(1));
    assert!(matches!(
        theory.virtual_dimension(0, &CurveClass::new(vec![1, 1]), 0),
        Err(GwError::ConventionMismatch(_))
    ));
}

fn point_scan_bounds() -> VirasoroScanBounds {
    VirasoroScanBounds {
        operator_min: -1,
        operator_max: 1,
        genus_max: 1,
        degree_grading_max: 0,
        markings_max: 4,
        descendant_max: 0,
        equation_limit: 100,
        generated_term_limit: 10_000,
        total_generated_term_limit: 100_000,
        correlator_bounds: CorrelatorEvaluationBounds::unbounded(),
    }
}

#[test]
fn bounded_point_scan_is_complete_and_exact() {
    let evaluator = PointEvaluator::new();
    let report = scan_constraints(&evaluator, point_scan_bounds()).unwrap();
    assert_eq!(report.total(), 30);
    assert_eq!(report.verified_zero_count(), 30);
    assert_eq!(report.nonzero_count(), 0);
    assert_eq!(report.incomplete_count(), 0);
    // Every nonzero product keeps both of its factors as dependencies, so a
    // product with one structural-zero factor still sends the other factor
    // to the backend: ten equations reach it, twenty close structurally.
    assert_eq!(report.backend_exercised_count(), 10);
    assert_eq!(report.structural_only_count(), 20);
    assert_eq!(report.vacuous_count(), 0);
    assert_eq!(
        report.vacuous_count()
            + report.structural_only_count()
            + report.backend_exercised_count()
            + report.unresolved_only_count(),
        report.total()
    );
    assert!(report.is_success());
}

#[test]
fn equation_limit_is_checked_before_generation() {
    let evaluator = CountingEvaluator { theory: ProjectiveSpaceTheory::new(2), backend_calls: Cell::new(0) };
    let mut bounds = VirasoroScanBounds::small();
    bounds.equation_limit = 1;
    let error = scan_constraints(&evaluator, bounds).unwrap_err();
    assert!(matches!(error, GwError::ResourceLimit { limit: 1, .. }));
    assert_eq!(evaluator.backend_calls.get(), 0);
}

#[test]
fn public_scan_marking_cap_is_enforced() {
    let evaluator = PointEvaluator::new();
    let mut bounds = VirasoroScanBounds::small();
    bounds.markings_max = MAX_VIRASORO_SCAN_MARKINGS + 1;
    let error = scan_constraints(&evaluator, bounds).unwrap_err();
    assert!(matches!(
        error,
        GwError::ResourceLimit { requested, limit: MAX_VIRASORO_SCAN_MARKINGS, .. }
            if requested == MAX_VIRASORO_SCAN_MARKINGS + 1
    ));
}

#[test]
fn aggregate_term_limit_bounds_retained_scan_state() {
    let evaluator = PointEvaluator::new();
    let mut bounds = VirasoroScanBounds::small();
    bounds.degree_grading_max = 0;
    bounds.total_generated_term_limit = 0;
    let error = scan_constraints(&evaluator, bounds).unwrap_err();
    assert!(matches!(error, GwError::ResourceLimit { limit: 0, .. }));
}

/// `P^1 x P^1`-like cone: two rays, so the classes of grading at most `m`
/// number `(m + 1)(m + 2) / 2`.
struct TwoRayCone(ProjectiveSpaceTheory);

impl GwTheory for TwoRayCone {
    fn theory_id(&self) -> String {
        "two-ray test cone".to_string()
    }
    fn target_dimension(&self) -> usize {
        2
    }
    fn virasoro_operator_kind(&self) -> VirasoroOperatorKind {
        VirasoroOperatorKind::StandardCompactGetzler
    }
    fn theory_fingerprint(&self) -> String {
        "two-ray-test".to_string()
    }
    fn state_space(&self) -> &StateSpace {
        self.0.state_space()
    }
    fn curve_class_space(&self) -> &CurveClassSpace {
        self.0.curve_class_space()
    }
    fn c1_pairing(&self, curve: &CurveClass) -> Result<i64, GwError> {
        self.0.c1_pairing(curve)
    }
    fn effectivity(&self, curve: &CurveClass) -> Result<CurveEffectivity, GwError> {
        self.0.effectivity(curve)
    }
    fn characteristic_numbers(&self) -> Option<&CharacteristicNumbers> {
        None
    }
    fn admissible_decompositions(&self, total: &CurveClass) -> Result<Vec<CurveClassSplit>, GwError> {
        self.0.admissible_decompositions(total)
    }
    fn admissible_decomposition_count(&self, total: &CurveClass) -> Result<usize, GwError> {
        self.0.admissible_decomposition_count(total)
    }
    fn bounded_admissible_class_count(&self, max_total: usize) -> Result<usize, GwError> {
        gw_pn::foundation::theory::two_ray_class_count(max_total)
    }
    fn bounded_admissible_classes(&self, _max_total: usize) -> Result<Vec<CurveClass>, GwError> {
        panic!("the cone must be counted before it is built")
    }
}

struct TwoRayEvaluator {
    theory: TwoRayCone,
}

impl CanonicalCorrelatorEvaluator for TwoRayEvaluator {
    type Theory = TwoRayCone;

    fn theory(&self) -> &TwoRayCone {
        &self.theory
    }

    fn evaluate_backend(&self, _correlator: &CorrelatorKey) -> Result<Rational, GwError> {
        Err(GwError::UnsupportedInvariant("no backend".to_string()))
    }
}

#[test]
fn curve_cone_is_counted_before_a_large_product_allocation() {
    let evaluator = TwoRayEvaluator { theory: TwoRayCone(ProjectiveSpaceTheory::new(3)) };
    let error = scan_constraints(
        &evaluator,
        VirasoroScanBounds {
            operator_min: -1,
            operator_max: -1,
            genus_max: 0,
            degree_grading_max: 10_000,
            markings_max: 0,
            descendant_max: 0,
            equation_limit: 1,
            generated_term_limit: 100,
            total_generated_term_limit: 100,
            correlator_bounds: CorrelatorEvaluationBounds::unbounded(),
        },
    )
    .unwrap_err();
    assert!(matches!(error, GwError::ResourceLimit { requested: 50_015_001, limit: 1, .. }));
}

#[test]
fn irrelevant_large_degree_bound_is_valid_for_a_point() {
    let evaluator = PointEvaluator::new();
    let report = scan_constraints(
        &evaluator,
        VirasoroScanBounds {
            operator_min: -1,
            operator_max: -1,
            genus_max: 0,
            degree_grading_max: usize::MAX,
            markings_max: 0,
            descendant_max: 1_000_000,
            equation_limit: 1,
            generated_term_limit: 100,
            total_generated_term_limit: 100,
            correlator_bounds: CorrelatorEvaluationBounds::unbounded(),
        },
    )
    .unwrap();
    assert_eq!(report.total(), 1);
}

#[test]
fn dependency_limit_is_fail_closed_and_visible_in_coverage() {
    let evaluator = PointEvaluator::new();
    let report = scan_constraints(
        &evaluator,
        VirasoroScanBounds {
            operator_min: 0,
            operator_max: 0,
            genus_max: 1,
            degree_grading_max: 0,
            markings_max: 0,
            descendant_max: 0,
            equation_limit: 2,
            generated_term_limit: 100,
            total_generated_term_limit: 100,
            correlator_bounds: CorrelatorEvaluationBounds { dependency_limit: 0, ..CorrelatorEvaluationBounds::unbounded() },
        },
    )
    .unwrap();
    assert!(report.incomplete_count() > 0);
    assert!(report.unresolved_only_count() > 0);
    assert!(!report.is_success());
}

#[test]
fn scan_rejects_an_inverted_operator_range() {
    let evaluator = PointEvaluator::new();
    let mut bounds = VirasoroScanBounds::small();
    bounds.operator_min = 1;
    bounds.operator_max = 0;
    assert!(matches!(
        scan_constraints(&evaluator, bounds),
        Err(GwError::ConventionMismatch(message)) if message == "Virasoro scan requires -1 <= operator_min <= operator_max"
    ));
}

#[test]
fn scan_entries_follow_operator_then_genus_order() {
    let evaluator = PointEvaluator::new();
    let report = scan_constraints(&evaluator, point_scan_bounds()).unwrap();
    let keys: Vec<(i32, usize)> = report
        .entries()
        .iter()
        .map(|entry| (entry.constraint.operator.index, entry.constraint.sector.genus))
        .collect();
    let mut sorted = keys.clone();
    sorted.sort();
    assert_eq!(keys, sorted);
    assert_eq!(keys.first(), Some(&(-1, 0)));
    assert_eq!(keys.last(), Some(&(1, 1)));
    assert_eq!(report.bounds(), &point_scan_bounds());
    assert!(report.generated_term_count() > 0);
}

#[test]
fn descendant_profiles_enumerate_multisets_in_order() {
    let atoms = vec![Descendant::new(0, BasisId(0)), Descendant::new(1, BasisId(0))];
    let profiles = descendant_profiles(&atoms, 2, 6).unwrap();
    assert_eq!(profiles.len(), 6);
    assert_eq!(profiles[0], TimeMonomial::one());
    assert_eq!(profiles[1], TimeMonomial::from_descendants(vec![atoms[0]]));
    assert_eq!(profiles[3], TimeMonomial::from_descendants(vec![atoms[0], atoms[0]]));
    assert_eq!(profiles[4], TimeMonomial::from_descendants(vec![atoms[0], atoms[1]]));
    assert_eq!(profiles[5], TimeMonomial::from_descendants(vec![atoms[1], atoms[1]]));
    assert!(matches!(descendant_profiles(&atoms, 2, 5), Err(GwError::ValidationFailure(_))));
}

#[test]
fn checked_rendering_rejects_another_theorys_notation() {
    let p1 = ProjectiveSpaceTheory::new(1);
    let p2 = ProjectiveSpaceTheory::new(2);
    let constraint = generate_constraint(&p1, 0, 0, p1.curve(0), TimeMonomial::one()).unwrap();

    assert!(constraint.render_text_for_theory(&p1).is_ok());
    assert!(matches!(constraint.render_tex_for_theory(&p2), Err(GwError::ConventionMismatch(_))));
}

#[test]
fn notation_uses_canonical_theory_basis_and_curve_names() {
    let p2 = ProjectiveSpaceTheory::new(2);
    let notation = CanonicalTheoryNotation::new(&p2);
    assert_eq!(notation.basis_text(&BasisId(2)), "H^2");
    assert_eq!(notation.basis_text(&BasisId(7)), "e_7");
    assert_eq!(notation.basis_tex(&BasisId(1)), "H^1");
    assert_eq!(notation.basis_tex(&BasisId(9)), "e_{9}");
    assert_eq!(notation.degree_text(&CurveClass::new(vec![3])), "3");
    assert_eq!(notation.coefficient_text(&Rational::new(-1, 2)), "-1/2");
    let text = generate_constraint(&p2, 0, 0, p2.curve(1), TimeMonomial::one())
        .unwrap()
        .render_text_for_theory(&p2)
        .unwrap();
    assert!(text.starts_with("Virasoro coefficient constraint"));
}

#[test]
fn named_degrees_fall_back_to_indexed_coordinates() {
    let degree = CurveClass::new(vec![2, 3]);
    assert_eq!(named_degree(&degree, &vec![], false), "(d1=2, d2=3)");
    assert_eq!(named_degree(&degree, &vec!["a".to_string()], true), "(a=2,\\ d2=3)");
    assert_eq!(named_degree(&CurveClass::new(vec![-4]), &vec!["d".to_string()], false), "-4");
}

#[test]
fn scan_within_both_term_budgets_succeeds() {
    let evaluator = PointEvaluator::new();
    let mut bounds = point_scan_bounds();
    bounds.generated_term_limit = 100;
    bounds.total_generated_term_limit = 30 * 100;
    let report = scan_constraints(&evaluator, bounds).unwrap();
    assert_eq!(report.total(), 30);
    assert!(report.is_success());
}

#[test]
fn structural_zero_factor_keeps_its_partner_as_a_dependency() {
    let (evaluator, mut constraint) = point_constraint(0, 1, vec![]);
    // The degree-zero vacuum is a structural zero inside the bounds; its
    // genus-two partner lies outside them and must still be reported.
    let unstable = CorrelatorKey::new(0, evaluator.theory.curve(0), Vec::new());
    let high_genus = CorrelatorKey::new(2, evaluator.theory.curve(0), Vec::new());
    constraint.terms.push(ConstraintTerm::Quadratic(QuadraticTerm::new(
        Rational::one(),
        unstable.clone(),
        high_genus.clone(),
        TermOrigin::Other("fail-closed test".to_string()),
    )));
    let bounded = evaluate_constraint_with_bounds(
        &evaluator,
        &constraint,
        CorrelatorEvaluationBounds { max_genus: Some(1), ..CorrelatorEvaluationBounds::unbounded() },
    );
    assert_eq!(bounded.status(), ResidualStatus::Incomplete);
    assert!(bounded.structural_zero_correlators().contains(&unstable));
    assert!(bounded.missing_correlators().iter().any(|missing| {
        missing.correlator == high_genus && missing.reason == IncompleteReason::OutsideBounds
    }));
}
