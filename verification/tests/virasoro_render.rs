use gw_pn::constraints::virasoro::ast::{
    CohomologicalGrading, ConstraintSector, ConstraintTerm, CorrelatorKey, Descendant, DilatonShift,
    FormulaSource, LinearTerm, PotentialConvention, QuadraticTerm, StateSpaceConvention, TermOrigin,
    TheoryLabel, TimeMonomial, TimeNormalization, UnstableConvention, VirasoroConstraint,
    VirasoroConventions, VirasoroOperator,
};
use gw_pn::constraints::virasoro::render::{tex_prose, ConstraintNotation};
use gw_pn::foundation::theory::{BasisId, CurveClass};

const UNIT: BasisId = BasisId(0);
const H: BasisId = BasisId(1);

/// Test notation: basis 0 is the unit `1`, basis 1 is the hyperplane `H`.
struct FixtureNotation;

impl ConstraintNotation<String> for FixtureNotation {
    fn degree_text(&self, degree: &CurveClass) -> String {
        degree.text()
    }
    fn degree_tex(&self, degree: &CurveClass) -> String {
        degree.text()
    }
    fn basis_text(&self, basis: &BasisId) -> String {
        if basis.0 == 0 { "1".to_string() } else { "H".to_string() }
    }
    fn basis_tex(&self, basis: &BasisId) -> String {
        self.basis_text(basis)
    }
    fn coefficient_text(&self, coefficient: &String) -> String {
        coefficient.clone()
    }
    fn coefficient_tex(&self, coefficient: &String) -> String {
        coefficient.clone()
    }
}

fn degree(d: i64) -> CurveClass {
    CurveClass::new(vec![d])
}

fn example_constraint() -> VirasoroConstraint<String> {
    let unit = Descendant::new(1, UNIT);
    let h = Descendant::new(0, H);
    let lhs = CorrelatorKey::new(1, degree(2), vec![Descendant::new(2, H)]);
    let split_left = CorrelatorKey::new(0, degree(0), vec![Descendant::new(0, UNIT)]);
    let split_right = CorrelatorKey::new(1, degree(2), vec![Descendant::new(0, H)]);
    let conventions = VirasoroConventions {
        potential: PotentialConvention::ConnectedDescendant,
        time_normalization: TimeNormalization::Exponential,
        dilaton_shift: DilatonShift::StandardUnit,
        grading: CohomologicalGrading::Complex,
        unstable: UnstableConvention::Excluded,
        state_space: StateSpaceConvention::EvenOnly,
        novikov_variables: vec!["q".to_string()],
        equivariant_parameters: Vec::new(),
        notes: vec!["formal example; coefficients are test data".to_string()],
    };
    let mut source = FormulaSource::new("AST renderer fixture");
    source.derivation = Some("hand-written test equation".to_string());
    VirasoroConstraint {
        theory: TheoryLabel::new("P^1", "\\mathbb{P}^1"),
        theory_fingerprint: "renderer-fixture-v1".to_string(),
        operator: VirasoroOperator::new(1),
        sector: ConstraintSector::new(1, degree(2)),
        time_coefficient: TimeMonomial::try_from_factors(vec![(unit, 2), (h, 1)]).unwrap(),
        terms: vec![
            ConstraintTerm::Linear(LinearTerm::new("3".to_string(), lhs, TermOrigin::LinearOperator)),
            ConstraintTerm::Quadratic(QuadraticTerm::new(
                "1/2".to_string(),
                split_right,
                split_left,
                TermOrigin::DegreeSplitting,
            )),
        ],
        conventions,
        source,
    }
}

#[test]
fn canonical_keys_ignore_input_order() {
    let a = Descendant::new(0, H);
    let b = Descendant::new(1, UNIT);
    assert_eq!(
        TimeMonomial::from_descendants(vec![b, a, b]),
        TimeMonomial::try_from_factors(vec![(a, 1), (b, 2)]).unwrap()
    );
    assert_eq!(
        CorrelatorKey::new(1, degree(3), vec![b, a]),
        CorrelatorKey::new(1, degree(3), vec![a, b])
    );
}

#[test]
fn text_render_is_stable_and_explicit_about_conventions() {
    let actual = example_constraint().render_text_with(&FixtureNotation);
    let expected = "Virasoro coefficient constraint\n\
===============================\n\
Theory: P^1\n\
Operator: L_1\n\
Sector: g=1, beta=2\n\
Extracted coefficient: t_0(H) t_1(1)^2\n\
\n\
Formula:\n\
\x20\x200 = (3) <tau_2(H)>_{g=1,beta=2}  [linear operator]\n\
\x20\x20\x20\x20+ (1/2) <tau_0(1)>_{g=0,beta=0} * <tau_0(H)>_{g=1,beta=2}  [degree splitting]\n\
\n\
Conventions:\n\
- Potential: connected descendant potential\n\
- Time normalization: exponential generating series (1/n!)\n\
- Dilaton shift: q_k^a = t_k^a - delta_(k,1) delta_(a,unit)\n\
- Grading: complex cohomological degree\n\
- Unstable terms: unstable correlators excluded\n\
- State space: even state space\n\
- Novikov variables: q\n\
- Equivariant parameters: none\n\
- Note: formal example; coefficients are test data\n\
\n\
Source:\n\
- AST renderer fixture\n\
- Derivation: hand-written test equation\n";
    assert_eq!(actual, expected);
}

#[test]
fn tex_render_contains_auditable_formula_and_metadata() {
    let actual = example_constraint().render_tex_with(&FixtureNotation);
    assert!(actual.contains("\\textbf{Theory:} \\(\\mathbb{P}^1\\)"));
    assert!(actual.contains("t_{0}^{H}\\,\\left(t_{1}^{1}\\right)^{2}"));
    assert!(actual.contains("\\tau_{2}\\!\\left(H\\right)"));
    assert!(actual.contains("\\text{degree splitting}"));
    assert!(actual.contains("connected descendant potential"));
    assert!(actual.contains("formal example; coefficients are test data"));
    assert_eq!(
        tex_prose("coefficient of Z^{-1} L_k Z at t=0"),
        "coefficient of \\(Z^{-1}L_kZ\\) at \\(t=0\\)"
    );
}
