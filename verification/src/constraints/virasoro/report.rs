//! Auditable results of substituting exact correlators into a constraint.
//!
//! A report only yields a decisive status when every term of the equation is
//! accounted for exactly once, no correlator dependency is missing, and the
//! dependency closure was not truncated.

use vstd::prelude::*;
use super::ast::CorrelatorKey;
use crate::text::{decimal, push_str, push_usize, string_from};

verus! {

#[derive(Debug, Clone, Copy, PartialEq, Eq, Structural, PartialOrd, Ord, Hash)]
pub enum ResidualStatus {
    VerifiedZero,
    Nonzero,
    Incomplete,
}

/// The exact outcome.  The enum prevents an absent residual from being
/// accidentally reported as a passing constraint.
#[derive(Debug, Clone, PartialEq, Eq)]
pub enum ResidualOutcome<C> {
    VerifiedZero { exact_residual: C },
    Nonzero { exact_residual: C },
    Incomplete { exact_partial_sum: Option<C> },
}

impl<C> ResidualOutcome<C> {
    /// Status carried by the outcome alone.
    pub open spec fn spec_status(&self) -> ResidualStatus {
        match self {
            ResidualOutcome::VerifiedZero { .. } => ResidualStatus::VerifiedZero,
            ResidualOutcome::Nonzero { .. } => ResidualStatus::Nonzero,
            ResidualOutcome::Incomplete { .. } => ResidualStatus::Incomplete,
        }
    }

    /// The residual of a decisive outcome.
    pub open spec fn spec_exact_residual(&self) -> Option<C> {
        match self {
            ResidualOutcome::VerifiedZero { exact_residual } => Some(*exact_residual),
            ResidualOutcome::Nonzero { exact_residual } => Some(*exact_residual),
            ResidualOutcome::Incomplete { .. } => None,
        }
    }

    // Private: only `ResidualReport::status` also checks term accounting and
    // missing dependencies before returning a decisive result.
    fn status(&self) -> (s: ResidualStatus)
        ensures
            s == self.spec_status(),
    {
        match self {
            ResidualOutcome::VerifiedZero { .. } => ResidualStatus::VerifiedZero,
            ResidualOutcome::Nonzero { .. } => ResidualStatus::Nonzero,
            ResidualOutcome::Incomplete { .. } => ResidualStatus::Incomplete,
        }
    }

    pub fn exact_residual(&self) -> (r: Option<&C>)
        ensures
            r is Some <==> self.spec_exact_residual() is Some,
            r matches Some(v) ==> self.spec_exact_residual() == Some(*v),
    {
        match self {
            ResidualOutcome::VerifiedZero { exact_residual } => Some(exact_residual),
            ResidualOutcome::Nonzero { exact_residual } => Some(exact_residual),
            ResidualOutcome::Incomplete { .. } => None,
        }
    }

    /// A decisive outcome demoted to an incomplete one, keeping its residual
    /// as the exact partial sum.
    pub open spec fn spec_demoted(self) -> ResidualOutcome<C> {
        match self {
            ResidualOutcome::VerifiedZero { exact_residual } => ResidualOutcome::Incomplete {
                exact_partial_sum: Some(exact_residual),
            },
            ResidualOutcome::Nonzero { exact_residual } => ResidualOutcome::Incomplete {
                exact_partial_sum: Some(exact_residual),
            },
            ResidualOutcome::Incomplete { exact_partial_sum } => ResidualOutcome::Incomplete {
                exact_partial_sum,
            },
        }
    }

    fn demoted(self) -> (o: Self)
        ensures
            o == self.spec_demoted(),
    {
        match self {
            ResidualOutcome::VerifiedZero { exact_residual } => ResidualOutcome::Incomplete {
                exact_partial_sum: Some(exact_residual),
            },
            ResidualOutcome::Nonzero { exact_residual } => ResidualOutcome::Incomplete {
                exact_partial_sum: Some(exact_residual),
            },
            ResidualOutcome::Incomplete { exact_partial_sum } => ResidualOutcome::Incomplete {
                exact_partial_sum,
            },
        }
    }
}

#[derive(Debug, PartialEq, Eq, PartialOrd, Ord, Hash)]
#[non_exhaustive]
pub enum IncompleteReason {
    /// Broad backend support gap.
    Unsupported(String),
    /// Recognized target requiring missing mathematical machinery.
    UnsupportedFeature { target: String, feature: String, witness: String },
    /// Explicit finite-work or retained-state boundary.
    ResourceLimit { operation: String, requested: usize, limit: usize },
    OutsideBounds,
    EvaluationError(String),
    Other(String),
}

impl Clone for IncompleteReason {
    fn clone(&self) -> (r: Self)
        ensures
            r == *self,
    {
        match self {
            IncompleteReason::Unsupported(m) => IncompleteReason::Unsupported(m.clone()),
            IncompleteReason::UnsupportedFeature { target, feature, witness } => IncompleteReason::UnsupportedFeature {
                target: target.clone(),
                feature: feature.clone(),
                witness: witness.clone(),
            },
            IncompleteReason::ResourceLimit { operation, requested, limit } => IncompleteReason::ResourceLimit {
                operation: operation.clone(),
                requested: *requested,
                limit: *limit,
            },
            IncompleteReason::OutsideBounds => IncompleteReason::OutsideBounds,
            IncompleteReason::EvaluationError(m) => IncompleteReason::EvaluationError(m.clone()),
            IncompleteReason::Other(m) => IncompleteReason::Other(m.clone()),
        }
    }
}

#[derive(Debug, Clone, PartialEq, Eq, PartialOrd, Ord, Hash)]
pub struct MissingCorrelator {
    pub correlator: CorrelatorKey,
    pub reason: IncompleteReason,
}

#[derive(Debug, Clone, PartialEq, Eq)]
pub struct EvaluatedTerm<C> {
    pub term_index: usize,
    pub exact_contribution: C,
}

/// Every term index `0..total` occurs exactly once among the evaluated terms.
pub open spec fn complete_term_accounting<C>(evaluated: Seq<EvaluatedTerm<C>>, total: nat) -> bool {
    &&& evaluated.len() == total
    &&& forall|i: int| 0 <= i < evaluated.len() ==> #[trigger] evaluated[i].term_index < total
    &&& forall|i: int, j: int|
        0 <= i < j < evaluated.len() ==> #[trigger] evaluated[i].term_index != #[trigger] evaluated[j].term_index
}

/// Some evaluated term has index `t`.
pub open spec fn accounts_for<C>(evaluated: Seq<EvaluatedTerm<C>>, t: int) -> bool {
    exists|i: int| 0 <= i < evaluated.len() && #[trigger] evaluated[i].term_index == t
}

/// A complete accounting names every term index `0..total`, each exactly once.
pub proof fn lemma_complete_accounting_covers<C>(evaluated: Seq<EvaluatedTerm<C>>, total: nat)
    requires
        complete_term_accounting(evaluated, total),
    ensures
        forall|t: int| 0 <= t < total ==> #[trigger] accounts_for(evaluated, t),
        forall|i: int, j: int| 0 <= i < evaluated.len() && 0 <= j < evaluated.len()
            && #[trigger] evaluated[i].term_index == #[trigger] evaluated[j].term_index ==> i == j,
{
    assert forall|t: int| 0 <= t < total implies #[trigger] accounts_for(evaluated, t) by {
        if !accounts_for(evaluated, t) {
            let s = Seq::new(evaluated.len(), |i: int| evaluated[i].term_index as int);
            assert(s.no_duplicates()) by {
                assert forall|i: int, j: int| 0 <= i < s.len() && 0 <= j < s.len() && i != j implies s[i] != s[j] by {
                    if i < j {
                        assert(evaluated[i].term_index != evaluated[j].term_index);
                    } else {
                        assert(evaluated[j].term_index != evaluated[i].term_index);
                    }
                }
            }
            s.unique_seq_to_set();
            let range = vstd::set_lib::set_int_range(0, total as int).remove(t);
            vstd::set_lib::lemma_int_range(0, total as int);
            assert(s.to_set().subset_of(range)) by {
                assert forall|x: int| s.to_set().contains(x) implies range.contains(x) by {
                    let i = choose|i: int| 0 <= i < s.len() && s[i] == x;
                    assert(evaluated[i].term_index < total);
                }
            }
            vstd::set_lib::lemma_len_subset(s.to_set(), range);
            assert(false);
        }
    }
    assert forall|i: int, j: int| 0 <= i < evaluated.len() && 0 <= j < evaluated.len()
        && #[trigger] evaluated[i].term_index == #[trigger] evaluated[j].term_index implies i == j by {
        if i < j {
            assert(evaluated[i].term_index != evaluated[j].term_index);
        } else if j < i {
            assert(evaluated[j].term_index != evaluated[i].term_index);
        }
    }
}

/// The note recorded when a complete residual is rejected for its term
/// accounting.
pub open spec fn accounting_note() -> Seq<char> {
    "complete residual rejected: every constraint term must be accounted for exactly once"@
}

/// The note recorded when the dependency closure was truncated.
pub open spec fn truncation_note(retained_limit: nat) -> Seq<char> {
    "dependency closure truncated at "@ + decimal(retained_limit)
        + " retained canonical keys; one omitted dependency is recorded as an OutsideBounds witness"@
}

/// `a + b`, saturating at `usize::MAX`.
pub open spec fn saturating_sum(a: nat, b: nat) -> nat {
    if a + b <= usize::MAX { a + b } else { usize::MAX as nat }
}

/// Auditable result of substituting exact correlators into one constraint.
#[derive(Debug, Clone, PartialEq, Eq)]
pub struct ResidualReport<C> {
    outcome: ResidualOutcome<C>,
    total_terms: usize,
    evaluated_terms: Vec<EvaluatedTerm<C>>,
    missing_correlators: Vec<MissingCorrelator>,
    /// Unique dependencies whose value came from the selected evaluator
    /// backend.
    backend_correlators: Vec<CorrelatorKey>,
    /// Unique dependencies proved zero from effectivity, stability, or virtual
    /// dimension without invoking the evaluator backend.
    structural_zero_correlators: Vec<CorrelatorKey>,
    /// True when the evaluator retained only a bounded canonical prefix of the
    /// unique dependency closure.
    dependency_closure_truncated: bool,
    notes: Vec<String>,
}

impl<C> ResidualReport<C> {
    pub closed spec fn spec_outcome(&self) -> ResidualOutcome<C> {
        self.outcome
    }

    pub closed spec fn spec_total_terms(&self) -> nat {
        self.total_terms as nat
    }

    pub closed spec fn spec_evaluated_terms(&self) -> Seq<EvaluatedTerm<C>> {
        self.evaluated_terms@
    }

    pub closed spec fn spec_missing_correlators(&self) -> Seq<MissingCorrelator> {
        self.missing_correlators@
    }

    pub closed spec fn spec_backend_correlators(&self) -> Seq<CorrelatorKey> {
        self.backend_correlators@
    }

    pub closed spec fn spec_structural_zero_correlators(&self) -> Seq<CorrelatorKey> {
        self.structural_zero_correlators@
    }

    pub closed spec fn spec_dependency_closure_truncated(&self) -> bool {
        self.dependency_closure_truncated
    }

    pub closed spec fn spec_notes(&self) -> Seq<Seq<char>> {
        self.notes@.map_values(|n: String| n@)
    }

    /// Every term is accounted for exactly once.
    pub open spec fn spec_complete_term_accounting(&self) -> bool {
        complete_term_accounting(self.spec_evaluated_terms(), self.spec_total_terms())
    }

    /// The pass/fail status: decisive only for a complete, untruncated report
    /// without missing dependencies.
    pub open spec fn spec_status(&self) -> ResidualStatus {
        if self.spec_dependency_closure_truncated() || self.spec_missing_correlators().len() > 0
            || !self.spec_complete_term_accounting() {
            ResidualStatus::Incomplete
        } else {
            self.spec_outcome().spec_status()
        }
    }

    /// A report built from a complete outcome: when the term accounting is
    /// incomplete, the outcome is demoted and an explanatory note recorded.
    pub open spec fn spec_complete_outcome_ok(
        r: Self,
        outcome: ResidualOutcome<C>,
        total_terms: usize,
        evaluated_terms: Seq<EvaluatedTerm<C>>,
    ) -> bool {
        let accounted = complete_term_accounting(evaluated_terms, total_terms as nat);
        &&& r.spec_total_terms() == total_terms
        &&& r.spec_evaluated_terms() == evaluated_terms
        &&& r.spec_missing_correlators().len() == 0
        &&& r.spec_backend_correlators().len() == 0
        &&& r.spec_structural_zero_correlators().len() == 0
        &&& !r.spec_dependency_closure_truncated()
        &&& accounted ==> r.spec_outcome() == outcome && r.spec_notes().len() == 0
        &&& !accounted ==> r.spec_outcome() == outcome.spec_demoted() && r.spec_notes()
            == seq![accounting_note()]
    }

    fn has_complete_term_accounting(&self) -> (complete: bool)
        ensures
            complete == self.spec_complete_term_accounting(),
    {
        if self.evaluated_terms.len() != self.total_terms {
            return false;
        }
        let total = self.total_terms;
        let mut seen: Vec<bool> = Vec::new();
        while seen.len() < total
            invariant
                seen@.len() <= total,
                forall|k: int| 0 <= k < seen@.len() ==> !seen@[k],
            decreases total - seen@.len(),
        {
            seen.push(false);
        }
        let mut i: usize = 0;
        while i < self.evaluated_terms.len()
            invariant
                i <= self.evaluated_terms@.len(),
                self.evaluated_terms@.len() == total,
                seen@.len() == total,
                forall|a: int| 0 <= a < i ==> #[trigger] self.evaluated_terms@[a].term_index < total,
                forall|a: int, b: int| 0 <= a < b < i ==>
                    #[trigger] self.evaluated_terms@[a].term_index != #[trigger] self.evaluated_terms@[b].term_index,
                forall|k: int| 0 <= k < total ==> (#[trigger] seen@[k] <==> exists|a: int|
                    0 <= a < i && self.evaluated_terms@[a].term_index == k),
            decreases self.evaluated_terms@.len() - i,
        {
            let index = self.evaluated_terms[i].term_index;
            if index >= total {
                return false;
            }
            if seen[index] {
                proof {
                    let a = choose|a: int| 0 <= a < i && self.evaluated_terms@[a].term_index == index;
                    assert(self.evaluated_terms@[a].term_index == self.evaluated_terms@[i as int].term_index);
                }
                return false;
            }
            let ghost old_seen = seen@;
            seen.set(index, true);
            proof {
                assert(!old_seen[index as int]);
                assert forall|k: int| 0 <= k < total implies (#[trigger] seen@[k] <==> exists|a: int|
                    0 <= a < i + 1 && self.evaluated_terms@[a].term_index == k) by {
                    if k == index {
                        assert(self.evaluated_terms@[i as int].term_index == k);
                    } else {
                        if exists|a: int| 0 <= a < i + 1 && self.evaluated_terms@[a].term_index == k {
                            let a = choose|a: int| 0 <= a < i + 1 && self.evaluated_terms@[a].term_index == k;
                            assert(a < i);
                        }
                    }
                }
                assert forall|a: int, b: int| 0 <= a < b < i + 1 implies
                    #[trigger] self.evaluated_terms@[a].term_index != #[trigger] self.evaluated_terms@[b].term_index by {
                    if b == i {
                        if self.evaluated_terms@[a].term_index == index {
                            assert(old_seen[index as int]);
                        }
                    }
                }
            }
            i += 1;
        }
        true
    }

    fn complete_outcome(outcome: ResidualOutcome<C>, total_terms: usize, evaluated_terms: Vec<EvaluatedTerm<C>>) -> (r: Self)
        ensures
            Self::spec_complete_outcome_ok(r, outcome, total_terms, evaluated_terms@),
    {
        let mut report = Self {
            outcome,
            total_terms,
            evaluated_terms,
            missing_correlators: Vec::new(),
            backend_correlators: Vec::new(),
            structural_zero_correlators: Vec::new(),
            dependency_closure_truncated: false,
            notes: Vec::new(),
        };
        if !report.has_complete_term_accounting() {
            report.outcome = report.outcome.demoted();
            report.notes.push(string_from(
                "complete residual rejected: every constraint term must be accounted for exactly once",
            ));
            proof {
                assert(report.spec_notes() =~= seq![accounting_note()]);
            }
        } else {
            proof {
                assert(report.spec_notes() =~= Seq::<Seq<char>>::empty());
            }
        }
        report
    }

    /// A complete report whose exact residual vanishes.
    pub fn verified_zero(exact_residual: C, total_terms: usize, evaluated_terms: Vec<EvaluatedTerm<C>>) -> (r: Self)
        ensures
            Self::spec_complete_outcome_ok(
                r,
                ResidualOutcome::VerifiedZero { exact_residual },
                total_terms,
                evaluated_terms@,
            ),
    {
        Self::complete_outcome(ResidualOutcome::VerifiedZero { exact_residual }, total_terms, evaluated_terms)
    }

    /// A complete report whose exact residual does not vanish.
    pub fn nonzero(exact_residual: C, total_terms: usize, evaluated_terms: Vec<EvaluatedTerm<C>>) -> (r: Self)
        ensures
            Self::spec_complete_outcome_ok(
                r,
                ResidualOutcome::Nonzero { exact_residual },
                total_terms,
                evaluated_terms@,
            ),
    {
        Self::complete_outcome(ResidualOutcome::Nonzero { exact_residual }, total_terms, evaluated_terms)
    }

    /// An incomplete report with the missing dependencies recorded.
    pub fn incomplete(
        exact_partial_sum: Option<C>,
        total_terms: usize,
        evaluated_terms: Vec<EvaluatedTerm<C>>,
        missing_correlators: Vec<MissingCorrelator>,
    ) -> (r: Self)
        ensures
            r.spec_outcome() == (ResidualOutcome::Incomplete { exact_partial_sum }),
            r.spec_total_terms() == total_terms,
            r.spec_evaluated_terms() == evaluated_terms@,
            r.spec_missing_correlators() == missing_correlators@,
            r.spec_backend_correlators().len() == 0,
            r.spec_structural_zero_correlators().len() == 0,
            !r.spec_dependency_closure_truncated(),
            r.spec_notes().len() == 0,
            r.spec_status() == ResidualStatus::Incomplete,
    {
        let r = Self {
            outcome: ResidualOutcome::Incomplete { exact_partial_sum },
            total_terms,
            evaluated_terms,
            missing_correlators,
            backend_correlators: Vec::new(),
            structural_zero_correlators: Vec::new(),
            dependency_closure_truncated: false,
            notes: Vec::new(),
        };
        proof {
            assert(r.spec_notes() =~= Seq::<Seq<char>>::empty());
        }
        r
    }

    /// Raw exact outcome for rendering; pass/fail decisions use [`Self::status`].
    pub fn outcome(&self) -> (o: &ResidualOutcome<C>)
        ensures
            *o == self.spec_outcome(),
    {
        &self.outcome
    }

    /// Exact residual only when the report has a decisive status.
    pub fn exact_residual(&self) -> (r: Option<&C>)
        ensures
            r is Some <==> self.spec_status() != ResidualStatus::Incomplete,
            r matches Some(v) ==> self.spec_outcome().spec_exact_residual() == Some(*v),
    {
        match self.status() {
            ResidualStatus::VerifiedZero | ResidualStatus::Nonzero => self.outcome.exact_residual(),
            ResidualStatus::Incomplete => None,
        }
    }

    /// Pass/fail status.  It is decisive only when the closure was not
    /// truncated, no dependency is missing, and every term is accounted for
    /// exactly once.
    pub fn status(&self) -> (s: ResidualStatus)
        ensures
            s == self.spec_status(),
            s != ResidualStatus::Incomplete ==> self.spec_complete_term_accounting()
                && self.spec_missing_correlators().len() == 0
                && !self.spec_dependency_closure_truncated()
                && s == self.spec_outcome().spec_status(),
    {
        if self.dependency_closure_truncated || self.missing_correlators.len() > 0
            || !self.has_complete_term_accounting() {
            ResidualStatus::Incomplete
        } else {
            self.outcome.status()
        }
    }

    pub fn evaluated_term_count(&self) -> (n: usize)
        ensures
            n == self.spec_evaluated_terms().len(),
    {
        self.evaluated_terms.len()
    }

    pub fn total_term_count(&self) -> (n: usize)
        ensures
            n == self.spec_total_terms(),
    {
        self.total_terms
    }

    pub fn evaluated_terms(&self) -> (out: &[EvaluatedTerm<C>])
        ensures
            out@ == self.spec_evaluated_terms(),
    {
        self.evaluated_terms.as_slice()
    }

    pub fn missing_correlators(&self) -> (out: &[MissingCorrelator])
        ensures
            out@ == self.spec_missing_correlators(),
    {
        self.missing_correlators.as_slice()
    }

    pub fn backend_correlators(&self) -> (out: &[CorrelatorKey])
        ensures
            out@ == self.spec_backend_correlators(),
    {
        self.backend_correlators.as_slice()
    }

    pub fn structural_zero_correlators(&self) -> (out: &[CorrelatorKey])
        ensures
            out@ == self.spec_structural_zero_correlators(),
    {
        self.structural_zero_correlators.as_slice()
    }

    /// Whether at least one unique correlator dependency was omitted by the
    /// evaluator's dependency limit.
    pub fn dependency_closure_truncated(&self) -> (t: bool)
        ensures
            t == self.spec_dependency_closure_truncated(),
    {
        self.dependency_closure_truncated
    }

    pub fn notes(&self) -> (out: &[String])
        ensures
            out@.map_values(|n: String| n@) == self.spec_notes(),
    {
        self.notes.as_slice()
    }

    pub fn backend_correlator_count(&self) -> (n: usize)
        ensures
            n == self.spec_backend_correlators().len(),
    {
        self.backend_correlators.len()
    }

    pub fn structural_zero_correlator_count(&self) -> (n: usize)
        ensures
            n == self.spec_structural_zero_correlators().len(),
    {
        self.structural_zero_correlators.len()
    }

    pub fn missing_correlator_count(&self) -> (n: usize)
        ensures
            n == self.spec_missing_correlators().len(),
    {
        self.missing_correlators.len()
    }

    /// Dependencies resolved by the backend or as structural zeros.
    pub fn resolved_correlator_count(&self) -> (n: usize)
        ensures
            n == saturating_sum(
                self.spec_backend_correlators().len(),
                self.spec_structural_zero_correlators().len(),
            ),
    {
        self.backend_correlators.len().saturating_add(self.structural_zero_correlators.len())
    }

    /// Number of unique dependency diagnostics retained in this report:
    /// resolved plus missing.
    pub fn dependency_count(&self) -> (n: usize)
        ensures
            n == saturating_sum(
                saturating_sum(
                    self.spec_backend_correlators().len(),
                    self.spec_structural_zero_correlators().len(),
                ),
                self.spec_missing_correlators().len(),
            ),
    {
        self.resolved_correlator_count().saturating_add(self.missing_correlators.len())
    }

    pub fn is_complete(&self) -> (c: bool)
        ensures
            c == (self.spec_status() != ResidualStatus::Incomplete),
    {
        match self.status() {
            ResidualStatus::Incomplete => false,
            _ => true,
        }
    }

    /// Record which dependencies came from the backend and which were
    /// certified structural zeros.
    pub fn with_dependency_coverage(
        self,
        backend_correlators: Vec<CorrelatorKey>,
        structural_zero_correlators: Vec<CorrelatorKey>,
    ) -> (r: Self)
        ensures
            r.spec_outcome() == self.spec_outcome(),
            r.spec_total_terms() == self.spec_total_terms(),
            r.spec_evaluated_terms() == self.spec_evaluated_terms(),
            r.spec_missing_correlators() == self.spec_missing_correlators(),
            r.spec_backend_correlators() == backend_correlators@,
            r.spec_structural_zero_correlators() == structural_zero_correlators@,
            r.spec_dependency_closure_truncated() == self.spec_dependency_closure_truncated(),
            r.spec_notes() == self.spec_notes(),
            r.spec_status() == self.spec_status(),
    {
        let mut report = self;
        report.backend_correlators = backend_correlators;
        report.structural_zero_correlators = structural_zero_correlators;
        report
    }

    /// Mark the dependency closure as truncated at `retained_limit`: the
    /// outcome is demoted and the report can never be decisive.
    pub fn with_truncated_dependency_closure(self, retained_limit: usize) -> (r: Self)
        ensures
            r.spec_dependency_closure_truncated(),
            r.spec_outcome() == self.spec_outcome().spec_demoted(),
            r.spec_total_terms() == self.spec_total_terms(),
            r.spec_evaluated_terms() == self.spec_evaluated_terms(),
            r.spec_missing_correlators() == self.spec_missing_correlators(),
            r.spec_backend_correlators() == self.spec_backend_correlators(),
            r.spec_structural_zero_correlators() == self.spec_structural_zero_correlators(),
            r.spec_notes() == self.spec_notes().push(truncation_note(retained_limit as nat)),
            r.spec_status() == ResidualStatus::Incomplete,
    {
        let mut report = self;
        report.dependency_closure_truncated = true;
        report.outcome = report.outcome.demoted();
        let mut note = string_from("dependency closure truncated at ");
        push_usize(&mut note, retained_limit);
        push_str(
            &mut note,
            " retained canonical keys; one omitted dependency is recorded as an OutsideBounds witness",
        );
        report.notes.push(note);
        proof {
            assert(report.spec_notes() =~= self.spec_notes().push(truncation_note(retained_limit as nat)));
        }
        report
    }

    /// Append a free-form note.
    pub fn with_note(self, note: &str) -> (r: Self)
        ensures
            r.spec_outcome() == self.spec_outcome(),
            r.spec_total_terms() == self.spec_total_terms(),
            r.spec_evaluated_terms() == self.spec_evaluated_terms(),
            r.spec_missing_correlators() == self.spec_missing_correlators(),
            r.spec_backend_correlators() == self.spec_backend_correlators(),
            r.spec_structural_zero_correlators() == self.spec_structural_zero_correlators(),
            r.spec_dependency_closure_truncated() == self.spec_dependency_closure_truncated(),
            r.spec_notes() == self.spec_notes().push(note@),
            r.spec_status() == self.spec_status(),
    {
        let mut report = self;
        report.notes.push(string_from(note));
        proof {
            assert(report.spec_notes() =~= self.spec_notes().push(note@));
        }
        report
    }
}

/// A report built from a complete residual is decisive exactly when its
/// term accounting is complete; its status then equals the outcome's.
pub proof fn lemma_complete_outcome_status<C>(
    r: ResidualReport<C>,
    outcome: ResidualOutcome<C>,
    total_terms: usize,
    evaluated_terms: Seq<EvaluatedTerm<C>>,
)
    requires
        ResidualReport::spec_complete_outcome_ok(r, outcome, total_terms, evaluated_terms),
        outcome.spec_status() != ResidualStatus::Incomplete,
    ensures
        complete_term_accounting(evaluated_terms, total_terms as nat) ==> r.spec_status() == outcome.spec_status(),
        !complete_term_accounting(evaluated_terms, total_terms as nat) ==> r.spec_status() == ResidualStatus::Incomplete
            && r.spec_outcome().spec_status() == ResidualStatus::Incomplete,
{
}

} // verus!
