//! The complete target data a theory supplies to universal identities.

use vstd::prelude::*;
use crate::foundation::error::GwError;
use crate::foundation::rational::{same_value, Rational};
use crate::text::{decimal, string_from};
use crate::foundation::state_space::{anomaly_value, CharacteristicNumbers, StateSpace};
use crate::foundation::theory::{
    BasisId, CurveClass, CurveClassSpace, CurveClassSplit, CurveEffectivity, VirasoroOperatorKind,
};

verus! {

/// A copy of each string.
pub fn copy_strings(items: &Vec<String>) -> (out: Vec<String>)
    ensures
        out@.len() == items@.len(),
        forall|i: int| 0 <= i < items@.len() ==> (#[trigger] out@[i])@ == items@[i]@,
{
    let mut out: Vec<String> = Vec::new();
    let mut i: usize = 0;
    while i < items.len()
        invariant
            i <= items@.len(),
            out@.len() == i,
            forall|j: int| 0 <= j < i ==> (#[trigger] out@[j])@ == items@[j]@,
        decreases items@.len() - i,
    {
        out.push(string_from(items[i].as_str()));
        i = i + 1;
    }
    out
}

/// Target data of a Gromov--Witten theory, implemented by each concrete
/// target: its canonical state space, curve lattice, effective splittings
/// and characteristic numbers.
/// Each required method's answer is named by a specification function, which
/// an implementation refines; an implementation that does not refine them
/// leaves them unconstrained.
pub trait GwTheory {
    /// The value `theory_id` returns.
    closed spec fn spec_theory_id(&self) -> Seq<char> {
        arbitrary()
    }

    /// The value `target_dimension` returns.
    closed spec fn spec_target_dimension(&self) -> nat {
        arbitrary()
    }

    /// The state space `state_space` returns.
    closed spec fn spec_state_space(&self) -> StateSpace {
        arbitrary()
    }

    /// The curve lattice `curve_class_space` returns.
    closed spec fn spec_curve_class_space(&self) -> CurveClassSpace {
        arbitrary()
    }

    /// The answer of `c1_pairing` for a class.
    closed spec fn spec_c1_pairing(&self, curve: Seq<i64>) -> Result<i64, GwError> {
        arbitrary()
    }

    /// The answer of `effectivity` for a class.
    closed spec fn spec_effectivity(&self, curve: Seq<i64>) -> Result<CurveEffectivity, GwError> {
        arbitrary()
    }

    /// The characteristic numbers `characteristic_numbers` returns.
    closed spec fn spec_characteristic_numbers(&self) -> Option<CharacteristicNumbers> {
        arbitrary()
    }

    /// The operator model `virasoro_operator_kind` reports.
    closed spec fn spec_virasoro_operator_kind(&self) -> VirasoroOperatorKind {
        arbitrary()
    }

    /// The fingerprint `theory_fingerprint` returns.
    closed spec fn spec_theory_fingerprint(&self) -> Seq<char> {
        arbitrary()
    }

    /// The answer of `admissible_decompositions` for a class.
    closed spec fn spec_admissible_decompositions(&self, total: Seq<i64>) -> Result<Seq<CurveClassSplit>, GwError> {
        arbitrary()
    }

    /// The answer of `admissible_decomposition_count` for a class.
    closed spec fn spec_admissible_decomposition_count(&self, total: Seq<i64>) -> Result<usize, GwError> {
        arbitrary()
    }

    /// The answer of `bounded_admissible_class_count` for a bound.
    closed spec fn spec_bounded_admissible_class_count(&self, max_total: usize) -> Result<usize, GwError> {
        arbitrary()
    }

    /// The answer of `bounded_admissible_classes` for a bound.
    closed spec fn spec_bounded_admissible_classes(&self, max_total: usize) -> Result<Seq<CurveClass>, GwError> {
        arbitrary()
    }

    fn theory_id(&self) -> (id: String)
        ensures
            id@ == self.spec_theory_id(),
    ;

    /// TeX spelling of the theory; by default its identifier.
    fn theory_tex(&self) -> (tex: String)
        default_ensures
            tex@ == self.spec_theory_id(),
    {
        self.theory_id()
    }

    fn target_dimension(&self) -> (d: usize)
        ensures
            d as nat == self.spec_target_dimension(),
    ;

    fn virasoro_operator_kind(&self) -> (kind: VirasoroOperatorKind)
        ensures
            kind == self.spec_virasoro_operator_kind(),
    ;

    /// Stable identity for all geometry and conventions that affect a
    /// generated coefficient equation.  Backends must expose the fingerprint
    /// of the exact canonical theory they evaluate.
    fn theory_fingerprint(&self) -> (fingerprint: String)
        ensures
            fingerprint@ == self.spec_theory_fingerprint(),
    ;

    fn state_space(&self) -> (space: &StateSpace)
        ensures
            *space == self.spec_state_space(),
    ;

    fn curve_class_space(&self) -> (space: &CurveClassSpace)
        ensures
            *space == self.spec_curve_class_space(),
    ;

    /// TeX spelling of a canonical basis element; by default its plain-text
    /// label.
    fn basis_tex(&self, basis: BasisId) -> (tex: Option<String>)
        default_ensures
            basis.0 < self.spec_state_space().basis@.len()
                ==> (tex matches Some(t) && t@ == self.spec_state_space().basis@[basis.0 as int].label@),
            basis.0 >= self.spec_state_space().basis@.len() ==> tex is None,
    {
        match self.state_space().element(basis) {
            Some(element) => Some(string_from(element.label.as_str())),
            None => None,
        }
    }

    /// TeX spellings of the curve coordinates in canonical lattice order; by
    /// default the plain-text coordinate names.
    fn curve_coordinate_tex_names(&self) -> (names: Vec<String>)
        default_ensures
            names@.len() == self.spec_curve_class_space().coordinate_names@.len(),
            forall|i: int| 0 <= i < names@.len()
                ==> (#[trigger] names@[i])@ == self.spec_curve_class_space().coordinate_names@[i]@,
    {
        copy_strings(&self.curve_class_space().coordinate_names)
    }

    fn c1_pairing(&self, curve: &CurveClass) -> (r: Result<i64, GwError>)
        ensures
            r == self.spec_c1_pairing(curve@),
    ;

    fn effectivity(&self, curve: &CurveClass) -> (r: Result<CurveEffectivity, GwError>)
        ensures
            r == self.spec_effectivity(curve@),
    ;

    fn characteristic_numbers(&self) -> (numbers: Option<&CharacteristicNumbers>)
        ensures
            match self.spec_characteristic_numbers() {
                Some(n) => numbers matches Some(x) && *x == n,
                None => numbers is None,
            },
    ;

    fn admissible_decompositions(&self, total: &CurveClass) -> (r: Result<Vec<CurveClassSplit>, GwError>)
        ensures
            match r {
                Ok(v) => self.spec_admissible_decompositions(total@) == Ok::<Seq<CurveClassSplit>, GwError>(v@),
                Err(e) => self.spec_admissible_decompositions(total@) == Err::<Seq<CurveClassSplit>, GwError>(e),
            },
    ;

    /// Number of ordered splits returned by `admissible_decompositions`, so
    /// that generators can enforce their term budget before materializing
    /// the splits.
    fn admissible_decomposition_count(&self, total: &CurveClass) -> (r: Result<usize, GwError>)
        ensures
            r == self.spec_admissible_decomposition_count(total@),
    ;

    /// Number of classes returned by `bounded_admissible_classes`.
    fn bounded_admissible_class_count(&self, max_total: usize) -> (r: Result<usize, GwError>)
        ensures
            r == self.spec_bounded_admissible_class_count(max_total),
    ;

    /// Candidate classes whose theory-defined nonnegative grading is at most
    /// `max_total`.
    fn bounded_admissible_classes(&self, max_total: usize) -> (r: Result<Vec<CurveClass>, GwError>)
        ensures
            match r {
                Ok(v) => self.spec_bounded_admissible_classes(max_total) == Ok::<Seq<CurveClass>, GwError>(v@),
                Err(e) => self.spec_bounded_admissible_classes(max_total) == Err::<Seq<CurveClass>, GwError>(e),
            },
    ;

    /// The genus-one anomaly from the characteristic numbers, when known.
    fn virasoro_anomaly(&self) -> (a: Option<Rational>)
        ensures
            match self.spec_characteristic_numbers() {
                Some(n) => a matches Some(v) && same_value(v@, anomaly_value(
                    n.top_chern_integral@, n.c1_c_dim_minus_one_integral@, self.spec_target_dimension() as int)),
                None => a is None,
            },
    {
        match self.characteristic_numbers() {
            Some(numbers) => Some(numbers.virasoro_anomaly(self.target_dimension())),
            None => None,
        }
    }

    /// Virtual dimension `(1 - g)(dim - 3) + c_1(beta) + n` of the moduli
    /// space of `n`-pointed genus-`g` stable maps of class `beta`, after the
    /// class has been validated against the curve lattice.
    fn virtual_dimension(&self, genus: usize, curve: &CurveClass, markings: usize) -> (r: Result<isize, GwError>)
        ensures
            virtual_dimension_outcome(
                r,
                self.spec_curve_class_space(),
                self.spec_c1_pairing(curve@),
                self.spec_target_dimension(),
                genus,
                *curve,
                markings,
            ),
    {
        match self.curve_class_space().validate(curve) {
            Ok(()) => {},
            Err(error) => {
                return Err(error);
            },
        }
        let c1_pairing = match self.c1_pairing(curve) {
            Ok(value) => value,
            Err(error) => {
                return Err(error);
            },
        };
        checked_virtual_dimension(self.target_dimension(), genus, c1_pairing, markings)
    }
}

/// Whether `r` is the answer of `virtual_dimension`: the class is validated
/// against the lattice, then the `c_1` pairing is asked for, then the
/// dimension is computed (see [`virtual_dimension_value`]).
pub open spec fn virtual_dimension_outcome(
    r: Result<isize, GwError>,
    space: CurveClassSpace,
    c1: Result<i64, GwError>,
    dimension: nat,
    genus: usize,
    curve: CurveClass,
    markings: usize,
) -> bool {
    if curve@.len() != space.coordinate_names@.len() {
        r matches Err(GwError::ConventionMismatch(m)) && m@ == "curve class has rank "@ + decimal(curve@.len())
            + ", but theory expects rank "@ + decimal(space.coordinate_names@.len())
    } else {
        match c1 {
            Err(e) => r == Err::<isize, GwError>(e),
            Ok(c) => match virtual_dimension_value(dimension as int, genus as int, c as int, markings as int) {
                Ok(v) => r == Ok::<isize, GwError>(v as isize),
                Err(m) => r matches Err(GwError::AlgebraFailure(s)) && s@ == m,
            },
        }
    }
}

/// Whether `x` is a value of `i128`.
pub open spec fn fits_i128(x: int) -> bool {
    i128::MIN <= x <= i128::MAX
}

/// `(1 - genus)(dimension - 3) + c1 + markings` evaluated step by step in
/// `i128` (product, then `+ c1`, then `+ markings`), then narrowed to
/// `isize`; the message of the first step that does not fit.
pub open spec fn virtual_dimension_value(dimension: int, genus: int, c1: int, markings: int) -> Result<int, Seq<char>> {
    let product = (1 - genus) * (dimension - 3);
    let with_c1 = product + c1;
    let total = with_c1 + markings;
    if !fits_i128(product) || !fits_i128(with_c1) || !fits_i128(total) {
        Err("virtual dimension overflow"@)
    } else if !(isize::MIN <= total <= isize::MAX) {
        Err("virtual dimension does not fit in isize"@)
    } else {
        Ok(total)
    }
}

/// The checked virtual dimension from the target dimension, genus, the
/// pairing `c_1(beta)` and the number of markings.
pub fn checked_virtual_dimension(dimension: usize, genus: usize, c1_pairing: i64, markings: usize) -> (r: Result<isize, GwError>)
    ensures
        match virtual_dimension_value(dimension as int, genus as int, c1_pairing as int, markings as int) {
            Ok(v) => r == Ok::<isize, GwError>(v as isize),
            Err(m) => r matches Err(GwError::AlgebraFailure(s)) && s@ == m,
        },
{
    let dimension = dimension as i128;
    let genus = genus as i128;
    let markings = markings as i128;
    let c1 = c1_pairing as i128;
    let value = match (1i128 - genus).checked_mul(dimension - 3) {
        Some(product) => match product.checked_add(c1) {
            Some(with_c1) => with_c1.checked_add(markings),
            None => None,
        },
        None => None,
    };
    match value {
        Some(total) => {
            if total < isize::MIN as i128 || total > isize::MAX as i128 {
                Err(GwError::AlgebraFailure(string_from("virtual dimension does not fit in isize")))
            } else {
                Ok(total as isize)
            }
        },
        None => Err(GwError::AlgebraFailure(string_from("virtual dimension overflow"))),
    }
}

} // verus!
