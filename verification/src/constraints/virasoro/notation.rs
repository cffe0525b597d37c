//! Notation read from the canonical theory that generated an equation.  It
//! supplies names only and cannot alter any coefficient or correlator key.

use vstd::prelude::*;
use super::ast::VirasoroConstraint;
use super::render::{constraint_tex, constraint_text, ConstraintNotation};
use crate::foundation::error::GwError;
use crate::foundation::gw_theory::{copy_strings, GwTheory};
use crate::foundation::rational::{rational_text, Rational};
use crate::foundation::theory::{curve_text, BasisId, CurveClass};
use crate::text::{decimal, join_seqs, join_strings, push_i128, push_str, push_string, push_usize, signed_decimal, string_from};

verus! {

/// The name of coordinate `i`: the given name, or `d<i+1>` past the end.
pub open spec fn coordinate_name(names: Seq<Seq<char>>, i: int) -> Seq<char> {
    if 0 <= i < names.len() {
        names[i]
    } else {
        "d"@ + decimal((i + 1) as nat)
    }
}

/// A curve class with named coordinates: the bare coordinate in rank one,
/// otherwise `(name=value, ...)`, separated by `,\ ` in TeX.
pub open spec fn named_degree_text(coordinates: Seq<i64>, names: Seq<Seq<char>>, tex: bool) -> Seq<char> {
    if coordinates.len() == 1 {
        curve_text(coordinates)
    } else {
        "("@ + join_seqs(
            Seq::new(coordinates.len(), |i: int| coordinate_name(names, i) + "="@ + signed_decimal(coordinates[i] as int)),
            if tex { ",\\ "@ } else { ", "@ },
        ) + ")"@
    }
}

pub open spec fn string_views(v: Seq<String>) -> Seq<Seq<char>> {
    Seq::new(v.len(), |i: int| v[i]@)
}

/// The spelling of a curve class with named coordinates.
pub fn named_degree(degree: &CurveClass, names: &Vec<String>, tex: bool) -> (out: String)
    ensures
        out@ == named_degree_text(degree@, string_views(names@), tex),
{
    if degree.rank() == 1 {
        return degree.text();
    }
    let coordinates = degree.coordinates();
    let ghost names_view = string_views(names@);
    let mut parts: Vec<String> = Vec::new();
    let mut i: usize = 0;
    while i < coordinates.len()
        invariant
            i <= coordinates@.len(),
            coordinates@ == degree@,
            names_view == string_views(names@),
            parts@.len() == i,
            forall|j: int| 0 <= j < i ==> (#[trigger] parts@[j])@
                == coordinate_name(names_view, j) + "="@ + signed_decimal(coordinates@[j] as int),
        decreases coordinates@.len() - i,
    {
        let mut part = if i < names.len() {
            string_from(names[i].as_str())
        } else {
            let mut fallback = string_from("d");
            push_usize(&mut fallback, i + 1);
            fallback
        };
        push_str(&mut part, "=");
        push_i128(&mut part, coordinates[i] as i128);
        parts.push(part);
        i = i + 1;
    }
    let joined = join_strings(&parts, if tex { ",\\ " } else { ", " });
    let mut out = string_from("(");
    push_string(&mut out, &joined);
    push_str(&mut out, ")");
    proof {
        let items = Seq::new(degree@.len(), |j: int| coordinate_name(names_view, j) + "="@ + signed_decimal(degree@[j] as int));
        assert(parts@.map_values(|s: String| s@) =~= items);
    }
    out
}

/// Names and labels read once from a canonical theory: curve coordinate
/// names (plain and TeX), and the plain and TeX labels of its basis.
pub struct CanonicalTheoryNotation {
    pub coordinate_names: Vec<String>,
    pub coordinate_tex_names: Vec<String>,
    pub basis_labels: Vec<String>,
    pub basis_tex_labels: Vec<Option<String>>,
}

/// The TeX label of basis element `index`, or `e_{index}` when the theory
/// gives none.
pub open spec fn basis_tex_label(labels: Seq<Option<String>>, index: nat) -> Seq<char> {
    if index < labels.len() && labels[index as int] is Some {
        labels[index as int]->0@
    } else {
        "e_{"@ + decimal(index) + "}"@
    }
}

impl CanonicalTheoryNotation {
    /// Reads the names and labels of `theory`: its curve coordinate names,
    /// their TeX spellings, and the plain and TeX labels of each basis
    /// element.
    pub fn new<T: GwTheory>(theory: &T) -> (n: Self)
        ensures
            string_views(n.coordinate_names@) == string_views(theory.spec_curve_class_space().coordinate_names@),
            n.basis_labels@.len() == theory.spec_state_space().basis@.len(),
            forall|i: int| 0 <= i < n.basis_labels@.len()
                ==> (#[trigger] n.basis_labels@[i])@ == theory.spec_state_space().basis@[i].label@,
            n.basis_tex_labels@.len() == theory.spec_state_space().basis@.len(),
    {
        let space = theory.state_space();
        let mut basis_labels: Vec<String> = Vec::new();
        let mut basis_tex_labels: Vec<Option<String>> = Vec::new();
        let mut i: usize = 0;
        while i < space.basis.len()
            invariant
                i <= space.basis@.len(),
                *space == theory.spec_state_space(),
                basis_labels@.len() == i,
                basis_tex_labels@.len() == i,
                forall|j: int| 0 <= j < i ==> (#[trigger] basis_labels@[j])@ == space.basis@[j].label@,
            decreases space.basis@.len() - i,
        {
            basis_labels.push(string_from(space.basis[i].label.as_str()));
            basis_tex_labels.push(theory.basis_tex(BasisId(i)));
            i = i + 1;
        }
        let coordinate_names = copy_strings(&theory.curve_class_space().coordinate_names);
        proof {
            assert(string_views(coordinate_names@) =~= string_views(theory.spec_curve_class_space().coordinate_names@));
        }
        CanonicalTheoryNotation {
            coordinate_names,
            coordinate_tex_names: theory.curve_coordinate_tex_names(),
            basis_labels,
            basis_tex_labels,
        }
    }
}

impl ConstraintNotation<Rational> for CanonicalTheoryNotation {
    open spec fn spec_degree_text(&self, degree: CurveClass) -> Seq<char> {
        named_degree_text(degree@, string_views(self.coordinate_names@), false)
    }

    open spec fn spec_degree_tex(&self, degree: CurveClass) -> Seq<char> {
        named_degree_text(degree@, string_views(self.coordinate_tex_names@), true)
    }

    open spec fn spec_basis_text(&self, basis: BasisId) -> Seq<char> {
        if basis.0 < self.basis_labels@.len() {
            self.basis_labels@[basis.0 as int]@
        } else {
            basis.spec_text()
        }
    }

    open spec fn spec_basis_tex(&self, basis: BasisId) -> Seq<char> {
        basis_tex_label(self.basis_tex_labels@, basis.0 as nat)
    }

    open spec fn spec_coefficient_text(&self, coefficient: Rational) -> Seq<char> {
        rational_text(coefficient@)
    }

    open spec fn spec_coefficient_tex(&self, coefficient: Rational) -> Seq<char> {
        rational_text(coefficient@)
    }

    fn degree_text(&self, degree: &CurveClass) -> (out: String) {
        named_degree(degree, &self.coordinate_names, false)
    }

    fn degree_tex(&self, degree: &CurveClass) -> (out: String) {
        named_degree(degree, &self.coordinate_tex_names, true)
    }

    fn basis_text(&self, basis: &BasisId) -> (out: String) {
        if basis.0 < self.basis_labels.len() {
            string_from(self.basis_labels[basis.0].as_str())
        } else {
            basis.text()
        }
    }

    fn basis_tex(&self, basis: &BasisId) -> (out: String) {
        if basis.0 < self.basis_tex_labels.len() {
            match &self.basis_tex_labels[basis.0] {
                Some(label) => {
                    return string_from(label.as_str());
                },
                None => {},
            }
        }
        let mut out = string_from("e_{");
        push_usize(&mut out, basis.0);
        push_str(&mut out, "}");
        out
    }

    fn coefficient_text(&self, coefficient: &Rational) -> (out: String) {
        coefficient.text()
    }

    fn coefficient_tex(&self, coefficient: &Rational) -> (out: String) {
        coefficient.text()
    }
}

impl VirasoroConstraint<Rational> {
    /// Notation may only come from the theory whose fingerprint the
    /// constraint carries.
    pub fn check_notation_fingerprint(&self, fingerprint: &String) -> (r: Result<(), GwError>)
        ensures
            r is Ok <==> self.theory_fingerprint@ == fingerprint@,
            r matches Err(e) ==> (e matches GwError::ConventionMismatch(m)
                && m@ == "cannot render a Virasoro constraint with notation from a different theory"@),
    {
        if self.theory_fingerprint == *fingerprint {
            Ok(())
        } else {
            Err(GwError::ConventionMismatch(string_from(
                "cannot render a Virasoro constraint with notation from a different theory",
            )))
        }
    }

    /// Render with the labels of the canonical theory that generated this
    /// constraint; another theory's notation is refused.
    pub fn render_text_for_theory<T: GwTheory>(&self, theory: &T) -> (r: Result<String, GwError>)
        ensures
            r matches Err(e) ==> (e matches GwError::ConventionMismatch(m)
                && m@ == "cannot render a Virasoro constraint with notation from a different theory"@),
            r matches Ok(s) ==> exists|n: CanonicalTheoryNotation| s@ == constraint_text::<Rational, CanonicalTheoryNotation>(n, *self),
    {
        let fingerprint = theory.theory_fingerprint();
        match self.check_notation_fingerprint(&fingerprint) {
            Err(e) => Err(e),
            Ok(()) => {
                let notation = CanonicalTheoryNotation::new(theory);
                Ok(self.render_text_with(&notation))
            },
        }
    }

    /// Render TeX with the labels of the canonical theory that generated this
    /// constraint; another theory's notation is refused.
    pub fn render_tex_for_theory<T: GwTheory>(&self, theory: &T) -> (r: Result<String, GwError>)
        ensures
            r matches Err(e) ==> (e matches GwError::ConventionMismatch(m)
                && m@ == "cannot render a Virasoro constraint with notation from a different theory"@),
            r matches Ok(s) ==> exists|n: CanonicalTheoryNotation| s@ == constraint_tex::<Rational, CanonicalTheoryNotation>(n, *self),
    {
        let fingerprint = theory.theory_fingerprint();
        match self.check_notation_fingerprint(&fingerprint) {
            Err(e) => Err(e),
            Ok(()) => {
                let notation = CanonicalTheoryNotation::new(theory);
                Ok(self.render_tex_with(&notation))
            },
        }
    }
}

} // verus!
