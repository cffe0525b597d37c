//! Plain-text and TeX renderings of coefficient constraints.
//!
//! Rendering never supplies mathematical data: the degree, basis key, and
//! coefficient have already been chosen by the constraint generator, and a
//! [`ConstraintNotation`] only spells them.

use vstd::prelude::*;
use vstd::string::*;
use super::ast::{
    ConstraintTerm, CorrelatorKey, Descendant, QuadraticTerm, TimeMonomial, VirasoroConstraint, VirasoroConventions,
    FormulaSource,
};
use crate::foundation::theory::{curve_text, BasisId, CurveClass};
use crate::text::{
    comma_list, comma_list_text, concat_all, decimal, join_seqs, join_strings, lemma_concat_all_push,
    push_char, push_i128, push_str, push_string, push_usize, signed_decimal, string_from,
};

verus! {

/// Target-specific notation used only for presentation: text and TeX
/// spellings of degrees, basis elements, and coefficients.  Each spelling
/// method returns the text its specification function names; an
/// implementation that does not refine the specification functions leaves
/// them unconstrained.
pub trait ConstraintNotation<C> {
    closed spec fn spec_degree_text(&self, degree: CurveClass) -> Seq<char> {
        arbitrary()
    }

    closed spec fn spec_degree_tex(&self, degree: CurveClass) -> Seq<char> {
        arbitrary()
    }

    closed spec fn spec_basis_text(&self, basis: BasisId) -> Seq<char> {
        arbitrary()
    }

    closed spec fn spec_basis_tex(&self, basis: BasisId) -> Seq<char> {
        arbitrary()
    }

    closed spec fn spec_coefficient_text(&self, coefficient: C) -> Seq<char> {
        arbitrary()
    }

    closed spec fn spec_coefficient_tex(&self, coefficient: C) -> Seq<char> {
        arbitrary()
    }

    fn degree_text(&self, degree: &CurveClass) -> (out: String)
        ensures
            out@ == self.spec_degree_text(*degree),
    ;

    fn degree_tex(&self, degree: &CurveClass) -> (out: String)
        ensures
            out@ == self.spec_degree_tex(*degree),
    ;

    fn basis_text(&self, basis: &BasisId) -> (out: String)
        ensures
            out@ == self.spec_basis_text(*basis),
    ;

    fn basis_tex(&self, basis: &BasisId) -> (out: String)
        ensures
            out@ == self.spec_basis_tex(*basis),
    ;

    fn coefficient_text(&self, coefficient: &C) -> (out: String)
        ensures
            out@ == self.spec_coefficient_text(*coefficient),
    ;

    fn coefficient_tex(&self, coefficient: &C) -> (out: String)
        ensures
            out@ == self.spec_coefficient_tex(*coefficient),
    ;
}

/// Notation whose spellings are the plain printed forms: curve classes as
/// coordinates, basis elements as `e_<index>`, and coefficients that are
/// already text.
#[derive(Debug, Clone, Copy, Default)]
pub struct DisplayNotation;

impl ConstraintNotation<String> for DisplayNotation {
    open spec fn spec_degree_text(&self, degree: CurveClass) -> Seq<char> {
        curve_text(degree@)
    }

    open spec fn spec_degree_tex(&self, degree: CurveClass) -> Seq<char> {
        curve_text(degree@)
    }

    open spec fn spec_basis_text(&self, basis: BasisId) -> Seq<char> {
        basis.spec_text()
    }

    open spec fn spec_basis_tex(&self, basis: BasisId) -> Seq<char> {
        basis.spec_text()
    }

    open spec fn spec_coefficient_text(&self, coefficient: String) -> Seq<char> {
        coefficient@
    }

    open spec fn spec_coefficient_tex(&self, coefficient: String) -> Seq<char> {
        coefficient@
    }

    fn degree_text(&self, degree: &CurveClass) -> (out: String) {
        degree.text()
    }

    fn degree_tex(&self, degree: &CurveClass) -> (out: String) {
        degree.text()
    }

    fn basis_text(&self, basis: &BasisId) -> (out: String) {
        basis.text()
    }

    fn basis_tex(&self, basis: &BasisId) -> (out: String) {
        basis.text()
    }

    fn coefficient_text(&self, coefficient: &String) -> (out: String) {
        coefficient.clone()
    }

    fn coefficient_tex(&self, coefficient: &String) -> (out: String) {
        coefficient.clone()
    }
}

// ---------------------------------------------------------------------------
// Specifications of the plain-text rendering.
// ---------------------------------------------------------------------------

pub open spec fn time_factor_text<C, N: ConstraintNotation<C>>(n: N, f: (Descendant, usize)) -> Seq<char> {
    let factor = "t_"@ + decimal(f.0.psi_power as nat) + "("@ + n.spec_basis_text(f.0.class) + ")"@;
    if f.1 == 1 { factor } else { factor + "^"@ + decimal(f.1 as nat) }
}

pub open spec fn time_text<C, N: ConstraintNotation<C>>(n: N, m: Seq<(Descendant, usize)>) -> Seq<char> {
    if m.len() == 0 {
        "1"@
    } else {
        join_seqs(m.map_values(|f: (Descendant, usize)| time_factor_text::<C, N>(n, f)), " "@)
    }
}

pub open spec fn descendant_text<C, N: ConstraintNotation<C>>(n: N, d: Descendant) -> Seq<char> {
    "tau_"@ + decimal(d.psi_power as nat) + "("@ + n.spec_basis_text(d.class) + ")"@
}

pub open spec fn correlator_text<C, N: ConstraintNotation<C>>(n: N, k: CorrelatorKey) -> Seq<char> {
    let insertions = if k@.2.len() == 0 {
        "1"@
    } else {
        join_seqs(k@.2.map_values(|d: Descendant| descendant_text::<C, N>(n, d)), ", "@)
    };
    "<"@ + insertions + ">_{g="@ + decimal(k@.0 as nat) + ",beta="@ + n.spec_degree_text(k.spec_degree()) + "}"@
}

pub open spec fn term_text<C, N: ConstraintNotation<C>>(n: N, t: ConstraintTerm<C>) -> Seq<char> {
    match t {
        ConstraintTerm::Constant { coefficient, .. } => "("@ + n.spec_coefficient_text(coefficient)
            + ")"@,
        ConstraintTerm::Linear(term) => "("@ + n.spec_coefficient_text(term.coefficient) + ") "@
            + correlator_text::<C, N>(n, term.correlator),
        ConstraintTerm::Quadratic(term) => "("@ + n.spec_coefficient_text(term.coefficient) + ") "@
            + correlator_text::<C, N>(n, term.left) + " * "@ + correlator_text::<C, N>(n, term.right),
    }
}

pub open spec fn term_line_text<C, N: ConstraintNotation<C>>(n: N, index: int, t: ConstraintTerm<C>) -> Seq<char> {
    (if index == 0 { "  0 = "@ } else { "    + "@ }) + term_text::<C, N>(n, t) + "  ["@
        + t.spec_origin().spec_label() + "]\n"@
}

pub open spec fn formula_text<C, N: ConstraintNotation<C>>(n: N, terms: Seq<ConstraintTerm<C>>) -> Seq<char> {
    if terms.len() == 0 {
        "  0 = 0\n"@
    } else {
        concat_all(Seq::new(terms.len(), |i: int| term_line_text::<C, N>(n, i, terms[i])))
    }
}

pub open spec fn labelled_lines(prefix: Seq<char>, values: Seq<Seq<char>>) -> Seq<char> {
    concat_all(values.map_values(|v: Seq<char>| prefix + v + "\n"@))
}

pub open spec fn conventions_text(c: VirasoroConventions) -> Seq<char> {
    "- Potential: "@ + c.potential.spec_label() + "\n"@
        + "- Time normalization: "@ + c.time_normalization.spec_label() + "\n"@
        + "- Dilaton shift: "@ + c.dilaton_shift.spec_label() + "\n"@
        + "- Grading: "@ + c.grading.spec_label() + "\n"@
        + "- Unstable terms: "@ + c.unstable.spec_label() + "\n"@
        + "- State space: "@ + c.state_space.spec_label() + "\n"@
        + "- Novikov variables: "@ + comma_list_text(c.novikov_variables@.map_values(|s: String| s@)) + "\n"@
        + "- Equivariant parameters: "@ + comma_list_text(c.equivariant_parameters@.map_values(|s: String| s@)) + "\n"@
        + labelled_lines("- Note: "@, c.notes@.map_values(|s: String| s@))
}

pub open spec fn optional_line(prefix: Seq<char>, value: Option<String>) -> Seq<char> {
    match value {
        Some(v) => prefix + v@ + "\n"@,
        None => Seq::empty(),
    }
}

pub open spec fn source_text(s: FormulaSource) -> Seq<char> {
    "- "@ + s.title@ + "\n"@
        + optional_line("- Citation: "@, s.citation)
        + optional_line("- Locator: "@, s.locator)
        + optional_line("- Derivation: "@, s.derivation)
        + labelled_lines("- Note: "@, s.notes@.map_values(|v: String| v@))
}

pub open spec fn constraint_text<C, N: ConstraintNotation<C>>(n: N, c: VirasoroConstraint<C>) -> Seq<char> {
    "Virasoro coefficient constraint\n"@
        + "===============================\n"@
        + "Theory: "@ + c.theory.text@ + "\n"@
        + "Operator: L_"@ + signed_decimal(c.operator.index as int) + "\n"@
        + "Sector: g="@ + decimal(c.sector.genus as nat) + ", beta="@ + n.spec_degree_text(c.sector.degree) + "\n"@
        + "Extracted coefficient: "@ + time_text::<C, N>(n, c.time_coefficient@) + "\n"@
        + "\nFormula:\n"@ + formula_text::<C, N>(n, c.terms@)
        + "\nConventions:\n"@ + conventions_text(c.conventions)
        + "\nSource:\n"@ + source_text(c.source)
}

// ---------------------------------------------------------------------------
// Plain-text rendering.
// ---------------------------------------------------------------------------

fn render_time_text<C, N: ConstraintNotation<C>>(monomial: &TimeMonomial, notation: &N) -> (out: String)
    ensures
        out@ == time_text::<C, N>(*notation, monomial@),
{
    if monomial.is_one() {
        return string_from("1");
    }
    let factors = monomial.factors();
    let mut parts: Vec<String> = Vec::new();
    let mut i: usize = 0;
    while i < factors.len()
        invariant
            i <= factors@.len(),
            factors@ == monomial@,
            parts@.len() == i,
            forall|j: int| 0 <= j < i ==> #[trigger] parts@[j]@ == time_factor_text::<C, N>(*notation, factors@[j]),
        decreases factors@.len() - i,
    {
        let (descendant, multiplicity) = factors[i];
        let mut factor = string_from("t_");
        push_usize(&mut factor, descendant.psi_power);
        push_str(&mut factor, "(");
        let basis = notation.basis_text(&descendant.class);
        push_string(&mut factor, &basis);
        push_str(&mut factor, ")");
        if multiplicity != 1 {
            push_str(&mut factor, "^");
            push_usize(&mut factor, multiplicity);
        }
        proof {
            assert(factor@ =~= time_factor_text::<C, N>(*notation, factors@[i as int]));
        }
        parts.push(factor);
        i += 1;
    }
    let out = join_strings(&parts, " ");
    proof {
        assert(parts@.map_values(|s: String| s@) =~= monomial@.map_values(
            |f: (Descendant, usize)| time_factor_text::<C, N>(*notation, f),
        ));
    }
    out
}

fn render_descendant_text<C, N: ConstraintNotation<C>>(descendant: &Descendant, notation: &N) -> (out: String)
    ensures
        out@ == descendant_text::<C, N>(*notation, *descendant),
{
    let mut out = string_from("tau_");
    push_usize(&mut out, descendant.psi_power);
    push_str(&mut out, "(");
    let basis = notation.basis_text(&descendant.class);
    push_string(&mut out, &basis);
    push_str(&mut out, ")");
    proof {
        assert(out@ =~= descendant_text::<C, N>(*notation, *descendant));
    }
    out
}

fn render_correlator_text<C, N: ConstraintNotation<C>>(correlator: &CorrelatorKey, notation: &N) -> (out: String)
    ensures
        out@ == correlator_text::<C, N>(*notation, *correlator),
{
    let insertions = correlator.insertions();
    let joined = if insertions.len() == 0 {
        string_from("1")
    } else {
        let mut parts: Vec<String> = Vec::new();
        let mut i: usize = 0;
        while i < insertions.len()
            invariant
                i <= insertions@.len(),
                insertions@ == correlator@.2,
                parts@.len() == i,
                forall|j: int| 0 <= j < i ==> #[trigger] parts@[j]@ == descendant_text::<C, N>(*notation, insertions@[j]),
            decreases insertions@.len() - i,
        {
            parts.push(render_descendant_text(&insertions[i], notation));
            i += 1;
        }
        proof {
            assert(parts@.map_values(|s: String| s@) =~= correlator@.2.map_values(
                |d: Descendant| descendant_text::<C, N>(*notation, d),
            ));
        }
        join_strings(&parts, ", ")
    };
    let mut out = string_from("<");
    push_string(&mut out, &joined);
    push_str(&mut out, ">_{g=");
    push_usize(&mut out, correlator.genus());
    push_str(&mut out, ",beta=");
    let degree = notation.degree_text(correlator.degree());
    push_string(&mut out, &degree);
    push_str(&mut out, "}");
    proof {
        assert(out@ =~= correlator_text::<C, N>(*notation, *correlator));
    }
    out
}

fn render_term_text<C, N: ConstraintNotation<C>>(term: &ConstraintTerm<C>, notation: &N) -> (out: String)
    ensures
        out@ == term_text::<C, N>(*notation, *term),
{
    let mut out = string_from("(");
    match term {
        ConstraintTerm::Constant { coefficient, .. } => {
            let c = notation.coefficient_text(coefficient);
            push_string(&mut out, &c);
            push_str(&mut out, ")");
        },
        ConstraintTerm::Linear(t) => {
            let c = notation.coefficient_text(&t.coefficient);
            push_string(&mut out, &c);
            push_str(&mut out, ") ");
            let k = render_correlator_text(&t.correlator, notation);
            push_string(&mut out, &k);
        },
        ConstraintTerm::Quadratic(t) => {
            let c = notation.coefficient_text(&t.coefficient);
            push_string(&mut out, &c);
            push_str(&mut out, ") ");
            let l = render_correlator_text(&t.left, notation);
            push_string(&mut out, &l);
            push_str(&mut out, " * ");
            let r = render_correlator_text(&t.right, notation);
            push_string(&mut out, &r);
        },
    }
    proof {
        assert(out@ =~= term_text::<C, N>(*notation, *term));
    }
    out
}

fn push_labelled_lines(out: &mut String, prefix: &str, values: &Vec<String>)
    ensures
        final(out)@ == old(out)@ + labelled_lines(prefix@, values@.map_values(|s: String| s@)),
{
    let ghost vs = values@.map_values(|s: String| s@);
    let ghost lines = vs.map_values(|v: Seq<char>| prefix@ + v + "\n"@);
    let mut i: usize = 0;
    while i < values.len()
        invariant
            i <= values@.len(),
            vs == values@.map_values(|s: String| s@),
            lines == vs.map_values(|v: Seq<char>| prefix@ + v + "\n"@),
            out@ == old(out)@ + concat_all(lines.take(i as int)),
        decreases values@.len() - i,
    {
        push_str(out, prefix);
        push_string(out, &values[i]);
        push_str(out, "\n");
        proof {
            assert(lines.take(i + 1) =~= lines.take(i as int).push(lines[i as int]));
            lemma_concat_all_push(lines.take(i as int), lines[i as int]);
            assert(out@ =~= old(out)@ + concat_all(lines.take(i + 1)));
        }
        i += 1;
    }
    proof {
        assert(lines.take(values@.len() as int) =~= lines);
    }
}

fn push_optional_line(out: &mut String, prefix: &str, value: &Option<String>)
    ensures
        final(out)@ == old(out)@ + optional_line(prefix@, *value),
{
    match value {
        Some(v) => {
            push_str(out, prefix);
            push_string(out, v);
            push_str(out, "\n");
            proof {
                assert(final(out)@ =~= old(out)@ + optional_line(prefix@, *value));
            }
        },
        None => {
            proof {
                assert(out@ =~= old(out)@ + optional_line(prefix@, *value));
            }
        },
    }
}

fn push_conventions_text(out: &mut String, c: &VirasoroConventions)
    ensures
        final(out)@ == old(out)@ + conventions_text(*c),
{
    push_str(out, "- Potential: ");
    push_str(out, c.potential.label());
    push_str(out, "\n- Time normalization: ");
    push_str(out, c.time_normalization.label());
    push_str(out, "\n- Dilaton shift: ");
    push_str(out, c.dilaton_shift.label());
    push_str(out, "\n- Grading: ");
    push_str(out, c.grading.label());
    push_str(out, "\n- Unstable terms: ");
    push_str(out, c.unstable.label());
    push_str(out, "\n- State space: ");
    push_str(out, c.state_space.label());
    push_str(out, "\n- Novikov variables: ");
    let novikov = comma_list(&c.novikov_variables);
    push_string(out, &novikov);
    push_str(out, "\n- Equivariant parameters: ");
    let equivariant = comma_list(&c.equivariant_parameters);
    push_string(out, &equivariant);
    push_str(out, "\n");
    let ghost mid = out@;
    push_labelled_lines(out, "- Note: ", &c.notes);
    proof {
        reveal_strlit("\n");
        reveal_strlit("\n- Time normalization: ");
        reveal_strlit("- Time normalization: ");
        reveal_strlit("\n- Dilaton shift: ");
        reveal_strlit("- Dilaton shift: ");
        reveal_strlit("\n- Grading: ");
        reveal_strlit("- Grading: ");
        reveal_strlit("\n- Unstable terms: ");
        reveal_strlit("- Unstable terms: ");
        reveal_strlit("\n- State space: ");
        reveal_strlit("- State space: ");
        reveal_strlit("\n- Novikov variables: ");
        reveal_strlit("- Novikov variables: ");
        reveal_strlit("\n- Equivariant parameters: ");
        reveal_strlit("- Equivariant parameters: ");
        assert(final(out)@ =~= old(out)@ + conventions_text(*c));
    }
}

fn push_source_text(out: &mut String, s: &FormulaSource)
    ensures
        final(out)@ == old(out)@ + source_text(*s),
{
    push_str(out, "- ");
    push_string(out, &s.title);
    push_str(out, "\n");
    push_optional_line(out, "- Citation: ", &s.citation);
    push_optional_line(out, "- Locator: ", &s.locator);
    push_optional_line(out, "- Derivation: ", &s.derivation);
    push_labelled_lines(out, "- Note: ", &s.notes);
    proof {
        assert(final(out)@ =~= old(out)@ + source_text(*s));
    }
}

fn render_term_line_text<C, N: ConstraintNotation<C>>(index: usize, term: &ConstraintTerm<C>, notation: &N) -> (out: String)
    ensures
        out@ == term_line_text::<C, N>(*notation, index as int, *term),
{
    let mut out = if index == 0 { string_from("  0 = ") } else { string_from("    + ") };
    let t = render_term_text(term, notation);
    push_string(&mut out, &t);
    push_str(&mut out, "  [");
    push_str(&mut out, term.origin().label());
    push_str(&mut out, "]\n");
    proof {
        assert(out@ =~= term_line_text::<C, N>(*notation, index as int, *term));
    }
    out
}

fn push_formula_text<C, N: ConstraintNotation<C>>(out: &mut String, terms: &Vec<ConstraintTerm<C>>, notation: &N)
    ensures
        final(out)@ == old(out)@ + formula_text::<C, N>(*notation, terms@),
{
    if terms.len() == 0 {
        push_str(out, "  0 = 0\n");
        return;
    }
    let ghost lines = Seq::new(terms@.len(), |i: int| term_line_text::<C, N>(*notation, i, terms@[i]));
    let mut i: usize = 0;
    while i < terms.len()
        invariant
            i <= terms@.len(),
            terms@.len() > 0,
            lines == Seq::new(terms@.len(), |i: int| term_line_text::<C, N>(*notation, i, terms@[i])),
            out@ == old(out)@ + concat_all(lines.take(i as int)),
        decreases terms@.len() - i,
    {
        let line = render_term_line_text(i, &terms[i], notation);
        push_string(out, &line);
        proof {
            assert(lines.take(i + 1) =~= lines.take(i as int).push(lines[i as int]));
            lemma_concat_all_push(lines.take(i as int), lines[i as int]);
            assert(out@ =~= old(out)@ + concat_all(lines.take(i + 1)));
        }
        i += 1;
    }
    proof {
        assert(lines.take(terms@.len() as int) =~= lines);
    }
}

impl<C> VirasoroConstraint<C> {
    /// The plain-text rendering: header, formula, conventions, and source.
    pub fn render_text_with<N: ConstraintNotation<C>>(&self, notation: &N) -> (out: String)
        ensures
            out@ == constraint_text::<C, N>(*notation, *self),
    {
        let mut out = string_from("Virasoro coefficient constraint\n");
        push_str(&mut out, "===============================\n");
        push_str(&mut out, "Theory: ");
        push_string(&mut out, &self.theory.text);
        push_str(&mut out, "\n");
        push_str(&mut out, "Operator: L_");
        push_i128(&mut out, self.operator.index as i128);
        push_str(&mut out, "\n");
        push_str(&mut out, "Sector: g=");
        push_usize(&mut out, self.sector.genus);
        push_str(&mut out, ", beta=");
        let degree = notation.degree_text(&self.sector.degree);
        push_string(&mut out, &degree);
        push_str(&mut out, "\n");
        push_str(&mut out, "Extracted coefficient: ");
        let time = render_time_text(&self.time_coefficient, notation);
        push_string(&mut out, &time);
        push_str(&mut out, "\n");
        push_str(&mut out, "\nFormula:\n");
        push_formula_text(&mut out, &self.terms, notation);
        push_str(&mut out, "\nConventions:\n");
        push_conventions_text(&mut out, &self.conventions);
        push_str(&mut out, "\nSource:\n");
        push_source_text(&mut out, &self.source);
        proof {
            assert(out@ =~= constraint_text::<C, N>(*notation, *self));
        }
        out
    }
}

// ---------------------------------------------------------------------------
// TeX escaping.
// ---------------------------------------------------------------------------

/// TeX spelling of one prose character.
pub open spec fn tex_escape_char(c: char) -> Seq<char> {
    if c == '\\' { "\\textbackslash{}"@ }
    else if c == '{' { "\\{"@ }
    else if c == '}' { "\\}"@ }
    else if c == '$' { "\\$"@ }
    else if c == '&' { "\\&"@ }
    else if c == '#' { "\\#"@ }
    else if c == '_' { "\\_"@ }
    else if c == '%' { "\\%"@ }
    else if c == '^' { "\\textasciicircum{}"@ }
    else if c == '~' { "\\textasciitilde{}"@ }
    else { seq![c] }
}

/// TeX escaping of prose, character by character.
pub open spec fn tex_escaped(s: Seq<char>) -> Seq<char>
    decreases s.len(),
{
    if s.len() == 0 {
        Seq::empty()
    } else {
        tex_escaped(s.drop_last()) + tex_escape_char(s.last())
    }
}

fn push_tex_escaped_char(out: &mut String, c: char)
    ensures
        final(out)@ == old(out)@ + tex_escape_char(c),
{
    if c == '\\' { push_str(out, "\\textbackslash{}"); }
    else if c == '{' { push_str(out, "\\{"); }
    else if c == '}' { push_str(out, "\\}"); }
    else if c == '$' { push_str(out, "\\$"); }
    else if c == '&' { push_str(out, "\\&"); }
    else if c == '#' { push_str(out, "\\#"); }
    else if c == '_' { push_str(out, "\\_"); }
    else if c == '%' { push_str(out, "\\%"); }
    else if c == '^' { push_str(out, "\\textasciicircum{}"); }
    else if c == '~' { push_str(out, "\\textasciitilde{}"); }
    else { push_char(out, c); }
}

/// Escapes the TeX special characters of `value`.
pub fn tex_escape(value: &str) -> (out: String)
    ensures
        out@ == tex_escaped(value@),
{
    let mut out = String::new();
    let n = value.unicode_len();
    let mut i: usize = 0;
    while i < n
        invariant
            i <= n,
            n == value@.len(),
            out@ == tex_escaped(value@.take(i as int)),
        decreases n - i,
    {
        let c = value.get_char(i);
        push_tex_escaped_char(&mut out, c);
        proof {
            assert(value@.take(i + 1).drop_last() =~= value@.take(i as int));
        }
        i += 1;
    }
    proof {
        assert(value@.take(n as int) =~= value@);
    }
    out
}

/// The mathematical fragments that convention prose may contain, with their
/// TeX math spellings.
pub open spec fn prose_fragment(k: int) -> Seq<char> {
    if k == 0 { "Z^{-1} L_k Z"@ }
    else if k == 1 { "q_k^a = t_k^a - delta_(k,1) delta_(a,unit)"@ }
    else if k == 2 { "1/n!"@ }
    else { "t=0"@ }
}

pub open spec fn prose_fragment_tex(k: int) -> Seq<char> {
    if k == 0 { "\\(Z^{-1}L_kZ\\)"@ }
    else if k == 1 { "\\(q_k^a=t_k^a-\\delta_{k,1}\\delta_{a,\\mathrm{unit}}\\)"@ }
    else if k == 2 { "\\(1/n!\\)"@ }
    else { "\\(t=0\\)"@ }
}

pub open spec fn starts_with(s: Seq<char>, prefix: Seq<char>) -> bool {
    prefix.len() <= s.len() && s.subrange(0, prefix.len() as int) == prefix
}

/// Escaped prose in which each known fragment is replaced by its TeX math
/// spelling; the remaining characters are escaped.
pub open spec fn tex_prose_text(s: Seq<char>) -> Seq<char>
    decreases s.len(),
{
    if s.len() == 0 {
        Seq::empty()
    } else if prose_fragment(0).len() > 0 && starts_with(s, prose_fragment(0)) {
        prose_fragment_tex(0) + tex_prose_text(s.skip(prose_fragment(0).len() as int))
    } else if prose_fragment(1).len() > 0 && starts_with(s, prose_fragment(1)) {
        prose_fragment_tex(1) + tex_prose_text(s.skip(prose_fragment(1).len() as int))
    } else if prose_fragment(2).len() > 0 && starts_with(s, prose_fragment(2)) {
        prose_fragment_tex(2) + tex_prose_text(s.skip(prose_fragment(2).len() as int))
    } else if prose_fragment(3).len() > 0 && starts_with(s, prose_fragment(3)) {
        prose_fragment_tex(3) + tex_prose_text(s.skip(prose_fragment(3).len() as int))
    } else {
        tex_escape_char(s[0]) + tex_prose_text(s.drop_first())
    }
}

fn fragment(k: usize) -> (out: (&'static str, &'static str))
    requires
        k < 4,
    ensures
        out.0@ == prose_fragment(k as int),
        out.1@ == prose_fragment_tex(k as int),
{
    if k == 0 {
        ("Z^{-1} L_k Z", "\\(Z^{-1}L_kZ\\)")
    } else if k == 1 {
        ("q_k^a = t_k^a - delta_(k,1) delta_(a,unit)", "\\(q_k^a=t_k^a-\\delta_{k,1}\\delta_{a,\\mathrm{unit}}\\)")
    } else if k == 2 {
        ("1/n!", "\\(1/n!\\)")
    } else {
        ("t=0", "\\(t=0\\)")
    }
}

/// Whether `pattern` occurs in `value` at character position `pos`.
fn matches_at(value: &str, len: usize, pos: usize, pattern: &str) -> (m: (bool, usize))
    requires
        len == value@.len(),
        pos <= len,
    ensures
        m.1 == pattern@.len(),
        m.0 == starts_with(value@.skip(pos as int), pattern@),
{
    let plen = pattern.unicode_len();
    if plen > len - pos {
        return (false, plen);
    }
    let mut j: usize = 0;
    while j < plen
        invariant
            j <= plen,
            plen == pattern@.len(),
            pos + plen <= len,
            len == value@.len(),
            forall|t: int| 0 <= t < j ==> value@[pos + t] == pattern@[t],
        decreases plen - j,
    {
        if value.get_char(pos + j) != pattern.get_char(j) {
            proof {
                assert(value@.skip(pos as int).subrange(0, plen as int)[j as int] != pattern@[j as int]);
            }
            return (false, plen);
        }
        j += 1;
    }
    proof {
        assert(value@.skip(pos as int).subrange(0, plen as int) =~= pattern@);
    }
    (true, plen)
}

/// Escapes prose while preserving the documented mathematical fragments.
pub fn tex_prose(value: &str) -> (out: String)
    ensures
        out@ == tex_prose_text(value@),
{
    let len = value.unicode_len();
    let mut out = String::new();
    let mut pos: usize = 0;
    assert(value@.skip(0) =~= value@);
    while pos < len
        invariant
            pos <= len,
            len == value@.len(),
            out@ + tex_prose_text(value@.skip(pos as int)) == tex_prose_text(value@),
        decreases len - pos,
    {
        let ghost rest = value@.skip(pos as int);
        let mut k: usize = 0;
        let mut found: Option<(usize, usize)> = None;
        while k < 4 && found.is_none()
            invariant
                k <= 4,
                pos < len,
                len == value@.len(),
                rest == value@.skip(pos as int),
                found is None ==> forall|t: int| 0 <= t < k ==> !(prose_fragment(t).len() > 0 && starts_with(rest, #[trigger] prose_fragment(t))),
                found matches Some(f) ==> f.0 < 4 && prose_fragment(f.0 as int).len() > 0
                    && starts_with(rest, prose_fragment(f.0 as int))
                    && f.1 == prose_fragment(f.0 as int).len()
                    && (forall|t: int| 0 <= t < f.0 ==> !(prose_fragment(t).len() > 0 && starts_with(rest, #[trigger] prose_fragment(t)))),
            decreases 4 - k,
        {
            let (plain, _) = fragment(k);
            let (hit, plen) = matches_at(value, len, pos, plain);
            if hit && plen > 0 {
                found = Some((k, plen));
            }
            k += 1;
        }
        match found {
            None => {
                let c = value.get_char(pos);
                push_tex_escaped_char(&mut out, c);
                proof {
                    assert(!(prose_fragment(0).len() > 0 && starts_with(rest, prose_fragment(0))));
                    assert(!(prose_fragment(1).len() > 0 && starts_with(rest, prose_fragment(1))));
                    assert(!(prose_fragment(2).len() > 0 && starts_with(rest, prose_fragment(2))));
                    assert(!(prose_fragment(3).len() > 0 && starts_with(rest, prose_fragment(3))));
                    assert(rest[0] == c);
                    assert(rest.drop_first() =~= value@.skip(pos + 1));
                    assert(tex_prose_text(rest) == tex_escape_char(rest[0]) + tex_prose_text(rest.drop_first()));
                }
                pos += 1;
            },
            Some((index, plen)) => {
                let (_, tex) = fragment(index);
                push_str(&mut out, tex);
                proof {
                    assert(rest.skip(plen as int) =~= value@.skip(pos + plen));
                    if index == 0 {
                        assert(tex_prose_text(rest) == prose_fragment_tex(0) + tex_prose_text(rest.skip(plen as int)));
                    } else if index == 1 {
                        assert(!(prose_fragment(0).len() > 0 && starts_with(rest, prose_fragment(0))));
                        assert(tex_prose_text(rest) == prose_fragment_tex(1) + tex_prose_text(rest.skip(plen as int)));
                    } else if index == 2 {
                        assert(!(prose_fragment(0).len() > 0 && starts_with(rest, prose_fragment(0))));
                        assert(!(prose_fragment(1).len() > 0 && starts_with(rest, prose_fragment(1))));
                        assert(tex_prose_text(rest) == prose_fragment_tex(2) + tex_prose_text(rest.skip(plen as int)));
                    } else {
                        assert(!(prose_fragment(0).len() > 0 && starts_with(rest, prose_fragment(0))));
                        assert(!(prose_fragment(1).len() > 0 && starts_with(rest, prose_fragment(1))));
                        assert(!(prose_fragment(2).len() > 0 && starts_with(rest, prose_fragment(2))));
                        assert(tex_prose_text(rest) == prose_fragment_tex(3) + tex_prose_text(rest.skip(plen as int)));
                    }
                }
                pos += plen;
            },
        }
    }
    proof {
        assert(value@.skip(len as int) =~= Seq::<char>::empty());
        assert(out@ =~= out@ + tex_prose_text(value@.skip(len as int)));
    }
    out
}

// ---------------------------------------------------------------------------
// TeX rendering.
// ---------------------------------------------------------------------------

pub open spec fn time_factor_tex<C, N: ConstraintNotation<C>>(n: N, f: (Descendant, usize)) -> Seq<char> {
    let factor = "t_{"@ + decimal(f.0.psi_power as nat) + "}^{"@ + n.spec_basis_tex(f.0.class) + "}"@;
    if f.1 == 1 { factor } else { "\\left("@ + factor + "\\right)^{"@ + decimal(f.1 as nat) + "}"@ }
}

pub open spec fn time_tex<C, N: ConstraintNotation<C>>(n: N, m: Seq<(Descendant, usize)>) -> Seq<char> {
    if m.len() == 0 {
        "1"@
    } else {
        join_seqs(m.map_values(|f: (Descendant, usize)| time_factor_tex::<C, N>(n, f)), "\\,"@)
    }
}

pub open spec fn descendant_tex<C, N: ConstraintNotation<C>>(n: N, d: Descendant) -> Seq<char> {
    "\\tau_{"@ + decimal(d.psi_power as nat) + "}\\!\\left("@ + n.spec_basis_tex(d.class) + "\\right)"@
}

pub open spec fn correlator_tex<C, N: ConstraintNotation<C>>(n: N, k: CorrelatorKey) -> Seq<char> {
    let insertions = if k@.2.len() == 0 {
        "1"@
    } else {
        join_seqs(k@.2.map_values(|d: Descendant| descendant_tex::<C, N>(n, d)), ",\\,"@)
    };
    "\\left\\langle "@ + insertions + " \\right\\rangle_{"@ + decimal(k@.0 as nat) + ",\\,"@
        + n.spec_degree_tex(k.spec_degree()) + "}"@
}

pub open spec fn term_tex<C, N: ConstraintNotation<C>>(n: N, t: ConstraintTerm<C>) -> Seq<char> {
    match t {
        ConstraintTerm::Constant { coefficient, .. } => "\\left("@ + n.spec_coefficient_tex(coefficient)
            + "\\right)"@,
        ConstraintTerm::Linear(term) => "\\left("@ + n.spec_coefficient_tex(term.coefficient)
            + "\\right) "@ + correlator_tex::<C, N>(n, term.correlator),
        ConstraintTerm::Quadratic(term) => "\\left("@ + n.spec_coefficient_tex(term.coefficient)
            + "\\right) "@ + correlator_tex::<C, N>(n, term.left) + correlator_tex::<C, N>(n, term.right),
    }
}

/// A constant renders as its parenthesised coefficient, and a linear term as
/// its parenthesised coefficient followed by its correlator.
pub proof fn lemma_linear_and_constant_tex<C, N: ConstraintNotation<C>>(n: N, t: ConstraintTerm<C>)
    ensures
        t matches ConstraintTerm::Constant { coefficient, .. } ==> term_tex::<C, N>(n, t) == "\\left("@
            + n.spec_coefficient_tex(coefficient) + "\\right)"@,
        t matches ConstraintTerm::Linear(l) ==> ({
            let s = term_tex::<C, N>(n, t);
            let k = correlator_tex::<C, N>(n, l.correlator);
            &&& s.len() >= k.len()
            &&& s.subrange(s.len() - k.len(), s.len() as int) == k
            &&& s.subrange(0, s.len() - k.len()) == "\\left("@ + n.spec_coefficient_tex(l.coefficient) + "\\right) "@
        }),
{
    match t {
        ConstraintTerm::Linear(l) => {
            let s = term_tex::<C, N>(n, t);
            let p = "\\left("@ + n.spec_coefficient_tex(l.coefficient) + "\\right) "@;
            let k = correlator_tex::<C, N>(n, l.correlator);
            assert(s == p + k);
            assert(s.subrange(s.len() - k.len(), s.len() as int) =~= k);
            assert(s.subrange(0, s.len() - k.len()) =~= p);
        },
        _ => {},
    }
}

/// A product renders as its coefficient followed by both of its factors:
/// the TeX ends with the left correlator's TeX and then the right
/// correlator's, and the text ends with the left correlator, ` * ` and the
/// right correlator.
pub proof fn lemma_product_names_both_factors<C, N: ConstraintNotation<C>>(n: N, q: QuadraticTerm<C>)
    ensures
        ({
            let t = term_tex::<C, N>(n, ConstraintTerm::Quadratic(q));
            let l = correlator_tex::<C, N>(n, q.left);
            let r = correlator_tex::<C, N>(n, q.right);
            &&& t.len() >= l.len() + r.len()
            &&& t.subrange(t.len() - r.len(), t.len() as int) == r
            &&& t.subrange(t.len() - r.len() - l.len(), t.len() - r.len()) == l
            &&& t.subrange(0, t.len() - r.len() - l.len()) == "\\left("@ + n.spec_coefficient_tex(q.coefficient) + "\\right) "@
        }),
        ({
            let t = term_text::<C, N>(n, ConstraintTerm::Quadratic(q));
            let l = correlator_text::<C, N>(n, q.left);
            let r = correlator_text::<C, N>(n, q.right);
            &&& t.len() >= l.len() + r.len() + 3
            &&& t.subrange(t.len() - r.len(), t.len() as int) == r
            &&& t.subrange(t.len() - r.len() - 3, t.len() - r.len()) == " * "@
            &&& t.subrange(t.len() - r.len() - 3 - l.len(), t.len() - r.len() - 3) == l
        }),
{
    let t = term_tex::<C, N>(n, ConstraintTerm::Quadratic(q));
    let p = "\\left("@ + n.spec_coefficient_tex(q.coefficient) + "\\right) "@;
    let l = correlator_tex::<C, N>(n, q.left);
    let r = correlator_tex::<C, N>(n, q.right);
    assert(t == p + l + r);
    assert(t.subrange(t.len() - r.len(), t.len() as int) =~= r);
    assert(t.subrange(t.len() - r.len() - l.len(), t.len() - r.len()) =~= l);
    assert(t.subrange(0, t.len() - r.len() - l.len()) =~= p);
    reveal_strlit(" * ");
    let u = term_text::<C, N>(n, ConstraintTerm::Quadratic(q));
    let pu = "("@ + n.spec_coefficient_text(q.coefficient) + ") "@;
    let lu = correlator_text::<C, N>(n, q.left);
    let ru = correlator_text::<C, N>(n, q.right);
    assert(u == pu + lu + " * "@ + ru);
    assert(u.subrange(u.len() - ru.len(), u.len() as int) =~= ru);
    assert(u.subrange(u.len() - ru.len() - 3, u.len() - ru.len()) =~= " * "@);
    assert(u.subrange(u.len() - ru.len() - 3 - lu.len(), u.len() - ru.len() - 3) =~= lu);
}

pub open spec fn term_line_tex<C, N: ConstraintNotation<C>>(n: N, index: int, t: ConstraintTerm<C>) -> Seq<char> {
    (if index == 0 { "0 &={}"@ } else { "\\\\\n  &\\mathrel{+}{}"@ }) + term_tex::<C, N>(n, t)
        + " &&\\text{"@ + tex_escaped(t.spec_origin().spec_label()) + "}"@
}

pub open spec fn formula_tex<C, N: ConstraintNotation<C>>(n: N, terms: Seq<ConstraintTerm<C>>) -> Seq<char> {
    if terms.len() == 0 {
        "0 &= 0.\n"@
    } else {
        concat_all(Seq::new(terms.len(), |i: int| term_line_tex::<C, N>(n, i, terms[i]))) + ".\n"@
    }
}

/// One itemized `label: value` line of the TeX metadata lists.
pub open spec fn tex_item_text(label: Seq<char>, value: Seq<char>) -> Seq<char> {
    "\\item \\textbf{"@ + tex_escaped(label) + ":} "@ + tex_prose_text(value) + "\n"@
}

pub open spec fn tex_items(label: Seq<char>, values: Seq<Seq<char>>) -> Seq<char> {
    concat_all(values.map_values(|v: Seq<char>| tex_item_text(label, v)))
}

pub open spec fn optional_tex_item(label: Seq<char>, value: Option<String>) -> Seq<char> {
    match value {
        Some(v) => tex_item_text(label, v@),
        None => Seq::empty(),
    }
}

pub open spec fn conventions_tex(c: VirasoroConventions) -> Seq<char> {
    tex_item_text("Potential"@, c.potential.spec_label())
        + tex_item_text("Time normalization"@, c.time_normalization.spec_label())
        + tex_item_text("Dilaton shift"@, c.dilaton_shift.spec_label())
        + tex_item_text("Grading"@, c.grading.spec_label())
        + tex_item_text("Unstable terms"@, c.unstable.spec_label())
        + tex_item_text("State space"@, c.state_space.spec_label())
        + tex_item_text("Novikov variables"@, comma_list_text(c.novikov_variables@.map_values(|s: String| s@)))
        + tex_item_text("Equivariant parameters"@, comma_list_text(c.equivariant_parameters@.map_values(|s: String| s@)))
        + tex_items("Note"@, c.notes@.map_values(|s: String| s@))
}

pub open spec fn source_tex(s: FormulaSource) -> Seq<char> {
    tex_item_text("Formula"@, s.title@)
        + optional_tex_item("Citation"@, s.citation)
        + optional_tex_item("Locator"@, s.locator)
        + optional_tex_item("Derivation"@, s.derivation)
        + tex_items("Note"@, s.notes@.map_values(|v: String| v@))
}

pub open spec fn constraint_tex<C, N: ConstraintNotation<C>>(n: N, c: VirasoroConstraint<C>) -> Seq<char> {
    "\\subsection*{Virasoro coefficient constraint}\n"@
        + "\\textbf{Theory:} \\("@ + c.theory.tex@ + "\\)\\\\\n"@
        + "\\textbf{Operator:} $L_{"@ + signed_decimal(c.operator.index as int) + "}$\\\\\n"@
        + "\\textbf{Sector:} $g="@ + decimal(c.sector.genus as nat) + ",\\ \\beta="@
        + n.spec_degree_tex(c.sector.degree) + "$\\\\\n"@
        + "\\textbf{Extracted coefficient:} $"@ + time_tex::<C, N>(n, c.time_coefficient@) + "$\n\n"@
        + "\\[\n\\begin{aligned}\n"@ + formula_tex::<C, N>(n, c.terms@) + "\\end{aligned}\n\\]\n"@
        + "\\paragraph{Conventions.}\n\\begin{itemize}\n"@ + conventions_tex(c.conventions)
        + "\\end{itemize}\n"@
        + "\\paragraph{Source.}\n\\begin{itemize}\n"@ + source_tex(c.source) + "\\end{itemize}\n"@
}

fn render_time_tex<C, N: ConstraintNotation<C>>(monomial: &TimeMonomial, notation: &N) -> (out: String)
    ensures
        out@ == time_tex::<C, N>(*notation, monomial@),
{
    if monomial.is_one() {
        return string_from("1");
    }
    let factors = monomial.factors();
    let mut parts: Vec<String> = Vec::new();
    let mut i: usize = 0;
    while i < factors.len()
        invariant
            i <= factors@.len(),
            factors@ == monomial@,
            parts@.len() == i,
            forall|j: int| 0 <= j < i ==> #[trigger] parts@[j]@ == time_factor_tex::<C, N>(*notation, factors@[j]),
        decreases factors@.len() - i,
    {
        let (descendant, multiplicity) = factors[i];
        let mut factor = string_from("t_{");
        push_usize(&mut factor, descendant.psi_power);
        push_str(&mut factor, "}^{");
        let basis = notation.basis_tex(&descendant.class);
        push_string(&mut factor, &basis);
        push_str(&mut factor, "}");
        if multiplicity != 1 {
            // `factor` already carries the basis-label superscript; group it
            // before adding a multiplicity exponent.
            let mut grouped = string_from("\\left(");
            push_string(&mut grouped, &factor);
            push_str(&mut grouped, "\\right)^{");
            push_usize(&mut grouped, multiplicity);
            push_str(&mut grouped, "}");
            factor = grouped;
        }
        proof {
            assert(factor@ =~= time_factor_tex::<C, N>(*notation, factors@[i as int]));
        }
        parts.push(factor);
        i += 1;
    }
    let out = join_strings(&parts, "\\,");
    proof {
        assert(parts@.map_values(|s: String| s@) =~= monomial@.map_values(
            |f: (Descendant, usize)| time_factor_tex::<C, N>(*notation, f),
        ));
    }
    out
}

fn render_descendant_tex<C, N: ConstraintNotation<C>>(descendant: &Descendant, notation: &N) -> (out: String)
    ensures
        out@ == descendant_tex::<C, N>(*notation, *descendant),
{
    let mut out = string_from("\\tau_{");
    push_usize(&mut out, descendant.psi_power);
    push_str(&mut out, "}\\!\\left(");
    let basis = notation.basis_tex(&descendant.class);
    push_string(&mut out, &basis);
    push_str(&mut out, "\\right)");
    proof {
        assert(out@ =~= descendant_tex::<C, N>(*notation, *descendant));
    }
    out
}

fn render_correlator_tex<C, N: ConstraintNotation<C>>(correlator: &CorrelatorKey, notation: &N) -> (out: String)
    ensures
        out@ == correlator_tex::<C, N>(*notation, *correlator),
{
    let insertions = correlator.insertions();
    let joined = if insertions.len() == 0 {
        string_from("1")
    } else {
        let mut parts: Vec<String> = Vec::new();
        let mut i: usize = 0;
        while i < insertions.len()
            invariant
                i <= insertions@.len(),
                insertions@ == correlator@.2,
                parts@.len() == i,
                forall|j: int| 0 <= j < i ==> #[trigger] parts@[j]@ == descendant_tex::<C, N>(*notation, insertions@[j]),
            decreases insertions@.len() - i,
        {
            parts.push(render_descendant_tex(&insertions[i], notation));
            i += 1;
        }
        proof {
            assert(parts@.map_values(|s: String| s@) =~= correlator@.2.map_values(
                |d: Descendant| descendant_tex::<C, N>(*notation, d),
            ));
        }
        join_strings(&parts, ",\\,")
    };
    let mut out = string_from("\\left\\langle ");
    push_string(&mut out, &joined);
    push_str(&mut out, " \\right\\rangle_{");
    push_usize(&mut out, correlator.genus());
    push_str(&mut out, ",\\,");
    let degree = notation.degree_tex(correlator.degree());
    push_string(&mut out, &degree);
    push_str(&mut out, "}");
    proof {
        assert(out@ =~= correlator_tex::<C, N>(*notation, *correlator));
    }
    out
}

fn render_term_tex<C, N: ConstraintNotation<C>>(term: &ConstraintTerm<C>, notation: &N) -> (out: String)
    ensures
        out@ == term_tex::<C, N>(*notation, *term),
{
    let mut out = string_from("\\left(");
    match term {
        ConstraintTerm::Constant { coefficient, .. } => {
            let c = notation.coefficient_tex(coefficient);
            push_string(&mut out, &c);
            push_str(&mut out, "\\right)");
        },
        ConstraintTerm::Linear(t) => {
            let c = notation.coefficient_tex(&t.coefficient);
            push_string(&mut out, &c);
            push_str(&mut out, "\\right) ");
            let k = render_correlator_tex(&t.correlator, notation);
            push_string(&mut out, &k);
        },
        ConstraintTerm::Quadratic(t) => {
            let c = notation.coefficient_tex(&t.coefficient);
            push_string(&mut out, &c);
            push_str(&mut out, "\\right) ");
            let l = render_correlator_tex(&t.left, notation);
            push_string(&mut out, &l);
            let r = render_correlator_tex(&t.right, notation);
            push_string(&mut out, &r);
        },
    }
    proof {
        assert(out@ =~= term_tex::<C, N>(*notation, *term));
    }
    out
}

/// Appends one itemized `label: value` line.
pub fn tex_item(out: &mut String, label: &str, value: &str)
    ensures
        final(out)@ == old(out)@ + tex_item_text(label@, value@),
{
    push_str(out, "\\item \\textbf{");
    let l = tex_escape(label);
    push_string(out, &l);
    push_str(out, ":} ");
    let v = tex_prose(value);
    push_string(out, &v);
    push_str(out, "\n");
    proof {
        assert(final(out)@ =~= old(out)@ + tex_item_text(label@, value@));
    }
}

fn push_tex_items(out: &mut String, label: &str, values: &Vec<String>)
    ensures
        final(out)@ == old(out)@ + tex_items(label@, values@.map_values(|s: String| s@)),
{
    let ghost vs = values@.map_values(|s: String| s@);
    let ghost lines = vs.map_values(|v: Seq<char>| tex_item_text(label@, v));
    let mut i: usize = 0;
    while i < values.len()
        invariant
            i <= values@.len(),
            vs == values@.map_values(|s: String| s@),
            lines == vs.map_values(|v: Seq<char>| tex_item_text(label@, v)),
            out@ == old(out)@ + concat_all(lines.take(i as int)),
        decreases values@.len() - i,
    {
        tex_item(out, label, values[i].as_str());
        proof {
            assert(lines.take(i + 1) =~= lines.take(i as int).push(lines[i as int]));
            lemma_concat_all_push(lines.take(i as int), lines[i as int]);
            assert(out@ =~= old(out)@ + concat_all(lines.take(i + 1)));
        }
        i += 1;
    }
    proof {
        assert(lines.take(values@.len() as int) =~= lines);
    }
}

fn push_optional_tex_item(out: &mut String, label: &str, value: &Option<String>)
    ensures
        final(out)@ == old(out)@ + optional_tex_item(label@, *value),
{
    match value {
        Some(v) => tex_item(out, label, v.as_str()),
        None => {
            proof {
                assert(out@ =~= old(out)@ + optional_tex_item(label@, *value));
            }
        },
    }
}

fn push_conventions_tex(out: &mut String, c: &VirasoroConventions)
    ensures
        final(out)@ == old(out)@ + conventions_tex(*c),
{
    tex_item(out, "Potential", c.potential.label());
    tex_item(out, "Time normalization", c.time_normalization.label());
    tex_item(out, "Dilaton shift", c.dilaton_shift.label());
    tex_item(out, "Grading", c.grading.label());
    tex_item(out, "Unstable terms", c.unstable.label());
    tex_item(out, "State space", c.state_space.label());
    let novikov = comma_list(&c.novikov_variables);
    tex_item(out, "Novikov variables", novikov.as_str());
    let equivariant = comma_list(&c.equivariant_parameters);
    tex_item(out, "Equivariant parameters", equivariant.as_str());
    push_tex_items(out, "Note", &c.notes);
    proof {
        assert(final(out)@ =~= old(out)@ + conventions_tex(*c));
    }
}

fn push_source_tex(out: &mut String, s: &FormulaSource)
    ensures
        final(out)@ == old(out)@ + source_tex(*s),
{
    tex_item(out, "Formula", s.title.as_str());
    push_optional_tex_item(out, "Citation", &s.citation);
    push_optional_tex_item(out, "Locator", &s.locator);
    push_optional_tex_item(out, "Derivation", &s.derivation);
    push_tex_items(out, "Note", &s.notes);
    proof {
        assert(final(out)@ =~= old(out)@ + source_tex(*s));
    }
}

fn render_term_line_tex<C, N: ConstraintNotation<C>>(index: usize, term: &ConstraintTerm<C>, notation: &N) -> (out: String)
    ensures
        out@ == term_line_tex::<C, N>(*notation, index as int, *term),
{
    let mut out = if index == 0 { string_from("0 &={}") } else { string_from("\\\\\n  &\\mathrel{+}{}") };
    let t = render_term_tex(term, notation);
    push_string(&mut out, &t);
    push_str(&mut out, " &&\\text{");
    let label = tex_escape(term.origin().label());
    push_string(&mut out, &label);
    push_str(&mut out, "}");
    proof {
        assert(out@ =~= term_line_tex::<C, N>(*notation, index as int, *term));
    }
    out
}

fn push_formula_tex<C, N: ConstraintNotation<C>>(out: &mut String, terms: &Vec<ConstraintTerm<C>>, notation: &N)
    ensures
        final(out)@ == old(out)@ + formula_tex::<C, N>(*notation, terms@),
{
    if terms.len() == 0 {
        push_str(out, "0 &= 0.\n");
        return;
    }
    let ghost lines = Seq::new(terms@.len(), |i: int| term_line_tex::<C, N>(*notation, i, terms@[i]));
    let mut i: usize = 0;
    while i < terms.len()
        invariant
            i <= terms@.len(),
            terms@.len() > 0,
            lines == Seq::new(terms@.len(), |i: int| term_line_tex::<C, N>(*notation, i, terms@[i])),
            out@ == old(out)@ + concat_all(lines.take(i as int)),
        decreases terms@.len() - i,
    {
        let line = render_term_line_tex(i, &terms[i], notation);
        push_string(out, &line);
        proof {
            assert(lines.take(i + 1) =~= lines.take(i as int).push(lines[i as int]));
            lemma_concat_all_push(lines.take(i as int), lines[i as int]);
            assert(out@ =~= old(out)@ + concat_all(lines.take(i + 1)));
        }
        i += 1;
    }
    push_str(out, ".\n");
    proof {
        assert(lines.take(terms@.len() as int) =~= lines);
        assert(final(out)@ =~= old(out)@ + formula_tex::<C, N>(*notation, terms@));
    }
}

impl<C> VirasoroConstraint<C> {
    /// The TeX rendering: header, aligned formula, conventions, and source.
    pub fn render_tex_with<N: ConstraintNotation<C>>(&self, notation: &N) -> (out: String)
        ensures
            out@ == constraint_tex::<C, N>(*notation, *self),
    {
        let mut out = string_from("\\subsection*{Virasoro coefficient constraint}\n");
        push_str(&mut out, "\\textbf{Theory:} \\(");
        push_string(&mut out, &self.theory.tex);
        push_str(&mut out, "\\)\\\\\n");
        push_str(&mut out, "\\textbf{Operator:} $L_{");
        push_i128(&mut out, self.operator.index as i128);
        push_str(&mut out, "}$\\\\\n");
        push_str(&mut out, "\\textbf{Sector:} $g=");
        push_usize(&mut out, self.sector.genus);
        push_str(&mut out, ",\\ \\beta=");
        let degree = notation.degree_tex(&self.sector.degree);
        push_string(&mut out, &degree);
        push_str(&mut out, "$\\\\\n");
        push_str(&mut out, "\\textbf{Extracted coefficient:} $");
        let time = render_time_tex(&self.time_coefficient, notation);
        push_string(&mut out, &time);
        push_str(&mut out, "$\n\n");
        push_str(&mut out, "\\[\n\\begin{aligned}\n");
        push_formula_tex(&mut out, &self.terms, notation);
        push_str(&mut out, "\\end{aligned}\n\\]\n");
        push_str(&mut out, "\\paragraph{Conventions.}\n\\begin{itemize}\n");
        push_conventions_tex(&mut out, &self.conventions);
        push_str(&mut out, "\\end{itemize}\n");
        push_str(&mut out, "\\paragraph{Source.}\n\\begin{itemize}\n");
        push_source_tex(&mut out, &self.source);
        push_str(&mut out, "\\end{itemize}\n");
        proof {
            assert(out@ =~= constraint_tex::<C, N>(*notation, *self));
        }
        out
    }
}

} // verus!
