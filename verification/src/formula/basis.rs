//! Named basis elements used in the explainable Givental graph formula.
//!
//! These names deliberately match the mathematical objects, not an optimized
//! storage layout; the glossary is the source of truth for human-readable
//! output.

use vstd::prelude::*;
use crate::text::{concat_all, lemma_concat_all_push, push_str};

verus! {

#[derive(Debug, Clone, Copy, PartialEq, Eq, Hash)]
pub enum BasisKind {
    DescendantS,
    PsiInverse,
    RInverse,
    Translation,
    Delta,
    InverseDelta,
    RelativeSqrtDelta,
    EtaInverse,
    PsiIntegral,
}
pub open spec fn basiskind_symbol(k: BasisKind) -> Seq<char> {
    match k {
        BasisKind::DescendantS => "S_s[a,b]"@,
        BasisKind::PsiInverse => "PsiInv[i,a]"@,
        BasisKind::RInverse => "RInv_r[i,j]"@,
        BasisKind::Translation => "T_i^p"@,
        BasisKind::Delta => "Delta_i"@,
        BasisKind::InverseDelta => "DeltaInv_i"@,
        BasisKind::RelativeSqrtDelta => "RelSqrtDelta_i"@,
        BasisKind::EtaInverse => "EtaInv_i"@,
        BasisKind::PsiIntegral => "PsiInt(h; p_1,...,p_N)"@,
    }
}
pub open spec fn basiskind_short_name(k: BasisKind) -> Seq<char> {
    match k {
        BasisKind::DescendantS => "descendant S"@,
        BasisKind::PsiInverse => "Psi inverse"@,
        BasisKind::RInverse => "inverse R"@,
        BasisKind::Translation => "translation"@,
        BasisKind::Delta => "Delta"@,
        BasisKind::InverseDelta => "inverse Delta"@,
        BasisKind::RelativeSqrtDelta => "relative square-root Delta"@,
        BasisKind::EtaInverse => "canonical metric inverse"@,
        BasisKind::PsiIntegral => "point-theory psi integral"@,
    }
}
pub open spec fn basiskind_definition(k: BasisKind) -> Seq<char> {
    match k {
        BasisKind::DescendantS => "Coefficient of z^{-s} in the descendant-to-ancestor S-calibration. It first acts on a flat-basis insertion before the graph R-action."@,
        BasisKind::PsiInverse => "Transition matrix from the flat basis to canonical colors. It is applied after S so graph legs live in the idempotent color basis."@,
        BasisKind::RInverse => "Coefficient of z^r in R(z)^{-1}. External ancestor legs and internal edge propagators are built from these coefficients."@,
        BasisKind::Translation => "Coefficient of psi^p in T(psi)=psi(1-R^{-1}(psi))1. In the current graph convention T^0 and T^1 vanish, so p starts at 2."@,
        BasisKind::Delta => "Canonical metric norm factor used by positive-genus TFT vertices. In the stored relative frame, genus h>0 contributes Delta_i^{h-1}."@,
        BasisKind::InverseDelta => "Genus-zero canonical TFT factor. In the stored relative frame, h=0 vertices use DeltaInv_i."@,
        BasisKind::RelativeSqrtDelta => "Relative normalization factor attached once per incident half-edge or marking at a vertex."@,
        BasisKind::EtaInverse => "Diagonal inverse canonical metric entry. It appears in the edge propagator before the regular quotient by psi_left+psi_right."@,
        BasisKind::PsiIntegral => "Pure Witten-Kontsevich intersection number on Mbar_{h,N}. Vertex psi powers and translation psi powers are integrated here."@,
    }
}
/// Every kind, in glossary order.
pub open spec fn basiskind_order() -> Seq<BasisKind> {
    seq![BasisKind::DescendantS, BasisKind::PsiInverse, BasisKind::RInverse, BasisKind::Translation, BasisKind::Delta, BasisKind::InverseDelta, BasisKind::RelativeSqrtDelta, BasisKind::EtaInverse, BasisKind::PsiIntegral]
}
pub fn all_basis_kinds() -> (out: [BasisKind; 9])
    ensures
        out@ == basiskind_order(),
{
    let out = [BasisKind::DescendantS, BasisKind::PsiInverse, BasisKind::RInverse, BasisKind::Translation, BasisKind::Delta, BasisKind::InverseDelta, BasisKind::RelativeSqrtDelta, BasisKind::EtaInverse, BasisKind::PsiIntegral];
    proof {
        assert(out@ =~= basiskind_order());
    }
    out
}
impl BasisKind {
    pub fn symbol(self) -> (out: &'static str)
        ensures
            out@ == basiskind_symbol(self),
    {
        match self {
            BasisKind::DescendantS => "S_s[a,b]",
            BasisKind::PsiInverse => "PsiInv[i,a]",
            BasisKind::RInverse => "RInv_r[i,j]",
            BasisKind::Translation => "T_i^p",
            BasisKind::Delta => "Delta_i",
            BasisKind::InverseDelta => "DeltaInv_i",
            BasisKind::RelativeSqrtDelta => "RelSqrtDelta_i",
            BasisKind::EtaInverse => "EtaInv_i",
            BasisKind::PsiIntegral => "PsiInt(h; p_1,...,p_N)",
        }
    }

    pub fn short_name(self) -> (out: &'static str)
        ensures
            out@ == basiskind_short_name(self),
    {
        match self {
            BasisKind::DescendantS => "descendant S",
            BasisKind::PsiInverse => "Psi inverse",
            BasisKind::RInverse => "inverse R",
            BasisKind::Translation => "translation",
            BasisKind::Delta => "Delta",
            BasisKind::InverseDelta => "inverse Delta",
            BasisKind::RelativeSqrtDelta => "relative square-root Delta",
            BasisKind::EtaInverse => "canonical metric inverse",
            BasisKind::PsiIntegral => "point-theory psi integral",
        }
    }

    pub fn definition(self) -> (out: &'static str)
        ensures
            out@ == basiskind_definition(self),
    {
        match self {
            BasisKind::DescendantS => "Coefficient of z^{-s} in the descendant-to-ancestor S-calibration. It first acts on a flat-basis insertion before the graph R-action.",
            BasisKind::PsiInverse => "Transition matrix from the flat basis to canonical colors. It is applied after S so graph legs live in the idempotent color basis.",
            BasisKind::RInverse => "Coefficient of z^r in R(z)^{-1}. External ancestor legs and internal edge propagators are built from these coefficients.",
            BasisKind::Translation => "Coefficient of psi^p in T(psi)=psi(1-R^{-1}(psi))1. In the current graph convention T^0 and T^1 vanish, so p starts at 2.",
            BasisKind::Delta => "Canonical metric norm factor used by positive-genus TFT vertices. In the stored relative frame, genus h>0 contributes Delta_i^{h-1}.",
            BasisKind::InverseDelta => "Genus-zero canonical TFT factor. In the stored relative frame, h=0 vertices use DeltaInv_i.",
            BasisKind::RelativeSqrtDelta => "Relative normalization factor attached once per incident half-edge or marking at a vertex.",
            BasisKind::EtaInverse => "Diagonal inverse canonical metric entry. It appears in the edge propagator before the regular quotient by psi_left+psi_right.",
            BasisKind::PsiIntegral => "Pure Witten-Kontsevich intersection number on Mbar_{h,N}. Vertex psi powers and translation psi powers are integrated here.",
        }
    }

}
/// One glossary line: `- symbol (short name): definition`.
pub open spec fn basiskind_glossary_line(k: BasisKind) -> Seq<char> {
    "- "@ + basiskind_symbol(k) + " ("@ + basiskind_short_name(k) + "): "@ + basiskind_definition(k) + "\n"@
}
pub open spec fn basis_glossary_text() -> Seq<char> {
    "Raw basis glossary\n"@ + "------------------\n"@ + "Indices: a,b are flat-basis indices; i,j are canonical colors; r,s,p are z/psi orders.\n\n"@ + concat_all(basiskind_order().map_values(|k: BasisKind| basiskind_glossary_line(k)))
}
pub fn basis_glossary() -> (out: String)
    ensures
        out@ == basis_glossary_text(),
{
    let mut out = String::new();
    push_str(&mut out, "Raw basis glossary\n");
    push_str(&mut out, "------------------\n");
    push_str(&mut out, "Indices: a,b are flat-basis indices; i,j are canonical colors; r,s,p are z/psi orders.\n\n");
    let ghost prefix = out@;
    let kinds = all_basis_kinds();
    let ghost lines = basiskind_order().map_values(|k: BasisKind| basiskind_glossary_line(k));
    let mut i: usize = 0;
    while i < 9
        invariant
            i <= 9,
            kinds@ == basiskind_order(),
            lines == basiskind_order().map_values(|k: BasisKind| basiskind_glossary_line(k)),
            out@ == prefix + concat_all(lines.take(i as int)),
        decreases 9 - i,
    {
        let kind = kinds[i];
        push_str(&mut out, "- ");
        push_str(&mut out, kind.symbol());
        push_str(&mut out, " (");
        push_str(&mut out, kind.short_name());
        push_str(&mut out, "): ");
        push_str(&mut out, kind.definition());
        push_str(&mut out, "\n");
        proof {
            assert(lines.take(i + 1) =~= lines.take(i as int).push(lines[i as int]));
            lemma_concat_all_push(lines.take(i as int), lines[i as int]);
            assert(out@ =~= prefix + concat_all(lines.take(i + 1)));
        }
        i += 1;
    }
    proof {
        assert(lines.take(9) =~= lines);
        assert(out@ =~= basis_glossary_text());
    }
    out
}

} // verus!
