//! Engine-specific expansions of the universal formula basis elements.
//!
//! The stable-graph skeleton is independent of the target CohFT.  This module
//! records how the same symbols are read when the calibration comes from one
//! of the implemented providers.

use vstd::prelude::*;
use crate::text::{decimal, join_seqs, join_strings, push_str, push_string, push_usize, string_from};

verus! {

#[derive(Debug, Clone, PartialEq, Eq)]
pub enum FormulaExpansion {
    ProjectiveSpace { n: usize, equivariant: bool },
    NegativeSplitTwisted { n: usize, degrees: Vec<usize>, equivariant: bool },
}

pub open spec fn twist_summand(d: usize) -> Seq<char> {
    "O(-"@ + decimal(d as nat) + ")"@
}

pub open spec fn twist_summand_tex(d: usize) -> Seq<char> {
    "\\mathcal{O}(-"@ + decimal(d as nat) + ")"@
}

/// `O(-d_1) + O(-d_2) + ...`.
pub open spec fn twist_sum_text(degrees: Seq<usize>) -> Seq<char> {
    join_seqs(degrees.map_values(|d: usize| twist_summand(d)), " + "@)
}

/// `\mathcal{O}(-d_1)\oplus \mathcal{O}(-d_2)...`.
pub open spec fn twist_sum_tex(degrees: Seq<usize>) -> Seq<char> {
    join_seqs(degrees.map_values(|d: usize| twist_summand_tex(d)), "\\oplus "@)
}

fn twist_sum(degrees: &[usize]) -> (out: String)
    ensures
        out@ == twist_sum_text(degrees@),
{
    let mut parts: Vec<String> = Vec::new();
    let mut i: usize = 0;
    while i < degrees.len()
        invariant
            i <= degrees@.len(),
            parts@.len() == i,
            forall|j: int| 0 <= j < i ==> #[trigger] parts@[j]@ == twist_summand(degrees@[j]),
        decreases degrees@.len() - i,
    {
        let mut part = string_from("O(-");
        push_usize(&mut part, degrees[i]);
        push_str(&mut part, ")");
        parts.push(part);
        i += 1;
    }
    proof {
        assert(parts@.map_values(|s: String| s@) =~= degrees@.map_values(|d: usize| twist_summand(d)));
    }
    join_strings(&parts, " + ")
}

fn twist_sum_tex_string(degrees: &[usize]) -> (out: String)
    ensures
        out@ == twist_sum_tex(degrees@),
{
    let mut parts: Vec<String> = Vec::new();
    let mut i: usize = 0;
    while i < degrees.len()
        invariant
            i <= degrees@.len(),
            parts@.len() == i,
            forall|j: int| 0 <= j < i ==> #[trigger] parts@[j]@ == twist_summand_tex(degrees@[j]),
        decreases degrees@.len() - i,
    {
        let mut part = string_from("\\mathcal{O}(-");
        push_usize(&mut part, degrees[i]);
        push_str(&mut part, ")");
        parts.push(part);
        i += 1;
    }
    proof {
        assert(parts@.map_values(|s: String| s@) =~= degrees@.map_values(|d: usize| twist_summand_tex(d)));
    }
    join_strings(&parts, "\\oplus ")
}

pub open spec fn projective_text_spec(n: usize, equivariant: bool) -> Seq<char> {
    "Basis expansion: ordinary projective space\n"@
        + "------------------------------------------\n"@
        + "Target: P^"@
        + decimal(n as nat)
        + "\n"@
        + (if equivariant { "Engine: symbolic equivariant projective-space calibration.\n"@ } else { "Engine: ordinary projective-space Givental backend with the generic lambda-line calibration.\n"@ })
        + "Smaller calibration data:\n"@
        + "- P(x)=prod_a (x-lambda_a)-q, with canonical roots u_i(q).\n"@
        + "- Evaluation matrix E_{i,alpha}=u_i^alpha in the flat basis 1,H,...,H^n.\n"@
        + "- Delta_i=P'(u_i); equivalently Delta_i^{-1} is the canonical idempotent norm.\n"@
        + "- Psi^{-1}=Delta^{-1/2} E in the relative-normalized canonical frame used by the graph engine.\n"@
        + "- S is the small-J descendant calibration, computed by the quantum-minus-classical H recursion.\n"@
        + "- R is solved from the canonical flatness equation using U=diag(u_i), Psi, and Delta.\n"@
        + "- RInv, T, and edge propagators are derived universally from R^{-1}, Delta, and the canonical metric.\n"@
}

fn render_projective_text(n: usize, equivariant: bool) -> (out: String)
    ensures
        out@ == projective_text_spec(n, equivariant),
{
    let mut out = String::new();
    push_str(&mut out, "Basis expansion: ordinary projective space\n");
    push_str(&mut out, "------------------------------------------\n");
    push_str(&mut out, "Target: P^");
    push_usize(&mut out, n);
    push_str(&mut out, "\n");
    if equivariant {
        push_str(&mut out, "Engine: symbolic equivariant projective-space calibration.\n");
    } else {
        push_str(&mut out, "Engine: ordinary projective-space Givental backend with the generic lambda-line calibration.\n");
    }
    push_str(&mut out, "Smaller calibration data:\n");
    push_str(&mut out, "- P(x)=prod_a (x-lambda_a)-q, with canonical roots u_i(q).\n");
    push_str(&mut out, "- Evaluation matrix E_{i,alpha}=u_i^alpha in the flat basis 1,H,...,H^n.\n");
    push_str(&mut out, "- Delta_i=P'(u_i); equivalently Delta_i^{-1} is the canonical idempotent norm.\n");
    push_str(&mut out, "- Psi^{-1}=Delta^{-1/2} E in the relative-normalized canonical frame used by the graph engine.\n");
    push_str(&mut out, "- S is the small-J descendant calibration, computed by the quantum-minus-classical H recursion.\n");
    push_str(&mut out, "- R is solved from the canonical flatness equation using U=diag(u_i), Psi, and Delta.\n");
    push_str(&mut out, "- RInv, T, and edge propagators are derived universally from R^{-1}, Delta, and the canonical metric.\n");
    proof {
        assert(out@ =~= projective_text_spec(n, equivariant));
    }
    out
}

pub open spec fn twisted_text_spec(n: usize, degrees: Seq<usize>, equivariant: bool) -> Seq<char> {
    "Basis expansion: negative split twist\n"@
        + "-------------------------------------\n"@
        + "Base: P^"@
        + decimal(n as nat)
        + "\n"@
        + "Twist: "@
        + twist_sum_text(degrees)
        + "\n"@
        + (if equivariant { "Engine: fiber-equivariant negative-split calibration keeps symbolic fiber parameters mu_i over early-specialized base weights; large graph contractions still need factored rational arithmetic.\n"@ } else { "Engine: negative-split hypergeometric/Birkhoff S plus QRR R backend with the generic rational lambda-line evaluation.\n"@ })
        + "Smaller calibration data:\n"@
        + "- I^tw(q,z): the negative-split hypergeometric I-function with the concave Euler factor.\n"@
        + "- Birkhoff factorization turns I^tw into the descendant S-calibration used on insertions.\n"@
        + "- eta^tw is the twisted flat metric, using the inverse Euler pairing in the local negative-split path.\n"@
        + "- Quantum multiplication by H is extracted from S; its eigenvalues u_i^tw(q) are the canonical roots.\n"@
        + "- Psi, Psi^{-1}, and Delta are obtained by diagonalizing that multiplication operator against eta^tw.\n"@
        + "- R is then produced by the QRR/flatness recursion in the canonical frame.\n"@
        + "- RInv, T, and edge propagators are derived universally from the resulting semisimple calibration.\n"@
}

fn render_twisted_text(n: usize, degrees: &[usize], equivariant: bool) -> (out: String)
    ensures
        out@ == twisted_text_spec(n, degrees@, equivariant),
{
    let mut out = String::new();
    push_str(&mut out, "Basis expansion: negative split twist\n");
    push_str(&mut out, "-------------------------------------\n");
    push_str(&mut out, "Base: P^");
    push_usize(&mut out, n);
    push_str(&mut out, "\n");
    push_str(&mut out, "Twist: ");
    let twist = twist_sum(degrees);
    push_string(&mut out, &twist);
    push_str(&mut out, "\n");
    if equivariant {
        push_str(&mut out, "Engine: fiber-equivariant negative-split calibration keeps symbolic fiber parameters mu_i over early-specialized base weights; large graph contractions still need factored rational arithmetic.\n");
    } else {
        push_str(&mut out, "Engine: negative-split hypergeometric/Birkhoff S plus QRR R backend with the generic rational lambda-line evaluation.\n");
    }
    push_str(&mut out, "Smaller calibration data:\n");
    push_str(&mut out, "- I^tw(q,z): the negative-split hypergeometric I-function with the concave Euler factor.\n");
    push_str(&mut out, "- Birkhoff factorization turns I^tw into the descendant S-calibration used on insertions.\n");
    push_str(&mut out, "- eta^tw is the twisted flat metric, using the inverse Euler pairing in the local negative-split path.\n");
    push_str(&mut out, "- Quantum multiplication by H is extracted from S; its eigenvalues u_i^tw(q) are the canonical roots.\n");
    push_str(&mut out, "- Psi, Psi^{-1}, and Delta are obtained by diagonalizing that multiplication operator against eta^tw.\n");
    push_str(&mut out, "- R is then produced by the QRR/flatness recursion in the canonical frame.\n");
    push_str(&mut out, "- RInv, T, and edge propagators are derived universally from the resulting semisimple calibration.\n");
    proof {
        assert(out@ =~= twisted_text_spec(n, degrees@, equivariant));
    }
    out
}

pub open spec fn projective_raw_text_spec(n: usize, equivariant: bool) -> Seq<char> {
    "Raw basis specialization: ordinary projective space\n"@
        + "---------------------------------------------------\n"@
        + "Target: P^"@
        + decimal(n as nat)
        + "\n"@
        + (if equivariant { "Equivariant parameters lambda_0,...,lambda_n are kept symbolic.\n"@ } else { "The current compute backend usually evaluates on a generic lambda line before taking the non-equivariant limit; this display keeps the symbolic root-sum form.\n"@ })
        + "Canonical roots and norms:\n"@
        + "  P(x)=prod_{a=0}^n (x-lambda_a)-q,  P(u_i)=0,  Delta_i=P'(u_i).\n"@
        + "Flat-to-canonical transition:\n"@
        + "  E_{i,a}=u_i^a,  PsiInv_{i,a}=Delta_i^{-1/2} E_{i,a}.\n"@
        + "Packed kernels:\n"@
        + "  L_i^raw(z,psi)=sum_{j,a,b} RInv_ij^raw(psi) Delta_j^(-1/2) u_j^b S^raw(z)_{b,a} gamma_a/(z-psi).\n"@
        + "  E_ij^raw(psi,phi)=(delta_ij-sum_nu RInv_i,nu^raw(psi) RInv_j,nu^raw(phi))/(psi+phi).\n"@
        + "Here S is computed from the small J-function by the quantum-minus-classical H recursion, and RInv/T are solved from the canonical flatness equation.  All q-series are read only to the requested q-degree.\n"@
}

fn render_projective_raw_text(n: usize, equivariant: bool) -> (out: String)
    ensures
        out@ == projective_raw_text_spec(n, equivariant),
{
    let mut out = String::new();
    push_str(&mut out, "Raw basis specialization: ordinary projective space\n");
    push_str(&mut out, "---------------------------------------------------\n");
    push_str(&mut out, "Target: P^");
    push_usize(&mut out, n);
    push_str(&mut out, "\n");
    if equivariant {
        push_str(&mut out, "Equivariant parameters lambda_0,...,lambda_n are kept symbolic.\n");
    } else {
        push_str(&mut out, "The current compute backend usually evaluates on a generic lambda line before taking the non-equivariant limit; this display keeps the symbolic root-sum form.\n");
    }
    push_str(&mut out, "Canonical roots and norms:\n");
    push_str(&mut out, "  P(x)=prod_{a=0}^n (x-lambda_a)-q,  P(u_i)=0,  Delta_i=P'(u_i).\n");
    push_str(&mut out, "Flat-to-canonical transition:\n");
    push_str(&mut out, "  E_{i,a}=u_i^a,  PsiInv_{i,a}=Delta_i^{-1/2} E_{i,a}.\n");
    push_str(&mut out, "Packed kernels:\n");
    push_str(&mut out, "  L_i^raw(z,psi)=sum_{j,a,b} RInv_ij^raw(psi) Delta_j^(-1/2) u_j^b S^raw(z)_{b,a} gamma_a/(z-psi).\n");
    push_str(&mut out, "  E_ij^raw(psi,phi)=(delta_ij-sum_nu RInv_i,nu^raw(psi) RInv_j,nu^raw(phi))/(psi+phi).\n");
    push_str(&mut out, "Here S is computed from the small J-function by the quantum-minus-classical H recursion, and RInv/T are solved from the canonical flatness equation.  All q-series are read only to the requested q-degree.\n");
    proof {
        assert(out@ =~= projective_raw_text_spec(n, equivariant));
    }
    out
}

pub open spec fn twisted_raw_text_spec(n: usize, degrees: Seq<usize>, equivariant: bool) -> Seq<char> {
    "Raw basis specialization: negative split twist\n"@
        + "----------------------------------------------\n"@
        + "Base: P^"@
        + decimal(n as nat)
        + "\n"@
        + "Twist: "@
        + twist_sum_text(degrees)
        + "\n"@
        + (if equivariant { "Fiber-equivariant negative-split calibration keeps one symbolic parameter mu_i for each split summand while base weights are early-specialized.  Large symbolic graph contractions remain a performance frontier for the expanded RatFun engine.\n"@ } else { "The implemented twisted backend uses a generic rational lambda-line specialization with a non-equivariant limit when available.\n"@ })
        + "Twisted calibration:\n"@
        + "  I^tw(q,z)=sum_d q^d I_d^{P^n}(z) E_d^{conc};  S^tw=Birkhoff(I^tw).\n"@
        + "  eta^tw(phi_a,phi_b)=int_{P^n} phi_a phi_b / e(E).\n"@
        + "  H *_tw e_i = u_i^tw e_i,  Delta_i^{tw,-1}=(e_i,e_i)_{eta^tw}.\n"@
        + "The graph formula substitutes the resolvent leg and edge kernels inline, with S,R,Psi,Delta,eta replaced by their twisted versions.  All q-series are read only to the requested q-degree.\n"@
}

fn render_twisted_raw_text(n: usize, degrees: &[usize], equivariant: bool) -> (out: String)
    ensures
        out@ == twisted_raw_text_spec(n, degrees@, equivariant),
{
    let mut out = String::new();
    push_str(&mut out, "Raw basis specialization: negative split twist\n");
    push_str(&mut out, "----------------------------------------------\n");
    push_str(&mut out, "Base: P^");
    push_usize(&mut out, n);
    push_str(&mut out, "\n");
    push_str(&mut out, "Twist: ");
    let twist = twist_sum(degrees);
    push_string(&mut out, &twist);
    push_str(&mut out, "\n");
    if equivariant {
        push_str(&mut out, "Fiber-equivariant negative-split calibration keeps one symbolic parameter mu_i for each split summand while base weights are early-specialized.  Large symbolic graph contractions remain a performance frontier for the expanded RatFun engine.\n");
    } else {
        push_str(&mut out, "The implemented twisted backend uses a generic rational lambda-line specialization with a non-equivariant limit when available.\n");
    }
    push_str(&mut out, "Twisted calibration:\n");
    push_str(&mut out, "  I^tw(q,z)=sum_d q^d I_d^{P^n}(z) E_d^{conc};  S^tw=Birkhoff(I^tw).\n");
    push_str(&mut out, "  eta^tw(phi_a,phi_b)=int_{P^n} phi_a phi_b / e(E).\n");
    push_str(&mut out, "  H *_tw e_i = u_i^tw e_i,  Delta_i^{tw,-1}=(e_i,e_i)_{eta^tw}.\n");
    push_str(&mut out, "The graph formula substitutes the resolvent leg and edge kernels inline, with S,R,Psi,Delta,eta replaced by their twisted versions.  All q-series are read only to the requested q-degree.\n");
    proof {
        assert(out@ =~= twisted_raw_text_spec(n, degrees@, equivariant));
    }
    out
}

pub open spec fn projective_tex_spec(n: usize, equivariant: bool) -> Seq<char> {
    "\\section*{Basis Expansion: Ordinary Projective Space}\n"@
        + "Target: $\\mathbb{P}^{"@
        + decimal(n as nat)
        + "}$.\n\n"@
        + (if equivariant { "Engine: symbolic equivariant projective-space calibration.\n\n"@ } else { "Engine: ordinary projective-space Givental backend with the generic $\\lambda$-line calibration.\n\n"@ })
        + "The universal basis elements in the graph formulas are read through the following smaller calibration data:\n"@
        + "\\begin{align*}\n"@
        + "P(x)&=\\prod_{a=0}^{"@
        + decimal(n as nat)
        + "}(x-\\lambda_a)-q, &
P(u_i)&=0,\\\\\n"@
        + "E_{i\\alpha}&=u_i^{\\alpha}, &
\\Delta_i&=P'(u_i),\\\\\n"@
        + "(\\Psi^{-1})_{i\\alpha}&=\\Delta_i^{-1/2}E_{i\\alpha}, &
U&=\\operatorname{diag}(u_0,\\ldots,u_"@
        + decimal(n as nat)
        + ").\n"@
        + "\\end{align*}\n"@
        + "Here $S(z)$ is the small-$J$ descendant calibration.  In the implementation it is computed by the quantum-minus-classical $H$ recursion\n"@
        + "\\[\n"@
        + "q\\partial_q S_{s+1}=M_H^{\\mathrm{quant}}S_s-S_sM_H^{\\mathrm{cl}},\\qquad S_0=1.\n"@
        + "\\]\n"@
        + "The $R$-matrix is solved from the canonical flatness equation using $U$, $\\Psi$, and $\\Delta$.  The displayed basis elements $R^{-1}$, $(T_p)_i$, and the edge propagator are then universal consequences of this $R$:\n"@
        + "\\[\n"@
        + "T(z)=z(1-R(z)^{-1})\\mathbf 1,\\qquad \\mathbf 1_i=\\Delta_i^{-1/2}.\n"@
        + "\\]\n"@
}

fn render_projective_tex(n: usize, equivariant: bool) -> (out: String)
    ensures
        out@ == projective_tex_spec(n, equivariant),
{
    let mut out = String::new();
    push_str(&mut out, "\\section*{Basis Expansion: Ordinary Projective Space}\n");
    push_str(&mut out, "Target: $\\mathbb{P}^{");
    push_usize(&mut out, n);
    push_str(&mut out, "}$.\n\n");
    if equivariant {
        push_str(&mut out, "Engine: symbolic equivariant projective-space calibration.\n\n");
    } else {
        push_str(&mut out, "Engine: ordinary projective-space Givental backend with the generic $\\lambda$-line calibration.\n\n");
    }
    push_str(&mut out, "The universal basis elements in the graph formulas are read through the following smaller calibration data:\n");
    push_str(&mut out, "\\begin{align*}\n");
    push_str(&mut out, "P(x)&=\\prod_{a=0}^{");
    push_usize(&mut out, n);
    push_str(&mut out, "}(x-\\lambda_a)-q, &
P(u_i)&=0,\\\\\n");
    push_str(&mut out, "E_{i\\alpha}&=u_i^{\\alpha}, &
\\Delta_i&=P'(u_i),\\\\\n");
    push_str(&mut out, "(\\Psi^{-1})_{i\\alpha}&=\\Delta_i^{-1/2}E_{i\\alpha}, &
U&=\\operatorname{diag}(u_0,\\ldots,u_");
    push_usize(&mut out, n);
    push_str(&mut out, ").\n");
    push_str(&mut out, "\\end{align*}\n");
    push_str(&mut out, "Here $S(z)$ is the small-$J$ descendant calibration.  In the implementation it is computed by the quantum-minus-classical $H$ recursion\n");
    push_str(&mut out, "\\[\n");
    push_str(&mut out, "q\\partial_q S_{s+1}=M_H^{\\mathrm{quant}}S_s-S_sM_H^{\\mathrm{cl}},\\qquad S_0=1.\n");
    push_str(&mut out, "\\]\n");
    push_str(&mut out, "The $R$-matrix is solved from the canonical flatness equation using $U$, $\\Psi$, and $\\Delta$.  The displayed basis elements $R^{-1}$, $(T_p)_i$, and the edge propagator are then universal consequences of this $R$:\n");
    push_str(&mut out, "\\[\n");
    push_str(&mut out, "T(z)=z(1-R(z)^{-1})\\mathbf 1,\\qquad \\mathbf 1_i=\\Delta_i^{-1/2}.\n");
    push_str(&mut out, "\\]\n");
    proof {
        assert(out@ =~= projective_tex_spec(n, equivariant));
    }
    out
}

pub open spec fn twisted_tex_spec(n: usize, degrees: Seq<usize>, equivariant: bool) -> Seq<char> {
    "\\section*{Basis Expansion: Negative Split Twist}\n"@
        + "Base: $\\mathbb{P}^{"@
        + decimal(n as nat)
        + "}$.\n\n"@
        + "Twist: $"@
        + twist_sum_tex(degrees)
        + "$.\n\n"@
        + (if equivariant { "Engine note: the fiber-equivariant negative-split calibration keeps symbolic fiber parameters $\\mu_i$ over early-specialized base weights.  Large symbolic graph contractions still need factored rational arithmetic.\n\n"@ } else { "Engine: negative-split hypergeometric/Birkhoff $S$ plus QRR $R$ backend with the generic rational $\\lambda$-line evaluation.\n\n"@ })
        + "The universal basis elements are read through the following smaller calibration data:\n"@
        + "\\begin{align*}\n"@
        + "I^{\\mathrm{tw}}(q,z)&=\\sum_{d\\ge0}q^d I_d^{\\mathbb P^"@
        + decimal(n as nat)
        + "}(z)\\,\\mathcal E_d^{\\mathrm{conc}}, &
S^{\\mathrm{tw}}(z)&=\\operatorname{Birkhoff}(I^{\\mathrm{tw}}),\\\\\n"@
        + "\\eta^{\\mathrm{tw}}(\\phi_\\alpha,\\phi_\\beta)&=\\int_{\\mathbb P^"@
        + decimal(n as nat)
        + "}\\frac{\\phi_\\alpha\\phi_\\beta}{e(E)}, &
U^{\\mathrm{tw}}&=\\operatorname{diag}(u_0^{\\mathrm{tw}},\\ldots,u_"@
        + decimal(n as nat)
        + "^{\\mathrm{tw}}),\\\\\n"@
        + "H\\star_{\\mathrm{tw}} e_i&=u_i^{\\mathrm{tw}}e_i, &
\\Delta_i^{\\mathrm{tw},-1}&=(e_i,e_i)_{\\eta^{\\mathrm{tw}}}.\n"@
        + "\\end{align*}\n"@
        + "The matrices $\\Psi^{\\mathrm{tw}}$ and $(\\Psi^{\\mathrm{tw}})^{-1}$ are obtained by diagonalizing twisted quantum multiplication against $\\eta^{\\mathrm{tw}}$.  The $R$-matrix is then produced by the QRR/flatness recursion in this canonical frame.  As in the untwisted case,\n"@
        + "\\[\n"@
        + "T^{\\mathrm{tw}}(z)=z(1-R^{\\mathrm{tw}}(z)^{-1})\\mathbf 1^{\\mathrm{tw}},\n"@
        + "\\]\n"@
        + "and edge propagators are universal expressions in $(R^{\\mathrm{tw}})^{-1}$ and $(\\eta^{\\mathrm{tw}})^{-1}$.\n"@
}

fn render_twisted_tex(n: usize, degrees: &[usize], equivariant: bool) -> (out: String)
    ensures
        out@ == twisted_tex_spec(n, degrees@, equivariant),
{
    let mut out = String::new();
    push_str(&mut out, "\\section*{Basis Expansion: Negative Split Twist}\n");
    push_str(&mut out, "Base: $\\mathbb{P}^{");
    push_usize(&mut out, n);
    push_str(&mut out, "}$.\n\n");
    push_str(&mut out, "Twist: $");
    let twist = twist_sum_tex_string(degrees);
    push_string(&mut out, &twist);
    push_str(&mut out, "$.\n\n");
    if equivariant {
        push_str(&mut out, "Engine note: the fiber-equivariant negative-split calibration keeps symbolic fiber parameters $\\mu_i$ over early-specialized base weights.  Large symbolic graph contractions still need factored rational arithmetic.\n\n");
    } else {
        push_str(&mut out, "Engine: negative-split hypergeometric/Birkhoff $S$ plus QRR $R$ backend with the generic rational $\\lambda$-line evaluation.\n\n");
    }
    push_str(&mut out, "The universal basis elements are read through the following smaller calibration data:\n");
    push_str(&mut out, "\\begin{align*}\n");
    push_str(&mut out, "I^{\\mathrm{tw}}(q,z)&=\\sum_{d\\ge0}q^d I_d^{\\mathbb P^");
    push_usize(&mut out, n);
    push_str(&mut out, "}(z)\\,\\mathcal E_d^{\\mathrm{conc}}, &
S^{\\mathrm{tw}}(z)&=\\operatorname{Birkhoff}(I^{\\mathrm{tw}}),\\\\\n");
    push_str(&mut out, "\\eta^{\\mathrm{tw}}(\\phi_\\alpha,\\phi_\\beta)&=\\int_{\\mathbb P^");
    push_usize(&mut out, n);
    push_str(&mut out, "}\\frac{\\phi_\\alpha\\phi_\\beta}{e(E)}, &
U^{\\mathrm{tw}}&=\\operatorname{diag}(u_0^{\\mathrm{tw}},\\ldots,u_");
    push_usize(&mut out, n);
    push_str(&mut out, "^{\\mathrm{tw}}),\\\\\n");
    push_str(&mut out, "H\\star_{\\mathrm{tw}} e_i&=u_i^{\\mathrm{tw}}e_i, &
\\Delta_i^{\\mathrm{tw},-1}&=(e_i,e_i)_{\\eta^{\\mathrm{tw}}}.\n");
    push_str(&mut out, "\\end{align*}\n");
    push_str(&mut out, "The matrices $\\Psi^{\\mathrm{tw}}$ and $(\\Psi^{\\mathrm{tw}})^{-1}$ are obtained by diagonalizing twisted quantum multiplication against $\\eta^{\\mathrm{tw}}$.  The $R$-matrix is then produced by the QRR/flatness recursion in this canonical frame.  As in the untwisted case,\n");
    push_str(&mut out, "\\[\n");
    push_str(&mut out, "T^{\\mathrm{tw}}(z)=z(1-R^{\\mathrm{tw}}(z)^{-1})\\mathbf 1^{\\mathrm{tw}},\n");
    push_str(&mut out, "\\]\n");
    push_str(&mut out, "and edge propagators are universal expressions in $(R^{\\mathrm{tw}})^{-1}$ and $(\\eta^{\\mathrm{tw}})^{-1}$.\n");
    proof {
        assert(out@ =~= twisted_tex_spec(n, degrees@, equivariant));
    }
    out
}

pub open spec fn projective_raw_tex_spec(n: usize, equivariant: bool) -> Seq<char> {
    "\\section*{Raw Basis: Ordinary Projective Space}\n"@
        + "Target: $\\mathbb{P}^{"@
        + decimal(n as nat)
        + "}$.\n\n"@
        + (if equivariant { "The parameters $\\lambda_0,\\ldots,\\lambda_n$ are kept symbolic.\n\n"@ } else { "The numerical backend may evaluate on a generic $\\lambda$-line before taking a non-equivariant limit; this display keeps the symbolic root-sum form.\n\n"@ })
        + "\\begin{align*}\n"@
        + "P(x)&=\\prod_{a=0}^{"@
        + decimal(n as nat)
        + "}(x-\\lambda_a)-q, & P(u_i)&=0, & \\Delta_i&=P'(u_i),\\\\\n"@
        + "E_{i\\alpha}&=u_i^\\alpha, & (\\Psi^{-1})_{i\\alpha}&=\\Delta_i^{-1/2}E_{i\\alpha}, & \\eta^{ij}&=\\delta^{ij}.\n"@
        + "\\end{align*}\n"@
        + "The graph formula substitutes the following $q$-truncated root-sum expressions inline:\n"@
        + "\\begin{align*}\n"@
        + "\\mathcal L_i^{\\mathrm{raw},\\gamma}(z,\\psi)&=\\sum_{j,\\alpha,\\beta}(R^{\\mathrm{raw},-1}(\\psi))_{ij}\\Delta_j^{-1/2}u_j^\\beta S^{\\mathrm{raw}}(z)_{\\beta\\alpha}\\frac{\\gamma_\\alpha}{z-\\psi},\\\\\n"@
        + "\\mathcal E_{ij}^{\\mathrm{raw}}(\\psi,\\phi)&=\\frac{\\delta_{ij}-\\sum_\\nu(R^{\\mathrm{raw},-1}(\\psi))_{i\\nu}(R^{\\mathrm{raw},-1}(\\phi))_{j\\nu}}{\\psi+\\phi},\\\\\n"@
        + "\\Theta_{g,n}^{\\mathrm{raw}}(i)&=P'(u_i)^{g-1}\\bigl(P'(u_i)^{1/2}\\bigr)^n.\n"@
        + "\\end{align*}\n"@
        + "Here $S$ comes from the small $J$-function recursion and $R^{-1},T$ from the canonical flatness equation; all series are truncated at the requested $q$-degree.\n"@
}

fn render_projective_raw_tex(n: usize, equivariant: bool) -> (out: String)
    ensures
        out@ == projective_raw_tex_spec(n, equivariant),
{
    let mut out = String::new();
    push_str(&mut out, "\\section*{Raw Basis: Ordinary Projective Space}\n");
    push_str(&mut out, "Target: $\\mathbb{P}^{");
    push_usize(&mut out, n);
    push_str(&mut out, "}$.\n\n");
    if equivariant {
        push_str(&mut out, "The parameters $\\lambda_0,\\ldots,\\lambda_n$ are kept symbolic.\n\n");
    } else {
        push_str(&mut out, "The numerical backend may evaluate on a generic $\\lambda$-line before taking a non-equivariant limit; this display keeps the symbolic root-sum form.\n\n");
    }
    push_str(&mut out, "\\begin{align*}\n");
    push_str(&mut out, "P(x)&=\\prod_{a=0}^{");
    push_usize(&mut out, n);
    push_str(&mut out, "}(x-\\lambda_a)-q, & P(u_i)&=0, & \\Delta_i&=P'(u_i),\\\\\n");
    push_str(&mut out, "E_{i\\alpha}&=u_i^\\alpha, & (\\Psi^{-1})_{i\\alpha}&=\\Delta_i^{-1/2}E_{i\\alpha}, & \\eta^{ij}&=\\delta^{ij}.\n");
    push_str(&mut out, "\\end{align*}\n");
    push_str(&mut out, "The graph formula substitutes the following $q$-truncated root-sum expressions inline:\n");
    push_str(&mut out, "\\begin{align*}\n");
    push_str(&mut out, "\\mathcal L_i^{\\mathrm{raw},\\gamma}(z,\\psi)&=\\sum_{j,\\alpha,\\beta}(R^{\\mathrm{raw},-1}(\\psi))_{ij}\\Delta_j^{-1/2}u_j^\\beta S^{\\mathrm{raw}}(z)_{\\beta\\alpha}\\frac{\\gamma_\\alpha}{z-\\psi},\\\\\n");
    push_str(&mut out, "\\mathcal E_{ij}^{\\mathrm{raw}}(\\psi,\\phi)&=\\frac{\\delta_{ij}-\\sum_\\nu(R^{\\mathrm{raw},-1}(\\psi))_{i\\nu}(R^{\\mathrm{raw},-1}(\\phi))_{j\\nu}}{\\psi+\\phi},\\\\\n");
    push_str(&mut out, "\\Theta_{g,n}^{\\mathrm{raw}}(i)&=P'(u_i)^{g-1}\\bigl(P'(u_i)^{1/2}\\bigr)^n.\n");
    push_str(&mut out, "\\end{align*}\n");
    push_str(&mut out, "Here $S$ comes from the small $J$-function recursion and $R^{-1},T$ from the canonical flatness equation; all series are truncated at the requested $q$-degree.\n");
    proof {
        assert(out@ =~= projective_raw_tex_spec(n, equivariant));
    }
    out
}

pub open spec fn twisted_raw_tex_spec(n: usize, degrees: Seq<usize>, equivariant: bool) -> Seq<char> {
    "\\section*{Raw Basis: Negative Split Twist}\n"@
        + "Base: $\\mathbb{P}^{"@
        + decimal(n as nat)
        + "}$.\n\n"@
        + "Twist: $"@
        + twist_sum_tex(degrees)
        + "$.\n\n"@
        + (if equivariant { "Fiber-equivariant negative-split calibration keeps one symbolic parameter $\\mu_i$ for each split summand while base weights are early-specialized.  Large symbolic graph contractions remain a performance frontier for the expanded \\texttt{RatFun} engine.\n\n"@ } else { "The implemented twisted backend uses a generic rational $\\lambda$-line specialization with a non-equivariant limit when available.\n\n"@ })
        + "\\begin{align*}\n"@
        + "I^{\\mathrm{tw}}(q,z)&=\\sum_{d\\ge0}q^d I_d^{\\mathbb P^"@
        + decimal(n as nat)
        + "}(z)\\mathcal E_d^{\\mathrm{conc}}, &
S^{\\mathrm{tw}}&=\\operatorname{Birkhoff}(I^{\\mathrm{tw}}),\\\\\n"@
        + "\\eta^{\\mathrm{tw}}(\\phi_\\alpha,\\phi_\\beta)&=\\int_{\\mathbb P^"@
        + decimal(n as nat)
        + "}\\frac{\\phi_\\alpha\\phi_\\beta}{e(E)}, &
H\\star_{\\mathrm{tw}}e_i&=u_i^{\\mathrm{tw}}e_i,\\\\\n"@
        + "\\Delta_i^{\\mathrm{tw},-1}&=(e_i,e_i)_{\\eta^{\\mathrm{tw}}}.\n"@
        + "\\end{align*}\n"@
        + "The graph formula substitutes the resolvent leg and edge kernels inline, with $S,R,\\Psi,\\Delta,\\eta$ replaced by these twisted calibration data and truncated at the requested $q$-degree.\n"@
}

fn render_twisted_raw_tex(n: usize, degrees: &[usize], equivariant: bool) -> (out: String)
    ensures
        out@ == twisted_raw_tex_spec(n, degrees@, equivariant),
{
    let mut out = String::new();
    push_str(&mut out, "\\section*{Raw Basis: Negative Split Twist}\n");
    push_str(&mut out, "Base: $\\mathbb{P}^{");
    push_usize(&mut out, n);
    push_str(&mut out, "}$.\n\n");
    push_str(&mut out, "Twist: $");
    let twist = twist_sum_tex_string(degrees);
    push_string(&mut out, &twist);
    push_str(&mut out, "$.\n\n");
    if equivariant {
        push_str(&mut out, "Fiber-equivariant negative-split calibration keeps one symbolic parameter $\\mu_i$ for each split summand while base weights are early-specialized.  Large symbolic graph contractions remain a performance frontier for the expanded \\texttt{RatFun} engine.\n\n");
    } else {
        push_str(&mut out, "The implemented twisted backend uses a generic rational $\\lambda$-line specialization with a non-equivariant limit when available.\n\n");
    }
    push_str(&mut out, "\\begin{align*}\n");
    push_str(&mut out, "I^{\\mathrm{tw}}(q,z)&=\\sum_{d\\ge0}q^d I_d^{\\mathbb P^");
    push_usize(&mut out, n);
    push_str(&mut out, "}(z)\\mathcal E_d^{\\mathrm{conc}}, &
S^{\\mathrm{tw}}&=\\operatorname{Birkhoff}(I^{\\mathrm{tw}}),\\\\\n");
    push_str(&mut out, "\\eta^{\\mathrm{tw}}(\\phi_\\alpha,\\phi_\\beta)&=\\int_{\\mathbb P^");
    push_usize(&mut out, n);
    push_str(&mut out, "}\\frac{\\phi_\\alpha\\phi_\\beta}{e(E)}, &
H\\star_{\\mathrm{tw}}e_i&=u_i^{\\mathrm{tw}}e_i,\\\\\n");
    push_str(&mut out, "\\Delta_i^{\\mathrm{tw},-1}&=(e_i,e_i)_{\\eta^{\\mathrm{tw}}}.\n");
    push_str(&mut out, "\\end{align*}\n");
    push_str(&mut out, "The graph formula substitutes the resolvent leg and edge kernels inline, with $S,R,\\Psi,\\Delta,\\eta$ replaced by these twisted calibration data and truncated at the requested $q$-degree.\n");
    proof {
        assert(out@ =~= twisted_raw_tex_spec(n, degrees@, equivariant));
    }
    out
}

impl FormulaExpansion {
    pub open spec fn spec_text(&self) -> Seq<char> {
        match self {
            FormulaExpansion::ProjectiveSpace { n, equivariant } => projective_text_spec(*n, *equivariant),
            FormulaExpansion::NegativeSplitTwisted { n, degrees, equivariant } => twisted_text_spec(*n, degrees@, *equivariant),
        }
    }

    pub open spec fn spec_tex(&self) -> Seq<char> {
        match self {
            FormulaExpansion::ProjectiveSpace { n, equivariant } => projective_tex_spec(*n, *equivariant),
            FormulaExpansion::NegativeSplitTwisted { n, degrees, equivariant } => twisted_tex_spec(*n, degrees@, *equivariant),
        }
    }

    pub open spec fn spec_raw_text(&self) -> Seq<char> {
        match self {
            FormulaExpansion::ProjectiveSpace { n, equivariant } => projective_raw_text_spec(*n, *equivariant),
            FormulaExpansion::NegativeSplitTwisted { n, degrees, equivariant } => twisted_raw_text_spec(*n, degrees@, *equivariant),
        }
    }

    pub open spec fn spec_raw_tex(&self) -> Seq<char> {
        match self {
            FormulaExpansion::ProjectiveSpace { n, equivariant } => projective_raw_tex_spec(*n, *equivariant),
            FormulaExpansion::NegativeSplitTwisted { n, degrees, equivariant } => twisted_raw_tex_spec(*n, degrees@, *equivariant),
        }
    }

    pub fn render_text(&self) -> (out: String)
        ensures
            out@ == self.spec_text(),
    {
        match self {
            FormulaExpansion::ProjectiveSpace { n, equivariant } => render_projective_text(*n, *equivariant),
            FormulaExpansion::NegativeSplitTwisted { n, degrees, equivariant } => render_twisted_text(*n, degrees.as_slice(), *equivariant),
        }
    }

    pub fn render_tex(&self) -> (out: String)
        ensures
            out@ == self.spec_tex(),
    {
        match self {
            FormulaExpansion::ProjectiveSpace { n, equivariant } => render_projective_tex(*n, *equivariant),
            FormulaExpansion::NegativeSplitTwisted { n, degrees, equivariant } => render_twisted_tex(*n, degrees.as_slice(), *equivariant),
        }
    }

    pub fn render_raw_text(&self) -> (out: String)
        ensures
            out@ == self.spec_raw_text(),
    {
        match self {
            FormulaExpansion::ProjectiveSpace { n, equivariant } => render_projective_raw_text(*n, *equivariant),
            FormulaExpansion::NegativeSplitTwisted { n, degrees, equivariant } => render_twisted_raw_text(*n, degrees.as_slice(), *equivariant),
        }
    }

    pub fn render_raw_tex(&self) -> (out: String)
        ensures
            out@ == self.spec_raw_tex(),
    {
        match self {
            FormulaExpansion::ProjectiveSpace { n, equivariant } => render_projective_raw_tex(*n, *equivariant),
            FormulaExpansion::NegativeSplitTwisted { n, degrees, equivariant } => render_twisted_raw_tex(*n, degrees.as_slice(), *equivariant),
        }
    }
}

} // verus!
