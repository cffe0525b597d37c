use gw_pn::formula::expansion::FormulaExpansion;

#[test]
fn projective_expansion_mentions_canonical_roots() {
    let rendered = FormulaExpansion::ProjectiveSpace { n: 2, equivariant: false }.render_tex();
    assert!(rendered.contains("Basis Expansion: Ordinary Projective Space"));
    assert!(rendered.contains("P(x)&=\\prod_{a=0}^{2}(x-\\lambda_a)-q"));
    assert!(rendered.contains("\\Delta_i&=P'(u_i)"));
    assert!(rendered.contains("q\\partial_q S_{s+1}"));
}

#[test]
fn twisted_expansion_mentions_hypergeometric_birkhoff_qrr() {
    let rendered = FormulaExpansion::NegativeSplitTwisted {
        n: 2,
        degrees: vec![3],
        equivariant: false,
    }
    .render_tex();
    assert!(rendered.contains("Basis Expansion: Negative Split Twist"));
    assert!(rendered.contains("\\mathcal{O}(-3)"));
    assert!(rendered.contains("I^{\\mathrm{tw}}(q,z)"));
    assert!(rendered.contains("S^{\\mathrm{tw}}(z)&=\\operatorname{Birkhoff}"));
    assert!(rendered.contains("QRR"));
}
