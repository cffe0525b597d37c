use gw_pn::constraints::virasoro::qrr::{
    bernoulli_over_factorial, qrr_bernoulli_number, QrrConjugationFormula, QrrFactor,
    MAX_QRR_CHERN_INDEX, MAX_QRR_POSITIVE_Z_POWER,
};
use gw_pn::foundation::error::GwError;
use gw_pn::foundation::rational::Rational;

#[test]
fn qrr_table_has_b2_and_b4_coefficients() {
    let formula = QrrConjugationFormula::new(
        "P^2",
        "\\mathbb P^2",
        "O(-3)",
        "\\mathcal O(-3)",
        "inverse Euler",
        2,
        3,
    )
    .unwrap();
    let positive = formula
        .terms()
        .iter()
        .filter(|term| term.factor == QrrFactor::Positive)
        .collect::<Vec<_>>();
    assert_eq!(positive[0].rational_multiplier, Rational::new(1, 12));
    assert_eq!(positive[3].rational_multiplier, Rational::new(-1, 720));
}

#[test]
fn public_bernoulli_helper_obeys_the_qrr_mode_cap() {
    assert!(matches!(
        qrr_bernoulli_number(MAX_QRR_POSITIVE_Z_POWER + 2),
        Err(GwError::ResourceLimit { .. })
    ));
}

#[test]
fn rendered_formula_records_pairing_shift_order_and_source() {
    let formula = QrrConjugationFormula::new(
        "P^1",
        "\\mathbb P^1",
        "O(-1)+O(-1)",
        "\\mathcal O(-1)^{\\oplus2}",
        "inverse Euler",
        1,
        1,
    )
    .unwrap();
    let text = formula.render_text();
    assert!(text.contains("q_CG(z) = sqrt(c(E)) (t(z)-z)"));
    assert!(text.contains("exp(hat_CG(A_+)) exp(hat_CG(A_-))"));
    assert!(text.contains("exp(-hat_G(A_+)) exp(-hat_G(A_-))"));
    assert!(text.contains("math/0110142"));
    let tex = formula.render_tex();
    assert!(tex.contains("\\mathbf c(V)=\\exp"));
    assert!(tex.contains("math/0110142"));
}

#[test]
fn bernoulli_numbers_follow_the_minus_one_half_convention() {
    assert_eq!(qrr_bernoulli_number(0).unwrap(), Rational::one());
    assert_eq!(qrr_bernoulli_number(1).unwrap(), Rational::new(-1, 2));
    assert_eq!(qrr_bernoulli_number(2).unwrap(), Rational::new(1, 6));
    assert_eq!(qrr_bernoulli_number(3).unwrap(), Rational::zero());
    assert_eq!(qrr_bernoulli_number(12).unwrap(), Rational::new(-691, 2730));
    assert_eq!(bernoulli_over_factorial(4).unwrap(), Rational::new(-1, 720));
    assert!(qrr_bernoulli_number(64).is_ok());
}

#[test]
fn qrr_table_layout_and_caps() {
    let formula = QrrConjugationFormula::new("X", "X", "E", "E", "c", 2, 3).unwrap();
    let terms = formula.terms();
    // Two A_- terms, then ch_0..ch_2 for z = 1 and z = 3.
    assert_eq!(terms.len(), 2 + 2 * 3);
    assert_eq!(terms[0].factor, QrrFactor::Negative);
    assert_eq!((terms[1].z_power, terms[1].chern_character_index), (-1, 2));
    assert_eq!((terms[7].z_power, terms[7].chern_character_index), (3, 2));
    assert_eq!(terms[7].characteristic_parameter_index, 5);
    assert!(matches!(
        QrrConjugationFormula::new("X", "X", "E", "E", "c", MAX_QRR_CHERN_INDEX + 1, 1),
        Err(GwError::ResourceLimit { .. })
    ));
    assert!(matches!(
        QrrConjugationFormula::new("X", "X", "E", "E", "c", 1, MAX_QRR_POSITIVE_Z_POWER + 1),
        Err(GwError::ResourceLimit { .. })
    ));
    assert!(formula.render_text().contains("ch_l through l=2, positive z powers through 3."));
}
