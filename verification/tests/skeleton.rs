use gw_pn::error::GwError;
use gw_pn::formula::skeleton::{translation_partitions, vertex_expanded_terms, FormulaRequest};

#[test]
fn formula_request_records_expected_truncation_bounds() {
    let mut req = FormulaRequest::new(2, 1, 3);
    req.max_descendant_power = 5;
    assert_eq!(req.graph_dimension(), 4);
    assert_eq!(req.inverse_r_order(), 5);
    assert_eq!(req.edge_power_max(), 4);
    assert_eq!(req.translation_power_max(), 5);
    assert_eq!(req.z_order(), 5);
}

#[test]
fn descendant_bound_can_dominate_the_z_order() {
    let mut req = FormulaRequest::new(0, 3, 1);
    req.max_descendant_power = 7;
    assert_eq!(req.graph_dimension(), 0);
    assert_eq!(req.z_order(), 7);
    assert_eq!(req.descendant_s_order(), 7);
}

#[test]
fn formula_requests_need_colors_and_stability() {
    assert!(FormulaRequest::new(1, 1, 2).validate().is_ok());
    assert!(matches!(
        FormulaRequest::new(1, 1, 0).validate(),
        Err(GwError::ParseError(_))
    ));
    assert!(matches!(
        FormulaRequest::new(0, 2, 1).validate(),
        Err(GwError::UnsupportedInvariant(_))
    ));
    assert!(matches!(
        FormulaRequest::new(1, 0, 1).validate(),
        Err(GwError::UnsupportedInvariant(_))
    ));
}

#[test]
fn vertex_terms_expand_translation_partitions() {
    let terms = vertex_expanded_terms(1, "i0", &[0]);
    assert_eq!(terms.len(), 1);
    assert!(terms[0].contains("T_{i0}^2"));
    assert!(terms[0].contains("PsiInt(1;0,2)"));
}

#[test]
fn translation_partitions_list_distinct_parts_with_multiplicities() {
    assert_eq!(
        translation_partitions(4),
        vec![
            vec![(1, 1), (3, 1)],
            vec![(1, 2), (2, 1)],
            vec![(1, 4)],
            vec![(2, 2)],
            vec![(4, 1)],
        ]
    );
    assert_eq!(translation_partitions(0), vec![Vec::<(usize, usize)>::new()]);
}

#[test]
fn vertex_terms_carry_symmetry_factors_and_valence() {
    let terms = vertex_expanded_terms(0, "i0", &[0, 0, 0, 0, 0]);
    assert_eq!(
        terms,
        vec![
            "(T_{i0}^2)^2 * 1/2 * DeltaInv_{i0} * (RelSqrtDelta_{i0})^7 * PsiInt(0;0,0,0,0,0,2,2)".to_string(),
            "T_{i0}^3 * DeltaInv_{i0} * (RelSqrtDelta_{i0})^6 * PsiInt(0;0,0,0,0,0,3)".to_string(),
        ]
    );
}

#[test]
fn filled_vertices_have_one_term_and_overfull_ones_none() {
    assert_eq!(
        vertex_expanded_terms(0, "c", &[0, 0, 0]),
        vec!["DeltaInv_{c} * (RelSqrtDelta_{c})^3 * PsiInt(0;0,0,0)".to_string()]
    );
    assert_eq!(
        vertex_expanded_terms(2, "c", &[4]),
        vec!["Delta_{c} * RelSqrtDelta_{c} * PsiInt(2;4)".to_string()]
    );
    assert!(vertex_expanded_terms(0, "c", &[1, 0, 0]).is_empty());
}
