use gw_pn::resolvent::resolvent_definition_text;

#[test]
fn resolvent_definition_names_ordinary_target_and_fraction() {
    let rendered = resolvent_definition_text(2, 0, 1, 3, None);
    assert!(rendered.contains("F_{0,1}^{P^2}(z_0,...,z_2; t_0,...,t_2)"));
    assert!(rendered.contains("sum_{a=0}^{2} t_ell^a H^a/a!"));
    assert!(rendered.contains("z_ell - psi_ell"));
    assert!(rendered.contains("1/(z_ell - psi_ell)"));
}

#[test]
fn resolvent_definition_names_twisted_target() {
    let rendered = resolvent_definition_text(2, 2, 1, 1, Some(&[1, 2]));
    assert!(rendered.contains("F_{2,1}^{P^2, O(-1) + O(-2)}(z_0; t_0)"));
    assert!(rendered.contains(">_{2,1}^{P^2, O(-1) + O(-2)}"));
}

#[test]
fn resolvent_definition_handles_zero_markings() {
    let rendered = resolvent_definition_text(1, 2, 0, 0, None);
    assert!(rendered.contains("F_{2,0}^{P^1}"));
    assert!(rendered.contains("< 1 >_{2,0}^{P^1}"));
}
