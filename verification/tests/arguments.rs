use gw_pn::arguments::{
    canonical_bundle_twist_values, formula_expansion, parse_canonical_bundle_twists, parse_i128,
    parse_integer_weights, parse_negative_twist, parse_rational_weights, split_commas_exec, trim,
};
use gw_pn::error::GwError;
use gw_pn::formula::expansion::FormulaExpansion;
use gw_pn::foundation::rational::Rational;

#[test]
fn parse_negative_twist_rejects_nonnegative() {
    let err = parse_negative_twist("3").unwrap_err();
    assert!(err.message().contains("negative degrees"));
}

#[test]
fn negative_twists_are_returned_as_absolute_values() {
    assert_eq!(parse_negative_twist("-1,-1").unwrap(), vec![1, 1]);
    assert_eq!(parse_negative_twist(" -3 ").unwrap(), vec![3]);
    assert_eq!(
        parse_negative_twist("-1,").unwrap_err().message(),
        "parse error: empty twist degree in --twist value `-1,`"
    );
    assert_eq!(
        parse_negative_twist("-1, x").unwrap_err().message(),
        "parse error: invalid twist degree `x` in --twist"
    );
    assert_eq!(
        parse_negative_twist("0").unwrap_err(),
        GwError::ParseError(
            "negative split bundles must be written with negative degrees, e.g. `--twist -3` or `--twist -1,-1`; got `0`"
                .to_string()
        )
    );
    let min = format!("{}", isize::MIN);
    assert_eq!(
        parse_negative_twist(&min).unwrap_err().message(),
        format!("parse error: invalid twist degree `{min}` in --twist")
    );
}

#[test]
fn bundle_twist_parsing_requires_canonical_normalization() {
    let extreme = format!("{},{}", i128::MIN, i128::MAX);
    assert!(matches!(parse_canonical_bundle_twists(&extreme), Err(GwError::ParseError(_))));
    assert!(parse_canonical_bundle_twists("-2,0").is_err());
    assert!(parse_canonical_bundle_twists("2,3").is_err());
    assert_eq!(parse_canonical_bundle_twists("0, 1").unwrap(), vec![0, 1]);
    assert_eq!(
        parse_canonical_bundle_twists("0, a").unwrap_err().message(),
        "parse error: invalid bundle twist ` a` in `0, a`"
    );
}

#[test]
fn canonical_bundle_twists_need_a_zero_and_no_negatives() {
    assert_eq!(
        canonical_bundle_twist_values(&[]).unwrap_err().message(),
        "parse error: bundle twists must be nonempty"
    );
    assert!(canonical_bundle_twist_values(&[0, -1]).unwrap_err().message().contains("nonnegative integers"));
    assert!(canonical_bundle_twist_values(&[1, 2]).unwrap_err().message().contains("minimum 0"));
    assert_eq!(canonical_bundle_twist_values(&[2, 0, 1]).unwrap(), vec![2, 0, 1]);
}

#[test]
fn integer_weights_are_counted() {
    let weights = parse_integer_weights("1, -2,3", 3).unwrap();
    assert_eq!(weights, vec![Rational::from_i128(1), Rational::from_i128(-2), Rational::from_i128(3)]);
    assert_eq!(
        parse_integer_weights("1,2", 3).unwrap_err().message(),
        "parse error: expected 3 comma-separated weights, got 2"
    );
    assert_eq!(
        parse_integer_weights("1,1/2", 2).unwrap_err().message(),
        "parse error: invalid integer weight `1/2` in `1,1/2`"
    );
}

#[test]
fn rational_weights_accept_fractions() {
    let weights = parse_rational_weights("1/2, 3 , -4 / 6", 3).unwrap();
    assert_eq!(weights, vec![Rational::new(1, 2), Rational::from_i128(3), Rational::new(-2, 3)]);
    assert_eq!(
        parse_rational_weights("0", 1).unwrap_err().message(),
        "parse error: fiber weight `0` must be a nonzero rational number"
    );
    assert_eq!(
        parse_rational_weights("1/0", 1).unwrap_err().message(),
        "parse error: fiber weight `1/0` must be a nonzero rational number"
    );
    assert_eq!(
        parse_rational_weights("a/2", 1).unwrap_err().message(),
        "parse error: invalid rational weight `a/2` in `a/2`"
    );
    assert_eq!(
        parse_rational_weights("1,2", 1).unwrap_err().message(),
        "parse error: expected 1 comma-separated fiber weights, got 2"
    );
}

#[test]
fn splitting_and_trimming_follow_str() {
    let parts: Vec<String> = split_commas_exec("a,,b ,");
    assert_eq!(parts, vec!["a", "", "b ", ""]);
    assert_eq!(trim("\t x y \u{3000}"), "x y");
    assert_eq!(parse_i128("+17"), Some(17));
    assert_eq!(parse_i128("-170141183460469231731687303715884105728"), Some(i128::MIN));
    assert_eq!(parse_i128("170141183460469231731687303715884105728"), None);
    assert_eq!(parse_i128("-"), None);
    assert_eq!(parse_i128("1_0"), None);
}

#[test]
fn formula_expansion_ignores_twist_without_expand() {
    let expansion = formula_expansion(false, false, Some(&[3]), Some(2), 3, false).unwrap();
    assert_eq!(expansion, None);
}

#[test]
fn formula_expansion_infers_projective_with_expand() {
    let expansion = formula_expansion(true, false, None, Some(2), 3, false).unwrap();
    assert_eq!(expansion, Some(FormulaExpansion::ProjectiveSpace { n: 2, equivariant: false }));
}

#[test]
fn formula_expansion_infers_twisted_with_expand_and_twist() {
    let expansion = formula_expansion(true, false, Some(&[3]), Some(2), 3, false).unwrap();
    assert_eq!(
        expansion,
        Some(FormulaExpansion::NegativeSplitTwisted { n: 2, degrees: vec![3], equivariant: false })
    );
}

#[test]
fn formula_expansion_needs_a_dimension() {
    assert!(formula_expansion(true, false, Some(&[3]), None, 3, false).is_err());
    assert!(formula_expansion(false, true, None, None, 0, true).is_err());
    assert_eq!(
        formula_expansion(false, true, None, None, 4, true).unwrap(),
        Some(FormulaExpansion::ProjectiveSpace { n: 3, equivariant: true })
    );
}
