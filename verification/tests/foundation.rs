use gw_pn::foundation::algebra::{Monomial, SymbolTable};
use gw_pn::foundation::bounded_cache::BoundedCache;
use gw_pn::foundation::error::GwError;
use gw_pn::foundation::moduli::pointed_curve_is_stable;

#[test]
fn evicts_oldest_entry_deterministically() {
    let mut cache = BoundedCache::new(2);
    assert_eq!(cache.insert("first", 1), None);
    assert_eq!(cache.insert("second", 2), None);
    assert_eq!(cache.insert("third", 3), Some(("first", 1)));

    assert_eq!(cache.get(&"first"), None);
    assert_eq!(cache.get(&"second"), Some(&2));
    assert_eq!(cache.get(&"third"), Some(&3));
    assert_eq!(cache.len(), 2);
    assert_eq!(
        cache.iter().map(|(key, _)| *key).collect::<Vec<_>>(),
        vec!["second", "third"]
    );
}

#[test]
fn replacement_preserves_fifo_position() {
    let mut cache = BoundedCache::new(2);
    cache.insert("first", 1);
    cache.insert("second", 2);
    assert_eq!(cache.insert("first", 10), None);
    assert_eq!(cache.insert("third", 3), Some(("first", 10)));

    assert_eq!(cache.get(&"first"), None);
    assert_eq!(cache.get(&"second"), Some(&2));
    assert_eq!(cache.get(&"third"), Some(&3));
}

#[test]
fn zero_capacity_never_retains_entries() {
    let mut cache = BoundedCache::new(0);
    assert_eq!(cache.insert("unused", 7), Some(("unused", 7)));
    assert_eq!(cache.get(&"unused"), None);
    assert_eq!(cache.len(), 0);
}

#[test]
fn structured_errors_preserve_machine_readable_fields() {
    let resource = GwError::ResourceLimit {
        operation: "exact Novikov rays".to_string(),
        requested: 65,
        limit: 64,
    };
    assert!(matches!(
        resource,
        GwError::ResourceLimit { requested: 65, limit: 64, .. }
    ));

    let feature = GwError::UnsupportedFeature {
        target: "bundle".to_string(),
        feature: "generalized mirror normalization".to_string(),
        witness: "higher-primary z^-1 coordinate".to_string(),
    };
    assert!(feature.message().contains("higher-primary z^-1"));
    assert_eq!(resource.message(), "resource limit: exact Novikov rays requested 65, limit 64");
}

#[test]
fn pointed_curve_stability_covers_the_boundary() {
    assert!(!pointed_curve_is_stable(0, 2));
    assert!(pointed_curve_is_stable(0, 3));
    assert!(!pointed_curve_is_stable(1, 0));
    assert!(pointed_curve_is_stable(1, 1));
    assert!(pointed_curve_is_stable(2, 0));
}

#[test]
fn monomial_text_spells_names_and_exponents() {
    let mut table = SymbolTable::new();
    assert_eq!(Monomial::one().text(&table), "1");
    let x = Monomial::variable(&mut table, "x");
    assert_eq!(x.text(&table), "x");
    let x2 = x.mul(&x);
    assert_eq!(x2.text(&table), "x^2");
    let y = Monomial::variable(&mut table, "y");
    let inverse_y = Monomial::one();
    let xy = x2.mul(&y);
    assert_eq!(xy.text(&table), "x^2*y");
    assert_eq!(y.mul(&x2).text(&table), "x^2*y");
    assert_eq!(inverse_y.text(&table), "1");
}

#[test]
fn one_name_gives_one_variable() {
    let mut table = SymbolTable::new();
    let x = Monomial::variable(&mut table, "x");
    let y = Monomial::variable(&mut table, "y");
    let x_again = Monomial::variable(&mut table, "x");
    assert_eq!(table.len(), 2);
    assert!(x == x_again);
    assert!(x != y);
    assert!(x != Monomial::one());
}
