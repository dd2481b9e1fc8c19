use std::cell::Cell;
use unleash_proxy::toggles::{evaluate_features, evaluate_strategies, toggle_state, Toggles};

#[test]
fn toggle_reports_default_variant() {
    let t = toggle_state("feature".to_string(), true);
    assert_eq!(t.name, "feature");
    assert!(t.enabled);
    assert_eq!(t.variant.name, "default");
    assert!(t.variant.payload.is_none());
}

#[test]
fn toggles_document_keeps_order() {
    let mut doc = Toggles::default();
    assert!(doc.toggles.is_empty());
    doc.push_feature("a".to_string(), true);
    doc.push_feature("b".to_string(), false);
    let names: Vec<_> = doc.toggles.iter().map(|t| (t.name.as_str(), t.enabled)).collect();
    assert_eq!(names, vec![("a", true), ("b", false)]);
}

#[test]
fn first_enabling_strategy_ends_the_search() {
    let calls = Cell::new(0);
    let results = [false, true, true];
    let check = |_f: usize, i: usize| {
        calls.set(calls.get() + 1);
        results[i]
    };
    assert!(evaluate_strategies(0, 3, &check));
    assert_eq!(calls.get(), 2);
}

#[test]
fn no_strategy_no_feature() {
    assert!(!evaluate_strategies(0, 0, &|_: usize, _: usize| true));
    assert!(!evaluate_strategies(0, 4, &|_: usize, _: usize| false));
}

#[test]
fn features_are_evaluated_in_order() {
    let names = vec!["on".to_string(), "off".to_string(), "empty".to_string(), "late".to_string()];
    let counts = vec![1, 2, 0, 3];
    // strategy `i` of feature `f` enables it when listed here
    let enabling = [(0, 0), (3, 2)];
    let doc = evaluate_features(&names, &counts, |f, i| enabling.contains(&(f, i)));
    let got: Vec<_> = doc.toggles.iter().map(|t| (t.name.as_str(), t.enabled)).collect();
    assert_eq!(got, vec![("on", true), ("off", false), ("empty", false), ("late", true)]);
    assert!(doc.toggles.iter().all(|t| t.variant.name == "default" && t.variant.payload.is_none()));
}
