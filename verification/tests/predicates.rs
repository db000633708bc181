//! The catalog's predicates and their modes.

use raql::plan::{v0_catalog, Binding, OperatorId, Pattern};

#[test]
fn def_name_mode_selection_is_binding_aware() {
    let def_name = v0_catalog().predicate("def_name").expect("def_name in catalog");

    // Def bound: the C0 projection wins.
    let modes = def_name.satisfiable_modes(&Pattern::from(vec![true, false]));
    assert_eq!(modes[0].operator, OperatorId::NameOfDef);

    // Name bound: the C2 seed wins; the scan is satisfiable but always
    // sorts last.
    let modes = def_name.satisfiable_modes(&Pattern::from(vec![false, true]));
    assert_eq!(
        modes.iter().map(|m| m.operator).collect::<Vec<_>>(),
        vec![OperatorId::DefsByExactName, OperatorId::DefNamesScan],
    );

    // Both bound: every mode satisfiable, cheapest first.
    let modes = def_name.satisfiable_modes(&Pattern::from(vec![true, true]));
    assert_eq!(modes[0].operator, OperatorId::NameOfDef);

    // Nothing bound: only the declared scan applies — a scan is never
    // inferred, but a declared one is a legal (visible) access path.
    let modes = def_name.satisfiable_modes(&Pattern::from(vec![false, false]));
    assert_eq!(
        modes.iter().map(|m| m.operator).collect::<Vec<_>>(),
        vec![OperatorId::DefNamesScan],
    );
}

#[test]
fn unknown_predicates_do_not_exist() {
    assert!(v0_catalog().predicate("search").is_none());
    assert!(v0_catalog().predicate("world_stamp").is_none());
}

#[test]
fn mode_patterns_never_use_bound_wildcards() {
    // Every declared pattern spells out each position. A
    // pure filter (every mode all-bound: `is_public(+)`) is legitimate;
    // an all-bound mode next to a freer mode is a redundant membership
    // test, which the freer mode already answers.
    for predicate in v0_catalog().entries() {
        let pure_filter = predicate
            .modes
            .iter()
            .all(|mode| mode.pattern.iter().all(|b| *b == Binding::Bound));
        for mode in predicate.modes {
            assert_eq!(mode.pattern.len(), predicate.arity());
            assert!(
                pure_filter || mode.pattern.contains(&Binding::Free),
                "`{}` declares an all-bound mode alongside freer modes — \
                 a redundant membership test",
                predicate.name,
            );
        }
    }
}

#[test]
fn filters_and_scans_are_declared() {
    let catalog = v0_catalog();
    // Scans exist only where they are declared.
    let scan_predicates: Vec<&str> = catalog
        .entries()
        .iter()
        .filter(|p| p.modes.iter().any(|m| m.access == raql::plan::AccessKind::Scan))
        .map(|p| p.name)
        .collect();
    assert_eq!(scan_predicates, vec!["def_name", "def", "fn_def", "call_edge"]);

    // The roadmap families are present but disabled: no modes.
    for name in ["constructs", "propagates", "converts", "handles", "compares", "writes"] {
        let predicate = catalog.predicate(name).expect("roadmap entry exists");
        assert!(predicate.is_disabled());
        assert!(predicate.modes.is_empty());
    }
}
