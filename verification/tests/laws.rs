//! What the library states of all inputs, on concrete values.

use raql::host::{
    HostRuntime, ImplId, MockHostRuntime, NodeId, RefId, SpanCoord, SpanKey, StableHandle, TypeRefId,
};
use raql::ir::codes::{internal_invariant, parse_unexpected_token, plan_unsupported_op};
use raql::ir::{
    AstPhase, AstTerm, PlanOp, PlannedProgramData, Program as IrProgram, RaqlDiagnostic, StableId,
    Ty, TypeInterner,
};
use raql::plan::{
    plan, v0_catalog, AccessKind, ArgDef, ArgType, Binding, BuiltinDef, BuiltinId, Catalog,
    Completeness, CostClass, DerivedDef, DerivedId, Goal, GoalLocation, GoalRef, InputDef, InputId,
    ModeDef, OperatorId, PlanError, PlanOptions, PredicateDef, Program, Rule, Term,
    UnsatisfiableGoal, Var,
};
use raql::ra::file_id::SourceEdition;
use raql::ra::file_selection::{collect_local_files, FileCandidate};
use raql::ra::host::DeterministicRaHost;
use raql::ra::kinds::{
    def_kind_from_variant, dispatch_kind_from_variant, node_kind_from_variant, DefKind,
    DispatchKind, NodeKind,
};
use raql::ra::lookup_store::canonical_function_path;
use raql::ra::service::{FileStanding, SyncAction, SyncEvent, SyncState};
use raql::ra::tree_walk::seeded_file_id;
use raql::ra::world::{compute_world_stamp, WorldFile};
use raql::search::{replace_char, split_at_each, split_path, tail_of_path};

/// A catalog whose predicate declares a wide mode before a narrow one.
fn wide_first() -> Catalog {
    Catalog::new(&[PredicateDef {
        name: "pair",
        args: &[
            ArgDef { name: "A", ty: ArgType::Int },
            ArgDef { name: "B", ty: ArgType::Int },
            ArgDef { name: "C", ty: ArgType::Int },
        ],
        doc: "",
        completeness: Completeness::RaExact,
        modes: &[
            ModeDef {
                pattern: &[Binding::Bound, Binding::Bound, Binding::Free],
                cost: CostClass::C0,
                access: AccessKind::Keyed,
                operator: OperatorId::CalleesOfFn,
                ra_primitives: &[],
                caveats: &[],
            },
            ModeDef {
                pattern: &[Binding::Bound, Binding::Free, Binding::Free],
                cost: CostClass::C1,
                access: AccessKind::Keyed,
                operator: OperatorId::CalleesOfFn,
                ra_primitives: &[],
                caveats: &[],
            },
            ModeDef {
                pattern: &[Binding::Free, Binding::Bound, Binding::Bound],
                cost: CostClass::C1,
                access: AccessKind::Keyed,
                operator: OperatorId::CalleesOfFn,
                ra_primitives: &[],
                caveats: &[],
            },
        ],
    }])
}

#[test]
fn unlock_sets_are_minimal() {
    let program = Program {
        derived: Vec::new(),
        inputs: Vec::new(),
        builtins: Vec::new(),
        query: Rule {
            vars: vec!["X".to_string(), "Y".to_string(), "Z".to_string()],
            head: Vec::new(),
            body: vec![Goal::positive(
                GoalRef::Extern("pair".to_string()),
                vec![Term::Var(Var(0)), Term::Var(Var(1)), Term::Var(Var(2))],
            )],
        },
    };
    let error = plan(&program, &wide_first(), PlanOptions::default()).unwrap_err();
    match error {
        PlanError::UnsatisfiableModes(goal) => assert_eq!(
            goal.unlock_sets,
            vec![vec!["X".to_string()], vec!["Y".to_string(), "Z".to_string()]]
        ),
        other => panic!("unexpected error: {}", other.to_text()),
    }
}

fn rule(vars: &[&str], head: Vec<Term>, body: Vec<Goal>) -> Rule {
    Rule { vars: vars.iter().map(|name| name.to_string()).collect(), head, body }
}

fn var(index: u32) -> Term {
    Term::Var(Var(index))
}

fn names(sets: &[&[&str]]) -> Vec<Vec<String>> {
    sets.iter().map(|set| set.iter().map(|name| name.to_string()).collect()).collect()
}

/// The account of the goal that a query is stuck at.
fn stuck(catalog: &Catalog, program: &Program, deny_scans: bool) -> UnsatisfiableGoal {
    match plan(program, catalog, PlanOptions { deny_scans }) {
        Err(PlanError::UnsatisfiableModes(goal)) => *goal,
        Err(other) => panic!("unexpected error: {}", other.to_text()),
        Ok(_) => panic!("the query can be planned"),
    }
}

fn query(vars: &[&str], body: Vec<Goal>) -> Program {
    Program {
        derived: Vec::new(),
        inputs: vec![InputDef { name: "in".to_string(), arity: 1 }],
        builtins: Vec::new(),
        query: rule(vars, Vec::new(), body),
    }
}

#[test]
fn denied_scans_refuse_derived_scans() {
    let derived = DerivedDef {
        name: "p".to_string(),
        arity: 1,
        rules: vec![rule(
            &["X"],
            vec![var(0)],
            vec![Goal::positive(GoalRef::Input(InputId(0)), vec![var(0)])],
        )],
        declared_modes: None,
    };
    let unseeded = Goal::positive(GoalRef::Derived(DerivedId(0)), vec![var(0)]);
    let mut program = query(&["X"], vec![unseeded]);
    program.derived = vec![derived];
    let allowed = plan(&program, &v0_catalog(), PlanOptions::default()).expect("plans");
    assert_eq!(allowed.scans.len(), 1);
    assert_eq!(allowed.scans[0].predicate, "p");
    let denied = plan(&program, &v0_catalog(), PlanOptions { deny_scans: true }).unwrap_err();
    assert_eq!(denied.code(), "RAQL0310");
    assert_eq!(
        denied,
        PlanError::ScanDenied { predicate: "p".to_string(), cost: CostClass::C0 }
    );
    // Seeded by the input, the same call is no scan.
    program.query.body.push(Goal::positive(GoalRef::Input(InputId(0)), vec![var(0)]));
    let seeded = plan(&program, &v0_catalog(), PlanOptions { deny_scans: true }).expect("plans");
    assert!(seeded.scans.is_empty());
    assert!(seeded.specializations.iter().all(|spec| !spec.is_scan));
}

/// A catalog whose cheaper mode lacks more than its dearer one.
fn cheap_and_wide() -> Catalog {
    Catalog::new(&[PredicateDef {
        name: "trio",
        args: &[
            ArgDef { name: "A", ty: ArgType::Int },
            ArgDef { name: "B", ty: ArgType::Int },
            ArgDef { name: "C", ty: ArgType::Int },
        ],
        doc: "",
        completeness: Completeness::RaExact,
        modes: &[
            ModeDef {
                pattern: &[Binding::Free, Binding::Free, Binding::Bound],
                cost: CostClass::C2,
                access: AccessKind::Keyed,
                operator: OperatorId::CalleesOfFn,
                ra_primitives: &[],
                caveats: &[],
            },
            ModeDef {
                pattern: &[Binding::Bound, Binding::Bound, Binding::Free],
                cost: CostClass::C0,
                access: AccessKind::Keyed,
                operator: OperatorId::CalleesOfFn,
                ra_primitives: &[],
                caveats: &[],
            },
            ModeDef {
                pattern: &[Binding::Bound, Binding::Free, Binding::Free],
                cost: CostClass::C4,
                access: AccessKind::Scan,
                operator: OperatorId::CalleesOfFn,
                ra_primitives: &[],
                caveats: &[],
            },
        ],
    }])
}

fn trio() -> GoalRef {
    GoalRef::Extern("trio".to_string())
}

#[test]
fn unlock_sets_list_the_cheapest_mode_first() {
    let program = query(&["X", "Y", "Z"], vec![Goal::positive(trio(), vec![var(0), var(1), var(2)])]);
    let denied = stuck(&cheap_and_wide(), &program, true);
    assert_eq!(denied.unlock_sets, names(&[&["X", "Y"], &["Z"]]));
    // The scan would need X too.
    assert!(!denied.scans_denied);
    let allowed = stuck(&cheap_and_wide(), &program, false);
    assert_eq!(allowed.unlock_sets, names(&[&["Z"], &["X"]]));
}

#[test]
fn denied_scans_are_told_where_they_would_do() {
    let input = Goal::positive(GoalRef::Input(InputId(0)), vec![var(0)]);
    let program = query(
        &["X", "Y", "Z"],
        vec![input, Goal::positive(trio(), vec![var(0), var(1), var(2)])],
    );
    let told = stuck(&cheap_and_wide(), &program, true);
    assert!(told.scans_denied);
    assert_eq!(told.unlock_sets, names(&[&["Y"], &["Z"]]));
    assert!(PlanError::UnsatisfiableModes(Box::new(told)).to_text().ends_with(", or allow scans"));
    let negated = query(
        &["X", "Y", "Z"],
        vec![
            Goal::positive(GoalRef::Input(InputId(0)), vec![var(0)]),
            Goal::negated(trio(), vec![var(0), var(1), var(2)]),
        ],
    );
    let told = stuck(&cheap_and_wide(), &negated, true);
    assert!(!told.scans_denied);
    assert_eq!(told.unlock_sets, names(&[&["Y"], &["Z"]]));
}

#[test]
fn negated_goals_wait_for_what_they_share() {
    // `not callee(F, C, S, K)` with F and C used in the head: both must be bound.
    let callee = GoalRef::Extern("callee".to_string());
    let mut program = query(
        &["F", "C", "S", "K"],
        vec![Goal::negated(callee, vec![var(0), var(1), var(2), var(3)])],
    );
    program.query.head = vec![var(0), var(1)];
    let told = stuck(&v0_catalog(), &program, false);
    assert_eq!(told.unlock_sets, names(&[&["F", "C"]]));

    // A negated input waits for its shared variable alone.
    let mut program =
        query(&["X"], vec![Goal::negated(GoalRef::Input(InputId(0)), vec![var(0)])]);
    program.query.head = vec![var(0)];
    assert_eq!(stuck(&v0_catalog(), &program, false).unlock_sets, names(&[&["X"]]));

    // A negated builtin needs all of its arguments.
    let mut program = query(
        &["X", "Y"],
        vec![Goal::negated(GoalRef::Builtin(BuiltinId(0)), vec![var(0), var(1)])],
    );
    program.builtins = vec![BuiltinDef {
        name: "next".to_string(),
        pattern: vec![Binding::Bound, Binding::Free],
    }];
    assert_eq!(stuck(&v0_catalog(), &program, false).unlock_sets, names(&[&["X", "Y"]]));

    // A negated derived call with nothing bound waits for any argument.
    let mut program = query(
        &["X", "Y"],
        vec![Goal::negated(GoalRef::Derived(DerivedId(0)), vec![var(0), var(1)])],
    );
    program.derived = vec![DerivedDef {
        name: "p".to_string(),
        arity: 2,
        rules: vec![rule(
            &["X", "Y"],
            vec![var(0), var(1)],
            vec![
                Goal::positive(GoalRef::Input(InputId(0)), vec![var(0)]),
                Goal::positive(GoalRef::Input(InputId(0)), vec![var(1)]),
            ],
        )],
        declared_modes: None,
    }];
    assert_eq!(stuck(&v0_catalog(), &program, false).unlock_sets, names(&[&["X"], &["Y"]]));
}

#[test]
fn ids_and_span_keys_are_ordered() {
    assert!(StableId::new(3) < StableId::new(4) && StableId::new(4) > StableId::new(3));
    assert!(SpanCoord::new(1, 9) < SpanCoord::new(2, 0));
    assert!(SpanCoord::new(1, 2) < SpanCoord::new(1, 3));
    let key = |path: &str, l0, c0, l1, c1| {
        SpanKey::new(path, SpanCoord::new(l0, c0), SpanCoord::new(l1, c1))
    };
    let ascending = [
        key("a", 9, 9, 9, 9),
        key("a/b", 0, 0, 0, 0),
        key("b", 0, 1, 0, 2),
        key("b", 0, 1, 1, 0),
        key("b", 0, 2, 0, 2),
        key("\u{e9}", 0, 0, 0, 0),
        key("\u{ffee}", 0, 0, 0, 0),
        key("\u{10000}", 0, 0, 0, 0),
    ];
    for i in 0..ascending.len() {
        for j in 0..ascending.len() {
            assert_eq!(ascending[i] < ascending[j], i < j);
            assert_eq!(ascending[i] == ascending[j], i == j);
            assert_eq!(ascending[i].cmp(&ascending[j]), i.cmp(&j));
        }
    }
}

#[test]
fn overrides_stand_for_every_kind_of_handle() {
    let id = StableId::new(9);
    let runtime = MockHostRuntime::new()
        .with_typeref_id(TypeRefId::new(id), StableHandle::new("t"))
        .with_node_id(NodeId::new(id), StableHandle::new("n"))
        .with_ref_id(RefId::new(id), StableHandle::new("r"))
        .with_impl_id(ImplId::new(id), StableHandle::new("i"));
    assert_eq!(runtime.typeref_id(TypeRefId::new(id)).expect("type").as_str(), "t");
    assert_eq!(runtime.node_id(NodeId::new(id)).expect("node").as_str(), "n");
    assert_eq!(runtime.ref_id(RefId::new(id)).expect("ref").as_str(), "r");
    assert_eq!(runtime.impl_id(ImplId::new(id)).expect("impl").as_str(), "i");
    assert_eq!(
        runtime.node_id(NodeId::new(StableId::new(8))).expect("node").as_str(),
        "node_id:0x0000000000000008"
    );
}

#[test]
fn codes_are_stable_and_help_is_kept() {
    assert_eq!(parse_unexpected_token().to_text(), "RAQL0001");
    assert_eq!(plan_unsupported_op().to_text(), "RAQL0301");
    assert_eq!(internal_invariant().to_text(), "RAQL0991");
    let diagnostic = RaqlDiagnostic::error(internal_invariant(), "m").with_help("h");
    assert_eq!(diagnostic.help(), Some("h"));
}

#[test]
fn programs_and_plans_give_back_what_was_put_in() {
    let mut program = IrProgram::<AstPhase>::new(AstTerm::var("root"));
    let next = program.alloc_term(AstTerm::var("next"));
    assert_eq!(program.term_len(), 2);
    *program.term_mut(next).expect("known") = AstTerm::var("changed");
    assert_eq!(program.try_term(next), Some(&AstTerm::var("changed")));
    assert_eq!(program.try_term(program.root()), Some(&AstTerm::var("root")));

    let mut data = PlannedProgramData::new();
    let op = data.alloc_op(PlanOp::Scan { source: StableId::new(1) });
    *data.op_mut(op).expect("known") = PlanOp::Scan { source: StableId::new(2) };
    assert_eq!(data.try_op(op), Some(&PlanOp::Scan { source: StableId::new(2) }));

    let mut interner = TypeInterner::new();
    let id = interner.intern(Ty::Bool);
    assert_eq!(interner.try_get(id), Some(&Ty::Bool));
}

#[test]
fn labels_read_back_to_their_kinds() {
    for kind in [DefKind::Fn, DefKind::Struct, DefKind::Variant, DefKind::Macro, DefKind::Mod] {
        assert_eq!(def_kind_from_variant(kind.variant_label()), Some(kind));
    }
    for kind in [DispatchKind::Direct, DispatchKind::Dyn, DispatchKind::FnPointer] {
        assert_eq!(dispatch_kind_from_variant(kind.variant_label()), Some(kind));
    }
    assert_eq!(node_kind_from_variant(NodeKind::Match.variant_label()), Some(NodeKind::Match));
    assert_eq!(def_kind_from_variant("NO_SUCH_KIND"), None);
}

#[test]
fn texts_are_cut_and_joined() {
    assert_eq!(split_at_each("a,b,,c", ","), vec!["a", "b", "", "c"]);
    assert_eq!(split_at_each("a,b", ",").join(","), "a,b");
    assert_eq!(split_path("a::b::c"), Some(("a::b".to_string(), "c".to_string())));
    assert_eq!(tail_of_path("a::b::c"), "c");
    assert_eq!(replace_char("a\\b", '\\', '/'), "a/b");
}

#[test]
fn defs_can_be_read_back() {
    let mut host = DeterministicRaHost::new();
    let file_id = seeded_file_id("a.rs");
    let span = host.intern_span_from_text(file_id, "a.rs", "fn f() {}", 0, 9).expect("in range");
    let def = host.intern_def_from_token("token");
    host.insert_def(def, "f", DefKind::Fn, span, "crate::f");
    let record = host.def_record(def).expect("known");
    assert_eq!((record.name.as_str(), record.path.as_str()), ("f", "crate::f"));
    assert_eq!(record.span, span);
    assert_eq!(seeded_file_id("a.rs"), seeded_file_id("a.rs"));
    assert_eq!(file_id.edition(), SourceEdition::current());
    assert_eq!(file_id.in_current_edition(), file_id);
    assert_eq!(file_id.as_u32() >> 23, 3);
}

#[test]
fn snapshots_take_a_bounded_number_of_library_files() {
    let candidates = (0..5_010u32)
        .map(|id| FileCandidate {
            file_id: id,
            source_root: 7,
            is_library: true,
            abs_path: format!("/lib/{id:05}.rs"),
        })
        .collect::<Vec<_>>();
    let chosen = collect_local_files(&candidates).expect("some files");
    assert_eq!(chosen.len(), 5_000);
    assert_eq!(chosen[0].file_id, 0);
    match collect_local_files(&vec![]) {
        Err(error) => assert!(error.to_text().contains("workspace snapshot has no source files")),
        Ok(_) => panic!("there are no files"),
    }
}

#[test]
fn edits_count_a_revision_and_no_epoch() {
    let events = [
        SyncEvent::InputsCompared { changed: false },
        SyncEvent::Drained { any: true, quiet: false },
        SyncEvent::WatchedFile { requires_reload: false },
        SyncEvent::WatchedStored {
            changed: true,
            standing: FileStanding::Known,
            has_contents: true,
            is_text: true,
            is_tracked: false,
            is_rust: true,
        },
        SyncEvent::WatchedEnd,
    ];
    let actions = [
        SyncAction::Drain,
        SyncAction::NextWatched,
        SyncAction::StoreWatched,
        SyncAction::QueueWatched { track: true },
        SyncAction::Commit,
    ];
    let mut state = SyncState::begin(3, 7);
    for (event, expected) in events.into_iter().zip(actions) {
        let (next, action) = state.step(event);
        assert_eq!(action, expected);
        state = next;
    }
    assert_eq!((state.workspace_epoch, state.content_revision), (3, 8));
    assert_eq!(state.step(SyncEvent::Reloaded), (state, SyncAction::Finish));
}

#[test]
fn stored_files_that_are_unknown_or_no_text_are_not_queued() {
    let stored = |standing, has_contents, is_text| {
        let (state, _) = SyncState::begin(0, 0).step(SyncEvent::InputsCompared { changed: false });
        let (state, _) = state.step(SyncEvent::Drained { any: true, quiet: true });
        let (state, _) = state.step(SyncEvent::WatchedFile { requires_reload: false });
        state
            .step(SyncEvent::WatchedStored {
                changed: true,
                standing,
                has_contents,
                is_text,
                is_tracked: true,
                is_rust: true,
            })
            .1
    };
    assert_eq!(stored(FileStanding::Unknown, true, true), SyncAction::Reload);
    assert_eq!(stored(FileStanding::Excluded, true, true), SyncAction::Reload);
    assert_eq!(stored(FileStanding::Known, false, false), SyncAction::Reload);
    assert_eq!(stored(FileStanding::Known, true, false), SyncAction::Fail);
}

#[test]
fn function_paths_lie_below_their_crate() {
    assert_eq!(canonical_function_path("f", Some("m::f"), Some("demo")), "demo::m::f");
    assert_eq!(canonical_function_path("f", Some("demo::f"), Some("demo")), "demo::f");
    assert_eq!(canonical_function_path("f", None, Some("demo")), "demo::f");
}

#[test]
fn the_stamp_of_a_world_does_not_depend_on_the_order_of_its_files() {
    let file = |path: &str, text: &str| WorldFile {
        rel_path: path.to_string(),
        text: text.to_string(),
    };
    let forward = vec![file("a", "1"), file("b", "2"), file("c", "3")];
    let backward = vec![file("c", "3"), file("b", "2"), file("a", "1")];
    let moved = vec![file("a", "2"), file("b", "1"), file("c", "3")];
    let stamp = compute_world_stamp("/w", &forward, "id");
    assert_eq!(stamp, compute_world_stamp("/w", &backward, "id"));
    assert_ne!(stamp, compute_world_stamp("/w", &moved, "id"));
    assert_ne!(stamp, compute_world_stamp("/v", &forward, "id"));
}

#[test]
fn stuck_rules_are_located() {
    let input = || Goal::positive(GoalRef::Input(InputId(0)), vec![var(0)]);
    let held = || rule(&["X"], vec![var(0)], vec![input()]);
    let short = rule(
        &["X", "Y", "Z"],
        vec![var(0)],
        vec![input(), Goal::positive(trio(), vec![var(0), var(1), var(2)])],
    );
    let derived = |name: &str, rules: Vec<Rule>| DerivedDef {
        name: name.to_string(),
        arity: 1,
        rules,
        declared_modes: None,
    };
    let mut program = query(
        &["X"],
        vec![input(), Goal::positive(GoalRef::Derived(DerivedId(1)), vec![var(0)])],
    );
    program.derived = vec![derived("p", vec![held()]), derived("q", vec![held(), short])];
    let goal = stuck(&cheap_and_wide(), &program, true);
    assert_eq!(goal.goal, "trio(X, Y, Z)");
    assert_eq!(
        goal.location,
        Some(GoalLocation { predicate: DerivedId(1), rule_index: 1, source_index: 1 })
    );
    assert!(plan(&program, &cheap_and_wide(), PlanOptions::default()).is_ok());
}

#[test]
fn stuck_queries_have_no_location() {
    let program = query(
        &["X", "Y", "Z"],
        vec![
            Goal::positive(GoalRef::Input(InputId(0)), vec![var(0)]),
            Goal::positive(trio(), vec![var(0), var(1), var(2)]),
        ],
    );
    let goal = stuck(&cheap_and_wide(), &program, true);
    assert_eq!(goal.goal, "trio(X, Y, Z)");
    assert_eq!(goal.location, None);
}
