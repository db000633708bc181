//! Programs, types, plans and diagnostics.

use raql::ir::codes::{host_missing_scalar_input, type_mismatch};
use raql::ir::{
    ArenaId, AstPhase, AstTerm, AstTermKind, DiagnosticCategory, DiagnosticCode, Diagnostics,
    PlanInvariantError, PlanOp, PlanOpId, PlannedProgramData, Program, ProgramInvariantError,
    RaqlDiagnostic, Severity, StableId, Symbol, TermArena, TermId, Ty, TypeInterner,
};

/// An id that an arena of `count + 1` items gives out last.
fn id_number<T>(count: u32, item: fn() -> T) -> ArenaId<T> {
    let mut arena = TermArena::new();
    let mut last = arena.allocate(item());
    for _ in 0..count {
        last = arena.allocate(item());
    }
    last
}

fn scan() -> PlanOp {
    PlanOp::Scan { source: StableId::new(7) }
}

fn only() -> AstTerm {
    AstTerm::var("only")
}

#[test]
fn code_format_is_stable() {
    let code = DiagnosticCode::new(DiagnosticCategory::Mode, 42);
    assert_eq!(code.to_text(), "RAQL0342");
}

#[test]
fn miette_code_matches_stable_code() {
    let diag = RaqlDiagnostic::error(type_mismatch(), "type mismatch");
    let code = diag.stable_code().to_text();
    assert_eq!(code, "RAQL0201");
}

#[test]
fn diagnostics_collection_round_trip() {
    let mut diagnostics = Diagnostics::new();
    diagnostics.push(RaqlDiagnostic::warning(
        host_missing_scalar_input(),
        "missing scalar input",
    ));

    assert_eq!(diagnostics.len(), 1);
    let collected: Vec<_> = diagnostics.into_vec();
    assert_eq!(collected.len(), 1);
    assert_eq!(collected[0].message(), "missing scalar input");
    assert_eq!(collected[0].severity_level(), Severity::Warning);
    assert_eq!(collected[0].help(), None);
}

#[test]
fn root_op_assignment_requires_known_id() {
    let mut data = PlannedProgramData::new();
    let root = data.alloc_op(PlanOp::Scan { source: StableId::new(7) });

    data.set_root_op(root).expect("valid root op id");
    assert_eq!(data.root_op(), Some(root));

    let invalid: PlanOpId = id_number(3, scan);
    let err = data.set_root_op(invalid).expect_err("expected root-op invariant failure");
    assert_eq!(err.to_text(), "root op id 3 is out of bounds for 1 ops".to_string());
    assert_eq!(data.root_op(), Some(root));
    assert!(matches!(data.op(invalid), Err(PlanInvariantError::InvalidOpId { .. })));
}

#[test]
fn root_reassignment_requires_valid_id() {
    let mut program = Program::<AstPhase>::new(AstTerm::var("root"));
    let valid = program.alloc_term(AstTerm::var("next"));
    program.set_root(valid).expect("valid root term id");

    match &program.term(program.root()).expect("root should be valid").kind {
        AstTermKind::Var(sym) => assert_eq!(sym, &Symbol::new("next")),
        other => panic!("unexpected node: {other:?}"),
    }
}

#[test]
fn from_parts_rejects_out_of_bounds_root() {
    let mut arena = TermArena::new();
    arena.allocate(AstTerm::var("only"));

    let invalid: TermId<AstPhase> = id_number(7, only);
    let outcome = Program::<AstPhase>::from_parts(
        arena,
        invalid,
        TypeInterner::new(),
        Diagnostics::new(),
        (),
    );
    let err = match outcome {
        Ok(_) => panic!("expected invalid root"),
        Err(err) => err,
    };
    assert_eq!(err, ProgramInvariantError::InvalidRootTerm { root: 7, len: 1 });
}

#[test]
fn set_root_rejects_unknown_term_id() {
    let mut program = Program::<AstPhase>::new(AstTerm::var("root"));
    let invalid: TermId<AstPhase> = id_number(5, only);

    let err = program.set_root(invalid).expect_err("expected invalid root assignment");
    assert_eq!(err, ProgramInvariantError::InvalidRootTerm { root: 5, len: 1 });
}

#[test]
fn interner_deduplicates_identical_types() {
    let mut interner = TypeInterner::new();
    let a = interner.intern(Ty::Bool);
    let b = interner.intern(Ty::Bool);

    assert_eq!(a, b);
    assert_eq!(interner.len(), 1);
}

#[test]
fn interner_handles_nested_types() {
    let mut interner = TypeInterner::new();
    let string = interner.intern(Ty::String);
    let rec = interner.intern(Ty::Record(vec![(Symbol::new("name"), string)]));

    assert_ne!(string, rec);
    assert_eq!(interner.get(rec), &Ty::Record(vec![(Symbol::new("name"), string)]));
}

#[test]
fn arenas_hand_out_their_items() {
    let mut arena = TermArena::new();
    let a = arena.allocate(AstTerm::var("a"));
    let b = arena.allocate(AstTerm::var("b"));
    assert_eq!(arena.len(), 2);
    assert_eq!((a.as_u32(), b.as_u32()), (0, 1));
    assert_eq!(arena.get(b), &AstTerm::var("b"));
    *arena.get_mut(a) = AstTerm::var("c");
    assert_eq!(arena.get(a), &AstTerm::var("c"));
    assert_eq!(arena.get(b), &AstTerm::var("b"));
    assert_eq!(StableId::new(0xab).to_text(), "0x00000000000000ab");
}
