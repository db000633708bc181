//! Answers to requests for rows.

use raql::host::{DefId, SpanCoord, SpanId, SpanKey};
use raql::ir::StableId;
use raql::ra::call_lookup::{
    method_dispatch_kind, note_import_rename, owner_among, AncestorKind, BodyCall, CallFacts,
    FileReferences, OwnerFacts, Reference, TargetFacts,
};
use raql::ra::call_rows::{
    ask_for_calls, lookup_call_edge_rows, CallEdgeFacts, CallQuestion, CallerBody,
};
use raql::ra::core_build::{CoreDefFacts, CoreFactsBuilder, CoreHostBuildSpec, LoweredTy};
use raql::ra::core_index::CoreLookupIndex;
use raql::ra::core_items::{build_core_index_only, CoreSymbol};
use raql::ra::file_id::{EditionedFileId, SourceEdition};
use raql::ra::kinds::{DefKind, DispatchKind, NodeKind};
use raql::ra::lookup_store::{
    canonical_function_path, ensure_lookup_symbol_module_def, DefFacts, LocalFile, LookupStore,
    RaEntity,
};
use raql::ra::lookups::{
    lookup_def_flag_rows, lookup_def_handle_rows, lookup_def_kind_rows, lookup_def_path_rows,
    lookup_def_rows, lookup_def_span_rows,
};
use raql::ra::name_rows::{
    lookup_def_name_rows, lookup_indexed_name_rows, lookup_module_name_rows, SymbolFacts,
};
use raql::ra::node_rows::{
    lookup_enclosing_control_rows, lookup_node_at_rows, lookup_node_kind_rows,
    lookup_span_allowed_rows, lookup_span_key_rows, SourceText,
};
use raql::ra::snapshot::build_host_snapshot;
use raql::ra::snapshot_items::{AdtFacts, ModuleItem, ModuleTree};
use raql::ra::snapshot_types::{ModuleFacts, SourceLoc};
use raql::ra::values::{
    def_kind_lookup_value, def_value, dispatch_lookup_value, node_kind_lookup_value, span_value,
    text_value, ExternLookupRequest, ExternLookupValue,
};
use raql::ra::world::WorldFile;

const TEXT: &str = "fn main() { if true { callee(); } }\nfn callee() {}\n";

fn def(raw: u64) -> DefId {
    DefId::new(StableId::new(raw))
}

fn span(raw: u64) -> SpanId {
    SpanId::new(StableId::new(raw))
}

fn file_id() -> EditionedFileId {
    EditionedFileId::new(7, SourceEdition::Edition2021)
}

fn file() -> LocalFile {
    LocalFile {
        file_id: file_id(),
        rel_path: "src/main.rs".to_string(),
        text: TEXT.to_string(),
    }
}

fn source() -> SourceText {
    SourceText { file_id: file_id(), text: TEXT.to_string() }
}

fn function(name: &str) -> DefFacts {
    let head = format!("fn {name}");
    let start = TEXT.find(&head).expect("the function") as u32;
    DefFacts {
        kind: Some(DefKind::Fn),
        file: Some(file()),
        start,
        end: start + head.len() as u32,
        path: Some(format!("crate::{name}")),
        name: Some(name.to_string()),
        entity: RaEntity { key: start as u64, is_function: true },
    }
}

fn request(bound: Vec<(usize, ExternLookupValue)>) -> ExternLookupRequest {
    let mut positions = Vec::new();
    let mut values = Vec::new();
    for (position, value) in bound {
        positions.push(position);
        values.push(value);
    }
    ExternLookupRequest::new(positions, values)
}

fn small_index() -> CoreLookupIndex {
    let mut index = CoreLookupIndex::new();
    index.record_def(def(1), "main", DefKind::Fn, "crate::main", Some("src/main.rs"));
    index.record_def(def(2), "callee", DefKind::Struct, "crate::callee", None);
    index.mark_public(def(1), true);
    index.mark_in_test(def(1), false);
    index.record_function(def(1), 77);
    let key = SpanKey::new("src/main.rs", SpanCoord::new(0, 0), SpanCoord::new(0, 7));
    index.record_span(def(1), span(5), key);
    index
}

#[test]
fn defs_are_looked_up_in_the_index() {
    let index = small_index();
    let mut store = LookupStore::new();
    let asked = request(vec![(0, def_value(def(1)))]);
    assert_eq!(
        lookup_def_rows(&asked, Some(&index), &store),
        vec![vec![def_value(def(1))]]
    );
    assert_eq!(
        lookup_def_kind_rows(&asked, Some(&index), &store),
        vec![vec![def_value(def(1)), def_kind_lookup_value(DefKind::Fn)]]
    );
    assert_eq!(
        lookup_def_handle_rows(&asked, Some(&index), &store),
        vec![vec![def_value(def(1)), text_value("def://crate::main")]]
    );
    assert_eq!(
        lookup_def_path_rows(&asked, Some(&index), &mut store, None),
        Some(vec![vec![def_value(def(1)), text_value("crate::main")]])
    );
    assert_eq!(
        lookup_def_span_rows(&asked, Some(&index), &mut store),
        vec![vec![def_value(def(1)), span_value(span(5))]]
    );
    let spans = request(vec![(0, span_value(span(5)))]);
    assert_eq!(
        lookup_span_key_rows(&spans, Some(&index), &mut store),
        vec![vec![
            span_value(span(5)),
            text_value("src/main.rs"),
            ExternLookupValue::Number(0),
            ExternLookupValue::Number(0),
            ExternLookupValue::Number(0),
            ExternLookupValue::Number(7),
        ]]
    );
    let missing = request(vec![(0, def_value(def(9)))]);
    assert_eq!(lookup_def_rows(&missing, Some(&index), &store).len(), 0);
    assert_eq!(lookup_def_rows(&asked, None, &LookupStore::new()).len(), 0);
}

#[test]
fn flags_are_answered_where_they_are_recorded() {
    let index = small_index();
    let asked = request(vec![(0, def_value(def(1)))]);
    assert_eq!(
        lookup_def_flag_rows(&asked, Some(&index), "is_public"),
        Some(vec![vec![def_value(def(1))]])
    );
    assert_eq!(lookup_def_flag_rows(&asked, Some(&index), "in_test"), Some(vec![]));
}

#[test]
fn changed_files_leave_the_index() {
    let mut index = small_index();
    index.invalidate_paths(&vec!["src/other.rs".to_string()]);
    assert!(index.contains_def(def(1)));
    index.invalidate_paths(&vec!["src/main.rs".to_string()]);
    assert!(!index.contains_def(def(1)));
    assert!(index.contains_def(def(2)));
    assert_eq!(index.function(def(1)), None);
    assert_eq!(index.def_span(def(1)), None);
}

#[test]
fn names_are_searched_for() {
    let mut store = LookupStore::new();
    let asked = request(vec![(1, text_value("callee"))]);
    let symbol = SymbolFacts {
        facts: function("callee"),
        is_alias: false,
        is_import: false,
        is_local: true,
    };
    let rows =
        lookup_def_name_rows(&asked, None, &mut store, &vec![], &vec![symbol], &vec![]);
    assert_eq!(rows.len(), 1);
    assert_eq!(rows[0][1], text_value("callee"));
    let again =
        lookup_def_name_rows(&asked, None, &mut store, &vec![], &vec![], &vec![]);
    assert_eq!(again.len(), 0);
}

#[test]
fn modules_are_searched_where_the_index_has_nothing() {
    let mut store = LookupStore::new();
    let asked = request(vec![(1, text_value("callee"))]);
    let symbol = |facts: DefFacts| SymbolFacts {
        facts,
        is_alias: false,
        is_import: false,
        is_local: true,
    };
    // A function among the types is none of them.
    let types = vec![symbol(function("callee"))];
    let found = lookup_indexed_name_rows(&asked, None, &mut store, &types, &vec![]);
    assert_eq!(found, None);
    let rows = lookup_module_name_rows(&asked, &mut store, &vec![function("callee")]);
    assert_eq!(rows.len(), 1);
    let indexed = lookup_indexed_name_rows(&asked, None, &mut store, &vec![], &types);
    assert_eq!(indexed, Some(rows));
    let unnamed = request(vec![]);
    assert_eq!(
        lookup_indexed_name_rows(&unnamed, None, &mut store, &vec![], &types),
        Some(vec![])
    );
}

#[test]
fn calls_are_asked_of_the_caller_first() {
    let mut store = LookupStore::new();
    let main = ensure_lookup_symbol_module_def(&mut store, &function("main")).expect("main");
    let callee =
        ensure_lookup_symbol_module_def(&mut store, &function("callee")).expect("callee");
    let key = function("main").entity.key;
    let both = request(vec![(0, def_value(main)), (1, def_value(callee))]);
    assert_eq!(ask_for_calls(&both, None, &store), CallQuestion::BodyOf(key));
    let by_callee = request(vec![(1, def_value(callee))]);
    let key = function("callee").entity.key;
    assert_eq!(ask_for_calls(&by_callee, None, &store), CallQuestion::UsesOf(key));
    let unknown = request(vec![(1, def_value(def(99)))]);
    assert_eq!(ask_for_calls(&unknown, None, &store), CallQuestion::Nothing);
    assert_eq!(ask_for_calls(&request(vec![]), None, &store), CallQuestion::Nothing);
}

#[test]
fn calls_belong_to_the_closest_callable() {
    let around = vec![AncestorKind::Other, AncestorKind::Closure, AncestorKind::Function];
    assert_eq!(owner_among(&around), Some(1));
    assert_eq!(owner_among(&vec![AncestorKind::Function]), Some(0));
    assert_eq!(owner_among(&vec![AncestorKind::Other]), None);
}

#[test]
fn bodies_give_the_calls_of_a_function() {
    let mut store = LookupStore::new();
    let main = ensure_lookup_symbol_module_def(&mut store, &function("main")).expect("main");
    let callee =
        ensure_lookup_symbol_module_def(&mut store, &function("callee")).expect("callee");
    let at = TEXT.find("callee()").expect("the call") as u32;
    let facts = CallEdgeFacts {
        function: Some(function("main")),
        body: Some(CallerBody {
            file: file(),
            calls: vec![BodyCall {
                owner: OwnerFacts::Function(function("main")),
                start: at,
                end: at + 8,
                call: CallFacts::Expression(Some(TargetFacts::Function(function("callee")))),
            }],
        }),
        references: vec![],
    };
    let asked = request(vec![(0, def_value(main))]);
    let rows = lookup_call_edge_rows(&asked, None, &mut store, &facts).expect("supported");
    assert_eq!(rows.len(), 1);
    assert_eq!(rows[0][0], def_value(main));
    assert_eq!(rows[0][1], def_value(callee));
    assert_eq!(rows[0][3], dispatch_lookup_value(DispatchKind::Direct));

    let back = CallEdgeFacts {
        function: Some(function("callee")),
        body: None,
        references: vec![FileReferences {
            file: file(),
            references: vec![
                Reference::Other,
                Reference::Call {
                    resolves: false,
                    owner: OwnerFacts::Function(function("callee")),
                    start: at,
                    end: at + 8,
                },
                Reference::Call {
                    resolves: true,
                    owner: OwnerFacts::Function(function("main")),
                    start: at,
                    end: at + 8,
                },
            ],
        }],
    };
    let asked = request(vec![(1, def_value(callee))]);
    let callers = lookup_call_edge_rows(&asked, None, &mut store, &back).expect("supported");
    assert_eq!(callers, rows);
    let unbound = request(vec![]);
    assert_eq!(lookup_call_edge_rows(&unbound, None, &mut store, &back), None);

    let site = match &rows[0][2] {
        ExternLookupValue::Host(host) => ExternLookupValue::Host(*host),
        other => panic!("unexpected value: {other:?}"),
    };
    let narrow = request(vec![
        (0, def_value(main)),
        (1, def_value(callee)),
        (2, site),
        (3, dispatch_lookup_value(DispatchKind::Direct)),
    ]);
    assert_eq!(lookup_call_edge_rows(&narrow, None, &mut store, &facts), Some(rows));
    let elsewhere = request(vec![(0, def_value(main)), (2, span_value(span(1)))]);
    assert_eq!(lookup_call_edge_rows(&elsewhere, None, &mut store, &facts), Some(vec![]));
    let dynamic =
        request(vec![(0, def_value(main)), (3, dispatch_lookup_value(DispatchKind::Dyn))]);
    assert_eq!(lookup_call_edge_rows(&dynamic, None, &mut store, &facts), Some(vec![]));
    let by_itself = request(vec![(0, def_value(main)), (1, def_value(main))]);
    let own = lookup_call_edge_rows(&by_itself, None, &mut store, &facts).expect("supported");
    assert_eq!(own.len(), 1);
}

#[test]
fn methods_are_dispatched_by_receiver() {
    assert_eq!(method_dispatch_kind(true, true), DispatchKind::Dyn);
    assert_eq!(method_dispatch_kind(false, true), DispatchKind::ThroughTrait);
    assert_eq!(method_dispatch_kind(false, false), DispatchKind::Direct);
    let mut seen = Vec::new();
    assert!(note_import_rename(&mut seen, "a.rs", 1, 2));
    assert!(!note_import_rename(&mut seen, "a.rs", 1, 2));
    assert!(note_import_rename(&mut seen, "a.rs", 1, 3));
    assert_eq!(canonical_function_path("f", None, None), "f");
}

#[test]
fn nodes_are_found_in_the_text_behind_a_span() {
    let mut store = LookupStore::new();
    let at = TEXT.find("callee()").expect("the call") as u32;
    let key = SpanKey::new("src/main.rs", SpanCoord::new(0, at), SpanCoord::new(0, at + 8));
    store.spans.insert(42, key);
    let asked = request(vec![(0, span_value(span(42)))]);
    let rows = lookup_node_at_rows(&asked, None, &mut store, Some(&source()));
    assert_eq!(rows.len(), 1);
    let node = match &rows[0][1] {
        ExternLookupValue::Present(value) => match value.as_ref() {
            ExternLookupValue::Host(host) => ExternLookupValue::Host(*host),
            other => panic!("unexpected value: {other:?}"),
        },
        other => panic!("unexpected value: {other:?}"),
    };
    let kinds = lookup_node_kind_rows(&request(vec![(0, node)]), &store);
    assert_eq!(kinds.len(), 1);
    assert_eq!(kinds[0][1], node_kind_lookup_value(NodeKind::Expr));
    let control = lookup_enclosing_control_rows(&asked, None, &mut store, Some(&source()));
    assert_eq!(control.len(), 1);
    assert_eq!(control[0][1], node_kind_lookup_value(NodeKind::If));
    assert_eq!(lookup_span_allowed_rows(&asked, None, &store).len(), 1);
    assert_eq!(
        lookup_node_at_rows(&asked, None, &mut LookupStore::new(), None),
        vec![vec![span_value(span(42)), ExternLookupValue::Absent]]
    );
}

fn core_facts(name: &str, kind: DefKind) -> CoreDefFacts {
    CoreDefFacts {
        kind: Some(kind),
        name: Some(name.to_string()),
        canonical: Some(format!("demo::{name}")),
        crate_name: Some("demo".to_string()),
        loc: Some(SourceLoc {
            file_id: file_id(),
            rel_path: "src/main.rs".to_string(),
            text: TEXT.to_string(),
            start: 0,
            end: 7,
        }),
        is_public: true,
        in_test: false,
        function: None,
    }
}

fn spec_of_everything() -> CoreHostBuildSpec {
    CoreHostBuildSpec {
        def_spans: true,
        def_publicity: true,
        def_test_flags: true,
        adt_structure: true,
    }
}

#[test]
fn symbols_build_the_core_index() {
    let symbol = |name: &str, is_import: bool, is_alias: bool| CoreSymbol {
        def: core_facts(name, DefKind::Struct),
        is_import,
        is_alias,
    };
    let index = build_core_index_only(
        &vec![symbol("kept", false, false), symbol("imported", true, false)],
        &spec_of_everything(),
    );
    assert_eq!(index.len(), 1);
    assert_eq!(index.def_name(index.def_id_at(0)), Some("kept"));
    assert_eq!(index.is_public(index.def_id_at(0)), Some(true));
}

#[test]
fn lowered_types_keep_their_shape() {
    let mut builder = CoreFactsBuilder::new(spec_of_everything());
    let vec_def = builder.register_adt_def(&core_facts("Vec", DefKind::Struct));
    let ty = LoweredTy::Adt {
        def: core_facts("Vec", DefKind::Struct),
        args: vec![LoweredTy::Builtin("u8".to_string())],
    };
    let type_ref = builder.lower_type("key", &ty, &vec![], None);
    assert_eq!(builder.host.ty_app(type_ref), Some(vec_def));
    let arg = builder.host.ty_arg(type_ref, 0).expect("one argument");
    assert_eq!(builder.host.ty_prim(arg), Some("u8"));
}

#[test]
fn snapshots_register_a_module_tree() {
    let facts = |name: &str, kind: DefKind| ModuleFacts {
        kind: Some(kind),
        loc: Some(SourceLoc {
            file_id: file_id(),
            rel_path: "src/main.rs".to_string(),
            text: TEXT.to_string(),
            start: 0,
            end: 7,
        }),
        name: Some(name.to_string()),
        canonical: Some(format!("demo::{name}")),
        is_public: true,
        in_test: false,
    };
    let tree = ModuleTree {
        def: facts("root", DefKind::Mod),
        is_test: false,
        items: vec![ModuleItem::Adt {
            def: facts("Point", DefKind::Struct),
            parts: AdtFacts::Fields(vec![]),
        }],
        impls: vec![],
    };
    let world = vec![WorldFile { rel_path: "src/main.rs".to_string(), text: TEXT.to_string() }];
    let host = build_host_snapshot("/w", &world, "id", &vec![tree], &vec![]);
    assert!(host.world_stamp().as_str().starts_with("ra-workspace:/w:"));
    let point = host.intern_def_from_token("def:Struct:crate::Point:src/main.rs:0..7");
    assert!(host.has_def(point));
    assert_eq!(host.def_kind_for(point), DefKind::Struct);
    assert_eq!(host.is_public(point), Some(true));
}
