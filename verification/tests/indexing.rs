//! Seeding from source texts, places in texts, and the syntax behind them.

use raql::host::{deterministic_stable_id, SpanCoord, SpanKey};
use raql::ra::file_id::{EditionedFileId, SourceEdition};
use raql::ra::host::DeterministicRaHost;
use raql::ra::kinds::{DefKind, DispatchKind, NodeKind};
use raql::ra::lookup_store::LocalFile;
use raql::ra::node_lookup::{extract_syntax_nodes, syntax_node_kind};
use raql::ra::scope::{module_scope_for_file, ModuleScope};
use raql::ra::seed_laws::{seed_host_from_source, seed_host_from_source_tree, SeedFile};
use raql::ra::seed_types::{is_primitive_name, is_type_param_name};
use raql::ra::source::{
    lookup_span_key_from_text, offset_for_coord, place_to_text, range_to_text, span_of_place,
};

fn file_id() -> EditionedFileId {
    EditionedFileId::current_edition(4)
}

const SOURCE: &str = "pub struct Point<T> { pub x: i32, y: Vec<T> }
pub enum Shape { Dot, Line(Point<u8>) }
pub trait Draw { fn draw(&self); }
impl Draw for Point<u8> { fn draw(&self) { helper(); } }
pub fn helper() {}
pub fn run() -> Result<u8, Shape> { helper(); Ok(1) }
mod inner { pub fn deep() { super::helper(); } }
#[test]
fn checks() {}
";

fn seeded() -> DeterministicRaHost {
    let mut host = DeterministicRaHost::new();
    seed_host_from_source(&mut host, "src/lib.rs", SOURCE, file_id());
    host
}

/// The definition that an item of `source` gets, known by its text.
fn def_of(
    host: &DeterministicRaHost,
    source: &str,
    label: &str,
    path: &str,
    item: &str,
) -> raql::host::DefId {
    let start = source.find(item).expect("the item");
    host.intern_def_from_token(&format!("def:{label}:{path}@{start}..{}", start + item.len()))
}

fn item(host: &DeterministicRaHost, name: &str) -> raql::host::DefId {
    let (label, path, text) = match name {
        "Point" => ("struct", "crate::Point", "pub struct Point<T> { pub x: i32, y: Vec<T> }"),
        "Shape" => ("enum", "crate::Shape", "pub enum Shape { Dot, Line(Point<u8>) }"),
        "Draw" => ("trait", "crate::Draw", "pub trait Draw { fn draw(&self); }"),
        "helper" => ("fn", "crate::helper", "pub fn helper() {}"),
        "run" => {
            ("fn", "crate::run", "pub fn run() -> Result<u8, Shape> { helper(); Ok(1) }")
        }
        "inner" => {
            ("mod", "crate::inner", "mod inner { pub fn deep() { super::helper(); } }")
        }
        "deep" => ("fn", "crate::inner::deep", "pub fn deep() { super::helper(); }"),
        _ => ("fn", "crate::checks", "#[test]\nfn checks() {}"),
    };
    def_of(host, SOURCE, label, path, text)
}

#[test]
fn seeding_registers_the_items_of_a_file() {
    let host = seeded();
    for (name, path, kind) in [
        ("Point", "crate::Point", DefKind::Struct),
        ("Shape", "crate::Shape", DefKind::Enum),
        ("Draw", "crate::Draw", DefKind::Trait),
        ("helper", "crate::helper", DefKind::Fn),
        ("inner", "crate::inner", DefKind::Mod),
        ("deep", "crate::inner::deep", DefKind::Fn),
        ("checks", "crate::checks", DefKind::Fn),
    ] {
        let def = item(&host, name);
        assert!(host.has_def(def), "{path}");
        assert_eq!(host.def_kind_for(def), kind, "{path}");
        assert_eq!(host.def_path_for(def), path);
    }
    assert_eq!(host.is_public(item(&host, "helper")), Some(true));
    assert_eq!(host.in_test(item(&host, "helper")), Some(false));
    assert_eq!(host.in_test(item(&host, "checks")), Some(true));
    assert!(!host.has_def(host.intern_def_from_token("crate::absent")));
    assert_eq!(
        host.handle(item(&host, "helper")).as_str(),
        "def://crate::helper"
    );
}

#[test]
fn seeding_registers_fields_and_variants() {
    let host = seeded();
    let point = item(&host, "Point");
    let fields = host.fields();
    let mut names = Vec::new();
    for i in 0..fields.len() {
        if fields.row(i).owner == point {
            names.push(fields.row(i).name.clone());
        }
    }
    names.sort();
    assert_eq!(names, vec!["x".to_string(), "y".to_string()]);
    let shape = item(&host, "Shape");
    let variants = host.variants();
    let mut names = Vec::new();
    for i in 0..variants.len() {
        if variants.row(i).owner == shape {
            names.push(variants.row(i).name.clone());
        }
    }
    names.sort();
    assert_eq!(names, vec!["Dot".to_string(), "Line".to_string()]);
}

#[test]
fn seeding_draws_call_edges() {
    let host = seeded();
    let helper = item(&host, "helper");
    let run = item(&host, "run");
    let deep = item(&host, "deep");
    let edges = host.call_edges();
    let mut callers = Vec::new();
    for i in 0..edges.len() {
        if edges.row(i).callee == helper {
            assert_eq!(edges.row(i).dispatch, DispatchKind::Direct);
            callers.push(edges.row(i).caller);
        }
    }
    assert!(callers.contains(&run));
    assert!(callers.contains(&deep));
}

#[test]
fn seeding_reads_return_types() {
    let host = seeded();
    let run = item(&host, "run");
    let helper = item(&host, "helper");
    assert!(matches!(host.fn_return_type(run), Some(Some(_))));
    assert!(matches!(host.fn_error_type(run), Some(Some(_))));
    assert!(!matches!(host.fn_error_type(helper), Some(Some(_))));
}

#[test]
fn seeding_twice_changes_nothing() {
    let once = seeded();
    let mut twice = seeded();
    seed_host_from_source(&mut twice, "src/lib.rs", SOURCE, file_id());
    assert_eq!(once.call_edges().len(), twice.call_edges().len());
    assert_eq!(once.fields().len(), twice.fields().len());
    assert_eq!(once.variants().len(), twice.variants().len());
}

#[test]
fn calls_cross_the_files_of_a_tree() {
    let mut host = DeterministicRaHost::new();
    let file = |path: &str, relative: &[&str], source: &str| SeedFile {
        path: path.to_string(),
        source: source.to_string(),
        relative: Some(relative.iter().map(|part| part.to_string()).collect()),
    };
    seed_host_from_source_tree(
        &mut host,
        "/w/src",
        &vec![
            file("/w/src/lib.rs", &["lib.rs"], "pub fn root() { crate::tools::cut(); }"),
            file("/w/src/tools.rs", &["tools.rs"], "pub fn cut() {}"),
        ],
    );
    let first = "pub fn root() { crate::tools::cut(); }";
    let root = def_of(&host, first, "fn", "crate::root", first);
    let second = "pub fn cut() {}";
    let cut = def_of(&host, second, "fn", "crate::tools::cut", second);
    assert!(host.has_def(root) && host.has_def(cut));
    let edges = host.call_edges();
    let mut found = false;
    for i in 0..edges.len() {
        found = found || (edges.row(i).caller == root && edges.row(i).callee == cut);
    }
    assert!(found);
}

#[test]
fn files_stand_for_modules() {
    let parts = |items: &[&str]| -> Vec<String> {
        items.iter().map(|item| item.to_string()).collect()
    };
    let scope = module_scope_for_file("/w", "/w/a/b.rs", Some(&parts(&["a", "b.rs"])));
    assert_eq!(scope.key(), "crate::a::b");
    assert_eq!(scope.qualified_name("f"), "crate::a::b::f");
    let scope = module_scope_for_file("/w", "/w/a/mod.rs", Some(&parts(&["a", "mod.rs"])));
    assert_eq!(scope.key(), "crate::a");
    let scope = module_scope_for_file("/w", "/w/lib.rs", Some(&parts(&["lib.rs"])));
    assert_eq!(scope.key(), "crate");
    assert_eq!(ModuleScope::crate_root().extend("x").key(), "crate::x");
    assert_eq!(ModuleScope::from_qualified_path("crate::p::q").key(), "crate::p");
}

#[test]
fn names_of_types_are_classed() {
    assert!(is_primitive_name("u8") && is_primitive_name("str"));
    assert!(!is_primitive_name("Vec"));
    assert!(is_type_param_name("T"));
    assert!(!is_type_param_name("String"));
}

#[test]
fn places_are_lines_and_columns() {
    let text = "ab\ncd\u{e9}f\n";
    let key = lookup_span_key_from_text("src/a.rs", text, 1, 7).expect("within the text");
    let expected = SpanKey::new("src/a.rs", SpanCoord::new(0, 1), SpanCoord::new(1, 4));
    assert_eq!(key, expected);
    assert_eq!(lookup_span_key_from_text("src/a.rs", text, 1, 100), None);
    assert_eq!(offset_for_coord(text, SpanCoord::new(1, 2)), Some(5));
    assert_eq!(offset_for_coord(text, SpanCoord::new(9, 0)), None);
    assert_eq!(range_to_text(3, 9), "3..9");
    assert_eq!(place_to_text("a", 3, 9), "a:3..9");
    let older = EditionedFileId::new(4, SourceEdition::Edition2018);
    assert_ne!(span_of_place(file_id(), 3, 9), span_of_place(file_id(), 3, 8));
    assert_ne!(span_of_place(file_id(), 3, 9), span_of_place(older, 3, 9));
    assert_eq!(span_of_place(file_id(), 3, 9), span_of_place(older.in_current_edition(), 3, 9));
    assert_ne!(EditionedFileId::current_edition(5).as_u32(), file_id().as_u32());
    assert_eq!((older.as_u32(), file_id().as_u32()), (0x0080_0004, 0x0180_0004));
    assert_eq!(
        span_of_place(file_id(), 3, 9).stable_id(),
        deterministic_stable_id("span", "25165828:3..9")
    );
}

#[test]
fn places_read_back() {
    let text = "ab\n\u{e9}\nfn f() {}\n";
    for at in [0u32, 2, 3, 5, 6, 9, 15] {
        let key = lookup_span_key_from_text("a.rs", text, at, at).expect("a place");
        assert_eq!(offset_for_coord(text, key.start()), Some(at as usize), "{at}");
    }
    let key = lookup_span_key_from_text("a.rs", text, 5, 5).expect("a place");
    assert_eq!((key.start().line(), key.start().column()), (1, 2));
    assert_eq!(offset_for_coord(text, SpanCoord::new(1, 1)), None);
    let coord = SpanCoord::new(2, 3);
    let found = offset_for_coord(text, coord).expect("a place") as u32;
    let key = lookup_span_key_from_text("a.rs", text, found, found).expect("a place");
    assert_eq!((found, key.start()), (9, coord));
    assert_eq!(lookup_span_key_from_text("a.rs", text, 4, 4), None);
}

#[test]
fn spans_are_interned_with_their_keys() {
    let mut host = DeterministicRaHost::new();
    let span = host.intern_span_from_text(file_id(), "src/a.rs", "ab\ncd\n", 3, 5).expect("in range");
    assert_eq!(
        host.span_key(span),
        SpanKey::new("src/a.rs", SpanCoord::new(1, 0), SpanCoord::new(1, 2))
    );
    assert_eq!(host.intern_span_from_text(file_id(), "src/a.rs", "ab\ncd\n", 3, 5), Ok(span));
}

#[test]
fn syntax_nodes_nest() {
    let mut host = DeterministicRaHost::new();
    let text = "fn f() { if true { g(); } }";
    let file = LocalFile {
        file_id: EditionedFileId::new(4, SourceEdition::Edition2018),
        rel_path: "src/a.rs".to_string(),
        text: text.to_string(),
    };
    extract_syntax_nodes(&mut host, &vec![file]);
    let at = text.find("g()").expect("the call") as u32;
    let span = host.intern_span_from_text(file_id(), "src/a.rs", text, at, at + 3).expect("in range");
    let node = host.node_at(span).expect("a node covers the call");
    assert!(host.node_parent(node).is_some());
    let control = host.enclosing_control_with_depth(span, 10).expect("the call is conditional");
    assert_eq!(control.kind, NodeKind::If);
    assert!(control.distance <= 10);
    assert_eq!(syntax_node_kind("IF_EXPR"), NodeKind::If);
    assert_eq!(syntax_node_kind("MATCH_ARM"), NodeKind::Arm);
    assert_eq!(syntax_node_kind("STRUCT"), NodeKind::Item);
}
