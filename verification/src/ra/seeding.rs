//! Seeding the index from the syntax of source files.

use crate::ra::file_id::{EditionedFileId, SourceEdition};
use crate::host::{derived_id, deterministic_stable_id, DefId, SpanId, TypeRefId};
use crate::ra::host::{opt_def, DefRecordView, DeterministicRaHost, HostView};
use crate::ra::kinds::{DefKind, DispatchKind};
use crate::ra::rows::{
    opt_text, CallEdgeView, FieldView, FromImplView, ImplementsView, MethodView, VariantView,
};
use crate::ra::scope::{
    callable_at, meant_method, next_index, qualified, resolved_callable, scope_segments,
    site_views, BodyView, CallSite, CallSiteView, CallableView, ContextView, FnBodySeed,
    MethodEntryView, ModuleScope, SeedContext,
};
use crate::ra::seed_types::{
    ast_is_public, ast_mentions_test, ast_name, ast_name_ref, head_of, is_public, mentions_test,
    name_at, name_ref_at, normalize_path, path_at, path_type_at, path_with_type_args,
    result_error_head, result_error_head_for_return, seed_type_ref, segment_name, type_head_def_for,
    type_id, with_type, with_type_at,
};
use crate::ra::shapes::{type_ids, ShapeView, TypeShape};
use crate::ra::source::{
    indexable, key_in_text, place_text, place_to_text, range_text, range_to_text, span_id_of,
};
use crate::ra::store::with_row;
use crate::ra::syntax::{
    child, child_from, end_from, first_child, first_token, next_child, parse_tree, parsed_tree,
    subtree_end, token_from, tree_view, Class, SyntaxRow, SyntaxView,
};
use crate::search::{ends_with, has_suffix, path_split, split_path};
use crate::text::{cat2, cat3, decimal, decimal_of, joined, owned, str_eq};
use vstd::prelude::*;

verus! {

/// A source file: its path in the workspace and its text.
pub struct FileView {
    pub file_id: EditionedFileId,
    pub rel_path: Seq<char>,
    pub source: Seq<char>,
}

/// The index and the context of seeding together.
#[verifier::ext_equal]
pub struct Seeded {
    pub host: HostView,
    pub context: ContextView,
}

/// The span of a place; one of its own for a place that is no range of the
/// source.
pub open spec fn place_span(file: FileView, start: u32, end: u32) -> u64 {
    match key_in_text(file.rel_path, file.source, start, end) {
        Some(key) => span_id_of(file.file_id, start, end),
        None => derived_id("seed_span"@, place_text(file.rel_path, start, end)),
    }
}

/// The index told of the span of a place.
pub open spec fn with_place(host: HostView, file: FileView, start: u32, end: u32) -> HostView {
    match key_in_text(file.rel_path, file.source, start, end) {
        Some(key) => HostView {
            spans: host.spans.insert(span_id_of(file.file_id, start, end), key),
            ..host
        },
        None => host,
    }
}

/// The index with a definition.
pub open spec fn with_def(
    host: HostView,
    def: u64,
    name: Seq<char>,
    kind: DefKind,
    span: u64,
    path: Seq<char>,
) -> HostView {
    HostView {
        defs: host.defs.insert(def, DefRecordView { name, kind, span, path }),
        ..host
    }
}

/// The index with a definition, its visibility and whether it is test code.
pub open spec fn with_item(
    host: HostView,
    def: u64,
    name: Seq<char>,
    kind: DefKind,
    span: u64,
    path: Seq<char>,
    public: bool,
    in_test: bool,
) -> HostView {
    let told = with_def(host, def, name, kind, span, path);
    HostView {
        public: told.public.insert(def, public),
        in_test: told.in_test.insert(def, in_test),
        ..told
    }
}

/// The token of a definition at a row.
pub open spec fn def_token(word: Seq<char>, path: Seq<char>, row: SyntaxView) -> Seq<char> {
    "def:"@ + word + ":"@ + path + "@"@ + range_text(row.start, row.end)
}

/// The id of a definition at a row.
pub open spec fn def_id(word: Seq<char>, path: Seq<char>, row: SyntaxView) -> u64 {
    derived_id("def"@, def_token(word, path, row))
}

/// The index told of the named item at row `i`.
pub open spec fn with_named(
    host: HostView,
    file: FileView,
    tree: Seq<SyntaxView>,
    i: int,
    word: Seq<char>,
    kind: DefKind,
    name: Seq<char>,
    path: Seq<char>,
    in_test: bool,
) -> HostView {
    let row = tree[i];
    with_item(
        with_place(host, file, row.start, row.end),
        def_id(word, path, row),
        name,
        kind,
        place_span(file, row.start, row.end),
        path,
        is_public(tree, i),
        in_test,
    )
}

/// The type of a field without one.
pub open spec fn untyped_field(label: Seq<char>, name: Seq<char>, row: SyntaxView) -> u64 {
    derived_id("typeref"@, label + name + ":"@ + range_text(row.start, row.end))
}

/// The index told of one field.
pub open spec fn with_field(
    host: HostView,
    file: FileView,
    tree: Seq<SyntaxView>,
    i: int,
    owner: u64,
    name: Seq<char>,
    label: Seq<char>,
    tag: Seq<char>,
) -> HostView {
    match child(tree, i, Class::Type) {
        Some(ty) => {
            let told = with_type_at(tree, file.rel_path, host, ty);
            HostView {
                fields: with_row(
                    told.fields,
                    FieldView { owner, name, ty: type_id(file.rel_path, tree[ty]) },
                ),
                ..told
            }
        },
        None => {
            let ty = untyped_field(label, tag, tree[i]);
            let told = with_type(host, ty, ShapeView::Unknown);
            HostView {
                fields: with_row(told.fields, FieldView { owner, name, ty }),
                ..told
            }
        },
    }
}

/// The index told of the record fields of the list at row `i`, from row `from`
/// on.
pub open spec fn with_record_fields(
    host: HostView,
    file: FileView,
    tree: Seq<SyntaxView>,
    i: int,
    from: int,
    owner: u64,
) -> HostView
    decreases tree.len() - from,
{
    match child_from(tree, i, from, Class::RecordField) {
        Some(j) => if from <= j < tree.len() {
            let name = match name_at(tree, j) {
                Some(name) => name,
                None => "_"@,
            };
            let told = with_field(host, file, tree, j, owner, name, "type:field:"@, name);
            with_record_fields(told, file, tree, i, j + 1, owner)
        } else {
            host
        },
        None => host,
    }
}

/// The index told of the tuple fields of the list at row `i`, from row `from`
/// on; `index` fields came before.
pub open spec fn with_tuple_fields(
    host: HostView,
    file: FileView,
    tree: Seq<SyntaxView>,
    i: int,
    from: int,
    owner: u64,
    index: nat,
) -> HostView
    decreases tree.len() - from,
{
    match child_from(tree, i, from, Class::TupleField) {
        Some(j) => if from <= j < tree.len() {
            let told = with_field(
                host,
                file,
                tree,
                j,
                owner,
                "#"@ + decimal(index),
                "type:tuple-field:"@,
                decimal(index),
            );
            with_tuple_fields(told, file, tree, i, j + 1, owner, index + 1)
        } else {
            host
        },
        None => host,
    }
}

/// The index told of the fields of the list at row `i`.
pub open spec fn with_fields(
    host: HostView,
    file: FileView,
    tree: Seq<SyntaxView>,
    i: int,
    owner: u64,
) -> HostView {
    if tree[i].kind == "RECORD_FIELD_LIST"@ {
        with_record_fields(host, file, tree, i, i + 1, owner)
    } else {
        with_tuple_fields(host, file, tree, i, i + 1, owner, 0)
    }
}

/// The index told of the variants of the list at row `i`, from row `from` on.
pub open spec fn with_variants(
    host: HostView,
    file: FileView,
    tree: Seq<SyntaxView>,
    i: int,
    from: int,
    owner: u64,
    owner_path: Seq<char>,
    in_test: bool,
) -> HostView
    decreases tree.len() - from,
{
    match child_from(tree, i, from, Class::Variant) {
        Some(j) => if from <= j < tree.len() {
            let told = match name_at(tree, j) {
                Some(name) => {
                    let path = owner_path + "::"@ + name;
                    let named = with_named(
                        host,
                        file,
                        tree,
                        j,
                        "variant"@,
                        DefKind::Variant,
                        name,
                        path,
                        in_test || mentions_test(tree, j),
                    );
                    HostView {
                        variants: with_row(
                            named.variants,
                            VariantView {
                                owner,
                                name,
                                variant: def_id("variant"@, path, tree[j]),
                            },
                        ),
                        ..named
                    }
                },
                None => host,
            };
            with_variants(told, file, tree, i, j + 1, owner, owner_path, in_test)
        } else {
            host
        },
        None => host,
    }
}

/// Makes a place of a file a span.
fn intern_place(
    host: &mut DeterministicRaHost,
    rel_path: &str,
    source: &str,
    file_id: EditionedFileId,
    start: u32,
    end: u32,
) -> (r: SpanId)
    requires
        old(host).wf(),
        indexable(source@),
    ensures
        final(host).wf(),
        r@ == place_span(FileView { file_id, rel_path: rel_path@, source: source@ }, start, end),
        final(host)@ == with_place(
            old(host)@,
            FileView { file_id, rel_path: rel_path@, source: source@ },
            start,
            end,
        ),
{
    match host.intern_span_from_text(file_id, rel_path, source, start, end) {
        Ok(span) => span,
        Err(_) => SpanId::new(
            deterministic_stable_id("seed_span", place_to_text(rel_path, start, end).as_str()),
        ),
    }
}

/// Makes the place of a row a span.
pub fn intern_ast_span(
    host: &mut DeterministicRaHost,
    rel_path: &str,
    source: &str,
    file_id: EditionedFileId,
    row: &SyntaxRow,
) -> (r: SpanId)
    requires
        old(host).wf(),
        indexable(source@),
    ensures
        final(host).wf(),
        r@ == place_span(FileView { file_id, rel_path: rel_path@, source: source@ }, row.start, row.end),
        final(host)@ == with_place(
            old(host)@,
            FileView { file_id, rel_path: rel_path@, source: source@ },
            row.start,
            row.end,
        ),
{
    intern_place(host, rel_path, source, file_id, row.start, row.end)
}

/// Tells a definition, its visibility and whether it is test code.
pub fn register_item_def(
    host: &mut DeterministicRaHost,
    def: DefId,
    name: &str,
    kind: DefKind,
    span: SpanId,
    path: &str,
    public: bool,
    in_test: bool,
)
    requires
        old(host).wf(),
    ensures
        final(host).wf(),
        final(host)@ == with_item(old(host)@, def@, name@, kind, span@, path@, public, in_test),
{
    host.insert_def(def, name, kind, span, path);
    host.mark_public(def, public);
    host.mark_in_test(def, in_test);
}

/// The id of a definition at a row.
fn def_of_row(host: &DeterministicRaHost, word: &str, path: &str, row: &SyntaxRow) -> (r: DefId)
    ensures
        r@ == def_id(word@, path@, row@),
{
    let mut token = owned("def:");
    token.append(word);
    token.append(":");
    token.append(path);
    token.append("@");
    token.append(range_to_text(row.start, row.end).as_str());
    host.intern_def_from_token(token.as_str())
}

/// Tells the named item at row `i`.
fn seed_named(
    host: &mut DeterministicRaHost,
    rel_path: &str,
    source: &str,
    file_id: EditionedFileId,
    tree: &Vec<SyntaxRow>,
    i: usize,
    word: &str,
    kind: DefKind,
    name: &str,
    path: &str,
    in_test: bool,
) -> (r: DefId)
    requires
        old(host).wf(),
        indexable(source@),
        i < tree.len(),
    ensures
        final(host).wf(),
        r@ == def_id(word@, path@, tree_view(tree@)[i as int]),
        final(host)@ == with_named(
            old(host)@,
            FileView { file_id, rel_path: rel_path@, source: source@ },
            tree_view(tree@),
            i as int,
            word@,
            kind,
            name@,
            path@,
            in_test,
        ),
{
    let row = &tree[i];
    assert(tree_view(tree@)[i as int] == row@);
    let span = intern_ast_span(host, rel_path, source, file_id, row);
    let def = def_of_row(host, word, path, row);
    register_item_def(host, def, name, kind, span, path, ast_is_public(tree, i), in_test);
    def
}

/// Tells one field.
fn seed_field(
    host: &mut DeterministicRaHost,
    rel_path: &str,
    source: &str,
    file_id: EditionedFileId,
    tree: &Vec<SyntaxRow>,
    i: usize,
    owner: DefId,
    name: &str,
    label: &str,
    tag: &str,
)
    requires
        old(host).wf(),
        i < tree.len(),
    ensures
        final(host).wf(),
        final(host)@ == with_field(
            old(host)@,
            FileView { file_id, rel_path: rel_path@, source: source@ },
            tree_view(tree@),
            i as int,
            owner@,
            name@,
            label@,
            tag@,
        ),
{
    let row = &tree[i];
    assert(tree_view(tree@)[i as int] == row@);
    let ty = match first_child(tree, i, Class::Type) {
        Some(ty) => seed_type_ref(host, rel_path, tree, ty),
        None => {
            let mut token = cat2(label, tag);
            token.append(":");
            token.append(range_to_text(row.start, row.end).as_str());
            let ty = host.intern_typeref_from_token(token.as_str());
            host.insert_type(ty, TypeShape::Unknown);
            ty
        },
    };
    host.insert_field(owner, name, ty);
}

/// Tells the fields of the list at row `i`.
pub fn seed_field_list(
    host: &mut DeterministicRaHost,
    rel_path: &str,
    source: &str,
    file_id: EditionedFileId,
    tree: &Vec<SyntaxRow>,
    i: usize,
    owner: DefId,
)
    requires
        old(host).wf(),
        i < tree.len(),
    ensures
        final(host).wf(),
        final(host)@ == with_fields(
            old(host)@,
            FileView { file_id, rel_path: rel_path@, source: source@ },
            tree_view(tree@),
            i as int,
            owner@,
        ),
{
    let ghost view = tree_view(tree@);
    let ghost file = FileView { file_id, rel_path: rel_path@, source: source@ };
    let ghost start = host@;
    assert(view[i as int] == tree@[i as int]@);
    let mut from: usize = i + 1;
    if str_eq(tree[i].kind.as_str(), "RECORD_FIELD_LIST") {
        loop
            invariant
                view == tree_view(tree@),
                file == (FileView { file_id, rel_path: rel_path@, source: source@ }),
                start == old(host)@,
                view[i as int].kind == "RECORD_FIELD_LIST"@,
                i < from <= tree.len(),
                host.wf(),
                with_record_fields(start, file, view, i as int, i + 1, owner@)
                    == with_record_fields(host@, file, view, i as int, from as int, owner@),
            decreases tree.len() - from,
        {
            match next_child(tree, i, from, Class::RecordField) {
                Some(j) => {
                    let name = match ast_name(tree, j) {
                        Some(name) => name,
                        None => owned("_"),
                    };
                    seed_field(
                        host,
                        rel_path,
                        source,
                        file_id,
                        tree,
                        j,
                        owner,
                        name.as_str(),
                        "type:field:",
                        name.as_str(),
                    );
                    from = j + 1;
                },
                None => {
                    return;
                },
            }
        }
    } else {
        let mut index: usize = 0;
        loop
            invariant
                view == tree_view(tree@),
                file == (FileView { file_id, rel_path: rel_path@, source: source@ }),
                start == old(host)@,
                view[i as int].kind != "RECORD_FIELD_LIST"@,
                i < from <= tree.len(),
                index < from,
                host.wf(),
                with_tuple_fields(start, file, view, i as int, i + 1, owner@, 0)
                    == with_tuple_fields(
                    host@,
                    file,
                    view,
                    i as int,
                    from as int,
                    owner@,
                    index as nat,
                ),
            decreases tree.len() - from,
        {
            match next_child(tree, i, from, Class::TupleField) {
                Some(j) => {
                    let place = crate::text::decimal_of_size(index);
                    let name = cat2("#", place.as_str());
                    seed_field(
                        host,
                        rel_path,
                        source,
                        file_id,
                        tree,
                        j,
                        owner,
                        name.as_str(),
                        "type:tuple-field:",
                        place.as_str(),
                    );
                    from = j + 1;
                    index += 1;
                },
                None => {
                    return;
                },
            }
        }
    }
}

/// Tells the variants of the list at row `i`.
fn seed_variants(
    host: &mut DeterministicRaHost,
    rel_path: &str,
    source: &str,
    file_id: EditionedFileId,
    tree: &Vec<SyntaxRow>,
    i: usize,
    owner: DefId,
    owner_path: &str,
    in_test: bool,
)
    requires
        old(host).wf(),
        indexable(source@),
        i < tree.len(),
    ensures
        final(host).wf(),
        final(host)@ == with_variants(
            old(host)@,
            FileView { file_id, rel_path: rel_path@, source: source@ },
            tree_view(tree@),
            i as int,
            i + 1,
            owner@,
            owner_path@,
            in_test,
        ),
{
    let ghost view = tree_view(tree@);
    let ghost file = FileView { file_id, rel_path: rel_path@, source: source@ };
    let ghost start = host@;
    let mut from: usize = i + 1;
    loop
        invariant
            view == tree_view(tree@),
            file == (FileView { file_id, rel_path: rel_path@, source: source@ }),
            start == old(host)@,
            indexable(source@),
            i < from <= tree.len(),
            host.wf(),
            with_variants(start, file, view, i as int, i + 1, owner@, owner_path@, in_test)
                == with_variants(
                host@,
                file,
                view,
                i as int,
                from as int,
                owner@,
                owner_path@,
                in_test,
            ),
        decreases tree.len() - from,
    {
        match next_child(tree, i, from, Class::Variant) {
            Some(j) => {
                match ast_name(tree, j) {
                    Some(name) => {
                        let path = cat3(owner_path, "::", name.as_str());
                        let marked = in_test || ast_mentions_test(tree, j);
                        let variant = seed_named(
                            host,
                            rel_path,
                            source,
                            file_id,
                            tree,
                            j,
                            "variant",
                            DefKind::Variant,
                            name.as_str(),
                            path.as_str(),
                            marked,
                        );
                        host.insert_variant(owner, name.as_str(), variant);
                    },
                    None => {},
                }
                from = j + 1;
            },
            None => {
                return;
            },
        }
    }
}

/// What a method belongs to.
#[derive(Debug, Clone, Copy, PartialEq, Eq, Structural)]
pub enum MethodContainer {
    Free,
    Impl,
    Trait,
}

/// The path that the call at row `i` names.
pub open spec fn callee_path(tree: Seq<SyntaxView>, i: int) -> Option<Seq<char>> {
    match callee_row(tree, i) {
        Some(path) => Some(path_at(tree, path)),
        None => None,
    }
}

/// The row of the path that the call at row `i` names.
pub open spec fn callee_row(tree: Seq<SyntaxView>, i: int) -> Option<int> {
    match child(tree, i, Class::Expr) {
        Some(expr) => if tree[expr].kind == "PATH_EXPR"@ {
            child(tree, expr, Class::Path)
        } else {
            None
        },
        None => None,
    }
}

/// The last name of the path that the call at row `i` names.
pub open spec fn callee_name(tree: Seq<SyntaxView>, i: int) -> Option<Seq<char>> {
    match callee_row(tree, i) {
        Some(path) => segment_name(tree, path),
        None => None,
    }
}

/// The calls by path among the rows from `from` to `end`.
pub open spec fn calls_between(tree: Seq<SyntaxView>, from: int, end: int) -> Seq<CallSiteView>
    decreases end - from,
{
    if from >= end {
        Seq::empty()
    } else {
        let rest = calls_between(tree, from + 1, end);
        if !tree[from].is_token && tree[from].kind == "CALL_EXPR"@ {
            seq![
                CallSiteView {
                    path: callee_path(tree, from),
                    name: callee_name(tree, from),
                    start: tree[from].start,
                    end: tree[from].end,
                },
            ] + rest
        } else {
            rest
        }
    }
}

/// The method calls among the rows from `from` to `end`.
pub open spec fn method_calls_between(
    tree: Seq<SyntaxView>,
    from: int,
    end: int,
) -> Seq<CallSiteView>
    decreases end - from,
{
    if from >= end {
        Seq::empty()
    } else {
        let rest = method_calls_between(tree, from + 1, end);
        if !tree[from].is_token && tree[from].kind == "METHOD_CALL_EXPR"@ {
            seq![
                CallSiteView {
                    path: None,
                    name: name_ref_at(tree, from),
                    start: tree[from].start,
                    end: tree[from].end,
                },
            ] + rest
        } else {
            rest
        }
    }
}

/// The calls of the body at row `i`.
pub open spec fn body_at(
    file: FileView,
    tree: Seq<SyntaxView>,
    i: int,
    caller: u64,
    scope: Seq<char>,
) -> BodyView {
    let end = end_from(tree, i, i + 1);
    BodyView {
        caller,
        scope,
        calls: calls_between(tree, i, end),
        method_calls: method_calls_between(tree, i, end),
        rel_path: file.rel_path,
        source: file.source,
        file_id: file.file_id,
    }
}

/// The path of the function at row `i`.
pub open spec fn fn_path(
    host: HostView,
    scope: Seq<Seq<char>>,
    kind: DefKind,
    owner: Option<u64>,
    name: Seq<char>,
) -> Seq<char> {
    match owner {
        Some(owner) => if kind is Method {
            host.path_of(owner) + "::"@ + name
        } else {
            qualified(scope, name)
        },
        None => qualified(scope, name),
    }
}

/// The word for a function's kind in tokens.
pub open spec fn fn_word(kind: DefKind) -> Seq<char> {
    if kind is Method {
        "method"@
    } else {
        "fn"@
    }
}

/// The row of the return type of the function at row `i`.
pub open spec fn return_row(tree: Seq<SyntaxView>, i: int) -> Option<int> {
    match child(tree, i, Class::RetType) {
        Some(ret) => child(tree, ret, Class::Type),
        None => None,
    }
}

/// The return type of a function that names none.
pub open spec fn unit_return(path: Seq<char>, row: SyntaxView) -> u64 {
    derived_id("typeref"@, "type:unit-return:"@ + path + ":"@ + range_text(row.start, row.end))
}

/// The return type of the function at row `i`.
pub open spec fn return_id(
    file: FileView,
    tree: Seq<SyntaxView>,
    i: int,
    path: Seq<char>,
) -> u64 {
    match return_row(tree, i) {
        Some(ty) => type_id(file.rel_path, tree[ty]),
        None => unit_return(path, tree[i]),
    }
}

/// The index told of the function at row `i`: its definition, its owner, its
/// return type and its error type.
pub open spec fn with_fn_def(
    host: HostView,
    file: FileView,
    tree: Seq<SyntaxView>,
    i: int,
    path: Seq<char>,
    name: Seq<char>,
    in_test: bool,
    kind: DefKind,
    owner: Option<u64>,
    container: MethodContainer,
) -> HostView {
    let def = def_id(fn_word(kind), path, tree[i]);
    let named = with_named(
        host,
        file,
        tree,
        i,
        fn_word(kind),
        kind,
        name,
        path,
        in_test || mentions_test(tree, i),
    );
    let owned = match owner {
        Some(owner) => match container {
            MethodContainer::Impl => HostView {
                methods: with_row(named.methods, MethodView { owner, method: def }),
                ..named
            },
            MethodContainer::Trait => HostView {
                trait_methods: with_row(named.trait_methods, MethodView { owner, method: def }),
                ..named
            },
            MethodContainer::Free => named,
        },
        None => named,
    };
    let typed = match return_row(tree, i) {
        Some(ty) => with_type_at(tree, file.rel_path, owned, ty),
        None => with_type(owned, unit_return(path, tree[i]), ShapeView::Tuple(Seq::empty())),
    };
    let returned = return_id(file, tree, i, path);
    HostView {
        fn_returns: typed.fn_returns.insert(def, Some(returned)),
        fn_errors: typed.fn_errors.insert(def, result_error_head(typed, returned)),
        ..typed
    }
}

/// The context that has met the function at row `i`.
pub open spec fn with_fn_names(
    context: ContextView,
    file: FileView,
    tree: Seq<SyntaxView>,
    i: int,
    scope: Seq<Seq<char>>,
    path: Seq<char>,
    name: Seq<char>,
    kind: DefKind,
) -> ContextView {
    let def = def_id(fn_word(kind), path, tree[i]);
    let inner = joined(scope_segments(path), "::"@);
    let lexical = joined(scope, "::"@);
    let known = context.callables.push(CallableView { scope: inner, name, path, def });
    let first = context.methods.push(MethodEntryView { scope: inner, name, def });
    let methods = if !(kind is Method) {
        context.methods
    } else if lexical == inner {
        first
    } else {
        first.push(MethodEntryView { scope: lexical, name, def })
    };
    ContextView {
        callables: known,
        methods,
        bodies: match child(tree, i, Class::BlockExpr) {
            Some(body) => context.bodies.push(body_at(file, tree, body, def, inner)),
            None => context.bodies,
        },
        impls: context.impls,
    }
}

/// The name of the function at row `i`.
pub open spec fn fn_name(tree: Seq<SyntaxView>, i: int) -> Seq<char> {
    match name_at(tree, i) {
        Some(name) => name,
        None => "anonymous"@,
    }
}

/// What is known once the function at row `i` has been seeded.
pub open spec fn with_fn(
    seeded: Seeded,
    file: FileView,
    tree: Seq<SyntaxView>,
    i: int,
    scope: Seq<Seq<char>>,
    in_test: bool,
    kind: DefKind,
    owner: Option<u64>,
    container: MethodContainer,
) -> Seeded {
    let name = fn_name(tree, i);
    let path = fn_path(seeded.host, scope, kind, owner, name);
    Seeded {
        host: with_fn_def(
            seeded.host,
            file,
            tree,
            i,
            path,
            name,
            in_test,
            kind,
            owner,
            container,
        ),
        context: with_fn_names(seeded.context, file, tree, i, scope, path, name, kind),
    }
}

/// What is known once the functions of the list at row `i`, from row `from` on,
/// have been seeded as methods.
pub open spec fn with_methods(
    seeded: Seeded,
    file: FileView,
    tree: Seq<SyntaxView>,
    i: int,
    from: int,
    scope: Seq<Seq<char>>,
    in_test: bool,
    owner: Option<u64>,
    container: MethodContainer,
) -> Seeded
    decreases tree.len() - from,
{
    match child_from(tree, i, from, Class::Fn) {
        Some(j) => if from <= j < tree.len() {
            let told = with_fn(
                seeded,
                file,
                tree,
                j,
                scope,
                in_test,
                DefKind::Method,
                owner,
                container,
            );
            with_methods(told, file, tree, i, j + 1, scope, in_test, owner, container)
        } else {
            seeded
        },
        None => seeded,
    }
}

/// The rows of the trait and of the type that the impl at row `i` is about.
pub open spec fn impl_types(tree: Seq<SyntaxView>, i: int) -> (Option<int>, Option<int>) {
    match child(tree, i, Class::Type) {
        Some(first) => match token_from(tree, i, i + 1, "FOR_KW"@) {
            Some(for_token) => if tree[first].start < tree[for_token].start {
                (Some(first), child_from(tree, i, first + 1, Class::Type))
            } else {
                (None, Some(first))
            },
            None => (None, Some(first)),
        },
        None => (None, None),
    }
}

/// The index told of the type at a row, if there is one.
pub open spec fn with_opt_type(
    host: HostView,
    file: FileView,
    tree: Seq<SyntaxView>,
    i: Option<int>,
) -> HostView {
    match i {
        Some(i) => with_type_at(tree, file.rel_path, host, i),
        None => host,
    }
}

/// The definition at the head of the type at a row, if there is one.
pub open spec fn opt_head(
    host: HostView,
    file: FileView,
    tree: Seq<SyntaxView>,
    i: Option<int>,
) -> Option<u64> {
    match i {
        Some(i) => head_of(host, type_id(file.rel_path, tree[i])),
        None => None,
    }
}

/// The row of the first type argument of the list at row `i`, from row `from`
/// on.
pub open spec fn first_type_arg(tree: Seq<SyntaxView>, i: int, from: int) -> Option<int>
    decreases tree.len() - from,
{
    match child_from(tree, i, from, Class::TypeArg) {
        Some(j) => if from <= j < tree.len() {
            match child(tree, j, Class::Type) {
                Some(ty) => Some(ty),
                None => first_type_arg(tree, i, j + 1),
            }
        } else {
            None
        },
        None => None,
    }
}

/// The row of the source type of a conversion, where the trait at a row is one.
pub open spec fn from_source(tree: Seq<SyntaxView>, trait_row: Option<int>) -> Option<int> {
    match trait_row {
        Some(i) => if tree[i].kind == "PATH_TYPE"@ {
            match path_type_at(tree, i) {
                Some((path, Some(list))) => if has_suffix(path, "From"@) {
                    first_type_arg(tree, list, list + 1)
                } else {
                    None
                },
                _ => None,
            }
        } else {
            None
        },
        None => None,
    }
}

/// The index told of the impl at row `i`: its definition and its types.
pub open spec fn with_impl_def(
    host: HostView,
    file: FileView,
    tree: Seq<SyntaxView>,
    i: int,
    name: Seq<char>,
    path: Seq<char>,
    in_test: bool,
) -> HostView {
    let row = tree[i];
    let def = def_id("impl"@, path, row);
    let named = with_def(
        with_place(host, file, row.start, row.end),
        def,
        name,
        DefKind::Impl,
        place_span(file, row.start, row.end),
        path,
    );
    HostView {
        in_test: named.in_test.insert(def, in_test || mentions_test(tree, i)),
        ..named
    }
}

/// The index told of what the impl at row `i` says of its types.
pub open spec fn with_impl_types(
    host: HostView,
    file: FileView,
    tree: Seq<SyntaxView>,
    i: int,
    def: u64,
) -> HostView {
    let (trait_row, self_row) = impl_types(tree, i);
    let selfed = with_opt_type(host, file, tree, self_row);
    let owner = opt_head(selfed, file, tree, self_row);
    let traited = with_opt_type(selfed, file, tree, trait_row);
    let trait_def = opt_head(traited, file, tree, trait_row);
    let implemented = match (owner, trait_def) {
        (Some(owner), Some(trait_def)) => HostView {
            implements: with_row(
                traited.implements,
                ImplementsView { owner, trait_def, impl_def: def },
            ),
            ..traited
        },
        _ => traited,
    };
    match (owner, from_source(tree, trait_row)) {
        (Some(owner), Some(source)) => {
            let told = with_type_at(tree, file.rel_path, implemented, source);
            match head_of(told, type_id(file.rel_path, tree[source])) {
                Some(from) => HostView {
                    from_impls: with_row(
                        told.from_impls,
                        FromImplView { source: from, target: owner, impl_def: def },
                    ),
                    ..told
                },
                None => told,
            }
        },
        _ => implemented,
    }
}

/// The type that the impl at row `i` is about, once its own type is told.
pub open spec fn impl_owner(
    host: HostView,
    file: FileView,
    tree: Seq<SyntaxView>,
    i: int,
) -> Option<u64> {
    let self_row = impl_types(tree, i).1;
    opt_head(with_opt_type(host, file, tree, self_row), file, tree, self_row)
}

/// What is known once the impl at row `i` has been seeded.
pub open spec fn with_impl(
    seeded: Seeded,
    file: FileView,
    tree: Seq<SyntaxView>,
    i: int,
    scope: Seq<Seq<char>>,
    in_test: bool,
) -> Seeded {
    let index = next_index(seeded.context.impls);
    let name = "impl#"@ + decimal(index as nat);
    let path = qualified(scope, name);
    let named = with_impl_def(seeded.host, file, tree, i, name, path, in_test);
    let told = Seeded {
        host: with_impl_types(named, file, tree, i, def_id("impl"@, path, tree[i])),
        context: ContextView { impls: index, ..seeded.context },
    };
    match child(tree, i, Class::AssocItemList) {
        Some(list) => with_methods(
            told,
            file,
            tree,
            list,
            list + 1,
            scope,
            in_test || mentions_test(tree, i),
            impl_owner(named, file, tree, i),
            MethodContainer::Impl,
        ),
        None => told,
    }
}

/// The word for an item's syntax kind in tokens, and what the item defines.
pub open spec fn named_item(kind: Seq<char>) -> Option<(Seq<char>, DefKind)> {
    if kind == "STRUCT"@ {
        Some(("struct"@, DefKind::Struct))
    } else if kind == "ENUM"@ {
        Some(("enum"@, DefKind::Enum))
    } else if kind == "TRAIT"@ {
        Some(("trait"@, DefKind::Trait))
    } else if kind == "MODULE"@ {
        Some(("mod"@, DefKind::Mod))
    } else if kind == "UNION"@ {
        Some(("union"@, DefKind::Union))
    } else if kind == "TYPE_ALIAS"@ {
        Some(("type_alias"@, DefKind::TypeAlias))
    } else if kind == "CONST"@ {
        Some(("const"@, DefKind::Const))
    } else if kind == "STATIC"@ {
        Some(("static"@, DefKind::Static))
    } else {
        None
    }
}

/// The item at row `i` is test code.
pub open spec fn item_in_test(
    tree: Seq<SyntaxView>,
    i: int,
    name: Seq<char>,
    in_test: bool,
) -> bool {
    in_test || mentions_test(tree, i) || (tree[i].kind == "MODULE"@ && name == "tests"@)
}

/// What is known once the parts of the named item at row `i` have been seeded.
pub open spec fn with_parts(
    seeded: Seeded,
    file: FileView,
    tree: Seq<SyntaxView>,
    i: int,
    scope: Seq<Seq<char>>,
    in_test: bool,
    name: Seq<char>,
    def: u64,
) -> Seeded
    decreases tree.len() - i, 1nat,
{
    let kind = tree[i].kind;
    if kind == "STRUCT"@ {
        match child(tree, i, Class::FieldList) {
            Some(list) => Seeded {
                host: with_fields(seeded.host, file, tree, list, def),
                ..seeded
            },
            None => seeded,
        }
    } else if kind == "ENUM"@ {
        match child(tree, i, Class::VariantList) {
            Some(list) => Seeded {
                host: with_variants(
                    seeded.host,
                    file,
                    tree,
                    list,
                    list + 1,
                    def,
                    qualified(scope, name),
                    in_test,
                ),
                ..seeded
            },
            None => seeded,
        }
    } else if kind == "TRAIT"@ {
        match child(tree, i, Class::AssocItemList) {
            Some(list) => with_methods(
                seeded,
                file,
                tree,
                list,
                list + 1,
                scope,
                in_test || mentions_test(tree, i),
                Some(def),
                MethodContainer::Trait,
            ),
            None => seeded,
        }
    } else if kind == "MODULE"@ {
        match child(tree, i, Class::ItemList) {
            Some(list) => if i < list < tree.len() {
                with_items(
                    seeded,
                    file,
                    tree,
                    list,
                    list + 1,
                    scope.push(name),
                    item_in_test(tree, i, name, in_test),
                )
            } else {
                seeded
            },
            None => seeded,
        }
    } else if kind == "TYPE_ALIAS"@ || kind == "CONST"@ || kind == "STATIC"@ {
        Seeded {
            host: with_opt_type(seeded.host, file, tree, child(tree, i, Class::Type)),
            ..seeded
        }
    } else {
        seeded
    }
}

/// What is known once the macro call at row `i` has been seeded.
pub open spec fn with_macro_call(
    host: HostView,
    file: FileView,
    tree: Seq<SyntaxView>,
    i: int,
    scope: Seq<Seq<char>>,
    in_test: bool,
) -> HostView {
    let row = tree[i];
    let path = qualified(scope, "macro_call"@);
    let def = def_id("macro"@, path, row);
    let named = with_def(
        with_place(host, file, row.start, row.end),
        def,
        "macro_call"@,
        DefKind::Macro,
        place_span(file, row.start, row.end),
        path,
    );
    HostView {
        in_test: named.in_test.insert(def, in_test || mentions_test(tree, i)),
        ..named
    }
}

/// What is known once the item at row `i` has been seeded.
pub open spec fn with_item_at(
    seeded: Seeded,
    file: FileView,
    tree: Seq<SyntaxView>,
    i: int,
    scope: Seq<Seq<char>>,
    in_test: bool,
) -> Seeded
    decreases tree.len() - i, 2nat,
{
    let kind = tree[i].kind;
    if kind == "FN"@ {
        with_fn(
            seeded,
            file,
            tree,
            i,
            scope,
            in_test,
            DefKind::Fn,
            None,
            MethodContainer::Free,
        )
    } else if kind == "IMPL"@ {
        with_impl(seeded, file, tree, i, scope, in_test)
    } else if kind == "MACRO_CALL"@ {
        Seeded { host: with_macro_call(seeded.host, file, tree, i, scope, in_test), ..seeded }
    } else {
        match (named_item(kind), name_at(tree, i)) {
            (Some((word, def_kind)), Some(name)) => {
                let path = qualified(scope, name);
                let told = Seeded {
                    host: with_named(
                        seeded.host,
                        file,
                        tree,
                        i,
                        word,
                        def_kind,
                        name,
                        path,
                        item_in_test(tree, i, name, in_test),
                    ),
                    ..seeded
                };
                with_parts(
                    told,
                    file,
                    tree,
                    i,
                    scope,
                    in_test,
                    name,
                    def_id(word, path, tree[i]),
                )
            },
            _ => seeded,
        }
    }
}

/// What is known once the items below row `i`, from row `from` on, have been
/// seeded.
pub open spec fn with_items(
    seeded: Seeded,
    file: FileView,
    tree: Seq<SyntaxView>,
    i: int,
    from: int,
    scope: Seq<Seq<char>>,
    in_test: bool,
) -> Seeded
    decreases tree.len() - from, 3nat,
{
    match child_from(tree, i, from, Class::Item) {
        Some(j) => if from <= j < tree.len() {
            let told = with_item_at(seeded, file, tree, j, scope, in_test);
            with_items(told, file, tree, i, j + 1, scope, in_test)
        } else {
            seeded
        },
        None => seeded,
    }
}

/// The row of the path that the call at row `i` names.
fn callee_row_of(tree: &Vec<SyntaxRow>, i: usize) -> (r: Option<usize>)
    requires
        i < tree.len(),
    ensures
        match r {
            Some(row) => callee_row(tree_view(tree@), i as int) == Some(row as int) && row
                < tree.len(),
            None => callee_row(tree_view(tree@), i as int) is None,
        },
{
    match first_child(tree, i, Class::Expr) {
        Some(expr) => {
            assert(tree_view(tree@)[expr as int] == tree@[expr as int]@);
            if str_eq(tree[expr].kind.as_str(), "PATH_EXPR") {
                first_child(tree, expr, Class::Path)
            } else {
                None
            }
        },
        None => None,
    }
}

/// The path that the call at row `i` names.
pub fn call_expr_callee_path(tree: &Vec<SyntaxRow>, i: usize) -> (r: Option<String>)
    requires
        i < tree.len(),
    ensures
        opt_text(r) == callee_path(tree_view(tree@), i as int),
{
    match callee_row_of(tree, i) {
        Some(path) => Some(normalize_path(tree, path)),
        None => None,
    }
}

/// The last name of the path that the call at row `i` names.
pub fn call_expr_callee_name(tree: &Vec<SyntaxRow>, i: usize) -> (r: Option<String>)
    requires
        i < tree.len(),
    ensures
        opt_text(r) == callee_name(tree_view(tree@), i as int),
{
    match callee_row_of(tree, i) {
        Some(path) => match first_child(tree, path, Class::PathSegment) {
            Some(segment) => ast_name_ref(tree, segment),
            None => None,
        },
        None => None,
    }
}

/// One site more at the end.
proof fn lemma_sites_push(before: Seq<CallSite>, site: CallSite, rest: Seq<CallSiteView>)
    ensures
        site_views(before.push(site)) + rest == site_views(before) + (seq![site@] + rest),
{
    assert(site_views(before.push(site)) =~= site_views(before).push(site@));
    assert(site_views(before.push(site)) + rest =~= site_views(before) + (seq![site@] + rest));
}

/// The calls of the body at row `i`.
fn body_of(
    rel_path: &str,
    source: &str,
    file_id: EditionedFileId,
    tree: &Vec<SyntaxRow>,
    i: usize,
    caller: DefId,
    scope: &str,
) -> (r: FnBodySeed)
    requires
        i < tree.len(),
    ensures
        r@ == body_at(
            FileView { file_id, rel_path: rel_path@, source: source@ },
            tree_view(tree@),
            i as int,
            caller@,
            scope@,
        ),
{
    let ghost view = tree_view(tree@);
    let end = subtree_end(tree, i);
    let mut calls: Vec<CallSite> = Vec::new();
    let mut method_calls: Vec<CallSite> = Vec::new();
    let mut j: usize = i;
    proof {
        assert(site_views(calls@) + calls_between(view, i as int, end as int) =~= calls_between(
            view,
            i as int,
            end as int,
        ));
        assert(site_views(method_calls@) + method_calls_between(view, i as int, end as int)
            =~= method_calls_between(view, i as int, end as int));
    }
    while j < end
        invariant
            view == tree_view(tree@),
            i <= j <= end <= tree@.len(),
            site_views(calls@) + calls_between(view, j as int, end as int) == calls_between(
                view,
                i as int,
                end as int,
            ),
            site_views(method_calls@) + method_calls_between(view, j as int, end as int)
                == method_calls_between(view, i as int, end as int),
        decreases end - j,
    {
        let row = &tree[j];
        assert(view[j as int] == row@);
        if !row.is_token && str_eq(row.kind.as_str(), "CALL_EXPR") {
            let site = CallSite {
                path: call_expr_callee_path(tree, j),
                name: call_expr_callee_name(tree, j),
                start: row.start,
                end: row.end,
            };
            proof {
                lemma_sites_push(calls@, site, calls_between(view, j + 1, end as int));
            }
            calls.push(site);
        }
        if !row.is_token && str_eq(row.kind.as_str(), "METHOD_CALL_EXPR") {
            let site = CallSite {
                path: None,
                name: ast_name_ref(tree, j),
                start: row.start,
                end: row.end,
            };
            proof {
                lemma_sites_push(
                    method_calls@,
                    site,
                    method_calls_between(view, j + 1, end as int),
                );
            }
            method_calls.push(site);
        }
        proof {
            reveal_strlit("CALL_EXPR");
            reveal_strlit("METHOD_CALL_EXPR");
        }
        j += 1;
    }
    proof {
        assert(site_views(calls@) =~= site_views(calls@) + Seq::<CallSiteView>::empty());
        assert(site_views(method_calls@) =~= site_views(method_calls@)
            + Seq::<CallSiteView>::empty());
    }
    FnBodySeed {
        caller,
        caller_scope: owned(scope),
        calls,
        method_calls,
        rel_path: owned(rel_path),
        source: owned(source),
        file_id,
    }
}

/// Tells the function at row `i` and meets its name.
pub fn seed_function_item(
    host: &mut DeterministicRaHost,
    context: &mut SeedContext,
    rel_path: &str,
    source: &str,
    file_id: EditionedFileId,
    tree: &Vec<SyntaxRow>,
    i: usize,
    scope: &ModuleScope,
    in_test_scope: bool,
    kind: DefKind,
    owner: Option<DefId>,
    container: MethodContainer,
) -> (r: DefId)
    requires
        old(host).wf(),
        indexable(source@),
        i < tree.len(),
    ensures
        final(host).wf(),
        r@ == def_id(
            fn_word(kind),
            fn_path(old(host)@, scope@, kind, opt_def(owner), fn_name(tree_view(tree@), i as int)),
            tree_view(tree@)[i as int],
        ),
        (Seeded { host: final(host)@, context: final(context)@ }) == with_fn(
            Seeded { host: old(host)@, context: old(context)@ },
            FileView { file_id, rel_path: rel_path@, source: source@ },
            tree_view(tree@),
            i as int,
            scope@,
            in_test_scope,
            kind,
            opt_def(owner),
            container,
        ),
{
    let ghost view = tree_view(tree@);
    let row = &tree[i];
    assert(view[i as int] == row@);
    let name = match ast_name(tree, i) {
        Some(name) => name,
        None => owned("anonymous"),
    };
    let path = match owner {
        Some(owner) => if kind == DefKind::Method {
            cat3(host.def_path_for(owner).as_str(), "::", name.as_str())
        } else {
            scope.qualified_name(name.as_str())
        },
        None => scope.qualified_name(name.as_str()),
    };
    let word = if kind == DefKind::Method {
        "method"
    } else {
        "fn"
    };
    let marked = in_test_scope || ast_mentions_test(tree, i);
    let def = seed_named(
        host,
        rel_path,
        source,
        file_id,
        tree,
        i,
        word,
        kind,
        name.as_str(),
        path.as_str(),
        marked,
    );
    match owner {
        Some(owner) => match container {
            MethodContainer::Impl => host.insert_method(owner, def),
            MethodContainer::Trait => host.insert_trait_method(owner, def),
            MethodContainer::Free => {},
        },
        None => {},
    }
    let return_type = match first_child(tree, i, Class::RetType) {
        Some(ret) => first_child(tree, ret, Class::Type),
        None => None,
    };
    let returned = match return_type {
        Some(ty) => seed_type_ref(host, rel_path, tree, ty),
        None => {
            let mut token = cat2("type:unit-return:", path.as_str());
            token.append(":");
            token.append(range_to_text(row.start, row.end).as_str());
            let ty = host.intern_typeref_from_token(token.as_str());
            let none: Vec<TypeRefId> = Vec::new();
            assert(type_ids(none@) =~= Seq::<u64>::empty());
            host.insert_type(ty, TypeShape::Tuple(none));
            ty
        },
    };
    let ghost typed = host@;
    host.set_fn_return_type(def, Some(returned));
    let error = result_error_head_for_return(host, returned);
    assert(result_error_head(host@, returned@) == result_error_head(typed, returned@));
    host.set_fn_error_type(def, error);
    let inner = ModuleScope::from_qualified_path(path.as_str()).key();
    let lexical = scope.key();
    context.register_callable(inner.as_str(), path.as_str(), name.as_str(), def);
    if kind == DefKind::Method {
        context.register_method(inner.as_str(), name.as_str(), def);
        if !str_eq(lexical.as_str(), inner.as_str()) {
            context.register_method(lexical.as_str(), name.as_str(), def);
        }
    }
    match first_child(tree, i, Class::BlockExpr) {
        Some(body) => {
            context.register_body(
                body_of(rel_path, source, file_id, tree, body, def, inner.as_str()),
            );
        },
        None => {},
    }
    def
}

/// Tells the functions of the list at row `i` as methods.
fn seed_methods(
    host: &mut DeterministicRaHost,
    context: &mut SeedContext,
    rel_path: &str,
    source: &str,
    file_id: EditionedFileId,
    tree: &Vec<SyntaxRow>,
    i: usize,
    scope: &ModuleScope,
    in_test: bool,
    owner: Option<DefId>,
    container: MethodContainer,
)
    requires
        old(host).wf(),
        indexable(source@),
        i < tree.len(),
    ensures
        final(host).wf(),
        (Seeded { host: final(host)@, context: final(context)@ }) == with_methods(
            Seeded { host: old(host)@, context: old(context)@ },
            FileView { file_id, rel_path: rel_path@, source: source@ },
            tree_view(tree@),
            i as int,
            i + 1,
            scope@,
            in_test,
            opt_def(owner),
            container,
        ),
{
    let ghost view = tree_view(tree@);
    let ghost file = FileView { file_id, rel_path: rel_path@, source: source@ };
    let ghost start = Seeded { host: host@, context: context@ };
    let mut from: usize = i + 1;
    loop
        invariant
            view == tree_view(tree@),
            file == (FileView { file_id, rel_path: rel_path@, source: source@ }),
            start == (Seeded { host: old(host)@, context: old(context)@ }),
            indexable(source@),
            i < from <= tree.len(),
            host.wf(),
            with_methods(
                start,
                file,
                view,
                i as int,
                i + 1,
                scope@,
                in_test,
                opt_def(owner),
                container,
            ) == with_methods(
                Seeded { host: host@, context: context@ },
                file,
                view,
                i as int,
                from as int,
                scope@,
                in_test,
                opt_def(owner),
                container,
            ),
        decreases tree.len() - from,
    {
        match next_child(tree, i, from, Class::Fn) {
            Some(j) => {
                let _ = seed_function_item(
                    host,
                    context,
                    rel_path,
                    source,
                    file_id,
                    tree,
                    j,
                    scope,
                    in_test,
                    DefKind::Method,
                    owner,
                    container,
                );
                from = j + 1;
            },
            None => {
                return;
            },
        }
    }
}

/// The rows of the trait and of the type that the impl at row `i` is about.
fn impl_target(tree: &Vec<SyntaxRow>, i: usize) -> (r: (Option<usize>, Option<usize>))
    requires
        i < tree.len(),
    ensures
        row_number(r.0) == impl_types(tree_view(tree@), i as int).0,
        row_number(r.1) == impl_types(tree_view(tree@), i as int).1,
        r.0 is Some ==> r.0->0 < tree.len(),
        r.1 is Some ==> r.1->0 < tree.len(),
{
    let ghost view = tree_view(tree@);
    match first_child(tree, i, Class::Type) {
        Some(first) => match first_token(tree, i, "FOR_KW") {
            Some(for_token) => {
                assert(view[first as int] == tree@[first as int]@);
                assert(view[for_token as int] == tree@[for_token as int]@);
                if tree[first].start < tree[for_token].start {
                    (Some(first), next_child(tree, i, first + 1, Class::Type))
                } else {
                    (None, Some(first))
                }
            },
            None => (None, Some(first)),
        },
        None => (None, None),
    }
}

/// A row as a number.
pub open spec fn row_number(row: Option<usize>) -> Option<int> {
    match row {
        Some(row) => Some(row as int),
        None => None,
    }
}

/// Tells the type at a row, if there is one, and finds its head.
fn seed_opt_type(
    host: &mut DeterministicRaHost,
    rel_path: &str,
    source: &str,
    file_id: EditionedFileId,
    tree: &Vec<SyntaxRow>,
    i: Option<usize>,
) -> (r: Option<DefId>)
    requires
        old(host).wf(),
        i is Some ==> i->0 < tree.len(),
    ensures
        final(host).wf(),
        final(host)@ == with_opt_type(
            old(host)@,
            FileView { file_id, rel_path: rel_path@, source: source@ },
            tree_view(tree@),
            row_number(i),
        ),
        opt_def(r) == opt_head(
            final(host)@,
            FileView { file_id, rel_path: rel_path@, source: source@ },
            tree_view(tree@),
            row_number(i),
        ),
{
    match i {
        Some(i) => {
            let ty = seed_type_ref(host, rel_path, tree, i);
            type_head_def_for(host, ty)
        },
        None => None,
    }
}

/// The row of the first type argument of the list at row `i`.
fn first_type_arg_of(tree: &Vec<SyntaxRow>, i: usize) -> (r: Option<usize>)
    requires
        i < tree.len(),
    ensures
        row_number(r) == first_type_arg(tree_view(tree@), i as int, i + 1),
        r is Some ==> r->0 < tree.len(),
{
    let ghost view = tree_view(tree@);
    let mut from: usize = i + 1;
    loop
        invariant
            view == tree_view(tree@),
            i < from <= tree.len(),
            first_type_arg(view, i as int, i + 1) == first_type_arg(view, i as int, from as int),
        decreases tree.len() - from,
    {
        match next_child(tree, i, from, Class::TypeArg) {
            Some(j) => match first_child(tree, j, Class::Type) {
                Some(ty) => {
                    return Some(ty);
                },
                None => {
                    from = j + 1;
                },
            },
            None => {
                return None;
            },
        }
    }
}

/// The row of the source type of a conversion, where the trait at a row is one.
fn from_source_of(tree: &Vec<SyntaxRow>, trait_row: Option<usize>) -> (r: Option<usize>)
    requires
        trait_row is Some ==> trait_row->0 < tree.len(),
    ensures
        row_number(r) == from_source(tree_view(tree@), row_number(trait_row)),
        r is Some ==> r->0 < tree.len(),
{
    let i = match trait_row {
        Some(i) => i,
        None => {
            return None;
        },
    };
    assert(tree_view(tree@)[i as int] == tree@[i as int]@);
    if !str_eq(tree[i].kind.as_str(), "PATH_TYPE") {
        return None;
    }
    match path_with_type_args(tree, i) {
        Some((path, Some(list))) => if ends_with(path.as_str(), "From") {
            first_type_arg_of(tree, list)
        } else {
            None
        },
        _ => None,
    }
}

/// Tells the impl at row `i`, what it implements, and its methods.
pub fn seed_impl_item(
    host: &mut DeterministicRaHost,
    context: &mut SeedContext,
    rel_path: &str,
    source: &str,
    file_id: EditionedFileId,
    tree: &Vec<SyntaxRow>,
    i: usize,
    scope: &ModuleScope,
    in_test_scope: bool,
)
    requires
        old(host).wf(),
        indexable(source@),
        i < tree.len(),
    ensures
        final(host).wf(),
        (Seeded { host: final(host)@, context: final(context)@ }) == with_impl(
            Seeded { host: old(host)@, context: old(context)@ },
            FileView { file_id, rel_path: rel_path@, source: source@ },
            tree_view(tree@),
            i as int,
            scope@,
            in_test_scope,
        ),
{
    let ghost view = tree_view(tree@);
    let row = &tree[i];
    assert(view[i as int] == row@);
    let index = context.next_impl_index();
    let name = cat2("impl#", decimal_of(index).as_str());
    let path = scope.qualified_name(name.as_str());
    let span = intern_ast_span(host, rel_path, source, file_id, row);
    let def = def_of_row(host, "impl", path.as_str(), row);
    let marked = in_test_scope || ast_mentions_test(tree, i);
    host.insert_def(def, name.as_str(), DefKind::Impl, span, path.as_str());
    host.mark_in_test(def, marked);
    let (trait_row, self_row) = impl_target(tree, i);
    let owner = seed_opt_type(host, rel_path, source, file_id, tree, self_row);
    let trait_def = seed_opt_type(host, rel_path, source, file_id, tree, trait_row);
    match (owner, trait_def) {
        (Some(owner), Some(trait_def)) => {
            host.insert_implements(owner, trait_def, def);
        },
        _ => {},
    }
    match (owner, from_source_of(tree, trait_row)) {
        (Some(owner), Some(source_row)) => {
            let source_ref = seed_type_ref(host, rel_path, tree, source_row);
            match type_head_def_for(host, source_ref) {
                Some(source_def) => {
                    host.insert_from_impl(source_def, owner, def);
                },
                None => {},
            }
        },
        _ => {},
    }
    match first_child(tree, i, Class::AssocItemList) {
        Some(list) => {
            seed_methods(
                host,
                context,
                rel_path,
                source,
                file_id,
                tree,
                list,
                scope,
                marked,
                owner,
                MethodContainer::Impl,
            );
        },
        None => {},
    }
}

/// The word for an item's syntax kind in tokens, and what the item defines.
fn named_item_of(kind: &str) -> (r: Option<(&'static str, DefKind)>)
    ensures
        match r {
            Some((word, def_kind)) => named_item(kind@) == Some((word@, def_kind)),
            None => named_item(kind@) is None,
        },
{
    if str_eq(kind, "STRUCT") {
        Some(("struct", DefKind::Struct))
    } else if str_eq(kind, "ENUM") {
        Some(("enum", DefKind::Enum))
    } else if str_eq(kind, "TRAIT") {
        Some(("trait", DefKind::Trait))
    } else if str_eq(kind, "MODULE") {
        Some(("mod", DefKind::Mod))
    } else if str_eq(kind, "UNION") {
        Some(("union", DefKind::Union))
    } else if str_eq(kind, "TYPE_ALIAS") {
        Some(("type_alias", DefKind::TypeAlias))
    } else if str_eq(kind, "CONST") {
        Some(("const", DefKind::Const))
    } else if str_eq(kind, "STATIC") {
        Some(("static", DefKind::Static))
    } else {
        None
    }
}

/// Tells the macro call at row `i`.
fn seed_macro_call(
    host: &mut DeterministicRaHost,
    rel_path: &str,
    source: &str,
    file_id: EditionedFileId,
    tree: &Vec<SyntaxRow>,
    i: usize,
    scope: &ModuleScope,
    in_test_scope: bool,
)
    requires
        old(host).wf(),
        indexable(source@),
        i < tree.len(),
    ensures
        final(host).wf(),
        final(host)@ == with_macro_call(
            old(host)@,
            FileView { file_id, rel_path: rel_path@, source: source@ },
            tree_view(tree@),
            i as int,
            scope@,
            in_test_scope,
        ),
{
    let row = &tree[i];
    assert(tree_view(tree@)[i as int] == row@);
    let span = intern_ast_span(host, rel_path, source, file_id, row);
    let path = scope.qualified_name("macro_call");
    let def = def_of_row(host, "macro", path.as_str(), row);
    host.insert_def(def, "macro_call", DefKind::Macro, span, path.as_str());
    host.mark_in_test(def, in_test_scope || ast_mentions_test(tree, i));
}

/// Tells the parts of the named item at row `i`.
fn seed_parts(
    host: &mut DeterministicRaHost,
    context: &mut SeedContext,
    rel_path: &str,
    source: &str,
    file_id: EditionedFileId,
    tree: &Vec<SyntaxRow>,
    i: usize,
    scope: &ModuleScope,
    in_test_scope: bool,
    name: &str,
    def: DefId,
)
    requires
        old(host).wf(),
        indexable(source@),
        i < tree.len(),
    ensures
        final(host).wf(),
        (Seeded { host: final(host)@, context: final(context)@ }) == with_parts(
            Seeded { host: old(host)@, context: old(context)@ },
            FileView { file_id, rel_path: rel_path@, source: source@ },
            tree_view(tree@),
            i as int,
            scope@,
            in_test_scope,
            name@,
            def@,
        ),
    decreases tree.len() - i, 1nat,
{
    let ghost view = tree_view(tree@);
    assert(view[i as int] == tree@[i as int]@);
    let kind = tree[i].kind.as_str();
    if str_eq(kind, "STRUCT") {
        match first_child(tree, i, Class::FieldList) {
            Some(list) => {
                seed_field_list(host, rel_path, source, file_id, tree, list, def);
            },
            None => {},
        }
    } else if str_eq(kind, "ENUM") {
        match first_child(tree, i, Class::VariantList) {
            Some(list) => {
                let path = scope.qualified_name(name);
                seed_variants(
                    host,
                    rel_path,
                    source,
                    file_id,
                    tree,
                    list,
                    def,
                    path.as_str(),
                    in_test_scope,
                );
            },
            None => {},
        }
    } else if str_eq(kind, "TRAIT") {
        match first_child(tree, i, Class::AssocItemList) {
            Some(list) => {
                let marked = in_test_scope || ast_mentions_test(tree, i);
                seed_methods(
                    host,
                    context,
                    rel_path,
                    source,
                    file_id,
                    tree,
                    list,
                    scope,
                    marked,
                    Some(def),
                    MethodContainer::Trait,
                );
            },
            None => {},
        }
    } else if str_eq(kind, "MODULE") {
        match first_child(tree, i, Class::ItemList) {
            Some(list) => {
                let inner = scope.extend(name);
                let marked = in_test_scope || ast_mentions_test(tree, i) || str_eq(name, "tests");
                seed_items(host, context, rel_path, source, file_id, tree, list, &inner, marked);
            },
            None => {},
        }
    } else if str_eq(kind, "TYPE_ALIAS") || str_eq(kind, "CONST") || str_eq(kind, "STATIC") {
        let _ = seed_opt_type(
            host,
            rel_path,
            source,
            file_id,
            tree,
            first_child(tree, i, Class::Type),
        );
    }
}

/// Tells the item at row `i` and what is in it.
pub fn seed_item(
    host: &mut DeterministicRaHost,
    context: &mut SeedContext,
    rel_path: &str,
    source: &str,
    file_id: EditionedFileId,
    tree: &Vec<SyntaxRow>,
    i: usize,
    scope: &ModuleScope,
    in_test_scope: bool,
)
    requires
        old(host).wf(),
        indexable(source@),
        i < tree.len(),
    ensures
        final(host).wf(),
        (Seeded { host: final(host)@, context: final(context)@ }) == with_item_at(
            Seeded { host: old(host)@, context: old(context)@ },
            FileView { file_id, rel_path: rel_path@, source: source@ },
            tree_view(tree@),
            i as int,
            scope@,
            in_test_scope,
        ),
    decreases tree.len() - i, 2nat,
{
    let ghost view = tree_view(tree@);
    assert(view[i as int] == tree@[i as int]@);
    let kind = tree[i].kind.as_str();
    if str_eq(kind, "FN") {
        let _ = seed_function_item(
            host,
            context,
            rel_path,
            source,
            file_id,
            tree,
            i,
            scope,
            in_test_scope,
            DefKind::Fn,
            None,
            MethodContainer::Free,
        );
    } else if str_eq(kind, "IMPL") {
        seed_impl_item(host, context, rel_path, source, file_id, tree, i, scope, in_test_scope);
    } else if str_eq(kind, "MACRO_CALL") {
        seed_macro_call(host, rel_path, source, file_id, tree, i, scope, in_test_scope);
    } else {
        match (named_item_of(kind), ast_name(tree, i)) {
            (Some((word, def_kind)), Some(name)) => {
                let path = scope.qualified_name(name.as_str());
                let marked = in_test_scope || ast_mentions_test(tree, i) || (str_eq(
                    kind,
                    "MODULE",
                ) && str_eq(name.as_str(), "tests"));
                let def = seed_named(
                    host,
                    rel_path,
                    source,
                    file_id,
                    tree,
                    i,
                    word,
                    def_kind,
                    name.as_str(),
                    path.as_str(),
                    marked,
                );
                seed_parts(
                    host,
                    context,
                    rel_path,
                    source,
                    file_id,
                    tree,
                    i,
                    scope,
                    in_test_scope,
                    name.as_str(),
                    def,
                );
            },
            _ => {},
        }
    }
}

/// Tells the items below row `i`.
fn seed_items(
    host: &mut DeterministicRaHost,
    context: &mut SeedContext,
    rel_path: &str,
    source: &str,
    file_id: EditionedFileId,
    tree: &Vec<SyntaxRow>,
    i: usize,
    scope: &ModuleScope,
    in_test: bool,
)
    requires
        old(host).wf(),
        indexable(source@),
        i < tree.len(),
    ensures
        final(host).wf(),
        (Seeded { host: final(host)@, context: final(context)@ }) == with_items(
            Seeded { host: old(host)@, context: old(context)@ },
            FileView { file_id, rel_path: rel_path@, source: source@ },
            tree_view(tree@),
            i as int,
            i + 1,
            scope@,
            in_test,
        ),
    decreases tree.len() - i, 0nat,
{
    let ghost view = tree_view(tree@);
    let ghost file = FileView { file_id, rel_path: rel_path@, source: source@ };
    let ghost start = Seeded { host: host@, context: context@ };
    let mut from: usize = i + 1;
    loop
        invariant
            view == tree_view(tree@),
            file == (FileView { file_id, rel_path: rel_path@, source: source@ }),
            start == (Seeded { host: old(host)@, context: old(context)@ }),
            indexable(source@),
            i < from <= tree.len(),
            host.wf(),
            with_items(start, file, view, i as int, i + 1, scope@, in_test) == with_items(
                Seeded { host: host@, context: context@ },
                file,
                view,
                i as int,
                from as int,
                scope@,
                in_test,
            ),
        decreases tree.len() - from,
    {
        match next_child(tree, i, from, Class::Item) {
            Some(j) => {
                seed_item(host, context, rel_path, source, file_id, tree, j, scope, in_test);
                from = j + 1;
            },
            None => {
                return;
            },
        }
    }
}

/// What is known once a file with the given tree has been seeded.
pub open spec fn with_tree(
    seeded: Seeded,
    file: FileView,
    tree: Seq<SyntaxView>,
    scope: Seq<Seq<char>>,
) -> Seeded {
    if tree.len() == 0 {
        seeded
    } else {
        with_items(seeded, file, tree, 0, 1, scope, false)
    }
}

/// Tells the items of a file with the given tree.
pub fn seed_host_from_tree(
    host: &mut DeterministicRaHost,
    context: &mut SeedContext,
    rel_path: &str,
    source: &str,
    file_id: EditionedFileId,
    tree: &Vec<SyntaxRow>,
    root_scope: &ModuleScope,
)
    requires
        old(host).wf(),
        indexable(source@),
    ensures
        final(host).wf(),
        (Seeded { host: final(host)@, context: final(context)@ }) == with_tree(
            Seeded { host: old(host)@, context: old(context)@ },
            FileView { file_id, rel_path: rel_path@, source: source@ },
            tree_view(tree@),
            root_scope@,
        ),
{
    if tree.len() > 0 {
        seed_items(host, context, rel_path, source, file_id, tree, 0, root_scope, false);
    }
}

/// Tells the items of a file.
pub fn seed_host_from_source_with_context(
    host: &mut DeterministicRaHost,
    context: &mut SeedContext,
    rel_path: &str,
    source: &str,
    file_id: EditionedFileId,
    root_scope: &ModuleScope,
)
    requires
        old(host).wf(),
        indexable(source@),
    ensures
        final(host).wf(),
        (Seeded { host: final(host)@, context: final(context)@ }) == with_tree(
            Seeded { host: old(host)@, context: old(context)@ },
            FileView { file_id, rel_path: rel_path@, source: source@ },
            parsed_tree(source@, SourceEdition::newest()),
            root_scope@,
        ),
{
    let tree = parse_tree(source, SourceEdition::current());
    seed_host_from_tree(host, context, rel_path, source, file_id, &tree, root_scope);
}

/// The callable that a call by path means.
pub open spec fn call_target(context: ContextView, scope: Seq<char>, site: CallSiteView) -> Option<
    u64,
> {
    let by_path = match site.path {
        Some(path) => match callable_at(context.callables, path) {
            Some(def) => Some(def),
            None => match path_split(path) {
                Some((_, name)) => resolved_callable(context.callables, scope, name),
                None => None,
            },
        },
        None => None,
    };
    match by_path {
        Some(def) => Some(def),
        None => match site.name {
            Some(name) => resolved_callable(context.callables, scope, name),
            None => None,
        },
    }
}

/// The method that a method call means.
pub open spec fn method_target(
    context: ContextView,
    scope: Seq<char>,
    site: CallSiteView,
) -> Option<u64> {
    match site.name {
        Some(name) => meant_method(context.methods, scope, name),
        None => None,
    }
}

/// How a call finds a method.
pub open spec fn method_dispatch(host: HostView, method: u64) -> DispatchKind {
    match host.method_owner_of(method) {
        Some(owner) => if host.kind_of(owner) is Trait {
            DispatchKind::ThroughTrait
        } else {
            DispatchKind::Direct
        },
        None => DispatchKind::Direct,
    }
}

/// The index told of a call.
pub open spec fn with_call(
    host: HostView,
    file: FileView,
    site: CallSiteView,
    caller: u64,
    callee: u64,
    dispatch: DispatchKind,
) -> HostView {
    let placed = with_place(host, file, site.start, site.end);
    HostView {
        call_edges: with_row(
            placed.call_edges,
            CallEdgeView {
                caller,
                callee,
                site: place_span(file, site.start, site.end),
                dispatch,
            },
        ),
        ..placed
    }
}

/// The file of a body.
pub open spec fn body_file(body: BodyView) -> FileView {
    FileView { file_id: body.file_id, rel_path: body.rel_path, source: body.source }
}

/// The index told of the first `count` calls by path of a body.
pub open spec fn with_calls(
    host: HostView,
    context: ContextView,
    body: BodyView,
    count: nat,
) -> HostView
    decreases count,
{
    if count == 0 {
        host
    } else {
        let told = with_calls(host, context, body, (count - 1) as nat);
        let site = body.calls[count - 1];
        match call_target(context, body.scope, site) {
            Some(callee) => with_call(
                told,
                body_file(body),
                site,
                body.caller,
                callee,
                DispatchKind::Direct,
            ),
            None => told,
        }
    }
}

/// The index told of the first `count` method calls of a body.
pub open spec fn with_method_calls(
    host: HostView,
    context: ContextView,
    body: BodyView,
    count: nat,
) -> HostView
    decreases count,
{
    if count == 0 {
        host
    } else {
        let told = with_method_calls(host, context, body, (count - 1) as nat);
        let site = body.method_calls[count - 1];
        match method_target(context, body.scope, site) {
            Some(callee) => with_call(
                told,
                body_file(body),
                site,
                body.caller,
                callee,
                method_dispatch(told, callee),
            ),
            None => told,
        }
    }
}

/// The index told of the calls of a body: by path first, then of methods.
pub open spec fn with_body_calls(
    host: HostView,
    context: ContextView,
    body: BodyView,
) -> HostView {
    with_method_calls(
        with_calls(host, context, body, body.calls.len()),
        context,
        body,
        body.method_calls.len(),
    )
}

/// The index told of the calls of the first `count` bodies.
pub open spec fn with_call_edges(host: HostView, context: ContextView, count: nat) -> HostView
    decreases count,
{
    if count == 0 {
        host
    } else {
        with_body_calls(
            with_call_edges(host, context, (count - 1) as nat),
            context,
            context.bodies[count - 1],
        )
    }
}

/// The sources of the bodies can be indexed.
pub open spec fn bodies_indexable(context: ContextView) -> bool {
    forall|i: int| 0 <= i < context.bodies.len() ==> indexable((#[trigger] context.bodies[i]).source)
}

/// The callable that a call by path means.
fn resolve_call(context: &SeedContext, scope: &str, site: &CallSite) -> (r: Option<DefId>)
    ensures
        opt_def(r) == call_target(context@, scope@, site@),
{
    let by_path = match &site.path {
        Some(path) => match context.resolve_path(path.as_str()) {
            Some(def) => Some(def),
            None => match split_path(path.as_str()) {
                Some((_, name)) => context.resolve_callable(scope, name.as_str()),
                None => None,
            },
        },
        None => None,
    };
    match by_path {
        Some(def) => Some(def),
        None => match &site.name {
            Some(name) => context.resolve_callable(scope, name.as_str()),
            None => None,
        },
    }
}

/// Tells a call.
fn seed_call(
    host: &mut DeterministicRaHost,
    rel_path: &str,
    source: &str,
    file_id: EditionedFileId,
    site: &CallSite,
    caller: DefId,
    callee: DefId,
    dispatch: DispatchKind,
)
    requires
        old(host).wf(),
        indexable(source@),
    ensures
        final(host).wf(),
        final(host)@ == with_call(
            old(host)@,
            FileView { file_id, rel_path: rel_path@, source: source@ },
            site@,
            caller@,
            callee@,
            dispatch,
        ),
{
    let place = intern_place(host, rel_path, source, file_id, site.start, site.end);
    host.insert_call_edge(caller, callee, place, dispatch);
}

/// Tells the calls of a body.
fn seed_body_calls(host: &mut DeterministicRaHost, context: &SeedContext, body: &FnBodySeed)
    requires
        old(host).wf(),
        indexable(body@.source),
    ensures
        final(host).wf(),
        final(host)@ == with_body_calls(old(host)@, context@, body@),
{
    let ghost start = host@;
    let scope = body.caller_scope.as_str();
    let mut i: usize = 0;
    while i < body.calls.len()
        invariant
            host.wf(),
            indexable(body@.source),
            i <= body.calls@.len(),
            scope@ == body@.scope,
            start == old(host)@,
            host@ == with_calls(start, context@, body@, i as nat),
        decreases body.calls.len() - i,
    {
        let site = &body.calls[i];
        assert(body@.calls[i as int] == site@);
        match resolve_call(context, scope, site) {
            Some(callee) => {
                seed_call(
                    host,
                    body.rel_path.as_str(),
                    body.source.as_str(),
                    body.file_id,
                    site,
                    body.caller,
                    callee,
                    DispatchKind::Direct,
                );
            },
            None => {},
        }
        i += 1;
    }
    let ghost middle = host@;
    assert(middle == with_calls(start, context@, body@, body@.calls.len()));
    let mut j: usize = 0;
    while j < body.method_calls.len()
        invariant
            host.wf(),
            indexable(body@.source),
            j <= body.method_calls@.len(),
            scope@ == body@.scope,
            start == old(host)@,
            middle == with_calls(start, context@, body@, body@.calls.len()),
            host@ == with_method_calls(middle, context@, body@, j as nat),
        decreases body.method_calls.len() - j,
    {
        let site = &body.method_calls[j];
        assert(body@.method_calls[j as int] == site@);
        let target = match &site.name {
            Some(name) => context.resolve_unambiguous_method(scope, name.as_str()),
            None => None,
        };
        match target {
            Some(callee) => {
                let dispatch = match host.method_owner_for(callee) {
                    Some(owner) => if host.def_kind_for(owner) == DefKind::Trait {
                        DispatchKind::ThroughTrait
                    } else {
                        DispatchKind::Direct
                    },
                    None => DispatchKind::Direct,
                };
                seed_call(
                    host,
                    body.rel_path.as_str(),
                    body.source.as_str(),
                    body.file_id,
                    site,
                    body.caller,
                    callee,
                    dispatch,
                );
            },
            None => {},
        }
        j += 1;
    }
}

/// Tells the calls of all bodies that have been met.
pub fn seed_call_edges(host: &mut DeterministicRaHost, context: &SeedContext)
    requires
        old(host).wf(),
        bodies_indexable(context@),
    ensures
        final(host).wf(),
        final(host)@ == with_call_edges(old(host)@, context@, context@.bodies.len()),
{
    let ghost start = host@;
    let mut i: usize = 0;
    while i < context.body_count()
        invariant
            host.wf(),
            bodies_indexable(context@),
            i <= context@.bodies.len(),
            start == old(host)@,
            host@ == with_call_edges(start, context@, i as nat),
        decreases context@.bodies.len() - i,
    {
        seed_body_calls(host, context, context.body(i));
        i += 1;
    }
}

} // verus!
