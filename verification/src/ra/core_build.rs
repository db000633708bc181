//! Building the index of a workspace's definitions.

use crate::host::{derived_id, DefId, TypeRefId};
use crate::ra::core_index::{CoreLookupIndex, CoreView};
use crate::ra::host::{opt_def, DefRecordView, DeterministicRaHost, HostView};
use crate::ra::kinds::{DefKind, Mutability};
use crate::ra::lookup_store::{canonical_function_path, function_path};
use crate::ra::rows::opt_text;
use crate::ra::seed_types::{fallback_def_span, nowhere_span, with_type};
use crate::ra::shapes::{
    arg_views, type_ids, GenericArg, GenericArgView, ShapeView, TypeShape,
};
use crate::ra::snapshot_types::{as_args, SourceLoc};
use crate::ra::source::{indexable, key_in_text, lookup_span_key_from_text, span_id_of};
use crate::ra::store::IdMap;
use crate::ra::syntax::{
    child, child_from, first_child, first_token, next_child, token_from, tree_view, Class,
    SyntaxRow, SyntaxView,
};
use crate::text::{cat2, decimal, decimal_of_size, owned, str_eq};
use vstd::prelude::*;

verus! {

/// What of a workspace an index is to hold.
#[derive(Debug, Clone, Copy, PartialEq, Eq, Structural)]
pub struct CoreHostBuildSpec {
    pub def_spans: bool,
    pub def_publicity: bool,
    pub def_test_flags: bool,
    pub adt_structure: bool,
}

/// What the database says of a definition.
pub struct CoreDefFacts {
    /// What it is; nothing for builtin types.
    pub kind: Option<DefKind>,
    pub name: Option<String>,
    pub canonical: Option<String>,
    pub crate_name: Option<String>,
    /// Where it stands, if in a tracked file.
    pub loc: Option<SourceLoc>,
    pub is_public: bool,
    pub in_test: bool,
    /// The key of the function that it is.
    pub function: Option<u64>,
}

/// The file of a definition can be indexed.
pub open spec fn core_indexable(facts: CoreDefFacts) -> bool {
    match facts.loc {
        Some(loc) => indexable(loc.text@),
        None => true,
    }
}

/// An index in the making.
pub struct CoreFactsBuilder {
    pub host: DeterministicRaHost,
    pub core_index: CoreLookupIndex,
    pub(crate) paths: IdMap<String>,
    pub build_spec: CoreHostBuildSpec,
}

/// What an index in the making holds.
#[verifier::ext_equal]
pub struct Core {
    pub host: HostView,
    pub index: CoreView,
    /// Paths by definition.
    pub paths: Map<u64, Seq<char>>,
    pub asked: CoreHostBuildSpec,
}

impl View for CoreFactsBuilder {
    type V = Core;

    closed spec fn view(&self) -> Core {
        Core {
            host: self.host@,
            index: self.core_index@,
            paths: self.paths@,
            asked: self.build_spec,
        }
    }
}

/// The kind of definition is a function's.
pub open spec fn is_fn_kind(kind: DefKind) -> bool {
    kind is Fn || kind is Method
}

/// The path of a definition.
pub open spec fn core_path(facts: CoreDefFacts) -> Seq<char> {
    if is_fn_kind(facts.kind->0) {
        function_path(facts.name->0@, opt_text(facts.canonical), opt_text(facts.crate_name))
    } else {
        match facts.canonical {
            Some(path) => path@,
            None => "crate::"@ + facts.name->0@,
        }
    }
}

/// The token of a definition.
pub open spec fn core_token(kind: DefKind, path: Seq<char>) -> Seq<char> {
    if is_fn_kind(kind) {
        "def:function:"@ + path
    } else {
        "def:"@ + kind.name() + ":"@ + path
    }
}

/// The id of a definition.
pub open spec fn core_id(facts: CoreDefFacts) -> u64 {
    derived_id("def"@, core_token(facts.kind->0, core_path(facts)))
}

/// The path of a definition of a name and a kind.
pub(crate) fn core_path_of(facts: &CoreDefFacts, name: &str, kind: DefKind) -> (r: String)
    requires
        facts.kind == Some(kind),
        facts.name is Some,
        facts.name->0@ == name@,
    ensures
        r@ == core_path(*facts),
{
    if kind == DefKind::Fn || kind == DefKind::Method {
        let canonical = match &facts.canonical {
            Some(path) => Some(path.as_str()),
            None => None,
        };
        let crate_name = match &facts.crate_name {
            Some(name) => Some(name.as_str()),
            None => None,
        };
        canonical_function_path(name, canonical, crate_name)
    } else {
        match &facts.canonical {
            Some(path) => owned(path.as_str()),
            None => cat2("crate::", name),
        }
    }
}

/// The token of a definition of a kind.
pub(crate) fn core_token_of(kind: DefKind, path: &str) -> (r: String)
    ensures
        r@ == core_token(kind, path@),
{
    if kind == DefKind::Fn || kind == DefKind::Method {
        cat2("def:function:", path)
    } else {
        let mut token = cat2("def:", kind.variant_name());
        token.append(":");
        token.append(path);
        token
    }
}

/// The index told of a definition whose path is known.
pub open spec fn with_core_def(
    core: Core,
    def: u64,
    name: Seq<char>,
    kind: DefKind,
    path: Seq<char>,
    source: Option<Seq<char>>,
) -> Core {
    Core {
        index: core.index.with_def(def, name, kind, path, source),
        paths: core.paths.insert(def, path),
        ..core
    }
}

/// The index with a definition's visibility.
pub open spec fn with_public(core: Core, def: u64, public: bool) -> Core {
    Core {
        host: HostView { public: core.host.public.insert(def, public), ..core.host },
        index: if core.index.defs.contains_key(def) {
            CoreView {
                defs: core.index.defs.insert(
                    def,
                    crate::ra::core_index::CoreDefView {
                        is_public: Some(public),
                        ..core.index.defs[def]
                    },
                ),
                ..core.index
            }
        } else {
            core.index
        },
        ..core
    }
}

/// The index with whether a definition is test code.
pub open spec fn with_in_test(core: Core, def: u64, in_test: bool) -> Core {
    Core {
        host: HostView { in_test: core.host.in_test.insert(def, in_test), ..core.host },
        index: if core.index.defs.contains_key(def) {
            CoreView {
                defs: core.index.defs.insert(
                    def,
                    crate::ra::core_index::CoreDefView {
                        in_test: Some(in_test),
                        ..core.index.defs[def]
                    },
                ),
                ..core.index
            }
        } else {
            core.index
        },
        ..core
    }
}

/// The host told of a definition at a span.
pub open spec fn with_host_def(
    core: Core,
    def: u64,
    name: Seq<char>,
    kind: DefKind,
    span: u64,
    path: Seq<char>,
) -> Core {
    Core {
        host: HostView {
            defs: core.host.defs.insert(def, DefRecordView { name, kind, span, path }),
            ..core.host
        },
        ..core
    }
}

/// The index once a definition's place is told, where places are asked for;
/// nothing where it stands in no tracked file.
pub open spec fn with_core_place(core: Core, facts: CoreDefFacts) -> Option<Core> {
    let def = core_id(facts);
    let name = facts.name->0@;
    let kind = facts.kind->0;
    let path = core_path(facts);
    if core.asked.def_spans {
        match facts.loc {
            Some(loc) => match key_in_text(loc.rel_path@, loc.text@, loc.start, loc.end) {
                Some(key) => {
                    let span = span_id_of(loc.file_id, loc.start, loc.end);
                    Some(
                        with_host_def(
                            Core {
                                host: HostView {
                                    spans: core.host.spans.insert(span, key),
                                    ..core.host
                                },
                                index: CoreView {
                                    def_spans: core.index.def_spans.insert(def, span),
                                    spans: core.index.spans.insert(span, key),
                                    ..core.index
                                },
                                ..core
                            },
                            def,
                            name,
                            kind,
                            span,
                            path,
                        ),
                    )
                },
                None => None,
            },
            None => None,
        }
    } else {
        Some(with_host_def(core, def, name, kind, nowhere_span(def), path))
    }
}

/// The path of the file that a definition stands in.
pub open spec fn loc_path(loc: Option<SourceLoc>) -> Option<Seq<char>> {
    match loc {
        Some(loc) => Some(loc.rel_path@),
        None => None,
    }
}

/// The index once a definition has been told, and its id.
pub open spec fn core_registered(core: Core, facts: CoreDefFacts, in_test: bool) -> (
    Core,
    Option<u64>,
) {
    match (facts.name, facts.kind) {
        (Some(name), Some(kind)) => match with_core_place(core, facts) {
            Some(placed) => {
                let def = core_id(facts);
                let recorded = with_core_def(
                    placed,
                    def,
                    name@,
                    kind,
                    core_path(facts),
                    loc_path(facts.loc),
                );
                let keyed = match facts.function {
                    Some(function) => Core {
                        index: CoreView {
                            functions: recorded.index.functions.insert(def, function),
                            ..recorded.index
                        },
                        ..recorded
                    },
                    None => recorded,
                };
                let shown = if core.asked.def_publicity {
                    with_public(keyed, def, facts.is_public)
                } else {
                    keyed
                };
                (
                    if core.asked.def_test_flags {
                        with_in_test(shown, def, in_test || facts.in_test)
                    } else {
                        shown
                    },
                    Some(def),
                )
            },
            None => (core, None),
        },
        _ => (core, None),
    }
}

/// The index told of a definition that stands nowhere in the sources, unless its
/// path is known.
pub open spec fn with_synthetic(
    core: Core,
    def: u64,
    name: Seq<char>,
    kind: DefKind,
    path: Seq<char>,
    public: bool,
) -> Core {
    if core.paths.contains_key(def) {
        core
    } else {
        with_in_test(
            with_public(
                with_core_def(
                    with_host_def(core, def, name, kind, nowhere_span(def), path),
                    def,
                    name,
                    kind,
                    path,
                    None,
                ),
                def,
                public,
            ),
            def,
            false,
        )
    }
}

/// The path of a data type outside the tracked files.
pub open spec fn outer_path(facts: CoreDefFacts) -> Seq<char> {
    let raw = match facts.canonical {
        Some(path) => path@,
        None => "external::"@ + outer_name(facts),
    };
    function_path(raw, Some(raw), opt_text(facts.crate_name))
}

/// The name of a data type outside the tracked files.
pub open spec fn outer_name(facts: CoreDefFacts) -> Seq<char> {
    match facts.name {
        Some(name) => name@,
        None => "unknown"@,
    }
}

/// The index once a data type has been told, and its id: one outside the tracked
/// files is told as standing nowhere.
pub open spec fn adt_registered(core: Core, facts: CoreDefFacts) -> (Core, u64) {
    let (known, def) = core_registered(core, facts, false);
    match def {
        Some(def) => (known, def),
        None => {
            let path = outer_path(facts);
            let def = derived_id("def"@, "def:adt:"@ + path);
            (
                with_synthetic(
                    known,
                    def,
                    outer_name(facts),
                    match facts.kind {
                        Some(kind) => kind,
                        None => DefKind::Other,
                    },
                    path,
                    true,
                ),
                def,
            )
        },
    }
}

/// The index once a type parameter has been told, and its id.
pub open spec fn param_registered(core: Core, name: Seq<char>, key: Seq<char>) -> (Core, u64) {
    let path = "type_param::"@ + key + "::"@ + name;
    let def = derived_id("def"@, "def:type_param:"@ + path);
    (with_synthetic(core, def, name, DefKind::Other, path, false), def)
}

/// A type, as the database resolves it.
pub enum LoweredTy {
    Unknown,
    Reference { mutability: Mutability, inner: Box<LoweredTy> },
    RawPtr(Box<LoweredTy>),
    Tuple(Vec<LoweredTy>),
    Slice(Box<LoweredTy>),
    Param(String),
    Never,
    Builtin(String),
    Adt { def: CoreDefFacts, args: Vec<LoweredTy> },
    Other,
}

/// The files of the definitions in a type can be indexed.
pub open spec fn lowered_indexable(ty: LoweredTy) -> bool
    decreases ty,
{
    match ty {
        LoweredTy::Reference { inner, .. } => lowered_indexable(*inner),
        LoweredTy::RawPtr(inner) => lowered_indexable(*inner),
        LoweredTy::Slice(inner) => lowered_indexable(*inner),
        LoweredTy::Tuple(items) => forall|i: int|
            0 <= i < items@.len() ==> lowered_indexable(#[trigger] items@[i]),
        LoweredTy::Adt { def, args } => core_indexable(def) && forall|i: int|
            0 <= i < args@.len() ==> lowered_indexable(#[trigger] args@[i]),
        _ => true,
    }
}

/// The row of the type in parentheses, if row `i` is one in parentheses.
pub open spec fn without_parens(tree: Seq<SyntaxView>, i: int) -> int
    decreases tree.len() - i,
{
    if 0 <= i < tree.len() && tree[i].kind == "PAREN_TYPE"@ {
        match child(tree, i, Class::Type) {
            Some(j) => if i < j < tree.len() {
                without_parens(tree, j)
            } else {
                i
            },
            None => i,
        }
    } else {
        i
    }
}

/// The row of the written type, out of its parentheses.
pub open spec fn written(tree: Seq<SyntaxView>, source: Option<int>) -> Option<int> {
    match source {
        Some(i) => Some(without_parens(tree, i)),
        None => None,
    }
}

/// The row of the type inside the written one, if that is of the kind.
pub open spec fn written_inner(
    tree: Seq<SyntaxView>,
    source: Option<int>,
    kind: Seq<char>,
) -> Option<int> {
    match written(tree, source) {
        Some(i) => if tree[i].kind == kind {
            child(tree, i, Class::Type)
        } else {
            None
        },
        None => None,
    }
}

/// Whether the written pointer may be written through.
pub open spec fn written_mutability(tree: Seq<SyntaxView>, source: Option<int>) -> Mutability {
    match written(tree, source) {
        Some(i) => if tree[i].kind == "PTR_TYPE"@ && token_from(tree, i, i + 1, "MUT_KW"@)
            is Some {
            Mutability::Mut
        } else {
            Mutability::Shared
        },
        None => Mutability::Shared,
    }
}

/// The row of the `n`th child of the class of row `i`, from row `from` on.
pub open spec fn nth_child(
    tree: Seq<SyntaxView>,
    i: int,
    from: int,
    class: Class,
    n: nat,
) -> Option<int>
    decreases n,
{
    match child_from(tree, i, from, class) {
        Some(j) => if n == 0 {
            Some(j)
        } else {
            nth_child(tree, i, j + 1, class, (n - 1) as nat)
        },
        None => None,
    }
}

/// The row of item `n` of the written tuple.
pub open spec fn written_item(tree: Seq<SyntaxView>, source: Option<int>, n: nat) -> Option<int> {
    match written(tree, source) {
        Some(i) => if tree[i].kind == "TUPLE_TYPE"@ {
            nth_child(tree, i, i + 1, Class::Type, n)
        } else {
            None
        },
        None => None,
    }
}

/// The row of the list of generic arguments of the written path.
pub open spec fn written_args(tree: Seq<SyntaxView>, source: Option<int>) -> Option<int> {
    match written(tree, source) {
        Some(i) => if tree[i].kind == "PATH_TYPE"@ {
            match child(tree, i, Class::Path) {
                Some(path) => match child(tree, path, Class::PathSegment) {
                    Some(segment) => child(tree, segment, Class::GenericArgList),
                    None => None,
                },
                None => None,
            }
        } else {
            None
        },
        None => None,
    }
}

/// The row of the `n`th type among the type arguments of the list at row `i`,
/// from row `from` on.
pub open spec fn nth_type_arg(tree: Seq<SyntaxView>, i: int, from: int, n: nat) -> Option<int>
    decreases tree.len() - from,
{
    match child_from(tree, i, from, Class::TypeArg) {
        Some(j) => if from <= j < tree.len() {
            match child(tree, j, Class::Type) {
                Some(ty) => if n == 0 {
                    Some(ty)
                } else {
                    nth_type_arg(tree, i, j + 1, (n - 1) as nat)
                },
                None => nth_type_arg(tree, i, j + 1, n),
            }
        } else {
            None
        },
        None => None,
    }
}

/// The row of type argument `n` of the written path.
pub open spec fn written_arg(tree: Seq<SyntaxView>, source: Option<int>, n: nat) -> Option<int> {
    match written_args(tree, source) {
        Some(list) => nth_type_arg(tree, list, list + 1, n),
        None => None,
    }
}

/// The id of a type under a key.
pub open spec fn lowered_id(key: Seq<char>) -> u64 {
    derived_id("typeref"@, "ty:"@ + key)
}

/// The index once the parts of a type have been told, and how the type is built.
pub open spec fn lowered_shape(
    core: Core,
    key: Seq<char>,
    ty: LoweredTy,
    tree: Seq<SyntaxView>,
    source: Option<int>,
) -> (Core, ShapeView)
    decreases ty, 0nat,
{
    match ty {
        LoweredTy::Unknown => (core, ShapeView::Unknown),
        LoweredTy::Reference { mutability, inner } => (
            with_lowered(
                core,
                key + "/ref"@,
                *inner,
                tree,
                written_inner(tree, source, "REF_TYPE"@),
            ),
            ShapeView::Ref { mutability, inner: lowered_id(key + "/ref"@) },
        ),
        LoweredTy::RawPtr(inner) => (
            with_lowered(
                core,
                key + "/ptr"@,
                *inner,
                tree,
                written_inner(tree, source, "PTR_TYPE"@),
            ),
            ShapeView::Ptr {
                mutability: written_mutability(tree, source),
                inner: lowered_id(key + "/ptr"@),
            },
        ),
        LoweredTy::Tuple(items) => (
            with_lowered_items(core, key + "/tuple/"@, items, tree, source, false, items@.len()),
            ShapeView::Tuple(lowered_ids(key + "/tuple/"@, items@.len())),
        ),
        LoweredTy::Slice(inner) => (
            with_lowered(
                core,
                key + "/slice"@,
                *inner,
                tree,
                written_inner(tree, source, "SLICE_TYPE"@),
            ),
            ShapeView::Slice(lowered_id(key + "/slice"@)),
        ),
        LoweredTy::Param(name) => {
            let (told, def) = param_registered(core, name@, key);
            (told, ShapeView::Param(def))
        },
        LoweredTy::Never => (core, ShapeView::Prim("!"@)),
        LoweredTy::Builtin(name) => (core, ShapeView::Prim(name@)),
        LoweredTy::Adt { def, args } => {
            let (known, head) = adt_registered(core, def);
            (
                with_lowered_items(known, key + "/arg/"@, args, tree, source, true, args@.len()),
                ShapeView::App {
                    head,
                    args: as_args(lowered_ids(key + "/arg/"@, args@.len())),
                },
            )
        },
        LoweredTy::Other => (core, ShapeView::Unknown),
    }
}

/// The ids of the parts of a type under numbered keys.
pub open spec fn lowered_ids(prefix: Seq<char>, count: nat) -> Seq<u64> {
    Seq::new(count, |i: int| lowered_id(prefix + decimal(i as nat)))
}

/// The index once the first `count` parts of a type have been told, each under
/// its number; the parts are type arguments or items of a tuple.
pub open spec fn with_lowered_items(
    core: Core,
    prefix: Seq<char>,
    types: Vec<LoweredTy>,
    tree: Seq<SyntaxView>,
    source: Option<int>,
    are_args: bool,
    count: nat,
) -> Core
    decreases types, count,
{
    if count == 0 || count > types@.len() {
        core
    } else {
        let n = (count - 1) as nat;
        with_lowered(
            with_lowered_items(core, prefix, types, tree, source, are_args, n),
            prefix + decimal(n),
            types[n as int],
            tree,
            if are_args {
                written_arg(tree, source, n)
            } else {
                written_item(tree, source, n)
            },
        )
    }
}

/// The index once a type has been told under a key.
pub open spec fn with_lowered(
    core: Core,
    key: Seq<char>,
    ty: LoweredTy,
    tree: Seq<SyntaxView>,
    source: Option<int>,
) -> Core
    decreases ty, 1nat,
{
    let (told, shape) = lowered_shape(core, key, ty, tree, source);
    Core { host: with_type(told.host, lowered_id(key), shape), ..told }
}

/// A row as a number.
pub open spec fn opt_row(row: Option<usize>) -> Option<int> {
    match row {
        Some(row) => Some(row as int),
        None => None,
    }
}

/// The row, if there is one, is of the tree.
pub open spec fn row_in(row: Option<usize>, tree: Seq<SyntaxRow>) -> bool {
    match row {
        Some(row) => row < tree.len(),
        None => true,
    }
}

/// The row of the written type, out of its parentheses.
pub fn normalize_type_ast(tree: &Vec<SyntaxRow>, source: usize) -> (r: usize)
    requires
        source < tree.len(),
    ensures
        r < tree.len(),
        r == without_parens(tree_view(tree@), source as int),
    decreases tree.len() - source,
{
    assert(tree_view(tree@)[source as int] == tree@[source as int]@);
    if str_eq(tree[source].kind.as_str(), "PAREN_TYPE") {
        match first_child(tree, source, Class::Type) {
            Some(inner) => normalize_type_ast(tree, inner),
            None => source,
        }
    } else {
        source
    }
}

/// The row of the written type, out of its parentheses.
fn written_row(tree: &Vec<SyntaxRow>, source: Option<usize>) -> (r: Option<usize>)
    requires
        row_in(source, tree@),
    ensures
        row_in(r, tree@),
        opt_row(r) == written(tree_view(tree@), opt_row(source)),
{
    match source {
        Some(source) => Some(normalize_type_ast(tree, source)),
        None => None,
    }
}

/// The row of the type inside the written one, if that is of the kind.
fn written_inner_row(tree: &Vec<SyntaxRow>, source: Option<usize>, kind: &str) -> (r: Option<usize>)
    requires
        row_in(source, tree@),
    ensures
        row_in(r, tree@),
        opt_row(r) == written_inner(tree_view(tree@), opt_row(source), kind@),
{
    match written_row(tree, source) {
        Some(i) => {
            assert(tree_view(tree@)[i as int] == tree@[i as int]@);
            if str_eq(tree[i].kind.as_str(), kind) {
                first_child(tree, i, Class::Type)
            } else {
                None
            }
        },
        None => None,
    }
}

/// Whether the written pointer may be written through.
fn ptr_mutability(tree: &Vec<SyntaxRow>, source: Option<usize>) -> (r: Mutability)
    requires
        row_in(source, tree@),
    ensures
        r == written_mutability(tree_view(tree@), opt_row(source)),
{
    match written_row(tree, source) {
        Some(i) => {
            assert(tree_view(tree@)[i as int] == tree@[i as int]@);
            if str_eq(tree[i].kind.as_str(), "PTR_TYPE") && first_token(
                tree,
                i,
                "MUT_KW",
            ).is_some() {
                Mutability::Mut
            } else {
                Mutability::Shared
            }
        },
        None => Mutability::Shared,
    }
}

/// The row of item `n` of the written tuple.
fn written_item_row(tree: &Vec<SyntaxRow>, source: Option<usize>, n: usize) -> (r: Option<usize>)
    requires
        row_in(source, tree@),
    ensures
        row_in(r, tree@),
        opt_row(r) == written_item(tree_view(tree@), opt_row(source), n as nat),
{
    let ghost view = tree_view(tree@);
    let i = match written_row(tree, source) {
        Some(i) => i,
        None => {
            return None;
        },
    };
    assert(view[i as int] == tree@[i as int]@);
    if !str_eq(tree[i].kind.as_str(), "TUPLE_TYPE") {
        return None;
    }
    assert(i < tree.len());
    let mut left: usize = n;
    let mut from: usize = i + 1;
    loop
        invariant
            view == tree_view(tree@),
            i < from <= tree.len(),
            i < tree.len(),
            nth_child(view, i as int, i + 1, Class::Type, n as nat) == nth_child(
                view,
                i as int,
                from as int,
                Class::Type,
                left as nat,
            ),
            written_item(view, opt_row(source), n as nat) == nth_child(
                view,
                i as int,
                i + 1,
                Class::Type,
                n as nat,
            ),
        decreases tree.len() - from,
    {
        match next_child(tree, i, from, Class::Type) {
            Some(j) => {
                if left == 0 {
                    return Some(j);
                }
                left -= 1;
                from = j + 1;
            },
            None => {
                return None;
            },
        }
    }
}

/// The row of type argument `n` of the written path.
fn written_arg_row(tree: &Vec<SyntaxRow>, source: Option<usize>, n: usize) -> (r: Option<usize>)
    requires
        row_in(source, tree@),
    ensures
        row_in(r, tree@),
        opt_row(r) == written_arg(tree_view(tree@), opt_row(source), n as nat),
{
    let ghost view = tree_view(tree@);
    let i = match written_row(tree, source) {
        Some(i) => i,
        None => {
            return None;
        },
    };
    assert(view[i as int] == tree@[i as int]@);
    if !str_eq(tree[i].kind.as_str(), "PATH_TYPE") {
        return None;
    }
    let list = match first_child(tree, i, Class::Path) {
        Some(path) => match first_child(tree, path, Class::PathSegment) {
            Some(segment) => match first_child(tree, segment, Class::GenericArgList) {
                Some(list) => list,
                None => {
                    return None;
                },
            },
            None => {
                return None;
            },
        },
        None => {
            return None;
        },
    };
    let mut left: usize = n;
    let mut from: usize = list + 1;
    loop
        invariant
            view == tree_view(tree@),
            list < from <= tree.len(),
            list < tree.len(),
            nth_type_arg(view, list as int, list + 1, n as nat) == nth_type_arg(
                view,
                list as int,
                from as int,
                left as nat,
            ),
            written_arg(view, opt_row(source), n as nat) == nth_type_arg(
                view,
                list as int,
                list + 1,
                n as nat,
            ),
        decreases tree.len() - from,
    {
        match next_child(tree, list, from, Class::TypeArg) {
            Some(j) => {
                match first_child(tree, j, Class::Type) {
                    Some(ty) => {
                        if left == 0 {
                            return Some(ty);
                        }
                        left -= 1;
                    },
                    None => {},
                }
                from = j + 1;
            },
            None => {
                return None;
            },
        }
    }
}

impl CoreFactsBuilder {
    /// The maps are in order.
    pub closed spec fn wf(&self) -> bool {
        self.host.wf() && self.core_index.wf() && self.paths.wf()
    }

    /// An index of nothing.
    pub fn new(build_spec: CoreHostBuildSpec) -> (r: Self)
        ensures
            r.wf(),
            r@ == (Core {
                host: HostView::fresh(),
                index: CoreView {
                    defs: Map::empty(),
                    functions: Map::empty(),
                    def_spans: Map::empty(),
                    spans: Map::empty(),
                },
                paths: Map::empty(),
                asked: build_spec,
            }),
    {
        CoreFactsBuilder {
            host: DeterministicRaHost::new(),
            core_index: CoreLookupIndex::new(),
            paths: IdMap::new(),
            build_spec,
        }
    }

    /// What the fields say of the whole.
    pub(crate) proof fn lemma_parts(&self)
        ensures
            self@.host == self.host@,
            self@.index == self.core_index@,
            self@.paths == self.paths@,
            self@.asked == self.build_spec,
            self.wf() == (self.host.wf() && self.core_index.wf() && self.paths.wf()),
    {
    }

    /// Tells a definition whose path is known.
    pub fn record_core_def(
        &mut self,
        def: DefId,
        name: &str,
        kind: DefKind,
        path: &str,
        source: Option<&str>,
    )
        requires
            old(self).wf(),
        ensures
            final(self).wf(),
            final(self)@ == with_core_def(
                old(self)@,
                def@,
                name@,
                kind,
                path@,
                crate::ra::core_index::opt_str(source),
            ),
    {
        self.paths.insert(def.stable_id().as_u64(), owned(path));
        self.core_index.record_def(def, name, kind, path, source);
    }

    pub(crate) fn mark_public(&mut self, def: DefId, public: bool)
        requires
            old(self).wf(),
        ensures
            final(self).wf(),
            final(self)@ == with_public(old(self)@, def@, public),
    {
        self.host.mark_public(def, public);
        self.core_index.mark_public(def, public);
    }

    pub(crate) fn mark_in_test(&mut self, def: DefId, in_test: bool)
        requires
            old(self).wf(),
        ensures
            final(self).wf(),
            final(self)@ == with_in_test(old(self)@, def@, in_test),
    {
        self.host.mark_in_test(def, in_test);
        self.core_index.mark_in_test(def, in_test);
    }

    /// Tells a definition's place, where places are asked for.
    fn place_def(
        &mut self,
        facts: &CoreDefFacts,
        def: DefId,
        name: &str,
        kind: DefKind,
        path: &str,
    ) -> (r: bool)
        requires
            old(self).wf(),
            core_indexable(*facts),
            facts.name is Some,
            facts.kind is Some,
            name@ == facts.name->0@,
            kind == facts.kind->0,
            path@ == core_path(*facts),
            def@ == core_id(*facts),
        ensures
            final(self).wf(),
            r == (with_core_place(old(self)@, *facts) is Some),
            final(self)@ == match with_core_place(old(self)@, *facts) {
                Some(core) => core,
                None => old(self)@,
            },
    {
        if self.build_spec.def_spans {
            let loc = match &facts.loc {
                Some(loc) => loc,
                None => {
                    return false;
                },
            };
            let key = match lookup_span_key_from_text(
                loc.rel_path.as_str(),
                loc.text.as_str(),
                loc.start,
                loc.end,
            ) {
                Some(key) => key,
                None => {
                    return false;
                },
            };
            match self.host.intern_span_from_text(
                loc.file_id,
                loc.rel_path.as_str(),
                loc.text.as_str(),
                loc.start,
                loc.end,
            ) {
                Ok(span) => {
                    self.core_index.record_span(def, span, key);
                    self.host.insert_def(def, name, kind, span, path);
                    true
                },
                Err(_) => false,
            }
        } else {
            self.host.insert_def(def, name, kind, fallback_def_span(def), path);
            true
        }
    }

    /// Tells a definition.
    pub fn register_module_def(&mut self, facts: &CoreDefFacts, in_test: bool) -> (r: Option<DefId>)
        requires
            old(self).wf(),
            core_indexable(*facts),
        ensures
            final(self).wf(),
            (final(self)@, opt_def(r)) == core_registered(old(self)@, *facts, in_test),
    {
        let (name, kind) = match (&facts.name, facts.kind) {
            (Some(name), Some(kind)) => (name.as_str(), kind),
            _ => {
                return None;
            },
        };
        let path = core_path_of(facts, name, kind);
        let token = core_token_of(kind, path.as_str());
        let def = self.host.intern_def_from_token(token.as_str());
        if !self.place_def(facts, def, name, kind, path.as_str()) {
            return None;
        }
        let source = match &facts.loc {
            Some(loc) => Some(loc.rel_path.as_str()),
            None => None,
        };
        self.record_core_def(def, name, kind, path.as_str(), source);
        match facts.function {
            Some(function) => {
                self.core_index.record_function(def, function);
            },
            None => {},
        }
        if self.build_spec.def_publicity {
            self.mark_public(def, facts.is_public);
        }
        if self.build_spec.def_test_flags {
            self.mark_in_test(def, in_test || facts.in_test);
        }
        Some(def)
    }

    /// Tells a definition that stands nowhere in the sources, unless its path is
    /// known.
    fn ensure_synthetic(&mut self, def: DefId, name: &str, kind: DefKind, path: &str, public: bool)
        requires
            old(self).wf(),
        ensures
            final(self).wf(),
            final(self)@ == with_synthetic(old(self)@, def@, name@, kind, path@, public),
    {
        if self.paths.contains(def.stable_id().as_u64()) {
            return;
        }
        self.host.insert_def(def, name, kind, fallback_def_span(def), path);
        self.record_core_def(def, name, kind, path, None);
        self.mark_public(def, public);
        self.mark_in_test(def, false);
    }

    /// Tells a data type.
    pub fn register_adt_def(&mut self, facts: &CoreDefFacts) -> (r: DefId)
        requires
            old(self).wf(),
            core_indexable(*facts),
        ensures
            final(self).wf(),
            (final(self)@, r@) == adt_registered(old(self)@, *facts),
    {
        match self.register_module_def(facts, false) {
            Some(def) => {
                return def;
            },
            None => {},
        }
        let name = match &facts.name {
            Some(name) => owned(name.as_str()),
            None => owned("unknown"),
        };
        let raw = match &facts.canonical {
            Some(path) => owned(path.as_str()),
            None => cat2("external::", name.as_str()),
        };
        let crate_name = match &facts.crate_name {
            Some(name) => Some(name.as_str()),
            None => None,
        };
        let path = canonical_function_path(raw.as_str(), Some(raw.as_str()), crate_name);
        let def = self.host.intern_def_from_token(cat2("def:adt:", path.as_str()).as_str());
        let kind = match facts.kind {
            Some(kind) => kind,
            None => DefKind::Other,
        };
        self.ensure_synthetic(def, name.as_str(), kind, path.as_str(), true);
        def
    }

    /// Tells a type parameter.
    pub fn register_type_param_def(&mut self, name: &str, key: &str) -> (r: DefId)
        requires
            old(self).wf(),
        ensures
            final(self).wf(),
            (final(self)@, r@) == param_registered(old(self)@, name@, key@),
    {
        let mut path = cat2("type_param::", key);
        path.append("::");
        path.append(name);
        let def = self.host.intern_def_from_token(
            cat2("def:type_param:", path.as_str()).as_str(),
        );
        self.ensure_synthetic(def, name, DefKind::Other, path.as_str(), false);
        def
    }

    /// The id of a type under a key.
    fn type_under(&self, key: &str) -> (r: TypeRefId)
        ensures
            r@ == lowered_id(key@),
    {
        self.host.intern_typeref_from_token(cat2("ty:", key).as_str())
    }

    /// Tells a type under a key. `source` is the row of the type as it is
    /// written, if it is.
    pub fn lower_type(
        &mut self,
        key: &str,
        ty: &LoweredTy,
        tree: &Vec<SyntaxRow>,
        source: Option<usize>,
    ) -> (r: TypeRefId)
        requires
            old(self).wf(),
            lowered_indexable(*ty),
            row_in(source, tree@),
        ensures
            final(self).wf(),
            r@ == lowered_id(key@),
            final(self)@ == with_lowered(
                old(self)@,
                key@,
                *ty,
                tree_view(tree@),
                opt_row(source),
            ),
        decreases ty, 1nat,
    {
        let id = self.type_under(key);
        let shape = self.lower_shape(key, ty, tree, source);
        self.host.insert_type(id, shape);
        id
    }

    /// Tells the parts of a type, and how the type is built.
    fn lower_shape(
        &mut self,
        key: &str,
        ty: &LoweredTy,
        tree: &Vec<SyntaxRow>,
        source: Option<usize>,
    ) -> (r: TypeShape)
        requires
            old(self).wf(),
            lowered_indexable(*ty),
            row_in(source, tree@),
        ensures
            final(self).wf(),
            (final(self)@, r@) == lowered_shape(
                old(self)@,
                key@,
                *ty,
                tree_view(tree@),
                opt_row(source),
            ),
        decreases ty, 0nat,
    {
        match ty {
            LoweredTy::Unknown => TypeShape::Unknown,
            LoweredTy::Reference { mutability, inner } => {
                let written = written_inner_row(tree, source, "REF_TYPE");
                let id = self.lower_type(cat2(key, "/ref").as_str(), inner, tree, written);
                TypeShape::Ref { mutability: *mutability, inner: id }
            },
            LoweredTy::RawPtr(inner) => {
                let written = written_inner_row(tree, source, "PTR_TYPE");
                let mutability = ptr_mutability(tree, source);
                let id = self.lower_type(cat2(key, "/ptr").as_str(), inner, tree, written);
                TypeShape::Ptr { mutability, inner: id }
            },
            LoweredTy::Tuple(items) => {
                let prefix = cat2(key, "/tuple/");
                let ids = self.lower_items(prefix.as_str(), items, tree, source, false);
                TypeShape::Tuple(ids)
            },
            LoweredTy::Slice(inner) => {
                let written = written_inner_row(tree, source, "SLICE_TYPE");
                let id = self.lower_type(cat2(key, "/slice").as_str(), inner, tree, written);
                TypeShape::Slice(id)
            },
            LoweredTy::Param(name) => {
                let def = self.register_type_param_def(name.as_str(), key);
                TypeShape::Param(def)
            },
            LoweredTy::Never => TypeShape::Prim(owned("!")),
            LoweredTy::Builtin(name) => TypeShape::Prim(owned(name.as_str())),
            LoweredTy::Adt { def, args } => {
                let head = self.register_adt_def(def);
                let prefix = cat2(key, "/arg/");
                let ids = self.lower_items(prefix.as_str(), args, tree, source, true);
                TypeShape::App { head, args: args_of_ids(&ids) }
            },
            LoweredTy::Other => TypeShape::Unknown,
        }
    }

    /// Tells the parts of a type, each under its number.
    fn lower_items(
        &mut self,
        prefix: &str,
        types: &Vec<LoweredTy>,
        tree: &Vec<SyntaxRow>,
        source: Option<usize>,
        are_args: bool,
    ) -> (r: Vec<TypeRefId>)
        requires
            old(self).wf(),
            forall|i: int| 0 <= i < types@.len() ==> lowered_indexable(#[trigger] types@[i]),
            row_in(source, tree@),
        ensures
            final(self).wf(),
            type_ids(r@) == lowered_ids(prefix@, types@.len()),
            final(self)@ == with_lowered_items(
                old(self)@,
                prefix@,
                *types,
                tree_view(tree@),
                opt_row(source),
                are_args,
                types@.len(),
            ),
        decreases types, 0nat,
    {
        let ghost start = self@;
        let ghost view = tree_view(tree@);
        let mut out: Vec<TypeRefId> = Vec::new();
        let mut i: usize = 0;
        while i < types.len()
            invariant
                self.wf(),
                start == old(self)@,
                view == tree_view(tree@),
                forall|k: int| 0 <= k < types@.len() ==> lowered_indexable(#[trigger] types@[k]),
                row_in(source, tree@),
                i <= types@.len(),
                out@.len() == i,
                forall|k: int|
                    0 <= k < i ==> (#[trigger] out@[k])@ == lowered_id(
                        prefix@ + decimal(k as nat),
                    ),
                self@ == with_lowered_items(
                    start,
                    prefix@,
                    *types,
                    view,
                    opt_row(source),
                    are_args,
                    i as nat,
                ),
            decreases types.len() - i,
        {
            assert(decreases_to!(*types => types[i as int]));
            let key = cat2(prefix, decimal_of_size(i).as_str());
            let written = if are_args {
                written_arg_row(tree, source, i)
            } else {
                written_item_row(tree, source, i)
            };
            let id = self.lower_type(key.as_str(), &types[i], tree, written);
            out.push(id);
            i += 1;
        }
        assert(type_ids(out@) =~= lowered_ids(prefix@, types@.len()));
        out
    }
}

/// Types as generic arguments.
fn args_of_ids(ids: &Vec<TypeRefId>) -> (r: Vec<GenericArg>)
    ensures
        arg_views(r@) == as_args(type_ids(ids@)),
{
    let mut out: Vec<GenericArg> = Vec::new();
    let mut i: usize = 0;
    while i < ids.len()
        invariant
            i <= ids@.len(),
            out@.len() == i,
            forall|k: int|
                0 <= k < i ==> (#[trigger] out@[k])@ == GenericArgView::Type(ids@[k]@),
        decreases ids.len() - i,
    {
        out.push(GenericArg::Type(ids[i]));
        i += 1;
    }
    assert(arg_views(out@) =~= as_args(type_ids(ids@)));
    out
}

} // verus!
