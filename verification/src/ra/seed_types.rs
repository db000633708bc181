//! Reading names, paths and types off the syntax tree.

use crate::host::{derived_id, DefId, SpanId, TypeRefId};
use crate::ra::host::{opt_def, DefRecordView, DeterministicRaHost, HostView};
use crate::ra::kinds::{DefKind, Mutability};
use crate::ra::rows::opt_text;
use crate::ra::shapes::{
    arg_views, type_ids, GenericArg, GenericArgView, ShapeView, TypeShape,
};
use crate::ra::source::{place_text, place_to_text};
use crate::ra::syntax::{
    child, child_from, first_child, first_token, next_child, token_from, tree_view, Class,
    SyntaxRow, SyntaxView,
};
use crate::search::{contains_text, occurs, path_tail, tail_of_path};
use crate::text::{cat2, joined, join_strings, owned, str_eq, texts};
use vstd::prelude::*;

verus! {

/// The text of the name below row `i`.
pub open spec fn name_at(tree: Seq<SyntaxView>, i: int) -> Option<Seq<char>> {
    match child(tree, i, Class::Name) {
        Some(j) => Some(tree[j].text),
        None => None,
    }
}

/// The text of the name reference below row `i`.
pub open spec fn name_ref_at(tree: Seq<SyntaxView>, i: int) -> Option<Seq<char>> {
    match child(tree, i, Class::NameRef) {
        Some(j) => Some(tree[j].text),
        None => None,
    }
}

/// An attribute of row `i`, among the rows from `from` on, speaks of tests.
pub open spec fn attrs_mention_test(tree: Seq<SyntaxView>, i: int, from: int) -> bool
    decreases tree.len() - from,
{
    match child_from(tree, i, from, Class::Attr) {
        Some(j) => if from <= j < tree.len() {
            occurs(tree[j].text, "test"@) || attrs_mention_test(tree, i, j + 1)
        } else {
            false
        },
        None => false,
    }
}

/// An attribute of row `i` speaks of tests.
pub open spec fn mentions_test(tree: Seq<SyntaxView>, i: int) -> bool {
    attrs_mention_test(tree, i, i + 1)
}

/// Row `i` has a visibility.
pub open spec fn is_public(tree: Seq<SyntaxView>, i: int) -> bool {
    child(tree, i, Class::Visibility) is Some
}

/// The name of the segment of the path at row `i`.
pub open spec fn segment_name(tree: Seq<SyntaxView>, i: int) -> Option<Seq<char>> {
    match child(tree, i, Class::PathSegment) {
        Some(segment) => name_ref_at(tree, segment),
        None => None,
    }
}

/// The names of the path at row `i`, qualifiers first.
pub open spec fn path_names(tree: Seq<SyntaxView>, i: int) -> Seq<Seq<char>>
    decreases tree.len() - i,
{
    let before = match child(tree, i, Class::Path) {
        Some(qualifier) => if i < qualifier < tree.len() {
            path_names(tree, qualifier)
        } else {
            Seq::empty()
        },
        None => Seq::empty(),
    };
    match segment_name(tree, i) {
        Some(name) => before.push(name),
        None => before,
    }
}

/// The path at row `i` as text.
pub open spec fn path_at(tree: Seq<SyntaxView>, i: int) -> Seq<char> {
    let names = path_names(tree, i);
    if names.len() == 0 {
        "unknown"@
    } else {
        joined(names, "::"@)
    }
}

/// The path of the path type at row `i`, and its list of generic arguments.
#[verifier::opaque]
pub open spec fn path_type_at(tree: Seq<SyntaxView>, i: int) -> Option<(Seq<char>, Option<int>)> {
    match child(tree, i, Class::Path) {
        Some(path) => match child(tree, path, Class::PathSegment) {
            Some(segment) => Some(
                (path_at(tree, path), child(tree, segment, Class::GenericArgList)),
            ),
            None => None,
        },
        None => None,
    }
}

/// The names of primitive types.
#[verifier::opaque]
pub open spec fn primitive_names() -> Seq<Seq<char>> {
    seq![
        "i8"@,
        "i16"@,
        "i32"@,
        "i64"@,
        "i128"@,
        "isize"@,
        "u8"@,
        "u16"@,
        "u32"@,
        "u64"@,
        "u128"@,
        "usize"@,
        "f32"@,
        "f64"@,
        "bool"@,
        "char"@,
        "str"@,
        "String"@,
    ]
}

/// A character of a type parameter's name.
pub open spec fn is_param_char(c: char) -> bool {
    ('A' <= c && c <= 'Z') || c == '_' || ('0' <= c && c <= '9')
}

/// The path looks like a type parameter.
#[verifier::opaque]
pub open spec fn looks_like_param(path: Seq<char>) -> bool {
    !occurs(path, "::"@) && forall|i: int| 0 <= i < path.len() ==> is_param_char(#[trigger] path[i])
}

/// The id of the type at a row.
pub open spec fn type_id(rel_path: Seq<char>, row: SyntaxView) -> u64 {
    derived_id("typeref"@, "type:"@ + place_text(rel_path, row.start, row.end))
}

/// The type at a reference or pointer is written through.
pub open spec fn mutability_at(tree: Seq<SyntaxView>, i: int) -> Mutability {
    if token_from(tree, i, i + 1, "MUT_KW"@) is Some {
        Mutability::Mut
    } else {
        Mutability::Shared
    }
}

/// The index with a shape for a type.
pub open spec fn with_type(host: HostView, type_ref: u64, shape: ShapeView) -> HostView {
    HostView { types: host.types.insert(type_ref, shape), ..host }
}

/// The span of a definition that stands nowhere in the sources.
pub open spec fn nowhere_span(def: u64) -> u64 {
    derived_id("def_span"@, crate::ir::stable_id_text(def))
}

/// The index with a definition, unless it has one.
pub open spec fn with_new_def(
    host: HostView,
    def: u64,
    name: Seq<char>,
    kind: DefKind,
    path: Seq<char>,
) -> HostView {
    if host.defs.contains_key(def) {
        host
    } else {
        HostView {
            defs: host.defs.insert(
                def,
                DefRecordView { name, kind, span: nowhere_span(def), path },
            ),
            ..host
        }
    }
}

/// The id of the definition of a type parameter.
pub open spec fn param_id(path: Seq<char>) -> u64 {
    derived_id("def"@, "type-param:"@ + path)
}

/// The id of the definition that a type path names.
pub open spec fn head_id(path: Seq<char>) -> u64 {
    derived_id("def"@, "type-head:"@ + path)
}

/// The type arguments of the list at row `i`, from row `from` on.
pub open spec fn type_arg_ids(
    tree: Seq<SyntaxView>,
    rel_path: Seq<char>,
    i: int,
    from: int,
) -> Seq<GenericArgView>
    decreases tree.len() - from,
{
    match child_from(tree, i, from, Class::TypeArg) {
        Some(j) => if from <= j < tree.len() {
            let rest = type_arg_ids(tree, rel_path, i, j + 1);
            match child(tree, j, Class::Type) {
                Some(ty) => seq![GenericArgView::Type(type_id(rel_path, tree[ty]))] + rest,
                None => rest,
            }
        } else {
            Seq::empty()
        },
        None => Seq::empty(),
    }
}

/// The items of the tuple type at row `i`, from row `from` on.
pub open spec fn tuple_ids(
    tree: Seq<SyntaxView>,
    rel_path: Seq<char>,
    i: int,
    from: int,
) -> Seq<u64>
    decreases tree.len() - from,
{
    match child_from(tree, i, from, Class::Type) {
        Some(j) => if from <= j < tree.len() {
            seq![type_id(rel_path, tree[j])] + tuple_ids(tree, rel_path, i, j + 1)
        } else {
            Seq::empty()
        },
        None => Seq::empty(),
    }
}

/// The index told of the types below row `i`, from row `from` on, that are of
/// the class or the type of a node of the class.
pub open spec fn with_types_below(
    tree: Seq<SyntaxView>,
    rel_path: Seq<char>,
    host: HostView,
    i: int,
    from: int,
    class: Class,
) -> HostView
    decreases tree.len() - from, 1nat,
{
    match child_from(tree, i, from, class) {
        Some(j) => if from <= j < tree.len() {
            let place = if class is Type {
                Some(j)
            } else {
                child(tree, j, Class::Type)
            };
            let told = match place {
                Some(ty) => if from <= ty < tree.len() {
                    with_type_at(tree, rel_path, host, ty)
                } else {
                    host
                },
                None => host,
            };
            with_types_below(tree, rel_path, told, i, j + 1, class)
        } else {
            host
        },
        None => host,
    }
}

/// The index told of the type at row `i`.
pub open spec fn with_type_at(
    tree: Seq<SyntaxView>,
    rel_path: Seq<char>,
    host: HostView,
    i: int,
) -> HostView
    decreases tree.len() - i, 0nat,
{
    let id = type_id(rel_path, tree[i]);
    let kind = tree[i].kind;
    if kind == "PATH_TYPE"@ {
        match path_type_at(tree, i) {
            Some((path, list)) => if primitive_names().contains(path) {
                with_type(host, id, ShapeView::Prim(path))
            } else if looks_like_param(path) {
                with_type(
                    with_new_def(
                        host,
                        param_id(path),
                        path,
                        DefKind::AssocType,
                        "type_param::"@ + path,
                    ),
                    id,
                    ShapeView::Param(param_id(path)),
                )
            } else {
                let named = with_new_def(
                    host,
                    head_id(path),
                    path_tail(path),
                    DefKind::Other,
                    path,
                );
                let head = head_id(path);
                match list {
                    Some(list) => if i < list < tree.len() {
                        with_type(
                            with_types_below(
                                tree,
                                rel_path,
                                named,
                                list,
                                list + 1,
                                Class::TypeArg,
                            ),
                            id,
                            ShapeView::App {
                                head,
                                args: type_arg_ids(tree, rel_path, list, list + 1),
                            },
                        )
                    } else {
                        host
                    },
                    None => with_type(named, id, ShapeView::App { head, args: Seq::empty() }),
                }
            },
            None => with_type(host, id, ShapeView::Unknown),
        }
    } else if kind == "TUPLE_TYPE"@ {
        if 0 <= i < tree.len() {
            with_type(
                with_types_below(tree, rel_path, host, i, i + 1, Class::Type),
                id,
                ShapeView::Tuple(tuple_ids(tree, rel_path, i, i + 1)),
            )
        } else {
            host
        }
    } else if kind == "REF_TYPE"@ || kind == "PTR_TYPE"@ || kind == "SLICE_TYPE"@ {
        match child(tree, i, Class::Type) {
            Some(j) => if i < j < tree.len() {
                let inner = type_id(rel_path, tree[j]);
                let shape = if kind == "REF_TYPE"@ {
                    ShapeView::Ref { mutability: mutability_at(tree, i), inner }
                } else if kind == "PTR_TYPE"@ {
                    ShapeView::Ptr { mutability: mutability_at(tree, i), inner }
                } else {
                    ShapeView::Slice(inner)
                };
                with_type(with_type_at(tree, rel_path, host, j), id, shape)
            } else {
                host
            },
            None => with_type(host, id, ShapeView::Unknown),
        }
    } else {
        with_type(host, id, ShapeView::Unknown)
    }
}

/// The text of the name below row `i`.
pub fn ast_name(tree: &Vec<SyntaxRow>, i: usize) -> (r: Option<String>)
    requires
        i < tree.len(),
    ensures
        opt_text(r) == name_at(tree_view(tree@), i as int),
{
    match first_child(tree, i, Class::Name) {
        Some(j) => Some(owned(tree[j].text.as_str())),
        None => None,
    }
}

/// The text of the name reference below row `i`.
pub fn ast_name_ref(tree: &Vec<SyntaxRow>, i: usize) -> (r: Option<String>)
    requires
        i < tree.len(),
    ensures
        opt_text(r) == name_ref_at(tree_view(tree@), i as int),
{
    match first_child(tree, i, Class::NameRef) {
        Some(j) => Some(owned(tree[j].text.as_str())),
        None => None,
    }
}

/// Whether row `i` has a visibility.
pub fn ast_is_public(tree: &Vec<SyntaxRow>, i: usize) -> (r: bool)
    requires
        i < tree.len(),
    ensures
        r == is_public(tree_view(tree@), i as int),
{
    first_child(tree, i, Class::Visibility).is_some()
}

/// Whether an attribute of row `i` speaks of tests.
pub fn ast_mentions_test(tree: &Vec<SyntaxRow>, i: usize) -> (r: bool)
    requires
        i < tree.len(),
    ensures
        r == mentions_test(tree_view(tree@), i as int),
{
    let ghost view = tree_view(tree@);
    let mut from: usize = i + 1;
    loop
        invariant
            view == tree_view(tree@),
            i < from <= tree.len(),
            mentions_test(view, i as int) == attrs_mention_test(view, i as int, from as int),
        decreases tree.len() - from,
    {
        match next_child(tree, i, from, Class::Attr) {
            Some(j) => {
                assert(view[j as int] == tree@[j as int]@);
                if contains_text(tree[j].text.as_str(), "test") {
                    return true;
                }
                from = j + 1;
            },
            None => {
                return false;
            },
        }
    }
}

/// The name of the segment of the path at row `i`.
fn segment_name_of(tree: &Vec<SyntaxRow>, i: usize) -> (r: Option<String>)
    requires
        i < tree.len(),
    ensures
        opt_text(r) == segment_name(tree_view(tree@), i as int),
{
    match first_child(tree, i, Class::PathSegment) {
        Some(segment) => ast_name_ref(tree, segment),
        None => None,
    }
}

/// The names of the path at row `i`, qualifiers first.
pub fn collect_path_segments(tree: &Vec<SyntaxRow>, i: usize) -> (r: Vec<String>)
    requires
        i < tree.len(),
    ensures
        texts(r@) == path_names(tree_view(tree@), i as int),
    decreases tree.len() - i,
{
    let mut out: Vec<String> = match first_child(tree, i, Class::Path) {
        Some(qualifier) => collect_path_segments(tree, qualifier),
        None => {
            let none: Vec<String> = Vec::new();
            assert(texts(none@) =~= Seq::<Seq<char>>::empty());
            none
        },
    };
    match segment_name_of(tree, i) {
        Some(name) => {
            let ghost before = texts(out@);
            let ghost shown = name@;
            out.push(name);
            assert(texts(out@) =~= before.push(shown));
        },
        None => {},
    }
    out
}

/// The path at row `i` as text.
pub fn normalize_path(tree: &Vec<SyntaxRow>, i: usize) -> (r: String)
    requires
        i < tree.len(),
    ensures
        r@ == path_at(tree_view(tree@), i as int),
{
    let names = collect_path_segments(tree, i);
    assert(texts(names@).len() == names@.len());
    if names.len() == 0 {
        owned("unknown")
    } else {
        join_strings(&names, "::")
    }
}

/// The path of the path type at row `i`, and its list of generic arguments.
pub fn path_with_type_args(tree: &Vec<SyntaxRow>, i: usize) -> (r: Option<(String, Option<usize>)>)
    requires
        i < tree.len(),
    ensures
        match r {
            Some((path, Some(list))) => path_type_at(tree_view(tree@), i as int) == Some(
                (path@, Some(list as int)),
            ) && i < list < tree.len(),
            Some((path, None)) => path_type_at(tree_view(tree@), i as int) == Some(
                (path@, None::<int>),
            ),
            None => path_type_at(tree_view(tree@), i as int) is None,
        },
{
    proof {
        reveal(path_type_at);
    }
    match first_child(tree, i, Class::Path) {
        Some(path) => match first_child(tree, path, Class::PathSegment) {
            Some(segment) => {
                let text = normalize_path(tree, path);
                let list = first_child(tree, segment, Class::GenericArgList);
                Some((text, list))
            },
            None => None,
        },
        None => None,
    }
}

/// Whether the path names a primitive type.
pub fn is_primitive_name(path: &str) -> (r: bool)
    ensures
        r == primitive_names().contains(path@),
{
    let names: [&'static str; 18] = [
        "i8",
        "i16",
        "i32",
        "i64",
        "i128",
        "isize",
        "u8",
        "u16",
        "u32",
        "u64",
        "u128",
        "usize",
        "f32",
        "f64",
        "bool",
        "char",
        "str",
        "String",
    ];
    proof {
        reveal(primitive_names);
        assert(crate::text::str_texts(names@) =~= primitive_names());
    }
    let mut i: usize = 0;
    while i < 18
        invariant
            i <= 18,
            names@.len() == 18,
            crate::text::str_texts(names@) == primitive_names(),
            forall|k: int| 0 <= k < i ==> #[trigger] primitive_names()[k] != path@,
        decreases 18 - i,
    {
        assert(crate::text::str_texts(names@)[i as int] == names@[i as int]@);
        if str_eq(names[i], path) {
            assert(primitive_names()[i as int] == path@);
            return true;
        }
        i += 1;
    }
    false
}

/// Whether the path looks like a type parameter.
pub fn is_type_param_name(path: &str) -> (r: bool)
    ensures
        r == looks_like_param(path@),
{
    proof {
        reveal(looks_like_param);
    }
    if contains_text(path, "::") {
        return false;
    }
    let chars = crate::text::chars_of(path);
    let mut i: usize = 0;
    while i < chars.len()
        invariant
            chars@ == path@,
            i <= chars@.len(),
            forall|k: int| 0 <= k < i ==> is_param_char(#[trigger] path@[k]),
        decreases chars.len() - i,
    {
        let c: char = chars[i];
        assert(path@[i as int] == c);
        if !(('A' <= c && c <= 'Z') || c == '_' || ('0' <= c && c <= '9')) {
            proof {
                reveal(looks_like_param);
            }
            return false;
        }
        i += 1;
    }
    true
}

/// The span of a definition that stands nowhere in the sources.
pub fn fallback_def_span(def: DefId) -> (r: SpanId)
    ensures
        r@ == nowhere_span(def@),
{
    SpanId::new(
        crate::host::deterministic_stable_id("def_span", def.stable_id().to_text().as_str()),
    )
}

/// Tells a definition that stands nowhere in the sources, unless it is known.
fn ensure_def(host: &mut DeterministicRaHost, def: DefId, name: &str, kind: DefKind, path: &str)
    requires
        old(host).wf(),
    ensures
        final(host).wf(),
        final(host)@ == with_new_def(old(host)@, def@, name@, kind, path@),
{
    if !host.has_def(def) {
        host.insert_def(def, name, kind, fallback_def_span(def), path);
    }
}

/// The id of the type at a row.
fn type_of_row(host: &DeterministicRaHost, rel_path: &str, row: &SyntaxRow) -> (r: TypeRefId)
    ensures
        r@ == type_id(rel_path@, row@),
{
    let token = cat2("type:", place_to_text(rel_path, row.start, row.end).as_str());
    host.intern_typeref_from_token(token.as_str())
}

/// A first item more in front of generic arguments.
proof fn lemma_args_push(before: Seq<GenericArg>, arg: GenericArg, rest: Seq<GenericArgView>)
    ensures
        arg_views(before.push(arg)) + rest == arg_views(before) + (seq![arg@] + rest),
{
    assert(arg_views(before.push(arg)) =~= arg_views(before).push(arg@));
    assert(arg_views(before.push(arg)) + rest =~= arg_views(before) + (seq![arg@] + rest));
}

/// Tells the type arguments of the list at row `i`.
fn seed_type_args(
    host: &mut DeterministicRaHost,
    rel_path: &str,
    tree: &Vec<SyntaxRow>,
    i: usize,
) -> (r: Vec<GenericArg>)
    requires
        old(host).wf(),
        i < tree.len(),
    ensures
        final(host).wf(),
        final(host)@ == with_types_below(
            tree_view(tree@),
            rel_path@,
            old(host)@,
            i as int,
            i + 1,
            Class::TypeArg,
        ),
        arg_views(r@) == type_arg_ids(tree_view(tree@), rel_path@, i as int, i + 1),
    decreases tree.len() - i, 1nat,
{
    let ghost view = tree_view(tree@);
    let ghost start = host@;
    let mut args: Vec<GenericArg> = Vec::new();
    let mut from: usize = i + 1;
    proof {
        assert(arg_views(args@) + type_arg_ids(view, rel_path@, i as int, i + 1) =~= type_arg_ids(
            view,
            rel_path@,
            i as int,
            i + 1,
        ));
    }
    loop
        invariant
            view == tree_view(tree@),
            i < from <= tree.len(),
            host.wf(),
            start == old(host)@,
            with_types_below(view, rel_path@, start, i as int, i + 1, Class::TypeArg)
                == with_types_below(
                view,
                rel_path@,
                host@,
                i as int,
                from as int,
                Class::TypeArg,
            ),
            arg_views(args@) + type_arg_ids(view, rel_path@, i as int, from as int)
                == type_arg_ids(view, rel_path@, i as int, i + 1),
        decreases tree.len() - from,
    {
        match next_child(tree, i, from, Class::TypeArg) {
            Some(j) => {
                match first_child(tree, j, Class::Type) {
                    Some(ty) => {
                        assert(view[ty as int] == tree@[ty as int]@);
                        let arg = seed_type_ref(host, rel_path, tree, ty);
                        proof {
                            lemma_args_push(
                                args@,
                                GenericArg::Type(arg),
                                type_arg_ids(view, rel_path@, i as int, j + 1),
                            );
                        }
                        args.push(GenericArg::Type(arg));
                    },
                    None => {},
                }
                from = j + 1;
            },
            None => {
                assert(arg_views(args@) =~= arg_views(args@) + Seq::<GenericArgView>::empty());
                return args;
            },
        }
    }
}

/// Tells the item types of the tuple type at row `i`.
fn seed_tuple_items(
    host: &mut DeterministicRaHost,
    rel_path: &str,
    tree: &Vec<SyntaxRow>,
    i: usize,
) -> (r: Vec<TypeRefId>)
    requires
        old(host).wf(),
        i < tree.len(),
    ensures
        final(host).wf(),
        final(host)@ == with_types_below(
            tree_view(tree@),
            rel_path@,
            old(host)@,
            i as int,
            i + 1,
            Class::Type,
        ),
        type_ids(r@) == tuple_ids(tree_view(tree@), rel_path@, i as int, i + 1),
    decreases tree.len() - i, 1nat,
{
    let ghost view = tree_view(tree@);
    let ghost start = host@;
    let mut items: Vec<TypeRefId> = Vec::new();
    let mut from: usize = i + 1;
    proof {
        assert(type_ids(items@) + tuple_ids(view, rel_path@, i as int, i + 1) =~= tuple_ids(
            view,
            rel_path@,
            i as int,
            i + 1,
        ));
    }
    loop
        invariant
            view == tree_view(tree@),
            i < from <= tree.len(),
            host.wf(),
            start == old(host)@,
            with_types_below(view, rel_path@, start, i as int, i + 1, Class::Type)
                == with_types_below(view, rel_path@, host@, i as int, from as int, Class::Type),
            type_ids(items@) + tuple_ids(view, rel_path@, i as int, from as int) == tuple_ids(
                view,
                rel_path@,
                i as int,
                i + 1,
            ),
        decreases tree.len() - from,
    {
        match next_child(tree, i, from, Class::Type) {
            Some(j) => {
                assert(view[j as int] == tree@[j as int]@);
                let item = seed_type_ref(host, rel_path, tree, j);
                let ghost before = type_ids(items@);
                let ghost rest = tuple_ids(view, rel_path@, i as int, j + 1);
                items.push(item);
                proof {
                    assert(type_ids(items@) =~= before.push(item@));
                    assert(type_ids(items@) + rest =~= before + (seq![item@] + rest));
                }
                from = j + 1;
            },
            None => {
                assert(type_ids(items@) =~= type_ids(items@) + Seq::<u64>::empty());
                return items;
            },
        }
    }
}

/// Tells the type at row `i` and the types in it.
pub fn seed_type_ref(
    host: &mut DeterministicRaHost,
    rel_path: &str,
    tree: &Vec<SyntaxRow>,
    i: usize,
) -> (r: TypeRefId)
    requires
        old(host).wf(),
        i < tree.len(),
    ensures
        final(host).wf(),
        r@ == type_id(rel_path@, tree_view(tree@)[i as int]),
        final(host)@ == with_type_at(tree_view(tree@), rel_path@, old(host)@, i as int),
    decreases tree.len() - i, 2nat,
{
    let ghost view = tree_view(tree@);
    let row = &tree[i];
    assert(view[i as int] == row@);
    let tr = type_of_row(host, rel_path, row);
    let kind = row.kind.as_str();
    if str_eq(kind, "PATH_TYPE") {
        match path_with_type_args(tree, i) {
            Some((path, list)) => {
                if is_primitive_name(path.as_str()) {
                    host.insert_type(tr, TypeShape::Prim(path));
                } else if is_type_param_name(path.as_str()) {
                    let param = host.intern_def_from_token(
                        cat2("type-param:", path.as_str()).as_str(),
                    );
                    ensure_def(
                        host,
                        param,
                        path.as_str(),
                        DefKind::AssocType,
                        cat2("type_param::", path.as_str()).as_str(),
                    );
                    host.insert_type(tr, TypeShape::Param(param));
                } else {
                    let head = host.intern_def_from_token(
                        cat2("type-head:", path.as_str()).as_str(),
                    );
                    ensure_def(
                        host,
                        head,
                        tail_of_path(path.as_str()).as_str(),
                        DefKind::Other,
                        path.as_str(),
                    );
                    let args = match list {
                        Some(list) => seed_type_args(host, rel_path, tree, list),
                        None => {
                            let none: Vec<GenericArg> = Vec::new();
                            assert(arg_views(none@) =~= Seq::<GenericArgView>::empty());
                            none
                        },
                    };
                    host.insert_type(tr, TypeShape::App { head, args });
                }
            },
            None => {
                host.insert_type(tr, TypeShape::Unknown);
            },
        }
    } else if str_eq(kind, "TUPLE_TYPE") {
        let items = seed_tuple_items(host, rel_path, tree, i);
        host.insert_type(tr, TypeShape::Tuple(items));
    } else if str_eq(kind, "REF_TYPE") || str_eq(kind, "PTR_TYPE") || str_eq(
        kind,
        "SLICE_TYPE",
    ) {
        match first_child(tree, i, Class::Type) {
            Some(j) => {
                let inner = seed_type_ref(host, rel_path, tree, j);
                let mutability = if first_token(tree, i, "MUT_KW").is_some() {
                    Mutability::Mut
                } else {
                    Mutability::Shared
                };
                if str_eq(kind, "REF_TYPE") {
                    host.insert_type(tr, TypeShape::Ref { mutability, inner });
                } else if str_eq(kind, "PTR_TYPE") {
                    host.insert_type(tr, TypeShape::Ptr { mutability, inner });
                } else {
                    host.insert_type(tr, TypeShape::Slice(inner));
                }
            },
            None => {
                host.insert_type(tr, TypeShape::Unknown);
            },
        }
    } else {
        host.insert_type(tr, TypeShape::Unknown);
    }
    tr
}

/// The definition at the head of a type.
pub open spec fn head_of(host: HostView, type_ref: u64) -> Option<u64> {
    match host.shape_of(type_ref) {
        ShapeView::App { head, .. } => Some(head),
        ShapeView::Param(param) => Some(param),
        _ => None,
    }
}

/// The path names the standard result type.
pub open spec fn is_result_path(path: Seq<char>) -> bool {
    path == "std::result::Result"@ || path == "core::result::Result"@ || path == "Result"@
}

/// The head of the error type of a function that returns a result.
pub open spec fn result_error_head(host: HostView, return_type: u64) -> Option<u64> {
    match host.shape_of(return_type) {
        ShapeView::App { head, args } => if is_result_path(host.path_of(head)) && args.len() > 1 {
            match args[1] {
                GenericArgView::Type(error) => head_of(host, error),
                _ => None,
            }
        } else {
            None
        },
        _ => None,
    }
}

/// The definition at the head of a type.
pub fn type_head_def_for(host: &DeterministicRaHost, type_ref: TypeRefId) -> (r: Option<DefId>)
    requires
        host.wf(),
    ensures
        opt_def(r) == head_of(host@, type_ref@),
{
    match host.type_shape(type_ref) {
        Some(TypeShape::App { head, .. }) => Some(*head),
        Some(TypeShape::Param(param)) => Some(*param),
        _ => None,
    }
}

/// The head of the error type of a function that returns a result.
pub fn result_error_head_for_return(host: &DeterministicRaHost, return_type: TypeRefId) -> (r:
    Option<DefId>)
    requires
        host.wf(),
    ensures
        opt_def(r) == result_error_head(host@, return_type@),
{
    match host.type_shape(return_type) {
        Some(TypeShape::App { head, args }) => {
            let path = host.def_path_for(*head);
            if !str_eq(path.as_str(), "std::result::Result") && !str_eq(
                path.as_str(),
                "core::result::Result",
            ) && !str_eq(path.as_str(), "Result") {
                return None;
            }
            if args.len() < 2 {
                return None;
            }
            assert(arg_views(args@)[1] == args@[1]@);
            match args[1] {
                GenericArg::Type(error) => type_head_def_for(host, error),
                _ => None,
            }
        },
        _ => None,
    }
}

} // verus!
