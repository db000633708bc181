//! Items, their records, their types and the calls in them, as seeding tells of them.

use crate::ra::host::HostView;
use crate::ra::index_laws::{
    below, first_below, first_type_below, has_name, is_item_kind, law_items_are_of_item_kinds,
    lemma_child_below, lemma_first_of_kind, lemma_first_type, lemma_has_name, lemma_item_words,
    lemma_no_token, lemma_single_classes, lemma_type_rows, names_type, node_below,
};
use crate::ra::kinds::{DefKind, DispatchKind, Mutability};
use crate::ra::row_laws::law_rows_are_added;
use crate::ra::rows::CallEdgeView;
use crate::ra::scope::{qualified, BodyView, CallSiteView, ContextView};
use crate::ra::seed_laws::{keeps, law_seeding_items_keeps, lemma_keeps_chain};
use crate::ra::seed_types::{
    head_id, is_public, looks_like_param, mentions_test, param_id, path_type_at, primitive_names,
    type_id, with_type_at,
};
use crate::ra::seeding::{
    call_target, def_id, item_in_test, method_dispatch, method_target, place_span, return_row,
    with_call_edges, with_calls, with_item_at, with_items, with_method_calls, with_named,
    with_tree, FileView, Seeded,
};
use crate::ra::shapes::ShapeView;
use crate::ra::syntax::{child, child_from, is_child, Class, SyntaxView};
use crate::search::{occurs, occurs_at};
use vstd::prelude::*;

verus! {

/// Row `j` is an item directly below row `i`.
pub open spec fn item_below(tree: Seq<SyntaxView>, i: int, j: int) -> bool {
    below(tree, i, j) && !tree[j].is_token && is_item_kind(tree[j].kind)
}

/// Row `j` is an item below the list at row `i`, in the scope and in test code or
/// not: directly, or in a module there, at most `depth` modules deep. A module's items
/// are in the scope that its name leads to, and in test code if the module is.
pub open spec fn item_within(
    tree: Seq<SyntaxView>,
    i: int,
    scope: Seq<Seq<char>>,
    in_test: bool,
    j: int,
    inner: Seq<Seq<char>>,
    tested: bool,
    depth: nat,
) -> bool
    decreases depth,
{
    (item_below(tree, i, j) && inner == scope && tested == in_test) || (depth > 0 && exists|
        m: int,
        list: int,
        name: Seq<char>,
    |
        #![trigger item_below(tree, i, m), first_below(tree, m, list, "ITEM_LIST"@), has_name(tree, m, name)]
        item_below(tree, i, m) && tree[m].kind == "MODULE"@ && has_name(tree, m, name)
            && first_below(tree, m, list, "ITEM_LIST"@) && item_within(
            tree,
            list,
            scope.push(name),
            in_test || speaks_of_tests(tree, m) || name == "tests"@,
            j,
            inner,
            tested,
            (depth - 1) as nat,
        ))
}

/// An attribute directly below the row has `test` in its text.
pub open spec fn speaks_of_tests(tree: Seq<SyntaxView>, i: int) -> bool {
    exists|k: int, at: int|
        #![trigger node_below(tree, i, k, "ATTR"@), tree[k].text.subrange(at, at + 4)]
        node_below(tree, i, k, "ATTR"@) && 0 <= at && at + 4 <= tree[k].text.len()
            && tree[k].text.subrange(at, at + 4) == "test"@
}

proof fn lemma_attrs(tree: Seq<SyntaxView>, i: int, from: int)
    requires
        0 <= i < from,
        i < tree.len(),
        forall|k: int| i < k < from && k < tree.len() ==> (#[trigger] tree[k]).depth
            > tree[i].depth,
    ensures
        crate::ra::seed_types::attrs_mention_test(tree, i, from) <==> exists|k: int|
            from <= k && #[trigger] node_below(tree, i, k, "ATTR"@) && occurs(tree[k].text, "test"@),
    decreases tree.len() - from,
{
    assert(Class::Attr.kinds()[0] == "ATTR"@);
    lemma_child_below(tree, i, from, Class::Attr);
    if let Some(j) = child_from(tree, i, from, Class::Attr) {
        lemma_attrs(tree, i, j + 1);
        assert(node_below(tree, i, j, "ATTR"@));
        assert forall|k: int| from <= k && #[trigger] node_below(tree, i, k, "ATTR"@) implies j
            <= k by {
            if k < j {
                assert(is_child(tree, i, k, Class::Attr));
            }
        }
    } else {
        assert forall|k: int| from <= k implies !#[trigger] node_below(tree, i, k, "ATTR"@) by {
            if node_below(tree, i, k, "ATTR"@) {
                assert(is_child(tree, i, k, Class::Attr));
            }
        }
    }
}

proof fn lemma_speaks_of_tests(tree: Seq<SyntaxView>, i: int)
    requires
        0 <= i < tree.len(),
    ensures
        mentions_test(tree, i) <==> speaks_of_tests(tree, i),
{
    lemma_attrs(tree, i, i + 1);
    reveal_strlit("test");
    assert("test"@.len() == 4);
    if mentions_test(tree, i) {
        let k = choose|k: int|
            i + 1 <= k && #[trigger] node_below(tree, i, k, "ATTR"@) && occurs(
                tree[k].text,
                "test"@,
            );
        let at = choose|at: int| #[trigger] occurs_at(tree[k].text, "test"@, at);
        assert(tree[k].text.subrange(at, at + 4) == "test"@);
    }
    if speaks_of_tests(tree, i) {
        let (k, at) = choose|k: int, at: int|
            #![trigger node_below(tree, i, k, "ATTR"@), tree[k].text.subrange(at, at + 4)]
            node_below(tree, i, k, "ATTR"@) && 0 <= at && at + 4 <= tree[k].text.len()
                && tree[k].text.subrange(at, at + 4) == "test"@;
        assert(occurs_at(tree[k].text, "test"@, at));
    }
}

/// The state is one that seeding the item leads to, with more told behind it.
pub open spec fn has_seeded(
    file: FileView,
    tree: Seq<SyntaxView>,
    j: int,
    scope: Seq<Seq<char>>,
    in_test: bool,
    after: Seeded,
) -> bool {
    exists|before: Seeded|
        keeps(#[trigger] with_item_at(before, file, tree, j, scope, in_test), after, file)
}

proof fn lemma_item_seeded(
    seeded: Seeded,
    file: FileView,
    tree: Seq<SyntaxView>,
    i: int,
    from: int,
    scope: Seq<Seq<char>>,
    in_test: bool,
    j: int,
)
    requires
        0 <= i < from <= j,
        item_below(tree, i, j),
    ensures
        has_seeded(
            file,
            tree,
            j,
            scope,
            in_test,
            with_items(seeded, file, tree, i, from, scope, in_test),
        ),
    decreases tree.len() - from,
{
    law_items_are_of_item_kinds(tree[j].kind);
    assert(is_child(tree, i, j, Class::Item));
    lemma_child_below(tree, i, from, Class::Item);
    let c = child_from(tree, i, from, Class::Item)->0;
    let told = with_item_at(seeded, file, tree, c, scope, in_test);
    if c == j {
        law_seeding_items_keeps(told, file, tree, i, j + 1, scope, in_test);
    } else {
        assert(c < j);
        lemma_item_seeded(told, file, tree, i, c + 1, scope, in_test, j);
    }
}

/// Every item below a list is seeded, in its scope: those of the list itself, and
/// those of the modules in it however deep.
pub proof fn law_every_item_is_seeded_in_its_scope(
    seeded: Seeded,
    file: FileView,
    tree: Seq<SyntaxView>,
    i: int,
    scope: Seq<Seq<char>>,
    in_test: bool,
    j: int,
    inner: Seq<Seq<char>>,
    tested: bool,
    depth: nat,
)
    requires
        0 <= i < tree.len(),
        item_within(tree, i, scope, in_test, j, inner, tested, depth),
    ensures
        has_seeded(
            file,
            tree,
            j,
            inner,
            tested,
            with_items(seeded, file, tree, i, i + 1, scope, in_test),
        ),
    decreases depth,
{
    if item_below(tree, i, j) && inner == scope && tested == in_test {
        lemma_item_seeded(seeded, file, tree, i, i + 1, scope, in_test, j);
    } else {
        let (m, list, name) = choose|m: int, list: int, name: Seq<char>|
            #![trigger item_below(tree, i, m), first_below(tree, m, list, "ITEM_LIST"@), has_name(tree, m, name)]
            item_below(tree, i, m) && tree[m].kind == "MODULE"@ && has_name(tree, m, name)
                && first_below(tree, m, list, "ITEM_LIST"@) && item_within(
                tree,
                list,
                scope.push(name),
                in_test || speaks_of_tests(tree, m) || name == "tests"@,
                j,
                inner,
                tested,
                (depth - 1) as nat,
            );
        let after = with_items(seeded, file, tree, i, i + 1, scope, in_test);
        lemma_item_seeded(seeded, file, tree, i, i + 1, scope, in_test, m);
        let before = choose|before: Seeded|
            keeps(#[trigger] with_item_at(before, file, tree, m, scope, in_test), after, file);
        lemma_item_words();
        lemma_has_name(tree, m, name);
        lemma_speaks_of_tests(tree, m);
        assert forall|other: Seq<char>| #[trigger]
            Class::ItemList.kinds().contains(other) <==> other == "ITEM_LIST"@ by {
            lemma_single_classes(other);
        }
        lemma_first_of_kind(tree, m, list, "ITEM_LIST"@, Class::ItemList);
        let told = Seeded {
            host: with_named(
                before.host,
                file,
                tree,
                m,
                "mod"@,
                DefKind::Mod,
                name,
                qualified(scope, name),
                item_in_test(tree, m, name, in_test),
            ),
            ..before
        };
        let held = with_items(
            told,
            file,
            tree,
            list,
            list + 1,
            scope.push(name),
            in_test || speaks_of_tests(tree, m) || name == "tests"@,
        );
        assert(with_item_at(before, file, tree, m, scope, in_test) == held);
        law_every_item_is_seeded_in_its_scope(
            told,
            file,
            tree,
            list,
            scope.push(name),
            in_test || speaks_of_tests(tree, m) || name == "tests"@,
            j,
            inner,
            tested,
            (depth - 1) as nat,
        );
        let start = choose|start: Seeded|
            keeps(#[trigger] with_item_at(start, file, tree, j, inner, tested), held, file);
        lemma_keeps_chain(
            with_item_at(start, file, tree, j, inner, tested),
            held,
            after,
            file,
        );
    }
}

/// Every item of a file is seeded in its scope.
pub proof fn law_every_item_of_a_file_is_seeded(
    seeded: Seeded,
    file: FileView,
    tree: Seq<SyntaxView>,
    scope: Seq<Seq<char>>,
    j: int,
    inner: Seq<Seq<char>>,
    tested: bool,
    depth: nat,
)
    requires
        tree.len() > 0,
        item_within(tree, 0, scope, false, j, inner, tested, depth),
    ensures
        has_seeded(file, tree, j, inner, tested, with_tree(seeded, file, tree, scope)),
{
    law_every_item_is_seeded_in_its_scope(
        seeded,
        file,
        tree,
        0,
        scope,
        false,
        j,
        inner,
        tested,
        depth,
    );
}

/// The definition is told with its name, what it is, its place and its path, public
/// if it has a visibility, and as test code or not.
pub open spec fn is_recorded(
    host: HostView,
    file: FileView,
    tree: Seq<SyntaxView>,
    i: int,
    def: u64,
    name: Seq<char>,
    kind: DefKind,
    path: Seq<char>,
    tested: bool,
) -> bool {
    &&& host.defs.contains_key(def)
    &&& host.defs[def].name == name
    &&& host.defs[def].kind == kind
    &&& host.defs[def].span == place_span(file, tree[i].start, tree[i].end)
    &&& host.defs[def].path == path
    &&& host.public.contains_key(def)
    &&& host.public[def] <==> exists|k: int| #[trigger] node_below(tree, i, k, "VISIBILITY"@)
    &&& host.in_test.contains_key(def)
    &&& host.in_test[def] == tested
}

proof fn lemma_public(tree: Seq<SyntaxView>, i: int)
    requires
        0 <= i < tree.len(),
    ensures
        is_public(tree, i) <==> exists|k: int| #[trigger] node_below(tree, i, k, "VISIBILITY"@),
{
    lemma_child_below(tree, i, i + 1, Class::Visibility);
    if let Some(j) = child(tree, i, Class::Visibility) {
        lemma_single_classes(tree[j].kind);
        assert(node_below(tree, i, j, "VISIBILITY"@));
    } else {
        assert forall|k: int| !#[trigger] node_below(tree, i, k, "VISIBILITY"@) by {
            if node_below(tree, i, k, "VISIBILITY"@) {
                lemma_single_classes(tree[k].kind);
                assert(is_child(tree, i, k, Class::Visibility));
            }
        }
    }
}

proof fn lemma_recorded(
    host: HostView,
    file: FileView,
    tree: Seq<SyntaxView>,
    i: int,
    word: Seq<char>,
    kind: DefKind,
    name: Seq<char>,
    path: Seq<char>,
    tested: bool,
)
    requires
        0 <= i < tree.len(),
    ensures
        is_recorded(
            with_named(host, file, tree, i, word, kind, name, path, tested),
            file,
            tree,
            i,
            def_id(word, path, tree[i]),
            name,
            kind,
            path,
            tested,
        ),
{
    lemma_public(tree, i);
}

/// A function is told under its name below its scope, with what it gives: the type
/// that stands behind its arrow, or the empty tuple where it has none.
pub proof fn law_functions_are_recorded(
    seeded: Seeded,
    file: FileView,
    tree: Seq<SyntaxView>,
    i: int,
    scope: Seq<Seq<char>>,
    in_test: bool,
    name: Seq<char>,
)
    requires
        0 <= i < tree.len(),
        tree[i].kind == "FN"@,
        has_name(tree, i, name),
    ensures
        ({
            let after = with_item_at(seeded, file, tree, i, scope, in_test).host;
            let def = def_id("fn"@, qualified(scope, name), tree[i]);
            &&& is_recorded(
                after,
                file,
                tree,
                i,
                def,
                name,
                DefKind::Fn,
                qualified(scope, name),
                in_test || speaks_of_tests(tree, i),
            )
            &&& after.fn_returns.contains_key(def)
            &&& forall|ret: int, ty: int|
                #![trigger first_below(tree, i, ret, "RET_TYPE"@), first_type_below(tree, ret, ret + 1, ty)]
                first_below(tree, i, ret, "RET_TYPE"@) && first_type_below(tree, ret, ret + 1, ty)
                    ==> after.fn_returns[def] == Some(type_id(file.rel_path, tree[ty]))
            &&& (forall|ret: int| !#[trigger] node_below(tree, i, ret, "RET_TYPE"@)) ==> (
            after.fn_returns[def] matches Some(unit) && after.types.contains_key(unit)
                && after.types[unit] == ShapeView::Tuple(Seq::empty()))
        }),
{
    lemma_has_name(tree, i, name);
    lemma_speaks_of_tests(tree, i);
    let path = qualified(scope, name);
    let def = def_id("fn"@, path, tree[i]);
    let tested = in_test || mentions_test(tree, i);
    lemma_recorded(seeded.host, file, tree, i, "fn"@, DefKind::Fn, name, path, tested);
    let named = with_named(seeded.host, file, tree, i, "fn"@, DefKind::Fn, name, path, tested);
    if let Some(ty) = return_row(tree, i) {
        lemma_type_rows(tree, file.rel_path, named, ty);
    }
    let after = with_item_at(seeded, file, tree, i, scope, in_test).host;
    assert forall|ret: int, ty: int|
        #![trigger first_below(tree, i, ret, "RET_TYPE"@), first_type_below(tree, ret, ret + 1, ty)]
        first_below(tree, i, ret, "RET_TYPE"@) && first_type_below(
            tree,
            ret,
            ret + 1,
            ty,
        ) implies after.fn_returns[def] == Some(type_id(file.rel_path, tree[ty])) by {
        assert forall|other: Seq<char>| #[trigger]
            Class::RetType.kinds().contains(other) <==> other == "RET_TYPE"@ by {
            lemma_single_classes(other);
        }
        lemma_first_of_kind(tree, i, ret, "RET_TYPE"@, Class::RetType);
        lemma_first_type(tree, ret, ret + 1, ty);
    }
    if forall|ret: int| !#[trigger] node_below(tree, i, ret, "RET_TYPE"@) {
        lemma_child_below(tree, i, i + 1, Class::RetType);
        if let Some(j) = child(tree, i, Class::RetType) {
            lemma_single_classes(tree[j].kind);
            assert(node_below(tree, i, j, "RET_TYPE"@));
        }
    }
}

/// A struct, a union, an alias, a constant or a static is told under its name below
/// its scope, as what its syntax kind says.
pub proof fn law_plain_items_are_recorded(
    seeded: Seeded,
    file: FileView,
    tree: Seq<SyntaxView>,
    i: int,
    scope: Seq<Seq<char>>,
    in_test: bool,
    name: Seq<char>,
    word: Seq<char>,
    kind: DefKind,
)
    requires
        0 <= i < tree.len(),
        has_name(tree, i, name),
        (tree[i].kind == "UNION"@ && word == "union"@ && kind == DefKind::Union) || (tree[i].kind
            == "TYPE_ALIAS"@ && word == "type_alias"@ && kind == DefKind::TypeAlias) || (
        tree[i].kind == "CONST"@ && word == "const"@ && kind == DefKind::Const) || (tree[i].kind
            == "STATIC"@ && word == "static"@ && kind == DefKind::Static),
    ensures
        is_recorded(
            with_item_at(seeded, file, tree, i, scope, in_test).host,
            file,
            tree,
            i,
            def_id(word, qualified(scope, name), tree[i]),
            name,
            kind,
            qualified(scope, name),
            in_test || speaks_of_tests(tree, i),
        ),
{
    lemma_item_words();
    lemma_has_name(tree, i, name);
    lemma_speaks_of_tests(tree, i);
    let path = qualified(scope, name);
    let tested = item_in_test(tree, i, name, in_test);
    lemma_recorded(seeded.host, file, tree, i, word, kind, name, path, tested);
    let named = with_named(seeded.host, file, tree, i, word, kind, name, path, tested);
    if let Some(ty) = child(tree, i, Class::Type) {
        lemma_type_rows(tree, file.rel_path, named, ty);
    }
}

/// The primitive types.
pub proof fn law_primitive_types_are_named(path: Seq<char>)
    ensures
        primitive_names().contains(path) <==> (path == "i8"@ || path == "i16"@ || path == "i32"@
            || path == "i64"@ || path == "i128"@ || path == "isize"@ || path == "u8"@ || path
            == "u16"@ || path == "u32"@ || path == "u64"@ || path == "u128"@ || path == "usize"@
            || path == "f32"@ || path == "f64"@ || path == "bool"@ || path == "char"@ || path
            == "str"@ || path == "String"@),
{
    reveal(primitive_names);
    let names = primitive_names();
    assert(names[0] == "i8"@ && names[1] == "i16"@ && names[2] == "i32"@ && names[3] == "i64"@
        && names[4] == "i128"@ && names[5] == "isize"@ && names[6] == "u8"@ && names[7] == "u16"@
        && names[8] == "u32"@ && names[9] == "u64"@ && names[10] == "u128"@ && names[11]
        == "usize"@ && names[12] == "f32"@ && names[13] == "f64"@ && names[14] == "bool"@
        && names[15] == "char"@ && names[16] == "str"@ && names[17] == "String"@);
}

/// Names without a path that are all capitals, digits and underscores are taken for
/// type parameters, and no others.
pub proof fn law_type_parameters_are_capitals(path: Seq<char>)
    ensures
        looks_like_param(path) <==> !occurs(path, "::"@) && forall|i: int|
            0 <= i < path.len() ==> ('A' <= #[trigger] path[i] <= 'Z') || path[i] == '_' || ('0'
                <= path[i] <= '9'),
{
    reveal(looks_like_param);
    if !occurs(path, "::"@) && forall|i: int|
        0 <= i < path.len() ==> ('A' <= #[trigger] path[i] <= 'Z') || path[i] == '_' || ('0'
            <= path[i] <= '9') {
        assert forall|i: int| 0 <= i < path.len() implies crate::ra::seed_types::is_param_char(
            #[trigger] path[i],
        ) by {}
    }
}

/// What is told of a type at a row: a primitive, a parameter, a path with a head, a
/// reference, a pointer or a slice, by what is written there.
pub proof fn law_types_are_told_as_written(
    tree: Seq<SyntaxView>,
    rel_path: Seq<char>,
    host: HostView,
    i: int,
)
    requires
        0 <= i < tree.len(),
    ensures
        ({
            let types = with_type_at(tree, rel_path, host, i).types;
            let id = type_id(rel_path, tree[i]);
            &&& tree[i].kind == "PATH_TYPE"@ ==> match path_type_at(tree, i) {
                Some((path, list)) => {
                    &&& primitive_names().contains(path) ==> types[id] == ShapeView::Prim(path)
                    &&& !primitive_names().contains(path) && looks_like_param(path) ==> types[id]
                        == ShapeView::Param(param_id(path))
                    &&& names_type(tree, i, path) ==> (types[id] matches ShapeView::App {
                        head,
                        ..
                    } && head == head_id(path))
                },
                None => types[id] == ShapeView::Unknown,
            }
            &&& forall|inner: int| #[trigger]
                first_type_below(tree, i, i + 1, inner) ==> {
                    &&& tree[i].kind == "REF_TYPE"@ ==> types[id] == (ShapeView::Ref {
                        mutability: if exists|k: int| #[trigger] writes_through(tree, i, k) {
                            Mutability::Mut
                        } else {
                            Mutability::Shared
                        },
                        inner: type_id(rel_path, tree[inner]),
                    })
                    &&& tree[i].kind == "PTR_TYPE"@ ==> types[id] == (ShapeView::Ptr {
                        mutability: if exists|k: int| #[trigger] writes_through(tree, i, k) {
                            Mutability::Mut
                        } else {
                            Mutability::Shared
                        },
                        inner: type_id(rel_path, tree[inner]),
                    })
                    &&& tree[i].kind == "SLICE_TYPE"@ ==> types[id] == ShapeView::Slice(
                        type_id(rel_path, tree[inner]),
                    )
                }
        }),
{
    lemma_type_words();
    lemma_mutability(tree, i);
    let types = with_type_at(tree, rel_path, host, i).types;
    let id = type_id(rel_path, tree[i]);
    assert forall|inner: int| #[trigger] first_type_below(tree, i, i + 1, inner) implies child(
        tree,
        i,
        Class::Type,
    ) == Some(inner) by {
        lemma_first_type(tree, i, i + 1, inner);
    }
}

/// The token directly below the row says that it can be written through.
pub open spec fn writes_through(tree: Seq<SyntaxView>, i: int, k: int) -> bool {
    below(tree, i, k) && tree[k].is_token && tree[k].kind == "MUT_KW"@
}

proof fn lemma_mutability(tree: Seq<SyntaxView>, i: int)
    requires
        0 <= i < tree.len(),
    ensures
        crate::ra::seed_types::mutability_at(tree, i) == (if exists|k: int| #[trigger]
            writes_through(tree, i, k) {
            Mutability::Mut
        } else {
            Mutability::Shared
        }),
{
    if exists|k: int| #[trigger] writes_through(tree, i, k) {
        let k = choose|k: int| #[trigger] writes_through(tree, i, k);
        lemma_some_token(tree, i, i + 1, "MUT_KW"@, k);
    } else {
        assert forall|k: int|
            !(#[trigger] below(tree, i, k) && tree[k].is_token && tree[k].kind == "MUT_KW"@) by {
            assert(!writes_through(tree, i, k));
        }
        lemma_no_token(tree, i, i + 1, "MUT_KW"@);
    }
}

proof fn lemma_some_token(tree: Seq<SyntaxView>, i: int, from: int, kind: Seq<char>, k: int)
    requires
        below(tree, i, k),
        tree[k].is_token,
        tree[k].kind == kind,
        i < from <= k,
    ensures
        crate::ra::syntax::token_from(tree, i, from, kind) is Some,
    decreases k - from,
{
    if from < k {
        assert(tree[from].depth > tree[i].depth);
        if !(tree[from].depth == tree[i].depth + 1 && tree[from].is_token && tree[from].kind
            == kind) {
            lemma_some_token(tree, i, from + 1, kind, k);
        }
    }
}

proof fn lemma_type_words()
    ensures
        "PATH_TYPE"@.len() == 9,
        "TUPLE_TYPE"@.len() == 10 && "TUPLE_TYPE"@[0] == 'T',
        "SLICE_TYPE"@.len() == 10 && "SLICE_TYPE"@[0] == 'S',
        "REF_TYPE"@.len() == 8 && "REF_TYPE"@[0] == 'R',
        "PTR_TYPE"@.len() == 8 && "PTR_TYPE"@[0] == 'P',
{
    reveal_strlit("PATH_TYPE");
    reveal_strlit("TUPLE_TYPE");
    reveal_strlit("SLICE_TYPE");
    reveal_strlit("REF_TYPE");
    reveal_strlit("PTR_TYPE");
}

/// The edge is that of the call in the body: by the body's function, of the callable
/// that the call means, at the call's place.
pub open spec fn is_call_edge(
    context: ContextView,
    body: BodyView,
    site: CallSiteView,
    edge: CallEdgeView,
) -> bool {
    &&& edge.caller == body.caller
    &&& call_target(context, body.scope, site) == Some(edge.callee)
    &&& edge.site == place_span(crate::ra::seeding::body_file(body), site.start, site.end)
    &&& edge.dispatch == DispatchKind::Direct
}

/// The edge is that of the method call in the body.
pub open spec fn is_method_edge(
    host: HostView,
    context: ContextView,
    body: BodyView,
    site: CallSiteView,
    edge: CallEdgeView,
) -> bool {
    &&& edge.caller == body.caller
    &&& method_target(context, body.scope, site) == Some(edge.callee)
    &&& edge.site == place_span(crate::ra::seeding::body_file(body), site.start, site.end)
    &&& edge.dispatch == match host.method_owner_of(edge.callee) {
        Some(owner) => if host.defs.contains_key(owner) && host.defs[owner].kind == DefKind::Trait {
            DispatchKind::ThroughTrait
        } else {
            DispatchKind::Direct
        },
        None => DispatchKind::Direct,
    }
}

/// The calls of a body are told.
spec fn only_calls(before: HostView, after: HostView) -> bool {
    only_calls_told(before, after)
}

proof fn lemma_calls(host: HostView, context: ContextView, body: BodyView, count: nat)
    requires
        count <= body.calls.len(),
    ensures
        ({
            let after = with_calls(host, context, body, count);
            &&& only_calls(host, after)
            &&& forall|edge: CallEdgeView| #[trigger]
                after.call_edges.contains(edge) <==> host.call_edges.contains(edge) || exists|
                    k: int,
                |
                    0 <= k < count && is_call_edge(context, body, #[trigger] body.calls[k], edge)
        }),
    decreases count,
{
    if count > 0 {
        let n = count - 1;
        lemma_calls(host, context, body, n as nat);
        let told = with_calls(host, context, body, n as nat);
        let after = with_calls(host, context, body, count);
        let site = body.calls[n];
        if let Some(callee) = call_target(context, body.scope, site) {
            law_rows_are_added(
                told.call_edges,
                CallEdgeView {
                    caller: body.caller,
                    callee,
                    site: place_span(crate::ra::seeding::body_file(body), site.start, site.end),
                    dispatch: DispatchKind::Direct,
                },
            );
        }
        assert forall|edge: CallEdgeView| #[trigger]
            after.call_edges.contains(edge) <==> host.call_edges.contains(edge) || exists|k: int|
                0 <= k < count && is_call_edge(context, body, #[trigger] body.calls[k], edge) by {
            assert(after.call_edges.contains(edge) <==> told.call_edges.contains(edge)
                || is_call_edge(context, body, site, edge));
            if exists|k: int|
                0 <= k < count && is_call_edge(context, body, #[trigger] body.calls[k], edge) {
                let k = choose|k: int|
                    0 <= k < count && is_call_edge(context, body, #[trigger] body.calls[k], edge);
                assert(k < n || k == n);
            }
        }
    }
}

proof fn lemma_method_calls(host: HostView, context: ContextView, body: BodyView, count: nat)
    requires
        count <= body.method_calls.len(),
    ensures
        ({
            let after = with_method_calls(host, context, body, count);
            &&& only_calls(host, after)
            &&& forall|edge: CallEdgeView| #[trigger]
                after.call_edges.contains(edge) <==> host.call_edges.contains(edge) || exists|
                    k: int,
                |
                    0 <= k < count && is_method_edge(
                        host,
                        context,
                        body,
                        #[trigger] body.method_calls[k],
                        edge,
                    )
        }),
    decreases count,
{
    if count > 0 {
        let n = count - 1;
        lemma_method_calls(host, context, body, n as nat);
        let told = with_method_calls(host, context, body, n as nat);
        let after = with_method_calls(host, context, body, count);
        let site = body.method_calls[n];
        if let Some(callee) = method_target(context, body.scope, site) {
            lemma_same_owner(host, told, callee);
            law_rows_are_added(
                told.call_edges,
                CallEdgeView {
                    caller: body.caller,
                    callee,
                    site: place_span(crate::ra::seeding::body_file(body), site.start, site.end),
                    dispatch: method_dispatch(told, callee),
                },
            );
        }
        assert forall|edge: CallEdgeView| #[trigger]
            after.call_edges.contains(edge) <==> host.call_edges.contains(edge) || exists|k: int|
                0 <= k < count && is_method_edge(
                    host,
                    context,
                    body,
                    #[trigger] body.method_calls[k],
                    edge,
                ) by {
            assert(after.call_edges.contains(edge) <==> told.call_edges.contains(edge)
                || is_method_edge(host, context, body, site, edge));
            if exists|k: int|
                0 <= k < count && is_method_edge(
                    host,
                    context,
                    body,
                    #[trigger] body.method_calls[k],
                    edge,
                ) {
                let k = choose|k: int|
                    0 <= k < count && is_method_edge(
                        host,
                        context,
                        body,
                        #[trigger] body.method_calls[k],
                        edge,
                    );
                assert(k < n || k == n);
            }
        }
    }
}

/// Who owns a method rests on no calls.
proof fn lemma_same_owner(a: HostView, b: HostView, method: u64)
    requires
        only_calls(a, b),
    ensures
        a.method_owner_of(method) == b.method_owner_of(method),
        method_dispatch(a, method) == method_dispatch(b, method),
{
    assert(a.methods == b.methods && a.trait_methods == b.trait_methods && a.defs == b.defs);
}

/// A body of the context has a call with the edge.
pub open spec fn body_gives(
    host: HostView,
    context: ContextView,
    body: BodyView,
    edge: CallEdgeView,
) -> bool {
    (exists|k: int|
        0 <= k < body.calls.len() && is_call_edge(context, body, #[trigger] body.calls[k], edge))
        || exists|k: int|
        0 <= k < body.method_calls.len() && is_method_edge(
            host,
            context,
            body,
            #[trigger] body.method_calls[k],
            edge,
        )
}

/// The calls that are told once all bodies have been seeded are those that stand in
/// them and mean something known, and no others.
pub proof fn law_seeded_calls_are_those_of_the_bodies(
    host: HostView,
    context: ContextView,
    count: nat,
)
    requires
        count <= context.bodies.len(),
    ensures
        ({
            let after = with_call_edges(host, context, count);
            &&& only_calls_told(host, after)
            &&& forall|edge: CallEdgeView| #[trigger]
                after.call_edges.contains(edge) <==> host.call_edges.contains(edge) || exists|
                    b: int,
                |
                    0 <= b < count && body_gives(host, context, #[trigger] context.bodies[b], edge)
        }),
    decreases count,
{
    if count > 0 {
        let n = count - 1;
        law_seeded_calls_are_those_of_the_bodies(host, context, n as nat);
        let told = with_call_edges(host, context, n as nat);
        let body = context.bodies[n];
        lemma_calls(told, context, body, body.calls.len());
        let mid = with_calls(told, context, body, body.calls.len());
        lemma_method_calls(mid, context, body, body.method_calls.len());
        let after = with_call_edges(host, context, count);
        assert forall|edge: CallEdgeView| #[trigger]
            after.call_edges.contains(edge) <==> host.call_edges.contains(edge) || exists|b: int|
                0 <= b < count && body_gives(host, context, #[trigger] context.bodies[b], edge) by {
            lemma_same_owner(host, mid, edge.callee);
            assert(host.defs == mid.defs);
            assert(forall|k: int|
                0 <= k < body.method_calls.len() ==> is_method_edge(
                    mid,
                    context,
                    body,
                    #[trigger] body.method_calls[k],
                    edge,
                ) == is_method_edge(host, context, body, body.method_calls[k], edge));
            assert(after.call_edges.contains(edge) <==> told.call_edges.contains(edge)
                || body_gives(host, context, body, edge));
            if exists|b: int|
                0 <= b < count && body_gives(host, context, #[trigger] context.bodies[b], edge) {
                let b = choose|b: int|
                    0 <= b < count && body_gives(host, context, #[trigger] context.bodies[b], edge);
                assert(b < n || b == n);
            }
        }
    }
}

/// Nothing but calls and their places is told.
pub open spec fn only_calls_told(before: HostView, after: HostView) -> bool {
    HostView { call_edges: before.call_edges, spans: before.spans, ..after } == before
}

} // verus!
