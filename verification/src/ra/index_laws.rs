//! What the index tells of the items that stand in the sources.

use crate::ra::host::HostView;
use crate::ra::kinds::DefKind;
use crate::ra::row_laws::{law_rows_are_added, rows_kept, same_rows};
use crate::ra::rows::{FieldView, ImplementsView, MethodView, VariantView};
use crate::ra::scope::{next_index, qualified, ContextView};
use crate::ra::seed_types::{
    head_id, head_of, looks_like_param, name_at, param_id, path_type_at, primitive_names, type_id,
    with_new_def, with_type_at, with_types_below,
};
use crate::ra::seeding::{
    def_id, impl_types, item_in_test, named_item, with_field, with_fn, with_impl, with_impl_def,
    with_impl_types, with_item_at, with_methods, with_record_fields, with_tuple_fields,
    with_variants, FileView, MethodContainer, Seeded,
};
use crate::ra::syntax::{child, child_from, is_child, token_from, Class, SyntaxView};
use crate::text::decimal;
use vstd::prelude::*;

verus! {

/// Row `j` is directly below row `i`: one level deeper, with nothing between them
/// that is not below row `i` too.
pub open spec fn below(tree: Seq<SyntaxView>, i: int, j: int) -> bool {
    &&& 0 <= i < j < tree.len()
    &&& tree[j].depth == tree[i].depth + 1
    &&& forall|k: int| i < k < j ==> (#[trigger] tree[k]).depth > tree[i].depth
}

/// Row `j` is a node of the kind, directly below row `i`.
pub open spec fn node_below(tree: Seq<SyntaxView>, i: int, j: int, kind: Seq<char>) -> bool {
    below(tree, i, j) && !tree[j].is_token && tree[j].kind == kind
}

/// Row `j` is the first node of the kind directly below row `i`.
pub open spec fn first_below(tree: Seq<SyntaxView>, i: int, j: int, kind: Seq<char>) -> bool {
    node_below(tree, i, j, kind) && forall|k: int|
        i < k < j ==> !#[trigger] node_below(tree, i, k, kind)
}

/// The kind is one of types.
pub open spec fn is_type_kind(kind: Seq<char>) -> bool {
    kind == "ARRAY_TYPE"@ || kind == "DYN_TRAIT_TYPE"@ || kind == "FN_PTR_TYPE"@ || kind
        == "FOR_TYPE"@ || kind == "IMPL_TRAIT_TYPE"@ || kind == "INFER_TYPE"@ || kind
        == "MACRO_TYPE"@ || kind == "NEVER_TYPE"@ || kind == "PAREN_TYPE"@ || kind
        == "PATH_TYPE"@ || kind == "PTR_TYPE"@ || kind == "REF_TYPE"@ || kind == "SLICE_TYPE"@
        || kind == "TUPLE_TYPE"@
}

/// Row `j` is a type directly below row `i`.
pub open spec fn type_below(tree: Seq<SyntaxView>, i: int, j: int) -> bool {
    below(tree, i, j) && !tree[j].is_token && is_type_kind(tree[j].kind)
}

/// Row `j` is the first type directly below row `i` from row `from` on.
pub open spec fn first_type_below(tree: Seq<SyntaxView>, i: int, from: int, j: int) -> bool {
    type_below(tree, i, j) && from <= j && forall|k: int|
        from <= k < j ==> !#[trigger] type_below(tree, i, k)
}

/// Types are the nodes of the type kinds.
pub proof fn law_types_are_of_type_kinds(kind: Seq<char>)
    ensures
        Class::Type.kinds().contains(kind) <==> is_type_kind(kind),
{
    let kinds = Class::Type.kinds();
    assert(kinds[0] == "ARRAY_TYPE"@ && kinds[1] == "DYN_TRAIT_TYPE"@ && kinds[2]
        == "FN_PTR_TYPE"@ && kinds[3] == "FOR_TYPE"@ && kinds[4] == "IMPL_TRAIT_TYPE"@ && kinds[5]
        == "INFER_TYPE"@ && kinds[6] == "MACRO_TYPE"@ && kinds[7] == "NEVER_TYPE"@ && kinds[8]
        == "PAREN_TYPE"@ && kinds[9] == "PATH_TYPE"@ && kinds[10] == "PTR_TYPE"@ && kinds[11]
        == "REF_TYPE"@ && kinds[12] == "SLICE_TYPE"@ && kinds[13] == "TUPLE_TYPE"@);
}

/// The kind is one of items.
pub open spec fn is_item_kind(kind: Seq<char>) -> bool {
    kind == "ASM_EXPR"@ || kind == "CONST"@ || kind == "ENUM"@ || kind == "EXTERN_BLOCK"@ || kind
        == "EXTERN_CRATE"@ || kind == "FN"@ || kind == "IMPL"@ || kind == "MACRO_CALL"@ || kind
        == "MACRO_DEF"@ || kind == "MACRO_RULES"@ || kind == "MODULE"@ || kind == "STATIC"@ || kind
        == "STRUCT"@ || kind == "TRAIT"@ || kind == "TYPE_ALIAS"@ || kind == "UNION"@ || kind
        == "USE"@
}

/// Items are the nodes of the item kinds.
pub proof fn law_items_are_of_item_kinds(kind: Seq<char>)
    ensures
        Class::Item.kinds().contains(kind) <==> is_item_kind(kind),
{
    let kinds = Class::Item.kinds();
    assert(kinds[0] == "ASM_EXPR"@ && kinds[1] == "CONST"@ && kinds[2] == "ENUM"@ && kinds[3]
        == "EXTERN_BLOCK"@ && kinds[4] == "EXTERN_CRATE"@ && kinds[5] == "FN"@ && kinds[6]
        == "IMPL"@ && kinds[7] == "MACRO_CALL"@ && kinds[8] == "MACRO_DEF"@ && kinds[9]
        == "MACRO_RULES"@ && kinds[10] == "MODULE"@ && kinds[11] == "STATIC"@ && kinds[12]
        == "STRUCT"@ && kinds[13] == "TRAIT"@ && kinds[14] == "TYPE_ALIAS"@ && kinds[15]
        == "UNION"@ && kinds[16] == "USE"@);
}

/// The one kind of each class that has but one.
pub proof fn lemma_single_classes(kind: Seq<char>)
    ensures
        Class::Name.kinds().contains(kind) <==> kind == "NAME"@,
        Class::NameRef.kinds().contains(kind) <==> kind == "NAME_REF"@,
        Class::Visibility.kinds().contains(kind) <==> kind == "VISIBILITY"@,
        Class::RecordField.kinds().contains(kind) <==> kind == "RECORD_FIELD"@,
        Class::TupleField.kinds().contains(kind) <==> kind == "TUPLE_FIELD"@,
        Class::VariantList.kinds().contains(kind) <==> kind == "VARIANT_LIST"@,
        Class::Variant.kinds().contains(kind) <==> kind == "VARIANT"@,
        Class::AssocItemList.kinds().contains(kind) <==> kind == "ASSOC_ITEM_LIST"@,
        Class::ItemList.kinds().contains(kind) <==> kind == "ITEM_LIST"@,
        Class::RetType.kinds().contains(kind) <==> kind == "RET_TYPE"@,
        Class::BlockExpr.kinds().contains(kind) <==> kind == "BLOCK_EXPR"@,
        Class::Path.kinds().contains(kind) <==> kind == "PATH"@,
        Class::PathSegment.kinds().contains(kind) <==> kind == "PATH_SEGMENT"@,
        Class::GenericArgList.kinds().contains(kind) <==> kind == "GENERIC_ARG_LIST"@,
        Class::TypeArg.kinds().contains(kind) <==> kind == "TYPE_ARG"@,
        Class::Fn.kinds().contains(kind) <==> kind == "FN"@,
        Class::FieldList.kinds().contains(kind) <==> kind == "RECORD_FIELD_LIST"@ || kind
            == "TUPLE_FIELD_LIST"@,
{
    assert(Class::Name.kinds()[0] == "NAME"@);
    assert(Class::NameRef.kinds()[0] == "NAME_REF"@);
    assert(Class::Visibility.kinds()[0] == "VISIBILITY"@);
    assert(Class::RecordField.kinds()[0] == "RECORD_FIELD"@);
    assert(Class::TupleField.kinds()[0] == "TUPLE_FIELD"@);
    assert(Class::VariantList.kinds()[0] == "VARIANT_LIST"@);
    assert(Class::Variant.kinds()[0] == "VARIANT"@);
    assert(Class::AssocItemList.kinds()[0] == "ASSOC_ITEM_LIST"@);
    assert(Class::ItemList.kinds()[0] == "ITEM_LIST"@);
    assert(Class::RetType.kinds()[0] == "RET_TYPE"@);
    assert(Class::BlockExpr.kinds()[0] == "BLOCK_EXPR"@);
    assert(Class::Path.kinds()[0] == "PATH"@);
    assert(Class::PathSegment.kinds()[0] == "PATH_SEGMENT"@);
    assert(Class::GenericArgList.kinds()[0] == "GENERIC_ARG_LIST"@);
    assert(Class::TypeArg.kinds()[0] == "TYPE_ARG"@);
    assert(Class::Fn.kinds()[0] == "FN"@);
    assert(Class::FieldList.kinds()[0] == "RECORD_FIELD_LIST"@);
    assert(Class::FieldList.kinds()[1] == "TUPLE_FIELD_LIST"@);
}

/// The first child of a class from a row on is the one before which there is none.
pub proof fn lemma_first_child(tree: Seq<SyntaxView>, i: int, from: int, class: Class, j: int)
    requires
        below(tree, i, j),
        is_child(tree, i, j, class),
        i < from <= j,
        forall|k: int| from <= k < j ==> !#[trigger] is_child(tree, i, k, class),
    ensures
        child_from(tree, i, from, class) == Some(j),
    decreases j - from,
{
    if from < j {
        assert(!is_child(tree, i, from, class));
        assert(tree[from].depth > tree[i].depth);
        lemma_first_child(tree, i, from + 1, class, j);
    }
}

/// What is found as a child is directly below.
pub proof fn lemma_child_below(tree: Seq<SyntaxView>, i: int, from: int, class: Class)
    requires
        i < from,
        forall|k: int| i < k < from && k < tree.len() ==> (#[trigger] tree[k]).depth
            > tree[i].depth,
    ensures
        match child_from(tree, i, from, class) {
            Some(j) => from <= j && below(tree, i, j) && is_child(tree, i, j, class) && forall|
                k: int,
            |
                from <= k < j ==> !#[trigger] is_child(tree, i, k, class),
            None => forall|j: int|
                from <= j && #[trigger] below(tree, i, j) ==> !is_child(tree, i, j, class),
        },
    decreases tree.len() - from,
{
    if 0 <= i && from < tree.len() && tree[from].depth > tree[i].depth {
        if !is_child(tree, i, from, class) {
            lemma_child_below(tree, i, from + 1, class);
        }
    } else {
        assert forall|j: int| from <= j && #[trigger] below(tree, i, j) implies !is_child(
            tree,
            i,
            j,
            class,
        ) by {
            if from < j {
                assert(tree[from].depth > tree[i].depth);
            }
        }
    }
}

pub proof fn lemma_first_token(tree: Seq<SyntaxView>, i: int, from: int, kind: Seq<char>, j: int)
    requires
        below(tree, i, j),
        tree[j].is_token,
        tree[j].kind == kind,
        i < from <= j,
        forall|k: int|
            from <= k < j ==> !(#[trigger] below(tree, i, k) && tree[k].is_token && tree[k].kind
                == kind),
    ensures
        token_from(tree, i, from, kind) == Some(j),
    decreases j - from,
{
    if from < j {
        assert(tree[from].depth > tree[i].depth);
        if tree[from].depth == tree[i].depth + 1 && tree[from].is_token && tree[from].kind == kind {
            assert(below(tree, i, from));
        }
        lemma_first_token(tree, i, from + 1, kind, j);
    }
}

/// The first type of an item.
pub proof fn lemma_first_type(tree: Seq<SyntaxView>, i: int, from: int, j: int)
    requires
        first_type_below(tree, i, from, j),
        i < from,
    ensures
        child_from(tree, i, from, Class::Type) == Some(j),
{
    law_types_are_of_type_kinds(tree[j].kind);
    assert forall|k: int| from <= k < j implies !#[trigger] is_child(tree, i, k, Class::Type) by {
        law_types_are_of_type_kinds(tree[k].kind);
        if is_child(tree, i, k, Class::Type) {
            assert(below(tree, i, k));
            assert(type_below(tree, i, k));
        }
    }
    lemma_first_child(tree, i, from, Class::Type, j);
}

/// The first node of a kind that is a class of its own.
pub proof fn lemma_first_of_kind(
    tree: Seq<SyntaxView>,
    i: int,
    j: int,
    kind: Seq<char>,
    class: Class,
)
    requires
        first_below(tree, i, j, kind),
        forall|other: Seq<char>| #[trigger] class.kinds().contains(other) <==> other == kind,
    ensures
        child(tree, i, class) == Some(j),
{
    assert forall|k: int| i + 1 <= k < j implies !#[trigger] is_child(tree, i, k, class) by {
        if is_child(tree, i, k, class) {
            assert(class.kinds().contains(tree[k].kind));
            assert(below(tree, i, k));
            assert(node_below(tree, i, k, kind));
        }
    }
    assert(class.kinds().contains(tree[j].kind));
    lemma_first_child(tree, i, i + 1, class, j);
}

/// Every definition stays as it is, and so does what is told of definitions.
pub open spec fn defs_stay(before: HostView, after: HostView) -> bool {
    &&& forall|def: u64| #[trigger]
        before.defs.contains_key(def) ==> after.defs.contains_key(def) && after.defs[def]
            == before.defs[def]
    &&& before.public == after.public
    &&& before.in_test == after.in_test
    &&& before.fn_returns == after.fn_returns
    &&& before.fn_errors == after.fn_errors
    &&& before.spans == after.spans
    &&& before.nodes == after.nodes
}

/// Types change no rows, and no definition that is there.
pub proof fn lemma_type_rows(tree: Seq<SyntaxView>, rel_path: Seq<char>, host: HostView, i: int)
    ensures
        same_rows(host, with_type_at(tree, rel_path, host, i)),
        defs_stay(host, with_type_at(tree, rel_path, host, i)),
    decreases tree.len() - i, 0nat,
{
    if tree[i].kind == "PATH_TYPE"@ {
        if let Some((path, list)) = path_type_at(tree, i) {
            let named = with_new_def(
                host,
                head_id(path),
                crate::search::path_tail(path),
                DefKind::Other,
                path,
            );
            assert(defs_stay(host, named));
            assert(defs_stay(
                host,
                with_new_def(
                    host,
                    param_id(path),
                    path,
                    DefKind::AssocType,
                    "type_param::"@ + path,
                ),
            ));
            if let Some(list) = list {
                if i < list < tree.len() {
                    lemma_types_rows(tree, rel_path, named, list, list + 1, Class::TypeArg);
                    let told = with_types_below(
                        tree,
                        rel_path,
                        named,
                        list,
                        list + 1,
                        Class::TypeArg,
                    );
                    assert(defs_stay(host, told));
                }
            }
        }
    } else if tree[i].kind == "TUPLE_TYPE"@ {
        if 0 <= i < tree.len() {
            lemma_types_rows(tree, rel_path, host, i, i + 1, Class::Type);
        }
    } else if let Some(j) = child(tree, i, Class::Type) {
        if i < j < tree.len() {
            lemma_type_rows(tree, rel_path, host, j);
        }
    }
}

proof fn lemma_types_rows(
    tree: Seq<SyntaxView>,
    rel_path: Seq<char>,
    host: HostView,
    i: int,
    from: int,
    class: Class,
)
    ensures
        same_rows(host, with_types_below(tree, rel_path, host, i, from, class)),
        defs_stay(host, with_types_below(tree, rel_path, host, i, from, class)),
    decreases tree.len() - from, 1nat,
{
    if let Some(j) = child_from(tree, i, from, class) {
        if from <= j < tree.len() {
            let place = if class is Type {
                Some(j)
            } else {
                child(tree, j, Class::Type)
            };
            let told = match place {
                Some(ty) => if from <= ty < tree.len() {
                    with_type_at(tree, rel_path, host, ty)
                } else {
                    host
                },
                None => host,
            };
            if place is Some && from <= place->0 < tree.len() {
                lemma_type_rows(tree, rel_path, host, place->0);
            }
            lemma_types_rows(tree, rel_path, told, i, j + 1, class);
        }
    }
}

/// The type at the row is a path to a data type or a trait, and no primitive type or
/// type parameter.
pub open spec fn names_type(tree: Seq<SyntaxView>, i: int, path: Seq<char>) -> bool {
    &&& 0 <= i < tree.len()
    &&& tree[i].kind == "PATH_TYPE"@
    &&& path_type_at(tree, i) matches Some((found, list)) && found == path && (list matches Some(l)
        ==> i < l < tree.len())
    &&& !primitive_names().contains(path)
    &&& !looks_like_param(path)
}

/// The head of a type that names one is the definition of its path.
pub proof fn lemma_named_head(
    tree: Seq<SyntaxView>,
    file: FileView,
    host: HostView,
    i: int,
    path: Seq<char>,
)
    requires
        names_type(tree, i, path),
    ensures
        head_of(
            with_type_at(tree, file.rel_path, host, i),
            type_id(file.rel_path, tree[i]),
        ) == Some(head_id(path)),
{
}

/// Functions in an impl or a trait tell of themselves as methods of its owner, and
/// of no other rows.
proof fn lemma_methods(
    seeded: Seeded,
    file: FileView,
    tree: Seq<SyntaxView>,
    i: int,
    from: int,
    scope: Seq<Seq<char>>,
    in_test: bool,
    owner: Option<u64>,
    container: MethodContainer,
)
    requires
        0 <= i < from,
        i < tree.len(),
        forall|k: int| i < k < from && k < tree.len() ==> (#[trigger] tree[k]).depth
            > tree[i].depth,
    ensures
        ({
            let before = seeded.host;
            let after = with_methods(
                seeded,
                file,
                tree,
                i,
                from,
                scope,
                in_test,
                owner,
                container,
            ).host;
            &&& rows_kept(before, after)
            &&& before.implements == after.implements
            &&& before.from_impls == after.from_impls
            &&& before.fields == after.fields
            &&& before.variants == after.variants
            &&& container is Impl ==> before.trait_methods == after.trait_methods
            &&& container is Trait ==> before.methods == after.methods
            &&& container is Impl && owner is Some ==> forall|m: int|
                from <= m && #[trigger] node_below(tree, i, m, "FN"@) ==> is_told_method(
                    tree,
                    m,
                    owner->0,
                    after.methods,
                )
            &&& container is Trait && owner is Some ==> forall|m: int|
                from <= m && #[trigger] node_below(tree, i, m, "FN"@) ==> is_told_method(
                    tree,
                    m,
                    owner->0,
                    after.trait_methods,
                )
        }),
    decreases tree.len() - from,
{
    lemma_child_below(tree, i, from, Class::Fn);
    if let Some(j) = child_from(tree, i, from, Class::Fn) {
        let told = with_fn(
            seeded,
            file,
            tree,
            j,
            scope,
            in_test,
            DefKind::Method,
            owner,
            container,
        );
        let name = crate::ra::seeding::fn_name(tree, j);
        let path = crate::ra::seeding::fn_path(
            seeded.host,
            scope,
            DefKind::Method,
            owner,
            name,
        );
        let method = def_id("method"@, path, tree[j]);
        if let Some(owner) = owner {
            law_rows_are_added(seeded.host.methods, MethodView { owner, method });
            law_rows_are_added(seeded.host.trait_methods, MethodView { owner, method });
        }
        lemma_fn_rows(
            seeded,
            file,
            tree,
            j,
            scope,
            in_test,
            DefKind::Method,
            owner,
            container,
        );
        lemma_methods(told, file, tree, i, j + 1, scope, in_test, owner, container);
        let after = with_methods(told, file, tree, i, j + 1, scope, in_test, owner, container).host;
        if let Some(owner) = owner {
            assert(is_method_at(tree, j, method)) by {
                assert(method == def_id("method"@, seeded.host.path_of(owner) + "::"@ + name, tree[j]));
            }
            if container is Impl {
                assert(after.methods.contains(MethodView { owner, method }));
                assert(is_told_method(tree, j, owner, after.methods));
            }
            if container is Trait {
                assert(after.trait_methods.contains(MethodView { owner, method }));
                assert(is_told_method(tree, j, owner, after.trait_methods));
            }
            assert forall|m: int| from <= m && #[trigger] node_below(tree, i, m, "FN"@) implies j
                <= m by {
                lemma_single_classes(tree[m].kind);
                if m < j {
                    assert(is_child(tree, i, m, Class::Fn));
                }
            }
        }
    } else {
        assert forall|m: int| from <= m implies !#[trigger] node_below(tree, i, m, "FN"@) by {
            if node_below(tree, i, m, "FN"@) {
                lemma_single_classes(tree[m].kind);
                assert(is_child(tree, i, m, Class::Fn));
            }
        }
    }
}

/// The definition is that of the method at the row.
pub open spec fn is_method_at(tree: Seq<SyntaxView>, m: int, method: u64) -> bool {
    exists|owner_path: Seq<char>|
        method == #[trigger] def_id(
            "method"@,
            owner_path + "::"@ + crate::ra::seeding::fn_name(tree, m),
            tree[m],
        )
}

/// The method at the row is told as the owner's.
pub open spec fn is_told_method(
    tree: Seq<SyntaxView>,
    m: int,
    owner: u64,
    rows: Seq<MethodView>,
) -> bool {
    exists|method: u64|
        is_method_at(tree, m, method) && #[trigger] rows.contains(MethodView { owner, method })
}

/// A function tells of itself as a method of its owner, and of no other rows.
proof fn lemma_fn_rows(
    seeded: Seeded,
    file: FileView,
    tree: Seq<SyntaxView>,
    i: int,
    scope: Seq<Seq<char>>,
    in_test: bool,
    kind: DefKind,
    owner: Option<u64>,
    container: MethodContainer,
)
    ensures
        ({
            let before = seeded.host;
            let after = with_fn(
                seeded,
                file,
                tree,
                i,
                scope,
                in_test,
                kind,
                owner,
                container,
            ).host;
            let name = crate::ra::seeding::fn_name(tree, i);
            let path = crate::ra::seeding::fn_path(seeded.host, scope, kind, owner, name);
            let method = def_id(crate::ra::seeding::fn_word(kind), path, tree[i]);
            &&& same_rows(
                before,
                HostView {
                    methods: before.methods,
                    trait_methods: before.trait_methods,
                    ..after
                },
            )
            &&& after.methods == (if container is Impl && owner is Some {
                crate::ra::store::with_row(before.methods, MethodView { owner: owner->0, method })
            } else {
                before.methods
            })
            &&& after.trait_methods == (if container is Trait && owner is Some {
                crate::ra::store::with_row(
                    before.trait_methods,
                    MethodView { owner: owner->0, method },
                )
            } else {
                before.trait_methods
            })
        }),
{
    let name = crate::ra::seeding::fn_name(tree, i);
    let path = crate::ra::seeding::fn_path(seeded.host, scope, kind, owner, name);
    let word = crate::ra::seeding::fn_word(kind);
    let def = def_id(word, path, tree[i]);
    let named = crate::ra::seeding::with_named(
        seeded.host,
        file,
        tree,
        i,
        word,
        kind,
        name,
        path,
        in_test || crate::ra::seed_types::mentions_test(tree, i),
    );
    let row = MethodView { owner: owner->0, method: def };
    let owned = match owner {
        Some(owner) => match container {
            MethodContainer::Impl => HostView {
                methods: crate::ra::store::with_row(named.methods, row),
                ..named
            },
            MethodContainer::Trait => HostView {
                trait_methods: crate::ra::store::with_row(named.trait_methods, row),
                ..named
            },
            MethodContainer::Free => named,
        },
        None => named,
    };
    if let Some(ty) = crate::ra::seeding::return_row(tree, i) {
        lemma_type_rows(tree, file.rel_path, owned, ty);
    }
}

/// An impl of a trait: its trait stands before `for` and its type after it. The
/// index tells that the type implements the trait, and of no other trait; and every
/// function of the impl is a method of the type.
pub proof fn law_trait_impls_belong_to_the_type_after_for(
    seeded: Seeded,
    file: FileView,
    tree: Seq<SyntaxView>,
    i: int,
    scope: Seq<Seq<char>>,
    in_test: bool,
    before_for: int,
    for_token: int,
    after_for: int,
    trait_path: Seq<char>,
    type_path: Seq<char>,
)
    requires
        0 <= i < tree.len(),
        tree[i].kind == "IMPL"@,
        first_type_below(tree, i, i + 1, before_for),
        first_type_below(tree, i, before_for + 1, after_for),
        below(tree, i, for_token) && tree[for_token].is_token && tree[for_token].kind == "FOR_KW"@,
        forall|k: int|
            i < k < for_token ==> !(#[trigger] below(tree, i, k) && tree[k].is_token && tree[k].kind
                == "FOR_KW"@),
        tree[before_for].start < tree[for_token].start,
        names_type(tree, before_for, trait_path),
        names_type(tree, after_for, type_path),
    ensures
        ({
            let before = seeded.host;
            let after = with_item_at(seeded, file, tree, i, scope, in_test).host;
            let index = next_index(seeded.context.impls);
            let own = ImplementsView {
                owner: head_id(type_path),
                trait_def: head_id(trait_path),
                impl_def: def_id(
                    "impl"@,
                    qualified(scope, "impl#"@ + decimal(index as nat)),
                    tree[i],
                ),
            };
            &&& forall|row: ImplementsView| #[trigger]
                after.implements.contains(row) <==> before.implements.contains(row) || row == own
            &&& forall|list: int, m: int|
                #![trigger first_below(tree, i, list, "ASSOC_ITEM_LIST"@), node_below(tree, list, m, "FN"@)]
                first_below(tree, i, list, "ASSOC_ITEM_LIST"@) && node_below(tree, list, m, "FN"@)
                    ==> is_told_method(tree, m, head_id(type_path), after.methods)
            &&& before.trait_methods == after.trait_methods
        }),
{
    lemma_impl_words(tree, i);
    lemma_first_type(tree, i, i + 1, before_for);
    lemma_first_type(tree, i, before_for + 1, after_for);
    lemma_first_token(tree, i, i + 1, "FOR_KW"@, for_token);
    assert(impl_types(tree, i) == (Some(before_for), Some(after_for)));
    let index = next_index(seeded.context.impls);
    let name = "impl#"@ + decimal(index as nat);
    let path = qualified(scope, name);
    let def = def_id("impl"@, path, tree[i]);
    let named = with_impl_def(seeded.host, file, tree, i, name, path, in_test);
    let selfed = with_type_at(tree, file.rel_path, named, after_for);
    lemma_type_rows(tree, file.rel_path, named, after_for);
    lemma_named_head(tree, file, named, after_for, type_path);
    let traited = with_type_at(tree, file.rel_path, selfed, before_for);
    lemma_type_rows(tree, file.rel_path, selfed, before_for);
    lemma_named_head(tree, file, selfed, before_for, trait_path);
    let own = ImplementsView {
        owner: head_id(type_path),
        trait_def: head_id(trait_path),
        impl_def: def,
    };
    law_rows_are_added(traited.implements, own);
    let implemented = HostView {
        implements: crate::ra::store::with_row(traited.implements, own),
        ..traited
    };
    if let Some(source) = crate::ra::seeding::from_source(tree, Some(before_for)) {
        lemma_type_rows(tree, file.rel_path, implemented, source);
    }
    let told = Seeded {
        host: with_impl_types(named, file, tree, i, def),
        context: ContextView { impls: index, ..seeded.context },
    };
    assert(told.host.implements == implemented.implements);
    assert(crate::ra::seeding::impl_owner(named, file, tree, i) == Some(head_id(type_path)));
    lemma_impl_methods(seeded, told, file, tree, i, scope, in_test, head_id(type_path), named);
}

/// What the functions of an impl add.
pub proof fn lemma_impl_methods(
    seeded: Seeded,
    told: Seeded,
    file: FileView,
    tree: Seq<SyntaxView>,
    i: int,
    scope: Seq<Seq<char>>,
    in_test: bool,
    owner: u64,
    named: HostView,
)
    requires
        0 <= i < tree.len(),
        crate::ra::seeding::impl_owner(named, file, tree, i) == Some(owner),
        ({
            let index = next_index(seeded.context.impls);
            let name = "impl#"@ + decimal(index as nat);
            let path = qualified(scope, name);
            &&& named == with_impl_def(seeded.host, file, tree, i, name, path, in_test)
            &&& told == (Seeded {
                host: with_impl_types(named, file, tree, i, def_id("impl"@, path, tree[i])),
                context: ContextView { impls: index, ..seeded.context },
            })
        }),
    ensures
        ({
            let after = with_impl(seeded, file, tree, i, scope, in_test).host;
            &&& after.implements == told.host.implements
            &&& after.trait_methods == told.host.trait_methods
            &&& after.from_impls == told.host.from_impls
            &&& rows_kept(told.host, after)
            &&& forall|list: int, m: int|
                #![trigger first_below(tree, i, list, "ASSOC_ITEM_LIST"@), node_below(tree, list, m, "FN"@)]
                first_below(tree, i, list, "ASSOC_ITEM_LIST"@) && node_below(tree, list, m, "FN"@)
                    ==> is_told_method(tree, m, owner, after.methods)
        }),
{
    let after = with_impl(seeded, file, tree, i, scope, in_test).host;
    lemma_child_below(tree, i, i + 1, Class::AssocItemList);
    if let Some(l) = child(tree, i, Class::AssocItemList) {
        lemma_methods(
            told,
            file,
            tree,
            l,
            l + 1,
            scope,
            in_test || crate::ra::seed_types::mentions_test(tree, i),
            Some(owner),
            MethodContainer::Impl,
        );
    }
    assert forall|list: int, m: int|
        #![trigger first_below(tree, i, list, "ASSOC_ITEM_LIST"@), node_below(tree, list, m, "FN"@)]
        first_below(tree, i, list, "ASSOC_ITEM_LIST"@) && node_below(
            tree,
            list,
            m,
            "FN"@,
        ) implies is_told_method(tree, m, owner, after.methods) by {
        assert forall|other: Seq<char>| #[trigger]
            Class::AssocItemList.kinds().contains(other) <==> other == "ASSOC_ITEM_LIST"@ by {
            lemma_single_classes(other);
        }
        lemma_first_of_kind(tree, i, list, "ASSOC_ITEM_LIST"@, Class::AssocItemList);
    }
}

/// An item of kind IMPL is told as an impl.
proof fn lemma_impl_words(tree: Seq<SyntaxView>, i: int)
    requires
        tree[i].kind == "IMPL"@,
    ensures
        tree[i].kind != "FN"@,
{
    reveal_strlit("IMPL");
    reveal_strlit("FN");
    assert("IMPL"@.len() == 4 && "FN"@.len() == 2);
}

/// An impl without a trait tells of none: its type is the one that it names, and
/// every function of it is a method of that type.
pub proof fn law_plain_impls_belong_to_their_type(
    seeded: Seeded,
    file: FileView,
    tree: Seq<SyntaxView>,
    i: int,
    scope: Seq<Seq<char>>,
    in_test: bool,
    ty: int,
    type_path: Seq<char>,
)
    requires
        0 <= i < tree.len(),
        tree[i].kind == "IMPL"@,
        first_type_below(tree, i, i + 1, ty),
        forall|k: int|
            !(#[trigger] below(tree, i, k) && tree[k].is_token && tree[k].kind == "FOR_KW"@),
        names_type(tree, ty, type_path),
    ensures
        ({
            let before = seeded.host;
            let after = with_item_at(seeded, file, tree, i, scope, in_test).host;
            &&& before.implements == after.implements
            &&& before.from_impls == after.from_impls
            &&& before.trait_methods == after.trait_methods
            &&& forall|list: int, m: int|
                #![trigger first_below(tree, i, list, "ASSOC_ITEM_LIST"@), node_below(tree, list, m, "FN"@)]
                first_below(tree, i, list, "ASSOC_ITEM_LIST"@) && node_below(tree, list, m, "FN"@)
                    ==> is_told_method(tree, m, head_id(type_path), after.methods)
        }),
{
    lemma_impl_words(tree, i);
    lemma_first_type(tree, i, i + 1, ty);
    lemma_no_token(tree, i, i + 1, "FOR_KW"@);
    assert(impl_types(tree, i) == (None::<int>, Some(ty)));
    let index = next_index(seeded.context.impls);
    let name = "impl#"@ + decimal(index as nat);
    let path = qualified(scope, name);
    let def = def_id("impl"@, path, tree[i]);
    let named = with_impl_def(seeded.host, file, tree, i, name, path, in_test);
    lemma_type_rows(tree, file.rel_path, named, ty);
    lemma_named_head(tree, file, named, ty, type_path);
    let told = Seeded {
        host: with_impl_types(named, file, tree, i, def),
        context: ContextView { impls: index, ..seeded.context },
    };
    lemma_impl_methods(seeded, told, file, tree, i, scope, in_test, head_id(type_path), named);
}

pub proof fn lemma_no_token(tree: Seq<SyntaxView>, i: int, from: int, kind: Seq<char>)
    requires
        i < from,
        forall|k: int| i < k < from && k < tree.len() ==> (#[trigger] tree[k]).depth
            > tree[i].depth,
        forall|k: int|
            !(#[trigger] below(tree, i, k) && tree[k].is_token && tree[k].kind == kind),
    ensures
        token_from(tree, i, from, kind) is None,
    decreases tree.len() - from,
{
    if 0 <= i && from < tree.len() && tree[from].depth > tree[i].depth {
        if tree[from].depth == tree[i].depth + 1 {
            assert(below(tree, i, from));
        }
        lemma_no_token(tree, i, from + 1, kind);
    }
}

/// What an item of a syntax kind defines, by the word that its definitions are told
/// apart by.
pub proof fn law_items_define_what_they_are(kind: Seq<char>)
    ensures
        kind == "STRUCT"@ <==> named_item(kind) == Some(("struct"@, DefKind::Struct)),
        kind == "ENUM"@ <==> named_item(kind) == Some(("enum"@, DefKind::Enum)),
        kind == "TRAIT"@ <==> named_item(kind) == Some(("trait"@, DefKind::Trait)),
        kind == "MODULE"@ <==> named_item(kind) == Some(("mod"@, DefKind::Mod)),
        kind == "UNION"@ <==> named_item(kind) == Some(("union"@, DefKind::Union)),
        kind == "TYPE_ALIAS"@ <==> named_item(kind) == Some(("type_alias"@, DefKind::TypeAlias)),
        kind == "CONST"@ <==> named_item(kind) == Some(("const"@, DefKind::Const)),
        kind == "STATIC"@ <==> named_item(kind) == Some(("static"@, DefKind::Static)),
        named_item(kind) is Some ==> kind != "FN"@ && kind != "IMPL"@ && kind != "MACRO_CALL"@,
{
    lemma_item_words();
}

/// The kinds of items are all different.
pub proof fn lemma_item_words()
    ensures
        "STRUCT"@.len() == 6 && "STRUCT"@[0] == 'S' && "STRUCT"@[3] == 'U',
        "STATIC"@.len() == 6 && "STATIC"@[0] == 'S' && "STATIC"@[3] == 'T',
        "MODULE"@.len() == 6 && "MODULE"@[0] == 'M',
        "ENUM"@.len() == 4 && "ENUM"@[0] == 'E',
        "IMPL"@.len() == 4 && "IMPL"@[0] == 'I',
        "TRAIT"@.len() == 5 && "TRAIT"@[0] == 'T',
        "UNION"@.len() == 5 && "UNION"@[0] == 'U',
        "CONST"@.len() == 5 && "CONST"@[0] == 'C',
        "TYPE_ALIAS"@.len() == 10 && "TYPE_ALIAS"@[0] == 'T',
        "MACRO_CALL"@.len() == 10 && "MACRO_CALL"@[0] == 'M',
        "FN"@.len() == 2,
{
    reveal_strlit("STRUCT");
    reveal_strlit("STATIC");
    reveal_strlit("MODULE");
    reveal_strlit("ENUM");
    reveal_strlit("IMPL");
    reveal_strlit("TRAIT");
    reveal_strlit("UNION");
    reveal_strlit("CONST");
    reveal_strlit("TYPE_ALIAS");
    reveal_strlit("MACRO_CALL");
    reveal_strlit("FN");
}

/// The item has the name: the text of the first name directly below it.
pub open spec fn has_name(tree: Seq<SyntaxView>, i: int, name: Seq<char>) -> bool {
    exists|j: int| #[trigger] first_below(tree, i, j, "NAME"@) && tree[j].text == name
}

pub proof fn lemma_has_name(tree: Seq<SyntaxView>, i: int, name: Seq<char>)
    requires
        has_name(tree, i, name),
    ensures
        name_at(tree, i) == Some(name),
{
    let j = choose|j: int| #[trigger] first_below(tree, i, j, "NAME"@) && tree[j].text == name;
    assert forall|other: Seq<char>| #[trigger]
        Class::Name.kinds().contains(other) <==> other == "NAME"@ by {
        lemma_single_classes(other);
    }
    lemma_first_of_kind(tree, i, j, "NAME"@, Class::Name);
}

/// Every function of a trait is told as a method of the trait.
pub proof fn law_trait_functions_are_methods_of_the_trait(
    seeded: Seeded,
    file: FileView,
    tree: Seq<SyntaxView>,
    i: int,
    scope: Seq<Seq<char>>,
    in_test: bool,
    name: Seq<char>,
    list: int,
    m: int,
)
    requires
        0 <= i < tree.len(),
        tree[i].kind == "TRAIT"@,
        has_name(tree, i, name),
        first_below(tree, i, list, "ASSOC_ITEM_LIST"@),
        node_below(tree, list, m, "FN"@),
    ensures
        ({
            let after = with_item_at(seeded, file, tree, i, scope, in_test).host;
            is_told_method(
                tree,
                m,
                def_id("trait"@, qualified(scope, name), tree[i]),
                after.trait_methods,
            ) && after.methods == seeded.host.methods
        }),
{
    lemma_item_words();
    lemma_has_name(tree, i, name);
    let def = def_id("trait"@, qualified(scope, name), tree[i]);
    let told = Seeded {
        host: crate::ra::seeding::with_named(
            seeded.host,
            file,
            tree,
            i,
            "trait"@,
            DefKind::Trait,
            name,
            qualified(scope, name),
            item_in_test(tree, i, name, in_test),
        ),
        ..seeded
    };
    assert forall|other: Seq<char>| #[trigger]
        Class::AssocItemList.kinds().contains(other) <==> other == "ASSOC_ITEM_LIST"@ by {
        lemma_single_classes(other);
    }
    lemma_first_of_kind(tree, i, list, "ASSOC_ITEM_LIST"@, Class::AssocItemList);
    lemma_methods(
        told,
        file,
        tree,
        list,
        list + 1,
        scope,
        in_test || crate::ra::seed_types::mentions_test(tree, i),
        Some(def),
        MethodContainer::Trait,
    );
}

/// How many tuple fields stand directly below row `i` before row `j`.
pub open spec fn fields_before(tree: Seq<SyntaxView>, i: int, j: int) -> nat
    decreases j - i,
{
    if j <= i + 1 {
        0
    } else {
        fields_before(tree, i, j - 1) + if node_below(tree, i, j - 1, "TUPLE_FIELD"@) {
            1nat
        } else {
            0nat
        }
    }
}

/// The field is told with its owner, its name and the type that stands first below
/// it.
pub open spec fn is_told_field(
    file: FileView,
    tree: Seq<SyntaxView>,
    j: int,
    owner: u64,
    name: Seq<char>,
    rows: Seq<FieldView>,
) -> bool {
    forall|ty: int| #[trigger]
        first_type_below(tree, j, j + 1, ty) ==> rows.contains(
            FieldView { owner, name, ty: type_id(file.rel_path, tree[ty]) },
        )
}

proof fn lemma_field(
    host: HostView,
    file: FileView,
    tree: Seq<SyntaxView>,
    j: int,
    owner: u64,
    name: Seq<char>,
    label: Seq<char>,
    tag: Seq<char>,
)
    ensures
        ({
            let after = with_field(host, file, tree, j, owner, name, label, tag);
            &&& is_told_field(file, tree, j, owner, name, after.fields)
            &&& rows_kept(host, after)
        }),
{
    let ty = match child(tree, j, Class::Type) {
        Some(ty) => type_id(file.rel_path, tree[ty]),
        None => crate::ra::seeding::untyped_field(label, tag, tree[j]),
    };
    if let Some(ty) = child(tree, j, Class::Type) {
        lemma_type_rows(tree, file.rel_path, host, ty);
    }
    law_rows_are_added(host.fields, FieldView { owner, name, ty });
    let after = with_field(host, file, tree, j, owner, name, label, tag);
    assert forall|ty: int| #[trigger] first_type_below(tree, j, j + 1, ty) implies
        after.fields.contains(FieldView { owner, name, ty: type_id(file.rel_path, tree[ty]) }) by {
        lemma_first_type(tree, j, j + 1, ty);
    }
}

proof fn lemma_record_fields(
    host: HostView,
    file: FileView,
    tree: Seq<SyntaxView>,
    i: int,
    from: int,
    owner: u64,
)
    requires
        0 <= i < from,
        i < tree.len(),
        forall|k: int| i < k < from && k < tree.len() ==> (#[trigger] tree[k]).depth
            > tree[i].depth,
    ensures
        ({
            let after = with_record_fields(host, file, tree, i, from, owner);
            &&& rows_kept(host, after)
            &&& forall|j: int, name: Seq<char>|
                #![trigger node_below(tree, i, j, "RECORD_FIELD"@), has_name(tree, j, name)]
                from <= j && node_below(tree, i, j, "RECORD_FIELD"@) && has_name(tree, j, name)
                    ==> is_told_field(file, tree, j, owner, name, after.fields)
        }),
    decreases tree.len() - from,
{
    lemma_child_below(tree, i, from, Class::RecordField);
    if let Some(j) = child_from(tree, i, from, Class::RecordField) {
        let name = match name_at(tree, j) {
            Some(name) => name,
            None => "_"@,
        };
        let told = with_field(host, file, tree, j, owner, name, "type:field:"@, name);
        lemma_field(host, file, tree, j, owner, name, "type:field:"@, name);
        lemma_record_fields(told, file, tree, i, j + 1, owner);
        let after = with_record_fields(host, file, tree, i, from, owner);
        assert forall|k: int, other: Seq<char>|
            #![trigger node_below(tree, i, k, "RECORD_FIELD"@), has_name(tree, k, other)]
            from <= k && node_below(tree, i, k, "RECORD_FIELD"@) && has_name(
                tree,
                k,
                other,
            ) implies is_told_field(file, tree, k, owner, other, after.fields) by {
            lemma_single_classes(tree[k].kind);
            if k < j {
                assert(is_child(tree, i, k, Class::RecordField));
            } else if k == j {
                lemma_has_name(tree, j, other);
            }
        }
    } else {
        assert forall|j: int| from <= j implies !#[trigger] node_below(
            tree,
            i,
            j,
            "RECORD_FIELD"@,
        ) by {
            if node_below(tree, i, j, "RECORD_FIELD"@) {
                lemma_single_classes(tree[j].kind);
                assert(is_child(tree, i, j, Class::RecordField));
            }
        }
    }
}

proof fn lemma_no_fields_between(tree: Seq<SyntaxView>, i: int, from: int, j: int)
    requires
        i < from <= j,
        forall|k: int| from <= k < j ==> !#[trigger] node_below(tree, i, k, "TUPLE_FIELD"@),
    ensures
        fields_before(tree, i, j) == fields_before(tree, i, from),
    decreases j - from,
{
    if from < j {
        lemma_no_fields_between(tree, i, from, j - 1);
        assert(!node_below(tree, i, j - 1, "TUPLE_FIELD"@));
    }
}

proof fn lemma_tuple_fields(
    host: HostView,
    file: FileView,
    tree: Seq<SyntaxView>,
    i: int,
    from: int,
    owner: u64,
    index: nat,
)
    requires
        0 <= i < from,
        i < tree.len(),
        forall|k: int| i < k < from && k < tree.len() ==> (#[trigger] tree[k]).depth
            > tree[i].depth,
        index == fields_before(tree, i, from),
    ensures
        ({
            let after = with_tuple_fields(host, file, tree, i, from, owner, index);
            &&& rows_kept(host, after)
            &&& forall|j: int|
                from <= j && #[trigger] node_below(tree, i, j, "TUPLE_FIELD"@) ==> is_told_field(
                    file,
                    tree,
                    j,
                    owner,
                    "#"@ + decimal(fields_before(tree, i, j)),
                    after.fields,
                )
        }),
    decreases tree.len() - from,
{
    lemma_child_below(tree, i, from, Class::TupleField);
    if let Some(j) = child_from(tree, i, from, Class::TupleField) {
        let name = "#"@ + decimal(index);
        let told = with_field(
            host,
            file,
            tree,
            j,
            owner,
            name,
            "type:tuple-field:"@,
            decimal(index),
        );
        lemma_field(host, file, tree, j, owner, name, "type:tuple-field:"@, decimal(index));
        assert forall|k: int| from <= k < j implies !#[trigger] node_below(
            tree,
            i,
            k,
            "TUPLE_FIELD"@,
        ) by {
            lemma_single_classes(tree[k].kind);
            assert(!is_child(tree, i, k, Class::TupleField));
        }
        lemma_no_fields_between(tree, i, from, j);
        lemma_single_classes(tree[j].kind);
        assert(node_below(tree, i, j, "TUPLE_FIELD"@));
        assert(fields_before(tree, i, j + 1) == index + 1);
        lemma_tuple_fields(told, file, tree, i, j + 1, owner, index + 1);
        let after = with_tuple_fields(host, file, tree, i, from, owner, index);
        assert forall|k: int| from <= k && #[trigger] node_below(
            tree,
            i,
            k,
            "TUPLE_FIELD"@,
        ) implies is_told_field(
            file,
            tree,
            k,
            owner,
            "#"@ + decimal(fields_before(tree, i, k)),
            after.fields,
        ) by {}
    } else {
        assert forall|j: int| from <= j implies !#[trigger] node_below(
            tree,
            i,
            j,
            "TUPLE_FIELD"@,
        ) by {
            if node_below(tree, i, j, "TUPLE_FIELD"@) {
                lemma_single_classes(tree[j].kind);
                assert(is_child(tree, i, j, Class::TupleField));
            }
        }
    }
}

/// Every field of a struct is told as the struct's, with its type: a record field
/// by its name, a tuple field by the number of fields before it.
pub proof fn law_fields_belong_to_their_struct(
    seeded: Seeded,
    file: FileView,
    tree: Seq<SyntaxView>,
    i: int,
    scope: Seq<Seq<char>>,
    in_test: bool,
    name: Seq<char>,
    list: int,
)
    requires
        0 <= i < tree.len(),
        tree[i].kind == "STRUCT"@,
        has_name(tree, i, name),
        first_below(tree, i, list, "RECORD_FIELD_LIST"@) || first_below(
            tree,
            i,
            list,
            "TUPLE_FIELD_LIST"@,
        ),
        forall|k: int|
            i < k < list ==> !(#[trigger] node_below(tree, i, k, "RECORD_FIELD_LIST"@))
                && !node_below(tree, i, k, "TUPLE_FIELD_LIST"@),
    ensures
        ({
            let owner = def_id("struct"@, qualified(scope, name), tree[i]);
            let after = with_item_at(seeded, file, tree, i, scope, in_test).host;
            &&& tree[list].kind == "RECORD_FIELD_LIST"@ ==> forall|j: int, field: Seq<char>|
                #![trigger node_below(tree, list, j, "RECORD_FIELD"@), has_name(tree, j, field)]
                node_below(tree, list, j, "RECORD_FIELD"@) && has_name(tree, j, field)
                    ==> is_told_field(file, tree, j, owner, field, after.fields)
            &&& tree[list].kind == "TUPLE_FIELD_LIST"@ ==> forall|j: int| #[trigger]
                node_below(tree, list, j, "TUPLE_FIELD"@) ==> is_told_field(
                    file,
                    tree,
                    j,
                    owner,
                    "#"@ + decimal(fields_before(tree, list, j)),
                    after.fields,
                )
        }),
{
    lemma_item_words();
    lemma_has_name(tree, i, name);
    let def = def_id("struct"@, qualified(scope, name), tree[i]);
    let told = crate::ra::seeding::with_named(
        seeded.host,
        file,
        tree,
        i,
        "struct"@,
        DefKind::Struct,
        name,
        qualified(scope, name),
        item_in_test(tree, i, name, in_test),
    );
    assert forall|k: int| i + 1 <= k < list implies !#[trigger] is_child(
        tree,
        i,
        k,
        Class::FieldList,
    ) by {
        lemma_single_classes(tree[k].kind);
        if is_child(tree, i, k, Class::FieldList) {
            assert(below(tree, i, k));
            assert(!node_below(tree, i, k, "RECORD_FIELD_LIST"@));
        }
    }
    lemma_single_classes(tree[list].kind);
    lemma_first_child(tree, i, i + 1, Class::FieldList, list);
    reveal_strlit("RECORD_FIELD_LIST");
    reveal_strlit("TUPLE_FIELD_LIST");
    assert("RECORD_FIELD_LIST"@.len() != "TUPLE_FIELD_LIST"@.len());
    if tree[list].kind == "RECORD_FIELD_LIST"@ {
        lemma_record_fields(told, file, tree, list, list + 1, def);
    } else {
        lemma_tuple_fields(told, file, tree, list, list + 1, def, 0);
    }
}

proof fn lemma_variants(
    host: HostView,
    file: FileView,
    tree: Seq<SyntaxView>,
    i: int,
    from: int,
    owner: u64,
    owner_path: Seq<char>,
    in_test: bool,
)
    requires
        0 <= i < from,
        i < tree.len(),
        forall|k: int| i < k < from && k < tree.len() ==> (#[trigger] tree[k]).depth
            > tree[i].depth,
    ensures
        ({
            let after = with_variants(host, file, tree, i, from, owner, owner_path, in_test);
            &&& rows_kept(host, after)
            &&& forall|j: int, name: Seq<char>|
                #![trigger node_below(tree, i, j, "VARIANT"@), has_name(tree, j, name)]
                from <= j && node_below(tree, i, j, "VARIANT"@) && has_name(tree, j, name)
                    ==> after.variants.contains(
                    VariantView {
                        owner,
                        name,
                        variant: def_id("variant"@, owner_path + "::"@ + name, tree[j]),
                    },
                )
        }),
    decreases tree.len() - from,
{
    lemma_child_below(tree, i, from, Class::Variant);
    if let Some(j) = child_from(tree, i, from, Class::Variant) {
        let told = match name_at(tree, j) {
            Some(name) => {
                let path = owner_path + "::"@ + name;
                let named = crate::ra::seeding::with_named(
                    host,
                    file,
                    tree,
                    j,
                    "variant"@,
                    DefKind::Variant,
                    name,
                    path,
                    in_test || crate::ra::seed_types::mentions_test(tree, j),
                );
                HostView {
                    variants: crate::ra::store::with_row(
                        named.variants,
                        VariantView { owner, name, variant: def_id("variant"@, path, tree[j]) },
                    ),
                    ..named
                }
            },
            None => host,
        };
        if let Some(name) = name_at(tree, j) {
            law_rows_are_added(
                host.variants,
                VariantView {
                    owner,
                    name,
                    variant: def_id("variant"@, owner_path + "::"@ + name, tree[j]),
                },
            );
        }
        lemma_variants(told, file, tree, i, j + 1, owner, owner_path, in_test);
        let after = with_variants(host, file, tree, i, from, owner, owner_path, in_test);
        assert forall|k: int, name: Seq<char>|
            #![trigger node_below(tree, i, k, "VARIANT"@), has_name(tree, k, name)]
            from <= k && node_below(tree, i, k, "VARIANT"@) && has_name(
                tree,
                k,
                name,
            ) implies after.variants.contains(
            VariantView {
                owner,
                name,
                variant: def_id("variant"@, owner_path + "::"@ + name, tree[k]),
            },
        ) by {
            lemma_single_classes(tree[k].kind);
            if k < j {
                assert(is_child(tree, i, k, Class::Variant));
            } else if k == j {
                lemma_has_name(tree, j, name);
            }
        }
    } else {
        assert forall|j: int| from <= j implies !#[trigger] node_below(
            tree,
            i,
            j,
            "VARIANT"@,
        ) by {
            if node_below(tree, i, j, "VARIANT"@) {
                lemma_single_classes(tree[j].kind);
                assert(is_child(tree, i, j, Class::Variant));
            }
        }
    }
}

/// Every variant of an enum is told as the enum's, with a definition of its own
/// below the enum's path.
pub proof fn law_variants_belong_to_their_enum(
    seeded: Seeded,
    file: FileView,
    tree: Seq<SyntaxView>,
    i: int,
    scope: Seq<Seq<char>>,
    in_test: bool,
    name: Seq<char>,
    list: int,
    j: int,
    variant: Seq<char>,
)
    requires
        0 <= i < tree.len(),
        tree[i].kind == "ENUM"@,
        has_name(tree, i, name),
        first_below(tree, i, list, "VARIANT_LIST"@),
        node_below(tree, list, j, "VARIANT"@),
        has_name(tree, j, variant),
    ensures
        with_item_at(seeded, file, tree, i, scope, in_test).host.variants.contains(
            VariantView {
                owner: def_id("enum"@, qualified(scope, name), tree[i]),
                name: variant,
                variant: def_id(
                    "variant"@,
                    qualified(scope, name) + "::"@ + variant,
                    tree[j],
                ),
            },
        ),
{
    lemma_item_words();
    lemma_has_name(tree, i, name);
    let path = qualified(scope, name);
    let def = def_id("enum"@, path, tree[i]);
    let told = crate::ra::seeding::with_named(
        seeded.host,
        file,
        tree,
        i,
        "enum"@,
        DefKind::Enum,
        name,
        path,
        item_in_test(tree, i, name, in_test),
    );
    assert forall|other: Seq<char>| #[trigger]
        Class::VariantList.kinds().contains(other) <==> other == "VARIANT_LIST"@ by {
        lemma_single_classes(other);
    }
    lemma_first_of_kind(tree, i, list, "VARIANT_LIST"@, Class::VariantList);
    lemma_variants(told, file, tree, list, list + 1, def, path, in_test);
}

} // verus!
