//! What seeding keeps, and the seeding of whole sources.

use crate::ra::tree_walk::{seeded_file, seeded_file_id};
use crate::ra::file_id::{EditionedFileId, SourceEdition};
use crate::ra::host::{DeterministicRaHost, HostView};
use crate::ra::kinds::DefKind;
use crate::ra::row_laws::{law_rows_are_added, rows_kept};
use crate::ra::scope::{file_scope, module_scope_for_file, ContextView, ModuleScope, SeedContext};
use crate::ra::seed_types::{head_id, path_type_at, with_new_def, with_type_at, with_types_below};
use crate::ra::seeding::{
    bodies_indexable, seed_call_edges, seed_host_from_source_with_context, with_call_edges,
    with_fn, with_impl, with_impl_def, with_impl_types, with_item_at, with_items, with_methods,
    with_opt_type, with_parts, with_record_fields, with_tree, with_tuple_fields, with_variants,
    FileView, MethodContainer, Seeded,
};
use crate::ra::source::indexable;
use crate::ra::syntax::{child, child_from, parsed_tree, Class, SyntaxView};
use crate::text::texts;
use vstd::prelude::*;

verus! {

/// Every definition and every row of one index is in another.
pub open spec fn keeps_defs(before: HostView, after: HostView) -> bool {
    &&& forall|def: u64| #[trigger] before.defs.contains_key(def) ==> after.defs.contains_key(def)
    &&& rows_kept(before, after)
}

/// The later state knows every definition, callable, method and body of the
/// earlier one, and its new bodies are of the file.
pub open spec fn keeps(before: Seeded, after: Seeded, file: FileView) -> bool {
    &&& keeps_defs(before.host, after.host)
    &&& before.context.callables.is_prefix_of(after.context.callables)
    &&& before.context.methods.is_prefix_of(after.context.methods)
    &&& before.context.bodies.is_prefix_of(after.context.bodies)
    &&& forall|i: int|
        before.context.bodies.len() <= i < after.context.bodies.len() ==> (
        #[trigger] after.context.bodies[i]).source == file.source
}

pub proof fn lemma_keeps_chain(a: Seeded, b: Seeded, c: Seeded, file: FileView)
    requires
        keeps(a, b, file),
        keeps(b, c, file),
    ensures
        keeps(a, c, file),
{
    assert(a.context.callables =~= c.context.callables.take(a.context.callables.len() as int));
    assert(a.context.methods =~= c.context.methods.take(a.context.methods.len() as int));
    assert(a.context.bodies =~= c.context.bodies.take(a.context.bodies.len() as int));
    assert forall|i: int| a.context.bodies.len() <= i < c.context.bodies.len() implies (
    #[trigger] c.context.bodies[i]).source == file.source by {
        if i < b.context.bodies.len() {
            assert(b.context.bodies[i] == c.context.bodies[i]);
        }
    }
}

proof fn lemma_types_keep_defs(
    tree: Seq<SyntaxView>,
    rel_path: Seq<char>,
    host: HostView,
    i: int,
    from: int,
    class: Class,
)
    ensures
        keeps_defs(host, with_types_below(tree, rel_path, host, i, from, class)),
    decreases tree.len() - from, 1nat,
{
    match child_from(tree, i, from, class) {
        Some(j) => {
            if from <= j < tree.len() {
                let place = if class is Type {
                    Some(j)
                } else {
                    child(tree, j, Class::Type)
                };
                let told = match place {
                    Some(ty) => if from <= ty < tree.len() {
                        with_type_at(tree, rel_path, host, ty)
                    } else {
                        host
                    },
                    None => host,
                };
                if place is Some && from <= place->0 < tree.len() {
                    lemma_type_keeps_defs(tree, rel_path, host, place->0);
                }
                lemma_types_keep_defs(tree, rel_path, told, i, j + 1, class);
            }
        },
        None => {},
    }
}

proof fn lemma_inner_type_keeps_defs(
    tree: Seq<SyntaxView>,
    rel_path: Seq<char>,
    host: HostView,
    i: int,
)
    requires
        tree[i].kind != "PATH_TYPE"@,
        tree[i].kind != "TUPLE_TYPE"@,
        match child(tree, i, Class::Type) {
            Some(j) => i < j < tree.len() ==> keeps_defs(
                host,
                with_type_at(tree, rel_path, host, j),
            ),
            None => true,
        },
    ensures
        keeps_defs(host, with_type_at(tree, rel_path, host, i)),
{
}

proof fn lemma_tuple_type_keeps_defs(
    tree: Seq<SyntaxView>,
    rel_path: Seq<char>,
    host: HostView,
    i: int,
)
    requires
        tree[i].kind != "PATH_TYPE"@,
        tree[i].kind == "TUPLE_TYPE"@,
        0 <= i < tree.len() ==> keeps_defs(
            host,
            with_types_below(tree, rel_path, host, i, i + 1, Class::Type),
        ),
    ensures
        keeps_defs(host, with_type_at(tree, rel_path, host, i)),
{
}

proof fn lemma_path_type_keeps_defs(
    tree: Seq<SyntaxView>,
    rel_path: Seq<char>,
    host: HostView,
    i: int,
)
    requires
        tree[i].kind == "PATH_TYPE"@,
        match path_type_at(tree, i) {
            Some((path, Some(list))) => i < list < tree.len() ==> keeps_defs(
                with_new_def(
                    host,
                    head_id(path),
                    crate::search::path_tail(path),
                    DefKind::Other,
                    path,
                ),
                with_types_below(
                    tree,
                    rel_path,
                    with_new_def(
                        host,
                        head_id(path),
                        crate::search::path_tail(path),
                        DefKind::Other,
                        path,
                    ),
                    list,
                    list + 1,
                    Class::TypeArg,
                ),
            ),
            _ => true,
        },
    ensures
        keeps_defs(host, with_type_at(tree, rel_path, host, i)),
{
    match path_type_at(tree, i) {
        Some((path, list)) => {
            let named = with_new_def(
                host,
                head_id(path),
                crate::search::path_tail(path),
                DefKind::Other,
                path,
            );
            assert(keeps_defs(host, named));
            match list {
                Some(list) => {
                    if i < list < tree.len() {
                        let below = with_types_below(
                            tree,
                            rel_path,
                            named,
                            list,
                            list + 1,
                            Class::TypeArg,
                        );
                        assert(keeps_defs(named, below));
                        assert(keeps_defs(host, below));
                    }
                },
                None => {},
            }
        },
        None => {},
    }
}

proof fn lemma_type_keeps_defs(
    tree: Seq<SyntaxView>,
    rel_path: Seq<char>,
    host: HostView,
    i: int,
)
    ensures
        keeps_defs(host, with_type_at(tree, rel_path, host, i)),
    decreases tree.len() - i, 0nat,
{
    if tree[i].kind == "PATH_TYPE"@ {
        match path_type_at(tree, i) {
            Some((path, Some(list))) => {
                if i < list < tree.len() {
                    let named = with_new_def(
                        host,
                        head_id(path),
                        crate::search::path_tail(path),
                        DefKind::Other,
                        path,
                    );
                    lemma_types_keep_defs(
                        tree,
                        rel_path,
                        named,
                        list,
                        list + 1,
                        Class::TypeArg,
                    );
                }
            },
            _ => {},
        }
        lemma_path_type_keeps_defs(tree, rel_path, host, i);
    } else if tree[i].kind == "TUPLE_TYPE"@ {
        if 0 <= i < tree.len() {
            lemma_types_keep_defs(tree, rel_path, host, i, i + 1, Class::Type);
        }
        lemma_tuple_type_keeps_defs(tree, rel_path, host, i);
    } else {
        match child(tree, i, Class::Type) {
            Some(j) => {
                if i < j < tree.len() {
                    lemma_type_keeps_defs(tree, rel_path, host, j);
                }
            },
            None => {},
        }
        lemma_inner_type_keeps_defs(tree, rel_path, host, i);
    }
}

proof fn lemma_opt_type_keeps_defs(
    host: HostView,
    file: FileView,
    tree: Seq<SyntaxView>,
    i: Option<int>,
)
    ensures
        keeps_defs(host, with_opt_type(host, file, tree, i)),
{
    match i {
        Some(i) => lemma_type_keeps_defs(tree, file.rel_path, host, i),
        None => {},
    }
}

proof fn lemma_field_keeps_defs(
    host: HostView,
    file: FileView,
    tree: Seq<SyntaxView>,
    i: int,
    owner: u64,
    name: Seq<char>,
    label: Seq<char>,
    tag: Seq<char>,
)
    ensures
        keeps_defs(
            host,
            crate::ra::seeding::with_field(host, file, tree, i, owner, name, label, tag),
        ),
{
    lemma_opt_type_keeps_defs(host, file, tree, child(tree, i, Class::Type));
    let ty = match child(tree, i, Class::Type) {
        Some(ty) => crate::ra::seed_types::type_id(file.rel_path, tree[ty]),
        None => crate::ra::seeding::untyped_field(label, tag, tree[i]),
    };
    let told = match child(tree, i, Class::Type) {
        Some(ty) => with_type_at(tree, file.rel_path, host, ty),
        None => host,
    };
    law_rows_are_added(told.fields, crate::ra::rows::FieldView { owner, name, ty });
}

proof fn lemma_record_fields_keep_defs(
    host: HostView,
    file: FileView,
    tree: Seq<SyntaxView>,
    i: int,
    from: int,
    owner: u64,
)
    ensures
        keeps_defs(host, with_record_fields(host, file, tree, i, from, owner)),
    decreases tree.len() - from,
{
    match child_from(tree, i, from, Class::RecordField) {
        Some(j) => {
            if from <= j < tree.len() {
                let name = match crate::ra::seed_types::name_at(tree, j) {
                    Some(name) => name,
                    None => "_"@,
                };
                let told = crate::ra::seeding::with_field(
                    host,
                    file,
                    tree,
                    j,
                    owner,
                    name,
                    "type:field:"@,
                    name,
                );
                lemma_field_keeps_defs(host, file, tree, j, owner, name, "type:field:"@, name);
                lemma_record_fields_keep_defs(told, file, tree, i, j + 1, owner);
            }
        },
        None => {},
    }
}

proof fn lemma_tuple_fields_keep_defs(
    host: HostView,
    file: FileView,
    tree: Seq<SyntaxView>,
    i: int,
    from: int,
    owner: u64,
    index: nat,
)
    ensures
        keeps_defs(host, with_tuple_fields(host, file, tree, i, from, owner, index)),
    decreases tree.len() - from,
{
    match child_from(tree, i, from, Class::TupleField) {
        Some(j) => {
            if from <= j < tree.len() {
                let told = crate::ra::seeding::with_field(
                    host,
                    file,
                    tree,
                    j,
                    owner,
                    "#"@ + crate::text::decimal(index),
                    "type:tuple-field:"@,
                    crate::text::decimal(index),
                );
                lemma_field_keeps_defs(
                    host,
                    file,
                    tree,
                    j,
                    owner,
                    "#"@ + crate::text::decimal(index),
                    "type:tuple-field:"@,
                    crate::text::decimal(index),
                );
                lemma_tuple_fields_keep_defs(told, file, tree, i, j + 1, owner, index + 1);
            }
        },
        None => {},
    }
}

proof fn lemma_variants_keep_defs(
    host: HostView,
    file: FileView,
    tree: Seq<SyntaxView>,
    i: int,
    from: int,
    owner: u64,
    owner_path: Seq<char>,
    in_test: bool,
)
    ensures
        keeps_defs(host, with_variants(host, file, tree, i, from, owner, owner_path, in_test)),
    decreases tree.len() - from,
{
    match child_from(tree, i, from, Class::Variant) {
        Some(j) => {
            if from <= j < tree.len() {
                let told = match crate::ra::seed_types::name_at(tree, j) {
                    Some(name) => {
                        let path = owner_path + "::"@ + name;
                        let named = crate::ra::seeding::with_named(
                            host,
                            file,
                            tree,
                            j,
                            "variant"@,
                            DefKind::Variant,
                            name,
                            path,
                            in_test || crate::ra::seed_types::mentions_test(tree, j),
                        );
                        HostView {
                            variants: crate::ra::store::with_row(
                                named.variants,
                                crate::ra::rows::VariantView {
                                    owner,
                                    name,
                                    variant: crate::ra::seeding::def_id(
                                        "variant"@,
                                        path,
                                        tree[j],
                                    ),
                                },
                            ),
                            ..named
                        }
                    },
                    None => host,
                };
                assert(keeps_defs(host, told));
                lemma_variants_keep_defs(told, file, tree, i, j + 1, owner, owner_path, in_test);
            }
        },
        None => {},
    }
}

proof fn lemma_fn_keeps(
    seeded: Seeded,
    file: FileView,
    tree: Seq<SyntaxView>,
    i: int,
    scope: Seq<Seq<char>>,
    in_test: bool,
    kind: DefKind,
    owner: Option<u64>,
    container: MethodContainer,
)
    ensures
        keeps(
            seeded,
            with_fn(seeded, file, tree, i, scope, in_test, kind, owner, container),
            file,
        ),
{
    let name = crate::ra::seeding::fn_name(tree, i);
    let path = crate::ra::seeding::fn_path(seeded.host, scope, kind, owner, name);
    let after = with_fn(seeded, file, tree, i, scope, in_test, kind, owner, container);
    let word = crate::ra::seeding::fn_word(kind);
    let def = crate::ra::seeding::def_id(word, path, tree[i]);
    let named = crate::ra::seeding::with_named(
        seeded.host,
        file,
        tree,
        i,
        word,
        kind,
        name,
        path,
        in_test || crate::ra::seed_types::mentions_test(tree, i),
    );
    let row = crate::ra::rows::MethodView { owner: owner->0, method: def };
    let owned = match owner {
        Some(owner) => match container {
            MethodContainer::Impl => HostView {
                methods: crate::ra::store::with_row(named.methods, row),
                ..named
            },
            MethodContainer::Trait => HostView {
                trait_methods: crate::ra::store::with_row(named.trait_methods, row),
                ..named
            },
            MethodContainer::Free => named,
        },
        None => named,
    };
    assert(keeps_defs(seeded.host, owned));
    match crate::ra::seeding::return_row(tree, i) {
        Some(ty) => lemma_type_keeps_defs(tree, file.rel_path, owned, ty),
        None => {},
    }
    let before = seeded.context;
    let later = after.context;
    assert(before.callables =~= later.callables.take(before.callables.len() as int));
    assert(before.methods =~= later.methods.take(before.methods.len() as int));
    assert(before.bodies =~= later.bodies.take(before.bodies.len() as int));
}

proof fn lemma_methods_keep(
    seeded: Seeded,
    file: FileView,
    tree: Seq<SyntaxView>,
    i: int,
    from: int,
    scope: Seq<Seq<char>>,
    in_test: bool,
    owner: Option<u64>,
    container: MethodContainer,
)
    ensures
        keeps(
            seeded,
            with_methods(seeded, file, tree, i, from, scope, in_test, owner, container),
            file,
        ),
    decreases tree.len() - from,
{
    lemma_same_keeps(seeded, file);
    match child_from(tree, i, from, Class::Fn) {
        Some(j) => {
            if from <= j < tree.len() {
                let told = with_fn(
                    seeded,
                    file,
                    tree,
                    j,
                    scope,
                    in_test,
                    DefKind::Method,
                    owner,
                    container,
                );
                lemma_fn_keeps(
                    seeded,
                    file,
                    tree,
                    j,
                    scope,
                    in_test,
                    DefKind::Method,
                    owner,
                    container,
                );
                lemma_methods_keep(told, file, tree, i, j + 1, scope, in_test, owner, container);
                lemma_keeps_chain(
                    seeded,
                    told,
                    with_methods(told, file, tree, i, j + 1, scope, in_test, owner, container),
                    file,
                );
            }
        },
        None => {},
    }
}

pub proof fn lemma_same_keeps(seeded: Seeded, file: FileView)
    ensures
        keeps(seeded, seeded, file),
{
    let c = seeded.context;
    assert(c.callables =~= c.callables.take(c.callables.len() as int));
    assert(c.methods =~= c.methods.take(c.methods.len() as int));
    assert(c.bodies =~= c.bodies.take(c.bodies.len() as int));
}

proof fn lemma_host_keeps(seeded: Seeded, host: HostView, file: FileView)
    requires
        keeps_defs(seeded.host, host),
    ensures
        keeps(seeded, Seeded { host, ..seeded }, file),
{
    lemma_same_keeps(seeded, file);
}

proof fn lemma_impl_keeps(
    seeded: Seeded,
    file: FileView,
    tree: Seq<SyntaxView>,
    i: int,
    scope: Seq<Seq<char>>,
    in_test: bool,
)
    ensures
        keeps(seeded, with_impl(seeded, file, tree, i, scope, in_test), file),
{
    let index = crate::ra::scope::next_index(seeded.context.impls);
    let name = "impl#"@ + crate::text::decimal(index as nat);
    let path = crate::ra::scope::qualified(scope, name);
    let def = crate::ra::seeding::def_id("impl"@, path, tree[i]);
    let named = with_impl_def(seeded.host, file, tree, i, name, path, in_test);
    assert(keeps_defs(seeded.host, named));
    let (trait_row, self_row) = crate::ra::seeding::impl_types(tree, i);
    let selfed = with_opt_type(named, file, tree, self_row);
    lemma_opt_type_keeps_defs(named, file, tree, self_row);
    let traited = with_opt_type(selfed, file, tree, trait_row);
    lemma_opt_type_keeps_defs(selfed, file, tree, trait_row);
    let owner = crate::ra::seeding::opt_head(selfed, file, tree, self_row);
    let trait_def = crate::ra::seeding::opt_head(traited, file, tree, trait_row);
    let implemented = match (owner, trait_def) {
        (Some(owner), Some(trait_def)) => HostView {
            implements: crate::ra::store::with_row(
                traited.implements,
                crate::ra::rows::ImplementsView { owner, trait_def, impl_def: def },
            ),
            ..traited
        },
        _ => traited,
    };
    if let (Some(owner), Some(trait_def)) = (owner, trait_def) {
        law_rows_are_added(
            traited.implements,
            crate::ra::rows::ImplementsView { owner, trait_def, impl_def: def },
        );
    }
    assert(keeps_defs(named, implemented));
    match crate::ra::seeding::from_source(tree, trait_row) {
        Some(source) => {
            lemma_type_keeps_defs(tree, file.rel_path, implemented, source);
            let told = with_type_at(tree, file.rel_path, implemented, source);
            let id = crate::ra::seed_types::type_id(file.rel_path, tree[source]);
            if let (Some(owner), Some(from)) = (
                owner,
                crate::ra::seed_types::head_of(told, id),
            ) {
                law_rows_are_added(
                    told.from_impls,
                    crate::ra::rows::FromImplView { source: from, target: owner, impl_def: def },
                );
            }
        },
        None => {},
    }
    let typed = with_impl_types(named, file, tree, i, def);
    assert(keeps_defs(named, typed));
    let told = Seeded {
        host: typed,
        context: ContextView { impls: index, ..seeded.context },
    };
    lemma_same_keeps(seeded, file);
    assert(keeps(seeded, told, file));
    match child(tree, i, Class::AssocItemList) {
        Some(list) => {
            let marked = in_test || crate::ra::seed_types::mentions_test(tree, i);
            let owner = crate::ra::seeding::impl_owner(named, file, tree, i);
            lemma_methods_keep(
                told,
                file,
                tree,
                list,
                list + 1,
                scope,
                marked,
                owner,
                MethodContainer::Impl,
            );
            lemma_keeps_chain(
                seeded,
                told,
                with_impl(seeded, file, tree, i, scope, in_test),
                file,
            );
        },
        None => {},
    }
}

proof fn lemma_parts_keep(
    seeded: Seeded,
    file: FileView,
    tree: Seq<SyntaxView>,
    i: int,
    scope: Seq<Seq<char>>,
    in_test: bool,
    name: Seq<char>,
    def: u64,
)
    ensures
        keeps(
            seeded,
            with_parts(seeded, file, tree, i, scope, in_test, name, def),
            file,
        ),
    decreases tree.len() - i, 1nat,
{
    lemma_same_keeps(seeded, file);
    let kind = tree[i].kind;
    if kind == "STRUCT"@ {
        match child(tree, i, Class::FieldList) {
            Some(list) => {
                lemma_record_fields_keep_defs(seeded.host, file, tree, list, list + 1, def);
                lemma_tuple_fields_keep_defs(seeded.host, file, tree, list, list + 1, def, 0);
            },
            None => {},
        }
    } else if kind == "ENUM"@ {
        match child(tree, i, Class::VariantList) {
            Some(list) => {
                lemma_variants_keep_defs(
                    seeded.host,
                    file,
                    tree,
                    list,
                    list + 1,
                    def,
                    crate::ra::scope::qualified(scope, name),
                    in_test,
                );
            },
            None => {},
        }
    } else if kind == "TRAIT"@ {
        match child(tree, i, Class::AssocItemList) {
            Some(list) => {
                lemma_methods_keep(
                    seeded,
                    file,
                    tree,
                    list,
                    list + 1,
                    scope,
                    in_test || crate::ra::seed_types::mentions_test(tree, i),
                    Some(def),
                    MethodContainer::Trait,
                );
            },
            None => {},
        }
    } else if kind == "MODULE"@ {
        match child(tree, i, Class::ItemList) {
            Some(list) => {
                if i < list < tree.len() {
                    law_seeding_items_keeps(
                        seeded,
                        file,
                        tree,
                        list,
                        list + 1,
                        scope.push(name),
                        crate::ra::seeding::item_in_test(tree, i, name, in_test),
                    );
                }
            },
            None => {},
        }
    } else {
        lemma_opt_type_keeps_defs(seeded.host, file, tree, child(tree, i, Class::Type));
    }
}

proof fn lemma_item_keeps(
    seeded: Seeded,
    file: FileView,
    tree: Seq<SyntaxView>,
    i: int,
    scope: Seq<Seq<char>>,
    in_test: bool,
)
    ensures
        keeps(seeded, with_item_at(seeded, file, tree, i, scope, in_test), file),
    decreases tree.len() - i, 2nat,
{
    lemma_same_keeps(seeded, file);
    let kind = tree[i].kind;
    if kind == "FN"@ {
        lemma_fn_keeps(
            seeded,
            file,
            tree,
            i,
            scope,
            in_test,
            DefKind::Fn,
            None,
            MethodContainer::Free,
        );
    } else if kind == "IMPL"@ {
        lemma_impl_keeps(seeded, file, tree, i, scope, in_test);
    } else if kind == "MACRO_CALL"@ {
    } else {
        match (
            crate::ra::seeding::named_item(kind),
            crate::ra::seed_types::name_at(tree, i),
        ) {
            (Some((word, def_kind)), Some(name)) => {
                let path = crate::ra::scope::qualified(scope, name);
                let told = Seeded {
                    host: crate::ra::seeding::with_named(
                        seeded.host,
                        file,
                        tree,
                        i,
                        word,
                        def_kind,
                        name,
                        path,
                        crate::ra::seeding::item_in_test(tree, i, name, in_test),
                    ),
                    ..seeded
                };
                lemma_host_keeps(seeded, told.host, file);
                let def = crate::ra::seeding::def_id(word, path, tree[i]);
                lemma_parts_keep(told, file, tree, i, scope, in_test, name, def);
                lemma_keeps_chain(
                    seeded,
                    told,
                    with_parts(told, file, tree, i, scope, in_test, name, def),
                    file,
                );
            },
            _ => {},
        }
    }
}

/// Seeding items forgets nothing: the definitions, callables, methods and bodies
/// known before are known after, and the bodies that are new are of the file.
pub proof fn law_seeding_items_keeps(
    seeded: Seeded,
    file: FileView,
    tree: Seq<SyntaxView>,
    i: int,
    from: int,
    scope: Seq<Seq<char>>,
    in_test: bool,
)
    ensures
        keeps(seeded, with_items(seeded, file, tree, i, from, scope, in_test), file),
    decreases tree.len() - from, 3nat,
{
    lemma_same_keeps(seeded, file);
    match child_from(tree, i, from, Class::Item) {
        Some(j) => {
            if from <= j < tree.len() {
                let told = with_item_at(seeded, file, tree, j, scope, in_test);
                lemma_item_keeps(seeded, file, tree, j, scope, in_test);
                law_seeding_items_keeps(told, file, tree, i, j + 1, scope, in_test);
                lemma_keeps_chain(
                    seeded,
                    told,
                    with_items(told, file, tree, i, j + 1, scope, in_test),
                    file,
                );
            }
        },
        None => {},
    }
}

/// Seeding a file forgets nothing.
pub proof fn law_seeding_a_file_keeps(
    seeded: Seeded,
    file: FileView,
    tree: Seq<SyntaxView>,
    scope: Seq<Seq<char>>,
)
    ensures
        keeps(seeded, with_tree(seeded, file, tree, scope), file),
{
    lemma_same_keeps(seeded, file);
    law_seeding_items_keeps(seeded, file, tree, 0, 1, scope, false);
}

/// The state before any file.
pub open spec fn nothing_seeded(host: HostView) -> Seeded {
    Seeded {
        host,
        context: ContextView {
            callables: Seq::empty(),
            methods: Seq::empty(),
            bodies: Seq::empty(),
            impls: 0,
        },
    }
}

/// The index told of the items of the seeded files and of the calls in them.
pub open spec fn with_all_calls(seeded: Seeded) -> HostView {
    with_call_edges(seeded.host, seeded.context, seeded.context.bodies.len())
}

/// Tells the items of a source that is a crate's root module, and the calls
/// between them.
pub fn seed_host_from_source(
    host: &mut DeterministicRaHost,
    rel_path: &str,
    source: &str,
    file_id: EditionedFileId,
)
    requires
        old(host).wf(),
        indexable(source@),
    ensures
        final(host).wf(),
        final(host)@ == with_all_calls(
            with_tree(
                nothing_seeded(old(host)@),
                FileView { file_id, rel_path: rel_path@, source: source@ },
                parsed_tree(source@, SourceEdition::newest()),
                seq!["crate"@],
            ),
        ),
{
    let mut context = SeedContext::new();
    let root_scope = ModuleScope::crate_root();
    proof {
        law_seeding_a_file_keeps(
            nothing_seeded(host@),
            FileView { file_id, rel_path: rel_path@, source: source@ },
            parsed_tree(source@, SourceEdition::newest()),
            seq!["crate"@],
        );
    }
    seed_host_from_source_with_context(host, &mut context, rel_path, source, file_id, &root_scope);
    seed_call_edges(host, &context);
}

/// A source file of a crate.
pub struct SeedFile {
    /// The file's path.
    pub path: String,
    pub source: String,
    /// The path below the directory of the crate's root file, part by part, if
    /// the file lies there.
    pub relative: Option<Vec<String>>,
}

/// What seeding knows of a file: its number comes from its path.
pub open spec fn seed_view(file: SeedFile) -> FileView {
    FileView {
        file_id: seeded_file(file.path@),
        rel_path: file.path@,
        source: file.source@,
    }
}

/// The module that a file of a crate holds.
pub open spec fn seed_scope(root_path: Seq<char>, file: SeedFile) -> Seq<Seq<char>> {
    if file.path@ == root_path {
        seq!["crate"@]
    } else {
        match file.relative {
            Some(parts) => file_scope(texts(parts@)),
            None => seq!["crate"@],
        }
    }
}

/// What is known once the first `count` files have been seeded.
pub open spec fn with_files(
    seeded: Seeded,
    root_path: Seq<char>,
    files: Seq<SeedFile>,
    count: nat,
) -> Seeded
    decreases count,
{
    if count == 0 {
        seeded
    } else {
        let file = files[count - 1];
        with_tree(
            with_files(seeded, root_path, files, (count - 1) as nat),
            seed_view(file),
            parsed_tree(file.source@, SourceEdition::newest()),
            seed_scope(root_path, file),
        )
    }
}

/// Tells the items of a crate's files, each in its module, and the calls
/// between them.
pub fn seed_host_from_source_tree(
    host: &mut DeterministicRaHost,
    root_path: &str,
    files: &Vec<SeedFile>,
)
    requires
        old(host).wf(),
        forall|i: int| 0 <= i < files@.len() ==> indexable((#[trigger] files@[i]).source@),
    ensures
        final(host).wf(),
        final(host)@ == with_all_calls(
            with_files(nothing_seeded(old(host)@), root_path@, files@, files@.len()),
        ),
{
    let mut context = SeedContext::new();
    let ghost start = nothing_seeded(host@);
    let mut i: usize = 0;
    while i < files.len()
        invariant
            host.wf(),
            start == nothing_seeded(old(host)@),
            i <= files@.len(),
            forall|k: int| 0 <= k < files@.len() ==> indexable((#[trigger] files@[k]).source@),
            bodies_indexable(context@),
            (Seeded { host: host@, context: context@ }) == with_files(
                start,
                root_path@,
                files@,
                i as nat,
            ),
        decreases files.len() - i,
    {
        let file = &files[i];
        let relative = match &file.relative {
            Some(parts) => Some(parts),
            None => None,
        };
        let scope = module_scope_for_file(root_path, file.path.as_str(), relative);
        let ghost before = Seeded { host: host@, context: context@ };
        proof {
            law_seeding_a_file_keeps(
                before,
                seed_view(*file),
                parsed_tree(file.source@, SourceEdition::newest()),
                scope@,
            );
        }
        seed_host_from_source_with_context(
            host,
            &mut context,
            file.path.as_str(),
            file.source.as_str(),
            seeded_file_id(file.path.as_str()),
            &scope,
        );
        proof {
            assert forall|k: int| 0 <= k < context@.bodies.len() implies indexable(
                (#[trigger] context@.bodies[k]).source,
            ) by {
                if k < before.context.bodies.len() {
                    assert(before.context.bodies[k] == context@.bodies[k]);
                }
            }
        }
        i += 1;
    }
    seed_call_edges(host, &context);
}

} // verus!
