//! What the index of a workspace tells of definitions, impls, functions and calls.

use crate::host::derived_id;
use crate::ra::core_build::{
    adt_registered, core_id, core_path, core_registered, lowered_shape, outer_path, with_lowered,
    with_lowered_items, Core, CoreDefFacts, CoreHostBuildSpec, LoweredTy,
};
use crate::ra::core_items::{
    core_call_target, core_impl_id, core_synthetic_id, with_core_bodies, with_core_body,
    with_core_call, with_core_callable, with_core_calls, with_core_fn, with_core_impl,
    with_core_adt, with_core_field, with_core_impl_record, with_core_methods,
    with_core_relation, with_core_variants, with_record, with_result_error, with_tuple, CoreAdt,
    CoreBody, CoreCall, CoreCallFacts, CoreField, CoreFn, CoreImpl, CoreTarget, CoreVariant,
};
use crate::ra::host::HostView;
use crate::ra::kinds::DispatchKind;
use crate::ra::lookup_store::LocalFile;
use crate::ra::row_laws::{law_rows_are_added, same_rows};
use crate::ra::rows::{
    CallEdgeView, FieldView, FromImplView, ImplementsView, MethodView, VariantView,
};
use crate::ra::snapshot_types::SourceLoc;
use crate::ra::source::{key_in_text, span_id_of};
use crate::ra::syntax::SyntaxView;
use crate::search::has_suffix;
use crate::text::decimal;
use vstd::prelude::*;

verus! {

/// The place is a range of a tracked file.
pub open spec fn stands(loc: Option<SourceLoc>) -> bool {
    match loc {
        Some(loc) => key_in_text(loc.rel_path@, loc.text@, loc.start, loc.end) is Some,
        None => false,
    }
}

/// A definition is told where it has a name and a kind and, where places are asked
/// for, stands in a tracked file.
pub open spec fn is_told(asked: CoreHostBuildSpec, facts: CoreDefFacts) -> bool {
    &&& facts.name is Some
    &&& facts.kind is Some
    &&& asked.def_spans ==> stands(facts.loc)
}

/// A definition that there is, and that is told.
pub open spec fn is_some_told(asked: CoreHostBuildSpec, facts: Option<CoreDefFacts>) -> bool {
    match facts {
        Some(facts) => is_told(asked, facts),
        None => false,
    }
}

/// The two indexes tell the same of everything but definitions, types and places.
pub open spec fn same_told(before: Core, after: Core) -> bool {
    &&& same_rows(before.host, after.host)
    &&& before.host.fn_returns == after.host.fn_returns
    &&& before.host.fn_errors == after.host.fn_errors
    &&& before.asked == after.asked
}

/// A definition that has a name and a kind, and a place where places are asked for, is
/// told under that name and kind, at that place, with its visibility and whether it is
/// test code where those are asked for; no other definition is touched, and any other
/// definition is left out.
pub proof fn law_core_definitions_are_told(core: Core, facts: CoreDefFacts, in_test: bool)
    ensures
        is_told(core.asked, facts) ==> {
            let (after, def) = core_registered(core, facts, in_test);
            &&& def == Some(core_id(facts))
            &&& after.host.defs.contains_key(core_id(facts))
            &&& after.host.defs[core_id(facts)].name == facts.name->0@
            &&& after.host.defs[core_id(facts)].kind == facts.kind->0
            &&& after.host.defs[core_id(facts)].path == core_path(facts)
            &&& core.asked.def_spans ==> after.host.defs[core_id(facts)].span == span_id_of(
                facts.loc->0.file_id,
                facts.loc->0.start,
                facts.loc->0.end,
            )
            &&& core.asked.def_publicity ==> after.host.public.contains_key(core_id(facts))
                && after.host.public[core_id(facts)] == facts.is_public
            &&& core.asked.def_test_flags ==> after.host.in_test.contains_key(core_id(facts))
                && after.host.in_test[core_id(facts)] == (in_test || facts.in_test)
            &&& after.index.defs.contains_key(core_id(facts))
            &&& after.index.defs[core_id(facts)].name == facts.name->0@
            &&& after.index.defs[core_id(facts)].kind == facts.kind->0
            &&& after.index.defs[core_id(facts)].source_rel_path == (match facts.loc {
                Some(loc) => Some(loc.rel_path@),
                None => None,
            })
            &&& after.paths.contains_key(core_id(facts))
            &&& after.paths[core_id(facts)] == core_path(facts)
        },
        !is_told(core.asked, facts) ==> core_registered(core, facts, in_test) == (
            core,
            None::<u64>,
        ),
        same_told(core, core_registered(core, facts, in_test).0),
        core_registered(core, facts, in_test).0.host.defs.remove(core_id(facts))
            =~= core.host.defs.remove(core_id(facts)),
{
}

proof fn lemma_adt(core: Core, facts: CoreDefFacts)
    ensures
        same_told(core, adt_registered(core, facts).0),
        is_told(core.asked, facts) ==> adt_registered(core, facts).1 == core_id(facts),
        !is_told(core.asked, facts) ==> adt_registered(core, facts).1 == derived_id(
            "def"@,
            "def:adt:"@ + outer_path(facts),
        ),
{
    law_core_definitions_are_told(core, facts, false);
}

proof fn lemma_shape(
    core: Core,
    key: Seq<char>,
    ty: LoweredTy,
    tree: Seq<SyntaxView>,
    source: Option<int>,
)
    ensures
        same_told(core, lowered_shape(core, key, ty, tree, source).0),
    decreases ty, 0nat,
{
    match ty {
        LoweredTy::Reference { mutability, inner } => {
            lemma_lowered(
                core,
                key + "/ref"@,
                *inner,
                tree,
                crate::ra::core_build::written_inner(tree, source, "REF_TYPE"@),
            );
        },
        LoweredTy::RawPtr(inner) => {
            lemma_lowered(
                core,
                key + "/ptr"@,
                *inner,
                tree,
                crate::ra::core_build::written_inner(tree, source, "PTR_TYPE"@),
            );
        },
        LoweredTy::Slice(inner) => {
            lemma_lowered(
                core,
                key + "/slice"@,
                *inner,
                tree,
                crate::ra::core_build::written_inner(tree, source, "SLICE_TYPE"@),
            );
        },
        LoweredTy::Tuple(items) => {
            lemma_lowered_items(core, key + "/tuple/"@, items, tree, source, false, items@.len());
        },
        LoweredTy::Adt { def, args } => {
            let (known, head) = adt_registered(core, def);
            lemma_adt(core, def);
            lemma_lowered_items(known, key + "/arg/"@, args, tree, source, true, args@.len());
        },
        _ => {},
    }
}

proof fn lemma_lowered_items(
    core: Core,
    prefix: Seq<char>,
    types: Vec<LoweredTy>,
    tree: Seq<SyntaxView>,
    source: Option<int>,
    are_args: bool,
    count: nat,
)
    ensures
        same_told(
            core,
            with_lowered_items(core, prefix, types, tree, source, are_args, count),
        ),
    decreases types, count,
{
    if count == 0 || count > types@.len() {
    } else {
        let n = (count - 1) as nat;
        lemma_lowered_items(core, prefix, types, tree, source, are_args, n);
        let told = with_lowered_items(core, prefix, types, tree, source, are_args, n);
        let at = if are_args {
            crate::ra::core_build::written_arg(tree, source, n)
        } else {
            crate::ra::core_build::written_item(tree, source, n)
        };
        lemma_lowered(told, prefix + decimal(n), types[n as int], tree, at);
    }
}

proof fn lemma_lowered(
    core: Core,
    key: Seq<char>,
    ty: LoweredTy,
    tree: Seq<SyntaxView>,
    source: Option<int>,
)
    ensures
        same_told(core, with_lowered(core, key, ty, tree, source)),
    decreases ty, 1nat,
{
    lemma_shape(core, key, ty, tree, source);
}

proof fn lemma_error(core: Core, ty: LoweredTy)
    ensures
        same_told(core, with_result_error(core, ty).0),
{
    if let LoweredTy::Adt { def, args } = ty {
        if args@.len() > 1 {
            if let LoweredTy::Adt { def: error, .. } = args@[1] {
                lemma_adt(core, error);
            }
        }
    }
}

/// The type is a result by its path, with an error type.
pub open spec fn is_result_type(ty: LoweredTy) -> bool {
    match ty {
        LoweredTy::Adt { def, args } => args@.len() >= 2 && match def.canonical {
            Some(path) => path@ == "result::Result"@ || has_suffix(path@, "::Result"@),
            None => false,
        },
        _ => false,
    }
}

/// A function that gives a result fails with the data type that is the result's second
/// argument; one that gives anything else does not fail. What other functions give
/// stays as it was, and so do all rows.
pub proof fn law_core_functions_fail_with_the_second_argument(
    core: Core,
    function: CoreFn,
    def: u64,
    tree: Seq<SyntaxView>,
)
    ensures
        ({
            let after = with_core_fn(core, function, def, tree);
            &&& same_rows(core.host, after.host)
            &&& core.asked == after.asked
            &&& after.host.fn_returns.contains_key(def)
            &&& after.host.fn_returns[def] is Some
            &&& after.host.fn_errors.contains_key(def)
            &&& forall|error: CoreDefFacts|
                (match function.ret {
                    LoweredTy::Adt { args, .. } => is_result_type(function.ret)
                        && (match args@[1] {
                        LoweredTy::Adt { def: named, .. } => named == error,
                        _ => false,
                    }),
                    _ => false,
                }) ==> after.host.fn_errors[def] == Some(
                    if #[trigger] is_told(core.asked, error) {
                        core_id(error)
                    } else {
                        derived_id("def"@, "def:adt:"@ + outer_path(error))
                    },
                )
            &&& !is_result_type(function.ret) ==> after.host.fn_errors[def] is None
            &&& after.host.fn_errors.remove(def) =~= core.host.fn_errors.remove(def)
            &&& after.host.fn_returns.remove(def) =~= core.host.fn_returns.remove(def)
        }),
{
    let key = crate::ra::core_items::return_key(core, def);
    let source = crate::ra::core_build::opt_row(function.source);
    let lowered = with_lowered(core, key, function.ret, tree, source);
    lemma_lowered(core, key, function.ret, tree, source);
    lemma_error(lowered, function.ret);
    reveal_strlit("std::result::Result");
    reveal_strlit("core::result::Result");
    reveal_strlit("::Result");
    assert("std::result::Result"@.subrange(11, 19) =~= "::Result"@);
    assert("core::result::Result"@.subrange(12, 20) =~= "::Result"@);
    if let LoweredTy::Adt { args, .. } = function.ret {
        if args@.len() > 1 {
            if let LoweredTy::Adt { def: error, .. } = args@[1] {
                lemma_adt(lowered, error);
            }
        }
    }
}

proof fn lemma_record(core: Core, loc: Option<SourceLoc>)
    ensures
        same_told(core, with_core_impl_record(core, loc).0),
        with_core_impl_record(core, loc).1 == (if stands(loc) {
            Some(core_impl_id(loc->0))
        } else {
            None::<u64>
        }),
{
}

/// One of the first `count` methods is told and is the row's.
pub open spec fn is_method_row(
    asked: CoreHostBuildSpec,
    methods: Seq<CoreFn>,
    count: int,
    method: u64,
) -> bool {
    exists|m: int|
        0 <= m < count && is_told(asked, (#[trigger] methods[m]).def) && core_id(methods[m].def)
            == method
}

proof fn lemma_methods(
    core: Core,
    methods: Seq<CoreFn>,
    owner: Option<u64>,
    tree: Seq<SyntaxView>,
    count: nat,
)
    requires
        count <= methods.len(),
    ensures
        ({
            let after = with_core_methods(core, methods, owner, tree, count);
            &&& after.asked == core.asked
            &&& after.host.implements == core.host.implements
            &&& after.host.from_impls == core.host.from_impls
            &&& after.host.call_edges == core.host.call_edges
            &&& forall|row: MethodView| #[trigger]
                after.host.methods.contains(row) <==> core.host.methods.contains(row) || (owner
                    == Some(row.owner) && is_method_row(core.asked, methods, count as int, row.method))
        }),
    decreases count,
{
    if count > 0 {
        let n = (count - 1) as nat;
        lemma_methods(core, methods, owner, tree, n);
        let told = with_core_methods(core, methods, owner, tree, n);
        let (known, def) = core_registered(told, methods[n as int].def, false);
        law_core_definitions_are_told(told, methods[n as int].def, false);
        let after = with_core_methods(core, methods, owner, tree, count);
        if def is Some {
            let typed = with_core_fn(known, methods[n as int], def->0, tree);
            law_core_functions_fail_with_the_second_argument(
                known,
                methods[n as int],
                def->0,
                tree,
            );
            if owner is Some {
                law_rows_are_added(
                    typed.host.methods,
                    MethodView { owner: owner->0, method: def->0 },
                );
            }
        }
        assert forall|row: MethodView| #[trigger]
            after.host.methods.contains(row) <==> core.host.methods.contains(row) || (owner == Some(
                row.owner,
            ) && is_method_row(core.asked, methods, count as int, row.method)) by {
            assert(after.host.methods.contains(row) <==> told.host.methods.contains(row) || (owner
                == Some(row.owner) && def == Some(row.method)));
            if is_method_row(core.asked, methods, n as int, row.method) {
                let m = choose|m: int|
                    0 <= m < n && is_told(core.asked, (#[trigger] methods[m]).def) && core_id(
                        methods[m].def,
                    ) == row.method;
                assert(is_method_row(core.asked, methods, count as int, row.method));
            }
            if def == Some(row.method) {
                assert(core_id(methods[n as int].def) == row.method);
                assert(is_method_row(core.asked, methods, count as int, row.method));
            }
            if is_method_row(core.asked, methods, count as int, row.method) {
                let m = choose|m: int|
                    0 <= m < count && is_told(core.asked, (#[trigger] methods[m]).def) && core_id(
                        methods[m].def,
                    ) == row.method;
                if m < n {
                    assert(is_method_row(core.asked, methods, n as int, row.method));
                }
            }
        }
    }
}

/// The trait is the conversion trait, by its path or its name.
pub open spec fn is_conversion(facts: Option<CoreDefFacts>) -> bool {
    match facts {
        Some(facts) => (match facts.canonical {
            Some(path) => has_suffix(path@, "::From"@),
            None => false,
        }) || (match facts.name {
            Some(name) => name@ == "From"@,
            None => false,
        }),
        None => false,
    }
}

proof fn lemma_relation(core: Core, facts: CoreImpl, owner: Option<u64>, record: Option<u64>)
    ensures
        ({
            let after = with_core_relation(core, facts, owner, record);
            &&& after.asked == core.asked
            &&& after.host.methods == core.host.methods
            &&& after.host.call_edges == core.host.call_edges
            &&& forall|row: ImplementsView| #[trigger]
                after.host.implements.contains(row) <==> core.host.implements.contains(row) || (
                owner == Some(row.owner) && record == Some(row.impl_def) && is_some_told(
                    core.asked,
                    facts.trait_def,
                ) && row.trait_def == core_id(facts.trait_def->0))
            &&& forall|row: FromImplView| #[trigger]
                after.host.from_impls.contains(row) <==> core.host.from_impls.contains(row) || (
                is_conversion(facts.trait_def) && owner == Some(row.target) && record == Some(
                    row.impl_def,
                ) && is_some_told(core.asked, facts.argument) && row.source == core_id(
                    facts.argument->0,
                ))
        }),
{
    let (known, trait_def) = crate::ra::core_items::opt_registered(core, facts.trait_def);
    if facts.trait_def is Some {
        law_core_definitions_are_told(core, facts.trait_def->0, false);
    }
    if owner is Some && record is Some && trait_def is Some {
        law_rows_are_added(
            known.host.implements,
            ImplementsView {
                owner: owner->0,
                trait_def: trait_def->0,
                impl_def: record->0,
            },
        );
    }
    let implemented = match (owner, trait_def, record) {
        (Some(owner), Some(trait_def), Some(record)) => Core {
            host: HostView {
                implements: crate::ra::store::with_row(
                    known.host.implements,
                    ImplementsView { owner, trait_def, impl_def: record },
                ),
                ..known.host
            },
            ..known
        },
        _ => known,
    };
    if is_conversion(facts.trait_def) {
        let (told, source) = crate::ra::core_items::opt_registered(implemented, facts.argument);
        if facts.argument is Some {
            law_core_definitions_are_told(implemented, facts.argument->0, false);
        }
        if owner is Some && record is Some && source is Some {
            law_rows_are_added(
                told.host.from_impls,
                FromImplView {
                    source: source->0,
                    target: owner->0,
                    impl_def: record->0,
                },
            );
        }
    }
}

/// An impl tells that its own type implements its trait, that a conversion goes from
/// the trait's argument to its own type, and that its methods belong to its own type;
/// it tells no other row of these.
pub proof fn law_core_impls_belong_to_their_type(
    core: Core,
    facts: CoreImpl,
    tree: Seq<SyntaxView>,
)
    ensures
        ({
            let after = with_core_impl(core, facts, tree);
            &&& forall|row: ImplementsView| #[trigger]
                after.host.implements.contains(row) <==> core.host.implements.contains(row) || (
                stands(facts.loc) && is_some_told(core.asked, facts.self_adt) && is_some_told(
                    core.asked,
                    facts.trait_def,
                ) && row.owner == core_id(facts.self_adt->0) && row.trait_def == core_id(
                    facts.trait_def->0,
                ) && row.impl_def == core_impl_id(facts.loc->0))
            &&& forall|row: FromImplView| #[trigger]
                after.host.from_impls.contains(row) <==> core.host.from_impls.contains(row) || (
                is_conversion(facts.trait_def) && stands(facts.loc) && is_some_told(
                    core.asked,
                    facts.self_adt,
                ) && is_some_told(core.asked, facts.argument) && row.target == core_id(
                    facts.self_adt->0,
                ) && row.source == core_id(facts.argument->0) && row.impl_def == core_impl_id(
                    facts.loc->0,
                ))
            &&& forall|row: MethodView| #[trigger]
                after.host.methods.contains(row) <==> core.host.methods.contains(row) || (
                is_some_told(core.asked, facts.self_adt) && row.owner == core_id(
                    facts.self_adt->0,
                ) && is_method_row(
                    core.asked,
                    facts.methods@,
                    facts.methods@.len() as int,
                    row.method,
                ))
            &&& after.host.call_edges == core.host.call_edges
        }),
{
    let (recorded, record) = with_core_impl_record(core, facts.loc);
    lemma_record(core, facts.loc);
    let (known, owner) = crate::ra::core_items::opt_registered(recorded, facts.self_adt);
    if facts.self_adt is Some {
        law_core_definitions_are_told(recorded, facts.self_adt->0, false);
    }
    let related = with_core_relation(known, facts, owner, record);
    lemma_relation(known, facts, owner, record);
    lemma_methods(related, facts.methods@, owner, tree, facts.methods@.len());
}

/// A field of the name is told of the owner.
pub open spec fn tells_field(host: HostView, owner: u64, name: Seq<char>) -> bool {
    exists|row: FieldView| #[trigger]
        host.fields.contains(row) && row.owner == owner && row.name == name
}

/// One of the first `count` fields has the name: the one it is written with in a
/// record, its number in a tuple.
pub open spec fn has_field(
    fields: Seq<CoreField>,
    by_number: bool,
    count: int,
    name: Seq<char>,
) -> bool {
    exists|k: int|
        0 <= k < count && (if by_number {
            name == decimal(k as nat)
        } else {
            match (#[trigger] fields[k]).name {
                Some(written) => written@ == name,
                None => false,
            }
        })
}

/// One of the first `count` variants is told under the name.
pub open spec fn has_variant(
    asked: CoreHostBuildSpec,
    variants: Seq<CoreVariant>,
    count: int,
    name: Seq<char>,
    variant: u64,
) -> bool {
    exists|k: int|
        0 <= k < count && is_told(asked, (#[trigger] variants[k]).def) && variants[k].name@ == name
            && core_id(variants[k].def) == variant
}

/// The two indexes tell the same of everything that is not a part of a data type.
pub open spec fn same_but_parts(before: Core, after: Core) -> bool {
    &&& before.asked == after.asked
    &&& before.host.methods == after.host.methods
    &&& before.host.implements == after.host.implements
    &&& before.host.from_impls == after.host.from_impls
    &&& before.host.call_edges == after.host.call_edges
}

proof fn lemma_field(
    core: Core,
    field: CoreField,
    owner: u64,
    name: Seq<char>,
    tree: Seq<SyntaxView>,
)
    ensures
        ({
            let after = with_core_field(core, field, owner, name, tree);
            &&& same_but_parts(core, after)
            &&& after.host.variants == core.host.variants
            &&& forall|o: u64, n: Seq<char>| #[trigger]
                tells_field(after.host, o, n) <==> tells_field(core.host, o, n) || (o == owner && n
                    == name)
        }),
{
    let key = crate::ra::core_items::field_key(core, owner, name);
    let source = crate::ra::core_build::opt_row(field.source);
    let told = with_lowered(core, key, field.ty, tree, source);
    lemma_lowered(core, key, field.ty, tree, source);
    let row = FieldView { owner, name, ty: crate::ra::core_build::lowered_id(key) };
    law_rows_are_added(told.host.fields, row);
    let after = with_core_field(core, field, owner, name, tree);
    assert(after.host.fields.contains(row));
    assert forall|o: u64, n: Seq<char>| #[trigger]
        tells_field(after.host, o, n) <==> tells_field(core.host, o, n) || (o == owner && n
            == name) by {
        if tells_field(core.host, o, n) {
            let r = choose|r: FieldView| #[trigger]
                core.host.fields.contains(r) && r.owner == o && r.name == n;
            assert(after.host.fields.contains(r));
        }
        if tells_field(after.host, o, n) {
            let r = choose|r: FieldView| #[trigger]
                after.host.fields.contains(r) && r.owner == o && r.name == n;
            assert(core.host.fields.contains(r) || r == row);
        }
    }
}

proof fn lemma_has_field(fields: Seq<CoreField>, by_number: bool, count: int, name: Seq<char>)
    requires
        0 < count <= fields.len(),
    ensures
        has_field(fields, by_number, count, name) <==> has_field(
            fields,
            by_number,
            count - 1,
            name,
        ) || (if by_number {
            name == decimal((count - 1) as nat)
        } else {
            match fields[count - 1].name {
                Some(written) => written@ == name,
                None => false,
            }
        }),
{
    let last = fields[count - 1];
    if has_field(fields, by_number, count, name) {
        let k = choose|k: int|
            0 <= k < count && (if by_number {
                name == decimal(k as nat)
            } else {
                match (#[trigger] fields[k]).name {
                    Some(written) => written@ == name,
                    None => false,
                }
            });
        let at = fields[k];
        if k < count - 1 {
            assert(has_field(fields, by_number, count - 1, name));
        }
    }
    if has_field(fields, by_number, count - 1, name) {
        let k = choose|k: int|
            0 <= k < count - 1 && (if by_number {
                name == decimal(k as nat)
            } else {
                match (#[trigger] fields[k]).name {
                    Some(written) => written@ == name,
                    None => false,
                }
            });
        let at = fields[k];
        assert(has_field(fields, by_number, count, name));
    }
}

proof fn lemma_record_fields(
    core: Core,
    fields: Seq<CoreField>,
    owner: u64,
    tree: Seq<SyntaxView>,
    count: nat,
)
    requires
        count <= fields.len(),
    ensures
        ({
            let after = with_record(core, fields, owner, tree, count);
            &&& same_but_parts(core, after)
            &&& after.host.variants == core.host.variants
        }),
        forall|o: u64, n: Seq<char>| #[trigger]
            tells_field(with_record(core, fields, owner, tree, count).host, o, n) <==> tells_field(
                core.host,
                o,
                n,
            ) || (o == owner && has_field(fields, false, count as int, n)),
    decreases count,
{
    if count > 0 {
        let c = (count - 1) as nat;
        lemma_record_fields(core, fields, owner, tree, c);
        let told = with_record(core, fields, owner, tree, c);
        let after = with_record(core, fields, owner, tree, count);
        if fields[c as int].name is Some {
            lemma_field(told, fields[c as int], owner, fields[c as int].name->0@, tree);
        }
        assert forall|o: u64, n: Seq<char>| #[trigger]
            tells_field(after.host, o, n) <==> tells_field(core.host, o, n) || (o == owner
                && has_field(fields, false, count as int, n)) by {
            lemma_has_field(fields, false, count as int, n);
            assert(tells_field(told.host, o, n) <==> tells_field(core.host, o, n) || (o == owner
                && has_field(fields, false, c as int, n)));
        }
    }
}

proof fn lemma_tuple_fields(
    core: Core,
    fields: Seq<CoreField>,
    owner: u64,
    tree: Seq<SyntaxView>,
    count: nat,
)
    requires
        count <= fields.len(),
    ensures
        ({
            let after = with_tuple(core, fields, owner, tree, count);
            &&& same_but_parts(core, after)
            &&& after.host.variants == core.host.variants
        }),
        forall|o: u64, n: Seq<char>| #[trigger]
            tells_field(with_tuple(core, fields, owner, tree, count).host, o, n) <==> tells_field(
                core.host,
                o,
                n,
            ) || (o == owner && has_field(fields, true, count as int, n)),
    decreases count,
{
    if count > 0 {
        let c = (count - 1) as nat;
        lemma_tuple_fields(core, fields, owner, tree, c);
        let told = with_tuple(core, fields, owner, tree, c);
        let after = with_tuple(core, fields, owner, tree, count);
        lemma_field(told, fields[c as int], owner, decimal(c), tree);
        assert forall|o: u64, n: Seq<char>| #[trigger]
            tells_field(after.host, o, n) <==> tells_field(core.host, o, n) || (o == owner
                && has_field(fields, true, count as int, n)) by {
            lemma_has_field(fields, true, count as int, n);
            assert(tells_field(told.host, o, n) <==> tells_field(core.host, o, n) || (o == owner
                && has_field(fields, true, c as int, n)));
        }
    }
}

proof fn lemma_variants(core: Core, variants: Seq<CoreVariant>, owner: u64, count: nat)
    requires
        count <= variants.len(),
    ensures
        ({
            let after = with_core_variants(core, variants, owner, count);
            &&& same_but_parts(core, after)
            &&& after.host.fields == core.host.fields
            &&& forall|row: VariantView| #[trigger]
                after.host.variants.contains(row) <==> core.host.variants.contains(row) || (
                row.owner == owner && has_variant(
                    core.asked,
                    variants,
                    count as int,
                    row.name,
                    row.variant,
                ))
        }),
    decreases count,
{
    if count > 0 {
        let n = (count - 1) as nat;
        lemma_variants(core, variants, owner, n);
        let told = with_core_variants(core, variants, owner, n);
        let last = variants[n as int];
        let (known, def) = core_registered(told, last.def, false);
        law_core_definitions_are_told(told, last.def, false);
        let after = with_core_variants(core, variants, owner, count);
        if def is Some {
            law_rows_are_added(
                known.host.variants,
                VariantView { owner, name: last.name@, variant: def->0 },
            );
        }
        assert forall|row: VariantView| #[trigger]
            after.host.variants.contains(row) <==> core.host.variants.contains(row) || (row.owner
                == owner && has_variant(core.asked, variants, count as int, row.name, row.variant)) by {
            assert(after.host.variants.contains(row) <==> told.host.variants.contains(row) || (
            row.owner == owner && def == Some(row.variant) && row.name == last.name@));
            if has_variant(core.asked, variants, n as int, row.name, row.variant) {
                let k = choose|k: int|
                    0 <= k < n && is_told(core.asked, (#[trigger] variants[k]).def)
                        && variants[k].name@ == row.name && core_id(variants[k].def)
                        == row.variant;
                assert(is_told(core.asked, variants[k].def));
            }
            if has_variant(core.asked, variants, count as int, row.name, row.variant) {
                let k = choose|k: int|
                    0 <= k < count && is_told(core.asked, (#[trigger] variants[k]).def)
                        && variants[k].name@ == row.name && core_id(variants[k].def)
                        == row.variant;
                if k < n {
                    assert(has_variant(core.asked, variants, n as int, row.name, row.variant));
                }
            }
        }
    }
}

/// Where parts are asked for, a struct or union has exactly its fields told, by name or
/// by number, and an enum exactly its variants; where they are not, nothing is told.
pub proof fn law_core_parts_belong_to_their_type(
    core: Core,
    adt: CoreAdt,
    owner: u64,
    tree: Seq<SyntaxView>,
)
    ensures
        ({
            let after = with_core_adt(core, adt, owner, tree);
            &&& same_but_parts(core, after)
            &&& !core.asked.adt_structure ==> after == core
            &&& forall|o: u64, name: Seq<char>| #[trigger]
                tells_field(after.host, o, name) <==> tells_field(core.host, o, name) || (
                core.asked.adt_structure && o == owner && match adt {
                    CoreAdt::Record(fields) => has_field(
                        fields@,
                        false,
                        fields@.len() as int,
                        name,
                    ),
                    CoreAdt::Tuple(fields) => has_field(fields@, true, fields@.len() as int, name),
                    _ => false,
                })
            &&& forall|row: VariantView| #[trigger]
                after.host.variants.contains(row) <==> core.host.variants.contains(row) || (
                core.asked.adt_structure && row.owner == owner && match adt {
                    CoreAdt::Variants(variants) => has_variant(
                        core.asked,
                        variants@,
                        variants@.len() as int,
                        row.name,
                        row.variant,
                    ),
                    _ => false,
                })
        }),
{
    match adt {
        CoreAdt::Record(fields) => {
            lemma_record_fields(core, fields@, owner, tree, fields@.len());
        },
        CoreAdt::Tuple(fields) => {
            lemma_tuple_fields(core, fields@, owner, tree, fields@.len());
        },
        CoreAdt::Variants(variants) => {
            let after = with_core_variants(core, variants@, owner, variants@.len());
            lemma_variants(core, variants@, owner, variants@.len());
            if core.asked.adt_structure {
                assert forall|o: u64, name: Seq<char>| #[trigger]
                    tells_field(after.host, o, name) <==> tells_field(core.host, o, name) by {
                    assert(after.host.fields == core.host.fields);
                }
            }
        },
        CoreAdt::Unit => {},
    }
}

/// What the call calls, and how it finds that.
pub open spec fn is_callee(
    asked: CoreHostBuildSpec,
    file: LocalFile,
    call: CoreCallFacts,
    callee: u64,
    dispatch: DispatchKind,
) -> bool {
    match call {
        CoreCallFacts::Expression(Some(CoreTarget::Function(facts))) => is_told(asked, facts)
            && callee == core_id(facts) && dispatch is Direct,
        CoreCallFacts::Expression(Some(CoreTarget::TupleVariant(facts))) => is_told(asked, facts)
            && callee == core_id(facts) && dispatch is Direct,
        CoreCallFacts::Expression(Some(CoreTarget::TupleStruct(facts))) => dispatch is Direct
            && callee == (if is_told(asked, facts) {
            core_id(facts)
        } else {
            derived_id("def"@, "def:adt:"@ + outer_path(facts))
        }),
        CoreCallFacts::Expression(Some(CoreTarget::Closure(facts))) => dispatch is Closure
            && callee == core_synthetic_id("closure"@, file.rel_path@, facts),
        CoreCallFacts::Expression(Some(CoreTarget::FnPointer(facts))) => dispatch is FnPointer
            && callee == core_synthetic_id("fn_pointer"@, file.rel_path@, facts),
        CoreCallFacts::Expression(None) => false,
        CoreCallFacts::Method { function: Some(facts), on_trait_object, of_trait } => {
            &&& is_told(asked, facts)
            &&& callee == core_id(facts)
            &&& dispatch is Dyn <==> on_trait_object
            &&& dispatch is ThroughTrait <==> of_trait && !on_trait_object
            &&& dispatch is Direct <==> !of_trait && !on_trait_object
        },
        CoreCallFacts::Method { function: None, .. } => false,
    }
}

/// The row tells of the call, from the caller, at the place of the call.
pub open spec fn is_call_row(
    asked: CoreHostBuildSpec,
    file: LocalFile,
    call: CoreCall,
    caller: u64,
    row: CallEdgeView,
) -> bool {
    &&& row.caller == caller
    &&& key_in_text(file.rel_path@, file.text@, call.start, call.end) is Some
    &&& row.site == span_id_of(file.file_id, call.start, call.end)
    &&& is_callee(asked, file, call.call, row.callee, row.dispatch)
}

/// The row tells of one of the first `count` calls.
pub open spec fn is_one_call(
    asked: CoreHostBuildSpec,
    file: LocalFile,
    calls: Seq<CoreCall>,
    count: int,
    caller: u64,
    row: CallEdgeView,
) -> bool {
    exists|k: int|
        0 <= k < count && is_call_row(asked, file, #[trigger] calls[k], caller, row)
}

/// The row tells of a call in the body.
pub open spec fn is_body_call(asked: CoreHostBuildSpec, body: CoreBody, row: CallEdgeView) -> bool {
    match body.file {
        Some(file) => is_told(asked, body.def) && is_one_call(
            asked,
            file,
            body.calls@,
            body.calls@.len() as int,
            core_id(body.def),
            row,
        ),
        None => false,
    }
}

proof fn lemma_target(core: Core, file: LocalFile, call: CoreCallFacts)
    ensures
        same_told(core, core_call_target(core, file, call).0),
        forall|callee: u64, dispatch: DispatchKind|
            core_call_target(core, file, call).1 == Some((callee, dispatch)) <==> #[trigger] is_callee(
                core.asked,
                file,
                call,
                callee,
                dispatch,
            ),
{
    match call {
        CoreCallFacts::Expression(Some(CoreTarget::Function(facts))) => {
            law_core_definitions_are_told(core, facts, false);
        },
        CoreCallFacts::Expression(Some(CoreTarget::TupleVariant(facts))) => {
            law_core_definitions_are_told(core, facts, false);
        },
        CoreCallFacts::Expression(Some(CoreTarget::TupleStruct(facts))) => {
            lemma_adt(core, facts);
        },
        CoreCallFacts::Expression(Some(CoreTarget::Closure(facts))) => {
            assert(same_told(core, with_core_callable(core, "closure"@, file, facts)));
        },
        CoreCallFacts::Expression(Some(CoreTarget::FnPointer(facts))) => {
            assert(same_told(core, with_core_callable(core, "fn_pointer"@, file, facts)));
        },
        CoreCallFacts::Method { function: Some(facts), .. } => {
            law_core_definitions_are_told(core, facts, false);
        },
        _ => {},
    }
}

proof fn lemma_call(core: Core, file: LocalFile, call: CoreCall, caller: u64)
    ensures
        with_core_call(core, file, call, caller).asked == core.asked,
        forall|row: CallEdgeView| #[trigger]
            with_core_call(core, file, call, caller).host.call_edges.contains(row)
                <==> core.host.call_edges.contains(row) || is_call_row(
                core.asked,
                file,
                call,
                caller,
                row,
            ),
{
    let (known, target) = core_call_target(core, file, call.call);
    lemma_target(core, file, call.call);
    if let Some((callee, dispatch)) = target {
        assert(is_callee(core.asked, file, call.call, callee, dispatch));
        let site = span_id_of(file.file_id, call.start, call.end);
        law_rows_are_added(
            known.host.call_edges,
            CallEdgeView { caller, callee, site, dispatch },
        );
    }
}

proof fn lemma_calls(core: Core, file: LocalFile, calls: Seq<CoreCall>, caller: u64, count: nat)
    requires
        count <= calls.len(),
    ensures
        with_core_calls(core, file, calls, caller, count).asked == core.asked,
        forall|row: CallEdgeView| #[trigger]
            with_core_calls(core, file, calls, caller, count).host.call_edges.contains(row)
                <==> core.host.call_edges.contains(row) || is_one_call(
                core.asked,
                file,
                calls,
                count as int,
                caller,
                row,
            ),
    decreases count,
{
    if count > 0 {
        let n = (count - 1) as nat;
        lemma_calls(core, file, calls, caller, n);
        let told = with_core_calls(core, file, calls, caller, n);
        lemma_call(told, file, calls[n as int], caller);
        let after = with_core_calls(core, file, calls, caller, count);
        assert forall|row: CallEdgeView| #[trigger]
            after.host.call_edges.contains(row) <==> core.host.call_edges.contains(row)
                || is_one_call(core.asked, file, calls, count as int, caller, row) by {
            assert(after.host.call_edges.contains(row) <==> told.host.call_edges.contains(row)
                || is_call_row(core.asked, file, calls[n as int], caller, row));
            if is_one_call(core.asked, file, calls, n as int, caller, row) {
                let k = choose|k: int|
                    0 <= k < n && is_call_row(core.asked, file, #[trigger] calls[k], caller, row);
                assert(is_call_row(core.asked, file, calls[k], caller, row));
            }
            if is_one_call(core.asked, file, calls, count as int, caller, row) {
                let k = choose|k: int|
                    0 <= k < count && is_call_row(
                        core.asked,
                        file,
                        #[trigger] calls[k],
                        caller,
                        row,
                    );
                if k < n {
                    assert(is_one_call(core.asked, file, calls, n as int, caller, row));
                }
            }
        }
    }
}

proof fn lemma_body(core: Core, body: CoreBody)
    ensures
        with_core_body(core, body).asked == core.asked,
        forall|row: CallEdgeView| #[trigger]
            with_core_body(core, body).host.call_edges.contains(row)
                <==> core.host.call_edges.contains(row) || is_body_call(core.asked, body, row),
{
    if let Some(file) = body.file {
        let (known, caller) = core_registered(core, body.def, false);
        law_core_definitions_are_told(core, body.def, false);
        if caller is Some {
            lemma_calls(known, file, body.calls@, caller->0, body.calls@.len());
        }
    }
}

/// A call is told exactly where the body of one of the functions makes it: from that
/// function, to what it calls, at its place.
pub proof fn law_core_calls_are_those_of_the_bodies(core: Core, bodies: Seq<CoreBody>, count: nat)
    requires
        count <= bodies.len(),
    ensures
        with_core_bodies(core, bodies, count).asked == core.asked,
        forall|row: CallEdgeView| #[trigger]
            with_core_bodies(core, bodies, count).host.call_edges.contains(row)
                <==> core.host.call_edges.contains(row) || exists|b: int|
                0 <= b < count && is_body_call(core.asked, #[trigger] bodies[b], row),
    decreases count,
{
    if count > 0 {
        let n = (count - 1) as nat;
        law_core_calls_are_those_of_the_bodies(core, bodies, n);
        let told = with_core_bodies(core, bodies, n);
        lemma_body(told, bodies[n as int]);
        let after = with_core_bodies(core, bodies, count);
        assert forall|row: CallEdgeView| #[trigger]
            after.host.call_edges.contains(row) <==> core.host.call_edges.contains(row)
                || exists|b: int|
                0 <= b < count && is_body_call(core.asked, #[trigger] bodies[b], row) by {
            assert(after.host.call_edges.contains(row) <==> told.host.call_edges.contains(row)
                || is_body_call(core.asked, bodies[n as int], row));
            if exists|b: int|
                0 <= b < count && is_body_call(core.asked, #[trigger] bodies[b], row) {
                let b = choose|b: int|
                    0 <= b < count && is_body_call(core.asked, #[trigger] bodies[b], row);
                if b < n {
                    assert(is_body_call(core.asked, bodies[b], row));
                }
            }
        }
    }
}

} // verus!
