//! What the snapshot of a workspace tells of its items.

use crate::ra::flow_laws::{in_sources, law_files_keep_rows};
use crate::ra::host::HostView;
use crate::ra::row_laws::{kept, law_rows_are_added, rows_kept, same_rows};
use crate::ra::rows::{FieldView, FromImplView, ImplementsView, MethodView, VariantView};
use crate::ra::snapshot::{snapshot_of, stamped, with_crates, FileFacts};
use crate::ra::snapshot_fns::{with_fn_types, with_unknown_type, FunctionFacts};
use crate::ra::snapshot_items::{
    impl_id, item_def, with_assocs, with_fields, with_impl, with_impl_record, with_impls,
    with_module, with_module_item, with_module_items, with_self_type, with_trait,
    with_untyped_field, with_variant_fields, with_variants, AdtFacts, AssocFacts, FieldFacts,
    ImplFacts, ModuleItem, ModuleTree, TraitFacts, VariantFacts,
};
use crate::ra::snapshot_types::{
    fingerprint, fingerprints, interned, interned_all, registered, shaped, snapshot_def_id,
    ModuleFacts, Snapshot, SourceLoc, TyFacts,
};
use crate::ra::source::key_in_text;
use vstd::prelude::*;

verus! {

proof fn lemma_fingerprint_rows(snapshot: Snapshot, ty: TyFacts, owner: Option<u64>)
    ensures
        same_rows(snapshot.host, fingerprint(snapshot, ty, owner).0.host),
    decreases ty, 0nat,
{
    match ty {
        TyFacts::Reference { inner, .. } => lemma_fingerprint_rows(snapshot, *inner, owner),
        TyFacts::RawPtr(inner) => lemma_fingerprint_rows(snapshot, *inner, owner),
        TyFacts::Tuple(items) => lemma_fingerprints_rows(snapshot, items, owner, items@.len()),
        TyFacts::Slice(inner) => lemma_fingerprint_rows(snapshot, *inner, owner),
        TyFacts::Adt { def, args } => {
            let known = registered(snapshot, def, false).0;
            lemma_fingerprints_rows(known, args, owner, args@.len());
        },
        TyFacts::Dyn { def, args } => {
            let known = registered(snapshot, def, false).0;
            lemma_fingerprints_rows(known, args, owner, args@.len());
        },
        _ => {},
    }
}

proof fn lemma_fingerprints_rows(
    snapshot: Snapshot,
    types: Vec<TyFacts>,
    owner: Option<u64>,
    count: nat,
)
    ensures
        same_rows(snapshot.host, fingerprints(snapshot, types, owner, count).0.host),
    decreases types, count,
{
    if 0 < count <= types@.len() {
        lemma_fingerprints_rows(snapshot, types, owner, (count - 1) as nat);
        let known = fingerprints(snapshot, types, owner, (count - 1) as nat).0;
        lemma_fingerprint_rows(known, types[count - 1], owner);
    }
}

proof fn lemma_interned_rows(snapshot: Snapshot, ty: TyFacts, owner: Option<u64>)
    ensures
        same_rows(snapshot.host, interned(snapshot, ty, owner).0.host),
    decreases ty, 2nat,
{
    lemma_fingerprint_rows(snapshot, ty, owner);
    let known = fingerprint(snapshot, ty, owner).0;
    lemma_shaped_rows(known, ty, owner);
}

proof fn lemma_interned_all_rows(
    snapshot: Snapshot,
    types: Vec<TyFacts>,
    owner: Option<u64>,
    count: nat,
)
    ensures
        same_rows(snapshot.host, interned_all(snapshot, types, owner, count).0.host),
    decreases types, count,
{
    if 0 < count <= types@.len() {
        lemma_interned_all_rows(snapshot, types, owner, (count - 1) as nat);
        let known = interned_all(snapshot, types, owner, (count - 1) as nat).0;
        lemma_interned_rows(known, types[count - 1], owner);
    }
}

proof fn lemma_shaped_rows(snapshot: Snapshot, ty: TyFacts, owner: Option<u64>)
    ensures
        same_rows(snapshot.host, shaped(snapshot, ty, owner).0.host),
    decreases ty, 1nat,
{
    match ty {
        TyFacts::Reference { inner, .. } => lemma_interned_rows(snapshot, *inner, owner),
        TyFacts::RawPtr(inner) => lemma_interned_rows(snapshot, *inner, owner),
        TyFacts::Tuple(items) => lemma_interned_all_rows(snapshot, items, owner, items@.len()),
        TyFacts::Slice(inner) => lemma_interned_rows(snapshot, *inner, owner),
        TyFacts::Adt { def, args } => {
            let known = registered(snapshot, def, false).0;
            lemma_interned_all_rows(known, args, owner, args@.len());
        },
        TyFacts::Dyn { def, args } => {
            let known = registered(snapshot, def, false).0;
            lemma_interned_all_rows(known, args, owner, args@.len());
        },
        _ => {},
    }
}

proof fn lemma_fn_types_rows(snapshot: Snapshot, facts: FunctionFacts, def: u64)
    ensures
        same_rows(snapshot.host, with_fn_types(snapshot, facts, def).host),
{
    let (typed, ret) = match facts.ret {
        Some(ret) => interned(snapshot, ret.ty, Some(def)),
        None => with_unknown_type(
            snapshot,
            "fn_ret_ty:"@ + crate::ir::stable_id_text(def),
        ),
    };
    if let Some(ret) = facts.ret {
        lemma_interned_rows(snapshot, ret.ty, Some(def));
    }
    assert(same_rows(snapshot.host, typed.host));
    let returned = Snapshot {
        host: HostView {
            fn_returns: typed.host.fn_returns.insert(def, Some(ret)),
            fn_errors: typed.host.fn_errors.insert(def, None),
            ..typed.host
        },
        ..typed
    };
    crate::ra::flow_laws::lemma_fn_error_rows(returned, facts);
}

/// A field row is told.
proof fn lemma_untyped_field(snapshot: Snapshot, owner: u64, name: Seq<char>, key: Seq<char>)
    ensures
        ({
            let after = with_untyped_field(snapshot, owner, name, key).host;
            &&& rows_kept(snapshot.host, after)
            &&& has_field(after.fields, owner, name)
        }),
{
    let (typed, ty) = with_unknown_type(snapshot, key);
    law_rows_are_added(typed.host.fields, FieldView { owner, name, ty });
    assert(with_untyped_field(snapshot, owner, name, key).host.fields.contains(
        FieldView { owner, name, ty },
    ));
}

/// The owner has a field of the name.
pub open spec fn has_field(fields: Seq<FieldView>, owner: u64, name: Seq<char>) -> bool {
    exists|ty: u64| #[trigger] fields.contains(FieldView { owner, name, ty })
}

proof fn lemma_has_field_kept(
    before: Seq<FieldView>,
    after: Seq<FieldView>,
    owner: u64,
    name: Seq<char>,
)
    requires
        has_field(before, owner, name),
        kept(before, after),
    ensures
        has_field(after, owner, name),
{
    let ty = choose|ty: u64| #[trigger] before.contains(FieldView { owner, name, ty });
    assert(after.contains(FieldView { owner, name, ty }));
}

/// The place is one of the sources.
pub open spec fn is_placed(loc: Option<SourceLoc>) -> bool {
    match loc {
        Some(loc) => key_in_text(loc.rel_path@, loc.text@, loc.start, loc.end) is Some,
        None => false,
    }
}

proof fn lemma_fields(
    snapshot: Snapshot,
    fields: Seq<FieldFacts>,
    owner: u64,
    path: Seq<char>,
    in_test: bool,
    count: nat,
)
    requires
        count <= fields.len(),
    ensures
        ({
            let after = with_fields(snapshot, fields, owner, path, in_test, count).host;
            &&& rows_kept(snapshot.host, after)
            &&& forall|k: int|
                0 <= k < count && is_placed((#[trigger] fields[k]).loc) ==> has_field(
                    after.fields,
                    owner,
                    fields[k].name@,
                )
        }),
    decreases count,
{
    if count > 0 {
        let n = count - 1;
        lemma_fields(snapshot, fields, owner, path, in_test, n as nat);
        let told = with_fields(snapshot, fields, owner, path, in_test, n as nat);
        let field = fields[n];
        let after = with_fields(snapshot, fields, owner, path, in_test, count).host;
        if is_placed(field.loc) {
            let loc = field.loc->0;
            let placed = crate::ra::snapshot_types::with_loc(told, loc);
            let field_path = path + "::"@ + field.name@;
            let def = crate::ra::snapshot_items::field_id(field_path, loc);
            let named = Snapshot {
                host: HostView {
                    defs: placed.host.defs.insert(
                        def,
                        crate::ra::host::DefRecordView {
                            name: field.name@,
                            kind: crate::ra::kinds::DefKind::Field,
                            span: crate::ra::snapshot_types::loc_span(loc),
                            path: field_path,
                        },
                    ),
                    ..placed.host
                },
                names: crate::ra::store::with_row(
                    placed.names,
                    crate::ra::snapshot_types::NameView { name: field.name@, def },
                ),
                paths: placed.paths.insert(def, field_path),
                ..placed
            };
            lemma_untyped_field(
                named,
                owner,
                field.name@,
                "field_ty:"@ + path + ":"@ + field.name@,
            );
        }
        assert(rows_kept(told.host, after));
        assert forall|k: int| 0 <= k < count && is_placed(
            (#[trigger] fields[k]).loc,
        ) implies has_field(after.fields, owner, fields[k].name@) by {
            if k < n {
                lemma_has_field_kept(told.host.fields, after.fields, owner, fields[k].name@);
            }
        }
    }
}

proof fn lemma_variant_fields(
    snapshot: Snapshot,
    fields: Seq<String>,
    variant: u64,
    name: Seq<char>,
    count: nat,
)
    requires
        count <= fields.len(),
    ensures
        ({
            let after = with_variant_fields(snapshot, fields, variant, name, count).host;
            &&& rows_kept(snapshot.host, after)
            &&& forall|k: int|
                0 <= k < count ==> has_field(after.fields, variant, (#[trigger] fields[k])@)
        }),
    decreases count,
{
    if count > 0 {
        let n = count - 1;
        lemma_variant_fields(snapshot, fields, variant, name, n as nat);
        let told = with_variant_fields(snapshot, fields, variant, name, n as nat);
        let after = with_variant_fields(snapshot, fields, variant, name, count).host;
        lemma_untyped_field(
            told,
            variant,
            fields[n]@,
            "variant_field_ty:"@ + name + ":"@ + fields[n]@,
        );
        assert forall|k: int| 0 <= k < count implies has_field(
            after.fields,
            variant,
            (#[trigger] fields[k])@,
        ) by {
            if k < n {
                lemma_has_field_kept(told.host.fields, after.fields, variant, fields[k]@);
            }
        }
    }
}

/// The variant is told as the owner's, with its fields.
pub open spec fn is_told_variant(host: HostView, variant: VariantFacts, owner: u64) -> bool {
    &&& host.variants.contains(
        VariantView { owner, name: variant.name@, variant: snapshot_def_id(variant.def) },
    )
    &&& forall|k: int|
        0 <= k < variant.fields@.len() ==> has_field(
            host.fields,
            snapshot_def_id(variant.def),
            (#[trigger] variant.fields@[k])@,
        )
}

proof fn lemma_variant_kept(before: HostView, after: HostView, variant: VariantFacts, owner: u64)
    requires
        rows_kept(before, after),
        is_told_variant(before, variant, owner),
    ensures
        is_told_variant(after, variant, owner),
{
    assert forall|k: int| 0 <= k < variant.fields@.len() implies has_field(
        after.fields,
        snapshot_def_id(variant.def),
        (#[trigger] variant.fields@[k])@,
    ) by {
        lemma_has_field_kept(
            before.fields,
            after.fields,
            snapshot_def_id(variant.def),
            variant.fields@[k]@,
        );
    }
}

proof fn lemma_variants(
    snapshot: Snapshot,
    variants: Seq<VariantFacts>,
    owner: u64,
    in_test: bool,
    count: nat,
)
    requires
        count <= variants.len(),
    ensures
        ({
            let after = with_variants(snapshot, variants, owner, in_test, count).host;
            &&& rows_kept(snapshot.host, after)
            &&& forall|k: int|
                0 <= k < count && in_sources((#[trigger] variants[k]).def) ==> is_told_variant(
                    after,
                    variants[k],
                    owner,
                )
        }),
    decreases count,
{
    if count > 0 {
        let n = count - 1;
        lemma_variants(snapshot, variants, owner, in_test, n as nat);
        let told = with_variants(snapshot, variants, owner, in_test, n as nat);
        let after = with_variants(snapshot, variants, owner, in_test, count).host;
        let variant = variants[n];
        let (known, def) = registered(told, variant.def, in_test);
        if let Some(def) = def {
            let row = VariantView { owner, name: variant.name@, variant: def };
            law_rows_are_added(known.host.variants, row);
            let told_row = Snapshot {
                host: HostView {
                    variants: crate::ra::store::with_row(known.host.variants, row),
                    ..known.host
                },
                ..known
            };
            lemma_variant_fields(
                told_row,
                variant.fields@,
                def,
                variant.name@,
                variant.fields@.len(),
            );
        }
        assert(rows_kept(told.host, after));
        assert forall|k: int| 0 <= k < count && in_sources(
            (#[trigger] variants[k]).def,
        ) implies is_told_variant(after, variants[k], owner) by {
            if k < n {
                lemma_variant_kept(told.host, after, variants[k], owner);
            }
        }
    }
}

/// The methods among the items are told as the owner's.
spec fn methods_told(
    items: Seq<AssocFacts>,
    count: nat,
    owner: u64,
    rows: Seq<MethodView>,
) -> bool {
    forall|k: int|
        0 <= k < count ==> match #[trigger] items[k] {
            AssocFacts::Function(facts) => in_sources(facts.def) ==> rows.contains(
                MethodView { owner, method: snapshot_def_id(facts.def) },
            ),
            AssocFacts::Other(_) => true,
        }
}

proof fn lemma_assocs(
    snapshot: Snapshot,
    items: Seq<AssocFacts>,
    owner: Option<u64>,
    of_trait: bool,
    in_test: bool,
    count: nat,
)
    requires
        count <= items.len(),
    ensures
        ({
            let before = snapshot.host;
            let after = with_assocs(snapshot, items, owner, of_trait, in_test, count).host;
            &&& rows_kept(before, after)
            &&& before.implements == after.implements
            &&& before.from_impls == after.from_impls
            &&& of_trait ==> before.methods == after.methods
            &&& !of_trait ==> before.trait_methods == after.trait_methods
            &&& owner matches Some(owner) ==> methods_told(
                items,
                count,
                owner,
                if of_trait {
                    after.trait_methods
                } else {
                    after.methods
                },
            )
        }),
    decreases count,
{
    if count > 0 {
        let n = count - 1;
        lemma_assocs(snapshot, items, owner, of_trait, in_test, n as nat);
        let told = with_assocs(snapshot, items, owner, of_trait, in_test, n as nat);
        if let AssocFacts::Function(facts) = items[n] {
            let (known, def) = registered(told, facts.def, in_test);
            if let Some(def) = def {
                lemma_fn_types_rows(known, facts, def);
                if let Some(owner) = owner {
                    let row = MethodView { owner, method: def };
                    law_rows_are_added(told.host.methods, row);
                    law_rows_are_added(told.host.trait_methods, row);
                }
            }
        }
    }
}

/// The type is a data type of the sources.
pub open spec fn is_adt_of(ty: Option<TyFacts>, def: ModuleFacts) -> bool {
    in_sources(def) && match ty {
        Some(TyFacts::Adt { def: head, .. }) => head == def,
        _ => false,
    }
}

proof fn lemma_impl_rows(snapshot: Snapshot, facts: ImplFacts, in_test: bool)
    ensures
        rows_kept(snapshot.host, with_impl(snapshot, facts, in_test).host),
{
    if is_placed(facts.loc) {
        let loc = facts.loc->0;
        let record = impl_id(loc);
        let recorded = with_impl_record(snapshot, loc, in_test);
        let (owned, owner) = with_self_type(recorded, facts.self_ty, record);
        assert(same_rows(snapshot.host, owned.host));
        let implemented = match (owner, facts.trait_ref) {
            (Some(owner), Some(trait_ref)) => with_trait(owned, trait_ref, owner, record, in_test),
            _ => owned,
        };
        if let (Some(owner), Some(trait_ref)) = (owner, facts.trait_ref) {
            lemma_trait_rows(owned, trait_ref, owner, record, in_test);
        }
        lemma_assocs(implemented, facts.items@, owner, false, in_test, facts.items@.len());
    }
}

proof fn lemma_trait_rows(
    snapshot: Snapshot,
    trait_ref: TraitFacts,
    owner: u64,
    record: u64,
    in_test: bool,
)
    ensures
        ({
            let after = with_trait(snapshot, trait_ref, owner, record, in_test).host;
            &&& rows_kept(snapshot.host, after)
            &&& in_sources(trait_ref.def) ==> after.implements.contains(
                ImplementsView {
                    owner,
                    trait_def: snapshot_def_id(trait_ref.def),
                    impl_def: record,
                },
            )
            &&& forall|source: ModuleFacts|
                in_sources(trait_ref.def) && trait_ref.name@ == "From"@ && #[trigger] is_adt_of(
                    trait_ref.argument,
                    source,
                ) ==> after.from_impls.contains(
                    FromImplView {
                        source: snapshot_def_id(source),
                        target: owner,
                        impl_def: record,
                    },
                )
        }),
{
    let (known, trait_def) = registered(snapshot, trait_ref.def, in_test);
    if let Some(trait_def) = trait_def {
        let (sourced, source) = if trait_ref.name@ == "From"@ {
            with_self_type(known, trait_ref.argument, record)
        } else {
            (known, None)
        };
        assert(same_rows(snapshot.host, sourced.host));
        law_rows_are_added(
            sourced.host.implements,
            ImplementsView { owner, trait_def, impl_def: record },
        );
        if let Some(source) = source {
            law_rows_are_added(
                sourced.host.from_impls,
                FromImplView { source, target: owner, impl_def: record },
            );
        }
    }
}

/// An impl of the sources tells that its own type implements its trait, that the
/// argument of `From` converts into it, and that its functions are its methods.
pub proof fn law_snapshot_impls_belong_to_their_type(
    snapshot: Snapshot,
    facts: ImplFacts,
    in_test: bool,
    own: ModuleFacts,
)
    requires
        is_placed(facts.loc),
        is_adt_of(facts.self_ty, own),
    ensures
        ({
            let after = with_impl(snapshot, facts, in_test).host;
            let owner = snapshot_def_id(own);
            let record = impl_id(facts.loc->0);
            &&& facts.trait_ref matches Some(trait_ref) ==> (in_sources(trait_ref.def)
                ==> after.implements.contains(
                ImplementsView {
                    owner,
                    trait_def: snapshot_def_id(trait_ref.def),
                    impl_def: record,
                },
            ))
            &&& facts.trait_ref matches Some(trait_ref) ==> forall|source: ModuleFacts|
                in_sources(trait_ref.def) && trait_ref.name@ == "From"@ && #[trigger] is_adt_of(
                    trait_ref.argument,
                    source,
                ) ==> after.from_impls.contains(
                    FromImplView {
                        source: snapshot_def_id(source),
                        target: owner,
                        impl_def: record,
                    },
                )
            &&& facts.trait_ref is None ==> after.implements == snapshot.host.implements
                && after.from_impls == snapshot.host.from_impls
            &&& forall|k: int|
                0 <= k < facts.items@.len() ==> match #[trigger] facts.items@[k] {
                    AssocFacts::Function(function) => in_sources(function.def)
                        ==> after.methods.contains(
                        MethodView { owner, method: snapshot_def_id(function.def) },
                    ),
                    AssocFacts::Other(_) => true,
                }
            &&& after.trait_methods == snapshot.host.trait_methods
        }),
{
    let loc = facts.loc->0;
    let record = impl_id(loc);
    let recorded = with_impl_record(snapshot, loc, in_test);
    let (owned, owner) = with_self_type(recorded, facts.self_ty, record);
    assert(owner == Some(snapshot_def_id(own)));
    assert(same_rows(snapshot.host, owned.host));
    let implemented = match facts.trait_ref {
        Some(trait_ref) => with_trait(owned, trait_ref, owner->0, record, in_test),
        None => owned,
    };
    if let Some(trait_ref) = facts.trait_ref {
        lemma_trait_rows(owned, trait_ref, owner->0, record, in_test);
    }
    assert(implemented.host.trait_methods == snapshot.host.trait_methods);
    lemma_assocs(implemented, facts.items@, owner, false, in_test, facts.items@.len());
    assert(methods_told(
        facts.items@,
        facts.items@.len(),
        owner->0,
        with_impl(snapshot, facts, in_test).host.methods,
    ));
}

/// An item of the sources tells of its parts: a struct of its fields, an enum of its
/// variants and their fields, a trait of its functions.
pub proof fn law_snapshot_items_have_their_parts(
    snapshot: Snapshot,
    item: ModuleItem,
    in_test: bool,
)
    requires
        in_sources(item_def(item)),
    ensures
        ({
            let after = with_module_item(snapshot, item, in_test).host;
            let owner = snapshot_def_id(item_def(item));
            match item {
                ModuleItem::Adt { parts: AdtFacts::Fields(fields), .. } => forall|k: int|
                    0 <= k < fields@.len() && is_placed((#[trigger] fields@[k]).loc) ==> has_field(
                        after.fields,
                        owner,
                        fields@[k].name@,
                    ),
                ModuleItem::Adt { parts: AdtFacts::Variants(variants), .. } => forall|k: int|
                    0 <= k < variants@.len() && in_sources((#[trigger] variants@[k]).def)
                        ==> is_told_variant(after, variants@[k], owner),
                ModuleItem::Trait { items, .. } => after.methods == snapshot.host.methods && forall|
                    k: int,
                |
                    0 <= k < items@.len() ==> match #[trigger] items@[k] {
                        AssocFacts::Function(function) => in_sources(function.def)
                            ==> after.trait_methods.contains(
                            MethodView { owner, method: snapshot_def_id(function.def) },
                        ),
                        AssocFacts::Other(_) => true,
                    },
                _ => true,
            }
        }),
{
    let (known, def) = registered(snapshot, item_def(item), in_test);
    let owner = snapshot_def_id(item_def(item));
    match item {
        ModuleItem::Adt { parts: AdtFacts::Fields(fields), .. } => {
            lemma_fields(
                known,
                fields@,
                owner,
                crate::ra::snapshot_items::owner_path(known, owner),
                in_test,
                fields@.len(),
            );
        },
        ModuleItem::Adt { parts: AdtFacts::Variants(variants), .. } => {
            lemma_variants(known, variants@, owner, in_test, variants@.len());
        },
        ModuleItem::Trait { items, .. } => {
            lemma_assocs(known, items@, Some(owner), true, in_test, items@.len());
            assert(methods_told(
                items@,
                items@.len(),
                owner,
                with_module_item(snapshot, item, in_test).host.trait_methods,
            ));
        },
        _ => {},
    }
}

proof fn lemma_item_rows(snapshot: Snapshot, item: ModuleItem, in_test: bool)
    ensures
        rows_kept(snapshot.host, with_module_item(snapshot, item, in_test).host),
    decreases item,
{
    let (known, def) = registered(snapshot, item_def(item), in_test);
    if let Some(def) = def {
        match item {
            ModuleItem::Module(tree) => lemma_module_rows(known, tree, in_test),
            ModuleItem::Function(facts) => lemma_fn_types_rows(known, facts, def),
            ModuleItem::Adt { parts: AdtFacts::Fields(fields), .. } => lemma_fields(
                known,
                fields@,
                def,
                crate::ra::snapshot_items::owner_path(known, def),
                in_test,
                fields@.len(),
            ),
            ModuleItem::Adt { parts: AdtFacts::Variants(variants), .. } => lemma_variants(
                known,
                variants@,
                def,
                in_test,
                variants@.len(),
            ),
            ModuleItem::Trait { items, .. } => lemma_assocs(
                known,
                items@,
                Some(def),
                true,
                in_test,
                items@.len(),
            ),
            ModuleItem::Other(_) => {},
        }
    }
}

proof fn lemma_items_rows(snapshot: Snapshot, items: Vec<ModuleItem>, in_test: bool, count: nat)
    ensures
        rows_kept(snapshot.host, with_module_items(snapshot, items, in_test, count).host),
    decreases items, count,
{
    if 0 < count <= items@.len() {
        lemma_items_rows(snapshot, items, in_test, (count - 1) as nat);
        let told = with_module_items(snapshot, items, in_test, (count - 1) as nat);
        lemma_item_rows(told, items[count - 1], in_test);
    }
}

proof fn lemma_impls_rows(snapshot: Snapshot, impls: Seq<ImplFacts>, in_test: bool, n: nat, count: nat)
    requires
        n <= count,
    ensures
        rows_kept(
            with_impls(snapshot, impls, in_test, n).host,
            with_impls(snapshot, impls, in_test, count).host,
        ),
    decreases count,
{
    if n < count {
        lemma_impls_rows(snapshot, impls, in_test, n, (count - 1) as nat);
        lemma_impl_rows(
            with_impls(snapshot, impls, in_test, (count - 1) as nat),
            impls[count - 1],
            in_test,
        );
    }
}

proof fn lemma_module_rows(snapshot: Snapshot, tree: ModuleTree, inherited: bool)
    ensures
        rows_kept(snapshot.host, with_module(snapshot, tree, inherited).host),
    decreases tree,
{
    let in_test = inherited || tree.is_test;
    let known = registered(snapshot, tree.def, in_test).0;
    lemma_items_rows(known, tree.items, in_test, tree.items@.len());
    let told = with_module_items(known, tree.items, in_test, tree.items@.len());
    lemma_impls_rows(told, tree.impls@, in_test, 0, tree.impls@.len());
}

/// The index is one that telling the item leads to, with more told behind it.
pub open spec fn has_told_item(item: ModuleItem, in_test: bool, after: HostView) -> bool {
    exists|before: Snapshot|
        rows_kept((#[trigger] with_module_item(before, item, in_test)).host, after)
}

/// The index is one that telling the impl leads to, with more told behind it.
pub open spec fn has_told_impl(facts: ImplFacts, in_test: bool, after: HostView) -> bool {
    exists|before: Snapshot|
        rows_kept((#[trigger] with_impl(before, facts, in_test)).host, after)
}

proof fn lemma_item_told(
    snapshot: Snapshot,
    items: Vec<ModuleItem>,
    in_test: bool,
    k: int,
    count: nat,
)
    requires
        0 <= k < count <= items@.len(),
    ensures
        has_told_item(
            items@[k],
            in_test,
            with_module_items(snapshot, items, in_test, count).host,
        ),
    decreases count,
{
    let told = with_module_items(snapshot, items, in_test, (count - 1) as nat);
    let after = with_module_items(snapshot, items, in_test, count);
    if k == count - 1 {
        assert(with_module_item(told, items@[k], in_test) == after);
        assert(rows_kept(after.host, after.host));
    } else {
        lemma_item_told(snapshot, items, in_test, k, (count - 1) as nat);
        lemma_item_rows(told, items[count - 1], in_test);
        let before = choose|before: Snapshot|
            rows_kept((#[trigger] with_module_item(before, items@[k], in_test)).host, told.host);
        assert(rows_kept(with_module_item(before, items@[k], in_test).host, after.host));
    }
}

/// Every item and every impl of a module is told.
pub proof fn law_modules_tell_of_what_they_hold(
    snapshot: Snapshot,
    tree: ModuleTree,
    inherited: bool,
)
    ensures
        ({
            let in_test = inherited || tree.is_test;
            let after = with_module(snapshot, tree, inherited).host;
            &&& forall|k: int|
                0 <= k < tree.items@.len() ==> has_told_item(
                    #[trigger] tree.items@[k],
                    in_test,
                    after,
                )
            &&& forall|k: int|
                0 <= k < tree.impls@.len() ==> has_told_impl(
                    #[trigger] tree.impls@[k],
                    in_test,
                    after,
                )
            &&& rows_kept(snapshot.host, after)
        }),
{
    let in_test = inherited || tree.is_test;
    let known = registered(snapshot, tree.def, in_test).0;
    let told = with_module_items(known, tree.items, in_test, tree.items@.len());
    let after = with_module(snapshot, tree, inherited).host;
    lemma_module_rows(snapshot, tree, inherited);
    lemma_impls_rows(told, tree.impls@, in_test, 0, tree.impls@.len());
    assert forall|k: int| 0 <= k < tree.items@.len() implies has_told_item(
        #[trigger] tree.items@[k],
        in_test,
        after,
    ) by {
        lemma_item_told(known, tree.items, in_test, k, tree.items@.len());
        let before = choose|before: Snapshot|
            rows_kept(
                (#[trigger] with_module_item(before, tree.items@[k], in_test)).host,
                told.host,
            );
        assert(rows_kept(with_module_item(before, tree.items@[k], in_test).host, after));
    }
    assert forall|k: int| 0 <= k < tree.impls@.len() implies has_told_impl(
        #[trigger] tree.impls@[k],
        in_test,
        after,
    ) by {
        let before = with_impls(told, tree.impls@, in_test, k as nat);
        lemma_impls_rows(told, tree.impls@, in_test, (k + 1) as nat, tree.impls@.len());
        assert(with_impl(before, tree.impls@[k], in_test) == with_impls(
            told,
            tree.impls@,
            in_test,
            (k + 1) as nat,
        ));
    }
}

/// Nothing that is told of a crate is lost in the index of the workspace.
pub proof fn law_crates_are_kept(
    stamp: Seq<char>,
    crates: Seq<ModuleTree>,
    files: Seq<FileFacts>,
    n: int,
)
    requires
        0 <= n < crates.len(),
    ensures
        rows_kept(
            with_crates(stamped(stamp), crates, (n + 1) as nat).host,
            snapshot_of(stamp, crates, files),
        ),
        with_crates(stamped(stamp), crates, (n + 1) as nat) == with_module(
            with_crates(stamped(stamp), crates, n as nat),
            crates[n],
            false,
        ),
{
    lemma_crates_rows(stamped(stamp), crates, (n + 1) as nat, crates.len());
    let all = with_crates(stamped(stamp), crates, crates.len());
    law_files_keep_rows(all, files, 0, files.len());
}

proof fn lemma_crates_rows(snapshot: Snapshot, crates: Seq<ModuleTree>, n: nat, count: nat)
    requires
        n <= count,
    ensures
        rows_kept(
            with_crates(snapshot, crates, n).host,
            with_crates(snapshot, crates, count).host,
        ),
    decreases count,
{
    if n < count {
        lemma_crates_rows(snapshot, crates, n, (count - 1) as nat);
        lemma_module_rows(
            with_crates(snapshot, crates, (count - 1) as nat),
            crates[count - 1],
            false,
        );
    }
}

} // verus!
