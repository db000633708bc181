//! Building a snapshot: modules and what they hold.

use crate::host::{derived_id, DefId};
use crate::ra::host::{opt_def, DefRecordView, HostView};
use crate::ra::kinds::DefKind;
use crate::ra::rows::{
    FieldView, FromImplView, ImplementsView, MethodView, VariantView,
};
use crate::ra::snapshot_fns::{
    fn_indexable, with_fn_types, with_unknown_type, FunctionFacts,
};
use crate::ra::snapshot_types::{
    loc_indexable, loc_span, loc_valid, registered, ty_indexable, type_head, with_loc, ModuleFacts,
    NameRow, NameView, Snapshot, SnapshotBuilder, SourceLoc, TyFacts,
};
use crate::ra::source::{place_text, place_to_text, range_text, range_to_text};
use crate::ra::store::with_row;
use crate::text::{cat2, cat3, owned, str_eq};
use vstd::prelude::*;

verus! {

/// A field of a struct or union.
pub struct FieldFacts {
    pub name: String,
    pub loc: Option<SourceLoc>,
    pub is_public: bool,
}

/// A variant of an enum.
pub struct VariantFacts {
    pub def: ModuleFacts,
    pub name: String,
    /// The names of its fields.
    pub fields: Vec<String>,
}

/// What a data type is made of.
pub enum AdtFacts {
    Fields(Vec<FieldFacts>),
    Variants(Vec<VariantFacts>),
}

/// An item of a trait or an impl.
pub enum AssocFacts {
    Function(FunctionFacts),
    /// A constant or a type.
    Other(ModuleFacts),
}

/// The trait of an impl.
pub struct TraitFacts {
    pub def: ModuleFacts,
    pub name: String,
    /// Its first type argument.
    pub argument: Option<TyFacts>,
}

/// An impl.
pub struct ImplFacts {
    pub loc: Option<SourceLoc>,
    pub self_ty: Option<TyFacts>,
    pub trait_ref: Option<TraitFacts>,
    pub items: Vec<AssocFacts>,
}

/// A module and what it holds.
pub struct ModuleTree {
    pub def: ModuleFacts,
    /// It is a module of tests, or stands in one.
    pub is_test: bool,
    pub items: Vec<ModuleItem>,
    pub impls: Vec<ImplFacts>,
}

/// An item of a module.
pub enum ModuleItem {
    Module(ModuleTree),
    Function(FunctionFacts),
    Adt { def: ModuleFacts, parts: AdtFacts },
    Trait { def: ModuleFacts, items: Vec<AssocFacts> },
    Other(ModuleFacts),
}

/// The files that a data type's facts speak of can be indexed.
pub open spec fn adt_indexable(parts: AdtFacts) -> bool {
    match parts {
        AdtFacts::Fields(fields) => forall|i: int|
            0 <= i < fields@.len() ==> loc_indexable((#[trigger] fields@[i]).loc),
        AdtFacts::Variants(variants) => forall|i: int|
            0 <= i < variants@.len() ==> loc_indexable((#[trigger] variants@[i]).def.loc),
    }
}

/// The files that an item's facts speak of can be indexed.
pub open spec fn assoc_indexable(item: AssocFacts) -> bool {
    match item {
        AssocFacts::Function(facts) => fn_indexable(facts),
        AssocFacts::Other(facts) => loc_indexable(facts.loc),
    }
}

/// The files that the items' facts speak of can be indexed.
pub open spec fn assocs_indexable(items: Seq<AssocFacts>) -> bool {
    forall|i: int| 0 <= i < items.len() ==> assoc_indexable(#[trigger] items[i])
}

/// A type's files can be indexed, if there is a type.
pub open spec fn opt_ty_indexable(ty: Option<TyFacts>) -> bool {
    match ty {
        Some(ty) => ty_indexable(ty),
        None => true,
    }
}

/// The files that an impl's facts speak of can be indexed.
pub open spec fn impl_indexable(facts: ImplFacts) -> bool {
    &&& loc_indexable(facts.loc)
    &&& opt_ty_indexable(facts.self_ty)
    &&& match facts.trait_ref {
        Some(trait_ref) => loc_indexable(trait_ref.def.loc) && opt_ty_indexable(
            trait_ref.argument,
        ),
        None => true,
    }
    &&& assocs_indexable(facts.items@)
}

/// The files that a module's facts speak of can be indexed.
pub open spec fn tree_indexable(tree: ModuleTree) -> bool
    decreases tree,
{
    &&& loc_indexable(tree.def.loc)
    &&& forall|i: int| 0 <= i < tree.items@.len() ==> item_indexable(#[trigger] tree.items@[i])
    &&& forall|i: int| 0 <= i < tree.impls@.len() ==> impl_indexable(#[trigger] tree.impls@[i])
}

/// The files that an item's facts speak of can be indexed.
pub open spec fn item_indexable(item: ModuleItem) -> bool
    decreases item,
{
    match item {
        ModuleItem::Module(tree) => tree_indexable(tree),
        ModuleItem::Function(facts) => fn_indexable(facts),
        ModuleItem::Adt { def, parts } => loc_indexable(def.loc) && adt_indexable(parts),
        ModuleItem::Trait { def, items } => loc_indexable(def.loc) && assocs_indexable(items@),
        ModuleItem::Other(facts) => loc_indexable(facts.loc),
    }
}

/// The path of a definition that owns others.
pub open spec fn owner_path(snapshot: Snapshot, owner: u64) -> Seq<char> {
    if snapshot.paths.contains_key(owner) {
        snapshot.paths[owner]
    } else {
        "crate::<adt>"@
    }
}

/// The id of a field.
pub open spec fn field_id(path: Seq<char>, loc: SourceLoc) -> u64 {
    derived_id(
        "def"@,
        "field:"@ + path + ":"@ + place_text(loc.rel_path@, loc.start, loc.end),
    )
}

/// The snapshot with a field row for a type of which nothing is known.
pub open spec fn with_untyped_field(
    snapshot: Snapshot,
    owner: u64,
    name: Seq<char>,
    key: Seq<char>,
) -> Snapshot {
    let (typed, ty) = with_unknown_type(snapshot, key);
    Snapshot {
        host: HostView {
            fields: with_row(typed.host.fields, FieldView { owner, name, ty }),
            ..typed.host
        },
        ..typed
    }
}

/// The snapshot once a field has been told.
pub open spec fn with_field(
    snapshot: Snapshot,
    field: FieldFacts,
    owner: u64,
    path: Seq<char>,
    in_test: bool,
) -> Snapshot {
    match field.loc {
        Some(loc) => if !loc_valid(loc) {
            snapshot
        } else {
            let placed = with_loc(snapshot, loc);
            let field_path = path + "::"@ + field.name@;
            let def = field_id(field_path, loc);
            let named = Snapshot {
                host: HostView {
                    defs: placed.host.defs.insert(
                        def,
                        DefRecordView {
                            name: field.name@,
                            kind: DefKind::Field,
                            span: loc_span(loc),
                            path: field_path,
                        },
                    ),
                    ..placed.host
                },
                names: with_row(placed.names, NameView { name: field.name@, def }),
                paths: placed.paths.insert(def, field_path),
                ..placed
            };
            let told = with_untyped_field(
                named,
                owner,
                field.name@,
                "field_ty:"@ + path + ":"@ + field.name@,
            );
            Snapshot {
                host: HostView {
                    public: told.host.public.insert(def, field.is_public),
                    in_test: told.host.in_test.insert(def, in_test),
                    ..told.host
                },
                ..told
            }
        },
        None => snapshot,
    }
}

/// The snapshot once the first `count` fields have been told.
pub open spec fn with_fields(
    snapshot: Snapshot,
    fields: Seq<FieldFacts>,
    owner: u64,
    path: Seq<char>,
    in_test: bool,
    count: nat,
) -> Snapshot
    decreases count,
{
    if count == 0 {
        snapshot
    } else {
        with_field(
            with_fields(snapshot, fields, owner, path, in_test, (count - 1) as nat),
            fields[count - 1],
            owner,
            path,
            in_test,
        )
    }
}

/// The snapshot once the first `count` fields of a variant have been told.
pub open spec fn with_variant_fields(
    snapshot: Snapshot,
    fields: Seq<String>,
    variant: u64,
    name: Seq<char>,
    count: nat,
) -> Snapshot
    decreases count,
{
    if count == 0 {
        snapshot
    } else {
        with_untyped_field(
            with_variant_fields(snapshot, fields, variant, name, (count - 1) as nat),
            variant,
            fields[count - 1]@,
            "variant_field_ty:"@ + name + ":"@ + fields[count - 1]@,
        )
    }
}

/// The snapshot once a variant has been told.
pub open spec fn with_variant(
    snapshot: Snapshot,
    variant: VariantFacts,
    owner: u64,
    in_test: bool,
) -> Snapshot {
    let (known, def) = registered(snapshot, variant.def, in_test);
    match def {
        Some(def) => with_variant_fields(
            Snapshot {
                host: HostView {
                    variants: with_row(
                        known.host.variants,
                        VariantView { owner, name: variant.name@, variant: def },
                    ),
                    ..known.host
                },
                ..known
            },
            variant.fields@,
            def,
            variant.name@,
            variant.fields@.len(),
        ),
        None => known,
    }
}

/// The snapshot once the first `count` variants have been told.
pub open spec fn with_variants(
    snapshot: Snapshot,
    variants: Seq<VariantFacts>,
    owner: u64,
    in_test: bool,
    count: nat,
) -> Snapshot
    decreases count,
{
    if count == 0 {
        snapshot
    } else {
        with_variant(
            with_variants(snapshot, variants, owner, in_test, (count - 1) as nat),
            variants[count - 1],
            owner,
            in_test,
        )
    }
}

/// The snapshot once the parts of a data type have been told.
pub open spec fn with_adt(
    snapshot: Snapshot,
    parts: AdtFacts,
    owner: u64,
    in_test: bool,
) -> Snapshot {
    match parts {
        AdtFacts::Fields(fields) => with_fields(
            snapshot,
            fields@,
            owner,
            owner_path(snapshot, owner),
            in_test,
            fields@.len(),
        ),
        AdtFacts::Variants(variants) => with_variants(
            snapshot,
            variants@,
            owner,
            in_test,
            variants@.len(),
        ),
    }
}

/// The path of an impl.
pub open spec fn impl_path(loc: SourceLoc) -> Seq<char> {
    "crate::impl@"@ + range_text(loc.start, loc.end)
}

/// The id of an impl.
pub open spec fn impl_id(loc: SourceLoc) -> u64 {
    derived_id(
        "def"@,
        "impl:"@ + impl_path(loc) + ":"@ + place_text(loc.rel_path@, loc.start, loc.end),
    )
}

/// The snapshot once an impl itself has been told.
pub open spec fn with_impl_record(snapshot: Snapshot, loc: SourceLoc, in_test: bool) -> Snapshot {
    let placed = with_loc(snapshot, loc);
    let def = impl_id(loc);
    Snapshot {
        host: HostView {
            defs: placed.host.defs.insert(
                def,
                DefRecordView {
                    name: "impl"@,
                    kind: DefKind::Impl,
                    span: loc_span(loc),
                    path: impl_path(loc),
                },
            ),
            in_test: placed.host.in_test.insert(def, in_test),
            ..placed.host
        },
        paths: placed.paths.insert(def, impl_path(loc)),
        ..placed
    }
}

/// The snapshot once the type of an impl has been told, and its definition.
pub open spec fn with_self_type(snapshot: Snapshot, self_ty: Option<TyFacts>, record: u64) -> (
    Snapshot,
    Option<u64>,
) {
    match self_ty {
        Some(ty) => {
            let (told, def) = type_head(snapshot, ty, Some(record));
            (told, Some(def))
        },
        None => (snapshot, None),
    }
}

/// The snapshot once the trait of an impl has been told.
pub open spec fn with_trait(
    snapshot: Snapshot,
    trait_ref: TraitFacts,
    owner: u64,
    record: u64,
    in_test: bool,
) -> Snapshot {
    let (known, trait_def) = registered(snapshot, trait_ref.def, in_test);
    match trait_def {
        Some(trait_def) => {
            let (sourced, source) = if trait_ref.name@ == "From"@ {
                with_self_type(known, trait_ref.argument, record)
            } else {
                (known, None)
            };
            let told = Snapshot {
                host: HostView {
                    implements: with_row(
                        sourced.host.implements,
                        ImplementsView { owner, trait_def, impl_def: record },
                    ),
                    ..sourced.host
                },
                ..sourced
            };
            match source {
                Some(source) => Snapshot {
                    host: HostView {
                        from_impls: with_row(
                            told.host.from_impls,
                            FromImplView { source, target: owner, impl_def: record },
                        ),
                        ..told.host
                    },
                    ..told
                },
                None => told,
            }
        },
        None => known,
    }
}

/// The snapshot once an item of a trait or an impl has been told.
pub open spec fn with_assoc(
    snapshot: Snapshot,
    item: AssocFacts,
    owner: Option<u64>,
    of_trait: bool,
    in_test: bool,
) -> Snapshot {
    match item {
        AssocFacts::Function(facts) => {
            let (known, def) = registered(snapshot, facts.def, in_test);
            match def {
                Some(def) => {
                    let typed = with_fn_types(known, facts, def);
                    match owner {
                        Some(owner) => Snapshot {
                            host: if of_trait {
                                HostView {
                                    trait_methods: with_row(
                                        typed.host.trait_methods,
                                        MethodView { owner, method: def },
                                    ),
                                    ..typed.host
                                }
                            } else {
                                HostView {
                                    methods: with_row(
                                        typed.host.methods,
                                        MethodView { owner, method: def },
                                    ),
                                    ..typed.host
                                }
                            },
                            ..typed
                        },
                        None => typed,
                    }
                },
                None => known,
            }
        },
        AssocFacts::Other(facts) => registered(snapshot, facts, in_test).0,
    }
}

/// The snapshot once the first `count` items have been told.
pub open spec fn with_assocs(
    snapshot: Snapshot,
    items: Seq<AssocFacts>,
    owner: Option<u64>,
    of_trait: bool,
    in_test: bool,
    count: nat,
) -> Snapshot
    decreases count,
{
    if count == 0 {
        snapshot
    } else {
        with_assoc(
            with_assocs(snapshot, items, owner, of_trait, in_test, (count - 1) as nat),
            items[count - 1],
            owner,
            of_trait,
            in_test,
        )
    }
}

/// The snapshot once an impl has been told. One that stands nowhere in the
/// snapshot's files is left out.
pub open spec fn with_impl(snapshot: Snapshot, facts: ImplFacts, in_test: bool) -> Snapshot {
    match facts.loc {
        Some(loc) => if !loc_valid(loc) {
            snapshot
        } else {
            let record = impl_id(loc);
            let (owned, owner) = with_self_type(
                with_impl_record(snapshot, loc, in_test),
                facts.self_ty,
                record,
            );
            let implemented = match (owner, facts.trait_ref) {
                (Some(owner), Some(trait_ref)) => with_trait(
                    owned,
                    trait_ref,
                    owner,
                    record,
                    in_test,
                ),
                _ => owned,
            };
            with_assocs(implemented, facts.items@, owner, false, in_test, facts.items@.len())
        },
        None => snapshot,
    }
}

/// The snapshot once the first `count` impls have been told.
pub open spec fn with_impls(
    snapshot: Snapshot,
    impls: Seq<ImplFacts>,
    in_test: bool,
    count: nat,
) -> Snapshot
    decreases count,
{
    if count == 0 {
        snapshot
    } else {
        with_impl(
            with_impls(snapshot, impls, in_test, (count - 1) as nat),
            impls[count - 1],
            in_test,
        )
    }
}

/// The definition of an item.
pub open spec fn item_def(item: ModuleItem) -> ModuleFacts {
    match item {
        ModuleItem::Module(tree) => tree.def,
        ModuleItem::Function(facts) => facts.def,
        ModuleItem::Adt { def, .. } => def,
        ModuleItem::Trait { def, .. } => def,
        ModuleItem::Other(facts) => facts,
    }
}

/// The snapshot once an item of a module has been told.
pub open spec fn with_module_item(snapshot: Snapshot, item: ModuleItem, in_test: bool) -> Snapshot
    decreases item,
{
    let (known, def) = registered(snapshot, item_def(item), in_test);
    match def {
        Some(def) => match item {
            ModuleItem::Module(tree) => with_module(known, tree, in_test),
            ModuleItem::Function(facts) => with_fn_types(known, facts, def),
            ModuleItem::Adt { parts, .. } => with_adt(known, parts, def, in_test),
            ModuleItem::Trait { items, .. } => with_assocs(
                known,
                items@,
                Some(def),
                true,
                in_test,
                items@.len(),
            ),
            ModuleItem::Other(_) => known,
        },
        None => known,
    }
}

/// The snapshot once the first `count` items of a module have been told.
pub open spec fn with_module_items(
    snapshot: Snapshot,
    items: Vec<ModuleItem>,
    in_test: bool,
    count: nat,
) -> Snapshot
    decreases items, count,
{
    if count == 0 || count > items@.len() {
        snapshot
    } else {
        with_module_item(
            with_module_items(snapshot, items, in_test, (count - 1) as nat),
            items[count - 1],
            in_test,
        )
    }
}

/// The snapshot once a module and what it holds have been told.
pub open spec fn with_module(snapshot: Snapshot, tree: ModuleTree, inherited_test: bool) -> Snapshot
    decreases tree,
{
    let in_test = inherited_test || tree.is_test;
    let (known, _) = registered(snapshot, tree.def, in_test);
    with_impls(
        with_module_items(known, tree.items, in_test, tree.items@.len()),
        tree.impls@,
        in_test,
        tree.impls@.len(),
    )
}

impl SnapshotBuilder {
    /// The path of a definition that owns others.
    fn owner_path_text(&self, owner: DefId) -> (r: String)
        requires
            self.wf(),
        ensures
            r@ == owner_path(self@, owner@),
    {
        proof {
            self.lemma_parts();
        }
        match self.paths.get(owner.stable_id().as_u64()) {
            Some(path) => owned(path.as_str()),
            None => owned("crate::<adt>"),
        }
    }

    /// Tells a field row for a type of which nothing is known.
    fn insert_untyped_field(&mut self, owner: DefId, name: &str, key: &str)
        requires
            old(self).wf(),
        ensures
            final(self).wf(),
            final(self)@ == with_untyped_field(old(self)@, owner@, name@, key@),
    {
        let ty = self.unknown_type_ref(key);
        proof {
            self.lemma_parts();
        }
        self.host.insert_field(owner, name, ty);
        proof {
            self.lemma_parts();
        }
    }

    /// Tells a field.
    fn process_field(&mut self, field: &FieldFacts, owner: DefId, path: &str, in_test: bool)
        requires
            old(self).wf(),
            loc_indexable(field.loc),
        ensures
            final(self).wf(),
            final(self)@ == with_field(old(self)@, *field, owner@, path@, in_test),
    {
        let loc = match &field.loc {
            Some(loc) => loc,
            None => {
                return;
            },
        };
        let span = match self.intern_loc(loc) {
            Some(span) => span,
            None => {
                return;
            },
        };
        proof {
            self.lemma_parts();
        }
        let name = field.name.as_str();
        let field_path = cat3(path, "::", name);
        let mut token = cat2("field:", field_path.as_str());
        token.append(":");
        token.append(place_to_text(loc.rel_path.as_str(), loc.start, loc.end).as_str());
        let def = self.host.intern_def_from_token(token.as_str());
        self.host.insert_def(def, name, DefKind::Field, span, field_path.as_str());
        self.names.insert(NameRow { name: owned(name), def });
        self.paths.insert(def.stable_id().as_u64(), field_path);
        proof {
            self.lemma_parts();
        }
        let mut key = cat2("field_ty:", path);
        key.append(":");
        key.append(name);
        self.insert_untyped_field(owner, name, key.as_str());
        proof {
            self.lemma_parts();
        }
        self.host.mark_public(def, field.is_public);
        self.host.mark_in_test(def, in_test);
        proof {
            self.lemma_parts();
        }
    }

    /// Tells a variant.
    fn process_variant(&mut self, variant: &VariantFacts, owner: DefId, in_test: bool)
        requires
            old(self).wf(),
            loc_indexable(variant.def.loc),
        ensures
            final(self).wf(),
            final(self)@ == with_variant(old(self)@, *variant, owner@, in_test),
    {
        let def = match self.register_module_def(&variant.def, in_test) {
            Some(def) => def,
            None => {
                return;
            },
        };
        proof {
            self.lemma_parts();
        }
        let name = variant.name.as_str();
        self.host.insert_variant(owner, name, def);
        proof {
            self.lemma_parts();
        }
        let ghost start = self@;
        let mut i: usize = 0;
        while i < variant.fields.len()
            invariant
                self.wf(),
                i <= variant.fields@.len(),
                name@ == variant.name@,
                self@ == with_variant_fields(start, variant.fields@, def@, variant.name@, i as nat),
            decreases variant.fields.len() - i,
        {
            let field = variant.fields[i].as_str();
            let mut key = cat2("variant_field_ty:", name);
            key.append(":");
            key.append(field);
            self.insert_untyped_field(def, field, key.as_str());
            i += 1;
        }
    }

    /// Tells the parts of a data type.
    pub fn process_adt(&mut self, parts: &AdtFacts, owner: DefId, in_test: bool)
        requires
            old(self).wf(),
            adt_indexable(*parts),
        ensures
            final(self).wf(),
            final(self)@ == with_adt(old(self)@, *parts, owner@, in_test),
    {
        let ghost start = self@;
        match parts {
            AdtFacts::Fields(fields) => {
                let path = self.owner_path_text(owner);
                let mut i: usize = 0;
                while i < fields.len()
                    invariant
                        self.wf(),
                        i <= fields@.len(),
                        forall|k: int|
                            0 <= k < fields@.len() ==> loc_indexable((#[trigger] fields@[k]).loc),
                        self@ == with_fields(start, fields@, owner@, path@, in_test, i as nat),
                    decreases fields.len() - i,
                {
                    assert(loc_indexable(fields@[i as int].loc));
                    self.process_field(&fields[i], owner, path.as_str(), in_test);
                    i += 1;
                }
            },
            AdtFacts::Variants(variants) => {
                let mut i: usize = 0;
                while i < variants.len()
                    invariant
                        self.wf(),
                        i <= variants@.len(),
                        forall|k: int|
                            0 <= k < variants@.len() ==> loc_indexable(
                                (#[trigger] variants@[k]).def.loc,
                            ),
                        self@ == with_variants(start, variants@, owner@, in_test, i as nat),
                    decreases variants.len() - i,
                {
                    assert(loc_indexable(variants@[i as int].def.loc));
                    self.process_variant(&variants[i], owner, in_test);
                    i += 1;
                }
            },
        }
    }

    /// Tells the type of an impl.
    fn intern_self_type(&mut self, self_ty: &Option<TyFacts>, record: DefId) -> (r: Option<DefId>)
        requires
            old(self).wf(),
            opt_ty_indexable(*self_ty),
        ensures
            final(self).wf(),
            (final(self)@, opt_def(r)) == with_self_type(old(self)@, *self_ty, record@),
    {
        match self_ty {
            Some(ty) => {
                let def = self.def_from_type_head(ty, Some(record));
                Some(def)
            },
            None => None,
        }
    }

    /// Tells the trait of an impl.
    fn process_trait_ref(
        &mut self,
        trait_ref: &TraitFacts,
        owner: DefId,
        record: DefId,
        in_test: bool,
    )
        requires
            old(self).wf(),
            loc_indexable(trait_ref.def.loc),
            opt_ty_indexable(trait_ref.argument),
        ensures
            final(self).wf(),
            final(self)@ == with_trait(old(self)@, *trait_ref, owner@, record@, in_test),
    {
        let trait_def = match self.register_module_def(&trait_ref.def, in_test) {
            Some(def) => def,
            None => {
                return;
            },
        };
        let source = if str_eq(trait_ref.name.as_str(), "From") {
            self.intern_self_type(&trait_ref.argument, record)
        } else {
            None
        };
        proof {
            self.lemma_parts();
        }
        self.host.insert_implements(owner, trait_def, record);
        match source {
            Some(source) => {
                self.host.insert_from_impl(source, owner, record);
            },
            None => {},
        }
        proof {
            self.lemma_parts();
        }
    }

    /// Tells an item of a trait or an impl.
    fn process_assoc(
        &mut self,
        item: &AssocFacts,
        owner: Option<DefId>,
        of_trait: bool,
        in_test: bool,
    )
        requires
            old(self).wf(),
            assoc_indexable(*item),
        ensures
            final(self).wf(),
            final(self)@ == with_assoc(old(self)@, *item, opt_def(owner), of_trait, in_test),
    {
        match item {
            AssocFacts::Function(facts) => {
                let def = match self.register_module_def(&facts.def, in_test) {
                    Some(def) => def,
                    None => {
                        return;
                    },
                };
                self.process_function(facts, def);
                proof {
                    self.lemma_parts();
                }
                match owner {
                    Some(owner) => {
                        if of_trait {
                            self.host.insert_trait_method(owner, def);
                        } else {
                            self.host.insert_method(owner, def);
                        }
                        proof {
                            self.lemma_parts();
                        }
                    },
                    None => {},
                }
            },
            AssocFacts::Other(facts) => {
                let _ = self.register_module_def(facts, in_test);
            },
        }
    }

    /// Tells the items of a trait or an impl.
    fn process_assocs(
        &mut self,
        items: &Vec<AssocFacts>,
        owner: Option<DefId>,
        of_trait: bool,
        in_test: bool,
    )
        requires
            old(self).wf(),
            assocs_indexable(items@),
        ensures
            final(self).wf(),
            final(self)@ == with_assocs(
                old(self)@,
                items@,
                opt_def(owner),
                of_trait,
                in_test,
                items@.len(),
            ),
    {
        let ghost start = self@;
        let mut i: usize = 0;
        while i < items.len()
            invariant
                self.wf(),
                start == old(self)@,
                assocs_indexable(items@),
                i <= items@.len(),
                self@ == with_assocs(start, items@, opt_def(owner), of_trait, in_test, i as nat),
            decreases items.len() - i,
        {
            assert(assoc_indexable(items@[i as int]));
            self.process_assoc(&items[i], owner, of_trait, in_test);
            i += 1;
        }
    }

    /// Tells an impl.
    pub fn process_impl(&mut self, facts: &ImplFacts, in_test: bool)
        requires
            old(self).wf(),
            impl_indexable(*facts),
        ensures
            final(self).wf(),
            final(self)@ == with_impl(old(self)@, *facts, in_test),
    {
        let loc = match &facts.loc {
            Some(loc) => loc,
            None => {
                return;
            },
        };
        let span = match self.intern_loc(loc) {
            Some(span) => span,
            None => {
                return;
            },
        };
        proof {
            self.lemma_parts();
        }
        let path = cat2("crate::impl@", range_to_text(loc.start, loc.end).as_str());
        let mut token = cat2("impl:", path.as_str());
        token.append(":");
        token.append(place_to_text(loc.rel_path.as_str(), loc.start, loc.end).as_str());
        let record = self.host.intern_def_from_token(token.as_str());
        self.host.insert_def(record, "impl", DefKind::Impl, span, path.as_str());
        self.paths.insert(record.stable_id().as_u64(), path);
        self.host.mark_in_test(record, in_test);
        proof {
            self.lemma_parts();
        }
        let owner = self.intern_self_type(&facts.self_ty, record);
        match (owner, &facts.trait_ref) {
            (Some(owner), Some(trait_ref)) => {
                self.process_trait_ref(trait_ref, owner, record, in_test);
            },
            _ => {},
        }
        self.process_assocs(&facts.items, owner, false, in_test);
    }

    /// Tells an item of a module.
    fn visit_item(&mut self, item: &ModuleItem, in_test: bool)
        requires
            old(self).wf(),
            item_indexable(*item),
        ensures
            final(self).wf(),
            final(self)@ == with_module_item(old(self)@, *item, in_test),
        decreases item,
    {
        let facts = match item {
            ModuleItem::Module(tree) => &tree.def,
            ModuleItem::Function(facts) => &facts.def,
            ModuleItem::Adt { def, .. } => def,
            ModuleItem::Trait { def, .. } => def,
            ModuleItem::Other(facts) => facts,
        };
        let def = match self.register_module_def(facts, in_test) {
            Some(def) => def,
            None => {
                return;
            },
        };
        match item {
            ModuleItem::Module(tree) => {
                self.visit_module(tree, in_test);
            },
            ModuleItem::Function(facts) => {
                self.process_function(facts, def);
            },
            ModuleItem::Adt { parts, .. } => {
                self.process_adt(parts, def, in_test);
            },
            ModuleItem::Trait { items, .. } => {
                self.process_assocs(items, Some(def), true, in_test);
            },
            ModuleItem::Other(_) => {},
        }
    }

    /// Tells a module and what it holds.
    pub fn visit_module(&mut self, tree: &ModuleTree, inherited_test: bool)
        requires
            old(self).wf(),
            tree_indexable(*tree),
        ensures
            final(self).wf(),
            final(self)@ == with_module(old(self)@, *tree, inherited_test),
        decreases tree,
    {
        let in_test = inherited_test || tree.is_test;
        let _ = self.register_module_def(&tree.def, in_test);
        let ghost start = self@;
        let mut i: usize = 0;
        while i < tree.items.len()
            invariant
                self.wf(),
                tree_indexable(*tree),
                i <= tree.items@.len(),
                self@ == with_module_items(start, tree.items, in_test, i as nat),
            decreases tree.items.len() - i,
        {
            proof {
                assert(item_indexable(tree.items@[i as int]));
                assert(decreases_to!(*tree => tree.items));
                assert(decreases_to!(tree.items => tree.items[i as int]));
            }
            self.visit_item(&tree.items[i], in_test);
            i += 1;
        }
        let ghost middle = self@;
        let mut j: usize = 0;
        while j < tree.impls.len()
            invariant
                self.wf(),
                tree_indexable(*tree),
                j <= tree.impls@.len(),
                self@ == with_impls(middle, tree.impls@, in_test, j as nat),
            decreases tree.impls.len() - j,
        {
            assert(impl_indexable(tree.impls@[j as int]));
            self.process_impl(&tree.impls[j], in_test);
            j += 1;
        }
    }
}

} // verus!
