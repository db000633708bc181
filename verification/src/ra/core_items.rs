//! Building the index of a workspace: data types, impls, functions and calls.

use crate::host::{derived_id, deterministic_stable_id, CallId, DefId, ImplId};
use crate::ir::stable_id_text;
use crate::ra::call_lookup::{method_dispatch_kind, method_dispatch_of};
use crate::ra::core_build::{
    adt_registered, core_id, core_indexable, core_path, core_path_of, core_registered,
    core_token_of, lowered_id, lowered_indexable, opt_row, param_registered, row_in,
    with_core_def, with_host_def, with_in_test, with_lowered, with_public, Core, CoreDefFacts,
    CoreFactsBuilder, CoreHostBuildSpec, LoweredTy,
};
use crate::ra::core_index::{CoreDefView, CoreLookupIndex, CoreView};
use crate::ra::host::{opt_def, HostView};
use crate::ra::kinds::{DefKind, DispatchKind};
use crate::ra::lookup_store::{synthetic_path, CallableFacts, LocalFile};
use crate::ra::rows::{
    CallEdgeView, FieldView, FromImplView, ImplementsView, MethodView, VariantView,
};
use crate::ra::seed_types::{fallback_def_span, nowhere_span};
use crate::ra::snapshot_types::SourceLoc;
use crate::ra::source::{
    indexable, key_in_text, lookup_span_key_from_text, place_text, place_to_text, span_id_of,
    span_of_place,
};
use crate::ra::store::with_row;
use crate::ra::syntax::{tree_view, SyntaxRow, SyntaxView};
use crate::search::{
    contains_text, ends_with, has_prefix, has_suffix, occurs, starts_with,
};
use crate::text::{cat2, decimal, decimal_of_size, owned, str_eq};
use vstd::prelude::*;

verus! {

/// A field of a struct or union.
pub struct CoreField {
    pub name: Option<String>,
    pub ty: LoweredTy,
    /// The row of its type as it is written.
    pub source: Option<usize>,
}

/// A variant of an enum.
pub struct CoreVariant {
    pub def: CoreDefFacts,
    pub name: String,
}

/// What a data type is made of.
pub enum CoreAdt {
    Record(Vec<CoreField>),
    Tuple(Vec<CoreField>),
    Variants(Vec<CoreVariant>),
    Unit,
}

/// A function.
pub struct CoreFn {
    pub def: CoreDefFacts,
    /// What it gives, or what its future gives.
    pub ret: LoweredTy,
    /// The row of its return type as it is written.
    pub source: Option<usize>,
}

/// An impl.
pub struct CoreImpl {
    pub loc: Option<SourceLoc>,
    /// The data type it is for.
    pub self_adt: Option<CoreDefFacts>,
    pub trait_def: Option<CoreDefFacts>,
    /// The data type that is the trait's first argument.
    pub argument: Option<CoreDefFacts>,
    pub methods: Vec<CoreFn>,
}

/// The fields' facts can be used with the tree.
pub open spec fn fields_fit(fields: Seq<CoreField>, tree: Seq<SyntaxRow>) -> bool {
    forall|i: int|
        0 <= i < fields.len() ==> lowered_indexable((#[trigger] fields[i]).ty) && row_in(
            fields[i].source,
            tree,
        )
}

/// The data type's facts can be used with the tree.
pub open spec fn adt_fits(adt: CoreAdt, tree: Seq<SyntaxRow>) -> bool {
    match adt {
        CoreAdt::Record(fields) => fields_fit(fields@, tree),
        CoreAdt::Tuple(fields) => fields_fit(fields@, tree),
        CoreAdt::Variants(variants) => forall|i: int|
            0 <= i < variants@.len() ==> core_indexable((#[trigger] variants@[i]).def),
        CoreAdt::Unit => true,
    }
}

/// The function's facts can be used with the tree.
pub open spec fn fn_fits(function: CoreFn, tree: Seq<SyntaxRow>) -> bool {
    core_indexable(function.def) && lowered_indexable(function.ret) && row_in(
        function.source,
        tree,
    )
}

/// The file of a definition can be indexed, if there is a definition.
pub open spec fn opt_core_indexable(facts: Option<CoreDefFacts>) -> bool {
    match facts {
        Some(facts) => core_indexable(facts),
        None => true,
    }
}

/// The impl's facts can be used with the tree.
pub open spec fn impl_fits(facts: CoreImpl, tree: Seq<SyntaxRow>) -> bool {
    &&& match facts.loc {
        Some(loc) => indexable(loc.text@),
        None => true,
    }
    &&& opt_core_indexable(facts.self_adt)
    &&& opt_core_indexable(facts.trait_def)
    &&& opt_core_indexable(facts.argument)
    &&& forall|i: int| 0 <= i < facts.methods@.len() ==> fn_fits(#[trigger] facts.methods@[i], tree)
}

/// The key of a field's type.
pub open spec fn field_key(core: Core, owner: u64, name: Seq<char>) -> Seq<char> {
    let path = if core.paths.contains_key(owner) {
        core.paths[owner]
    } else {
        "unknown_owner"@
    };
    "field:"@ + path + ":"@ + name
}

/// The index once a field has been told.
pub open spec fn with_core_field(
    core: Core,
    field: CoreField,
    owner: u64,
    name: Seq<char>,
    tree: Seq<SyntaxView>,
) -> Core {
    let key = field_key(core, owner, name);
    let told = with_lowered(core, key, field.ty, tree, opt_row(field.source));
    Core {
        host: HostView {
            fields: with_row(told.host.fields, FieldView { owner, name, ty: lowered_id(key) }),
            ..told.host
        },
        ..told
    }
}

/// The index once the first `count` fields of a record have been told; those
/// without a name are left out.
pub open spec fn with_record(
    core: Core,
    fields: Seq<CoreField>,
    owner: u64,
    tree: Seq<SyntaxView>,
    count: nat,
) -> Core
    decreases count,
{
    if count == 0 {
        core
    } else {
        let told = with_record(core, fields, owner, tree, (count - 1) as nat);
        match fields[count - 1].name {
            Some(name) => with_core_field(told, fields[count - 1], owner, name@, tree),
            None => told,
        }
    }
}

/// The index once the first `count` fields of a tuple have been told, by number.
pub open spec fn with_tuple(
    core: Core,
    fields: Seq<CoreField>,
    owner: u64,
    tree: Seq<SyntaxView>,
    count: nat,
) -> Core
    decreases count,
{
    if count == 0 {
        core
    } else {
        with_core_field(
            with_tuple(core, fields, owner, tree, (count - 1) as nat),
            fields[count - 1],
            owner,
            decimal((count - 1) as nat),
            tree,
        )
    }
}

/// The index once the first `count` variants have been told.
pub open spec fn with_core_variants(
    core: Core,
    variants: Seq<CoreVariant>,
    owner: u64,
    count: nat,
) -> Core
    decreases count,
{
    if count == 0 {
        core
    } else {
        let told = with_core_variants(core, variants, owner, (count - 1) as nat);
        let variant = variants[count - 1];
        let (known, def) = core_registered(told, variant.def, false);
        match def {
            Some(def) => Core {
                host: HostView {
                    variants: with_row(
                        known.host.variants,
                        VariantView { owner, name: variant.name@, variant: def },
                    ),
                    ..known.host
                },
                ..known
            },
            None => known,
        }
    }
}

/// The index once the parts of a data type have been told, where they are asked
/// for.
pub open spec fn with_core_adt(core: Core, adt: CoreAdt, owner: u64, tree: Seq<SyntaxView>) -> Core {
    if !core.asked.adt_structure {
        core
    } else {
        match adt {
            CoreAdt::Record(fields) => with_record(core, fields@, owner, tree, fields@.len()),
            CoreAdt::Tuple(fields) => with_tuple(core, fields@, owner, tree, fields@.len()),
            CoreAdt::Variants(variants) => with_core_variants(
                core,
                variants@,
                owner,
                variants@.len(),
            ),
            CoreAdt::Unit => core,
        }
    }
}

/// The path is that of the result type.
pub open spec fn names_result(path: Seq<char>) -> bool {
    path == "std::result::Result"@ || path == "core::result::Result"@ || path
        == "result::Result"@ || has_suffix(path, "::Result"@)
}

/// The index once the error type of what a function gives is told, and its
/// definition.
pub open spec fn with_result_error(core: Core, ty: LoweredTy) -> (Core, Option<u64>) {
    match ty {
        LoweredTy::Adt { def, args } => match def.canonical {
            Some(path) => if names_result(path@) && args@.len() > 1 {
                match args@[1] {
                    LoweredTy::Adt { def: error, .. } => {
                        let (told, id) = adt_registered(core, error);
                        (told, Some(id))
                    },
                    LoweredTy::Param(name) => {
                        let (told, id) = param_registered(core, name@, "fn_error"@);
                        (told, Some(id))
                    },
                    _ => (core, None),
                }
            } else {
                (core, None)
            },
            None => (core, None),
        },
        _ => (core, None),
    }
}

/// The key of a function's return type.
pub open spec fn return_key(core: Core, def: u64) -> Seq<char> {
    "fn_return:"@ + if core.paths.contains_key(def) {
        core.paths[def]
    } else {
        "fn:"@ + stable_id_text(def)
    }
}

/// The index once the types of a function have been told.
pub open spec fn with_core_fn(core: Core, function: CoreFn, def: u64, tree: Seq<SyntaxView>) -> Core {
    let key = return_key(core, def);
    let lowered = with_lowered(core, key, function.ret, tree, opt_row(function.source));
    let (told, error) = with_result_error(lowered, function.ret);
    Core {
        host: HostView {
            fn_returns: told.host.fn_returns.insert(def, Some(lowered_id(key))),
            fn_errors: told.host.fn_errors.insert(def, error),
            ..told.host
        },
        ..told
    }
}

/// The path of an impl.
pub open spec fn core_impl_path(loc: SourceLoc) -> Seq<char> {
    "impl::"@ + place_text(loc.rel_path@, loc.start, loc.end)
}

/// The id of an impl.
pub open spec fn core_impl_id(loc: SourceLoc) -> u64 {
    derived_id("def"@, "def:Impl:"@ + place_text(loc.rel_path@, loc.start, loc.end))
}

/// The file is one of tests.
pub open spec fn is_test_path(rel_path: Seq<char>) -> bool {
    has_prefix(rel_path, "tests/"@) || occurs(rel_path, "/tests/"@)
}

/// The index once an impl itself has been told, and its id.
pub open spec fn with_core_impl_record(core: Core, loc: Option<SourceLoc>) -> (Core, Option<u64>) {
    match loc {
        Some(loc) => match key_in_text(loc.rel_path@, loc.text@, loc.start, loc.end) {
            Some(key) => {
                let def = core_impl_id(loc);
                let span = span_id_of(loc.file_id, loc.start, loc.end);
                let place = place_text(loc.rel_path@, loc.start, loc.end);
                let placed = with_host_def(
                    Core {
                        host: HostView {
                            spans: core.host.spans.insert(span, key),
                            ..core.host
                        },
                        ..core
                    },
                    def,
                    "impl"@,
                    DefKind::Impl,
                    span,
                    core_impl_path(loc),
                );
                let keyed = Core {
                    host: HostView {
                        impl_keys: placed.host.impl_keys.insert(
                            derived_id("impl"@, place),
                            "impl:"@ + place,
                        ),
                        ..placed.host
                    },
                    ..placed
                };
                (
                    with_in_test(
                        with_public(
                            with_core_def(
                                keyed,
                                def,
                                "impl"@,
                                DefKind::Impl,
                                core_impl_path(loc),
                                Some(loc.rel_path@),
                            ),
                            def,
                            false,
                        ),
                        def,
                        is_test_path(loc.rel_path@),
                    ),
                    Some(def),
                )
            },
            None => (core, None),
        },
        None => (core, None),
    }
}

/// The index once a definition has been told, if there is one.
pub open spec fn opt_registered(core: Core, facts: Option<CoreDefFacts>) -> (Core, Option<u64>) {
    match facts {
        Some(facts) => core_registered(core, facts, false),
        None => (core, None),
    }
}

/// The trait is the conversion trait.
pub open spec fn names_from(facts: Option<CoreDefFacts>) -> bool {
    match facts {
        Some(facts) => (match facts.canonical {
            Some(path) => has_suffix(path@, "::From"@),
            None => false,
        }) || (match facts.name {
            Some(name) => name@ == "From"@,
            None => false,
        }),
        None => false,
    }
}

/// The index once the first `count` methods of an impl have been told.
pub open spec fn with_core_methods(
    core: Core,
    methods: Seq<CoreFn>,
    owner: Option<u64>,
    tree: Seq<SyntaxView>,
    count: nat,
) -> Core
    decreases count,
{
    if count == 0 {
        core
    } else {
        let told = with_core_methods(core, methods, owner, tree, (count - 1) as nat);
        let (known, def) = core_registered(told, methods[count - 1].def, false);
        match def {
            Some(def) => {
                let typed = with_core_fn(known, methods[count - 1], def, tree);
                match owner {
                    Some(owner) => Core {
                        host: HostView {
                            methods: with_row(
                                typed.host.methods,
                                MethodView { owner, method: def },
                            ),
                            ..typed.host
                        },
                        ..typed
                    },
                    None => typed,
                }
            },
            None => known,
        }
    }
}

/// The index once what an impl says of its types has been told.
pub open spec fn with_core_relation(
    core: Core,
    facts: CoreImpl,
    owner: Option<u64>,
    record: Option<u64>,
) -> Core {
    let (known, trait_def) = opt_registered(core, facts.trait_def);
    let implemented = match (owner, trait_def, record) {
        (Some(owner), Some(trait_def), Some(record)) => Core {
            host: HostView {
                implements: with_row(
                    known.host.implements,
                    ImplementsView { owner, trait_def, impl_def: record },
                ),
                ..known.host
            },
            ..known
        },
        _ => known,
    };
    if names_from(facts.trait_def) {
        let (told, source) = opt_registered(implemented, facts.argument);
        match (owner, record, source) {
            (Some(target), Some(record), Some(source)) => Core {
                host: HostView {
                    from_impls: with_row(
                        told.host.from_impls,
                        FromImplView { source, target, impl_def: record },
                    ),
                    ..told.host
                },
                ..told
            },
            _ => told,
        }
    } else {
        implemented
    }
}

/// The index once an impl has been told.
pub open spec fn with_core_impl(core: Core, facts: CoreImpl, tree: Seq<SyntaxView>) -> Core {
    let (recorded, record) = with_core_impl_record(core, facts.loc);
    let (owned, owner) = opt_registered(recorded, facts.self_adt);
    with_core_methods(
        with_core_relation(owned, facts, owner, record),
        facts.methods@,
        owner,
        tree,
        facts.methods@.len(),
    )
}

/// What a call by expression calls.
pub enum CoreTarget {
    Function(CoreDefFacts),
    TupleStruct(CoreDefFacts),
    TupleVariant(CoreDefFacts),
    Closure(CallableFacts),
    FnPointer(CallableFacts),
}

/// What the database says of a call.
pub enum CoreCallFacts {
    Expression(Option<CoreTarget>),
    Method { function: Option<CoreDefFacts>, on_trait_object: bool, of_trait: bool },
}

/// A call in the body of a function.
pub struct CoreCall {
    pub start: u32,
    pub end: u32,
    pub call: CoreCallFacts,
}

/// A function and the calls in its body.
pub struct CoreBody {
    pub def: CoreDefFacts,
    /// The file of the body, if it is tracked.
    pub file: Option<LocalFile>,
    pub calls: Vec<CoreCall>,
}

/// The call's facts can be used.
pub open spec fn core_call_fits(call: CoreCall) -> bool {
    match call.call {
        CoreCallFacts::Expression(Some(CoreTarget::Function(facts))) => core_indexable(facts),
        CoreCallFacts::Expression(Some(CoreTarget::TupleStruct(facts))) => core_indexable(facts),
        CoreCallFacts::Expression(Some(CoreTarget::TupleVariant(facts))) => core_indexable(facts),
        CoreCallFacts::Method { function, .. } => opt_core_indexable(function),
        _ => true,
    }
}

/// The body's facts can be used.
pub open spec fn body_fits(body: CoreBody) -> bool {
    &&& core_indexable(body.def)
    &&& match body.file {
        Some(file) => indexable(file.text@),
        None => true,
    }
    &&& forall|i: int| 0 <= i < body.calls@.len() ==> core_call_fits(#[trigger] body.calls@[i])
}

/// The id of a callable without a definition of its own.
pub open spec fn core_synthetic_id(
    prefix: Seq<char>,
    rel_path: Seq<char>,
    facts: CallableFacts,
) -> u64 {
    derived_id("def"@, "def:"@ + prefix + ":"@ + synthetic_path(prefix, rel_path, facts))
}

/// The index once a callable without a definition of its own is known.
pub open spec fn with_core_callable(
    core: Core,
    prefix: Seq<char>,
    file: LocalFile,
    facts: CallableFacts,
) -> Core {
    let def = core_synthetic_id(prefix, file.rel_path@, facts);
    let path = synthetic_path(prefix, file.rel_path@, facts);
    if core.paths.contains_key(def) {
        core
    } else {
        let placed = match key_in_text(file.rel_path@, file.text@, facts.start, facts.end) {
            Some(key) => {
                let span = span_id_of(file.file_id, facts.start, facts.end);
                with_host_def(
                    Core {
                        host: HostView {
                            spans: core.host.spans.insert(span, key),
                            ..core.host
                        },
                        ..core
                    },
                    def,
                    facts.label@,
                    DefKind::Other,
                    span,
                    path,
                )
            },
            None => with_host_def(
                core,
                def,
                facts.label@,
                DefKind::Other,
                nowhere_span(def),
                path,
            ),
        };
        with_in_test(
            with_public(
                with_core_def(
                    placed,
                    def,
                    facts.label@,
                    DefKind::Other,
                    path,
                    Some(file.rel_path@),
                ),
                def,
                false,
            ),
            def,
            false,
        )
    }
}

/// A definition and how a call finds it.
pub open spec fn found(def: Option<u64>, dispatch: DispatchKind) -> Option<(u64, DispatchKind)> {
    match def {
        Some(def) => Some((def, dispatch)),
        None => None,
    }
}

/// The index once what a call calls is told, and its definition.
pub open spec fn core_call_target(core: Core, file: LocalFile, call: CoreCallFacts) -> (
    Core,
    Option<(u64, DispatchKind)>,
) {
    match call {
        CoreCallFacts::Expression(Some(target)) => match target {
            CoreTarget::Function(facts) => {
                let (told, def) = core_registered(core, facts, false);
                (told, found(def, DispatchKind::Direct))
            },
            CoreTarget::TupleStruct(facts) => {
                let (told, def) = adt_registered(core, facts);
                (told, Some((def, DispatchKind::Direct)))
            },
            CoreTarget::TupleVariant(facts) => {
                let (told, def) = core_registered(core, facts, false);
                (told, found(def, DispatchKind::Direct))
            },
            CoreTarget::Closure(facts) => (
                with_core_callable(core, "closure"@, file, facts),
                Some(
                    (
                        core_synthetic_id("closure"@, file.rel_path@, facts),
                        DispatchKind::Closure,
                    ),
                ),
            ),
            CoreTarget::FnPointer(facts) => (
                with_core_callable(core, "fn_pointer"@, file, facts),
                Some(
                    (
                        core_synthetic_id("fn_pointer"@, file.rel_path@, facts),
                        DispatchKind::FnPointer,
                    ),
                ),
            ),
        },
        CoreCallFacts::Method { function: Some(facts), on_trait_object, of_trait } => {
            let (told, def) = core_registered(core, facts, false);
            (told, found(def, method_dispatch_of(on_trait_object, of_trait)))
        },
        _ => (core, None),
    }
}

/// The index once a call has been told.
pub open spec fn with_core_call(core: Core, file: LocalFile, call: CoreCall, caller: u64) -> Core {
    let (known, target) = core_call_target(core, file, call.call);
    match (target, key_in_text(file.rel_path@, file.text@, call.start, call.end)) {
        (Some((callee, dispatch)), Some(key)) => {
            let site = span_id_of(file.file_id, call.start, call.end);
            let place = place_text(file.rel_path@, call.start, call.end);
            Core {
                host: HostView {
                    spans: known.host.spans.insert(site, key),
                    call_keys: known.host.call_keys.insert(
                        derived_id("call"@, place),
                        "call:"@ + place,
                    ),
                    call_edges: with_row(
                        known.host.call_edges,
                        CallEdgeView { caller, callee, site, dispatch },
                    ),
                    ..known.host
                },
                ..known
            }
        },
        _ => known,
    }
}

/// The index once the first `count` calls of a body have been told.
pub open spec fn with_core_calls(
    core: Core,
    file: LocalFile,
    calls: Seq<CoreCall>,
    caller: u64,
    count: nat,
) -> Core
    decreases count,
{
    if count == 0 {
        core
    } else {
        with_core_call(
            with_core_calls(core, file, calls, caller, (count - 1) as nat),
            file,
            calls[count - 1],
            caller,
        )
    }
}

/// The index once the calls of a body have been told.
pub open spec fn with_core_body(core: Core, body: CoreBody) -> Core {
    match body.file {
        Some(file) => {
            let (known, caller) = core_registered(core, body.def, false);
            match caller {
                Some(caller) => with_core_calls(
                    known,
                    file,
                    body.calls@,
                    caller,
                    body.calls@.len(),
                ),
                None => known,
            }
        },
        None => core,
    }
}

/// The index once the calls of the first `count` bodies have been told.
pub open spec fn with_core_bodies(core: Core, bodies: Seq<CoreBody>, count: nat) -> Core
    decreases count,
{
    if count == 0 {
        core
    } else {
        with_core_body(with_core_bodies(core, bodies, (count - 1) as nat), bodies[count - 1])
    }
}

/// Whether the file is one of tests.
fn in_test_path(rel_path: &str) -> (r: bool)
    ensures
        r == is_test_path(rel_path@),
{
    starts_with(rel_path, "tests/") || contains_text(rel_path, "/tests/")
}

/// Whether the path is that of the result type.
fn is_result_name(path: &str) -> (r: bool)
    ensures
        r == names_result(path@),
{
    str_eq(path, "std::result::Result") || str_eq(path, "core::result::Result") || str_eq(
        path,
        "result::Result",
    ) || ends_with(path, "::Result")
}

/// Whether the trait is the conversion trait.
fn is_from_trait(facts: &Option<CoreDefFacts>) -> (r: bool)
    ensures
        r == names_from(*facts),
{
    match facts {
        Some(facts) => {
            let by_path = match &facts.canonical {
                Some(path) => ends_with(path.as_str(), "::From"),
                None => false,
            };
            let by_name = match &facts.name {
                Some(name) => str_eq(name.as_str(), "From"),
                None => false,
            };
            by_path || by_name
        },
        None => false,
    }
}

impl CoreFactsBuilder {
    /// Tells a field.
    fn insert_core_field(
        &mut self,
        owner: DefId,
        name: &str,
        field: &CoreField,
        tree: &Vec<SyntaxRow>,
    )
        requires
            old(self).wf(),
            lowered_indexable(field.ty),
            row_in(field.source, tree@),
        ensures
            final(self).wf(),
            final(self)@ == with_core_field(
                old(self)@,
                *field,
                owner@,
                name@,
                tree_view(tree@),
            ),
    {
        proof {
            self.lemma_parts();
        }
        let mut key = match self.paths.get(owner.stable_id().as_u64()) {
            Some(path) => cat2("field:", path.as_str()),
            None => cat2("field:", "unknown_owner"),
        };
        key.append(":");
        key.append(name);
        let ty = self.lower_type(key.as_str(), &field.ty, tree, field.source);
        proof {
            self.lemma_parts();
        }
        self.host.insert_field(owner, name, ty);
        proof {
            self.lemma_parts();
        }
    }

    /// Tells the parts of a data type, where they are asked for.
    pub fn process_adt(&mut self, adt: &CoreAdt, owner: DefId, tree: &Vec<SyntaxRow>)
        requires
            old(self).wf(),
            adt_fits(*adt, tree@),
        ensures
            final(self).wf(),
            final(self)@ == with_core_adt(old(self)@, *adt, owner@, tree_view(tree@)),
    {
        proof {
            self.lemma_parts();
        }
        if !self.build_spec.adt_structure {
            return;
        }
        let ghost start = self@;
        let ghost view = tree_view(tree@);
        match adt {
            CoreAdt::Record(fields) => {
                let mut i: usize = 0;
                while i < fields.len()
                    invariant
                        self.wf(),
                        view == tree_view(tree@),
                        fields_fit(fields@, tree@),
                        i <= fields@.len(),
                        self@ == with_record(start, fields@, owner@, view, i as nat),
                    decreases fields.len() - i,
                {
                    let field = &fields[i];
                    assert(lowered_indexable(fields@[i as int].ty));
                    match &field.name {
                        Some(name) => {
                            self.insert_core_field(owner, name.as_str(), field, tree);
                        },
                        None => {},
                    }
                    i += 1;
                }
            },
            CoreAdt::Tuple(fields) => {
                let mut i: usize = 0;
                while i < fields.len()
                    invariant
                        self.wf(),
                        view == tree_view(tree@),
                        fields_fit(fields@, tree@),
                        i <= fields@.len(),
                        self@ == with_tuple(start, fields@, owner@, view, i as nat),
                    decreases fields.len() - i,
                {
                    assert(lowered_indexable(fields@[i as int].ty));
                    let name = decimal_of_size(i);
                    self.insert_core_field(owner, name.as_str(), &fields[i], tree);
                    i += 1;
                }
            },
            CoreAdt::Variants(variants) => {
                let mut i: usize = 0;
                while i < variants.len()
                    invariant
                        self.wf(),
                        forall|k: int|
                            0 <= k < variants@.len() ==> core_indexable(
                                (#[trigger] variants@[k]).def,
                            ),
                        i <= variants@.len(),
                        self@ == with_core_variants(start, variants@, owner@, i as nat),
                    decreases variants.len() - i,
                {
                    let variant = &variants[i];
                    assert(core_indexable(variants@[i as int].def));
                    match self.register_module_def(&variant.def, false) {
                        Some(def) => {
                            proof {
                                self.lemma_parts();
                            }
                            self.host.insert_variant(owner, variant.name.as_str(), def);
                            proof {
                                self.lemma_parts();
                            }
                        },
                        None => {},
                    }
                    i += 1;
                }
            },
            CoreAdt::Unit => {},
        }
    }

    /// Tells the error type of what a function gives.
    pub fn result_error_def(&mut self, ty: &LoweredTy) -> (r: Option<DefId>)
        requires
            old(self).wf(),
            lowered_indexable(*ty),
        ensures
            final(self).wf(),
            (final(self)@, opt_def(r)) == with_result_error(old(self)@, *ty),
    {
        match ty {
            LoweredTy::Adt { def, args } => match &def.canonical {
                Some(path) => {
                    if !is_result_name(path.as_str()) || args.len() < 2 {
                        return None;
                    }
                    assert(lowered_indexable(args@[1]));
                    match &args[1] {
                        LoweredTy::Adt { def: error, .. } => {
                            let id = self.register_adt_def(error);
                            Some(id)
                        },
                        LoweredTy::Param(name) => {
                            let id = self.register_type_param_def(name.as_str(), "fn_error");
                            Some(id)
                        },
                        _ => None,
                    }
                },
                None => None,
            },
            _ => None,
        }
    }

    /// Tells the types of a function.
    pub fn register_function_types(&mut self, def: DefId, function: &CoreFn, tree: &Vec<SyntaxRow>)
        requires
            old(self).wf(),
            fn_fits(*function, tree@),
        ensures
            final(self).wf(),
            final(self)@ == with_core_fn(old(self)@, *function, def@, tree_view(tree@)),
    {
        proof {
            self.lemma_parts();
        }
        let key = match self.paths.get(def.stable_id().as_u64()) {
            Some(path) => cat2("fn_return:", path.as_str()),
            None => cat2("fn_return:", cat2("fn:", def.stable_id().to_text().as_str()).as_str()),
        };
        let ret = self.lower_type(key.as_str(), &function.ret, tree, function.source);
        let error = self.result_error_def(&function.ret);
        proof {
            self.lemma_parts();
        }
        self.host.set_fn_return_type(def, Some(ret));
        self.host.set_fn_error_type(def, error);
        proof {
            self.lemma_parts();
        }
    }

    /// Tells an impl itself.
    pub fn register_impl_def(&mut self, loc: &Option<SourceLoc>) -> (r: Option<DefId>)
        requires
            old(self).wf(),
            match loc {
                Some(loc) => indexable(loc.text@),
                None => true,
            },
        ensures
            final(self).wf(),
            (final(self)@, opt_def(r)) == with_core_impl_record(old(self)@, *loc),
    {
        let loc = match loc {
            Some(loc) => loc,
            None => {
                return None;
            },
        };
        proof {
            self.lemma_parts();
        }
        let span = match self.host.intern_span_from_text(
            loc.file_id,
            loc.rel_path.as_str(),
            loc.text.as_str(),
            loc.start,
            loc.end,
        ) {
            Ok(span) => span,
            Err(_) => {
                proof {
                    self.lemma_parts();
                }
                return None;
            },
        };
        let place = place_to_text(loc.rel_path.as_str(), loc.start, loc.end);
        let path = cat2("impl::", place.as_str());
        let def = self.host.intern_def_from_token(cat2("def:Impl:", place.as_str()).as_str());
        self.host.insert_def(def, "impl", DefKind::Impl, span, path.as_str());
        let id = ImplId::new(deterministic_stable_id("impl", place.as_str()));
        self.host.insert_impl_id(id, cat2("impl:", place.as_str()).as_str());
        proof {
            self.lemma_parts();
        }
        self.record_core_def(
            def,
            "impl",
            DefKind::Impl,
            path.as_str(),
            Some(loc.rel_path.as_str()),
        );
        self.mark_public(def, false);
        self.mark_in_test(def, in_test_path(loc.rel_path.as_str()));
        Some(def)
    }

    /// Tells a definition, if there is one.
    fn register_opt(&mut self, facts: &Option<CoreDefFacts>) -> (r: Option<DefId>)
        requires
            old(self).wf(),
            opt_core_indexable(*facts),
        ensures
            final(self).wf(),
            (final(self)@, opt_def(r)) == opt_registered(old(self)@, *facts),
    {
        match facts {
            Some(facts) => self.register_module_def(facts, false),
            None => None,
        }
    }

    /// Tells what an impl says of its types.
    fn relate_impl(&mut self, facts: &CoreImpl, owner: Option<DefId>, record: Option<DefId>)
        requires
            old(self).wf(),
            opt_core_indexable(facts.trait_def),
            opt_core_indexable(facts.argument),
        ensures
            final(self).wf(),
            final(self)@ == with_core_relation(
                old(self)@,
                *facts,
                opt_def(owner),
                opt_def(record),
            ),
    {
        let trait_def = self.register_opt(&facts.trait_def);
        proof {
            self.lemma_parts();
        }
        match (owner, trait_def, record) {
            (Some(owner), Some(trait_def), Some(record)) => {
                self.host.insert_implements(owner, trait_def, record);
            },
            _ => {},
        }
        proof {
            self.lemma_parts();
        }
        if is_from_trait(&facts.trait_def) {
            let source = self.register_opt(&facts.argument);
            proof {
                self.lemma_parts();
            }
            match (owner, record, source) {
                (Some(target), Some(record), Some(source)) => {
                    self.host.insert_from_impl(source, target, record);
                },
                _ => {},
            }
            proof {
                self.lemma_parts();
            }
        }
    }

    /// Tells an impl.
    pub fn extract_impl(&mut self, facts: &CoreImpl, tree: &Vec<SyntaxRow>)
        requires
            old(self).wf(),
            impl_fits(*facts, tree@),
        ensures
            final(self).wf(),
            final(self)@ == with_core_impl(old(self)@, *facts, tree_view(tree@)),
    {
        let record = self.register_impl_def(&facts.loc);
        let owner = self.register_opt(&facts.self_adt);
        self.relate_impl(facts, owner, record);
        let ghost start = self@;
        let ghost view = tree_view(tree@);
        let mut i: usize = 0;
        while i < facts.methods.len()
            invariant
                self.wf(),
                view == tree_view(tree@),
                impl_fits(*facts, tree@),
                i <= facts.methods@.len(),
                self@ == with_core_methods(start, facts.methods@, opt_def(owner), view, i as nat),
            decreases facts.methods.len() - i,
        {
            let method = &facts.methods[i];
            assert(fn_fits(facts.methods@[i as int], tree@));
            match self.register_module_def(&method.def, false) {
                Some(def) => {
                    self.register_function_types(def, method, tree);
                    match owner {
                        Some(owner) => {
                            proof {
                                self.lemma_parts();
                            }
                            self.host.insert_method(owner, def);
                            proof {
                                self.lemma_parts();
                            }
                        },
                        None => {},
                    }
                },
                None => {},
            }
            i += 1;
        }
    }

    /// Tells a callable without a definition of its own.
    pub fn register_synthetic_callable_def(
        &mut self,
        prefix: &str,
        file: &LocalFile,
        facts: &CallableFacts,
    ) -> (r: DefId)
        requires
            old(self).wf(),
            indexable(file.text@),
        ensures
            final(self).wf(),
            r@ == core_synthetic_id(prefix@, file.rel_path@, *facts),
            final(self)@ == with_core_callable(old(self)@, prefix@, *file, *facts),
    {
        proof {
            self.lemma_parts();
        }
        let mut path = cat2(prefix, "::");
        path.append(place_to_text(file.rel_path.as_str(), facts.start, facts.end).as_str());
        path.append(":");
        path.append(facts.label.as_str());
        let mut token = cat2("def:", prefix);
        token.append(":");
        token.append(path.as_str());
        let def = self.host.intern_def_from_token(token.as_str());
        if self.paths.contains(def.stable_id().as_u64()) {
            return def;
        }
        let label = facts.label.as_str();
        match self.host.intern_span_from_text(
            file.file_id,
            file.rel_path.as_str(),
            file.text.as_str(),
            facts.start,
            facts.end,
        ) {
            Ok(span) => {
                self.host.insert_def(def, label, DefKind::Other, span, path.as_str());
            },
            Err(_) => {
                self.host.insert_def(
                    def,
                    label,
                    DefKind::Other,
                    fallback_def_span(def),
                    path.as_str(),
                );
            },
        }
        proof {
            self.lemma_parts();
        }
        self.record_core_def(
            def,
            label,
            DefKind::Other,
            path.as_str(),
            Some(file.rel_path.as_str()),
        );
        self.mark_public(def, false);
        self.mark_in_test(def, false);
        def
    }

    /// Tells what a call calls.
    pub fn call_target_from_callable(&mut self, file: &LocalFile, call: &CoreCallFacts) -> (r: Option<
        (DefId, DispatchKind),
    >)
        requires
            old(self).wf(),
            indexable(file.text@),
            match call {
                CoreCallFacts::Expression(Some(CoreTarget::Function(facts))) => core_indexable(
                    *facts,
                ),
                CoreCallFacts::Expression(Some(CoreTarget::TupleStruct(facts))) => core_indexable(
                    *facts,
                ),
                CoreCallFacts::Expression(Some(CoreTarget::TupleVariant(facts))) => core_indexable(
                    *facts,
                ),
                CoreCallFacts::Method { function, .. } => opt_core_indexable(*function),
                _ => true,
            },
        ensures
            final(self).wf(),
            match r {
                Some((def, dispatch)) => (final(self)@, Some((def@, dispatch)))
                    == core_call_target(old(self)@, *file, *call),
                None => (final(self)@, None::<(u64, DispatchKind)>) == core_call_target(
                    old(self)@,
                    *file,
                    *call,
                ),
            },
    {
        match call {
            CoreCallFacts::Expression(Some(target)) => match target {
                CoreTarget::Function(facts) => match self.register_module_def(facts, false) {
                    Some(def) => Some((def, DispatchKind::Direct)),
                    None => None,
                },
                CoreTarget::TupleStruct(facts) => {
                    let def = self.register_adt_def(facts);
                    Some((def, DispatchKind::Direct))
                },
                CoreTarget::TupleVariant(facts) => match self.register_module_def(facts, false) {
                    Some(def) => Some((def, DispatchKind::Direct)),
                    None => None,
                },
                CoreTarget::Closure(facts) => {
                    let def = self.register_synthetic_callable_def("closure", file, facts);
                    Some((def, DispatchKind::Closure))
                },
                CoreTarget::FnPointer(facts) => {
                    let def = self.register_synthetic_callable_def("fn_pointer", file, facts);
                    Some((def, DispatchKind::FnPointer))
                },
            },
            CoreCallFacts::Method { function: Some(facts), on_trait_object, of_trait } => {
                match self.register_module_def(facts, false) {
                    Some(def) => Some((def, method_dispatch_kind(*on_trait_object, *of_trait))),
                    None => None,
                }
            },
            _ => None,
        }
    }

    /// Tells a call.
    pub fn record_call(&mut self, file: &LocalFile, call: &CoreCall, caller: DefId)
        requires
            old(self).wf(),
            indexable(file.text@),
            core_call_fits(*call),
        ensures
            final(self).wf(),
            final(self)@ == with_core_call(old(self)@, *file, *call, caller@),
    {
        let (callee, dispatch) = match self.call_target_from_callable(file, &call.call) {
            Some((callee, dispatch)) => (callee, dispatch),
            None => {
                return;
            },
        };
        proof {
            self.lemma_parts();
        }
        match self.host.intern_span_from_text(
            file.file_id,
            file.rel_path.as_str(),
            file.text.as_str(),
            call.start,
            call.end,
        ) {
            Ok(site) => {
                let place = place_to_text(file.rel_path.as_str(), call.start, call.end);
                let id = CallId::new(deterministic_stable_id("call", place.as_str()));
                self.host.insert_call_id(id, cat2("call:", place.as_str()).as_str());
                self.host.insert_call_edge(caller, callee, site, dispatch);
            },
            Err(_) => {},
        }
        proof {
            self.lemma_parts();
        }
    }

    /// Tells the calls of functions.
    pub fn extract_call_edges(&mut self, bodies: &Vec<CoreBody>)
        requires
            old(self).wf(),
            forall|i: int| 0 <= i < bodies@.len() ==> body_fits(#[trigger] bodies@[i]),
        ensures
            final(self).wf(),
            final(self)@ == with_core_bodies(old(self)@, bodies@, bodies@.len()),
    {
        let ghost start = self@;
        let mut i: usize = 0;
        while i < bodies.len()
            invariant
                self.wf(),
                start == old(self)@,
                forall|k: int| 0 <= k < bodies@.len() ==> body_fits(#[trigger] bodies@[k]),
                i <= bodies@.len(),
                self@ == with_core_bodies(start, bodies@, i as nat),
            decreases bodies.len() - i,
        {
            assert(body_fits(bodies@[i as int]));
            self.extract_body_calls(&bodies[i]);
            i += 1;
        }
    }

    fn extract_body_calls(&mut self, body: &CoreBody)
        requires
            old(self).wf(),
            body_fits(*body),
        ensures
            final(self).wf(),
            final(self)@ == with_core_body(old(self)@, *body),
    {
        let file = match &body.file {
            Some(file) => file,
            None => {
                return;
            },
        };
        let caller = match self.register_module_def(&body.def, false) {
            Some(caller) => caller,
            None => {
                return;
            },
        };
        let ghost start = self@;
        let mut i: usize = 0;
        while i < body.calls.len()
            invariant
                self.wf(),
                indexable(file.text@),
                body_fits(*body),
                i <= body.calls@.len(),
                self@ == with_core_calls(start, *file, body.calls@, caller@, i as nat),
            decreases body.calls.len() - i,
        {
            assert(core_call_fits(body.calls@[i as int]));
            self.record_call(file, &body.calls[i], caller);
            i += 1;
        }
    }
}

/// A definition that a search for symbols found.
pub struct CoreSymbol {
    pub def: CoreDefFacts,
    pub is_import: bool,
    pub is_alias: bool,
}

/// What of the index's definitions is told.
pub open spec fn with_symbol(
    index: CoreView,
    symbol: CoreSymbol,
    asked: CoreHostBuildSpec,
) -> CoreView {
    match (symbol.def.kind, symbol.def.loc, symbol.def.name) {
        (Some(kind), Some(loc), Some(name)) => {
            let def = core_id(symbol.def);
            if symbol.is_import || symbol.is_alias || index.defs.contains_key(def) {
                index
            } else {
                let known = index.with_def(
                    def,
                    name@,
                    kind,
                    core_path(symbol.def),
                    Some(loc.rel_path@),
                );
                let keyed = match symbol.def.function {
                    Some(function) => CoreView {
                        functions: known.functions.insert(def, function),
                        ..known
                    },
                    None => known,
                };
                let placed = match key_in_text(loc.rel_path@, loc.text@, loc.start, loc.end) {
                    Some(key) => if asked.def_spans {
                        let span = span_id_of(loc.file_id, loc.start, loc.end);
                        CoreView {
                            def_spans: keyed.def_spans.insert(def, span),
                            spans: keyed.spans.insert(span, key),
                            ..keyed
                        }
                    } else {
                        keyed
                    },
                    None => keyed,
                };
                let shown = if asked.def_publicity {
                    CoreView {
                        defs: placed.defs.insert(
                            def,
                            CoreDefView {
                                is_public: Some(symbol.def.is_public),
                                ..placed.defs[def]
                            },
                        ),
                        ..placed
                    }
                } else {
                    placed
                };
                if asked.def_test_flags {
                    CoreView {
                        defs: shown.defs.insert(
                            def,
                            CoreDefView {
                                in_test: Some(symbol.def.in_test),
                                ..shown.defs[def]
                            },
                        ),
                        ..shown
                    }
                } else {
                    shown
                }
            }
        },
        _ => index,
    }
}

/// The index of the first `count` symbols.
pub open spec fn with_core_symbols(
    symbols: Seq<CoreSymbol>,
    asked: CoreHostBuildSpec,
    count: nat,
) -> CoreView
    decreases count,
{
    if count == 0 {
        CoreView {
            defs: Map::empty(),
            functions: Map::empty(),
            def_spans: Map::empty(),
            spans: Map::empty(),
        }
    } else {
        with_symbol(
            with_core_symbols(symbols, asked, (count - 1) as nat),
            symbols[count - 1],
            asked,
        )
    }
}

/// Tells a symbol.
fn index_symbol(index: &mut CoreLookupIndex, symbol: &CoreSymbol, asked: &CoreHostBuildSpec)
    requires
        old(index).wf(),
        core_indexable(symbol.def),
    ensures
        final(index).wf(),
        final(index)@ == with_symbol(old(index)@, *symbol, *asked),
{
    let facts = &symbol.def;
    let (kind, loc, name) = match (facts.kind, &facts.loc, &facts.name) {
        (Some(kind), Some(loc), Some(name)) => (kind, loc, name.as_str()),
        _ => {
            return;
        },
    };
    if symbol.is_import || symbol.is_alias {
        return;
    }
    let path = core_path_of(facts, name, kind);
    let token = core_token_of(kind, path.as_str());
    let def = DefId::new(deterministic_stable_id("def", token.as_str()));
    if index.contains_def(def) {
        return;
    }
    index.record_def(def, name, kind, path.as_str(), Some(loc.rel_path.as_str()));
    match facts.function {
        Some(function) => {
            index.record_function(def, function);
        },
        None => {},
    }
    if asked.def_spans {
        match lookup_span_key_from_text(
            loc.rel_path.as_str(),
            loc.text.as_str(),
            loc.start,
            loc.end,
        ) {
            Some(key) => {
                let span = span_of_place(loc.file_id, loc.start, loc.end);
                index.record_span(def, span, key);
            },
            None => {},
        }
    }
    if asked.def_publicity {
        index.mark_public(def, facts.is_public);
    }
    if asked.def_test_flags {
        index.mark_in_test(def, facts.in_test);
    }
}

/// The index of the definitions that a search for symbols found: each once, the
/// first that was found.
pub fn build_core_index_only(symbols: &Vec<CoreSymbol>, build_spec: &CoreHostBuildSpec) -> (r:
    CoreLookupIndex)
    requires
        forall|i: int| 0 <= i < symbols@.len() ==> core_indexable((#[trigger] symbols@[i]).def),
    ensures
        r.wf(),
        r@ == with_core_symbols(symbols@, *build_spec, symbols@.len()),
{
    let mut index = CoreLookupIndex::new();
    let mut i: usize = 0;
    while i < symbols.len()
        invariant
            index.wf(),
            forall|k: int|
                0 <= k < symbols@.len() ==> core_indexable((#[trigger] symbols@[k]).def),
            i <= symbols@.len(),
            index@ == with_core_symbols(symbols@, *build_spec, i as nat),
        decreases symbols.len() - i,
    {
        assert(core_indexable(symbols@[i as int].def));
        index_symbol(&mut index, &symbols[i], build_spec);
        i += 1;
    }
    index
}

} // verus!
