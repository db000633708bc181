//! The semantic index: definitions, types, spans, syntax nodes and relations.

use crate::ra::file_id::EditionedFileId;
use crate::host::{
    deterministic_stable_id, derived_id, CallId, DefId, ImplId, NodeId, SpanCoord, SpanId, SpanKey,
    SpanKeyView, StableHandle, TypeRefId, WorldStamp,
};
use crate::ir::{stable_id_text, StableId};
use crate::ra::kinds::{is_control, is_control_kind, DefKind, DispatchKind, NodeKind};
use crate::ra::rows::{
    same_def, CallEdgeRow, CallEdgeView, CompareRow, CompareView, ConstructRow, ConstructView,
    ConvertRow, ConvertView, FieldRow, FieldView, FromImplRow, FromImplView, HandleRow, HandleView,
    ImplementsRow, ImplementsView, MethodRow, MethodView, PropagateRow, PropagateView, VariantRow,
    VariantView, WriteRow, WriteView,
};
use crate::ra::shapes::{ShapeView, TypeShape};
use crate::ra::source::{
    byte_len, indexable, key_in_text, lookup_span_key_from_text, span_id_of, span_of_place,
};
use crate::ra::store::{ascending, with_row, IdMap, Relation};
use crate::ra::types::first_owner;
use crate::ra::values::{
    row_view, rows_view, span_value, span_view, text_value, ExternLookupHostValue,
    ExternLookupHostValueKind, ExternLookupValue, LookupView,
};
use crate::text::{
    cat2, cat3, decimal, decimal_of, hex16, hex_digits, lemma_text_irreflexive, lemma_text_total,
    lemma_text_transitive, owned, text_before, text_less,
};
use vstd::prelude::*;
use vstd::utf8::encode_utf8;

verus! {

/// A definition.
#[derive(Debug, Clone, PartialEq, Eq)]
pub struct DefRecord {
    pub name: String,
    pub kind: DefKind,
    pub span: SpanId,
    pub path: String,
}

/// What a definition says.
pub struct DefRecordView {
    pub name: Seq<char>,
    pub kind: DefKind,
    pub span: u64,
    pub path: Seq<char>,
}

impl View for DefRecord {
    type V = DefRecordView;

    open spec fn view(&self) -> DefRecordView {
        DefRecordView { name: self.name@, kind: self.kind, span: self.span@, path: self.path@ }
    }
}

/// A syntax node.
#[derive(Debug, Clone, Copy, PartialEq, Eq)]
pub struct NodeRecord {
    pub kind: NodeKind,
    pub span: SpanId,
    pub parent: Option<NodeId>,
}

/// What a syntax node says.
pub struct NodeRecordView {
    pub kind: NodeKind,
    pub span: u64,
    pub parent: Option<u64>,
}

/// The raw id of a node, if there is one.
pub open spec fn opt_node(node: Option<NodeId>) -> Option<u64> {
    match node {
        Some(node) => Some(node@),
        None => None,
    }
}

/// The raw id of a definition, if there is one.
pub open spec fn opt_def(def: Option<DefId>) -> Option<u64> {
    match def {
        Some(def) => Some(def@),
        None => None,
    }
}

/// The raw id of a type, if there is one.
pub open spec fn opt_type(type_ref: Option<TypeRefId>) -> Option<u64> {
    match type_ref {
        Some(type_ref) => Some(type_ref@),
        None => None,
    }
}

impl View for NodeRecord {
    type V = NodeRecordView;

    open spec fn view(&self) -> NodeRecordView {
        NodeRecordView { kind: self.kind, span: self.span@, parent: opt_node(self.parent) }
    }
}

/// A type, or the statement that there is none.
#[derive(Debug, Clone, Copy, PartialEq, Eq)]
pub struct OptType(pub Option<TypeRefId>);

impl View for OptType {
    type V = Option<u64>;

    open spec fn view(&self) -> Option<u64> {
        opt_type(self.0)
    }
}

/// A definition, or the statement that there is none.
#[derive(Debug, Clone, Copy, PartialEq, Eq)]
pub struct OptDef(pub Option<DefId>);

impl View for OptDef {
    type V = Option<u64>;

    open spec fn view(&self) -> Option<u64> {
        opt_def(self.0)
    }
}

/// The nearest control construct around a span.
#[derive(Debug, Clone, Copy, PartialEq, Eq)]
pub struct EnclosingControl {
    pub kind: NodeKind,
    pub span: SpanId,
    pub distance: u32,
}

/// Why the index refuses a request.
#[derive(Debug, Clone, PartialEq, Eq)]
pub enum RaHostError {
    /// The range does not cut the source at characters.
    InvalidSpanRange { rel_path: String, start: u32, end: u32, len: u64 },
}

impl RaHostError {
    /// The message for the user.
    pub open spec fn message(self) -> Seq<char> {
        match self {
            RaHostError::InvalidSpanRange { rel_path, start, end, len } => invalid_range_text(
                rel_path@,
                start,
                end,
                len,
            ),
        }
    }

    /// The message for the user.
    pub fn to_text(&self) -> (r: String)
        ensures
            r@ == self.message(),
    {
        match self {
            RaHostError::InvalidSpanRange { rel_path, start, end, len } => {
                let mut out = owned("invalid span range ");
                out.append(crate::ra::source::range_to_text(*start, *end).as_str());
                out.append(" in `");
                out.append(rel_path.as_str());
                out.append("` of ");
                out.append(decimal_of(*len).as_str());
                out.append(" bytes");
                out
            },
        }
    }
}

/// The message for a range that does not cut the source at characters.
pub open spec fn invalid_range_text(rel_path: Seq<char>, start: u32, end: u32, len: u64) -> Seq<
    char,
> {
    "invalid span range "@ + crate::ra::source::range_text(start, end) + " in `"@ + rel_path
        + "` of "@ + decimal(len as nat) + " bytes"@
}

/// How deep control constructs are looked for, unless set otherwise.
pub const DEFAULT_CONTROL_DEPTH: u32 = 32;

/// A deterministic index of a workspace: the same statements make the same ids.
pub struct DeterministicRaHost {
    world_stamp: WorldStamp,
    control_max_depth: u32,
    defs: IdMap<DefRecord>,
    public: IdMap<bool>,
    in_test: IdMap<bool>,
    types: IdMap<TypeShape>,
    spans: IdMap<SpanKey>,
    nodes: IdMap<NodeRecord>,
    fn_returns: IdMap<OptType>,
    fn_errors: IdMap<OptDef>,
    typeref_keys: IdMap<String>,
    node_keys: IdMap<String>,
    call_keys: IdMap<String>,
    impl_keys: IdMap<String>,
    def_handles: IdMap<String>,
    fields: Relation<FieldRow>,
    variants: Relation<VariantRow>,
    methods: Relation<MethodRow>,
    trait_methods: Relation<MethodRow>,
    implements: Relation<ImplementsRow>,
    from_impls: Relation<FromImplRow>,
    call_edges: Relation<CallEdgeRow>,
    constructs: Relation<ConstructRow>,
    propagates: Relation<PropagateRow>,
    converts: Relation<ConvertRow>,
    handles: Relation<HandleRow>,
    compares: Relation<CompareRow>,
    writes: Relation<WriteRow>,
}

/// What an index holds.
#[verifier::ext_equal]
pub struct HostView {
    pub world_stamp: Seq<char>,
    pub control_max_depth: u32,
    /// Definitions by id.
    pub defs: Map<u64, DefRecordView>,
    /// Whether definitions are public.
    pub public: Map<u64, bool>,
    /// Whether definitions are test code.
    pub in_test: Map<u64, bool>,
    /// Shapes of types by id.
    pub types: Map<u64, ShapeView>,
    /// Keys of spans by id.
    pub spans: Map<u64, SpanKeyView>,
    /// Syntax nodes by id.
    pub nodes: Map<u64, NodeRecordView>,
    /// The return types of functions.
    pub fn_returns: Map<u64, Option<u64>>,
    /// The error types of functions.
    pub fn_errors: Map<u64, Option<u64>>,
    /// Explicit stable keys of types.
    pub typeref_keys: Map<u64, Seq<char>>,
    /// Explicit stable keys of nodes.
    pub node_keys: Map<u64, Seq<char>>,
    /// Explicit stable keys of calls.
    pub call_keys: Map<u64, Seq<char>>,
    /// Explicit stable keys of impls.
    pub impl_keys: Map<u64, Seq<char>>,
    /// Explicit handles of definitions.
    pub def_handles: Map<u64, Seq<char>>,
    /// Fields.
    pub fields: Seq<FieldView>,
    /// Variants of enums.
    pub variants: Seq<VariantView>,
    /// Methods of types.
    pub methods: Seq<MethodView>,
    /// Methods of traits.
    pub trait_methods: Seq<MethodView>,
    /// Trait implementations.
    pub implements: Seq<ImplementsView>,
    /// Conversions between types.
    pub from_impls: Seq<FromImplView>,
    /// Calls.
    pub call_edges: Seq<CallEdgeView>,
    /// Errors built.
    pub constructs: Seq<ConstructView>,
    /// Errors passed on.
    pub propagates: Seq<PropagateView>,
    /// Errors converted.
    pub converts: Seq<ConvertView>,
    /// Errors handled.
    pub handles: Seq<HandleView>,
    /// Errors compared.
    pub compares: Seq<CompareView>,
    /// Errors assigned.
    pub writes: Seq<WriteView>,
}

impl View for DeterministicRaHost {
    type V = HostView;

    closed spec fn view(&self) -> HostView {
        HostView {
            world_stamp: self.world_stamp@,
            control_max_depth: self.control_max_depth,
            defs: self.defs@,
            public: self.public@,
            in_test: self.in_test@,
            types: self.types@,
            spans: self.spans@,
            nodes: self.nodes@,
            fn_returns: self.fn_returns@,
            fn_errors: self.fn_errors@,
            typeref_keys: self.typeref_keys@,
            node_keys: self.node_keys@,
            call_keys: self.call_keys@,
            impl_keys: self.impl_keys@,
            def_handles: self.def_handles@,
            fields: self.fields@,
            variants: self.variants@,
            methods: self.methods@,
            trait_methods: self.trait_methods@,
            implements: self.implements@,
            from_impls: self.from_impls@,
            call_edges: self.call_edges@,
            constructs: self.constructs@,
            propagates: self.propagates@,
            converts: self.converts@,
            handles: self.handles@,
            compares: self.compares@,
            writes: self.writes@,
        }
    }
}

impl HostView {
    /// The index that has been told nothing.
    pub open spec fn fresh() -> HostView {
        HostView {
            world_stamp: "ra-host"@,
            control_max_depth: DEFAULT_CONTROL_DEPTH,
            defs: Map::empty(),
            public: Map::empty(),
            in_test: Map::empty(),
            types: Map::empty(),
            spans: Map::empty(),
            nodes: Map::empty(),
            fn_returns: Map::empty(),
            fn_errors: Map::empty(),
            typeref_keys: Map::empty(),
            node_keys: Map::empty(),
            call_keys: Map::empty(),
            impl_keys: Map::empty(),
            def_handles: Map::empty(),
            fields: Seq::empty(),
            variants: Seq::empty(),
            methods: Seq::empty(),
            trait_methods: Seq::empty(),
            implements: Seq::empty(),
            from_impls: Seq::empty(),
            call_edges: Seq::empty(),
            constructs: Seq::empty(),
            propagates: Seq::empty(),
            converts: Seq::empty(),
            handles: Seq::empty(),
            compares: Seq::empty(),
            writes: Seq::empty(),
        }
    }
}

impl DeterministicRaHost {
    /// The maps are in order.
    pub closed spec fn wf(&self) -> bool {
        &&& self.defs.wf()
        &&& self.public.wf()
        &&& self.in_test.wf()
        &&& self.types.wf()
        &&& self.spans.wf()
        &&& self.nodes.wf()
        &&& self.fn_returns.wf()
        &&& self.fn_errors.wf()
        &&& self.typeref_keys.wf()
        &&& self.node_keys.wf()
        &&& self.call_keys.wf()
        &&& self.impl_keys.wf()
        &&& self.def_handles.wf()
    }

    pub fn new() -> (r: Self)
        ensures
            r.wf(),
            r@ == HostView::fresh(),
    {
        DeterministicRaHost {
            world_stamp: WorldStamp::new("ra-host"),
            control_max_depth: DEFAULT_CONTROL_DEPTH,
            defs: IdMap::new(),
            public: IdMap::new(),
            in_test: IdMap::new(),
            types: IdMap::new(),
            spans: IdMap::new(),
            nodes: IdMap::new(),
            fn_returns: IdMap::new(),
            fn_errors: IdMap::new(),
            typeref_keys: IdMap::new(),
            node_keys: IdMap::new(),
            call_keys: IdMap::new(),
            impl_keys: IdMap::new(),
            def_handles: IdMap::new(),
            fields: Relation::new(),
            variants: Relation::new(),
            methods: Relation::new(),
            trait_methods: Relation::new(),
            implements: Relation::new(),
            from_impls: Relation::new(),
            call_edges: Relation::new(),
            constructs: Relation::new(),
            propagates: Relation::new(),
            converts: Relation::new(),
            handles: Relation::new(),
            compares: Relation::new(),
            writes: Relation::new(),
        }
    }

    /// Names the state of the world that is indexed.
    pub fn set_world_stamp(&mut self, stamp: WorldStamp)
        requires
            old(self).wf(),
        ensures
            final(self).wf(),
            final(self)@ == (HostView { world_stamp: stamp@, ..old(self)@ }),
    {
        self.world_stamp = stamp;
    }

    /// Sets how deep control constructs are looked for.
    pub fn set_control_max_depth(&mut self, depth: u32)
        requires
            old(self).wf(),
        ensures
            final(self).wf(),
            final(self)@ == (HostView { control_max_depth: depth, ..old(self)@ }),
    {
        self.control_max_depth = depth;
    }

    /// Tells a definition, in place of what was told of it.
    pub fn insert_def(&mut self, def: DefId, name: &str, kind: DefKind, span: SpanId, path: &str)
        requires
            old(self).wf(),
        ensures
            final(self).wf(),
            final(self)@ == (HostView {
                defs: old(self)@.defs.insert(
                    def@,
                    DefRecordView { name: name@, kind, span: span@, path: path@ },
                ),
                ..old(self)@
            }),
    {
        self.defs.insert(
            def.stable_id().as_u64(),
            DefRecord { name: owned(name), kind, span, path: owned(path) },
        );
    }

    /// Tells whether a definition is public.
    pub fn mark_public(&mut self, def: DefId, public: bool)
        requires
            old(self).wf(),
        ensures
            final(self).wf(),
            final(self)@ == (HostView {
                public: old(self)@.public.insert(def@, public),
                ..old(self)@
            }),
    {
        self.public.insert(def.stable_id().as_u64(), public);
    }

    /// Tells whether a definition is test code.
    pub fn mark_in_test(&mut self, def: DefId, in_test: bool)
        requires
            old(self).wf(),
        ensures
            final(self).wf(),
            final(self)@ == (HostView {
                in_test: old(self)@.in_test.insert(def@, in_test),
                ..old(self)@
            }),
    {
        self.in_test.insert(def.stable_id().as_u64(), in_test);
    }

    /// Tells the shape of a type.
    pub fn insert_type(&mut self, type_ref: TypeRefId, shape: TypeShape)
        requires
            old(self).wf(),
        ensures
            final(self).wf(),
            final(self)@ == (HostView {
                types: old(self)@.types.insert(type_ref@, shape@),
                ..old(self)@
            }),
    {
        self.types.insert(type_ref.stable_id().as_u64(), shape);
    }

    /// Tells the key of a span.
    pub fn insert_span(&mut self, span: SpanId, key: SpanKey)
        requires
            old(self).wf(),
        ensures
            final(self).wf(),
            final(self)@ == (HostView {
                spans: old(self)@.spans.insert(span@, key@),
                ..old(self)@
            }),
    {
        self.spans.insert(span.stable_id().as_u64(), key);
    }

    /// Tells a syntax node.
    pub fn insert_node(
        &mut self,
        node: NodeId,
        kind: NodeKind,
        span: SpanId,
        parent: Option<NodeId>,
    )
        requires
            old(self).wf(),
        ensures
            final(self).wf(),
            final(self)@ == (HostView {
                nodes: old(self)@.nodes.insert(
                    node@,
                    NodeRecordView { kind, span: span@, parent: opt_node(parent) },
                ),
                ..old(self)@
            }),
    {
        self.nodes.insert(node.stable_id().as_u64(), NodeRecord { kind, span, parent });
    }

    /// Tells the return type of a function.
    pub fn set_fn_return_type(&mut self, function: DefId, ty: Option<TypeRefId>)
        requires
            old(self).wf(),
        ensures
            final(self).wf(),
            final(self)@ == (HostView {
                fn_returns: old(self)@.fn_returns.insert(function@, opt_type(ty)),
                ..old(self)@
            }),
    {
        self.fn_returns.insert(function.stable_id().as_u64(), OptType(ty));
    }

    /// Tells the error type of a function.
    pub fn set_fn_error_type(&mut self, function: DefId, error: Option<DefId>)
        requires
            old(self).wf(),
        ensures
            final(self).wf(),
            final(self)@ == (HostView {
                fn_errors: old(self)@.fn_errors.insert(function@, opt_def(error)),
                ..old(self)@
            }),
    {
        self.fn_errors.insert(function.stable_id().as_u64(), OptDef(error));
    }

    /// Gives a type a stable key of its own.
    pub fn insert_typeref_id(&mut self, type_ref: TypeRefId, key: &str)
        requires
            old(self).wf(),
        ensures
            final(self).wf(),
            final(self)@ == (HostView {
                typeref_keys: old(self)@.typeref_keys.insert(type_ref@, key@),
                ..old(self)@
            }),
    {
        self.typeref_keys.insert(type_ref.stable_id().as_u64(), owned(key));
    }

    /// Gives a node a stable key of its own.
    pub fn insert_node_id(&mut self, node: NodeId, key: &str)
        requires
            old(self).wf(),
        ensures
            final(self).wf(),
            final(self)@ == (HostView {
                node_keys: old(self)@.node_keys.insert(node@, key@),
                ..old(self)@
            }),
    {
        self.node_keys.insert(node.stable_id().as_u64(), owned(key));
    }

    /// Gives a call a stable key of its own.
    pub fn insert_call_id(&mut self, call: CallId, key: &str)
        requires
            old(self).wf(),
        ensures
            final(self).wf(),
            final(self)@ == (HostView {
                call_keys: old(self)@.call_keys.insert(call@, key@),
                ..old(self)@
            }),
    {
        self.call_keys.insert(call.stable_id().as_u64(), owned(key));
    }

    /// Gives an impl a stable key of its own.
    pub fn insert_impl_id(&mut self, implementation: ImplId, key: &str)
        requires
            old(self).wf(),
        ensures
            final(self).wf(),
            final(self)@ == (HostView {
                impl_keys: old(self)@.impl_keys.insert(implementation@, key@),
                ..old(self)@
            }),
    {
        self.impl_keys.insert(implementation.stable_id().as_u64(), owned(key));
    }

    /// Gives a definition a handle of its own.
    pub fn insert_handle(&mut self, def: DefId, key: &str)
        requires
            old(self).wf(),
        ensures
            final(self).wf(),
            final(self)@ == (HostView {
                def_handles: old(self)@.def_handles.insert(def@, key@),
                ..old(self)@
            }),
    {
        self.def_handles.insert(def.stable_id().as_u64(), owned(key));
    }

    /// Tells a field.
    pub fn insert_field(&mut self, owner: DefId, name: &str, ty: TypeRefId)
        requires
            old(self).wf(),
        ensures
            final(self).wf(),
            final(self)@ == (HostView {
                fields: with_row(
                    old(self)@.fields,
                    FieldView {
                        owner: owner@,
                        name: name@,
                        ty: ty@,
                    },
                ),
                ..old(self)@
            }),
    {
        self.fields.insert(FieldRow { owner, name: owned(name), ty });
    }

    /// Tells a variant of an enum.
    pub fn insert_variant(&mut self, owner: DefId, name: &str, variant: DefId)
        requires
            old(self).wf(),
        ensures
            final(self).wf(),
            final(self)@ == (HostView {
                variants: with_row(
                    old(self)@.variants,
                    VariantView {
                        owner: owner@,
                        name: name@,
                        variant: variant@,
                    },
                ),
                ..old(self)@
            }),
    {
        self.variants.insert(VariantRow { owner, name: owned(name), variant });
    }

    /// Tells a method of a type.
    pub fn insert_method(&mut self, owner: DefId, method: DefId)
        requires
            old(self).wf(),
        ensures
            final(self).wf(),
            final(self)@ == (HostView {
                methods: with_row(
                    old(self)@.methods,
                    MethodView {
                        owner: owner@,
                        method: method@,
                    },
                ),
                ..old(self)@
            }),
    {
        self.methods.insert(MethodRow { owner, method });
    }

    /// Tells a method of a trait.
    pub fn insert_trait_method(&mut self, owner: DefId, method: DefId)
        requires
            old(self).wf(),
        ensures
            final(self).wf(),
            final(self)@ == (HostView {
                trait_methods: with_row(
                    old(self)@.trait_methods,
                    MethodView {
                        owner: owner@,
                        method: method@,
                    },
                ),
                ..old(self)@
            }),
    {
        self.trait_methods.insert(MethodRow { owner, method });
    }

    /// Tells that a type implements a trait.
    pub fn insert_implements(&mut self, owner: DefId, trait_def: DefId, impl_def: DefId)
        requires
            old(self).wf(),
        ensures
            final(self).wf(),
            final(self)@ == (HostView {
                implements: with_row(
                    old(self)@.implements,
                    ImplementsView {
                        owner: owner@,
                        trait_def: trait_def@,
                        impl_def: impl_def@,
                    },
                ),
                ..old(self)@
            }),
    {
        self.implements.insert(ImplementsRow { owner, trait_def, impl_def });
    }

    /// Tells that a type converts into another.
    pub fn insert_from_impl(&mut self, source: DefId, target: DefId, impl_def: DefId)
        requires
            old(self).wf(),
        ensures
            final(self).wf(),
            final(self)@ == (HostView {
                from_impls: with_row(
                    old(self)@.from_impls,
                    FromImplView {
                        source: source@,
                        target: target@,
                        impl_def: impl_def@,
                    },
                ),
                ..old(self)@
            }),
    {
        self.from_impls.insert(FromImplRow { source, target, impl_def });
    }

    /// Tells a call.
    pub fn insert_call_edge(
        &mut self,
        caller: DefId,
        callee: DefId,
        site: SpanId,
        dispatch: DispatchKind,
    )
        requires
            old(self).wf(),
        ensures
            final(self).wf(),
            final(self)@ == (HostView {
                call_edges: with_row(
                    old(self)@.call_edges,
                    CallEdgeView {
                        caller: caller@,
                        callee: callee@,
                        site: site@,
                        dispatch,
                    },
                ),
                ..old(self)@
            }),
    {
        self.call_edges.insert(CallEdgeRow { caller, callee, site, dispatch });
    }

    /// Tells where a function builds a variant of its error.
    pub fn insert_construct(&mut self, error: DefId, variant: &str, site: SpanId, function: DefId)
        requires
            old(self).wf(),
        ensures
            final(self).wf(),
            final(self)@ == (HostView {
                constructs: with_row(
                    old(self)@.constructs,
                    ConstructView {
                        error: error@,
                        variant: variant@,
                        site: site@,
                        function: function@,
                    },
                ),
                ..old(self)@
            }),
    {
        self.constructs.insert(ConstructRow { error, variant: owned(variant), site, function });
    }

    /// Tells where a function passes its error on.
    pub fn insert_propagate(&mut self, error: DefId, site: SpanId, function: DefId)
        requires
            old(self).wf(),
        ensures
            final(self).wf(),
            final(self)@ == (HostView {
                propagates: with_row(
                    old(self)@.propagates,
                    PropagateView {
                        error: error@,
                        site: site@,
                        function: function@,
                    },
                ),
                ..old(self)@
            }),
    {
        self.propagates.insert(PropagateRow { error, site, function });
    }

    /// Tells where a function turns one error into another.
    pub fn insert_convert(&mut self, source: DefId, target: DefId, site: SpanId, function: DefId)
        requires
            old(self).wf(),
        ensures
            final(self).wf(),
            final(self)@ == (HostView {
                converts: with_row(
                    old(self)@.converts,
                    ConvertView {
                        source: source@,
                        target: target@,
                        site: site@,
                        function: function@,
                    },
                ),
                ..old(self)@
            }),
    {
        self.converts.insert(ConvertRow { source, target, site, function });
    }

    /// Tells where a function handles an error.
    pub fn insert_handle_error(
        &mut self,
        error: DefId,
        variant: Option<String>,
        site: SpanId,
        function: DefId,
    )
        requires
            old(self).wf(),
        ensures
            final(self).wf(),
            final(self)@ == (HostView {
                handles: with_row(
                    old(self)@.handles,
                    HandleView {
                        error: error@,
                        variant: crate::ra::rows::opt_text(variant),
                        site: site@,
                        function: function@,
                    },
                ),
                ..old(self)@
            }),
    {
        self.handles.insert(HandleRow { error, variant, site, function });
    }

    /// Tells where a function compares its error.
    pub fn insert_compare(&mut self, error: DefId, site: SpanId, operator: &str, function: DefId)
        requires
            old(self).wf(),
        ensures
            final(self).wf(),
            final(self)@ == (HostView {
                compares: with_row(
                    old(self)@.compares,
                    CompareView {
                        error: error@,
                        site: site@,
                        operator: operator@,
                        function: function@,
                    },
                ),
                ..old(self)@
            }),
    {
        self.compares.insert(CompareRow { error, site, operator: owned(operator), function });
    }

    /// Tells where a function assigns its error.
    pub fn insert_write(&mut self, error: DefId, site: SpanId, function: DefId)
        requires
            old(self).wf(),
        ensures
            final(self).wf(),
            final(self)@ == (HostView {
                writes: with_row(
                    old(self)@.writes,
                    WriteView {
                        error: error@,
                        site: site@,
                        function: function@,
                    },
                ),
                ..old(self)@
            }),
    {
        self.writes.insert(WriteRow { error, site, function });
    }

}

/// The key of a span that has been told none.
pub open spec fn fallback_span_key(raw: u64) -> SpanKeyView {
    SpanKeyView {
        rel_path: "ra/fallback/"@ + hex_digits(raw as nat, 16) + ".rs"@,
        start: (0, 0),
        end: (0, 0),
    }
}

/// The handle of a definition that has been told nothing of.
pub open spec fn fallback_handle(raw: u64) -> Seq<char> {
    "ra-host:fallback:handle:"@ + stable_id_text(raw)
}

/// How wide a span is, narrower spans first: its lines, its columns where it
/// has one line, then where it starts.
pub open spec fn specificity(key: SpanKeyView) -> (u32, u32, u32, u32) {
    let lines = if key.end.0 >= key.start.0 {
        (key.end.0 - key.start.0) as u32
    } else {
        0
    };
    let columns = if lines != 0 {
        u32::MAX
    } else if key.end.1 >= key.start.1 {
        (key.end.1 - key.start.1) as u32
    } else {
        0
    };
    (lines, columns, key.start.0, key.start.1)
}

/// The order of four numbers, the first that differs deciding.
pub open spec fn quad_before(a: (u32, u32, u32, u32), b: (u32, u32, u32, u32)) -> bool {
    a.0 < b.0 || (a.0 == b.0 && (a.1 < b.1 || (a.1 == b.1 && (a.2 < b.2 || (a.2 == b.2 && a.3
        < b.3)))))
}

/// A place is not after another.
pub open spec fn coord_at_most(a: (u32, u32), b: (u32, u32)) -> bool {
    a.0 < b.0 || (a.0 == b.0 && a.1 <= b.1)
}

/// A span lies inside another of the same file.
pub open spec fn covers(outer: SpanKeyView, inner: SpanKeyView) -> bool {
    outer.rel_path == inner.rel_path && coord_at_most(outer.start, inner.start) && coord_at_most(
        inner.end,
        outer.end,
    )
}

impl HostView {
    /// The key of a span.
    pub open spec fn span_key_of(self, raw: u64) -> SpanKeyView {
        if self.spans.contains_key(raw) {
            self.spans[raw]
        } else {
            fallback_span_key(raw)
        }
    }

    /// The stable key of a node.
    pub open spec fn node_key_of(self, raw: u64) -> Seq<char> {
        if self.node_keys.contains_key(raw) {
            self.node_keys[raw]
        } else {
            "node_id:"@ + stable_id_text(raw)
        }
    }

    /// The stable key of a type.
    pub open spec fn type_key_of(self, raw: u64) -> Seq<char> {
        if self.typeref_keys.contains_key(raw) {
            self.typeref_keys[raw]
        } else {
            "typeref_id:"@ + stable_id_text(raw)
        }
    }

    /// The stable key of a call.
    pub open spec fn call_key_of(self, raw: u64) -> Seq<char> {
        if self.call_keys.contains_key(raw) {
            self.call_keys[raw]
        } else {
            "call_id:"@ + stable_id_text(raw)
        }
    }

    /// The stable key of an impl.
    pub open spec fn impl_key_of(self, raw: u64) -> Seq<char> {
        if self.impl_keys.contains_key(raw) {
            self.impl_keys[raw]
        } else {
            "impl_id:"@ + stable_id_text(raw)
        }
    }

    /// The path of a definition.
    pub open spec fn path_of(self, raw: u64) -> Seq<char> {
        if self.defs.contains_key(raw) {
            self.defs[raw].path
        } else {
            fallback_handle(raw)
        }
    }

    /// The kind of a definition.
    pub open spec fn kind_of(self, raw: u64) -> DefKind {
        if self.defs.contains_key(raw) {
            self.defs[raw].kind
        } else {
            DefKind::Other
        }
    }

    /// The handle of a definition.
    pub open spec fn handle_of(self, raw: u64) -> Seq<char> {
        if self.def_handles.contains_key(raw) {
            self.def_handles[raw]
        } else if self.defs.contains_key(raw) {
            "def://"@ + self.defs[raw].path
        } else {
            fallback_handle(raw)
        }
    }

    /// The node lies around the span.
    pub open spec fn around(self, span: u64, node: u64) -> bool {
        self.nodes.contains_key(node) && covers(
            self.span_key_of(self.nodes[node].span),
            self.span_key_of(span),
        )
    }

    /// One node is a closer answer than another: narrower, or of the same
    /// extent with the earlier stable key.
    pub open spec fn closer(self, a: u64, b: u64) -> bool {
        let x = specificity(self.span_key_of(self.nodes[a].span));
        let y = specificity(self.span_key_of(self.nodes[b].span));
        quad_before(x, y) || (x == y && text_before(self.node_key_of(a), self.node_key_of(b)))
    }

    /// The node is the answer to what stands at the span: no node around the
    /// span is closer, and of those that are as close it has the smallest id.
    pub open spec fn is_node_at(self, span: u64, node: u64) -> bool {
        &&& self.around(span, node)
        &&& forall|other: u64| #[trigger]
            self.around(span, other) ==> !self.closer(other, node) && (self.closer(node, other)
                || node <= other)
    }

    /// The first control construct from a node up its parents, at most `budget`
    /// steps away; `walked` steps were made before.
    pub open spec fn control_from(self, node: u64, walked: nat, budget: nat) -> Option<
        (NodeKind, u64, nat),
    >
        decreases budget,
    {
        if !self.nodes.contains_key(node) {
            None
        } else if is_control(self.nodes[node].kind) {
            Some((self.nodes[node].kind, self.nodes[node].span, walked))
        } else if budget == 0 {
            None
        } else {
            match self.nodes[node].parent {
                Some(parent) => self.control_from(parent, walked + 1, (budget - 1) as nat),
                None => None,
            }
        }
    }
}

/// The four numbers of [`specificity`].
pub fn span_specificity(key: &SpanKey) -> (r: (u32, u32, u32, u32))
    ensures
        r == specificity(key@),
{
    let l0: u32 = key.start().line();
    let l1: u32 = key.end().line();
    let c0: u32 = key.start().column();
    let c1: u32 = key.end().column();
    let lines: u32 = if l1 >= l0 {
        l1 - l0
    } else {
        0
    };
    let columns: u32 = if lines != 0 {
        u32::MAX
    } else if c1 >= c0 {
        c1 - c0
    } else {
        0
    };
    (lines, columns, l0, c0)
}

fn quad_less(a: (u32, u32, u32, u32), b: (u32, u32, u32, u32)) -> (r: bool)
    ensures
        r == quad_before(a, b),
{
    a.0 < b.0 || (a.0 == b.0 && (a.1 < b.1 || (a.1 == b.1 && (a.2 < b.2 || (a.2 == b.2 && a.3
        < b.3)))))
}

fn coord_not_after(a: SpanCoord, b: SpanCoord) -> (r: bool)
    ensures
        r == coord_at_most(a@, b@),
{
    a.line() < b.line() || (a.line() == b.line() && a.column() <= b.column())
}

/// Whether a span lies inside another of the same file.
pub fn key_covers(outer: &SpanKey, inner: &SpanKey) -> (r: bool)
    ensures
        r == covers(outer@, inner@),
{
    crate::text::str_eq(outer.rel_path(), inner.rel_path()) && coord_not_after(
        outer.start(),
        inner.start(),
    ) && coord_not_after(inner.end(), outer.end())
}

/// What is found around a node is a control construct, and no further away than
/// asked.
pub proof fn law_controls_lie_within_the_depth(
    host: HostView,
    node: u64,
    walked: nat,
    budget: nat,
)
    ensures
        match host.control_from(node, walked, budget) {
            Some((kind, _, distance)) => is_control(kind) && walked <= distance <= walked
                + budget,
            None => true,
        },
    decreases budget,
{
    if budget > 0 && host.nodes.contains_key(node) {
        match host.nodes[node].parent {
            Some(parent) => law_controls_lie_within_the_depth(
                host,
                parent,
                walked + 1,
                (budget - 1) as nat,
            ),
            None => {},
        }
    }
}

/// Looking deeper changes no answer that has been found.
pub proof fn law_looking_deeper_keeps_answers(
    host: HostView,
    node: u64,
    walked: nat,
    budget: nat,
    deeper: nat,
)
    requires
        budget <= deeper,
        host.control_from(node, walked, budget) is Some,
    ensures
        host.control_from(node, walked, deeper) == host.control_from(node, walked, budget),
    decreases budget,
{
    if budget > 0 && !is_control(host.nodes[node].kind) {
        match host.nodes[node].parent {
            Some(parent) => law_looking_deeper_keeps_answers(
                host,
                parent,
                walked + 1,
                (budget - 1) as nat,
                (deeper - 1) as nat,
            ),
            None => {},
        }
    }
}

/// At most one node is the answer to what stands at a span.
pub proof fn law_node_at_is_unique(host: HostView, span: u64, a: u64, b: u64)
    requires
        host.is_node_at(span, a),
        host.is_node_at(span, b),
    ensures
        a == b,
{
}

/// Closeness is an order: it carries over, and of two nodes with different keys
/// one is closer.
proof fn lemma_closer(host: HostView, a: u64, b: u64, c: u64)
    ensures
        !host.closer(a, a),
        host.closer(a, b) && host.closer(b, c) ==> host.closer(a, c),
        host.closer(a, b) ==> !host.closer(b, a),
        host.closer(a, b) ==> host.closer(a, c) || host.closer(c, b),
{
    let x = host.node_key_of(a);
    let y = host.node_key_of(b);
    let z = host.node_key_of(c);
    lemma_text_irreflexive(x);
    lemma_text_irreflexive(y);
    if text_before(x, y) && text_before(y, z) {
        lemma_text_transitive(x, y, z);
    }
    if text_before(x, y) && text_before(y, x) {
        lemma_text_transitive(x, y, x);
    }
    lemma_text_total(x, z);
    if text_before(x, y) && text_before(z, x) {
        lemma_text_transitive(z, x, y);
    }
}

impl DeterministicRaHost {
    pub fn world_stamp(&self) -> (r: WorldStamp)
        ensures
            r@ == self@.world_stamp,
    {
        WorldStamp::new(self.world_stamp.as_str())
    }

    /// How deep control constructs are looked for.
    pub fn control_max_depth(&self) -> (r: u32)
        ensures
            r == self@.control_max_depth,
    {
        self.control_max_depth
    }

    /// The id of the definition that a token stands for.
    pub fn intern_def_from_token(&self, token: &str) -> (r: DefId)
        ensures
            r@ == derived_id("def"@, token@),
    {
        DefId::new(deterministic_stable_id("def", token))
    }

    /// The id of the type that a token stands for.
    pub fn intern_typeref_from_token(&self, token: &str) -> (r: TypeRefId)
        ensures
            r@ == derived_id("typeref"@, token@),
    {
        TypeRefId::new(deterministic_stable_id("typeref", token))
    }

    /// Makes a range of a file's text a span, if it cuts the text at characters.
    pub fn intern_span_from_text(
        &mut self,
        file_id: EditionedFileId,
        rel_path: &str,
        source_text: &str,
        start: u32,
        end: u32,
    ) -> (r: Result<SpanId, RaHostError>)
        requires
            old(self).wf(),
            indexable(source_text@),
        ensures
            final(self).wf(),
            match key_in_text(rel_path@, source_text@, start, end) {
                Some(key) => r is Ok && (r->Ok_0)@ == span_id_of(file_id, start, end)
                    && final(self)@ == (HostView {
                    spans: old(self)@.spans.insert(span_id_of(file_id, start, end), key),
                    ..old(self)@
                }),
                None => r is Err && final(self)@ == old(self)@ && match r->Err_0 {
                    RaHostError::InvalidSpanRange { rel_path: path, start: from, end: to, len } =>
                    path@ == rel_path@ && from == start && to == end && len == byte_len(
                        source_text@,
                    ),
                },
            },
    {
        match lookup_span_key_from_text(rel_path, source_text, start, end) {
            Some(key) => {
                let span = span_of_place(file_id, start, end);
                self.insert_span(span, key);
                Ok(span)
            },
            None => {
                let len: usize = source_text.as_bytes().len();
                Err(
                    RaHostError::InvalidSpanRange {
                        rel_path: owned(rel_path),
                        start,
                        end,
                        len: len as u64,
                    },
                )
            },
        }
    }

    /// Whether a definition has been told.
    pub fn has_def(&self, def: DefId) -> (r: bool)
        requires
            self.wf(),
        ensures
            r == self@.defs.contains_key(def@),
    {
        self.defs.contains(def.stable_id().as_u64())
    }

    /// What has been told of a definition.
    pub fn def_record(&self, def: DefId) -> (r: Option<&DefRecord>)
        requires
            self.wf(),
        ensures
            match r {
                Some(record) => self@.defs.contains_key(def@) && record@ == self@.defs[def@],
                None => !self@.defs.contains_key(def@),
            },
    {
        self.defs.get(def.stable_id().as_u64())
    }

    /// The shape of a type.
    pub fn type_shape(&self, type_ref: TypeRefId) -> (r: Option<&TypeShape>)
        requires
            self.wf(),
        ensures
            match r {
                Some(shape) => self@.types.contains_key(type_ref@) && shape@
                    == self@.types[type_ref@],
                None => !self@.types.contains_key(type_ref@),
            },
    {
        self.types.get(type_ref.stable_id().as_u64())
    }

    /// The path of a definition.
    pub fn def_path_for(&self, def: DefId) -> (r: String)
        requires
            self.wf(),
        ensures
            r@ == self@.path_of(def@),
    {
        match self.defs.get(def.stable_id().as_u64()) {
            Some(record) => owned(record.path.as_str()),
            None => cat2("ra-host:fallback:handle:", def.stable_id().to_text().as_str()),
        }
    }

    /// The kind of a definition.
    pub fn def_kind_for(&self, def: DefId) -> (r: DefKind)
        requires
            self.wf(),
        ensures
            r == self@.kind_of(def@),
    {
        match self.defs.get(def.stable_id().as_u64()) {
            Some(record) => record.kind,
            None => DefKind::Other,
        }
    }

    /// The handle of a definition.
    pub fn handle(&self, def: DefId) -> (r: StableHandle)
        requires
            self.wf(),
        ensures
            r@ == self@.handle_of(def@),
    {
        match self.def_handles.get(def.stable_id().as_u64()) {
            Some(handle) => {
                return StableHandle::new(handle.as_str());
            },
            None => {},
        }
        let text = match self.defs.get(def.stable_id().as_u64()) {
            Some(record) => cat2("def://", record.path.as_str()),
            None => cat2("ra-host:fallback:handle:", def.stable_id().to_text().as_str()),
        };
        StableHandle::new(text.as_str())
    }

    /// Whether a definition is public, where that has been told.
    pub fn is_public(&self, def: DefId) -> (r: Option<bool>)
        requires
            self.wf(),
        ensures
            match r {
                Some(public) => self@.public.contains_key(def@) && public == self@.public[def@],
                None => !self@.public.contains_key(def@),
            },
    {
        match self.public.get(def.stable_id().as_u64()) {
            Some(public) => Some(*public),
            None => None,
        }
    }

    /// Whether a definition is test code, where that has been told.
    pub fn in_test(&self, def: DefId) -> (r: Option<bool>)
        requires
            self.wf(),
        ensures
            match r {
                Some(in_test) => self@.in_test.contains_key(def@) && in_test
                    == self@.in_test[def@],
                None => !self@.in_test.contains_key(def@),
            },
    {
        match self.in_test.get(def.stable_id().as_u64()) {
            Some(in_test) => Some(*in_test),
            None => None,
        }
    }

    /// The key of a span.
    pub fn span_key(&self, span: SpanId) -> (r: SpanKey)
        requires
            self.wf(),
        ensures
            r@ == self@.span_key_of(span@),
    {
        match self.spans.get(span.stable_id().as_u64()) {
            Some(key) => SpanKey::new(key.rel_path(), key.start(), key.end()),
            None => {
                let path = cat3(
                    "ra/fallback/",
                    hex16(span.stable_id().as_u64()).as_str(),
                    ".rs",
                );
                SpanKey::new(path.as_str(), SpanCoord::new(0, 0), SpanCoord::new(0, 0))
            },
        }
    }

    /// The stable key of a type.
    pub fn typeref_id(&self, type_ref: TypeRefId) -> (r: StableHandle)
        requires
            self.wf(),
        ensures
            r@ == self@.type_key_of(type_ref@),
    {
        match self.typeref_keys.get(type_ref.stable_id().as_u64()) {
            Some(key) => StableHandle::new(key.as_str()),
            None => StableHandle::new(
                cat2("typeref_id:", type_ref.stable_id().to_text().as_str()).as_str(),
            ),
        }
    }

    /// The stable key of a node.
    pub fn node_id(&self, node: NodeId) -> (r: StableHandle)
        requires
            self.wf(),
        ensures
            r@ == self@.node_key_of(node@),
    {
        match self.node_keys.get(node.stable_id().as_u64()) {
            Some(key) => StableHandle::new(key.as_str()),
            None => StableHandle::new(
                cat2("node_id:", node.stable_id().to_text().as_str()).as_str(),
            ),
        }
    }

    /// The stable key of a call.
    pub fn call_id(&self, call: CallId) -> (r: StableHandle)
        requires
            self.wf(),
        ensures
            r@ == self@.call_key_of(call@),
    {
        match self.call_keys.get(call.stable_id().as_u64()) {
            Some(key) => StableHandle::new(key.as_str()),
            None => StableHandle::new(
                cat2("call_id:", call.stable_id().to_text().as_str()).as_str(),
            ),
        }
    }

    /// The stable key of an impl.
    pub fn impl_id(&self, implementation: ImplId) -> (r: StableHandle)
        requires
            self.wf(),
        ensures
            r@ == self@.impl_key_of(implementation@),
    {
        match self.impl_keys.get(implementation.stable_id().as_u64()) {
            Some(key) => StableHandle::new(key.as_str()),
            None => StableHandle::new(
                cat2("impl_id:", implementation.stable_id().to_text().as_str()).as_str(),
            ),
        }
    }

    pub fn node_kind(&self, node: NodeId) -> (r: Option<NodeKind>)
        requires
            self.wf(),
        ensures
            match r {
                Some(kind) => self@.nodes.contains_key(node@) && kind == self@.nodes[node@].kind,
                None => !self@.nodes.contains_key(node@),
            },
    {
        match self.nodes.get(node.stable_id().as_u64()) {
            Some(record) => Some(record.kind),
            None => None,
        }
    }

    pub fn node_span(&self, node: NodeId) -> (r: Option<SpanId>)
        requires
            self.wf(),
        ensures
            match r {
                Some(span) => self@.nodes.contains_key(node@) && span@ == self@.nodes[node@].span,
                None => !self@.nodes.contains_key(node@),
            },
    {
        match self.nodes.get(node.stable_id().as_u64()) {
            Some(record) => Some(record.span),
            None => None,
        }
    }

    /// The parent of a node: nothing for an unknown node, no parent for a root.
    pub fn node_parent(&self, node: NodeId) -> (r: Option<Option<NodeId>>)
        requires
            self.wf(),
        ensures
            match r {
                Some(parent) => self@.nodes.contains_key(node@) && opt_node(parent)
                    == self@.nodes[node@].parent,
                None => !self@.nodes.contains_key(node@),
            },
    {
        match self.nodes.get(node.stable_id().as_u64()) {
            Some(record) => Some(record.parent),
            None => None,
        }
    }

    /// Whether a node is a closer answer than another.
    fn is_closer(&self, a: NodeId, b: NodeId) -> (r: bool)
        requires
            self.wf(),
            self@.nodes.contains_key(a@),
            self@.nodes.contains_key(b@),
        ensures
            r == self@.closer(a@, b@),
    {
        match (self.node_span(a), self.node_span(b)) {
            (Some(first), Some(second)) => {
                let x = span_specificity(&self.span_key(first));
                let y = span_specificity(&self.span_key(second));
                if quad_less(x, y) {
                    return true;
                }
                x.0 == y.0 && x.1 == y.1 && x.2 == y.2 && x.3 == y.3 && text_less(
                    self.node_id(a).as_str(),
                    self.node_id(b).as_str(),
                )
            },
            _ => false,
        }
    }

    /// The closest node around a span.
    pub fn node_at(&self, span: SpanId) -> (r: Option<NodeId>)
        requires
            self.wf(),
        ensures
            match r {
                Some(node) => self@.is_node_at(span@, node@),
                None => forall|node: u64| !#[trigger] self@.around(span@, node),
            },
    {
        let wanted = self.span_key(span);
        let mut best: Option<NodeId> = None;
        let mut i: usize = 0;
        let ghost keys = self.nodes.keys();
        let ghost view = self@;
        proof {
            self.nodes.lemma_keys();
        }
        while i < self.nodes.len()
            invariant
                self.wf(),
                view == self@,
                keys == self.nodes.keys(),
                ascending(keys),
                i <= keys.len(),
                wanted@ == view.span_key_of(span@),
                forall|k: int| 0 <= k < keys.len() ==> view.nodes.contains_key(#[trigger] keys[k]),
                forall|n: u64| #[trigger] view.nodes.contains_key(n) ==> keys.contains(n),
                match best {
                    Some(node) => {
                        &&& view.around(span@, node@)
                        &&& exists|k: int| 0 <= k < i && #[trigger] keys[k] == node@
                        &&& forall|k: int|
                            0 <= k < i && view.around(span@, #[trigger] keys[k])
                                ==> !view.closer(keys[k], node@) && (view.closer(node@, keys[k])
                                || node@ <= keys[k])
                    },
                    None => forall|k: int|
                        0 <= k < i ==> !view.around(span@, #[trigger] keys[k]),
                },
            decreases keys.len() - i,
        {
            let node = NodeId::new(StableId::new(self.nodes.key_at(i)));
            let record = self.nodes.value_at(i);
            let around = key_covers(&self.span_key(record.span), &wanted);
            assert(around == view.around(span@, node@));
            if around {
                match best {
                    Some(held) => {
                        let closer = self.is_closer(node, held);
                        proof {
                            lemma_closer(view, node@, held@, node@);
                            assert forall|k: int|
                                0 <= k < i && view.around(span@, #[trigger] keys[k]) implies (closer
                                ==> !view.closer(keys[k], node@) && (view.closer(node@, keys[k])
                                || node@ <= keys[k])) by {
                                lemma_closer(view, keys[k], node@, held@);
                                lemma_closer(view, node@, held@, keys[k]);
                                lemma_closer(view, held@, keys[k], node@);
                                lemma_closer(view, node@, keys[k], held@);
                            }
                            assert(keys[i as int] == node@);
                        }
                        if closer {
                            best = Some(node);
                        }
                    },
                    None => {
                        proof {
                            lemma_closer(view, node@, node@, node@);
                            assert(keys[i as int] == node@);
                        }
                        best = Some(node);
                    },
                }
            }
            i += 1;
        }
        proof {
            assert forall|n: u64| #[trigger] view.around(span@, n) implies exists|k: int|
                0 <= k < keys.len() && #[trigger] keys[k] == n by {
                assert(keys.contains(n));
            }
        }
        best
    }

    /// The nearest control construct around a span, at most `max_depth` steps
    /// up from the closest node.
    pub fn enclosing_control_with_depth(&self, span: SpanId, max_depth: u32) -> (r: Option<
        EnclosingControl,
    >)
        requires
            self.wf(),
        ensures
            forall|node: u64| #[trigger]
                self@.is_node_at(span@, node) ==> match r {
                    Some(control) => self@.control_from(node, 0, max_depth as nat) == Some(
                        (control.kind, control.span@, control.distance as nat),
                    ),
                    None => self@.control_from(node, 0, max_depth as nat) is None,
                },
            (forall|node: u64| !#[trigger] self@.around(span@, node)) ==> r is None,
    {
        let start = match self.node_at(span) {
            Some(node) => node,
            None => {
                return None;
            },
        };
        let ghost view = self@;
        proof {
            assert forall|node: u64| #[trigger] view.is_node_at(span@, node) implies node
                == start@ by {
                law_node_at_is_unique(view, span@, node, start@);
            }
        }
        let mut node = start;
        let mut walked: u32 = 0;
        loop
            invariant
                self.wf(),
                view == self@,
                walked <= max_depth,
                view.is_node_at(span@, start@),
                forall|n: u64| #[trigger] view.is_node_at(span@, n) ==> n == start@,
                view.control_from(start@, 0, max_depth as nat) == view.control_from(
                    node@,
                    walked as nat,
                    (max_depth - walked) as nat,
                ),
            decreases max_depth - walked,
        {
            let record = match self.nodes.get(node.stable_id().as_u64()) {
                Some(record) => *record,
                None => {
                    return None;
                },
            };
            if is_control_kind(record.kind) {
                return Some(
                    EnclosingControl { kind: record.kind, span: record.span, distance: walked },
                );
            }
            if walked == max_depth {
                return None;
            }
            match record.parent {
                Some(parent) => {
                    node = parent;
                    walked += 1;
                },
                None => {
                    return None;
                },
            }
        }
    }

    /// The nearest control construct around a span, as deep as the index looks.
    pub fn enclosing_control(&self, span: SpanId) -> (r: Option<EnclosingControl>)
        requires
            self.wf(),
        ensures
            forall|node: u64| #[trigger]
                self@.is_node_at(span@, node) ==> match r {
                    Some(control) => self@.control_from(
                        node,
                        0,
                        self@.control_max_depth as nat,
                    ) == Some((control.kind, control.span@, control.distance as nat)),
                    None => self@.control_from(node, 0, self@.control_max_depth as nat) is None,
                },
            (forall|node: u64| !#[trigger] self@.around(span@, node)) ==> r is None,
    {
        self.enclosing_control_with_depth(span, self.control_max_depth)
    }
}

/// The owner that the first row for a method names.
fn first_owner_in(rows: &Relation<MethodRow>, method: DefId) -> (r: Option<DefId>)
    ensures
        opt_def(r) == first_owner(rows@, method@),
{
    let mut i: usize = 0;
    assert(rows@.skip(0) =~= rows@);
    while i < rows.len()
        invariant
            i <= rows@.len(),
            first_owner(rows@, method@) == first_owner(rows@.skip(i as int), method@),
        decreases rows@.len() - i,
    {
        let row = rows.row(i);
        assert(rows@.skip(i as int)[0] == rows@[i as int]);
        if same_def(row.method, method) {
            return Some(row.owner);
        }
        assert(rows@.skip(i as int).drop_first() =~= rows@.skip(i + 1));
        i += 1;
    }
    None
}

/// A stable key of a span as text.
pub open spec fn span_key_text(key: SpanKeyView) -> Seq<char> {
    key.rel_path + ":"@ + decimal(key.start.0 as nat) + ":"@ + decimal(key.start.1 as nat) + "-"@
        + decimal(key.end.0 as nat) + ":"@ + decimal(key.end.1 as nat)
}

/// A stable key of a span as text.
pub fn span_key_to_text(key: &SpanKey) -> (r: String)
    ensures
        r@ == span_key_text(key@),
{
    let mut out = owned(key.rel_path());
    out.append(":");
    out.append(decimal_of(key.start().line() as u64).as_str());
    out.append(":");
    out.append(decimal_of(key.start().column() as u64).as_str());
    out.append("-");
    out.append(decimal_of(key.end().line() as u64).as_str());
    out.append(":");
    out.append(decimal_of(key.end().column() as u64).as_str());
    out
}

impl HostView {
    /// The stable key of an entity, as text.
    pub open spec fn stable_key_of(self, kind: ExternLookupHostValueKind, raw: u64) -> Seq<char> {
        match kind {
            ExternLookupHostValueKind::Def => self.handle_of(raw),
            ExternLookupHostValueKind::Span => span_key_text(self.span_key_of(raw)),
            ExternLookupHostValueKind::TypeRef => self.type_key_of(raw),
            ExternLookupHostValueKind::Node => self.node_key_of(raw),
            ExternLookupHostValueKind::Call => self.call_key_of(raw),
            ExternLookupHostValueKind::Ref => "ref_id:"@ + stable_id_text(raw),
            ExternLookupHostValueKind::Impl => self.impl_key_of(raw),
        }
    }

    /// The span has been told, or is the span of a node.
    pub open spec fn knows_span(self, span: u64) -> bool {
        self.spans.contains_key(span) || exists|node: u64| #[trigger]
            self.nodes.contains_key(node) && self.nodes[node].span == span
    }

    /// The row of the span key relation for a span.
    pub open spec fn span_key_row(self, span: u64) -> Seq<LookupView> {
        let key = self.span_key_of(span);
        seq![
            span_view(span),
            LookupView::Text(key.rel_path),
            LookupView::Number(key.start.0 as i64),
            LookupView::Number(key.start.1 as i64),
            LookupView::Number(key.end.0 as i64),
            LookupView::Number(key.end.1 as i64),
        ]
    }
}

impl DeterministicRaHost {
    /// The type or the trait whose method a definition is.
    pub fn method_owner_for(&self, method: DefId) -> (r: Option<DefId>)
        ensures
            opt_def(r) == self@.method_owner_of(method@),
    {
        match first_owner_in(&self.methods, method) {
            Some(owner) => Some(owner),
            None => first_owner_in(&self.trait_methods, method),
        }
    }

    /// The stable key of an entity, as text.
    pub fn stable_key(&self, value: &ExternLookupHostValue) -> (r: String)
        requires
            self.wf(),
        ensures
            r@ == self@.stable_key_of(value.kind, value.id@),
    {
        let id: StableId = value.stable_id();
        match value.kind() {
            ExternLookupHostValueKind::Def => owned(self.handle(DefId::new(id)).as_str()),
            ExternLookupHostValueKind::Span => span_key_to_text(&self.span_key(SpanId::new(id))),
            ExternLookupHostValueKind::TypeRef => owned(
                self.typeref_id(TypeRefId::new(id)).as_str(),
            ),
            ExternLookupHostValueKind::Node => owned(self.node_id(NodeId::new(id)).as_str()),
            ExternLookupHostValueKind::Call => owned(self.call_id(CallId::new(id)).as_str()),
            ExternLookupHostValueKind::Ref => cat2("ref_id:", id.to_text().as_str()),
            ExternLookupHostValueKind::Impl => owned(self.impl_id(ImplId::new(id)).as_str()),
        }
    }

    /// The known spans, by id.
    fn known_spans(&self) -> (r: IdMap<bool>)
        requires
            self.wf(),
        ensures
            r.wf(),
            forall|span: u64| #[trigger] r@.contains_key(span) <==> self@.knows_span(span),
    {
        let mut out: IdMap<bool> = IdMap::new();
        let mut i: usize = 0;
        let ghost spans = self.spans.keys();
        let ghost nodes = self.nodes.keys();
        proof {
            self.spans.lemma_keys();
            self.nodes.lemma_keys();
        }
        while i < self.spans.len()
            invariant
                self.wf(),
                spans == self.spans.keys(),
                i <= spans.len(),
                out.wf(),
                forall|span: u64| #[trigger]
                    out@.contains_key(span) <==> spans.take(i as int).contains(span),
            decreases spans.len() - i,
        {
            let span = self.spans.key_at(i);
            proof {
                let taken = spans.take(i + 1);
                assert(taken =~= spans.take(i as int).push(span));
                assert forall|s: u64| taken.contains(s) <==> (spans.take(i as int).contains(s) || s
                    == span) by {
                    assert(taken[i as int] == span);
                    if spans.take(i as int).contains(s) {
                        let k = choose|k: int|
                            0 <= k < spans.take(i as int).len() && spans.take(i as int)[k] == s;
                        assert(taken[k] == s);
                    }
                    if taken.contains(s) && s != span {
                        let k = choose|k: int| 0 <= k < taken.len() && taken[k] == s;
                        assert(spans.take(i as int)[k] == s);
                    }
                }
            }
            out.insert(span, true);
            i += 1;
        }
        proof {
            assert(spans.take(i as int) =~= spans);
            assert forall|span: u64| #[trigger] out@.contains_key(span)
                <==> self@.spans.contains_key(span) by {
                if out@.contains_key(span) {
                    let k = choose|k: int| 0 <= k < spans.len() && spans[k] == span;
                    assert(self.spans@.contains_key(spans[k]));
                }
            }
        }
        let mut j: usize = 0;
        while j < self.nodes.len()
            invariant
                self.wf(),
                nodes == self.nodes.keys(),
                j <= nodes.len(),
                out.wf(),
                forall|k: int| 0 <= k < nodes.len() ==> self.nodes@.contains_key(#[trigger] nodes[k]),
                forall|span: u64| #[trigger]
                    out@.contains_key(span) <==> (self@.spans.contains_key(span) || exists|k: int|
                        0 <= k < j && self@.nodes[#[trigger] nodes[k]].span == span),
            decreases nodes.len() - j,
        {
            let record = self.nodes.value_at(j);
            let ghost before = out@;
            out.insert(record.span.stable_id().as_u64(), true);
            proof {
                assert forall|span: u64| #[trigger] out@.contains_key(span) <==> (
                self@.spans.contains_key(span) || exists|k: int|
                    0 <= k < j + 1 && self@.nodes[#[trigger] nodes[k]].span == span) by {
                    assert(self@.nodes[nodes[j as int]].span == record.span@);
                    if before.contains_key(span) && !self@.spans.contains_key(span) {
                        let k = choose|k: int|
                            0 <= k < j && self@.nodes[#[trigger] nodes[k]].span == span;
                        assert(self@.nodes[nodes[k]].span == span);
                    }
                }
            }
            j += 1;
        }
        proof {
            assert forall|span: u64| #[trigger] out@.contains_key(span) <==> self@.knows_span(
                span,
            ) by {
                if self@.knows_span(span) && !self@.spans.contains_key(span) {
                    let node = choose|node: u64| #[trigger]
                        self@.nodes.contains_key(node) && self@.nodes[node].span == span;
                    assert(nodes.contains(node));
                    let k = choose|k: int| 0 <= k < nodes.len() && nodes[k] == node;
                    assert(self@.nodes[nodes[k]].span == span);
                }
                if out@.contains_key(span) && !self@.spans.contains_key(span) {
                    let k = choose|k: int|
                        0 <= k < j && self@.nodes[#[trigger] nodes[k]].span == span;
                    assert(self@.nodes.contains_key(nodes[k]));
                }
            }
        }
        out
    }

    /// The span key relation: a row for each known span, in the order of ids.
    pub fn span_key_rows(&self) -> (r: Vec<Vec<ExternLookupValue>>)
        requires
            self.wf(),
        ensures
            exists|spans: Seq<u64>| #[trigger]
                self@.lists_spans(spans) && rows_view(r@) == spans.map_values(
                    |span: u64| self@.span_key_row(span),
                ),
    {
        let known = self.known_spans();
        let ghost spans = known.keys();
        proof {
            known.lemma_keys();
            assert forall|span: u64| #[trigger] spans.contains(span) <==> self@.knows_span(
                span,
            ) by {
                if spans.contains(span) {
                    let k = choose|k: int| 0 <= k < spans.len() && spans[k] == span;
                    assert(known@.contains_key(spans[k]));
                }
                if self@.knows_span(span) {
                    assert(known@.contains_key(span));
                }
            }
            assert(self@.lists_spans(spans));
        }
        let ghost want = spans.map_values(|span: u64| self@.span_key_row(span));
        let mut out: Vec<Vec<ExternLookupValue>> = Vec::new();
        let mut i: usize = 0;
        assert(rows_view(out@) =~= want.take(0));
        while i < known.len()
            invariant
                self.wf(),
                known.wf(),
                spans == known.keys(),
                i <= spans.len(),
                want == spans.map_values(|span: u64| self@.span_key_row(span)),
                rows_view(out@) == want.take(i as int),
            decreases spans.len() - i,
        {
            let span = SpanId::new(StableId::new(known.key_at(i)));
            let key = self.span_key(span);
            let row = vec![
                span_value(span),
                text_value(key.rel_path()),
                ExternLookupValue::Number(key.start().line() as i64),
                ExternLookupValue::Number(key.start().column() as i64),
                ExternLookupValue::Number(key.end().line() as i64),
                ExternLookupValue::Number(key.end().column() as i64),
            ];
            proof {
                assert(row_view(row@) =~= self@.span_key_row(span@));
                assert(want[i as int] == self@.span_key_row(spans[i as int]));
            }
            let ghost before = rows_view(out@);
            out.push(row);
            i += 1;
            assert(rows_view(out@) =~= before.push(row_view(row@)));
            assert(want.take(i as int) =~= want.take(i - 1).push(want[i - 1]));
        }
        assert(want.take(i as int) =~= want);
        out
    }
}

impl HostView {
    /// The known spans in ascending order.
    pub open spec fn lists_spans(self, spans: Seq<u64>) -> bool {
        ascending(spans) && forall|span: u64| #[trigger]
            spans.contains(span) <==> self.knows_span(span)
    }
}

impl DeterministicRaHost {
    pub fn fields(&self) -> (r: &Relation<FieldRow>)
        ensures
            r@ == self@.fields,
    {
        &self.fields
    }

    pub fn variants(&self) -> (r: &Relation<VariantRow>)
        ensures
            r@ == self@.variants,
    {
        &self.variants
    }

    pub fn methods(&self) -> (r: &Relation<MethodRow>)
        ensures
            r@ == self@.methods,
    {
        &self.methods
    }

    pub fn trait_methods(&self) -> (r: &Relation<MethodRow>)
        ensures
            r@ == self@.trait_methods,
    {
        &self.trait_methods
    }

    pub fn implements(&self) -> (r: &Relation<ImplementsRow>)
        ensures
            r@ == self@.implements,
    {
        &self.implements
    }

    pub fn from_impls(&self) -> (r: &Relation<FromImplRow>)
        ensures
            r@ == self@.from_impls,
    {
        &self.from_impls
    }

    pub fn call_edges(&self) -> (r: &Relation<CallEdgeRow>)
        ensures
            r@ == self@.call_edges,
    {
        &self.call_edges
    }

    pub fn constructs(&self) -> (r: &Relation<ConstructRow>)
        ensures
            r@ == self@.constructs,
    {
        &self.constructs
    }

    pub fn propagates(&self) -> (r: &Relation<PropagateRow>)
        ensures
            r@ == self@.propagates,
    {
        &self.propagates
    }

    pub fn converts(&self) -> (r: &Relation<ConvertRow>)
        ensures
            r@ == self@.converts,
    {
        &self.converts
    }

    pub fn handles(&self) -> (r: &Relation<HandleRow>)
        ensures
            r@ == self@.handles,
    {
        &self.handles
    }

    pub fn compares(&self) -> (r: &Relation<CompareRow>)
        ensures
            r@ == self@.compares,
    {
        &self.compares
    }

    pub fn writes(&self) -> (r: &Relation<WriteRow>)
        ensures
            r@ == self@.writes,
    {
        &self.writes
    }

    /// The return type of a function, where it has been told.
    pub fn fn_return_type(&self, function: DefId) -> (r: Option<Option<TypeRefId>>)
        requires
            self.wf(),
        ensures
            match r {
                Some(ty) => self@.fn_returns.contains_key(function@) && opt_type(ty)
                    == self@.fn_returns[function@],
                None => !self@.fn_returns.contains_key(function@),
            },
    {
        match self.fn_returns.get(function.stable_id().as_u64()) {
            Some(ty) => Some(ty.0),
            None => None,
        }
    }

    /// The error type of a function, where it has been told.
    pub fn fn_error_type(&self, function: DefId) -> (r: Option<Option<DefId>>)
        requires
            self.wf(),
        ensures
            match r {
                Some(error) => self@.fn_errors.contains_key(function@) && opt_def(error)
                    == self@.fn_errors[function@],
                None => !self@.fn_errors.contains_key(function@),
            },
    {
        match self.fn_errors.get(function.stable_id().as_u64()) {
            Some(error) => Some(error.0),
            None => None,
        }
    }
}

} // verus!
