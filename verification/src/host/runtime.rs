//! A deterministic in-memory host runtime for tests and local wiring.

use crate::host::ids::{CallId, DefId, ImplId, NodeId, RefId, SpanId, TypeRefId};
use crate::host::types::{
    RuntimeScalarOptions, RuntimeScalarView, ScalarInputKey, SpanCoord, SpanKey, SpanKeyView,
    StableHandle, WorldStamp,
};
use crate::ir::{stable_id_text, ScalarValue, StableId};
use crate::table::{Table, TableKey};
use crate::text::{cat3, hex16, hex_digits, owned, str_eq};
use std::convert::Infallible;
use vstd::prelude::*;
use vstd::string::StringExecFns;
use vstd::utf8::encode_utf8;

verus! {

/// Runtime hooks used by planning and execution boundaries.
pub trait HostRuntime {
    /// Error type returned by runtime hooks.
    type Error;

    /// The runtime can be asked.
    spec fn valid(&self) -> bool;

    /// Returns a deterministic, stable ID for a logical entity in a namespace.
    fn stable_id(&self, namespace: &str, logical_name: &str) -> Result<StableId, Self::Error>
        requires
            self.valid(),
    ;

    /// Returns the analysis world stamp.
    fn world_stamp(&self) -> Result<WorldStamp, Self::Error>
        requires
            self.valid(),
    ;

    /// Returns the stable handle of a definition.
    fn handle(&self, def: DefId) -> Result<StableHandle, Self::Error>
        requires
            self.valid(),
    ;

    /// Returns the stable key of a span.
    fn span_key(&self, span: SpanId) -> Result<SpanKey, Self::Error>
        requires
            self.valid(),
    ;

    /// Returns the stable key of a type reference.
    fn typeref_id(&self, type_ref: TypeRefId) -> Result<StableHandle, Self::Error>
        requires
            self.valid(),
    ;

    /// Returns the stable key of a node.
    fn node_id(&self, node: NodeId) -> Result<StableHandle, Self::Error>
        requires
            self.valid(),
    ;

    /// Returns the stable key of a call.
    fn call_id(&self, call: CallId) -> Result<StableHandle, Self::Error>
        requires
            self.valid(),
    ;

    /// Returns the stable key of a reference.
    fn ref_id(&self, reference: RefId) -> Result<StableHandle, Self::Error>
        requires
            self.valid(),
    ;

    /// Returns the stable key of an impl.
    fn impl_id(&self, implementation: ImplId) -> Result<StableHandle, Self::Error>
        requires
            self.valid(),
    ;

    /// Returns scalar options used by runtime semantics.
    fn runtime_scalar_options(&self) -> Result<RuntimeScalarOptions, Self::Error>
        requires
            self.valid(),
    ;

    /// Resolves an arbitrary scalar input value from the host.
    fn scalar_input(&self, key: &ScalarInputKey) -> Result<Option<ScalarValue>, Self::Error>
        requires
            self.valid(),
    ;
}

/// Which of the typed stable keys is meant.
#[derive(Debug, Clone, Copy, PartialEq, Eq, Structural)]
pub enum StableKeyKind {
    Handle,
    TypeRefId,
    NodeId,
    CallId,
    RefId,
    ImplId,
}

impl StableKeyKind {
    /// The name of the key relation.
    pub open spec fn name(self) -> Seq<char> {
        match self {
            StableKeyKind::Handle => "handle"@,
            StableKeyKind::TypeRefId => "typeref_id"@,
            StableKeyKind::NodeId => "node_id"@,
            StableKeyKind::CallId => "call_id"@,
            StableKeyKind::RefId => "ref_id"@,
            StableKeyKind::ImplId => "impl_id"@,
        }
    }

    pub fn label(self) -> (r: &'static str)
        ensures
            r@ == self.name(),
    {
        match self {
            StableKeyKind::Handle => "handle",
            StableKeyKind::TypeRefId => "typeref_id",
            StableKeyKind::NodeId => "node_id",
            StableKeyKind::CallId => "call_id",
            StableKeyKind::RefId => "ref_id",
            StableKeyKind::ImplId => "impl_id",
        }
    }
}

/// A namespace and a logical name in it.
pub struct NameKey {
    namespace: String,
    name: String,
}

impl TableKey for NameKey {
    type K = (Seq<char>, Seq<char>);

    closed spec fn key(&self) -> (Seq<char>, Seq<char>) {
        (self.namespace@, self.name@)
    }

    fn same_key(&self, other: &Self) -> (r: bool) {
        str_eq(self.namespace.as_str(), other.namespace.as_str()) && str_eq(
            self.name.as_str(),
            other.name.as_str(),
        )
    }
}

impl NameKey {
    fn new(namespace: &str, name: &str) -> (r: NameKey)
        ensures
            r.key() == (namespace@, name@),
    {
        NameKey { namespace: owned(namespace), name: owned(name) }
    }
}

/// A kind of stable key and a raw identifier.
pub struct KindKey {
    pub kind: StableKeyKind,
    pub raw: u64,
}

impl TableKey for KindKey {
    type K = (StableKeyKind, u64);

    open spec fn key(&self) -> (StableKeyKind, u64) {
        (self.kind, self.raw)
    }

    fn same_key(&self, other: &Self) -> (r: bool) {
        self.kind == other.kind && self.raw == other.raw
    }
}

/// The start value of the 64-bit FNV-1a hash.
pub const FNV_OFFSET: u64 = 0xcbf29ce484222325;

/// The multiplier of the 64-bit FNV-1a hash.
pub const FNV_PRIME: u64 = 0x0000_0100_0000_01b3;

/// One FNV-1a step.
pub open spec fn fnv_step(hash: u64, byte: u64) -> u64 {
    (hash ^ byte).wrapping_mul(FNV_PRIME)
}

/// FNV-1a over some bytes.
pub open spec fn fnv_bytes(hash: u64, bytes: Seq<u8>) -> u64
    decreases bytes.len(),
{
    if bytes.len() == 0 {
        hash
    } else {
        fnv_step(fnv_bytes(hash, bytes.drop_last()), bytes.last() as u64)
    }
}

/// FNV-1a over one segment and the delimiter behind it.
pub open spec fn fnv_segment(hash: u64, text: Seq<char>) -> u64 {
    fnv_step(fnv_bytes(hash, encode_utf8(text)), 0xff)
}

/// The stable ID of a logical entity in a namespace: FNV-1a over both, each
/// closed by a delimiter, so that the border between them counts.
#[verifier::opaque]
pub open spec fn derived_id(namespace: Seq<char>, name: Seq<char>) -> u64 {
    fnv_segment(fnv_segment(FNV_OFFSET, namespace), name)
}

fn hash_segment(start: u64, text: &str) -> (r: u64)
    ensures
        r == fnv_segment(start, text@),
{
    let bytes = text.as_bytes();
    let mut hash: u64 = start;
    let mut i: usize = 0;
    while i < bytes.len()
        invariant
            i <= bytes@.len(),
            hash == fnv_bytes(start, bytes@.take(i as int)),
        decreases bytes.len() - i,
    {
        proof {
            assert(bytes@.take(i + 1).drop_last() =~= bytes@.take(i as int));
            assert(bytes@.take(i + 1).last() == bytes@[i as int]);
        }
        hash = (hash ^ (bytes[i] as u64)).wrapping_mul(FNV_PRIME);
        i += 1;
    }
    assert(bytes@.take(i as int) =~= bytes@);
    (hash ^ 0xff).wrapping_mul(FNV_PRIME)
}

/// Deterministic stable ID derivation.
pub fn deterministic_stable_id(namespace: &str, logical_name: &str) -> (r: StableId)
    ensures
        r@ == derived_id(namespace@, logical_name@),
{
    proof {
        reveal(derived_id);
    }
    let first: u64 = hash_segment(FNV_OFFSET, namespace);
    StableId::new(hash_segment(first, logical_name))
}

/// The stable key of an entity that has no explicit one.
pub open spec fn default_key(kind: StableKeyKind, raw: u64) -> Seq<char> {
    kind.name() + ":"@ + stable_id_text(raw)
}

/// The start line, start column, end line and end column of a span that has no
/// explicit key, out of the bits of its identifier.
pub open spec fn default_coords(raw: u64) -> (int, int, int, int) {
    let l0 = (raw & 0xff) + 1;
    let c0 = (raw >> 8) & 0x7f;
    let l1 = l0 + ((raw >> 15) & 0x07);
    let c1 = if l0 == l1 {
        c0 + ((raw >> 22) & 0x1f) + 1
    } else {
        ((raw >> 27) & 0x7f) as int
    };
    (l0, c0 as int, l1, c1)
}

/// The key of a span that has no explicit one.
pub open spec fn default_span_key(raw: u64) -> SpanKeyView {
    let (l0, c0, l1, c1) = default_coords(raw);
    SpanKeyView {
        rel_path: "mock/"@ + hex_digits(raw as nat, 16) + ".rs"@,
        start: (l0 as u32, c0 as u32),
        end: (l1 as u32, c1 as u32),
    }
}

proof fn lemma_masks(raw: u64)
    by (bit_vector)
    ensures
        raw & 0xff <= 0xff,
        (raw >> 8) & 0x7f <= 0x7f,
        (raw >> 15) & 0x07 <= 0x07,
        (raw >> 22) & 0x1f <= 0x1f,
        (raw >> 27) & 0x7f <= 0x7f,
{
}

/// Deterministic span key derivation.
fn deterministic_span_key(span: SpanId) -> (r: SpanKey)
    ensures
        r@ == default_span_key(span@),
{
    let raw: u64 = span.stable_id().as_u64();
    proof {
        lemma_masks(raw);
    }
    let rel_path = cat3("mock/", hex16(raw).as_str(), ".rs");
    let l0: u32 = (raw & 0xff) as u32 + 1;
    let c0: u32 = ((raw >> 8) & 0x7f) as u32;
    let l1: u32 = l0 + ((raw >> 15) & 0x07) as u32;
    let c1: u32 = if l0 == l1 {
        c0 + ((raw >> 22) & 0x1f) as u32 + 1
    } else {
        ((raw >> 27) & 0x7f) as u32
    };
    SpanKey::new(rel_path.as_str(), SpanCoord::new(l0, c0), SpanCoord::new(l1, c1))
}

/// The key of a span never ends before it starts.
pub proof fn law_default_spans_are_ordered(raw: u64)
    ensures
        default_coords(raw).0 < default_coords(raw).2 || (default_coords(raw).0 == default_coords(
            raw,
        ).2 && default_coords(raw).1 < default_coords(raw).3),
{
    lemma_masks(raw);
}

/// Deterministic in-memory host runtime for tests and local wiring.
pub struct MockHostRuntime {
    world_stamp: WorldStamp,
    stable_overrides: Table<NameKey, StableId>,
    scalar_inputs: Table<ScalarInputKey, ScalarValue>,
    stable_keys: Table<KindKey, StableHandle>,
    span_keys: Table<u64, SpanKey>,
    runtime_scalar_options: RuntimeScalarOptions,
}

/// The mathematical content of a [`MockHostRuntime`]: what has been set
/// explicitly.
#[verifier::ext_equal]
pub struct MockView {
    pub world_stamp: Seq<char>,
    pub stable_ids: Map<(Seq<char>, Seq<char>), StableId>,
    pub scalar_inputs: Map<(u64, Seq<char>), ScalarValue>,
    pub stable_keys: Map<(StableKeyKind, u64), StableHandle>,
    pub span_keys: Map<u64, SpanKey>,
    pub options: RuntimeScalarView,
}

impl View for MockHostRuntime {
    type V = MockView;

    closed spec fn view(&self) -> MockView {
        MockView {
            world_stamp: self.world_stamp@,
            stable_ids: self.stable_overrides.map(),
            scalar_inputs: self.scalar_inputs.map(),
            stable_keys: self.stable_keys.map(),
            span_keys: self.span_keys.map(),
            options: self.runtime_scalar_options@,
        }
    }
}

impl MockView {
    /// A runtime for which nothing has been set.
    pub open spec fn fresh() -> MockView {
        MockView {
            world_stamp: "mock-world"@,
            stable_ids: Map::empty(),
            scalar_inputs: Map::empty(),
            stable_keys: Map::empty(),
            span_keys: Map::empty(),
            options: RuntimeScalarView { path_limit: None, path_max_depth: None, max_iters: None },
        }
    }

    /// The explicit stable ID of a name, else the derived one.
    pub open spec fn id_of(self, namespace: Seq<char>, name: Seq<char>) -> u64 {
        if self.stable_ids.contains_key((namespace, name)) {
            self.stable_ids[(namespace, name)]@
        } else {
            derived_id(namespace, name)
        }
    }

    /// The explicit stable key of an entity, else the default one.
    pub open spec fn key_of(self, kind: StableKeyKind, raw: u64) -> Seq<char> {
        if self.stable_keys.contains_key((kind, raw)) {
            self.stable_keys[(kind, raw)]@
        } else {
            default_key(kind, raw)
        }
    }

    /// The explicit key of a span, else the default one.
    pub open spec fn span_key_of(self, raw: u64) -> SpanKeyView {
        if self.span_keys.contains_key(raw) {
            self.span_keys[raw]@
        } else {
            default_span_key(raw)
        }
    }
}

impl MockHostRuntime {
    /// Every table holds each of its keys once.
    pub closed spec fn wf(&self) -> bool {
        &&& self.stable_overrides.wf()
        &&& self.scalar_inputs.wf()
        &&& self.stable_keys.wf()
        &&& self.span_keys.wf()
    }

    /// Creates a new empty runtime.
    pub fn new() -> (r: Self)
        ensures
            r.wf(),
            r@ == MockView::fresh(),
    {
        MockHostRuntime {
            world_stamp: WorldStamp::default(),
            stable_overrides: Table::new(),
            scalar_inputs: Table::new(),
            stable_keys: Table::new(),
            span_keys: Table::new(),
            runtime_scalar_options: RuntimeScalarOptions::new(),
        }
    }

    /// Sets the analysis world stamp.
    pub fn set_world_stamp(&mut self, stamp: WorldStamp)
        requires
            old(self).wf(),
        ensures
            final(self).wf(),
            final(self)@ == (MockView { world_stamp: stamp@, ..old(self)@ }),
    {
        self.world_stamp = stamp;
    }

    /// Inserts or overrides a stable ID mapping.
    pub fn insert_stable_id(&mut self, namespace: &str, logical_name: &str, id: StableId)
        requires
            old(self).wf(),
        ensures
            final(self).wf(),
            final(self)@ == (MockView {
                stable_ids: old(self)@.stable_ids.insert((namespace@, logical_name@), id),
                ..old(self)@
            }),
    {
        self.stable_overrides.insert(NameKey::new(namespace, logical_name), id);
    }

    /// Inserts or overrides a scalar input mapping.
    pub fn insert_scalar_input(&mut self, key: ScalarInputKey, value: ScalarValue)
        requires
            old(self).wf(),
        ensures
            final(self).wf(),
            final(self)@ == (MockView {
                scalar_inputs: old(self)@.scalar_inputs.insert(key@, value),
                ..old(self)@
            }),
    {
        self.scalar_inputs.insert(key, value);
    }

    /// Sets runtime scalar option overrides.
    pub fn set_runtime_scalar_options(&mut self, options: RuntimeScalarOptions)
        requires
            old(self).wf(),
        ensures
            final(self).wf(),
            final(self)@ == (MockView { options: options@, ..old(self)@ }),
    {
        self.runtime_scalar_options = options;
    }

    fn insert_contract_key(&mut self, kind: StableKeyKind, id: StableId, handle: StableHandle)
        requires
            old(self).wf(),
        ensures
            final(self).wf(),
            final(self)@ == (MockView {
                stable_keys: old(self)@.stable_keys.insert((kind, id@), handle),
                ..old(self)@
            }),
    {
        self.stable_keys.insert(KindKey { kind, raw: id.as_u64() }, handle);
    }

    fn contract_key(&self, kind: StableKeyKind, id: StableId) -> (r: StableHandle)
        requires
            self.wf(),
        ensures
            r@ == self@.key_of(kind, id@),
    {
        match self.stable_keys.get(&KindKey { kind, raw: id.as_u64() }) {
            Some(handle) => handle.clone(),
            None => StableHandle::new(cat3(kind.label(), ":", id.to_text().as_str()).as_str()),
        }
    }

    /// Inserts or overrides a span key.
    pub fn insert_span_key(&mut self, span: SpanId, key: SpanKey)
        requires
            old(self).wf(),
        ensures
            final(self).wf(),
            final(self)@ == (MockView {
                span_keys: old(self)@.span_keys.insert(span@, key),
                ..old(self)@
            }),
    {
        self.span_keys.insert(span.stable_id().as_u64(), key);
    }

    /// Adds a span key and returns `self` for chaining.
    pub fn with_span_key(self, span: SpanId, key: SpanKey) -> (r: Self)
        requires
            self.wf(),
        ensures
            r.wf(),
            r@ == (MockView { span_keys: self@.span_keys.insert(span@, key), ..self@ }),
    {
        let mut out = self;
        out.insert_span_key(span, key);
        out
    }

    /// Sets the analysis world stamp and returns `self` for chaining.
    pub fn with_world_stamp(self, stamp: WorldStamp) -> (r: Self)
        requires
            self.wf(),
        ensures
            r.wf(),
            r@ == (MockView { world_stamp: stamp@, ..self@ }),
    {
        let mut out = self;
        out.set_world_stamp(stamp);
        out
    }

    /// Adds an explicit stable ID override and returns `self` for chaining.
    pub fn with_stable_id(self, namespace: &str, logical_name: &str, id: StableId) -> (r: Self)
        requires
            self.wf(),
        ensures
            r.wf(),
            r@ == (MockView {
                stable_ids: self@.stable_ids.insert((namespace@, logical_name@), id),
                ..self@
            }),
    {
        let mut out = self;
        out.insert_stable_id(namespace, logical_name, id);
        out
    }

    /// Adds an explicit scalar input and returns `self` for chaining.
    pub fn with_scalar_input(self, key: ScalarInputKey, value: ScalarValue) -> (r: Self)
        requires
            self.wf(),
        ensures
            r.wf(),
            r@ == (MockView { scalar_inputs: self@.scalar_inputs.insert(key@, value), ..self@ }),
    {
        let mut out = self;
        out.insert_scalar_input(key, value);
        out
    }

    /// Sets runtime scalar option overrides and returns `self` for chaining.
    pub fn with_runtime_scalar_options(self, options: RuntimeScalarOptions) -> (r: Self)
        requires
            self.wf(),
        ensures
            r.wf(),
            r@ == (MockView { options: options@, ..self@ }),
    {
        let mut out = self;
        out.set_runtime_scalar_options(options);
        out
    }

    /// Inserts or overrides the `handle` key of an entity.
    pub fn insert_handle(&mut self, def: DefId, handle: StableHandle)
        requires
            old(self).wf(),
        ensures
            final(self).wf(),
            final(self)@ == (MockView {
                stable_keys: old(self)@.stable_keys.insert(
                    (StableKeyKind::Handle, def@),
                    handle,
                ),
                ..old(self)@
            }),
    {
        self.insert_contract_key(StableKeyKind::Handle, def.stable_id(), handle);
    }

    /// Adds a `handle` override and returns `self` for chaining.
    pub fn with_handle(self, def: DefId, handle: StableHandle) -> (r: Self)
        requires
            self.wf(),
        ensures
            r.wf(),
            r@ == (MockView {
                stable_keys: self@.stable_keys.insert((StableKeyKind::Handle, def@), handle),
                ..self@
            }),
    {
        let mut out = self;
        out.insert_handle(def, handle);
        out
    }

    /// Inserts or overrides the `typeref_id` key of an entity.
    pub fn insert_typeref_id(&mut self, type_ref: TypeRefId, handle: StableHandle)
        requires
            old(self).wf(),
        ensures
            final(self).wf(),
            final(self)@ == (MockView {
                stable_keys: old(self)@.stable_keys.insert(
                    (StableKeyKind::TypeRefId, type_ref@),
                    handle,
                ),
                ..old(self)@
            }),
    {
        self.insert_contract_key(StableKeyKind::TypeRefId, type_ref.stable_id(), handle);
    }

    /// Adds a `typeref_id` override and returns `self` for chaining.
    pub fn with_typeref_id(self, type_ref: TypeRefId, handle: StableHandle) -> (r: Self)
        requires
            self.wf(),
        ensures
            r.wf(),
            r@ == (MockView {
                stable_keys: self@.stable_keys.insert((StableKeyKind::TypeRefId, type_ref@), handle),
                ..self@
            }),
    {
        let mut out = self;
        out.insert_typeref_id(type_ref, handle);
        out
    }

    /// Inserts or overrides the `node_id` key of an entity.
    pub fn insert_node_id(&mut self, node: NodeId, handle: StableHandle)
        requires
            old(self).wf(),
        ensures
            final(self).wf(),
            final(self)@ == (MockView {
                stable_keys: old(self)@.stable_keys.insert(
                    (StableKeyKind::NodeId, node@),
                    handle,
                ),
                ..old(self)@
            }),
    {
        self.insert_contract_key(StableKeyKind::NodeId, node.stable_id(), handle);
    }

    /// Adds a `node_id` override and returns `self` for chaining.
    pub fn with_node_id(self, node: NodeId, handle: StableHandle) -> (r: Self)
        requires
            self.wf(),
        ensures
            r.wf(),
            r@ == (MockView {
                stable_keys: self@.stable_keys.insert((StableKeyKind::NodeId, node@), handle),
                ..self@
            }),
    {
        let mut out = self;
        out.insert_node_id(node, handle);
        out
    }

    /// Inserts or overrides the `call_id` key of an entity.
    pub fn insert_call_id(&mut self, call: CallId, handle: StableHandle)
        requires
            old(self).wf(),
        ensures
            final(self).wf(),
            final(self)@ == (MockView {
                stable_keys: old(self)@.stable_keys.insert(
                    (StableKeyKind::CallId, call@),
                    handle,
                ),
                ..old(self)@
            }),
    {
        self.insert_contract_key(StableKeyKind::CallId, call.stable_id(), handle);
    }

    /// Adds a `call_id` override and returns `self` for chaining.
    pub fn with_call_id(self, call: CallId, handle: StableHandle) -> (r: Self)
        requires
            self.wf(),
        ensures
            r.wf(),
            r@ == (MockView {
                stable_keys: self@.stable_keys.insert((StableKeyKind::CallId, call@), handle),
                ..self@
            }),
    {
        let mut out = self;
        out.insert_call_id(call, handle);
        out
    }

    /// Inserts or overrides the `ref_id` key of an entity.
    pub fn insert_ref_id(&mut self, reference: RefId, handle: StableHandle)
        requires
            old(self).wf(),
        ensures
            final(self).wf(),
            final(self)@ == (MockView {
                stable_keys: old(self)@.stable_keys.insert(
                    (StableKeyKind::RefId, reference@),
                    handle,
                ),
                ..old(self)@
            }),
    {
        self.insert_contract_key(StableKeyKind::RefId, reference.stable_id(), handle);
    }

    /// Adds a `ref_id` override and returns `self` for chaining.
    pub fn with_ref_id(self, reference: RefId, handle: StableHandle) -> (r: Self)
        requires
            self.wf(),
        ensures
            r.wf(),
            r@ == (MockView {
                stable_keys: self@.stable_keys.insert((StableKeyKind::RefId, reference@), handle),
                ..self@
            }),
    {
        let mut out = self;
        out.insert_ref_id(reference, handle);
        out
    }

    /// Inserts or overrides the `impl_id` key of an entity.
    pub fn insert_impl_id(&mut self, implementation: ImplId, handle: StableHandle)
        requires
            old(self).wf(),
        ensures
            final(self).wf(),
            final(self)@ == (MockView {
                stable_keys: old(self)@.stable_keys.insert(
                    (StableKeyKind::ImplId, implementation@),
                    handle,
                ),
                ..old(self)@
            }),
    {
        self.insert_contract_key(StableKeyKind::ImplId, implementation.stable_id(), handle);
    }

    /// Adds a `impl_id` override and returns `self` for chaining.
    pub fn with_impl_id(self, implementation: ImplId, handle: StableHandle) -> (r: Self)
        requires
            self.wf(),
        ensures
            r.wf(),
            r@ == (MockView {
                stable_keys: self@.stable_keys.insert((StableKeyKind::ImplId, implementation@), handle),
                ..self@
            }),
    {
        let mut out = self;
        out.insert_impl_id(implementation, handle);
        out
    }
}

impl Default for MockHostRuntime {
    fn default() -> (r: MockHostRuntime)
        ensures
            r.wf(),
            r@ == MockView::fresh(),
    {
        MockHostRuntime::new()
    }
}

impl HostRuntime for MockHostRuntime {
    type Error = Infallible;

    open spec fn valid(&self) -> bool {
        self.wf()
    }

    fn stable_id(&self, namespace: &str, logical_name: &str) -> (r: Result<StableId, Infallible>)
        ensures
            r is Ok,
            r->Ok_0@ == self@.id_of(namespace@, logical_name@),
    {
        match self.stable_overrides.get(&NameKey::new(namespace, logical_name)) {
            Some(id) => Ok(*id),
            None => Ok(deterministic_stable_id(namespace, logical_name)),
        }
    }

    fn world_stamp(&self) -> (r: Result<WorldStamp, Infallible>)
        ensures
            r is Ok,
            r->Ok_0@ == self@.world_stamp,
    {
        Ok(self.world_stamp.clone())
    }

    fn span_key(&self, span: SpanId) -> (r: Result<SpanKey, Infallible>)
        ensures
            r is Ok,
            r->Ok_0@ == self@.span_key_of(span@),
    {
        match self.span_keys.get(&span.stable_id().as_u64()) {
            Some(key) => Ok(key.clone()),
            None => Ok(deterministic_span_key(span)),
        }
    }

    fn runtime_scalar_options(&self) -> (r: Result<RuntimeScalarOptions, Infallible>)
        ensures
            r is Ok,
            r->Ok_0@ == self@.options,
    {
        Ok(self.runtime_scalar_options)
    }

    fn scalar_input(&self, key: &ScalarInputKey) -> (r: Result<Option<ScalarValue>, Infallible>)
        ensures
            r is Ok,
            match r->Ok_0 {
                Some(value) => self@.scalar_inputs.contains_key(key@) && value@
                    == self@.scalar_inputs[key@]@,
                None => !self@.scalar_inputs.contains_key(key@),
            },
    {
        match self.scalar_inputs.get(key) {
            Some(value) => Ok(Some(value.clone())),
            None => Ok(None),
        }
    }

    fn handle(&self, def: DefId) -> (r: Result<StableHandle, Infallible>)
        ensures
            r is Ok,
            r->Ok_0@ == self@.key_of(StableKeyKind::Handle, def@),
    {
        Ok(self.contract_key(StableKeyKind::Handle, def.stable_id()))
    }

    fn typeref_id(&self, type_ref: TypeRefId) -> (r: Result<StableHandle, Infallible>)
        ensures
            r is Ok,
            r->Ok_0@ == self@.key_of(StableKeyKind::TypeRefId, type_ref@),
    {
        Ok(self.contract_key(StableKeyKind::TypeRefId, type_ref.stable_id()))
    }

    fn node_id(&self, node: NodeId) -> (r: Result<StableHandle, Infallible>)
        ensures
            r is Ok,
            r->Ok_0@ == self@.key_of(StableKeyKind::NodeId, node@),
    {
        Ok(self.contract_key(StableKeyKind::NodeId, node.stable_id()))
    }

    fn call_id(&self, call: CallId) -> (r: Result<StableHandle, Infallible>)
        ensures
            r is Ok,
            r->Ok_0@ == self@.key_of(StableKeyKind::CallId, call@),
    {
        Ok(self.contract_key(StableKeyKind::CallId, call.stable_id()))
    }

    fn ref_id(&self, reference: RefId) -> (r: Result<StableHandle, Infallible>)
        ensures
            r is Ok,
            r->Ok_0@ == self@.key_of(StableKeyKind::RefId, reference@),
    {
        Ok(self.contract_key(StableKeyKind::RefId, reference.stable_id()))
    }

    fn impl_id(&self, implementation: ImplId) -> (r: Result<StableHandle, Infallible>)
        ensures
            r is Ok,
            r->Ok_0@ == self@.key_of(StableKeyKind::ImplId, implementation@),
    {
        Ok(self.contract_key(StableKeyKind::ImplId, implementation.stable_id()))
    }
}

} // verus!
