//! Typed identifiers of host entities.

use crate::ir::StableId;
use vstd::prelude::*;

verus! {

/// Stable identifier of a host `Def` value.
#[derive(Debug, Clone, Copy, PartialEq, Eq, Hash, PartialOrd, Ord, Structural)]
pub struct DefId(StableId);

impl View for DefId {
    type V = u64;

    closed spec fn view(&self) -> u64 {
        self.0@
    }
}

impl DefId {
    /// Creates a typed host-entity ID.
    pub fn new(id: StableId) -> (r: Self)
        ensures
            r@ == id@,
    {
        Self(id)
    }

    /// Returns the underlying stable ID.
    pub fn stable_id(self) -> (r: StableId)
        ensures
            r@ == self@,
    {
        self.0
    }
}

/// Stable identifier of a host `Span` value.
#[derive(Debug, Clone, Copy, PartialEq, Eq, Hash, PartialOrd, Ord, Structural)]
pub struct SpanId(StableId);

impl View for SpanId {
    type V = u64;

    closed spec fn view(&self) -> u64 {
        self.0@
    }
}

impl SpanId {
    /// Creates a typed host-entity ID.
    pub fn new(id: StableId) -> (r: Self)
        ensures
            r@ == id@,
    {
        Self(id)
    }

    /// Returns the underlying stable ID.
    pub fn stable_id(self) -> (r: StableId)
        ensures
            r@ == self@,
    {
        self.0
    }
}

/// Stable identifier of a host `TypeRef` value.
#[derive(Debug, Clone, Copy, PartialEq, Eq, Hash, PartialOrd, Ord, Structural)]
pub struct TypeRefId(StableId);

impl View for TypeRefId {
    type V = u64;

    closed spec fn view(&self) -> u64 {
        self.0@
    }
}

impl TypeRefId {
    /// Creates a typed host-entity ID.
    pub fn new(id: StableId) -> (r: Self)
        ensures
            r@ == id@,
    {
        Self(id)
    }

    /// Returns the underlying stable ID.
    pub fn stable_id(self) -> (r: StableId)
        ensures
            r@ == self@,
    {
        self.0
    }
}

/// Stable identifier of a host `Node` value.
#[derive(Debug, Clone, Copy, PartialEq, Eq, Hash, PartialOrd, Ord, Structural)]
pub struct NodeId(StableId);

impl View for NodeId {
    type V = u64;

    closed spec fn view(&self) -> u64 {
        self.0@
    }
}

impl NodeId {
    /// Creates a typed host-entity ID.
    pub fn new(id: StableId) -> (r: Self)
        ensures
            r@ == id@,
    {
        Self(id)
    }

    /// Returns the underlying stable ID.
    pub fn stable_id(self) -> (r: StableId)
        ensures
            r@ == self@,
    {
        self.0
    }
}

/// Stable identifier of a host `Call` value.
#[derive(Debug, Clone, Copy, PartialEq, Eq, Hash, PartialOrd, Ord, Structural)]
pub struct CallId(StableId);

impl View for CallId {
    type V = u64;

    closed spec fn view(&self) -> u64 {
        self.0@
    }
}

impl CallId {
    /// Creates a typed host-entity ID.
    pub fn new(id: StableId) -> (r: Self)
        ensures
            r@ == id@,
    {
        Self(id)
    }

    /// Returns the underlying stable ID.
    pub fn stable_id(self) -> (r: StableId)
        ensures
            r@ == self@,
    {
        self.0
    }
}

/// Stable identifier of a host `Ref` value.
#[derive(Debug, Clone, Copy, PartialEq, Eq, Hash, PartialOrd, Ord, Structural)]
pub struct RefId(StableId);

impl View for RefId {
    type V = u64;

    closed spec fn view(&self) -> u64 {
        self.0@
    }
}

impl RefId {
    /// Creates a typed host-entity ID.
    pub fn new(id: StableId) -> (r: Self)
        ensures
            r@ == id@,
    {
        Self(id)
    }

    /// Returns the underlying stable ID.
    pub fn stable_id(self) -> (r: StableId)
        ensures
            r@ == self@,
    {
        self.0
    }
}

/// Stable identifier of a host `Impl` value.
#[derive(Debug, Clone, Copy, PartialEq, Eq, Hash, PartialOrd, Ord, Structural)]
pub struct ImplId(StableId);

impl View for ImplId {
    type V = u64;

    closed spec fn view(&self) -> u64 {
        self.0@
    }
}

impl ImplId {
    /// Creates a typed host-entity ID.
    pub fn new(id: StableId) -> (r: Self)
        ensures
            r@ == id@,
    {
        Self(id)
    }

    /// Returns the underlying stable ID.
    pub fn stable_id(self) -> (r: StableId)
        ensures
            r@ == self@,
    {
        self.0
    }
}

} // verus!
