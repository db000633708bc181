//! Terms and operations of the planned phase.

use crate::ir::arena::TermArena;
use crate::ir::ids::{ArenaId, StableId};
use crate::ir::ty::TyId;
use crate::ir::value::{ScalarValue, Symbol};
use crate::text::{decimal, decimal_of_size};
use vstd::prelude::*;
use vstd::string::StringExecFns;

verus! {

/// ID of a planned term node.
pub type PlannedTermId = ArenaId<PlannedTerm>;

/// ID of a plan operation node.
pub type PlanOpId = ArenaId<PlanOp>;

/// Reference to a host-provided scalar input.
#[derive(Debug, PartialEq, Eq, Hash)]
pub struct ScalarInputRef {
    /// Stable data source identifier.
    pub source: StableId,
    /// Input key at the source.
    pub key: Symbol,
}

impl ScalarInputRef {
    /// Creates a new scalar input reference.
    pub fn new(source: StableId, key: &str) -> (r: Self)
        ensures
            r.source == source,
            r.key@ == key@,
    {
        Self { source, key: Symbol::new(key) }
    }
}

/// Planned term with fully known type and execution references.
#[derive(Debug, PartialEq, Eq)]
pub struct PlannedTerm {
    /// Resolved type.
    pub ty: TyId,
    /// Term payload.
    pub kind: PlannedTermKind,
}

/// Planned term variants.
#[derive(Debug, PartialEq, Eq)]
pub enum PlannedTermKind {
    /// Scalar literal.
    Scalar(ScalarValue),
    /// Host input scalar.
    Input(ScalarInputRef),
    /// Computed value produced by a plan op.
    Eval {
        /// Producer operation.
        op: PlanOpId,
        /// Operand terms.
        args: Vec<PlannedTermId>,
    },
}

impl PlannedTerm {
    /// Builds a scalar planned term.
    pub fn scalar(ty: TyId, value: ScalarValue) -> (r: Self)
        ensures
            r == (PlannedTerm { ty, kind: PlannedTermKind::Scalar(value) }),
    {
        Self { ty, kind: PlannedTermKind::Scalar(value) }
    }

    /// Builds a host input planned term.
    pub fn input(ty: TyId, input: ScalarInputRef) -> (r: Self)
        ensures
            r == (PlannedTerm { ty, kind: PlannedTermKind::Input(input) }),
    {
        Self { ty, kind: PlannedTermKind::Input(input) }
    }

    /// Builds a computed planned term.
    pub fn eval(ty: TyId, op: PlanOpId, args: Vec<PlannedTermId>) -> (r: Self)
        ensures
            r == (PlannedTerm { ty, kind: PlannedTermKind::Eval { op, args } }),
    {
        Self { ty, kind: PlannedTermKind::Eval { op, args } }
    }
}

/// Planned relational or logical operation.
#[derive(Debug, PartialEq, Eq)]
pub enum PlanOp {
    /// Scan a host source by stable ID.
    Scan {
        /// Stable host source identifier.
        source: StableId,
    },
    /// Filter operation.
    Filter {
        /// Upstream operation.
        input: PlanOpId,
        /// Predicate term.
        predicate: PlannedTermId,
    },
    /// Projection operation.
    Project {
        /// Upstream operation.
        input: PlanOpId,
        /// Expression terms to project.
        expressions: Vec<PlannedTermId>,
    },
    /// Join operation.
    Join {
        /// Left input operation.
        left: PlanOpId,
        /// Right input operation.
        right: PlanOpId,
        /// Join predicate term.
        on: PlannedTermId,
    },
}

/// Errors raised when plan structure invariants are violated.
#[derive(Debug, PartialEq, Eq)]
pub enum PlanInvariantError {
    /// Root operation is not present in the operation arena.
    InvalidRootOp {
        /// Invalid root op.
        root: PlanOpId,
        /// Arena length at validation time.
        len: usize,
    },
    /// Requested operation ID is not present in the operation arena.
    InvalidOpId {
        /// Invalid operation ID.
        id: PlanOpId,
        /// Arena length at validation time.
        len: usize,
    },
}

impl PlanInvariantError {
    /// The message of the error.
    pub open spec fn text(&self) -> Seq<char> {
        match *self {
            PlanInvariantError::InvalidRootOp { root, len } => "root op id "@ + decimal(root@)
                + " is out of bounds for "@ + decimal(len as nat) + " ops"@,
            PlanInvariantError::InvalidOpId { id, len } => "op id "@ + decimal(id@)
                + " is out of bounds for "@ + decimal(len as nat) + " ops"@,
        }
    }

    /// The message of the error.
    pub fn to_text(&self) -> (r: String)
        ensures
            r@ == self.text(),
    {
        match self {
            PlanInvariantError::InvalidRootOp { root, len } => {
                let mut out = "root op id ".to_owned();
                out.append(root.to_text().as_str());
                out.append(" is out of bounds for ");
                out.append(decimal_of_size(*len).as_str());
                out.append(" ops");
                out
            },
            PlanInvariantError::InvalidOpId { id, len } => {
                let mut out = "op id ".to_owned();
                out.append(id.to_text().as_str());
                out.append(" is out of bounds for ");
                out.append(decimal_of_size(*len).as_str());
                out.append(" ops");
                out
            },
        }
    }
}

/// Extra phase data attached to planned programs.
pub struct PlannedProgramData {
    ops: TermArena<PlanOp>,
    root_op: Option<PlanOpId>,
}

impl View for PlannedProgramData {
    type V = Seq<PlanOp>;

    closed spec fn view(&self) -> Seq<PlanOp> {
        self.ops@
    }
}

impl PlannedProgramData {
    /// The root operation, where one has been set.
    pub closed spec fn root(&self) -> Option<PlanOpId> {
        self.root_op
    }

    /// The root operation belongs to the arena.
    pub open spec fn wf(&self) -> bool {
        self.root() matches Some(root) ==> root@ < self@.len()
    }

    /// Creates an empty plan arena.
    pub fn new() -> (r: Self)
        ensures
            r@ == Seq::<PlanOp>::empty(),
            r.root() is None,
            r.wf(),
    {
        Self { ops: TermArena::new(), root_op: None }
    }

    /// Allocates a plan operation.
    pub fn alloc_op(&mut self, op: PlanOp) -> (r: PlanOpId)
        requires
            old(self).wf(),
            old(self)@.len() <= u32::MAX,
        ensures
            final(self).wf(),
            final(self)@ == old(self)@.push(op),
            final(self).root() == old(self).root(),
            r@ == old(self)@.len(),
    {
        self.ops.allocate(op)
    }

    /// Returns an immutable operation reference.
    pub fn op(&self, id: PlanOpId) -> (r: Result<&PlanOp, PlanInvariantError>)
        ensures
            match r {
                Ok(op) => id@ < self@.len() && *op == self@[id@ as int],
                Err(error) => id@ >= self@.len() && error == (PlanInvariantError::InvalidOpId {
                    id,
                    len: self@.len() as usize,
                }),
            },
    {
        if self.contains_op(id) {
            Ok(self.ops.get(id))
        } else {
            Err(PlanInvariantError::InvalidOpId { id, len: self.ops.len() })
        }
    }

    /// Returns a mutable operation reference.
    pub fn op_mut(&mut self, id: PlanOpId) -> (r: Result<&mut PlanOp, PlanInvariantError>)
        ensures
            match r {
                Ok(op) => id@ < old(self)@.len() && *op == old(self)@[id@ as int] && final(self)@
                    == old(self)@.update(id@ as int, *final(op)) && final(self).root() == old(
                    self,
                ).root(),
                Err(error) => id@ >= old(self)@.len() && *final(self) == *old(self) && error == (
                PlanInvariantError::InvalidOpId { id, len: old(self)@.len() as usize }),
            },
    {
        if !self.contains_op(id) {
            return Err(PlanInvariantError::InvalidOpId { id, len: self.ops.len() });
        }
        Ok(self.ops.get_mut(id))
    }

    /// Attempts to get an operation by ID.
    pub fn try_op(&self, id: PlanOpId) -> (r: Option<&PlanOp>)
        ensures
            match r {
                Some(op) => id@ < self@.len() && *op == self@[id@ as int],
                None => id@ >= self@.len(),
            },
    {
        if self.contains_op(id) {
            Some(self.ops.get(id))
        } else {
            None
        }
    }

    /// Attempts to get a mutable operation by ID.
    pub fn try_op_mut(&mut self, id: PlanOpId) -> (r: Option<&mut PlanOp>)
        ensures
            match r {
                Some(op) => id@ < old(self)@.len() && *op == old(self)@[id@ as int] && final(self)@
                    == old(self)@.update(id@ as int, *final(op)) && final(self).root() == old(
                    self,
                ).root(),
                None => id@ >= old(self)@.len() && *final(self) == *old(self),
            },
    {
        if !self.contains_op(id) {
            return None;
        }
        Some(self.ops.get_mut(id))
    }

    /// The operations with their IDs.
    pub fn iter_ops(&self) -> (r: Vec<(PlanOpId, &PlanOp)>)
        requires
            self@.len() <= u32::MAX,
        ensures
            r@.len() == self@.len(),
            forall|i: int|
                0 <= i < r@.len() ==> (#[trigger] r@[i]).0@ == i && *r@[i].1 == self@[i],
    {
        self.ops.entries()
    }

    /// Returns true when this arena contains no operations.
    pub fn is_empty(&self) -> (r: bool)
        ensures
            r == (self@.len() == 0),
    {
        self.ops.is_empty()
    }

    /// Returns the operation count.
    pub fn len(&self) -> (r: usize)
        ensures
            r == self@.len(),
    {
        self.ops.len()
    }

    /// Returns the root operation if one has been set.
    pub fn root_op(&self) -> (r: Option<PlanOpId>)
        ensures
            r == self.root(),
    {
        self.root_op
    }

    /// Sets the root operation.
    pub fn set_root_op(&mut self, root_op: PlanOpId) -> (r: Result<(), PlanInvariantError>)
        ensures
            final(self)@ == old(self)@,
            match r {
                Ok(_) => root_op@ < old(self)@.len() && final(self).root() == Some(root_op)
                    && final(self).wf(),
                Err(error) => root_op@ >= old(self)@.len() && *final(self) == *old(self) && error
                    == (PlanInvariantError::InvalidRootOp {
                    root: root_op,
                    len: old(self)@.len() as usize,
                }),
            },
    {
        if !self.contains_op(root_op) {
            return Err(PlanInvariantError::InvalidRootOp { root: root_op, len: self.ops.len() });
        }
        self.root_op = Some(root_op);
        Ok(())
    }

    /// Returns true if the ID belongs to this operation arena.
    pub fn contains_op(&self, id: PlanOpId) -> (r: bool)
        ensures
            r == (id@ < self@.len()),
    {
        self.ops.contains(id)
    }
}

impl Default for PlannedProgramData {
    fn default() -> (r: PlannedProgramData)
        ensures
            r@ == Seq::<PlanOp>::empty(),
            r.root() is None,
            r.wf(),
    {
        PlannedProgramData::new()
    }
}

} // verus!
