//! Terms of the typed phase.

use crate::ir::ids::ArenaId;
use crate::ir::ty::TyId;
use crate::ir::value::{ScalarValue, Symbol};
use vstd::prelude::*;

verus! {

/// ID of a typed term node allocated in an arena.
pub type TypedTermId = ArenaId<TypedTerm>;

/// Type-checked IR term.
#[derive(Debug, PartialEq, Eq)]
pub struct TypedTerm {
    /// Fully resolved type for this node.
    pub ty: TyId,
    /// Node payload.
    pub kind: TypedTermKind,
}

/// Typed term variants.
#[derive(Debug, PartialEq, Eq)]
pub enum TypedTermKind {
    /// Scalar literal.
    Scalar(ScalarValue),
    /// Variable reference.
    Var(Symbol),
    /// Function call.
    Call {
        /// Callee term.
        callee: TypedTermId,
        /// Argument terms.
        args: Vec<TypedTermId>,
    },
    /// Local binding expression.
    Let {
        /// Binding name.
        binding: Symbol,
        /// Bound value.
        value: TypedTermId,
        /// Body expression.
        body: TypedTermId,
    },
    /// Explicit cast from one type to another.
    Cast {
        /// Value being cast.
        value: TypedTermId,
        /// Target type.
        target: TyId,
    },
}

impl TypedTerm {
    /// Builds a scalar typed term.
    pub fn scalar(ty: TyId, value: ScalarValue) -> (r: Self)
        ensures
            r == (TypedTerm { ty, kind: TypedTermKind::Scalar(value) }),
    {
        Self { ty, kind: TypedTermKind::Scalar(value) }
    }

    /// Builds a variable typed term.
    pub fn var(ty: TyId, name: &str) -> (r: Self)
        ensures
            r.ty == ty,
            r.kind matches TypedTermKind::Var(symbol) && symbol@ == name@,
    {
        Self { ty, kind: TypedTermKind::Var(Symbol::new(name)) }
    }

    /// Builds a call typed term.
    pub fn call(ty: TyId, callee: TypedTermId, args: Vec<TypedTermId>) -> (r: Self)
        ensures
            r == (TypedTerm { ty, kind: TypedTermKind::Call { callee, args } }),
    {
        Self { ty, kind: TypedTermKind::Call { callee, args } }
    }

    /// Builds a `let` typed term.
    pub fn let_in(ty: TyId, binding: &str, value: TypedTermId, body: TypedTermId) -> (r: Self)
        ensures
            r.ty == ty,
            r.kind matches TypedTermKind::Let { binding: name, value: bound, body: inner } && name@
                == binding@ && bound == value && inner == body,
    {
        Self { ty, kind: TypedTermKind::Let { binding: Symbol::new(binding), value, body } }
    }

    /// Builds an explicit cast or coercion node.
    pub fn cast(ty: TyId, value: TypedTermId, target: TyId) -> (r: Self)
        ensures
            r == (TypedTerm { ty, kind: TypedTermKind::Cast { value, target } }),
    {
        Self { ty, kind: TypedTermKind::Cast { value, target } }
    }
}

} // verus!
