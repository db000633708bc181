//! Terms of the AST phase.

use crate::ir::ids::ArenaId;
use crate::ir::value::{ScalarValue, Symbol};
use vstd::prelude::*;

verus! {

/// ID of an AST term node allocated in an arena.
pub type AstTermId = ArenaId<AstTerm>;

/// Untyped IR term in the AST phase.
#[derive(Debug, PartialEq, Eq)]
pub struct AstTerm {
    /// Node payload.
    pub kind: AstTermKind,
}

/// AST term variants.
#[derive(Debug, PartialEq, Eq)]
pub enum AstTermKind {
    /// Scalar literal.
    Scalar(ScalarValue),
    /// Variable reference.
    Var(Symbol),
    /// Function or predicate call.
    Call {
        /// Callee term.
        callee: AstTermId,
        /// Argument terms.
        args: Vec<AstTermId>,
    },
    /// Local binding expression.
    Let {
        /// Binding name.
        binding: Symbol,
        /// Bound value.
        value: AstTermId,
        /// Body expression.
        body: AstTermId,
    },
}

impl AstTerm {
    /// Builds a scalar term.
    pub fn scalar(value: ScalarValue) -> (r: Self)
        ensures
            r.kind == AstTermKind::Scalar(value),
    {
        Self { kind: AstTermKind::Scalar(value) }
    }

    /// Builds a variable term.
    pub fn var(name: &str) -> (r: Self)
        ensures
            r.kind matches AstTermKind::Var(symbol) && symbol@ == name@,
    {
        Self { kind: AstTermKind::Var(Symbol::new(name)) }
    }

    /// Builds a call term.
    pub fn call(callee: AstTermId, args: Vec<AstTermId>) -> (r: Self)
        ensures
            r.kind == (AstTermKind::Call { callee, args }),
    {
        Self { kind: AstTermKind::Call { callee, args } }
    }

    /// Builds a `let` term.
    pub fn let_in(binding: &str, value: AstTermId, body: AstTermId) -> (r: Self)
        ensures
            r.kind matches AstTermKind::Let { binding: name, value: bound, body: inner } && name@
                == binding@ && bound == value && inner == body,
    {
        Self { kind: AstTermKind::Let { binding: Symbol::new(binding), value, body } }
    }
}

} // verus!
