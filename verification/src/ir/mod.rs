//! Foundational intermediate representation.
//!
//! Query programs are modelled as a phase-typed [`Program`], which keeps the
//! AST, resolved, typed, and planned states distinct at compile time.

pub mod arena;
pub mod ast;
pub mod codes;
pub mod diag;
pub mod ids;
pub mod phase;
pub mod plan;
pub mod program;
pub mod ty;
pub mod typed;
pub mod value;

pub use arena::TermArena;
pub use ast::{AstTerm, AstTermId, AstTermKind};
pub use diag::{DiagnosticCategory, DiagnosticCode, Diagnostics, RaqlDiagnostic, Severity};
pub use ids::{stable_id_text, ArenaId, StableId};
pub use phase::{AstPhase, PlannedPhase, ProgramPhase, ResolvedPhase, TypedPhase};
pub use plan::{
    PlanInvariantError, PlanOp, PlanOpId, PlannedProgramData, PlannedTerm, PlannedTermId,
    PlannedTermKind, ScalarInputRef,
};
pub use program::{
    AstProgram, PlannedProgram, Program, ProgramInvariantError, ResolvedProgram, TermId,
    TypedProgram,
};
pub use ty::{Ty, TyId, TypeInterner};
pub use typed::{TypedTerm, TypedTermId, TypedTermKind};
pub use value::{ScalarValue, ScalarView, Symbol};
