//! The phases of a program.

use crate::ir::ast::AstTerm;
use crate::ir::plan::{PlannedProgramData, PlannedTerm};
use crate::ir::typed::TypedTerm;
use vstd::prelude::*;

verus! {

/// A phase of a program.
pub trait ProgramPhase: Sized {
    /// Term node type used in this phase.
    type Term;

    /// Extra phase-specific data attached to a program.
    type PhaseData: Default;
}

/// AST phase marker.
#[derive(Debug, Clone, Copy, PartialEq, Eq)]
pub struct AstPhase;

/// Typed phase marker.
#[derive(Debug, Clone, Copy, PartialEq, Eq)]
pub struct TypedPhase;

/// Resolved phase marker.
#[derive(Debug, Clone, Copy, PartialEq, Eq)]
pub struct ResolvedPhase;

/// Planned phase marker.
#[derive(Debug, Clone, Copy, PartialEq, Eq)]
pub struct PlannedPhase;

impl ProgramPhase for AstPhase {
    type Term = AstTerm;

    type PhaseData = ();
}

impl ProgramPhase for TypedPhase {
    type Term = TypedTerm;

    type PhaseData = ();
}

impl ProgramPhase for ResolvedPhase {
    type Term = AstTerm;

    type PhaseData = ();
}

impl ProgramPhase for PlannedPhase {
    type Term = PlannedTerm;

    type PhaseData = PlannedProgramData;
}

} // verus!
