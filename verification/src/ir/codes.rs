//! The stable codes of the early phases.

use crate::ir::diag::{DiagnosticCategory, DiagnosticCode};
use vstd::prelude::*;

verus! {

/// Unexpected or unsupported token in parsing.
pub fn parse_unexpected_token() -> (r: DiagnosticCode)
    ensures
        r.spec_category() is Parse,
        r.spec_index() == 1,
{
    DiagnosticCode::new(DiagnosticCategory::Parse, 1)
}

/// Type mismatch during checking.
pub fn type_mismatch() -> (r: DiagnosticCode)
    ensures
        r.spec_category() is Type,
        r.spec_index() == 1,
{
    DiagnosticCode::new(DiagnosticCategory::Type, 1)
}

/// Planner could not lower an operation.
pub fn plan_unsupported_op() -> (r: DiagnosticCode)
    ensures
        r.spec_category() is Mode,
        r.spec_index() == 1,
{
    DiagnosticCode::new(DiagnosticCategory::Mode, 1)
}

/// Host could not provide expected scalar.
pub fn host_missing_scalar_input() -> (r: DiagnosticCode)
    ensures
        r.spec_category() is Runtime,
        r.spec_index() == 1,
{
    DiagnosticCode::new(DiagnosticCategory::Runtime, 1)
}

/// Internal invariant failure.
pub fn internal_invariant() -> (r: DiagnosticCode)
    ensures
        r.spec_category() is Internal,
        r.spec_index() == 1,
{
    DiagnosticCode::new(DiagnosticCategory::Internal, 1)
}

} // verus!
