//! The physical-operator contract between planner, engine, and semantic
//! host.

use crate::text::{after_last, text_after_last};
use vstd::prelude::*;

verus! {

/// The closed vocabulary of physical operators, one per catalog-declared
/// (predicate, mode) pair.
///
/// The catalog is the single source of truth, so the set is closed: adding a
/// catalog entry adds a variant here, and every [`OperatorSet`]
/// implementation has to handle it.
#[derive(Clone, Copy, Debug, PartialEq, Eq, Hash, Structural)]
pub enum OperatorId {
    /// `def_name(+D, -Name)`: name projection of one definition.
    NameOfDef,
    /// `def_name(-D, +Name)`: exact-name seed via the symbol index.
    DefsByExactName,
    /// `def_name(-D, -Name)`: enumeration of named definitions.
    DefNamesScan,
    /// `def_kind(+D, -K)`: kind projection of one definition.
    KindOfDef,
    /// `def_path(+D, -P)`: canonical module path of one definition.
    CanonicalPathOfDef,
    /// `def_span(+D, -S)`: primary-source span of one definition.
    SpanOfDef,
    /// `def_at(+File, +Pos, -D)`: definition at a file position.
    DefAtPosition,
    /// `def(-D)`: enumeration of every definition.
    DefsScan,
    /// `fn_def(-D)`: enumeration of every function.
    FnDefsScan,
    /// `callee(+F, -Callee, -Site, -Disp)`: outgoing call edges of a body.
    CalleesOfFn,
    /// `caller(+F, -CallerFn, -Site, -Disp)`: incoming call edges via
    /// reference search.
    CallersOfFn,
    /// `call_edge(+Caller, -Callee, -Site, -Disp)`: composition over the
    /// outgoing direction.
    CallEdgesByCaller,
    /// `call_edge(-Caller, +Callee, -Site, -Disp)`: composition over the
    /// incoming direction.
    CallEdgesByCallee,
    /// `call_edge(-Caller, -Callee, -Site, -Disp)`: enumeration expanded
    /// through the outgoing direction.
    CallEdgesScan,
    /// `is_public(+D)`: visibility filter.
    IsPublicFilter,
    /// `in_test(+D)`: test-code filter.
    InTestFilter,
    /// `span_allowed(+S)`: request-scope filter.
    SpanAllowedFilter,
    /// `handle(+D, -H)`: semantic handle of one definition.
    HandleOfDef,
    /// `span_key(+S, -Path, -L0, -C0, -L1, -C1)`: location projection of one
    /// span.
    SpanKeyOfSpan,
}

impl OperatorId {
    /// The stable name: the predicate, a slash, the label of the access path.
    pub open spec fn full_name(self) -> Seq<char> {
        match self {
            OperatorId::NameOfDef => "def_name/name-of-def"@,
            OperatorId::DefsByExactName => "def_name/defs-by-exact-name"@,
            OperatorId::DefNamesScan => "def_name/scan"@,
            OperatorId::KindOfDef => "def_kind/kind-of-def"@,
            OperatorId::CanonicalPathOfDef => "def_path/canonical-path-of-def"@,
            OperatorId::SpanOfDef => "def_span/span-of-def"@,
            OperatorId::DefAtPosition => "def_at/classify-at-position"@,
            OperatorId::DefsScan => "def/scan"@,
            OperatorId::FnDefsScan => "fn_def/scan"@,
            OperatorId::CalleesOfFn => "callee/callees-of-fn"@,
            OperatorId::CallersOfFn => "caller/callers-of-fn"@,
            OperatorId::CallEdgesByCaller => "call_edge/by-caller"@,
            OperatorId::CallEdgesByCallee => "call_edge/by-callee"@,
            OperatorId::CallEdgesScan => "call_edge/scan"@,
            OperatorId::IsPublicFilter => "is_public/filter"@,
            OperatorId::InTestFilter => "in_test/filter"@,
            OperatorId::SpanAllowedFilter => "span_allowed/filter"@,
            OperatorId::HandleOfDef => "handle/handle-of-def"@,
            OperatorId::SpanKeyOfSpan => "span_key/span-key-of-span"@,
        }
    }

    /// Stable name used in explain and capabilities output.
    pub fn name(self) -> (r: &'static str)
        ensures
            r@ == self.full_name(),
    {
        match self {
            OperatorId::NameOfDef => "def_name/name-of-def",
            OperatorId::DefsByExactName => "def_name/defs-by-exact-name",
            OperatorId::DefNamesScan => "def_name/scan",
            OperatorId::KindOfDef => "def_kind/kind-of-def",
            OperatorId::CanonicalPathOfDef => "def_path/canonical-path-of-def",
            OperatorId::SpanOfDef => "def_span/span-of-def",
            OperatorId::DefAtPosition => "def_at/classify-at-position",
            OperatorId::DefsScan => "def/scan",
            OperatorId::FnDefsScan => "fn_def/scan",
            OperatorId::CalleesOfFn => "callee/callees-of-fn",
            OperatorId::CallersOfFn => "caller/callers-of-fn",
            OperatorId::CallEdgesByCaller => "call_edge/by-caller",
            OperatorId::CallEdgesByCallee => "call_edge/by-callee",
            OperatorId::CallEdgesScan => "call_edge/scan",
            OperatorId::IsPublicFilter => "is_public/filter",
            OperatorId::InTestFilter => "in_test/filter",
            OperatorId::SpanAllowedFilter => "span_allowed/filter",
            OperatorId::HandleOfDef => "handle/handle-of-def",
            OperatorId::SpanKeyOfSpan => "span_key/span-key-of-span",
        }
    }

    /// The short label of the operator: what stands behind the last slash of
    /// its name.
    pub fn label(self) -> (r: String)
        ensures
            r@ == after_last(self.full_name(), '/'),
    {
        text_after_last(self.name(), '/')
    }
}

/// The physical-operator invocation contract, implemented by the host.
///
/// - `operator` is the catalog-declared binding of one (predicate, mode).
/// - `inputs` are the values of the mode's `+` arguments, in predicate
///   declaration order.
/// - The result rows are full tuples over all predicate arguments, in
///   declaration order; bound positions echo their input value.
/// - Operator errors are errors: implementations never degrade to a
///   different access path, and callers never treat an error as an empty
///   relation.
pub trait OperatorSet {
    type Value;

    type Error;

    fn invoke(&mut self, operator: OperatorId, inputs: &[Self::Value]) -> Result<
        Vec<Vec<Self::Value>>,
        Self::Error,
    >;
}

} // verus!
