//! The rows of relations only grow.

use crate::ra::host::HostView;
use crate::ra::store::with_row;
use vstd::prelude::*;

verus! {

/// Every row of the one is a row of the other.
pub open spec fn kept<R>(before: Seq<R>, after: Seq<R>) -> bool {
    forall|row: R| #[trigger] before.contains(row) ==> after.contains(row)
}

/// Telling a row adds it and takes none away.
pub proof fn law_rows_are_added<R>(rows: Seq<R>, row: R)
    ensures
        with_row(rows, row).contains(row),
        forall|other: R| #[trigger]
            with_row(rows, row).contains(other) <==> rows.contains(other) || other == row,
        kept(rows, with_row(rows, row)),
{
    let after = with_row(rows, row);
    if !rows.contains(row) {
        assert(after[rows.len() as int] == row);
        assert forall|other: R| #[trigger] after.contains(other) <==> rows.contains(other) || other
            == row by {
            if rows.contains(other) {
                let k = choose|k: int| 0 <= k < rows.len() && rows[k] == other;
                assert(after[k] == other);
            }
            if after.contains(other) && other != row {
                let k = choose|k: int| 0 <= k < after.len() && after[k] == other;
                assert(rows[k] == other);
            }
        }
    }
}

/// Nothing that is told of one index is lost in another.
pub open spec fn rows_kept(before: HostView, after: HostView) -> bool {
    &&& kept(before.fields, after.fields)
    &&& kept(before.variants, after.variants)
    &&& kept(before.methods, after.methods)
    &&& kept(before.trait_methods, after.trait_methods)
    &&& kept(before.implements, after.implements)
    &&& kept(before.from_impls, after.from_impls)
    &&& kept(before.call_edges, after.call_edges)
    &&& kept(before.constructs, after.constructs)
    &&& kept(before.propagates, after.propagates)
    &&& kept(before.converts, after.converts)
    &&& kept(before.handles, after.handles)
    &&& kept(before.compares, after.compares)
    &&& kept(before.writes, after.writes)
}

/// The two indexes have the same rows.
pub open spec fn same_rows(before: HostView, after: HostView) -> bool {
    &&& before.fields == after.fields
    &&& before.variants == after.variants
    &&& before.methods == after.methods
    &&& before.trait_methods == after.trait_methods
    &&& before.implements == after.implements
    &&& before.from_impls == after.from_impls
    &&& before.call_edges == after.call_edges
    &&& same_flow(before, after)
}

/// The two indexes tell the same of errors.
pub open spec fn same_flow(before: HostView, after: HostView) -> bool {
    &&& before.constructs == after.constructs
    &&& before.propagates == after.propagates
    &&& before.converts == after.converts
    &&& before.handles == after.handles
    &&& before.compares == after.compares
    &&& before.writes == after.writes
}

} // verus!
