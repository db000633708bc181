//! Which calls the snapshot of a workspace tells of.

use crate::ra::flow_laws::{
    before_flow, in_file, in_sources, law_error_flow_is_told, law_files_keep_rows,
    lemma_before_flow_rows, lemma_call_rows, lemma_method_call_rows, lemma_method_calls_rows,
};
use crate::ra::kinds::DispatchKind;
use crate::ra::lookup_store::LocalFile;
use crate::ra::row_laws::{kept, law_rows_are_added};
use crate::ra::rows::CallEdgeView;
use crate::ra::snapshot::{snapshot_of, stamped, with_crates, with_files, FileFacts};
use crate::ra::snapshot_flow::{
    call_target, method_target, with_call, with_caller, with_calls, with_kept_nodes,
    with_method_call, with_method_calls, CallableClass, SnapCall, SnapMethodCall, SnapTarget,
};
use crate::ra::snapshot_items::ModuleTree;
use crate::ra::snapshot_types::{snapshot_def_id, ModuleFacts, Snapshot};
use crate::ra::source::span_id_of;
use crate::ra::syntax::parsed_tree;
use vstd::prelude::*;

verus! {

/// The call stands in a function of the sources, at a place of the file.
pub open spec fn is_made(
    file: LocalFile,
    caller: Option<ModuleFacts>,
    start: u32,
    end: u32,
) -> bool {
    in_file(file, start, end) && match caller {
        Some(caller) => in_sources(caller),
        None => false,
    }
}

/// The rows tell that the caller calls something at the place, found that way.
pub open spec fn tells_call(
    rows: Seq<CallEdgeView>,
    file: LocalFile,
    caller: ModuleFacts,
    start: u32,
    end: u32,
    dispatch: DispatchKind,
) -> bool {
    exists|callee: u64|
        #[trigger] rows.contains(
            CallEdgeView {
                caller: snapshot_def_id(caller),
                callee,
                site: span_id_of(file.file_id, start, end),
                dispatch,
            },
        )
}

/// The rows tell that the caller calls the definition at the place, found that way.
pub open spec fn tells_call_of(
    rows: Seq<CallEdgeView>,
    file: LocalFile,
    caller: ModuleFacts,
    callee: ModuleFacts,
    start: u32,
    end: u32,
    dispatch: DispatchKind,
) -> bool {
    rows.contains(
        CallEdgeView {
            caller: snapshot_def_id(caller),
            callee: snapshot_def_id(callee),
            site: span_id_of(file.file_id, start, end),
            dispatch,
        },
    )
}

/// The call is told, with its callee and how it is found.
pub open spec fn is_told_call(rows: Seq<CallEdgeView>, file: LocalFile, call: SnapCall) -> bool {
    let caller = call.caller->0;
    match call.target {
        SnapTarget::Function(callee) => in_sources(callee) ==> tells_call_of(
            rows,
            file,
            caller,
            callee,
            call.start,
            call.end,
            DispatchKind::Direct,
        ),
        SnapTarget::TupleStruct(callee) => in_sources(callee) ==> tells_call_of(
            rows,
            file,
            caller,
            callee,
            call.start,
            call.end,
            DispatchKind::Direct,
        ),
        SnapTarget::TupleVariant(callee) => in_sources(callee) ==> tells_call_of(
            rows,
            file,
            caller,
            callee,
            call.start,
            call.end,
            DispatchKind::Direct,
        ),
        SnapTarget::Closure => tells_call(
            rows,
            file,
            caller,
            call.start,
            call.end,
            DispatchKind::Closure,
        ),
        SnapTarget::ClosureExpr => tells_call(
            rows,
            file,
            caller,
            call.start,
            call.end,
            DispatchKind::Closure,
        ),
        SnapTarget::FnPtr => tells_call(
            rows,
            file,
            caller,
            call.start,
            call.end,
            DispatchKind::FnPointer,
        ),
        SnapTarget::FnImpl => tells_call(
            rows,
            file,
            caller,
            call.start,
            call.end,
            DispatchKind::ThroughTrait,
        ),
        SnapTarget::Path(_) => tells_call(
            rows,
            file,
            caller,
            call.start,
            call.end,
            DispatchKind::Direct,
        ) || tells_call(rows, file, caller, call.start, call.end, DispatchKind::Dyn),
        SnapTarget::Other => tells_call(
            rows,
            file,
            caller,
            call.start,
            call.end,
            DispatchKind::Dyn,
        ),
    }
}

/// The method call is told, with the method and how it is found.
pub open spec fn is_told_method_call(
    rows: Seq<CallEdgeView>,
    file: LocalFile,
    call: SnapMethodCall,
) -> bool {
    let caller = call.caller->0;
    match call.method {
        Some(callee) => in_sources(callee) ==> tells_call_of(
            rows,
            file,
            caller,
            callee,
            call.start,
            call.end,
            match call.class {
                Some(CallableClass::FnImpl) => DispatchKind::ThroughTrait,
                Some(CallableClass::Closure) => DispatchKind::Closure,
                Some(CallableClass::FnPtr) => DispatchKind::FnPointer,
                Some(CallableClass::Item) => DispatchKind::Direct,
                None => DispatchKind::Direct,
            },
        ),
        None => tells_call(rows, file, caller, call.start, call.end, DispatchKind::Direct)
            || tells_call(rows, file, caller, call.start, call.end, DispatchKind::Dyn),
    }
}

proof fn lemma_call_told(snapshot: Snapshot, file: LocalFile, call: SnapCall)
    requires
        is_made(file, call.caller, call.start, call.end),
    ensures
        is_told_call(with_call(snapshot, file, call).host.call_edges, file, call),
{
    let (known, caller) = with_caller(snapshot, file, call.caller, call.start, call.end);
    let (told, target) = call_target(known, call);
    let row = CallEdgeView {
        caller: snapshot_def_id(call.caller->0),
        callee: target.0,
        site: span_id_of(file.file_id, call.start, call.end),
        dispatch: target.1,
    };
    law_rows_are_added(told.host.call_edges, row);
    assert(with_call(snapshot, file, call).host.call_edges.contains(row));
}

proof fn lemma_method_call_told(snapshot: Snapshot, file: LocalFile, call: SnapMethodCall)
    requires
        is_made(file, call.caller, call.start, call.end),
    ensures
        is_told_method_call(with_method_call(snapshot, file, call).host.call_edges, file, call),
{
    let (known, caller) = with_caller(snapshot, file, call.caller, call.start, call.end);
    let (told, target) = method_target(known, call);
    let row = CallEdgeView {
        caller: snapshot_def_id(call.caller->0),
        callee: target.0,
        site: span_id_of(file.file_id, call.start, call.end),
        dispatch: target.1,
    };
    law_rows_are_added(told.host.call_edges, row);
    assert(with_method_call(snapshot, file, call).host.call_edges.contains(row));
}

proof fn lemma_tells_kept(
    before: Seq<CallEdgeView>,
    after: Seq<CallEdgeView>,
    file: LocalFile,
    caller: ModuleFacts,
    start: u32,
    end: u32,
    dispatch: DispatchKind,
)
    requires
        kept(before, after),
        tells_call(before, file, caller, start, end, dispatch),
    ensures
        tells_call(after, file, caller, start, end, dispatch),
{
    let callee = choose|callee: u64|
        #[trigger] before.contains(
            CallEdgeView {
                caller: snapshot_def_id(caller),
                callee,
                site: span_id_of(file.file_id, start, end),
                dispatch,
            },
        );
    assert(after.contains(
        CallEdgeView {
            caller: snapshot_def_id(caller),
            callee,
            site: span_id_of(file.file_id, start, end),
            dispatch,
        },
    ));
}

proof fn lemma_told_call_kept(
    before: Seq<CallEdgeView>,
    after: Seq<CallEdgeView>,
    file: LocalFile,
    call: SnapCall,
)
    requires
        kept(before, after),
        is_told_call(before, file, call),
    ensures
        is_told_call(after, file, call),
{
    let caller = call.caller->0;
    assert forall|dispatch: DispatchKind| #[trigger]
        tells_call(before, file, caller, call.start, call.end, dispatch) implies tells_call(
        after,
        file,
        caller,
        call.start,
        call.end,
        dispatch,
    ) by {
        lemma_tells_kept(before, after, file, caller, call.start, call.end, dispatch);
    }
}

proof fn lemma_told_method_call_kept(
    before: Seq<CallEdgeView>,
    after: Seq<CallEdgeView>,
    file: LocalFile,
    call: SnapMethodCall,
)
    requires
        kept(before, after),
        is_told_method_call(before, file, call),
    ensures
        is_told_method_call(after, file, call),
{
    let caller = call.caller->0;
    assert forall|dispatch: DispatchKind| #[trigger]
        tells_call(before, file, caller, call.start, call.end, dispatch) implies tells_call(
        after,
        file,
        caller,
        call.start,
        call.end,
        dispatch,
    ) by {
        lemma_tells_kept(before, after, file, caller, call.start, call.end, dispatch);
    }
}

proof fn lemma_calls_told(
    snapshot: Snapshot,
    file: LocalFile,
    calls: Seq<SnapCall>,
    count: nat,
    k: int,
)
    requires
        0 <= k < count <= calls.len(),
        is_made(file, calls[k].caller, calls[k].start, calls[k].end),
    ensures
        is_told_call(with_calls(snapshot, file, calls, count).host.call_edges, file, calls[k]),
    decreases count,
{
    let told = with_calls(snapshot, file, calls, (count - 1) as nat);
    if k == count - 1 {
        lemma_call_told(told, file, calls[k]);
    } else {
        lemma_calls_told(snapshot, file, calls, (count - 1) as nat, k);
        lemma_call_rows(told, file, calls[count - 1]);
        lemma_told_call_kept(
            told.host.call_edges,
            with_calls(snapshot, file, calls, count).host.call_edges,
            file,
            calls[k],
        );
    }
}

proof fn lemma_method_calls_told(
    snapshot: Snapshot,
    file: LocalFile,
    calls: Seq<SnapMethodCall>,
    count: nat,
    k: int,
)
    requires
        0 <= k < count <= calls.len(),
        is_made(file, calls[k].caller, calls[k].start, calls[k].end),
    ensures
        is_told_method_call(
            with_method_calls(snapshot, file, calls, count).host.call_edges,
            file,
            calls[k],
        ),
    decreases count,
{
    let told = with_method_calls(snapshot, file, calls, (count - 1) as nat);
    if k == count - 1 {
        lemma_method_call_told(told, file, calls[k]);
    } else {
        lemma_method_calls_told(snapshot, file, calls, (count - 1) as nat, k);
        lemma_method_call_rows(told, file, calls[count - 1]);
        lemma_told_method_call_kept(
            told.host.call_edges,
            with_method_calls(snapshot, file, calls, count).host.call_edges,
            file,
            calls[k],
        );
    }
}

/// The calls that a file has before its error flow are in the index of the workspace.
proof fn lemma_edges_reach(
    stamp: Seq<char>,
    crates: Seq<ModuleTree>,
    files: Seq<FileFacts>,
    n: int,
)
    requires
        0 <= n < files.len(),
    ensures
        kept(
            before_flow(
                with_files(with_crates(stamped(stamp), crates, crates.len()), files, n as nat),
                files[n],
            ).host.call_edges,
            snapshot_of(stamp, crates, files).call_edges,
        ),
{
    let known = with_crates(stamped(stamp), crates, crates.len());
    let start = with_files(known, files, n as nat);
    lemma_before_flow_rows(start, files[n]);
    law_error_flow_is_told(before_flow(start, files[n]), files[n].file, files[n].flow);
    law_files_keep_rows(known, files, (n + 1) as nat, files.len());
}

/// Every call that stands in a function of the sources is told in the index of the
/// workspace: by whom, at which place, of what, and how it is found.
pub proof fn law_calls_are_indexed(
    stamp: Seq<char>,
    crates: Seq<ModuleTree>,
    files: Seq<FileFacts>,
    n: int,
    k: int,
)
    requires
        0 <= n < files.len(),
        0 <= k < files[n].calls@.len(),
        ({
            let call = files[n].calls@[k];
            is_made(files[n].file, call.caller, call.start, call.end)
        }),
    ensures
        is_told_call(
            snapshot_of(stamp, crates, files).call_edges,
            files[n].file,
            files[n].calls@[k],
        ),
{
    let facts = files[n];
    let known = with_crates(stamped(stamp), crates, crates.len());
    let start = with_files(known, files, n as nat);
    let tree = parsed_tree(facts.file.text@, facts.file.file_id.read_in());
    let noded = with_kept_nodes(start, facts.file, tree, tree.len());
    let called = with_calls(noded, facts.file, facts.calls@, facts.calls@.len());
    lemma_calls_told(noded, facts.file, facts.calls@, facts.calls@.len(), k);
    lemma_method_calls_rows(
        called,
        facts.file,
        facts.method_calls@,
        facts.method_calls@.len(),
    );
    lemma_edges_reach(stamp, crates, files, n);
    lemma_told_call_kept(
        called.host.call_edges,
        before_flow(start, facts).host.call_edges,
        facts.file,
        facts.calls@[k],
    );
    lemma_told_call_kept(
        before_flow(start, facts).host.call_edges,
        snapshot_of(stamp, crates, files).call_edges,
        facts.file,
        facts.calls@[k],
    );
}

/// Every method call that stands in a function of the sources is told in the index of
/// the workspace.
pub proof fn law_method_calls_are_indexed(
    stamp: Seq<char>,
    crates: Seq<ModuleTree>,
    files: Seq<FileFacts>,
    n: int,
    k: int,
)
    requires
        0 <= n < files.len(),
        0 <= k < files[n].method_calls@.len(),
        ({
            let call = files[n].method_calls@[k];
            is_made(files[n].file, call.caller, call.start, call.end)
        }),
    ensures
        is_told_method_call(
            snapshot_of(stamp, crates, files).call_edges,
            files[n].file,
            files[n].method_calls@[k],
        ),
{
    let facts = files[n];
    let known = with_crates(stamped(stamp), crates, crates.len());
    let start = with_files(known, files, n as nat);
    let tree = parsed_tree(facts.file.text@, facts.file.file_id.read_in());
    let called = with_calls(
        with_kept_nodes(start, facts.file, tree, tree.len()),
        facts.file,
        facts.calls@,
        facts.calls@.len(),
    );
    lemma_method_calls_told(
        called,
        facts.file,
        facts.method_calls@,
        facts.method_calls@.len(),
        k,
    );
    lemma_edges_reach(stamp, crates, files, n);
    lemma_told_method_call_kept(
        before_flow(start, facts).host.call_edges,
        snapshot_of(stamp, crates, files).call_edges,
        facts.file,
        facts.method_calls@[k],
    );
}

} // verus!
