//! Which calls are answered: those that stand in the sources, and no others.

use crate::ra::answer_laws::agrees;
use crate::ra::call_lookup::{
    edges_ordered, law_edges_stay_ordered, with_body, with_files, with_found_call,
    with_references, BodyCall, CallFacts, CallLookupFilters, CallSearch, FileReferences,
    OwnerFacts, Reference, TargetFacts,
};
use crate::ra::call_rows::{
    call_edge_answer, callee_search, edge_row, filters_match, function_record, read_bound,
    read_calls, CallEdgeFacts, CallReadingView, CallRequestView,
};
use crate::ra::core_index::CoreView;
use crate::ra::kinds::{law_dispatch_labels_are_distinct, DispatchKind};
use crate::ra::lookup_store::{lookup_id, synthetic_id, LocalFile, StoreView};
use crate::ra::rows::CallEdgeView;
use crate::ra::source::{key_in_text, span_id_of};
use crate::ra::values::{BoundView, ExternLookupHostValueKind, LookupView};
use vstd::prelude::*;

verus! {

/// The definition of the function or closure that a call stands in.
pub open spec fn owner_def(file: LocalFile, owner: OwnerFacts) -> Option<u64> {
    match owner {
        OwnerFacts::Function(facts) => lookup_id(facts),
        OwnerFacts::Closure(facts) => synthetic_id("closure"@, file, facts),
        OwnerFacts::Nothing => None,
    }
}

/// The edge goes out at a place of the file, from a callable there.
pub open spec fn stands_at(
    file: LocalFile,
    owner: OwnerFacts,
    start: u32,
    end: u32,
    edge: CallEdgeView,
) -> bool {
    &&& owner_def(file, owner) == Some(edge.caller)
    &&& key_in_text(file.rel_path@, file.text@, start, end) is Some
    &&& edge.site == span_id_of(file.file_id, start, end)
}

/// The dispatch is that of a method call: on a trait object it is dynamic, else a
/// method of a trait is found through the trait, else directly.
pub open spec fn finds_method(
    on_trait_object: bool,
    of_trait: bool,
    dispatch: DispatchKind,
) -> bool {
    &&& on_trait_object ==> dispatch == DispatchKind::Dyn
    &&& !on_trait_object && of_trait ==> dispatch == DispatchKind::ThroughTrait
    &&& !on_trait_object && !of_trait ==> dispatch == DispatchKind::Direct
}

/// Reference `k` of the file is a call of the function that the edge tells of.
pub open spec fn use_gives(
    found: FileReferences,
    k: int,
    callee: u64,
    edge: CallEdgeView,
) -> bool {
    0 <= k < found.references@.len() && edge.callee == callee && match found.references@[k] {
        Reference::Method { resolves, owner, start, end, on_trait_object, of_trait } => resolves
            && stands_at(found.file, owner, start, end, edge) && finds_method(
            on_trait_object,
            of_trait,
            edge.dispatch,
        ),
        Reference::Call { resolves, owner, start, end } => resolves && stands_at(
            found.file,
            owner,
            start,
            end,
            edge,
        ) && edge.dispatch == DispatchKind::Direct,
        Reference::Import(_) => false,
        Reference::Other => false,
    }
}

/// A reference of the file is a call of the function that the edge tells of.
pub open spec fn file_gives(found: FileReferences, callee: u64, edge: CallEdgeView) -> bool {
    exists|k: int| #[trigger] use_gives(found, k, callee, edge)
}

/// The callee of a call in a body, and how it is found.
pub open spec fn calls_def(
    file: LocalFile,
    call: CallFacts,
    callee: u64,
    dispatch: DispatchKind,
) -> bool {
    match call {
        CallFacts::Expression(Some(TargetFacts::Function(facts))) => lookup_id(facts) == Some(
            callee,
        ) && dispatch == DispatchKind::Direct,
        CallFacts::Expression(Some(TargetFacts::Closure(facts))) => synthetic_id(
            "closure"@,
            file,
            facts,
        ) == Some(callee) && dispatch == DispatchKind::Closure,
        CallFacts::Expression(Some(TargetFacts::FnPointer(facts))) => synthetic_id(
            "fn_pointer"@,
            file,
            facts,
        ) == Some(callee) && dispatch == DispatchKind::FnPointer,
        CallFacts::Method(Some(method)) => lookup_id(method.function) == Some(callee)
            && finds_method(method.on_trait_object, method.of_trait, dispatch),
        _ => false,
    }
}

/// Call `k` of the body is the one that the edge tells of.
pub open spec fn call_gives(
    file: LocalFile,
    calls: Seq<BodyCall>,
    k: int,
    caller: u64,
    edge: CallEdgeView,
) -> bool {
    0 <= k < calls.len() && edge.caller == caller && stands_at(
        file,
        calls[k].owner,
        calls[k].start,
        calls[k].end,
        edge,
    ) && calls_def(file, calls[k].call, edge.callee, edge.dispatch)
}

/// The edge passes what is asked of calls.
pub open spec fn passes(filters: CallLookupFilters, edge: CallEdgeView) -> bool {
    &&& match filters.peer_filter {
        Some(peer) => edge.callee == peer@ || edge.caller == peer@,
        None => true,
    }
    &&& match filters.site_filter {
        Some(site) => edge.site == site@,
        None => true,
    }
    &&& match filters.dispatch_filter {
        Some(dispatch) => edge.dispatch == dispatch,
        None => true,
    }
}

/// A found call is kept if it passes.
proof fn lemma_found_call(
    search: CallSearch,
    file: LocalFile,
    owner: OwnerFacts,
    start: u32,
    end: u32,
    caller: u64,
    callee: u64,
    dispatch: DispatchKind,
    filters: CallLookupFilters,
)
    requires
        edges_ordered(search.edges),
        owner_def(file, owner) == Some(caller),
    ensures
        ({
            let after = with_found_call(
                search,
                file,
                start,
                end,
                caller,
                callee,
                dispatch,
                filters,
            ).edges;
            &&& edges_ordered(after)
            &&& forall|e: CallEdgeView| #[trigger]
                after.contains(e) <==> search.edges.contains(e) || (stands_at(
                    file,
                    owner,
                    start,
                    end,
                    e,
                ) && e.callee == callee && e.dispatch == dispatch && passes(filters, e))
        }),
{
    let site = span_id_of(file.file_id, start, end);
    let edge = CallEdgeView { caller, callee, site, dispatch };
    law_edges_stay_ordered(search.edges, edge);
    assert forall|e: CallEdgeView|
        stands_at(file, owner, start, end, e) && e.callee == callee && e.dispatch
            == dispatch implies e == edge by {}
}

/// The calls found through the references of a file.
proof fn lemma_references(
    search: CallSearch,
    found: FileReferences,
    callee: u64,
    filters: CallLookupFilters,
    count: nat,
)
    requires
        edges_ordered(search.edges),
        count <= found.references@.len(),
    ensures
        ({
            let after = with_references(
                search,
                found.file,
                found.references@,
                callee,
                filters,
                count,
            ).edges;
            &&& edges_ordered(after)
            &&& forall|e: CallEdgeView| #[trigger]
                after.contains(e) <==> search.edges.contains(e) || (passes(filters, e) && exists|
                    k: int,
                |
                    k < count && #[trigger] use_gives(found, k, callee, e))
        }),
    decreases count,
{
    if count > 0 {
        let file = found.file;
        let refs = found.references@;
        let n = count - 1;
        lemma_references(search, found, callee, filters, n as nat);
        let told = with_references(search, file, refs, callee, filters, n as nat);
        let after = with_references(search, file, refs, callee, filters, count);
        match refs[n] {
            Reference::Method { resolves: true, owner, start, end, on_trait_object, of_trait } => {
                if let Some(caller) = owner_def(file, owner) {
                    let store = crate::ra::call_lookup::owner_of(told.store, file, owner).0;
                    lemma_found_call(
                        CallSearch { store, ..told },
                        file,
                        owner,
                        start,
                        end,
                        caller,
                        callee,
                        crate::ra::call_lookup::method_dispatch_of(on_trait_object, of_trait),
                        filters,
                    );
                }
            },
            Reference::Call { resolves: true, owner, start, end } => {
                if let Some(caller) = owner_def(file, owner) {
                    let store = crate::ra::call_lookup::owner_of(told.store, file, owner).0;
                    lemma_found_call(
                        CallSearch { store, ..told },
                        file,
                        owner,
                        start,
                        end,
                        caller,
                        callee,
                        DispatchKind::Direct,
                        filters,
                    );
                }
            },
            _ => {},
        }
        assert forall|e: CallEdgeView| #[trigger]
            after.edges.contains(e) <==> search.edges.contains(e) || (passes(filters, e) && exists|
                k: int,
            |
                k < count && #[trigger] use_gives(found, k, callee, e)) by {
            assert(after.edges.contains(e) <==> told.edges.contains(e) || (passes(filters, e)
                && use_gives(found, n, callee, e)));
            if exists|k: int| k < count && #[trigger] use_gives(found, k, callee, e) {
                let k = choose|k: int| k < count && #[trigger] use_gives(found, k, callee, e);
                assert(k < n || k == n);
            }
        }
    }
}

/// The calls found through the references of files.
proof fn lemma_files(
    search: CallSearch,
    files: Seq<FileReferences>,
    callee: u64,
    filters: CallLookupFilters,
    count: nat,
)
    requires
        edges_ordered(search.edges),
        count <= files.len(),
    ensures
        ({
            let after = with_files(search, files, callee, filters, count).edges;
            &&& edges_ordered(after)
            &&& forall|e: CallEdgeView| #[trigger]
                after.contains(e) <==> search.edges.contains(e) || (passes(filters, e) && exists|
                    f: int,
                |
                    0 <= f < count && #[trigger] file_gives(files[f], callee, e))
        }),
    decreases count,
{
    if count > 0 {
        let n = count - 1;
        lemma_files(search, files, callee, filters, n as nat);
        let told = with_files(search, files, callee, filters, n as nat);
        let found = files[n];
        lemma_references(told, found, callee, filters, found.references@.len());
        let after = with_files(search, files, callee, filters, count).edges;
        assert forall|e: CallEdgeView| #[trigger]
            after.contains(e) <==> search.edges.contains(e) || (passes(filters, e) && exists|
                f: int,
            |
                0 <= f < count && #[trigger] file_gives(files[f], callee, e)) by {
            if file_gives(found, callee, e) {
                let k = choose|k: int| #[trigger] use_gives(found, k, callee, e);
                assert(k < found.references@.len());
                assert(file_gives(files[n], callee, e));
            }
            if exists|f: int| 0 <= f < count && #[trigger] file_gives(files[f], callee, e) {
                let f = choose|f: int| 0 <= f < count && #[trigger] file_gives(files[f], callee, e);
                assert(f < n || f == n);
            }
        }
    }
}

/// The calls found in a body, up to the first that is not supported.
proof fn lemma_body(
    search: CallSearch,
    file: LocalFile,
    calls: Seq<BodyCall>,
    caller: u64,
    filters: CallLookupFilters,
    count: nat,
)
    requires
        edges_ordered(search.edges),
        count <= calls.len(),
    ensures
        edges_ordered(with_body(search, file, calls, caller, filters, count).0.edges),
        with_body(search, file, calls, caller, filters, count).1 ==> forall|e: CallEdgeView|
            #[trigger]
            with_body(search, file, calls, caller, filters, count).0.edges.contains(e)
                <==> search.edges.contains(e) || (passes(filters, e) && exists|k: int|
                k < count && #[trigger] call_gives(file, calls, k, caller, e)),
    decreases count,
{
    if count > 0 {
        let n = count - 1;
        lemma_body(search, file, calls, caller, filters, n as nat);
        let (told, supported) = with_body(search, file, calls, caller, filters, n as nat);
        if supported {
            let call = calls[n];
            let (owned, owner) = crate::ra::call_lookup::owner_of(told.store, file, call.owner);
            if owner == Some(caller) {
                let (known, callee) = crate::ra::call_lookup::callee_of(owned, file, call.call);
                if let Some(Some((callee, dispatch))) = callee {
                    lemma_found_call(
                        CallSearch { store: known, ..told },
                        file,
                        call.owner,
                        call.start,
                        call.end,
                        caller,
                        callee,
                        dispatch,
                        filters,
                    );
                }
            }
            let (after, done) = with_body(search, file, calls, caller, filters, count);
            if done {
                assert forall|e: CallEdgeView| #[trigger]
                    after.edges.contains(e) <==> search.edges.contains(e) || (passes(filters, e)
                        && exists|k: int|
                        k < count && #[trigger] call_gives(file, calls, k, caller, e)) by {
                    assert(after.edges.contains(e) <==> told.edges.contains(e) || (passes(
                        filters,
                        e,
                    ) && call_gives(file, calls, n, caller, e)));
                    if exists|k: int| k < count && #[trigger] call_gives(file, calls, k, caller, e) {
                        let k = choose|k: int|
                            k < count && #[trigger] call_gives(file, calls, k, caller, e);
                        assert(k < n || k == n);
                    }
                }
            }
        }
    }
}

/// The row tells of the edge: caller, callee, site and dispatch.
pub open spec fn row_tells(row: Seq<LookupView>, edge: CallEdgeView) -> bool {
    &&& row.len() == 4
    &&& row[0] == LookupView::Host(ExternLookupHostValueKind::Def, edge.caller)
    &&& row[1] == LookupView::Host(ExternLookupHostValueKind::Def, edge.callee)
    &&& row[2] == LookupView::Host(ExternLookupHostValueKind::Span, edge.site)
    &&& row[3] matches LookupView::Enum { name, variant } && name == "DispatchKind"@ && match edge.dispatch {
        DispatchKind::Direct => variant == "DIRECT"@,
        DispatchKind::ThroughTrait => variant == "THROUGH_TRAIT"@,
        DispatchKind::Dyn => variant == "DYN"@,
        DispatchKind::Closure => variant == "CLOSURE"@,
        DispatchKind::FnPointer => variant == "FN_POINTER"@,
    }
}

proof fn lemma_row_tells(row: Seq<LookupView>, edge: CallEdgeView)
    ensures
        row_tells(row, edge) <==> row == edge_row(edge),
{
    if row_tells(row, edge) {
        assert(row =~= edge_row(edge));
    }
}

/// The edge has what was read of a request.
spec fn is_wanted(edge: CallEdgeView, read: CallRequestView) -> bool {
    &&& read.caller is Some ==> read.caller == Some(edge.caller)
    &&& read.callee is Some ==> read.callee == Some(edge.callee)
    &&& read.site is Some ==> read.site == Some(edge.site)
    &&& read.dispatch is Some ==> read.dispatch == Some(edge.dispatch)
}

/// An argument is bound at the position.
pub open spec fn binds(request: Seq<BoundView>, position: int) -> bool {
    exists|i: int| 0 <= i < request.len() && (#[trigger] request[i]).position == position
}

/// A request that a row agrees with can be read, and what is read agrees too.
proof fn lemma_agreeing_request_reads(request: Seq<BoundView>, count: nat, edge: CallEdgeView)
    requires
        agrees(request, edge_row(edge)),
        count <= request.len(),
    ensures
        read_bound(request, count) is Calls,
        is_wanted(edge, read_bound(request, count)->Calls_0),
        (read_bound(request, count)->Calls_0).caller is Some <==> binds(
            request.take(count as int),
            0,
        ),
        (read_bound(request, count)->Calls_0).callee is Some <==> binds(
            request.take(count as int),
            1,
        ),
    decreases count,
{
    if count > 0 {
        let n = count - 1;
        lemma_agreeing_request_reads(request, n as nat, edge);
        let bound = request[n];
        let row = edge_row(edge);
        assert(row[bound.position] == bound.value);
        if bound.position == 3 {
            let named = crate::ra::call_rows::dispatch_named(edge.dispatch.label());
            assert(exists|d: DispatchKind| edge.dispatch.label() == #[trigger] d.label());
            law_dispatch_labels_are_distinct(named->0, edge.dispatch);
        }
        let shorter = request.take(n);
        let taken = request.take(count as int);
        assert forall|p: int| binds(taken, p) <==> binds(shorter, p) || bound.position == p by {
            if binds(shorter, p) {
                let i = choose|i: int|
                    0 <= i < shorter.len() && (#[trigger] shorter[i]).position == p;
                assert(taken[i].position == p);
            }
            assert(taken[n] == bound);
            if binds(taken, p) {
                let i = choose|i: int| 0 <= i < taken.len() && (#[trigger] taken[i]).position == p;
                if i < n {
                    assert(shorter[i].position == p);
                }
            }
        }
        assert(binds(taken, 0) <==> binds(shorter, 0) || bound.position == 0);
        assert(binds(taken, 1) <==> binds(shorter, 1) || bound.position == 1);
    } else {
        assert(request.take(0).len() == 0);
    }
}

/// Where a request is answered with calls, the calls are among those read for.
proof fn lemma_reading(request: Seq<BoundView>, edge: CallEdgeView)
    requires
        agrees(request, edge_row(edge)),
        binds(request, 0) || binds(request, 1),
    ensures
        read_calls(request) is Calls,
        is_wanted(edge, read_calls(request)->Calls_0),
        (read_calls(request)->Calls_0).caller is Some <==> binds(request, 0),
        (read_calls(request)->Calls_0).callee is Some <==> binds(request, 1),
{
    lemma_agreeing_request_reads(request, request.len(), edge);
    assert(request.take(request.len() as int) =~= request);
}

/// What is known of the definition says that it is a function.
pub open spec fn is_function(
    core: CoreView,
    store: StoreView,
    facts: CallEdgeFacts,
    def: u64,
) -> bool {
    if store.defs.contains_key(def) {
        store.defs[def].entity matches Some(entity) && entity.is_function
    } else {
        core.functions.contains_key(def) && (facts.function matches Some(function) && lookup_id(
            function,
        ) == Some(def) && function.entity.is_function)
    }
}

proof fn lemma_is_function(core: CoreView, store: StoreView, facts: CallEdgeFacts, def: u64)
    requires
        is_function(core, store, facts, def),
    ensures
        function_record(core, store, def, facts.function).1 is Some,
        crate::ra::lookup_store::function_of(
            (function_record(core, store, def, facts.function).1->0).entity,
        ) is Some,
{
}

proof fn lemma_rows_of(edges: Seq<CallEdgeView>, row: Seq<LookupView>)
    ensures
        crate::ra::call_rows::edge_rows(edges).contains(row) <==> exists|e: CallEdgeView|
            row == edge_row(e) && #[trigger] edges.contains(e),
{
    let rows = crate::ra::call_rows::edge_rows(edges);
    if rows.contains(row) {
        let k = choose|k: int| 0 <= k < rows.len() && rows[k] == row;
        assert(edges.contains(edges[k]));
    }
    if exists|e: CallEdgeView| row == edge_row(e) && #[trigger] edges.contains(e) {
        let e = choose|e: CallEdgeView| row == edge_row(e) && #[trigger] edges.contains(e);
        let k = choose|k: int| 0 <= k < edges.len() && edges[k] == e;
        assert(rows[k] == row);
    }
}

/// Who calls a function: a row is answered if and only if a reference to the
/// function, by a path or as a method, is a call that resolves to it and stands
/// in a known callable at a place of its file, and the row has all that the
/// request binds.
pub proof fn law_callers_are_the_calls_that_resolve(
    request: Seq<BoundView>,
    core: CoreView,
    store: StoreView,
    facts: CallEdgeFacts,
    filters: CallLookupFilters,
    callee: u64,
    edge: CallEdgeView,
    row: Seq<LookupView>,
)
    requires
        !binds(request, 0),
        exists|i: int|
            0 <= i < request.len() && #[trigger] request[i] == (BoundView {
                position: 1,
                value: LookupView::Host(ExternLookupHostValueKind::Def, callee),
            }),
        is_function(core, store, facts, callee),
        read_calls(request) matches CallReadingView::Calls(read) ==> filters_match(filters, read),
        row_tells(row, edge),
        agrees(request, row),
    ensures
        call_edge_answer(request, core, store, facts, filters).1 matches Some(rows) && (
        rows.contains(row) <==> exists|f: int|
            0 <= f < facts.references@.len() && #[trigger] file_gives(
                facts.references@[f],
                callee,
                edge,
            )),
{
    lemma_row_tells(row, edge);
    let at = choose|i: int|
        0 <= i < request.len() && #[trigger] request[i] == (BoundView {
            position: 1,
            value: LookupView::Host(ExternLookupHostValueKind::Def, callee),
        });
    assert(request[at].position == 1);
    lemma_reading(request, edge);
    assert(edge.callee == callee);
    let read = read_calls(request)->Calls_0;
    lemma_is_function(core, store, facts, callee);
    let told = function_record(core, store, callee, facts.function).0;
    let start = CallSearch { store: told, edges: Seq::empty() };
    let files = facts.references@;
    lemma_files(start, files, callee, filters, files.len());
    let edges = with_files(start, files, callee, filters, files.len()).edges;
    lemma_rows_of(edges, row);
    assert forall|e: CallEdgeView| row == edge_row(e) implies e == edge by {
        lemma_same_row(e, edge);
    }
    assert(passes(filters, edge));
    assert(edges.contains(edge) <==> exists|f: int|
        0 <= f < files.len() && #[trigger] file_gives(files[f], callee, edge));
}

proof fn lemma_same_row(a: CallEdgeView, b: CallEdgeView)
    requires
        edge_row(a) == edge_row(b),
    ensures
        a == b,
{
    let x = edge_row(a);
    let y = edge_row(b);
    assert(x[0] == y[0] && x[1] == y[1] && x[2] == y[2] && x[3] == y[3]);
    law_dispatch_labels_are_distinct(a.dispatch, b.dispatch);
}

/// Every callee in the body can be told, but for those that stand in another
/// callable and those that the database does not resolve.
pub open spec fn all_supported(file: LocalFile, calls: Seq<BodyCall>, caller: u64) -> bool {
    forall|k: int|
        0 <= k < calls.len() && owner_def(file, (#[trigger] calls[k]).owner) == Some(caller)
            ==> match calls[k].call {
            CallFacts::Expression(Some(TargetFacts::Function(facts))) => lookup_id(facts) is Some,
            CallFacts::Expression(Some(TargetFacts::Closure(facts))) => synthetic_id(
                "closure"@,
                file,
                facts,
            ) is Some,
            CallFacts::Expression(Some(TargetFacts::FnPointer(facts))) => synthetic_id(
                "fn_pointer"@,
                file,
                facts,
            ) is Some,
            CallFacts::Expression(Some(TargetFacts::Constructor)) => false,
            CallFacts::Expression(None) => true,
            CallFacts::Method(Some(method)) => lookup_id(method.function) is Some,
            CallFacts::Method(None) => true,
        }
}

proof fn lemma_supported(
    search: CallSearch,
    file: LocalFile,
    calls: Seq<BodyCall>,
    caller: u64,
    filters: CallLookupFilters,
    count: nat,
)
    requires
        count <= calls.len(),
    ensures
        with_body(search, file, calls, caller, filters, count).1 <==> all_supported(
            file,
            calls.take(count as int),
            caller,
        ),
    decreases count,
{
    if count > 0 {
        let n = count - 1;
        lemma_supported(search, file, calls, caller, filters, n as nat);
        let shorter = calls.take(n);
        let taken = calls.take(count as int);
        assert(taken[n] == calls[n]);
        if all_supported(file, taken, caller) {
            assert forall|k: int|
                0 <= k < shorter.len() && owner_def(file, (#[trigger] shorter[k]).owner) == Some(
                    caller,
                ) implies taken[k] == shorter[k] by {}
            assert(all_supported(file, shorter, caller));
        }
        if all_supported(file, shorter, caller) {
            assert forall|k: int| 0 <= k < n implies #[trigger] taken[k] == shorter[k] by {}
        }
    }
}

/// Whom a function calls: the request is answered if every callee can be told, and
/// a row is answered if and only if a call in the body stands in the function
/// itself, at a place of the file, its callee is known, and the row has all that
/// the request binds.
pub proof fn law_callees_are_the_calls_of_the_body(
    request: Seq<BoundView>,
    core: CoreView,
    store: StoreView,
    facts: CallEdgeFacts,
    filters: CallLookupFilters,
    caller: u64,
    edge: CallEdgeView,
    row: Seq<LookupView>,
)
    requires
        exists|i: int|
            0 <= i < request.len() && #[trigger] request[i] == (BoundView {
                position: 0,
                value: LookupView::Host(ExternLookupHostValueKind::Def, caller),
            }),
        is_function(core, store, facts, caller),
        read_calls(request) matches CallReadingView::Calls(read) ==> filters_match(filters, read),
        row_tells(row, edge),
        agrees(request, row),
        facts.body is Some,
    ensures
        ({
            let body = facts.body->0;
            let answer = call_edge_answer(request, core, store, facts, filters).1;
            &&& answer is Some <==> all_supported(body.file, body.calls@, caller)
            &&& answer matches Some(rows) ==> (rows.contains(row) <==> exists|k: int| #[trigger]
                call_gives(body.file, body.calls@, k, caller, edge))
        }),
{
    lemma_row_tells(row, edge);
    let at = choose|i: int|
        0 <= i < request.len() && #[trigger] request[i] == (BoundView {
            position: 0,
            value: LookupView::Host(ExternLookupHostValueKind::Def, caller),
        });
    assert(request[at].position == 0);
    lemma_reading(request, edge);
    assert(edge.caller == caller);
    let read = read_calls(request)->Calls_0;
    lemma_is_function(core, store, facts, caller);
    let told = function_record(core, store, caller, facts.function).0;
    let start = CallSearch { store: told, edges: Seq::empty() };
    let body = facts.body->0;
    let calls = body.calls@;
    lemma_body(start, body.file, calls, caller, filters, calls.len());
    lemma_supported(start, body.file, calls, caller, filters, calls.len());
    assert(calls.take(calls.len() as int) =~= calls);
    let (found, supported) = callee_search(told, facts, caller, filters);
    lemma_rows_of(found.edges, row);
    assert forall|e: CallEdgeView| row == edge_row(e) implies e == edge by {
        lemma_same_row(e, edge);
    }
    assert(passes(filters, edge));
    if supported {
        assert(found.edges.contains(edge) <==> exists|k: int|
            k < calls.len() && #[trigger] call_gives(body.file, calls, k, caller, edge));
    }
}

} // verus!
