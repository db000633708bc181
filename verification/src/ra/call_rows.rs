//! Answering who calls whom.

use crate::host::{DefId, SpanId};
use crate::ra::call_lookup::{
    collect_lookup_call_edges_for_function, collect_lookup_callers_for_function, edge_views,
    file_indexable, call_indexable, with_body, with_files, BodyCall, CallLookupFilters, CallSearch,
    FileReferences,
};
use crate::ra::core_index::{CoreLookupIndex, CoreView};
use crate::ra::host::opt_def;
use crate::ra::kinds::{dispatch_kind_from_variant, DispatchKind};
use crate::ra::lookup_store::{
    ensure_lookup_symbol_module_def, facts_indexable, function_of, lookup_id, DefFacts, LocalFile,
    LookupDefRecord, LookupDefView, LookupStore, StoreView,
};
use crate::ra::lookups::{core_view, core_wf, no_rows, opt_rows, opt_span};
use crate::ra::rows::{same_def, CallEdgeRow, CallEdgeView};
use crate::ra::source::indexable;
use crate::ra::values::{
    as_def, as_span, as_variant, def_value, def_view, dispatch_lookup_value, dispatch_view,
    row_view, rows_view, span_value, span_view, BoundView, ExternLookupRequest, ExternLookupValue,
    LookupView,
};
use vstd::prelude::*;

verus! {

/// What a request for calls asks.
#[derive(Debug, Clone, Copy)]
pub struct CallRequest {
    pub caller: Option<DefId>,
    pub callee: Option<DefId>,
    pub site: Option<SpanId>,
    pub dispatch: Option<DispatchKind>,
}

/// What a request asks.
#[verifier::ext_equal]
pub struct CallRequestView {
    pub caller: Option<u64>,
    pub callee: Option<u64>,
    pub site: Option<u64>,
    pub dispatch: Option<DispatchKind>,
}

impl View for CallRequest {
    type V = CallRequestView;

    open spec fn view(&self) -> CallRequestView {
        CallRequestView {
            caller: opt_def(self.caller),
            callee: opt_def(self.callee),
            site: opt_span(self.site),
            dispatch: self.dispatch,
        }
    }
}

/// What reading a request for calls comes to.
pub enum CallReading {
    /// The lookup does not support the request.
    Unsupported,
    /// No call can agree with the request.
    Nothing,
    Calls(CallRequest),
}

/// What reading a request for calls comes to.
pub enum CallReadingView {
    Unsupported,
    Nothing,
    Calls(CallRequestView),
}

impl View for CallReading {
    type V = CallReadingView;

    open spec fn view(&self) -> CallReadingView {
        match self {
            CallReading::Unsupported => CallReadingView::Unsupported,
            CallReading::Nothing => CallReadingView::Nothing,
            CallReading::Calls(request) => CallReadingView::Calls(request@),
        }
    }
}

/// The dispatch that a label names.
pub open spec fn dispatch_named(label: Seq<char>) -> Option<DispatchKind> {
    if exists|dispatch: DispatchKind| label == #[trigger] dispatch.label() {
        Some(choose|dispatch: DispatchKind| label == #[trigger] dispatch.label())
    } else {
        None
    }
}

/// A request read so far, with one bound argument more.
pub open spec fn with_bound(request: CallRequestView, bound: BoundView) -> CallReadingView {
    if bound.position == 0 && as_def(bound.value) is Some {
        CallReadingView::Calls(CallRequestView { caller: as_def(bound.value), ..request })
    } else if bound.position == 1 && as_def(bound.value) is Some {
        CallReadingView::Calls(CallRequestView { callee: as_def(bound.value), ..request })
    } else if bound.position == 2 && as_span(bound.value) is Some {
        CallReadingView::Calls(CallRequestView { site: as_span(bound.value), ..request })
    } else if bound.position == 3 {
        match as_variant(bound.value, "DispatchKind"@) {
            Some(label) => match dispatch_named(label) {
                Some(dispatch) => CallReadingView::Calls(
                    CallRequestView { dispatch: Some(dispatch), ..request },
                ),
                None => CallReadingView::Nothing,
            },
            None => CallReadingView::Unsupported,
        }
    } else {
        CallReadingView::Unsupported
    }
}

/// The first `count` bound arguments read; the first that cannot be read
/// decides.
pub open spec fn read_bound(request: Seq<BoundView>, count: nat) -> CallReadingView
    decreases count,
{
    if count == 0 {
        CallReadingView::Calls(
            CallRequestView { caller: None, callee: None, site: None, dispatch: None },
        )
    } else {
        match read_bound(request, (count - 1) as nat) {
            CallReadingView::Calls(read) => with_bound(read, request[count - 1]),
            other => other,
        }
    }
}

/// What a request for calls asks: a caller or a callee must be bound.
pub open spec fn read_calls(request: Seq<BoundView>) -> CallReadingView {
    match read_bound(request, request.len()) {
        CallReadingView::Calls(read) => if read.caller is None && read.callee is None {
            CallReadingView::Unsupported
        } else {
            CallReadingView::Calls(read)
        },
        other => other,
    }
}

/// Once an argument cannot be read no more are.
proof fn lemma_reading_stops(request: Seq<BoundView>, count: nat, more: nat)
    requires
        count <= more,
        !(read_bound(request, count) is Calls),
    ensures
        read_bound(request, more) == read_bound(request, count),
    decreases more,
{
    if count < more {
        lemma_reading_stops(request, count, (more - 1) as nat);
    }
}

/// Reads a request for calls.
pub fn read_call_request(request: &ExternLookupRequest) -> (r: CallReading)
    ensures
        r@ == read_calls(request@),
{
    let mut read = CallRequest { caller: None, callee: None, site: None, dispatch: None };
    let mut i: usize = 0;
    while i < request.len()
        invariant
            i <= request@.len(),
            read_bound(request@, i as nat) == CallReadingView::Calls(read@),
        decreases request@.len() - i,
    {
        let position = request.position(i);
        let value = request.value(i);
        let ghost before = read@;
        let mut failed: Option<CallReading> = None;
        if position == 0 {
            match value.to_def() {
                Some(def) => {
                    read.caller = Some(def);
                },
                None => {
                    failed = Some(CallReading::Unsupported);
                },
            }
        } else if position == 1 {
            match value.to_def() {
                Some(def) => {
                    read.callee = Some(def);
                },
                None => {
                    failed = Some(CallReading::Unsupported);
                },
            }
        } else if position == 2 {
            match value.to_span() {
                Some(span) => {
                    read.site = Some(span);
                },
                None => {
                    failed = Some(CallReading::Unsupported);
                },
            }
        } else if position == 3 {
            match value.to_variant("DispatchKind") {
                Some(label) => match dispatch_kind_from_variant(label) {
                    Some(dispatch) => {
                        proof {
                            let named = choose|d: DispatchKind| label@ == #[trigger] d.label();
                            assert(label@ == dispatch.label());
                            crate::ra::kinds::law_dispatch_labels_are_distinct(named, dispatch);
                        }
                        read.dispatch = Some(dispatch);
                    },
                    None => {
                        failed = Some(CallReading::Nothing);
                    },
                },
                None => {
                    failed = Some(CallReading::Unsupported);
                },
            }
        } else {
            failed = Some(CallReading::Unsupported);
        }
        match failed {
            Some(reading) => {
                proof {
                    assert(with_bound(before, request@[i as int]) == reading@);
                    lemma_reading_stops(request@, (i + 1) as nat, request@.len());
                }
                return reading;
            },
            None => {},
        }
        assert(with_bound(before, request@[i as int]) == CallReadingView::Calls(read@));
        i += 1;
    }
    if read.caller.is_none() && read.callee.is_none() {
        return CallReading::Unsupported;
    }
    CallReading::Calls(read)
}

/// What the database says for a request for calls.
pub struct CallEdgeFacts {
    /// The function that the index has for the asked definition.
    pub function: Option<DefFacts>,
    /// The file of the asked caller's body and the calls in it, if the body can
    /// be read.
    pub body: Option<CallerBody>,
    /// The references to the asked callee.
    pub references: Vec<FileReferences>,
}

/// The file of a body and the calls in it.
pub struct CallerBody {
    pub file: LocalFile,
    pub calls: Vec<BodyCall>,
}

/// The sources that the facts speak of can be indexed.
pub open spec fn edge_facts_indexable(facts: CallEdgeFacts) -> bool {
    &&& match facts.function {
        Some(function) => facts_indexable(function),
        None => true,
    }
    &&& match facts.body {
        Some(body) => indexable(body.file.text@) && forall|i: int|
            0 <= i < body.calls@.len() ==> call_indexable(#[trigger] body.calls@[i]),
        None => true,
    }
    &&& forall|i: int|
        0 <= i < facts.references@.len() ==> file_indexable(#[trigger] facts.references@[i])
}

/// What is known of the asked definition, and the store once it has been looked
/// up. A definition that was not looked up before is, if the index has its
/// function.
pub open spec fn function_record(
    core: CoreView,
    store: StoreView,
    def: u64,
    function: Option<DefFacts>,
) -> (StoreView, Option<LookupDefView>) {
    if store.defs.contains_key(def) {
        (store, Some(store.defs[def]))
    } else if core.functions.contains_key(def) {
        match function {
            Some(facts) => {
                let told = store.with_facts(facts);
                if lookup_id(facts) == Some(def) {
                    (told, Some(told.defs[def]))
                } else {
                    (told, None)
                }
            },
            None => (store, None),
        }
    } else {
        (store, None)
    }
}

/// The key of the function that a definition is: what was looked up decides, else
/// the index.
pub open spec fn known_function(core: CoreView, store: StoreView, def: u64) -> Option<u64> {
    if store.defs.contains_key(def) {
        function_of(store.defs[def].entity)
    } else if core.functions.contains_key(def) {
        Some(core.functions[def])
    } else {
        None
    }
}

/// What the database is to be asked for a request for calls.
#[derive(Debug, Clone, Copy, PartialEq, Eq, Structural)]
pub enum CallQuestion {
    Nothing,
    /// The calls in the body of the function with the key.
    BodyOf(u64),
    /// The references to the function with the key.
    UsesOf(u64),
}

/// What the database is to be asked for a request for calls: a bound caller's
/// body, else the uses of the bound callee.
pub open spec fn call_question(
    request: Seq<BoundView>,
    core: CoreView,
    store: StoreView,
) -> CallQuestion {
    match read_calls(request) {
        CallReadingView::Calls(read) => match (read.caller, read.callee) {
            (Some(caller), _) => match known_function(core, store, caller) {
                Some(function) => CallQuestion::BodyOf(function),
                None => CallQuestion::Nothing,
            },
            (None, Some(callee)) => match known_function(core, store, callee) {
                Some(function) => CallQuestion::UsesOf(function),
                None => CallQuestion::Nothing,
            },
            (None, None) => CallQuestion::Nothing,
        },
        _ => CallQuestion::Nothing,
    }
}

/// The key of the function that a definition is.
fn function_key(core: Option<&CoreLookupIndex>, store: &LookupStore, def: DefId) -> (r: Option<u64>)
    requires
        core_wf(core),
        store.wf(),
    ensures
        r == known_function(core_view(core), store@, def@),
{
    match store.defs.get(def.stable_id().as_u64()) {
        Some(record) => match record.entity {
            Some(entity) => entity.as_function(),
            None => None,
        },
        None => match core {
            Some(index) => index.function(def),
            None => None,
        },
    }
}

/// What the database is to be asked for a request for calls.
pub fn ask_for_calls(
    request: &ExternLookupRequest,
    core: Option<&CoreLookupIndex>,
    store: &LookupStore,
) -> (r: CallQuestion)
    requires
        core_wf(core),
        store.wf(),
    ensures
        r == call_question(request@, core_view(core), store@),
{
    let read = match read_call_request(request) {
        CallReading::Calls(read) => read,
        _ => {
            return CallQuestion::Nothing;
        },
    };
    match (read.caller, read.callee) {
        (Some(caller), _) => match function_key(core, store, caller) {
            Some(function) => CallQuestion::BodyOf(function),
            None => CallQuestion::Nothing,
        },
        (None, Some(callee)) => match function_key(core, store, callee) {
            Some(function) => CallQuestion::UsesOf(function),
            None => CallQuestion::Nothing,
        },
        (None, None) => CallQuestion::Nothing,
    }
}

/// What an optional record says.
pub open spec fn opt_record(record: Option<LookupDefRecord>) -> Option<LookupDefView> {
    match record {
        Some(record) => Some(record@),
        None => None,
    }
}

/// What is known of the asked definition.
pub fn lookup_function_record(
    core: Option<&CoreLookupIndex>,
    store: &mut LookupStore,
    def: DefId,
    function: &Option<DefFacts>,
) -> (r: Option<LookupDefRecord>)
    requires
        core_wf(core),
        old(store).wf(),
        match function {
            Some(facts) => facts_indexable(*facts),
            None => true,
        },
    ensures
        final(store).wf(),
        (final(store)@, opt_record(r)) == function_record(
            core_view(core),
            old(store)@,
            def@,
            *function,
        ),
{
    let raw = def.stable_id().as_u64();
    match store.defs.get(raw) {
        Some(record) => {
            return Some(record.copy());
        },
        None => {},
    }
    let known = match core {
        Some(index) => index.function(def).is_some(),
        None => false,
    };
    if !known {
        return None;
    }
    match function {
        Some(facts) => match ensure_lookup_symbol_module_def(store, facts) {
            Some(seeded) => {
                if !same_def(seeded, def) {
                    return None;
                }
                match store.defs.get(raw) {
                    Some(record) => Some(record.copy()),
                    None => None,
                }
            },
            None => None,
        },
        None => None,
    }
}

/// The row of a call.
pub open spec fn edge_row(edge: CallEdgeView) -> Seq<LookupView> {
    seq![
        def_view(edge.caller),
        def_view(edge.callee),
        span_view(edge.site),
        dispatch_view(edge.dispatch),
    ]
}

/// The rows of calls.
pub open spec fn edge_rows(edges: Seq<CallEdgeView>) -> Seq<Seq<LookupView>> {
    Seq::new(edges.len(), |i: int| edge_row(edges[i]))
}

/// The rows of calls.
fn rows_of_edges(edges: &Vec<CallEdgeRow>) -> (r: Vec<Vec<ExternLookupValue>>)
    ensures
        rows_view(r@) == edge_rows(edge_views(edges@)),
{
    let ghost want = edge_rows(edge_views(edges@));
    let mut rows = no_rows();
    let mut i: usize = 0;
    assert(rows_view(rows@) =~= want.take(0));
    while i < edges.len()
        invariant
            i <= edges@.len(),
            want == edge_rows(edge_views(edges@)),
            rows_view(rows@) == want.take(i as int),
        decreases edges.len() - i,
    {
        let edge = &edges[i];
        let mut row: Vec<ExternLookupValue> = Vec::new();
        row.push(def_value(edge.caller));
        row.push(def_value(edge.callee));
        row.push(span_value(edge.site));
        row.push(dispatch_lookup_value(edge.dispatch));
        let ghost before = rows_view(rows@);
        proof {
            assert(edge_views(edges@)[i as int] == edge@);
            assert(row_view(row@) =~= edge_row(edge@));
            assert(want[i as int] == edge_row(edge@));
        }
        let ghost shown = row_view(row@);
        rows.push(row);
        proof {
            assert(rows_view(rows@) =~= before.push(shown));
            assert(want.take(i + 1) =~= want.take(i as int).push(want[i as int]));
        }
        i += 1;
    }
    assert(want.take(i as int) =~= want);
    rows
}

/// The calls that the caller's body holds, if the lookup supports them all.
pub open spec fn callee_search(
    store: StoreView,
    facts: CallEdgeFacts,
    caller: u64,
    filters: CallLookupFilters,
) -> (CallSearch, bool) {
    let start = CallSearch { store, edges: Seq::empty() };
    match facts.body {
        Some(body) => with_body(start, body.file, body.calls@, caller, filters, body.calls@.len()),
        None => (start, true),
    }
}

/// The answer to who calls whom, and the store once it has been looked for.
/// Nothing is kept where the request is not answered.
pub open spec fn call_edge_answer(
    request: Seq<BoundView>,
    core: CoreView,
    store: StoreView,
    facts: CallEdgeFacts,
    filters: CallLookupFilters,
) -> (StoreView, Option<Seq<Seq<LookupView>>>) {
    match read_calls(request) {
        CallReadingView::Unsupported => (store, None),
        CallReadingView::Nothing => (store, Some(Seq::empty())),
        CallReadingView::Calls(read) => {
            let asked = match read.caller {
                Some(caller) => caller,
                None => read.callee->0,
            };
            let (told, record) = function_record(core, store, asked, facts.function);
            match record {
                None => (store, None),
                Some(record) => if function_of(record.entity) is None {
                    (store, Some(Seq::empty()))
                } else if read.caller is Some {
                    let (found, supported) = callee_search(told, facts, asked, filters);
                    if supported {
                        (found.store, Some(edge_rows(found.edges)))
                    } else {
                        (store, None)
                    }
                } else {
                    let found = with_files(
                        CallSearch { store: told, edges: Seq::empty() },
                        facts.references@,
                        asked,
                        filters,
                        facts.references@.len(),
                    );
                    (found.store, Some(edge_rows(found.edges)))
                },
            }
        },
    }
}

/// The filters of a request: the peer is the callee where a caller is asked for.
pub open spec fn filters_match(filters: CallLookupFilters, read: CallRequestView) -> bool {
    &&& opt_def(filters.peer_filter) == if read.caller is Some {
        read.callee
    } else {
        None
    }
    &&& opt_span(filters.site_filter) == read.site
    &&& filters.dispatch_filter == read.dispatch
}

/// Who calls whom. The facts are those of the asked caller, or of the asked
/// callee where no caller is asked for.
pub fn lookup_call_edge_rows(
    request: &ExternLookupRequest,
    core: Option<&CoreLookupIndex>,
    store: &mut LookupStore,
    facts: &CallEdgeFacts,
) -> (r: Option<Vec<Vec<ExternLookupValue>>>)
    requires
        core_wf(core),
        old(store).wf(),
        edge_facts_indexable(*facts),
    ensures
        final(store).wf(),
        exists|filters: CallLookupFilters| #[trigger]
            call_edge_answer(request@, core_view(core), old(store)@, *facts, filters) == (
                final(store)@,
                opt_rows(r),
            ) && (read_calls(request@) is Calls ==> filters_match(
                filters,
                read_calls(request@)->Calls_0,
            )),
{
    let read = match read_call_request(request) {
        CallReading::Unsupported => {
            let filters = CallLookupFilters {
                peer_filter: None,
                site_filter: None,
                dispatch_filter: None,
            };
            assert(call_edge_answer(request@, core_view(core), old(store)@, *facts, filters) == (
                store@,
                None::<Seq<Seq<LookupView>>>,
            ));
            return None;
        },
        CallReading::Nothing => {
            let filters = CallLookupFilters {
                peer_filter: None,
                site_filter: None,
                dispatch_filter: None,
            };
            let none = no_rows();
            assert(call_edge_answer(request@, core_view(core), old(store)@, *facts, filters) == (
                store@,
                Some(rows_view(none@)),
            ));
            return Some(none);
        },
        CallReading::Calls(read) => read,
    };
    let by_caller = read.caller.is_some();
    let asked = match (read.caller, read.callee) {
        (Some(caller), _) => caller,
        (None, Some(callee)) => callee,
        (None, None) => {
            return None;
        },
    };
    let filters = CallLookupFilters {
        peer_filter: if by_caller {
            read.callee
        } else {
            None
        },
        site_filter: read.site,
        dispatch_filter: read.dispatch,
    };
    assert(filters_match(filters, read@));
    let ghost want = call_edge_answer(request@, core_view(core), old(store)@, *facts, filters);
    let mut next = store.copy();
    let record = match lookup_function_record(core, &mut next, asked, &facts.function) {
        Some(record) => record,
        None => {
            assert(want == (store@, None::<Seq<Seq<LookupView>>>));
            return None;
        },
    };
    let is_function = match record.entity {
        Some(entity) => entity.as_function().is_some(),
        None => false,
    };
    if !is_function {
        let none = no_rows();
        assert(want == (store@, Some(rows_view(none@))));
        return Some(none);
    }
    let mut edges: Vec<CallEdgeRow> = Vec::new();
    assert(edge_views(edges@) =~= Seq::<CallEdgeView>::empty());
    if by_caller {
        match &facts.body {
            Some(body) => {
                let supported = collect_lookup_call_edges_for_function(
                    &mut next,
                    &mut edges,
                    &body.file,
                    &body.calls,
                    asked,
                    &filters,
                );
                if !supported {
                    assert(want == (store@, None::<Seq<Seq<LookupView>>>));
                    return None;
                }
            },
            None => {},
        }
    } else {
        collect_lookup_callers_for_function(
            &mut next,
            &mut edges,
            &facts.references,
            asked,
            &filters,
        );
    }
    let rows = rows_of_edges(&edges);
    assert(want == (next@, Some(rows_view(rows@))));
    *store = next;
    Some(rows)
}

/// A call lookup that is not answered keeps nothing.
pub proof fn law_unanswered_calls_keep_nothing(
    request: Seq<BoundView>,
    core: CoreView,
    store: StoreView,
    facts: CallEdgeFacts,
    filters: CallLookupFilters,
)
    requires
        call_edge_answer(request, core, store, facts, filters).1 is None,
    ensures
        call_edge_answer(request, core, store, facts, filters).0 == store,
{
}

} // verus!
