//! Answers agree with what is asked.

use crate::ra::call_lookup::{
    callee_of, owner_of, with_body, with_edge, with_files, with_references, BodyCall,
    CallLookupFilters, CallSearch, FileReferences, Reference,
};
use crate::ra::call_rows::{
    call_edge_answer, dispatch_named, edge_row, edge_rows, filters_match, function_record,
    read_bound, read_calls, CallEdgeFacts, CallReadingView, CallRequestView,
};
use crate::ra::core_index::CoreView;
use crate::ra::host::NodeRecordView;
use crate::ra::kinds::{is_control, DefKind, DispatchKind, NodeKind};
use crate::ra::lookup_store::{DefFacts, LocalFile, StoreView};
use crate::ra::lookups::{
    bound, bound_def, def_answer, def_handle_answer, def_kind_answer, def_path_answer,
    def_span_answer, fits, id_allowed, lemma_bound, opt_span, ArgClass,
};
use crate::ra::name_rows::{
    def_name_answer, name_rows, symbol_search, with_id, with_items, with_symbols, NameSearch,
    SymbolFacts,
};
use crate::ra::node_rows::{
    climb, control_answer, control_of, control_signature, node_at_answer, node_id_answer,
    node_kind_answer, node_parent_answer, node_span_answer, span_allowed_answer, span_key_answer,
    span_key_signature,
};
use crate::ra::rows::CallEdgeView;
use crate::ra::values::{as_variant, BoundView, LookupView};
use vstd::prelude::*;

verus! {

/// No argument is bound twice.
pub open spec fn bound_once(request: Seq<BoundView>) -> bool {
    forall|i: int, j: int|
        0 <= i < j < request.len() ==> (#[trigger] request[i]).position != (
        #[trigger] request[j]).position
}

/// A bound kind of definition or node is one that there is.
pub open spec fn binds_kinds(request: Seq<BoundView>) -> bool {
    forall|i: int| 0 <= i < request.len() ==> is_kind((#[trigger] request[i]).value)
}

/// The value, if it is a kind of definition or node, is one that there is.
pub open spec fn is_kind(value: LookupView) -> bool {
    &&& match as_variant(value, "DefKind"@) {
        Some(label) => exists|kind: DefKind| label == #[trigger] kind.label(),
        None => true,
    }
    &&& match as_variant(value, "NodeKind"@) {
        Some(label) => exists|kind: NodeKind| label == #[trigger] kind.label(),
        None => true,
    }
}

/// The row has what the request binds.
pub open spec fn agrees(request: Seq<BoundView>, row: Seq<LookupView>) -> bool {
    forall|i: int|
        0 <= i < request.len() ==> 0 <= (#[trigger] request[i]).position < row.len()
            && row[request[i].position] == request[i].value
}

/// Every row has what the request binds.
pub open spec fn all_agree(request: Seq<BoundView>, rows: Seq<Seq<LookupView>>) -> bool {
    forall|k: int| 0 <= k < rows.len() ==> agrees(request, #[trigger] rows[k])
}

/// What is bound once is what the argument is bound to.
proof fn lemma_bound_once(request: Seq<BoundView>, i: int)
    requires
        bound_once(request),
        0 <= i < request.len(),
    ensures
        bound(request, request[i].position) == Some(request[i].value),
    decreases request.len(),
{
    let last = request.len() - 1;
    assert(request.last() == request[last]);
    if i < last {
        let rest = request.drop_last();
        assert(request[i].position != request[last].position);
        assert forall|a: int, b: int| 0 <= a < b < rest.len() implies (
        #[trigger] rest[a]).position != (#[trigger] rest[b]).position by {
            assert(rest[a] == request[a] && rest[b] == request[b]);
        }
        assert(rest[i] == request[i]);
        lemma_bound_once(rest, i);
    }
}

/// A bound value is one of the request's.
proof fn lemma_bound_among(request: Seq<BoundView>, position: int)
    requires
        binds_kinds(request),
    ensures
        match bound(request, position) {
            Some(value) => is_kind(value),
            None => true,
        },
    decreases request.len(),
{
    if request.len() > 0 {
        assert(request.last() == request[request.len() - 1]);
        let rest = request.drop_last();
        assert forall|i: int| 0 <= i < rest.len() implies is_kind((#[trigger] rest[i]).value) by {
            assert(rest[i] == request[i]);
        }
        lemma_bound_among(rest, position);
    }
}

/// A row agrees where each of its arguments is what it is bound to.
proof fn lemma_agrees(request: Seq<BoundView>, signature: Seq<ArgClass>, row: Seq<LookupView>)
    requires
        bound_once(request),
        fits(request, signature),
        row.len() == signature.len(),
        forall|p: int|
            0 <= p < row.len() ==> match #[trigger] bound(request, p) {
                Some(value) => value == row[p],
                None => true,
            },
    ensures
        agrees(request, row),
{
    assert forall|i: int| 0 <= i < request.len() implies 0 <= (#[trigger] request[i]).position
        < row.len() && row[request[i].position] == request[i].value by {
        lemma_bound_once(request, i);
        assert(0 <= request[i].position < signature.len());
        assert(bound(request, request[i].position) is Some);
    }
}

/// Every definition that is answered for is the one that is bound.
pub proof fn law_def_answers_agree(
    request: Seq<BoundView>,
    core: CoreView,
    core_ids: Seq<u64>,
    store: StoreView,
    store_ids: Seq<u64>,
)
    requires
        bound_once(request),
    ensures
        all_agree(request, def_answer(request, core, core_ids, store, store_ids)),
{
    let signature = seq![ArgClass::Def];
    let rows = def_answer(request, core, core_ids, store, store_ids);
    if fits(request, signature) {
        lemma_bound(request, 0, signature);
        assert forall|k: int| 0 <= k < rows.len() implies agrees(request, #[trigger] rows[k]) by {
            lemma_agrees(request, signature, rows[k]);
        }
    }
}

/// Answers about a definition have what the request binds, where a bound kind is
/// one that there is.
pub proof fn law_answers_about_defs_agree(
    request: Seq<BoundView>,
    core: CoreView,
    store: StoreView,
    entity_path: Option<Seq<char>>,
)
    requires
        bound_once(request),
        binds_kinds(request),
    ensures
        all_agree(request, def_kind_answer(request, core, store)),
        all_agree(request, def_span_answer(request, core, store)),
        all_agree(request, def_handle_answer(request, core, store)),
        match def_path_answer(request, core, store, entity_path) {
            Some(rows) => all_agree(request, rows),
            None => true,
        },
{
    let kinds = seq![ArgClass::Def, ArgClass::DefKind];
    let spans = seq![ArgClass::Def, ArgClass::Span];
    let texts = seq![ArgClass::Def, ArgClass::Text];
    lemma_bound_among(request, 1);
    let rows = def_kind_answer(request, core, store);
    if rows.len() > 0 {
        lemma_bound(request, 0, kinds);
        lemma_bound(request, 1, kinds);
        lemma_agrees(request, kinds, rows[0]);
    }
    let rows = def_span_answer(request, core, store);
    if rows.len() > 0 {
        lemma_bound(request, 0, spans);
        lemma_bound(request, 1, spans);
        lemma_agrees(request, spans, rows[0]);
    }
    let rows = def_handle_answer(request, core, store);
    if rows.len() > 0 {
        lemma_bound(request, 0, texts);
        lemma_bound(request, 1, texts);
        lemma_agrees(request, texts, rows[0]);
    }
    if let Some(rows) = def_path_answer(request, core, store, entity_path) {
        if rows.len() > 0 {
            lemma_bound(request, 0, texts);
            lemma_bound(request, 1, texts);
            lemma_agrees(request, texts, rows[0]);
        }
    }
}

/// Answers about spans have what the request binds.
pub proof fn law_answers_about_spans_agree(
    request: Seq<BoundView>,
    core: CoreView,
    store: StoreView,
    node: Option<u64>,
)
    requires
        bound_once(request),
    ensures
        all_agree(request, span_allowed_answer(request, core, store)),
        all_agree(request, span_key_answer(request, core, store)),
        all_agree(request, node_at_answer(request, node)),
{
    let rows = span_allowed_answer(request, core, store);
    if rows.len() > 0 {
        lemma_bound(request, 0, seq![ArgClass::Span]);
        lemma_agrees(request, seq![ArgClass::Span], rows[0]);
    }
    let keys = span_key_signature();
    let rows = span_key_answer(request, core, store);
    if rows.len() > 0 {
        assert forall|p: int| 0 <= p < 6 implies match #[trigger] bound(request, p) {
            Some(value) => value == rows[0][p],
            None => true,
        } by {
            lemma_bound(request, p, keys);
        }
        lemma_agrees(request, keys, rows[0]);
    }
    let nodes = seq![ArgClass::Span, ArgClass::MaybeNode];
    let rows = node_at_answer(request, node);
    if rows.len() > 0 {
        lemma_bound(request, 0, nodes);
        lemma_bound(request, 1, nodes);
        lemma_agrees(request, nodes, rows[0]);
    }
}

/// Answers about nodes have what the request binds, where a bound kind is one
/// that there is.
pub proof fn law_answers_about_nodes_agree(request: Seq<BoundView>, store: StoreView)
    requires
        bound_once(request),
        binds_kinds(request),
    ensures
        all_agree(request, node_kind_answer(request, store)),
        all_agree(request, node_span_answer(request, store)),
        all_agree(request, node_parent_answer(request, store)),
        all_agree(request, node_id_answer(request, store)),
{
    lemma_bound_among(request, 1);
    let kinds = seq![ArgClass::Node, ArgClass::NodeKind];
    let rows = node_kind_answer(request, store);
    if rows.len() > 0 {
        lemma_bound(request, 0, kinds);
        lemma_bound(request, 1, kinds);
        lemma_agrees(request, kinds, rows[0]);
    }
    let spans = seq![ArgClass::Node, ArgClass::Span];
    let rows = node_span_answer(request, store);
    if rows.len() > 0 {
        lemma_bound(request, 0, spans);
        lemma_bound(request, 1, spans);
        lemma_agrees(request, spans, rows[0]);
    }
    let parents = seq![ArgClass::Node, ArgClass::MaybeNode];
    let rows = node_parent_answer(request, store);
    if rows.len() > 0 {
        lemma_bound(request, 0, parents);
        lemma_bound(request, 1, parents);
        lemma_agrees(request, parents, rows[0]);
    }
    let texts = seq![ArgClass::Node, ArgClass::Text];
    let rows = node_id_answer(request, store);
    if rows.len() > 0 {
        lemma_bound(request, 0, texts);
        lemma_bound(request, 1, texts);
        lemma_agrees(request, texts, rows[0]);
    }
}

/// What a walk up from a node finds is a control construct.
proof fn lemma_climb_finds_control(
    nodes: Map<u64, NodeRecordView>,
    node: u64,
    walked: nat,
    budget: nat,
)
    ensures
        match climb(nodes, node, walked, budget) {
            Some((kind, _, distance)) => is_control(kind) && walked <= distance <= walked + budget,
            None => true,
        },
    decreases budget,
{
    if nodes.contains_key(node) && !is_control(nodes[node].kind) && budget > 0 {
        if let Some(parent) = nodes[node].parent {
            lemma_climb_finds_control(nodes, parent, walked + 1, (budget - 1) as nat);
        }
    }
}

/// The answer about the construct around a node has what the request binds, where
/// a bound kind is one that there is. What is found is a control construct.
pub proof fn law_control_answers_agree(
    request: Seq<BoundView>,
    nodes: Map<u64, NodeRecordView>,
    node: Option<u64>,
    count: nat,
)
    requires
        bound_once(request),
        binds_kinds(request),
    ensures
        match control_of(nodes, node, count) {
            Some((kind, _, distance)) => is_control(kind) && distance <= count,
            None => true,
        },
        all_agree(request, control_answer(request, control_of(nodes, node, count))),
{
    let found = control_of(nodes, node, count);
    if let Some(node) = node {
        lemma_climb_finds_control(nodes, node, 0, count);
    }
    lemma_bound_among(request, 1);
    let signature = control_signature();
    let rows = control_answer(request, found);
    if rows.len() > 0 {
        assert forall|p: int| 0 <= p < 4 implies match #[trigger] bound(request, p) {
            Some(value) => value == rows[0][p],
            None => true,
        } by {
            lemma_bound(request, p, signature);
        }
        lemma_agrees(request, signature, rows[0]);
    }
}

/// Every id is one that the filter allows.
spec fn all_allowed(ids: Seq<u64>, filter: Option<u64>) -> bool {
    forall|i: int| 0 <= i < ids.len() ==> id_allowed(filter, #[trigger] ids[i])
}

proof fn lemma_with_id_allowed(ids: Seq<u64>, id: u64, filter: Option<u64>)
    requires
        all_allowed(ids, filter),
        id_allowed(filter, id),
    ensures
        all_allowed(with_id(ids, id), filter),
    decreases ids.len(),
{
    if ids.len() > 0 {
        let rest = ids.drop_last();
        assert(ids.last() == ids[ids.len() - 1]);
        assert forall|i: int| 0 <= i < rest.len() implies id_allowed(
            filter,
            #[trigger] rest[i],
        ) by {
            assert(rest[i] == ids[i]);
        }
        lemma_with_id_allowed(rest, id, filter);
    }
}

proof fn lemma_item_allowed(search: NameSearch, facts: DefFacts, filter: Option<u64>)
    requires
        all_allowed(search.found, filter),
    ensures
        all_allowed(crate::ra::name_rows::with_item(search, facts, filter).found, filter),
{
    if let Some(def) = crate::ra::lookup_store::lookup_id(facts) {
        if id_allowed(filter, def) {
            lemma_with_id_allowed(search.found, def, filter);
        }
    }
}

proof fn lemma_symbols_allowed(
    search: NameSearch,
    symbols: Seq<SymbolFacts>,
    functions: bool,
    filter: Option<u64>,
    count: nat,
)
    requires
        all_allowed(search.found, filter),
    ensures
        all_allowed(with_symbols(search, symbols, functions, filter, count).found, filter),
    decreases count,
{
    if count > 0 {
        lemma_symbols_allowed(search, symbols, functions, filter, (count - 1) as nat);
        let told = with_symbols(search, symbols, functions, filter, (count - 1) as nat);
        lemma_item_allowed(told, symbols[count - 1].facts, filter);
    }
}

proof fn lemma_items_allowed(
    search: NameSearch,
    items: Seq<DefFacts>,
    filter: Option<u64>,
    count: nat,
)
    requires
        all_allowed(search.found, filter),
    ensures
        all_allowed(with_items(search, items, filter, count).found, filter),
    decreases count,
{
    if count > 0 {
        lemma_items_allowed(search, items, filter, (count - 1) as nat);
        let told = with_items(search, items, filter, (count - 1) as nat);
        lemma_item_allowed(told, items[count - 1], filter);
    }
}

/// Answers about names have what the request binds.
pub proof fn law_name_answers_agree(
    request: Seq<BoundView>,
    core: CoreView,
    store: StoreView,
    types: Seq<SymbolFacts>,
    functions: Seq<SymbolFacts>,
    items: Seq<DefFacts>,
)
    requires
        bound_once(request),
    ensures
        all_agree(request, def_name_answer(request, core, store, types, functions, items).1),
{
    let signature = seq![ArgClass::Def, ArgClass::Text];
    let rows = def_name_answer(request, core, store, types, functions, items).1;
    if fits(request, signature) {
        lemma_bound(request, 0, signature);
        lemma_bound(request, 1, signature);
        let filter = bound_def(request, 0);
        let start = NameSearch { store, found: Seq::empty() };
        lemma_symbols_allowed(start, types, false, filter, types.len());
        let typed = with_symbols(start, types, false, filter, types.len());
        lemma_symbols_allowed(typed, functions, true, filter, functions.len());
        let symbols = symbol_search(store, types, functions, filter);
        let again = NameSearch { store: symbols.store, found: Seq::empty() };
        lemma_items_allowed(again, items, filter, items.len());
        let found = with_items(again, items, filter, items.len());
        assert forall|k: int| 0 <= k < rows.len() implies agrees(request, #[trigger] rows[k]) by {
            lemma_agrees(request, signature, rows[k]);
        }
    }
}

/// The call is one that is asked for.
spec fn is_asked(edge: CallEdgeView, read: CallRequestView) -> bool {
    &&& match read.caller {
        Some(caller) => edge.caller == caller,
        None => true,
    }
    &&& match read.callee {
        Some(callee) => edge.callee == callee,
        None => true,
    }
    &&& match read.site {
        Some(site) => edge.site == site,
        None => true,
    }
    &&& match read.dispatch {
        Some(dispatch) => edge.dispatch == dispatch,
        None => true,
    }
}

spec fn all_asked(edges: Seq<CallEdgeView>, read: CallRequestView) -> bool {
    forall|i: int| 0 <= i < edges.len() ==> is_asked(#[trigger] edges[i], read)
}

proof fn lemma_with_edge_asked(
    edges: Seq<CallEdgeView>,
    edge: CallEdgeView,
    read: CallRequestView,
)
    requires
        all_asked(edges, read),
        is_asked(edge, read),
    ensures
        all_asked(with_edge(edges, edge), read),
    decreases edges.len(),
{
    if edges.len() > 0 {
        let rest = edges.drop_last();
        assert(edges.last() == edges[edges.len() - 1]);
        assert forall|i: int| 0 <= i < rest.len() implies is_asked(#[trigger] rest[i], read) by {
            assert(rest[i] == edges[i]);
        }
        lemma_with_edge_asked(rest, edge, read);
    }
}

proof fn lemma_found_asked(
    search: CallSearch,
    file: LocalFile,
    start: u32,
    end: u32,
    caller: u64,
    callee: u64,
    dispatch: DispatchKind,
    filters: CallLookupFilters,
    read: CallRequestView,
)
    requires
        all_asked(search.edges, read),
        filters_match(filters, read),
        read.caller is Some ==> caller == read.caller->0,
        read.caller is None && read.callee is Some ==> callee == read.callee->0,
        read.caller is Some ==> read.caller != read.callee,
    ensures
        all_asked(
            crate::ra::call_lookup::with_found_call(
                search,
                file,
                start,
                end,
                caller,
                callee,
                dispatch,
                filters,
            ).edges,
            read,
        ),
{
    let site = crate::ra::source::span_id_of(file.file_id, start, end);
    if crate::ra::call_lookup::call_allowed(filters, caller, callee, dispatch) && id_allowed(
        opt_span(filters.site_filter),
        site,
    ) {
        let edge = CallEdgeView { caller, callee, site, dispatch };
        assert(is_asked(edge, read));
        lemma_with_edge_asked(search.edges, edge, read);
    }
}

proof fn lemma_body_asked(
    search: CallSearch,
    file: LocalFile,
    calls: Seq<BodyCall>,
    caller: u64,
    filters: CallLookupFilters,
    read: CallRequestView,
    count: nat,
)
    requires
        all_asked(search.edges, read),
        filters_match(filters, read),
        read.caller == Some(caller),
        read.caller != read.callee,
    ensures
        all_asked(with_body(search, file, calls, caller, filters, count).0.edges, read),
    decreases count,
{
    if count > 0 {
        lemma_body_asked(search, file, calls, caller, filters, read, (count - 1) as nat);
        let told = with_body(search, file, calls, caller, filters, (count - 1) as nat).0;
        let call = calls[count - 1];
        let owned = owner_of(told.store, file, call.owner).0;
        let (known, callee) = callee_of(owned, file, call.call);
        if let Some(Some((callee, dispatch))) = callee {
            lemma_found_asked(
                CallSearch { store: known, ..told },
                file,
                call.start,
                call.end,
                caller,
                callee,
                dispatch,
                filters,
                read,
            );
        }
    }
}

proof fn lemma_references_asked(
    search: CallSearch,
    file: LocalFile,
    references: Seq<Reference>,
    callee: u64,
    filters: CallLookupFilters,
    read: CallRequestView,
    count: nat,
)
    requires
        all_asked(search.edges, read),
        filters_match(filters, read),
        read.caller is None,
        read.callee == Some(callee),
    ensures
        all_asked(
            with_references(search, file, references, callee, filters, count).edges,
            read,
        ),
    decreases count,
{
    if count > 0 {
        lemma_references_asked(search, file, references, callee, filters, read, (count - 1) as nat);
        let told = with_references(search, file, references, callee, filters, (count - 1) as nat);
        match references[count - 1] {
            Reference::Method { resolves: true, owner, start, end, on_trait_object, of_trait } => {
                let (store, caller) = owner_of(told.store, file, owner);
                if let Some(caller) = caller {
                    lemma_found_asked(
                        CallSearch { store, ..told },
                        file,
                        start,
                        end,
                        caller,
                        callee,
                        crate::ra::call_lookup::method_dispatch_of(on_trait_object, of_trait),
                        filters,
                        read,
                    );
                }
            },
            Reference::Call { resolves: true, owner, start, end } => {
                let (store, caller) = owner_of(told.store, file, owner);
                if let Some(caller) = caller {
                    lemma_found_asked(
                        CallSearch { store, ..told },
                        file,
                        start,
                        end,
                        caller,
                        callee,
                        DispatchKind::Direct,
                        filters,
                        read,
                    );
                }
            },
            _ => {},
        }
    }
}

proof fn lemma_files_asked(
    search: CallSearch,
    files: Seq<FileReferences>,
    callee: u64,
    filters: CallLookupFilters,
    read: CallRequestView,
    count: nat,
)
    requires
        all_asked(search.edges, read),
        filters_match(filters, read),
        read.caller is None,
        read.callee == Some(callee),
    ensures
        all_asked(with_files(search, files, callee, filters, count).edges, read),
    decreases count,
{
    if count > 0 {
        lemma_files_asked(search, files, callee, filters, read, (count - 1) as nat);
        let told = with_files(search, files, callee, filters, (count - 1) as nat);
        let found = files[count - 1];
        lemma_references_asked(
            told,
            found.file,
            found.references@,
            callee,
            filters,
            read,
            found.references@.len(),
        );
    }
}

/// The label of a named dispatch is the one that names it.
proof fn lemma_dispatch_named(label: Seq<char>)
    ensures
        match dispatch_named(label) {
            Some(dispatch) => dispatch.label() == label,
            None => true,
        },
{
}

/// A call that agrees with what was read of a request has what the request binds.
proof fn lemma_read_agrees(request: Seq<BoundView>, count: nat, edge: CallEdgeView)
    requires
        bound_once(request),
        count <= request.len(),
        read_bound(request, count) is Calls,
        is_asked(edge, read_bound(request, count)->Calls_0),
    ensures
        agrees(request.take(count as int), edge_row(edge)),
        forall|i: int|
            0 <= i < count ==> {
                let read = read_bound(request, count)->Calls_0;
                let position = (#[trigger] request[i]).position;
                &&& position == 0 ==> read.caller is Some
                &&& position == 1 ==> read.callee is Some
                &&& position == 2 ==> read.site is Some
                &&& position == 3 ==> read.dispatch is Some
            },
    decreases count,
{
    if count > 0 {
        let last = request[count - 1];
        let before = read_bound(request, (count - 1) as nat);
        let read = read_bound(request, count)->Calls_0;
        let earlier = before->Calls_0;
        lemma_unread(request, (count - 1) as nat, last.position);
        assert(is_asked(edge, earlier));
        lemma_read_agrees(request, (count - 1) as nat, edge);
        if let Some(label) = as_variant(last.value, "DispatchKind"@) {
            lemma_dispatch_named(label);
        }
        let taken = request.take(count as int);
        let shorter = request.take(count - 1);
        assert forall|i: int| 0 <= i < taken.len() implies 0 <= (#[trigger] taken[i]).position
            < edge_row(edge).len() && edge_row(edge)[taken[i].position] == taken[i].value by {
            if i < count - 1 {
                assert(shorter[i] == taken[i]);
            } else {
                assert(taken[i] == last);
            }
        }
    }
}

/// What no argument so far binds has not been read.
proof fn lemma_unread(request: Seq<BoundView>, count: nat, position: int)
    requires
        bound_once(request),
        count < request.len(),
        request[count as int].position == position,
        read_bound(request, count) is Calls,
    ensures
        ({
            let read = read_bound(request, count)->Calls_0;
            &&& position == 0 ==> read.caller is None
            &&& position == 1 ==> read.callee is None
            &&& position == 2 ==> read.site is None
            &&& position == 3 ==> read.dispatch is None
        }),
{
    lemma_unread_below(request, count, position);
}

proof fn lemma_unread_below(request: Seq<BoundView>, count: nat, position: int)
    requires
        count <= request.len(),
        forall|i: int| 0 <= i < count ==> (#[trigger] request[i]).position != position,
        read_bound(request, count) is Calls,
    ensures
        ({
            let read = read_bound(request, count)->Calls_0;
            &&& position == 0 ==> read.caller is None
            &&& position == 1 ==> read.callee is None
            &&& position == 2 ==> read.site is None
            &&& position == 3 ==> read.dispatch is None
        }),
    decreases count,
{
    if count > 0 {
        assert(request[count - 1].position != position);
        lemma_unread_below(request, (count - 1) as nat, position);
    }
}

/// Answers about calls have what the request binds, unless it asks for the calls
/// of a definition by itself.
pub proof fn law_call_answers_agree(
    request: Seq<BoundView>,
    core: CoreView,
    store: StoreView,
    facts: CallEdgeFacts,
    filters: CallLookupFilters,
)
    requires
        bound_once(request),
        match read_calls(request) {
            CallReadingView::Calls(read) => filters_match(filters, read) && (read.caller is Some
                ==> read.caller != read.callee),
            _ => true,
        },
    ensures
        match call_edge_answer(request, core, store, facts, filters).1 {
            Some(rows) => all_agree(request, rows),
            None => true,
        },
{
    if let CallReadingView::Calls(read) = read_calls(request) {
        let asked = match read.caller {
            Some(caller) => caller,
            None => read.callee->0,
        };
        let told = function_record(core, store, asked, facts.function).0;
        let start = CallSearch { store: told, edges: Seq::empty() };
        let edges = if read.caller is Some {
            if let Some(body) = facts.body {
                lemma_body_asked(
                    start,
                    body.file,
                    body.calls@,
                    asked,
                    filters,
                    read,
                    body.calls@.len(),
                );
            }
            crate::ra::call_rows::callee_search(told, facts, asked, filters).0.edges
        } else {
            lemma_files_asked(
                start,
                facts.references@,
                asked,
                filters,
                read,
                facts.references@.len(),
            );
            with_files(start, facts.references@, asked, filters, facts.references@.len()).edges
        };
        assert(all_asked(edges, read));
        let rows = edge_rows(edges);
        assert forall|k: int| 0 <= k < rows.len() implies agrees(request, #[trigger] rows[k]) by {
            assert(is_asked(edges[k], read));
            lemma_read_agrees(request, request.len(), edges[k]);
            assert(request.take(request.len() as int) =~= request);
        }
    }
}

} // verus!
