//! Looking up calls: who calls a function, and whom a function calls.

use crate::host::{DefId, SpanId};
use crate::ra::host::opt_def;
use crate::ra::kinds::DispatchKind;
use crate::ra::lookup_store::{
    ensure_lookup_symbol_module_def, ensure_lookup_synthetic_callable_def, facts_indexable,
    lookup_id, synthetic_id, CallableFacts, DefFacts, LocalFile, LookupStore, StoreView,
};
use crate::ra::lookups::{allows_span, id_allowed, opt_span};
use crate::ra::rows::{same_def, CallEdgeRow, CallEdgeView};
use crate::ra::source::{
    indexable, key_in_text, lookup_span_key_from_text, place_text, place_to_text, span_id_of,
    span_of_place,
};
use crate::text::{lemma_text_total, lemma_text_transitive, text_before, text_less, texts};
use vstd::prelude::*;

verus! {

/// What a looked up call must agree with.
#[derive(Debug, Clone, Copy)]
pub struct CallLookupFilters {
    pub peer_filter: Option<DefId>,
    pub site_filter: Option<SpanId>,
    pub dispatch_filter: Option<DispatchKind>,
}

/// How a method call finds its callee: on a trait object dynamically, else
/// through a trait if the method is a trait's, else directly.
pub open spec fn method_dispatch_of(on_trait_object: bool, of_trait: bool) -> DispatchKind {
    if on_trait_object {
        DispatchKind::Dyn
    } else if of_trait {
        DispatchKind::ThroughTrait
    } else {
        DispatchKind::Direct
    }
}

/// How a method call finds its callee.
pub fn method_dispatch_kind(on_trait_object: bool, of_trait: bool) -> (r: DispatchKind)
    ensures
        r == method_dispatch_of(on_trait_object, of_trait),
{
    if on_trait_object {
        return DispatchKind::Dyn;
    }
    if of_trait {
        return DispatchKind::ThroughTrait;
    }
    DispatchKind::Direct
}

/// One call stands before another in answers.
pub open spec fn edge_before(a: CallEdgeView, b: CallEdgeView) -> bool {
    a.caller < b.caller || (a.caller == b.caller && (a.callee < b.callee || (a.callee == b.callee
        && (a.site < b.site || (a.site == b.site && text_before(
        a.dispatch.label(),
        b.dispatch.label(),
    ))))))
}

/// Ordered calls with one more, unless it is among them.
pub open spec fn with_edge(edges: Seq<CallEdgeView>, edge: CallEdgeView) -> Seq<CallEdgeView>
    decreases edges.len(),
{
    if edges.len() == 0 || edge_before(edges.last(), edge) {
        edges.push(edge)
    } else if edges.last() == edge {
        edges
    } else {
        with_edge(edges.drop_last(), edge).push(edges.last())
    }
}

/// What calls say.
pub open spec fn edge_views(edges: Seq<CallEdgeRow>) -> Seq<CallEdgeView> {
    edges.map_values(|edge: CallEdgeRow| edge@)
}

/// Whether one call stands before another in answers.
fn edge_less(a: &CallEdgeRow, b: &CallEdgeRow) -> (r: bool)
    ensures
        r == edge_before(a@, b@),
{
    let x = a.caller.stable_id().as_u64();
    let y = b.caller.stable_id().as_u64();
    if x != y {
        return x < y;
    }
    let x = a.callee.stable_id().as_u64();
    let y = b.callee.stable_id().as_u64();
    if x != y {
        return x < y;
    }
    let x = a.site.stable_id().as_u64();
    let y = b.site.stable_id().as_u64();
    if x != y {
        return x < y;
    }
    text_less(a.dispatch.variant_label(), b.dispatch.variant_label())
}

/// Puts a call in its place among ordered calls, unless it is among them.
fn insert_edge(edges: &mut Vec<CallEdgeRow>, edge: CallEdgeRow)
    ensures
        edge_views(final(edges)@) == with_edge(edge_views(old(edges)@), edge@),
{
    let ghost all = edge_views(edges@);
    let ghost before = edges@;
    let ghost shown = edge@;
    let mut i: usize = edges.len();
    assert(all.take(i as int) =~= all);
    assert(all.skip(i as int) =~= Seq::<CallEdgeView>::empty());
    assert(with_edge(all, shown) =~= with_edge(all.take(i as int), shown) + all.skip(i as int));
    while i > 0
        invariant
            all == edge_views(edges@),
            before == edges@,
            edges@ == old(edges)@,
            shown == edge@,
            i <= edges@.len(),
            with_edge(all, shown) == with_edge(all.take(i as int), shown) + all.skip(i as int),
        ensures
            i > 0 ==> edge_before(all.take(i as int).last(), shown),
        decreases i,
    {
        let held = &edges[i - 1];
        proof {
            assert(all.take(i as int).last() == held@);
            assert(all.take(i as int).drop_last() =~= all.take(i - 1));
        }
        if edge_less(held, &edge) {
            break;
        }
        if crate::ra::store::Row::same(held, &edge) {
            proof {
                assert(all.take(i as int) + all.skip(i as int) =~= all);
            }
            return;
        }
        proof {
            let front = with_edge(all.take(i - 1), shown);
            assert(front.push(held@) + all.skip(i as int) =~= front + all.skip(i - 1));
        }
        i -= 1;
    }
    proof {
        let front = all.take(i as int);
        assert(with_edge(front, shown) =~= front.push(shown));
    }
    edges.insert(i, edge);
    proof {
        assert(edge_views(edges@) =~= all.take(i as int).push(shown) + all.skip(i as int));
    }
}

/// Calls are kept in the order of answers.
pub open spec fn edges_ordered(edges: Seq<CallEdgeView>) -> bool {
    forall|i: int, j: int| 0 <= i < j < edges.len() ==> edge_before(edges[i], edges[j])
}

proof fn lemma_edge_transitive(a: CallEdgeView, b: CallEdgeView, c: CallEdgeView)
    requires
        edge_before(a, b),
        edge_before(b, c),
    ensures
        edge_before(a, c),
{
    if text_before(a.dispatch.label(), b.dispatch.label()) && text_before(
        b.dispatch.label(),
        c.dispatch.label(),
    ) {
        lemma_text_transitive(
            a.dispatch.label(),
            b.dispatch.label(),
            c.dispatch.label(),
        );
    }
}

proof fn lemma_edge_total(a: CallEdgeView, b: CallEdgeView)
    ensures
        edge_before(a, b) || edge_before(b, a) || a == b,
{
    lemma_text_total(a.dispatch.label(), b.dispatch.label());
    crate::ra::kinds::law_dispatch_labels_are_distinct(a.dispatch, b.dispatch);
}

/// Adding a call keeps calls ordered and distinct, adds the call and takes none
/// away.
pub proof fn law_edges_stay_ordered(edges: Seq<CallEdgeView>, edge: CallEdgeView)
    requires
        edges_ordered(edges),
    ensures
        edges_ordered(with_edge(edges, edge)),
        forall|e: CallEdgeView| #[trigger]
            with_edge(edges, edge).contains(e) <==> edges.contains(e) || e == edge,
    decreases edges.len(),
{
    let after = with_edge(edges, edge);
    if edges.len() == 0 {
        assert(after[0] == edge);
    } else if edge_before(edges.last(), edge) {
        assert forall|i: int, j: int| 0 <= i < j < after.len() implies edge_before(
            after[i],
            after[j],
        ) by {
            if j == edges.len() && i < edges.len() - 1 {
                lemma_edge_transitive(edges[i], edges.last(), edge);
            }
        }
        assert forall|e: CallEdgeView| #[trigger] after.contains(e) <==> edges.contains(e) || e
            == edge by {
            assert(after[edges.len() as int] == edge);
            if edges.contains(e) {
                let k = choose|k: int| 0 <= k < edges.len() && edges[k] == e;
                assert(after[k] == e);
            }
            if after.contains(e) && e != edge {
                let k = choose|k: int| 0 <= k < after.len() && after[k] == e;
                assert(edges[k] == e);
            }
        }
    } else if edges.last() == edge {
        assert(edges[edges.len() - 1] == edge);
    } else {
        let rest = edges.drop_last();
        lemma_edge_total(edges.last(), edge);
        law_edges_stay_ordered(rest, edge);
        let inner = with_edge(rest, edge);
        let last = edges.last();
        assert forall|e: CallEdgeView| inner.contains(e) implies edge_before(e, last) by {
            if rest.contains(e) {
                let k = choose|k: int| 0 <= k < rest.len() && rest[k] == e;
                assert(edges[k] == e);
            }
        }
        assert forall|i: int, j: int| 0 <= i < j < after.len() implies edge_before(
            after[i],
            after[j],
        ) by {
            if j == inner.len() {
                assert(inner.contains(inner[i]));
            }
        }
        assert forall|e: CallEdgeView| #[trigger] after.contains(e) <==> edges.contains(e) || e
            == edge by {
            assert(after[inner.len() as int] == last);
            assert(edges[edges.len() - 1] == last);
            if inner.contains(e) {
                let k = choose|k: int| 0 <= k < inner.len() && inner[k] == e;
                assert(after[k] == e);
            }
            if rest.contains(e) {
                let k = choose|k: int| 0 <= k < rest.len() && rest[k] == e;
                assert(edges[k] == e);
            }
            if edges.contains(e) && e != last {
                let k = choose|k: int| 0 <= k < edges.len() && edges[k] == e;
                assert(rest[k] == e);
            }
            if after.contains(e) && e != last {
                let k = choose|k: int| 0 <= k < after.len() && after[k] == e;
                assert(inner[k] == e);
            }
        }
    }
}

/// What has been looked up, and the calls found so far.
#[verifier::ext_equal]
pub struct CallSearch {
    pub store: StoreView,
    pub edges: Seq<CallEdgeView>,
}

/// The call agrees with what is asked, but for its site.
pub open spec fn call_allowed(
    filters: CallLookupFilters,
    caller: u64,
    callee: u64,
    dispatch: DispatchKind,
) -> bool {
    &&& match filters.peer_filter {
        Some(peer) => peer@ == callee || peer@ == caller,
        None => true,
    }
    &&& match filters.dispatch_filter {
        Some(wanted) => wanted == dispatch,
        None => true,
    }
}

/// What is known once a call at a range of a file has been found.
pub open spec fn with_found_call(
    search: CallSearch,
    file: LocalFile,
    start: u32,
    end: u32,
    caller: u64,
    callee: u64,
    dispatch: DispatchKind,
    filters: CallLookupFilters,
) -> CallSearch {
    let site = span_id_of(file.file_id, start, end);
    match key_in_text(file.rel_path@, file.text@, start, end) {
        Some(key) => if call_allowed(filters, caller, callee, dispatch) && id_allowed(
            opt_span(filters.site_filter),
            site,
        ) {
            CallSearch {
                store: search.store.with_span(site, key),
                edges: with_edge(
                    search.edges,
                    CallEdgeView { caller, callee, site, dispatch },
                ),
            }
        } else {
            search
        },
        None => search,
    }
}

/// Keeps a call that has been found, if it agrees with what is asked.
pub fn push_lookup_call_edge_row(
    store: &mut LookupStore,
    edges: &mut Vec<CallEdgeRow>,
    caller: DefId,
    callee: DefId,
    file: &LocalFile,
    start: u32,
    end: u32,
    dispatch: DispatchKind,
    filters: &CallLookupFilters,
)
    requires
        old(store).wf(),
        indexable(file.text@),
    ensures
        final(store).wf(),
        (CallSearch { store: final(store)@, edges: edge_views(final(edges)@) }) == with_found_call(
            CallSearch { store: old(store)@, edges: edge_views(old(edges)@) },
            *file,
            start,
            end,
            caller@,
            callee@,
            dispatch,
            *filters,
        ),
{
    match filters.peer_filter {
        Some(peer) => {
            if !same_def(peer, callee) && !same_def(peer, caller) {
                return;
            }
        },
        None => {},
    }
    match filters.dispatch_filter {
        Some(wanted) => {
            if wanted != dispatch {
                return;
            }
        },
        None => {},
    }
    let key = match lookup_span_key_from_text(
        file.rel_path.as_str(),
        file.text.as_str(),
        start,
        end,
    ) {
        Some(key) => key,
        None => {
            return;
        },
    };
    let site = span_of_place(file.file_id, start, end);
    if !allows_span(filters.site_filter, site) {
        return;
    }
    store.spans.insert(site.stable_id().as_u64(), key);
    insert_edge(edges, CallEdgeRow { caller, callee, site, dispatch });
}

/// The callable that a call stands in.
pub enum OwnerFacts {
    /// None, or a function that is no definition.
    Nothing,
    Closure(CallableFacts),
    Function(DefFacts),
}

/// The sources that the facts speak of can be indexed.
pub open spec fn owner_indexable(owner: OwnerFacts) -> bool {
    match owner {
        OwnerFacts::Function(facts) => facts_indexable(facts),
        _ => true,
    }
}

/// The definition of the callable that a call stands in, and the store once it
/// is known.
pub open spec fn owner_of(store: StoreView, file: LocalFile, owner: OwnerFacts) -> (
    StoreView,
    Option<u64>,
) {
    match owner {
        OwnerFacts::Nothing => (store, None),
        OwnerFacts::Closure(facts) => (
            store.with_synthetic("closure"@, file, facts),
            synthetic_id("closure"@, file, facts),
        ),
        OwnerFacts::Function(facts) => (store.with_facts(facts), lookup_id(facts)),
    }
}

/// The definition of the callable that a call stands in.
pub fn lookup_callable_owner_def(store: &mut LookupStore, file: &LocalFile, owner: &OwnerFacts) -> (r:
    Option<DefId>)
    requires
        old(store).wf(),
        indexable(file.text@),
        owner_indexable(*owner),
    ensures
        final(store).wf(),
        (final(store)@, opt_def(r)) == owner_of(old(store)@, *file, *owner),
{
    match owner {
        OwnerFacts::Nothing => None,
        OwnerFacts::Closure(facts) => ensure_lookup_synthetic_callable_def(
            store,
            "closure",
            file,
            facts,
        ),
        OwnerFacts::Function(facts) => ensure_lookup_symbol_module_def(store, facts),
    }
}

/// What a call by expression calls.
pub enum TargetFacts {
    Function(DefFacts),
    Closure(CallableFacts),
    FnPointer(CallableFacts),
    /// A tuple struct or a tuple variant.
    Constructor,
}

/// The sources that the facts speak of can be indexed.
pub open spec fn target_indexable(target: TargetFacts) -> bool {
    match target {
        TargetFacts::Function(facts) => facts_indexable(facts),
        _ => true,
    }
}

/// A definition and how a call finds it.
pub open spec fn paired(def: Option<u64>, dispatch: DispatchKind) -> Option<(u64, DispatchKind)> {
    match def {
        Some(def) => Some((def, dispatch)),
        None => None,
    }
}

/// The definition that a call by expression calls, how it is found, and the
/// store once it is known.
pub open spec fn target_of(store: StoreView, file: LocalFile, target: TargetFacts) -> (
    StoreView,
    Option<(u64, DispatchKind)>,
) {
    match target {
        TargetFacts::Function(facts) => (
            store.with_facts(facts),
            paired(lookup_id(facts), DispatchKind::Direct),
        ),
        TargetFacts::Closure(facts) => (
            store.with_synthetic("closure"@, file, facts),
            paired(synthetic_id("closure"@, file, facts), DispatchKind::Closure),
        ),
        TargetFacts::FnPointer(facts) => (
            store.with_synthetic("fn_pointer"@, file, facts),
            paired(synthetic_id("fn_pointer"@, file, facts), DispatchKind::FnPointer),
        ),
        TargetFacts::Constructor => (store, None),
    }
}

/// What a definition and a dispatch say.
pub open spec fn opt_target(target: Option<(DefId, DispatchKind)>) -> Option<(u64, DispatchKind)> {
    match target {
        Some((def, dispatch)) => Some((def@, dispatch)),
        None => None,
    }
}

/// A definition and how a call finds it.
fn with_dispatch(def: Option<DefId>, dispatch: DispatchKind) -> (r: Option<(DefId, DispatchKind)>)
    ensures
        opt_target(r) == paired(opt_def(def), dispatch),
{
    match def {
        Some(def) => Some((def, dispatch)),
        None => None,
    }
}

/// The definition that a call by expression calls, and how it is found.
pub fn lookup_call_target_from_callable(
    store: &mut LookupStore,
    file: &LocalFile,
    target: &TargetFacts,
) -> (r: Option<(DefId, DispatchKind)>)
    requires
        old(store).wf(),
        indexable(file.text@),
        target_indexable(*target),
    ensures
        final(store).wf(),
        (final(store)@, opt_target(r)) == target_of(old(store)@, *file, *target),
{
    match target {
        TargetFacts::Function(facts) => with_dispatch(
            ensure_lookup_symbol_module_def(store, facts),
            DispatchKind::Direct,
        ),
        TargetFacts::Closure(facts) => with_dispatch(
            ensure_lookup_synthetic_callable_def(store, "closure", file, facts),
            DispatchKind::Closure,
        ),
        TargetFacts::FnPointer(facts) => with_dispatch(
            ensure_lookup_synthetic_callable_def(store, "fn_pointer", file, facts),
            DispatchKind::FnPointer,
        ),
        TargetFacts::Constructor => None,
    }
}

/// What the database says of a call.
pub enum CallFacts {
    /// A call of an expression, if its type is that of a callable.
    Expression(Option<TargetFacts>),
    /// A method call, if its method can be resolved.
    Method(Option<MethodFacts>),
}

/// What the database says of a resolved method call.
pub struct MethodFacts {
    pub function: DefFacts,
    pub on_trait_object: bool,
    pub of_trait: bool,
}

/// A call in the body of a function.
pub struct BodyCall {
    pub owner: OwnerFacts,
    pub start: u32,
    pub end: u32,
    pub call: CallFacts,
}

/// The sources that the facts speak of can be indexed.
pub open spec fn call_indexable(call: BodyCall) -> bool {
    owner_indexable(call.owner) && match call.call {
        CallFacts::Expression(Some(target)) => target_indexable(target),
        CallFacts::Method(Some(method)) => facts_indexable(method.function),
        _ => true,
    }
}

/// The callee of a call in a body: nothing where it cannot be told, and no
/// callee where the lookup does not support it.
pub open spec fn callee_of(store: StoreView, file: LocalFile, call: CallFacts) -> (
    StoreView,
    Option<Option<(u64, DispatchKind)>>,
) {
    match call {
        CallFacts::Expression(Some(target)) => {
            let (told, found) = target_of(store, file, target);
            (told, Some(found))
        },
        CallFacts::Method(Some(method)) => (
            store.with_facts(method.function),
            Some(
                paired(
                    lookup_id(method.function),
                    method_dispatch_of(method.on_trait_object, method.of_trait),
                ),
            ),
        ),
        _ => (store, None),
    }
}

/// What is known once the first `count` calls of a caller's body have been
/// looked at; nothing more once a callee is not supported.
pub open spec fn with_body(
    search: CallSearch,
    file: LocalFile,
    calls: Seq<BodyCall>,
    caller: u64,
    filters: CallLookupFilters,
    count: nat,
) -> (CallSearch, bool)
    decreases count,
{
    if count == 0 {
        (search, true)
    } else {
        let (told, supported) = with_body(
            search,
            file,
            calls,
            caller,
            filters,
            (count - 1) as nat,
        );
        if supported {
            with_body_call(told, file, calls[count - 1], caller, filters)
        } else {
            (told, false)
        }
    }
}

/// What is known once a call of a caller's body has been looked at.
pub open spec fn with_body_call(
    search: CallSearch,
    file: LocalFile,
    call: BodyCall,
    caller: u64,
    filters: CallLookupFilters,
) -> (CallSearch, bool) {
    let (owned, owner) = owner_of(search.store, file, call.owner);
    if owner != Some(caller) {
        (CallSearch { store: owned, ..search }, true)
    } else {
        let (told, callee) = callee_of(owned, file, call.call);
        match callee {
            Some(Some((callee, dispatch))) => (
                with_found_call(
                    CallSearch { store: told, ..search },
                    file,
                    call.start,
                    call.end,
                    caller,
                    callee,
                    dispatch,
                    filters,
                ),
                true,
            ),
            Some(None) => (CallSearch { store: told, ..search }, false),
            None => (CallSearch { store: told, ..search }, true),
        }
    }
}

/// Once a callee is not supported nothing more is looked at.
proof fn lemma_body_stops(
    search: CallSearch,
    file: LocalFile,
    calls: Seq<BodyCall>,
    caller: u64,
    filters: CallLookupFilters,
    count: nat,
    more: nat,
)
    requires
        count <= more,
        !with_body(search, file, calls, caller, filters, count).1,
    ensures
        with_body(search, file, calls, caller, filters, more) == with_body(
            search,
            file,
            calls,
            caller,
            filters,
            count,
        ),
    decreases more,
{
    if count < more {
        lemma_body_stops(search, file, calls, caller, filters, count, (more - 1) as nat);
    }
}

/// Looks at the calls of a caller's body. `file` is the file of the body, if the
/// body can be read. Tells whether every callee is supported.
pub fn collect_lookup_call_edges_for_function(
    store: &mut LookupStore,
    edges: &mut Vec<CallEdgeRow>,
    file: &LocalFile,
    calls: &Vec<BodyCall>,
    caller: DefId,
    filters: &CallLookupFilters,
) -> (r: bool)
    requires
        old(store).wf(),
        indexable(file.text@),
        forall|i: int| 0 <= i < calls@.len() ==> call_indexable(#[trigger] calls@[i]),
    ensures
        final(store).wf(),
        (CallSearch { store: final(store)@, edges: edge_views(final(edges)@) }, r) == with_body(
            CallSearch { store: old(store)@, edges: edge_views(old(edges)@) },
            *file,
            calls@,
            caller@,
            *filters,
            calls@.len(),
        ),
{
    let ghost start = CallSearch { store: store@, edges: edge_views(edges@) };
    let mut i: usize = 0;
    while i < calls.len()
        invariant
            start == (CallSearch { store: old(store)@, edges: edge_views(old(edges)@) }),
            store.wf(),
            indexable(file.text@),
            forall|k: int| 0 <= k < calls@.len() ==> call_indexable(#[trigger] calls@[k]),
            i <= calls@.len(),
            (CallSearch { store: store@, edges: edge_views(edges@) }, true) == with_body(
                start,
                *file,
                calls@,
                caller@,
                *filters,
                i as nat,
            ),
        decreases calls.len() - i,
    {
        let call = &calls[i];
        assert(call_indexable(calls@[i as int]));
        let owner = lookup_callable_owner_def(store, file, &call.owner);
        let mine = match owner {
            Some(owner) => same_def(owner, caller),
            None => false,
        };
        if mine {
            match &call.call {
                CallFacts::Expression(Some(target)) => {
                    match lookup_call_target_from_callable(store, file, target) {
                        Some((callee, dispatch)) => {
                            push_lookup_call_edge_row(
                                store,
                                edges,
                                caller,
                                callee,
                                file,
                                call.start,
                                call.end,
                                dispatch,
                                filters,
                            );
                        },
                        None => {
                            proof {
                                lemma_body_stops(
                                    start,
                                    *file,
                                    calls@,
                                    caller@,
                                    *filters,
                                    (i + 1) as nat,
                                    calls@.len(),
                                );
                            }
                            return false;
                        },
                    }
                },
                CallFacts::Method(Some(method)) => {
                    match ensure_lookup_symbol_module_def(store, &method.function) {
                        Some(callee) => {
                            let dispatch = method_dispatch_kind(
                                method.on_trait_object,
                                method.of_trait,
                            );
                            push_lookup_call_edge_row(
                                store,
                                edges,
                                caller,
                                callee,
                                file,
                                call.start,
                                call.end,
                                dispatch,
                                filters,
                            );
                        },
                        None => {
                            proof {
                                lemma_body_stops(
                                    start,
                                    *file,
                                    calls@,
                                    caller@,
                                    *filters,
                                    (i + 1) as nat,
                                    calls@.len(),
                                );
                            }
                            return false;
                        },
                    }
                },
                _ => {},
            }
        }
        i += 1;
    }
    true
}

/// A use of a function's name in a file.
pub enum Reference {
    /// In an import, renamed at a range if it is.
    Import(Option<(u32, u32)>),
    /// In a method call, which may resolve to the function.
    Method {
        resolves: bool,
        owner: OwnerFacts,
        start: u32,
        end: u32,
        on_trait_object: bool,
        of_trait: bool,
    },
    /// As the callee of a call, which may resolve to the function.
    Call { resolves: bool, owner: OwnerFacts, start: u32, end: u32 },
    /// Anything else.
    Other,
}

/// The sources that the facts speak of can be indexed.
pub open spec fn reference_indexable(reference: Reference) -> bool {
    match reference {
        Reference::Method { owner, .. } => owner_indexable(owner),
        Reference::Call { owner, .. } => owner_indexable(owner),
        _ => true,
    }
}

/// What is known once a call found through a reference has been looked at.
pub open spec fn with_caller(
    search: CallSearch,
    file: LocalFile,
    owner: OwnerFacts,
    start: u32,
    end: u32,
    dispatch: DispatchKind,
    callee: u64,
    filters: CallLookupFilters,
) -> CallSearch {
    let (told, caller) = owner_of(search.store, file, owner);
    match caller {
        Some(caller) => with_found_call(
            CallSearch { store: told, ..search },
            file,
            start,
            end,
            caller,
            callee,
            dispatch,
            filters,
        ),
        None => CallSearch { store: told, ..search },
    }
}

/// What is known once a reference has been looked at.
pub open spec fn with_reference(
    search: CallSearch,
    file: LocalFile,
    reference: Reference,
    callee: u64,
    filters: CallLookupFilters,
) -> CallSearch {
    match reference {
        Reference::Method { resolves: true, owner, start, end, on_trait_object, of_trait } =>
        with_caller(
            search,
            file,
            owner,
            start,
            end,
            method_dispatch_of(on_trait_object, of_trait),
            callee,
            filters,
        ),
        Reference::Call { resolves: true, owner, start, end } => with_caller(
            search,
            file,
            owner,
            start,
            end,
            DispatchKind::Direct,
            callee,
            filters,
        ),
        _ => search,
    }
}

/// What is known once the first `count` references of a file have been looked
/// at.
pub open spec fn with_references(
    search: CallSearch,
    file: LocalFile,
    references: Seq<Reference>,
    callee: u64,
    filters: CallLookupFilters,
    count: nat,
) -> CallSearch
    decreases count,
{
    if count == 0 {
        search
    } else {
        with_reference(
            with_references(search, file, references, callee, filters, (count - 1) as nat),
            file,
            references[count - 1],
            callee,
            filters,
        )
    }
}

/// The references to a function in one file.
pub struct FileReferences {
    pub file: LocalFile,
    pub references: Vec<Reference>,
}

/// The sources that the facts speak of can be indexed.
pub open spec fn file_indexable(found: FileReferences) -> bool {
    indexable(found.file.text@) && forall|i: int|
        0 <= i < found.references@.len() ==> reference_indexable(#[trigger] found.references@[i])
}

/// What is known once the references of the first `count` files have been looked
/// at.
pub open spec fn with_files(
    search: CallSearch,
    files: Seq<FileReferences>,
    callee: u64,
    filters: CallLookupFilters,
    count: nat,
) -> CallSearch
    decreases count,
{
    if count == 0 {
        search
    } else {
        let found = files[count - 1];
        with_references(
            with_files(search, files, callee, filters, (count - 1) as nat),
            found.file,
            found.references@,
            callee,
            filters,
            found.references@.len(),
        )
    }
}

/// Looks at a call found through a reference.
fn push_caller(
    store: &mut LookupStore,
    edges: &mut Vec<CallEdgeRow>,
    file: &LocalFile,
    owner: &OwnerFacts,
    start: u32,
    end: u32,
    dispatch: DispatchKind,
    callee: DefId,
    filters: &CallLookupFilters,
)
    requires
        old(store).wf(),
        indexable(file.text@),
        owner_indexable(*owner),
    ensures
        final(store).wf(),
        (CallSearch { store: final(store)@, edges: edge_views(final(edges)@) }) == with_caller(
            CallSearch { store: old(store)@, edges: edge_views(old(edges)@) },
            *file,
            *owner,
            start,
            end,
            dispatch,
            callee@,
            *filters,
        ),
{
    match lookup_callable_owner_def(store, file, owner) {
        Some(caller) => {
            push_lookup_call_edge_row(
                store,
                edges,
                caller,
                callee,
                file,
                start,
                end,
                dispatch,
                filters,
            );
        },
        None => {},
    }
}

/// Looks at the references of a file.
fn collect_file_callers(
    store: &mut LookupStore,
    edges: &mut Vec<CallEdgeRow>,
    found: &FileReferences,
    callee: DefId,
    filters: &CallLookupFilters,
)
    requires
        old(store).wf(),
        file_indexable(*found),
    ensures
        final(store).wf(),
        (CallSearch { store: final(store)@, edges: edge_views(final(edges)@) }) == with_references(
            CallSearch { store: old(store)@, edges: edge_views(old(edges)@) },
            found.file,
            found.references@,
            callee@,
            *filters,
            found.references@.len(),
        ),
{
    let ghost start = CallSearch { store: store@, edges: edge_views(edges@) };
    let file = &found.file;
    let mut i: usize = 0;
    while i < found.references.len()
        invariant
            start == (CallSearch { store: old(store)@, edges: edge_views(old(edges)@) }),
            store.wf(),
            file_indexable(*found),
            *file == found.file,
            i <= found.references@.len(),
            (CallSearch { store: store@, edges: edge_views(edges@) }) == with_references(
                start,
                found.file,
                found.references@,
                callee@,
                *filters,
                i as nat,
            ),
        decreases found.references.len() - i,
    {
        assert(reference_indexable(found.references@[i as int]));
        match &found.references[i] {
            Reference::Method {
                resolves: true,
                owner,
                start: from,
                end,
                on_trait_object,
                of_trait,
            } => {
                let dispatch = method_dispatch_kind(*on_trait_object, *of_trait);
                push_caller(store, edges, file, owner, *from, *end, dispatch, callee, filters);
            },
            Reference::Call { resolves: true, owner, start: from, end } => {
                push_caller(
                    store,
                    edges,
                    file,
                    owner,
                    *from,
                    *end,
                    DispatchKind::Direct,
                    callee,
                    filters,
                );
            },
            _ => {},
        }
        i += 1;
    }
}

/// Looks at the references to a function in files.
pub fn collect_lookup_callers_for_function(
    store: &mut LookupStore,
    edges: &mut Vec<CallEdgeRow>,
    files: &Vec<FileReferences>,
    callee: DefId,
    filters: &CallLookupFilters,
)
    requires
        old(store).wf(),
        forall|i: int| 0 <= i < files@.len() ==> file_indexable(#[trigger] files@[i]),
    ensures
        final(store).wf(),
        (CallSearch { store: final(store)@, edges: edge_views(final(edges)@) }) == with_files(
            CallSearch { store: old(store)@, edges: edge_views(old(edges)@) },
            files@,
            callee@,
            *filters,
            files@.len(),
        ),
{
    let ghost start = CallSearch { store: store@, edges: edge_views(edges@) };
    let mut i: usize = 0;
    while i < files.len()
        invariant
            start == (CallSearch { store: old(store)@, edges: edge_views(old(edges)@) }),
            store.wf(),
            forall|k: int| 0 <= k < files@.len() ==> file_indexable(#[trigger] files@[k]),
            i <= files@.len(),
            (CallSearch { store: store@, edges: edge_views(edges@) }) == with_files(
                start,
                files@,
                callee@,
                *filters,
                i as nat,
            ),
        decreases files.len() - i,
    {
        assert(file_indexable(files@[i as int]));
        collect_file_callers(store, edges, &files[i], callee, filters);
        i += 1;
    }
}

/// What an ancestor of a call is.
#[derive(Debug, Clone, Copy, PartialEq, Eq, Structural)]
pub enum AncestorKind {
    Closure,
    Function,
    Other,
}

/// Which ancestor of a call, from the closest out, the call belongs to: the first
/// closure or function.
pub fn owner_among(ancestors: &Vec<AncestorKind>) -> (r: Option<usize>)
    ensures
        match r {
            Some(i) => i < ancestors@.len() && !(ancestors@[i as int] is Other) && forall|k: int|
                0 <= k < i ==> #[trigger] ancestors@[k] is Other,
            None => forall|k: int| 0 <= k < ancestors@.len() ==> #[trigger] ancestors@[k] is Other,
        },
{
    let mut i: usize = 0;
    while i < ancestors.len()
        invariant
            i <= ancestors@.len(),
            forall|k: int| 0 <= k < i ==> #[trigger] ancestors@[k] is Other,
        decreases ancestors.len() - i,
    {
        if ancestors[i] != AncestorKind::Other {
            return Some(i);
        }
        i += 1;
    }
    None
}

/// Whether a rename of an import is met for the first time: then the function is
/// to be searched for under its new name too.
pub fn note_import_rename(seen: &mut Vec<String>, rel_path: &str, start: u32, end: u32) -> (r: bool)
    ensures
        r == !texts(old(seen)@).contains(place_text(rel_path@, start, end)),
        texts(final(seen)@) == if r {
            texts(old(seen)@).push(place_text(rel_path@, start, end))
        } else {
            texts(old(seen)@)
        },
{
    let key = place_to_text(rel_path, start, end);
    if crate::ra::core_index::holds_text(seen, key.as_str()) {
        return false;
    }
    let ghost before = texts(seen@);
    let ghost shown = key@;
    seen.push(key);
    assert(texts(seen@) =~= before.push(shown));
    true
}

} // verus!
