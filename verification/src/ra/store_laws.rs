//! What every lookup keeps of the store.

use crate::ra::file_id::SourceEdition;
use crate::ra::node_rows::SourceTextView;
use crate::ra::call_lookup::{
    callee_of, owner_of, target_of, with_body, with_caller, with_files, with_found_call,
    with_reference, with_references, BodyCall, CallFacts, CallLookupFilters, CallSearch,
    FileReferences, OwnerFacts, Reference,
};
use crate::ra::call_rows::{call_edge_answer, function_record, CallEdgeFacts};
use crate::ra::core_index::CoreView;
use crate::ra::kinds::DispatchKind;
use crate::ra::lookup_store::{CallableFacts, DefFacts, LocalFile, StoreView};
use crate::ra::lookups::{after_def_path, after_def_span, ArgClass};
use crate::ra::name_rows::{
    def_name_answer, symbol_search, with_items, with_symbols, NameSearch, SymbolFacts,
};
use crate::ra::node_lookup::{lineage, with_all_lineage, with_lineage};
use crate::ra::node_rows::{after_span_key, asked_node};
use crate::ra::seeding::FileView;
use crate::ra::syntax::{parsed_tree, SyntaxView};
use crate::ra::values::BoundView;
use vstd::prelude::*;

verus! {

/// Every span that the store tells of a definition or a node has a key, and every
/// parent that it tells of is a node it tells of.
pub open spec fn is_closed(store: StoreView) -> bool {
    &&& forall|def: u64| #[trigger]
        store.defs.contains_key(def) ==> store.spans.contains_key(store.defs[def].span)
    &&& forall|node: u64| #[trigger]
        store.nodes.contains_key(node) ==> store.spans.contains_key(store.nodes[node].span)
            && match store.nodes[node].parent {
            Some(parent) => store.nodes.contains_key(parent),
            None => true,
        }
}

/// The store tells what another does of which spans have keys and which nodes
/// are known, and more.
pub open spec fn extends(store: StoreView, other: StoreView) -> bool {
    &&& forall|span: u64| #[trigger]
        other.spans.contains_key(span) ==> store.spans.contains_key(span)
    &&& forall|def: u64| #[trigger]
        other.defs.contains_key(def) ==> store.defs.contains_key(def)
    &&& forall|node: u64| #[trigger]
        other.nodes.contains_key(node) ==> store.nodes.contains_key(node)
}

/// The later store is closed and forgets nothing.
pub open spec fn keeps_store(before: StoreView, after: StoreView) -> bool {
    is_closed(before) ==> is_closed(after) && extends(after, before)
}

proof fn lemma_facts_keep(store: StoreView, facts: DefFacts)
    ensures
        keeps_store(store, store.with_facts(facts)),
{
}

proof fn lemma_synthetic_keep(
    store: StoreView,
    prefix: Seq<char>,
    file: LocalFile,
    facts: CallableFacts,
)
    ensures
        keeps_store(store, store.with_synthetic(prefix, file, facts)),
{
}

proof fn lemma_owner_keeps(store: StoreView, file: LocalFile, owner: OwnerFacts)
    ensures
        keeps_store(store, owner_of(store, file, owner).0),
{
    match owner {
        OwnerFacts::Closure(facts) => {
            lemma_synthetic_keep(store, "closure"@, file, facts);
        },
        OwnerFacts::Function(facts) => {
            lemma_facts_keep(store, facts);
        },
        _ => {},
    }
}

proof fn lemma_callee_keeps(store: StoreView, file: LocalFile, call: CallFacts)
    ensures
        keeps_store(store, callee_of(store, file, call).0),
{
    match call {
        CallFacts::Expression(Some(target)) => {
            let told = target_of(store, file, target).0;
            assert(keeps_store(store, told));
        },
        CallFacts::Method(Some(method)) => {
            lemma_facts_keep(store, method.function);
        },
        _ => {},
    }
}

proof fn lemma_found_keeps(
    search: CallSearch,
    file: LocalFile,
    start: u32,
    end: u32,
    caller: u64,
    callee: u64,
    dispatch: DispatchKind,
    filters: CallLookupFilters,
)
    ensures
        keeps_store(
            search.store,
            with_found_call(search, file, start, end, caller, callee, dispatch, filters).store,
        ),
{
}

proof fn lemma_body_keeps(
    search: CallSearch,
    file: LocalFile,
    calls: Seq<BodyCall>,
    caller: u64,
    filters: CallLookupFilters,
    count: nat,
)
    ensures
        keeps_store(
            search.store,
            with_body(search, file, calls, caller, filters, count).0.store,
        ),
    decreases count,
{
    if count > 0 {
        lemma_body_keeps(search, file, calls, caller, filters, (count - 1) as nat);
        let told = with_body(search, file, calls, caller, filters, (count - 1) as nat).0;
        let call = calls[count - 1];
        let owned = owner_of(told.store, file, call.owner).0;
        lemma_owner_keeps(told.store, file, call.owner);
        lemma_callee_keeps(owned, file, call.call);
        let (known, callee) = callee_of(owned, file, call.call);
        if let Some(Some((callee, dispatch))) = callee {
            lemma_found_keeps(
                CallSearch { store: known, ..told },
                file,
                call.start,
                call.end,
                caller,
                callee,
                dispatch,
                filters,
            );
        }
    }
}

proof fn lemma_caller_keeps(
    search: CallSearch,
    file: LocalFile,
    owner: OwnerFacts,
    start: u32,
    end: u32,
    dispatch: DispatchKind,
    callee: u64,
    filters: CallLookupFilters,
)
    ensures
        keeps_store(
            search.store,
            with_caller(search, file, owner, start, end, dispatch, callee, filters).store,
        ),
{
    lemma_owner_keeps(search.store, file, owner);
    let (told, caller) = owner_of(search.store, file, owner);
    if let Some(caller) = caller {
        lemma_found_keeps(
            CallSearch { store: told, ..search },
            file,
            start,
            end,
            caller,
            callee,
            dispatch,
            filters,
        );
    }
}

proof fn lemma_references_keep(
    search: CallSearch,
    file: LocalFile,
    references: Seq<Reference>,
    callee: u64,
    filters: CallLookupFilters,
    count: nat,
)
    ensures
        keeps_store(
            search.store,
            with_references(search, file, references, callee, filters, count).store,
        ),
    decreases count,
{
    if count > 0 {
        lemma_references_keep(search, file, references, callee, filters, (count - 1) as nat);
        let told = with_references(search, file, references, callee, filters, (count - 1) as nat);
        match references[count - 1] {
            Reference::Method { resolves: true, owner, start, end, on_trait_object, of_trait } => {
                lemma_caller_keeps(
                    told,
                    file,
                    owner,
                    start,
                    end,
                    crate::ra::call_lookup::method_dispatch_of(on_trait_object, of_trait),
                    callee,
                    filters,
                );
            },
            Reference::Call { resolves: true, owner, start, end } => {
                lemma_caller_keeps(
                    told,
                    file,
                    owner,
                    start,
                    end,
                    DispatchKind::Direct,
                    callee,
                    filters,
                );
            },
            _ => {},
        }
        assert(keeps_store(
            told.store,
            with_reference(told, file, references[count - 1], callee, filters).store,
        ));
    }
}

proof fn lemma_files_keep(
    search: CallSearch,
    files: Seq<FileReferences>,
    callee: u64,
    filters: CallLookupFilters,
    count: nat,
)
    ensures
        keeps_store(search.store, with_files(search, files, callee, filters, count).store),
    decreases count,
{
    if count > 0 {
        lemma_files_keep(search, files, callee, filters, (count - 1) as nat);
        let told = with_files(search, files, callee, filters, (count - 1) as nat);
        let found = files[count - 1];
        lemma_references_keep(
            told,
            found.file,
            found.references@,
            callee,
            filters,
            found.references@.len(),
        );
    }
}

/// Looking for calls keeps the store closed and forgets nothing.
pub proof fn law_call_lookups_keep_the_store(
    request: Seq<BoundView>,
    core: CoreView,
    store: StoreView,
    facts: CallEdgeFacts,
    filters: CallLookupFilters,
)
    requires
        is_closed(store),
    ensures
        is_closed(call_edge_answer(request, core, store, facts, filters).0),
        extends(call_edge_answer(request, core, store, facts, filters).0, store),
{
    if let crate::ra::call_rows::CallReadingView::Calls(read) = crate::ra::call_rows::read_calls(
        request,
    ) {
        let asked = match read.caller {
            Some(caller) => caller,
            None => read.callee->0,
        };
        if let Some(function) = facts.function {
            lemma_facts_keep(store, function);
        }
        let told = function_record(core, store, asked, facts.function).0;
        assert(keeps_store(store, told));
        let start = CallSearch { store: told, edges: Seq::empty() };
        if let Some(body) = facts.body {
            lemma_body_keeps(
                start,
                body.file,
                body.calls@,
                asked,
                filters,
                body.calls@.len(),
            );
        }
        lemma_files_keep(start, facts.references@, asked, filters, facts.references@.len());
    }
}

proof fn lemma_symbols_keep(
    search: NameSearch,
    symbols: Seq<SymbolFacts>,
    functions: bool,
    filter: Option<u64>,
    count: nat,
)
    ensures
        keeps_store(
            search.store,
            with_symbols(search, symbols, functions, filter, count).store,
        ),
    decreases count,
{
    if count > 0 {
        lemma_symbols_keep(search, symbols, functions, filter, (count - 1) as nat);
        let told = with_symbols(search, symbols, functions, filter, (count - 1) as nat);
        lemma_facts_keep(told.store, symbols[count - 1].facts);
    }
}

proof fn lemma_items_keep(
    search: NameSearch,
    items: Seq<DefFacts>,
    filter: Option<u64>,
    count: nat,
)
    ensures
        keeps_store(search.store, with_items(search, items, filter, count).store),
    decreases count,
{
    if count > 0 {
        lemma_items_keep(search, items, filter, (count - 1) as nat);
        let told = with_items(search, items, filter, (count - 1) as nat);
        lemma_facts_keep(told.store, items[count - 1]);
    }
}

/// Looking for names keeps the store closed and forgets nothing.
pub proof fn law_name_lookups_keep_the_store(
    request: Seq<BoundView>,
    core: CoreView,
    store: StoreView,
    types: Seq<SymbolFacts>,
    functions: Seq<SymbolFacts>,
    items: Seq<DefFacts>,
)
    requires
        is_closed(store),
    ensures
        is_closed(def_name_answer(request, core, store, types, functions, items).0),
        extends(def_name_answer(request, core, store, types, functions, items).0, store),
{
    let filter = crate::ra::lookups::bound_def(request, 0);
    let start = NameSearch { store, found: Seq::empty() };
    lemma_symbols_keep(start, types, false, filter, types.len());
    let typed = with_symbols(start, types, false, filter, types.len());
    lemma_symbols_keep(typed, functions, true, filter, functions.len());
    let symbols = symbol_search(store, types, functions, filter);
    lemma_items_keep(
        NameSearch { store: symbols.store, found: Seq::empty() },
        items,
        filter,
        items.len(),
    );
}

proof fn lemma_lineage_keeps(
    store: StoreView,
    file: FileView,
    tree: Seq<SyntaxView>,
    rows: Seq<int>,
    count: nat,
)
    ensures
        keeps_store(store, with_lineage(store, file, tree, rows, count).0),
        match with_lineage(store, file, tree, rows, count) {
            (told, Some(Some(node))) => told.nodes.contains_key(node),
            _ => true,
        },
    decreases count,
{
    if count > 0 {
        lemma_lineage_keeps(store, file, tree, rows, (count - 1) as nat);
    }
}

/// Looking for the node at a span keeps the store closed and forgets nothing, and
/// the node that is found is one that the store tells of.
pub proof fn law_node_lookups_keep_the_store(
    request: Seq<BoundView>,
    signature: Seq<ArgClass>,
    core: CoreView,
    store: StoreView,
    source: Option<SourceTextView>,
)
    requires
        is_closed(store),
    ensures
        ({
            let (told, node) = asked_node(request, signature, core, store, source);
            is_closed(told) && extends(told, store) && match node {
                Some(node) => told.nodes.contains_key(node),
                None => true,
            }
        }),
{
    if let Some(span) = crate::ra::lookups::bound_span(request, 0) {
        if let Some(key) = crate::ra::node_rows::key_of_span(core, store, span) {
            let placed = store.with_new_span(span, key);
            assert(keeps_store(store, placed));
            if let Some(source) = source {
                let file = FileView {
                    file_id: source.file_id.renewed(),
                    rel_path: key.rel_path,
                    source: source.text,
                };
                let tree = parsed_tree(source.text, SourceEdition::newest());
                let start = crate::ra::source::offset_at(source.text, key.start);
                let end = crate::ra::source::offset_at(source.text, key.end);
                if let (Some(start), Some(end)) = (start, end) {
                    let row = crate::ra::node_lookup::node_row_at(file, tree, start, end);
                    if let Some(row) = row {
                        let rows = lineage(tree, row);
                        lemma_lineage_keeps(placed, file, tree, rows, rows.len());
                        assert(keeps_store(
                            placed,
                            with_all_lineage(placed, file, tree, row).0,
                        ));
                    }
                }
            }
        }
    }
}

/// Asking for the place or the path of a definition, or for the key of a span,
/// keeps the store closed and forgets nothing.
pub proof fn law_plain_lookups_keep_the_store(
    request: Seq<BoundView>,
    core: CoreView,
    store: StoreView,
    entity_path: Option<Seq<char>>,
)
    requires
        is_closed(store),
    ensures
        is_closed(after_def_span(request, core, store)),
        extends(after_def_span(request, core, store), store),
        is_closed(after_def_path(request, store, entity_path)),
        extends(after_def_path(request, store, entity_path), store),
        is_closed(after_span_key(request, core, store)),
        extends(after_span_key(request, core, store), store),
{
}

} // verus!
