//! What is known is answered: lookups give the row of every fact that they know and
//! that agrees with what is asked.

use crate::host::SpanKeyView;
use crate::ir::stable_id_text;
use crate::ra::answer_laws::agrees;
use crate::ra::call_laws::binds;
use crate::ra::core_index::CoreView;
use crate::ra::kinds::{shown_kind, DefKind, NodeKind};
use crate::ra::lookup_store::{lookup_id, DefFacts, StoreView};
use crate::ra::lookups::{
    beyond, bound, def_answer, def_flag_answer, def_handle_answer, def_kind_answer,
    def_path_answer, def_rows, def_span_answer, fits, flag_named, flagged, ArgClass, DefFlag,
};
use crate::ra::name_rows::{
    def_name_answer, law_ids_stay_ascending, name_rows, symbol_search, with_items, with_symbols,
    NameSearch, SymbolFacts,
};
use crate::ra::node_rows::{
    control_answer, control_signature, node_at_answer, node_id_answer, node_kind_answer,
    node_parent_answer, node_span_answer, span_allowed_answer, span_key_answer,
    span_key_signature,
};
use crate::ra::store::ascending;
use crate::ra::values::{BoundView, ExternLookupHostValueKind, LookupView};
use vstd::prelude::*;

verus! {

/// A request that a row agrees with fits the classes of the row's values, and binds no
/// argument to anything else.
proof fn lemma_agreeing(request: Seq<BoundView>, signature: Seq<ArgClass>, row: Seq<LookupView>)
    requires
        agrees(request, row),
        row.len() == signature.len(),
        forall|p: int| 0 <= p < row.len() ==> signature[p].holds(#[trigger] row[p]),
    ensures
        fits(request, signature),
        forall|p: int|
            0 <= p < row.len() ==> match #[trigger] bound(request, p) {
                Some(value) => value == row[p],
                None => !binds(request, p),
            },
{
    assert forall|p: int| 0 <= p < row.len() implies match #[trigger] bound(request, p) {
        Some(value) => value == row[p],
        None => !binds(request, p),
    } by {
        lemma_agreeing_bound(request, row, p);
    }
}

proof fn lemma_agreeing_bound(request: Seq<BoundView>, row: Seq<LookupView>, p: int)
    requires
        agrees(request, row),
    ensures
        match bound(request, p) {
            Some(value) => value == row[p],
            None => !binds(request, p),
        },
    decreases request.len(),
{
    if request.len() > 0 {
        let rest = request.drop_last();
        assert(request[request.len() - 1] == request.last());
        assert forall|i: int| 0 <= i < rest.len() implies 0 <= (#[trigger] rest[i]).position
            < row.len() && row[rest[i].position] == rest[i].value by {
            assert(rest[i] == request[i]);
        }
        lemma_agreeing_bound(rest, row, p);
        if request.last().position != p && binds(request, p) {
            let i = choose|i: int|
                0 <= i < request.len() && (#[trigger] request[i]).position == p;
            assert(rest[i].position == p);
        }
    }
}

/// The word by which answers name what a definition is.
pub open spec fn def_word(kind: DefKind) -> Seq<char> {
    match kind {
        DefKind::Fn => "FN"@,
        DefKind::Method => "METHOD"@,
        DefKind::Struct => "STRUCT"@,
        DefKind::Enum => "ENUM"@,
        DefKind::Union => "UNION"@,
        DefKind::Trait => "TRAIT"@,
        DefKind::Impl => "IMPL"@,
        DefKind::Mod => "MOD"@,
        DefKind::Field => "FIELD"@,
        DefKind::Variant => "VARIANT"@,
        DefKind::Const => "CONST"@,
        DefKind::Static => "STATIC"@,
        DefKind::TypeAlias => "TYPE_ALIAS"@,
        DefKind::AssocType => "ASSOC_TYPE"@,
        DefKind::AssocConst => "ASSOC_CONST"@,
        DefKind::Macro => "MACRO"@,
        DefKind::Other => "OTHER"@,
    }
}

/// What is known of a definition: what was looked up, else what the index says.
pub open spec fn known_kind(core: CoreView, store: StoreView, def: u64) -> Option<DefKind> {
    if store.defs.contains_key(def) {
        Some(store.defs[def].kind)
    } else if core.defs.contains_key(def) {
        Some(core.defs[def].kind)
    } else {
        None
    }
}

/// The value is the definition.
pub open spec fn def_is(value: LookupView, def: u64) -> bool {
    value == LookupView::Host(ExternLookupHostValueKind::Def, def)
}

/// The value is the span.
pub open spec fn span_is(value: LookupView, span: u64) -> bool {
    value == LookupView::Host(ExternLookupHostValueKind::Span, span)
}

/// The value is the node.
pub open spec fn node_is(value: LookupView, node: u64) -> bool {
    value == LookupView::Host(ExternLookupHostValueKind::Node, node)
}

/// The value is the node, or says that there is none.
pub open spec fn node_or_none_is(value: LookupView, node: Option<u64>) -> bool {
    match node {
        Some(node) => value matches LookupView::Present(inner) && node_is(*inner, node),
        None => value == LookupView::Absent,
    }
}

/// What a definition is, where it stands and what its handle and its path are is
/// answered where it is known.
pub proof fn law_known_defs_are_answered(
    request: Seq<BoundView>,
    core: CoreView,
    store: StoreView,
    entity_path: Option<Seq<char>>,
    def: u64,
    row: Seq<LookupView>,
)
    requires
        binds(request, 0),
        agrees(request, row),
        row.len() == 2,
        def_is(row[0], def),
    ensures
        (match known_kind(core, store, def) {
            Some(kind) => row[1] == (LookupView::Enum {
                name: "DefKind"@,
                variant: def_word(kind),
            }),
            None => false,
        }) ==> def_kind_answer(request, core, store) == seq![row],
        (if store.defs.contains_key(def) {
            span_is(row[1], store.defs[def].span)
        } else {
            core.def_spans.contains_key(def) && span_is(row[1], core.def_spans[def])
        }) ==> def_span_answer(request, core, store) == seq![row],
        (if store.defs.contains_key(def) {
            store.defs[def].path matches Some(path) && row[1] == LookupView::Text("def://"@ + path)
        } else {
            core.defs.contains_key(def) && row[1] == LookupView::Text(
                "def://"@ + core.defs[def].path,
            )
        }) ==> def_handle_answer(request, core, store) == seq![row],
        (if store.defs.contains_key(def) && store.defs[def].path is Some {
            row[1] == LookupView::Text(store.defs[def].path->0)
        } else if store.defs.contains_key(def) && store.defs[def].entity is Some && entity_path
            is Some {
            row[1] == LookupView::Text(entity_path->0)
        } else {
            core.defs.contains_key(def) && row[1] == LookupView::Text(core.defs[def].path)
        }) ==> def_path_answer(request, core, store, entity_path) == Some(seq![row]),
{
    if let Some(kind) = known_kind(core, store, def) {
        if row[1] == (LookupView::Enum { name: "DefKind"@, variant: def_word(kind) }) {
            lemma_agreeing(request, seq![ArgClass::Def, ArgClass::DefKind], row);
            assert(def_word(kind) == kind.label());
            assert(bound(request, 0) is Some);
        assert(bound(request, 1) matches Some(value) ==> value == row[1]);
            assert(row =~= seq![
                crate::ra::values::def_view(def),
                crate::ra::values::def_kind_view(kind),
            ]);
        }
    }
    if row[1] is Host {
        if let LookupView::Host(ExternLookupHostValueKind::Span, span) = row[1] {
            lemma_agreeing(request, seq![ArgClass::Def, ArgClass::Span], row);
            assert(bound(request, 0) is Some);
        assert(bound(request, 1) matches Some(value) ==> value == row[1]);
            assert(row =~= seq![
                crate::ra::values::def_view(def),
                crate::ra::values::span_view(span),
            ]);
        }
    }
    if let LookupView::Text(text) = row[1] {
        lemma_agreeing(request, seq![ArgClass::Def, ArgClass::Text], row);
        assert(bound(request, 0) is Some);
        assert(bound(request, 1) matches Some(value) ==> value == row[1]);
        assert(row =~= seq![crate::ra::values::def_view(def), LookupView::Text(text)]);
    }
}

/// Whether a span is one of the workspace, and what its key is, is answered where the
/// key is known.
pub proof fn law_known_spans_are_answered(
    request: Seq<BoundView>,
    core: CoreView,
    store: StoreView,
    span: u64,
    key: SpanKeyView,
    row: Seq<LookupView>,
)
    requires
        binds(request, 0),
        agrees(request, row),
        row.len() > 0,
        span_is(row[0], span),
        if store.spans.contains_key(span) {
            store.spans[span] == key
        } else {
            core.spans.contains_key(span) && core.spans[span] == key
        },
    ensures
        row.len() == 1 ==> span_allowed_answer(request, core, store) == seq![row],
        row.len() == 6 && row[1] == LookupView::Text(key.rel_path) && row[2]
            == LookupView::Number(key.start.0 as i64) && row[3] == LookupView::Number(
            key.start.1 as i64,
        ) && row[4] == LookupView::Number(key.end.0 as i64) && row[5] == LookupView::Number(
            key.end.1 as i64,
        ) ==> span_key_answer(request, core, store) == seq![row],
{
    if row.len() == 1 {
        lemma_agreeing(request, seq![ArgClass::Span], row);
        assert(bound(request, 0) is Some);
        assert(row =~= seq![crate::ra::values::span_view(span)]);
    }
    if row.len() == 6 && row[1] == LookupView::Text(key.rel_path) && row[2] == LookupView::Number(
        key.start.0 as i64,
    ) && row[3] == LookupView::Number(key.start.1 as i64) && row[4] == LookupView::Number(
        key.end.0 as i64,
    ) && row[5] == LookupView::Number(key.end.1 as i64) {
        lemma_agreeing(request, span_key_signature(), row);
        assert(bound(request, 0) is Some);
        assert(forall|p: int|
            1 <= p < 6 ==> (#[trigger] bound(request, p) matches Some(value) ==> value == row[p]));
        assert(row =~= crate::ra::node_rows::key_row(span, key));
    }
}

/// What a node is, where it stands, what its parent and its stable key are, is answered
/// where the node is known.
pub proof fn law_known_nodes_are_answered(
    request: Seq<BoundView>,
    store: StoreView,
    node: u64,
    row: Seq<LookupView>,
)
    requires
        binds(request, 0),
        agrees(request, row),
        row.len() == 2,
        node_is(row[0], node),
        store.nodes.contains_key(node),
    ensures
        row[1] == (LookupView::Enum {
            name: "NodeKind"@,
            variant: shown_kind(store.nodes[node].kind).label(),
        }) ==> node_kind_answer(request, store) == seq![row],
        span_is(row[1], store.nodes[node].span) ==> node_span_answer(request, store) == seq![row],
        node_or_none_is(row[1], store.nodes[node].parent) ==> node_parent_answer(request, store)
            == seq![row],
        row[1] == LookupView::Text("node_id:"@ + stable_id_text(node)) ==> node_id_answer(
            request,
            store,
        ) == seq![row],
{
    let record = store.nodes[node];
    if row[1] == (LookupView::Enum {
        name: "NodeKind"@,
        variant: shown_kind(record.kind).label(),
    }) {
        lemma_agreeing(request, seq![ArgClass::Node, ArgClass::NodeKind], row);
        assert(bound(request, 0) is Some);
        assert(bound(request, 1) matches Some(value) ==> value == row[1]);
        assert(row =~= seq![
            crate::ra::values::node_view(node),
            crate::ra::values::node_kind_view(record.kind),
        ]);
    }
    if span_is(row[1], record.span) {
        lemma_agreeing(request, seq![ArgClass::Node, ArgClass::Span], row);
        assert(bound(request, 0) is Some);
        assert(bound(request, 1) matches Some(value) ==> value == row[1]);
        assert(row =~= seq![
            crate::ra::values::node_view(node),
            crate::ra::values::span_view(record.span),
        ]);
    }
    if node_or_none_is(row[1], record.parent) {
        lemma_agreeing(request, seq![ArgClass::Node, ArgClass::MaybeNode], row);
        assert(bound(request, 0) is Some);
        assert(bound(request, 1) matches Some(value) ==> value == row[1]);
        assert(row =~= seq![
            crate::ra::values::node_view(node),
            crate::ra::values::option_node_view(record.parent),
        ]);
    }
    if row[1] == LookupView::Text("node_id:"@ + stable_id_text(node)) {
        lemma_agreeing(request, seq![ArgClass::Node, ArgClass::Text], row);
        assert(bound(request, 0) is Some);
        assert(bound(request, 1) matches Some(value) ==> value == row[1]);
        assert(row =~= seq![crate::ra::values::node_view(node), row[1]]);
    }
}

/// Which node stands at a span, and which branch or loop it stands in, is answered
/// once it has been found.
pub proof fn law_found_nodes_are_answered(
    request: Seq<BoundView>,
    span: u64,
    node: Option<u64>,
    kind: NodeKind,
    place: u64,
    distance: nat,
    row: Seq<LookupView>,
)
    requires
        binds(request, 0),
        agrees(request, row),
        row.len() > 1,
        span_is(row[0], span),
    ensures
        row.len() == 2 && node_or_none_is(row[1], node) ==> node_at_answer(request, node) == seq![
            row,
        ],
        row.len() == 4 && (kind is If || kind is Match || kind is While || kind is For || kind
            is Loop) && row[1] == (LookupView::Enum { name: "NodeKind"@, variant: kind.label() })
            && span_is(row[2], place) && row[3] == LookupView::Number(distance as i64)
            ==> control_answer(request, Some((kind, place, distance))) == seq![row],
{
    if row.len() == 2 && node_or_none_is(row[1], node) {
        lemma_agreeing(request, seq![ArgClass::Span, ArgClass::MaybeNode], row);
        assert(bound(request, 0) is Some);
        assert(bound(request, 1) matches Some(value) ==> value == row[1]);
        assert(row =~= seq![
            crate::ra::values::span_view(span),
            crate::ra::values::option_node_view(node),
        ]);
    }
    if row.len() == 4 && row[1] == (LookupView::Enum {
        name: "NodeKind"@,
        variant: kind.label(),
    }) && span_is(row[2], place) && row[3] == LookupView::Number(distance as i64) {
        lemma_agreeing(request, control_signature(), row);
        assert(bound(request, 0) is Some);
        assert(forall|p: int|
            1 <= p < 4 ==> (#[trigger] bound(request, p) matches Some(value) ==> value == row[p]));
        assert(bound(request, 1) matches Some(value) ==> value == row[1]);
        assert(bound(request, 2) matches Some(value) ==> value == row[2]);
        assert(bound(request, 3) matches Some(value) ==> value == row[3]);
        if kind is If || kind is Match || kind is While || kind is For || kind is Loop {
            assert(row =~= seq![
                crate::ra::values::span_view(span),
                crate::ra::values::node_kind_view(kind),
                crate::ra::values::span_view(place),
                LookupView::Number(distance as i64),
            ]);
        }
    }
}

proof fn lemma_beyond(ids: Seq<u64>, core: CoreView, def: u64)
    ensures
        beyond(ids, core).contains(def) <==> ids.contains(def) && !core.defs.contains_key(def),
    decreases ids.len(),
{
    if ids.len() > 0 {
        let rest = ids.drop_last();
        let last = ids.last();
        lemma_beyond(rest, core, def);
        assert(ids =~= rest.push(last));
        lemma_push_contains(rest, last, def);
        lemma_push_contains(beyond(rest, core), last, def);
    }
}

proof fn lemma_push_contains(ids: Seq<u64>, last: u64, def: u64)
    ensures
        ids.push(last).contains(def) <==> ids.contains(def) || def == last,
{
    let all = ids.push(last);
    assert(all[ids.len() as int] == last);
    if ids.contains(def) {
        let k = choose|k: int| 0 <= k < ids.len() && ids[k] == def;
        assert(all[k] == def);
    }
    if all.contains(def) {
        let k = choose|k: int| 0 <= k < all.len() && all[k] == def;
        if k < ids.len() {
            assert(ids[k] == def);
        }
    }
}

proof fn lemma_def_rows(ids: Seq<u64>, def: u64)
    ensures
        def_rows(ids).contains(
            seq![LookupView::Host(ExternLookupHostValueKind::Def, def)],
        ) <==> ids.contains(def),
{
    let rows = def_rows(ids);
    let row = seq![LookupView::Host(ExternLookupHostValueKind::Def, def)];
    if ids.contains(def) {
        let k = choose|k: int| 0 <= k < ids.len() && ids[k] == def;
        assert(rows[k] =~= row);
    }
    if rows.contains(row) {
        let k = choose|k: int| 0 <= k < rows.len() && rows[k] == row;
        assert(rows[k][0] == row[0]);
        assert(ids[k] == def);
    }
}

/// Every definition that is known is among those that there are, and no other is.
pub proof fn law_known_defs_are_listed(
    request: Seq<BoundView>,
    core: CoreView,
    core_ids: Seq<u64>,
    store: StoreView,
    store_ids: Seq<u64>,
    def: u64,
)
    requires
        forall|id: u64| #[trigger] core_ids.contains(id) <==> core.defs.contains_key(id),
        forall|id: u64| #[trigger] store_ids.contains(id) <==> store.defs.contains_key(id),
        agrees(request, seq![LookupView::Host(ExternLookupHostValueKind::Def, def)]),
    ensures
        def_answer(request, core, core_ids, store, store_ids).contains(
            seq![LookupView::Host(ExternLookupHostValueKind::Def, def)],
        ) <==> store.defs.contains_key(def) || core.defs.contains_key(def),
{
    let row = seq![LookupView::Host(ExternLookupHostValueKind::Def, def)];
    lemma_agreeing(request, seq![ArgClass::Def], row);
    let rows = def_answer(request, core, core_ids, store, store_ids);
    if bound(request, 0) is Some {
        assert(bound(request, 0) == Some(row[0]));
        if store.defs.contains_key(def) || core.defs.contains_key(def) {
            assert(rows[0] =~= row);
        }
    } else {
        let first = core_ids;
        let second = beyond(store_ids, core);
        lemma_beyond(store_ids, core, def);
        lemma_def_rows(first, def);
        lemma_def_rows(second, def);
        lemma_def_rows(first + second, def);
        assert((first + second).contains(def) <==> first.contains(def) || second.contains(def)) by {
            let all = first + second;
            if first.contains(def) {
                let k = choose|k: int| 0 <= k < first.len() && first[k] == def;
                assert(all[k] == def);
            }
            if second.contains(def) {
                let k = choose|k: int| 0 <= k < second.len() && second[k] == def;
                assert(all[first.len() + k] == def);
            }
            if all.contains(def) {
                let k = choose|k: int| 0 <= k < all.len() && all[k] == def;
                if k < first.len() {
                    assert(first[k] == def);
                } else {
                    assert(second[k - first.len()] == def);
                }
            }
        }
    }
}

/// The symbol is one of the workspace itself, no alias and no import, and a function
/// or not as asked, and it stands for the definition.
pub open spec fn symbol_is(symbol: SymbolFacts, functions: bool, def: u64) -> bool {
    !symbol.is_alias && !symbol.is_import && symbol.is_local && symbol.facts.entity.is_function
        == functions && lookup_id(symbol.facts) == Some(def)
}

/// Some symbol stands for the definition.
pub open spec fn among_symbols(symbols: Seq<SymbolFacts>, functions: bool, def: u64) -> bool {
    exists|k: int| 0 <= k < symbols.len() && symbol_is(#[trigger] symbols[k], functions, def)
}

/// The symbol index has the definition, among the types and values or among the
/// functions.
pub open spec fn in_symbol_index(
    types: Seq<SymbolFacts>,
    functions: Seq<SymbolFacts>,
    def: u64,
) -> bool {
    among_symbols(types, false, def) || among_symbols(functions, true, def)
}

/// Some item stands for the definition.
pub open spec fn among_items(items: Seq<DefFacts>, def: u64) -> bool {
    exists|k: int| 0 <= k < items.len() && lookup_id(#[trigger] items[k]) == Some(def)
}

proof fn lemma_symbols(
    search: NameSearch,
    symbols: Seq<SymbolFacts>,
    functions: bool,
    filter: Option<u64>,
    count: nat,
)
    requires
        ascending(search.found),
        count <= symbols.len(),
    ensures
        ({
            let found = with_symbols(search, symbols, functions, filter, count).found;
            &&& ascending(found)
            &&& forall|def: u64| #[trigger]
                found.contains(def) <==> search.found.contains(def) || ((filter is None || filter
                    == Some(def)) && among_symbols(symbols.take(count as int), functions, def))
        }),
    decreases count,
{
    if count == 0 {
        assert(symbols.take(0).len() == 0);
    } else {
        let n = count - 1;
        lemma_symbols(search, symbols, functions, filter, n as nat);
        let told = with_symbols(search, symbols, functions, filter, n as nat);
        let found = with_symbols(search, symbols, functions, filter, count).found;
        let symbol = symbols[n];
        if let Some(def) = lookup_id(symbol.facts) {
            law_ids_stay_ascending(told.found, def);
        }
        let shorter = symbols.take(n);
        let taken = symbols.take(count as int);
        assert forall|def: u64| #[trigger]
            found.contains(def) <==> search.found.contains(def) || ((filter is None || filter
                == Some(def)) && among_symbols(taken, functions, def)) by {
            assert(taken[n] == symbol);
            assert(among_symbols(taken, functions, def) <==> among_symbols(shorter, functions, def)
                || symbol_is(symbol, functions, def)) by {
                if among_symbols(shorter, functions, def) {
                    let k = choose|k: int|
                        0 <= k < shorter.len() && symbol_is(
                            #[trigger] shorter[k],
                            functions,
                            def,
                        );
                    assert(taken[k] == shorter[k]);
                }
                if among_symbols(taken, functions, def) {
                    let k = choose|k: int|
                        0 <= k < taken.len() && symbol_is(#[trigger] taken[k], functions, def);
                    if k < n {
                        assert(shorter[k] == taken[k]);
                    }
                }
            }
        }
    }
}

proof fn lemma_items(search: NameSearch, items: Seq<DefFacts>, filter: Option<u64>, count: nat)
    requires
        ascending(search.found),
        count <= items.len(),
    ensures
        ({
            let found = with_items(search, items, filter, count).found;
            &&& ascending(found)
            &&& forall|def: u64| #[trigger]
                found.contains(def) <==> search.found.contains(def) || ((filter is None || filter
                    == Some(def)) && among_items(items.take(count as int), def))
        }),
    decreases count,
{
    if count == 0 {
        assert(items.take(0).len() == 0);
    } else {
        let n = count - 1;
        lemma_items(search, items, filter, n as nat);
        let told = with_items(search, items, filter, n as nat);
        let found = with_items(search, items, filter, count).found;
        let item = items[n];
        if let Some(def) = lookup_id(item) {
            law_ids_stay_ascending(told.found, def);
        }
        let shorter = items.take(n);
        let taken = items.take(count as int);
        assert forall|def: u64| #[trigger]
            found.contains(def) <==> search.found.contains(def) || ((filter is None || filter
                == Some(def)) && among_items(taken, def)) by {
            assert(taken[n] == item);
            assert(among_items(taken, def) <==> among_items(shorter, def) || lookup_id(item)
                == Some(def)) by {
                if among_items(shorter, def) {
                    let k = choose|k: int|
                        0 <= k < shorter.len() && lookup_id(#[trigger] shorter[k]) == Some(def);
                    assert(taken[k] == shorter[k]);
                }
                if among_items(taken, def) {
                    let k = choose|k: int|
                        0 <= k < taken.len() && lookup_id(#[trigger] taken[k]) == Some(def);
                    if k < n {
                        assert(shorter[k] == taken[k]);
                    }
                }
            }
        }
    }
}

proof fn lemma_name_rows(ids: Seq<u64>, name: Seq<char>, def: u64, row: Seq<LookupView>)
    requires
        row.len() == 2,
        def_is(row[0], def),
        row[1] == LookupView::Text(name),
    ensures
        name_rows(ids, name).contains(row) <==> ids.contains(def),
{
    let rows = name_rows(ids, name);
    if ids.contains(def) {
        let k = choose|k: int| 0 <= k < ids.len() && ids[k] == def;
        assert(rows[k] =~= row);
    }
    if rows.contains(row) {
        let k = choose|k: int| 0 <= k < rows.len() && rows[k] == row;
        assert(rows[k][0] == row[0]);
        assert(ids[k] == def);
    }
}

/// The name of a known definition is answered; and a name that is searched for is
/// answered with exactly the definitions that the symbol index has under it, the types
/// and values of the one list and the functions of the other, or, where those are none,
/// with the items of that name in the modules.
pub proof fn law_names_are_answered(
    request: Seq<BoundView>,
    core: CoreView,
    store: StoreView,
    types: Seq<SymbolFacts>,
    functions: Seq<SymbolFacts>,
    items: Seq<DefFacts>,
    def: u64,
    name: Seq<char>,
    row: Seq<LookupView>,
)
    requires
        agrees(request, row),
        row.len() == 2,
        def_is(row[0], def),
        row[1] == LookupView::Text(name),
    ensures
        binds(request, 0) && (if store.defs.contains_key(def) {
            store.defs[def].name == name
        } else {
            core.defs.contains_key(def) && core.defs[def].name == name
        }) ==> def_name_answer(request, core, store, types, functions, items).1 == seq![row],
        binds(request, 1) && !(binds(request, 0) && (store.defs.contains_key(def)
            || core.defs.contains_key(def))) ==> {
            let rows = def_name_answer(request, core, store, types, functions, items).1;
            let indexed = exists|other: u64|
                (binds(request, 0) ==> other == def) && #[trigger] in_symbol_index(
                    types,
                    functions,
                    other,
                );
            &&& indexed ==> (rows.contains(row) <==> in_symbol_index(types, functions, def))
            &&& !indexed ==> (rows.contains(row) <==> among_items(items, def))
        },
{
    lemma_agreeing(request, seq![ArgClass::Def, ArgClass::Text], row);
    assert(bound(request, 0) matches Some(value) ==> value == row[0]);
    assert(bound(request, 1) matches Some(value) ==> value == row[1]);
    assert(row =~= seq![crate::ra::values::def_view(def), LookupView::Text(name)]);
    if binds(request, 1) && !(binds(request, 0) && (store.defs.contains_key(def)
        || core.defs.contains_key(def))) {
        let filter = crate::ra::lookups::bound_def(request, 0);
        let start = NameSearch { store, found: Seq::empty() };
        lemma_symbols(start, types, false, filter, types.len());
        let typed = with_symbols(start, types, false, filter, types.len());
        lemma_symbols(typed, functions, true, filter, functions.len());
        let symbols = symbol_search(store, types, functions, filter);
        let again = NameSearch { store: symbols.store, found: Seq::empty() };
        lemma_items(again, items, filter, items.len());
        let held = with_items(again, items, filter, items.len());
        assert(types.take(types.len() as int) =~= types);
        assert(functions.take(functions.len() as int) =~= functions);
        assert(items.take(items.len() as int) =~= items);
        lemma_name_rows(symbols.found, name, def, row);
        lemma_name_rows(held.found, name, def, row);
        lemma_bound_binds(request, 0);
        assert forall|other: u64| #[trigger]
            symbols.found.contains(other) <==> (binds(request, 0) ==> other == def)
                && in_symbol_index(types, functions, other) by {}
        if symbols.found.len() > 0 {
            assert(symbols.found.contains(symbols.found[0]));
            assert(in_symbol_index(types, functions, symbols.found[0]));
        } else {
            assert forall|other: u64|
                (binds(request, 0) ==> other == def) implies !#[trigger] in_symbol_index(
                types,
                functions,
                other,
            ) by {
                assert(!symbols.found.contains(other));
            }
        }
    }
}

/// What an argument is bound to is bound there.
proof fn lemma_bound_binds(request: Seq<BoundView>, p: int)
    ensures
        bound(request, p) is Some <==> binds(request, p),
    decreases request.len(),
{
    if request.len() > 0 {
        let rest = request.drop_last();
        lemma_bound_binds(rest, p);
        assert(request[request.len() - 1] == request.last());
        if binds(rest, p) {
            let i = choose|i: int| 0 <= i < rest.len() && (#[trigger] rest[i]).position == p;
            assert(request[i].position == p);
        }
        if binds(request, p) && request.last().position != p {
            let i = choose|i: int|
                0 <= i < request.len() && (#[trigger] request[i]).position == p;
            assert(rest[i].position == p);
        }
    }
}

/// A flag is answered where it is known: a definition that has it with its row, one
/// that has it not without, and without a definition all that have it.
pub proof fn law_known_flags_are_answered(
    request: Seq<BoundView>,
    core: CoreView,
    ids: Seq<u64>,
    predicate: Seq<char>,
    def: u64,
)
    requires
        predicate == "is_public"@ || predicate == "in_test"@,
        forall|id: u64| #[trigger] ids.contains(id) <==> core.defs.contains_key(id),
        agrees(request, seq![LookupView::Host(ExternLookupHostValueKind::Def, def)]),
    ensures
        ({
            let row = seq![LookupView::Host(ExternLookupHostValueKind::Def, def)];
            let told = if !core.defs.contains_key(def) {
                None
            } else if predicate == "is_public"@ {
                core.defs[def].is_public
            } else {
                core.defs[def].in_test
            };
            match def_flag_answer(request, Some(core), ids, flag_named(predicate)) {
                Some(rows) => rows.contains(row) <==> told == Some(true),
                None => binds(request, 0) && told is None,
            }
        }),
{
    let row = seq![LookupView::Host(ExternLookupHostValueKind::Def, def)];
    lemma_agreeing(request, seq![ArgClass::Def], row);
    reveal_strlit("is_public");
    reveal_strlit("in_test");
    assert("is_public"@.len() != "in_test"@.len());
    let flag = flag_named(predicate)->0;
    if bound(request, 0) is Some {
        if let Some(rows) = def_flag_answer(request, Some(core), ids, Some(flag)) {
            if rows.len() > 0 {
                assert(rows[0] =~= row);
            }
        }
    } else {
        lemma_flagged(core, ids, flag, def);
        lemma_def_rows(flagged(core, ids, flag), def);
    }
}

proof fn lemma_flagged(core: CoreView, ids: Seq<u64>, flag: DefFlag, def: u64)
    ensures
        flagged(core, ids, flag).contains(def) <==> ids.contains(def)
            && crate::ra::lookups::flag_of(core, flag, def) == Some(true),
    decreases ids.len(),
{
    if ids.len() > 0 {
        let rest = ids.drop_last();
        lemma_flagged(core, rest, flag, def);
        assert(ids =~= rest.push(ids.last()));
        lemma_push_contains(rest, ids.last(), def);
        lemma_push_contains(flagged(core, rest, flag), ids.last(), def);
    }
}

} // verus!
