//! Answering questions about spans and syntax nodes.

use crate::ra::file_id::{EditionedFileId, SourceEdition};
use crate::host::{NodeId, SpanId, SpanKey, SpanKeyView};
use crate::ir::stable_id_text;
use crate::ra::core_index::{CoreLookupIndex, CoreView};
use crate::ra::host::{opt_node, NodeRecordView};
use crate::ra::kinds::{
    is_control, is_control_kind, node_kind_from_variant, public_node_kind, shown_kind, NodeKind,
};
use crate::ra::lookup_store::{LocalFile, LookupStore, StoreView};
use crate::ra::lookups::{
    allows_number, allows_span, allows_text, bound, bound_number, bound_span, bound_text,
    bound_to_number, bound_to_span, bound_to_text, bound_value, core_view, core_wf, fits,
    id_allowed, keep_span, no_rows, number_allowed, one_row, request_fits, row2, text_allowed,
    ArgClass,
};
use crate::ra::node_lookup::{
    cache_lookup_node_lineage, closest_node, node_row_at, with_all_lineage,
};
use crate::ra::seeding::FileView;
use crate::ra::source::{indexable, offset_at, offset_for_coord};
use crate::ra::syntax::{parse_tree, parsed_tree};
use crate::ra::values::{
    as_node, as_option_node, as_variant, node_kind_lookup_value, node_kind_view, node_value,
    node_view, option_node_lookup_value, option_node_view, row_view, rows_view, span_value,
    span_view, text_value, BoundView, ExternLookupRequest, ExternLookupValue, LookupView,
};
use crate::text::{cat2, owned};
use vstd::prelude::*;

verus! {

/// The node that an argument is bound to.
pub open spec fn bound_node(request: Seq<BoundView>, position: int) -> Option<u64> {
    match bound(request, position) {
        Some(value) => as_node(value),
        None => None,
    }
}

/// The node, or none, that an argument is bound to.
pub open spec fn bound_option_node(request: Seq<BoundView>, position: int) -> Option<
    Option<u64>,
> {
    match bound(request, position) {
        Some(value) => as_option_node(value),
        None => None,
    }
}

/// The label of a node kind that an argument is bound to.
pub open spec fn bound_node_kind(request: Seq<BoundView>, position: int) -> Option<Seq<char>> {
    match bound(request, position) {
        Some(value) => as_variant(value, "NodeKind"@),
        None => None,
    }
}

/// A node kind is not kept out by the label its argument is bound to: a label
/// that names no kind keeps none out.
pub open spec fn node_kind_allowed(filter: Option<Seq<char>>, kind: NodeKind) -> bool {
    match filter {
        Some(label) => label == kind.label() || forall|other: NodeKind|
            label != #[trigger] other.label(),
        None => true,
    }
}

/// A node, or none, is not kept out by what its argument is bound to.
pub open spec fn option_node_allowed(filter: Option<Option<u64>>, node: Option<u64>) -> bool {
    match filter {
        Some(wanted) => wanted == node,
        None => true,
    }
}

fn bound_to_node(request: &ExternLookupRequest, position: usize) -> (r: Option<NodeId>)
    ensures
        opt_node(r) == bound_node(request@, position as int),
{
    match bound_value(request, position) {
        Some(value) => value.to_node(),
        None => None,
    }
}

fn allows_option_node(
    request: &ExternLookupRequest,
    position: usize,
    node: Option<NodeId>,
) -> (r: bool)
    ensures
        r == option_node_allowed(bound_option_node(request@, position as int), opt_node(node)),
{
    match bound_value(request, position) {
        Some(value) => match value.to_option_node() {
            Some(Some(wanted)) => match node {
                Some(node) => wanted.stable_id().as_u64() == node.stable_id().as_u64(),
                None => false,
            },
            Some(None) => node.is_none(),
            None => true,
        },
        None => true,
    }
}

fn allows_node_kind(request: &ExternLookupRequest, position: usize, kind: NodeKind) -> (r: bool)
    ensures
        r == node_kind_allowed(bound_node_kind(request@, position as int), kind),
{
    match bound_value(request, position) {
        Some(value) => match value.to_variant("NodeKind") {
            Some(label) => match node_kind_from_variant(label) {
                Some(wanted) => {
                    proof {
                        crate::ra::kinds::law_node_kind_labels_are_distinct(wanted, kind);
                        assert(label@ == wanted.label());
                    }
                    wanted == kind
                },
                None => true,
            },
            None => true,
        },
        None => true,
    }
}

/// The key of a span: what was looked up, else what the index says.
pub open spec fn key_of_span(core: CoreView, store: StoreView, span: u64) -> Option<SpanKeyView> {
    if store.spans.contains_key(span) {
        Some(store.spans[span])
    } else if core.spans.contains_key(span) {
        Some(core.spans[span])
    } else {
        None
    }
}

/// What an optional key says.
pub open spec fn opt_key(key: Option<SpanKey>) -> Option<SpanKeyView> {
    match key {
        Some(key) => Some(key@),
        None => None,
    }
}

/// The key of a span: what was looked up, else what the index says.
pub fn known_key(core: Option<&CoreLookupIndex>, store: &LookupStore, span: SpanId) -> (r: Option<
    SpanKey,
>)
    requires
        core_wf(core),
        store.wf(),
    ensures
        opt_key(r) == key_of_span(core_view(core), store@, span@),
{
    match store.spans.get(span.stable_id().as_u64()) {
        Some(key) => Some(SpanKey::new(key.rel_path(), key.start(), key.end())),
        None => match core {
            Some(index) => match index.span_key(span) {
                Some(key) => Some(SpanKey::new(key.rel_path(), key.start(), key.end())),
                None => None,
            },
            None => None,
        },
    }
}

/// The answer to whether a span is one of the workspace.
pub open spec fn span_allowed_answer(
    request: Seq<BoundView>,
    core: CoreView,
    store: StoreView,
) -> Seq<Seq<LookupView>> {
    match bound_span(request, 0) {
        Some(span) => if fits(request, seq![ArgClass::Span]) && key_of_span(core, store, span)
            is Some {
            seq![seq![span_view(span)]]
        } else {
            Seq::empty()
        },
        None => Seq::empty(),
    }
}

/// Whether a span is one of the workspace.
pub fn lookup_span_allowed_rows(
    request: &ExternLookupRequest,
    core: Option<&CoreLookupIndex>,
    store: &LookupStore,
) -> (r: Vec<Vec<ExternLookupValue>>)
    requires
        core_wf(core),
        store.wf(),
    ensures
        rows_view(r@) == span_allowed_answer(request@, core_view(core), store@),
{
    let signature: [ArgClass; 1] = [ArgClass::Span];
    assert(signature@ =~= seq![ArgClass::Span]);
    if !request_fits(request, &signature) {
        return no_rows();
    }
    let span = match bound_to_span(request, 0) {
        Some(span) => span,
        None => {
            return no_rows();
        },
    };
    if known_key(core, store, span).is_some() {
        let mut row: Vec<ExternLookupValue> = Vec::new();
        row.push(span_value(span));
        assert(row_view(row@) =~= seq![span_view(span@)]);
        one_row(row)
    } else {
        no_rows()
    }
}

/// The arguments of the span key predicate.
pub open spec fn span_key_signature() -> Seq<ArgClass> {
    seq![
        ArgClass::Span,
        ArgClass::Text,
        ArgClass::Number,
        ArgClass::Number,
        ArgClass::Number,
        ArgClass::Number,
    ]
}

/// No argument of a span key is kept out.
pub open spec fn key_allowed(request: Seq<BoundView>, key: SpanKeyView) -> bool {
    &&& text_allowed(bound_text(request, 1), key.rel_path)
    &&& number_allowed(bound_number(request, 2), key.start.0 as i64)
    &&& number_allowed(bound_number(request, 3), key.start.1 as i64)
    &&& number_allowed(bound_number(request, 4), key.end.0 as i64)
    &&& number_allowed(bound_number(request, 5), key.end.1 as i64)
}

/// The row of a span key.
pub open spec fn key_row(span: u64, key: SpanKeyView) -> Seq<LookupView> {
    seq![
        span_view(span),
        LookupView::Text(key.rel_path),
        LookupView::Number(key.start.0 as i64),
        LookupView::Number(key.start.1 as i64),
        LookupView::Number(key.end.0 as i64),
        LookupView::Number(key.end.1 as i64),
    ]
}

/// The answer to what a span's key is.
pub open spec fn span_key_answer(
    request: Seq<BoundView>,
    core: CoreView,
    store: StoreView,
) -> Seq<Seq<LookupView>> {
    match bound_span(request, 0) {
        Some(span) => if !fits(request, span_key_signature()) {
            Seq::empty()
        } else {
            match key_of_span(core, store, span) {
                Some(key) => if key_allowed(request, key) {
                    seq![key_row(span, key)]
                } else {
                    Seq::empty()
                },
                None => Seq::empty(),
            }
        },
        None => Seq::empty(),
    }
}

/// The store once a span's key has been asked for.
pub open spec fn after_span_key(
    request: Seq<BoundView>,
    core: CoreView,
    store: StoreView,
) -> StoreView {
    match bound_span(request, 0) {
        Some(span) => match key_of_span(core, store, span) {
            Some(key) => if fits(request, span_key_signature()) {
                store.with_new_span(span, key)
            } else {
                store
            },
            None => store,
        },
        None => store,
    }
}

/// What a span's key is.
pub fn lookup_span_key_rows(
    request: &ExternLookupRequest,
    core: Option<&CoreLookupIndex>,
    store: &mut LookupStore,
) -> (r: Vec<Vec<ExternLookupValue>>)
    requires
        core_wf(core),
        old(store).wf(),
    ensures
        final(store).wf(),
        rows_view(r@) == span_key_answer(request@, core_view(core), old(store)@),
        final(store)@ == after_span_key(request@, core_view(core), old(store)@),
{
    let signature: [ArgClass; 6] = [
        ArgClass::Span,
        ArgClass::Text,
        ArgClass::Number,
        ArgClass::Number,
        ArgClass::Number,
        ArgClass::Number,
    ];
    assert(signature@ =~= span_key_signature());
    if !request_fits(request, &signature) {
        return no_rows();
    }
    let span = match bound_to_span(request, 0) {
        Some(span) => span,
        None => {
            return no_rows();
        },
    };
    let key = match known_key(core, store, span) {
        Some(key) => key,
        None => {
            return no_rows();
        },
    };
    keep_span(store, span, &key);
    let l0: i64 = key.start().line() as i64;
    let c0: i64 = key.start().column() as i64;
    let l1: i64 = key.end().line() as i64;
    let c1: i64 = key.end().column() as i64;
    if !allows_text(bound_to_text(request, 1), key.rel_path()) || !allows_number(
        bound_to_number(request, 2),
        l0,
    ) || !allows_number(bound_to_number(request, 3), c0) || !allows_number(
        bound_to_number(request, 4),
        l1,
    ) || !allows_number(bound_to_number(request, 5), c1) {
        return no_rows();
    }
    let mut row: Vec<ExternLookupValue> = Vec::new();
    row.push(span_value(span));
    row.push(text_value(key.rel_path()));
    row.push(ExternLookupValue::Number(l0));
    row.push(ExternLookupValue::Number(c0));
    row.push(ExternLookupValue::Number(l1));
    row.push(ExternLookupValue::Number(c1));
    assert(row_view(row@) =~= key_row(span@, key@));
    one_row(row)
}

/// A file that can be read.
pub struct SourceText {
    pub file_id: EditionedFileId,
    pub text: String,
}

/// What a file that can be read says.
pub struct SourceTextView {
    pub file_id: EditionedFileId,
    pub text: Seq<char>,
}

impl View for SourceText {
    type V = SourceTextView;

    open spec fn view(&self) -> SourceTextView {
        SourceTextView { file_id: self.file_id, text: self.text@ }
    }
}

/// What the file says, if it can be read.
pub open spec fn opt_source(source: Option<&SourceText>) -> Option<SourceTextView> {
    match source {
        Some(source) => Some(source@),
        None => None,
    }
}

/// The closest node to a span whose key is known, in the given file,
/// and the store once it has been looked for.
pub open spec fn node_in_text(
    store: StoreView,
    key: SpanKeyView,
    source: Option<SourceTextView>,
) -> (StoreView, Option<u64>) {
    match source {
        Some(source) => match (
            offset_at(source.text, key.start),
            offset_at(source.text, key.end),
        ) {
            (Some(start), Some(end)) => {
                let file = FileView {
                    file_id: source.file_id.renewed(),
                    rel_path: key.rel_path,
                    source: source.text,
                };
                let tree = parsed_tree(source.text, SourceEdition::newest());
                match node_row_at(file, tree, start, end) {
                    Some(row) => with_all_lineage(store, file, tree, row),
                    None => (store, None),
                }
            },
            _ => (store, None),
        },
        None => (store, None),
    }
}

/// The closest node to a span, and the store once it has been looked for.
pub open spec fn node_for_span(
    core: CoreView,
    store: StoreView,
    span: u64,
    source: Option<SourceTextView>,
) -> (StoreView, Option<u64>) {
    match key_of_span(core, store, span) {
        Some(key) => node_in_text(store.with_new_span(span, key), key, source),
        None => (store, None),
    }
}

/// The source, if there is one, can be indexed.
pub open spec fn source_indexable(source: Option<&SourceText>) -> bool {
    match source {
        Some(source) => indexable(source.text@),
        None => true,
    }
}

/// Looks for the closest node to a span. `source` is the file that the span's key
/// names, if it can be read.
pub fn ensure_lookup_node_for_span(
    core: Option<&CoreLookupIndex>,
    store: &mut LookupStore,
    span: SpanId,
    source: Option<&SourceText>,
) -> (r: Option<NodeId>)
    requires
        core_wf(core),
        old(store).wf(),
        source_indexable(source),
    ensures
        final(store).wf(),
        (final(store)@, opt_node(r)) == node_for_span(
            core_view(core),
            old(store)@,
            span@,
            opt_source(source),
        ),
{
    let key = match known_key(core, store, span) {
        Some(key) => key,
        None => {
            return None;
        },
    };
    keep_span(store, span, &key);
    let source = match source {
        Some(source) => source,
        None => {
            return None;
        },
    };
    let text = source.text.as_str();
    match (offset_for_coord(text, key.start()), offset_for_coord(text, key.end())) {
        (Some(start), Some(end)) => {
            let local = LocalFile {
                file_id: source.file_id.in_current_edition(),
                rel_path: owned(key.rel_path()),
                text: owned(text),
            };
            let tree = parse_tree(text, SourceEdition::current());
            match closest_node(&local, &tree, start, end) {
                Some(row) => cache_lookup_node_lineage(store, &local, &tree, row),
                None => None,
            }
        },
        _ => None,
    }
}

/// The answer to which node stands at a span, once it has been looked for.
pub open spec fn node_at_answer(
    request: Seq<BoundView>,
    node: Option<u64>,
) -> Seq<Seq<LookupView>> {
    match bound_span(request, 0) {
        Some(span) => if fits(request, seq![ArgClass::Span, ArgClass::MaybeNode])
            && option_node_allowed(bound_option_node(request, 1), node) {
            seq![seq![span_view(span), option_node_view(node)]]
        } else {
            Seq::empty()
        },
        None => Seq::empty(),
    }
}

/// The node that a request's span asks for, and the store once it has been
/// looked for.
pub open spec fn asked_node(
    request: Seq<BoundView>,
    signature: Seq<ArgClass>,
    core: CoreView,
    store: StoreView,
    source: Option<SourceTextView>,
) -> (StoreView, Option<u64>) {
    match bound_span(request, 0) {
        Some(span) => if fits(request, signature) {
            node_for_span(core, store, span, source)
        } else {
            (store, None)
        },
        None => (store, None),
    }
}

/// Which node stands at a span. `text` is the text of the file that the span's
/// key names, if it can be read.
pub fn lookup_node_at_rows(
    request: &ExternLookupRequest,
    core: Option<&CoreLookupIndex>,
    store: &mut LookupStore,
    source: Option<&SourceText>,
) -> (r: Vec<Vec<ExternLookupValue>>)
    requires
        core_wf(core),
        old(store).wf(),
        source_indexable(source),
    ensures
        final(store).wf(),
        final(store)@ == asked_node(
            request@,
            seq![ArgClass::Span, ArgClass::MaybeNode],
            core_view(core),
            old(store)@,
            opt_source(source),
        ).0,
        rows_view(r@) == node_at_answer(
            request@,
            asked_node(
                request@,
                seq![ArgClass::Span, ArgClass::MaybeNode],
                core_view(core),
                old(store)@,
                opt_source(source),
            ).1,
        ),
{
    let signature: [ArgClass; 2] = [ArgClass::Span, ArgClass::MaybeNode];
    assert(signature@ =~= seq![ArgClass::Span, ArgClass::MaybeNode]);
    if !request_fits(request, &signature) {
        return no_rows();
    }
    let span = match bound_to_span(request, 0) {
        Some(span) => span,
        None => {
            return no_rows();
        },
    };
    let node = ensure_lookup_node_for_span(core, store, span, source);
    if !allows_option_node(request, 1, node) {
        return no_rows();
    }
    one_row(row2(span_value(span), option_node_lookup_value(node)))
}

/// The answer to what a node is.
pub open spec fn node_kind_answer(request: Seq<BoundView>, store: StoreView) -> Seq<
    Seq<LookupView>,
> {
    match bound_node(request, 0) {
        Some(node) => if fits(request, seq![ArgClass::Node, ArgClass::NodeKind])
            && store.nodes.contains_key(node) && node_kind_allowed(
            bound_node_kind(request, 1),
            shown_kind(store.nodes[node].kind),
        ) {
            seq![seq![node_view(node), node_kind_view(store.nodes[node].kind)]]
        } else {
            Seq::empty()
        },
        None => Seq::empty(),
    }
}

/// What a node is.
pub fn lookup_node_kind_rows(request: &ExternLookupRequest, store: &LookupStore) -> (r: Vec<
    Vec<ExternLookupValue>,
>)
    requires
        store.wf(),
    ensures
        rows_view(r@) == node_kind_answer(request@, store@),
{
    let signature: [ArgClass; 2] = [ArgClass::Node, ArgClass::NodeKind];
    assert(signature@ =~= seq![ArgClass::Node, ArgClass::NodeKind]);
    if !request_fits(request, &signature) {
        return no_rows();
    }
    let node = match bound_to_node(request, 0) {
        Some(node) => node,
        None => {
            return no_rows();
        },
    };
    match store.nodes.get(node.stable_id().as_u64()) {
        Some(record) => {
            let kind = public_node_kind(record.kind);
            if !allows_node_kind(request, 1, kind) {
                return no_rows();
            }
            one_row(row2(node_value(node), node_kind_lookup_value(record.kind)))
        },
        None => no_rows(),
    }
}

/// The answer to where a node stands.
pub open spec fn node_span_answer(request: Seq<BoundView>, store: StoreView) -> Seq<
    Seq<LookupView>,
> {
    match bound_node(request, 0) {
        Some(node) => if fits(request, seq![ArgClass::Node, ArgClass::Span])
            && store.nodes.contains_key(node) && id_allowed(
            bound_span(request, 1),
            store.nodes[node].span,
        ) {
            seq![seq![node_view(node), span_view(store.nodes[node].span)]]
        } else {
            Seq::empty()
        },
        None => Seq::empty(),
    }
}

/// Where a node stands.
pub fn lookup_node_span_rows(request: &ExternLookupRequest, store: &LookupStore) -> (r: Vec<
    Vec<ExternLookupValue>,
>)
    requires
        store.wf(),
    ensures
        rows_view(r@) == node_span_answer(request@, store@),
{
    let signature: [ArgClass; 2] = [ArgClass::Node, ArgClass::Span];
    assert(signature@ =~= seq![ArgClass::Node, ArgClass::Span]);
    if !request_fits(request, &signature) {
        return no_rows();
    }
    let node = match bound_to_node(request, 0) {
        Some(node) => node,
        None => {
            return no_rows();
        },
    };
    match store.nodes.get(node.stable_id().as_u64()) {
        Some(record) => {
            if !allows_span(bound_to_span(request, 1), record.span) {
                return no_rows();
            }
            one_row(row2(node_value(node), span_value(record.span)))
        },
        None => no_rows(),
    }
}

/// The answer to what a node's parent is.
pub open spec fn node_parent_answer(request: Seq<BoundView>, store: StoreView) -> Seq<
    Seq<LookupView>,
> {
    match bound_node(request, 0) {
        Some(node) => if fits(request, seq![ArgClass::Node, ArgClass::MaybeNode])
            && store.nodes.contains_key(node) && option_node_allowed(
            bound_option_node(request, 1),
            store.nodes[node].parent,
        ) {
            seq![seq![node_view(node), option_node_view(store.nodes[node].parent)]]
        } else {
            Seq::empty()
        },
        None => Seq::empty(),
    }
}

/// What a node's parent is.
pub fn lookup_node_parent_rows(request: &ExternLookupRequest, store: &LookupStore) -> (r: Vec<
    Vec<ExternLookupValue>,
>)
    requires
        store.wf(),
    ensures
        rows_view(r@) == node_parent_answer(request@, store@),
{
    let signature: [ArgClass; 2] = [ArgClass::Node, ArgClass::MaybeNode];
    assert(signature@ =~= seq![ArgClass::Node, ArgClass::MaybeNode]);
    if !request_fits(request, &signature) {
        return no_rows();
    }
    let node = match bound_to_node(request, 0) {
        Some(node) => node,
        None => {
            return no_rows();
        },
    };
    match store.nodes.get(node.stable_id().as_u64()) {
        Some(record) => {
            if !allows_option_node(request, 1, record.parent) {
                return no_rows();
            }
            one_row(row2(node_value(node), option_node_lookup_value(record.parent)))
        },
        None => no_rows(),
    }
}

/// The answer to what a node's stable key is.
pub open spec fn node_id_answer(request: Seq<BoundView>, store: StoreView) -> Seq<
    Seq<LookupView>,
> {
    match bound_node(request, 0) {
        Some(node) => if fits(request, seq![ArgClass::Node, ArgClass::Text])
            && store.nodes.contains_key(node) && text_allowed(
            bound_text(request, 1),
            "node_id:"@ + stable_id_text(node),
        ) {
            seq![seq![node_view(node), LookupView::Text("node_id:"@ + stable_id_text(node))]]
        } else {
            Seq::empty()
        },
        None => Seq::empty(),
    }
}

/// What a node's stable key is.
pub fn lookup_node_id_rows(request: &ExternLookupRequest, store: &LookupStore) -> (r: Vec<
    Vec<ExternLookupValue>,
>)
    requires
        store.wf(),
    ensures
        rows_view(r@) == node_id_answer(request@, store@),
{
    let signature: [ArgClass; 2] = [ArgClass::Node, ArgClass::Text];
    assert(signature@ =~= seq![ArgClass::Node, ArgClass::Text]);
    if !request_fits(request, &signature) {
        return no_rows();
    }
    let node = match bound_to_node(request, 0) {
        Some(node) => node,
        None => {
            return no_rows();
        },
    };
    if !store.nodes.contains(node.stable_id().as_u64()) {
        return no_rows();
    }
    let handle = cat2("node_id:", node.stable_id().to_text().as_str());
    if !allows_text(bound_to_text(request, 1), handle.as_str()) {
        return no_rows();
    }
    one_row(row2(node_value(node), text_value(handle.as_str())))
}

/// The first control construct from a node up its parents, at most `budget`
/// steps away; `walked` steps were made before.
pub open spec fn climb(
    nodes: Map<u64, NodeRecordView>,
    node: u64,
    walked: nat,
    budget: nat,
) -> Option<(NodeKind, u64, nat)>
    decreases budget,
{
    if !nodes.contains_key(node) {
        None
    } else if is_control(nodes[node].kind) {
        Some((nodes[node].kind, nodes[node].span, walked))
    } else if budget == 0 {
        None
    } else {
        match nodes[node].parent {
            Some(parent) => climb(nodes, parent, walked + 1, (budget - 1) as nat),
            None => None,
        }
    }
}

/// The arguments of the enclosing control predicate.
pub open spec fn control_signature() -> Seq<ArgClass> {
    seq![ArgClass::Span, ArgClass::NodeKind, ArgClass::Span, ArgClass::Number]
}

/// The answer to which control construct a span lies in, once its node is known.
pub open spec fn control_answer(
    request: Seq<BoundView>,
    found: Option<(NodeKind, u64, nat)>,
) -> Seq<Seq<LookupView>> {
    match (bound_span(request, 0), found) {
        (Some(span), Some((kind, place, distance))) => if fits(request, control_signature())
            && node_kind_allowed(bound_node_kind(request, 1), kind) && id_allowed(
            bound_span(request, 2),
            place,
        ) && number_allowed(bound_number(request, 3), distance as i64) {
            seq![
                seq![
                    span_view(span),
                    node_kind_view(kind),
                    span_view(place),
                    LookupView::Number(distance as i64),
                ],
            ]
        } else {
            Seq::empty()
        },
        _ => Seq::empty(),
    }
}

/// The control construct that a node lies in. A walk that has made more steps
/// than there are nodes has come back to where it was and finds nothing.
pub open spec fn control_of(
    nodes: Map<u64, NodeRecordView>,
    node: Option<u64>,
    count: nat,
) -> Option<(NodeKind, u64, nat)> {
    match node {
        Some(node) => climb(nodes, node, 0, count),
        None => None,
    }
}

/// Which control construct a span lies in. `text` is the text of the file that
/// the span's key names, if it can be read.
pub fn lookup_enclosing_control_rows(
    request: &ExternLookupRequest,
    core: Option<&CoreLookupIndex>,
    store: &mut LookupStore,
    source: Option<&SourceText>,
) -> (r: Vec<Vec<ExternLookupValue>>)
    requires
        core_wf(core),
        old(store).wf(),
        source_indexable(source),
    ensures
        final(store).wf(),
        final(store)@ == asked_node(
            request@,
            control_signature(),
            core_view(core),
            old(store)@,
            opt_source(source),
        ).0,
        rows_view(r@) == control_answer(
            request@,
            control_of(
                final(store)@.nodes,
                asked_node(
                    request@,
                    control_signature(),
                    core_view(core),
                    old(store)@,
                    opt_source(source),
                ).1,
                final(store).nodes.keys().len(),
            ),
        ),
{
    let signature: [ArgClass; 4] = [
        ArgClass::Span,
        ArgClass::NodeKind,
        ArgClass::Span,
        ArgClass::Number,
    ];
    assert(signature@ =~= control_signature());
    if !request_fits(request, &signature) {
        return no_rows();
    }
    let span = match bound_to_span(request, 0) {
        Some(span) => span,
        None => {
            return no_rows();
        },
    };
    let start = match ensure_lookup_node_for_span(core, store, span, source) {
        Some(node) => node,
        None => {
            return no_rows();
        },
    };
    let count = store.nodes.len();
    let ghost nodes = store@.nodes;
    let mut node = start;
    let mut walked: usize = 0;
    loop
        invariant
            store.wf(),
            nodes == store.nodes@,
            count == store.nodes.keys().len(),
            walked <= count,
            fits(request@, control_signature()),
            bound_span(request@, 0) == Some(span@),
            store@ == asked_node(
                request@,
                control_signature(),
                core_view(core),
                old(store)@,
                opt_source(source),
            ).0,
            asked_node(
                request@,
                control_signature(),
                core_view(core),
                old(store)@,
                opt_source(source),
            ).1 == Some(start@),
            climb(nodes, start@, 0, count as nat) == climb(
                nodes,
                node@,
                walked as nat,
                (count - walked) as nat,
            ),
        decreases count - walked,
    {
        let record = match store.nodes.get(node.stable_id().as_u64()) {
            Some(record) => *record,
            None => {
                return no_rows();
            },
        };
        if is_control_kind(record.kind) {
            let distance: i64 = walked as i64;
            if !allows_node_kind(request, 1, record.kind) || !allows_span(
                bound_to_span(request, 2),
                record.span,
            ) || !allows_number(bound_to_number(request, 3), distance) {
                return no_rows();
            }
            let mut row: Vec<ExternLookupValue> = Vec::new();
            row.push(span_value(span));
            row.push(node_kind_lookup_value(record.kind));
            row.push(span_value(record.span));
            row.push(ExternLookupValue::Number(distance));
            assert(row_view(row@) =~= seq![
                span_view(span@),
                node_kind_view(record.kind),
                span_view(record.span@),
                LookupView::Number(distance),
            ]);
            return one_row(row);
        }
        if walked == count {
            return no_rows();
        }
        match record.parent {
            Some(parent) => {
                node = parent;
                walked += 1;
            },
            None => {
                return no_rows();
            },
        }
    }
}

} // verus!
