//! Looking up facts of definitions with some arguments bound.

use crate::host::{DefId, SpanId, SpanKey};
use crate::ra::core_index::{CoreLookupIndex, CoreView};
use crate::ra::host::opt_def;
use crate::ra::kinds::{def_kind_from_variant, DefKind, NodeKind};
use crate::ra::lookup_store::{LookupDefView, LookupStore, StoreView};
use crate::ra::rows::{same_def, same_span};
use crate::ra::values::{
    as_def, as_node, as_option_node, as_span, as_variant, def_kind_lookup_value, def_kind_view,
    def_value, def_view, row_view, rows_view, span_value, span_view, text_value, BoundView,
    ExternLookupRequest, ExternLookupValue, LookupView,
};
use crate::text::{cat2, owned, str_eq};
use vstd::prelude::*;

verus! {

/// What an argument of a predicate may be.
#[derive(Debug, Clone, Copy, PartialEq, Eq, Structural)]
pub enum ArgClass {
    Def,
    Span,
    Node,
    MaybeNode,
    Text,
    Number,
    DefKind,
    NodeKind,
}

impl ArgClass {
    /// The value may be such an argument.
    pub open spec fn holds(self, value: LookupView) -> bool {
        match self {
            ArgClass::Def => as_def(value) is Some,
            ArgClass::Span => as_span(value) is Some,
            ArgClass::Node => as_node(value) is Some,
            ArgClass::MaybeNode => as_option_node(value) is Some,
            ArgClass::Text => value is Text,
            ArgClass::Number => value is Number,
            ArgClass::DefKind => as_variant(value, "DefKind"@) is Some,
            ArgClass::NodeKind => as_variant(value, "NodeKind"@) is Some,
        }
    }

    /// Whether the value may be such an argument.
    pub fn admits(self, value: &ExternLookupValue) -> (r: bool)
        ensures
            r == self.holds(value@),
    {
        match self {
            ArgClass::Def => value.to_def().is_some(),
            ArgClass::Span => value.to_span().is_some(),
            ArgClass::Node => value.to_node().is_some(),
            ArgClass::MaybeNode => value.to_option_node().is_some(),
            ArgClass::Text => matches!(value, ExternLookupValue::Text(_)),
            ArgClass::Number => matches!(value, ExternLookupValue::Number(_)),
            ArgClass::DefKind => value.to_variant("DefKind").is_some(),
            ArgClass::NodeKind => value.to_variant("NodeKind").is_some(),
        }
    }
}

/// Each bound argument is one that the predicate has, with a value it may have.
pub open spec fn fits(request: Seq<BoundView>, signature: Seq<ArgClass>) -> bool {
    forall|i: int|
        0 <= i < request.len() ==> 0 <= (#[trigger] request[i]).position < signature.len()
            && signature[request[i].position].holds(request[i].value)
}

/// The value that an argument is bound to, the last one where there are more.
pub open spec fn bound(request: Seq<BoundView>, position: int) -> Option<LookupView>
    decreases request.len(),
{
    if request.len() == 0 {
        None
    } else if request.last().position == position {
        Some(request.last().value)
    } else {
        bound(request.drop_last(), position)
    }
}

/// The bound value is one of the request's.
pub(crate) proof fn lemma_bound(request: Seq<BoundView>, position: int, signature: Seq<ArgClass>)
    requires
        fits(request, signature),
        0 <= position < signature.len(),
    ensures
        match bound(request, position) {
            Some(value) => signature[position].holds(value),
            None => true,
        },
    decreases request.len(),
{
    if request.len() > 0 {
        assert(request.last() == request[request.len() - 1]);
        let rest = request.drop_last();
        assert forall|i: int| 0 <= i < rest.len() implies 0 <= (#[trigger] rest[i]).position
            < signature.len() && signature[rest[i].position].holds(rest[i].value) by {
            assert(rest[i] == request[i]);
        }
        lemma_bound(rest, position, signature);
    }
}

/// Whether each bound argument is one that the predicate has, with a value it
/// may have.
pub fn request_fits(request: &ExternLookupRequest, signature: &[ArgClass]) -> (r: bool)
    ensures
        r == fits(request@, signature@),
        r ==> forall|position: int|
            0 <= position < signature@.len() ==> match #[trigger] bound(request@, position) {
                Some(value) => signature@[position].holds(value),
                None => true,
            },
{
    let mut i: usize = 0;
    while i < request.len()
        invariant
            i <= request@.len(),
            forall|k: int|
                0 <= k < i ==> 0 <= (#[trigger] request@[k]).position < signature@.len()
                    && signature@[request@[k].position].holds(request@[k].value),
        decreases request@.len() - i,
    {
        let position = request.position(i);
        if position >= signature.len() {
            return false;
        }
        if !signature[position].admits(request.value(i)) {
            return false;
        }
        i += 1;
    }
    proof {
        assert forall|position: int| 0 <= position < signature@.len() implies match #[trigger] bound(
            request@,
            position,
        ) {
            Some(value) => signature@[position].holds(value),
            None => true,
        } by {
            lemma_bound(request@, position, signature@);
        }
    }
    true
}

/// The value that an argument is bound to.
pub fn bound_value(request: &ExternLookupRequest, position: usize) -> (r: Option<
    &ExternLookupValue,
>)
    ensures
        match r {
            Some(value) => bound(request@, position as int) == Some(value@),
            None => bound(request@, position as int) is None,
        },
{
    let mut i: usize = request.len();
    assert(request@.take(i as int) =~= request@);
    while i > 0
        invariant
            i <= request@.len(),
            bound(request@, position as int) == bound(request@.take(i as int), position as int),
        decreases i,
    {
        proof {
            assert(request@.take(i as int).last() == request@[i - 1]);
            assert(request@.take(i as int).drop_last() =~= request@.take(i - 1));
        }
        if request.position(i - 1) == position {
            return Some(request.value(i - 1));
        }
        i -= 1;
    }
    None
}

/// The definition that an argument is bound to.
pub open spec fn bound_def(request: Seq<BoundView>, position: int) -> Option<u64> {
    match bound(request, position) {
        Some(value) => as_def(value),
        None => None,
    }
}

/// The span that an argument is bound to.
pub open spec fn bound_span(request: Seq<BoundView>, position: int) -> Option<u64> {
    match bound(request, position) {
        Some(value) => as_span(value),
        None => None,
    }
}

/// The text that an argument is bound to.
pub open spec fn bound_text(request: Seq<BoundView>, position: int) -> Option<Seq<char>> {
    match bound(request, position) {
        Some(LookupView::Text(text)) => Some(text),
        _ => None,
    }
}

/// The number that an argument is bound to.
pub open spec fn bound_number(request: Seq<BoundView>, position: int) -> Option<i64> {
    match bound(request, position) {
        Some(LookupView::Number(number)) => Some(number),
        _ => None,
    }
}

/// The definition kind that an argument is bound to; nothing where its variant
/// names none.
pub open spec fn bound_def_kind(request: Seq<BoundView>, position: int) -> Option<Seq<char>> {
    match bound(request, position) {
        Some(value) => as_variant(value, "DefKind"@),
        None => None,
    }
}

pub fn bound_to_def(request: &ExternLookupRequest, position: usize) -> (r: Option<DefId>)
    ensures
        opt_def(r) == bound_def(request@, position as int),
{
    match bound_value(request, position) {
        Some(value) => value.to_def(),
        None => None,
    }
}

/// The raw id of a span, if there is one.
pub open spec fn opt_span(span: Option<SpanId>) -> Option<u64> {
    match span {
        Some(span) => Some(span@),
        None => None,
    }
}

pub fn bound_to_span(request: &ExternLookupRequest, position: usize) -> (r: Option<SpanId>)
    ensures
        opt_span(r) == bound_span(request@, position as int),
{
    match bound_value(request, position) {
        Some(value) => value.to_span(),
        None => None,
    }
}

pub fn bound_to_text(request: &ExternLookupRequest, position: usize) -> (r: Option<&str>)
    ensures
        match r {
            Some(text) => bound_text(request@, position as int) == Some(text@),
            None => bound_text(request@, position as int) is None,
        },
{
    match bound_value(request, position) {
        Some(ExternLookupValue::Text(text)) => Some(text.as_str()),
        _ => None,
    }
}

pub fn bound_to_number(request: &ExternLookupRequest, position: usize) -> (r: Option<i64>)
    ensures
        r == bound_number(request@, position as int),
{
    match bound_value(request, position) {
        Some(ExternLookupValue::Number(number)) => Some(*number),
        _ => None,
    }
}

/// A text is not kept out by what its argument is bound to.
pub open spec fn text_allowed(filter: Option<Seq<char>>, text: Seq<char>) -> bool {
    match filter {
        Some(wanted) => wanted == text,
        None => true,
    }
}

/// A number is not kept out by what its argument is bound to.
pub open spec fn number_allowed(filter: Option<i64>, number: i64) -> bool {
    match filter {
        Some(wanted) => wanted == number,
        None => true,
    }
}

/// An id is not kept out by what its argument is bound to.
pub open spec fn id_allowed(filter: Option<u64>, id: u64) -> bool {
    match filter {
        Some(wanted) => wanted == id,
        None => true,
    }
}

/// A definition kind is not kept out by the label its argument is bound to: a
/// label that names no kind keeps none out.
pub open spec fn def_kind_allowed(filter: Option<Seq<char>>, kind: DefKind) -> bool {
    match filter {
        Some(label) => label == kind.label() || forall|other: DefKind|
            label != #[trigger] other.label(),
        None => true,
    }
}

pub fn allows_text(filter: Option<&str>, text: &str) -> (r: bool)
    ensures
        r == text_allowed(crate::ra::core_index::opt_str(filter), text@),
{
    match filter {
        Some(wanted) => str_eq(wanted, text),
        None => true,
    }
}

pub fn allows_number(filter: Option<i64>, number: i64) -> (r: bool)
    ensures
        r == number_allowed(filter, number),
{
    match filter {
        Some(wanted) => wanted == number,
        None => true,
    }
}

pub fn allows_def(filter: Option<DefId>, def: DefId) -> (r: bool)
    ensures
        r == id_allowed(opt_def(filter), def@),
{
    match filter {
        Some(wanted) => same_def(wanted, def),
        None => true,
    }
}

pub fn allows_span(filter: Option<SpanId>, span: SpanId) -> (r: bool)
    ensures
        r == id_allowed(opt_span(filter), span@),
{
    match filter {
        Some(wanted) => same_span(wanted, span),
        None => true,
    }
}

/// Whether a definition kind is not kept out by the label its argument is bound
/// to.
fn allows_def_kind(request: &ExternLookupRequest, position: usize, kind: DefKind) -> (r: bool)
    ensures
        r == def_kind_allowed(bound_def_kind(request@, position as int), kind),
{
    match bound_value(request, position) {
        Some(value) => match value.to_variant("DefKind") {
            Some(label) => match def_kind_from_variant(label) {
                Some(wanted) => {
                    proof {
                        crate::ra::kinds::law_def_kind_labels_are_distinct(wanted, kind);
                        assert(label@ == wanted.label());
                    }
                    wanted == kind
                },
                None => true,
            },
            None => true,
        },
        None => true,
    }
}

/// The index that may be there.
pub open spec fn core_view(core: Option<&CoreLookupIndex>) -> CoreView {
    match core {
        Some(core) => core@,
        None => CoreView {
            defs: Map::empty(),
            functions: Map::empty(),
            def_spans: Map::empty(),
            spans: Map::empty(),
        },
    }
}

/// The index, if there is one, is in order.
pub open spec fn core_wf(core: Option<&CoreLookupIndex>) -> bool {
    match core {
        Some(core) => core.wf(),
        None => true,
    }
}

/// The ids of the index that may be there.
pub open spec fn core_ids(core: Option<&CoreLookupIndex>) -> Seq<u64> {
    match core {
        Some(core) => core.ids(),
        None => Seq::empty(),
    }
}

/// No rows.
pub fn no_rows() -> (r: Vec<Vec<ExternLookupValue>>)
    ensures
        rows_view(r@) == Seq::<Seq<LookupView>>::empty(),
{
    let rows: Vec<Vec<ExternLookupValue>> = Vec::new();
    assert(rows_view(rows@) =~= Seq::<Seq<LookupView>>::empty());
    rows
}

/// The one row.
pub fn one_row(row: Vec<ExternLookupValue>) -> (r: Vec<Vec<ExternLookupValue>>)
    ensures
        rows_view(r@) == seq![row_view(row@)],
{
    let ghost shown = row_view(row@);
    let mut rows: Vec<Vec<ExternLookupValue>> = Vec::new();
    rows.push(row);
    assert(rows_view(rows@) =~= seq![shown]);
    rows
}

/// A row of one value.
fn row1(a: ExternLookupValue) -> (r: Vec<ExternLookupValue>)
    ensures
        row_view(r@) == seq![a@],
{
    let ghost shown = seq![a@];
    let mut row: Vec<ExternLookupValue> = Vec::new();
    row.push(a);
    assert(row_view(row@) =~= shown);
    row
}

/// A row of two values.
pub fn row2(a: ExternLookupValue, b: ExternLookupValue) -> (r: Vec<ExternLookupValue>)
    ensures
        row_view(r@) == seq![a@, b@],
{
    let ghost shown = seq![a@, b@];
    let mut row: Vec<ExternLookupValue> = Vec::new();
    row.push(a);
    row.push(b);
    assert(row_view(row@) =~= shown);
    row
}

/// The rows for definitions.
pub open spec fn def_rows(defs: Seq<u64>) -> Seq<Seq<LookupView>> {
    Seq::new(defs.len(), |i: int| seq![def_view(defs[i])])
}

/// The ids that the index does not have.
pub open spec fn beyond(ids: Seq<u64>, core: CoreView) -> Seq<u64>
    decreases ids.len(),
{
    if ids.len() == 0 {
        Seq::empty()
    } else if core.defs.contains_key(ids.last()) {
        beyond(ids.drop_last(), core)
    } else {
        beyond(ids.drop_last(), core).push(ids.last())
    }
}

/// The answer to which definitions there are.
pub open spec fn def_answer(
    request: Seq<BoundView>,
    core: CoreView,
    core_ids: Seq<u64>,
    store: StoreView,
    store_ids: Seq<u64>,
) -> Seq<Seq<LookupView>> {
    if !fits(request, seq![ArgClass::Def]) {
        Seq::empty()
    } else {
        match bound_def(request, 0) {
            Some(def) => if store.defs.contains_key(def) || core.defs.contains_key(def) {
                seq![seq![def_view(def)]]
            } else {
                Seq::empty()
            },
            None => def_rows(core_ids + beyond(store_ids, core)),
        }
    }
}

/// Whether the index that may be there knows a definition.
fn core_knows(core: Option<&CoreLookupIndex>, def: DefId) -> (r: bool)
    requires
        core_wf(core),
    ensures
        r == core_view(core).defs.contains_key(def@),
{
    match core {
        Some(core) => core.contains_def(def),
        None => false,
    }
}

/// One row more.
proof fn lemma_def_rows_push(rows: Seq<Vec<ExternLookupValue>>, row: Vec<ExternLookupValue>, ids: Seq<
    u64,
>, def: u64)
    requires
        rows_view(rows) == def_rows(ids),
        row_view(row@) == seq![def_view(def)],
    ensures
        rows_view(rows.push(row)) == def_rows(ids.push(def)),
{
    assert(rows_view(rows.push(row)) =~= rows_view(rows).push(row_view(row@)));
    assert(def_rows(ids.push(def)) =~= def_rows(ids).push(seq![def_view(def)]));
}

/// Which definitions there are: those of the index, then those that were looked
/// up.
pub fn lookup_def_rows(
    request: &ExternLookupRequest,
    core: Option<&CoreLookupIndex>,
    store: &LookupStore,
) -> (r: Vec<Vec<ExternLookupValue>>)
    requires
        core_wf(core),
        store.wf(),
    ensures
        rows_view(r@) == def_answer(
            request@,
            core_view(core),
            core_ids(core),
            store@,
            store.defs.keys(),
        ),
{
    let signature: [ArgClass; 1] = [ArgClass::Def];
    assert(signature@ =~= seq![ArgClass::Def]);
    if !request_fits(request, &signature) {
        return no_rows();
    }
    match bound_to_def(request, 0) {
        Some(def) => {
            if store.defs.contains(def.stable_id().as_u64()) || core_knows(core, def) {
                one_row(row1(def_value(def)))
            } else {
                no_rows()
            }
        },
        None => {
            let mut rows = no_rows();
            let ghost first = core_ids(core);
            let ghost second = store.defs.keys();
            assert(def_rows(first.take(0)) =~= Seq::<Seq<LookupView>>::empty());
            match core {
                Some(index) => {
                    let mut i: usize = 0;
                    while i < index.len()
                        invariant
                            index.wf(),
                            first == index.ids(),
                            i <= first.len(),
                            rows_view(rows@) == def_rows(first.take(i as int)),
                        decreases first.len() - i,
                    {
                        let def = index.def_id_at(i);
                        let row = row1(def_value(def));
                        proof {
                            lemma_def_rows_push(rows@, row, first.take(i as int), def@);
                            assert(first.take(i + 1) =~= first.take(i as int).push(def@));
                        }
                        rows.push(row);
                        i += 1;
                    }
                    assert(first.take(i as int) =~= first);
                },
                None => {
                    assert(first =~= first.take(0));
                },
            }
            assert(first + beyond(second.take(0), core_view(core)) =~= first);
            let mut j: usize = 0;
            while j < store.defs.len()
                invariant
                    store.wf(),
                    core_wf(core),
                    second == store.defs.keys(),
                    j <= second.len(),
                    rows_view(rows@) == def_rows(
                        first + beyond(second.take(j as int), core_view(core)),
                    ),
                decreases second.len() - j,
            {
                let key = store.defs.key_at(j);
                let def = DefId::new(crate::ir::StableId::new(key));
                let ghost held = first + beyond(second.take(j as int), core_view(core));
                proof {
                    let longer = second.take(j + 1);
                    assert(longer.drop_last() =~= second.take(j as int));
                    assert(longer.last() == key);
                    assert(first + beyond(second.take(j as int), core_view(core)).push(key)
                        =~= held.push(key));
                }
                if !core_knows(core, def) {
                    let row = row1(def_value(def));
                    proof {
                        lemma_def_rows_push(rows@, row, held, def@);
                    }
                    rows.push(row);
                }
                j += 1;
            }
            assert(second.take(j as int) =~= second);
            rows
        },
    }
}

/// The answer to what a definition is.
pub open spec fn def_kind_answer(
    request: Seq<BoundView>,
    core: CoreView,
    store: StoreView,
) -> Seq<Seq<LookupView>> {
    match bound_def(request, 0) {
        Some(def) => if !fits(request, seq![ArgClass::Def, ArgClass::DefKind]) {
            Seq::empty()
        } else if store.defs.contains_key(def) {
            def_kind_row(request, def, store.defs[def].kind)
        } else if core.defs.contains_key(def) {
            def_kind_row(request, def, core.defs[def].kind)
        } else {
            Seq::empty()
        },
        None => Seq::empty(),
    }
}

/// The row that says what a definition is, unless it is kept out.
pub open spec fn def_kind_row(
    request: Seq<BoundView>,
    def: u64,
    kind: DefKind,
) -> Seq<Seq<LookupView>> {
    if def_kind_allowed(bound_def_kind(request, 1), kind) {
        seq![seq![def_view(def), def_kind_view(kind)]]
    } else {
        Seq::empty()
    }
}

/// What a definition is.
pub fn lookup_def_kind_rows(
    request: &ExternLookupRequest,
    core: Option<&CoreLookupIndex>,
    store: &LookupStore,
) -> (r: Vec<Vec<ExternLookupValue>>)
    requires
        core_wf(core),
        store.wf(),
    ensures
        rows_view(r@) == def_kind_answer(request@, core_view(core), store@),
{
    let signature: [ArgClass; 2] = [ArgClass::Def, ArgClass::DefKind];
    assert(signature@ =~= seq![ArgClass::Def, ArgClass::DefKind]);
    if !request_fits(request, &signature) {
        return no_rows();
    }
    let def = match bound_to_def(request, 0) {
        Some(def) => def,
        None => {
            return no_rows();
        },
    };
    let kind = match store.defs.get(def.stable_id().as_u64()) {
        Some(record) => record.kind,
        None => match core {
            Some(index) => match index.def_kind(def) {
                Some(kind) => kind,
                None => {
                    return no_rows();
                },
            },
            None => {
                return no_rows();
            },
        },
    };
    if !allows_def_kind(request, 1, kind) {
        return no_rows();
    }
    one_row(row2(def_value(def), def_kind_lookup_value(kind)))
}

/// The span of a definition.
pub open spec fn span_of_def(core: CoreView, store: StoreView, def: u64) -> Option<u64> {
    if store.defs.contains_key(def) {
        Some(store.defs[def].span)
    } else if core.def_spans.contains_key(def) {
        Some(core.def_spans[def])
    } else {
        None
    }
}

/// The answer to where a definition stands.
pub open spec fn def_span_answer(
    request: Seq<BoundView>,
    core: CoreView,
    store: StoreView,
) -> Seq<Seq<LookupView>> {
    match bound_def(request, 0) {
        Some(def) => if !fits(request, seq![ArgClass::Def, ArgClass::Span]) {
            Seq::empty()
        } else {
            match span_of_def(core, store, def) {
                Some(span) => if id_allowed(bound_span(request, 1), span) {
                    seq![seq![def_view(def), span_view(span)]]
                } else {
                    Seq::empty()
                },
                None => Seq::empty(),
            }
        },
        None => Seq::empty(),
    }
}

/// The store once a definition's place has been asked for.
pub open spec fn after_def_span(
    request: Seq<BoundView>,
    core: CoreView,
    store: StoreView,
) -> StoreView {
    match bound_def(request, 0) {
        Some(def) => if fits(request, seq![ArgClass::Def, ArgClass::Span])
            && !store.defs.contains_key(def) && core.def_spans.contains_key(def)
            && core.spans.contains_key(core.def_spans[def]) {
            store.with_new_span(core.def_spans[def], core.spans[core.def_spans[def]])
        } else {
            store
        },
        None => store,
    }
}

/// Keeps the key of a span, unless the store has one.
pub fn keep_span(store: &mut LookupStore, span: SpanId, key: &SpanKey)
    requires
        old(store).wf(),
    ensures
        final(store).wf(),
        final(store)@ == old(store)@.with_new_span(span@, key@),
{
    let raw = span.stable_id().as_u64();
    if !store.spans.contains(raw) {
        store.spans.insert(raw, SpanKey::new(key.rel_path(), key.start(), key.end()));
    }
}

/// Where a definition stands.
pub fn lookup_def_span_rows(
    request: &ExternLookupRequest,
    core: Option<&CoreLookupIndex>,
    store: &mut LookupStore,
) -> (r: Vec<Vec<ExternLookupValue>>)
    requires
        core_wf(core),
        old(store).wf(),
    ensures
        final(store).wf(),
        rows_view(r@) == def_span_answer(request@, core_view(core), old(store)@),
        final(store)@ == after_def_span(request@, core_view(core), old(store)@),
{
    let signature: [ArgClass; 2] = [ArgClass::Def, ArgClass::Span];
    assert(signature@ =~= seq![ArgClass::Def, ArgClass::Span]);
    if !request_fits(request, &signature) {
        return no_rows();
    }
    let def = match bound_to_def(request, 0) {
        Some(def) => def,
        None => {
            return no_rows();
        },
    };
    let held = match store.defs.get(def.stable_id().as_u64()) {
        Some(record) => Some(record.span),
        None => None,
    };
    let span = match held {
        Some(span) => span,
        None => match core {
            Some(index) => match index.def_span(def) {
                Some(span) => {
                    match index.span_key(span) {
                        Some(key) => {
                            keep_span(store, span, key);
                        },
                        None => {},
                    }
                    span
                },
                None => {
                    return no_rows();
                },
            },
            None => {
                return no_rows();
            },
        },
    };
    if !allows_span(bound_to_span(request, 1), span) {
        return no_rows();
    }
    one_row(row2(def_value(def), span_value(span)))
}

/// The handle of a definition.
pub open spec fn handle_of_def(core: CoreView, store: StoreView, def: u64) -> Option<Seq<char>> {
    if store.defs.contains_key(def) {
        match store.defs[def].path {
            Some(path) => Some("def://"@ + path),
            None => None,
        }
    } else if core.defs.contains_key(def) {
        Some("def://"@ + core.defs[def].path)
    } else {
        None
    }
}

/// The answer to what a definition's handle is.
pub open spec fn def_handle_answer(
    request: Seq<BoundView>,
    core: CoreView,
    store: StoreView,
) -> Seq<Seq<LookupView>> {
    match bound_def(request, 0) {
        Some(def) => if !fits(request, seq![ArgClass::Def, ArgClass::Text]) {
            Seq::empty()
        } else {
            match handle_of_def(core, store, def) {
                Some(handle) => if text_allowed(bound_text(request, 1), handle) {
                    seq![seq![def_view(def), LookupView::Text(handle)]]
                } else {
                    Seq::empty()
                },
                None => Seq::empty(),
            }
        },
        None => Seq::empty(),
    }
}

/// What a definition's handle is.
pub fn lookup_def_handle_rows(
    request: &ExternLookupRequest,
    core: Option<&CoreLookupIndex>,
    store: &LookupStore,
) -> (r: Vec<Vec<ExternLookupValue>>)
    requires
        core_wf(core),
        store.wf(),
    ensures
        rows_view(r@) == def_handle_answer(request@, core_view(core), store@),
{
    let signature: [ArgClass; 2] = [ArgClass::Def, ArgClass::Text];
    assert(signature@ =~= seq![ArgClass::Def, ArgClass::Text]);
    if !request_fits(request, &signature) {
        return no_rows();
    }
    let def = match bound_to_def(request, 0) {
        Some(def) => def,
        None => {
            return no_rows();
        },
    };
    let handle = match store.defs.get(def.stable_id().as_u64()) {
        Some(record) => match &record.path {
            Some(path) => cat2("def://", path.as_str()),
            None => {
                return no_rows();
            },
        },
        None => match core {
            Some(index) => match index.def_path(def) {
                Some(path) => cat2("def://", path),
                None => {
                    return no_rows();
                },
            },
            None => {
                return no_rows();
            },
        },
    };
    if !allows_text(bound_to_text(request, 1), handle.as_str()) {
        return no_rows();
    }
    one_row(row2(def_value(def), text_value(handle.as_str())))
}

/// The path of a definition: what was looked up, else the path of its entity,
/// else what the index says.
pub open spec fn path_of_def(
    core: CoreView,
    store: StoreView,
    def: u64,
    entity_path: Option<Seq<char>>,
) -> Option<Seq<char>> {
    let indexed = if core.defs.contains_key(def) {
        Some(core.defs[def].path)
    } else {
        None
    };
    if store.defs.contains_key(def) {
        match looked_up_path(store.defs[def], entity_path) {
            Some(path) => Some(path),
            None => indexed,
        }
    } else {
        indexed
    }
}

/// The path of a looked up definition: the one it has, else that of its entity.
pub open spec fn looked_up_path(
    record: LookupDefView,
    entity_path: Option<Seq<char>>,
) -> Option<Seq<char>> {
    match record.path {
        Some(path) => Some(path),
        None => if record.entity is Some {
            entity_path
        } else {
            None
        },
    }
}

/// The answer to what a definition's path is; nothing where the lookup cannot
/// tell.
pub open spec fn def_path_answer(
    request: Seq<BoundView>,
    core: CoreView,
    store: StoreView,
    entity_path: Option<Seq<char>>,
) -> Option<Seq<Seq<LookupView>>> {
    match bound_def(request, 0) {
        Some(def) => if !fits(request, seq![ArgClass::Def, ArgClass::Text]) {
            None
        } else {
            match path_of_def(core, store, def, entity_path) {
                Some(path) => if text_allowed(bound_text(request, 1), path) {
                    Some(seq![seq![def_view(def), LookupView::Text(path)]])
                } else {
                    Some(Seq::empty())
                },
                None => None,
            }
        },
        None => None,
    }
}

/// The store once a definition's path has been asked for.
pub open spec fn after_def_path(
    request: Seq<BoundView>,
    store: StoreView,
    entity_path: Option<Seq<char>>,
) -> StoreView {
    match bound_def(request, 0) {
        Some(def) => if fits(request, seq![ArgClass::Def, ArgClass::Text])
            && store.defs.contains_key(def) {
            StoreView {
                defs: store.defs.insert(
                    def,
                    LookupDefView {
                        path: looked_up_path(store.defs[def], entity_path),
                        ..store.defs[def]
                    },
                ),
                ..store
            }
        } else {
            store
        },
        None => store,
    }
}

/// What optional rows say.
pub open spec fn opt_rows(rows: Option<Vec<Vec<ExternLookupValue>>>) -> Option<
    Seq<Seq<LookupView>>,
> {
    match rows {
        Some(rows) => Some(rows_view(rows@)),
        None => None,
    }
}

/// What a definition's path is. `entity_path` is the canonical path of the
/// entity that was looked up for the definition, where it has one.
pub fn lookup_def_path_rows(
    request: &ExternLookupRequest,
    core: Option<&CoreLookupIndex>,
    store: &mut LookupStore,
    entity_path: Option<&str>,
) -> (r: Option<Vec<Vec<ExternLookupValue>>>)
    requires
        core_wf(core),
        old(store).wf(),
    ensures
        final(store).wf(),
        opt_rows(r) == def_path_answer(
            request@,
            core_view(core),
            old(store)@,
            crate::ra::core_index::opt_str(entity_path),
        ),
        final(store)@ == after_def_path(
            request@,
            old(store)@,
            crate::ra::core_index::opt_str(entity_path),
        ),
{
    let signature: [ArgClass; 2] = [ArgClass::Def, ArgClass::Text];
    assert(signature@ =~= seq![ArgClass::Def, ArgClass::Text]);
    if !request_fits(request, &signature) {
        return None;
    }
    let def = match bound_to_def(request, 0) {
        Some(def) => def,
        None => {
            return None;
        },
    };
    let raw = def.stable_id().as_u64();
    let ghost before = store@;
    let held = match store.defs.get(raw) {
        Some(record) => Some(record.copy()),
        None => None,
    };
    let looked_up = match held {
        Some(record) => {
            let mut record = record;
            if record.path.is_none() && record.entity.is_some() {
                record.path = match entity_path {
                    Some(path) => Some(owned(path)),
                    None => None,
                };
            }
            let found = match &record.path {
                Some(path) => Some(owned(path.as_str())),
                None => None,
            };
            store.defs.insert(raw, record);
            found
        },
        None => None,
    };
    assert(store@.defs =~= after_def_path(
        request@,
        before,
        crate::ra::core_index::opt_str(entity_path),
    ).defs);
    let path = match looked_up {
        Some(path) => path,
        None => match core {
            Some(index) => match index.def_path(def) {
                Some(path) => owned(path),
                None => {
                    return None;
                },
            },
            None => {
                return None;
            },
        },
    };
    if !allows_text(bound_to_text(request, 1), path.as_str()) {
        return Some(no_rows());
    }
    Some(one_row(row2(def_value(def), text_value(path.as_str()))))
}

/// A flag that definitions have.
#[derive(Debug, Clone, Copy, PartialEq, Eq, Structural)]
pub enum DefFlag {
    Public,
    InTest,
}

/// The flag of a definition, where it is known.
pub open spec fn flag_of(core: CoreView, flag: DefFlag, def: u64) -> Option<bool> {
    if core.defs.contains_key(def) {
        match flag {
            DefFlag::Public => core.defs[def].is_public,
            DefFlag::InTest => core.defs[def].in_test,
        }
    } else {
        None
    }
}

/// The definitions that have the flag.
pub open spec fn flagged(core: CoreView, ids: Seq<u64>, flag: DefFlag) -> Seq<u64>
    decreases ids.len(),
{
    if ids.len() == 0 {
        Seq::empty()
    } else if flag_of(core, flag, ids.last()) == Some(true) {
        flagged(core, ids.drop_last(), flag).push(ids.last())
    } else {
        flagged(core, ids.drop_last(), flag)
    }
}

/// The answer to which definitions have a flag; nothing where the lookup cannot
/// tell.
pub open spec fn def_flag_answer(
    request: Seq<BoundView>,
    core: Option<CoreView>,
    ids: Seq<u64>,
    flag: Option<DefFlag>,
) -> Option<Seq<Seq<LookupView>>> {
    if !fits(request, seq![ArgClass::Def]) {
        None
    } else {
        match (bound_def(request, 0), core) {
            (Some(def), Some(core)) => match flag {
                Some(flag) => match flag_of(core, flag, def) {
                    Some(true) => Some(seq![seq![def_view(def)]]),
                    Some(false) => Some(Seq::empty()),
                    None => None,
                },
                None => None,
            },
            (None, Some(core)) => match flag {
                Some(flag) => Some(def_rows(flagged(core, ids, flag))),
                None => Some(Seq::empty()),
            },
            (_, None) => None,
        }
    }
}

/// The flag that a predicate asks for.
pub open spec fn flag_named(predicate: Seq<char>) -> Option<DefFlag> {
    if predicate == "is_public"@ {
        Some(DefFlag::Public)
    } else if predicate == "in_test"@ {
        Some(DefFlag::InTest)
    } else {
        None
    }
}

/// The flag of a definition, where it is known.
fn core_flag(core: &CoreLookupIndex, flag: DefFlag, def: DefId) -> (r: Option<bool>)
    requires
        core.wf(),
    ensures
        r == flag_of(core@, flag, def@),
{
    match flag {
        DefFlag::Public => core.is_public(def),
        DefFlag::InTest => core.in_test(def),
    }
}

/// Which definitions have the flag that a predicate asks for.
pub fn lookup_def_flag_rows(
    request: &ExternLookupRequest,
    core: Option<&CoreLookupIndex>,
    predicate: &str,
) -> (r: Option<Vec<Vec<ExternLookupValue>>>)
    requires
        core_wf(core),
    ensures
        opt_rows(r) == def_flag_answer(
            request@,
            match core {
                Some(core) => Some(core@),
                None => None,
            },
            core_ids(core),
            flag_named(predicate@),
        ),
{
    let signature: [ArgClass; 1] = [ArgClass::Def];
    assert(signature@ =~= seq![ArgClass::Def]);
    if !request_fits(request, &signature) {
        return None;
    }
    let flag = if str_eq(predicate, "is_public") {
        Some(DefFlag::Public)
    } else if str_eq(predicate, "in_test") {
        Some(DefFlag::InTest)
    } else {
        None
    };
    let index = match core {
        Some(index) => index,
        None => {
            return None;
        },
    };
    match bound_to_def(request, 0) {
        Some(def) => match flag {
            Some(flag) => match core_flag(index, flag, def) {
                Some(true) => Some(one_row(row1(def_value(def)))),
                Some(false) => Some(no_rows()),
                None => None,
            },
            None => None,
        },
        None => {
            let flag = match flag {
                Some(flag) => flag,
                None => {
                    return Some(no_rows());
                },
            };
            let ghost ids = index.ids();
            let mut rows = no_rows();
            let mut i: usize = 0;
            assert(def_rows(flagged(index@, ids.take(0), flag)) =~= Seq::<Seq<LookupView>>::empty());
            while i < index.len()
                invariant
                    index.wf(),
                    ids == index.ids(),
                    i <= ids.len(),
                    rows_view(rows@) == def_rows(flagged(index@, ids.take(i as int), flag)),
                decreases ids.len() - i,
            {
                let def = index.def_id_at(i);
                proof {
                    let longer = ids.take(i + 1);
                    assert(longer.drop_last() =~= ids.take(i as int));
                    assert(longer.last() == def@);
                }
                let set = match core_flag(index, flag, def) {
                    Some(set) => set,
                    None => false,
                };
                if set {
                    let row = row1(def_value(def));
                    proof {
                        lemma_def_rows_push(
                            rows@,
                            row,
                            flagged(index@, ids.take(i as int), flag),
                            def@,
                        );
                    }
                    rows.push(row);
                }
                i += 1;
            }
            assert(ids.take(i as int) =~= ids);
            Some(rows)
        },
    }
}

} // verus!
