//! Answering which definitions have a name.

use crate::host::DefId;
use crate::ir::StableId;
use crate::ra::core_index::{CoreLookupIndex, CoreView};
use crate::ra::host::opt_def;
use crate::ra::lookup_store::{
    ensure_lookup_symbol_module_def, facts_indexable, lookup_id, DefFacts, LookupStore, StoreView,
};
use crate::ra::lookups::{
    allows_def, allows_text, bound_def, bound_text, bound_to_def, bound_to_text, core_view,
    core_wf, fits, id_allowed, no_rows, one_row, opt_rows, request_fits, row2, text_allowed,
    ArgClass,
};
use crate::ra::store::ascending;
use crate::ra::values::{
    def_value, def_view, row_view, rows_view, text_value, BoundView, ExternLookupRequest,
    ExternLookupValue, LookupView,
};
use crate::text::owned;
use vstd::prelude::*;

verus! {

/// A definition that a search for a symbol found.
pub struct SymbolFacts {
    pub facts: DefFacts,
    pub is_alias: bool,
    pub is_import: bool,
    /// It stands in a crate of the workspace.
    pub is_local: bool,
}

/// The name of a known definition: what was looked up, else what the index says.
pub open spec fn name_of_def(core: CoreView, store: StoreView, def: u64) -> Option<Seq<char>> {
    if store.defs.contains_key(def) {
        Some(store.defs[def].name)
    } else if core.defs.contains_key(def) {
        Some(core.defs[def].name)
    } else {
        None
    }
}

/// What is to be done for a request for names.
pub enum NameReading {
    /// The answer is known.
    Rows(Vec<Vec<ExternLookupValue>>),
    /// Definitions with the name are to be searched for.
    Search(String),
}

/// What is to be done for a request for names.
pub enum NameReadingView {
    Rows(Seq<Seq<LookupView>>),
    Search(Seq<char>),
}

impl View for NameReading {
    type V = NameReadingView;

    open spec fn view(&self) -> NameReadingView {
        match self {
            NameReading::Rows(rows) => NameReadingView::Rows(rows_view(rows@)),
            NameReading::Search(name) => NameReadingView::Search(name@),
        }
    }
}

/// What is to be done for a request for names: a bound definition that is known
/// answers it, else a bound name is to be searched for.
pub open spec fn read_names(
    request: Seq<BoundView>,
    core: CoreView,
    store: StoreView,
) -> NameReadingView {
    if !fits(request, seq![ArgClass::Def, ArgClass::Text]) {
        NameReadingView::Rows(Seq::empty())
    } else {
        let known = match bound_def(request, 0) {
            Some(def) => name_of_def(core, store, def),
            None => None,
        };
        match known {
            Some(name) => if text_allowed(bound_text(request, 1), name) {
                NameReadingView::Rows(
                    seq![seq![def_view(bound_def(request, 0)->0), LookupView::Text(name)]],
                )
            } else {
                NameReadingView::Rows(Seq::empty())
            },
            None => match bound_text(request, 1) {
                Some(name) => NameReadingView::Search(name),
                None => NameReadingView::Rows(Seq::empty()),
            },
        }
    }
}

/// Reads a request for names.
pub fn read_name_request(
    request: &ExternLookupRequest,
    core: Option<&CoreLookupIndex>,
    store: &LookupStore,
) -> (r: NameReading)
    requires
        core_wf(core),
        store.wf(),
    ensures
        r@ == read_names(request@, core_view(core), store@),
{
    let signature: [ArgClass; 2] = [ArgClass::Def, ArgClass::Text];
    assert(signature@ =~= seq![ArgClass::Def, ArgClass::Text]);
    if !request_fits(request, &signature) {
        return NameReading::Rows(no_rows());
    }
    let wanted = bound_to_text(request, 1);
    match bound_to_def(request, 0) {
        Some(def) => {
            let known = match store.defs.get(def.stable_id().as_u64()) {
                Some(record) => Some(record.name.as_str()),
                None => match core {
                    Some(index) => index.def_name(def),
                    None => None,
                },
            };
            match known {
                Some(name) => {
                    if !allows_text(wanted, name) {
                        return NameReading::Rows(no_rows());
                    }
                    return NameReading::Rows(one_row(row2(def_value(def), text_value(name))));
                },
                None => {},
            }
        },
        None => {},
    }
    match wanted {
        Some(name) => NameReading::Search(owned(name)),
        None => NameReading::Rows(no_rows()),
    }
}

/// Ascending ids with one more, unless it is among them.
pub open spec fn with_id(ids: Seq<u64>, id: u64) -> Seq<u64>
    decreases ids.len(),
{
    if ids.len() == 0 || ids.last() < id {
        ids.push(id)
    } else if ids.last() == id {
        ids
    } else {
        with_id(ids.drop_last(), id).push(ids.last())
    }
}

/// Puts an id in its place among ascending ids, unless it is among them.
fn insert_id(ids: &mut Vec<u64>, id: u64)
    ensures
        final(ids)@ == with_id(old(ids)@, id),
{
    let ghost all = ids@;
    let mut i: usize = ids.len();
    assert(all.take(i as int) =~= all);
    assert(with_id(all, id) =~= with_id(all.take(i as int), id) + all.skip(i as int));
    while i > 0
        invariant
            all == ids@,
            ids@ == old(ids)@,
            i <= ids@.len(),
            with_id(all, id) == with_id(all.take(i as int), id) + all.skip(i as int),
        ensures
            i > 0 ==> all.take(i as int).last() < id,
        decreases i,
    {
        let held = ids[i - 1];
        proof {
            assert(all.take(i as int).last() == held);
            assert(all.take(i as int).drop_last() =~= all.take(i - 1));
        }
        if held < id {
            break;
        }
        if held == id {
            assert(all.take(i as int) + all.skip(i as int) =~= all);
            return;
        }
        proof {
            let front = with_id(all.take(i - 1), id);
            assert(front.push(held) + all.skip(i as int) =~= front + all.skip(i - 1));
        }
        i -= 1;
    }
    proof {
        let front = all.take(i as int);
        assert(with_id(front, id) =~= front.push(id));
    }
    ids.insert(i, id);
    assert(ids@ =~= all.take(i as int).push(id) + all.skip(i as int));
}

/// Adding an id keeps ids ascending, adds the id and takes none away.
pub proof fn law_ids_stay_ascending(ids: Seq<u64>, id: u64)
    requires
        ascending(ids),
    ensures
        ascending(with_id(ids, id)),
        forall|d: u64| #[trigger] with_id(ids, id).contains(d) <==> ids.contains(d) || d == id,
    decreases ids.len(),
{
    let after = with_id(ids, id);
    if ids.len() == 0 {
        assert(after[0] == id);
    } else if ids.last() < id {
        assert forall|d: u64| #[trigger] after.contains(d) <==> ids.contains(d) || d == id by {
            assert(after[ids.len() as int] == id);
            if ids.contains(d) {
                let k = choose|k: int| 0 <= k < ids.len() && ids[k] == d;
                assert(after[k] == d);
            }
            if after.contains(d) && d != id {
                let k = choose|k: int| 0 <= k < after.len() && after[k] == d;
                assert(ids[k] == d);
            }
        }
    } else if ids.last() == id {
        assert(ids[ids.len() - 1] == id);
    } else {
        let rest = ids.drop_last();
        law_ids_stay_ascending(rest, id);
        let inner = with_id(rest, id);
        let last = ids.last();
        assert forall|d: u64| inner.contains(d) implies d < last by {
            if rest.contains(d) {
                let k = choose|k: int| 0 <= k < rest.len() && rest[k] == d;
                assert(ids[k] == d);
            }
        }
        assert forall|i: int, j: int| 0 <= i < j < after.len() implies after[i] < after[j] by {
            if j == inner.len() {
                assert(inner.contains(inner[i]));
            }
        }
        assert forall|d: u64| #[trigger] after.contains(d) <==> ids.contains(d) || d == id by {
            assert(after[inner.len() as int] == last);
            assert(ids[ids.len() - 1] == last);
            if inner.contains(d) {
                let k = choose|k: int| 0 <= k < inner.len() && inner[k] == d;
                assert(after[k] == d);
            }
            if rest.contains(d) {
                let k = choose|k: int| 0 <= k < rest.len() && rest[k] == d;
                assert(ids[k] == d);
            }
            if ids.contains(d) && d != last {
                let k = choose|k: int| 0 <= k < ids.len() && ids[k] == d;
                assert(rest[k] == d);
            }
            if after.contains(d) && d != last {
                let k = choose|k: int| 0 <= k < after.len() && after[k] == d;
                assert(inner[k] == d);
            }
        }
    }
}

/// What has been looked up, and the definitions found so far.
#[verifier::ext_equal]
pub struct NameSearch {
    pub store: StoreView,
    pub found: Seq<u64>,
}

/// What is known once a found definition has been looked at.
pub open spec fn with_item(search: NameSearch, facts: DefFacts, filter: Option<u64>) -> NameSearch {
    NameSearch {
        store: search.store.with_facts(facts),
        found: match lookup_id(facts) {
            Some(def) => if id_allowed(filter, def) {
                with_id(search.found, def)
            } else {
                search.found
            },
            None => search.found,
        },
    }
}

/// The symbol is one to look at.
pub open spec fn symbol_counts(symbol: SymbolFacts, functions: bool) -> bool {
    !symbol.is_alias && !symbol.is_import && symbol.is_local && symbol.facts.entity.is_function
        == functions
}

/// What is known once the first `count` symbols have been looked at.
pub open spec fn with_symbols(
    search: NameSearch,
    symbols: Seq<SymbolFacts>,
    functions: bool,
    filter: Option<u64>,
    count: nat,
) -> NameSearch
    decreases count,
{
    if count == 0 {
        search
    } else {
        let told = with_symbols(search, symbols, functions, filter, (count - 1) as nat);
        if symbol_counts(symbols[count - 1], functions) {
            with_item(told, symbols[count - 1].facts, filter)
        } else {
            told
        }
    }
}

/// What is known once the first `count` items have been looked at.
pub open spec fn with_items(
    search: NameSearch,
    items: Seq<DefFacts>,
    filter: Option<u64>,
    count: nat,
) -> NameSearch
    decreases count,
{
    if count == 0 {
        search
    } else {
        with_item(
            with_items(search, items, filter, (count - 1) as nat),
            items[count - 1],
            filter,
        )
    }
}

/// The rows that give definitions a name.
pub open spec fn name_rows(ids: Seq<u64>, name: Seq<char>) -> Seq<Seq<LookupView>> {
    Seq::new(ids.len(), |i: int| seq![def_view(ids[i]), LookupView::Text(name)])
}

/// What the symbol index finds: types and values first, then functions.
pub open spec fn symbol_search(
    store: StoreView,
    types: Seq<SymbolFacts>,
    functions: Seq<SymbolFacts>,
    filter: Option<u64>,
) -> NameSearch {
    with_symbols(
        with_symbols(
            NameSearch { store, found: Seq::empty() },
            types,
            false,
            filter,
            types.len(),
        ),
        functions,
        true,
        filter,
        functions.len(),
    )
}

/// The answer to which definitions have a name, and the store once they have been
/// looked for, where a known definition or the symbol index gives one.
pub open spec fn indexed_name_answer(
    request: Seq<BoundView>,
    core: CoreView,
    store: StoreView,
    types: Seq<SymbolFacts>,
    functions: Seq<SymbolFacts>,
) -> (StoreView, Option<Seq<Seq<LookupView>>>) {
    match read_names(request, core, store) {
        NameReadingView::Rows(rows) => (store, Some(rows)),
        NameReadingView::Search(name) => {
            let symbols = symbol_search(store, types, functions, bound_def(request, 0));
            (
                symbols.store,
                if symbols.found.len() > 0 {
                    Some(name_rows(symbols.found, name))
                } else {
                    None
                },
            )
        },
    }
}

/// The answer to which definitions have a name, and the store once they have been
/// looked for, among the items that modules hold.
pub open spec fn module_name_answer(
    request: Seq<BoundView>,
    store: StoreView,
    items: Seq<DefFacts>,
) -> (StoreView, Seq<Seq<LookupView>>) {
    match bound_text(request, 1) {
        Some(name) => {
            let found = with_items(
                NameSearch { store, found: Seq::empty() },
                items,
                bound_def(request, 0),
                items.len(),
            );
            (found.store, name_rows(found.found, name))
        },
        None => (store, Seq::empty()),
    }
}

/// The answer to which definitions have a name, and the store once they have
/// been looked for: what the symbol index finds, else what the modules hold.
pub open spec fn def_name_answer(
    request: Seq<BoundView>,
    core: CoreView,
    store: StoreView,
    types: Seq<SymbolFacts>,
    functions: Seq<SymbolFacts>,
    items: Seq<DefFacts>,
) -> (StoreView, Seq<Seq<LookupView>>) {
    match indexed_name_answer(request, core, store, types, functions) {
        (told, Some(rows)) => (told, rows),
        (told, None) => module_name_answer(request, told, items),
    }
}

/// Looks at a found definition.
fn push_item(
    store: &mut LookupStore,
    found: &mut Vec<u64>,
    facts: &DefFacts,
    filter: Option<DefId>,
)
    requires
        old(store).wf(),
        facts_indexable(*facts),
    ensures
        final(store).wf(),
        (NameSearch { store: final(store)@, found: final(found)@ }) == with_item(
            NameSearch { store: old(store)@, found: old(found)@ },
            *facts,
            opt_def(filter),
        ),
{
    match ensure_lookup_symbol_module_def(store, facts) {
        Some(def) => {
            if allows_def(filter, def) {
                insert_id(found, def.stable_id().as_u64());
            }
        },
        None => {},
    }
}

/// The sources that the symbols speak of can be indexed.
pub open spec fn symbols_indexable(symbols: Seq<SymbolFacts>) -> bool {
    forall|i: int| 0 <= i < symbols.len() ==> facts_indexable((#[trigger] symbols[i]).facts)
}

/// Looks at found symbols.
fn push_symbols(
    store: &mut LookupStore,
    found: &mut Vec<u64>,
    symbols: &Vec<SymbolFacts>,
    functions: bool,
    filter: Option<DefId>,
)
    requires
        old(store).wf(),
        symbols_indexable(symbols@),
    ensures
        final(store).wf(),
        (NameSearch { store: final(store)@, found: final(found)@ }) == with_symbols(
            NameSearch { store: old(store)@, found: old(found)@ },
            symbols@,
            functions,
            opt_def(filter),
            symbols@.len(),
        ),
{
    let ghost start = NameSearch { store: store@, found: found@ };
    let mut i: usize = 0;
    while i < symbols.len()
        invariant
            start == (NameSearch { store: old(store)@, found: old(found)@ }),
            store.wf(),
            symbols_indexable(symbols@),
            i <= symbols@.len(),
            (NameSearch { store: store@, found: found@ }) == with_symbols(
                start,
                symbols@,
                functions,
                opt_def(filter),
                i as nat,
            ),
        decreases symbols.len() - i,
    {
        let symbol = &symbols[i];
        if !symbol.is_alias && !symbol.is_import && symbol.is_local
            && symbol.facts.entity.is_function == functions {
            push_item(store, found, &symbol.facts, filter);
        }
        i += 1;
    }
}

/// Looks at the items that modules hold.
fn push_items(
    store: &mut LookupStore,
    found: &mut Vec<u64>,
    items: &Vec<DefFacts>,
    filter: Option<DefId>,
)
    requires
        old(store).wf(),
        forall|i: int| 0 <= i < items@.len() ==> facts_indexable(#[trigger] items@[i]),
    ensures
        final(store).wf(),
        (NameSearch { store: final(store)@, found: final(found)@ }) == with_items(
            NameSearch { store: old(store)@, found: old(found)@ },
            items@,
            opt_def(filter),
            items@.len(),
        ),
{
    let ghost start = NameSearch { store: store@, found: found@ };
    let mut i: usize = 0;
    while i < items.len()
        invariant
            start == (NameSearch { store: old(store)@, found: old(found)@ }),
            store.wf(),
            forall|k: int| 0 <= k < items@.len() ==> facts_indexable(#[trigger] items@[k]),
            i <= items@.len(),
            (NameSearch { store: store@, found: found@ }) == with_items(
                start,
                items@,
                opt_def(filter),
                i as nat,
            ),
        decreases items.len() - i,
    {
        push_item(store, found, &items[i], filter);
        i += 1;
    }
}

/// The rows that give definitions a name.
fn rows_of_ids(ids: &Vec<u64>, name: &str) -> (r: Vec<Vec<ExternLookupValue>>)
    ensures
        rows_view(r@) == name_rows(ids@, name@),
{
    let ghost want = name_rows(ids@, name@);
    let mut rows = no_rows();
    let mut i: usize = 0;
    assert(rows_view(rows@) =~= want.take(0));
    while i < ids.len()
        invariant
            i <= ids@.len(),
            want == name_rows(ids@, name@),
            rows_view(rows@) == want.take(i as int),
        decreases ids.len() - i,
    {
        let row = row2(def_value(DefId::new(StableId::new(ids[i]))), text_value(name));
        let ghost before = rows_view(rows@);
        let ghost shown = row_view(row@);
        assert(want[i as int] == shown);
        rows.push(row);
        proof {
            assert(rows_view(rows@) =~= before.push(shown));
            assert(want.take(i + 1) =~= want.take(i as int).push(want[i as int]));
        }
        i += 1;
    }
    assert(want.take(i as int) =~= want);
    rows
}

/// Which definitions have a name, by what was looked up and by the symbol index.
/// Where [`read_name_request`] asks for a search, `types` and `functions` are what
/// the symbol index has under the name. Nothing comes back where the modules are
/// to be searched.
pub fn lookup_indexed_name_rows(
    request: &ExternLookupRequest,
    core: Option<&CoreLookupIndex>,
    store: &mut LookupStore,
    types: &Vec<SymbolFacts>,
    functions: &Vec<SymbolFacts>,
) -> (r: Option<Vec<Vec<ExternLookupValue>>>)
    requires
        core_wf(core),
        old(store).wf(),
        symbols_indexable(types@),
        symbols_indexable(functions@),
    ensures
        final(store).wf(),
        (final(store)@, opt_rows(r)) == indexed_name_answer(
            request@,
            core_view(core),
            old(store)@,
            types@,
            functions@,
        ),
{
    let name = match read_name_request(request, core, store) {
        NameReading::Rows(rows) => {
            return Some(rows);
        },
        NameReading::Search(name) => name,
    };
    let filter = bound_to_def(request, 0);
    let mut found: Vec<u64> = Vec::new();
    push_symbols(store, &mut found, types, false, filter);
    push_symbols(store, &mut found, functions, true, filter);
    if found.len() > 0 {
        Some(rows_of_ids(&found, name.as_str()))
    } else {
        None
    }
}

/// Which definitions have a name, by the items of that name in the modules of the
/// workspace.
pub fn lookup_module_name_rows(
    request: &ExternLookupRequest,
    store: &mut LookupStore,
    items: &Vec<DefFacts>,
) -> (r: Vec<Vec<ExternLookupValue>>)
    requires
        old(store).wf(),
        forall|i: int| 0 <= i < items@.len() ==> facts_indexable(#[trigger] items@[i]),
    ensures
        final(store).wf(),
        (final(store)@, rows_view(r@)) == module_name_answer(request@, old(store)@, items@),
{
    let name = match bound_to_text(request, 1) {
        Some(name) => name,
        None => {
            return no_rows();
        },
    };
    let mut found: Vec<u64> = Vec::new();
    push_items(store, &mut found, items, bound_to_def(request, 0));
    rows_of_ids(&found, name)
}

/// Which definitions have a name. Where [`read_name_request`] asks for a search,
/// `types` and `functions` are what the symbol index has under the name, and
/// `items` are the items of that name in the modules of the workspace.
pub fn lookup_def_name_rows(
    request: &ExternLookupRequest,
    core: Option<&CoreLookupIndex>,
    store: &mut LookupStore,
    types: &Vec<SymbolFacts>,
    functions: &Vec<SymbolFacts>,
    items: &Vec<DefFacts>,
) -> (r: Vec<Vec<ExternLookupValue>>)
    requires
        core_wf(core),
        old(store).wf(),
        symbols_indexable(types@),
        symbols_indexable(functions@),
        forall|i: int| 0 <= i < items@.len() ==> facts_indexable(#[trigger] items@[i]),
    ensures
        final(store).wf(),
        (final(store)@, rows_view(r@)) == def_name_answer(
            request@,
            core_view(core),
            old(store)@,
            types@,
            functions@,
            items@,
        ),
{
    match lookup_indexed_name_rows(request, core, store, types, functions) {
        Some(rows) => rows,
        None => lookup_module_name_rows(request, store, items),
    }
}

} // verus!
