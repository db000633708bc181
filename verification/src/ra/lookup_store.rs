//! What has been looked up so far, and how definitions get into it.

use crate::ra::file_id::EditionedFileId;
use crate::host::{derived_id, deterministic_stable_id, DefId, SpanId, SpanKey, SpanKeyView};
use crate::ra::core_index::opt_str;
use crate::ra::host::{opt_def, NodeRecord, NodeRecordView};
use crate::ra::kinds::DefKind;
use crate::ra::rows::opt_text;
use crate::ra::source::{
    indexable, key_in_text, lookup_span_key_from_text, place_text, place_to_text, span_id_of,
    span_of_place,
};
use crate::ra::store::IdMap;
use crate::search::{has_prefix, starts_with};
use crate::text::{cat2, owned, str_eq};
use vstd::prelude::*;

verus! {

/// A semantic entity by the key under which the session keeps it.
#[derive(Debug, Clone, Copy, PartialEq, Eq, Structural)]
pub struct RaEntity {
    pub key: u64,
    pub is_function: bool,
}

/// The function that an entity is.
pub open spec fn function_of(entity: Option<RaEntity>) -> Option<u64> {
    match entity {
        Some(entity) => if entity.is_function {
            Some(entity.key)
        } else {
            None
        },
        None => None,
    }
}

impl RaEntity {
    /// The key of the function that the entity is.
    pub fn as_function(&self) -> (r: Option<u64>)
        ensures
            r == function_of(Some(*self)),
    {
        if self.is_function {
            Some(self.key)
        } else {
            None
        }
    }
}

/// A definition that has been looked up.
#[derive(Debug, Clone, PartialEq, Eq)]
pub struct LookupDefRecord {
    pub name: String,
    pub kind: DefKind,
    pub span: SpanId,
    pub path: Option<String>,
    pub entity: Option<RaEntity>,
}

/// What a looked up definition says.
pub struct LookupDefView {
    pub name: Seq<char>,
    pub kind: DefKind,
    pub span: u64,
    pub path: Option<Seq<char>>,
    pub entity: Option<RaEntity>,
}

impl View for LookupDefRecord {
    type V = LookupDefView;

    open spec fn view(&self) -> LookupDefView {
        LookupDefView {
            name: self.name@,
            kind: self.kind,
            span: self.span@,
            path: opt_text(self.path),
            entity: self.entity,
        }
    }
}

impl LookupDefRecord {
    /// A record that says the same.
    pub fn copy(&self) -> (r: Self)
        ensures
            r@ == self@,
    {
        LookupDefRecord {
            name: owned(self.name.as_str()),
            kind: self.kind,
            span: self.span,
            path: match &self.path {
                Some(path) => Some(owned(path.as_str())),
                None => None,
            },
            entity: self.entity,
        }
    }
}

/// Definitions, spans and nodes that have been looked up.
pub struct LookupStore {
    pub defs: IdMap<LookupDefRecord>,
    pub spans: IdMap<SpanKey>,
    pub nodes: IdMap<NodeRecord>,
}

/// What a store holds.
#[verifier::ext_equal]
pub struct StoreView {
    pub defs: Map<u64, LookupDefView>,
    pub spans: Map<u64, SpanKeyView>,
    pub nodes: Map<u64, NodeRecordView>,
}

impl View for LookupStore {
    type V = StoreView;

    open spec fn view(&self) -> StoreView {
        StoreView { defs: self.defs@, spans: self.spans@, nodes: self.nodes@ }
    }
}

impl LookupStore {
    /// The maps are in order.
    pub open spec fn wf(&self) -> bool {
        self.defs.wf() && self.spans.wf() && self.nodes.wf()
    }

    pub fn new() -> (r: Self)
        ensures
            r.wf(),
            r@ == (StoreView { defs: Map::empty(), spans: Map::empty(), nodes: Map::empty() }),
    {
        LookupStore { defs: IdMap::new(), spans: IdMap::new(), nodes: IdMap::new() }
    }

    /// A store that says the same.
    pub fn copy(&self) -> (r: Self)
        requires
            self.wf(),
        ensures
            r.wf(),
            r@ == self@,
    {
        let mut out = LookupStore::new();
        let mut i: usize = 0;
        let ghost ids = self.defs.keys();
        proof {
            self.defs.lemma_keys();
            self.spans.lemma_keys();
            self.nodes.lemma_keys();
            assert(out.defs@ =~= self.defs@.restrict(ids.take(0).to_set()));
        }
        while i < self.defs.len()
            invariant
                self.wf(),
                out.wf(),
                ids == self.defs.keys(),
                i <= ids.len(),
                out.spans@ == Map::<u64, SpanKeyView>::empty(),
                out.nodes@ == Map::<u64, NodeRecordView>::empty(),
                out.defs@ == self.defs@.restrict(ids.take(i as int).to_set()),
            decreases ids.len() - i,
        {
            let key = self.defs.key_at(i);
            let value = self.defs.value_at(i).copy();
            out.defs.insert(key, value);
            proof {
                lemma_take_to_set(ids, i as int);
                assert(out.defs@ =~= self.defs@.restrict(ids.take(i + 1).to_set()));
            }
            i += 1;
        }
        proof {
            lemma_full_restrict(self.defs@, ids, i as int);
        }
        let ghost span_ids = self.spans.keys();
        let mut j: usize = 0;
        proof {
            assert(out.spans@ =~= self.spans@.restrict(span_ids.take(0).to_set()));
        }
        while j < self.spans.len()
            invariant
                self.wf(),
                out.wf(),
                span_ids == self.spans.keys(),
                j <= span_ids.len(),
                out.defs@ == self.defs@,
                out.nodes@ == Map::<u64, NodeRecordView>::empty(),
                out.spans@ == self.spans@.restrict(span_ids.take(j as int).to_set()),
            decreases span_ids.len() - j,
        {
            let key = self.spans.key_at(j);
            let held = self.spans.value_at(j);
            out.spans.insert(key, SpanKey::new(held.rel_path(), held.start(), held.end()));
            proof {
                lemma_take_to_set(span_ids, j as int);
                assert(out.spans@ =~= self.spans@.restrict(span_ids.take(j + 1).to_set()));
            }
            j += 1;
        }
        proof {
            lemma_full_restrict(self.spans@, span_ids, j as int);
        }
        let ghost node_ids = self.nodes.keys();
        let mut k: usize = 0;
        proof {
            assert(out.nodes@ =~= self.nodes@.restrict(node_ids.take(0).to_set()));
        }
        while k < self.nodes.len()
            invariant
                self.wf(),
                out.wf(),
                node_ids == self.nodes.keys(),
                k <= node_ids.len(),
                out.defs@ == self.defs@,
                out.spans@ == self.spans@,
                out.nodes@ == self.nodes@.restrict(node_ids.take(k as int).to_set()),
            decreases node_ids.len() - k,
        {
            let key = self.nodes.key_at(k);
            let held = *self.nodes.value_at(k);
            out.nodes.insert(key, held);
            proof {
                lemma_take_to_set(node_ids, k as int);
                assert(out.nodes@ =~= self.nodes@.restrict(node_ids.take(k + 1).to_set()));
            }
            k += 1;
        }
        proof {
            lemma_full_restrict(self.nodes@, node_ids, k as int);
        }
        out
    }
}

proof fn lemma_take_to_set(ids: Seq<u64>, i: int)
    requires
        0 <= i < ids.len(),
    ensures
        ids.take(i + 1).to_set() == ids.take(i).to_set().insert(ids[i]),
{
    let shorter = ids.take(i);
    let longer = ids.take(i + 1);
    assert forall|d: u64| longer.to_set().contains(d) <==> shorter.to_set().insert(
        ids[i],
    ).contains(d) by {
        assert(longer[i] == ids[i]);
        if shorter.contains(d) {
            let m = choose|m: int| 0 <= m < shorter.len() && shorter[m] == d;
            assert(longer[m] == d);
        }
        if longer.contains(d) && d != ids[i] {
            let m = choose|m: int| 0 <= m < longer.len() && longer[m] == d;
            assert(shorter[m] == d);
        }
    }
    assert(longer.to_set() =~= shorter.to_set().insert(ids[i]));
}

proof fn lemma_full_restrict<V>(map: Map<u64, V>, ids: Seq<u64>, i: int)
    requires
        i == ids.len(),
        forall|k: u64| #[trigger] map.contains_key(k) ==> ids.contains(k),
    ensures
        map.restrict(ids.take(i).to_set()) == map,
{
    assert(ids.take(i) =~= ids);
    assert(map.restrict(ids.take(i).to_set()) =~= map);
}

/// A source file: its path in the workspace and its text.
#[derive(Debug, Clone, PartialEq, Eq)]
pub struct LocalFile {
    /// The file, in the edition of its crate.
    pub file_id: EditionedFileId,
    pub rel_path: String,
    pub text: String,
}

/// What the semantic database says of a definition.
pub struct DefFacts {
    /// What it is; nothing for builtin types.
    pub kind: Option<DefKind>,
    /// The file that it stands in, if that can be read.
    pub file: Option<LocalFile>,
    pub start: u32,
    pub end: u32,
    /// The canonical path, with the crate in front for functions.
    pub path: Option<String>,
    pub name: Option<String>,
    pub entity: RaEntity,
}

/// The source of the definition, if there is one, can be indexed.
pub open spec fn facts_indexable(facts: DefFacts) -> bool {
    match facts.file {
        Some(file) => indexable(file.text@),
        None => true,
    }
}

/// The path of a function: its canonical path, or its name, below its crate.
pub open spec fn function_path(
    name: Seq<char>,
    canonical: Option<Seq<char>>,
    crate_name: Option<Seq<char>>,
) -> Seq<char> {
    let raw = match canonical {
        Some(path) => path,
        None => name,
    };
    match crate_name {
        Some(crate_name) => if raw != crate_name && !has_prefix(raw, crate_name + "::"@) {
            crate_name + "::"@ + raw
        } else {
            raw
        },
        None => raw,
    }
}

/// The path of a function: its canonical path, or its name, below its crate.
pub fn canonical_function_path(
    name: &str,
    canonical: Option<&str>,
    crate_name: Option<&str>,
) -> (r: String)
    ensures
        r@ == function_path(name@, opt_str(canonical), opt_str(crate_name)),
{
    let raw = match canonical {
        Some(path) => path,
        None => name,
    };
    match crate_name {
        Some(crate_name) => {
            let inside = cat2(crate_name, "::");
            if !str_eq(raw, crate_name) && !starts_with(raw, inside.as_str()) {
                cat2(inside.as_str(), raw)
            } else {
                owned(raw)
            }
        },
        None => owned(raw),
    }
}

/// A function's path lies below its crate.
pub proof fn law_function_paths_start_with_their_crate(
    name: Seq<char>,
    canonical: Option<Seq<char>>,
    crate_name: Seq<char>,
)
    ensures
        has_prefix(function_path(name, canonical, Some(crate_name)), crate_name),
{
    let path = function_path(name, canonical, Some(crate_name));
    let raw = match canonical {
        Some(path) => path,
        None => name,
    };
    if raw != crate_name && !has_prefix(raw, crate_name + "::"@) {
        assert(path.subrange(0, crate_name.len() as int) =~= crate_name);
    } else if raw == crate_name {
        assert(path.subrange(0, crate_name.len() as int) =~= crate_name);
    } else {
        let inside = crate_name + "::"@;
        assert(raw.subrange(0, inside.len() as int) == inside);
        assert(path.subrange(0, crate_name.len() as int) =~= inside.subrange(
            0,
            crate_name.len() as int,
        ));
        assert(inside.subrange(0, crate_name.len() as int) =~= crate_name);
    }
}

/// The token of a looked up definition.
pub open spec fn lookup_token(
    kind: DefKind,
    path: Option<Seq<char>>,
    rel_path: Seq<char>,
    start: u32,
    end: u32,
) -> Seq<char> {
    match path {
        Some(path) => if kind is Fn || kind is Method {
            "def:function:"@ + path
        } else {
            "def:"@ + kind.name() + ":"@ + path
        },
        None => "lookup_def:"@ + kind.name() + ":"@ + place_text(rel_path, start, end),
    }
}

/// The id that a definition is looked up under, if it can be.
pub open spec fn lookup_id(facts: DefFacts) -> Option<u64> {
    match (facts.kind, facts.file, facts.name) {
        (Some(kind), Some(file), Some(name)) => match key_in_text(
            file.rel_path@,
            file.text@,
            facts.start,
            facts.end,
        ) {
            Some(key) => Some(
                derived_id(
                    "def"@,
                    lookup_token(
                        kind,
                        opt_text(facts.path),
                        file.rel_path@,
                        facts.start,
                        facts.end,
                    ),
                ),
            ),
            None => None,
        },
        _ => None,
    }
}

impl StoreView {
    /// The store with a span.
    pub open spec fn with_span(self, span: u64, key: SpanKeyView) -> StoreView {
        StoreView { spans: self.spans.insert(span, key), ..self }
    }

    /// The store with a span, unless it has it.
    pub open spec fn with_new_span(self, span: u64, key: SpanKeyView) -> StoreView {
        if self.spans.contains_key(span) {
            self
        } else {
            self.with_span(span, key)
        }
    }

    /// The store once a definition has been looked up.
    pub open spec fn with_facts(self, facts: DefFacts) -> StoreView {
        match lookup_id(facts) {
            Some(def) => {
                let file = facts.file->0;
                let span = span_id_of(file.file_id, facts.start, facts.end);
                StoreView {
                    defs: self.defs.insert(
                        def,
                        LookupDefView {
                            name: facts.name->0@,
                            kind: facts.kind->0,
                            span,
                            path: opt_text(facts.path),
                            entity: Some(facts.entity),
                        },
                    ),
                    spans: self.spans.insert(
                        span,
                        key_in_text(file.rel_path@, file.text@, facts.start, facts.end)->0,
                    ),
                    ..self
                }
            },
            None => self,
        }
    }
}

/// The token of a looked up definition.
fn lookup_token_text(
    kind: DefKind,
    path: &Option<String>,
    rel_path: &str,
    start: u32,
    end: u32,
) -> (r: String)
    ensures
        r@ == lookup_token(kind, opt_text(*path), rel_path@, start, end),
{
    match path {
        Some(path) => if kind == DefKind::Fn || kind == DefKind::Method {
            cat2("def:function:", path.as_str())
        } else {
            let mut out = cat2("def:", kind.variant_name());
            out.append(":");
            out.append(path.as_str());
            out
        },
        None => {
            let mut out = cat2("lookup_def:", kind.variant_name());
            out.append(":");
            out.append(place_to_text(rel_path, start, end).as_str());
            out
        },
    }
}

/// Looks a definition up: gives it an id and keeps what is known of it.
pub fn ensure_lookup_symbol_module_def(store: &mut LookupStore, facts: &DefFacts) -> (r: Option<
    DefId,
>)
    requires
        old(store).wf(),
        facts_indexable(*facts),
    ensures
        final(store).wf(),
        opt_def(r) == lookup_id(*facts),
        final(store)@ == old(store)@.with_facts(*facts),
{
    match (facts.kind, &facts.file, &facts.name) {
        (Some(kind), Some(file), Some(name)) => {
            match lookup_span_key_from_text(
                file.rel_path.as_str(),
                file.text.as_str(),
                facts.start,
                facts.end,
            ) {
                Some(key) => {
                    let span = span_of_place(file.file_id, facts.start, facts.end);
                    let token = lookup_token_text(
                        kind,
                        &facts.path,
                        file.rel_path.as_str(),
                        facts.start,
                        facts.end,
                    );
                    let def = DefId::new(deterministic_stable_id("def", token.as_str()));
                    let record = LookupDefRecord {
                        name: owned(name.as_str()),
                        kind,
                        span,
                        path: match &facts.path {
                            Some(path) => Some(owned(path.as_str())),
                            None => None,
                        },
                        entity: Some(facts.entity),
                    };
                    store.defs.insert(def.stable_id().as_u64(), record);
                    store.spans.insert(span.stable_id().as_u64(), key);
                    Some(def)
                },
                None => None,
            }
        },
        _ => None,
    }
}

/// What the syntax says of a callable without a definition of its own.
pub struct CallableFacts {
    pub start: u32,
    pub end: u32,
    pub label: String,
}

/// The path of a callable without a definition of its own.
pub open spec fn synthetic_path(
    prefix: Seq<char>,
    rel_path: Seq<char>,
    facts: CallableFacts,
) -> Seq<char> {
    prefix + "::"@ + place_text(rel_path, facts.start, facts.end) + ":"@ + facts.label@
}

/// The id of a callable without a definition of its own.
pub open spec fn synthetic_id(
    prefix: Seq<char>,
    file: LocalFile,
    facts: CallableFacts,
) -> Option<u64> {
    match key_in_text(file.rel_path@, file.text@, facts.start, facts.end) {
        Some(key) => Some(
            derived_id(
                "def"@,
                "def:"@ + prefix + ":"@ + synthetic_path(prefix, file.rel_path@, facts),
            ),
        ),
        None => None,
    }
}

impl StoreView {
    /// The store once a callable without a definition of its own is known.
    pub open spec fn with_synthetic(
        self,
        prefix: Seq<char>,
        file: LocalFile,
        facts: CallableFacts,
    ) -> StoreView {
        match synthetic_id(prefix, file, facts) {
            Some(def) => {
                let span = span_id_of(file.file_id, facts.start, facts.end);
                StoreView {
                    defs: self.defs.insert(
                        def,
                        LookupDefView {
                            name: facts.label@,
                            kind: DefKind::Other,
                            span,
                            path: Some(synthetic_path(prefix, file.rel_path@, facts)),
                            entity: None,
                        },
                    ),
                    spans: self.spans.insert(
                        span,
                        key_in_text(file.rel_path@, file.text@, facts.start, facts.end)->0,
                    ),
                    ..self
                }
            },
            None => self,
        }
    }
}

/// The path of a callable without a definition of its own.
fn synthetic_path_text(prefix: &str, rel_path: &str, facts: &CallableFacts) -> (r: String)
    ensures
        r@ == synthetic_path(prefix@, rel_path@, *facts),
{
    let mut out = cat2(prefix, "::");
    out.append(place_to_text(rel_path, facts.start, facts.end).as_str());
    out.append(":");
    out.append(facts.label.as_str());
    out
}

/// Makes a callable without a definition of its own known.
pub fn ensure_lookup_synthetic_callable_def(
    store: &mut LookupStore,
    prefix: &str,
    file: &LocalFile,
    facts: &CallableFacts,
) -> (r: Option<DefId>)
    requires
        old(store).wf(),
        indexable(file.text@),
    ensures
        final(store).wf(),
        opt_def(r) == synthetic_id(prefix@, *file, *facts),
        final(store)@ == old(store)@.with_synthetic(prefix@, *file, *facts),
{
    match lookup_span_key_from_text(
        file.rel_path.as_str(),
        file.text.as_str(),
        facts.start,
        facts.end,
    ) {
        Some(key) => {
            let span = span_of_place(file.file_id, facts.start, facts.end);
            let path = synthetic_path_text(prefix, file.rel_path.as_str(), facts);
            let mut token = cat2("def:", prefix);
            token.append(":");
            token.append(path.as_str());
            let def = DefId::new(deterministic_stable_id("def", token.as_str()));
            let record = LookupDefRecord {
                name: owned(facts.label.as_str()),
                kind: DefKind::Other,
                span,
                path: Some(path),
                entity: None,
            };
            store.defs.insert(def.stable_id().as_u64(), record);
            store.spans.insert(span.stable_id().as_u64(), key);
            Some(def)
        },
        None => None,
    }
}

} // verus!
