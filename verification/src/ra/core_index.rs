//! What is known of definitions before they are looked up one by one.

use crate::host::{DefId, SpanId, SpanKey, SpanKeyView};
use crate::ra::kinds::DefKind;
use crate::ra::rows::opt_text;
use crate::ra::store::{ascending, IdMap};
use crate::text::{owned, str_eq, texts};
use vstd::prelude::*;

verus! {

/// What is known of a definition.
#[derive(Debug, Clone, PartialEq, Eq)]
pub struct CoreDefMetadata {
    pub name: String,
    pub kind: DefKind,
    pub path: String,
    /// The file that the definition stands in.
    pub source_rel_path: Option<String>,
    pub is_public: Option<bool>,
    pub in_test: Option<bool>,
}

/// What metadata says.
pub struct CoreDefView {
    pub name: Seq<char>,
    pub kind: DefKind,
    pub path: Seq<char>,
    pub source_rel_path: Option<Seq<char>>,
    pub is_public: Option<bool>,
    pub in_test: Option<bool>,
}

impl View for CoreDefMetadata {
    type V = CoreDefView;

    open spec fn view(&self) -> CoreDefView {
        CoreDefView {
            name: self.name@,
            kind: self.kind,
            path: self.path@,
            source_rel_path: opt_text(self.source_rel_path),
            is_public: self.is_public,
            in_test: self.in_test,
        }
    }
}

/// What an optional borrowed text says.
pub open spec fn opt_str(text: Option<&str>) -> Option<Seq<char>> {
    match text {
        Some(text) => Some(text@),
        None => None,
    }
}

impl CoreDefMetadata {
    /// Metadata with nothing known of visibility and tests.
    pub fn new(name: &str, kind: DefKind, path: &str, source_rel_path: Option<&str>) -> (r: Self)
        ensures
            r@ == (CoreDefView {
                name: name@,
                kind,
                path: path@,
                source_rel_path: opt_str(source_rel_path),
                is_public: None,
                in_test: None,
            }),
    {
        CoreDefMetadata {
            name: owned(name),
            kind,
            path: owned(path),
            source_rel_path: match source_rel_path {
                Some(source) => Some(owned(source)),
                None => None,
            },
            is_public: None,
            in_test: None,
        }
    }
}

/// Definitions by id: what is known of each, the key of the function that some
/// of them are, and where they stand.
pub struct CoreLookupIndex {
    defs: IdMap<CoreDefMetadata>,
    functions: IdMap<u64>,
    def_spans: IdMap<SpanId>,
    spans: IdMap<SpanKey>,
}

/// What an index holds.
#[verifier::ext_equal]
pub struct CoreView {
    pub defs: Map<u64, CoreDefView>,
    pub functions: Map<u64, u64>,
    pub def_spans: Map<u64, u64>,
    pub spans: Map<u64, SpanKeyView>,
}

impl View for CoreLookupIndex {
    type V = CoreView;

    closed spec fn view(&self) -> CoreView {
        CoreView {
            defs: self.defs@,
            functions: self.functions@,
            def_spans: self.def_spans@,
            spans: self.spans@,
        }
    }
}

/// The definition stands in one of the files.
pub open spec fn is_stale(def: CoreDefView, changed: Seq<Seq<char>>) -> bool {
    match def.source_rel_path {
        Some(path) => changed.contains(path),
        None => false,
    }
}

impl CoreView {
    /// What is known of a definition once it has been told.
    pub open spec fn with_def(
        self,
        def: u64,
        name: Seq<char>,
        kind: DefKind,
        path: Seq<char>,
        source_rel_path: Option<Seq<char>>,
    ) -> CoreView {
        let known = self.defs.contains_key(def);
        CoreView {
            defs: self.defs.insert(
                def,
                CoreDefView {
                    name,
                    kind,
                    path,
                    source_rel_path,
                    is_public: if known {
                        self.defs[def].is_public
                    } else {
                        None
                    },
                    in_test: if known {
                        self.defs[def].in_test
                    } else {
                        None
                    },
                },
            ),
            ..self
        }
    }

    /// The definition is known and stands in one of the files.
    pub open spec fn drops(self, def: u64, changed: Seq<Seq<char>>) -> bool {
        self.defs.contains_key(def) && is_stale(self.defs[def], changed)
    }

    /// The index without the definitions that stand in one of the files.
    pub open spec fn without_paths(self, changed: Seq<Seq<char>>) -> CoreView {
        CoreView {
            defs: self.defs.restrict(self.defs.dom().filter(|d: u64| !self.drops(d, changed))),
            functions: self.functions.restrict(
                self.functions.dom().filter(|d: u64| !self.drops(d, changed)),
            ),
            def_spans: self.def_spans.restrict(
                self.def_spans.dom().filter(|d: u64| !self.drops(d, changed)),
            ),
            spans: self.spans,
        }
    }
}

/// Whether a list holds a text.
pub fn holds_text(items: &Vec<String>, text: &str) -> (r: bool)
    ensures
        r == texts(items@).contains(text@),
{
    let mut i: usize = 0;
    while i < items.len()
        invariant
            i <= items@.len(),
            forall|k: int| 0 <= k < i ==> #[trigger] texts(items@)[k] != text@,
        decreases items.len() - i,
    {
        assert(texts(items@)[i as int] == items@[i as int]@);
        if str_eq(items[i].as_str(), text) {
            return true;
        }
        i += 1;
    }
    false
}

impl CoreLookupIndex {
    /// The maps are in order.
    pub closed spec fn wf(&self) -> bool {
        self.defs.wf() && self.functions.wf() && self.def_spans.wf() && self.spans.wf()
    }

    /// The ids of the definitions, in ascending order.
    pub closed spec fn ids(&self) -> Seq<u64> {
        self.defs.keys()
    }

    /// What the order of the ids means.
    pub proof fn lemma_ids(&self)
        requires
            self.wf(),
        ensures
            ascending(self.ids()),
            forall|k: u64| #[trigger] self@.defs.contains_key(k) <==> self.ids().contains(k),
    {
        self.defs.lemma_keys();
        assert forall|k: u64| self.ids().contains(k) implies #[trigger] self@.defs.contains_key(
            k,
        ) by {
            let i = choose|i: int| 0 <= i < self.ids().len() && self.ids()[i] == k;
            assert(self.defs@.contains_key(self.defs.keys()[i]));
        }
    }

    pub fn new() -> (r: Self)
        ensures
            r.wf(),
            r@ == (CoreView {
                defs: Map::empty(),
                functions: Map::empty(),
                def_spans: Map::empty(),
                spans: Map::empty(),
            }),
    {
        CoreLookupIndex {
            defs: IdMap::new(),
            functions: IdMap::new(),
            def_spans: IdMap::new(),
            spans: IdMap::new(),
        }
    }

    /// Tells a definition; what was said of its visibility and of tests stays.
    pub fn record_def(
        &mut self,
        def_id: DefId,
        name: &str,
        kind: DefKind,
        path: &str,
        source_rel_path: Option<&str>,
    )
        requires
            old(self).wf(),
        ensures
            final(self).wf(),
            final(self)@ == old(self)@.with_def(
                def_id@,
                name@,
                kind,
                path@,
                opt_str(source_rel_path),
            ),
    {
        let mut metadata = CoreDefMetadata::new(name, kind, path, source_rel_path);
        match self.defs.get(def_id.stable_id().as_u64()) {
            Some(known) => {
                metadata.is_public = known.is_public;
                metadata.in_test = known.in_test;
            },
            None => {},
        }
        self.defs.insert(def_id.stable_id().as_u64(), metadata);
    }

    /// Tells whether a known definition is public.
    pub fn mark_public(&mut self, def_id: DefId, public: bool)
        requires
            old(self).wf(),
        ensures
            final(self).wf(),
            final(self)@ == if old(self)@.defs.contains_key(def_id@) {
                CoreView {
                    defs: old(self)@.defs.insert(
                        def_id@,
                        CoreDefView { is_public: Some(public), ..old(self)@.defs[def_id@] },
                    ),
                    ..old(self)@
                }
            } else {
                old(self)@
            },
    {
        let raw = def_id.stable_id().as_u64();
        match self.copy_of(raw) {
            Some(known) => {
                let mut metadata = known;
                metadata.is_public = Some(public);
                self.defs.insert(raw, metadata);
            },
            None => {},
        }
    }

    /// Tells whether a known definition is test code.
    pub fn mark_in_test(&mut self, def_id: DefId, in_test: bool)
        requires
            old(self).wf(),
        ensures
            final(self).wf(),
            final(self)@ == if old(self)@.defs.contains_key(def_id@) {
                CoreView {
                    defs: old(self)@.defs.insert(
                        def_id@,
                        CoreDefView { in_test: Some(in_test), ..old(self)@.defs[def_id@] },
                    ),
                    ..old(self)@
                }
            } else {
                old(self)@
            },
    {
        let raw = def_id.stable_id().as_u64();
        match self.copy_of(raw) {
            Some(known) => {
                let mut metadata = known;
                metadata.in_test = Some(in_test);
                self.defs.insert(raw, metadata);
            },
            None => {},
        }
    }

    /// A copy of what is known of a definition.
    fn copy_of(&self, raw: u64) -> (r: Option<CoreDefMetadata>)
        requires
            self.wf(),
        ensures
            match r {
                Some(metadata) => self@.defs.contains_key(raw) && metadata@ == self@.defs[raw],
                None => !self@.defs.contains_key(raw),
            },
    {
        match self.defs.get(raw) {
            Some(known) => {
                let source = match &known.source_rel_path {
                    Some(source) => Some(source.as_str()),
                    None => None,
                };
                let mut metadata = CoreDefMetadata::new(
                    known.name.as_str(),
                    known.kind,
                    known.path.as_str(),
                    source,
                );
                metadata.is_public = known.is_public;
                metadata.in_test = known.in_test;
                Some(metadata)
            },
            None => None,
        }
    }

    /// Tells the key of the function that a definition is.
    pub fn record_function(&mut self, def_id: DefId, function: u64)
        requires
            old(self).wf(),
        ensures
            final(self).wf(),
            final(self)@ == (CoreView {
                functions: old(self)@.functions.insert(def_id@, function),
                ..old(self)@
            }),
    {
        self.functions.insert(def_id.stable_id().as_u64(), function);
    }

    /// Tells where a definition stands.
    pub fn record_span(&mut self, def_id: DefId, span: SpanId, key: SpanKey)
        requires
            old(self).wf(),
        ensures
            final(self).wf(),
            final(self)@ == (CoreView {
                def_spans: old(self)@.def_spans.insert(def_id@, span@),
                spans: old(self)@.spans.insert(span@, key@),
                ..old(self)@
            }),
    {
        self.def_spans.insert(def_id.stable_id().as_u64(), span);
        self.spans.insert(span.stable_id().as_u64(), key);
    }

    pub fn def_name(&self, def_id: DefId) -> (r: Option<&str>)
        requires
            self.wf(),
        ensures
            match r {
                Some(name) => self@.defs.contains_key(def_id@) && name@
                    == self@.defs[def_id@].name,
                None => !self@.defs.contains_key(def_id@),
            },
    {
        match self.defs.get(def_id.stable_id().as_u64()) {
            Some(metadata) => Some(metadata.name.as_str()),
            None => None,
        }
    }

    pub fn def_kind(&self, def_id: DefId) -> (r: Option<DefKind>)
        requires
            self.wf(),
        ensures
            match r {
                Some(kind) => self@.defs.contains_key(def_id@) && kind == self@.defs[def_id@].kind,
                None => !self@.defs.contains_key(def_id@),
            },
    {
        match self.defs.get(def_id.stable_id().as_u64()) {
            Some(metadata) => Some(metadata.kind),
            None => None,
        }
    }

    pub fn def_path(&self, def_id: DefId) -> (r: Option<&str>)
        requires
            self.wf(),
        ensures
            match r {
                Some(path) => self@.defs.contains_key(def_id@) && path@
                    == self@.defs[def_id@].path,
                None => !self@.defs.contains_key(def_id@),
            },
    {
        match self.defs.get(def_id.stable_id().as_u64()) {
            Some(metadata) => Some(metadata.path.as_str()),
            None => None,
        }
    }

    /// Whether a known definition is public, where that has been told.
    pub fn is_public(&self, def_id: DefId) -> (r: Option<bool>)
        requires
            self.wf(),
        ensures
            r == if self@.defs.contains_key(def_id@) {
                self@.defs[def_id@].is_public
            } else {
                None
            },
    {
        match self.defs.get(def_id.stable_id().as_u64()) {
            Some(metadata) => metadata.is_public,
            None => None,
        }
    }

    /// Whether a known definition is test code, where that has been told.
    pub fn in_test(&self, def_id: DefId) -> (r: Option<bool>)
        requires
            self.wf(),
        ensures
            r == if self@.defs.contains_key(def_id@) {
                self@.defs[def_id@].in_test
            } else {
                None
            },
    {
        match self.defs.get(def_id.stable_id().as_u64()) {
            Some(metadata) => metadata.in_test,
            None => None,
        }
    }

    pub fn contains_def(&self, def_id: DefId) -> (r: bool)
        requires
            self.wf(),
        ensures
            r == self@.defs.contains_key(def_id@),
    {
        self.defs.contains(def_id.stable_id().as_u64())
    }

    /// How many definitions are known.
    pub fn len(&self) -> (r: usize)
        ensures
            r == self.ids().len(),
    {
        self.defs.len()
    }

    /// The definition at a place of the order of ids.
    pub fn def_id_at(&self, i: usize) -> (r: DefId)
        requires
            self.wf(),
            i < self.ids().len(),
        ensures
            r@ == self.ids()[i as int],
            self@.defs.contains_key(r@),
    {
        DefId::new(crate::ir::StableId::new(self.defs.key_at(i)))
    }

    /// The key of the function that a definition is.
    pub fn function(&self, def_id: DefId) -> (r: Option<u64>)
        requires
            self.wf(),
        ensures
            match r {
                Some(function) => self@.functions.contains_key(def_id@) && function
                    == self@.functions[def_id@],
                None => !self@.functions.contains_key(def_id@),
            },
    {
        match self.functions.get(def_id.stable_id().as_u64()) {
            Some(function) => Some(*function),
            None => None,
        }
    }

    /// The span of a definition.
    pub fn def_span(&self, def_id: DefId) -> (r: Option<SpanId>)
        requires
            self.wf(),
        ensures
            match r {
                Some(span) => self@.def_spans.contains_key(def_id@) && span@
                    == self@.def_spans[def_id@],
                None => !self@.def_spans.contains_key(def_id@),
            },
    {
        match self.def_spans.get(def_id.stable_id().as_u64()) {
            Some(span) => Some(*span),
            None => None,
        }
    }

    /// The key of a span.
    pub fn span_key(&self, span: SpanId) -> (r: Option<&SpanKey>)
        requires
            self.wf(),
        ensures
            match r {
                Some(key) => self@.spans.contains_key(span@) && key@ == self@.spans[span@],
                None => !self@.spans.contains_key(span@),
            },
    {
        self.spans.get(span.stable_id().as_u64())
    }

    /// Forgets the definitions that stand in one of the changed files.
    pub fn invalidate_paths(&mut self, changed_rel_paths: &Vec<String>)
        requires
            old(self).wf(),
        ensures
            final(self).wf(),
            final(self)@ == old(self)@.without_paths(texts(changed_rel_paths@)),
    {
        let ghost before = self@;
        let ghost changed = texts(changed_rel_paths@);
        let mut invalid: Vec<u64> = Vec::new();
        let mut i: usize = 0;
        let ghost ids = self.ids();
        proof {
            self.lemma_ids();
        }
        while i < self.defs.len()
            invariant
                self.wf(),
                before == self@,
                changed == texts(changed_rel_paths@),
                ids == self.ids(),
                ids.len() == self.defs.keys().len(),
                i <= ids.len(),
                forall|k: int|
                    0 <= k < i ==> (before.drops(#[trigger] ids[k], changed)
                        ==> invalid@.contains(ids[k])),
                forall|k: int|
                    0 <= k < invalid@.len() ==> before.drops(#[trigger] invalid@[k], changed),
            decreases ids.len() - i,
        {
            let key = self.defs.key_at(i);
            let metadata = self.defs.value_at(i);
            assert(ids[i as int] == key);
            let stale = match &metadata.source_rel_path {
                Some(path) => holds_text(changed_rel_paths, path.as_str()),
                None => false,
            };
            assert(stale == before.drops(key, changed));
            let ghost held = invalid@;
            if stale {
                invalid.push(key);
            }
            proof {
                assert forall|k: int| 0 <= k < i + 1 && before.drops(#[trigger] ids[k], changed)
                    implies invalid@.contains(ids[k]) by {
                    if k < i {
                        assert(held.contains(ids[k]));
                        let m = choose|m: int| 0 <= m < held.len() && held[m] == ids[k];
                        assert(invalid@[m] == ids[k]);
                    } else {
                        assert(invalid@[invalid@.len() - 1] == key);
                    }
                }
            }
            i += 1;
        }
        proof {
            assert forall|d: u64| #[trigger] before.drops(d, changed) <==> invalid@.contains(
                d,
            ) by {
                if before.drops(d, changed) {
                    assert(self@.defs.contains_key(d));
                    let k = choose|k: int| 0 <= k < ids.len() && ids[k] == d;
                    assert(invalid@.contains(ids[k]));
                }
                if invalid@.contains(d) {
                    let m = choose|m: int| 0 <= m < invalid@.len() && invalid@[m] == d;
                    assert(before.drops(invalid@[m], changed));
                }
            }
        }
        let mut j: usize = 0;
        proof {
            assert(before.defs =~= before.defs.restrict(
                before.defs.dom().filter(|d: u64| !invalid@.take(0).contains(d)),
            ));
            assert(before.functions =~= before.functions.restrict(
                before.functions.dom().filter(|d: u64| !invalid@.take(0).contains(d)),
            ));
            assert(before.def_spans =~= before.def_spans.restrict(
                before.def_spans.dom().filter(|d: u64| !invalid@.take(0).contains(d)),
            ));
        }
        while j < invalid.len()
            invariant
                self.wf(),
                j <= invalid@.len(),
                self@.spans == before.spans,
                self@.defs == before.defs.restrict(
                    before.defs.dom().filter(|d: u64| !invalid@.take(j as int).contains(d)),
                ),
                self@.functions == before.functions.restrict(
                    before.functions.dom().filter(|d: u64| !invalid@.take(j as int).contains(d)),
                ),
                self@.def_spans == before.def_spans.restrict(
                    before.def_spans.dom().filter(|d: u64| !invalid@.take(j as int).contains(d)),
                ),
            decreases invalid.len() - j,
        {
            let key = invalid[j];
            self.defs.remove(key);
            self.functions.remove(key);
            self.def_spans.remove(key);
            proof {
                let shorter = invalid@.take(j as int);
                let longer = invalid@.take(j + 1);
                assert forall|d: u64| longer.contains(d) <==> (shorter.contains(d) || d == key) by {
                    assert(longer[j as int] == key);
                    if shorter.contains(d) {
                        let m = choose|m: int| 0 <= m < shorter.len() && shorter[m] == d;
                        assert(longer[m] == d);
                    }
                    if longer.contains(d) && d != key {
                        let m = choose|m: int| 0 <= m < longer.len() && longer[m] == d;
                        assert(shorter[m] == d);
                    }
                }
                assert(self@.defs =~= before.defs.restrict(
                    before.defs.dom().filter(|d: u64| !longer.contains(d)),
                ));
                assert(self@.functions =~= before.functions.restrict(
                    before.functions.dom().filter(|d: u64| !longer.contains(d)),
                ));
                assert(self@.def_spans =~= before.def_spans.restrict(
                    before.def_spans.dom().filter(|d: u64| !longer.contains(d)),
                ));
            }
            j += 1;
        }
        proof {
            assert(invalid@.take(j as int) =~= invalid@);
            let want = before.without_paths(changed);
            assert(self@.defs =~= want.defs);
            assert(self@.functions =~= want.functions);
            assert(self@.def_spans =~= want.def_spans);
        }
    }
}

/// After files have changed no known definition stands in one of them, and what
/// is known of the others has not changed.
pub proof fn law_invalidation_is_exact(index: CoreView, changed: Seq<Seq<char>>, def: u64)
    ensures
        index.without_paths(changed).defs.contains_key(def) <==> index.defs.contains_key(def)
            && !is_stale(index.defs[def], changed),
        index.without_paths(changed).defs.contains_key(def) ==> index.without_paths(
            changed,
        ).defs[def] == index.defs[def],
        index.drops(def, changed) ==> !index.without_paths(changed).functions.contains_key(def),
{
}

} // verus!
