//! Building a snapshot: definitions and types.

use crate::ra::file_id::EditionedFileId;
use crate::host::{derived_id, DefId, SpanId, TypeRefId};
use crate::ir::{stable_id_text, StableId};
use crate::ra::host::{opt_def, DefRecordView, DeterministicRaHost, HostView};
use crate::ra::kinds::{DefKind, Mutability};
use crate::ra::seed_types::with_type;
use crate::ra::shapes::{
    arg_views, type_ids, GenericArg, GenericArgView, ShapeView, TypeShape,
};
use crate::ra::snapshot_text::{
    crate_path, encode_fingerprint_parts, encoded_parts, normalize_canonical_path,
};
use crate::ra::source::{
    indexable, key_in_text, place_text, place_to_text, span_id_of,
};
use crate::ra::store::{with_row, IdMap, Relation, Row};
use crate::table::Table;
use crate::text::{cat2, cat3, owned, str_eq, texts};
use vstd::prelude::*;

verus! {

/// A place in the sources.
pub struct SourceLoc {
    /// The file, in the edition of its crate.
    pub file_id: EditionedFileId,
    pub rel_path: String,
    /// The text of the file.
    pub text: String,
    pub start: u32,
    pub end: u32,
}

/// What the database says of a definition.
pub struct ModuleFacts {
    /// What it is; nothing for builtin types.
    pub kind: Option<DefKind>,
    /// Where it stands, if in a file of the snapshot.
    pub loc: Option<SourceLoc>,
    pub name: Option<String>,
    pub canonical: Option<String>,
    pub is_public: bool,
    /// It is a test or stands in a module of tests.
    pub in_test: bool,
}

/// A type, as the database resolves it.
pub enum TyFacts {
    Unknown,
    Reference { mutability: Mutability, inner: Box<TyFacts> },
    RawPtr(Box<TyFacts>),
    Tuple(Vec<TyFacts>),
    Slice(Box<TyFacts>),
    Param(String),
    Adt { def: ModuleFacts, args: Vec<TyFacts> },
    Dyn { def: ModuleFacts, args: Vec<TyFacts> },
    Builtin(String),
    Other,
}

/// The place's file can be indexed.
pub open spec fn loc_indexable(loc: Option<SourceLoc>) -> bool {
    match loc {
        Some(loc) => indexable(loc.text@),
        None => true,
    }
}

/// The files of the definitions in a type can be indexed.
pub open spec fn ty_indexable(ty: TyFacts) -> bool
    decreases ty,
{
    match ty {
        TyFacts::Reference { inner, .. } => ty_indexable(*inner),
        TyFacts::RawPtr(inner) => ty_indexable(*inner),
        TyFacts::Slice(inner) => ty_indexable(*inner),
        TyFacts::Tuple(items) => forall|i: int|
            0 <= i < items@.len() ==> ty_indexable(#[trigger] items@[i]),
        TyFacts::Adt { def, args } => loc_indexable(def.loc) && forall|i: int|
            0 <= i < args@.len() ==> ty_indexable(#[trigger] args@[i]),
        TyFacts::Dyn { def, args } => loc_indexable(def.loc) && forall|i: int|
            0 <= i < args@.len() ==> ty_indexable(#[trigger] args@[i]),
        _ => true,
    }
}

/// A name that a definition has.
#[derive(Debug, Clone)]
pub struct NameRow {
    pub name: String,
    pub def: DefId,
}

/// What a name row says.
pub struct NameView {
    pub name: Seq<char>,
    pub def: u64,
}

impl View for NameRow {
    type V = NameView;

    open spec fn view(&self) -> NameView {
        NameView { name: self.name@, def: self.def@ }
    }
}

impl Row for NameRow {
    fn same(&self, other: &Self) -> (r: bool) {
        str_eq(self.name.as_str(), other.name.as_str()) && crate::ra::rows::same_def(
            self.def,
            other.def,
        )
    }
}

/// A snapshot in the making.
pub struct SnapshotBuilder {
    pub host: DeterministicRaHost,
    pub(crate) by_path: Table<String, u64>,
    pub(crate) names: Relation<NameRow>,
    pub(crate) paths: IdMap<String>,
    pub(crate) types: Table<String, u64>,
}

/// What a snapshot in the making holds.
#[verifier::ext_equal]
pub struct Snapshot {
    pub host: HostView,
    /// Definitions by path.
    pub by_path: Map<Seq<char>, u64>,
    /// The names that definitions have.
    pub names: Seq<NameView>,
    /// Paths by definition.
    pub paths: Map<u64, Seq<char>>,
    /// Types by key.
    pub types: Map<Seq<char>, u64>,
}

impl View for SnapshotBuilder {
    type V = Snapshot;

    closed spec fn view(&self) -> Snapshot {
        Snapshot {
            host: self.host@,
            by_path: self.by_path.map(),
            names: self.names@,
            paths: self.paths@,
            types: self.types.map(),
        }
    }
}

/// The definition is the only one with the name.
pub open spec fn is_sole(names: Seq<NameView>, name: Seq<char>, def: u64) -> bool {
    &&& names.contains(NameView { name, def })
    &&& forall|i: int| 0 <= i < names.len() && (#[trigger] names[i]).name == name ==> names[i].def
        == def
}

/// The only definition with the name.
pub open spec fn sole(names: Seq<NameView>, name: Seq<char>) -> Option<u64> {
    if exists|def: u64| #[trigger] is_sole(names, name, def) {
        Some(choose|def: u64| #[trigger] is_sole(names, name, def))
    } else {
        None
    }
}

/// The owner of a type, as it stands in keys.
pub open spec fn owner_key(owner: Option<u64>) -> Seq<char> {
    match owner {
        Some(owner) => stable_id_text(owner),
        None => "none"@,
    }
}

/// The path of a definition in a snapshot.
pub open spec fn snapshot_def_path(facts: ModuleFacts) -> Seq<char> {
    match facts.canonical {
        Some(path) => crate_path(path@),
        None => "crate::"@ + facts.name->0@,
    }
}

/// The id of a definition in a snapshot.
pub open spec fn snapshot_def_id(facts: ModuleFacts) -> u64 {
    let loc = facts.loc->0;
    derived_id(
        "def"@,
        "def:"@ + facts.kind->0.name() + ":"@ + snapshot_def_path(facts) + ":"@ + place_text(
            loc.rel_path@,
            loc.start,
            loc.end,
        ),
    )
}

/// The snapshot with the span of a place.
pub open spec fn with_loc(snapshot: Snapshot, loc: SourceLoc) -> Snapshot {
    match key_in_text(loc.rel_path@, loc.text@, loc.start, loc.end) {
        Some(key) => Snapshot {
            host: HostView {
                spans: snapshot.host.spans.insert(
                    span_id_of(loc.file_id, loc.start, loc.end),
                    key,
                ),
                ..snapshot.host
            },
            ..snapshot
        },
        None => snapshot,
    }
}

/// The place is one of the sources.
pub open spec fn loc_valid(loc: SourceLoc) -> bool {
    key_in_text(loc.rel_path@, loc.text@, loc.start, loc.end) is Some
}

/// The span of a place.
pub open spec fn loc_span(loc: SourceLoc) -> u64 {
    span_id_of(loc.file_id, loc.start, loc.end)
}

/// The snapshot once a definition has been told, and its id: definitions that
/// stand nowhere in the snapshot's files get none.
pub open spec fn registered(snapshot: Snapshot, facts: ModuleFacts, in_test: bool) -> (
    Snapshot,
    Option<u64>,
) {
    match (facts.kind, facts.loc) {
        (Some(kind), Some(loc)) => if !loc_valid(loc) {
            (snapshot, None)
        } else {
            let placed = with_loc(snapshot, loc);
            match facts.name {
                Some(name) => {
                    let path = snapshot_def_path(facts);
                    let def = snapshot_def_id(facts);
                    (
                        Snapshot {
                            host: HostView {
                                defs: placed.host.defs.insert(
                                    def,
                                    DefRecordView { name: name@, kind, span: loc_span(loc), path },
                                ),
                                public: placed.host.public.insert(def, facts.is_public),
                                in_test: placed.host.in_test.insert(
                                    def,
                                    in_test || facts.in_test,
                                ),
                                ..placed.host
                            },
                            by_path: placed.by_path.insert(path, def),
                            names: with_row(placed.names, NameView { name: name@, def }),
                            paths: placed.paths.insert(def, path),
                            types: placed.types,
                        },
                        Some(def),
                    )
                },
                None => (placed, None),
            }
        },
        _ => (snapshot, None),
    }
}

/// The path by which a type's key names its head, once the head is told.
pub open spec fn head_path(snapshot: Snapshot, def: Option<u64>, facts: ModuleFacts) -> Seq<char> {
    match def {
        Some(def) => if snapshot.paths.contains_key(def) {
            snapshot.paths[def]
        } else {
            "crate::"@ + name_or_empty(facts)
        },
        None => "crate::"@ + name_or_empty(facts),
    }
}

/// The name of a definition.
pub open spec fn name_or_empty(facts: ModuleFacts) -> Seq<char> {
    match facts.name {
        Some(name) => name@,
        None => ""@,
    }
}

/// A head and its arguments in a type's key.
pub open spec fn applied(label: Seq<char>, path: Seq<char>, args: Seq<Seq<char>>) -> Seq<char> {
    if args.len() == 0 {
        label + path
    } else {
        label + path + "<"@ + encoded_parts(args) + ">"@
    }
}

/// What a type is told apart by, and the snapshot once its heads are told.
pub open spec fn fingerprint(snapshot: Snapshot, ty: TyFacts, owner: Option<u64>) -> (
    Snapshot,
    Seq<char>,
)
    decreases ty, 0nat,
{
    match ty {
        TyFacts::Unknown => (snapshot, "unknown"@),
        TyFacts::Reference { mutability, inner } => {
            let (told, text) = fingerprint(snapshot, *inner, owner);
            (told, "ref:"@ + mutability.name() + ":"@ + text)
        },
        TyFacts::RawPtr(inner) => {
            let (told, text) = fingerprint(snapshot, *inner, owner);
            (told, "ptr:"@ + text)
        },
        TyFacts::Tuple(items) => {
            let (told, parts) = fingerprints(snapshot, items, owner, items@.len());
            (told, "tuple:"@ + encoded_parts(parts))
        },
        TyFacts::Slice(inner) => {
            let (told, text) = fingerprint(snapshot, *inner, owner);
            (told, "slice:"@ + text)
        },
        TyFacts::Param(name) => (snapshot, "param:"@ + name@),
        TyFacts::Adt { def, args } => {
            let (known, id) = registered(snapshot, def, false);
            let (told, parts) = fingerprints(known, args, owner, args@.len());
            (told, applied("app:"@, head_path(known, id, def), parts))
        },
        TyFacts::Dyn { def, args } => {
            let (known, id) = registered(snapshot, def, false);
            let (told, parts) = fingerprints(known, args, owner, args@.len());
            (told, applied("dyn:"@, head_path(known, id, def), parts))
        },
        TyFacts::Builtin(name) => (snapshot, "prim:"@ + name@),
        TyFacts::Other => (snapshot, "opaque:"@ + owner_key(owner)),
    }
}

/// What the first `count` types are told apart by.
pub open spec fn fingerprints(
    snapshot: Snapshot,
    types: Vec<TyFacts>,
    owner: Option<u64>,
    count: nat,
) -> (Snapshot, Seq<Seq<char>>)
    decreases types, count,
{
    if count == 0 || count > types@.len() {
        (snapshot, Seq::empty())
    } else {
        let (known, parts) = fingerprints(snapshot, types, owner, (count - 1) as nat);
        let (told, text) = fingerprint(known, types[count - 1], owner);
        (told, parts.push(text))
    }
}

/// The key of a type with an owner.
pub open spec fn type_key(owner: Option<u64>, text: Seq<char>) -> Seq<char> {
    owner_key(owner) + ":"@ + text
}

/// The snapshot once a type has been told, and its id.
pub open spec fn interned(snapshot: Snapshot, ty: TyFacts, owner: Option<u64>) -> (Snapshot, u64)
    decreases ty, 2nat,
{
    let (known, text) = fingerprint(snapshot, ty, owner);
    let key = type_key(owner, text);
    if known.types.contains_key(key) {
        (known, known.types[key])
    } else {
        let id = derived_id("typeref"@, key);
        let (told, shape) = shaped(known, ty, owner);
        (
            Snapshot {
                host: with_type(told.host, id, shape),
                types: told.types.insert(key, id),
                ..told
            },
            id,
        )
    }
}

/// The snapshot once the first `count` types have been told, and their ids.
pub open spec fn interned_all(
    snapshot: Snapshot,
    types: Vec<TyFacts>,
    owner: Option<u64>,
    count: nat,
) -> (Snapshot, Seq<u64>)
    decreases types, count,
{
    if count == 0 || count > types@.len() {
        (snapshot, Seq::empty())
    } else {
        let (known, ids) = interned_all(snapshot, types, owner, (count - 1) as nat);
        let (told, id) = interned(known, types[count - 1], owner);
        (told, ids.push(id))
    }
}

/// The id of the definition of a type's head that stands nowhere in the
/// snapshot's files.
pub open spec fn outer_head(facts: ModuleFacts, owner: Option<u64>, label: Seq<char>) -> u64 {
    let path = match facts.canonical {
        Some(path) => path@,
        None => match facts.name {
            Some(name) => "crate::"@ + name@,
            None => "unknown"@,
        },
    };
    derived_id("def"@, label + ":"@ + path + ":"@ + owner_key(owner))
}

/// The snapshot once the head of a type is told, and its definition.
pub open spec fn head_def(
    snapshot: Snapshot,
    facts: ModuleFacts,
    owner: Option<u64>,
    label: Seq<char>,
) -> (Snapshot, u64) {
    let (told, id) = registered(snapshot, facts, false);
    match id {
        Some(def) => (told, def),
        None => (told, outer_head(facts, owner, label)),
    }
}

/// The id of a type parameter.
pub open spec fn param_def(name: Seq<char>, owner: Option<u64>) -> u64 {
    derived_id("def"@, "type_param:"@ + name + ":"@ + owner_key(owner))
}

/// Types as generic arguments.
pub open spec fn as_args(ids: Seq<u64>) -> Seq<GenericArgView> {
    Seq::new(ids.len(), |i: int| GenericArgView::Type(ids[i]))
}

/// The snapshot once the parts of a type are told, and how the type is built.
pub open spec fn shaped(snapshot: Snapshot, ty: TyFacts, owner: Option<u64>) -> (
    Snapshot,
    ShapeView,
)
    decreases ty, 1nat,
{
    match ty {
        TyFacts::Unknown => (snapshot, ShapeView::Unknown),
        TyFacts::Reference { mutability, inner } => {
            let (told, id) = interned(snapshot, *inner, owner);
            (told, ShapeView::Ref { mutability, inner: id })
        },
        TyFacts::RawPtr(inner) => {
            let (told, id) = interned(snapshot, *inner, owner);
            (told, ShapeView::Ptr { mutability: Mutability::Shared, inner: id })
        },
        TyFacts::Tuple(items) => {
            let (told, ids) = interned_all(snapshot, items, owner, items@.len());
            (told, ShapeView::Tuple(ids))
        },
        TyFacts::Slice(inner) => {
            let (told, id) = interned(snapshot, *inner, owner);
            (told, ShapeView::Slice(id))
        },
        TyFacts::Param(name) => (snapshot, ShapeView::Param(param_def(name@, owner))),
        TyFacts::Adt { def, args } => {
            let (known, head) = head_def(snapshot, def, owner, "type_head:adt"@);
            let (told, ids) = interned_all(known, args, owner, args@.len());
            (told, ShapeView::App { head, args: as_args(ids) })
        },
        TyFacts::Dyn { def, args } => {
            let (known, head) = head_def(snapshot, def, owner, "type_head:dyn_trait"@);
            let (told, ids) = interned_all(known, args, owner, args@.len());
            (told, ShapeView::App { head, args: as_args(ids) })
        },
        TyFacts::Builtin(name) => (snapshot, ShapeView::Prim(name@)),
        TyFacts::Other => (snapshot, ShapeView::Unknown),
    }
}

/// The snapshot once the head of a type is told, and its definition.
pub open spec fn type_head(snapshot: Snapshot, ty: TyFacts, owner: Option<u64>) -> (
    Snapshot,
    u64,
) {
    match ty {
        TyFacts::Adt { def, .. } => head_def(snapshot, def, owner, "type_head:adt"@),
        TyFacts::Dyn { def, .. } => head_def(snapshot, def, owner, "type_head:dyn_trait"@),
        TyFacts::Param(name) => (snapshot, param_def(name@, owner)),
        _ => (snapshot, derived_id("def"@, "type_head:opaque:"@ + owner_key(owner))),
    }
}

/// The owner of a type, as it stands in keys.
fn owner_text(owner: Option<DefId>) -> (r: String)
    ensures
        r@ == owner_key(opt_def(owner)),
{
    match owner {
        Some(owner) => owner.stable_id().to_text(),
        None => owned("none"),
    }
}

impl SnapshotBuilder {
    /// The maps are in order.
    pub closed spec fn wf(&self) -> bool {
        self.host.wf() && self.by_path.wf() && self.paths.wf() && self.types.wf()
    }

    /// A snapshot of nothing.
    pub fn new() -> (r: Self)
        ensures
            r.wf(),
            r@ == (Snapshot {
                host: HostView::fresh(),
                by_path: Map::empty(),
                names: Seq::empty(),
                paths: Map::empty(),
                types: Map::empty(),
            }),
    {
        SnapshotBuilder {
            host: DeterministicRaHost::new(),
            by_path: Table::new(),
            names: Relation::new(),
            paths: IdMap::new(),
            types: Table::new(),
        }
    }

    /// The index that has been built.
    pub fn finish(self) -> (r: DeterministicRaHost)
        requires
            self.wf(),
        ensures
            r.wf(),
            r@ == self@.host,
    {
        self.host
    }

    /// What the fields say of the whole.
    pub(crate) proof fn lemma_parts(&self)
        ensures
            self@.host == self.host@,
            self@.by_path == self.by_path.map(),
            self@.names == self.names@,
            self@.paths == self.paths@,
            self@.types == self.types.map(),
            self.wf() == (self.host.wf() && self.by_path.wf() && self.paths.wf()
                && self.types.wf()),
    {
    }

    /// Tells the span of a place.
    pub(crate) fn intern_loc(&mut self, loc: &SourceLoc) -> (r: Option<SpanId>)
        requires
            old(self).wf(),
            indexable(loc.text@),
        ensures
            final(self).wf(),
            final(self)@ == with_loc(old(self)@, *loc),
            match r {
                Some(span) => loc_valid(*loc) && span@ == loc_span(*loc),
                None => !loc_valid(*loc),
            },
    {
        match self.host.intern_span_from_text(
            loc.file_id,
            loc.rel_path.as_str(),
            loc.text.as_str(),
            loc.start,
            loc.end,
        ) {
            Ok(span) => Some(span),
            Err(_) => None,
        }
    }

    /// Tells a definition.
    pub fn register_module_def(&mut self, facts: &ModuleFacts, in_test: bool) -> (r: Option<DefId>)
        requires
            old(self).wf(),
            loc_indexable(facts.loc),
        ensures
            final(self).wf(),
            (final(self)@, opt_def(r)) == registered(old(self)@, *facts, in_test),
    {
        match (facts.kind, &facts.loc) {
            (Some(kind), Some(loc)) => {
                let span = match self.intern_loc(loc) {
                    Some(span) => span,
                    None => {
                        return None;
                    },
                };
                let name = match &facts.name {
                    Some(name) => name.as_str(),
                    None => {
                        return None;
                    },
                };
                let path = match &facts.canonical {
                    Some(path) => normalize_canonical_path(path.as_str()),
                    None => cat2("crate::", name),
                };
                let mut token = cat2("def:", kind.variant_name());
                token.append(":");
                token.append(path.as_str());
                token.append(":");
                token.append(
                    place_to_text(loc.rel_path.as_str(), loc.start, loc.end).as_str(),
                );
                let def = self.host.intern_def_from_token(token.as_str());
                let raw = def.stable_id().as_u64();
                self.host.insert_def(def, name, kind, span, path.as_str());
                self.by_path.insert(owned(path.as_str()), raw);
                self.names.insert(NameRow { name: owned(name), def });
                self.paths.insert(raw, owned(path.as_str()));
                self.host.mark_public(def, facts.is_public);
                self.host.mark_in_test(def, in_test || facts.in_test);
                Some(def)
            },
            _ => None,
        }
    }

    /// The path by which a type's key names its head.
    fn head_path_text(&self, def: Option<DefId>, facts: &ModuleFacts) -> (r: String)
        requires
            self.wf(),
        ensures
            r@ == head_path(self@, opt_def(def), *facts),
    {
        let name = match &facts.name {
            Some(name) => name.as_str(),
            None => "",
        };
        match def {
            Some(def) => match self.paths.get(def.stable_id().as_u64()) {
                Some(path) => owned(path.as_str()),
                None => cat2("crate::", name),
            },
            None => cat2("crate::", name),
        }
    }

    /// What a type is told apart by.
    pub fn type_fingerprint(&mut self, ty: &TyFacts, owner: Option<DefId>) -> (r: String)
        requires
            old(self).wf(),
            ty_indexable(*ty),
        ensures
            final(self).wf(),
            (final(self)@, r@) == fingerprint(old(self)@, *ty, opt_def(owner)),
        decreases ty, 0nat,
    {
        match ty {
            TyFacts::Unknown => owned("unknown"),
            TyFacts::Reference { mutability, inner } => {
                let text = self.type_fingerprint(inner, owner);
                let mut out = cat2("ref:", mutability.variant_name());
                out.append(":");
                out.append(text.as_str());
                out
            },
            TyFacts::RawPtr(inner) => {
                let text = self.type_fingerprint(inner, owner);
                cat2("ptr:", text.as_str())
            },
            TyFacts::Tuple(items) => {
                let parts = self.type_fingerprints(items, owner);
                cat2("tuple:", encode_fingerprint_parts(&parts).as_str())
            },
            TyFacts::Slice(inner) => {
                let text = self.type_fingerprint(inner, owner);
                cat2("slice:", text.as_str())
            },
            TyFacts::Param(name) => cat2("param:", name.as_str()),
            TyFacts::Adt { def, args } => {
                let id = self.register_module_def(def, false);
                let path = self.head_path_text(id, def);
                let parts = self.type_fingerprints(args, owner);
                applied_text("app:", path.as_str(), &parts)
            },
            TyFacts::Dyn { def, args } => {
                let id = self.register_module_def(def, false);
                let path = self.head_path_text(id, def);
                let parts = self.type_fingerprints(args, owner);
                applied_text("dyn:", path.as_str(), &parts)
            },
            TyFacts::Builtin(name) => cat2("prim:", name.as_str()),
            TyFacts::Other => cat2("opaque:", owner_text(owner).as_str()),
        }
    }

    /// What types are told apart by.
    fn type_fingerprints(&mut self, types: &Vec<TyFacts>, owner: Option<DefId>) -> (r: Vec<String>)
        requires
            old(self).wf(),
            forall|i: int| 0 <= i < types@.len() ==> ty_indexable(#[trigger] types@[i]),
        ensures
            final(self).wf(),
            (final(self)@, texts(r@)) == fingerprints(
                old(self)@,
                *types,
                opt_def(owner),
                types@.len(),
            ),
        decreases types, 0nat,
    {
        let ghost start = self@;
        let mut out: Vec<String> = Vec::new();
        let mut i: usize = 0;
        assert(texts(out@) =~= Seq::<Seq<char>>::empty());
        while i < types.len()
            invariant
                self.wf(),
                start == old(self)@,
                forall|k: int| 0 <= k < types@.len() ==> ty_indexable(#[trigger] types@[k]),
                i <= types@.len(),
                (self@, texts(out@)) == fingerprints(start, *types, opt_def(owner), i as nat),
            decreases types.len() - i,
        {
            let ghost before = texts(out@);
            assert(decreases_to!(*types => types[i as int]));
            let text = self.type_fingerprint(&types[i], owner);
            let ghost shown = text@;
            out.push(text);
            assert(texts(out@) =~= before.push(shown));
            i += 1;
        }
        out
    }

    /// Tells a type, unless its key is known.
    pub fn intern_type_ref(&mut self, ty: &TyFacts, owner: Option<DefId>) -> (r: TypeRefId)
        requires
            old(self).wf(),
            ty_indexable(*ty),
        ensures
            final(self).wf(),
            (final(self)@, r@) == interned(old(self)@, *ty, opt_def(owner)),
        decreases ty, 2nat,
    {
        let text = self.type_fingerprint(ty, owner);
        let key = cat3(owner_text(owner).as_str(), ":", text.as_str());
        match self.types.get(&key) {
            Some(known) => {
                return TypeRefId::new(StableId::new(*known));
            },
            None => {},
        }
        let id = self.host.intern_typeref_from_token(key.as_str());
        let shape = self.type_shape_from_ty(ty, owner);
        self.host.insert_type(id, shape);
        self.types.insert(key, id.stable_id().as_u64());
        id
    }

    /// Tells types.
    fn intern_type_refs(&mut self, types: &Vec<TyFacts>, owner: Option<DefId>) -> (r: Vec<
        TypeRefId,
    >)
        requires
            old(self).wf(),
            forall|i: int| 0 <= i < types@.len() ==> ty_indexable(#[trigger] types@[i]),
        ensures
            final(self).wf(),
            (final(self)@, type_ids(r@)) == interned_all(
                old(self)@,
                *types,
                opt_def(owner),
                types@.len(),
            ),
        decreases types, 0nat,
    {
        let ghost start = self@;
        let mut out: Vec<TypeRefId> = Vec::new();
        let mut i: usize = 0;
        assert(type_ids(out@) =~= Seq::<u64>::empty());
        while i < types.len()
            invariant
                self.wf(),
                start == old(self)@,
                forall|k: int| 0 <= k < types@.len() ==> ty_indexable(#[trigger] types@[k]),
                i <= types@.len(),
                (self@, type_ids(out@)) == interned_all(start, *types, opt_def(owner), i as nat),
            decreases types.len() - i,
        {
            let ghost before = type_ids(out@);
            assert(decreases_to!(*types => types[i as int]));
            let id = self.intern_type_ref(&types[i], owner);
            out.push(id);
            assert(type_ids(out@) =~= before.push(id@));
            i += 1;
        }
        out
    }

    /// Tells the head of a type.
    fn intern_head(&mut self, facts: &ModuleFacts, owner: Option<DefId>, label: &str) -> (r: DefId)
        requires
            old(self).wf(),
            loc_indexable(facts.loc),
        ensures
            final(self).wf(),
            (final(self)@, r@) == head_def(old(self)@, *facts, opt_def(owner), label@),
    {
        match self.register_module_def(facts, false) {
            Some(def) => def,
            None => self.synthetic_type_head_from_module_def(facts, owner, label),
        }
    }

    /// The id of the definition of a type's head that stands nowhere in the
    /// snapshot's files.
    pub fn synthetic_type_head_from_module_def(
        &self,
        facts: &ModuleFacts,
        owner: Option<DefId>,
        label: &str,
    ) -> (r: DefId)
        ensures
            r@ == outer_head(*facts, opt_def(owner), label@),
    {
        let path = match &facts.canonical {
            Some(path) => owned(path.as_str()),
            None => match &facts.name {
                Some(name) => cat2("crate::", name.as_str()),
                None => owned("unknown"),
            },
        };
        let mut token = cat2(label, ":");
        token.append(path.as_str());
        token.append(":");
        token.append(owner_text(owner).as_str());
        self.host.intern_def_from_token(token.as_str())
    }

    /// The id of a type parameter.
    fn param_of(&self, name: &str, owner: Option<DefId>) -> (r: DefId)
        ensures
            r@ == param_def(name@, opt_def(owner)),
    {
        let mut token = cat2("type_param:", name);
        token.append(":");
        token.append(owner_text(owner).as_str());
        self.host.intern_def_from_token(token.as_str())
    }

    /// Tells the parts of a type, and how the type is built.
    pub fn type_shape_from_ty(&mut self, ty: &TyFacts, owner: Option<DefId>) -> (r: TypeShape)
        requires
            old(self).wf(),
            ty_indexable(*ty),
        ensures
            final(self).wf(),
            (final(self)@, r@) == shaped(old(self)@, *ty, opt_def(owner)),
        decreases ty, 1nat,
    {
        match ty {
            TyFacts::Unknown => TypeShape::Unknown,
            TyFacts::Reference { mutability, inner } => {
                let id = self.intern_type_ref(inner, owner);
                TypeShape::Ref { mutability: *mutability, inner: id }
            },
            TyFacts::RawPtr(inner) => {
                let id = self.intern_type_ref(inner, owner);
                TypeShape::Ptr { mutability: Mutability::Shared, inner: id }
            },
            TyFacts::Tuple(items) => {
                let ids = self.intern_type_refs(items, owner);
                TypeShape::Tuple(ids)
            },
            TyFacts::Slice(inner) => {
                let id = self.intern_type_ref(inner, owner);
                TypeShape::Slice(id)
            },
            TyFacts::Param(name) => {
                let def = self.param_of(name.as_str(), owner);
                TypeShape::Param(def)
            },
            TyFacts::Adt { def, args } => {
                let head = self.intern_head(def, owner, "type_head:adt");
                let ids = self.intern_type_refs(args, owner);
                TypeShape::App { head, args: type_arguments(&ids) }
            },
            TyFacts::Dyn { def, args } => {
                let head = self.intern_head(def, owner, "type_head:dyn_trait");
                let ids = self.intern_type_refs(args, owner);
                TypeShape::App { head, args: type_arguments(&ids) }
            },
            TyFacts::Builtin(name) => TypeShape::Prim(owned(name.as_str())),
            TyFacts::Other => TypeShape::Unknown,
        }
    }

    /// Tells the head of a type.
    pub fn def_from_type_head(&mut self, ty: &TyFacts, owner: Option<DefId>) -> (r: DefId)
        requires
            old(self).wf(),
            ty_indexable(*ty),
        ensures
            final(self).wf(),
            (final(self)@, r@) == type_head(old(self)@, *ty, opt_def(owner)),
    {
        match ty {
            TyFacts::Adt { def, .. } => self.intern_head(def, owner, "type_head:adt"),
            TyFacts::Dyn { def, .. } => self.intern_head(def, owner, "type_head:dyn_trait"),
            TyFacts::Param(name) => self.param_of(name.as_str(), owner),
            _ => {
                let token = cat2("type_head:opaque:", owner_text(owner).as_str());
                self.host.intern_def_from_token(token.as_str())
            },
        }
    }

    /// The only definition with the name.
    pub fn sole_def_named(&self, name: &str) -> (r: Option<DefId>)
        ensures
            opt_def(r) == sole(self@.names, name@),
    {
        let ghost all = self@.names;
        let mut found: Option<DefId> = None;
        let mut i: usize = 0;
        while i < self.names.len()
            invariant
                all == self.names@,
                all == self@.names,
                i <= all.len(),
                match found {
                    Some(def) => (exists|k: int|
                        0 <= k < i && (#[trigger] all[k]).name == name@ && all[k].def == def@)
                        && forall|k: int|
                        0 <= k < i && (#[trigger] all[k]).name == name@ ==> all[k].def == def@,
                    None => forall|k: int| 0 <= k < i ==> (#[trigger] all[k]).name != name@,
                },
            decreases all.len() - i,
        {
            let row = self.names.row(i);
            assert(all[i as int] == row@);
            if str_eq(row.name.as_str(), name) {
                match found {
                    Some(held) => {
                        if !crate::ra::rows::same_def(held, row.def) {
                            proof {
                                let k = choose|k: int|
                                    0 <= k < i && (#[trigger] all[k]).name == name@ && all[k].def
                                        == held@;
                                assert forall|def: u64| !#[trigger] is_sole(all, name@, def) by {
                                    assert(all[k].name == name@ && all[i as int].name == name@);
                                }
                            }
                            return None;
                        }
                    },
                    None => {
                        found = Some(row.def);
                    },
                }
            }
            i += 1;
        }
        proof {
            match found {
                Some(def) => {
                    let k = choose|k: int|
                        0 <= k < all.len() && (#[trigger] all[k]).name == name@ && all[k].def
                            == def@;
                    assert(all[k] == NameView { name: name@, def: def@ });
                    assert(is_sole(all, name@, def@));
                    let other = choose|d: u64| #[trigger] is_sole(all, name@, d);
                    assert(all[k].def == other);
                },
                None => {
                    assert forall|def: u64| !#[trigger] is_sole(all, name@, def) by {
                        if all.contains(NameView { name: name@, def }) {
                            let k = choose|k: int|
                                0 <= k < all.len() && all[k] == NameView { name: name@, def };
                            assert(all[k].name == name@);
                        }
                    }
                },
            }
        }
        found
    }
}

/// A head and its arguments in a type's key.
fn applied_text(label: &str, path: &str, args: &Vec<String>) -> (r: String)
    ensures
        r@ == applied(label@, path@, texts(args@)),
{
    assert(texts(args@).len() == args@.len());
    let mut out = cat2(label, path);
    if args.len() > 0 {
        out.append("<");
        out.append(encode_fingerprint_parts(args).as_str());
        out.append(">");
    }
    out
}

/// Types as generic arguments.
fn type_arguments(ids: &Vec<TypeRefId>) -> (r: Vec<GenericArg>)
    ensures
        arg_views(r@) == as_args(type_ids(ids@)),
{
    let mut out: Vec<GenericArg> = Vec::new();
    let mut i: usize = 0;
    while i < ids.len()
        invariant
            i <= ids@.len(),
            out@.len() == i,
            forall|k: int|
                0 <= k < i ==> (#[trigger] out@[k])@ == GenericArgView::Type(ids@[k]@),
        decreases ids.len() - i,
    {
        out.push(GenericArg::Type(ids[i]));
        i += 1;
    }
    assert(arg_views(out@) =~= as_args(type_ids(ids@)));
    out
}

} // verus!
