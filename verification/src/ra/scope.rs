//! Module scopes, and the names that seeding has met in them.

use crate::ra::file_id::EditionedFileId;
use crate::host::DefId;
use crate::ra::host::opt_def;
use crate::ra::rows::{opt_text, same_def};
use crate::search::{cut, path_split, split_at_each, split_path};
use crate::text::{cat3, joined, join_strings, owned, str_eq, texts};
use vstd::prelude::*;

verus! {

/// The path of a module, segment by segment.
#[derive(Debug, Clone, PartialEq, Eq)]
pub struct ModuleScope {
    segments: Vec<String>,
}

impl View for ModuleScope {
    type V = Seq<Seq<char>>;

    closed spec fn view(&self) -> Seq<Seq<char>> {
        texts(self.segments@)
    }
}

/// The path of a member of a scope.
pub open spec fn qualified(scope: Seq<Seq<char>>, member: Seq<char>) -> Seq<char> {
    if scope.len() == 0 {
        member
    } else {
        joined(scope, "::"@) + "::"@ + member
    }
}

/// What stands before the last segment of a path.
pub open spec fn scope_part(path: Seq<char>) -> Seq<char> {
    match path_split(path) {
        Some((scope, _)) => scope,
        None => Seq::empty(),
    }
}

/// The segments of the scope of a path.
pub open spec fn scope_segments(path: Seq<char>) -> Seq<Seq<char>> {
    if scope_part(path).len() == 0 {
        Seq::empty()
    } else {
        cut(scope_part(path), "::"@)
    }
}

/// A copy of strings.
fn copies(items: &Vec<String>) -> (r: Vec<String>)
    ensures
        texts(r@) == texts(items@),
{
    let mut out: Vec<String> = Vec::new();
    let mut i: usize = 0;
    while i < items.len()
        invariant
            i <= items@.len(),
            out@.len() == i,
            forall|k: int| 0 <= k < i ==> (#[trigger] out@[k])@ == items@[k]@,
        decreases items.len() - i,
    {
        out.push(owned(items[i].as_str()));
        i += 1;
    }
    assert(texts(out@) =~= texts(items@));
    out
}

impl ModuleScope {
    /// The root module of a crate.
    pub fn crate_root() -> (r: Self)
        ensures
            r@ == seq!["crate"@],
    {
        let mut segments: Vec<String> = Vec::new();
        segments.push(owned("crate"));
        assert(texts(segments@) =~= seq!["crate"@]);
        ModuleScope { segments }
    }

    /// The scope that a path's last segment is a member of.
    pub fn from_qualified_path(path: &str) -> (r: Self)
        ensures
            r@ == scope_segments(path@),
    {
        let scope = match split_path(path) {
            Some((scope, _)) => scope,
            None => String::new(),
        };
        proof {
            reveal_strlit("::");
            if path_split(path@) is None {
                assert(scope@ =~= Seq::<char>::empty());
            }
        }
        if str_eq(scope.as_str(), "") {
            proof {
                reveal_strlit("");
            }
            let segments: Vec<String> = Vec::new();
            assert(texts(segments@) =~= Seq::<Seq<char>>::empty());
            ModuleScope { segments }
        } else {
            proof {
                reveal_strlit("");
                if scope@.len() == 0 {
                    assert(scope@ =~= ""@);
                }
            }
            ModuleScope { segments: split_at_each(scope.as_str(), "::") }
        }
    }

    /// The scope of a module in this one.
    pub fn extend(&self, segment: &str) -> (r: Self)
        ensures
            r@ == self@.push(segment@),
    {
        let mut segments = copies(&self.segments);
        let ghost before = texts(segments@);
        segments.push(owned(segment));
        assert(texts(segments@) =~= before.push(segment@));
        ModuleScope { segments }
    }

    /// The path of a member.
    pub fn qualified_name(&self, member: &str) -> (r: String)
        ensures
            r@ == qualified(self@, member@),
    {
        if self.segments.len() == 0 {
            owned(member)
        } else {
            cat3(join_strings(&self.segments, "::").as_str(), "::", member)
        }
    }

    /// The path of the scope.
    pub fn key(&self) -> (r: String)
        ensures
            r@ == joined(self@, "::"@),
    {
        join_strings(&self.segments, "::")
    }
}

/// The path of the scope of a path is what stands before its last segment.
pub proof fn law_scope_keys_are_path_prefixes(path: Seq<char>)
    ensures
        joined(scope_segments(path), "::"@) == scope_part(path),
{
    reveal_strlit("::");
    if scope_part(path).len() == 0 {
        assert(joined(scope_segments(path), "::"@) =~= scope_part(path));
    } else {
        crate::search::law_cut_joins_back(scope_part(path), "::"@);
    }
}

/// A file name without its extension; nothing for what names no file.
pub open spec fn stem_of(name: Seq<char>) -> Option<Seq<char>> {
    if name.len() == 0 || name == "."@ || name == ".."@ {
        None
    } else {
        match crate::search::last_until(name, "."@, name.len() as int) {
            Some(i) => if i > 0 {
                Some(name.take(i))
            } else {
                Some(name)
            },
            None => Some(name),
        }
    }
}

/// A file name without its extension; nothing for what names no file.
pub fn file_stem(name: &str) -> (r: Option<String>)
    ensures
        opt_text(r) == stem_of(name@),
{
    if str_eq(name, "") || str_eq(name, ".") || str_eq(name, "..") {
        proof {
            reveal_strlit("");
        }
        return None;
    }
    let chars = crate::text::chars_of(name);
    proof {
        reveal_strlit("");
        if name@.len() == 0 {
            assert(name@ =~= ""@);
        }
        crate::search::lemma_last_until(name@, "."@, name@.len() as int);
    }
    match crate::search::find_last(&chars, &crate::text::chars_of(".")) {
        Some(i) => if i > 0 {
            assert(name@.take(i as int) =~= name@.subrange(0, i as int));
            Some(crate::text::string_of(&chars, 0, i))
        } else {
            Some(owned(name))
        },
        None => Some(owned(name)),
    }
}

/// The directory names that become modules.
pub open spec fn module_dirs(parts: Seq<Seq<char>>) -> Seq<Seq<char>>
    decreases parts.len(),
{
    if parts.len() == 0 {
        Seq::empty()
    } else if parts.last().len() == 0 || parts.last() == "."@ {
        module_dirs(parts.drop_last())
    } else {
        module_dirs(parts.drop_last()).push(parts.last())
    }
}

/// A file that stands for its directory's module.
pub open spec fn is_module_root(name: Seq<char>) -> bool {
    name == "mod.rs"@ || name == "lib.rs"@ || name == "main.rs"@
}

/// The module that a file holds, by its path below the crate root's directory.
pub open spec fn file_scope(parts: Seq<Seq<char>>) -> Seq<Seq<char>> {
    if parts.len() == 0 {
        seq!["crate"@]
    } else {
        let dirs = seq!["crate"@] + module_dirs(parts.drop_last());
        if is_module_root(parts.last()) {
            dirs
        } else {
            match stem_of(parts.last()) {
                Some(stem) => dirs.push(stem),
                None => dirs,
            }
        }
    }
}

/// The module that a file holds. `relative` is the file's path below the
/// directory of the crate's root file, part by part, if it lies there.
pub fn module_scope_for_file(
    root_path: &str,
    file_path: &str,
    relative: Option<&Vec<String>>,
) -> (r: ModuleScope)
    ensures
        r@ == if file_path@ == root_path@ {
            seq!["crate"@]
        } else {
            match relative {
                Some(parts) => file_scope(texts(parts@)),
                None => seq!["crate"@],
            }
        },
{
    let mut scope = ModuleScope::crate_root();
    if str_eq(file_path, root_path) {
        return scope;
    }
    let parts = match relative {
        Some(parts) => parts,
        None => {
            return scope;
        },
    };
    if parts.len() == 0 {
        return scope;
    }
    let last = parts.len() - 1;
    let ghost all = texts(parts@);
    let ghost dirs = all.drop_last();
    assert(seq!["crate"@] + module_dirs(dirs.take(0)) =~= seq!["crate"@]);
    let mut i: usize = 0;
    while i < last
        invariant
            last == parts@.len() - 1,
            all == texts(parts@),
            dirs == all.drop_last(),
            i <= last,
            scope@ == seq!["crate"@] + module_dirs(dirs.take(i as int)),
        decreases last - i,
    {
        let segment = parts[i].as_str();
        proof {
            reveal_strlit("");
            let next = dirs.take(i + 1);
            assert(next.drop_last() =~= dirs.take(i as int));
            assert(next.last() == segment@);
            if segment@.len() == 0 {
                assert(segment@ =~= ""@);
            }
        }
        if !str_eq(segment, "") && !str_eq(segment, ".") {
            scope = scope.extend(segment);
            assert(scope@ =~= seq!["crate"@] + module_dirs(dirs.take(i + 1)));
        }
        i += 1;
    }
    assert(dirs.take(last as int) =~= dirs);
    let name = parts[last].as_str();
    assert(all.last() == name@);
    if !str_eq(name, "mod.rs") && !str_eq(name, "lib.rs") && !str_eq(name, "main.rs") {
        match file_stem(name) {
            Some(stem) => {
                scope = scope.extend(stem.as_str());
            },
            None => {},
        }
    }
    scope
}

/// A callable that seeding has met.
#[derive(Debug, Clone)]
pub struct CallableEntry {
    pub scope: String,
    pub name: String,
    pub path: String,
    pub def: DefId,
}

/// What a callable's entry says.
pub struct CallableView {
    pub scope: Seq<char>,
    pub name: Seq<char>,
    pub path: Seq<char>,
    pub def: u64,
}

impl View for CallableEntry {
    type V = CallableView;

    open spec fn view(&self) -> CallableView {
        CallableView { scope: self.scope@, name: self.name@, path: self.path@, def: self.def@ }
    }
}

/// A method that seeding has met, in a scope from which it can be named.
#[derive(Debug, Clone)]
pub struct MethodEntry {
    pub scope: String,
    pub name: String,
    pub def: DefId,
}

/// What a method's entry says.
pub struct MethodEntryView {
    pub scope: Seq<char>,
    pub name: Seq<char>,
    pub def: u64,
}

impl View for MethodEntry {
    type V = MethodEntryView;

    open spec fn view(&self) -> MethodEntryView {
        MethodEntryView { scope: self.scope@, name: self.name@, def: self.def@ }
    }
}

/// A call in a function's body by the path it names.
#[derive(Debug, Clone)]
pub struct CallSite {
    /// The whole path, if the callee is a path.
    pub path: Option<String>,
    /// The last name of the path, if it has one.
    pub name: Option<String>,
    pub start: u32,
    pub end: u32,
}

/// What a call site says.
pub struct CallSiteView {
    pub path: Option<Seq<char>>,
    pub name: Option<Seq<char>>,
    pub start: u32,
    pub end: u32,
}

impl View for CallSite {
    type V = CallSiteView;

    open spec fn view(&self) -> CallSiteView {
        CallSiteView {
            path: opt_text(self.path),
            name: opt_text(self.name),
            start: self.start,
            end: self.end,
        }
    }
}

/// The calls of a function's body.
pub struct FnBodySeed {
    pub caller: DefId,
    pub caller_scope: String,
    /// Calls by path.
    pub calls: Vec<CallSite>,
    /// Method calls, by the method's name.
    pub method_calls: Vec<CallSite>,
    pub rel_path: String,
    pub source: String,
    pub file_id: EditionedFileId,
}

/// What a body says.
pub struct BodyView {
    pub caller: u64,
    pub scope: Seq<char>,
    pub calls: Seq<CallSiteView>,
    pub method_calls: Seq<CallSiteView>,
    pub rel_path: Seq<char>,
    pub source: Seq<char>,
    pub file_id: EditionedFileId,
}

/// What call sites say.
pub open spec fn site_views(sites: Seq<CallSite>) -> Seq<CallSiteView> {
    sites.map_values(|site: CallSite| site@)
}

impl View for FnBodySeed {
    type V = BodyView;

    open spec fn view(&self) -> BodyView {
        BodyView {
            caller: self.caller@,
            scope: self.caller_scope@,
            calls: site_views(self.calls@),
            method_calls: site_views(self.method_calls@),
            rel_path: self.rel_path@,
            source: self.source@,
            file_id: self.file_id,
        }
    }
}

/// What seeding has met so far.
pub struct SeedContext {
    callables: Vec<CallableEntry>,
    methods: Vec<MethodEntry>,
    pub(crate) bodies: Vec<FnBodySeed>,
    impls: u64,
}

/// What a context holds.
#[verifier::ext_equal]
pub struct ContextView {
    pub callables: Seq<CallableView>,
    pub methods: Seq<MethodEntryView>,
    pub bodies: Seq<BodyView>,
    /// How many impls have been numbered.
    pub impls: u64,
}

impl View for SeedContext {
    type V = ContextView;

    closed spec fn view(&self) -> ContextView {
        ContextView {
            callables: self.callables@.map_values(|entry: CallableEntry| entry@),
            methods: self.methods@.map_values(|entry: MethodEntry| entry@),
            bodies: self.bodies@.map_values(|body: FnBodySeed| body@),
            impls: self.impls,
        }
    }
}

/// The smaller of two ids, where there are two.
pub open spec fn lesser(a: Option<u64>, b: u64) -> Option<u64> {
    match a {
        Some(a) => if a <= b {
            Some(a)
        } else {
            Some(b)
        },
        None => Some(b),
    }
}

/// The smallest callable with the name, in the scope if one is given.
pub open spec fn least_callable(
    entries: Seq<CallableView>,
    scope: Option<Seq<char>>,
    name: Seq<char>,
) -> Option<u64>
    decreases entries.len(),
{
    if entries.len() == 0 {
        None
    } else {
        let rest = least_callable(entries.drop_last(), scope, name);
        let entry = entries.last();
        if entry.name == name && (scope is None || scope == Some(entry.scope)) {
            lesser(rest, entry.def)
        } else {
            rest
        }
    }
}

/// The callable last told for the path.
pub open spec fn callable_at(entries: Seq<CallableView>, path: Seq<char>) -> Option<u64>
    decreases entries.len(),
{
    if entries.len() == 0 {
        None
    } else if entries.last().path == path {
        Some(entries.last().def)
    } else {
        callable_at(entries.drop_last(), path)
    }
}

/// The smallest callable with the name in the scope or in the nearest scope
/// around it that has one.
pub open spec fn scoped_callable(
    entries: Seq<CallableView>,
    scope: Seq<char>,
    name: Seq<char>,
) -> Option<u64>
    decreases scope.len(),
{
    match least_callable(entries, Some(scope), name) {
        Some(def) => Some(def),
        None => match path_split(scope) {
            Some((parent, _)) => if parent.len() < scope.len() {
                scoped_callable(entries, parent, name)
            } else {
                None
            },
            None => None,
        },
    }
}

/// The scope is the given one or lies around it.
pub open spec fn encloses(scope: Seq<char>, inner: Seq<char>) -> bool
    decreases inner.len(),
{
    scope == inner || match path_split(inner) {
        Some((parent, _)) => parent.len() < inner.len() && encloses(scope, parent),
        None => false,
    }
}

/// The entry is for the method name, in a scope around the given one.
pub open spec fn method_in_scope(
    entry: MethodEntryView,
    scope: Seq<char>,
    name: Seq<char>,
) -> bool {
    entry.name == name && encloses(entry.scope, scope)
}

/// Some entry names the definition as a method in a scope around.
pub open spec fn is_scoped_method(
    entries: Seq<MethodEntryView>,
    scope: Seq<char>,
    name: Seq<char>,
    def: u64,
) -> bool {
    exists|i: int|
        0 <= i < entries.len() && method_in_scope(#[trigger] entries[i], scope, name)
            && entries[i].def == def
}

/// Some entry names the definition as a method.
pub open spec fn is_named_method(entries: Seq<MethodEntryView>, name: Seq<char>, def: u64) -> bool {
    exists|i: int|
        0 <= i < entries.len() && (#[trigger] entries[i]).name == name && entries[i].def == def
}

/// The definition may be meant by the method name: in a scope around, or
/// anywhere if none is in a scope around.
pub open spec fn is_candidate(
    entries: Seq<MethodEntryView>,
    scope: Seq<char>,
    name: Seq<char>,
    def: u64,
) -> bool {
    if exists|other: u64| is_scoped_method(entries, scope, name, other) {
        is_scoped_method(entries, scope, name, def)
    } else {
        is_named_method(entries, name, def)
    }
}

/// The definition is the only one that may be meant by the method name.
pub open spec fn only_candidate(
    entries: Seq<MethodEntryView>,
    scope: Seq<char>,
    name: Seq<char>,
    def: u64,
) -> bool {
    &&& is_candidate(entries, scope, name, def)
    &&& forall|other: u64| #[trigger] is_candidate(entries, scope, name, other) ==> other == def
}

/// The method that a name means in a scope, if only one can be meant.
pub open spec fn meant_method(
    entries: Seq<MethodEntryView>,
    scope: Seq<char>,
    name: Seq<char>,
) -> Option<u64> {
    if exists|def: u64| #[trigger] only_candidate(entries, scope, name, def) {
        Some(choose|def: u64| #[trigger] only_candidate(entries, scope, name, def))
    } else {
        None
    }
}

/// The parent of a scope is shorter.
proof fn lemma_parent_shorter(scope: Seq<char>)
    ensures
        match path_split(scope) {
            Some((parent, tail)) => parent.len() + tail.len() + 2 == scope.len(),
            None => true,
        },
{
    reveal_strlit("::");
    crate::search::lemma_last_until(scope, "::"@, scope.len() as int);
}

/// Whether a scope is the given one or lies around it.
fn lies_around(scope: &str, inner: &str) -> (r: bool)
    ensures
        r == encloses(scope@, inner@),
    decreases inner@.len(),
{
    if str_eq(scope, inner) {
        return true;
    }
    proof {
        lemma_parent_shorter(inner@);
    }
    match split_path(inner) {
        Some((parent, _)) => lies_around(scope, parent.as_str()),
        None => false,
    }
}

impl SeedContext {
    pub fn new() -> (r: Self)
        ensures
            r@ == (ContextView {
                callables: Seq::empty(),
                methods: Seq::empty(),
                bodies: Seq::empty(),
                impls: 0,
            }),
    {
        let r = SeedContext {
            callables: Vec::new(),
            methods: Vec::new(),
            bodies: Vec::new(),
            impls: 0,
        };
        assert(r@.callables =~= Seq::<CallableView>::empty());
        assert(r@.methods =~= Seq::<MethodEntryView>::empty());
        assert(r@.bodies =~= Seq::<BodyView>::empty());
        r
    }

    pub fn register_callable(&mut self, scope: &str, path: &str, name: &str, def: DefId)
        ensures
            final(self)@ == (ContextView {
                callables: old(self)@.callables.push(
                    CallableView { scope: scope@, name: name@, path: path@, def: def@ },
                ),
                ..old(self)@
            }),
    {
        let ghost before = self@;
        self.callables.push(
            CallableEntry { scope: owned(scope), name: owned(name), path: owned(path), def },
        );
        assert(self@.callables =~= before.callables.push(
            CallableView { scope: scope@, name: name@, path: path@, def: def@ },
        ));
    }

    pub fn register_method(&mut self, scope: &str, name: &str, def: DefId)
        ensures
            final(self)@ == (ContextView {
                methods: old(self)@.methods.push(
                    MethodEntryView { scope: scope@, name: name@, def: def@ },
                ),
                ..old(self)@
            }),
    {
        let ghost before = self@;
        self.methods.push(MethodEntry { scope: owned(scope), name: owned(name), def });
        assert(self@.methods =~= before.methods.push(
            MethodEntryView { scope: scope@, name: name@, def: def@ },
        ));
    }

    pub fn register_body(&mut self, body: FnBodySeed)
        ensures
            final(self)@ == (ContextView {
                bodies: old(self)@.bodies.push(body@),
                ..old(self)@
            }),
    {
        let ghost before = self@;
        let ghost shown = body@;
        self.bodies.push(body);
        assert(self@.bodies =~= before.bodies.push(shown));
    }

    pub fn body_count(&self) -> (r: usize)
        ensures
            r == self@.bodies.len(),
    {
        self.bodies.len()
    }

    pub fn body(&self, i: usize) -> (r: &FnBodySeed)
        requires
            i < self@.bodies.len(),
        ensures
            r@ == self@.bodies[i as int],
    {
        &self.bodies[i]
    }

    /// The number of the next impl; the numbers start at one.
    pub fn next_impl_index(&mut self) -> (r: u64)
        ensures
            r == final(self)@.impls,
            final(self)@ == (ContextView {
                impls: next_index(old(self)@.impls),
                ..old(self)@
            }),
    {
        self.impls = self.impls.wrapping_add(1);
        self.impls
    }

    /// The callable with exactly the path.
    pub fn resolve_path(&self, path: &str) -> (r: Option<DefId>)
        ensures
            opt_def(r) == callable_at(self@.callables, path@),
    {
        let mut i: usize = self.callables.len();
        let ghost all = self@.callables;
        assert(all.take(i as int) =~= all);
        while i > 0
            invariant
                all == self@.callables,
                i <= all.len(),
                all.len() == self.callables@.len(),
                callable_at(all, path@) == callable_at(all.take(i as int), path@),
            decreases i,
        {
            let entry = &self.callables[i - 1];
            proof {
                assert(all[i - 1] == self.callables@[i - 1]@);
                assert(all.take(i as int).last() == all[i - 1]);
                assert(all.take(i as int).drop_last() =~= all.take(i - 1));
            }
            if str_eq(entry.path.as_str(), path) {
                return Some(entry.def);
            }
            i -= 1;
        }
        None
    }

    /// The smallest callable with the name, in the scope if one is given.
    fn smallest(&self, scope: Option<&str>, name: &str) -> (r: Option<DefId>)
        ensures
            opt_def(r) == least_callable(
                self@.callables,
                match scope {
                    Some(scope) => Some(scope@),
                    None => None,
                },
                name@,
            ),
    {
        let mut best: Option<DefId> = None;
        let mut i: usize = 0;
        let ghost all = self@.callables;
        let ghost wanted = match scope {
            Some(scope) => Some(scope@),
            None => None,
        };
        while i < self.callables.len()
            invariant
                all == self@.callables,
                all.len() == self.callables@.len(),
                i <= all.len(),
                wanted == (match scope {
                    Some(scope) => Some(scope@),
                    None => None::<Seq<char>>,
                }),
                opt_def(best) == least_callable(all.take(i as int), wanted, name@),
            decreases self.callables.len() - i,
        {
            let entry = &self.callables[i];
            proof {
                assert(all[i as int] == self.callables@[i as int]@);
                assert(all.take(i + 1).last() == all[i as int]);
                assert(all.take(i + 1).drop_last() =~= all.take(i as int));
            }
            let in_scope = match scope {
                Some(scope) => str_eq(entry.scope.as_str(), scope),
                None => true,
            };
            if in_scope && str_eq(entry.name.as_str(), name) {
                best = match best {
                    Some(held) => if held.stable_id().as_u64() <= entry.def.stable_id().as_u64() {
                        Some(held)
                    } else {
                        Some(entry.def)
                    },
                    None => Some(entry.def),
                };
            }
            i += 1;
        }
        assert(all.take(i as int) =~= all);
        best
    }

    fn in_scopes(&self, scope: &str, name: &str) -> (r: Option<DefId>)
        ensures
            opt_def(r) == scoped_callable(self@.callables, scope@, name@),
        decreases scope@.len(),
    {
        match self.smallest(Some(scope), name) {
            Some(def) => {
                return Some(def);
            },
            None => {},
        }
        proof {
            lemma_parent_shorter(scope@);
        }
        match split_path(scope) {
            Some((parent, _)) => self.in_scopes(parent.as_str(), name),
            None => None,
        }
    }

    /// The callable that a name means in a scope: the smallest in the nearest
    /// scope around that has one, else the smallest anywhere.
    pub fn resolve_callable(&self, scope: &str, name: &str) -> (r: Option<DefId>)
        ensures
            opt_def(r) == resolved_callable(self@.callables, scope@, name@),
    {
        match self.in_scopes(scope, name) {
            Some(def) => Some(def),
            None => self.smallest(None, name),
        }
    }

    /// The method that a name means in a scope, if only one can be meant.
    pub fn resolve_unambiguous_method(&self, scope: &str, name: &str) -> (r: Option<DefId>)
        ensures
            opt_def(r) == meant_method(self@.methods, scope@, name@),
    {
        let ghost all = self@.methods;
        let mut scoped = false;
        let mut i: usize = 0;
        while i < self.methods.len() && !scoped
            invariant
                all == self@.methods,
                all.len() == self.methods@.len(),
                i <= all.len(),
                !scoped ==> forall|k: int|
                    0 <= k < i ==> !method_in_scope(#[trigger] all[k], scope@, name@),
                scoped ==> exists|k: int|
                    0 <= k < all.len() && method_in_scope(#[trigger] all[k], scope@, name@),
            decreases self.methods.len() - i,
        {
            let entry = &self.methods[i];
            assert(all[i as int] == self.methods@[i as int]@);
            if str_eq(entry.name.as_str(), name) && lies_around(entry.scope.as_str(), scope) {
                scoped = true;
            }
            i += 1;
        }
        proof {
            if scoped {
                let k = choose|k: int|
                    0 <= k < all.len() && method_in_scope(#[trigger] all[k], scope@, name@);
                assert(is_scoped_method(all, scope@, name@, all[k].def));
            }
        }
        let mut found: Option<DefId> = None;
        let mut several = false;
        let mut j: usize = 0;
        while j < self.methods.len()
            invariant
                all == self@.methods,
                all.len() == self.methods@.len(),
                j <= all.len(),
                found is None ==> !several && forall|k: int|
                    0 <= k < j ==> !method_counts(#[trigger] all[k], scoped, scope@, name@),
                found is Some ==> exists|k: int|
                    0 <= k < j && method_counts(#[trigger] all[k], scoped, scope@, name@)
                        && all[k].def == found->0@,
                found is Some && !several ==> forall|k: int|
                    0 <= k < j && method_counts(#[trigger] all[k], scoped, scope@, name@)
                        ==> all[k].def == found->0@,
                several ==> found is Some && exists|k: int|
                    0 <= k < j && method_counts(#[trigger] all[k], scoped, scope@, name@)
                        && all[k].def != found->0@,
            decreases self.methods.len() - j,
        {
            let entry = &self.methods[j];
            assert(all[j as int] == self.methods@[j as int]@);
            let counts = str_eq(entry.name.as_str(), name) && (!scoped || lies_around(
                entry.scope.as_str(),
                scope,
            ));
            assert(counts == method_counts(all[j as int], scoped, scope@, name@));
            if counts {
                match found {
                    Some(held) => {
                        if !same_def(held, entry.def) {
                            several = true;
                        }
                    },
                    None => {
                        found = Some(entry.def);
                    },
                }
            }
            j += 1;
        }
        proof {
            let anything = exists|d: u64| is_scoped_method(all, scope@, name@, d);
            assert(scoped == anything) by {
                if anything {
                    let d = choose|d: u64| is_scoped_method(all, scope@, name@, d);
                    let k = choose|k: int|
                        0 <= k < all.len() && method_in_scope(#[trigger] all[k], scope@, name@)
                            && all[k].def == d;
                    assert(method_in_scope(all[k], scope@, name@));
                }
            }
            assert forall|d: u64| is_candidate(all, scope@, name@, d) <==> exists|k: int|
                0 <= k < all.len() && method_counts(#[trigger] all[k], scoped, scope@, name@)
                    && all[k].def == d by {
                if is_candidate(all, scope@, name@, d) {
                    if scoped {
                        let k = choose|k: int|
                            0 <= k < all.len() && method_in_scope(#[trigger] all[k], scope@, name@)
                                && all[k].def == d;
                        assert(method_counts(all[k], scoped, scope@, name@));
                    } else {
                        let k = choose|k: int|
                            0 <= k < all.len() && (#[trigger] all[k]).name == name@ && all[k].def
                                == d;
                        assert(method_counts(all[k], scoped, scope@, name@));
                    }
                }
                if exists|k: int|
                    0 <= k < all.len() && method_counts(#[trigger] all[k], scoped, scope@, name@)
                        && all[k].def == d {
                    let k = choose|k: int|
                        0 <= k < all.len() && method_counts(
                            #[trigger] all[k],
                            scoped,
                            scope@,
                            name@,
                        ) && all[k].def == d;
                    if scoped {
                        assert(method_in_scope(all[k], scope@, name@));
                    } else {
                        assert(all[k].name == name@);
                    }
                }
            }
            if several {
                let k = choose|k: int|
                    0 <= k < all.len() && method_counts(#[trigger] all[k], scoped, scope@, name@)
                        && all[k].def != found->0@;
                let m = choose|m: int|
                    0 <= m < all.len() && method_counts(#[trigger] all[m], scoped, scope@, name@)
                        && all[m].def == found->0@;
                let first = all[m].def;
                let second = all[k].def;
                assert(is_candidate(all, scope@, name@, first));
                assert(is_candidate(all, scope@, name@, second));
                assert forall|def: u64| !#[trigger] only_candidate(all, scope@, name@, def) by {
                    assert(first != def || second != def);
                }
            } else if found is Some {
                assert(only_candidate(all, scope@, name@, found->0@));
                let meant = choose|def: u64| #[trigger] only_candidate(all, scope@, name@, def);
                assert(is_candidate(all, scope@, name@, meant));
            }
        }
        if several {
            None
        } else {
            found
        }
    }
}

/// The entry is looked at for the method name.
spec fn method_counts(
    entry: MethodEntryView,
    scoped: bool,
    scope: Seq<char>,
    name: Seq<char>,
) -> bool {
    entry.name == name && (!scoped || encloses(entry.scope, scope))
}

/// The number after another.
pub open spec fn next_index(index: u64) -> u64 {
    if index == u64::MAX {
        0
    } else {
        (index + 1) as u64
    }
}

/// The callable that a name means in a scope.
pub open spec fn resolved_callable(
    entries: Seq<CallableView>,
    scope: Seq<char>,
    name: Seq<char>,
) -> Option<u64> {
    match scoped_callable(entries, scope, name) {
        Some(def) => Some(def),
        None => least_callable(entries, None, name),
    }
}

} // verus!
