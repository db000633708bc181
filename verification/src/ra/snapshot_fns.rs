//! Building a snapshot: functions and their error types.

use crate::host::{derived_id, DefId, TypeRefId};
use crate::ir::{stable_id_text, StableId};
use crate::ra::host::{opt_def, HostView};
use crate::ra::rows::opt_text;
use crate::ra::seed_types::with_type;
use crate::ra::shapes::{ShapeView, TypeShape};
use crate::ra::snapshot_text::{
    extract_result_error_name_from_text, result_error_name, trim, trimmed,
};
use crate::ra::snapshot_types::{
    interned, loc_indexable, sole, ty_indexable, type_head, ModuleFacts, Snapshot, SnapshotBuilder,
    TyFacts,
};
use crate::search::{
    contains_text, ends_with, has_suffix, occurs, path_tail, strip_prefix, tail_of_path,
    without_prefix,
};
use crate::text::{cat2, owned, str_eq};
use vstd::prelude::*;

verus! {

/// A type and the texts of its generic arguments.
pub struct TypedFacts {
    pub ty: TyFacts,
    pub arg_names: Vec<String>,
}

/// What the database says of a function.
pub struct FunctionFacts {
    pub def: ModuleFacts,
    /// The return type, if it can be told.
    pub ret: Option<TypedFacts>,
    /// What the future of an asynchronous function gives.
    pub async_ret: Option<TypedFacts>,
    /// The text of the return type.
    pub ret_text: Option<String>,
    /// The text of the return type with its arrow.
    pub signature_text: Option<String>,
    /// The types that the type aliases in the return type stand for.
    pub aliases: Vec<TyFacts>,
}

/// The files of the definitions in a type can be indexed.
pub open spec fn typed_indexable(typed: Option<TypedFacts>) -> bool {
    match typed {
        Some(typed) => ty_indexable(typed.ty),
        None => true,
    }
}

/// The files that a function's facts speak of can be indexed.
pub open spec fn fn_indexable(facts: FunctionFacts) -> bool {
    &&& loc_indexable(facts.def.loc)
    &&& typed_indexable(facts.ret)
    &&& typed_indexable(facts.async_ret)
    &&& forall|i: int|
        0 <= i < facts.aliases@.len() ==> ty_indexable(#[trigger] facts.aliases@[i])
}

/// The definition is the result type.
pub open spec fn is_result(def: ModuleFacts) -> bool {
    match def.canonical {
        Some(path) => has_suffix(path@, "::Result"@),
        None => match def.name {
            Some(name) => name@ == "Result"@,
            None => false,
        },
    }
}

/// The type behind references.
pub open spec fn behind_refs(ty: TyFacts) -> TyFacts
    decreases ty,
{
    match ty {
        TyFacts::Reference { inner, .. } => behind_refs(*inner),
        _ => ty,
    }
}

/// The error type of a result type.
pub open spec fn result_error_arg(ty: TyFacts) -> Option<TyFacts> {
    match behind_refs(ty) {
        TyFacts::Adt { def, args } => if is_result(def) && args@.len() > 1 {
            Some(args@[1])
        } else {
            None
        },
        _ => None,
    }
}

/// The type is the result type itself.
pub open spec fn is_result_type(ty: TyFacts) -> bool {
    match ty {
        TyFacts::Adt { def, .. } => is_result(def),
        _ => false,
    }
}

/// The path without the `::` it starts with.
pub open spec fn without_root(path: Seq<char>) -> Seq<char>
    decreases path.len(),
{
    match without_prefix(path, "::"@) {
        Some(rest) => if rest.len() < path.len() {
            without_root(rest)
        } else {
            path
        },
        None => path,
    }
}

/// The definition at the path, if one is.
pub open spec fn at_path(snapshot: Snapshot, path: Seq<char>) -> Option<u64> {
    if snapshot.by_path.contains_key(path) {
        Some(snapshot.by_path[path])
    } else {
        None
    }
}

/// The first of two, if there is one.
pub open spec fn first_of(a: Option<u64>, b: Option<u64>) -> Option<u64> {
    match a {
        Some(def) => Some(def),
        None => b,
    }
}

/// The definition at what follows a prefix, below the crate.
pub open spec fn behind_prefix(snapshot: Snapshot, path: Seq<char>, prefix: Seq<char>) -> Option<
    u64,
> {
    match without_prefix(path, prefix) {
        Some(rest) => at_path(snapshot, "crate::"@ + rest),
        None => None,
    }
}

/// The definition that a written path means: the path as it is, with or without
/// its crate, relative to the crate, else the only definition with its last
/// name.
pub open spec fn resolved_path(snapshot: Snapshot, written: Seq<char>) -> Option<u64> {
    let path = without_root(trimmed(written));
    if path.len() == 0 {
        None
    } else {
        let crated = match without_prefix(path, "crate::"@) {
            Some(rest) => at_path(snapshot, rest),
            None => at_path(snapshot, "crate::"@ + path),
        };
        first_of(
            first_of(
                first_of(
                    first_of(at_path(snapshot, path), crated),
                    behind_prefix(snapshot, path, "self::"@),
                ),
                behind_prefix(snapshot, path, "super::"@),
            ),
            sole(snapshot.names, path_tail(path)),
        )
    }
}

/// The error definition that a written name means.
pub open spec fn named_error(snapshot: Snapshot, name: Seq<char>) -> u64 {
    match first_of(resolved_path(snapshot, name), sole(snapshot.names, name)) {
        Some(def) => def,
        None => derived_id("def"@, "result_error:"@ + name),
    }
}

/// The error definition that the first alias from `i` on gives that gives one.
pub open spec fn alias_error(snapshot: Snapshot, aliases: Seq<TyFacts>, i: int) -> (
    Snapshot,
    Option<u64>,
)
    decreases aliases.len() - i,
{
    if i < 0 || i >= aliases.len() {
        (snapshot, None)
    } else {
        match result_error_arg(aliases[i]) {
            Some(error) => {
                let (told, def) = type_head(snapshot, error, None);
                (told, Some(def))
            },
            None => if aliases[i] is Adt || aliases[i] is Dyn {
                let (told, def) = type_head(snapshot, aliases[i], None);
                (told, Some(def))
            } else {
                alias_error(snapshot, aliases, i + 1)
            },
        }
    }
}

/// The return type's text speaks of a result.
pub open spec fn text_has_result(text: Option<Seq<char>>) -> bool {
    match text {
        Some(text) => occurs(text, "Result"@),
        None => false,
    }
}

/// The error definition that the texts of a function's return type give: its
/// aliases, the written arguments, the written return type, else the text
/// itself.
pub open spec fn textual_error(snapshot: Snapshot, facts: FunctionFacts, typed: TypedFacts) -> (
    Snapshot,
    Option<u64>,
) {
    let ret_text = opt_text(facts.ret_text);
    if !text_has_result(ret_text) && !is_result_type(typed.ty) {
        (snapshot, None)
    } else {
        let (told, alias) = if facts.ret_text is Some {
            alias_error(snapshot, facts.aliases@, 0)
        } else {
            (snapshot, None)
        };
        if alias is Some {
            (told, alias)
        } else if typed.arg_names@.len() > 1 {
            (told, Some(named_error(told, typed.arg_names@[1]@)))
        } else {
            match ret_text {
                Some(text) => match result_error_name(text) {
                    Some(name) => (told, Some(named_error(told, name))),
                    None => if text_has_result(ret_text) {
                        (told, Some(derived_id("def"@, "result_error_text:"@ + text)))
                    } else {
                        (told, None)
                    },
                },
                None => (told, None),
            }
        }
    }
}

/// The error definition of a type that a function gives or meets.
pub open spec fn best_error(snapshot: Snapshot, facts: FunctionFacts, typed: TypedFacts) -> (
    Snapshot,
    Option<u64>,
) {
    match result_error_arg(typed.ty) {
        Some(error) => {
            let (told, def) = type_head(snapshot, error, None);
            (told, Some(def))
        },
        None => textual_error(snapshot, facts, typed),
    }
}

/// The error definition of a type, if there is a type.
pub open spec fn opt_error(
    snapshot: Snapshot,
    facts: FunctionFacts,
    typed: Option<TypedFacts>,
) -> (Snapshot, Option<u64>) {
    match typed {
        Some(typed) => best_error(snapshot, facts, typed),
        None => (snapshot, None),
    }
}

/// The error definition of a function: that of its return type, else of what its
/// future gives, else of the text of its return type.
pub open spec fn fn_error(snapshot: Snapshot, facts: FunctionFacts) -> (Snapshot, Option<u64>) {
    let (first, direct) = opt_error(snapshot, facts, facts.ret);
    if direct is Some {
        (first, direct)
    } else {
        let (second, later) = opt_error(first, facts, facts.async_ret);
        if later is Some {
            (second, later)
        } else {
            (
                second,
                match facts.signature_text {
                    Some(text) => if occurs(text@, "Result"@) {
                        Some(derived_id("def"@, "result_error_text:"@ + text@))
                    } else {
                        None
                    },
                    None => None,
                },
            )
        }
    }
}

/// The snapshot with a type of which nothing is known, under a key.
pub open spec fn with_unknown_type(snapshot: Snapshot, key: Seq<char>) -> (Snapshot, u64) {
    if snapshot.types.contains_key(key) {
        (snapshot, snapshot.types[key])
    } else {
        let id = derived_id("typeref"@, key);
        (
            Snapshot {
                host: with_type(snapshot.host, id, ShapeView::Unknown),
                types: snapshot.types.insert(key, id),
                ..snapshot
            },
            id,
        )
    }
}

/// The snapshot once the types of a function have been told.
pub open spec fn with_fn_types(snapshot: Snapshot, facts: FunctionFacts, def: u64) -> Snapshot {
    let (typed, ret) = match facts.ret {
        Some(ret) => interned(snapshot, ret.ty, Some(def)),
        None => with_unknown_type(snapshot, "fn_ret_ty:"@ + stable_id_text(def)),
    };
    let returned = Snapshot {
        host: HostView {
            fn_returns: typed.host.fn_returns.insert(def, Some(ret)),
            fn_errors: typed.host.fn_errors.insert(def, None),
            ..typed.host
        },
        ..typed
    };
    let (told, error) = fn_error(returned, facts);
    match error {
        Some(error) => Snapshot {
            host: HostView {
                fn_errors: told.host.fn_errors.insert(def, Some(error)),
                ..told.host
            },
            ..told
        },
        None => told,
    }
}

/// Whether a definition is the result type.
pub fn is_result_head(def: &ModuleFacts) -> (r: bool)
    ensures
        r == is_result(*def),
{
    match &def.canonical {
        Some(path) => ends_with(path.as_str(), "::Result"),
        None => match &def.name {
            Some(name) => str_eq(name.as_str(), "Result"),
            None => false,
        },
    }
}

/// The type behind references.
fn strip_references(ty: &TyFacts) -> (r: &TyFacts)
    ensures
        *r == behind_refs(*ty),
    decreases ty,
{
    match ty {
        TyFacts::Reference { inner, .. } => strip_references(inner),
        _ => ty,
    }
}

/// The error type of a result type.
pub fn result_error_type_argument(ty: &TyFacts) -> (r: Option<&TyFacts>)
    ensures
        match r {
            Some(error) => result_error_arg(*ty) == Some(*error),
            None => result_error_arg(*ty) is None,
        },
{
    match strip_references(ty) {
        TyFacts::Adt { def, args } => if is_result_head(def) && args.len() > 1 {
            Some(&args[1])
        } else {
            None
        },
        _ => None,
    }
}

/// What is in the type behind references can be indexed.
proof fn lemma_behind_refs(ty: TyFacts)
    requires
        ty_indexable(ty),
    ensures
        ty_indexable(behind_refs(ty)),
    decreases ty,
{
    match ty {
        TyFacts::Reference { inner, .. } => lemma_behind_refs(*inner),
        _ => {},
    }
}

/// The path without the `::` it starts with.
fn strip_root(path: &str) -> (r: String)
    ensures
        r@ == without_root(path@),
    decreases path@.len(),
{
    proof {
        reveal_strlit("::");
    }
    match strip_prefix(path, "::") {
        Some(rest) => {
            assert(rest@.len() < path@.len());
            strip_root(rest.as_str())
        },
        None => owned(path),
    }
}

impl SnapshotBuilder {
    /// The definition at the path, if one is.
    fn def_at_path(&self, path: &str) -> (r: Option<DefId>)
        requires
            self.wf(),
        ensures
            opt_def(r) == at_path(self@, path@),
    {
        proof {
            self.lemma_parts();
        }
        match self.by_path.get(&owned(path)) {
            Some(def) => Some(DefId::new(StableId::new(*def))),
            None => None,
        }
    }

    /// The definition at what follows a prefix, below the crate.
    fn def_behind_prefix(&self, path: &str, prefix: &str) -> (r: Option<DefId>)
        requires
            self.wf(),
        ensures
            opt_def(r) == behind_prefix(self@, path@, prefix@),
    {
        match strip_prefix(path, prefix) {
            Some(rest) => self.def_at_path(cat2("crate::", rest.as_str()).as_str()),
            None => None,
        }
    }

    /// The definition that a written path means.
    pub fn resolve_def_from_type_path(&self, path: &str) -> (r: Option<DefId>)
        requires
            self.wf(),
        ensures
            opt_def(r) == resolved_path(self@, path@),
    {
        let path = strip_root(trim(path).as_str());
        proof {
            reveal_strlit("");
            if path@.len() == 0 {
                assert(path@ =~= ""@);
            }
        }
        if str_eq(path.as_str(), "") {
            return None;
        }
        match self.def_at_path(path.as_str()) {
            Some(def) => {
                return Some(def);
            },
            None => {},
        }
        let crated = match strip_prefix(path.as_str(), "crate::") {
            Some(rest) => self.def_at_path(rest.as_str()),
            None => self.def_at_path(cat2("crate::", path.as_str()).as_str()),
        };
        match crated {
            Some(def) => {
                return Some(def);
            },
            None => {},
        }
        match self.def_behind_prefix(path.as_str(), "self::") {
            Some(def) => {
                return Some(def);
            },
            None => {},
        }
        match self.def_behind_prefix(path.as_str(), "super::") {
            Some(def) => {
                return Some(def);
            },
            None => {},
        }
        self.sole_def_named(tail_of_path(path.as_str()).as_str())
    }

    /// The error definition that a written name means.
    fn error_named(&self, name: &str) -> (r: DefId)
        requires
            self.wf(),
        ensures
            r@ == named_error(self@, name@),
    {
        match self.resolve_def_from_type_path(name) {
            Some(def) => {
                return def;
            },
            None => {},
        }
        match self.sole_def_named(name) {
            Some(def) => def,
            None => self.host.intern_def_from_token(cat2("result_error:", name).as_str()),
        }
    }

    /// The error definition that the first alias gives that gives one.
    pub fn error_def_from_return_type_alias_paths(&mut self, aliases: &Vec<TyFacts>) -> (r: Option<
        DefId,
    >)
        requires
            old(self).wf(),
            forall|i: int| 0 <= i < aliases@.len() ==> ty_indexable(#[trigger] aliases@[i]),
        ensures
            final(self).wf(),
            (final(self)@, opt_def(r)) == alias_error(old(self)@, aliases@, 0),
    {
        let mut i: usize = 0;
        while i < aliases.len()
            invariant
                self.wf(),
                self@ == old(self)@,
                forall|k: int| 0 <= k < aliases@.len() ==> ty_indexable(#[trigger] aliases@[k]),
                i <= aliases@.len(),
                alias_error(old(self)@, aliases@, 0) == alias_error(
                    old(self)@,
                    aliases@,
                    i as int,
                ),
            decreases aliases.len() - i,
        {
            let alias = &aliases[i];
            proof {
                assert(ty_indexable(aliases@[i as int]));
                lemma_behind_refs(*alias);
            }
            match result_error_type_argument(alias) {
                Some(error) => {
                    let def = self.def_from_type_head(error, None);
                    return Some(def);
                },
                None => {},
            }
            let nominal = match alias {
                TyFacts::Adt { .. } => true,
                TyFacts::Dyn { .. } => true,
                _ => false,
            };
            if nominal {
                let def = self.def_from_type_head(alias, None);
                return Some(def);
            }
            i += 1;
        }
        None
    }

    /// The error definition that the texts of a function's return type give.
    pub fn textual_result_error_fallback(&mut self, facts: &FunctionFacts, typed: &TypedFacts) -> (r:
        Option<DefId>)
        requires
            old(self).wf(),
            fn_indexable(*facts),
        ensures
            final(self).wf(),
            (final(self)@, opt_def(r)) == textual_error(old(self)@, *facts, *typed),
    {
        let by_syntax = match &facts.ret_text {
            Some(text) => contains_text(text.as_str(), "Result"),
            None => false,
        };
        let by_type = match &typed.ty {
            TyFacts::Adt { def, .. } => is_result_head(def),
            _ => false,
        };
        if !by_syntax && !by_type {
            return None;
        }
        if facts.ret_text.is_some() {
            match self.error_def_from_return_type_alias_paths(&facts.aliases) {
                Some(def) => {
                    return Some(def);
                },
                None => {},
            }
        }
        if typed.arg_names.len() > 1 {
            return Some(self.error_named(typed.arg_names[1].as_str()));
        }
        match &facts.ret_text {
            Some(text) => match extract_result_error_name_from_text(text.as_str()) {
                Some(name) => Some(self.error_named(name.as_str())),
                None => if by_syntax {
                    let token = cat2("result_error_text:", text.as_str());
                    Some(self.host.intern_def_from_token(token.as_str()))
                } else {
                    None
                },
            },
            None => None,
        }
    }

    /// The error definition of a type that a function gives or meets.
    pub fn best_effort_result_error_def(&mut self, facts: &FunctionFacts, typed: &TypedFacts) -> (r:
        Option<DefId>)
        requires
            old(self).wf(),
            fn_indexable(*facts),
            ty_indexable(typed.ty),
        ensures
            final(self).wf(),
            (final(self)@, opt_def(r)) == best_error(old(self)@, *facts, *typed),
    {
        proof {
            lemma_behind_refs(typed.ty);
        }
        match result_error_type_argument(&typed.ty) {
            Some(error) => {
                let def = self.def_from_type_head(error, None);
                Some(def)
            },
            None => self.textual_result_error_fallback(facts, typed),
        }
    }

    /// The error definition of a function.
    pub fn function_error_def_for_function(&mut self, facts: &FunctionFacts) -> (r: Option<DefId>)
        requires
            old(self).wf(),
            fn_indexable(*facts),
        ensures
            final(self).wf(),
            (final(self)@, opt_def(r)) == fn_error(old(self)@, *facts),
    {
        match &facts.ret {
            Some(typed) => match self.best_effort_result_error_def(facts, typed) {
                Some(def) => {
                    return Some(def);
                },
                None => {},
            },
            None => {},
        }
        match &facts.async_ret {
            Some(typed) => match self.best_effort_result_error_def(facts, typed) {
                Some(def) => {
                    return Some(def);
                },
                None => {},
            },
            None => {},
        }
        match &facts.signature_text {
            Some(text) => if contains_text(text.as_str(), "Result") {
                let token = cat2("result_error_text:", text.as_str());
                Some(self.host.intern_def_from_token(token.as_str()))
            } else {
                None
            },
            None => None,
        }
    }

    /// Tells a type of which nothing is known, unless its key is known.
    pub fn unknown_type_ref(&mut self, key: &str) -> (r: TypeRefId)
        requires
            old(self).wf(),
        ensures
            final(self).wf(),
            (final(self)@, r@) == with_unknown_type(old(self)@, key@),
    {
        proof {
            self.lemma_parts();
        }
        match self.types.get(&owned(key)) {
            Some(known) => {
                return TypeRefId::new(StableId::new(*known));
            },
            None => {},
        }
        let id = self.host.intern_typeref_from_token(key);
        self.host.insert_type(id, TypeShape::Unknown);
        self.types.insert(owned(key), id.stable_id().as_u64());
        proof {
            self.lemma_parts();
        }
        id
    }

    /// Tells the types of a function.
    pub fn process_function(&mut self, facts: &FunctionFacts, def: DefId)
        requires
            old(self).wf(),
            fn_indexable(*facts),
        ensures
            final(self).wf(),
            final(self)@ == with_fn_types(old(self)@, *facts, def@),
    {
        let ret = match &facts.ret {
            Some(typed) => self.intern_type_ref(&typed.ty, Some(def)),
            None => {
                let key = cat2("fn_ret_ty:", def.stable_id().to_text().as_str());
                self.unknown_type_ref(key.as_str())
            },
        };
        proof {
            self.lemma_parts();
        }
        self.host.set_fn_return_type(def, Some(ret));
        self.host.set_fn_error_type(def, None);
        proof {
            self.lemma_parts();
        }
        match self.function_error_def_for_function(facts) {
            Some(error) => {
                proof {
                    self.lemma_parts();
                }
                self.host.set_fn_error_type(def, Some(error));
                proof {
                    self.lemma_parts();
                }
            },
            None => {},
        }
    }
}

} // verus!
