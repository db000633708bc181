//! What the calls in seeded bodies mean, and what seeded functions and impls say of
//! errors and conversions.

use crate::ra::host::HostView;
use crate::ra::index_laws::{
    below, first_below, first_type_below, has_name, lemma_child_below, lemma_first_child,
    lemma_first_of_kind, lemma_first_token, lemma_first_type, lemma_has_name, lemma_impl_methods,
    lemma_item_words, lemma_named_head, lemma_single_classes, lemma_type_rows, names_type,
    node_below,
};
use crate::ra::kinds::DefKind;
use crate::ra::node_laws::inside;
use crate::ra::row_laws::law_rows_are_added;
use crate::ra::rows::FromImplView;
use crate::ra::scope::{
    callable_at, encloses, least_callable, next_index, qualified, scoped_callable, CallSiteView, CallableView, ContextView,
};
use crate::ra::seed_types::{
    head_id, head_of, name_ref_at, path_at, path_type_at, type_arg_ids, type_id, with_new_def,
    with_type, with_type_at, with_types_below,
};
use crate::ra::seeding::{
    body_at, call_target, callee_name, callee_path, calls_between, def_id, method_calls_between,
    with_impl_def, with_impl_types, with_item_at, FileView, Seeded,
};
use crate::ra::shapes::{GenericArgView, ShapeView};
use crate::ra::syntax::{child, child_from, end_from, is_child, Class, SyntaxView};
use crate::search::path_split;
use vstd::prelude::*;

verus! {

/// A path means the callable that was told last for it.
pub proof fn law_paths_mean_their_callable(entries: Seq<CallableView>, path: Seq<char>, k: int)
    requires
        0 <= k < entries.len(),
        entries[k].path == path,
        forall|m: int| k < m < entries.len() ==> (#[trigger] entries[m]).path != path,
    ensures
        callable_at(entries, path) == Some(entries[k].def),
    decreases entries.len(),
{
    if k < entries.len() - 1 {
        let rest = entries.drop_last();
        assert(entries[entries.len() - 1].path != path);
        law_paths_mean_their_callable(rest, path, k);
    }
}

/// A path that no callable was told for means none.
pub proof fn law_unknown_paths_mean_nothing(entries: Seq<CallableView>, path: Seq<char>)
    requires
        forall|m: int| 0 <= m < entries.len() ==> (#[trigger] entries[m]).path != path,
    ensures
        callable_at(entries, path) is None,
    decreases entries.len(),
{
    if entries.len() > 0 {
        let rest = entries.drop_last();
        assert(entries[entries.len() - 1].path != path);
        assert forall|m: int| 0 <= m < rest.len() implies (#[trigger] rest[m]).path != path by {
            assert(rest[m] == entries[m]);
        }
        law_unknown_paths_mean_nothing(rest, path);
    }
}

/// The entry is for the name in the scope, or in any if none is given.
pub open spec fn entry_fits(
    entry: CallableView,
    scope: Option<Seq<char>>,
    name: Seq<char>,
) -> bool {
    entry.name == name && (scope matches Some(scope) ==> entry.scope == scope)
}

proof fn lemma_least(entries: Seq<CallableView>, scope: Option<Seq<char>>, name: Seq<char>)
    ensures
        match least_callable(entries, scope, name) {
            Some(def) => (exists|k: int|
                0 <= k < entries.len() && entry_fits(#[trigger] entries[k], scope, name)
                    && entries[k].def == def) && forall|k: int|
                0 <= k < entries.len() && entry_fits(#[trigger] entries[k], scope, name) ==> def
                    <= entries[k].def,
            None => forall|k: int|
                0 <= k < entries.len() ==> !entry_fits(#[trigger] entries[k], scope, name),
        },
    decreases entries.len(),
{
    if entries.len() > 0 {
        let rest = entries.drop_last();
        lemma_least(rest, scope, name);
        let last = entries.last();
        assert(entries[entries.len() - 1] == last);
        assert forall|k: int| 0 <= k < rest.len() implies #[trigger] rest[k] == entries[k] by {}
        if let Some(def) = least_callable(rest, scope, name) {
            let k = choose|k: int|
                0 <= k < rest.len() && entry_fits(#[trigger] rest[k], scope, name) && rest[k].def
                    == def;
            assert(entry_fits(entries[k], scope, name));
        }
        assert forall|k: int|
            0 <= k < entries.len() && entry_fits(#[trigger] entries[k], scope, name) implies k
            == entries.len() - 1 || entry_fits(rest[k], scope, name) by {}
    }
}

/// A name means a callable of the nearest scope that has one of the name: the scope
/// itself, else one around it; of several the one with the smallest id.
pub proof fn law_names_mean_the_nearest_callable(
    entries: Seq<CallableView>,
    scope: Seq<char>,
    name: Seq<char>,
)
    ensures
        match scoped_callable(entries, scope, name) {
            Some(def) => exists|k: int|
                0 <= k < entries.len() && (#[trigger] entries[k]).name == name && entries[k].def
                    == def && encloses(entries[k].scope, scope) && forall|m: int|
                    0 <= m < entries.len() && (#[trigger] entries[m]).name == name && encloses(
                        entries[m].scope,
                        scope,
                    ) ==> encloses(entries[m].scope, entries[k].scope) && (entries[m].scope
                        == entries[k].scope ==> def <= entries[m].def),
            None => forall|m: int|
                0 <= m < entries.len() && (#[trigger] entries[m]).name == name ==> !encloses(
                    entries[m].scope,
                    scope,
                ),
        },
    decreases scope.len(),
{
    lemma_least(entries, Some(scope), name);
    match least_callable(entries, Some(scope), name) {
        Some(def) => {
            let k = choose|k: int|
                0 <= k < entries.len() && entry_fits(#[trigger] entries[k], Some(scope), name)
                    && entries[k].def == def;
            assert forall|m: int|
                0 <= m < entries.len() && (#[trigger] entries[m]).name == name && encloses(
                    entries[m].scope,
                    scope,
                ) implies encloses(entries[m].scope, entries[k].scope) && (entries[m].scope
                == entries[k].scope ==> def <= entries[m].def) by {
                if entries[m].scope == scope {
                    assert(entry_fits(entries[m], Some(scope), name));
                }
            }
            assert(entries[k].name == name && entries[k].def == def);
        },
        None => {
            assert forall|m: int|
                0 <= m < entries.len() && (#[trigger] entries[m]).name == name implies entries[m].scope
                != scope by {
                assert(!entry_fits(entries[m], Some(scope), name));
            }
            if let Some((parent, tail)) = path_split(scope) {
                if parent.len() < scope.len() {
                    law_names_mean_the_nearest_callable(entries, parent, name);
                }
            }
        },
    }
}

/// A call by a path means the callable of the path, where there is one; else a name
/// means the nearest callable of that name, else the one with the smallest id
/// anywhere.
pub proof fn law_calls_mean_callables(context: ContextView, scope: Seq<char>, site: CallSiteView)
    ensures
        site.path matches Some(path) ==> (callable_at(context.callables, path) is Some
            ==> call_target(context, scope, site) == callable_at(context.callables, path)),
        site.path is None && site.name is Some ==> {
            let near = scoped_callable(context.callables, scope, site.name->0);
            &&& near is Some ==> call_target(context, scope, site) == near
            &&& near is None ==> match call_target(context, scope, site) {
                Some(def) => (exists|k: int|
                    0 <= k < context.callables.len() && (#[trigger] context.callables[k]).name
                        == site.name->0 && context.callables[k].def == def) && forall|k: int|
                    0 <= k < context.callables.len() && (#[trigger] context.callables[k]).name
                        == site.name->0 ==> def <= context.callables[k].def,
                None => forall|k: int|
                    0 <= k < context.callables.len() ==> (#[trigger] context.callables[k]).name
                        != site.name->0,
            }
        },
        site.path is None && site.name is None ==> call_target(context, scope, site) is None,
{
    if let Some(name) = site.name {
        lemma_least(context.callables, None, name);
        assert(forall|k: int|
            0 <= k < context.callables.len() ==> entry_fits(
                #[trigger] context.callables[k],
                None,
                name,
            ) == (context.callables[k].name == name));
    }
}

/// The site is that of the call at the row.
pub open spec fn is_site(tree: Seq<SyntaxView>, c: int, site: CallSiteView) -> bool {
    &&& site.start == tree[c].start
    &&& site.end == tree[c].end
    &&& match child(tree, c, Class::Expr) {
        Some(e) => tree[e].kind == "PATH_EXPR"@ ==> forall|p: int| #[trigger]
            first_below(tree, e, p, "PATH"@) ==> site.path == Some(path_at(tree, p)),
        None => site.path is None,
    }
}

/// The site is that of the method call at the row.
pub open spec fn is_method_site(tree: Seq<SyntaxView>, c: int, site: CallSiteView) -> bool {
    &&& site.start == tree[c].start
    &&& site.end == tree[c].end
    &&& forall|n: int| #[trigger]
        first_below(tree, c, n, "NAME_REF"@) ==> site.name == Some(tree[n].text)
}

spec fn from_call(tree: Seq<SyntaxView>, from: int, end: int, site: CallSiteView) -> bool {
    exists|c: int|
        from <= c < end && !(#[trigger] tree[c]).is_token && tree[c].kind == "CALL_EXPR"@ && site
            == (CallSiteView {
            path: callee_path(tree, c),
            name: callee_name(tree, c),
            start: tree[c].start,
            end: tree[c].end,
        })
}

spec fn from_method_call(tree: Seq<SyntaxView>, from: int, end: int, site: CallSiteView) -> bool {
    exists|c: int|
        from <= c < end && !(#[trigger] tree[c]).is_token && tree[c].kind == "METHOD_CALL_EXPR"@
            && site == (CallSiteView {
            path: None,
            name: name_ref_at(tree, c),
            start: tree[c].start,
            end: tree[c].end,
        })
}

proof fn lemma_calls_between(tree: Seq<SyntaxView>, from: int, end: int)
    requires
        0 <= from,
        end <= tree.len(),
    ensures
        forall|c: int|
            from <= c < end && !(#[trigger] tree[c]).is_token && tree[c].kind == "CALL_EXPR"@
                ==> calls_between(tree, from, end).contains(
                CallSiteView {
                    path: callee_path(tree, c),
                    name: callee_name(tree, c),
                    start: tree[c].start,
                    end: tree[c].end,
                },
            ),
        forall|k: int|
            0 <= k < calls_between(tree, from, end).len() ==> from_call(
                tree,
                from,
                end,
                #[trigger] calls_between(tree, from, end)[k],
            ),
    decreases end - from,
{
    if from < end {
        lemma_calls_between(tree, from + 1, end);
        let rest = calls_between(tree, from + 1, end);
        let all = calls_between(tree, from, end);
        let own = CallSiteView {
            path: callee_path(tree, from),
            name: callee_name(tree, from),
            start: tree[from].start,
            end: tree[from].end,
        };
        let is_call = !tree[from].is_token && tree[from].kind == "CALL_EXPR"@;
        let shift: int = if is_call {
            1
        } else {
            0
        };
        if is_call {
            assert(all[0] == own);
        }
        assert forall|k: int| 0 <= k < rest.len() implies #[trigger] rest[k] == all[k + shift] by {}
        assert forall|c: int|
            from <= c < end && !(#[trigger] tree[c]).is_token && tree[c].kind
                == "CALL_EXPR"@ implies all.contains(
            CallSiteView {
                path: callee_path(tree, c),
                name: callee_name(tree, c),
                start: tree[c].start,
                end: tree[c].end,
            },
        ) by {
            if from < c {
                let site = CallSiteView {
                    path: callee_path(tree, c),
                    name: callee_name(tree, c),
                    start: tree[c].start,
                    end: tree[c].end,
                };
                assert(rest.contains(site));
                let k = choose|k: int| 0 <= k < rest.len() && rest[k] == site;
                assert(all[k + shift] == site);
            }
        }
        assert forall|k: int| 0 <= k < all.len() implies from_call(
            tree,
            from,
            end,
            #[trigger] all[k],
        ) by {
            if is_call && k == 0 {
                assert(!tree[from].is_token);
            } else {
                assert(rest[k - shift] == all[k]);
                assert(from_call(tree, from + 1, end, rest[k - shift]));
            }
        }
    }
}

proof fn lemma_method_calls_between(tree: Seq<SyntaxView>, from: int, end: int)
    requires
        0 <= from,
        end <= tree.len(),
    ensures
        forall|c: int|
            from <= c < end && !(#[trigger] tree[c]).is_token && tree[c].kind
                == "METHOD_CALL_EXPR"@ ==> method_calls_between(tree, from, end).contains(
                CallSiteView {
                    path: None,
                    name: name_ref_at(tree, c),
                    start: tree[c].start,
                    end: tree[c].end,
                },
            ),
        forall|k: int|
            0 <= k < method_calls_between(tree, from, end).len() ==> from_method_call(
                tree,
                from,
                end,
                #[trigger] method_calls_between(tree, from, end)[k],
            ),
    decreases end - from,
{
    if from < end {
        lemma_method_calls_between(tree, from + 1, end);
        let rest = method_calls_between(tree, from + 1, end);
        let all = method_calls_between(tree, from, end);
        let own = CallSiteView {
            path: None,
            name: name_ref_at(tree, from),
            start: tree[from].start,
            end: tree[from].end,
        };
        let is_call = !tree[from].is_token && tree[from].kind == "METHOD_CALL_EXPR"@;
        let shift: int = if is_call {
            1
        } else {
            0
        };
        if is_call {
            assert(all[0] == own);
        }
        assert forall|k: int| 0 <= k < rest.len() implies #[trigger] rest[k] == all[k + shift] by {}
        assert forall|c: int|
            from <= c < end && !(#[trigger] tree[c]).is_token && tree[c].kind
                == "METHOD_CALL_EXPR"@ implies all.contains(
            CallSiteView {
                path: None,
                name: name_ref_at(tree, c),
                start: tree[c].start,
                end: tree[c].end,
            },
        ) by {
            if from < c {
                let site = CallSiteView {
                    path: None,
                    name: name_ref_at(tree, c),
                    start: tree[c].start,
                    end: tree[c].end,
                };
                assert(rest.contains(site));
                let k = choose|k: int| 0 <= k < rest.len() && rest[k] == site;
                assert(all[k + shift] == site);
            }
        }
        assert forall|k: int| 0 <= k < all.len() implies from_method_call(
            tree,
            from,
            end,
            #[trigger] all[k],
        ) by {
            if is_call && k == 0 {
                assert(!tree[from].is_token);
            } else {
                assert(rest[k - shift] == all[k]);
                assert(from_method_call(tree, from + 1, end, rest[k - shift]));
            }
        }
    }
}

proof fn lemma_end_from(tree: Seq<SyntaxView>, i: int, from: int)
    requires
        0 <= i < from <= tree.len(),
        forall|k: int| i < k < from ==> (#[trigger] tree[k]).depth > tree[i].depth,
    ensures
        from <= end_from(tree, i, from) <= tree.len(),
        forall|j: int| inside(tree, i, j) <==> i <= j < #[trigger] end_bound(tree, i, j, from),
    decreases tree.len() - from,
{
    if from < tree.len() && tree[from].depth > tree[i].depth {
        lemma_end_from(tree, i, from + 1);
        assert forall|j: int| inside(tree, i, j) <==> i <= j < #[trigger] end_bound(
            tree,
            i,
            j,
            from,
        ) by {
            assert(end_bound(tree, i, j, from) == end_bound(tree, i, j, from + 1));
        }
    } else {
        assert forall|j: int| inside(tree, i, j) <==> i <= j < #[trigger] end_bound(
            tree,
            i,
            j,
            from,
        ) by {
            if inside(tree, i, j) && from <= j {
                assert(tree[from].depth > tree[i].depth);
            }
        }
    }
}

/// The end of the rows below row `i`.
spec fn end_bound(tree: Seq<SyntaxView>, i: int, j: int, from: int) -> int {
    end_from(tree, i, from)
}

/// The calls of a body are those that stand in it, by a path or as a method, and no
/// others.
pub proof fn law_bodies_hold_their_calls(
    file: FileView,
    tree: Seq<SyntaxView>,
    i: int,
    caller: u64,
    scope: Seq<char>,
)
    requires
        0 <= i < tree.len(),
    ensures
        ({
            let body = body_at(file, tree, i, caller, scope);
            &&& body.caller == caller && body.scope == scope
            &&& forall|c: int|
                #[trigger] inside(tree, i, c) && !tree[c].is_token && tree[c].kind == "CALL_EXPR"@
                    ==> exists|k: int|
                    0 <= k < body.calls.len() && is_site(tree, c, #[trigger] body.calls[k])
            &&& forall|c: int|
                #[trigger] inside(tree, i, c) && !tree[c].is_token && tree[c].kind
                    == "METHOD_CALL_EXPR"@ ==> exists|k: int|
                    0 <= k < body.method_calls.len() && is_method_site(
                        tree,
                        c,
                        #[trigger] body.method_calls[k],
                    )
            &&& forall|k: int|
                0 <= k < body.calls.len() ==> is_call_in(tree, i, #[trigger] body.calls[k])
            &&& forall|k: int|
                0 <= k < body.method_calls.len() ==> is_method_call_in(
                    tree,
                    i,
                    #[trigger] body.method_calls[k],
                )
        }),
{
    let end = end_from(tree, i, i + 1);
    let body = body_at(file, tree, i, caller, scope);
    lemma_end_from(tree, i, i + 1);
    lemma_calls_between(tree, i, end);
    lemma_method_calls_between(tree, i, end);
    assert forall|c: int| inside(tree, i, c) <==> i <= c < end by {
        assert(end_bound(tree, i, c, i + 1) == end);
    }
    assert forall|c: int|
        #[trigger] inside(tree, i, c) && !tree[c].is_token && tree[c].kind
            == "CALL_EXPR"@ implies exists|k: int|
        0 <= k < body.calls.len() && is_site(tree, c, #[trigger] body.calls[k]) by {
        let site = CallSiteView {
            path: callee_path(tree, c),
            name: callee_name(tree, c),
            start: tree[c].start,
            end: tree[c].end,
        };
        assert(body.calls.contains(site));
        let k = choose|k: int| 0 <= k < body.calls.len() && body.calls[k] == site;
        lemma_site(tree, c, site);
        assert(is_site(tree, c, body.calls[k]));
    }
    assert forall|c: int|
        #[trigger] inside(tree, i, c) && !tree[c].is_token && tree[c].kind
            == "METHOD_CALL_EXPR"@ implies exists|k: int|
        0 <= k < body.method_calls.len() && is_method_site(
            tree,
            c,
            #[trigger] body.method_calls[k],
        ) by {
        let site = CallSiteView {
            path: None,
            name: name_ref_at(tree, c),
            start: tree[c].start,
            end: tree[c].end,
        };
        assert(body.method_calls.contains(site));
        let k = choose|k: int| 0 <= k < body.method_calls.len() && body.method_calls[k] == site;
        lemma_method_site(tree, c, site);
        assert(is_method_site(tree, c, body.method_calls[k]));
    }
    assert forall|k: int| 0 <= k < body.calls.len() implies is_call_in(
        tree,
        i,
        #[trigger] body.calls[k],
    ) by {
        assert(from_call(tree, i, end, body.calls[k]));
        let c = choose|c: int|
            i <= c < end && !(#[trigger] tree[c]).is_token && tree[c].kind == "CALL_EXPR"@
                && body.calls[k] == (CallSiteView {
                path: callee_path(tree, c),
                name: callee_name(tree, c),
                start: tree[c].start,
                end: tree[c].end,
            });
        lemma_site(tree, c, body.calls[k]);
        assert(inside(tree, i, c));
    }
    assert forall|k: int| 0 <= k < body.method_calls.len() implies is_method_call_in(
        tree,
        i,
        #[trigger] body.method_calls[k],
    ) by {
        assert(from_method_call(tree, i, end, body.method_calls[k]));
        let c = choose|c: int|
            i <= c < end && !(#[trigger] tree[c]).is_token && tree[c].kind == "METHOD_CALL_EXPR"@
                && body.method_calls[k] == (CallSiteView {
                path: None,
                name: name_ref_at(tree, c),
                start: tree[c].start,
                end: tree[c].end,
            });
        lemma_method_site(tree, c, body.method_calls[k]);
        assert(inside(tree, i, c));
    }
}

/// The site is that of a call inside the row.
pub open spec fn is_call_in(tree: Seq<SyntaxView>, i: int, site: CallSiteView) -> bool {
    exists|c: int| #[trigger]
        inside(tree, i, c) && !tree[c].is_token && tree[c].kind == "CALL_EXPR"@ && is_site(
            tree,
            c,
            site,
        )
}

/// The site is that of a method call inside the row.
pub open spec fn is_method_call_in(tree: Seq<SyntaxView>, i: int, site: CallSiteView) -> bool {
    exists|c: int| #[trigger]
        inside(tree, i, c) && !tree[c].is_token && tree[c].kind == "METHOD_CALL_EXPR"@
            && is_method_site(tree, c, site)
}

proof fn lemma_site(tree: Seq<SyntaxView>, c: int, site: CallSiteView)
    requires
        site == (CallSiteView {
            path: callee_path(tree, c),
            name: callee_name(tree, c),
            start: tree[c].start,
            end: tree[c].end,
        }),
    ensures
        is_site(tree, c, site),
{
    if let Some(e) = child(tree, c, Class::Expr) {
        assert forall|p: int|
            tree[e].kind == "PATH_EXPR"@ && #[trigger] first_below(
                tree,
                e,
                p,
                "PATH"@,
            ) implies site.path == Some(path_at(tree, p)) by {
            assert forall|other: Seq<char>| #[trigger]
                Class::Path.kinds().contains(other) <==> other == "PATH"@ by {
                lemma_single_classes(other);
            }
            lemma_first_of_kind(tree, e, p, "PATH"@, Class::Path);
        }
    }
}

proof fn lemma_method_site(tree: Seq<SyntaxView>, c: int, site: CallSiteView)
    requires
        site == (CallSiteView {
            path: None,
            name: name_ref_at(tree, c),
            start: tree[c].start,
            end: tree[c].end,
        }),
    ensures
        is_method_site(tree, c, site),
{
    assert forall|n: int| #[trigger] first_below(tree, c, n, "NAME_REF"@) implies site.name
        == Some(tree[n].text) by {
        assert forall|other: Seq<char>| #[trigger]
            Class::NameRef.kinds().contains(other) <==> other == "NAME_REF"@ by {
            lemma_single_classes(other);
        }
        lemma_first_of_kind(tree, c, n, "NAME_REF"@, Class::NameRef);
    }
}

/// A function can be called by its path and its name, and the calls in its block are
/// looked at as its own.
pub proof fn law_functions_can_be_called(
    seeded: Seeded,
    file: FileView,
    tree: Seq<SyntaxView>,
    i: int,
    scope: Seq<Seq<char>>,
    in_test: bool,
    name: Seq<char>,
)
    requires
        0 <= i < tree.len(),
        tree[i].kind == "FN"@,
        has_name(tree, i, name),
    ensures
        ({
            let before = seeded.context;
            let after = with_item_at(seeded, file, tree, i, scope, in_test).context;
            let def = def_id("fn"@, qualified(scope, name), tree[i]);
            &&& after.callables.len() == before.callables.len() + 1
            &&& after.callables.last().name == name
            &&& after.callables.last().path == qualified(scope, name)
            &&& after.callables.last().def == def
            &&& after.methods == before.methods
            &&& forall|block: int| #[trigger]
                first_below(tree, i, block, "BLOCK_EXPR"@) ==> after.bodies.len()
                    == before.bodies.len() + 1 && after.bodies.last() == body_at(
                    file,
                    tree,
                    block,
                    def,
                    after.callables.last().scope,
                )
        }),
{
    lemma_has_name(tree, i, name);
    let after = with_item_at(seeded, file, tree, i, scope, in_test).context;
    assert forall|block: int| #[trigger] first_below(
        tree,
        i,
        block,
        "BLOCK_EXPR"@,
    ) implies child(tree, i, Class::BlockExpr) == Some(block) by {
        assert forall|other: Seq<char>| #[trigger]
            Class::BlockExpr.kinds().contains(other) <==> other == "BLOCK_EXPR"@ by {
            lemma_single_classes(other);
        }
        lemma_first_of_kind(tree, i, block, "BLOCK_EXPR"@, Class::BlockExpr);
    }
}

/// Row `a` is the first type argument of the list, and row `t` the type there.
pub open spec fn is_first_arg(tree: Seq<SyntaxView>, list: int, a: int, t: int) -> bool {
    first_below(tree, list, a, "TYPE_ARG"@) && first_type_below(tree, a, a + 1, t)
}

/// Row `b` is the type argument after row `a`, and row `t` the type there.
pub open spec fn is_next_arg(tree: Seq<SyntaxView>, list: int, a: int, b: int, t: int) -> bool {
    node_below(tree, list, b, "TYPE_ARG"@) && a < b && (forall|k: int|
        a < k < b ==> !#[trigger] node_below(tree, list, k, "TYPE_ARG"@)) && first_type_below(
        tree,
        b,
        b + 1,
        t,
    )
}

proof fn lemma_arg_class()
    ensures
        forall|other: Seq<char>| #[trigger]
            Class::TypeArg.kinds().contains(other) <==> other == "TYPE_ARG"@,
{
    assert forall|other: Seq<char>| #[trigger]
        Class::TypeArg.kinds().contains(other) <==> other == "TYPE_ARG"@ by {
        lemma_single_classes(other);
    }
}

proof fn lemma_next_arg(tree: Seq<SyntaxView>, list: int, a: int, b: int, t: int)
    requires
        is_next_arg(tree, list, a, b, t),
        list < a,
    ensures
        child_from(tree, list, a + 1, Class::TypeArg) == Some(b),
        child(tree, b, Class::Type) == Some(t),
{
    lemma_arg_class();
    assert forall|k: int| a + 1 <= k < b implies !#[trigger] is_child(
        tree,
        list,
        k,
        Class::TypeArg,
    ) by {
        if is_child(tree, list, k, Class::TypeArg) {
            assert(Class::TypeArg.kinds().contains(tree[k].kind));
            assert(below(tree, list, k));
            assert(node_below(tree, list, k, "TYPE_ARG"@));
        }
    }
    assert(Class::TypeArg.kinds().contains(tree[b].kind));
    lemma_first_child(tree, list, a + 1, Class::TypeArg, b);
    lemma_first_type(tree, b, b + 1, t);
}

/// An impl of a conversion: where the trait's path ends in `From` and its first type
/// argument names a type, the index tells that this type converts into the type after
/// `for`.
pub proof fn law_conversions_come_from_the_argument_of_from(
    seeded: Seeded,
    file: FileView,
    tree: Seq<SyntaxView>,
    i: int,
    scope: Seq<Seq<char>>,
    in_test: bool,
    before_for: int,
    for_token: int,
    after_for: int,
    trait_path: Seq<char>,
    type_path: Seq<char>,
    list: int,
    arg: int,
    source: int,
    source_path: Seq<char>,
)
    requires
        0 <= i < tree.len(),
        tree[i].kind == "IMPL"@,
        first_type_below(tree, i, i + 1, before_for),
        first_type_below(tree, i, before_for + 1, after_for),
        below(tree, i, for_token) && tree[for_token].is_token && tree[for_token].kind == "FOR_KW"@,
        forall|k: int|
            i < k < for_token ==> !(#[trigger] below(tree, i, k) && tree[k].is_token && tree[k].kind
                == "FOR_KW"@),
        tree[before_for].start < tree[for_token].start,
        names_type(tree, before_for, trait_path),
        names_type(tree, after_for, type_path),
        path_type_at(tree, before_for) == Some((trait_path, Some(list))),
        exists|front: Seq<char>| trait_path == #[trigger] (front + "From"@),
        is_first_arg(tree, list, arg, source),
        names_type(tree, source, source_path),
    ensures
        ({
            let index = next_index(seeded.context.impls);
            let def = def_id(
                "impl"@,
                qualified(scope, "impl#"@ + crate::text::decimal(index as nat)),
                tree[i],
            );
            with_item_at(seeded, file, tree, i, scope, in_test).host.from_impls.contains(
                FromImplView {
                    source: head_id(source_path),
                    target: head_id(type_path),
                    impl_def: def,
                },
            )
        }),
{
    lemma_item_words();
    lemma_first_type(tree, i, i + 1, before_for);
    lemma_first_type(tree, i, before_for + 1, after_for);
    lemma_first_token(tree, i, i + 1, "FOR_KW"@, for_token);
    let index = next_index(seeded.context.impls);
    let name = "impl#"@ + crate::text::decimal(index as nat);
    let path = qualified(scope, name);
    let def = def_id("impl"@, path, tree[i]);
    let named = with_impl_def(seeded.host, file, tree, i, name, path, in_test);
    let selfed = with_type_at(tree, file.rel_path, named, after_for);
    lemma_named_head(tree, file, named, after_for, type_path);
    let traited = with_type_at(tree, file.rel_path, selfed, before_for);
    lemma_named_head(tree, file, selfed, before_for, trait_path);
    let implemented = HostView {
        implements: crate::ra::store::with_row(
            traited.implements,
            crate::ra::rows::ImplementsView {
                owner: head_id(type_path),
                trait_def: head_id(trait_path),
                impl_def: def,
            },
        ),
        ..traited
    };
    lemma_arg_class();
    lemma_first_of_kind(tree, list, arg, "TYPE_ARG"@, Class::TypeArg);
    lemma_first_type(tree, arg, arg + 1, source);
    let front = choose|front: Seq<char>| trait_path == #[trigger] (front + "From"@);
    assert(trait_path.subrange(
        trait_path.len() - "From"@.len(),
        trait_path.len() as int,
    ) =~= "From"@);
    assert(crate::ra::seeding::from_source(tree, Some(before_for)) == Some(source));
    let told = with_type_at(tree, file.rel_path, implemented, source);
    lemma_named_head(tree, file, implemented, source, source_path);
    let row = FromImplView {
        source: head_id(source_path),
        target: head_id(type_path),
        impl_def: def,
    };
    law_rows_are_added(told.from_impls, row);
    let state = Seeded {
        host: with_impl_types(named, file, tree, i, def),
        context: ContextView { impls: index, ..seeded.context },
    };
    assert(state.host.from_impls.contains(row));
    lemma_impl_methods(seeded, state, file, tree, i, scope, in_test, head_id(type_path), named);
}

/// The path is one of the standard result type.
pub open spec fn is_result_name(path: Seq<char>) -> bool {
    path == "Result"@ || path == "std::result::Result"@ || path == "core::result::Result"@
}

/// A function that gives a result is told to fail with the result's second type
/// argument.
pub proof fn law_functions_fail_with_the_second_argument(
    seeded: Seeded,
    file: FileView,
    tree: Seq<SyntaxView>,
    i: int,
    scope: Seq<Seq<char>>,
    in_test: bool,
    name: Seq<char>,
    ret: int,
    ty: int,
    path: Seq<char>,
    list: int,
    first: int,
    value: int,
    second: int,
    error: int,
    error_path: Seq<char>,
)
    requires
        0 <= i < tree.len(),
        tree[i].kind == "FN"@,
        has_name(tree, i, name),
        first_below(tree, i, ret, "RET_TYPE"@),
        first_type_below(tree, ret, ret + 1, ty),
        names_type(tree, ty, path),
        is_result_name(path),
        path_type_at(tree, ty) == Some((path, Some(list))),
        is_first_arg(tree, list, first, value),
        is_next_arg(tree, list, first, second, error),
        forall|k: int| second < k ==> !#[trigger] node_below(tree, list, k, "TYPE_ARG"@),
        names_type(tree, error, error_path),
        type_id(file.rel_path, tree[error]) != type_id(file.rel_path, tree[ty]),
        def_id("fn"@, qualified(scope, name), tree[i]) != head_id(path),
        seeded.host.defs.contains_key(head_id(path)) ==> seeded.host.defs[head_id(path)].path
            == path,
    ensures
        ({
            let after = with_item_at(seeded, file, tree, i, scope, in_test).host;
            let def = def_id("fn"@, qualified(scope, name), tree[i]);
            after.fn_errors.contains_key(def) && after.fn_errors[def] == Some(head_id(error_path))
        }),
{
    lemma_has_name(tree, i, name);
    assert forall|other: Seq<char>| #[trigger]
        Class::RetType.kinds().contains(other) <==> other == "RET_TYPE"@ by {
        lemma_single_classes(other);
    }
    lemma_first_of_kind(tree, i, ret, "RET_TYPE"@, Class::RetType);
    lemma_first_type(tree, ret, ret + 1, ty);
    lemma_arg_class();
    lemma_first_of_kind(tree, list, first, "TYPE_ARG"@, Class::TypeArg);
    lemma_first_type(tree, first, first + 1, value);
    lemma_next_arg(tree, list, first, second, error);
    lemma_no_arg(tree, list, second);
    let rel = file.rel_path;
    let full = qualified(scope, name);
    let def = def_id("fn"@, full, tree[i]);
    let host = crate::ra::seeding::with_named(
        seeded.host,
        file,
        tree,
        i,
        "fn"@,
        DefKind::Fn,
        name,
        full,
        in_test || crate::ra::seed_types::mentions_test(tree, i),
    );
    let named = with_new_def(
        host,
        head_id(path),
        crate::search::path_tail(path),
        DefKind::Other,
        path,
    );
    assert(named.defs.contains_key(head_id(path)) && named.defs[head_id(path)].path == path);
    let one = with_type_at(tree, rel, named, value);
    lemma_type_rows(tree, rel, named, value);
    let two = with_type_at(tree, rel, one, error);
    lemma_type_rows(tree, rel, one, error);
    lemma_named_head(tree, file, one, error, error_path);
    assert(with_types_below(tree, rel, two, list, second + 1, Class::TypeArg) == two);
    assert(with_types_below(tree, rel, one, list, first + 1, Class::TypeArg) == two);
    assert(with_types_below(tree, rel, named, list, list + 1, Class::TypeArg) == two);
    let none = type_arg_ids(tree, rel, list, second + 1);
    assert(none =~= Seq::empty());
    let args = type_arg_ids(tree, rel, list, list + 1);
    assert(type_arg_ids(tree, rel, list, first + 1) == seq![
        GenericArgView::Type(type_id(rel, tree[error])),
    ] + none);
    assert(args.len() == 2 && args[1] == GenericArgView::Type(type_id(rel, tree[error])));
    let typed = with_type_at(tree, rel, host, ty);
    assert(typed == with_type(
        two,
        type_id(rel, tree[ty]),
        ShapeView::App { head: head_id(path), args },
    ));
    assert(typed.path_of(head_id(path)) == path);
    assert(head_of(typed, type_id(rel, tree[error])) == Some(head_id(error_path)));
}

proof fn lemma_no_arg(tree: Seq<SyntaxView>, list: int, second: int)
    requires
        node_below(tree, list, second, "TYPE_ARG"@),
        forall|k: int| second < k ==> !#[trigger] node_below(tree, list, k, "TYPE_ARG"@),
    ensures
        child_from(tree, list, second + 1, Class::TypeArg) is None,
{
    lemma_arg_class();
    lemma_child_below(tree, list, second + 1, Class::TypeArg);
    if let Some(j) = child_from(tree, list, second + 1, Class::TypeArg) {
        assert(Class::TypeArg.kinds().contains(tree[j].kind));
        assert(node_below(tree, list, j, "TYPE_ARG"@));
    }
}

} // verus!
