//! Inference of the binding patterns that derived predicates support.
//!
//! Bottom-up over the components of the call graph, a greatest fixpoint per
//! component: start from "every binding pattern works", repeatedly remove
//! patterns whose rules cannot be ordered, until stable. Declared modes are
//! checked against the inferred set and then replace it as the public
//! contract.

use crate::plan::callgraph::{
    calls_in_range, depends, derived_sccs, in_component, is_component_order, is_placed,
};
use crate::plan::catalog::Catalog;
use crate::plan::error::{PlanError, PlanErrorView};
use crate::plan::logic::{terms_in_range, Program, Rule, Term, Var};
use crate::plan::mode::{marks, required, Binding, Pattern};
use crate::plan::order::{calls, OrderProblem};
use crate::plan::patterns::{supported, PatternSet};
use crate::plan::search::{bound_set, goal_wf, rule_wf, support_sets, try_order, OrderTask};
use vstd::prelude::*;

verus! {

/// The variables bound by a rule's head under a binding pattern.
pub open spec fn head_seeds(rule: Rule, pattern: Seq<bool>) -> Set<u32> {
    Set::new(
        |v: u32|
            exists|i: int|
                0 <= i < rule.head@.len() && i < pattern.len() && pattern[i]
                    && #[trigger] rule.head@[i] == Term::Var(Var(v)),
    )
}

/// The program has passed validation, and no derived predicate has more
/// arguments than patterns are enumerated for.
pub open spec fn program_wf(program: Program, catalog: Catalog) -> bool {
    &&& rule_wf(program, catalog, program.query)
    &&& forall|p: int|
        0 <= p < program.derived@.len() ==> (#[trigger] program.derived@[p]).arity <= 16
    &&& forall|p: int, r: int|
        #![trigger program.derived@[p].rules@[r]]
        0 <= p < program.derived@.len() && 0 <= r < program.derived@[p].rules@.len() ==> rule_wf(
            program,
            catalog,
            program.derived@[p].rules@[r],
        ) && program.derived@[p].rules@[r].head@.len() == program.derived@[p].arity
    &&& forall|p: int, k: int|
        #![trigger program.derived@[p].declared_modes->0@[k]]
        0 <= p < program.derived@.len() && program.derived@[p].declared_modes is Some && 0 <= k
            < program.derived@[p].declared_modes->0@.len()
            ==> program.derived@[p].declared_modes->0@[k]@.len() == program.derived@[p].arity
}

/// The ordering problem of a rule of a derived predicate.
pub open spec fn rule_problem(
    program: Program,
    catalog: Catalog,
    supports: Seq<Set<Seq<bool>>>,
    p: int,
    r: int,
    pattern: Seq<bool>,
    deny_scans: bool,
) -> OrderProblem {
    OrderProblem {
        program,
        catalog,
        supports,
        rule: program.derived@[p].rules@[r],
        seeds: head_seeds(program.derived@[p].rules@[r], pattern),
        deny_scans,
    }
}

/// Every rule of derived predicate `p` is orderable under `pattern`, scans
/// included: scan denial is a property of the request, not of the predicate.
pub open spec fn works_under(
    program: Program,
    catalog: Catalog,
    supports: Seq<Set<Seq<bool>>>,
    p: int,
    pattern: Seq<bool>,
) -> bool {
    forall|r: int|
        0 <= r < program.derived@[p].rules@.len() ==> (#[trigger] rule_problem(
            program,
            catalog,
            supports,
            p,
            r,
            pattern,
            false,
        )).orderable()
}

/// Every pattern of the family works, given the family.
pub open spec fn self_supporting(
    program: Program,
    catalog: Catalog,
    family: Seq<Set<Seq<bool>>>,
) -> bool {
    &&& family.len() == program.derived@.len()
    &&& forall|p: int, pattern: Seq<bool>|
        0 <= p < family.len() && #[trigger] family[p].contains(pattern) ==> pattern.len()
            == program.derived@[p].arity && works_under(program, catalog, family, p, pattern)
}

/// Some self-supporting family lets `p` run under `pattern`.
pub open spec fn inferable(program: Program, catalog: Catalog, p: int, pattern: Seq<bool>) -> bool {
    exists|family: Seq<Set<Seq<bool>>>| #[trigger]
        self_supporting(program, catalog, family) && family[p].contains(pattern)
}

/// The inferred patterns of every derived predicate: the largest
/// self-supporting family.
pub open spec fn inferred(program: Program, catalog: Catalog) -> Seq<Set<Seq<bool>>> {
    Seq::new(
        program.derived@.len(),
        |p: int| Set::new(|pattern: Seq<bool>| inferable(program, catalog, p, pattern)),
    )
}

/// The patterns of a list of declared modes.
pub open spec fn declared_patterns(modes: Seq<Vec<Binding>>) -> Set<Seq<bool>> {
    Set::new(
        |pattern: Seq<bool>|
            exists|k: int| 0 <= k < modes.len() && required((#[trigger] modes[k])@) == pattern,
    )
}

/// The patterns under which callers may use each derived predicate: the
/// declared ones where there is a declaration, else the inferred ones.
pub open spec fn contract(program: Program, catalog: Catalog) -> Seq<Set<Seq<bool>>> {
    Seq::new(
        program.derived@.len(),
        |p: int|
            match program.derived@[p].declared_modes {
                Some(modes) => declared_patterns(modes@),
                None => inferred(program, catalog)[p],
            },
    )
}

/// Declared mode `k` of derived predicate `p` is not inferable.
pub open spec fn mode_fault(program: Program, catalog: Catalog, p: int, k: int) -> bool {
    &&& 0 <= p < program.derived@.len()
    &&& program.derived@[p].declared_modes is Some
    &&& 0 <= k < program.derived@[p].declared_modes->0@.len()
    &&& !supported(
        inferred(program, catalog)[p],
        required(program.derived@[p].declared_modes->0@[k]@),
    )
}

/// The first declared mode that is not inferable.
pub open spec fn first_mode_fault(program: Program, catalog: Catalog, p: int, k: int) -> bool {
    &&& mode_fault(program, catalog, p, k)
    &&& forall|q: int, l: int| #[trigger]
        mode_fault(program, catalog, q, l) ==> p < q || (p == q && k <= l)
}

/// The error for a declared mode that is not inferable.
pub open spec fn mode_fault_error(program: Program, p: int, k: int) -> PlanErrorView {
    PlanErrorView::DeclaredModeNotInferable {
        predicate: program.derived@[p].name@,
        mode: "("@ + marks(required(program.derived@[p].declared_modes->0@[k]@)) + ")"@,
    }
}

/// The inferred family is the largest self-supporting one: it is one itself,
/// and holds every other.
pub proof fn law_inferred_is_largest(program: Program, catalog: Catalog)
    requires
        calls_in_range(program),
    ensures
        self_supporting(program, catalog, inferred(program, catalog)),
        forall|family: Seq<Set<Seq<bool>>>, p: int|
            #![trigger self_supporting(program, catalog, family), family[p]]
            self_supporting(program, catalog, family) && 0 <= p < family.len()
                ==> family[p].subset_of(inferred(program, catalog)[p]),
{
    let all = inferred(program, catalog);
    assert forall|p: int, pattern: Seq<bool>|
        0 <= p < all.len() && #[trigger] all[p].contains(pattern) implies pattern.len()
        == program.derived@[p].arity && works_under(program, catalog, all, p, pattern) by {
        assert(inferable(program, catalog, p, pattern));
        let family = choose|family: Seq<Set<Seq<bool>>>| #[trigger]
            self_supporting(program, catalog, family) && family[p].contains(pattern);
        assert forall|q: int| 0 <= q < family.len() implies (#[trigger] family[q]).subset_of(
            all[q],
        ) by {
            assert forall|x: Seq<bool>| family[q].contains(x) implies all[q].contains(x) by {
                assert(inferable(program, catalog, q, x));
            }
        }
        assert forall|r: int| 0 <= r < program.derived@[p].rules@.len() implies (
        #[trigger] rule_problem(program, catalog, all, p, r, pattern, false)).orderable() by {
            let a = rule_problem(program, catalog, family, p, r, pattern, false);
            let b = rule_problem(program, catalog, all, p, r, pattern, false);
            assert(a.orderable());
            lemma_more_support(program, catalog, family, all, p, r, pattern);
        }
    }
    assert forall|family: Seq<Set<Seq<bool>>>, p: int|
        #![trigger self_supporting(program, catalog, family), family[p]]
        self_supporting(program, catalog, family) && 0 <= p
            < family.len() implies family[p].subset_of(all[p]) by {
        assert forall|x: Seq<bool>| family[p].contains(x) implies all[p].contains(x) by {
            assert(inferable(program, catalog, p, x));
        }
    }
}

/// More support for the predicates that a rule calls keeps it orderable.
proof fn lemma_more_support(
    program: Program,
    catalog: Catalog,
    less: Seq<Set<Seq<bool>>>,
    more: Seq<Set<Seq<bool>>>,
    p: int,
    r: int,
    pattern: Seq<bool>,
)
    requires
        0 <= p < program.derived@.len(),
        0 <= r < program.derived@[p].rules@.len(),
        calls_in_range(program),
        forall|q: int| #[trigger]
            depends(program, p, q) && 0 <= q < less.len() ==> less[q].subset_of(more[q]),
        less.len() == program.derived@.len(),
        more.len() == less.len(),
        rule_problem(program, catalog, less, p, r, pattern, false).orderable(),
    ensures
        rule_problem(program, catalog, more, p, r, pattern, false).orderable(),
{
    let a = rule_problem(program, catalog, less, p, r, pattern, false);
    let b = rule_problem(program, catalog, more, p, r, pattern, false);
    assert forall|g: int, id: int|
        #![trigger a.rule.body@[g], a.supports[id]]
        0 <= g < a.rule.body@.len() && calls(a.rule.body@[g], id) implies a.supports[id].subset_of(
        b.supports[id],
    ) by {
        assert(calls(program.derived@[p].rules@[r].body@[g], id));
        assert(depends(program, p, id));
    }
    a.law_ordering_is_monotone(b);
}

/// A valid program calls only derived predicates that exist.
pub proof fn lemma_calls_in_range(program: Program, catalog: Catalog)
    requires
        program_wf(program, catalog),
    ensures
        calls_in_range(program),
{
    assert forall|p: int, r: int, g: int|
        #![trigger program.derived@[p].rules@[r].body@[g]]
        0 <= p < program.derived@.len() && 0 <= r < program.derived@[p].rules@.len() && 0 <= g
            < program.derived@[p].rules@[r].body@.len() implies program.has_target(
        program.derived@[p].rules@[r].body@[g].target,
    ) by {
        let rule = program.derived@[p].rules@[r];
        assert(rule_wf(program, catalog, rule));
        assert(goal_wf(program, catalog, rule, rule.body@[g]));
    }
}

/// The variables bound by the head under a binding pattern, one mark per
/// variable of the rule.
pub fn head_bound_vars(rule: &Rule, pattern: &Pattern) -> (r: Vec<bool>)
    requires
        terms_in_range(rule.head@, rule.vars@.len()),
    ensures
        r@.len() == rule.vars@.len(),
        bound_set(r@) == head_seeds(*rule, pattern@),
{
    let mut bound = unbound_marks(rule.vars.len());
    let mut i: usize = 0;
    while i < rule.head.len() && i < pattern.arity()
        invariant
            i <= rule.head@.len(),
            i <= pattern@.len(),
            terms_in_range(rule.head@, rule.vars@.len()),
            bound@.len() == rule.vars@.len(),
            forall|v: u32| #[trigger]
                bound_set(bound@).contains(v) <==> exists|j: int|
                    0 <= j < i && pattern@[j] && #[trigger] rule.head@[j] == Term::Var(Var(v)),
        decreases rule.head.len() - i,
    {
        let ghost before = bound@;
        match rule.head[i] {
            Term::Var(var) => {
                assert(rule.head@[i as int] == Term::Var(var));
                if pattern.is_bound(i) {
                    bound.set(var.0 as usize, true);
                    assert forall|v: u32| #[trigger]
                        bound_set(bound@).contains(v) <==> bound_set(before).contains(v) || v
                            == var.0 by {}
                    assert forall|v: u32| v == var.0 implies rule.head@[i as int] == Term::Var(
                        Var(v),
                    ) by {}
                }
            },
            Term::Const => {},
        }
        i += 1;
    }
    assert(bound_set(bound@) =~= head_seeds(*rule, pattern@));
    bound
}

/// A table of `count` marks with nothing bound.
pub fn unbound_marks(count: usize) -> (r: Vec<bool>)
    ensures
        r@.len() == count,
        bound_set(r@) == Set::<u32>::empty(),
        forall|i: int| 0 <= i < r@.len() ==> !#[trigger] r@[i],
{
    let mut out: Vec<bool> = Vec::new();
    let mut i: usize = 0;
    while i < count
        invariant
            i <= count,
            out@.len() == i,
            forall|k: int| 0 <= k < i ==> !#[trigger] out@[k],
        decreases count - i,
    {
        out.push(false);
        i += 1;
    }
    assert(bound_set(out@) =~= Set::<u32>::empty());
    out
}

/// Whether every rule of derived predicate `p` is orderable under `pattern`.
fn derived_orderable(
    program: &Program,
    catalog: &Catalog,
    supports: &Vec<PatternSet>,
    p: usize,
    pattern: &Pattern,
) -> (r: bool)
    requires
        program_wf(*program, *catalog),
        p < program.derived@.len(),
        supports@.len() == program.derived@.len(),
    ensures
        r == works_under(*program, *catalog, support_sets(supports@), p as int, pattern@),
{
    let rules = &program.derived[p].rules;
    let mut i: usize = 0;
    while i < rules.len()
        invariant
            i <= rules@.len(),
            rules@ == program.derived@[p as int].rules@,
            program_wf(*program, *catalog),
            p < program.derived@.len(),
            supports@.len() == program.derived@.len(),
            forall|j: int|
                0 <= j < i ==> (#[trigger] rule_problem(
                    *program,
                    *catalog,
                    support_sets(supports@),
                    p as int,
                    j,
                    pattern@,
                    false,
                )).orderable(),
        decreases rules.len() - i,
    {
        let rule = &rules[i];
        assert(rule_wf(*program, *catalog, program.derived@[p as int].rules@[i as int]));
        let bound = head_bound_vars(rule, pattern);
        let task = OrderTask { program, catalog, supports, rule, deny_scans: false };
        let ghost problem = rule_problem(
            *program,
            *catalog,
            support_sets(supports@),
            p as int,
            i as int,
            pattern@,
            false,
        );
        assert(task.problem(bound_set(bound@)) == problem);
        match try_order(task, bound) {
            Ok(_) => {},
            Err(_) => {
                return false;
            },
        }
        i += 1;
    }
    true
}

/// The number of patterns over all predicates.
spec fn total(sets: Seq<Set<Seq<bool>>>) -> nat
    decreases sets.len(),
{
    if sets.len() == 0 {
        0
    } else {
        total(sets.drop_last()) + sets.last().len()
    }
}

proof fn lemma_total_shrinks(less: Seq<Set<Seq<bool>>>, more: Seq<Set<Seq<bool>>>)
    requires
        less.len() == more.len(),
        forall|p: int|
            0 <= p < less.len() ==> (#[trigger] less[p]).subset_of(more[p]) && more[p].finite(),
    ensures
        total(less) <= total(more),
        forall|p: int, x: Seq<bool>|
            0 <= p < less.len() && more[p].contains(x) && !(#[trigger] less[p].contains(x))
                ==> total(less) < total(more),
    decreases less.len(),
{
    if less.len() > 0 {
        let last = less.len() - 1;
        lemma_total_shrinks(less.drop_last(), more.drop_last());
        assert(less[last].subset_of(more[last]));
        vstd::set_lib::lemma_len_subset(less[last], more[last]);
        assert forall|p: int, x: Seq<bool>|
            0 <= p < less.len() && more[p].contains(x) && !(#[trigger] less[p].contains(
                x,
            )) implies total(less) < total(more) by {
            if p < last {
                assert(!less.drop_last()[p].contains(x) && more.drop_last()[p].contains(x));
            } else {
                assert(less[last].subset_of(more[last].remove(x)));
                vstd::set_lib::lemma_len_subset(less[last], more[last].remove(x));
            }
        }
    }
}

/// Predicate `p` is in one of the first `k` components.
spec fn below(sccs: Seq<Vec<usize>>, k: int, p: int) -> bool {
    exists|l: int| 0 <= l < k && #[trigger] in_component(sccs, l, p)
}

/// What holds of the supports while component `k` is narrowed down: the
/// earlier components are done, nothing is lost, and nothing is claimed for
/// the later ones.
spec fn narrowing(
    program: Program,
    catalog: Catalog,
    sccs: Seq<Vec<usize>>,
    k: int,
    sets: Seq<Set<Seq<bool>>>,
) -> bool {
    &&& sets.len() == program.derived@.len()
    &&& forall|p: int, x: Seq<bool>|
        #![trigger sets[p].contains(x)]
        0 <= p < sets.len() && sets[p].contains(x) ==> x.len() == program.derived@[p].arity
    &&& forall|p: int, x: Seq<bool>|
        #![trigger sets[p].contains(x)]
        0 <= p < sets.len() && below(sccs, k, p) && sets[p].contains(x) ==> works_under(
            program,
            catalog,
            sets,
            p,
            x,
        )
    &&& forall|family: Seq<Set<Seq<bool>>>, p: int|
        #![trigger self_supporting(program, catalog, family), family[p]]
        self_supporting(program, catalog, family) && 0 <= p < sets.len() && below(sccs, k + 1, p)
            ==> family[p].subset_of(sets[p])
    &&& forall|p: int|
        0 <= p < sets.len() && !below(sccs, k + 1, p) ==> #[trigger] sets[p] == Set::<
            Seq<bool>,
        >::empty()
}

/// Whether a pattern works is decided by the components up to its own.
proof fn lemma_works_by_callees(
    program: Program,
    catalog: Catalog,
    sccs: Seq<Vec<usize>>,
    k: int,
    less: Seq<Set<Seq<bool>>>,
    more: Seq<Set<Seq<bool>>>,
    p: int,
    pattern: Seq<bool>,
)
    requires
        calls_in_range(program),
        is_component_order(program, sccs),
        0 <= k <= sccs.len(),
        0 <= p < program.derived@.len(),
        below(sccs, k, p),
        less.len() == program.derived@.len(),
        more.len() == less.len(),
        forall|q: int|
            0 <= q < less.len() && below(sccs, k, q) ==> (#[trigger] less[q]).subset_of(more[q]),
        works_under(program, catalog, less, p, pattern),
    ensures
        works_under(program, catalog, more, p, pattern),
{
    let l = choose|l: int| 0 <= l < k && #[trigger] in_component(sccs, l, p);
    assert forall|q: int| #[trigger] depends(program, p, q) && 0 <= q
        < less.len() implies less[q].subset_of(more[q]) by {
        assert(is_placed(sccs, q));
        let m = choose|m: int| 0 <= m < sccs.len() && #[trigger] in_component(sccs, m, q);
        assert(m <= l);
        assert(below(sccs, k, q));
    }
    assert forall|r: int| 0 <= r < program.derived@[p].rules@.len() implies (
    #[trigger] rule_problem(program, catalog, more, p, r, pattern, false)).orderable() by {
        assert(rule_problem(program, catalog, less, p, r, pattern, false).orderable());
        lemma_more_support(program, catalog, less, more, p, r, pattern);
    }
}

/// Marks the patterns of predicate `p` that work.
fn working_patterns(
    program: &Program,
    catalog: &Catalog,
    supports: &Vec<PatternSet>,
    p: usize,
) -> (r: Vec<bool>)
    requires
        program_wf(*program, *catalog),
        p < program.derived@.len(),
        supports@.len() == program.derived@.len(),
    ensures
        r@.len() == supports@[p as int].listed().len(),
        forall|k: int|
            0 <= k < r@.len() ==> #[trigger] r@[k] == works_under(
                *program,
                *catalog,
                support_sets(supports@),
                p as int,
                supports@[p as int].listed()[k],
            ),
{
    let set = &supports[p];
    let mut keep: Vec<bool> = Vec::new();
    let mut k: usize = 0;
    while k < set.len()
        invariant
            k <= set.listed().len(),
            *set == supports@[p as int],
            program_wf(*program, *catalog),
            p < program.derived@.len(),
            supports@.len() == program.derived@.len(),
            keep@.len() == k,
            forall|j: int|
                0 <= j < k ==> #[trigger] keep@[j] == works_under(
                    *program,
                    *catalog,
                    support_sets(supports@),
                    p as int,
                    set.listed()[j],
                ),
        decreases set.listed().len() - k,
    {
        keep.push(derived_orderable(program, catalog, supports, p, set.at(k)));
        k += 1;
    }
    keep
}

/// Keeps, of the predicates of a component, the patterns that work under the
/// supports as they were. Whether anything was removed.
fn prune(
    program: &Program,
    catalog: &Catalog,
    supports: &mut Vec<PatternSet>,
    members: &Vec<usize>,
) -> (r: bool)
    requires
        program_wf(*program, *catalog),
        old(supports)@.len() == program.derived@.len(),
        forall|i: int| 0 <= i < old(supports)@.len() ==> (#[trigger] old(supports)@[i]).wf(),
        forall|i: int| 0 <= i < members@.len() ==> #[trigger] members@[i] < program.derived@.len(),
        forall|i: int, j: int| 0 <= i < j < members@.len() ==> members@[i] < members@[j],
    ensures
        final(supports)@.len() == old(supports)@.len(),
        forall|i: int| 0 <= i < final(supports)@.len() ==> (#[trigger] final(supports)@[i]).wf(),
        forall|p: int|
            0 <= p < final(supports)@.len() && !(exists|i: int|
                0 <= i < members@.len() && members@[i] == p) ==> #[trigger] final(supports)@[p]
                == old(supports)@[p],
        forall|i: int, x: Seq<bool>|
            #![trigger final(supports)@[members@[i] as int]@.contains(x)]
            0 <= i < members@.len() ==> (final(supports)@[members@[i] as int]@.contains(x) <==> old(
                supports,
            )@[members@[i] as int]@.contains(x) && works_under(
                *program,
                *catalog,
                support_sets(old(supports)@),
                members@[i] as int,
                x,
            )),
        r ==> total(support_sets(final(supports)@)) < total(support_sets(old(supports)@)),
        !r ==> forall|i: int, x: Seq<bool>|
            #![trigger old(supports)@[members@[i] as int]@.contains(x)]
            0 <= i < members@.len() && old(supports)@[members@[i] as int]@.contains(x)
                ==> works_under(
                *program,
                *catalog,
                support_sets(old(supports)@),
                members@[i] as int,
                x,
            ),
        !r ==> forall|p: int|
            0 <= p < final(supports)@.len() ==> #[trigger] final(supports)@[p]@ == old(
                supports,
            )@[p]@,
{
    let ghost start = supports@;
    let mut keeps: Vec<Vec<bool>> = Vec::new();
    let mut removed = false;
    let mut i: usize = 0;
    while i < members.len()
        invariant
            i <= members@.len(),
            program_wf(*program, *catalog),
            supports@ == start,
            start.len() == program.derived@.len(),
            forall|j: int| 0 <= j < members@.len() ==> #[trigger] members@[j] < start.len(),
            keeps@.len() == i,
            forall|j: int|
                0 <= j < i ==> (#[trigger] keeps@[j])@.len() == start[members@[j] as int].listed().len(),
            forall|j: int, k: int|
                0 <= j < i && 0 <= k < keeps@[j]@.len() ==> #[trigger] keeps@[j]@[k] == works_under(
                    *program,
                    *catalog,
                    support_sets(start),
                    members@[j] as int,
                    start[members@[j] as int].listed()[k],
                ),
            removed ==> exists|j: int, k: int|
                0 <= j < i && 0 <= k < keeps@[j]@.len() && !#[trigger] keeps@[j]@[k],
            !removed ==> forall|j: int, k: int|
                0 <= j < i && 0 <= k < keeps@[j]@.len() ==> #[trigger] keeps@[j]@[k],
        decreases members.len() - i,
    {
        let keep = working_patterns(program, catalog, supports, members[i]);
        let ghost earlier = keeps@;
        let all_kept = all_marked(&keep);
        keeps.push(keep);
        proof {
            if removed {
                let (j, k) = choose|j: int, k: int|
                    0 <= j < i && 0 <= k < earlier[j]@.len() && !#[trigger] earlier[j]@[k];
                assert(!keeps@[j]@[k]);
            }
            if !all_kept {
                let k = choose|k: int| 0 <= k < keep@.len() && !#[trigger] keep@[k];
                assert(!keeps@[i as int]@[k]);
            }
        }
        if !all_kept {
            removed = true;
        }
        i += 1;
    }
    let mut i: usize = 0;
    while i < members.len()
        invariant
            i <= members@.len(),
            supports@.len() == start.len(),
            start.len() == program.derived@.len(),
            keeps@.len() == members@.len(),
            forall|j: int| 0 <= j < start.len() ==> (#[trigger] start[j]).wf(),
            forall|j: int| 0 <= j < supports@.len() ==> (#[trigger] supports@[j]).wf(),
            forall|j: int| 0 <= j < members@.len() ==> #[trigger] members@[j] < start.len(),
            forall|a: int, b: int| 0 <= a < b < members@.len() ==> members@[a] < members@[b],
            forall|j: int|
                0 <= j < members@.len() ==> (#[trigger] keeps@[j])@.len()
                    == start[members@[j] as int].listed().len(),
            forall|j: int, k: int|
                0 <= j < members@.len() && 0 <= k < keeps@[j]@.len() ==> #[trigger] keeps@[j]@[k]
                    == works_under(
                    *program,
                    *catalog,
                    support_sets(start),
                    members@[j] as int,
                    start[members@[j] as int].listed()[k],
                ),
            forall|p: int|
                0 <= p < supports@.len() && !(exists|j: int| 0 <= j < i && members@[j] == p)
                    ==> #[trigger] supports@[p] == start[p],
            forall|j: int, x: Seq<bool>|
                #![trigger supports@[members@[j] as int]@.contains(x)]
                0 <= j < i ==> (supports@[members@[j] as int]@.contains(x)
                    <==> start[members@[j] as int]@.contains(x) && works_under(
                    *program,
                    *catalog,
                    support_sets(start),
                    members@[j] as int,
                    x,
                )),
        decreases members.len() - i,
    {
        let p: usize = members[i];
        proof {
            assert(!(exists|j: int| 0 <= j < i && members@[j] == p));
            assert(supports@[p as int] == start[p as int]);
        }
        let kept = supports[p].retained(&keeps[i]);
        let ghost earlier = supports@;
        proof {
            let listed = start[p as int].listed();
            assert forall|x: Seq<bool>|
                kept@.contains(x) <==> start[p as int]@.contains(x) && works_under(
                    *program,
                    *catalog,
                    support_sets(start),
                    p as int,
                    x,
                ) by {
                if kept@.contains(x) {
                    let k = choose|k: int|
                        0 <= k < keeps@[i as int]@.len() && keeps@[i as int]@[k]
                            && #[trigger] listed[k] == x;
                    assert(keeps@[i as int]@[k]);
                }
                if start[p as int]@.contains(x) && works_under(
                    *program,
                    *catalog,
                    support_sets(start),
                    p as int,
                    x,
                ) {
                    let k = choose|k: int| 0 <= k < listed.len() && listed[k] == x;
                    assert(keeps@[i as int]@[k]);
                    assert(listed[k] == x);
                }
            }
        }
        supports.set(p, kept);
        proof {
            assert forall|j: int, x: Seq<bool>|
                #![trigger supports@[members@[j] as int]@.contains(x)]
                0 <= j < i + 1 implies (supports@[members@[j] as int]@.contains(x)
                <==> start[members@[j] as int]@.contains(x) && works_under(
                *program,
                *catalog,
                support_sets(start),
                members@[j] as int,
                x,
            )) by {
                if j < i {
                    assert(members@[j] < members@[i as int]);
                    assert(supports@[members@[j] as int] == earlier[members@[j] as int]);
                }
            }
            assert forall|q: int|
                0 <= q < supports@.len() && !(exists|j: int|
                    0 <= j < i + 1 && members@[j] == q) implies #[trigger] supports@[q]
                == start[q] by {
                assert(members@[i as int] == p);
                if exists|j: int| 0 <= j < i && members@[j] == q {
                    let j = choose|j: int| 0 <= j < i && members@[j] == q;
                    assert(0 <= j < i + 1 && members@[j] == q);
                }
                assert(q != p);
                assert(earlier[q] == start[q]);
            }
        }
        i += 1;
    }
    proof {
        let less = support_sets(supports@);
        let more = support_sets(start);
        assert forall|p: int| 0 <= p < less.len() implies (#[trigger] less[p]).subset_of(more[p])
            && more[p].finite() by {
            start[p].lemma_listed();
            if exists|j: int| 0 <= j < members@.len() && members@[j] == p {
                let j = choose|j: int| 0 <= j < members@.len() && members@[j] == p;
                assert forall|x: Seq<bool>| less[p].contains(x) implies more[p].contains(x) by {
                    assert(supports@[members@[j] as int]@.contains(x));
                }
            } else {
                assert(supports@[p] == start[p]);
            }
        }
        lemma_total_shrinks(less, more);
        if removed {
            let (j, k) = choose|j: int, k: int|
                0 <= j < keeps@.len() && 0 <= k < keeps@[j]@.len() && !#[trigger] keeps@[j]@[k];
            let p = members@[j] as int;
            let x = start[p].listed()[k];
            assert(start[p].listed().contains(x));
            assert(more[p].contains(x));
            assert(!supports@[members@[j] as int]@.contains(x));
            assert(!less[p].contains(x));
        } else {
            assert forall|j: int, x: Seq<bool>|
                #![trigger start[members@[j] as int]@.contains(x)]
                0 <= j < members@.len() && start[members@[j] as int]@.contains(
                    x,
                ) implies works_under(
                *program,
                *catalog,
                support_sets(start),
                members@[j] as int,
                x,
            ) by {
                let listed = start[members@[j] as int].listed();
                let k = choose|k: int| 0 <= k < listed.len() && listed[k] == x;
                assert(keeps@[j]@[k]);
            }
            assert forall|p: int| 0 <= p < supports@.len() implies #[trigger] supports@[p]@
                == start[p]@ by {
                if exists|j: int| 0 <= j < members@.len() && members@[j] == p {
                    let j = choose|j: int| 0 <= j < members@.len() && members@[j] == p;
                    assert forall|x: Seq<bool>|
                        supports@[p]@.contains(x) <==> start[p]@.contains(x) by {
                        assert(supports@[members@[j] as int]@.contains(x) <==> start[members@[j] as int]@.contains(x));
                    }
                    assert(supports@[p]@ =~= start[p]@);
                } else {
                    assert(supports@[p] == start[p]);
                }
            }
        }
    }
    removed
}

/// Whether every mark is set.
fn all_marked(marks: &Vec<bool>) -> (r: bool)
    ensures
        r == forall|k: int| 0 <= k < marks@.len() ==> #[trigger] marks@[k],
{
    let mut k: usize = 0;
    while k < marks.len()
        invariant
            k <= marks@.len(),
            forall|j: int| 0 <= j < k ==> #[trigger] marks@[j],
        decreases marks.len() - k,
    {
        if !marks[k] {
            return false;
        }
        k += 1;
    }
    true
}

/// Starting a component: all patterns of its members.
proof fn lemma_start_component(
    program: Program,
    catalog: Catalog,
    sccs: Seq<Vec<usize>>,
    k: int,
    before: Seq<Set<Seq<bool>>>,
    after: Seq<Set<Seq<bool>>>,
)
    requires
        calls_in_range(program),
        is_component_order(program, sccs),
        0 <= k < sccs.len(),
        narrowing(program, catalog, sccs, k - 1, before),
        settled(program, catalog, sccs, k, before),
        after.len() == before.len(),
        forall|p: int|
            0 <= p < after.len() && !in_component(sccs, k, p) ==> #[trigger] after[p] == before[p],
        forall|p: int, x: Seq<bool>|
            0 <= p < after.len() && in_component(sccs, k, p) ==> (#[trigger] after[p].contains(x)
                <==> x.len() == program.derived@[p].arity),
    ensures
        narrowing(program, catalog, sccs, k, after),
{
    assert forall|p: int| below(sccs, k, p) implies !in_component(sccs, k, p) by {
        let l = choose|l: int| 0 <= l < k && #[trigger] in_component(sccs, l, p);
    }
    assert forall|p: int| #[trigger]
        below(sccs, k + 1, p) implies below(sccs, k, p) || in_component(sccs, k, p) by {
        let l = choose|l: int| 0 <= l < k + 1 && #[trigger] in_component(sccs, l, p);
        if l < k {
            assert(below(sccs, k, p));
        }
    }
    assert forall|p: int| below(sccs, k, p) || in_component(sccs, k, p) implies #[trigger] below(
        sccs,
        k + 1,
        p,
    ) by {
        if below(sccs, k, p) {
            let l = choose|l: int| 0 <= l < k && #[trigger] in_component(sccs, l, p);
            assert(0 <= l < k + 1);
        }
    }
    assert forall|p: int, x: Seq<bool>|
        #![trigger after[p].contains(x)]
        0 <= p < after.len() && below(sccs, k, p) && after[p].contains(x) implies works_under(
        program,
        catalog,
        after,
        p,
        x,
    ) by {
        assert(before[p].contains(x));
        lemma_works_by_callees(program, catalog, sccs, k, before, after, p, x);
    }
    assert forall|p: int, x: Seq<bool>|
        #![trigger after[p].contains(x)]
        0 <= p < after.len() && after[p].contains(x) implies x.len()
        == program.derived@[p].arity by {
        if !in_component(sccs, k, p) {
            assert(before[p].contains(x));
        }
    }
    assert forall|family: Seq<Set<Seq<bool>>>, p: int|
        #![trigger self_supporting(program, catalog, family), family[p]]
        self_supporting(program, catalog, family) && 0 <= p < after.len() && below(
            sccs,
            k + 1,
            p,
        ) implies family[p].subset_of(after[p]) by {
        if in_component(sccs, k, p) {
            assert forall|x: Seq<bool>| family[p].contains(x) implies after[p].contains(x) by {}
        } else {
            assert(below(sccs, (k - 1) + 1, p));
            assert(family[p].subset_of(before[p]));
        }
    }
    assert forall|p: int| 0 <= p < after.len() && !below(sccs, k + 1, p) implies #[trigger] after[p]
        == Set::<Seq<bool>>::empty() by {
        assert(!below(sccs, (k - 1) + 1, p));
    }
}

/// The patterns of the first `k` components all work.
spec fn settled(
    program: Program,
    catalog: Catalog,
    sccs: Seq<Vec<usize>>,
    k: int,
    sets: Seq<Set<Seq<bool>>>,
) -> bool {
    forall|p: int, x: Seq<bool>|
        #![trigger sets[p].contains(x)]
        0 <= p < sets.len() && below(sccs, k, p) && sets[p].contains(x) ==> works_under(
            program,
            catalog,
            sets,
            p,
            x,
        )
}

/// Removing patterns that do not work loses nothing that is inferable.
proof fn lemma_prune_keeps(
    program: Program,
    catalog: Catalog,
    sccs: Seq<Vec<usize>>,
    k: int,
    before: Seq<Set<Seq<bool>>>,
    after: Seq<Set<Seq<bool>>>,
)
    requires
        calls_in_range(program),
        is_component_order(program, sccs),
        0 <= k < sccs.len(),
        narrowing(program, catalog, sccs, k, before),
        after.len() == before.len(),
        forall|p: int|
            0 <= p < after.len() && !in_component(sccs, k, p) ==> #[trigger] after[p] == before[p],
        forall|p: int, x: Seq<bool>|
            #![trigger after[p].contains(x)]
            0 <= p < after.len() && in_component(sccs, k, p) ==> (after[p].contains(x)
                <==> before[p].contains(x) && works_under(program, catalog, before, p, x)),
    ensures
        narrowing(program, catalog, sccs, k, after),
{
    assert forall|p: int| below(sccs, k, p) implies !in_component(sccs, k, p) by {
        let l = choose|l: int| 0 <= l < k && #[trigger] in_component(sccs, l, p);
    }
    assert forall|p: int, x: Seq<bool>|
        #![trigger after[p].contains(x)]
        0 <= p < after.len() && below(sccs, k, p) && after[p].contains(x) implies works_under(
        program,
        catalog,
        after,
        p,
        x,
    ) by {
        assert(before[p].contains(x));
        lemma_works_by_callees(program, catalog, sccs, k, before, after, p, x);
    }
    assert forall|p: int, x: Seq<bool>|
        #![trigger after[p].contains(x)]
        0 <= p < after.len() && after[p].contains(x) implies x.len()
        == program.derived@[p].arity by {
        assert(before[p].contains(x));
    }
    assert forall|family: Seq<Set<Seq<bool>>>, p: int|
        #![trigger self_supporting(program, catalog, family), family[p]]
        self_supporting(program, catalog, family) && 0 <= p < after.len() && below(
            sccs,
            k + 1,
            p,
        ) implies family[p].subset_of(after[p]) by {
        assert(family[p].subset_of(before[p]));
        if in_component(sccs, k, p) {
            assert forall|x: Seq<bool>| family[p].contains(x) implies after[p].contains(x) by {
                assert(works_under(program, catalog, family, p, x));
                assert forall|q: int| 0 <= q < family.len() && below(sccs, k + 1, q) implies (
                #[trigger] family[q]).subset_of(before[q]) by {}
                lemma_works_by_callees(program, catalog, sccs, k + 1, family, before, p, x);
            }
        }
    }
    assert forall|p: int| 0 <= p < after.len() && !below(sccs, k + 1, p) implies #[trigger] after[p]
        == Set::<Seq<bool>>::empty() by {
        if in_component(sccs, k, p) {
            assert(below(sccs, k + 1, p));
        }
        assert(before[p] == Set::<Seq<bool>>::empty());
    }
}

/// Finishing the last component: the supports are the inferred ones.
proof fn lemma_all_settled(
    program: Program,
    catalog: Catalog,
    sccs: Seq<Vec<usize>>,
    sets: Seq<Set<Seq<bool>>>,
)
    requires
        calls_in_range(program),
        is_component_order(program, sccs),
        narrowing(program, catalog, sccs, sccs.len() - 1, sets),
        settled(program, catalog, sccs, sccs.len() as int, sets),
    ensures
        sets == inferred(program, catalog),
{
    let n = sccs.len() as int;
    assert forall|p: int| 0 <= p < sets.len() implies #[trigger] below(sccs, n, p) by {
        assert(is_placed(sccs, p));
        let k = choose|k: int| 0 <= k < sccs.len() && #[trigger] in_component(sccs, k, p);
        assert(0 <= k < n);
    }
    assert(self_supporting(program, catalog, sets));
    let all = inferred(program, catalog);
    assert forall|p: int| 0 <= p < sets.len() implies #[trigger] sets[p] == all[p] by {
        assert forall|x: Seq<bool>| sets[p].contains(x) <==> all[p].contains(x) by {
            if sets[p].contains(x) {
                assert(inferable(program, catalog, p, x));
            }
            if all[p].contains(x) {
                assert(inferable(program, catalog, p, x));
                let family = choose|family: Seq<Set<Seq<bool>>>| #[trigger]
                    self_supporting(program, catalog, family) && family[p].contains(x);
                assert(below(sccs, (n - 1) + 1, p));
                assert(family[p].subset_of(sets[p]));
            }
        }
        assert(sets[p] =~= all[p]);
    }
    assert(sets =~= all);
}

/// The inferred patterns of every derived predicate.
fn inferred_supports(program: &Program, catalog: &Catalog) -> (r: Vec<PatternSet>)
    requires
        program_wf(*program, *catalog),
    ensures
        r@.len() == program.derived@.len(),
        forall|i: int| 0 <= i < r@.len() ==> (#[trigger] r@[i]).wf(),
        support_sets(r@) == inferred(*program, *catalog),
{
    proof {
        lemma_calls_in_range(*program, *catalog);
    }
    let n: usize = program.derived.len();
    let mut supports: Vec<PatternSet> = Vec::new();
    let mut i: usize = 0;
    while i < n
        invariant
            i <= n,
            supports@.len() == i,
            forall|j: int| 0 <= j < i ==> (#[trigger] supports@[j]).wf(),
            forall|j: int| 0 <= j < i ==> (#[trigger] supports@[j])@ == Set::<Seq<bool>>::empty(),
        decreases n - i,
    {
        supports.push(PatternSet::new());
        i += 1;
    }
    let sccs = derived_sccs(program);
    let mut k: usize = 0;
    while k < sccs.len()
        invariant
            k <= sccs@.len(),
            n == program.derived@.len(),
            program_wf(*program, *catalog),
            calls_in_range(*program),
            is_component_order(*program, sccs@),
            supports@.len() == n,
            forall|j: int| 0 <= j < n ==> (#[trigger] supports@[j]).wf(),
            narrowing(*program, *catalog, sccs@, k - 1, support_sets(supports@)),
            settled(*program, *catalog, sccs@, k as int, support_sets(supports@)),
        decreases sccs.len() - k,
    {
        let members = &sccs[k];
        let ghost start = supports@;
        proof {
            assert forall|j: int| 0 <= j < members@.len() implies #[trigger] members@[j] < n by {
                assert(sccs@[k as int]@[j] == members@[j]);
                assert(crate::plan::callgraph::holds(sccs@[k as int]@, members@[j] as int));
            }
            assert forall|a: int, b: int| 0 <= a < b < members@.len() implies members@[a]
                < members@[b] by {
                assert(sccs@[k as int]@[a] == members@[a]);
            }
        }
        let mut j: usize = 0;
        while j < members.len()
            invariant
                j <= members@.len(),
                n == program.derived@.len(),
                program_wf(*program, *catalog),
                supports@.len() == n,
                start.len() == n,
                forall|i: int| 0 <= i < members@.len() ==> #[trigger] members@[i] < n,
                forall|i: int| 0 <= i < n ==> (#[trigger] supports@[i]).wf(),
                forall|p: int|
                    0 <= p < n && !(exists|i: int| 0 <= i < j && members@[i] == p)
                        ==> #[trigger] supports@[p] == start[p],
                forall|p: int, x: Seq<bool>|
                    #![trigger supports@[p]@.contains(x)]
                    0 <= p < n && (exists|i: int| 0 <= i < j && members@[i] == p) ==> (
                    supports@[p]@.contains(x) <==> x.len() == program.derived@[p].arity),
            decreases members.len() - j,
        {
            let p: usize = members[j];
            assert(program.derived@[p as int].arity <= 16);
            let ghost earlier = supports@;
            supports.set(p, PatternSet::all(program.derived[p].arity));
            proof {
                assert(members@[j as int] == p);
                assert forall|q: int|
                    0 <= q < n && !(exists|i: int|
                        0 <= i < j + 1 && members@[i] == q) implies #[trigger] supports@[q]
                    == start[q] by {
                    if q == p {
                        assert(0 <= j < j + 1 && members@[j as int] == q);
                    }
                    assert(earlier[q] == start[q]);
                }
                assert forall|q: int, x: Seq<bool>|
                    #![trigger supports@[q]@.contains(x)]
                    0 <= q < n && (exists|i: int| 0 <= i < j + 1 && members@[i] == q) implies (
                supports@[q]@.contains(x) <==> x.len() == program.derived@[q].arity) by {
                    if q != p {
                        let i = choose|i: int| 0 <= i < j + 1 && members@[i] == q;
                        assert(0 <= i < j && members@[i] == q);
                        assert(earlier[q]@.contains(x) == supports@[q]@.contains(x));
                    }
                }
            }
            j += 1;
        }
        proof {
            assert(forall|p: int|
                in_component(sccs@, k as int, p) <==> exists|i: int|
                    0 <= i < members@.len() && members@[i] == p) by {
                assert forall|p: int|
                    in_component(sccs@, k as int, p) <==> exists|i: int|
                        0 <= i < members@.len() && members@[i] == p by {
                    if exists|i: int| 0 <= i < members@.len() && members@[i] == p {
                        let i = choose|i: int| 0 <= i < members@.len() && members@[i] == p;
                        assert(sccs@[k as int]@[i] == p);
                    }
                }
            }
            lemma_start_component(
                *program,
                *catalog,
                sccs@,
                k as int,
                support_sets(start),
                support_sets(supports@),
            );
        }
        // Greatest fixpoint: remove what does not work until stable.
        let mut again = true;
        while again
            invariant
                k < sccs@.len(),
                *members == sccs@[k as int],
                n == program.derived@.len(),
                program_wf(*program, *catalog),
                calls_in_range(*program),
                is_component_order(*program, sccs@),
                supports@.len() == n,
                forall|i: int| 0 <= i < members@.len() ==> #[trigger] members@[i] < n,
                forall|a: int, b: int| 0 <= a < b < members@.len() ==> members@[a] < members@[b],
                forall|i: int| 0 <= i < n ==> (#[trigger] supports@[i]).wf(),
                forall|p: int|
                    in_component(sccs@, k as int, p) <==> exists|i: int|
                        0 <= i < members@.len() && members@[i] == p,
                narrowing(*program, *catalog, sccs@, k as int, support_sets(supports@)),
                !again ==> settled(
                    *program,
                    *catalog,
                    sccs@,
                    k + 1,
                    support_sets(supports@),
                ),
            decreases total(support_sets(supports@)) + (if again { 1nat } else { 0nat }),
        {
            let ghost before = supports@;
            again = prune(program, catalog, &mut supports, members);
            proof {
                let old_sets = support_sets(before);
                let new_sets = support_sets(supports@);
                assert forall|p: int|
                    0 <= p < n && !in_component(
                        sccs@,
                        k as int,
                        p,
                    ) implies #[trigger] new_sets[p] == old_sets[p] by {
                    assert(supports@[p] == before[p]);
                }
                assert forall|p: int, x: Seq<bool>|
                    #![trigger new_sets[p].contains(x)]
                    0 <= p < n && in_component(sccs@, k as int, p) implies (new_sets[p].contains(x)
                    <==> old_sets[p].contains(x) && works_under(
                    *program,
                    *catalog,
                    old_sets,
                    p,
                    x,
                )) by {
                    let i = choose|i: int| 0 <= i < members@.len() && members@[i] == p;
                    assert(supports@[members@[i] as int]@.contains(x) == new_sets[p].contains(x));
                }
                lemma_prune_keeps(*program, *catalog, sccs@, k as int, old_sets, new_sets);
                if !again {
                    assert(new_sets =~= old_sets);
                    assert forall|p: int, x: Seq<bool>|
                        #![trigger new_sets[p].contains(x)]
                        0 <= p < n && below(sccs@, k + 1, p) && new_sets[p].contains(
                            x,
                        ) implies works_under(*program, *catalog, new_sets, p, x) by {
                        let l = choose|l: int|
                            0 <= l < k + 1 && #[trigger] in_component(sccs@, l, p);
                        if l < k {
                            assert(below(sccs@, k as int, p));
                        } else {
                            let i = choose|i: int| 0 <= i < members@.len() && members@[i] == p;
                            assert(before[members@[i] as int]@.contains(x));
                        }
                    }
                }
            }
        }
        k += 1;
    }
    proof {
        lemma_all_settled(*program, *catalog, sccs@, support_sets(supports@));
    }
    supports
}

/// The patterns of a list of declared modes, or the index of the first one
/// that is not inferable.
fn declared_contract(modes: &Vec<Vec<Binding>>, inferred: &PatternSet) -> (r: Result<
    PatternSet,
    usize,
>)
    ensures
        match r {
            Ok(set) => set.wf() && set@ == declared_patterns(modes@) && forall|k: int|
                0 <= k < modes@.len() ==> supported(inferred@, required((#[trigger] modes@[k])@)),
            Err(k) => k < modes@.len() && !supported(inferred@, required(modes@[k as int]@))
                && forall|l: int|
                0 <= l < k ==> supported(inferred@, required((#[trigger] modes@[l])@)),
        },
{
    let mut set = PatternSet::new();
    let mut k: usize = 0;
    while k < modes.len()
        invariant
            k <= modes@.len(),
            set.wf(),
            forall|l: int|
                0 <= l < k ==> supported(inferred@, required((#[trigger] modes@[l])@)),
            forall|x: Seq<bool>| #[trigger]
                set@.contains(x) <==> exists|l: int|
                    0 <= l < k && required((#[trigger] modes@[l])@) == x,
        decreases modes.len() - k,
    {
        let pattern = Pattern::from_bindings(modes[k].as_slice());
        if !inferred.supports(&pattern) {
            return Err(k);
        }
        let ghost before = set@;
        set.insert(pattern);
        proof {
            assert forall|x: Seq<bool>| #[trigger]
                set@.contains(x) <==> exists|l: int|
                    0 <= l < k + 1 && required((#[trigger] modes@[l])@) == x by {
                if before.contains(x) {
                    let l = choose|l: int|
                        0 <= l < k && required((#[trigger] modes@[l])@) == x;
                    assert(0 <= l < k + 1 && required(modes@[l]@) == x);
                }
                if x == required(modes@[k as int]@) {
                    assert(0 <= k < k + 1 && required(modes@[k as int]@) == x);
                }
            }
        }
        k += 1;
    }
    assert(set@ =~= declared_patterns(modes@));
    Ok(set)
}

/// Infers the patterns that every derived predicate supports, and puts the
/// declared modes in their place where there are some.
pub fn infer_supports(program: &Program, catalog: &Catalog) -> (r: Result<
    Vec<PatternSet>,
    PlanError,
>)
    requires
        program_wf(*program, *catalog),
    ensures
        match r {
            Ok(supports) => {
                &&& support_sets(supports@) == contract(*program, *catalog)
                &&& forall|i: int| 0 <= i < supports@.len() ==> (#[trigger] supports@[i]).wf()
                &&& forall|p: int, k: int| !mode_fault(*program, *catalog, p, k)
            },
            Err(error) => exists|p: int, k: int| #[trigger]
                first_mode_fault(*program, *catalog, p, k) && error@ == mode_fault_error(
                    *program,
                    p,
                    k,
                ),
        },
{
    let mut supports = inferred_supports(program, catalog);
    let ghost all = supports@;
    let mut p: usize = 0;
    while p < program.derived.len()
        invariant
            p <= program.derived@.len(),
            program_wf(*program, *catalog),
            supports@.len() == program.derived@.len(),
            all.len() == supports@.len(),
            support_sets(all) == inferred(*program, *catalog),
            forall|i: int| 0 <= i < supports@.len() ==> (#[trigger] supports@[i]).wf(),
            forall|i: int| p <= i < supports@.len() ==> #[trigger] supports@[i] == all[i],
            forall|i: int|
                0 <= i < p ==> (#[trigger] supports@[i])@ == contract(*program, *catalog)[i],
            forall|q: int, l: int|
                0 <= q < p ==> !#[trigger] mode_fault(*program, *catalog, q, l),
        decreases program.derived.len() - p,
    {
        let derived = &program.derived[p];
        proof {
            assert(support_sets(all)[p as int] == all[p as int]@);
        }
        match &derived.declared_modes {
            Some(modes) => {
                match declared_contract(modes, &supports[p]) {
                    Ok(set) => {
                        supports.set(p, set);
                        assert forall|l: int| !#[trigger] mode_fault(
                            *program,
                            *catalog,
                            p as int,
                            l,
                        ) by {
                            if 0 <= l < modes@.len() {
                                assert(supported(all[p as int]@, required(modes@[l]@)));
                            }
                        }
                    },
                    Err(k) => {
                        let pattern = Pattern::from_bindings(modes[k].as_slice());
                        let error = PlanError::DeclaredModeNotInferable {
                            predicate: derived.name.clone(),
                            mode: pattern.render(),
                        };
                        proof {
                            assert forall|q: int, l: int| #[trigger]
                                mode_fault(*program, *catalog, q, l) implies p < q || (p == q && k
                                <= l) by {
                                if q == p && l < k {
                                    assert(supported(all[p as int]@, required(modes@[l]@)));
                                }
                            }
                            assert(mode_fault(*program, *catalog, p as int, k as int));
                            assert(first_mode_fault(*program, *catalog, p as int, k as int));
                            assert(error@ == mode_fault_error(*program, p as int, k as int));
                        }
                        return Err(error);
                    },
                }
            },
            None => {},
        }
        p += 1;
    }
    proof {
        assert(support_sets(supports@) =~= contract(*program, *catalog));
        assert forall|q: int, l: int| !mode_fault(*program, *catalog, q, l) by {
            if 0 <= q < p {
                assert(!mode_fault(*program, *catalog, q, l));
            }
        }
    }
    Ok(supports)
}

} // verus!
