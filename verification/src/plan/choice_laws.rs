//! What a plan chooses: at every step the cheapest goal that can run, by its
//! cheapest access path.

use crate::plan::catalog::Catalog;
use crate::plan::demand::{all_keys, lemma_all_keys_finite, PlanSetting};
use crate::plan::keys::{keys_in_order, lemma_order_exists};
use crate::plan::laws::{law_every_goal_runs_once, law_goals_run_when_ready, left_behind};
use crate::plan::logic::{GoalRef, Program, Rule, Term, Var};
use crate::plan::mode::{covered, required, AccessKind, Binding, CostClass, ModeDef};
use crate::plan::order::{
    flags_of, free_count, is_best_mode, lemma_best_mode_exists, occurs_elsewhere,
    shared_unbound_vars, usable_mode, waiting_on, OrderProblem,
};
use crate::plan::outcome::plan_outcome;
use crate::plan::patterns::supported;
use crate::plan::physical::{AccessView, PlannedGoalView};
use crate::plan::search::rule_wf;
use crate::plan::supports::contract;
use crate::plan::validate::lemma_faultless_program;
use vstd::prelude::*;

verus! {

/// The argument has a value: it is a constant or a variable that has one.
pub open spec fn is_known(term: Term, known: Set<u32>) -> bool {
    match term {
        Term::Const => true,
        Term::Var(var) => known.contains(var.0),
    }
}

/// The variable is one of the terms.
pub open spec fn has_var(terms: Seq<Term>, var: u32) -> bool {
    exists|a: int| 0 <= a < terms.len() && #[trigger] terms[a] == Term::Var(Var(var))
}

/// The variables that have a value before step `k`: those that have one at the
/// start, and those of the goals that ran before and are not negated.
pub open spec fn known_at(
    rule: Rule,
    seeds: Set<u32>,
    goals: Seq<PlannedGoalView>,
    k: int,
) -> Set<u32> {
    Set::new(
        |v: u32|
            seeds.contains(v) || exists|g: int|
                0 <= g < k && {
                    let ran = rule.body@[(#[trigger] goals[g]).source_index];
                    !ran.negated && has_var(ran.args@, v)
                },
    )
}

/// Goal `j` did not run before step `k`.
pub open spec fn is_left(goals: Seq<PlannedGoalView>, k: int, j: int) -> bool {
    forall|g: int| 0 <= g < k ==> (#[trigger] goals[g]).source_index != j
}

/// Every variable that the goal shares with the rest of its rule has a value.
pub open spec fn shared_known(rule: Rule, j: int, known: Set<u32>) -> bool {
    forall|v: u32|
        has_var(rule.body@[j].args@, v) && (has_var(rule.head@, v) || exists|i: int|
            0 <= i < rule.body@.len() && i != j && has_var((#[trigger] rule.body@[i]).args@, v))
            ==> #[trigger] known.contains(v)
}

/// Every argument that the mode needs has a value.
pub open spec fn mode_runs(mode: ModeDef, args: Seq<Term>, known: Set<u32>) -> bool {
    forall|i: int|
        0 <= i < mode.pattern@.len() && i < args.len() && #[trigger] mode.pattern@[i]
            == Binding::Bound ==> is_known(args[i], known)
}

/// The access path is a scan: an extern predicate's scan mode, or a call of a
/// derived predicate that has arguments with none of them known.
pub open spec fn path_scans(access: AccessView) -> bool {
    match access {
        AccessView::Extern { mode, .. } => mode.access == AccessKind::Scan,
        AccessView::Derived { pattern, .. } => pattern.len() > 0 && forall|i: int|
            0 <= i < pattern.len() ==> !#[trigger] pattern[i],
        _ => false,
    }
}

/// A number for each cost class, the dearer the larger.
pub open spec fn price_of(cost: CostClass) -> int {
    match cost {
        CostClass::C0 => 0,
        CostClass::C1 => 1,
        CostClass::C2 => 2,
        CostClass::C3 => 3,
        CostClass::C4 => 4,
    }
}

/// What an access path costs: an extern path what its mode declares, a derived call
/// as much as work on one definition, its scan as much as work on the workspace,
/// inputs and builtins nothing.
pub open spec fn path_price(access: AccessView) -> int {
    match access {
        AccessView::Extern { mode, .. } => price_of(mode.cost),
        AccessView::Derived { .. } => if path_scans(access) {
            4
        } else {
            1
        },
        _ => 0,
    }
}

/// How many arguments have no value.
pub open spec fn unknown_count(args: Seq<Term>, known: Set<u32>) -> nat {
    Set::new(|i: int| 0 <= i < args.len() && !is_known(args[i], known)).len()
}

/// Goal `j` can run by the access path once the variables in `known` have values.
pub open spec fn can_run(problem: OrderProblem, known: Set<u32>, j: int, access: AccessView) -> bool {
    let goal = problem.rule.body@[j];
    &&& goal.negated ==> shared_known(problem.rule, j, known) && !path_scans(access)
    &&& match (goal.target, access) {
        (GoalRef::Extern(name), AccessView::Extern { predicate, mode }) => predicate == name@
            && (problem.deny_scans ==> mode.access != AccessKind::Scan) && mode_runs(
            mode,
            goal.args@,
            known,
        ) && exists|e: int, m: int|
            #![trigger problem.catalog@[e].modes@[m]]
            0 <= e < problem.catalog@.len() && problem.catalog@[e].name@ == name@ && (forall|f: int|
                0 <= f < e ==> (#[trigger] problem.catalog@[f]).name@ != name@) && 0 <= m
                < problem.catalog@[e].modes@.len() && problem.catalog@[e].modes@[m] == mode,
        (GoalRef::Derived(id), AccessView::Derived { id: called, pattern }) => called == id.0
            && pattern.len() == goal.args@.len() && (forall|i: int|
            0 <= i < pattern.len() ==> (#[trigger] pattern[i] <==> is_known(goal.args@[i], known)))
            && supported(problem.supports[id.0 as int], pattern),
        (GoalRef::Input(id), AccessView::Input { id: read }) => read == id.0,
        (GoalRef::Builtin(id), AccessView::Builtin { id: called }) => {
            let pattern = problem.program.builtins@[id.0 as int].pattern@;
            &&& called == id.0
            &&& forall|i: int|
                0 <= i < pattern.len() && i < goal.args@.len() && #[trigger] pattern[i]
                    == Binding::Bound ==> is_known(goal.args@[i], known)
            &&& goal.negated ==> unknown_count(goal.args@, known) == 0
        },
        _ => false,
    }
}

/// A goal by a path is not to be put behind another by another: no scan goes before
/// what is none, then the cheaper goes first, then the one with fewer arguments
/// without a value, then the one that is written first.
pub open spec fn goes_before(
    problem: OrderProblem,
    known: Set<u32>,
    i: int,
    access: AccessView,
    j: int,
    other: AccessView,
) -> bool {
    let free = unknown_count(problem.rule.body@[i].args@, known);
    let wider = unknown_count(problem.rule.body@[j].args@, known);
    if path_scans(access) != path_scans(other) {
        path_scans(other)
    } else if path_price(access) != path_price(other) {
        path_price(access) < path_price(other)
    } else if free != wider {
        free < wider
    } else {
        i <= j
    }
}

/// Step `k` of the order is right: the goal can run by its path, and no goal that is
/// left could run by any path that is to be preferred.
pub open spec fn is_best_step(problem: OrderProblem, goals: Seq<PlannedGoalView>, k: int) -> bool {
    let known = known_at(problem.rule, problem.seeds, goals, k);
    let step = goals[k];
    &&& 0 <= step.source_index < problem.rule.body@.len()
    &&& is_left(goals, k, step.source_index)
    &&& step.negated == problem.rule.body@[step.source_index].negated
    &&& can_run(problem, known, step.source_index, step.access)
    &&& forall|j: int, access: AccessView|
        0 <= j < problem.rule.body@.len() && is_left(goals, k, j) && #[trigger] can_run(
            problem,
            known,
            j,
            access,
        ) ==> goes_before(problem, known, step.source_index, step.access, j, access)
}

proof fn lemma_unknown_upto(args: Seq<Term>, known: Set<u32>, n: nat)
    requires
        n <= args.len(),
    ensures
        Set::new(|i: int| 0 <= i < n && !is_known(args[i], known)).finite(),
        Set::new(|i: int| 0 <= i < n && !is_known(args[i], known)).len() == free_count(
            flags_of(args, known).take(n as int),
        ),
    decreases n,
{
    let flags = flags_of(args, known);
    let here = Set::new(|i: int| 0 <= i < n && !is_known(args[i], known));
    if n == 0 {
        assert(here =~= Set::empty());
        assert(flags.take(0) =~= Seq::<bool>::empty());
    } else {
        let m = (n - 1) as nat;
        lemma_unknown_upto(args, known, m);
        let before = Set::new(|i: int| 0 <= i < m && !is_known(args[i], known));
        assert(flags.take(n as int).drop_last() =~= flags.take(m as int));
        assert(flags.take(n as int).last() == is_known(args[m as int], known));
        if is_known(args[m as int], known) {
            assert(here =~= before);
        } else {
            assert(here =~= before.insert(m as int));
            assert(!before.contains(m as int));
        }
    }
}

proof fn lemma_unknown(args: Seq<Term>, known: Set<u32>)
    ensures
        unknown_count(args, known) == free_count(flags_of(args, known)),
{
    lemma_unknown_upto(args, known, args.len());
    assert(flags_of(args, known).take(args.len() as int) =~= flags_of(args, known));
}

proof fn lemma_mentions(terms: Seq<Term>, var: u32)
    ensures
        has_var(terms, var) <==> crate::plan::logic::mentions(terms, var),
{
    if has_var(terms, var) {
        let a = choose|a: int| 0 <= a < terms.len() && #[trigger] terms[a] == Term::Var(Var(var));
        assert(terms.contains(terms[a]));
    }
    if crate::plan::logic::mentions(terms, var) {
        let a = choose|a: int| 0 <= a < terms.len() && terms[a] == Term::Var(Var(var));
        assert(terms[a] == Term::Var(Var(var)));
    }
}

proof fn lemma_elsewhere(rule: Rule, j: int, var: u32)
    ensures
        occurs_elsewhere(rule, j, var) <==> (has_var(rule.head@, var) || exists|i: int|
            0 <= i < rule.body@.len() && i != j && has_var((#[trigger] rule.body@[i]).args@, var)),
{
    lemma_mentions(rule.head@, var);
    assert forall|i: int| 0 <= i < rule.body@.len() implies has_var(
        (#[trigger] rule.body@[i]).args@,
        var,
    ) == crate::plan::logic::mentions(rule.body@[i].args@, var) by {
        lemma_mentions(rule.body@[i].args@, var);
    }
}

proof fn lemma_waiting(rule: Rule, j: int, known: Set<u32>, upto: int)
    requires
        upto <= rule.body@[j].args@.len(),
    ensures
        waiting_on(rule, j, known, upto).len() == 0 <==> forall|a: int|
            0 <= a < upto ==> match #[trigger] rule.body@[j].args@[a] {
                Term::Var(var) => occurs_elsewhere(rule, j, var.0) ==> known.contains(var.0),
                Term::Const => true,
            },
    decreases upto,
{
    if upto > 0 {
        lemma_waiting(rule, j, known, upto - 1);
        let term = rule.body@[j].args@[upto - 1];
        if waiting_on(rule, j, known, upto).len() == 0 {
            assert(waiting_on(rule, j, known, upto - 1).len() == 0);
        }
    }
}

proof fn lemma_shared(rule: Rule, j: int, known: Set<u32>)
    requires
        0 <= j < rule.body@.len(),
    ensures
        shared_unbound_vars(rule, j, known).len() == 0 <==> shared_known(rule, j, known),
{
    let args = rule.body@[j].args@;
    lemma_waiting(rule, j, known, args.len() as int);
    if shared_unbound_vars(rule, j, known).len() == 0 {
        assert forall|v: u32|
            has_var(args, v) && (has_var(rule.head@, v) || exists|i: int|
                0 <= i < rule.body@.len() && i != j && has_var(
                    (#[trigger] rule.body@[i]).args@,
                    v,
                )) implies #[trigger] known.contains(v) by {
            lemma_elsewhere(rule, j, v);
            let a = choose|a: int| 0 <= a < args.len() && #[trigger] args[a] == Term::Var(Var(v));
            assert(rule.body@[j].args@[a] == Term::Var(Var(v)));
        }
    }
    if shared_known(rule, j, known) {
        assert forall|a: int| 0 <= a < args.len() implies match #[trigger] rule.body@[j].args@[a] {
            Term::Var(var) => occurs_elsewhere(rule, j, var.0) ==> known.contains(var.0),
            Term::Const => true,
        } by {
            if let Term::Var(var) = args[a] {
                lemma_elsewhere(rule, j, var.0);
                assert(args[a] == Term::Var(Var(var.0)));
            }
        }
    }
}

proof fn lemma_mode_runs(mode: ModeDef, args: Seq<Term>, known: Set<u32>)
    ensures
        mode_runs(mode, args, known) <==> mode.admits(flags_of(args, known)),
{
    let need = required(mode.pattern@);
    let have = flags_of(args, known);
    if mode_runs(mode, args, known) {
        assert forall|i: int| 0 <= i < need.len() && i < have.len() && #[trigger] need[i] implies
            have[i] by {
            assert(mode.pattern@[i] == Binding::Bound);
        }
    }
    if mode.admits(have) {
        assert forall|i: int|
            0 <= i < mode.pattern@.len() && i < args.len() && #[trigger] mode.pattern@[i]
                == Binding::Bound implies is_known(args[i], known) by {
            assert(need[i]);
            assert(have[i]);
        }
    }
}

proof fn lemma_flags_known(args: Seq<Term>, known: Set<u32>, pattern: Seq<bool>)
    ensures
        (pattern.len() == args.len() && forall|i: int|
            0 <= i < pattern.len() ==> (#[trigger] pattern[i] <==> is_known(args[i], known)))
            <==> pattern == flags_of(args, known),
{
    let flags = flags_of(args, known);
    if pattern.len() == args.len() && forall|i: int|
        0 <= i < pattern.len() ==> (#[trigger] pattern[i] <==> is_known(args[i], known)) {
        assert(pattern =~= flags);
    }
    if pattern == flags {
        assert forall|i: int| 0 <= i < pattern.len() implies (#[trigger] pattern[i] <==> is_known(
            args[i],
            known,
        )) by {}
    }
}

proof fn lemma_path_scans(access: AccessView)
    ensures
        path_scans(access) == crate::plan::order::scans(access),
        path_price(access) == crate::plan::order::order_cost(access).rank(),
{
}

/// The path that a goal is given can run, and goes before every other path of it.
proof fn lemma_best_path(problem: OrderProblem, known: Set<u32>, j: int, access: AccessView)
    requires
        rule_wf(problem.program, problem.catalog, problem.rule),
        0 <= j < problem.rule.body@.len(),
    ensures
        problem.access_path(j, known) == Some(access) ==> can_run(problem, known, j, access),
        can_run(problem, known, j, access) ==> problem.access_path(j, known) is Some && goes_before(
            problem,
            known,
            j,
            problem.access_path(j, known)->0,
            j,
            access,
        ),
{
    let rule = problem.rule;
    let goal = rule.body@[j];
    let flags = flags_of(goal.args@, known);
    assert(crate::plan::search::goal_wf(problem.program, problem.catalog, rule, rule.body@[j]));
    lemma_shared(rule, j, known);
    lemma_unknown(goal.args@, known);
    lemma_path_scans(access);
    match goal.target {
        GoalRef::Extern(name) => {
            lemma_best_extern_path(problem, known, j, access);
        },
        GoalRef::Derived(id) => {
            if let AccessView::Derived { id: called, pattern } = access {
                lemma_flags_known(goal.args@, known, pattern);
            }
        },
        GoalRef::Input(id) => {},
        GoalRef::Builtin(id) => {
            let pattern = problem.program.builtins@[id.0 as int].pattern@;
            lemma_builtin_runs(pattern, goal.args@, known);
        },
    }
}

proof fn lemma_builtin_runs(pattern: Seq<Binding>, args: Seq<Term>, known: Set<u32>)
    ensures
        covered(required(pattern), flags_of(args, known)) <==> forall|i: int|
            0 <= i < pattern.len() && i < args.len() && #[trigger] pattern[i] == Binding::Bound
                ==> is_known(args[i], known),
{
    let need = required(pattern);
    let have = flags_of(args, known);
    if covered(need, have) {
        assert forall|i: int|
            0 <= i < pattern.len() && i < args.len() && #[trigger] pattern[i]
                == Binding::Bound implies is_known(args[i], known) by {
            assert(need[i]);
            assert(have[i]);
        }
    }
    if forall|i: int|
        0 <= i < pattern.len() && i < args.len() && #[trigger] pattern[i] == Binding::Bound
            ==> is_known(args[i], known) {
        assert forall|i: int| 0 <= i < need.len() && i < have.len() && #[trigger] need[i] implies
            have[i] by {
            assert(pattern[i] == Binding::Bound);
        }
    }
}

proof fn lemma_best_extern_path(
    problem: OrderProblem,
    known: Set<u32>,
    j: int,
    access: AccessView,
)
    requires
        rule_wf(problem.program, problem.catalog, problem.rule),
        0 <= j < problem.rule.body@.len(),
        problem.rule.body@[j].target is Extern,
    ensures
        problem.access_path(j, known) == Some(access) ==> can_run(problem, known, j, access),
        can_run(problem, known, j, access) ==> problem.access_path(j, known) is Some && goes_before(
            problem,
            known,
            j,
            problem.access_path(j, known)->0,
            j,
            access,
        ),
{
    let rule = problem.rule;
    let goal = rule.body@[j];
    let name = goal.target->Extern_0;
    let flags = flags_of(goal.args@, known);
    let no_scans = problem.deny_scans || goal.negated;
    let p = problem.catalog.lookup(name@);
    assert(crate::plan::search::goal_wf(problem.program, problem.catalog, rule, rule.body@[j]));
    let first = choose|i: int| #[trigger] problem.catalog.is_first(name@, i);
    assert(problem.catalog.is_first(name@, first));
    assert(p == problem.catalog@[first]);
    lemma_shared(rule, j, known);
    if problem.access_path(j, known) == Some(access) {
        let best = choose|m: int| is_best_mode(p, flags, no_scans, m);
        assert(is_best_mode(p, flags, no_scans, best));
        assert(usable_mode(p, flags, no_scans, best));
        lemma_mode_runs(p.modes@[best], goal.args@, known);
        assert(problem.catalog@[first].modes@[best] == p.modes@[best]);
    }
    if can_run(problem, known, j, access) {
        let mode = access->Extern_mode;
        let (e, m) = choose|e: int, m: int|
            #![trigger problem.catalog@[e].modes@[m]]
            0 <= e < problem.catalog@.len() && problem.catalog@[e].name@ == name@ && (forall|f: int|
                0 <= f < e ==> (#[trigger] problem.catalog@[f]).name@ != name@) && 0 <= m
                < problem.catalog@[e].modes@.len() && problem.catalog@[e].modes@[m] == mode;
        if e < first {
            assert(problem.catalog@[e].name@ != name@);
        } else if first < e {
            assert(problem.catalog@[first].name@ != name@);
        }
        assert(e == first);
        lemma_mode_runs(mode, goal.args@, known);
        assert(usable_mode(p, flags, no_scans, m));
        lemma_best_mode_exists(p, flags, no_scans, m);
        let best = choose|m: int| is_best_mode(p, flags, no_scans, m);
        assert(is_best_mode(p, flags, no_scans, best));
        if best != m {
            assert(p.prefers(best, m));
        }
    }
}

proof fn lemma_known_at(problem: OrderProblem, k: int)
    requires
        0 <= k < problem.ordered().len(),
        problem.orderable(),
    ensures
        known_at(problem.rule, problem.seeds, problem.ordered(), k) == problem.bound_before(
            left_behind(problem, problem.ordered(), k),
        ),
{
    let order = problem.ordered();
    let rule = problem.rule;
    let left = left_behind(problem, order, k);
    let known = known_at(rule, problem.seeds, order, k);
    let bound = problem.bound_before(left);
    law_every_goal_runs_once(problem);
    assert forall|v: u32| known.contains(v) <==> bound.contains(v) by {
        if known.contains(v) && !problem.seeds.contains(v) {
            let g = choose|g: int|
                0 <= g < k && {
                    let ran = rule.body@[(#[trigger] order[g]).source_index];
                    !ran.negated && has_var(ran.args@, v)
                };
            let j = order[g].source_index;
            lemma_mentions(rule.body@[j].args@, v);
            assert(!left.contains(j));
            assert(!rule.body@[j].negated);
        }
        if bound.contains(v) && !problem.seeds.contains(v) {
            let j = choose|j: int|
                0 <= j < rule.body@.len() && !left.contains(j) && !(
                #[trigger] rule.body@[j]).negated && crate::plan::logic::mentions(
                    rule.body@[j].args@,
                    v,
                );
            lemma_mentions(rule.body@[j].args@, v);
            assert(problem.all_goals().contains(j));
            let g = choose|g: int| 0 <= g < k && (#[trigger] order[g]).source_index == j;
            assert(rule.body@[order[g].source_index] == rule.body@[j]);
        }
    }
    assert(known =~= bound);
}

/// In an ordered body every step is right: the goal that runs is the cheapest of all
/// that could run then, by the cheapest of its access paths.
pub proof fn law_the_cheapest_goal_runs_next(problem: OrderProblem, k: int)
    requires
        rule_wf(problem.program, problem.catalog, problem.rule),
        problem.orderable(),
        0 <= k < problem.ordered().len(),
    ensures
        is_best_step(problem, problem.ordered(), k),
{
    let goals = problem.ordered();
    let step = goals[k];
    let i = step.source_index;
    let left = left_behind(problem, goals, k);
    let known = known_at(problem.rule, problem.seeds, goals, k);
    law_every_goal_runs_once(problem);
    law_goals_run_when_ready(problem, k);
    lemma_known_at(problem, k);
    assert(left.contains(i));
    assert(is_left(goals, k, i)) by {
        assert forall|g: int| 0 <= g < k implies (#[trigger] goals[g]).source_index != i by {}
    }
    lemma_best_path(problem, known, i, step.access);
    assert forall|j: int, access: AccessView|
        0 <= j < problem.rule.body@.len() && is_left(goals, k, j) && #[trigger] can_run(
            problem,
            known,
            j,
            access,
        ) implies goes_before(problem, known, i, step.access, j, access) by {
        lemma_best_path(problem, known, j, access);
        if j != i {
            assert(problem.all_goals().contains(j));
            assert(left.contains(j));
            assert(problem.placeable(left, j));
            assert(problem.goes_first(left, i, j));
            reveal(OrderProblem::place_rank);
            let best = problem.access_path(j, known)->0;
            lemma_path_scans(step.access);
            lemma_path_scans(best);
            lemma_path_scans(access);
            lemma_unknown(problem.rule.body@[i].args@, known);
            lemma_unknown(problem.rule.body@[j].args@, known);
        }
    }
}

/// The rule's goals are ordered from what is known, each exactly once and each step
/// the best.
pub open spec fn is_best_order(problem: OrderProblem, goals: Seq<PlannedGoalView>) -> bool {
    &&& goals.len() == problem.rule.body@.len()
    &&& forall|k: int| 0 <= k < goals.len() ==> #[trigger] is_best_step(problem, goals, k)
}

/// What a rule of a program is ordered by in a plan.
pub open spec fn order_in_plan(
    program: Program,
    catalog: Catalog,
    deny_scans: bool,
    rule: Rule,
    seeds: Set<u32>,
) -> OrderProblem {
    OrderProblem {
        program,
        catalog,
        supports: contract(program, catalog),
        rule,
        seeds,
        deny_scans,
    }
}

/// The variables of a rule's head that have a value where a call of it gives the
/// arguments of the pattern.
pub open spec fn given_by(rule: Rule, pattern: Seq<bool>) -> Set<u32> {
    Set::new(
        |v: u32|
            exists|i: int|
                0 <= i < rule.head@.len() && i < pattern.len() && pattern[i]
                    && #[trigger] rule.head@[i] == Term::Var(Var(v)),
    )
}

proof fn lemma_best_order(problem: OrderProblem)
    requires
        rule_wf(problem.program, problem.catalog, problem.rule),
        problem.orderable(),
    ensures
        is_best_order(problem, problem.ordered()),
{
    let goals = problem.ordered();
    law_every_goal_runs_once(problem);
    assert forall|k: int| 0 <= k < goals.len() implies #[trigger] is_best_step(
        problem,
        goals,
        k,
    ) by {
        law_the_cheapest_goal_runs_next(problem, k);
    }
    let picks = goals.map_values(|goal: PlannedGoalView| goal.source_index);
    let all = vstd::set_lib::set_int_range(0, problem.rule.body@.len() as int);
    vstd::set_lib::lemma_int_range(0, problem.rule.body@.len() as int);
    assert(picks.no_duplicates()) by {
        assert forall|k: int, l: int| 0 <= k < picks.len() && 0 <= l < picks.len() && k
            != l implies picks[k] != picks[l] by {
            if k < l {
                assert(goals[k].source_index != goals[l].source_index);
            } else {
                assert(goals[l].source_index != goals[k].source_index);
            }
        }
    }
    assert(picks.to_set() =~= all) by {
        assert forall|i: int| all.contains(i) implies picks.to_set().contains(i) by {
            assert(crate::plan::laws::has_goal(goals, i));
            let k = choose|k: int| 0 <= k < goals.len() && (#[trigger] goals[k]).source_index == i;
            assert(picks[k] == i);
        }
        assert forall|i: int| picks.to_set().contains(i) implies all.contains(i) by {
            let k = choose|k: int| 0 <= k < picks.len() && picks[k] == i;
            assert(goals[k].source_index == i);
        }
    }
    picks.unique_seq_to_set();
}

/// Every body of a plan, the query's and those of the rules of each specialization,
/// runs each of its goals once, and at every step the cheapest goal that can run then
/// by the cheapest of its access paths.
pub proof fn law_plans_run_the_cheapest_goal_next(
    program: Program,
    catalog: Catalog,
    deny_scans: bool,
)
    requires
        forall|p: int|
            0 <= p < program.derived@.len() ==> (#[trigger] program.derived@[p]).arity <= 16,
        plan_outcome(program, catalog, deny_scans) is Ok,
    ensures
        ({
            let plan = plan_outcome(program, catalog, deny_scans)->Ok_0;
            &&& is_best_order(
                order_in_plan(program, catalog, deny_scans, program.query, Set::empty()),
                plan.query.goals,
            )
            &&& forall|s: int, r: int|
                #![trigger plan.specializations[s].rules[r]]
                0 <= s < plan.specializations.len() && 0 <= r
                    < plan.specializations[s].rules.len() ==> {
                    let rules = program.derived@[plan.specializations[s].predicate].rules@;
                    &&& plan.specializations[s].rules.len() == rules.len()
                    &&& plan.specializations[s].rules[r].rule_index == r
                    &&& is_best_order(
                        order_in_plan(
                            program,
                            catalog,
                            deny_scans,
                            rules[r],
                            given_by(rules[r], plan.specializations[s].pattern),
                        ),
                        plan.specializations[s].rules[r].goals,
                    )
                }
        }),
{
    lemma_faultless_program(program, catalog);
    let setting = PlanSetting {
        program,
        catalog,
        supports: contract(program, catalog),
        deny_scans,
    };
    let state = setting.demanded()->Ok_0;
    let plan = setting.physical(state);
    assert(plan_outcome(program, catalog, deny_scans)->Ok_0 == plan);
    setting.lemma_demanded_is_closed();
    lemma_all_keys_finite(program);
    assert(state.seen.subset_of(all_keys(program)));
    vstd::set_lib::lemma_set_subset_finite(all_keys(program), state.seen);
    lemma_order_exists(state.seen);
    let keys = keys_in_order(state.seen);
    lemma_best_order(setting.problem(None, 0));
    assert(setting.problem(None, 0) == order_in_plan(
        program,
        catalog,
        deny_scans,
        program.query,
        Set::empty(),
    ));
    assert forall|s: int, r: int|
        #![trigger plan.specializations[s].rules[r]]
        0 <= s < plan.specializations.len() && 0 <= r
            < plan.specializations[s].rules.len() implies {
        let rules = program.derived@[plan.specializations[s].predicate].rules@;
        &&& plan.specializations[s].rules.len() == rules.len()
        &&& plan.specializations[s].rules[r].rule_index == r
        &&& is_best_order(
            order_in_plan(
                program,
                catalog,
                deny_scans,
                rules[r],
                given_by(rules[r], plan.specializations[s].pattern),
            ),
            plan.specializations[s].rules[r].goals,
        )
    } by {
        let key = keys[s];
        let spec = plan.specializations[s];
        assert(spec == setting.specialization(key));
        assert(keys.to_set().contains(key));
        assert(state.seen.contains(key));
        let rules = program.derived@[key.0].rules@;
        assert(spec.rules[r] == setting.planned(Some(key), r));
        assert(rule_wf(program, catalog, program.derived@[key.0].rules@[r]));
        let problem = setting.problem(Some(key), r);
        assert(problem.orderable());
        lemma_best_order(problem);
        assert(given_by(rules[r], key.1) =~= crate::plan::supports::head_seeds(rules[r], key.1));
    }
}

/// The variables that have a value once every goal but those left has run.
pub open spec fn known_without(rule: Rule, seeds: Set<u32>, left: Set<int>) -> Set<u32> {
    Set::new(
        |v: u32|
            seeds.contains(v) || exists|i: int|
                0 <= i < rule.body@.len() && !left.contains(i) && !(
                #[trigger] rule.body@[i]).negated && has_var(rule.body@[i].args@, v),
    )
}

/// A body that cannot be ordered has goals left that cannot run by any access path,
/// even with all that the other goals make known; and no other body has any left.
pub proof fn law_stuck_goals_cannot_run(problem: OrderProblem)
    requires
        rule_wf(problem.program, problem.catalog, problem.rule),
    ensures
        forall|j: int, access: AccessView|
            problem.stuck().contains(j) ==> !#[trigger] can_run(
                problem,
                known_without(problem.rule, problem.seeds, problem.stuck()),
                j,
                access,
            ),
        forall|j: int| #[trigger]
            problem.stuck().contains(j) ==> 0 <= j < problem.rule.body@.len(),
        problem.orderable() <==> forall|j: int| !#[trigger] problem.stuck().contains(j),
{
    let stuck = problem.stuck();
    let rule = problem.rule;
    problem.lemma_placement_ends_stuck(problem.all_goals());
    vstd::set_lib::lemma_int_range(0, rule.body@.len() as int);
    let known = known_without(rule, problem.seeds, stuck);
    let bound = problem.bound_before(stuck);
    assert forall|v: u32| known.contains(v) <==> bound.contains(v) by {
        if known.contains(v) && !problem.seeds.contains(v) {
            let i = choose|i: int|
                0 <= i < rule.body@.len() && !stuck.contains(i) && !(
                #[trigger] rule.body@[i]).negated && has_var(rule.body@[i].args@, v);
            lemma_mentions(rule.body@[i].args@, v);
        }
        if bound.contains(v) && !problem.seeds.contains(v) {
            let i = choose|i: int|
                0 <= i < rule.body@.len() && !stuck.contains(i) && !(
                #[trigger] rule.body@[i]).negated && crate::plan::logic::mentions(
                    rule.body@[i].args@,
                    v,
                );
            lemma_mentions(rule.body@[i].args@, v);
        }
    }
    assert(known =~= bound);
    assert forall|j: int, access: AccessView| stuck.contains(j) implies !#[trigger] can_run(
        problem,
        known,
        j,
        access,
    ) by {
        assert(problem.all_goals().contains(j));
        lemma_best_path(problem, known, j, access);
        if can_run(problem, known, j, access) {
            assert(problem.placeable(stuck, j));
        }
    }
    if forall|j: int| !#[trigger] stuck.contains(j) {
        assert(stuck =~= Set::<int>::empty());
    }
}

} // verus!
