//! What holds of every plan.

use crate::plan::catalog::Catalog;
use crate::plan::demand::{
    all_keys, is_key, lemma_all_keys_finite, lemma_unseen_shrinks, unseen, DemandState, Key,
    PlanSetting,
};
use crate::plan::explain::{goal_fits, plan_fits, rule_fits, spec_fits};
use crate::plan::keys::{
    key_lt, keys_in_order, lemma_key_order_total, lemma_key_order_transitive, lemma_order_exists,
};
use crate::plan::logic::{GoalRef, Program};
use crate::plan::mode::unseeded;
use crate::plan::order::{
    flags_of, is_best_mode, scans, shared_unbound_vars, usable_mode, OrderProblem,
};
use crate::plan::outcome::{goals_call, is_listed, lemma_goal_among_all, plan_outcome, with_scan};
use crate::plan::physical::{AccessView, PlannedGoalView, PlannedRuleView, ScanUseView};
use crate::plan::search::{goal_wf, rule_wf};
use crate::plan::supports::{contract, program_wf};
use crate::plan::validate::lemma_faultless_program;
use vstd::prelude::*;
use vstd::set_lib::{lemma_int_range, set_int_range};

verus! {

/// The goals not among the first `count` of an order.
pub open spec fn left_behind(problem: OrderProblem, order: Seq<PlannedGoalView>, count: int) -> Set<
    int,
> {
    Set::new(
        |i: int|
            problem.all_goals().contains(i) && forall|k: int|
                0 <= k < count ==> (#[trigger] order[k]).source_index != i,
    )
}

/// The goals of `left` not among the first `count` of an order.
spec fn still(left: Set<int>, order: Seq<PlannedGoalView>, count: int) -> Set<int> {
    Set::new(
        |i: int|
            left.contains(i) && forall|k: int|
                0 <= k < count ==> (#[trigger] order[k]).source_index != i,
    )
}

/// Goal `k` of the order goes next where it stands.
spec fn step_ok(
    problem: OrderProblem,
    left: Set<int>,
    order: Seq<PlannedGoalView>,
    k: int,
) -> bool {
    let here = still(left, order, k);
    &&& problem.is_next(here, order[k].source_index)
    &&& order[k] == problem.placed(here, order[k].source_index)
}

/// The order has goal `i`.
pub open spec fn has_goal(order: Seq<PlannedGoalView>, i: int) -> bool {
    exists|k: int| 0 <= k < order.len() && (#[trigger] order[k]).source_index == i
}

/// What holds of a placement that starts from `left`.
proof fn lemma_placement_steps(problem: OrderProblem, left: Set<int>)
    requires
        left.subset_of(problem.all_goals()),
    ensures
        forall|k: int|
            0 <= k < problem.placement(left).0.len() ==> #[trigger] step_ok(
                problem,
                left,
                problem.placement(left).0,
                k,
            ),
        forall|i: int| #[trigger]
            left.contains(i) ==> problem.placement(left).1.contains(i) || has_goal(
                problem.placement(left).0,
                i,
            ),
    decreases left.len(),
{
    lemma_int_range(0, problem.rule.body@.len() as int);
    vstd::set_lib::lemma_len_subset(left, problem.all_goals());
    if exists|i: int| problem.is_next(left, i) {
        let i = choose|i: int| problem.is_next(left, i);
        let after = left.remove(i);
        lemma_placement_steps(problem, after);
        let order = problem.placement(left).0;
        let rest = problem.placement(after).0;
        assert(order[0] == problem.placed(left, i));
        assert forall|k: int| 0 <= k < order.len() implies #[trigger] step_ok(
            problem,
            left,
            order,
            k,
        ) by {
            let here = still(left, order, k);
            if k == 0 {
                assert(here =~= left);
            } else {
                let there = still(after, rest, k - 1);
                assert(step_ok(problem, after, rest, k - 1));
                assert(order[k] == rest[k - 1]);
                assert forall|j: int| here.contains(j) <==> there.contains(j) by {
                    if here.contains(j) {
                        assert(order[0].source_index != j);
                        assert forall|l: int| 0 <= l < k - 1 implies (
                        #[trigger] rest[l]).source_index != j by {
                            assert(order[l + 1] == rest[l]);
                        }
                    }
                    if there.contains(j) {
                        assert forall|l: int| 0 <= l < k implies (
                        #[trigger] order[l]).source_index != j by {
                            if l > 0 {
                                assert(order[l] == rest[l - 1]);
                            }
                        }
                    }
                }
                assert(here =~= there);
            }
        }
        assert forall|j: int| #[trigger] left.contains(j) implies problem.placement(
            left,
        ).1.contains(j) || has_goal(order, j) by {
            if j == i {
                assert(order[0].source_index == j);
            } else {
                assert(after.contains(j));
                if !problem.placement(after).1.contains(j) {
                    let k = choose|k: int|
                        0 <= k < rest.len() && (#[trigger] rest[k]).source_index == j;
                    assert(order[k + 1] == rest[k]);
                }
            }
        }
    }
}

/// Every goal of an orderable body runs, and runs once.
pub proof fn law_every_goal_runs_once(problem: OrderProblem)
    requires
        problem.orderable(),
    ensures
        forall|i: int|
            0 <= i < problem.rule.body@.len() ==> #[trigger] has_goal(problem.ordered(), i),
        forall|k: int|
            0 <= k < problem.ordered().len() ==> 0 <= (
            #[trigger] problem.ordered()[k]).source_index < problem.rule.body@.len(),
        forall|k: int, l: int|
            0 <= k < l < problem.ordered().len() ==> (
            #[trigger] problem.ordered()[k]).source_index != (
            #[trigger] problem.ordered()[l]).source_index,
{
    let all = problem.all_goals();
    let order = problem.ordered();
    lemma_placement_steps(problem, all);
    assert forall|i: int| 0 <= i < problem.rule.body@.len() implies #[trigger] has_goal(order, i) by {
        assert(all.contains(i));
        assert(!problem.placement(all).1.contains(i));
    }
    assert forall|k: int| 0 <= k < order.len() implies 0 <= (#[trigger] order[k]).source_index
        < problem.rule.body@.len() by {
        assert(step_ok(problem, all, order, k));
        assert(all.contains(order[k].source_index));
    }
    assert forall|k: int, l: int| 0 <= k < l < order.len() implies (
    #[trigger] order[k]).source_index != (#[trigger] order[l]).source_index by {
        assert(step_ok(problem, all, order, l));
        assert(still(all, order, l).contains(order[l].source_index));
    }
}

/// Each goal runs under the bindings of those before it: its access path is
/// the best one for the variables that they bind, and none of the goals that
/// run later was to be preferred.
pub proof fn law_goals_run_when_ready(problem: OrderProblem, k: int)
    requires
        0 <= k < problem.ordered().len(),
    ensures
        ({
            let goal = problem.ordered()[k];
            let left = left_behind(problem, problem.ordered(), k);
            &&& problem.is_next(left, goal.source_index)
            &&& problem.access_path(goal.source_index, problem.bound_before(left)) == Some(
                goal.access,
            )
            &&& goal.negated == problem.goal(goal.source_index).negated
        }),
{
    let order = problem.ordered();
    let all = problem.all_goals();
    lemma_placement_steps(problem, all);
    let goal = order[k];
    assert(step_ok(problem, all, order, k));
    assert(still(all, order, k) =~= left_behind(problem, order, k));
}

/// A negated goal runs once every variable that it shares with the rest of its
/// rule is bound, and it never scans.
pub proof fn law_negation_waits_and_never_scans(problem: OrderProblem, k: int)
    requires
        0 <= k < problem.ordered().len(),
        problem.ordered()[k].negated,
    ensures
        shared_unbound_vars(
            problem.rule,
            problem.ordered()[k].source_index,
            problem.bound_before(left_behind(problem, problem.ordered(), k)),
        ).len() == 0,
        !scans(problem.ordered()[k].access),
{
    law_goals_run_when_ready(problem, k);
    let goal = problem.ordered()[k];
    let bound = problem.bound_before(left_behind(problem, problem.ordered(), k));
    lemma_path_is_allowed(problem, goal.source_index, bound);
}

/// An access path is no extern scan where scans are denied or the goal is
/// negated.
proof fn lemma_path_is_allowed(problem: OrderProblem, index: int, bound: Set<u32>)
    requires
        problem.access_path(index, bound) is Some,
    ensures
        problem.goal(index).negated ==> !scans(problem.access_path(index, bound)->0),
        problem.deny_scans ==> !(problem.access_path(index, bound)->0 matches AccessView::Extern {
            mode,
            ..
        } && mode.access is Scan),
{
    let goal = problem.goal(index);
    let flags = flags_of(goal.args@, bound);
    match goal.target {
        GoalRef::Extern(name) => {
            let p = problem.catalog.lookup(name@);
            let no_scans = problem.deny_scans || goal.negated;
            let m = choose|m: int| is_best_mode(p, flags, no_scans, m);
            assert(usable_mode(p, flags, no_scans, m));
        },
        _ => {},
    }
}

/// The goal scans an extern predicate.
pub open spec fn is_extern_scan(goal: PlannedGoalView) -> bool {
    goal.access matches AccessView::Extern { mode, .. } && mode.access is Scan
}

/// Where scans are denied, no ordered body scans an extern predicate.
pub proof fn law_denied_scans_are_absent(problem: OrderProblem, k: int)
    requires
        problem.deny_scans,
        0 <= k < problem.ordered().len(),
    ensures
        !is_extern_scan(problem.ordered()[k]),
{
    law_goals_run_when_ready(problem, k);
    let goal = problem.ordered()[k];
    let bound = problem.bound_before(left_behind(problem, problem.ordered(), k));
    lemma_path_is_allowed(problem, goal.source_index, bound);
}

/// A scan is listed under the name of what the goal scans, where it scans.
pub open spec fn is_reported(
    setting: PlanSetting,
    goal: PlannedGoalView,
    listed: Seq<ScanUseView>,
) -> bool {
    match goal.access {
        AccessView::Extern { predicate, mode } => mode.access is Scan ==> is_listed(
            listed,
            predicate,
        ),
        AccessView::Derived { id, pattern } => unseeded(pattern) ==> is_listed(
            listed,
            setting.program.derived@[id].name@,
        ),
        _ => true,
    }
}

/// Every goal of the specialization is reported.
pub open spec fn spec_reported(setting: PlanSetting, key: Key, listed: Seq<ScanUseView>) -> bool {
    forall|g: int|
        0 <= g < setting.spec_goals(key).len() ==> is_reported(
            setting,
            #[trigger] setting.spec_goals(key)[g],
            listed,
        )
}

/// No name is listed twice.
pub open spec fn names_distinct(listed: Seq<ScanUseView>) -> bool {
    forall|i: int, j: int|
        0 <= i < j < listed.len() ==> (#[trigger] listed[i]).predicate != (
        #[trigger] listed[j]).predicate
}

/// Every specialization that the goals call has been visited.
pub open spec fn calls_visited(program: Program, goals: Seq<PlannedGoalView>, visited: Set<Key>) -> bool {
    forall|key: Key| #[trigger]
        goals_call(goals, key) && is_key(program, key) ==> visited.contains(key)
}

proof fn lemma_with_scan(met: Seq<ScanUseView>, scan: ScanUseView)
    ensures
        is_listed(with_scan(met, scan), scan.predicate),
        forall|name: Seq<char>| is_listed(met, name) ==> #[trigger] is_listed(
            with_scan(met, scan),
            name,
        ),
        names_distinct(met) ==> names_distinct(with_scan(met, scan)),
{
    let after = with_scan(met, scan);
    if !is_listed(met, scan.predicate) {
        assert(after[met.len() as int].predicate == scan.predicate);
        assert forall|name: Seq<char>| is_listed(met, name) implies #[trigger] is_listed(
            after,
            name,
        ) by {
            let i = choose|i: int| 0 <= i < met.len() && (#[trigger] met[i]).predicate == name;
            assert(after[i].predicate == name);
        }
        if names_distinct(met) {
            assert forall|i: int, j: int| 0 <= i < j < after.len() implies (
            #[trigger] after[i]).predicate != (#[trigger] after[j]).predicate by {
                assert(after[i] == met[i]);
                if j < met.len() {
                    assert(after[j] == met[j]);
                }
            }
        }
    }
}

/// Following goals reports them all, and whatever they lead to.
proof fn lemma_scans_met_reports(
    setting: PlanSetting,
    goals: Seq<PlannedGoalView>,
    visited: Set<Key>,
    met: Seq<ScanUseView>,
) -> (then: Set<Key>)
    requires
        program_wf(setting.program, setting.catalog),
        names_distinct(met),
    ensures
        visited.subset_of(then),
        calls_visited(setting.program, goals, then),
        forall|name: Seq<char>| is_listed(met, name) ==> #[trigger] is_listed(
            setting.scans_met(goals, visited, met),
            name,
        ),
        forall|g: int|
            0 <= g < goals.len() ==> is_reported(
                setting,
                #[trigger] goals[g],
                setting.scans_met(goals, visited, met),
            ),
        forall|key: Key| #[trigger]
            then.contains(key) && !visited.contains(key) ==> spec_reported(
                setting,
                key,
                setting.scans_met(goals, visited, met),
            ) && calls_visited(setting.program, setting.spec_goals(key), then),
        names_distinct(setting.scans_met(goals, visited, met)),
    decreases unseen(setting.program, visited).len(), goals.len(),
{
    if goals.len() == 0 {
        visited
    } else {
        let all = setting.scans_met(goals, visited, met);
        let rest = goals.drop_first();
        let first = goals[0];
        match first.access {
            AccessView::Extern { predicate, mode } => {
                let scan = ScanUseView { predicate, cost: mode.cost };
                lemma_with_scan(met, scan);
                let now = if mode.access is Scan {
                    with_scan(met, scan)
                } else {
                    met
                };
                let then = lemma_scans_met_reports(setting, rest, visited, now);
                lemma_first_reported(setting, goals, all, then);
                then
            },
            AccessView::Derived { id, pattern } => {
                let key = (id, pattern);
                let scan = ScanUseView {
                    predicate: setting.program.derived@[id].name@,
                    cost: setting.exact_cost(key),
                };
                lemma_with_scan(met, scan);
                let now = if unseeded(pattern) {
                    with_scan(met, scan)
                } else {
                    met
                };
                if visited.contains(key) || !is_key(setting.program, key) {
                    let then = lemma_scans_met_reports(setting, rest, visited, now);
                    lemma_first_reported(setting, goals, all, then);
                    then
                } else {
                    let inner = setting.spec_goals(key);
                    let next = inner + rest;
                    lemma_unseen_shrinks(setting.program, visited, key);
                    let then = lemma_scans_met_reports(setting, next, visited.insert(key), now);
                    assert forall|g: int| 0 <= g < inner.len() implies is_reported(
                        setting,
                        #[trigger] inner[g],
                        all,
                    ) by {
                        assert(next[g] == inner[g]);
                    }
                    assert forall|k: Key| #[trigger]
                        goals_call(inner, k) implies goals_call(next, k) by {
                        let g = choose|g: int|
                            0 <= g < inner.len() && (#[trigger] inner[g]).access == (
                            AccessView::Derived { id: k.0, pattern: k.1 });
                        assert(next[g] == inner[g]);
                    }
                    assert forall|k: Key| #[trigger]
                        goals_call(rest, k) implies goals_call(next, k) by {
                        let g = choose|g: int|
                            0 <= g < rest.len() && (#[trigger] rest[g]).access == (
                            AccessView::Derived { id: k.0, pattern: k.1 });
                        assert(next[inner.len() + g] == rest[g]);
                    }
                    assert forall|g: int| 0 <= g < rest.len() implies is_reported(
                        setting,
                        #[trigger] rest[g],
                        all,
                    ) by {
                        assert(next[inner.len() + g] == rest[g]);
                    }
                    assert(visited.insert(key).contains(key));
                    assert(then.contains(key));
                    lemma_first_reported(setting, goals, all, then);
                    then
                }
            },
            _ => {
                let then = lemma_scans_met_reports(setting, rest, visited, met);
                lemma_first_reported(setting, goals, all, then);
                then
            },
        }
    }
}

/// Where the first goal and the others are reported, all are.
proof fn lemma_first_reported(
    setting: PlanSetting,
    goals: Seq<PlannedGoalView>,
    all: Seq<ScanUseView>,
    then: Set<Key>,
)
    requires
        goals.len() > 0,
        is_reported(setting, goals[0], all),
        forall|g: int|
            0 <= g < goals.drop_first().len() ==> is_reported(
                setting,
                #[trigger] goals.drop_first()[g],
                all,
            ),
        calls_visited(setting.program, goals.drop_first(), then),
        goals[0].access matches AccessView::Derived { id, pattern } ==> (is_key(
            setting.program,
            (id, pattern),
        ) ==> then.contains((id, pattern))),
    ensures
        forall|g: int| 0 <= g < goals.len() ==> is_reported(setting, #[trigger] goals[g], all),
        calls_visited(setting.program, goals, then),
{
    let rest = goals.drop_first();
    assert forall|g: int| 0 <= g < goals.len() implies is_reported(
        setting,
        #[trigger] goals[g],
        all,
    ) by {
        if g > 0 {
            assert(goals[g] == rest[g - 1]);
        }
    }
    assert forall|key: Key| #[trigger]
        goals_call(goals, key) && is_key(setting.program, key) implies then.contains(key) by {
        let g = choose|g: int|
            0 <= g < goals.len() && (#[trigger] goals[g]).access == (AccessView::Derived {
                id: key.0,
                pattern: key.1,
            });
        assert(key == (key.0, key.1));
        if g > 0 {
            assert(goals[g] == rest[g - 1]);
            assert(goals_call(rest, key));
        }
    }
}

/// Scans are visible always: whatever the query or any specialization of a
/// plan scans is listed by name, and no name is listed twice.
pub proof fn law_scans_are_visible(setting: PlanSetting)
    requires
        program_wf(setting.program, setting.catalog),
        setting.demanded() is Ok,
    ensures
        ({
            let listed = setting.physical(setting.demanded()->Ok_0).scans;
            &&& names_distinct(listed)
            &&& forall|g: int|
                0 <= g < setting.query_goals().len() ==> is_reported(
                    setting,
                    #[trigger] setting.query_goals()[g],
                    listed,
                )
            &&& forall|key: Key| #[trigger]
                setting.demanded()->Ok_0.seen.contains(key) ==> spec_reported(setting, key, listed)
        }),
{
    let goals = setting.query_goals();
    let listed = setting.scans_met(goals, Set::empty(), Seq::empty());
    let then = lemma_scans_met_reports(setting, goals, Set::empty(), Seq::empty());
    setting.law_demand_is_exact();
    setting.lemma_demanded_is_closed();
    assert forall|key: Key| #[trigger]
        setting.demanded()->Ok_0.seen.contains(key) implies spec_reported(
        setting,
        key,
        listed,
    ) by {
        assert(setting.is_demanded(key));
        let first = choose|first: Key| #[trigger]
            goals_call(goals, first) && setting.key_reaches(first, key);
        setting.lemma_key_reaches_self(first);
        assert(setting.is_demanded(first));
        assert(setting.demanded()->Ok_0.seen.contains(first));
        assert(then.contains(first));
        let path = choose|path: Seq<Key>| #[trigger]
            setting.is_key_path(path) && path[0] == first && path.last() == key;
        lemma_path_visited(setting, path, then);
    }
}

/// The goal scans: an extern predicate by a scan mode, or a derived one by
/// calling it with nothing bound.
pub open spec fn is_scan_goal(goal: PlannedGoalView) -> bool {
    scans(goal.access)
}

/// No goal of the rule scans.
pub open spec fn is_scan_free(rule: PlannedRuleView) -> bool {
    forall|g: int| 0 <= g < rule.goals.len() ==> !is_scan_goal(#[trigger] rule.goals[g])
}

/// Where scans are denied a plan contains none: it lists no scan, no goal of its
/// query or of a specialization scans, and no specialization is a scan.
pub proof fn law_denied_plans_hold_no_scan(program: Program, catalog: Catalog)
    requires
        forall|p: int|
            0 <= p < program.derived@.len() ==> (#[trigger] program.derived@[p]).arity <= 16,
        plan_outcome(program, catalog, true) is Ok,
    ensures
        ({
            let plan = plan_outcome(program, catalog, true)->Ok_0;
            &&& plan.scans.len() == 0
            &&& is_scan_free(plan.query)
            &&& forall|s: int| #![trigger plan.specializations[s]]
                0 <= s < plan.specializations.len() ==> !plan.specializations[s].is_scan
                    && forall|r: int|
                    0 <= r < plan.specializations[s].rules.len() ==> is_scan_free(
                        #[trigger] plan.specializations[s].rules[r],
                    )
        }),
{
    lemma_faultless_program(program, catalog);
    let setting = PlanSetting {
        program,
        catalog,
        supports: contract(program, catalog),
        deny_scans: true,
    };
    let state = setting.demanded()->Ok_0;
    let plan = setting.physical(state);
    law_scans_are_visible(setting);
    setting.law_demand_is_exact();
    setting.lemma_demanded_is_closed();
    lemma_all_keys_finite(program);
    vstd::set_lib::lemma_set_subset_finite(all_keys(program), state.seen);
    lemma_order_exists(state.seen);
    let keys = keys_in_order(state.seen);
    assert forall|g: int| 0 <= g < plan.query.goals.len() implies !is_scan_goal(
        #[trigger] plan.query.goals[g],
    ) by {
        assert(is_reported(setting, setting.query_goals()[g], plan.scans));
    }
    assert forall|s: int| #![trigger plan.specializations[s]]
        0 <= s < plan.specializations.len() implies !plan.specializations[s].is_scan && forall|
        r: int,
    |
        0 <= r < plan.specializations[s].rules.len() ==> is_scan_free(
            #[trigger] plan.specializations[s].rules[r],
        ) by {
        let key = keys[s];
        let spec = plan.specializations[s];
        assert(spec == setting.specialization(key));
        assert(keys.to_set().contains(key));
        assert(spec_reported(setting, key, plan.scans));
        if unseeded(key.1) {
            lemma_demanded_call_is_reported(setting, key);
        }
        assert forall|r: int| 0 <= r < spec.rules.len() implies is_scan_free(
            #[trigger] spec.rules[r],
        ) by {
            assert forall|g: int| 0 <= g < spec.rules[r].goals.len() implies !is_scan_goal(
                #[trigger] spec.rules[r].goals[g],
            ) by {
                let h = lemma_goal_among_all(spec.rules, r, g);
                assert(is_reported(setting, setting.spec_goals(key)[h], plan.scans));
            }
        }
    }
}

/// A demanded specialization is called somewhere, and where it is a scan that
/// call is listed.
proof fn lemma_demanded_call_is_reported(setting: PlanSetting, key: Key)
    requires
        program_wf(setting.program, setting.catalog),
        setting.demanded() is Ok,
        setting.demanded()->Ok_0.seen.contains(key),
        unseeded(key.1),
    ensures
        setting.plan_scans().len() > 0,
{
    let listed = setting.plan_scans();
    law_scans_are_visible(setting);
    setting.law_demand_is_exact();
    assert(setting.is_demanded(key));
    let first = choose|first: Key| #[trigger]
        goals_call(setting.query_goals(), first) && setting.key_reaches(first, key);
    let path = choose|path: Seq<Key>| #[trigger]
        setting.is_key_path(path) && path[0] == first && path.last() == key;
    if path.len() == 1 {
        let g = choose|g: int|
            0 <= g < setting.query_goals().len() && (#[trigger] setting.query_goals()[g]).access
                == (AccessView::Derived { id: key.0, pattern: key.1 });
        assert(is_reported(setting, setting.query_goals()[g], listed));
    } else {
        let from = path[path.len() - 2];
        let front = path.drop_last();
        assert(setting.edge(path[path.len() - 2], path[path.len() - 1]));
        assert forall|i: int| 0 <= i < front.len() - 1 implies setting.edge(
            #[trigger] front[i],
            front[i + 1],
        ) by {
            assert(setting.edge(path[i], path[i + 1]));
        }
        assert(setting.is_key_path(front) && front[0] == first && front.last() == from);
        assert(setting.key_reaches(first, from));
        assert(setting.is_demanded(from));
        assert(setting.demanded()->Ok_0.seen.contains(from));
        let goals = setting.spec_goals(from);
        let g = choose|g: int|
            0 <= g < goals.len() && (#[trigger] goals[g]).access == (AccessView::Derived {
                id: key.0,
                pattern: key.1,
            });
        assert(spec_reported(setting, from, listed));
        assert(is_reported(setting, goals[g], listed));
    }
}

/// Calls lead from what has been visited to what has been visited.
proof fn lemma_path_visited(setting: PlanSetting, path: Seq<Key>, then: Set<Key>)
    requires
        program_wf(setting.program, setting.catalog),
        setting.is_key_path(path),
        then.contains(path[0]),
        is_key(setting.program, path[0]),
        forall|key: Key| #[trigger]
            then.contains(key) ==> calls_visited(setting.program, setting.spec_goals(key), then),
    ensures
        then.contains(path.last()),
        is_key(setting.program, path.last()),
    decreases path.len(),
{
    if path.len() > 1 {
        let front = path.drop_last();
        assert forall|i: int| 0 <= i < front.len() - 1 implies setting.edge(
            #[trigger] front[i],
            front[i + 1],
        ) by {
            assert(setting.edge(path[i], path[i + 1]));
        }
        lemma_path_visited(setting, front, then);
        assert(setting.edge(path[path.len() - 2], path[path.len() - 1]));
        setting.lemma_edge_is_key(front.last(), path.last());
    }
}

/// Nothing under a negation reaches a scan: a finished plan holds no
/// specialization that is called from under a negation and from which calls
/// lead to a scan.
pub proof fn law_negation_is_scan_free(setting: PlanSetting, key: Key)
    requires
        program_wf(setting.program, setting.catalog),
        setting.demanded() is Ok,
        setting.finished(setting.demanded()->Ok_0) is Ok,
        setting.is_denied(key),
    ensures
        !setting.reaches_scan(key),
{
    let state = setting.demanded()->Ok_0;
    setting.law_demand_is_exact();
    if setting.reaches_scan(key) {
        setting.lemma_demanded_is_closed();
        lemma_all_keys_finite(setting.program);
        assert(state.negated.subset_of(all_keys(setting.program)));
        vstd::set_lib::lemma_set_subset_finite(all_keys(setting.program), state.negated);
        lemma_first_denied_exists(setting, state, key);
    }
}

/// The keys of a set that come before one.
spec fn keys_before(set: Set<Key>, key: Key) -> Set<Key> {
    set.filter(|k: Key| key_lt(k, key))
}

proof fn lemma_first_denied_exists(setting: PlanSetting, state: DemandState, key: Key)
    requires
        state.negated.contains(key),
        setting.reaches_scan(key),
        state.negated.finite(),
    ensures
        exists|first: Key| setting.is_first_denied(state, first),
    decreases keys_before(state.negated, key).len(),
{
    if !setting.is_first_denied(state, key) {
        let other = choose|other: Key| #[trigger]
            state.negated.contains(other) && setting.reaches_scan(other) && other != key && !key_lt(
                key,
                other,
            );
        lemma_key_order_total(key, other);
        let less = keys_before(state.negated, other);
        let more = keys_before(state.negated, key);
        assert forall|k: Key| less.contains(k) implies more.remove(other).contains(k) by {
            lemma_key_order_transitive(k, other, key);
            lemma_key_order_total(other, other);
        }
        assert(more.contains(other));
        vstd::set_lib::lemma_len_subset(less, more.remove(other));
        lemma_first_denied_exists(setting, state, other);
    }
}

/// What an ordered goal refers to exists.
proof fn lemma_ordered_goal_fits(problem: OrderProblem, k: int)
    requires
        rule_wf(problem.program, problem.catalog, problem.rule),
        0 <= k < problem.ordered().len(),
    ensures
        goal_fits(problem.program, problem.rule, problem.ordered()[k]),
{
    law_goals_run_when_ready(problem, k);
    let i = problem.ordered()[k].source_index;
    assert(problem.all_goals().contains(i));
    assert(goal_wf(problem.program, problem.catalog, problem.rule, problem.rule.body@[i]));
}

/// Every finished plan refers to goals, rules and predicates of its program
/// only, so that it can be explained.
pub proof fn law_plans_fit_their_program(setting: PlanSetting)
    requires
        program_wf(setting.program, setting.catalog),
        setting.demanded() is Ok,
    ensures
        plan_fits(setting.program, setting.physical(setting.demanded()->Ok_0)),
{
    let program = setting.program;
    let state = setting.demanded()->Ok_0;
    let plan = setting.physical(state);
    setting.lemma_demanded_is_closed();
    lemma_all_keys_finite(program);
    assert(state.seen.subset_of(all_keys(program)));
    vstd::set_lib::lemma_set_subset_finite(all_keys(program), state.seen);
    lemma_order_exists(state.seen);
    let keys = keys_in_order(state.seen);
    assert forall|g: int| 0 <= g < plan.query.goals.len() implies goal_fits(
        program,
        program.query,
        #[trigger] plan.query.goals[g],
    ) by {
        lemma_ordered_goal_fits(setting.problem(None, 0), g);
    }
    assert forall|s: int| 0 <= s < plan.specializations.len() implies spec_fits(
        program,
        #[trigger] plan.specializations[s],
    ) by {
        let key = keys[s];
        assert(keys.to_set().contains(key));
        assert(state.seen.contains(key));
        let spec = plan.specializations[s];
        assert(spec == setting.specialization(key));
        assert forall|r: int| 0 <= r < spec.rules.len() implies 0 <= (
        #[trigger] spec.rules[r]).rule_index < program.derived@[spec.predicate].rules@.len()
            && rule_fits(
            program,
            program.derived@[spec.predicate].rules@[spec.rules[r].rule_index],
            spec.rules[r],
        ) by {
            assert(spec.rules[r] == setting.planned(Some(key), r));
            assert(rule_wf(program, setting.catalog, program.derived@[key.0].rules@[r]));
            assert forall|g: int| 0 <= g < spec.rules[r].goals.len() implies goal_fits(
                program,
                program.derived@[key.0].rules@[r],
                #[trigger] spec.rules[r].goals[g],
            ) by {
                lemma_ordered_goal_fits(setting.problem(Some(key), r), g);
            }
        }
    }
}

} // verus!
