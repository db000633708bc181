//! What a plan reports of itself: its specializations, its costs and its scans.

use crate::plan::catalog::Catalog;
use crate::plan::choice_laws::{path_scans, price_of};
use crate::plan::demand::{
    all_keys, is_key, lemma_all_keys_finite, lemma_unseen_shrinks, unseen, Key, PlanSetting,
};
use crate::plan::keys::{keys_in_order, lemma_key_order_total, lemma_order_exists};
use crate::plan::laws::{law_scans_are_visible, is_reported, spec_reported};
use crate::plan::logic::Program;
use crate::plan::mode::{unseeded, AccessKind, CostClass};
use crate::plan::outcome::{
    dearest, goals_call, lemma_all_goals_origin, lemma_goal_among_all, plan_outcome, served,
    with_scan,
};
use crate::plan::physical::{
    AccessView, PhysicalPlanView, PlannedGoalView, ScanUseView, SpecializationView,
};
use crate::plan::supports::{contract, program_wf};
use crate::plan::validate::lemma_faultless_program;
use vstd::prelude::*;

verus! {

/// Some of the goals reads an extern predicate at the cost.
pub open spec fn reads_at(goals: Seq<PlannedGoalView>, cost: CostClass) -> bool {
    exists|g: int|
        0 <= g < goals.len() && ((#[trigger] goals[g]).access matches AccessView::Extern {
            mode,
            ..
        } && mode.cost == cost)
}

/// No goal reads an extern predicate at a higher cost.
pub open spec fn reads_within(goals: Seq<PlannedGoalView>, cost: CostClass) -> bool {
    forall|g: int|
        0 <= g < goals.len() ==> ((#[trigger] goals[g]).access matches AccessView::Extern {
            mode,
            ..
        } ==> price_of(mode.cost) <= price_of(cost))
}

/// Some of the goals calls the specialization.
pub open spec fn calls_spec(goals: Seq<PlannedGoalView>, spec: SpecializationView) -> bool {
    exists|g: int|
        0 <= g < goals.len() && (#[trigger] goals[g]).access == (AccessView::Derived {
            id: spec.predicate,
            pattern: spec.pattern,
        })
}

/// A rule of the one specialization calls the other.
pub open spec fn spec_calls(from: SpecializationView, to: SpecializationView) -> bool {
    exists|r: int| 0 <= r < from.rules.len() && calls_spec((#[trigger] from.rules[r]).goals, to)
}

/// Calls lead along specializations of the plan.
pub open spec fn is_call_path(plan: PhysicalPlanView, path: Seq<int>) -> bool {
    &&& path.len() > 0
    &&& forall|i: int|
        0 <= i < path.len() ==> 0 <= #[trigger] path[i] < plan.specializations.len()
    &&& forall|i: int|
        0 <= i < path.len() - 1 ==> spec_calls(
            plan.specializations[#[trigger] path[i]],
            plan.specializations[path[i + 1]],
        )
}

/// Calls lead from the one specialization of the plan to the other.
pub open spec fn leads_to(plan: PhysicalPlanView, from: int, to: int) -> bool {
    exists|path: Seq<int>| #[trigger]
        is_call_path(plan, path) && path[0] == from && path.last() == to
}

/// The query calls for the specialization, directly or through others.
pub open spec fn is_called_for(plan: PhysicalPlanView, t: int) -> bool {
    exists|s: int|
        0 <= s < plan.specializations.len() && calls_spec(
            plan.query.goals,
            plan.specializations[s],
        ) && #[trigger] leads_to(plan, s, t)
}

/// The plan's setting.
spec fn setting_of(program: Program, catalog: Catalog, deny_scans: bool) -> PlanSetting {
    PlanSetting { program, catalog, supports: contract(program, catalog), deny_scans }
}

proof fn lemma_dearest(goals: Seq<PlannedGoalView>)
    ensures
        reads_within(goals, dearest(goals)),
        dearest(goals) == CostClass::C0 || reads_at(goals, dearest(goals)),
    decreases goals.len(),
{
    if goals.len() > 0 {
        let rest = goals.drop_last();
        lemma_dearest(rest);
        assert forall|g: int|
            0 <= g < goals.len() implies ((#[trigger] goals[g]).access matches AccessView::Extern {
            mode,
            ..
        } ==> price_of(mode.cost) <= price_of(dearest(goals))) by {
            if g < rest.len() {
                assert(rest[g] == goals[g]);
            }
        }
        if reads_at(rest, dearest(rest)) {
            let g = choose|g: int|
                0 <= g < rest.len() && ((#[trigger] rest[g]).access matches AccessView::Extern {
                    mode,
                    ..
                } && mode.cost == dearest(rest));
            assert(goals[g] == rest[g]);
            assert(reads_at(goals, dearest(rest)));
        }
        if dearest(goals) != dearest(rest) {
            assert(goals[goals.len() - 1] == goals.last());
            assert(reads_at(goals, dearest(goals)));
        }
    }
}

/// Something that the specialization reaches has its dearest access at the cost.
spec fn has_cost(setting: PlanSetting, key: Key, cost: CostClass) -> bool {
    exists|to: Key| #[trigger] setting.key_reaches(key, to) && setting.own_cost(to) == cost
}

proof fn lemma_exact_cost(setting: PlanSetting, key: Key)
    ensures
        setting.is_exact_cost(key, setting.exact_cost(key)),
{
    setting.lemma_key_reaches_self(key);
    assert(has_cost(setting, key, setting.own_cost(key)));
    let top = if has_cost(setting, key, CostClass::C4) {
        CostClass::C4
    } else if has_cost(setting, key, CostClass::C3) {
        CostClass::C3
    } else if has_cost(setting, key, CostClass::C2) {
        CostClass::C2
    } else if has_cost(setting, key, CostClass::C1) {
        CostClass::C1
    } else {
        CostClass::C0
    };
    assert forall|to: Key| #[trigger] setting.key_reaches(key, to) implies setting.own_cost(
        to,
    ).rank() <= top.rank() by {
        assert(has_cost(setting, key, setting.own_cost(to)));
    }
    assert(has_cost(setting, key, top));
    assert(setting.is_exact_cost(key, top));
}

spec fn plan_has_cost(setting: PlanSetting, seen: Set<Key>, cost: CostClass) -> bool {
    dearest(setting.query_goals()) == cost || exists|key: Key| #[trigger]
        seen.contains(key) && setting.exact_cost(key) == cost
}

proof fn lemma_plan_cost(setting: PlanSetting, seen: Set<Key>)
    ensures
        setting.is_plan_cost(
            seen,
            choose|cost: CostClass| setting.is_plan_cost(seen, cost),
        ),
{
    let own = dearest(setting.query_goals());
    assert(plan_has_cost(setting, seen, own));
    let top = if plan_has_cost(setting, seen, CostClass::C4) {
        CostClass::C4
    } else if plan_has_cost(setting, seen, CostClass::C3) {
        CostClass::C3
    } else if plan_has_cost(setting, seen, CostClass::C2) {
        CostClass::C2
    } else if plan_has_cost(setting, seen, CostClass::C1) {
        CostClass::C1
    } else {
        CostClass::C0
    };
    assert forall|key: Key| #[trigger] seen.contains(key) implies setting.exact_cost(key).rank()
        <= top.rank() by {
        assert(plan_has_cost(setting, seen, setting.exact_cost(key)));
    }
    assert(plan_has_cost(setting, seen, top));
    assert(setting.is_plan_cost(seen, top));
}

/// The keys of a plan's specializations, in their order.
proof fn lemma_plan_keys(program: Program, catalog: Catalog, deny_scans: bool)
    requires
        forall|p: int|
            0 <= p < program.derived@.len() ==> (#[trigger] program.derived@[p]).arity <= 16,
        plan_outcome(program, catalog, deny_scans) is Ok,
    ensures
        ({
            let setting = setting_of(program, catalog, deny_scans);
            let plan = plan_outcome(program, catalog, deny_scans)->Ok_0;
            let state = setting.demanded()->Ok_0;
            let keys = keys_in_order(state.seen);
            &&& program_wf(program, catalog)
            &&& setting.demanded() is Ok
            &&& plan == setting.physical(state)
            &&& plan.specializations.len() == keys.len()
            &&& forall|s: int|
                0 <= s < keys.len() ==> (#[trigger] plan.specializations[s])
                    == setting.specialization(keys[s]) && state.seen.contains(keys[s])
            &&& forall|key: Key| #[trigger] state.seen.contains(key) ==> keys.contains(key)
            &&& crate::plan::keys::keys_ascend(keys)
            &&& forall|key: Key| #[trigger] state.seen.contains(key) ==> is_key(program, key)
                && setting.compiled(key, state)
            &&& served(program, setting.query_goals(), state)
        }),
{
    lemma_faultless_program(program, catalog);
    let setting = setting_of(program, catalog, deny_scans);
    let state = setting.demanded()->Ok_0;
    setting.lemma_demanded_is_closed();
    lemma_all_keys_finite(program);
    assert(state.seen.subset_of(all_keys(program)));
    vstd::set_lib::lemma_set_subset_finite(all_keys(program), state.seen);
    lemma_order_exists(state.seen);
    let keys = keys_in_order(state.seen);
    assert forall|s: int| 0 <= s < keys.len() implies state.seen.contains(#[trigger] keys[s]) by {
        assert(keys.to_set().contains(keys[s]));
    }
    assert forall|key: Key| #[trigger] state.seen.contains(key) implies keys.contains(key) by {
        assert(keys.to_set().contains(key));
    }
}

proof fn lemma_edge_calls(setting: PlanSetting, from: Key, to: Key)
    ensures
        setting.edge(from, to) <==> spec_calls(
            setting.specialization(from),
            setting.specialization(to),
        ),
{
    let spec = setting.specialization(from);
    let called = setting.specialization(to);
    let goals = setting.spec_goals(from);
    assert(to == (to.0, to.1));
    if setting.edge(from, to) {
        let h = choose|h: int|
            0 <= h < goals.len() && (#[trigger] goals[h]).access == (AccessView::Derived {
                id: to.0,
                pattern: to.1,
            });
        let (r, g) = lemma_all_goals_origin(spec.rules, h);
        assert(spec.rules[r].goals[g].access == goals[h].access);
        assert(calls_spec(spec.rules[r].goals, called));
    }
    if spec_calls(spec, called) {
        let r = choose|r: int|
            0 <= r < spec.rules.len() && calls_spec((#[trigger] spec.rules[r]).goals, called);
        let inner = spec.rules[r].goals;
        let g = choose|g: int|
            0 <= g < inner.len() && (#[trigger] inner[g]).access == (AccessView::Derived {
                id: called.predicate,
                pattern: called.pattern,
            });
        let h = lemma_goal_among_all(spec.rules, r, g);
        assert(goals[h].access == inner[g].access);
    }
}

/// A path of keys among those of the plan is a path of its specializations.
proof fn lemma_key_path_leads(
    program: Program,
    catalog: Catalog,
    deny_scans: bool,
    path: Seq<Key>,
) -> (ends: (int, int))
    requires
        forall|p: int|
            0 <= p < program.derived@.len() ==> (#[trigger] program.derived@[p]).arity <= 16,
        plan_outcome(program, catalog, deny_scans) is Ok,
        setting_of(program, catalog, deny_scans).is_key_path(path),
        setting_of(program, catalog, deny_scans).demanded()->Ok_0.seen.contains(path[0]),
    ensures
        ({
            let setting = setting_of(program, catalog, deny_scans);
            let plan = plan_outcome(program, catalog, deny_scans)->Ok_0;
            let keys = keys_in_order(setting.demanded()->Ok_0.seen);
            &&& 0 <= ends.0 < keys.len() && keys[ends.0] == path[0]
            &&& 0 <= ends.1 < keys.len() && keys[ends.1] == path.last()
            &&& leads_to(plan, ends.0, ends.1)
        }),
    decreases path.len(),
{
    lemma_plan_keys(program, catalog, deny_scans);
    let setting = setting_of(program, catalog, deny_scans);
    let plan = plan_outcome(program, catalog, deny_scans)->Ok_0;
    let state = setting.demanded()->Ok_0;
    let keys = keys_in_order(state.seen);
    if path.len() == 1 {
        let s = choose|s: int| 0 <= s < keys.len() && keys[s] == path[0];
        assert(is_call_path(plan, seq![s]) && seq![s][0] == s && seq![s].last() == s);
        (s, s)
    } else {
        let front = path.drop_last();
        assert forall|i: int| 0 <= i < front.len() - 1 implies setting.edge(
            #[trigger] front[i],
            front[i + 1],
        ) by {
            assert(setting.edge(path[i], path[i + 1]));
        }
        let (a, b) = lemma_key_path_leads(program, catalog, deny_scans, front);
        let mid = front.last();
        let end = path.last();
        assert(setting.edge(path[path.len() - 2], path[path.len() - 1]));
        setting.lemma_path_is_seen(path, state);
        let c = choose|s: int| 0 <= s < keys.len() && keys[s] == end;
        lemma_edge_calls(setting, mid, end);
        let way = choose|way: Seq<int>| #[trigger]
            is_call_path(plan, way) && way[0] == a && way.last() == b;
        let longer = way.push(c);
        assert forall|i: int| 0 <= i < longer.len() - 1 implies spec_calls(
            plan.specializations[#[trigger] longer[i]],
            plan.specializations[longer[i + 1]],
        ) by {
            if i < way.len() - 1 {
                assert(longer[i] == way[i] && longer[i + 1] == way[i + 1]);
            } else {
                assert(longer[i] == b);
            }
        }
        assert(is_call_path(plan, longer) && longer[0] == a && longer.last() == c);
        (a, c)
    }
}

/// A plan holds exactly the specializations that its query calls for: each is listed
/// once, each call has its own, and calls lead from the query to each. One is a scan
/// where it is called with no argument known.
pub proof fn law_plans_hold_what_is_called(program: Program, catalog: Catalog, deny_scans: bool)
    requires
        forall|p: int|
            0 <= p < program.derived@.len() ==> (#[trigger] program.derived@[p]).arity <= 16,
        plan_outcome(program, catalog, deny_scans) is Ok,
    ensures
        ({
            let plan = plan_outcome(program, catalog, deny_scans)->Ok_0;
            let specs = plan.specializations;
            &&& forall|g: int|
                0 <= g < plan.query.goals.len() && (#[trigger] plan.query.goals[g]).access is Derived
                    ==> exists|t: int|
                    0 <= t < specs.len() && plan.query.goals[g].access == (AccessView::Derived {
                        id: (#[trigger] specs[t]).predicate,
                        pattern: specs[t].pattern,
                    })
            &&& forall|s: int, r: int, g: int|
                #![trigger specs[s].rules[r].goals[g]]
                0 <= s < specs.len() && 0 <= r < specs[s].rules.len() && 0 <= g
                    < specs[s].rules[r].goals.len() && specs[s].rules[r].goals[g].access is Derived
                    ==> exists|t: int|
                    0 <= t < specs.len() && specs[s].rules[r].goals[g].access == (
                    AccessView::Derived {
                        id: (#[trigger] specs[t]).predicate,
                        pattern: specs[t].pattern,
                    })
            &&& forall|t: int| 0 <= t < specs.len() ==> #[trigger] is_called_for(plan, t)
            &&& forall|s: int, t: int|
                0 <= s < t < specs.len() ==> (#[trigger] specs[s]).predicate != (
                #[trigger] specs[t]).predicate || specs[s].pattern != specs[t].pattern
            &&& forall|t: int|
                0 <= t < specs.len() ==> ((#[trigger] specs[t]).is_scan <==> specs[t].pattern.len()
                    > 0 && forall|i: int|
                    0 <= i < specs[t].pattern.len() ==> !#[trigger] specs[t].pattern[i])
        }),
{
    lemma_plan_keys(program, catalog, deny_scans);
    let setting = setting_of(program, catalog, deny_scans);
    let plan = plan_outcome(program, catalog, deny_scans)->Ok_0;
    let specs = plan.specializations;
    let state = setting.demanded()->Ok_0;
    let keys = keys_in_order(state.seen);
    setting.law_demand_is_exact();
    assert forall|g: int|
        0 <= g < plan.query.goals.len() && (
        #[trigger] plan.query.goals[g]).access is Derived implies exists|t: int|
        0 <= t < specs.len() && plan.query.goals[g].access == (AccessView::Derived {
            id: (#[trigger] specs[t]).predicate,
            pattern: specs[t].pattern,
        }) by {
        let access = setting.query_goals()[g].access;
        let key = (access->Derived_id, access->Derived_pattern);
        assert(goals_call(setting.query_goals(), key));
        setting.lemma_key_reaches_self(key);
        assert(setting.is_demanded(key));
        let t = choose|t: int| 0 <= t < keys.len() && keys[t] == key;
        assert(specs[t] == setting.specialization(keys[t]));
    }
    assert forall|s: int, r: int, g: int|
        #![trigger specs[s].rules[r].goals[g]]
        0 <= s < specs.len() && 0 <= r < specs[s].rules.len() && 0 <= g
            < specs[s].rules[r].goals.len() && specs[s].rules[r].goals[g].access is Derived implies
        exists|t: int|
        0 <= t < specs.len() && specs[s].rules[r].goals[g].access == (AccessView::Derived {
            id: (#[trigger] specs[t]).predicate,
            pattern: specs[t].pattern,
        }) by {
        let key = keys[s];
        assert(specs[s] == setting.specialization(keys[s]));
        let access = specs[s].rules[r].goals[g].access;
        let to = (access->Derived_id, access->Derived_pattern);
        let h = lemma_goal_among_all(specs[s].rules, r, g);
        assert(setting.spec_goals(key)[h].access == access);
        assert(setting.edge(key, to));
        assert(setting.is_demanded(key));
        let first = choose|first: Key| #[trigger]
            goals_call(setting.query_goals(), first) && setting.key_reaches(first, key);
        setting.lemma_key_reaches_step(first, key, to);
        assert(setting.is_demanded(to));
        let t = choose|t: int| 0 <= t < keys.len() && keys[t] == to;
        assert(specs[t] == setting.specialization(keys[t]));
    }
    assert forall|t: int| 0 <= t < specs.len() implies #[trigger] is_called_for(plan, t) by {
        assert(specs[t] == setting.specialization(keys[t]));
        assert(setting.is_demanded(keys[t]));
        let first = choose|first: Key| #[trigger]
            goals_call(setting.query_goals(), first) && setting.key_reaches(first, keys[t]);
        setting.lemma_key_reaches_self(first);
        assert(setting.is_demanded(first));
        let path = choose|path: Seq<Key>| #[trigger]
            setting.is_key_path(path) && path[0] == first && path.last() == keys[t];
        let (a, b) = lemma_key_path_leads(program, catalog, deny_scans, path);
        assert(specs[a] == setting.specialization(keys[a]));
        lemma_key_order_total(keys[b], keys[t]);
        if b < t {
            assert(crate::plan::keys::key_lt(keys[b], keys[t]));
        } else if t < b {
            assert(crate::plan::keys::key_lt(keys[t], keys[b]));
        }
        assert(b == t);
        let g = choose|g: int|
            0 <= g < setting.query_goals().len() && (#[trigger] setting.query_goals()[g]).access
                == (AccessView::Derived { id: first.0, pattern: first.1 });
        assert(plan.query.goals[g].access == (AccessView::Derived {
            id: specs[a].predicate,
            pattern: specs[a].pattern,
        }));
        assert(calls_spec(plan.query.goals, specs[a]));
        assert(leads_to(plan, a, t));
    }
    assert forall|s: int, t: int| 0 <= s < t < specs.len() implies (#[trigger] specs[s]).predicate
        != (#[trigger] specs[t]).predicate || specs[s].pattern != specs[t].pattern by {
        assert(crate::plan::keys::key_lt(keys[s], keys[t]));
        lemma_key_order_total(keys[s], keys[s]);
        assert(keys[s] == (keys[s].0, keys[s].1) && keys[t] == (keys[t].0, keys[t].1));
    }
    assert forall|t: int| 0 <= t < specs.len() implies ((#[trigger] specs[t]).is_scan
        <==> specs[t].pattern.len() > 0 && forall|i: int|
        0 <= i < specs[t].pattern.len() ==> !#[trigger] specs[t].pattern[i]) by {
        assert(specs[t] == setting.specialization(keys[t]));
    }
}

/// Something that calls lead to from the specialization costs as much as it reports.
pub open spec fn is_attained(plan: PhysicalPlanView, s: int) -> bool {
    exists|t: int, r: int|
        #![trigger plan.specializations[t].rules[r]]
        0 <= t < plan.specializations.len() && leads_to(plan, s, t) && 0 <= r
            < plan.specializations[t].rules.len() && reads_at(
            plan.specializations[t].rules[r].goals,
            plan.specializations[s].max_cost,
        )
}

proof fn lemma_spec_reads_within(
    program: Program,
    catalog: Catalog,
    deny_scans: bool,
    s: int,
    r: int,
)
    requires
        forall|p: int|
            0 <= p < program.derived@.len() ==> (#[trigger] program.derived@[p]).arity <= 16,
        plan_outcome(program, catalog, deny_scans) is Ok,
        0 <= s < plan_outcome(program, catalog, deny_scans)->Ok_0.specializations.len(),
        0 <= r < plan_outcome(
            program,
            catalog,
            deny_scans,
        )->Ok_0.specializations[s].rules.len(),
    ensures
        ({
            let spec = plan_outcome(program, catalog, deny_scans)->Ok_0.specializations[s];
            reads_within(spec.rules[r].goals, spec.max_cost)
        }),
{
    lemma_plan_keys(program, catalog, deny_scans);
    let setting = setting_of(program, catalog, deny_scans);
    let spec = plan_outcome(program, catalog, deny_scans)->Ok_0.specializations[s];
    let key = keys_in_order(setting.demanded()->Ok_0.seen)[s];
    assert(spec == setting.specialization(key));
    lemma_exact_cost(setting, key);
    setting.lemma_key_reaches_self(key);
    lemma_dearest(setting.spec_goals(key));
    let goals = spec.rules[r].goals;
    assert forall|g: int|
        0 <= g < goals.len() implies ((#[trigger] goals[g]).access matches AccessView::Extern {
        mode,
        ..
    } ==> price_of(mode.cost) <= price_of(spec.max_cost)) by {
        let h = lemma_goal_among_all(spec.rules, r, g);
        assert(setting.spec_goals(key)[h] == goals[g]);
    }
}

proof fn lemma_called_costs_no_more(
    program: Program,
    catalog: Catalog,
    deny_scans: bool,
    s: int,
    t: int,
)
    requires
        forall|p: int|
            0 <= p < program.derived@.len() ==> (#[trigger] program.derived@[p]).arity <= 16,
        plan_outcome(program, catalog, deny_scans) is Ok,
        0 <= s < plan_outcome(program, catalog, deny_scans)->Ok_0.specializations.len(),
        0 <= t < plan_outcome(program, catalog, deny_scans)->Ok_0.specializations.len(),
        spec_calls(
            plan_outcome(program, catalog, deny_scans)->Ok_0.specializations[s],
            plan_outcome(program, catalog, deny_scans)->Ok_0.specializations[t],
        ),
    ensures
        ({
            let specs = plan_outcome(program, catalog, deny_scans)->Ok_0.specializations;
            price_of(specs[t].max_cost) <= price_of(specs[s].max_cost)
        }),
{
    lemma_plan_keys(program, catalog, deny_scans);
    let setting = setting_of(program, catalog, deny_scans);
    let specs = plan_outcome(program, catalog, deny_scans)->Ok_0.specializations;
    let keys = keys_in_order(setting.demanded()->Ok_0.seen);
    assert(specs[s] == setting.specialization(keys[s]));
    assert(specs[t] == setting.specialization(keys[t]));
    lemma_edge_calls(setting, keys[s], keys[t]);
    lemma_exact_cost(setting, keys[s]);
    lemma_exact_cost(setting, keys[t]);
    let to = choose|to: Key| #[trigger]
        setting.key_reaches(keys[t], to) && setting.own_cost(to) == setting.exact_cost(keys[t]);
    lemma_reaches_over(setting, keys[s], keys[t], to);
}

proof fn lemma_cost_is_attained(program: Program, catalog: Catalog, deny_scans: bool, s: int)
    requires
        forall|p: int|
            0 <= p < program.derived@.len() ==> (#[trigger] program.derived@[p]).arity <= 16,
        plan_outcome(program, catalog, deny_scans) is Ok,
        0 <= s < plan_outcome(program, catalog, deny_scans)->Ok_0.specializations.len(),
        plan_outcome(program, catalog, deny_scans)->Ok_0.specializations[s].max_cost
            != CostClass::C0,
    ensures
        is_attained(plan_outcome(program, catalog, deny_scans)->Ok_0, s),
{
    lemma_plan_keys(program, catalog, deny_scans);
    let setting = setting_of(program, catalog, deny_scans);
    let plan = plan_outcome(program, catalog, deny_scans)->Ok_0;
    let specs = plan.specializations;
    let keys = keys_in_order(setting.demanded()->Ok_0.seen);
    let key = keys[s];
    assert(specs[s] == setting.specialization(keys[s]));
    lemma_exact_cost(setting, key);
    let to = choose|to: Key| #[trigger]
        setting.key_reaches(key, to) && setting.own_cost(to) == setting.exact_cost(key);
    let path = choose|path: Seq<Key>| #[trigger]
        setting.is_key_path(path) && path[0] == key && path.last() == to;
    let (a, t) = lemma_key_path_leads(program, catalog, deny_scans, path);
    lemma_key_order_total(key, key);
    if a < s {
        assert(crate::plan::keys::key_lt(keys[a], keys[s]));
    } else if s < a {
        assert(crate::plan::keys::key_lt(keys[s], keys[a]));
    }
    assert(a == s);
    assert(specs[t] == setting.specialization(keys[t]));
    let goals = setting.spec_goals(to);
    lemma_dearest(goals);
    let h = choose|h: int|
        0 <= h < goals.len() && ((#[trigger] goals[h]).access matches AccessView::Extern {
            mode,
            ..
        } && mode.cost == dearest(goals));
    let (r, g) = lemma_all_goals_origin(specs[t].rules, h);
    assert(specs[t].rules[r].goals[g].access == goals[h].access);
    assert(reads_at(specs[t].rules[r].goals, specs[s].max_cost));
}

proof fn lemma_plan_cost_told(program: Program, catalog: Catalog, deny_scans: bool)
    requires
        forall|p: int|
            0 <= p < program.derived@.len() ==> (#[trigger] program.derived@[p]).arity <= 16,
        plan_outcome(program, catalog, deny_scans) is Ok,
    ensures
        ({
            let plan = plan_outcome(program, catalog, deny_scans)->Ok_0;
            let specs = plan.specializations;
            &&& reads_within(plan.query.goals, plan.max_cost)
            &&& forall|s: int|
                0 <= s < specs.len() ==> price_of((#[trigger] specs[s]).max_cost) <= price_of(
                    plan.max_cost,
                )
            &&& plan.max_cost == CostClass::C0 || reads_at(plan.query.goals, plan.max_cost)
                || exists|s: int| 0 <= s < specs.len() && (#[trigger] specs[s]).max_cost
                == plan.max_cost
        }),
{
    lemma_plan_keys(program, catalog, deny_scans);
    let setting = setting_of(program, catalog, deny_scans);
    let plan = plan_outcome(program, catalog, deny_scans)->Ok_0;
    let specs = plan.specializations;
    let state = setting.demanded()->Ok_0;
    let keys = keys_in_order(state.seen);
    lemma_plan_cost(setting, state.seen);
    lemma_dearest(setting.query_goals());
    assert forall|s: int| 0 <= s < specs.len() implies price_of((#[trigger] specs[s]).max_cost)
        <= price_of(plan.max_cost) by {
        assert(specs[s] == setting.specialization(keys[s]));
        assert(state.seen.contains(keys[s]));
    }
    if plan.max_cost != dearest(setting.query_goals()) {
        let key = choose|key: Key| #[trigger]
            state.seen.contains(key) && setting.exact_cost(key) == plan.max_cost;
        let s = choose|s: int| 0 <= s < keys.len() && keys[s] == key;
        assert(specs[s] == setting.specialization(keys[s]));
    }
}

/// The costs that a plan reports are those of its dearest accesses: of a
/// specialization over all that calls lead to from it, of the plan over everything;
/// nothing in them costs more, and something costs as much unless all is free.
pub proof fn law_plan_costs_are_those_of_the_dearest_access(
    program: Program,
    catalog: Catalog,
    deny_scans: bool,
)
    requires
        forall|p: int|
            0 <= p < program.derived@.len() ==> (#[trigger] program.derived@[p]).arity <= 16,
        plan_outcome(program, catalog, deny_scans) is Ok,
    ensures
        ({
            let plan = plan_outcome(program, catalog, deny_scans)->Ok_0;
            let specs = plan.specializations;
            &&& reads_within(plan.query.goals, plan.max_cost)
            &&& forall|s: int|
                0 <= s < specs.len() ==> price_of((#[trigger] specs[s]).max_cost) <= price_of(
                    plan.max_cost,
                )
            &&& forall|s: int, r: int|
                #![trigger specs[s].rules[r]]
                0 <= s < specs.len() && 0 <= r < specs[s].rules.len() ==> reads_within(
                    specs[s].rules[r].goals,
                    specs[s].max_cost,
                )
            &&& forall|s: int, t: int|
                0 <= s < specs.len() && 0 <= t < specs.len() && #[trigger] spec_calls(
                    specs[s],
                    specs[t],
                ) ==> price_of(specs[t].max_cost) <= price_of(specs[s].max_cost)
            &&& plan.max_cost == CostClass::C0 || reads_at(plan.query.goals, plan.max_cost)
                || exists|s: int| 0 <= s < specs.len() && (#[trigger] specs[s]).max_cost
                == plan.max_cost
            &&& forall|s: int|
                0 <= s < specs.len() && specs[s].max_cost != CostClass::C0
                    ==> #[trigger] is_attained(plan, s)
        }),
{
    let plan = plan_outcome(program, catalog, deny_scans)->Ok_0;
    let specs = plan.specializations;
    lemma_plan_cost_told(program, catalog, deny_scans);
    assert forall|s: int, r: int|
        #![trigger specs[s].rules[r]]
        0 <= s < specs.len() && 0 <= r < specs[s].rules.len() implies reads_within(
        specs[s].rules[r].goals,
        specs[s].max_cost,
    ) by {
        lemma_spec_reads_within(program, catalog, deny_scans, s, r);
    }
    assert forall|s: int, t: int|
        0 <= s < specs.len() && 0 <= t < specs.len() && #[trigger] spec_calls(
            specs[s],
            specs[t],
        ) implies price_of(specs[t].max_cost) <= price_of(specs[s].max_cost) by {
        lemma_called_costs_no_more(program, catalog, deny_scans, s, t);
    }
    assert forall|s: int|
        0 <= s < specs.len() && specs[s].max_cost
            != CostClass::C0 implies #[trigger] is_attained(plan, s) by {
        lemma_cost_is_attained(program, catalog, deny_scans, s);
    }
}

proof fn lemma_reaches_over(setting: PlanSetting, from: Key, mid: Key, to: Key)
    requires
        setting.edge(from, mid),
        setting.key_reaches(mid, to),
    ensures
        setting.key_reaches(from, to),
{
    let path = choose|path: Seq<Key>| #[trigger]
        setting.is_key_path(path) && path[0] == mid && path.last() == to;
    let longer = seq![from] + path;
    assert forall|i: int| 0 <= i < longer.len() - 1 implies setting.edge(
        #[trigger] longer[i],
        longer[i + 1],
    ) by {
        if i > 0 {
            assert(longer[i] == path[i - 1] && longer[i + 1] == path[i - 1 + 1]);
            assert(setting.edge(path[i - 1], path[i - 1 + 1]));
        }
    }
    assert(setting.is_key_path(longer) && longer[0] == from && longer.last() == to);
}

/// The goal scans, and the report names what it scans and what the scan costs.
pub open spec fn scan_tells(
    program: Program,
    plan: PhysicalPlanView,
    goal: PlannedGoalView,
    scan: ScanUseView,
) -> bool {
    match goal.access {
        AccessView::Extern { predicate, mode } => mode.access == AccessKind::Scan && scan.predicate
            == predicate && scan.cost == mode.cost,
        AccessView::Derived { id, pattern } => path_scans(goal.access) && scan.predicate
            == program.derived@[id].name@ && exists|t: int|
            0 <= t < plan.specializations.len() && (#[trigger] plan.specializations[t]).predicate
                == id && plan.specializations[t].pattern == pattern
                && plan.specializations[t].max_cost == scan.cost,
        _ => false,
    }
}

/// The goal scans what is listed.
spec fn setting_tells(setting: PlanSetting, goal: PlannedGoalView, scan: ScanUseView) -> bool {
    match goal.access {
        AccessView::Extern { predicate, mode } => mode.access is Scan && scan == (ScanUseView {
            predicate,
            cost: mode.cost,
        }),
        AccessView::Derived { id, pattern } => unseeded(pattern) && scan == (ScanUseView {
            predicate: setting.program.derived@[id].name@,
            cost: setting.exact_cost((id, pattern)),
        }),
        _ => false,
    }
}

spec fn told_by(
    setting: PlanSetting,
    goals: Seq<PlannedGoalView>,
    scan: ScanUseView,
) -> bool {
    exists|g: int| 0 <= g < goals.len() && setting_tells(setting, #[trigger] goals[g], scan)
}

/// What is listed is told by the goals or by those of a key in the set.
spec fn told_within(
    setting: PlanSetting,
    goals: Seq<PlannedGoalView>,
    seen: Set<Key>,
    scan: ScanUseView,
) -> bool {
    told_by(setting, goals, scan) || exists|key: Key| #[trigger]
        seen.contains(key) && told_by(setting, setting.spec_goals(key), scan)
}

spec fn calls_within(program: Program, goals: Seq<PlannedGoalView>, seen: Set<Key>) -> bool {
    forall|g: int|
        0 <= g < goals.len() && (#[trigger] goals[g]).access is Derived ==> {
            let key = (goals[g].access->Derived_id, goals[g].access->Derived_pattern);
            is_key(program, key) ==> seen.contains(key)
        }
}

proof fn lemma_scans_told(
    setting: PlanSetting,
    goals: Seq<PlannedGoalView>,
    visited: Set<Key>,
    met: Seq<ScanUseView>,
    seen: Set<Key>,
)
    requires
        calls_within(setting.program, goals, seen),
        forall|key: Key| #[trigger]
            seen.contains(key) ==> calls_within(setting.program, setting.spec_goals(key), seen),
    ensures
        forall|i: int|
            0 <= i < setting.scans_met(goals, visited, met).len() ==> {
                let scan = #[trigger] setting.scans_met(goals, visited, met)[i];
                met.contains(scan) || told_within(setting, goals, seen, scan)
            },
    decreases unseen(setting.program, visited).len(), goals.len(),
{
    let all = setting.scans_met(goals, visited, met);
    if goals.len() == 0 {
        assert forall|i: int| 0 <= i < all.len() implies met.contains(#[trigger] all[i]) by {}
    } else {
        let rest = goals.drop_first();
        assert forall|g: int| 0 <= g < rest.len() implies #[trigger] rest[g] == goals[g + 1] by {}
        assert(calls_within(setting.program, rest, seen)) by {
            assert forall|g: int|
                0 <= g < rest.len() && (#[trigger] rest[g]).access is Derived implies {
                let key = (rest[g].access->Derived_id, rest[g].access->Derived_pattern);
                is_key(setting.program, key) ==> seen.contains(key)
            } by {
                assert(goals[g + 1] == rest[g]);
            }
        }
        assert forall|scan: ScanUseView| told_by(setting, rest, scan) implies told_by(
            setting,
            goals,
            scan,
        ) by {
            let g = choose|g: int|
                0 <= g < rest.len() && setting_tells(setting, #[trigger] rest[g], scan);
            assert(setting_tells(setting, goals[g + 1], scan));
        }
        match goals[0].access {
            AccessView::Extern { predicate, mode } => {
                let scan = ScanUseView { predicate, cost: mode.cost };
                let now = if mode.access is Scan {
                    with_scan(met, scan)
                } else {
                    met
                };
                lemma_scans_told(setting, rest, visited, now, seen);
                assert forall|i: int| 0 <= i < all.len() implies {
                    let one = #[trigger] all[i];
                    met.contains(one) || told_within(setting, goals, seen, one)
                } by {
                    let one = all[i];
                    if now.contains(one) && !met.contains(one) {
                        lemma_with_scan_adds(met, scan, one);
                        assert(setting_tells(setting, goals[0], one));
                    }
                }
            },
            AccessView::Derived { id, pattern } => {
                let key = (id, pattern);
                let scan = ScanUseView {
                    predicate: setting.program.derived@[id].name@,
                    cost: setting.exact_cost(key),
                };
                let now = if unseeded(pattern) {
                    with_scan(met, scan)
                } else {
                    met
                };
                if visited.contains(key) || !is_key(setting.program, key) {
                    lemma_scans_told(setting, rest, visited, now, seen);
                } else {
                    let inner = setting.spec_goals(key);
                    let next = inner + rest;
                    lemma_unseen_shrinks(setting.program, visited, key);
                    assert(goals[0].access is Derived);
                    assert(seen.contains(key));
                    assert(calls_within(setting.program, next, seen)) by {
                        assert forall|g: int|
                            0 <= g < next.len() && (#[trigger] next[g]).access is Derived implies {
                            let key = (
                                next[g].access->Derived_id,
                                next[g].access->Derived_pattern,
                            );
                            is_key(setting.program, key) ==> seen.contains(key)
                        } by {
                            if g < inner.len() {
                                assert(next[g] == inner[g]);
                            } else {
                                assert(next[g] == rest[g - inner.len()]);
                            }
                        }
                    }
                    lemma_scans_told(setting, next, visited.insert(key), now, seen);
                    assert forall|scan: ScanUseView| told_by(setting, next, scan) implies told_by(
                        setting,
                        goals,
                        scan,
                    ) || told_by(setting, inner, scan) by {
                        let g = choose|g: int|
                            0 <= g < next.len() && setting_tells(
                                setting,
                                #[trigger] next[g],
                                scan,
                            );
                        if g < inner.len() {
                            assert(next[g] == inner[g]);
                        } else {
                            assert(next[g] == goals[g - inner.len() + 1]);
                        }
                    }
                }
                assert forall|i: int| 0 <= i < all.len() implies {
                    let one = #[trigger] all[i];
                    met.contains(one) || told_within(setting, goals, seen, one)
                } by {
                    let one = all[i];
                    if now.contains(one) && !met.contains(one) {
                        lemma_with_scan_adds(met, scan, one);
                        assert(setting_tells(setting, goals[0], one));
                    }
                }
            },
            _ => {
                lemma_scans_told(setting, rest, visited, met, seen);
            },
        }
    }
}

proof fn lemma_with_scan_adds(met: Seq<ScanUseView>, scan: ScanUseView, one: ScanUseView)
    requires
        with_scan(met, scan).contains(one),
        !met.contains(one),
    ensures
        one == scan,
{
    let after = with_scan(met, scan);
    let k = choose|k: int| 0 <= k < after.len() && after[k] == one;
    if k < met.len() {
        assert(met[k] == one);
    }
}

/// The goal stands in the plan.
pub open spec fn in_plan(plan: PhysicalPlanView, goal: PlannedGoalView) -> bool {
    plan.query.goals.contains(goal) || exists|s: int, r: int|
        #![trigger plan.specializations[s].rules[r]]
        0 <= s < plan.specializations.len() && 0 <= r < plan.specializations[s].rules.len()
            && plan.specializations[s].rules[r].goals.contains(goal)
}

/// Some goal of the plan scans what is listed, at the cost listed.
pub open spec fn is_scanned(program: Program, plan: PhysicalPlanView, scan: ScanUseView) -> bool {
    exists|goal: PlannedGoalView| #[trigger]
        in_plan(plan, goal) && scan_tells(program, plan, goal, scan)
}

/// A plan lists its scans and nothing else: each listed name is that of something
/// that a goal of the plan scans, at the cost listed; each scan of a goal is listed;
/// and no name is listed twice.
pub proof fn law_plans_list_their_scans(program: Program, catalog: Catalog, deny_scans: bool)
    requires
        forall|p: int|
            0 <= p < program.derived@.len() ==> (#[trigger] program.derived@[p]).arity <= 16,
        plan_outcome(program, catalog, deny_scans) is Ok,
    ensures
        ({
            let plan = plan_outcome(program, catalog, deny_scans)->Ok_0;
            &&& forall|i: int|
                0 <= i < plan.scans.len() ==> is_scanned(program, plan, #[trigger] plan.scans[i])
            &&& forall|goal: PlannedGoalView|
                #[trigger] in_plan(plan, goal) && path_scans(goal.access) ==> exists|i: int|
                    0 <= i < plan.scans.len() && (#[trigger] plan.scans[i]).predicate == (
                    match goal.access {
                        AccessView::Extern { predicate, .. } => predicate,
                        AccessView::Derived { id, .. } => program.derived@[id].name@,
                        _ => Seq::empty(),
                    })
            &&& forall|i: int, j: int|
                0 <= i < j < plan.scans.len() ==> (#[trigger] plan.scans[i]).predicate != (
                #[trigger] plan.scans[j]).predicate
        }),
{
    lemma_plan_keys(program, catalog, deny_scans);
    let setting = setting_of(program, catalog, deny_scans);
    let plan = plan_outcome(program, catalog, deny_scans)->Ok_0;
    let specs = plan.specializations;
    let state = setting.demanded()->Ok_0;
    let keys = keys_in_order(state.seen);
    law_scans_are_visible(setting);
    assert forall|key: Key| #[trigger] state.seen.contains(key) implies calls_within(
        program,
        setting.spec_goals(key),
        state.seen,
    ) by {
        let goals = setting.spec_goals(key);
        assert forall|g: int|
            0 <= g < goals.len() && (#[trigger] goals[g]).access is Derived implies {
            let to = (goals[g].access->Derived_id, goals[g].access->Derived_pattern);
            is_key(program, to) ==> state.seen.contains(to)
        } by {
            let to = (goals[g].access->Derived_id, goals[g].access->Derived_pattern);
            assert(goals_call(goals, to));
            assert(setting.edge(key, to));
            if is_key(program, to) {
                setting.lemma_compiled_edge(key, to, state);
            }
        }
    }
    assert(calls_within(program, setting.query_goals(), state.seen));
    lemma_scans_told(setting, setting.query_goals(), Set::empty(), Seq::empty(), state.seen);
    assert forall|i: int| 0 <= i < plan.scans.len() implies is_scanned(
        program,
        plan,
        #[trigger] plan.scans[i],
    ) by {
        let scan = plan.scans[i];
        assert(told_within(setting, setting.query_goals(), state.seen, scan));
        let goal = if told_by(setting, setting.query_goals(), scan) {
            let goals = setting.query_goals();
            let g = choose|g: int|
                0 <= g < goals.len() && setting_tells(setting, #[trigger] goals[g], scan);
            assert(plan.query.goals.contains(goals[g]));
            goals[g]
        } else {
            let key = choose|key: Key| #[trigger]
                state.seen.contains(key) && told_by(setting, setting.spec_goals(key), scan);
            let goals = setting.spec_goals(key);
            let h = choose|h: int|
                0 <= h < goals.len() && setting_tells(setting, #[trigger] goals[h], scan);
            let s = choose|s: int| 0 <= s < keys.len() && keys[s] == key;
            assert(specs[s] == setting.specialization(keys[s]));
            let (r, g) = lemma_all_goals_origin(specs[s].rules, h);
            assert(specs[s].rules[r].goals[g] == goals[h]);
            assert(specs[s].rules[r].goals.contains(goals[h]));
            goals[h]
        };
        assert(in_plan(plan, goal));
        assert(setting_tells(setting, goal, scan));
        if let AccessView::Derived { id, pattern } = goal.access {
            lemma_called_has_spec(program, catalog, deny_scans, goal);
            let t = choose|t: int|
                0 <= t < specs.len() && goal.access == (AccessView::Derived {
                    id: (#[trigger] specs[t]).predicate,
                    pattern: specs[t].pattern,
                });
            assert(specs[t] == setting.specialization(keys[t]));
            assert(keys[t] == (keys[t].0, keys[t].1));
            assert(specs[t].max_cost == scan.cost);
        }
        assert(scan_tells(program, plan, goal, scan));
    }
    assert forall|goal: PlannedGoalView| #[trigger]
        in_plan(plan, goal) && path_scans(goal.access) implies exists|i: int|
        0 <= i < plan.scans.len() && (#[trigger] plan.scans[i]).predicate == (match goal.access {
            AccessView::Extern { predicate, .. } => predicate,
            AccessView::Derived { id, .. } => program.derived@[id].name@,
            _ => Seq::empty(),
        }) by {
        if plan.query.goals.contains(goal) {
            let g = choose|g: int| 0 <= g < plan.query.goals.len() && plan.query.goals[g] == goal;
            assert(is_reported(setting, setting.query_goals()[g], plan.scans));
        } else {
            let (s, r) = choose|s: int, r: int|
                #![trigger plan.specializations[s].rules[r]]
                0 <= s < plan.specializations.len() && 0 <= r < plan.specializations[s].rules.len()
                    && plan.specializations[s].rules[r].goals.contains(goal);
            let goals = specs[s].rules[r].goals;
            let g = choose|g: int| 0 <= g < goals.len() && goals[g] == goal;
            assert(specs[s] == setting.specialization(keys[s]));
            let h = lemma_goal_among_all(specs[s].rules, r, g);
            assert(spec_reported(setting, keys[s], plan.scans));
            assert(is_reported(setting, setting.spec_goals(keys[s])[h], plan.scans));
        }
    }
}

/// A call in a plan has its specialization there.
proof fn lemma_called_has_spec(
    program: Program,
    catalog: Catalog,
    deny_scans: bool,
    goal: PlannedGoalView,
)
    requires
        forall|p: int|
            0 <= p < program.derived@.len() ==> (#[trigger] program.derived@[p]).arity <= 16,
        plan_outcome(program, catalog, deny_scans) is Ok,
        in_plan(plan_outcome(program, catalog, deny_scans)->Ok_0, goal),
        goal.access is Derived,
    ensures
        exists|t: int|
            0 <= t < plan_outcome(program, catalog, deny_scans)->Ok_0.specializations.len()
                && goal.access == (AccessView::Derived {
                id: (#[trigger] plan_outcome(
                    program,
                    catalog,
                    deny_scans,
                )->Ok_0.specializations[t]).predicate,
                pattern: plan_outcome(
                    program,
                    catalog,
                    deny_scans,
                )->Ok_0.specializations[t].pattern,
            }),
{
    law_plans_hold_what_is_called(program, catalog, deny_scans);
    let plan = plan_outcome(program, catalog, deny_scans)->Ok_0;
    if plan.query.goals.contains(goal) {
        let g = choose|g: int| 0 <= g < plan.query.goals.len() && plan.query.goals[g] == goal;
        assert(plan.query.goals[g].access is Derived);
    } else {
        let (s, r) = choose|s: int, r: int|
            #![trigger plan.specializations[s].rules[r]]
            0 <= s < plan.specializations.len() && 0 <= r < plan.specializations[s].rules.len()
                && plan.specializations[s].rules[r].goals.contains(goal);
        let goals = plan.specializations[s].rules[r].goals;
        let g = choose|g: int| 0 <= g < goals.len() && goals[g] == goal;
        assert(plan.specializations[s].rules[r].goals[g].access is Derived);
    }
}

} // verus!
