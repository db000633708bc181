//! Plan metadata: exact costs, scan visibility, and the refusal of scans
//! under negation.

use crate::plan::callgraph::lemma_free_count_update;
use crate::plan::demand::{
    all_keys, is_key, lemma_all_keys_finite, lemma_unseen_shrinks, unseen, Key, PlanSetting,
};
use crate::plan::error::{PlanError, PlanErrorView};
use crate::plan::keys::{
    key_lt, key_views, keys_ascend, keys_in_order, lemma_key_order_total, lemma_keys_unique,
    locate, KeySet, SpecKey,
};
use crate::plan::logic::{DerivedId, Program};
use crate::plan::mode::{unseeded, AccessKind, CostClass};
use crate::plan::order::free_count;
use crate::plan::outcome::{
    all_goals_of, dearest, goals_call, has_extern_scan, is_listed, lemma_goal_among_all, with_scan,
};
use crate::plan::physical::{
    goal_views, rule_views, Access, AccessView, PhysicalPlan, PhysicalPlanView, PlannedGoal,
    PlannedGoalView, PlannedRule, PlannedRuleView, ScanUse, ScanUseView, Specialization,
};
use crate::plan::supports::{program_wf, unbound_marks};
use crate::text::{cat2, str_eq};
use vstd::prelude::*;

verus! {

proof fn lemma_all_goals_add(a: Seq<PlannedRuleView>, b: Seq<PlannedRuleView>)
    ensures
        all_goals_of(a + b) == all_goals_of(a) + all_goals_of(b),
    decreases a.len(),
{
    if a.len() == 0 {
        assert(a + b =~= b);
        assert(all_goals_of(a) + all_goals_of(b) =~= all_goals_of(b));
    } else {
        assert((a + b).drop_first() =~= a.drop_first() + b);
        lemma_all_goals_add(a.drop_first(), b);
        assert(all_goals_of(a + b) =~= all_goals_of(a) + all_goals_of(b));
    }
}

/// The goals of the rules up to one, and of that one.
proof fn lemma_all_goals_push(rules: Seq<PlannedRuleView>, r: int)
    requires
        0 <= r < rules.len(),
    ensures
        all_goals_of(rules.take(r + 1)) == all_goals_of(rules.take(r)) + rules[r].goals,
{
    let one = seq![rules[r]];
    assert(rules.take(r + 1) =~= rules.take(r) + one);
    lemma_all_goals_add(rules.take(r), one);
    assert(one.drop_first() =~= Seq::<PlannedRuleView>::empty());
    reveal_with_fuel(all_goals_of, 2);
    assert(all_goals_of(one) =~= rules[r].goals);
}

/// The demanded specializations with their ordered rules.
pub struct SpecTable<'p> {
    pub program: &'p Program,
    pub setting: Ghost<PlanSetting>,
    pub keys: Vec<SpecKey>,
    pub rules: Vec<Vec<PlannedRule>>,
}

/// What one specialization is by itself: its dearest extern access, whether
/// it scans, and the positions of those it calls.
struct SpecInfo {
    cost: CostClass,
    scans: bool,
    refs: Vec<usize>,
}

impl<'p> SpecTable<'p> {
    pub open spec fn views(&self) -> Seq<Key> {
        key_views(self.keys@)
    }

    /// The table holds exactly what the query demands.
    pub open spec fn wf(&self) -> bool {
        let setting = self.setting@;
        &&& setting.program == *self.program
        &&& program_wf(setting.program, setting.catalog)
        &&& setting.demanded() is Ok
        &&& self.views().to_set() == setting.demanded()->Ok_0.seen
        &&& keys_ascend(self.views())
        &&& self.keys@.len() == self.rules@.len()
        &&& forall|i: int|
            0 <= i < self.rules@.len() ==> rule_views((#[trigger] self.rules@[i])@)
                == setting.planned_rules(self.keys@[i]@)
        &&& forall|i: int|
            0 <= i < self.keys@.len() ==> is_key(*self.program, (#[trigger] self.keys@[i])@)
    }

    /// Every call of the goals is to a specialization of the table.
    spec fn knows(&self, goals: Seq<PlannedGoalView>) -> bool {
        forall|key: Key| #[trigger] goals_call(goals, key) ==> self.views().contains(key)
    }

    /// The info describes the goals.
    spec fn describes(&self, goals: Seq<PlannedGoalView>, info: SpecInfo) -> bool {
        &&& info.cost == dearest(goals)
        &&& info.scans == has_extern_scan(goals)
        &&& forall|j: int|
            0 <= j < info.refs@.len() ==> #[trigger] info.refs@[j] < self.keys@.len()
                && goals_call(goals, self.views()[info.refs@[j] as int])
        &&& forall|key: Key| #[trigger]
            goals_call(goals, key) ==> exists|j: int|
                0 <= j < info.refs@.len() && self.views()[(#[trigger] info.refs@[j]) as int] == key
    }

    /// The table knows whatever its specializations and the query call.
    proof fn lemma_knows_all(&self)
        requires
            self.wf(),
        ensures
            self.knows(self.setting@.query_goals()),
            forall|i: int|
                0 <= i < self.keys@.len() ==> self.knows(
                    self.setting@.spec_goals((#[trigger] self.keys@[i])@),
                ),
    {
        let setting = self.setting@;
        setting.law_demand_is_exact();
        assert forall|key: Key| #[trigger]
            goals_call(setting.query_goals(), key) implies self.views().contains(key) by {
            setting.lemma_key_reaches_self(key);
            assert(setting.is_demanded(key));
            assert(self.views().to_set().contains(key));
        }
        assert forall|i: int| 0 <= i < self.keys@.len() implies self.knows(
            setting.spec_goals((#[trigger] self.keys@[i])@),
        ) by {
            let from = self.keys@[i]@;
            assert(self.views()[i] == from);
            assert(self.views().to_set().contains(from));
            assert(setting.is_demanded(from));
            let first = choose|first: Key| #[trigger]
                goals_call(setting.query_goals(), first) && setting.key_reaches(first, from);
            assert forall|key: Key| #[trigger]
                goals_call(setting.spec_goals(from), key) implies self.views().contains(key) by {
                assert(setting.edge(from, key));
                setting.lemma_key_reaches_step(first, from, key);
                assert(setting.is_demanded(key));
                assert(self.views().to_set().contains(key));
            }
        }
    }

    /// Takes one more goal into account.
    fn add_goal(&self, info: &mut SpecInfo, goal: &PlannedGoal, Ghost(before): Ghost<
        Seq<PlannedGoalView>,
    >)
        requires
            keys_ascend(self.views()),
            self.describes(before, *old(info)),
            self.knows(before.push(goal@)),
        ensures
            self.describes(before.push(goal@), *final(info)),
    {
        let ghost after = before.push(goal@);
        let ghost start = *info;
        proof {
            assert(after.drop_last() =~= before);
            assert(after.last() == goal@);
            assert forall|key: Key| goals_call(before, key) implies #[trigger] goals_call(
                after,
                key,
            ) by {
                let g = choose|g: int|
                    0 <= g < before.len() && (#[trigger] before[g]).access == (
                    AccessView::Derived { id: key.0, pattern: key.1 });
                assert(after[g] == before[g]);
            }
            assert forall|key: Key| #[trigger] goals_call(after, key) implies goals_call(before, key)
                || goal@.access == (AccessView::Derived { id: key.0, pattern: key.1 }) by {
                let g = choose|g: int|
                    0 <= g < after.len() && (#[trigger] after[g]).access == (
                    AccessView::Derived { id: key.0, pattern: key.1 });
                if g < before.len() {
                    assert(before[g] == after[g]);
                }
            }
            if has_extern_scan(before) {
                let g = choose|g: int|
                    0 <= g < before.len() && ((
                    #[trigger] before[g]).access matches AccessView::Extern { mode, .. }
                        && mode.access is Scan);
                assert(after[g] == before[g]);
            }
            if has_extern_scan(after) {
                let g = choose|g: int|
                    0 <= g < after.len() && ((
                    #[trigger] after[g]).access matches AccessView::Extern { mode, .. }
                        && mode.access is Scan);
                if g < before.len() {
                    assert(before[g] == after[g]);
                }
            }
        }
        match &goal.access {
            Access::Extern { mode, .. } => {
                info.cost = info.cost.dearer(mode.cost);
                if matches!(mode.access, AccessKind::Scan) {
                    assert(after[before.len() as int] == goal@);
                    info.scans = true;
                }
            },
            Access::Derived { id, pattern } => {
                let key = SpecKey { id: id.0, pattern: pattern.clone() };
                proof {
                    assert(after[before.len() as int].access == (AccessView::Derived {
                        id: key@.0,
                        pattern: key@.1,
                    }));
                    assert(goals_call(after, key@));
                }
                let (at, found) = locate(&self.keys, &key);
                assert(found);
                assert(self.views()[at as int] == key@);
                info.refs.push(at);
                proof {
                    assert forall|k: Key| #[trigger] goals_call(after, k) implies exists|j: int|
                        0 <= j < info.refs@.len() && self.views()[(
                        #[trigger] info.refs@[j]) as int] == k by {
                        if goals_call(before, k) {
                            let j = choose|j: int|
                                0 <= j < start.refs@.len() && self.views()[(
                                #[trigger] start.refs@[j]) as int] == k;
                            assert(info.refs@[j] == start.refs@[j]);
                        } else {
                            assert(k == key@);
                            assert(info.refs@[info.refs@.len() - 1] == at);
                        }
                    }
                }
            },
            Access::Input { .. } => {},
            Access::Builtin { .. } => {},
        }
    }

    /// What some rules are by themselves.
    fn local_info(&self, rules: &Vec<PlannedRule>) -> (r: SpecInfo)
        requires
            keys_ascend(self.views()),
            self.knows(all_goals_of(rule_views(rules@))),
        ensures
            self.describes(all_goals_of(rule_views(rules@)), r),
    {
        let ghost views = rule_views(rules@);
        let ghost all = all_goals_of(views);
        let mut info = SpecInfo { cost: CostClass::C0, scans: false, refs: Vec::new() };
        let mut r: usize = 0;
        assert(views.take(0) =~= Seq::<PlannedRuleView>::empty());
        while r < rules.len()
            invariant
                r <= rules@.len(),
                views == rule_views(rules@),
                all == all_goals_of(views),
                keys_ascend(self.views()),
                self.knows(all),
                self.describes(all_goals_of(views.take(r as int)), info),
            decreases rules.len() - r,
        {
            let goals = &rules[r].goals;
            let ghost start = all_goals_of(views.take(r as int));
            let ghost here = goal_views(goals@);
            proof {
                assert(views[r as int].goals == here);
                lemma_all_goals_push(views, r as int);
                assert(start + here.take(0) =~= start);
                assert(views =~= views.take(r + 1) + views.skip(r + 1));
                lemma_all_goals_add(views.take(r + 1), views.skip(r + 1));
            }
            let mut g: usize = 0;
            while g < goals.len()
                invariant
                    g <= goals@.len(),
                    here == goal_views(goals@),
                    keys_ascend(self.views()),
                    self.knows(all),
                    all == (start + here) + all_goals_of(views.skip(r + 1)),
                    self.describes(start + here.take(g as int), info),
                decreases goals.len() - g,
            {
                let ghost before = start + here.take(g as int);
                proof {
                    assert(here[g as int] == goals@[g as int]@);
                    assert(before.push(goals@[g as int]@) =~= start + here.take(g + 1));
                    let after = before.push(goals@[g as int]@);
                    assert forall|key: Key| #[trigger]
                        goals_call(after, key) implies self.views().contains(key) by {
                        let h = choose|h: int|
                            0 <= h < after.len() && (#[trigger] after[h]).access == (
                            AccessView::Derived { id: key.0, pattern: key.1 });
                        assert(all[h] == after[h]);
                        assert(goals_call(all, key));
                    }
                }
                self.add_goal(&mut info, &goals[g], Ghost(before));
                g += 1;
            }
            assert(here.take(g as int) =~= here);
            r += 1;
        }
        assert(views.take(r as int) =~= views);
        info
    }
}

/// How far some costs are from the dearest band, in all.
spec fn room(costs: Seq<CostClass>) -> nat
    decreases costs.len(),
{
    if costs.len() == 0 {
        0
    } else {
        room(costs.drop_last()) + (4 - costs.last().rank()) as nat
    }
}

proof fn lemma_room_shrinks(costs: Seq<CostClass>, i: int, cost: CostClass)
    requires
        0 <= i < costs.len(),
        costs[i].rank() < cost.rank(),
    ensures
        room(costs.update(i, cost)) < room(costs),
    decreases costs.len(),
{
    let after = costs.update(i, cost);
    if i == costs.len() - 1 {
        assert(after.drop_last() =~= costs.drop_last());
    } else {
        assert(after.drop_last() =~= costs.drop_last().update(i, cost));
        lemma_room_shrinks(costs.drop_last(), i, cost);
    }
}

impl<'p> SpecTable<'p> {
    /// Each info describes its specialization.
    spec fn infos_fit(&self, infos: Seq<SpecInfo>) -> bool {
        &&& infos.len() == self.keys@.len()
        &&& forall|i: int|
            0 <= i < infos.len() ==> self.describes(
                self.setting@.spec_goals(self.keys@[i]@),
                #[trigger] infos[i],
            )
    }

    /// The costs and marks are at least those of each specialization itself,
    /// and no more than what it reaches accounts for.
    spec fn accounted(&self, costs: Seq<CostClass>, flags: Seq<bool>) -> bool {
        &&& costs.len() == self.keys@.len()
        &&& flags.len() == self.keys@.len()
        &&& forall|i: int| 0 <= i < costs.len() ==> self.cost_ok(i, #[trigger] costs[i])
        &&& forall|i: int| 0 <= i < flags.len() ==> self.flag_ok(i, #[trigger] flags[i])
    }

    spec fn cost_ok(&self, i: int, cost: CostClass) -> bool {
        let setting = self.setting@;
        let key = self.views()[i];
        &&& setting.own_cost(key).rank() <= cost.rank()
        &&& exists|to: Key| #[trigger] setting.key_reaches(key, to) && setting.own_cost(to) == cost
    }

    spec fn flag_ok(&self, i: int, flag: bool) -> bool {
        let setting = self.setting@;
        let key = self.views()[i];
        &&& setting.own_scan(key) ==> flag
        &&& flag ==> setting.reaches_scan(key)
    }

    /// Along every call the cost does not rise and the mark is passed on, for
    /// the first `count` specializations.
    spec fn stable(
        &self,
        infos: Seq<SpecInfo>,
        costs: Seq<CostClass>,
        flags: Seq<bool>,
        count: int,
    ) -> bool {
        forall|i: int, j: int|
            0 <= i < count && 0 <= j < infos[i].refs@.len() ==> {
                let to = (#[trigger] infos[i].refs@[j]) as int;
                &&& costs[to].rank() <= costs[i].rank()
                &&& flags[to] ==> flags[i]
            }
    }

    /// What a called specialization reaches, its caller reaches.
    proof fn lemma_reach_through(&self, i: int, to: int, end: Key)
        requires
            0 <= i < self.keys@.len(),
            0 <= to < self.keys@.len(),
            self.setting@.edge(self.views()[i], self.views()[to]),
            self.setting@.key_reaches(self.views()[to], end),
        ensures
            self.setting@.key_reaches(self.views()[i], end),
    {
        let setting = self.setting@;
        let path = choose|path: Seq<Key>| #[trigger]
            setting.is_key_path(path) && path[0] == self.views()[to] && path.last() == end;
        let longer = seq![self.views()[i]] + path;
        assert forall|k: int| 0 <= k < longer.len() - 1 implies setting.edge(
            #[trigger] longer[k],
            longer[k + 1],
        ) by {
            if k > 0 {
                assert(longer[k] == path[k - 1] && longer[k + 1] == path[k]);
                assert(setting.edge(path[k - 1], path[(k - 1) + 1]));
            }
        }
        assert(setting.is_key_path(longer) && longer[0] == self.views()[i] && longer.last() == end);
    }

    /// Stable costs bound everything along a path.
    proof fn lemma_path_bounded(
        &self,
        infos: Seq<SpecInfo>,
        costs: Seq<CostClass>,
        flags: Seq<bool>,
        path: Seq<Key>,
        i: int,
    )
        requires
            self.infos_fit(infos),
            self.accounted(costs, flags),
            self.stable(infos, costs, flags, self.keys@.len() as int),
            self.setting@.is_key_path(path),
            0 <= i < self.keys@.len(),
            path[0] == self.views()[i],
        ensures
            self.setting@.own_cost(path.last()).rank() <= costs[i].rank(),
            self.setting@.own_scan(path.last()) ==> flags[i],
        decreases path.len(),
    {
        let setting = self.setting@;
        if path.len() == 1 {
            assert(self.cost_ok(i, costs[i]));
            assert(self.flag_ok(i, flags[i]));
        } else {
            assert(setting.edge(path[0int], path[0int + 1]));
            assert(self.describes(setting.spec_goals(self.keys@[i]@), infos[i]));
            let j = choose|j: int|
                0 <= j < infos[i].refs@.len() && self.views()[(#[trigger] infos[i].refs@[j]) as int]
                    == path[1];
            let to = infos[i].refs@[j] as int;
            let rest = path.drop_first();
            assert forall|k: int| 0 <= k < rest.len() - 1 implies setting.edge(
                #[trigger] rest[k],
                rest[k + 1],
            ) by {
                assert(setting.edge(path[k + 1], path[(k + 1) + 1]));
            }
            self.lemma_path_bounded(infos, costs, flags, rest, to);
        }
    }

    /// Stable costs and marks are the exact ones.
    proof fn lemma_stable_is_exact(
        &self,
        infos: Seq<SpecInfo>,
        costs: Seq<CostClass>,
        flags: Seq<bool>,
        i: int,
    )
        requires
            self.infos_fit(infos),
            self.accounted(costs, flags),
            self.stable(infos, costs, flags, self.keys@.len() as int),
            0 <= i < self.keys@.len(),
        ensures
            self.setting@.is_exact_cost(self.views()[i], costs[i]),
            costs[i] == self.setting@.exact_cost(self.views()[i]),
            flags[i] == self.setting@.reaches_scan(self.views()[i]),
    {
        let setting = self.setting@;
        let key = self.views()[i];
        assert forall|to: Key| #[trigger] setting.key_reaches(key, to) implies setting.own_cost(
            to,
        ).rank() <= costs[i].rank() && (setting.own_scan(to) ==> flags[i]) by {
            let path = choose|path: Seq<Key>| #[trigger]
                setting.is_key_path(path) && path[0] == key && path.last() == to;
            self.lemma_path_bounded(infos, costs, flags, path, i);
        }
        assert(self.cost_ok(i, costs[i]));
        assert(self.flag_ok(i, flags[i]));
        assert(setting.is_exact_cost(key, costs[i]));
        let chosen = choose|cost: CostClass| setting.is_exact_cost(key, cost);
        let a = choose|to: Key| #[trigger]
            setting.key_reaches(key, to) && setting.own_cost(to) == costs[i];
        let b = choose|to: Key| #[trigger]
            setting.key_reaches(key, to) && setting.own_cost(to) == chosen;
        assert(setting.own_cost(a).rank() <= chosen.rank());
        assert(setting.own_cost(b).rank() <= costs[i].rank());
    }

    /// Exact cost and scan usage of every specialization: a fixpoint over the
    /// demand graph, which converges even through recursion.
    fn exact_costs(&self, infos: &Vec<SpecInfo>) -> (r: (Vec<CostClass>, Vec<bool>))
        requires
            self.infos_fit(infos@),
        ensures
            r.0@.len() == self.keys@.len(),
            r.1@.len() == self.keys@.len(),
            forall|i: int|
                0 <= i < r.0@.len() ==> self.setting@.is_exact_cost(
                    self.views()[i],
                    #[trigger] r.0@[i],
                ) && r.0@[i] == self.setting@.exact_cost(self.views()[i]),
            forall|i: int|
                0 <= i < r.1@.len() ==> #[trigger] r.1@[i] == self.setting@.reaches_scan(
                    self.views()[i],
                ),
    {
        let ghost setting = self.setting@;
        let n: usize = self.keys.len();
        let mut costs: Vec<CostClass> = Vec::new();
        let mut flags: Vec<bool> = Vec::new();
        let mut i: usize = 0;
        while i < n
            invariant
                i <= n,
                n == self.keys@.len(),
                setting == self.setting@,
                self.infos_fit(infos@),
                costs@.len() == i,
                flags@.len() == i,
                forall|k: int|
                    0 <= k < i ==> #[trigger] costs@[k] == setting.own_cost(self.views()[k]),
                forall|k: int|
                    0 <= k < i ==> #[trigger] flags@[k] == setting.own_scan(self.views()[k]),
            decreases n - i,
        {
            assert(self.describes(setting.spec_goals(self.keys@[i as int]@), infos@[i as int]));
            costs.push(infos[i].cost);
            flags.push(infos[i].scans || self.keys[i].pattern.is_unseeded());
            i += 1;
        }
        proof {
            assert forall|k: int| 0 <= k < costs@.len() implies self.cost_ok(
                k,
                #[trigger] costs@[k],
            ) by {
                setting.lemma_key_reaches_self(self.views()[k]);
            }
            assert forall|k: int| 0 <= k < flags@.len() implies self.flag_ok(
                k,
                #[trigger] flags@[k],
            ) by {
                setting.lemma_key_reaches_self(self.views()[k]);
            }
        }
        let mut changed = true;
        while changed
            invariant
                n == self.keys@.len(),
                setting == self.setting@,
                self.infos_fit(infos@),
                self.accounted(costs@, flags@),
                !changed ==> self.stable(infos@, costs@, flags@, n as int),
            decreases room(costs@) + free_count(flags@) + (if changed { 1nat } else { 0nat }),
        {
            let ghost start = room(costs@) + free_count(flags@);
            changed = false;
            let mut i: usize = 0;
            while i < n
                invariant
                    i <= n,
                    n == self.keys@.len(),
                    setting == self.setting@,
                    self.infos_fit(infos@),
                    self.accounted(costs@, flags@),
                    !changed ==> self.stable(infos@, costs@, flags@, i as int)
                        && room(costs@) + free_count(flags@) == start,
                    changed ==> room(costs@) + free_count(flags@) < start,
                decreases n - i,
            {
                let refs = &infos[i].refs;
                let mut cost = costs[i];
                let mut flag = flags[i];
                let mut j: usize = 0;
                proof {
                    assert(self.describes(
                        setting.spec_goals(self.keys@[i as int]@),
                        infos@[i as int],
                    ));
                    assert(self.cost_ok(i as int, costs@[i as int]));
                    assert(self.flag_ok(i as int, flags@[i as int]));
                }
                while j < refs.len()
                    invariant
                        j <= refs@.len(),
                        i < n,
                        n == self.keys@.len(),
                        setting == self.setting@,
                        *refs == infos@[i as int].refs,
                        self.infos_fit(infos@),
                        self.describes(
                            setting.spec_goals(self.keys@[i as int]@),
                            infos@[i as int],
                        ),
                        self.accounted(costs@, flags@),
                        costs@[i as int].rank() <= cost.rank(),
                        self.cost_ok(i as int, cost),
                        flags@[i as int] ==> flag,
                        self.flag_ok(i as int, flag),
                        forall|k: int|
                            0 <= k < j ==> costs@[(#[trigger] refs@[k]) as int].rank()
                                <= cost.rank() && (flags@[refs@[k] as int] ==> flag),
                    decreases refs.len() - j,
                {
                    let to: usize = refs[j];
                    proof {
                        let goals = setting.spec_goals(self.keys@[i as int]@);
                        assert(goals_call(goals, self.views()[infos@[i as int].refs@[j as int] as int]));
                        assert(setting.edge(self.views()[i as int], self.views()[to as int]));
                        assert(self.cost_ok(to as int, costs@[to as int]));
                        assert(self.flag_ok(to as int, flags@[to as int]));
                        let end = choose|end: Key| #[trigger]
                            setting.key_reaches(self.views()[to as int], end) && setting.own_cost(
                                end,
                            ) == costs@[to as int];
                        self.lemma_reach_through(i as int, to as int, end);
                        if flags@[to as int] {
                            let scan = choose|scan: Key| #[trigger]
                                setting.key_reaches(self.views()[to as int], scan)
                                    && setting.own_scan(scan);
                            self.lemma_reach_through(i as int, to as int, scan);
                        }
                    }
                    cost = cost.dearer(costs[to]);
                    flag = flag || flags[to];
                    j += 1;
                }
                let ghost costs_before = costs@;
                let ghost flags_before = flags@;
                if costs[i].less_than(cost) {
                    proof {
                        lemma_room_shrinks(costs@, i as int, cost);
                    }
                    costs.set(i, cost);
                    changed = true;
                }
                if flag && !flags[i] {
                    proof {
                        lemma_free_count_update(flags@, i as int);
                    }
                    flags.set(i, true);
                    changed = true;
                }
                proof {
                    assert forall|k: int| 0 <= k < costs@.len() implies self.cost_ok(
                        k,
                        #[trigger] costs@[k],
                    ) by {
                        assert(self.cost_ok(k, costs_before[k]));
                    }
                    assert forall|k: int| 0 <= k < flags@.len() implies self.flag_ok(
                        k,
                        #[trigger] flags@[k],
                    ) by {
                        assert(self.flag_ok(k, flags_before[k]));
                    }
                    if !changed {
                        assert(costs@ == costs_before && flags@ == flags_before);
                        assert(cost == costs@[i as int]) by {
                            assert(cost.rank() == costs@[i as int].rank());
                        }
                        assert forall|a: int, b: int|
                            0 <= a < i + 1 && 0 <= b < infos@[a].refs@.len() implies {
                            let to = (#[trigger] infos@[a].refs@[b]) as int;
                            &&& costs@[to].rank() <= costs@[a].rank()
                            &&& flags@[to] ==> flags@[a]
                        } by {
                            if a == i {
                                assert(refs@[b] == infos@[a].refs@[b]);
                            }
                        }
                    }
                }
                i += 1;
            }
        }
        proof {
            assert forall|i: int| 0 <= i < costs@.len() implies setting.is_exact_cost(
                self.views()[i],
                #[trigger] costs@[i],
            ) && costs@[i] == setting.exact_cost(self.views()[i]) by {
                self.lemma_stable_is_exact(infos@, costs@, flags@, i);
            }
            assert forall|i: int| 0 <= i < flags@.len() implies #[trigger] flags@[i]
                == setting.reaches_scan(self.views()[i]) by {
                self.lemma_stable_is_exact(infos@, costs@, flags@, i);
            }
        }
        (costs, flags)
    }
}

/// The views of a list of scans.
pub open spec fn scan_views(scans: Seq<ScanUse>) -> Seq<ScanUseView> {
    scans.map_values(|scan: ScanUse| scan@)
}

/// Adds a scan, unless one of its name is listed.
fn push_scan(scans: &mut Vec<ScanUse>, name: &str, cost: CostClass)
    ensures
        scan_views(final(scans)@) == with_scan(
            scan_views(old(scans)@),
            ScanUseView { predicate: name@, cost },
        ),
{
    let mut i: usize = 0;
    while i < scans.len()
        invariant
            i <= scans@.len(),
            scans@ == old(scans)@,
            forall|j: int| 0 <= j < i ==> (#[trigger] scan_views(scans@)[j]).predicate != name@,
        decreases scans.len() - i,
    {
        assert(scan_views(scans@)[i as int] == scans@[i as int]@);
        if str_eq(scans[i].predicate.as_str(), name) {
            assert(is_listed(scan_views(scans@), name@));
            return;
        }
        i += 1;
    }
    scans.push(ScanUse { predicate: name.to_owned(), cost });
    assert(scan_views(scans@) =~= scan_views(old(scans)@).push(
        ScanUseView { predicate: name@, cost },
    ));
}

/// The keys at the marked positions.
spec fn visited_keys(views: Seq<Key>, visited: Seq<bool>) -> Set<Key> {
    Set::new(
        |key: Key|
            exists|i: int| 0 <= i < visited.len() && visited[i] && #[trigger] views[i] == key,
    )
}

impl PlanSetting {
    /// Following the goals leads from what is visited and met to more of both,
    /// whatever comes behind them.
    spec fn scans_lead(
        self,
        goals: Seq<PlannedGoalView>,
        visited: Set<Key>,
        met: Seq<ScanUseView>,
        visited_then: Set<Key>,
        met_then: Seq<ScanUseView>,
    ) -> bool {
        forall|rest: Seq<PlannedGoalView>| #[trigger]
            self.scans_met(goals + rest, visited, met) == self.scans_met(
                rest,
                visited_then,
                met_then,
            )
    }

    proof fn lemma_scans_lead_nowhere(self, visited: Set<Key>, met: Seq<ScanUseView>)
        ensures
            self.scans_lead(Seq::empty(), visited, met, visited, met),
    {
        assert forall|rest: Seq<PlannedGoalView>| #[trigger]
            self.scans_met(Seq::<PlannedGoalView>::empty() + rest, visited, met)
                == self.scans_met(rest, visited, met) by {
            assert(Seq::<PlannedGoalView>::empty() + rest =~= rest);
        }
    }

    proof fn lemma_scans_lead_on(
        self,
        a: Seq<PlannedGoalView>,
        b: Seq<PlannedGoalView>,
        v0: Set<Key>,
        m0: Seq<ScanUseView>,
        v1: Set<Key>,
        m1: Seq<ScanUseView>,
        v2: Set<Key>,
        m2: Seq<ScanUseView>,
    )
        requires
            self.scans_lead(a, v0, m0, v1, m1),
            self.scans_lead(b, v1, m1, v2, m2),
        ensures
            self.scans_lead(a + b, v0, m0, v2, m2),
    {
        assert forall|rest: Seq<PlannedGoalView>| #[trigger]
            self.scans_met((a + b) + rest, v0, m0) == self.scans_met(rest, v2, m2) by {
            assert((a + b) + rest =~= a + (b + rest));
            assert(self.scans_met(a + (b + rest), v0, m0) == self.scans_met(b + rest, v1, m1));
        }
    }

    /// What meeting an extern goal comes to.
    proof fn lemma_scan_extern(
        self,
        goal: PlannedGoalView,
        visited: Set<Key>,
        met: Seq<ScanUseView>,
    )
        requires
            goal.access is Extern,
        ensures
            self.scans_lead(
                seq![goal],
                visited,
                met,
                visited,
                if goal.access->mode.access is Scan {
                    with_scan(
                        met,
                        ScanUseView {
                            predicate: goal.access->predicate,
                            cost: goal.access->mode.cost,
                        },
                    )
                } else {
                    met
                },
            ),
    {
        let one = seq![goal];
        let then = if goal.access->mode.access is Scan {
            with_scan(
                met,
                ScanUseView { predicate: goal.access->predicate, cost: goal.access->mode.cost },
            )
        } else {
            met
        };
        assert forall|rest: Seq<PlannedGoalView>| #[trigger]
            self.scans_met(one + rest, visited, met) == self.scans_met(rest, visited, then) by {
            assert((one + rest)[0] == goal);
            assert((one + rest).drop_first() =~= rest);
        }
    }

    /// What meeting a goal that calls nothing comes to.
    proof fn lemma_scan_other(self, goal: PlannedGoalView, visited: Set<Key>, met: Seq<ScanUseView>)
        requires
            goal.access is Input || goal.access is Builtin,
        ensures
            self.scans_lead(seq![goal], visited, met, visited, met),
    {
        let one = seq![goal];
        assert forall|rest: Seq<PlannedGoalView>| #[trigger]
            self.scans_met(one + rest, visited, met) == self.scans_met(rest, visited, met) by {
            assert((one + rest)[0] == goal);
            assert((one + rest).drop_first() =~= rest);
        }
    }

    /// What meeting a derived goal comes to.
    proof fn lemma_scan_derived(
        self,
        goal: PlannedGoalView,
        key: Key,
        visited: Set<Key>,
        met: Seq<ScanUseView>,
    )
        requires
            goal.access == (AccessView::Derived { id: key.0, pattern: key.1 }),
            is_key(self.program, key),
        ensures
            visited.contains(key) ==> self.scans_lead(
                seq![goal],
                visited,
                met,
                visited,
                self.met_at(key, met),
            ),
            !visited.contains(key) ==> forall|v: Set<Key>, m: Seq<ScanUseView>|
                self.scans_lead(
                    self.spec_goals(key),
                    visited.insert(key),
                    self.met_at(key, met),
                    v,
                    m,
                ) ==> #[trigger] self.scans_lead(seq![goal], visited, met, v, m),
    {
        let one = seq![goal];
        let now = self.met_at(key, met);
        assert(key == (key.0, key.1));
        assert forall|rest: Seq<PlannedGoalView>| #[trigger]
            self.scans_met(one + rest, visited, met) == (if visited.contains(key) {
                self.scans_met(rest, visited, now)
            } else {
                self.scans_met(self.spec_goals(key) + rest, visited.insert(key), now)
            }) by {
            assert((one + rest)[0] == goal);
            assert((one + rest).drop_first() =~= rest);
        }
    }

    /// The scans listed once a derived call is met.
    spec fn met_at(self, key: Key, met: Seq<ScanUseView>) -> Seq<ScanUseView> {
        if unseeded(key.1) {
            with_scan(
                met,
                ScanUseView {
                    predicate: self.program.derived@[key.0].name@,
                    cost: self.exact_cost(key),
                },
            )
        } else {
            met
        }
    }
}

impl<'p> SpecTable<'p> {
    /// Lists the scans met when following goals depth first, each
    /// specialization once.
    fn collect_scans(
        &self,
        costs: &Vec<CostClass>,
        goals: &Vec<PlannedGoal>,
        scans: &mut Vec<ScanUse>,
        visited: &mut Vec<bool>,
    )
        requires
            self.wf(),
            costs@.len() == self.keys@.len(),
            forall|i: int|
                0 <= i < costs@.len() ==> #[trigger] costs@[i] == self.setting@.exact_cost(
                    self.views()[i],
                ),
            old(visited)@.len() == self.keys@.len(),
            self.knows(goal_views(goals@)),
        ensures
            final(visited)@.len() == self.keys@.len(),
            visited_keys(self.views(), old(visited)@).subset_of(
                visited_keys(self.views(), final(visited)@),
            ),
            self.setting@.scans_lead(
                goal_views(goals@),
                visited_keys(self.views(), old(visited)@),
                scan_views(old(scans)@),
                visited_keys(self.views(), final(visited)@),
                scan_views(final(scans)@),
            ),
        decreases unseen(*self.program, visited_keys(self.views(), old(visited)@)).len(),
    {
        let ghost setting = self.setting@;
        let ghost views = self.views();
        let ghost all = goal_views(goals@);
        let ghost v0 = visited_keys(views, visited@);
        let ghost m0 = scan_views(scans@);
        proof {
            setting.lemma_scans_lead_nowhere(v0, m0);
            assert(all.take(0) =~= Seq::<PlannedGoalView>::empty());
        }
        let mut g: usize = 0;
        while g < goals.len()
            invariant
                g <= goals@.len(),
                self.wf(),
                setting == self.setting@,
                views == self.views(),
                all == goal_views(goals@),
                costs@.len() == self.keys@.len(),
                forall|i: int|
                    0 <= i < costs@.len() ==> #[trigger] costs@[i] == setting.exact_cost(views[i]),
                visited@.len() == self.keys@.len(),
                self.knows(all),
                v0 == visited_keys(views, old(visited)@),
                v0.subset_of(visited_keys(views, visited@)),
                setting.scans_lead(
                    all.take(g as int),
                    v0,
                    m0,
                    visited_keys(views, visited@),
                    scan_views(scans@),
                ),
            decreases goals.len() - g,
        {
            let goal = &goals[g];
            let ghost v1 = visited_keys(views, visited@);
            let ghost m1 = scan_views(scans@);
            let ghost one = seq![goal@];
            proof {
                assert(all[g as int] == goal@);
                assert(all.take(g + 1) =~= all.take(g as int) + one);
            }
            match &goal.access {
                Access::Extern { predicate, mode } => {
                    proof {
                        setting.lemma_scan_extern(goal@, v1, m1);
                    }
                    if matches!(mode.access, AccessKind::Scan) {
                        push_scan(scans, predicate, mode.cost);
                    }
                },
                Access::Derived { id, pattern } => {
                    let key = SpecKey { id: id.0, pattern: pattern.clone() };
                    proof {
                        assert(all[g as int].access == (AccessView::Derived {
                            id: key@.0,
                            pattern: key@.1,
                        }));
                        assert(goals_call(all, key@));
                    }
                    let (at, found) = locate(&self.keys, &key);
                    assert(found);
                    assert(views[at as int] == key@);
                    assert(self.keys@[at as int]@ == key@);
                    if pattern.is_unseeded() {
                        push_scan(scans, self.program.derived[id.0].name.as_str(), costs[at]);
                    }
                    proof {
                        assert(scan_views(scans@) == setting.met_at(key@, m1));
                        setting.lemma_scan_derived(goal@, key@, v1, m1);
                        self.lemma_visited(visited@, at as int);
                    }
                    if !visited[at] {
                        let ghost before = visited@;
                        visited.set(at, true);
                        let ghost v2 = visited_keys(views, visited@);
                        let ghost m2 = scan_views(scans@);
                        proof {
                            self.lemma_visit(before, at as int);
                            assert(v2 == v1.insert(key@));
                            lemma_unseen_shrinks(*self.program, v1, key@);
                            lemma_fewer_unseen(*self.program, v0, v1);
                            self.lemma_knows_all();
                            setting.lemma_scans_lead_nowhere(v2, m2);
                        }
                        let rules = &self.rules[at];
                        let ghost rule_list = rule_views(rules@);
                        let mut r: usize = 0;
                        assert(rule_list.take(0) =~= Seq::<PlannedRuleView>::empty());
                        while r < rules.len()
                            invariant
                                r <= rules@.len(),
                                self.wf(),
                                setting == self.setting@,
                                views == self.views(),
                                rule_list == rule_views(rules@),
                                setting.spec_goals(key@) == all_goals_of(rule_list),
                                self.knows(setting.spec_goals(key@)),
                                costs@.len() == self.keys@.len(),
                                forall|i: int|
                                    0 <= i < costs@.len() ==> #[trigger] costs@[i]
                                        == setting.exact_cost(views[i]),
                                visited@.len() == self.keys@.len(),
                                v2.subset_of(visited_keys(views, visited@)),
                                v0 == visited_keys(views, old(visited)@),
                                unseen(*self.program, v2).len() < unseen(*self.program, v0).len(),
                                setting.scans_lead(
                                    all_goals_of(rule_list.take(r as int)),
                                    v2,
                                    m2,
                                    visited_keys(views, visited@),
                                    scan_views(scans@),
                                ),
                            decreases rules.len() - r,
                        {
                            let ghost v3 = visited_keys(views, visited@);
                            let ghost m3 = scan_views(scans@);
                            proof {
                                assert(rule_list[r as int] == rules@[r as int]@);
                                lemma_all_goals_push(rule_list, r as int);
                                lemma_fewer_unseen(*self.program, v2, v3);
                                assert forall|k: Key| #[trigger]
                                    goals_call(
                                        rule_list[r as int].goals,
                                        k,
                                    ) implies self.views().contains(k) by {
                                    let h = choose|h: int|
                                        0 <= h < rule_list[r as int].goals.len() && (
                                        #[trigger] rule_list[r as int].goals[h]).access == (
                                        AccessView::Derived { id: k.0, pattern: k.1 });
                                    let q = lemma_goal_among_all(
                                        rule_list,
                                        r as int,
                                        h,
                                    );
                                    assert(goals_call(all_goals_of(rule_list), k));
                                }
                            }
                            self.collect_scans(costs, &rules[r].goals, scans, visited);
                            proof {
                                setting.lemma_scans_lead_on(
                                    all_goals_of(rule_list.take(r as int)),
                                    rule_list[r as int].goals,
                                    v2,
                                    m2,
                                    v3,
                                    m3,
                                    visited_keys(views, visited@),
                                    scan_views(scans@),
                                );
                            }
                            r += 1;
                        }
                        proof {
                            assert(rule_list.take(r as int) =~= rule_list);
                            assert(setting.scans_lead(
                                one,
                                v1,
                                m1,
                                visited_keys(views, visited@),
                                scan_views(scans@),
                            ));
                        }
                    }
                },
                Access::Input { .. } => {
                    proof {
                        setting.lemma_scan_other(goal@, v1, m1);
                    }
                },
                Access::Builtin { .. } => {
                    proof {
                        setting.lemma_scan_other(goal@, v1, m1);
                    }
                },
            }
            proof {
                setting.lemma_scans_lead_on(
                    all.take(g as int),
                    one,
                    v0,
                    m0,
                    v1,
                    m1,
                    visited_keys(views, visited@),
                    scan_views(scans@),
                );
            }
            g += 1;
        }
        assert(all.take(g as int) =~= all);
    }

    /// A position is marked exactly where its key is visited.
    proof fn lemma_visited(&self, visited: Seq<bool>, at: int)
        requires
            keys_ascend(self.views()),
            visited.len() == self.keys@.len(),
            0 <= at < visited.len(),
        ensures
            visited[at] == visited_keys(self.views(), visited).contains(self.views()[at]),
    {
        if visited_keys(self.views(), visited).contains(self.views()[at]) {
            let i = choose|i: int|
                0 <= i < visited.len() && visited[i] && #[trigger] self.views()[i]
                    == self.views()[at];
            lemma_key_order_total(self.views()[at], self.views()[at]);
            if i < at {
                assert(key_lt(self.views()[i], self.views()[at]));
            } else if i > at {
                assert(key_lt(self.views()[at], self.views()[i]));
            }
        }
    }

    proof fn lemma_visit(&self, visited: Seq<bool>, at: int)
        requires
            visited.len() == self.keys@.len(),
            0 <= at < visited.len(),
        ensures
            visited_keys(self.views(), visited.update(at, true)) == visited_keys(
                self.views(),
                visited,
            ).insert(self.views()[at]),
    {
        let after = visited.update(at, true);
        let views = self.views();
        assert forall|key: Key|
            visited_keys(views, after).contains(key) <==> visited_keys(views, visited).insert(
                views[at],
            ).contains(key) by {
            if visited_keys(views, after).contains(key) {
                let i = choose|i: int| 0 <= i < after.len() && after[i] && #[trigger] views[i] == key;
                if i != at {
                    assert(visited[i] && views[i] == key);
                }
            }
            if visited_keys(views, visited).contains(key) {
                let i = choose|i: int|
                    0 <= i < visited.len() && visited[i] && #[trigger] views[i] == key;
                assert(after[i] && views[i] == key);
            }
            assert(after[at]);
        }
        assert(visited_keys(views, after) =~= visited_keys(views, visited).insert(views[at]));
    }
}

/// Having visited more leaves no more to visit.
proof fn lemma_fewer_unseen(program: Program, fewer: Set<Key>, more: Set<Key>)
    requires
        fewer.subset_of(more),
    ensures
        unseen(program, more).len() <= unseen(program, fewer).len(),
{
    lemma_all_keys_finite(program);
    vstd::set_lib::lemma_set_subset_finite(all_keys(program), unseen(program, fewer));
    vstd::set_lib::lemma_len_subset(unseen(program, more), unseen(program, fewer));
}

impl<'p> SpecTable<'p> {
    /// What every specialization is by itself.
    fn local_infos(&self) -> (r: Vec<SpecInfo>)
        requires
            self.wf(),
        ensures
            self.infos_fit(r@),
    {
        proof {
            self.lemma_knows_all();
        }
        let mut infos: Vec<SpecInfo> = Vec::new();
        let mut i: usize = 0;
        while i < self.rules.len()
            invariant
                i <= self.rules@.len(),
                self.wf(),
                infos@.len() == i,
                forall|k: int|
                    0 <= k < self.keys@.len() ==> self.knows(
                        self.setting@.spec_goals((#[trigger] self.keys@[k])@),
                    ),
                forall|k: int|
                    0 <= k < i ==> self.describes(
                        self.setting@.spec_goals(self.keys@[k]@),
                        #[trigger] infos@[k],
                    ),
            decreases self.rules.len() - i,
        {
            assert(self.knows(self.setting@.spec_goals(self.keys@[i as int]@)));
            assert(rule_views(self.rules@[i as int]@) == self.setting@.planned_rules(
                self.keys@[i as int]@,
            ));
            infos.push(self.local_info(&self.rules[i]));
            i += 1;
        }
        infos
    }

    /// Nothing demanded under a negation may reach a scan: the error for the
    /// first that does, if any.
    fn denied_scan(&self, negated: &KeySet, costs: &Vec<CostClass>, flags: &Vec<bool>) -> (r: Option<
        PlanError,
    >)
        requires
            self.wf(),
            negated.wf(),
            negated.members() == self.setting@.demanded()->Ok_0.negated,
            costs@.len() == self.keys@.len(),
            flags@.len() == self.keys@.len(),
            forall|i: int|
                0 <= i < costs@.len() ==> #[trigger] costs@[i] == self.setting@.exact_cost(
                    self.views()[i],
                ),
            forall|i: int|
                0 <= i < flags@.len() ==> #[trigger] flags@[i] == self.setting@.reaches_scan(
                    self.views()[i],
                ),
        ensures
            match r {
                Some(error) => (exists|key: Key|
                    self.setting@.is_first_denied(self.setting@.demanded()->Ok_0, key))
                    && self.setting@.finished(self.setting@.demanded()->Ok_0) == Err::<
                    PhysicalPlanView,
                    PlanErrorView,
                >(error@),
                None => !exists|key: Key|
                    self.setting@.is_first_denied(self.setting@.demanded()->Ok_0, key),
            },
    {
        let ghost setting = self.setting@;
        let ghost state = setting.demanded()->Ok_0;
        let ghost list = key_views(negated.keys@);
        proof {
            setting.law_demand_is_exact();
        }
        let mut k: usize = 0;
        while k < negated.keys.len()
            invariant
                k <= negated.keys@.len(),
                self.wf(),
                negated.wf(),
                setting == self.setting@,
                state == setting.demanded()->Ok_0,
                list == key_views(negated.keys@),
                negated.members() == state.negated,
                state.negated.subset_of(state.seen),
                costs@.len() == self.keys@.len(),
                flags@.len() == self.keys@.len(),
                forall|i: int|
                    0 <= i < costs@.len() ==> #[trigger] costs@[i] == setting.exact_cost(
                        self.views()[i],
                    ),
                forall|i: int|
                    0 <= i < flags@.len() ==> #[trigger] flags@[i] == setting.reaches_scan(
                        self.views()[i],
                    ),
                forall|j: int| 0 <= j < k ==> !setting.reaches_scan(#[trigger] list[j]),
            decreases negated.keys.len() - k,
        {
            let key = &negated.keys[k];
            proof {
                assert(list[k as int] == key@);
                assert(list.to_set().contains(key@));
                assert(state.seen.contains(key@));
                assert(self.views().to_set().contains(key@));
            }
            let (at, found) = locate(&self.keys, key);
            assert(found);
            assert(self.views()[at as int] == key@);
            assert(is_key(*self.program, self.keys@[at as int]@));
            if flags[at] {
                let name = self.program.derived[key.id].name.as_str();
                let error = PlanError::ScanUnderNegation {
                    goal: cat2(name, key.pattern.render().as_str()),
                    cost: costs[at],
                };
                proof {
                    assert forall|other: Key| #[trigger]
                        state.negated.contains(other) && setting.reaches_scan(
                            other,
                        ) implies other == key@ || key_lt(key@, other) by {
                        let j = choose|j: int| 0 <= j < list.len() && list[j] == other;
                        if j < k {
                            assert(!setting.reaches_scan(list[j]));
                        } else if j > k {
                            assert(key_lt(list[k as int], list[j]));
                        }
                    }
                    assert(setting.is_first_denied(state, key@));
                    let chosen = choose|key: Key| setting.is_first_denied(state, key);
                    assert(chosen == key@) by {
                        lemma_key_order_total(chosen, key@);
                    }
                    assert(error@ == setting.denial_error(key@));
                }
                return Some(error);
            }
            k += 1;
        }
        proof {
            assert forall|key: Key| !setting.is_first_denied(state, key) by {
                if setting.is_first_denied(state, key) {
                    assert(list.to_set().contains(key));
                    let j = choose|j: int| 0 <= j < list.len() && list[j] == key;
                    assert(!setting.reaches_scan(list[j]));
                }
            }
        }
        None
    }

    /// The maximal cost over the whole plan.
    fn plan_cost(&self, own: CostClass, costs: &Vec<CostClass>) -> (r: CostClass)
        requires
            self.wf(),
            own == dearest(self.setting@.query_goals()),
            costs@.len() == self.keys@.len(),
            forall|i: int|
                0 <= i < costs@.len() ==> #[trigger] costs@[i] == self.setting@.exact_cost(
                    self.views()[i],
                ),
        ensures
            r == choose|cost: CostClass|
                self.setting@.is_plan_cost(self.setting@.demanded()->Ok_0.seen, cost),
    {
        let ghost setting = self.setting@;
        let ghost seen = setting.demanded()->Ok_0.seen;
        let mut max = own;
        let mut i: usize = 0;
        while i < costs.len()
            invariant
                i <= costs@.len(),
                own.rank() <= max.rank(),
                max == own || exists|k: int| 0 <= k < i && #[trigger] costs@[k] == max,
                forall|k: int| 0 <= k < i ==> (#[trigger] costs@[k]).rank() <= max.rank(),
            decreases costs.len() - i,
        {
            max = max.dearer(costs[i]);
            i += 1;
        }
        proof {
            if max != own {
                let k = choose|k: int| 0 <= k < costs@.len() && #[trigger] costs@[k] == max;
                assert(self.views().to_set().contains(self.views()[k]));
                assert(seen.contains(self.views()[k]) && setting.exact_cost(self.views()[k]) == max);
            }
            assert forall|key: Key| #[trigger] seen.contains(key) implies setting.exact_cost(
                key,
            ).rank() <= max.rank() by {
                assert(self.views().to_set().contains(key));
                let k = choose|k: int| 0 <= k < self.views().len() && self.views()[k] == key;
                assert(costs@[k].rank() <= max.rank());
            }
            assert(setting.is_plan_cost(seen, max));
            let chosen = choose|cost: CostClass| setting.is_plan_cost(seen, cost);
            assert(setting.is_plan_cost(seen, chosen));
            assert(chosen.rank() == max.rank());
        }
        max
    }

    /// Assembles the plan, or refuses it for a scan: under a negation, or any
    /// where scans are denied.
    pub fn finalize(self, deny_scans: bool, negated: KeySet, query: PlannedRule) -> (r: Result<
        PhysicalPlan,
        PlanError,
    >)
        requires
            self.wf(),
            deny_scans == self.setting@.deny_scans,
            negated.wf(),
            negated.members() == self.setting@.demanded()->Ok_0.negated,
            query@ == self.setting@.planned(None, 0),
        ensures
            match r {
                Ok(plan) => self.setting@.finished(self.setting@.demanded()->Ok_0) == Ok::<
                    PhysicalPlanView,
                    PlanErrorView,
                >(plan@),
                Err(error) => self.setting@.finished(self.setting@.demanded()->Ok_0) == Err::<
                    PhysicalPlanView,
                    PlanErrorView,
                >(error@),
            },
    {
        let ghost setting = self.setting@;
        let ghost state = setting.demanded()->Ok_0;
        let ghost views = self.views();
        let infos = self.local_infos();
        let (costs, flags) = self.exact_costs(&infos);
        if let Some(error) = self.denied_scan(&negated, &costs, &flags) {
            return Err(error);
        }
        let mut scans: Vec<ScanUse> = Vec::new();
        let mut visited = unbound_marks(self.keys.len());
        proof {
            self.lemma_knows_all();
            assert(visited_keys(views, visited@) =~= Set::<Key>::empty());
            assert(scan_views(scans@) =~= Seq::<ScanUseView>::empty());
        }
        self.collect_scans(&costs, &query.goals, &mut scans, &mut visited);
        proof {
            let goals = setting.query_goals();
            assert(goals + Seq::<PlannedGoalView>::empty() =~= goals);
            assert(setting.plan_scans() == scan_views(scans@));
        }
        if deny_scans && scans.len() > 0 {
            let first = scans.remove(0);
            assert(setting.plan_scans()[0] == first@);
            return Err(PlanError::ScanDenied { predicate: first.predicate, cost: first.cost });
        }
        let mut info = SpecInfo { cost: CostClass::C0, scans: false, refs: Vec::new() };
        let mut g: usize = 0;
        let ghost goals = goal_views(query.goals@);
        assert(goals.take(0) =~= Seq::<PlannedGoalView>::empty());
        while g < query.goals.len()
            invariant
                g <= query.goals@.len(),
                goals == goal_views(query.goals@),
                keys_ascend(self.views()),
                self.knows(goals),
                self.describes(goals.take(g as int), info),
            decreases query.goals.len() - g,
        {
            proof {
                assert(goals[g as int] == query.goals@[g as int]@);
                assert(goals.take(g as int).push(goals[g as int]) =~= goals.take(g + 1));
                let after = goals.take(g + 1);
                assert forall|key: Key| #[trigger]
                    goals_call(after, key) implies self.views().contains(key) by {
                    let h = choose|h: int|
                        0 <= h < after.len() && (#[trigger] after[h]).access == (
                        AccessView::Derived { id: key.0, pattern: key.1 });
                    assert(goals[h] == after[h]);
                    assert(goals_call(goals, key));
                }
            }
            self.add_goal(&mut info, &query.goals[g], Ghost(goals.take(g as int)));
            g += 1;
        }
        assert(goals.take(g as int) =~= goals);
        let max_cost = self.plan_cost(info.cost, &costs);
        proof {
            let listed = keys_in_order(state.seen);
            assert(keys_ascend(views) && views.to_set() == state.seen);
            lemma_keys_unique(views, listed);
        }
        let specializations = assemble(self.keys, self.rules, &costs, Ghost(setting));
        let plan = PhysicalPlan { query, specializations, scans, max_cost };
        proof {
            assert(plan@.specializations =~= keys_in_order(state.seen).map_values(
                |key: Key| setting.specialization(key),
            ));
            assert(plan@ == setting.physical(state));
        }
        Ok(plan)
    }
}

/// The specializations of the plan, in the order of their keys.
fn assemble(
    keys: Vec<SpecKey>,
    rules: Vec<Vec<PlannedRule>>,
    costs: &Vec<CostClass>,
    Ghost(setting): Ghost<PlanSetting>,
) -> (r: Vec<Specialization>)
    requires
        keys@.len() == rules@.len(),
        keys@.len() == costs@.len(),
        forall|i: int|
            0 <= i < rules@.len() ==> rule_views((#[trigger] rules@[i])@) == setting.planned_rules(
                keys@[i]@,
            ),
        forall|i: int|
            0 <= i < costs@.len() ==> #[trigger] costs@[i] == setting.exact_cost(
                key_views(keys@)[i],
            ),
    ensures
        r@.len() == keys@.len(),
        forall|i: int|
            0 <= i < r@.len() ==> (#[trigger] r@[i])@ == setting.specialization(
                key_views(keys@)[i],
            ),
{
    let ghost all_keys_seq = keys@;
    let ghost all_rules = rules@;
    let mut keys = keys;
    let mut rules = rules;
    let n: usize = keys.len();
    let mut out: Vec<Specialization> = Vec::new();
    let mut i: usize = 0;
    while i < n
        invariant
            i <= n,
            n == all_keys_seq.len(),
            all_rules.len() == n,
            costs@.len() == n,
            keys@ == all_keys_seq.skip(i as int),
            rules@ == all_rules.skip(i as int),
            out@.len() == i,
            forall|k: int|
                0 <= k < n ==> rule_views((#[trigger] all_rules[k])@) == setting.planned_rules(
                    all_keys_seq[k]@,
                ),
            forall|k: int|
                0 <= k < n ==> #[trigger] costs@[k] == setting.exact_cost(
                    key_views(all_keys_seq)[k],
                ),
            forall|k: int|
                0 <= k < i ==> (#[trigger] out@[k])@ == setting.specialization(
                    key_views(all_keys_seq)[k],
                ),
        decreases n - i,
    {
        let key = keys.remove(0);
        let planned = rules.remove(0);
        let is_scan = key.pattern.is_unseeded();
        proof {
            assert(key == all_keys_seq[i as int]);
            assert(planned == all_rules[i as int]);
            assert(rule_views(all_rules[i as int]@) == setting.planned_rules(
                all_keys_seq[i as int]@,
            ));
            assert(keys@ =~= all_keys_seq.skip(i + 1));
            assert(rules@ =~= all_rules.skip(i + 1));
            assert(key_views(all_keys_seq)[i as int] == key@);
        }
        out.push(
            Specialization {
                predicate: DerivedId(key.id),
                pattern: key.pattern,
                rules: planned,
                is_scan,
                max_cost: costs[i],
            },
        );
        i += 1;
    }
    out
}

} // verus!
