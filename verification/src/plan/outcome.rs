//! What a plan comes to: its specializations, their exact costs, the scans it
//! contains, and the refusal of scans under negation and where they are denied.

use crate::plan::catalog::Catalog;
use crate::plan::demand::{
    demands, is_key, lemma_demands_order_nothing, lemma_rule_steps_add, lemma_unseen_shrinks,
    rule_steps, rules_from, unseen, DemandState, DemandTask, Key, PlanSetting,
};
use crate::plan::error::PlanErrorView;
use crate::plan::keys::{key_lt, keys_in_order};
use crate::plan::logic::Program;
use crate::plan::order::{flags_of, OrderProblem};
use crate::plan::search::{goal_wf, rule_wf};
use crate::plan::mode::{marks, unseeded, CostClass};
use crate::plan::physical::{
    AccessView, PhysicalPlanView, PlannedGoalView, PlannedRuleView, ScanUseView,
    SpecializationView,
};
use crate::plan::supports::{contract, first_mode_fault, mode_fault_error, program_wf};
use crate::plan::validate::program_fault;
use vstd::prelude::*;
use vstd::set_lib::lemma_int_range;

verus! {

/// The goals call the specialization.
pub open spec fn goals_call(goals: Seq<PlannedGoalView>, key: Key) -> bool {
    exists|g: int|
        0 <= g < goals.len() && (#[trigger] goals[g]).access == (AccessView::Derived {
            id: key.0,
            pattern: key.1,
        })
}

/// The goals call the specialization from under a negation.
pub open spec fn goals_deny(goals: Seq<PlannedGoalView>, key: Key) -> bool {
    exists|g: int|
        0 <= g < goals.len() && (#[trigger] goals[g]).access == (AccessView::Derived {
            id: key.0,
            pattern: key.1,
        }) && goals[g].negated
}

/// The dearest extern access among some goals.
pub open spec fn dearest(goals: Seq<PlannedGoalView>) -> CostClass
    decreases goals.len(),
{
    if goals.len() == 0 {
        CostClass::C0
    } else {
        let rest = dearest(goals.drop_last());
        match goals.last().access {
            AccessView::Extern { mode, .. } => rest.max_of(mode.cost),
            _ => rest,
        }
    }
}

/// Some goal scans an extern predicate.
pub open spec fn has_extern_scan(goals: Seq<PlannedGoalView>) -> bool {
    exists|g: int|
        0 <= g < goals.len() && ((#[trigger] goals[g]).access matches AccessView::Extern {
            mode,
            ..
        } && mode.access is Scan)
}

/// The goals of some rules, one rule after the other.
pub open spec fn all_goals_of(rules: Seq<PlannedRuleView>) -> Seq<PlannedGoalView>
    decreases rules.len(),
{
    if rules.len() == 0 {
        Seq::empty()
    } else {
        rules[0].goals + all_goals_of(rules.drop_first())
    }
}

/// A scan of this name is listed.
pub open spec fn is_listed(scans: Seq<ScanUseView>, name: Seq<char>) -> bool {
    exists|i: int| 0 <= i < scans.len() && (#[trigger] scans[i]).predicate == name
}

/// Adds a scan, unless one of its name is listed.
pub open spec fn with_scan(scans: Seq<ScanUseView>, scan: ScanUseView) -> Seq<ScanUseView> {
    if is_listed(scans, scan.predicate) {
        scans
    } else {
        scans.push(scan)
    }
}

impl PlanSetting {
    /// All goals of a specialization.
    pub open spec fn spec_goals(self, key: Key) -> Seq<PlannedGoalView> {
        all_goals_of(self.planned_rules(key))
    }

    /// The specialization calls another.
    pub open spec fn edge(self, from: Key, to: Key) -> bool {
        goals_call(self.spec_goals(from), to)
    }

    /// `path` leads along calls of specializations.
    pub open spec fn is_key_path(self, path: Seq<Key>) -> bool {
        &&& path.len() > 0
        &&& forall|i: int| 0 <= i < path.len() - 1 ==> self.edge(#[trigger] path[i], path[i + 1])
    }

    /// Calls lead from one specialization to another, in any number of steps.
    pub open spec fn key_reaches(self, from: Key, to: Key) -> bool {
        exists|path: Seq<Key>| #[trigger]
            self.is_key_path(path) && path[0] == from && path.last() == to
    }

    /// The query's goals.
    pub open spec fn query_goals(self) -> Seq<PlannedGoalView> {
        self.planned(None, 0).goals
    }

    /// The query calls for the specialization, directly or through others.
    pub open spec fn is_demanded(self, key: Key) -> bool {
        exists|first: Key| #[trigger]
            goals_call(self.query_goals(), first) && self.key_reaches(first, key)
    }

    /// The dearest extern access in the specialization itself.
    pub open spec fn own_cost(self, key: Key) -> CostClass {
        dearest(self.spec_goals(key))
    }

    /// The specialization itself scans, or is a scan.
    pub open spec fn own_scan(self, key: Key) -> bool {
        has_extern_scan(self.spec_goals(key)) || unseeded(key.1)
    }

    /// `cost` is the dearest extern access in all that the specialization
    /// reaches.
    pub open spec fn is_exact_cost(self, key: Key, cost: CostClass) -> bool {
        &&& exists|to: Key| #[trigger] self.key_reaches(key, to) && self.own_cost(to) == cost
        &&& forall|to: Key| #[trigger]
            self.key_reaches(key, to) ==> self.own_cost(to).rank() <= cost.rank()
    }

    /// The exact cost of a specialization.
    pub open spec fn exact_cost(self, key: Key) -> CostClass {
        choose|cost: CostClass| self.is_exact_cost(key, cost)
    }

    /// Something that the specialization reaches scans.
    pub open spec fn reaches_scan(self, key: Key) -> bool {
        exists|to: Key| #[trigger] self.key_reaches(key, to) && self.own_scan(to)
    }

    /// A specialization demanded under a negation that reaches a scan, the
    /// first such in order.
    pub open spec fn is_first_denied(self, state: DemandState, key: Key) -> bool {
        &&& state.negated.contains(key)
        &&& self.reaches_scan(key)
        &&& forall|other: Key| #[trigger]
            state.negated.contains(other) && self.reaches_scan(other) ==> other == key || key_lt(
                key,
                other,
            )
    }

    /// The error for a scan under a negation.
    pub open spec fn denial_error(self, key: Key) -> PlanErrorView {
        PlanErrorView::ScanUnderNegation {
            goal: self.program.derived@[key.0].name@ + ("("@ + marks(key.1) + ")"@),
            cost: self.exact_cost(key),
        }
    }

    /// `cost` is the dearest of the query's own accesses and of the costs of
    /// all specializations.
    pub open spec fn is_plan_cost(self, seen: Set<Key>, cost: CostClass) -> bool {
        let own = dearest(self.query_goals());
        &&& own == cost || exists|key: Key| #[trigger]
            seen.contains(key) && self.exact_cost(key) == cost
        &&& own.rank() <= cost.rank()
        &&& forall|key: Key| #[trigger]
            seen.contains(key) ==> self.exact_cost(key).rank() <= cost.rank()
    }

    /// The scans met when following goals depth first, each specialization
    /// once, behind those met before; each name is listed where it is first
    /// met.
    pub open spec fn scans_met(
        self,
        goals: Seq<PlannedGoalView>,
        visited: Set<Key>,
        met: Seq<ScanUseView>,
    ) -> Seq<ScanUseView>
        decreases unseen(self.program, visited).len(), goals.len(),
    {
        if goals.len() == 0 {
            met
        } else {
            let rest = goals.drop_first();
            match goals[0].access {
                AccessView::Extern { predicate, mode } => self.scans_met(
                    rest,
                    visited,
                    if mode.access is Scan {
                        with_scan(met, ScanUseView { predicate, cost: mode.cost })
                    } else {
                        met
                    },
                ),
                AccessView::Derived { id, pattern } => {
                    let key = (id, pattern);
                    let now = if unseeded(pattern) {
                        with_scan(
                            met,
                            ScanUseView {
                                predicate: self.program.derived@[id].name@,
                                cost: self.exact_cost(key),
                            },
                        )
                    } else {
                        met
                    };
                    if visited.contains(key) || !is_key(self.program, key) {
                        self.scans_met(rest, visited, now)
                    } else {
                        proof {
                            lemma_unseen_shrinks(self.program, visited, key);
                        }
                        self.scans_met(self.spec_goals(key) + rest, visited.insert(key), now)
                    }
                },
                _ => self.scans_met(rest, visited, met),
            }
        }
    }

    /// The compiled form of a specialization.
    pub open spec fn specialization(self, key: Key) -> SpecializationView {
        SpecializationView {
            predicate: key.0,
            pattern: key.1,
            rules: self.planned_rules(key),
            is_scan: unseeded(key.1),
            max_cost: self.exact_cost(key),
        }
    }

    /// The plan once everything is demanded.
    pub open spec fn physical(self, state: DemandState) -> PhysicalPlanView {
        PhysicalPlanView {
            query: self.planned(None, 0),
            specializations: keys_in_order(state.seen).map_values(
                |key: Key| self.specialization(key),
            ),
            scans: self.plan_scans(),
            max_cost: choose|cost: CostClass| self.is_plan_cost(state.seen, cost),
        }
    }

    /// The scans that the plan contains, in the order in which they are met.
    pub open spec fn plan_scans(self) -> Seq<ScanUseView> {
        self.scans_met(self.query_goals(), Set::empty(), Seq::empty())
    }

    /// The plan, or the refusal of a scan: of one under a negation, and where
    /// scans are denied of the first that the plan contains.
    pub open spec fn finished(self, state: DemandState) -> Result<PhysicalPlanView, PlanErrorView> {
        if exists|key: Key| self.is_first_denied(state, key) {
            Err(self.denial_error(choose|key: Key| self.is_first_denied(state, key)))
        } else if self.deny_scans && self.plan_scans().len() > 0 {
            Err(
                PlanErrorView::ScanDenied {
                    predicate: self.plan_scans()[0].predicate,
                    cost: self.plan_scans()[0].cost,
                },
            )
        } else {
            Ok(self.physical(state))
        }
    }
}

/// What planning a program comes to.
pub open spec fn plan_outcome(program: Program, catalog: Catalog, deny_scans: bool) -> Result<
    PhysicalPlanView,
    PlanErrorView,
> {
    match program_fault(program, catalog) {
        Some(fault) => Err(fault),
        None => if exists|p: int, k: int| first_mode_fault(program, catalog, p, k) {
            let (p, k) = choose|p: int, k: int| first_mode_fault(program, catalog, p, k);
            Err(mode_fault_error(program, p, k))
        } else {
            let setting = PlanSetting {
                program,
                catalog,
                supports: contract(program, catalog),
                deny_scans,
            };
            match setting.demanded() {
                Ok(state) => setting.finished(state),
                Err(error) => Err(error),
            }
        },
    }
}

/// A goal of one of the rules is among all their goals.
pub proof fn lemma_goal_among_all(rules: Seq<PlannedRuleView>, r: int, g: int) -> (h: int)
    requires
        0 <= r < rules.len(),
        0 <= g < rules[r].goals.len(),
    ensures
        0 <= h < all_goals_of(rules).len(),
        all_goals_of(rules)[h] == rules[r].goals[g],
    decreases rules.len(),
{
    if r == 0 {
        g
    } else {
        let h = lemma_goal_among_all(rules.drop_first(), r - 1, g);
        rules[0].goals.len() + h
    }
}

/// Each of all goals belongs to one of the rules.
pub proof fn lemma_all_goals_origin(rules: Seq<PlannedRuleView>, h: int) -> (origin: (int, int))
    requires
        0 <= h < all_goals_of(rules).len(),
    ensures
        0 <= origin.0 < rules.len(),
        0 <= origin.1 < rules[origin.0].goals.len(),
        all_goals_of(rules)[h] == rules[origin.0].goals[origin.1],
    decreases rules.len(),
{
    if h < rules[0].goals.len() {
        (0, h)
    } else {
        let rest = lemma_all_goals_origin(rules.drop_first(), h - rules[0].goals.len());
        (rest.0 + 1, rest.1)
    }
}

/// The demand of a goal is among the demands.
proof fn lemma_demand_among(goals: Seq<PlannedGoalView>, g: int) -> (j: int)
    requires
        0 <= g < goals.len(),
        goals[g].access is Derived,
    ensures
        0 <= j < demands(goals).len(),
        demands(goals)[j] == (DemandTask::Demand {
            key: (goals[g].access->Derived_id, goals[g].access->Derived_pattern),
            negated: goals[g].negated,
        }),
    decreases goals.len(),
{
    if g == 0 {
        0
    } else {
        let j = lemma_demand_among(goals.drop_first(), g - 1);
        if goals[0].access is Derived {
            j + 1
        } else {
            j
        }
    }
}

/// Each demand is that of a goal.
proof fn lemma_demand_origin(goals: Seq<PlannedGoalView>, j: int) -> (g: int)
    requires
        0 <= j < demands(goals).len(),
    ensures
        0 <= g < goals.len(),
        goals[g].access is Derived,
        demands(goals)[j] == (DemandTask::Demand {
            key: (goals[g].access->Derived_id, goals[g].access->Derived_pattern),
            negated: goals[g].negated,
        }),
    decreases goals.len(),
{
    if goals[0].access is Derived {
        if j == 0 {
            0
        } else {
            lemma_demand_origin(goals.drop_first(), j - 1) + 1
        }
    } else {
        lemma_demand_origin(goals.drop_first(), j) + 1
    }
}

proof fn lemma_rules_from(key: Key, from: int, count: int)
    requires
        from <= count,
    ensures
        rules_from(key, from, count).len() == count - from,
        forall|i: int|
            0 <= i < count - from ==> #[trigger] rules_from(key, from, count)[i] == (
            DemandTask::Rule { owner: Some(key), index: from + i }),
    decreases count - from,
{
    if from < count {
        lemma_rules_from(key, from + 1, count);
        let rest = rules_from(key, from + 1, count);
        assert forall|i: int| 0 <= i < count - from implies #[trigger] rules_from(
            key,
            from,
            count,
        )[i] == (DemandTask::Rule { owner: Some(key), index: from + i }) by {
            if i > 0 {
                assert(rules_from(key, from, count)[i] == rest[i - 1]);
            }
        }
    }
}

/// What the goals demand has been demanded.
pub open spec fn served(program: Program, goals: Seq<PlannedGoalView>, state: DemandState) -> bool {
    forall|g: int|
        0 <= g < goals.len() && (#[trigger] goals[g]).access is Derived ==> {
            let key = (goals[g].access->Derived_id, goals[g].access->Derived_pattern);
            &&& is_key(program, key) ==> state.seen.contains(key)
            &&& goals[g].negated ==> state.negated.contains(key)
        }
}

impl PlanSetting {
    /// A step has been taken.
    spec fn taken(self, task: DemandTask, state: DemandState) -> bool {
        match task {
            DemandTask::Rule { owner, index } => self.problem(owner, index).orderable() && served(
                self.program,
                self.planned(owner, index).goals,
                state,
            ),
            DemandTask::Demand { key, negated } => {
                &&& is_key(self.program, key) ==> state.seen.contains(key)
                &&& negated ==> state.negated.contains(key)
            },
        }
    }

    /// All rules of the specialization are ordered, and what they demand has
    /// been demanded.
    pub open spec fn compiled(self, key: Key, state: DemandState) -> bool {
        forall|r: int|
            0 <= r < self.program.derived@[key.0].rules@.len() ==> (#[trigger] self.problem(
                Some(key),
                r,
            )).orderable() && served(self.program, self.planned(Some(key), r).goals, state)
    }

    /// Following some steps to the end takes them all, and compiles whatever
    /// is demanded on the way.
    proof fn lemma_follow_takes_all(self, tasks: Seq<DemandTask>, state: DemandState)
        requires
            self.follow(tasks, state) is Ok,
        ensures
            state.seen.subset_of(self.follow(tasks, state)->Ok_0.seen),
            state.negated.subset_of(self.follow(tasks, state)->Ok_0.negated),
            forall|i: int|
                0 <= i < tasks.len() ==> self.taken(
                    #[trigger] tasks[i],
                    self.follow(tasks, state)->Ok_0,
                ),
            forall|key: Key| #[trigger]
                self.follow(tasks, state)->Ok_0.seen.contains(key) && !state.seen.contains(key)
                    ==> is_key(self.program, key) && self.compiled(
                    key,
                    self.follow(tasks, state)->Ok_0,
                ),
        decreases unseen(self.program, state.seen).len(), rule_steps(tasks), tasks.len(),
    {
        let end = self.follow(tasks, state)->Ok_0;
        if tasks.len() > 0 {
            let rest = tasks.drop_first();
            match tasks[0] {
                DemandTask::Rule { owner, index } => {
                    let problem = self.problem(owner, index);
                    let goals = problem.ordered();
                    let next = demands(goals) + rest;
                    lemma_rule_steps_add(demands(goals), rest);
                    lemma_demands_order_nothing(goals);
                    self.lemma_follow_takes_all(next, state);
                    assert forall|g: int|
                        0 <= g < goals.len() && (#[trigger] goals[g]).access is Derived implies {
                        let key = (goals[g].access->Derived_id, goals[g].access->Derived_pattern);
                        &&& is_key(self.program, key) ==> end.seen.contains(key)
                        &&& goals[g].negated ==> end.negated.contains(key)
                    } by {
                        let j = lemma_demand_among(goals, g);
                        assert(next[j] == demands(goals)[j]);
                        assert(self.taken(next[j], end));
                    }
                    assert forall|i: int| 0 <= i < tasks.len() implies self.taken(
                        #[trigger] tasks[i],
                        end,
                    ) by {
                        if i > 0 {
                            assert(tasks[i] == rest[i - 1]);
                            assert(next[demands(goals).len() + (i - 1)] == rest[i - 1]);
                        }
                    }
                },
                DemandTask::Demand { key, negated } => {
                    let marked = if negated {
                        state.negated.insert(key)
                    } else {
                        state.negated
                    };
                    if state.seen.contains(key) || !is_key(self.program, key) {
                        let here = DemandState { seen: state.seen, negated: marked };
                        self.lemma_follow_takes_all(rest, here);
                        assert forall|i: int| 0 <= i < tasks.len() implies self.taken(
                            #[trigger] tasks[i],
                            end,
                        ) by {
                            if i > 0 {
                                assert(tasks[i] == rest[i - 1]);
                            } else {
                                assert(here.negated.subset_of(end.negated));
                                assert(negated ==> here.negated.contains(key));
                            }
                        }
                    } else {
                        let count = self.program.derived@[key.0].rules@.len() as int;
                        let inside = DemandState { seen: state.seen.insert(key), negated: marked };
                        let next = rules_from(key, 0, count) + rest;
                        lemma_unseen_shrinks(self.program, state.seen, key);
                        self.lemma_follow_takes_all(next, inside);
                        lemma_rules_from(key, 0, count);
                        assert(inside.seen.contains(key));
                        assert(negated ==> inside.negated.contains(key));
                        assert forall|i: int| 0 <= i < tasks.len() implies self.taken(
                            #[trigger] tasks[i],
                            end,
                        ) by {
                            if i > 0 {
                                assert(tasks[i] == rest[i - 1]);
                                assert(next[count + (i - 1)] == rest[i - 1]);
                            }
                        }
                        assert forall|k: Key| #[trigger]
                            end.seen.contains(k) && !state.seen.contains(k) implies is_key(
                            self.program,
                            k,
                        ) && self.compiled(k, end) by {
                            if k == key {
                                assert forall|r: int| 0 <= r < count implies (
                                #[trigger] self.problem(Some(key), r)).orderable() && served(
                                    self.program,
                                    self.planned(Some(key), r).goals,
                                    end,
                                ) by {
                                    assert(next[r] == rules_from(key, 0, count)[r]);
                                    assert(self.taken(next[r], end));
                                }
                            }
                        }
                    }
                },
            }
        }
    }

    /// Everything that a finished planning has demanded is compiled, and so is
    /// the query.
    pub proof fn lemma_demanded_is_closed(self)
        requires
            self.demanded() is Ok,
        ensures
            self.problem(None, 0).orderable(),
            served(self.program, self.query_goals(), self.demanded()->Ok_0),
            forall|key: Key| #[trigger]
                self.demanded()->Ok_0.seen.contains(key) ==> is_key(self.program, key)
                    && self.compiled(key, self.demanded()->Ok_0),
    {
        let tasks = seq![DemandTask::Rule { owner: None, index: 0 }];
        let start = DemandState { seen: Set::empty(), negated: Set::empty() };
        self.lemma_follow_takes_all(tasks, start);
        assert(self.taken(tasks[0], self.demanded()->Ok_0));
    }

    /// What a compiled specialization calls has been demanded, where it is a
    /// key.
    pub proof fn lemma_compiled_edge(self, from: Key, to: Key, state: DemandState)
        requires
            self.compiled(from, state),
            self.edge(from, to),
            is_key(self.program, to),
        ensures
            state.seen.contains(to),
    {
        let goals = self.spec_goals(from);
        let h = choose|h: int|
            0 <= h < goals.len() && (#[trigger] goals[h]).access == (AccessView::Derived {
                id: to.0,
                pattern: to.1,
            });
        let rules = self.planned_rules(from);
        let (r, g) = lemma_all_goals_origin(rules, h);
        assert(self.problem(Some(from), r).orderable());
        assert(rules[r] == self.planned(Some(from), r));
        assert(rules[r].goals[g].access is Derived);
        assert(to == (to.0, to.1));
    }
}

/// What ordered goals demand are keys of the program.
pub proof fn lemma_ordered_demands_keys(problem: OrderProblem, left: Set<int>)
    requires
        rule_wf(problem.program, problem.catalog, problem.rule),
        left.subset_of(problem.all_goals()),
    ensures
        forall|k: int|
            0 <= k < problem.placement(left).0.len() ==> (match (#[trigger] problem.placement(
                left,
            ).0[k]).access {
                AccessView::Derived { id, pattern } => is_key(problem.program, (id, pattern)),
                _ => true,
            }),
    decreases left.len(),
{
    lemma_int_range(0, problem.rule.body@.len() as int);
    vstd::set_lib::lemma_len_subset(left, problem.all_goals());
    if exists|i: int| problem.is_next(left, i) {
        let i = choose|i: int| problem.is_next(left, i);
        lemma_ordered_demands_keys(problem, left.remove(i));
        let rest = problem.placement(left.remove(i)).0;
        let all = problem.placement(left).0;
        assert(goal_wf(
            problem.program,
            problem.catalog,
            problem.rule,
            problem.rule.body@[i],
        ));
        assert forall|k: int| 0 <= k < all.len() implies (match (#[trigger] all[k]).access {
            AccessView::Derived { id, pattern } => is_key(problem.program, (id, pattern)),
            _ => true,
        }) by {
            if k > 0 {
                assert(all[k] == rest[k - 1]);
            } else {
                assert(all[0] == problem.placed(left, i));
                let flags = flags_of(problem.goal(i).args@, problem.bound_before(left));
                assert(flags.len() == problem.goal(i).args@.len());
            }
        }
    }
}

impl PlanSetting {
    /// What the specialization or the query calls are keys of the program.
    proof fn lemma_called_is_key(self, owner: Option<Key>, index: int, g: int)
        requires
            program_wf(self.program, self.catalog),
            owner matches Some(key) ==> is_key(self.program, key) && 0 <= index
                < self.program.derived@[key.0].rules@.len(),
            0 <= g < self.planned(owner, index).goals.len(),
            self.planned(owner, index).goals[g].access is Derived,
        ensures
            is_key(
                self.program,
                (
                    self.planned(owner, index).goals[g].access->Derived_id,
                    self.planned(owner, index).goals[g].access->Derived_pattern,
                ),
            ),
    {
        let problem = self.problem(owner, index);
        match owner {
            Some(key) => {
                assert(rule_wf(
                    self.program,
                    self.catalog,
                    self.program.derived@[key.0].rules@[index],
                ));
            },
            None => {},
        }
        lemma_ordered_demands_keys(problem, problem.all_goals());
        assert(match problem.placement(problem.all_goals()).0[g].access {
            AccessView::Derived { id, pattern } => is_key(problem.program, (id, pattern)),
            _ => true,
        });
    }

    /// What a key's specialization calls is a key.
    pub proof fn lemma_edge_is_key(self, from: Key, to: Key)
        requires
            program_wf(self.program, self.catalog),
            is_key(self.program, from),
            self.edge(from, to),
        ensures
            is_key(self.program, to),
    {
        let goals = self.spec_goals(from);
        let h = choose|h: int|
            0 <= h < goals.len() && (#[trigger] goals[h]).access == (AccessView::Derived {
                id: to.0,
                pattern: to.1,
            });
        let rules = self.planned_rules(from);
        let (r, g) = lemma_all_goals_origin(rules, h);
        assert(rules[r] == self.planned(Some(from), r));
        self.lemma_called_is_key(Some(from), r, g);
        assert(to == (to.0, to.1));
    }

    pub proof fn lemma_key_reaches_self(self, key: Key)
        ensures
            self.key_reaches(key, key),
    {
        let path = seq![key];
        assert(self.is_key_path(path) && path[0] == key && path.last() == key);
    }

    pub proof fn lemma_key_reaches_step(self, from: Key, mid: Key, to: Key)
        requires
            self.key_reaches(from, mid),
            self.edge(mid, to),
        ensures
            self.key_reaches(from, to),
    {
        let path = choose|path: Seq<Key>| #[trigger]
            self.is_key_path(path) && path[0] == from && path.last() == mid;
        let longer = path.push(to);
        assert forall|i: int| 0 <= i < longer.len() - 1 implies self.edge(
            #[trigger] longer[i],
            longer[i + 1],
        ) by {
            if i < path.len() - 1 {
                assert(self.edge(path[i], path[i + 1]));
            }
        }
        assert(self.is_key_path(longer) && longer[0] == from && longer.last() == to);
    }

    /// What a rule of a demanded specialization, or of the query, calls is
    /// demanded.
    proof fn lemma_call_is_demanded(self, owner: Option<Key>, index: int, g: int)
        requires
            owner matches Some(key) ==> self.is_demanded(key) && 0 <= index
                < self.program.derived@[key.0].rules@.len(),
            owner is None ==> index == 0,
            0 <= g < self.planned(owner, index).goals.len(),
            self.planned(owner, index).goals[g].access is Derived,
        ensures
            self.is_demanded(
                (
                    self.planned(owner, index).goals[g].access->Derived_id,
                    self.planned(owner, index).goals[g].access->Derived_pattern,
                ),
            ),
    {
        let goals = self.planned(owner, index).goals;
        let to = (goals[g].access->Derived_id, goals[g].access->Derived_pattern);
        match owner {
            Some(key) => {
                let rules = self.planned_rules(key);
                assert(rules[index] == self.planned(Some(key), index));
                let h = lemma_goal_among_all(rules, index, g);
                assert(self.spec_goals(key)[h].access == (AccessView::Derived {
                    id: to.0,
                    pattern: to.1,
                }));
                assert(self.edge(key, to));
                let first = choose|first: Key| #[trigger]
                    goals_call(self.query_goals(), first) && self.key_reaches(first, key);
                self.lemma_key_reaches_step(first, key, to);
            },
            None => {
                assert(self.query_goals()[g].access == (AccessView::Derived {
                    id: to.0,
                    pattern: to.1,
                }));
                assert(goals_call(self.query_goals(), to));
                self.lemma_key_reaches_self(to);
            },
        }
    }

    /// A demanded specialization, or the query, calls the key from under a
    /// negation.
    pub open spec fn is_denied(self, key: Key) -> bool {
        goals_deny(self.query_goals(), key) || exists|from: Key| #[trigger]
            self.is_demanded(from) && goals_deny(self.spec_goals(from), key)
    }

    /// The step arises from the query.
    spec fn arises(self, task: DemandTask) -> bool {
        match task {
            DemandTask::Rule { owner, index } => match owner {
                Some(key) => self.is_demanded(key) && is_key(self.program, key) && 0 <= index
                    < self.program.derived@[key.0].rules@.len(),
                None => index == 0,
            },
            DemandTask::Demand { key, negated } => self.is_demanded(key) && (negated
                ==> self.is_denied(key)),
        }
    }

    /// Following steps that arise from the query demands nothing else.
    proof fn lemma_follow_demands_no_more(self, tasks: Seq<DemandTask>, state: DemandState)
        requires
            self.follow(tasks, state) is Ok,
            forall|i: int| 0 <= i < tasks.len() ==> self.arises(#[trigger] tasks[i]),
            forall|key: Key| #[trigger] state.seen.contains(key) ==> self.is_demanded(key),
            forall|key: Key| #[trigger] state.negated.contains(key) ==> self.is_denied(key),
        ensures
            forall|key: Key| #[trigger]
                self.follow(tasks, state)->Ok_0.seen.contains(key) ==> self.is_demanded(key),
            forall|key: Key| #[trigger]
                self.follow(tasks, state)->Ok_0.negated.contains(key) ==> self.is_denied(key),
        decreases unseen(self.program, state.seen).len(), rule_steps(tasks), tasks.len(),
    {
        if tasks.len() > 0 {
            let rest = tasks.drop_first();
            assert(self.arises(tasks[0]));
            assert forall|i: int| 0 <= i < rest.len() implies self.arises(#[trigger] rest[i]) by {
                assert(rest[i] == tasks[i + 1]);
            }
            match tasks[0] {
                DemandTask::Rule { owner, index } => {
                    let goals = self.problem(owner, index).ordered();
                    let next = demands(goals) + rest;
                    lemma_rule_steps_add(demands(goals), rest);
                    lemma_demands_order_nothing(goals);
                    assert forall|i: int| 0 <= i < next.len() implies self.arises(
                        #[trigger] next[i],
                    ) by {
                        if i < demands(goals).len() {
                            assert(next[i] == demands(goals)[i]);
                            let g = lemma_demand_origin(goals, i);
                            self.lemma_call_is_demanded(owner, index, g);
                            if goals[g].negated {
                                self.lemma_denied_call(owner, index, g);
                            }
                        } else {
                            assert(next[i] == rest[i - demands(goals).len()]);
                        }
                    }
                    self.lemma_follow_demands_no_more(next, state);
                },
                DemandTask::Demand { key, negated } => {
                    let marked = if negated {
                        state.negated.insert(key)
                    } else {
                        state.negated
                    };
                    if state.seen.contains(key) || !is_key(self.program, key) {
                        let here = DemandState { seen: state.seen, negated: marked };
                        self.lemma_follow_demands_no_more(rest, here);
                    } else {
                        let count = self.program.derived@[key.0].rules@.len() as int;
                        let inside = DemandState { seen: state.seen.insert(key), negated: marked };
                        let next = rules_from(key, 0, count) + rest;
                        lemma_unseen_shrinks(self.program, state.seen, key);
                        lemma_rules_from(key, 0, count);
                        assert forall|i: int| 0 <= i < next.len() implies self.arises(
                            #[trigger] next[i],
                        ) by {
                            if i < count {
                                assert(next[i] == rules_from(key, 0, count)[i]);
                            } else {
                                assert(next[i] == rest[i - count]);
                            }
                        }
                        self.lemma_follow_demands_no_more(next, inside);
                    }
                },
            }
        }
    }

    /// A call under a negation denies its key.
    proof fn lemma_denied_call(self, owner: Option<Key>, index: int, g: int)
        requires
            owner matches Some(key) ==> self.is_demanded(key) && 0 <= index
                < self.program.derived@[key.0].rules@.len(),
            owner is None ==> index == 0,
            0 <= g < self.planned(owner, index).goals.len(),
            self.planned(owner, index).goals[g].access is Derived,
            self.planned(owner, index).goals[g].negated,
        ensures
            self.is_denied(
                (
                    self.planned(owner, index).goals[g].access->Derived_id,
                    self.planned(owner, index).goals[g].access->Derived_pattern,
                ),
            ),
    {
        let goals = self.planned(owner, index).goals;
        let to = (goals[g].access->Derived_id, goals[g].access->Derived_pattern);
        match owner {
            Some(key) => {
                let rules = self.planned_rules(key);
                assert(rules[index] == self.planned(Some(key), index));
                let h = lemma_goal_among_all(rules, index, g);
                assert(self.spec_goals(key)[h].access == (AccessView::Derived {
                    id: to.0,
                    pattern: to.1,
                }));
                assert(goals_deny(self.spec_goals(key), to));
            },
            None => {
                assert(self.query_goals()[g].access == (AccessView::Derived {
                    id: to.0,
                    pattern: to.1,
                }));
                assert(goals_deny(self.query_goals(), to));
            },
        }
    }

    /// Demand is exact: the specializations of a plan are those that the query
    /// calls for, directly or through others, each once and no others; and
    /// those held to be scan-free are the ones called from under a negation.
    pub proof fn law_demand_is_exact(self)
        requires
            program_wf(self.program, self.catalog),
            self.demanded() is Ok,
        ensures
            forall|key: Key|
                self.demanded()->Ok_0.seen.contains(key) <==> #[trigger] self.is_demanded(key),
            forall|key: Key|
                self.demanded()->Ok_0.negated.contains(key) <==> #[trigger] self.is_denied(key),
            self.demanded()->Ok_0.negated.subset_of(self.demanded()->Ok_0.seen),
    {
        let end = self.demanded()->Ok_0;
        let tasks = seq![DemandTask::Rule { owner: None, index: 0 }];
        let start = DemandState { seen: Set::empty(), negated: Set::empty() };
        self.lemma_demanded_is_closed();
        self.lemma_follow_demands_no_more(tasks, start);
        assert forall|key: Key| #[trigger] self.is_demanded(key) implies end.seen.contains(key) by {
            let first = choose|first: Key| #[trigger]
                goals_call(self.query_goals(), first) && self.key_reaches(first, key);
            let g = choose|g: int|
                0 <= g < self.query_goals().len() && (#[trigger] self.query_goals()[g]).access == (
                AccessView::Derived { id: first.0, pattern: first.1 });
            self.lemma_called_is_key(None, 0, g);
            assert(first == (first.0, first.1));
            assert(end.seen.contains(first));
            let path = choose|path: Seq<Key>| #[trigger]
                self.is_key_path(path) && path[0] == first && path.last() == key;
            self.lemma_path_is_seen(path, end);
        }
        assert forall|key: Key| #[trigger] self.is_denied(key) implies end.negated.contains(key) by {
            assert(key == (key.0, key.1));
            if goals_deny(self.query_goals(), key) {
                let g = choose|g: int|
                    0 <= g < self.query_goals().len() && (#[trigger] self.query_goals()[g]).access
                        == (AccessView::Derived { id: key.0, pattern: key.1 })
                        && self.query_goals()[g].negated;
                assert(self.query_goals()[g].access is Derived);
            } else {
                let from = choose|from: Key| #[trigger]
                    self.is_demanded(from) && goals_deny(self.spec_goals(from), key);
                assert(end.seen.contains(from));
                let goals = self.spec_goals(from);
                let h = choose|h: int|
                    0 <= h < goals.len() && (#[trigger] goals[h]).access == (AccessView::Derived {
                        id: key.0,
                        pattern: key.1,
                    }) && goals[h].negated;
                let rules = self.planned_rules(from);
                let (r, g) = lemma_all_goals_origin(rules, h);
                assert(rules[r] == self.planned(Some(from), r));
                assert(self.problem(Some(from), r).orderable());
                assert(rules[r].goals[g].access is Derived);
            }
        }
        assert forall|key: Key| end.negated.contains(key) implies end.seen.contains(key) by {
            assert(self.is_denied(key));
            if goals_deny(self.query_goals(), key) {
                assert(goals_call(self.query_goals(), key));
                self.lemma_key_reaches_self(key);
                assert(self.is_demanded(key));
            } else {
                let from = choose|from: Key| #[trigger]
                    self.is_demanded(from) && goals_deny(self.spec_goals(from), key);
                assert(self.edge(from, key));
                let first = choose|first: Key| #[trigger]
                    goals_call(self.query_goals(), first) && self.key_reaches(first, from);
                self.lemma_key_reaches_step(first, from, key);
                assert(self.is_demanded(key));
            }
        }
    }

    /// Calls lead from what has been demanded to what has been demanded.
    pub proof fn lemma_path_is_seen(self, path: Seq<Key>, end: DemandState)
        requires
            program_wf(self.program, self.catalog),
            self.is_key_path(path),
            end.seen.contains(path[0]),
            forall|key: Key| #[trigger]
                end.seen.contains(key) ==> is_key(self.program, key) && self.compiled(key, end),
        ensures
            end.seen.contains(path.last()),
        decreases path.len(),
    {
        if path.len() > 1 {
            let front = path.drop_last();
            assert forall|i: int| 0 <= i < front.len() - 1 implies self.edge(
                #[trigger] front[i],
                front[i + 1],
            ) by {
                assert(self.edge(path[i], path[i + 1]));
            }
            self.lemma_path_is_seen(front, end);
            let mid = front.last();
            assert(self.edge(path[path.len() - 2], path[path.len() - 1]));
            self.lemma_edge_is_key(mid, path.last());
            self.lemma_compiled_edge(mid, path.last(), end);
        }
    }
}

} // verus!
