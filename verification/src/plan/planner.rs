//! The binding-aware planner.

use crate::plan::blame::{Blame, RuleOwner};
use crate::plan::catalog::Catalog;
use crate::plan::demand::{
    all_keys, demands, is_key, lemma_all_keys_finite, lemma_unseen_shrinks, rules_from, unseen,
    DemandState, DemandTask, Key, PlanSetting,
};
use crate::plan::error::{PlanError, PlanErrorView};
use crate::plan::keys::{
    key_lt, key_views, keys_ascend, lemma_insert_to_set, lemma_key_order_total, locate, KeySet,
    SpecKey,
};
use crate::plan::logic::{DerivedId, Program, Rule};
use crate::plan::order::OrderProblem;
use crate::plan::finalize::SpecTable;
use crate::plan::mode::required;
use crate::plan::outcome::{lemma_ordered_demands_keys, plan_outcome};
use crate::plan::patterns::PatternSet;
use crate::plan::physical::{
    goal_views, rule_views, Access, AccessView, PhysicalPlan, PhysicalPlanView, PlannedGoalView,
    PlannedRule,
};
use crate::plan::search::{bound_set, rule_wf, support_sets, try_order, OrderFailure, OrderTask};
use crate::plan::supports::{
    contract, first_mode_fault, head_bound_vars, infer_supports, inferable, mode_fault,
    mode_fault_error, program_wf, self_supporting, unbound_marks,
};
use crate::plan::validate::{lemma_faultless_program, program_fault, validate};
use vstd::prelude::*;
use vstd::set_lib::lemma_int_range;

verus! {

/// Having seen more leaves no more to demand.
proof fn lemma_unseen_antitone(program: Program, fewer: Set<Key>, more: Set<Key>)
    requires
        fewer.subset_of(more),
    ensures
        unseen(program, more).len() <= unseen(program, fewer).len(),
{
    lemma_all_keys_finite(program);
    vstd::set_lib::lemma_set_subset_finite(all_keys(program), unseen(program, fewer));
    vstd::set_lib::lemma_len_subset(unseen(program, more), unseen(program, fewer));
}

/// The table has an entry for the key, and no rules in it.
pub open spec fn open_in(
    keys: Seq<SpecKey>,
    rules: Seq<Option<Vec<PlannedRule>>>,
    key: Key,
) -> bool {
    exists|i: int| 0 <= i < keys.len() && (#[trigger] keys[i])@ == key && rules[i] is None
}

proof fn lemma_open_insert(
    keys: Seq<SpecKey>,
    rules: Seq<Option<Vec<PlannedRule>>>,
    at: int,
    key: SpecKey,
)
    requires
        keys.len() == rules.len(),
        0 <= at <= keys.len(),
    ensures
        forall|k: Key| #[trigger]
            open_in(keys.insert(at, key), rules.insert(at, None), k) <==> open_in(keys, rules, k)
                || k == key@,
{
    let keys2 = keys.insert(at, key);
    let rules2 = rules.insert(at, None);
    assert forall|k: Key| #[trigger]
        open_in(keys2, rules2, k) <==> open_in(keys, rules, k) || k == key@ by {
        if open_in(keys2, rules2, k) {
            let i = choose|i: int|
                0 <= i < keys2.len() && (#[trigger] keys2[i])@ == k && rules2[i] is None;
            if i != at {
                let i0 = if i < at { i } else { i - 1 };
                assert(keys[i0]@ == k && rules[i0] is None);
            }
        }
        if open_in(keys, rules, k) {
            let i = choose|i: int|
                0 <= i < keys.len() && (#[trigger] keys[i])@ == k && rules[i] is None;
            let i1 = if i < at { i } else { i + 1 };
            assert(keys2[i1]@ == k && rules2[i1] is None);
        }
        if k == key@ {
            assert(keys2[at]@ == k && rules2[at] is None);
        }
    }
}

proof fn lemma_open_fill(
    keys: Seq<SpecKey>,
    rules: Seq<Option<Vec<PlannedRule>>>,
    at: int,
    filled: Vec<PlannedRule>,
)
    requires
        keys.len() == rules.len(),
        0 <= at < keys.len(),
        keys_ascend(key_views(keys)),
    ensures
        forall|k: Key| #[trigger]
            open_in(keys, rules.update(at, Some(filled)), k) <==> open_in(keys, rules, k) && k
                != keys[at]@,
{
    let rules2 = rules.update(at, Some(filled));
    assert forall|k: Key| #[trigger]
        open_in(keys, rules2, k) <==> open_in(keys, rules, k) && k != keys[at]@ by {
        if open_in(keys, rules2, k) {
            let i = choose|i: int|
                0 <= i < keys.len() && (#[trigger] keys[i])@ == k && rules2[i] is None;
            assert(i != at && rules[i] is None);
            lemma_key_order_total(k, k);
            let a = if i < at { i } else { at };
            let b = if i < at { at } else { i };
            assert(key_lt(key_views(keys)[a], key_views(keys)[b]));
        }
        if open_in(keys, rules, k) && k != keys[at]@ {
            let i = choose|i: int|
                0 <= i < keys.len() && (#[trigger] keys[i])@ == k && rules[i] is None;
            assert(keys[i]@ == k && rules2[i] is None);
        }
    }
}

/// What a failure describes, as sets.
proof fn lemma_failure_fits(failure: &OrderFailure, problem: OrderProblem)
    requires
        failure.describes(problem),
    ensures
        failure.remaining@.map_values(|i: usize| i as int).to_set() == problem.stuck(),
        forall|i: int|
            0 <= i < failure.remaining@.len() ==> #[trigger] failure.remaining@[i]
                < problem.rule.body@.len(),
{
    let indices = failure.remaining@.map_values(|i: usize| i as int);
    let stuck = problem.stuck();
    problem.lemma_placement_ends_stuck(problem.all_goals());
    assert forall|k: int| indices.to_set().contains(k) <==> stuck.contains(k) by {
        if indices.to_set().contains(k) {
            let i = choose|i: int| 0 <= i < indices.len() && indices[i] == k;
            assert(0 <= i < failure.remaining@.len() && failure.remaining@[i] == k);
        }
        if stuck.contains(k) {
            let i = choose|i: int| 0 <= i < failure.remaining@.len() && failure.remaining@[i] == k;
            assert(indices[i] == k);
        }
    }
    assert(indices.to_set() =~= stuck);
    assert forall|i: int| 0 <= i < failure.remaining@.len() implies #[trigger] failure.remaining@[i]
        < problem.rule.body@.len() by {
        assert(indices[i] == failure.remaining@[i]);
        assert(indices.to_set().contains(failure.remaining@[i] as int));
        assert(problem.all_goals().contains(failure.remaining@[i] as int));
    }
}

pub struct Planner<'p> {
    pub program: &'p Program,
    pub catalog: &'p Catalog,
    pub deny_scans: bool,
    pub supports: Vec<PatternSet>,
    /// The specializations demanded so far, in order.
    pub keys: Vec<SpecKey>,
    /// Their ordered rules; `None` marks one in progress.
    pub rules: Vec<Option<Vec<PlannedRule>>>,
    /// Specializations demanded from under a negation: these must end up
    /// scan-free.
    pub negated_demands: KeySet,
}

impl<'p> Planner<'p> {
    pub open spec fn setting(&self) -> PlanSetting {
        PlanSetting {
            program: *self.program,
            catalog: *self.catalog,
            supports: support_sets(self.supports@),
            deny_scans: self.deny_scans,
        }
    }

    pub open spec fn state(&self) -> DemandState {
        DemandState {
            seen: key_views(self.keys@).to_set(),
            negated: self.negated_demands.members(),
        }
    }

    /// The program, the catalog and the supports are valid.
    pub open spec fn inputs_wf(&self) -> bool {
        &&& program_wf(*self.program, *self.catalog)
        &&& self.catalog.wf()
        &&& self.supports@.len() == self.program.derived@.len()
        &&& forall|p: int| 0 <= p < self.supports@.len() ==> (#[trigger] self.supports@[p]).wf()
        &&& forall|p: int, x: Seq<bool>|
            0 <= p < self.supports@.len() && #[trigger] self.supports@[p]@.contains(x) ==> x.len()
                == self.program.derived@[p].arity
    }

    pub open spec fn wf(&self) -> bool {
        &&& self.inputs_wf()
        &&& keys_ascend(key_views(self.keys@))
        &&& self.keys@.len() == self.rules@.len()
        &&& forall|i: int|
            0 <= i < self.keys@.len() ==> is_key(*self.program, (#[trigger] self.keys@[i])@)
        &&& forall|i: int|
            0 <= i < self.rules@.len() && (#[trigger] self.rules@[i]) is Some ==> rule_views(
                self.rules@[i]->0@,
            ) == self.setting().planned_rules(self.keys@[i]@)
        &&& self.negated_demands.wf()
    }

    /// The specialization has been demanded and is in progress.
    pub open spec fn is_open(&self, key: Key) -> bool {
        open_in(self.keys@, self.rules@, key)
    }

    /// The later state of the same planning: what was in progress still is,
    /// and nothing else.
    pub open spec fn grown_from(&self, earlier: &Planner<'p>) -> bool {
        &&& self.program == earlier.program
        &&& self.catalog == earlier.catalog
        &&& self.deny_scans == earlier.deny_scans
        &&& self.supports == earlier.supports
        &&& earlier.state().seen.subset_of(self.state().seen)
        &&& forall|key: Key| #[trigger] self.is_open(key) <==> earlier.is_open(key)
    }

    /// Orders a rule and follows what that demands.
    fn plan_rule(
        &mut self,
        rule: &'p Rule,
        initially_bound: Vec<bool>,
        rule_index: usize,
        owner: Option<RuleOwner>,
        Ghost(owner_key): Ghost<Option<Key>>,
    ) -> (r: Result<PlannedRule, PlanError>)
        requires
            old(self).wf(),
            *rule == old(self).setting().problem(owner_key, rule_index as int).rule,
            rule_wf(*old(self).program, *old(self).catalog, *rule),
            initially_bound@.len() == rule.vars@.len(),
            bound_set(initially_bound@) == old(self).setting().problem(
                owner_key,
                rule_index as int,
            ).seeds,
            match owner_key {
                Some(key) => owner == Some(
                    RuleOwner { predicate: DerivedId(key.0 as usize), rule_index },
                ),
                None => owner is None,
            },
        ensures
            match r {
                Ok(planned) => {
                    &&& final(self).wf()
                    &&& final(self).grown_from(old(self))
                    &&& planned@ == old(self).setting().planned(owner_key, rule_index as int)
                    &&& old(self).setting().problem(owner_key, rule_index as int).orderable()
                    &&& old(self).setting().leads(
                        seq![DemandTask::Rule { owner: owner_key, index: rule_index as int }],
                        old(self).state(),
                        final(self).state(),
                    )
                },
                Err(error) => old(self).setting().fails(
                    seq![DemandTask::Rule { owner: owner_key, index: rule_index as int }],
                    old(self).state(),
                    error@,
                ),
            },
        decreases unseen(*old(self).program, old(self).state().seen).len(), 1int,
    {
        let ghost setting = self.setting();
        let ghost problem = setting.problem(owner_key, rule_index as int);
        let ghost start = self.state();
        let ghost task_seq = seq![
            DemandTask::Rule { owner: owner_key, index: rule_index as int },
        ];
        proof {
            setting.lemma_rule_step(owner_key, rule_index as int, start);
        }
        let task = OrderTask {
            program: self.program,
            catalog: self.catalog,
            supports: &self.supports,
            rule,
            deny_scans: self.deny_scans,
        };
        assert(task.problem(bound_set(initially_bound@)) == problem);
        let placed = match try_order(task, initially_bound) {
            Ok(placed) => placed,
            Err(failure) => {
                let blame = Blame { task, owner, failure: &failure };
                proof {
                    lemma_failure_fits(&failure, problem);
                    assert(blame.wf());
                    assert(blame.case().stuck =~= problem.stuck());
                    assert(setting.order_error(owner_key, rule_index as int)
                        == blame.case().error());
                }
                return Err(blame.order_error());
            },
        };
        let ghost goals = goal_views(placed@);
        proof {
            lemma_ordered_demands_keys(problem, problem.all_goals());
            setting.lemma_leads_nowhere(start);
            assert(goals.skip(0) =~= goals);
        }
        let ghost entry = *self;
        let mut done = Ghost(Seq::<DemandTask>::empty());
        let mut i: usize = 0;
        assert(demands(goals) =~= done@ + demands(goals.skip(0)));
        while i < placed.len()
            invariant
                i <= placed@.len(),
                self.wf(),
                self.grown_from(&entry),
                entry == *old(self),
                setting == self.setting(),
                setting == entry.setting(),
                start == entry.state(),
                goals == goal_views(placed@),
                goals == problem.ordered(),
                problem == setting.problem(owner_key, rule_index as int),
                problem.orderable(),
                task_seq == seq![
                    DemandTask::Rule { owner: owner_key, index: rule_index as int },
                ],
                forall|error: PlanErrorView|
                    setting.fails(demands(goals), start, error) ==> #[trigger] setting.fails(
                        task_seq,
                        start,
                        error,
                    ),
                forall|k: int|
                    0 <= k < goals.len() ==> (match (#[trigger] goals[k]).access {
                        AccessView::Derived { id, pattern } => is_key(
                            *self.program,
                            (id, pattern),
                        ),
                        _ => true,
                    }),
                demands(goals) == done@ + demands(goals.skip(i as int)),
                setting.leads(done@, start, self.state()),
            decreases placed.len() - i,
        {
            let goal = &placed[i];
            let ghost rest = goals.skip(i as int);
            let ghost here = self.state();
            proof {
                assert(rest[0] == goals[i as int]);
                assert(rest.drop_first() =~= goals.skip(i + 1));
                assert(goals[i as int] == placed@[i as int]@);
            }
            match &goal.access {
                Access::Derived { id, pattern } => {
                    let key = SpecKey { id: id.0, pattern: pattern.clone() };
                    let ghost step = seq![
                        DemandTask::Demand { key: key@, negated: goal.negated },
                    ];
                    let ghost later = demands(goals.skip(i + 1));
                    proof {
                        assert(demands(rest) =~= step + later);
                        lemma_unseen_antitone(*self.program, start.seen, here.seen);
                        assert(demands(goals) =~= (done@ + step) + later);
                    }
                    match self.demand(key, goal.negated) {
                        Ok(_) => {},
                        Err(error) => {
                            proof {
                                setting.lemma_fails_on(done@, step, start, here, error@);
                                setting.lemma_fails_early(done@ + step, later, start, error@);
                                assert(setting.fails(demands(goals), start, error@));
                            }
                            return Err(error);
                        },
                    }
                    proof {
                        setting.lemma_leads_on(done@, step, start, here, self.state());
                        done@ = done@ + step;
                    }
                },
                _ => {},
            }
            i += 1;
        }
        proof {
            assert(goals.skip(i as int) =~= Seq::<PlannedGoalView>::empty());
            assert(done@ =~= demands(goals));
        }
        Ok(PlannedRule { rule_index, goals: placed })
    }

    /// Plans the specialization for a key, unless it is planned or in
    /// progress.
    fn demand(&mut self, key: SpecKey, under_negation: bool) -> (r: Result<(), PlanError>)
        requires
            old(self).wf(),
            is_key(*old(self).program, key@),
        ensures
            match r {
                Ok(_) => {
                    &&& final(self).wf()
                    &&& final(self).grown_from(old(self))
                    &&& old(self).setting().leads(
                        seq![DemandTask::Demand { key: key@, negated: under_negation }],
                        old(self).state(),
                        final(self).state(),
                    )
                },
                Err(error) => old(self).setting().fails(
                    seq![DemandTask::Demand { key: key@, negated: under_negation }],
                    old(self).state(),
                    error@,
                ),
            },
        decreases unseen(*old(self).program, old(self).state().seen).len(), 0int,
    {
        let ghost setting = self.setting();
        let ghost start = self.state();
        let ghost step = seq![DemandTask::Demand { key: key@, negated: under_negation }];
        proof {
            setting.lemma_demand_step(key@, under_negation, start);
        }
        if under_negation {
            self.negated_demands.insert(key.copy());
        }
        let ghost marked = self.state();
        let (at, found) = locate(&self.keys, &key);
        if found {
            proof {
                assert(start.seen.contains(key@));
                assert forall|k: Key| #[trigger] self.is_open(k) <==> old(self).is_open(k) by {}
            }
            return Ok(());
        }
        proof {
            assert(!start.seen.contains(key@));
        }
        let ghost keys_before = self.keys@;
        let ghost rules_before = self.rules@;
        self.keys.insert(at, key.copy());
        self.rules.insert(at, None);
        let ghost inside = self.state();
        proof {
            assert(key_views(self.keys@) =~= key_views(keys_before).insert(at as int, key@));
            lemma_insert_to_set(key_views(keys_before), at as int, key@);
            assert(inside.seen == start.seen.insert(key@));
            lemma_unseen_shrinks(*self.program, start.seen, key@);
            assert(self.rules@ =~= rules_before.insert(at as int, None));
            assert forall|i: int| 0 <= i < self.keys@.len() implies is_key(
                *self.program,
                (#[trigger] self.keys@[i])@,
            ) by {
                let i0 = if i < at { i } else { i - 1 };
                if i != at {
                    assert(self.keys@[i] == keys_before[i0]);
                }
            }
            assert forall|i: int|
                0 <= i < self.rules@.len() && (#[trigger] self.rules@[i]) is Some implies rule_views(
                self.rules@[i]->0@,
            ) == self.setting().planned_rules(self.keys@[i]@) by {
                let i0 = if i < at { i } else { i - 1 };
                assert(self.rules@[i] == rules_before[i0]);
                assert(self.keys@[i] == keys_before[i0]);
            }
            assert(self.wf());
            lemma_open_insert(keys_before, rules_before, at as int, self.keys@[at as int]);
            assert(self.keys@ =~= keys_before.insert(at as int, self.keys@[at as int]));
        }
        let ghost entry = *self;
        let program = self.program;
        let rules = &program.derived[key.id].rules;
        let ghost count = rules@.len() as int;
        let mut planned: Vec<PlannedRule> = Vec::new();
        let mut done = Ghost(Seq::<DemandTask>::empty());
        proof {
            setting.lemma_leads_nowhere(inside);
            assert(rules_from(key@, 0, count) =~= done@ + rules_from(key@, 0, count));
        }
        let mut i: usize = 0;
        while i < rules.len()
            invariant
                i <= rules@.len(),
                count == rules@.len(),
                self.wf(),
                self.grown_from(&entry),
                setting == self.setting(),
                setting == entry.setting(),
                inside == entry.state(),
                self.program == program,
                is_key(*program, key@),
                rules@ == program.derived@[key.id as int].rules@,
                !start.seen.contains(key@),
                step == seq![DemandTask::Demand { key: key@, negated: under_negation }],
                unseen(*program, inside.seen).len() < unseen(*program, start.seen).len(),
                start == old(self).state(),
                setting == old(self).setting(),
                program == old(self).program,
                forall|error: PlanErrorView|
                    setting.fails(rules_from(key@, 0, count), inside, error)
                        ==> #[trigger] setting.fails(step, start, error),
                planned@.len() == i,
                forall|r: int|
                    0 <= r < i ==> (#[trigger] planned@[r])@ == setting.planned(Some(key@), r),
                rules_from(key@, 0, count) == done@ + rules_from(key@, i as int, count),
                setting.leads(done@, inside, self.state()),
            decreases rules.len() - i,
        {
            let rule = &rules[i];
            let ghost here = self.state();
            let ghost one = seq![DemandTask::Rule { owner: Some(key@), index: i as int }];
            let ghost later = rules_from(key@, i + 1, count);
            proof {
                assert(rule_wf(
                    *program,
                    *self.catalog,
                    program.derived@[key.id as int].rules@[i as int],
                ));
                lemma_unseen_antitone(*program, inside.seen, here.seen);
                assert(rules_from(key@, i as int, count) =~= one + later);
                assert(rules_from(key@, 0, count) =~= (done@ + one) + later);
            }
            let bound = head_bound_vars(rule, &key.pattern);
            let owner = Some(RuleOwner { predicate: DerivedId(key.id), rule_index: i });
            match self.plan_rule(rule, bound, i, owner, Ghost(Some(key@))) {
                Ok(rule_plan) => {
                    planned.push(rule_plan);
                },
                Err(error) => {
                    proof {
                        setting.lemma_fails_on(done@, one, inside, here, error@);
                        setting.lemma_fails_early(done@ + one, later, inside, error@);
                        assert(setting.fails(rules_from(key@, 0, count), inside, error@));
                    }
                    return Err(error);
                },
            }
            proof {
                setting.lemma_leads_on(done@, one, inside, here, self.state());
                done@ = done@ + one;
            }
            i += 1;
        }
        proof {
            assert(rules_from(key@, count, count) =~= Seq::<DemandTask>::empty());
            assert(done@ =~= rules_from(key@, 0, count));
            assert(rule_views(planned@) =~= setting.planned_rules(key@));
            assert(entry.keys@[at as int]@ == key@);
            assert(entry.is_open(key@));
            assert(self.is_open(key@));
        }
        let ghost open_before = *self;
        let (at, found) = locate(&self.keys, &key);
        proof {
            let k = choose|k: int|
                0 <= k < self.keys@.len() && (#[trigger] self.keys@[k])@ == key@
                    && self.rules@[k] is None;
            assert(key_views(self.keys@)[k] == key@);
            assert(found);
        }
        self.rules.set(at, Some(planned));
        proof {
            lemma_open_fill(open_before.keys@, open_before.rules@, at as int, planned);
            assert(self.rules@ =~= open_before.rules@.update(at as int, Some(planned)));
            assert forall|k: Key| #[trigger] self.is_open(k) <==> old(self).is_open(k) by {
                assert(open_before.is_open(k) <==> entry.is_open(k));
                assert(entry.is_open(k) <==> open_in(keys_before, rules_before, k) || k == key@);
                if open_in(keys_before, rules_before, key@) {
                    let i = choose|i: int|
                        0 <= i < keys_before.len() && (#[trigger] keys_before[i])@ == key@
                            && rules_before[i] is None;
                    assert(key_views(keys_before)[i] == key@);
                }
            }
            assert(setting.leads(rules_from(key@, 0, count), inside, self.state()));
        }
        Ok(())
    }
}

/// The rules of finished specializations.
fn take_rules(rules: Vec<Option<Vec<PlannedRule>>>) -> (r: Vec<Vec<PlannedRule>>)
    requires
        forall|i: int| 0 <= i < rules@.len() ==> (#[trigger] rules@[i]) is Some,
    ensures
        r@.len() == rules@.len(),
        forall|i: int| 0 <= i < r@.len() ==> #[trigger] r@[i] == rules@[i]->0,
{
    let ghost all = rules@;
    let mut rules = rules;
    let n: usize = rules.len();
    let mut out: Vec<Vec<PlannedRule>> = Vec::new();
    let mut i: usize = 0;
    while i < n
        invariant
            i <= n,
            n == all.len(),
            rules@ == all.skip(i as int),
            out@.len() == i,
            forall|k: int| 0 <= k < n ==> (#[trigger] all[k]) is Some,
            forall|k: int| 0 <= k < i ==> #[trigger] out@[k] == all[k]->0,
        decreases n - i,
    {
        let first = rules.remove(0);
        proof {
            assert(first == all[i as int]);
            assert(rules@ =~= all.skip(i + 1));
        }
        out.push(first.unwrap());
        i += 1;
    }
    out
}

/// Request-level planning options.
#[derive(Clone, Copy, Debug, PartialEq, Eq, Structural)]
pub struct PlanOptions {
    /// Any scan in the plan is a plan-time error.
    pub deny_scans: bool,
}

impl Default for PlanOptions {
    fn default() -> (r: PlanOptions)
        ensures
            r == (PlanOptions { deny_scans: false }),
    {
        PlanOptions { deny_scans: false }
    }
}

/// Every pattern that callers may use has as many positions as its predicate
/// has arguments.
proof fn lemma_contract_fits(program: Program, catalog: Catalog, p: int, pattern: Seq<bool>)
    requires
        program_wf(program, catalog),
        0 <= p < program.derived@.len(),
        contract(program, catalog)[p].contains(pattern),
    ensures
        pattern.len() == program.derived@[p].arity,
{
    match program.derived@[p].declared_modes {
        Some(modes) => {
            let k = choose|k: int|
                0 <= k < modes@.len() && required((#[trigger] modes@[k])@) == pattern;
            assert(program.derived@[p].declared_modes->0@[k]@.len() == program.derived@[p].arity);
        },
        None => {
            assert(inferable(program, catalog, p, pattern));
            let family = choose|family: Seq<Set<Seq<bool>>>| #[trigger]
                self_supporting(program, catalog, family) && family[p].contains(pattern);
        },
    }
}

/// Plans a program against the catalog.
pub fn plan(program: &Program, catalog: &Catalog, options: PlanOptions) -> (r: Result<
    PhysicalPlan,
    PlanError,
>)
    requires
        catalog.wf(),
        program_fault(*program, *catalog) is None ==> forall|p: int|
            0 <= p < program.derived@.len() ==> (#[trigger] program.derived@[p]).arity <= 16,
    ensures
        match r {
            Ok(physical) => plan_outcome(*program, *catalog, options.deny_scans) == Ok::<
                PhysicalPlanView,
                PlanErrorView,
            >(physical@),
            Err(error) => plan_outcome(*program, *catalog, options.deny_scans) == Err::<
                PhysicalPlanView,
                PlanErrorView,
            >(error@),
        },
{
    match validate(program, catalog) {
        Ok(_) => {},
        Err(error) => {
            return Err(error);
        },
    }
    proof {
        lemma_faultless_program(*program, *catalog);
    }
    let supports = match infer_supports(program, catalog) {
        Ok(supports) => supports,
        Err(error) => {
            proof {
                let (p, k) = choose|p: int, k: int| #[trigger]
                    first_mode_fault(*program, *catalog, p, k) && error@ == mode_fault_error(
                        *program,
                        p,
                        k,
                    );
                let (q, l) = choose|p: int, k: int| first_mode_fault(*program, *catalog, p, k);
                assert(mode_fault(*program, *catalog, p, k) && mode_fault(*program, *catalog, q, l));
                assert(p == q && k == l);
            }
            return Err(error);
        },
    };
    let mut planner = Planner {
        program,
        catalog,
        deny_scans: options.deny_scans,
        supports,
        keys: Vec::new(),
        rules: Vec::new(),
        negated_demands: KeySet::new(),
    };
    let ghost setting = planner.setting();
    let ghost start = planner.state();
    proof {
        assert(!exists|p: int, k: int| first_mode_fault(*program, *catalog, p, k));
        assert(support_sets(planner.supports@).len() == contract(*program, *catalog).len());
        assert(planner.supports@.len() == program.derived@.len());
        assert forall|p: int, x: Seq<bool>|
            0 <= p < planner.supports@.len() && #[trigger] planner.supports@[p]@.contains(
                x,
            ) implies x.len() == program.derived@[p].arity by {
            assert(support_sets(planner.supports@)[p] == planner.supports@[p]@);
            lemma_contract_fits(*program, *catalog, p, x);
        }
        assert(start.seen =~= Set::<Key>::empty());
        assert(planner.wf());
    }
    let bound = unbound_marks(program.query.vars.len());
    let ghost entry = planner;
    let query = match planner.plan_rule(&program.query, bound, 0, None, Ghost(None)) {
        Ok(query) => query,
        Err(error) => {
            proof {
                let tasks = seq![DemandTask::Rule { owner: None, index: 0 }];
                assert(tasks + Seq::<DemandTask>::empty() =~= tasks);
                assert(setting.demanded() == Err::<DemandState, PlanErrorView>(error@));
            }
            return Err(error);
        },
    };
    proof {
        let tasks = seq![DemandTask::Rule { owner: None, index: 0 }];
        assert(tasks + Seq::<DemandTask>::empty() =~= tasks);
        assert(setting.follow(tasks + Seq::<DemandTask>::empty(), start) == setting.follow(
            Seq::<DemandTask>::empty(),
            planner.state(),
        ));
        assert(setting.demanded() == Ok::<DemandState, PlanErrorView>(planner.state()));
        assert forall|i: int| 0 <= i < planner.rules@.len() implies (
        #[trigger] planner.rules@[i]) is Some by {
            if planner.rules@[i] is None {
                assert(planner.keys@[i]@ == planner.keys@[i]@);
                assert(planner.is_open(planner.keys@[i]@));
                assert(entry.is_open(planner.keys@[i]@));
            }
        }
    }
    let ghost table_keys = planner.keys@;
    let rules = take_rules(planner.rules);
    let table = SpecTable { program, setting: Ghost(setting), keys: planner.keys, rules };
    assert(table.wf());
    table.finalize(options.deny_scans, planner.negated_demands, query)
}

} // verus!
