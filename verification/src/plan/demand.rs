//! Demand-driven specialization: each derived predicate is compiled per
//! binding pattern that actually occurs, so bindings flow into rule bodies
//! instead of evaluating whole predicates.
//!
//! Demands are followed depth first: ordering a rule demands what its goals
//! call, in the order of the goals, and a demanded specialization orders its
//! rules before anything else goes on.

use crate::plan::blame::{BlameCase, RuleOwner};
use crate::plan::catalog::Catalog;
use crate::plan::error::PlanErrorView;
use crate::plan::logic::{DerivedId, Program};
use crate::plan::mode::{
    lemma_pattern_number, mask_pattern, pattern_count, pattern_number,
};
use crate::plan::order::OrderProblem;
use crate::plan::physical::{AccessView, PlannedGoalView, PlannedRuleView};
use crate::plan::supports::rule_problem;
use vstd::prelude::*;
use vstd::set_lib::{lemma_int_range, set_int_range};

verus! {

/// A derived predicate and a binding pattern.
pub type Key = (int, Seq<bool>);

/// What demands are followed under.
pub struct PlanSetting {
    pub program: Program,
    pub catalog: Catalog,
    pub supports: Seq<Set<Seq<bool>>>,
    pub deny_scans: bool,
}

/// One step of following demands.
pub enum DemandTask {
    /// Order a rule: of a specialization, or the query.
    Rule { owner: Option<Key>, index: int },
    /// Compile a specialization, unless that has been demanded before.
    Demand { key: Key, negated: bool },
}

/// What has been demanded so far.
#[verifier::ext_equal]
pub struct DemandState {
    /// The specializations demanded.
    pub seen: Set<Key>,
    /// Those demanded from under a negation.
    pub negated: Set<Key>,
}

/// The key names a derived predicate and as many positions as it has
/// arguments.
pub open spec fn is_key(program: Program, key: Key) -> bool {
    0 <= key.0 < program.derived@.len() && key.1.len() == program.derived@[key.0].arity
}

/// All keys of a program.
pub open spec fn all_keys(program: Program) -> Set<Key> {
    Set::new(|key: Key| is_key(program, key))
}

/// The demands of a sequence of ordered goals.
pub open spec fn demands(goals: Seq<PlannedGoalView>) -> Seq<DemandTask>
    decreases goals.len(),
{
    if goals.len() == 0 {
        Seq::empty()
    } else {
        let rest = demands(goals.drop_first());
        match goals[0].access {
            AccessView::Derived { id, pattern } => seq![
                DemandTask::Demand { key: (id, pattern), negated: goals[0].negated },
            ] + rest,
            _ => rest,
        }
    }
}

/// The rules of a specialization from one on.
pub open spec fn rules_from(key: Key, from: int, count: int) -> Seq<DemandTask>
    decreases count - from,
{
    if from >= count {
        Seq::empty()
    } else {
        seq![DemandTask::Rule { owner: Some(key), index: from }] + rules_from(key, from + 1, count)
    }
}

/// The number of rules to order among some steps.
pub open spec fn rule_steps(tasks: Seq<DemandTask>) -> nat
    decreases tasks.len(),
{
    if tasks.len() == 0 {
        0
    } else {
        rule_steps(tasks.drop_first()) + (if tasks[0] is Rule {
            1nat
        } else {
            0nat
        })
    }
}

pub proof fn lemma_rule_steps_add(a: Seq<DemandTask>, b: Seq<DemandTask>)
    ensures
        rule_steps(a + b) == rule_steps(a) + rule_steps(b),
    decreases a.len(),
{
    if a.len() == 0 {
        assert(a + b =~= b);
    } else {
        assert((a + b).drop_first() =~= a.drop_first() + b);
        lemma_rule_steps_add(a.drop_first(), b);
    }
}

pub proof fn lemma_demands_order_nothing(goals: Seq<PlannedGoalView>)
    ensures
        rule_steps(demands(goals)) == 0,
    decreases goals.len(),
{
    if goals.len() > 0 {
        lemma_demands_order_nothing(goals.drop_first());
        match goals[0].access {
            AccessView::Derived { id, pattern } => {
                let first = seq![
                    DemandTask::Demand { key: (id, pattern), negated: goals[0].negated },
                ];
                lemma_rule_steps_add(first, demands(goals.drop_first()));
                assert(first.drop_first() =~= Seq::<DemandTask>::empty());
                reveal_with_fuel(rule_steps, 2);
            },
            _ => {},
        }
    }
}

/// The patterns of one length are finitely many.
proof fn lemma_patterns_finite(len: nat)
    ensures
        Set::new(|x: Seq<bool>| x.len() == len).finite(),
{
    let numbers = set_int_range(0, pattern_count(len) as int);
    lemma_int_range(0, pattern_count(len) as int);
    let image = numbers.map(|m: int| mask_pattern(m as nat, len));
    numbers.lemma_map_finite(|m: int| mask_pattern(m as nat, len));
    let all = Set::new(|x: Seq<bool>| x.len() == len);
    assert forall|x: Seq<bool>| all.contains(x) implies image.contains(x) by {
        lemma_pattern_number(x);
        let m = pattern_number(x) as int;
        assert(numbers.contains(m));
        assert(mask_pattern(m as nat, len) == x);
    }
    vstd::set_lib::lemma_set_subset_finite(image, all);
}

/// The keys of the first `count` predicates.
spec fn keys_below(program: Program, count: int) -> Set<Key> {
    Set::new(|key: Key| is_key(program, key) && key.0 < count)
}

proof fn lemma_keys_below_finite(program: Program, count: int)
    requires
        0 <= count <= program.derived@.len(),
    ensures
        keys_below(program, count).finite(),
    decreases count,
{
    if count == 0 {
        assert(keys_below(program, count) =~= Set::<Key>::empty());
    } else {
        let p = count - 1;
        lemma_keys_below_finite(program, p);
        let len = program.derived@[p].arity as nat;
        let patterns = Set::new(|x: Seq<bool>| x.len() == len);
        lemma_patterns_finite(len);
        let here = patterns.map(|x: Seq<bool>| (p, x));
        patterns.lemma_map_finite(|x: Seq<bool>| (p, x));
        let both = keys_below(program, p).union(here);
        assert forall|key: Key| keys_below(program, count).contains(key) implies both.contains(
            key,
        ) by {
            if key.0 == p {
                assert(patterns.contains(key.1));
                assert(key == (p, key.1));
            }
        }
        vstd::set_lib::lemma_set_subset_finite(both, keys_below(program, count));
    }
}

/// A program has finitely many keys.
pub proof fn lemma_all_keys_finite(program: Program)
    ensures
        all_keys(program).finite(),
{
    lemma_keys_below_finite(program, program.derived@.len() as int);
    assert(all_keys(program) =~= keys_below(program, program.derived@.len() as int));
}

/// The keys not in `seen`.
pub open spec fn unseen(program: Program, seen: Set<Key>) -> Set<Key> {
    all_keys(program).difference(seen)
}

/// Demanding a new specialization leaves one fewer to demand.
pub proof fn lemma_unseen_shrinks(program: Program, seen: Set<Key>, key: Key)
    requires
        is_key(program, key),
        !seen.contains(key),
    ensures
        unseen(program, seen.insert(key)).len() < unseen(program, seen).len(),
{
    lemma_all_keys_finite(program);
    let before = unseen(program, seen);
    vstd::set_lib::lemma_set_subset_finite(all_keys(program), before);
    assert(unseen(program, seen.insert(key)) =~= before.remove(key));
    assert(before.contains(key));
}

impl PlanSetting {
    /// The ordering problem of a rule.
    pub open spec fn problem(self, owner: Option<Key>, index: int) -> OrderProblem {
        match owner {
            Some(key) => rule_problem(
                self.program,
                self.catalog,
                self.supports,
                key.0,
                index,
                key.1,
                self.deny_scans,
            ),
            None => OrderProblem {
                program: self.program,
                catalog: self.catalog,
                supports: self.supports,
                rule: self.program.query,
                seeds: Set::empty(),
                deny_scans: self.deny_scans,
            },
        }
    }

    /// The plan error for a rule that cannot be ordered.
    pub open spec fn order_error(self, owner: Option<Key>, index: int) -> PlanErrorView {
        let problem = self.problem(owner, index);
        BlameCase {
            program: self.program,
            catalog: self.catalog,
            supports: self.supports,
            deny_scans: self.deny_scans,
            rule: problem.rule,
            owner: match owner {
                Some(key) => Some(
                    RuleOwner { predicate: DerivedId(key.0 as usize), rule_index: index as usize },
                ),
                None => None,
            },
            bound: problem.bound_before(problem.stuck()),
            stuck: problem.stuck(),
        }.error()
    }

    /// The ordered form of a rule.
    pub open spec fn planned(self, owner: Option<Key>, index: int) -> PlannedRuleView {
        PlannedRuleView { rule_index: index, goals: self.problem(owner, index).ordered() }
    }

    /// The ordered rules of a specialization.
    pub open spec fn planned_rules(self, key: Key) -> Seq<PlannedRuleView> {
        Seq::new(
            self.program.derived@[key.0].rules@.len(),
            |r: int| self.planned(Some(key), r),
        )
    }

    /// Follows some steps: all that is demanded in the end, or the error of the
    /// first rule met that cannot be ordered.
    pub open spec fn follow(self, tasks: Seq<DemandTask>, state: DemandState) -> Result<
        DemandState,
        PlanErrorView,
    >
        decreases unseen(self.program, state.seen).len(), rule_steps(tasks), tasks.len(),
    {
        if tasks.len() == 0 {
            Ok(state)
        } else {
            let rest = tasks.drop_first();
            match tasks[0] {
                DemandTask::Rule { owner, index } => {
                    let problem = self.problem(owner, index);
                    if problem.orderable() {
                        proof {
                            lemma_rule_steps_add(demands(problem.ordered()), rest);
                            lemma_demands_order_nothing(problem.ordered());
                        }
                        self.follow(demands(problem.ordered()) + rest, state)
                    } else {
                        Err(self.order_error(owner, index))
                    }
                },
                DemandTask::Demand { key, negated } => {
                    let marked = if negated {
                        state.negated.insert(key)
                    } else {
                        state.negated
                    };
                    if state.seen.contains(key) || !is_key(self.program, key) {
                        self.follow(rest, DemandState { seen: state.seen, negated: marked })
                    } else {
                        proof {
                            lemma_unseen_shrinks(self.program, state.seen, key);
                        }
                        self.follow(
                            rules_from(
                                key,
                                0,
                                self.program.derived@[key.0].rules@.len() as int,
                            ) + rest,
                            DemandState { seen: state.seen.insert(key), negated: marked },
                        )
                    }
                },
            }
        }
    }

    /// All that the query demands, or the first error.
    pub open spec fn demanded(self) -> Result<DemandState, PlanErrorView> {
        self.follow(
            seq![DemandTask::Rule { owner: None, index: 0 }],
            DemandState { seen: Set::empty(), negated: Set::empty() },
        )
    }

    /// Following `tasks` leads from one state to another, whatever comes
    /// behind them.
    pub open spec fn leads(
        self,
        tasks: Seq<DemandTask>,
        from: DemandState,
        to: DemandState,
    ) -> bool {
        forall|rest: Seq<DemandTask>| #[trigger]
            self.follow(tasks + rest, from) == self.follow(rest, to)
    }

    /// Following `tasks` fails, whatever comes behind them.
    pub open spec fn fails(
        self,
        tasks: Seq<DemandTask>,
        from: DemandState,
        error: PlanErrorView,
    ) -> bool {
        forall|rest: Seq<DemandTask>| #[trigger] self.follow(tasks + rest, from) == Err::<
            DemandState,
            PlanErrorView,
        >(error)
    }

    pub proof fn lemma_leads_nowhere(self, state: DemandState)
        ensures
            self.leads(Seq::empty(), state, state),
    {
        assert forall|rest: Seq<DemandTask>| #[trigger]
            self.follow(Seq::<DemandTask>::empty() + rest, state) == self.follow(rest, state) by {
            assert(Seq::<DemandTask>::empty() + rest =~= rest);
        }
    }

    pub proof fn lemma_leads_on(
        self,
        a: Seq<DemandTask>,
        b: Seq<DemandTask>,
        from: DemandState,
        mid: DemandState,
        to: DemandState,
    )
        requires
            self.leads(a, from, mid),
            self.leads(b, mid, to),
        ensures
            self.leads(a + b, from, to),
    {
        assert forall|rest: Seq<DemandTask>| #[trigger]
            self.follow((a + b) + rest, from) == self.follow(rest, to) by {
            assert((a + b) + rest =~= a + (b + rest));
            assert(self.follow(a + (b + rest), from) == self.follow(b + rest, mid));
        }
    }

    pub proof fn lemma_fails_on(
        self,
        a: Seq<DemandTask>,
        b: Seq<DemandTask>,
        from: DemandState,
        mid: DemandState,
        error: PlanErrorView,
    )
        requires
            self.leads(a, from, mid),
            self.fails(b, mid, error),
        ensures
            self.fails(a + b, from, error),
    {
        assert forall|rest: Seq<DemandTask>| #[trigger] self.follow((a + b) + rest, from) == Err::<
            DemandState,
            PlanErrorView,
        >(error) by {
            assert((a + b) + rest =~= a + (b + rest));
            assert(self.follow(a + (b + rest), from) == self.follow(b + rest, mid));
        }
    }

    pub proof fn lemma_fails_early(
        self,
        a: Seq<DemandTask>,
        b: Seq<DemandTask>,
        from: DemandState,
        error: PlanErrorView,
    )
        requires
            self.fails(a, from, error),
        ensures
            self.fails(a + b, from, error),
    {
        assert forall|rest: Seq<DemandTask>| #[trigger] self.follow((a + b) + rest, from) == Err::<
            DemandState,
            PlanErrorView,
        >(error) by {
            assert((a + b) + rest =~= a + (b + rest));
        }
    }

    /// What ordering a rule comes to.
    pub proof fn lemma_rule_step(self, owner: Option<Key>, index: int, from: DemandState)
        ensures
            !self.problem(owner, index).orderable() ==> self.fails(
                seq![DemandTask::Rule { owner, index }],
                from,
                self.order_error(owner, index),
            ),
            self.problem(owner, index).orderable() ==> forall|to: DemandState|
                self.leads(demands(self.problem(owner, index).ordered()), from, to)
                    ==> #[trigger] self.leads(seq![DemandTask::Rule { owner, index }], from, to),
            self.problem(owner, index).orderable() ==> forall|error: PlanErrorView|
                self.fails(demands(self.problem(owner, index).ordered()), from, error)
                    ==> #[trigger] self.fails(seq![DemandTask::Rule { owner, index }], from, error),
    {
        let task = seq![DemandTask::Rule { owner, index }];
        let problem = self.problem(owner, index);
        assert forall|rest: Seq<DemandTask>| #[trigger]
            self.follow(task + rest, from) == if problem.orderable() {
                self.follow(demands(problem.ordered()) + rest, from)
            } else {
                Err(self.order_error(owner, index))
            } by {
            assert((task + rest)[0] == task[0]);
            assert((task + rest).drop_first() =~= rest);
        }
    }

    /// What demanding a specialization comes to.
    pub proof fn lemma_demand_step(self, key: Key, negated: bool, from: DemandState)
        requires
            is_key(self.program, key),
        ensures
            ({
                let task = seq![DemandTask::Demand { key, negated }];
                let marked = if negated {
                    from.negated.insert(key)
                } else {
                    from.negated
                };
                let here = DemandState { seen: from.seen, negated: marked };
                let inside = DemandState { seen: from.seen.insert(key), negated: marked };
                let rules = rules_from(key, 0, self.program.derived@[key.0].rules@.len() as int);
                &&& from.seen.contains(key) ==> self.leads(task, from, here)
                &&& !from.seen.contains(key) ==> forall|to: DemandState|
                    self.leads(rules, inside, to) ==> #[trigger] self.leads(task, from, to)
                &&& !from.seen.contains(key) ==> forall|error: PlanErrorView|
                    self.fails(rules, inside, error) ==> #[trigger] self.fails(task, from, error)
            }),
    {
        let task = seq![DemandTask::Demand { key, negated }];
        let marked = if negated {
            from.negated.insert(key)
        } else {
            from.negated
        };
        let here = DemandState { seen: from.seen, negated: marked };
        let inside = DemandState { seen: from.seen.insert(key), negated: marked };
        let rules = rules_from(key, 0, self.program.derived@[key.0].rules@.len() as int);
        assert forall|rest: Seq<DemandTask>| #[trigger]
            self.follow(task + rest, from) == if from.seen.contains(key) {
                self.follow(rest, here)
            } else {
                self.follow(rules + rest, inside)
            } by {
            assert((task + rest)[0] == task[0]);
            assert((task + rest).drop_first() =~= rest);
        }
    }
}

} // verus!
