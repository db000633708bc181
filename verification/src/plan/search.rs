//! The backtracking search for the order of a rule body.

use crate::plan::catalog::Catalog;
use crate::plan::logic::{mentions, terms_in_range, Goal, GoalRef, Program, Rule, Term, Var};
use crate::plan::mode::{AccessKind, CostClass, Pattern};
use crate::plan::order::{
    extern_path, flags_of, free_count, is_best_mode, lemma_best_mode_unique, occurs_elsewhere,
    order_cost, ranks_before, scans, shared_unbound_vars, usable_mode, waiting_on, OrderProblem,
};
use crate::plan::patterns::PatternSet;
use crate::plan::physical::{goal_views, Access, PlannedGoal};
use crate::plan::predicate::PredicateDef;
use std::collections::BTreeSet;
use vstd::prelude::*;
use vstd::set_lib::{lemma_int_range, set_int_range};

verus! {

/// The goal calls something that exists, with as many arguments as it takes.
pub open spec fn goal_wf(program: Program, catalog: Catalog, rule: Rule, goal: Goal) -> bool {
    &&& terms_in_range(goal.args@, rule.vars@.len())
    &&& program.has_target(goal.target)
    &&& match goal.target {
        GoalRef::Extern(name) => catalog.has(name@) && catalog.lookup(name@).args@.len()
            == goal.args@.len(),
        GoalRef::Derived(id) => program.derived@[id.0 as int].arity == goal.args@.len(),
        GoalRef::Input(id) => program.inputs@[id.0 as int].arity == goal.args@.len(),
        GoalRef::Builtin(id) => program.builtins@[id.0 as int].pattern@.len() == goal.args@.len(),
    }
}

/// The rule has passed validation.
pub open spec fn rule_wf(program: Program, catalog: Catalog, rule: Rule) -> bool {
    &&& rule.body@.len() <= 128
    &&& terms_in_range(rule.head@, rule.vars@.len())
    &&& forall|i: int|
        0 <= i < rule.body@.len() ==> goal_wf(program, catalog, rule, #[trigger] rule.body@[i])
}

/// The variables that a table of marks has bound.
pub open spec fn bound_set(marks: Seq<bool>) -> Set<u32> {
    Set::new(|v: u32| v < marks.len() && marks[v as int])
}

/// The supports of all derived predicates as sets.
pub open spec fn support_sets(supports: Seq<PatternSet>) -> Seq<Set<Seq<bool>>> {
    supports.map_values(|s: PatternSet| s@)
}

/// Bit `i` of the mask is set.
pub open spec fn has_bit(mask: u128, i: int) -> bool {
    0 <= i < 128 && (mask & (1u128 << (i as u128))) != 0
}

/// The goals of a mask.
pub open spec fn goals_of(mask: u128, count: nat) -> Set<int> {
    Set::new(|i: int| 0 <= i < count && has_bit(mask, i))
}

proof fn lemma_clear_bit(mask: u128, i: u128, j: u128)
    by (bit_vector)
    requires
        i < 128,
        j < 128,
    ensures
        ((mask & !(1u128 << i)) & (1u128 << j)) != 0 <==> ((mask & (1u128 << j)) != 0 && i != j),
{
}

proof fn lemma_low_bits(n: u128, j: u128)
    by (bit_vector)
    requires
        n < 128,
        j < 128,
    ensures
        (((1u128 << n) - 1) as u128 & (1u128 << j)) != 0 <==> j < n,
        (1u128 << n) >= 1,
{
}

proof fn lemma_all_bits(j: u128)
    by (bit_vector)
    requires
        j < 128,
    ensures
        (0xffff_ffff_ffff_ffff_ffff_ffff_ffff_ffffu128 & (1u128 << j)) != 0,
{
}

/// The mask of the first `count` goals.
fn full_mask(count: usize) -> (r: u128)
    requires
        count <= 128,
    ensures
        goals_of(r, count as nat) == set_int_range(0, count as int),
{
    if count == 128 {
        let r: u128 = 0xffff_ffff_ffff_ffff_ffff_ffff_ffff_ffffu128;
        assert forall|i: int| 0 <= i < count implies has_bit(r, i) by {
            lemma_all_bits(i as u128);
        }
        assert(goals_of(r, count as nat) =~= set_int_range(0, count as int));
        r
    } else {
        proof {
            lemma_low_bits(count as u128, 0);
        }
        let r: u128 = (1u128 << (count as u128)) - 1;
        assert forall|i: int| 0 <= i < count implies has_bit(r, i) by {
            lemma_low_bits(count as u128, i as u128);
        }
        assert(goals_of(r, count as nat) =~= set_int_range(0, count as int));
        r
    }
}

/// Whether goal `index` is in the mask.
fn in_mask(mask: u128, index: usize) -> (r: bool)
    requires
        index < 128,
    ensures
        r == has_bit(mask, index as int),
{
    mask & (1u128 << (index as u128)) != 0
}

/// The mask without goal `index`.
fn without(mask: u128, index: usize, Ghost(count): Ghost<nat>) -> (r: u128)
    requires
        index < count <= 128,
    ensures
        goals_of(r, count) == goals_of(mask, count).remove(index as int),
{
    let r: u128 = mask & !(1u128 << (index as u128));
    assert forall|j: int| 0 <= j < count implies has_bit(r, j) == (has_bit(mask, j) && j
        != index) by {
        lemma_clear_bit(mask, index as u128, j as u128);
    }
    assert(goals_of(r, count) =~= goals_of(mask, count).remove(index as int));
    r
}

/// Whether a variable is among the terms.
fn is_mentioned(terms: &Vec<Term>, var: Var) -> (r: bool)
    ensures
        r == mentions(terms@, var.0),
{
    let mut i: usize = 0;
    while i < terms.len()
        invariant
            i <= terms@.len(),
            forall|j: int| 0 <= j < i ==> terms@[j] != Term::Var(Var(var.0)),
        decreases terms.len() - i,
    {
        if terms[i] == Term::Var(var) {
            assert(terms@[i as int] == Term::Var(Var(var.0)));
            return true;
        }
        i += 1;
    }
    false
}

/// Whether a variable occurs in the rule outside of goal `index`.
pub fn occurs_outside(rule: &Rule, index: usize, var: Var) -> (r: bool)
    ensures
        r == occurs_elsewhere(*rule, index as int, var.0),
{
    if is_mentioned(&rule.head, var) {
        return true;
    }
    let mut j: usize = 0;
    while j < rule.body.len()
        invariant
            j <= rule.body@.len(),
            !mentions(rule.head@, var.0),
            forall|k: int|
                0 <= k < j && k != index ==> !mentions((#[trigger] rule.body@[k]).args@, var.0),
        decreases rule.body.len() - j,
    {
        if j != index && is_mentioned(&rule.body[j].args, var) {
            return true;
        }
        j += 1;
    }
    false
}

/// Variables that a negated goal shares with the rest of its rule and that
/// are not bound yet.
pub fn shared_unbound(rule: &Rule, index: usize, bound: &Vec<bool>) -> (r: Vec<Var>)
    requires
        index < rule.body@.len(),
        terms_in_range(rule.body@[index as int].args@, bound@.len()),
    ensures
        r@ == shared_unbound_vars(*rule, index as int, bound_set(bound@)),
{
    let args = &rule.body[index].args;
    let mut out: Vec<Var> = Vec::new();
    let mut i: usize = 0;
    while i < args.len()
        invariant
            i <= args@.len(),
            index < rule.body@.len(),
            args@ == rule.body@[index as int].args@,
            terms_in_range(args@, bound@.len()),
            out@ == waiting_on(*rule, index as int, bound_set(bound@), i as int),
        decreases args.len() - i,
    {
        match args[i] {
            Term::Var(var) => {
                assert(args@[i as int] == Term::Var(var));
                if occurs_outside(rule, index, var) && !bound[var.0 as usize] {
                    out.push(var);
                }
            },
            Term::Const => {},
        }
        i += 1;
    }
    out
}

/// The boundness of each argument of a goal.
pub fn bound_flags(args: &Vec<Term>, bound: &Vec<bool>) -> (r: Pattern)
    requires
        terms_in_range(args@, bound@.len()),
    ensures
        r@ == flags_of(args@, bound_set(bound@)),
{
    let mut flags: Vec<bool> = Vec::new();
    let mut i: usize = 0;
    while i < args.len()
        invariant
            i <= args@.len(),
            terms_in_range(args@, bound@.len()),
            flags@.len() == i,
            forall|j: int|
                0 <= j < i ==> #[trigger] flags@[j] == flags_of(args@, bound_set(bound@))[j],
        decreases args.len() - i,
    {
        assert(match args@[i as int] {
            Term::Var(var) => var.0 < bound@.len(),
            Term::Const => true,
        });
        let flag = match args[i] {
            Term::Const => true,
            Term::Var(var) => bound[var.0 as usize],
        };
        flags.push(flag);
        i += 1;
    }
    assert(flags@ =~= flags_of(args@, bound_set(bound@)));
    Pattern::new(flags)
}

/// The number of positions that are not bound.
fn count_free(flags: &Pattern) -> (r: usize)
    ensures
        r == free_count(flags@),
{
    let marks = flags.flags();
    let mut free: usize = 0;
    let mut i: usize = 0;
    while i < marks.len()
        invariant
            i <= marks@.len(),
            free <= i,
            free == free_count(marks@.take(i as int)),
        decreases marks.len() - i,
    {
        proof {
            assert(marks@.take(i + 1).drop_last() =~= marks@.take(i as int));
        }
        if !marks[i] {
            free += 1;
        }
        i += 1;
    }
    assert(marks@.take(i as int) =~= marks@);
    free
}

/// A placement candidate for one goal at one search state.
pub struct Candidate {
    pub access: Access,
    pub cost: CostClass,
    pub is_scan: bool,
    pub free_vars: usize,
}

/// What the order of one rule body depends on, but for the variables bound
/// before it runs.
#[derive(Clone, Copy)]
pub struct OrderTask<'p> {
    pub program: &'p Program,
    pub catalog: &'p Catalog,
    pub supports: &'p Vec<PatternSet>,
    pub rule: &'p Rule,
    pub deny_scans: bool,
}

/// The preferred mode of an extern predicate under some bindings, if any can
/// run.
fn best_extern(predicate: &'static PredicateDef, flags: &Pattern, no_scans: bool) -> (r: Option<
    Candidate,
>)
    requires
        flags@.len() == predicate.args@.len(),
    ensures
        match r {
            Some(c) => extern_path(*predicate, flags@, no_scans) == Some(c.access@) && c.cost
                == order_cost(c.access@) && c.is_scan == scans(c.access@) && c.free_vars
                == free_count(flags@),
            None => extern_path(*predicate, flags@, no_scans) is None,
        },
{
    let modes = predicate.satisfiable_modes(flags);
    let ghost picks = choose|picks: Seq<int>| #[trigger]
        predicate.is_mode_ranking(flags@, picks) && modes@.len() == picks.len() && forall|k: int|
            0 <= k < modes@.len() ==> *#[trigger] modes@[k] == predicate.modes@[picks[k]];
    let mut k: usize = 0;
    while k < modes.len()
        invariant
            k <= modes@.len(),
            predicate.is_mode_ranking(flags@, picks),
            modes@.len() == picks.len(),
            forall|l: int|
                0 <= l < modes@.len() ==> *#[trigger] modes@[l] == predicate.modes@[picks[l]],
            k > 0 ==> no_scans,
            forall|l: int| 0 <= l < k ==> (#[trigger] modes@[l]).access is Scan,
        decreases modes.len() - k,
    {
        let mode = modes[k];
        let is_scan = matches!(mode.access, AccessKind::Scan);
        if !(no_scans && is_scan) {
            proof {
                let m = picks[k as int];
                assert(usable_mode(*predicate, flags@, no_scans, m));
                assert forall|other: int| #[trigger]
                    usable_mode(*predicate, flags@, no_scans, other) && other
                        != m implies predicate.prefers(m, other) by {
                    assert(picks.contains(other));
                    let l = choose|l: int| 0 <= l < picks.len() && picks[l] == other;
                    if l < k {
                        assert(modes@[l].access is Scan);
                    }
                    assert(predicate.prefers(picks[k as int], picks[l]));
                }
                assert(is_best_mode(*predicate, flags@, no_scans, m));
                let chosen = choose|m: int| is_best_mode(*predicate, flags@, no_scans, m);
                lemma_best_mode_unique(*predicate, flags@, no_scans, m, chosen);
            }
            return Some(
                Candidate {
                    access: Access::Extern { predicate: predicate.name, mode },
                    cost: mode.cost,
                    is_scan,
                    free_vars: count_free(flags),
                },
            );
        }
        k += 1;
    }
    proof {
        if exists|m: int| is_best_mode(*predicate, flags@, no_scans, m) {
            let m = choose|m: int| is_best_mode(*predicate, flags@, no_scans, m);
            assert(usable_mode(*predicate, flags@, no_scans, m));
            assert(picks.contains(m));
            let l = choose|l: int| 0 <= l < picks.len() && picks[l] == m;
            assert(modes@[l].access is Scan);
        }
    }
    None
}

impl<'p> OrderTask<'p> {
    /// The problem made of a rule to order and its seeds.
    pub open spec fn problem(self, seeds: Set<u32>) -> OrderProblem {
        OrderProblem {
            program: *self.program,
            catalog: *self.catalog,
            supports: support_sets(self.supports@),
            rule: *self.rule,
            seeds,
            deny_scans: self.deny_scans,
        }
    }

    /// The rule is valid, and every derived predicate has its support.
    pub open spec fn wf(self) -> bool {
        &&& rule_wf(*self.program, *self.catalog, *self.rule)
        &&& self.supports@.len() == self.program.derived@.len()
    }

    /// The best access path for one goal under some bindings, if any.
    pub fn candidate(&self, index: usize, bound: &Vec<bool>, Ghost(seeds): Ghost<Set<u32>>) -> (r:
        Option<Candidate>)
        requires
            self.wf(),
            index < self.rule.body@.len(),
            bound@.len() == self.rule.vars@.len(),
        ensures
            match r {
                Some(c) => self.problem(seeds).access_path(index as int, bound_set(bound@)) == Some(
                    c.access@,
                ) && c.cost == order_cost(c.access@) && c.is_scan == scans(c.access@)
                    && c.free_vars == free_count(
                    flags_of(self.rule.body@[index as int].args@, bound_set(bound@)),
                ),
                None => self.problem(seeds).access_path(index as int, bound_set(bound@)) is None,
            },
    {
        let goal = &self.rule.body[index];
        assert(goal_wf(*self.program, *self.catalog, *self.rule, *goal));
        let flags = bound_flags(&goal.args, bound);
        let free_vars: usize = count_free(&flags);
        if goal.negated && shared_unbound(self.rule, index, bound).len() > 0 {
            return None;
        }
        match &goal.target {
            GoalRef::Extern(name) => {
                match self.catalog.predicate(name.as_str()) {
                    Some(predicate) => best_extern(
                        predicate,
                        &flags,
                        self.deny_scans || goal.negated,
                    ),
                    None => None,
                }
            },
            GoalRef::Derived(id) => {
                assert(support_sets(self.supports@)[id.0 as int] == self.supports@[id.0 as int]@);
                if !self.supports[id.0].supports(&flags) {
                    return None;
                }
                // An unseeded call is a scan of a derived predicate.
                let is_scan = flags.is_unseeded();
                if goal.negated && is_scan {
                    return None;
                }
                Some(
                    Candidate {
                        access: Access::Derived { id: *id, pattern: flags },
                        cost: if is_scan {
                            CostClass::C4
                        } else {
                            CostClass::C1
                        },
                        is_scan,
                        free_vars,
                    },
                )
            },
            GoalRef::Input(id) => Some(
                Candidate {
                    access: Access::Input { id: *id },
                    cost: CostClass::C0,
                    is_scan: false,
                    free_vars,
                },
            ),
            GoalRef::Builtin(id) => {
                let need = Pattern::from_bindings(self.program.builtins[id.0].pattern.as_slice());
                if need.subset_of(&flags) && (!goal.negated || free_vars == 0) {
                    Some(
                        Candidate {
                            access: Access::Builtin { id: *id },
                            cost: CostClass::C0,
                            is_scan: false,
                            free_vars,
                        },
                    )
                } else {
                    None
                }
            },
        }
    }
}

/// Where the search got stuck: the deepest partial ordering reached.
pub struct OrderFailure {
    /// The variables bound there, one mark per variable of the rule.
    pub bound: Vec<bool>,
    /// The goals not placed there, in source order.
    pub remaining: Vec<usize>,
}

/// `list` holds the members of `set` in ascending order.
pub open spec fn lists(list: Seq<usize>, set: Set<int>) -> bool {
    &&& forall|i: int, j: int| 0 <= i < j < list.len() ==> list[i] < list[j]
    &&& forall|k: int| set.contains(k) <==> exists|i: int| 0 <= i < list.len() && list[i] == k
}

impl OrderFailure {
    /// This is where `problem` gets stuck.
    pub open spec fn describes(&self, problem: OrderProblem) -> bool {
        &&& self.bound@.len() == problem.rule.vars@.len()
        &&& bound_set(self.bound@) == problem.bound_before(problem.stuck())
        &&& lists(self.remaining@, problem.stuck())
        &&& self.remaining@.len() > 0
    }
}

/// A set of masks.
struct MaskSet {
    masks: BTreeSet<u128>,
}

impl MaskSet {
    spec fn view(&self) -> Set<u128> {
        self.masks@
    }

    fn new() -> (r: MaskSet)
        ensures
            r.view() == Set::<u128>::empty(),
    {
        MaskSet { masks: BTreeSet::new() }
    }

    fn contains(&self, mask: u128) -> (r: bool)
        ensures
            r == self.view().contains(mask),
    {
        broadcast use vstd::std_specs::btree::group_btree_axioms;
        broadcast use vstd::laws_cmp::group_laws_cmp;

        self.masks.contains(&mask)
    }

    fn insert(&mut self, mask: u128)
        ensures
            final(self).view() == old(self).view().insert(mask),
    {
        broadcast use vstd::std_specs::btree::group_btree_axioms;
        broadcast use vstd::laws_cmp::group_laws_cmp;

        self.masks.insert(mask);
    }
}

struct Search<'p> {
    task: OrderTask<'p>,
    seeds: Ghost<Set<u32>>,
    placed: Vec<PlannedGoal>,
    bound: Vec<bool>,
    /// Sets of goals that are known not to be orderable.
    failed_masks: MaskSet,
    best_failure: Option<OrderFailure>,
    best_failure_depth: usize,
}

/// The candidates of one search state, in the order they are tried.
type Pool = Vec<(usize, Candidate)>;

/// The rank of a candidate.
spec fn candidate_rank(entry: (usize, Candidate)) -> (bool, CostClass, nat, int) {
    (entry.1.is_scan, entry.1.cost, entry.1.free_vars as nat, entry.0 as int)
}

/// Each candidate ranks before all that follow it.
spec fn ranked(pool: Seq<(usize, Candidate)>) -> bool {
    forall|i: int, j: int|
        0 <= i < j < pool.len() ==> ranks_before(
            candidate_rank(#[trigger] pool[i]),
            candidate_rank(#[trigger] pool[j]),
        )
}

/// Whether a candidate ranks before another of the same kind.
fn tried_before(a: &(usize, Candidate), b: &(usize, Candidate)) -> (r: bool)
    requires
        a.1.is_scan == b.1.is_scan,
    ensures
        r == ranks_before(candidate_rank(*a), candidate_rank(*b)),
{
    if a.1.cost != b.1.cost {
        a.1.cost.less_than(b.1.cost)
    } else if a.1.free_vars != b.1.free_vars {
        a.1.free_vars < b.1.free_vars
    } else {
        a.0 < b.0
    }
}

/// Adds a candidate to a ranked pool of its kind.
fn add_ranked(pool: &mut Pool, index: usize, candidate: Candidate)
    requires
        ranked(old(pool)@),
        forall|i: int|
            0 <= i < old(pool)@.len() ==> (#[trigger] old(pool)@[i]).0 != index
                && old(pool)@[i].1.is_scan == candidate.is_scan,
    ensures
        ranked(final(pool)@),
        exists|at: int|
            0 <= at <= old(pool)@.len() && final(pool)@ == old(pool)@.insert(at, (index, candidate)),
{
    let entry = (index, candidate);
    let mut at: usize = pool.len();
    while at > 0 && tried_before(&entry, &pool[at - 1])
        invariant
            at <= pool@.len(),
            pool@ == old(pool)@,
            entry.1 == candidate,
            forall|i: int|
                0 <= i < pool@.len() ==> (#[trigger] pool@[i]).1.is_scan == entry.1.is_scan,
            forall|k: int|
                at <= k < pool@.len() ==> ranks_before(
                    candidate_rank(entry),
                    candidate_rank(#[trigger] pool@[k]),
                ),
        decreases at,
    {
        at -= 1;
    }
    let ghost before = pool@;
    pool.insert(at, entry);
    proof {
        assert(pool@ =~= before.insert(at as int, entry));
        assert forall|i: int, j: int| 0 <= i < j < pool@.len() implies ranks_before(
            candidate_rank(#[trigger] pool@[i]),
            candidate_rank(#[trigger] pool@[j]),
        ) by {
            if j == at && i < at - 1 {
                assert(ranks_before(candidate_rank(before[i]), candidate_rank(before[at - 1])));
            }
        }
        assert(pool@ == old(pool)@.insert(at as int, (index, candidate)));
    }
}

/// The goals of a mask, in source order.
fn list_goals(mask: u128, count: usize) -> (r: Vec<usize>)
    requires
        count <= 128,
    ensures
        lists(r@, goals_of(mask, count as nat)),
{
    let mut out: Vec<usize> = Vec::new();
    let mut i: usize = 0;
    while i < count
        invariant
            i <= count <= 128,
            forall|a: int, b: int| 0 <= a < b < out@.len() ==> out@[a] < out@[b],
            forall|a: int| 0 <= a < out@.len() ==> #[trigger] out@[a] < i,
            forall|k: int|
                (0 <= k < i && has_bit(mask, k)) <==> exists|a: int|
                    0 <= a < out@.len() && out@[a] == k,
        decreases count - i,
    {
        let ghost before = out@;
        if in_mask(mask, i) {
            out.push(i);
            assert forall|k: int|
                (0 <= k < i + 1 && has_bit(mask, k)) implies exists|a: int|
                    0 <= a < out@.len() && out@[a] == k by {
                if k == i {
                    assert(out@[out@.len() - 1] == k);
                } else {
                    let a = choose|a: int| 0 <= a < before.len() && before[a] == k;
                    assert(out@[a] == k);
                }
            }
            assert forall|k: int|
                (exists|a: int| 0 <= a < out@.len() && out@[a] == k) implies (0 <= k < i + 1
                && has_bit(mask, k)) by {
                let a = choose|a: int| 0 <= a < out@.len() && out@[a] == k;
                if a < before.len() {
                    assert(before[a] == k);
                }
            }
        }
        i += 1;
    }
    out
}

/// A copy of a table of marks.
fn copy_marks(marks: &Vec<bool>) -> (r: Vec<bool>)
    ensures
        r@ == marks@,
{
    let mut out: Vec<bool> = Vec::new();
    let mut i: usize = 0;
    while i < marks.len()
        invariant
            i <= marks@.len(),
            out@ == marks@.take(i as int),
        decreases marks.len() - i,
    {
        out.push(marks[i]);
        i += 1;
        assert(out@ =~= marks@.take(i as int));
    }
    assert(out@ =~= marks@);
    out
}

impl<'p> Search<'p> {
    spec fn problem(&self) -> OrderProblem {
        self.task.problem(self.seeds@)
    }

    spec fn count(&self) -> nat {
        self.task.rule.body@.len()
    }

    /// What holds throughout the search: what is recorded as failed is so
    /// because the body cannot be ordered.
    spec fn sound(&self) -> bool {
        &&& self.task.wf()
        &&& (exists|mask: u128| self.failed_masks.view().contains(mask)) ==> self.best_failure is Some
        &&& self.best_failure is Some ==> !self.problem().orderable()
            && self.best_failure->0.describes(self.problem())
    }

    /// The state of the search matches the goals still to place.
    spec fn at(&self, left: Set<int>) -> bool {
        &&& self.sound()
        &&& self.bound@.len() == self.task.rule.vars@.len()
        &&& bound_set(self.bound@) == self.problem().bound_before(left)
        &&& left.subset_of(self.problem().all_goals())
        &&& self.problem().placement(left).1 == self.problem().stuck()
    }

    /// A candidate describes the access path of its goal.
    spec fn fits(&self, left: Set<int>, entry: (usize, Candidate)) -> bool {
        let bound = self.problem().bound_before(left);
        &&& left.contains(entry.0 as int)
        &&& self.problem().access_path(entry.0 as int, bound) == Some(entry.1.access@)
        &&& self.problem().place_rank(entry.0 as int, bound) == candidate_rank(entry)
    }

    /// The candidates among the goals of a mask; scans only where there is
    /// nothing else.
    fn pool(&self, remaining: u128, Ghost(left): Ghost<Set<int>>) -> (r: Pool)
        requires
            self.at(left),
            left == goals_of(remaining, self.count()),
        ensures
            forall|k: int| 0 <= k < r@.len() ==> self.fits(left, #[trigger] r@[k]),
            forall|k: int|
                0 <= k < r@.len() ==> self.problem().placeable(left, (#[trigger] r@[k]).0 as int),
            r@.len() == 0 ==> self.problem().is_stuck(left),
            r@.len() > 0 ==> self.problem().is_next(left, r@[0].0 as int),
    {
        let ghost problem = self.problem();
        let ghost bound = problem.bound_before(left);
        let mut non_scans: Pool = Vec::new();
        let mut scan_pool: Pool = Vec::new();
        let mut index: usize = 0;
        while index < self.task.rule.body.len()
            invariant
                index <= self.task.rule.body@.len(),
                self.at(left),
                left == goals_of(remaining, self.count()),
                problem == self.problem(),
                bound == problem.bound_before(left),
                ranked(non_scans@),
                ranked(scan_pool@),
                forall|k: int|
                    0 <= k < non_scans@.len() ==> self.fits(left, #[trigger] non_scans@[k])
                        && !non_scans@[k].1.is_scan && non_scans@[k].0 < index,
                forall|k: int|
                    0 <= k < scan_pool@.len() ==> self.fits(left, #[trigger] scan_pool@[k])
                        && scan_pool@[k].1.is_scan && scan_pool@[k].0 < index,
                forall|i: int| #[trigger]
                    problem.placeable(left, i) && i < index ==> {
                        covers(non_scans@, i) || covers(scan_pool@, i)
                    },
            decreases self.task.rule.body.len() - index,
        {
            if in_mask(remaining, index) {
                match self.task.candidate(index, &self.bound, self.seeds) {
                    Some(candidate) => {
                        let ghost entry = (index, candidate);
                        proof {
                            reveal(OrderProblem::place_rank);
                            assert(self.fits(left, entry));
                        }
                        if candidate.is_scan {
                            let ghost before = scan_pool@;
                            add_ranked(&mut scan_pool, index, candidate);
                            proof {
                                let at = choose|at: int|
                                    0 <= at <= before.len() && scan_pool@ == before.insert(at, entry);
                                lemma_insert_covers(before, at, entry);
                            }
                        } else {
                            let ghost before = non_scans@;
                            add_ranked(&mut non_scans, index, candidate);
                            proof {
                                let at = choose|at: int|
                                    0 <= at <= before.len() && non_scans@ == before.insert(at, entry);
                                lemma_insert_covers(before, at, entry);
                            }
                        }
                    },
                    None => {},
                }
            }
            index += 1;
        }
        proof {
            assert forall|i: int| #[trigger] problem.placeable(left, i) implies i < index by {
                assert(left.contains(i));
            }
        }
        if non_scans.len() == 0 {
            proof {
                if scan_pool@.len() > 0 {
                    self.lemma_first_is_next(left, scan_pool@, non_scans@);
                }
            }
            scan_pool
        } else {
            proof {
                self.lemma_first_is_next(left, non_scans@, scan_pool@);
            }
            non_scans
        }
    }

    /// Orders the goals of a mask behind those already placed. Where that is
    /// impossible, records where the search got stuck.
    fn solve(&mut self, remaining: u128, Ghost(left): Ghost<Set<int>>) -> (r: bool)
        requires
            old(self).at(left),
            left == goals_of(remaining, old(self).count()),
        ensures
            final(self).task == old(self).task,
            final(self).seeds == old(self).seeds,
            final(self).sound(),
            r == old(self).problem().orderable(),
            r ==> goal_views(final(self).placed@) == goal_views(old(self).placed@) + old(
                self,
            ).problem().placement(left).0,
            !r ==> final(self).placed@ == old(self).placed@ && final(self).bound@ == old(
                self,
            ).bound@ && final(self).best_failure is Some,
        decreases left.len(),
    {
        let ghost problem = self.problem();
        let ghost count = self.count();
        proof {
            lemma_int_range(0, count as int);
            vstd::set_lib::lemma_len_subset(left, problem.all_goals());
        }
        let goals = list_goals(remaining, self.task.rule.body.len());
        if goals.len() == 0 {
            proof {
                assert(left =~= Set::<int>::empty());
                assert forall|i: int| !problem.is_next(left, i) by {}
                assert(goal_views(self.placed@) =~= goal_views(self.placed@) + problem.placement(
                    left,
                ).0);
            }
            return true;
        }
        assert(left.contains(goals@[0] as int));
        if self.failed_masks.contains(remaining) {
            return false;
        }
        let mut pool = self.pool(remaining, Ghost(left));
        if pool.len() == 0 {
            proof {
                assert forall|i: int| !problem.is_next(left, i) by {}
                assert(problem.stuck() == left);
            }
            let depth: usize = self.placed.len();
            if self.best_failure.is_none() || depth > self.best_failure_depth {
                self.best_failure_depth = depth;
                self.best_failure = Some(
                    OrderFailure { bound: copy_marks(&self.bound), remaining: goals },
                );
            }
            self.failed_masks.insert(remaining);
            return false;
        }
        let ghost all = pool@;
        let ghost mut tried: int = 0;
        while pool.len() > 0
            invariant
                self.task == old(self).task,
                self.seeds == old(self).seeds,
                self.at(left),
                self.placed@ == old(self).placed@,
                self.bound@ == old(self).bound@,
                old(self).at(left),
                problem == self.problem(),
                problem == old(self).problem(),
                count == self.count(),
                count <= 128,
                left == goals_of(remaining, count),
                left.finite(),
                left.subset_of(problem.all_goals()),
                0 <= tried <= all.len(),
                all.len() > 0,
                pool@ == all.skip(tried),
                tried > 0 ==> !problem.orderable() && self.best_failure is Some,
                forall|k: int| 0 <= k < all.len() ==> old(self).fits(left, #[trigger] all[k]),
                forall|k: int|
                    0 <= k < all.len() ==> problem.placeable(left, (#[trigger] all[k]).0 as int),
                problem.is_next(left, all[0].0 as int),
            decreases pool.len(),
        {
            let (index, candidate) = pool.remove(0);
            proof {
                assert(all.skip(tried)[0] == all[tried]);
                assert(pool@ =~= all.skip(tried + 1));
            }
            let goal = &self.task.rule.body[index];
            let ghost rest = left.remove(index as int);
            proof {
                assert(all[tried].0 == index);
                assert(problem.placeable(left, index as int));
                assert(old(self).fits(left, all[tried]));
                problem.lemma_choice_is_free(left, index as int);
                assert(goal_wf(*self.task.program, *self.task.catalog, *self.task.rule, *goal));
            }
            let saved = copy_marks(&self.bound);
            let mut bound = copy_marks(&self.bound);
            if !goal.negated {
                mark_bound(&mut bound, &goal.args);
            }
            proof {
                assert(*goal == problem.rule.body@[index as int]);
                lemma_bound_after(problem, left, index as int);
                assert(bound_set(bound@) =~= problem.bound_before(rest));
            }
            self.bound = bound;
            let planned = PlannedGoal {
                source_index: index,
                access: candidate.access,
                negated: goal.negated,
            };
            let ghost before = self.placed@;
            self.placed.push(planned);
            assert(planned@ == problem.placed(left, index as int));
            let mask: u128 = without(remaining, index, Ghost(count));
            if self.solve(mask, Ghost(rest)) {
                proof {
                    assert(tried == 0);
                    let next = choose|i: int| problem.is_next(left, i);
                    problem.lemma_next_unique(left, next, index as int);
                    assert(goal_views(before.push(planned)) =~= goal_views(before).push(planned@));
                    assert(goal_views(self.placed@) =~= goal_views(old(self).placed@)
                        + problem.placement(left).0);
                }
                return true;
            }
            self.placed.pop();
            self.bound = saved;
            proof {
                assert(self.placed@ =~= before);
                tried = tried + 1;
            }
        }
        self.failed_masks.insert(remaining);
        false
    }

    /// The first candidate of a ranked pool goes next, where the others rank
    /// behind it.
    proof fn lemma_first_is_next(
        &self,
        left: Set<int>,
        pool: Seq<(usize, Candidate)>,
        others: Seq<(usize, Candidate)>,
    )
        requires
            pool.len() > 0,
            ranked(pool),
            forall|k: int| 0 <= k < pool.len() ==> self.fits(left, #[trigger] pool[k]),
            forall|k: int| 0 <= k < others.len() ==> self.fits(left, #[trigger] others[k]),
            forall|k: int, l: int|
                0 <= k < pool.len() && 0 <= l < others.len() ==> !(#[trigger] pool[k]).1.is_scan && (
                #[trigger] others[l]).1.is_scan,
            forall|i: int| #[trigger]
                self.problem().placeable(left, i) ==> {
                    covers(pool, i) || covers(others, i)
                },
        ensures
            self.problem().is_next(left, pool[0].0 as int),
    {
        let problem = self.problem();
        assert(self.fits(left, pool[0]));
        assert forall|i: int| #[trigger]
            problem.placeable(left, i) && i != pool[0].0 implies problem.goes_first(
            left,
            pool[0].0 as int,
            i,
        ) by {
            if covers(pool, i) {
                let k = choose|k: int| 0 <= k < pool.len() && (#[trigger] pool[k]).0 == i;
                assert(self.fits(left, pool[k]));
                assert(ranks_before(candidate_rank(pool[0]), candidate_rank(pool[k])));
            } else {
                let k = choose|k: int| 0 <= k < others.len() && (#[trigger] others[k]).0 == i;
                assert(self.fits(left, others[k]));
                assert(!pool[0].1.is_scan && others[k].1.is_scan);
            }
        }
    }
}

/// What running one more goal binds.
proof fn lemma_bound_after(problem: OrderProblem, left: Set<int>, index: int)
    requires
        0 <= index < problem.rule.body@.len(),
        left.contains(index),
    ensures
        forall|v: u32| #[trigger]
            problem.bound_before(left.remove(index)).contains(v) <==> problem.bound_before(
                left,
            ).contains(v) || (!problem.rule.body@[index].negated && mentions(
                problem.rule.body@[index].args@,
                v,
            )),
{
    let rest = left.remove(index);
    assert forall|v: u32| #[trigger]
        problem.bound_before(rest).contains(v) <==> problem.bound_before(left).contains(v) || (
        !problem.rule.body@[index].negated && mentions(problem.rule.body@[index].args@, v)) by {
        if problem.bound_before(rest).contains(v) && !problem.seeds.contains(v) {
            let j = choose|j: int|
                0 <= j < problem.rule.body@.len() && !rest.contains(j) && !(
                #[trigger] problem.rule.body@[j]).negated && mentions(
                    problem.rule.body@[j].args@,
                    v,
                );
            assert(j == index || !left.contains(j));
        }
        if problem.bound_before(left).contains(v) && !problem.seeds.contains(v) {
            let j = choose|j: int|
                0 <= j < problem.rule.body@.len() && !left.contains(j) && !(
                #[trigger] problem.rule.body@[j]).negated && mentions(
                    problem.rule.body@[j].args@,
                    v,
                );
            assert(!rest.contains(j) && !problem.rule.body@[j].negated);
        }
    }
}

/// Marks every variable among the terms as bound.
fn mark_bound(bound: &mut Vec<bool>, args: &Vec<Term>)
    requires
        terms_in_range(args@, old(bound)@.len()),
    ensures
        final(bound)@.len() == old(bound)@.len(),
        forall|v: u32| #[trigger]
            bound_set(final(bound)@).contains(v) <==> bound_set(old(bound)@).contains(v)
                || mentions(args@, v),
{
    let mut i: usize = 0;
    while i < args.len()
        invariant
            i <= args@.len(),
            terms_in_range(args@, bound@.len()),
            bound@.len() == old(bound)@.len(),
            forall|v: u32| #[trigger]
                bound_set(bound@).contains(v) <==> bound_set(old(bound)@).contains(v) || exists|j: int|
                    0 <= j < i && args@[j] == Term::Var(Var(v)),
        decreases args.len() - i,
    {
        let ghost before = bound@;
        match args[i] {
            Term::Var(var) => {
                assert(args@[i as int] == Term::Var(var));
                bound.set(var.0 as usize, true);
                assert forall|v: u32| #[trigger]
                    bound_set(bound@).contains(v) <==> bound_set(before).contains(v) || v
                        == var.0 by {}
                assert forall|v: u32| v == var.0 implies args@[i as int] == Term::Var(Var(v)) by {}
            },
            Term::Const => {},
        }
        i += 1;
    }
    assert forall|v: u32| #[trigger]
        bound_set(bound@).contains(v) <==> bound_set(old(bound)@).contains(v) || mentions(
            args@,
            v,
        ) by {
        if mentions(args@, v) {
            let j = choose|j: int| 0 <= j < args@.len() && args@[j] == Term::Var(Var(v));
            assert(0 <= j < i && args@[j] == Term::Var(Var(v)));
        }
    }
}

/// The pool has a candidate for goal `index`.
spec fn covers(pool: Seq<(usize, Candidate)>, index: int) -> bool {
    exists|k: int| 0 <= k < pool.len() && (#[trigger] pool[k]).0 == index
}

/// Inserting keeps what a pool covers and adds the new goal.
proof fn lemma_insert_covers(before: Seq<(usize, Candidate)>, at: int, entry: (usize, Candidate))
    requires
        0 <= at <= before.len(),
    ensures
        forall|i: int| covers(before, i) ==> #[trigger] covers(before.insert(at, entry), i),
        covers(before.insert(at, entry), entry.0 as int),
{
    let after = before.insert(at, entry);
    assert forall|i: int| covers(before, i) implies #[trigger] covers(after, i) by {
        let k = choose|k: int| 0 <= k < before.len() && (#[trigger] before[k]).0 == i;
        if k < at {
            assert(after[k].0 == i);
        } else {
            assert(after[k + 1].0 == i);
        }
    }
    assert(after[at].0 == entry.0);
}

/// Orders a rule body, given the variables bound before it runs.
pub fn try_order(task: OrderTask<'_>, initially_bound: Vec<bool>) -> (r: Result<
    Vec<PlannedGoal>,
    OrderFailure,
>)
    requires
        task.wf(),
        initially_bound@.len() == task.rule.vars@.len(),
    ensures
        match r {
            Ok(placed) => task.problem(bound_set(initially_bound@)).orderable() && goal_views(
                placed@,
            ) == task.problem(bound_set(initially_bound@)).ordered(),
            Err(failure) => !task.problem(bound_set(initially_bound@)).orderable()
                && failure.describes(task.problem(bound_set(initially_bound@))),
        },
{
    let ghost seeds = bound_set(initially_bound@);
    let ghost problem = task.problem(seeds);
    let mask: u128 = full_mask(task.rule.body.len());
    let mut search = Search {
        task,
        seeds: Ghost(seeds),
        placed: Vec::new(),
        bound: initially_bound,
        failed_masks: MaskSet::new(),
        best_failure: None,
        best_failure_depth: 0,
    };
    proof {
        assert forall|v: u32| problem.bound_before(problem.all_goals()).contains(v) <==> seeds.contains(v) by {
            if problem.bound_before(problem.all_goals()).contains(v) && !seeds.contains(v) {
                let j = choose|j: int|
                    0 <= j < problem.rule.body@.len() && !problem.all_goals().contains(j) && !(
                    #[trigger] problem.rule.body@[j]).negated && mentions(
                        problem.rule.body@[j].args@,
                        v,
                    );
                assert(problem.all_goals().contains(j));
            }
        }
        assert(problem.bound_before(problem.all_goals()) =~= seeds);
        assert(search.at(problem.all_goals()));
    }
    if search.solve(mask, Ghost(problem.all_goals())) {
        assert(goal_views(search.placed@) =~= problem.ordered());
        Ok(search.placed)
    } else {
        match search.best_failure {
            Some(failure) => Err(failure),
            None => Err(OrderFailure { bound: Vec::new(), remaining: Vec::new() }),
        }
    }
}

} // verus!
