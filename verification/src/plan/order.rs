//! The order of a rule body.
//!
//! The body is ordered by placing, again and again, the goal with the
//! cheapest satisfiable access path (tie-break: fewer free variables, then
//! source order), a scan only where no other goal is placeable. Placing a
//! goal never takes a binding away, so what is placeable stays placeable:
//! where this gets stuck, every ordering does.

use crate::plan::catalog::Catalog;
use crate::plan::logic::{mentions, Goal, GoalRef, Program, Rule, Term, Var};
use crate::plan::mode::{covered, required, unseeded, CostClass};
use crate::plan::patterns::supported;
use crate::plan::physical::{AccessView, PlannedGoalView};
use crate::plan::predicate::PredicateDef;
use vstd::prelude::*;
use vstd::set_lib::{lemma_int_range, set_int_range};

verus! {

/// What the order of one rule body depends on.
pub struct OrderProblem {
    pub program: Program,
    pub catalog: Catalog,
    /// The binding patterns that each derived predicate supports.
    pub supports: Seq<Set<Seq<bool>>>,
    pub rule: Rule,
    /// The variables bound before the body runs.
    pub seeds: Set<u32>,
    pub deny_scans: bool,
}

/// The boundness of each term.
pub open spec fn flags_of(terms: Seq<Term>, bound: Set<u32>) -> Seq<bool> {
    terms.map_values(
        |term: Term|
            match term {
                Term::Const => true,
                Term::Var(var) => bound.contains(var.0),
            },
    )
}

/// The number of positions that are not bound.
pub open spec fn free_count(flags: Seq<bool>) -> nat
    decreases flags.len(),
{
    if flags.len() == 0 {
        0
    } else {
        free_count(flags.drop_last()) + (if flags.last() {
            0nat
        } else {
            1nat
        })
    }
}

/// A variable occurs in the rule outside of goal `index`.
pub open spec fn occurs_elsewhere(rule: Rule, index: int, var: u32) -> bool {
    ||| mentions(rule.head@, var)
    ||| exists|j: int|
        0 <= j < rule.body@.len() && j != index && mentions((#[trigger] rule.body@[j]).args@, var)
}

/// The variables of a goal that the rest of its rule uses too and that are
/// not bound, in argument order.
pub open spec fn waiting_on(rule: Rule, index: int, bound: Set<u32>, upto: int) -> Seq<Var>
    decreases upto,
{
    if upto <= 0 {
        Seq::empty()
    } else {
        let rest = waiting_on(rule, index, bound, upto - 1);
        match rule.body@[index].args@[upto - 1] {
            Term::Var(var) => if occurs_elsewhere(rule, index, var.0) && !bound.contains(var.0) {
                rest.push(var)
            } else {
                rest
            },
            Term::Const => rest,
        }
    }
}

/// The variables of a goal that the rest of its rule uses too and that are
/// not bound, in argument order.
pub open spec fn shared_unbound_vars(rule: Rule, index: int, bound: Set<u32>) -> Seq<Var> {
    waiting_on(rule, index, bound, rule.body@[index].args@.len() as int)
}

/// Mode `m` can run under `flags`, and is no scan where those are excluded.
pub open spec fn usable_mode(p: PredicateDef, flags: Seq<bool>, no_scans: bool, m: int) -> bool {
    &&& 0 <= m < p.modes@.len()
    &&& p.modes@[m].admits(flags)
    &&& no_scans ==> !(p.modes@[m].access is Scan)
}

/// Mode `m` is the preferred one among those that can run.
pub open spec fn is_best_mode(p: PredicateDef, flags: Seq<bool>, no_scans: bool, m: int) -> bool {
    &&& usable_mode(p, flags, no_scans, m)
    &&& forall|k: int| #[trigger]
        usable_mode(p, flags, no_scans, k) && k != m ==> p.prefers(m, k)
}

/// The preferred access path of an extern predicate, if it has one.
pub open spec fn extern_path(p: PredicateDef, flags: Seq<bool>, no_scans: bool) -> Option<
    AccessView,
> {
    if exists|m: int| is_best_mode(p, flags, no_scans, m) {
        let m = choose|m: int| is_best_mode(p, flags, no_scans, m);
        Some(AccessView::Extern { predicate: p.name@, mode: p.modes@[m] })
    } else {
        None
    }
}

/// The cost an access path is ordered by: a derived call counts as
/// definition-local work, a derived scan as a workspace-wide one.
pub open spec fn order_cost(access: AccessView) -> CostClass {
    match access {
        AccessView::Extern { mode, .. } => mode.cost,
        AccessView::Derived { pattern, .. } => if unseeded(pattern) {
            CostClass::C4
        } else {
            CostClass::C1
        },
        AccessView::Input { .. } => CostClass::C0,
        AccessView::Builtin { .. } => CostClass::C0,
    }
}

/// The access path is a scan.
pub open spec fn scans(access: AccessView) -> bool {
    match access {
        AccessView::Extern { mode, .. } => mode.access is Scan,
        AccessView::Derived { pattern, .. } => unseeded(pattern),
        AccessView::Input { .. } => false,
        AccessView::Builtin { .. } => false,
    }
}

/// Non-scans first, then the cheaper one, then the one with fewer free
/// variables, then source order.
pub open spec fn ranks_before(x: (bool, CostClass, nat, int), y: (bool, CostClass, nat, int)) -> bool {
    if x.0 != y.0 {
        y.0
    } else if x.1 != y.1 {
        x.1.rank() < y.1.rank()
    } else if x.2 != y.2 {
        x.2 < y.2
    } else {
        x.3 < y.3
    }
}

/// The goal calls derived predicate `id`.
pub open spec fn calls(goal: Goal, id: int) -> bool {
    goal.target matches GoalRef::Derived(target) && target.0 == id
}

impl OrderProblem {
    pub open spec fn goal(self, index: int) -> Goal {
        self.rule.body@[index]
    }

    /// All goals of the body.
    pub open spec fn all_goals(self) -> Set<int> {
        set_int_range(0, self.rule.body@.len() as int)
    }

    /// The variables bound once every goal but those in `left` has run:
    /// negated goals bind nothing.
    pub open spec fn bound_before(self, left: Set<int>) -> Set<u32> {
        Set::new(
            |v: u32|
                self.seeds.contains(v) || exists|j: int|
                    0 <= j < self.rule.body@.len() && !left.contains(j) && !(
                    #[trigger] self.rule.body@[j]).negated && mentions(self.rule.body@[j].args@, v),
        )
    }

    /// The best access path of a goal under some bindings, if any. A negated
    /// goal waits for every variable it shares with the rest of the rule and
    /// never scans.
    pub open spec fn access_path(self, index: int, bound: Set<u32>) -> Option<AccessView> {
        let goal = self.goal(index);
        let flags = flags_of(goal.args@, bound);
        if goal.negated && shared_unbound_vars(self.rule, index, bound).len() > 0 {
            None
        } else {
            match goal.target {
                GoalRef::Extern(name) => extern_path(
                    self.catalog.lookup(name@),
                    flags,
                    self.deny_scans || goal.negated,
                ),
                GoalRef::Derived(id) => {
                    if !supported(self.supports[id.0 as int], flags) {
                        None
                    } else if goal.negated && unseeded(flags) {
                        None
                    } else {
                        Some(AccessView::Derived { id: id.0 as int, pattern: flags })
                    }
                },
                GoalRef::Input(id) => Some(AccessView::Input { id: id.0 as int }),
                GoalRef::Builtin(id) => {
                    let pattern = self.program.builtins@[id.0 as int].pattern@;
                    if covered(required(pattern), flags) && (goal.negated ==> free_count(flags)
                        == 0) {
                        Some(AccessView::Builtin { id: id.0 as int })
                    } else {
                        None
                    }
                },
            }
        }
    }

    /// Goal `index` is among those left and has an access path.
    pub open spec fn placeable(self, left: Set<int>, index: int) -> bool {
        left.contains(index) && self.access_path(index, self.bound_before(left)) is Some
    }

    /// Goal `a` is placed rather than goal `b`: non-scans first, then the
    /// cheaper one, then the one with fewer free variables, then source order.
    pub open spec fn goes_first(self, left: Set<int>, a: int, b: int) -> bool {
        let bound = self.bound_before(left);
        ranks_before(self.place_rank(a, bound), self.place_rank(b, bound))
    }

    /// What the order of placement compares: scan, cost, free variables and
    /// position.
    #[verifier::opaque]
    pub open spec fn place_rank(self, index: int, bound: Set<u32>) -> (bool, CostClass, nat, int) {
        let access = self.access_path(index, bound)->0;
        (
            scans(access),
            order_cost(access),
            free_count(flags_of(self.goal(index).args@, bound)),
            index,
        )
    }

    /// Goal `index` is the one placed next.
    pub open spec fn is_next(self, left: Set<int>, index: int) -> bool {
        &&& self.placeable(left, index)
        &&& forall|k: int| #[trigger]
            self.placeable(left, k) && k != index ==> self.goes_first(left, index, k)
    }

    /// The placed form of a goal.
    pub open spec fn placed(self, left: Set<int>, index: int) -> PlannedGoalView {
        PlannedGoalView {
            source_index: index,
            access: self.access_path(index, self.bound_before(left))->0,
            negated: self.goal(index).negated,
        }
    }

    /// The placement of the goals in `left`, next goal by next goal: those
    /// placed, in order, and those left where nothing is placeable any more.
    pub open spec fn placement(self, left: Set<int>) -> (Seq<PlannedGoalView>, Set<int>)
        decreases left.len(),
        when left.finite()
    {
        if exists|i: int| self.is_next(left, i) {
            let i = choose|i: int| self.is_next(left, i);
            let rest = self.placement(left.remove(i));
            (seq![self.placed(left, i)] + rest.0, rest.1)
        } else {
            (Seq::empty(), left)
        }
    }

    /// The ordered body.
    pub open spec fn ordered(self) -> Seq<PlannedGoalView> {
        self.placement(self.all_goals()).0
    }

    /// The goals that no ordering can place.
    pub open spec fn stuck(self) -> Set<int> {
        self.placement(self.all_goals()).1
    }

    /// The whole body can be ordered.
    pub open spec fn orderable(self) -> bool {
        self.stuck() == Set::<int>::empty()
    }

    /// `order` is a way to run the goals in `left`, all of them: each has an
    /// access path when its turn comes.
    pub open spec fn is_ordering(self, left: Set<int>, order: Seq<int>) -> bool
        decreases order.len(),
    {
        if order.len() == 0 {
            left == Set::<int>::empty()
        } else {
            self.placeable(left, order[0]) && self.is_ordering(
                left.remove(order[0]),
                order.drop_first(),
            )
        }
    }
}

/// Some usable mode among the first `count` is preferred to the others.
proof fn lemma_best_mode_upto(p: PredicateDef, flags: Seq<bool>, no_scans: bool, count: int)
    requires
        0 <= count <= p.modes@.len(),
        exists|m: int| 0 <= m < count && usable_mode(p, flags, no_scans, m),
    ensures
        exists|m: int|
            0 <= m < count && usable_mode(p, flags, no_scans, m) && forall|k: int| #[trigger]
                usable_mode(p, flags, no_scans, k) && k < count && k != m ==> p.prefers(m, k),
    decreases count,
{
    let last = count - 1;
    if exists|m: int| 0 <= m < last && usable_mode(p, flags, no_scans, m) {
        lemma_best_mode_upto(p, flags, no_scans, last);
        let best = choose|m: int|
            0 <= m < last && usable_mode(p, flags, no_scans, m) && forall|k: int| #[trigger]
                usable_mode(p, flags, no_scans, k) && k < last && k != m ==> p.prefers(m, k);
        if usable_mode(p, flags, no_scans, last) && p.prefers(last, best) {
            assert forall|k: int| #[trigger]
                usable_mode(p, flags, no_scans, k) && k < count && k != last implies p.prefers(
                last,
                k,
            ) by {
                if k != best {
                    assert(p.prefers(best, k));
                }
            }
        } else {
            assert forall|k: int| #[trigger]
                usable_mode(p, flags, no_scans, k) && k < count && k != best implies p.prefers(
                best,
                k,
            ) by {}
        }
    } else {
        assert(usable_mode(p, flags, no_scans, last));
    }
}

/// Where a mode can run, one is preferred.
pub proof fn lemma_best_mode_exists(p: PredicateDef, flags: Seq<bool>, no_scans: bool, m: int)
    requires
        usable_mode(p, flags, no_scans, m),
    ensures
        exists|best: int| is_best_mode(p, flags, no_scans, best),
{
    lemma_best_mode_upto(p, flags, no_scans, p.modes@.len() as int);
    let best = choose|m: int|
        0 <= m < p.modes@.len() && usable_mode(p, flags, no_scans, m) && forall|k: int| #[trigger]
            usable_mode(p, flags, no_scans, k) && k < p.modes@.len() && k != m ==> p.prefers(m, k);
    assert(is_best_mode(p, flags, no_scans, best));
}

/// Only one mode is preferred to all others.
pub proof fn lemma_best_mode_unique(
    p: PredicateDef,
    flags: Seq<bool>,
    no_scans: bool,
    a: int,
    b: int,
)
    requires
        is_best_mode(p, flags, no_scans, a),
        is_best_mode(p, flags, no_scans, b),
    ensures
        a == b,
{
    if a != b {
        assert(p.prefers(a, b) && p.prefers(b, a));
    }
}

/// More bindings leave no more positions free.
proof fn lemma_free_count_antitone(a: Seq<bool>, b: Seq<bool>)
    requires
        a.len() == b.len(),
        forall|i: int| 0 <= i < a.len() && #[trigger] a[i] ==> b[i],
    ensures
        free_count(b) <= free_count(a),
    decreases a.len(),
{
    if a.len() > 0 {
        lemma_free_count_antitone(a.drop_last(), b.drop_last());
    }
}

/// More bindings leave no more shared variables to wait for.
proof fn lemma_waiting_antitone(
    rule: Rule,
    index: int,
    fewer: Set<u32>,
    more: Set<u32>,
    upto: int,
)
    requires
        fewer.subset_of(more),
    ensures
        waiting_on(rule, index, more, upto).len() <= waiting_on(rule, index, fewer, upto).len(),
    decreases upto,
{
    if upto > 0 {
        lemma_waiting_antitone(rule, index, fewer, more, upto - 1);
    }
}

/// Among some of the numbers below `count`, one ranks before the others.
proof fn lemma_first_rank_upto(
    rank: spec_fn(int) -> (bool, CostClass, nat, int),
    among: Set<int>,
    count: int,
)
    requires
        forall|i: int| (#[trigger] rank(i)).3 == i,
        exists|i: int| 0 <= i < count && among.contains(i),
    ensures
        exists|i: int|
            0 <= i < count && among.contains(i) && forall|k: int| #[trigger]
                among.contains(k) && 0 <= k < count && k != i ==> ranks_before(rank(i), rank(k)),
    decreases count,
{
    let last = count - 1;
    if exists|i: int| 0 <= i < last && among.contains(i) {
        lemma_first_rank_upto(rank, among, last);
        let best = choose|i: int|
            0 <= i < last && among.contains(i) && forall|k: int| #[trigger]
                among.contains(k) && 0 <= k < last && k != i ==> ranks_before(rank(i), rank(k));
        if among.contains(last) && ranks_before(rank(last), rank(best)) {
            assert forall|k: int| #[trigger]
                among.contains(k) && 0 <= k < count && k != last implies ranks_before(rank(last), rank(k)) by {
                if k != best {
                    assert(ranks_before(rank(best), rank(k)));
                }
            }
            assert(0 <= last < count && among.contains(last));
        } else {
            assert(0 <= best < count && among.contains(best));
            assert forall|k: int| #[trigger]
                among.contains(k) && 0 <= k < count && k != best implies ranks_before(rank(best), rank(k)) by {
                assert(rank(k).3 == k && rank(best).3 == best);
            }
        }
    } else {
        let only = choose|i: int| 0 <= i < count && among.contains(i);
        assert(only == last);
        assert(0 <= last < count && among.contains(last));
    }
}

impl OrderProblem {
    /// `other` asks for the order of the same body, with at least the seeds and
    /// at least the support.
    pub open spec fn eased_by(self, other: OrderProblem) -> bool {
        &&& other.program == self.program
        &&& other.catalog == self.catalog
        &&& other.rule == self.rule
        &&& other.deny_scans == self.deny_scans
        &&& self.seeds.subset_of(other.seeds)
        &&& forall|i: int, id: int|
            #![trigger self.rule.body@[i], self.supports[id]]
            0 <= i < self.rule.body@.len() && calls(self.rule.body@[i], id)
                ==> self.supports[id].subset_of(other.supports[id])
    }

    /// An access path survives more bindings and more support.
    pub proof fn lemma_path_survives(
        self,
        other: OrderProblem,
        index: int,
        fewer: Set<u32>,
        more: Set<u32>,
    )
        requires
            self.eased_by(other),
            fewer.subset_of(more),
            0 <= index < self.rule.body@.len(),
            self.access_path(index, fewer) is Some,
        ensures
            other.access_path(index, more) is Some,
    {
        let goal = self.goal(index);
        let a = flags_of(goal.args@, fewer);
        let b = flags_of(goal.args@, more);
        lemma_waiting_antitone(self.rule, index, fewer, more, goal.args@.len() as int);
        assert forall|i: int| 0 <= i < a.len() && #[trigger] a[i] implies b[i] by {}
        lemma_free_count_antitone(a, b);
        match goal.target {
            GoalRef::Extern(name) => {
                let p = self.catalog.lookup(name@);
                let no_scans = self.deny_scans || goal.negated;
                assert(extern_path(p, a, no_scans) is Some);
                let m = choose|m: int| is_best_mode(p, a, no_scans, m);
                let need = required(p.modes@[m].pattern@);
                assert(covered(need, b)) by {
                    assert(covered(need, a));
                    assert forall|i: int|
                        0 <= i < need.len() && i < b.len() && #[trigger] need[i] implies b[i] by {
                        assert(a[i]);
                    }
                }
                assert(usable_mode(p, b, no_scans, m));
                lemma_best_mode_exists(p, b, no_scans, m);
            },
            GoalRef::Derived(id) => {
                assert(calls(self.rule.body@[index], id.0 as int));
                let s = choose|s: Seq<bool>| #[trigger]
                    self.supports[id.0 as int].contains(s) && covered(s, a);
                assert(other.supports[id.0 as int].contains(s) && covered(s, b));
                if unseeded(b) {
                    assert forall|i: int| 0 <= i < a.len() implies !#[trigger] a[i] by {
                        assert(!b[i]);
                    }
                    assert(unseeded(a));
                }
            },
            GoalRef::Input(id) => {},
            GoalRef::Builtin(id) => {},
        }
    }

    /// What is placeable stays placeable while goals are placed, and in an
    /// easier problem.
    pub proof fn lemma_placeable_survives(
        self,
        other: OrderProblem,
        left: Set<int>,
        fewer: Set<int>,
        index: int,
    )
        requires
            self.eased_by(other),
            left.subset_of(self.all_goals()),
            fewer.subset_of(left),
            fewer.contains(index),
            self.placeable(left, index),
        ensures
            other.placeable(fewer, index),
    {
        assert(self.bound_before(left).subset_of(other.bound_before(fewer)));
        self.lemma_path_survives(
            other,
            index,
            self.bound_before(left),
            other.bound_before(fewer),
        );
    }

    /// Nothing in `left` is placeable.
    pub open spec fn is_stuck(self, left: Set<int>) -> bool {
        forall|i: int| !self.placeable(left, i)
    }

    /// Where a goal is placeable, one goes next.
    pub proof fn lemma_next_exists(self, left: Set<int>, index: int)
        requires
            left.subset_of(self.all_goals()),
            self.placeable(left, index),
        ensures
            exists|i: int| self.is_next(left, i),
    {
        let n = self.rule.body@.len() as int;
        let bound = self.bound_before(left);
        let rank = |i: int| self.place_rank(i, bound);
        let among = Set::new(|i: int| self.placeable(left, i));
        assert forall|i: int| (#[trigger] rank(i)).3 == i by {
            reveal(OrderProblem::place_rank);
        }
        assert(0 <= index < n && among.contains(index));
        lemma_first_rank_upto(rank, among, n);
        let best = choose|i: int|
            0 <= i < n && among.contains(i) && forall|k: int| #[trigger]
                among.contains(k) && 0 <= k < n && k != i ==> ranks_before(rank(i), rank(k));
        assert(self.placeable(left, best));
        assert forall|k: int| #[trigger] self.placeable(left, k) && k != best implies self.goes_first(
            left,
            best,
            k,
        ) by {
            assert(self.all_goals().contains(k));
            assert(among.contains(k));
        }
        assert(self.is_next(left, best));
    }

    /// Only one goal goes next.
    pub proof fn lemma_next_unique(self, left: Set<int>, a: int, b: int)
        requires
            self.is_next(left, a),
            self.is_next(left, b),
        ensures
            a == b,
    {
        reveal(OrderProblem::place_rank);
        if a != b {
            assert(self.goes_first(left, a, b) && self.goes_first(left, b, a));
        }
    }

    /// The placement ends where nothing is placeable.
    pub proof fn lemma_placement_ends_stuck(self, left: Set<int>)
        requires
            left.subset_of(self.all_goals()),
        ensures
            left.finite(),
            self.placement(left).1.subset_of(left),
            self.is_stuck(self.placement(left).1),
        decreases left.len(),
    {
        lemma_int_range(0, self.rule.body@.len() as int);
        vstd::set_lib::lemma_len_subset(left, self.all_goals());
        if exists|i: int| self.is_next(left, i) {
            let i = choose|i: int| self.is_next(left, i);
            self.lemma_placement_ends_stuck(left.remove(i));
        } else {
            assert forall|i: int| !self.placeable(left, i) by {
                if self.placeable(left, i) {
                    self.lemma_next_exists(left, i);
                }
            }
        }
    }

    /// No goal of a stuck set is ever placed: the placement ends in the largest
    /// stuck set.
    pub proof fn lemma_stuck_stays(self, left: Set<int>, part: Set<int>)
        requires
            left.subset_of(self.all_goals()),
            part.subset_of(left),
            self.is_stuck(part),
        ensures
            part.subset_of(self.placement(left).1),
        decreases left.len(),
    {
        lemma_int_range(0, self.rule.body@.len() as int);
        vstd::set_lib::lemma_len_subset(left, self.all_goals());
        if exists|i: int| self.is_next(left, i) {
            let i = choose|i: int| self.is_next(left, i);
            if part.contains(i) {
                self.lemma_placeable_survives(self, left, part, i);
            }
            self.lemma_stuck_stays(left.remove(i), part);
        }
    }

    /// Whichever placeable goal is placed, the same goals end up stuck: the
    /// choice of the goal never needs revision.
    pub proof fn lemma_choice_is_free(self, left: Set<int>, index: int)
        requires
            left.subset_of(self.all_goals()),
            self.placeable(left, index),
        ensures
            self.placement(left.remove(index)).1 == self.placement(left).1,
    {
        let end = self.placement(left).1;
        let other = self.placement(left.remove(index)).1;
        self.lemma_placement_ends_stuck(left);
        self.lemma_placement_ends_stuck(left.remove(index));
        if end.contains(index) {
            self.lemma_placeable_survives(self, left, end, index);
        }
        self.lemma_stuck_stays(left.remove(index), end);
        self.lemma_stuck_stays(left, other);
        assert(end =~= other);
    }

    /// Ordering is complete: a body is orderable exactly where some ordering of
    /// its goals gives each an access path when its turn comes.
    pub proof fn law_ordering_is_complete(self)
        ensures
            self.orderable() <==> exists|order: Seq<int>|
                self.is_ordering(self.all_goals(), order),
    {
        if exists|order: Seq<int>| self.is_ordering(self.all_goals(), order) {
            let order = choose|order: Seq<int>| self.is_ordering(self.all_goals(), order);
            self.lemma_placement_ends_stuck(self.all_goals());
            self.lemma_ordering_leaves_nothing_stuck(self.all_goals(), order, self.stuck());
            assert(self.stuck() =~= Set::<int>::empty());
        }
        if self.orderable() {
            self.lemma_placement_is_ordering(self.all_goals());
            let order = self.ordered().map_values(|g: PlannedGoalView| g.source_index);
            assert(self.is_ordering(self.all_goals(), order));
        }
    }

    proof fn lemma_ordering_leaves_nothing_stuck(
        self,
        left: Set<int>,
        order: Seq<int>,
        part: Set<int>,
    )
        requires
            left.subset_of(self.all_goals()),
            part.subset_of(left),
            self.is_stuck(part),
            self.is_ordering(left, order),
        ensures
            part =~= Set::<int>::empty(),
        decreases order.len(),
    {
        if order.len() > 0 {
            if part.contains(order[0]) {
                self.lemma_placeable_survives(self, left, part, order[0]);
            }
            self.lemma_ordering_leaves_nothing_stuck(
                left.remove(order[0]),
                order.drop_first(),
                part,
            );
        }
    }

    proof fn lemma_placement_is_ordering(self, left: Set<int>)
        requires
            left.subset_of(self.all_goals()),
            self.placement(left).1 == Set::<int>::empty(),
        ensures
            self.is_ordering(
                left,
                self.placement(left).0.map_values(|g: PlannedGoalView| g.source_index),
            ),
        decreases left.len(),
    {
        lemma_int_range(0, self.rule.body@.len() as int);
        vstd::set_lib::lemma_len_subset(left, self.all_goals());
        let order = self.placement(left).0.map_values(|g: PlannedGoalView| g.source_index);
        if exists|i: int| self.is_next(left, i) {
            let i = choose|i: int| self.is_next(left, i);
            self.lemma_placement_is_ordering(left.remove(i));
            assert(order[0] == i);
            assert(order.drop_first() =~= self.placement(left.remove(i)).0.map_values(
                |g: PlannedGoalView| g.source_index,
            ));
        }
    }

    /// More seeds and more support never make a body harder to order.
    pub proof fn law_ordering_is_monotone(self, other: OrderProblem)
        requires
            self.eased_by(other),
        ensures
            other.stuck().subset_of(self.stuck()),
            self.orderable() ==> other.orderable(),
    {
        other.lemma_placement_ends_stuck(other.all_goals());
        let end = other.stuck();
        assert forall|i: int| !self.placeable(end, i) by {
            if self.placeable(end, i) {
                self.lemma_placeable_survives(other, end, end, i);
            }
        }
        self.lemma_stuck_stays(self.all_goals(), end);
        if self.orderable() {
            assert(other.stuck() =~= Set::<int>::empty());
        }
    }
}

} // verus!
