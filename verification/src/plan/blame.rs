//! The plan error for a body that cannot be ordered: which goal is to blame,
//! what it supports, and what would unblock it.

use crate::plan::catalog::Catalog;
use crate::plan::error::{
    alternative_views, AlternativeView, GoalLocation, ModeAlternative, PlanError, PlanErrorView,
    UnsatisfiableGoal, UnsatisfiableView,
};
use crate::plan::logic::{terms_in_range, DerivedId, Goal, GoalRef, Program, Rule, Term, Var};
use crate::plan::mode::{required, unseeded, AccessKind, Binding, CostClass, ModeDef, Pattern};
use crate::plan::order::{flags_of, occurs_elsewhere, shared_unbound_vars, usable_mode};
use crate::plan::patterns::{in_order, PatternSet};
use crate::plan::predicate::PredicateDef;
use crate::plan::schema::ArgDef;
use crate::plan::search::{
    bound_flags, bound_set, goal_wf, occurs_outside, shared_unbound, support_sets, OrderFailure,
    OrderTask,
};
use crate::plan::supports::unbound_marks;
use crate::plan::unlock::{
    best_unlocks, name_sets, pick_best, unlock_names, unlock_views, Unlock, UnlockView,
};
use crate::text::{after_last, cat2, join_strings, joined, str_texts, texts};
use vstd::prelude::*;
use vstd::string::StringExecFns;

verus! {

/// Where a rule lives: the derived predicate that owns it and its index there.
/// No predicate owns the query.
#[derive(Clone, Copy)]
pub struct RuleOwner {
    pub predicate: DerivedId,
    pub rule_index: usize,
}

/// What a blame depends on: the setting, the rule, and where its ordering got
/// stuck.
pub struct BlameCase {
    pub program: Program,
    pub catalog: Catalog,
    pub supports: Seq<Set<Seq<bool>>>,
    pub deny_scans: bool,
    pub rule: Rule,
    pub owner: Option<RuleOwner>,
    pub bound: Set<u32>,
    pub stuck: Set<int>,
}

/// The number of positions that are needed and not bound.
pub open spec fn missing_count(need: Seq<bool>, flags: Seq<bool>) -> nat
    decreases need.len(),
{
    if need.len() == 0 {
        0
    } else {
        let last = need.len() - 1;
        missing_count(need.drop_last(), flags) + (if last < flags.len() && need[last]
            && !flags[last] {
            1nat
        } else {
            0nat
        })
    }
}

/// The smaller of two distances, where there are two.
pub open spec fn nearer(a: Option<nat>, b: nat) -> Option<nat> {
    match a {
        Some(x) => Some(
            if x < b {
                x
            } else {
                b
            },
        ),
        None => Some(b),
    }
}

/// The fewest bindings that some mode lacks; denied scans do not count.
pub open spec fn nearest_mode(modes: Seq<ModeDef>, flags: Seq<bool>, deny_scans: bool) -> Option<nat>
    decreases modes.len(),
{
    if modes.len() == 0 {
        None
    } else {
        let rest = nearest_mode(modes.drop_last(), flags, deny_scans);
        let last = modes.last();
        if deny_scans && last.access is Scan {
            rest
        } else {
            nearer(rest, missing_count(required(last.pattern@), flags))
        }
    }
}

/// The fewest bindings that some pattern lacks.
pub open spec fn nearest_pattern(patterns: Seq<Seq<bool>>, flags: Seq<bool>) -> Option<nat>
    decreases patterns.len(),
{
    if patterns.len() == 0 {
        None
    } else {
        nearer(
            nearest_pattern(patterns.drop_last(), flags),
            missing_count(patterns.last(), flags),
        )
    }
}

/// The cheapest cost among some modes; workspace-wide where there is none.
pub open spec fn cheapest(modes: Seq<ModeDef>) -> CostClass
    decreases modes.len(),
{
    if modes.len() == 0 {
        CostClass::C4
    } else {
        let rest = cheapest(modes.drop_last());
        if modes.last().cost.rank() < rest.rank() {
            modes.last().cost
        } else {
            rest
        }
    }
}

/// Every mode is a scan.
pub open spec fn only_scans(modes: Seq<ModeDef>) -> bool {
    forall|m: int| 0 <= m < modes.len() ==> (#[trigger] modes[m]).access is Scan
}

/// A mode can bind a `Def` from inputs that are no `Def`.
pub open spec fn seeds_def(mode: ModeDef, args: Seq<ArgDef>) -> bool {
    &&& mode.access is Keyed
    &&& forall|i: int|
        0 <= i < mode.pattern@.len() && i < args.len() && (#[trigger] mode.pattern@[i]) is Bound
            ==> !(args[i].ty is Def)
    &&& exists|i: int|
        0 <= i < mode.pattern@.len() && i < args.len() && (#[trigger] mode.pattern@[i]) is Free
            && args[i].ty is Def
}

/// The predicate can bind a `Def` from inputs that are no `Def`.
pub open spec fn is_def_seed(entry: PredicateDef) -> bool {
    exists|m: int| 0 <= m < entry.modes@.len() && seeds_def(#[trigger] entry.modes@[m], entry.args@)
}

/// The names of the predicates that can bind a `Def`, in catalog order.
pub open spec fn def_seed_names(entries: Seq<PredicateDef>) -> Seq<Seq<char>>
    decreases entries.len(),
{
    if entries.len() == 0 {
        Seq::empty()
    } else {
        let rest = def_seed_names(entries.drop_last());
        if is_def_seed(entries.last()) {
            rest.push(entries.last().name@)
        } else {
            rest
        }
    }
}

impl BlameCase {
    pub open spec fn goal(self, index: int) -> Goal {
        self.rule.body@[index]
    }

    pub open spec fn flags(self, index: int) -> Seq<bool> {
        flags_of(self.goal(index).args@, self.bound)
    }

    /// A stuck goal that only scans could serve, where scans are denied: the
    /// plan cannot exist without that scan.
    pub open spec fn is_refused_scan(self, index: int) -> bool {
        &&& self.stuck.contains(index)
        &&& self.deny_scans
        &&& !self.goal(index).negated
        &&& self.goal(index).target matches GoalRef::Extern(name) && only_scans(
            self.catalog.lookup(name@).modes@,
        )
    }

    /// The first refused scan in source order.
    pub open spec fn is_first_refused_scan(self, index: int) -> bool {
        &&& self.is_refused_scan(index)
        &&& forall|k: int| #[trigger] self.is_refused_scan(k) ==> index <= k
    }

    /// The fewest additional bindings that some access path of a goal needs; for
    /// a negated goal no fewer than the shared variables it waits for.
    pub open spec fn distance(self, index: int) -> nat {
        let goal = self.goal(index);
        let flags = self.flags(index);
        let nearest = match goal.target {
            GoalRef::Extern(name) => nearest_mode(
                self.catalog.lookup(name@).modes@,
                flags,
                self.deny_scans,
            ),
            GoalRef::Derived(id) => nearest_pattern(in_order(self.supports[id.0 as int]), flags),
            GoalRef::Builtin(id) => Some(
                missing_count(required(self.program.builtins@[id.0 as int].pattern@), flags),
            ),
            GoalRef::Input(_) => None,
        };
        let own = match nearest {
            Some(count) => count,
            None => usize::MAX as nat,
        };
        let shared = if goal.negated {
            shared_unbound_vars(self.rule, index, self.bound).len()
        } else {
            0
        };
        if own < shared {
            shared
        } else {
            own
        }
    }

    /// The goal to blame: the stuck goal with the smallest distance, the first
    /// of several in source order.
    pub open spec fn is_to_blame(self, index: int) -> bool {
        &&& self.stuck.contains(index)
        &&& forall|k: int| #[trigger]
            self.stuck.contains(k) ==> self.distance(index) < self.distance(k) || (self.distance(
                index,
            ) == self.distance(k) && index <= k)
    }

    /// The variable of argument `i` occurs in the rest of the rule too.
    pub open spec fn is_shared(self, index: int, i: int) -> bool {
        self.goal(index).args@[i] matches Term::Var(var) && occurs_elsewhere(
            self.rule,
            index,
            var.0,
        )
    }

    /// An access path that needs `need` waits for argument `i`: it is not bound,
    /// and the path needs it or a negated goal shares it.
    pub open spec fn waits_for(self, index: int, need: Seq<bool>, i: int) -> bool {
        !self.flags(index)[i] && (need[i] || (self.goal(index).negated && self.is_shared(
            index,
            i,
        )))
    }

    /// The names of those of the first `upto` arguments that an access path waits
    /// for.
    pub open spec fn missing_names(self, index: int, need: Seq<bool>, upto: int) -> Seq<Seq<char>>
        decreases upto,
    {
        if upto <= 0 {
            Seq::empty()
        } else {
            let rest = self.missing_names(index, need, upto - 1);
            if self.waits_for(index, need, upto - 1) {
                rest.push(self.rule.term_text(self.goal(index).args@[upto - 1]))
            } else {
                rest
            }
        }
    }

    /// The names of all arguments that an access path waits for.
    pub open spec fn lacking(self, index: int, need: Seq<bool>) -> Seq<Seq<char>> {
        self.missing_names(index, need, self.goal(index).args@.len() as int)
    }

    /// The names of the arguments that are bound.
    pub open spec fn bound_names(self, index: int, upto: int) -> Seq<Seq<char>>
        decreases upto,
    {
        if upto <= 0 {
            Seq::empty()
        } else {
            let rest = self.bound_names(index, upto - 1);
            if self.flags(index)[upto - 1] {
                rest.push(self.rule.term_text(self.goal(index).args@[upto - 1]))
            } else {
                rest
            }
        }
    }

    /// A mode over the goal's own argument names: `name(+Arg, -)`.
    pub open spec fn signature(self, index: int, need: Seq<bool>) -> Seq<char> {
        let goal = self.goal(index);
        self.program.target_text(goal.target) + "("@ + joined(
            Seq::new(
                goal.args@.len(),
                |i: int|
                    if need[i] {
                        "+"@ + self.rule.term_text(goal.args@[i])
                    } else {
                        "-"@
                    },
            ),
            ", "@,
        ) + ")"@
    }

    pub open spec fn mode_alternative(self, index: int, mode: ModeDef) -> AlternativeView {
        AlternativeView {
            signature: self.signature(index, required(mode.pattern@)),
            via: after_last(mode.operator.full_name(), '/'),
            cost: Some(mode.cost),
            is_scan: mode.access is Scan,
            denied: self.deny_scans && mode.access is Scan,
        }
    }

    pub open spec fn pattern_alternative(self, index: int, pattern: Seq<bool>) -> AlternativeView {
        AlternativeView {
            signature: self.signature(index, pattern),
            via: "derived"@,
            cost: None,
            is_scan: unseeded(pattern),
            denied: false,
        }
    }

    /// Everything the goal's predicate supports.
    pub open spec fn alternatives(self, index: int) -> Seq<AlternativeView> {
        match self.goal(index).target {
            GoalRef::Extern(name) => self.catalog.lookup(name@).modes@.map_values(
                |mode: ModeDef| self.mode_alternative(index, mode),
            ),
            GoalRef::Derived(id) => in_order(self.supports[id.0 as int]).map_values(
                |pattern: Seq<bool>| self.pattern_alternative(index, pattern),
            ),
            GoalRef::Builtin(id) => seq![
                AlternativeView {
                    signature: self.signature(
                        index,
                        required(self.program.builtins@[id.0 as int].pattern@),
                    ),
                    via: "builtin"@,
                    cost: Some(CostClass::C0),
                    is_scan: false,
                    denied: false,
                },
            ],
            GoalRef::Input(_) => Seq::empty(),
        }
    }

    /// The goal never scans: scans are denied, or it is negated.
    pub open spec fn never_scans(self, index: int) -> bool {
        self.deny_scans || self.goal(index).negated
    }

    /// What the modes that the goal may run under lack, mode by mode.
    pub open spec fn mode_unlocks(self, index: int, modes: Seq<ModeDef>) -> Seq<UnlockView>
        decreases modes.len(),
    {
        if modes.len() == 0 {
            Seq::empty()
        } else {
            let rest = self.mode_unlocks(index, modes.drop_last());
            let last = modes.last();
            if self.never_scans(index) && last.access is Scan {
                rest
            } else {
                rest.push(
                    UnlockView {
                        names: self.lacking(index, required(last.pattern@)),
                        cost: last.cost,
                    },
                )
            }
        }
    }

    /// Each of the first `upto` arguments that is not bound, by itself.
    pub open spec fn single_unlocks(self, index: int, upto: int) -> Seq<UnlockView>
        decreases upto,
    {
        if upto <= 0 {
            Seq::empty()
        } else {
            let rest = self.single_unlocks(index, upto - 1);
            if self.flags(index)[upto - 1] {
                rest
            } else {
                rest.push(
                    UnlockView {
                        names: seq![self.rule.term_text(self.goal(index).args@[upto - 1])],
                        cost: CostClass::C1,
                    },
                )
            }
        }
    }

    /// What a call under the pattern lacks. A negated call that lacks nothing has
    /// nothing bound: it waits for any argument.
    pub open spec fn call_unlocks(self, index: int, pattern: Seq<bool>) -> Seq<UnlockView> {
        let names = self.lacking(index, pattern);
        if self.goal(index).negated && names.len() == 0 {
            self.single_unlocks(index, self.goal(index).args@.len() as int)
        } else {
            seq![UnlockView { names, cost: CostClass::C1 }]
        }
    }

    /// What calls of a derived predicate lack, pattern by pattern.
    pub open spec fn pattern_unlocks(self, index: int, patterns: Seq<Seq<bool>>) -> Seq<UnlockView>
        decreases patterns.len(),
    {
        if patterns.len() == 0 {
            Seq::empty()
        } else {
            self.pattern_unlocks(index, patterns.drop_last()) + self.call_unlocks(
                index,
                patterns.last(),
            )
        }
    }

    /// What a builtin needs: all arguments where the goal is negated.
    pub open spec fn builtin_need(self, index: int, pattern: Seq<Binding>) -> Seq<bool> {
        Seq::new(pattern.len(), |i: int| pattern[i] is Bound || self.goal(index).negated)
    }

    /// What the goal's access paths lack, in order of declaration.
    pub open spec fn path_unlocks(self, index: int) -> Seq<UnlockView> {
        match self.goal(index).target {
            GoalRef::Extern(name) => self.mode_unlocks(index, self.catalog.lookup(name@).modes@),
            GoalRef::Derived(id) => self.pattern_unlocks(
                index,
                in_order(self.supports[id.0 as int]),
            ),
            GoalRef::Builtin(id) => seq![
                UnlockView {
                    names: self.lacking(
                        index,
                        self.builtin_need(index, self.program.builtins@[id.0 as int].pattern@),
                    ),
                    cost: CostClass::C0,
                },
            ],
            GoalRef::Input(_) => seq![
                UnlockView {
                    names: self.lacking(
                        index,
                        Seq::new(self.goal(index).args@.len(), |i: int| false),
                    ),
                    cost: CostClass::C0,
                },
            ],
        }
    }

    /// The minimal sets of bindings that would unblock the goal, those of the
    /// cheapest path first.
    pub open spec fn unlock_sets(self, index: int) -> Seq<Seq<Seq<char>>> {
        unlock_names(best_unlocks(self.path_unlocks(index)))
    }

    /// Some mode that is not denied lacks a `Def`.
    pub open spec fn lacks_def(self, index: int, p: PredicateDef, m: int) -> bool {
        &&& 0 <= m < p.modes@.len()
        &&& !(self.deny_scans && p.modes@[m].access is Scan)
        &&& exists|i: int|
            0 <= i < self.goal(index).args@.len() && (#[trigger] required(p.modes@[m].pattern@)[i])
                && !self.flags(index)[i] && p.args@[i].ty is Def
    }

    pub open spec fn needs_def(self, index: int) -> bool {
        self.goal(index).target matches GoalRef::Extern(name) && exists|m: int| #[trigger]
            self.lacks_def(index, self.catalog.lookup(name@), m)
    }

    /// Scan mode `m` would have satisfied the goal.
    pub open spec fn scan_fits(self, index: int, p: PredicateDef, m: int) -> bool {
        !self.goal(index).negated && usable_mode(p, self.flags(index), false, m)
            && p.modes@[m].access is Scan
    }

    /// A scan mode would have satisfied the goal, but scans are denied.
    pub open spec fn scans_denied(self, index: int) -> bool {
        self.deny_scans && (self.goal(index).target matches GoalRef::Extern(name) && exists|m: int|
            #[trigger] self.scan_fits(index, self.catalog.lookup(name@), m))
    }

    /// The full account of the goal to blame.
    pub open spec fn account(self, index: int) -> UnsatisfiableView {
        UnsatisfiableView {
            goal: self.program.goal_text(&self.rule, &self.goal(index)),
            bound: self.bound_names(index, self.goal(index).args@.len() as int),
            alternatives: self.alternatives(index),
            unlock_sets: self.unlock_sets(index),
            seed_hint: if self.needs_def(index) {
                def_seed_names(self.catalog@)
            } else {
                Seq::empty()
            },
            scans_denied: self.scans_denied(index),
            location: match self.owner {
                Some(owner) => Some(
                    GoalLocation {
                        predicate: owner.predicate,
                        rule_index: owner.rule_index,
                        source_index: index as usize,
                    },
                ),
                None => None,
            },
        }
    }

    /// The plan error for the stuck rule: the refused scan where a goal only
    /// scans could serve is stuck under scan denial, else the full account of
    /// the goal to blame.
    pub open spec fn error(self) -> PlanErrorView {
        if exists|i: int| self.is_first_refused_scan(i) {
            let i = choose|i: int| self.is_first_refused_scan(i);
            let name = self.goal(i).target->Extern_0@;
            PlanErrorView::ScanDenied {
                predicate: name,
                cost: cheapest(self.catalog.lookup(name).modes@),
            }
        } else {
            let i = choose|i: int| self.is_to_blame(i);
            PlanErrorView::UnsatisfiableModes(self.account(i))
        }
    }
}

/// The number of positions that are needed and not bound.
fn count_missing(need: &Pattern, flags: &Pattern) -> (r: usize)
    ensures
        r == missing_count(need@, flags@),
        r <= need@.len(),
{
    let wanted = need.flags();
    let marks = flags.flags();
    let mut count: usize = 0;
    let mut i: usize = 0;
    while i < wanted.len()
        invariant
            i <= wanted@.len(),
            count <= i,
            count == missing_count(wanted@.take(i as int), marks@),
        decreases wanted.len() - i,
    {
        proof {
            assert(wanted@.take(i + 1).drop_last() =~= wanted@.take(i as int));
        }
        if i < marks.len() && wanted[i] && !marks[i] {
            count += 1;
        }
        i += 1;
    }
    assert(wanted@.take(i as int) =~= wanted@);
    count
}

/// The smaller of two distances, where there are two.
fn pick_nearer(a: Option<usize>, b: usize) -> (r: Option<usize>)
    ensures
        r is Some,
        nearer(
            match a {
                Some(x) => Some(x as nat),
                None => None,
            },
            b as nat,
        ) == Some(r->0 as nat),
{
    match a {
        Some(x) => Some(
            if x < b {
                x
            } else {
                b
            },
        ),
        None => Some(b),
    }
}

/// An optional size as a natural number.
spec fn as_nat(value: Option<usize>) -> Option<nat> {
    match value {
        Some(x) => Some(x as nat),
        None => None,
    }
}

/// The fewest bindings that some mode lacks; denied scans do not count.
fn find_nearest_mode(modes: &[ModeDef], flags: &Pattern, deny_scans: bool) -> (r: Option<usize>)
    ensures
        as_nat(r) == nearest_mode(modes@, flags@, deny_scans),
{
    let mut best: Option<usize> = None;
    let mut i: usize = 0;
    while i < modes.len()
        invariant
            i <= modes@.len(),
            as_nat(best) == nearest_mode(modes@.take(i as int), flags@, deny_scans),
        decreases modes.len() - i,
    {
        proof {
            assert(modes@.take(i + 1).drop_last() =~= modes@.take(i as int));
        }
        let mode = &modes[i];
        if !(deny_scans && matches!(mode.access, AccessKind::Scan)) {
            best = pick_nearer(best, count_missing(&Pattern::from_bindings(mode.pattern), flags));
        }
        i += 1;
    }
    assert(modes@.take(i as int) =~= modes@);
    best
}

/// The fewest bindings that some pattern lacks.
fn find_nearest_pattern(patterns: &PatternSet, flags: &Pattern) -> (r: Option<usize>)
    ensures
        as_nat(r) == nearest_pattern(patterns.listed(), flags@),
{
    let mut best: Option<usize> = None;
    let mut i: usize = 0;
    while i < patterns.len()
        invariant
            i <= patterns.listed().len(),
            as_nat(best) == nearest_pattern(patterns.listed().take(i as int), flags@),
        decreases patterns.listed().len() - i,
    {
        proof {
            assert(patterns.listed().take(i + 1).drop_last() =~= patterns.listed().take(i as int));
        }
        best = pick_nearer(best, count_missing(patterns.at(i), flags));
        i += 1;
    }
    assert(patterns.listed().take(i as int) =~= patterns.listed());
    best
}

/// The cheapest cost among some modes.
fn cheapest_cost(modes: &[ModeDef]) -> (r: CostClass)
    ensures
        r == cheapest(modes@),
{
    let mut cost = CostClass::C4;
    let mut i: usize = 0;
    while i < modes.len()
        invariant
            i <= modes@.len(),
            cost == cheapest(modes@.take(i as int)),
        decreases modes.len() - i,
    {
        proof {
            assert(modes@.take(i + 1).drop_last() =~= modes@.take(i as int));
        }
        if modes[i].cost.less_than(cost) {
            cost = modes[i].cost;
        }
        i += 1;
    }
    assert(modes@.take(i as int) =~= modes@);
    cost
}

/// Whether every mode is a scan.
fn all_scans(modes: &[ModeDef]) -> (r: bool)
    ensures
        r == only_scans(modes@),
{
    let mut i: usize = 0;
    while i < modes.len()
        invariant
            i <= modes@.len(),
            forall|m: int| 0 <= m < i ==> (#[trigger] modes@[m]).access is Scan,
        decreases modes.len() - i,
    {
        if !matches!(modes[i].access, AccessKind::Scan) {
            return false;
        }
        i += 1;
    }
    true
}

/// Whether a mode can bind a `Def` from inputs that are no `Def`.
fn mode_seeds_def(mode: &ModeDef, args: &[ArgDef]) -> (r: bool)
    ensures
        r == seeds_def(*mode, args@),
{
    if !matches!(mode.access, AccessKind::Keyed) {
        return false;
    }
    let mut found = false;
    let mut i: usize = 0;
    while i < mode.pattern.len() && i < args.len()
        invariant
            i <= mode.pattern@.len(),
            i <= args@.len(),
            forall|j: int|
                0 <= j < i && (#[trigger] mode.pattern@[j]) is Bound ==> !(args@[j].ty is Def),
            found <==> exists|j: int|
                0 <= j < i && (#[trigger] mode.pattern@[j]) is Free && args@[j].ty is Def,
        decreases mode.pattern.len() - i,
    {
        let is_def = args[i].ty.is_def();
        match mode.pattern[i] {
            Binding::Bound => {
                if is_def {
                    assert(mode.pattern@[i as int] is Bound);
                    return false;
                }
            },
            Binding::Free => {
                if is_def {
                    assert(mode.pattern@[i as int] is Free);
                    found = true;
                }
            },
        }
        i += 1;
    }
    found
}

/// Catalog predicates that can bind a `Def` from inputs that are no `Def`,
/// derived from the declared modes.
pub fn def_seed_predicates(catalog: &Catalog) -> (r: Vec<&'static str>)
    ensures
        str_texts(r@) == def_seed_names(catalog@),
{
    let entries = catalog.entries();
    let mut out: Vec<&'static str> = Vec::new();
    let mut i: usize = 0;
    assert(str_texts(out@) =~= def_seed_names(entries@.take(0)));
    while i < entries.len()
        invariant
            i <= entries@.len(),
            str_texts(out@) == def_seed_names(entries@.take(i as int)),
        decreases entries.len() - i,
    {
        let entry = &entries[i];
        let mut found = false;
        let mut m: usize = 0;
        while m < entry.modes.len()
            invariant
                m <= entry.modes@.len(),
                found <==> exists|k: int|
                    0 <= k < m && seeds_def(#[trigger] entry.modes@[k], entry.args@),
            decreases entry.modes.len() - m,
        {
            if mode_seeds_def(&entry.modes[m], entry.args) {
                assert(seeds_def(entry.modes@[m as int], entry.args@));
                found = true;
            }
            m += 1;
        }
        proof {
            assert(entries@.take(i + 1).drop_last() =~= entries@.take(i as int));
            assert(found == is_def_seed(entries@[i as int]));
        }
        let ghost before = out@;
        if found {
            out.push(entry.name);
            assert(str_texts(out@) =~= str_texts(before).push(entry.name@));
        }
        i += 1;
    }
    assert(entries@.take(i as int) =~= entries@);
    out
}

/// The positions that are needed, or all.
fn with_all(need: &Pattern, all: bool) -> (r: Pattern)
    ensures
        r@ == Seq::new(need@.len(), |i: int| need@[i] || all),
{
    let flags = need.flags();
    let mut marks: Vec<bool> = Vec::new();
    let mut i: usize = 0;
    while i < flags.len()
        invariant
            flags@ == need@,
            i <= flags@.len(),
            marks@.len() == i,
            forall|k: int| 0 <= k < i ==> #[trigger] marks@[k] == (need@[k] || all),
        decreases flags.len() - i,
    {
        marks.push(flags[i] || all);
        i += 1;
    }
    assert(marks@ =~= Seq::new(need@.len(), |i: int| need@[i] || all));
    Pattern::from(marks)
}

/// A stuck rule and where it got stuck.
pub struct Blame<'p> {
    pub task: OrderTask<'p>,
    pub owner: Option<RuleOwner>,
    pub failure: &'p OrderFailure,
}

impl<'p> Blame<'p> {
    /// The case at hand.
    pub open spec fn case(&self) -> BlameCase {
        BlameCase {
            program: *self.task.program,
            catalog: *self.task.catalog,
            supports: support_sets(self.task.supports@),
            deny_scans: self.task.deny_scans,
            rule: *self.task.rule,
            owner: self.owner,
            bound: bound_set(self.failure.bound@),
            stuck: self.failure.remaining@.map_values(|i: usize| i as int).to_set(),
        }
    }

    /// The rule, the catalog and the supports are valid, and some goal of the
    /// rule is stuck.
    pub open spec fn wf(&self) -> bool {
        &&& self.task.wf()
        &&& self.task.catalog.wf()
        &&& forall|p: int|
            0 <= p < self.task.supports@.len() ==> (#[trigger] self.task.supports@[p]).wf()
        &&& forall|p: int, x: Seq<bool>|
            0 <= p < self.task.supports@.len() && #[trigger] self.task.supports@[p]@.contains(x)
                ==> x.len() == self.task.program.derived@[p].arity
        &&& self.failure.bound@.len() == self.task.rule.vars@.len()
        &&& self.failure.remaining@.len() > 0
        &&& forall|i: int, j: int|
            0 <= i < j < self.failure.remaining@.len() ==> self.failure.remaining@[i]
                < self.failure.remaining@[j]
        &&& forall|i: int|
            0 <= i < self.failure.remaining@.len() ==> #[trigger] self.failure.remaining@[i]
                < self.task.rule.body@.len()
    }

    proof fn lemma_goal(&self, index: int)
        requires
            self.wf(),
            0 <= index < self.task.rule.body@.len(),
        ensures
            goal_wf(
                *self.task.program,
                *self.task.catalog,
                *self.task.rule,
                self.task.rule.body@[index],
            ),
            self.case().goal(index) == self.task.rule.body@[index],
    {
        assert(goal_wf(
            *self.task.program,
            *self.task.catalog,
            *self.task.rule,
            self.task.rule.body@[index],
        ));
    }

    /// The catalog entry of an extern goal.
    fn entry(&self, name: &String) -> (r: &'static PredicateDef)
        requires
            self.wf(),
            self.task.catalog.has(name@),
        ensures
            *r == self.task.catalog.lookup(name@),
            r.wf(),
    {
        let entry = self.task.catalog.predicate(name.as_str()).unwrap();
        proof {
            let i = choose|i: int|
                0 <= i < self.task.catalog@.len() && self.task.catalog@[i] == *entry;
            assert(self.task.catalog@[i].wf());
        }
        entry
    }

    fn flags(&self, index: usize) -> (r: Pattern)
        requires
            self.wf(),
            index < self.task.rule.body@.len(),
        ensures
            r@ == self.case().flags(index as int),
            r@.len() == self.task.rule.body@[index as int].args@.len(),
    {
        proof {
            self.lemma_goal(index as int);
        }
        bound_flags(&self.task.rule.body[index].args, &self.failure.bound)
    }

    /// The first refused scan, if any.
    fn refused_scan(&self) -> (r: Option<PlanError>)
        requires
            self.wf(),
        ensures
            match r {
                Some(error) => exists|i: int|
                    self.case().is_first_refused_scan(i) && error@ == self.case().error(),
                None => !exists|i: int| self.case().is_first_refused_scan(i),
            },
    {
        let ghost case = self.case();
        if !self.task.deny_scans {
            return None;
        }
        let mut k: usize = 0;
        while k < self.failure.remaining.len()
            invariant
                k <= self.failure.remaining@.len(),
                self.wf(),
                case == self.case(),
                case.deny_scans,
                forall|j: int|
                    0 <= j < k ==> !case.is_refused_scan(
                        (#[trigger] self.failure.remaining@[j]) as int,
                    ),
            decreases self.failure.remaining.len() - k,
        {
            let index: usize = self.failure.remaining[k];
            let goal = &self.task.rule.body[index];
            proof {
                self.lemma_goal(index as int);
                self.lemma_stuck_member(k as int);
            }
            if !goal.negated {
                if let GoalRef::Extern(name) = &goal.target {
                    let entry = self.entry(name);
                    if all_scans(entry.modes) {
                        let error = PlanError::ScanDenied {
                            predicate: name.clone(),
                            cost: cheapest_cost(entry.modes),
                        };
                        proof {
                            let i = index as int;
                            assert(case.is_refused_scan(i));
                            assert forall|l: int| #[trigger] case.is_refused_scan(l) implies i
                                <= l by {
                                let j = self.lemma_stuck_index(l);
                                if j < k {
                                    assert(!case.is_refused_scan(
                                        self.failure.remaining@[j] as int,
                                    ));
                                }
                            }
                            assert(case.is_first_refused_scan(i));
                            let c = choose|i: int| case.is_first_refused_scan(i);
                            assert(c == i);
                            assert(error@ == case.error());
                        }
                        return Some(error);
                    }
                }
            }
            k += 1;
        }
        proof {
            assert forall|i: int| !case.is_first_refused_scan(i) by {
                if case.is_first_refused_scan(i) {
                    let j = self.lemma_stuck_index(i);
                    assert(!case.is_refused_scan(self.failure.remaining@[j] as int));
                }
            }
        }
        None
    }

    proof fn lemma_stuck_member(&self, k: int)
        requires
            0 <= k < self.failure.remaining@.len(),
        ensures
            self.case().stuck.contains(self.failure.remaining@[k] as int),
    {
        let indices = self.failure.remaining@.map_values(|i: usize| i as int);
        assert(indices[k] == self.failure.remaining@[k]);
    }

    proof fn lemma_stuck_index(&self, index: int) -> (k: int)
        requires
            self.case().stuck.contains(index),
        ensures
            0 <= k < self.failure.remaining@.len(),
            self.failure.remaining@[k] == index,
    {
        let indices = self.failure.remaining@.map_values(|i: usize| i as int);
        let k = choose|k: int| 0 <= k < indices.len() && indices[k] == index;
        k
    }

    /// The fewest additional bindings that some access path of a goal needs.
    fn distance(&self, index: usize) -> (r: usize)
        requires
            self.wf(),
            index < self.task.rule.body@.len(),
        ensures
            r == self.case().distance(index as int),
    {
        proof {
            self.lemma_goal(index as int);
        }
        let goal = &self.task.rule.body[index];
        let flags = self.flags(index);
        let nearest = match &goal.target {
            GoalRef::Extern(name) => {
                let entry = self.entry(name);
                find_nearest_mode(entry.modes, &flags, self.task.deny_scans)
            },
            GoalRef::Derived(id) => {
                let set = &self.task.supports[id.0];
                proof {
                    assert(self.task.supports@[id.0 as int].wf());
                    set.lemma_listed();
                    assert(self.case().supports[id.0 as int] == set@);
                }
                find_nearest_pattern(set, &flags)
            },
            GoalRef::Builtin(id) => {
                let need = Pattern::from_bindings(
                    self.task.program.builtins[id.0].pattern.as_slice(),
                );
                Some(count_missing(&need, &flags))
            },
            GoalRef::Input(_) => None,
        };
        let own: usize = match nearest {
            Some(count) => count,
            None => usize::MAX,
        };
        let shared: usize = if goal.negated {
            shared_unbound(self.task.rule, index, &self.failure.bound).len()
        } else {
            0
        };
        if own < shared {
            shared
        } else {
            own
        }
    }

    /// The goal to blame.
    fn offending(&self) -> (r: usize)
        requires
            self.wf(),
        ensures
            r < self.task.rule.body@.len(),
            self.case().is_to_blame(r as int),
    {
        let remaining = &self.failure.remaining;
        let mut best: usize = remaining[0];
        let mut best_distance: usize = self.distance(best);
        let mut at: usize = 0;
        let mut k: usize = 1;
        while k < remaining.len()
            invariant
                self.wf(),
                *remaining == self.failure.remaining,
                at < k <= remaining@.len(),
                best == remaining@[at as int],
                best_distance == self.case().distance(best as int),
                forall|j: int|
                    0 <= j < k ==> {
                        let other = (#[trigger] remaining@[j]) as int;
                        best_distance < self.case().distance(other) || (best_distance
                            == self.case().distance(other) && best <= other)
                    },
            decreases remaining.len() - k,
        {
            let other: usize = remaining[k];
            let distance: usize = self.distance(other);
            if distance < best_distance {
                best = other;
                best_distance = distance;
                at = k;
            }
            k += 1;
        }
        proof {
            self.lemma_stuck_member(at as int);
            assert forall|l: int| #[trigger] self.case().stuck.contains(l) implies (
            self.case().distance(best as int) < self.case().distance(l) || (self.case().distance(
                best as int,
            ) == self.case().distance(l) && best <= l)) by {
                let j = self.lemma_stuck_index(l);
                assert(remaining@[j] == l);
            }
        }
        best
    }

    /// The names of all arguments that an access path waits for.
    fn missing(&self, index: usize, need: &Pattern, flags: &Pattern) -> (r: Vec<String>)
        requires
            self.wf(),
            index < self.task.rule.body@.len(),
            need@.len() == self.task.rule.body@[index as int].args@.len(),
            flags@ == self.case().flags(index as int),
        ensures
            texts(r@) == self.case().lacking(index as int, need@),
    {
        proof {
            self.lemma_goal(index as int);
        }
        let goal = &self.task.rule.body[index];
        let args = &goal.args;
        let mut out: Vec<String> = Vec::new();
        let mut i: usize = 0;
        assert(texts(out@) =~= self.case().missing_names(index as int, need@, 0));
        while i < args.len()
            invariant
                i <= args@.len(),
                self.wf(),
                index < self.task.rule.body@.len(),
                *goal == self.task.rule.body@[index as int],
                args@ == goal.args@,
                terms_in_range(args@, self.task.rule.vars@.len()),
                need@.len() == args@.len(),
                flags@.len() == args@.len(),
                flags@ == self.case().flags(index as int),
                texts(out@) == self.case().missing_names(index as int, need@, i as int),
            decreases args.len() - i,
        {
            let ghost before = out@;
            assert(match args@[i as int] {
                Term::Var(var) => var.0 < self.task.rule.vars@.len(),
                Term::Const => true,
            });
            let shared = match args[i] {
                Term::Var(var) => occurs_outside(self.task.rule, index, var),
                Term::Const => false,
            };
            if !flags.is_bound(i) && (need.is_bound(i) || (goal.negated && shared)) {
                out.push(self.task.rule.term_name(args[i]));
                assert(texts(out@) =~= texts(before).push(
                    self.task.rule.term_text(args@[i as int]),
                ));
            }
            i += 1;
        }
        out
    }

    /// The names of the arguments that are bound.
    fn bound_args(&self, index: usize, flags: &Pattern) -> (r: Vec<String>)
        requires
            self.wf(),
            index < self.task.rule.body@.len(),
            flags@ == self.case().flags(index as int),
        ensures
            texts(r@) == self.case().bound_names(
                index as int,
                self.task.rule.body@[index as int].args@.len() as int,
            ),
    {
        proof {
            self.lemma_goal(index as int);
        }
        let args = &self.task.rule.body[index].args;
        let mut out: Vec<String> = Vec::new();
        let mut i: usize = 0;
        assert(texts(out@) =~= self.case().bound_names(index as int, 0));
        while i < args.len()
            invariant
                i <= args@.len(),
                self.wf(),
                index < self.task.rule.body@.len(),
                args@ == self.task.rule.body@[index as int].args@,
                terms_in_range(args@, self.task.rule.vars@.len()),
                flags@.len() == args@.len(),
                flags@ == self.case().flags(index as int),
                texts(out@) == self.case().bound_names(index as int, i as int),
            decreases args.len() - i,
        {
            let ghost before = out@;
            assert(match args@[i as int] {
                Term::Var(var) => var.0 < self.task.rule.vars@.len(),
                Term::Const => true,
            });
            if flags.is_bound(i) {
                out.push(self.task.rule.term_name(args[i]));
                assert(texts(out@) =~= texts(before).push(
                    self.task.rule.term_text(args@[i as int]),
                ));
            }
            i += 1;
        }
        out
    }

    /// A mode over the goal's own argument names.
    fn render_signature(&self, index: usize, need: &Pattern) -> (r: String)
        requires
            self.wf(),
            index < self.task.rule.body@.len(),
            need@.len() == self.task.rule.body@[index as int].args@.len(),
        ensures
            r@ == self.case().signature(index as int, need@),
    {
        proof {
            self.lemma_goal(index as int);
        }
        let goal = &self.task.rule.body[index];
        let ghost parts = Seq::new(
            goal.args@.len(),
            |i: int|
                if need@[i] {
                    "+"@ + self.task.rule.term_text(goal.args@[i])
                } else {
                    "-"@
                },
        );
        let mut names: Vec<String> = Vec::new();
        let mut i: usize = 0;
        while i < goal.args.len()
            invariant
                i <= goal.args@.len(),
                terms_in_range(goal.args@, self.task.rule.vars@.len()),
                need@.len() == goal.args@.len(),
                names@.len() == i,
                parts == Seq::new(
                    goal.args@.len(),
                    |i: int|
                        if need@[i] {
                            "+"@ + self.task.rule.term_text(goal.args@[i])
                        } else {
                            "-"@
                        },
                ),
                forall|j: int| 0 <= j < i ==> (#[trigger] names@[j])@ == parts[j],
            decreases goal.args.len() - i,
        {
            assert(match goal.args@[i as int] {
                Term::Var(var) => var.0 < self.task.rule.vars@.len(),
                Term::Const => true,
            });
            if need.is_bound(i) {
                names.push(cat2("+", self.task.rule.term_name(goal.args[i]).as_str()));
            } else {
                names.push("-".to_owned());
            }
            i += 1;
        }
        assert(texts(names@) =~= parts);
        let mut out = self.task.program.target_name(&goal.target).to_owned();
        out.append("(");
        out.append(join_strings(&names, ", ").as_str());
        out.append(")");
        out
    }

    /// The alternatives of an extern goal and what would unblock each; whether
    /// a scan is denied and whether a `Def` is lacking.
    fn extern_account(&self, index: usize, entry: &'static PredicateDef, flags: &Pattern) -> (r: (
        Vec<ModeAlternative>,
        Vec<Unlock>,
        bool,
        bool,
    ))
        requires
            self.wf(),
            index < self.task.rule.body@.len(),
            flags@ == self.case().flags(index as int),
            entry.wf(),
            entry.args@.len() == self.task.rule.body@[index as int].args@.len(),
        ensures
            alternative_views(r.0@) == entry.modes@.map_values(
                |mode: ModeDef| self.case().mode_alternative(index as int, mode),
            ),
            unlock_views(r.1@) == self.case().mode_unlocks(index as int, entry.modes@),
            r.2 == (self.task.deny_scans && exists|m: int| #[trigger]
                self.case().scan_fits(index as int, *entry, m)),
            r.3 == exists|m: int| #[trigger] self.case().lacks_def(index as int, *entry, m),
    {
        let ghost case = self.case();
        let mut alternatives: Vec<ModeAlternative> = Vec::new();
        let mut unlocks: Vec<Unlock> = Vec::new();
        let mut scans_denied = false;
        let mut needs_def = false;
        let mut m: usize = 0;
        proof {
            self.lemma_goal(index as int);
            assert(unlock_views(unlocks@) =~= case.mode_unlocks(
                index as int,
                entry.modes@.take(0),
            ));
        }
        let negated = self.task.rule.body[index].negated;
        while m < entry.modes.len()
            invariant
                m <= entry.modes@.len(),
                self.wf(),
                case == self.case(),
                index < self.task.rule.body@.len(),
                flags@ == case.flags(index as int),
                entry.wf(),
                entry.args@.len() == self.task.rule.body@[index as int].args@.len(),
                alternatives@.len() == m,
                forall|j: int|
                    0 <= j < m ==> (#[trigger] alternatives@[j])@ == case.mode_alternative(
                        index as int,
                        entry.modes@[j],
                    ),
                negated == self.task.rule.body@[index as int].negated,
                unlock_views(unlocks@) == case.mode_unlocks(
                    index as int,
                    entry.modes@.take(m as int),
                ),
                scans_denied == (self.task.deny_scans && exists|j: int|
                    j < m && #[trigger] case.scan_fits(index as int, *entry, j)),
                needs_def == exists|j: int| j < m && #[trigger] case.lacks_def(
                    index as int,
                    *entry,
                    j,
                ),
            decreases entry.modes.len() - m,
        {
            let mode = &entry.modes[m];
            assert(entry.modes@[m as int].pattern@.len() == entry.args@.len());
            let need = Pattern::from_bindings(mode.pattern);
            let is_scan = matches!(mode.access, AccessKind::Scan);
            let denied = self.task.deny_scans && is_scan;
            proof {
                assert(entry.modes@.take(m + 1).drop_last() =~= entry.modes@.take(m as int));
                assert(case.goal(index as int) == self.task.rule.body@[index as int]);
            }
            if denied && !negated && mode.satisfied_by(flags) {
                assert(case.scan_fits(index as int, *entry, m as int));
                scans_denied = true;
            }
            if !(is_scan && (self.task.deny_scans || negated)) {
                let ghost before = unlock_views(unlocks@);
                let names = self.missing(index, &need, flags);
                unlocks.push(Unlock { names, cost: mode.cost });
                assert(unlock_views(unlocks@) =~= before.push(
                    UnlockView {
                        names: case.lacking(index as int, required(mode.pattern@)),
                        cost: mode.cost,
                    },
                ));
            }
            if denied {
                assert(!case.lacks_def(index as int, *entry, m as int));
            } else {
                let mut lacking = false;
                let mut i: usize = 0;
                while i < entry.args.len()
                    invariant
                        i <= entry.args@.len(),
                        need@.len() == entry.args@.len(),
                        flags@.len() == entry.args@.len(),
                        lacking <==> exists|j: int|
                            0 <= j < i && (#[trigger] need@[j]) && !flags@[j] && entry.args@[j].ty is Def,
                    decreases entry.args.len() - i,
                {
                    if need.is_bound(i) && !flags.is_bound(i) && entry.args[i].ty.is_def() {
                        assert(need@[i as int]);
                        lacking = true;
                    }
                    i += 1;
                }
                assert(lacking == case.lacks_def(index as int, *entry, m as int));
                if lacking {
                    needs_def = true;
                }
            }
            alternatives.push(
                ModeAlternative {
                    signature: self.render_signature(index, &need),
                    via: mode.operator.label(),
                    cost: Some(mode.cost),
                    is_scan,
                    denied,
                },
            );
            m += 1;
        }
        proof {
            assert(entry.modes@.take(m as int) =~= entry.modes@);
            assert(alternative_views(alternatives@) =~= entry.modes@.map_values(
                |mode: ModeDef| case.mode_alternative(index as int, mode),
            ));
            assert forall|j: int| #[trigger] case.lacks_def(index as int, *entry, j) implies j
                < m by {}
            assert forall|j: int| #[trigger] case.scan_fits(index as int, *entry, j) implies j
                < m by {}
        }
        (alternatives, unlocks, scans_denied, needs_def)
    }

    /// Adds what a call under the pattern lacks.
    fn push_call(&self, unlocks: &mut Vec<Unlock>, index: usize, pattern: &Pattern, flags: &Pattern)
        requires
            self.wf(),
            index < self.task.rule.body@.len(),
            pattern@.len() == self.task.rule.body@[index as int].args@.len(),
            flags@ == self.case().flags(index as int),
        ensures
            unlock_views(final(unlocks)@) == unlock_views(old(unlocks)@)
                + self.case().call_unlocks(index as int, pattern@),
    {
        let ghost case = self.case();
        let ghost start = unlock_views(unlocks@);
        let goal = &self.task.rule.body[index];
        let names = self.missing(index, pattern, flags);
        assert(texts(names@).len() == names@.len());
        if !goal.negated || names.len() > 0 {
            unlocks.push(Unlock { names, cost: CostClass::C1 });
            assert(unlock_views(unlocks@) =~= start + case.call_unlocks(index as int, pattern@));
            return;
        }
        proof {
            self.lemma_goal(index as int);
        }
        let mut i: usize = 0;
        assert(start + case.single_unlocks(index as int, 0) =~= start);
        while i < goal.args.len()
            invariant
                i <= goal.args@.len(),
                self.wf(),
                case == self.case(),
                start == unlock_views(old(unlocks)@),
                index < self.task.rule.body@.len(),
                *goal == self.task.rule.body@[index as int],
                terms_in_range(goal.args@, self.task.rule.vars@.len()),
                flags@.len() == goal.args@.len(),
                flags@ == case.flags(index as int),
                unlock_views(unlocks@) == start + case.single_unlocks(index as int, i as int),
            decreases goal.args.len() - i,
        {
            assert(match goal.args@[i as int] {
                Term::Var(var) => var.0 < self.task.rule.vars@.len(),
                Term::Const => true,
            });
            if !flags.is_bound(i) {
                let ghost before = unlock_views(unlocks@);
                let mut single: Vec<String> = Vec::new();
                single.push(self.task.rule.term_name(goal.args[i]));
                assert(texts(single@) =~= seq![self.task.rule.term_text(goal.args@[i as int])]);
                let item = Unlock { names: single, cost: CostClass::C1 };
                let ghost shown = item@;
                unlocks.push(item);
                assert(unlock_views(unlocks@) =~= before.push(shown));
                assert(before.push(shown) =~= start + case.single_unlocks(
                    index as int,
                    i + 1,
                ));
            }
            i += 1;
        }
    }

    /// The alternatives of a derived goal and what would unblock each.
    fn derived_account(&self, index: usize, set: &PatternSet, flags: &Pattern) -> (r: (
        Vec<ModeAlternative>,
        Vec<Unlock>,
    ))
        requires
            self.wf(),
            index < self.task.rule.body@.len(),
            flags@ == self.case().flags(index as int),
            forall|k: int|
                0 <= k < set.listed().len() ==> (#[trigger] set.listed()[k]).len()
                    == self.task.rule.body@[index as int].args@.len(),
        ensures
            alternative_views(r.0@) == set.listed().map_values(
                |pattern: Seq<bool>| self.case().pattern_alternative(index as int, pattern),
            ),
            unlock_views(r.1@) == self.case().pattern_unlocks(index as int, set.listed()),
    {
        let ghost case = self.case();
        let ghost listed = set.listed();
        let mut alternatives: Vec<ModeAlternative> = Vec::new();
        let mut unlocks: Vec<Unlock> = Vec::new();
        let mut k: usize = 0;
        assert(unlock_views(unlocks@) =~= case.pattern_unlocks(index as int, listed.take(0)));
        while k < set.len()
            invariant
                k <= listed.len(),
                listed == set.listed(),
                self.wf(),
                case == self.case(),
                index < self.task.rule.body@.len(),
                flags@ == case.flags(index as int),
                forall|j: int|
                    0 <= j < listed.len() ==> (#[trigger] listed[j]).len()
                        == self.task.rule.body@[index as int].args@.len(),
                alternatives@.len() == k,
                forall|j: int|
                    0 <= j < k ==> (#[trigger] alternatives@[j])@ == case.pattern_alternative(
                        index as int,
                        listed[j],
                    ),
                unlock_views(unlocks@) == case.pattern_unlocks(index as int, listed.take(k as int)),
            decreases listed.len() - k,
        {
            let pattern = set.at(k);
            assert(listed.take(k + 1).drop_last() =~= listed.take(k as int));
            assert(listed[k as int].len() == self.task.rule.body@[index as int].args@.len());
            self.push_call(&mut unlocks, index, pattern, flags);
            alternatives.push(
                ModeAlternative {
                    signature: self.render_signature(index, pattern),
                    via: "derived".to_owned(),
                    cost: None,
                    is_scan: pattern.is_unseeded(),
                    denied: false,
                },
            );
            k += 1;
        }
        proof {
            assert(listed.take(k as int) =~= listed);
            assert(alternative_views(alternatives@) =~= listed.map_values(
                |pattern: Seq<bool>| case.pattern_alternative(index as int, pattern),
            ));
        }
        (alternatives, unlocks)
    }

    /// What a path without a cost of its own lacks.
    fn one_unlock(&self, index: usize, need: &Pattern, flags: &Pattern) -> (r: Vec<Unlock>)
        requires
            self.wf(),
            index < self.task.rule.body@.len(),
            need@.len() == self.task.rule.body@[index as int].args@.len(),
            flags@ == self.case().flags(index as int),
        ensures
            unlock_views(r@) == seq![
                UnlockView {
                    names: self.case().lacking(index as int, need@),
                    cost: CostClass::C0,
                },
            ],
    {
        let mut unlocks: Vec<Unlock> = Vec::new();
        let names = self.missing(index, need, flags);
        unlocks.push(Unlock { names, cost: CostClass::C0 });
        assert(unlock_views(unlocks@) =~= seq![
            UnlockView { names: self.case().lacking(index as int, need@), cost: CostClass::C0 },
        ]);
        unlocks
    }

    /// Everything the goal to blame supports, what would unblock it, whether a
    /// scan is denied, and whether a `Def` is lacking.
    fn paths_account(&self, index: usize, flags: &Pattern) -> (r: (
        Vec<ModeAlternative>,
        Vec<Unlock>,
        bool,
        bool,
    ))
        requires
            self.wf(),
            index < self.task.rule.body@.len(),
            flags@ == self.case().flags(index as int),
        ensures
            alternative_views(r.0@) == self.case().alternatives(index as int),
            unlock_views(r.1@) == self.case().path_unlocks(index as int),
            r.2 == self.case().scans_denied(index as int),
            r.3 == self.case().needs_def(index as int),
    {
        proof {
            self.lemma_goal(index as int);
        }
        let goal = &self.task.rule.body[index];
        match &goal.target {
            GoalRef::Extern(name) => {
                let entry = self.entry(name);
                self.extern_account(index, entry, flags)
            },
            GoalRef::Derived(id) => {
                let set = &self.task.supports[id.0];
                proof {
                    assert(self.task.supports@[id.0 as int].wf());
                    set.lemma_listed();
                    assert(self.case().supports[id.0 as int] == set@);
                    assert forall|k: int| 0 <= k < set.listed().len() implies (
                    #[trigger] set.listed()[k]).len() == goal.args@.len() by {
                        assert(set.listed().contains(set.listed()[k]));
                        assert(self.task.supports@[id.0 as int]@.contains(set.listed()[k]));
                    }
                }
                let (alternatives, unlocks) = self.derived_account(index, set, flags);
                (alternatives, unlocks, false, false)
            },
            GoalRef::Builtin(id) => {
                let need = Pattern::from_bindings(
                    self.task.program.builtins[id.0].pattern.as_slice(),
                );
                let wanted = with_all(&need, goal.negated);
                proof {
                    assert(wanted@ =~= self.case().builtin_need(
                        index as int,
                        self.task.program.builtins@[id.0 as int].pattern@,
                    ));
                }
                let unlocks = self.one_unlock(index, &wanted, flags);
                let mut alternatives: Vec<ModeAlternative> = Vec::new();
                alternatives.push(
                    ModeAlternative {
                        signature: self.render_signature(index, &need),
                        via: "builtin".to_owned(),
                        cost: Some(CostClass::C0),
                        is_scan: false,
                        denied: false,
                    },
                );
                assert(alternative_views(alternatives@) =~= self.case().alternatives(index as int));
                (alternatives, unlocks, false, false)
            },
            GoalRef::Input(_) => {
                let alternatives: Vec<ModeAlternative> = Vec::new();
                let wanted = Pattern::from(unbound_marks(goal.args.len()));
                assert(wanted@ =~= Seq::new(goal.args@.len(), |i: int| false));
                let unlocks = self.one_unlock(index, &wanted, flags);
                assert(alternative_views(alternatives@) =~= self.case().alternatives(index as int));
                (alternatives, unlocks, false, false)
            },
        }
    }

    /// The plan error for a stuck rule: the refused scan where a goal only
    /// scans could serve is stuck under scan denial, else the full account of
    /// the goal to blame.
    pub fn order_error(&self) -> (r: PlanError)
        requires
            self.wf(),
        ensures
            r@ == self.case().error(),
    {
        if let Some(error) = self.refused_scan() {
            return error;
        }
        let index: usize = self.offending();
        let ghost case = self.case();
        proof {
            let chosen = choose|i: int| case.is_to_blame(i);
            assert(case.is_to_blame(index as int));
            assert(case.stuck.contains(chosen) && case.stuck.contains(index as int));
            assert(chosen == index);
            self.lemma_goal(index as int);
        }
        let goal = &self.task.rule.body[index];
        let flags = self.flags(index);
        let (alternatives, unlocks, scans_denied, needs_def) = self.paths_account(index, &flags);
        let unlock_sets = name_sets(&pick_best(&unlocks));
        let seed_hint: Vec<&'static str> = if needs_def {
            def_seed_predicates(self.task.catalog)
        } else {
            Vec::new()
        };
        assert(!needs_def ==> str_texts(seed_hint@) =~= Seq::<Seq<char>>::empty());
        let location = match self.owner {
            Some(owner) => Some(
                GoalLocation {
                    predicate: owner.predicate,
                    rule_index: owner.rule_index,
                    source_index: index,
                },
            ),
            None => None,
        };
        let account = UnsatisfiableGoal {
            goal: self.task.program.render_goal(self.task.rule, goal),
            bound: self.bound_args(index, &flags),
            alternatives,
            unlock_sets,
            seed_hint,
            scans_denied,
            location,
        };
        assert(account@ == case.account(index as int));
        PlanError::UnsatisfiableModes(Box::new(account))
    }
}

} // verus!
