//! Which programs are planned and which are refused before planning.

use crate::plan::catalog::Catalog;
use crate::plan::error::PlanErrorView;
use crate::plan::logic::{terms_in_range, Goal, GoalRef, Program, Rule, Term};
use crate::plan::outcome::plan_outcome;
use crate::plan::validate::{derived_fault, first_fault, goal_fault, program_fault, rule_fault};
use vstd::prelude::*;

verus! {

/// Every variable among the terms has a name in the rule.
pub open spec fn all_named(terms: Seq<Term>, rule: Rule) -> bool {
    forall|a: int|
        0 <= a < terms.len() ==> match #[trigger] terms[a] {
            Term::Var(var) => var.0 < rule.vars@.len(),
            Term::Const => true,
        }
}

/// The goal is about something that there is, that is not disabled, and has as many
/// arguments as that has.
pub open spec fn is_about(program: Program, catalog: Catalog, goal: Goal) -> bool {
    match goal.target {
        GoalRef::Extern(name) => exists|e: int|
            0 <= e < catalog@.len() && (#[trigger] catalog@[e]).name@ == name@ && (forall|f: int|
                0 <= f < e ==> (#[trigger] catalog@[f]).name@ != name@) && !(
            catalog@[e].completeness is Disabled) && catalog@[e].args@.len() == goal.args@.len(),
        GoalRef::Derived(id) => id.0 < program.derived@.len()
            && program.derived@[id.0 as int].arity == goal.args@.len(),
        GoalRef::Input(id) => id.0 < program.inputs@.len() && program.inputs@[id.0 as int].arity
            == goal.args@.len(),
        GoalRef::Builtin(id) => id.0 < program.builtins@.len()
            && program.builtins@[id.0 as int].pattern@.len() == goal.args@.len(),
    }
}

/// The rule has at most 128 goals, all its variables have names, and each goal is about
/// something.
pub open spec fn is_valid_rule(program: Program, catalog: Catalog, rule: Rule) -> bool {
    &&& rule.body@.len() <= 128
    &&& all_named(rule.head@, rule)
    &&& forall|i: int|
        0 <= i < rule.body@.len() ==> all_named((#[trigger] rule.body@[i]).args@, rule) && is_about(
            program,
            catalog,
            rule.body@[i],
        )
}

/// The derived predicate's rules are valid and have heads of its arity, and so have the
/// modes that it declares.
pub open spec fn is_valid_derived(program: Program, catalog: Catalog, p: int) -> bool {
    let def = program.derived@[p];
    &&& forall|r: int|
        0 <= r < def.rules@.len() ==> is_valid_rule(program, catalog, #[trigger] def.rules@[r])
            && def.rules@[r].head@.len() == def.arity
    &&& def.declared_modes matches Some(modes) ==> forall|k: int|
        0 <= k < modes@.len() ==> (#[trigger] modes@[k])@.len() == def.arity
}

proof fn lemma_first_fault(faults: spec_fn(int) -> Option<PlanErrorView>, from: int, count: int)
    ensures
        first_fault(faults, from, count) is None <==> forall|i: int|
            from <= i < count ==> #[trigger] faults(i) is None,
    decreases count - from,
{
    if from < count {
        lemma_first_fault(faults, from + 1, count);
        if faults(from) is None && first_fault(faults, from + 1, count) is None {
            assert forall|i: int| from <= i < count implies #[trigger] faults(i) is None by {
                if i > from {
                    assert(faults(i) is None);
                }
            }
        }
    }
}

proof fn lemma_goal(program: Program, catalog: Catalog, goal: Goal)
    ensures
        goal_fault(program, catalog, goal) is None <==> is_about(program, catalog, goal),
{
    if let GoalRef::Extern(name) = goal.target {
        if catalog.has(name@) {
            let first = choose|i: int| #[trigger] catalog.is_first(name@, i);
            assert(catalog.is_first(name@, first));
            assert(catalog.lookup(name@) == catalog@[first]);
            if is_about(program, catalog, goal) {
                let e = choose|e: int|
                    0 <= e < catalog@.len() && (#[trigger] catalog@[e]).name@ == name@ && (forall|
                        f: int,
                    |
                        0 <= f < e ==> (#[trigger] catalog@[f]).name@ != name@) && !(
                    catalog@[e].completeness is Disabled) && catalog@[e].args@.len()
                        == goal.args@.len();
                if e < first {
                    assert(catalog@[e].name@ != name@);
                } else if first < e {
                    assert(catalog@[first].name@ != name@);
                }
            }
        } else if is_about(program, catalog, goal) {
            let e = choose|e: int|
                0 <= e < catalog@.len() && (#[trigger] catalog@[e]).name@ == name@ && (forall|
                    f: int,
                |
                    0 <= f < e ==> (#[trigger] catalog@[f]).name@ != name@) && !(
                catalog@[e].completeness is Disabled) && catalog@[e].args@.len()
                    == goal.args@.len();
            assert(catalog.is_first(name@, e));
        }
    }
}

proof fn lemma_named(terms: Seq<Term>, rule: Rule)
    ensures
        terms_in_range(terms, rule.vars@.len()) <==> all_named(terms, rule),
{
    if all_named(terms, rule) {
        assert forall|a: int| 0 <= a < terms.len() implies match #[trigger] terms[a] {
            Term::Var(var) => (var.0 as nat) < rule.vars@.len(),
            Term::Const => true,
        } by {}
    }
}

proof fn lemma_rule(program: Program, catalog: Catalog, rule: Rule, head_arity: Option<usize>)
    ensures
        rule_fault(program, catalog, rule, head_arity) is None <==> is_valid_rule(
            program,
            catalog,
            rule,
        ) && (head_arity matches Some(arity) ==> rule.head@.len() == arity),
{
    let faults = |i: int| goal_fault(program, catalog, rule.body@[i]);
    lemma_first_fault(faults, 0, rule.body@.len() as int);
    lemma_named(rule.head@, rule);
    assert forall|i: int| 0 <= i < rule.body@.len() implies (terms_in_range(
        (#[trigger] rule.body@[i]).args@,
        rule.vars@.len(),
    ) <==> all_named(rule.body@[i].args@, rule)) && (faults(i) is None <==> is_about(
        program,
        catalog,
        rule.body@[i],
    )) by {
        lemma_named(rule.body@[i].args@, rule);
        lemma_goal(program, catalog, rule.body@[i]);
    }
    if is_valid_rule(program, catalog, rule) {
        assert forall|i: int| 0 <= i < rule.body@.len() implies #[trigger] faults(i) is None by {
            assert(is_about(program, catalog, rule.body@[i]));
        }
    }
    if rule_fault(program, catalog, rule, head_arity) is None {
        assert forall|i: int| 0 <= i < rule.body@.len() implies all_named(
            (#[trigger] rule.body@[i]).args@,
            rule,
        ) && is_about(program, catalog, rule.body@[i]) by {
            assert(faults(i) is None);
        }
    }
}

proof fn lemma_derived(program: Program, catalog: Catalog, p: int)
    ensures
        derived_fault(program, catalog, p) is None <==> is_valid_derived(program, catalog, p),
{
    let def = program.derived@[p];
    let faults = |r: int| rule_fault(program, catalog, def.rules@[r], Some(def.arity));
    lemma_first_fault(faults, 0, def.rules@.len() as int);
    assert forall|r: int| 0 <= r < def.rules@.len() implies (#[trigger] faults(r) is None
        <==> is_valid_rule(program, catalog, def.rules@[r]) && def.rules@[r].head@.len()
        == def.arity) by {
        lemma_rule(program, catalog, def.rules@[r], Some(def.arity));
    }
    if is_valid_derived(program, catalog, p) {
        assert forall|r: int| 0 <= r < def.rules@.len() implies #[trigger] faults(r) is None by {
            assert(is_valid_rule(program, catalog, def.rules@[r]));
        }
    }
    if derived_fault(program, catalog, p) is None {
        assert forall|r: int| 0 <= r < def.rules@.len() implies is_valid_rule(
            program,
            catalog,
            #[trigger] def.rules@[r],
        ) && def.rules@[r].head@.len() == def.arity by {
            assert(faults(r) is None);
        }
        if let Some(modes) = def.declared_modes {
            assert forall|k: int| 0 <= k < modes@.len() implies (#[trigger] modes@[k])@.len()
                == def.arity by {
                assert(program.derived@[p].declared_modes->0@[k]@.len() == def.arity);
            }
        }
    }
}

/// A program is refused before planning exactly where its query or a derived predicate
/// is not valid.
pub proof fn law_only_valid_programs_are_planned(program: Program, catalog: Catalog)
    ensures
        program_fault(program, catalog) is None <==> is_valid_rule(
            program,
            catalog,
            program.query,
        ) && forall|p: int|
            0 <= p < program.derived@.len() ==> #[trigger] is_valid_derived(program, catalog, p),
        forall|deny_scans: bool|
            program_fault(program, catalog) is Some ==> #[trigger] plan_outcome(
                program,
                catalog,
                deny_scans,
            ) is Err,
{
    let faults = |p: int| derived_fault(program, catalog, p);
    lemma_rule(program, catalog, program.query, None);
    lemma_first_fault(faults, 0, program.derived@.len() as int);
    assert forall|p: int| 0 <= p < program.derived@.len() implies (#[trigger] faults(p) is None
        <==> is_valid_derived(program, catalog, p)) by {
        lemma_derived(program, catalog, p);
    }
    if program_fault(program, catalog) is None {
        assert forall|p: int| 0 <= p < program.derived@.len() implies #[trigger] is_valid_derived(
            program,
            catalog,
            p,
        ) by {
            assert(faults(p) is None);
        }
    }
    if forall|p: int|
        0 <= p < program.derived@.len() ==> #[trigger] is_valid_derived(program, catalog, p) {
        assert forall|p: int| 0 <= p < program.derived@.len() implies #[trigger] faults(
            p,
        ) is None by {
            assert(is_valid_derived(program, catalog, p));
        }
    }
}

} // verus!
