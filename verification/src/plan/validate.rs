//! Validation of the planner input. The language layer typechecks first; this
//! is the defence behind it.

use crate::plan::catalog::Catalog;
use crate::plan::error::{PlanError, PlanErrorView};
use crate::plan::logic::{terms_in_range, Goal, GoalRef, Program, Rule, Term};
use crate::plan::search::{goal_wf, rule_wf};
use crate::plan::supports::program_wf;
use crate::text::{cat3, decimal, decimal_of_size};
use vstd::prelude::*;
use vstd::string::StringExecFns;

verus! {

/// The first fault among those numbered from `from` up to `count`.
pub open spec fn first_fault(
    faults: spec_fn(int) -> Option<PlanErrorView>,
    from: int,
    count: int,
) -> Option<PlanErrorView>
    decreases count - from,
{
    if from >= count {
        None
    } else {
        match faults(from) {
            Some(fault) => Some(fault),
            None => first_fault(faults, from + 1, count),
        }
    }
}

pub open spec fn malformed_view(detail: Seq<char>) -> PlanErrorView {
    PlanErrorView::MalformedInput { detail }
}

/// The fault of a goal that is given `given` arguments where `expected` are
/// declared.
pub open spec fn arity_fault(program: Program, goal: Goal, expected: nat) -> Option<PlanErrorView> {
    if goal.args@.len() == expected {
        None
    } else {
        Some(
            malformed_view(
                "goal `"@ + program.target_text(goal.target) + "` has "@ + decimal(goal.args@.len())
                    + " arguments, predicate declares "@ + decimal(expected),
            ),
        )
    }
}

/// What is wrong with a goal's target or its number of arguments.
pub open spec fn goal_fault(program: Program, catalog: Catalog, goal: Goal) -> Option<
    PlanErrorView,
> {
    match goal.target {
        GoalRef::Extern(name) => if !catalog.has(name@) {
            Some(malformed_view("unknown extern predicate `"@ + name@ + "`"@))
        } else if catalog.lookup(name@).completeness is Disabled {
            Some(PlanErrorView::PredicateDisabled { predicate: name@ })
        } else {
            arity_fault(program, goal, catalog.lookup(name@).args@.len())
        },
        GoalRef::Derived(id) => if id.0 >= program.derived@.len() {
            Some(malformed_view("derived id out of range"@))
        } else {
            arity_fault(program, goal, program.derived@[id.0 as int].arity as nat)
        },
        GoalRef::Input(id) => if id.0 >= program.inputs@.len() {
            Some(malformed_view("input id out of range"@))
        } else {
            arity_fault(program, goal, program.inputs@[id.0 as int].arity as nat)
        },
        GoalRef::Builtin(id) => if id.0 >= program.builtins@.len() {
            Some(malformed_view("builtin id out of range"@))
        } else {
            arity_fault(program, goal, program.builtins@[id.0 as int].pattern@.len())
        },
    }
}

/// Every variable of the rule has a name.
pub open spec fn vars_in_range(rule: Rule) -> bool {
    &&& terms_in_range(rule.head@, rule.vars@.len())
    &&& forall|i: int|
        0 <= i < rule.body@.len() ==> terms_in_range(
            (#[trigger] rule.body@[i]).args@,
            rule.vars@.len(),
        )
}

/// The first fault of a rule whose head is to have `head_arity` terms.
pub open spec fn rule_fault(
    program: Program,
    catalog: Catalog,
    rule: Rule,
    head_arity: Option<usize>,
) -> Option<PlanErrorView> {
    if rule.body@.len() > 128 {
        Some(malformed_view("rule body exceeds 128 goals"@))
    } else if head_arity is Some && rule.head@.len() != head_arity->0 {
        Some(malformed_view("rule head arity differs from its predicate"@))
    } else if !vars_in_range(rule) {
        Some(malformed_view("variable index outside the rule's variable table"@))
    } else {
        first_fault(
            |i: int| goal_fault(program, catalog, rule.body@[i]),
            0,
            rule.body@.len() as int,
        )
    }
}

/// Some declared mode of derived predicate `p` has the wrong arity.
pub open spec fn has_misfit_mode(program: Program, p: int) -> bool {
    program.derived@[p].declared_modes is Some && exists|k: int|
        0 <= k < program.derived@[p].declared_modes->0@.len() && (
        #[trigger] program.derived@[p].declared_modes->0@[k])@.len() != program.derived@[p].arity
}

/// The first fault of a derived predicate: its rules, then its declared
/// modes.
pub open spec fn derived_fault(program: Program, catalog: Catalog, p: int) -> Option<
    PlanErrorView,
> {
    let def = program.derived@[p];
    match first_fault(
        |r: int| rule_fault(program, catalog, def.rules@[r], Some(def.arity)),
        0,
        def.rules@.len() as int,
    ) {
        Some(fault) => Some(fault),
        None => if has_misfit_mode(program, p) {
            Some(malformed_view("declared mode arity mismatch on `"@ + def.name@ + "`"@))
        } else {
            None
        },
    }
}

/// The first fault of a program: the query, then the derived predicates.
pub open spec fn program_fault(program: Program, catalog: Catalog) -> Option<PlanErrorView> {
    match rule_fault(program, catalog, program.query, None) {
        Some(fault) => Some(fault),
        None => first_fault(
            |p: int| derived_fault(program, catalog, p),
            0,
            program.derived@.len() as int,
        ),
    }
}

/// Where there is no first fault there is none at all.
proof fn lemma_no_fault(faults: spec_fn(int) -> Option<PlanErrorView>, from: int, count: int)
    requires
        first_fault(faults, from, count) is None,
    ensures
        forall|i: int| from <= i < count ==> #[trigger] faults(i) is None,
    decreases count - from,
{
    if from < count {
        lemma_no_fault(faults, from + 1, count);
    }
}

/// A rule without fault is valid.
proof fn lemma_faultless_rule(
    program: Program,
    catalog: Catalog,
    rule: Rule,
    head_arity: Option<usize>,
)
    requires
        rule_fault(program, catalog, rule, head_arity) is None,
    ensures
        rule_wf(program, catalog, rule),
        head_arity is Some ==> rule.head@.len() == head_arity->0,
{
    let faults = |i: int| goal_fault(program, catalog, rule.body@[i]);
    lemma_no_fault(faults, 0, rule.body@.len() as int);
    assert forall|i: int| 0 <= i < rule.body@.len() implies goal_wf(
        program,
        catalog,
        rule,
        #[trigger] rule.body@[i],
    ) by {
        assert(faults(i) is None);
    }
}

/// A program without fault is valid, where no derived predicate has too many
/// arguments for its patterns to be enumerated.
pub proof fn lemma_faultless_program(program: Program, catalog: Catalog)
    requires
        program_fault(program, catalog) is None,
        forall|p: int|
            0 <= p < program.derived@.len() ==> (#[trigger] program.derived@[p]).arity <= 16,
    ensures
        program_wf(program, catalog),
{
    lemma_faultless_rule(program, catalog, program.query, None);
    let derived_faults = |p: int| derived_fault(program, catalog, p);
    lemma_no_fault(derived_faults, 0, program.derived@.len() as int);
    assert forall|p: int, r: int|
        #![trigger program.derived@[p].rules@[r]]
        0 <= p < program.derived@.len() && 0 <= r < program.derived@[p].rules@.len() implies rule_wf(
        program,
        catalog,
        program.derived@[p].rules@[r],
    ) && program.derived@[p].rules@[r].head@.len() == program.derived@[p].arity by {
        let def = program.derived@[p];
        assert(derived_faults(p) is None);
        let rule_faults = |r: int| rule_fault(program, catalog, def.rules@[r], Some(def.arity));
        lemma_no_fault(rule_faults, 0, def.rules@.len() as int);
        assert(rule_faults(r) is None);
        lemma_faultless_rule(program, catalog, def.rules@[r], Some(def.arity));
    }
    assert forall|p: int, k: int|
        #![trigger program.derived@[p].declared_modes->0@[k]]
        0 <= p < program.derived@.len() && program.derived@[p].declared_modes is Some && 0 <= k
            < program.derived@[p].declared_modes->0@.len() implies program.derived@[p].declared_modes->0@[k]@.len()
        == program.derived@[p].arity by {
        assert(derived_faults(p) is None);
        assert(!has_misfit_mode(program, p));
    }
}

fn malformed(detail: &str) -> (r: PlanError)
    ensures
        r@ == malformed_view(detail@),
{
    PlanError::MalformedInput { detail: detail.to_owned() }
}

/// Whether every variable among the terms has a name.
fn terms_ok(terms: &Vec<Term>, count: usize) -> (r: bool)
    ensures
        r == terms_in_range(terms@, count as nat),
{
    let mut i: usize = 0;
    while i < terms.len()
        invariant
            i <= terms@.len(),
            forall|j: int|
                0 <= j < i ==> match #[trigger] terms@[j] {
                    Term::Var(var) => var.0 < count,
                    Term::Const => true,
                },
        decreases terms.len() - i,
    {
        let ok = match terms[i] {
            Term::Var(var) => (var.0 as usize) < count,
            Term::Const => true,
        };
        if !ok {
            assert(!(match terms@[i as int] {
                Term::Var(var) => var.0 < count,
                Term::Const => true,
            }));
            return false;
        }
        i += 1;
    }
    true
}

/// Whether every variable of the rule has a name.
fn vars_ok(rule: &Rule) -> (r: bool)
    ensures
        r == vars_in_range(*rule),
{
    if !terms_ok(&rule.head, rule.vars.len()) {
        return false;
    }
    let mut i: usize = 0;
    while i < rule.body.len()
        invariant
            i <= rule.body@.len(),
            terms_in_range(rule.head@, rule.vars@.len()),
            forall|j: int|
                0 <= j < i ==> terms_in_range(
                    (#[trigger] rule.body@[j]).args@,
                    rule.vars@.len(),
                ),
        decreases rule.body.len() - i,
    {
        if !terms_ok(&rule.body[i].args, rule.vars.len()) {
            return false;
        }
        i += 1;
    }
    true
}

/// Checks the number of arguments of a goal.
fn check_arity(program: &Program, goal: &Goal, expected: usize) -> (r: Result<(), PlanError>)
    requires
        program.has_target(goal.target),
    ensures
        match r {
            Ok(_) => arity_fault(*program, *goal, expected as nat) is None,
            Err(error) => arity_fault(*program, *goal, expected as nat) == Some(error@),
        },
{
    if goal.args.len() == expected {
        return Ok(());
    }
    let mut detail = "goal `".to_owned();
    detail.append(program.target_name(&goal.target));
    detail.append("` has ");
    detail.append(decimal_of_size(goal.args.len()).as_str());
    detail.append(" arguments, predicate declares ");
    detail.append(decimal_of_size(expected).as_str());
    Err(malformed(detail.as_str()))
}

/// Checks the target and the number of arguments of a goal.
fn check_goal(program: &Program, catalog: &Catalog, goal: &Goal) -> (r: Result<(), PlanError>)
    ensures
        match r {
            Ok(_) => goal_fault(*program, *catalog, *goal) is None,
            Err(error) => goal_fault(*program, *catalog, *goal) == Some(error@),
        },
{
    match &goal.target {
        GoalRef::Extern(name) => {
            match catalog.predicate(name.as_str()) {
                Some(predicate) => {
                    if predicate.is_disabled() {
                        Err(PlanError::PredicateDisabled { predicate: name.clone() })
                    } else {
                        check_arity(program, goal, predicate.arity())
                    }
                },
                None => Err(
                    malformed(cat3("unknown extern predicate `", name.as_str(), "`").as_str()),
                ),
            }
        },
        GoalRef::Derived(id) => if id.0 >= program.derived.len() {
            Err(malformed("derived id out of range"))
        } else {
            check_arity(program, goal, program.derived[id.0].arity)
        },
        GoalRef::Input(id) => if id.0 >= program.inputs.len() {
            Err(malformed("input id out of range"))
        } else {
            check_arity(program, goal, program.inputs[id.0].arity)
        },
        GoalRef::Builtin(id) => if id.0 >= program.builtins.len() {
            Err(malformed("builtin id out of range"))
        } else {
            check_arity(program, goal, program.builtins[id.0].pattern.len())
        },
    }
}

/// Checks one rule.
fn check_rule(program: &Program, catalog: &Catalog, rule: &Rule, head_arity: Option<usize>) -> (r:
    Result<(), PlanError>)
    ensures
        match r {
            Ok(_) => rule_fault(*program, *catalog, *rule, head_arity) is None,
            Err(error) => rule_fault(*program, *catalog, *rule, head_arity) == Some(error@),
        },
{
    if rule.body.len() > 128 {
        return Err(malformed("rule body exceeds 128 goals"));
    }
    if let Some(arity) = head_arity {
        if rule.head.len() != arity {
            return Err(malformed("rule head arity differs from its predicate"));
        }
    }
    if !vars_ok(rule) {
        return Err(malformed("variable index outside the rule's variable table"));
    }
    let ghost faults = |i: int| goal_fault(*program, *catalog, rule.body@[i]);
    let mut i: usize = 0;
    while i < rule.body.len()
        invariant
            i <= rule.body@.len(),
            faults == (|i: int| goal_fault(*program, *catalog, rule.body@[i])),
            rule_fault(*program, *catalog, *rule, head_arity) == first_fault(
                faults,
                i as int,
                rule.body@.len() as int,
            ),
        decreases rule.body.len() - i,
    {
        match check_goal(program, catalog, &rule.body[i]) {
            Ok(_) => {},
            Err(error) => {
                assert(faults(i as int) == Some(error@));
                return Err(error);
            },
        }
        assert(faults(i as int) is None);
        i += 1;
    }
    Ok(())
}

/// Whether some declared mode has the wrong arity.
fn misfit_mode(program: &Program, p: usize) -> (r: bool)
    requires
        p < program.derived@.len(),
    ensures
        r == has_misfit_mode(*program, p as int),
{
    let derived = &program.derived[p];
    match &derived.declared_modes {
        Some(modes) => {
            let mut k: usize = 0;
            while k < modes.len()
                invariant
                    k <= modes@.len(),
                    *derived == program.derived@[p as int],
                    derived.declared_modes == Some(*modes),
                    forall|j: int| 0 <= j < k ==> (#[trigger] modes@[j])@.len() == derived.arity,
                decreases modes.len() - k,
            {
                if modes[k].len() != derived.arity {
                    assert(program.derived@[p as int].declared_modes->0@[k as int]@.len()
                        != derived.arity);
                    return true;
                }
                k += 1;
            }
            false
        },
        None => false,
    }
}

/// Checks one derived predicate.
fn check_derived(program: &Program, catalog: &Catalog, p: usize) -> (r: Result<(), PlanError>)
    requires
        p < program.derived@.len(),
    ensures
        match r {
            Ok(_) => derived_fault(*program, *catalog, p as int) is None,
            Err(error) => derived_fault(*program, *catalog, p as int) == Some(error@),
        },
{
    let derived = &program.derived[p];
    let ghost faults = |r: int|
        rule_fault(*program, *catalog, derived.rules@[r], Some(derived.arity));
    let mut i: usize = 0;
    while i < derived.rules.len()
        invariant
            i <= derived.rules@.len(),
            p < program.derived@.len(),
            *derived == program.derived@[p as int],
            faults == (|r: int|
                rule_fault(*program, *catalog, derived.rules@[r], Some(derived.arity))),
            first_fault(faults, 0, derived.rules@.len() as int) == first_fault(
                faults,
                i as int,
                derived.rules@.len() as int,
            ),
        decreases derived.rules.len() - i,
    {
        match check_rule(program, catalog, &derived.rules[i], Some(derived.arity)) {
            Ok(_) => {},
            Err(error) => {
                assert(faults(i as int) == Some(error@));
                return Err(error);
            },
        }
        assert(faults(i as int) is None);
        i += 1;
    }
    if misfit_mode(program, p) {
        return Err(
            malformed(
                cat3("declared mode arity mismatch on `", derived.name.as_str(), "`").as_str(),
            ),
        );
    }
    Ok(())
}

/// Checks the planner input: the query first, then each derived predicate.
pub fn validate(program: &Program, catalog: &Catalog) -> (r: Result<(), PlanError>)
    ensures
        match r {
            Ok(_) => program_fault(*program, *catalog) is None,
            Err(error) => program_fault(*program, *catalog) == Some(error@),
        },
{
    match check_rule(program, catalog, &program.query, None) {
        Ok(_) => {},
        Err(error) => {
            return Err(error);
        },
    }
    let ghost faults = |p: int| derived_fault(*program, *catalog, p);
    let mut p: usize = 0;
    while p < program.derived.len()
        invariant
            p <= program.derived@.len(),
            faults == (|p: int| derived_fault(*program, *catalog, p)),
            program_fault(*program, *catalog) == first_fault(
                faults,
                p as int,
                program.derived@.len() as int,
            ),
        decreases program.derived.len() - p,
    {
        match check_derived(program, catalog, p) {
            Ok(_) => {},
            Err(error) => {
                assert(faults(p as int) == Some(error@));
                return Err(error);
            },
        }
        assert(faults(p as int) is None);
        p += 1;
    }
    Ok(())
}

} // verus!
