//! The planner's logical input.
//!
//! The language layer lowers its stratified, typechecked rules into this
//! shape; the planner sees only what it needs: predicates, goals, argument
//! boundness, and names for messages. No value representation: a constant is
//! just "always bound".
//!
//! Selector bindings arrive as input relations: tiny pre-materialized
//! relations that bind all their arguments at the lowest cost.

use crate::plan::mode::Binding;
use crate::text::{join_strings, joined, texts};
use vstd::prelude::*;
use vstd::string::StringExecFns;

verus! {

/// A rule-scoped variable: an index into the owning rule's `vars` table.
#[derive(Clone, Copy, Debug, PartialEq, Eq, PartialOrd, Ord, Hash, Structural)]
pub struct Var(pub u32);

/// One goal argument. The planner cares about boundness only.
#[derive(Clone, Copy, Debug, PartialEq, Eq, Structural)]
pub enum Term {
    Var(Var),
    /// A literal constant: always bound; the engine holds the value.
    Const,
}

/// Index into [`Program::derived`].
#[derive(Clone, Copy, Debug, PartialEq, Eq, PartialOrd, Ord, Hash, Structural)]
pub struct DerivedId(pub usize);

/// Index into [`Program::inputs`].
#[derive(Clone, Copy, Debug, PartialEq, Eq, PartialOrd, Ord, Hash, Structural)]
pub struct InputId(pub usize);

/// Index into [`Program::builtins`].
#[derive(Clone, Copy, Debug, PartialEq, Eq, PartialOrd, Ord, Hash, Structural)]
pub struct BuiltinId(pub usize);

/// What a goal calls.
#[derive(Clone, Debug, PartialEq, Eq)]
pub enum GoalRef {
    /// An extern predicate, named as in the catalog.
    Extern(String),
    Derived(DerivedId),
    Input(InputId),
    Builtin(BuiltinId),
}

#[derive(Clone, Debug, PartialEq, Eq)]
pub struct Goal {
    pub target: GoalRef,
    pub args: Vec<Term>,
    pub negated: bool,
}

impl Goal {
    pub fn positive(target: GoalRef, args: Vec<Term>) -> (r: Goal)
        ensures
            r == (Goal { target, args, negated: false }),
    {
        Goal { target, args, negated: false }
    }

    pub fn negated(target: GoalRef, args: Vec<Term>) -> (r: Goal)
        ensures
            r == (Goal { target, args, negated: true }),
    {
        Goal { target, args, negated: true }
    }
}

/// One rule: `head :- body`. The query is a rule too; its head lists the
/// output columns.
#[derive(Clone, Debug, PartialEq, Eq)]
pub struct Rule {
    /// Display names of this rule's variables, indexed by [`Var`]. Used in
    /// plan errors and explain output only.
    pub vars: Vec<String>,
    pub head: Vec<Term>,
    pub body: Vec<Goal>,
}

/// Every variable among the terms has an entry in a table of `count` names.
pub open spec fn terms_in_range(terms: Seq<Term>, count: nat) -> bool {
    forall|i: int|
        0 <= i < terms.len() ==> match #[trigger] terms[i] {
            Term::Var(var) => var.0 < count,
            Term::Const => true,
        }
}

/// Some term is the variable `var`.
pub open spec fn mentions(terms: Seq<Term>, var: u32) -> bool {
    terms.contains(Term::Var(Var(var)))
}

impl Rule {
    pub fn var_name(&self, var: Var) -> (r: &str)
        requires
            var.0 < self.vars@.len(),
        ensures
            r@ == self.vars@[var.0 as int]@,
    {
        self.vars[var.0 as usize].as_str()
    }

    /// How one argument reads in messages.
    pub open spec fn term_text(&self, term: Term) -> Seq<char> {
        match term {
            Term::Var(var) => self.vars@[var.0 as int]@,
            Term::Const => "<const>"@,
        }
    }

    /// How one argument reads in messages.
    pub fn term_name(&self, term: Term) -> (r: String)
        requires
            term matches Term::Var(var) ==> var.0 < self.vars@.len(),
        ensures
            r@ == self.term_text(term),
    {
        match term {
            Term::Var(var) => self.var_name(var).to_owned(),
            Term::Const => "<const>".to_owned(),
        }
    }
}

/// A derived predicate and its rules.
#[derive(Clone, Debug, PartialEq, Eq)]
pub struct DerivedDef {
    pub name: String,
    pub arity: usize,
    /// Mode assertions: every declared pattern must be inferable (else a plan
    /// error), and once declared, the declared set is the public contract;
    /// callers may not use merely inferable patterns beyond it.
    pub declared_modes: Option<Vec<Vec<Binding>>>,
    pub rules: Vec<Rule>,
}

/// A pre-bound input relation (selector seed).
#[derive(Clone, Debug, PartialEq, Eq)]
pub struct InputDef {
    pub name: String,
    pub arity: usize,
}

/// An engine-managed builtin with a fixed binding requirement: `Bound`
/// positions must be bound at the call; `Free` positions are computed.
#[derive(Clone, Debug, PartialEq, Eq)]
pub struct BuiltinDef {
    pub name: String,
    pub pattern: Vec<Binding>,
}

/// A planner input program: derived predicates, input relations, builtins,
/// and the query body.
#[derive(Clone, Debug, PartialEq, Eq)]
pub struct Program {
    pub derived: Vec<DerivedDef>,
    pub inputs: Vec<InputDef>,
    pub builtins: Vec<BuiltinDef>,
    pub query: Rule,
}

impl Program {
    /// The target refers to a table entry that exists.
    pub open spec fn has_target(&self, target: GoalRef) -> bool {
        match target {
            GoalRef::Extern(_) => true,
            GoalRef::Derived(id) => id.0 < self.derived@.len(),
            GoalRef::Input(id) => id.0 < self.inputs@.len(),
            GoalRef::Builtin(id) => id.0 < self.builtins@.len(),
        }
    }

    /// The user-facing name of a target.
    pub open spec fn target_text(&self, target: GoalRef) -> Seq<char> {
        match target {
            GoalRef::Extern(name) => name@,
            GoalRef::Derived(id) => self.derived@[id.0 as int].name@,
            GoalRef::Input(id) => self.inputs@[id.0 as int].name@,
            GoalRef::Builtin(id) => self.builtins@[id.0 as int].name@,
        }
    }

    /// The rendering of a goal: `name(Arg, ...)`, behind `not ` where negated.
    pub open spec fn goal_text(&self, rule: &Rule, goal: &Goal) -> Seq<char> {
        (if goal.negated {
            "not "@
        } else {
            ""@
        }) + self.target_text(goal.target) + "("@ + joined(
            goal.args@.map_values(|term: Term| rule.term_text(term)),
            ", "@,
        ) + ")"@
    }

    /// The user-facing name of a goal's target predicate.
    pub fn target_name<'p>(&'p self, target: &'p GoalRef) -> (r: &'p str)
        requires
            self.has_target(*target),
        ensures
            r@ == self.target_text(*target),
    {
        match target {
            GoalRef::Extern(name) => name.as_str(),
            GoalRef::Derived(id) => self.derived[id.0].name.as_str(),
            GoalRef::Input(id) => self.inputs[id.0].name.as_str(),
            GoalRef::Builtin(id) => self.builtins[id.0].name.as_str(),
        }
    }

    /// Renders a goal as `name(Arg, ...)` for messages, using the owning
    /// rule's variable names.
    pub fn render_goal(&self, rule: &Rule, goal: &Goal) -> (r: String)
        requires
            self.has_target(goal.target),
            terms_in_range(goal.args@, rule.vars@.len()),
        ensures
            r@ == self.goal_text(rule, goal),
    {
        let mut names: Vec<String> = Vec::new();
        let mut i: usize = 0;
        while i < goal.args.len()
            invariant
                i <= goal.args@.len(),
                names@.len() == i,
                terms_in_range(goal.args@, rule.vars@.len()),
                forall|j: int| 0 <= j < i ==> (#[trigger] names@[j])@ == rule.term_text(goal.args@[j]),
            decreases goal.args.len() - i,
        {
            names.push(rule.term_name(goal.args[i]));
            i += 1;
        }
        assert(texts(names@) =~= goal.args@.map_values(|term: Term| rule.term_text(term)));
        let mut out = if goal.negated {
            "not ".to_owned()
        } else {
            "".to_owned()
        };
        out.append(self.target_name(&goal.target));
        out.append("(");
        out.append(join_strings(&names, ", ").as_str());
        out.append(")");
        out
    }
}

} // verus!
