//! The explain rendering: per-goal operator, mode, cost class, demand
//! specializations, scans, and the host primitives from the catalog. Its
//! format is part of the stable interface.

use crate::plan::logic::{terms_in_range, Goal, Program, Rule};
use crate::plan::mode::{marks, required, AccessKind, ModeDef, Pattern};
use crate::plan::physical::{
    Access, AccessView, PhysicalPlan, PhysicalPlanView, PlannedGoal, PlannedGoalView, PlannedRule,
    PlannedRuleView, ScanUse, ScanUseView, Specialization, SpecializationView,
};
use crate::text::{
    concatenated, decimal, decimal_of_size, join_strings, join_strs, joined, str_texts, texts,
};
use vstd::prelude::*;
use vstd::string::StringExecFns;

verus! {

/// The planned goal refers to a goal of the rule and to predicates that exist.
pub open spec fn goal_fits(program: Program, rule: Rule, goal: PlannedGoalView) -> bool {
    &&& 0 <= goal.source_index < rule.body@.len()
    &&& program.has_target(rule.body@[goal.source_index].target)
    &&& terms_in_range(rule.body@[goal.source_index].args@, rule.vars@.len())
    &&& match goal.access {
        AccessView::Extern { .. } => true,
        AccessView::Derived { id, .. } => 0 <= id < program.derived@.len(),
        AccessView::Input { id } => 0 <= id < program.inputs@.len(),
        AccessView::Builtin { id } => 0 <= id < program.builtins@.len(),
    }
}

/// Every planned goal fits the rule.
pub open spec fn rule_fits(program: Program, rule: Rule, planned: PlannedRuleView) -> bool {
    forall|g: int| 0 <= g < planned.goals.len() ==> goal_fits(program, rule, #[trigger] planned.goals[g])
}

/// The specialization and its rules fit the program.
pub open spec fn spec_fits(program: Program, spec: SpecializationView) -> bool {
    &&& 0 <= spec.predicate < program.derived@.len()
    &&& forall|r: int|
        0 <= r < spec.rules.len() ==> 0 <= (#[trigger] spec.rules[r]).rule_index
            < program.derived@[spec.predicate].rules@.len() && rule_fits(
            program,
            program.derived@[spec.predicate].rules@[spec.rules[r].rule_index],
            spec.rules[r],
        )
}

/// The plan is one of the program.
pub open spec fn plan_fits(program: Program, plan: PhysicalPlanView) -> bool {
    &&& rule_fits(program, program.query, plan.query)
    &&& forall|s: int|
        0 <= s < plan.specializations.len() ==> spec_fits(
            program,
            #[trigger] plan.specializations[s],
        )
}

/// How the access path of a catalog mode reads.
pub open spec fn mode_text(mode: ModeDef) -> Seq<char> {
    mode.operator.full_name() + " ("@ + marks(required(mode.pattern@)) + ") "@ + (
    if mode.access is Scan {
        "scan"@
    } else {
        "keyed"@
    }) + " ["@ + mode.cost.label() + "] via ["@ + joined(str_texts(mode.ra_primitives@), ", "@)
        + "]"@
}

/// How an access path reads.
pub open spec fn access_text(program: Program, access: AccessView) -> Seq<char> {
    match access {
        AccessView::Extern { mode, .. } => mode_text(mode),
        AccessView::Derived { id, pattern } => "derived "@ + program.derived@[id].name@ + "("@
            + marks(pattern) + ")"@,
        AccessView::Input { id } => "input "@ + program.inputs@[id].name@,
        AccessView::Builtin { id } => "builtin "@ + program.builtins@[id].name@,
    }
}

/// The line of one planned goal.
pub open spec fn goal_line(
    program: Program,
    rule: Rule,
    goal: PlannedGoalView,
    position: int,
    indent: Seq<char>,
) -> Seq<char> {
    indent + decimal((position + 1) as nat) + ". "@ + program.goal_text(
        &rule,
        &rule.body@[goal.source_index],
    ) + "  ->  "@ + access_text(program, goal.access) + "\n"@
}

/// The lines of a planned rule.
pub open spec fn rule_text(
    program: Program,
    rule: Rule,
    planned: PlannedRuleView,
    indent: Seq<char>,
) -> Seq<char> {
    concatenated(
        Seq::new(
            planned.goals.len(),
            |i: int| goal_line(program, rule, planned.goals[i], i, indent),
        ),
    )
}

/// The headed lines of one rule of a specialization.
pub open spec fn spec_rule_text(program: Program, p: int, planned: PlannedRuleView) -> Seq<char> {
    "  rule "@ + decimal((planned.rule_index + 1) as nat) + ":\n"@ + rule_text(
        program,
        program.derived@[p].rules@[planned.rule_index],
        planned,
        "    "@,
    )
}

/// The lines of a specialization.
pub open spec fn spec_text(program: Program, spec: SpecializationView) -> Seq<char> {
    "specialization "@ + program.derived@[spec.predicate].name@ + "("@ + marks(spec.pattern) + ")"@
        + (if spec.is_scan {
        "  scan"@
    } else {
        ""@
    }) + " ["@ + spec.max_cost.label() + "]:\n"@ + concatenated(
        spec.rules.map_values(
            |planned: PlannedRuleView| spec_rule_text(program, spec.predicate, planned),
        ),
    )
}

/// The line of the scans.
pub open spec fn scans_text(scans: Seq<ScanUseView>) -> Seq<char> {
    if scans.len() == 0 {
        "scans: (none)\n"@
    } else {
        "scans: ["@ + joined(
            scans.map_values(|scan: ScanUseView| scan.predicate + "/"@ + scan.cost.label()),
            ", "@,
        ) + "]\n"@
    }
}

/// The explain rendering of a plan.
pub open spec fn explain_text(program: Program, plan: PhysicalPlanView) -> Seq<char> {
    "query:\n"@ + rule_text(program, program.query, plan.query, "  "@) + concatenated(
        plan.specializations.map_values(|spec: SpecializationView| spec_text(program, spec)),
    ) + scans_text(plan.scans) + "max cost: "@ + plan.max_cost.label() + "\n"@
}

/// How the access path of a catalog mode reads.
fn render_mode(mode: &ModeDef) -> (r: String)
    ensures
        r@ == mode_text(*mode),
{
    let mut out = mode.operator.name().to_owned();
    out.append(" (");
    out.append(Pattern::from_bindings(mode.pattern).render_marks().as_str());
    out.append(") ");
    let kind = match mode.access {
        AccessKind::Scan => "scan",
        AccessKind::Keyed => "keyed",
    };
    out.append(kind);
    out.append(" [");
    out.append(mode.cost.name());
    out.append("] via [");
    out.append(join_strs(mode.ra_primitives, ", ").as_str());
    out.append("]");
    out
}

/// How an access path reads.
fn render_access(program: &Program, access: &Access) -> (r: String)
    requires
        match access@ {
            AccessView::Extern { .. } => true,
            AccessView::Derived { id, .. } => 0 <= id < program.derived@.len(),
            AccessView::Input { id } => 0 <= id < program.inputs@.len(),
            AccessView::Builtin { id } => 0 <= id < program.builtins@.len(),
        },
    ensures
        r@ == access_text(*program, access@),
{
    match access {
        Access::Extern { mode, .. } => render_mode(mode),
        Access::Derived { id, pattern } => {
            let mut out = "derived ".to_owned();
            out.append(program.derived[id.0].name.as_str());
            out.append("(");
            out.append(pattern.render_marks().as_str());
            out.append(")");
            out
        },
        Access::Input { id } => {
            let mut out = "input ".to_owned();
            out.append(program.inputs[id.0].name.as_str());
            out
        },
        Access::Builtin { id } => {
            let mut out = "builtin ".to_owned();
            out.append(program.builtins[id.0].name.as_str());
            out
        },
    }
}

/// The line of one planned goal.
fn render_goal_line(
    program: &Program,
    rule: &Rule,
    goal: &PlannedGoal,
    position: usize,
    indent: &str,
) -> (r: String)
    requires
        goal_fits(*program, *rule, goal@),
        position < usize::MAX,
    ensures
        r@ == goal_line(*program, *rule, goal@, position as int, indent@),
{
    let source: &Goal = &rule.body[goal.source_index];
    let mut out = indent.to_owned();
    out.append(decimal_of_size(position + 1).as_str());
    out.append(". ");
    out.append(program.render_goal(rule, source).as_str());
    out.append("  ->  ");
    out.append(render_access(program, &goal.access).as_str());
    out.append("\n");
    out
}

/// The lines of a planned rule.
fn render_rule_goals(program: &Program, rule: &Rule, planned: &PlannedRule, indent: &str) -> (r:
    String)
    requires
        rule_fits(*program, *rule, planned@),
    ensures
        r@ == rule_text(*program, *rule, planned@, indent@),
{
    let ghost lines = Seq::new(
        planned@.goals.len(),
        |i: int| goal_line(*program, *rule, planned@.goals[i], i, indent@),
    );
    let mut out = String::new();
    let mut i: usize = 0;
    assert(lines.take(0) =~= Seq::<Seq<char>>::empty());
    while i < planned.goals.len()
        invariant
            i <= planned.goals@.len(),
            rule_fits(*program, *rule, planned@),
            lines == Seq::new(
                planned@.goals.len(),
                |i: int| goal_line(*program, *rule, planned@.goals[i], i, indent@),
            ),
            out@ == concatenated(lines.take(i as int)),
        decreases planned.goals.len() - i,
    {
        assert(planned@.goals[i as int] == planned.goals@[i as int]@);
        let line = render_goal_line(program, rule, &planned.goals[i], i, indent);
        out.append(line.as_str());
        proof {
            assert(lines.take(i + 1).drop_last() =~= lines.take(i as int));
            assert(lines.take(i + 1).last() == line@);
        }
        i += 1;
    }
    assert(lines.take(i as int) =~= lines);
    out
}

/// The headed lines of one rule of a specialization.
fn render_spec_rule(program: &Program, p: usize, planned: &PlannedRule) -> (r: String)
    requires
        p < program.derived@.len(),
        planned.rule_index < program.derived@[p as int].rules@.len(),
        rule_fits(
            *program,
            program.derived@[p as int].rules@[planned.rule_index as int],
            planned@,
        ),
    ensures
        r@ == spec_rule_text(*program, p as int, planned@),
{
    let rules = &program.derived[p].rules;
    let count: usize = rules.len();
    assert(planned.rule_index < count);
    let mut out = "  rule ".to_owned();
    out.append(decimal_of_size(planned.rule_index + 1).as_str());
    out.append(":\n");
    let rule = &rules[planned.rule_index];
    out.append(render_rule_goals(program, rule, planned, "    ").as_str());
    out
}

/// The lines of a specialization.
fn render_spec(program: &Program, spec: &Specialization) -> (r: String)
    requires
        spec_fits(*program, spec@),
    ensures
        r@ == spec_text(*program, spec@),
{
    let p: usize = spec.predicate.0;
    let ghost parts = spec@.rules.map_values(
        |planned: PlannedRuleView| spec_rule_text(*program, p as int, planned),
    );
    let mut rules = String::new();
    let mut i: usize = 0;
    assert(parts.take(0) =~= Seq::<Seq<char>>::empty());
    while i < spec.rules.len()
        invariant
            i <= spec.rules@.len(),
            p == spec.predicate.0,
            spec_fits(*program, spec@),
            parts == spec@.rules.map_values(
                |planned: PlannedRuleView| spec_rule_text(*program, p as int, planned),
            ),
            rules@ == concatenated(parts.take(i as int)),
        decreases spec.rules.len() - i,
    {
        assert(spec@.rules[i as int] == spec.rules@[i as int]@);
        let part = render_spec_rule(program, p, &spec.rules[i]);
        rules.append(part.as_str());
        proof {
            assert(parts.take(i + 1).drop_last() =~= parts.take(i as int));
            assert(parts.take(i + 1).last() == part@);
        }
        i += 1;
    }
    assert(parts.take(i as int) =~= parts);
    let scan = if spec.is_scan {
        "  scan"
    } else {
        ""
    };
    let mut out = "specialization ".to_owned();
    out.append(program.derived[p].name.as_str());
    out.append("(");
    out.append(spec.pattern.render_marks().as_str());
    out.append(")");
    out.append(scan);
    out.append(" [");
    out.append(spec.max_cost.name());
    out.append("]:\n");
    out.append(rules.as_str());
    out
}

/// The line of the scans.
fn render_scans(scans: &Vec<ScanUse>) -> (r: String)
    ensures
        r@ == scans_text(scans@.map_values(|s: ScanUse| s@)),
{
    let ghost views = scans@.map_values(|s: ScanUse| s@);
    if scans.len() == 0 {
        return "scans: (none)\n".to_owned();
    }
    let mut parts: Vec<String> = Vec::new();
    let mut i: usize = 0;
    while i < scans.len()
        invariant
            i <= scans@.len(),
            parts@.len() == i,
            views == scans@.map_values(|s: ScanUse| s@),
            forall|k: int|
                0 <= k < i ==> (#[trigger] parts@[k])@ == views[k].predicate + "/"@
                    + views[k].cost.label(),
        decreases scans.len() - i,
    {
        let mut part = scans[i].predicate.as_str().to_owned();
        part.append("/");
        part.append(scans[i].cost.name());
        assert(views[i as int] == scans@[i as int]@);
        parts.push(part);
        i += 1;
    }
    assert(texts(parts@) =~= views.map_values(
        |scan: ScanUseView| scan.predicate + "/"@ + scan.cost.label(),
    ));
    let mut out = "scans: [".to_owned();
    out.append(join_strings(&parts, ", ").as_str());
    out.append("]\n");
    out
}

impl PhysicalPlan {
    /// The explain rendering of a plan of `program`.
    pub fn explain(&self, program: &Program) -> (r: String)
        requires
            plan_fits(*program, self@),
        ensures
            r@ == explain_text(*program, self@),
    {
        let ghost parts = self@.specializations.map_values(
            |spec: SpecializationView| spec_text(*program, spec),
        );
        let mut specs = String::new();
        let mut i: usize = 0;
        assert(parts.take(0) =~= Seq::<Seq<char>>::empty());
        while i < self.specializations.len()
            invariant
                i <= self.specializations@.len(),
                plan_fits(*program, self@),
                parts == self@.specializations.map_values(
                    |spec: SpecializationView| spec_text(*program, spec),
                ),
                specs@ == concatenated(parts.take(i as int)),
            decreases self.specializations.len() - i,
        {
            assert(self@.specializations[i as int] == self.specializations@[i as int]@);
            let part = render_spec(program, &self.specializations[i]);
            specs.append(part.as_str());
            proof {
                assert(parts.take(i + 1).drop_last() =~= parts.take(i as int));
                assert(parts.take(i + 1).last() == part@);
            }
            i += 1;
        }
        assert(parts.take(i as int) =~= parts);
        let mut out = "query:\n".to_owned();
        out.append(render_rule_goals(program, &program.query, &self.query, "  ").as_str());
        out.append(specs.as_str());
        out.append(render_scans(&self.scans).as_str());
        out.append("max cost: ");
        out.append(self.max_cost.name());
        out.append("\n");
        out
    }
}

} // verus!
