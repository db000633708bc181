//! Physical plan types and explain rendering.
//!
//! A plan is data, not behaviour: per-rule ordered goal sequences with the
//! chosen access path for each goal, the demand-specialization table for
//! derived predicates, and plan-level metadata (scans, maximal cost). The
//! explain rendering is part of the stable interface.

use crate::plan::logic::{BuiltinId, DerivedId, InputId};
use crate::plan::mode::{CostClass, ModeDef, Pattern};
use vstd::prelude::*;

verus! {

/// The chosen access path of one planned goal.
#[derive(Clone, Debug, PartialEq, Eq)]
pub enum Access {
    Extern {
        /// Catalog predicate name.
        predicate: &'static str,
        /// The catalog mode this goal runs under.
        mode: &'static ModeDef,
    },
    /// A demanded derived call: evaluated through the specialization for
    /// `(id, pattern)`.
    Derived { id: DerivedId, pattern: Pattern },
    Input { id: InputId },
    Builtin { id: BuiltinId },
}

/// One goal in execution order.
#[derive(Clone, Debug, PartialEq, Eq)]
pub struct PlannedGoal {
    /// Index of this goal in the rule's source body.
    pub source_index: usize,
    pub access: Access,
    pub negated: bool,
}

/// One rule body, reordered.
#[derive(Clone, Debug, PartialEq, Eq)]
pub struct PlannedRule {
    /// Index into the owning predicate's rule list.
    pub rule_index: usize,
    pub goals: Vec<PlannedGoal>,
}

/// The compiled form of one demanded (derived predicate, binding pattern)
/// pair.
#[derive(Clone, Debug, PartialEq, Eq)]
pub struct Specialization {
    pub predicate: DerivedId,
    /// Which head arguments arrive bound.
    pub pattern: Pattern,
    pub rules: Vec<PlannedRule>,
    /// A call under the empty pattern is a scan of a derived predicate and is
    /// reported with the scans.
    pub is_scan: bool,
    /// Maximal cost class over every goal in every rule of this
    /// specialization, derived goals resolved transitively.
    pub max_cost: CostClass,
}

/// One scan used by the plan.
#[derive(Clone, Debug, PartialEq, Eq)]
pub struct ScanUse {
    /// Predicate name (extern or derived).
    pub predicate: String,
    pub cost: CostClass,
}

/// The planner's output. Deterministic: same program and same catalog give
/// an identical plan.
#[derive(Clone, Debug, PartialEq, Eq)]
pub struct PhysicalPlan {
    pub query: PlannedRule,
    /// Demanded specializations, in (predicate, pattern) order.
    pub specializations: Vec<Specialization>,
    /// Every scan the plan contains, in first-use order, deduplicated.
    pub scans: Vec<ScanUse>,
    /// Maximal cost class over the whole plan.
    pub max_cost: CostClass,
}

/// The mathematical content of an [`Access`].
#[verifier::ext_equal]
pub enum AccessView {
    Extern { predicate: Seq<char>, mode: ModeDef },
    Derived { id: int, pattern: Seq<bool> },
    Input { id: int },
    Builtin { id: int },
}

/// The mathematical content of a [`PlannedGoal`].
#[verifier::ext_equal]
pub struct PlannedGoalView {
    pub source_index: int,
    pub access: AccessView,
    pub negated: bool,
}

/// The mathematical content of a [`PlannedRule`].
#[verifier::ext_equal]
pub struct PlannedRuleView {
    pub rule_index: int,
    pub goals: Seq<PlannedGoalView>,
}

/// The mathematical content of a [`Specialization`].
#[verifier::ext_equal]
pub struct SpecializationView {
    pub predicate: int,
    pub pattern: Seq<bool>,
    pub rules: Seq<PlannedRuleView>,
    pub is_scan: bool,
    pub max_cost: CostClass,
}

/// The mathematical content of a [`ScanUse`].
#[verifier::ext_equal]
pub struct ScanUseView {
    pub predicate: Seq<char>,
    pub cost: CostClass,
}

/// The mathematical content of a [`PhysicalPlan`].
#[verifier::ext_equal]
pub struct PhysicalPlanView {
    pub query: PlannedRuleView,
    pub specializations: Seq<SpecializationView>,
    pub scans: Seq<ScanUseView>,
    pub max_cost: CostClass,
}

impl View for Access {
    type V = AccessView;

    open spec fn view(&self) -> AccessView {
        match *self {
            Access::Extern { predicate, mode } => AccessView::Extern {
                predicate: predicate@,
                mode: *mode,
            },
            Access::Derived { id, pattern } => AccessView::Derived {
                id: id.0 as int,
                pattern: pattern@,
            },
            Access::Input { id } => AccessView::Input { id: id.0 as int },
            Access::Builtin { id } => AccessView::Builtin { id: id.0 as int },
        }
    }
}

impl View for PlannedGoal {
    type V = PlannedGoalView;

    open spec fn view(&self) -> PlannedGoalView {
        PlannedGoalView {
            source_index: self.source_index as int,
            access: self.access@,
            negated: self.negated,
        }
    }
}

/// The views of a sequence of planned goals.
pub open spec fn goal_views(goals: Seq<PlannedGoal>) -> Seq<PlannedGoalView> {
    goals.map_values(|goal: PlannedGoal| goal@)
}

impl View for PlannedRule {
    type V = PlannedRuleView;

    open spec fn view(&self) -> PlannedRuleView {
        PlannedRuleView { rule_index: self.rule_index as int, goals: goal_views(self.goals@) }
    }
}

/// The views of a sequence of planned rules.
pub open spec fn rule_views(rules: Seq<PlannedRule>) -> Seq<PlannedRuleView> {
    rules.map_values(|rule: PlannedRule| rule@)
}

impl View for Specialization {
    type V = SpecializationView;

    open spec fn view(&self) -> SpecializationView {
        SpecializationView {
            predicate: self.predicate.0 as int,
            pattern: self.pattern@,
            rules: rule_views(self.rules@),
            is_scan: self.is_scan,
            max_cost: self.max_cost,
        }
    }
}

impl View for ScanUse {
    type V = ScanUseView;

    open spec fn view(&self) -> ScanUseView {
        ScanUseView { predicate: self.predicate@, cost: self.cost }
    }
}

impl View for PhysicalPlan {
    type V = PhysicalPlanView;

    open spec fn view(&self) -> PhysicalPlanView {
        PhysicalPlanView {
            query: self.query@,
            specializations: self.specializations@.map_values(|s: Specialization| s@),
            scans: self.scans@.map_values(|s: ScanUse| s@),
            max_cost: self.max_cost,
        }
    }
}

} // verus!
