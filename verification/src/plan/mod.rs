//! The predicate catalog and the binding-aware planner.
//!
//! The catalog is the single source of truth for extern predicates: name,
//! typed argument schema, documentation, completeness class, and the full set
//! of supported binding modes, each with a cost class and an operator. A
//! predicate not in the registry does not exist; a mode not in the registry is
//! a plan error.

pub mod blame;
pub mod blame_laws;
pub mod callgraph;
pub mod capabilities;
pub mod catalog;
pub mod choice_laws;
pub mod cost_laws;
pub mod demand;
pub mod error;
pub mod explain;
pub mod finalize;
pub mod keys;
pub mod laws;
pub mod logic;
pub mod mode;
pub mod operator;
pub mod order;
pub mod outcome;
pub mod patterns;
pub mod physical;
pub mod planner;
pub mod predicate;
pub mod schema;
pub mod search;
pub mod supports;
pub mod unlock;
pub mod validate;
pub mod validity_laws;
pub mod value;

pub use catalog::{v0_catalog, Catalog};
pub use error::{GoalLocation, ModeAlternative, PlanError, UnsatisfiableGoal};
pub use logic::{
    BuiltinDef, BuiltinId, DerivedDef, DerivedId, Goal, GoalRef, InputDef, InputId, Program, Rule,
    Term, Var,
};
pub use mode::{AccessKind, Binding, CostClass, ModeDef, Pattern};
pub use physical::{Access, PhysicalPlan, PlannedGoal, PlannedRule, ScanUse, Specialization};
pub use planner::{plan, PlanOptions};
pub use operator::{OperatorId, OperatorSet};
pub use predicate::{Completeness, PredicateDef};
pub use value::EngineValue;
pub use schema::{ArgDef, ArgType};
