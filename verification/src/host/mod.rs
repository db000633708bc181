//! Host boundary abstractions.

pub mod ids;
pub mod runtime;
pub mod types;

pub use ids::{CallId, DefId, ImplId, NodeId, RefId, SpanId, TypeRefId};
pub use runtime::{
    default_span_key, derived_id, deterministic_stable_id, HostRuntime, MockHostRuntime, StableKeyKind,
};
pub use types::{
    RuntimeScalarOptions, ScalarInputKey, SpanCoord, SpanKey, SpanKeyView,
    StableHandle, WorldStamp,
};
