//! Semantic queries over Rust workspaces: programs and their plans, stable
//! identities, and the index that queries are answered from.

pub mod host;
pub mod ir;
pub mod plan;
pub mod protocol;
pub mod ra;
pub mod search;
pub mod sorting;
pub mod table;
pub mod text;
