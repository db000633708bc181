//! The semantic index of a Rust workspace.

pub mod answer_laws;
pub mod call_laws;
pub mod call_lookup;
pub mod call_rows;
pub mod capability;
pub mod core_build;
pub mod core_index;
pub mod core_items;
pub mod core_laws;
pub mod edge_laws;
pub mod file_id;
pub mod file_selection;
pub mod flow_laws;
pub mod gates;
pub mod host;
pub mod index_laws;
pub mod init_error;
pub mod item_laws;
pub mod key_laws;
pub mod kinds;
pub mod known_laws;
pub mod loader;
pub mod lookup_store;
pub mod lookups;
pub mod meaning_laws;
pub mod name_rows;
pub mod node_laws;
pub mod node_lookup;
pub mod node_rows;
pub mod place_laws;
pub mod projection;
pub mod row_laws;
pub mod rows;
pub mod scope;
pub mod seed_laws;
pub mod seed_types;
pub mod seeding;
pub mod service;
pub mod shapes;
pub mod snap_laws;
pub mod snapshot;
pub mod snapshot_flow;
pub mod snapshot_fns;
pub mod snapshot_items;
pub mod snapshot_text;
pub mod snapshot_types;
pub mod source;
pub mod source_laws;
pub mod store;
pub mod store_laws;
pub mod syntax;
pub mod tracking;
pub mod tree_walk;
pub mod types;
pub mod values;
pub mod world;
