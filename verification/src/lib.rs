//! Program registries, program identifiers and the decision logic of
//! transitions, verified with Verus.

pub mod identifier;
pub mod reserved;
pub mod program_id;
pub mod index_map;
pub mod registry;
pub mod definitions;
pub mod body;
pub mod program;
pub mod field;
pub mod record;
pub mod values;
pub mod outcomes;
pub mod transition;
pub mod request;
pub mod state;
pub mod prover;
