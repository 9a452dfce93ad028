//! A typed property graph for an autonomous agent's knowledge, with the
//! pipeline that turns generated text into graph primitives.
//!
//! Every function here is verified against its contract. The few places where
//! the library leans on code outside its reach (JSON parsing, the clock, random
//! identifiers, Unicode case mapping) are small wrappers whose contracts are
//! assumed; each says so in its documentation.

pub mod error;
pub mod text;
pub mod taxonomy;
pub mod json;
pub mod clock;
pub mod ident;
pub mod graph;
pub mod model;
pub mod store;
pub mod laws;
pub mod extraction;
pub mod knowledge_gap;
pub mod planning;
pub mod feedback;
pub mod prompt_variants;
pub mod telemetry;
