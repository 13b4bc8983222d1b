//! Specification extraction for legacy Java code bases.

pub mod check_laws;
pub mod cli;
pub mod corroboration;
pub mod invariants;
pub mod json;
pub mod lift;
pub mod lines;
pub mod llm;
pub mod logic;
pub mod mcp;
pub mod model;
pub mod order;
pub mod query;
pub mod seqs;
pub mod text;
pub mod text_laws;
pub mod text_map;
pub mod text_set;
