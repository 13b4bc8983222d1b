//! Boolean decision-table compression.

pub mod bits;
pub mod compress;
pub mod cube_min;
pub mod laws;
pub mod qm;
pub mod render;
pub mod table;

pub use compress::compress;
pub use table::{CompressedTable, DecisionTable, Error, Row, Rule, Tri, MAX_VARIABLES};
