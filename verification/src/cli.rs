//! What the command line decides and prints.

pub mod report;
pub mod setup;
