//! The tools of the server and the calls to them.

pub mod call_laws;
pub mod calls;
pub mod catalog;
pub mod core_rules;
pub mod dispatch;
pub mod rules_laws;
pub mod server;
pub mod tool_laws;
pub mod trace_text;

pub use server::SpecGraphenServer;
