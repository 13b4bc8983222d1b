//! Fuses several derivations of the same fact and weighs their evidence.

pub mod agreement_laws;
pub mod completion;
pub mod confidence;
pub mod correspondence;
pub mod engine;
pub mod fusion;

pub use self::completion::{run_obstruction_completion, CompletionStats};
pub use self::correspondence::{CorrespondenceAgreement, CorrespondenceResult};
pub use self::engine::{CorroborationConfig, CorroborationEngine, CorroborationStats};
