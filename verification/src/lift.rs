//! Lifting of Java sources and JSP screens into plain, analysable facts.

pub mod debug;
pub mod decision_extractor;
pub mod decision_laws;
pub mod decision_walk;
pub mod encoding;
pub mod entity_extractor;
pub mod entity_laws;
pub mod lift_laws;
pub mod lifter;
pub mod merge_laws;
pub mod merging;
pub mod outcome_laws;
pub mod relation_extractor;
pub mod relation_laws;
pub mod report_laws;
pub mod rule_laws;
pub mod screen_laws;
pub mod step_laws;
pub mod switch_model;
pub mod switches;
pub mod symbolic;
pub mod syntax;
pub mod tag_extractor;
pub mod tag_laws;
pub mod tag_paths;
pub mod tag_scan;
pub mod tag_tree;

pub use debug::{TraceResult, TraceStatus, TraceStep};
pub use decision_extractor::{DecisionExtraction, DecisionExtractor, MethodDecision};
pub use lifter::{DiagnosticSeverity, JavaLifter, LiftConfig, LiftDiagnostic, LiftResult, UnresolvedInfo};
pub use tag_extractor::{TagDecision, TagExtraction, TagExtractor};
