//! Questions about a lifted space and its sources.

pub mod answer_laws;
pub mod binding_laws;
pub mod call_graph;
pub mod column_laws;
pub mod column_usage;
pub mod crud;
pub mod crud_laws;
pub mod crud_lines;
pub mod dead_code;
pub mod dependencies;
pub mod domain;
pub mod enforces;
pub mod engine;
pub mod enrich;
pub mod explain;
pub mod feature;
pub mod feature_laws;
pub mod hotspots;
pub mod impact;
pub mod impact_laws;
pub mod java;
pub mod mybatis;
pub mod names;
pub mod overview;
pub mod package_laws;
pub mod places;
pub mod projection;
pub mod projection_laws;
pub mod reach;
pub mod resolve;
pub mod search;
pub mod source_laws;
pub mod sql;
pub mod sql_laws;
pub mod types;
pub mod unknowns;
pub mod usage_laws;
pub mod witness_laws;

pub use column_usage::ColumnUsageResult;
pub use crud::CrudMatrixResult;
pub use dead_code::DeadCodeResult;
pub use dependencies::DependencyResult;
pub use engine::QueryEngine;
pub use enrich::{EnrichBatchRequest, EnrichRequest};
pub use feature::FeatureResult;
pub use hotspots::HotspotsResult;
pub use impact::ImpactResult;
pub use overview::OverviewResult;
pub use search::SearchResult;
pub use types::{CallGraphResult, CallRelation, ConfidenceWrapped, ExplainResult, WitnessRef};
pub use unknowns::UnknownsResult;
