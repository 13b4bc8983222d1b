//! Domain types: Java entities, relations, and semantic annotations.

pub mod cell_factory;
pub mod derivation;
pub mod entity;
pub mod graph;
pub mod ids;
pub mod relation;
pub mod semantic;
pub mod space_data;
pub mod store;
pub mod witness;

pub use cell_factory::CellFactory;
pub use derivation::DerivationSource;
pub use entity::JavaEntityType;
pub use graph::{Cell, Confidence, Incidence, Provenance, Space};
pub use relation::JavaRelationType;
pub use semantic::SemanticAnnotation;
pub use space_data::{EntityRecord, RelationRecord, SpaceData, UnresolvedRecord};
pub use witness::WitnessInfo;
