//! The records of the memory: what is remembered, and what a query is about.
pub mod decision;
pub mod entity;
pub mod episodic;
pub mod failure;
pub mod intent;
pub mod kind;
pub mod procedural;

pub use decision::DecisionMemory;
pub use entity::{Entity, EntityType, GraphRelation, RelationType};
pub use episodic::EpisodicMemory;
pub use failure::FailureMemory;
pub use intent::MemoryIntent;
pub use kind::MemoryKind;
pub use procedural::ProceduralMemory;
