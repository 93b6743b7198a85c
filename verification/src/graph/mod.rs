//! The graph of entities and the relations between them.
pub mod engine;
pub mod store;


pub use engine::GraphEngine;
