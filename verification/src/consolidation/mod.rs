//! Finding memories that say the same thing.
pub mod engine;

pub use engine::ConsolidationEngine;
