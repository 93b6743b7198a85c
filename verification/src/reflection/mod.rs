//! Learning rules from failures that recur.
pub mod engine;

pub use engine::ReflectionEngine;
