//! What commits say about a project.
pub mod listener;

pub use listener::CommitEvent;
