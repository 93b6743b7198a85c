//! Turning what was found into text for a context window.
pub mod composer;
