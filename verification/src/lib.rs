//! Verified logic of a project-memory engine for coding agents.
pub mod answers;
pub mod cli;
pub mod collectors;
pub mod config;
pub mod consolidation;
pub mod context;
pub mod git_integration;
pub mod graph;
pub mod json;
pub mod mcp;
pub mod models;
pub mod order;
pub mod patch;
pub mod path_guard;
pub mod reflection;
pub mod retrieval;
pub mod text;
pub mod toml_doc;
