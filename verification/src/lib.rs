//! A layered configuration resolution engine.
//!
//! Given a declarative schema describing a configuration type's fields and
//! per-field sourcing rules, the engine resolves each field from an ordered
//! chain of sources (durable store, environment, literal default, default
//! provider), recurses into nested schemas with automatic key namespacing,
//! and mirrors every sourced value back into the durable store.

pub mod config;
pub mod decimal;
pub mod directives;
pub mod engine;
pub mod errors;
pub mod laws;
pub mod mutations;
pub mod schema;
pub mod source;
pub mod support;
pub mod table;
pub mod text;
pub mod users;
pub mod workspaces;
