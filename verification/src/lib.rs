//! Environment-variable synchronization and JSON inspection.
//!
//! The crate keeps three views of a user's environment variables consistent
//! (an in-memory list, the live process environment, and a line-oriented
//! shell startup file) through idempotent text edits, and separately offers
//! structural validation, statistics, and reformatting of JSON documents.

pub mod editor;
pub mod engine;
pub mod json;
pub mod locator;
pub mod text;
pub mod validator;

pub use engine::EnvVar;
pub use json::{JsonStats, JsonValidationResult};
pub use validator::is_valid_var_name;
