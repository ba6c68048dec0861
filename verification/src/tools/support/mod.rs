//! Helpers shared by the tools.

pub mod content;
pub mod path;
pub mod schema;
