//! The built-in tools.

pub mod bash;
pub mod files;
pub mod skills;
pub mod support;
