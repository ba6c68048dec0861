//! Tools that read, write, edit and search files.

pub mod outcome;
pub mod patch;
pub mod policy;
pub mod read;
pub mod search;
pub mod write;
