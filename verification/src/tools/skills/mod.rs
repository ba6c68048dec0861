//! Tools that list and show skills.

pub mod linked_files;
pub mod list;
pub mod skill;
pub mod view;
