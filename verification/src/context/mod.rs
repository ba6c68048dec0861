//! Compressing a long history: old tool results are cut short, and what is
//! between a protected head and a protected tail becomes a summary.

pub mod compressor;
pub mod double;
pub mod pruning;
pub mod summary;
