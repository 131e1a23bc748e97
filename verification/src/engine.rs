//! Completion: which candidates a buffer is offered, in which order, and how
//! much of one a key press accepts.
pub mod completion;
pub mod context;
pub mod display;
pub mod error;
pub mod filesystem;
pub mod fuzzy;
pub mod merge;
pub mod segment;

pub use crate::engine::completion::complete;
pub use crate::engine::filesystem::filesystem_candidates;
pub use crate::engine::fuzzy::fuzzy;
pub use crate::engine::merge::merge_filesystem_candidates;
pub use crate::engine::segment::next_segment;
