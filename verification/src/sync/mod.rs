//! Keeping the task list in step with a Git remote: what is decided here,
//! apart from running Git.

pub mod config;
pub mod git;
pub mod merge;
pub mod message;
