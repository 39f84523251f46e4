//! The operations on the task list, one module each.
//!
//! Every operation comes in two forms. The first works on a list in memory
//! and says exactly what it returns and how it leaves the list. The second,
//! `execute`, reads the list from a [`Storage`](crate::storage::Storage),
//! applies the first and writes the list back. Tasks are named by their
//! number in the list, counted from one.

pub mod add;
pub mod clear_recur;
pub mod deps;
pub mod done;
pub mod edit;
pub mod list;
pub mod projects;
pub mod query;
pub mod recur;
pub mod remove;
pub mod search;
pub mod stats;
pub mod sync;
pub mod tags;
pub mod undone;
