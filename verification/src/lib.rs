//! A personal task tracker, verified.
//!
//! Tasks may wait for other tasks, repeat on a schedule, and carry tags
//! that are matched loosely against the tags already in use. The rules of
//! the tracker are stated as contracts and proved:
//!
//! - the dependencies of the tasks form a graph without cycles
//!   ([`dependency`]): an edge is added only where it closes none;
//! - a task is completed once, and only when nothing blocks it
//!   ([`commands::done`]); completing a task that repeats spawns its next
//!   occurrence, once ([`models::recurrence`]);
//! - a tag stands for the closest tag in use ([`tag_normalizer`]);
//! - every field of a task meets the rules before it is stored
//!   ([`validation`]).
//!
//! The commands ([`commands`]) work on a list in memory or on a
//! [`storage::Storage`]. Nothing here reads a file or writes to a
//! terminal.

pub mod cli;
pub mod commands;
pub mod date;
pub mod dependency;
pub mod display;
pub mod error;
pub mod models;
pub mod storage;
pub mod sync;
pub mod tag_normalizer;
pub mod text;
pub mod validation;
