//! What a user asks for, as plain values: the arguments of the commands
//! that take more than a task number.
//!
//! Dates arrive here already resolved to calendar dates; turning what a
//! user typed into a date is the caller's business.

use vstd::prelude::*;
use crate::date::Date;
use crate::models::priority::Priority;
use crate::models::recurrence::Recurrence;

verus! {

/// The arguments of the command that adds a task.
#[derive(Clone, Debug, PartialEq, Eq)]
pub struct AddArgs {
    /// What is to be done.
    pub text: String,
    /// How urgent the task is.
    pub priority: Priority,
    /// The tags of the task, as typed.
    pub tag: Vec<String>,
    /// The project of the task, if any.
    pub project: Option<String>,
    /// The due date of the task, if any.
    pub due: Option<Date>,
    /// How the task repeats, if it does.
    pub recurrence: Option<Recurrence>,
    /// The numbers of the tasks that must be completed before this one.
    pub depends_on: Vec<usize>,
}

/// The arguments of the command that edits a task. Only what is given is
/// changed.
#[derive(Clone, Debug, PartialEq, Eq)]
pub struct EditArgs {
    /// The number of the task to edit.
    pub id: usize,
    /// The new text, if the text is to change.
    pub text: Option<String>,
    /// The new priority, if the priority is to change.
    pub priority: Option<Priority>,
    /// Tags to add.
    pub add_tag: Vec<String>,
    /// Tags to remove.
    pub remove_tag: Vec<String>,
    /// The new project, if the project is to change.
    pub project: Option<String>,
    /// Whether to take the task out of its project.
    pub clear_project: bool,
    /// The new due date, if the due date is to change.
    pub due: Option<Date>,
    /// Whether to remove the due date.
    pub clear_due: bool,
    /// Whether to remove every tag.
    pub clear_tags: bool,
    /// The numbers of prerequisites to add.
    pub add_dep: Vec<usize>,
    /// The numbers of prerequisites to remove.
    pub remove_dep: Vec<usize>,
    /// Whether to remove every prerequisite.
    pub clear_deps: bool,
}

/// The commands that keep the task list in step with a Git remote.
#[derive(Clone, Debug, PartialEq, Eq)]
pub enum SyncCommands {
    /// Set up the repository and its remote.
    Init { remote: String },
    /// Commit the task list and push it to the remote.
    Push,
    /// Pull the task list from the remote.
    Pull,
    /// Show the state of the repository.
    Status,
}

} // verus!
