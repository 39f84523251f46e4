//! The ways in which an operation on the task list can be refused.

use vstd::prelude::*;
use crate::date::Date;

verus! {

/// A refused operation. Each value names the one rule that was broken.
///
/// Tasks are named by their number in the list, counted from one.
#[derive(Clone, Debug, PartialEq, Eq)]
pub enum TodoError {
    /// The number `id` names no task: the list holds the numbers 1 to `max`.
    InvalidTaskId { id: usize, max: usize },
    /// The task `id` is already in the state `status`.
    TaskAlreadyInStatus { id: usize, status: String },
    /// No task that passed the other filters bears the tag.
    TagNotFound(String),
    /// No task that passed the other filters belongs to the project.
    ProjectNotFound(String),
    /// No task passes the filters.
    NoTasksFound,
    /// No task has a tag.
    NoTagsFound,
    /// No task has a project.
    NoProjectsFound,
    /// No task matches the search text.
    NoSearchResults(String),
    /// The text of a task is empty or white space only.
    EmptyTaskText,
    /// The text of a task, trimmed, is longer than `max` characters.
    TaskTextTooLong { max: usize, actual: usize },
    /// A tag is empty or white space only.
    EmptyTag,
    /// A tag, trimmed, is longer than `max` characters.
    TagTooLong { max: usize, actual: usize },
    /// A tag holds a character that is no letter, digit, hyphen or underscore.
    InvalidTagFormat { tag: String },
    /// A tag occurs twice, whatever the case of its letters.
    DuplicateTag { tag: String },
    /// A project name is empty or white space only.
    EmptyProjectName,
    /// A project name, trimmed, is longer than `max` characters.
    ProjectNameTooLong { max: usize, actual: usize },
    /// The due date of a new task lies before today.
    DueDateInPast { date: Date },
    /// A task is to repeat but has no due date.
    RecurrenceRequiresDueDate,
    /// The task `task_id` has no due date, so it cannot be made to repeat.
    MissingDueDate { task_id: usize },
    /// A task cannot depend on itself.
    SelfDependency { task_id: usize },
    /// The task cannot be completed: the tasks with the given numbers, on
    /// which it depends, are still pending.
    TaskBlocked(usize, Vec<usize>),
    /// The task `task_id` can be reached from `dep_id`, so depending on it
    /// would close a cycle.
    DependencyCycle { task_id: usize, dep_id: usize },
    /// The task `task_id` does not depend on `dep_id`.
    DependencyNotFound { task_id: usize, dep_id: usize },
    /// The task `task_id` already depends on `dep_id`.
    DuplicateDependency { task_id: usize, dep_id: usize },
    /// None of the tags that were to be removed is on the task `task_id`.
    TagsNotOnTask { task_id: usize },
    /// No identifier could be had for a new task: what was drawn or given
    /// is the nil identifier or is in use in the list already.
    IdentifierInUse,
    /// The synchronization has not been set up.
    SyncNotConfigured,
    /// The store could not be read or written.
    Storage(String),
}

} // verus!
