//! Filters and sort orders for task lists.

use vstd::prelude::*;

verus! {

/// Selects tasks by completion status.
#[derive(Clone, Copy, Debug, PartialEq, Eq, Structural)]
pub enum StatusFilter {
    /// Only pending tasks.
    Pending,
    /// Only completed tasks.
    Done,
    /// Every task.
    All,
}

/// Selects tasks by their due date.
#[derive(Clone, Copy, Debug, PartialEq, Eq, Structural)]
pub enum DueFilter {
    /// Pending tasks whose due date is strictly before today.
    Overdue,
    /// Pending tasks due today or within the next seven days.
    Soon,
    /// Tasks that have a due date.
    WithDue,
    /// Tasks that have no due date.
    NoDue,
}

/// Selects tasks by recurrence pattern.
#[derive(Clone, Copy, Debug, PartialEq, Eq, Structural)]
pub enum RecurrenceFilter {
    /// Only tasks that repeat daily.
    Daily,
    /// Only tasks that repeat weekly.
    Weekly,
    /// Only tasks that repeat monthly.
    Monthly,
    /// Tasks with any recurrence.
    Recurring,
    /// Tasks with no recurrence.
    NonRecurring,
}

/// The order in which a list is shown.
#[derive(Clone, Copy, Debug, PartialEq, Eq, Structural)]
pub enum SortBy {
    /// High before medium before low.
    Priority,
    /// Earliest due date first; tasks without a due date last.
    Due,
    /// Oldest first.
    Created,
}

} // verus!
