//! The domain types: a task, its priority, its recurrence, and the filters
//! that select tasks from a list.

pub mod filters;
pub mod priority;
pub mod recurrence;
pub mod task;

pub use filters::{DueFilter, RecurrenceFilter, SortBy, StatusFilter};
pub use priority::Priority;
pub use recurrence::Recurrence;
pub use task::{count_by_project, Task, TaskView};
