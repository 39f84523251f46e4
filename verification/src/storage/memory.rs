//! A store that keeps the task list in memory.

use vstd::prelude::*;
use crate::error::TodoError;
use crate::models::task::{task_views, Task, TaskView};
use super::{clone_tasks, Storage};

verus! {

/// A store that keeps the list in memory and touches no file. What is
/// saved is what is loaded next.
pub struct InMemoryStorage {
    tasks: Vec<Task>,
}

impl View for InMemoryStorage {
    type V = Seq<TaskView>;

    closed spec fn view(&self) -> Seq<TaskView> {
        task_views(self.tasks@)
    }
}

impl InMemoryStorage {
    /// A store that holds `tasks`.
    pub fn with_tasks(tasks: Vec<Task>) -> (r: Self)
        ensures
            r@ == task_views(tasks@),
    {
        InMemoryStorage { tasks }
    }

    /// The number of tasks that the store holds.
    pub fn len(&self) -> (r: usize)
        ensures
            r == self@.len(),
    {
        self.tasks.len()
    }

    /// Whether the store holds no task.
    pub fn is_empty(&self) -> (r: bool)
        ensures
            r == (self@.len() == 0),
    {
        self.tasks.len() == 0
    }
}

impl Default for InMemoryStorage {
    fn default() -> (r: Self)
        ensures
            r@ == Seq::<TaskView>::empty(),
    {
        let r = InMemoryStorage { tasks: Vec::new() };
        assert(r@ =~= Seq::<TaskView>::empty());
        r
    }
}

impl Storage for InMemoryStorage {
    open spec fn has_model(&self) -> bool {
        true
    }

    open spec fn stored(&self) -> Seq<TaskView> {
        self@
    }

    open spec fn is_reliable(&self) -> bool {
        true
    }

    fn load(&self) -> (r: Result<Vec<Task>, TodoError>)
        ensures
            r matches Ok(tasks) && task_views(tasks@) == self@,
    {
        Ok(clone_tasks(self.tasks.as_slice()))
    }

    fn save(&mut self, tasks: &[Task]) -> (r: Result<(), TodoError>)
        ensures
            r is Ok,
            final(self)@ == task_views(tasks@),
    {
        self.tasks = clone_tasks(tasks);
        Ok(())
    }

    fn location(&self) -> (r: String)
        ensures
            r@ == "memory"@,
    {
        "memory".to_owned()
    }
}

} // verus!
