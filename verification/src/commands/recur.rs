//! Making a task repeat.
//!
//! A task can repeat only if it has a due date: the next occurrence is
//! counted from it.

use vstd::prelude::*;
use crate::error::TodoError;
use crate::models::recurrence::Recurrence;
use crate::models::task::{all_coherent, task_views, Task, TaskView};
use crate::storage::Storage;

verus! {

/// The list with the recurrence of the task at index `i` replaced.
pub open spec fn with_recurrence(
    tasks: Seq<TaskView>,
    i: int,
    recurrence: Option<Recurrence>,
) -> Seq<TaskView> {
    tasks.update(i, TaskView { recurrence, ..tasks[i] })
}

/// `e` is the reason why the task with the number `id` cannot be made to
/// repeat: the number names no task, or the task has no due date.
pub open spec fn refuses_recurrence(tasks: Seq<TaskView>, id: int, e: TodoError) -> bool {
    if !(1 <= id <= tasks.len()) {
        e == (TodoError::InvalidTaskId { id: id as usize, max: tasks.len() as usize })
    } else {
        &&& tasks[id - 1].due_date is None
        &&& e == (TodoError::MissingDueDate { task_id: id as usize })
    }
}

/// Makes the task with the number `id` repeat by `pattern` and returns the
/// pattern that it had before, if any.
pub fn set_recurrence(tasks: &mut Vec<Task>, id: usize, pattern: Recurrence) -> (r: Result<
    Option<Recurrence>,
    TodoError,
>)
    ensures
        match r {
            Ok(previous) => {
                &&& 1 <= id <= old(tasks)@.len()
                &&& task_views(old(tasks)@)[id - 1].due_date is Some
                &&& previous == task_views(old(tasks)@)[id - 1].recurrence
                &&& task_views(final(tasks)@) == with_recurrence(
                    task_views(old(tasks)@),
                    id - 1,
                    Some(pattern),
                )
            },
            Err(e) => {
                &&& task_views(final(tasks)@) == task_views(old(tasks)@)
                &&& refuses_recurrence(task_views(old(tasks)@), id as int, e)
            },
        },
        all_coherent(task_views(old(tasks)@)) ==> all_coherent(task_views(final(tasks)@)),
{
    let ghost before = task_views(tasks@);
    let max = tasks.len();
    if id == 0 || id > max {
        return Err(TodoError::InvalidTaskId { id, max });
    }
    let index = id - 1;
    assert(before[index as int] == tasks@[index as int]@);
    if tasks[index].due_date.is_none() {
        return Err(TodoError::MissingDueDate { task_id: id });
    }
    let mut task = tasks[index].duplicate();
    let previous = task.recurrence;
    task.recurrence = Some(pattern);
    tasks[index] = task;
    proof {
        assert(task_views(tasks@) =~= with_recurrence(before, index as int, Some(pattern)));
    }
    Ok(previous)
}

/// Makes the task with the number `id` of the stored list repeat by
/// `pattern`, writes the list back, and returns the pattern that the task
/// had before.
///
/// Where the task cannot be made to repeat, or the store cannot be read or
/// written, the store keeps what it held.
pub fn execute<S: Storage>(storage: &mut S, id: usize, pattern: Recurrence) -> (r: Result<
    Option<Recurrence>,
    TodoError,
>)
    ensures
        id == 0 ==> r is Err,
        old(storage).has_model() ==> (match r {
                Ok(previous) => {
                    &&& 1 <= id <= old(storage).stored().len()
                    &&& old(storage).stored()[id - 1].due_date is Some
                    &&& previous == old(storage).stored()[id - 1].recurrence
                    &&& final(storage).stored() == with_recurrence(
                        old(storage).stored(),
                        id - 1,
                        Some(pattern),
                    )
                },
                Err(e) => {
                    &&& final(storage).stored() == old(storage).stored()
                    &&& e is Storage || refuses_recurrence(old(storage).stored(), id as int, e)
                },
            }),
        old(storage).has_model() && old(storage).is_reliable() ==> (r is Err <==> !(1 <= id <= old(
            storage,
        ).stored().len()) || old(storage).stored()[id - 1].due_date is None),
        old(storage).has_model() && old(storage).is_reliable() ==> (r matches Err(e) ==> refuses_recurrence(
            old(storage).stored(),
            id as int,
            e,
        )),
{
    let mut tasks = match storage.load() {
        Ok(tasks) => tasks,
        Err(e) => {
            return Err(e);
        },
    };
    let previous = match set_recurrence(&mut tasks, id, pattern) {
        Ok(previous) => previous,
        Err(e) => {
            return Err(e);
        },
    };
    match storage.save(tasks.as_slice()) {
        Ok(()) => Ok(previous),
        Err(e) => Err(e),
    }
}

} // verus!
