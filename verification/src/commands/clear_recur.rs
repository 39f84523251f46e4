//! Stopping a task from repeating. The task stays in the list.

use vstd::prelude::*;
use crate::commands::recur::with_recurrence;
use crate::error::TodoError;
use crate::models::recurrence::Recurrence;
use crate::models::task::{all_coherent, task_views, Task};
use crate::storage::Storage;

verus! {

/// Takes the recurrence off the task with the number `id` and returns the
/// pattern that it had, or `None` where the task did not repeat and nothing
/// was changed.
pub fn clear_recurrence(tasks: &mut Vec<Task>, id: usize) -> (r: Result<
    Option<Recurrence>,
    TodoError,
>)
    ensures
        match r {
            Ok(previous) => {
                &&& 1 <= id <= old(tasks)@.len()
                &&& previous == task_views(old(tasks)@)[id - 1].recurrence
                &&& task_views(final(tasks)@) == with_recurrence(
                    task_views(old(tasks)@),
                    id - 1,
                    None,
                )
            },
            Err(e) => {
                &&& !(1 <= id <= old(tasks)@.len())
                &&& e == (TodoError::InvalidTaskId { id, max: old(tasks)@.len() as usize })
                &&& task_views(final(tasks)@) == task_views(old(tasks)@)
            },
        },
        all_coherent(task_views(old(tasks)@)) ==> all_coherent(task_views(final(tasks)@)),
{
    let ghost before = task_views(tasks@);
    let max = tasks.len();
    if id == 0 || id > max {
        return Err(TodoError::InvalidTaskId { id, max });
    }
    let index = id - 1;
    assert(before[index as int] == tasks@[index as int]@);
    let previous = tasks[index].recurrence;
    if previous.is_some() {
        let mut task = tasks[index].duplicate();
        task.recurrence = None;
        tasks[index] = task;
    }
    proof {
        assert(task_views(tasks@) =~= with_recurrence(before, index as int, None));
    }
    Ok(previous)
}

/// Takes the recurrence off the task with the number `id` of the stored
/// list and returns the pattern that it had. The list is written back only
/// where the task did repeat.
///
/// Where the number names no task, or the store cannot be read or written,
/// the store keeps what it held.
pub fn execute<S: Storage>(storage: &mut S, id: usize) -> (r: Result<Option<Recurrence>, TodoError>)
    ensures
        id == 0 ==> r is Err,
        old(storage).has_model() ==> (match r {
                Ok(previous) => {
                    &&& 1 <= id <= old(storage).stored().len()
                    &&& previous == old(storage).stored()[id - 1].recurrence
                    &&& final(storage).stored() == with_recurrence(old(storage).stored(), id - 1, None)
                },
                Err(e) => {
                    &&& final(storage).stored() == old(storage).stored()
                    &&& e is Storage || (!(1 <= id <= old(storage).stored().len()) && e == (TodoError::InvalidTaskId {
                        id,
                        max: old(storage).stored().len() as usize,
                    }))
                },
            }),
        old(storage).has_model() && old(storage).is_reliable() ==> (r is Ok <==> 1 <= id <= old(
            storage,
        ).stored().len()),
        old(storage).has_model() && old(storage).is_reliable() ==> (r matches Err(e) ==> e == (
        TodoError::InvalidTaskId { id, max: old(storage).stored().len() as usize })),
{
    let mut tasks = match storage.load() {
        Ok(tasks) => tasks,
        Err(e) => {
            return Err(e);
        },
    };
    let ghost before = task_views(tasks@);
    let previous = match clear_recurrence(&mut tasks, id) {
        Ok(previous) => previous,
        Err(e) => {
            return Err(e);
        },
    };
    if previous.is_none() {
        proof {
            assert(with_recurrence(before, id - 1, None) =~= before);
        }
        return Ok(previous);
    }
    match storage.save(tasks.as_slice()) {
        Ok(()) => Ok(previous),
        Err(e) => Err(e),
    }
}

} // verus!
