//! Removing a task.

use vstd::prelude::*;
use crate::error::TodoError;
use crate::models::task::{all_coherent, task_views, Task};
use crate::storage::Storage;
use crate::validation::validate_task_id;

verus! {

/// Takes the task with the number `id` out of the list and returns it. The
/// tasks after it move up by one. A number that names no task changes
/// nothing.
///
/// Tasks that depend on the removed one keep its identifier among their
/// prerequisites; an identifier that no task bears blocks nothing.
pub fn remove_task(tasks: &mut Vec<Task>, id: usize) -> (r: Result<Task, TodoError>)
    ensures
        match r {
            Ok(removed) => {
                &&& 1 <= id <= old(tasks)@.len()
                &&& removed@ == task_views(old(tasks)@)[id - 1]
                &&& task_views(final(tasks)@) == task_views(old(tasks)@).remove(id - 1)
            },
            Err(e) => {
                &&& !(1 <= id <= old(tasks)@.len())
                &&& e == (TodoError::InvalidTaskId { id, max: old(tasks)@.len() as usize })
                &&& task_views(final(tasks)@) == task_views(old(tasks)@)
            },
        },
        all_coherent(task_views(old(tasks)@)) ==> all_coherent(task_views(final(tasks)@)),
{
    let ghost before = task_views(tasks@);
    let max = tasks.len();
    if id == 0 || id > max {
        return Err(TodoError::InvalidTaskId { id, max });
    }
    let removed = tasks.remove(id - 1);
    proof {
        assert(removed@ == before[id - 1]);
        assert(task_views(tasks@) =~= before.remove(id - 1));
    }
    Ok(removed)
}

/// Takes the task with the number `id` out of the stored list, writes the
/// list back and returns the task, provided that the removal is confirmed:
/// `yes` tells that the user agreed to it, or was not to be asked. Without
/// it nothing is removed, and `None` is returned for a number that names a
/// task.
///
/// Where the number names no task, or the store cannot be read or written,
/// the store keeps what it held.
pub fn execute<S: Storage>(storage: &mut S, id: usize, yes: bool) -> (r: Result<
    Option<Task>,
    TodoError,
>)
    ensures
        id == 0 ==> r is Err,
        old(storage).has_model() ==> (match r {
                Ok(Some(removed)) => {
                    &&& yes
                    &&& 1 <= id <= old(storage).stored().len()
                    &&& removed@ == old(storage).stored()[id - 1]
                    &&& final(storage).stored() == old(storage).stored().remove(id - 1)
                },
                Ok(None) => {
                    &&& !yes
                    &&& 1 <= id <= old(storage).stored().len()
                    &&& final(storage).stored() == old(storage).stored()
                },
                Err(e) => {
                    &&& final(storage).stored() == old(storage).stored()
                    &&& e is Storage || (!(1 <= id <= old(storage).stored().len()) && e == (TodoError::InvalidTaskId {
                        id,
                        max: old(storage).stored().len() as usize,
                    }))
                },
            }),
        old(storage).has_model() && old(storage).is_reliable() ==> (r is Ok <==> 1 <= id <= old(
            storage,
        ).stored().len()),
        old(storage).has_model() && old(storage).is_reliable() ==> (r matches Err(e) ==> e == (
        TodoError::InvalidTaskId { id, max: old(storage).stored().len() as usize })),
{
    let mut tasks = match storage.load() {
        Ok(tasks) => tasks,
        Err(e) => {
            return Err(e);
        },
    };
    assert(tasks@.len() == task_views(tasks@).len());
    if !yes {
        return match validate_task_id(id, tasks.len()) {
            Ok(()) => Ok(None),
            Err(e) => Err(e),
        };
    }
    let removed = match remove_task(&mut tasks, id) {
        Ok(removed) => removed,
        Err(e) => {
            return Err(e);
        },
    };
    match storage.save(tasks.as_slice()) {
        Ok(()) => Ok(Some(removed)),
        Err(e) => Err(e),
    }
}

} // verus!
