//! Setting a completed task back to pending.

use vstd::prelude::*;
use crate::commands::done::reopened_list;
use crate::error::TodoError;
use crate::models::task::{all_coherent, task_views, Task, TaskView};
use crate::storage::Storage;

verus! {

/// The task with the number `id` can be set back to pending: it is in the
/// list and it is completed.
pub open spec fn may_reopen(tasks: Seq<TaskView>, id: int) -> bool {
    1 <= id <= tasks.len() && tasks[id - 1].completed
}

/// `e` is the reason why the task with the number `id` cannot be set back
/// to pending: the number names no task, or the task is pending already.
pub open spec fn refuses_reopening(tasks: Seq<TaskView>, id: int, e: TodoError) -> bool {
    if !(1 <= id <= tasks.len()) {
        e == (TodoError::InvalidTaskId { id: id as usize, max: tasks.len() as usize })
    } else {
        &&& !tasks[id - 1].completed
        &&& e matches TodoError::TaskAlreadyInStatus { id: n, status } && n == id && status@
            == "pending"@
    }
}

/// Sets the task with the number `id` back to pending and clears its
/// completion date. An occurrence that its completion spawned stays.
pub fn reopen_task(tasks: &mut Vec<Task>, id: usize) -> (r: Result<(), TodoError>)
    ensures
        match r {
            Ok(()) => {
                &&& may_reopen(task_views(old(tasks)@), id as int)
                &&& task_views(final(tasks)@) == reopened_list(task_views(old(tasks)@), id - 1)
            },
            Err(e) => {
                &&& task_views(final(tasks)@) == task_views(old(tasks)@)
                &&& refuses_reopening(task_views(old(tasks)@), id as int, e)
            },
        },
        all_coherent(task_views(old(tasks)@)) ==> all_coherent(task_views(final(tasks)@)),
{
    let ghost before = task_views(tasks@);
    let max = tasks.len();
    if id == 0 || id > max {
        return Err(TodoError::InvalidTaskId { id, max });
    }
    let index = id - 1;
    assert(before[index as int] == tasks@[index as int]@);
    if !tasks[index].completed {
        return Err(TodoError::TaskAlreadyInStatus { id, status: "pending".to_owned() });
    }
    let mut task = tasks[index].duplicate();
    task.mark_undone();
    tasks[index] = task;
    proof {
        assert(task_views(tasks@) =~= reopened_list(before, index as int));
    }
    Ok(())
}

/// Sets the task with the number `id` of the stored list back to pending
/// and writes the list back.
///
/// Where the task cannot be set back, or the store cannot be read or
/// written, the store keeps what it held.
pub fn execute<S: Storage>(storage: &mut S, id: usize) -> (r: Result<(), TodoError>)
    ensures
        id == 0 ==> r is Err,
        old(storage).has_model() ==> (match r {
                Ok(()) => {
                    &&& may_reopen(old(storage).stored(), id as int)
                    &&& final(storage).stored() == reopened_list(old(storage).stored(), id - 1)
                },
                Err(e) => {
                    &&& final(storage).stored() == old(storage).stored()
                    &&& e is Storage || refuses_reopening(old(storage).stored(), id as int, e)
                },
            }),
        old(storage).has_model() && old(storage).is_reliable() ==> (r is Ok <==> may_reopen(
            old(storage).stored(),
            id as int,
        )),
        old(storage).has_model() && old(storage).is_reliable() ==> (r matches Err(e) ==> refuses_reopening(
            old(storage).stored(),
            id as int,
            e,
        )),
{
    let mut tasks = match storage.load() {
        Ok(tasks) => tasks,
        Err(e) => {
            return Err(e);
        },
    };
    match reopen_task(&mut tasks, id) {
        Ok(()) => {},
        Err(e) => {
            return Err(e);
        },
    }
    storage.save(tasks.as_slice())
}

} // verus!
