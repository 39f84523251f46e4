//! Where the task list is kept.
//!
//! The commands read the whole list from a [`Storage`], change it, and
//! write the whole list back. [`InMemoryStorage`] keeps the list in memory;
//! a program that keeps it elsewhere implements [`Storage`] for its store.

use vstd::prelude::*;
use crate::error::TodoError;
use crate::models::task::{draw_free_id, id_in_use, names_id, task_views, Task, TaskView};

pub mod memory;

pub use memory::InMemoryStorage;

verus! {

/// A store that holds one list of tasks.
///
/// A store may come with a model: a statement, checked with the store, of
/// what it holds. Of a store with a model the commands say exactly how they
/// leave it. A store from elsewhere has none, and nothing is taken on
/// trust of it.
pub trait Storage {
    /// Whether the store comes with a model.
    open spec fn has_model(&self) -> bool {
        false
    }

    /// The list that the store holds, where the store has a model.
    open spec fn stored(&self) -> Seq<TaskView> {
        Seq::empty()
    }

    /// Whether reading and writing the store never fails.
    open spec fn is_reliable(&self) -> bool {
        false
    }

    /// Reads the list. A store that has never been written holds the empty
    /// list. A store with a model fails with [`TodoError::Storage`] only.
    fn load(&self) -> (r: Result<Vec<Task>, TodoError>)
        ensures
            self.has_model() ==> {
                &&& r matches Ok(tasks) ==> task_views(tasks@) == self.stored()
                &&& r matches Err(e) ==> e is Storage
                &&& self.is_reliable() ==> r is Ok
            },
    ;

    /// Writes `tasks` in place of the list that the store holds. Where
    /// writing fails, the store holds what it held. A store with a model
    /// fails with [`TodoError::Storage`] only.
    fn save(&mut self, tasks: &[Task]) -> (r: Result<(), TodoError>)
        ensures
            old(self).has_model() ==> {
                &&& final(self).has_model()
                &&& final(self).is_reliable() == old(self).is_reliable()
                &&& r is Ok ==> final(self).stored() == task_views(tasks@)
                &&& r matches Err(e) ==> e is Storage && final(self).stored() == old(self).stored()
                &&& old(self).is_reliable() ==> r is Ok
            },
    ;

    /// A description of the place where the list is kept, for people to
    /// read.
    fn location(&self) -> String;
}

/// A copy of a list of tasks, equal to it task by task.
pub fn clone_tasks(tasks: &[Task]) -> (r: Vec<Task>)
    ensures
        task_views(r@) == task_views(tasks@),
{
    let mut out: Vec<Task> = Vec::new();
    let mut i: usize = 0;
    while i < tasks.len()
        invariant
            i <= tasks.len(),
            out@.len() == i,
            forall|k: int| 0 <= k < i ==> out@[k]@ == tasks@[k]@,
        decreases tasks.len() - i,
    {
        out.push(tasks[i].duplicate());
        i += 1;
    }
    assert(task_views(out@) =~= task_views(tasks@));
    out
}

/// Writes `tasks` to the store and reads the list back. What comes back is
/// what was written, task by task and field by field.
pub fn round_trip<S: Storage>(storage: &mut S, tasks: &[Task]) -> (r: Result<Vec<Task>, TodoError>)
    requires
        old(storage).has_model(),
    ensures
        final(storage).has_model(),
        r matches Ok(loaded) ==> task_views(loaded@) == task_views(tasks@),
        r matches Ok(loaded) ==> final(storage).stored() == task_views(tasks@),
        r matches Err(e) ==> e is Storage,
        old(storage).is_reliable() ==> r is Ok,
{
    match storage.save(tasks) {
        Ok(()) => storage.load(),
        Err(e) => Err(e),
    }
}

/// The list `after` is `before` with an identifier given to each task that
/// had the nil identifier, and nothing else changed.
pub open spec fn backfilled(before: Seq<TaskView>, after: Seq<TaskView>) -> bool {
    &&& after.len() == before.len()
    &&& forall|i: int|
        0 <= i < before.len() ==> {
            &&& (#[trigger] after[i]).uuid != 0
            &&& before[i].uuid != 0 ==> after[i] == before[i]
            &&& after[i] == TaskView { uuid: after[i].uuid, ..before[i] }
        }
}

/// The identifiers that were given are new: none was in use in `before`,
/// and no two tasks that had the nil identifier were given the same.
pub open spec fn backfilled_apart(before: Seq<TaskView>, after: Seq<TaskView>) -> bool {
    &&& forall|i: int|
        0 <= i < before.len() && (#[trigger] before[i]).uuid == 0 ==> !id_in_use(
            before,
            after[i].uuid,
        )
    &&& forall|i: int, j: int|
        0 <= i < j < before.len() && (#[trigger] before[i]).uuid == 0 && (#[trigger] before[j]).uuid
            == 0 ==> after[i].uuid != after[j].uuid
}

/// Some task of the list has the nil identifier.
pub open spec fn has_nil_id(tasks: Seq<TaskView>) -> bool {
    exists|i: int| 0 <= i < tasks.len() && (#[trigger] tasks[i]).uuid == 0
}

/// Gives a newly drawn identifier to each task that has the nil identifier,
/// as records written before tasks had identifiers do. Returns whether any
/// task was changed, so that the caller can write the list back.
///
/// Each identifier is held against those in use before it is given. Where
/// none can be drawn that is not in use, the list stays as it was.
pub fn backfill_ids(tasks: &mut Vec<Task>) -> (r: Result<bool, TodoError>)
    ensures
        match r {
            Ok(changed) => {
                &&& backfilled(task_views(old(tasks)@), task_views(final(tasks)@))
                &&& backfilled_apart(task_views(old(tasks)@), task_views(final(tasks)@))
                &&& changed <==> has_nil_id(task_views(old(tasks)@))
            },
            Err(e) => {
                &&& task_views(final(tasks)@) == task_views(old(tasks)@)
                &&& has_nil_id(task_views(old(tasks)@))
                &&& e == TodoError::IdentifierInUse
            },
        },
{
    let ghost before = task_views(tasks@);
    let mut out = clone_tasks(tasks.as_slice());
    let mut changed = false;
    let mut i: usize = 0;
    assert(out@.len() == task_views(out@).len());
    while i < out.len()
        invariant
            i <= out.len(),
            before == task_views(tasks@),
            out@.len() == before.len(),
            forall|k: int|
                0 <= k < i ==> {
                    &&& (#[trigger] out@[k])@.uuid != 0
                    &&& before[k].uuid != 0 ==> out@[k]@ == before[k]
                    &&& out@[k]@ == TaskView { uuid: out@[k]@.uuid, ..before[k] }
                    &&& before[k].uuid == 0 ==> !id_in_use(before, out@[k]@.uuid)
                },
            forall|k: int| i <= k < out.len() ==> (#[trigger] out@[k])@ == before[k],
            forall|a: int, b: int|
                0 <= a < b < i && (#[trigger] before[a]).uuid == 0 && (#[trigger] before[b]).uuid == 0
                    ==> out@[a]@.uuid != out@[b]@.uuid,
            changed <==> exists|k: int| 0 <= k < i && (#[trigger] before[k]).uuid == 0,
        decreases out.len() - i,
    {
        if out[i].uuid == 0 {
            assert(before[i as int].uuid == 0);
            let ghost current = task_views(out@);
            let id = match draw_free_id(out.as_slice()) {
                Ok(id) => id,
                Err(e) => {
                    return Err(e);
                },
            };
            proof {
                // What is free in the list as it stands was free in the list as it was.
                if id_in_use(before, id) {
                    let k = choose|k: int| 0 <= k < before.len() && #[trigger] names_id(before[k], id);
                    assert(current[k] == out@[k]@);
                    assert(names_id(current[k], id));
                }
                assert forall|a: int| 0 <= a < i implies out@[a]@.uuid != id by {
                    assert(current[a] == out@[a]@);
                    if out@[a]@.uuid == id {
                        assert(names_id(current[a], id));
                    }
                }
            }
            let mut task = out[i].duplicate();
            task.uuid = id;
            out[i] = task;
            changed = true;
        } else {
            assert(before[i as int].uuid != 0);
        }
        i += 1;
    }
    proof {
        let after = task_views(out@);
        assert forall|k: int| 0 <= k < before.len() implies {
            &&& (#[trigger] after[k]).uuid != 0
            &&& before[k].uuid != 0 ==> after[k] == before[k]
            &&& after[k] == TaskView { uuid: after[k].uuid, ..before[k] }
        } by {
            assert(after[k] == out@[k]@);
        }
        assert forall|k: int| 0 <= k < before.len() && (#[trigger] before[k]).uuid == 0 implies !id_in_use(
            before,
            after[k].uuid,
        ) by {
            assert(after[k] == out@[k]@);
        }
        assert forall|a: int, b: int|
            0 <= a < b < before.len() && (#[trigger] before[a]).uuid == 0 && (#[trigger] before[b]).uuid
                == 0 implies after[a].uuid != after[b].uuid by {
            assert(after[a] == out@[a]@ && after[b] == out@[b]@);
        }
    }
    *tasks = out;
    Ok(changed)
}

} // verus!
