//! Completing a task.
//!
//! A task can be completed once, and only when none of its prerequisites is
//! still pending. Completing a task that repeats spawns its next
//! occurrence, unless a pending task already stands for it.

use vstd::prelude::*;
use crate::date::{Date, Ymd};
use crate::dependency::{
    acyclic, distinct_ids, edge, is_number_of, lemma_fewer_edges_keep_acyclic,
    lemma_new_task_keeps_acyclic, number_of,
};
use crate::error::TodoError;
use crate::models::task::{
    all_coherent, draw_free_id, has_task, id_in_use, id_is_free, is_free_id,
    lemma_blocked_iff_blocking, lemma_free_id, names_id, resolves_at, task_views, Task, TaskView,
};
use crate::storage::Storage;

verus! {

/// What completing a task did besides marking it.
#[derive(Clone, Copy, Debug, PartialEq, Eq)]
pub enum Completion {
    /// The task does not repeat: nothing else was done.
    Completed,
    /// The task repeats, and its next occurrence was added to the list
    /// under the number `next_id`, due on `next_due`.
    Spawned { next_id: usize, next_due: Date },
    /// The task repeats, and a pending task already stood for its next
    /// occurrence: nothing was added.
    NextExists,
}

/// The pending task `t` stands for the occurrence `next` of the task
/// `parent`: it is due on the same day, and it was spawned from `parent` or
/// has the same text.
pub open spec fn stands_for(t: TaskView, next: TaskView, parent: u128) -> bool {
    &&& !t.completed
    &&& t.due_date == next.due_date
    &&& t.parent_id == Some(parent) || t.text == next.text
}

/// Some task of the list stands for the occurrence `next` of `parent`.
pub open spec fn has_occurrence(tasks: Seq<TaskView>, next: TaskView, parent: u128) -> bool {
    exists|k: int| 0 <= k < tasks.len() && stands_for(#[trigger] tasks[k], next, parent)
}

/// The task with the number `id` can be completed: it is in the list, it is
/// pending, and none of its prerequisites is pending.
pub open spec fn may_complete(tasks: Seq<TaskView>, id: int) -> bool {
    &&& 1 <= id <= tasks.len()
    &&& !tasks[id - 1].completed
    &&& !tasks[id - 1].blocked_in(tasks)
}

/// The list with the task at index `i` marked as completed on `today`. This
/// is all that completing does to a task that does not repeat.
pub open spec fn marked_list(tasks: Seq<TaskView>, i: int, today: Ymd) -> Seq<TaskView> {
    tasks.update(i, tasks[i].done_on(today))
}

/// The next occurrence that completing the task at index `i` on `today`
/// may spawn, under the identifier `uuid`.
pub open spec fn occurrence_of(tasks: Seq<TaskView>, i: int, today: Ymd, uuid: u128) -> TaskView {
    tasks[i].next_occurrence(uuid, today, tasks[i].uuid)
}

/// Completing the task at index `i` spawns its next occurrence: the task
/// repeats, and no pending task stands for the occurrence yet.
pub open spec fn spawns(tasks: Seq<TaskView>, i: int, today: Ymd, uuid: u128) -> bool {
    &&& tasks[i].recurs()
    &&& !has_occurrence(
        marked_list(tasks, i, today),
        occurrence_of(tasks, i, today, uuid),
        tasks[i].uuid,
    )
}

/// The list as completing the task at index `i` on `today` leaves it: the
/// task is marked, and its next occurrence is added at the end where one is
/// spawned.
pub open spec fn completed_list(tasks: Seq<TaskView>, i: int, today: Ymd, uuid: u128) -> Seq<
    TaskView,
> {
    if spawns(tasks, i, today, uuid) {
        marked_list(tasks, i, today).push(occurrence_of(tasks, i, today, uuid))
    } else {
        marked_list(tasks, i, today)
    }
}

/// The task with the number `id` can be completed on the day `today`, with
/// `uuid` at hand for its next occurrence: it can be completed, and where
/// completing it spawns an occurrence, the identifier is not nil and not in
/// use.
pub open spec fn may_complete_with(tasks: Seq<TaskView>, id: int, today: Ymd, uuid: u128) -> bool {
    &&& may_complete(tasks, id)
    &&& spawns(tasks, id - 1, today, uuid) ==> id_is_free(tasks, uuid)
}

/// `e` is the reason why the task with the number `id` cannot be
/// completed: the number names no task, or the task is completed already,
/// or prerequisites of it are pending, which the error then names by their
/// numbers, in the order in which the task lists them, or the identifier
/// for the occurrence that would be spawned is nil or in use.
pub open spec fn refuses_completion(
    tasks: Seq<TaskView>,
    id: int,
    today: Ymd,
    uuid: u128,
    e: TodoError,
) -> bool {
    if !(1 <= id <= tasks.len()) {
        e == (TodoError::InvalidTaskId { id: id as usize, max: tasks.len() as usize })
    } else if tasks[id - 1].completed {
        e matches TodoError::TaskAlreadyInStatus { id: n, status } && n == id && status@
            == "completed"@
    } else if tasks[id - 1].blocked_in(tasks) {
        let blocking = tasks[id - 1].blocking_in(tasks);
        e matches TodoError::TaskBlocked(n, numbers) && n == id && numbers@.len() == blocking.len()
            && forall|k: int|
            0 <= k < blocking.len() ==> is_number_of(tasks, blocking[k], #[trigger] numbers@[k] as int)
    } else {
        &&& spawns(tasks, id - 1, today, uuid)
        &&& !id_is_free(tasks, uuid)
        &&& e == TodoError::IdentifierInUse
    }
}

/// What [`complete_task`] reports is what it did.
pub open spec fn reports(tasks: Seq<TaskView>, i: int, today: Ymd, uuid: u128, c: Completion) -> bool {
    match c {
        Completion::Completed => !tasks[i].recurs(),
        Completion::Spawned { next_id, next_due } => {
            &&& spawns(tasks, i, today, uuid)
            &&& next_id == tasks.len() + 1
            &&& Some(next_due@) == occurrence_of(tasks, i, today, uuid).due_date
        },
        Completion::NextExists => tasks[i].recurs() && !spawns(tasks, i, today, uuid),
    }
}

/// The numbers under which the list shows the tasks that `ids` stand for.
pub fn numbers_of(tasks: &[Task], ids: &Vec<u128>) -> (r: Vec<usize>)
    ensures
        r@.len() == ids@.len(),
        forall|k: int|
            0 <= k < ids@.len() ==> is_number_of(task_views(tasks@), ids@[k], #[trigger] r@[k] as int),
{
    let mut out: Vec<usize> = Vec::new();
    let mut k: usize = 0;
    while k < ids.len()
        invariant
            k <= ids.len(),
            out@.len() == k,
            forall|j: int|
                0 <= j < k ==> is_number_of(task_views(tasks@), ids@[j], #[trigger] out@[j] as int),
        decreases ids.len() - k,
    {
        out.push(number_of(tasks, ids[k]));
        k += 1;
    }
    out
}

/// Whether a task of the list stands for the occurrence `next` of
/// `parent`.
fn find_occurrence(tasks: &[Task], next: &Task, parent: u128) -> (r: bool)
    ensures
        r == has_occurrence(task_views(tasks@), next@, parent),
{
    let ghost views = task_views(tasks@);
    let mut k: usize = 0;
    while k < tasks.len()
        invariant
            k <= tasks.len(),
            views == task_views(tasks@),
            forall|j: int| 0 <= j < k ==> !stands_for(#[trigger] views[j], next@, parent),
        decreases tasks.len() - k,
    {
        let t = &tasks[k];
        assert(views[k as int] == t@);
        let same_due = match (t.due_date, next.due_date) {
            (Some(a), Some(b)) => a.is_same(&b),
            (None, None) => true,
            _ => false,
        };
        let same_parent = match t.parent_id {
            Some(p) => p == parent,
            None => false,
        };
        if !t.completed && same_due && (same_parent || t.text == next.text) {
            return true;
        }
        k += 1;
    }
    false
}

/// Marking a task changes no identifier, prerequisite or parent, so an
/// identifier is in use in the list afterwards exactly when it was.
proof fn lemma_marked_keeps_ids(tasks: Seq<TaskView>, i: int, today: Ymd, id: u128)
    requires
        0 <= i < tasks.len(),
    ensures
        id_in_use(marked_list(tasks, i, today), id) == id_in_use(tasks, id),
{
    let marked = marked_list(tasks, i, today);
    if id_in_use(tasks, id) {
        let k = choose|k: int| 0 <= k < tasks.len() && #[trigger] names_id(tasks[k], id);
        assert(names_id(marked[k], id));
    }
    if id_in_use(marked, id) {
        let k = choose|k: int| 0 <= k < marked.len() && #[trigger] names_id(marked[k], id);
        assert(names_id(tasks[k], id));
    }
}

/// Completes the task with the number `id` on the day `today`.
///
/// A task that cannot be completed leaves the list as it was. A task that
/// repeats spawns its next occurrence under the identifier `next_uuid`,
/// unless a pending task already stands for it, so that completing a task
/// again after it was set back to pending adds no second occurrence. The
/// identifier of an occurrence must be new to the list, so completing
/// closes no cycle and no two tasks come to bear the same identifier.
pub fn complete_task(tasks: &mut Vec<Task>, id: usize, today: Date, next_uuid: u128) -> (r: Result<
    Completion,
    TodoError,
>)
    ensures
        match r {
            Ok(c) => {
                &&& may_complete_with(task_views(old(tasks)@), id as int, today@, next_uuid)
                &&& task_views(final(tasks)@) == completed_list(
                    task_views(old(tasks)@),
                    id - 1,
                    today@,
                    next_uuid,
                )
                &&& reports(task_views(old(tasks)@), id - 1, today@, next_uuid, c)
            },
            Err(e) => {
                &&& task_views(final(tasks)@) == task_views(old(tasks)@)
                &&& refuses_completion(task_views(old(tasks)@), id as int, today@, next_uuid, e)
            },
        },
        all_coherent(task_views(old(tasks)@)) ==> all_coherent(task_views(final(tasks)@)),
        acyclic(task_views(old(tasks)@)) ==> acyclic(task_views(final(tasks)@)),
        distinct_ids(task_views(old(tasks)@)) ==> distinct_ids(task_views(final(tasks)@)),
{
    let ghost before = task_views(tasks@);
    let max = tasks.len();
    if id == 0 || id > max {
        return Err(TodoError::InvalidTaskId { id, max });
    }
    let index = id - 1;
    assert(before[index as int] == tasks@[index as int]@);
    if tasks[index].completed {
        return Err(TodoError::TaskAlreadyInStatus { id, status: "completed".to_owned() });
    }
    let blocking = tasks[index].blocking_deps(tasks.as_slice());
    proof {
        lemma_blocked_iff_blocking(before[index as int], before);
    }
    if blocking.len() > 0 {
        let numbers = numbers_of(tasks.as_slice(), &blocking);
        return Err(TodoError::TaskBlocked(id, numbers));
    }
    let unmarked = tasks[index].duplicate();
    let mut task = tasks[index].duplicate();
    task.mark_done_on(today);
    let task_uuid = task.uuid;
    let spawned = task.next_occurrence_with(next_uuid, today, task_uuid);
    tasks[index] = task;
    proof {
        assert(task_views(tasks@) =~= marked_list(before, index as int, today@));
        lemma_marked_keeps_ids(before, index as int, today@, next_uuid);
    }
    match spawned {
        Some(next) => {
            assert(next@ == occurrence_of(before, index as int, today@, next_uuid));
            if !find_occurrence(tasks.as_slice(), &next, task_uuid) {
                if !is_free_id(tasks.as_slice(), next_uuid) {
                    tasks[index] = unmarked;
                    assert(task_views(tasks@) =~= before);
                    return Err(TodoError::IdentifierInUse);
                }
                let next_due = match next.due_date {
                    Some(due) => due,
                    None => today,
                };
                let ghost marked = task_views(tasks@);
                tasks.push(next);
                let next_id = tasks.len();
                proof {
                    assert(task_views(tasks@) =~= marked.push(next@));
                    lemma_completing_keeps_acyclic(before, index as int, today@, next_uuid);
                }
                Ok(Completion::Spawned { next_id, next_due })
            } else {
                proof {
                    lemma_completing_keeps_acyclic(before, index as int, today@, next_uuid);
                }
                Ok(Completion::NextExists)
            }
        },
        None => {
            proof {
                lemma_completing_keeps_acyclic(before, index as int, today@, next_uuid);
            }
            Ok(Completion::Completed)
        },
    }
}

/// Completes the task with the number `id` of the stored list, today, and
/// writes the list back.
///
/// Where the task cannot be completed, or the store cannot be read or
/// written, or no identifier that is not in use can be drawn for an
/// occurrence to spawn, the store keeps what it held. No store has a task
/// with the number zero.
pub fn execute<S: Storage>(storage: &mut S, id: usize) -> (r: Result<Completion, TodoError>)
    ensures
        id == 0 ==> r is Err,
        old(storage).has_model() ==> (match r {
            Ok(c) => {
                &&& may_complete(old(storage).stored(), id as int)
                &&& exists|day: Ymd, uuid: u128|
                    {
                        &&& final(storage).stored() == #[trigger] completed_list(
                            old(storage).stored(),
                            id - 1,
                            day,
                            uuid,
                        )
                        &&& reports(old(storage).stored(), id - 1, day, uuid, c)
                        &&& may_complete_with(old(storage).stored(), id as int, day, uuid)
                    }
            },
            Err(e) => {
                &&& final(storage).stored() == old(storage).stored()
                &&& e is Storage || exists|day: Ymd, uuid: u128| #[trigger]
                    refuses_completion(old(storage).stored(), id as int, day, uuid, e)
            },
        }),
        old(storage).has_model() && old(storage).is_reliable() ==> (r matches Err(e) ==> exists|
            day: Ymd,
            uuid: u128,
        | #[trigger] refuses_completion(old(storage).stored(), id as int, day, uuid, e)),
        old(storage).has_model() && old(storage).is_reliable() && may_complete(
            old(storage).stored(),
            id as int,
        ) && !old(storage).stored()[id - 1].recurs() ==> r is Ok,
        old(storage).has_model() ==> (acyclic(old(storage).stored()) ==> acyclic(
            final(storage).stored(),
        )),
        old(storage).has_model() ==> (distinct_ids(old(storage).stored()) ==> distinct_ids(
            final(storage).stored(),
        )),
{
    let mut tasks = match storage.load() {
        Ok(tasks) => tasks,
        Err(e) => {
            return Err(e);
        },
    };
    let now = Date::today();
    // Where no free identifier can be drawn, the nil identifier stands in:
    // it is refused where an occurrence would need it, and not needed else.
    let uuid = match draw_free_id(tasks.as_slice()) {
        Ok(uuid) => uuid,
        Err(_) => 0,
    };
    let ghost before = task_views(tasks@);
    let done = match complete_task(&mut tasks, id, now, uuid) {
        Ok(done) => done,
        Err(e) => {
            assert(refuses_completion(before, id as int, now@, uuid, e));
            return Err(e);
        },
    };
    match storage.save(tasks.as_slice()) {
        Ok(()) => {
            assert(old(storage).has_model() ==> final(storage).stored() == completed_list(
                before,
                id - 1,
                now@,
                uuid,
            ));
            Ok(done)
        },
        Err(e) => Err(e),
    }
}

/// Completing a task closes no cycle and gives no two tasks the same
/// identifier, provided that the identifier of an occurrence that is
/// spawned is not in use.
pub proof fn lemma_completing_keeps_acyclic(tasks: Seq<TaskView>, i: int, today: Ymd, uuid: u128)
    requires
        0 <= i < tasks.len(),
        spawns(tasks, i, today, uuid) ==> !id_in_use(tasks, uuid),
    ensures
        acyclic(tasks) ==> acyclic(completed_list(tasks, i, today, uuid)),
        distinct_ids(tasks) ==> distinct_ids(completed_list(tasks, i, today, uuid)),
{
    let marked = marked_list(tasks, i, today);
    assert forall|a: u128, j: int| #[trigger] resolves_at(marked, a, j) implies resolves_at(
        tasks,
        a,
        j,
    ) by {
        assert(tasks[j].uuid == marked[j].uuid);
        assert forall|k: int| 0 <= k < j implies (#[trigger] tasks[k]).uuid != a by {
            assert(marked[k].uuid != a);
        }
    }
    assert forall|a: u128, b: u128| #[trigger] edge(marked, a, b) implies edge(tasks, a, b) by {
        let j = choose|j: int| #[trigger] resolves_at(marked, a, j) && marked[j].depends_on.contains(b);
        assert(resolves_at(tasks, a, j));
        assert(tasks[j].depends_on == marked[j].depends_on);
    }
    if acyclic(tasks) {
        lemma_fewer_edges_keep_acyclic(tasks, marked);
    }
    if distinct_ids(tasks) {
        assert forall|a: int, b: int|
            0 <= a < marked.len() && 0 <= b < marked.len() && a != b implies (#[trigger] marked[a]).uuid
            != (#[trigger] marked[b]).uuid by {
            assert(tasks[a].uuid != tasks[b].uuid);
        }
    }
    if spawns(tasks, i, today, uuid) {
        let next = occurrence_of(tasks, i, today, uuid);
        let after = marked.push(next);
        lemma_free_id(tasks, uuid);
        assert forall|k: int| 0 <= k < marked.len() implies !(#[trigger] marked[k]).depends_on.contains(
            uuid,
        ) by {
            assert(marked[k].depends_on == tasks[k].depends_on);
        }
        if has_task(marked, uuid) {
            let k = choose|k: int| 0 <= k < marked.len() && (#[trigger] marked[k]).uuid == uuid;
            assert(tasks[k].uuid == uuid);
        }
        if acyclic(tasks) {
            lemma_new_task_keeps_acyclic(marked, next);
        }
        if distinct_ids(tasks) {
            assert forall|a: int, b: int|
                0 <= a < after.len() && 0 <= b < after.len() && a != b implies (#[trigger] after[a]).uuid
                != (#[trigger] after[b]).uuid by {
                if a < marked.len() && b < marked.len() {
                    assert(marked[a].uuid != marked[b].uuid);
                } else if a < marked.len() {
                    assert(tasks[a].uuid != uuid);
                } else {
                    assert(tasks[b].uuid != uuid);
                }
            }
        }
    }
}

/// The list with the task at index `i` set back to pending.
pub open spec fn reopened_list(tasks: Seq<TaskView>, i: int) -> Seq<TaskView> {
    tasks.update(i, tasks[i].undone())
}

/// Completing a task, setting it back to pending and completing it again
/// spawns no second occurrence: the second completion finds the occurrence
/// that the first one spawned, or the one that the first one found, and
/// adds nothing.
pub proof fn lemma_completing_again_spawns_nothing(
    tasks: Seq<TaskView>,
    i: int,
    first_day: Ymd,
    first_uuid: u128,
    second_day: Ymd,
    second_uuid: u128,
)
    requires
        0 <= i < tasks.len(),
    ensures
        ({
            let once = completed_list(tasks, i, first_day, first_uuid);
            let again = completed_list(reopened_list(once, i), i, second_day, second_uuid);
            again.len() == once.len() && !spawns(reopened_list(once, i), i, second_day, second_uuid)
        }),
{
    let once = completed_list(tasks, i, first_day, first_uuid);
    let reopened = reopened_list(once, i);
    let parent = tasks[i].uuid;
    let first_next = occurrence_of(tasks, i, first_day, first_uuid);
    let second_next = occurrence_of(reopened, i, second_day, second_uuid);
    let marked_again = marked_list(reopened, i, second_day);
    assert(reopened[i].uuid == parent);
    assert(reopened[i].recurs() == tasks[i].recurs());
    if tasks[i].recurs() {
        assert(second_next.due_date == first_next.due_date);
        assert(second_next.text == first_next.text);
        if spawns(tasks, i, first_day, first_uuid) {
            let last = once.len() - 1;
            assert(once[last] == first_next);
            assert(marked_again[last] == first_next);
            assert(stands_for(marked_again[last], second_next, parent));
        } else {
            let marked = marked_list(tasks, i, first_day);
            let k = choose|k: int|
                0 <= k < marked.len() && stands_for(#[trigger] marked[k], first_next, parent);
            assert(k != i);
            assert(marked_again[k] == marked[k]);
            assert(stands_for(marked_again[k], second_next, parent));
        }
        assert(has_occurrence(marked_again, second_next, parent));
    }
}

} // verus!
