//! The dependencies of one task: what it waits for, what waits for it, and
//! whether it is blocked.

use vstd::prelude::*;
use crate::commands::done::numbers_of;
use crate::commands::query::all_numbers;
use crate::dependency::{contains_id, is_number_of};
use crate::error::TodoError;
use crate::models::task::{
    find_position, has_task, lemma_blocked_iff_blocking, resolves_at,
    task_views, Task, TaskView,
};
use crate::storage::Storage;

verus! {

/// One prerequisite of a task.
#[derive(Clone, Copy, Debug, PartialEq, Eq)]
pub enum Prerequisite {
    /// The prerequisite is the task with the number `number`, which is
    /// completed or not.
    Known { number: usize, completed: bool },
    /// No task of the list bears the identifier of the prerequisite.
    Missing,
}

/// The dependencies of one task.
#[derive(Clone, Debug, PartialEq, Eq)]
pub struct DepsReport {
    /// The number of the task.
    pub id: usize,
    /// The text of the task.
    pub text: String,
    /// The prerequisites of the task, in the order in which it lists them.
    pub depends_on: Vec<Prerequisite>,
    /// The numbers of the tasks that have this one as a prerequisite.
    pub required_by: Vec<usize>,
    /// The numbers of the prerequisites that are still pending.
    pub blocked_by: Vec<usize>,
}

/// `p` describes the prerequisite `id` in the list `tasks`.
pub open spec fn describes(tasks: Seq<TaskView>, id: u128, p: Prerequisite) -> bool {
    match p {
        Prerequisite::Known { number, completed } => {
            &&& resolves_at(tasks, id, number - 1)
            &&& completed == tasks[number - 1].completed
        },
        Prerequisite::Missing => !has_task(tasks, id),
    }
}

/// The numbers of the tasks, other than the one with the number `id`, that
/// have it as a prerequisite.
pub open spec fn dependents(tasks: Seq<TaskView>, id: int) -> Seq<usize> {
    all_numbers(tasks.len()).filter(|n: usize| is_dependent(tasks, id, n))
}

/// The task with the number `n` is another task than the one with the
/// number `id` and has it as a prerequisite.
pub open spec fn is_dependent(tasks: Seq<TaskView>, id: int, n: usize) -> bool {
    n != id && tasks[n - 1].depends_on.contains(tasks[id - 1].uuid)
}

/// `report` tells the dependencies of the task with the number `id`.
pub open spec fn reports_deps(tasks: Seq<TaskView>, id: int, report: DepsReport) -> bool {
    let task = tasks[id - 1];
    let blocking = task.blocking_in(tasks);
    &&& report.id == id
    &&& report.text@ == task.text
    &&& report.depends_on@.len() == task.depends_on.len()
    &&& forall|k: int|
        0 <= k < task.depends_on.len() ==> describes(
            tasks,
            task.depends_on[k],
            #[trigger] report.depends_on@[k],
        )
    &&& report.required_by@ == dependents(tasks, id)
    &&& report.blocked_by@.len() == blocking.len()
    &&& forall|k: int|
        0 <= k < blocking.len() ==> is_number_of(tasks, blocking[k], #[trigger] report.blocked_by@[k] as int)
    &&& report.blocked_by@.len() > 0 <==> task.blocked_in(tasks)
}

/// The numbers of the tasks that have the task with the number `id` as a
/// prerequisite.
fn find_dependents(tasks: &[Task], id: usize) -> (r: Vec<usize>)
    requires
        1 <= id <= tasks@.len(),
    ensures
        r@ == dependents(task_views(tasks@), id as int),
{
    let ghost views = task_views(tasks@);
    let ghost numbers = all_numbers(views.len());
    let ghost pred = |n: usize| is_dependent(task_views(tasks@), id as int, n);
    let uuid = tasks[id - 1].uuid;
    assert(views[id - 1] == tasks@[id - 1]@);
    let len = tasks.len();
    let mut out: Vec<usize> = Vec::new();
    let mut i: usize = 0;
    proof {
        reveal(Seq::filter);
        assert(numbers.subrange(0, 0) =~= Seq::<usize>::empty());
    }
    while i < len
        invariant
            i <= len,
            len == tasks@.len(),
            views == task_views(tasks@),
            numbers == all_numbers(views.len()),
            1 <= id <= views.len(),
            uuid == views[id - 1].uuid,
            pred == |n: usize| is_dependent(task_views(tasks@), id as int, n),
            out@ == numbers.subrange(0, i as int).filter(pred),
        decreases len - i,
    {
        let n = i + 1;
        let depends = n != id && contains_id(&tasks[i].depends_on, uuid);
        proof {
            reveal(Seq::filter);
            let next = numbers.subrange(0, i + 1);
            assert(next.drop_last() =~= numbers.subrange(0, i as int));
            assert(next.last() == n);
            assert(views[n - 1] == tasks@[i as int]@);
            assert(pred(n) == depends);
        }
        if depends {
            out.push(n);
        }
        i += 1;
    }
    proof {
        assert(numbers.subrange(0, i as int) =~= numbers);
    }
    out
}

/// Tells the dependencies of the task with the number `id`.
pub fn report_deps(tasks: &[Task], id: usize) -> (r: Result<DepsReport, TodoError>)
    ensures
        match r {
            Ok(report) => 1 <= id <= tasks@.len() && reports_deps(task_views(tasks@), id as int, report),
            Err(e) => {
                &&& !(1 <= id <= tasks@.len())
                &&& e == (TodoError::InvalidTaskId { id, max: tasks@.len() as usize })
            },
        },
{
    let ghost views = task_views(tasks@);
    let max = tasks.len();
    if id == 0 || id > max {
        return Err(TodoError::InvalidTaskId { id, max });
    }
    let task = &tasks[id - 1];
    assert(views[id - 1] == task@);
    let mut depends_on: Vec<Prerequisite> = Vec::new();
    let mut k: usize = 0;
    while k < task.depends_on.len()
        invariant
            k <= task.depends_on.len(),
            max == tasks@.len(),
            views == task_views(tasks@),
            depends_on@.len() == k,
            forall|j: int|
                0 <= j < k ==> describes(views, task.depends_on@[j], #[trigger] depends_on@[j]),
        decreases task.depends_on.len() - k,
    {
        let dep = task.depends_on[k];
        let line = match find_position(tasks, dep) {
            Some(pos) => {
                assert(views[pos as int] == tasks@[pos as int]@);
                assert(pos < max);
                Prerequisite::Known { number: pos + 1, completed: tasks[pos].completed }
            },
            None => Prerequisite::Missing,
        };
        depends_on.push(line);
        k += 1;
    }
    let required_by = find_dependents(tasks, id);
    let blocking = task.blocking_deps(tasks);
    let blocked_by = numbers_of(tasks, &blocking);
    proof {
        lemma_blocked_iff_blocking(views[id - 1], views);
    }
    Ok(DepsReport { id, text: task.text.clone(), depends_on, required_by, blocked_by })
}

/// Tells the dependencies of the task with the number `id` of the stored
/// list.
pub fn execute<S: Storage>(storage: &S, id: usize) -> (r: Result<DepsReport, TodoError>)
    ensures
        id == 0 ==> r is Err,
        storage.has_model() ==> (match r {
            Ok(report) => 1 <= id <= storage.stored().len() && reports_deps(
                storage.stored(),
                id as int,
                report,
            ),
            Err(e) => e is Storage || (!(1 <= id <= storage.stored().len()) && e == (
            TodoError::InvalidTaskId { id, max: storage.stored().len() as usize })),
        }),
        storage.has_model() && storage.is_reliable() ==> (r is Ok <==> 1 <= id
            <= storage.stored().len()),
        storage.has_model() && storage.is_reliable() ==> (r matches Err(e) ==> e == (
        TodoError::InvalidTaskId { id, max: storage.stored().len() as usize })),
{
    let tasks = match storage.load() {
        Ok(tasks) => tasks,
        Err(e) => {
            return Err(e);
        },
    };
    assert(tasks@.len() == task_views(tasks@).len());
    report_deps(tasks.as_slice(), id)
}

} // verus!
