//! Adding a task.
//!
//! The fields of the new task are held against the rules first, and its
//! prerequisites against the list. Its tags are then normalized against the
//! tags in use, and the task goes to the end of the list.

use vstd::prelude::*;
use crate::cli::AddArgs;
use crate::date::{Date, Ymd};
use crate::dependency::{acyclic, distinct_ids, lemma_new_task_keeps_acyclic};
use crate::error::TodoError;
use crate::models::task::{
    all_coherent, draw_free_id, id_in_use, id_is_free, is_free_id, lemma_free_id, opt_date_view,
    task_views, Task, TaskView,
};
use crate::storage::Storage;
use crate::tag_normalizer::{canonical, collect_existing_tags, normalize_tags, notices, tags_in_use};
use crate::text::{opt_text_view, text_views};
use crate::validation::{
    due_is_past, project_is_sound, project_verdict, tags_are_sound, tags_verdict, text_is_sound,
    text_verdict, validate_due_date_on, validate_project_name, validate_recurrence, validate_tags,
    validate_task_text,
};

verus! {

/// What adding a task did.
#[derive(Clone, Debug, PartialEq, Eq)]
pub struct Added {
    /// The number of the new task in the list.
    pub id: usize,
    /// A note for each tag that was replaced by a tag in use.
    pub notices: Vec<String>,
}

/// `k` is the index of the first number of `deps` that names no task of a
/// list of `len` tasks.
pub open spec fn is_first_bad_dep(deps: Seq<usize>, len: nat, k: int) -> bool {
    &&& 0 <= k < deps.len()
    &&& !(1 <= deps[k] <= len)
    &&& forall|j: int| 0 <= j < k ==> 1 <= #[trigger] deps[j] <= len
}

/// Every number of `deps` names a task of a list of `len` tasks.
pub open spec fn deps_in_list(deps: Seq<usize>, len: nat) -> bool {
    forall|j: int| 0 <= j < deps.len() ==> 1 <= #[trigger] deps[j] <= len
}

/// The fields of the task described by `args` are fit to be stored on the
/// day `today`: its text, tags and project are sound, its due date is not
/// in the past, and it has a due date if it repeats.
pub open spec fn fields_sound(args: AddArgs, today: Ymd) -> bool {
    &&& text_is_sound(args.text@)
    &&& tags_are_sound(text_views(args.tag@))
    &&& args.project matches Some(p) ==> project_is_sound(p@)
    &&& !due_is_past(args.due, false, today)
    &&& !(args.recurrence is Some && args.due is None)
}

/// `e` is the first rule that the fields of the task described by `args`
/// break, in the order text, tags, project, due date, recurrence.
pub open spec fn refuses_fields(args: AddArgs, today: Ymd, e: TodoError) -> bool {
    if !text_is_sound(args.text@) {
        text_verdict(args.text@, Err(e))
    } else if !tags_are_sound(text_views(args.tag@)) {
        tags_verdict(text_views(args.tag@), Err(e))
    } else if args.project is Some && !project_is_sound(args.project.unwrap()@) {
        project_verdict(args.project.unwrap()@, Err(e))
    } else if due_is_past(args.due, false, today) {
        e == (TodoError::DueDateInPast { date: args.due.unwrap() })
    } else {
        &&& args.recurrence is Some && args.due is None
        &&& e == TodoError::RecurrenceRequiresDueDate
    }
}

/// The task described by `args` can be added to `tasks` on the day `today`
/// under the identifier `uuid`: its fields are sound, its prerequisites are
/// tasks of the list, and the identifier is not nil and not in use.
pub open spec fn may_add(tasks: Seq<TaskView>, args: AddArgs, uuid: u128, today: Ymd) -> bool {
    &&& fields_sound(args, today)
    &&& deps_in_list(args.depends_on@, tasks.len())
    &&& id_is_free(tasks, uuid)
}

/// `e` is the reason why the task described by `args` cannot be added: the
/// first rule that it breaks, the fields first, then the prerequisites,
/// then the identifier. A prerequisite that is the number that the new task
/// would get is a dependency of the task on itself.
pub open spec fn refuses_addition(
    tasks: Seq<TaskView>,
    args: AddArgs,
    uuid: u128,
    today: Ymd,
    e: TodoError,
) -> bool {
    if !fields_sound(args, today) {
        refuses_fields(args, today, e)
    } else if !deps_in_list(args.depends_on@, tasks.len()) {
        exists|k: int| #[trigger]
            is_first_bad_dep(args.depends_on@, tasks.len(), k) && e == (if args.depends_on@[k]
                == tasks.len() + 1 {
                TodoError::SelfDependency { task_id: args.depends_on@[k] }
            } else {
                TodoError::InvalidTaskId {
                    id: args.depends_on@[k],
                    max: tasks.len() as usize,
                }
            })
    } else {
        &&& !id_is_free(tasks, uuid)
        &&& e == TodoError::IdentifierInUse
    }
}

/// The task that adding `args` to `tasks` creates, under the identifier
/// `uuid` and on the day `today`: a new pending task with the fields given,
/// each tag replaced by the tag in use that it stands for, and with the
/// tasks that the numbers name as its prerequisites.
pub open spec fn added_task(tasks: Seq<TaskView>, args: AddArgs, uuid: u128, today: Ymd) -> TaskView {
    TaskView {
        depends_on: args.depends_on@.map_values(|d: usize| tasks[d - 1].uuid),
        ..TaskView::fresh(
            uuid,
            today,
            args.text@,
            args.priority,
            text_views(args.tag@).map_values(|t: Seq<char>| canonical(t, tags_in_use(tasks))),
            opt_text_view(args.project),
            opt_date_view(args.due),
            args.recurrence,
        )
    }
}

/// A new task closes no cycle and shares its identifier with no task: where
/// the list has no cycle, and the identifier of the new task is not in use,
/// the list with the new task has none; and where no two tasks bore the
/// same identifier, none do.
pub proof fn lemma_added_task_keeps_acyclic(
    tasks: Seq<TaskView>,
    args: AddArgs,
    uuid: u128,
    today: Ymd,
)
    requires
        deps_in_list(args.depends_on@, tasks.len()),
        !id_in_use(tasks, uuid),
    ensures
        acyclic(tasks) ==> acyclic(tasks.push(added_task(tasks, args, uuid, today))),
        distinct_ids(tasks) ==> distinct_ids(tasks.push(added_task(tasks, args, uuid, today))),
{
    let t = added_task(tasks, args, uuid, today);
    lemma_free_id(tasks, uuid);
    if t.depends_on.contains(uuid) {
        let k = choose|k: int| 0 <= k < t.depends_on.len() && t.depends_on[k] == uuid;
        let d = args.depends_on@[k];
        assert(1 <= d <= tasks.len());
        assert(tasks[d - 1].uuid == uuid);
    }
    if acyclic(tasks) {
        lemma_new_task_keeps_acyclic(tasks, t);
    }
    if distinct_ids(tasks) {
        let after = tasks.push(t);
        assert forall|i: int, j: int|
            0 <= i < after.len() && 0 <= j < after.len() && i != j implies (#[trigger] after[i]).uuid
            != (#[trigger] after[j]).uuid by {
            if i < tasks.len() && j < tasks.len() {
                assert(tasks[i].uuid != tasks[j].uuid);
            } else if i < tasks.len() {
                assert(tasks[i].uuid != uuid);
            } else {
                assert(tasks[j].uuid != uuid);
            }
        }
    }
}

/// Holds the fields of a new task against the rules, on the day `today`.
pub fn check_fields(args: &AddArgs, today: Date) -> (r: Result<(), TodoError>)
    ensures
        r is Ok <==> fields_sound(*args, today@),
        r matches Err(e) ==> refuses_fields(*args, today@, e),
{
    match validate_task_text(args.text.as_str()) {
        Err(e) => {
            return Err(e);
        },
        Ok(()) => {},
    }
    match validate_tags(args.tag.as_slice()) {
        Err(e) => {
            return Err(e);
        },
        Ok(()) => {},
    }
    if let Some(p) = &args.project {
        match validate_project_name(p.as_str()) {
            Err(e) => {
                return Err(e);
            },
            Ok(()) => {},
        }
    }
    match validate_due_date_on(args.due, false, today) {
        Err(e) => {
            return Err(e);
        },
        Ok(()) => {},
    }
    validate_recurrence(args.recurrence, args.due)
}

/// Holds the numbers of the prerequisites of a new task against the list
/// and gives the identifiers of the tasks that they name.
fn resolve_new_deps(tasks: &[Task], deps: &Vec<usize>) -> (r: Result<Vec<u128>, TodoError>)
    ensures
        match r {
            Ok(ids) => {
                &&& deps_in_list(deps@, tasks@.len())
                &&& ids@ == deps@.map_values(|d: usize| task_views(tasks@)[d - 1].uuid)
            },
            Err(e) => exists|k: int| #[trigger]
                is_first_bad_dep(deps@, tasks@.len(), k) && e == (if deps@[k] == tasks@.len() + 1 {
                    TodoError::SelfDependency { task_id: deps@[k] }
                } else {
                    TodoError::InvalidTaskId { id: deps@[k], max: tasks@.len() as usize }
                }),
        },
{
    let ghost views = task_views(tasks@);
    let len = tasks.len();
    let mut ids: Vec<u128> = Vec::new();
    let mut k: usize = 0;
    while k < deps.len()
        invariant
            k <= deps.len(),
            len == tasks@.len(),
            views == task_views(tasks@),
            ids@.len() == k,
            forall|j: int| 0 <= j < k ==> 1 <= #[trigger] deps@[j] <= len,
            forall|j: int| 0 <= j < k ==> #[trigger] ids@[j] == views[deps@[j] - 1].uuid,
        decreases deps.len() - k,
    {
        let dep_id = deps[k];
        if dep_id > 0 && dep_id - 1 == len {
            assert(is_first_bad_dep(deps@, tasks@.len(), k as int));
            return Err(TodoError::SelfDependency { task_id: dep_id });
        }
        if dep_id == 0 || dep_id > len {
            assert(is_first_bad_dep(deps@, tasks@.len(), k as int));
            return Err(TodoError::InvalidTaskId { id: dep_id, max: len });
        }
        assert(views[dep_id - 1] == tasks@[dep_id - 1]@);
        ids.push(tasks[dep_id - 1].uuid);
        k += 1;
    }
    assert(ids@ =~= deps@.map_values(|d: usize| views[d - 1].uuid));
    Ok(ids)
}

/// Adds the task described by `args` to the end of the list, under the
/// identifier `uuid` and created on the day `today`.
///
/// A task that breaks a rule is not added, and the list stays as it was.
/// The identifier must be new to the list, so a new task closes no cycle
/// and no two tasks come to bear the same identifier.
pub fn add_task(tasks: &mut Vec<Task>, args: AddArgs, uuid: u128, today: Date) -> (r: Result<
    Added,
    TodoError,
>)
    ensures
        match r {
            Ok(added) => {
                &&& may_add(task_views(old(tasks)@), args, uuid, today@)
                &&& task_views(final(tasks)@) == task_views(old(tasks)@).push(
                    added_task(task_views(old(tasks)@), args, uuid, today@),
                )
                &&& added.id == old(tasks)@.len() + 1
                &&& text_views(added.notices@) == notices(
                    text_views(args.tag@),
                    tags_in_use(task_views(old(tasks)@)),
                )
            },
            Err(e) => {
                &&& task_views(final(tasks)@) == task_views(old(tasks)@)
                &&& refuses_addition(task_views(old(tasks)@), args, uuid, today@, e)
            },
        },
        all_coherent(task_views(old(tasks)@)) ==> all_coherent(task_views(final(tasks)@)),
        acyclic(task_views(old(tasks)@)) ==> acyclic(task_views(final(tasks)@)),
        distinct_ids(task_views(old(tasks)@)) ==> distinct_ids(task_views(final(tasks)@)),
{
    let ghost before = task_views(tasks@);
    match check_fields(&args, today) {
        Err(e) => {
            return Err(e);
        },
        Ok(()) => {},
    }
    let dep_uuids = match resolve_new_deps(tasks.as_slice(), &args.depends_on) {
        Ok(ids) => ids,
        Err(e) => {
            return Err(e);
        },
    };
    if !is_free_id(tasks.as_slice(), uuid) {
        return Err(TodoError::IdentifierInUse);
    }
    let existing_tags = collect_existing_tags(tasks.as_slice());
    let AddArgs { text, priority, tag, project, due, recurrence, depends_on } = args;
    let (normalized_tags, notes) = normalize_tags(tag, existing_tags.as_slice());
    let mut task = Task::with_identity(
        uuid,
        today,
        text,
        priority,
        normalized_tags,
        project,
        due,
        recurrence,
    );
    task.depends_on = dep_uuids;
    assert(task@ == added_task(before, args, uuid, today@));
    tasks.push(task);
    let id = tasks.len();
    proof {
        assert(task_views(tasks@) =~= before.push(added_task(before, args, uuid, today@)));
        lemma_added_task_keeps_acyclic(before, args, uuid, today@);
    }
    Ok(Added { id, notices: notes })
}

/// Adds the task described by `args` to the stored list, created today
/// under a newly drawn identifier, and writes the list back.
///
/// The fields are held against the rules before the store is read, so a
/// task whose fields break a rule is refused whatever the store. Where the
/// task breaks a rule, or the store cannot be read or written, or no
/// identifier can be drawn that is not in use, the store keeps what it
/// held.
pub fn execute<S: Storage>(storage: &mut S, args: AddArgs) -> (r: Result<Added, TodoError>)
    ensures
        exists|day: Date|
            {
                &&& day.wf()
                &&& !#[trigger] fields_sound(args, day@) ==> (r matches Err(e) && refuses_fields(
                    args,
                    day@,
                    e,
                ))
            },
        args.due is None ==> forall|day: Ymd| !#[trigger] fields_sound(args, day) ==> (r matches Err(
            e,
        ) && refuses_fields(args, day, e)),
        old(storage).has_model() ==> (match r {
            Ok(added) => {
                &&& added.id == old(storage).stored().len() + 1
                &&& exists|day: Ymd, uuid: u128|
                    {
                        &&& may_add(old(storage).stored(), args, uuid, day)
                        &&& final(storage).stored() == old(storage).stored().push(
                            #[trigger] added_task(old(storage).stored(), args, uuid, day),
                        )
                    }
            },
            Err(e) => {
                &&& final(storage).stored() == old(storage).stored()
                &&& e is Storage || e == TodoError::IdentifierInUse || exists|day: Ymd, uuid: u128|
                    #[trigger] refuses_addition(old(storage).stored(), args, uuid, day, e)
            },
        }),
        old(storage).has_model() && old(storage).is_reliable() ==> (r matches Err(e) ==> e
            == TodoError::IdentifierInUse || exists|day: Ymd, uuid: u128| #[trigger]
            refuses_addition(old(storage).stored(), args, uuid, day, e)),
        old(storage).has_model() ==> (acyclic(old(storage).stored()) ==> acyclic(
            final(storage).stored(),
        )),
        old(storage).has_model() ==> (distinct_ids(old(storage).stored()) ==> distinct_ids(
            final(storage).stored(),
        )),
{
    let now = Date::today();
    match check_fields(&args, now) {
        Err(e) => {
            assert(!fields_sound(args, now@));
            assert(refuses_addition(old(storage).stored(), args, 0u128, now@, e));
            return Err(e);
        },
        Ok(()) => {
            assert(fields_sound(args, now@));
        },
    }
    let mut tasks = match storage.load() {
        Ok(tasks) => tasks,
        Err(e) => {
            return Err(e);
        },
    };
    let uuid = match draw_free_id(tasks.as_slice()) {
        Ok(uuid) => uuid,
        Err(e) => {
            return Err(e);
        },
    };
    let ghost before = task_views(tasks@);
    let added = match add_task(&mut tasks, args, uuid, now) {
        Ok(added) => added,
        Err(e) => {
            assert(refuses_addition(before, args, uuid, now@, e));
            return Err(e);
        },
    };
    match storage.save(tasks.as_slice()) {
        Ok(()) => {
            assert(old(storage).has_model() ==> final(storage).stored() == before.push(
                added_task(before, args, uuid, now@),
            ));
            Ok(added)
        },
        Err(e) => Err(e),
    }
}

} // verus!
