//! Editing a task.
//!
//! Only what the arguments give is changed. Everything that is asked for is
//! held against the rules before anything is written, so an edit that is
//! refused leaves the task as it was.

use vstd::prelude::*;
use crate::cli::EditArgs;
use crate::dependency::{
    acyclic, check_new_dependency, contains_id, lemma_new_edges_keep_acyclic,
    lemma_replaced_deps_add_edges_from, new_dependency_verdict, reachable,
};
use crate::date::Ymd;
use crate::error::TodoError;
use crate::models::priority::Priority;
use crate::models::task::{
    all_coherent, opt_date_view, task_views, Task, TaskView,
};
use crate::storage::Storage;
use crate::tag_normalizer::with_new_tags;
use crate::text::{contains_text, opt_text_view, text_views};
use crate::validation::{
    project_is_sound, project_verdict, tags_are_sound, tags_verdict, text_is_sound, text_verdict,
    validate_project_name, validate_tags, validate_task_text,
};

verus! {

/// One thing that an edit changed.
#[derive(Clone, Copy, Debug, PartialEq, Eq, Structural)]
pub enum Change {
    /// The text was replaced.
    Text,
    /// The priority was replaced.
    Priority,
    /// The task was taken out of its project.
    ProjectCleared,
    /// The task was put into a project.
    Project,
    /// Every tag was removed.
    TagsCleared,
    /// Some tags were removed.
    TagsRemoved,
    /// Some tags were added.
    TagsAdded,
    /// The due date was removed.
    DueDateCleared,
    /// The due date was replaced.
    DueDate,
    /// Every prerequisite was removed.
    DepsCleared,
    /// Some prerequisites were removed.
    DepsRemoved,
    /// Some prerequisites were added.
    DepsAdded,
}

/// The identifiers of the tasks that `numbers` name.
pub open spec fn ids_of(tasks: Seq<TaskView>, numbers: Seq<usize>) -> Seq<u128> {
    numbers.map_values(|n: usize| tasks[n - 1].uuid)
}

/// The task with the number `id` may gain the task that `deps[k]` names as
/// a prerequisite: the edge passes the rules for a new edge, and the batch
/// does not name the same task earlier.
pub open spec fn dep_addable(tasks: Seq<TaskView>, id: int, deps: Seq<usize>, k: int) -> bool {
    &&& 1 <= deps[k] <= tasks.len()
    &&& new_dependency_verdict(tasks, id, deps[k] as int, Ok(tasks[deps[k] - 1].uuid))
    &&& forall|j: int| 0 <= j < k ==> #[trigger] deps[j] != deps[k]
}

/// `e` is the reason why `deps[k]` cannot be added: the verdict on the edge
/// by itself, or, where the edge would pass, that the batch names the task
/// twice.
pub open spec fn refuses_added_dep(
    tasks: Seq<TaskView>,
    id: int,
    deps: Seq<usize>,
    k: int,
    e: TodoError,
) -> bool {
    if 1 <= deps[k] <= tasks.len() && new_dependency_verdict(
        tasks,
        id,
        deps[k] as int,
        Ok(tasks[deps[k] - 1].uuid),
    ) {
        e == (TodoError::DuplicateDependency { task_id: id as usize, dep_id: deps[k] })
    } else {
        new_dependency_verdict(tasks, id, deps[k] as int, Err(e))
    }
}

/// The task with the number `id` depends on the task that `deps[k]` names,
/// so that the edge can be removed.
pub open spec fn dep_removable(tasks: Seq<TaskView>, id: int, deps: Seq<usize>, k: int) -> bool {
    &&& 1 <= deps[k] <= tasks.len()
    &&& tasks[id - 1].depends_on.contains(tasks[deps[k] - 1].uuid)
}

/// The tags of `tags` that are not to be removed.
pub open spec fn tags_kept(tags: Seq<Seq<char>>, remove: Seq<Seq<char>>) -> Seq<Seq<char>> {
    tags.filter(|t: Seq<char>| !remove.contains(t))
}

/// The edit removes tags, and none of the tags to remove is on the task.
pub open spec fn removes_no_tag(t: TaskView, args: EditArgs) -> bool {
    &&& !args.clear_tags
    &&& args.remove_tag@.len() > 0
    &&& t.tags.len() > 0
    &&& tags_kept(t.tags, text_views(args.remove_tag@)).len() == t.tags.len()
}

/// The edit described by `args` can be applied to the list: every rule
/// that [`refuses_edit`] names is met.
pub open spec fn may_edit(tasks: Seq<TaskView>, args: EditArgs) -> bool {
    let id = args.id as int;
    &&& 1 <= id <= tasks.len()
    &&& forall|k: int| 0 <= k < args.add_dep@.len() ==> #[trigger] dep_addable(tasks, id, args.add_dep@, k)
    &&& forall|k: int|
        0 <= k < args.remove_dep@.len() ==> #[trigger] dep_removable(tasks, id, args.remove_dep@, k)
    &&& args.text matches Some(text) ==> text_is_sound(text@)
    &&& !args.clear_project && args.project is Some ==> project_is_sound(args.project.unwrap()@)
    &&& !removes_no_tag(tasks[id - 1], args)
    &&& !args.clear_tags ==> tags_are_sound(text_views(args.add_tag@))
    &&& !(args.clear_due && tasks[id - 1].recurrence is Some)
}

/// `e` is the reason why the edit cannot be applied: the first rule that
/// it breaks, in this order.
///
/// 1. The number names a task.
/// 2. Each prerequisite to add passes the rules for a new edge and is named
///    once.
/// 3. Each prerequisite to remove is one that the task has.
/// 4. A new text is sound.
/// 5. A new project name is sound.
/// 6. Where tags are to be removed from a task that has tags, one of them
///    is on the task.
/// 7. The tags to add are sound.
/// 8. A task that repeats keeps its due date.
pub open spec fn refuses_edit(tasks: Seq<TaskView>, args: EditArgs, e: TodoError) -> bool {
    let id = args.id as int;
    if !(1 <= id <= tasks.len()) {
        e == (TodoError::InvalidTaskId { id: args.id, max: tasks.len() as usize })
    } else if exists|k: int| 0 <= k < args.add_dep@.len() && !dep_addable(tasks, id, args.add_dep@, k) {
        exists|k: int|
            {
                &&& 0 <= k < args.add_dep@.len()
                &&& !#[trigger] dep_addable(tasks, id, args.add_dep@, k)
                &&& forall|j: int| 0 <= j < k ==> #[trigger] dep_addable(tasks, id, args.add_dep@, j)
                &&& refuses_added_dep(tasks, id, args.add_dep@, k, e)
            }
    } else if exists|k: int|
        0 <= k < args.remove_dep@.len() && !dep_removable(tasks, id, args.remove_dep@, k) {
        exists|k: int|
            {
                &&& 0 <= k < args.remove_dep@.len()
                &&& !#[trigger] dep_removable(tasks, id, args.remove_dep@, k)
                &&& forall|j: int|
                    0 <= j < k ==> #[trigger] dep_removable(tasks, id, args.remove_dep@, j)
                &&& e == (TodoError::DependencyNotFound {
                    task_id: args.id,
                    dep_id: args.remove_dep@[k],
                })
            }
    } else if args.text is Some && !text_is_sound(args.text.unwrap()@) {
        text_verdict(args.text.unwrap()@, Err(e))
    } else if !args.clear_project && args.project is Some && !project_is_sound(
        args.project.unwrap()@,
    ) {
        project_verdict(args.project.unwrap()@, Err(e))
    } else if removes_no_tag(tasks[id - 1], args) {
        e == (TodoError::TagsNotOnTask { task_id: args.id })
    } else if !args.clear_tags && !tags_are_sound(text_views(args.add_tag@)) {
        tags_verdict(text_views(args.add_tag@), Err(e))
    } else {
        &&& args.clear_due && tasks[id - 1].recurrence is Some
        &&& e == TodoError::RecurrenceRequiresDueDate
    }
}

/// The tags of a task after the edit: none where the tags are cleared,
/// else the tags that are not removed, followed by the tags to add that
/// are not among them.
pub open spec fn edited_tags(t: TaskView, args: EditArgs) -> Seq<Seq<char>> {
    if args.clear_tags {
        Seq::empty()
    } else {
        with_new_tags(tags_kept(t.tags, text_views(args.remove_tag@)), text_views(args.add_tag@))
    }
}

/// The prerequisites of a task after the edit: none where they are
/// cleared, else those that are not removed, followed by those to add.
pub open spec fn edited_deps(t: TaskView, tasks: Seq<TaskView>, args: EditArgs) -> Seq<u128> {
    if args.clear_deps {
        Seq::empty()
    } else {
        t.depends_on.filter(|d: u128| !ids_of(tasks, args.remove_dep@).contains(d)) + ids_of(
            tasks,
            args.add_dep@,
        )
    }
}

/// The text of a task after the edit.
pub open spec fn edited_text(t: TaskView, args: EditArgs) -> Seq<char> {
    match args.text {
        Some(text) => text@,
        None => t.text,
    }
}

/// The priority of a task after the edit.
pub open spec fn edited_priority(t: TaskView, args: EditArgs) -> Priority {
    match args.priority {
        Some(priority) => priority,
        None => t.priority,
    }
}

/// The project of a task after the edit.
pub open spec fn edited_project(t: TaskView, args: EditArgs) -> Option<Seq<char>> {
    if args.clear_project {
        None
    } else if args.project is Some {
        opt_text_view(args.project)
    } else {
        t.project
    }
}

/// The due date of a task after the edit.
pub open spec fn edited_due(t: TaskView, args: EditArgs) -> Option<Ymd> {
    if args.clear_due {
        None
    } else if args.due is Some {
        opt_date_view(args.due)
    } else {
        t.due_date
    }
}

/// The task `t` of the list `tasks` after the edit described by `args`.
pub open spec fn edited_task(t: TaskView, tasks: Seq<TaskView>, args: EditArgs) -> TaskView {
    TaskView {
        text: edited_text(t, args),
        priority: edited_priority(t, args),
        project: edited_project(t, args),
        tags: edited_tags(t, args),
        due_date: edited_due(t, args),
        depends_on: edited_deps(t, tasks, args),
        ..t
    }
}

/// An edit that passes the rules closes no cycle: every prerequisite that
/// it adds passed the rules for a new edge against the list as it was, and
/// every new edge leaves the edited task.
pub proof fn lemma_edit_keeps_acyclic(tasks: Seq<TaskView>, args: EditArgs)
    requires
        may_edit(tasks, args),
        acyclic(tasks),
    ensures
        acyclic(tasks.update(args.id - 1, edited_task(tasks[args.id - 1], tasks, args))),
{
    let i = args.id - 1;
    let t = tasks[i];
    let edited = edited_task(t, tasks, args);
    let after = tasks.update(i, edited);
    let targets = ids_of(tasks, args.add_dep@);
    assert forall|k: int| 0 <= k < targets.len() implies !reachable(
        tasks,
        #[trigger] targets[k],
        t.uuid,
    ) by {
        assert(dep_addable(tasks, args.id as int, args.add_dep@, k));
    }
    assert forall|b: u128| #[trigger] edited.depends_on.contains(b) implies t.depends_on.contains(b)
        || targets.contains(b) by {
        if !args.clear_deps {
            let keep = |d: u128| !ids_of(tasks, args.remove_dep@).contains(d);
            let kept = t.depends_on.filter(keep);
            let m = choose|m: int| 0 <= m < edited.depends_on.len() && edited.depends_on[m] == b;
            if m < kept.len() {
                assert(kept[m] == b);
                assert(kept.contains(b));
                t.depends_on.lemma_filter_contains_rev(keep, b);
            } else {
                assert(targets[m - kept.len()] == b);
            }
        }
    }
    lemma_replaced_deps_add_edges_from(tasks, after, i, targets);
    lemma_new_edges_keep_acyclic(tasks, after, t.uuid, targets);
}

/// One change where `changed` holds, none where it does not.
pub open spec fn change_if(changed: bool, change: Change) -> Seq<Change> {
    if changed {
        seq![change]
    } else {
        Seq::empty()
    }
}

/// What the edit changes of the text.
pub open spec fn text_changes(t: TaskView, args: EditArgs) -> Seq<Change> {
    change_if(args.text is Some && args.text.unwrap()@ != t.text, Change::Text)
}

/// What the edit changes of the priority.
pub open spec fn priority_changes(t: TaskView, args: EditArgs) -> Seq<Change> {
    change_if(args.priority is Some && args.priority.unwrap() != t.priority, Change::Priority)
}

/// What the edit changes of the project.
pub open spec fn project_changes(t: TaskView, args: EditArgs) -> Seq<Change> {
    if args.clear_project {
        change_if(t.project is Some, Change::ProjectCleared)
    } else {
        change_if(
            args.project is Some && opt_text_view(args.project) != t.project,
            Change::Project,
        )
    }
}

/// What the edit changes of the tags.
pub open spec fn tag_changes(t: TaskView, args: EditArgs) -> Seq<Change> {
    let kept = tags_kept(t.tags, text_views(args.remove_tag@));
    if args.clear_tags {
        change_if(t.tags.len() > 0, Change::TagsCleared)
    } else {
        change_if(kept.len() < t.tags.len(), Change::TagsRemoved) + change_if(
            with_new_tags(kept, text_views(args.add_tag@)).len() > kept.len(),
            Change::TagsAdded,
        )
    }
}

/// What the edit changes of the due date.
pub open spec fn due_changes(t: TaskView, args: EditArgs) -> Seq<Change> {
    if args.clear_due {
        change_if(t.due_date is Some, Change::DueDateCleared)
    } else {
        change_if(args.due is Some && opt_date_view(args.due) != t.due_date, Change::DueDate)
    }
}

/// What the edit changes of the prerequisites.
pub open spec fn dep_changes(t: TaskView, args: EditArgs) -> Seq<Change> {
    if args.clear_deps {
        change_if(t.depends_on.len() > 0, Change::DepsCleared)
    } else {
        change_if(args.remove_dep@.len() > 0, Change::DepsRemoved) + change_if(
            args.add_dep@.len() > 0,
            Change::DepsAdded,
        )
    }
}

/// What the edit changes of the task `t`, in the order text, priority,
/// project, tags, due date, prerequisites. A field that is given the value
/// that it has is not changed.
pub open spec fn changes_of(t: TaskView, args: EditArgs) -> Seq<Change> {
    text_changes(t, args) + priority_changes(t, args) + project_changes(t, args) + tag_changes(
        t,
        args,
    ) + due_changes(t, args) + dep_changes(t, args)
}

/// Holds the prerequisites to add against the list and gives the
/// identifiers of the tasks that they name.
fn check_added_deps(tasks: &[Task], id: usize, deps: &Vec<usize>) -> (r: Result<Vec<u128>, TodoError>)
    requires
        1 <= id <= tasks@.len(),
    ensures
        match r {
            Ok(ids) => {
                &&& forall|k: int|
                    0 <= k < deps@.len() ==> #[trigger] dep_addable(
                        task_views(tasks@),
                        id as int,
                        deps@,
                        k,
                    )
                &&& ids@ == ids_of(task_views(tasks@), deps@)
            },
            Err(e) => exists|k: int|
                {
                    &&& 0 <= k < deps@.len()
                    &&& !#[trigger] dep_addable(task_views(tasks@), id as int, deps@, k)
                    &&& forall|j: int|
                        0 <= j < k ==> #[trigger] dep_addable(
                            task_views(tasks@),
                            id as int,
                            deps@,
                            j,
                        )
                    &&& refuses_added_dep(task_views(tasks@), id as int, deps@, k, e)
                },
        },
{
    let ghost views = task_views(tasks@);
    let mut ids: Vec<u128> = Vec::new();
    let mut k: usize = 0;
    while k < deps.len()
        invariant
            k <= deps.len(),
            views == task_views(tasks@),
            ids@.len() == k,
            forall|j: int| 0 <= j < k ==> #[trigger] dep_addable(views, id as int, deps@, j),
            forall|j: int| 0 <= j < k ==> #[trigger] ids@[j] == views[deps@[j] - 1].uuid,
        decreases deps.len() - k,
    {
        let dep_id = deps[k];
        let uuid = match check_new_dependency(tasks, id, dep_id) {
            Ok(uuid) => uuid,
            Err(e) => {
                assert(!dep_addable(views, id as int, deps@, k as int));
                assert(refuses_added_dep(views, id as int, deps@, k as int, e));
                return Err(e);
            },
        };
        assert(1 <= dep_id <= views.len() && uuid == views[dep_id - 1].uuid);
        assert(new_dependency_verdict(views, id as int, dep_id as int, Ok(views[dep_id - 1].uuid)));
        let mut j: usize = 0;
        while j < k
            invariant
                j <= k < deps.len(),
                dep_id == deps@[k as int],
                views == task_views(tasks@),
                1 <= dep_id <= views.len(),
                new_dependency_verdict(views, id as int, dep_id as int, Ok(views[dep_id - 1].uuid)),
                forall|m: int| 0 <= m < k ==> #[trigger] dep_addable(views, id as int, deps@, m),
                forall|m: int| 0 <= m < j ==> #[trigger] deps@[m] != dep_id,
            decreases k - j,
        {
            if deps[j] == dep_id {
                assert(!dep_addable(views, id as int, deps@, k as int));
                assert(refuses_added_dep(
                    views,
                    id as int,
                    deps@,
                    k as int,
                    TodoError::DuplicateDependency { task_id: id, dep_id },
                ));
                return Err(TodoError::DuplicateDependency { task_id: id, dep_id });
            }
            j += 1;
        }
        assert(dep_addable(views, id as int, deps@, k as int));
        ids.push(uuid);
        k += 1;
    }
    assert(ids@ =~= ids_of(views, deps@));
    Ok(ids)
}

/// Holds the prerequisites to remove against those that the task has and
/// gives the identifiers of the tasks that they name.
fn check_removed_deps(tasks: &[Task], id: usize, deps: &Vec<usize>) -> (r: Result<
    Vec<u128>,
    TodoError,
>)
    requires
        1 <= id <= tasks@.len(),
    ensures
        match r {
            Ok(ids) => {
                &&& forall|k: int|
                    0 <= k < deps@.len() ==> #[trigger] dep_removable(
                        task_views(tasks@),
                        id as int,
                        deps@,
                        k,
                    )
                &&& ids@ == ids_of(task_views(tasks@), deps@)
            },
            Err(e) => exists|k: int|
                {
                    &&& 0 <= k < deps@.len()
                    &&& !#[trigger] dep_removable(task_views(tasks@), id as int, deps@, k)
                    &&& forall|j: int|
                        0 <= j < k ==> #[trigger] dep_removable(
                            task_views(tasks@),
                            id as int,
                            deps@,
                            j,
                        )
                    &&& e == (TodoError::DependencyNotFound { task_id: id, dep_id: deps@[k] })
                },
        },
{
    let ghost views = task_views(tasks@);
    let len = tasks.len();
    let task = &tasks[id - 1];
    assert(views[id - 1] == task@);
    let mut ids: Vec<u128> = Vec::new();
    let mut k: usize = 0;
    while k < deps.len()
        invariant
            k <= deps.len(),
            len == tasks@.len(),
            views == task_views(tasks@),
            views[id - 1] == task@,
            ids@.len() == k,
            forall|j: int| 0 <= j < k ==> #[trigger] dep_removable(views, id as int, deps@, j),
            forall|j: int| 0 <= j < k ==> #[trigger] ids@[j] == views[deps@[j] - 1].uuid,
        decreases deps.len() - k,
    {
        let dep_id = deps[k];
        if dep_id == 0 || dep_id > len {
            assert(!dep_removable(views, id as int, deps@, k as int));
            return Err(TodoError::DependencyNotFound { task_id: id, dep_id });
        }
        let uuid = tasks[dep_id - 1].uuid;
        assert(views[dep_id - 1] == tasks@[dep_id - 1]@);
        if !contains_id(&task.depends_on, uuid) {
            assert(!dep_removable(views, id as int, deps@, k as int));
            return Err(TodoError::DependencyNotFound { task_id: id, dep_id });
        }
        assert(dep_removable(views, id as int, deps@, k as int));
        ids.push(uuid);
        k += 1;
    }
    assert(ids@ =~= ids_of(views, deps@));
    Ok(ids)
}

/// The texts of `list` that are not among `remove`, in order.
fn without_texts(list: &Vec<String>, remove: &[String]) -> (r: Vec<String>)
    ensures
        text_views(r@) == tags_kept(text_views(list@), text_views(remove@)),
{
    let ghost views = text_views(list@);
    let ghost keep = |t: Seq<char>| !text_views(remove@).contains(t);
    let mut out: Vec<String> = Vec::new();
    let mut k: usize = 0;
    proof {
        reveal(Seq::filter);
        assert(views.subrange(0, 0) =~= Seq::<Seq<char>>::empty());
    }
    while k < list.len()
        invariant
            k <= list.len(),
            views == text_views(list@),
            keep == |t: Seq<char>| !text_views(remove@).contains(t),
            text_views(out@) == views.subrange(0, k as int).filter(keep),
        decreases list.len() - k,
    {
        let ghost before = text_views(out@);
        proof {
            reveal(Seq::filter);
            let next = views.subrange(0, k + 1);
            assert(next.drop_last() =~= views.subrange(0, k as int));
            assert(next.last() == list@[k as int]@);
        }
        if !contains_text(remove, list[k].as_str()) {
            out.push(list[k].clone());
            assert(text_views(out@) =~= before.push(list@[k as int]@));
        }
        k += 1;
    }
    proof {
        assert(views.subrange(0, k as int) =~= views);
    }
    out
}

/// `list` followed by the texts of `add` that are not in it yet.
fn with_texts(list: Vec<String>, add: &[String]) -> (r: Vec<String>)
    ensures
        text_views(r@) == with_new_tags(text_views(list@), text_views(add@)),
{
    let ghost base = text_views(list@);
    let ghost added = text_views(add@);
    let mut out = list;
    let mut k: usize = 0;
    proof {
        assert(added.subrange(0, 0) =~= Seq::<Seq<char>>::empty());
    }
    while k < add.len()
        invariant
            k <= add.len(),
            added == text_views(add@),
            text_views(out@) == with_new_tags(base, added.subrange(0, k as int)),
        decreases add.len() - k,
    {
        let ghost before = text_views(out@);
        proof {
            let next = added.subrange(0, k + 1);
            assert(next.drop_last() =~= added.subrange(0, k as int));
            assert(next.last() == add@[k as int]@);
        }
        if !contains_text(out.as_slice(), add[k].as_str()) {
            out.push(add[k].clone());
            assert(text_views(out@) =~= before.push(add@[k as int]@));
        }
        k += 1;
    }
    proof {
        assert(added.subrange(0, k as int) =~= added);
    }
    out
}

/// The identifiers of `list` that are not among `remove`, in order,
/// followed by those of `add`.
fn replace_ids(list: &Vec<u128>, remove: &Vec<u128>, add: &Vec<u128>) -> (r: Vec<u128>)
    ensures
        r@ == list@.filter(|d: u128| !remove@.contains(d)) + add@,
{
    let ghost keep = |d: u128| !remove@.contains(d);
    let mut out: Vec<u128> = Vec::new();
    let mut k: usize = 0;
    proof {
        reveal(Seq::filter);
        assert(list@.subrange(0, 0) =~= Seq::<u128>::empty());
    }
    while k < list.len()
        invariant
            k <= list.len(),
            keep == |d: u128| !remove@.contains(d),
            out@ == list@.subrange(0, k as int).filter(keep),
        decreases list.len() - k,
    {
        proof {
            reveal(Seq::filter);
            let next = list@.subrange(0, k + 1);
            assert(next.drop_last() =~= list@.subrange(0, k as int));
            assert(next.last() == list@[k as int]);
        }
        if !contains_id(remove, list[k]) {
            out.push(list[k]);
        }
        k += 1;
    }
    proof {
        assert(list@.subrange(0, k as int) =~= list@);
    }
    let ghost kept = out@;
    let mut m: usize = 0;
    while m < add.len()
        invariant
            m <= add.len(),
            out@ == kept + add@.subrange(0, m as int),
        decreases add.len() - m,
    {
        out.push(add[m]);
        assert(out@ =~= kept + add@.subrange(0, m + 1));
        m += 1;
    }
    proof {
        assert(add@.subrange(0, m as int) =~= add@);
    }
    out
}

/// Holds the edit against the rules. Gives the identifiers of the
/// prerequisites to remove and of those to add.
fn check_edit(tasks: &[Task], args: &EditArgs) -> (r: Result<(Vec<u128>, Vec<u128>), TodoError>)
    ensures
        match r {
            Ok(ids) => {
                &&& may_edit(task_views(tasks@), *args)
                &&& ids.0@ == ids_of(task_views(tasks@), args.remove_dep@)
                &&& ids.1@ == ids_of(task_views(tasks@), args.add_dep@)
            },
            Err(e) => refuses_edit(task_views(tasks@), *args, e),
        },
{
    let ghost views = task_views(tasks@);
    let id = args.id;
    let max = tasks.len();
    if id == 0 || id > max {
        return Err(TodoError::InvalidTaskId { id, max });
    }
    let task = &tasks[id - 1];
    assert(views[id - 1] == task@);
    let added_ids = match check_added_deps(tasks, id, &args.add_dep) {
        Ok(ids) => ids,
        Err(e) => {
            return Err(e);
        },
    };
    let removed_ids = match check_removed_deps(tasks, id, &args.remove_dep) {
        Ok(ids) => ids,
        Err(e) => {
            return Err(e);
        },
    };
    if let Some(text) = &args.text {
        match validate_task_text(text.as_str()) {
            Err(e) => {
                return Err(e);
            },
            Ok(()) => {},
        }
    }
    if !args.clear_project {
        if let Some(p) = &args.project {
            match validate_project_name(p.as_str()) {
                Err(e) => {
                    return Err(e);
                },
                Ok(()) => {},
            }
        }
    }
    if !args.clear_tags && args.remove_tag.len() > 0 && task.tags.len() > 0 {
        let kept = without_texts(&task.tags, args.remove_tag.as_slice());
        assert(kept@.len() == text_views(kept@).len());
        assert(task.tags@.len() == text_views(task.tags@).len());
        if kept.len() == task.tags.len() {
            return Err(TodoError::TagsNotOnTask { task_id: id });
        }
    }
    if !args.clear_tags {
        match validate_tags(args.add_tag.as_slice()) {
            Err(e) => {
                return Err(e);
            },
            Ok(()) => {},
        }
    }
    if args.clear_due && task.recurrence.is_some() {
        return Err(TodoError::RecurrenceRequiresDueDate);
    }
    Ok((removed_ids, added_ids))
}

/// Gives the task the new text, if one is given.
fn apply_text(task: &mut Task, args: &EditArgs, changes: &mut Vec<Change>)
    ensures
        final(task)@ == (TaskView { text: edited_text(old(task)@, *args), ..old(task)@ }),
        final(changes)@ == old(changes)@ + text_changes(old(task)@, *args),
{
    if let Some(text) = &args.text {
        if task.text != *text {
            task.text = text.clone();
            changes.push(Change::Text);
            assert(changes@ =~= old(changes)@ + text_changes(old(task)@, *args));
            return ;
        }
    }
    assert(changes@ =~= old(changes)@ + text_changes(old(task)@, *args));
}

/// Gives the task the new priority, if one is given.
fn apply_priority(task: &mut Task, args: &EditArgs, changes: &mut Vec<Change>)
    ensures
        final(task)@ == (TaskView { priority: edited_priority(old(task)@, *args), ..old(task)@ }),
        final(changes)@ == old(changes)@ + priority_changes(old(task)@, *args),
{
    if let Some(priority) = args.priority {
        if task.priority != priority {
            task.priority = priority;
            changes.push(Change::Priority);
            assert(changes@ =~= old(changes)@ + priority_changes(old(task)@, *args));
            return ;
        }
    }
    assert(changes@ =~= old(changes)@ + priority_changes(old(task)@, *args));
}

/// Takes the task out of its project or puts it into the one given.
fn apply_project(task: &mut Task, args: &EditArgs, changes: &mut Vec<Change>)
    ensures
        final(task)@ == (TaskView { project: edited_project(old(task)@, *args), ..old(task)@ }),
        final(changes)@ == old(changes)@ + project_changes(old(task)@, *args),
{
    if args.clear_project {
        if task.project.is_some() {
            task.project = None;
            changes.push(Change::ProjectCleared);
        }
    } else if let Some(p) = &args.project {
        let same = match &task.project {
            Some(current) => *current == *p,
            None => false,
        };
        if !same {
            task.project = Some(p.clone());
            changes.push(Change::Project);
        }
    }
    assert(changes@ =~= old(changes)@ + project_changes(old(task)@, *args));
}

/// Clears the tags of the task, or removes and adds the tags given.
fn apply_tags(task: &mut Task, args: &EditArgs, changes: &mut Vec<Change>)
    ensures
        final(task)@ == (TaskView { tags: edited_tags(old(task)@, *args), ..old(task)@ }),
        final(changes)@ == old(changes)@ + tag_changes(old(task)@, *args),
{
    let ghost t = task@;
    let old_len = task.tags.len();
    assert(old_len == t.tags.len());
    if args.clear_tags {
        if old_len > 0 {
            changes.push(Change::TagsCleared);
        }
        task.tags = Vec::new();
        assert(text_views(task.tags@) =~= Seq::<Seq<char>>::empty());
    } else {
        let kept = without_texts(&task.tags, args.remove_tag.as_slice());
        let kept_len = kept.len();
        assert(kept_len == text_views(kept@).len());
        if kept_len < old_len {
            changes.push(Change::TagsRemoved);
        }
        let new_tags = with_texts(kept, args.add_tag.as_slice());
        assert(new_tags@.len() == text_views(new_tags@).len());
        if new_tags.len() > kept_len {
            changes.push(Change::TagsAdded);
        }
        task.tags = new_tags;
    }
    assert(changes@ =~= old(changes)@ + tag_changes(t, *args));
}

/// Removes the due date of the task or gives it the one given.
fn apply_due(task: &mut Task, args: &EditArgs, changes: &mut Vec<Change>)
    ensures
        final(task)@ == (TaskView { due_date: edited_due(old(task)@, *args), ..old(task)@ }),
        final(changes)@ == old(changes)@ + due_changes(old(task)@, *args),
{
    if args.clear_due {
        if task.due_date.is_some() {
            task.due_date = None;
            changes.push(Change::DueDateCleared);
        }
    } else if let Some(new_due) = args.due {
        let same = match task.due_date {
            Some(current) => current.is_same(&new_due),
            None => false,
        };
        if !same {
            changes.push(Change::DueDate);
        }
        task.due_date = Some(new_due);
    }
    assert(changes@ =~= old(changes)@ + due_changes(old(task)@, *args));
}

/// Clears the prerequisites of the task, or removes and adds those given.
fn apply_deps(
    task: &mut Task,
    args: &EditArgs,
    removed_ids: &Vec<u128>,
    added_ids: &Vec<u128>,
    changes: &mut Vec<Change>,
)
    ensures
        final(task)@ == (TaskView {
            depends_on: if args.clear_deps {
                Seq::empty()
            } else {
                old(task)@.depends_on.filter(|d: u128| !removed_ids@.contains(d)) + added_ids@
            },
            ..old(task)@
        }),
        final(changes)@ == old(changes)@ + dep_changes(old(task)@, *args),
{
    if args.clear_deps {
        if task.depends_on.len() > 0 {
            changes.push(Change::DepsCleared);
        }
        task.depends_on = Vec::new();
    } else {
        if args.remove_dep.len() > 0 {
            changes.push(Change::DepsRemoved);
        }
        if args.add_dep.len() > 0 {
            changes.push(Change::DepsAdded);
        }
        task.depends_on = replace_ids(&task.depends_on, removed_ids, added_ids);
    }
    assert(changes@ =~= old(changes)@ + dep_changes(old(task)@, *args));
}

/// The task after an edit that passed the rules, and what the edit
/// changed.
fn apply_edit(current: &Task, args: &EditArgs, removed_ids: &Vec<u128>, added_ids: &Vec<u128>) -> (r:
    (Task, Vec<Change>))
    ensures
        r.0@ == (TaskView {
            text: edited_text(current@, *args),
            priority: edited_priority(current@, *args),
            project: edited_project(current@, *args),
            tags: edited_tags(current@, *args),
            due_date: edited_due(current@, *args),
            depends_on: if args.clear_deps {
                Seq::empty()
            } else {
                current@.depends_on.filter(|d: u128| !removed_ids@.contains(d)) + added_ids@
            },
            ..current@
        }),
        r.1@ == changes_of(current@, *args),
{
    let mut task = current.duplicate();
    let mut changes: Vec<Change> = Vec::new();
    apply_text(&mut task, args, &mut changes);
    apply_priority(&mut task, args, &mut changes);
    apply_project(&mut task, args, &mut changes);
    apply_tags(&mut task, args, &mut changes);
    apply_due(&mut task, args, &mut changes);
    apply_deps(&mut task, args, removed_ids, added_ids, &mut changes);
    assert(changes@ =~= changes_of(current@, *args));
    (task, changes)
}

/// Applies the edit described by `args` to the task that it names.
///
/// An edit that breaks a rule changes nothing. An edit that passes changes
/// the fields that it gives and no others, and reports what it changed.
pub fn edit_task(tasks: &mut Vec<Task>, args: EditArgs) -> (r: Result<Vec<Change>, TodoError>)
    ensures
        match r {
            Ok(changes) => {
                &&& may_edit(task_views(old(tasks)@), args)
                &&& task_views(final(tasks)@) == task_views(old(tasks)@).update(
                    args.id - 1,
                    edited_task(
                        task_views(old(tasks)@)[args.id - 1],
                        task_views(old(tasks)@),
                        args,
                    ),
                )
                &&& changes@ == changes_of(task_views(old(tasks)@)[args.id - 1], args)
            },
            Err(e) => {
                &&& task_views(final(tasks)@) == task_views(old(tasks)@)
                &&& refuses_edit(task_views(old(tasks)@), args, e)
            },
        },
        all_coherent(task_views(old(tasks)@)) ==> all_coherent(task_views(final(tasks)@)),
        acyclic(task_views(old(tasks)@)) ==> acyclic(task_views(final(tasks)@)),
        args.add_dep@.contains(args.id) ==> r is Err,
{
    let ghost before = task_views(tasks@);
    let (removed_ids, added_ids) = match check_edit(tasks.as_slice(), &args) {
        Ok(ids) => ids,
        Err(e) => {
            return Err(e);
        },
    };
    let index = args.id - 1;
    let ghost t = before[index as int];
    assert(t == tasks@[index as int]@);
    let (task, changes) = apply_edit(&tasks[index], &args, &removed_ids, &added_ids);
    proof {
        assert(task@.depends_on == edited_deps(t, before, args));
        assert(task@ == edited_task(t, before, args));
    }
    tasks[index] = task;
    proof {
        assert(task_views(tasks@) =~= before.update(index as int, edited_task(t, before, args)));
        if acyclic(before) {
            lemma_edit_keeps_acyclic(before, args);
        }
        if args.add_dep@.contains(args.id) {
            // A task among its own new prerequisites would have been refused.
            let k = choose|k: int| 0 <= k < args.add_dep@.len() && args.add_dep@[k] == args.id;
            assert(dep_addable(before, args.id as int, args.add_dep@, k));
        }
    }
    Ok(changes)
}

/// Applies the edit described by `args` to the stored list and writes the
/// list back, unless the edit changes nothing.
///
/// Where the edit breaks a rule, or the store cannot be read or written,
/// the store keeps what it held.
pub fn execute<S: Storage>(storage: &mut S, args: EditArgs) -> (r: Result<Vec<Change>, TodoError>)
    ensures
        args.id == 0 ==> r is Err,
        args.add_dep@.contains(args.id) ==> r is Err,
        old(storage).has_model() ==> (match r {
                Ok(changes) => {
                    &&& may_edit(old(storage).stored(), args)
                    &&& changes@ == changes_of(old(storage).stored()[args.id - 1], args)
                    &&& changes@.len() > 0 ==> final(storage).stored() == old(storage).stored().update(
                        args.id - 1,
                        edited_task(
                            old(storage).stored()[args.id - 1],
                            old(storage).stored(),
                            args,
                        ),
                    )
                    &&& changes@.len() == 0 ==> final(storage).stored() == old(storage).stored()
                },
                Err(e) => {
                    &&& final(storage).stored() == old(storage).stored()
                    &&& e is Storage || refuses_edit(old(storage).stored(), args, e)
                },
            }),
        old(storage).has_model() && old(storage).is_reliable() ==> (r is Ok <==> may_edit(
            old(storage).stored(),
            args,
        )),
        old(storage).has_model() && old(storage).is_reliable() ==> (r matches Err(e) ==> refuses_edit(
            old(storage).stored(),
            args,
            e,
        )),
{
    let mut tasks = match storage.load() {
        Ok(tasks) => tasks,
        Err(e) => {
            return Err(e);
        },
    };
    let changes = match edit_task(&mut tasks, args) {
        Ok(changes) => changes,
        Err(e) => {
            return Err(e);
        },
    };
    if changes.len() == 0 {
        return Ok(changes);
    }
    match storage.save(tasks.as_slice()) {
        Ok(()) => Ok(changes),
        Err(e) => Err(e),
    }
}

} // verus!
