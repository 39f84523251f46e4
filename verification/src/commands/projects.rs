//! The projects in use, each with the number of its pending and of its
//! completed tasks.

use vstd::prelude::*;
use crate::error::TodoError;
use crate::models::task::{task_views, Task, TaskView};
use crate::storage::Storage;
use crate::tag_normalizer::{lemma_with_new_tags, with_new_tags};
use crate::text::{contains_text, sort_distinct, strictly_ascending, text_views};

verus! {

/// A project with the numbers of its tasks.
#[derive(Clone, Debug, PartialEq, Eq)]
pub struct ProjectCount {
    /// The name of the project.
    pub name: String,
    /// The number of its tasks that are pending.
    pub pending: usize,
    /// The number of its tasks that are completed.
    pub done: usize,
}

/// The project of a task as a list: its name, or nothing.
pub open spec fn project_of(t: TaskView) -> Seq<Seq<char>> {
    match t.project {
        Some(p) => seq![p],
        None => Seq::empty(),
    }
}

/// The names of the projects that the tasks belong to, each once, in the
/// order in which they first occur.
pub open spec fn projects_in_use(tasks: Seq<TaskView>) -> Seq<Seq<char>>
    decreases tasks.len(),
{
    if tasks.len() == 0 {
        Seq::empty()
    } else {
        with_new_tags(projects_in_use(tasks.drop_last()), project_of(tasks.last()))
    }
}

/// No name occurs twice among the projects in use, and a name is among
/// them exactly when some task belongs to the project.
pub proof fn lemma_projects_in_use(tasks: Seq<TaskView>)
    ensures
        projects_in_use(tasks).no_duplicates(),
        forall|name: Seq<char>| #[trigger]
            projects_in_use(tasks).contains(name) <==> exists|i: int|
                0 <= i < tasks.len() && (#[trigger] tasks[i]).project == Some(name),
    decreases tasks.len(),
{
    if tasks.len() > 0 {
        let rest = tasks.drop_last();
        let last = tasks.last();
        lemma_projects_in_use(rest);
        lemma_with_new_tags(projects_in_use(rest), project_of(last));
        assert forall|name: Seq<char>| #[trigger]
            projects_in_use(tasks).contains(name) <==> exists|i: int|
                0 <= i < tasks.len() && (#[trigger] tasks[i]).project == Some(name) by {
            if projects_in_use(rest).contains(name) {
                let i = choose|i: int| 0 <= i < rest.len() && (#[trigger] rest[i]).project == Some(name);
                assert(tasks[i].project == Some(name));
            }
            if project_of(last).contains(name) {
                assert(last.project == Some(name));
                assert(tasks[tasks.len() - 1].project == Some(name));
            }
            if exists|i: int| 0 <= i < tasks.len() && (#[trigger] tasks[i]).project == Some(name) {
                let i = choose|i: int| 0 <= i < tasks.len() && (#[trigger] tasks[i]).project == Some(name);
                if i < rest.len() {
                    assert(rest[i].project == Some(name));
                } else {
                    assert(project_of(last)[0] == name);
                    assert(project_of(last).contains(name));
                }
            }
        }
    }
}

/// The number of tasks of the project `name`, letter for letter, that are
/// completed, if `completed`, or pending.
pub open spec fn members(tasks: Seq<TaskView>, name: Seq<char>, completed: bool) -> nat {
    tasks.filter(|t: TaskView| t.project == Some(name) && t.completed == completed).len()
}

/// The names of the counts, in order.
pub open spec fn counted_projects(counts: Seq<ProjectCount>) -> Seq<Seq<char>> {
    counts.map_values(|c: ProjectCount| c.name@)
}

/// `counts` tells of each project in use, once and in ascending order, how
/// many of its tasks are pending and how many are completed.
pub open spec fn counts_projects(tasks: Seq<TaskView>, counts: Seq<ProjectCount>) -> bool {
    &&& strictly_ascending(counted_projects(counts))
    &&& forall|name: Seq<char>|
        counted_projects(counts).contains(name) <==> exists|i: int|
            0 <= i < tasks.len() && (#[trigger] tasks[i]).project == Some(name)
    &&& forall|k: int|
        0 <= k < counts.len() ==> {
            &&& (#[trigger] counts[k]).pending == members(tasks, counts[k].name@, false)
            &&& counts[k].done == members(tasks, counts[k].name@, true)
        }
}

/// Collects the names of the projects in use, each once, in the order in
/// which they first occur.
pub fn collect_projects(tasks: &[Task]) -> (r: Vec<String>)
    ensures
        text_views(r@) == projects_in_use(task_views(tasks@)),
{
    let ghost views = task_views(tasks@);
    let mut names: Vec<String> = Vec::new();
    let mut i: usize = 0;
    proof {
        assert(views.subrange(0, 0) =~= Seq::<TaskView>::empty());
    }
    while i < tasks.len()
        invariant
            i <= tasks.len(),
            views == task_views(tasks@),
            text_views(names@) == projects_in_use(views.subrange(0, i as int)),
        decreases tasks.len() - i,
    {
        let ghost before = text_views(names@);
        proof {
            let next = views.subrange(0, i + 1);
            assert(next.drop_last() =~= views.subrange(0, i as int));
            assert(next.last() == tasks@[i as int]@);
            let own = project_of(next.last());
            let none = Seq::<Seq<char>>::empty();
            assert(with_new_tags(before, none) == before);
            if own.len() > 0 {
                assert(own.drop_last() =~= none);
                assert(own.last() == tasks@[i as int]@.project.unwrap());
                assert(with_new_tags(before, own) == (if before.contains(own.last()) {
                    before
                } else {
                    before.push(own.last())
                }));
            } else {
                assert(own =~= none);
            }
        }
        if let Some(p) = &tasks[i].project {
            if !contains_text(names.as_slice(), p.as_str()) {
                names.push(p.clone());
                assert(text_views(names@) =~= before.push(p@));
            }
        }
        i += 1;
    }
    proof {
        assert(views.subrange(0, i as int) =~= views);
    }
    names
}

/// Counts the tasks of the project `name` that are completed, if
/// `completed`, or pending.
pub fn count_members(tasks: &[Task], name: &String, completed: bool) -> (r: usize)
    ensures
        r == members(task_views(tasks@), name@, completed),
{
    let ghost views = task_views(tasks@);
    let ghost pred = |t: TaskView| t.project == Some(name@) && t.completed == completed;
    let mut count: usize = 0;
    let mut i: usize = 0;
    proof {
        reveal(Seq::filter);
        assert(views.subrange(0, 0) =~= Seq::<TaskView>::empty());
    }
    while i < tasks.len()
        invariant
            i <= tasks.len(),
            views == task_views(tasks@),
            pred == |t: TaskView| t.project == Some(name@) && t.completed == completed,
            count == views.subrange(0, i as int).filter(pred).len(),
            count <= i,
        decreases tasks.len() - i,
    {
        let task = &tasks[i];
        let belongs = match &task.project {
            Some(p) => *p == *name,
            None => false,
        };
        let counts = belongs && task.completed == completed;
        proof {
            reveal(Seq::filter);
            let next = views.subrange(0, i + 1);
            assert(next.drop_last() =~= views.subrange(0, i as int));
            assert(next.last() == task@);
            assert(pred(next.last()) == counts);
        }
        if counts {
            count += 1;
        }
        i += 1;
    }
    proof {
        assert(views.subrange(0, i as int) =~= views);
    }
    count
}

/// Tells of each project in use, in ascending order, how many of its tasks
/// are pending and how many are completed. A list without projects is an
/// error.
pub fn count_projects(tasks: &[Task]) -> (r: Result<Vec<ProjectCount>, TodoError>)
    ensures
        match r {
            Ok(counts) => counts@.len() > 0 && counts_projects(task_views(tasks@), counts@),
            Err(e) => {
                &&& e == TodoError::NoProjectsFound
                &&& forall|i: int|
                    0 <= i < tasks@.len() ==> (#[trigger] task_views(tasks@)[i]).project is None
            },
        },
{
    let ghost views = task_views(tasks@);
    let names = collect_projects(tasks);
    proof {
        lemma_projects_in_use(views);
        assert(names@.len() == text_views(names@).len());
    }
    if names.len() == 0 {
        proof {
            assert forall|i: int| 0 <= i < tasks@.len() implies (#[trigger] views[i]).project is None by {
                if views[i].project is Some {
                    let name = views[i].project.unwrap();
                    assert(views[i].project == Some(name));
                    assert(projects_in_use(views).contains(name));
                }
            }
        }
        return Err(TodoError::NoProjectsFound);
    }
    let sorted = sort_distinct(names);
    let ghost sorted_names = text_views(sorted@);
    let mut counts: Vec<ProjectCount> = Vec::new();
    let mut k: usize = 0;
    while k < sorted.len()
        invariant
            k <= sorted.len(),
            views == task_views(tasks@),
            sorted_names == text_views(sorted@),
            counts@.len() == k,
            forall|j: int| 0 <= j < k ==> (#[trigger] counts@[j]).name@ == sorted_names[j],
            forall|j: int|
                0 <= j < k ==> {
                    &&& (#[trigger] counts@[j]).pending == members(views, sorted_names[j], false)
                    &&& counts@[j].done == members(views, sorted_names[j], true)
                },
        decreases sorted.len() - k,
    {
        assert(sorted_names[k as int] == sorted@[k as int]@);
        let pending = count_members(tasks, &sorted[k], false);
        let done = count_members(tasks, &sorted[k], true);
        counts.push(ProjectCount { name: sorted[k].clone(), pending, done });
        k += 1;
    }
    proof {
        assert(counted_projects(counts@) =~= sorted_names);
        assert forall|name: Seq<char>|
            counted_projects(counts@).contains(name) <==> exists|i: int|
                0 <= i < views.len() && (#[trigger] views[i]).project == Some(name) by {
            assert(sorted_names.contains(name) <==> projects_in_use(views).contains(name));
        }
    }
    Ok(counts)
}

/// Tells of each project in use in the stored list, in ascending order,
/// how many of its tasks are pending and how many are completed.
pub fn execute<S: Storage>(storage: &S) -> (r: Result<Vec<ProjectCount>, TodoError>)
    ensures
        storage.has_model() ==> (match r {
            Ok(counts) => counts@.len() > 0 && counts_projects(storage.stored(), counts@),
            Err(e) => e is Storage || (e == TodoError::NoProjectsFound && forall|i: int|
                0 <= i < storage.stored().len() ==> (#[trigger] storage.stored()[i]).project is None),
        }),
        storage.has_model() && storage.is_reliable() ==> (r matches Err(e) ==> e == TodoError::NoProjectsFound),
{
    let tasks = match storage.load() {
        Ok(tasks) => tasks,
        Err(e) => {
            return Err(e);
        },
    };
    count_projects(tasks.as_slice())
}

} // verus!
