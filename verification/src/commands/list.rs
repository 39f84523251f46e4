//! Listing tasks: which tasks pass the filters, in which order they are
//! shown, and under which title.

use vstd::prelude::*;
use crate::commands::query::{
    all_numbers, is_sorted_selection, keep, narrowed, number_all, numbers_in_list, sort_selection,
    Criterion,
};
use crate::date::{today, Date};
use crate::error::TodoError;
use crate::models::filters::{DueFilter, RecurrenceFilter, SortBy, StatusFilter};
use crate::models::priority::Priority;
use crate::models::task::{task_views, Task, TaskView};
use crate::storage::Storage;
use crate::text::opt_text_view;

verus! {

/// What a list shows: its title, the whole task list, and the numbers of
/// the tasks to show, in the order in which to show them.
#[derive(Clone, Debug, PartialEq, Eq)]
pub struct Listing {
    /// The title of the list.
    pub title: String,
    /// The numbers of the tasks to show, in order.
    pub numbers: Vec<usize>,
    /// The whole task list, to look the numbers up in.
    pub tasks: Vec<Task>,
}

/// The filters of a list.
#[derive(Clone, Debug, PartialEq, Eq)]
pub struct ListFilters {
    /// Which tasks to show by completion.
    pub status: StatusFilter,
    /// The priority to show, if only one.
    pub priority: Option<Priority>,
    /// The due-date filter, if any.
    pub due: Option<DueFilter>,
    /// The tag that a task must bear, if any.
    pub tag: Option<String>,
    /// The project that a task must belong to, if any.
    pub project: Option<String>,
    /// The recurrence filter, if any.
    pub recur: Option<RecurrenceFilter>,
}

/// The selection narrowed by the criterion, if there is one.
pub open spec fn narrowed_if(
    tasks: Seq<TaskView>,
    numbers: Seq<usize>,
    c: Option<Criterion>,
) -> Seq<usize> {
    match c {
        Some(c) => narrowed(tasks, numbers, c),
        None => numbers,
    }
}

/// The tasks that pass the filters on status, priority and due date.
pub open spec fn by_basics(tasks: Seq<TaskView>, f: ListFilters, today: Date) -> Seq<usize> {
    let by_status = narrowed(tasks, all_numbers(tasks.len()), Criterion::Status(f.status));
    let by_priority = narrowed_if(
        tasks,
        by_status,
        match f.priority {
            Some(p) => Some(Criterion::Priority(p)),
            None => None,
        },
    );
    narrowed_if(
        tasks,
        by_priority,
        match f.due {
            Some(filter) => Some(Criterion::Due { filter, today }),
            None => None,
        },
    )
}

/// Of these, the tasks that bear the tag asked for.
pub open spec fn by_tag(tasks: Seq<TaskView>, f: ListFilters, today: Date) -> Seq<usize> {
    narrowed_if(
        tasks,
        by_basics(tasks, f, today),
        match f.tag {
            Some(tag) => Some(Criterion::Tag(tag)),
            None => None,
        },
    )
}

/// Of these, the tasks that belong to the project asked for.
pub open spec fn by_project(tasks: Seq<TaskView>, f: ListFilters, today: Date) -> Seq<usize> {
    narrowed_if(
        tasks,
        by_tag(tasks, f, today),
        match f.project {
            Some(project) => Some(Criterion::Project(project)),
            None => None,
        },
    )
}

/// Of these, the tasks that pass the recurrence filter: the tasks that
/// pass every filter.
pub open spec fn selection(tasks: Seq<TaskView>, f: ListFilters, today: Date) -> Seq<usize> {
    narrowed_if(
        tasks,
        by_project(tasks, f, today),
        match f.recur {
            Some(filter) => Some(Criterion::Recurrence(filter)),
            None => None,
        },
    )
}

/// The tag filter leaves none of the tasks that came as far as it.
pub open spec fn tag_is_unknown(tasks: Seq<TaskView>, f: ListFilters, today: Date) -> bool {
    f.tag is Some && by_tag(tasks, f, today).len() == 0 && by_basics(tasks, f, today).len() > 0
}

/// The project filter leaves none of the tasks that came as far as it.
pub open spec fn project_is_unknown(tasks: Seq<TaskView>, f: ListFilters, today: Date) -> bool {
    f.project is Some && by_project(tasks, f, today).len() == 0 && by_tag(tasks, f, today).len() > 0
}

/// `e` is the reason why there is nothing to list: the tag or the project
/// asked for is on none of the tasks that passed the filters before it, or
/// no task passes all filters.
pub open spec fn refuses_listing(tasks: Seq<TaskView>, f: ListFilters, today: Date, e: TodoError) -> bool {
    if tag_is_unknown(tasks, f, today) {
        e matches TodoError::TagNotFound(tag) && tag@ == f.tag.unwrap()@
    } else if project_is_unknown(tasks, f, today) {
        e matches TodoError::ProjectNotFound(project) && project@ == f.project.unwrap()@
    } else {
        selection(tasks, f, today).len() == 0 && e == TodoError::NoTasksFound
    }
}

/// Selects the tasks that pass the filters on the day `today`.
pub fn select(tasks: &[Task], f: &ListFilters, today: Date) -> (r: Result<Vec<usize>, TodoError>)
    ensures
        match r {
            Ok(numbers) => {
                &&& numbers@ == selection(task_views(tasks@), *f, today)
                &&& numbers@.len() > 0
                &&& numbers_in_list(numbers@, tasks@.len())
                &&& !tag_is_unknown(task_views(tasks@), *f, today)
                &&& !project_is_unknown(task_views(tasks@), *f, today)
            },
            Err(e) => refuses_listing(task_views(tasks@), *f, today, e),
        },
{
    let all = number_all(tasks);
    let mut numbers = keep(tasks, &all, &Criterion::Status(f.status));
    if let Some(p) = f.priority {
        numbers = keep(tasks, &numbers, &Criterion::Priority(p));
    }
    if let Some(filter) = f.due {
        numbers = keep(tasks, &numbers, &Criterion::Due { filter, today });
    }
    if let Some(tag) = &f.tag {
        let count_before = numbers.len();
        numbers = keep(tasks, &numbers, &Criterion::Tag(tag.clone()));
        if numbers.len() == 0 && count_before > 0 {
            return Err(TodoError::TagNotFound(tag.clone()));
        }
    }
    if let Some(project) = &f.project {
        let count_before = numbers.len();
        numbers = keep(tasks, &numbers, &Criterion::Project(project.clone()));
        if numbers.len() == 0 && count_before > 0 {
            return Err(TodoError::ProjectNotFound(project.clone()));
        }
    }
    if let Some(filter) = f.recur {
        numbers = keep(tasks, &numbers, &Criterion::Recurrence(filter));
    }
    if numbers.len() == 0 {
        return Err(TodoError::NoTasksFound);
    }
    Ok(numbers)
}

/// The title of a list with the given filters.
///
/// A list of one project is named after the project. Else a list with a
/// recurrence filter is named after it and the status. Else the list is
/// named after the status, the priority and the due-date filter.
pub open spec fn title_of(
    status: StatusFilter,
    priority: Option<Priority>,
    due: Option<DueFilter>,
    project: Option<Seq<char>>,
    recur: Option<RecurrenceFilter>,
) -> Seq<char> {
    if let Some(p) = project {
        "Tasks in project \u{22}"@ + p + "\u{22}"@
    } else if let Some(filter) = recur {
        match (status, filter) {
            (StatusFilter::Pending, RecurrenceFilter::Daily) => "Pending daily recurring tasks"@,
            (StatusFilter::Pending, RecurrenceFilter::Weekly) => "Pending weekly recurring tasks"@,
            (StatusFilter::Pending, RecurrenceFilter::Monthly) => "Pending monthly recurring tasks"@,
            (StatusFilter::Pending, RecurrenceFilter::Recurring) => "Pending recurring tasks"@,
            (StatusFilter::Pending, RecurrenceFilter::NonRecurring) => "Pending non-recurring tasks"@,
            (StatusFilter::Done, RecurrenceFilter::Daily) => "Completed daily recurring tasks"@,
            (StatusFilter::Done, RecurrenceFilter::Weekly) => "Completed weekly recurring tasks"@,
            (StatusFilter::Done, RecurrenceFilter::Monthly) => "Completed monthly recurring tasks"@,
            (StatusFilter::Done, RecurrenceFilter::Recurring) => "Completed recurring tasks"@,
            (StatusFilter::Done, RecurrenceFilter::NonRecurring) => "Completed non-recurring tasks"@,
            (StatusFilter::All, RecurrenceFilter::Daily) => "Daily recurring tasks"@,
            (StatusFilter::All, RecurrenceFilter::Weekly) => "Weekly recurring tasks"@,
            (StatusFilter::All, RecurrenceFilter::Monthly) => "Monthly recurring tasks"@,
            (StatusFilter::All, RecurrenceFilter::Recurring) => "Recurring tasks"@,
            (StatusFilter::All, RecurrenceFilter::NonRecurring) => "Non-recurring tasks"@,
        }
    } else {
        match (status, priority, due) {
            (StatusFilter::Pending, Some(Priority::High), _) => "High priority pending tasks"@,
            (StatusFilter::Pending, Some(Priority::Medium), _) => "Medium priority pending tasks"@,
            (StatusFilter::Pending, Some(Priority::Low), _) => "Low priority pending tasks"@,
            (StatusFilter::Pending, None, Some(DueFilter::Overdue)) => "Pending overdue tasks"@,
            (StatusFilter::Pending, None, Some(DueFilter::Soon)) => "Pending tasks due soon"@,
            (StatusFilter::Pending, None, _) => "Pending tasks"@,
            (StatusFilter::Done, _, _) => "Completed tasks"@,
            (StatusFilter::All, Some(Priority::High), _) => "High priority tasks"@,
            (StatusFilter::All, Some(Priority::Medium), _) => "Medium priority tasks"@,
            (StatusFilter::All, Some(Priority::Low), _) => "Low priority tasks"@,
            (StatusFilter::All, None, Some(DueFilter::Overdue)) => "Overdue tasks"@,
            (StatusFilter::All, None, Some(DueFilter::Soon)) => "Tasks due soon"@,
            (StatusFilter::All, None, Some(DueFilter::WithDue)) => "Tasks with due date"@,
            (StatusFilter::All, None, Some(DueFilter::NoDue)) => "Tasks without due date"@,
            (StatusFilter::All, None, None) => "Tasks"@,
        }
    }
}

/// The title of a list with the given filters.
pub fn determine_title(
    status: StatusFilter,
    priority: Option<Priority>,
    due: Option<DueFilter>,
    project: Option<&str>,
    recur: Option<RecurrenceFilter>,
) -> (r: String)
    ensures
        r@ == title_of(
            status,
            priority,
            due,
            match project {
                Some(p) => Some(p@),
                None => None,
            },
            recur,
        ),
{
    if let Some(p) = project {
        let mut title = "Tasks in project \u{22}".to_owned();
        title.append(p);
        title.append("\u{22}");
        return title;
    }
    if let Some(filter) = recur {
        let title = match (status, filter) {
            (StatusFilter::Pending, RecurrenceFilter::Daily) => "Pending daily recurring tasks",
            (StatusFilter::Pending, RecurrenceFilter::Weekly) => "Pending weekly recurring tasks",
            (StatusFilter::Pending, RecurrenceFilter::Monthly) => "Pending monthly recurring tasks",
            (StatusFilter::Pending, RecurrenceFilter::Recurring) => "Pending recurring tasks",
            (StatusFilter::Pending, RecurrenceFilter::NonRecurring) => "Pending non-recurring tasks",
            (StatusFilter::Done, RecurrenceFilter::Daily) => "Completed daily recurring tasks",
            (StatusFilter::Done, RecurrenceFilter::Weekly) => "Completed weekly recurring tasks",
            (StatusFilter::Done, RecurrenceFilter::Monthly) => "Completed monthly recurring tasks",
            (StatusFilter::Done, RecurrenceFilter::Recurring) => "Completed recurring tasks",
            (StatusFilter::Done, RecurrenceFilter::NonRecurring) => "Completed non-recurring tasks",
            (StatusFilter::All, RecurrenceFilter::Daily) => "Daily recurring tasks",
            (StatusFilter::All, RecurrenceFilter::Weekly) => "Weekly recurring tasks",
            (StatusFilter::All, RecurrenceFilter::Monthly) => "Monthly recurring tasks",
            (StatusFilter::All, RecurrenceFilter::Recurring) => "Recurring tasks",
            (StatusFilter::All, RecurrenceFilter::NonRecurring) => "Non-recurring tasks",
        };
        return title.to_owned();
    }
    let title = match (status, priority, due) {
        (StatusFilter::Pending, Some(Priority::High), _) => "High priority pending tasks",
        (StatusFilter::Pending, Some(Priority::Medium), _) => "Medium priority pending tasks",
        (StatusFilter::Pending, Some(Priority::Low), _) => "Low priority pending tasks",
        (StatusFilter::Pending, None, Some(DueFilter::Overdue)) => "Pending overdue tasks",
        (StatusFilter::Pending, None, Some(DueFilter::Soon)) => "Pending tasks due soon",
        (StatusFilter::Pending, None, _) => "Pending tasks",
        (StatusFilter::Done, _, _) => "Completed tasks",
        (StatusFilter::All, Some(Priority::High), _) => "High priority tasks",
        (StatusFilter::All, Some(Priority::Medium), _) => "Medium priority tasks",
        (StatusFilter::All, Some(Priority::Low), _) => "Low priority tasks",
        (StatusFilter::All, None, Some(DueFilter::Overdue)) => "Overdue tasks",
        (StatusFilter::All, None, Some(DueFilter::Soon)) => "Tasks due soon",
        (StatusFilter::All, None, Some(DueFilter::WithDue)) => "Tasks with due date",
        (StatusFilter::All, None, Some(DueFilter::NoDue)) => "Tasks without due date",
        (StatusFilter::All, None, None) => "Tasks",
    };
    title.to_owned()
}

/// `shown` is the selection in the order asked for: sorted where a sort
/// order is given, else as selected.
pub open spec fn is_shown_order(
    tasks: Seq<TaskView>,
    selected: Seq<usize>,
    sort: Option<SortBy>,
    shown: Seq<usize>,
) -> bool {
    match sort {
        Some(by) => is_sorted_selection(tasks, selected, by, shown),
        None => shown == selected,
    }
}

/// Selects the tasks that pass the filters on the day `today`, puts them in
/// the order asked for and gives the list its title.
pub fn list_tasks(tasks: &[Task], f: &ListFilters, sort: Option<SortBy>, today: Date) -> (r: Result<
    (String, Vec<usize>),
    TodoError,
>)
    ensures
        match r {
            Ok(listed) => {
                &&& selection(task_views(tasks@), *f, today).len() > 0
                &&& is_shown_order(
                    task_views(tasks@),
                    selection(task_views(tasks@), *f, today),
                    sort,
                    listed.1@,
                )
                &&& numbers_in_list(listed.1@, tasks@.len())
                &&& listed.1@.len() == selection(task_views(tasks@), *f, today).len()
                &&& listed.0@ == title_of(f.status, f.priority, f.due, opt_text_view(f.project), f.recur)
            },
            Err(e) => refuses_listing(task_views(tasks@), *f, today, e),
        },
{
    let selected = match select(tasks, f, today) {
        Ok(numbers) => numbers,
        Err(e) => {
            return Err(e);
        },
    };
    let shown = match sort {
        Some(by) => {
            let sorted = sort_selection(tasks, &selected, by);
            proof {
                vstd::seq_lib::to_multiset_len(sorted@);
                vstd::seq_lib::to_multiset_len(selected@);
            }
            sorted
        },
        None => selected,
    };
    let project = match &f.project {
        Some(p) => Some(p.as_str()),
        None => None,
    };
    let title = determine_title(f.status, f.priority, f.due, project, f.recur);
    Ok((title, shown))
}

/// Lists the tasks of the stored list that pass the filters today, in the
/// order asked for.
pub fn execute<S: Storage>(
    storage: &S,
    status: StatusFilter,
    priority: Option<Priority>,
    due: Option<DueFilter>,
    sort: Option<SortBy>,
    tag: Option<String>,
    project: Option<String>,
    recur: Option<RecurrenceFilter>,
) -> (r: Result<Listing, TodoError>)
    ensures
        storage.has_model() ==> (match r {
            Ok(listing) => {
                &&& task_views(listing.tasks@) == storage.stored()
                &&& listing.numbers@.len() > 0
                &&& numbers_in_list(listing.numbers@, listing.tasks@.len())
                &&& listing.title@ == title_of(status, priority, due, opt_text_view(project), recur)
                &&& exists|day: Date| #[trigger]
                    is_shown_order(
                        storage.stored(),
                        selection(
                            storage.stored(),
                            ListFilters { status, priority, due, tag, project, recur },
                            day,
                        ),
                        sort,
                        listing.numbers@,
                    )
            },
            Err(e) => {
                ||| e is Storage
                ||| exists|day: Date| #[trigger]
                    refuses_listing(
                        storage.stored(),
                        ListFilters { status, priority, due, tag, project, recur },
                        day,
                        e,
                    )
            },
        }),
        storage.has_model() && storage.is_reliable() ==> (r matches Err(e) ==> exists|day: Date| #[trigger]
            refuses_listing(
                storage.stored(),
                ListFilters { status, priority, due, tag, project, recur },
                day,
                e,
            )),
{
    let tasks = match storage.load() {
        Ok(tasks) => tasks,
        Err(e) => {
            return Err(e);
        },
    };
    let filters = ListFilters { status, priority, due, tag, project, recur };
    let now = today();
    let (title, numbers) = match list_tasks(tasks.as_slice(), &filters, sort, now) {
        Ok(listed) => listed,
        Err(e) => {
            return Err(e);
        },
    };
    proof {
        assert(filters == ListFilters { status, priority, due, tag, project, recur });
        assert(storage.has_model() ==> is_shown_order(
            storage.stored(),
            selection(
                storage.stored(),
                ListFilters { status, priority, due, tag, project, recur },
                now,
            ),
            sort,
            numbers@,
        ));
        assert(title@ == title_of(status, priority, due, opt_text_view(project), recur));
        assert(numbers@.len() > 0);
    }
    Ok(Listing { title, numbers, tasks })
}

} // verus!
