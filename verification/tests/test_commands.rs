//! Tests of the commands on concrete lists: what is selected and in which
//! order, the figures, the reports, and the rules on dependencies.

use rustodo::cli::{AddArgs, EditArgs};
use rustodo::commands::add::{add_task, check_fields};
use rustodo::commands::deps::{report_deps, Prerequisite};
use rustodo::commands::done::{complete_task, Completion};
use rustodo::commands::edit::{edit_task, Change};
use rustodo::commands::list::{determine_title, list_tasks, ListFilters};
use rustodo::commands::projects::count_projects;
use rustodo::commands::query::{keep, number_all, sort_selection, Criterion};
use rustodo::commands::recur::set_recurrence;
use rustodo::commands::remove;
use rustodo::commands::search::search_tasks;
use rustodo::commands::stats::{activity, completion_color, compute, percent};
use rustodo::commands::tags::count_tags;
use rustodo::commands::undone::reopen_task;
use rustodo::commands::{clear_recur, list, stats, tags};
use rustodo::date::Date;
use rustodo::dependency::{add_dependency, check_new_dependency, remove_dependency};
use rustodo::error::TodoError;
use rustodo::models::task::{draw_free_id, is_free_id};
use rustodo::models::{
    DueFilter, Priority, Recurrence, RecurrenceFilter, SortBy, StatusFilter, Task,
};
use rustodo::storage::{InMemoryStorage, Storage};

fn date(year: i32, month: u32, day: u32) -> Date {
    Date::from_ymd_opt(year, month, day).unwrap()
}

fn today() -> Date {
    date(2026, 3, 10)
}

fn task(text: &str) -> Task {
    Task::with_identity(
        text.len() as u128 * 1000 + text.bytes().map(|b| b as u128).sum::<u128>(),
        date(2026, 1, 1),
        text.to_string(),
        Priority::Medium,
        vec![],
        None,
        None,
        None,
    )
}

fn new_task(text: &str) -> AddArgs {
    AddArgs {
        text: text.to_string(),
        priority: Priority::Medium,
        tag: vec![],
        project: None,
        due: None,
        recurrence: None,
        depends_on: vec![],
    }
}

fn no_edit(id: usize) -> EditArgs {
    EditArgs {
        id,
        text: None,
        priority: None,
        add_tag: vec![],
        remove_tag: vec![],
        project: None,
        clear_project: false,
        due: None,
        clear_due: false,
        clear_tags: false,
        add_dep: vec![],
        remove_dep: vec![],
        clear_deps: false,
    }
}

fn no_filters() -> ListFilters {
    ListFilters {
        status: StatusFilter::All,
        priority: None,
        due: None,
        tag: None,
        project: None,
        recur: None,
    }
}

/// Three tasks: B depends on A, C depends on B.
fn chain() -> Vec<Task> {
    let a = task("A");
    let mut b = task("B");
    let mut c = task("C");
    b.depends_on = vec![a.uuid];
    c.depends_on = vec![b.uuid];
    vec![a, b, c]
}

#[test]
fn a_task_never_depends_on_itself() {
    for tasks in [vec![task("A")], chain(), vec![]] {
        for id in 0..5 {
            assert!(check_new_dependency(&tasks, id, id).is_err());
        }
    }
    assert_eq!(
        check_new_dependency(&chain(), 2, 2),
        Err(TodoError::SelfDependency { task_id: 2 })
    );
}

#[test]
fn new_edge_is_held_against_the_rules_in_order() {
    let tasks = chain();
    assert_eq!(
        check_new_dependency(&tasks, 4, 1),
        Err(TodoError::InvalidTaskId { id: 4, max: 3 })
    );
    assert_eq!(
        check_new_dependency(&tasks, 1, 0),
        Err(TodoError::InvalidTaskId { id: 0, max: 3 })
    );
    assert_eq!(
        check_new_dependency(&tasks, 2, 1),
        Err(TodoError::DuplicateDependency { task_id: 2, dep_id: 1 })
    );
    assert_eq!(
        check_new_dependency(&tasks, 1, 3),
        Err(TodoError::DependencyCycle { task_id: 1, dep_id: 3 })
    );
    assert_eq!(check_new_dependency(&tasks, 3, 1), Ok(tasks[0].uuid));
}

#[test]
fn edges_are_added_and_removed_one_by_one() {
    let mut tasks = chain();
    let (a, b) = (tasks[0].uuid, tasks[1].uuid);
    let before = tasks.clone();
    assert_eq!(
        add_dependency(&mut tasks, 1, 3),
        Err(TodoError::DependencyCycle { task_id: 1, dep_id: 3 })
    );
    assert_eq!(add_dependency(&mut tasks, 2, 2), Err(TodoError::SelfDependency { task_id: 2 }));
    assert_eq!(tasks, before);

    assert_eq!(add_dependency(&mut tasks, 3, 1), Ok(()));
    assert_eq!(tasks[2].depends_on, vec![b, a]);
    assert_eq!(
        add_dependency(&mut tasks, 3, 1),
        Err(TodoError::DuplicateDependency { task_id: 3, dep_id: 1 })
    );

    assert_eq!(remove_dependency(&mut tasks, 3, 2), Ok(()));
    assert_eq!(tasks[2].depends_on, vec![a]);
    assert_eq!(
        remove_dependency(&mut tasks, 3, 2),
        Err(TodoError::DependencyNotFound { task_id: 3, dep_id: 2 })
    );
    assert_eq!(
        remove_dependency(&mut tasks, 3, 9),
        Err(TodoError::DependencyNotFound { task_id: 3, dep_id: 9 })
    );
    assert_eq!(
        remove_dependency(&mut tasks, 0, 1),
        Err(TodoError::InvalidTaskId { id: 0, max: 3 })
    );
}

#[test]
fn refused_edges_leave_the_list_untouched() {
    let mut tasks = chain();
    let before = tasks.clone();
    let mut args = no_edit(1);
    // The first edge would pass; the second closes a cycle.
    args.add_dep = vec![2, 3];
    tasks[0].depends_on = vec![];
    let result = edit_task(&mut tasks, args);
    assert!(matches!(result, Err(TodoError::DependencyCycle { .. })));
    assert_eq!(tasks, before);
}

#[test]
fn a_prerequisite_named_twice_in_one_edit_is_a_duplicate() {
    let mut tasks = vec![task("A"), task("B")];
    let before = tasks.clone();
    let mut args = no_edit(2);
    args.add_dep = vec![1, 1];
    assert_eq!(
        edit_task(&mut tasks, args),
        Err(TodoError::DuplicateDependency { task_id: 2, dep_id: 1 })
    );
    assert_eq!(tasks, before);
}

#[test]
fn edit_reports_what_it_changed_in_order() {
    let mut tasks = vec![task("A"), task("B")];
    tasks[1].tags = vec!["old".to_string(), "keep".to_string()];
    let a_uuid = tasks[0].uuid;
    let mut args = no_edit(2);
    args.text = Some("B, renamed".to_string());
    args.priority = Some(Priority::High);
    args.project = Some("Backend".to_string());
    args.remove_tag = vec!["old".to_string()];
    args.add_tag = vec!["new".to_string(), "keep".to_string()];
    args.due = Some(date(2020, 1, 1));
    args.add_dep = vec![1];
    let changes = edit_task(&mut tasks, args).unwrap();
    assert_eq!(
        changes,
        vec![
            Change::Text,
            Change::Priority,
            Change::Project,
            Change::TagsRemoved,
            Change::TagsAdded,
            Change::DueDate,
            Change::DepsAdded,
        ]
    );
    assert_eq!(tasks[1].text, "B, renamed");
    assert_eq!(tasks[1].priority, Priority::High);
    assert_eq!(tasks[1].project.as_deref(), Some("Backend"));
    assert_eq!(tasks[1].tags, vec!["keep", "new"]);
    // An edit may set a due date in the past.
    assert_eq!(tasks[1].due_date, Some(date(2020, 1, 1)));
    assert_eq!(tasks[1].depends_on, vec![a_uuid]);
}

#[test]
fn edit_that_sets_what_is_there_changes_nothing() {
    let mut tasks = vec![task("A")];
    tasks[0].project = Some("Backend".to_string());
    let before = tasks.clone();
    let mut args = no_edit(1);
    args.text = Some("A".to_string());
    args.priority = Some(Priority::Medium);
    args.project = Some("Backend".to_string());
    assert_eq!(edit_task(&mut tasks, args), Ok(vec![]));
    assert_eq!(tasks, before);
}

#[test]
fn edit_refuses_text_project_and_a_lost_due_date() {
    let mut tasks = vec![task("A")];
    tasks[0].due_date = Some(date(2026, 4, 1));
    tasks[0].recurrence = Some(Recurrence::Daily);
    let before = tasks.clone();

    let mut args = no_edit(1);
    args.text = Some("   ".to_string());
    assert_eq!(edit_task(&mut tasks, args), Err(TodoError::EmptyTaskText));

    let mut args = no_edit(1);
    args.project = Some("p".repeat(101));
    assert_eq!(
        edit_task(&mut tasks, args),
        Err(TodoError::ProjectNameTooLong { max: 100, actual: 101 })
    );

    let mut args = no_edit(1);
    args.clear_due = true;
    assert_eq!(edit_task(&mut tasks, args), Err(TodoError::RecurrenceRequiresDueDate));
    assert_eq!(tasks, before);
}

#[test]
fn removing_a_dependency_takes_the_edge_away() {
    let mut tasks = chain();
    let mut args = no_edit(3);
    args.remove_dep = vec![2];
    assert_eq!(edit_task(&mut tasks, args), Ok(vec![Change::DepsRemoved]));
    assert!(tasks[2].depends_on.is_empty());

    let mut args = no_edit(3);
    args.remove_dep = vec![9];
    assert_eq!(
        edit_task(&mut tasks, args),
        Err(TodoError::DependencyNotFound { task_id: 3, dep_id: 9 })
    );
}

#[test]
fn completing_is_gated_by_prerequisites() {
    let mut tasks = chain();
    let before = tasks.clone();
    assert_eq!(
        complete_task(&mut tasks, 3, today(), 99),
        Err(TodoError::TaskBlocked(3, vec![2]))
    );
    assert_eq!(tasks, before);

    assert_eq!(complete_task(&mut tasks, 1, today(), 99), Ok(Completion::Completed));
    assert!(tasks[0].completed);
    assert_eq!(tasks[0].completed_at, Some(today()));
    assert_eq!(complete_task(&mut tasks, 2, today(), 99), Ok(Completion::Completed));
    assert_eq!(complete_task(&mut tasks, 3, today(), 99), Ok(Completion::Completed));
    assert_eq!(
        complete_task(&mut tasks, 3, today(), 99),
        Err(TodoError::TaskAlreadyInStatus { id: 3, status: "completed".to_string() })
    );
    assert_eq!(
        complete_task(&mut tasks, 4, today(), 99),
        Err(TodoError::InvalidTaskId { id: 4, max: 3 })
    );
}

#[test]
fn completing_part_of_the_prerequisites_leaves_the_rest_blocking() {
    let a = task("A");
    let b = task("B");
    let c = task("C");
    let mut d = task("D");
    d.depends_on = vec![a.uuid, b.uuid, c.uuid];
    let (a_id, c_id) = (a.uuid, c.uuid);
    let mut tasks = vec![a, b, c, d];
    assert_eq!(tasks[3].blocking_deps(&tasks).len(), 3);

    complete_task(&mut tasks, 2, today(), 1).unwrap();
    assert!(tasks[3].is_blocked(&tasks));
    assert_eq!(tasks[3].blocking_deps(&tasks), vec![a_id, c_id]);

    complete_task(&mut tasks, 1, today(), 1).unwrap();
    complete_task(&mut tasks, 3, today(), 1).unwrap();
    assert!(!tasks[3].is_blocked(&tasks));
    assert!(tasks[3].blocking_deps(&tasks).is_empty());
}

#[test]
fn completing_a_recurring_task_spawns_the_next_occurrence_once() {
    let mut weekly = task("Weekly review");
    weekly.due_date = Some(date(2026, 2, 10));
    weekly.recurrence = Some(Recurrence::Weekly);
    weekly.tags = vec!["work".to_string()];
    weekly.depends_on = vec![];
    let parent = weekly.uuid;
    let mut tasks = vec![weekly];

    assert_eq!(
        complete_task(&mut tasks, 1, today(), 4242),
        Ok(Completion::Spawned { next_id: 2, next_due: date(2026, 2, 17) })
    );
    assert_eq!(tasks.len(), 2);
    assert_eq!(tasks[1].uuid, 4242);
    assert_eq!(tasks[1].parent_id, Some(parent));
    assert_eq!(tasks[1].created_at, today());
    assert_eq!(tasks[1].text, "Weekly review");
    assert_eq!(tasks[1].tags, vec!["work"]);
    assert!(!tasks[1].completed);

    assert_eq!(reopen_task(&mut tasks, 1), Ok(()));
    assert_eq!(tasks[0].completed_at, None);
    assert_eq!(complete_task(&mut tasks, 1, today(), 4343), Ok(Completion::NextExists));
    assert_eq!(tasks.len(), 2);

    // Once the occurrence is completed itself, the next completion spawns anew.
    assert_eq!(reopen_task(&mut tasks, 1), Ok(()));
    tasks[1].recurrence = None;
    complete_task(&mut tasks, 2, today(), 1).unwrap();
    assert_eq!(
        complete_task(&mut tasks, 1, today(), 4444),
        Ok(Completion::Spawned { next_id: 3, next_due: date(2026, 2, 17) })
    );
}

#[test]
fn a_pending_task_with_the_same_text_and_day_stands_for_the_occurrence() {
    let mut daily = task("Standup");
    daily.due_date = Some(date(2026, 2, 10));
    daily.recurrence = Some(Recurrence::Daily);
    let mut twin = task("Standup");
    twin.uuid = 5;
    twin.due_date = Some(date(2026, 2, 11));
    let mut tasks = vec![daily, twin];
    assert_eq!(complete_task(&mut tasks, 1, today(), 7), Ok(Completion::NextExists));
    assert_eq!(tasks.len(), 2);
}

#[test]
fn reopening_a_pending_task_is_refused() {
    let mut tasks = vec![task("A")];
    assert_eq!(
        reopen_task(&mut tasks, 1),
        Err(TodoError::TaskAlreadyInStatus { id: 1, status: "pending".to_string() })
    );
    assert_eq!(reopen_task(&mut tasks, 0), Err(TodoError::InvalidTaskId { id: 0, max: 1 }));
}

#[test]
fn adding_normalizes_tags_and_resolves_prerequisites() {
    let mut first = task("First");
    first.tags = vec!["rust".to_string(), "frontend".to_string()];
    let first_uuid = first.uuid;
    let mut tasks = vec![first];
    let mut args = new_task("Second");
    args.tag = vec!["Rust".to_string(), "fronteend".to_string(), "python".to_string()];
    args.depends_on = vec![1];
    args.due = Some(today());
    let added = add_task(&mut tasks, args, 31, today()).unwrap();
    assert_eq!(added.id, 2);
    assert_eq!(
        added.notices,
        vec!["'Rust' \u{2192} 'rust'".to_string(), "'fronteend' \u{2192} 'frontend'".to_string()]
    );
    assert_eq!(tasks[1].uuid, 31);
    assert_eq!(tasks[1].created_at, today());
    assert_eq!(tasks[1].tags, vec!["rust", "frontend", "python"]);
    assert_eq!(tasks[1].depends_on, vec![first_uuid]);
    assert!(!tasks[1].completed);
}

#[test]
fn adding_refuses_what_breaks_a_rule_and_adds_nothing() {
    let mut tasks = vec![task("A")];
    let before = tasks.clone();

    let mut args = new_task("B");
    args.due = Some(date(2026, 3, 9));
    assert_eq!(
        add_task(&mut tasks, args, 1, today()),
        Err(TodoError::DueDateInPast { date: date(2026, 3, 9) })
    );

    let mut args = new_task("B");
    args.depends_on = vec![1, 2];
    assert_eq!(
        add_task(&mut tasks, args, 1, today()),
        Err(TodoError::SelfDependency { task_id: 2 })
    );

    let mut args = new_task("B");
    args.depends_on = vec![3];
    assert_eq!(
        add_task(&mut tasks, args, 1, today()),
        Err(TodoError::InvalidTaskId { id: 3, max: 1 })
    );

    let mut args = new_task("B");
    args.project = Some(" ".to_string());
    assert_eq!(add_task(&mut tasks, args, 1, today()), Err(TodoError::EmptyProjectName));
    assert_eq!(tasks, before);
}

#[test]
fn recurrence_needs_a_due_date() {
    let mut tasks = vec![task("A")];
    assert_eq!(
        set_recurrence(&mut tasks, 1, Recurrence::Daily),
        Err(TodoError::MissingDueDate { task_id: 1 })
    );
    tasks[0].due_date = Some(today());
    assert_eq!(set_recurrence(&mut tasks, 1, Recurrence::Daily), Ok(None));
    assert_eq!(set_recurrence(&mut tasks, 1, Recurrence::Weekly), Ok(Some(Recurrence::Daily)));
    assert_eq!(tasks[0].recurrence, Some(Recurrence::Weekly));

    let mut storage = InMemoryStorage::with_tasks(tasks);
    assert_eq!(clear_recur::execute(&mut storage, 1), Ok(Some(Recurrence::Weekly)));
    assert_eq!(clear_recur::execute(&mut storage, 1), Ok(None));
    assert_eq!(storage.load().unwrap()[0].recurrence, None);
}

#[test]
fn removal_without_confirmation_removes_nothing() {
    let mut storage = InMemoryStorage::with_tasks(vec![task("A"), task("B")]);
    assert_eq!(remove::execute(&mut storage, 1, false), Ok(None));
    assert_eq!(storage.len(), 2);
    assert_eq!(
        remove::execute(&mut storage, 3, false),
        Err(TodoError::InvalidTaskId { id: 3, max: 2 })
    );
    let removed = remove::execute(&mut storage, 1, true).unwrap().unwrap();
    assert_eq!(removed.text, "A");
    assert_eq!(storage.load().unwrap()[0].text, "B");
}

fn sample() -> Vec<Task> {
    let mut a = task("Fix login bug");
    a.priority = Priority::Low;
    a.tags = vec!["work".to_string()];
    a.project = Some("Backend".to_string());
    a.due_date = Some(date(2026, 3, 20));
    a.created_at = date(2026, 1, 3);
    let mut b = task("Buy milk");
    b.priority = Priority::High;
    b.due_date = Some(date(2026, 3, 9));
    b.created_at = date(2026, 1, 2);
    let mut c = task("Write docs");
    c.priority = Priority::Medium;
    c.tags = vec!["work".to_string(), "docs".to_string()];
    c.project = Some("backend".to_string());
    c.completed = true;
    c.completed_at = Some(date(2026, 3, 8));
    c.created_at = date(2026, 1, 1);
    let mut d = task("Fix build");
    d.priority = Priority::High;
    d.due_date = Some(date(2026, 3, 12));
    d.recurrence = Some(Recurrence::Weekly);
    d.created_at = date(2026, 1, 4);
    d.depends_on = vec![b.uuid];
    vec![a, b, c, d]
}

#[test]
fn criteria_narrow_a_selection_in_order() {
    let tasks = sample();
    let all = number_all(&tasks);
    assert_eq!(all, vec![1, 2, 3, 4]);
    assert_eq!(keep(&tasks, &all, &Criterion::Status(StatusFilter::Pending)), vec![1, 2, 4]);
    assert_eq!(keep(&tasks, &all, &Criterion::Status(StatusFilter::Done)), vec![3]);
    assert_eq!(keep(&tasks, &all, &Criterion::Priority(Priority::High)), vec![2, 4]);
    assert_eq!(keep(&tasks, &all, &Criterion::Tag("work".to_string())), vec![1, 3]);
    assert_eq!(keep(&tasks, &all, &Criterion::Tag("Work".to_string())), Vec::<usize>::new());
    assert_eq!(keep(&tasks, &all, &Criterion::Project("BACKEND".to_string())), vec![1, 3]);
    assert_eq!(keep(&tasks, &all, &Criterion::Text("FIX".to_string())), vec![1, 4]);
    assert_eq!(
        keep(&tasks, &all, &Criterion::Recurrence(RecurrenceFilter::Recurring)),
        vec![4]
    );
    assert_eq!(
        keep(&tasks, &all, &Criterion::Recurrence(RecurrenceFilter::NonRecurring)),
        vec![1, 2, 3]
    );
    let due = |filter| Criterion::Due { filter, today: today() };
    assert_eq!(keep(&tasks, &all, &due(DueFilter::Overdue)), vec![2]);
    assert_eq!(keep(&tasks, &all, &due(DueFilter::Soon)), vec![4]);
    assert_eq!(keep(&tasks, &all, &due(DueFilter::WithDue)), vec![1, 2, 4]);
    assert_eq!(keep(&tasks, &all, &due(DueFilter::NoDue)), vec![3]);
    assert_eq!(keep(&tasks, &vec![4, 2], &Criterion::Priority(Priority::High)), vec![4, 2]);
}

#[test]
fn selections_are_sorted_by_key_and_then_by_number() {
    let tasks = sample();
    let all = number_all(&tasks);
    assert_eq!(sort_selection(&tasks, &all, SortBy::Priority), vec![2, 4, 3, 1]);
    assert_eq!(sort_selection(&tasks, &all, SortBy::Due), vec![2, 4, 1, 3]);
    assert_eq!(sort_selection(&tasks, &all, SortBy::Created), vec![3, 2, 1, 4]);
    assert_eq!(sort_selection(&tasks, &vec![], SortBy::Due), Vec::<usize>::new());
}

#[test]
fn listing_selects_sorts_and_names_the_list() {
    let tasks = sample();
    let mut filters = no_filters();
    filters.status = StatusFilter::Pending;
    let (title, numbers) = list_tasks(&tasks, &filters, Some(SortBy::Due), today()).unwrap();
    assert_eq!(title, "Pending tasks");
    assert_eq!(numbers, vec![2, 4, 1]);

    let mut filters = no_filters();
    filters.project = Some("Backend".to_string());
    let (title, numbers) = list_tasks(&tasks, &filters, None, today()).unwrap();
    assert_eq!(title, "Tasks in project \"Backend\"");
    assert_eq!(numbers, vec![1, 3]);
}

#[test]
fn listing_tells_why_nothing_is_listed() {
    let tasks = sample();
    let mut filters = no_filters();
    filters.tag = Some("home".to_string());
    assert_eq!(
        list_tasks(&tasks, &filters, None, today()),
        Err(TodoError::TagNotFound("home".to_string()))
    );
    let mut filters = no_filters();
    filters.project = Some("Frontend".to_string());
    assert_eq!(
        list_tasks(&tasks, &filters, None, today()),
        Err(TodoError::ProjectNotFound("Frontend".to_string()))
    );
    let mut filters = no_filters();
    filters.recur = Some(RecurrenceFilter::Daily);
    assert_eq!(list_tasks(&tasks, &filters, None, today()), Err(TodoError::NoTasksFound));
    // A tag that nothing is left to be held against is not the one at fault.
    let mut filters = no_filters();
    filters.priority = Some(Priority::Low);
    filters.status = StatusFilter::Done;
    filters.tag = Some("home".to_string());
    assert_eq!(list_tasks(&tasks, &filters, None, today()), Err(TodoError::NoTasksFound));
    assert_eq!(list_tasks(&[], &no_filters(), None, today()), Err(TodoError::NoTasksFound));
}

#[test]
fn titles_follow_the_filters() {
    let t = |status, priority, due, project, recur| {
        determine_title(status, priority, due, project, recur)
    };
    assert_eq!(t(StatusFilter::All, None, None, None, None), "Tasks");
    assert_eq!(t(StatusFilter::Pending, None, None, None, None), "Pending tasks");
    assert_eq!(t(StatusFilter::Done, Some(Priority::High), None, None, None), "Completed tasks");
    assert_eq!(
        t(StatusFilter::Pending, Some(Priority::High), Some(DueFilter::Soon), None, None),
        "High priority pending tasks"
    );
    assert_eq!(
        t(StatusFilter::All, Some(Priority::Low), None, None, None),
        "Low priority tasks"
    );
    assert_eq!(
        t(StatusFilter::Pending, None, Some(DueFilter::Overdue), None, None),
        "Pending overdue tasks"
    );
    assert_eq!(
        t(StatusFilter::Pending, None, Some(DueFilter::WithDue), None, None),
        "Pending tasks"
    );
    assert_eq!(
        t(StatusFilter::All, None, Some(DueFilter::NoDue), None, None),
        "Tasks without due date"
    );
    assert_eq!(
        t(StatusFilter::Done, None, None, None, Some(RecurrenceFilter::Weekly)),
        "Completed weekly recurring tasks"
    );
    assert_eq!(
        t(StatusFilter::All, None, None, None, Some(RecurrenceFilter::NonRecurring)),
        "Non-recurring tasks"
    );
    assert_eq!(
        t(StatusFilter::Pending, Some(Priority::High), None, Some("Docs"), Some(RecurrenceFilter::Daily)),
        "Tasks in project \"Docs\""
    );
}

#[test]
fn search_finds_words_whatever_their_case() {
    let tasks = sample();
    let (title, numbers) =
        search_tasks(&tasks, &"fix B".to_string(), &None, &None, StatusFilter::All).unwrap();
    assert_eq!(title, "Search results for \"fix B\"");
    assert_eq!(numbers, vec![4]);
    let (_, numbers) = search_tasks(
        &tasks,
        &"i".to_string(),
        &Some("work".to_string()),
        &Some("BACKEND".to_string()),
        StatusFilter::Pending,
    )
    .unwrap();
    assert_eq!(numbers, vec![1]);
    assert_eq!(
        search_tasks(&tasks, &"nothing".to_string(), &None, &None, StatusFilter::All),
        Err(TodoError::NoSearchResults("nothing".to_string()))
    );
}

#[test]
fn tags_and_projects_are_counted_in_ascending_order() {
    let tasks = sample();
    let counts = count_tags(&tasks).unwrap();
    let shown: Vec<(&str, usize)> = counts.iter().map(|c| (c.tag.as_str(), c.count)).collect();
    assert_eq!(shown, vec![("docs", 1), ("work", 2)]);

    let counts = count_projects(&tasks).unwrap();
    let shown: Vec<(&str, usize, usize)> =
        counts.iter().map(|c| (c.name.as_str(), c.pending, c.done)).collect();
    assert_eq!(shown, vec![("Backend", 1, 0), ("backend", 0, 1)]);

    assert_eq!(count_tags(&[task("A")]), Err(TodoError::NoTagsFound));
    assert_eq!(count_projects(&[task("A")]), Err(TodoError::NoProjectsFound));
}

#[test]
fn figures_on_the_list() {
    let tasks = sample();
    let stats = compute(&tasks, today());
    assert_eq!(stats.overview.total, 4);
    assert_eq!(stats.overview.completed, 1);
    assert_eq!(stats.overview.pending, 3);
    assert_eq!(stats.overview.overdue, 1);
    assert_eq!(stats.overview.due_soon, 1);
    assert_eq!(stats.overview.blocked, 1);
    assert_eq!(stats.overview.percent, 25);
    let by_priority: Vec<(Priority, usize, usize, usize)> =
        stats.by_priority.iter().map(|c| (c.priority, c.total, c.pending, c.done)).collect();
    assert_eq!(
        by_priority,
        vec![(Priority::High, 2, 2, 0), (Priority::Medium, 1, 0, 1), (Priority::Low, 1, 1, 0)]
    );
    assert_eq!(stats.without_project, 2);
    assert_eq!(stats.activity.len(), 7);
    assert_eq!(stats.activity[0], (date(2026, 3, 4), 0));
    assert_eq!(stats.activity[4], (date(2026, 3, 8), 1));
    assert_eq!(stats.activity[6], (date(2026, 3, 10), 0));
}

#[test]
fn percent_rounds_down_and_colours_follow() {
    assert_eq!(percent(0, 0), 0);
    assert_eq!(percent(1, 3), 33);
    assert_eq!(percent(2, 3), 66);
    assert_eq!(percent(3, 3), 100);
    assert_eq!(percent(1, 200), 0);
    assert_eq!(completion_color(100), "green");
    assert_eq!(completion_color(99), "yellow");
    assert_eq!(completion_color(50), "yellow");
    assert_eq!(completion_color(49), "red");
    assert_eq!(completion_color(0), "red");
}

#[test]
fn dependency_report_tells_both_directions() {
    let mut tasks = sample();
    tasks[3].depends_on.push(424242);
    let third = tasks[2].uuid;
    tasks[3].depends_on.push(third);
    let report = report_deps(&tasks, 4).unwrap();
    assert_eq!(report.id, 4);
    assert_eq!(report.text, "Fix build");
    assert_eq!(
        report.depends_on,
        vec![
            Prerequisite::Known { number: 2, completed: false },
            Prerequisite::Missing,
            Prerequisite::Known { number: 3, completed: true },
        ]
    );
    assert_eq!(report.blocked_by, vec![2]);
    assert!(report.required_by.is_empty());

    let report = report_deps(&tasks, 2).unwrap();
    assert_eq!(report.required_by, vec![4]);
    assert!(report.depends_on.is_empty());
    assert!(report.blocked_by.is_empty());
    assert_eq!(report_deps(&tasks, 5), Err(TodoError::InvalidTaskId { id: 5, max: 4 }));
}

#[test]
fn commands_read_the_store() {
    let mut storage = InMemoryStorage::with_tasks(sample());
    let listing = list::execute(
        &storage,
        StatusFilter::All,
        Some(Priority::High),
        None,
        Some(SortBy::Created),
        None,
        None,
        None,
    )
    .unwrap();
    assert_eq!(listing.title, "High priority tasks");
    assert_eq!(listing.numbers, vec![2, 4]);
    assert_eq!(listing.tasks, sample());
    assert_eq!(tags::execute(&storage).unwrap().len(), 2);
    assert_eq!(stats::execute(&storage).unwrap().overview.total, 4);
    storage.save(&[]).unwrap();
    assert_eq!(stats::execute(&storage).unwrap().overview.total, 0);
}

#[test]
fn activity_covers_the_seven_days_that_end_today() {
    let days = activity(&sample(), today());
    let shown: Vec<(i32, u32, u32, usize)> =
        days.iter().map(|(d, c)| (d.year(), d.month(), d.day(), *c)).collect();
    assert_eq!(
        shown,
        vec![
            (2026, 3, 4, 0),
            (2026, 3, 5, 0),
            (2026, 3, 6, 0),
            (2026, 3, 7, 0),
            (2026, 3, 8, 1),
            (2026, 3, 9, 0),
            (2026, 3, 10, 0),
        ]
    );
    // Across the end of a month and of a year.
    let days = activity(&[], date(2024, 3, 2));
    assert_eq!(days.first(), Some(&(date(2024, 2, 25), 0)));
    assert_eq!(days.len(), 7);
    let days = activity(&[], date(2026, 1, 3));
    assert_eq!(days.first(), Some(&(date(2025, 12, 28), 0)));
    assert_eq!(days.last(), Some(&(date(2026, 1, 3), 0)));
}

#[test]
fn activity_leaves_out_days_that_no_date_can_hold() {
    let first = date(-262143, 1, 1);
    let third = date(-262143, 1, 3);
    let mut done = task("A");
    done.completed = true;
    done.completed_at = Some(first);
    assert_eq!(
        activity(&[done.clone(), task("B")], third),
        vec![(first, 1), (date(-262143, 1, 2), 0), (third, 0)]
    );
    assert_eq!(activity(&[done], first), vec![(first, 1)]);
}

#[test]
fn a_new_task_needs_an_identifier_that_is_not_in_use() {
    let mut tasks = chain();
    tasks[2].parent_id = Some(777);
    tasks[2].depends_on.push(888);
    let before = tasks.clone();
    for used in [0, tasks[0].uuid, tasks[1].uuid, 777, 888] {
        assert!(!is_free_id(&tasks, used));
        assert_eq!(
            add_task(&mut tasks, new_task("D"), used, today()),
            Err(TodoError::IdentifierInUse)
        );
        assert_eq!(tasks, before);
    }
    assert!(is_free_id(&tasks, 999));
    // The fields and the prerequisites are held against the rules first.
    let first = tasks[0].uuid;
    let mut args = new_task("");
    args.depends_on = vec![9];
    assert_eq!(add_task(&mut tasks, args, first, today()), Err(TodoError::EmptyTaskText));
    let mut args = new_task("D");
    args.depends_on = vec![9];
    assert_eq!(
        add_task(&mut tasks, args, first, today()),
        Err(TodoError::InvalidTaskId { id: 9, max: 3 })
    );
    assert_eq!(add_task(&mut tasks, new_task("D"), 999, today()).unwrap().id, 4);

    let drawn = draw_free_id(&tasks).unwrap();
    assert!(is_free_id(&tasks, drawn));
}

#[test]
fn an_occurrence_needs_an_identifier_that_is_not_in_use() {
    let mut daily = task("Standup");
    daily.due_date = Some(date(2026, 2, 10));
    daily.recurrence = Some(Recurrence::Daily);
    let own = daily.uuid;
    let mut tasks = vec![daily, task("Other")];
    let before = tasks.clone();
    for used in [0, own, tasks[1].uuid] {
        assert_eq!(complete_task(&mut tasks, 1, today(), used), Err(TodoError::IdentifierInUse));
        // Nothing is marked where nothing can be spawned.
        assert_eq!(tasks, before);
    }
    // A task that spawns nothing needs no identifier.
    assert_eq!(complete_task(&mut tasks, 2, today(), own), Ok(Completion::Completed));
    assert_eq!(
        complete_task(&mut tasks, 1, today(), 4242),
        Ok(Completion::Spawned { next_id: 3, next_due: date(2026, 2, 11) })
    );
}

#[test]
fn fields_are_checked_before_the_store_is_read() {
    let mut args = new_task("Text");
    assert_eq!(check_fields(&args, today()), Ok(()));
    args.tag = vec![" padded".to_string()];
    assert_eq!(
        check_fields(&args, today()),
        Err(TodoError::InvalidTagFormat { tag: " padded".to_string() })
    );
    let mut storage = InMemoryStorage::with_tasks(sample());
    assert_eq!(
        rustodo::commands::add::execute(&mut storage, args),
        Err(TodoError::InvalidTagFormat { tag: " padded".to_string() })
    );
    assert_eq!(storage.load().unwrap(), sample());
}

#[test]
fn an_edit_keeps_the_graph_free_of_cycles() {
    // A <- B <- C, and D alone. D may come to depend on C and on A at once.
    let mut tasks = chain();
    tasks.push(task("D, alone"));
    let mut args = no_edit(4);
    args.add_dep = vec![3, 1];
    assert_eq!(edit_task(&mut tasks, args), Ok(vec![Change::DepsAdded]));
    // Now A may not come to depend on D: D reaches A.
    let before = tasks.clone();
    let mut args = no_edit(1);
    args.add_dep = vec![4];
    assert_eq!(
        edit_task(&mut tasks, args),
        Err(TodoError::DependencyCycle { task_id: 1, dep_id: 4 })
    );
    assert_eq!(tasks, before);
}
