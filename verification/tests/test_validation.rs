//! Tests of the rules on the fields of a task.

use rustodo::date::Date;
use rustodo::error::TodoError;
use rustodo::models::{Priority, Recurrence, Task};
use rustodo::validation::{
    resolve_uuid, validate_due_date, validate_due_date_on, validate_project_name,
    validate_recurrence, validate_tags, validate_task, validate_task_id, validate_task_on,
    validate_task_text,
};

fn date(year: i32, month: u32, day: u32) -> Date {
    Date::from_ymd_opt(year, month, day).unwrap()
}

fn today() -> Date {
    Date::today()
}

fn days_from_today(days: u32) -> Date {
    today().checked_plus_days(days).unwrap()
}

fn days_before_today(days: u32) -> Date {
    today().checked_minus_days(days).unwrap()
}

#[test]
fn test_validate_task_id() {
    assert!(validate_task_id(1, 10).is_ok());
    assert!(validate_task_id(10, 10).is_ok());
    assert!(validate_task_id(0, 10).is_err());
    assert!(validate_task_id(11, 10).is_err());
}

#[test]
fn test_validate_task_text() {
    assert!(validate_task_text("Valid task").is_ok());
    assert!(validate_task_text("  spaces  ").is_ok());
    assert!(validate_task_text("a").is_ok());

    assert!(validate_task_text("").is_err());
    assert!(validate_task_text("   ").is_err());
    assert!(validate_task_text("\t\n").is_err());

    // 501 characters
    let too_long = "x".repeat(501);
    assert!(validate_task_text(&too_long).is_err());

    // 500 characters (OK)
    let exactly_max = "x".repeat(500);
    assert!(validate_task_text(&exactly_max).is_ok());
}

#[test]
fn test_validate_tags() {
    // Valid tags
    assert!(validate_tags(&vec!["work".to_string()]).is_ok());
    assert!(validate_tags(&vec!["work-urgent".to_string()]).is_ok());
    assert!(validate_tags(&vec!["task_1".to_string()]).is_ok());
    assert!(validate_tags(&vec![
        "work".to_string(),
        "urgent".to_string(),
        "high-priority".to_string(),
    ])
    .is_ok());

    // Empty tag
    assert!(validate_tags(&vec!["".to_string()]).is_err());
    assert!(validate_tags(&vec!["work".to_string(), "".to_string()]).is_err());

    // Invalid characters
    assert!(validate_tags(&vec!["work@home".to_string()]).is_err());
    assert!(validate_tags(&vec!["tag with spaces".to_string()]).is_err());
    assert!(validate_tags(&vec!["tag/slash".to_string()]).is_err());

    // Too long
    let long_tag = "x".repeat(51);
    assert!(validate_tags(&vec![long_tag]).is_err());

    // Duplicates (case-insensitive)
    assert!(validate_tags(&vec!["work".to_string(), "work".to_string()]).is_err());
    assert!(validate_tags(&vec!["work".to_string(), "Work".to_string()]).is_err());
    assert!(validate_tags(&vec!["work".to_string(), "WORK".to_string()]).is_err());
}

#[test]
fn test_validate_due_date() {
    let today = today();
    let yesterday = days_before_today(1);
    let tomorrow = days_from_today(1);

    // Future dates always OK
    assert!(validate_due_date(Some(tomorrow), false).is_ok());
    assert!(validate_due_date(Some(tomorrow), true).is_ok());

    // Today is OK
    assert!(validate_due_date(Some(today), false).is_ok());
    assert!(validate_due_date(Some(today), true).is_ok());

    // Past dates: allowed only if allow_past = true
    assert!(validate_due_date(Some(yesterday), false).is_err());
    assert!(validate_due_date(Some(yesterday), true).is_ok());

    // None is always OK
    assert!(validate_due_date(None, false).is_ok());
    assert!(validate_due_date(None, true).is_ok());
}

#[test]
fn test_validate_recurrence() {
    let future = days_from_today(7);

    // Recurrence without due date = error
    assert!(validate_recurrence(Some(Recurrence::Daily), None).is_err());
    assert!(validate_recurrence(Some(Recurrence::Weekly), None).is_err());
    assert!(validate_recurrence(Some(Recurrence::Monthly), None).is_err());

    // Recurrence with due date = OK
    assert!(validate_recurrence(Some(Recurrence::Daily), Some(future)).is_ok());
    assert!(validate_recurrence(Some(Recurrence::Weekly), Some(future)).is_ok());
    assert!(validate_recurrence(Some(Recurrence::Monthly), Some(future)).is_ok());

    // No recurrence = always OK
    assert!(validate_recurrence(None, None).is_ok());
    assert!(validate_recurrence(None, Some(future)).is_ok());
}

#[test]
fn test_validate_task_new() {
    let future = days_from_today(7);

    // Valid new task
    let task = Task::new(
        "Valid task".to_string(),
        Priority::Medium,
        vec!["work".to_string()],
        None,
        Some(future),
        None,
    );
    assert!(validate_task(&task, true).is_ok());

    // Invalid text
    let mut invalid = task.clone();
    invalid.text = "".to_string();
    assert!(validate_task(&invalid, true).is_err());

    // Invalid tags
    let mut invalid = task.clone();
    invalid.tags = vec!["invalid tag with spaces".to_string()];
    assert!(validate_task(&invalid, true).is_err());

    // Past due date (new task)
    let yesterday = days_before_today(1);
    let mut invalid = task.clone();
    invalid.due_date = Some(yesterday);
    assert!(validate_task(&invalid, true).is_err());

    // Recurrence without due date
    let mut invalid = task.clone();
    invalid.recurrence = Some(Recurrence::Daily);
    invalid.due_date = None;
    assert!(validate_task(&invalid, true).is_err());
}

#[test]
fn test_validate_task_existing() {
    let yesterday = days_before_today(1);

    // Existing task with past due date = OK
    let task =
        Task::new("Past task".to_string(), Priority::High, vec![], None, Some(yesterday), None);
    assert!(validate_task(&task, false).is_ok());
}

#[test]
fn task_id_error_names_the_number_and_the_range() {
    assert_eq!(validate_task_id(0, 10), Err(TodoError::InvalidTaskId { id: 0, max: 10 }));
    assert_eq!(validate_task_id(11, 10), Err(TodoError::InvalidTaskId { id: 11, max: 10 }));
    assert_eq!(validate_task_id(1, 0), Err(TodoError::InvalidTaskId { id: 1, max: 0 }));
}

#[test]
fn text_errors_tell_empty_from_too_long() {
    assert_eq!(validate_task_text(""), Err(TodoError::EmptyTaskText));
    assert_eq!(validate_task_text(" \t "), Err(TodoError::EmptyTaskText));
    assert_eq!(
        validate_task_text(&"x".repeat(501)),
        Err(TodoError::TaskTextTooLong { max: 500, actual: 501 })
    );
    // White space around the text does not count.
    let padded = format!("  {}  ", "x".repeat(500));
    assert_eq!(validate_task_text(&padded), Ok(()));
}

#[test]
fn text_length_counts_characters() {
    // 500 letters of two bytes each are 500 characters.
    assert_eq!(validate_task_text(&"\u{e9}".repeat(500)), Ok(()));
    assert_eq!(
        validate_task_text(&"\u{e9}".repeat(501)),
        Err(TodoError::TaskTextTooLong { max: 500, actual: 501 })
    );
}

#[test]
fn tag_errors_name_the_first_broken_rule() {
    assert_eq!(validate_tags(&vec!["  ".to_string()]), Err(TodoError::EmptyTag));
    assert_eq!(
        validate_tags(&vec!["x".repeat(51)]),
        Err(TodoError::TagTooLong { max: 50, actual: 51 })
    );
    assert_eq!(validate_tags(&vec!["x".repeat(50)]), Ok(()));
    assert_eq!(
        validate_tags(&vec!["ok".to_string(), "work@home".to_string(), "".to_string()]),
        Err(TodoError::InvalidTagFormat { tag: "work@home".to_string() })
    );
    assert_eq!(
        validate_tags(&vec!["work".to_string(), "home".to_string(), "Work".to_string()]),
        Err(TodoError::DuplicateTag { tag: "Work".to_string() })
    );
    // An unfit tag is reported before a repeated one.
    assert_eq!(
        validate_tags(&vec!["work".to_string(), "work".to_string(), "a b".to_string()]),
        Err(TodoError::InvalidTagFormat { tag: "a b".to_string() })
    );
    assert_eq!(validate_tags(&vec![]), Ok(()));
}

#[test]
fn tag_characters_are_ascii_letters_digits_hyphen_and_underscore() {
    assert_eq!(validate_tags(&vec!["aZ09-_".to_string()]), Ok(()));
    assert_eq!(
        validate_tags(&vec!["caf\u{e9}".to_string()]),
        Err(TodoError::InvalidTagFormat { tag: "caf\u{e9}".to_string() })
    );
    assert_eq!(
        validate_tags(&vec!["a.b".to_string()]),
        Err(TodoError::InvalidTagFormat { tag: "a.b".to_string() })
    );
}

#[test]
fn project_name_rules() {
    assert_eq!(validate_project_name("Backend"), Ok(()));
    assert_eq!(validate_project_name(""), Err(TodoError::EmptyProjectName));
    assert_eq!(validate_project_name("   "), Err(TodoError::EmptyProjectName));
    assert_eq!(validate_project_name(&"p".repeat(100)), Ok(()));
    assert_eq!(
        validate_project_name(&"p".repeat(101)),
        Err(TodoError::ProjectNameTooLong { max: 100, actual: 101 })
    );
}

#[test]
fn due_date_is_held_against_the_day_given() {
    let day = date(2026, 3, 10);
    assert_eq!(validate_due_date_on(Some(date(2026, 3, 10)), false, day), Ok(()));
    assert_eq!(validate_due_date_on(Some(date(2026, 3, 11)), false, day), Ok(()));
    assert_eq!(
        validate_due_date_on(Some(date(2026, 3, 9)), false, day),
        Err(TodoError::DueDateInPast { date: date(2026, 3, 9) })
    );
    assert_eq!(validate_due_date_on(Some(date(2026, 3, 9)), true, day), Ok(()));
    assert_eq!(validate_due_date_on(None, false, day), Ok(()));
}

#[test]
fn recurrence_error_is_the_missing_due_date() {
    assert_eq!(
        validate_recurrence(Some(Recurrence::Daily), None),
        Err(TodoError::RecurrenceRequiresDueDate)
    );
}

#[test]
fn whole_task_reports_the_first_broken_rule() {
    let day = date(2026, 3, 10);
    let mut task = Task::new(
        "".to_string(),
        Priority::Medium,
        vec!["bad tag".to_string()],
        None,
        Some(date(2026, 3, 1)),
        None,
    );
    assert_eq!(validate_task_on(&task, true, day), Err(TodoError::EmptyTaskText));
    task.text = "Text".to_string();
    assert_eq!(
        validate_task_on(&task, true, day),
        Err(TodoError::InvalidTagFormat { tag: "bad tag".to_string() })
    );
    task.tags = vec![];
    assert_eq!(
        validate_task_on(&task, true, day),
        Err(TodoError::DueDateInPast { date: date(2026, 3, 1) })
    );
    assert_eq!(validate_task_on(&task, false, day), Ok(()));
    task.due_date = None;
    task.recurrence = Some(Recurrence::Weekly);
    assert_eq!(validate_task_on(&task, false, day), Err(TodoError::RecurrenceRequiresDueDate));
}

#[test]
fn numbers_resolve_to_identifiers() {
    let tasks = vec![
        Task::new("A".to_string(), Priority::Medium, vec![], None, None, None),
        Task::new("B".to_string(), Priority::Medium, vec![], None, None, None),
    ];
    assert_eq!(resolve_uuid(1, &tasks), Ok(tasks[0].uuid));
    assert_eq!(resolve_uuid(2, &tasks), Ok(tasks[1].uuid));
    assert_eq!(resolve_uuid(0, &tasks), Err(TodoError::InvalidTaskId { id: 0, max: 2 }));
    assert_eq!(resolve_uuid(3, &tasks), Err(TodoError::InvalidTaskId { id: 3, max: 2 }));
}

#[test]
fn a_tag_is_held_to_the_rules_as_it_is_stored() {
    // White space is no character of a tag, around it or in it.
    assert_eq!(
        validate_tags(&vec![" a".to_string()]),
        Err(TodoError::InvalidTagFormat { tag: " a".to_string() })
    );
    assert_eq!(
        validate_tags(&vec!["work ".to_string()]),
        Err(TodoError::InvalidTagFormat { tag: "work ".to_string() })
    );
    assert_eq!(
        validate_tags(&vec!["\tokay\n".to_string()]),
        Err(TodoError::InvalidTagFormat { tag: "\tokay\n".to_string() })
    );
    // The length is that of the tag as given.
    let padded = format!(" {} ", "x".repeat(49));
    assert_eq!(
        validate_tags(&vec![padded]),
        Err(TodoError::TagTooLong { max: 50, actual: 51 })
    );
    // An empty tag and one of white space only are empty.
    assert_eq!(validate_tags(&vec!["".to_string()]), Err(TodoError::EmptyTag));
    assert_eq!(validate_tags(&vec![" \t".to_string()]), Err(TodoError::EmptyTag));
    assert_eq!(validate_tags(&vec![" ".repeat(60)]), Err(TodoError::EmptyTag));
}

#[test]
fn a_project_name_is_measured_as_it_is_stored() {
    let padded = format!(" {} ", "p".repeat(99));
    assert_eq!(
        validate_project_name(&padded),
        Err(TodoError::ProjectNameTooLong { max: 100, actual: 101 })
    );
    assert_eq!(validate_project_name(&format!(" {}", "p".repeat(99))), Ok(()));
    assert_eq!(validate_project_name(" \t "), Err(TodoError::EmptyProjectName));
}

#[test]
fn a_task_without_a_due_date_is_judged_without_the_clock() {
    let mut task = Task::new("Text".to_string(), Priority::Medium, vec![], None, None, None);
    assert_eq!(validate_task(&task, true), Ok(()));
    assert_eq!(validate_task(&task, false), Ok(()));
    task.recurrence = Some(Recurrence::Daily);
    assert_eq!(validate_task(&task, true), Err(TodoError::RecurrenceRequiresDueDate));
    assert_eq!(validate_task(&task, false), Err(TodoError::RecurrenceRequiresDueDate));
    // An old due date is no fault of a task that is not new.
    task.due_date = Some(date(2000, 1, 1));
    assert_eq!(validate_task(&task, false), Ok(()));
    assert_eq!(
        validate_task(&task, true),
        Err(TodoError::DueDateInPast { date: date(2000, 1, 1) })
    );
    task.tags = vec![" padded".to_string()];
    assert_eq!(
        validate_task(&task, false),
        Err(TodoError::InvalidTagFormat { tag: " padded".to_string() })
    );
}
