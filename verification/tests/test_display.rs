//! Tests of what a table shows.

use rustodo::date::Date;
use rustodo::display::formatting::{due_urgency_on, get_due_text_on, DueUrgency};
use rustodo::display::{get_due_text, render_checkbox, TableLayout};
use rustodo::models::{Priority, Recurrence, Task};
use rustodo::text::{fit, join};

fn date(year: i32, month: u32, day: u32) -> Date {
    Date::from_ymd_opt(year, month, day).unwrap()
}

fn task(text: &str, due: Option<Date>) -> Task {
    Task::new(text.to_string(), Priority::Medium, vec![], None, due, None)
}

#[test]
fn due_text_counts_the_days() {
    let today = date(2026, 3, 10);
    let text = |due| get_due_text_on(&task("t", due), today);
    assert_eq!(text(None), "");
    assert_eq!(text(Some(date(2026, 3, 10))), "due today");
    assert_eq!(text(Some(date(2026, 3, 11))), "in 1 day");
    assert_eq!(text(Some(date(2026, 3, 13))), "in 3 days");
    assert_eq!(text(Some(date(2027, 3, 10))), "in 365 days");
    assert_eq!(text(Some(date(2026, 3, 9))), "late 1 day");
    assert_eq!(text(Some(date(2026, 2, 28))), "late 10 days");
    assert_eq!(get_due_text(&task("t", None)), "");
    assert_eq!(get_due_text(&task("t", Some(Date::today()))), "due today");
}

#[test]
fn urgency_follows_the_days_and_completion() {
    let today = date(2026, 3, 10);
    let urgency = |due, completed| {
        let mut t = task("t", due);
        t.completed = completed;
        due_urgency_on(&t, today)
    };
    assert_eq!(urgency(None, false), DueUrgency::Unset);
    assert_eq!(urgency(Some(date(2026, 3, 1)), true), DueUrgency::Settled);
    assert_eq!(urgency(Some(date(2026, 3, 9)), false), DueUrgency::Overdue);
    assert_eq!(urgency(Some(date(2026, 3, 10)), false), DueUrgency::Today);
    assert_eq!(urgency(Some(date(2026, 3, 17)), false), DueUrgency::Soon);
    assert_eq!(urgency(Some(date(2026, 3, 18)), false), DueUrgency::Later);
}

#[test]
fn checkbox_is_ticked_when_completed() {
    assert_eq!(render_checkbox(true), "[x]");
    assert_eq!(render_checkbox(false), "[ ]");
}

#[test]
fn layout_of_an_empty_table_has_the_least_widths() {
    let layout = TableLayout::new(&[]);
    assert_eq!(layout.task_width(), 10);
    assert_eq!(layout.tags_width(), 4);
    assert_eq!(layout.due_width(), 3);
    assert!(!layout.shows_recur() && !layout.shows_tags() && !layout.shows_due());
    assert_eq!(layout.total_width(), 4 + 1 + 3 + 10 + 8);
}

#[test]
fn layout_grows_with_the_tasks_up_to_its_bounds() {
    let today = date(2026, 3, 10);
    let mut a = task("A task of twenty-six chars", Some(date(2026, 3, 13)));
    a.tags = vec!["work".to_string(), "urgent".to_string()];
    let mut b = task(&"x".repeat(60), None);
    b.recurrence = Some(Recurrence::Daily);
    let plain = task("short", None);

    let layout = TableLayout::new_on(&[(1, &a), (2, &plain)], today);
    assert_eq!(layout.task_width(), 26);
    assert_eq!(layout.tags_width(), 12);
    assert_eq!(layout.due_width(), 9);
    assert!(!layout.shows_recur() && layout.shows_tags() && layout.shows_due());
    assert_eq!(layout.total_width(), 4 + 1 + 3 + 26 + 8 + 14 + 11);

    let layout = TableLayout::new_on(&[(7, &b), (9, &plain)], today);
    assert_eq!(layout.task_width(), 40);
    assert_eq!(layout.tags_width(), 4);
    assert!(layout.shows_recur() && !layout.shows_tags() && !layout.shows_due());
    assert_eq!(layout.total_width(), 4 + 1 + 3 + 40 + 8 + 3);
}

#[test]
fn text_is_cut_to_fit_a_column() {
    assert_eq!(fit("short", 10), "short");
    assert_eq!(fit("exactly ten", 11), "exactly ten");
    assert_eq!(fit("a text that is too long", 10), "a text ...");
    assert_eq!(fit("\u{e9}\u{e9}\u{e9}\u{e9}\u{e9}", 4), "\u{e9}...");
    assert_eq!(fit("abcd", 3), "...");
}

#[test]
fn texts_are_joined_with_a_separator() {
    let texts = |list: &[&str]| list.iter().map(|s| s.to_string()).collect::<Vec<String>>();
    assert_eq!(join(&texts(&[]), ", "), "");
    assert_eq!(join(&texts(&["a"]), ", "), "a");
    assert_eq!(join(&texts(&["a", "b", "c"]), ", "), "a, b, c");
    assert_eq!(join(&texts(&["", ""]), "-"), "-");
}
