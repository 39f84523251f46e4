//! The rules that the fields of a task must meet before it is stored.

use vstd::prelude::*;
use crate::date::{today, Date, Ymd};
use crate::error::TodoError;
use crate::models::recurrence::Recurrence;
use crate::models::task::{task_views, Task};
use crate::text::{
    char_count, eq_ignoring_case, is_blank, same_ignoring_case, text_views, trimmed,
};

verus! {

/// The most characters that the text of a task may have, once trimmed.
pub const MAX_TEXT_LENGTH: usize = 500;

/// The most characters that a tag may have, once trimmed.
pub const MAX_TAG_LENGTH: usize = 50;

/// The most characters that a project name may have, once trimmed.
pub const MAX_PROJECT_LENGTH: usize = 100;

/// Checks that `id` is the number of a task in a list of `max` tasks:
/// numbers start at one.
pub fn validate_task_id(id: usize, max: usize) -> (r: Result<(), TodoError>)
    ensures
        1 <= id <= max ==> r is Ok,
        !(1 <= id <= max) ==> r == Err::<(), TodoError>(TodoError::InvalidTaskId { id, max }),
{
    if id == 0 || id > max {
        return Err(TodoError::InvalidTaskId { id, max });
    }
    Ok(())
}

/// What is wrong with the text of a task, if anything: it is empty once
/// trimmed, or longer than 500 characters.
pub open spec fn text_verdict(text: Seq<char>, r: Result<(), TodoError>) -> bool {
    let t = trimmed(text);
    if t.len() == 0 {
        r == Err::<(), TodoError>(TodoError::EmptyTaskText)
    } else if t.len() > MAX_TEXT_LENGTH {
        r == Err::<(), TodoError>(
            TodoError::TaskTextTooLong { max: MAX_TEXT_LENGTH, actual: t.len() as usize },
        )
    } else {
        r is Ok
    }
}

/// The text of a task is fit to be stored.
pub open spec fn text_is_sound(text: Seq<char>) -> bool {
    0 < trimmed(text).len() <= MAX_TEXT_LENGTH
}

/// Checks that the text of a task is not empty and not too long.
pub fn validate_task_text(text: &str) -> (r: Result<(), TodoError>)
    ensures
        text_verdict(text@, r),
{
    if is_blank(text) {
        return Err(TodoError::EmptyTaskText);
    }
    let t = text.trim();
    let actual = char_count(t);
    if actual > MAX_TEXT_LENGTH {
        return Err(TodoError::TaskTextTooLong { max: MAX_TEXT_LENGTH, actual });
    }
    Ok(())
}

/// What is wrong with a project name, if anything: it is empty or white
/// space only, or longer than 100 characters. The name is measured as it
/// is stored, white space around it included.
pub open spec fn project_verdict(name: Seq<char>, r: Result<(), TodoError>) -> bool {
    if trimmed(name).len() == 0 {
        r == Err::<(), TodoError>(TodoError::EmptyProjectName)
    } else if name.len() > MAX_PROJECT_LENGTH {
        r == Err::<(), TodoError>(
            TodoError::ProjectNameTooLong { max: MAX_PROJECT_LENGTH, actual: name.len() as usize },
        )
    } else {
        r is Ok
    }
}

/// The project name is fit to be stored: it is not white space only and
/// has at most 100 characters.
pub open spec fn project_is_sound(name: Seq<char>) -> bool {
    trimmed(name).len() > 0 && name.len() <= MAX_PROJECT_LENGTH
}

/// Checks that a project name is not empty and not too long.
pub fn validate_project_name(name: &str) -> (r: Result<(), TodoError>)
    ensures
        project_verdict(name@, r),
        r is Ok <==> project_is_sound(name@),
{
    if is_blank(name) {
        return Err(TodoError::EmptyProjectName);
    }
    let actual = char_count(name);
    if actual > MAX_PROJECT_LENGTH {
        return Err(TodoError::ProjectNameTooLong { max: MAX_PROJECT_LENGTH, actual });
    }
    Ok(())
}

/// A character that a tag may hold: an ASCII letter or digit, a hyphen or
/// an underscore.
pub open spec fn is_tag_char(c: char) -> bool {
    ||| 'a' <= c <= 'z'
    ||| 'A' <= c <= 'Z'
    ||| '0' <= c <= '9'
    ||| c == '-'
    ||| c == '_'
}

/// Every character of `tag` is one that a tag may hold.
pub open spec fn has_tag_chars(tag: Seq<char>) -> bool {
    forall|i: int| 0 <= i < tag.len() ==> is_tag_char(#[trigger] tag[i])
}

/// The tag is fit to be stored as it is: it is not empty or white space
/// only, has at most 50 characters, and holds no character that a tag may
/// not hold. White space is no such character, so a tag with white space
/// in it or around it is not fit.
pub open spec fn tag_is_sound(tag: Seq<char>) -> bool {
    &&& trimmed(tag).len() > 0
    &&& tag.len() <= MAX_TAG_LENGTH
    &&& has_tag_chars(tag)
}

/// `i` is the index of the first tag that is not fit to be stored.
pub open spec fn is_first_unsound(tags: Seq<Seq<char>>, i: int) -> bool {
    &&& 0 <= i < tags.len()
    &&& !tag_is_sound(tags[i])
    &&& forall|j: int| 0 <= j < i ==> tag_is_sound(#[trigger] tags[j])
}

/// The tag at index `i` repeats an earlier one, whatever the case of the
/// letters.
pub open spec fn repeats_earlier(tags: Seq<Seq<char>>, i: int) -> bool {
    exists|j: int| 0 <= j < i && same_ignoring_case(#[trigger] tags[j], tags[i])
}

/// `i` is the index of the first tag that repeats an earlier one.
pub open spec fn is_first_repeat(tags: Seq<Seq<char>>, i: int) -> bool {
    &&& 0 <= i < tags.len()
    &&& repeats_earlier(tags, i)
    &&& forall|k: int| 0 <= k < i ==> !#[trigger] repeats_earlier(tags, k)
}

/// The tags are fit to be stored: each one is, and none repeats an earlier
/// one.
pub open spec fn tags_are_sound(tags: Seq<Seq<char>>) -> bool {
    &&& forall|i: int| 0 <= i < tags.len() ==> tag_is_sound(#[trigger] tags[i])
    &&& forall|i: int| 0 <= i < tags.len() ==> !#[trigger] repeats_earlier(tags, i)
}

/// What is wrong with a list of tags, if anything.
///
/// The first tag that is not fit to be stored decides: empty or white space
/// only, too long, or ill-formed, in this order. Where every tag is fit,
/// the first tag that repeats an earlier one is reported. Where none does,
/// the list is sound. The errors name the tag as it was given.
pub open spec fn tags_verdict(tags: Seq<Seq<char>>, r: Result<(), TodoError>) -> bool {
    match r {
        Ok(()) => tags_are_sound(tags),
        Err(TodoError::EmptyTag) => exists|i: int| #[trigger]
            is_first_unsound(tags, i) && trimmed(tags[i]).len() == 0,
        Err(TodoError::TagTooLong { max, actual }) => exists|i: int| #[trigger]
            is_first_unsound(tags, i) && trimmed(tags[i]).len() > 0 && tags[i].len()
                > MAX_TAG_LENGTH && max == MAX_TAG_LENGTH && actual == tags[i].len(),
        Err(TodoError::InvalidTagFormat { tag }) => exists|i: int| #[trigger]
            is_first_unsound(tags, i) && trimmed(tags[i]).len() > 0 && tags[i].len()
                <= MAX_TAG_LENGTH && tag@ == tags[i],
        Err(TodoError::DuplicateTag { tag }) => {
            &&& forall|i: int| 0 <= i < tags.len() ==> tag_is_sound(#[trigger] tags[i])
            &&& exists|i: int| #[trigger] is_first_repeat(tags, i) && tag@ == tags[i]
        },
        Err(_) => false,
    }
}

/// Whether `c` is a character that a tag may hold.
pub fn check_tag_char(c: char) -> (r: bool)
    ensures
        r == is_tag_char(c),
{
    ('a' <= c && c <= 'z') || ('A' <= c && c <= 'Z') || ('0' <= c && c <= '9') || c == '-' || c
        == '_'
}

/// Whether every character of `tag` is one that a tag may hold.
pub fn check_tag_chars(tag: &str) -> (r: bool)
    ensures
        r == has_tag_chars(tag@),
{
    let n = char_count(tag);
    let mut i: usize = 0;
    while i < n
        invariant
            i <= n,
            n == tag@.len(),
            forall|k: int| 0 <= k < i ==> is_tag_char(#[trigger] tag@[k]),
        decreases n - i,
    {
        if !check_tag_char(tag.get_char(i)) {
            return false;
        }
        i += 1;
    }
    true
}

/// Whether the tag at index `i` repeats an earlier one, whatever the case
/// of the letters.
fn check_repeats_earlier(tags: &[String], i: usize) -> (r: bool)
    requires
        i < tags.len(),
    ensures
        r == repeats_earlier(text_views(tags@), i as int),
{
    let ghost views = text_views(tags@);
    let mut j: usize = 0;
    while j < i
        invariant
            j <= i < tags.len(),
            views == text_views(tags@),
            forall|k: int| 0 <= k < j ==> !same_ignoring_case(#[trigger] views[k], views[i as int]),
        decreases i - j,
    {
        assert(views[j as int] == tags@[j as int]@);
        assert(views[i as int] == tags@[i as int]@);
        if eq_ignoring_case(tags[j].as_str(), tags[i].as_str()) {
            return true;
        }
        j += 1;
    }
    false
}

/// Checks that each tag is fit to be stored and that none occurs twice,
/// whatever the case of its letters.
pub fn validate_tags(tags: &[String]) -> (r: Result<(), TodoError>)
    ensures
        tags_verdict(text_views(tags@), r),
{
    let ghost views = text_views(tags@);
    let mut i: usize = 0;
    while i < tags.len()
        invariant
            i <= tags.len(),
            views == text_views(tags@),
            forall|j: int| 0 <= j < i ==> tag_is_sound(#[trigger] views[j]),
        decreases tags.len() - i,
    {
        assert(views[i as int] == tags@[i as int]@);
        if is_blank(tags[i].as_str()) {
            assert(is_first_unsound(views, i as int));
            return Err(TodoError::EmptyTag);
        }
        let actual = char_count(tags[i].as_str());
        if actual > MAX_TAG_LENGTH {
            assert(is_first_unsound(views, i as int));
            return Err(TodoError::TagTooLong { max: MAX_TAG_LENGTH, actual });
        }
        if !check_tag_chars(tags[i].as_str()) {
            assert(is_first_unsound(views, i as int));
            return Err(TodoError::InvalidTagFormat { tag: tags[i].clone() });
        }
        i += 1;
    }
    let mut k: usize = 0;
    while k < tags.len()
        invariant
            k <= tags.len(),
            views == text_views(tags@),
            forall|j: int| 0 <= j < tags.len() ==> tag_is_sound(#[trigger] views[j]),
            forall|j: int| 0 <= j < k ==> !#[trigger] repeats_earlier(views, j),
        decreases tags.len() - k,
    {
        if check_repeats_earlier(tags, k) {
            assert(is_first_repeat(views, k as int));
            assert(views[k as int] == tags@[k as int]@);
            return Err(TodoError::DuplicateTag { tag: tags[k].clone() });
        }
        k += 1;
    }
    Ok(())
}

/// The due date lies before `today`, and dates in the past are not
/// allowed.
pub open spec fn due_is_past(due: Option<Date>, allow_past: bool, today: Ymd) -> bool {
    due matches Some(date) && !allow_past && date@.before(today)
}

/// What is wrong with a due date, if anything: it lies before `today` and
/// dates in the past are not allowed.
pub open spec fn due_date_verdict(
    due: Option<Date>,
    allow_past: bool,
    today: Ymd,
    r: Result<(), TodoError>,
) -> bool {
    match due {
        Some(date) if !allow_past && date@.before(today) => r == Err::<(), TodoError>(
            TodoError::DueDateInPast { date },
        ),
        _ => r is Ok,
    }
}

/// Checks, on the day `today`, that a due date does not lie in the past,
/// unless `allow_past` is set.
pub fn validate_due_date_on(due_date: Option<Date>, allow_past: bool, today: Date) -> (r: Result<
    (),
    TodoError,
>)
    ensures
        due_date_verdict(due_date, allow_past, today@, r),
{
    if let Some(due) = due_date {
        if !allow_past && due.is_before(&today) {
            return Err(TodoError::DueDateInPast { date: due });
        }
    }
    Ok(())
}

/// Checks that a due date does not lie before today, unless `allow_past` is
/// set: the verdict is that of [`validate_due_date_on`] for the day that
/// the clock reports. No due date, or a due date that may lie in the past,
/// passes on every day, and the only error is that the date is in the past.
pub fn validate_due_date(due_date: Option<Date>, allow_past: bool) -> (r: Result<(), TodoError>)
    ensures
        exists|day: Date| day.wf() && #[trigger] due_date_verdict(due_date, allow_past, day@, r),
        due_date is None || allow_past ==> r is Ok,
        r matches Err(e) ==> e == (TodoError::DueDateInPast { date: due_date.unwrap() }),
{
    let now = Date::today();
    validate_due_date_on(due_date, allow_past, now)
}

/// Checks that a task that repeats has a due date.
pub fn validate_recurrence(recurrence: Option<Recurrence>, due_date: Option<Date>) -> (r: Result<
    (),
    TodoError,
>)
    ensures
        recurrence is Some && due_date is None ==> r == Err::<(), TodoError>(
            TodoError::RecurrenceRequiresDueDate,
        ),
        !(recurrence is Some && due_date is None) ==> r is Ok,
{
    if recurrence.is_some() && due_date.is_none() {
        return Err(TodoError::RecurrenceRequiresDueDate);
    }
    Ok(())
}

/// What is wrong with a task, if anything: the verdict on its text where
/// that is not sound, else the one on its tags, else the one on its due
/// date, which may lie in the past only where the task is not new, else
/// the one on its recurrence.
pub open spec fn task_verdict(task: &Task, is_new: bool, today: Ymd, r: Result<(), TodoError>) -> bool {
    if !text_is_sound(task.text@) {
        text_verdict(task.text@, r)
    } else if !tags_are_sound(text_views(task.tags@)) {
        tags_verdict(text_views(task.tags@), r)
    } else if due_is_past(task.due_date, !is_new, today) {
        due_date_verdict(task.due_date, !is_new, today, r)
    } else if task.recurrence is Some && task.due_date is None {
        r == Err::<(), TodoError>(TodoError::RecurrenceRequiresDueDate)
    } else {
        r is Ok
    }
}

/// Checks every field of a task, on the day `today`, and reports the first
/// rule that is broken. The due date of a new task may not lie in the past.
pub fn validate_task_on(task: &Task, is_new: bool, today: Date) -> (r: Result<(), TodoError>)
    ensures
        task_verdict(task, is_new, today@, r),
{
    match validate_task_text(task.text.as_str()) {
        Err(e) => {
            return Err(e);
        },
        Ok(()) => {},
    }
    match validate_tags(task.tags.as_slice()) {
        Err(e) => {
            return Err(e);
        },
        Ok(()) => {},
    }
    match validate_due_date_on(task.due_date, !is_new, today) {
        Err(e) => {
            return Err(e);
        },
        Ok(()) => {},
    }
    validate_recurrence(task.recurrence, task.due_date)
}

/// Checks every field of a task and reports the first rule that is broken:
/// the verdict is that of [`validate_task_on`] for the day that the clock
/// reports. The due date of a new task may not lie before today.
///
/// The clock decides only where the text and the tags are sound and a new
/// task has a due date. Everywhere else the verdict is owed as it stands:
/// the error of the text, else that of the tags, else that a task that
/// repeats has no due date, else success.
pub fn validate_task(task: &Task, is_new: bool) -> (r: Result<(), TodoError>)
    ensures
        exists|day: Date| day.wf() && #[trigger] task_verdict(task, is_new, day@, r),
        !text_is_sound(task.text@) ==> text_verdict(task.text@, r),
        text_is_sound(task.text@) && !tags_are_sound(text_views(task.tags@)) ==> tags_verdict(
            text_views(task.tags@),
            r,
        ),
        text_is_sound(task.text@) && tags_are_sound(text_views(task.tags@)) && (task.due_date is None
            || !is_new) ==> (if task.recurrence is Some && task.due_date is None {
            r == Err::<(), TodoError>(TodoError::RecurrenceRequiresDueDate)
        } else {
            r is Ok
        }),
        r is Ok ==> text_is_sound(task.text@) && tags_are_sound(text_views(task.tags@)) && !(
        task.recurrence is Some && task.due_date is None),
        r is Err && text_is_sound(task.text@) && tags_are_sound(text_views(task.tags@)) ==> r
            == Err::<(), TodoError>(TodoError::RecurrenceRequiresDueDate) || (is_new
            && task.due_date is Some && r == Err::<(), TodoError>(
            TodoError::DueDateInPast { date: task.due_date.unwrap() },
        )),
{
    let now = Date::today();
    validate_task_on(task, is_new, now)
}

/// The identifier of the task with the number `id`, counted from one.
pub fn resolve_uuid(id: usize, tasks: &[Task]) -> (r: Result<u128, TodoError>)
    ensures
        1 <= id <= tasks.len() ==> r == Ok::<u128, TodoError>(task_views(tasks@)[id - 1].uuid),
        !(1 <= id <= tasks.len()) ==> r == Err::<u128, TodoError>(
            TodoError::InvalidTaskId { id, max: tasks@.len() as usize },
        ),
{
    match validate_task_id(id, tasks.len()) {
        Ok(()) => Ok(tasks[id - 1].uuid),
        Err(e) => Err(e),
    }
}

} // verus!
