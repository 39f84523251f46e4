//! The words and the urgency of a due date, and the checkbox of a task.

use vstd::prelude::*;
use crate::date::{days_apart, Date, Ymd};
use crate::models::task::{Task, TaskView};
use crate::text::{decimal, number_text};

verus! {

/// The words for a due date that lies `days` days from today: `late 2
/// days`, `due today`, `in 1 day`.
pub open spec fn due_words(days: int) -> Seq<char> {
    if days < 0 {
        "late "@ + decimal((-days) as nat) + (if days == -1 {
            " day"@
        } else {
            " days"@
        })
    } else if days == 0 {
        "due today"@
    } else {
        "in "@ + decimal(days as nat) + (if days == 1 {
            " day"@
        } else {
            " days"@
        })
    }
}

/// `text` is what a table shows for the due date of `task` on the day
/// `today`: nothing for a task without one, else the words for the number
/// of days from `today` to it.
pub open spec fn is_due_text(task: TaskView, today: Ymd, text: Seq<char>) -> bool {
    if task.due_date is None {
        text.len() == 0
    } else {
        exists|days: int| #[trigger]
            days_apart(today, task.due_date.unwrap(), days) && text == due_words(days)
    }
}

/// The words for a number of days with its unit: `1 day`, `3 days`.
fn days_text(n: u64) -> (r: String)
    ensures
        r@ == decimal(n as nat) + (if n == 1 {
            " day"@
        } else {
            " days"@
        }),
{
    let mut out = number_text(n);
    if n == 1 {
        out.append(" day");
    } else {
        out.append(" days");
    }
    out
}

/// What a table shows for the due date of `task` on the day `today`.
pub fn get_due_text_on(task: &Task, today: Date) -> (r: String)
    ensures
        is_due_text(task@, today@, r@),
{
    let due = match task.due_date {
        Some(due) => due,
        None => {
            return String::new();
        },
    };
    let days = due.days_since(today);
    let out = if days < 0 {
        let late: u64 = if days == i64::MIN {
            9223372036854775808u64
        } else {
            (-days) as u64
        };
        let mut out = "late ".to_owned();
        out.append(days_text(late).as_str());
        assert(out@ =~= due_words(days as int));
        out
    } else if days == 0 {
        "due today".to_owned()
    } else {
        let mut out = "in ".to_owned();
        out.append(days_text(days as u64).as_str());
        assert(out@ =~= due_words(days as int));
        out
    };
    proof {
        assert(task@.due_date == Some(due@));
        assert(days_apart(today@, due@, days as int));
        assert(out@ == due_words(days as int));
        assert(task@.due_date.unwrap() == due@);
        assert(days_apart(today@, task@.due_date.unwrap(), days as int));
    }
    out
}

/// What a table shows for the due date of `task` today: what
/// [`get_due_text_on`] gives for the day that the clock reports. A task
/// without a due date shows nothing on any day.
pub fn get_due_text(task: &Task) -> (r: String)
    ensures
        exists|day: Date| day.wf() && #[trigger] is_due_text(task@, day@, r@),
        task.due_date is None ==> r@.len() == 0,
        task.due_date is Some ==> exists|days: int| r@ == #[trigger] due_words(days),
{
    let now = Date::today();
    let text = get_due_text_on(task, now);
    proof {
        if task.due_date is Some {
            let days = choose|days: int| #[trigger]
                days_apart(now@, task@.due_date.unwrap(), days) && text@ == due_words(days);
            assert(text@ == due_words(days));
        }
    }
    text
}

/// How pressing a due date is. It decides how the date is shown.
#[derive(Clone, Copy, Debug, PartialEq, Eq, Structural)]
pub enum DueUrgency {
    /// The task has no due date: nothing is shown.
    Unset,
    /// The task is completed: its due date no longer presses.
    Settled,
    /// The due date lies before today.
    Overdue,
    /// The task is due today.
    Today,
    /// The task is due within the next seven days.
    Soon,
    /// The task is due later than that.
    Later,
}

/// How pressing the due date of `task` is on a day from which it is
/// `days` days away.
pub open spec fn urgency_of(task: TaskView, days: int) -> DueUrgency {
    if task.due_date is None {
        DueUrgency::Unset
    } else if task.completed {
        DueUrgency::Settled
    } else if days < 0 {
        DueUrgency::Overdue
    } else if days == 0 {
        DueUrgency::Today
    } else if days <= 7 {
        DueUrgency::Soon
    } else {
        DueUrgency::Later
    }
}

/// How pressing the due date of `task` is on the day `today`.
pub fn due_urgency_on(task: &Task, today: Date) -> (r: DueUrgency)
    ensures
        task.due_date is None ==> r == DueUrgency::Unset,
        task.due_date is Some ==> exists|days: int| #[trigger]
            days_apart(today@, task.due_date.unwrap()@, days) && r == urgency_of(task@, days),
{
    let due = match task.due_date {
        Some(due) => due,
        None => {
            return DueUrgency::Unset;
        },
    };
    let days = due.days_since(today);
    proof {
        assert(task@.due_date.unwrap() == due@);
        assert(days_apart(today@, task@.due_date.unwrap(), days as int));
    }
    if task.completed {
        DueUrgency::Settled
    } else if days < 0 {
        DueUrgency::Overdue
    } else if days == 0 {
        DueUrgency::Today
    } else if days <= 7 {
        DueUrgency::Soon
    } else {
        DueUrgency::Later
    }
}

/// The checkbox of a task: ticked where the task is completed.
pub fn render_checkbox(completed: bool) -> (r: &'static str)
    ensures
        r@ == (if completed {
            "[x]"@
        } else {
            "[ ]"@
        }),
{
    if completed {
        "[x]"
    } else {
        "[ ]"
    }
}

} // verus!
