//! The layout of a table of tasks: how wide each column is, and which of
//! the columns that not every list needs are shown.

use vstd::prelude::*;
use crate::date::{Date, Ymd};
use crate::models::task::{Task, TaskView};
use crate::text::{char_count, join, joined};
use super::formatting::{get_due_text_on, is_due_text};

verus! {

/// The width of the column of task numbers.
pub const ID_WIDTH: usize = 4;

/// The width of the column of priorities.
pub const PRIORITY_WIDTH: usize = 1;

/// The width of the column of checkboxes.
pub const STATUS_WIDTH: usize = 3;

/// The width of the column of recurrence letters.
pub const RECUR_WIDTH: usize = 1;

/// The least width of the text column, and the most.
pub const MIN_TASK_WIDTH: usize = 10;

pub const MAX_TASK_WIDTH: usize = 40;

/// The least width of the tags column, and the most.
pub const MIN_TAGS_WIDTH: usize = 4;

pub const MAX_TAGS_WIDTH: usize = 20;

/// The least width of the due-date column, and the most.
pub const MIN_DUE_WIDTH: usize = 3;

pub const MAX_DUE_WIDTH: usize = 20;

/// The widths of the columns of a table and the choice of its columns.
#[derive(Clone, Copy, Debug, PartialEq, Eq)]
pub struct TableLayout {
    id: usize,
    priority: usize,
    status: usize,
    recur: usize,
    task: usize,
    tags: usize,
    due: usize,
    show_recur: bool,
    show_tags: bool,
    show_due: bool,
}

/// The mathematical value of a [`TableLayout`]: the widths that depend on
/// the tasks, and the columns that are shown.
pub ghost struct LayoutView {
    pub task: nat,
    pub tags: nat,
    pub due: nat,
    pub show_recur: bool,
    pub show_tags: bool,
    pub show_due: bool,
}

/// What the tags column shows for a task: its tags, separated by a comma
/// and a space.
pub open spec fn tags_text(task: TaskView) -> Seq<char> {
    joined(task.tags, ", "@)
}

/// The width that holds each of `widths`, no less than `least` and no more
/// than `most`.
pub open spec fn column_width(widths: Seq<nat>, least: nat, most: nat) -> nat
    decreases widths.len(),
{
    if widths.len() == 0 {
        least
    } else {
        let rest = column_width(widths.drop_last(), least, most);
        if widths.last() > most {
            most
        } else if widths.last() > rest {
            widths.last()
        } else {
            rest
        }
    }
}

/// The layout of a table that shows `tasks`, given for each task the text
/// of its due date in `due_texts`.
///
/// The text column is as wide as the longest text, the tags column as the
/// longest list of tags, the due column as the longest due text, each
/// within its bounds. The columns for recurrence, tags and due date are
/// shown where some task has one.
pub open spec fn layout_of(tasks: Seq<TaskView>, due_texts: Seq<Seq<char>>) -> LayoutView {
    LayoutView {
        task: column_width(
            tasks.map_values(|t: TaskView| t.text.len()),
            MIN_TASK_WIDTH as nat,
            MAX_TASK_WIDTH as nat,
        ),
        tags: column_width(
            tasks.map_values(|t: TaskView| tags_text(t).len()),
            MIN_TAGS_WIDTH as nat,
            MAX_TAGS_WIDTH as nat,
        ),
        due: column_width(
            due_texts.map_values(|d: Seq<char>| d.len()),
            MIN_DUE_WIDTH as nat,
            MAX_DUE_WIDTH as nat,
        ),
        show_recur: exists|i: int| 0 <= i < tasks.len() && (#[trigger] tasks[i]).recurrence is Some,
        show_tags: exists|i: int| 0 <= i < tasks.len() && (#[trigger] tasks[i]).tags.len() > 0,
        show_due: exists|i: int| 0 <= i < tasks.len() && (#[trigger] tasks[i]).due_date is Some,
    }
}

/// `layout` is the layout of a table that shows `tasks` on the day `today`:
/// the layout for the texts that the due dates have on that day.
pub open spec fn is_layout_on(tasks: Seq<TaskView>, today: Ymd, layout: LayoutView) -> bool {
    exists|due_texts: Seq<Seq<char>>|
        {
            &&& due_texts.len() == tasks.len()
            &&& forall|i: int|
                0 <= i < tasks.len() ==> is_due_text(tasks[i], today, #[trigger] due_texts[i])
            &&& layout == #[trigger] layout_of(tasks, due_texts)
        }
}

/// The tasks of the rows of a table.
pub open spec fn row_tasks(rows: Seq<(usize, &Task)>) -> Seq<TaskView> {
    rows.map_values(|row: (usize, &Task)| row.1@)
}

/// A column never shrinks below its least width nor grows over its most.
proof fn lemma_column_width_bounds(widths: Seq<nat>, least: nat, most: nat)
    requires
        least <= most,
    ensures
        least <= column_width(widths, least, most) <= most,
    decreases widths.len(),
{
    if widths.len() > 0 {
        lemma_column_width_bounds(widths.drop_last(), least, most);
    }
}

/// One more width to hold in a column.
fn widen(current: usize, width: usize, most: usize) -> (r: usize)
    ensures
        r == (if width > most {
            most
        } else if width > current {
            width
        } else {
            current
        }),
{
    if width > most {
        most
    } else if width > current {
        width
    } else {
        current
    }
}

impl View for TableLayout {
    type V = LayoutView;

    closed spec fn view(&self) -> LayoutView {
        LayoutView {
            task: self.task as nat,
            tags: self.tags as nat,
            due: self.due as nat,
            show_recur: self.show_recur,
            show_tags: self.show_tags,
            show_due: self.show_due,
        }
    }
}

impl TableLayout {
    /// The widths are within the bounds of their columns.
    #[verifier::type_invariant]
    closed spec fn wf(self) -> bool {
        &&& self.id == ID_WIDTH
        &&& self.priority == PRIORITY_WIDTH
        &&& self.status == STATUS_WIDTH
        &&& self.recur == RECUR_WIDTH
        &&& MIN_TASK_WIDTH <= self.task <= MAX_TASK_WIDTH
        &&& MIN_TAGS_WIDTH <= self.tags <= MAX_TAGS_WIDTH
        &&& MIN_DUE_WIDTH <= self.due <= MAX_DUE_WIDTH
    }

    /// The width of the whole table: the columns that are shown and the
    /// space between them.
    pub open spec fn width(layout: LayoutView) -> nat {
        ID_WIDTH as nat + PRIORITY_WIDTH as nat + STATUS_WIDTH as nat + layout.task + 8 + (
        if layout.show_recur {
            RECUR_WIDTH as nat + 2
        } else {
            0
        }) + (if layout.show_tags {
            layout.tags + 2
        } else {
            0
        }) + (if layout.show_due {
            layout.due + 2
        } else {
            0
        })
    }

    /// The layout of a table that shows `tasks` on the day `today`.
    pub fn new_on(tasks: &[(usize, &Task)], today: Date) -> (r: Self)
        ensures
            is_layout_on(row_tasks(tasks@), today@, r@),
    {
        let ghost rows = row_tasks(tasks@);
        let ghost mut due_texts = Seq::<Seq<char>>::empty();
        let mut task: usize = MIN_TASK_WIDTH;
        let mut tags: usize = MIN_TAGS_WIDTH;
        let mut due: usize = MIN_DUE_WIDTH;
        let mut show_recur = false;
        let mut show_tags = false;
        let mut show_due = false;
        let mut i: usize = 0;
        proof {
            assert(rows.subrange(0, 0) =~= Seq::<TaskView>::empty());
        }
        while i < tasks.len()
            invariant
                i <= tasks.len(),
                rows == row_tasks(tasks@),
                due_texts.len() == i,
                forall|k: int| 0 <= k < i ==> is_due_text(rows[k], today@, #[trigger] due_texts[k]),
                MIN_TASK_WIDTH <= task <= MAX_TASK_WIDTH,
                MIN_TAGS_WIDTH <= tags <= MAX_TAGS_WIDTH,
                MIN_DUE_WIDTH <= due <= MAX_DUE_WIDTH,
                (LayoutView {
                    task: task as nat,
                    tags: tags as nat,
                    due: due as nat,
                    show_recur,
                    show_tags,
                    show_due,
                }) == layout_of(rows.subrange(0, i as int), due_texts),
            decreases tasks.len() - i,
        {
            let t = tasks[i].1;
            let tag_list = join(t.tags.as_slice(), ", ");
            let due_text = get_due_text_on(t, today);
            let ghost seen = rows.subrange(0, i as int);
            let ghost next = rows.subrange(0, i + 1);
            let ghost old_texts = due_texts;
            proof {
                due_texts = due_texts.push(due_text@);
                assert(rows[i as int] == t@);
                assert(next.drop_last() =~= seen);
                assert(next.last() == t@);
                assert(due_texts.drop_last() =~= old_texts);
                assert(next.map_values(|t: TaskView| t.text.len()).drop_last() =~= seen.map_values(
                    |t: TaskView| t.text.len(),
                ));
                assert(next.map_values(|t: TaskView| tags_text(t).len()).drop_last()
                    =~= seen.map_values(|t: TaskView| tags_text(t).len()));
                assert(due_texts.map_values(|d: Seq<char>| d.len()).drop_last()
                    =~= old_texts.map_values(|d: Seq<char>| d.len()));
                let before = layout_of(seen, old_texts);
                let after = layout_of(next, due_texts);
                assert(after.show_recur == (before.show_recur || t@.recurrence is Some)) by {
                    if before.show_recur {
                        let k = choose|k: int|
                            0 <= k < seen.len() && (#[trigger] seen[k]).recurrence is Some;
                        assert(next[k].recurrence is Some);
                    }
                    if t@.recurrence is Some {
                        assert(next[i as int].recurrence is Some);
                    }
                    if after.show_recur {
                        let k = choose|k: int|
                            0 <= k < next.len() && (#[trigger] next[k]).recurrence is Some;
                        if k < i {
                            assert(seen[k].recurrence is Some);
                        }
                    }
                }
                assert(after.show_tags == (before.show_tags || t@.tags.len() > 0)) by {
                    if before.show_tags {
                        let k = choose|k: int| 0 <= k < seen.len() && (#[trigger] seen[k]).tags.len() > 0;
                        assert(next[k].tags.len() > 0);
                    }
                    if t@.tags.len() > 0 {
                        assert(next[i as int].tags.len() > 0);
                    }
                    if after.show_tags {
                        let k = choose|k: int| 0 <= k < next.len() && (#[trigger] next[k]).tags.len() > 0;
                        if k < i {
                            assert(seen[k].tags.len() > 0);
                        }
                    }
                }
                assert(after.show_due == (before.show_due || t@.due_date is Some)) by {
                    if before.show_due {
                        let k = choose|k: int|
                            0 <= k < seen.len() && (#[trigger] seen[k]).due_date is Some;
                        assert(next[k].due_date is Some);
                    }
                    if t@.due_date is Some {
                        assert(next[i as int].due_date is Some);
                    }
                    if after.show_due {
                        let k = choose|k: int|
                            0 <= k < next.len() && (#[trigger] next[k]).due_date is Some;
                        if k < i {
                            assert(seen[k].due_date is Some);
                        }
                    }
                }
            }
            task = widen(task, char_count(t.text.as_str()), MAX_TASK_WIDTH);
            tags = widen(tags, char_count(tag_list.as_str()), MAX_TAGS_WIDTH);
            due = widen(due, char_count(due_text.as_str()), MAX_DUE_WIDTH);
            if t.recurrence.is_some() {
                show_recur = true;
            }
            if t.tags.len() > 0 {
                show_tags = true;
            }
            if t.due_date.is_some() {
                show_due = true;
            }
            assert(t.tags@.len() == t@.tags.len());
            i += 1;
        }
        proof {
            assert(rows.subrange(0, i as int) =~= rows);
        }
        TableLayout {
            id: ID_WIDTH,
            priority: PRIORITY_WIDTH,
            status: STATUS_WIDTH,
            recur: RECUR_WIDTH,
            task,
            tags,
            due,
            show_recur,
            show_tags,
            show_due,
        }
    }

    /// The layout of a table that shows `tasks` today: what
    /// [`TableLayout::new_on`] gives for the day that the clock reports.
    /// Only the width of the column of due dates depends on the day.
    pub fn new(tasks: &[(usize, &Task)]) -> (r: Self)
        ensures
            exists|day: Date| day.wf() && #[trigger] is_layout_on(row_tasks(tasks@), day@, r@),
            r@.show_recur == layout_of(row_tasks(tasks@), seq![]).show_recur,
            r@.show_tags == layout_of(row_tasks(tasks@), seq![]).show_tags,
            r@.show_due == layout_of(row_tasks(tasks@), seq![]).show_due,
            r@.task == layout_of(row_tasks(tasks@), seq![]).task,
            r@.tags == layout_of(row_tasks(tasks@), seq![]).tags,
    {
        let now = Date::today();
        TableLayout::new_on(tasks, now)
    }

    /// The width of the whole table.
    pub fn total_width(&self) -> (r: usize)
        ensures
            r == Self::width(self@),
    {
        proof {
            use_type_invariant(self);
        }
        let mut width = self.id + self.priority + self.status + self.task + 8;
        if self.show_recur {
            width += self.recur + 2;
        }
        if self.show_tags {
            width += self.tags + 2;
        }
        if self.show_due {
            width += self.due + 2;
        }
        width
    }

    /// The width of the text column.
    pub fn task_width(&self) -> (r: usize)
        ensures
            r == self@.task,
            MIN_TASK_WIDTH <= r <= MAX_TASK_WIDTH,
    {
        proof {
            use_type_invariant(self);
        }
        self.task
    }

    /// The width of the tags column.
    pub fn tags_width(&self) -> (r: usize)
        ensures
            r == self@.tags,
            MIN_TAGS_WIDTH <= r <= MAX_TAGS_WIDTH,
    {
        proof {
            use_type_invariant(self);
        }
        self.tags
    }

    /// The width of the due-date column.
    pub fn due_width(&self) -> (r: usize)
        ensures
            r == self@.due,
            MIN_DUE_WIDTH <= r <= MAX_DUE_WIDTH,
    {
        proof {
            use_type_invariant(self);
        }
        self.due
    }

    /// Whether the table has a column for recurrence.
    pub fn shows_recur(&self) -> (r: bool)
        ensures
            r == self@.show_recur,
    {
        self.show_recur
    }

    /// Whether the table has a column for tags.
    pub fn shows_tags(&self) -> (r: bool)
        ensures
            r == self@.show_tags,
    {
        self.show_tags
    }

    /// Whether the table has a column for due dates.
    pub fn shows_due(&self) -> (r: bool)
        ensures
            r == self@.show_due,
    {
        self.show_due
    }
}

} // verus!
