//! The message of the commit that records a change of the task list.
//!
//! The message tells how the list differs from the one committed last:
//! how many tasks were added, removed, completed and reopened. Tasks are
//! matched by their identifiers.

use vstd::prelude::*;
use crate::models::task::{find_position, has_task, resolves_at, task_views, Task, TaskView};
use crate::text::{decimal, join, joined, number_text, text_views};

verus! {

/// How a task list differs from an earlier one.
#[derive(Clone, Copy, Debug, PartialEq, Eq, Structural)]
pub struct Summary {
    /// Tasks of the list that the earlier one did not have.
    pub added: usize,
    /// Tasks of the earlier list that the list no longer has.
    pub removed: usize,
    /// Tasks that are completed and were pending.
    pub completed: usize,
    /// Tasks that are pending and were completed.
    pub reopened: usize,
}

/// The task `t` is not in `other`.
pub open spec fn is_absent(t: TaskView, other: Seq<TaskView>) -> bool {
    !has_task(other, t.uuid)
}

/// The task `t` is in `other` too, and there its completion is the
/// opposite: `t` is completed, if `now_completed`, and was pending, or the
/// other way round.
pub open spec fn has_turned(t: TaskView, other: Seq<TaskView>, now_completed: bool) -> bool {
    &&& t.completed == now_completed
    &&& exists|i: int| #[trigger] resolves_at(other, t.uuid, i) && other[i].completed != now_completed
}

/// How `current` differs from `previous`.
pub open spec fn summary_of(current: Seq<TaskView>, previous: Seq<TaskView>) -> (nat, nat, nat, nat) {
    (
        current.filter(|t: TaskView| is_absent(t, previous)).len(),
        previous.filter(|t: TaskView| is_absent(t, current)).len(),
        current.filter(|t: TaskView| has_turned(t, previous, true)).len(),
        current.filter(|t: TaskView| has_turned(t, previous, false)).len(),
    )
}

/// Counts the tasks of `list` that are not in `other`.
fn count_absent(list: &[Task], other: &[Task]) -> (r: usize)
    ensures
        r == task_views(list@).filter(|t: TaskView| is_absent(t, task_views(other@))).len(),
{
    let ghost views = task_views(list@);
    let ghost others = task_views(other@);
    let ghost pred = |t: TaskView| is_absent(t, task_views(other@));
    let mut count: usize = 0;
    let mut i: usize = 0;
    proof {
        reveal(Seq::filter);
        assert(views.subrange(0, 0) =~= Seq::<TaskView>::empty());
    }
    while i < list.len()
        invariant
            i <= list.len(),
            views == task_views(list@),
            others == task_views(other@),
            pred == |t: TaskView| is_absent(t, task_views(other@)),
            count == views.subrange(0, i as int).filter(pred).len(),
            count <= i,
        decreases list.len() - i,
    {
        let found = find_position(other, list[i].uuid);
        proof {
            reveal(Seq::filter);
            let next = views.subrange(0, i + 1);
            assert(next.drop_last() =~= views.subrange(0, i as int));
            assert(next.last() == list@[i as int]@);
            if let Some(j) = found {
                assert(others[j as int].uuid == list@[i as int]@.uuid);
            }
            assert(pred(next.last()) == (found is None));
        }
        if found.is_none() {
            count += 1;
        }
        i += 1;
    }
    proof {
        assert(views.subrange(0, i as int) =~= views);
    }
    count
}

/// Counts the tasks of `list` whose completion is `now_completed` and was
/// the opposite in `other`.
fn count_turned(list: &[Task], other: &[Task], now_completed: bool) -> (r: usize)
    ensures
        r == task_views(list@).filter(
            |t: TaskView| has_turned(t, task_views(other@), now_completed),
        ).len(),
{
    let ghost views = task_views(list@);
    let ghost others = task_views(other@);
    let ghost pred = |t: TaskView| has_turned(t, task_views(other@), now_completed);
    let mut count: usize = 0;
    let mut i: usize = 0;
    proof {
        reveal(Seq::filter);
        assert(views.subrange(0, 0) =~= Seq::<TaskView>::empty());
    }
    while i < list.len()
        invariant
            i <= list.len(),
            views == task_views(list@),
            others == task_views(other@),
            pred == |t: TaskView| has_turned(t, task_views(other@), now_completed),
            count == views.subrange(0, i as int).filter(pred).len(),
            count <= i,
        decreases list.len() - i,
    {
        let task = &list[i];
        let found = find_position(other, task.uuid);
        let turned = task.completed == now_completed && match found {
            Some(j) => other[j].completed != now_completed,
            None => false,
        };
        proof {
            reveal(Seq::filter);
            let next = views.subrange(0, i + 1);
            assert(next.drop_last() =~= views.subrange(0, i as int));
            assert(next.last() == task@);
            let id = task@.uuid;
            assert(id == task.uuid);
            match found {
                Some(j) => {
                    assert(others[j as int] == other@[j as int]@);
                    assert(resolves_at(others, id, j as int));
                    assert forall|k: int| #[trigger] resolves_at(others, id, k) implies k == j by {}
                },
                None => {
                    assert forall|k: int| !#[trigger] resolves_at(others, id, k) by {
                        if resolves_at(others, id, k) {
                            assert(others[k].uuid == id);
                        }
                    }
                },
            }
            assert(has_turned(task@, others, now_completed) == turned);
            assert(pred(next.last()) == turned);
        }
        if turned {
            count += 1;
        }
        i += 1;
    }
    proof {
        assert(views.subrange(0, i as int) =~= views);
    }
    count
}

/// Tells how `current` differs from `previous`.
pub fn summarize(current: &[Task], previous: &[Task]) -> (r: Summary)
    ensures
        (r.added as nat, r.removed as nat, r.completed as nat, r.reopened as nat) == summary_of(
            task_views(current@),
            task_views(previous@),
        ),
{
    Summary {
        added: count_absent(current, previous),
        removed: count_absent(previous, current),
        completed: count_turned(current, previous, true),
        reopened: count_turned(current, previous, false),
    }
}

/// A count with a word before and after it, or nothing where the count is
/// zero.
pub open spec fn part(before: Seq<char>, count: nat, after: Seq<char>) -> Seq<Seq<char>> {
    if count > 0 {
        seq![before + decimal(count) + after]
    } else {
        Seq::empty()
    }
}

/// The message for a list that differs from the one committed last as the
/// four counts say: each count that is not zero with its word, separated
/// by commas, or a note that only other fields changed.
pub open spec fn change_message(added: nat, removed: nat, completed: nat, reopened: nat) -> Seq<char> {
    let parts = part("+"@, added, " added"@) + part("-"@, removed, " removed"@) + part(
        ""@,
        completed,
        " completed"@,
    ) + part(""@, reopened, " reopened"@);
    if parts.len() == 0 {
        "sync: metadata updated"@
    } else {
        "sync: "@ + joined(parts, ", "@)
    }
}

/// The message for a list of `total` tasks, `done` of them completed, where
/// there is no earlier list to compare with.
pub open spec fn count_message(total: nat, done: nat) -> Seq<char> {
    "sync: "@ + decimal(total) + " tasks ("@ + decimal((total - done) as nat) + " pending, "@
        + decimal(done) + " done)"@
}

/// Adds the count with its words to `parts`, unless it is zero.
fn push_part(parts: &mut Vec<String>, before: &str, count: usize, after: &str)
    ensures
        text_views(final(parts)@) == text_views(old(parts)@) + part(
            before@,
            count as nat,
            after@,
        ),
{
    let ghost start = text_views(parts@);
    if count > 0 {
        let mut text = before.to_owned();
        text.append(number_text(count as u64).as_str());
        text.append(after);
        parts.push(text);
        assert(text_views(parts@) =~= start + part(before@, count as nat, after@));
    } else {
        assert(text_views(parts@) =~= start + part(before@, count as nat, after@));
    }
}

/// The message for a list that differs from the one committed last as
/// `summary` says.
pub fn describe_changes(summary: Summary) -> (r: String)
    ensures
        r@ == change_message(
            summary.added as nat,
            summary.removed as nat,
            summary.completed as nat,
            summary.reopened as nat,
        ),
{
    let mut parts: Vec<String> = Vec::new();
    assert(text_views(parts@) =~= Seq::<Seq<char>>::empty());
    push_part(&mut parts, "+", summary.added, " added");
    push_part(&mut parts, "-", summary.removed, " removed");
    push_part(&mut parts, "", summary.completed, " completed");
    push_part(&mut parts, "", summary.reopened, " reopened");
    assert(parts@.len() == text_views(parts@).len());
    if parts.len() == 0 {
        "sync: metadata updated".to_owned()
    } else {
        let mut out = "sync: ".to_owned();
        out.append(join(parts.as_slice(), ", ").as_str());
        out
    }
}

/// The number of completed tasks of the list.
pub fn count_completed(tasks: &[Task]) -> (r: usize)
    ensures
        r == task_views(tasks@).filter(|t: TaskView| t.completed).len(),
        r <= tasks@.len(),
{
    let ghost views = task_views(tasks@);
    let ghost pred = |t: TaskView| t.completed;
    let mut count: usize = 0;
    let mut i: usize = 0;
    proof {
        reveal(Seq::filter);
        assert(views.subrange(0, 0) =~= Seq::<TaskView>::empty());
    }
    while i < tasks.len()
        invariant
            i <= tasks.len(),
            views == task_views(tasks@),
            pred == |t: TaskView| t.completed,
            count == views.subrange(0, i as int).filter(pred).len(),
            count <= i,
        decreases tasks.len() - i,
    {
        proof {
            reveal(Seq::filter);
            let next = views.subrange(0, i + 1);
            assert(next.drop_last() =~= views.subrange(0, i as int));
            assert(next.last() == tasks@[i as int]@);
        }
        if tasks[i].completed {
            count += 1;
        }
        i += 1;
    }
    proof {
        assert(views.subrange(0, i as int) =~= views);
    }
    count
}

/// The message of the commit that records `current`, given the list that
/// was committed last, if there is one and it could be read.
pub fn build_commit_message(current: &[Task], previous: Option<&[Task]>) -> (r: String)
    ensures
        r@ == (match previous {
            Some(earlier) => {
                let counts = summary_of(task_views(current@), task_views(earlier@));
                change_message(counts.0, counts.1, counts.2, counts.3)
            },
            None => count_message(
                current@.len(),
                task_views(current@).filter(|t: TaskView| t.completed).len(),
            ),
        }),
{
    match previous {
        Some(earlier) => describe_changes(summarize(current, earlier)),
        None => {
            let total = current.len();
            let done = count_completed(current);
            let mut out = "sync: ".to_owned();
            out.append(number_text(total as u64).as_str());
            out.append(" tasks (");
            out.append(number_text((total - done) as u64).as_str());
            out.append(" pending, ");
            out.append(number_text(done as u64).as_str());
            out.append(" done)");
            assert(out@ =~= count_message(total as nat, done as nat));
            out
        },
    }
}

} // verus!
