//! Figures on the task list: how many tasks there are of each kind, and
//! how many were completed on each of the last days.

use vstd::prelude::*;
use crate::date::{lemma_day_between_in_range, today, Date, Ymd};
use crate::error::TodoError;
use crate::models::priority::Priority;
use crate::models::task::{task_views, Task, TaskView};
use crate::storage::Storage;

verus! {

/// The number of days that the activity covers, today included.
pub const ACTIVITY_DAYS: usize = 7;

/// The share of `part` in `total`, in whole percent, rounded down. The
/// share in nothing is zero.
pub open spec fn percent_of(part: nat, total: nat) -> nat {
    if total == 0 {
        0
    } else {
        (part * 100) / total
    }
}

/// The share of `part` in `total`, in whole percent, rounded down.
pub fn percent(part: usize, total: usize) -> (r: usize)
    requires
        part <= total,
    ensures
        r == percent_of(part as nat, total as nat),
        r <= 100,
{
    if total == 0 {
        0
    } else {
        let wide: u128 = (part as u128) * 100 / (total as u128);
        assert(wide == (part as int * 100) / (total as int));
        assert((part as int * 100) / (total as int) <= 100) by (nonlinear_arith)
            requires
                0 <= part as int <= total as int,
                total as int > 0,
        ;
        wide as usize
    }
}

/// The colour in which a share of completed tasks is shown: green where
/// all are completed, yellow from half on, else red.
pub fn completion_color(pct: usize) -> (r: &'static str)
    ensures
        r@ == (if pct == 100 {
            "green"@
        } else if pct >= 50 {
            "yellow"@
        } else {
            "red"@
        }),
{
    if pct == 100 {
        "green"
    } else if pct >= 50 {
        "yellow"
    } else {
        "red"
    }
}

/// What is counted of a task list.
#[derive(Clone, Copy, Debug, PartialEq, Eq, Structural)]
pub enum Kind {
    /// Every task.
    All,
    /// The completed tasks.
    Completed,
    /// The pending tasks whose due date lies before the day.
    Overdue,
    /// The pending tasks due on the day or within the seven days after it.
    DueSoon,
    /// The pending tasks with a pending prerequisite.
    Blocked,
    /// The tasks of a priority.
    OfPriority(Priority),
    /// The completed tasks of a priority.
    CompletedOfPriority(Priority),
    /// The tasks without a project.
    WithoutProject,
}

/// Whether the task `t` of the list `tasks` is of the kind, on the day
/// `today`.
pub open spec fn is_of_kind(t: TaskView, tasks: Seq<TaskView>, kind: Kind, today: Ymd) -> bool {
    match kind {
        Kind::All => true,
        Kind::Completed => t.completed,
        Kind::Overdue => t.overdue_on(today),
        Kind::DueSoon => t.due_within(7, today),
        Kind::Blocked => !t.completed && t.blocked_in(tasks),
        Kind::OfPriority(p) => t.priority == p,
        Kind::CompletedOfPriority(p) => t.priority == p && t.completed,
        Kind::WithoutProject => t.project is None,
    }
}

/// The number of tasks of the kind.
pub open spec fn number_of_kind(tasks: Seq<TaskView>, kind: Kind, today: Ymd) -> nat {
    tasks.filter(|t: TaskView| is_of_kind(t, tasks, kind, today)).len()
}

/// Counts the tasks of the kind on the day `today`.
pub fn count_kind(tasks: &[Task], kind: Kind, today: Date) -> (r: usize)
    ensures
        r == number_of_kind(task_views(tasks@), kind, today@),
        r <= tasks@.len(),
{
    let ghost views = task_views(tasks@);
    let ghost pred = |t: TaskView| is_of_kind(t, task_views(tasks@), kind, today@);
    let mut count: usize = 0;
    let mut i: usize = 0;
    proof {
        reveal(Seq::filter);
        assert(views.subrange(0, 0) =~= Seq::<TaskView>::empty());
    }
    while i < tasks.len()
        invariant
            i <= tasks.len(),
            views == task_views(tasks@),
            pred == |t: TaskView| is_of_kind(t, task_views(tasks@), kind, today@),
            count == views.subrange(0, i as int).filter(pred).len(),
            count <= i,
        decreases tasks.len() - i,
    {
        let task = &tasks[i];
        let counts = match kind {
            Kind::All => true,
            Kind::Completed => task.completed,
            Kind::Overdue => task.is_overdue_on(today),
            Kind::DueSoon => task.is_due_soon_on(7, today),
            Kind::Blocked => !task.completed && task.is_blocked(tasks),
            Kind::OfPriority(p) => task.priority == p,
            Kind::CompletedOfPriority(p) => task.priority == p && task.completed,
            Kind::WithoutProject => task.project.is_none(),
        };
        proof {
            reveal(Seq::filter);
            let next = views.subrange(0, i + 1);
            assert(next.drop_last() =~= views.subrange(0, i as int));
            assert(next.last() == task@);
            assert(pred(next.last()) == counts);
        }
        if counts {
            count += 1;
        }
        i += 1;
    }
    proof {
        assert(views.subrange(0, i as int) =~= views);
    }
    count
}

/// The figures on a task list as a whole.
#[derive(Clone, Copy, Debug, PartialEq, Eq, Structural)]
pub struct Overview {
    /// The number of tasks.
    pub total: usize,
    /// The number of completed tasks.
    pub completed: usize,
    /// The number of pending tasks.
    pub pending: usize,
    /// The number of pending tasks that are overdue.
    pub overdue: usize,
    /// The number of pending tasks due within seven days.
    pub due_soon: usize,
    /// The number of pending tasks that a prerequisite blocks.
    pub blocked: usize,
    /// The share of completed tasks, in percent.
    pub percent: usize,
}

/// The figures on the list as a whole, on the day `today`.
pub fn overview(tasks: &[Task], today: Date) -> (r: Overview)
    ensures
        r.total == tasks@.len(),
        r.completed == number_of_kind(task_views(tasks@), Kind::Completed, today@),
        r.pending == r.total - r.completed,
        r.overdue == number_of_kind(task_views(tasks@), Kind::Overdue, today@),
        r.due_soon == number_of_kind(task_views(tasks@), Kind::DueSoon, today@),
        r.blocked == number_of_kind(task_views(tasks@), Kind::Blocked, today@),
        r.percent == percent_of(r.completed as nat, r.total as nat),
{
    let total = tasks.len();
    let completed = count_kind(tasks, Kind::Completed, today);
    Overview {
        total,
        completed,
        pending: total - completed,
        overdue: count_kind(tasks, Kind::Overdue, today),
        due_soon: count_kind(tasks, Kind::DueSoon, today),
        blocked: count_kind(tasks, Kind::Blocked, today),
        percent: percent(completed, total),
    }
}

/// The figures on the tasks of one priority.
#[derive(Clone, Copy, Debug, PartialEq, Eq, Structural)]
pub struct PriorityCount {
    /// The priority.
    pub priority: Priority,
    /// The number of its tasks.
    pub total: usize,
    /// The number of its tasks that are pending.
    pub pending: usize,
    /// The number of its tasks that are completed.
    pub done: usize,
}

/// The figures on the tasks of the priority `priority`.
pub fn count_priority(tasks: &[Task], priority: Priority, today: Date) -> (r: PriorityCount)
    ensures
        r.priority == priority,
        r.total == number_of_kind(task_views(tasks@), Kind::OfPriority(priority), today@),
        r.done == number_of_kind(task_views(tasks@), Kind::CompletedOfPriority(priority), today@),
        r.pending == r.total - r.done,
{
    let total = count_kind(tasks, Kind::OfPriority(priority), today);
    let done = count_kind(tasks, Kind::CompletedOfPriority(priority), today);
    proof {
        lemma_fewer_completed(task_views(tasks@), priority, today@);
    }
    PriorityCount { priority, total, pending: total - done, done }
}

/// No more tasks of a priority are completed than there are of it.
proof fn lemma_fewer_completed(tasks: Seq<TaskView>, priority: Priority, today: Ymd)
    ensures
        number_of_kind(tasks, Kind::CompletedOfPriority(priority), today) <= number_of_kind(
            tasks,
            Kind::OfPriority(priority),
            today,
        ),
{
    let all = |t: TaskView| is_of_kind(t, tasks, Kind::OfPriority(priority), today);
    let done = |t: TaskView| is_of_kind(t, tasks, Kind::CompletedOfPriority(priority), today);
    lemma_filter_narrower(tasks, done, all);
}

/// A stronger condition keeps no more of a sequence.
proof fn lemma_filter_narrower<A>(s: Seq<A>, narrow: spec_fn(A) -> bool, wide: spec_fn(A) -> bool)
    requires
        forall|x: A| #[trigger] narrow(x) ==> wide(x),
    ensures
        s.filter(narrow).len() <= s.filter(wide).len(),
    decreases s.len(),
{
    reveal(Seq::filter);
    if s.len() > 0 {
        lemma_filter_narrower(s.drop_last(), narrow, wide);
    }
}

/// The number of tasks that were completed on the day `day`.
pub open spec fn completed_on(tasks: Seq<TaskView>, day: Ymd) -> nat {
    tasks.filter(|t: TaskView| t.completed_at == Some(day)).len()
}

/// Counts the tasks that were completed on the day `day`.
pub fn count_completed_on(tasks: &[Task], day: Date) -> (r: usize)
    ensures
        r == completed_on(task_views(tasks@), day@),
{
    let ghost views = task_views(tasks@);
    let ghost pred = |t: TaskView| t.completed_at == Some(day@);
    let mut count: usize = 0;
    let mut i: usize = 0;
    proof {
        reveal(Seq::filter);
        assert(views.subrange(0, 0) =~= Seq::<TaskView>::empty());
    }
    while i < tasks.len()
        invariant
            i <= tasks.len(),
            views == task_views(tasks@),
            pred == |t: TaskView| t.completed_at == Some(day@),
            count == views.subrange(0, i as int).filter(pred).len(),
            count <= i,
        decreases tasks.len() - i,
    {
        let task = &tasks[i];
        let counts = match task.completed_at {
            Some(at) => at.is_same(&day),
            None => false,
        };
        proof {
            reveal(Seq::filter);
            let next = views.subrange(0, i + 1);
            assert(next.drop_last() =~= views.subrange(0, i as int));
            assert(next.last() == task@);
            assert(pred(next.last()) == counts);
        }
        if counts {
            count += 1;
        }
        i += 1;
    }
    proof {
        assert(views.subrange(0, i as int) =~= views);
    }
    count
}

/// No day that a date can hold lies `n` days before `today`.
pub open spec fn no_day_before(today: Ymd, n: nat) -> bool {
    forall|d: Ymd| d.valid() && d.in_range() ==> #[trigger] d.plus_days(n) != today
}

/// `days` tells, of `today` and of each of the six days before it that a
/// date can hold, how many tasks were completed on it, the earliest day
/// first: the last entry is for `today`, the one before it for the day
/// before, and so on, and a day that has no entry is one that no date can
/// hold.
pub open spec fn is_activity(tasks: Seq<TaskView>, today: Ymd, days: Seq<(Date, usize)>) -> bool {
    &&& days.len() <= ACTIVITY_DAYS
    &&& forall|k: int|
        0 <= k < days.len() ==> {
            &&& (#[trigger] days[k]).0@.plus_days((days.len() - 1 - k) as nat) == today
            &&& days[k].1 == completed_on(tasks, days[k].0@)
        }
    &&& forall|n: nat| days.len() <= n < ACTIVITY_DAYS ==> #[trigger] no_day_before(today, n)
}

/// The tasks completed on each of the last seven days up to `today`, the
/// earliest day first. A day before the first that a date can hold is left
/// out; `today` itself never is.
pub fn activity(tasks: &[Task], today: Date) -> (r: Vec<(Date, usize)>)
    ensures
        is_activity(task_views(tasks@), today@, r@),
        r@.len() > 0,
{
    let mut days: Vec<(Date, usize)> = Vec::new();
    let mut back: u32 = 7;
    proof {
        use_type_invariant(today);
    }
    while back > 0
        invariant
            back <= 7,
            today.wf(),
            days@.len() + back <= 7,
            back == 0 ==> days@.len() > 0,
            forall|k: int|
                0 <= k < days@.len() ==> {
                    &&& (#[trigger] days@[k]).0@.plus_days((days@.len() + back - 1 - k) as nat)
                        == today@
                    &&& days@[k].1 == completed_on(task_views(tasks@), days@[k].0@)
                    &&& days@[k].0.wf()
                },
            forall|n: nat| days@.len() + back <= n < 7 ==> #[trigger] no_day_before(today@, n),
        decreases back,
    {
        let ghost before = days@;
        back -= 1;
        match today.checked_minus_days(back) {
            Some(day) => {
                let count = count_completed_on(tasks, day);
                proof {
                    use_type_invariant(day);
                }
                days.push((day, count));
                proof {
                    assert forall|k: int| 0 <= k < days@.len() implies {
                        &&& (#[trigger] days@[k]).0@.plus_days((days@.len() + back - 1 - k) as nat)
                            == today@
                        &&& days@[k].1 == completed_on(task_views(tasks@), days@[k].0@)
                        &&& days@[k].0.wf()
                    } by {
                        if k < before.len() {
                            assert(days@[k] == before[k]);
                        }
                    }
                }
            },
            None => {
                proof {
                    assert(no_day_before(today@, back as nat));
                    if back == 0 {
                        // Today is zero days before itself.
                        assert(today@.plus_days(0) == today@);
                    }
                    if before.len() > 0 {
                        // The day after the latest entry lies `back` days before today.
                        let last = before[before.len() - 1].0@;
                        assert(last.plus_days((back + 1) as nat) == today@);
                        lemma_day_between_in_range(last, 1, back as nat);
                        let next = last.plus_days(1);
                        assert(next.plus_days(back as nat) == today@);
                    }
                }
            },
        }
    }
    days
}

/// The figures on a task list.
#[derive(Clone, Debug, PartialEq, Eq)]
pub struct Stats {
    /// The figures on the list as a whole.
    pub overview: Overview,
    /// The figures on the tasks of high, medium and low priority.
    pub by_priority: Vec<PriorityCount>,
    /// The number of tasks without a project.
    pub without_project: usize,
    /// The tasks completed on each of the last seven days.
    pub activity: Vec<(Date, usize)>,
}

/// `stats` holds the figures on the list `tasks` on the day `today`.
pub open spec fn figures_of(tasks: Seq<TaskView>, today: Ymd, stats: Stats) -> bool {
    let o = stats.overview;
    &&& o.total == tasks.len()
    &&& o.completed == number_of_kind(tasks, Kind::Completed, today)
    &&& o.pending == o.total - o.completed
    &&& o.overdue == number_of_kind(tasks, Kind::Overdue, today)
    &&& o.due_soon == number_of_kind(tasks, Kind::DueSoon, today)
    &&& o.blocked == number_of_kind(tasks, Kind::Blocked, today)
    &&& o.percent == percent_of(o.completed as nat, o.total as nat)
    &&& stats.by_priority@.len() == 3
    &&& stats.by_priority@[0].priority == Priority::High
    &&& stats.by_priority@[1].priority == Priority::Medium
    &&& stats.by_priority@[2].priority == Priority::Low
    &&& forall|k: int|
        0 <= k < 3 ==> {
            let c = #[trigger] stats.by_priority@[k];
            &&& c.total == number_of_kind(tasks, Kind::OfPriority(c.priority), today)
            &&& c.done == number_of_kind(tasks, Kind::CompletedOfPriority(c.priority), today)
            &&& c.pending == c.total - c.done
        }
    &&& stats.without_project == number_of_kind(tasks, Kind::WithoutProject, today)
    &&& is_activity(tasks, today, stats.activity@)
}

/// The figures on the list on the day `today`.
pub fn compute(tasks: &[Task], today: Date) -> (r: Stats)
    ensures
        figures_of(task_views(tasks@), today@, r),
{
    let mut by_priority: Vec<PriorityCount> = Vec::new();
    by_priority.push(count_priority(tasks, Priority::High, today));
    by_priority.push(count_priority(tasks, Priority::Medium, today));
    by_priority.push(count_priority(tasks, Priority::Low, today));
    assert(tasks@.len() == task_views(tasks@).len());
    Stats {
        overview: overview(tasks, today),
        by_priority,
        without_project: count_kind(tasks, Kind::WithoutProject, today),
        activity: activity(tasks, today),
    }
}

/// The figures on the stored list, today.
pub fn execute<S: Storage>(storage: &S) -> (r: Result<Stats, TodoError>)
    ensures
        storage.has_model() ==> (match r {
            Ok(figures) => {
                &&& figures.overview.total == storage.stored().len()
                &&& exists|day: Ymd| #[trigger] figures_of(storage.stored(), day, figures)
            },
            Err(e) => e is Storage,
        }),
        storage.has_model() && storage.is_reliable() ==> r is Ok,
{
    let tasks = match storage.load() {
        Ok(tasks) => tasks,
        Err(e) => {
            return Err(e);
        },
    };
    let now = today();
    let stats = compute(tasks.as_slice(), now);
    proof {
        if storage.has_model() {
            assert(task_views(tasks@) == storage.stored());
            assert(figures_of(storage.stored(), now@, stats));
            assert(exists|day: Ymd| #[trigger] figures_of(storage.stored(), day, stats));
        }
    }
    Ok(stats)
}

} // verus!
