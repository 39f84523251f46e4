//! Selecting tasks from the list and putting them in order.
//!
//! A selection names tasks by their numbers in the list. It starts as the
//! numbers of all tasks, is narrowed by one criterion after another, and
//! may at the end be sorted.

use vstd::prelude::*;
use vstd::seq_lib::{to_multiset_build, to_multiset_contains, to_multiset_len, to_multiset_remove};
use crate::date::{Date, Ymd};
use crate::models::filters::{DueFilter, RecurrenceFilter, SortBy, StatusFilter};
use crate::models::priority::Priority;
use crate::models::recurrence::Recurrence;
use crate::models::task::{task_views, Task, TaskView};
use crate::text::{
    contains_text, eq_ignoring_case, is_substring, lowercase, text_contains,
};

verus! {

/// One condition that a task of a selection must meet.
#[derive(Clone, Debug, PartialEq, Eq)]
pub enum Criterion {
    /// The task passes the status filter.
    Status(StatusFilter),
    /// The task has the priority.
    Priority(Priority),
    /// The task passes the due-date filter on the day `today`.
    Due { filter: DueFilter, today: Date },
    /// The task bears the tag, letter for letter.
    Tag(String),
    /// The task belongs to the project, whatever the case of the letters.
    Project(String),
    /// The task passes the recurrence filter.
    Recurrence(RecurrenceFilter),
    /// The text of the task holds the words, whatever the case of the
    /// letters.
    Text(String),
}

/// Whether the task passes the recurrence filter.
pub open spec fn passes_recurrence(t: TaskView, filter: RecurrenceFilter) -> bool {
    match filter {
        RecurrenceFilter::Daily => t.recurrence == Some(Recurrence::Daily),
        RecurrenceFilter::Weekly => t.recurrence == Some(Recurrence::Weekly),
        RecurrenceFilter::Monthly => t.recurrence == Some(Recurrence::Monthly),
        RecurrenceFilter::Recurring => t.recurrence is Some,
        RecurrenceFilter::NonRecurring => t.recurrence is None,
    }
}

/// Whether the task meets the criterion.
pub open spec fn meets(t: TaskView, c: Criterion) -> bool {
    match c {
        Criterion::Status(status) => t.passes_status(status),
        Criterion::Priority(priority) => t.priority == priority,
        Criterion::Due { filter, today } => t.passes_due_filter(filter, today@),
        Criterion::Tag(tag) => t.tags.contains(tag@),
        Criterion::Project(project) => t.in_project(project@),
        Criterion::Recurrence(filter) => passes_recurrence(t, filter),
        Criterion::Text(words) => is_substring(lowercase(words@), lowercase(t.text)),
    }
}

/// The numbers of `numbers` whose tasks meet the criterion, in order.
pub open spec fn narrowed(tasks: Seq<TaskView>, numbers: Seq<usize>, c: Criterion) -> Seq<usize> {
    numbers.filter(|n: usize| meets(tasks[n - 1], c))
}

/// Every number of `numbers` names a task of a list of `len` tasks.
pub open spec fn numbers_in_list(numbers: Seq<usize>, len: nat) -> bool {
    forall|k: int| 0 <= k < numbers.len() ==> 1 <= #[trigger] numbers[k] <= len
}

/// The numbers of all tasks of a list of `len` tasks, in order.
pub open spec fn all_numbers(len: nat) -> Seq<usize> {
    Seq::new(len, |i: int| (i + 1) as usize)
}

/// Whether the task passes the recurrence filter.
pub fn matches_recurrence(task: &Task, filter: RecurrenceFilter) -> (r: bool)
    ensures
        r == passes_recurrence(task@, filter),
{
    match (filter, task.recurrence) {
        (RecurrenceFilter::Daily, Some(Recurrence::Daily)) => true,
        (RecurrenceFilter::Weekly, Some(Recurrence::Weekly)) => true,
        (RecurrenceFilter::Monthly, Some(Recurrence::Monthly)) => true,
        (RecurrenceFilter::Recurring, Some(_)) => true,
        (RecurrenceFilter::NonRecurring, None) => true,
        _ => false,
    }
}

/// Whether the task meets the criterion.
pub fn task_meets(task: &Task, c: &Criterion) -> (r: bool)
    ensures
        r == meets(task@, *c),
{
    match c {
        Criterion::Status(status) => task.matches_status(*status),
        Criterion::Priority(priority) => task.priority == *priority,
        Criterion::Due { filter, today } => task.matches_due_filter_on(*filter, *today),
        Criterion::Tag(tag) => contains_text(task.tags.as_slice(), tag.as_str()),
        Criterion::Project(project) => match &task.project {
            Some(p) => eq_ignoring_case(p.as_str(), project.as_str()),
            None => false,
        },
        Criterion::Recurrence(filter) => matches_recurrence(task, *filter),
        Criterion::Text(words) => {
            let text = task.text.as_str().to_lowercase();
            let wanted = words.as_str().to_lowercase();
            text_contains(text.as_str(), wanted.as_str())
        },
    }
}

/// The numbers of all tasks of the list, in order.
pub fn number_all(tasks: &[Task]) -> (r: Vec<usize>)
    ensures
        r@ == all_numbers(tasks@.len()),
        numbers_in_list(r@, tasks@.len()),
{
    let len = tasks.len();
    let mut out: Vec<usize> = Vec::new();
    let mut i: usize = 0;
    while i < len
        invariant
            i <= len,
            len == tasks@.len(),
            out@.len() == i,
            forall|k: int| 0 <= k < i ==> #[trigger] out@[k] == k + 1,
        decreases len - i,
    {
        out.push(i + 1);
        i += 1;
    }
    assert(out@ =~= all_numbers(tasks@.len()));
    out
}

/// Narrows a selection to the tasks that meet the criterion.
pub fn keep(tasks: &[Task], numbers: &Vec<usize>, c: &Criterion) -> (r: Vec<usize>)
    requires
        numbers_in_list(numbers@, tasks@.len()),
    ensures
        r@ == narrowed(task_views(tasks@), numbers@, *c),
        numbers_in_list(r@, tasks@.len()),
{
    let ghost views = task_views(tasks@);
    let ghost pred = |n: usize| meets(task_views(tasks@)[n - 1], *c);
    let mut out: Vec<usize> = Vec::new();
    let mut k: usize = 0;
    proof {
        reveal(Seq::filter);
        assert(numbers@.subrange(0, 0) =~= Seq::<usize>::empty());
    }
    while k < numbers.len()
        invariant
            k <= numbers.len(),
            views == task_views(tasks@),
            numbers_in_list(numbers@, tasks@.len()),
            pred == |n: usize| meets(task_views(tasks@)[n - 1], *c),
            out@ == numbers@.subrange(0, k as int).filter(pred),
            numbers_in_list(out@, tasks@.len()),
        decreases numbers.len() - k,
    {
        let n = numbers[k];
        assert(1 <= n <= tasks@.len());
        assert(views[n - 1] == tasks@[n - 1]@);
        let fits = task_meets(&tasks[n - 1], c);
        proof {
            reveal(Seq::filter);
            let next = numbers@.subrange(0, k + 1);
            assert(next.drop_last() =~= numbers@.subrange(0, k as int));
            assert(next.last() == n);
            assert(pred(n) == fits);
        }
        if fits {
            out.push(n);
        }
        k += 1;
    }
    proof {
        assert(numbers@.subrange(0, k as int) =~= numbers@);
    }
    out
}

/// The day as one number that grows with the date.
pub open spec fn ymd_key(d: Ymd) -> int {
    d.year * 10000 + d.month * 100 + d.day
}

/// Among days of the calendar, an earlier day has a smaller key.
pub proof fn lemma_ymd_key_orders(a: Ymd, b: Ymd)
    requires
        a.valid(),
        b.valid(),
    ensures
        a.before(b) <==> ymd_key(a) < ymd_key(b),
        a == b <==> ymd_key(a) == ymd_key(b),
{
}

/// The number by which a task is sorted: the rank of its priority, or its
/// due date, a task without one coming last, or the day it was created.
pub open spec fn sort_key(t: TaskView, by: SortBy) -> int {
    match by {
        SortBy::Priority => t.priority.rank(),
        SortBy::Due => match t.due_date {
            Some(due) => ymd_key(due),
            None => i64::MAX as int,
        },
        SortBy::Created => ymd_key(t.created_at),
    }
}

/// The pair `a` comes no later than the pair `b`: it has the smaller first
/// part, or the same first part and no greater a second part.
pub open spec fn pair_le(a: (i64, usize), b: (i64, usize)) -> bool {
    a.0 < b.0 || (a.0 == b.0 && a.1 <= b.1)
}

/// The pairs are in order.
pub open spec fn pairs_sorted(pairs: Seq<(i64, usize)>) -> bool {
    forall|i: int, j: int| 0 <= i < j < pairs.len() ==> pair_le(#[trigger] pairs[i], #[trigger] pairs[j])
}

/// Calls `slice::sort` on pairs of integers. Trusted: the slice holds
/// afterwards what it held, in ascending order, where pairs are ordered by
/// their first parts and, where these are equal, by their second parts.
#[verifier::external_body]
fn sort_pairs(pairs: &mut Vec<(i64, usize)>)
    ensures
        final(pairs)@.to_multiset() == old(pairs)@.to_multiset(),
        pairs_sorted(final(pairs)@),
{
    pairs.sort();
}

/// The key of a date.
fn date_key(d: Date) -> (r: i64)
    ensures
        r == ymd_key(d@),
{
    proof {
        use_type_invariant(d);
    }
    let year: i64 = d.year() as i64;
    let month: i64 = d.month() as i64;
    let day: i64 = d.day() as i64;
    year * 10000 + month * 100 + day
}

/// The key by which a task is sorted.
pub fn task_sort_key(task: &Task, by: SortBy) -> (r: i64)
    ensures
        r == sort_key(task@, by),
{
    match by {
        SortBy::Priority => task.priority.order() as i64,
        SortBy::Due => match task.due_date {
            Some(due) => date_key(due),
            None => i64::MAX,
        },
        SortBy::Created => date_key(task.created_at),
    }
}

/// The selection `sorted` holds the numbers of `numbers`, ordered by the
/// sort keys of their tasks and, among tasks with the same key, by number.
pub open spec fn is_sorted_selection(
    tasks: Seq<TaskView>,
    numbers: Seq<usize>,
    by: SortBy,
    sorted: Seq<usize>,
) -> bool {
    &&& sorted.to_multiset() == numbers.to_multiset()
    &&& forall|i: int, j: int|
        0 <= i < j < sorted.len() ==> {
            let a = sort_key(tasks[#[trigger] sorted[i] - 1], by);
            let b = sort_key(tasks[#[trigger] sorted[j] - 1], by);
            a < b || (a == b && sorted[i] <= sorted[j])
        }
}

/// The pair holds a number of the list and the sort key of its task.
spec fn is_keyed(tasks: Seq<TaskView>, by: SortBy, pair: (i64, usize)) -> bool {
    &&& 1 <= pair.1 <= tasks.len()
    &&& pair.0 == sort_key(tasks[pair.1 - 1], by)
}

/// Sorts a selection by the sort keys of its tasks. Tasks with the same key
/// stay in the order of their numbers.
pub fn sort_selection(tasks: &[Task], numbers: &Vec<usize>, by: SortBy) -> (r: Vec<usize>)
    requires
        numbers_in_list(numbers@, tasks@.len()),
    ensures
        is_sorted_selection(task_views(tasks@), numbers@, by, r@),
        numbers_in_list(r@, tasks@.len()),
{
    let ghost views = task_views(tasks@);
    let ghost second = |p: (i64, usize)| p.1;
    let mut pairs: Vec<(i64, usize)> = Vec::new();
    let mut k: usize = 0;
    while k < numbers.len()
        invariant
            k <= numbers.len(),
            views == task_views(tasks@),
            numbers_in_list(numbers@, tasks@.len()),
            pairs@.len() == k,
            forall|j: int| 0 <= j < k ==> (#[trigger] pairs@[j]).1 == numbers@[j],
            forall|j: int| 0 <= j < k ==> is_keyed(views, by, #[trigger] pairs@[j]),
        decreases numbers.len() - k,
    {
        let n = numbers[k];
        assert(1 <= n <= tasks@.len());
        assert(views[n - 1] == tasks@[n - 1]@);
        pairs.push((task_sort_key(&tasks[n - 1], by), n));
        k += 1;
    }
    let ghost unsorted = pairs@;
    sort_pairs(&mut pairs);
    proof {
        assert forall|i: int| 0 <= i < pairs@.len() implies is_keyed(views, by, #[trigger] pairs@[i]) by {
            to_multiset_contains(pairs@, pairs@[i]);
            to_multiset_contains(unsorted, pairs@[i]);
            assert(pairs@.contains(pairs@[i]));
            let j = choose|j: int| 0 <= j < unsorted.len() && unsorted[j] == pairs@[i];
            assert(is_keyed(views, by, unsorted[j]));
        }
    }
    let mut out: Vec<usize> = Vec::new();
    let mut m: usize = 0;
    while m < pairs.len()
        invariant
            m <= pairs.len(),
            out@.len() == m,
            forall|j: int| 0 <= j < m ==> #[trigger] out@[j] == pairs@[j].1,
        decreases pairs.len() - m,
    {
        out.push(pairs[m].1);
        m += 1;
    }
    proof {
        assert(out@ =~= pairs@.map_values(second));
        assert(unsorted.map_values(second) =~= numbers@);
        lemma_map_keeps_multiset(unsorted, pairs@, second);
        assert forall|k: int| 0 <= k < out@.len() implies 1 <= #[trigger] out@[k] <= tasks@.len() by {
            assert(is_keyed(views, by, pairs@[k]));
        }
        assert forall|i: int, j: int| 0 <= i < j < out@.len() implies {
            let a = sort_key(views[#[trigger] out@[i] - 1], by);
            let b = sort_key(views[#[trigger] out@[j] - 1], by);
            a < b || (a == b && out@[i] <= out@[j])
        } by {
            assert(pair_le(pairs@[i], pairs@[j]));
            assert(is_keyed(views, by, pairs@[i]));
            assert(is_keyed(views, by, pairs@[j]));
        }
    }
    out
}

/// Sequences with the same elements have the same elements after a map.
proof fn lemma_map_keeps_multiset<A, B>(a: Seq<A>, b: Seq<A>, f: spec_fn(A) -> B)
    requires
        a.to_multiset() == b.to_multiset(),
    ensures
        a.map_values(f).to_multiset() == b.map_values(f).to_multiset(),
    decreases a.len(),
{
    broadcast use vstd::multiset::group_multiset_axioms;

    to_multiset_len(a);
    to_multiset_len(b);
    if a.len() == 0 {
        assert(a.map_values(f) =~= b.map_values(f));
    } else {
        let x = a.last();
        let a1 = a.drop_last();
        to_multiset_contains(a, x);
        to_multiset_contains(b, x);
        assert(a[a.len() - 1] == x);
        assert(a.contains(x));
        let i = choose|i: int| 0 <= i < b.len() && b[i] == x;
        let b1 = b.remove(i);
        assert(a =~= a1.push(x));
        to_multiset_build(a1, x);
        to_multiset_remove(b, i);
        assert(a1.to_multiset() =~= b1.to_multiset());
        lemma_map_keeps_multiset(a1, b1, f);
        let fa = a.map_values(f);
        let fb = b.map_values(f);
        assert(fa =~= a1.map_values(f).push(f(x)));
        to_multiset_build(a1.map_values(f), f(x));
        assert(fb.remove(i) =~= b1.map_values(f));
        to_multiset_remove(fb, i);
        to_multiset_contains(fb, f(x));
        assert(fb[i] == f(x));
        assert(fb.contains(f(x)));
        assert(fb.to_multiset() =~= b1.map_values(f).to_multiset().insert(f(x)));
    }
}

} // verus!
