//! The task: the one entity of the tracker.

use vstd::prelude::*;
use crate::date::{lemma_days_apart_exact, today, Date, Ymd};
use crate::error::TodoError;
use crate::text::{eq_ignoring_case, opt_text_view, same_ignoring_case, text_views};
use super::filters::{DueFilter, StatusFilter};
use super::priority::Priority;
use super::recurrence::Recurrence;

verus! {

/// The mathematical value of a [`Task`]: its fields, with texts as
/// sequences of characters.
pub ghost struct TaskView {
    pub uuid: u128,
    pub text: Seq<char>,
    pub completed: bool,
    pub priority: Priority,
    pub tags: Seq<Seq<char>>,
    pub project: Option<Seq<char>>,
    pub due_date: Option<Ymd>,
    pub created_at: Ymd,
    pub recurrence: Option<Recurrence>,
    pub parent_id: Option<u128>,
    pub depends_on: Seq<u128>,
    pub completed_at: Option<Ymd>,
}

/// The view of an optional date.
pub open spec fn opt_date_view(o: Option<Date>) -> Option<Ymd> {
    match o {
        Some(d) => Some(d@),
        None => None,
    }
}

impl TaskView {
    /// A task as it is when first created: pending, with no parent, no
    /// prerequisites and no completion date.
    pub open spec fn fresh(
        uuid: u128,
        created_at: Ymd,
        text: Seq<char>,
        priority: Priority,
        tags: Seq<Seq<char>>,
        project: Option<Seq<char>>,
        due_date: Option<Ymd>,
        recurrence: Option<Recurrence>,
    ) -> TaskView {
        TaskView {
            uuid,
            text,
            completed: false,
            priority,
            tags,
            project,
            due_date,
            created_at,
            recurrence,
            parent_id: None,
            depends_on: Seq::empty(),
            completed_at: None,
        }
    }

    /// The fields of the task agree with each other: a task that repeats
    /// has a due date, and a task has a completion date exactly when it is
    /// completed.
    pub open spec fn coherent(self) -> bool {
        &&& self.recurrence is Some ==> self.due_date is Some
        &&& self.completed_at is Some <==> self.completed
    }

    /// The task as it is once completed on `date`.
    pub open spec fn done_on(self, date: Ymd) -> TaskView {
        TaskView { completed: true, completed_at: Some(date), ..self }
    }

    /// The task as it is once set back to pending.
    pub open spec fn undone(self) -> TaskView {
        TaskView { completed: false, completed_at: None, ..self }
    }

    /// The task is pending and its due date lies strictly before `today`.
    pub open spec fn overdue_on(self, today: Ymd) -> bool {
        &&& !self.completed
        &&& self.due_date matches Some(due) && due.before(today)
    }

    /// The task is pending and falls due on `today` or on one of the `days`
    /// days after it.
    pub open spec fn due_within(self, days: int, today: Ymd) -> bool {
        &&& !self.completed
        &&& self.due_date matches Some(due) && exists|n: nat|
            n <= days && #[trigger] today.plus_days(n) == due
    }

    /// The task repeats: it has both a recurrence pattern and a due date.
    pub open spec fn recurs(self) -> bool {
        self.recurrence.is_some() && self.due_date.is_some()
    }

    /// The next occurrence of a repeating task: a new pending task with the
    /// same text, priority, tags, project and recurrence, due on the next
    /// date of the pattern, spawned from `parent` and with no prerequisites.
    pub open spec fn next_occurrence(self, uuid: u128, created_at: Ymd, parent: u128) -> TaskView {
        TaskView {
            parent_id: Some(parent),
            ..TaskView::fresh(
                uuid,
                created_at,
                self.text,
                self.priority,
                self.tags,
                self.project,
                Some(self.recurrence.unwrap().next_due(self.due_date.unwrap())),
                self.recurrence,
            )
        }
    }

    /// The task belongs to `project`, whatever the case of the letters.
    pub open spec fn in_project(self, project: Seq<char>) -> bool {
        self.project matches Some(p) && same_ignoring_case(p, project)
    }

    /// Whether the task passes the status filter.
    pub open spec fn passes_status(self, status: StatusFilter) -> bool {
        match status {
            StatusFilter::Pending => !self.completed,
            StatusFilter::Done => self.completed,
            StatusFilter::All => true,
        }
    }

    /// Whether the task passes the due-date filter on the day `today`.
    pub open spec fn passes_due_filter(self, filter: DueFilter, today: Ymd) -> bool {
        match filter {
            DueFilter::Overdue => self.overdue_on(today),
            DueFilter::Soon => self.due_within(7, today),
            DueFilter::WithDue => self.due_date.is_some(),
            DueFilter::NoDue => self.due_date.is_none(),
        }
    }
}

/// A single entry of the task list.
#[derive(Clone, Debug, PartialEq, Eq)]
pub struct Task {
    /// The stable identifier of the task, set when it is created.
    pub uuid: u128,
    /// What is to be done.
    pub text: String,
    /// Whether the task has been completed.
    pub completed: bool,
    /// How urgent the task is.
    pub priority: Priority,
    /// Free-text labels.
    pub tags: Vec<String>,
    /// The project the task belongs to, if any.
    pub project: Option<String>,
    /// The day by which the task is to be done, if any.
    pub due_date: Option<Date>,
    /// The day the task was created.
    pub created_at: Date,
    /// How the task repeats, if it does.
    pub recurrence: Option<Recurrence>,
    /// The task that this one was spawned from by recurrence, if any.
    pub parent_id: Option<u128>,
    /// The identifiers of the tasks that must be completed before this one.
    pub depends_on: Vec<u128>,
    /// The day the task was completed, if it is.
    pub completed_at: Option<Date>,
}

impl View for Task {
    type V = TaskView;

    open spec fn view(&self) -> TaskView {
        TaskView {
            uuid: self.uuid,
            text: self.text@,
            completed: self.completed,
            priority: self.priority,
            tags: text_views(self.tags@),
            project: opt_text_view(self.project),
            due_date: opt_date_view(self.due_date),
            created_at: self.created_at@,
            recurrence: self.recurrence,
            parent_id: self.parent_id,
            depends_on: self.depends_on@,
            completed_at: opt_date_view(self.completed_at),
        }
    }
}

/// The fields of each task of the list agree with each other.
pub open spec fn all_coherent(tasks: Seq<TaskView>) -> bool {
    forall|i: int| 0 <= i < tasks.len() ==> (#[trigger] tasks[i]).coherent()
}

/// The views of the tasks of a list, in order.
pub open spec fn task_views(tasks: Seq<Task>) -> Seq<TaskView> {
    tasks.map_values(|t: Task| t@)
}

/// The task at index `i` is the one that the identifier `id` stands for:
/// the first of the list that bears it.
pub open spec fn resolves_at(tasks: Seq<TaskView>, id: u128, i: int) -> bool {
    &&& 0 <= i < tasks.len()
    &&& tasks[i].uuid == id
    &&& forall|j: int| 0 <= j < i ==> (#[trigger] tasks[j]).uuid != id
}

/// Some task of the list bears the identifier `id`.
pub open spec fn has_task(tasks: Seq<TaskView>, id: u128) -> bool {
    exists|i: int| 0 <= i < tasks.len() && (#[trigger] tasks[i]).uuid == id
}

/// The identifier `id` stands for a task of the list that is still pending.
/// An identifier that no task bears stands for none.
pub open spec fn is_pending_dep(tasks: Seq<TaskView>, id: u128) -> bool {
    exists|i: int| #[trigger] resolves_at(tasks, id, i) && !tasks[i].completed
}

impl TaskView {
    /// At least one prerequisite of the task is still pending in `tasks`.
    pub open spec fn blocked_in(self, tasks: Seq<TaskView>) -> bool {
        exists|k: int|
            0 <= k < self.depends_on.len() && is_pending_dep(tasks, #[trigger] self.depends_on[k])
    }

    /// The prerequisites of the task that are still pending in `tasks`, in
    /// the order in which the task lists them.
    pub open spec fn blocking_in(self, tasks: Seq<TaskView>) -> Seq<u128> {
        self.depends_on.filter(|id: u128| is_pending_dep(tasks, id))
    }
}

/// A task blocks exactly when the list of its pending prerequisites is not
/// empty.
pub proof fn lemma_blocked_iff_blocking(task: TaskView, tasks: Seq<TaskView>)
    ensures
        task.blocked_in(tasks) <==> task.blocking_in(tasks).len() > 0,
{
    let pred = |id: u128| is_pending_dep(tasks, id);
    let blocking = task.depends_on.filter(pred);
    if task.blocked_in(tasks) {
        let k = choose|k: int|
            0 <= k < task.depends_on.len() && is_pending_dep(tasks, #[trigger] task.depends_on[k]);
        task.depends_on.lemma_filter_contains(pred, k);
    }
    if blocking.len() > 0 {
        let id = blocking[0];
        assert(blocking.contains(id));
        task.depends_on.lemma_filter_pred(pred, 0);
        task.depends_on.lemma_filter_contains_rev(pred, id);
        let k = choose|k: int| 0 <= k < task.depends_on.len() && task.depends_on[k] == id;
        assert(is_pending_dep(tasks, task.depends_on[k]));
    }
}

/// `after` is the list `before` with more of its tasks completed: those
/// whose identifiers are in `done`.
pub open spec fn completes(before: Seq<TaskView>, after: Seq<TaskView>, done: Set<u128>) -> bool {
    &&& after.len() == before.len()
    &&& forall|i: int|
        0 <= i < before.len() ==> {
            &&& (#[trigger] after[i]).uuid == before[i].uuid
            &&& after[i].completed == (before[i].completed || done.contains(before[i].uuid))
        }
}

/// Filtering twice is filtering once by both conditions.
proof fn lemma_filter_twice<A>(
    s: Seq<A>,
    p: spec_fn(A) -> bool,
    q: spec_fn(A) -> bool,
    both: spec_fn(A) -> bool,
)
    requires
        forall|x: A| #[trigger] both(x) == (p(x) && q(x)),
    ensures
        s.filter(p).filter(q) == s.filter(both),
    decreases s.len(),
{
    reveal(Seq::filter);
    if s.len() > 0 {
        let rest = s.drop_last();
        lemma_filter_twice(rest, p, q, both);
        if p(s.last()) {
            let kept = rest.filter(p).push(s.last());
            assert(kept.drop_last() =~= rest.filter(p));
            assert(kept.last() == s.last());
        }
    }
}

/// Completing tasks takes exactly their identifiers out of what blocks a
/// task: the prerequisites that still block are those that blocked before
/// and are not among the completed. Where all prerequisites are among the
/// completed, nothing blocks.
pub proof fn lemma_completing_leaves_rest_blocking(
    task: TaskView,
    before: Seq<TaskView>,
    after: Seq<TaskView>,
    done: Set<u128>,
)
    requires
        completes(before, after, done),
    ensures
        task.blocking_in(after) == task.blocking_in(before).filter(|id: u128| !done.contains(id)),
        (forall|k: int| 0 <= k < task.depends_on.len() ==> done.contains(#[trigger] task.depends_on[k]))
            ==> !task.blocked_in(after),
{
    let was = |id: u128| is_pending_dep(before, id);
    let left = |id: u128| !done.contains(id);
    let is = |id: u128| is_pending_dep(after, id);
    assert forall|id: u128| #[trigger] is(id) == (was(id) && left(id)) by {
        if is_pending_dep(after, id) {
            let i = choose|i: int| #[trigger] resolves_at(after, id, i) && !after[i].completed;
            assert forall|j: int| 0 <= j < i implies (#[trigger] before[j]).uuid != id by {
                assert(after[j].uuid != id);
            }
            assert(resolves_at(before, id, i) && !before[i].completed);
        }
        if is_pending_dep(before, id) && !done.contains(id) {
            let i = choose|i: int| #[trigger] resolves_at(before, id, i) && !before[i].completed;
            assert forall|j: int| 0 <= j < i implies (#[trigger] after[j]).uuid != id by {
                assert(before[j].uuid != id);
            }
            assert(after[i].uuid == id);
            assert(resolves_at(after, id, i) && !after[i].completed);
        }
    }
    lemma_filter_twice(task.depends_on, was, left, is);
    if forall|k: int| 0 <= k < task.depends_on.len() ==> done.contains(#[trigger] task.depends_on[k]) {
        if task.blocked_in(after) {
            let k = choose|k: int|
                0 <= k < task.depends_on.len() && is_pending_dep(after, #[trigger] task.depends_on[k]);
            assert(is(task.depends_on[k]));
            assert(left(task.depends_on[k]));
        }
    }
}

/// The position of the task that `id` stands for: the first of the list
/// that bears it.
pub fn find_position(tasks: &[Task], id: u128) -> (r: Option<usize>)
    ensures
        r matches Some(i) ==> resolves_at(task_views(tasks@), id, i as int),
        r is None ==> !has_task(task_views(tasks@), id),
{
    let mut i: usize = 0;
    while i < tasks.len()
        invariant
            i <= tasks.len(),
            forall|j: int| 0 <= j < i ==> (#[trigger] task_views(tasks@)[j]).uuid != id,
        decreases tasks.len() - i,
    {
        if tasks[i].uuid == id {
            return Some(i);
        }
        i += 1;
    }
    None
}

/// Whether `id` stands for a task of the list that is still pending.
pub fn is_pending(tasks: &[Task], id: u128) -> (r: bool)
    ensures
        r == is_pending_dep(task_views(tasks@), id),
{
    let ghost views = task_views(tasks@);
    match find_position(tasks, id) {
        Some(i) => {
            proof {
                assert(resolves_at(views, id, i as int));
                assert forall|j: int| #[trigger] resolves_at(views, id, j) implies j == i by {}
            }
            !tasks[i].completed
        },
        None => {
            proof {
                assert forall|j: int| !#[trigger] resolves_at(views, id, j) by {
                    if resolves_at(views, id, j) {
                        assert(views[j].uuid == id);
                    }
                }
            }
            false
        },
    }
}

/// A copy of a list of texts.
pub fn clone_texts(v: &Vec<String>) -> (r: Vec<String>)
    ensures
        text_views(r@) == text_views(v@),
{
    let mut out: Vec<String> = Vec::new();
    let mut i: usize = 0;
    while i < v.len()
        invariant
            i <= v.len(),
            out@.len() == i,
            forall|k: int| 0 <= k < i ==> out@[k]@ == v@[k]@,
        decreases v.len() - i,
    {
        out.push(v[i].clone());
        i += 1;
    }
    assert(text_views(out@) =~= text_views(v@));
    out
}

/// A copy of an optional text.
pub fn clone_opt_text(o: &Option<String>) -> (r: Option<String>)
    ensures
        opt_text_view(r) == opt_text_view(*o),
{
    match o {
        Some(s) => Some(s.clone()),
        None => None,
    }
}

/// A copy of a list of identifiers.
pub fn clone_ids(v: &Vec<u128>) -> (r: Vec<u128>)
    ensures
        r@ == v@,
{
    let mut out: Vec<u128> = Vec::new();
    let mut i: usize = 0;
    while i < v.len()
        invariant
            i <= v.len(),
            out@ == v@.subrange(0, i as int),
        decreases v.len() - i,
    {
        out.push(v[i]);
        assert(out@ =~= v@.subrange(0, i + 1));
        i += 1;
    }
    assert(v@.subrange(0, v@.len() as int) =~= v@);
    out
}

/// Draws a random identifier from `uuid::Uuid::new_v4`. Trusted: a version 4
/// identifier has its version and variant bits set, so it is never the nil
/// identifier. Nothing else is claimed of the value.
#[verifier::external_body]
pub(crate) fn fresh_id() -> (r: u128)
    ensures
        r != 0,
{
    uuid::Uuid::new_v4().as_u128()
}

/// The identifier is in use in the list: a task bears it, names it as a
/// prerequisite, or was spawned from it.
pub open spec fn id_in_use(tasks: Seq<TaskView>, id: u128) -> bool {
    exists|i: int| 0 <= i < tasks.len() && #[trigger] names_id(tasks[i], id)
}

/// The task bears the identifier, names it as a prerequisite, or was
/// spawned from it.
pub open spec fn names_id(t: TaskView, id: u128) -> bool {
    t.uuid == id || t.depends_on.contains(id) || t.parent_id == Some(id)
}

/// The identifier can be given to a new task of the list: it is not the
/// nil identifier and not in use.
pub open spec fn id_is_free(tasks: Seq<TaskView>, id: u128) -> bool {
    id != 0 && !id_in_use(tasks, id)
}

/// Whether `ids` holds `id`.
pub fn holds_id(ids: &Vec<u128>, id: u128) -> (r: bool)
    ensures
        r == ids@.contains(id),
{
    let mut k: usize = 0;
    while k < ids.len()
        invariant
            k <= ids.len(),
            forall|j: int| 0 <= j < k ==> ids@[j] != id,
        decreases ids.len() - k,
    {
        if ids[k] == id {
            return true;
        }
        k += 1;
    }
    false
}

/// Whether the identifier can be given to a new task of the list.
pub fn is_free_id(tasks: &[Task], id: u128) -> (r: bool)
    ensures
        r == id_is_free(task_views(tasks@), id),
{
    if id == 0 {
        return false;
    }
    let ghost views = task_views(tasks@);
    let mut i: usize = 0;
    while i < tasks.len()
        invariant
            i <= tasks.len(),
            views == task_views(tasks@),
            forall|j: int| 0 <= j < i ==> !#[trigger] names_id(views[j], id),
        decreases tasks.len() - i,
    {
        let t = &tasks[i];
        assert(views[i as int] == t@);
        let spawned_from = match t.parent_id {
            Some(parent) => parent == id,
            None => false,
        };
        if t.uuid == id || spawned_from || holds_id(&t.depends_on, id) {
            assert(names_id(views[i as int], id));
            return false;
        }
        i += 1;
    }
    true
}

/// The number of identifiers that are drawn at most before giving up.
pub const MAX_DRAWS: usize = 8;

/// Draws identifiers until one can be given to a new task of the list, and
/// gives up after [`MAX_DRAWS`] that cannot.
pub fn draw_free_id(tasks: &[Task]) -> (r: Result<u128, TodoError>)
    ensures
        r matches Ok(id) ==> id_is_free(task_views(tasks@), id),
        r matches Err(e) ==> e == TodoError::IdentifierInUse,
{
    let mut draws: usize = 0;
    while draws < MAX_DRAWS
        invariant
            draws <= MAX_DRAWS,
        decreases MAX_DRAWS - draws,
    {
        let id = fresh_id();
        if is_free_id(tasks, id) {
            return Ok(id);
        }
        draws += 1;
    }
    Err(TodoError::IdentifierInUse)
}

/// An identifier that is free in a list is borne by none of its tasks and
/// is a prerequisite of none.
pub proof fn lemma_free_id(tasks: Seq<TaskView>, id: u128)
    requires
        !id_in_use(tasks, id),
    ensures
        !has_task(tasks, id),
        forall|i: int| 0 <= i < tasks.len() ==> !(#[trigger] tasks[i]).depends_on.contains(id),
{
    if has_task(tasks, id) {
        let i = choose|i: int| 0 <= i < tasks.len() && (#[trigger] tasks[i]).uuid == id;
        assert(names_id(tasks[i], id));
    }
    assert forall|i: int| 0 <= i < tasks.len() implies !(#[trigger] tasks[i]).depends_on.contains(
        id,
    ) by {
        if tasks[i].depends_on.contains(id) {
            assert(names_id(tasks[i], id));
        }
    }
}

impl Task {
    /// Creates a pending task with the given identifier and creation date.
    pub fn with_identity(
        uuid: u128,
        created_at: Date,
        text: String,
        priority: Priority,
        tags: Vec<String>,
        project: Option<String>,
        due_date: Option<Date>,
        recurrence: Option<Recurrence>,
    ) -> (r: Task)
        ensures
            r@ == TaskView::fresh(
                uuid,
                created_at@,
                text@,
                priority,
                text_views(tags@),
                opt_text_view(project),
                opt_date_view(due_date),
                recurrence,
            ),
    {
        Task {
            uuid,
            text,
            completed: false,
            priority,
            tags,
            project,
            due_date,
            created_at,
            recurrence,
            parent_id: None,
            depends_on: Vec::new(),
            completed_at: None,
        }
    }

    /// Creates a pending task with a newly drawn identifier, created today.
    pub fn new(
        text: String,
        priority: Priority,
        tags: Vec<String>,
        project: Option<String>,
        due_date: Option<Date>,
        recurrence: Option<Recurrence>,
    ) -> (r: Task)
        ensures
            r@ == TaskView::fresh(
                r.uuid,
                r.created_at@,
                text@,
                priority,
                text_views(tags@),
                opt_text_view(project),
                opt_date_view(due_date),
                recurrence,
            ),
            r.uuid != 0,
    {
        let uuid = fresh_id();
        let created_at = today();
        Task::with_identity(uuid, created_at, text, priority, tags, project, due_date, recurrence)
    }

    /// A copy of the task, equal to it in every field.
    pub fn duplicate(&self) -> (r: Task)
        ensures
            r@ == self@,
    {
        Task {
            uuid: self.uuid,
            text: self.text.clone(),
            completed: self.completed,
            priority: self.priority,
            tags: clone_texts(&self.tags),
            project: clone_opt_text(&self.project),
            due_date: self.due_date,
            created_at: self.created_at,
            recurrence: self.recurrence,
            parent_id: self.parent_id,
            depends_on: clone_ids(&self.depends_on),
            completed_at: self.completed_at,
        }
    }

    /// Marks the task as completed on `date`.
    pub fn mark_done_on(&mut self, date: Date)
        ensures
            final(self)@ == old(self)@.done_on(date@),
    {
        self.completed = true;
        self.completed_at = Some(date);
    }

    /// Marks the task as completed today.
    pub fn mark_done(&mut self)
        ensures
            final(self).completed_at matches Some(date) && final(self)@ == old(self)@.done_on(
                date@,
            ),
    {
        let date = today();
        self.mark_done_on(date);
    }

    /// Sets the task back to pending and clears its completion date.
    pub fn mark_undone(&mut self)
        ensures
            final(self)@ == old(self)@.undone(),
    {
        self.completed = false;
        self.completed_at = None;
    }

    /// Whether the task is pending and was due before `today`.
    pub fn is_overdue_on(&self, today: Date) -> (r: bool)
        ensures
            r == self@.overdue_on(today@),
    {
        match self.due_date {
            Some(due) => due.is_before(&today) && !self.completed,
            None => false,
        }
    }

    /// Whether the task is pending and was due before today: what
    /// [`Task::is_overdue_on`] tells for the day that the clock reports. A
    /// task that is completed or has no due date is overdue on no day.
    pub fn is_overdue(&self) -> (r: bool)
        ensures
            exists|day: Date| day.wf() && r == #[trigger] self@.overdue_on(day@),
            self.completed || self.due_date is None ==> !r,
    {
        let now = Date::today();
        self.is_overdue_on(now)
    }

    /// Whether the task is pending and falls due on `today` or within the
    /// `days` days after it.
    pub fn is_due_soon_on(&self, days: i64, today: Date) -> (r: bool)
        ensures
            r == self@.due_within(days as int, today@),
    {
        match self.due_date {
            Some(due) => {
                let days_until = due.days_since(today);
                proof {
                    use_type_invariant(due);
                    use_type_invariant(today);
                    if days_until >= 0 {
                        lemma_days_apart_exact(
                            today@,
                            due@,
                            days_until as int,
                            days_until as nat,
                        );
                    }
                    assert forall|n: nat| #[trigger] today@.plus_days(n) == due@ implies n
                        == days_until by {
                        lemma_days_apart_exact(today@, due@, days_until as int, n);
                    }
                }
                days_until >= 0 && days_until <= days && !self.completed
            },
            None => false,
        }
    }

    /// Whether the task is pending and falls due today or within the `days`
    /// days after today: what [`Task::is_due_soon_on`] tells for the day
    /// that the clock reports. A task that is completed or has no due date
    /// is due soon on no day, and no task is due within fewer than no days.
    pub fn is_due_soon(&self, days: i64) -> (r: bool)
        ensures
            exists|day: Date| day.wf() && r == #[trigger] self@.due_within(days as int, day@),
            self.completed || self.due_date is None || days < 0 ==> !r,
    {
        let now = Date::today();
        self.is_due_soon_on(days, now)
    }

    /// Whether the task passes the due-date filter on the day `today`.
    pub fn matches_due_filter_on(&self, filter: DueFilter, today: Date) -> (r: bool)
        ensures
            r == self@.passes_due_filter(filter, today@),
    {
        match filter {
            DueFilter::Overdue => self.is_overdue_on(today),
            DueFilter::Soon => self.is_due_soon_on(7, today),
            DueFilter::WithDue => self.due_date.is_some(),
            DueFilter::NoDue => self.due_date.is_none(),
        }
    }

    /// Whether the task passes the due-date filter today: what
    /// [`Task::matches_due_filter_on`] tells for the day that the clock
    /// reports. Whether a task has a due date depends on no day, and a task
    /// that is completed or has none is overdue or due soon on no day.
    pub fn matches_due_filter(&self, filter: DueFilter) -> (r: bool)
        ensures
            exists|day: Date| day.wf() && r == #[trigger] self@.passes_due_filter(filter, day@),
            filter == DueFilter::WithDue ==> r == self.due_date.is_some(),
            filter == DueFilter::NoDue ==> r == self.due_date.is_none(),
            (filter == DueFilter::Overdue || filter == DueFilter::Soon) && (self.completed
                || self.due_date is None) ==> !r,
    {
        let now = Date::today();
        self.matches_due_filter_on(filter, now)
    }

    /// Whether the task passes the status filter.
    pub fn matches_status(&self, status: StatusFilter) -> (r: bool)
        ensures
            r == self@.passes_status(status),
    {
        match status {
            StatusFilter::Pending => !self.completed,
            StatusFilter::Done => self.completed,
            StatusFilter::All => true,
        }
    }

    /// Whether a prerequisite of the task is still pending in `all_tasks`.
    /// A prerequisite that no task of the list bears does not block.
    pub fn is_blocked(&self, all_tasks: &[Task]) -> (r: bool)
        ensures
            r == self@.blocked_in(task_views(all_tasks@)),
    {
        let mut k: usize = 0;
        while k < self.depends_on.len()
            invariant
                k <= self.depends_on.len(),
                forall|j: int|
                    0 <= j < k ==> !is_pending_dep(
                        task_views(all_tasks@),
                        #[trigger] self.depends_on@[j],
                    ),
            decreases self.depends_on.len() - k,
        {
            if is_pending(all_tasks, self.depends_on[k]) {
                assert(is_pending_dep(task_views(all_tasks@), self@.depends_on[k as int]));
                return true;
            }
            k += 1;
        }
        false
    }

    /// The prerequisites of the task that are still pending in `all_tasks`,
    /// in the order in which the task lists them.
    pub fn blocking_deps(&self, all_tasks: &[Task]) -> (r: Vec<u128>)
        ensures
            r@ == self@.blocking_in(task_views(all_tasks@)),
    {
        let ghost pred = |id: u128| is_pending_dep(task_views(all_tasks@), id);
        let mut out: Vec<u128> = Vec::new();
        let mut k: usize = 0;
        proof {
            reveal(Seq::filter);
            assert(self.depends_on@.subrange(0, 0) =~= Seq::<u128>::empty());
        }
        while k < self.depends_on.len()
            invariant
                k <= self.depends_on.len(),
                pred == |id: u128| is_pending_dep(task_views(all_tasks@), id),
                out@ == self.depends_on@.subrange(0, k as int).filter(pred),
            decreases self.depends_on.len() - k,
        {
            let id = self.depends_on[k];
            let pending = is_pending(all_tasks, id);
            proof {
                reveal(Seq::filter);
                let next = self.depends_on@.subrange(0, k + 1);
                assert(next.drop_last() =~= self.depends_on@.subrange(0, k as int));
                assert(next.last() == id);
                assert(pred(id) == pending);
            }
            if pending {
                out.push(id);
            }
            k += 1;
        }
        proof {
            assert(self.depends_on@.subrange(0, k as int) =~= self.depends_on@);
        }
        out
    }

    /// The next occurrence of the task, with the given identifier and
    /// creation date, or `None` where the task has no recurrence or no due
    /// date.
    pub fn next_occurrence_with(&self, uuid: u128, created_at: Date, parent_uuid: u128) -> (r:
        Option<Task>)
        ensures
            !self@.recurs() ==> r is None,
            self@.recurs() ==> (r matches Some(next) && next@ == self@.next_occurrence(
                uuid,
                created_at@,
                parent_uuid,
            )),
    {
        let recurrence = match self.recurrence {
            Some(pattern) => pattern,
            None => {
                return None;
            },
        };
        let current_due = match self.due_date {
            Some(due) => due,
            None => {
                return None;
            },
        };
        let next_due = recurrence.next_date(current_due);
        let mut next_task = Task::with_identity(
            uuid,
            created_at,
            self.text.clone(),
            self.priority,
            clone_texts(&self.tags),
            clone_opt_text(&self.project),
            Some(next_due),
            Some(recurrence),
        );
        next_task.parent_id = Some(parent_uuid);
        Some(next_task)
    }

    /// The next occurrence of the task, created today under a newly drawn
    /// identifier, or `None` where the task has no recurrence or no due date.
    ///
    /// The prerequisites of the task are not handed on: each occurrence
    /// stands alone.
    pub fn create_next_recurrence(&self, parent_uuid: u128) -> (r: Option<Task>)
        ensures
            !self@.recurs() ==> r is None,
            self@.recurs() ==> (r matches Some(next) && next@ == self@.next_occurrence(
                next.uuid,
                next.created_at@,
                parent_uuid,
            )),
            r matches Some(next) ==> next.uuid != 0,
    {
        let uuid = fresh_id();
        let created_at = today();
        self.next_occurrence_with(uuid, created_at, parent_uuid)
    }

    /// Whether the task has a recurrence pattern.
    pub fn is_recurring(&self) -> (r: bool)
        ensures
            r == self.recurrence.is_some(),
    {
        self.recurrence.is_some()
    }
}

/// Counts the tasks of a project: how many there are, and how many of them
/// are completed. The project name is compared without regard to case.
pub fn count_by_project(tasks: &[Task], project: &str) -> (r: (usize, usize))
    ensures
        r.0 == task_views(tasks@).filter(|t: TaskView| t.in_project(project@)).len(),
        r.1 == task_views(tasks@).filter(
            |t: TaskView| t.in_project(project@) && t.completed,
        ).len(),
{
    let ghost views = task_views(tasks@);
    let ghost all = |t: TaskView| t.in_project(project@);
    let ghost done = |t: TaskView| t.in_project(project@) && t.completed;
    let mut total: usize = 0;
    let mut completed: usize = 0;
    let mut i: usize = 0;
    proof {
        reveal(Seq::filter);
        assert(views.subrange(0, 0) =~= Seq::<TaskView>::empty());
    }
    while i < tasks.len()
        invariant
            i <= tasks.len(),
            views == task_views(tasks@),
            all == |t: TaskView| t.in_project(project@),
            done == |t: TaskView| t.in_project(project@) && t.completed,
            total == views.subrange(0, i as int).filter(all).len(),
            completed == views.subrange(0, i as int).filter(done).len(),
            completed <= total <= i,
        decreases tasks.len() - i,
    {
        let matching = match &tasks[i].project {
            Some(p) => eq_ignoring_case(p.as_str(), project),
            None => false,
        };
        proof {
            reveal(Seq::filter);
            let next = views.subrange(0, i + 1);
            assert(next.drop_last() =~= views.subrange(0, i as int));
            assert(next.last() == tasks@[i as int]@);
            assert(all(next.last()) == matching);
        }
        if matching {
            total += 1;
            if tasks[i].completed {
                completed += 1;
            }
        }
        i += 1;
    }
    proof {
        assert(views.subrange(0, i as int) =~= views);
    }
    (total, completed)
}

} // verus!
