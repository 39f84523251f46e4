//! The dependency graph of a task list.
//!
//! A task depends on the tasks whose identifiers it lists. The relation must
//! form a directed acyclic graph: an edge is refused where it would close a
//! cycle. This module states what an edge, a path and a cycle are, and
//! decides by a depth-first search whether a new edge would close one.

use std::collections::HashMap;
use vstd::prelude::*;
use vstd::std_specs::hash::*;
use crate::error::TodoError;
use crate::models::task::{
    all_coherent, find_position, has_task, resolves_at, task_views, Task, TaskView,
};

verus! {

/// The task that `a` stands for lists `b` among its prerequisites.
pub open spec fn edge(tasks: Seq<TaskView>, a: u128, b: u128) -> bool {
    exists|i: int| #[trigger] resolves_at(tasks, a, i) && tasks[i].depends_on.contains(b)
}

/// The identifier at index `k` of `p` depends on the one that follows it.
pub open spec fn linked(tasks: Seq<TaskView>, p: Seq<u128>, k: int) -> bool {
    edge(tasks, p[k], p[k + 1])
}

/// `p` is a path of the graph: it names at least one identifier, and each
/// one depends on the next.
pub open spec fn is_path(tasks: Seq<TaskView>, p: Seq<u128>) -> bool {
    &&& p.len() > 0
    &&& forall|k: int| 0 <= k < p.len() - 1 ==> #[trigger] linked(tasks, p, k)
}

/// Following prerequisites from `from` leads to `to`, in any number of
/// steps, none included.
pub open spec fn reachable(tasks: Seq<TaskView>, from: u128, to: u128) -> bool {
    exists|p: Seq<u128>| #[trigger] is_path(tasks, p) && p.first() == from && p.last() == to
}

/// No task depends on itself, directly or through others.
pub open spec fn acyclic(tasks: Seq<TaskView>) -> bool {
    forall|p: Seq<u128>| #[trigger] is_path(tasks, p) && p.len() >= 2 ==> p.first() != p.last()
}

/// Every identifier reaches itself.
pub proof fn lemma_reachable_self(tasks: Seq<TaskView>, a: u128)
    ensures
        reachable(tasks, a, a),
{
    let p = seq![a];
    assert(is_path(tasks, p));
    assert(p.first() == a && p.last() == a);
}

/// What reaches `b` reaches every prerequisite of `b`.
pub proof fn lemma_reachable_step(tasks: Seq<TaskView>, a: u128, b: u128, c: u128)
    requires
        reachable(tasks, a, b),
        edge(tasks, b, c),
    ensures
        reachable(tasks, a, c),
{
    let p = choose|p: Seq<u128>| #[trigger] is_path(tasks, p) && p.first() == a && p.last() == b;
    let q = p.push(c);
    assert forall|k: int| 0 <= k < q.len() - 1 implies #[trigger] linked(tasks, q, k) by {
        if k < p.len() - 1 {
            assert(linked(tasks, p, k));
            assert(q[k] == p[k] && q[k + 1] == p[k + 1]);
        }
    }
    assert(is_path(tasks, q));
    assert(q.first() == a && q.last() == c);
}

/// The number of entries of `v` that are `false`.
pub open spec fn count_false(v: Seq<bool>) -> nat
    decreases v.len(),
{
    if v.len() == 0 {
        0
    } else {
        count_false(v.drop_last()) + if v.last() {
            0nat
        } else {
            1nat
        }
    }
}

proof fn lemma_count_false_update(v: Seq<bool>, i: int)
    requires
        0 <= i < v.len(),
        !v[i],
    ensures
        count_false(v.update(i, true)) + 1 == count_false(v),
    decreases v.len(),
{
    let w = v.update(i, true);
    if i == v.len() - 1 {
        assert(w.drop_last() =~= v.drop_last());
    } else {
        lemma_count_false_update(v.drop_last(), i);
        assert(w.drop_last() =~= v.drop_last().update(i, true));
    }
}

/// The search is done with `id`: it is not the target, and it either names
/// no task or names one that has been visited.
spec fn explored(tasks: Seq<TaskView>, visited: Seq<bool>, target: u128, id: u128) -> bool {
    &&& id != target
    &&& !has_task(tasks, id) || exists|j: int| #[trigger] resolves_at(tasks, id, j) && visited[j]
}

/// The search will not forget `id`: it waits on the stack or is explored.
spec fn settled(
    tasks: Seq<TaskView>,
    visited: Seq<bool>,
    stack: Seq<u128>,
    target: u128,
    id: u128,
) -> bool {
    stack.contains(id) || explored(tasks, visited, target, id)
}

/// Every prerequisite of the task at index `i` is settled.
spec fn deps_settled(
    tasks: Seq<TaskView>,
    visited: Seq<bool>,
    stack: Seq<u128>,
    target: u128,
    i: int,
) -> bool {
    forall|k: int|
        0 <= k < tasks[i].depends_on.len() ==> settled(
            tasks,
            visited,
            stack,
            target,
            #[trigger] tasks[i].depends_on[k],
        )
}

/// The state of the search between two steps.
spec fn search_inv(
    tasks: Seq<TaskView>,
    visited: Seq<bool>,
    stack: Seq<u128>,
    start: u128,
    target: u128,
) -> bool {
    &&& visited.len() == tasks.len()
    &&& settled(tasks, visited, stack, target, start)
    &&& forall|k: int| 0 <= k < stack.len() ==> reachable(tasks, start, #[trigger] stack[k])
    &&& forall|i: int|
        0 <= i < tasks.len() && #[trigger] visited[i] ==> {
            &&& resolves_at(tasks, tasks[i].uuid, i)
            &&& tasks[i].uuid != target
            &&& deps_settled(tasks, visited, stack, target, i)
        }
}

/// What is settled stays settled when the search visits more and keeps on
/// the stack all that is not explored.
proof fn lemma_settled_mono(
    tasks: Seq<TaskView>,
    visited: Seq<bool>,
    stack: Seq<u128>,
    visited2: Seq<bool>,
    stack2: Seq<u128>,
    target: u128,
    id: u128,
)
    requires
        visited.len() == tasks.len(),
        visited2.len() == tasks.len(),
        settled(tasks, visited, stack, target, id),
        forall|j: int| 0 <= j < visited.len() && visited[j] ==> #[trigger] visited2[j],
        forall|k: int|
            0 <= k < stack.len() ==> stack2.contains(#[trigger] stack[k]) || explored(
                tasks,
                visited2,
                target,
                stack[k],
            ),
    ensures
        settled(tasks, visited2, stack2, target, id),
{
    if stack.contains(id) {
        let k = choose|k: int| 0 <= k < stack.len() && stack[k] == id;
        assert(stack2.contains(stack[k]) || explored(tasks, visited2, target, stack[k]));
    } else {
        if has_task(tasks, id) {
            let j = choose|j: int| #[trigger] resolves_at(tasks, id, j) && visited[j];
            assert(resolves_at(tasks, id, j) && visited2[j]);
        }
    }
}

/// With an empty stack, every identifier on a path that starts at an
/// explored one is explored.
proof fn lemma_explored_along_path(
    tasks: Seq<TaskView>,
    visited: Seq<bool>,
    start: u128,
    target: u128,
    p: Seq<u128>,
    k: int,
)
    requires
        search_inv(tasks, visited, Seq::empty(), start, target),
        is_path(tasks, p),
        p.first() == start,
        0 <= k < p.len(),
    ensures
        explored(tasks, visited, target, p[k]),
    decreases k,
{
    let empty = Seq::<u128>::empty();
    if k == 0 {
        assert(settled(tasks, visited, empty, target, start));
    } else {
        lemma_explored_along_path(tasks, visited, start, target, p, k - 1);
        let a = p[k - 1];
        let b = p[k];
        assert(linked(tasks, p, k - 1));
        assert(edge(tasks, a, b));
        let i = choose|i: int| #[trigger] resolves_at(tasks, a, i) && tasks[i].depends_on.contains(b);
        assert(tasks[i].uuid == a);
        assert(has_task(tasks, a));
        let j = choose|j: int| #[trigger] resolves_at(tasks, a, j) && visited[j];
        assert(i == j);
        assert(deps_settled(tasks, visited, empty, target, i));
        let m = choose|m: int| 0 <= m < tasks[i].depends_on.len() && tasks[i].depends_on[m] == b;
        assert(settled(tasks, visited, empty, target, tasks[i].depends_on[m]));
    }
}

/// A list of `n` entries, all `false`.
fn all_false(n: usize) -> (r: Vec<bool>)
    ensures
        r@.len() == n,
        forall|i: int| 0 <= i < n ==> !r@[i],
{
    let mut out: Vec<bool> = Vec::new();
    let mut i: usize = 0;
    while i < n
        invariant
            i <= n,
            out@.len() == i,
            forall|k: int| 0 <= k < i ==> !out@[k],
        decreases n - i,
    {
        out.push(false);
        i += 1;
    }
    out
}

/// Puts the identifiers of `ids` on top of `stack`, in order.
fn push_all(stack: &mut Vec<u128>, ids: &Vec<u128>)
    ensures
        final(stack)@ == old(stack)@ + ids@,
{
    let mut k: usize = 0;
    while k < ids.len()
        invariant
            k <= ids.len(),
            stack@ == old(stack)@ + ids@.subrange(0, k as int),
        decreases ids.len() - k,
    {
        stack.push(ids[k]);
        assert(stack@ =~= old(stack)@ + ids@.subrange(0, k + 1));
        k += 1;
    }
    assert(ids@.subrange(0, k as int) =~= ids@);
}

/// The task at index `k` is the first from index `from` on that bears the
/// identifier `id`.
spec fn first_from(tasks: Seq<TaskView>, id: u128, from: int, k: int) -> bool {
    &&& from <= k < tasks.len()
    &&& tasks[k].uuid == id
    &&& forall|j: int| from <= j < k ==> (#[trigger] tasks[j]).uuid != id
}

/// No task from index `from` on bears the identifier `id`.
spec fn absent_from(tasks: Seq<TaskView>, id: u128, from: int) -> bool {
    forall|j: int| from <= j < tasks.len() ==> (#[trigger] tasks[j]).uuid != id
}

/// `index` tells of the tasks from index `from` on where each identifier is
/// first borne, and holds no other identifier.
spec fn indexes_from(tasks: Seq<TaskView>, index: Map<u128, usize>, from: int) -> bool {
    &&& forall|id: u128| #[trigger]
        index.contains_key(id) ==> first_from(tasks, id, from, index[id] as int)
    &&& forall|id: u128| !#[trigger] index.contains_key(id) ==> absent_from(tasks, id, from)
}

/// The places of the tasks by their identifiers: for each identifier that a
/// task bears, the position of the first task that bears it. One pass over
/// the list builds it, so that the search looks a task up in one step.
fn index_by_id(tasks: &[Task]) -> (r: HashMap<u128, usize>)
    ensures
        indexes_from(task_views(tasks@), r@, 0),
{
    broadcast use group_hash_axioms;

    let ghost views = task_views(tasks@);
    let mut index: HashMap<u128, usize> = HashMap::new();
    let mut i: usize = tasks.len();
    while i > 0
        invariant
            i <= tasks.len(),
            views == task_views(tasks@),
            indexes_from(views, index@, i as int),
        decreases i,
    {
        let ghost before = index@;
        i -= 1;
        let id = tasks[i].uuid;
        assert(views[i as int] == tasks@[i as int]@);
        index.insert(id, i);
        proof {
            assert forall|other: u128| #[trigger] index@.contains_key(other) implies first_from(
                views,
                other,
                i as int,
                index@[other] as int,
            ) by {
                if other != id {
                    assert(before.contains_key(other));
                    assert(first_from(views, other, i + 1, before[other] as int));
                }
            }
            assert forall|other: u128| !#[trigger] index@.contains_key(other) implies absent_from(
                views,
                other,
                i as int,
            ) by {
                assert(!before.contains_key(other));
                assert(absent_from(views, other, i + 1));
            }
        }
    }
    index
}

/// Whether giving the task `task_uuid` the prerequisite `new_dep_uuid` would
/// close a cycle: whether `task_uuid` can be reached from `new_dep_uuid` by
/// following the prerequisites that the list already holds.
///
/// The search is a depth-first one with a stack of its own, so the length of
/// a chain of prerequisites does not bound what it can handle. It looks
/// each task up by its identifier in an index built beforehand and follows
/// the prerequisites of each task once.
pub fn would_create_cycle(tasks: &[Task], task_uuid: u128, new_dep_uuid: u128) -> (r: bool)
    ensures
        r == reachable(task_views(tasks@), new_dep_uuid, task_uuid),
{
    broadcast use group_hash_axioms;

    let ghost views = task_views(tasks@);
    let index = index_by_id(tasks);
    let mut visited = all_false(tasks.len());
    let mut stack: Vec<u128> = Vec::new();
    stack.push(new_dep_uuid);
    proof {
        lemma_reachable_self(views, new_dep_uuid);
        assert(stack@[0] == new_dep_uuid);
        assert(stack@.contains(new_dep_uuid));
    }
    while stack.len() > 0
        invariant
            views == task_views(tasks@),
            indexes_from(views, index@, 0),
            search_inv(views, visited@, stack@, new_dep_uuid, task_uuid),
        decreases count_false(visited@), stack@.len(),
    {
        let ghost stack0 = stack@;
        let ghost visited0 = visited@;
        let current = stack.pop().unwrap();
        assert(stack0[stack0.len() - 1] == current);
        assert(stack@ =~= stack0.drop_last());
        assert(reachable(views, new_dep_uuid, current));
        if current == task_uuid {
            return true;
        }
        match index.get(&current) {
            None => {
                proof {
                    assert(!index@.contains_key(current));
                    assert(absent_from(views, current, 0));
                    assert(!has_task(views, current));
                    assert(explored(views, visited@, task_uuid, current));
                    lemma_popped_stays_settled(views, visited@, stack0, task_uuid);
                    lemma_search_step(
                        views,
                        visited0,
                        stack0,
                        visited@,
                        stack@,
                        new_dep_uuid,
                        task_uuid,
                    );
                }
            },
            Some(found) => {
                let i: usize = *found;
                assert(index@.contains_key(current) && index@[current] == i);
                assert(first_from(views, current, 0, i as int));
                assert(resolves_at(views, current, i as int));
                if !visited[i] {
                    visited[i] = true;
                    let ghost popped = stack@;
                    push_all(&mut stack, &tasks[i].depends_on);
                    proof {
                        lemma_count_false_update(visited0, i as int);
                        assert(visited@ =~= visited0.update(i as int, true));
                        let deps = views[i as int].depends_on;
                        assert(deps == tasks@[i as int].depends_on@);
                        assert(explored(views, visited@, task_uuid, current));
                        assert forall|k: int| 0 <= k < stack@.len() implies reachable(
                            views,
                            new_dep_uuid,
                            #[trigger] stack@[k],
                        ) by {
                            if k >= popped.len() {
                                let d = deps[k - popped.len()];
                                assert(stack@[k] == d);
                                assert(deps.contains(d));
                                assert(edge(views, current, d));
                                lemma_reachable_step(views, new_dep_uuid, current, d);
                            } else {
                                assert(stack@[k] == stack0[k]);
                            }
                        }
                        assert forall|k: int| 0 <= k < stack0.len() implies stack@.contains(
                            #[trigger] stack0[k],
                        ) || explored(views, visited@, task_uuid, stack0[k]) by {
                            if k < popped.len() {
                                assert(stack@[k] == stack0[k]);
                            }
                        }
                        assert(deps_settled(views, visited@, stack@, task_uuid, i as int)) by {
                            assert forall|k: int| 0 <= k < deps.len() implies settled(
                                views,
                                visited@,
                                stack@,
                                task_uuid,
                                #[trigger] deps[k],
                            ) by {
                                assert(stack@[popped.len() + k] == deps[k]);
                            }
                        }
                        lemma_search_step(
                            views,
                            visited0,
                            stack0,
                            visited@,
                            stack@,
                            new_dep_uuid,
                            task_uuid,
                        );
                    }
                } else {
                    proof {
                        assert(explored(views, visited@, task_uuid, current));
                        lemma_popped_stays_settled(views, visited@, stack0, task_uuid);
                        lemma_search_step(
                            views,
                            visited0,
                            stack0,
                            visited@,
                            stack@,
                            new_dep_uuid,
                            task_uuid,
                        );
                    }
                }
            },
        }
    }
    proof {
        assert(stack@ =~= Seq::<u128>::empty());
        if reachable(views, new_dep_uuid, task_uuid) {
            let p = choose|p: Seq<u128>| #[trigger]
                is_path(views, p) && p.first() == new_dep_uuid && p.last() == task_uuid;
            lemma_explored_along_path(views, visited@, new_dep_uuid, task_uuid, p, p.len() - 1);
        }
    }
    false
}

/// Taking an explored identifier off the stack loses nothing: every
/// identifier that waited is still waiting or is explored.
proof fn lemma_popped_stays_settled(
    tasks: Seq<TaskView>,
    visited: Seq<bool>,
    stack: Seq<u128>,
    target: u128,
)
    requires
        stack.len() > 0,
        explored(tasks, visited, target, stack.last()),
    ensures
        forall|k: int|
            0 <= k < stack.len() ==> stack.drop_last().contains(#[trigger] stack[k]) || explored(
                tasks,
                visited,
                target,
                stack[k],
            ),
{
    assert forall|k: int| 0 <= k < stack.len() implies stack.drop_last().contains(
        #[trigger] stack[k],
    ) || explored(tasks, visited, target, stack[k]) by {
        if k < stack.len() - 1 {
            assert(stack.drop_last()[k] == stack[k]);
        }
    }
}

/// One step of the search keeps its state sound, given what the step did:
/// it visited no less, kept every waiting identifier that is not explored,
/// put only reachable identifiers on the stack, and settled the
/// prerequisites of whatever it newly visited.
proof fn lemma_search_step(
    tasks: Seq<TaskView>,
    visited: Seq<bool>,
    stack: Seq<u128>,
    visited2: Seq<bool>,
    stack2: Seq<u128>,
    start: u128,
    target: u128,
)
    requires
        search_inv(tasks, visited, stack, start, target),
        visited2.len() == tasks.len(),
        forall|j: int| 0 <= j < visited.len() && visited[j] ==> #[trigger] visited2[j],
        forall|k: int|
            0 <= k < stack.len() ==> stack2.contains(#[trigger] stack[k]) || explored(
                tasks,
                visited2,
                target,
                stack[k],
            ),
        forall|k: int| 0 <= k < stack2.len() ==> reachable(tasks, start, #[trigger] stack2[k]),
        forall|i: int|
            0 <= i < tasks.len() && #[trigger] visited2[i] && !visited[i] ==> {
                &&& resolves_at(tasks, tasks[i].uuid, i)
                &&& tasks[i].uuid != target
                &&& deps_settled(tasks, visited2, stack2, target, i)
            },
    ensures
        search_inv(tasks, visited2, stack2, start, target),
{
    lemma_settled_mono(tasks, visited, stack, visited2, stack2, target, start);
    assert forall|i: int| 0 <= i < tasks.len() && #[trigger] visited2[i] implies deps_settled(
        tasks,
        visited2,
        stack2,
        target,
        i,
    ) by {
        if visited[i] {
            assert(deps_settled(tasks, visited, stack, target, i));
            assert forall|k: int| 0 <= k < tasks[i].depends_on.len() implies settled(
                tasks,
                visited2,
                stack2,
                target,
                #[trigger] tasks[i].depends_on[k],
            ) by {
                lemma_settled_mono(
                    tasks,
                    visited,
                    stack,
                    visited2,
                    stack2,
                    target,
                    tasks[i].depends_on[k],
                );
            }
        }
    }
}

/// The graph `after` has the edges of `before` and the edge from `u` to `v`,
/// and no others.
pub open spec fn adds_edge(before: Seq<TaskView>, after: Seq<TaskView>, u: u128, v: u128) -> bool {
    forall|a: u128, b: u128| #[trigger]
        edge(after, a, b) <==> edge(before, a, b) || (a == u && b == v)
}

/// A part of a path is a path.
proof fn lemma_subpath(tasks: Seq<TaskView>, p: Seq<u128>, from: int, to: int)
    requires
        is_path(tasks, p),
        0 <= from < to <= p.len(),
    ensures
        is_path(tasks, p.subrange(from, to)),
{
    let q = p.subrange(from, to);
    assert forall|k: int| 0 <= k < q.len() - 1 implies #[trigger] linked(tasks, q, k) by {
        assert(linked(tasks, p, from + k));
        assert(q[k] == p[from + k] && q[k + 1] == p[from + k + 1]);
    }
}

/// A path that returns to where it began can be entered at any of its
/// steps: it then leads from the end of that step round to its start.
proof fn lemma_rotate(tasks: Seq<TaskView>, p: Seq<u128>, k: int) -> (w: Seq<u128>)
    requires
        is_path(tasks, p),
        p.first() == p.last(),
        0 <= k < p.len() - 1,
    ensures
        is_path(tasks, w),
        w.first() == p[k + 1],
        w.last() == p[k],
{
    let n = p.len() as int;
    let first_len = n - k - 1;
    let w = p.subrange(k + 1, n) + p.subrange(1, k + 1);
    assert forall|m: int| 0 <= m < w.len() - 1 implies #[trigger] linked(tasks, w, m) by {
        if m + 1 < first_len {
            assert(linked(tasks, p, k + 1 + m));
            assert(w[m] == p[k + 1 + m] && w[m + 1] == p[k + 2 + m]);
        } else if m + 1 == first_len {
            assert(linked(tasks, p, 0));
            assert(w[m] == p[n - 1]);
            assert(w[m + 1] == p[1]);
        } else {
            assert(linked(tasks, p, 1 + m - first_len));
            assert(w[m] == p[1 + m - first_len] && w[m + 1] == p[2 + m - first_len]);
        }
    }
    assert(w.first() == p[k + 1]);
    if k == 0 {
        assert(w.last() == p[n - 1]);
    } else {
        assert(w.last() == p[k]);
    }
    w
}

/// In a graph that gained the edge from `u` to `v`, a path from `v` to `u`
/// shows that `u` could be reached from `v` before.
proof fn lemma_path_back_was_there(
    before: Seq<TaskView>,
    after: Seq<TaskView>,
    u: u128,
    v: u128,
    w: Seq<u128>,
)
    requires
        adds_edge(before, after, u, v),
        is_path(after, w),
        w.first() == v,
        w.last() == u,
    ensures
        reachable(before, v, u),
    decreases w.len(),
{
    if forall|k: int| 0 <= k < w.len() - 1 ==> #[trigger] linked(before, w, k) {
        assert(is_path(before, w));
    } else {
        let j = choose|j: int| 0 <= j < w.len() - 1 && !#[trigger] linked(before, w, j);
        assert(linked(after, w, j));
        assert(edge(after, w[j], w[j + 1]));
        let rest = w.subrange(j + 1, w.len() as int);
        lemma_subpath(after, w, j + 1, w.len() as int);
        assert(rest.first() == v && rest.last() == u);
        lemma_path_back_was_there(before, after, u, v, rest);
    }
}

/// Where `u` can be reached from `v`, the edge from `u` to `v` closes a
/// cycle.
proof fn lemma_edge_back_closes_cycle(
    before: Seq<TaskView>,
    after: Seq<TaskView>,
    u: u128,
    v: u128,
)
    requires
        adds_edge(before, after, u, v),
        reachable(before, v, u),
    ensures
        !acyclic(after),
{
    let q = choose|q: Seq<u128>| #[trigger] is_path(before, q) && q.first() == v && q.last() == u;
    let cycle = q.push(v);
    assert forall|k: int| 0 <= k < cycle.len() - 1 implies #[trigger] linked(after, cycle, k) by {
        if k < q.len() - 1 {
            assert(linked(before, q, k));
            assert(cycle[k] == q[k] && cycle[k + 1] == q[k + 1]);
            assert(edge(after, q[k], q[k + 1]));
        } else {
            assert(cycle[k] == u && cycle[k + 1] == v);
            assert(edge(after, u, v));
        }
    }
    assert(is_path(after, cycle));
    assert(cycle.len() >= 2 && cycle.first() == cycle.last());
}

/// In a graph without cycles, giving `u` the new prerequisite `v` closes a
/// cycle exactly when `u` could already be reached from `v`.
///
/// So an edge that [`would_create_cycle`] reports must be refused, and one
/// that it does not report keeps the graph free of cycles.
pub proof fn lemma_new_edge_closes_cycle_iff_reachable(
    before: Seq<TaskView>,
    after: Seq<TaskView>,
    u: u128,
    v: u128,
)
    requires
        acyclic(before),
        adds_edge(before, after, u, v),
    ensures
        acyclic(after) <==> !reachable(before, v, u),
{
    if reachable(before, v, u) {
        lemma_edge_back_closes_cycle(before, after, u, v);
    }
    if !acyclic(after) {
        let p = choose|p: Seq<u128>| #[trigger]
            is_path(after, p) && p.len() >= 2 && p.first() == p.last();
        if forall|m: int| 0 <= m < p.len() - 1 ==> #[trigger] linked(before, p, m) {
            assert(is_path(before, p));
        } else {
            let k = choose|k: int| 0 <= k < p.len() - 1 && !#[trigger] linked(before, p, k);
            assert(linked(after, p, k));
            assert(edge(after, p[k], p[k + 1]));
            assert(p[k] == u && p[k + 1] == v);
            let w = lemma_rotate(after, p, k);
            lemma_path_back_was_there(before, after, u, v, w);
        }
    }
}

/// `n` is the number under which the list shows the task that `uuid`
/// stands for, counted from one, or zero where `uuid` stands for none.
pub open spec fn is_number_of(tasks: Seq<TaskView>, uuid: u128, n: int) -> bool {
    if has_task(tasks, uuid) {
        resolves_at(tasks, uuid, n - 1)
    } else {
        n == 0
    }
}

/// The number under which the list shows the task that `uuid` stands for,
/// counted from one, or zero where it stands for none.
pub fn number_of(tasks: &[Task], uuid: u128) -> (r: usize)
    ensures
        is_number_of(task_views(tasks@), uuid, r as int),
{
    let len = tasks.len();
    match find_position(tasks, uuid) {
        Some(i) => {
            assert(task_views(tasks@)[i as int].uuid == uuid);
            assert(i < len);
            i + 1
        },
        None => 0,
    }
}

/// The two ends of an edge that would close a cycle, by their numbers in
/// the list.
#[derive(Clone, Copy, Debug, PartialEq, Eq, Structural)]
pub struct CycleReport {
    /// The number of the task that was to gain a prerequisite.
    pub task_num: usize,
    /// The number of the prerequisite that it was to gain.
    pub dep_num: usize,
}

/// Checks that giving the task `task_uuid` the prerequisite `new_dep_uuid`
/// closes no cycle. Where it would, the error names both tasks by their
/// numbers in the list.
pub fn detect_cycle(tasks: &[Task], task_uuid: u128, new_dep_uuid: u128) -> (r: Result<
    (),
    CycleReport,
>)
    ensures
        r is Err <==> reachable(task_views(tasks@), new_dep_uuid, task_uuid),
        r matches Err(report) ==> {
            &&& is_number_of(task_views(tasks@), task_uuid, report.task_num as int)
            &&& is_number_of(task_views(tasks@), new_dep_uuid, report.dep_num as int)
        },
{
    if would_create_cycle(tasks, task_uuid, new_dep_uuid) {
        let task_num = number_of(tasks, task_uuid);
        let dep_num = number_of(tasks, new_dep_uuid);
        Err(CycleReport { task_num, dep_num })
    } else {
        Ok(())
    }
}

/// Whether `ids` holds `id`.
pub fn contains_id(ids: &Vec<u128>, id: u128) -> (r: bool)
    ensures
        r == ids@.contains(id),
{
    let mut k: usize = 0;
    while k < ids.len()
        invariant
            k <= ids.len(),
            forall|j: int| 0 <= j < k ==> ids@[j] != id,
        decreases ids.len() - k,
    {
        if ids[k] == id {
            return true;
        }
        k += 1;
    }
    false
}

/// The verdict on giving the task with the number `task_id` the task with
/// the number `dep_id` as a prerequisite. The rules, in the order in which
/// they are held against the edge:
///
/// 1. both numbers name a task of the list, and a task cannot depend on
///    itself;
/// 2. the task must not depend on the other already;
/// 3. the edge must not close a cycle.
///
/// An edge that passes is given as the identifier of the prerequisite.
pub open spec fn new_dependency_verdict(
    tasks: Seq<TaskView>,
    task_id: int,
    dep_id: int,
    r: Result<u128, TodoError>,
) -> bool {
    let max = tasks.len() as usize;
    if !(1 <= task_id <= tasks.len()) {
        r == Err::<u128, TodoError>(TodoError::InvalidTaskId { id: task_id as usize, max })
    } else if dep_id == task_id {
        r == Err::<u128, TodoError>(TodoError::SelfDependency { task_id: task_id as usize })
    } else if !(1 <= dep_id <= tasks.len()) {
        r == Err::<u128, TodoError>(TodoError::InvalidTaskId { id: dep_id as usize, max })
    } else if tasks[task_id - 1].depends_on.contains(tasks[dep_id - 1].uuid) {
        r == Err::<u128, TodoError>(
            TodoError::DuplicateDependency { task_id: task_id as usize, dep_id: dep_id as usize },
        )
    } else if reachable(tasks, tasks[dep_id - 1].uuid, tasks[task_id - 1].uuid) {
        r == Err::<u128, TodoError>(
            TodoError::DependencyCycle { task_id: task_id as usize, dep_id: dep_id as usize },
        )
    } else {
        r == Ok::<u128, TodoError>(tasks[dep_id - 1].uuid)
    }
}

/// Decides whether the task with the number `task_id` may gain the task
/// with the number `dep_id` as a prerequisite, and gives the identifier of
/// the prerequisite where it may.
///
/// A task is never allowed to depend on itself, whatever the list holds.
pub fn check_new_dependency(tasks: &[Task], task_id: usize, dep_id: usize) -> (r: Result<
    u128,
    TodoError,
>)
    ensures
        new_dependency_verdict(task_views(tasks@), task_id as int, dep_id as int, r),
        task_id == dep_id ==> r is Err,
{
    let ghost views = task_views(tasks@);
    let max = tasks.len();
    if task_id == 0 || task_id > max {
        return Err(TodoError::InvalidTaskId { id: task_id, max });
    }
    if dep_id == task_id {
        return Err(TodoError::SelfDependency { task_id });
    }
    if dep_id == 0 || dep_id > max {
        return Err(TodoError::InvalidTaskId { id: dep_id, max });
    }
    let task = &tasks[task_id - 1];
    let dep_uuid = tasks[dep_id - 1].uuid;
    assert(views[task_id - 1] == task@);
    assert(views[dep_id - 1].uuid == dep_uuid);
    if contains_id(&task.depends_on, dep_uuid) {
        return Err(TodoError::DuplicateDependency { task_id, dep_id });
    }
    if would_create_cycle(tasks, task.uuid, dep_uuid) {
        return Err(TodoError::DependencyCycle { task_id, dep_id });
    }
    Ok(dep_uuid)
}

/// The task at index `i` with `dep` added to its prerequisites.
pub open spec fn with_dependency(tasks: Seq<TaskView>, i: int, dep: u128) -> Seq<TaskView> {
    tasks.update(i, TaskView { depends_on: tasks[i].depends_on.push(dep), ..tasks[i] })
}

/// No two tasks of the list bear the same identifier.
pub open spec fn distinct_ids(tasks: Seq<TaskView>) -> bool {
    forall|i: int, j: int|
        0 <= i < tasks.len() && 0 <= j < tasks.len() && i != j ==> (#[trigger] tasks[i]).uuid != (
        #[trigger] tasks[j]).uuid
}

/// Adding `dep` to the prerequisites of the task at index `i` adds the edge
/// from that task to `dep` to the graph, and changes nothing else of it.
pub proof fn lemma_with_dependency_adds_edge(tasks: Seq<TaskView>, i: int, dep: u128)
    requires
        0 <= i < tasks.len(),
        distinct_ids(tasks),
    ensures
        adds_edge(tasks, with_dependency(tasks, i, dep), tasks[i].uuid, dep),
        distinct_ids(with_dependency(tasks, i, dep)),
{
    let after = with_dependency(tasks, i, dep);
    let u = tasks[i].uuid;
    assert forall|j: int| 0 <= j < tasks.len() implies (#[trigger] after[j]).uuid == tasks[j].uuid by {}
    assert forall|a: u128, j: int| resolves_at(tasks, a, j) <==> resolves_at(after, a, j) by {
        if resolves_at(tasks, a, j) {
            assert(after[j].uuid == a);
            assert forall|k: int| 0 <= k < j implies (#[trigger] after[k]).uuid != a by {
                assert(tasks[k].uuid != a);
            }
        }
        if resolves_at(after, a, j) {
            assert(tasks[j].uuid == a);
            assert forall|k: int| 0 <= k < j implies (#[trigger] tasks[k]).uuid != a by {
                assert(after[k].uuid != a);
            }
        }
    }
    assert forall|a: u128, b: u128| #[trigger]
        edge(after, a, b) <==> edge(tasks, a, b) || (a == u && b == dep) by {
        if edge(after, a, b) {
            let j = choose|j: int| #[trigger] resolves_at(after, a, j) && after[j].depends_on.contains(b);
            assert(resolves_at(tasks, a, j));
            if j == i {
                let deps = tasks[i].depends_on;
                let m = choose|m: int| 0 <= m < deps.push(dep).len() && deps.push(dep)[m] == b;
                if m < deps.len() {
                    assert(deps[m] == b);
                    assert(deps.contains(b));
                }
            } else {
                assert(after[j] == tasks[j]);
            }
        }
        if edge(tasks, a, b) {
            let j = choose|j: int| #[trigger] resolves_at(tasks, a, j) && tasks[j].depends_on.contains(b);
            assert(resolves_at(after, a, j));
            if j == i {
                let deps = tasks[i].depends_on;
                let m = choose|m: int| 0 <= m < deps.len() && deps[m] == b;
                assert(deps.push(dep)[m] == b);
                assert(after[j].depends_on.contains(b));
            } else {
                assert(after[j] == tasks[j]);
            }
        }
        if a == u && b == dep {
            assert(resolves_at(tasks, u, i)) by {
                assert forall|k: int| 0 <= k < i implies (#[trigger] tasks[k]).uuid != u by {}
            }
            assert(resolves_at(after, u, i));
            let deps = tasks[i].depends_on;
            assert(deps.push(dep)[deps.len() as int] == dep);
            assert(after[i].depends_on.contains(dep));
        }
    }
    assert forall|a: int, b: int|
        0 <= a < after.len() && 0 <= b < after.len() && a != b implies (#[trigger] after[a]).uuid != (
    #[trigger] after[b]).uuid by {
        assert(tasks[a].uuid != tasks[b].uuid);
    }
}

/// An edge that passes [`check_new_dependency`] keeps a graph without
/// cycles free of them; one that it refuses as closing a cycle would close
/// one.
pub proof fn lemma_checked_edge_keeps_acyclic(tasks: Seq<TaskView>, i: int, j: int)
    requires
        0 <= i < tasks.len(),
        0 <= j < tasks.len(),
        distinct_ids(tasks),
        acyclic(tasks),
    ensures
        acyclic(with_dependency(tasks, i, tasks[j].uuid)) <==> !reachable(
            tasks,
            tasks[j].uuid,
            tasks[i].uuid,
        ),
{
    lemma_with_dependency_adds_edge(tasks, i, tasks[j].uuid);
    lemma_new_edge_closes_cycle_iff_reachable(
        tasks,
        with_dependency(tasks, i, tasks[j].uuid),
        tasks[i].uuid,
        tasks[j].uuid,
    );
}

/// Gives the task with the number `task_id` the task with the number
/// `dep_id` as a prerequisite, provided that the edge passes the rules of
/// [`check_new_dependency`].
///
/// An edge that is refused is not added: the list stays as it was. An edge
/// that is added closes no cycle, so a list without cycles stays one.
pub fn add_dependency(tasks: &mut Vec<Task>, task_id: usize, dep_id: usize) -> (r: Result<
    (),
    TodoError,
>)
    ensures
        match r {
            Ok(()) => {
                &&& 1 <= task_id <= old(tasks)@.len()
                &&& 1 <= dep_id <= old(tasks)@.len()
                &&& new_dependency_verdict(
                    task_views(old(tasks)@),
                    task_id as int,
                    dep_id as int,
                    Ok(task_views(old(tasks)@)[dep_id - 1].uuid),
                )
                &&& task_views(final(tasks)@) == with_dependency(
                    task_views(old(tasks)@),
                    task_id - 1,
                    task_views(old(tasks)@)[dep_id - 1].uuid,
                )
            },
            Err(e) => {
                &&& task_views(final(tasks)@) == task_views(old(tasks)@)
                &&& new_dependency_verdict(
                    task_views(old(tasks)@),
                    task_id as int,
                    dep_id as int,
                    Err(e),
                )
            },
        },
        task_id == dep_id ==> r is Err,
        distinct_ids(task_views(old(tasks)@)) && acyclic(task_views(old(tasks)@)) ==> distinct_ids(
            task_views(final(tasks)@),
        ) && acyclic(task_views(final(tasks)@)),
        all_coherent(task_views(old(tasks)@)) ==> all_coherent(task_views(final(tasks)@)),
{
    let ghost before = task_views(tasks@);
    let dep_uuid = match check_new_dependency(tasks.as_slice(), task_id, dep_id) {
        Ok(uuid) => uuid,
        Err(e) => {
            return Err(e);
        },
    };
    let index = task_id - 1;
    assert(before[index as int] == tasks@[index as int]@);
    let mut task = tasks[index].duplicate();
    task.depends_on.push(dep_uuid);
    tasks[index] = task;
    proof {
        assert(dep_uuid == before[dep_id - 1].uuid);
        assert(task_views(tasks@) =~= with_dependency(before, index as int, dep_uuid));
        if distinct_ids(before) && acyclic(before) {
            lemma_with_dependency_adds_edge(before, index as int, dep_uuid);
            lemma_checked_edge_keeps_acyclic(before, index as int, dep_id - 1);
        }
    }
    Ok(())
}

/// The identifier `d` is another than `id`.
pub open spec fn is_other(d: u128, id: u128) -> bool {
    d != id
}

/// The task at index `i` without `dep` among its prerequisites.
pub open spec fn without_dependency(tasks: Seq<TaskView>, i: int, dep: u128) -> Seq<TaskView> {
    tasks.update(
        i,
        TaskView { depends_on: tasks[i].depends_on.filter(|d: u128| is_other(d, dep)), ..tasks[i] },
    )
}

/// The verdict on taking the task with the number `dep_id` out of the
/// prerequisites of the task with the number `task_id`: both numbers must
/// name tasks, and the one must depend on the other.
pub open spec fn removal_verdict(
    tasks: Seq<TaskView>,
    task_id: int,
    dep_id: int,
    r: Result<(), TodoError>,
) -> bool {
    if !(1 <= task_id <= tasks.len()) {
        r == Err::<(), TodoError>(
            TodoError::InvalidTaskId { id: task_id as usize, max: tasks.len() as usize },
        )
    } else if !(1 <= dep_id <= tasks.len()) || !tasks[task_id - 1].depends_on.contains(
        tasks[dep_id - 1].uuid,
    ) {
        r == Err::<(), TodoError>(
            TodoError::DependencyNotFound { task_id: task_id as usize, dep_id: dep_id as usize },
        )
    } else {
        r is Ok
    }
}

/// The identifiers of `ids` other than `id`, in order.
fn without_id(ids: &Vec<u128>, id: u128) -> (r: Vec<u128>)
    ensures
        r@ == ids@.filter(|d: u128| is_other(d, id)),
{
    let ghost keep = |d: u128| is_other(d, id);
    let mut out: Vec<u128> = Vec::new();
    let mut k: usize = 0;
    proof {
        reveal(Seq::filter);
        assert(ids@.subrange(0, 0) =~= Seq::<u128>::empty());
    }
    while k < ids.len()
        invariant
            k <= ids.len(),
            keep == |d: u128| is_other(d, id),
            out@ == ids@.subrange(0, k as int).filter(keep),
        decreases ids.len() - k,
    {
        proof {
            reveal(Seq::filter);
            let next = ids@.subrange(0, k + 1);
            assert(next.drop_last() =~= ids@.subrange(0, k as int));
            assert(next.last() == ids@[k as int]);
        }
        if ids[k] != id {
            out.push(ids[k]);
        }
        k += 1;
    }
    proof {
        assert(ids@.subrange(0, k as int) =~= ids@);
    }
    out
}

/// Takes the task with the number `dep_id` out of the prerequisites of the
/// task with the number `task_id`. An edge that is not there cannot be
/// removed: that is an error, and the list stays as it was.
///
/// Taking an edge away closes no cycle, so a list without cycles stays one.
pub fn remove_dependency(tasks: &mut Vec<Task>, task_id: usize, dep_id: usize) -> (r: Result<
    (),
    TodoError,
>)
    ensures
        removal_verdict(task_views(old(tasks)@), task_id as int, dep_id as int, r),
        r is Ok ==> task_views(final(tasks)@) == without_dependency(
            task_views(old(tasks)@),
            task_id - 1,
            task_views(old(tasks)@)[dep_id - 1].uuid,
        ),
        r is Err ==> task_views(final(tasks)@) == task_views(old(tasks)@),
        acyclic(task_views(old(tasks)@)) ==> acyclic(task_views(final(tasks)@)),
        all_coherent(task_views(old(tasks)@)) ==> all_coherent(task_views(final(tasks)@)),
{
    let ghost before = task_views(tasks@);
    let max = tasks.len();
    if task_id == 0 || task_id > max {
        return Err(TodoError::InvalidTaskId { id: task_id, max });
    }
    if dep_id == 0 || dep_id > max {
        return Err(TodoError::DependencyNotFound { task_id, dep_id });
    }
    let index = task_id - 1;
    let dep_uuid = tasks[dep_id - 1].uuid;
    assert(before[index as int] == tasks@[index as int]@);
    assert(before[dep_id - 1] == tasks@[dep_id - 1]@);
    if !contains_id(&tasks[index].depends_on, dep_uuid) {
        return Err(TodoError::DependencyNotFound { task_id, dep_id });
    }
    let mut task = tasks[index].duplicate();
    task.depends_on = without_id(&task.depends_on, dep_uuid);
    tasks[index] = task;
    proof {
        let after = without_dependency(before, index as int, dep_uuid);
        assert(task_views(tasks@) =~= after);
        if acyclic(before) {
            lemma_filtered_deps_lose_edges(before, index as int, |d: u128| is_other(d, dep_uuid));
            lemma_fewer_edges_keep_acyclic(before, after);
        }
    }
    Ok(())
}

/// Every edge of `after` is an edge of `before`.
pub open spec fn loses_edges(before: Seq<TaskView>, after: Seq<TaskView>) -> bool {
    forall|a: u128, b: u128| #[trigger] edge(after, a, b) ==> edge(before, a, b)
}

/// Keeping only some of the prerequisites of one task adds no edge.
pub proof fn lemma_filtered_deps_lose_edges(tasks: Seq<TaskView>, i: int, keep: spec_fn(u128) -> bool)
    requires
        0 <= i < tasks.len(),
    ensures
        loses_edges(
            tasks,
            tasks.update(i, TaskView { depends_on: tasks[i].depends_on.filter(keep), ..tasks[i] }),
        ),
{
    let kept = tasks[i].depends_on.filter(keep);
    let after = tasks.update(i, TaskView { depends_on: kept, ..tasks[i] });
    assert forall|a: u128, b: u128| #[trigger] edge(after, a, b) implies edge(tasks, a, b) by {
        let j = choose|j: int| #[trigger] resolves_at(after, a, j) && after[j].depends_on.contains(b);
        assert(tasks[j].uuid == a);
        assert forall|k: int| 0 <= k < j implies (#[trigger] tasks[k]).uuid != a by {
            assert(after[k].uuid != a);
        }
        assert(resolves_at(tasks, a, j));
        if j == i {
            tasks[i].depends_on.lemma_filter_contains_rev(keep, b);
        } else {
            assert(after[j] == tasks[j]);
        }
    }
}

/// A graph that only lost edges of a graph without cycles has none.
pub proof fn lemma_fewer_edges_keep_acyclic(before: Seq<TaskView>, after: Seq<TaskView>)
    requires
        acyclic(before),
        loses_edges(before, after),
    ensures
        acyclic(after),
{
    assert forall|p: Seq<u128>| #[trigger] is_path(after, p) && p.len() >= 2 implies p.first()
        != p.last() by {
        assert forall|k: int| 0 <= k < p.len() - 1 implies #[trigger] linked(before, p, k) by {
            assert(linked(after, p, k));
            assert(edge(after, p[k], p[k + 1]));
        }
        assert(is_path(before, p));
    }
}

/// Every edge of `after` is an edge of `before`, or leads from `u` to one
/// of `targets`.
pub open spec fn adds_edges_from(
    before: Seq<TaskView>,
    after: Seq<TaskView>,
    u: u128,
    targets: Seq<u128>,
) -> bool {
    forall|a: u128, b: u128| #[trigger]
        edge(after, a, b) ==> edge(before, a, b) || (a == u && targets.contains(b))
}

/// None of `targets` could reach `u` in `tasks`.
pub open spec fn none_reaches(tasks: Seq<TaskView>, targets: Seq<u128>, u: u128) -> bool {
    forall|k: int| 0 <= k < targets.len() ==> !reachable(tasks, #[trigger] targets[k], u)
}

/// A path of the graph with the new edges that leads from a target to `u`
/// shows that some target could reach `u` before.
proof fn lemma_way_back_was_there(
    before: Seq<TaskView>,
    after: Seq<TaskView>,
    u: u128,
    targets: Seq<u128>,
    w: Seq<u128>,
)
    requires
        adds_edges_from(before, after, u, targets),
        is_path(after, w),
        targets.contains(w.first()),
        w.last() == u,
    ensures
        !none_reaches(before, targets, u),
    decreases w.len(),
{
    if forall|k: int| 0 <= k < w.len() - 1 ==> #[trigger] linked(before, w, k) {
        assert(is_path(before, w));
        assert(reachable(before, w.first(), u));
        let k = choose|k: int| 0 <= k < targets.len() && targets[k] == w.first();
        assert(reachable(before, targets[k], u));
    } else {
        let j = choose|j: int| 0 <= j < w.len() - 1 && !#[trigger] linked(before, w, j);
        assert(linked(after, w, j));
        assert(edge(after, w[j], w[j + 1]));
        let rest = w.subrange(j + 1, w.len() as int);
        lemma_subpath(after, w, j + 1, w.len() as int);
        assert(rest.first() == w[j + 1] && rest.last() == u);
        lemma_way_back_was_there(before, after, u, targets, rest);
    }
}

/// In a graph without cycles, giving `u` new prerequisites of which none
/// could reach `u` closes no cycle, however many they are: every new edge
/// leaves `u`, so a cycle would have to come back to it.
pub proof fn lemma_new_edges_keep_acyclic(
    before: Seq<TaskView>,
    after: Seq<TaskView>,
    u: u128,
    targets: Seq<u128>,
)
    requires
        acyclic(before),
        adds_edges_from(before, after, u, targets),
        none_reaches(before, targets, u),
    ensures
        acyclic(after),
{
    if !acyclic(after) {
        let p = choose|p: Seq<u128>| #[trigger]
            is_path(after, p) && p.len() >= 2 && p.first() == p.last();
        if forall|m: int| 0 <= m < p.len() - 1 ==> #[trigger] linked(before, p, m) {
            assert(is_path(before, p));
        } else {
            let k = choose|k: int| 0 <= k < p.len() - 1 && !#[trigger] linked(before, p, k);
            assert(linked(after, p, k));
            assert(edge(after, p[k], p[k + 1]));
            let w = lemma_rotate(after, p, k);
            lemma_way_back_was_there(before, after, u, targets, w);
        }
    }
}

/// Replacing the prerequisites of the task at index `i` by some of those
/// that it had and some of `targets`, whatever else of the task changes
/// but its identifier, adds only edges from that task to `targets`.
pub proof fn lemma_replaced_deps_add_edges_from(
    before: Seq<TaskView>,
    after: Seq<TaskView>,
    i: int,
    targets: Seq<u128>,
)
    requires
        0 <= i < before.len(),
        after.len() == before.len(),
        forall|j: int| 0 <= j < before.len() ==> (#[trigger] after[j]).uuid == before[j].uuid,
        forall|j: int|
            0 <= j < before.len() && j != i ==> (#[trigger] after[j]).depends_on
                == before[j].depends_on,
        forall|b: u128| #[trigger]
            after[i].depends_on.contains(b) ==> before[i].depends_on.contains(b)
                || targets.contains(b),
    ensures
        adds_edges_from(before, after, before[i].uuid, targets),
{
    assert forall|a: u128, b: u128| #[trigger] edge(after, a, b) implies edge(before, a, b) || (a
        == before[i].uuid && targets.contains(b)) by {
        let j = choose|j: int| #[trigger] resolves_at(after, a, j) && after[j].depends_on.contains(b);
        assert(before[j].uuid == a);
        assert forall|k: int| 0 <= k < j implies (#[trigger] before[k]).uuid != a by {
            assert(after[k].uuid != a);
        }
        assert(resolves_at(before, a, j));
        if j != i {
            assert(before[j].depends_on.contains(b));
        }
    }
}

/// A task that no task of the list depends on, and that does not depend on
/// itself, can join a list without cycles and close none, provided that its
/// identifier is new to the list.
pub proof fn lemma_new_task_keeps_acyclic(tasks: Seq<TaskView>, t: TaskView)
    requires
        acyclic(tasks),
        !has_task(tasks, t.uuid),
        !t.depends_on.contains(t.uuid),
        forall|i: int| 0 <= i < tasks.len() ==> !(#[trigger] tasks[i]).depends_on.contains(t.uuid),
    ensures
        acyclic(tasks.push(t)),
{
    let after = tasks.push(t);
    let n = tasks.len() as int;
    assert forall|a: u128, j: int| #[trigger] resolves_at(after, a, j) && j < n implies resolves_at(
        tasks,
        a,
        j,
    ) by {
        assert(tasks[j] == after[j]);
        assert forall|k: int| 0 <= k < j implies (#[trigger] tasks[k]).uuid != a by {
            assert(after[k].uuid != a);
        }
    }
    // No edge of the longer list leads to the new task.
    assert forall|a: u128| !#[trigger] edge(after, a, t.uuid) by {
        if edge(after, a, t.uuid) {
            let j = choose|j: int| #[trigger]
                resolves_at(after, a, j) && after[j].depends_on.contains(t.uuid);
            if j < n {
                assert(after[j] == tasks[j]);
            } else {
                assert(after[j] == t);
            }
        }
    }
    assert forall|p: Seq<u128>| #[trigger] is_path(after, p) && p.len() >= 2 implies p.first()
        != p.last() by {
        if p.first() == p.last() {
            // Every identifier of the cycle has one before it, so none is the new task.
            assert forall|k: int| 0 <= k < p.len() implies #[trigger] p[k] != t.uuid by {
                if k > 0 {
                    assert(linked(after, p, k - 1));
                    assert(edge(after, p[k - 1], p[k]));
                } else {
                    assert(linked(after, p, p.len() - 2));
                    assert(edge(after, p[p.len() - 2], p[p.len() - 1]));
                }
            }
            assert forall|k: int| 0 <= k < p.len() - 1 implies #[trigger] linked(tasks, p, k) by {
                assert(linked(after, p, k));
                let j = choose|j: int| #[trigger]
                    resolves_at(after, p[k], j) && after[j].depends_on.contains(p[k + 1]);
                assert(after[j].uuid == p[k]);
                assert(j < n);
                assert(resolves_at(tasks, p[k], j));
                assert(tasks[j] == after[j]);
                assert(edge(tasks, p[k], p[k + 1]));
            }
            assert(is_path(tasks, p));
        }
    }
}

} // verus!
