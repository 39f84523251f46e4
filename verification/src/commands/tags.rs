//! The tags in use, each with the number of tasks that bear it.

use vstd::prelude::*;
use crate::error::TodoError;
use crate::models::task::{task_views, Task, TaskView};
use crate::storage::Storage;
use crate::tag_normalizer::{collect_existing_tags, lemma_tags_in_use_complete, lemma_tags_in_use_distinct, tags_in_use};
use crate::text::{contains_text, sort_distinct, strictly_ascending, text_views};

verus! {

/// A tag and the number of tasks that bear it.
#[derive(Clone, Debug, PartialEq, Eq)]
pub struct TagCount {
    /// The tag.
    pub tag: String,
    /// The number of tasks that bear it.
    pub count: usize,
}

/// The tags of the counts, in order.
pub open spec fn counted_tags(counts: Seq<TagCount>) -> Seq<Seq<char>> {
    counts.map_values(|c: TagCount| c.tag@)
}

/// The number of tasks that bear the tag.
pub open spec fn bearers(tasks: Seq<TaskView>, tag: Seq<char>) -> nat {
    tasks.filter(|t: TaskView| t.tags.contains(tag)).len()
}

/// `counts` tells of each tag in use, once and in ascending order, how many
/// tasks bear it.
pub open spec fn counts_tags(tasks: Seq<TaskView>, counts: Seq<TagCount>) -> bool {
    &&& strictly_ascending(counted_tags(counts))
    &&& forall|tag: Seq<char>|
        counted_tags(counts).contains(tag) <==> exists|i: int|
            0 <= i < tasks.len() && (#[trigger] tasks[i]).tags.contains(tag)
    &&& forall|k: int| 0 <= k < counts.len() ==> (#[trigger] counts[k]).count == bearers(tasks, counts[k].tag@)
}

/// Counts the tasks that bear the tag.
pub fn count_bearers(tasks: &[Task], tag: &str) -> (r: usize)
    ensures
        r == bearers(task_views(tasks@), tag@),
{
    let ghost views = task_views(tasks@);
    let ghost pred = |t: TaskView| t.tags.contains(tag@);
    let mut count: usize = 0;
    let mut i: usize = 0;
    proof {
        reveal(Seq::filter);
        assert(views.subrange(0, 0) =~= Seq::<TaskView>::empty());
    }
    while i < tasks.len()
        invariant
            i <= tasks.len(),
            views == task_views(tasks@),
            pred == |t: TaskView| t.tags.contains(tag@),
            count == views.subrange(0, i as int).filter(pred).len(),
            count <= i,
        decreases tasks.len() - i,
    {
        let bears = contains_text(tasks[i].tags.as_slice(), tag);
        proof {
            reveal(Seq::filter);
            let next = views.subrange(0, i + 1);
            assert(next.drop_last() =~= views.subrange(0, i as int));
            assert(next.last() == tasks@[i as int]@);
            assert(pred(next.last()) == bears);
        }
        if bears {
            count += 1;
        }
        i += 1;
    }
    proof {
        assert(views.subrange(0, i as int) =~= views);
    }
    count
}

/// Tells of each tag in use, in ascending order, how many tasks bear it.
/// A list without tags is an error.
pub fn count_tags(tasks: &[Task]) -> (r: Result<Vec<TagCount>, TodoError>)
    ensures
        match r {
            Ok(counts) => counts@.len() > 0 && counts_tags(task_views(tasks@), counts@),
            Err(e) => {
                &&& e == TodoError::NoTagsFound
                &&& forall|i: int| 0 <= i < tasks@.len() ==> (#[trigger] task_views(tasks@)[i]).tags.len() == 0
            },
        },
{
    let ghost views = task_views(tasks@);
    let all_tags = collect_existing_tags(tasks);
    proof {
        lemma_tags_in_use_distinct(views);
        assert(all_tags@.len() == text_views(all_tags@).len());
    }
    if all_tags.len() == 0 {
        proof {
            assert forall|i: int| 0 <= i < tasks@.len() implies (#[trigger] views[i]).tags.len() == 0 by {
                if views[i].tags.len() > 0 {
                    let tag = views[i].tags[0];
                    assert(views[i].tags.contains(tag));
                    lemma_tags_in_use_complete(views, tag);
                    assert(tags_in_use(views).contains(tag));
                }
            }
        }
        return Err(TodoError::NoTagsFound);
    }
    let sorted = sort_distinct(all_tags);
    let ghost names = text_views(sorted@);
    let mut counts: Vec<TagCount> = Vec::new();
    let mut k: usize = 0;
    while k < sorted.len()
        invariant
            k <= sorted.len(),
            views == task_views(tasks@),
            names == text_views(sorted@),
            counts@.len() == k,
            forall|j: int| 0 <= j < k ==> (#[trigger] counts@[j]).tag@ == names[j],
            forall|j: int| 0 <= j < k ==> (#[trigger] counts@[j]).count == bearers(views, names[j]),
        decreases sorted.len() - k,
    {
        assert(names[k as int] == sorted@[k as int]@);
        let count = count_bearers(tasks, sorted[k].as_str());
        counts.push(TagCount { tag: sorted[k].clone(), count });
        k += 1;
    }
    proof {
        assert(counted_tags(counts@) =~= names);
        assert forall|tag: Seq<char>|
            counted_tags(counts@).contains(tag) <==> exists|i: int|
                0 <= i < views.len() && (#[trigger] views[i]).tags.contains(tag) by {
            lemma_tags_in_use_complete(views, tag);
        }
    }
    Ok(counts)
}

/// Tells of each tag in use in the stored list, in ascending order, how
/// many tasks bear it.
pub fn execute<S: Storage>(storage: &S) -> (r: Result<Vec<TagCount>, TodoError>)
    ensures
        storage.has_model() ==> (match r {
            Ok(counts) => counts@.len() > 0 && counts_tags(storage.stored(), counts@),
            Err(e) => e is Storage || (e == TodoError::NoTagsFound && forall|i: int|
                0 <= i < storage.stored().len() ==> (#[trigger] storage.stored()[i]).tags.len() == 0),
        }),
        storage.has_model() && storage.is_reliable() ==> (r matches Err(e) ==> e == TodoError::NoTagsFound),
{
    let tasks = match storage.load() {
        Ok(tasks) => tasks,
        Err(e) => {
            return Err(e);
        },
    };
    count_tags(tasks.as_slice())
}

} // verus!
