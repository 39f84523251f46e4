//! Tag normalization with fuzzy matching.
//!
//! A tag that a user types is held against the tags that the task list
//! already uses, in this order:
//!
//! 1. a tag that is already in use, letter for letter, stays as it is;
//! 2. one that differs from a tag in use only by case becomes that tag;
//! 3. one within a small edit distance of a tag in use becomes the closest
//!    such tag;
//! 4. any other tag is new and is taken as typed.
//!
//! The edit distance is Levenshtein's, taken between the lower-case forms. A
//! tag of up to four characters may be one edit away, a longer one two. Of
//! several candidates the first in the list of tags in use wins: at step 2
//! the first that matches, at step 3 the first among the closest.

use vstd::prelude::*;
use crate::models::task::{task_views, Task, TaskView};
use crate::text::{char_count, contains_text, eq_ignoring_case, lowercase, same_ignoring_case, text_views};

verus! {

/// The Levenshtein distance of two texts, as `strsim::levenshtein` computes
/// it: the least number of characters to insert, delete or replace to turn
/// one into the other.
pub uninterp spec fn levenshtein_distance(a: Seq<char>, b: Seq<char>) -> nat;

/// Calls `strsim::levenshtein`. Trusted: the result depends on the two texts
/// alone. What the distance is on given texts is not stated here.
#[verifier::external_body]
fn levenshtein(a: &str, b: &str) -> (r: usize)
    ensures
        r == levenshtein_distance(a@, b@),
{
    strsim::levenshtein(a, b)
}

/// What became of a tag that was held against the tags in use.
#[derive(Debug, PartialEq, Eq, Clone)]
pub enum NormalizeResult {
    /// The tag is in use exactly as typed.
    Unchanged,
    /// The tag `from` stands for the tag `to`, which is in use.
    Normalized { from: String, to: String },
    /// The tag is not in use, nor close to one that is.
    New,
}

/// The mathematical value of a [`NormalizeResult`].
pub ghost enum NormalizeView {
    Unchanged,
    Normalized { from: Seq<char>, to: Seq<char> },
    New,
}

impl View for NormalizeResult {
    type V = NormalizeView;

    open spec fn view(&self) -> NormalizeView {
        match self {
            NormalizeResult::Unchanged => NormalizeView::Unchanged,
            NormalizeResult::Normalized { from, to } => NormalizeView::Normalized {
                from: from@,
                to: to@,
            },
            NormalizeResult::New => NormalizeView::New,
        }
    }
}

/// How far a tag may be from a tag in use and still stand for it: one edit
/// for a tag of up to four characters, two for a longer one.
pub open spec fn fuzzy_threshold(tag: Seq<char>) -> nat {
    if tag.len() <= 4 {
        1
    } else {
        2
    }
}

/// The distance of a typed tag from a tag in use: the Levenshtein distance
/// of their lower-case forms.
pub open spec fn tag_distance(tag: Seq<char>, other: Seq<char>) -> nat {
    levenshtein_distance(lowercase(tag), lowercase(other))
}

/// The distances of `tag` from each of the tags in use.
pub open spec fn tag_distances(tag: Seq<char>, existing: Seq<Seq<char>>) -> Seq<nat> {
    existing.map_values(|other: Seq<char>| tag_distance(tag, other))
}

/// `i` is the first index of `existing` whose tag differs from `tag` by case
/// at most.
pub open spec fn is_first_case_match(tag: Seq<char>, existing: Seq<Seq<char>>, i: int) -> bool {
    &&& 0 <= i < existing.len()
    &&& same_ignoring_case(existing[i], tag)
    &&& forall|j: int| 0 <= j < i ==> !same_ignoring_case(#[trigger] existing[j], tag)
}

/// `i` is the index of the closest entry within `threshold`: no entry is
/// smaller, and no earlier entry is as small.
pub open spec fn is_closest(distances: Seq<nat>, threshold: nat, i: int) -> bool {
    &&& 0 <= i < distances.len()
    &&& distances[i] <= threshold
    &&& forall|j: int| 0 <= j < distances.len() ==> distances[i] <= #[trigger] distances[j]
    &&& forall|j: int| 0 <= j < i ==> distances[i] < #[trigger] distances[j]
}

/// What becomes of `tag` when it is held against the tags in use.
pub open spec fn normalization(tag: Seq<char>, existing: Seq<Seq<char>>) -> NormalizeView {
    let distances = tag_distances(tag, existing);
    let threshold = fuzzy_threshold(tag);
    if existing.contains(tag) {
        NormalizeView::Unchanged
    } else if exists|i: int| is_first_case_match(tag, existing, i) {
        let i = choose|i: int| is_first_case_match(tag, existing, i);
        NormalizeView::Normalized { from: tag, to: existing[i] }
    } else if exists|i: int| is_closest(distances, threshold, i) {
        let i = choose|i: int| is_closest(distances, threshold, i);
        NormalizeView::Normalized { from: tag, to: existing[i] }
    } else {
        NormalizeView::New
    }
}

/// The index of the smallest distance that is within `threshold`, the first
/// of them where several are equally small, or `None` where every distance
/// is over the threshold.
pub fn pick_closest(distances: &Vec<usize>, threshold: usize) -> (r: Option<usize>)
    ensures
        r matches Some(i) ==> is_closest(
            distances@.map_values(|d: usize| d as nat),
            threshold as nat,
            i as int,
        ),
        r is None ==> forall|j: int| 0 <= j < distances.len() ==> distances[j] > threshold,
{
    let ghost nats = distances@.map_values(|d: usize| d as nat);
    let mut best: Option<usize> = None;
    let mut i: usize = 0;
    while i < distances.len()
        invariant
            i <= distances.len(),
            nats == distances@.map_values(|d: usize| d as nat),
            best is None ==> forall|j: int| 0 <= j < i ==> distances[j] > threshold,
            best matches Some(b) ==> {
                &&& b < i
                &&& distances[b as int] <= threshold
                &&& forall|j: int| 0 <= j < i ==> distances[b as int] <= distances[j]
                &&& forall|j: int| 0 <= j < b ==> distances[b as int] < distances[j]
            },
        decreases distances.len() - i,
    {
        let d = distances[i];
        if d <= threshold {
            match best {
                None => {
                    best = Some(i);
                },
                Some(b) => {
                    if d < distances[b] {
                        best = Some(i);
                    }
                },
            }
        }
        i += 1;
    }
    proof {
        if let Some(b) = best {
            assert forall|j: int| 0 <= j < nats.len() implies nats[b as int] <= #[trigger] nats[j] by {
                assert(nats[j] == distances[j] as nat);
            }
            assert forall|j: int| 0 <= j < b implies nats[b as int] < #[trigger] nats[j] by {
                assert(nats[j] == distances[j] as nat);
            }
        }
    }
    best
}

/// The index of the first tag in use that differs from `tag` by case at
/// most, or `None` where there is none.
pub fn find_case_match(tag: &str, existing_tags: &[String]) -> (r: Option<usize>)
    ensures
        r matches Some(i) ==> is_first_case_match(tag@, text_views(existing_tags@), i as int),
        r is None ==> forall|j: int|
            0 <= j < existing_tags.len() ==> !same_ignoring_case(
                #[trigger] text_views(existing_tags@)[j],
                tag@,
            ),
{
    let ghost existing = text_views(existing_tags@);
    let mut i: usize = 0;
    while i < existing_tags.len()
        invariant
            i <= existing_tags.len(),
            existing == text_views(existing_tags@),
            forall|j: int| 0 <= j < i ==> !same_ignoring_case(#[trigger] existing[j], tag@),
        decreases existing_tags.len() - i,
    {
        assert(existing[i as int] == existing_tags@[i as int]@);
        if eq_ignoring_case(existing_tags[i].as_str(), tag) {
            return Some(i);
        }
        i += 1;
    }
    None
}

/// The distances of `tag` from each of the tags in use.
pub fn distances_to(tag: &str, existing_tags: &[String]) -> (r: Vec<usize>)
    ensures
        r@.map_values(|d: usize| d as nat) == tag_distances(tag@, text_views(existing_tags@)),
{
    let ghost existing = text_views(existing_tags@);
    let tag_lower = tag.to_lowercase();
    let mut out: Vec<usize> = Vec::new();
    let mut i: usize = 0;
    while i < existing_tags.len()
        invariant
            i <= existing_tags.len(),
            existing == text_views(existing_tags@),
            tag_lower@ == lowercase(tag@),
            out@.len() == i,
            forall|j: int| 0 <= j < i ==> out@[j] as nat == tag_distance(tag@, existing[j]),
        decreases existing_tags.len() - i,
    {
        assert(existing[i as int] == existing_tags@[i as int]@);
        let other_lower = existing_tags[i].as_str().to_lowercase();
        out.push(levenshtein(tag_lower.as_str(), other_lower.as_str()));
        i += 1;
    }
    assert(out@.map_values(|d: usize| d as nat) =~= tag_distances(tag@, existing));
    out
}

/// Each index is the first to match by case at most one way.
proof fn lemma_first_case_match_unique(tag: Seq<char>, existing: Seq<Seq<char>>, i: int, j: int)
    requires
        is_first_case_match(tag, existing, i),
        is_first_case_match(tag, existing, j),
    ensures
        i == j,
{
}

/// At most one index is the closest.
proof fn lemma_closest_unique(distances: Seq<nat>, threshold: nat, i: int, j: int)
    requires
        is_closest(distances, threshold, i),
        is_closest(distances, threshold, j),
    ensures
        i == j,
{
}

/// Holds one tag against the tags in use and tells what becomes of it.
pub fn normalize_tag(tag: &str, existing_tags: &[String]) -> (r: NormalizeResult)
    ensures
        r@ == normalization(tag@, text_views(existing_tags@)),
{
    let ghost existing = text_views(existing_tags@);
    if contains_text(existing_tags, tag) {
        return NormalizeResult::Unchanged;
    }
    match find_case_match(tag, existing_tags) {
        Some(i) => {
            proof {
                let chosen = choose|k: int| is_first_case_match(tag@, existing, k);
                lemma_first_case_match_unique(tag@, existing, i as int, chosen);
                assert(existing[i as int] == existing_tags@[i as int]@);
            }
            return NormalizeResult::Normalized {
                from: tag.to_owned(),
                to: existing_tags[i].clone(),
            };
        },
        None => {},
    }
    let threshold: usize = if char_count(tag) <= 4 {
        1
    } else {
        2
    };
    let distances = distances_to(tag, existing_tags);
    let ghost nats = tag_distances(tag@, existing);
    match pick_closest(&distances, threshold) {
        Some(i) => {
            proof {
                let chosen = choose|k: int| is_closest(nats, threshold as nat, k);
                lemma_closest_unique(nats, threshold as nat, i as int, chosen);
                assert(existing[i as int] == existing_tags@[i as int]@);
            }
            NormalizeResult::Normalized { from: tag.to_owned(), to: existing_tags[i].clone() }
        },
        None => {
            proof {
                assert forall|k: int| !is_closest(nats, threshold as nat, k) by {
                    if 0 <= k < nats.len() {
                        assert(nats[k] == distances@[k] as nat);
                    }
                }
            }
            NormalizeResult::New
        },
    }
}

/// The tag that is stored for a typed tag: the tag in use that it stands
/// for, or the tag as typed.
pub open spec fn canonical(tag: Seq<char>, existing: Seq<Seq<char>>) -> Seq<char> {
    match normalization(tag, existing) {
        NormalizeView::Normalized { from, to } => to,
        _ => tag,
    }
}

/// The note that tells a user that the tag `from` was replaced by `to`.
pub open spec fn notice(from: Seq<char>, to: Seq<char>) -> Seq<char> {
    "'"@ + from + "' \u{2192} '"@ + to + "'"@
}

/// The notes for the tags of `tags` that were replaced, in order.
pub open spec fn notices(tags: Seq<Seq<char>>, existing: Seq<Seq<char>>) -> Seq<Seq<char>>
    decreases tags.len(),
{
    if tags.len() == 0 {
        Seq::empty()
    } else {
        let rest = notices(tags.drop_last(), existing);
        match normalization(tags.last(), existing) {
            NormalizeView::Normalized { from, to } => rest.push(notice(from, to)),
            _ => rest,
        }
    }
}

/// Holds each tag of `tags` against the tags in use. Returns the tags to
/// store, in the order given, and a note for each tag that was replaced.
pub fn normalize_tags(tags: Vec<String>, existing_tags: &[String]) -> (r: (Vec<String>, Vec<String>))
    ensures
        text_views(r.0@) == text_views(tags@).map_values(
            |tag: Seq<char>| canonical(tag, text_views(existing_tags@)),
        ),
        text_views(r.1@) == notices(text_views(tags@), text_views(existing_tags@)),
{
    let ghost typed = text_views(tags@);
    let ghost existing = text_views(existing_tags@);
    let mut normalized: Vec<String> = Vec::new();
    let mut messages: Vec<String> = Vec::new();
    let mut i: usize = 0;
    proof {
        assert(typed.subrange(0, 0) =~= Seq::<Seq<char>>::empty());
    }
    while i < tags.len()
        invariant
            i <= tags.len(),
            typed == text_views(tags@),
            existing == text_views(existing_tags@),
            normalized@.len() == i,
            forall|k: int| 0 <= k < i ==> normalized@[k]@ == canonical(typed[k], existing),
            text_views(messages@) == notices(typed.subrange(0, i as int), existing),
        decreases tags.len() - i,
    {
        let ghost before = text_views(messages@);
        assert(typed[i as int] == tags@[i as int]@);
        proof {
            let next = typed.subrange(0, i + 1);
            assert(next.drop_last() =~= typed.subrange(0, i as int));
            assert(next.last() == typed[i as int]);
        }
        match normalize_tag(tags[i].as_str(), existing_tags) {
            NormalizeResult::Normalized { from, to } => {
                let mut message = "'".to_owned();
                message.append(from.as_str());
                message.append("' \u{2192} '");
                message.append(to.as_str());
                message.append("'");
                messages.push(message);
                normalized.push(to);
                assert(text_views(messages@) =~= before.push(notice(from@, to@)));
            },
            _ => {
                normalized.push(tags[i].clone());
            },
        }
        i += 1;
    }
    proof {
        assert(typed.subrange(0, i as int) =~= typed);
        assert(text_views(normalized@) =~= typed.map_values(
            |tag: Seq<char>| canonical(tag, existing),
        ));
    }
    (normalized, messages)
}

/// `tags` added to `acc`, each one unless it is already there.
pub open spec fn with_new_tags(acc: Seq<Seq<char>>, tags: Seq<Seq<char>>) -> Seq<Seq<char>>
    decreases tags.len(),
{
    if tags.len() == 0 {
        acc
    } else {
        let rest = with_new_tags(acc, tags.drop_last());
        if rest.contains(tags.last()) {
            rest
        } else {
            rest.push(tags.last())
        }
    }
}

/// The tags that the tasks use, each once, in the order in which they first
/// occur.
pub open spec fn tags_in_use(tasks: Seq<TaskView>) -> Seq<Seq<char>>
    decreases tasks.len(),
{
    if tasks.len() == 0 {
        Seq::empty()
    } else {
        with_new_tags(tags_in_use(tasks.drop_last()), tasks.last().tags)
    }
}

/// Collects the tags that the tasks use, each once, in the order in which
/// they first occur.
pub fn collect_existing_tags(tasks: &[Task]) -> (r: Vec<String>)
    ensures
        text_views(r@) == tags_in_use(task_views(tasks@)),
{
    let ghost views = task_views(tasks@);
    let mut tags: Vec<String> = Vec::new();
    let mut i: usize = 0;
    proof {
        assert(views.subrange(0, 0) =~= Seq::<TaskView>::empty());
    }
    while i < tasks.len()
        invariant
            i <= tasks.len(),
            views == task_views(tasks@),
            text_views(tags@) == tags_in_use(views.subrange(0, i as int)),
        decreases tasks.len() - i,
    {
        let task = &tasks[i];
        let ghost base = text_views(tags@);
        let ghost task_tags = text_views(task.tags@);
        let mut k: usize = 0;
        proof {
            assert(task_tags.subrange(0, 0) =~= Seq::<Seq<char>>::empty());
        }
        while k < task.tags.len()
            invariant
                k <= task.tags.len(),
                task_tags == text_views(task.tags@),
                text_views(tags@) == with_new_tags(base, task_tags.subrange(0, k as int)),
            decreases task.tags.len() - k,
        {
            let ghost before = text_views(tags@);
            proof {
                let next = task_tags.subrange(0, k + 1);
                assert(next.drop_last() =~= task_tags.subrange(0, k as int));
                assert(next.last() == task.tags@[k as int]@);
            }
            if !contains_text(tags.as_slice(), task.tags[k].as_str()) {
                tags.push(task.tags[k].clone());
                assert(text_views(tags@) =~= before.push(task.tags@[k as int]@));
            }
            k += 1;
        }
        proof {
            assert(task_tags.subrange(0, k as int) =~= task_tags);
            let next = views.subrange(0, i + 1);
            assert(next.drop_last() =~= views.subrange(0, i as int));
            assert(next.last().tags == task_tags);
        }
        i += 1;
    }
    proof {
        assert(views.subrange(0, i as int) =~= views);
    }
    tags
}

/// No tag occurs twice among the tags in use.
pub proof fn lemma_tags_in_use_distinct(tasks: Seq<TaskView>)
    ensures
        tags_in_use(tasks).no_duplicates(),
    decreases tasks.len(),
{
    if tasks.len() > 0 {
        lemma_tags_in_use_distinct(tasks.drop_last());
        lemma_with_new_tags(tags_in_use(tasks.drop_last()), tasks.last().tags);
    }
}

/// A tag is among the tags in use exactly when some task bears it.
pub proof fn lemma_tags_in_use_complete(tasks: Seq<TaskView>, tag: Seq<char>)
    ensures
        tags_in_use(tasks).contains(tag) <==> exists|i: int|
            0 <= i < tasks.len() && (#[trigger] tasks[i]).tags.contains(tag),
    decreases tasks.len(),
{
    if tasks.len() > 0 {
        let rest = tasks.drop_last();
        lemma_tags_in_use_complete(rest, tag);
        lemma_tags_in_use_distinct(rest);
        lemma_with_new_tags(tags_in_use(rest), tasks.last().tags);
        if tags_in_use(tasks).contains(tag) {
            if tags_in_use(rest).contains(tag) {
                let i = choose|i: int| 0 <= i < rest.len() && (#[trigger] rest[i]).tags.contains(tag);
                assert(tasks[i].tags.contains(tag));
            } else {
                assert(tasks[tasks.len() - 1].tags.contains(tag));
            }
        }
        if exists|i: int| 0 <= i < tasks.len() && (#[trigger] tasks[i]).tags.contains(tag) {
            let i = choose|i: int| 0 <= i < tasks.len() && (#[trigger] tasks[i]).tags.contains(tag);
            if i < rest.len() {
                assert(rest[i].tags.contains(tag));
            }
        }
    }
}

/// Adding tags one by one, each unless it is there, keeps the tags
/// distinct, keeps what was there, and brings in exactly the tags added.
pub proof fn lemma_with_new_tags(acc: Seq<Seq<char>>, tags: Seq<Seq<char>>)
    requires
        acc.no_duplicates(),
    ensures
        with_new_tags(acc, tags).no_duplicates(),
        forall|t: Seq<char>| #[trigger]
            with_new_tags(acc, tags).contains(t) <==> acc.contains(t) || tags.contains(t),
    decreases tags.len(),
{
    let out = with_new_tags(acc, tags);
    if tags.len() > 0 {
        let rest = with_new_tags(acc, tags.drop_last());
        lemma_with_new_tags(acc, tags.drop_last());
        let last = tags.last();
        assert forall|t: Seq<char>| #[trigger] out.contains(t) <==> acc.contains(t) || tags.contains(
            t,
        ) by {
            if tags.contains(t) {
                let k = choose|k: int| 0 <= k < tags.len() && tags[k] == t;
                if k < tags.len() - 1 {
                    assert(tags.drop_last()[k] == t);
                    assert(tags.drop_last().contains(t));
                }
            }
            if tags.drop_last().contains(t) {
                let k = choose|k: int| 0 <= k < tags.drop_last().len() && tags.drop_last()[k] == t;
                assert(tags[k] == t);
            }
            assert(tags.contains(last)) by {
                assert(tags[tags.len() - 1] == last);
            }
            if !rest.contains(last) {
                assert(out == rest.push(last));
                if out.contains(t) {
                    let k = choose|k: int| 0 <= k < out.len() && out[k] == t;
                    if k < rest.len() {
                        assert(rest[k] == t);
                        assert(rest.contains(t));
                    }
                }
                if rest.contains(t) {
                    let k = choose|k: int| 0 <= k < rest.len() && rest[k] == t;
                    assert(out[k] == t);
                }
                if t == last {
                    assert(out[out.len() - 1] == t);
                }
            }
        }
        if !rest.contains(last) {
            assert forall|a: int, b: int| 0 <= a < out.len() && 0 <= b < out.len() && a != b implies out[a]
                != out[b] by {
                if a < rest.len() && b < rest.len() {
                    assert(out[a] == rest[a] && out[b] == rest[b]);
                } else if a < rest.len() {
                    assert(rest.contains(rest[a]));
                } else {
                    assert(rest.contains(rest[b]));
                }
            }
        }
    }
}

} // verus!
