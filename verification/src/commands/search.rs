//! Searching the texts of the tasks for some words, whatever the case of
//! the letters.

use vstd::prelude::*;
use crate::commands::list::{narrowed_if, Listing};
use crate::commands::query::{all_numbers, keep, narrowed, number_all, numbers_in_list, Criterion};
use crate::error::TodoError;
use crate::models::filters::StatusFilter;
use crate::models::task::{task_views, Task, TaskView};
use crate::storage::Storage;

verus! {

/// The tasks whose text holds `query`, that pass the status filter, and
/// that bear the tag and belong to the project where these are given.
pub open spec fn found(
    tasks: Seq<TaskView>,
    query: String,
    tag: Option<String>,
    project: Option<String>,
    status: StatusFilter,
) -> Seq<usize> {
    let by_text = narrowed(tasks, all_numbers(tasks.len()), Criterion::Text(query));
    let by_status = narrowed(tasks, by_text, Criterion::Status(status));
    let by_tag = narrowed_if(
        tasks,
        by_status,
        match tag {
            Some(tag) => Some(Criterion::Tag(tag)),
            None => None,
        },
    );
    narrowed_if(
        tasks,
        by_tag,
        match project {
            Some(project) => Some(Criterion::Project(project)),
            None => None,
        },
    )
}

/// The title of the results of a search for `query`.
pub open spec fn search_title(query: Seq<char>) -> Seq<char> {
    "Search results for \u{22}"@ + query + "\u{22}"@
}

/// Searches the tasks for `query` and narrows what is found by the other
/// filters. Finding nothing is an error that names the query.
pub fn search_tasks(
    tasks: &[Task],
    query: &String,
    tag: &Option<String>,
    project: &Option<String>,
    status: StatusFilter,
) -> (r: Result<(String, Vec<usize>), TodoError>)
    ensures
        match r {
            Ok(results) => {
                &&& results.1@ == found(task_views(tasks@), *query, *tag, *project, status)
                &&& results.1@.len() > 0
                &&& numbers_in_list(results.1@, tasks@.len())
                &&& results.0@ == search_title(query@)
            },
            Err(e) => {
                &&& found(task_views(tasks@), *query, *tag, *project, status).len() == 0
                &&& e matches TodoError::NoSearchResults(q) && q@ == query@
            },
        },
{
    let all = number_all(tasks);
    let mut numbers = keep(tasks, &all, &Criterion::Text(query.clone()));
    numbers = keep(tasks, &numbers, &Criterion::Status(status));
    if let Some(t) = tag {
        numbers = keep(tasks, &numbers, &Criterion::Tag(t.clone()));
    }
    if let Some(p) = project {
        numbers = keep(tasks, &numbers, &Criterion::Project(p.clone()));
    }
    if numbers.len() == 0 {
        return Err(TodoError::NoSearchResults(query.clone()));
    }
    let mut title = "Search results for \u{22}".to_owned();
    title.append(query.as_str());
    title.append("\u{22}");
    Ok((title, numbers))
}

/// Searches the stored list for `query` and narrows what is found by the
/// other filters.
pub fn execute<S: Storage>(
    storage: &S,
    query: String,
    tag: Option<String>,
    project: Option<String>,
    status: StatusFilter,
) -> (r: Result<Listing, TodoError>)
    ensures
        storage.has_model() ==> (match r {
            Ok(listing) => {
                &&& task_views(listing.tasks@) == storage.stored()
                &&& listing.numbers@ == found(storage.stored(), query, tag, project, status)
                &&& listing.numbers@.len() > 0
                &&& numbers_in_list(listing.numbers@, listing.tasks@.len())
                &&& listing.title@ == search_title(query@)
            },
            Err(e) => e is Storage || {
                &&& found(storage.stored(), query, tag, project, status).len() == 0
                &&& e matches TodoError::NoSearchResults(q) && q@ == query@
            },
        }),
        storage.has_model() && storage.is_reliable() ==> (r is Ok <==> found(
            storage.stored(),
            query,
            tag,
            project,
            status,
        ).len() > 0),
        storage.has_model() && storage.is_reliable() ==> (r matches Err(e) ==> (e matches TodoError::NoSearchResults(q) && q@
            == query@)),
{
    let tasks = match storage.load() {
        Ok(tasks) => tasks,
        Err(e) => {
            return Err(e);
        },
    };
    let (title, numbers) = match search_tasks(tasks.as_slice(), &query, &tag, &project, status) {
        Ok(results) => results,
        Err(e) => {
            return Err(e);
        },
    };
    Ok(Listing { title, numbers, tasks })
}

} // verus!
