//! Merging the local task list with the one of the remote.
//!
//! Tasks are matched by their identifiers. For now the local list wins as
//! a whole: every local task is kept and nothing is taken from the remote.

use vstd::prelude::*;
use crate::models::task::Task;

verus! {

/// The outcome of a merge.
#[derive(Clone, Debug, PartialEq, Eq)]
pub struct MergeResult {
    /// The merged list.
    pub tasks: Vec<Task>,
    /// How many tasks were taken over from the remote.
    pub added: usize,
    /// How many tasks were replaced by their remote version.
    pub updated: usize,
    /// How many local tasks were kept as they were.
    pub kept: usize,
}

/// Merges `remote` into `local`. The local list is kept as it is.
pub fn merge(local: Vec<Task>, remote: Vec<Task>) -> (r: MergeResult)
    ensures
        r.tasks == local,
        r.added == 0,
        r.updated == 0,
        r.kept == local@.len(),
{
    let kept = local.len();
    MergeResult { tasks: local, added: 0, updated: 0, kept }
}

} // verus!
