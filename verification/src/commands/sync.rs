//! The commands that keep the task list in step with a Git remote.

use vstd::prelude::*;

verus! {

/// One of the commands of the synchronization.
#[derive(Clone, Debug, PartialEq, Eq)]
pub enum SyncCommand {
    /// Set up the repository and its remote.
    Init { remote: String },
    /// Commit the task list and push it to the remote.
    Push,
    /// Pull the task list from the remote.
    Pull,
    /// Show the state of the repository.
    Status,
}

} // verus!
