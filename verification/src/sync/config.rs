//! The configuration of the synchronization.

use vstd::prelude::*;
use crate::error::TodoError;

verus! {

/// The configuration of the synchronization, as it is kept beside the task
/// list.
#[derive(Clone, Debug, PartialEq, Eq)]
pub struct SyncConfig {
    /// The address of the Git remote.
    pub remote: String,
}

/// The configuration that was found, or the error that tells the user to
/// set the synchronization up first where none was.
pub fn require(found: Option<SyncConfig>) -> (r: Result<SyncConfig, TodoError>)
    ensures
        match found {
            Some(config) => r == Ok::<SyncConfig, TodoError>(config),
            None => r == Err::<SyncConfig, TodoError>(TodoError::SyncNotConfigured),
        },
{
    match found {
        Some(config) => Ok(config),
        None => Err(TodoError::SyncNotConfigured),
    }
}

} // verus!
