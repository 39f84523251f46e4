//! What is shown of the state of the Git repository that holds the task
//! list. Running Git is left to the caller.

use vstd::prelude::*;
use crate::text::{is_substring, text_contains};

verus! {

/// The name of the file that holds the task list.
pub open spec fn tasks_file() -> Seq<char> {
    "todos.json"@
}

/// The summary of the state of the repository: the branch, the last
/// commit, and whether the task list has changes that are not committed.
pub open spec fn status_text(branch: Seq<char>, last_commit: Seq<char>, changed: bool) -> Seq<char> {
    "Branch:      "@ + branch + "\n"@ + "Last commit: "@ + last_commit + "\n"@ + (if changed {
        "todos.json:  modified (not yet committed)"@
    } else {
        "todos.json:  clean"@
    })
}

/// The summary of the state of the repository, from the name of the
/// branch, the one-line description of the last commit, and the list of
/// changed files as Git prints it, one file to a line.
///
/// The task list counts as changed where a line of that list names its
/// file. The name holds no line break, so that is where the list as a
/// whole holds the name.
pub fn status(branch: &str, last_commit: &str, changed_files: &str) -> (r: String)
    ensures
        r@ == status_text(branch@, last_commit@, is_substring(tasks_file(), changed_files@)),
{
    let changed = text_contains(changed_files, "todos.json");
    let mut out = "Branch:      ".to_owned();
    out.append(branch);
    out.append("\n");
    out.append("Last commit: ");
    out.append(last_commit);
    out.append("\n");
    if changed {
        out.append("todos.json:  modified (not yet committed)");
    } else {
        out.append("todos.json:  clean");
    }
    assert(out@ =~= status_text(branch@, last_commit@, changed));
    out
}

} // verus!
