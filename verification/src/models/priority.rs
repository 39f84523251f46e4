//! Task priority.

use vstd::prelude::*;

verus! {

/// How urgent a task is. Priority only orders and labels tasks.
#[derive(Clone, Copy, Debug, PartialEq, Eq, Structural, Hash)]
pub enum Priority {
    /// Urgent and important.
    High,
    /// The usual priority.
    Medium,
    /// Nice to have.
    Low,
}

impl Priority {
    /// The rank of the priority: the mathematical value of [`Priority::order`].
    pub open spec fn rank(self) -> int {
        match self {
            Priority::High => 0,
            Priority::Medium => 1,
            Priority::Low => 2,
        }
    }

    /// The sort rank of this priority. A lower number sorts first.
    pub fn order(&self) -> (r: u8)
        ensures
            r == self.rank(),
    {
        match self {
            Priority::High => 0,
            Priority::Medium => 1,
            Priority::Low => 2,
        }
    }

    /// The single letter that stands for this priority in a table.
    pub fn letter(&self) -> (r: char)
        ensures
            r == match *self {
                Priority::High => 'H',
                Priority::Medium => 'M',
                Priority::Low => 'L',
            },
    {
        match self {
            Priority::High => 'H',
            Priority::Medium => 'M',
            Priority::Low => 'L',
        }
    }
}

} // verus!
