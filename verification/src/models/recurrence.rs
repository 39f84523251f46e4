//! Recurrence patterns and the date of the next occurrence.

use vstd::prelude::*;
use crate::date::{Date, Ymd};

verus! {

/// How often a task repeats once it is completed.
#[derive(Clone, Copy, Debug, PartialEq, Eq, Structural, Hash)]
pub enum Recurrence {
    /// The next day.
    Daily,
    /// The same weekday of the next week.
    Weekly,
    /// The same day of the next month.
    Monthly,
}

impl Recurrence {
    /// The calendar day on which a task due on `from` falls due next.
    pub open spec fn next_ymd(self, from: Ymd) -> Ymd {
        match self {
            Recurrence::Daily => from.plus_days(1),
            Recurrence::Weekly => from.plus_days(7),
            Recurrence::Monthly => from.plus_one_month(),
        }
    }

    /// The day on which a task due on `from` falls due next, as far as a
    /// date can hold it: a day that would lie after the last year a date can
    /// hold stays where it is.
    pub open spec fn next_due(self, from: Ymd) -> Ymd {
        if self.next_ymd(from).in_range() {
            self.next_ymd(from)
        } else {
            from
        }
    }

    /// The next due date of a task due on `from_date`, or `None` where it
    /// would lie after the last year a date can hold.
    ///
    /// Daily adds one day and weekly adds seven. Monthly keeps the day of the
    /// month and falls back to the last day of a shorter month.
    pub fn checked_next_date(&self, from_date: Date) -> (r: Option<Date>)
        ensures
            r is Some <==> self.next_ymd(from_date@).in_range(),
            r matches Some(d) ==> d@ == self.next_ymd(from_date@),
    {
        match self {
            Recurrence::Daily => from_date.checked_plus_days(1),
            Recurrence::Weekly => from_date.checked_plus_days(7),
            Recurrence::Monthly => from_date.checked_plus_one_month(),
        }
    }

    /// The next due date of a task due on `from_date`.
    ///
    /// Daily adds one day and weekly adds seven. Monthly keeps the day of the
    /// month and falls back to the last day of a shorter month. A date that
    /// would lie after the last year a date can hold stays where it is.
    pub fn next_date(&self, from_date: Date) -> (r: Date)
        ensures
            r@ == self.next_due(from_date@),
    {
        match self.checked_next_date(from_date) {
            Some(next) => next,
            None => from_date,
        }
    }

    /// The name of the pattern in lower case.
    pub fn description(&self) -> (r: &'static str)
        ensures
            r@ == match *self {
                Recurrence::Daily => "daily"@,
                Recurrence::Weekly => "weekly"@,
                Recurrence::Monthly => "monthly"@,
            },
    {
        match self {
            Recurrence::Daily => "daily",
            Recurrence::Weekly => "weekly",
            Recurrence::Monthly => "monthly",
        }
    }
}

} // verus!
