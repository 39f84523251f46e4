//! Calendar dates in the proleptic Gregorian calendar.
//!
//! A [`Date`] holds a year, a month and a day as plain integers. Its view is a
//! [`Ymd`], the same triple over mathematical integers, on which the calendar
//! rules are stated. Date arithmetic itself is done by `chrono`.

use vstd::prelude::*;

verus! {

/// The earliest year a [`Date`] can hold.
pub const MIN_YEAR: i32 = -262143;

/// The latest year a [`Date`] can hold.
pub const MAX_YEAR: i32 = 262142;

/// Whether `year` has a 29th of February.
pub open spec fn is_leap_year(year: int) -> bool {
    year % 4 == 0 && (year % 100 != 0 || year % 400 == 0)
}

/// The number of days of `month` (1 to 12) in `year`.
pub open spec fn days_in_month(year: int, month: int) -> int {
    if month == 2 {
        if is_leap_year(year) {
            29
        } else {
            28
        }
    } else if month == 4 || month == 6 || month == 9 || month == 11 {
        30
    } else {
        31
    }
}

/// A calendar date over mathematical integers: the model of a [`Date`].
pub ghost struct Ymd {
    pub year: int,
    pub month: int,
    pub day: int,
}

impl Ymd {
    /// The day exists in the calendar.
    pub open spec fn valid(self) -> bool {
        &&& 1 <= self.month <= 12
        &&& 1 <= self.day <= days_in_month(self.year, self.month)
    }

    /// The year is one that a [`Date`] can hold.
    pub open spec fn in_range(self) -> bool {
        MIN_YEAR <= self.year <= MAX_YEAR
    }

    /// Chronological order: `self` is strictly earlier than `other`.
    pub open spec fn before(self, other: Ymd) -> bool {
        ||| self.year < other.year
        ||| self.year == other.year && self.month < other.month
        ||| self.year == other.year && self.month == other.month && self.day < other.day
    }

    /// The day after `self`.
    pub open spec fn next_day(self) -> Ymd {
        if self.day < days_in_month(self.year, self.month) {
            Ymd { year: self.year, month: self.month, day: self.day + 1 }
        } else if self.month < 12 {
            Ymd { year: self.year, month: self.month + 1, day: 1 }
        } else {
            Ymd { year: self.year + 1, month: 1, day: 1 }
        }
    }

    /// The day `n` days after `self`.
    pub open spec fn plus_days(self, n: nat) -> Ymd
        decreases n,
    {
        if n == 0 {
            self
        } else {
            self.next_day().plus_days((n - 1) as nat)
        }
    }

    /// The same day of the following month, or that month's last day where
    /// the month is too short to have it.
    pub open spec fn plus_one_month(self) -> Ymd {
        let year = if self.month == 12 {
            self.year + 1
        } else {
            self.year
        };
        let month = if self.month == 12 {
            1
        } else {
            self.month + 1
        };
        let last = days_in_month(year, month);
        Ymd { year, month, day: if self.day > last { last } else { self.day } }
    }
}

/// A calendar date: a day that exists, in a year from [`MIN_YEAR`] to
/// [`MAX_YEAR`].
#[derive(Clone, Copy, Debug, PartialEq, Eq, Structural, Hash)]
pub struct Date {
    year: i32,
    month: u32,
    day: u32,
}

impl View for Date {
    type V = Ymd;

    closed spec fn view(&self) -> Ymd {
        Ymd { year: self.year as int, month: self.month as int, day: self.day as int }
    }
}

impl Date {
    /// The date is a day of the calendar, in a year between [`MIN_YEAR`] and
    /// [`MAX_YEAR`]. Every date that a program holds is.
    #[verifier::type_invariant]
    pub open spec fn wf(self) -> bool {
        self@.valid() && self@.in_range()
    }

    /// The date `year`-`month`-`day`, or `None` where the calendar has no
    /// such day or the year is out of range.
    pub fn from_ymd_opt(year: i32, month: u32, day: u32) -> (r: Option<Date>)
        ensures
            r is Some <==> (Ymd { year: year as int, month: month as int, day: day as int }).valid()
                && MIN_YEAR <= year <= MAX_YEAR,
            r matches Some(d) ==> d@ == (Ymd {
                year: year as int,
                month: month as int,
                day: day as int,
            }),
    {
        if chrono_is_date(year, month, day) {
            Some(Date { year, month, day })
        } else {
            None
        }
    }

    /// The year of the date.
    pub fn year(&self) -> (r: i32)
        ensures
            r == self@.year,
    {
        self.year
    }

    /// The month of the date, from 1 to 12.
    pub fn month(&self) -> (r: u32)
        ensures
            r == self@.month,
            1 <= r <= 12,
    {
        proof {
            use_type_invariant(self);
        }
        self.month
    }

    /// The day of the month, from 1 to 31.
    pub fn day(&self) -> (r: u32)
        ensures
            r == self@.day,
            1 <= r <= 31,
    {
        proof {
            use_type_invariant(self);
        }
        self.day
    }

    /// Whether `self` is strictly earlier than `other`.
    pub fn is_before(&self, other: &Date) -> (r: bool)
        ensures
            r == self@.before(other@),
    {
        self.year < other.year || (self.year == other.year && (self.month < other.month || (
        self.month == other.month && self.day < other.day)))
    }

    /// Whether `self` and `other` are the same day.
    pub fn is_same(&self, other: &Date) -> (r: bool)
        ensures
            r == (self@ == other@),
    {
        self.year == other.year && self.month == other.month && self.day == other.day
    }

    /// The date `days` days after `self`, or `None` where that day lies
    /// after the last year a date can hold.
    pub fn checked_plus_days(self, days: u32) -> (r: Option<Date>)
        ensures
            r is Some <==> self@.plus_days(days as nat).in_range(),
            r matches Some(d) ==> d@ == self@.plus_days(days as nat),
    {
        proof {
            use_type_invariant(self);
        }
        chrono_plus_days(self, days)
    }

    /// The same day one month later, clamped to the last day of a shorter
    /// month, or `None` where that day lies after the last year a date can hold.
    pub fn checked_plus_one_month(self) -> (r: Option<Date>)
        ensures
            r is Some <==> self@.plus_one_month().in_range(),
            r matches Some(d) ==> d@ == self@.plus_one_month(),
    {
        proof {
            use_type_invariant(self);
        }
        chrono_plus_one_month(self)
    }

    /// The date `days` days before `self`, or `None` where that day lies
    /// before the first year a date can hold.
    pub fn checked_minus_days(self, days: u32) -> (r: Option<Date>)
        ensures
            r matches Some(d) ==> d@.plus_days(days as nat) == self@,
            r is None ==> forall|d: Ymd|
                d.valid() && d.in_range() ==> #[trigger] d.plus_days(days as nat) != self@,
    {
        proof {
            use_type_invariant(self);
        }
        chrono_minus_days(self, days)
    }

    /// The number of days from `since` to `self`: negative where `self` is
    /// the earlier of the two.
    pub fn days_since(self, since: Date) -> (r: i64)
        ensures
            days_apart(since@, self@, r as int),
    {
        proof {
            use_type_invariant(self);
            use_type_invariant(since);
        }
        chrono_days_between(self, since)
    }

    /// Today's date, by the local clock. Whatever the clock says, the date
    /// is a day of the calendar in a year that a date can hold; which day
    /// it is cannot be said beforehand.
    pub fn today() -> (r: Date)
        ensures
            r.wf(),
    {
        today()
    }
}

/// `to` lies `days` days after `from`, or, where `days` is negative, `from`
/// lies `-days` days after `to`.
pub open spec fn days_apart(from: Ymd, to: Ymd, days: int) -> bool {
    if days >= 0 {
        from.plus_days(days as nat) == to
    } else {
        to.plus_days((-days) as nat) == from
    }
}

/// The day after a day of the calendar is a day of the calendar.
pub proof fn lemma_next_day_valid(d: Ymd)
    requires
        d.valid(),
    ensures
        d.next_day().valid(),
{
}

/// Any number of days after a day of the calendar is a day of the calendar.
pub proof fn lemma_plus_days_valid(d: Ymd, n: nat)
    requires
        d.valid(),
    ensures
        d.plus_days(n).valid(),
    decreases n,
{
    if n > 0 {
        lemma_next_day_valid(d);
        lemma_plus_days_valid(d.next_day(), (n - 1) as nat);
    }
}

/// Counting `a + b` days on is counting `a` days and then `b` more.
pub proof fn lemma_plus_days_add(d: Ymd, a: nat, b: nat)
    ensures
        d.plus_days(a + b) == d.plus_days(a).plus_days(b),
    decreases a,
{
    if a > 0 {
        lemma_plus_days_add(d.next_day(), (a - 1) as nat, b);
        assert(d.plus_days(a + b) == d.next_day().plus_days((a + b - 1) as nat));
    }
}

/// A day lies strictly before every later day counted from it.
pub proof fn lemma_before_plus_days(d: Ymd, n: nat)
    requires
        d.valid(),
        n > 0,
    ensures
        d.before(d.plus_days(n)),
    decreases n,
{
    lemma_next_day_valid(d);
    if n > 1 {
        lemma_before_plus_days(d.next_day(), (n - 1) as nat);
    } else {
        assert(d.next_day().plus_days(0) == d.next_day());
    }
}

/// Counting on from one day, different numbers of days reach different days.
pub proof fn lemma_plus_days_unique(d: Ymd, a: nat, b: nat)
    requires
        d.valid(),
        d.plus_days(a) == d.plus_days(b),
    ensures
        a == b,
{
    if a < b {
        lemma_plus_days_add(d, a, (b - a) as nat);
        lemma_plus_days_valid(d, a);
        lemma_before_plus_days(d.plus_days(a), (b - a) as nat);
    } else if b < a {
        lemma_plus_days_add(d, b, (a - b) as nat);
        lemma_plus_days_valid(d, b);
        lemma_before_plus_days(d.plus_days(b), (a - b) as nat);
    }
}

/// A day between two days that a date can hold is one that a date can
/// hold: counting `a` days on from such a day, and `b` more to another,
/// passes a day of the calendar in a year between theirs.
pub proof fn lemma_day_between_in_range(from: Ymd, a: nat, b: nat)
    requires
        from.valid(),
        from.in_range(),
        from.plus_days(a + b).in_range(),
    ensures
        from.plus_days(a).valid(),
        from.plus_days(a).in_range(),
        from.plus_days(a).plus_days(b) == from.plus_days(a + b),
{
    lemma_plus_days_valid(from, a);
    lemma_plus_days_add(from, a, b);
    let between = from.plus_days(a);
    if a > 0 {
        lemma_before_plus_days(from, a);
    }
    if b > 0 {
        lemma_before_plus_days(between, b);
    }
}

/// The number of days between two days is determined by them: where `to`
/// lies `days` days from `from`, an `n`th day after `from` is `to` exactly
/// when `n` is `days`.
pub proof fn lemma_days_apart_exact(from: Ymd, to: Ymd, days: int, n: nat)
    requires
        from.valid(),
        to.valid(),
        days_apart(from, to, days),
    ensures
        from.plus_days(n) == to <==> n == days,
{
    if from.plus_days(n) == to {
        if days >= 0 {
            lemma_plus_days_unique(from, n, days as nat);
        } else {
            lemma_before_plus_days(to, (-days) as nat);
            if n > 0 {
                lemma_before_plus_days(from, n);
            }
        }
    }
}

/// One month after a day of the calendar is a day of the calendar, in the
/// following month and no later in it than the day started from.
pub proof fn lemma_plus_one_month_valid(d: Ymd)
    requires
        d.valid(),
    ensures
        d.plus_one_month().valid(),
        d.plus_one_month().day <= d.day,
        d.before(d.plus_one_month()),
{
}

/// Calls `chrono::NaiveDate::from_ymd_opt` and reports whether it found the
/// date. Trusted: chrono accepts exactly the days that exist in the proleptic
/// Gregorian calendar, in the years from [`MIN_YEAR`] to [`MAX_YEAR`].
#[verifier::external_body]
fn chrono_is_date(year: i32, month: u32, day: u32) -> (r: bool)
    ensures
        r == ((Ymd { year: year as int, month: month as int, day: day as int }).valid() && MIN_YEAR
            <= year <= MAX_YEAR),
{
    chrono::NaiveDate::from_ymd_opt(year, month, day).is_some()
}

/// Calls `chrono::NaiveDate::checked_add_signed` with a whole number of days.
/// Trusted: chrono returns the day that many days later in the proleptic
/// Gregorian calendar, and `None` exactly where that day lies after the last
/// year it can hold.
#[verifier::external_body]
fn chrono_plus_days(date: Date, days: u32) -> (r: Option<Date>)
    requires
        date.wf(),
    ensures
        r is Some <==> date@.plus_days(days as nat).in_range(),
        r matches Some(d) ==> d@ == date@.plus_days(days as nat),
{
    let from = chrono::NaiveDate::from_ymd_opt(date.year, date.month, date.day)?;
    let to = from.checked_add_signed(chrono::TimeDelta::days(i64::from(days)))?;
    Some(Date {
        year: chrono::Datelike::year(&to),
        month: chrono::Datelike::month(&to),
        day: chrono::Datelike::day(&to),
    })
}

/// Calls `chrono::NaiveDate::checked_sub_signed` with a whole number of
/// days. Trusted: chrono returns the day from which the date lies that many
/// days on, and `None` exactly where no day that it can hold does.
#[verifier::external_body]
fn chrono_minus_days(date: Date, days: u32) -> (r: Option<Date>)
    requires
        date.wf(),
    ensures
        r matches Some(d) ==> d@.plus_days(days as nat) == date@,
        r is None ==> forall|d: Ymd|
            d.valid() && d.in_range() ==> #[trigger] d.plus_days(days as nat) != date@,
{
    let from = chrono::NaiveDate::from_ymd_opt(date.year, date.month, date.day)?;
    let to = from.checked_sub_signed(chrono::TimeDelta::days(i64::from(days)))?;
    Some(Date {
        year: chrono::Datelike::year(&to),
        month: chrono::Datelike::month(&to),
        day: chrono::Datelike::day(&to),
    })
}

/// Calls `chrono::NaiveDate::checked_add_months` with one month. Trusted:
/// chrono keeps the day of the month, uses the last day of the following
/// month where that month is shorter, and returns `None` exactly where the
/// result lies after the last year it can hold.
#[verifier::external_body]
fn chrono_plus_one_month(date: Date) -> (r: Option<Date>)
    requires
        date.wf(),
    ensures
        r is Some <==> date@.plus_one_month().in_range(),
        r matches Some(d) ==> d@ == date@.plus_one_month(),
{
    let from = chrono::NaiveDate::from_ymd_opt(date.year, date.month, date.day)?;
    let to = from.checked_add_months(chrono::Months::new(1))?;
    Some(Date {
        year: chrono::Datelike::year(&to),
        month: chrono::Datelike::month(&to),
        day: chrono::Datelike::day(&to),
    })
}

/// Calls `chrono::NaiveDate::signed_duration_since` and
/// `chrono::TimeDelta::num_days`. Trusted: chrono returns the number of
/// calendar days from `since` to `date`, negative where `date` is earlier.
#[verifier::external_body]
fn chrono_days_between(date: Date, since: Date) -> (r: i64)
    requires
        date.wf(),
        since.wf(),
    ensures
        days_apart(since@, date@, r as int),
{
    let to = chrono::NaiveDate::from_ymd_opt(date.year, date.month, date.day);
    let from = chrono::NaiveDate::from_ymd_opt(since.year, since.month, since.day);
    match (to, from) {
        (Some(to), Some(from)) => to.signed_duration_since(from).num_days(),
        _ => 0,
    }
}

/// Reads the local calendar date from `chrono::Local::now`. Trusted: what
/// chrono reports is a day of the calendar, in a year that a date can hold,
/// as every [`Date`] is. Nothing is claimed of which day it is.
#[verifier::external_body]
pub(crate) fn today() -> (r: Date)
    ensures
        r.wf(),
{
    let now = chrono::Local::now().naive_local().date();
    Date {
        year: chrono::Datelike::year(&now),
        month: chrono::Datelike::month(&now),
        day: chrono::Datelike::day(&now),
    }
}

} // verus!
