//! Calendar days in the proleptic Gregorian calendar.
use vstd::prelude::*;

verus! {

pub open spec fn leap_year(year: int) -> bool {
    (year % 4 == 0 && year % 100 != 0) || year % 400 == 0
}

/// Days in `month` of `year`; months outside 1..=12 have none.
pub open spec fn month_days(year: int, month: int) -> u32 {
    if month == 2 {
        if leap_year(year) { 29 } else { 28 }
    } else if month == 4 || month == 6 || month == 9 || month == 11 {
        30
    } else if 1 <= month <= 12 {
        31
    } else {
        0
    }
}

/// The Gregorian month lengths: thirty days hath September, April, June and November;
/// February has 28, or 29 in a year divisible by 4 but not by 100, or by 400; all the
/// rest have 31. A year has 365 days, or 366 when February has 29.
pub proof fn lemma_gregorian_month_lengths(year: int)
    ensures
        month_days(year, 1) == 31,
        month_days(year, 2) == (if (year % 4 == 0 && year % 100 != 0) || year % 400 == 0 { 29u32 } else { 28u32 }),
        month_days(year, 3) == 31,
        month_days(year, 4) == 30,
        month_days(year, 5) == 31,
        month_days(year, 6) == 30,
        month_days(year, 7) == 31,
        month_days(year, 8) == 31,
        month_days(year, 9) == 30,
        month_days(year, 10) == 31,
        month_days(year, 11) == 30,
        month_days(year, 12) == 31,
        month_days(year, 1) + month_days(year, 2) + month_days(year, 3) + month_days(year, 4)
            + month_days(year, 5) + month_days(year, 6) + month_days(year, 7) + month_days(year, 8)
            + month_days(year, 9) + month_days(year, 10) + month_days(year, 11) + month_days(year, 12)
            == 337 + month_days(year, 2),
        forall|m: int| !(1 <= m <= 12) ==> month_days(year, m) == 0,
{
}

pub open spec fn valid_ymd(year: int, month: int, day: int) -> bool {
    1 <= month <= 12 && 1 <= day <= month_days(year, month)
}

/// A calendar day on which a post was created.
#[derive(Clone, Copy, Debug, PartialEq, Eq, Structural)]
pub struct CreatedDay {
    year: i32,
    month: u32,
    day: u32,
}

fn is_leap(year: i32) -> (r: bool)
    ensures
        r == leap_year(year as int),
{
    (year % 4 == 0 && year % 100 != 0) || year % 400 == 0
}

impl CreatedDay {
    pub closed spec fn ymd_spec(&self) -> (int, int, int) {
        (self.year as int, self.month as int, self.day as int)
    }

    #[verifier::type_invariant]
    closed spec fn wf(self) -> bool {
        valid_ymd(self.year as int, self.month as int, self.day as int)
    }

    /// Days in `month` of `year`: 28 to 31, or 0 when `month` is not a month.
    pub fn days_in_month(year: i32, month: u32) -> (r: u32)
        ensures
            r == month_days(year as int, month as int),
    {
        if month == 2 {
            if is_leap(year) { 29 } else { 28 }
        } else if month == 4 || month == 6 || month == 9 || month == 11 {
            30
        } else if 1 <= month && month <= 12 {
            31
        } else {
            0
        }
    }

    /// The day, when `year`, `month` and `day` name one.
    pub fn from_ymd(year: i32, month: u32, day: u32) -> (r: Option<CreatedDay>)
        ensures
            r matches Some(d) <==> valid_ymd(year as int, month as int, day as int),
            r matches Some(d) ==> d.ymd_spec() == (year as int, month as int, day as int),
    {
        if 1 <= month && month <= 12 && 1 <= day && day <= CreatedDay::days_in_month(year, month) {
            Some(CreatedDay { year, month, day })
        } else {
            None
        }
    }

    pub fn ymd(&self) -> (r: (i32, u32, u32))
        ensures
            (r.0 as int, r.1 as int, r.2 as int) == self.ymd_spec(),
            valid_ymd(r.0 as int, r.1 as int, r.2 as int),
    {
        proof { use_type_invariant(self); }
        (self.year, self.month, self.day)
    }
}

/// An inclusive range of creation days; an open end is unbounded.
#[derive(Clone, Copy, Debug, PartialEq, Eq, Structural)]
pub struct DateRange {
    pub first: Option<CreatedDay>,
    pub last: Option<CreatedDay>,
}

impl Default for DateRange {
    fn default() -> (r: DateRange)
        ensures
            r.first is None,
            r.last is None,
    {
        DateRange { first: None, last: None }
    }
}

} // verus!
