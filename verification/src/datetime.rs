//! Calendar timestamps: a point in time resolved to a fixed zone offset,
//! with calendar fields and a weekday derived from the date.

use vstd::prelude::*;

use crate::calendar::{
    day_number, day_number_of, days_in_month, is_leap_year, month_length, valid_ymd,
};

verus! {

/// A day of the week.
#[derive(Clone, Copy, Debug, PartialEq, Eq, Structural)]
pub enum Weekday {
    Mon,
    Tue,
    Wed,
    Thu,
    Fri,
    Sat,
    Sun,
}

/// The weekday of the date whose day number is `n`: the first day of year 0
/// is a Saturday, and the cycle repeats every seven days.
pub open spec fn weekday_of_day_number(n: int) -> Weekday {
    let r = n % 7;
    if r == 0 {
        Weekday::Sat
    } else if r == 1 {
        Weekday::Sun
    } else if r == 2 {
        Weekday::Mon
    } else if r == 3 {
        Weekday::Tue
    } else if r == 4 {
        Weekday::Wed
    } else if r == 5 {
        Weekday::Thu
    } else {
        Weekday::Fri
    }
}

/// A point in time: a calendar date and clock time, read in a zone that is
/// `offset` seconds east of UTC, with a sub-second part in nanoseconds.
#[derive(Clone, Copy, Debug, PartialEq, Eq, Structural)]
pub struct Timestamp {
    pub year: i64,
    pub month: u8,
    pub day: u8,
    pub hour: u8,
    pub minute: u8,
    pub second: u8,
    pub nanos: u32,
    pub offset: i32,
}

impl Timestamp {
    /// Well-formedness: calendar fields in range, a zone offset of less than
    /// a day in either direction, and a sub-second part below one second.
    pub open spec fn wf(self) -> bool {
        &&& valid_ymd(self.year as int, self.month as int, self.day as int)
        &&& self.hour < 24
        &&& self.minute < 60
        &&& self.second < 60
        &&& self.nanos < 1_000_000_000
        &&& -86400 < self.offset < 86400
    }

    /// The weekday this timestamp's date falls on.
    pub open spec fn spec_weekday(self) -> Weekday {
        weekday_of_day_number(day_number(self.year as int, self.month as int, self.day as int))
    }

    /// Builds a timestamp from its fields, rejecting any combination that
    /// is not a well-formed calendar time.
    pub fn new(
        year: i64,
        month: u8,
        day: u8,
        hour: u8,
        minute: u8,
        second: u8,
        nanos: u32,
        offset: i32,
    ) -> (r: Option<Timestamp>)
        ensures
            match r {
                Some(t) => {
                    &&& t.wf()
                    &&& t == (Timestamp { year, month, day, hour, minute, second, nanos, offset })
                },
                None => !(Timestamp {
                    year,
                    month,
                    day,
                    hour,
                    minute,
                    second,
                    nanos,
                    offset,
                }).wf(),
            },
    {
        if 0 <= year && year <= 9999 && 1 <= month && month <= 12 && 1 <= day && day
            <= month_length(year, month) && hour < 24 && minute < 60 && second < 60 && nanos
            < 1_000_000_000 && -86400 < offset && offset < 86400 {
            Some(Timestamp { year, month, day, hour, minute, second, nanos, offset })
        } else {
            None
        }
    }

    /// The same calendar fields read in another zone: no instant is kept,
    /// only the offset is replaced.
    pub fn with_offset(self, offset: i32) -> (r: Timestamp)
        requires
            -86400 < offset < 86400,
        ensures
            r == (Timestamp { offset, ..self }),
    {
        Timestamp { offset, ..self }
    }

    /// Computes the weekday from the date.
    pub fn weekday(&self) -> (w: Weekday)
        requires
            self.wf(),
        ensures
            w == self.spec_weekday(),
    {
        let n = day_number_of(self.year, self.month, self.day);
        let r = n % 7;
        if r == 0 {
            Weekday::Sat
        } else if r == 1 {
            Weekday::Sun
        } else if r == 2 {
            Weekday::Mon
        } else if r == 3 {
            Weekday::Tue
        } else if r == 4 {
            Weekday::Wed
        } else if r == 5 {
            Weekday::Thu
        } else {
            Weekday::Fri
        }
    }
}

} // verus!
