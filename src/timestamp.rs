use vstd::prelude::*;

verus! {

/// A resolved W3C timestamp: the local calendar date and clock time as written,
/// and the offset of that local time east of UTC, in seconds.
#[derive(Clone, Copy, Debug, PartialEq, Eq, Structural)]
pub struct W3cDateTime {
    pub year: i32,
    pub month: u32,
    pub day: u32,
    pub hour: u32,
    pub minute: u32,
    pub second: u32,
    pub nanosecond: u32,
    /// Offset east of UTC, in seconds.
    pub offset: i32,
}

/// A leap year of the proleptic Gregorian calendar.
pub open spec fn is_leap_year(y: int) -> bool {
    (y % 4 == 0 && y % 100 != 0) || y % 400 == 0
}

pub open spec fn days_in_month(y: int, m: int) -> int {
    if m == 2 {
        if is_leap_year(y) { 29 } else { 28 }
    } else if m == 4 || m == 6 || m == 9 || m == 11 {
        30
    } else {
        31
    }
}

/// The day `d` of month `m` of year `y` exists in the proleptic Gregorian calendar.
pub open spec fn calendar_date_exists(y: int, m: int, d: int) -> bool {
    1 <= m <= 12 && 1 <= d <= days_in_month(y, m)
}

/// A clock reading of a day; a nanosecond count from one second up marks a leap second after `:59`.
pub open spec fn clock_time_exists(h: int, mi: int, s: int, ns: int) -> bool {
    0 <= h < 24 && 0 <= mi < 60 && 0 <= s < 60 && 0 <= ns < 2_000_000_000
        && (ns >= 1_000_000_000 ==> s == 59)
}

impl W3cDateTime {
    /// A timestamp that exists and that the W3C text form can render: a year of
    /// at most four digits, a real calendar day, a clock time without leap
    /// second, and an offset of less than a day.
    pub open spec fn wf(&self) -> bool {
        &&& -9999 <= self.year <= 9999
        &&& calendar_date_exists(self.year as int, self.month as int, self.day as int)
        &&& self.hour < 24
        &&& self.minute < 60
        &&& self.second < 60
        &&& self.nanosecond < 1_000_000_000
        &&& -86400 < self.offset < 86400
    }
}

} // verus!
