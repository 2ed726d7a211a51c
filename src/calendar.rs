use vstd::prelude::*;
use crate::timestamp::{calendar_date_exists, clock_time_exists};

verus! {

#[verifier::external_type_specification]
#[verifier::external_body]
pub struct ExNaiveDate(chrono::NaiveDate);

#[verifier::external_type_specification]
#[verifier::external_body]
pub struct ExNaiveTime(chrono::NaiveTime);

/// Relies on chrono's `NaiveDate::from_ymd_opt`: a date comes back exactly when
/// the year lies in chrono's range (-262143 to 262142) and the month and day
/// name a day of the proleptic Gregorian calendar.
pub assume_specification[ chrono::NaiveDate::from_ymd_opt ](year: i32, month: u32, day: u32) -> (r: Option<chrono::NaiveDate>)
    ensures
        r is Some <==> (-262143 <= year <= 262142 && calendar_date_exists(year as int, month as int, day as int)),
;

/// Relies on chrono's `NaiveTime::from_hms_nano_opt`: a time comes back exactly
/// when hour, minute and second are in range and the nanosecond count is below
/// one second, or below two seconds at second 59 (a leap second).
pub assume_specification[ chrono::NaiveTime::from_hms_nano_opt ](hour: u32, min: u32, sec: u32, nano: u32) -> (r: Option<chrono::NaiveTime>)
    ensures
        r is Some <==> clock_time_exists(hour as int, min as int, sec as int, nano as int),
;

} // verus!
