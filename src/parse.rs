use vstd::prelude::*;
use crate::error::{span_error, ParseError, ParseErrorKind, ParseResult};
use crate::helper::{
    parse_day_number, parse_end_of_string, parse_full_year, parse_hour_24, parse_is_token,
    parse_minute, parse_month_number, parse_nanosecond, parse_seconds, parse_token,
    parse_token_or_end, parse_tzd, scan_bounded, scan_is_token, scan_nanosecond, scan_signed,
    scan_token, scan_token_or_end, scan_tzd,
};
use crate::text::chars_of;
use crate::timestamp::{calendar_date_exists, clock_time_exists, W3cDateTime};

verus! {

/// The date section `YYYY-MM-DD`: year, month, day and the position after it.
pub open spec fn scan_date(s: Seq<char>) -> Result<(int, int, int, int), ParseError> {
    match scan_signed(s, 0, 4, ParseErrorKind::InvalidYear) {
        Err(e) => Err(e),
        Ok((y, p1)) => match scan_token(s, p1, seq!['-']) {
            Err(e) => Err(e),
            Ok(p2) => match scan_bounded(s, p2, 2, 1, 12, ParseErrorKind::InvalidMonth) {
                Err(e) => Err(e),
                Ok((m, p3)) => match scan_token(s, p3, seq!['-']) {
                    Err(e) => Err(e),
                    Ok(p4) => match scan_bounded(s, p4, 2, 1, 31, ParseErrorKind::InvalidDay) {
                        Err(e) => Err(e),
                        Ok((d, p5)) => Ok((y, m, d, p5)),
                    },
                },
            },
        },
    }
}

/// What follows the seconds: an optional `.` and fraction, then the zone
/// designator. Gives nanosecond, offset and the position after.
pub open spec fn scan_after_seconds(s: Seq<char>, p: int) -> Result<(int, int, int), ParseError> {
    match scan_is_token(s, p, seq!['.']) {
        Err(e) => Err(e),
        Ok((true, q)) => match scan_nanosecond(s, q) {
            Err(e) => Err(e),
            Ok((ns, q1)) => match scan_tzd(s, q1) {
                Err(e) => Err(e),
                Ok((off, q2)) => Ok((ns, off, q2)),
            },
        },
        Ok((false, q)) => match scan_tzd(s, q) {
            Err(e) => Err(e),
            Ok((off, q1)) => Ok((0, off, q1)),
        },
    }
}

/// What follows the minute: optional seconds (with their fraction), then the
/// zone designator. Gives second, nanosecond, offset and the position after.
pub open spec fn scan_after_minute(s: Seq<char>, p: int) -> Result<(int, int, int, int), ParseError> {
    match scan_is_token(s, p, seq![':']) {
        Err(e) => Err(e),
        Ok((true, q)) => match scan_bounded(s, q, 2, 0, 59, ParseErrorKind::InvalidSeconds) {
            Err(e) => Err(e),
            Ok((sec, q1)) => match scan_after_seconds(s, q1) {
                Err(e) => Err(e),
                Ok((ns, off, q2)) => Ok((sec, ns, off, q2)),
            },
        },
        Ok((false, q)) => match scan_tzd(s, q) {
            Err(e) => Err(e),
            Ok((off, q1)) => Ok((0, 0, off, q1)),
        },
    }
}

/// The time section after `T`: hour, minute, second, nanosecond, offset and
/// the position after it.
pub open spec fn scan_time(s: Seq<char>, p: int) -> Result<(int, int, int, int, int, int), ParseError> {
    match scan_bounded(s, p, 2, 0, 23, ParseErrorKind::InvalidHour) {
        Err(e) => Err(e),
        Ok((h, q1)) => match scan_token(s, q1, seq![':']) {
            Err(e) => Err(e),
            Ok(q2) => match scan_bounded(s, q2, 2, 0, 59, ParseErrorKind::InvalidMinute) {
                Err(e) => Err(e),
                Ok((mi, q3)) => match scan_after_minute(s, q3) {
                    Err(e) => Err(e),
                    Ok((sec, ns, off, q4)) => Ok((h, mi, sec, ns, off, q4)),
                },
            },
        },
    }
}

pub open spec fn fields(y: int, m: int, d: int, h: int, mi: int, sec: int, ns: int, off: int) -> W3cDateTime {
    W3cDateTime {
        year: y as i32,
        month: m as u32,
        day: d as u32,
        hour: h as u32,
        minute: mi as u32,
        second: sec as u32,
        nanosecond: ns as u32,
        offset: off as i32,
    }
}

/// The fields that the grammar reads, and the position where it stops.
/// Without a `T` the time of day is midnight, in UTC.
pub open spec fn scan_fields(s: Seq<char>) -> Result<(W3cDateTime, int), ParseError> {
    match scan_date(s) {
        Err(e) => Err(e),
        Ok((y, m, d, p)) => match scan_token_or_end(s, p, seq!['T']) {
            Err(e) => Err(e),
            Ok((false, q)) => Ok((fields(y, m, d, 0, 0, 0, 0, 0), q)),
            Ok((true, q)) => match scan_time(s, q) {
                Err(e) => Err(e),
                Ok((h, mi, sec, ns, off, q1)) => Ok((fields(y, m, d, h, mi, sec, ns, off), q1)),
            },
        },
    }
}

/// The outcome of parsing `s` as a W3C date and time: the first error of the
/// scan, text left after it, a day or time that does not exist (over the
/// whole input), or the timestamp.
pub open spec fn w3c_parse(s: Seq<char>) -> Result<W3cDateTime, ParseError> {
    match scan_fields(s) {
        Err(e) => Err(e),
        Ok((t, p)) => if p != s.len() {
            Err(span_error(ParseErrorKind::StringNotEnded, p, 0))
        } else if !calendar_date_exists(t.year as int, t.month as int, t.day as int)
            || !clock_time_exists(t.hour as int, t.minute as int, t.second as int, t.nanosecond as int) {
            Err(span_error(ParseErrorKind::InvalidFormat, 0, s.len() as int))
        } else {
            Ok(t)
        },
    }
}

/// Parses a W3C date and time string (<https://www.w3.org/TR/NOTE-datetime>).
///
/// Valid formats: `YYYY-MM-DD`, `YYYY-MM-DDThh:mmTZD`, `YYYY-MM-DDThh:mm:ssTZD`,
/// `YYYY-MM-DDThh:mm:ss.sTZD`, where TZD is `Z` or `+hh:mm` or `-hh:mm`.
/// `YYYY` and `YYYY-MM` alone are not accepted.
pub fn parse_w3c_datetime(str: &str) -> (r: ParseResult<W3cDateTime>)
    ensures
        r == w3c_parse(str@),
        r is Ok ==> r->Ok_0.wf(),
{
    proof {
        reveal_strlit("-");
        reveal_strlit("T");
        reveal_strlit(":");
        reveal_strlit(".");
        assert("-"@ =~= seq!['-']);
        assert("T"@ =~= seq!['T']);
        assert(":"@ =~= seq![':']);
        assert("."@ =~= seq!['.']);
    }
    let chars = chars_of(str);
    let ghost s = chars@;
    let mut position: usize = 0;
    let year = parse_full_year(&chars, &mut position)?;
    proof {
        crate::helper::lemma_year_range(s, 0);
    }
    parse_token(&chars, &mut position, "-")?;
    let month = parse_month_number(&chars, &mut position)?;
    parse_token(&chars, &mut position, "-")?;
    let day = parse_day_number(&chars, &mut position)?;
    let mut hour: u32 = 0;
    let mut minute: u32 = 0;
    let mut second: u32 = 0;
    let mut nanosecond: u32 = 0;
    let mut offset: i32 = 0;
    if parse_token_or_end(&chars, &mut position, "T")? {
        hour = parse_hour_24(&chars, &mut position)?;
        parse_token(&chars, &mut position, ":")?;
        minute = parse_minute(&chars, &mut position)?;
        if parse_is_token(&chars, &mut position, ":")? {
            second = parse_seconds(&chars, &mut position)?;
            if parse_is_token(&chars, &mut position, ".")? {
                nanosecond = parse_nanosecond(&chars, &mut position)?;
            }
        }
        offset = parse_tzd(&chars, &mut position)?;
    }
    parse_end_of_string(&chars, &position)?;
    let date = chrono::NaiveDate::from_ymd_opt(year, month, day);
    let time = chrono::NaiveTime::from_hms_nano_opt(hour, minute, second, nanosecond);
    if date.is_some() && time.is_some() {
        // A year of four characters lies far inside chrono's range, and an
        // offset of under a day cannot carry the UTC instant out of it.
        Ok(W3cDateTime { year, month, day, hour, minute, second, nanosecond, offset })
    } else {
        Err(ParseError::invalid_format(0, chars.len()))
    }
}

} // verus!
