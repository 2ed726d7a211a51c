use chrono_utils::error::{ParseError, ParseErrorKind};
use chrono_utils::helper::{
    parse_bounded_u32, parse_day_number, parse_end_of_string, parse_full_year, parse_hour_24,
    parse_hour_timezone, parse_i32, parse_is_token, parse_minute, parse_month_number,
    parse_nanosecond, parse_seconds, parse_token, parse_token_or_end, parse_tzd, parse_u32,
    validate_range,
};

fn chars(s: &str) -> Vec<char> {
    s.chars().collect()
}

fn err(kind: ParseErrorKind, begin: usize, end: usize) -> ParseError {
    ParseError { error_kind: kind, position_begin: begin, position_end: end }
}

#[test]
fn integers_move_the_cursor_only_on_success() {
    let s = chars("x+42-17");
    let mut p = 1;
    assert_eq!(parse_u32(&s, &mut p, 3, ParseErrorKind::InvalidDay), Err(err(ParseErrorKind::InvalidDay, 1, 4)));
    assert_eq!(p, 1);
    assert_eq!(parse_i32(&s, &mut p, 3, ParseErrorKind::InvalidYear), Ok(42));
    assert_eq!(p, 4);
    assert_eq!(parse_u32(&s, &mut p, 3, ParseErrorKind::InvalidDay), Err(err(ParseErrorKind::InvalidDay, 4, 7)));
    assert_eq!(p, 4);
    assert_eq!(parse_i32(&s, &mut p, 3, ParseErrorKind::InvalidYear), Ok(-17));
    assert_eq!(p, 7);
    let mut q = 0;
    assert_eq!(parse_u32(&chars("4294967296"), &mut q, 10, ParseErrorKind::InvalidDay), Err(err(ParseErrorKind::InvalidDay, 0, 10)));
    assert_eq!(parse_u32(&chars("4294967295"), &mut q, 10, ParseErrorKind::InvalidDay), Ok(4294967295));
    let mut q = 0;
    assert_eq!(parse_i32(&chars("-2147483648"), &mut q, 11, ParseErrorKind::InvalidYear), Ok(i32::MIN));
    let mut q = 0;
    assert_eq!(parse_i32(&chars("2147483648"), &mut q, 10, ParseErrorKind::InvalidYear), Err(err(ParseErrorKind::InvalidYear, 0, 10)));
    let mut q = 0;
    assert_eq!(parse_i32(&chars("+"), &mut q, 1, ParseErrorKind::InvalidYear), Err(err(ParseErrorKind::InvalidYear, 0, 1)));
}

#[test]
fn fields_check_their_ranges() {
    let s = chars("1999-00-32T24:60:60");
    let mut p = 0;
    assert_eq!(parse_full_year(&s, &mut p), Ok(1999));
    p = 5;
    assert_eq!(parse_month_number(&s, &mut p), Err(err(ParseErrorKind::InvalidLowValue, 5, 7)));
    assert_eq!(p, 5);
    p = 8;
    assert_eq!(parse_day_number(&s, &mut p), Err(err(ParseErrorKind::InvalidHighValue, 8, 10)));
    p = 11;
    assert_eq!(parse_hour_24(&s, &mut p), Err(err(ParseErrorKind::InvalidHighValue, 11, 13)));
    assert_eq!(parse_hour_timezone(&chars("12"), &mut 0), Ok(12));
    assert_eq!(parse_hour_timezone(&chars("+5"), &mut 0), Err(err(ParseErrorKind::InvalidHour, 0, 2)));
    assert_eq!(parse_month_number(&chars("+5"), &mut 0), Err(err(ParseErrorKind::InvalidMonth, 0, 2)));
    p = 14;
    assert_eq!(parse_minute(&s, &mut p), Err(err(ParseErrorKind::InvalidHighValue, 14, 16)));
    p = 17;
    assert_eq!(parse_seconds(&s, &mut p), Err(err(ParseErrorKind::InvalidHighValue, 17, 19)));
    assert_eq!(p, 17);
    let mut q = 0;
    assert_eq!(parse_bounded_u32(&chars("07"), &mut q, 2, 5, 9, ParseErrorKind::InvalidDay), Ok(7));
    assert_eq!(q, 2);
}

#[test]
fn validate_range_reports_the_given_span() {
    assert_eq!(validate_range(Ok(3), 1, 12, &9, 2), Ok(3));
    assert_eq!(validate_range(Ok(0), 1, 12, &9, 2), Err(err(ParseErrorKind::InvalidLowValue, 9, 11)));
    assert_eq!(validate_range(Ok(13), 1, 12, &9, 2), Err(err(ParseErrorKind::InvalidHighValue, 9, 11)));
    let e = err(ParseErrorKind::InvalidMonth, 1, 2);
    assert_eq!(validate_range(Err(e), 1, 12, &9, 2), Err(e));
}

#[test]
fn nanoseconds_take_the_whole_digit_run() {
    let mut p = 1;
    assert_eq!(parse_nanosecond(&chars(".5Z"), &mut p), Ok(500_000_000));
    assert_eq!(p, 2);
    let mut p = 1;
    assert_eq!(parse_nanosecond(&chars(".000000004"), &mut p), Ok(4));
    assert_eq!(p, 10);
    let mut p = 1;
    assert_eq!(parse_nanosecond(&chars(".1234567890Z"), &mut p), Err(err(ParseErrorKind::InvalidNanoseconds, 1, 11)));
    assert_eq!(p, 1);
    let mut p = 1;
    assert_eq!(parse_nanosecond(&chars(".Z"), &mut p), Err(err(ParseErrorKind::InvalidNanoseconds, 1, 1)));
}

#[test]
fn literal_probes() {
    let s = chars("T:");
    let mut p = 0;
    assert_eq!(parse_token(&s, &mut p, ":"), Err(err(ParseErrorKind::InvalidToken, 0, 1)));
    assert_eq!(parse_token(&s, &mut p, "T"), Ok(()));
    assert_eq!(p, 1);
    assert_eq!(parse_is_token(&s, &mut p, "."), Ok(false));
    assert_eq!(p, 1);
    assert_eq!(parse_is_token(&s, &mut p, ":"), Ok(true));
    assert_eq!(p, 2);
    assert_eq!(parse_is_token(&s, &mut p, ":"), Err(err(ParseErrorKind::InvalidToken, 2, 3)));
    assert_eq!(parse_token_or_end(&s, &mut p, "T"), Ok(false));
    let mut p = 1;
    assert_eq!(parse_token_or_end(&s, &mut p, "T"), Err(err(ParseErrorKind::InvalidToken, 1, 2)));
    let mut p = 0;
    assert_eq!(parse_token_or_end(&s, &mut p, "T"), Ok(true));
    assert_eq!(p, 1);
    assert_eq!(parse_end_of_string(&s, &1), Err(err(ParseErrorKind::StringNotEnded, 1, 1)));
    assert_eq!(parse_end_of_string(&s, &2), Ok(()));
}

#[test]
fn zone_designators() {
    let mut p = 0;
    assert_eq!(parse_tzd(&chars("Z"), &mut p), Ok(0));
    assert_eq!(p, 1);
    let mut p = 0;
    assert_eq!(parse_tzd(&chars("-12:59"), &mut p), Ok(-46740));
    assert_eq!(p, 6);
    let mut p = 0;
    assert_eq!(parse_tzd(&chars("+01:30"), &mut p), Ok(5400));
    let mut p = 0;
    assert_eq!(parse_tzd(&chars("01:30"), &mut p), Err(err(ParseErrorKind::InvalidToken, 0, 1)));
    assert_eq!(p, 0);
    let mut p = 0;
    assert_eq!(parse_tzd(&chars("+01-30"), &mut p), Err(err(ParseErrorKind::InvalidToken, 3, 4)));
    assert_eq!(p, 0);
    let mut p = 0;
    assert_eq!(parse_tzd(&chars(""), &mut p), Err(err(ParseErrorKind::InvalidToken, 0, 1)));
}

#[test]
fn error_constructors_and_messages() {
    assert_eq!(ParseError::invalid(ParseErrorKind::InvalidDate, 3, 4), err(ParseErrorKind::InvalidDate, 3, 7));
    assert_eq!(ParseError::invalid_format(0, 9), err(ParseErrorKind::InvalidFormat, 0, 9));
    assert_eq!(ParseError::invalid_token(2, 1), err(ParseErrorKind::InvalidToken, 2, 3));
    assert_eq!(ParseError::invalid_low_value(5, 2), err(ParseErrorKind::InvalidLowValue, 5, 7));
    assert_eq!(ParseError::invalid_high_value(5, 2), err(ParseErrorKind::InvalidHighValue, 5, 7));
    assert_eq!(ParseErrorKind::InvalidFormat.description(), "Invalid format.");
    assert_eq!(ParseErrorKind::InvalidTime.description(), "Time is not exists.");
    assert_eq!(err(ParseErrorKind::StringNotEnded, 0, 0).description(), "Date is parsed, but there is some text after date.");
}
