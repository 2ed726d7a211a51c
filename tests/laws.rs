use chrono_utils::{format_w3c, parse_w3c_datetime, ParseError, ParseErrorKind, W3cDateTime};

fn span(kind: ParseErrorKind, begin: usize, end: usize) -> ParseError {
    ParseError { error_kind: kind, position_begin: begin, position_end: end }
}

#[test]
fn canonical_texts_round_trip() {
    for text in [
        "2015-01-20T17:35:20-08:00",
        "1944-06-06T04:04:00Z",
        "2015-01-20T17:35:20.001-08:00",
        "2015-01-20T17:35:20.000031+12:59",
        "2015-01-20T17:35:20.123456789Z",
        "0000-02-29T00:00:00-00:30",
        "2016-02-29T23:59:59.500Z",
    ] {
        let t = parse_w3c_datetime(text).unwrap();
        assert_eq!(format_w3c(&t), text);
    }
}

#[test]
fn non_canonical_texts_format_canonically() {
    let t = parse_w3c_datetime("2015-01-20T17:35:20.5+00:00").unwrap();
    assert_eq!(format_w3c(&t), "2015-01-20T17:35:20.500Z");
    let t = parse_w3c_datetime("2015-01-20T17:35-00:00").unwrap();
    assert_eq!(format_w3c(&t), "2015-01-20T17:35:00Z");
    let t = parse_w3c_datetime("2015-01-20T17:35:20.000100Z").unwrap();
    assert_eq!(format_w3c(&t), "2015-01-20T17:35:20.000100Z");
    let t = parse_w3c_datetime("2015-01-20T17:35:20.000000Z").unwrap();
    assert_eq!(format_w3c(&t), "2015-01-20T17:35:20Z");
}

#[test]
fn hour_out_of_range_spans_the_hour() {
    assert_eq!(
        parse_w3c_datetime("2015-01-20T25:35:20-08:00"),
        Err(span(ParseErrorKind::InvalidHighValue, 11, 13))
    );
}

#[test]
fn impossible_day_spans_whole_input() {
    assert_eq!(
        parse_w3c_datetime("2015-02-30T17:35:20-08:00"),
        Err(span(ParseErrorKind::InvalidFormat, 0, 25))
    );
    assert_eq!(parse_w3c_datetime("2015-02-29"), Err(span(ParseErrorKind::InvalidFormat, 0, 10)));
    assert!(parse_w3c_datetime("2016-02-29").is_ok());
    assert_eq!(parse_w3c_datetime("1900-02-29"), Err(span(ParseErrorKind::InvalidFormat, 0, 10)));
    assert!(parse_w3c_datetime("2000-02-29").is_ok());
    assert_eq!(parse_w3c_datetime("2015-04-31"), Err(span(ParseErrorKind::InvalidFormat, 0, 10)));
}

#[test]
fn error_spans_of_each_field() {
    assert_eq!(parse_w3c_datetime("20a5-01-20"), Err(span(ParseErrorKind::InvalidYear, 0, 4)));
    assert_eq!(parse_w3c_datetime("201"), Err(span(ParseErrorKind::InvalidYear, 0, 4)));
    assert_eq!(parse_w3c_datetime("2015/01-20"), Err(span(ParseErrorKind::InvalidToken, 4, 5)));
    assert_eq!(parse_w3c_datetime("2015-00-20"), Err(span(ParseErrorKind::InvalidLowValue, 5, 7)));
    assert_eq!(parse_w3c_datetime("2015-13-20"), Err(span(ParseErrorKind::InvalidHighValue, 5, 7)));
    assert_eq!(parse_w3c_datetime("2015-01-00"), Err(span(ParseErrorKind::InvalidLowValue, 8, 10)));
    assert_eq!(parse_w3c_datetime("2015-01-32"), Err(span(ParseErrorKind::InvalidHighValue, 8, 10)));
    assert_eq!(parse_w3c_datetime("2015-01-2x"), Err(span(ParseErrorKind::InvalidDay, 8, 10)));
    assert_eq!(parse_w3c_datetime("2015-01-20T1x:00Z"), Err(span(ParseErrorKind::InvalidHour, 11, 13)));
    assert_eq!(parse_w3c_datetime("2015-01-20T10:6Z"), Err(span(ParseErrorKind::InvalidMinute, 14, 16)));
    assert_eq!(parse_w3c_datetime("2015-01-20T10:00:6Z"), Err(span(ParseErrorKind::InvalidSeconds, 17, 19)));
    assert_eq!(parse_w3c_datetime("2015-01-20T10:00:00.Z"), Err(span(ParseErrorKind::InvalidNanoseconds, 20, 20)));
    assert_eq!(
        parse_w3c_datetime("2015-01-20T10:00:00.0123456789Z"),
        Err(span(ParseErrorKind::InvalidNanoseconds, 20, 30))
    );
    assert_eq!(parse_w3c_datetime("2015-01-20T10:00:00X"), Err(span(ParseErrorKind::InvalidToken, 19, 20)));
    assert_eq!(parse_w3c_datetime("2015-01-20T10:00+13:00"), Err(span(ParseErrorKind::InvalidHighValue, 17, 19)));
    assert_eq!(parse_w3c_datetime("2015-01-20T10:00+05-00"), Err(span(ParseErrorKind::InvalidToken, 19, 20)));
    assert_eq!(parse_w3c_datetime("2015-01-20T10:00+05:60"), Err(span(ParseErrorKind::InvalidHighValue, 20, 22)));
    assert_eq!(parse_w3c_datetime("2015-01-20T10:00+"), Err(span(ParseErrorKind::InvalidHour, 17, 19)));
}

#[test]
fn midnight_utc_by_default() {
    let t = parse_w3c_datetime("2015-03-04").unwrap();
    assert_eq!(
        t,
        W3cDateTime {
            year: 2015,
            month: 3,
            day: 4,
            hour: 0,
            minute: 0,
            second: 0,
            nanosecond: 0,
            offset: 0
        }
    );
    assert_eq!(format_w3c(&t), "2015-03-04T00:00:00Z");
}

#[test]
fn fraction_digits_scale_to_nanoseconds() {
    let ns = |text: &str| parse_w3c_datetime(text).unwrap().nanosecond;
    assert_eq!(ns("2015-01-20T17:35:20.000000004Z"), 4);
    assert_eq!(ns("2015-01-20T17:35:20.5Z"), 500_000_000);
    assert_eq!(ns("2015-01-20T17:35:20.25Z"), 250_000_000);
    assert_eq!(ns("2015-01-20T17:35:20.123456789Z"), 123_456_789);
    assert_eq!(ns("2015-01-20T17:35:20.0001Z"), 100_000);
}

#[test]
fn trailing_text_is_rejected() {
    assert_eq!(
        parse_w3c_datetime("2015-01-20T17:35:20.452-08:00s"),
        Err(span(ParseErrorKind::StringNotEnded, 29, 29))
    );
    assert_eq!(
        parse_w3c_datetime("2015-01-20T17:35:20.452-08:00ss"),
        Err(span(ParseErrorKind::StringNotEnded, 29, 29))
    );
    assert_eq!(parse_w3c_datetime("2015-01-20T17:35Z "), Err(span(ParseErrorKind::StringNotEnded, 17, 17)));
}

#[test]
fn branch_after_the_date() {
    assert!(parse_w3c_datetime("2015-03-04").is_ok());
    assert_eq!(parse_w3c_datetime("2015-03-04Z"), Err(span(ParseErrorKind::InvalidToken, 10, 11)));
    assert_eq!(parse_w3c_datetime("2015-03-04T"), Err(span(ParseErrorKind::InvalidHour, 11, 13)));
}

#[test]
fn offsets_are_seconds_east_of_utc() {
    assert_eq!(parse_w3c_datetime("2015-01-20T17:35:20-08:00").unwrap().offset, -28800);
    assert_eq!(parse_w3c_datetime("2015-01-20T17:35+05:30").unwrap().offset, 19800);
    assert_eq!(parse_w3c_datetime("2015-01-20T17:35Z").unwrap().offset, 0);
}

#[test]
fn signed_years() {
    let t = parse_w3c_datetime("-001-01-01").unwrap();
    assert_eq!(t.year, -1);
    assert_eq!(format_w3c(&t), "-0001-01-01T00:00:00Z");
    assert_eq!(parse_w3c_datetime("+999-01-01").unwrap().year, 999);
    assert_eq!(parse_w3c_datetime("--01-01-01"), Err(span(ParseErrorKind::InvalidYear, 0, 4)));
    assert_eq!(parse_w3c_datetime("2015-+1-01"), Err(span(ParseErrorKind::InvalidMonth, 5, 7)));
    assert_eq!(parse_w3c_datetime("2015-03-04T+5:34Z"), Err(span(ParseErrorKind::InvalidHour, 11, 13)));
    assert_eq!(parse_w3c_datetime("2015-03-04T05:34++5:00"), Err(span(ParseErrorKind::InvalidHour, 17, 19)));
    assert_eq!(parse_w3c_datetime("2015--1-01"), Err(span(ParseErrorKind::InvalidMonth, 5, 7)));
}

#[test]
fn non_ascii_input_is_measured_in_characters() {
    assert_eq!(parse_w3c_datetime("2015-01-20é"), Err(span(ParseErrorKind::InvalidToken, 10, 11)));
    assert_eq!(parse_w3c_datetime("２015-01-20"), Err(span(ParseErrorKind::InvalidYear, 0, 4)));
}

#[test]
fn formats_offsets_and_fractions() {
    let t = W3cDateTime {
        year: 7,
        month: 12,
        day: 31,
        hour: 23,
        minute: 5,
        second: 9,
        nanosecond: 120_000,
        offset: -(9 * 3600 + 30 * 60),
    };
    assert_eq!(format_w3c(&t), "0007-12-31T23:05:09.000120-09:30");
    let t = W3cDateTime { nanosecond: 7, offset: 3600, ..t };
    assert_eq!(format_w3c(&t), "0007-12-31T23:05:09.000000007+01:00");
}
