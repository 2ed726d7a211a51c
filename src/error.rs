use vstd::prelude::*;

verus! {

/// Error kind of parsing.
#[derive(Clone, Copy, Debug, PartialEq, Eq, Structural)]
pub enum ParseErrorKind {
    /// Unable to parse year.
    InvalidYear,
    /// Unable to parse month.
    InvalidMonth,
    /// Unable to parse day.
    InvalidDay,
    /// Unable to parse hour.
    InvalidHour,
    /// Unable to parse minutes.
    InvalidMinute,
    /// Unable to parse seconds.
    InvalidSeconds,
    /// Unable to parse nanoseconds.
    InvalidNanoseconds,
    /// Invalid format.
    InvalidFormat,
    /// Unexpected token.
    InvalidToken,
    /// Invalid value range. Value is too low.
    InvalidLowValue,
    /// Invalid value range. Value is too high.
    InvalidHighValue,
    /// The date does not exist.
    InvalidDate,
    /// The time does not exist.
    InvalidTime,
    /// The date is parsed, but some text follows it.
    StringNotEnded,
}

/// The human-readable message of each error kind.
pub open spec fn kind_message(kind: ParseErrorKind) -> Seq<char> {
    match kind {
        ParseErrorKind::InvalidYear => "Unable to parse year."@,
        ParseErrorKind::InvalidMonth => "Unable to parse month."@,
        ParseErrorKind::InvalidDay => "Unable to parse day."@,
        ParseErrorKind::InvalidHour => "Unable to parse hour."@,
        ParseErrorKind::InvalidMinute => "Unable to parse minutes."@,
        ParseErrorKind::InvalidSeconds => "Unable to parse seconds."@,
        ParseErrorKind::InvalidNanoseconds => "Unable to parse nanoseconds."@,
        ParseErrorKind::InvalidFormat => "Invalid format."@,
        ParseErrorKind::InvalidToken => "Unexpected token."@,
        ParseErrorKind::InvalidLowValue => "Invalid value range. Value is too low."@,
        ParseErrorKind::InvalidHighValue => "Invalid value range. Value is too high."@,
        ParseErrorKind::InvalidDate => "Date is not exists."@,
        ParseErrorKind::InvalidTime => "Time is not exists."@,
        ParseErrorKind::StringNotEnded => "Date is parsed, but there is some text after date."@,
    }
}

impl ParseErrorKind {
    /// Returns the message that describes this kind of error.
    pub fn description(&self) -> (r: &'static str)
        ensures
            r@ == kind_message(*self),
    {
        match self {
            ParseErrorKind::InvalidYear => "Unable to parse year.",
            ParseErrorKind::InvalidMonth => "Unable to parse month.",
            ParseErrorKind::InvalidDay => "Unable to parse day.",
            ParseErrorKind::InvalidHour => "Unable to parse hour.",
            ParseErrorKind::InvalidMinute => "Unable to parse minutes.",
            ParseErrorKind::InvalidSeconds => "Unable to parse seconds.",
            ParseErrorKind::InvalidNanoseconds => "Unable to parse nanoseconds.",
            ParseErrorKind::InvalidFormat => "Invalid format.",
            ParseErrorKind::InvalidToken => "Unexpected token.",
            ParseErrorKind::InvalidLowValue => "Invalid value range. Value is too low.",
            ParseErrorKind::InvalidHighValue => "Invalid value range. Value is too high.",
            ParseErrorKind::InvalidDate => "Date is not exists.",
            ParseErrorKind::InvalidTime => "Time is not exists.",
            ParseErrorKind::StringNotEnded => "Date is parsed, but there is some text after date.",
        }
    }
}

/// An error from the parse_* functions: its kind and the character span
/// `[position_begin, position_end)` of the offending token.
#[derive(Clone, Copy, Debug, PartialEq, Eq, Structural)]
pub struct ParseError {
    /// Kind of parse error.
    pub error_kind: ParseErrorKind,
    /// Start of error position.
    pub position_begin: usize,
    /// End of error position (exclusive).
    pub position_end: usize,
}

/// The error of the given kind over the `length` characters from `position`.
pub open spec fn span_error(kind: ParseErrorKind, position: int, length: int) -> ParseError {
    ParseError {
        error_kind: kind,
        position_begin: position as usize,
        position_end: (position + length) as usize,
    }
}

/// Same as `Result<T, ParseError>`.
pub type ParseResult<T> = Result<T, ParseError>;

impl ParseError {
    /// Returns an error of the given kind over `length` characters from `position`.
    pub fn invalid(error_kind: ParseErrorKind, position: usize, length: usize) -> (r: ParseError)
        requires
            position + length <= usize::MAX,
        ensures
            r == span_error(error_kind, position as int, length as int),
    {
        ParseError { position_begin: position, position_end: position + length, error_kind }
    }

    /// Returns an error due to an invalid format.
    pub fn invalid_format(position: usize, length: usize) -> (r: ParseError)
        requires
            position + length <= usize::MAX,
        ensures
            r == span_error(ParseErrorKind::InvalidFormat, position as int, length as int),
    {
        ParseError::invalid(ParseErrorKind::InvalidFormat, position, length)
    }

    /// Returns an error due to an unexpected token.
    pub fn invalid_token(position: usize, length: usize) -> (r: ParseError)
        requires
            position + length <= usize::MAX,
        ensures
            r == span_error(ParseErrorKind::InvalidToken, position as int, length as int),
    {
        ParseError::invalid(ParseErrorKind::InvalidToken, position, length)
    }

    /// Returns an error due to a value below its range.
    pub fn invalid_low_value(position: usize, length: usize) -> (r: ParseError)
        requires
            position + length <= usize::MAX,
        ensures
            r == span_error(ParseErrorKind::InvalidLowValue, position as int, length as int),
    {
        ParseError::invalid(ParseErrorKind::InvalidLowValue, position, length)
    }

    /// Returns an error due to a value above its range.
    pub fn invalid_high_value(position: usize, length: usize) -> (r: ParseError)
        requires
            position + length <= usize::MAX,
        ensures
            r == span_error(ParseErrorKind::InvalidHighValue, position as int, length as int),
    {
        ParseError::invalid(ParseErrorKind::InvalidHighValue, position, length)
    }

    /// Returns the message that describes the kind of this error.
    pub fn description(&self) -> (r: &'static str)
        ensures
            r@ == kind_message(self.error_kind),
    {
        self.error_kind.description()
    }
}

} // verus!
