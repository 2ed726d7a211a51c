//! Parsing and formatting of date-and-time strings in the W3C profile of
//! ISO 8601 (`YYYY-MM-DD`, optionally followed by `Thh:mm[:ss[.s]]TZD`).
//!
//! The scanners report each failure with the kind of the failing field and
//! the exact character span of the offending token.
pub mod calendar;
pub mod digits;
pub mod error;
pub mod format;
pub mod helper;
pub mod laws;
pub mod parse;
mod text;
pub mod timestamp;

pub use error::{ParseError, ParseErrorKind, ParseResult};
pub use format::format_w3c;
pub use parse::parse_w3c_datetime;
pub use timestamp::W3cDateTime;
