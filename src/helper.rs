use vstd::prelude::*;
use vstd::string::StrSliceExecFns;
use crate::digits::{all_digits, digits_value, is_digit, lemma_digits_value_nonneg, lemma_digits_value_prefix, lemma_pow10_add, lemma_pow10_positive, pow10, signed_literal, unsigned_literal};
use crate::error::{span_error, ParseError, ParseErrorKind, ParseResult};

verus! {

/// Scanning `w` characters from `p` as an unsigned literal that fits a `u32`:
/// the value and the position after it, or the error over those characters.
pub open spec fn scan_unsigned(s: Seq<char>, p: int, w: int, kind: ParseErrorKind) -> Result<(int, int), ParseError> {
    let lit = if p + w <= s.len() { unsigned_literal(s.subrange(p, p + w)) } else { None };
    match lit {
        Some(v) => if 0 <= v <= u32::MAX { Ok((v, p + w)) } else { Err(span_error(kind, p, w)) },
        None => Err(span_error(kind, p, w)),
    }
}

/// Scanning `w` characters from `p` as a signed literal that fits an `i32`.
pub open spec fn scan_signed(s: Seq<char>, p: int, w: int, kind: ParseErrorKind) -> Result<(int, int), ParseError> {
    let lit = if p + w <= s.len() { signed_literal(s.subrange(p, p + w)) } else { None };
    match lit {
        Some(v) => if i32::MIN <= v <= i32::MAX { Ok((v, p + w)) } else { Err(span_error(kind, p, w)) },
        None => Err(span_error(kind, p, w)),
    }
}

/// The range check applied to a scanned value.
pub open spec fn check_range(r: Result<(int, int), ParseError>, p: int, w: int, min: int, max: int) -> Result<(int, int), ParseError> {
    match r {
        Ok((v, q)) => if v < min {
            Err(span_error(ParseErrorKind::InvalidLowValue, p, w))
        } else if v > max {
            Err(span_error(ParseErrorKind::InvalidHighValue, p, w))
        } else {
            Ok((v, q))
        },
        Err(e) => Err(e),
    }
}

/// Scanning a fixed-width unsigned field whose value must lie in `[min, max]`.
pub open spec fn scan_bounded(s: Seq<char>, p: int, w: int, min: int, max: int, kind: ParseErrorKind) -> Result<(int, int), ParseError> {
    check_range(scan_unsigned(s, p, w, kind), p, w, min, max)
}

/// The length of the run of digits that starts at `p`.
pub open spec fn digit_run_len(s: Seq<char>, p: int) -> int
    decreases s.len() - p,
{
    if 0 <= p < s.len() && is_digit(s[p]) {
        1 + digit_run_len(s, p + 1)
    } else {
        0
    }
}

/// Scanning a fraction of a second: one to nine digits, scaled to nanoseconds.
pub open spec fn scan_nanosecond(s: Seq<char>, p: int) -> Result<(int, int), ParseError> {
    let n = digit_run_len(s, p);
    if 1 <= n <= 9 {
        Ok((digits_value(s.subrange(p, p + n)) * pow10((9 - n) as nat), p + n))
    } else {
        Err(span_error(ParseErrorKind::InvalidNanoseconds, p, n))
    }
}

/// The text `t` stands at `p`.
pub open spec fn token_at(s: Seq<char>, p: int, t: Seq<char>) -> bool {
    p + t.len() <= s.len() && s.subrange(p, p + t.len()) == t
}

/// Scanning a required literal.
pub open spec fn scan_token(s: Seq<char>, p: int, t: Seq<char>) -> Result<int, ParseError> {
    if token_at(s, p, t) {
        Ok(p + t.len())
    } else {
        Err(span_error(ParseErrorKind::InvalidToken, p, t.len() as int))
    }
}

/// Probing a literal where the input may end: absent at the end, an error on other text.
pub open spec fn scan_token_or_end(s: Seq<char>, p: int, t: Seq<char>) -> Result<(bool, int), ParseError> {
    if p + t.len() <= s.len() {
        if token_at(s, p, t) {
            Ok((true, p + t.len()))
        } else {
            Err(span_error(ParseErrorKind::InvalidToken, p, t.len() as int))
        }
    } else {
        Ok((false, p))
    }
}

/// Probing an optional literal: an error where too little input is left to decide.
pub open spec fn scan_is_token(s: Seq<char>, p: int, t: Seq<char>) -> Result<(bool, int), ParseError> {
    if p + t.len() <= s.len() {
        if token_at(s, p, t) {
            Ok((true, p + t.len()))
        } else {
            Ok((false, p))
        }
    } else {
        Err(span_error(ParseErrorKind::InvalidToken, p, t.len() as int))
    }
}

/// Scanning a zone designator: `Z`, or a sign, an hour (0 to 12), `:` and a minute;
/// the value is the offset east of UTC in seconds.
pub open spec fn scan_tzd(s: Seq<char>, p: int) -> Result<(int, int), ParseError> {
    if p + 1 > s.len() {
        Err(span_error(ParseErrorKind::InvalidToken, p, 1))
    } else if s[p] == 'Z' {
        Ok((0, p + 1))
    } else if s[p] == '+' || s[p] == '-' {
        match scan_bounded(s, p + 1, 2, 0, 12, ParseErrorKind::InvalidHour) {
            Err(e) => Err(e),
            Ok((h, q)) => match scan_token(s, q, seq![':']) {
                Err(e) => Err(e),
                Ok(q1) => match scan_bounded(s, q1, 2, 0, 59, ParseErrorKind::InvalidMinute) {
                    Err(e) => Err(e),
                    Ok((m, q2)) => Ok((if s[p] == '-' { -(h * 3600 + m * 60) } else { h * 3600 + m * 60 }, q2)),
                },
            },
        }
    } else {
        Err(span_error(ParseErrorKind::InvalidToken, p, 1))
    }
}

/// The value of the digits in `[begin, end)` where all are digits and it is at most `limit`.
fn scan_digits(str: &Vec<char>, begin: usize, end: usize, limit: u64) -> (r: Option<u64>)
    requires
        begin <= end <= str@.len(),
        limit <= 0x1_0000_0000,
    ensures
        match r {
            Some(v) => all_digits(str@.subrange(begin as int, end as int))
                && v == digits_value(str@.subrange(begin as int, end as int)) && v <= limit,
            None => !(all_digits(str@.subrange(begin as int, end as int))
                && digits_value(str@.subrange(begin as int, end as int)) <= limit),
        },
{
    let ghost s = str@;
    let mut acc: u64 = 0;
    let mut i: usize = begin;
    while i < end
        invariant
            begin <= i <= end <= s.len(),
            s == str@,
            limit <= 0x1_0000_0000,
            all_digits(s.subrange(begin as int, i as int)),
            acc == digits_value(s.subrange(begin as int, i as int)),
            acc <= limit,
        decreases end - i,
    {
        let c = str[i];
        let ghost next = s.subrange(begin as int, i + 1);
        assert(next.drop_last() =~= s.subrange(begin as int, i as int));
        if !('0' <= c && c <= '9') {
            proof {
                let whole = s.subrange(begin as int, end as int);
                assert(whole[i - begin] == c);
            }
            return None;
        }
        let d = (c as u32 - '0' as u32) as u64;
        let grown = acc * 10 + d;
        assert(all_digits(next)) by {
            assert forall|k: int| 0 <= k < next.len() implies is_digit(#[trigger] next[k]) by {
                if k < next.len() - 1 {
                    assert(next[k] == s.subrange(begin as int, i as int)[k]);
                }
            }
        }
        if grown > limit {
            proof {
                let whole = s.subrange(begin as int, end as int);
                if all_digits(whole) {
                    assert(whole.subrange(0, i + 1 - begin) =~= next);
                    lemma_digits_value_prefix(whole, i + 1 - begin);
                }
            }
            return None;
        }
        acc = grown;
        i = i + 1;
    }
    Some(acc)
}

/// Parses `length` characters at the cursor as an `i32`: an optional sign, then digits.
/// On success the cursor moves past them; on failure it stays, and the error
/// of `error_kind` spans those characters.
pub fn parse_i32(str: &Vec<char>, position: &mut usize, length: usize, error_kind: ParseErrorKind) -> (r: ParseResult<i32>)
    requires
        *old(position) + length <= usize::MAX,
    ensures
        match scan_signed(str@, *old(position) as int, length as int, error_kind) {
            Ok((v, q)) => r == Ok::<i32, ParseError>(v as i32) && *final(position) == q,
            Err(e) => r == Err::<i32, ParseError>(e) && *final(position) == *old(position),
        },
{
    let pos = *position;
    if pos <= str.len() && length <= str.len() - pos {
        let end = pos + length;
        let ghost sub = str@.subrange(pos as int, end as int);
        if length > 0 && str[pos] == '-' {
            assert(sub.drop_first() =~= str@.subrange(pos + 1, end as int));
            if pos + 1 < end {
                if let Some(v) = scan_digits(str, pos + 1, end, 0x8000_0000) {
                    *position = end;
                    return Ok((0 - (v as i64)) as i32);
                }
            }
        } else {
            let mut start = pos;
            if length > 0 && str[pos] == '+' {
                assert(sub.drop_first() =~= str@.subrange(pos + 1, end as int));
                start = pos + 1;
            } else {
                assert(sub =~= str@.subrange(pos as int, end as int));
            }
            if start < end {
                if let Some(v) = scan_digits(str, start, end, 0x7FFF_FFFF) {
                    *position = end;
                    return Ok(v as i32);
                }
            }
        }
    }
    Err(ParseError::invalid(error_kind, pos, length))
}

/// Parses `length` characters at the cursor as a `u32`: digits only, no sign.
/// On success the cursor moves past them; on failure it stays, and the error
/// of `error_kind` spans those characters.
pub fn parse_u32(str: &Vec<char>, position: &mut usize, length: usize, error_kind: ParseErrorKind) -> (r: ParseResult<u32>)
    requires
        *old(position) + length <= usize::MAX,
    ensures
        match scan_unsigned(str@, *old(position) as int, length as int, error_kind) {
            Ok((v, q)) => r == Ok::<u32, ParseError>(v as u32) && *final(position) == q,
            Err(e) => r == Err::<u32, ParseError>(e) && *final(position) == *old(position),
        },
{
    let pos = *position;
    if pos <= str.len() && length <= str.len() - pos {
        let end = pos + length;
        if pos < end {
            if let Some(v) = scan_digits(str, pos, end, 0xFFFF_FFFF) {
                *position = end;
                return Ok(v as u32);
            }
        }
    }
    Err(ParseError::invalid(error_kind, pos, length))
}

/// Checks a scanned value against `[min, max]`; an error passes through unchanged.
/// The range errors span the `length` characters from `position`.
pub fn validate_range(result: ParseResult<u32>, min: u32, max: u32, position: &usize, length: usize) -> (r: ParseResult<u32>)
    requires
        *position + length <= usize::MAX,
    ensures
        r == match result {
            Ok(v) => if v < min {
                Err(span_error(ParseErrorKind::InvalidLowValue, *position as int, length as int))
            } else if v > max {
                Err(span_error(ParseErrorKind::InvalidHighValue, *position as int, length as int))
            } else {
                Ok(v)
            },
            Err(e) => Err(e),
        },
{
    if let Ok(value) = result {
        if value < min {
            return Err(ParseError::invalid_low_value(*position, length));
        }
        if value > max {
            return Err(ParseError::invalid_high_value(*position, length));
        }
    }
    result
}

/// Parses a fixed-width unsigned field whose value must lie in `[min, max]`.
/// The cursor moves only on success.
pub fn parse_bounded_u32(
    str: &Vec<char>,
    position: &mut usize,
    length: usize,
    min: u32,
    max: u32,
    error_kind: ParseErrorKind,
) -> (r: ParseResult<u32>)
    requires
        *old(position) + length <= usize::MAX,
    ensures
        match scan_bounded(str@, *old(position) as int, length as int, min as int, max as int, error_kind) {
            Ok((v, q)) => r == Ok::<u32, ParseError>(v as u32) && *final(position) == q,
            Err(e) => r == Err::<u32, ParseError>(e) && *final(position) == *old(position),
        },
{
    let start = *position;
    let result = parse_u32(str, position, length, error_kind);
    let checked = validate_range(result, min, max, &start, length);
    if checked.is_err() {
        *position = start;
    }
    checked
}

/// Parses a four-character year.
pub fn parse_full_year(str: &Vec<char>, position: &mut usize) -> (r: ParseResult<i32>)
    requires
        *old(position) + 4 <= usize::MAX,
    ensures
        match scan_signed(str@, *old(position) as int, 4, ParseErrorKind::InvalidYear) {
            Ok((v, q)) => r == Ok::<i32, ParseError>(v as i32) && *final(position) == q,
            Err(e) => r == Err::<i32, ParseError>(e) && *final(position) == *old(position),
        },
{
    parse_i32(str, position, 4, ParseErrorKind::InvalidYear)
}

/// Parses a two-digit month, 1 to 12.
pub fn parse_month_number(str: &Vec<char>, position: &mut usize) -> (r: ParseResult<u32>)
    requires
        *old(position) + 2 <= usize::MAX,
    ensures
        match scan_bounded(str@, *old(position) as int, 2, 1, 12, ParseErrorKind::InvalidMonth) {
            Ok((v, q)) => r == Ok::<u32, ParseError>(v as u32) && *final(position) == q,
            Err(e) => r == Err::<u32, ParseError>(e) && *final(position) == *old(position),
        },
{
    parse_bounded_u32(str, position, 2, 1, 12, ParseErrorKind::InvalidMonth)
}

/// Parses a two-digit day of the month, 1 to 31.
pub fn parse_day_number(str: &Vec<char>, position: &mut usize) -> (r: ParseResult<u32>)
    requires
        *old(position) + 2 <= usize::MAX,
    ensures
        match scan_bounded(str@, *old(position) as int, 2, 1, 31, ParseErrorKind::InvalidDay) {
            Ok((v, q)) => r == Ok::<u32, ParseError>(v as u32) && *final(position) == q,
            Err(e) => r == Err::<u32, ParseError>(e) && *final(position) == *old(position),
        },
{
    parse_bounded_u32(str, position, 2, 1, 31, ParseErrorKind::InvalidDay)
}

/// Parses a two-digit hour of the day, 0 to 23.
pub fn parse_hour_24(str: &Vec<char>, position: &mut usize) -> (r: ParseResult<u32>)
    requires
        *old(position) + 2 <= usize::MAX,
    ensures
        match scan_bounded(str@, *old(position) as int, 2, 0, 23, ParseErrorKind::InvalidHour) {
            Ok((v, q)) => r == Ok::<u32, ParseError>(v as u32) && *final(position) == q,
            Err(e) => r == Err::<u32, ParseError>(e) && *final(position) == *old(position),
        },
{
    parse_bounded_u32(str, position, 2, 0, 23, ParseErrorKind::InvalidHour)
}

/// Parses the two-digit hour of a zone offset, 0 to 12.
pub fn parse_hour_timezone(str: &Vec<char>, position: &mut usize) -> (r: ParseResult<u32>)
    requires
        *old(position) + 2 <= usize::MAX,
    ensures
        match scan_bounded(str@, *old(position) as int, 2, 0, 12, ParseErrorKind::InvalidHour) {
            Ok((v, q)) => r == Ok::<u32, ParseError>(v as u32) && *final(position) == q,
            Err(e) => r == Err::<u32, ParseError>(e) && *final(position) == *old(position),
        },
{
    parse_bounded_u32(str, position, 2, 0, 12, ParseErrorKind::InvalidHour)
}

/// Parses a two-digit minute, 0 to 59.
pub fn parse_minute(str: &Vec<char>, position: &mut usize) -> (r: ParseResult<u32>)
    requires
        *old(position) + 2 <= usize::MAX,
    ensures
        match scan_bounded(str@, *old(position) as int, 2, 0, 59, ParseErrorKind::InvalidMinute) {
            Ok((v, q)) => r == Ok::<u32, ParseError>(v as u32) && *final(position) == q,
            Err(e) => r == Err::<u32, ParseError>(e) && *final(position) == *old(position),
        },
{
    parse_bounded_u32(str, position, 2, 0, 59, ParseErrorKind::InvalidMinute)
}

/// Parses a two-digit second, 0 to 59.
pub fn parse_seconds(str: &Vec<char>, position: &mut usize) -> (r: ParseResult<u32>)
    requires
        *old(position) + 2 <= usize::MAX,
    ensures
        match scan_bounded(str@, *old(position) as int, 2, 0, 59, ParseErrorKind::InvalidSeconds) {
            Ok((v, q)) => r == Ok::<u32, ParseError>(v as u32) && *final(position) == q,
            Err(e) => r == Err::<u32, ParseError>(e) && *final(position) == *old(position),
        },
{
    parse_bounded_u32(str, position, 2, 0, 59, ParseErrorKind::InvalidSeconds)
}

/// Ten to the power `n`.
fn pow10_u32(n: u32) -> (r: u32)
    requires
        n <= 9,
    ensures
        r == pow10(n as nat),
{
    let mut r: u32 = 1;
    let mut i: u32 = 0;
    proof {
        lemma_pow10_add(0, 9);
        reveal_with_fuel(pow10, 10);
    }
    while i < n
        invariant
            i <= n <= 9,
            r == pow10(i as nat),
            r * pow10((9 - i) as nat) == 1_000_000_000int,
        decreases n - i,
    {
        proof {
            assert(pow10((9 - i) as nat) == 10 * pow10((9 - i - 1) as nat));
            lemma_pow10_positive((9 - i - 1) as nat);
            assert(r * 10 <= 1_000_000_000int) by (nonlinear_arith)
                requires
                    r * pow10((9 - i) as nat) == 1_000_000_000int,
                    pow10((9 - i) as nat) == 10 * pow10((9 - i - 1) as nat),
                    pow10((9 - i - 1) as nat) >= 1,
            ;
            assert((r * 10) * pow10((9 - i - 1) as nat) == 1_000_000_000int) by (nonlinear_arith)
                requires
                    r * pow10((9 - i) as nat) == 1_000_000_000int,
                    pow10((9 - i) as nat) == 10 * pow10((9 - i - 1) as nat),
            ;
        }
        r = r * 10;
        i = i + 1;
    }
    r
}

/// Parses the digits of a fraction of a second: the whole run of digits at the
/// cursor, which must hold one to nine of them. A run of `n` digits of value `v`
/// gives `v * 10^(9 - n)` nanoseconds. On failure the cursor stays and the error
/// spans the run.
pub fn parse_nanosecond(str: &Vec<char>, position: &mut usize) -> (r: ParseResult<u32>)
    ensures
        match scan_nanosecond(str@, *old(position) as int) {
            Ok((v, q)) => r == Ok::<u32, ParseError>(v as u32) && *final(position) == q,
            Err(e) => r == Err::<u32, ParseError>(e) && *final(position) == *old(position),
        },
        r is Ok ==> r->Ok_0 < 1_000_000_000,
{
    let ghost s = str@;
    let pos = *position;
    let mut length: usize = 0;
    if pos <= str.len() {
        while length < str.len() - pos && '0' <= str[pos + length] && str[pos + length] <= '9'
            invariant
                pos + length <= s.len(),
                s == str@,
                forall|k: int| pos <= k < pos + length ==> is_digit(#[trigger] s[k]),
                digit_run_len(s, pos as int) == length + digit_run_len(s, pos + length),
            decreases s.len() - pos - length,
        {
            length = length + 1;
        }
    }
    if 1 <= length && length <= 9 {
        let end = pos + length;
        let ghost sub = s.subrange(pos as int, end as int);
        proof {
            assert(all_digits(sub)) by {
                assert forall|k: int| 0 <= k < sub.len() implies is_digit(#[trigger] sub[k]) by {
                    assert(sub[k] == s[pos + k]);
                }
            }
            lemma_digits_value_nonneg(sub);
            lemma_pow10_add(length as nat, (9 - length) as nat);
            lemma_pow10_positive((9 - length) as nat);
            reveal_with_fuel(pow10, 10);
            assert(pow10(9) == 1_000_000_000);
        }
        if let Some(v) = scan_digits(str, pos, end, 999_999_999) {
            let scale = pow10_u32((9 - length) as u32);
            proof {
                assert(v * scale < 1_000_000_000) by (nonlinear_arith)
                    requires
                        v < pow10(length as nat),
                        scale == pow10((9 - length) as nat),
                        pow10(length as nat) * pow10((9 - length) as nat) == 1_000_000_000,
                        scale >= 1,
                ;
            }
            *position = end;
            return Ok(v as u32 * scale);
        }
    }
    proof {
        if pos > s.len() {
            assert(digit_run_len(s, pos as int) == 0);
        }
    }
    Err(ParseError::invalid(ParseErrorKind::InvalidNanoseconds, pos, length))
}

/// Whether the `token.len()` characters at `position` are `token`.
fn text_matches(str: &Vec<char>, position: usize, token: &str, length: usize) -> (r: bool)
    requires
        length == token@.len(),
        position + length <= str@.len(),
    ensures
        r == (str@.subrange(position as int, position + length) == token@),
{
    let n = str.len();
    let mut i: usize = 0;
    while i < length
        invariant
            n == str@.len(),
            i <= length == token@.len(),
            position + length <= str@.len(),
            str@.subrange(position as int, position + i) == token@.subrange(0, i as int),
        decreases length - i,
    {
        if str[position + i] != token.get_char(i) {
            proof {
                assert(str@.subrange(position as int, position + length)[i as int] == str@[position + i]);
            }
            return false;
        }
        assert(str@.subrange(position as int, position + i + 1) =~= token@.subrange(0, i + 1));
        i = i + 1;
    }
    assert(token@.subrange(0, length as int) =~= token@);
    true
}

/// Requires the literal `token` at the cursor and moves past it; otherwise the
/// cursor stays and an invalid-token error spans the literal's length.
pub fn parse_token(str: &Vec<char>, position: &mut usize, token: &str) -> (r: ParseResult<()>)
    requires
        *old(position) + token@.len() <= usize::MAX,
    ensures
        match scan_token(str@, *old(position) as int, token@) {
            Ok(q) => r == Ok::<(), ParseError>(()) && *final(position) == q,
            Err(e) => r == Err::<(), ParseError>(e) && *final(position) == *old(position),
        },
{
    let length = token.unicode_len();
    let pos = *position;
    if pos <= str.len() && length <= str.len() - pos {
        if text_matches(str, pos, token, length) {
            *position = pos + length;
            return Ok(());
        }
    }
    Err(ParseError::invalid_token(pos, length))
}

/// Probes the literal `token` where the input may end: `Ok(false)` where too
/// little input is left for it, `Ok(true)` (moving past it) where it stands at
/// the cursor, and an invalid-token error on any other text.
pub fn parse_token_or_end(str: &Vec<char>, position: &mut usize, token: &str) -> (r: ParseResult<bool>)
    requires
        *old(position) + token@.len() <= usize::MAX,
    ensures
        match scan_token_or_end(str@, *old(position) as int, token@) {
            Ok((b, q)) => r == Ok::<bool, ParseError>(b) && *final(position) == q,
            Err(e) => r == Err::<bool, ParseError>(e) && *final(position) == *old(position),
        },
{
    let length = token.unicode_len();
    let pos = *position;
    if pos <= str.len() && length <= str.len() - pos {
        if text_matches(str, pos, token, length) {
            *position = pos + length;
            return Ok(true);
        } else {
            return Err(ParseError::invalid_token(pos, length));
        }
    }
    Ok(false)
}

/// Probes the optional literal `token`: `Ok(true)` (moving past it) where it
/// stands at the cursor, `Ok(false)` on other text, and an invalid-token error
/// where too little input is left to decide.
pub fn parse_is_token(str: &Vec<char>, position: &mut usize, token: &str) -> (r: ParseResult<bool>)
    requires
        *old(position) + token@.len() <= usize::MAX,
    ensures
        match scan_is_token(str@, *old(position) as int, token@) {
            Ok((b, q)) => r == Ok::<bool, ParseError>(b) && *final(position) == q,
            Err(e) => r == Err::<bool, ParseError>(e) && *final(position) == *old(position),
        },
{
    let length = token.unicode_len();
    let pos = *position;
    if pos <= str.len() && length <= str.len() - pos {
        if text_matches(str, pos, token, length) {
            *position = pos + length;
            return Ok(true);
        } else {
            return Ok(false);
        }
    }
    Err(ParseError::invalid_token(pos, length))
}

/// Succeeds only where the cursor stands at the end of the input; otherwise the
/// error is an empty span at the cursor.
pub fn parse_end_of_string(str: &Vec<char>, position: &usize) -> (r: ParseResult<()>)
    ensures
        r == if str@.len() == *position {
            Ok::<(), ParseError>(())
        } else {
            Err(span_error(ParseErrorKind::StringNotEnded, *position as int, 0))
        },
{
    if str.len() == *position {
        return Ok(());
    }
    Err(ParseError::invalid(ParseErrorKind::StringNotEnded, *position, 0))
}

/// Parses a zone designator: `Z` for UTC, or `+hh:mm` / `-hh:mm` with an hour
/// from 0 to 12. Returns the offset east of UTC in seconds.
pub fn parse_tzd(str: &Vec<char>, position: &mut usize) -> (r: ParseResult<i32>)
    requires
        *old(position) + 6 <= usize::MAX,
    ensures
        match scan_tzd(str@, *old(position) as int) {
            Ok((v, q)) => r == Ok::<i32, ParseError>(v as i32) && *final(position) == q,
            Err(e) => r == Err::<i32, ParseError>(e) && *final(position) == *old(position),
        },
        r is Ok ==> -46740 <= r->Ok_0 <= 46740,
{
    proof {
        reveal_strlit("Z");
        reveal_strlit("+");
        reveal_strlit("-");
        reveal_strlit(":");
        assert(":"@ =~= seq![':']);
    }
    let start = *position;
    let ghost s = str@;
    if parse_is_token(str, position, "Z")? {
        assert(s.subrange(start as int, start + 1)[0] == s[start as int]);
        assert("Z"@[0] == 'Z');
        return Ok(0);
    }
    let is_positive = parse_is_token(str, position, "+")?;
    let is_negative = if is_positive { false } else { parse_is_token(str, position, "-")? };
    proof {
        assert(s.subrange(start as int, start + 1)[0] == s[start as int]);
        assert("Z"@[0] == 'Z' && "+"@[0] == '+' && "-"@[0] == '-');
        if s[start as int] == 'Z' {
            assert(s.subrange(start as int, start + 1) =~= "Z"@);
        }
        if s[start as int] == '+' {
            assert(s.subrange(start as int, start + 1) =~= "+"@);
        }
        if s[start as int] == '-' {
            assert(s.subrange(start as int, start + 1) =~= "-"@);
        }
        assert(s[start as int] != 'Z');
        assert(is_positive <==> s[start as int] == '+');
        assert(is_negative <==> s[start as int] == '-');
        assert(*position == start + 1 || !(is_positive || is_negative));
    }
    if is_positive || is_negative {
        let hour = match parse_hour_timezone(str, position) {
            Ok(h) => h,
            Err(e) => {
                *position = start;
                return Err(e);
            }
        };
        if let Err(e) = parse_token(str, position, ":") {
            *position = start;
            return Err(e);
        }
        let minute = match parse_minute(str, position) {
            Ok(m) => m,
            Err(e) => {
                *position = start;
                return Err(e);
            }
        };
        let offset = (hour * 3600 + minute * 60) as i32;
        if is_negative {
            return Ok(-offset);
        } else {
            return Ok(offset);
        }
    }
    Err(ParseError::invalid_token(start, 1))
}

/// A year scanned from four characters has at most four digits.
pub proof fn lemma_year_range(s: Seq<char>, p: int)
    requires
        0 <= p,
    ensures
        scan_signed(s, p, 4, ParseErrorKind::InvalidYear) is Ok ==>
            -999 <= scan_signed(s, p, 4, ParseErrorKind::InvalidYear)->Ok_0.0 <= 9999,
{
    if p + 4 <= s.len() {
        let sub = s.subrange(p, p + 4);
        if sub.len() > 0 && (sub[0] == '-' || sub[0] == '+') {
            if all_digits(sub.drop_first()) {
                lemma_digits_value_nonneg(sub.drop_first());
                reveal_with_fuel(pow10, 4);
                assert(pow10(3) == 1000);
            }
        } else if all_digits(sub) {
            lemma_digits_value_nonneg(sub);
            reveal_with_fuel(pow10, 5);
            assert(pow10(4) == 10000);
        }
    }
}

} // verus!
