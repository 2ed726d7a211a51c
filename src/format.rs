use vstd::prelude::*;
use crate::digits::{digit_char, pad_digits};
use crate::text::string_of_chars;
use crate::timestamp::W3cDateTime;

verus! {

/// The year in four digits, after a `-` where it is negative.
pub open spec fn year_text(y: int) -> Seq<char> {
    if 0 <= y {
        pad_digits(y, 4)
    } else {
        seq!['-'] + pad_digits(-y, 4)
    }
}

/// The fraction of a second: nothing for zero, else a `.` and three, six or
/// nine digits, the fewest that hold it exactly.
pub open spec fn fraction_text(ns: int) -> Seq<char> {
    if ns == 0 {
        Seq::empty()
    } else if ns % 1_000_000 == 0 {
        seq!['.'] + pad_digits(ns / 1_000_000, 3)
    } else if ns % 1000 == 0 {
        seq!['.'] + pad_digits(ns / 1000, 6)
    } else {
        seq!['.'] + pad_digits(ns, 9)
    }
}

/// The zone designator: `Z` for a zero offset, else a sign and `hh:mm` of its magnitude.
pub open spec fn offset_text(off: int) -> Seq<char> {
    if off == 0 {
        seq!['Z']
    } else {
        let a = if off < 0 { -off } else { off };
        seq![if off > 0 { '+' } else { '-' }] + pad_digits(a / 3600, 2) + seq![':'] + pad_digits(
            (a % 3600) / 60,
            2,
        )
    }
}

/// The date and clock time `YYYY-MM-DDThh:mm:ss` of a timestamp.
pub open spec fn date_time_text(t: W3cDateTime) -> Seq<char> {
    year_text(t.year as int) + seq!['-'] + pad_digits(t.month as int, 2) + seq!['-'] + pad_digits(
        t.day as int,
        2,
    ) + seq!['T'] + pad_digits(t.hour as int, 2) + seq![':'] + pad_digits(t.minute as int, 2)
        + seq![':'] + pad_digits(t.second as int, 2)
}

/// The canonical text `YYYY-MM-DDThh:mm:ss[.fraction]TZD` of a timestamp.
pub open spec fn w3c_text(t: W3cDateTime) -> Seq<char> {
    date_time_text(t) + fraction_text(t.nanosecond as int) + offset_text(t.offset as int)
}

fn digit_to_char(d: u32) -> (c: char)
    requires
        d < 10,
    ensures
        c == digit_char(d as int),
{
    ((d as u8) + 48u8) as char
}

/// Appends the last `width` decimal digits of `value`, zero-padded.
fn push_padded(out: &mut Vec<char>, value: u32, width: u32)
    ensures
        final(out)@ == old(out)@ + pad_digits(value as int, width as nat),
    decreases width,
{
    if width > 0 {
        push_padded(out, value / 10, width - 1);
        out.push(digit_to_char(value % 10));
        assert(out@ =~= old(out)@ + pad_digits(value as int, width as nat));
    } else {
        assert(out@ =~= old(out)@ + pad_digits(value as int, width as nat));
    }
}

fn push_date_time(out: &mut Vec<char>, datetime: &W3cDateTime)
    requires
        -9999 <= datetime.year <= 9999,
    ensures
        final(out)@ == old(out)@ + date_time_text(*datetime),
{
    let ghost start = out@;
    if datetime.year < 0 {
        out.push('-');
        push_padded(out, (0 - datetime.year) as u32, 4);
    } else {
        push_padded(out, datetime.year as u32, 4);
    }
    assert(out@ =~= start + year_text(datetime.year as int));
    out.push('-');
    push_padded(out, datetime.month, 2);
    out.push('-');
    push_padded(out, datetime.day, 2);
    out.push('T');
    push_padded(out, datetime.hour, 2);
    out.push(':');
    push_padded(out, datetime.minute, 2);
    out.push(':');
    push_padded(out, datetime.second, 2);
    assert(out@ =~= start + date_time_text(*datetime));
}

fn push_fraction(out: &mut Vec<char>, nanosecond: u32)
    ensures
        final(out)@ == old(out)@ + fraction_text(nanosecond as int),
{
    let ghost start = out@;
    if nanosecond > 0 {
        out.push('.');
        if nanosecond % 1_000_000 == 0 {
            push_padded(out, nanosecond / 1_000_000, 3);
        } else if nanosecond % 1000 == 0 {
            push_padded(out, nanosecond / 1000, 6);
        } else {
            push_padded(out, nanosecond, 9);
        }
    }
    assert(out@ =~= start + fraction_text(nanosecond as int));
}

fn push_offset(out: &mut Vec<char>, offset: i32)
    requires
        -86400 < offset < 86400,
    ensures
        final(out)@ == old(out)@ + offset_text(offset as int),
{
    let ghost start = out@;
    if offset == 0 {
        out.push('Z');
    } else {
        if offset > 0 {
            out.push('+');
        } else {
            out.push('-');
        }
        let magnitude: u32 = if offset < 0 { (0 - offset) as u32 } else { offset as u32 };
        push_padded(out, magnitude / 3600, 2);
        out.push(':');
        push_padded(out, (magnitude % 3600) / 60, 2);
    }
    assert(out@ =~= start + offset_text(offset as int));
}

/// Returns the W3C text of a timestamp, such as `1996-12-19T16:39:57Z`.
pub fn format_w3c(datetime: &W3cDateTime) -> (r: String)
    requires
        datetime.wf(),
    ensures
        r@ == w3c_text(*datetime),
{
    let mut out: Vec<char> = Vec::new();
    push_date_time(&mut out, datetime);
    push_fraction(&mut out, datetime.nanosecond);
    push_offset(&mut out, datetime.offset);
    assert(out@ =~= w3c_text(*datetime));
    string_of_chars(&out)
}

} // verus!
