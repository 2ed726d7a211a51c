use vstd::prelude::*;
use crate::digits::{
    all_digits, digits_value, is_digit, lemma_digits_value_nonneg, lemma_pad_digits_value, lemma_pow10_positive,
    pad_digits, pow10, signed_literal, unsigned_literal,
};
use crate::error::{span_error, ParseErrorKind};
use crate::format::{date_time_text, fraction_text, offset_text, w3c_text, year_text};
use crate::helper::{
    digit_run_len, scan_bounded, scan_is_token, scan_nanosecond, scan_signed, scan_token,
    scan_token_or_end, scan_tzd, scan_unsigned,
};
use crate::parse::{fields, scan_after_minute, scan_after_seconds, scan_date, scan_fields, scan_time, w3c_parse};

verus! {

/// The characters in `[p, p + w)` are all digits.
pub open spec fn digits_at(s: Seq<char>, p: int, w: int) -> bool {
    0 <= p && p + w <= s.len() && all_digits(s.subrange(p, p + w))
}

/// The value of the digits in `[p, p + w)`.
pub open spec fn value_at(s: Seq<char>, p: int, w: int) -> int {
    digits_value(s.subrange(p, p + w))
}

/// Where the zone designator of a canonical text starts: after the seconds,
/// or after the fraction where there is one.
pub open spec fn zone_start(s: Seq<char>) -> int {
    if s[19] == '.' { 20 + digit_run_len(s, 20) } else { 19 }
}

/// Text in the canonical W3C form: every field zero-padded to its width and
/// the year without sign; the seconds present; a fraction only where it is not
/// zero, in three, six or nine digits and without a trailing group of three
/// zeros; and `Z` or an offset that is not zero.
pub open spec fn is_canonical_w3c(s: Seq<char>) -> bool {
    &&& s.len() >= 20
    &&& digits_at(s, 0, 4) && s[4] == '-' && digits_at(s, 5, 2) && s[7] == '-' && digits_at(s, 8, 2)
    &&& s[10] == 'T' && digits_at(s, 11, 2) && s[13] == ':' && digits_at(s, 14, 2)
    &&& s[16] == ':' && digits_at(s, 17, 2)
    &&& s[19] == '.' ==> {
        let n = digit_run_len(s, 20);
        &&& n == 3 || n == 6 || n == 9
        &&& value_at(s, 20, n) != 0
        &&& n == 3 || value_at(s, 20, n) % 1000 != 0
    }
    &&& {
        let z = zone_start(s);
        ||| (s.len() == z + 1 && s[z] == 'Z')
        ||| (s.len() == z + 6 && (s[z] == '+' || s[z] == '-') && digits_at(s, z + 1, 2)
            && s[z + 3] == ':' && digits_at(s, z + 4, 2)
            && (value_at(s, z + 1, 2) != 0 || value_at(s, z + 4, 2) != 0))
    }
}

proof fn lemma_digit_field(s: Seq<char>, p: int, w: int)
    requires
        digits_at(s, p, w),
        1 <= w <= 9,
    ensures
        unsigned_literal(s.subrange(p, p + w)) == Some(value_at(s, p, w)),
        signed_literal(s.subrange(p, p + w)) == Some(value_at(s, p, w)),
        0 <= value_at(s, p, w) < 1_000_000_000,
        pad_digits(value_at(s, p, w), w as nat) == s.subrange(p, p + w),
{
    let sub = s.subrange(p, p + w);
    assert(is_digit(sub[0]));
    lemma_digits_value_nonneg(sub);
    lemma_pow10_le(w as nat, 9);
    reveal_with_fuel(pow10, 10);
    lemma_pad_digits_value(sub);
}

proof fn lemma_pow10_le(a: nat, b: nat)
    requires
        a <= b,
    ensures
        pow10(a) <= pow10(b),
    decreases b,
{
    if a < b {
        lemma_pow10_le(a, (b - 1) as nat);
        lemma_pow10_positive((b - 1) as nat);
    }
}

proof fn lemma_char_token(s: Seq<char>, p: int, c: char)
    requires
        0 <= p < s.len(),
    ensures
        s[p] == c ==> scan_token(s, p, seq![c]) == Ok::<int, crate::error::ParseError>(p + 1),
        s[p] == c ==> scan_is_token(s, p, seq![c]) == Ok::<(bool, int), crate::error::ParseError>((true, p + 1)),
        s[p] == c ==> scan_token_or_end(s, p, seq![c]) == Ok::<(bool, int), crate::error::ParseError>((true, p + 1)),
        s[p] != c ==> scan_is_token(s, p, seq![c]) == Ok::<(bool, int), crate::error::ParseError>((false, p)),
{
    if s[p] == c {
        assert(s.subrange(p, p + 1) =~= seq![c]);
    } else {
        assert(s.subrange(p, p + 1)[0] == s[p]);
    }
}

proof fn lemma_digit_run(s: Seq<char>, p: int)
    requires
        0 <= p <= s.len(),
    ensures
        0 <= digit_run_len(s, p),
        p + digit_run_len(s, p) <= s.len(),
        all_digits(s.subrange(p, p + digit_run_len(s, p))),
        p + digit_run_len(s, p) < s.len() ==> !is_digit(s[p + digit_run_len(s, p)]),
    decreases s.len() - p,
{
    if p < s.len() && is_digit(s[p]) {
        lemma_digit_run(s, p + 1);
        let n = digit_run_len(s, p);
        assert forall|k: int| 0 <= k < n implies is_digit(#[trigger] s.subrange(p, p + n)[k]) by {
            if k > 0 {
                assert(s.subrange(p, p + n)[k] == s.subrange(p + 1, p + n)[k - 1]);
            }
        }
    }
}

proof fn lemma_bounded_field(s: Seq<char>, p: int, min: int, max: int, kind: ParseErrorKind)
    requires
        digits_at(s, p, 2),
        scan_bounded(s, p, 2, min, max, kind) is Ok,
    ensures
        scan_bounded(s, p, 2, min, max, kind) == Ok::<(int, int), crate::error::ParseError>((value_at(s, p, 2), p + 2)),
        min <= value_at(s, p, 2) <= max,
        pad_digits(value_at(s, p, 2), 2) == s.subrange(p, p + 2),
{
    lemma_digit_field(s, p, 2);
}

proof fn lemma_fraction_text(d: Seq<char>)
    requires
        all_digits(d),
        d.len() == 3 || d.len() == 6 || d.len() == 9,
        digits_value(d) != 0,
        d.len() == 3 || digits_value(d) % 1000 != 0,
    ensures
        fraction_text(digits_value(d) * pow10((9 - d.len()) as nat)) == seq!['.'] + d,
        0 < digits_value(d) * pow10((9 - d.len()) as nat) < 1_000_000_000,
{
    let v = digits_value(d);
    lemma_digits_value_nonneg(d);
    lemma_pad_digits_value(d);
    reveal_with_fuel(pow10, 10);
    if d.len() == 3 {
        assert(pow10(3) == 1000);
        assert(pow10((9 - d.len()) as nat) == 1_000_000);
        let ns = v * 1_000_000;
        assert(ns % 1_000_000 == 0 && ns / 1_000_000 == v && 0 < ns < 1_000_000_000) by (nonlinear_arith)
            requires ns == v * 1_000_000, 0 < v < 1000;
        assert(fraction_text(ns) == seq!['.'] + pad_digits(v, 3));
    } else if d.len() == 6 {
        assert(pow10(6) == 1_000_000);
        assert(pow10((9 - d.len()) as nat) == 1000);
        let ns = v * 1000;
        assert(ns % 1_000_000 != 0 && ns % 1000 == 0 && ns / 1000 == v && 0 < ns < 1_000_000_000) by (nonlinear_arith)
            requires ns == v * 1000, 0 < v < 1_000_000, v % 1000 != 0;
        assert(fraction_text(ns) == seq!['.'] + pad_digits(v, 6));
    } else {
        assert(pow10(9) == 1_000_000_000);
        assert(pow10((9 - d.len()) as nat) == 1);
        assert(v % 1_000_000 != 0) by (nonlinear_arith)
            requires v % 1000 != 0, v > 0;
        assert(fraction_text(v * 1) == seq!['.'] + pad_digits(v, 9));
    }
}

proof fn lemma_date_part(s: Seq<char>)
    requires
        is_canonical_w3c(s),
        scan_date(s) is Ok,
    ensures
        scan_date(s) == Ok::<(int, int, int, int), crate::error::ParseError>(
            (value_at(s, 0, 4), value_at(s, 5, 2), value_at(s, 8, 2), 10),
        ),
        0 <= value_at(s, 0, 4) <= 9999,
        pad_digits(value_at(s, 0, 4), 4) == s.subrange(0, 4),
        pad_digits(value_at(s, 5, 2), 2) == s.subrange(5, 7),
        pad_digits(value_at(s, 8, 2), 2) == s.subrange(8, 10),
        1 <= value_at(s, 5, 2) <= 12,
        1 <= value_at(s, 8, 2) <= 31,
{
    let y = value_at(s, 0, 4);
    lemma_digit_field(s, 0, 4);
    lemma_digits_value_nonneg(s.subrange(0, 4));
    reveal_with_fuel(pow10, 5);
    assert(scan_signed(s, 0, 4, ParseErrorKind::InvalidYear) == Ok::<(int, int), crate::error::ParseError>((y, 4)));
    lemma_char_token(s, 4, '-');
    lemma_char_token(s, 7, '-');
    lemma_bounded_field(s, 5, 1, 12, ParseErrorKind::InvalidMonth);
    lemma_bounded_field(s, 8, 1, 31, ParseErrorKind::InvalidDay);
}

proof fn lemma_zone_part(s: Seq<char>, z: int)
    requires
        0 <= z < s.len(),
        (s.len() == z + 1 && s[z] == 'Z') || (s.len() == z + 6 && (s[z] == '+' || s[z] == '-')
            && digits_at(s, z + 1, 2) && s[z + 3] == ':' && digits_at(s, z + 4, 2)
            && (value_at(s, z + 1, 2) != 0 || value_at(s, z + 4, 2) != 0)),
        scan_tzd(s, z) is Ok,
    ensures
        scan_tzd(s, z)->Ok_0.1 == s.len(),
        offset_text(scan_tzd(s, z)->Ok_0.0) == s.subrange(z, s.len() as int),
{
    if s[z] == 'Z' {
        assert(offset_text(0) =~= s.subrange(z, z + 1));
    } else {
        lemma_bounded_field(s, z + 1, 0, 12, ParseErrorKind::InvalidHour);
        lemma_char_token(s, z + 3, ':');
        lemma_bounded_field(s, z + 4, 0, 59, ParseErrorKind::InvalidMinute);
        let oh = value_at(s, z + 1, 2);
        let om = value_at(s, z + 4, 2);
        let a = oh * 3600 + om * 60;
        assert(a > 0 && a / 3600 == oh && (a % 3600) / 60 == om) by (nonlinear_arith)
            requires a == oh * 3600 + om * 60, 0 <= oh <= 12, 0 <= om <= 59, oh != 0 || om != 0;
        let o = if s[z] == '-' { -a } else { a };
        assert(scan_tzd(s, z) == Ok::<(int, int), crate::error::ParseError>((o, z + 6)));
        assert(offset_text(o) =~= s.subrange(z, z + 6));
    }
}

proof fn lemma_after_minute_part(s: Seq<char>)
    requires
        is_canonical_w3c(s),
        scan_after_minute(s, 16) is Ok,
    ensures
        ({
            let (sec, ns, off, q) = scan_after_minute(s, 16)->Ok_0;
            &&& sec == value_at(s, 17, 2)
            &&& pad_digits(sec, 2) == s.subrange(17, 19)
            &&& 0 <= sec <= 59
            &&& 0 <= ns < 1_000_000_000
            &&& fraction_text(ns) == s.subrange(19, zone_start(s))
            &&& offset_text(off) == s.subrange(zone_start(s), s.len() as int)
            &&& q == s.len()
        }),
{
    lemma_char_token(s, 16, ':');
    lemma_bounded_field(s, 17, 0, 59, ParseErrorKind::InvalidSeconds);
    lemma_char_token(s, 19, '.');
    let z = zone_start(s);
    if s[19] == '.' {
        lemma_digit_run(s, 20);
        let n = digit_run_len(s, 20);
        let dd = s.subrange(20, 20 + n);
        lemma_fraction_text(dd);
        let ns = digits_value(dd) * pow10((9 - n) as nat);
        assert(scan_nanosecond(s, 20) == Ok::<(int, int), crate::error::ParseError>((ns, z)));
        assert(seq!['.'] + s.subrange(20, z) =~= s.subrange(19, z));
        lemma_zone_part(s, z);
    } else {
        assert(s.subrange(19, z) =~= Seq::<char>::empty());
        lemma_zone_part(s, z);
    }
}

/// Parsing then formatting gives back any text already in canonical form.
pub proof fn lemma_round_trip(s: Seq<char>)
    requires
        is_canonical_w3c(s),
        w3c_parse(s) is Ok,
    ensures
        w3c_text(w3c_parse(s)->Ok_0) == s,
{
    lemma_date_part(s);
    lemma_char_token(s, 10, 'T');
    lemma_char_token(s, 13, ':');
    lemma_bounded_field(s, 11, 0, 23, ParseErrorKind::InvalidHour);
    lemma_bounded_field(s, 14, 0, 59, ParseErrorKind::InvalidMinute);
    lemma_after_minute_part(s);
    let t = w3c_parse(s)->Ok_0;
    let z = zone_start(s);
    assert(year_text(t.year as int) == s.subrange(0, 4));
    assert(date_time_text(t) =~= s.subrange(0, 19));
    assert(s =~= s.subrange(0, 19) + s.subrange(19, z) + s.subrange(z, s.len() as int));
}

proof fn lemma_prefix_subrange(x: Seq<char>, r: Seq<char>, p: int, q: int)
    requires
        0 <= p <= q <= x.len(),
    ensures
        (x + r).subrange(p, q) == x.subrange(p, q),
{
    assert((x + r).subrange(p, q) =~= x.subrange(p, q));
}

proof fn lemma_stable_unsigned(x: Seq<char>, r: Seq<char>, p: int, w: int, kind: ParseErrorKind)
    requires
        0 <= p,
        0 <= w,
        scan_unsigned(x, p, w, kind) is Ok,
    ensures
        scan_unsigned(x + r, p, w, kind) == scan_unsigned(x, p, w, kind),
{
    lemma_prefix_subrange(x, r, p, p + w);
}

proof fn lemma_stable_signed(x: Seq<char>, r: Seq<char>, p: int, w: int, kind: ParseErrorKind)
    requires
        0 <= p,
        0 <= w,
        scan_signed(x, p, w, kind) is Ok,
    ensures
        scan_signed(x + r, p, w, kind) == scan_signed(x, p, w, kind),
{
    lemma_prefix_subrange(x, r, p, p + w);
}

proof fn lemma_stable_bounded(x: Seq<char>, r: Seq<char>, p: int, w: int, min: int, max: int, kind: ParseErrorKind)
    requires
        0 <= p,
        0 <= w,
        scan_bounded(x, p, w, min, max, kind) is Ok,
    ensures
        scan_bounded(x + r, p, w, min, max, kind) == scan_bounded(x, p, w, min, max, kind),
{
    lemma_stable_unsigned(x, r, p, w, kind);
}

proof fn lemma_stable_char(x: Seq<char>, r: Seq<char>, p: int, c: char)
    requires
        0 <= p,
    ensures
        scan_token(x, p, seq![c]) is Ok ==> scan_token(x + r, p, seq![c]) == scan_token(x, p, seq![c]),
        scan_is_token(x, p, seq![c]) is Ok ==> scan_is_token(x + r, p, seq![c]) == scan_is_token(x, p, seq![c]),
        scan_token_or_end(x, p, seq![c]) is Ok && scan_token_or_end(x, p, seq![c])->Ok_0.0
            ==> scan_token_or_end(x + r, p, seq![c]) == scan_token_or_end(x, p, seq![c]),
{
    if p + 1 <= x.len() {
        lemma_prefix_subrange(x, r, p, p + 1);
    }
}

proof fn lemma_stable_run(x: Seq<char>, r: Seq<char>, p: int)
    requires
        0 <= p,
        p + digit_run_len(x, p) < x.len(),
    ensures
        digit_run_len(x + r, p) == digit_run_len(x, p),
    decreases x.len() - p,
{
    if is_digit(x[p]) {
        lemma_stable_run(x, r, p + 1);
    }
}

proof fn lemma_stable_tzd(x: Seq<char>, r: Seq<char>, p: int)
    requires
        0 <= p,
        scan_tzd(x, p) is Ok,
    ensures
        scan_tzd(x + r, p) == scan_tzd(x, p),
        p < x.len(),
        x[p] == 'Z' || x[p] == '+' || x[p] == '-',
{
    if x[p] != 'Z' {
        lemma_stable_bounded(x, r, p + 1, 2, 0, 12, ParseErrorKind::InvalidHour);
        lemma_stable_char(x, r, p + 3, ':');
        lemma_stable_bounded(x, r, p + 4, 2, 0, 59, ParseErrorKind::InvalidMinute);
    }
}

proof fn lemma_stable_after_seconds(x: Seq<char>, r: Seq<char>, p: int)
    requires
        0 <= p,
        scan_after_seconds(x, p) is Ok,
    ensures
        scan_after_seconds(x + r, p) == scan_after_seconds(x, p),
{
    lemma_stable_char(x, r, p, '.');
    if scan_is_token(x, p, seq!['.'])->Ok_0.0 {
        let q = p + 1;
        let q1 = scan_nanosecond(x, q)->Ok_0.1;
        lemma_stable_tzd(x, r, q1);
        assert(!is_digit(x[q1]));
        lemma_stable_run(x, r, q);
        lemma_prefix_subrange(x, r, q, q1);
    } else {
        lemma_stable_tzd(x, r, p);
    }
}

proof fn lemma_stable_time(x: Seq<char>, r: Seq<char>, p: int)
    requires
        0 <= p,
        scan_time(x, p) is Ok,
    ensures
        scan_time(x + r, p) == scan_time(x, p),
{
    lemma_stable_bounded(x, r, p, 2, 0, 23, ParseErrorKind::InvalidHour);
    lemma_stable_char(x, r, p + 2, ':');
    lemma_stable_bounded(x, r, p + 3, 2, 0, 59, ParseErrorKind::InvalidMinute);
    let q = p + 5;
    lemma_stable_char(x, r, q, ':');
    if scan_is_token(x, q, seq![':'])->Ok_0.0 {
        lemma_stable_bounded(x, r, q + 1, 2, 0, 59, ParseErrorKind::InvalidSeconds);
        lemma_stable_after_seconds(x, r, q + 3);
    } else {
        lemma_stable_tzd(x, r, q);
    }
    assert(scan_after_minute(x + r, q) == scan_after_minute(x, q));
}

/// No character of a well-formed date section is a `T`.
proof fn lemma_date_without_t(x: Seq<char>)
    requires
        scan_date(x) is Ok,
    ensures
        forall|i: int| 0 <= i < 10 ==> x[i] != 'T',
{
    let y = x.subrange(0, 4);
    let m = x.subrange(5, 7);
    let d = x.subrange(8, 10);
    assert(x.subrange(4, 5)[0] == x[4]);
    assert(x.subrange(7, 8)[0] == x[7]);
    assert forall|i: int| 0 <= i < 10 implies x[i] != 'T' by {
        if i < 4 {
            assert(y[i] == x[i]);
            if i > 0 && (y[0] == '-' || y[0] == '+') {
                assert(y.drop_first()[i - 1] == y[i]);
            }
        } else if 5 <= i < 7 {
            assert(m[i - 5] == x[i]);
        } else if 8 <= i {
            assert(d[i - 8] == x[i]);
        }
    }
}

/// Once the grammar has read a date, a `T`, a time and a zone designator to
/// the end of `x`, any text that follows makes the parse fail with
/// string-not-ended, an empty span at the end of `x`. (After a bare date the
/// next character must be `T`, so there the rejection is an unexpected token
/// instead.)
pub proof fn lemma_trailing_rejected(x: Seq<char>, r: Seq<char>)
    requires
        scan_fields(x) is Ok,
        scan_fields(x)->Ok_0.1 == x.len(),
        exists|i: int| 0 <= i < x.len() && x[i] == 'T',
        r.len() > 0,
    ensures
        w3c_parse(x + r) == Err::<crate::timestamp::W3cDateTime, crate::error::ParseError>(
            span_error(ParseErrorKind::StringNotEnded, x.len() as int, 0),
        ),
{
    lemma_date_without_t(x);
    let i = choose|i: int| 0 <= i < x.len() && x[i] == 'T';
    assert(x.len() > 10);
    lemma_stable_signed(x, r, 0, 4, ParseErrorKind::InvalidYear);
    lemma_stable_char(x, r, 4, '-');
    lemma_stable_bounded(x, r, 5, 2, 1, 12, ParseErrorKind::InvalidMonth);
    lemma_stable_char(x, r, 7, '-');
    lemma_stable_bounded(x, r, 8, 2, 1, 31, ParseErrorKind::InvalidDay);
    assert(scan_date(x + r) == scan_date(x));
    lemma_stable_char(x, r, 10, 'T');
    lemma_stable_time(x, r, 11);
    assert(scan_fields(x + r) == scan_fields(x));
}

} // verus!
