//! The record timestamp: a civil date and time, normalized to UTC, at
//! second precision. The canonical written form `YYYY-MM-DDTHH:MM:SSZ` —
//! the one this library emits — is parsed and rendered here exactly;
//! every other form the timestamp grammar allows (offsets, fractional
//! seconds) is handled through the date-time library.
use chrono::Datelike;
use chrono::Timelike;
use vstd::prelude::*;

verus! {

/// A civil UTC instant at second precision.
///
/// The output grammar carries no sub-second resolution, so none is stored:
/// finer-grained input is truncated at the boundary where it is read.
#[derive(Debug, Clone, Copy, PartialEq, Eq, Structural)]
pub struct Timestamp {
    pub year: u16,
    pub month: u8,
    pub day: u8,
    pub hour: u8,
    pub minute: u8,
    pub second: u8,
}

/// Whether a year is a leap year.
pub open spec fn is_leap_year(y: int) -> bool {
    y % 4 == 0 && (y % 100 != 0 || y % 400 == 0)
}

/// The number of days in a month.
pub open spec fn days_in_month(y: int, m: int) -> int {
    if m == 2 {
        if is_leap_year(y) {
            29
        } else {
            28
        }
    } else if m == 4 || m == 6 || m == 9 || m == 11 {
        30
    } else {
        31
    }
}

impl Timestamp {
    /// A well-formed civil date and time, within the four-digit years the
    /// written form can carry.
    pub open spec fn wf(self) -> bool {
        &&& self.year <= 9999
        &&& 1 <= self.month <= 12
        &&& 1 <= self.day <= days_in_month(self.year as int, self.month as int)
        &&& self.hour <= 23
        &&& self.minute <= 59
        &&& self.second <= 59
    }
}

/// The character for one decimal digit of a value.
pub open spec fn dchar(n: int) -> char {
    crate::text::digit_char(n % 10)
}

/// The canonical written form of a timestamp.
pub open spec fn render_ts(t: Timestamp) -> Seq<char> {
    seq![
        dchar(t.year as int / 1000),
        dchar(t.year as int / 100),
        dchar(t.year as int / 10),
        dchar(t.year as int),
        '-',
        dchar(t.month as int / 10),
        dchar(t.month as int),
        '-',
        dchar(t.day as int / 10),
        dchar(t.day as int),
        'T',
        dchar(t.hour as int / 10),
        dchar(t.hour as int),
        ':',
        dchar(t.minute as int / 10),
        dchar(t.minute as int),
        ':',
        dchar(t.second as int / 10),
        dchar(t.second as int),
        'Z',
    ]
}

/// Whether a character is a decimal digit.
pub open spec fn is_digit(c: char) -> bool {
    '0' <= c && c <= '9'
}

/// The value of a digit character.
pub open spec fn dv(c: char) -> int {
    c as u32 - 48
}

/// Whether a character is a decimal digit.
fn is_digit_c(c: char) -> (r: bool)
    ensures
        r == is_digit(c),
{
    let u = c as u32;
    48 <= u && u <= 57
}

/// Reading the canonical written form back: exactly twenty characters,
/// digits and separators in their fixed places, naming a well-formed
/// timestamp.
pub open spec fn parse_canonical(s: Seq<char>) -> Option<Timestamp> {
    if s.len() == 20 && is_digit(s[0]) && is_digit(s[1]) && is_digit(s[2]) && is_digit(s[3]) && s[4]
        == '-' && is_digit(s[5]) && is_digit(s[6]) && s[7] == '-' && is_digit(s[8]) && is_digit(
        s[9]) && s[10] == 'T' && is_digit(s[11]) && is_digit(s[12]) && s[13] == ':' && is_digit(
        s[14]) && is_digit(s[15]) && s[16] == ':' && is_digit(s[17]) && is_digit(s[18]) && s[19]
        == 'Z' {
        let t = Timestamp {
            year: (dv(s[0]) * 1000 + dv(s[1]) * 100 + dv(s[2]) * 10 + dv(s[3])) as u16,
            month: (dv(s[5]) * 10 + dv(s[6])) as u8,
            day: (dv(s[8]) * 10 + dv(s[9])) as u8,
            hour: (dv(s[11]) * 10 + dv(s[12])) as u8,
            minute: (dv(s[14]) * 10 + dv(s[15])) as u8,
            second: (dv(s[17]) * 10 + dv(s[18])) as u8,
        };
        if t.wf() {
            Some(t)
        } else {
            None
        }
    } else {
        None
    }
}

/// Append the two-digit form of a value below one hundred.
fn push2(s: &mut String, v: u8)
    requires
        v <= 99,
    ensures
        final(s)@ == old(s)@.push(dchar(v as int / 10)).push(dchar(v as int)),
{
    crate::text::push_char(s, (48 + v / 10) as char);
    crate::text::push_char(s, (48 + v % 10) as char);
}

/// Render a timestamp in its canonical written form.
#[verifier::rlimit(100)]
pub fn render_timestamp(t: &Timestamp) -> (r: String)
    requires
        t.wf(),
    ensures
        r@ == render_ts(*t),
{
    proof {
        let y = t.year as int;
        assert(dchar(y / 1000) == ((48 + (y / 1000) % 10) as u8) as char);
        assert(y / 1000 < 10 && (y / 1000) % 10 == y / 1000);
    }
    let mut s = String::new();
    crate::text::push_char(&mut s, (48 + (t.year / 1000) as u8) as char);
    crate::text::push_char(&mut s, (48 + ((t.year / 100) % 10) as u8) as char);
    crate::text::push_char(&mut s, (48 + ((t.year / 10) % 10) as u8) as char);
    crate::text::push_char(&mut s, (48 + (t.year % 10) as u8) as char);
    crate::text::push_char(&mut s, '-');
    proof {
        let y = t.year as int;
        assert(s@ =~= seq![dchar(y / 1000), dchar(y / 100), dchar(y / 10), dchar(y), '-']);
    }
    let ghost p0 = s@;
    push2(&mut s, t.month);
    crate::text::push_char(&mut s, '-');
    proof {
        assert(s@ =~= p0 + seq![dchar(t.month as int / 10), dchar(t.month as int), '-']);
    }
    let ghost p1 = s@;
    push2(&mut s, t.day);
    crate::text::push_char(&mut s, 'T');
    proof {
        assert(s@ =~= p1 + seq![dchar(t.day as int / 10), dchar(t.day as int), 'T']);
    }
    let ghost p2 = s@;
    push2(&mut s, t.hour);
    crate::text::push_char(&mut s, ':');
    proof {
        assert(s@ =~= p2 + seq![dchar(t.hour as int / 10), dchar(t.hour as int), ':']);
    }
    let ghost p3 = s@;
    push2(&mut s, t.minute);
    crate::text::push_char(&mut s, ':');
    proof {
        assert(s@ =~= p3 + seq![dchar(t.minute as int / 10), dchar(t.minute as int), ':']);
    }
    let ghost p4 = s@;
    push2(&mut s, t.second);
    crate::text::push_char(&mut s, 'Z');
    proof {
        assert(s@ =~= p4 + seq![dchar(t.second as int / 10), dchar(t.second as int), 'Z']);
        assert(s@ =~= render_ts(*t));
    }
    s
}

/// The canonical form of a well-formed timestamp reads back as that
/// timestamp, and is made of ASCII characters.
#[verifier::rlimit(100)]
pub proof fn lemma_render_parse_roundtrip(t: Timestamp)
    requires
        t.wf(),
    ensures
        parse_canonical(render_ts(t)) == Some(t),
        vstd::utf8::is_ascii_chars(render_ts(t)),
        render_ts(t).len() == 20,
{
    let s = render_ts(t);
    let y = t.year as int;
    assert(y == (y / 10) * 10 + y % 10);
    assert(y / 10 == (y / 100) * 10 + (y / 10) % 10);
    assert(y / 100 == (y / 1000) * 10 + (y / 100) % 10);
    assert(dv(s[0]) * 1000 + dv(s[1]) * 100 + dv(s[2]) * 10 + dv(s[3]) == y);
    assert(dv(s[5]) * 10 + dv(s[6]) == t.month as int);
    assert(dv(s[8]) * 10 + dv(s[9]) == t.day as int);
    assert(dv(s[11]) * 10 + dv(s[12]) == t.hour as int);
    assert(dv(s[14]) * 10 + dv(s[15]) == t.minute as int);
    assert(dv(s[17]) * 10 + dv(s[18]) == t.second as int);
    assert(parse_canonical(s) == Some(t));
    assert forall|i: int| 0 <= i < s.len() implies '\0' <= #[trigger] s[i] <= '\u{7f}' by {
    }
}

/// What the date-time library reads out of a timestamp string that is not
/// in the canonical form: the UTC civil fields, or nothing when the text
/// is not a valid timestamp.
pub uninterp spec fn rfc3339_fields(s: Seq<char>) -> Option<(i64, u32, u32, u32, u32, u32)>;

/// Relies on chrono's `DateTime::parse_from_rfc3339` and its conversion to
/// UTC: the result depends on the text alone; the civil fields are read
/// with `Datelike`/`Timelike`, which drop any sub-second part.
#[verifier::external_body]
fn chrono_parse_rfc3339(s: &str) -> (r: Option<(i64, u32, u32, u32, u32, u32)>)
    ensures
        r == rfc3339_fields(s@),
{
    match chrono::DateTime::parse_from_rfc3339(s) {
        Ok(dt) => {
            let u = dt.with_timezone(&chrono::Utc);
            Some((u.year() as i64, u.month(), u.day(), u.hour(), u.minute(), u.second()))
        },
        Err(_) => None,
    }
}

/// Relies on chrono's `Utc::now`: the civil fields of the current moment.
/// Nothing is assumed of the value; callers validate it themselves.
#[verifier::external_body]
pub fn now_fields() -> (r: (i64, u32, u32, u32, u32, u32))
    ensures
        true,
{
    let u = chrono::Utc::now();
    (u.year() as i64, u.month(), u.day(), u.hour(), u.minute(), u.second())
}

/// A timestamp from raw civil fields, when they form a well-formed civil
/// date and time in the four-digit year range.
pub open spec fn spec_from_fields(f: (i64, u32, u32, u32, u32, u32)) -> Option<Timestamp> {
    if 0 <= f.0 <= 9999 && 1 <= f.1 <= 12 && 1 <= f.2 <= 31 && f.3 <= 23 && f.4 <= 59 && f.5 <= 59 {
        let t = Timestamp {
            year: f.0 as u16,
            month: f.1 as u8,
            day: f.2 as u8,
            hour: f.3 as u8,
            minute: f.4 as u8,
            second: f.5 as u8,
        };
        if t.wf() {
            Some(t)
        } else {
            None
        }
    } else {
        None
    }
}

/// Validate raw civil fields into a timestamp.
pub fn timestamp_from_fields(f: (i64, u32, u32, u32, u32, u32)) -> (r: Option<Timestamp>)
    ensures
        r == spec_from_fields(f),
        r matches Some(t) ==> t.wf(),
{
    if !(0 <= f.0 && f.0 <= 9999 && 1 <= f.1 && f.1 <= 12 && 1 <= f.2 && f.2 <= 31 && f.3 <= 23 && f.4 <= 59
        && f.5 <= 59) {
        return None;
    }
    let t = Timestamp {
        year: f.0 as u16,
        month: f.1 as u8,
        day: f.2 as u8,
        hour: f.3 as u8,
        minute: f.4 as u8,
        second: f.5 as u8,
    };
    let dim: u8 = if t.month == 2 {
        if t.year % 4 == 0 && (t.year % 100 != 0 || t.year % 400 == 0) {
            29
        } else {
            28
        }
    } else if t.month == 4 || t.month == 6 || t.month == 9 || t.month == 11 {
        30
    } else {
        31
    };
    proof {
        assert(dim as int == days_in_month(t.year as int, t.month as int));
    }
    if t.day <= dim {
        Some(t)
    } else {
        None
    }
}

/// What parsing a timestamp string yields: the canonical form is read
/// directly; any other text is read as the timestamp grammar at large,
/// normalized to UTC, and accepted when its fields are in range.
pub open spec fn spec_parse_timestamp(s: Seq<char>) -> Option<Timestamp> {
    if parse_canonical(s) is Some {
        parse_canonical(s)
    } else {
        match rfc3339_fields(s) {
            Some(f) => spec_from_fields(f),
            None => None,
        }
    }
}

/// Read the canonical written form, if the text is exactly in it.
fn parse_canonical_str(s: &str) -> (r: Option<Timestamp>)
    ensures
        r == parse_canonical(s@),
{
    let n = s.unicode_len();
    if n != 20 {
        return None;
    }
    let c: [char; 20] = [
        s.get_char(0),
        s.get_char(1),
        s.get_char(2),
        s.get_char(3),
        s.get_char(4),
        s.get_char(5),
        s.get_char(6),
        s.get_char(7),
        s.get_char(8),
        s.get_char(9),
        s.get_char(10),
        s.get_char(11),
        s.get_char(12),
        s.get_char(13),
        s.get_char(14),
        s.get_char(15),
        s.get_char(16),
        s.get_char(17),
        s.get_char(18),
        s.get_char(19),
    ];
    if !(is_digit_c(c[0]) && is_digit_c(c[1]) && is_digit_c(c[2]) && is_digit_c(c[3]) && is_digit_c(
    c[5]) && is_digit_c(c[6]) && is_digit_c(c[8]) && is_digit_c(c[9]) && is_digit_c(c[11])
        && is_digit_c(c[12]) && is_digit_c(c[14]) && is_digit_c(c[15]) && is_digit_c(c[17])
        && is_digit_c(c[18])) {
        return None;
    }
    if !(c[4] == '-' && c[7] == '-' && c[10] == 'T' && c[13] == ':' && c[16] == ':' && c[19]
        == 'Z') {
        return None;
    }
    let y: u32 = (c[0] as u32 - 48) * 1000 + (c[1] as u32 - 48) * 100 + (c[2] as u32 - 48) * 10 + (
    c[3] as u32 - 48);
    let mo: u32 = (c[5] as u32 - 48) * 10 + (c[6] as u32 - 48);
    let dd: u32 = (c[8] as u32 - 48) * 10 + (c[9] as u32 - 48);
    let hh: u32 = (c[11] as u32 - 48) * 10 + (c[12] as u32 - 48);
    let mi: u32 = (c[14] as u32 - 48) * 10 + (c[15] as u32 - 48);
    let ss: u32 = (c[17] as u32 - 48) * 10 + (c[18] as u32 - 48);
    let t = Timestamp {
        year: y as u16,
        month: mo as u8,
        day: dd as u8,
        hour: hh as u8,
        minute: mi as u8,
        second: ss as u8,
    };
    let dim: u8 = if t.month == 2 {
        if t.year % 4 == 0 && (t.year % 100 != 0 || t.year % 400 == 0) {
            29
        } else {
            28
        }
    } else if t.month == 4 || t.month == 6 || t.month == 9 || t.month == 11 {
        30
    } else {
        31
    };
    if 1 <= t.month && t.month <= 12 && 1 <= t.day && t.day <= dim && t.hour <= 23 && t.minute
        <= 59 && t.second <= 59 {
        Some(t)
    } else {
        None
    }
}

/// Parse a timestamp string, normalized to UTC at second precision.
pub fn parse_timestamp(s: &str) -> (r: Option<Timestamp>)
    ensures
        r == spec_parse_timestamp(s@),
        r matches Some(t) ==> t.wf(),
{
    match parse_canonical_str(s) {
        Some(t) => Some(t),
        None => {
            match chrono_parse_rfc3339(s) {
                Some(f) => timestamp_from_fields(f),
                None => None,
            }
        },
    }
}

} // verus!
