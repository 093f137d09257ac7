//! The record grammar: a scanner over raw bytes producing a version, an
//! ordered header-line list and a length-framed body. One grammar serves
//! two modes: in streaming mode running out of input yields a "need more
//! input" outcome, in complete mode it is a failure.
use vstd::prelude::*;

verus! {

use vstd::slice::{slice_subrange, slice_to_vec};
use vstd::utf8::{valid_utf8, decode_utf8};
use crate::text::{lower, lower_str, str_eq, parse_dec, parse_u64_str, ascii_chars};

/// A spec-level scanning step: a value with the position after it, a
/// truncated input, or a mismatch at a position.
pub enum Step<T> {
    Found(T, int),
    More,
    Bad(int),
}

/// One parsed header line: raw token, raw value, and the whitespace seen
/// around the colon.
pub struct HeaderSpec {
    pub key: Seq<u8>,
    pub value: Seq<u8>,
    pub dl: Seq<u8>,
    pub dr: Seq<u8>,
}

/// Whether a byte may appear in a header token: printable ASCII without
/// the separator set; control bytes, including delete, are excluded.
pub open spec fn token_char(b: u8) -> bool {
    !(b <= 31 || b >= 127 || b == 40 || b == 41 || b == 60 || b == 62 || b == 64 || b == 44 || b
        == 59 || b == 58 || b == 34 || b == 47 || b == 91 || b == 93 || b == 63 || b == 61 || b
        == 123 || b == 125 || b == 32 || b == 92)
}

/// Whether a byte may appear in a header token.
pub fn is_header_token_char(chr: u8) -> (r: bool)
    ensures
        r == token_char(chr),
{
    match chr {
        0..=31 | 127..=255 | 40 | 41 | 60 | 62 | 64 | 44 | 59 | 58 | 34 | 47 | 91 | 93 | 63 | 61
            | 123 | 125 | 32 | 92 => false,
        _ => true,
    }
}

/// The first line-break byte at or after `i`.
pub open spec fn find_break(s: Seq<u8>, i: int) -> Option<int>
    decreases s.len() - i,
{
    if !(0 <= i < s.len()) {
        None
    } else if s[i] == 10 || s[i] == 13 {
        Some(i)
    } else {
        find_break(s, i + 1)
    }
}

/// Consume one line terminator at `i`: a line feed, or a carriage return
/// followed by a line feed.
pub open spec fn eat_eol(s: Seq<u8>, i: int) -> Step<()> {
    if i >= s.len() {
        Step::More
    } else if s[i] == 10 {
        Step::Found((), i + 1)
    } else if s[i] == 13 {
        if i + 1 >= s.len() {
            Step::More
        } else if s[i + 1] == 10 {
            Step::Found((), i + 2)
        } else {
            Step::Bad(i)
        }
    } else {
        Step::Bad(i)
    }
}

/// Consume the rest of a line: everything up to the terminator, then the
/// terminator itself.
pub open spec fn take_line(s: Seq<u8>, i: int) -> Step<Seq<u8>> {
    match find_break(s, i) {
        Option::None => Step::More,
        Option::Some(k) => match eat_eol(s, k) {
            Step::Found(u, n) => Step::Found(s.subrange(i, k), n),
            Step::More => Step::More,
            Step::Bad(p) => Step::Bad(p),
        },
    }
}

/// The end of the token starting at `i`: the first position holding a
/// non-token byte, or the end of the input.
pub open spec fn token_end(s: Seq<u8>, i: int) -> int
    decreases s.len() - i,
{
    if !(0 <= i < s.len()) {
        i
    } else if token_char(s[i]) {
        token_end(s, i + 1)
    } else {
        i
    }
}

/// Consume one or more token bytes.
pub open spec fn take_token(s: Seq<u8>, i: int) -> Step<Seq<u8>> {
    let j = token_end(s, i);
    if j >= s.len() {
        Step::More
    } else if j == i {
        Step::Bad(i)
    } else {
        Step::Found(s.subrange(i, j), j)
    }
}

/// The end of the run of spaces starting at `i`.
pub open spec fn spaces_end(s: Seq<u8>, i: int) -> int
    decreases s.len() - i,
{
    if !(0 <= i < s.len()) {
        i
    } else if s[i] == 32 {
        spaces_end(s, i + 1)
    } else {
        i
    }
}

/// Consume zero or more spaces; the input must go on afterwards.
pub open spec fn take_spaces(s: Seq<u8>, i: int) -> Step<Seq<u8>> {
    let j = spaces_end(s, i);
    if j >= s.len() {
        Step::More
    } else {
        Step::Found(s.subrange(i, j), j)
    }
}

/// The bytes of the version-line prefix.
pub open spec fn warc_tag() -> Seq<u8> {
    seq![87u8, 65u8, 82u8, 67u8, 47u8]
}

/// Consume a fixed byte string at `i`; a mismatch anywhere in the overlap
/// fails, a clean run into the end of input asks for more.
pub open spec fn eat_tag(s: Seq<u8>, i: int, t: Seq<u8>) -> Step<()> {
    if exists|j: int| 0 <= j < t.len() && i + j < s.len() && s[i + j] != t[j] {
        Step::Bad(i)
    } else if s.len() - i < t.len() {
        Step::More
    } else {
        Step::Found((), i + t.len())
    }
}

/// Parse one header line at `i`: token, spaces, colon, spaces, value,
/// terminator.
pub open spec fn parse_header_at(s: Seq<u8>, i: int) -> Step<HeaderSpec> {
    match take_token(s, i) {
        Step::Found(key, j1) => match take_spaces(s, j1) {
            Step::Found(dl, j2) => if s[j2] != 58 {
                Step::Bad(j2)
            } else {
                match take_spaces(s, j2 + 1) {
                    Step::Found(dr, j3) => match take_line(s, j3) {
                        Step::Found(value, j4) => Step::Found(
                            HeaderSpec { key, value, dl, dr },
                            j4,
                        ),
                        Step::More => Step::More,
                        Step::Bad(p) => Step::Bad(p),
                    },
                    Step::More => Step::More,
                    Step::Bad(p) => Step::Bad(p),
                }
            },
            Step::More => Step::More,
            Step::Bad(p) => Step::Bad(p),
        },
        Step::More => Step::More,
        Step::Bad(p) => Step::Bad(p),
    }
}

/// Zero or more further header lines: a mismatch ends the run, truncated
/// input asks for more.
pub open spec fn parse_headers_rest(s: Seq<u8>, i: int) -> Step<Seq<HeaderSpec>>
    decreases s.len() - i,
{
    match parse_header_at(s, i) {
        Step::More => Step::More,
        Step::Bad(p) => Step::Found(seq![], i),
        Step::Found(h, j) => if i < j <= s.len() {
            match parse_headers_rest(s, j) {
                Step::Found(t, e) => Step::Found(seq![h] + t, e),
                Step::More => Step::More,
                Step::Bad(p) => Step::Bad(p),
            }
        } else {
            Step::Bad(i)
        },
    }
}

/// One or more header lines: a mismatch on the first is a failure.
pub open spec fn parse_headers_at(s: Seq<u8>, i: int) -> Step<Seq<HeaderSpec>> {
    match parse_header_at(s, i) {
        Step::More => Step::More,
        Step::Bad(p) => Step::Bad(p),
        Step::Found(h, j) => if i < j <= s.len() {
            match parse_headers_rest(s, j) {
                Step::Found(t, e) => Step::Found(seq![h] + t, e),
                Step::More => Step::More,
                Step::Bad(p) => Step::Bad(p),
            }
        } else {
            Step::Bad(i)
        },
    }
}

/// Whether a raw header token names the content length, compared
/// case-insensitively on its ASCII characters.
pub open spec fn is_cl_key(key: Seq<u8>) -> bool {
    lower(ascii_chars(key)) == "content-length"@
}

/// The value of a content-length header: its bytes must decode as text
/// and read as a decimal number within the platform width.
pub open spec fn cl_of_value(b: Seq<u8>) -> Option<nat> {
    if valid_utf8(b) {
        parse_dec(decode_utf8(b), usize::MAX as nat)
    } else {
        Option::None
    }
}

/// Whether some header names the content length.
pub open spec fn has_cl(hs: Seq<HeaderSpec>) -> bool {
    exists|t: int| 0 <= t < hs.len() && is_cl_key(hs[t].key)
}

/// The index of the first header naming the content length.
pub open spec fn first_cl(hs: Seq<HeaderSpec>) -> int {
    choose|t: int|
        0 <= t < hs.len() && is_cl_key(hs[t].key) && (forall|u: int|
            0 <= u < t ==> !is_cl_key(hs[u].key))
}

/// The declared content length of a header-line list: only the first
/// content-length header is honored; none at all means zero.
pub open spec fn scan_cl(hs: Seq<HeaderSpec>) -> Option<nat> {
    if has_cl(hs) {
        cl_of_value(hs[first_cl(hs)].value)
    } else {
        Option::Some(0)
    }
}

/// A whole parsed record at the spec level.
pub struct RecordSpec {
    pub version: Seq<u8>,
    pub headers: Seq<HeaderSpec>,
    pub body: Seq<u8>,
    pub end: int,
}

/// The kind of a parse fault.
#[derive(Debug, Clone, Copy, PartialEq, Eq, Structural)]
pub enum FaultKind {
    /// A structural mismatch against the grammar, including input that
    /// ends too early in complete mode.
    Syntax,
    /// A content-length value that is not a non-negative decimal number
    /// within the platform width (or is not text at all).
    LengthNotInteger,
}

/// The spec-level outcome of parsing one record.
pub enum SpecOutcome {
    SpecParsed(RecordSpec),
    SpecMore,
    SpecFail { at: int, kind: FaultKind },
}

/// Parse one record from the start of the input: version line, header
/// lines, blank line, a body of the declared length, a terminator and a
/// blank line.
/// The version line: the literal prefix, then the version text up to the
/// terminator.
pub open spec fn spec_version(s: Seq<u8>) -> Step<Seq<u8>> {
    match eat_tag(s, 0, warc_tag()) {
        Step::Found(u0, i1) => take_line(s, i1),
        Step::More => Step::More,
        Step::Bad(p) => Step::Bad(p),
    }
}

pub open spec fn spec_record(s: Seq<u8>) -> SpecOutcome {
    {
        match spec_version(s) {
            Step::More => SpecOutcome::SpecMore,
            Step::Bad(p) => SpecOutcome::SpecFail { at: p, kind: FaultKind::Syntax },
            Step::Found(version, i2) => match parse_headers_at(s, i2) {
                Step::More => SpecOutcome::SpecMore,
                Step::Bad(p) => SpecOutcome::SpecFail { at: p, kind: FaultKind::Syntax },
                Step::Found(hs, i3) => match scan_cl(hs) {
                    Option::None => SpecOutcome::SpecFail {
                        at: i3,
                        kind: FaultKind::LengthNotInteger,
                    },
                    Option::Some(cl) => match eat_eol(s, i3) {
                        Step::More => SpecOutcome::SpecMore,
                        Step::Bad(p) => SpecOutcome::SpecFail { at: p, kind: FaultKind::Syntax },
                        Step::Found(u1, i4) => if s.len() - i4 < cl {
                            SpecOutcome::SpecMore
                        } else {
                            match eat_eol(s, i4 + cl) {
                                Step::More => SpecOutcome::SpecMore,
                                Step::Bad(p) => SpecOutcome::SpecFail {
                                    at: p,
                                    kind: FaultKind::Syntax,
                                },
                                Step::Found(u2, i5) => match eat_eol(s, i5) {
                                    Step::More => SpecOutcome::SpecMore,
                                    Step::Bad(p) => SpecOutcome::SpecFail {
                                        at: p,
                                        kind: FaultKind::Syntax,
                                    },
                                    Step::Found(u3, i6) => SpecOutcome::SpecParsed(
                                        RecordSpec {
                                            version,
                                            headers: hs,
                                            body: s.subrange(i4, i4 + cl),
                                            end: i6,
                                        },
                                    ),
                                },
                            }
                        },
                    },
                },
            },
        }
    }
}

/// A parse fault: the offending position and its kind.
#[derive(Debug, Clone, Copy, PartialEq, Eq, Structural)]
pub struct ParseFault {
    pub at: usize,
    pub kind: FaultKind,
}

/// One parsed header line.
#[derive(Debug, Clone, PartialEq)]
pub struct ParsedHeader {
    pub key: String,
    pub value: Vec<u8>,
    pub delim_left: Vec<u8>,
    pub delim_right: Vec<u8>,
}

impl ParsedHeader {
    /// A header line as it would be parsed from `key: value` — no space
    /// before the colon, one after.
    pub fn new(key: &str, value: &[u8]) -> (r: ParsedHeader)
        ensures
            r.key@ == key@,
            r.value@ == value@,
            r.delim_left@ == Seq::<u8>::empty(),
            r.delim_right@ == seq![32u8],
    {
        let mut dr: Vec<u8> = Vec::new();
        dr.push(32);
        proof {
            assert(dr@ =~= seq![32u8]);
        }
        ParsedHeader {
            key: key.to_owned(),
            value: slice_to_vec(value),
            delim_left: Vec::new(),
            delim_right: dr,
        }
    }
}

/// Whether an executable header mirrors a spec-level one.
pub open spec fn ph_matches(ph: ParsedHeader, h: HeaderSpec) -> bool {
    &&& ph.key@ == ascii_chars(h.key)
    &&& ph.value@ == h.value
    &&& ph.delim_left@ == h.dl
    &&& ph.delim_right@ == h.dr
}

/// Whether an executable header list mirrors a spec-level one.
pub open spec fn phs_match(v: Seq<ParsedHeader>, hs: Seq<HeaderSpec>) -> bool {
    &&& v.len() == hs.len()
    &&& forall|j: int| 0 <= j < v.len() ==> ph_matches(#[trigger] v[j], hs[j])
}

/// The outcome of one sub-grammar production.
#[derive(Debug, Clone, PartialEq)]
pub enum PartResult<T> {
    /// A value, and the position of the first byte after it.
    Done(T, usize),
    /// The input ended before the production could finish.
    NeedMore,
    /// The input does not match the production.
    Fail(ParseFault),
}

/// A whole parsed record: version text, header lines in order, body.
#[derive(Debug, Clone, PartialEq)]
pub struct ParsedRecord {
    pub version: Vec<u8>,
    pub headers: Vec<ParsedHeader>,
    pub body: Vec<u8>,
}

/// The outcome of parsing one record.
#[derive(Debug, Clone, PartialEq)]
pub enum ParseOutcome {
    /// A record, and the position of the first unconsumed byte.
    Parsed(ParsedRecord, usize),
    /// Streaming mode only: the input is a prefix of a record; extend it
    /// and parse again.
    Partial,
    /// The input does not hold a record.
    Failed(ParseFault),
}

enum Sc {
    Hit(usize),
    Short,
    Miss(usize),
}

fn scan_eol_at(s: &[u8], i: usize) -> (r: Sc)
    requires
        i <= s@.len(),
    ensures
        match r {
            Sc::Hit(n) => eat_eol(s@, i as int) == Step::<()>::Found((), n as int) && i < n <= s@.len(),
            Sc::Short => eat_eol(s@, i as int) is More,
            Sc::Miss(p) => eat_eol(s@, i as int) == Step::<()>::Bad(p as int),
        },
{
    if i >= s.len() {
        Sc::Short
    } else if s[i] == 10 {
        Sc::Hit(i + 1)
    } else if s[i] == 13 {
        if i + 1 >= s.len() {
            Sc::Short
        } else if s[i + 1] == 10 {
            Sc::Hit(i + 2)
        } else {
            Sc::Miss(i)
        }
    } else {
        Sc::Miss(i)
    }
}

fn find_break_at(s: &[u8], i: usize) -> (r: Option<usize>)
    requires
        i <= s@.len(),
    ensures
        match r {
            Some(k) => find_break(s@, i as int) == Some(k as int) && i <= k < s@.len(),
            None => find_break(s@, i as int) is None,
        },
{
    let n = s.len();
    let mut j = i;
    while j < n
        invariant
            i <= j <= n,
            n == s@.len(),
            find_break(s@, i as int) == find_break(s@, j as int),
        decreases n - j,
    {
        if s[j] == 10 || s[j] == 13 {
            return Some(j);
        }
        j = j + 1;
    }
    None
}

enum LineSc {
    Hit(usize, usize),
    Short,
    Miss(usize),
}

fn scan_line_at(s: &[u8], i: usize) -> (r: LineSc)
    requires
        i <= s@.len(),
    ensures
        match r {
            LineSc::Hit(k, n) => take_line(s@, i as int) == Step::Found(
                s@.subrange(i as int, k as int),
                n as int,
            ) && i <= k < n <= s@.len(),
            LineSc::Short => take_line(s@, i as int) is More,
            LineSc::Miss(p) => take_line(s@, i as int) == Step::<Seq<u8>>::Bad(p as int),
        },
{
    match find_break_at(s, i) {
        None => LineSc::Short,
        Some(k) => match scan_eol_at(s, k) {
            Sc::Hit(n) => LineSc::Hit(k, n),
            Sc::Short => LineSc::Short,
            Sc::Miss(p) => LineSc::Miss(p),
        },
    }
}

fn token_end_at(s: &[u8], i: usize) -> (j: usize)
    requires
        i <= s@.len(),
    ensures
        j == token_end(s@, i as int),
        i <= j <= s@.len(),
        forall|m: int| i <= m < j ==> token_char(s@[m]),
{
    let n = s.len();
    let mut j = i;
    while j < n
        invariant
            i <= j <= n,
            n == s@.len(),
            token_end(s@, i as int) == token_end(s@, j as int),
            forall|m: int| i <= m < j ==> token_char(s@[m]),
        decreases n - j,
    {
        if !is_header_token_char(s[j]) {
            return j;
        }
        j = j + 1;
    }
    j
}

fn spaces_end_at(s: &[u8], i: usize) -> (j: usize)
    requires
        i <= s@.len(),
    ensures
        j == spaces_end(s@, i as int),
        i <= j <= s@.len(),
{
    let n = s.len();
    let mut j = i;
    while j < n
        invariant
            i <= j <= n,
            n == s@.len(),
            spaces_end(s@, i as int) == spaces_end(s@, j as int),
        decreases n - j,
    {
        if s[j] != 32 {
            return j;
        }
        j = j + 1;
    }
    j
}

/// The characters of an ASCII byte region, one per byte.
fn ascii_region_to_string(s: &[u8], lo: usize, hi: usize) -> (r: String)
    requires
        lo <= hi <= s@.len(),
        forall|m: int| lo <= m < hi ==> s@[m] < 128,
    ensures
        r@ == ascii_chars(s@.subrange(lo as int, hi as int)),
{
    let mut out = String::new();
    let mut m = lo;
    while m < hi
        invariant
            lo <= m <= hi <= s@.len(),
            forall|t: int| lo <= t < hi ==> s@[t] < 128,
            out@ == ascii_chars(s@.subrange(lo as int, m as int)),
        decreases hi - m,
    {
        crate::text::push_char(&mut out, s[m] as char);
        proof {
            assert(ascii_chars(s@.subrange(lo as int, m + 1)) =~= ascii_chars(
                s@.subrange(lo as int, m as int),
            ).push(s@[m as int] as char));
        }
        m = m + 1;
    }
    out
}

enum HSc {
    Hit(ParsedHeader, usize),
    Short,
    Miss(usize),
}

fn scan_header_at(s: &[u8], i: usize) -> (r: HSc)
    requires
        i <= s@.len(),
    ensures
        match r {
            HSc::Hit(ph, j) => (parse_header_at(s@, i as int) matches Step::Found(h, jj) && jj == j
                && ph_matches(ph, h)) && i < j <= s@.len(),
            HSc::Short => parse_header_at(s@, i as int) is More,
            HSc::Miss(p) => parse_header_at(s@, i as int) == Step::<HeaderSpec>::Bad(p as int),
        },
{
    let n = s.len();
    let j = token_end_at(s, i);
    if j == n {
        return HSc::Short;
    }
    if j == i {
        return HSc::Miss(i);
    }
    let k1 = spaces_end_at(s, j);
    if k1 == n {
        return HSc::Short;
    }
    if s[k1] != 58 {
        return HSc::Miss(k1);
    }
    let k2 = spaces_end_at(s, k1 + 1);
    if k2 == n {
        return HSc::Short;
    }
    match scan_line_at(s, k2) {
        LineSc::Short => HSc::Short,
        LineSc::Miss(p) => HSc::Miss(p),
        LineSc::Hit(k, nn) => {
            let key = ascii_region_to_string(s, i, j);
            let value = slice_to_vec(slice_subrange(s, k2, k));
            let dl = slice_to_vec(slice_subrange(s, j, k1));
            let dr = slice_to_vec(slice_subrange(s, k1 + 1, k2));
            HSc::Hit(ParsedHeader { key, value, delim_left: dl, delim_right: dr }, nn)
        },
    }
}

/// Parse the version line at the start of the input.
pub fn version(input: &[u8]) -> (r: PartResult<Vec<u8>>)
    ensures
        match r {
            PartResult::Done(v, n) => spec_version(input@) == Step::Found(v@, n as int) && n
                <= input@.len(),
            PartResult::NeedMore => spec_version(input@) is More,
            PartResult::Fail(f) => spec_version(input@) == Step::<Seq<u8>>::Bad(f.at as int)
                && f.kind == FaultKind::Syntax,
        },
{
    let s = input;
    let n = s.len();
    if n == 0 || (n >= 1 && s[0] == 87 && n == 1) || (n >= 2 && s[0] == 87 && s[1] == 65 && n == 2)
        || (n >= 3 && s[0] == 87 && s[1] == 65 && s[2] == 82 && n == 3) || (n >= 4 && s[0] == 87
        && s[1] == 65 && s[2] == 82 && s[3] == 67 && n == 4) {
        if (n >= 1 && s[0] != 87) || (n >= 2 && s[1] != 65) || (n >= 3 && s[2] != 82) || (n >= 4
            && s[3] != 67) {
            return PartResult::Fail(ParseFault { at: 0, kind: FaultKind::Syntax });
        }
        return PartResult::NeedMore;
    }
    if s[0] != 87 || s[1] != 65 || s[2] != 82 || s[3] != 67 || s[4] != 47 {
        return PartResult::Fail(ParseFault { at: 0, kind: FaultKind::Syntax });
    }
    match scan_line_at(s, 5) {
        LineSc::Hit(k, nn) => PartResult::Done(slice_to_vec(slice_subrange(s, 5, k)), nn),
        LineSc::Short => PartResult::NeedMore,
        LineSc::Miss(p) => PartResult::Fail(ParseFault { at: p, kind: FaultKind::Syntax }),
    }
}

/// How a failing header scan relates to the spec grammar: a syntax fault
/// names the mismatch position; a content-length fault names the position
/// after the header lines whose first content-length value would not read
/// as a number.
pub open spec fn headers_fail_matches(s: Seq<u8>, i: int, f: ParseFault) -> bool {
    if f.kind == FaultKind::Syntax {
        parse_headers_at(s, i) == Step::<Seq<HeaderSpec>>::Bad(f.at as int)
    } else {
        &&& f.kind == FaultKind::LengthNotInteger
        &&& (parse_headers_at(s, i) matches Step::Found(hs, e) && e == f.at as int && scan_cl(hs)
            is None)
    }
}

/// The declared content length of a parsed header-line list.
fn compute_cl(v: &Vec<ParsedHeader>, Ghost(hs): Ghost<Seq<HeaderSpec>>) -> (r: Option<usize>)
    requires
        phs_match(v@, hs),
    ensures
        match r {
            Some(c) => scan_cl(hs) == Option::Some(c as nat),
            None => scan_cl(hs) is None,
        },
{
    let n = v.len();
    let mut m: usize = 0;
    while m < n
        invariant
            n == v@.len(),
            0 <= m <= n,
            phs_match(v@, hs),
            forall|t: int| 0 <= t < m ==> !is_cl_key(hs[t].key),
        decreases n - m,
    {
        let ph = &v[m];
        let low = lower_str(ph.key.as_str());
        if str_eq(low.as_str(), "content-length") {
            proof {
                assert(is_cl_key(hs[m as int].key));
                assert(has_cl(hs));
                let t = first_cl(hs);
                assert(0 <= t < hs.len() && is_cl_key(hs[t].key) && (forall|u: int|
                    0 <= u < t ==> !is_cl_key(hs[u].key))) by {
                    assert(0 <= m < hs.len() && is_cl_key(hs[m as int].key) && (forall|u: int|
                        0 <= u < m ==> !is_cl_key(hs[u].key)));
                }
                if t < m {
                    assert(!is_cl_key(hs[t].key));
                } else if m < t {
                    assert(!is_cl_key(hs[m as int].key));
                }
                assert(first_cl(hs) == m as int);
            }
            match crate::text::bytes_to_string(ph.value.as_slice()) {
                None => {
                    return None;
                },
                Some(text) => {
                    match parse_u64_str(text.as_str()) {
                        None => {
                            proof {
                                assert(parse_dec(decode_utf8(hs[m as int].value), usize::MAX as nat)
                                    is None);
                            }
                            return None;
                        },
                        Some(val) => {
                            if val <= (usize::MAX as u64) {
                                return Some(val as usize);
                            } else {
                                proof {
                                    assert(parse_dec(
                                        decode_utf8(hs[m as int].value),
                                        usize::MAX as nat,
                                    ) is None);
                                }
                                return None;
                            }
                        },
                    }
                },
            }
        }
        m = m + 1;
    }
    proof {
        assert(!has_cl(hs));
    }
    Some(0)
}

/// Parse one or more header lines at `i`, and scan them for the declared
/// content length.
fn headers_at(s: &[u8], i: usize) -> (r: PartResult<(Vec<ParsedHeader>, usize)>)
    requires
        i <= s@.len(),
    ensures
        match r {
            PartResult::Done(vc, n) => (parse_headers_at(s@, i as int) matches Step::Found(hs, e)
                && e == n && phs_match(vc.0@, hs) && scan_cl(hs) == Option::Some(vc.1 as nat))
                && n <= s@.len(),
            PartResult::NeedMore => parse_headers_at(s@, i as int) is More,
            PartResult::Fail(f) => headers_fail_matches(s@, i as int, f),
        },
{
    let first = match scan_header_at(s, i) {
        HSc::Short => {
            return PartResult::NeedMore;
        },
        HSc::Miss(p) => {
            return PartResult::Fail(ParseFault { at: p, kind: FaultKind::Syntax });
        },
        HSc::Hit(ph, j) => (ph, j),
    };
    let mut v: Vec<ParsedHeader> = Vec::new();
    let mut cur: usize = first.1;
    let ghost h0 = choose|h: HeaderSpec|
        parse_header_at(s@, i as int) == Step::Found(h, cur as int);
    let ghost mut hs_acc: Seq<HeaderSpec> = seq![h0];
    v.push(first.0);
    proof {
        assert(phs_match(v@, hs_acc));
    }
    let mut done = false;
    let mut out_pos: usize = 0;
    while !done
        invariant
            cur <= s@.len(),
            phs_match(v@, hs_acc),
            !done ==> match parse_headers_rest(s@, cur as int) {
                Step::Found(t, e) => parse_headers_at(s@, i as int) == Step::Found(hs_acc + t, e),
                Step::More => parse_headers_at(s@, i as int) is More,
                Step::Bad(p) => parse_headers_at(s@, i as int) == Step::<Seq<HeaderSpec>>::Bad(p),
            },
            done ==> parse_headers_at(s@, i as int) == Step::Found(hs_acc, out_pos as int)
                && out_pos <= s@.len(),
        decreases (s@.len() - cur) + (if done {
            0int
        } else {
            1int
        }),
    {
        match scan_header_at(s, cur) {
            HSc::Short => {
                proof {
                    assert(parse_headers_rest(s@, cur as int) is More);
                }
                return PartResult::NeedMore;
            },
            HSc::Miss(p) => {
                proof {
                    assert(parse_headers_rest(s@, cur as int) == Step::Found(
                        Seq::<HeaderSpec>::empty(),
                        cur as int,
                    ));
                    assert(hs_acc + Seq::<HeaderSpec>::empty() =~= hs_acc);
                }
                out_pos = cur;
                done = true;
            },
            HSc::Hit(ph, j) => {
                let ghost h = choose|h: HeaderSpec|
                    parse_header_at(s@, cur as int) == Step::Found(h, j as int);
                proof {
                    let rest_j = parse_headers_rest(s@, j as int);
                    assert(parse_headers_rest(s@, cur as int) == (match rest_j {
                        Step::Found(t, e) => Step::Found(seq![h] + t, e),
                        Step::More => Step::<Seq<HeaderSpec>>::More,
                        Step::Bad(p) => Step::<Seq<HeaderSpec>>::Bad(p),
                    }));
                    if rest_j is Found {
                        let t = rest_j->Found_0;
                        assert(hs_acc + (seq![h] + t) =~= (hs_acc + seq![h]) + t);
                    }
                }
                v.push(ph);
                proof {
                    hs_acc = hs_acc + seq![h];
                }
                cur = j;
            },
        }
    }
    let cl = match compute_cl(&v, Ghost(hs_acc)) {
        Some(c) => c,
        None => {
            return PartResult::Fail(
                ParseFault { at: out_pos, kind: FaultKind::LengthNotInteger },
            );
        },
    };
    PartResult::Done((v, cl), out_pos)
}

/// Parse one or more header lines at the start of the input, yielding the
/// lines and the declared content length.
pub fn headers(input: &[u8]) -> (r: PartResult<(Vec<ParsedHeader>, usize)>)
    ensures
        match r {
            PartResult::Done(vc, n) => (parse_headers_at(input@, 0) matches Step::Found(hs, e) && e
                == n && phs_match(vc.0@, hs) && scan_cl(hs) == Option::Some(vc.1 as nat)),
            PartResult::NeedMore => parse_headers_at(input@, 0) is More,
            PartResult::Fail(f) => headers_fail_matches(input@, 0, f),
        },
{
    headers_at(input, 0)
}

/// Parse one record from the start of the input. In streaming mode an
/// input that ends mid-record asks for more; in complete mode it fails at
/// the end of the input.
pub fn record(input: &[u8], streaming: bool) -> (r: ParseOutcome)
    ensures
        match spec_record(input@) {
            SpecOutcome::SpecParsed(p) => (r matches ParseOutcome::Parsed(rec, n) && rec.version@
                == p.version && phs_match(rec.headers@, p.headers) && rec.body@ == p.body && n
                == p.end),
            SpecOutcome::SpecMore => if streaming {
                r == ParseOutcome::Partial
            } else {
                r matches ParseOutcome::Failed(f) && f.at == input@.len() && f.kind
                    == FaultKind::Syntax
            },
            SpecOutcome::SpecFail { at, kind } => r matches ParseOutcome::Failed(f) && f.at == at
                && f.kind == kind,
        },
{
    let n = input.len();
    let ver = match version(input) {
        PartResult::Done(ver, i2) => (ver, i2),
        PartResult::NeedMore => {
            if streaming {
                return ParseOutcome::Partial;
            } else {
                return ParseOutcome::Failed(ParseFault { at: n, kind: FaultKind::Syntax });
            }
        },
        PartResult::Fail(f) => {
            return ParseOutcome::Failed(f);
        },
    };
    let hv = match headers_at(input, ver.1) {
        PartResult::Done(vc, i3) => (vc, i3),
        PartResult::NeedMore => {
            if streaming {
                return ParseOutcome::Partial;
            } else {
                return ParseOutcome::Failed(ParseFault { at: n, kind: FaultKind::Syntax });
            }
        },
        PartResult::Fail(f) => {
            return ParseOutcome::Failed(f);
        },
    };
    let cl = (hv.0).1;
    let i3 = hv.1;
    let i4 = match scan_eol_at(input, i3) {
        Sc::Hit(i4) => i4,
        Sc::Short => {
            if streaming {
                return ParseOutcome::Partial;
            } else {
                return ParseOutcome::Failed(ParseFault { at: n, kind: FaultKind::Syntax });
            }
        },
        Sc::Miss(p) => {
            return ParseOutcome::Failed(ParseFault { at: p, kind: FaultKind::Syntax });
        },
    };
    if n - i4 < cl {
        if streaming {
            return ParseOutcome::Partial;
        } else {
            return ParseOutcome::Failed(ParseFault { at: n, kind: FaultKind::Syntax });
        }
    }
    let body = slice_to_vec(slice_subrange(input, i4, i4 + cl));
    let i5 = match scan_eol_at(input, i4 + cl) {
        Sc::Hit(i5) => i5,
        Sc::Short => {
            if streaming {
                return ParseOutcome::Partial;
            } else {
                return ParseOutcome::Failed(ParseFault { at: n, kind: FaultKind::Syntax });
            }
        },
        Sc::Miss(p) => {
            return ParseOutcome::Failed(ParseFault { at: p, kind: FaultKind::Syntax });
        },
    };
    let i6 = match scan_eol_at(input, i5) {
        Sc::Hit(i6) => i6,
        Sc::Short => {
            if streaming {
                return ParseOutcome::Partial;
            } else {
                return ParseOutcome::Failed(ParseFault { at: n, kind: FaultKind::Syntax });
            }
        },
        Sc::Miss(p) => {
            return ParseOutcome::Failed(ParseFault { at: p, kind: FaultKind::Syntax });
        },
    };
    ParseOutcome::Parsed(
        ParsedRecord { version: ver.0, headers: (hv.0).0, body },
        i6,
    )
}

/// Parse one header line at the start of the input.
pub fn header(input: &[u8]) -> (r: PartResult<ParsedHeader>)
    ensures
        match r {
            PartResult::Done(ph, n) => parse_header_at(input@, 0) matches Step::Found(h, jj) && jj
                == n && ph_matches(ph, h),
            PartResult::NeedMore => parse_header_at(input@, 0) is More,
            PartResult::Fail(f) => parse_header_at(input@, 0) == Step::<HeaderSpec>::Bad(
                f.at as int,
            ) && f.kind == FaultKind::Syntax,
        },
{
    match scan_header_at(input, 0) {
        HSc::Hit(ph, j) => PartResult::Done(ph, j),
        HSc::Short => PartResult::NeedMore,
        HSc::Miss(p) => PartResult::Fail(ParseFault { at: p, kind: FaultKind::Syntax }),
    }
}

} // verus!
