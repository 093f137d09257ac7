//! The output half of the codec: writing a raw record back into its byte
//! form. The output always uses carriage-return line-feed terminators and
//! one space after each colon.
use vstd::prelude::*;

verus! {

use crate::header::{WarcHeader, display_name};
use crate::header_map::HeaderMap;
use crate::record::RawRecord;
use vstd::utf8::encode_utf8;

/// A carriage-return line-feed pair.
pub open spec fn crlf() -> Seq<u8> {
    seq![13u8, 10u8]
}

/// One written header line: the key's display name, a colon and one
/// space, the value verbatim, and the terminator.
pub open spec fn render_entry(e: (WarcHeader, Vec<u8>)) -> Seq<u8> {
    encode_utf8(display_name(e.0)) + seq![58u8, 32u8] + e.1@ + crlf()
}

/// The written header lines from an index on.
pub open spec fn render_entries(es: Seq<(WarcHeader, Vec<u8>)>, i: int) -> Seq<u8>
    decreases es.len() - i,
{
    if !(0 <= i < es.len()) {
        Seq::empty()
    } else {
        render_entry(es[i]) + render_entries(es, i + 1)
    }
}

/// The written header lines before an index.
pub open spec fn render_entries_upto(es: Seq<(WarcHeader, Vec<u8>)>, i: int) -> Seq<u8>
    decreases i,
{
    if i <= 0 || i > es.len() {
        Seq::empty()
    } else {
        render_entries_upto(es, i - 1) + render_entry(es[i - 1])
    }
}

/// The whole header run splits around any index.
proof fn lemma_render_entries_split(es: Seq<(WarcHeader, Vec<u8>)>, i: int)
    requires
        0 <= i <= es.len(),
    ensures
        render_entries(es, 0) == render_entries_upto(es, i) + render_entries(es, i),
    decreases i,
{
    if i == 0 {
        assert(render_entries_upto(es, 0) + render_entries(es, 0) =~= render_entries(es, 0));
    } else {
        lemma_render_entries_split(es, i - 1);
        if i - 1 < es.len() {
            assert(render_entries(es, i - 1) == render_entry(es[i - 1]) + render_entries(es, i));
            assert(render_entries_upto(es, i) + render_entries(es, i) =~= render_entries_upto(
                es,
                i - 1,
            ) + (render_entry(es[i - 1]) + render_entries(es, i)));
        }
    }
}

/// The written form of a raw record: the version text, each header line,
/// a blank line, the body verbatim, the terminator and a blank line.
pub open spec fn render_raw(raw: RawRecord) -> Seq<u8> {
    encode_utf8(raw.headers.version@) + crlf() + render_entries(
        raw.headers.headers.entries_seq(),
        0,
    ) + crlf() + raw.body@ + crlf() + crlf()
}

/// Write a raw record out as bytes.
pub fn to_bytes(raw: &RawRecord) -> (r: Vec<u8>)
    ensures
        r@ == render_raw(*raw),
{
    let mut out: Vec<u8> = raw.headers.version.as_str().as_bytes_vec();
    out.push(13);
    out.push(10);
    proof {
        assert(out@ =~= encode_utf8(raw.headers.version@) + crlf());
    }
    let ghost head = out@;
    let m: &HeaderMap = raw.headers.header_map();
    let ghost es = m.entries_seq();
    let n = m.len();
    let mut i: usize = 0;
    while i < n
        invariant
            n == es.len(),
            0 <= i <= n,
            *m == raw.headers.headers,
            es == m.entries_seq(),
            out@ == head + render_entries_upto(es, i as int),
        decreases n - i,
    {
        let entry = m.entry_at(i);
        let name = entry.0.name();
        let mut name_bytes = name.as_str().as_bytes_vec();
        out.append(&mut name_bytes);
        out.push(58);
        out.push(32);
        let mut value_copy = vstd::slice::slice_to_vec(entry.1.as_slice());
        out.append(&mut value_copy);
        out.push(13);
        out.push(10);
        proof {
            assert(out@ =~= head + render_entries_upto(es, i as int) + render_entry(
                es[i as int],
            ));
            assert(render_entries_upto(es, i + 1) == render_entries_upto(es, i as int)
                + render_entry(es[i as int]));
            assert(out@ =~= head + render_entries_upto(es, i + 1));
        }
        i = i + 1;
    }
    out.push(13);
    out.push(10);
    let mut body_copy = vstd::slice::slice_to_vec(raw.body.as_slice());
    out.append(&mut body_copy);
    out.push(13);
    out.push(10);
    out.push(13);
    out.push(10);
    proof {
        lemma_render_entries_split(es, es.len() as int);
        assert(render_entries_upto(es, es.len() as int) =~= render_entries_upto(
            es,
            es.len() as int,
        ) + render_entries(es, es.len() as int));
        assert(render_entries(es, 0) == render_entries_upto(es, es.len() as int));
        assert(out@ =~= render_raw(*raw));
    }
    out
}

/// A break byte: a carriage return or a line feed.
pub open spec fn is_break(b: u8) -> bool {
    b == 13 || b == 10
}

/// Where the first break after `i` lies, given a break-free run up to it.
proof fn lemma_find_break_at(s: Seq<u8>, i: int, j: int)
    requires
        0 <= i <= j < s.len(),
        forall|m: int| i <= m < j ==> !is_break(#[trigger] s[m]),
        is_break(s[j]),
    ensures
        crate::parser::find_break(s, i) == Some(j),
    decreases j - i,
{
    if i < j {
        assert(!is_break(s[i]));
        lemma_find_break_at(s, i + 1, j);
    }
}

/// Where a token ends, given token bytes up to a non-token byte.
proof fn lemma_token_end_at(s: Seq<u8>, i: int, j: int)
    requires
        0 <= i <= j < s.len(),
        forall|m: int| i <= m < j ==> crate::parser::token_char(#[trigger] s[m]),
        !crate::parser::token_char(s[j]),
    ensures
        crate::parser::token_end(s, i) == j,
    decreases j - i,
{
    if i < j {
        lemma_token_end_at(s, i + 1, j);
    }
}

/// Text that can stand as a header token on the wire: non-empty, each
/// character an ASCII token byte.
pub open spec fn token_text(cs: Seq<char>) -> bool {
    &&& cs.len() >= 1
    &&& forall|t: int|
        0 <= t < cs.len() ==> '\0' <= #[trigger] cs[t] <= '\u{7f}' && crate::parser::token_char(
            cs[t] as u8,
        )
}

/// Reading the characters of an ASCII encoding gives the characters back.
proof fn lemma_ascii_chars_of_encode(cs: Seq<char>)
    requires
        vstd::utf8::is_ascii_chars(cs),
    ensures
        crate::text::ascii_chars(encode_utf8(cs)) == cs,
{
    broadcast use vstd::utf8::is_ascii_chars_encode_utf8;

    assert(crate::text::ascii_chars(encode_utf8(cs)) =~= cs);
}

/// An entry that can be written and read back: a token key, and a value
/// free of break bytes that does not begin with a space.
pub open spec fn wire_entry(e: (WarcHeader, Vec<u8>)) -> bool {
    &&& token_text(display_name(e.0))
    &&& forall|t: int| 0 <= t < e.1@.len() ==> !is_break(#[trigger] e.1@[t])
    &&& (e.1@.len() > 0 ==> e.1@[0] != 32)
}

/// The spec-level header that parsing a written entry yields.
pub open spec fn entry_header_spec(e: (WarcHeader, Vec<u8>)) -> crate::parser::HeaderSpec {
    crate::parser::HeaderSpec {
        key: encode_utf8(display_name(e.0)),
        value: e.1@,
        dl: Seq::empty(),
        dr: seq![32u8],
    }
}

/// Parsing a written header line finds exactly the entry written.
proof fn lemma_parse_rendered_header(s: Seq<u8>, i: int, e: (WarcHeader, Vec<u8>))
    requires
        wire_entry(e),
        0 <= i,
        i + render_entry(e).len() < s.len(),
        s.subrange(i, i + render_entry(e).len()) == render_entry(e),
    ensures
        crate::parser::parse_header_at(s, i) == crate::parser::Step::Found(
            entry_header_spec(e),
            i + render_entry(e).len(),
        ),
{
    broadcast use vstd::utf8::is_ascii_chars_encode_utf8;

    let re = render_entry(e);
    let db = encode_utf8(display_name(e.0));
    let dn = db.len() as int;
    let vl = e.1@.len() as int;
    let cs = display_name(e.0);
    assert(vstd::utf8::is_ascii_chars(cs));
    assert(forall|t: int| 0 <= t < dn ==> db[t] == (#[trigger] cs[t]) as u8);
    assert(forall|t: int| 0 <= t < re.len() ==> #[trigger] s[i + t] == re[t]) by {
        assert(forall|t: int|
            0 <= t < re.len() ==> s.subrange(i, i + re.len())[t] == #[trigger] re[t]);
    }
    assert(re.len() == dn + 2 + vl + 2);
    assert(forall|t: int| 0 <= t < dn ==> re[t] == db[t]);
    assert(re[dn] == 58 && re[dn + 1] == 32);
    assert(forall|t: int| 0 <= t < vl ==> re[dn + 2 + t] == e.1@[t]);
    assert(re[dn + 2 + vl] == 13 && re[dn + 2 + vl + 1] == 10);
    assert forall|m: int| i <= m < i + dn implies crate::parser::token_char(#[trigger] s[m]) by {
        let t = m - i;
        assert(s[i + t] == re[t]);
        assert(re[t] == db[t]);
        assert(db[t] == cs[t] as u8);
        assert(crate::parser::token_char(cs[t] as u8));
    }
    assert(!crate::parser::token_char(s[i + dn]));
    lemma_token_end_at(s, i, i + dn);
    assert(crate::parser::take_token(s, i) == crate::parser::Step::Found(
        s.subrange(i, i + dn),
        i + dn,
    ));
    assert(s.subrange(i, i + dn) =~= db);
    assert(crate::parser::spaces_end(s, i + dn) == i + dn);
    assert(s.subrange(i + dn, i + dn) =~= Seq::<u8>::empty());
    assert(s[i + dn] == 58);
    assert(s[i + dn + 1] == 32);
    assert(s[i + dn + 2] == (if vl > 0 {
        e.1@[0]
    } else {
        13
    }));
    assert(crate::parser::spaces_end(s, i + dn + 2) == i + dn + 2);
    assert(crate::parser::spaces_end(s, i + dn + 1) == i + dn + 2);
    assert(s.subrange(i + dn + 1, i + dn + 2) =~= seq![32u8]);
    let vstart = i + dn + 2;
    assert forall|m: int| vstart <= m < vstart + vl implies !is_break(#[trigger] s[m]) by {
        let t = m - vstart;
        assert(s[i + (dn + 2 + t)] == re[dn + 2 + t]);
        assert(re[dn + 2 + t] == e.1@[t]);
        assert(!is_break(e.1@[t]));
    }
    assert(is_break(s[vstart + vl]));
    lemma_find_break_at(s, vstart, vstart + vl);
    assert(s[vstart + vl] == 13 && s[vstart + vl + 1] == 10);
    assert(crate::parser::eat_eol(s, vstart + vl) == crate::parser::Step::<()>::Found(
        (),
        vstart + vl + 2,
    ));
    assert(crate::parser::take_line(s, vstart) == crate::parser::Step::Found(
        s.subrange(vstart, vstart + vl),
        vstart + vl + 2,
    ));
    assert(s.subrange(vstart, vstart + vl) =~= e.1@);
}

/// The spec-level headers that parsing the written entries yields.
pub open spec fn spec_headers_of(es: Seq<(WarcHeader, Vec<u8>)>, i: int) -> Seq<
    crate::parser::HeaderSpec,
>
    decreases es.len() - i,
{
    if !(0 <= i < es.len()) {
        Seq::empty()
    } else {
        seq![entry_header_spec(es[i])] + spec_headers_of(es, i + 1)
    }
}

/// Indexing the parsed-headers sequence.
proof fn lemma_spec_headers_index(es: Seq<(WarcHeader, Vec<u8>)>, i: int)
    requires
        0 <= i <= es.len(),
    ensures
        spec_headers_of(es, i).len() == es.len() - i,
        forall|t: int|
            0 <= t < es.len() - i ==> #[trigger] spec_headers_of(es, i)[t] == entry_header_spec(
                es[i + t],
            ),
    decreases es.len() - i,
{
    if i < es.len() {
        lemma_spec_headers_index(es, i + 1);
    }
}

/// Parsing a run of written header lines, followed by a blank line, finds
/// exactly the entries written and stops at the blank line.
proof fn lemma_parse_rendered_entries(s: Seq<u8>, pos: int, es: Seq<(WarcHeader, Vec<u8>)>, i: int)
    requires
        forall|j: int| 0 <= j < es.len() ==> wire_entry(#[trigger] es[j]),
        0 <= i <= es.len(),
        0 <= pos,
        pos + render_entries(es, i).len() + 2 <= s.len(),
        s.subrange(pos, pos + render_entries(es, i).len()) == render_entries(es, i),
        s[pos + render_entries(es, i).len()] == 13,
        s[pos + render_entries(es, i).len() + 1] == 10,
    ensures
        crate::parser::parse_headers_rest(s, pos) == crate::parser::Step::Found(
            spec_headers_of(es, i),
            pos + render_entries(es, i).len(),
        ),
        i < es.len() ==> crate::parser::parse_header_at(s, pos) == crate::parser::Step::Found(
            entry_header_spec(es[i]),
            pos + render_entry(es[i]).len(),
        ),
    decreases es.len() - i,
{
    let whole = render_entries(es, i);
    if i >= es.len() {
        assert(whole.len() == 0);
        assert(s[pos] == 13);
        assert(!crate::parser::token_char(s[pos]));
        lemma_token_end_at(s, pos, pos);
        assert(crate::parser::take_token(s, pos) == crate::parser::Step::<Seq<u8>>::Bad(pos));
        assert(crate::parser::parse_headers_rest(s, pos) == crate::parser::Step::Found(
            Seq::<crate::parser::HeaderSpec>::empty(),
            pos,
        ));
        assert(spec_headers_of(es, i) =~= Seq::<crate::parser::HeaderSpec>::empty());
    } else {
        let re = render_entry(es[i]);
        let rest = render_entries(es, i + 1);
        assert(whole == re + rest);
        assert(forall|t: int| 0 <= t < whole.len() ==> #[trigger] s[pos + t] == whole[t]) by {
            assert(forall|t: int|
                0 <= t < whole.len() ==> s.subrange(pos, pos + whole.len())[t] == #[trigger] whole[
                t]);
        }
        assert(s.subrange(pos, pos + re.len()) =~= re);
        lemma_parse_rendered_header(s, pos, es[i]);
        let pos2 = pos + re.len() as int;
        assert forall|t: int| 0 <= t < rest.len() implies s.subrange(pos2, pos2 + rest.len())[t]
            == #[trigger] rest[t] by {
            assert(s[pos + (re.len() + t)] == whole[re.len() + t]);
        }
        assert(s.subrange(pos2, pos2 + rest.len()) =~= rest);
        assert(s[pos2 + rest.len()] == 13 && s[pos2 + rest.len() + 1] == 10);
        lemma_parse_rendered_entries(s, pos2, es, i + 1);
        assert(crate::parser::parse_headers_rest(s, pos) == crate::parser::Step::Found(
            seq![entry_header_spec(es[i])] + spec_headers_of(es, i + 1),
            pos2 + rest.len(),
        ));
    }
}

/// A raw record that can be written out and read back: the version text
/// begins with the tag and stays on one line, there is at least one
/// header, every entry can stand on the wire, and the content length —
/// when present — restates the body's length.
pub open spec fn wire_record(raw: RawRecord) -> bool {
    let vb = encode_utf8(raw.headers.version@);
    let m = raw.headers.headers;
    &&& vb.len() >= 5
    &&& vb[0] == 87 && vb[1] == 65 && vb[2] == 82 && vb[3] == 67 && vb[4] == 47
    &&& (forall|t: int| 0 <= t < vb.len() ==> !is_break(#[trigger] vb[t]))
    &&& m.spec_len() >= 1
    &&& m.wf()
    &&& (forall|j: int| 0 <= j < m.spec_len() ==> wire_entry(#[trigger] m.entries_seq()[j]))
    &&& (m.has_key("content-length"@) ==> crate::parser::cl_of_value(m.get_val("content-length"@))
        == Some(raw.body@.len()))
    &&& (!m.has_key("content-length"@) ==> raw.body@.len() == 0)
}

/// The content-length scan over the parsed form of the written entries
/// reads exactly the body length the record declares.
proof fn lemma_scan_rendered_cl(raw: RawRecord)
    requires
        wire_record(raw),
    ensures
        crate::parser::scan_cl(spec_headers_of(raw.headers.headers.entries_seq(), 0)) == Some(
            raw.body@.len() as nat,
        ),
{
    let m = raw.headers.headers;
    let es = m.entries_seq();
    let hs = spec_headers_of(es, 0);
    lemma_spec_headers_index(es, 0);
    assert forall|j: int| 0 <= j < es.len() implies (crate::parser::is_cl_key(
        #[trigger] hs[j].key,
    ) <==> crate::header::canon(es[j].0) == "content-length"@) by {
        assert(hs[j] == entry_header_spec(es[j]));
        let cs = display_name(es[j].0);
        assert(vstd::utf8::is_ascii_chars(cs));
        lemma_ascii_chars_of_encode(cs);
        crate::header::lemma_display_folds_to_canon(es[j].0);
    }
    if m.has_key("content-length"@) {
        let c = m.index_of("content-length"@);
        m.lemma_index_unique(c);
        assert(crate::parser::is_cl_key(hs[c].key));
        assert forall|u: int| 0 <= u < c implies !crate::parser::is_cl_key(
            #[trigger] hs[u].key,
        ) by {
            assert(m.canon_at(u) != m.canon_at(c));
        }
        assert(crate::parser::has_cl(hs));
        let f = crate::parser::first_cl(hs);
        assert(0 <= f < hs.len() && crate::parser::is_cl_key(hs[f].key) && (forall|u: int|
            0 <= u < f ==> !crate::parser::is_cl_key(#[trigger] hs[u].key))) by {
            assert(0 <= c < hs.len() && crate::parser::is_cl_key(hs[c].key) && (forall|u: int|
                0 <= u < c ==> !crate::parser::is_cl_key(#[trigger] hs[u].key)));
        }
        assert(f == c) by {
            if f < c {
                assert(!crate::parser::is_cl_key(hs[f].key));
            } else if c < f {
                assert(!crate::parser::is_cl_key(hs[c].key));
            }
        }
        assert(hs[c].value == m.val_at(c));
        assert(m.get_val("content-length"@) == m.val_at(c));
    } else {
        assert forall|j: int| 0 <= j < hs.len() implies !crate::parser::is_cl_key(
            #[trigger] hs[j].key,
        ) by {
            if crate::header::canon(es[j].0) == "content-length"@ {
                m.lemma_index_unique(j);
            }
        }
        assert(!crate::parser::has_cl(hs));
    }
}

/// Parsing the written form of a raw record succeeds, in either mode, and
/// yields the version text, every header line in order, and the body —
/// with nothing left over.
#[verifier::rlimit(100)]
pub proof fn lemma_parse_rendered_record(raw: RawRecord)
    requires
        wire_record(raw),
    ensures
        crate::parser::spec_record(render_raw(raw)) == crate::parser::SpecOutcome::SpecParsed(
            crate::parser::RecordSpec {
                version: encode_utf8(raw.headers.version@).skip(5),
                headers: spec_headers_of(raw.headers.headers.entries_seq(), 0),
                body: raw.body@,
                end: render_raw(raw).len() as int,
            },
        ),
{
    let s = render_raw(raw);
    let vb = encode_utf8(raw.headers.version@);
    let m = raw.headers.headers;
    let es = m.entries_seq();
    let hb = render_entries(es, 0);
    let vl = vb.len() as int;
    let hl = hb.len() as int;
    let bl = raw.body@.len() as int;
    let h0 = vl + 2;
    let hend = h0 + hl;
    let i4 = hend + 2;
    assert(s == vb + crlf() + hb + crlf() + raw.body@ + crlf() + crlf());
    assert(s.len() == vl + 2 + hl + 2 + bl + 4);
    assert(forall|t: int| 0 <= t < vl ==> #[trigger] s[t] == vb[t]);
    assert(s[vl] == 13 && s[vl + 1] == 10);
    assert(forall|t: int| 0 <= t < hl ==> #[trigger] s[h0 + t] == hb[t]);
    assert(s[hend] == 13 && s[hend + 1] == 10);
    assert(forall|t: int| 0 <= t < bl ==> #[trigger] s[i4 + t] == raw.body@[t]);
    assert(s[i4 + bl] == 13 && s[i4 + bl + 1] == 10);
    assert(s[i4 + bl + 2] == 13 && s[i4 + bl + 3] == 10);
    // the version line
    assert(crate::parser::eat_tag(s, 0, crate::parser::warc_tag()) == crate::parser::Step::<
        (),
    >::Found((), 5)) by {
        assert(crate::parser::warc_tag().len() == 5);
        assert(s[0] == 87 && s[1] == 65 && s[2] == 82 && s[3] == 67 && s[4] == 47);
        assert forall|j: int|
            0 <= j < 5 implies s[j] == crate::parser::warc_tag()[j] by {
        }
    }
    assert forall|mm: int| 5 <= mm < vl implies !is_break(#[trigger] s[mm]) by {
        assert(s[mm] == vb[mm]);
    }
    lemma_find_break_at(s, 5, vl);
    assert(crate::parser::take_line(s, 5) == crate::parser::Step::Found(
        s.subrange(5, vl),
        h0,
    ));
    assert(s.subrange(5, vl) =~= vb.skip(5));
    assert(crate::parser::spec_version(s) == crate::parser::Step::Found(vb.skip(5), h0));
    // the header block
    assert(s.subrange(h0, h0 + hl) =~= hb);
    lemma_parse_rendered_entries(s, h0, es, 0);
    let hs = spec_headers_of(es, 0);
    assert(crate::parser::parse_header_at(s, h0) == crate::parser::Step::Found(
        entry_header_spec(es[0]),
        h0 + render_entry(es[0]).len(),
    ));
    assert(crate::parser::parse_headers_rest(s, h0) == crate::parser::Step::Found(hs, hend));
    lemma_spec_headers_index(es, 0);
    let re0 = render_entry(es[0]);
    let p1 = h0 + re0.len() as int;
    assert(render_entries(es, 0) == re0 + render_entries(es, 1));
    assert(s.subrange(p1, p1 + render_entries(es, 1).len()) =~= render_entries(es, 1)) by {
        assert(forall|t: int| 0 <= t < hl ==> #[trigger] s[h0 + t] == hb[t]);
    }
    lemma_parse_rendered_entries(s, p1, es, 1);
    assert(crate::parser::parse_headers_at(s, h0) == crate::parser::Step::Found(hs, hend)) by {
        assert(crate::parser::parse_headers_rest(s, p1) == crate::parser::Step::Found(
            spec_headers_of(es, 1),
            hend,
        ));
        assert(seq![entry_header_spec(es[0])] + spec_headers_of(es, 1) =~= hs);
    }
    // the content-length scan
    lemma_scan_rendered_cl(raw);
    assert(crate::parser::scan_cl(hs) == Some(raw.body@.len() as nat));
    // the blank line, the body, and the closing terminators
    assert(crate::parser::eat_eol(s, hend) == crate::parser::Step::<()>::Found((), i4));
    assert(s.len() - i4 >= bl);
    assert(s.subrange(i4, i4 + bl) =~= raw.body@);
    assert(crate::parser::eat_eol(s, i4 + bl) == crate::parser::Step::<()>::Found(
        (),
        i4 + bl + 2,
    ));
    assert(crate::parser::eat_eol(s, i4 + bl + 2) == crate::parser::Step::<()>::Found(
        (),
        i4 + bl + 4,
    ));
    assert(i4 + bl + 4 == s.len());
}

/// Written header runs agree wherever names and values agree entry by
/// entry.
proof fn lemma_render_entries_pointwise(
    es1: Seq<(WarcHeader, Vec<u8>)>,
    es2: Seq<(WarcHeader, Vec<u8>)>,
    i: int,
)
    requires
        es1.len() == es2.len(),
        forall|j: int|
            0 <= j < es1.len() ==> display_name(#[trigger] es1[j].0) == display_name(es2[j].0)
                && es1[j].1@ == es2[j].1@,
        0 <= i <= es1.len(),
    ensures
        render_entries(es1, i) == render_entries(es2, i),
    decreases es1.len() - i,
{
    if i < es1.len() {
        lemma_render_entries_pointwise(es1, es2, i + 1);
        assert(render_entry(es1[i]) =~= render_entry(es2[i]));
    }
}

/// Synthesizing one record twice and writing both out gives the same
/// bytes: the written form is a function of the record's state alone.
pub proof fn lemma_synthesis_byte_identical(
    rec: crate::record::Record,
    raw1: RawRecord,
    raw2: RawRecord,
)
    requires
        rec.inv(),
        rec.synth_matches(raw1.headers.headers),
        rec.synth_matches(raw2.headers.headers),
        raw1.body@ == rec.spec_body(),
        raw2.body@ == rec.spec_body(),
        raw1.headers.version@ == rec.spec_version(),
        raw2.headers.version@ == rec.spec_version(),
    ensures
        render_raw(raw1) == render_raw(raw2),
{
    let es1 = raw1.headers.headers.entries_seq();
    let es2 = raw2.headers.headers.entries_seq();
    let n0 = rec.spec_residual().spec_len() as int;
    assert(es1.len() == es2.len());
    assert forall|j: int|
        0 <= j < es1.len() implies display_name(#[trigger] es1[j].0) == display_name(es2[j].0)
        && es1[j].1@ == es2[j].1@ by {
        if j < n0 {
            assert(es1[j] == rec.spec_residual().entries_seq()[j]);
            assert(es2[j] == rec.spec_residual().entries_seq()[j]);
        } else {
            assert(raw1.headers.headers.val_at(j) == raw2.headers.headers.val_at(j));
        }
    }
    lemma_render_entries_pointwise(es1, es2, 0);
    assert(render_raw(raw1) =~= render_raw(raw2));
}

/// Two raw records agreeing in version, body, and — position by position
/// — written header name and value are written out as the same bytes.
pub proof fn lemma_rendered_blocks_identical(r1: RawRecord, r2: RawRecord)
    requires
        r1.headers.version@ == r2.headers.version@,
        r1.body@ == r2.body@,
        r1.headers.headers.spec_len() == r2.headers.headers.spec_len(),
        forall|t: int|
            0 <= t < r1.headers.headers.spec_len() ==> display_name(
                #[trigger] r1.headers.headers.entries_seq()[t].0,
            ) == display_name(r2.headers.headers.entries_seq()[t].0)
                && r1.headers.headers.val_at(t) == r2.headers.headers.val_at(t),
    ensures
        render_raw(r1) == render_raw(r2),
{
    lemma_render_entries_pointwise(
        r1.headers.headers.entries_seq(),
        r2.headers.headers.entries_seq(),
        0,
    );
    assert(render_raw(r1) =~= render_raw(r2));
}

/// Bytes that can stand as a header value on the wire: free of break
/// bytes, not beginning with a space.
pub open spec fn value_bytes_safe(bs: Seq<u8>) -> bool {
    &&& forall|t: int| 0 <= t < bs.len() ==> !is_break(#[trigger] bs[t])
    &&& (bs.len() > 0 ==> bs[0] != 32)
}

/// A typed record whose written form reads back: the version begins with
/// the grammar's tag and stays on one line, the residual entries can
/// stand on the wire, and the id, type text and truncation text write out
/// as safe header values.
pub open spec fn wire_safe(rec: crate::record::Record) -> bool {
    let vb = encode_utf8(rec.spec_version());
    &&& rec.spec_version().len() >= 5
    &&& rec.spec_version().take(5) == "WARC/"@
    &&& vb.len() >= 5
    &&& vb[0] == 87 && vb[1] == 65 && vb[2] == 82 && vb[3] == 67 && vb[4] == 47
    &&& (forall|t: int| 0 <= t < vb.len() ==> !is_break(#[trigger] vb[t]))
    &&& (forall|j: int|
        0 <= j < rec.spec_residual().spec_len() ==> wire_entry(
            #[trigger] rec.spec_residual().entries_seq()[j],
        ))
    &&& value_bytes_safe(encode_utf8(rec.spec_id()))
    &&& value_bytes_safe(encode_utf8(crate::record_type::rt_label(rec.spec_rtype())))
    &&& (rec.spec_trunc() matches Some(tt) ==> value_bytes_safe(
        encode_utf8(crate::truncated_type::tt_label(tt)),
    ))
}

/// The display names of the five promoted keys are wire tokens.
proof fn lemma_promoted_displays_are_tokens()
    ensures
        token_text("Content-Length"@),
        token_text("WARC-Type"@),
        token_text("WARC-Record-ID"@),
        token_text("WARC-Truncated"@),
        token_text("WARC-Date"@),
{
    reveal_strlit("Content-Length");
    reveal_strlit("WARC-Type");
    reveal_strlit("WARC-Record-ID");
    reveal_strlit("WARC-Truncated");
    reveal_strlit("WARC-Date");
}

/// A decimal rendering writes out as a safe header value.
proof fn lemma_digits_value_safe(n: nat)
    ensures
        value_bytes_safe(encode_utf8(crate::text::dec_digits(n))),
    decreases n,
{
    broadcast use vstd::utf8::is_ascii_chars_encode_utf8;

    let cs = crate::text::dec_digits(n);
    crate::text::lemma_dec_digits_roundtrip(n);
    assert forall|t: int| 0 <= t < cs.len() implies '\0' <= #[trigger] cs[t] <= '\u{7f}' by {
        assert('0' <= cs[t] <= '9');
    }
    assert(vstd::utf8::is_ascii_chars(cs));
    let bs = encode_utf8(cs);
    assert forall|t: int| 0 <= t < bs.len() implies !is_break(#[trigger] bs[t]) && bs[t] != 32 by {
        assert(bs[t] == cs[t] as u8);
        assert('0' <= cs[t] <= '9');
    }
}

/// A rendered timestamp writes out as a safe header value.
proof fn lemma_rendered_date_value_safe(t: crate::timestamp::Timestamp)
    requires
        t.wf(),
    ensures
        value_bytes_safe(encode_utf8(crate::timestamp::render_ts(t))),
{
    broadcast use vstd::utf8::is_ascii_chars_encode_utf8;

    let cs = crate::timestamp::render_ts(t);
    crate::timestamp::lemma_render_parse_roundtrip(t);
    let bs = encode_utf8(cs);
    assert forall|m: int| 0 <= m < bs.len() implies !is_break(#[trigger] bs[m]) && bs[m] != 32 by {
        assert(bs[m] == cs[m] as u8);
        assert(crate::timestamp::parse_canonical(cs) is Some);
        if m == 4 || m == 7 {
            assert(cs[m] == '-');
        } else if m == 10 {
            assert(cs[m] == 'T');
        } else if m == 13 || m == 16 {
            assert(cs[m] == ':');
        } else if m == 19 {
            assert(cs[m] == 'Z');
        } else {
            assert(crate::timestamp::is_digit(cs[m]));
        }
    }
}

/// The synthesized raw form of a wire-safe record can be written out and
/// read back.
pub proof fn lemma_synth_wire_record(rec: crate::record::Record, raw: RawRecord)
    requires
        rec.inv(),
        rec.spec_body().len() <= usize::MAX,
        wire_safe(rec),
        rec.synth_matches(raw.headers.headers),
        raw.body@ == rec.spec_body(),
        raw.headers.version@ == rec.spec_version(),
    ensures
        wire_record(raw),
{
    broadcast use vstd::utf8::encode_utf8_valid_utf8;
    broadcast use vstd::utf8::encode_utf8_decode_utf8;

    crate::header::lemma_known_names_differ();
    reveal_strlit("content-length");
    reveal_strlit("warc-type");
    reveal_strlit("warc-record-id");
    reveal_strlit("warc-truncated");
    reveal_strlit("warc-date");
    let m = raw.headers.headers;
    let es = m.entries_seq();
    let res = rec.spec_residual();
    let n0 = res.spec_len() as int;
    crate::record::lemma_synth_key_level(rec, m);
    lemma_promoted_displays_are_tokens();
    lemma_digits_value_safe(rec.spec_body().len());
    lemma_rendered_date_value_safe(rec.spec_date());
    assert forall|j: int| 0 <= j < es.len() implies wire_entry(#[trigger] es[j]) by {
        if j < n0 {
            assert(es[j] == res.entries_seq()[j]);
        } else {
            assert(token_text(display_name(es[j].0)));
            assert(value_bytes_safe(es[j].1@));
        }
    }
    assert(m.has_key("content-length"@));
    assert(m.get_val("content-length"@) == encode_utf8(
        crate::text::dec_digits(rec.spec_body().len()),
    ));
    crate::text::lemma_parse_of_rendered(rec.spec_body().len(), usize::MAX as nat);
    assert(crate::parser::cl_of_value(m.get_val("content-length"@)) == Some(raw.body@.len()));
}

/// The UTF-8 encoding of a concatenation is the concatenation of the
/// encodings.
proof fn lemma_encode_concat(a: Seq<char>, b: Seq<char>)
    ensures
        encode_utf8(a + b) == encode_utf8(a) + encode_utf8(b),
    decreases a.len(),
{
    if a.len() == 0 {
        assert(a + b =~= b);
        assert(encode_utf8(a) + encode_utf8(b) =~= encode_utf8(b));
    } else {
        lemma_encode_concat(a.drop_first(), b);
        assert((a + b).drop_first() =~= a.drop_first() + b);
        assert(encode_utf8(a) + encode_utf8(b) =~= vstd::utf8::encode_scalar(a[0] as u32) + (
        encode_utf8(a.drop_first()) + encode_utf8(b)));
    }
}

/// Folding the parsed form of a written raw record back into a map keeps
/// every key and value: the canonical keys are untouched and — the map
/// being well-formed — no entry shadows another.
pub proof fn lemma_fold_preserves_map(
    hs: Seq<crate::parser::ParsedHeader>,
    raw: RawRecord,
    raw2: RawRecord,
)
    requires
        raw.headers.headers.wf(),
        forall|j: int|
            0 <= j < raw.headers.headers.spec_len() ==> wire_entry(
                #[trigger] raw.headers.headers.entries_seq()[j],
            ),
        crate::parser::phs_match(hs, spec_headers_of(raw.headers.headers.entries_seq(), 0)),
        raw2.headers.headers.wf(),
        forall|k: Seq<char>|
            #[trigger] raw2.headers.headers.has_key(k) <==> exists|j: int|
                0 <= j < hs.len() && crate::record::folded_key(hs, j) == k,
        forall|j: int|
            0 <= j < hs.len() && (forall|j2: int|
                j < j2 < hs.len() ==> crate::record::folded_key(hs, j2) != crate::record::folded_key(
                    hs,
                    j,
                )) ==> #[trigger] raw2.headers.headers.get_val(crate::record::folded_key(hs, j))
                == hs[j].value@,
    ensures
        forall|k: Seq<char>|
            #[trigger] raw2.headers.headers.has_key(k) <==> raw.headers.headers.has_key(k),
        forall|k: Seq<char>|
            raw.headers.headers.has_key(k) ==> #[trigger] raw2.headers.headers.get_val(k)
                == raw.headers.headers.get_val(k),
{
    let m = raw.headers.headers;
    let es = m.entries_seq();
    lemma_spec_headers_index(es, 0);
    assert(hs.len() == es.len());
    assert forall|j: int| 0 <= j < hs.len() implies #[trigger] crate::record::folded_key(hs, j)
        == m.canon_at(j) && hs[j].value@ == m.val_at(j) by {
        let sh = spec_headers_of(es, 0)[j];
        assert(crate::parser::ph_matches(hs[j], sh));
        assert(sh == entry_header_spec(es[j]));
        let cs = display_name(es[j].0);
        assert(vstd::utf8::is_ascii_chars(cs));
        lemma_ascii_chars_of_encode(cs);
        assert(hs[j].key@ == cs);
        crate::header::lemma_display_folds_to_canon(es[j].0);
    }
    assert forall|k: Seq<char>| #[trigger] raw2.headers.headers.has_key(k) implies m.has_key(
        k,
    ) by {
        let j = choose|j: int| 0 <= j < hs.len() && crate::record::folded_key(hs, j) == k;
        m.lemma_index_unique(j);
    }
    assert forall|k: Seq<char>| m.has_key(k) implies #[trigger] raw2.headers.headers.has_key(
        k,
    ) by {
        let j = m.index_of(k);
        m.lemma_index_unique(j);
        assert(0 <= j < hs.len() && crate::record::folded_key(hs, j) == k);
    }
    assert forall|k: Seq<char>| m.has_key(k) implies #[trigger] raw2.headers.headers.get_val(k)
        == m.get_val(k) by {
        let j = m.index_of(k);
        m.lemma_index_unique(j);
        assert forall|j2: int|
            j < j2 < hs.len() implies crate::record::folded_key(hs, j2)
            != crate::record::folded_key(hs, j) by {
            assert(m.canon_at(j2) != m.canon_at(j));
        }
        assert(raw2.headers.headers.get_val(crate::record::folded_key(hs, j)) == hs[j].value@);
    }
}

/// The whole way out and back: synthesizing a wire-safe typed record,
/// writing it as bytes, parsing those bytes in either mode, folding the
/// lines into a raw record and validating it again always succeeds and
/// yields a record equal to the original in every field.
pub proof fn lemma_wire_roundtrip(
    rec: crate::record::Record,
    raw: RawRecord,
    hs: Seq<crate::parser::ParsedHeader>,
    raw2: RawRecord,
    rec2: crate::record::Record,
)
    requires
        rec.inv(),
        rec.spec_body().len() <= usize::MAX,
        crate::record_type::rt_stable(rec.spec_rtype()),
        rec.spec_trunc() matches Some(t) ==> crate::truncated_type::tt_stable(t),
        wire_safe(rec),
        rec.synth_matches(raw.headers.headers),
        raw.body@ == rec.spec_body(),
        raw.headers.version@ == rec.spec_version(),
        crate::parser::phs_match(hs, spec_headers_of(raw.headers.headers.entries_seq(), 0)),
        raw2.headers.headers.wf(),
        forall|k: Seq<char>|
            #[trigger] raw2.headers.headers.has_key(k) <==> exists|j: int|
                0 <= j < hs.len() && crate::record::folded_key(hs, j) == k,
        forall|j: int|
            0 <= j < hs.len() && (forall|j2: int|
                j < j2 < hs.len() ==> crate::record::folded_key(hs, j2) != crate::record::folded_key(
                    hs,
                    j,
                )) ==> #[trigger] raw2.headers.headers.get_val(crate::record::folded_key(hs, j))
                == hs[j].value@,
        raw2.body@ == raw.body@,
        raw2.headers.version@ == "WARC/"@ + vstd::utf8::decode_utf8(
            encode_utf8(rec.spec_version()).skip(5),
        ),
    ensures
        wire_record(raw),
        crate::parser::spec_record(render_raw(raw)) is SpecParsed,
        crate::record::conversion_ok(raw2),
        crate::record::conversion_fields_match(raw2, rec2) ==> crate::record::records_equivalent(
            rec2,
            rec,
        ),
{
    broadcast use vstd::utf8::encode_utf8_decode_utf8;

    lemma_synth_wire_record(rec, raw);
    lemma_parse_rendered_record(raw);
    crate::record::lemma_synth_key_level(rec, raw.headers.headers);
    lemma_fold_preserves_map(hs, raw, raw2);
    assert(raw2.headers.version@ == rec.spec_version()) by {
        let v = rec.spec_version();
        let head = v.take(5);
        let tail = v.skip(5);
        assert(v =~= head + tail);
        lemma_encode_concat(head, tail);
        assert(encode_utf8(v) == encode_utf8(head) + encode_utf8(tail));
        reveal_strlit("WARC/");
        assert(vstd::utf8::is_ascii_chars(head)) by {
            assert(head == "WARC/"@);
            assert forall|t: int| 0 <= t < head.len() implies '\0' <= #[trigger] head[t]
                <= '\u{7f}' by {
            }
        }
        assert(encode_utf8(head).len() == 5) by {
            broadcast use vstd::utf8::is_ascii_chars_encode_utf8;

        }
        assert(encode_utf8(v).skip(5) =~= encode_utf8(tail));
        assert(vstd::utf8::decode_utf8(encode_utf8(tail)) == tail);
        assert("WARC/"@ + tail =~= v);
    }
    crate::record::lemma_keylevel_convert(rec, raw2, rec2);
}

} // verus!
