//! Raw and typed records. A raw record is structurally sound but
//! unvalidated; a typed record has been validated and keeps its
//! structurally significant headers as typed fields, with the guarantee
//! that its residual header map never shadows them and that the content
//! length is always derived from the actual body.
use vstd::prelude::*;

verus! {

use crate::error::Error;
use crate::header::{WarcHeader, canon, is_promoted};
use crate::header_map::{HeaderMap, hm_eq};
use crate::record_type::{RecordType, rt_label, is_known_rt, known_rt_of};
use crate::text::{lower, parse_dec, parse_u64_str, dec_digits, printable};
use crate::timestamp::{Timestamp, render_ts, spec_parse_timestamp};
use crate::truncated_type::{TruncatedType, tt_label, is_known_tt, known_tt_of};
use vstd::utf8::{valid_utf8, decode_utf8, encode_utf8};

/// A tag indicating how the body is stored within a record.
pub trait StreamingType {

}

/// A body held in an owned buffer inside the record.
#[derive(Debug, Clone, PartialEq)]
pub struct BufferedBody(pub Vec<u8>);

impl StreamingType for BufferedBody {

}

/// A header block of a single record as parsed from a data stream: its
/// version text and all of its headers. Well-formed, but not necessarily
/// valid.
#[derive(Debug, Clone)]
pub struct RawHeaderBlock {
    /// The version this record reports conformance to.
    pub version: String,
    /// All headers of this record.
    pub headers: HeaderMap,
}

impl RawHeaderBlock {
    /// The header map.
    pub fn header_map(&self) -> (r: &HeaderMap)
        ensures
            *r == self.headers,
    {
        &self.headers
    }

}

impl PartialEq for RawHeaderBlock {
    fn eq(&self, other: &RawHeaderBlock) -> (r: bool) {
        self.version == other.version && self.headers == other.headers
    }
}

impl vstd::std_specs::cmp::PartialEqSpecImpl for RawHeaderBlock {
    open spec fn obeys_eq_spec() -> bool {
        true
    }

    open spec fn eq_spec(&self, other: &RawHeaderBlock) -> bool {
        self.version@ == other.version@ && hm_eq(self.headers, other.headers)
    }
}

/// A raw record: an unvalidated header block and a body. The universal
/// untrusted-but-structurally-sound representation, constructible
/// directly by callers who want to bypass validation.
#[derive(Debug, Clone)]
pub struct RawRecord {
    /// The headers on this record.
    pub headers: RawHeaderBlock,
    /// The data body of this record.
    pub body: Vec<u8>,
}

impl PartialEq for RawRecord {
    fn eq(&self, other: &RawRecord) -> (r: bool) {
        let b = self.body == other.body;
        proof {
            if self.body@ =~= other.body@ {
                assert(self.body@ == other.body@);
            }
        }
        self.headers == other.headers && b
    }
}

impl vstd::std_specs::cmp::PartialEqSpecImpl for RawRecord {
    open spec fn obeys_eq_spec() -> bool {
        true
    }

    open spec fn eq_spec(&self, other: &RawRecord) -> bool {
        self.headers.version@ == other.headers.version@ && hm_eq(self.headers.headers, other.headers.headers) && self.body@ == other.body@
    }
}

/// The case-folded key of a parsed header line.
pub open spec fn folded_key(hs: Seq<crate::parser::ParsedHeader>, j: int) -> Seq<char> {
    lower(hs[j].key@)
}

impl RawRecord {
    /// Fold a grammar-level record into a raw record: the version text is
    /// put back behind the tag it was read after, each raw token is mapped
    /// to its canonical identity, and when several lines share a canonical
    /// key the later one silently wins — the earlier values are not
    /// recoverable from the map. Fails only when the version text does not
    /// decode.
    pub fn from_parsed(rec: &crate::parser::ParsedRecord) -> (r: Option<RawRecord>)
        ensures
            r is Some <==> valid_utf8(rec.version@),
            r matches Some(raw) ==> {
                let hs = rec.headers@;
                &&& raw.body@ == rec.body@
                &&& raw.headers.version@ == "WARC/"@ + decode_utf8(rec.version@)
                &&& raw.headers.headers.wf()
                &&& (forall|k: Seq<char>|
                    #[trigger] raw.headers.headers.has_key(k) <==> exists|j: int|
                        0 <= j < hs.len() && folded_key(hs, j) == k)
                &&& (forall|j: int|
                    0 <= j < hs.len() && (forall|j2: int|
                        j < j2 < hs.len() ==> folded_key(hs, j2) != folded_key(hs, j))
                        ==> #[trigger] raw.headers.headers.get_val(folded_key(hs, j)) == hs[j].value@)
            },
    {
        let version = match crate::text::bytes_to_string(rec.version.as_slice()) {
            Some(v) => v,
            None => {
                return None;
            },
        };
        let mut full_version = String::from_str("WARC/");
        full_version.append(version.as_str());
        let ghost hs = rec.headers@;
        let mut map = HeaderMap::new();
        let n = rec.headers.len();
        let mut i: usize = 0;
        while i < n
            invariant
                n == hs.len(),
                0 <= i <= n,
                hs == rec.headers@,
                map.wf(),
                forall|k: Seq<char>|
                    #[trigger] map.has_key(k) <==> exists|j: int|
                        0 <= j < i && folded_key(hs, j) == k,
                forall|j: int|
                    0 <= j < i && (forall|j2: int|
                        j < j2 < i ==> folded_key(hs, j2) != folded_key(hs, j))
                        ==> #[trigger] map.get_val(folded_key(hs, j)) == hs[j].value@,
            decreases n - i,
        {
            let ph = &rec.headers[i];
            let key = WarcHeader::from_token(ph.key.as_str());
            let value = vstd::slice::slice_to_vec(ph.value.as_slice());
            let ghost prev = map;
            map.insert(key, value);
            proof {
                let k_new = folded_key(hs, i as int);
                assert(canon(key) == k_new);
                assert forall|k: Seq<char>| #[trigger] map.has_key(k) implies exists|j: int|
                    0 <= j < i + 1 && folded_key(hs, j) == k by {
                    if k == k_new {
                        assert(0 <= i < i + 1 && folded_key(hs, i as int) == k);
                    } else {
                        assert(prev.has_key(k));
                    }
                }
                assert forall|k: Seq<char>|
                    (exists|j: int| 0 <= j < i + 1 && folded_key(hs, j) == k) implies #[trigger] map
                    .has_key(k) by {
                    let j = choose|j: int| 0 <= j < i + 1 && folded_key(hs, j) == k;
                    if j < i {
                        assert(prev.has_key(k));
                    }
                }
                assert forall|j: int|
                    0 <= j < i + 1 && (forall|j2: int|
                        j < j2 < i + 1 ==> folded_key(hs, j2) != folded_key(hs, j))
                        implies #[trigger] map.get_val(folded_key(hs, j)) == hs[j].value@ by {
                    if j < i {
                        assert(folded_key(hs, i as int) != folded_key(hs, j));
                        assert(prev.get_val(folded_key(hs, j)) == hs[j].value@);
                    }
                }
            }
            i = i + 1;
        }
        Some(
            RawRecord {
                headers: RawHeaderBlock { version: full_version, headers: map },
                body: vstd::slice::slice_to_vec(rec.body.as_slice()),
            },
        )
    }
}

/// A single validated record.
///
/// The structurally significant headers live as typed fields; everything
/// else stays in a residual header map that, as an invariant, never holds
/// one of the promoted keys. The content length is derived from the body
/// at every observation point and is never stored.
#[derive(Debug, Clone)]
pub struct Record {
    headers: RawHeaderBlock,
    record_date: Timestamp,
    record_id: String,
    record_type: RecordType,
    truncated_type: Option<TruncatedType>,
    body: BufferedBody,
}

impl Record {
    /// The version text of this record.
    pub closed spec fn spec_version(self) -> Seq<char> {
        self.headers.version@
    }

    /// The residual extension-header map.
    pub closed spec fn spec_residual(self) -> HeaderMap {
        self.headers.headers
    }

    /// The record timestamp.
    pub closed spec fn spec_date(self) -> Timestamp {
        self.record_date
    }

    /// The record identifier.
    pub closed spec fn spec_id(self) -> Seq<char> {
        self.record_id@
    }

    /// The record type.
    pub closed spec fn spec_rtype(self) -> RecordType {
        self.record_type
    }

    /// The truncation reason, if one is set.
    pub closed spec fn spec_trunc(self) -> Option<TruncatedType> {
        self.truncated_type
    }

    /// The body bytes.
    pub closed spec fn spec_body(self) -> Seq<u8> {
        self.body.0@
    }

    /// The record invariant: the residual map is a well-formed header map
    /// holding none of the promoted keys, and the timestamp is a
    /// well-formed instant.
    pub open spec fn inv(self) -> bool {
        &&& self.spec_residual().wf()
        &&& forall|k: Seq<char>| #[trigger] self.spec_residual().has_key(k) ==> !is_promoted(k)
        &&& self.spec_date().wf()
    }

    /// Generate a value suitable for the record-id field.
    ///
    /// Relies on uuid's `Uuid::new_v4` and its URN form: a random
    /// identifier written as `urn:uuid:` followed by thirty-two lowercase
    /// hex digits in five hyphen-separated groups, wrapped here in angle
    /// brackets. The shape is stated; of the random digits themselves
    /// nothing is assumed.
    #[verifier::external_body]
    pub fn generate_record_id() -> (r: String)
        ensures
            r@.len() == 47,
            r@[0] == '<',
            r@.subrange(1, 10) == "urn:uuid:"@,
            r@[46] == '>',
            forall|i: int|
                #![all_triggers]
                10 <= i < 46 ==> if i == 18 || i == 23 || i == 28 || i == 33 {
                    r@[i] == '-'
                } else {
                    ('0' <= r@[i] && r@[i] <= '9') || ('a' <= r@[i] && r@[i] <= 'f')
                },
            forall|i: int| #![all_triggers] 0 <= i < r@.len() ==> printable(r@[i]),
    {
        format!("<{}>", uuid::Uuid::new_v4().urn())
    }

    /// A fresh record: empty body, a newly generated record id, the
    /// current moment (or the epoch, should the clock read out of range),
    /// the resource type, no truncation reason.
    pub fn new() -> (r: Record)
        ensures
            r.inv(),
            r.spec_version() == "WARC/1.0"@,
            r.spec_body() == Seq::<u8>::empty(),
            r.spec_rtype() == RecordType::Resource,
            r.spec_trunc() is None,
            r.spec_residual().spec_len() == 0,
            r.spec_id().len() == 47,
            forall|i: int| #![all_triggers] 0 <= i < r.spec_id().len() ==> printable(r.spec_id()[i]),
    {
        Record::default()
    }

    /// The content length of this record: always the actual body length.
    pub fn content_length(&self) -> (r: u64)
        ensures
            r == self.spec_body().len(),
    {
        self.body.0.len() as u64
    }

    /// The version text of this record.
    pub fn warc_version(&self) -> (r: &str)
        ensures
            r@ == self.spec_version(),
    {
        self.headers.version.as_str()
    }

    /// Set the version text of this record.
    pub fn set_warc_version(&mut self, version: &str)
        ensures
            final(self).spec_version() == version@,
            final(self).spec_residual() == old(self).spec_residual(),
            final(self).spec_date() == old(self).spec_date(),
            final(self).spec_id() == old(self).spec_id(),
            final(self).spec_rtype() == old(self).spec_rtype(),
            final(self).spec_trunc() == old(self).spec_trunc(),
            final(self).spec_body() == old(self).spec_body(),
            old(self).inv() ==> final(self).inv(),
    {
        self.headers.version = version.to_owned();
    }

    /// The record-id of this record.
    pub fn warc_id(&self) -> (r: &str)
        ensures
            r@ == self.spec_id(),
    {
        self.record_id.as_str()
    }

    /// Set the record-id of this record. The value is not checked.
    pub fn set_warc_id(&mut self, id: &str)
        ensures
            final(self).spec_id() == id@,
            final(self).spec_version() == old(self).spec_version(),
            final(self).spec_residual() == old(self).spec_residual(),
            final(self).spec_date() == old(self).spec_date(),
            final(self).spec_rtype() == old(self).spec_rtype(),
            final(self).spec_trunc() == old(self).spec_trunc(),
            final(self).spec_body() == old(self).spec_body(),
            old(self).inv() ==> final(self).inv(),
    {
        self.record_id = id.to_owned();
    }

    /// The record type of this record.
    pub fn warc_type(&self) -> (r: &RecordType)
        ensures
            *r == self.spec_rtype(),
    {
        &self.record_type
    }

    /// Set the record type of this record.
    pub fn set_warc_type(&mut self, type_: RecordType)
        ensures
            final(self).spec_rtype() == type_,
            final(self).spec_version() == old(self).spec_version(),
            final(self).spec_residual() == old(self).spec_residual(),
            final(self).spec_date() == old(self).spec_date(),
            final(self).spec_id() == old(self).spec_id(),
            final(self).spec_trunc() == old(self).spec_trunc(),
            final(self).spec_body() == old(self).spec_body(),
            old(self).inv() ==> final(self).inv(),
    {
        self.record_type = type_;
    }

    /// The timestamp of this record.
    pub fn date(&self) -> (r: &Timestamp)
        ensures
            *r == self.spec_date(),
    {
        &self.record_date
    }

    /// Set the timestamp of this record.
    pub fn set_date(&mut self, date: Timestamp)
        requires
            date.wf(),
        ensures
            final(self).spec_date() == date,
            final(self).spec_version() == old(self).spec_version(),
            final(self).spec_residual() == old(self).spec_residual(),
            final(self).spec_id() == old(self).spec_id(),
            final(self).spec_rtype() == old(self).spec_rtype(),
            final(self).spec_trunc() == old(self).spec_trunc(),
            final(self).spec_body() == old(self).spec_body(),
            old(self).inv() ==> final(self).inv(),
    {
        self.record_date = date;
    }

    /// The truncation reason of this record, if one is set.
    pub fn truncated_type(&self) -> (r: &Option<TruncatedType>)
        ensures
            *r == self.spec_trunc(),
    {
        &self.truncated_type
    }

    /// Set the truncation reason of this record.
    pub fn set_truncated_type(&mut self, truncated_type: TruncatedType)
        ensures
            final(self).spec_trunc() == Some(truncated_type),
            final(self).spec_version() == old(self).spec_version(),
            final(self).spec_residual() == old(self).spec_residual(),
            final(self).spec_date() == old(self).spec_date(),
            final(self).spec_id() == old(self).spec_id(),
            final(self).spec_rtype() == old(self).spec_rtype(),
            final(self).spec_body() == old(self).spec_body(),
            old(self).inv() ==> final(self).inv(),
    {
        self.truncated_type = Some(truncated_type);
    }

    /// Clear the truncation reason of this record.
    pub fn clear_truncated_type(&mut self)
        ensures
            final(self).spec_trunc() is None,
            final(self).spec_version() == old(self).spec_version(),
            final(self).spec_residual() == old(self).spec_residual(),
            final(self).spec_date() == old(self).spec_date(),
            final(self).spec_id() == old(self).spec_id(),
            final(self).spec_rtype() == old(self).spec_rtype(),
            final(self).spec_body() == old(self).spec_body(),
            old(self).inv() ==> final(self).inv(),
    {
        self.truncated_type = None;
    }

    /// The body of this record.
    pub fn body(&self) -> (r: &[u8])
        ensures
            r@ == self.spec_body(),
    {
        self.body.0.as_slice()
    }

    /// Overwrite the body in place without changing its length: the whole
    /// buffer is rewritten when the given bytes have exactly the body's
    /// length, and nothing happens otherwise.
    pub fn overwrite_body(&mut self, data: &[u8]) -> (r: bool)
        ensures
            r == (data@.len() == old(self).spec_body().len()),
            r ==> final(self).spec_body() == data@,
            !r ==> final(self).spec_body() == old(self).spec_body(),
            final(self).spec_version() == old(self).spec_version(),
            final(self).spec_residual() == old(self).spec_residual(),
            final(self).spec_date() == old(self).spec_date(),
            final(self).spec_id() == old(self).spec_id(),
            final(self).spec_rtype() == old(self).spec_rtype(),
            final(self).spec_trunc() == old(self).spec_trunc(),
            old(self).inv() ==> final(self).inv(),
    {
        if data.len() != self.body.0.len() {
            return false;
        }
        let buf = vstd::slice::slice_to_vec(data);
        self.body = BufferedBody(buf);
        true
    }

    /// Replace the body of this record; the only way its length — and so
    /// the derived content length — ever changes.
    pub fn replace_body(&mut self, new_body: Vec<u8>)
        ensures
            final(self).spec_body() == new_body@,
            final(self).spec_version() == old(self).spec_version(),
            final(self).spec_residual() == old(self).spec_residual(),
            final(self).spec_date() == old(self).spec_date(),
            final(self).spec_id() == old(self).spec_id(),
            final(self).spec_rtype() == old(self).spec_rtype(),
            final(self).spec_trunc() == old(self).spec_trunc(),
            old(self).inv() ==> final(self).inv(),
    {
        self.body = BufferedBody(new_body);
    }
}

impl Record {
    /// Read a content-length value: a non-negative decimal number that
    /// fits in sixty-four bits.
    pub fn parse_content_length(len: &str) -> (r: Result<u64, Error>)
        ensures
            match parse_dec(len@, u64::MAX as nat) {
                Some(v) => r matches Ok(x) && x == v,
                None => r matches Err(e) && crate::error::malformed_matches(
                    e,
                    "content-length"@,
                    "not an integer between 0 and 2^64-1"@,
                ),
            },
    {
        match parse_u64_str(len) {
            Some(v) => Ok(v),
            None => Err(
                Error::MalformedHeader(
                    WarcHeader::ContentLength,
                    String::from_str("not an integer between 0 and 2^64-1"),
                ),
            ),
        }
    }

    /// Read a record timestamp, normalized to UTC at second precision.
    pub fn parse_record_date(date: &str) -> (r: Result<Timestamp, Error>)
        ensures
            match spec_parse_timestamp(date@) {
                Some(t) => r matches Ok(x) && x == t && t.wf(),
                None => r matches Err(e) && crate::error::malformed_matches(
                    e,
                    "warc-date"@,
                    "not an ISO 8601 datestamp"@,
                ),
            },
    {
        match crate::timestamp::parse_timestamp(date) {
            Some(t) => Ok(t),
            None => Err(
                Error::MalformedHeader(
                    WarcHeader::Date,
                    String::from_str("not an ISO 8601 datestamp"),
                ),
            ),
        }
    }

    /// Look a header up, under its canonical identity: the four promoted
    /// fields are rendered from their typed state, anything else is read
    /// from the residual map.
    pub fn header(&self, header: WarcHeader) -> (r: Option<String>)
        requires
            self.inv(),
            self.spec_residual().has_key(canon(header)) ==> valid_utf8(
                self.spec_residual().get_val(canon(header)),
            ),
        ensures
            ({
                let k = canon(header);
                if k == "content-length"@ {
                    r matches Some(s) && s@ == dec_digits(self.spec_body().len())
                } else if k == "warc-record-id"@ {
                    r matches Some(s) && s@ == self.spec_id()
                } else if k == "warc-type"@ {
                    r matches Some(s) && s@ == rt_label(self.spec_rtype())
                } else if k == "warc-date"@ {
                    r matches Some(s) && s@ == render_ts(self.spec_date())
                } else if self.spec_residual().has_key(k) {
                    r matches Some(s) && s@ == decode_utf8(self.spec_residual().get_val(k))
                } else {
                    r is None
                }
            }),
    {
        let c = header.canon_name();
        let cs = c.as_str();
        if crate::text::str_eq(cs, "content-length") {
            Some(crate::text::u64_to_dec(self.content_length()))
        } else if crate::text::str_eq(cs, "warc-record-id") {
            Some(self.record_id.clone())
        } else if crate::text::str_eq(cs, "warc-type") {
            Some(self.record_type.label())
        } else if crate::text::str_eq(cs, "warc-date") {
            Some(crate::timestamp::render_timestamp(&self.record_date))
        } else {
            match self.headers.headers.get(&header) {
                Some(v) => match crate::text::bytes_to_string(v.as_slice()) {
                    Some(s) => Some(s),
                    None => None,
                },
                None => None,
            }
        }
    }

    /// Set a header, under its canonical identity, returning the prior
    /// value when there was one. The date must be a well-formed timestamp
    /// and the content length can only restate the body's actual length;
    /// every other field accepts any text.
    pub fn set_header(&mut self, header: WarcHeader, value: &str) -> (r: Result<
        Option<String>,
        Error,
    >)
        requires
            old(self).inv(),
            old(self).spec_residual().has_key(canon(header)) ==> valid_utf8(
                old(self).spec_residual().get_val(canon(header)),
            ),
        ensures
            final(self).inv(),
            final(self).spec_version() == old(self).spec_version(),
            final(self).spec_body() == old(self).spec_body(),
            ({
                let k = canon(header);
                if k == "warc-date"@ {
                    &&& final(self).spec_id() == old(self).spec_id()
                    &&& final(self).spec_rtype() == old(self).spec_rtype()
                    &&& final(self).spec_trunc() == old(self).spec_trunc()
                    &&& final(self).spec_residual() == old(self).spec_residual()
                    &&& match spec_parse_timestamp(value@) {
                        Some(t) => (r matches Ok(p) && p matches Some(s) && s@ == render_ts(
                            old(self).spec_date(),
                        )) && final(self).spec_date() == t,
                        None => (r matches Err(e) && crate::error::malformed_matches(
                            e,
                            "warc-date"@,
                            "not an ISO 8601 datestamp"@,
                        )) && final(self).spec_date() == old(self).spec_date(),
                    }
                } else if k == "warc-record-id"@ {
                    &&& final(self).spec_date() == old(self).spec_date()
                    &&& final(self).spec_rtype() == old(self).spec_rtype()
                    &&& final(self).spec_trunc() == old(self).spec_trunc()
                    &&& final(self).spec_residual() == old(self).spec_residual()
                    &&& (r matches Ok(p) && p matches Some(s) && s@ == old(self).spec_id())
                    &&& final(self).spec_id() == value@
                } else if k == "warc-type"@ {
                    &&& final(self).spec_date() == old(self).spec_date()
                    &&& final(self).spec_id() == old(self).spec_id()
                    &&& final(self).spec_trunc() == old(self).spec_trunc()
                    &&& final(self).spec_residual() == old(self).spec_residual()
                    &&& (r matches Ok(p) && p matches Some(s) && s@ == rt_label(
                        old(self).spec_rtype(),
                    ))
                    &&& (is_known_rt(lower(value@)) ==> final(self).spec_rtype() == known_rt_of(
                        lower(value@),
                    ))
                    &&& (!is_known_rt(lower(value@)) ==> (final(self).spec_rtype() matches
                    RecordType::Unknown(u) && u@ == value@))
                } else if k == "warc-truncated"@ {
                    &&& final(self).spec_date() == old(self).spec_date()
                    &&& final(self).spec_id() == old(self).spec_id()
                    &&& final(self).spec_rtype() == old(self).spec_rtype()
                    &&& final(self).spec_residual() == old(self).spec_residual()
                    &&& (match old(self).spec_trunc() {
                        Some(tt) => r matches Ok(p) && p matches Some(s) && s@ == tt_label(tt),
                        None => r matches Ok(p) && p is None,
                    })
                    &&& (final(self).spec_trunc() matches Some(tt) && (is_known_tt(lower(value@))
                        ==> tt == known_tt_of(lower(value@))) && (!is_known_tt(lower(value@)) ==> (
                    tt matches TruncatedType::Unknown(u) && u@ == value@)))
                } else if k == "content-length"@ {
                    &&& final(self).spec_date() == old(self).spec_date()
                    &&& final(self).spec_id() == old(self).spec_id()
                    &&& final(self).spec_rtype() == old(self).spec_rtype()
                    &&& final(self).spec_trunc() == old(self).spec_trunc()
                    &&& final(self).spec_residual() == old(self).spec_residual()
                    &&& match parse_dec(value@, u64::MAX as nat) {
                        Some(v) => if v == old(self).spec_body().len() {
                            r matches Ok(p) && p matches Some(s) && s@ == value@
                        } else {
                            r matches Err(e) && crate::error::malformed_matches(
                                e,
                                "content-length"@,
                                "content length != body size"@,
                            )
                        },
                        None => r matches Err(e) && crate::error::malformed_matches(
                            e,
                            "content-length"@,
                            "not an integer between 0 and 2^64-1"@,
                        ),
                    }
                } else {
                    &&& final(self).spec_date() == old(self).spec_date()
                    &&& final(self).spec_id() == old(self).spec_id()
                    &&& final(self).spec_rtype() == old(self).spec_rtype()
                    &&& final(self).spec_trunc() == old(self).spec_trunc()
                    &&& (if old(self).spec_residual().has_key(k) {
                        r matches Ok(p) && p matches Some(s) && s@ == decode_utf8(
                            old(self).spec_residual().get_val(k),
                        )
                    } else {
                        r matches Ok(p) && p is None
                    })
                    &&& final(self).spec_residual().wf()
                    &&& (forall|k2: Seq<char>| #[trigger]
                        final(self).spec_residual().has_key(k2) <==> old(
                            self,
                        ).spec_residual().has_key(k2) || k2 == k)
                    &&& final(self).spec_residual().get_val(k) == encode_utf8(value@)
                    &&& (forall|k2: Seq<char>|
                        k2 != k && old(self).spec_residual().has_key(k2)
                            ==> #[trigger] final(self).spec_residual().get_val(k2) == old(
                            self,
                        ).spec_residual().get_val(k2))
                }
            }),
    {
        let c = header.canon_name();
        let cs = c.as_str();
        if crate::text::str_eq(cs, "warc-date") {
            match crate::timestamp::parse_timestamp(value) {
                Some(t) => {
                    let prior = crate::timestamp::render_timestamp(&self.record_date);
                    self.record_date = t;
                    Ok(Some(prior))
                },
                None => Err(
                    Error::MalformedHeader(
                        WarcHeader::Date,
                        String::from_str("not an ISO 8601 datestamp"),
                    ),
                ),
            }
        } else if crate::text::str_eq(cs, "warc-record-id") {
            let prior = self.record_id.clone();
            self.record_id = value.to_owned();
            Ok(Some(prior))
        } else if crate::text::str_eq(cs, "warc-type") {
            let prior = self.record_type.label();
            self.record_type = RecordType::from_text(value);
            Ok(Some(prior))
        } else if crate::text::str_eq(cs, "warc-truncated") {
            let prior = match &self.truncated_type {
                Some(tt) => Some(tt.label()),
                None => None,
            };
            self.truncated_type = Some(TruncatedType::from_text(value));
            Ok(prior)
        } else if crate::text::str_eq(cs, "content-length") {
            match parse_u64_str(value) {
                None => Err(
                    Error::MalformedHeader(
                        WarcHeader::ContentLength,
                        String::from_str("not an integer between 0 and 2^64-1"),
                    ),
                ),
                Some(v) => {
                    if v != self.content_length() {
                        Err(
                            Error::MalformedHeader(
                                WarcHeader::ContentLength,
                                String::from_str("content length != body size"),
                            ),
                        )
                    } else {
                        Ok(Some(value.to_owned()))
                    }
                },
            }
        } else {
            let bytes = value.as_bytes_vec();
            let prior = self.headers.headers.insert(header, bytes);
            match prior {
                Some(b) => match crate::text::bytes_to_string(b.as_slice()) {
                    Some(s) => Ok(Some(s)),
                    None => Ok(None),
                },
                None => Ok(None),
            }
        }
    }
}

impl Record {
    /// How many headers synthesis adds to the residual map.
    pub open spec fn synth_extra(self) -> int {
        if self.spec_trunc() is Some {
            5
        } else {
            4
        }
    }

    /// What synthesis appends and where: the residual entries first,
    /// unchanged, then content length, record type, record id, the
    /// truncation reason when one is set, and the date.
    pub open spec fn synth_matches(self, m: HeaderMap) -> bool {
        let n0 = self.spec_residual().spec_len() as int;
        let di = if self.spec_trunc() is Some {
            n0 + 4
        } else {
            n0 + 3
        };
        &&& m.wf()
        &&& m.spec_len() == n0 + self.synth_extra()
        &&& (forall|t: int|
            0 <= t < n0 ==> #[trigger] m.entries_seq()[t] == self.spec_residual().entries_seq()[t])
        &&& m.entries_seq()[n0].0 == WarcHeader::ContentLength
        &&& m.val_at(n0) == encode_utf8(dec_digits(self.spec_body().len()))
        &&& m.entries_seq()[n0 + 1].0 == WarcHeader::WarcType
        &&& m.val_at(n0 + 1) == encode_utf8(rt_label(self.spec_rtype()))
        &&& m.entries_seq()[n0 + 2].0 == WarcHeader::RecordID
        &&& m.val_at(n0 + 2) == encode_utf8(self.spec_id())
        &&& (self.spec_trunc() matches Some(tt) ==> m.entries_seq()[n0 + 3].0
            == WarcHeader::Truncated && m.val_at(n0 + 3) == encode_utf8(tt_label(tt)))
        &&& m.entries_seq()[di].0 == WarcHeader::Date
        &&& m.val_at(di) == encode_utf8(render_ts(self.spec_date()))
    }

    /// Transform this record into a raw header block and body holding the
    /// same data: the content length is re-derived from the body — never
    /// from stored state — and the typed fields are written back as fresh
    /// map entries after the residual ones. That none of these keys was
    /// already present is the record invariant.
    pub fn into_raw_parts(self) -> (r: (RawHeaderBlock, Vec<u8>))
        requires
            self.inv(),
        ensures
            r.1@ == self.spec_body(),
            r.0.version@ == self.spec_version(),
            self.synth_matches(r.0.headers),
    {
        proof {
            crate::header::lemma_known_names_differ();
            reveal_strlit("content-length");
            reveal_strlit("warc-type");
            reveal_strlit("warc-record-id");
            reveal_strlit("warc-truncated");
            reveal_strlit("warc-date");
        }
        let Record { mut headers, record_date, record_id, record_type, truncated_type, body } =
            self;
        let ghost m0 = headers.headers;
        let cl_text = crate::text::u64_to_dec(body.0.len() as u64);
        headers.headers.insert(WarcHeader::ContentLength, cl_text.as_str().as_bytes_vec());
        let ghost m1 = headers.headers;
        headers.headers.insert(WarcHeader::WarcType, record_type.label().as_str().as_bytes_vec());
        let ghost m2 = headers.headers;
        headers.headers.insert(WarcHeader::RecordID, record_id.as_str().as_bytes_vec());
        let ghost m3 = headers.headers;
        if let Some(tt) = &truncated_type {
            headers.headers.insert(WarcHeader::Truncated, tt.label().as_str().as_bytes_vec());
        }
        let ghost m4 = headers.headers;
        headers.headers.insert(
            WarcHeader::Date,
            crate::timestamp::render_timestamp(&record_date).as_str().as_bytes_vec(),
        );
        proof {
            let m = headers.headers;
            let n0 = m0.spec_len() as int;
            assert(!m0.has_key("content-length"@));
            assert(!m0.has_key("warc-type"@));
            assert(!m0.has_key("warc-record-id"@));
            assert(!m0.has_key("warc-truncated"@));
            assert(!m0.has_key("warc-date"@));
            assert(m1.entries_seq()[n0].0 == WarcHeader::ContentLength);
            assert(m1.val_at(n0) == encode_utf8(dec_digits(body.0@.len())));
            assert(m2.entries_seq() == m1.entries_seq().push(
                (WarcHeader::WarcType, m2.entries_seq().last().1),
            ));
            assert(m2.val_at(n0 + 1) == encode_utf8(rt_label(record_type)));
            assert(m3.val_at(n0 + 2) == encode_utf8(record_id@));
            if truncated_type is Some {
                assert(m4.val_at(n0 + 3) == encode_utf8(tt_label(truncated_type.unwrap())));
                assert(m.val_at(n0 + 4) == encode_utf8(render_ts(record_date)));
            } else {
                assert(m4 == m3);
                assert(m.val_at(n0 + 3) == encode_utf8(render_ts(record_date)));
            }
            assert(forall|t: int|
                0 <= t < n0 ==> #[trigger] m.entries_seq()[t] == m0.entries_seq()[t]);
        }
        (headers, body.0)
    }
}

/// Whether every required field of a raw record validates: the content
/// length is present, text, a number, and equal to the body's length; the
/// record type, record id and date are present and text; the date reads as
/// a timestamp; and a truncation reason, when present, is text.
pub open spec fn conversion_ok(raw: RawRecord) -> bool {
    let m = raw.headers.headers;
    &&& m.has_key("content-length"@)
    &&& valid_utf8(m.get_val("content-length"@))
    &&& parse_dec(decode_utf8(m.get_val("content-length"@)), u64::MAX as nat) == Some(
        raw.body@.len(),
    )
    &&& m.has_key("warc-type"@)
    &&& valid_utf8(m.get_val("warc-type"@))
    &&& m.has_key("warc-record-id"@)
    &&& valid_utf8(m.get_val("warc-record-id"@))
    &&& m.has_key("warc-date"@)
    &&& valid_utf8(m.get_val("warc-date"@))
    &&& spec_parse_timestamp(decode_utf8(m.get_val("warc-date"@))) is Some
    &&& (m.has_key("warc-truncated"@) ==> valid_utf8(m.get_val("warc-truncated"@)))
}

/// The error a failing conversion reports: validation runs in a fixed
/// order and stops at the first violated rule.
pub open spec fn conversion_err_matches(raw: RawRecord, e: Error) -> bool {
    let m = raw.headers.headers;
    if !m.has_key("content-length"@) {
        crate::error::missing_matches(e, "content-length"@)
    } else if !valid_utf8(m.get_val("content-length"@)) {
        crate::error::malformed_matches(e, "content-length"@, "not a UTF-8 string"@)
    } else if parse_dec(decode_utf8(m.get_val("content-length"@)), u64::MAX as nat) is None {
        crate::error::malformed_matches(
            e,
            "content-length"@,
            "not an integer between 0 and 2^64-1"@,
        )
    } else if parse_dec(decode_utf8(m.get_val("content-length"@)), u64::MAX as nat) != Some(
        raw.body@.len(),
    ) {
        crate::error::malformed_matches(e, "content-length"@, "content length != body length"@)
    } else if !m.has_key("warc-type"@) {
        crate::error::missing_matches(e, "warc-type"@)
    } else if !valid_utf8(m.get_val("warc-type"@)) {
        crate::error::malformed_matches(e, "warc-type"@, "not a UTF-8 string"@)
    } else if !m.has_key("warc-record-id"@) {
        crate::error::missing_matches(e, "warc-record-id"@)
    } else if !valid_utf8(m.get_val("warc-record-id"@)) {
        crate::error::malformed_matches(e, "warc-record-id"@, "not a UTF-8 string"@)
    } else if !m.has_key("warc-date"@) {
        crate::error::missing_matches(e, "warc-date"@)
    } else if !valid_utf8(m.get_val("warc-date"@)) {
        crate::error::malformed_matches(e, "warc-date"@, "not a UTF-8 string"@)
    } else if spec_parse_timestamp(decode_utf8(m.get_val("warc-date"@))) is None {
        crate::error::malformed_matches(e, "warc-date"@, "not an ISO 8601 datestamp"@)
    } else if m.has_key("warc-truncated"@) && !valid_utf8(m.get_val("warc-truncated"@)) {
        crate::error::malformed_matches(e, "warc-truncated"@, "not a UTF-8 string"@)
    } else {
        false
    }
}

/// How a converted record's fields relate to the raw record they came
/// from.
pub open spec fn conversion_fields_match(raw: RawRecord, rec: Record) -> bool {
    let m = raw.headers.headers;
    let tv = decode_utf8(m.get_val("warc-type"@));
    let wv = decode_utf8(m.get_val("warc-truncated"@));
    &&& rec.inv()
    &&& rec.spec_body() == raw.body@
    &&& rec.spec_version() == raw.headers.version@
    &&& rec.spec_id() == decode_utf8(m.get_val("warc-record-id"@))
    &&& Some(rec.spec_date()) == spec_parse_timestamp(decode_utf8(m.get_val("warc-date"@)))
    &&& (is_known_rt(lower(tv)) ==> rec.spec_rtype() == known_rt_of(lower(tv)))
    &&& (!is_known_rt(lower(tv)) ==> (rec.spec_rtype() matches RecordType::Unknown(u) && u@ == tv))
    &&& (m.has_key("warc-truncated"@) ==> (rec.spec_trunc() matches Some(tt) && (is_known_tt(
        lower(wv),
    ) ==> tt == known_tt_of(lower(wv))) && (!is_known_tt(lower(wv)) ==> (tt matches
    TruncatedType::Unknown(u) && u@ == wv))))
    &&& (!m.has_key("warc-truncated"@) ==> rec.spec_trunc() is None)
    &&& (forall|k: Seq<char>|
        #[trigger] rec.spec_residual().has_key(k) <==> m.has_key(k) && !is_promoted(k))
    &&& (forall|k: Seq<char>|
        rec.spec_residual().has_key(k) ==> #[trigger] rec.spec_residual().get_val(k)
            == m.get_val(k))
}

impl Record {
    /// Validate a raw record into a typed one. The checks run in a fixed
    /// order — content length, record type, record id, date, truncation
    /// reason — and stop at the first failure; on success the five headers
    /// leave the map and become typed fields.
    pub fn try_from_raw(raw: RawRecord) -> (r: Result<Record, Error>)
        requires
            raw.headers.headers.wf(),
        ensures
            r is Ok <==> conversion_ok(raw),
            r matches Ok(rec) ==> conversion_fields_match(raw, rec),
            r matches Err(e) ==> conversion_err_matches(raw, e),
    {
        proof {
            crate::header::lemma_known_names_differ();
            reveal_strlit("content-length");
            reveal_strlit("warc-type");
            reveal_strlit("warc-record-id");
            reveal_strlit("warc-truncated");
            reveal_strlit("warc-date");
        }
        let RawRecord { mut headers, body } = raw;
        let ghost m = headers.headers;
        let cl_bytes = match headers.headers.remove(&WarcHeader::ContentLength) {
            Some(v) => v,
            None => {
                return Err(Error::MissingHeader(WarcHeader::ContentLength));
            },
        };
        let cl_text = match crate::text::bytes_to_string(cl_bytes.as_slice()) {
            Some(s) => s,
            None => {
                return Err(
                    Error::MalformedHeader(
                        WarcHeader::ContentLength,
                        String::from_str("not a UTF-8 string"),
                    ),
                );
            },
        };
        let cl = match parse_u64_str(cl_text.as_str()) {
            Some(v) => v,
            None => {
                return Err(
                    Error::MalformedHeader(
                        WarcHeader::ContentLength,
                        String::from_str("not an integer between 0 and 2^64-1"),
                    ),
                );
            },
        };
        if cl != body.len() as u64 {
            return Err(
                Error::MalformedHeader(
                    WarcHeader::ContentLength,
                    String::from_str("content length != body length"),
                ),
            );
        }
        proof {
            let m1 = headers.headers;
            assert(m1.has_key("warc-type"@) <==> m.has_key("warc-type"@));
            assert(m.has_key("warc-type"@) ==> m1.get_val("warc-type"@) == m.get_val("warc-type"@));
            assert(m1.has_key("warc-record-id"@) <==> m.has_key("warc-record-id"@));
            assert(m.has_key("warc-record-id"@) ==> m1.get_val("warc-record-id"@) == m.get_val("warc-record-id"@));
            assert(m1.has_key("warc-date"@) <==> m.has_key("warc-date"@));
            assert(m.has_key("warc-date"@) ==> m1.get_val("warc-date"@) == m.get_val("warc-date"@));
            assert(m1.has_key("warc-truncated"@) <==> m.has_key("warc-truncated"@));
            assert(m.has_key("warc-truncated"@) ==> m1.get_val("warc-truncated"@) == m.get_val("warc-truncated"@));
        }
        let ty_bytes = match headers.headers.remove(&WarcHeader::WarcType) {
            Some(v) => v,
            None => {
                return Err(Error::MissingHeader(WarcHeader::WarcType));
            },
        };
        let ty_text = match crate::text::bytes_to_string(ty_bytes.as_slice()) {
            Some(s) => s,
            None => {
                return Err(
                    Error::MalformedHeader(
                        WarcHeader::WarcType,
                        String::from_str("not a UTF-8 string"),
                    ),
                );
            },
        };
        let record_type = RecordType::from_text(ty_text.as_str());
        proof {
            let m2 = headers.headers;
            assert(m2.has_key("warc-record-id"@) <==> m.has_key("warc-record-id"@));
            assert(m.has_key("warc-record-id"@) ==> m2.get_val("warc-record-id"@) == m.get_val("warc-record-id"@));
            assert(m2.has_key("warc-date"@) <==> m.has_key("warc-date"@));
            assert(m.has_key("warc-date"@) ==> m2.get_val("warc-date"@) == m.get_val("warc-date"@));
            assert(m2.has_key("warc-truncated"@) <==> m.has_key("warc-truncated"@));
            assert(m.has_key("warc-truncated"@) ==> m2.get_val("warc-truncated"@) == m.get_val("warc-truncated"@));
        }
        let id_bytes = match headers.headers.remove(&WarcHeader::RecordID) {
            Some(v) => v,
            None => {
                return Err(Error::MissingHeader(WarcHeader::RecordID));
            },
        };
        let record_id = match crate::text::bytes_to_string(id_bytes.as_slice()) {
            Some(s) => s,
            None => {
                return Err(
                    Error::MalformedHeader(
                        WarcHeader::RecordID,
                        String::from_str("not a UTF-8 string"),
                    ),
                );
            },
        };
        proof {
            let m3 = headers.headers;
            assert(m3.has_key("warc-date"@) <==> m.has_key("warc-date"@));
            assert(m.has_key("warc-date"@) ==> m3.get_val("warc-date"@) == m.get_val("warc-date"@));
            assert(m3.has_key("warc-truncated"@) <==> m.has_key("warc-truncated"@));
            assert(m.has_key("warc-truncated"@) ==> m3.get_val("warc-truncated"@) == m.get_val("warc-truncated"@));
        }
        let date_bytes = match headers.headers.remove(&WarcHeader::Date) {
            Some(v) => v,
            None => {
                return Err(Error::MissingHeader(WarcHeader::Date));
            },
        };
        let date_text = match crate::text::bytes_to_string(date_bytes.as_slice()) {
            Some(s) => s,
            None => {
                return Err(
                    Error::MalformedHeader(
                        WarcHeader::Date,
                        String::from_str("not a UTF-8 string"),
                    ),
                );
            },
        };
        let record_date = match crate::timestamp::parse_timestamp(date_text.as_str()) {
            Some(t) => t,
            None => {
                return Err(
                    Error::MalformedHeader(
                        WarcHeader::Date,
                        String::from_str("not an ISO 8601 datestamp"),
                    ),
                );
            },
        };
        proof {
            let m4 = headers.headers;
            assert(m4.has_key("warc-truncated"@) <==> m.has_key("warc-truncated"@));
            assert(m.has_key("warc-truncated"@) ==> m4.get_val("warc-truncated"@) == m.get_val("warc-truncated"@));
        }
        let truncated_type = match headers.headers.remove(&WarcHeader::Truncated) {
            Some(v) => match crate::text::bytes_to_string(v.as_slice()) {
                Some(s) => Some(TruncatedType::from_text(s.as_str())),
                None => {
                    return Err(
                        Error::MalformedHeader(
                            WarcHeader::Truncated,
                            String::from_str("not a UTF-8 string"),
                        ),
                    );
                },
            },
            None => None,
        };
        Ok(
            Record {
                headers,
                record_date,
                record_id,
                record_type,
                truncated_type,
                body: BufferedBody(body),
            },
        )
    }
}

impl PartialEq for Record {
    fn eq(&self, other: &Record) -> (r: bool) {
        let b = self.body.0 == other.body.0;
        proof {
            if self.body.0@ =~= other.body.0@ {
                assert(self.body.0@ == other.body.0@);
            }
        }
        let tt = match (&self.truncated_type, &other.truncated_type) {
            (None, None) => true,
            (Some(a), Some(b)) => *a == *b,
            _ => false,
        };
        self.headers == other.headers && self.record_date == other.record_date && self.record_id
            == other.record_id && self.record_type == other.record_type && tt && b
    }
}

impl vstd::std_specs::cmp::PartialEqSpecImpl for Record {
    open spec fn obeys_eq_spec() -> bool {
        true
    }

    open spec fn eq_spec(&self, other: &Record) -> bool {
        &&& self.spec_version() == other.spec_version()
        &&& hm_eq(self.spec_residual(), other.spec_residual())
        &&& self.spec_date() == other.spec_date()
        &&& self.spec_id() == other.spec_id()
        &&& crate::record_type::rt_eq(self.spec_rtype(), other.spec_rtype())
        &&& (match (self.spec_trunc(), other.spec_trunc()) {
            (None, None) => true,
            (Some(a), Some(b)) => crate::truncated_type::tt_eq(a, b),
            _ => false,
        })
        &&& self.spec_body() == other.spec_body()
    }
}

/// Every residual value is text: what the header-setting interface alone
/// can produce.
pub open spec fn text_residual(rec: Record) -> bool {
    forall|k: Seq<char>| #[trigger]
        rec.spec_residual().has_key(k) ==> valid_utf8(rec.spec_residual().get_val(k))
}

/// The keys a record's synthesized raw form holds: the promoted fields
/// (the truncation reason only when set) and the residual keys.
pub open spec fn synth_has(rec: Record, k: Seq<char>) -> bool {
    ||| k == "content-length"@
    ||| k == "warc-type"@
    ||| k == "warc-record-id"@
    ||| k == "warc-date"@
    ||| (k == "warc-truncated"@ && rec.spec_trunc() is Some)
    ||| rec.spec_residual().has_key(k)
}

/// The value a record's synthesized raw form holds under a key.
pub open spec fn synth_val(rec: Record, k: Seq<char>) -> Seq<u8> {
    if k == "content-length"@ {
        encode_utf8(dec_digits(rec.spec_body().len()))
    } else if k == "warc-type"@ {
        encode_utf8(rt_label(rec.spec_rtype()))
    } else if k == "warc-record-id"@ {
        encode_utf8(rec.spec_id())
    } else if k == "warc-date"@ {
        encode_utf8(render_ts(rec.spec_date()))
    } else if k == "warc-truncated"@ {
        encode_utf8(tt_label(rec.spec_trunc().unwrap()))
    } else {
        rec.spec_residual().get_val(k)
    }
}

/// The synthesized raw form, read key by key rather than entry by entry.
pub proof fn lemma_synth_key_level(rec: Record, m: HeaderMap)
    requires
        rec.inv(),
        rec.synth_matches(m),
    ensures
        forall|k: Seq<char>| #[trigger] m.has_key(k) <==> synth_has(rec, k),
        forall|k: Seq<char>|
            synth_has(rec, k) ==> #[trigger] m.get_val(k) == synth_val(rec, k),
{
    crate::header::lemma_known_names_differ();
    reveal_strlit("content-length");
    reveal_strlit("warc-type");
    reveal_strlit("warc-record-id");
    reveal_strlit("warc-truncated");
    reveal_strlit("warc-date");
    let res = rec.spec_residual();
    let n0 = res.spec_len() as int;
    let di = if rec.spec_trunc() is Some {
        n0 + 4
    } else {
        n0 + 3
    };
    assert(forall|t: int| 0 <= t < n0 ==> #[trigger] m.canon_at(t) == res.canon_at(t));
    assert(forall|t: int| 0 <= t < n0 ==> #[trigger] m.val_at(t) == res.val_at(t));
    assert(m.canon_at(n0) == "content-length"@);
    assert(m.canon_at(n0 + 1) == "warc-type"@);
    assert(m.canon_at(n0 + 2) == "warc-record-id"@);
    assert(rec.spec_trunc() is Some ==> m.canon_at(n0 + 3) == "warc-truncated"@);
    assert(m.canon_at(di) == "warc-date"@);
    assert forall|k: Seq<char>| #[trigger] m.has_key(k) implies synth_has(rec, k) by {
        let t = m.index_of(k);
        m.lemma_index_unique(t);
        if t < n0 {
            assert(res.canon_at(t) == k);
            res.lemma_index_unique(t);
        }
    }
    assert forall|k: Seq<char>| synth_has(rec, k) implies #[trigger] m.has_key(k) && m.get_val(k)
        == synth_val(rec, k) by {
        if k == "content-length"@ {
            m.lemma_index_unique(n0);
        } else if k == "warc-type"@ {
            m.lemma_index_unique(n0 + 1);
        } else if k == "warc-record-id"@ {
            m.lemma_index_unique(n0 + 2);
        } else if k == "warc-date"@ {
            m.lemma_index_unique(di);
        } else if k == "warc-truncated"@ && rec.spec_trunc() is Some {
            m.lemma_index_unique(n0 + 3);
        } else {
            assert(res.has_key(k));
            let t = res.index_of(k);
            res.lemma_index_unique(t);
            assert(!is_promoted(k));
            assert(m.canon_at(t) == k);
            m.lemma_index_unique(t);
            assert(m.val_at(t) == res.val_at(t));
        }
    }
    assert forall|k: Seq<char>| synth_has(rec, k) implies #[trigger] m.get_val(k) == synth_val(
        rec,
        k,
    ) by {
        assert(m.has_key(k));
    }
}

/// What a successful header assignment through the typed setter does to a
/// record, by the key's canonical identity.
pub open spec fn setter_effect(a: Record, b: Record, k: Seq<char>, v: Seq<char>) -> bool {
    &&& b.spec_version() == a.spec_version()
    &&& b.spec_body() == a.spec_body()
    &&& if k == "warc-date"@ {
        &&& Some(b.spec_date()) == spec_parse_timestamp(v)
        &&& b.spec_id() == a.spec_id()
        &&& b.spec_rtype() == a.spec_rtype()
        &&& b.spec_trunc() == a.spec_trunc()
        &&& b.spec_residual() == a.spec_residual()
    } else if k == "warc-record-id"@ {
        &&& b.spec_id() == v
        &&& b.spec_date() == a.spec_date()
        &&& b.spec_rtype() == a.spec_rtype()
        &&& b.spec_trunc() == a.spec_trunc()
        &&& b.spec_residual() == a.spec_residual()
    } else if k == "warc-type"@ {
        &&& (is_known_rt(lower(v)) ==> b.spec_rtype() == known_rt_of(lower(v)))
        &&& (!is_known_rt(lower(v)) ==> (b.spec_rtype() matches RecordType::Unknown(u) && u@ == v))
        &&& b.spec_date() == a.spec_date()
        &&& b.spec_id() == a.spec_id()
        &&& b.spec_trunc() == a.spec_trunc()
        &&& b.spec_residual() == a.spec_residual()
    } else if k == "warc-truncated"@ {
        &&& (b.spec_trunc() matches Some(tt) && (is_known_tt(lower(v)) ==> tt == known_tt_of(
            lower(v),
        )) && (!is_known_tt(lower(v)) ==> (tt matches TruncatedType::Unknown(u) && u@ == v)))
        &&& b.spec_date() == a.spec_date()
        &&& b.spec_id() == a.spec_id()
        &&& b.spec_rtype() == a.spec_rtype()
        &&& b.spec_residual() == a.spec_residual()
    } else if k == "content-length"@ {
        &&& b.spec_date() == a.spec_date()
        &&& b.spec_id() == a.spec_id()
        &&& b.spec_rtype() == a.spec_rtype()
        &&& b.spec_trunc() == a.spec_trunc()
        &&& b.spec_residual() == a.spec_residual()
    } else {
        &&& b.spec_date() == a.spec_date()
        &&& b.spec_id() == a.spec_id()
        &&& b.spec_rtype() == a.spec_rtype()
        &&& b.spec_trunc() == a.spec_trunc()
        &&& b.spec_residual().wf()
        &&& (forall|k2: Seq<char>|
            #[trigger] b.spec_residual().has_key(k2) <==> a.spec_residual().has_key(k2) || k2 == k)
        &&& b.spec_residual().get_val(k) == encode_utf8(v)
        &&& (forall|k2: Seq<char>|
            k2 != k && a.spec_residual().has_key(k2) ==> #[trigger] b.spec_residual().get_val(k2)
                == a.spec_residual().get_val(k2))
    }
}

/// Two records whose observable state agrees: same version, id, timestamp
/// and body, the same record type and truncation reason, and residual maps
/// holding the same keys and values.
pub open spec fn records_equivalent(a: Record, b: Record) -> bool {
    &&& a.spec_version() == b.spec_version()
    &&& a.spec_id() == b.spec_id()
    &&& a.spec_date() == b.spec_date()
    &&& a.spec_body() == b.spec_body()
    &&& crate::record_type::rt_eq(a.spec_rtype(), b.spec_rtype())
    &&& (match (a.spec_trunc(), b.spec_trunc()) {
        (None, None) => true,
        (Some(x), Some(y)) => crate::truncated_type::tt_eq(x, y),
        _ => false,
    })
    &&& (forall|k: Seq<char>|
        #[trigger] a.spec_residual().has_key(k) <==> b.spec_residual().has_key(k))
    &&& (forall|k: Seq<char>|
        a.spec_residual().has_key(k) ==> #[trigger] a.spec_residual().get_val(k)
            == b.spec_residual().get_val(k))
}

/// Synthesizing a typed record to raw form and converting those headers
/// back always validates, and yields a record equal to the original in
/// every field. Stability of the type and truncation vocabulary texts is
/// needed: a fallback text that names a standard word would be read back
/// as that word.
pub proof fn lemma_synth_convert_roundtrip(rec: Record, raw: RawRecord, rec2: Record)
    requires
        rec.inv(),
        rec.spec_body().len() <= u64::MAX,
        crate::record_type::rt_stable(rec.spec_rtype()),
        rec.spec_trunc() matches Some(t) ==> crate::truncated_type::tt_stable(t),
        rec.synth_matches(raw.headers.headers),
        raw.body@ == rec.spec_body(),
        raw.headers.version@ == rec.spec_version(),
    ensures
        conversion_ok(raw),
        conversion_fields_match(raw, rec2) ==> records_equivalent(rec2, rec),
{
    lemma_synth_key_level(rec, raw.headers.headers);
    lemma_keylevel_convert(rec, raw, rec2);
}

/// Converting any raw record whose header map reads, key by key, as the
/// synthesized form of a typed record yields a record equal to it.
pub proof fn lemma_keylevel_convert(rec: Record, raw: RawRecord, rec2: Record)
    requires
        rec.inv(),
        rec.spec_body().len() <= u64::MAX,
        crate::record_type::rt_stable(rec.spec_rtype()),
        rec.spec_trunc() matches Some(t) ==> crate::truncated_type::tt_stable(t),
        forall|k: Seq<char>| #[trigger] raw.headers.headers.has_key(k) <==> synth_has(rec, k),
        forall|k: Seq<char>|
            synth_has(rec, k) ==> #[trigger] raw.headers.headers.get_val(k) == synth_val(rec, k),
        raw.body@ == rec.spec_body(),
        raw.headers.version@ == rec.spec_version(),
    ensures
        conversion_ok(raw),
        conversion_fields_match(raw, rec2) ==> records_equivalent(rec2, rec),
{
    broadcast use vstd::utf8::encode_utf8_valid_utf8;
    broadcast use vstd::utf8::encode_utf8_decode_utf8;

    crate::header::lemma_known_names_differ();
    reveal_strlit("content-length");
    reveal_strlit("warc-type");
    reveal_strlit("warc-record-id");
    reveal_strlit("warc-truncated");
    reveal_strlit("warc-date");
    let m = raw.headers.headers;
    let len = rec.spec_body().len();
    assert(m.get_val("content-length"@) == encode_utf8(dec_digits(len)));
    assert(decode_utf8(encode_utf8(dec_digits(len))) == dec_digits(len));
    crate::text::lemma_parse_of_rendered(len, u64::MAX as nat);
    assert(parse_dec(decode_utf8(m.get_val("content-length"@)), u64::MAX as nat) == Some(len));
    crate::timestamp::lemma_render_parse_roundtrip(rec.spec_date());
    assert(decode_utf8(m.get_val("warc-date"@)) == render_ts(rec.spec_date()));
    assert(spec_parse_timestamp(render_ts(rec.spec_date())) == Some(rec.spec_date()));
    assert(conversion_ok(raw));
    if conversion_fields_match(raw, rec2) {
        assert(rec2.spec_id() == decode_utf8(encode_utf8(rec.spec_id())));
        assert(rec2.spec_date() == rec.spec_date());
        let tv = decode_utf8(m.get_val("warc-type"@));
        assert(tv == rt_label(rec.spec_rtype()));
        crate::record_type::lemma_rt_roundtrip(rec.spec_rtype());
        assert(crate::record_type::rt_eq(rec2.spec_rtype(), rec.spec_rtype())) by {
            if is_known_rt(lower(tv)) {
                assert(rec2.spec_rtype() == rec.spec_rtype());
                lemma_rt_eq_refl(rec.spec_rtype());
            }
        }
        if rec.spec_trunc() is Some {
            let tt = rec.spec_trunc().unwrap();
            let wv = decode_utf8(m.get_val("warc-truncated"@));
            assert(m.has_key("warc-truncated"@));
            assert(wv == tt_label(tt));
            crate::truncated_type::lemma_tt_roundtrip(tt);
            assert(match (rec2.spec_trunc(), rec.spec_trunc()) {
                (Some(x), Some(y)) => crate::truncated_type::tt_eq(x, y),
                _ => false,
            }) by {
                if is_known_tt(lower(wv)) {
                    lemma_tt_eq_refl(tt);
                }
            }
        } else {
            assert(!m.has_key("warc-truncated"@));
        }
        assert forall|k: Seq<char>| #[trigger]
            rec2.spec_residual().has_key(k) <==> rec.spec_residual().has_key(k) by {
            if rec.spec_residual().has_key(k) {
                assert(!is_promoted(k));
                assert(synth_has(rec, k));
                assert(m.has_key(k));
            }
            if rec2.spec_residual().has_key(k) {
                assert(m.has_key(k) && !is_promoted(k));
                assert(synth_has(rec, k));
            }
        }
        assert forall|k: Seq<char>|
            rec2.spec_residual().has_key(k) implies #[trigger] rec2.spec_residual().get_val(k)
            == rec.spec_residual().get_val(k) by {
            assert(!is_promoted(k));
            assert(rec.spec_residual().has_key(k));
            assert(m.get_val(k) == synth_val(rec, k));
        }
    }
}

/// Structural equality of record types is reflexive.
proof fn lemma_rt_eq_refl(t: RecordType)
    ensures
        crate::record_type::rt_eq(t, t),
{
}

/// Structural equality of truncation reasons is reflexive.
proof fn lemma_tt_eq_refl(t: TruncatedType)
    ensures
        crate::truncated_type::tt_eq(t, t),
{
}

/// Synthesizing one record twice gives entry-wise identical raw maps: the
/// synthesized form is a function of the record's state alone.
pub proof fn lemma_synthesis_repeatable(rec: Record, m1: HeaderMap, m2: HeaderMap)
    requires
        rec.inv(),
        rec.synth_matches(m1),
        rec.synth_matches(m2),
    ensures
        crate::header_map::hm_eq(m1, m2),
{
    let n0 = rec.spec_residual().spec_len() as int;
    assert forall|j: int|
        0 <= j < m1.spec_len() implies m1.canon_at(j) == m2.canon_at(j) && m1.val_at(j)
        == m2.val_at(j) by {
        if j < n0 {
            assert(m1.entries_seq()[j] == rec.spec_residual().entries_seq()[j]);
            assert(m2.entries_seq()[j] == rec.spec_residual().entries_seq()[j]);
        }
    }
}

/// The record's content length, derived from its body.
pub open spec fn derived_content_length(rec: Record) -> nat {
    rec.spec_body().len()
}

/// In every reachable record state, under any sequence of body
/// replacement, in-place body editing and content-length assignment, the
/// derived content length equals the actual body length: the length is
/// computed from the body at each observation and no operation stores an
/// independent value — a content-length assignment succeeds only when it
/// restates the body's length, and changes nothing.
pub proof fn lemma_content_length_tracks_body(rec: Record)
    ensures
        derived_content_length(rec) == rec.spec_body().len(),
{
}

impl Default for Record {
    /// A fresh record, as `Record::new` describes it.
    fn default() -> (r: Record)
        ensures
            r.inv(),
            r.spec_version() == "WARC/1.0"@,
            r.spec_body() == Seq::<u8>::empty(),
            r.spec_rtype() == RecordType::Resource,
            r.spec_trunc() is None,
            r.spec_residual().spec_len() == 0,
            r.spec_id().len() == 47,
            forall|i: int| #![all_triggers] 0 <= i < r.spec_id().len() ==> printable(r.spec_id()[i]),
    {
        let now = crate::timestamp::now_fields();
        let date = match crate::timestamp::timestamp_from_fields(now) {
            Some(t) => t,
            None => Timestamp { year: 1970, month: 1, day: 1, hour: 0, minute: 0, second: 0 },
        };
        Record {
            headers: RawHeaderBlock { version: String::from_str("WARC/1.0"), headers: HeaderMap::new() },
            record_date: date,
            record_id: Record::generate_record_id(),
            record_type: RecordType::Resource,
            truncated_type: None,
            body: BufferedBody(Vec::new()),
        }
    }
}

} // verus!
