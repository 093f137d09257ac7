//! A fluent, failure-deferring constructor for typed records. Field
//! setters apply immediately and cannot fail; the generic header
//! assignment validates at once but only remembers the most recent
//! failure, which is reported when the builder is completed with
//! validation — or ignored, with the rejected bytes emitted verbatim, when
//! it is completed without.
use vstd::prelude::*;

verus! {

use crate::error::Error;
use crate::header::{WarcHeader, canon};
use crate::header_map::HeaderMap;
use crate::record::{Record, RawHeaderBlock, synth_has, text_residual};
use crate::record_type::RecordType;
use crate::text::parse_dec;
use crate::timestamp::{Timestamp, spec_parse_timestamp};
use crate::truncated_type::TruncatedType;
use vstd::utf8::{valid_utf8, encode_utf8};

/// Whether the typed setter accepts a value for a key: a date must read as
/// a timestamp, a content length must restate the body's actual length,
/// everything else is taken as given.
pub open spec fn setter_accepts(rec: Record, k: Seq<char>, v: Seq<char>) -> bool {
    if k == "warc-date"@ {
        spec_parse_timestamp(v) is Some
    } else if k == "content-length"@ {
        parse_dec(v, u64::MAX as nat) == Some(rec.spec_body().len())
    } else {
        true
    }
}

/// How a completed raw header block relates to the builder that made it,
/// entry by entry: some map in the record's synthesized shape, with the
/// rejected assignments written over it — a same-keyed value replaced in
/// place, the remaining rejected entries appended in their stored order.
pub open spec fn raw_build_matches(b: RecordBuilder, m: HeaderMap) -> bool {
    exists|ms: HeaderMap|
        #[trigger] b.spec_value().synth_matches(ms) && crate::header_map::extended_matches(
            ms,
            b.spec_broken(),
            m,
        )
}

/// A builder for records: an in-progress typed record, the side table of
/// header assignments that failed validation, and at most the most recent
/// failure.
#[derive(Debug, Clone)]
pub struct RecordBuilder {
    value: Record,
    broken_headers: HeaderMap,
    last_error: Option<Error>,
}

impl RecordBuilder {
    /// The typed record being built.
    pub closed spec fn spec_value(self) -> Record {
        self.value
    }

    /// The side table of rejected header assignments.
    pub closed spec fn spec_broken(self) -> HeaderMap {
        self.broken_headers
    }

    /// The remembered failure, if any.
    pub closed spec fn spec_err(self) -> Option<Error> {
        self.last_error
    }

    /// The builder invariant: the record under construction is valid, its
    /// residual values are text, the side table is a well-formed map, and
    /// a non-empty side table means a failure is remembered.
    pub open spec fn inv(self) -> bool {
        &&& self.spec_value().inv()
        &&& text_residual(self.spec_value())
        &&& self.spec_broken().wf()
        &&& (self.spec_broken().spec_len() > 0 ==> self.spec_err() is Some)
    }

    /// Set the body of the record being built.
    pub fn body(&mut self, body: Vec<u8>)
        requires
            old(self).inv(),
        ensures
            final(self).inv(),
            final(self).spec_value().spec_body() == body@,
            final(self).spec_broken() == old(self).spec_broken(),
            final(self).spec_err() == old(self).spec_err(),
            final(self).spec_value().spec_date() == old(self).spec_value().spec_date(),
            final(self).spec_value().spec_id() == old(self).spec_value().spec_id(),
            final(self).spec_value().spec_rtype() == old(self).spec_value().spec_rtype(),
            final(self).spec_value().spec_trunc() == old(self).spec_value().spec_trunc(),
            final(self).spec_value().spec_version() == old(self).spec_value().spec_version(),
            final(self).spec_value().spec_residual() == old(self).spec_value().spec_residual(),
    {
        self.value.replace_body(body);
    }

    /// Set the timestamp of the record being built.
    pub fn date(&mut self, date: Timestamp)
        requires
            old(self).inv(),
            date.wf(),
        ensures
            final(self).inv(),
            final(self).spec_value().spec_date() == date,
            final(self).spec_broken() == old(self).spec_broken(),
            final(self).spec_err() == old(self).spec_err(),
            final(self).spec_value().spec_body() == old(self).spec_value().spec_body(),
            final(self).spec_value().spec_id() == old(self).spec_value().spec_id(),
            final(self).spec_value().spec_rtype() == old(self).spec_value().spec_rtype(),
            final(self).spec_value().spec_trunc() == old(self).spec_value().spec_trunc(),
            final(self).spec_value().spec_version() == old(self).spec_value().spec_version(),
            final(self).spec_value().spec_residual() == old(self).spec_value().spec_residual(),
    {
        self.value.set_date(date);
    }

    /// Set the record-id of the record being built.
    pub fn warc_id(&mut self, id: &str)
        requires
            old(self).inv(),
        ensures
            final(self).inv(),
            final(self).spec_value().spec_id() == id@,
            final(self).spec_broken() == old(self).spec_broken(),
            final(self).spec_err() == old(self).spec_err(),
            final(self).spec_value().spec_body() == old(self).spec_value().spec_body(),
            final(self).spec_value().spec_date() == old(self).spec_value().spec_date(),
            final(self).spec_value().spec_rtype() == old(self).spec_value().spec_rtype(),
            final(self).spec_value().spec_trunc() == old(self).spec_value().spec_trunc(),
            final(self).spec_value().spec_version() == old(self).spec_value().spec_version(),
            final(self).spec_value().spec_residual() == old(self).spec_value().spec_residual(),
    {
        self.value.set_warc_id(id);
    }

    /// Set the version text of the record being built.
    pub fn version(&mut self, version: &str)
        requires
            old(self).inv(),
        ensures
            final(self).inv(),
            final(self).spec_value().spec_version() == version@,
            final(self).spec_broken() == old(self).spec_broken(),
            final(self).spec_err() == old(self).spec_err(),
            final(self).spec_value().spec_body() == old(self).spec_value().spec_body(),
            final(self).spec_value().spec_date() == old(self).spec_value().spec_date(),
            final(self).spec_value().spec_id() == old(self).spec_value().spec_id(),
            final(self).spec_value().spec_rtype() == old(self).spec_value().spec_rtype(),
            final(self).spec_value().spec_trunc() == old(self).spec_value().spec_trunc(),
            final(self).spec_value().spec_residual() == old(self).spec_value().spec_residual(),
    {
        self.value.set_warc_version(version);
    }

    /// Set the record type of the record being built.
    pub fn warc_type(&mut self, warc_type: RecordType)
        requires
            old(self).inv(),
        ensures
            final(self).inv(),
            final(self).spec_value().spec_rtype() == warc_type,
            final(self).spec_broken() == old(self).spec_broken(),
            final(self).spec_err() == old(self).spec_err(),
            final(self).spec_value().spec_body() == old(self).spec_value().spec_body(),
            final(self).spec_value().spec_date() == old(self).spec_value().spec_date(),
            final(self).spec_value().spec_id() == old(self).spec_value().spec_id(),
            final(self).spec_value().spec_trunc() == old(self).spec_value().spec_trunc(),
            final(self).spec_value().spec_version() == old(self).spec_value().spec_version(),
            final(self).spec_value().spec_residual() == old(self).spec_value().spec_residual(),
    {
        self.value.set_warc_type(warc_type);
    }

    /// Set the truncation reason of the record being built.
    pub fn truncated_type(&mut self, trunc_type: TruncatedType)
        requires
            old(self).inv(),
        ensures
            final(self).inv(),
            final(self).spec_value().spec_trunc() == Some(trunc_type),
            final(self).spec_broken() == old(self).spec_broken(),
            final(self).spec_err() == old(self).spec_err(),
            final(self).spec_value().spec_body() == old(self).spec_value().spec_body(),
            final(self).spec_value().spec_date() == old(self).spec_value().spec_date(),
            final(self).spec_value().spec_id() == old(self).spec_value().spec_id(),
            final(self).spec_value().spec_rtype() == old(self).spec_value().spec_rtype(),
            final(self).spec_value().spec_version() == old(self).spec_value().spec_version(),
            final(self).spec_value().spec_residual() == old(self).spec_value().spec_residual(),
    {
        self.value.set_truncated_type(trunc_type);
    }

    /// Assign a header through the typed setter. On success any rejected
    /// bytes remembered for this key are discarded; on failure the record
    /// is untouched, the bytes go to the side table, and this failure
    /// replaces whatever failure was remembered before.
    pub fn header(&mut self, key: WarcHeader, value: &str)
        requires
            old(self).inv(),
        ensures
            final(self).inv(),
            ({
                let k = canon(key);
                if setter_accepts(old(self).spec_value(), k, value@) {
                    &&& final(self).spec_err() == old(self).spec_err()
                    &&& !final(self).spec_broken().has_key(k)
                    &&& (forall|k2: Seq<char>|
                        k2 != k ==> (#[trigger] final(self).spec_broken().has_key(k2) <==> old(
                            self,
                        ).spec_broken().has_key(k2)))
                    &&& (forall|k2: Seq<char>|
                        k2 != k && old(self).spec_broken().has_key(k2)
                            ==> #[trigger] final(self).spec_broken().get_val(k2) == old(
                            self,
                        ).spec_broken().get_val(k2))
                    &&& crate::record::setter_effect(
                        old(self).spec_value(),
                        final(self).spec_value(),
                        k,
                        value@,
                    )
                } else {
                    &&& final(self).spec_value().spec_version() == old(self).spec_value().spec_version()
                    &&& final(self).spec_value().spec_body() == old(self).spec_value().spec_body()
                    &&& final(self).spec_value().spec_date() == old(self).spec_value().spec_date()
                    &&& final(self).spec_value().spec_id() == old(self).spec_value().spec_id()
                    &&& final(self).spec_value().spec_rtype() == old(self).spec_value().spec_rtype()
                    &&& final(self).spec_value().spec_trunc() == old(self).spec_value().spec_trunc()
                    &&& final(self).spec_value().spec_residual() == old(self).spec_value().spec_residual()
                    &&& final(self).spec_err() is Some
                    &&& (k == "warc-date"@ ==> (final(self).spec_err() matches Some(e)
                        && crate::error::malformed_matches(
                        e,
                        "warc-date"@,
                        "not an ISO 8601 datestamp"@,
                    )))
                    &&& (k == "content-length"@ && parse_dec(value@, u64::MAX as nat) is None ==> (
                    final(self).spec_err() matches Some(e) && crate::error::malformed_matches(
                        e,
                        "content-length"@,
                        "not an integer between 0 and 2^64-1"@,
                    )))
                    &&& (k == "content-length"@ && parse_dec(value@, u64::MAX as nat) is Some ==> (
                    final(self).spec_err() matches Some(e) && crate::error::malformed_matches(
                        e,
                        "content-length"@,
                        "content length != body size"@,
                    )))
                    &&& final(self).spec_broken().has_key(k)
                    &&& final(self).spec_broken().get_val(k) == encode_utf8(value@)
                    &&& (forall|k2: Seq<char>|
                        k2 != k ==> (#[trigger] final(self).spec_broken().has_key(k2) <==> old(
                            self,
                        ).spec_broken().has_key(k2)))
                    &&& (forall|k2: Seq<char>|
                        k2 != k && old(self).spec_broken().has_key(k2)
                            ==> #[trigger] final(self).spec_broken().get_val(k2) == old(
                            self,
                        ).spec_broken().get_val(k2))
                }
            }),
    {
        let attempt_key = key.dup();
        proof {
            assert(canon(attempt_key) == canon(key));
        }
        match self.value.set_header(attempt_key, value) {
            Ok(_) => {
                self.broken_headers.remove(&key);
                proof {
                    broadcast use vstd::utf8::encode_utf8_valid_utf8;

                    crate::header::lemma_known_names_differ();
                    reveal_strlit("content-length");
                    reveal_strlit("warc-type");
                    reveal_strlit("warc-record-id");
                    reveal_strlit("warc-truncated");
                    reveal_strlit("warc-date");
                    let k = canon(key);
                    if k == "warc-date"@ {
                        assert(spec_parse_timestamp(value@) is Some);
                    } else if k == "content-length"@ {
                        assert(parse_dec(value@, u64::MAX as nat) == Some(
                            old(self).spec_value().spec_body().len(),
                        ));
                    }
                    assert(setter_accepts(old(self).spec_value(), k, value@));
                    assert(crate::record::setter_effect(
                        old(self).spec_value(),
                        self.spec_value(),
                        k,
                        value@,
                    ));
                    assert(text_residual(self.spec_value())) by {
                        assert forall|k2: Seq<char>| #[trigger]
                            self.spec_value().spec_residual().has_key(k2) implies valid_utf8(
                            self.spec_value().spec_residual().get_val(k2),
                        ) by {
                            if !(k == "warc-date"@ || k == "warc-record-id"@ || k == "warc-type"@
                                || k == "warc-truncated"@ || k == "content-length"@) {
                                if k2 != k {
                                    assert(old(self).spec_value().spec_residual().has_key(k2));
                                }
                            } else {
                                assert(old(self).spec_value().spec_residual().has_key(k2));
                            }
                        }
                    }
                }
            },
            Err(e) => {
                proof {
                    crate::header::lemma_known_names_differ();
                    reveal_strlit("content-length");
                    reveal_strlit("warc-type");
                    reveal_strlit("warc-record-id");
                    reveal_strlit("warc-truncated");
                    reveal_strlit("warc-date");
                    assert(!setter_accepts(old(self).spec_value(), canon(key), value@));
                }
                let bytes = value.as_bytes_vec();
                self.broken_headers.insert(key, bytes);
                self.last_error = Some(e);
            },
        }
    }

    /// Complete without validating: the record's raw form, with every
    /// rejected assignment written over it verbatim — a best-effort,
    /// byte-faithful result even when validation would have failed.
    pub fn build_raw(self) -> (r: (RawHeaderBlock, Vec<u8>))
        requires
            self.inv(),
        ensures
            r.1@ == self.spec_value().spec_body(),
            r.0.version@ == self.spec_value().spec_version(),
            r.0.headers.wf(),
            forall|k: Seq<char>|
                #[trigger] r.0.headers.has_key(k) <==> synth_has(self.spec_value(), k) || self
                    .spec_broken().has_key(k),
            forall|k: Seq<char>|
                self.spec_broken().has_key(k) ==> #[trigger] r.0.headers.get_val(k) == self
                    .spec_broken().get_val(k),
            forall|k: Seq<char>|
                !self.spec_broken().has_key(k) && synth_has(self.spec_value(), k)
                    ==> #[trigger] r.0.headers.get_val(k) == crate::record::synth_val(
                    self.spec_value(),
                    k,
                ),
            raw_build_matches(self, r.0.headers),
    {
        let RecordBuilder { value, broken_headers, .. } = self;
        let ghost rec = value;
        let (mut headers, body) = value.into_raw_parts();
        let ghost ms = headers.headers;
        proof {
            crate::record::lemma_synth_key_level(rec, ms);
        }
        headers.headers.extend_from(&broken_headers);
        proof {
            assert(rec.synth_matches(ms) && crate::header_map::extended_matches(
                ms,
                broken_headers,
                headers.headers,
            ));
        }
        (headers, body)
    }

    /// Complete with validation: the typed record when no failure is
    /// remembered, the remembered failure otherwise (the side table is
    /// discarded either way).
    pub fn build(self) -> (r: Result<Record, Error>)
        requires
            self.inv(),
        ensures
            match self.spec_err() {
                None => r matches Ok(rec) && rec == self.spec_value(),
                Some(e) => r matches Err(e2) && e2 == e,
            },
    {
        let RecordBuilder { value, last_error, .. } = self;
        match last_error {
            Some(e) => Err(e),
            None => Ok(value),
        }
    }
}

impl RecordBuilder {
    /// Completing one builder twice without validation gives raw header
    /// blocks with the same entries: the same length and, position by
    /// position, the same canonical key, written name and value — so the
    /// same written bytes.
    pub proof fn lemma_build_raw_repeatable(b: RecordBuilder, m1: HeaderMap, m2: HeaderMap)
        requires
            b.inv(),
            raw_build_matches(b, m1),
            raw_build_matches(b, m2),
        ensures
            crate::header_map::hm_eq(m1, m2),
            forall|t: int|
                0 <= t < m1.spec_len() ==> #[trigger] m1.canon_at(t) == m2.canon_at(t)
                    && crate::header::display_name(m1.entries_seq()[t].0)
                    == crate::header::display_name(m2.entries_seq()[t].0) && m1.val_at(t)
                    == m2.val_at(t),
    {
        let rec = b.spec_value();
        let broken = b.spec_broken();
        let ms1 = choose|ms: HeaderMap|
            #[trigger] b.spec_value().synth_matches(ms) && crate::header_map::extended_matches(
                ms,
                b.spec_broken(),
                m1,
            );
        let ms2 = choose|ms: HeaderMap|
            #[trigger] b.spec_value().synth_matches(ms) && crate::header_map::extended_matches(
                ms,
                b.spec_broken(),
                m2,
            );
        crate::record::lemma_synth_key_level(rec, ms1);
        crate::record::lemma_synth_key_level(rec, ms2);
        let n0 = rec.spec_residual().spec_len() as int;
        assert(ms1.spec_len() == ms2.spec_len());
        assert forall|t: int|
            0 <= t < ms1.spec_len() implies #[trigger] ms1.canon_at(t) == ms2.canon_at(t)
            && crate::header::display_name(ms1.entries_seq()[t].0) == crate::header::display_name(
            ms2.entries_seq()[t].0,
        ) && ms1.val_at(t) == ms2.val_at(t) by {
            if t < n0 {
                assert(ms1.entries_seq()[t] == rec.spec_residual().entries_seq()[t]);
                assert(ms2.entries_seq()[t] == rec.spec_residual().entries_seq()[t]);
            }
        }
        assert(forall|k: Seq<char>| #[trigger] ms1.has_key(k) <==> ms2.has_key(k));
        crate::header_map::lemma_novel_entries_same(
            ms1,
            ms2,
            broken.entries_seq(),
            broken.spec_len() as int,
        );
        let nv = crate::header_map::novel_entries(
            ms1,
            broken.entries_seq(),
            broken.spec_len() as int,
        );
        assert(m1.spec_len() == m2.spec_len());
        assert forall|t: int|
            0 <= t < m1.spec_len() implies #[trigger] m1.canon_at(t) == m2.canon_at(t)
            && crate::header::display_name(m1.entries_seq()[t].0) == crate::header::display_name(
            m2.entries_seq()[t].0,
        ) && m1.val_at(t) == m2.val_at(t) by {
            if t < ms1.spec_len() {
                assert(m1.entries_seq()[t].0 == ms1.entries_seq()[t].0);
                assert(m2.entries_seq()[t].0 == ms2.entries_seq()[t].0);
                assert(ms1.canon_at(t) == ms2.canon_at(t));
                assert(ms1.val_at(t) == ms2.val_at(t));
            } else {
                let u = t - ms1.spec_len();
                assert(m1.canon_at(t) == crate::header::canon(nv[u].0));
                assert(m2.canon_at(t) == crate::header::canon(nv[u].0));
                assert(m1.val_at(t) == nv[u].1@);
                assert(m2.val_at(t) == nv[u].1@);
            }
        }
    }
}

impl Default for RecordBuilder {
    /// A builder over a fresh record, with an empty side table and no
    /// remembered failure.
    fn default() -> (r: RecordBuilder)
        ensures
            r.inv(),
            r.spec_err() is None,
            r.spec_broken().spec_len() == 0,
            r.spec_value().spec_version() == "WARC/1.0"@,
            r.spec_value().spec_body() == Seq::<u8>::empty(),
            r.spec_value().spec_rtype() == RecordType::Resource,
            r.spec_value().spec_trunc() is None,
            r.spec_value().spec_residual().spec_len() == 0,
    {
        RecordBuilder {
            value: Record::default(),
            broken_headers: HeaderMap::new(),
            last_error: None,
        }
    }
}

} // verus!
