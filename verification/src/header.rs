//! The header-key space: a closed vocabulary of standard WARC field names
//! plus an extension identity that keeps the original token text. Two keys
//! are the same exactly when their case-folded names agree.
use vstd::prelude::*;

verus! {

use crate::text::{lower, lower_str, str_eq};

/// The canonical identity of a WARC header.
#[derive(Debug, Clone)]
pub enum WarcHeader {
    ContentLength,
    ContentType,
    BlockDigest,
    ConcurrentTo,
    Date,
    Filename,
    IdentifiedPayloadType,
    IPAddress,
    PayloadDigest,
    Profile,
    RecordID,
    RefersTo,
    SegmentNumber,
    SegmentOriginID,
    SegmentTotalLength,
    TargetURI,
    Truncated,
    WarcType,
    /// A field outside the standard vocabulary, keeping its original text.
    Unknown(String),
}

/// The case-folded name that serves as the key of every header map.
pub open spec fn canon(h: WarcHeader) -> Seq<char> {
    match h {
        WarcHeader::ContentLength => "content-length"@,
        WarcHeader::ContentType => "content-type"@,
        WarcHeader::BlockDigest => "warc-block-digest"@,
        WarcHeader::ConcurrentTo => "warc-concurrent-to"@,
        WarcHeader::Date => "warc-date"@,
        WarcHeader::Filename => "warc-filename"@,
        WarcHeader::IdentifiedPayloadType => "warc-identified-payload-type"@,
        WarcHeader::IPAddress => "warc-ip-address"@,
        WarcHeader::PayloadDigest => "warc-payload-digest"@,
        WarcHeader::Profile => "warc-profile"@,
        WarcHeader::RecordID => "warc-record-id"@,
        WarcHeader::RefersTo => "warc-refers-to"@,
        WarcHeader::SegmentNumber => "warc-segment-number"@,
        WarcHeader::SegmentOriginID => "warc-segment-origin-id"@,
        WarcHeader::SegmentTotalLength => "warc-segment-total-length"@,
        WarcHeader::TargetURI => "warc-target-uri"@,
        WarcHeader::Truncated => "warc-truncated"@,
        WarcHeader::WarcType => "warc-type"@,
        WarcHeader::Unknown(s) => lower(s@),
    }
}

/// The name used when the header is written out: the standard's casing for
/// known identities, the original text for extension identities.
pub open spec fn display_name(h: WarcHeader) -> Seq<char> {
    match h {
        WarcHeader::ContentLength => "Content-Length"@,
        WarcHeader::ContentType => "Content-Type"@,
        WarcHeader::BlockDigest => "WARC-Block-Digest"@,
        WarcHeader::ConcurrentTo => "WARC-Concurrent-To"@,
        WarcHeader::Date => "WARC-Date"@,
        WarcHeader::Filename => "WARC-Filename"@,
        WarcHeader::IdentifiedPayloadType => "WARC-Identified-Payload-Type"@,
        WarcHeader::IPAddress => "WARC-IP-Address"@,
        WarcHeader::PayloadDigest => "WARC-Payload-Digest"@,
        WarcHeader::Profile => "WARC-Profile"@,
        WarcHeader::RecordID => "WARC-Record-ID"@,
        WarcHeader::RefersTo => "WARC-Refers-To"@,
        WarcHeader::SegmentNumber => "WARC-Segment-Number"@,
        WarcHeader::SegmentOriginID => "WARC-Segment-Origin-ID"@,
        WarcHeader::SegmentTotalLength => "WARC-Segment-Total-Length"@,
        WarcHeader::TargetURI => "WARC-Target-URI"@,
        WarcHeader::Truncated => "WARC-Truncated"@,
        WarcHeader::WarcType => "WARC-Type"@,
        WarcHeader::Unknown(s) => s@,
    }
}

/// Whether a case-folded name belongs to the standard vocabulary.
pub open spec fn is_known_name(k: Seq<char>) -> bool {
    ||| k == "content-length"@
    ||| k == "content-type"@
    ||| k == "warc-block-digest"@
    ||| k == "warc-concurrent-to"@
    ||| k == "warc-date"@
    ||| k == "warc-filename"@
    ||| k == "warc-identified-payload-type"@
    ||| k == "warc-ip-address"@
    ||| k == "warc-payload-digest"@
    ||| k == "warc-profile"@
    ||| k == "warc-record-id"@
    ||| k == "warc-refers-to"@
    ||| k == "warc-segment-number"@
    ||| k == "warc-segment-origin-id"@
    ||| k == "warc-segment-total-length"@
    ||| k == "warc-target-uri"@
    ||| k == "warc-truncated"@
    ||| k == "warc-type"@
}

/// The standard identity carrying a given case-folded name.
pub open spec fn known_of(k: Seq<char>) -> WarcHeader {
    if k == "content-length"@ {
        WarcHeader::ContentLength
    } else if k == "content-type"@ {
        WarcHeader::ContentType
    } else if k == "warc-block-digest"@ {
        WarcHeader::BlockDigest
    } else if k == "warc-concurrent-to"@ {
        WarcHeader::ConcurrentTo
    } else if k == "warc-date"@ {
        WarcHeader::Date
    } else if k == "warc-filename"@ {
        WarcHeader::Filename
    } else if k == "warc-identified-payload-type"@ {
        WarcHeader::IdentifiedPayloadType
    } else if k == "warc-ip-address"@ {
        WarcHeader::IPAddress
    } else if k == "warc-payload-digest"@ {
        WarcHeader::PayloadDigest
    } else if k == "warc-profile"@ {
        WarcHeader::Profile
    } else if k == "warc-record-id"@ {
        WarcHeader::RecordID
    } else if k == "warc-refers-to"@ {
        WarcHeader::RefersTo
    } else if k == "warc-segment-number"@ {
        WarcHeader::SegmentNumber
    } else if k == "warc-segment-origin-id"@ {
        WarcHeader::SegmentOriginID
    } else if k == "warc-segment-total-length"@ {
        WarcHeader::SegmentTotalLength
    } else if k == "warc-target-uri"@ {
        WarcHeader::TargetURI
    } else if k == "warc-truncated"@ {
        WarcHeader::Truncated
    } else {
        WarcHeader::WarcType
    }
}

/// The keys that a typed record promotes out of its residual map.
pub open spec fn is_promoted(k: Seq<char>) -> bool {
    ||| k == "content-length"@
    ||| k == "warc-date"@
    ||| k == "warc-record-id"@
    ||| k == "warc-truncated"@
    ||| k == "warc-type"@
}

impl WarcHeader {
    /// The written form of this key.
    pub fn name(&self) -> (r: String)
        ensures
            r@ == display_name(*self),
    {
        match self {
            WarcHeader::ContentLength => String::from_str("Content-Length"),
            WarcHeader::ContentType => String::from_str("Content-Type"),
            WarcHeader::BlockDigest => String::from_str("WARC-Block-Digest"),
            WarcHeader::ConcurrentTo => String::from_str("WARC-Concurrent-To"),
            WarcHeader::Date => String::from_str("WARC-Date"),
            WarcHeader::Filename => String::from_str("WARC-Filename"),
            WarcHeader::IdentifiedPayloadType => String::from_str("WARC-Identified-Payload-Type"),
            WarcHeader::IPAddress => String::from_str("WARC-IP-Address"),
            WarcHeader::PayloadDigest => String::from_str("WARC-Payload-Digest"),
            WarcHeader::Profile => String::from_str("WARC-Profile"),
            WarcHeader::RecordID => String::from_str("WARC-Record-ID"),
            WarcHeader::RefersTo => String::from_str("WARC-Refers-To"),
            WarcHeader::SegmentNumber => String::from_str("WARC-Segment-Number"),
            WarcHeader::SegmentOriginID => String::from_str("WARC-Segment-Origin-ID"),
            WarcHeader::SegmentTotalLength => String::from_str("WARC-Segment-Total-Length"),
            WarcHeader::TargetURI => String::from_str("WARC-Target-URI"),
            WarcHeader::Truncated => String::from_str("WARC-Truncated"),
            WarcHeader::WarcType => String::from_str("WARC-Type"),
            WarcHeader::Unknown(s) => s.clone(),
        }
    }

    /// The case-folded key of this header.
    pub fn canon_name(&self) -> (r: String)
        ensures
            r@ == canon(*self),
    {
        match self {
            WarcHeader::ContentLength => String::from_str("content-length"),
            WarcHeader::ContentType => String::from_str("content-type"),
            WarcHeader::BlockDigest => String::from_str("warc-block-digest"),
            WarcHeader::ConcurrentTo => String::from_str("warc-concurrent-to"),
            WarcHeader::Date => String::from_str("warc-date"),
            WarcHeader::Filename => String::from_str("warc-filename"),
            WarcHeader::IdentifiedPayloadType => String::from_str("warc-identified-payload-type"),
            WarcHeader::IPAddress => String::from_str("warc-ip-address"),
            WarcHeader::PayloadDigest => String::from_str("warc-payload-digest"),
            WarcHeader::Profile => String::from_str("warc-profile"),
            WarcHeader::RecordID => String::from_str("warc-record-id"),
            WarcHeader::RefersTo => String::from_str("warc-refers-to"),
            WarcHeader::SegmentNumber => String::from_str("warc-segment-number"),
            WarcHeader::SegmentOriginID => String::from_str("warc-segment-origin-id"),
            WarcHeader::SegmentTotalLength => String::from_str("warc-segment-total-length"),
            WarcHeader::TargetURI => String::from_str("warc-target-uri"),
            WarcHeader::Truncated => String::from_str("warc-truncated"),
            WarcHeader::WarcType => String::from_str("warc-type"),
            WarcHeader::Unknown(s) => lower_str(s.as_str()),
        }
    }

    /// An equal key: same canonical identity, same written form.
    pub fn dup(&self) -> (r: WarcHeader)
        ensures
            canon(r) == canon(*self),
            display_name(r) == display_name(*self),
            r matches WarcHeader::Unknown(_) <==> *self matches WarcHeader::Unknown(_),
    {
        match self {
            WarcHeader::ContentLength => WarcHeader::ContentLength,
            WarcHeader::ContentType => WarcHeader::ContentType,
            WarcHeader::BlockDigest => WarcHeader::BlockDigest,
            WarcHeader::ConcurrentTo => WarcHeader::ConcurrentTo,
            WarcHeader::Date => WarcHeader::Date,
            WarcHeader::Filename => WarcHeader::Filename,
            WarcHeader::IdentifiedPayloadType => WarcHeader::IdentifiedPayloadType,
            WarcHeader::IPAddress => WarcHeader::IPAddress,
            WarcHeader::PayloadDigest => WarcHeader::PayloadDigest,
            WarcHeader::Profile => WarcHeader::Profile,
            WarcHeader::RecordID => WarcHeader::RecordID,
            WarcHeader::RefersTo => WarcHeader::RefersTo,
            WarcHeader::SegmentNumber => WarcHeader::SegmentNumber,
            WarcHeader::SegmentOriginID => WarcHeader::SegmentOriginID,
            WarcHeader::SegmentTotalLength => WarcHeader::SegmentTotalLength,
            WarcHeader::TargetURI => WarcHeader::TargetURI,
            WarcHeader::Truncated => WarcHeader::Truncated,
            WarcHeader::WarcType => WarcHeader::WarcType,
            WarcHeader::Unknown(s) => WarcHeader::Unknown(s.clone()),
        }
    }

    /// Map a raw token to its canonical identity: standard names are
    /// recognized case-insensitively, anything else keeps its text.
    pub fn from_token(t: &str) -> (r: WarcHeader)
        ensures
            canon(r) == lower(t@),
            is_known_name(lower(t@)) ==> r == known_of(lower(t@)),
            !is_known_name(lower(t@)) ==> (r matches WarcHeader::Unknown(s) && s@ == t@),
    {
        let k = lower_str(t);
        let ks = k.as_str();
        if str_eq(ks, "content-length") {
            WarcHeader::ContentLength
        } else if str_eq(ks, "content-type") {
            WarcHeader::ContentType
        } else if str_eq(ks, "warc-block-digest") {
            WarcHeader::BlockDigest
        } else if str_eq(ks, "warc-concurrent-to") {
            WarcHeader::ConcurrentTo
        } else if str_eq(ks, "warc-date") {
            WarcHeader::Date
        } else if str_eq(ks, "warc-filename") {
            WarcHeader::Filename
        } else if str_eq(ks, "warc-identified-payload-type") {
            WarcHeader::IdentifiedPayloadType
        } else if str_eq(ks, "warc-ip-address") {
            WarcHeader::IPAddress
        } else if str_eq(ks, "warc-payload-digest") {
            WarcHeader::PayloadDigest
        } else if str_eq(ks, "warc-profile") {
            WarcHeader::Profile
        } else if str_eq(ks, "warc-record-id") {
            WarcHeader::RecordID
        } else if str_eq(ks, "warc-refers-to") {
            WarcHeader::RefersTo
        } else if str_eq(ks, "warc-segment-number") {
            WarcHeader::SegmentNumber
        } else if str_eq(ks, "warc-segment-origin-id") {
            WarcHeader::SegmentOriginID
        } else if str_eq(ks, "warc-segment-total-length") {
            WarcHeader::SegmentTotalLength
        } else if str_eq(ks, "warc-target-uri") {
            WarcHeader::TargetURI
        } else if str_eq(ks, "warc-truncated") {
            WarcHeader::Truncated
        } else if str_eq(ks, "warc-type") {
            WarcHeader::WarcType
        } else {
            WarcHeader::Unknown(t.to_owned())
        }
    }

    /// Whether two keys denote the same canonical identity.
    pub fn key_eq(&self, other: &WarcHeader) -> (r: bool)
        ensures
            r == (canon(*self) == canon(*other)),
    {
        let a = self.canon_name();
        let b = other.canon_name();
        a == b
    }
}

impl PartialEq for WarcHeader {
    fn eq(&self, other: &WarcHeader) -> (r: bool) {
        self.key_eq(other)
    }
}

impl vstd::std_specs::cmp::PartialEqSpecImpl for WarcHeader {
    open spec fn obeys_eq_spec() -> bool {
        true
    }

    open spec fn eq_spec(&self, other: &WarcHeader) -> bool {
        canon(*self) == canon(*other)
    }
}

/// The written form of a key folds back to its canonical name, and the
/// canonical name of a standard identity is in the known vocabulary and
/// resolves back to that identity.
pub proof fn lemma_display_folds_to_canon(h: WarcHeader)
    ensures
        lower(display_name(h)) == canon(h),
        !(h matches WarcHeader::Unknown(_)) ==> is_known_name(canon(h)) && known_of(canon(h)) == h,
    decreases h,
{
    reveal_strlit("Content-Length");
    reveal_strlit("content-length");
    reveal_strlit("Content-Type");
    reveal_strlit("content-type");
    reveal_strlit("WARC-Block-Digest");
    reveal_strlit("warc-block-digest");
    reveal_strlit("WARC-Concurrent-To");
    reveal_strlit("warc-concurrent-to");
    reveal_strlit("WARC-Date");
    reveal_strlit("warc-date");
    reveal_strlit("WARC-Filename");
    reveal_strlit("warc-filename");
    reveal_strlit("WARC-Identified-Payload-Type");
    reveal_strlit("warc-identified-payload-type");
    reveal_strlit("WARC-IP-Address");
    reveal_strlit("warc-ip-address");
    reveal_strlit("WARC-Payload-Digest");
    reveal_strlit("warc-payload-digest");
    reveal_strlit("WARC-Profile");
    reveal_strlit("warc-profile");
    reveal_strlit("WARC-Record-ID");
    reveal_strlit("warc-record-id");
    reveal_strlit("WARC-Refers-To");
    reveal_strlit("warc-refers-to");
    reveal_strlit("WARC-Segment-Number");
    reveal_strlit("warc-segment-number");
    reveal_strlit("WARC-Segment-Origin-ID");
    reveal_strlit("warc-segment-origin-id");
    reveal_strlit("WARC-Segment-Total-Length");
    reveal_strlit("warc-segment-total-length");
    reveal_strlit("WARC-Target-URI");
    reveal_strlit("warc-target-uri");
    reveal_strlit("WARC-Truncated");
    reveal_strlit("warc-truncated");
    reveal_strlit("WARC-Type");
    reveal_strlit("warc-type");
    assert(lower(display_name(h)) =~= canon(h));
    if !(h matches WarcHeader::Unknown(_)) {
        let k = canon(h);
        assert(is_known_name(k));
        lemma_known_names_differ();
        assert(known_of(k) == h);
    }
}

/// The canonical names of the standard identities are pairwise distinct;
/// stated through the indices where equal-length names differ.
pub proof fn lemma_known_names_differ()
    ensures
        "content-length"@ != "warc-record-id"@,
        "content-length"@ != "warc-refers-to"@,
        "content-length"@ != "warc-truncated"@,
        "warc-record-id"@ != "warc-refers-to"@,
        "warc-record-id"@ != "warc-truncated"@,
        "warc-refers-to"@ != "warc-truncated"@,
        "content-type"@ != "warc-profile"@,
        "warc-ip-address"@ != "warc-target-uri"@,
        "warc-payload-digest"@ != "warc-segment-number"@,
        "warc-date"@ != "warc-type"@,
        "content-length"@ != "warc-type"@,
        "content-length"@ != "warc-date"@,
        "warc-type"@ != "warc-record-id"@,
        "warc-type"@ != "warc-truncated"@,
        "warc-record-id"@ != "warc-date"@,
        "warc-truncated"@ != "warc-date"@,
{
    reveal_strlit("content-length");
    reveal_strlit("content-type");
    reveal_strlit("warc-block-digest");
    reveal_strlit("warc-concurrent-to");
    reveal_strlit("warc-date");
    reveal_strlit("warc-filename");
    reveal_strlit("warc-identified-payload-type");
    reveal_strlit("warc-ip-address");
    reveal_strlit("warc-payload-digest");
    reveal_strlit("warc-profile");
    reveal_strlit("warc-record-id");
    reveal_strlit("warc-refers-to");
    reveal_strlit("warc-segment-number");
    reveal_strlit("warc-segment-origin-id");
    reveal_strlit("warc-segment-total-length");
    reveal_strlit("warc-target-uri");
    reveal_strlit("warc-truncated");
    reveal_strlit("warc-type");
    assert("content-length"@[0] != "warc-record-id"@[0]);
    assert("content-length"@[0] != "warc-refers-to"@[0]);
    assert("content-length"@[0] != "warc-truncated"@[0]);
    assert("warc-record-id"@[7] != "warc-refers-to"@[7]);
    assert("warc-record-id"@[5] != "warc-truncated"@[5]);
    assert("warc-refers-to"@[5] != "warc-truncated"@[5]);
    assert("content-type"@[0] != "warc-profile"@[0]);
    assert("warc-ip-address"@[5] != "warc-target-uri"@[5]);
    assert("warc-payload-digest"@[5] != "warc-segment-number"@[5]);
    assert("warc-date"@[5] != "warc-type"@[5]);
    assert("content-length"@.len() != "warc-type"@.len());
    assert("content-length"@.len() != "warc-date"@.len());
    assert("warc-type"@.len() != "warc-record-id"@.len());
    assert("warc-type"@.len() != "warc-truncated"@.len());
    assert("warc-record-id"@.len() != "warc-date"@.len());
    assert("warc-truncated"@.len() != "warc-date"@.len());
}

} // verus!
