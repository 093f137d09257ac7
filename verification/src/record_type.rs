//! The closed vocabulary of record types, with a fallback variant that
//! keeps unrecognized text.
use vstd::prelude::*;

verus! {

use crate::text::{lower, lower_str, str_eq};

/// The type of a WARC record.
#[derive(Debug, Clone)]
pub enum RecordType {
    WarcInfo,
    Response,
    Resource,
    Request,
    Metadata,
    Revisit,
    Conversion,
    Continuation,
    /// A type outside the standard vocabulary, keeping its original text.
    Unknown(String),
}

/// The text under which a record type is written out.
pub open spec fn rt_label(t: RecordType) -> Seq<char> {
    match t {
        RecordType::WarcInfo => "warcinfo"@,
        RecordType::Response => "response"@,
        RecordType::Resource => "resource"@,
        RecordType::Request => "request"@,
        RecordType::Metadata => "metadata"@,
        RecordType::Revisit => "revisit"@,
        RecordType::Conversion => "conversion"@,
        RecordType::Continuation => "continuation"@,
        RecordType::Unknown(s) => s@,
    }
}

/// Whether a case-folded text names a standard record type.
pub open spec fn is_known_rt(k: Seq<char>) -> bool {
    ||| k == "warcinfo"@
    ||| k == "response"@
    ||| k == "resource"@
    ||| k == "request"@
    ||| k == "metadata"@
    ||| k == "revisit"@
    ||| k == "conversion"@
    ||| k == "continuation"@
}

/// The standard record type of a given case-folded text.
pub open spec fn known_rt_of(k: Seq<char>) -> RecordType {
    if k == "warcinfo"@ {
        RecordType::WarcInfo
    } else if k == "response"@ {
        RecordType::Response
    } else if k == "resource"@ {
        RecordType::Resource
    } else if k == "request"@ {
        RecordType::Request
    } else if k == "metadata"@ {
        RecordType::Metadata
    } else if k == "revisit"@ {
        RecordType::Revisit
    } else if k == "conversion"@ {
        RecordType::Conversion
    } else {
        RecordType::Continuation
    }
}

/// Structural equality of record types; the fallback variant compares by
/// its exact text.
pub open spec fn rt_eq(a: RecordType, b: RecordType) -> bool {
    match (a, b) {
        (RecordType::WarcInfo, RecordType::WarcInfo) => true,
        (RecordType::Response, RecordType::Response) => true,
        (RecordType::Resource, RecordType::Resource) => true,
        (RecordType::Request, RecordType::Request) => true,
        (RecordType::Metadata, RecordType::Metadata) => true,
        (RecordType::Revisit, RecordType::Revisit) => true,
        (RecordType::Conversion, RecordType::Conversion) => true,
        (RecordType::Continuation, RecordType::Continuation) => true,
        (RecordType::Unknown(x), RecordType::Unknown(y)) => x@ == y@,
        _ => false,
    }
}

impl RecordType {
    /// The written text of this record type.
    pub fn label(&self) -> (r: String)
        ensures
            r@ == rt_label(*self),
    {
        match self {
            RecordType::WarcInfo => String::from_str("warcinfo"),
            RecordType::Response => String::from_str("response"),
            RecordType::Resource => String::from_str("resource"),
            RecordType::Request => String::from_str("request"),
            RecordType::Metadata => String::from_str("metadata"),
            RecordType::Revisit => String::from_str("revisit"),
            RecordType::Conversion => String::from_str("conversion"),
            RecordType::Continuation => String::from_str("continuation"),
            RecordType::Unknown(s) => s.clone(),
        }
    }

    /// An equal record type.
    pub fn dup(&self) -> (r: RecordType)
        ensures
            rt_eq(r, *self),
            rt_label(r) == rt_label(*self),
    {
        match self {
            RecordType::WarcInfo => RecordType::WarcInfo,
            RecordType::Response => RecordType::Response,
            RecordType::Resource => RecordType::Resource,
            RecordType::Request => RecordType::Request,
            RecordType::Metadata => RecordType::Metadata,
            RecordType::Revisit => RecordType::Revisit,
            RecordType::Conversion => RecordType::Conversion,
            RecordType::Continuation => RecordType::Continuation,
            RecordType::Unknown(s) => RecordType::Unknown(s.clone()),
        }
    }

    /// Map free text into the vocabulary: standard names are recognized
    /// case-insensitively, anything else is retained as the fallback.
    pub fn from_text(t: &str) -> (r: RecordType)
        ensures
            is_known_rt(lower(t@)) ==> r == known_rt_of(lower(t@)),
            !is_known_rt(lower(t@)) ==> (r matches RecordType::Unknown(s) && s@ == t@),
    {
        let k = lower_str(t);
        let ks = k.as_str();
        if str_eq(ks, "warcinfo") {
            RecordType::WarcInfo
        } else if str_eq(ks, "response") {
            RecordType::Response
        } else if str_eq(ks, "resource") {
            RecordType::Resource
        } else if str_eq(ks, "request") {
            RecordType::Request
        } else if str_eq(ks, "metadata") {
            RecordType::Metadata
        } else if str_eq(ks, "revisit") {
            RecordType::Revisit
        } else if str_eq(ks, "conversion") {
            RecordType::Conversion
        } else if str_eq(ks, "continuation") {
            RecordType::Continuation
        } else {
            RecordType::Unknown(t.to_owned())
        }
    }
}

impl PartialEq for RecordType {
    fn eq(&self, other: &RecordType) -> (r: bool) {
        match (self, other) {
            (RecordType::WarcInfo, RecordType::WarcInfo) => true,
            (RecordType::Response, RecordType::Response) => true,
            (RecordType::Resource, RecordType::Resource) => true,
            (RecordType::Request, RecordType::Request) => true,
            (RecordType::Metadata, RecordType::Metadata) => true,
            (RecordType::Revisit, RecordType::Revisit) => true,
            (RecordType::Conversion, RecordType::Conversion) => true,
            (RecordType::Continuation, RecordType::Continuation) => true,
            (RecordType::Unknown(x), RecordType::Unknown(y)) => *x == *y,
            _ => false,
        }
    }
}

impl vstd::std_specs::cmp::PartialEqSpecImpl for RecordType {
    open spec fn obeys_eq_spec() -> bool {
        true
    }

    open spec fn eq_spec(&self, other: &RecordType) -> bool {
        rt_eq(*self, *other)
    }
}

/// A record type whose written text maps back to itself: every standard
/// type does, and a fallback does unless its text names a standard type
/// under case folding.
pub open spec fn rt_stable(t: RecordType) -> bool {
    match t {
        RecordType::Unknown(s) => !is_known_rt(lower(s@)),
        _ => true,
    }
}

/// Writing a stable record type out and reading it back is the identity.
pub proof fn lemma_rt_roundtrip(t: RecordType)
    requires
        rt_stable(t),
    ensures
        is_known_rt(lower(rt_label(t))) ==> known_rt_of(lower(rt_label(t))) == t,
        !is_known_rt(lower(rt_label(t))) ==> (t matches RecordType::Unknown(s) && s@ == rt_label(
        t)),
{
    reveal_strlit("warcinfo");
    reveal_strlit("response");
    reveal_strlit("resource");
    reveal_strlit("request");
    reveal_strlit("metadata");
    reveal_strlit("revisit");
    reveal_strlit("conversion");
    reveal_strlit("continuation");
    assert(lower("warcinfo"@) =~= "warcinfo"@);
    assert(lower("response"@) =~= "response"@);
    assert(lower("resource"@) =~= "resource"@);
    assert(lower("request"@) =~= "request"@);
    assert(lower("metadata"@) =~= "metadata"@);
    assert(lower("revisit"@) =~= "revisit"@);
    assert(lower("conversion"@) =~= "conversion"@);
    assert(lower("continuation"@) =~= "continuation"@);
    assert("warcinfo"@[0] != "response"@[0]);
    assert("warcinfo"@[0] != "resource"@[0]);
    assert("warcinfo"@[0] != "metadata"@[0]);
    assert("response"@[3] != "resource"@[3]);
    assert("response"@[0] != "metadata"@[0]);
    assert("resource"@[0] != "metadata"@[0]);
    assert("request"@[2] != "revisit"@[2]);
}

} // verus!
