//! The closed vocabulary of truncation reasons, with a fallback variant
//! that keeps unrecognized text.
use vstd::prelude::*;

verus! {

use crate::text::{lower, lower_str, str_eq};

/// The reason a record's content was truncated.
#[derive(Debug, Clone)]
pub enum TruncatedType {
    Length,
    Time,
    Disconnect,
    Unspecified,
    /// A reason outside the standard vocabulary, keeping its original text.
    Unknown(String),
}

/// The text under which a truncation reason is written out.
pub open spec fn tt_label(t: TruncatedType) -> Seq<char> {
    match t {
        TruncatedType::Length => "length"@,
        TruncatedType::Time => "time"@,
        TruncatedType::Disconnect => "disconnect"@,
        TruncatedType::Unspecified => "unspecified"@,
        TruncatedType::Unknown(s) => s@,
    }
}

/// Whether a case-folded text names a standard truncation reason.
pub open spec fn is_known_tt(k: Seq<char>) -> bool {
    ||| k == "length"@
    ||| k == "time"@
    ||| k == "disconnect"@
    ||| k == "unspecified"@
}

/// The standard truncation reason of a given case-folded text.
pub open spec fn known_tt_of(k: Seq<char>) -> TruncatedType {
    if k == "length"@ {
        TruncatedType::Length
    } else if k == "time"@ {
        TruncatedType::Time
    } else if k == "disconnect"@ {
        TruncatedType::Disconnect
    } else {
        TruncatedType::Unspecified
    }
}

/// Structural equality of truncation reasons.
pub open spec fn tt_eq(a: TruncatedType, b: TruncatedType) -> bool {
    match (a, b) {
        (TruncatedType::Length, TruncatedType::Length) => true,
        (TruncatedType::Time, TruncatedType::Time) => true,
        (TruncatedType::Disconnect, TruncatedType::Disconnect) => true,
        (TruncatedType::Unspecified, TruncatedType::Unspecified) => true,
        (TruncatedType::Unknown(x), TruncatedType::Unknown(y)) => x@ == y@,
        _ => false,
    }
}

impl TruncatedType {
    /// The written text of this truncation reason.
    pub fn label(&self) -> (r: String)
        ensures
            r@ == tt_label(*self),
    {
        match self {
            TruncatedType::Length => String::from_str("length"),
            TruncatedType::Time => String::from_str("time"),
            TruncatedType::Disconnect => String::from_str("disconnect"),
            TruncatedType::Unspecified => String::from_str("unspecified"),
            TruncatedType::Unknown(s) => s.clone(),
        }
    }

    /// An equal truncation reason.
    pub fn dup(&self) -> (r: TruncatedType)
        ensures
            tt_eq(r, *self),
            tt_label(r) == tt_label(*self),
    {
        match self {
            TruncatedType::Length => TruncatedType::Length,
            TruncatedType::Time => TruncatedType::Time,
            TruncatedType::Disconnect => TruncatedType::Disconnect,
            TruncatedType::Unspecified => TruncatedType::Unspecified,
            TruncatedType::Unknown(s) => TruncatedType::Unknown(s.clone()),
        }
    }

    /// Map free text into the vocabulary: standard names are recognized
    /// case-insensitively, anything else is retained as the fallback.
    pub fn from_text(t: &str) -> (r: TruncatedType)
        ensures
            is_known_tt(lower(t@)) ==> r == known_tt_of(lower(t@)),
            !is_known_tt(lower(t@)) ==> (r matches TruncatedType::Unknown(s) && s@ == t@),
    {
        let k = lower_str(t);
        let ks = k.as_str();
        if str_eq(ks, "length") {
            TruncatedType::Length
        } else if str_eq(ks, "time") {
            TruncatedType::Time
        } else if str_eq(ks, "disconnect") {
            TruncatedType::Disconnect
        } else if str_eq(ks, "unspecified") {
            TruncatedType::Unspecified
        } else {
            TruncatedType::Unknown(t.to_owned())
        }
    }
}

impl PartialEq for TruncatedType {
    fn eq(&self, other: &TruncatedType) -> (r: bool) {
        match (self, other) {
            (TruncatedType::Length, TruncatedType::Length) => true,
            (TruncatedType::Time, TruncatedType::Time) => true,
            (TruncatedType::Disconnect, TruncatedType::Disconnect) => true,
            (TruncatedType::Unspecified, TruncatedType::Unspecified) => true,
            (TruncatedType::Unknown(x), TruncatedType::Unknown(y)) => *x == *y,
            _ => false,
        }
    }
}

impl vstd::std_specs::cmp::PartialEqSpecImpl for TruncatedType {
    open spec fn obeys_eq_spec() -> bool {
        true
    }

    open spec fn eq_spec(&self, other: &TruncatedType) -> bool {
        tt_eq(*self, *other)
    }
}

/// A truncation reason whose written text maps back to itself.
pub open spec fn tt_stable(t: TruncatedType) -> bool {
    match t {
        TruncatedType::Unknown(s) => !is_known_tt(lower(s@)),
        _ => true,
    }
}

/// Writing a stable truncation reason out and reading it back is the
/// identity.
pub proof fn lemma_tt_roundtrip(t: TruncatedType)
    requires
        tt_stable(t),
    ensures
        is_known_tt(lower(tt_label(t))) ==> known_tt_of(lower(tt_label(t))) == t,
        !is_known_tt(lower(tt_label(t))) ==> (t matches TruncatedType::Unknown(s) && s@ == tt_label(
        t)),
{
    reveal_strlit("length");
    reveal_strlit("time");
    reveal_strlit("disconnect");
    reveal_strlit("unspecified");
    assert(lower("length"@) =~= "length"@);
    assert(lower("time"@) =~= "time"@);
    assert(lower("disconnect"@) =~= "disconnect"@);
    assert(lower("unspecified"@) =~= "unspecified"@);
}

} // verus!
