//! The failures the typed layer reports: a required header that is
//! absent, or a header that is present but invalid.
use vstd::prelude::*;

verus! {

use crate::header::{WarcHeader, canon};

/// A validation failure, naming the field at fault.
#[derive(Debug, Clone)]
pub enum Error {
    /// A required header is absent.
    MissingHeader(WarcHeader),
    /// A header is present but its value is invalid; the text says how.
    MalformedHeader(WarcHeader, String),
}

impl Error {
    /// An equal error value.
    pub fn dup(&self) -> (r: Error)
        ensures
            err_eq(r, *self),
    {
        match self {
            Error::MissingHeader(h) => Error::MissingHeader(h.dup()),
            Error::MalformedHeader(h, m) => Error::MalformedHeader(h.dup(), m.clone()),
        }
    }
}

/// Whether an error reports the named field as absent.
pub open spec fn missing_matches(e: Error, k: Seq<char>) -> bool {
    e matches Error::MissingHeader(h) && canon(h) == k
}

/// Whether an error reports the named field as malformed, with the given
/// explanation.
pub open spec fn malformed_matches(e: Error, k: Seq<char>, msg: Seq<char>) -> bool {
    e matches Error::MalformedHeader(h, m) && canon(h) == k && m@ == msg
}

/// Equality of errors: same shape, same canonical field, same text.
pub open spec fn err_eq(a: Error, b: Error) -> bool {
    match (a, b) {
        (Error::MissingHeader(x), Error::MissingHeader(y)) => canon(x) == canon(y),
        (Error::MalformedHeader(x, mx), Error::MalformedHeader(y, my)) => canon(x) == canon(y)
            && mx@ == my@,
        _ => false,
    }
}

impl PartialEq for Error {
    fn eq(&self, other: &Error) -> (r: bool) {
        match (self, other) {
            (Error::MissingHeader(x), Error::MissingHeader(y)) => x.key_eq(y),
            (Error::MalformedHeader(x, mx), Error::MalformedHeader(y, my)) => x.key_eq(y) && *mx
                == *my,
            _ => false,
        }
    }
}

impl vstd::std_specs::cmp::PartialEqSpecImpl for Error {
    open spec fn obeys_eq_spec() -> bool {
        true
    }

    open spec fn eq_spec(&self, other: &Error) -> bool {
        err_eq(*self, *other)
    }
}

} // verus!
