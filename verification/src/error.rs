//! The library's error type.

use vstd::prelude::*;

use crate::base::chars::{chars_of, string_from_range};

verus! {

/// Errors raised by the library's own logic.
#[derive(Debug)]
pub enum Error {
    /// A plain message.
    Custom(String),
    /// A context message and its cause.
    CustomAndCause(String, String),
}

/// Result with the library's error type.
pub type Result<T> = core::result::Result<T, Error>;

/// Whether `e` is a `Custom` error carrying exactly the message `m`.
pub open spec fn is_custom_error(e: Error, m: Seq<char>) -> bool {
    e matches Error::Custom(s) && s@ == m
}

/// A copy of the characters of `s` as an owned string.
pub(crate) fn owned(s: &str) -> (r: String)
    ensures
        r@ == s@,
{
    let v = chars_of(s);
    string_from_range(v.as_slice(), 0, v.len())
}

impl Error {
    /// A `Custom` error with the given message.
    pub fn custom(val: &str) -> (r: Self)
        ensures
            is_custom_error(r, val@),
    {
        Error::Custom(owned(val))
    }

    /// A `CustomAndCause` error from a context and the text of its cause.
    pub fn cc(context: &str, cause: &str) -> (r: Self)
        ensures
            r matches Error::CustomAndCause(c, k) && c@ == context@ && k@ == cause@,
    {
        Error::CustomAndCause(owned(context), owned(cause))
    }
}

} // verus!
