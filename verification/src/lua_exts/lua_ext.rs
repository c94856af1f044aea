//! The error messages of the typed Lua property accessors.

use vstd::prelude::*;

use crate::base::chars::{chars_of, push_chars, push_str};
use crate::error::{is_custom_error, Error};

verus! {

/// The most characters of a value shown in an error message.
pub const PREVIEW_MAX_CHARS: usize = 80;

/// A value's text as shown in an error message: cut to 80 characters and
/// followed by `...` when longer.
pub open spec fn preview_spec(raw: Seq<char>) -> Seq<char> {
    if raw.len() > PREVIEW_MAX_CHARS {
        raw.take(PREVIEW_MAX_CHARS as int) + "..."@
    } else {
        raw
    }
}

/// A value's text as shown in an error message.
pub fn value_preview(raw: &str) -> (r: String)
    ensures
        r@ == preview_spec(raw@),
{
    let v = chars_of(raw);
    let mut r = String::new();
    if v.len() > PREVIEW_MAX_CHARS {
        push_chars(&mut r, crate::base::chars::chars_range(v.as_slice(), 0, PREVIEW_MAX_CHARS).as_slice());
        push_str(&mut r, "...");
    } else {
        push_chars(&mut r, v.as_slice());
    }
    r
}

/// The message for a property of the wrong type.
pub open spec fn type_mismatch_message(key: Seq<char>, expected: Seq<char>, actual: Seq<char>, raw: Seq<char>) -> Seq<char> {
    "Property '"@ + key + "' expected to be of type '"@ + expected + "', but was of type '"@ + actual
        + "' (value: "@ + preview_spec(raw) + ")"@
}

/// The error for a property that holds a value of another type than
/// expected; `raw` is the value's text before it is cut.
pub fn type_mismatch_err(key: &str, expected: &str, actual: &str, raw: &str) -> (r: Error)
    ensures
        is_custom_error(r, type_mismatch_message(key@, expected@, actual@, raw@)),
{
    let mut m = String::new();
    push_str(&mut m, "Property '");
    push_str(&mut m, key);
    push_str(&mut m, "' expected to be of type '");
    push_str(&mut m, expected);
    push_str(&mut m, "', but was of type '");
    push_str(&mut m, actual);
    push_str(&mut m, "' (value: ");
    let preview = value_preview(raw);
    push_str(&mut m, preview.as_str());
    push_str(&mut m, ")");
    Error::Custom(m)
}

/// The error for reading a property of a value that is not a table.
pub fn not_a_table_err(key: &str, actual: &str) -> (r: Error)
    ensures
        is_custom_error(
            r,
            "Cannot get property '"@ + key@ + "' because the value is not a table but of type '"@ + actual@ + "'"@,
        ),
{
    let mut m = String::new();
    push_str(&mut m, "Cannot get property '");
    push_str(&mut m, key);
    push_str(&mut m, "' because the value is not a table but of type '");
    push_str(&mut m, actual);
    push_str(&mut m, "'");
    Error::Custom(m)
}

/// The context of a failed property read: `Fail to get property 'key'`.
pub fn property_read_context(key: &str) -> (r: String)
    ensures
        r@ == "Fail to get property '"@ + key@ + "'"@,
{
    let mut m = String::new();
    push_str(&mut m, "Fail to get property '");
    push_str(&mut m, key);
    push_str(&mut m, "'");
    m
}

} // verus!
