//! Reading JSON text that may hold comments and trailing commas.

use jsonc_parser::ParseOptions;
use std::borrow::Cow;
use vstd::prelude::*;

use crate::base::chars::push_str;
use crate::base::text::{truncate_with_ellipsis, truncate_with_ellipsis_spec};
use crate::engine::gen_doc::schema_json::JsonValue;
use crate::error::{is_custom_error, Error, Result};

verus! {

// region:    --- Outside calls

/// A JSON value of `serde_json`.
#[verifier::external_type_specification]
#[verifier::external_body]
pub struct ExJsonValue(serde_json::Value);

/// The leniencies of the JSONC parser.
#[derive(Debug, Clone, Copy, PartialEq, Eq, Structural)]
pub struct JsoncOptions {
    pub allow_comments: bool,
    pub allow_trailing_commas: bool,
    pub allow_loose_object_property_names: bool,
    pub allow_single_quoted_strings: bool,
    pub allow_hexadecimal_numbers: bool,
    pub allow_unary_plus_numbers: bool,
    pub allow_missing_commas: bool,
    pub allow_bare_decimal_point_numbers: bool,
    pub allow_non_finite_numbers: bool,
    pub allow_extended_string_escapes: bool,
}

/// Whether `jsonc_parser` accepts `content` under `options`.
pub uninterp spec fn jsonc_accepts(content: Seq<char>, options: JsoncOptions) -> bool;

/// The text of `jsonc_parser`'s error for `content` under `options`.
pub uninterp spec fn jsonc_error_text(content: Seq<char>, options: JsoncOptions) -> Seq<char>;

/// The value `jsonc_parser` reads in `content` under `options`, in the
/// library's JSON model (none for empty content).
pub uninterp spec fn jsonc_value(content: Seq<char>, options: JsoncOptions) -> Option<JsonValue>;

/// A `serde_json` value in the library's JSON model, variant for variant:
/// numbers by their text (`Number`'s `Display`), arrays and objects
/// (entries in the map's order) converted element by element. It only
/// converts; it is called by the parser wrapper below, whose contract names
/// the converted value.
#[verifier::external_body]
fn json_model(v: &serde_json::Value) -> JsonValue {
    match v {
        serde_json::Value::Null => JsonValue::Null,
        serde_json::Value::Bool(b) => JsonValue::Bool(*b),
        serde_json::Value::Number(n) => JsonValue::Number(n.to_string()),
        serde_json::Value::String(t) => JsonValue::String(t.clone()),
        serde_json::Value::Array(items) => JsonValue::Array(items.iter().map(json_model).collect()),
        serde_json::Value::Object(map) => JsonValue::Object(map.iter().map(|(k, x)| (k.clone(), json_model(x))).collect()),
    }
}

/// jsonc_parser's `parse_to_serde_value` into an optional JSON value, the
/// value given in the library's JSON model and the error as its text.
/// Claimed: it accepts what `jsonc_accepts` names, the value is what
/// `jsonc_value` names, and empty content gives no value (the crate's
/// documentation: empty input reads as `null`, so `Option` gives `None`).
#[verifier::external_body]
fn jsonc_parse(content: &str, options: &JsoncOptions) -> (r: core::result::Result<Option<JsonValue>, String>)
    ensures
        r is Ok <==> jsonc_accepts(content@, *options),
        r matches Ok(v) ==> v == jsonc_value(content@, *options),
        content@.len() == 0 ==> r matches Ok(None),
        r matches Err(m) ==> m@ == jsonc_error_text(content@, *options),
{
    let parse_options = ParseOptions {
        allow_comments: options.allow_comments,
        allow_loose_object_property_names: options.allow_loose_object_property_names,
        allow_trailing_commas: options.allow_trailing_commas,
        allow_missing_commas: options.allow_missing_commas,
        allow_single_quoted_strings: options.allow_single_quoted_strings,
        allow_hexadecimal_numbers: options.allow_hexadecimal_numbers,
        allow_unary_plus_numbers: options.allow_unary_plus_numbers,
        allow_bare_decimal_point_numbers: options.allow_bare_decimal_point_numbers,
        allow_non_finite_numbers: options.allow_non_finite_numbers,
        allow_extended_string_escapes: options.allow_extended_string_escapes,
    };
    let v = jsonc_parser::parse_to_serde_value::<Option<serde_json::Value>>(content, &parse_options);
    Ok(v.map_err(|e| e.to_string())?.as_ref().map(json_model))
}

// endregion: --- Outside calls

/// The parser settings of this library: comments and trailing commas are
/// allowed; property names must still be quoted, and no other leniency is
/// on.
pub open spec fn jsonc_settings() -> JsoncOptions {
    JsoncOptions {
        allow_comments: true,
        allow_trailing_commas: true,
        allow_loose_object_property_names: false,
        allow_single_quoted_strings: false,
        allow_hexadecimal_numbers: false,
        allow_unary_plus_numbers: false,
        allow_missing_commas: false,
        allow_bare_decimal_point_numbers: false,
        allow_non_finite_numbers: false,
        allow_extended_string_escapes: false,
    }
}

/// The parser settings of this library.
pub fn jsonc_options() -> (r: JsoncOptions)
    ensures
        r == jsonc_settings(),
{
    JsoncOptions {
        allow_comments: true,
        allow_trailing_commas: true,
        allow_loose_object_property_names: false,
        allow_single_quoted_strings: false,
        allow_hexadecimal_numbers: false,
        allow_unary_plus_numbers: false,
        allow_missing_commas: false,
        allow_bare_decimal_point_numbers: false,
        allow_non_finite_numbers: false,
        allow_extended_string_escapes: false,
    }
}

/// The message for content the parser refuses: the cause, then the content
/// cut to 300 characters.
pub open spec fn jsonc_failure_message(content: Seq<char>) -> Seq<char> {
    "Fail to parse json.\nCause: "@ + jsonc_error_text(content, jsonc_settings()) + "\nJson Content:\n"@
        + truncate_with_ellipsis_spec(content, 300, "..."@)
}

/// Parses JSON content that may hold comments and trailing commas (property
/// names still need quotes) into the library's JSON model. Empty content
/// gives no value.
pub fn parse_jsonc_to_serde_value(content: &str) -> (r: Result<Option<JsonValue>>)
    ensures
        r is Ok <==> jsonc_accepts(content@, jsonc_settings()),
        r matches Ok(v) ==> v == jsonc_value(content@, jsonc_settings()),
        content@.len() == 0 ==> r matches Ok(None),
        r matches Err(e) ==> is_custom_error(e, jsonc_failure_message(content@)),
{
    let options = jsonc_options();
    match jsonc_parse(content, &options) {
        Ok(v) => Ok(v),
        Err(cause) => {
            let shown = truncate_with_ellipsis(content, 300, "...");
            let mut m = String::new();
            push_str(&mut m, "Fail to parse json.\nCause: ");
            push_str(&mut m, cause.as_str());
            push_str(&mut m, "\nJson Content:\n");
            match shown {
                Cow::Borrowed(s) => push_str(&mut m, s),
                Cow::Owned(s) => push_str(&mut m, s.as_str()),
            }
            Err(Error::Custom(m))
        },
    }
}

} // verus!
