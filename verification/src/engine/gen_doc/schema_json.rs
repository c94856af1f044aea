//! Questions the documentation asks of a JSON schema, on the schema's JSON
//! value.

use vstd::prelude::*;

use crate::base::chars::{chars_of, contains_chars, contains_seq, push_char, push_str, same_chars};

verus! {

/// A JSON value: numbers are kept as their text.
#[derive(Debug)]
pub enum JsonValue {
    Null,
    Bool(bool),
    Number(String),
    String(String),
    Array(Vec<JsonValue>),
    /// Entries in order; a key is looked up by its first entry.
    Object(Vec<(String, JsonValue)>),
}

/// The value of the first entry with key `k`, if any.
pub open spec fn entry_value(entries: Seq<(String, JsonValue)>, k: Seq<char>) -> Option<JsonValue>
    decreases entries.len(),
{
    if entries.len() == 0 {
        None
    } else if entries[0].0@ == k {
        Some(entries[0].1)
    } else {
        entry_value(entries.drop_first(), k)
    }
}

/// The value at key `k` of an object (none for other values).
pub open spec fn get_spec(v: JsonValue, k: Seq<char>) -> Option<JsonValue> {
    match v {
        JsonValue::Object(entries) => entry_value(entries@, k),
        _ => None,
    }
}

/// The value at key `k` of an object, if any.
pub fn get<'a>(v: &'a JsonValue, k: &str) -> (r: Option<&'a JsonValue>)
    ensures
        match get_spec(*v, k@) {
            Some(x) => r matches Some(y) && *y == x,
            None => r is None,
        },
{
    match v {
        JsonValue::Object(entries) => {
            let kv = chars_of(k);
            let ghost es = entries@;
            let mut i: usize = 0;
            assert(es.skip(0) =~= es);
            while i < entries.len()
                invariant
                    i <= es.len(),
                    es == entries@,
                    get_spec(*v, k@) == entry_value(es, k@),
                    kv@ == k@,
                    entry_value(es, k@) == entry_value(es.skip(i as int), k@),
                decreases es.len() - i,
            {
                assert(es.skip(i as int)[0] == es[i as int]);
                let e = &entries[i];
                assert(*e == es[i as int]);
                let key = chars_of(e.0.as_str());
                if same_chars(key.as_slice(), kv.as_slice()) {
                    assert(entry_value(es, k@) == Some(e.1));
                    return Some(&e.1);
                }
                assert(es.skip(i as int).drop_first() =~= es.skip(i + 1));
                i = i + 1;
            }
            assert(es.skip(i as int) =~= Seq::<(String, JsonValue)>::empty());
            None
        },
        _ => None,
    }
}

/// Whether an object has key `k`.
pub open spec fn has_key(v: JsonValue, k: Seq<char>) -> bool {
    get_spec(v, k) is Some
}

/// Whether a schema renders as a type expression simple enough to stand in
/// a signature: anything but an object, a reference, a union, an
/// enumeration, or a schema whose `type` is a name other than `object` or a
/// list of names; not a schema with properties.
pub open spec fn is_inlineable_spec(v: JsonValue) -> bool {
    if !(v is Object) {
        true
    } else if has_key(v, "$ref"@) || has_key(v, "oneOf"@) || has_key(v, "anyOf"@) || has_key(v, "enum"@) {
        true
    } else if has_key(v, "properties"@) {
        false
    } else {
        match get_spec(v, "type"@) {
            Some(JsonValue::String(s)) => s@ != "object"@,
            _ => true,
        }
    }
}

/// Whether a schema renders as a type expression simple enough to stand in
/// a signature (see `is_inlineable_spec`).
pub fn is_inlineable_type(schema: &JsonValue) -> (r: bool)
    ensures
        r == is_inlineable_spec(*schema),
{
    match schema {
        JsonValue::Object(_) => {},
        _ => return true,
    }
    if get(schema, "$ref").is_some() || get(schema, "oneOf").is_some() || get(schema, "anyOf").is_some() || get(
        schema,
        "enum",
    ).is_some() {
        return true;
    }
    if get(schema, "properties").is_some() {
        return false;
    }
    match get(schema, "type") {
        Some(JsonValue::String(s)) => {
            let sv = chars_of(s.as_str());
            let object_v = chars_of("object");
            !same_chars(sv.as_slice(), object_v.as_slice())
        },
        _ => true,
    }
}

/// Whether an error schema describes an error without a kind: its
/// `properties.kind` refers (`$ref`) to a definition whose name holds
/// `KindNone`.
pub open spec fn is_kind_none_spec(v: JsonValue) -> bool {
    match get_spec(v, "properties"@) {
        Some(props) => match get_spec(props, "kind"@) {
            Some(kind) => match get_spec(kind, "$ref"@) {
                Some(JsonValue::String(s)) => contains_seq(s@, "KindNone"@),
                _ => false,
            },
            None => false,
        },
        None => false,
    }
}

/// Whether an error schema describes an error without a kind.
pub fn is_kind_none_error_schema(schema: &JsonValue) -> (r: bool)
    ensures
        r == is_kind_none_spec(*schema),
{
    let props = match get(schema, "properties") {
        Some(p) => p,
        None => return false,
    };
    let kind = match get(props, "kind") {
        Some(k) => k,
        None => return false,
    };
    match get(kind, "$ref") {
        Some(JsonValue::String(s)) => {
            let sv = chars_of(s.as_str());
            let needle = chars_of("KindNone");
            contains_chars(sv.as_slice(), needle.as_slice())
        },
        _ => false,
    }
}


// region:    --- JSON text

/// The lower-case hexadecimal digits.
pub open spec fn hex_digits() -> Seq<char> {
    seq!['0', '1', '2', '3', '4', '5', '6', '7', '8', '9', 'a', 'b', 'c', 'd', 'e', 'f']
}

/// How `serde_json` writes one character inside a string literal: `"` and
/// `\\` behind a backslash, the short escapes `\\b \\t \\n \\f \\r`, other
/// control characters (below U+0020) as `\\u00XX` in lower-case hex, any
/// other character as it is.
pub open spec fn escape_char(c: char) -> Seq<char> {
    if c == '"' {
        seq!['\\', '"']
    } else if c == '\\' {
        seq!['\\', '\\']
    } else if c == '\u{8}' {
        seq!['\\', 'b']
    } else if c == '\t' {
        seq!['\\', 't']
    } else if c == '\n' {
        seq!['\\', 'n']
    } else if c == '\u{c}' {
        seq!['\\', 'f']
    } else if c == '\r' {
        seq!['\\', 'r']
    } else if (c as u32) < 0x20 {
        seq!['\\', 'u', '0', '0', hex_digits()[((c as u32) / 16) as int], hex_digits()[((c as u32) % 16) as int]]
    } else {
        seq![c]
    }
}

/// The characters of a string with each one escaped.
pub open spec fn escaped(s: Seq<char>) -> Seq<char>
    decreases s.len(),
{
    if s.len() == 0 {
        Seq::empty()
    } else {
        escaped(s.drop_last()) + escape_char(s.last())
    }
}

/// What `serde_json` writes for a string: the string as a quoted JSON string
/// literal, with its escapes.
pub open spec fn json_quoted(s: Seq<char>) -> Seq<char> {
    seq!['"'] + escaped(s) + seq!['"']
}

/// Writes a string as a JSON string literal (see `json_quoted`).
pub fn quote_json_string(s: &str) -> (r: String)
    ensures
        r@ == json_quoted(s@),
{
    let v = chars_of(s);
    let hex: Vec<char> = vec!['0', '1', '2', '3', '4', '5', '6', '7', '8', '9', 'a', 'b', 'c', 'd', 'e', 'f'];
    assert(hex@ =~= hex_digits());
    let mut out = String::new();
    push_char(&mut out, '"');
    let mut i: usize = 0;
    while i < v.len()
        invariant
            i <= v@.len(),
            v@ == s@,
            hex@ == hex_digits(),
            out@ == seq!['"'] + escaped(v@.take(i as int)),
        decreases v@.len() - i,
    {
        let c = v[i];
        assert(v@.take(i + 1).drop_last() =~= v@.take(i as int));
        let ghost before = out@;
        if c == '"' {
            push_char(&mut out, '\\');
            push_char(&mut out, '"');
        } else if c == '\\' {
            push_char(&mut out, '\\');
            push_char(&mut out, '\\');
        } else if c == '\u{8}' {
            push_char(&mut out, '\\');
            push_char(&mut out, 'b');
        } else if c == '\t' {
            push_char(&mut out, '\\');
            push_char(&mut out, 't');
        } else if c == '\n' {
            push_char(&mut out, '\\');
            push_char(&mut out, 'n');
        } else if c == '\u{c}' {
            push_char(&mut out, '\\');
            push_char(&mut out, 'f');
        } else if c == '\r' {
            push_char(&mut out, '\\');
            push_char(&mut out, 'r');
        } else if (c as u32) < 0x20 {
            let code = c as u32;
            push_char(&mut out, '\\');
            push_char(&mut out, 'u');
            push_char(&mut out, '0');
            push_char(&mut out, '0');
            push_char(&mut out, hex[(code / 16) as usize]);
            push_char(&mut out, hex[(code % 16) as usize]);
        } else {
            push_char(&mut out, c);
        }
        assert(out@ =~= before + escape_char(c));
        i = i + 1;
    }
    assert(v@.take(v@.len() as int) =~= v@);
    push_char(&mut out, '"');
    out
}

/// The compact JSON text of a value, as `serde_json` writes it: no white
/// space, numbers by their text, strings and keys quoted.
pub open spec fn json_text(v: JsonValue) -> Seq<char>
    decreases v,
{
    match v {
        JsonValue::Null => "null"@,
        JsonValue::Bool(b) => if b { "true"@ } else { "false"@ },
        JsonValue::Number(t) => t@,
        JsonValue::String(s) => json_quoted(s@),
        JsonValue::Array(items) => seq!['['] + items_text(items@) + seq![']'],
        JsonValue::Object(entries) => seq!['{'] + entries_text(entries@) + seq!['}'],
    }
}

/// The texts of values, separated by commas.
pub open spec fn items_text(s: Seq<JsonValue>) -> Seq<char>
    decreases s,
{
    if s.len() == 0 {
        Seq::empty()
    } else if s.len() == 1 {
        json_text(s[0])
    } else {
        items_text(s.subrange(0, s.len() - 1)) + seq![','] + json_text(s[s.len() - 1])
    }
}

/// The texts of object entries (`"key":value`), separated by commas.
pub open spec fn entries_text(s: Seq<(String, JsonValue)>) -> Seq<char>
    decreases s,
{
    if s.len() == 0 {
        Seq::empty()
    } else if s.len() == 1 {
        json_quoted(s[0].0@) + seq![':'] + json_text(s[0].1)
    } else {
        entries_text(s.subrange(0, s.len() - 1)) + seq![','] + json_quoted(s[s.len() - 1].0@) + seq![':']
            + json_text(s[s.len() - 1].1)
    }
}


/// Appends the compact JSON text of a value.
pub fn write_json_text(out: &mut String, v: &JsonValue)
    ensures
        final(out)@ == old(out)@ + json_text(*v),
    decreases v,
{
    match v {
        JsonValue::Null => {
            push_str(out, "null");
            proof {
                reveal_strlit("null");
            }
        },
        JsonValue::Bool(b) => {
            if *b {
                push_str(out, "true");
                proof {
                    reveal_strlit("true");
                }
            } else {
                push_str(out, "false");
                proof {
                    reveal_strlit("false");
                }
            }
        },
        JsonValue::Number(t) => push_str(out, t.as_str()),
        JsonValue::String(s) => {
            let q = quote_json_string(s.as_str());
            push_str(out, q.as_str());
        },
        JsonValue::Array(items) => {
            let ghost start = out@;
            push_char(out, '[');
            let mut i: usize = 0;
            while i < items.len()
                invariant
                    i <= items@.len(),
                    out@ == start + seq!['['] + items_text(items@.subrange(0, i as int)),
                    *v is Array && (*v)->Array_0 == *items,
                decreases items@.len() - i,
            {
                assert(decreases_to!(*items => items@));
                if i > 0 {
                    push_char(out, ',');
                }
                write_json_text(out, &items[i]);
                let ghost sub = items@.subrange(0, i + 1);
                assert(sub.subrange(0, sub.len() - 1) =~= items@.subrange(0, i as int));
                i = i + 1;
            }
            assert(items@.subrange(0, items@.len() as int) =~= items@);
            push_char(out, ']');
        },
        JsonValue::Object(entries) => {
            let ghost start = out@;
            push_char(out, '{');
            let mut i: usize = 0;
            while i < entries.len()
                invariant
                    i <= entries@.len(),
                    out@ == start + seq!['{'] + entries_text(entries@.subrange(0, i as int)),
                    *v is Object && (*v)->Object_0 == *entries,
                decreases entries@.len() - i,
            {
                assert(decreases_to!(*entries => entries@));
                assert(decreases_to!(entries@[i as int] => entries@[i as int].1));
                if i > 0 {
                    push_char(out, ',');
                }
                let q = quote_json_string(entries[i].0.as_str());
                push_str(out, q.as_str());
                push_char(out, ':');
                write_json_text(out, &entries[i].1);
                let ghost sub = entries@.subrange(0, i + 1);
                assert(sub.subrange(0, sub.len() - 1) =~= entries@.subrange(0, i as int));
                i = i + 1;
            }
            assert(entries@.subrange(0, entries@.len() as int) =~= entries@);
            push_char(out, '}');
        },
    }
}

/// The compact JSON text of a value, as `serde_json` writes it.
pub fn to_json_text(v: &JsonValue) -> (r: String)
    ensures
        r@ == json_text(*v),
{
    let mut out = String::new();
    write_json_text(&mut out, v);
    out
}

} // verus!
