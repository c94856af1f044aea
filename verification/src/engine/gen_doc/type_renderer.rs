//! Pieces of the TypeScript-like type expressions in the documentation.

use vstd::prelude::*;

use crate::base::chars::{chars_of, chars_range, same_chars, string_from_chars};
use crate::base::lines::{lines_of, lines_spec};
use crate::base::order::{lemma_lex_irreflexive, lemma_lex_transitive, lex_less, lex_lt};
use crate::base::chars::{append_chars, push_char, push_str};
use crate::base::split::{join_chars, join_with, lemma_split_on_nonempty, split_chars, split_on};
use crate::base::text::opt_view;
use crate::engine::gen_doc::schema_json::{json_text, write_json_text, JsonValue};

verus! {

// region:    --- Primitive names

/// `string`.
pub open spec fn string_name() -> Seq<char> {
    seq!['s', 't', 'r', 'i', 'n', 'g']
}

/// `number`.
pub open spec fn number_name() -> Seq<char> {
    seq!['n', 'u', 'm', 'b', 'e', 'r']
}

/// `integer`.
pub open spec fn integer_name() -> Seq<char> {
    seq!['i', 'n', 't', 'e', 'g', 'e', 'r']
}

/// `boolean`.
pub open spec fn boolean_name() -> Seq<char> {
    seq!['b', 'o', 'o', 'l', 'e', 'a', 'n']
}

/// `null`.
pub open spec fn null_name() -> Seq<char> {
    seq!['n', 'u', 'l', 'l']
}

/// `any`.
pub open spec fn any_name() -> Seq<char> {
    seq!['a', 'n', 'y']
}

/// The TypeScript name of a JSON-schema primitive type name, if it is one.
pub open spec fn primitive_type_spec(s: Seq<char>) -> Option<Seq<char>> {
    if s == string_name() {
        Some(string_name())
    } else if s == number_name() || s == integer_name() {
        Some(number_name())
    } else if s == boolean_name() {
        Some(boolean_name())
    } else if s == null_name() {
        Some(null_name())
    } else {
        None
    }
}

/// The TypeScript name of a JSON-schema primitive type name: `string`,
/// `number` (for `number` and `integer`), `boolean` or `null`.
pub fn try_primitive_type_name(s: &str) -> (r: Option<&'static str>)
    ensures
        match primitive_type_spec(s@) {
            Some(t) => r matches Some(u) && u@ == t,
            None => r is None,
        },
{
    let v = chars_of(s);
    let string_v: Vec<char> = vec!['s', 't', 'r', 'i', 'n', 'g'];
    let number_v: Vec<char> = vec!['n', 'u', 'm', 'b', 'e', 'r'];
    let integer_v: Vec<char> = vec!['i', 'n', 't', 'e', 'g', 'e', 'r'];
    let boolean_v: Vec<char> = vec!['b', 'o', 'o', 'l', 'e', 'a', 'n'];
    let null_v: Vec<char> = vec!['n', 'u', 'l', 'l'];
    assert(string_v@ =~= string_name());
    assert(number_v@ =~= number_name());
    assert(integer_v@ =~= integer_name());
    assert(boolean_v@ =~= boolean_name());
    assert(null_v@ =~= null_name());
    if same_chars(v.as_slice(), string_v.as_slice()) {
        proof {
            reveal_strlit("string");
        }
        Some("string")
    } else if same_chars(v.as_slice(), number_v.as_slice()) || same_chars(v.as_slice(), integer_v.as_slice()) {
        proof {
            reveal_strlit("number");
        }
        Some("number")
    } else if same_chars(v.as_slice(), boolean_v.as_slice()) {
        proof {
            reveal_strlit("boolean");
        }
        Some("boolean")
    } else if same_chars(v.as_slice(), null_v.as_slice()) {
        proof {
            reveal_strlit("null");
        }
        Some("null")
    } else {
        None
    }
}

// endregion: --- Primitive names

// region:    --- Optional types

/// The separator between the alternatives of a union type: ` | `.
pub open spec fn union_separator() -> Seq<char> {
    seq![' ', '|', ' ']
}

/// `parts` without the ones equal to `null`, in order.
pub open spec fn without_null(parts: Seq<Seq<char>>) -> Seq<Seq<char>>
    decreases parts.len(),
{
    if parts.len() == 0 {
        parts
    } else {
        let kept = without_null(parts.drop_last());
        if parts.last() == null_name() {
            kept
        } else {
            kept.push(parts.last())
        }
    }
}

/// A type expression without its `null` alternatives, or `any` when nothing
/// else is left.
pub open spec fn simplify_optional_spec(t: Seq<char>) -> Seq<char> {
    let kept = without_null(split_on(t, union_separator()));
    if kept.len() == 0 {
        any_name()
    } else {
        join_with(kept, union_separator())
    }
}

/// Law: no alternative that is left is `null`.
pub proof fn law_without_null_has_no_null(parts: Seq<Seq<char>>)
    ensures
        forall|i: int| 0 <= i < without_null(parts).len() ==> #[trigger] without_null(parts)[i] != null_name(),
        without_null(parts).len() <= parts.len(),
    decreases parts.len(),
{
    if parts.len() > 0 {
        law_without_null_has_no_null(parts.drop_last());
    }
}

/// Removes the `null` alternatives (and their separators) from a type
/// expression such as `number | null`, so that an optional marker alone
/// conveys optionality; gives `any` when nothing else is left.
pub fn simplify_optional_type(type_expr: &str) -> (r: String)
    ensures
        r@ == simplify_optional_spec(type_expr@),
{
    let v = chars_of(type_expr);
    let sep: Vec<char> = vec![' ', '|', ' '];
    let null_v: Vec<char> = vec!['n', 'u', 'l', 'l'];
    assert(sep@ =~= union_separator());
    assert(null_v@ =~= null_name());
    let parts = split_chars(v.as_slice(), sep.as_slice());
    let ghost pieces = split_on(v@, sep@);
    let mut kept: Vec<Vec<char>> = Vec::new();
    let mut i: usize = 0;
    assert(pieces.take(0) =~= Seq::<Seq<char>>::empty());
    assert(kept@.map_values(|p: Vec<char>| p@) =~= without_null(pieces.take(0)));
    while i < parts.len()
        invariant
            i <= parts@.len() == pieces.len(),
            pieces == split_on(v@, sep@),
            forall|k: int| 0 <= k < parts@.len() ==> #[trigger] parts@[k]@ == pieces[k],
            null_v@ == null_name(),
            kept@.map_values(|p: Vec<char>| p@) == without_null(pieces.take(i as int)),
        decreases parts@.len() - i,
    {
        assert(pieces.take(i + 1).drop_last() =~= pieces.take(i as int));
        let part = &parts[i];
        if !same_chars(part.as_slice(), null_v.as_slice()) {
            let ghost before = kept@;
            let copy = chars_range(part.as_slice(), 0, part.len());
            assert(copy@ =~= pieces[i as int]);
            kept.push(copy);
            assert(kept@.map_values(|p: Vec<char>| p@) =~= before.map_values(|p: Vec<char>| p@).push(
                pieces[i as int],
            ));
        }
        i = i + 1;
    }
    assert(pieces.take(pieces.len() as int) =~= pieces);
    if kept.len() == 0 {
        let any_v: Vec<char> = vec!['a', 'n', 'y'];
        assert(any_v@ =~= any_name());
        string_from_chars(any_v.as_slice())
    } else {
        let joined = join_chars(&kept, sep.as_slice());
        string_from_chars(joined.as_slice())
    }
}

// endregion: --- Optional types


// region:    --- Schema values

/// The index of the first entry with key `k`, or -1 when there is none.
pub open spec fn key_index(es: Seq<(String, JsonValue)>, k: Seq<char>) -> int
    decreases es.len(),
{
    if es.len() == 0 {
        -1
    } else if es[0].0@ == k {
        0
    } else {
        let r = key_index(es.drop_first(), k);
        if r < 0 {
            -1
        } else {
            r + 1
        }
    }
}

/// `key_index` is -1 or the index of an entry with that key.
pub proof fn lemma_key_index(es: Seq<(String, JsonValue)>, k: Seq<char>)
    ensures
        -1 <= key_index(es, k) < es.len(),
        key_index(es, k) >= 0 ==> es[key_index(es, k)].0@ == k,
        key_index(es, k) < 0 ==> forall|i: int| 0 <= i < es.len() ==> #[trigger] es[i].0@ != k,
        forall|i: int| 0 <= i < key_index(es, k) ==> #[trigger] es[i].0@ != k,
    decreases es.len(),
{
    if es.len() > 0 && es[0].0@ != k {
        let t = es.drop_first();
        lemma_key_index(t, k);
        assert forall|i: int| 1 <= i < es.len() implies #[trigger] es[i].0@ == t[i - 1].0@ by {}
    }
}

/// The name a `$ref` points to: its text after the last `/`, or `any` when
/// it is not a string.
pub open spec fn ref_text(r: JsonValue) -> Seq<char> {
    let t = match r {
        JsonValue::String(s) => s@,
        _ => any_name(),
    };
    split_on(t, seq!['/']).last()
}

/// One value of an enumeration: a string in double quotes (as it is), any
/// other value as its JSON text.
pub open spec fn enum_item(x: JsonValue) -> Seq<char> {
    match x {
        JsonValue::String(s) => seq!['"'] + s@ + seq!['"'],
        _ => json_text(x),
    }
}

/// The values of an enumeration, separated by ` | `.
pub open spec fn enum_list(l: Seq<JsonValue>) -> Seq<char>
    decreases l.len(),
{
    if l.len() == 0 {
        Seq::empty()
    } else if l.len() == 1 {
        enum_item(l[0])
    } else {
        enum_list(l.drop_last()) + union_separator() + enum_item(l.last())
    }
}

/// An `enum` value: its values as alternatives, or `any` when it is not an
/// array.
pub open spec fn enum_spec(e: JsonValue) -> Seq<char> {
    match e {
        JsonValue::Array(items) => enum_list(items@),
        _ => any_name(),
    }
}

/// Whether a value is the string `name`.
pub open spec fn is_string_of(x: JsonValue, name: Seq<char>) -> bool {
    x matches JsonValue::String(s) && s@ == name
}

/// Whether `required` lists `name`.
pub open spec fn is_required_spec(required: JsonValue, name: Seq<char>) -> bool {
    match required {
        JsonValue::Array(items) => exists|i: int| 0 <= i < items@.len() && #[trigger] is_string_of(items@[i], name),
        _ => false,
    }
}

/// A property's description: its `description`, when that is a string.
pub open spec fn description_of(v: JsonValue) -> Option<Seq<char>> {
    match v {
        JsonValue::Object(es) => {
            let i = key_index(es@, "description"@);
            if i >= 0 {
                match es@[i].1 {
                    JsonValue::String(d) => Some(d@),
                    _ => None,
                }
            } else {
                None
            }
        },
        _ => None,
    }
}

/// A property's default value, as JSON text, if it has one.
pub open spec fn default_of(v: JsonValue) -> Option<Seq<char>> {
    match v {
        JsonValue::Object(es) => {
            let i = key_index(es@, "default"@);
            if i >= 0 {
                Some(json_text(es@[i].1))
            } else {
                None
            }
        },
        _ => None,
    }
}

/// Each line of a property's description as an indented comment.
pub open spec fn property_comment(ls: Seq<Seq<char>>) -> Seq<char>
    decreases ls.len(),
{
    if ls.len() == 0 {
        Seq::empty()
    } else {
        property_comment(ls.drop_last()) + "  // "@ + ls.last() + seq!['\n']
    }
}

/// The lines of a property that come before its declaration: its
/// description, then its default.
pub open spec fn property_notes(v: JsonValue) -> Seq<char> {
    let d = match description_of(v) {
        Some(d) => property_comment(lines_spec(d)),
        None => Seq::empty(),
    };
    let f = match default_of(v) {
        Some(x) => "  // default: "@ + x + seq!['\n'],
        None => Seq::empty(),
    };
    d + f
}

/// A property's declaration line: `  name: type;`, or `  name?: type;`
/// with the `null` alternatives dropped when it is optional.
pub open spec fn property_line(name: Seq<char>, required: bool, t: Seq<char>) -> Seq<char> {
    if required {
        "  "@ + name + ": "@ + t + seq![';', '\n']
    } else {
        "  "@ + name + "?: "@ + simplify_optional_spec(t) + seq![';', '\n']
    }
}

// endregion: --- Schema values

// region:    --- Property order

/// Property `a` comes before `b`: required ones first, then by name.
pub open spec fn block_before(a: (bool, Seq<char>, Seq<char>), b: (bool, Seq<char>, Seq<char>)) -> bool {
    (a.0 && !b.0) || (a.0 == b.0 && lex_lt(a.1, b.1))
}

/// The index of the first smallest of the first `n` entries.
pub open spec fn min_index(s: Seq<(bool, Seq<char>, Seq<char>)>, n: int) -> int
    decreases n,
{
    if n <= 1 {
        0
    } else {
        let m = min_index(s, n - 1);
        if block_before(s[n - 1], s[m]) {
            n - 1
        } else {
            m
        }
    }
}

/// The entries in order, the first smallest taken first (a stable sort).
pub open spec fn sort_blocks(s: Seq<(bool, Seq<char>, Seq<char>)>) -> Seq<(bool, Seq<char>, Seq<char>)>
    decreases s.len(),
{
    if s.len() == 0 {
        s
    } else {
        let m = min_index(s, s.len() as int);
        if 0 <= m < s.len() {
            seq![s[m]] + sort_blocks(s.remove(m))
        } else {
            s
        }
    }
}

/// The texts of the entries, one after the other.
pub open spec fn block_texts(s: Seq<(bool, Seq<char>, Seq<char>)>) -> Seq<char>
    decreases s.len(),
{
    if s.len() == 0 {
        Seq::empty()
    } else {
        block_texts(s.drop_last()) + s.last().2
    }
}


/// `block_before` is transitive.
proof fn lemma_block_before_transitive(
    a: (bool, Seq<char>, Seq<char>),
    b: (bool, Seq<char>, Seq<char>),
    c: (bool, Seq<char>, Seq<char>),
)
    requires
        block_before(a, b),
        block_before(b, c),
    ensures
        block_before(a, c),
{
    if a.0 == b.0 && b.0 == c.0 {
        lemma_lex_transitive(a.1, b.1, c.1);
    }
}

/// The entry `min_index` picks is not after any of the first `n`.
proof fn lemma_min_index(s: Seq<(bool, Seq<char>, Seq<char>)>, n: int)
    requires
        1 <= n <= s.len(),
    ensures
        0 <= min_index(s, n) < n,
        forall|k: int| 0 <= k < n ==> !block_before(#[trigger] s[k], s[min_index(s, n)]),
    decreases n,
{
    if n > 1 {
        lemma_min_index(s, n - 1);
        let m = min_index(s, n - 1);
        if block_before(s[n - 1], s[m]) {
            assert forall|k: int| 0 <= k < n implies !block_before(#[trigger] s[k], s[n - 1]) by {
                if k < n - 1 && block_before(s[k], s[n - 1]) {
                    lemma_block_before_transitive(s[k], s[n - 1], s[m]);
                }
                if k == n - 1 {
                    lemma_lex_irreflexive(s[k].1);
                }
            }
        }
    } else {
        lemma_lex_irreflexive(s[0].1);
    }
}

/// Sorting keeps the number of entries and takes each from the input.
proof fn lemma_sort_blocks_from(s: Seq<(bool, Seq<char>, Seq<char>)>)
    ensures
        sort_blocks(s).len() == s.len(),
        forall|j: int|
            0 <= j < s.len() ==> exists|k: int| 0 <= k < s.len() && #[trigger] sort_blocks(s)[j] == s[k],
    decreases s.len(),
{
    if s.len() > 0 {
        lemma_min_index(s, s.len() as int);
        let m = min_index(s, s.len() as int);
        let t = s.remove(m);
        lemma_sort_blocks_from(t);
        let r = sort_blocks(s);
        assert(r == seq![s[m]] + sort_blocks(t));
        assert forall|j: int| 0 <= j < s.len() implies exists|k: int|
            0 <= k < s.len() && #[trigger] r[j] == s[k] by {
            if j == 0 {
                assert(r[0] == s[m]);
            } else {
                assert(r[j] == sort_blocks(t)[j - 1]);
                let k = choose|k: int| 0 <= k < t.len() && sort_blocks(t)[j - 1] == t[k];
                if k < m {
                    assert(t[k] == s[k]);
                } else {
                    assert(t[k] == s[k + 1]);
                }
            }
        }
    }
}

/// Law: the properties of an object come in order: a later one never
/// comes before an earlier one, so required properties come first and
/// each group is in name order.
pub proof fn law_sorted_blocks_ordered(s: Seq<(bool, Seq<char>, Seq<char>)>)
    ensures
        sort_blocks(s).len() == s.len(),
        forall|i: int, j: int|
            0 <= i < j < sort_blocks(s).len() ==> !block_before(
                #[trigger] sort_blocks(s)[j],
                #[trigger] sort_blocks(s)[i],
            ),
    decreases s.len(),
{
    lemma_sort_blocks_from(s);
    if s.len() > 0 {
        lemma_min_index(s, s.len() as int);
        let m = min_index(s, s.len() as int);
        let t = s.remove(m);
        law_sorted_blocks_ordered(t);
        lemma_sort_blocks_from(t);
        let r = sort_blocks(s);
        assert(r == seq![s[m]] + sort_blocks(t));
        assert forall|i: int, j: int| 0 <= i < j < r.len() implies !block_before(#[trigger] r[j], #[trigger] r[i]) by {
            if i == 0 {
                assert(r[j] == sort_blocks(t)[j - 1]);
                let k = choose|k: int| 0 <= k < t.len() && sort_blocks(t)[j - 1] == t[k];
                if k < m {
                    assert(t[k] == s[k]);
                } else {
                    assert(t[k] == s[k + 1]);
                }
            } else {
                assert(r[j] == sort_blocks(t)[j - 1]);
                assert(r[i] == sort_blocks(t)[i - 1]);
            }
        }
    }
}

// endregion: --- Property order


// region:    --- Type expressions

/// The TypeScript-like type expression of a JSON schema value: `any` for
/// anything but an object; for an object, by the first of `$ref` (the name
/// it points to), `oneOf` and `anyOf` (unions), `enum` (the values), then
/// `type`: a primitive name, `object` (its properties), `array` (its
/// items), or a list of names (a union); `any` otherwise.
pub open spec fn render_spec(v: JsonValue) -> Seq<char>
    decreases v,
{
    match v {
        JsonValue::Object(es) => {
            let s = es@;
            let ir = key_index(s, "$ref"@);
            let io = key_index(s, "oneOf"@);
            let ia = key_index(s, "anyOf"@);
            let ie = key_index(s, "enum"@);
            let it = key_index(s, "type"@);
            proof {
                lemma_key_index(s, "$ref"@);
                lemma_key_index(s, "oneOf"@);
                lemma_key_index(s, "anyOf"@);
                lemma_key_index(s, "type"@);
            }
            if ir >= 0 {
                ref_text(s[ir].1)
            } else if io >= 0 {
                union_spec(s[io].1)
            } else if ia >= 0 {
                union_spec(s[ia].1)
            } else if ie >= 0 {
                enum_spec(s[ie].1)
            } else if it >= 0 {
                match s[it].1 {
                    JsonValue::String(n) => match primitive_type_spec(n@) {
                        Some(p) => p,
                        None => if n@ == "object"@ {
                            object_spec(s)
                        } else if n@ == "array"@ {
                            array_spec(s)
                        } else {
                            any_name()
                        },
                    },
                    JsonValue::Array(list) => type_list_spec(list@),
                    _ => any_name(),
                }
            } else {
                any_name()
            }
        },
        _ => any_name(),
    }
}

/// A union: the alternatives' expressions separated by ` | `, or `any`
/// when it is not an array.
pub open spec fn union_spec(u: JsonValue) -> Seq<char>
    decreases u,
{
    match u {
        JsonValue::Array(items) => union_list(items@),
        _ => any_name(),
    }
}

/// The expressions of values, separated by ` | `.
pub open spec fn union_list(l: Seq<JsonValue>) -> Seq<char>
    decreases l,
{
    if l.len() == 0 {
        Seq::empty()
    } else if l.len() == 1 {
        render_spec(l[0])
    } else {
        union_list(l.subrange(0, l.len() - 1)) + union_separator() + render_spec(l[l.len() - 1])
    }
}

/// The names of a `type` list, separated by ` | `: a primitive name as its
/// TypeScript name, any other value as its expression.
pub open spec fn type_list_spec(l: Seq<JsonValue>) -> Seq<char>
    decreases l,
{
    if l.len() == 0 {
        Seq::empty()
    } else {
        let x = l[l.len() - 1];
        let t = match x {
            JsonValue::String(n) => match primitive_type_spec(n@) {
                Some(p) => p,
                None => render_spec(x),
            },
            _ => render_spec(x),
        };
        if l.len() == 1 {
            t
        } else {
            type_list_spec(l.subrange(0, l.len() - 1)) + union_separator() + t
        }
    }
}

/// An array schema: `Array<items>`, or `any[]` without `items`.
pub open spec fn array_spec(s: Seq<(String, JsonValue)>) -> Seq<char>
    decreases s,
{
    let ii = key_index(s, "items"@);
    proof {
        lemma_key_index(s, "items"@);
    }
    if ii >= 0 {
        "Array<"@ + render_spec(s[ii].1) + seq!['>']
    } else {
        "any[]"@
    }
}

/// The properties of an object schema: the entries of its `properties`
/// object, none when it has no such object.
pub open spec fn object_spec(s: Seq<(String, JsonValue)>) -> Seq<char>
    decreases s,
{
    let ip = key_index(s, "properties"@);
    let ir = key_index(s, "required"@);
    proof {
        lemma_key_index(s, "properties"@);
        lemma_key_index(s, "required"@);
    }
    let required = if ir >= 0 {
        s[ir].1
    } else {
        JsonValue::Null
    };
    if ip >= 0 {
        match s[ip].1 {
            JsonValue::Object(pes) => if pes@.len() == 0 {
                "{}"@
            } else {
                seq!['{', '\n'] + block_texts(sort_blocks(prop_blocks(pes@, required))) + seq!['}']
            },
            _ => "{}"@,
        }
    } else {
        "{}"@
    }
}

/// Each property as (required, name, its lines), in the order given.
pub open spec fn prop_blocks(ps: Seq<(String, JsonValue)>, required: JsonValue) -> Seq<(bool, Seq<char>, Seq<char>)>
    decreases ps,
{
    if ps.len() == 0 {
        Seq::empty()
    } else {
        let p = ps[ps.len() - 1];
        let req = is_required_spec(required, p.0@);
        let text = property_notes(p.1) + property_line(p.0@, req, render_spec(p.1));
        prop_blocks(ps.subrange(0, ps.len() - 1), required).push((req, p.0@, text))
    }
}

// endregion: --- Type expressions


// region:    --- Schema lookups

/// `key_index` is `i` when the entries before `i` have other keys and the
/// entry at `i` (if any) has the key.
proof fn lemma_key_index_at(es: Seq<(String, JsonValue)>, k: Seq<char>, i: int)
    requires
        0 <= i <= es.len(),
        forall|j: int| 0 <= j < i ==> #[trigger] es[j].0@ != k,
        i < es.len() ==> es[i].0@ == k,
    ensures
        key_index(es, k) == if i < es.len() {
            i
        } else {
            -1
        },
    decreases i,
{
    if i > 0 {
        let t = es.drop_first();
        assert forall|j: int| 0 <= j < i - 1 implies #[trigger] t[j].0@ != k by {
            assert(t[j] == es[j + 1]);
        }
        if i < es.len() {
            assert(t[i - 1] == es[i]);
        }
        lemma_key_index_at(t, k, i - 1);
    }
}

/// The index of the first entry with key `k`.
fn key_lookup(es: &Vec<(String, JsonValue)>, k: &str) -> (r: Option<usize>)
    ensures
        match r {
            Some(i) => i == key_index(es@, k@) && i < es@.len(),
            None => key_index(es@, k@) < 0,
        },
{
    let kv = chars_of(k);
    let mut i: usize = 0;
    while i < es.len()
        invariant
            i <= es@.len(),
            kv@ == k@,
            forall|j: int| 0 <= j < i ==> #[trigger] es@[j].0@ != k@,
        decreases es@.len() - i,
    {
        let key = chars_of(es[i].0.as_str());
        if same_chars(key.as_slice(), kv.as_slice()) {
            proof {
                lemma_key_index_at(es@, k@, i as int);
            }
            return Some(i);
        }
        i = i + 1;
    }
    proof {
        lemma_key_index_at(es@, k@, i as int);
    }
    None
}

/// Whether a text equals a literal.
fn is_text(t: &str, lit: &str) -> (r: bool)
    ensures
        r == (t@ == lit@),
{
    let a = chars_of(t);
    let b = chars_of(lit);
    same_chars(a.as_slice(), b.as_slice())
}

/// The name a `$ref` points to (see `ref_text`).
fn render_ref(r: &JsonValue) -> (out: String)
    ensures
        out@ == ref_text(*r),
{
    let t = match r {
        JsonValue::String(s) => chars_of(s.as_str()),
        _ => {
            let a: Vec<char> = vec!['a', 'n', 'y'];
            assert(a@ =~= any_name());
            a
        },
    };
    let sep: Vec<char> = vec!['/'];
    assert(sep@ =~= seq!['/']);
    let parts = split_chars(t.as_slice(), sep.as_slice());
    proof {
        lemma_split_on_nonempty(t@, sep@);
    }
    let last = &parts[parts.len() - 1];
    string_from_chars(last.as_slice())
}

/// The values of an enumeration (see `enum_spec`).
pub fn render_enum(e: &JsonValue) -> (r: String)
    ensures
        r@ == enum_spec(*e),
{
    match e {
        JsonValue::Array(items) => {
            let mut out = String::new();
            let mut i: usize = 0;
            while i < items.len()
                invariant
                    i <= items@.len(),
                    out@ == enum_list(items@.take(i as int)),
                decreases items@.len() - i,
            {
                assert(items@.take(i + 1).drop_last() =~= items@.take(i as int));
                if i > 0 {
                    push_str(&mut out, " | ");
                    proof {
                        reveal_strlit(" | ");
                    }
                }
                match &items[i] {
                    JsonValue::String(s) => {
                        push_char(&mut out, '"');
                        push_str(&mut out, s.as_str());
                        push_char(&mut out, '"');
                    },
                    other => write_json_text(&mut out, other),
                }
                i = i + 1;
            }
            assert(items@.take(items@.len() as int) =~= items@);
            out
        },
        _ => {
            let r = String::from_str("any");
            proof {
                reveal_strlit("any");
            }
            r
        },
    }
}

// endregion: --- Schema lookups


// region:    --- Property blocks

/// Whether `required` lists `name` (see `is_required_spec`).
fn is_required(required: &JsonValue, name: &str) -> (r: bool)
    ensures
        r == is_required_spec(*required, name@),
{
    match required {
        JsonValue::Array(items) => {
            let mut i: usize = 0;
            while i < items.len()
                invariant
                    i <= items@.len(),
                    *required == JsonValue::Array(*items),
                    forall|j: int| 0 <= j < i ==> !#[trigger] is_string_of(items@[j], name@),
                decreases items@.len() - i,
            {
                match &items[i] {
                    JsonValue::String(s) => {
                        if is_text(s.as_str(), name) {
                            assert(is_string_of(items@[i as int], name@));
                            assert((*required)->Array_0 == *items);
                            return true;
                        }
                    },
                    _ => {},
                }
                i = i + 1;
            }
            false
        },
        _ => false,
    }
}

/// Appends a property's notes: its description lines, then its default.
fn write_property_notes(out: &mut Vec<char>, v: &JsonValue)
    ensures
        final(out)@ == old(out)@ + property_notes(*v),
{
    let ghost start = out@;
    match v {
        JsonValue::Object(es) => {
            match key_lookup(es, "description") {
                Some(i) => match &es[i].1 {
                    JsonValue::String(d) => {
                        let dv = chars_of(d.as_str());
                        let ls = lines_of(dv.as_slice());
                        let ghost lsv = lines_spec(d@);
                        let prefix: Vec<char> = vec![' ', ' ', '/', '/', ' '];
                        assert(prefix@ =~= "  // "@) by {
                            reveal_strlit("  // ");
                        }
                        let mut j: usize = 0;
                        while j < ls.len()
                            invariant
                                j <= ls@.len() == lsv.len(),
                                lsv == lines_spec(d@),
                                prefix@ == "  // "@,
                                forall|x: int| 0 <= x < ls@.len() ==> #[trigger] ls@[x]@ == lsv[x],
                                out@ == start + property_comment(lsv.take(j as int)),
                            decreases ls@.len() - j,
                        {
                            assert(lsv.take(j + 1).drop_last() =~= lsv.take(j as int));
                            append_chars(out, prefix.as_slice());
                            append_chars(out, ls[j].as_slice());
                            out.push('\n');
                            j = j + 1;
                        }
                        assert(lsv.take(lsv.len() as int) =~= lsv);
                    },
                    _ => {},
                },
                None => {},
            }
            let ghost mid = out@;
            match key_lookup(es, "default") {
                Some(i) => {
                    let label: Vec<char> = vec![' ', ' ', '/', '/', ' ', 'd', 'e', 'f', 'a', 'u', 'l', 't', ':', ' '];
                    assert(label@ =~= "  // default: "@) by {
                        reveal_strlit("  // default: ");
                    }
                    append_chars(out, label.as_slice());
                    let mut t = String::new();
                    write_json_text(&mut t, &es[i].1);
                    let tv = chars_of(t.as_str());
                    append_chars(out, tv.as_slice());
                    out.push('\n');
                },
                None => {},
            }
            assert(out@ == start + property_notes(*v));
        },
        _ => {},
    }
}


/// A property block as values.
pub open spec fn block_view(b: (bool, Vec<char>, Vec<char>)) -> (bool, Seq<char>, Seq<char>) {
    (b.0, b.1@, b.2@)
}

/// The block of one property whose type expression is `t`: whether it is
/// required, its name, and its lines.
fn property_block(name: &str, raw: &JsonValue, required: &JsonValue, t: &str) -> (b: (bool, Vec<char>, Vec<char>))
    ensures
        block_view(b) == ({
            let req = is_required_spec(*required, name@);
            (req, name@, property_notes(*raw) + property_line(name@, req, t@))
        }),
{
    let req = is_required(required, name);
    let mut text: Vec<char> = Vec::new();
    write_property_notes(&mut text, raw);
    let ghost notes = text@;
    let indent: Vec<char> = vec![' ', ' '];
    append_chars(&mut text, indent.as_slice());
    let nv = chars_of(name);
    append_chars(&mut text, nv.as_slice());
    let ty = if req {
        let colon: Vec<char> = vec![':', ' '];
        append_chars(&mut text, colon.as_slice());
        chars_of(t)
    } else {
        let colon: Vec<char> = vec!['?', ':', ' '];
        append_chars(&mut text, colon.as_slice());
        let simple = simplify_optional_type(t);
        chars_of(simple.as_str())
    };
    append_chars(&mut text, ty.as_slice());
    text.push(';');
    text.push('\n');
    proof {
        reveal_strlit("  ");
        reveal_strlit(": ");
        reveal_strlit("?: ");
    }
    assert(text@ =~= notes + property_line(name@, req, t@));
    (req, nv, text)
}

/// Block `a` comes before block `b` (see `block_before`).
fn block_less(a: &(bool, Vec<char>, Vec<char>), b: &(bool, Vec<char>, Vec<char>)) -> (r: bool)
    ensures
        r == block_before(block_view(*a), block_view(*b)),
{
    (a.0 && !b.0) || (a.0 == b.0 && lex_less(a.1.as_slice(), b.1.as_slice()))
}

/// The texts of the blocks, taken in property order (see `sort_blocks`).
fn sorted_block_texts(blocks: Vec<(bool, Vec<char>, Vec<char>)>) -> (r: Vec<char>)
    ensures
        r@ == block_texts(sort_blocks(blocks@.map_values(|b: (bool, Vec<char>, Vec<char>)| block_view(b)))),
{
    let ghost all = blocks@.map_values(|b: (bool, Vec<char>, Vec<char>)| block_view(b));
    let mut rest = blocks;
    let mut out: Vec<char> = Vec::new();
    let ghost done: Seq<(bool, Seq<char>, Seq<char>)> = Seq::empty();
    while rest.len() > 0
        invariant
            out@ == block_texts(done),
            done + sort_blocks(rest@.map_values(|b: (bool, Vec<char>, Vec<char>)| block_view(b))) == sort_blocks(all),
        decreases rest@.len(),
    {
        let ghost rv = rest@.map_values(|b: (bool, Vec<char>, Vec<char>)| block_view(b));
        let mut m: usize = 0;
        let mut j: usize = 1;
        while j < rest.len()
            invariant
                1 <= j <= rest@.len(),
                rv == rest@.map_values(|b: (bool, Vec<char>, Vec<char>)| block_view(b)),
                m == min_index(rv, j as int),
                m < j,
            decreases rest@.len() - j,
        {
            if block_less(&rest[j], &rest[m]) {
                m = j;
            }
            j = j + 1;
        }
        let b = rest.remove(m);
        proof {
            assert(rest@.map_values(|b: (bool, Vec<char>, Vec<char>)| block_view(b)) =~= rv.remove(m as int));
            assert(done.push(rv[m as int]) + sort_blocks(rv.remove(m as int)) =~= done + sort_blocks(rv));
            assert(done.push(rv[m as int]).drop_last() =~= done);
            done = done.push(rv[m as int]);
        }
        append_chars(&mut out, b.2.as_slice());
    }
    proof {
        assert(sort_blocks(rest@.map_values(|b: (bool, Vec<char>, Vec<char>)| block_view(b))).len() == 0);
        assert(done =~= sort_blocks(all));
    }
    out
}

// endregion: --- Property blocks


// region:    --- Type renderer

/// `any`.
fn any_string() -> (r: String)
    ensures
        r@ == any_name(),
{
    let r = String::from_str("any");
    proof {
        reveal_strlit("any");
    }
    r
}

/// The TypeScript-like type expression of a JSON schema value (see
/// `render_spec`).
pub fn render_value(v: &JsonValue) -> (r: String)
    ensures
        r@ == render_spec(*v),
    decreases v,
{
    match v {
        JsonValue::Object(es) => {
            match key_lookup(es, "$ref") {
                Some(i) => return render_ref(&es[i].1),
                None => {},
            }
            match key_lookup(es, "oneOf") {
                Some(i) => return render_union(&es[i].1),
                None => {},
            }
            match key_lookup(es, "anyOf") {
                Some(i) => return render_union(&es[i].1),
                None => {},
            }
            match key_lookup(es, "enum") {
                Some(i) => return render_enum(&es[i].1),
                None => {},
            }
            match key_lookup(es, "type") {
                Some(i) => match &es[i].1 {
                    JsonValue::String(n) => match try_primitive_type_name(n.as_str()) {
                        Some(p) => String::from_str(p),
                        None => {
                            proof {
                                reveal_strlit("object");
                                reveal_strlit("array");
                            }
                            if is_text(n.as_str(), "object") {
                                render_object_schema(es)
                            } else if is_text(n.as_str(), "array") {
                                render_array(es)
                            } else {
                                any_string()
                            }
                        },
                    },
                    JsonValue::Array(list) => render_type_list(list),
                    _ => any_string(),
                },
                None => any_string(),
            }
        },
        _ => any_string(),
    }
}

/// A union (see `union_spec`).
fn render_union(u: &JsonValue) -> (r: String)
    ensures
        r@ == union_spec(*u),
    decreases u,
{
    match u {
        JsonValue::Array(items) => {
            let mut out = String::new();
            let mut i: usize = 0;
            while i < items.len()
                invariant
                    i <= items@.len(),
                    *u is Array && (*u)->Array_0 == *items,
                    out@ == union_list(items@.subrange(0, i as int)),
                decreases items@.len() - i,
            {
                let ghost sub = items@.subrange(0, i + 1);
                assert(sub.subrange(0, sub.len() - 1) =~= items@.subrange(0, i as int));
                if i > 0 {
                    push_str(&mut out, " | ");
                    proof {
                        reveal_strlit(" | ");
                    }
                }
                let t = render_value(&items[i]);
                push_str(&mut out, t.as_str());
                i = i + 1;
            }
            assert(items@.subrange(0, items@.len() as int) =~= items@);
            out
        },
        _ => any_string(),
    }
}

/// The names of a `type` list (see `type_list_spec`).
fn render_type_list(list: &Vec<JsonValue>) -> (r: String)
    ensures
        r@ == type_list_spec(list@),
    decreases list@,
{
    let mut out = String::new();
    let mut i: usize = 0;
    while i < list.len()
        invariant
            i <= list@.len(),
            out@ == type_list_spec(list@.subrange(0, i as int)),
        decreases list@.len() - i,
    {
        let ghost sub = list@.subrange(0, i + 1);
        assert(sub.subrange(0, sub.len() - 1) =~= list@.subrange(0, i as int));
        if i > 0 {
            push_str(&mut out, " | ");
            proof {
                reveal_strlit(" | ");
            }
        }
        let t = match &list[i] {
            JsonValue::String(n) => match try_primitive_type_name(n.as_str()) {
                Some(p) => String::from_str(p),
                None => render_value(&list[i]),
            },
            _ => render_value(&list[i]),
        };
        push_str(&mut out, t.as_str());
        i = i + 1;
    }
    assert(list@.subrange(0, list@.len() as int) =~= list@);
    out
}

/// An array schema (see `array_spec`).
fn render_array(es: &Vec<(String, JsonValue)>) -> (r: String)
    ensures
        r@ == array_spec(es@),
    decreases es@,
{
    match key_lookup(es, "items") {
        Some(i) => {
            let mut out = String::from_str("Array<");
            let t = render_value(&es[i].1);
            push_str(&mut out, t.as_str());
            push_char(&mut out, '>');
            proof {
                reveal_strlit("Array<");
            }
            out
        },
        None => {
            let out = String::from_str("any[]");
            proof {
                reveal_strlit("any[]");
            }
            out
        },
    }
}

/// The properties of an object schema (see `object_spec`).
fn render_object_schema(es: &Vec<(String, JsonValue)>) -> (r: String)
    ensures
        r@ == object_spec(es@),
    decreases es@,
{
    let null_v = JsonValue::Null;
    let required: &JsonValue = match key_lookup(es, "required") {
        Some(i) => &es[i].1,
        None => &null_v,
    };
    proof {
        reveal_strlit("{}");
    }
    match key_lookup(es, "properties") {
        Some(ip) => match &es[ip].1 {
            JsonValue::Object(pes) => {
                if pes.len() == 0 {
                    return String::from_str("{}");
                }
                let mut blocks: Vec<(bool, Vec<char>, Vec<char>)> = Vec::new();
                let mut j: usize = 0;
                while j < pes.len()
                    invariant
                        j <= pes@.len(),
                        ip < es@.len(),
                        es@[ip as int].1 is Object && es@[ip as int].1->Object_0 == *pes,
                        blocks@.map_values(|b: (bool, Vec<char>, Vec<char>)| block_view(b)) == prop_blocks(
                            pes@.subrange(0, j as int),
                            *required,
                        ),
                    decreases pes@.len() - j,
                {
                    let ghost sub = pes@.subrange(0, j + 1);
                    assert(sub.subrange(0, sub.len() - 1) =~= pes@.subrange(0, j as int));
                    let ghost before = blocks@.map_values(|b: (bool, Vec<char>, Vec<char>)| block_view(b));
                    let t = render_value(&pes[j].1);
                    let b = property_block(pes[j].0.as_str(), &pes[j].1, required, t.as_str());
                    blocks.push(b);
                    assert(blocks@.map_values(|b: (bool, Vec<char>, Vec<char>)| block_view(b)) =~= before.push(
                        block_view(b),
                    ));
                    j = j + 1;
                }
                assert(pes@.subrange(0, pes@.len() as int) =~= pes@);
                let texts = sorted_block_texts(blocks);
                let mut out = String::new();
                push_char(&mut out, '{');
                push_char(&mut out, '\n');
                crate::base::chars::push_chars(&mut out, texts.as_slice());
                push_char(&mut out, '}');
                out
            },
            _ => String::from_str("{}"),
        },
        None => String::from_str("{}"),
    }
}

// endregion: --- Type renderer


// region:    --- Type blocks

/// Each line of a description as a `// ` comment line.
pub open spec fn root_comment(ls: Seq<Seq<char>>) -> Seq<char>
    decreases ls.len(),
{
    if ls.len() == 0 {
        Seq::empty()
    } else {
        root_comment(ls.drop_last()) + "// "@ + ls.last() + seq!['\n']
    }
}

/// A type alias block: the schema's description as comment lines (when
/// asked for and present), then `type name = expression;`.
pub open spec fn type_block_spec(v: JsonValue, name: Seq<char>, include_desc: bool) -> Seq<char> {
    let c = if include_desc {
        match description_of(v) {
            Some(d) => root_comment(lines_spec(d)),
            None => Seq::empty(),
        }
    } else {
        Seq::empty()
    };
    c + "type "@ + name + " = "@ + render_spec(v) + seq![';', '\n']
}

/// The type expression of a schema.
pub fn render_type(schema: &JsonValue) -> (r: String)
    ensures
        r@ == render_spec(*schema),
{
    render_value(schema)
}

/// Renders a type alias block for a schema (see `type_block_spec`).
pub fn render_type_block(schema: &JsonValue, name: &str, include_desc: bool) -> (r: String)
    ensures
        r@ == type_block_spec(*schema, name@, include_desc),
{
    let mut out: Vec<char> = Vec::new();
    if include_desc {
        match schema {
            JsonValue::Object(es) => match key_lookup(es, "description") {
                Some(i) => match &es[i].1 {
                    JsonValue::String(d) => {
                        let dv = chars_of(d.as_str());
                        let ls = lines_of(dv.as_slice());
                        let ghost lsv = lines_spec(d@);
                        let prefix: Vec<char> = vec!['/', '/', ' '];
                        assert(prefix@ =~= "// "@) by {
                            reveal_strlit("// ");
                        }
                        let mut j: usize = 0;
                        while j < ls.len()
                            invariant
                                j <= ls@.len() == lsv.len(),
                                lsv == lines_spec(d@),
                                prefix@ == "// "@,
                                forall|x: int| 0 <= x < ls@.len() ==> #[trigger] ls@[x]@ == lsv[x],
                                out@ == root_comment(lsv.take(j as int)),
                            decreases ls@.len() - j,
                        {
                            assert(lsv.take(j + 1).drop_last() =~= lsv.take(j as int));
                            append_chars(&mut out, prefix.as_slice());
                            append_chars(&mut out, ls[j].as_slice());
                            out.push('\n');
                            j = j + 1;
                        }
                        assert(lsv.take(lsv.len() as int) =~= lsv);
                    },
                    _ => {},
                },
                None => {},
            },
            _ => {},
        }
    }
    let ghost c = out@;
    let head: Vec<char> = vec!['t', 'y', 'p', 'e', ' '];
    let eq: Vec<char> = vec![' ', '=', ' '];
    proof {
        reveal_strlit("type ");
        reveal_strlit(" = ");
    }
    append_chars(&mut out, head.as_slice());
    let nv = chars_of(name);
    append_chars(&mut out, nv.as_slice());
    append_chars(&mut out, eq.as_slice());
    let t = render_value(schema);
    let tv = chars_of(t.as_str());
    append_chars(&mut out, tv.as_slice());
    out.push(';');
    out.push('\n');
    assert(out@ =~= c + "type "@ + name@ + " = "@ + render_spec(*schema) + seq![';', '\n']);
    string_from_chars(out.as_slice())
}


/// The description of a schema: its `description`, when that is a string.
pub fn schema_description(schema: &JsonValue) -> (r: Option<String>)
    ensures
        opt_view(r) == description_of(*schema),
{
    match schema {
        JsonValue::Object(es) => match key_lookup(es, "description") {
            Some(i) => match &es[i].1 {
                JsonValue::String(d) => Some(d.clone()),
                _ => None,
            },
            None => None,
        },
        _ => None,
    }
}

// endregion: --- Type blocks

} // verus!
