//! The pieces of a local HTTP test server that compute: reading a request
//! into a snapshot, framing the configured response, and the builder that
//! holds that configuration. Listening, reading and writing stay with the
//! caller.

use vstd::prelude::*;
use vstd::utf8::{decode_utf8, encode_utf8, valid_utf8};

use crate::base::chars::{
    chars_of, chars_range, find_seq, first_index, lemma_first_index_is, push_chars, push_str, same_chars,
    string_from_chars,
};
use crate::base::lines::{lines_of, lines_spec};
use crate::base::number_text::{decimal, decimal_chars, parse_unsigned, parse_unsigned_spec};
use crate::base::text::{is_white_space, is_whitespace_char, trim_spec, trimmed_chars};
use crate::base::pairs::{char_pairs, find_pair, lookup, Pairs};
use crate::error::{is_custom_error, owned, Error, Result};

verus! {

// region:    --- Outside calls

/// The characters `String::from_utf8_lossy` gives for `bytes`: the decoded
/// text, with each invalid sequence replaced by U+FFFD.
pub uninterp spec fn utf8_lossy(bytes: Seq<u8>) -> Seq<char>;

/// std's `str::from_utf8`, as an owned string. Its documentation: the bytes
/// are accepted exactly when they are valid UTF-8, and then the string holds
/// the characters they encode.
#[verifier::external_body]
fn str_from_utf8(bytes: &[u8]) -> (r: Option<String>)
    ensures
        r is Some <==> valid_utf8(bytes@),
        r matches Some(s) ==> s@ == decode_utf8(bytes@),
{
    std::str::from_utf8(bytes).ok().map(|s| s.to_string())
}

/// std's `String::from_utf8_lossy`, as an owned string. Its documentation:
/// valid UTF-8 decodes as `str::from_utf8` would; each invalid sequence
/// becomes U+FFFD. How invalid sequences are cut up is left unstated here.
#[verifier::external_body]
fn string_from_utf8_lossy(bytes: &[u8]) -> (r: String)
    ensures
        r@ == utf8_lossy(bytes@),
        valid_utf8(bytes@) ==> r@ == decode_utf8(bytes@),
{
    String::from_utf8_lossy(bytes).to_string()
}

// endregion: --- Outside calls

// region:    --- Byte helpers

/// The bytes `\r\n\r\n` that end the head of a request.
pub open spec fn double_crlf() -> Seq<u8> {
    seq![13u8, 10u8, 13u8, 10u8]
}

/// `\r\n\r\n` starts at `i`.
pub open spec fn double_crlf_at(b: Seq<u8>, i: int) -> bool {
    0 <= i && i + 4 <= b.len() && b.subrange(i, i + 4) == double_crlf()
}

/// `i` is the first index where `\r\n\r\n` starts.
pub open spec fn is_head_end(b: Seq<u8>, i: int) -> bool {
    double_crlf_at(b, i) && forall|j: int| 0 <= j < i ==> !double_crlf_at(b, j)
}

/// Where the head of a request ends: the first `\r\n\r\n`, if any.
pub open spec fn head_end(b: Seq<u8>) -> Option<int> {
    if exists|i: int| is_head_end(b, i) {
        Some(choose|i: int| is_head_end(b, i))
    } else {
        None
    }
}

/// The first `\r\n\r\n` of `b`, if any.
fn find_head_end(b: &[u8]) -> (r: Option<usize>)
    ensures
        match r {
            Some(i) => head_end(b@) == Some(i as int),
            None => head_end(b@) is None,
        },
{
    if b.len() < 4 {
        assert(forall|i: int| !is_head_end(b@, i));
        return None;
    }
    let last = b.len() - 4;
    let mut i: usize = 0;
    while i <= last
        invariant
            last + 4 == b@.len(),
            forall|j: int| 0 <= j < i ==> !double_crlf_at(b@, j),
        decreases last + 1 - i,
    {
        if b[i] == 13 && b[i + 1] == 10 && b[i + 2] == 13 && b[i + 3] == 10 {
            assert(b@.subrange(i as int, i + 4) =~= double_crlf());
            assert(is_head_end(b@, i as int));
            let ghost c = choose|k: int| is_head_end(b@, k);
            assert(c == i) by {
                if c < i {
                } else if c > i {
                }
            }
            return Some(i);
        }
        assert(!double_crlf_at(b@, i as int)) by {
            if double_crlf_at(b@, i as int) {
                assert(b@.subrange(i as int, i + 4)[0] == b@[i as int]);
                assert(b@.subrange(i as int, i + 4)[1] == b@[i + 1]);
                assert(b@.subrange(i as int, i + 4)[2] == b@[i + 2]);
                assert(b@.subrange(i as int, i + 4)[3] == b@[i + 3]);
            }
        }
        i = i + 1;
    }
    assert(forall|j: int| !is_head_end(b@, j));
    None
}

/// The bytes `b[from..to]`, as a vector.
fn bytes_range(b: &[u8], from: usize, to: usize) -> (r: Vec<u8>)
    requires
        from <= to <= b@.len(),
    ensures
        r@ == b@.subrange(from as int, to as int),
{
    let mut r: Vec<u8> = Vec::new();
    let mut i: usize = from;
    while i < to
        invariant
            from <= i <= to <= b@.len(),
            r@ == b@.subrange(from as int, i as int),
        decreases to - i,
    {
        r.push(b[i]);
        i = i + 1;
    }
    r
}

/// Appends the bytes of `t` to `v`.
fn append_bytes(v: &mut Vec<u8>, t: &[u8])
    ensures
        final(v)@ == old(v)@ + t@,
{
    let mut i: usize = 0;
    while i < t.len()
        invariant
            i <= t@.len(),
            v@ == old(v)@ + t@.subrange(0, i as int),
        decreases t@.len() - i,
    {
        v.push(t[i]);
        i = i + 1;
    }
}

// endregion: --- Byte helpers

// region:    --- Words

/// The words of `s` as `str::split_whitespace` yields them: the maximal runs
/// of characters that are not white space.
pub open spec fn words(s: Seq<char>) -> Seq<Seq<char>>
    decreases s.len(),
{
    if s.len() == 0 {
        Seq::empty()
    } else {
        let p = words(s.drop_last());
        let c = s.last();
        if is_white_space(c) {
            p
        } else if s.len() >= 2 && !is_white_space(s[s.len() - 2]) {
            p.update(p.len() - 1, p.last().push(c))
        } else {
            p.push(seq![c])
        }
    }
}

/// The words of `s`.
fn words_of(s: &[char]) -> (r: Vec<Vec<char>>)
    ensures
        r@.len() == words(s@).len(),
        forall|i: int| 0 <= i < r@.len() ==> #[trigger] r@[i]@ == words(s@)[i],
{
    let mut out: Vec<Vec<char>> = Vec::new();
    let mut i: usize = 0;
    assert(s@.take(0) =~= Seq::<char>::empty());
    while i < s.len()
        invariant
            i <= s@.len(),
            out@.len() == words(s@.take(i as int)).len(),
            forall|k: int| 0 <= k < out@.len() ==> #[trigger] out@[k]@ == words(s@.take(i as int))[k],
            (i > 0 && !is_white_space(s@[i - 1])) ==> out@.len() > 0,
        decreases s@.len() - i,
    {
        let ghost pre = s@.take(i as int);
        let ghost next = s@.take(i + 1);
        assert(next.drop_last() =~= pre);
        assert(next.last() == s@[i as int]);
        let c = s[i];
        if is_whitespace_char(c) {
        } else if i > 0 && !is_whitespace_char(s[i - 1]) {
            assert(next[next.len() - 2] == s@[i - 1]);
            let last = out.len() - 1;
            let mut w = out.pop().unwrap();
            w.push(c);
            out.push(w);
            assert forall|k: int| 0 <= k < out@.len() implies #[trigger] out@[k]@ == words(next)[k] by {
                if k < last {
                }
            }
        } else {
            if i > 0 {
                assert(next[next.len() - 2] == s@[i - 1]);
            }
            let mut w: Vec<char> = Vec::new();
            w.push(c);
            out.push(w);
            assert(out@[out@.len() - 1]@ =~= seq![c]);
        }
        i = i + 1;
    }
    assert(s@.take(s@.len() as int) =~= s@);
    out
}

// endregion: --- Words

// region:    --- Headers

/// `c` with an ASCII capital turned into its small letter.
pub open spec fn ascii_lower_char(c: char) -> char {
    if 'A' <= c <= 'Z' {
        ((c as u8) + 32) as char
    } else {
        c
    }
}

/// `s` with ASCII capitals turned into small letters (`str::to_ascii_lowercase`).
pub open spec fn ascii_lower(s: Seq<char>) -> Seq<char> {
    s.map_values(|c: char| ascii_lower_char(c))
}

/// The characters of `s` in ASCII lower case.
fn ascii_lower_chars(s: &[char]) -> (r: Vec<char>)
    ensures
        r@ == ascii_lower(s@),
{
    let mut out: Vec<char> = Vec::new();
    let mut i: usize = 0;
    while i < s.len()
        invariant
            i <= s@.len(),
            out@ == ascii_lower(s@.take(i as int)),
        decreases s@.len() - i,
    {
        let c = s[i];
        if 'A' <= c && c <= 'Z' {
            let lower = ((c as u8) + 32) as char;
            out.push(lower);
        } else {
            out.push(c);
        }
        assert(out@ =~= ascii_lower(s@.take(i + 1)));
        i = i + 1;
    }
    assert(s@.take(s@.len() as int) =~= s@);
    out
}

/// Header entries: a name and a value.
pub type HeaderPairs = Pairs;

/// `hs` with the value of `k` set to `v`: the entry of `k` is replaced where
/// there is one, else `(k, v)` is appended.
pub open spec fn upsert(hs: HeaderPairs, k: Seq<char>, v: Seq<char>) -> HeaderPairs
    decreases hs.len(),
{
    if hs.len() == 0 {
        seq![(k, v)]
    } else if hs[0].0 == k {
        hs.update(0, (k, v))
    } else {
        seq![hs[0]] + upsert(hs.drop_first(), k, v)
    }
}

/// No two entries have the same name.
pub open spec fn names_unique(hs: HeaderPairs) -> bool {
    forall|i: int, j: int| 0 <= i < j < hs.len() ==> hs[i].0 != hs[j].0
}

/// The header a line holds: the part before the first `:`, trimmed and in
/// ASCII lower case, and the part after it, trimmed. A line without `:`
/// holds none.
pub open spec fn header_entry(line: Seq<char>) -> Option<(Seq<char>, Seq<char>)> {
    match first_index(line, seq![':']) {
        Some(i) => Some((ascii_lower(trim_spec(line.take(i))), trim_spec(line.skip(i + 1)))),
        None => None,
    }
}

/// The headers of the header lines, a later value of a name replacing an
/// earlier one.
pub open spec fn header_pairs(ls: Seq<Seq<char>>) -> HeaderPairs
    decreases ls.len(),
{
    if ls.len() == 0 {
        Seq::empty()
    } else {
        let hs = header_pairs(ls.drop_last());
        match header_entry(ls.last()) {
            Some(e) => upsert(hs, e.0, e.1),
            None => hs,
        }
    }
}

/// The number of lines before the first empty line.
pub open spec fn first_empty(ls: Seq<Seq<char>>) -> nat
    decreases ls.len(),
{
    if ls.len() == 0 || ls[0].len() == 0 {
        0
    } else {
        1 + first_empty(ls.drop_first())
    }
}

/// `first_empty` is the index of the first empty line (or the length).
proof fn lemma_first_empty_is(ls: Seq<Seq<char>>, k: int)
    requires
        0 <= k <= ls.len(),
        forall|j: int| 0 <= j < k ==> #[trigger] ls[j].len() > 0,
        k == ls.len() || ls[k].len() == 0,
    ensures
        first_empty(ls) == k,
    decreases k,
{
    if k > 0 {
        let t = ls.drop_first();
        assert forall|j: int| 0 <= j < k - 1 implies #[trigger] t[j].len() > 0 by {
            assert(t[j] == ls[j + 1]);
        }
        if k < ls.len() {
            assert(t[k - 1] == ls[k]);
        }
        lemma_first_empty_is(t, k - 1);
    }
}

/// Upserting at the first entry of `k` replaces that entry.
proof fn lemma_upsert_at(hs: HeaderPairs, k: Seq<char>, v: Seq<char>, i: int)
    requires
        0 <= i < hs.len(),
        hs[i].0 == k,
        forall|j: int| 0 <= j < i ==> #[trigger] hs[j].0 != k,
    ensures
        upsert(hs, k, v) == hs.update(i, (k, v)),
    decreases i,
{
    if i > 0 {
        let t = hs.drop_first();
        assert forall|j: int| 0 <= j < i - 1 implies #[trigger] t[j].0 != k by {
            assert(t[j] == hs[j + 1]);
        }
        lemma_upsert_at(t, k, v, i - 1);
        assert(seq![hs[0]] + t.update(i - 1, (k, v)) =~= hs.update(i, (k, v)));
    }
}

/// Upserting a name that is not there appends an entry.
proof fn lemma_upsert_new(hs: HeaderPairs, k: Seq<char>, v: Seq<char>)
    requires
        forall|j: int| 0 <= j < hs.len() ==> #[trigger] hs[j].0 != k,
    ensures
        upsert(hs, k, v) == hs.push((k, v)),
    decreases hs.len(),
{
    if hs.len() > 0 {
        let t = hs.drop_first();
        assert forall|j: int| 0 <= j < t.len() implies #[trigger] t[j].0 != k by {
            assert(t[j] == hs[j + 1]);
        }
        lemma_upsert_new(t, k, v);
        assert(seq![hs[0]] + t.push((k, v)) =~= hs.push((k, v)));
    }
}

/// Law: setting a value keeps names unique, makes the name give that value,
/// and leaves every other name's value as it was.
pub proof fn law_upsert_lookup(hs: HeaderPairs, k: Seq<char>, v: Seq<char>, other: Seq<char>)
    requires
        names_unique(hs),
    ensures
        names_unique(upsert(hs, k, v)),
        lookup(upsert(hs, k, v), k) == Some(v),
        other != k ==> lookup(upsert(hs, k, v), other) == lookup(hs, other),
    decreases hs.len(),
{
    if hs.len() == 0 {
        let e = Seq::<(Seq<char>, Seq<char>)>::empty();
        assert(seq![(k, v)].drop_first() =~= e);
        assert(lookup(e, other) is None);
    } else if hs[0].0 == k {
        let u = hs.update(0, (k, v));
        assert(u.drop_first() =~= hs.drop_first());
    } else {
        let t = hs.drop_first();
        assert(names_unique(t)) by {
            assert forall|i: int, j: int| 0 <= i < j < t.len() implies t[i].0 != t[j].0 by {
                assert(t[i] == hs[i + 1] && t[j] == hs[j + 1]);
            }
        }
        law_upsert_lookup(t, k, v, other);
        let u = seq![hs[0]] + upsert(t, k, v);
        assert(u.drop_first() =~= upsert(t, k, v));
        lemma_upsert_names(t, k, v);
        assert forall|i: int, j: int| 0 <= i < j < u.len() implies u[i].0 != u[j].0 by {
            if i == 0 {
                assert(u[j] == upsert(t, k, v)[j - 1]);
                let w = upsert(t, k, v)[j - 1];
                if w.0 != k {
                    let m = choose|m: int| 0 <= m < t.len() && t[m].0 == w.0;
                    assert(t[m] == hs[m + 1]);
                }
            } else {
                assert(u[i] == upsert(t, k, v)[i - 1] && u[j] == upsert(t, k, v)[j - 1]);
            }
        }
    }
}

/// Every name of an upserted list is `k` or a name that was there.
proof fn lemma_upsert_names(hs: HeaderPairs, k: Seq<char>, v: Seq<char>)
    ensures
        forall|j: int| 0 <= j < upsert(hs, k, v).len() ==> #[trigger] upsert(hs, k, v)[j].0 == k || exists|m: int|
            0 <= m < hs.len() && hs[m].0 == upsert(hs, k, v)[j].0,
    decreases hs.len(),
{
    if hs.len() == 0 {
    } else if hs[0].0 == k {
        assert forall|j: int| 0 <= j < upsert(hs, k, v).len() implies #[trigger] upsert(hs, k, v)[j].0 == k
            || exists|m: int| 0 <= m < hs.len() && hs[m].0 == upsert(hs, k, v)[j].0 by {
            if j > 0 {
                assert(hs[j].0 == upsert(hs, k, v)[j].0);
            }
        }
    } else {
        let t = hs.drop_first();
        lemma_upsert_names(t, k, v);
        let u = upsert(hs, k, v);
        assert forall|j: int| 0 <= j < u.len() implies #[trigger] u[j].0 == k || exists|m: int|
            0 <= m < hs.len() && hs[m].0 == u[j].0 by {
            if j == 0 {
                assert(hs[0].0 == u[0].0);
            } else {
                assert(u[j] == upsert(t, k, v)[j - 1]);
                if u[j].0 != k {
                    let m = choose|m: int| 0 <= m < t.len() && t[m].0 == upsert(t, k, v)[j - 1].0;
                    assert(hs[m + 1].0 == u[j].0);
                }
            }
        }
    }
}

/// Law: the headers of any lines have unique names.
pub proof fn law_header_names_unique(ls: Seq<Seq<char>>)
    ensures
        names_unique(header_pairs(ls)),
    decreases ls.len(),
{
    if ls.len() > 0 {
        law_header_names_unique(ls.drop_last());
        match header_entry(ls.last()) {
            Some(e) => law_upsert_lookup(header_pairs(ls.drop_last()), e.0, e.1, e.0),
            None => {},
        }
    }
}

/// Sets the value of `k` in `hs` (see `upsert`).
fn upsert_header(hs: &mut Vec<(Vec<char>, Vec<char>)>, k: Vec<char>, v: Vec<char>)
    ensures
        char_pairs(final(hs)@) == upsert(char_pairs(old(hs)@), k@, v@),
{
    let ghost before = char_pairs(hs@);
    let mut i: usize = 0;
    while i < hs.len()
        invariant
            i <= hs@.len(),
            before == char_pairs(hs@),
            before == char_pairs(old(hs)@),
            forall|j: int| 0 <= j < i ==> #[trigger] before[j].0 != k@,
        decreases hs@.len() - i,
    {
        if same_chars(hs[i].0.as_slice(), k.as_slice()) {
            proof {
                lemma_upsert_at(before, k@, v@, i as int);
            }
            let ghost kv = k@;
            let ghost vv = v@;
            hs.set(i, (k, v));
            assert(char_pairs(hs@) =~= before.update(i as int, (kv, vv)));
            return;
        }
        i = i + 1;
    }
    proof {
        lemma_upsert_new(before, k@, v@);
    }
    let ghost kv = k@;
    let ghost vv = v@;
    hs.push((k, v));
    assert(char_pairs(hs@) =~= before.push((kv, vv)));
}

// endregion: --- Headers

// region:    --- Request parsing

/// Snapshot of a single HTTP request, for use in validator callbacks.
pub struct RequestSnapshot {
    pub method: String,
    pub path: String,
    /// Header names, in ASCII lower case and each once, with their values.
    pub headers: Vec<(String, String)>,
    pub body: String,
}

/// The views of header entries held as strings.
pub open spec fn string_pairs(hs: Seq<(String, String)>) -> HeaderPairs {
    hs.map_values(|p: (String, String)| (p.0@, p.1@))
}

/// What a request is made of: method, path, headers and body.
pub type RequestModel = (Seq<char>, Seq<char>, HeaderPairs, Seq<char>);

impl RequestSnapshot {
    /// The snapshot's method, path, headers and body.
    pub open spec fn model(self) -> RequestModel {
        (self.method@, self.path@, string_pairs(self.headers@), self.body@)
    }

    /// The value of a header, by its lower-case name.
    pub fn header(&self, name: &str) -> (r: Option<String>)
        ensures
            match lookup(string_pairs(self.headers@), name@) {
                Some(v) => r matches Some(s) && s@ == v,
                None => r is None,
            },
    {
        let ghost cp = string_pairs(self.headers@);
        let k = chars_of(name);
        let mut i: usize = 0;
        assert(cp.skip(0) =~= cp);
        while i < self.headers.len()
            invariant
                i <= self.headers@.len(),
                cp == string_pairs(self.headers@),
                k@ == name@,
                lookup(cp, k@) == lookup(cp.skip(i as int), k@),
            decreases self.headers@.len() - i,
        {
            assert(cp.skip(i as int)[0] == cp[i as int]);
            let entry = &self.headers[i];
            let n = chars_of(entry.0.as_str());
            if same_chars(n.as_slice(), k.as_slice()) {
                return Some(entry.1.clone());
            }
            assert(cp.skip(i as int).drop_first() =~= cp.skip(i + 1));
            i = i + 1;
        }
        assert(cp.skip(i as int) =~= Seq::<(Seq<char>, Seq<char>)>::empty());
        None
    }
}

/// Why a request cannot be read.
#[derive(Debug, Clone, Copy, PartialEq, Eq, Structural)]
pub enum RequestParseFailure {
    MissingDoubleCrlf,
    NonUtf8Headers,
    EmptyRequest,
    MissingMethod,
    MissingPath,
}

/// The message of each failure.
pub open spec fn request_failure_message(f: RequestParseFailure) -> Seq<char> {
    match f {
        RequestParseFailure::MissingDoubleCrlf => "Invalid HTTP request: missing double CRLF"@,
        RequestParseFailure::NonUtf8Headers => "Non-UTF8 request headers"@,
        RequestParseFailure::EmptyRequest => "Empty request"@,
        RequestParseFailure::MissingMethod => "Missing method"@,
        RequestParseFailure::MissingPath => "Missing path"@,
    }
}

/// The body length that the headers announce: the `content-length` value
/// read as a `usize`, or zero when it is missing or unreadable.
pub open spec fn content_length(hs: HeaderPairs) -> nat {
    match lookup(hs, "content-length"@) {
        Some(v) => match parse_unsigned_spec(v, usize::MAX as nat) {
            Some(n) => n,
            None => 0,
        },
        None => 0,
    }
}

/// The body of a request: as many bytes after the head as the headers
/// announce (no more than there are), decoded lossily; nothing when they
/// announce none.
pub open spec fn request_body(rest: Seq<u8>, cl: nat) -> Seq<char> {
    if cl > 0 {
        utf8_lossy(announced_body(rest, cl))
    } else {
        Seq::empty()
    }
}

/// The bytes of a body: as many bytes after the head as the headers
/// announce, no more than there are.
pub open spec fn announced_body(rest: Seq<u8>, cl: nat) -> Seq<u8> {
    rest.take(if cl < rest.len() { cl as int } else { rest.len() as int })
}

/// The number of words on the first line of a request head (zero when it
/// has no line).
pub open spec fn request_line_words(head: Seq<u8>) -> nat {
    let ls = lines_spec(decode_utf8(head));
    if ls.len() == 0 {
        0
    } else {
        words(ls[0]).len()
    }
}

/// A header name as a request gives it: some text trimmed and put in ASCII
/// lower case.
pub open spec fn is_normal_name(n: Seq<char>) -> bool {
    exists|t: Seq<char>| n == #[trigger] ascii_lower(trim_spec(t))
}

/// Every header name of header lines is trimmed and in ASCII lower case.
proof fn lemma_header_names_normal(ls: Seq<Seq<char>>)
    ensures
        forall|j: int| 0 <= j < header_pairs(ls).len() ==> is_normal_name(#[trigger] header_pairs(ls)[j].0),
    decreases ls.len(),
{
    if ls.len() > 0 {
        let p = header_pairs(ls.drop_last());
        lemma_header_names_normal(ls.drop_last());
        match header_entry(ls.last()) {
            Some(e) => {
                lemma_upsert_names(p, e.0, e.1);
                let line = ls.last();
                let i = first_index(line, seq![':'])->0;
                assert(e.0 == ascii_lower(trim_spec(line.take(i))));
                assert(is_normal_name(e.0));
                let u = upsert(p, e.0, e.1);
                assert forall|j: int| 0 <= j < u.len() implies is_normal_name(#[trigger] u[j].0) by {
                    if u[j].0 != e.0 {
                        let m = choose|m: int| 0 <= m < p.len() && p[m].0 == u[j].0;
                        assert(is_normal_name(p[m].0));
                    }
                }
            },
            None => {},
        }
    }
}

/// Law: reading a request fails exactly when it has no `\r\n\r\n`, when its
/// head is not UTF-8, or when its first line has fewer than two words.
/// Otherwise the method and path are those two words, the header names
/// are trimmed, in ASCII lower case and each given once, and the body is
/// the bytes after the head, as many as `content-length` announces,
/// decoded lossily.
pub proof fn law_parse_request(buf: Seq<u8>)
    ensures
        parse_request_spec(buf) is Err <==> match head_end(buf) {
            None => true,
            Some(e) => !valid_utf8(buf.take(e)) || request_line_words(buf.take(e)) < 2,
        },
        parse_request_spec(buf) is Ok ==> ({
            let m = parse_request_spec(buf)->Ok_0;
            let e = head_end(buf)->0;
            let first = lines_spec(decode_utf8(buf.take(e)))[0];
            &&& head_end(buf) is Some
            &&& m.0 == words(first)[0]
            &&& m.1 == words(first)[1]
            &&& names_unique(m.2)
            &&& forall|j: int| 0 <= j < m.2.len() ==> is_normal_name(#[trigger] m.2[j].0)
            &&& m.3 == request_body(buf.skip(e + 4), content_length(m.2))
        }),
{
    if parse_request_spec(buf) is Ok {
        let e = head_end(buf)->0;
        let ls = lines_spec(decode_utf8(buf.take(e)));
        let rest = ls.drop_first();
        law_header_names_unique(rest.take(first_empty(rest) as int));
        lemma_header_names_normal(rest.take(first_empty(rest) as int));
    }
}

/// How a request reads: the head ends at the first `\r\n\r\n` and must be
/// UTF-8; its first line holds the method and path as its first two words;
/// the lines after it, up to the first empty one, hold the headers; the body
/// follows the head.
pub open spec fn parse_request_spec(buf: Seq<u8>) -> core::result::Result<RequestModel, RequestParseFailure> {
    match head_end(buf) {
        None => Err(RequestParseFailure::MissingDoubleCrlf),
        Some(e) => {
            let head = buf.take(e);
            if !valid_utf8(head) {
                Err(RequestParseFailure::NonUtf8Headers)
            } else {
                let ls = lines_spec(decode_utf8(head));
                if ls.len() == 0 {
                    Err(RequestParseFailure::EmptyRequest)
                } else {
                    let ws = words(ls[0]);
                    if ws.len() == 0 {
                        Err(RequestParseFailure::MissingMethod)
                    } else if ws.len() == 1 {
                        Err(RequestParseFailure::MissingPath)
                    } else {
                        let rest = ls.drop_first();
                        let hs = header_pairs(rest.take(first_empty(rest) as int));
                        Ok((ws[0], ws[1], hs, request_body(buf.skip(e + 4), content_length(hs))))
                    }
                }
            }
        }
    }
}

/// Reads a raw HTTP request into a snapshot.
pub fn parse_request(buf: &[u8]) -> (r: Result<RequestSnapshot>)
    ensures
        match parse_request_spec(buf@) {
            Ok(m) => r matches Ok(s) && s.model() == m,
            Err(f) => r matches Err(e) && is_custom_error(e, request_failure_message(f)),
        },
        r matches Ok(s) ==> (head_end(buf@) is Some && content_length(s.model().2) > 0 && valid_utf8(
            announced_body(buf@.skip(head_end(buf@)->0 + 4), content_length(s.model().2)),
        ) ==> s.model().3 == decode_utf8(
            announced_body(buf@.skip(head_end(buf@)->0 + 4), content_length(s.model().2)),
        )),
{
    let end = match find_head_end(buf) {
        Some(e) => e,
        None => return Err(Error::custom("Invalid HTTP request: missing double CRLF")),
    };
    assert(double_crlf_at(buf@, end as int)) by {
        let c = choose|i: int| is_head_end(buf@, i);
        assert(is_head_end(buf@, c));
    }
    let total = buf.len();
    assert(end + 4 <= total);
    let start = end + 4;
    let head = bytes_range(buf, 0, end);
    assert(head@ =~= buf@.take(end as int));
    let text = match str_from_utf8(head.as_slice()) {
        Some(t) => t,
        None => return Err(Error::custom("Non-UTF8 request headers")),
    };
    let tv = chars_of(text.as_str());
    let ls = lines_of(tv.as_slice());
    let ghost lines = lines_spec(tv@);
    if ls.len() == 0 {
        return Err(Error::custom("Empty request"));
    }
    let ws = words_of(ls[0].as_slice());
    if ws.len() == 0 {
        return Err(Error::custom("Missing method"));
    }
    if ws.len() == 1 {
        return Err(Error::custom("Missing path"));
    }
    // -- Headers
    let ghost rest = lines.drop_first();
    let colon: Vec<char> = vec![':'];
    assert(colon@ =~= seq![':']);
    let mut hs: Vec<(Vec<char>, Vec<char>)> = Vec::new();
    let mut k: usize = 1;
    assert(rest.take(0) =~= Seq::<Seq<char>>::empty());
    while k < ls.len() && ls[k].len() > 0
        invariant
            1 <= k <= ls@.len() == lines.len(),
            rest == lines.drop_first(),
            forall|j: int| 0 <= j < ls@.len() ==> #[trigger] ls@[j]@ == lines[j],
            forall|j: int| 0 <= j < k - 1 ==> #[trigger] rest[j].len() > 0,
            colon@ == seq![':'],
            char_pairs(hs@) == header_pairs(rest.take(k - 1)),
        decreases ls@.len() - k,
    {
        let line = &ls[k];
        assert(rest[k - 1] == line@);
        assert(rest.take(k as int).drop_last() =~= rest.take(k - 1));
        assert(rest.take(k as int).last() == line@);
        match find_seq(line.as_slice(), colon.as_slice()) {
            Some(i) => {
                proof {
                    lemma_first_index_is(line@, seq![':'], i as int);
                }
                let before = chars_range(line.as_slice(), 0, i);
                let after = chars_range(line.as_slice(), i + 1, line.len());
                assert(before@ =~= line@.take(i as int));
                assert(after@ =~= line@.skip(i + 1));
                let name_t = trimmed_chars(before.as_slice());
                let name = ascii_lower_chars(name_t.as_slice());
                let value = trimmed_chars(after.as_slice());
                upsert_header(&mut hs, name, value);
            },
            None => {},
        }
        k = k + 1;
    }
    proof {
        if k < ls@.len() {
            assert(rest[k - 1] == lines[k as int]);
        }
        lemma_first_empty_is(rest, k - 1);
    }
    let ghost hsv = header_pairs(rest.take(first_empty(rest) as int));
    // -- Body
    let name_v = chars_of("content-length");
    let cl: usize = match find_pair(&hs, name_v.as_slice()) {
        Some(i) => match parse_unsigned(hs[i].1.as_slice(), usize::MAX as u64) {
            Some(n) => n as usize,
            None => 0,
        },
        None => 0,
    };
    assert(cl == content_length(hsv));
    let ghost rest_bytes = buf@.skip(start as int);
    let body = if cl > 0 {
        let avail = buf.len() - start;
        let m = if cl < avail {
            cl
        } else {
            avail
        };
        let bytes = bytes_range(buf, start, start + m);
        assert(bytes@ =~= rest_bytes.take(m as int));
        string_from_utf8_lossy(bytes.as_slice())
    } else {
        String::new()
    };
    // -- Snapshot
    let method = string_from_chars(ws[0].as_slice());
    let path = string_from_chars(ws[1].as_slice());
    let mut headers: Vec<(String, String)> = Vec::new();
    let mut j: usize = 0;
    while j < hs.len()
        invariant
            j <= hs@.len(),
            string_pairs(headers@) == char_pairs(hs@).take(j as int),
        decreases hs@.len() - j,
    {
        let entry = &hs[j];
        let n = string_from_chars(entry.0.as_slice());
        let v = string_from_chars(entry.1.as_slice());
        assert(char_pairs(hs@)[j as int] == (entry.0@, entry.1@));
        let ghost before = headers@;
        headers.push((n, v));
        assert(headers@ == before.push((n, v)));
        assert(string_pairs(headers@) =~= string_pairs(before).push((n@, v@)));
        assert(string_pairs(headers@) =~= char_pairs(hs@).take(j + 1));
        j = j + 1;
    }
    assert(char_pairs(hs@).take(hs@.len() as int) =~= char_pairs(hs@));
    Ok(RequestSnapshot { method, path, headers, body })
}

// endregion: --- Request parsing

// region:    --- Response

/// The header lines of a response: `name: value` and `\r\n` for each entry.
pub open spec fn header_block(hs: HeaderPairs) -> Seq<char>
    decreases hs.len(),
{
    if hs.len() == 0 {
        Seq::empty()
    } else {
        header_block(hs.drop_last()) + hs.last().0 + ": "@ + hs.last().1 + "\r\n"@
    }
}

/// The head of a response: the status line, the header lines, the
/// `Content-Length` line and an empty line.
pub open spec fn response_head(status: u16, hs: HeaderPairs, body_len: nat) -> Seq<char> {
    "HTTP/1.1 "@ + decimal(status as nat) + " OK\r\n"@ + header_block(hs) + "Content-Length: "@ + decimal(
        body_len,
    ) + "\r\n\r\n"@
}

/// The bytes of a response: its head in UTF-8, then the body.
pub open spec fn response_bytes(status: u16, hs: HeaderPairs, body: Seq<u8>) -> Seq<u8> {
    encode_utf8(response_head(status, hs, body.len())) + body
}

/// Frames the response the server sends for every request.
pub fn build_response(status: u16, headers: &[(String, String)], body: &[u8]) -> (r: Vec<u8>)
    ensures
        r@ == response_bytes(status, string_pairs(headers@), body@),
{
    let ghost hs = string_pairs(headers@);
    let mut s = String::new();
    push_str(&mut s, "HTTP/1.1 ");
    let code = decimal_chars(status as u64);
    push_chars(&mut s, code.as_slice());
    push_str(&mut s, " OK\r\n");
    let ghost start = s@;
    let mut i: usize = 0;
    assert(hs.take(0) =~= Seq::<(Seq<char>, Seq<char>)>::empty());
    assert(start =~= start + header_block(hs.take(0)));
    while i < headers.len()
        invariant
            i <= headers@.len(),
            hs == string_pairs(headers@),
            s@ == start + header_block(hs.take(i as int)),
        decreases headers@.len() - i,
    {
        assert(hs.take(i + 1).drop_last() =~= hs.take(i as int));
        assert(hs.take(i + 1).last() == hs[i as int]);
        let entry = &headers[i];
        push_str(&mut s, entry.0.as_str());
        push_str(&mut s, ": ");
        push_str(&mut s, entry.1.as_str());
        push_str(&mut s, "\r\n");
        i = i + 1;
    }
    assert(hs.take(headers@.len() as int) =~= hs);
    push_str(&mut s, "Content-Length: ");
    let len_text = decimal_chars(body.len() as u64);
    push_chars(&mut s, len_text.as_slice());
    push_str(&mut s, "\r\n\r\n");
    assert(s@ =~= response_head(status, hs, body@.len()));
    let mut out: Vec<u8> = Vec::new();
    append_bytes(&mut out, s.as_str().as_bytes());
    append_bytes(&mut out, body);
    out
}

// endregion: --- Response

// region:    --- Builder

/// The validator of a builder that has none.
pub struct NoValidator;

/// Builder of a test server's configuration: the response it sends to every
/// request (status, headers, body) and an optional validation callback that
/// receives each request's snapshot.
pub struct TestServerBuilder<V = NoValidator> {
    status: u16,
    headers: Vec<(String, String)>,
    body: Vec<u8>,
    validator: Option<V>,
}

impl TestServerBuilder<NoValidator> {
    /// Status 200, no headers, an empty body and no validator.
    pub fn new() -> (r: Self)
        ensures
            r.spec_status() == 200,
            r.spec_headers() == Seq::<(Seq<char>, Seq<char>)>::empty(),
            r.spec_body() == Seq::<u8>::empty(),
            r.spec_validator() is None,
    {
        let r = TestServerBuilder { status: 200, headers: Vec::new(), body: Vec::new(), validator: None };
        assert(r.spec_headers() =~= Seq::<(Seq<char>, Seq<char>)>::empty());
        r
    }
}

impl<V> TestServerBuilder<V> {
    /// The response status.
    pub closed spec fn spec_status(self) -> u16 {
        self.status
    }

    /// The response headers, in the order they were added.
    pub closed spec fn spec_headers(self) -> HeaderPairs {
        string_pairs(self.headers@)
    }

    /// The response body.
    pub closed spec fn spec_body(self) -> Seq<u8> {
        self.body@
    }

    /// The validation callback.
    pub closed spec fn spec_validator(self) -> Option<V> {
        self.validator
    }

    /// Sets the response status.
    pub fn status(self, code: u16) -> (r: Self)
        ensures
            r.spec_status() == code,
            r.spec_headers() == self.spec_headers(),
            r.spec_body() == self.spec_body(),
            r.spec_validator() == self.spec_validator(),
    {
        TestServerBuilder { status: code, headers: self.headers, body: self.body, validator: self.validator }
    }

    /// Adds a response header.
    pub fn header(self, name: &str, value: &str) -> (r: Self)
        ensures
            r.spec_status() == self.spec_status(),
            r.spec_headers() == self.spec_headers().push((name@, value@)),
            r.spec_body() == self.spec_body(),
            r.spec_validator() == self.spec_validator(),
    {
        let mut headers = self.headers;
        let ghost before = headers@;
        let entry = (owned(name), owned(value));
        headers.push(entry);
        assert(string_pairs(headers@) =~= string_pairs(before).push((name@, value@)));
        TestServerBuilder { status: self.status, headers, body: self.body, validator: self.validator }
    }

    /// Sets the response body to the given bytes.
    pub fn body_bytes(self, data: Vec<u8>) -> (r: Self)
        ensures
            r.spec_status() == self.spec_status(),
            r.spec_headers() == self.spec_headers(),
            r.spec_body() == data@,
            r.spec_validator() == self.spec_validator(),
    {
        TestServerBuilder { status: self.status, headers: self.headers, body: data, validator: self.validator }
    }

    /// Sets the response body to the UTF-8 encoding of a text.
    pub fn body(self, text: &str) -> (r: Self)
        ensures
            r.spec_status() == self.spec_status(),
            r.spec_headers() == self.spec_headers(),
            r.spec_body() == encode_utf8(text@),
            r.spec_validator() == self.spec_validator(),
    {
        let mut data: Vec<u8> = Vec::new();
        append_bytes(&mut data, text.as_bytes());
        assert(data@ =~= encode_utf8(text@));
        TestServerBuilder { status: self.status, headers: self.headers, body: data, validator: self.validator }
    }

    /// Attaches a validation callback that receives the snapshot of each
    /// incoming request.
    pub fn validate<F: Fn(&RequestSnapshot) + Send + Sync + 'static>(self, f: F) -> (r: TestServerBuilder<F>)
        ensures
            r.spec_status() == self.spec_status(),
            r.spec_headers() == self.spec_headers(),
            r.spec_body() == self.spec_body(),
            r.spec_validator() == Some(f),
    {
        TestServerBuilder { status: self.status, headers: self.headers, body: self.body, validator: Some(f) }
    }

    /// The bytes of the response this configuration sends.
    pub fn response(&self) -> (r: Vec<u8>)
        ensures
            r@ == response_bytes(self.spec_status(), self.spec_headers(), self.spec_body()),
    {
        build_response(self.status, self.headers.as_slice(), self.body.as_slice())
    }

    /// The configuration's parts: status, headers, body and validator.
    pub fn into_parts(self) -> (r: (u16, Vec<(String, String)>, Vec<u8>, Option<V>))
        ensures
            r.0 == self.spec_status(),
            string_pairs(r.1@) == self.spec_headers(),
            r.2@ == self.spec_body(),
            r.3 == self.spec_validator(),
    {
        (self.status, self.headers, self.body, self.validator)
    }
}

// endregion: --- Builder

} // verus!
