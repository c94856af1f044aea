//! String utilities: ensure prefix/suffix, trailing newlines, truncation,
//! replacement and trimming.

use aho_corasick::AhoCorasick;
use std::borrow::Cow;
use vstd::prelude::*;
use vstd::utf8::{decode_utf8, encode_utf8, valid_utf8};

use crate::base::lines::{
    has_no_cr, join_lines, lemma_join_lines_restores, lemma_join_push, lines_of, lines_spec,
};
use crate::error::{Error, Result};
use crate::error_lua_details::string_views;
use crate::base::chars::{
    chars_of, contains_chars, contains_seq, ends_with_chars, find_seq, has_prefix, has_suffix, is_first_occurrence,
    push_char, push_chars, push_str, starts_with_chars, string_from_range,
};

verus! {

// region:    --- Ensure

/// Optional prefix and suffix that `ensure` makes sure a string has.
pub struct EnsureOptions {
    pub prefix: Option<String>,
    pub suffix: Option<String>,
}

/// What `ensure` adds in front of `s`.
pub open spec fn ensure_added_prefix(s: Seq<char>, prefix: Option<Seq<char>>) -> Seq<char> {
    match prefix {
        Some(p) => if has_prefix(s, p) { Seq::empty() } else { p },
        None => Seq::empty(),
    }
}

/// What `ensure` adds after `s`.
pub open spec fn ensure_added_suffix(s: Seq<char>, suffix: Option<Seq<char>>) -> Seq<char> {
    match suffix {
        Some(p) => if has_suffix(s, p) { Seq::empty() } else { p },
        None => Seq::empty(),
    }
}

/// Whether `ensure` leaves `s` unchanged.
pub open spec fn ensure_is_noop(s: Seq<char>, prefix: Option<Seq<char>>, suffix: Option<Seq<char>>) -> bool {
    &&& (prefix matches Some(p) ==> has_prefix(s, p))
    &&& (suffix matches Some(p) ==> has_suffix(s, p))
}

/// The view of an optional string.
pub open spec fn opt_view(o: Option<String>) -> Option<Seq<char>> {
    match o {
        Some(s) => Some(s@),
        None => None,
    }
}

/// The result of `ensure`.
pub open spec fn ensure_spec(s: Seq<char>, prefix: Option<Seq<char>>, suffix: Option<Seq<char>>) -> Seq<char> {
    ensure_added_prefix(s, prefix) + s + ensure_added_suffix(s, suffix)
}

/// What `ensure` produces starts with the prefix and ends with the suffix.
pub proof fn lemma_ensure_affixes(s: Seq<char>, prefix: Option<Seq<char>>, suffix: Option<Seq<char>>)
    ensures
        prefix matches Some(p) ==> has_prefix(ensure_spec(s, prefix, suffix), p),
        suffix matches Some(p) ==> has_suffix(ensure_spec(s, prefix, suffix), p),
{
    let a = ensure_added_prefix(s, prefix);
    let b = ensure_added_suffix(s, suffix);
    let r = ensure_spec(s, prefix, suffix);
    if let Some(p) = prefix {
        if has_prefix(s, p) {
            assert(a =~= Seq::<char>::empty());
            assert(r.subrange(0, p.len() as int) =~= s.subrange(0, p.len() as int));
        } else {
            assert(r.subrange(0, p.len() as int) =~= p);
        }
    }
    if let Some(p) = suffix {
        if has_suffix(s, p) {
            assert(b =~= Seq::<char>::empty());
            assert(r.subrange(r.len() - p.len(), r.len() as int) =~= s.subrange(
                s.len() - p.len(),
                s.len() as int,
            ));
        } else {
            assert(r.subrange(r.len() - p.len(), r.len() as int) =~= p);
        }
    }
}

/// Law: `ensure` is idempotent; applied to its own result it changes nothing.
pub proof fn law_ensure_idempotent(s: Seq<char>, prefix: Option<Seq<char>>, suffix: Option<Seq<char>>)
    ensures
        ensure_is_noop(ensure_spec(s, prefix, suffix), prefix, suffix),
        ensure_spec(ensure_spec(s, prefix, suffix), prefix, suffix) == ensure_spec(s, prefix, suffix),
{
    lemma_ensure_affixes(s, prefix, suffix);
    let r = ensure_spec(s, prefix, suffix);
    assert(ensure_added_prefix(r, prefix) =~= Seq::<char>::empty());
    assert(ensure_added_suffix(r, suffix) =~= Seq::<char>::empty());
    assert(ensure_spec(r, prefix, suffix) =~= r);
}

/// Makes sure `s` starts with the given prefix and ends with the given suffix,
/// adding each one only when it is missing. The input is borrowed back when
/// nothing had to be added.
pub fn ensure(s: &str, ensure_inst: EnsureOptions) -> (r: Cow<'_, str>)
    ensures
        r@ == ensure_added_prefix(s@, opt_view(ensure_inst.prefix)) + s@ + ensure_added_suffix(
            s@,
            opt_view(ensure_inst.suffix),
        ),
        (r matches Cow::Borrowed(_)) <==> ensure_is_noop(
            s@,
            opt_view(ensure_inst.prefix),
            opt_view(ensure_inst.suffix),
        ),
        ensure_inst.prefix matches Some(p) ==> has_prefix(r@, p@),
        ensure_inst.suffix matches Some(p) ==> has_suffix(r@, p@),
{
    proof {
        lemma_ensure_affixes(s@, opt_view(ensure_inst.prefix), opt_view(ensure_inst.suffix));
    }
    let sv = chars_of(s);
    let mut out = String::new();
    let mut changed = false;
    match &ensure_inst.prefix {
        Some(p) => {
            let pv = chars_of(p.as_str());
            if !starts_with_chars(sv.as_slice(), pv.as_slice()) {
                push_chars(&mut out, pv.as_slice());
                changed = true;
            }
        },
        None => {},
    }
    push_chars(&mut out, sv.as_slice());
    match &ensure_inst.suffix {
        Some(p) => {
            let pv = chars_of(p.as_str());
            if !ends_with_chars(sv.as_slice(), pv.as_slice()) {
                push_chars(&mut out, pv.as_slice());
                changed = true;
            }
        },
        None => {},
    }
    if changed {
        Cow::Owned(out)
    } else {
        assert(out@ =~= s@);
        Cow::Borrowed(s)
    }
}

/// `s` without its trailing newline characters.
pub open spec fn trim_trailing_newlines(s: Seq<char>) -> Seq<char>
    decreases s.len(),
{
    if s.len() > 0 && s.last() == '\n' {
        trim_trailing_newlines(s.drop_last())
    } else {
        s
    }
}

/// Make sure that the text ends with one and only one newline.
pub fn ensure_single_trailing_newline(text: String) -> (r: String)
    ensures
        r@ == trim_trailing_newlines(text@).push('\n'),
{
    let v = chars_of(text.as_str());
    let mut n: usize = v.len();
    assert(v@.subrange(0, n as int) =~= v@);
    while n > 0 && v[n - 1] == '\n'
        invariant
            n <= v@.len(),
            trim_trailing_newlines(v@) == trim_trailing_newlines(v@.subrange(0, n as int)),
        decreases n,
    {
        assert(v@.subrange(0, n as int).drop_last() =~= v@.subrange(0, n - 1));
        n = n - 1;
    }
    let mut r = string_from_range(v.as_slice(), 0, n);
    push_char(&mut r, '\n');
    r
}

/// Law: the result of `ensure_single_trailing_newline` ends with exactly one
/// newline, and applying it again changes nothing.
pub proof fn law_single_trailing_newline(s: Seq<char>)
    ensures
        ({
            let r = trim_trailing_newlines(s).push('\n');
            &&& r.last() == '\n'
            &&& (r.len() < 2 || r[r.len() - 2] != '\n')
            &&& trim_trailing_newlines(r).push('\n') == r
        }),
{
    lemma_trim_trailing_newlines_end(s);
    let t = trim_trailing_newlines(s);
    let r = t.push('\n');
    assert(r.drop_last() =~= t);
    lemma_trim_trailing_newlines_end(t);
    if t.len() > 0 {
        assert(r[r.len() - 2] == t.last());
    }
}

/// `trim_trailing_newlines` leaves no newline at the end, and does nothing to
/// a text that has none there.
pub proof fn lemma_trim_trailing_newlines_end(s: Seq<char>)
    ensures
        trim_trailing_newlines(s).len() == 0 || trim_trailing_newlines(s).last() != '\n',
        (s.len() == 0 || s.last() != '\n') ==> trim_trailing_newlines(s) == s,
    decreases s.len(),
{
    if s.len() > 0 && s.last() == '\n' {
        lemma_trim_trailing_newlines_end(s.drop_last());
    }
}

// endregion: --- Ensure

/// Splits off the first line (newline included) from the rest of the content.
/// Without a newline, the whole content is the first line and the rest is empty.
pub fn extract_first_line(content: String) -> (r: (String, String))
    ensures
        r.0@ + r.1@ == content@,
        forall|k: int| 0 <= k < r.0@.len() - 1 ==> r.0@[k] != '\n',
        r.1@.len() > 0 ==> r.0@.len() > 0 && r.0@.last() == '\n',
        r.0@.len() > 0 && r.0@.last() != '\n' ==> r.1@.len() == 0,
{
    let v = chars_of(content.as_str());
    let mut i: usize = 0;
    while i < v.len()
        invariant
            i <= v@.len(),
            v@ == content@,
            forall|k: int| 0 <= k < i ==> v@[k] != '\n',
        decreases v@.len() - i,
    {
        if v[i] == '\n' {
            let first = string_from_range(v.as_slice(), 0, i + 1);
            let rest = string_from_range(v.as_slice(), i + 1, v.len());
            assert(first@ + rest@ =~= v@);
            return (first, rest);
        }
        i = i + 1;
    }
    assert(content@ + Seq::<char>::empty() =~= content@);
    (content, String::new())
}

// region:    --- Truncate

/// The result of `truncate_with_ellipsis`.
pub open spec fn truncate_with_ellipsis_spec(s: Seq<char>, max_chars: nat, e: Seq<char>) -> Seq<char> {
    if s.len() > max_chars {
        if e.len() >= max_chars {
            e.take(max_chars as int)
        } else {
            s.take(max_chars - e.len()) + e
        }
    } else {
        s
    }
}

/// Truncates `content` to at most `max_chars` characters, ending the kept part
/// with `ellipsis` when something was cut.
pub fn truncate_with_ellipsis<'a>(content: &'a str, max_chars: usize, ellipsis: &str) -> (r: Cow<'a, str>)
    ensures
        r@ == truncate_with_ellipsis_spec(content@, max_chars as nat, ellipsis@),
        (r matches Cow::Borrowed(_)) <==> content@.len() <= max_chars,
        r@.len() == if content@.len() > max_chars { max_chars as nat } else { content@.len() },
{
    let cv = chars_of(content);
    let ev = chars_of(ellipsis);
    if cv.len() > max_chars {
        if ev.len() >= max_chars {
            Cow::Owned(string_from_range(ev.as_slice(), 0, max_chars))
        } else {
            let keep = max_chars - ev.len();
            let mut r = string_from_range(cv.as_slice(), 0, keep);
            push_chars(&mut r, ev.as_slice());
            Cow::Owned(r)
        }
    } else {
        Cow::Borrowed(content)
    }
}

/// Returns the first `max_chars` characters of `content` (if it is longer),
/// with a flag telling whether something was cut.
pub fn truncate<'a>(content: &'a str, max_chars: usize) -> (r: (Cow<'a, str>, bool))
    ensures
        r.1 == (content@.len() > max_chars),
        r.0@ == if r.1 { content@.take(max_chars as int) } else { content@ },
        (r.0 matches Cow::Borrowed(_)) <==> !r.1,
{
    let cv = chars_of(content);
    if cv.len() > max_chars {
        (Cow::Owned(string_from_range(cv.as_slice(), 0, max_chars)), true)
    } else {
        (Cow::Borrowed(content), false)
    }
}

/// The result of `truncate_left_with_ellipsis`.
pub open spec fn truncate_left_with_ellipsis_spec(s: Seq<char>, max_chars: nat, e: Seq<char>) -> Seq<char> {
    if s.len() > max_chars {
        if e.len() >= max_chars {
            e.skip(e.len() - max_chars)
        } else {
            e + s.skip(s.len() - (max_chars - e.len()))
        }
    } else {
        s
    }
}

/// Truncates `content` from the left to at most `max_chars` characters,
/// starting the kept part with `ellipsis` when something was cut.
pub fn truncate_left_with_ellipsis<'a>(content: &'a str, max_chars: usize, ellipsis: &str) -> (r: Cow<'a, str>)
    ensures
        r@ == truncate_left_with_ellipsis_spec(content@, max_chars as nat, ellipsis@),
        (r matches Cow::Borrowed(_)) <==> content@.len() <= max_chars,
        r@.len() == if content@.len() > max_chars { max_chars as nat } else { content@.len() },
{
    let cv = chars_of(content);
    let ev = chars_of(ellipsis);
    if cv.len() > max_chars {
        if ev.len() >= max_chars {
            Cow::Owned(string_from_range(ev.as_slice(), ev.len() - max_chars, ev.len()))
        } else {
            let keep = max_chars - ev.len();
            let mut r = string_from_range(ev.as_slice(), 0, ev.len());
            let tail = string_from_range(cv.as_slice(), cv.len() - keep, cv.len());
            push_str(&mut r, tail.as_str());
            assert(ev@.subrange(0, ev@.len() as int) =~= ev@);
            assert(cv@.subrange(cv@.len() - keep, cv@.len() as int) =~= cv@.skip(cv@.len() - keep));
            Cow::Owned(r)
        }
    } else {
        Cow::Borrowed(content)
    }
}

/// Returns the last `max_chars` characters of `content` (if it is longer),
/// with a flag telling whether something was cut.
pub fn truncate_left<'a>(content: &'a str, max_chars: usize) -> (r: (Cow<'a, str>, bool))
    ensures
        r.1 == (content@.len() > max_chars),
        r.0@ == if r.1 { content@.skip(content@.len() - max_chars) } else { content@ },
        (r.0 matches Cow::Borrowed(_)) <==> !r.1,
{
    let cv = chars_of(content);
    if cv.len() > max_chars {
        let r = string_from_range(cv.as_slice(), cv.len() - max_chars, cv.len());
        assert(r@ =~= cv@.skip(cv@.len() - max_chars));
        (Cow::Owned(r), true)
    } else {
        (Cow::Borrowed(content), false)
    }
}

// endregion: --- Truncate

// region:    --- Replace

/// Replaces the first occurrence of `search` in `content` with `replace`.
/// Returns the new content and whether a replacement happened; the content is
/// handed back unchanged when `search` does not occur.
pub fn replace_first(content: String, search: &str, replace: &str) -> (r: (String, bool))
    ensures
        r.1 == contains_seq(content@, search@),
        !r.1 ==> r.0@ == content@,
        r.1 ==> exists|i: int|
            is_first_occurrence(content@, search@, i) && r.0@ == content@.take(i) + replace@
                + content@.skip(i + search@.len()),
{
    let cv = chars_of(content.as_str());
    let sv = chars_of(search);
    let n = cv.len();
    match find_seq(cv.as_slice(), sv.as_slice()) {
        Some(pos) => {
            let mut out = string_from_range(cv.as_slice(), 0, pos);
            push_str(&mut out, replace);
            let rest = string_from_range(cv.as_slice(), pos + sv.len(), cv.len());
            push_str(&mut out, rest.as_str());
            assert(cv@.subrange(pos + sv@.len(), cv@.len() as int) =~= cv@.skip(pos + sv@.len()));
            (out, true)
        },
        None => (content, false),
    }
}

/// Where a line stands relative to a marker-delimited section.
#[derive(PartialEq, Eq, Structural)]
pub enum MarkerState {
    /// The line holds the start marker.
    StartMarkerLine,
    /// The line is inside a section.
    InSection,
    /// The line holds the end marker.
    EndMarkerLine,
    /// The line is outside any section.
    OutSection,
}

/// Why `replace_markers` fails.
#[derive(PartialEq, Eq, Structural)]
pub enum MarkersFailure {
    /// A start marker while a section is still open.
    StartInsideSection,
    /// An end marker with no open section.
    EndWithoutStart,
    /// More end markers than sections.
    NotEnoughSections,
    /// Fewer end markers than sections.
    UnusedSections,
}

/// One step of the marker scan: the state, the number of sections used and
/// the output lines after processing `line`.
pub open spec fn markers_step(
    st: MarkerState,
    used: nat,
    out: Seq<Seq<char>>,
    line: Seq<char>,
    sections: Seq<Seq<char>>,
    ms: Seq<char>,
    me: Seq<char>,
) -> core::result::Result<(MarkerState, nat, Seq<Seq<char>>), MarkersFailure> {
    if contains_seq(line, ms) {
        if st == MarkerState::StartMarkerLine || st == MarkerState::InSection {
            Err(MarkersFailure::StartInsideSection)
        } else {
            Ok((MarkerState::StartMarkerLine, used, out))
        }
    } else if contains_seq(line, me) {
        if st == MarkerState::OutSection || st == MarkerState::EndMarkerLine {
            Err(MarkersFailure::EndWithoutStart)
        } else if used >= sections.len() {
            Err(MarkersFailure::NotEnoughSections)
        } else {
            Ok((MarkerState::EndMarkerLine, used + 1, out.push(sections[used as int])))
        }
    } else {
        match st {
            MarkerState::StartMarkerLine => Ok((MarkerState::InSection, used, out)),
            MarkerState::InSection => Ok((MarkerState::InSection, used, out)),
            _ => Ok((MarkerState::OutSection, used, out.push(line))),
        }
    }
}

/// The marker scan over `lines`, stopping at the first failure.
pub open spec fn markers_scan(
    lines: Seq<Seq<char>>,
    sections: Seq<Seq<char>>,
    ms: Seq<char>,
    me: Seq<char>,
) -> core::result::Result<(MarkerState, nat, Seq<Seq<char>>), MarkersFailure>
    decreases lines.len(),
{
    if lines.len() == 0 {
        Ok((MarkerState::OutSection, 0, Seq::empty()))
    } else {
        match markers_scan(lines.drop_last(), sections, ms, me) {
            Err(e) => Err(e),
            Ok((st, used, out)) => markers_step(st, used, out, lines.last(), sections, ms, me),
        }
    }
}

/// The result of `replace_markers`.
pub open spec fn replace_markers_spec(
    content: Seq<char>,
    sections: Seq<Seq<char>>,
    ms: Seq<char>,
    me: Seq<char>,
) -> core::result::Result<Seq<char>, MarkersFailure> {
    match markers_scan(lines_spec(content), sections, ms, me) {
        Err(e) => Err(e),
        Ok((_, used, out)) => if used < sections.len() {
            Err(MarkersFailure::UnusedSections)
        } else if content.len() > 0 && content.last() == '\n' {
            Ok(join_lines(out.push(Seq::empty())))
        } else {
            Ok(join_lines(out))
        },
    }
}

/// A start line: it holds the start marker.
pub open spec fn is_start_line(l: Seq<char>, ms: Seq<char>) -> bool {
    contains_seq(l, ms)
}

/// An end line: it holds the end marker and not the start marker.
pub open spec fn is_end_line(l: Seq<char>, ms: Seq<char>, me: Seq<char>) -> bool {
    !contains_seq(l, ms) && contains_seq(l, me)
}

/// Whether a section is open after the lines: a start line opens one, an
/// end line closes it, other lines leave it as it is.
pub open spec fn open_after(lines: Seq<Seq<char>>, ms: Seq<char>, me: Seq<char>) -> bool
    decreases lines.len(),
{
    if lines.len() == 0 {
        false
    } else if is_start_line(lines.last(), ms) {
        true
    } else if is_end_line(lines.last(), ms, me) {
        false
    } else {
        open_after(lines.drop_last(), ms, me)
    }
}

/// The number of end lines.
pub open spec fn end_count(lines: Seq<Seq<char>>, ms: Seq<char>, me: Seq<char>) -> nat
    decreases lines.len(),
{
    if lines.len() == 0 {
        0
    } else {
        end_count(lines.drop_last(), ms, me) + if is_end_line(lines.last(), ms, me) {
            1nat
        } else {
            0nat
        }
    }
}

/// Line `k` is misplaced: a start line while a section is open, or an end
/// line while none is.
pub open spec fn misplaced_at(lines: Seq<Seq<char>>, ms: Seq<char>, me: Seq<char>, k: int) -> bool {
    ||| is_start_line(lines[k], ms) && open_after(lines.take(k), ms, me)
    ||| is_end_line(lines[k], ms, me) && !open_after(lines.take(k), ms, me)
}

/// Some line is misplaced.
pub open spec fn markers_misplaced(lines: Seq<Seq<char>>, ms: Seq<char>, me: Seq<char>) -> bool {
    exists|k: int| 0 <= k < lines.len() && #[trigger] misplaced_at(lines, ms, me, k)
}

/// The marker scan succeeds exactly when no line is misplaced and there are
/// enough sections; it has then used one section per end line, and a
/// section is open exactly when `open_after` says so.
proof fn lemma_markers_scan_shape(lines: Seq<Seq<char>>, sections: Seq<Seq<char>>, ms: Seq<char>, me: Seq<char>)
    ensures
        markers_scan(lines, sections, ms, me) is Ok <==> (!markers_misplaced(lines, ms, me) && end_count(lines, ms, me)
            <= sections.len()),
        markers_scan(lines, sections, ms, me) matches Ok((st, used, out)) ==> used == end_count(lines, ms, me) && ((
        st == MarkerState::StartMarkerLine || st == MarkerState::InSection) <==> open_after(lines, ms, me)),
    decreases lines.len(),
{
    if lines.len() > 0 {
        let p = lines.drop_last();
        let n = lines.len() - 1;
        lemma_markers_scan_shape(p, sections, ms, me);
        assert(lines.take(n) =~= p);
        assert forall|k: int| 0 <= k < n implies misplaced_at(lines, ms, me, k) == #[trigger] misplaced_at(p, ms, me, k) by {
            assert(lines.take(k) =~= p.take(k));
            assert(lines[k] == p[k]);
        }
        if markers_misplaced(p, ms, me) {
            let k = choose|k: int| 0 <= k < p.len() && #[trigger] misplaced_at(p, ms, me, k);
            assert(misplaced_at(lines, ms, me, k));
        }
        if markers_misplaced(lines, ms, me) && !markers_misplaced(p, ms, me) {
            let k = choose|k: int| 0 <= k < lines.len() && #[trigger] misplaced_at(lines, ms, me, k);
            if k < n {
                assert(misplaced_at(p, ms, me, k));
            }
            assert(k == n);
        }
        if !markers_misplaced(lines, ms, me) {
            assert(!misplaced_at(lines, ms, me, n));
        }
    } else {
        assert(!markers_misplaced(lines, ms, me));
    }
}

/// Law: marker replacement fails exactly when a start line comes while a
/// section is open, an end line comes while none is, or the number of end
/// lines differs from the number of sections.
pub proof fn law_replace_markers_errors(content: Seq<char>, sections: Seq<Seq<char>>, ms: Seq<char>, me: Seq<char>)
    ensures
        replace_markers_spec(content, sections, ms, me) is Err <==> (markers_misplaced(lines_spec(content), ms, me)
            || end_count(lines_spec(content), ms, me) != sections.len()),
{
    lemma_markers_scan_shape(lines_spec(content), sections, ms, me);
}

/// The message `replace_markers` reports for a failure.
pub open spec fn markers_failure_message(f: MarkersFailure, ms: Seq<char>, me: Seq<char>) -> Seq<char> {
    match f {
        MarkersFailure::StartInsideSection => "replace_markers - Cannot have start marker "@ + ms
            + " when previous section not closed with "@ + me,
        MarkersFailure::EndWithoutStart => "replace_markers - Cannot have close marker "@ + me
            + " when not having open with a "@ + ms,
        MarkersFailure::NotEnoughSections => "replace_markers - Not enough matching sections"@,
        MarkersFailure::UnusedSections => "replace_markers - Not all sections have been used"@,
    }
}

/// The views of a slice of string slices.
pub open spec fn str_views(v: Seq<&str>) -> Seq<Seq<char>> {
    v.map_values(|s: &str| s@)
}

/// A scan that failed on a prefix of the lines fails the same way on all of them.
proof fn lemma_scan_failure_persists(
    lines: Seq<Seq<char>>,
    k: int,
    sections: Seq<Seq<char>>,
    ms: Seq<char>,
    me: Seq<char>,
)
    requires
        0 <= k <= lines.len(),
        markers_scan(lines.take(k), sections, ms, me) is Err,
    ensures
        markers_scan(lines, sections, ms, me) == markers_scan(lines.take(k), sections, ms, me),
    decreases lines.len() - k,
{
    if k < lines.len() {
        assert(lines.take(k + 1).drop_last() =~= lines.take(k));
        lemma_scan_failure_persists(lines, k + 1, sections, ms, me);
    } else {
        assert(lines.take(k) =~= lines);
    }
}

/// Lines that hold neither marker all pass through the scan unchanged.
proof fn lemma_scan_plain_lines(lines: Seq<Seq<char>>, ms: Seq<char>, me: Seq<char>)
    requires
        forall|i: int| 0 <= i < lines.len() ==> !contains_seq(#[trigger] lines[i], ms) && !contains_seq(lines[i], me),
    ensures
        markers_scan(lines, Seq::empty(), ms, me) == Ok::<(MarkerState, nat, Seq<Seq<char>>), MarkersFailure>(
            (MarkerState::OutSection, 0, lines),
        ),
    decreases lines.len(),
{
    if lines.len() > 0 {
        lemma_scan_plain_lines(lines.drop_last(), ms, me);
        assert(!contains_seq(lines[lines.len() - 1], ms));
        assert(!contains_seq(lines[lines.len() - 1], me));
        assert(lines.drop_last().push(lines.last()) =~= lines);
    } else {
        assert(lines =~= Seq::<Seq<char>>::empty());
    }
}

/// Law: with no sections, a text without carriage returns in which no line
/// holds either marker comes back from `replace_markers` unchanged.
pub proof fn law_replace_markers_identity(content: Seq<char>, ms: Seq<char>, me: Seq<char>)
    requires
        has_no_cr(content),
        forall|i: int| 0 <= i < lines_spec(content).len() ==> !contains_seq(
            #[trigger] lines_spec(content)[i],
            ms,
        ) && !contains_seq(lines_spec(content)[i], me),
    ensures
        replace_markers_spec(content, Seq::empty(), ms, me) == Ok::<Seq<char>, MarkersFailure>(content),
{
    lemma_scan_plain_lines(lines_spec(content), ms, me);
    lemma_join_lines_restores(content);
}

/// The error `replace_markers` returns for a failure.
fn markers_error(f: MarkersFailure, ms: &str, me: &str) -> (r: Error)
    ensures
        crate::error::is_custom_error(r, markers_failure_message(f, ms@, me@)),
{
    let mut m = String::new();
    match f {
        MarkersFailure::StartInsideSection => {
            push_str(&mut m, "replace_markers - Cannot have start marker ");
            push_str(&mut m, ms);
            push_str(&mut m, " when previous section not closed with ");
            push_str(&mut m, me);
        },
        MarkersFailure::EndWithoutStart => {
            push_str(&mut m, "replace_markers - Cannot have close marker ");
            push_str(&mut m, me);
            push_str(&mut m, " when not having open with a ");
            push_str(&mut m, ms);
        },
        MarkersFailure::NotEnoughSections => {
            push_str(&mut m, "replace_markers - Not enough matching sections");
        },
        MarkersFailure::UnusedSections => {
            push_str(&mut m, "replace_markers - Not all sections have been used");
        },
    }
    Error::Custom(m)
}

/// Replaces the sections delimited by a start and an end marker.
///
/// Going line by line, the line holding the start marker and every line up to
/// and including the line holding the end marker are removed, and the line
/// that held the end marker is replaced by the next element of `sections`.
/// Lines outside sections are kept. The result keeps a final newline when the
/// content had one.
///
/// Fails when a start marker comes while a section is open, when an end marker
/// comes with no open section (also right after another end marker), or when the number of end markers and sections
/// differ.
pub fn replace_markers(content: &str, sections: &[&str], marker_pair: &(&str, &str)) -> (r: Result<String>)
    ensures
        match replace_markers_spec(content@, str_views(sections@), marker_pair.0@, marker_pair.1@) {
            Ok(s) => r matches Ok(t) && t@ == s,
            Err(f) => r matches Err(e) && crate::error::is_custom_error(
                e,
                markers_failure_message(f, marker_pair.0@, marker_pair.1@),
            ),
        },
{
    let (marker_start, marker_end) = *marker_pair;
    let cv = chars_of(content);
    let msv = chars_of(marker_start);
    let mev = chars_of(marker_end);
    let lines = lines_of(cv.as_slice());
    let ghost lines_s = lines_spec(cv@);
    let ghost secs = str_views(sections@);
    let ghost ms = marker_start@;
    let ghost me = marker_end@;

    let mut state = MarkerState::OutSection;
    let mut used: usize = 0;
    let mut out: Vec<char> = Vec::new();
    let ghost mut g_out: Seq<Seq<char>> = Seq::empty();
    let mut count: usize = 0;
    let mut k: usize = 0;
    assert(lines_s.take(0) =~= Seq::<Seq<char>>::empty());
    while k < lines.len()
        invariant
            k <= lines@.len() == lines_s.len(),
            lines_s == lines_spec(content@),
            forall|i: int| 0 <= i < lines@.len() ==> #[trigger] lines@[i]@ == lines_s[i],
            secs == str_views(sections@),
            secs.len() == sections@.len(),
            msv@ == ms,
            mev@ == me,
            ms == marker_pair.0@,
            me == marker_pair.1@,
            ms == marker_start@,
            me == marker_end@,
            markers_scan(lines_s.take(k as int), secs, ms, me) == Ok::<
                (MarkerState, nat, Seq<Seq<char>>),
                MarkersFailure,
            >((state, used as nat, g_out)),
            used <= secs.len(),
            out@ == join_lines(g_out),
            count == g_out.len(),
            count <= k,
        decreases lines@.len() - k,
    {
        let line = &lines[k];
        assert(lines_s.take(k + 1).drop_last() =~= lines_s.take(k as int));
        assert(lines_s.take(k + 1).last() == lines_s[k as int]);
        if contains_chars(line.as_slice(), msv.as_slice()) {
            if state == MarkerState::StartMarkerLine || state == MarkerState::InSection {
                proof {
                    lemma_scan_failure_persists(lines_s, k + 1, secs, ms, me);
                }
                return Err(markers_error(MarkersFailure::StartInsideSection, marker_start, marker_end));
            }
            state = MarkerState::StartMarkerLine;
        } else if contains_chars(line.as_slice(), mev.as_slice()) {
            if state == MarkerState::OutSection || state == MarkerState::EndMarkerLine {
                proof {
                    lemma_scan_failure_persists(lines_s, k + 1, secs, ms, me);
                }
                return Err(markers_error(MarkersFailure::EndWithoutStart, marker_start, marker_end));
            }
            if used >= sections.len() {
                proof {
                    lemma_scan_failure_persists(lines_s, k + 1, secs, ms, me);
                }
                return Err(markers_error(MarkersFailure::NotEnoughSections, marker_start, marker_end));
            }
            let sec = chars_of(sections[used]);
            proof {
                lemma_join_push(g_out, sec@);
            }
            if count > 0 {
                out.push('\n');
            }
            let mut j: usize = 0;
            let ghost out_before = out@;
            while j < sec.len()
                invariant
                    j <= sec@.len(),
                    out@ == out_before + sec@.subrange(0, j as int),
                decreases sec@.len() - j,
            {
                out.push(sec[j]);
                j = j + 1;
            }
            assert(sec@.subrange(0, sec@.len() as int) =~= sec@);
            proof {
                g_out = g_out.push(sec@);
            }
            state = MarkerState::EndMarkerLine;
            used = used + 1;
            count = count + 1;
        } else {
            if state == MarkerState::StartMarkerLine || state == MarkerState::InSection {
                state = MarkerState::InSection;
            } else {
                proof {
                    lemma_join_push(g_out, line@);
                }
                if count > 0 {
                    out.push('\n');
                }
                let mut j: usize = 0;
                let ghost out_before = out@;
                while j < line.len()
                    invariant
                        j <= line@.len(),
                        out@ == out_before + line@.subrange(0, j as int),
                    decreases line@.len() - j,
                {
                    out.push(line[j]);
                    j = j + 1;
                }
                assert(line@.subrange(0, line@.len() as int) =~= line@);
                proof {
                    g_out = g_out.push(line@);
                }
                state = MarkerState::OutSection;
                count = count + 1;
            }
        }
        k = k + 1;
    }
    assert(lines_s.take(lines_s.len() as int) =~= lines_s);
    if used < sections.len() {
        return Err(markers_error(MarkersFailure::UnusedSections, marker_start, marker_end));
    }
    let n = cv.len();
    if n > 0 && cv[n - 1] == '\n' {
        proof {
            lemma_join_push(g_out, Seq::empty());
        }
        if count > 0 {
            out.push('\n');
        }
        assert(out@ == join_lines(g_out.push(Seq::empty())));
    }
    Ok(string_from_range(out.as_slice(), 0, out.len()))
}

// endregion: --- Replace

// region:    --- Replace all

/// The Aho-Corasick automaton type of the `aho_corasick` crate.
#[verifier::external_type_specification]
#[verifier::external_body]
pub struct ExAhoCorasick(AhoCorasick);

/// Whether `aho_corasick` builds an automaton for `patterns` (default
/// configuration).
pub uninterp spec fn ac_builds(patterns: Seq<Seq<char>>) -> bool;

/// The text of `aho_corasick`'s build error for `patterns`.
pub uninterp spec fn ac_build_error(patterns: Seq<Seq<char>>) -> Seq<char>;

/// The bytes `replace_all_bytes` gives: `haystack` with every match of the
/// automaton of `patterns` replaced by the value of the matched pattern.
pub uninterp spec fn ac_replaced(patterns: Seq<Seq<char>>, haystack: Seq<u8>, values: Seq<Seq<char>>) -> Seq<u8>;

/// The text of std's `FromUtf8Error` for `bytes`.
pub uninterp spec fn utf8_error_text(bytes: Seq<u8>) -> Seq<char>;

/// aho_corasick's `AhoCorasick::new(patterns)`, its error given as its
/// text. Success and the error text are named, not stated.
#[verifier::external_body]
fn build_automaton(patterns: &[&str]) -> (r: core::result::Result<AhoCorasick, String>)
    ensures
        r is Ok <==> ac_builds(str_views(patterns@)),
        r matches Err(m) ==> m@ == ac_build_error(str_views(patterns@)),
{
    AhoCorasick::new(patterns).map_err(|e| e.to_string())
}

/// std's `String::from_utf8`, its error given as its text. Its
/// documentation: the bytes are accepted exactly when they are valid UTF-8,
/// and the string then holds the characters they encode.
#[verifier::external_body]
fn string_from_utf8(bytes: Vec<u8>) -> (r: core::result::Result<String, String>)
    ensures
        r is Ok <==> valid_utf8(bytes@),
        r matches Ok(s) ==> s@ == decode_utf8(bytes@),
        r matches Err(m) ==> m@ == utf8_error_text(bytes@),
{
    String::from_utf8(bytes).map_err(|e| e.to_string())
}

/// An automaton together with the patterns it was built from.
pub struct MultiReplacer {
    automaton: AhoCorasick,
    patterns: Vec<String>,
}

impl MultiReplacer {
    /// The patterns it was built from.
    pub closed spec fn spec_patterns(&self) -> Seq<Seq<char>> {
        string_views(self.patterns@)
    }

    /// Builds the automaton of `patterns`.
    pub fn new(patterns: &[&str]) -> (r: core::result::Result<Self, String>)
        ensures
            r is Ok <==> ac_builds(str_views(patterns@)),
            r matches Ok(m) ==> m.spec_patterns() == str_views(patterns@),
            r matches Err(e) ==> e@ == ac_build_error(str_views(patterns@)),
    {
        match build_automaton(patterns) {
            Ok(automaton) => {
                let mut kept: Vec<String> = Vec::new();
                let mut i: usize = 0;
                while i < patterns.len()
                    invariant
                        i <= patterns@.len(),
                        string_views(kept@) == str_views(patterns@).take(i as int),
                    decreases patterns@.len() - i,
                {
                    let ghost before = kept@;
                    kept.push(crate::error::owned(patterns[i]));
                    assert(string_views(kept@) =~= string_views(before).push(patterns@[i as int]@));
                    assert(str_views(patterns@).take(i + 1) =~= str_views(patterns@).take(i as int).push(
                        patterns@[i as int]@,
                    ));
                    i = i + 1;
                }
                assert(str_views(patterns@).take(patterns@.len() as int) =~= str_views(patterns@));
                Ok(MultiReplacer { automaton, patterns: kept })
            },
            Err(m) => Err(m),
        }
    }

    /// aho_corasick's `replace_all_bytes`: every match replaced by the value
    /// of its pattern. It panics unless there is one value per pattern; a
    /// value of this type is only made by `new`, from the patterns it
    /// records.
    #[verifier::external_body]
    fn replace_bytes(&self, haystack: &[u8], values: &[&str]) -> (r: Vec<u8>)
        requires
            values@.len() == self.spec_patterns().len(),
        ensures
            r@ == ac_replaced(self.spec_patterns(), haystack@, str_views(values@)),
    {
        self.automaton.replace_all_bytes(haystack, values)
    }
}

/// What `replace_all` gives: the error of building the automaton, or the
/// replaced bytes when they are UTF-8, or the UTF-8 error.
pub open spec fn replace_all_spec(content: Seq<char>, patterns: Seq<Seq<char>>, values: Seq<Seq<char>>) -> core::result::Result<
    Seq<char>,
    (Seq<char>, Seq<char>),
> {
    if !ac_builds(patterns) {
        Err(("replace_all fail because patterns"@, ac_build_error(patterns)))
    } else {
        let bytes = ac_replaced(patterns, encode_utf8(content), values);
        if valid_utf8(bytes) {
            Ok(decode_utf8(bytes))
        } else {
            Err(("replace_all fail because result is not utf8"@, utf8_error_text(bytes)))
        }
    }
}

/// Replaces every match of `patterns` in `content` by the value of the same
/// index (one value per pattern).
pub fn replace_all(content: &str, patterns: &[&str], values: &[&str]) -> (r: Result<String>)
    requires
        values@.len() == patterns@.len(),
    ensures
        match replace_all_spec(content@, str_views(patterns@), str_views(values@)) {
            Ok(s) => r matches Ok(t) && t@ == s,
            Err((c, k)) => r matches Err(e) && e matches Error::CustomAndCause(ec, ek) && ec@ == c && ek@ == k,
        },
{
    let replacer = match MultiReplacer::new(patterns) {
        Ok(m) => m,
        Err(cause) => return Err(Error::cc("replace_all fail because patterns", cause.as_str())),
    };
    let bytes = replacer.replace_bytes(content.as_bytes(), values);
    match string_from_utf8(bytes) {
        Ok(s) => Ok(s),
        Err(cause) => Err(Error::cc("replace_all fail because result is not utf8", cause.as_str())),
    }
}

// endregion: --- Replace all

// region:    --- Trim

/// Characters with the Unicode `White_Space` property (the set that
/// `char::is_whitespace` and `str::trim` use).
pub open spec fn is_white_space(c: char) -> bool {
    let u = c as u32;
    ||| 0x09 <= u <= 0x0D
    ||| u == 0x20
    ||| u == 0x85
    ||| u == 0xA0
    ||| u == 0x1680
    ||| 0x2000 <= u <= 0x200A
    ||| u == 0x2028
    ||| u == 0x2029
    ||| u == 0x202F
    ||| u == 0x205F
    ||| u == 0x3000
}

/// Whether `c` has the Unicode `White_Space` property.
pub fn is_whitespace_char(c: char) -> (r: bool)
    ensures
        r == is_white_space(c),
{
    let u = c as u32;
    (0x09 <= u && u <= 0x0D) || u == 0x20 || u == 0x85 || u == 0xA0 || u == 0x1680 || (0x2000 <= u
        && u <= 0x200A) || u == 0x2028 || u == 0x2029 || u == 0x202F || u == 0x205F || u == 0x3000
}

/// `s` without its leading white space.
pub open spec fn trim_start_spec(s: Seq<char>) -> Seq<char>
    decreases s.len(),
{
    if s.len() > 0 && is_white_space(s[0]) {
        trim_start_spec(s.drop_first())
    } else {
        s
    }
}

/// `s` without its trailing white space.
pub open spec fn trim_end_spec(s: Seq<char>) -> Seq<char>
    decreases s.len(),
{
    if s.len() > 0 && is_white_space(s.last()) {
        trim_end_spec(s.drop_last())
    } else {
        s
    }
}

/// `s` without its leading and trailing white space.
pub open spec fn trim_spec(s: Seq<char>) -> Seq<char> {
    trim_end_spec(trim_start_spec(s))
}

/// Index of the first non-white-space character of `v` (or its length).
pub(crate) fn trim_start_index(v: &[char]) -> (a: usize)
    ensures
        a <= v@.len(),
        trim_start_spec(v@) == v@.skip(a as int),
{
    let mut a: usize = 0;
    assert(v@.skip(0) =~= v@);
    while a < v.len() && is_whitespace_char(v[a])
        invariant
            a <= v@.len(),
            trim_start_spec(v@) == trim_start_spec(v@.skip(a as int)),
        decreases v@.len() - a,
    {
        assert(v@.skip(a as int).drop_first() =~= v@.skip(a + 1));
        a = a + 1;
    }
    a
}

/// Index just past the last non-white-space character of `v[from..]` (or `from`).
pub(crate) fn trim_end_index(v: &[char], from: usize) -> (b: usize)
    requires
        from <= v@.len(),
    ensures
        from <= b <= v@.len(),
        trim_end_spec(v@.skip(from as int)) == v@.subrange(from as int, b as int),
{
    let mut b: usize = v.len();
    assert(v@.subrange(from as int, b as int) =~= v@.skip(from as int));
    while b > from && is_whitespace_char(v[b - 1])
        invariant
            from <= b <= v@.len(),
            trim_end_spec(v@.skip(from as int)) == trim_end_spec(v@.subrange(from as int, b as int)),
        decreases b,
    {
        assert(v@.subrange(from as int, b as int).drop_last() =~= v@.subrange(from as int, b - 1));
        b = b - 1;
    }
    b
}

/// The characters of `v` without leading and trailing white space.
pub(crate) fn trimmed_chars(v: &[char]) -> (r: Vec<char>)
    ensures
        r@ == trim_spec(v@),
{
    let a = trim_start_index(v);
    let b = trim_end_index(v, a);
    crate::base::chars::chars_range(v, a, b)
}

/// Removes leading and trailing white space; the input is handed back when
/// there is none.
pub fn trim_if_needed(s: String) -> (r: String)
    ensures
        r@ == trim_spec(s@),
{
    let v = chars_of(s.as_str());
    let a = trim_start_index(v.as_slice());
    let b = trim_end_index(v.as_slice(), a);
    if a == 0 && b == v.len() {
        assert(v@.subrange(0, v@.len() as int) =~= v@);
        s
    } else {
        string_from_range(v.as_slice(), a, b)
    }
}

/// Removes leading white space; the input is handed back when there is none.
pub fn trim_start_if_needed(s: String) -> (r: String)
    ensures
        r@ == trim_start_spec(s@),
{
    let v = chars_of(s.as_str());
    let a = trim_start_index(v.as_slice());
    if a == 0 {
        assert(v@.skip(0) =~= v@);
        s
    } else {
        let r = string_from_range(v.as_slice(), a, v.len());
        assert(r@ =~= v@.skip(a as int));
        r
    }
}

/// Removes trailing white space; the input is handed back when there is none.
pub fn trim_end_if_needed(s: String) -> (r: String)
    ensures
        r@ == trim_end_spec(s@),
{
    let v = chars_of(s.as_str());
    let b = trim_end_index(v.as_slice(), 0);
    assert(v@.skip(0) =~= v@);
    if b == v.len() {
        assert(v@.subrange(0, v@.len() as int) =~= v@);
        s
    } else {
        string_from_range(v.as_slice(), 0, b)
    }
}

/// `trim_start_spec` leaves no white space at the start.
pub proof fn lemma_trim_start_clean(s: Seq<char>)
    ensures
        trim_start_spec(s).len() == 0 || !is_white_space(trim_start_spec(s)[0]),
        (s.len() == 0 || !is_white_space(s[0])) ==> trim_start_spec(s) == s,
        trim_start_spec(s).len() <= s.len(),
    decreases s.len(),
{
    if s.len() > 0 && is_white_space(s[0]) {
        lemma_trim_start_clean(s.drop_first());
    }
}

/// `trim_end_spec` leaves no white space at the end.
pub proof fn lemma_trim_end_clean(s: Seq<char>)
    ensures
        trim_end_spec(s).len() == 0 || !is_white_space(trim_end_spec(s).last()),
        (s.len() == 0 || !is_white_space(s.last())) ==> trim_end_spec(s) == s,
        trim_end_spec(s).len() <= s.len(),
        trim_end_spec(s) == s.take(trim_end_spec(s).len() as int),
    decreases s.len(),
{
    if s.len() > 0 && is_white_space(s.last()) {
        lemma_trim_end_clean(s.drop_last());
        assert(s.drop_last().take(trim_end_spec(s).len() as int) =~= s.take(trim_end_spec(s).len() as int));
    } else {
        assert(s.take(s.len() as int) =~= s);
    }
}

/// Law: trimming leaves no white space at either end, and trimming again
/// changes nothing.
pub proof fn law_trim_idempotent(s: Seq<char>)
    ensures
        trim_spec(s).len() == 0 || (!is_white_space(trim_spec(s)[0]) && !is_white_space(
            trim_spec(s).last(),
        )),
        trim_spec(trim_spec(s)) == trim_spec(s),
{
    let a = trim_start_spec(s);
    let t = trim_end_spec(a);
    lemma_trim_start_clean(s);
    lemma_trim_end_clean(a);
    if t.len() > 0 {
        assert(t[0] == a[0]);
    }
    lemma_trim_start_clean(t);
    lemma_trim_end_clean(t);
}

// endregion: --- Trim

} // verus!
