//! The title and description of a handler, read from its doc comment lines:
//! a first line `# Title` gives the title, the rest the description.

use vstd::prelude::*;

use crate::base::chars::{chars_of, has_prefix, starts_with_chars, string_from_chars};
use crate::base::lines::{lines_of, lines_spec};
use crate::base::split::{join_chars, join_with};
use crate::base::text::{opt_view, trim_spec, trimmed_chars};
use crate::error_lua_details::string_views;

verus! {

/// The index of the first line that is not blank, or the number of lines.
pub open spec fn first_nonblank(ls: Seq<Seq<char>>) -> nat
    decreases ls.len(),
{
    if ls.len() == 0 || trim_spec(ls[0]).len() > 0 {
        0
    } else {
        1 + first_nonblank(ls.drop_first())
    }
}

/// The index of the first line whose trimmed text is `t`, or the number of
/// lines.
pub open spec fn first_trimmed_equal(ls: Seq<Seq<char>>, t: Seq<char>) -> nat
    decreases ls.len(),
{
    if ls.len() == 0 || trim_spec(ls[0]) == t {
        0
    } else {
        1 + first_trimmed_equal(ls.drop_first(), t)
    }
}

/// The title and description of doc lines: their text joined with newlines
/// and trimmed; nothing when it is empty; when its first non-blank line,
/// trimmed, starts with `# `, the rest of that line (trimmed) is the title
/// and the lines after it (joined, trimmed, if not empty) the description;
/// otherwise the whole text is the description.
pub open spec fn title_desc_spec(doc_lines: Seq<Seq<char>>) -> (Option<Seq<char>>, Option<Seq<char>>) {
    let doc = trim_spec(join_with(doc_lines, seq!['\n']));
    if doc.len() == 0 {
        (None, None)
    } else {
        let ls = lines_spec(doc);
        let k = first_nonblank(ls);
        if k < ls.len() && has_prefix(trim_spec(ls[k as int]), "# "@) {
            let first = trim_spec(ls[k as int]);
            let title = trim_spec(first.skip(2));
            let idx = first_trimmed_equal(ls, first);
            let rest = trim_spec(join_with(ls.skip(idx + 1int), seq!['\n']));
            (Some(title), if rest.len() == 0 { None } else { Some(rest) })
        } else {
            (None, Some(doc))
        }
    }
}

/// `first_nonblank` from index `i` when the lines before it are blank.
proof fn lemma_first_nonblank_at(ls: Seq<Seq<char>>, i: int)
    requires
        0 <= i <= ls.len(),
        forall|j: int| 0 <= j < i ==> trim_spec(#[trigger] ls[j]).len() == 0,
        i == ls.len() || trim_spec(ls[i]).len() > 0,
    ensures
        first_nonblank(ls) == i,
    decreases i,
{
    if i > 0 {
        let t = ls.drop_first();
        assert forall|j: int| 0 <= j < i - 1 implies trim_spec(#[trigger] t[j]).len() == 0 by {
            assert(t[j] == ls[j + 1]);
        }
        if i < ls.len() {
            assert(t[i - 1] == ls[i]);
        }
        lemma_first_nonblank_at(t, i - 1);
    }
}

/// `first_trimmed_equal` from index `i` when the lines before it differ.
proof fn lemma_first_trimmed_equal_at(ls: Seq<Seq<char>>, t: Seq<char>, i: int)
    requires
        0 <= i <= ls.len(),
        forall|j: int| 0 <= j < i ==> trim_spec(#[trigger] ls[j]) != t,
        i == ls.len() || trim_spec(ls[i]) == t,
    ensures
        first_trimmed_equal(ls, t) == i,
    decreases i,
{
    if i > 0 {
        let s = ls.drop_first();
        assert forall|j: int| 0 <= j < i - 1 implies trim_spec(#[trigger] s[j]) != t by {
            assert(s[j] == ls[j + 1]);
        }
        if i < ls.len() {
            assert(s[i - 1] == ls[i]);
        }
        lemma_first_trimmed_equal_at(s, t, i - 1);
    }
}

/// An owned copy of characters as a string, when not empty.
fn nonempty_string(v: &Vec<char>) -> (r: Option<String>)
    ensures
        opt_view(r) == if v@.len() == 0 { None } else { Some(v@) },
{
    if v.len() == 0 {
        None
    } else {
        Some(string_from_chars(v.as_slice()))
    }
}

/// Reads the title and description of a handler from its doc lines.
pub fn extract_title_desc(doc_lines: &[String]) -> (r: (Option<String>, Option<String>))
    ensures
        (opt_view(r.0), opt_view(r.1)) == title_desc_spec(string_views(doc_lines@)),
{
    let ghost lines_in = string_views(doc_lines@);
    // -- The doc text, joined and trimmed
    let mut parts: Vec<Vec<char>> = Vec::new();
    let mut i: usize = 0;
    while i < doc_lines.len()
        invariant
            i <= doc_lines@.len(),
            lines_in == string_views(doc_lines@),
            parts@.map_values(|p: Vec<char>| p@) == lines_in.take(i as int),
        decreases doc_lines@.len() - i,
    {
        let ghost before = parts@.map_values(|p: Vec<char>| p@);
        let c = chars_of(doc_lines[i].as_str());
        parts.push(c);
        assert(parts@.map_values(|p: Vec<char>| p@) =~= before.push(lines_in[i as int]));
        assert(lines_in.take(i + 1) =~= lines_in.take(i as int).push(lines_in[i as int]));
        i = i + 1;
    }
    assert(lines_in.take(doc_lines@.len() as int) =~= lines_in);
    let nl: Vec<char> = vec!['\n'];
    assert(nl@ =~= seq!['\n']);
    let joined = join_chars(&parts, nl.as_slice());
    let doc = trimmed_chars(joined.as_slice());
    if doc.len() == 0 {
        return (None, None);
    }
    // -- Its lines
    let ls = lines_of(doc.as_slice());
    let ghost lsv = lines_spec(doc@);
    let mut k: usize = 0;
    while k < ls.len() && trimmed_chars(ls[k].as_slice()).len() == 0
        invariant
            k <= ls@.len() == lsv.len(),
            lsv == lines_spec(doc@),
            forall|j: int| 0 <= j < ls@.len() ==> #[trigger] ls@[j]@ == lsv[j],
            forall|j: int| 0 <= j < k ==> trim_spec(#[trigger] lsv[j]).len() == 0,
        decreases ls@.len() - k,
    {
        k = k + 1;
    }
    proof {
        lemma_first_nonblank_at(lsv, k as int);
    }
    let prefix = chars_of("# ");
    proof {
        reveal_strlit("# ");
    }
    assert(prefix@.len() == 2);
    if k < ls.len() {
        let first = trimmed_chars(ls[k].as_slice());
        if starts_with_chars(first.as_slice(), prefix.as_slice()) {
            let after = crate::base::chars::chars_range(first.as_slice(), 2, first.len());
            assert(after@ =~= first@.skip(2));
            let title = trimmed_chars(after.as_slice());
            // -- The line of the title, found again by its trimmed text
            let mut idx: usize = 0;
            while idx < ls.len() && !crate::base::chars::same_chars(trimmed_chars(ls[idx].as_slice()).as_slice(), first.as_slice())
                invariant
                    idx <= ls@.len() == lsv.len(),
                    forall|j: int| 0 <= j < ls@.len() ==> #[trigger] ls@[j]@ == lsv[j],
                    forall|j: int| 0 <= j < idx ==> trim_spec(#[trigger] lsv[j]) != first@,
                decreases ls@.len() - idx,
            {
                idx = idx + 1;
            }
            proof {
                lemma_first_trimmed_equal_at(lsv, first@, idx as int);
            }
            // -- The lines after it, joined and trimmed
            let mut rest_parts: Vec<Vec<char>> = Vec::new();
            let mut j: usize = idx + 1;
            let ghost tail = lsv.skip(idx + 1);
            while j < ls.len()
                invariant
                    idx < j <= ls@.len() + 1,
                    j <= ls@.len() || j == idx + 1,
                    ls@.len() == lsv.len(),
                    tail == lsv.skip(idx + 1),
                    forall|x: int| 0 <= x < ls@.len() ==> #[trigger] ls@[x]@ == lsv[x],
                    rest_parts@.map_values(|p: Vec<char>| p@) == tail.take(j - idx - 1),
                decreases ls@.len() - j,
            {
                let ghost before = rest_parts@.map_values(|p: Vec<char>| p@);
                let copy = crate::base::chars::chars_range(ls[j].as_slice(), 0, ls[j].len());
                assert(copy@ =~= lsv[j as int]);
                rest_parts.push(copy);
                assert(rest_parts@.map_values(|p: Vec<char>| p@) =~= before.push(lsv[j as int]));
                assert(tail.take(j - idx) =~= tail.take(j - idx - 1).push(lsv[j as int]));
                j = j + 1;
            }
            assert(tail.take(tail.len() as int) =~= tail);
            assert(rest_parts@.map_values(|p: Vec<char>| p@) =~= tail) by {
                if idx + 1 > ls@.len() {
                    assert(tail.len() == 0);
                }
            }
            let rest_joined = join_chars(&rest_parts, nl.as_slice());
            let rest = trimmed_chars(rest_joined.as_slice());
            let desc = nonempty_string(&rest);
            return (Some(string_from_chars(title.as_slice())), desc);
        }
    }
    (None, Some(string_from_chars(doc.as_slice())))
}

} // verus!
