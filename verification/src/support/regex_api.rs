//! Calls into the `regex` crate.

use vstd::prelude::*;

use crate::base::text::opt_view;

verus! {

/// What the `regex` crate finds for capture group `group` of the leftmost
/// match of `pattern` in `text`: `None` when the pattern does not compile, when
/// nothing matches, or when the group took no part in the match.
pub uninterp spec fn regex_first_capture(pattern: Seq<char>, text: Seq<char>, group: nat) -> Option<Seq<char>>;

/// Calls `regex::Regex::new(pattern)` and then `captures(text)` and
/// `get(group)` on the first match. The result is the crate's, named by
/// `regex_first_capture`; nothing more is claimed of it.
#[verifier::external_body]
pub(crate) fn regex_capture(pattern: &str, text: &str, group: usize) -> (r: Option<String>)
    ensures
        opt_view(r) == regex_first_capture(pattern@, text@, group as nat),
{
    let rx = match regex::Regex::new(pattern) {
        Ok(rx) => rx,
        Err(_) => return None,
    };
    let caps = rx.captures(text)?;
    let m = caps.get(group)?;
    Some(m.as_str().to_string())
}

} // verus!
