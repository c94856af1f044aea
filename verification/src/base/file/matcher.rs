//! Matching text content against a literal (optionally ignoring case) or a
//! regular expression.

use regex::{Regex, RegexBuilder};
use vstd::prelude::*;

use crate::base::chars::{chars_of, contains_chars, contains_seq};
use crate::error::{is_custom_error, owned, Error, Result};

verus! {

// region:    --- Outside calls

/// The compiled regular expression type of the `regex` crate.
#[verifier::external_type_specification]
#[verifier::external_body]
pub struct ExRegex(Regex);

/// `str::to_lowercase` of `s`: its Unicode lowercase mapping.
pub uninterp spec fn unicode_lowercase(s: Seq<char>) -> Seq<char>;

/// std's `str::to_lowercase`; the Unicode tables it follows are left
/// unstated.
#[verifier::external_body]
fn str_to_lowercase(s: &str) -> (r: String)
    ensures
        r@ == unicode_lowercase(s@),
{
    s.to_lowercase()
}

/// Whether the `regex` crate builds `pattern` (with case-insensitive
/// matching when asked).
pub uninterp spec fn regex_builds(pattern: Seq<char>, ignore_case: bool) -> bool;

/// The text of the `regex` crate's error for a pattern it refuses.
pub uninterp spec fn regex_build_error(pattern: Seq<char>, ignore_case: bool) -> Seq<char>;

/// Whether the regular expression built from `pattern` matches somewhere in
/// `text`.
pub uninterp spec fn regex_is_match(pattern: Seq<char>, ignore_case: bool, text: Seq<char>) -> bool;

/// regex's `RegexBuilder::new(pattern).case_insensitive(ignore_case).build()`,
/// its error given as its text. Success and the error text are named, not
/// stated.
#[verifier::external_body]
fn build_regex(pattern: &str, ignore_case: bool) -> (r: core::result::Result<Regex, String>)
    ensures
        r is Ok <==> regex_builds(pattern@, ignore_case),
        r matches Err(m) ==> m@ == regex_build_error(pattern@, ignore_case),
{
    RegexBuilder::new(pattern).case_insensitive(ignore_case).build().map_err(|e| e.to_string())
}

// endregion: --- Outside calls

// region:    --- Compiled pattern

/// regex's `Clone` for `Regex`: a copy of the same compiled expression.
/// Nothing is stated of it.
#[verifier::external_body]
fn clone_regex(regex: &Regex) -> Regex {
    regex.clone()
}

/// A regular expression together with the pattern and case setting it was
/// built from.
#[derive(Debug)]
pub struct CompiledRegex {
    regex: Regex,
    pattern: String,
    ignore_case: bool,
}

impl CompiledRegex {
    /// The pattern it was built from.
    pub closed spec fn spec_pattern(&self) -> Seq<char> {
        self.pattern@
    }

    /// Whether it matches regardless of case.
    pub closed spec fn spec_ignore_case(&self) -> bool {
        self.ignore_case
    }

    /// Builds the regular expression of `pattern`.
    pub fn new(pattern: &str, ignore_case: bool) -> (r: core::result::Result<Self, String>)
        ensures
            r is Ok <==> regex_builds(pattern@, ignore_case),
            r matches Ok(c) ==> c.spec_pattern() == pattern@ && c.spec_ignore_case() == ignore_case,
            r matches Err(m) ==> m@ == regex_build_error(pattern@, ignore_case),
    {
        match build_regex(pattern, ignore_case) {
            Ok(regex) => Ok(CompiledRegex { regex, pattern: owned(pattern), ignore_case }),
            Err(m) => Err(m),
        }
    }

    /// regex's `Regex::is_match`: whether the expression matches somewhere
    /// in `text`. A value of this type is only made by `new`, from the
    /// pattern and case setting it records, or cloned from such a value.
    #[verifier::external_body]
    fn is_match(&self, text: &str) -> (r: bool)
        ensures
            r == regex_is_match(self.spec_pattern(), self.spec_ignore_case(), text@),
    {
        self.regex.is_match(text)
    }
}

impl Clone for CompiledRegex {
    /// A copy of the same expression, pattern and case setting.
    fn clone(&self) -> (r: Self)
        ensures
            r.spec_pattern() == self.spec_pattern(),
            r.spec_ignore_case() == self.spec_ignore_case(),
    {
        CompiledRegex { regex: clone_regex(&self.regex), pattern: owned(self.pattern.as_str()), ignore_case: self.ignore_case }
    }
}

// endregion: --- Compiled pattern

// region:    --- Content matcher

/// What a line of content is matched against.
#[derive(Debug, Clone)]
pub enum ContentMatcher {
    /// A text to look for; in lower case when case is ignored.
    Literal { text: String, ignore_case: bool },
    /// A regular expression.
    Regex { regex: CompiledRegex, pattern: String, ignore_case: bool },
}

/// Whether `content` matches: it holds the literal text (compared in lower
/// case when case is ignored), or the regular expression matches in it.
pub open spec fn matches_spec(m: ContentMatcher, content: Seq<char>) -> bool {
    match m {
        ContentMatcher::Literal { text, ignore_case } => if ignore_case {
            contains_seq(unicode_lowercase(content), text@)
        } else {
            contains_seq(content, text@)
        },
        ContentMatcher::Regex { regex, .. } => regex_is_match(
            regex.spec_pattern(),
            regex.spec_ignore_case(),
            content,
        ),
    }
}

impl ContentMatcher {
    /// A literal matcher; the text is kept in lower case when case is
    /// ignored.
    pub fn new_literal(text: &str, ignore_case: bool) -> (r: Self)
        ensures
            r == (ContentMatcher::Literal {
                text: r->Literal_text,
                ignore_case,
            }),
            r->Literal_text@ == if ignore_case {
                unicode_lowercase(text@)
            } else {
                text@
            },
    {
        let text = if ignore_case {
            str_to_lowercase(text)
        } else {
            owned(text)
        };
        ContentMatcher::Literal { text, ignore_case }
    }

    /// A regular-expression matcher; fails with the `regex` crate's message
    /// when the pattern does not build.
    pub fn new_regex(pattern: &str, ignore_case: bool) -> (r: Result<Self>)
        ensures
            r is Ok <==> regex_builds(pattern@, ignore_case),
            r matches Ok(m) ==> (m matches ContentMatcher::Regex { regex, pattern: p, ignore_case: ic } && p@
                == pattern@ && ic == ignore_case && regex.spec_pattern() == pattern@ && regex.spec_ignore_case()
                == ignore_case),
            r matches Err(e) ==> is_custom_error(e, regex_build_error(pattern@, ignore_case)),
    {
        match CompiledRegex::new(pattern, ignore_case) {
            Ok(regex) => Ok(ContentMatcher::Regex { regex, pattern: owned(pattern), ignore_case }),
            Err(m) => Err(Error::Custom(m)),
        }
    }

    /// Whether a piece of content matches.
    pub fn matches_str(&self, content: &str) -> (r: bool)
        ensures
            r == matches_spec(*self, content@),
    {
        match self {
            ContentMatcher::Literal { text, ignore_case } => {
                let needle = chars_of(text.as_str());
                if *ignore_case {
                    let lower = str_to_lowercase(content);
                    let hay = chars_of(lower.as_str());
                    contains_chars(hay.as_slice(), needle.as_slice())
                } else {
                    let hay = chars_of(content);
                    contains_chars(hay.as_slice(), needle.as_slice())
                }
            },
            ContentMatcher::Regex { regex, .. } => regex.is_match(content),
        }
    }
}

// endregion: --- Content matcher

} // verus!
