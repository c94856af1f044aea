//! Script-aware details for a failed Lua execution: the script, the failing
//! line, the annotated lines around it, the message and the stack traceback.

use vstd::prelude::*;

use crate::base::chars::{chars_of, push_char, push_chars, push_str, string_from_range};
use crate::base::lines::{join_lines, lemma_join_push, lines_of, lines_spec};
use crate::base::number_text::{decimal, decimal_chars};
use crate::base::chars::{find_seq, first_index, has_suffix, lemma_first_index_is};
use crate::base::number_text::{parse_unsigned, parse_unsigned_spec};
use crate::base::text::{opt_view, trim_end_if_needed, trim_end_spec};
use crate::support::lua_api::{lua_error_chain_texts, lua_error_texts};
use crate::support::regex_api::{regex_capture, regex_first_capture};
use mlua::Error as MluaError;

verus! {

/// Number of lines shown before and after the failing line.
pub const SURROUND_LINES: usize = 2;

/// `s` padded on the left with spaces to at least `width` characters.
pub open spec fn pad_left(s: Seq<char>, width: nat) -> Seq<char> {
    if s.len() >= width {
        s
    } else {
        Seq::new((width - s.len()) as nat, |_i: int| ' ') + s
    }
}

/// One annotated source line: a `>` marks the failing line, and the 1-based
/// line number is right-aligned to `width`.
pub open spec fn surround_row(i: nat, failing: nat, width: nat, line: Seq<char>) -> Seq<char> {
    "  "@ + (if i == failing { ">"@ } else { " "@ }) + " "@ + pad_left(decimal(i + 1), width) + " | "@
        + line
}

/// First line index (0-based) shown around the failing line `idx`.
pub open spec fn surround_start(idx: nat) -> nat {
    if idx >= SURROUND_LINES { (idx - SURROUND_LINES) as nat } else { 0 }
}

/// End (exclusive, 0-based) of the lines shown around the failing line `idx`.
pub open spec fn surround_end(idx: nat, n: nat) -> nat {
    if idx + SURROUND_LINES + 1 <= n { (idx + SURROUND_LINES + 1) as nat } else { n }
}

/// The annotated block around line `line_number` (1-based) of `script`, or
/// `None` when there is no such line.
pub open spec fn surround_code_spec(script: Seq<char>, line_number: u32) -> Option<Seq<char>> {
    let lines = lines_spec(script);
    if line_number == 0 || line_number - 1 >= lines.len() {
        None
    } else {
        let idx = (line_number - 1) as nat;
        let start = surround_start(idx);
        let end = surround_end(idx, lines.len());
        let width = decimal(end).len();
        Some(
            join_lines(
                Seq::new(
                    (end - start) as nat,
                    |k: int| surround_row((start + k) as nat, idx, width, lines[start + k]),
                ),
            ),
        )
    }
}

/// The first line (1-based) shown around line `k`.
pub open spec fn first_shown(k: int) -> int {
    if k >= 3 {
        k - 2
    } else {
        1
    }
}

/// The last line (1-based) shown around line `k` of `n` lines.
pub open spec fn last_shown(k: int, n: int) -> int {
    if k + 2 <= n {
        k + 2
    } else {
        n
    }
}

/// Law: the block around line `k` exists exactly when the script has a
/// line `k`. It is then made of one row per line from `k - 2` to `k + 2`
/// (kept within the script), each row holding its line, and exactly the
/// row of line `k` is marked with `>`.
pub proof fn law_surround_block(script: Seq<char>, k: u32)
    ensures
        surround_code_spec(script, k) is Some <==> 1 <= k <= lines_spec(script).len(),
        surround_code_spec(script, k) is Some ==> exists|rows: Seq<Seq<char>>|
            {
                &&& surround_code_spec(script, k) == Some(join_lines(rows))
                &&& rows.len() == last_shown(k as int, lines_spec(script).len() as int) - first_shown(k as int) + 1
                &&& forall|j: int|
                    0 <= j < rows.len() ==> {
                        &&& #[trigger] rows[j].len() > 2
                        &&& (rows[j][2] == '>' <==> first_shown(k as int) + j == k)
                        &&& has_suffix(rows[j], lines_spec(script)[first_shown(k as int) + j - 1])
                    }
            },
{
    let lines = lines_spec(script);
    if 1 <= k <= lines.len() {
        let idx = (k - 1) as nat;
        let start = surround_start(idx);
        let end = surround_end(idx, lines.len());
        let width = decimal(end).len();
        let rows = Seq::new(
            (end - start) as nat,
            |j: int| surround_row((start + j) as nat, idx, width, lines[start + j]),
        );
        assert(surround_code_spec(script, k) == Some(join_lines(rows)));
        assert forall|j: int| 0 <= j < rows.len() implies {
            &&& #[trigger] rows[j].len() > 2
            &&& (rows[j][2] == '>' <==> first_shown(k as int) + j == k)
            &&& has_suffix(rows[j], lines[first_shown(k as int) + j - 1])
        } by {
            reveal_strlit("  ");
            reveal_strlit(">");
            reveal_strlit(" ");
            reveal_strlit(" | ");
            let i = (start + j) as nat;
            let mark = if i == idx { ">"@ } else { " "@ };
            let head = "  "@ + mark + " "@ + pad_left(decimal(i + 1), width) + " | "@;
            assert(rows[j] == head + lines[start + j]);
            assert(head[2] == mark[0]);
            assert((head + lines[start + j])[2] == head[2]);
            let t = head + lines[start + j];
            assert(t.subrange(t.len() - lines[start + j].len(), t.len() as int) =~= lines[start + j]);
        }
    }
}

/// The surround code for an optional line number.
pub open spec fn surround_for(script: Seq<char>, line_number: Option<u32>) -> Option<Seq<char>> {
    match line_number {
        Some(n) => surround_code_spec(script, n),
        None => None,
    }
}

/// How the details render as text.
pub open spec fn details_display(
    message: Seq<char>,
    line_number: Option<u32>,
    surround: Option<Seq<char>>,
    stack_trace: Option<Seq<char>>,
) -> Seq<char> {
    message + match line_number {
        Some(n) => "\n  at line "@ + decimal(n as nat) + ":"@ + match surround {
            Some(sc) => "\n"@ + sc,
            None => Seq::empty(),
        },
        None => Seq::empty(),
    } + match stack_trace {
        Some(t) => "\n"@ + t,
        None => Seq::empty(),
    }
}

/// Pattern of an error location in a script loaded as `=script`, e.g. `script:12:`.
pub const SCRIPT_LINE_PATTERN: &'static str = "\\bscript:(\\d+):";

/// Marker that starts a Lua stack traceback.
pub const STACK_TRACEBACK: &'static str = "stack traceback:";

/// The line number an error text points at: the digits of the first
/// `script:<n>:` location, when they fit a `u32`.
pub open spec fn script_line_in(text: Seq<char>) -> Option<u32> {
    match regex_first_capture(SCRIPT_LINE_PATTERN@, text, 1) {
        Some(d) => match parse_unsigned_spec(d, u32::MAX as nat) {
            Some(v) => Some(v as u32),
            None => None,
        },
        None => None,
    }
}

/// The first line number found in the texts of an error chain.
pub open spec fn chain_line_number(texts: Seq<Seq<char>>) -> Option<u32>
    decreases texts.len(),
{
    if texts.len() == 0 {
        None
    } else {
        match chain_line_number(texts.drop_last()) {
            Some(n) => Some(n),
            None => script_line_in(texts.last()),
        }
    }
}

/// The message part of an error text: what comes before the stack traceback
/// (without trailing white space), or the whole text when it has none.
pub open spec fn text_message(text: Seq<char>) -> Seq<char> {
    match first_index(text, STACK_TRACEBACK@) {
        Some(i) => trim_end_spec(text.take(i)),
        None => text,
    }
}

/// The traceback part of an error text, from `stack traceback:` on.
pub open spec fn text_traceback(text: Seq<char>) -> Option<Seq<char>> {
    match first_index(text, STACK_TRACEBACK@) {
        Some(i) => Some(text.skip(i)),
        None => None,
    }
}

/// The message of an error chain: that of its first text, or empty.
pub open spec fn chain_message(texts: Seq<Seq<char>>) -> Seq<char> {
    if texts.len() == 0 {
        Seq::empty()
    } else {
        text_message(texts[0])
    }
}

/// The first stack traceback found in the texts of an error chain.
pub open spec fn chain_traceback(texts: Seq<Seq<char>>) -> Option<Seq<char>>
    decreases texts.len(),
{
    if texts.len() == 0 {
        None
    } else {
        match chain_traceback(texts.drop_last()) {
            Some(t) => Some(t),
            None => text_traceback(texts.last()),
        }
    }
}

/// The views of a sequence of strings.
pub open spec fn string_views(v: Seq<String>) -> Seq<Seq<char>> {
    v.map_values(|s: String| s@)
}

/// Script-aware error details. The annotated block around the failing line is
/// derived from the script and the line number when the value is built.
pub struct LuaErrorDetails {
    script: String,
    line_number: Option<u32>,
    surround_code: Option<String>,
    message: String,
    stack_trace: Option<String>,
}

impl LuaErrorDetails {
    /// The annotated block always matches the script and the line number.
    #[verifier::type_invariant]
    spec fn derived_surround(self) -> bool {
        opt_view(self.surround_code) == surround_for(self.script@, self.line_number)
    }

    /// The full script.
    pub closed spec fn spec_script(self) -> Seq<char> {
        self.script@
    }

    /// The failing line number, if known.
    pub closed spec fn spec_line_number(self) -> Option<u32> {
        self.line_number
    }

    /// The annotated block around the failing line, if any.
    pub closed spec fn spec_surround_code(self) -> Option<Seq<char>> {
        opt_view(self.surround_code)
    }

    /// The error message.
    pub closed spec fn spec_message(self) -> Seq<char> {
        self.message@
    }

    /// The stack traceback, if any.
    pub closed spec fn spec_stack_trace(self) -> Option<Seq<char>> {
        opt_view(self.stack_trace)
    }

    /// Builds the details from the full script, an optional failing line
    /// number, the message and an optional stack traceback; the annotated
    /// block is derived from the script and the line number.
    pub fn new(script: &str, line_number: Option<u32>, message: &str, stack_trace: Option<String>) -> (r: Self)
        ensures
            r.spec_script() == script@,
            r.spec_line_number() == line_number,
            r.spec_surround_code() == surround_for(script@, line_number),
            r.spec_message() == message@,
            r.spec_stack_trace() == opt_view(stack_trace),
    {
        let surround_code = match line_number {
            Some(num) => build_surround_code(script, num),
            None => None,
        };
        let sv = chars_of(script);
        let mv = chars_of(message);
        let script_copy = string_from_range(sv.as_slice(), 0, sv.len());
        let message_copy = string_from_range(mv.as_slice(), 0, mv.len());
        assert(script_copy@ =~= script@);
        assert(message_copy@ =~= message@);
        LuaErrorDetails {
            script: script_copy,
            line_number,
            surround_code,
            message: message_copy,
            stack_trace,
        }
    }

    /// Builds the details from the texts of an error chain (outermost first)
    /// and the executed script. The first `script:<n>:` location gives the
    /// failing line; the first text gives the message, cut before its
    /// `stack traceback:` if it has one; the first text with a traceback gives
    /// the stack trace.
    pub fn from_error_chain(texts: &[String], script: &str) -> (r: Self)
        ensures
            r.spec_script() == script@,
            r.spec_line_number() == chain_line_number(string_views(texts@)),
            r.spec_surround_code() == surround_for(script@, chain_line_number(string_views(texts@))),
            r.spec_message() == chain_message(string_views(texts@)),
            r.spec_stack_trace() == chain_traceback(string_views(texts@)),
    {
        let ghost views = string_views(texts@);
        let mut line_number: Option<u32> = None;
        let mut message: Option<String> = None;
        let mut stack_trace: Option<String> = None;
        let mut k: usize = 0;
        assert(views.take(0) =~= Seq::<Seq<char>>::empty());
        while k < texts.len()
            invariant
                k <= texts@.len() == views.len(),
                views == string_views(texts@),
                line_number == chain_line_number(views.take(k as int)),
                opt_view(stack_trace) == chain_traceback(views.take(k as int)),
                k == 0 <==> message is None,
                k > 0 ==> opt_view(message) == Some(chain_message(views.take(k as int))),
            decreases texts@.len() - k,
        {
            let item = &texts[k];
            let iv = chars_of(item.as_str());
            assert(views.take(k + 1).drop_last() =~= views.take(k as int));
            assert(views.take(k + 1).last() == item@);
            if line_number.is_none() {
                line_number = match regex_capture(SCRIPT_LINE_PATTERN, item.as_str(), 1) {
                    Some(d) => {
                        let dv = chars_of(d.as_str());
                        match parse_unsigned(dv.as_slice(), 0xFFFF_FFFF) {
                            Some(v) => Some(v as u32),
                            None => None,
                        }
                    },
                    None => None,
                };
            }
            let tv = chars_of(STACK_TRACEBACK);
            match find_seq(iv.as_slice(), tv.as_slice()) {
                Some(tb_idx) => {
                    proof {
                        lemma_first_index_is(item@, STACK_TRACEBACK@, tb_idx as int);
                    }
                    if message.is_none() {
                        let before = string_from_range(iv.as_slice(), 0, tb_idx);
                        message = Some(trim_end_if_needed(before));
                    }
                    if stack_trace.is_none() {
                        let after = string_from_range(iv.as_slice(), tb_idx, iv.len());
                        assert(after@ =~= item@.skip(tb_idx as int));
                        stack_trace = Some(after);
                    }
                },
                None => {
                    if message.is_none() {
                        message = Some(string_from_range(iv.as_slice(), 0, iv.len()));
                        assert(iv@.subrange(0, iv@.len() as int) =~= item@);
                    }
                },
            }
            assert(views.take(k + 1)[0] == views[0]);
            k = k + 1;
        }
        assert(views.take(views.len() as int) =~= views);
        let msg = match message {
            Some(m) => m,
            None => String::new(),
        };
        Self::new(script, line_number, msg.as_str(), stack_trace)
    }

    /// Builds the details from an `mlua` error and the executed script (loaded
    /// with the chunk name `=script`, so locations read `script:12:`).
    pub fn from_lua_error(lua_error: &MluaError, script: &str) -> (r: Self)
        ensures
            r.spec_script() == script@,
            r.spec_line_number() == chain_line_number(lua_error_texts(*lua_error)),
            r.spec_surround_code() == surround_for(script@, chain_line_number(lua_error_texts(*lua_error))),
            r.spec_message() == chain_message(lua_error_texts(*lua_error)),
            r.spec_stack_trace() == chain_traceback(lua_error_texts(*lua_error)),
    {
        let texts = lua_error_chain_texts(lua_error);
        assert(string_views(texts@) == lua_error_texts(*lua_error));
        Self::from_error_chain(texts.as_slice(), script)
    }

    /// The full script.
    pub fn script(&self) -> (r: &str)
        ensures
            r@ == self.spec_script(),
    {
        self.script.as_str()
    }

    /// The failing line number, if known.
    pub fn line_number(&self) -> (r: Option<u32>)
        ensures
            r == self.spec_line_number(),
    {
        self.line_number
    }

    /// The annotated block around the failing line, if any.
    pub fn surround_code(&self) -> (r: Option<&str>)
        ensures
            match r {
                Some(s) => self.spec_surround_code() == Some(s@),
                None => self.spec_surround_code() is None,
            },
            self.spec_surround_code() == surround_for(self.spec_script(), self.spec_line_number()),
    {
        proof {
            use_type_invariant(self);
        }
        match &self.surround_code {
            Some(s) => Some(s.as_str()),
            None => None,
        }
    }

    /// The error message.
    pub fn message(&self) -> (r: &str)
        ensures
            r@ == self.spec_message(),
    {
        self.message.as_str()
    }

    /// The stack traceback, if any.
    pub fn stack_trace(&self) -> (r: Option<&str>)
        ensures
            match r {
                Some(s) => self.spec_stack_trace() == Some(s@),
                None => self.spec_stack_trace() is None,
            },
    {
        match &self.stack_trace {
            Some(s) => Some(s.as_str()),
            None => None,
        }
    }

    /// The details as text: the message, then the failing line and its
    /// annotated block when the line is known, then the stack traceback.
    pub fn to_string(&self) -> (r: String)
        ensures
            r@ == details_display(
                self.spec_message(),
                self.spec_line_number(),
                self.spec_surround_code(),
                self.spec_stack_trace(),
            ),
    {
        let mut s = String::new();
        push_str(&mut s, self.message.as_str());
        match self.line_number {
            Some(n) => {
                push_str(&mut s, "\n  at line ");
                let d = decimal_chars(n as u64);
                push_chars(&mut s, d.as_slice());
                push_str(&mut s, ":");
                match &self.surround_code {
                    Some(sc) => {
                        push_str(&mut s, "\n");
                        push_str(&mut s, sc.as_str());
                    },
                    None => {},
                }
            },
            None => {},
        }
        match &self.stack_trace {
            Some(t) => {
                push_str(&mut s, "\n");
                push_str(&mut s, t.as_str());
            },
            None => {},
        }
        proof {
            let m = self.spec_message();
            let a = match self.spec_line_number() {
                Some(n) => "\n  at line "@ + decimal(n as nat) + ":"@ + match self.spec_surround_code() {
                    Some(sc) => "\n"@ + sc,
                    None => Seq::empty(),
                },
                None => Seq::empty(),
            };
            let b = match self.spec_stack_trace() {
                Some(t) => "\n"@ + t,
                None => Seq::<char>::empty(),
            };
            assert(s@ =~= m + a + b);
        }
        s
    }
}

/// Appends one annotated row to `out`.
fn push_row(out: &mut String, i: usize, failing: usize, width: usize, line: &[char])
    requires
        i < usize::MAX,
    ensures
        final(out)@ == old(out)@ + surround_row(i as nat, failing as nat, width as nat, line@),
{
    push_str(out, "  ");
    if i == failing {
        push_str(out, ">");
    } else {
        push_str(out, " ");
    }
    push_str(out, " ");
    let d = decimal_chars((i + 1) as u64);
    let mut k: usize = d.len();
    let ghost before = out@;
    while k < width
        invariant
            d@.len() <= k <= width || (k == d@.len() && k >= width),
            out@ == before + Seq::new((k - d@.len()) as nat, |_i: int| ' '),
        decreases width - k,
    {
        push_char(out, ' ');
        k = k + 1;
        assert(Seq::new((k - 1 - d@.len()) as nat, |_i: int| ' ').push(' ') =~= Seq::new(
            (k - d@.len()) as nat,
            |_i: int| ' ',
        ));
    }
    push_chars(out, d.as_slice());
    push_str(out, " | ");
    push_chars(out, line);
    proof {
        let pad = Seq::new((k - d@.len()) as nat, |_i: int| ' ');
        assert(pad_left(decimal((i + 1) as nat), width as nat) =~= pad + d@);
    }
}

/// Builds the annotated block around line `line_number` (1-based), e.g.
/// `    11 | local data = load_input()` with a `>` on the failing line.
/// Returns `None` when the script has no such line.
pub fn build_surround_code(script: &str, line_number: u32) -> (r: Option<String>)
    ensures
        opt_view(r) == surround_code_spec(script@, line_number),
{
    let sv = chars_of(script);
    let lines = lines_of(sv.as_slice());
    let ghost ls = lines_spec(script@);
    if line_number == 0 {
        return None;
    }
    let line_idx = (line_number - 1) as usize;
    if line_idx >= lines.len() {
        return None;
    }
    let start = if line_idx >= SURROUND_LINES { line_idx - SURROUND_LINES } else { 0 };
    let end = if lines.len() - line_idx > SURROUND_LINES + 1 { line_idx + SURROUND_LINES + 1 } else { lines.len() };
    let width = decimal_chars(end as u64).len();
    let ghost rows = Seq::new(
        (end - start) as nat,
        |k: int| surround_row((start + k) as nat, line_idx as nat, width as nat, ls[start + k]),
    );
    let mut out = String::new();
    let mut i: usize = start;
    assert(rows.take(0) =~= Seq::<Seq<char>>::empty());
    while i < end
        invariant
            start <= i <= end <= lines@.len() == ls.len(),
            forall|k: int| 0 <= k < lines@.len() ==> #[trigger] lines@[k]@ == ls[k],
            rows.len() == end - start,
            forall|k: int| 0 <= k < rows.len() ==> #[trigger] rows[k] == surround_row(
                (start + k) as nat,
                line_idx as nat,
                width as nat,
                ls[start + k],
            ),
            out@ == join_lines(rows.take(i - start)),
        decreases end - i,
    {
        proof {
            reveal_strlit("\n");
            lemma_join_push(rows.take(i - start), rows[i - start]);
            assert(rows.take(i - start + 1) =~= rows.take(i - start).push(rows[i - start]));
        }
        if i > start {
            push_str(&mut out, "\n");
        }
        push_row(&mut out, i, line_idx, width, lines[i].as_slice());
        i = i + 1;
    }
    assert(rows.take(end - start) =~= rows);
    Some(out)
}

} // verus!
