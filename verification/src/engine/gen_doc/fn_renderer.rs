//! Pieces of the rendered function documentation: comment blocks and type
//! names derived from function paths.

use vstd::prelude::*;

use crate::base::chars::{
    append_chars, has_prefix, has_suffix, char_uppercase, chars_of, chars_range, push_chars, push_str, same_chars, string_from_chars,
    to_uppercase_chars,
};
use crate::base::lines::{lines_of, lines_spec};
use crate::base::pairs::{char_pairs, find_pair, keys_unique, lemma_lookup_none, lemma_push_new_key, lookup, Pairs};
use crate::base::split::{join_chars, join_with, lemma_join_with_push};
use crate::base::text::{opt_view, trim_spec, trimmed_chars};
use crate::engine::gen_doc::schema_json::{is_inlineable_spec, is_inlineable_type, json_text, to_json_text, JsonValue};
use crate::engine::gen_doc::type_renderer::{
    description_of, render_spec, render_type, render_type_block, schema_description, type_block_spec,
};

verus! {

// region:    --- Doc comments

/// One line of a comment block: `//` alone for an empty line, else `// `
/// and the line.
pub open spec fn comment_line(l: Seq<char>) -> Seq<char> {
    if l.len() == 0 {
        seq!['/', '/', '\n']
    } else {
        seq!['/', '/', ' '] + l + seq!['\n']
    }
}

/// The comment lines for `ls`, each line trimmed first.
pub open spec fn comment_block(ls: Seq<Seq<char>>) -> Seq<char>
    decreases ls.len(),
{
    if ls.len() == 0 {
        Seq::empty()
    } else {
        comment_block(ls.drop_last()) + comment_line(trim_spec(ls.last()))
    }
}

/// A description as a block of `//` comment lines; empty when the
/// description is only white space.
pub open spec fn doc_comment_spec(desc: Seq<char>) -> Seq<char> {
    let t = trim_spec(desc);
    if t.len() == 0 {
        Seq::empty()
    } else {
        comment_block(lines_spec(t))
    }
}

/// Formats a (possibly multi-line) description as `//` comment lines.
pub fn format_doc_comment(desc: &str) -> (r: String)
    ensures
        r@ == doc_comment_spec(desc@),
{
    let v = chars_of(desc);
    let t = trimmed_chars(v.as_slice());
    if t.len() == 0 {
        return String::new();
    }
    let ls = lines_of(t.as_slice());
    let ghost lines = lines_spec(t@);
    let mut out: Vec<char> = Vec::new();
    let mut i: usize = 0;
    assert(lines.take(0) =~= Seq::<Seq<char>>::empty());
    while i < ls.len()
        invariant
            i <= ls@.len() == lines.len(),
            lines == lines_spec(t@),
            forall|k: int| 0 <= k < ls@.len() ==> #[trigger] ls@[k]@ == lines[k],
            out@ == comment_block(lines.take(i as int)),
        decreases ls@.len() - i,
    {
        assert(lines.take(i + 1).drop_last() =~= lines.take(i as int));
        let line = trimmed_chars(ls[i].as_slice());
        out.push('/');
        out.push('/');
        if line.len() == 0 {
            out.push('\n');
        } else {
            out.push(' ');
            append_chars(&mut out, line.as_slice());
            out.push('\n');
        }
        i = i + 1;
    }
    assert(lines.take(lines.len() as int) =~= lines);
    string_from_chars(out.as_slice())
}

// endregion: --- Doc comments

// region:    --- Type names

/// The characters that separate the words of a function path.
pub open spec fn is_name_separator(c: char) -> bool {
    c == '.' || c == '_' || c == '-'
}

/// What the character at `i` of a path contributes to its type name:
/// nothing for a separator, its uppercase form where it starts a word, else
/// itself.
pub open spec fn name_piece(s: Seq<char>, i: int) -> Seq<char> {
    if is_name_separator(s[i]) {
        Seq::empty()
    } else if i == 0 || is_name_separator(s[i - 1]) {
        char_uppercase(s[i])
    } else {
        seq![s[i]]
    }
}

/// A path in PascalCase: the words between separators, each with its first
/// character in uppercase, put together.
pub open spec fn pascal_case(s: Seq<char>) -> Seq<char>
    decreases s.len(),
{
    if s.len() == 0 {
        Seq::empty()
    } else {
        pascal_case(s.drop_last()) + name_piece(s, s.len() - 1)
    }
}

/// Derives a type name from a function path and a suffix, such as
/// `AipFileListParams` from `aip.file.list` and `Params`.
pub fn path_to_type_name(path: &str, suffix: &str) -> (r: String)
    ensures
        r@ == pascal_case(path@) + suffix@,
{
    let v = chars_of(path);
    let mut out: Vec<char> = Vec::new();
    let mut i: usize = 0;
    assert(v@.take(0) =~= Seq::<char>::empty());
    while i < v.len()
        invariant
            i <= v@.len(),
            out@ == pascal_case(v@.take(i as int)),
        decreases v@.len() - i,
    {
        let ghost pre = v@.take(i + 1);
        assert(pre.drop_last() =~= v@.take(i as int));
        assert(name_piece(pre, i as int) == name_piece(v@, i as int)) by {
            assert(pre[i as int] == v@[i as int]);
            if i > 0 {
                assert(pre[i - 1] == v@[i - 1]);
            }
        }
        let c = v[i];
        let is_sep = c == '.' || c == '_' || c == '-';
        if !is_sep {
            let starts_word = i == 0 || {
                let p = v[i - 1];
                p == '.' || p == '_' || p == '-'
            };
            if starts_word {
                let up = to_uppercase_chars(c);
                append_chars(&mut out, up.as_slice());
            } else {
                out.push(c);
            }
        }
        i = i + 1;
    }
    assert(v@.take(v@.len() as int) =~= v@);
    let mut r = string_from_chars(out.as_slice());
    let sv = chars_of(suffix);
    push_chars(&mut r, sv.as_slice());
    r
}

// endregion: --- Type names

// region:    --- Signatures

/// What a signature reads of a schema: its type expression when it is
/// simple enough to stand in the signature (`inline`), and its serialized
/// text, by which equal schemas are recognized (`key`).
pub struct SchemaDoc {
    pub inline: Option<String>,
    pub key: String,
}

/// What the documentation of a function reads: its path, its description,
/// and its parameter and output schemas.
pub struct FnDoc {
    pub path: String,
    pub description: Option<String>,
    pub params: SchemaDoc,
    pub output: SchemaDoc,
}

/// A type a module declares for a schema that cannot stand inline: its
/// name, the function it comes from, and whether it is that function's
/// parameters (else its output).
pub struct ModuleTypeDefinition {
    pub name: String,
    pub fn_index: usize,
    pub is_params: bool,
}

/// `any` or `{}`: a type expression that says nothing.
pub open spec fn says_nothing(t: Seq<char>) -> bool {
    t == "any"@ || t == "{}"@
}

/// The comment lines of a description, if any.
pub open spec fn comment_spec(desc: Option<Seq<char>>) -> Seq<char> {
    match desc {
        Some(d) => doc_comment_spec(d),
        None => Seq::empty(),
    }
}

/// A signature line: the comment, then `path(params: P): O`.
pub open spec fn signature_line(comment: Seq<char>, path: Seq<char>, p: Seq<char>, o: Seq<char>) -> Seq<char> {
    comment + path + "(params: "@ + p + "): "@ + o + "\n"@
}

/// The parameter type of a lone signature: the inline expression unless it
/// says nothing, else the type name derived from the path.
pub open spec fn params_type_spec(path: Seq<char>, inline: Option<Seq<char>>) -> Seq<char> {
    match inline {
        Some(t) => if says_nothing(t) {
            pascal_case(path) + "Params"@
        } else {
            t
        },
        None => pascal_case(path) + "Params"@,
    }
}

/// The output type of a lone signature: the inline expression, else the
/// type name derived from the path.
pub open spec fn output_type_spec(path: Seq<char>, inline: Option<Seq<char>>) -> Seq<char> {
    match inline {
        Some(t) => t,
        None => pascal_case(path) + "Output"@,
    }
}

/// The signature of one function.
pub open spec fn fn_signature_spec(f: FnDoc) -> Seq<char> {
    signature_line(
        comment_spec(opt_view(f.description)),
        f.path@,
        params_type_spec(f.path@, opt_view(f.params.inline)),
        output_type_spec(f.path@, opt_view(f.output.inline)),
    )
}

/// The comment lines of an optional description.
fn comment_for(desc: &Option<String>) -> (r: Vec<char>)
    ensures
        r@ == comment_spec(opt_view(*desc)),
{
    match desc {
        Some(d) => chars_of(format_doc_comment(d.as_str()).as_str()),
        None => Vec::new(),
    }
}

/// Whether a type expression is `any` or `{}`.
fn says_nothing_chars(t: &[char]) -> (r: bool)
    ensures
        r == says_nothing(t@),
{
    let any_v = chars_of("any");
    let empty_v = chars_of("{}");
    same_chars(t, any_v.as_slice()) || same_chars(t, empty_v.as_slice())
}

/// The type name derived from a path and a suffix, as characters.
fn type_name_chars(path: &str, suffix: &str) -> (r: Vec<char>)
    ensures
        r@ == pascal_case(path@) + suffix@,
{
    chars_of(path_to_type_name(path, suffix).as_str())
}

/// Appends the signature line to `out`.
fn push_signature(out: &mut Vec<char>, comment: &[char], path: &str, p: &[char], o: &[char])
    ensures
        final(out)@ == old(out)@ + signature_line(comment@, path@, p@, o@),
{
    append_chars(out, comment);
    append_chars(out, chars_of(path).as_slice());
    append_chars(out, chars_of("(params: ").as_slice());
    append_chars(out, p);
    append_chars(out, chars_of("): ").as_slice());
    append_chars(out, o);
    append_chars(out, chars_of("\n").as_slice());
    assert(out@ =~= old(out)@ + signature_line(comment@, path@, p@, o@));
}

/// Renders the signature line of one function, with its description as a
/// comment above it.
pub fn render_fn_signature(f: &FnDoc) -> (r: String)
    ensures
        r@ == fn_signature_spec(*f),
{
    let comment = comment_for(&f.description);
    let p = match &f.params.inline {
        Some(t) => {
            let tv = chars_of(t.as_str());
            if says_nothing_chars(tv.as_slice()) {
                type_name_chars(f.path.as_str(), "Params")
            } else {
                tv
            }
        },
        None => type_name_chars(f.path.as_str(), "Params"),
    };
    let o = match &f.output.inline {
        Some(t) => chars_of(t.as_str()),
        None => type_name_chars(f.path.as_str(), "Output"),
    };
    let mut out: Vec<char> = Vec::new();
    push_signature(&mut out, comment.as_slice(), f.path.as_str(), p.as_slice(), o.as_slice());
    assert(out@ =~= fn_signature_spec(*f));
    string_from_chars(out.as_slice())
}

/// A module type as a value: name, function position, and whether it is the
/// parameters.
pub type TypeDefModel = (Seq<char>, int, bool);

/// Rendering state after some functions: the parameter schemas named so
/// far, the output schemas named so far, the module types, the signatures.
pub type ModuleState = (Pairs, Pairs, Seq<TypeDefModel>, Seq<Seq<char>>);

/// The type of a schema in a module's signature, the names seen and the
/// module types after it: an inline expression stands as it is (a
/// parameter expression that says nothing takes the derived name instead);
/// another schema takes the name already given to an equal schema, or a
/// new name derived from the path, which becomes a module type.
pub open spec fn module_schema_type(
    path: Seq<char>,
    inline: Option<Seq<char>>,
    key: Seq<char>,
    is_params: bool,
    seen: Pairs,
    types: Seq<TypeDefModel>,
    index: int,
) -> (Seq<char>, Pairs, Seq<TypeDefModel>) {
    let name = pascal_case(path) + if is_params { "Params"@ } else { "Output"@ };
    match inline {
        Some(t) => if is_params && says_nothing(t) {
            (name, seen, types)
        } else {
            (t, seen, types)
        },
        None => match lookup(seen, key) {
            Some(n) => (n, seen, types),
            None => (name, seen.push((key, name)), types.push((name, index, is_params))),
        },
    }
}

/// The rendering state after the functions `fns`, in order.
pub open spec fn module_state(fns: Seq<FnDoc>) -> ModuleState
    decreases fns.len(),
{
    if fns.len() == 0 {
        (Seq::empty(), Seq::empty(), Seq::empty(), Seq::empty())
    } else {
        let st = module_state(fns.drop_last());
        let i = fns.len() - 1;
        let f = fns[i];
        let pp = module_schema_type(f.path@, opt_view(f.params.inline), f.params.key@, true, st.0, st.2, i);
        let oo = module_schema_type(f.path@, opt_view(f.output.inline), f.output.key@, false, st.1, pp.2, i);
        (pp.1, oo.1, oo.2, st.3.push(signature_line(comment_spec(opt_view(f.description)), f.path@, pp.0, oo.0)))
    }
}

/// Law: each schema that cannot stand inline is named once per module: the
/// schemas named for parameters, and those named for outputs, are all
/// different, and there is one module type per name given.
pub proof fn law_module_types_named_once(fns: Seq<FnDoc>)
    ensures
        keys_unique(module_state(fns).0),
        keys_unique(module_state(fns).1),
        module_state(fns).2.len() == module_state(fns).0.len() + module_state(fns).1.len(),
    decreases fns.len(),
{
    if fns.len() > 0 {
        law_module_types_named_once(fns.drop_last());
        let st = module_state(fns.drop_last());
        let i = fns.len() - 1;
        let f = fns[i];
        if opt_view(f.params.inline) is None && lookup(st.0, f.params.key@) is None {
            lemma_push_new_key(st.0, f.params.key@, pascal_case(f.path@) + "Params"@);
        }
        if opt_view(f.output.inline) is None && lookup(st.1, f.output.key@) is None {
            lemma_push_new_key(st.1, f.output.key@, pascal_case(f.path@) + "Output"@);
        }
    }
}

/// Whether some entry of `hs` has key `k`.
pub open spec fn has_key(hs: Pairs, k: Seq<char>) -> bool {
    exists|i: int| 0 <= i < hs.len() && #[trigger] hs[i].0 == k
}

/// The inline expression of the schema a module type stands for.
pub open spec fn type_inline(fns: Seq<FnDoc>, t: TypeDefModel) -> Option<Seq<char>> {
    if t.2 {
        opt_view(fns[t.1].params.inline)
    } else {
        opt_view(fns[t.1].output.inline)
    }
}

/// The key of the schema a module type stands for.
pub open spec fn type_key(fns: Seq<FnDoc>, t: TypeDefModel) -> Seq<char> {
    if t.2 {
        fns[t.1].params.key@
    } else {
        fns[t.1].output.key@
    }
}

/// The module types refer to functions of the module, to schemas that
/// cannot stand inline, whose keys are among the names seen, each key once
/// per kind.
pub open spec fn module_types_sound(fns: Seq<FnDoc>, st: ModuleState) -> bool {
    &&& forall|k: int|
        0 <= k < st.2.len() ==> {
            &&& 0 <= (#[trigger] st.2[k]).1 < fns.len()
            &&& type_inline(fns, st.2[k]) is None
            &&& has_key(if st.2[k].2 { st.0 } else { st.1 }, type_key(fns, st.2[k]))
        }
    &&& forall|k1: int, k2: int|
        0 <= k1 < k2 < st.2.len() && (#[trigger] st.2[k1]).2 == (#[trigger] st.2[k2]).2 ==> type_key(fns, st.2[k1])
            != type_key(fns, st.2[k2])
}

/// Adding entries keeps the keys there.
proof fn lemma_has_key_push(hs: Pairs, e: (Seq<char>, Seq<char>), k: Seq<char>)
    requires
        has_key(hs, k),
    ensures
        has_key(hs.push(e), k),
{
    let i = choose|i: int| 0 <= i < hs.len() && #[trigger] hs[i].0 == k;
    assert(hs.push(e)[i].0 == k);
}

/// The module types stay sound from one function to the next.
proof fn lemma_module_types_sound(fns: Seq<FnDoc>)
    ensures
        module_types_sound(fns, module_state(fns)),
        module_state(fns).3.len() == fns.len(),
    decreases fns.len(),
{
    if fns.len() > 0 {
        let prev = fns.drop_last();
        lemma_module_types_sound(prev);
        let st = module_state(prev);
        let i = fns.len() - 1;
        let f = fns[i];
        let pp = module_schema_type(f.path@, opt_view(f.params.inline), f.params.key@, true, st.0, st.2, i);
        let oo = module_schema_type(f.path@, opt_view(f.output.inline), f.output.key@, false, st.1, pp.2, i);
        let nst = module_state(fns);
        assert(nst == (pp.1, oo.1, oo.2, st.3.push(signature_line(comment_spec(opt_view(f.description)), f.path@, pp.0, oo.0))));
        // Facts of the earlier types carry over.
        assert forall|k: int| 0 <= k < st.2.len() implies type_inline(fns, #[trigger] st.2[k]) == type_inline(prev, st.2[k])
            && type_key(fns, st.2[k]) == type_key(prev, st.2[k]) && st.2[k].1 < fns.len() by {
            assert(fns[st.2[k].1] == prev[st.2[k].1]);
        }
        let pnew = opt_view(f.params.inline) is None && lookup(st.0, f.params.key@) is None;
        let onew = opt_view(f.output.inline) is None && lookup(st.1, f.output.key@) is None;
        if pnew {
            lemma_lookup_none(st.0, f.params.key@);
        }
        if onew {
            lemma_lookup_none(st.1, f.output.key@);
        }
        assert forall|k: int| 0 <= k < nst.2.len() implies {
            &&& 0 <= (#[trigger] nst.2[k]).1 < fns.len()
            &&& type_inline(fns, nst.2[k]) is None
            &&& has_key(if nst.2[k].2 { nst.0 } else { nst.1 }, type_key(fns, nst.2[k]))
        } by {
            if k < st.2.len() {
                assert(nst.2[k] == st.2[k]);
                if st.2[k].2 {
                    if pnew {
                        lemma_has_key_push(st.0, (f.params.key@, pascal_case(f.path@) + "Params"@), type_key(fns, st.2[k]));
                    }
                } else {
                    if onew {
                        lemma_has_key_push(st.1, (f.output.key@, pascal_case(f.path@) + "Output"@), type_key(fns, st.2[k]));
                    }
                }
            } else if k == st.2.len() && pnew {
                assert(nst.2[k] == (pascal_case(f.path@) + "Params"@, i, true));
                assert(nst.0[st.0.len() as int].0 == f.params.key@);
            } else {
                assert(nst.2[k].2 == false && nst.2[k].1 == i);
                assert(nst.1[st.1.len() as int].0 == f.output.key@);
            }
        }
        assert forall|k1: int, k2: int|
            0 <= k1 < k2 < nst.2.len() && (#[trigger] nst.2[k1]).2 == (#[trigger] nst.2[k2]).2 implies type_key(fns, nst.2[k1])
            != type_key(fns, nst.2[k2]) by {
            if k2 < st.2.len() {
                assert(nst.2[k1] == st.2[k1] && nst.2[k2] == st.2[k2]);
            } else {
                // The new type's key was not among the names seen; the earlier
                // ones of its kind are.
                if k1 < st.2.len() {
                    assert(nst.2[k1] == st.2[k1]);
                    if nst.2[k2].2 {
                        assert(has_key(st.0, type_key(prev, st.2[k1])));
                    } else {
                        assert(has_key(st.1, type_key(prev, st.2[k1])));
                    }
                } else {
                    assert(nst.2[k1].2 != nst.2[k2].2);
                }
            }
        }
    }
}

/// Law: a module's block is its `##` heading and the opening of a
/// TypeScript fence, then its signature lines joined by newlines, then the
/// closing fence; there is one signature per function, in the functions'
/// order, the i-th naming the i-th function's path; each module
/// type belongs to a function of the module and to a schema that cannot
/// stand inline, and no two module types of the same kind (parameters or
/// output) stand for equal schemas.
pub proof fn law_render_module_shape(module_name: Seq<char>, fns: Seq<FnDoc>)
    ensures
        has_prefix(module_block(module_name, module_state(fns).3), "## "@ + module_name + ".*\n\n```ts\n"@),
        has_suffix(module_block(module_name, module_state(fns).3), "```\n\n"@),
        module_block(module_name, module_state(fns).3) == "## "@ + module_name + ".*\n\n```ts\n"@ + join_with(
            module_state(fns).3,
            "\n"@,
        ) + "```\n\n"@,
        module_state(fns).3.len() == fns.len(),
        forall|i: int| 0 <= i < fns.len() ==> #[trigger] names_path(module_state(fns).3[i], fns[i].path@),
        module_types_sound(fns, module_state(fns)),
{
    lemma_module_types_sound(fns);
    lemma_module_signatures(fns);
    let b = module_block(module_name, module_state(fns).3);
    let h = "## "@ + module_name + ".*\n\n```ts\n"@;
    let tail = "```\n\n"@;
    assert(b == h + join_with(module_state(fns).3, "\n"@) + tail);
    assert(b.subrange(0, h.len() as int) =~= h);
    assert(b.subrange(b.len() - tail.len(), b.len() as int) =~= tail);
}

/// A signature line of the function at `path`.
pub open spec fn names_path(sig: Seq<char>, path: Seq<char>) -> bool {
    exists|c: Seq<char>, p: Seq<char>, o: Seq<char>| sig == #[trigger] signature_line(c, path, p, o)
}

/// Each signature of a module names its function's path.
proof fn lemma_module_signatures(fns: Seq<FnDoc>)
    ensures
        module_state(fns).3.len() == fns.len(),
        forall|i: int| 0 <= i < fns.len() ==> #[trigger] names_path(module_state(fns).3[i], fns[i].path@),
    decreases fns.len(),
{
    if fns.len() > 0 {
        let prev = fns.drop_last();
        lemma_module_signatures(prev);
        let sigs = module_state(fns).3;
        assert forall|i: int| 0 <= i < fns.len() implies #[trigger] names_path(sigs[i], fns[i].path@) by {
            if i < prev.len() {
                assert(sigs[i] == module_state(prev).3[i]);
                assert(fns[i] == prev[i]);
                assert(names_path(module_state(prev).3[i], prev[i].path@));
            } else {
                let st = module_state(prev);
                let f = fns[i];
                let pp = module_schema_type(f.path@, opt_view(f.params.inline), f.params.key@, true, st.0, st.2, i);
                let oo = module_schema_type(f.path@, opt_view(f.output.inline), f.output.key@, false, st.1, pp.2, i);
                assert(sigs[i] == signature_line(comment_spec(opt_view(f.description)), f.path@, pp.0, oo.0));
                assert(names_path(sigs[i], f.path@));
            }
        }
    }
}

/// A module's block of signatures: a `##` heading and the signatures in a
/// TypeScript fence, separated by empty lines.
pub open spec fn module_block(module_name: Seq<char>, sigs: Seq<Seq<char>>) -> Seq<char> {
    "## "@ + module_name + ".*\n\n```ts\n"@ + join_with(sigs, "\n"@) + "```\n\n"@
}

/// The views of module types.
pub open spec fn type_def_views(ts: Seq<ModuleTypeDefinition>) -> Seq<TypeDefModel> {
    ts.map_values(|t: ModuleTypeDefinition| (t.name@, t.fn_index as int, t.is_params))
}

/// Resolves the type of one schema of function `index` (see
/// `module_schema_type`), updating the names seen and the module types.
fn resolve_module_type(
    path: &str,
    schema: &SchemaDoc,
    is_params: bool,
    seen: &mut Vec<(Vec<char>, Vec<char>)>,
    types: &mut Vec<ModuleTypeDefinition>,
    index: usize,
) -> (r: Vec<char>)
    ensures
        ({
            let m = module_schema_type(
                path@,
                opt_view(schema.inline),
                schema.key@,
                is_params,
                char_pairs(old(seen)@),
                type_def_views(old(types)@),
                index as int,
            );
            &&& r@ == m.0
            &&& char_pairs(final(seen)@) == m.1
            &&& type_def_views(final(types)@) == m.2
        }),
{
    let suffix = if is_params {
        "Params"
    } else {
        "Output"
    };
    let ghost name_spec = pascal_case(path@) + if is_params { "Params"@ } else { "Output"@ };
    match &schema.inline {
        Some(t) => {
            let tv = chars_of(t.as_str());
            if is_params && says_nothing_chars(tv.as_slice()) {
                type_name_chars(path, suffix)
            } else {
                tv
            }
        },
        None => {
            let key = chars_of(schema.key.as_str());
            match find_pair(seen, key.as_slice()) {
                Some(i) => {
                    let n = &seen[i].1;
                    chars_range(n.as_slice(), 0, n.len())
                },
                None => {
                    let name = type_name_chars(path, suffix);
                    let ghost seen_before = char_pairs(seen@);
                    let ghost types_before = type_def_views(types@);
                    let copy = chars_range(name.as_slice(), 0, name.len());
                    assert(copy@ =~= name_spec);
                    assert(key@ == schema.key@);
                    let ghost raw_before = seen@;
                    let entry = (key, copy);
                    assert(entry.0@ == schema.key@ && entry.1@ == name_spec);
                    seen.push(entry);
                    assert(seen@ == raw_before.push(entry));
                    assert(char_pairs(seen@) =~= seen_before.push((schema.key@, name_spec)));
                    types.push(
                        ModuleTypeDefinition { name: string_from_chars(name.as_slice()), fn_index: index, is_params },
                    );
                    assert(type_def_views(types@) =~= types_before.push((name_spec, index as int, is_params)));
                    name
                },
            }
        },
    }
}

/// Renders a module's signature block and collects the types it declares,
/// each schema that cannot stand inline named once.
pub fn render_module(module_name: &str, fns: &[FnDoc]) -> (r: (String, Vec<ModuleTypeDefinition>))
    ensures
        r.0@ == module_block(module_name@, module_state(fns@).3),
        type_def_views(r.1@) == module_state(fns@).2,
{
    let mut seen_params: Vec<(Vec<char>, Vec<char>)> = Vec::new();
    let mut seen_outputs: Vec<(Vec<char>, Vec<char>)> = Vec::new();
    let mut types: Vec<ModuleTypeDefinition> = Vec::new();
    let mut sigs: Vec<Vec<char>> = Vec::new();
    let mut i: usize = 0;
    assert(fns@.take(0) =~= Seq::<FnDoc>::empty());
    assert(char_pairs(seen_params@) =~= Seq::<(Seq<char>, Seq<char>)>::empty());
    assert(char_pairs(seen_outputs@) =~= Seq::<(Seq<char>, Seq<char>)>::empty());
    assert(type_def_views(types@) =~= Seq::<TypeDefModel>::empty());
    assert(sigs@.map_values(|v: Vec<char>| v@) =~= Seq::<Seq<char>>::empty());
    while i < fns.len()
        invariant
            i <= fns@.len(),
            char_pairs(seen_params@) == module_state(fns@.take(i as int)).0,
            char_pairs(seen_outputs@) == module_state(fns@.take(i as int)).1,
            type_def_views(types@) == module_state(fns@.take(i as int)).2,
            sigs@.map_values(|v: Vec<char>| v@) == module_state(fns@.take(i as int)).3,
        decreases fns@.len() - i,
    {
        let f = &fns[i];
        assert(fns@.take(i + 1).drop_last() =~= fns@.take(i as int));
        assert(fns@.take(i + 1)[i as int] == *f);
        let comment = comment_for(&f.description);
        let p = resolve_module_type(f.path.as_str(), &f.params, true, &mut seen_params, &mut types, i);
        let o = resolve_module_type(f.path.as_str(), &f.output, false, &mut seen_outputs, &mut types, i);
        let mut line: Vec<char> = Vec::new();
        push_signature(&mut line, comment.as_slice(), f.path.as_str(), p.as_slice(), o.as_slice());
        let ghost sigs_before = sigs@.map_values(|v: Vec<char>| v@);
        let ghost line_v = line@;
        sigs.push(line);
        assert(sigs@.map_values(|v: Vec<char>| v@) =~= sigs_before.push(line_v));
        i = i + 1;
    }
    assert(fns@.take(fns@.len() as int) =~= fns@);
    let mut out = String::new();
    push_str(&mut out, "## ");
    push_str(&mut out, module_name);
    push_str(&mut out, ".*\n\n```ts\n");
    let nl = chars_of("\n");
    let joined = join_chars(&sigs, nl.as_slice());
    push_chars(&mut out, joined.as_slice());
    push_str(&mut out, "```\n\n");
    assert(out@ =~= module_block(module_name@, module_state(fns@).3));
    (out, types)
}

/// Renders a module's signature block.
pub fn render_module_signatures(module_name: &str, fns: &[FnDoc]) -> (r: String)
    ensures
        r@ == module_block(module_name@, module_state(fns@).3),
{
    render_module(module_name, fns).0
}

/// A module's block of type declarations: a `###` heading and the
/// declarations in a TypeScript fence, separated by empty lines; nothing
/// when there is none.
pub open spec fn module_types_block(module_name: Seq<char>, blocks: Seq<Seq<char>>) -> Seq<char> {
    if blocks.len() == 0 {
        Seq::empty()
    } else {
        "### "@ + module_name + ".* Types\n\n```ts\n"@ + join_with(blocks, "\n"@) + "```\n\n"@
    }
}

/// Renders a module's type declarations, each given as its rendered block.
pub fn render_module_types(module_name: &str, blocks: &[String]) -> (r: String)
    ensures
        r@ == module_types_block(module_name@, blocks@.map_values(|b: String| b@)),
{
    if blocks.len() == 0 {
        return String::new();
    }
    let mut out = String::new();
    push_str(&mut out, "### ");
    push_str(&mut out, module_name);
    push_str(&mut out, ".* Types\n\n```ts\n");
    let ghost bv = blocks@.map_values(|b: String| b@);
    let mut i: usize = 0;
    let ghost start = out@;
    assert(bv.take(0) =~= Seq::<Seq<char>>::empty());
    while i < blocks.len()
        invariant
            i <= blocks@.len(),
            bv == blocks@.map_values(|b: String| b@),
            out@ == start + join_with(bv.take(i as int), "\n"@),
        decreases blocks@.len() - i,
    {
        proof {
            lemma_join_with_push(bv.take(i as int), "\n"@, bv[i as int]);
            assert(bv.take(i + 1) =~= bv.take(i as int).push(bv[i as int]));
        }
        if i > 0 {
            push_str(&mut out, "\n");
        }
        push_str(&mut out, blocks[i].as_str());
        i = i + 1;
    }
    assert(bv.take(blocks@.len() as int) =~= bv);
    push_str(&mut out, "```\n\n");
    out
}

// endregion: --- Signatures


// region:    --- Functions from their schemas

/// What the documentation reads of a registered function: its path, its
/// title and description, and its parameter, output and error schemas.
pub struct RegisteredFnDoc {
    pub path: String,
    pub title: Option<String>,
    pub description: Option<String>,
    pub params_schema: JsonValue,
    pub output_schema: JsonValue,
    pub error_schema: JsonValue,
}

/// The description of a function: its own, else that of its parameter
/// schema.
pub open spec fn fn_description_spec(f: RegisteredFnDoc) -> Option<Seq<char>> {
    match f.description {
        Some(d) => Some(d@),
        None => description_of(f.params_schema),
    }
}

/// The description of a function (see `fn_description_spec`).
pub fn fn_description(f: &RegisteredFnDoc) -> (r: Option<String>)
    ensures
        opt_view(r) == fn_description_spec(*f),
{
    match &f.description {
        Some(d) => Some(d.clone()),
        None => schema_description(&f.params_schema),
    }
}

/// What a signature reads of a schema: its expression when it can stand
/// inline, and its compact JSON text.
pub fn schema_doc(schema: &JsonValue) -> (r: SchemaDoc)
    ensures
        opt_view(r.inline) == if is_inlineable_spec(*schema) {
            Some(render_spec(*schema))
        } else {
            None
        },
        r.key@ == json_text(*schema),
{
    let inline = if is_inlineable_type(schema) {
        Some(render_type(schema))
    } else {
        None
    };
    SchemaDoc { inline, key: to_json_text(schema) }
}

/// What the signatures read of a registered function.
pub fn fn_doc_of(f: &RegisteredFnDoc) -> (r: FnDoc)
    ensures
        r.path@ == f.path@,
        opt_view(r.description) == fn_description_spec(*f),
        opt_view(r.params.inline) == if is_inlineable_spec(f.params_schema) {
            Some(render_spec(f.params_schema))
        } else {
            None
        },
        r.params.key@ == json_text(f.params_schema),
        opt_view(r.output.inline) == if is_inlineable_spec(f.output_schema) {
            Some(render_spec(f.output_schema))
        } else {
            None
        },
        r.output.key@ == json_text(f.output_schema),
{
    FnDoc {
        path: f.path.clone(),
        description: fn_description(f),
        params: schema_doc(&f.params_schema),
        output: schema_doc(&f.output_schema),
    }
}

/// The documentation section of one function: its heading, its signature
/// (`Output` names the output unless it can stand inline), its description,
/// and a TypeScript block with the `Params` type, the `Output` type when it
/// does not stand inline, and the `Error` type unless a common error type
/// is given.
pub open spec fn fn_section_spec(f: RegisteredFnDoc, has_common_error: bool) -> Seq<char> {
    let path = f.path@;
    let inline_out = is_inlineable_spec(f.output_schema);
    let sig = if inline_out {
        render_spec(f.output_schema)
    } else {
        "Output"@
    };
    let desc = match fn_description_spec(f) {
        Some(d) => d + "\n\n"@,
        None => Seq::empty(),
    };
    let out_block = if inline_out {
        Seq::empty()
    } else {
        type_block_spec(f.output_schema, "Output"@, false) + "\n"@
    };
    let err_block = if has_common_error {
        Seq::empty()
    } else {
        type_block_spec(f.error_schema, "Error"@, true)
    };
    "### "@ + path + "\n\n"@ + "`"@ + path + "(params: Params): "@ + sig + "`\n\n"@ + desc + "```ts\n"@
        + type_block_spec(f.params_schema, "Params"@, false) + "\n"@ + out_block + err_block + "```\n\n"@
}

/// Renders one function as a Markdown documentation section (see
/// `fn_section_spec`); `error_schema` is the common error type, when there
/// is one.
pub fn render_fn(f: &RegisteredFnDoc, error_schema: Option<&JsonValue>) -> (r: String)
    ensures
        r@ == fn_section_spec(*f, error_schema is Some),
{
    let desc = fn_description(f);
    let params_type = render_type_block(&f.params_schema, "Params", false);
    let output_inlineable = is_inlineable_type(&f.output_schema);
    let mut s = String::new();
    push_str(&mut s, "### ");
    push_str(&mut s, f.path.as_str());
    push_str(&mut s, "\n\n");
    push_str(&mut s, "`");
    push_str(&mut s, f.path.as_str());
    push_str(&mut s, "(params: Params): ");
    if output_inlineable {
        let output_expr = render_type(&f.output_schema);
        push_str(&mut s, output_expr.as_str());
    } else {
        push_str(&mut s, "Output");
    }
    push_str(&mut s, "`\n\n");
    match &desc {
        Some(d) => {
            push_str(&mut s, d.as_str());
            push_str(&mut s, "\n\n");
        },
        None => {},
    }
    push_str(&mut s, "```ts\n");
    push_str(&mut s, params_type.as_str());
    push_str(&mut s, "\n");
    if !output_inlineable {
        let output_type = render_type_block(&f.output_schema, "Output", false);
        push_str(&mut s, output_type.as_str());
        push_str(&mut s, "\n");
    }
    if error_schema.is_none() {
        let error_type = render_type_block(&f.error_schema, "Error", true);
        push_str(&mut s, error_type.as_str());
    }
    push_str(&mut s, "```\n\n");
    assert(s@ =~= fn_section_spec(*f, error_schema is Some));
    s
}


/// The schema a module type stands for.
pub open spec fn type_schema(t: ModuleTypeDefinition, fns: Seq<RegisteredFnDoc>) -> JsonValue {
    if t.is_params {
        fns[t.fn_index as int].params_schema
    } else {
        fns[t.fn_index as int].output_schema
    }
}

/// The type alias blocks of a module's types, each named as the type and
/// rendered from the schema of the function it comes from.
pub fn module_type_blocks(types: &[ModuleTypeDefinition], fns: &[RegisteredFnDoc]) -> (r: Vec<String>)
    requires
        forall|i: int| 0 <= i < types@.len() ==> #[trigger] types@[i].fn_index < fns@.len(),
    ensures
        r@.len() == types@.len(),
        forall|i: int|
            0 <= i < types@.len() ==> #[trigger] r@[i]@ == type_block_spec(
                type_schema(types@[i], fns@),
                types@[i].name@,
                false,
            ),
{
    let mut out: Vec<String> = Vec::new();
    let mut i: usize = 0;
    while i < types.len()
        invariant
            i <= types@.len(),
            out@.len() == i,
            forall|k: int| 0 <= k < types@.len() ==> #[trigger] types@[k].fn_index < fns@.len(),
            forall|k: int|
                0 <= k < i ==> #[trigger] out@[k]@ == type_block_spec(
                    type_schema(types@[k], fns@),
                    types@[k].name@,
                    false,
                ),
        decreases types@.len() - i,
    {
        let t = &types[i];
        let f = &fns[t.fn_index];
        let schema = if t.is_params {
            &f.params_schema
        } else {
            &f.output_schema
        };
        out.push(render_type_block(schema, t.name.as_str(), false));
        i = i + 1;
    }
    out
}

// endregion: --- Functions from their schemas

} // verus!
