//! The exclude globs of a file listing.
//!
//! Some folders (`.git/`, `target/`, ...) are excluded by default; an include
//! glob that names such a folder lifts its default exclusion. A few globs are
//! always excluded, and the caller's own exclude globs come last.

use simple_fs::SPath;
use vstd::prelude::*;

use crate::base::chars::{chars_of, contains_chars, contains_seq, has_prefix, push_chars, push_str, starts_with_chars};
use crate::base::text::{str_views, trim_spec, trimmed_chars};
use crate::error::{is_custom_error, owned, Error, Result};
use crate::error_lua_details::string_views;

verus! {

// region:    --- Outside calls

/// The text of a path after simple_fs normalizes it (`SPath::new`).
pub uninterp spec fn spath_normalized(path: Seq<char>) -> Seq<char>;

/// simple_fs's `SPath::new`, read back with `SPath::as_str`. The crate
/// normalizes the path (separators, repeated slashes, single dots, a
/// Windows verbatim prefix); only that the result is a function of the
/// text is stated here.
#[verifier::external_body]
fn normalized_path(path: &str) -> (r: String)
    ensures
        r@ == spath_normalized(path@),
{
    SPath::new(path).as_str().to_string()
}

// endregion: --- Outside calls

// region:    --- Defaults

/// The folders excluded by default.
pub open spec fn special_folders() -> Seq<Seq<char>> {
    seq![".aipack/"@, ".git/"@, "target/"@, "node_modules/"@, ".build/"@, "__pycache__/"@]
}

/// The exclude glob of each default-excluded folder, in the same order.
pub open spec fn special_folder_globs() -> Seq<Seq<char>> {
    seq![
        "**/.aipack/**"@,
        "**/.git/**"@,
        "**/target/**"@,
        "**/node_modules/**"@,
        "**/.build/**"@,
        "**/__pycache__/**"@,
    ]
}

/// The globs that are always excluded.
pub open spec fn always_excluded_globs() -> Seq<Seq<char>> {
    seq!["**/.DS_Store"@, ".DS_Store"@, "**/Thumbs.db"@, "**/*.swp"@]
}

/// The folders excluded by default.
pub fn special_default_folder_excludes() -> (r: Vec<&'static str>)
    ensures
        str_views(r@) == special_folders(),
{
    let r = vec![".aipack/", ".git/", "target/", "node_modules/", ".build/", "__pycache__/"];
    assert(str_views(r@) =~= special_folders());
    r
}

/// The exclude globs of the default-excluded folders.
pub fn special_default_folder_exclude_globs() -> (r: Vec<&'static str>)
    ensures
        str_views(r@) == special_folder_globs(),
{
    let r = vec![
        "**/.aipack/**",
        "**/.git/**",
        "**/target/**",
        "**/node_modules/**",
        "**/.build/**",
        "**/__pycache__/**",
    ];
    assert(str_views(r@) =~= special_folder_globs());
    r
}

/// The globs that are always excluded.
pub fn globs_to_always_exclude() -> (r: Vec<&'static str>)
    ensures
        str_views(r@) == always_excluded_globs(),
{
    let r = vec!["**/.DS_Store", ".DS_Store", "**/Thumbs.db", "**/*.swp"];
    assert(str_views(r@) =~= always_excluded_globs());
    r
}

// endregion: --- Defaults

// region:    --- Resolution

/// A normalized include glob as it is compared: trimmed.
pub open spec fn glob_key(normal: Seq<char>) -> Seq<char> {
    trim_spec(normal)
}

/// The include globs as simple_fs normalizes them.
pub open spec fn normalized_globs(includes: Seq<Seq<char>>) -> Seq<Seq<char>> {
    includes.map_values(|g: Seq<char>| spath_normalized(g))
}

/// A glob that starts above the listed directory (`../` or `./..`).
pub open spec fn leaves_root(g: Seq<char>) -> bool {
    has_prefix(g, "../"@) || has_prefix(g, "./.."@)
}

/// No (normalized) include glob names folder `f`.
pub open spec fn folder_kept(includes: Seq<Seq<char>>, f: Seq<char>) -> bool {
    forall|k: int| 0 <= k < includes.len() ==> !contains_seq(#[trigger] glob_key(includes[k]), f)
}

/// The exclude globs of the first `n` default folders that stay excluded.
pub open spec fn kept_folder_globs(includes: Seq<Seq<char>>, n: nat) -> Seq<Seq<char>>
    decreases n,
{
    if n == 0 {
        Seq::empty()
    } else {
        kept_folder_globs(includes, (n - 1) as nat) + if folder_kept(includes, special_folders()[n - 1]) {
            seq![special_folder_globs()[n - 1]]
        } else {
            Seq::empty()
        }
    }
}

/// `k` is the first (normalized) include glob that starts above the listed
/// directory.
pub open spec fn is_first_leaving(includes: Seq<Seq<char>>, k: int) -> bool {
    &&& 0 <= k < includes.len()
    &&& leaves_root(glob_key(includes[k]))
    &&& forall|j: int| 0 <= j < k ==> !leaves_root(#[trigger] glob_key(includes[j]))
}

/// The message for a glob that starts above the listed directory.
pub open spec fn leaving_glob_message(g: Seq<char>) -> Seq<char> {
    "Glob '"@ + g + "' starting with '../'.\nStarting glob with '../' is not supported at the moment."@
}

/// The effective exclude globs for normalized include globs: the globs of
/// the default folders that no include glob names, then the always-excluded
/// globs, then the custom ones; or the message about the first include glob
/// that starts above the listed directory.
pub open spec fn resolve_excludes_spec(includes: Seq<Seq<char>>, customs: Seq<Seq<char>>) -> core::result::Result<
    Seq<Seq<char>>,
    Seq<char>,
> {
    if exists|k: int| is_first_leaving(includes, k) {
        Err(leaving_glob_message(glob_key(includes[choose|k: int| is_first_leaving(includes, k)])))
    } else {
        Ok(kept_folder_globs(includes, 6) + always_excluded_globs() + customs)
    }
}

/// Appends owned copies of `src` to `dst`.
fn push_owned(dst: &mut Vec<String>, src: &[&str])
    ensures
        string_views(final(dst)@) == string_views(old(dst)@) + str_views(src@),
{
    let mut i: usize = 0;
    while i < src.len()
        invariant
            i <= src@.len(),
            string_views(dst@) == string_views(old(dst)@) + str_views(src@).take(i as int),
        decreases src@.len() - i,
    {
        let ghost before = dst@;
        dst.push(owned(src[i]));
        assert(string_views(dst@) =~= string_views(before).push(src@[i as int]@));
        assert(str_views(src@).take(i + 1) =~= str_views(src@).take(i as int).push(src@[i as int]@));
        i = i + 1;
    }
    assert(str_views(src@).take(src@.len() as int) =~= str_views(src@));
}

/// Resolves the effective exclude globs given include globs and custom
/// exclude globs. Naming a default-excluded folder in an include glob lifts
/// its default exclusion; an include glob starting with `../` is refused.
/// The include globs are normalized by simple_fs first.
pub fn resolve_exclude_globs(include_globs: &[&str], custom_exclude_globs: &[&str]) -> (r: Result<Vec<String>>)
    ensures
        match resolve_excludes_spec(normalized_globs(str_views(include_globs@)), str_views(custom_exclude_globs@)) {
            Ok(gs) => r matches Ok(v) && string_views(v@) == gs,
            Err(m) => r matches Err(e) && is_custom_error(e, m),
        },
{
    let ghost inc = str_views(include_globs@);
    let mut normals: Vec<String> = Vec::new();
    let mut k: usize = 0;
    while k < include_globs.len()
        invariant
            k <= include_globs@.len(),
            inc == str_views(include_globs@),
            string_views(normals@) == normalized_globs(inc).take(k as int),
        decreases include_globs@.len() - k,
    {
        let ghost before = normals@;
        normals.push(normalized_path(include_globs[k]));
        assert(string_views(normals@) =~= string_views(before).push(spath_normalized(inc[k as int])));
        assert(normalized_globs(inc).take(k + 1) =~= normalized_globs(inc).take(k as int).push(
            spath_normalized(inc[k as int]),
        ));
        k = k + 1;
    }
    assert(normalized_globs(inc).take(include_globs@.len() as int) =~= normalized_globs(inc));
    resolve_normalized_exclude_globs(normals.as_slice(), custom_exclude_globs)
}

/// Resolves the effective exclude globs given include globs as simple_fs
/// normalizes them (see `resolve_excludes_spec`) and custom exclude globs.
pub fn resolve_normalized_exclude_globs(normalized_includes: &[String], custom_exclude_globs: &[&str]) -> (r: Result<
    Vec<String>,
>)
    ensures
        match resolve_excludes_spec(string_views(normalized_includes@), str_views(custom_exclude_globs@)) {
            Ok(gs) => r matches Ok(v) && string_views(v@) == gs,
            Err(m) => r matches Err(e) && is_custom_error(e, m),
        },
{
    let include_globs = normalized_includes;
    let ghost inc = string_views(include_globs@);
    let folders = special_default_folder_excludes();
    let folder_globs = special_default_folder_exclude_globs();
    let up = chars_of("../");
    let dot_up = chars_of("./..");
    assert(folders@.len() == 6 && folder_globs@.len() == 6) by {
        assert(str_views(folders@).len() == 6);
        assert(str_views(folder_globs@).len() == 6);
    }
    let mut kept: Vec<bool> = vec![true, true, true, true, true, true];
    let mut k: usize = 0;
    while k < include_globs.len()
        invariant
            k <= include_globs@.len(),
            inc == string_views(include_globs@),
            include_globs@ == normalized_includes@,
            str_views(folders@) == special_folders(),
            folders@.len() == 6,
            up@ == "../"@,
            dot_up@ == "./.."@,
            kept@.len() == 6,
            forall|i: int| 0 <= i < 6 ==> #[trigger] kept@[i] == folder_kept(inc.take(k as int), special_folders()[i]),
            forall|j: int| 0 <= j < k ==> !leaves_root(#[trigger] glob_key(inc[j])),
        decreases include_globs@.len() - k,
    {
        let nv = chars_of(include_globs[k].as_str());
        let key = trimmed_chars(nv.as_slice());
        assert(key@ == glob_key(inc[k as int]));
        let ghost before = kept@;
        let mut i: usize = 0;
        while i < 6
            invariant
                i <= 6,
                kept@.len() == 6,
                str_views(folders@) == special_folders(),
                folders@.len() == 6,
                forall|x: int| 0 <= x < 6 ==> #[trigger] kept@[x] == if x < i {
                    before[x] && !contains_seq(key@, special_folders()[x])
                } else {
                    before[x]
                },
            decreases 6 - i,
        {
            let fv = chars_of(folders[i]);
            assert(str_views(folders@)[i as int] == folders@[i as int]@);
            if contains_chars(key.as_slice(), fv.as_slice()) {
                kept.set(i, false);
            }
            i = i + 1;
        }
        assert forall|x: int| 0 <= x < 6 implies #[trigger] kept@[x] == folder_kept(
            inc.take(k + 1),
            special_folders()[x],
        ) by {
            let f = special_folders()[x];
            let pre = inc.take(k as int);
            let next = inc.take(k + 1);
            if folder_kept(next, f) {
                assert forall|j: int| 0 <= j < pre.len() implies !contains_seq(#[trigger] glob_key(pre[j]), f) by {
                    assert(pre[j] == next[j]);
                }
                assert(next[k as int] == inc[k as int]);
            } else {
                let j = choose|j: int| 0 <= j < next.len() && contains_seq(#[trigger] glob_key(next[j]), f);
                if j < k {
                    assert(pre[j] == next[j]);
                } else {
                    assert(next[j] == inc[k as int]);
                }
            }
        }
        if starts_with_chars(key.as_slice(), up.as_slice()) || starts_with_chars(key.as_slice(), dot_up.as_slice()) {
            assert(is_first_leaving(inc, k as int));
            let mut m = String::new();
            push_str(&mut m, "Glob '");
            push_chars(&mut m, key.as_slice());
            push_str(&mut m, "' starting with '../'.\nStarting glob with '../' is not supported at the moment.");
            proof {
                let c = choose|c: int| is_first_leaving(inc, c);
                assert(c == k as int) by {
                    if c < k as int {
                    } else if c > k as int {
                    }
                }
            }
            return Err(Error::Custom(m));
        }
        k = k + 1;
    }
    assert(inc.take(include_globs@.len() as int) =~= inc);
    assert(!exists|c: int| is_first_leaving(inc, c));
    // -- Resolved list
    let mut resolved: Vec<String> = Vec::new();
    let mut i: usize = 0;
    assert(string_views(resolved@) =~= kept_folder_globs(inc, 0));
    while i < 6
        invariant
            i <= 6,
            kept@.len() == 6,
            str_views(folder_globs@) == special_folder_globs(),
            folder_globs@.len() == 6,
            forall|x: int| 0 <= x < 6 ==> #[trigger] kept@[x] == folder_kept(inc, special_folders()[x]),
            string_views(resolved@) == kept_folder_globs(inc, i as nat),
        decreases 6 - i,
    {
        if kept[i] {
            let ghost before = resolved@;
            assert(str_views(folder_globs@)[i as int] == folder_globs@[i as int]@);
            resolved.push(owned(folder_globs[i]));
            assert(string_views(resolved@) =~= string_views(before).push(special_folder_globs()[i as int]));
        }
        assert(kept_folder_globs(inc, (i + 1) as nat) =~= kept_folder_globs(inc, i as nat) + if kept@[i as int] {
            seq![special_folder_globs()[i as int]]
        } else {
            Seq::empty()
        });
        i = i + 1;
    }
    let always = globs_to_always_exclude();
    push_owned(&mut resolved, always.as_slice());
    push_owned(&mut resolved, custom_exclude_globs);
    Ok(resolved)
}

// endregion: --- Resolution

} // verus!
