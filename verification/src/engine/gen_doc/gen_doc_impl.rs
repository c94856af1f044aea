//! Grouping of registered functions by module, for the documentation.
//!
//! A function is known here by its dotted path (`aip.file.list`); its
//! module is the path before the last dot (`aip.file`).

use vstd::prelude::*;

use crate::base::chars::{chars_of, chars_range, same_chars, string_from_chars};
use crate::base::order::{lemma_lex_asymmetric, lemma_lex_irreflexive, lemma_lex_total, lemma_lex_transitive, lex_less, lex_lt};
use crate::base::text::str_views;

verus! {

// region:    --- Modules of paths

/// The index of the last `.` of `p`, if any.
pub open spec fn last_dot(p: Seq<char>) -> Option<int>
    decreases p.len(),
{
    if p.len() == 0 {
        None
    } else if p.last() == '.' {
        Some(p.len() - 1)
    } else {
        last_dot(p.drop_last())
    }
}

/// The module of a path: the part before its last `.`, or the whole path
/// when it has none.
pub open spec fn module_of(p: Seq<char>) -> Seq<char> {
    match last_dot(p) {
        Some(i) => p.take(i),
        None => p,
    }
}

/// The module of a path, as characters.
fn module_chars(p: &[char]) -> (r: Vec<char>)
    ensures
        r@ == module_of(p@),
{
    let mut i: usize = p.len();
    assert(p@.take(i as int) =~= p@);
    while i > 0 && p[i - 1] != '.'
        invariant
            i <= p@.len(),
            last_dot(p@) == last_dot(p@.take(i as int)),
        decreases i,
    {
        assert(p@.take(i as int).drop_last() =~= p@.take(i - 1));
        i = i - 1;
    }
    if i == 0 {
        assert(p@.take(0) =~= Seq::<char>::empty());
        chars_range(p, 0, p.len())
    } else {
        assert(p@.take(i as int).last() == p@[i - 1]);
        chars_range(p, 0, i - 1)
    }
}

// endregion: --- Modules of paths

// region:    --- Order of functions

/// Function `i` comes before function `j`: by path, then by position.
pub open spec fn key_lt(paths: Seq<Seq<char>>, i: int, j: int) -> bool {
    lex_lt(paths[i], paths[j]) || (paths[i] == paths[j] && i < j)
}

/// The order of functions is a strict total order on positions.
proof fn lemma_key_order(paths: Seq<Seq<char>>, i: int, j: int, k: int)
    ensures
        !key_lt(paths, i, i),
        i != j ==> key_lt(paths, i, j) || key_lt(paths, j, i),
        key_lt(paths, i, j) && key_lt(paths, j, k) ==> key_lt(paths, i, k),
        !(key_lt(paths, i, j) && key_lt(paths, j, i)),
{
    lemma_lex_irreflexive(paths[i]);
    lemma_lex_total(paths[i], paths[j]);
    lemma_lex_asymmetric(paths[i], paths[j]);
    if key_lt(paths, i, j) && key_lt(paths, j, k) {
        if lex_lt(paths[i], paths[j]) && lex_lt(paths[j], paths[k]) {
            lemma_lex_transitive(paths[i], paths[j], paths[k]);
        }
    }
}

/// Whether function `i` comes before function `j`.
fn key_less(paths: &Vec<Vec<char>>, i: usize, j: usize) -> (r: bool)
    requires
        i < paths@.len(),
        j < paths@.len(),
    ensures
        r == key_lt(paths@.map_values(|p: Vec<char>| p@), i as int, j as int),
{
    let ghost pv = paths@.map_values(|p: Vec<char>| p@);
    assert(pv[i as int] == paths@[i as int]@ && pv[j as int] == paths@[j as int]@);
    if lex_less(paths[i].as_slice(), paths[j].as_slice()) {
        true
    } else {
        same_chars(paths[i].as_slice(), paths[j].as_slice()) && i < j
    }
}

// endregion: --- Order of functions

// region:    --- Grouping

/// The functions of one module, in order.
pub struct ModuleGroup {
    pub module_name: String,
    /// Positions, in the list that was grouped, of the module's functions.
    pub fns: Vec<usize>,
}

/// A module's name and its functions' positions.
pub type GroupModel = (Seq<char>, Seq<usize>);

/// The views of groups.
pub open spec fn group_views(gs: Seq<ModuleGroup>) -> Seq<GroupModel> {
    gs.map_values(|g: ModuleGroup| (g.module_name@, g.fns@))
}

/// Function `i` is in some group.
pub open spec fn grouped(gs: Seq<GroupModel>, i: int) -> bool {
    exists|g: int, j: int| 0 <= g < gs.len() && 0 <= j < gs[g].1.len() && gs[g].1[j] == i
}

/// `gs` groups the functions of `paths` by module: the modules in order and
/// each once, every function in the group of its module, each group ordered
/// by path (then position) and not empty.
pub open spec fn is_grouping(paths: Seq<Seq<char>>, gs: Seq<GroupModel>) -> bool {
    &&& forall|a: int, b: int| 0 <= a < b < gs.len() ==> lex_lt(#[trigger] gs[a].0, #[trigger] gs[b].0)
    &&& forall|g: int, j: int|
        0 <= g < gs.len() && 0 <= j < gs[g].1.len() ==> #[trigger] gs[g].1[j] < paths.len() && module_of(
            paths[gs[g].1[j] as int],
        ) == gs[g].0
    &&& forall|g: int, j: int, l: int|
        0 <= g < gs.len() && 0 <= j < l < gs[g].1.len() ==> key_lt(
            paths,
            #[trigger] gs[g].1[j] as int,
            #[trigger] gs[g].1[l] as int,
        )
    &&& forall|i: int| 0 <= i < paths.len() ==> #[trigger] grouped(gs, i)
    &&& forall|g: int| 0 <= g < gs.len() ==> #[trigger] gs[g].1.len() > 0
}

/// The position in `rem` of the function that comes first.
fn first_by_key(paths: &Vec<Vec<char>>, rem: &Vec<usize>) -> (r: usize)
    requires
        rem@.len() > 0,
        forall|k: int| 0 <= k < rem@.len() ==> #[trigger] rem@[k] < paths@.len(),
    ensures
        r < rem@.len(),
        forall|k: int|
            0 <= k < rem@.len() && rem@[k] != rem@[r as int] ==> key_lt(
                paths@.map_values(|p: Vec<char>| p@),
                rem@[r as int] as int,
                #[trigger] rem@[k] as int,
            ),
{
    let ghost pv = paths@.map_values(|p: Vec<char>| p@);
    let mut best: usize = 0;
    let mut k: usize = 1;
    while k < rem.len()
        invariant
            1 <= k <= rem@.len(),
            best < k,
            pv == paths@.map_values(|p: Vec<char>| p@),
            forall|x: int| 0 <= x < rem@.len() ==> #[trigger] rem@[x] < paths@.len(),
            forall|x: int|
                0 <= x < k && rem@[x] != rem@[best as int] ==> key_lt(
                    pv,
                    rem@[best as int] as int,
                    #[trigger] rem@[x] as int,
                ),
        decreases rem@.len() - k,
    {
        if key_less(paths, rem[k], rem[best]) {
            let ghost old_best = best;
            assert forall|x: int| 0 <= x < k + 1 && rem@[x] != rem@[k as int] implies key_lt(
                pv,
                rem@[k as int] as int,
                #[trigger] rem@[x] as int,
            ) by {
                lemma_key_order(pv, rem@[k as int] as int, rem@[old_best as int] as int, rem@[x] as int);
            }
            best = k;
        } else {
            assert forall|x: int| 0 <= x < k + 1 && rem@[x] != rem@[best as int] implies key_lt(
                pv,
                rem@[best as int] as int,
                #[trigger] rem@[x] as int,
            ) by {
                if x == k {
                    lemma_key_order(pv, rem@[best as int] as int, rem@[k as int] as int, 0);
                }
            }
        }
        k = k + 1;
    }
    best
}

/// A remaining function whose module comes first.
fn first_module(mods: &Vec<Vec<char>>, remaining: &Vec<usize>) -> (best: usize)
    requires
        remaining@.len() > 0,
        forall|x: int| 0 <= x < remaining@.len() ==> #[trigger] remaining@[x] < mods@.len(),
    ensures
        best < mods@.len(),
        remaining@.contains(best),
        forall|x: int|
            0 <= x < remaining@.len() ==> !lex_lt(#[trigger] mods@[remaining@[x] as int]@, mods@[best as int]@),
{
    let n = mods.len();
    let mut best: usize = remaining[0];
    proof {
        lemma_lex_irreflexive(mods@[best as int]@);
        assert(remaining@[0] == best);
    }
    let mut k: usize = 1;
    while k < remaining.len()
        invariant
            1 <= k <= remaining@.len(),
            n == mods@.len(),
            forall|x: int| 0 <= x < remaining@.len() ==> #[trigger] remaining@[x] < n,
            remaining@.contains(best),
            forall|x: int|
                0 <= x < k ==> !lex_lt(#[trigger] mods@[remaining@[x] as int]@, mods@[best as int]@),
        decreases remaining@.len() - k,
    {
        let cand = remaining[k];
        if lex_less(mods[cand].as_slice(), mods[best].as_slice()) {
            let ghost old_best = best;
            assert forall|x: int| 0 <= x < k + 1 implies !lex_lt(
                #[trigger] mods@[remaining@[x] as int]@,
                mods@[cand as int]@,
            ) by {
                if x < k {
                    if lex_lt(mods@[remaining@[x] as int]@, mods@[cand as int]@) {
                        lemma_lex_transitive(
                            mods@[remaining@[x] as int]@,
                            mods@[cand as int]@,
                            mods@[old_best as int]@,
                        );
                    }
                } else {
                    lemma_lex_irreflexive(mods@[cand as int]@);
                }
            }
            best = cand;
        }
        k = k + 1;
    }
    best
}

/// The remaining functions of module `m`, and the others.
fn split_by_module(mods: &Vec<Vec<char>>, remaining: &Vec<usize>, m: &Vec<char>) -> (r: (Vec<usize>, Vec<usize>))
    requires
        forall|x: int| 0 <= x < remaining@.len() ==> #[trigger] remaining@[x] < mods@.len(),
        forall|a: int, b: int| 0 <= a < b < remaining@.len() ==> remaining@[a] != remaining@[b],
    ensures
        forall|x: int| 0 <= x < r.0@.len() ==> #[trigger] r.0@[x] < mods@.len() && mods@[r.0@[x] as int]@ == m@,
        forall|x: int| 0 <= x < r.1@.len() ==> #[trigger] r.1@[x] < mods@.len() && mods@[r.1@[x] as int]@ != m@,
        forall|y: usize| (r.0@.contains(y) || r.1@.contains(y)) <==> remaining@.contains(y),
        forall|a: int, b: int| 0 <= a < b < r.0@.len() ==> r.0@[a] != r.0@[b],
        forall|a: int, b: int| 0 <= a < b < r.1@.len() ==> r.1@[a] != r.1@[b],
        r.0@.len() + r.1@.len() == remaining@.len(),
{
    let n = mods.len();
    let mut members: Vec<usize> = Vec::new();
    let mut rest: Vec<usize> = Vec::new();
    let mut k: usize = 0;
    while k < remaining.len()
        invariant
            k <= remaining@.len(),
            n == mods@.len(),
            forall|x: int| 0 <= x < remaining@.len() ==> #[trigger] remaining@[x] < n,
            forall|a: int, b: int| 0 <= a < b < remaining@.len() ==> remaining@[a] != remaining@[b],
            forall|x: int| 0 <= x < members@.len() ==> #[trigger] members@[x] < n && mods@[members@[x] as int]@ == m@,
            forall|x: int| 0 <= x < rest@.len() ==> #[trigger] rest@[x] < n && mods@[rest@[x] as int]@ != m@,
            forall|y: usize|
                #![trigger members@.contains(y)]
                #![trigger rest@.contains(y)]
                #![trigger remaining@.take(k as int).contains(y)]
                (members@.contains(y) || rest@.contains(y)) <==> remaining@.take(k as int).contains(y),
            forall|a: int, b: int| 0 <= a < b < members@.len() ==> members@[a] != members@[b],
            forall|a: int, b: int| 0 <= a < b < rest@.len() ==> rest@[a] != rest@[b],
            members@.len() + rest@.len() == k,
        decreases remaining@.len() - k,
    {
        let x = remaining[k];
        let ghost before_m = members@;
        let ghost before_r = rest@;
        assert(remaining@.take(k + 1) =~= remaining@.take(k as int).push(x));
        assert(!remaining@.take(k as int).contains(x)) by {
            if remaining@.take(k as int).contains(x) {
                let j = choose|j: int| 0 <= j < k && remaining@.take(k as int)[j] == x;
                assert(remaining@[j] == remaining@[k as int]);
            }
        }
        if same_chars(mods[x].as_slice(), m.as_slice()) {
            members.push(x);
            assert forall|y: usize| (members@.contains(y) || rest@.contains(y)) <==> remaining@.take(
                k + 1,
            ).contains(y) by {
                let t0 = remaining@.take(k as int);
                let t1 = remaining@.take(k + 1);
                if members@.contains(y) || rest@.contains(y) {
                    if y == x {
                        assert(t1[k as int] == x);
                    } else {
                        if members@.contains(y) {
                            let j = choose|j: int| 0 <= j < members@.len() && members@[j] == y;
                            assert(before_m[j] == y);
                        }
                        assert(t0.contains(y));
                        let j = choose|j: int| 0 <= j < t0.len() && t0[j] == y;
                        assert(t1[j] == y);
                    }
                }
                if t1.contains(y) {
                    let j = choose|j: int| 0 <= j < t1.len() && t1[j] == y;
                    if j == k {
                        assert(members@[members@.len() - 1] == x);
                    } else {
                        assert(t0[j] == y);
                        if before_m.contains(y) {
                            let i = choose|i: int| 0 <= i < before_m.len() && before_m[i] == y;
                            assert(members@[i] == y);
                        }
                    }
                }
            }
            assert forall|a: int, b: int| 0 <= a < b < members@.len() implies members@[a] != members@[b] by {
                if b == members@.len() - 1 {
                    assert(before_m.contains(members@[a]));
                }
            }
        } else {
            rest.push(x);
            assert forall|y: usize| (members@.contains(y) || rest@.contains(y)) <==> remaining@.take(
                k + 1,
            ).contains(y) by {
                let t0 = remaining@.take(k as int);
                let t1 = remaining@.take(k + 1);
                if members@.contains(y) || rest@.contains(y) {
                    if y == x {
                        assert(t1[k as int] == x);
                    } else {
                        if rest@.contains(y) {
                            let j = choose|j: int| 0 <= j < rest@.len() && rest@[j] == y;
                            assert(before_r[j] == y);
                        }
                        assert(t0.contains(y));
                        let j = choose|j: int| 0 <= j < t0.len() && t0[j] == y;
                        assert(t1[j] == y);
                    }
                }
                if t1.contains(y) {
                    let j = choose|j: int| 0 <= j < t1.len() && t1[j] == y;
                    if j == k {
                        assert(rest@[rest@.len() - 1] == x);
                    } else {
                        assert(t0[j] == y);
                        if before_r.contains(y) {
                            let i = choose|i: int| 0 <= i < before_r.len() && before_r[i] == y;
                            assert(rest@[i] == y);
                        }
                    }
                }
            }
            assert forall|a: int, b: int| 0 <= a < b < rest@.len() implies rest@[a] != rest@[b] by {
                if b == rest@.len() - 1 {
                    assert(before_r.contains(rest@[a]));
                }
            }
        }
        k = k + 1;
    }
    assert(remaining@.take(remaining@.len() as int) =~= remaining@);
    (members, rest)
}

/// The functions at `members`, ordered by path (then position).
fn sort_by_key(paths: &Vec<Vec<char>>, members: Vec<usize>) -> (r: Vec<usize>)
    requires
        forall|k: int| 0 <= k < members@.len() ==> #[trigger] members@[k] < paths@.len(),
        forall|a: int, b: int| 0 <= a < b < members@.len() ==> members@[a] != members@[b],
    ensures
        forall|x: usize| r@.contains(x) <==> members@.contains(x),
        r@.len() == members@.len(),
        forall|j: int, l: int|
            0 <= j < l < r@.len() ==> key_lt(
                paths@.map_values(|p: Vec<char>| p@),
                #[trigger] r@[j] as int,
                #[trigger] r@[l] as int,
            ),
{
    let ghost pv = paths@.map_values(|p: Vec<char>| p@);
    let ghost all = members@;
    let mut rem = members;
    let mut out: Vec<usize> = Vec::new();
    while rem.len() > 0
        invariant
            pv == paths@.map_values(|p: Vec<char>| p@),
            forall|k: int| 0 <= k < rem@.len() ==> #[trigger] rem@[k] < paths@.len(),
            forall|a: int, b: int| 0 <= a < b < rem@.len() ==> rem@[a] != rem@[b],
            forall|x: usize| all.contains(x) <==> (out@.contains(x) || rem@.contains(x)),
            forall|x: usize| !(out@.contains(x) && rem@.contains(x)),
            out@.len() + rem@.len() == all.len(),
            forall|j: int, l: int|
                0 <= j < l < out@.len() ==> key_lt(pv, #[trigger] out@[j] as int, #[trigger] out@[l] as int),
            forall|j: int, l: int|
                0 <= j < out@.len() && 0 <= l < rem@.len() ==> key_lt(
                    pv,
                    #[trigger] out@[j] as int,
                    #[trigger] rem@[l] as int,
                ),
        decreases rem@.len(),
    {
        let b = first_by_key(paths, &rem);
        let x = rem[b];
        let ghost rem_before = rem@;
        let ghost out_before = out@;
        rem.remove(b);
        out.push(x);
        assert(rem@ =~= rem_before.take(b as int) + rem_before.skip(b + 1));
        assert forall|k: int| 0 <= k < rem@.len() implies rem@[k] == rem_before[if k < b {
            k
        } else {
            k + 1
        }] by {}
        assert forall|y: usize| all.contains(y) <==> (out@.contains(y) || rem@.contains(y)) by {
            if rem_before.contains(y) && y != x {
                let k = choose|k: int| 0 <= k < rem_before.len() && rem_before[k] == y;
                if k < b {
                    assert(rem@[k] == y);
                } else {
                    assert(rem@[k - 1] == y);
                }
            }
            if out@.contains(y) && y != x {
                let k = choose|k: int| 0 <= k < out@.len() && out@[k] == y;
                assert(out_before[k] == y);
            }
            if rem@.contains(y) {
                let k = choose|k: int| 0 <= k < rem@.len() && rem@[k] == y;
                assert(rem_before.contains(y));
            }
            if out_before.contains(y) {
                let k = choose|k: int| 0 <= k < out_before.len() && out_before[k] == y;
                assert(out@[k] == y);
            }
            assert(out@[out@.len() - 1] == x);
        }
        assert forall|y: usize| !(out@.contains(y) && rem@.contains(y)) by {
            if out@.contains(y) && rem@.contains(y) {
                let k = choose|k: int| 0 <= k < rem@.len() && rem@[k] == y;
                assert(rem_before.contains(y));
                let j = choose|j: int| 0 <= j < out@.len() && out@[j] == y;
                if j < out_before.len() {
                    assert(out_before[j] == y);
                } else {
                    let kb = if k < b { k } else { k + 1 };
                    assert(rem_before[kb] == y);
                    assert(rem_before[b as int] == x);
                }
            }
        }
        assert forall|j: int, l: int| 0 <= j < l < out@.len() implies key_lt(
            pv,
            #[trigger] out@[j] as int,
            #[trigger] out@[l] as int,
        ) by {
            if l == out@.len() - 1 {
                assert(out@[j] == out_before[j]);
                assert(rem_before[b as int] == x);
            }
        }
        assert forall|j: int, l: int| 0 <= j < out@.len() && 0 <= l < rem@.len() implies key_lt(
            pv,
            #[trigger] out@[j] as int,
            #[trigger] rem@[l] as int,
        ) by {
            let lb = if l < b { l } else { l + 1 };
            assert(rem@[l] == rem_before[lb]);
            if j < out_before.len() {
                assert(out@[j] == out_before[j]);
            } else {
                assert(rem_before[lb] != rem_before[b as int]);
            }
        }
    }
    out
}

/// Groups functions, known by their paths, by module: modules in order,
/// and within a module the functions by path (ties kept in list order).
pub fn group_fns_by_module(paths: &[&str]) -> (r: Vec<ModuleGroup>)
    ensures
        is_grouping(str_views(paths@), group_views(r@)),
{
    let ghost pv_str = str_views(paths@);
    let n = paths.len();
    let mut pv: Vec<Vec<char>> = Vec::new();
    let mut mods: Vec<Vec<char>> = Vec::new();
    let mut i: usize = 0;
    while i < n
        invariant
            n == paths@.len(),
            i <= n,
            pv@.len() == i,
            mods@.len() == i,
            pv_str == str_views(paths@),
            forall|k: int| 0 <= k < i ==> #[trigger] pv@[k]@ == pv_str[k],
            forall|k: int| 0 <= k < i ==> #[trigger] mods@[k]@ == module_of(pv_str[k]),
        decreases n - i,
    {
        let c = chars_of(paths[i]);
        let m = module_chars(c.as_slice());
        pv.push(c);
        mods.push(m);
        i = i + 1;
    }
    assert(pv@.map_values(|p: Vec<char>| p@) =~= pv_str);
    // -- Remaining functions and groups
    let mut remaining: Vec<usize> = Vec::new();
    let mut i: usize = 0;
    while i < n
        invariant
            i <= n,
            remaining@.len() == i,
            forall|k: int| 0 <= k < i ==> #[trigger] remaining@[k] == k,
        decreases n - i,
    {
        remaining.push(i);
        i = i + 1;
    }
    let mut groups: Vec<ModuleGroup> = Vec::new();
    assert forall|x: int| 0 <= x < n implies #[trigger] remaining@.contains(x as usize) by {
        assert(remaining@[x] == x as usize);
    }
    while remaining.len() > 0
        invariant
            n == paths@.len() == pv@.len() == mods@.len(),
            pv_str == str_views(paths@),
            pv@.map_values(|p: Vec<char>| p@) == pv_str,
            forall|k: int| 0 <= k < n ==> #[trigger] mods@[k]@ == module_of(pv_str[k]),
            forall|k: int| 0 <= k < remaining@.len() ==> #[trigger] remaining@[k] < n,
            forall|a: int, b: int| 0 <= a < b < remaining@.len() ==> remaining@[a] != remaining@[b],
            forall|x: int| 0 <= x < n ==> remaining@.contains(x as usize) || grouped(group_views(groups@), x),
            forall|g: int, k: int|
                0 <= g < groups@.len() && 0 <= k < remaining@.len() ==> lex_lt(
                    #[trigger] group_views(groups@)[g].0,
                    module_of(pv_str[#[trigger] remaining@[k] as int]),
                ),
            forall|a: int, b: int|
                0 <= a < b < groups@.len() ==> lex_lt(
                    #[trigger] group_views(groups@)[a].0,
                    #[trigger] group_views(groups@)[b].0,
                ),
            forall|g: int, j: int|
                0 <= g < groups@.len() && 0 <= j < group_views(groups@)[g].1.len() ==> #[trigger] group_views(
                    groups@,
                )[g].1[j] < n && module_of(pv_str[group_views(groups@)[g].1[j] as int]) == group_views(
                    groups@,
                )[g].0,
            forall|g: int, j: int, l: int|
                0 <= g < groups@.len() && 0 <= j < l < group_views(groups@)[g].1.len() ==> key_lt(
                    pv_str,
                    #[trigger] group_views(groups@)[g].1[j] as int,
                    #[trigger] group_views(groups@)[g].1[l] as int,
                ),
            forall|g: int| 0 <= g < groups@.len() ==> #[trigger] group_views(groups@)[g].1.len() > 0,
        decreases remaining@.len(),
    {
        let best = first_module(&mods, &remaining);
        let m = chars_range(mods[best].as_slice(), 0, mods[best].len());
        assert(m@ =~= mods@[best as int]@);
        let (members, rest) = split_by_module(&mods, &remaining, &m);
        assert(members@.contains(best)) by {
            assert(remaining@.contains(best));
            if rest@.contains(best) {
                let j = choose|j: int| 0 <= j < rest@.len() && rest@[j] == best;
            }
        }
        let sorted = sort_by_key(&pv, members);
        let module_name = string_from_chars(m.as_slice());
        let ghost groups_before = group_views(groups@);
        let ghost new_group: GroupModel = (m@, sorted@);
        groups.push(ModuleGroup { module_name, fns: sorted });
        assert(group_views(groups@) =~= groups_before.push(new_group));
        proof {
            // The new module comes after every earlier one and before every
            // module left.
            assert forall|x: int| 0 <= x < rest@.len() implies lex_lt(m@, module_of(pv_str[#[trigger] rest@[x] as int])) by {
                let y = rest@[x];
                assert(rest@.contains(y));
                assert(remaining@.contains(y));
                let ky = choose|ky: int| 0 <= ky < remaining@.len() && remaining@[ky] == y;
                assert(!lex_lt(mods@[remaining@[ky] as int]@, mods@[best as int]@));
                lemma_lex_total(m@, mods@[y as int]@);
            }
        }
        proof {
            let gv = group_views(groups@);
            let last = groups_before.len() as int;
            assert(gv[last] == new_group);
            assert forall|g: int| 0 <= g < last implies #[trigger] gv[g] == groups_before[g] by {}
            // Every function is still in the remaining ones or grouped.
            assert forall|x: int| 0 <= x < n implies rest@.contains(x as usize) || grouped(gv, x) by {
                if remaining@.contains(x as usize) {
                    if members@.contains(x as usize) {
                        assert(sorted@.contains(x as usize));
                        let j = choose|j: int| 0 <= j < sorted@.len() && sorted@[j] == x as usize;
                        assert(gv[last].1[j] == x);
                    }
                } else {
                    assert(grouped(groups_before, x));
                    let (g, j) = choose|g: int, j: int|
                        0 <= g < groups_before.len() && 0 <= j < groups_before[g].1.len() && groups_before[g].1[j]
                            == x;
                    assert(gv[g] == groups_before[g]);
                }
            }
            // Modules of the groups come before the remaining ones.
            assert forall|g: int, k: int| 0 <= g < gv.len() && 0 <= k < rest@.len() implies lex_lt(
                #[trigger] gv[g].0,
                module_of(pv_str[#[trigger] rest@[k] as int]),
            ) by {
                if g < last {
                    let y = rest@[k];
                    assert(rest@.contains(y));
                    assert(remaining@.contains(y));
                    let ky = choose|ky: int| 0 <= ky < remaining@.len() && remaining@[ky] == y;
                    assert(lex_lt(groups_before[g].0, module_of(pv_str[remaining@[ky] as int])));
                }
            }
            // Group modules in order.
            assert forall|a: int, b: int| 0 <= a < b < gv.len() implies lex_lt(#[trigger] gv[a].0, #[trigger] gv[b].0) by {
                if b == last {
                    let kb = choose|kb: int| 0 <= kb < remaining@.len() && remaining@[kb] == best;
                    assert(lex_lt(groups_before[a].0, module_of(pv_str[remaining@[kb] as int])));
                }
            }
            // Members of each group have its module.
            assert forall|g: int, j: int| 0 <= g < gv.len() && 0 <= j < gv[g].1.len() implies #[trigger] gv[g].1[j]
                < n && module_of(pv_str[gv[g].1[j] as int]) == gv[g].0 by {
                if g == last {
                    let y = sorted@[j];
                    assert(sorted@.contains(y));
                    assert(members@.contains(y));
                    let jm = choose|jm: int| 0 <= jm < members@.len() && members@[jm] == y;
                    assert(mods@[members@[jm] as int]@ == m@);
                }
            }
            assert forall|g: int, j: int, l: int| 0 <= g < gv.len() && 0 <= j < l < gv[g].1.len() implies key_lt(
                pv_str,
                #[trigger] gv[g].1[j] as int,
                #[trigger] gv[g].1[l] as int,
            ) by {}
            assert forall|g: int| 0 <= g < gv.len() implies #[trigger] gv[g].1.len() > 0 by {
                if g == last {
                    let jm = choose|jm: int| 0 <= jm < members@.len() && members@[jm] == best;
                }
            }
        }
        remaining = rest;
    }
    proof {
        let gv = group_views(groups@);
        assert forall|i: int| 0 <= i < pv_str.len() implies #[trigger] grouped(gv, i) by {
            assert(!remaining@.contains(i as usize));
        }
    }
    groups
}

// endregion: --- Grouping

} // verus!
