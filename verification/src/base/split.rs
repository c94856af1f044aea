//! Splitting character sequences at a separator (as `str::split` does with a
//! string pattern) and joining pieces with a separator.

use vstd::prelude::*;

use crate::base::chars::{append_chars, has_prefix, matches_at};

verus! {

/// `p` with `c` put in front of its first piece.
pub open spec fn prepend_first(c: Seq<char>, p: Seq<Seq<char>>) -> Seq<Seq<char>> {
    p.update(0, c + p[0])
}

/// The pieces of `s` between the non-overlapping occurrences of `sep`,
/// found from left to right (`k` occurrences give `k + 1` pieces).
pub open spec fn split_on(s: Seq<char>, sep: Seq<char>) -> Seq<Seq<char>>
    decreases s.len(),
{
    if s.len() == 0 {
        seq![Seq::empty()]
    } else if sep.len() > 0 && has_prefix(s, sep) {
        seq![Seq::<char>::empty()] + split_on(s.skip(sep.len() as int), sep)
    } else {
        prepend_first(seq![s[0]], split_on(s.drop_first(), sep))
    }
}

/// `parts` joined with `sep` between consecutive parts.
pub open spec fn join_with(parts: Seq<Seq<char>>, sep: Seq<char>) -> Seq<char>
    decreases parts.len(),
{
    if parts.len() == 0 {
        Seq::empty()
    } else if parts.len() == 1 {
        parts[0]
    } else {
        join_with(parts.drop_last(), sep) + sep + parts.last()
    }
}

/// Splitting always yields at least one piece.
pub proof fn lemma_split_on_nonempty(s: Seq<char>, sep: Seq<char>)
    ensures
        split_on(s, sep).len() >= 1,
    decreases s.len(),
{
    if s.len() == 0 {
    } else if sep.len() > 0 && has_prefix(s, sep) {
        lemma_split_on_nonempty(s.skip(sep.len() as int), sep);
    } else {
        lemma_split_on_nonempty(s.drop_first(), sep);
    }
}

/// Joining one more part appends the separator and the part.
pub proof fn lemma_join_with_push(parts: Seq<Seq<char>>, sep: Seq<char>, x: Seq<char>)
    ensures
        join_with(parts.push(x), sep) == if parts.len() == 0 {
            x
        } else {
            join_with(parts, sep) + sep + x
        },
{
    assert(parts.push(x).drop_last() =~= parts);
}

/// The pieces of `s` between the occurrences of `sep`.
pub fn split_chars(s: &[char], sep: &[char]) -> (r: Vec<Vec<char>>)
    ensures
        r@.len() == split_on(s@, sep@).len(),
        forall|i: int| 0 <= i < r@.len() ==> #[trigger] r@[i]@ == split_on(s@, sep@)[i],
{
    let mut done: Vec<Vec<char>> = Vec::new();
    let mut cur: Vec<char> = Vec::new();
    let mut i: usize = 0;
    let ghost mut g_done: Seq<Seq<char>> = Seq::empty();
    proof {
        lemma_split_on_nonempty(s@, sep@);
        assert(s@.skip(0) =~= s@);
        assert(prepend_first(Seq::empty(), split_on(s@, sep@)) =~= split_on(s@, sep@));
    }
    while i < s.len()
        invariant
            i <= s@.len(),
            g_done.len() == done@.len(),
            forall|k: int| 0 <= k < done@.len() ==> #[trigger] done@[k]@ == g_done[k],
            split_on(s@, sep@) == g_done + prepend_first(cur@, split_on(s@.skip(i as int), sep@)),
        decreases s@.len() - i,
    {
        let ghost rest = s@.skip(i as int);
        let k = sep.len();
        if k > 0 && k <= s.len() - i && matches_at(s, sep, i) {
            assert(rest.subrange(0, k as int) =~= s@.subrange(i as int, i + k));
            assert(has_prefix(rest, sep@));
            assert(rest.skip(k as int) =~= s@.skip(i + k));
            proof {
                lemma_split_on_nonempty(s@.skip(i + k), sep@);
                assert(prepend_first(Seq::empty(), split_on(s@.skip(i + k), sep@)) =~= split_on(
                    s@.skip(i + k),
                    sep@,
                ));
                assert(prepend_first(cur@, split_on(rest, sep@)) =~= seq![cur@] + split_on(
                    s@.skip(i + k),
                    sep@,
                ));
                g_done = g_done.push(cur@);
            }
            done.push(cur);
            cur = Vec::new();
            i = i + k;
        } else {
            assert(!(sep@.len() > 0 && has_prefix(rest, sep@))) by {
                if sep@.len() > 0 && has_prefix(rest, sep@) {
                    assert(rest.subrange(0, k as int) =~= s@.subrange(i as int, i + k));
                }
            }
            assert(rest.drop_first() =~= s@.skip(i + 1));
            proof {
                lemma_split_on_nonempty(s@.skip(i + 1), sep@);
                let p = split_on(s@.skip(i + 1), sep@);
                assert(cur@ + (seq![s@[i as int]] + p[0]) =~= cur@.push(s@[i as int]) + p[0]);
                assert(prepend_first(cur@, prepend_first(seq![s@[i as int]], p)) =~= prepend_first(
                    cur@.push(s@[i as int]),
                    p,
                ));
            }
            cur.push(s[i]);
            i = i + 1;
        }
    }
    proof {
        assert(s@.skip(i as int) =~= Seq::<char>::empty());
        assert(prepend_first(cur@, seq![Seq::<char>::empty()]) =~= seq![cur@]);
        g_done = g_done.push(cur@);
    }
    done.push(cur);
    done
}

/// `parts` joined with `sep`.
pub fn join_chars(parts: &Vec<Vec<char>>, sep: &[char]) -> (r: Vec<char>)
    ensures
        r@ == join_with(parts@.map_values(|p: Vec<char>| p@), sep@),
{
    let ghost views = parts@.map_values(|p: Vec<char>| p@);
    let mut out: Vec<char> = Vec::new();
    let mut i: usize = 0;
    while i < parts.len()
        invariant
            i <= parts@.len(),
            views == parts@.map_values(|p: Vec<char>| p@),
            out@ == join_with(views.take(i as int), sep@),
        decreases parts@.len() - i,
    {
        proof {
            lemma_join_with_push(views.take(i as int), sep@, views[i as int]);
            assert(views.take(i + 1) =~= views.take(i as int).push(views[i as int]));
        }
        if i > 0 {
            append_chars(&mut out, sep);
        }
        append_chars(&mut out, parts[i].as_slice());
        i = i + 1;
    }
    assert(views.take(parts@.len() as int) =~= views);
    out
}


/// Text without the separator character splits into itself, and followed by
/// the separator it comes off as the first piece.
proof fn lemma_split_plain(a: Seq<char>, c: char, t: Seq<char>)
    requires
        forall|j: int| 0 <= j < a.len() ==> #[trigger] a[j] != c,
    ensures
        split_on(a, seq![c]) == seq![a],
        split_on(a + seq![c] + t, seq![c]) == seq![a] + split_on(t, seq![c]),
    decreases a.len(),
{
    lemma_split_on_nonempty(a, seq![c]);
    if a.len() == 0 {
        assert(a + seq![c] + t =~= seq![c] + t);
        assert(has_prefix(seq![c] + t, seq![c])) by {
            assert((seq![c] + t).subrange(0, 1) =~= seq![c]);
        }
        assert((seq![c] + t).skip(1) =~= t);
        assert(a =~= Seq::<char>::empty());
    } else {
        let r = a.drop_first();
        lemma_split_plain(r, c, t);
        lemma_split_on_nonempty(r, seq![c]);
        assert(!has_prefix(a, seq![c])) by {
            assert(a.subrange(0, 1)[0] == a[0]);
        }
        let s2 = a + seq![c] + t;
        assert(!has_prefix(s2, seq![c])) by {
            assert(s2.subrange(0, 1)[0] == a[0]);
        }
        assert(s2.drop_first() =~= r + seq![c] + t);
        assert(seq![a[0]] + r =~= a);
        assert(prepend_first(seq![a[0]], seq![r]) =~= seq![a]);
        lemma_split_on_nonempty(t, seq![c]);
        assert(prepend_first(seq![a[0]], seq![r] + split_on(t, seq![c])) =~= seq![a] + split_on(t, seq![c]));
    }
}

/// Joining with one added piece in front.
proof fn lemma_join_front(a: Seq<char>, rest: Seq<Seq<char>>, sep: Seq<char>)
    requires
        rest.len() >= 1,
    ensures
        join_with(seq![a] + rest, sep) == a + sep + join_with(rest, sep),
    decreases rest.len(),
{
    let all = seq![a] + rest;
    assert(all.drop_last() =~= seq![a] + rest.drop_last());
    if rest.len() == 1 {
        assert(seq![a].len() == 1);
        assert(join_with(seq![a], sep) == a);
        assert(all.drop_last() =~= seq![a]);
        assert(join_with(rest, sep) == rest[0]);
    } else {
        lemma_join_front(a, rest.drop_last(), sep);
        assert(all.last() == rest.last());
    }
}

/// Law: pieces without the separator character, joined with it, split back
/// into the same pieces.
pub proof fn law_split_join(parts: Seq<Seq<char>>, c: char)
    requires
        parts.len() >= 1,
        forall|i: int, j: int| 0 <= i < parts.len() && 0 <= j < parts[i].len() ==> #[trigger] parts[i][j] != c,
    ensures
        split_on(join_with(parts, seq![c]), seq![c]) == parts,
    decreases parts.len(),
{
    let a = parts[0];
    assert forall|j: int| 0 <= j < a.len() implies #[trigger] a[j] != c by {
        assert(parts[0][j] != c);
    }
    if parts.len() == 1 {
        lemma_split_plain(a, c, Seq::empty());
        assert(parts =~= seq![a]);
    } else {
        let rest = parts.drop_first();
        assert forall|i: int, j: int| 0 <= i < rest.len() && 0 <= j < rest[i].len() implies #[trigger] rest[i][j] != c by {
            assert(rest[i] == parts[i + 1]);
        }
        law_split_join(rest, c);
        assert(parts =~= seq![a] + rest);
        lemma_join_front(a, rest, seq![c]);
        lemma_split_plain(a, c, join_with(rest, seq![c]));
    }
}

} // verus!
