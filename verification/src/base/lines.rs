//! Line splitting (as `str::lines` does it) and joining with newlines.

use vstd::prelude::*;

verus! {

/// The pieces of `s` between newline characters (`k` newlines give `k + 1` pieces).
pub open spec fn split_newlines(s: Seq<char>) -> Seq<Seq<char>>
    decreases s.len(),
{
    if s.len() == 0 {
        seq![Seq::empty()]
    } else if s.last() == '\n' {
        split_newlines(s.drop_last()).push(Seq::empty())
    } else {
        let p = split_newlines(s.drop_last());
        p.update(p.len() - 1, p.last().push(s.last()))
    }
}

/// `l` without one trailing carriage return.
pub open spec fn strip_cr(l: Seq<char>) -> Seq<char> {
    if l.len() > 0 && l.last() == '\r' {
        l.drop_last()
    } else {
        l
    }
}

/// The lines of `s` as `str::lines` yields them: split at `\n`, a `\r` right
/// before a `\n` removed, and no final empty line after a trailing `\n`.
pub open spec fn lines_spec(s: Seq<char>) -> Seq<Seq<char>> {
    let p = split_newlines(s);
    let body = p.drop_last().map_values(|l: Seq<char>| strip_cr(l));
    if p.last().len() == 0 {
        body
    } else {
        body.push(p.last())
    }
}

/// `parts` joined with `\n` between consecutive parts.
pub open spec fn join_lines(parts: Seq<Seq<char>>) -> Seq<char>
    decreases parts.len(),
{
    if parts.len() == 0 {
        Seq::empty()
    } else if parts.len() == 1 {
        parts[0]
    } else {
        join_lines(parts.drop_last()) + seq!['\n'] + parts.last()
    }
}

/// Splitting always yields at least one piece.
pub proof fn lemma_split_nonempty(s: Seq<char>)
    ensures
        split_newlines(s).len() >= 1,
    decreases s.len(),
{
    if s.len() > 0 {
        lemma_split_nonempty(s.drop_last());
    }
}

/// Joining one more part extends the joined text by a newline and that part.
pub proof fn lemma_join_push(parts: Seq<Seq<char>>, x: Seq<char>)
    ensures
        join_lines(parts.push(x)) == if parts.len() == 0 {
            x
        } else {
            join_lines(parts) + seq!['\n'] + x
        },
{
    assert(parts.push(x).drop_last() =~= parts);
}

/// Appending a character to the last part appends it to the joined text.
pub proof fn lemma_join_extend_last(parts: Seq<Seq<char>>, c: char)
    requires
        parts.len() >= 1,
    ensures
        join_lines(parts.update(parts.len() - 1, parts.last().push(c))) == join_lines(parts).push(c),
{
    let q = parts.update(parts.len() - 1, parts.last().push(c));
    if parts.len() == 1 {
        assert(q[0] == parts[0].push(c));
    } else {
        assert(q.drop_last() =~= parts.drop_last());
        assert(join_lines(q) == join_lines(q.drop_last()) + seq!['\n'] + q.last());
        assert(join_lines(parts).push(c) =~= join_lines(parts.drop_last()) + seq!['\n'] + parts.last().push(c));
    }
}

/// Joining the newline-separated pieces of `s` gives `s` back.
pub proof fn lemma_join_split(s: Seq<char>)
    ensures
        join_lines(split_newlines(s)) == s,
    decreases s.len(),
{
    if s.len() == 0 {
        assert(join_lines(seq![Seq::<char>::empty()]) == Seq::<char>::empty());
    } else {
        let t = s.drop_last();
        lemma_join_split(t);
        lemma_split_nonempty(t);
        if s.last() == '\n' {
            lemma_join_push(split_newlines(t), Seq::empty());
            assert(t + seq!['\n'] + Seq::<char>::empty() =~= s);
        } else {
            lemma_join_extend_last(split_newlines(t), s.last());
            assert(t.push(s.last()) =~= s);
        }
    }
}

/// `s` holds no carriage return.
pub open spec fn has_no_cr(s: Seq<char>) -> bool {
    forall|i: int| 0 <= i < s.len() ==> s[i] != '\r'
}

/// The pieces of a text without carriage returns hold none either.
pub proof fn lemma_split_no_cr(s: Seq<char>)
    requires
        has_no_cr(s),
    ensures
        forall|k: int| 0 <= k < split_newlines(s).len() ==> has_no_cr(#[trigger] split_newlines(s)[k]),
    decreases s.len(),
{
    if s.len() > 0 {
        let t = s.drop_last();
        assert(has_no_cr(t));
        lemma_split_no_cr(t);
        lemma_split_nonempty(t);
        let p = split_newlines(t);
        if s.last() != '\n' {
            assert forall|k: int| 0 <= k < split_newlines(s).len() implies has_no_cr(
                #[trigger] split_newlines(s)[k],
            ) by {
                if k == p.len() - 1 {
                    assert(has_no_cr(p[k]));
                    assert(split_newlines(s)[k] == p.last().push(s.last()));
                }
            }
        }
    }
}

/// Joining the lines of a text without carriage returns gives the text back,
/// once the final newline (if any) is restored as an empty last line.
pub proof fn lemma_join_lines_restores(s: Seq<char>)
    requires
        has_no_cr(s),
    ensures
        join_lines(
            if s.len() > 0 && s.last() == '\n' {
                lines_spec(s).push(Seq::empty())
            } else {
                lines_spec(s)
            },
        ) == s,
{
    let p = split_newlines(s);
    lemma_split_nonempty(s);
    lemma_split_no_cr(s);
    lemma_join_split(s);
    let body = p.drop_last().map_values(|l: Seq<char>| strip_cr(l));
    assert forall|k: int| 0 <= k < body.len() implies body[k] == p[k] by {
        assert(has_no_cr(p[k]));
        if p[k].len() > 0 {
            assert(p[k].last() == p[k][p[k].len() - 1]);
        }
    }
    assert(body =~= p.drop_last());
    if s.len() > 0 && s.last() == '\n' {
        assert(p == split_newlines(s.drop_last()).push(Seq::empty()));
        assert(body.push(Seq::empty()) =~= p);
    } else if s.len() == 0 {
        assert(p =~= seq![Seq::<char>::empty()]);
        assert(body =~= Seq::<Seq<char>>::empty());
    } else {
        let q = split_newlines(s.drop_last());
        lemma_split_nonempty(s.drop_last());
        assert(p.last() == q.last().push(s.last()));
        assert(p.last().len() > 0);
        assert(body.push(p.last()) =~= p);
    }
}

/// The lines of `v`, each as a character vector.
pub fn lines_of(v: &[char]) -> (r: Vec<Vec<char>>)
    ensures
        r@.len() == lines_spec(v@).len(),
        forall|i: int| 0 <= i < r@.len() ==> #[trigger] r@[i]@ == lines_spec(v@)[i],
{
    let mut done: Vec<Vec<char>> = Vec::new();
    let mut cur: Vec<char> = Vec::new();
    let ghost mut pieces: Seq<Seq<char>> = seq![Seq::empty()];
    let mut i: usize = 0;
    assert(v@.take(0) =~= Seq::<char>::empty());
    while i < v.len()
        invariant
            i <= v@.len(),
            pieces == split_newlines(v@.take(i as int)),
            pieces.len() >= 1,
            cur@ == pieces.last(),
            done@.len() == pieces.len() - 1,
            forall|k: int| 0 <= k < done@.len() ==> #[trigger] done@[k]@ == strip_cr(pieces[k]),
        decreases v@.len() - i,
    {
        let c = v[i];
        assert(v@.take(i + 1).drop_last() =~= v@.take(i as int));
        if c == '\n' {
            let mut line = cur;
            let n = line.len();
            if n > 0 && line[n - 1] == '\r' {
                line.pop();
            }
            done.push(line);
            cur = Vec::new();
            proof {
                pieces = pieces.push(Seq::empty());
            }
        } else {
            cur.push(c);
            proof {
                pieces = pieces.update(pieces.len() - 1, pieces.last().push(c));
            }
        }
        i = i + 1;
    }
    assert(v@.take(v@.len() as int) =~= v@);
    if cur.len() > 0 {
        done.push(cur);
    }
    proof {
        let p = split_newlines(v@);
        let body = p.drop_last().map_values(|l: Seq<char>| strip_cr(l));
        assert(body.len() == p.len() - 1);
        assert forall|k: int| 0 <= k < done@.len() implies #[trigger] done@[k]@ == lines_spec(
            v@,
        )[k] by {
            if k < p.len() - 1 {
                assert(body[k] == strip_cr(p[k]));
            }
        }
    }
    done
}

} // verus!
