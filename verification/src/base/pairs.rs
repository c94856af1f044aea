//! Association lists of texts: keys with values, looked up by first entry.

use vstd::prelude::*;

use crate::base::chars::same_chars;

verus! {

/// Entries of a key and a value.
pub type Pairs = Seq<(Seq<char>, Seq<char>)>;

/// The value of `k` in `hs` (its first entry), if any.
pub open spec fn lookup(hs: Pairs, k: Seq<char>) -> Option<Seq<char>>
    decreases hs.len(),
{
    if hs.len() == 0 {
        None
    } else if hs[0].0 == k {
        Some(hs[0].1)
    } else {
        lookup(hs.drop_first(), k)
    }
}

/// No key occurs twice.
pub open spec fn keys_unique(hs: Pairs) -> bool {
    forall|i: int, j: int| 0 <= i < j < hs.len() ==> hs[i].0 != hs[j].0
}

/// When the lookup of `k` finds nothing, no entry has key `k`.
pub proof fn lemma_lookup_none(hs: Pairs, k: Seq<char>)
    requires
        lookup(hs, k) is None,
    ensures
        forall|i: int| 0 <= i < hs.len() ==> #[trigger] hs[i].0 != k,
    decreases hs.len(),
{
    if hs.len() > 0 {
        lemma_lookup_none(hs.drop_first(), k);
        assert forall|i: int| 0 <= i < hs.len() implies #[trigger] hs[i].0 != k by {
            if i > 0 {
                assert(hs[i] == hs.drop_first()[i - 1]);
            }
        }
    }
}

/// Appending an entry whose key is not there keeps keys unique.
pub proof fn lemma_push_new_key(hs: Pairs, k: Seq<char>, v: Seq<char>)
    requires
        keys_unique(hs),
        lookup(hs, k) is None,
    ensures
        keys_unique(hs.push((k, v))),
{
    lemma_lookup_none(hs, k);
    let h = hs.push((k, v));
    assert forall|i: int, j: int| 0 <= i < j < h.len() implies h[i].0 != h[j].0 by {
        assert(h[i] == hs[i]);
        if j < hs.len() {
            assert(h[j] == hs[j]);
        }
    }
}

/// The views of entries held as character vectors.
pub open spec fn char_pairs(hs: Seq<(Vec<char>, Vec<char>)>) -> Pairs {
    hs.map_values(|p: (Vec<char>, Vec<char>)| (p.0@, p.1@))
}

/// The index of the entry `lookup` finds for `k`.
pub fn find_pair(hs: &Vec<(Vec<char>, Vec<char>)>, k: &[char]) -> (r: Option<usize>)
    ensures
        match r {
            Some(i) => i < hs@.len() && lookup(char_pairs(hs@), k@) == Some(hs@[i as int].1@),
            None => lookup(char_pairs(hs@), k@) is None,
        },
{
    let ghost cp = char_pairs(hs@);
    let mut i: usize = 0;
    assert(cp.skip(0) =~= cp);
    while i < hs.len()
        invariant
            i <= hs@.len(),
            cp == char_pairs(hs@),
            lookup(cp, k@) == lookup(cp.skip(i as int), k@),
        decreases hs@.len() - i,
    {
        assert(cp.skip(i as int)[0] == cp[i as int]);
        if same_chars(hs[i].0.as_slice(), k) {
            return Some(i);
        }
        assert(cp.skip(i as int).drop_first() =~= cp.skip(i + 1));
        i = i + 1;
    }
    assert(cp.skip(i as int) =~= Seq::<(Seq<char>, Seq<char>)>::empty());
    None
}

} // verus!
