//! The decisions of the native Lua helpers (`is_null`, `value_or`,
//! `is_table`, `is_list`, `is_object`, `merge`, `merge_deep`), made on the
//! kinds of the Lua values they receive.

use vstd::prelude::*;

use crate::error::owned;

verus! {

/// What the helpers read of a Lua value.
#[derive(Debug, Clone, Copy, PartialEq, Eq, Structural)]
pub enum LuaValueKind {
    /// `nil`.
    Nil,
    /// The `null` sentinel.
    Null,
    /// A table; `has_first` tells whether its index 1 holds a value.
    Table { has_first: bool },
    /// Any other value.
    Other,
}

// region:    --- Null and type predicates

/// `nil` or `null`.
pub open spec fn is_null_spec(k: LuaValueKind) -> bool {
    k is Nil || k is Null
}

/// Whether a value is `nil` or `null` (`is_null`; `nil_if_null` turns such a
/// value into `nil`).
pub fn is_null(k: LuaValueKind) -> (r: bool)
    ensures
        r == is_null_spec(k),
{
    match k {
        LuaValueKind::Nil | LuaValueKind::Null => true,
        _ => false,
    }
}

/// Whether a value is neither `nil` nor `null` (`is_not_null`).
pub fn is_not_null(k: LuaValueKind) -> (r: bool)
    ensures
        r == !is_null_spec(k),
{
    !is_null(k)
}

/// The first argument that is neither `nil` nor `null`.
pub open spec fn first_present(ks: Seq<LuaValueKind>, from: int) -> Option<int>
    decreases ks.len() - from,
{
    if from < 0 || from >= ks.len() {
        None
    } else if !is_null_spec(ks[from]) {
        Some(from)
    } else {
        first_present(ks, from + 1)
    }
}

/// The index of the value `value_or` returns: the first argument that is
/// neither `nil` nor `null` (none gives `nil`).
pub fn value_or_index(kinds: &[LuaValueKind]) -> (r: Option<usize>)
    ensures
        match first_present(kinds@, 0) {
            Some(i) => r == Some(i as usize),
            None => r is None,
        },
{
    let mut i: usize = 0;
    while i < kinds.len()
        invariant
            i <= kinds@.len(),
            first_present(kinds@, 0) == first_present(kinds@, i as int),
        decreases kinds@.len() - i,
    {
        if !is_null(kinds[i]) {
            return Some(i);
        }
        i = i + 1;
    }
    None
}

/// Whether a value is a table (`is_table`).
pub fn is_table(k: LuaValueKind) -> (r: bool)
    ensures
        r == (k is Table),
{
    match k {
        LuaValueKind::Table { .. } => true,
        _ => false,
    }
}

/// Whether a value is a table whose index 1 holds a value (`is_list`).
pub fn is_list(k: LuaValueKind) -> (r: bool)
    ensures
        r == (k matches LuaValueKind::Table { has_first } && has_first),
{
    match k {
        LuaValueKind::Table { has_first } => has_first,
        _ => false,
    }
}

/// Whether a value is a table whose index 1 holds nothing (`is_object`).
pub fn is_object(k: LuaValueKind) -> (r: bool)
    ensures
        r == (k matches LuaValueKind::Table { has_first } && !has_first),
{
    match k {
        LuaValueKind::Table { has_first } => !has_first,
        _ => false,
    }
}

/// Law: `is_list` and `is_object` split the tables, and neither holds of
/// `nil`, `null` or a value that is not a table.
pub proof fn law_table_predicates(k: LuaValueKind)
    ensures
        (k is Table) <==> ((k matches LuaValueKind::Table { has_first } && has_first) || (k matches LuaValueKind::Table {
            has_first,
        } && !has_first)),
        is_null_spec(k) ==> !(k is Table),
{
}

// endregion: --- Null and type predicates

// region:    --- Merge

/// How a `merge` or `merge_deep` call ends.
#[derive(Debug, Clone, Copy, PartialEq, Eq, Structural)]
pub enum MergeOutcome {
    /// No argument at all: an error.
    NoArguments,
    /// The first argument that is neither `nil` nor `null` is not a table:
    /// an error, before anything is merged.
    TargetNotTable,
    /// Every argument is `nil` or `null`: the call returns `nil`.
    NoTarget,
    /// The sources were merged into the target, which is returned.
    Merged { target: usize },
    /// A source that is not a table stopped the merge, after the sources
    /// before it were merged: an error.
    SourceNotTable { target: usize },
}

/// The sources merged after index `from`, in order: the tables among the
/// arguments, up to the first argument that is neither `nil`, `null` nor a
/// table; and whether such an argument stopped the merge.
pub open spec fn merge_sources(ks: Seq<LuaValueKind>, from: int) -> (Seq<usize>, bool)
    decreases ks.len() - from,
{
    if from < 0 || from >= ks.len() {
        (Seq::empty(), false)
    } else if is_null_spec(ks[from]) {
        merge_sources(ks, from + 1)
    } else if ks[from] is Table {
        let rest = merge_sources(ks, from + 1);
        (seq![from as usize] + rest.0, rest.1)
    } else {
        (Seq::empty(), true)
    }
}

/// The plan of a merge call: how it ends and which arguments are merged
/// into the target, in order.
pub open spec fn merge_plan_spec(ks: Seq<LuaValueKind>) -> (MergeOutcome, Seq<usize>) {
    if ks.len() == 0 {
        (MergeOutcome::NoArguments, Seq::empty())
    } else {
        match first_present(ks, 0) {
            None => (MergeOutcome::NoTarget, Seq::empty()),
            Some(t) => if !(ks[t] is Table) {
                (MergeOutcome::TargetNotTable, Seq::empty())
            } else {
                let s = merge_sources(ks, t + 1);
                if s.1 {
                    (MergeOutcome::SourceNotTable { target: t as usize }, s.0)
                } else {
                    (MergeOutcome::Merged { target: t as usize }, s.0)
                }
            },
        }
    }
}

/// What `first_present` finds is present and not before `from`.
proof fn lemma_first_present_bounds(ks: Seq<LuaValueKind>, from: int)
    requires
        0 <= from,
    ensures
        first_present(ks, from) matches Some(t) ==> from <= t < ks.len() && !is_null_spec(ks[t]),
    decreases ks.len() - from,
{
    if from < ks.len() && is_null_spec(ks[from]) {
        lemma_first_present_bounds(ks, from + 1);
    }
}

/// `first_present` from `i` is `first_present` from 0 when nothing before
/// `i` is present.
proof fn lemma_first_present_skip(ks: Seq<LuaValueKind>, i: int)
    requires
        0 <= i <= ks.len(),
        forall|j: int| 0 <= j < i ==> is_null_spec(#[trigger] ks[j]),
    ensures
        first_present(ks, 0) == first_present(ks, i),
    decreases i,
{
    if i > 0 {
        lemma_first_present_skip(ks, i - 1);
    }
}

/// Plans a `merge` or `merge_deep` call from the kinds of its arguments: the
/// target is the first argument that is neither `nil` nor `null`; the later
/// tables are merged into it in order, `nil` and `null` skipped.
pub fn merge_plan(kinds: &[LuaValueKind]) -> (r: (MergeOutcome, Vec<usize>))
    ensures
        (r.0, r.1@) == merge_plan_spec(kinds@),
{
    if kinds.len() == 0 {
        return (MergeOutcome::NoArguments, Vec::new());
    }
    let t = match value_or_index(kinds) {
        Some(t) => t,
        None => return (MergeOutcome::NoTarget, Vec::new()),
    };
    proof {
        lemma_first_present_bounds(kinds@, 0);
    }
    assert(first_present(kinds@, 0) == Some(t as int));
    if !is_table(kinds[t]) {
        return (MergeOutcome::TargetNotTable, Vec::new());
    }
    let mut sources: Vec<usize> = Vec::new();
    let mut i: usize = t + 1;
    while i < kinds.len()
        invariant
            t < i <= kinds@.len(),
            first_present(kinds@, 0) == Some(t as int),
            kinds@[t as int] is Table,
            merge_sources(kinds@, t + 1) == (sources@ + merge_sources(kinds@, i as int).0, merge_sources(
                kinds@,
                i as int,
            ).1),
        decreases kinds@.len() - i,
    {
        let k = kinds[i];
        if is_null(k) {
        } else if is_table(k) {
            let ghost before = sources@;
            sources.push(i);
            assert(before + merge_sources(kinds@, i as int).0 =~= sources@ + merge_sources(kinds@, i + 1).0);
        } else {
            assert(merge_sources(kinds@, i as int) == (Seq::<usize>::empty(), true));
            assert(sources@ + Seq::<usize>::empty() =~= sources@);
            assert(merge_sources(kinds@, t + 1).1);
            assert(merge_sources(kinds@, t + 1).0 == sources@);
            return (MergeOutcome::SourceNotTable { target: t }, sources);
        }
        i = i + 1;
    }
    assert(sources@ + Seq::<usize>::empty() =~= sources@);
    (MergeOutcome::Merged { target: t }, sources)
}

/// The error message of a merge outcome (`merge_deep` when `deep`), if it
/// is an error.
pub open spec fn merge_error_message(outcome: MergeOutcome, deep: bool) -> Option<Seq<char>> {
    match outcome {
        MergeOutcome::NoArguments => Some(
            if deep {
                "merge_deep requires at least a target table"@
            } else {
                "merge requires at least a target table"@
            },
        ),
        MergeOutcome::TargetNotTable => Some(
            if deep {
                "merge_deep: target must be a table"@
            } else {
                "merge: target must be a table"@
            },
        ),
        MergeOutcome::SourceNotTable { .. } => Some(
            if deep {
                "Cannot deep merge a non table type"@
            } else {
                "Cannot merge a non table type"@
            },
        ),
        _ => None,
    }
}

/// The error message of a merge outcome, if it is an error.
pub fn merge_error(outcome: MergeOutcome, deep: bool) -> (r: Option<String>)
    ensures
        match merge_error_message(outcome, deep) {
            Some(m) => r matches Some(s) && s@ == m,
            None => r is None,
        },
{
    match outcome {
        MergeOutcome::NoArguments => Some(
            if deep {
                owned("merge_deep requires at least a target table")
            } else {
                owned("merge requires at least a target table")
            },
        ),
        MergeOutcome::TargetNotTable => Some(
            if deep {
                owned("merge_deep: target must be a table")
            } else {
                owned("merge: target must be a table")
            },
        ),
        MergeOutcome::SourceNotTable { .. } => Some(
            if deep {
                owned("Cannot deep merge a non table type")
            } else {
                owned("Cannot merge a non table type")
            },
        ),
        _ => None,
    }
}

/// Whether a deep merge descends into a key: when both the target's and the
/// source's values are tables; otherwise the source's value replaces the
/// target's.
pub fn deep_merge_descends(target_value: LuaValueKind, source_value: LuaValueKind) -> (r: bool)
    ensures
        r == (target_value is Table && source_value is Table),
{
    is_table(target_value) && is_table(source_value)
}

/// Law: a merge that succeeds merges exactly the tables after the target,
/// each once, in order; no merge happens without a table target.
pub proof fn law_merge_plan(ks: Seq<LuaValueKind>)
    requires
        ks.len() <= usize::MAX,
    ensures
        ({
            let (o, s) = merge_plan_spec(ks);
            &&& (o matches MergeOutcome::Merged { target } ==> ks[target as int] is Table && (forall|j: int|
                0 <= j < s.len() ==> target < #[trigger] s[j] < ks.len() && ks[s[j] as int] is Table) && (forall|
                j: int,
                l: int,
            | 0 <= j < l < s.len() ==> s[j] < s[l]) && (forall|i: int|
                target < i < ks.len() && ks[i] is Table ==> s.contains(i as usize)))
            &&& (!(o is Merged) && !(o is SourceNotTable) ==> s.len() == 0)
        }),
{
    if ks.len() > 0 {
        match first_present(ks, 0) {
            Some(t) => {
                lemma_first_present_bounds(ks, 0);
                if ks[t] is Table {
                    lemma_merge_sources(ks, t + 1);
                }
            },
            None => {},
        }
    }
}

/// The sources merged from `from` are tables past `from`, increasing, and
/// when nothing stops the merge, every later table is among them.
proof fn lemma_merge_sources(ks: Seq<LuaValueKind>, from: int)
    requires
        0 <= from,
        from <= ks.len(),
        ks.len() <= usize::MAX,
    ensures
        ({
            let s = merge_sources(ks, from).0;
            &&& forall|j: int| 0 <= j < s.len() ==> from <= #[trigger] s[j] < ks.len() && ks[s[j] as int] is Table
            &&& forall|j: int, l: int| 0 <= j < l < s.len() ==> s[j] < s[l]
            &&& !merge_sources(ks, from).1 ==> forall|i: int|
                from <= i < ks.len() && ks[i] is Table ==> s.contains(i as usize)
        }),
    decreases ks.len() - from,
{
    if from < ks.len() {
        lemma_merge_sources(ks, from + 1);
        let rest = merge_sources(ks, from + 1).0;
        if !is_null_spec(ks[from]) && ks[from] is Table {
            let s = seq![from as usize] + rest;
            assert(merge_sources(ks, from).0 == s);
            assert forall|j: int| 0 <= j < s.len() implies from <= #[trigger] s[j] < ks.len() && ks[s[j] as int] is Table by {
                if j > 0 {
                    assert(s[j] == rest[j - 1]);
                }
            }
            assert forall|j: int, l: int| 0 <= j < l < s.len() implies s[j] < s[l] by {
                assert(s[l] == rest[l - 1]);
                if j > 0 {
                    assert(s[j] == rest[j - 1]);
                }
            }
            assert forall|i: int| from <= i < ks.len() && ks[i] is Table && !merge_sources(ks, from).1 implies s.contains(
                i as usize,
            ) by {
                if i == from {
                    assert(s[0] == from as usize);
                } else {
                    let j = choose|j: int| 0 <= j < rest.len() && rest[j] == i as usize;
                    assert(s[j + 1] == rest[j]);
                }
            }
        }
    }
}

// endregion: --- Merge

} // verus!
