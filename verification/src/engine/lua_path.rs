//! The decisions of installing a value or function at a dotted Lua path
//! (`aip.file.read`): the path's segments, what to do at each intermediate
//! segment, and the error messages.

use vstd::prelude::*;

use crate::base::chars::{chars_of, push_str, string_from_chars};
use crate::base::split::{split_chars, split_on};
use crate::engine::native_fns::LuaValueKind;

verus! {

/// The segments of a dotted path: the intermediate tables, then the leaf.
/// Every path has a leaf (the empty path's is empty).
pub fn path_segments(path: &str) -> (r: (Vec<String>, String))
    ensures
        r.0@.map_values(|s: String| s@).push(r.1@) == split_on(path@, seq!['.']),
{
    let v = chars_of(path);
    let dot: Vec<char> = vec!['.'];
    assert(dot@ =~= seq!['.']);
    let parts = split_chars(v.as_slice(), dot.as_slice());
    let ghost pieces = split_on(v@, seq!['.']);
    proof {
        crate::base::split::lemma_split_on_nonempty(v@, seq!['.']);
    }
    let n = parts.len();
    let mut ancestors: Vec<String> = Vec::new();
    let mut i: usize = 0;
    while i + 1 < n
        invariant
            n == parts@.len() == pieces.len(),
            n >= 1,
            i + 1 <= n,
            pieces == split_on(v@, seq!['.']),
            forall|k: int| 0 <= k < n ==> #[trigger] parts@[k]@ == pieces[k],
            ancestors@.map_values(|s: String| s@) == pieces.take(i as int),
        decreases n - i,
    {
        let ghost before = ancestors@.map_values(|s: String| s@);
        ancestors.push(string_from_chars(parts[i].as_slice()));
        assert(ancestors@.map_values(|s: String| s@) =~= before.push(pieces[i as int]));
        assert(pieces.take(i + 1) =~= pieces.take(i as int).push(pieces[i as int]));
        i = i + 1;
    }
    let leaf = string_from_chars(parts[n - 1].as_slice());
    assert(pieces.take(n - 1).push(pieces[n - 1]) =~= pieces);
    (ancestors, leaf)
}

/// What to do at an intermediate segment, from what the current table holds
/// there.
#[derive(Debug, Clone, Copy, PartialEq, Eq, Structural)]
pub enum SegmentStep {
    /// Nothing (`nil`): create a table there and go into it.
    CreateTable,
    /// A table: go into it.
    Descend,
    /// Anything else: fail.
    NotATable,
}

/// The step at an intermediate segment: `nil` makes a new table, a table is
/// entered, anything else (`null` included) is an error.
pub fn segment_step(existing: LuaValueKind) -> (r: SegmentStep)
    ensures
        r == match existing {
            LuaValueKind::Nil => SegmentStep::CreateTable,
            LuaValueKind::Table { .. } => SegmentStep::Descend,
            _ => SegmentStep::NotATable,
        },
{
    match existing {
        LuaValueKind::Nil => SegmentStep::CreateTable,
        LuaValueKind::Table { .. } => SegmentStep::Descend,
        _ => SegmentStep::NotATable,
    }
}

/// The message for a segment that holds something other than a table.
pub fn not_a_table_message(segment: &str) -> (r: String)
    ensures
        r@ == "Path segment '"@ + segment@ + "' exists but is not a table"@,
{
    let mut m = String::new();
    push_str(&mut m, "Path segment '");
    push_str(&mut m, segment);
    push_str(&mut m, "' exists but is not a table");
    m
}

/// Whether installing a function at a leaf conflicts with what is there:
/// anything but `nil`.
pub fn leaf_taken(existing: LuaValueKind) -> (r: bool)
    ensures
        r == !(existing is Nil),
{
    match existing {
        LuaValueKind::Nil => false,
        _ => true,
    }
}

/// The message for a function whose leaf is already taken.
pub fn function_exists_message(leaf: &str, path: &str) -> (r: String)
    ensures
        r@ == "Function already exists at leaf '"@ + leaf@ + "' in path '"@ + path@ + "'"@,
{
    let mut m = String::new();
    push_str(&mut m, "Function already exists at leaf '");
    push_str(&mut m, leaf);
    push_str(&mut m, "' in path '");
    push_str(&mut m, path);
    push_str(&mut m, "'");
    m
}

} // verus!
