//! Markdown pipe tables.
//!
//! Cells are given as the text they show. A column is as wide as the longest
//! UTF-8 encoding among its header and cells (at least three), and each cell
//! is padded with spaces up to that width counted in characters.

use vstd::prelude::*;
use vstd::utf8::{encode_scalar, encode_utf8};

use crate::base::chars::{append_chars, chars_of, string_from_chars};
use crate::base::split::{join_chars, join_with, lemma_join_with_push, law_split_join, split_on};

verus! {

/// The smallest width of a column (the `---` of its delimiter).
pub const MIN_COL_WIDTH: usize = 3;

/// The number of bytes of the UTF-8 encoding of `s`.
pub open spec fn byte_len(s: Seq<char>) -> nat {
    encode_utf8(s).len()
}

/// The `i`-th cell of a row, or the empty text past its end.
pub open spec fn cell_at(row: Seq<Seq<char>>, i: int) -> Seq<char> {
    if 0 <= i < row.len() {
        row[i]
    } else {
        Seq::empty()
    }
}

/// The larger of two numbers.
pub open spec fn max_nat(a: nat, b: nat) -> nat {
    if a >= b {
        a
    } else {
        b
    }
}

/// The length of the longest row.
pub open spec fn max_row_len(rows: Seq<Seq<Seq<char>>>) -> nat
    decreases rows.len(),
{
    if rows.len() == 0 {
        0
    } else {
        max_nat(max_row_len(rows.drop_last()), rows.last().len())
    }
}

/// No row is longer than the longest row.
pub proof fn lemma_max_row_len_bounds(rows: Seq<Seq<Seq<char>>>)
    ensures
        forall|k: int| 0 <= k < rows.len() ==> #[trigger] rows[k].len() <= max_row_len(rows),
    decreases rows.len(),
{
    if rows.len() > 0 {
        lemma_max_row_len_bounds(rows.drop_last());
        assert forall|k: int| 0 <= k < rows.len() implies #[trigger] rows[k].len() <= max_row_len(rows) by {
            if k < rows.len() - 1 {
                assert(rows[k] == rows.drop_last()[k]);
            }
        }
    }
}

/// The number of columns: the most cells of the header row and the rows.
pub open spec fn column_count(headers: Option<Seq<Seq<char>>>, rows: Seq<Seq<Seq<char>>>) -> nat {
    match headers {
        Some(h) => max_nat(h.len(), max_row_len(rows)),
        None => max_row_len(rows),
    }
}

/// The longest encoding among the cells of column `i` of the rows.
pub open spec fn max_cell_bytes(rows: Seq<Seq<Seq<char>>>, i: int) -> nat
    decreases rows.len(),
{
    if rows.len() == 0 {
        0
    } else {
        max_nat(max_cell_bytes(rows.drop_last(), i), byte_len(cell_at(rows.last(), i)))
    }
}

/// The width of column `i` before the rows are taken into account.
pub open spec fn header_width(headers: Option<Seq<Seq<char>>>, i: int) -> nat {
    match headers {
        Some(h) => max_nat(MIN_COL_WIDTH as nat, byte_len(cell_at(h, i))),
        None => MIN_COL_WIDTH as nat,
    }
}

/// The width of column `i`.
pub open spec fn column_width(headers: Option<Seq<Seq<char>>>, rows: Seq<Seq<Seq<char>>>, i: int) -> nat {
    max_nat(header_width(headers, i), max_cell_bytes(rows, i))
}

/// The widths of all columns.
pub open spec fn column_widths(headers: Option<Seq<Seq<char>>>, rows: Seq<Seq<Seq<char>>>) -> Seq<nat> {
    Seq::new(column_count(headers, rows), |i: int| column_width(headers, rows, i))
}

/// `n` spaces.
pub open spec fn spaces(n: nat) -> Seq<char> {
    Seq::new(n, |_i: int| ' ')
}

/// `n` dashes.
pub open spec fn dashes(n: nat) -> Seq<char> {
    Seq::new(n, |_i: int| '-')
}

/// A cell between single spaces, its text padded on the right up to `w`
/// characters.
pub open spec fn pad_cell(content: Seq<char>, w: nat) -> Seq<char> {
    seq![' '] + content + spaces(
        if w > content.len() {
            (w - content.len()) as nat
        } else {
            0
        },
    ) + seq![' ']
}

/// Cells between pipes: `|a|b|`.
pub open spec fn pipe_line(cells: Seq<Seq<char>>) -> Seq<char> {
    seq!['|'] + join_with(cells, seq!['|']) + seq!['|']
}

/// The line of a row, one padded cell per column.
pub open spec fn row_line(row: Seq<Seq<char>>, widths: Seq<nat>) -> Seq<char> {
    pipe_line(Seq::new(widths.len(), |i: int| pad_cell(cell_at(row, i), widths[i])))
}

/// The delimiter line under the header row: dashes as wide as each column.
pub open spec fn delimiter_line(widths: Seq<nat>) -> Seq<char> {
    pipe_line(Seq::new(widths.len(), |i: int| seq![' '] + dashes(widths[i]) + seq![' ']))
}

/// The lines of a table: header row and delimiter when there are headers,
/// then one line per row.
pub open spec fn table_lines(headers: Option<Seq<Seq<char>>>, rows: Seq<Seq<Seq<char>>>) -> Seq<Seq<char>> {
    let w = column_widths(headers, rows);
    let head = match headers {
        Some(h) => seq![row_line(h, w), delimiter_line(w)],
        None => Seq::empty(),
    };
    head + Seq::new(rows.len(), |k: int| row_line(rows[k], w))
}

/// The table as text: its lines joined with newlines, or nothing when it
/// has no column.
pub open spec fn table_spec(headers: Option<Seq<Seq<char>>>, rows: Seq<Seq<Seq<char>>>) -> Seq<char> {
    if column_count(headers, rows) == 0 {
        Seq::empty()
    } else {
        join_with(table_lines(headers, rows), seq!['\n'])
    }
}

/// The views of header texts.
pub open spec fn header_views(headers: Option<&[&str]>) -> Option<Seq<Seq<char>>> {
    match headers {
        Some(h) => Some(h@.map_values(|s: &str| s@)),
        None => None,
    }
}

/// The views of the rows' cell texts.
pub open spec fn row_views(rows: Seq<Vec<String>>) -> Seq<Seq<Seq<char>>> {
    rows.map_values(|r: Vec<String>| r@.map_values(|s: String| s@))
}

/// The UTF-8 length of every header and cell fits in a `usize`.
pub open spec fn lengths_fit(headers: Option<Seq<Seq<char>>>, rows: Seq<Seq<Seq<char>>>) -> bool {
    &&& forall|i: int| #![trigger cell_at(headers.unwrap(), i)] headers is Some ==> byte_len(cell_at(headers.unwrap(), i)) <= usize::MAX
    &&& forall|k: int, i: int| 0 <= k < rows.len() ==> byte_len(#[trigger] cell_at(rows[k], i)) <= usize::MAX
}

/// The line of one row: the cells' characters padded to the widths.
fn build_line(cells: &Vec<Vec<char>>, widths: &Vec<usize>) -> (r: Vec<char>)
    ensures
        r@ == pipe_line(
            Seq::new(
                widths@.len(),
                |i: int| pad_cell(cell_at(cells@.map_values(|c: Vec<char>| c@), i), widths@[i] as nat),
            ),
        ),
{
    let ghost cv = cells@.map_values(|c: Vec<char>| c@);
    let ghost parts = Seq::new(widths@.len(), |i: int| pad_cell(cell_at(cv, i), widths@[i] as nat));
    let mut out: Vec<char> = Vec::new();
    out.push('|');
    let mut i: usize = 0;
    assert(parts.take(0) =~= Seq::<Seq<char>>::empty());
    while i < widths.len()
        invariant
            i <= widths@.len() == parts.len(),
            cv == cells@.map_values(|c: Vec<char>| c@),
            parts == Seq::new(widths@.len(), |i: int| pad_cell(cell_at(cv, i), widths@[i] as nat)),
            out@ == seq!['|'] + join_with(parts.take(i as int), seq!['|']),
        decreases widths@.len() - i,
    {
        proof {
            lemma_join_with_push(parts.take(i as int), seq!['|'], parts[i as int]);
            assert(parts.take(i + 1) =~= parts.take(i as int).push(parts[i as int]));
        }
        let ghost before = out@;
        if i > 0 {
            out.push('|');
        }
        out.push(' ');
        let w = widths[i];
        let mut n: usize = 0;
        if i < cells.len() {
            append_chars(&mut out, cells[i].as_slice());
            n = cells[i].len();
        }
        assert(n == cell_at(cv, i as int).len());
        let ghost mid = out@;
        let pad: usize = if w > n {
            w - n
        } else {
            0
        };
        let mut p: usize = 0;
        while p < pad
            invariant
                p <= pad,
                out@ == mid + spaces(p as nat),
            decreases pad - p,
        {
            out.push(' ');
            p = p + 1;
            assert(out@ =~= mid + spaces(p as nat));
        }
        out.push(' ');
        assert(out@ =~= before + (if i > 0 {
            seq!['|']
        } else {
            Seq::empty()
        }) + parts[i as int]);
        i = i + 1;
    }
    assert(parts.take(widths@.len() as int) =~= parts);
    out.push('|');
    out
}

/// Generates a Markdown pipe table from header texts and rows of cell texts.
/// Missing cells are empty; an empty table is the empty text.
pub fn make_table(headers: Option<&[&str]>, rows: &[Vec<String>]) -> (r: String)
    requires
        lengths_fit(header_views(headers), row_views(rows@)),
    ensures
        r@ == table_spec(header_views(headers), row_views(rows@)),
{
    let ghost hv = header_views(headers);
    let ghost rv = row_views(rows@);
    // -- Number of columns
    let mut n: usize = 0;
    match headers {
        Some(h) => {
            n = h.len();
        },
        None => {},
    }
    let mut k: usize = 0;
    assert(rv.take(0) =~= Seq::<Seq<Seq<char>>>::empty());
    while k < rows.len()
        invariant
            k <= rows@.len() == rv.len(),
            rv == row_views(rows@),
            hv == header_views(headers),
            n == match hv {
                Some(h) => max_nat(h.len(), max_row_len(rv.take(k as int))),
                None => max_row_len(rv.take(k as int)),
            },
        decreases rows@.len() - k,
    {
        assert(rv.take(k + 1).drop_last() =~= rv.take(k as int));
        if rows[k].len() > n {
            n = rows[k].len();
        }
        k = k + 1;
    }
    assert(rv.take(rows@.len() as int) =~= rv);
    proof {
        lemma_max_row_len_bounds(rv);
        assert(n == column_count(hv, rv));
    }
    if n == 0 {
        return String::new();
    }
    // -- Column widths
    let mut widths: Vec<usize> = Vec::new();
    let mut i: usize = 0;
    while i < n
        invariant
            i <= n,
            hv == header_views(headers),
            lengths_fit(hv, rv),
            widths@.len() == i,
            forall|j: int| 0 <= j < i ==> #[trigger] widths@[j] == header_width(hv, j),
        decreases n - i,
    {
        let mut w: usize = MIN_COL_WIDTH;
        match headers {
            Some(h) => {
                if i < h.len() {
                    let b = h[i].len();
                    assert(hv.unwrap()[i as int] == h@[i as int]@);
                    assert(cell_at(hv.unwrap(), i as int) == h@[i as int]@);
                    if b > w {
                        w = b;
                    }
                }
            },
            None => {},
        }
        widths.push(w);
        i = i + 1;
    }
    let mut k: usize = 0;
    while k < rows.len()
        invariant
            k <= rows@.len() == rv.len(),
            rv == row_views(rows@),
            lengths_fit(hv, rv),
            widths@.len() == n,
            forall|x: int| 0 <= x < rv.len() ==> #[trigger] rv[x].len() <= n,
            forall|j: int| 0 <= j < n ==> #[trigger] widths@[j] == max_nat(
                header_width(hv, j),
                max_cell_bytes(rv.take(k as int), j),
            ),
        decreases rows@.len() - k,
    {
        let row = &rows[k];
        assert(rv[k as int].len() == row@.len());
        let ghost pre = rv.take(k as int);
        let ghost next = rv.take(k + 1);
        assert(next.drop_last() =~= pre);
        assert(next.last() == rv[k as int]);
        let mut j: usize = 0;
        while j < row.len()
            invariant
                j <= row@.len(),
                k < rows@.len() == rv.len(),
                *row == rows@[k as int],
                rv == row_views(rows@),
                lengths_fit(hv, rv),
                widths@.len() == n,
                n >= row@.len(),
                pre == rv.take(k as int),
                next == rv.take(k + 1),
                next.drop_last() == pre,
                next.last() == rv[k as int],
                forall|x: int| 0 <= x < n ==> #[trigger] widths@[x] == max_nat(
                    header_width(hv, x),
                    if x < j {
                        max_cell_bytes(next, x)
                    } else {
                        max_cell_bytes(pre, x)
                    },
                ),
            decreases row@.len() - j,
        {
            assert(rv[k as int][j as int] == row@[j as int]@);
            assert(cell_at(rv[k as int], j as int) == row@[j as int]@);
            let b = row[j].as_str().len();
            if b > widths[j] {
                widths.set(j, b);
            }
            j = j + 1;
        }
        assert forall|x: int| 0 <= x < n implies #[trigger] widths@[x] == max_nat(
            header_width(hv, x),
            max_cell_bytes(next, x),
        ) by {
            if x >= row@.len() {
                assert(cell_at(rv[k as int], x) =~= Seq::<char>::empty());
            }
        }
        k = k + 1;
    }
    assert(rv.take(rows@.len() as int) =~= rv);
    let ghost ws = column_widths(hv, rv);
    assert(widths@.map_values(|w: usize| w as nat) =~= ws);
    // -- Lines
    let mut lines: Vec<Vec<char>> = Vec::new();
    match headers {
        Some(h) => {
            let mut cells: Vec<Vec<char>> = Vec::new();
            let mut dash_cells: Vec<Vec<char>> = Vec::new();
            let mut c: usize = 0;
            while c < n
                invariant
                    c <= n == widths@.len(),
                    cells@.len() == if c < h@.len() { c as int } else { h@.len() as int },
                    forall|x: int| 0 <= x < cells@.len() ==> #[trigger] cells@[x]@ == h@[x]@,
                    dash_cells@.len() == c,
                    forall|x: int| 0 <= x < c ==> #[trigger] dash_cells@[x]@ == dashes(widths@[x] as nat),
                decreases n - c,
            {
                if c < h.len() {
                    cells.push(chars_of(h[c]));
                }
                let mut d: Vec<char> = Vec::new();
                let mut p: usize = 0;
                while p < widths[c]
                    invariant
                        c < widths@.len(),
                        p <= widths@[c as int],
                        d@ == dashes(p as nat),
                    decreases widths@[c as int] - p,
                {
                    d.push('-');
                    p = p + 1;
                    assert(d@ =~= dashes(p as nat));
                }
                dash_cells.push(d);
                c = c + 1;
            }
            let head = build_line(&cells, &widths);
            assert(cells@.map_values(|c: Vec<char>| c@) =~= hv.unwrap().take(cells@.len() as int));
            assert(head@ == row_line(hv.unwrap(), ws)) by {
                let cv = cells@.map_values(|c: Vec<char>| c@);
                assert(Seq::new(
                    widths@.len(),
                    |i: int| pad_cell(cell_at(cv, i), widths@[i] as nat),
                ) =~= Seq::new(ws.len(), |i: int| pad_cell(cell_at(hv.unwrap(), i), ws[i])));
            }
            lines.push(head);
            let delim = build_line(&dash_cells, &widths);
            assert(delim@ == delimiter_line(ws)) by {
                let dv = dash_cells@.map_values(|c: Vec<char>| c@);
                assert forall|i: int| 0 <= i < ws.len() implies pad_cell(cell_at(dv, i), widths@[i] as nat)
                    =~= seq![' '] + dashes(ws[i]) + seq![' '] by {
                    assert(spaces(0) =~= Seq::<char>::empty());
                }
                assert(Seq::new(
                    widths@.len(),
                    |i: int| pad_cell(cell_at(dv, i), widths@[i] as nat),
                ) =~= Seq::new(ws.len(), |i: int| seq![' '] + dashes(ws[i]) + seq![' ']));
            }
            lines.push(delim);
        },
        None => {},
    }
    let ghost head_count = lines@.len();
    let ghost all = table_lines(hv, rv);
    assert(head_count == if hv is Some { 2int } else { 0int });
    let mut k: usize = 0;
    while k < rows.len()
        invariant
            k <= rows@.len() == rv.len(),
            rv == row_views(rows@),
            hv == header_views(headers),
            all == table_lines(hv, rv),
            ws == column_widths(hv, rv),
            widths@.map_values(|w: usize| w as nat) == ws,
            widths@.len() == ws.len(),
            head_count == if hv is Some { 2int } else { 0int },
            all.len() == head_count + rv.len(),
            lines@.len() == head_count + k,
            forall|x: int| 0 <= x < lines@.len() ==> #[trigger] lines@[x]@ == all[x],
        decreases rows@.len() - k,
    {
        let row = &rows[k];
        let mut cells: Vec<Vec<char>> = Vec::new();
        let mut c: usize = 0;
        while c < row.len()
            invariant
                c <= row@.len(),
                cells@.len() == c,
                forall|x: int| 0 <= x < c ==> #[trigger] cells@[x]@ == row@[x]@,
            decreases row@.len() - c,
        {
            cells.push(chars_of(row[c].as_str()));
            c = c + 1;
        }
        let line = build_line(&cells, &widths);
        assert(line@ == all[head_count + k]) by {
            let cv = cells@.map_values(|c: Vec<char>| c@);
            assert(cv =~= rv[k as int]);
            assert(Seq::new(
                widths@.len(),
                |i: int| pad_cell(cell_at(cv, i), widths@[i] as nat),
            ) =~= Seq::new(ws.len(), |i: int| pad_cell(cell_at(rv[k as int], i), ws[i])));
        }
        lines.push(line);
        k = k + 1;
    }
    let nl: Vec<char> = vec!['\n'];
    let joined = join_chars(&lines, nl.as_slice());
    assert(nl@ =~= seq!['\n']);
    assert(lines@.map_values(|l: Vec<char>| l@) =~= all);
    string_from_chars(joined.as_slice())
}


/// A character encodes to at least one byte.
proof fn lemma_byte_len_at_least(s: Seq<char>)
    ensures
        byte_len(s) >= s.len(),
    decreases s.len(),
{
    if s.len() > 0 {
        lemma_byte_len_at_least(s.drop_first());
        assert(encode_utf8(s) == encode_scalar(s[0] as u32) + encode_utf8(s.drop_first()));
    }
}

/// No cell of column `i` is wider than `max_cell_bytes`.
proof fn lemma_max_cell_bytes_bounds(rows: Seq<Seq<Seq<char>>>, i: int)
    ensures
        forall|k: int| 0 <= k < rows.len() ==> byte_len(#[trigger] cell_at(rows[k], i)) <= max_cell_bytes(rows, i),
    decreases rows.len(),
{
    if rows.len() > 0 {
        lemma_max_cell_bytes_bounds(rows.drop_last(), i);
        assert forall|k: int| 0 <= k < rows.len() implies byte_len(#[trigger] cell_at(rows[k], i)) <= max_cell_bytes(
            rows,
            i,
        ) by {
            if k < rows.len() - 1 {
                assert(rows[k] == rows.drop_last()[k]);
            }
        }
    }
}

/// The total length of some texts.
pub open spec fn total_len(parts: Seq<Seq<char>>) -> int
    decreases parts.len(),
{
    if parts.len() == 0 {
        0
    } else {
        total_len(parts.drop_last()) + parts.last().len()
    }
}

/// The length of texts joined with a one-character separator.
proof fn lemma_join_len(parts: Seq<Seq<char>>, sep: Seq<char>)
    requires
        parts.len() >= 1,
        sep.len() == 1,
    ensures
        join_with(parts, sep).len() == total_len(parts) + parts.len() - 1,
    decreases parts.len(),
{
    if parts.len() > 1 {
        lemma_join_len(parts.drop_last(), sep);
    } else {
        assert(total_len(parts.drop_last()) == 0);
        assert(parts.last() == parts[0]);
    }
}

/// The width a table line takes for these column widths: a bar, then per
/// column a padded cell (width plus two spaces) and a bar.
pub open spec fn line_width(widths: Seq<nat>) -> int
    decreases widths.len(),
{
    if widths.len() == 0 {
        1
    } else {
        line_width(widths.drop_last()) + widths.last() + 3
    }
}

/// Cells `widths[i] + 2` long make a line of `line_width`.
proof fn lemma_pipe_line_len(cells: Seq<Seq<char>>, widths: Seq<nat>)
    requires
        cells.len() == widths.len() >= 1,
        forall|i: int| 0 <= i < cells.len() ==> #[trigger] cells[i].len() == widths[i] + 2,
    ensures
        pipe_line(cells).len() == line_width(widths),
        pipe_line(cells)[0] == '|',
        pipe_line(cells).last() == '|',
{
    lemma_join_len(cells, seq!['|']);
    lemma_total_len_cells(cells, widths);
}

/// `total_len` of cells `widths[i] + 2` long.
proof fn lemma_total_len_cells(cells: Seq<Seq<char>>, widths: Seq<nat>)
    requires
        cells.len() == widths.len(),
        forall|i: int| 0 <= i < cells.len() ==> #[trigger] cells[i].len() == widths[i] + 2,
    ensures
        total_len(cells) + cells.len() + 1 == line_width(widths),
    decreases cells.len(),
{
    if cells.len() > 0 {
        let c = cells.drop_last();
        let w = widths.drop_last();
        assert forall|i: int| 0 <= i < c.len() implies #[trigger] c[i].len() == w[i] + 2 by {
            assert(c[i] == cells[i]);
        }
        lemma_total_len_cells(c, w);
        assert(cells[cells.len() - 1].len() == widths[widths.len() - 1] + 2);
    }
}

/// The last character of texts joined with a separator is that of the last
/// text, when it is not empty.
proof fn lemma_join_last(parts: Seq<Seq<char>>, sep: Seq<char>)
    requires
        parts.len() >= 1,
        parts.last().len() >= 1,
    ensures
        join_with(parts, sep).len() >= 1,
        join_with(parts, sep).last() == parts.last().last(),
{
}

/// The number of `|` in a text.
pub open spec fn bars(s: Seq<char>) -> nat
    decreases s.len(),
{
    if s.len() == 0 {
        0
    } else {
        bars(s.drop_last()) + if s.last() == '|' {
            1nat
        } else {
            0nat
        }
    }
}

/// A lone bar counts one.
proof fn lemma_bars_one()
    ensures
        bars(seq!['|']) == 1,
{
    let b = seq!['|'];
    assert(b.drop_last() =~= Seq::<char>::empty());
    assert(bars(b.drop_last()) == 0);
    assert(b.last() == '|');
}

/// Bars of a concatenation add up.
proof fn lemma_bars_concat(a: Seq<char>, b: Seq<char>)
    ensures
        bars(a + b) == bars(a) + bars(b),
    decreases b.len(),
{
    if b.len() > 0 {
        lemma_bars_concat(a, b.drop_last());
        assert((a + b).drop_last() =~= a + b.drop_last());
    } else {
        assert(a + b =~= a);
    }
}

/// A text without `|` has no bar.
proof fn lemma_bars_none(s: Seq<char>)
    requires
        forall|i: int| 0 <= i < s.len() ==> #[trigger] s[i] != '|',
    ensures
        bars(s) == 0,
    decreases s.len(),
{
    if s.len() > 0 {
        lemma_bars_none(s.drop_last());
    }
}

/// Texts without bars joined with `|` have one bar fewer than texts.
proof fn lemma_bars_join(parts: Seq<Seq<char>>)
    requires
        parts.len() >= 1,
        forall|i: int| 0 <= i < parts.len() ==> bars(#[trigger] parts[i]) == 0,
    ensures
        bars(join_with(parts, seq!['|'])) == parts.len() - 1,
    decreases parts.len(),
{
    if parts.len() > 1 {
        let p = parts.drop_last();
        assert forall|i: int| 0 <= i < p.len() implies bars(#[trigger] p[i]) == 0 by {
            assert(p[i] == parts[i]);
        }
        lemma_bars_join(p);
        lemma_bars_concat(join_with(p, seq!['|']), seq!['|']);
        lemma_bars_concat(join_with(p, seq!['|']) + seq!['|'], parts.last());
        lemma_bars_one();
        assert(bars(parts.last()) == 0) by {
            assert(parts.last() == parts[parts.len() - 1]);
        }
    } else {
        assert(bars(parts[0]) == 0);
    }
}

/// A line of cells without bars has one bar more than cells.
proof fn lemma_bars_pipe_line(cells: Seq<Seq<char>>)
    requires
        cells.len() >= 1,
        forall|i: int| 0 <= i < cells.len() ==> bars(#[trigger] cells[i]) == 0,
    ensures
        bars(pipe_line(cells)) == cells.len() + 1,
{
    lemma_bars_join(cells);
    let j = join_with(cells, seq!['|']);
    lemma_bars_concat(seq!['|'], j);
    lemma_bars_concat(seq!['|'] + j, seq!['|']);
    lemma_bars_one();
}

/// A padded cell has as many bars as its text.
proof fn lemma_bars_pad_cell(content: Seq<char>, w: nat)
    ensures
        bars(pad_cell(content, w)) == bars(content),
{
    let n = if w > content.len() { (w - content.len()) as nat } else { 0 };
    lemma_bars_none(seq![' ']);
    lemma_bars_none(spaces(n));
    lemma_bars_concat(seq![' '], content);
    lemma_bars_concat(seq![' '] + content, spaces(n));
    lemma_bars_concat(seq![' '] + content + spaces(n), seq![' ']);
}

/// Law: when no header or cell holds `|`, each line of a table with `c`
/// columns holds exactly `c + 1` bars.
pub proof fn law_table_bars(headers: Option<Seq<Seq<char>>>, rows: Seq<Seq<Seq<char>>>)
    requires
        headers matches Some(h) ==> forall|i: int| 0 <= i < h.len() ==> bars(#[trigger] h[i]) == 0,
        forall|k: int, i: int| 0 <= k < rows.len() && 0 <= i < rows[k].len() ==> bars(#[trigger] rows[k][i]) == 0,
        column_count(headers, rows) > 0,
    ensures
        forall|j: int|
            0 <= j < table_lines(headers, rows).len() ==> bars(#[trigger] table_lines(headers, rows)[j])
                == column_count(headers, rows) + 1,
{
    let w = column_widths(headers, rows);
    let ls = table_lines(headers, rows);
    assert forall|r: Seq<Seq<char>>|
        (forall|i: int| 0 <= i < r.len() ==> bars(#[trigger] r[i]) == 0) implies #[trigger] bars(row_line(r, w))
        == w.len() + 1 by {
        let cells = Seq::new(w.len(), |i: int| pad_cell(cell_at(r, i), w[i]));
        assert forall|i: int| 0 <= i < cells.len() implies bars(#[trigger] cells[i]) == 0 by {
            lemma_bars_pad_cell(cell_at(r, i), w[i]);
            if !(0 <= i < r.len()) {
                assert(cell_at(r, i).len() == 0);
            }
        }
        lemma_bars_pipe_line(cells);
    }
    assert forall|j: int| 0 <= j < ls.len() implies bars(#[trigger] ls[j]) == column_count(headers, rows) + 1 by {
        match headers {
            Some(h) => {
                if j == 0 {
                    assert(ls[0] == row_line(h, w));
                } else if j == 1 {
                    let dc = Seq::new(w.len(), |i: int| seq![' '] + dashes(w[i]) + seq![' ']);
                    assert forall|i: int| 0 <= i < dc.len() implies bars(#[trigger] dc[i]) == 0 by {
                        lemma_bars_none(dc[i]);
                    }
                    lemma_bars_pipe_line(dc);
                } else {
                    assert(ls[j] == row_line(rows[j - 2], w));
                }
            },
            None => {
                assert(ls[j] == row_line(rows[j], w));
            },
        }
    }
}

/// Law: a table with no column is the empty text. Otherwise it has one line
/// per row, after a header line and a delimiter line when there are
/// headers; its lines are joined with newlines, with none after the last;
/// every line starts and ends with `|` and all lines have the same length.
pub proof fn law_table_shape(headers: Option<Seq<Seq<char>>>, rows: Seq<Seq<Seq<char>>>)
    ensures
        column_count(headers, rows) == 0 ==> table_spec(headers, rows) == Seq::<char>::empty(),
        table_lines(headers, rows).len() == rows.len() + if headers is Some {
            2int
        } else {
            0int
        },
        column_count(headers, rows) > 0 ==> {
            let ls = table_lines(headers, rows);
            let w = column_widths(headers, rows);
            &&& table_spec(headers, rows) == join_with(ls, seq!['\n'])
            &&& ls.len() >= 1
            &&& table_spec(headers, rows).last() == '|'
            &&& forall|j: int|
                0 <= j < ls.len() ==> {
                    &&& (#[trigger] ls[j]).len() == line_width(w)
                    &&& ls[j][0] == '|'
                    &&& ls[j].last() == '|'
                }
        },
{
    let c = column_count(headers, rows);
    let w = column_widths(headers, rows);
    let ls = table_lines(headers, rows);
    if c > 0 {
        // Every cell fits its column.
        assert forall|i: int, k: int| 0 <= i < c && 0 <= k < rows.len() implies cell_at(
            #[trigger] rows[k],
            i,
        ).len() <= #[trigger] w[i] by {
            lemma_max_cell_bytes_bounds(rows, i);
            lemma_byte_len_at_least(cell_at(rows[k], i));
        }
        assert forall|k: int| 0 <= k < rows.len() implies {
            &&& (#[trigger] row_line(rows[k], w)).len() == line_width(w)
            &&& row_line(rows[k], w)[0] == '|'
            &&& row_line(rows[k], w).last() == '|'
        } by {
            let cells = Seq::new(w.len(), |i: int| pad_cell(cell_at(rows[k], i), w[i]));
            assert forall|i: int| 0 <= i < cells.len() implies #[trigger] cells[i].len() == w[i] + 2 by {
                assert(cell_at(rows[k], i).len() <= w[i]);
            }
            lemma_pipe_line_len(cells, w);
        }
        match headers {
            Some(h) => {
                let hc = Seq::new(w.len(), |i: int| pad_cell(cell_at(h, i), w[i]));
                assert forall|i: int| 0 <= i < hc.len() implies #[trigger] hc[i].len() == w[i] + 2 by {
                    lemma_byte_len_at_least(cell_at(h, i));
                    lemma_max_cell_bytes_bounds(rows, i);
                }
                lemma_pipe_line_len(hc, w);
                let dc = Seq::new(w.len(), |i: int| seq![' '] + dashes(w[i]) + seq![' ']);
                assert forall|i: int| 0 <= i < dc.len() implies #[trigger] dc[i].len() == w[i] + 2 by {}
                lemma_pipe_line_len(dc, w);
            },
            None => {
                lemma_max_row_len_bounds(rows);
                if rows.len() == 0 {
                    assert(max_row_len(rows) == 0);
                }
            },
        }
        assert forall|j: int| 0 <= j < ls.len() implies {
            &&& (#[trigger] ls[j]).len() == line_width(w)
            &&& ls[j][0] == '|'
            &&& ls[j].last() == '|'
        } by {
            if headers is Some {
                if j >= 2 {
                    assert(ls[j] == row_line(rows[j - 2], w));
                }
            } else {
                assert(ls[j] == row_line(rows[j], w));
            }
        }
        assert(ls.len() >= 1);
        lemma_join_last(ls, seq!['\n']);
    }
}


/// `s` does not hold the character `c`.
pub open spec fn free_of(s: Seq<char>, c: char) -> bool {
    forall|j: int| 0 <= j < s.len() ==> #[trigger] s[j] != c
}

/// Texts free of `c` joined with a separator free of `c` are free of it.
proof fn lemma_join_free(parts: Seq<Seq<char>>, sep: Seq<char>, c: char)
    requires
        free_of(sep, c),
        forall|i: int| 0 <= i < parts.len() ==> free_of(#[trigger] parts[i], c),
    ensures
        free_of(join_with(parts, sep), c),
    decreases parts.len(),
{
    if parts.len() > 1 {
        let p = parts.drop_last();
        assert forall|i: int| 0 <= i < p.len() implies free_of(#[trigger] p[i], c) by {
            assert(p[i] == parts[i]);
        }
        lemma_join_free(p, sep, c);
        assert(free_of(parts.last(), c));
        let j = join_with(p, sep);
        assert forall|k: int| 0 <= k < (j + sep + parts.last()).len() implies #[trigger] (j + sep + parts.last())[k]
            != c by {
            if k < j.len() {
                assert((j + sep + parts.last())[k] == j[k]);
            } else if k < j.len() + sep.len() {
                assert((j + sep + parts.last())[k] == sep[k - j.len()]);
            } else {
                assert((j + sep + parts.last())[k] == parts.last()[k - j.len() - sep.len()]);
            }
        }
    } else if parts.len() == 1 {
        assert(free_of(parts[0], c));
    }
}

/// A line of cells free of a character other than `|` is free of it.
proof fn lemma_pipe_line_free(cells: Seq<Seq<char>>, c: char)
    requires
        c != '|',
        forall|i: int| 0 <= i < cells.len() ==> free_of(#[trigger] cells[i], c),
    ensures
        free_of(pipe_line(cells), c),
{
    lemma_join_free(cells, seq!['|'], c);
    let j = join_with(cells, seq!['|']);
    let l = seq!['|'] + j + seq!['|'];
    assert forall|k: int| 0 <= k < l.len() implies #[trigger] l[k] != c by {
        if 1 <= k < 1 + j.len() {
            assert(l[k] == j[k - 1]);
        }
    }
}

/// Law: when no header or cell holds a newline, no line of the table does,
/// so splitting a table with columns at its newlines gives its lines back.
pub proof fn law_table_lines_split(headers: Option<Seq<Seq<char>>>, rows: Seq<Seq<Seq<char>>>)
    requires
        headers matches Some(h) ==> forall|i: int| 0 <= i < h.len() ==> free_of(#[trigger] h[i], '\n'),
        forall|k: int, i: int| 0 <= k < rows.len() && 0 <= i < rows[k].len() ==> free_of(#[trigger] rows[k][i], '\n'),
        column_count(headers, rows) > 0,
    ensures
        forall|j: int| 0 <= j < table_lines(headers, rows).len() ==> free_of(#[trigger] table_lines(headers, rows)[j], '\n'),
        split_on(table_spec(headers, rows), seq!['\n']) == table_lines(headers, rows),
{
    let w = column_widths(headers, rows);
    let ls = table_lines(headers, rows);
    assert forall|r: Seq<Seq<char>>|
        (forall|i: int| 0 <= i < r.len() ==> free_of(#[trigger] r[i], '\n')) implies #[trigger] free_of(
        row_line(r, w),
        '\n',
    ) by {
        let cells = Seq::new(w.len(), |i: int| pad_cell(cell_at(r, i), w[i]));
        assert forall|i: int| 0 <= i < cells.len() implies free_of(#[trigger] cells[i], '\n') by {
            let x = cell_at(r, i);
            if 0 <= i < r.len() {
                assert(free_of(r[i], '\n'));
            }
            assert(free_of(x, '\n'));
            let n = if w[i] > x.len() { (w[i] - x.len()) as nat } else { 0 };
            let t = seq![' '] + x + spaces(n) + seq![' '];
            assert forall|k: int| 0 <= k < t.len() implies #[trigger] t[k] != '\n' by {
                if 1 <= k < 1 + x.len() {
                    assert(t[k] == x[k - 1]);
                } else if 1 + x.len() <= k < 1 + x.len() + n {
                    assert(t[k] == spaces(n)[k - 1 - x.len()]);
                }
            }
        }
        lemma_pipe_line_free(cells, '\n');
    }
    assert forall|j: int| 0 <= j < ls.len() implies free_of(#[trigger] ls[j], '\n') by {
        match headers {
            Some(h) => {
                if j == 0 {
                    assert(ls[0] == row_line(h, w));
                } else if j == 1 {
                    let dc = Seq::new(w.len(), |i: int| seq![' '] + dashes(w[i]) + seq![' ']);
                    assert forall|i: int| 0 <= i < dc.len() implies free_of(#[trigger] dc[i], '\n') by {
                        let t = dc[i];
                        assert forall|k: int| 0 <= k < t.len() implies #[trigger] t[k] != '\n' by {
                            if 1 <= k < 1 + w[i] {
                                assert(t[k] == dashes(w[i])[k - 1]);
                            }
                        }
                    }
                    lemma_pipe_line_free(dc, '\n');
                } else {
                    assert(ls[j] == row_line(rows[j - 2], w));
                    assert forall|i: int| 0 <= i < rows[j - 2].len() implies free_of(#[trigger] rows[j - 2][i], '\n') by {}
                }
            },
            None => {
                assert(ls[j] == row_line(rows[j], w));
                assert forall|i: int| 0 <= i < rows[j].len() implies free_of(#[trigger] rows[j][i], '\n') by {}
            },
        }
    }
    law_table_shape(headers, rows);
    assert forall|i: int, j: int| 0 <= i < ls.len() && 0 <= j < ls[i].len() implies #[trigger] ls[i][j] != '\n' by {
        assert(free_of(ls[i], '\n'));
    }
    law_split_join(ls, '\n');
}

} // verus!
