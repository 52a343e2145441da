//! GFM tables drawn as a box-drawn grid of plain-text cells.
//!
//! Cell content is flattened to plain text; each column is as wide as its
//! widest cell, clamped to [`MAX_COL_WIDTH`] columns and at least one, and a
//! wider cell is truncated with `…`. Header rows are bold and followed by a
//! separator when more rows come.

use super::inline::{flat_text, flatten_inline};
use super::{colored, line_v, lines_v, span, style_bold, style_plain, Color, LineV, Node, SpanStyle, SpanV, StyledSpan};
use crate::text::{push_str, string_of};
use crate::view::{pad, padded, spaces, str_width, text_width, truncate, truncated, Align};
use vstd::prelude::*;

verus! {

/// Column content is clamped to this many display columns.
pub const MAX_COL_WIDTH: usize = 30;

/// A table row as plain text: whether it is a header row, and its cells.
pub type RowV = (bool, Seq<Seq<char>>);

/// The larger of two naturals.
pub open spec fn nat_max(a: nat, b: nat) -> nat {
    if a >= b {
        a
    } else {
        b
    }
}

/// The text of a cell: its inline content flattened; empty for anything
/// that is not a cell.
pub open spec fn cell_text(c: Node) -> Seq<char> {
    match c {
        Node::TableCell { children } => flat_text(children@),
        _ => seq![],
    }
}

/// The texts of a row's cells.
pub open spec fn cell_texts(cells: Seq<Node>) -> Seq<Seq<char>> {
    cells.map_values(|c: Node| cell_text(c))
}

/// The text rows of a table's rows: each row node with its cells flattened;
/// anything else is dropped.
pub open spec fn text_rows(rows: Seq<Node>) -> Seq<RowV>
    decreases rows.len(),
{
    if rows.len() == 0 {
        seq![]
    } else {
        let rest = text_rows(rows.subrange(1, rows.len() as int));
        match rows[0] {
            Node::TableRow { header, cells } => seq![(header, cell_texts(cells@))] + rest,
            _ => rest,
        }
    }
}

/// The largest number of cells in a row.
pub open spec fn max_cells(t: Seq<RowV>) -> nat
    decreases t.len(),
{
    if t.len() == 0 {
        0
    } else {
        nat_max(max_cells(t.drop_last()), t.last().1.len())
    }
}

/// The columns a cell occupies in column `c` of `row`, clamped; 0 where the
/// row has no such cell.
pub open spec fn cell_cols(row: RowV, c: int) -> nat {
    if 0 <= c < row.1.len() {
        if str_width(row.1[c]) <= MAX_COL_WIDTH {
            str_width(row.1[c])
        } else {
            MAX_COL_WIDTH as nat
        }
    } else {
        0
    }
}

/// The widest clamped cell of column `c`.
pub open spec fn widest(t: Seq<RowV>, c: int) -> nat
    decreases t.len(),
{
    if t.len() == 0 {
        0
    } else {
        nat_max(widest(t.drop_last(), c), cell_cols(t.last(), c))
    }
}

/// The width of each of `n` columns: the widest clamped cell, at least one.
pub open spec fn column_widths(t: Seq<RowV>, n: nat) -> Seq<nat> {
    Seq::new(n, |c: int| nat_max(widest(t, c), 1))
}

/// `n` copies of `c`.
pub open spec fn fill(c: char, n: nat) -> Seq<char> {
    Seq::new(n, |i: int| c)
}

/// The inside of a border: for each column a run of `─` two wider than the
/// column, runs separated by `mid`.
pub open spec fn border_body(ws: Seq<nat>, mid: char) -> Seq<char>
    decreases ws.len(),
{
    if ws.len() == 0 {
        seq![]
    } else {
        border_body(ws.drop_last(), mid) + (if ws.len() > 1 {
            seq![mid]
        } else {
            seq![]
        }) + fill('─', ws.last() + 2)
    }
}

/// A border line between `left` and `right` corners.
pub open spec fn border_line(ws: Seq<nat>, left: char, mid: char, right: char) -> LineV {
    seq![(seq![left] + border_body(ws, mid) + seq![right], colored(Color::DarkGray))]
}

/// The text of column `c` of `row`, empty where it has none.
pub open spec fn cell_at(row: RowV, c: int) -> Seq<char> {
    if 0 <= c < row.1.len() {
        row.1[c]
    } else {
        seq![]
    }
}

/// The alignment of column `c`, unset where none is given.
pub open spec fn align_at(aligns: Seq<Align>, c: int) -> Align {
    if 0 <= c < aligns.len() {
        aligns[c]
    } else {
        Align::Unset
    }
}

/// The span of column `c` of `row`: the cell truncated and padded to the
/// column's width, with a space on each side; bold in a header row.
pub open spec fn cell_span(row: RowV, aligns: Seq<Align>, ws: Seq<nat>, c: int) -> SpanV {
    (
        seq![' '] + padded(truncated(cell_at(row, c), ws[c]), ws[c], align_at(aligns, c))
            + seq![' '],
        if row.0 {
            style_bold(style_plain())
        } else {
            style_plain()
        },
    )
}

/// The vertical rule between cells.
pub open spec fn rule_span() -> SpanV {
    (seq!['│'], colored(Color::DarkGray))
}

/// The spans of the first `n` columns of `row`, each followed by a rule,
/// after a leading rule.
pub open spec fn row_spans(row: RowV, aligns: Seq<Align>, ws: Seq<nat>, n: nat) -> LineV
    decreases n,
{
    if n == 0 {
        seq![rule_span()]
    } else {
        row_spans(row, aligns, ws, (n - 1) as nat) + seq![
            cell_span(row, aligns, ws, n - 1),
            rule_span(),
        ]
    }
}

/// The lines of the first `n` rows: each row's line, and after a header
/// row that is not the last, a separator.
pub open spec fn body_lines(t: Seq<RowV>, aligns: Seq<Align>, ws: Seq<nat>, n: nat) -> Seq<LineV>
    decreases n,
{
    if n == 0 {
        seq![]
    } else {
        body_lines(t, aligns, ws, (n - 1) as nat) + seq![row_spans(t[n - 1], aligns, ws, ws.len())]
            + if t[n - 1].0 && t.len() > n {
            seq![border_line(ws, '├', '┼', '┤')]
        } else {
            seq![]
        }
    }
}

/// The lines of a table with column `aligns` and `rows`: nothing when it
/// has no rows, else the grid between a top and a bottom border.
pub open spec fn table_lines(aligns: Seq<Align>, rows: Seq<Node>) -> Seq<LineV> {
    let t = text_rows(rows);
    if t.len() == 0 {
        seq![]
    } else {
        let ws = column_widths(t, nat_max(aligns.len(), max_cells(t)));
        seq![border_line(ws, '┌', '┬', '┐')] + body_lines(t, aligns, ws, t.len()) + seq![
            border_line(ws, '└', '┴', '┘'),
        ]
    }
}

// ── Executable table rendering ─────────────────────────────────────────────

struct TextRow {
    header: bool,
    cells: Vec<String>,
}

spec fn strings_v(v: Seq<String>) -> Seq<Seq<char>> {
    v.map_values(|s: String| s@)
}

spec fn row_v(r: TextRow) -> RowV {
    (r.header, strings_v(r.cells@))
}

spec fn rows_v(v: Seq<TextRow>) -> Seq<RowV> {
    v.map_values(|r: TextRow| row_v(r))
}

spec fn widths_v(v: Seq<usize>) -> Seq<nat> {
    v.map_values(|w: usize| w as nat)
}

fn flatten_cells(cells: &Vec<Node>) -> (r: Vec<String>)
    ensures
        strings_v(r@) == cell_texts(cells@),
{
    let mut out: Vec<String> = Vec::new();
    let mut i: usize = 0;
    while i < cells.len()
        invariant
            i <= cells@.len(),
            strings_v(out@) == cell_texts(cells@.take(i as int)),
        decreases cells.len() - i,
    {
        let t = match &cells[i] {
            Node::TableCell { children } => flatten_inline(children),
            _ => String::new(),
        };
        let ghost before = out@;
        out.push(t);
        proof {
            assert(strings_v(out@) =~= strings_v(before).push(t@));
            assert(cell_texts(cells@.take(i + 1)) =~= cell_texts(cells@.take(i as int)).push(
                cell_text(cells@[i as int]),
            ));
        }
        i = i + 1;
    }
    assert(cells@.take(i as int) =~= cells@);
    out
}

fn collect_rows(rows: &Vec<Node>) -> (r: Vec<TextRow>)
    ensures
        rows_v(r@) == text_rows(rows@),
{
    let mut out: Vec<TextRow> = Vec::new();
    let mut i: usize = 0;
    assert(rows@.subrange(0, rows@.len() as int) =~= rows@);
    while i < rows.len()
        invariant
            i <= rows@.len(),
            rows_v(out@) + text_rows(rows@.subrange(i as int, rows@.len() as int)) == text_rows(
                rows@,
            ),
        decreases rows.len() - i,
    {
        let ghost rest = rows@.subrange(i as int, rows@.len() as int);
        let ghost before = out@;
        proof {
            assert(rest[0] == rows@[i as int]);
            assert(rest.subrange(1, rest.len() as int) =~= rows@.subrange(
                i + 1,
                rows@.len() as int,
            ));
        }
        match &rows[i] {
            Node::TableRow { header, cells } => {
                let texts = flatten_cells(cells);
                let row = TextRow { header: *header, cells: texts };
                out.push(row);
                proof {
                    assert(rows_v(out@) =~= rows_v(before).push(row_v(row)));
                    assert(rows_v(out@) + text_rows(rows@.subrange(i + 1, rows@.len() as int))
                        =~= rows_v(before) + text_rows(rest));
                }
            },
            _ => {},
        }
        i = i + 1;
    }
    assert(rows@.subrange(i as int, rows@.len() as int) =~= Seq::<Node>::empty());
    assert(rows_v(out@) =~= text_rows(rows@));
    out
}

fn column_count(aligns: usize, t: &Vec<TextRow>) -> (n: usize)
    ensures
        n == nat_max(aligns as nat, max_cells(rows_v(t@))),
{
    let mut m: usize = 0;
    let mut i: usize = 0;
    while i < t.len()
        invariant
            i <= t@.len(),
            m == max_cells(rows_v(t@).take(i as int)),
        decreases t.len() - i,
    {
        proof {
            assert(rows_v(t@).take(i + 1).drop_last() =~= rows_v(t@).take(i as int));
        }
        if t[i].cells.len() > m {
            m = t[i].cells.len();
        }
        i = i + 1;
    }
    assert(rows_v(t@).take(i as int) =~= rows_v(t@));
    if aligns >= m {
        aligns
    } else {
        m
    }
}

fn measure_widths(t: &Vec<TextRow>, cols: usize) -> (ws: Vec<usize>)
    requires
        max_cells(rows_v(t@)) <= cols,
    ensures
        widths_v(ws@) == column_widths(rows_v(t@), cols as nat),
        forall|c: int| 0 <= c < ws@.len() ==> 1 <= #[trigger] ws@[c] <= MAX_COL_WIDTH,
{
    let ghost tv = rows_v(t@);
    let mut ws: Vec<usize> = Vec::new();
    while ws.len() < cols
        invariant
            ws@.len() <= cols,
            forall|c: int| 0 <= c < ws@.len() ==> #[trigger] ws@[c] == 0,
        decreases cols - ws.len(),
    {
        ws.push(0);
    }
    let mut r: usize = 0;
    while r < t.len()
        invariant
            r <= t@.len(),
            tv == rows_v(t@),
            max_cells(tv) <= cols,
            ws@.len() == cols,
            forall|c: int| 0 <= c < cols ==> #[trigger] ws@[c] == widest(tv.take(r as int), c),
        decreases t.len() - r,
    {
        let row = &t[r];
        proof {
            lemma_max_cells_bound(tv, r as int);
            assert(tv[r as int] == row_v(*row));
        }
        let mut i: usize = 0;
        while i < row.cells.len()
            invariant
                r < t@.len(),
                tv == rows_v(t@),
                tv[r as int] == row_v(*row),
                i <= row.cells@.len(),
                row.cells@.len() <= cols,
                ws@.len() == cols,
                forall|c: int|
                    0 <= c < cols ==> #[trigger] ws@[c] == if c < i {
                        nat_max(widest(tv.take(r as int), c), cell_cols(tv[r as int], c))
                    } else {
                        widest(tv.take(r as int), c)
                    },
            decreases row.cells.len() - i,
        {
            let w = text_width(row.cells[i].as_str());
            let clamped = if w <= MAX_COL_WIDTH {
                w
            } else {
                MAX_COL_WIDTH
            };
            assert(clamped == cell_cols(tv[r as int], i as int));
            if clamped > ws[i] {
                ws.set(i, clamped);
            }
            i = i + 1;
        }
        proof {
            assert forall|c: int| 0 <= c < cols implies #[trigger] ws@[c] == widest(
                tv.take(r + 1),
                c,
            ) by {
                assert(tv.take(r + 1).drop_last() =~= tv.take(r as int));
                assert(tv.take(r + 1).last() == tv[r as int]);
            }
        }
        r = r + 1;
    }
    assert(tv.take(r as int) =~= tv);
    proof {
        lemma_widest_bound(tv);
    }
    let mut c: usize = 0;
    while c < cols
        invariant
            c <= cols,
            ws@.len() == cols,
            forall|k: int| 0 <= k < cols ==> widest(tv, k) <= MAX_COL_WIDTH,
            forall|k: int| 0 <= k < c ==> #[trigger] ws@[k] == nat_max(widest(tv, k), 1),
            forall|k: int| c <= k < cols ==> #[trigger] ws@[k] == widest(tv, k),
        decreases cols - c,
    {
        if ws[c] < 1 {
            ws.set(c, 1);
        }
        c = c + 1;
    }
    assert(widths_v(ws@) =~= column_widths(tv, cols as nat));
    ws
}

proof fn lemma_max_cells_bound(t: Seq<RowV>, r: int)
    requires
        0 <= r < t.len(),
    ensures
        t[r].1.len() <= max_cells(t),
    decreases t.len(),
{
    if r < t.len() - 1 {
        lemma_max_cells_bound(t.drop_last(), r);
    }
}

proof fn lemma_widest_bound(t: Seq<RowV>)
    ensures
        forall|c: int| widest(t, c) <= MAX_COL_WIDTH,
    decreases t.len(),
{
    if t.len() > 0 {
        lemma_widest_bound(t.drop_last());
        assert forall|c: int| widest(t, c) <= MAX_COL_WIDTH by {
            assert(widest(t.drop_last(), c) <= MAX_COL_WIDTH);
        }
    }
}

fn border(ws: &Vec<usize>, left: char, mid: char, right: char) -> (r: Vec<StyledSpan>)
    requires
        forall|c: int| 0 <= c < ws@.len() ==> #[trigger] ws@[c] <= MAX_COL_WIDTH,
    ensures
        line_v(r@) == border_line(widths_v(ws@), left, mid, right),
{
    let ghost wv = widths_v(ws@);
    let mut s: Vec<char> = Vec::new();
    s.push(left);
    let mut i: usize = 0;
    while i < ws.len()
        invariant
            i <= ws@.len(),
            wv == widths_v(ws@),
            forall|c: int| 0 <= c < ws@.len() ==> #[trigger] ws@[c] <= MAX_COL_WIDTH,
            s@ == seq![left] + border_body(wv.take(i as int), mid),
        decreases ws.len() - i,
    {
        let ghost before = s@;
        if i > 0 {
            s.push(mid);
        }
        let n = ws[i] + 2;
        let ghost with_mid = s@;
        let mut k: usize = 0;
        while k < n
            invariant
                k <= n,
                s@ == with_mid + fill('─', k as nat),
            decreases n - k,
        {
            s.push('─');
            k = k + 1;
            assert(s@ =~= with_mid + fill('─', k as nat));
        }
        proof {
            let tk = wv.take(i + 1);
            assert(tk.drop_last() =~= wv.take(i as int));
            assert(tk.last() == ws@[i as int] as nat);
            assert(s@ =~= seq![left] + border_body(tk, mid));
        }
        i = i + 1;
    }
    assert(wv.take(i as int) =~= wv);
    let ghost body = s@;
    s.push(right);
    assert(s@ =~= seq![left] + border_body(wv, mid) + seq![right]);
    let sp = span(string_of(s.as_slice()), SpanStyle::plain().fg(Color::DarkGray));
    assert(super::span_v(sp) == (seq![left] + border_body(wv, mid) + seq![right], colored(Color::DarkGray)));
    let mut line: Vec<StyledSpan> = Vec::new();
    line.push(sp);
    assert(line_v(line@) =~~= border_line(wv, left, mid, right));
    line
}

fn rule() -> (s: StyledSpan)
    ensures
        super::span_v(s) == rule_span(),
{
    let mut t: Vec<char> = Vec::new();
    t.push('│');
    span(string_of(t.as_slice()), SpanStyle::plain().fg(Color::DarkGray))
}

fn row_line(row: &TextRow, aligns: &Vec<Align>, ws: &Vec<usize>) -> (r: Vec<StyledSpan>)
    ensures
        line_v(r@) == row_spans(row_v(*row), aligns@, widths_v(ws@), ws@.len() as nat),
{
    let ghost rv = row_v(*row);
    let ghost wv = widths_v(ws@);
    let style = if row.header {
        SpanStyle::plain().bold()
    } else {
        SpanStyle::plain()
    };
    let mut spans: Vec<StyledSpan> = Vec::new();
    let first = rule();
    spans.push(first);
    assert(line_v(spans@) =~= row_spans(rv, aligns@, wv, 0));
    let mut col: usize = 0;
    while col < ws.len()
        invariant
            col <= ws@.len(),
            rv == row_v(*row),
            wv == widths_v(ws@),
            style == (if rv.0 {
                style_bold(style_plain())
            } else {
                style_plain()
            }),
            line_v(spans@) == row_spans(rv, aligns@, wv, col as nat),
        decreases ws.len() - col,
    {
        let w = ws[col];
        let cell = if col < row.cells.len() {
            truncate(row.cells[col].as_str(), w)
        } else {
            truncate("", w)
        };
        proof {
            assert(rv.1.len() == row.cells@.len());
            if col < row.cells@.len() {
                assert(rv.1[col as int] == row.cells@[col as int]@);
            } else {
                reveal_strlit("");
                assert(""@ =~= Seq::<char>::empty());
            }
            assert(cell@ == truncated(cell_at(rv, col as int), w as nat));
        }
        let align = if col < aligns.len() {
            aligns[col]
        } else {
            Align::Unset
        };
        let p = pad(cell.as_str(), w, align);
        let mut t: Vec<char> = Vec::new();
        t.push(' ');
        push_str(&mut t, p.as_str());
        t.push(' ');
        let sp = span(string_of(t.as_slice()), style);
        let ghost before = spans@;
        spans.push(sp);
        let bar = rule();
        spans.push(bar);
        proof {
            assert(wv[col as int] == w as nat);
            assert(align == align_at(aligns@, col as int));
            assert(t@ =~= seq![' '] + padded(truncated(cell_at(rv, col as int), wv[col as int]), wv[col as int], align_at(aligns@, col as int)) + seq![' ']);
            assert(super::span_v(sp) == cell_span(rv, aligns@, wv, col as int));
            assert(line_v(spans@) =~= line_v(before) + seq![
                cell_span(rv, aligns@, wv, col as int),
                rule_span(),
            ]);
        }
        col = col + 1;
    }
    spans
}

/// The lines of a table with column `alignments` and `rows`, drawn as a
/// box grid.
pub fn table(alignments: &Vec<Align>, rows: &Vec<Node>) -> (r: Vec<Vec<StyledSpan>>)
    ensures
        lines_v(r@) == table_lines(alignments@, rows@),
{
    let t = collect_rows(rows);
    let mut out: Vec<Vec<StyledSpan>> = Vec::new();
    if t.len() == 0 {
        assert(lines_v(out@) =~= Seq::<LineV>::empty());
        return out;
    }
    let ghost tv = rows_v(t@);
    let cols = column_count(alignments.len(), &t);
    let ws = measure_widths(&t, cols);
    let ghost wv = widths_v(ws@);
    let top = border(&ws, '┌', '┬', '┐');
    out.push(top);
    assert(lines_v(out@) =~= seq![border_line(wv, '┌', '┬', '┐')] + body_lines(tv, alignments@, wv, 0));
    let mut i: usize = 0;
    while i < t.len()
        invariant
            i <= t@.len(),
            tv == rows_v(t@),
            wv == widths_v(ws@),
            ws@.len() == cols,
            forall|c: int| 0 <= c < ws@.len() ==> 1 <= #[trigger] ws@[c] <= MAX_COL_WIDTH,
            lines_v(out@) == seq![border_line(wv, '┌', '┬', '┐')] + body_lines(
                tv,
                alignments@,
                wv,
                i as nat,
            ),
        decreases t.len() - i,
    {
        let ghost before = lines_v(out@);
        let line = row_line(&t[i], alignments, &ws);
        out.push(line);
        let sep = t[i].header && t.len() > i + 1;
        if sep {
            let b = border(&ws, '├', '┼', '┤');
            out.push(b);
        }
        proof {
            assert(tv[i as int] == row_v(t@[i as int]));
            assert(wv.len() == ws@.len());
            assert(lines_v(out@) =~= before + seq![row_spans(tv[i as int], alignments@, wv, wv.len())]
                + if tv[i as int].0 && tv.len() > i + 1 {
                seq![border_line(wv, '├', '┼', '┤')]
            } else {
                seq![]
            });
        }
        i = i + 1;
    }
    let bottom = border(&ws, '└', '┴', '┘');
    out.push(bottom);
    proof {
        assert(cols == nat_max(alignments@.len(), max_cells(tv)));
        assert(lines_v(out@) =~= table_lines(alignments@, rows@));
    }
    out
}


// ── Laws ────────────────────────────────────────────────────────────────────

proof fn lemma_row_spans_len(row: RowV, aligns: Seq<Align>, ws: Seq<nat>, n: nat)
    ensures
        row_spans(row, aligns, ws, n).len() == 2 * n + 1,
    decreases n,
{
    if n > 0 {
        lemma_row_spans_len(row, aligns, ws, (n - 1) as nat);
    }
}

proof fn lemma_row_spans_cell(row: RowV, aligns: Seq<Align>, ws: Seq<nat>, n: nat, c: int)
    requires
        0 <= c < n,
    ensures
        row_spans(row, aligns, ws, n)[2 * c + 1] == cell_span(row, aligns, ws, c),
    decreases n,
{
    lemma_row_spans_len(row, aligns, ws, (n - 1) as nat);
    if c < n - 1 {
        lemma_row_spans_cell(row, aligns, ws, (n - 1) as nat, c);
    }
}

proof fn lemma_body_has_row(t: Seq<RowV>, aligns: Seq<Align>, ws: Seq<nat>, n: nat, i: int)
    requires
        0 <= i < n <= t.len(),
    ensures
        exists|j: int|
            0 <= j < body_lines(t, aligns, ws, n).len() && #[trigger] body_lines(t, aligns, ws, n)[j]
                == row_spans(t[i], aligns, ws, ws.len()),
    decreases n,
{
    let prev = body_lines(t, aligns, ws, (n - 1) as nat);
    let cur = body_lines(t, aligns, ws, n);
    if i < n - 1 {
        lemma_body_has_row(t, aligns, ws, (n - 1) as nat, i);
        let j = choose|j: int|
            0 <= j < prev.len() && #[trigger] prev[j] == row_spans(t[i], aligns, ws, ws.len());
        assert(cur[j] == prev[j]);
    } else {
        assert(cur[prev.len() as int] == row_spans(t[i], aligns, ws, ws.len()));
    }
}

/// The text a cell shows in a column `w` wide aligned by `a`: what is left
/// of the width goes after the text for a left-aligned (or unaligned)
/// column, before it for a right-aligned one, and is split around it for a
/// centred one, the odd space after.
pub open spec fn shown_in_column(cell: Seq<char>, w: nat, a: Align) -> Seq<char> {
    let gap: nat = if w >= str_width(cell) {
        (w - str_width(cell)) as nat
    } else {
        0
    };
    if a == Align::Right {
        spaces(gap) + cell
    } else if a == Align::Center {
        spaces(gap / 2) + cell + spaces((gap - gap / 2) as nat)
    } else {
        cell + spaces(gap)
    }
}

/// Law: every row of a drawn table has a line of its own in the grid, in
/// which column `c` shows the row's cell (cut to the column's width) laid
/// out by the alignment given for column `c`, between a space on each side.
pub proof fn law_table_cells_aligned(aligns: Seq<Align>, rows: Seq<Node>, i: int, c: int)
    requires
        0 <= i < text_rows(rows).len(),
        0 <= c < aligns.len(),
    ensures
        exists|j: int|
            0 < j < table_lines(aligns, rows).len() - 1 && (#[trigger] table_lines(aligns, rows)[j])[2 * c + 1].0
                == seq![' '] + shown_in_column(
                truncated(
                    cell_at(text_rows(rows)[i], c),
                    column_widths(text_rows(rows), nat_max(aligns.len(), max_cells(text_rows(rows))))[c],
                ),
                column_widths(text_rows(rows), nat_max(aligns.len(), max_cells(text_rows(rows))))[c],
                aligns[c],
            ) + seq![' '],
{
    let t = text_rows(rows);
    let n = nat_max(aligns.len(), max_cells(t));
    let ws = column_widths(t, n);
    let tl = table_lines(aligns, rows);
    lemma_body_has_row(t, aligns, ws, t.len(), i);
    let body = body_lines(t, aligns, ws, t.len());
    let j = choose|j: int| 0 <= j < body.len() && #[trigger] body[j] == row_spans(t[i], aligns, ws, ws.len());
    assert(tl[j + 1] == body[j]);
    lemma_row_spans_cell(t[i], aligns, ws, ws.len(), c);
    let cell = truncated(cell_at(t[i], c), ws[c]);
    assert(align_at(aligns, c) == aligns[c]);
    assert(padded(cell, ws[c], aligns[c]) =~= shown_in_column(cell, ws[c], aligns[c]));
    assert(tl[j + 1][2 * c + 1].0 == seq![' '] + shown_in_column(cell, ws[c], aligns[c]) + seq![' ']);
}

} // verus!
