use vstd::prelude::*;

use crate::markdown::ast::Alignment;
use crate::render::ansi::{apply_style, styled};
use crate::theme::{plain_style, Style};
use crate::util::acc::WidthSum;
use crate::util::text::{
    chars_of, push_char, push_repeat, push_str, repeat_char, string_of, trim_end, trim_end_len,
};
use crate::util::width::{str_display_width, stripped, visible_width};

verus! {

/// A table whose cells are already plain text.
pub struct RenderedTable {
    pub headers: Vec<String>,
    pub rows: Vec<Vec<String>>,
    pub aligns: Vec<Alignment>,
}

/// Columns `s` takes on screen once its escape sequences are removed.
pub open spec fn vw(s: Seq<char>) -> int {
    str_display_width(stripped(s)) as int
}

/// `s` padded with spaces to `width` columns on the side `align` asks for; unchanged when
/// it is already that wide.
pub open spec fn padded(s: Seq<char>, width: int, align: Alignment) -> Seq<char> {
    let w = vw(s);
    if w >= width {
        s
    } else {
        let diff = width - w;
        match align {
            Alignment::Right => repeat_char(' ', diff as nat) + s,
            Alignment::Center => repeat_char(' ', (diff / 2) as nat) + s + repeat_char(
                ' ',
                (diff - diff / 2) as nat,
            ),
            _ => s + repeat_char(' ', diff as nat),
        }
    }
}

/// Pads `s` to `width` visible columns according to `align`.
pub fn pad_visible(s: &str, width: usize, align: Alignment) -> (r: String)
    ensures
        r@ == padded(s@, width as int, align),
{
    let w = visible_width(s);
    let mut out = String::new();
    if w >= width {
        push_str(&mut out, s);
        return out;
    }
    let diff = width - w;
    match align {
        Alignment::Right => {
            push_repeat(&mut out, ' ', diff);
            push_str(&mut out, s);
        },
        Alignment::Center => {
            let left = diff / 2;
            let right = diff - left;
            push_repeat(&mut out, ' ', left);
            push_str(&mut out, s);
            push_repeat(&mut out, ' ', right);
        },
        _ => {
            push_str(&mut out, s);
            push_repeat(&mut out, ' ', diff);
        },
    }
    out
}

/// The texts of a sequence of strings.
pub open spec fn strs(v: Seq<String>) -> Seq<Seq<char>> {
    v.map_values(|s: String| s@)
}

/// The texts of a sequence of rows.
pub open spec fn rows_strs(v: Seq<Vec<String>>) -> Seq<Seq<Seq<char>>> {
    v.map_values(|r: Vec<String>| strs(r@))
}

/// Width of column `i` once the first `n` rows are taken into account: at least 1 and at
/// least the width of the header and of every cell of the column.
pub open spec fn col_width_upto(hs: Seq<Seq<char>>, rows: Seq<Seq<Seq<char>>>, i: int, n: int) -> int
    decreases n,
{
    if n <= 0 {
        let h = vw(hs[i]);
        if h > 1 {
            h
        } else {
            1
        }
    } else {
        let prev = col_width_upto(hs, rows, i, n - 1);
        let row = rows[n - 1];
        if i < row.len() && vw(row[i]) > prev {
            vw(row[i])
        } else {
            prev
        }
    }
}

/// Sum of `ws`.
pub open spec fn sum(ws: Seq<usize>) -> int
    decreases ws.len(),
{
    if ws.len() == 0 {
        0
    } else {
        sum(ws.drop_last()) + ws.last()
    }
}

/// Columns the boxed table takes: the cells, three columns of border and padding per
/// column, and the closing border.
pub open spec fn total_width(ws: Seq<usize>) -> int {
    sum(ws) + 3 * ws.len() + 1
}

/// The horizontal border of a table with column widths `ws`.
pub open spec fn border(ws: Seq<usize>) -> Seq<char>
    decreases ws.len(),
{
    if ws.len() == 0 {
        seq!['+']
    } else {
        border(ws.drop_last()) + repeat_char('-', (ws.last() + 2) as nat) + seq!['+']
    }
}

/// Cell `i` of a row, or empty text where the row is short.
pub open spec fn cell_at(row: Seq<Seq<char>>, i: int) -> Seq<char> {
    if 0 <= i < row.len() {
        row[i]
    } else {
        seq![]
    }
}

/// Alignment of column `i`, left where none is given.
pub open spec fn align_at(aligns: Seq<Alignment>, i: int) -> Alignment {
    if 0 <= i < aligns.len() {
        aligns[i]
    } else {
        Alignment::Left
    }
}

/// One table row drawn with column widths `ws`: a styled `|`, then per column the padded
/// cell between spaces in `row_style` and another styled `|`.
pub open spec fn row_text(
    row: Seq<Seq<char>>,
    ws: Seq<usize>,
    aligns: Seq<Alignment>,
    ansi: bool,
    row_style: Style,
    border_style: Style,
) -> Seq<char>
    decreases ws.len(),
{
    if ws.len() == 0 {
        styled(seq!['|'], border_style, ansi)
    } else {
        let k = ws.len() - 1;
        row_text(row, ws.drop_last(), aligns, ansi, row_style, border_style) + styled(
            seq![' '] + padded(cell_at(row, k), ws.last() as int, align_at(aligns, k)) + seq![' '],
            row_style,
            ansi,
        ) + styled(seq!['|'], border_style, ansi)
    }
}

/// The body rows of a boxed table, each followed by a newline.
pub open spec fn body_rows(
    rows: Seq<Seq<Seq<char>>>,
    ws: Seq<usize>,
    aligns: Seq<Alignment>,
    ansi: bool,
    border_style: Style,
) -> Seq<char>
    decreases rows.len(),
{
    if rows.len() == 0 {
        seq![]
    } else {
        body_rows(rows.drop_last(), ws, aligns, ansi, border_style) + row_text(
            rows.last(),
            ws,
            aligns,
            ansi,
            plain_style(),
            border_style,
        ) + seq!['\n']
    }
}

/// A boxed table: border, header row, border, body rows, border.
pub open spec fn boxed(
    hs: Seq<Seq<char>>,
    rows: Seq<Seq<Seq<char>>>,
    aligns: Seq<Alignment>,
    ws: Seq<usize>,
    ansi: bool,
    header_style: Style,
    border_style: Style,
) -> Seq<char> {
    let b = styled(border(ws), border_style, ansi);
    b + seq!['\n'] + row_text(hs, ws, aligns, ansi, header_style, border_style) + seq!['\n']
        + b + seq!['\n'] + body_rows(rows, ws, aligns, ansi, border_style) + b
}

/// One row as `header: value` lines.
pub open spec fn fallback_row(headers: Seq<Seq<char>>, row: Seq<Seq<char>>) -> Seq<char>
    decreases headers.len(),
{
    if headers.len() == 0 {
        seq![]
    } else {
        fallback_row(headers.drop_last(), row) + headers.last() + seq![':', ' '] + cell_at(
            row,
            headers.len() - 1,
        ) + seq!['\n']
    }
}

/// All rows as `header: value` lines, a blank line after each row.
pub open spec fn fallback_rows(headers: Seq<Seq<char>>, rows: Seq<Seq<Seq<char>>>) -> Seq<char>
    decreases rows.len(),
{
    if rows.len() == 0 {
        seq![]
    } else {
        fallback_rows(headers, rows.drop_last()) + fallback_row(headers, rows.last()) + seq![
            '\n',
        ]
    }
}

/// The table as `header: value` lines for terminals too narrow for the boxed form; a table
/// without rows lists its headers with empty values. Trailing whitespace is trimmed.
pub open spec fn fallback(hs: Seq<Seq<char>>, rows: Seq<Seq<Seq<char>>>) -> Seq<char> {
    let body = fallback_rows(hs, rows);
    trim_end(
        if rows.len() == 0 {
            body + fallback_row(hs, seq![])
        } else {
            body
        },
    )
}

/// The column widths of a table.
pub open spec fn col_widths(hs: Seq<Seq<char>>, rows: Seq<Seq<Seq<char>>>) -> Seq<usize> {
    Seq::new(hs.len(), |i: int| col_width_upto(hs, rows, i, rows.len() as int) as usize)
}

proof fn lemma_col_width_upto(hs: Seq<Seq<char>>, rows: Seq<Seq<Seq<char>>>, i: int, n: int)
    requires
        0 <= i < hs.len(),
        n <= rows.len(),
        vw(hs[i]) <= usize::MAX,
        forall|k: int| 0 <= k < rows.len() && i < rows[k].len() ==> vw(#[trigger] rows[k][i]) <= usize::MAX,
    ensures
        col_width_upto(hs, rows, i, n) >= 1,
        col_width_upto(hs, rows, i, n) >= vw(hs[i]),
        col_width_upto(hs, rows, i, n) <= usize::MAX,
        forall|k: int|
            0 <= k < n && i < rows[k].len() ==> col_width_upto(hs, rows, i, n) >= vw(
                #[trigger] rows[k][i],
            ),
        col_width_upto(hs, rows, i, n) == 1 || col_width_upto(hs, rows, i, n) == vw(hs[i])
            || exists|k: int|
            0 <= k < n && i < rows[k].len() && col_width_upto(hs, rows, i, n) == vw(
                #[trigger] rows[k][i],
            ),
    decreases n,
{
    if n > 0 {
        lemma_col_width_upto(hs, rows, i, n - 1);
        let row = rows[n - 1];
        if i < row.len() {
            assert(row[i] == rows[n - 1][i]);
        }
    }
}

/// Every column is wide enough for its header and for every cell of the column, at least
/// one column wide, and no wider than needed: its width is 1, the header's width or some
/// cell's width (widths that fit in a `usize`, as every width measured here does).
pub proof fn lemma_columns_fit_cells(hs: Seq<Seq<char>>, rows: Seq<Seq<Seq<char>>>, i: int)
    requires
        0 <= i < hs.len(),
        vw(hs[i]) <= usize::MAX,
        forall|k: int| 0 <= k < rows.len() && i < rows[k].len() ==> vw(#[trigger] rows[k][i]) <= usize::MAX,
    ensures
        col_widths(hs, rows).len() == hs.len(),
        col_widths(hs, rows)[i] >= 1,
        col_widths(hs, rows)[i] >= vw(hs[i]),
        forall|k: int|
            0 <= k < rows.len() && i < rows[k].len() ==> col_widths(hs, rows)[i] >= vw(
                #[trigger] rows[k][i],
            ),
        col_widths(hs, rows)[i] == 1 || col_widths(hs, rows)[i] == vw(hs[i]) || exists|k: int|
            0 <= k < rows.len() && i < rows[k].len() && col_widths(hs, rows)[i] == vw(
                #[trigger] rows[k][i],
            ),
{
    lemma_col_width_upto(hs, rows, i, rows.len() as int);
}

/// A text that measures as long as it is (as printable ASCII does), and fits a `usize`.
pub open spec fn measured_by_length(t: Seq<char>) -> bool {
    vw(t) == t.len() && t.len() <= usize::MAX
}

proof fn lemma_padded_len(s: Seq<char>, width: int, align: Alignment)
    requires
        vw(s) == s.len(),
        s.len() <= width,
    ensures
        padded(s, width, align).len() == width,
{
}

proof fn lemma_border_len(ws: Seq<usize>)
    ensures
        border(ws).len() == total_width(ws),
    decreases ws.len(),
{
    if ws.len() > 0 {
        lemma_border_len(ws.drop_last());
    }
}

proof fn lemma_row_len(
    row: Seq<Seq<char>>,
    ws: Seq<usize>,
    aligns: Seq<Alignment>,
    row_style: Style,
    border_style: Style,
)
    requires
        forall|k: int|
            0 <= k < ws.len() ==> vw(#[trigger] cell_at(row, k)) == cell_at(row, k).len()
                && cell_at(row, k).len() <= ws[k],
    ensures
        row_text(row, ws, aligns, false, row_style, border_style).len() == total_width(ws),
    decreases ws.len(),
{
    if ws.len() > 0 {
        let k = ws.len() - 1;
        assert forall|j: int| 0 <= j < ws.drop_last().len() implies vw(#[trigger] cell_at(row, j))
            == cell_at(row, j).len() && cell_at(row, j).len() <= ws.drop_last()[j] by {
            assert(ws.drop_last()[j] == ws[j]);
        }
        lemma_row_len(row, ws.drop_last(), aligns, row_style, border_style);
        assert(vw(cell_at(row, k)) == cell_at(row, k).len());
        lemma_padded_len(cell_at(row, k), ws.last() as int, align_at(aligns, k));
    }
}

/// Without styling, the lines of a boxed table line up: the header row and every body row
/// are exactly as long as the border, for texts that measure as long as they are (such as
/// printable ASCII).
pub proof fn lemma_boxed_lines_align(
    hs: Seq<Seq<char>>,
    rows: Seq<Seq<Seq<char>>>,
    aligns: Seq<Alignment>,
    header_style: Style,
    border_style: Style,
)
    requires
        vw(Seq::<char>::empty()) == 0,
        forall|i: int| 0 <= i < hs.len() ==> measured_by_length(#[trigger] hs[i]),
        forall|k: int, i: int|
            0 <= k < rows.len() && 0 <= i < rows[k].len() ==> measured_by_length(
                #[trigger] rows[k][i],
            ),
    ensures
        row_text(hs, col_widths(hs, rows), aligns, false, header_style, border_style).len()
            == border(col_widths(hs, rows)).len(),
        forall|k: int|
            0 <= k < rows.len() ==> (#[trigger] row_text(
                rows[k],
                col_widths(hs, rows),
                aligns,
                false,
                plain_style(),
                border_style,
            )).len() == border(col_widths(hs, rows)).len(),
{
    let ws = col_widths(hs, rows);
    lemma_border_len(ws);
    assert forall|i: int| 0 <= i < hs.len() implies ws[i] >= vw(hs[i]) && forall|k: int|
        0 <= k < rows.len() && i < rows[k].len() ==> ws[i] >= vw(#[trigger] rows[k][i]) by {
        assert(measured_by_length(hs[i]));
        assert forall|k: int| 0 <= k < rows.len() && i < rows[k].len() implies vw(
            #[trigger] rows[k][i],
        ) <= usize::MAX by {
            assert(measured_by_length(rows[k][i]));
        }
        lemma_columns_fit_cells(hs, rows, i);
    }
    assert forall|j: int| 0 <= j < ws.len() implies vw(#[trigger] cell_at(hs, j)) == cell_at(
        hs,
        j,
    ).len() && cell_at(hs, j).len() <= ws[j] by {
        assert(measured_by_length(hs[j]));
    }
    lemma_row_len(hs, ws, aligns, header_style, border_style);
    assert forall|k: int| 0 <= k < rows.len() implies (#[trigger] row_text(
        rows[k],
        ws,
        aligns,
        false,
        plain_style(),
        border_style,
    )).len() == border(ws).len() by {
        assert forall|j: int| 0 <= j < ws.len() implies vw(#[trigger] cell_at(rows[k], j))
            == cell_at(rows[k], j).len() && cell_at(rows[k], j).len() <= ws[j] by {
            if j < rows[k].len() {
                assert(measured_by_length(rows[k][j]));
                assert(ws[j] >= vw(rows[k][j]));
            }
        }
        lemma_row_len(rows[k], ws, aligns, plain_style(), border_style);
    }
}

/// The table boxed when it fits in `width` columns, else in the `header: value` form.
pub open spec fn table_text(
    hs: Seq<Seq<char>>,
    rows: Seq<Seq<Seq<char>>>,
    aligns: Seq<Alignment>,
    width: usize,
    ansi: bool,
    header_style: Style,
    border_style: Style,
) -> Seq<char> {
    let ws = col_widths(hs, rows);
    if total_width(ws) > width {
        fallback(hs, rows)
    } else {
        boxed(hs, rows, aligns, ws, ansi, header_style, border_style)
    }
}

/// The table as the sequences its specification speaks of.
pub open spec fn table_view(t: RenderedTable, width: usize, ansi: bool, header_style: Style, border_style: Style) -> Seq<char> {
    table_text(strs(t.headers@), rows_strs(t.rows@), t.aligns@, width, ansi, header_style, border_style)
}

/// Renders a table as a box of `|`, `-` and `+` when it fits in `width` columns, else as
/// `header: value` lines.
pub fn render_table(
    table: &RenderedTable,
    width: usize,
    ansi: bool,
    header_style: Style,
    border_style: Style,
) -> (r: String)
    ensures
        r@ == table_view(*table, width, ansi, header_style, border_style),
{
    let col_widths = column_widths(table);
    if !table_fits(&col_widths, width) {
        return render_table_fallback(table);
    }
    let border = apply_style(render_border(&col_widths).as_str(), border_style, ansi);
    let mut out = String::new();
    push_str(&mut out, border.as_str());
    push_char(&mut out, '\n');
    let hr = render_row(&table.headers, &col_widths, &table.aligns, ansi, header_style, border_style);
    push_str(&mut out, hr.as_str());
    push_char(&mut out, '\n');
    push_str(&mut out, border.as_str());
    push_char(&mut out, '\n');
    let ghost head = out@;
    let ghost rv = rows_strs(table.rows@);
    let plain = Style::default();
    for k in 0..table.rows.len()
        invariant
            rv == rows_strs(table.rows@),
            out@ == head + body_rows(rv.take(k as int), col_widths@, table.aligns@, ansi, border_style),
            plain == plain_style(),
    {
        assert(rv.take(k + 1).drop_last() == rv.take(k as int));
        let row = render_row(&table.rows[k], &col_widths, &table.aligns, ansi, plain, border_style);
        push_str(&mut out, row.as_str());
        push_char(&mut out, '\n');
        assert(out@ =~= head + body_rows(rv.take(k + 1), col_widths@, table.aligns@, ansi, border_style));
    }
    assert(rv.take(rv.len() as int) == rv);
    push_str(&mut out, border.as_str());
    assert(out@ =~= boxed(strs(table.headers@), rv, table.aligns@, col_widths@, ansi, header_style, border_style));
    out
}

/// The column widths of `t` (see `col_width`).
fn column_widths(t: &RenderedTable) -> (r: Vec<usize>)
    ensures
        r@ == col_widths(strs(t.headers@), rows_strs(t.rows@)),
{
    let ghost hs = strs(t.headers@);
    let ghost rs = rows_strs(t.rows@);
    let cols = t.headers.len();
    let mut ws: Vec<usize> = Vec::new();
    for i in 0..cols
        invariant
            cols == t.headers@.len(),
            ws@.len() == i,
            forall|j: int| 0 <= j < i ==> ws@[j] == col_width_upto(hs, rs, j, 0),
            hs == strs(t.headers@),
    {
        let h = visible_width(t.headers[i].as_str());
        ws.push(if h > 1 {
            h
        } else {
            1
        });
    }
    for n in 0..t.rows.len()
        invariant
            cols == t.headers@.len(),
            ws@.len() == cols,
            forall|j: int| 0 <= j < cols ==> ws@[j] == col_width_upto(hs, rs, j, n as int),
            hs == strs(t.headers@),
            rs == rows_strs(t.rows@),
    {
        let row = &t.rows[n];
        let ghost before = ws@;
        for i in 0..cols
            invariant
                cols == t.headers@.len(),
                ws@.len() == cols,
                row@ == t.rows@[n as int]@,
                n < t.rows@.len(),
                before.len() == cols,
                forall|j: int| 0 <= j < i ==> ws@[j] == col_width_upto(hs, rs, j, n + 1),
                forall|j: int| i <= j < cols ==> ws@[j] == before[j],
                forall|j: int| 0 <= j < cols ==> before[j] == col_width_upto(hs, rs, j, n as int),
                hs == strs(t.headers@),
                rs == rows_strs(t.rows@),
        {
            assert(rs[n as int] == strs(row@));
            assert(col_width_upto(hs, rs, i as int, n + 1) == {
                let prev = col_width_upto(hs, rs, i as int, n as int);
                if i < row@.len() && vw(row@[i as int]@) > prev {
                    vw(row@[i as int]@)
                } else {
                    prev
                }
            });
            assert(ws@[i as int] == before[i as int]);
            assert(before[i as int] == col_width_upto(hs, rs, i as int, n as int));
            if i < row.len() {
                let c = visible_width(row[i].as_str());
                assert(c == vw(row@[i as int]@));
                if c > ws[i] {
                    ws.set(i, c);
                }
            }
            assert(ws@[i as int] == col_width_upto(hs, rs, i as int, n + 1));
        }
    }
    assert(ws@ =~= col_widths(hs, rs));
    ws
}

/// Whether a boxed table with column widths `ws` fits in `width` columns.
fn table_fits(ws: &Vec<usize>, width: usize) -> (r: bool)
    ensures
        r == (total_width(ws@) <= width),
        r ==> forall|j: int| 0 <= j < ws@.len() ==> ws@[j] + 4 <= width,
{
    let mut acc = WidthSum::zero();
    let ghost mut v: int = 0;
    for i in 0..ws.len()
        invariant
            v == sum(ws@.take(i as int)),
            v >= 0,
            acc.holds(v, width),
            forall|j: int| 0 <= j < i ==> ws@[j] <= v,
    {
        assert(ws@.take(i + 1).drop_last() == ws@.take(i as int));
        acc = acc.add(ws[i], width, Ghost(v));
        proof {
            v = v + ws@[i as int];
        }
    }
    assert(ws@.take(ws@.len() as int) == ws@);
    for i in 0..ws.len()
        invariant
            v == sum(ws@) + 3 * i,
            v >= 0,
            acc.holds(v, width),
            forall|j: int| 0 <= j < ws@.len() ==> ws@[j] + 3 * i <= v,
    {
        acc = acc.add(3, width, Ghost(v));
        proof {
            v = v + 3;
        }
    }
    acc = acc.add(1, width, Ghost(v));
    !acc.over
}

/// The horizontal border for column widths `ws`, each at most `width`.
fn render_border(ws: &Vec<usize>) -> (r: String)
    requires
        forall|j: int| 0 <= j < ws@.len() ==> ws@[j] < usize::MAX - 2,
    ensures
        r@ == border(ws@),
{
    let mut out = String::new();
    push_char(&mut out, '+');
    for i in 0..ws.len()
        invariant
            out@ == border(ws@.take(i as int)),
            forall|j: int| 0 <= j < ws@.len() ==> ws@[j] < usize::MAX - 2,
    {
        assert(ws@.take(i + 1).drop_last() == ws@.take(i as int));
        push_repeat(&mut out, '-', ws[i] + 2);
        push_char(&mut out, '+');
    }
    assert(ws@.take(ws@.len() as int) == ws@);
    out
}

/// One table row (see `row_text`).
fn render_row(
    row: &Vec<String>,
    widths: &Vec<usize>,
    aligns: &Vec<Alignment>,
    ansi: bool,
    row_style: Style,
    border_style: Style,
) -> (r: String)
    ensures
        r@ == row_text(strs(row@), widths@, aligns@, ansi, row_style, border_style),
{
    let ghost rv = strs(row@);
    let mut bar = String::new();
    push_char(&mut bar, '|');
    let bar_styled = apply_style(bar.as_str(), border_style, ansi);
    let mut out = String::new();
    push_str(&mut out, bar_styled.as_str());
    for idx in 0..widths.len()
        invariant
            out@ == row_text(rv, widths@.take(idx as int), aligns@, ansi, row_style, border_style),
            rv == strs(row@),
            bar_styled@ == styled(seq!['|'], border_style, ansi),
    {
        assert(widths@.take(idx + 1).drop_last() == widths@.take(idx as int));
        let empty = String::new();
        let cell: &String = if idx < row.len() {
            &row[idx]
        } else {
            &empty
        };
        let align = if idx < aligns.len() {
            aligns[idx]
        } else {
            Alignment::Left
        };
        let padded = pad_visible(cell.as_str(), widths[idx], align);
        let mut inner = String::new();
        push_char(&mut inner, ' ');
        push_str(&mut inner, padded.as_str());
        push_char(&mut inner, ' ');
        let styled_cell = apply_style(inner.as_str(), row_style, ansi);
        push_str(&mut out, styled_cell.as_str());
        push_str(&mut out, bar_styled.as_str());
        assert(out@ =~= row_text(
            rv,
            widths@.take(idx + 1),
            aligns@,
            ansi,
            row_style,
            border_style,
        ));
    }
    assert(widths@.take(widths@.len() as int) == widths@);
    out
}

fn push_fallback_row(out: &mut String, headers: &Vec<String>, row: &Vec<String>)
    ensures
        final(out)@ == old(out)@ + fallback_row(strs(headers@), strs(row@)),
{
    let ghost start = out@;
    let ghost hv = strs(headers@);
    let ghost rv = strs(row@);
    for i in 0..headers.len()
        invariant
            out@ == start + fallback_row(hv.take(i as int), rv),
            hv == strs(headers@),
            rv == strs(row@),
    {
        assert(hv.take(i + 1).drop_last() == hv.take(i as int));
        push_str(out, headers[i].as_str());
        push_char(out, ':');
        push_char(out, ' ');
        if i < row.len() {
            push_str(out, row[i].as_str());
        }
        push_char(out, '\n');
        assert(out@ =~= start + fallback_row(hv.take(i + 1), rv));
    }
    assert(hv.take(hv.len() as int) == hv);
}

/// The `header: value` form of a table (see `fallback`).
fn render_table_fallback(table: &RenderedTable) -> (r: String)
    ensures
        r@ == fallback(strs(table.headers@), rows_strs(table.rows@)),
{
    let mut out = String::new();
    let ghost hv = strs(table.headers@);
    let ghost rv = rows_strs(table.rows@);
    for k in 0..table.rows.len()
        invariant
            out@ == fallback_rows(hv, rv.take(k as int)),
            hv == strs(table.headers@),
            rv == rows_strs(table.rows@),
    {
        assert(rv.take(k + 1).drop_last() == rv.take(k as int));
        push_fallback_row(&mut out, &table.headers, &table.rows[k]);
        push_char(&mut out, '\n');
        assert(out@ =~= fallback_rows(hv, rv.take(k + 1)));
    }
    assert(rv.take(rv.len() as int) == rv);
    if table.rows.len() == 0 {
        let none: Vec<String> = Vec::new();
        push_fallback_row(&mut out, &table.headers, &none);
        assert(strs(none@) =~= Seq::<Seq<char>>::empty());
    }
    let cs = chars_of(out.as_str());
    let n = trim_end_len(&cs, cs.len());
    assert(cs@.take(cs@.len() as int) == cs@);
    assert(cs@.subrange(0, n as int) == cs@.take(n as int));
    string_of(&cs[0..n])
}

} // verus!
