use vstd::prelude::*;

use crate::text::{expand_tabs, push_char, push_expanded, push_repeated, repeat_char};

verus! {

pub const DIGITS: &'static str = "0123456789";

/// Decimal notation of `n`.
pub open spec fn decimal(n: nat) -> Seq<char>
    decreases n,
{
    if n < 10 {
        seq![DIGITS@[n as int]]
    } else {
        decimal(n / 10).push(DIGITS@[(n % 10) as int])
    }
}

/// `+` and a run of dashes for each column.
pub open spec fn border_segments(widths: Seq<usize>) -> Seq<char>
    decreases widths.len(),
{
    if widths.len() == 0 {
        Seq::empty()
    } else {
        border_segments(widths.drop_last()) + seq!['+'] + repeat_char('-', (widths.last() + 2) as nat)
    }
}

/// A border line: `+`, then `-` repeated width + 2 times, per column, closed by `+`.
pub open spec fn border_line(widths: Seq<usize>) -> Seq<char> {
    border_segments(widths) + seq!['+']
}

/// What a cell shows before padding.
pub open spec fn cell_content(field: Seq<char>, col: int, header_indexes: bool) -> Seq<char> {
    if header_indexes {
        decimal((col + 1) as nat) + ". "@ + expand_tabs(field)
    } else {
        expand_tabs(field)
    }
}

/// One cell: `| `, the content padded with spaces to the width, and a space;
/// a column that the row lacks is all blank.
pub open spec fn cell_text(row: Seq<Seq<char>>, width: usize, col: int, header_indexes: bool) -> Seq<char> {
    if col < row.len() {
        let c = cell_content(row[col], col, header_indexes);
        let pad: nat = if width > c.len() {
            (width - c.len()) as nat
        } else {
            0
        };
        "| "@ + c + repeat_char(' ', pad) + " "@
    } else {
        "| "@ + repeat_char(' ', width as nat) + " "@
    }
}

pub open spec fn data_cells(row: Seq<Seq<char>>, widths: Seq<usize>, header_indexes: bool) -> Seq<char>
    decreases widths.len(),
{
    if widths.len() == 0 {
        Seq::empty()
    } else {
        data_cells(row, widths.drop_last(), header_indexes) + cell_text(
            row,
            widths.last(),
            widths.len() - 1,
            header_indexes,
        )
    }
}

/// A data line: one cell per column, closed by `|`.
pub open spec fn data_line(row: Seq<Seq<char>>, widths: Seq<usize>, header_indexes: bool) -> Seq<char> {
    data_cells(row, widths, header_indexes) + seq!['|']
}

/// Length of a border line over `widths`, in characters.
pub open spec fn line_length(widths: Seq<usize>) -> int
    decreases widths.len(),
{
    if widths.len() == 0 {
        1
    } else {
        line_length(widths.drop_last()) + widths.last() + 3
    }
}

pub proof fn lemma_repeat_char_len(c: char, n: nat)
    ensures
        repeat_char(c, n).len() == n,
    decreases n,
{
    if n > 0 {
        lemma_repeat_char_len(c, (n - 1) as nat);
    }
}

pub proof fn lemma_border_line_len(widths: Seq<usize>)
    ensures
        border_line(widths).len() == line_length(widths),
    decreases widths.len(),
{
    if widths.len() > 0 {
        lemma_border_line_len(widths.drop_last());
        lemma_repeat_char_len('-', (widths.last() + 2) as nat);
    }
}

/// Appends the decimal notation of `n`.
fn push_decimal(out: &mut String, n: usize)
    ensures
        final(out)@ == old(out)@ + decimal(n as nat),
    decreases n,
{
    proof {
        reveal_strlit("0123456789");
    }
    if n < 10 {
        push_char(out, DIGITS.get_char(n));
        assert(decimal(n as nat) =~= seq![DIGITS@[n as int]]);
    } else {
        push_decimal(out, n / 10);
        push_char(out, DIGITS.get_char(n % 10));
    }
}

/// The border line over `widths`.
pub fn format_border_row(widths: &Vec<usize>) -> (r: String)
    requires
        forall|i: int| 0 <= i < widths.len() ==> widths[i] + 2 <= usize::MAX,
    ensures
        r@ == border_line(widths@),
{
    let mut out = String::new();
    let mut i: usize = 0;
    assert(widths@.take(0) =~= Seq::<usize>::empty());
    while i < widths.len()
        invariant
            i <= widths.len(),
            forall|j: int| 0 <= j < widths.len() ==> widths[j] + 2 <= usize::MAX,
            out@ == border_segments(widths@.take(i as int)),
        decreases widths.len() - i,
    {
        assert(widths@.take(i + 1).drop_last() =~= widths@.take(i as int));
        push_char(&mut out, '+');
        push_repeated(&mut out, '-', widths[i] + 2);
        i = i + 1;
    }
    assert(widths@.take(i as int) =~= widths@);
    push_char(&mut out, '+');
    out
}

/// One data line: each cell padded to its column's width, tabs shown as
/// four spaces; with `header_indexes`, each cell starts with its 1-based
/// column number and `. `.
pub fn format_table_row(row: &Vec<String>, widths: &Vec<usize>, header_indexes: bool) -> (r: String)
    ensures
        r@ == data_line(row.deep_view(), widths@, header_indexes),
{
    let ghost rv = row.deep_view();
    let mut out = String::new();
    let mut i: usize = 0;
    assert(widths@.take(0) =~= Seq::<usize>::empty());
    while i < widths.len()
        invariant
            i <= widths.len(),
            rv == row.deep_view(),
            out@ == data_cells(rv, widths@.take(i as int), header_indexes),
        decreases widths.len() - i,
    {
        assert(widths@.take(i + 1).drop_last() =~= widths@.take(i as int));
        let ghost before = out@;
        let w = widths[i];
        out.append("| ");
        if i < row.len() {
            assert(rv[i as int] == row[i as int]@);
            let mut cell = String::new();
            if header_indexes {
                push_decimal(&mut cell, i + 1);
                cell.append(". ");
            }
            push_expanded(&mut cell, row[i].as_str());
            assert(cell@ =~= cell_content(rv[i as int], i as int, header_indexes));
            let len = cell.as_str().unicode_len();
            out.append(cell.as_str());
            let pad: usize = if w > len {
                w - len
            } else {
                0
            };
            push_repeated(&mut out, ' ', pad);
        } else {
            push_repeated(&mut out, ' ', w);
        }
        out.append(" ");
        i = i + 1;
        assert(out@ =~= before + cell_text(rv, w, (i - 1) as int, header_indexes));
    }
    assert(widths@.take(i as int) =~= widths@);
    push_char(&mut out, '|');
    out
}

/// Length of every line of a table over `widths`: the borders between and
/// around the columns, and each column's width plus its two spaces.
pub fn get_table_row_total_length(col_widths: &Vec<usize>) -> (r: usize)
    requires
        line_length(col_widths@) <= usize::MAX,
    ensures
        r == line_length(col_widths@),
        r == border_line(col_widths@).len(),
{
    proof {
        lemma_border_line_len(col_widths@);
    }
    let mut total: usize = 1;
    let mut i: usize = 0;
    assert(col_widths@.take(0) =~= Seq::<usize>::empty());
    while i < col_widths.len()
        invariant
            i <= col_widths.len(),
            line_length(col_widths@) <= usize::MAX,
            total == line_length(col_widths@.take(i as int)),
        decreases col_widths.len() - i,
    {
        assert(col_widths@.take(i + 1).drop_last() =~= col_widths@.take(i as int));
        proof {
            lemma_line_length_prefix(col_widths@, i + 1);
        }
        total = total + col_widths[i] + 3;
        i = i + 1;
    }
    assert(col_widths@.take(i as int) =~= col_widths@);
    total
}

proof fn lemma_line_length_prefix(widths: Seq<usize>, k: int)
    requires
        0 <= k <= widths.len(),
    ensures
        line_length(widths.take(k)) <= line_length(widths),
    decreases widths.len() - k,
{
    if k < widths.len() {
        lemma_line_length_prefix(widths, k + 1);
        assert(widths.take(k + 1).drop_last() =~= widths.take(k));
    } else {
        assert(widths.take(k) =~= widths);
    }
}


/// Every column of `widths` leaves room for its border dashes.
pub open spec fn widths_fit(widths: Seq<usize>) -> bool {
    forall|i: int| 0 <= i < widths.len() ==> widths[i] + 2 <= usize::MAX
}

/// The lines that open a table: the top border, the first row, and the
/// separator below it where the first row is a header.
pub open spec fn first_row_lines(
    widths: Seq<usize>,
    row: Seq<Seq<char>>,
    has_header: bool,
    header_indexes: bool,
) -> Seq<Seq<char>> {
    if has_header {
        seq![border_line(widths), data_line(row, widths, header_indexes), border_line(widths)]
    } else {
        seq![border_line(widths), data_line(row, widths, header_indexes)]
    }
}

/// Turns rows into table lines one row at a time, so that a streamed input
/// never needs to be held whole.
pub struct TableRenderer {
    pub col_widths: Vec<usize>,
    pub has_header: bool,
    pub include_header_indexes: bool,
    /// Some row has been rendered.
    pub started: bool,
    /// Some row that is not a header has been rendered.
    pub has_data: bool,
}

impl TableRenderer {
    pub fn new(col_widths: Vec<usize>, has_header: bool, include_header_indexes: bool) -> (r: TableRenderer)
        ensures
            r.col_widths@ == col_widths@,
            r.has_header == has_header,
            r.include_header_indexes == include_header_indexes,
            !r.started,
            !r.has_data,
    {
        TableRenderer { col_widths, has_header, include_header_indexes, started: false, has_data: false }
    }

    /// The lines for the next row. The first row opens the table; where it
    /// is a header a separator follows it and it counts as no data.
    pub fn render_row(&mut self, row: &Vec<String>) -> (r: Vec<String>)
        requires
            widths_fit(old(self).col_widths@),
        ensures
            final(self).col_widths@ == old(self).col_widths@,
            final(self).has_header == old(self).has_header,
            final(self).include_header_indexes == old(self).include_header_indexes,
            final(self).started,
            !old(self).started ==> r.deep_view() == first_row_lines(
                old(self).col_widths@,
                row.deep_view(),
                old(self).has_header,
                old(self).include_header_indexes,
            ) && final(self).has_data == !old(self).has_header,
            old(self).started ==> r.deep_view() == seq![
                data_line(row.deep_view(), old(self).col_widths@, false),
            ] && final(self).has_data,
    {
        let mut lines: Vec<String> = Vec::new();
        if !self.started {
            lines.push(format_border_row(&self.col_widths));
            lines.push(format_table_row(row, &self.col_widths, self.include_header_indexes));
            if self.has_header {
                lines.push(format_border_row(&self.col_widths));
            }
            self.has_data = !self.has_header;
            self.started = true;
        } else {
            lines.push(format_table_row(row, &self.col_widths, false));
            self.has_data = true;
        }
        assert(lines.deep_view() =~= if !old(self).started {
            first_row_lines(
                old(self).col_widths@,
                row.deep_view(),
                old(self).has_header,
                old(self).include_header_indexes,
            )
        } else {
            seq![data_line(row.deep_view(), old(self).col_widths@, false)]
        });
        lines
    }

    /// The closing lines: a bottom border where some data row was rendered,
    /// else nothing.
    pub fn finish(&self) -> (r: Vec<String>)
        requires
            widths_fit(self.col_widths@),
        ensures
            r.deep_view() == if self.has_data {
                seq![border_line(self.col_widths@)]
            } else {
                Seq::empty()
            },
    {
        let mut lines: Vec<String> = Vec::new();
        if self.has_data {
            lines.push(format_border_row(&self.col_widths));
        }
        assert(lines.deep_view() =~= if self.has_data {
            seq![border_line(self.col_widths@)]
        } else {
            Seq::empty()
        });
        lines
    }
}

/// The lines for the first `n` rows of a table, before the closing border.
pub open spec fn table_body(
    rows: Seq<Seq<Seq<char>>>,
    widths: Seq<usize>,
    has_header: bool,
    header_indexes: bool,
    n: int,
) -> Seq<Seq<char>> {
    if n <= 0 {
        Seq::empty()
    } else {
        first_row_lines(widths, rows[0], has_header, header_indexes) + Seq::new(
            (n - 1) as nat,
            |j: int| data_line(rows[j + 1], widths, false),
        )
    }
}

/// A whole table: the opening lines of the first row, a line per further
/// row, and a bottom border where some row was data. No rows, no lines.
pub open spec fn table_lines(
    rows: Seq<Seq<Seq<char>>>,
    widths: Seq<usize>,
    has_header: bool,
    header_indexes: bool,
) -> Seq<Seq<char>> {
    table_body(rows, widths, has_header, header_indexes, rows.len() as int) + if rows.len() > 0 && (
    !has_header || rows.len() > 1) {
        seq![border_line(widths)]
    } else {
        Seq::empty()
    }
}

/// Renders all of `rows` as a table over `widths`.
pub fn render_table(rows: &Vec<Vec<String>>, widths: &Vec<usize>, has_header: bool, header_indexes: bool) -> (r:
    Vec<String>)
    requires
        widths_fit(widths@),
    ensures
        r.deep_view() == table_lines(rows.deep_view(), widths@, has_header, header_indexes),
{
    let ghost rv = rows.deep_view();
    let mut renderer = TableRenderer::new(widths.clone(), has_header, header_indexes);
    let mut lines: Vec<String> = Vec::new();
    let mut i: usize = 0;
    assert(lines.deep_view() =~= table_body(rv, widths@, has_header, header_indexes, 0));
    while i < rows.len()
        invariant
            i <= rows.len(),
            rv == rows.deep_view(),
            widths_fit(widths@),
            renderer.col_widths@ == widths@,
            renderer.has_header == has_header,
            renderer.include_header_indexes == header_indexes,
            renderer.started == (i > 0),
            renderer.has_data == (i > 0 && (!has_header || i > 1)),
            lines.deep_view() == table_body(rv, widths@, has_header, header_indexes, i as int),
        decreases rows.len() - i,
    {
        assert(rv[i as int] == rows[i as int].deep_view());
        let ghost before = lines.deep_view();
        let mut new_lines = renderer.render_row(&rows[i]);
        let ghost added = new_lines.deep_view();
        lines.append(&mut new_lines);
        assert(lines.deep_view() =~= before + added);
        i = i + 1;
        assert(lines.deep_view() =~= table_body(rv, widths@, has_header, header_indexes, i as int));
    }
    let ghost before = lines.deep_view();
    let mut closing = renderer.finish();
    let ghost added = closing.deep_view();
    lines.append(&mut closing);
    assert(lines.deep_view() =~= before + added);
    assert(lines.deep_view() =~= table_lines(rv, widths@, has_header, header_indexes));
    lines
}

/// An input without rows renders as no lines at all, not even borders.
pub proof fn lemma_empty_table(widths: Seq<usize>, has_header: bool, header_indexes: bool)
    ensures
        table_lines(Seq::empty(), widths, has_header, header_indexes).len() == 0,
{
}

/// A single row shown as a header renders as exactly three lines: the top
/// border, the row, and one border below it.
pub proof fn lemma_single_header_row(row: Seq<Seq<char>>, widths: Seq<usize>, header_indexes: bool)
    ensures
        table_lines(seq![row], widths, true, header_indexes) == seq![
            border_line(widths),
            data_line(row, widths, header_indexes),
            border_line(widths),
        ],
{
    assert(table_lines(seq![row], widths, true, header_indexes) =~= seq![
        border_line(widths),
        data_line(row, widths, header_indexes),
        border_line(widths),
    ]);
}

} // verus!
