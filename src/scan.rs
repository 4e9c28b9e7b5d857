use vstd::prelude::*;

use crate::error::AppError;
use crate::fields_subset::{initial_state, observe, FieldsSubset, FileData, FileState, KindModel};
use crate::text::{display_width, field_display_width};

verus! {

/// Inputs larger than this many bytes are streamed twice instead of held in memory.
pub const BIG_FILE_LIMIT: u64 = 104857600;

/// Whether an input of `file_size` bytes is re-read instead of buffered.
pub fn is_big_file(file_size: u64) -> (r: bool)
    ensures
        r == (file_size > BIG_FILE_LIMIT),
{
    file_size > BIG_FILE_LIMIT
}

/// Number of decimal digits of `n`.
pub open spec fn digit_count(n: nat) -> nat
    decreases n,
{
    if n < 10 {
        1
    } else {
        1 + digit_count(n / 10)
    }
}

pub proof fn lemma_digit_count_bound(n: nat)
    requires
        n >= 1,
    ensures
        1 <= digit_count(n) <= n,
    decreases n,
{
    if n >= 10 {
        lemma_digit_count_bound(n / 10);
    }
}

/// Width that a field needs in column `col`; where the header carries
/// column numbers, room for the number and three more columns.
pub open spec fn cell_width(field: Seq<char>, col: int, annotate: bool) -> nat {
    display_width(field) + if annotate {
        digit_count((col + 1) as nat) + 3
    } else {
        0nat
    }
}

/// Column widths after one more row: as long as the longer of the two, each
/// the larger of the old width and the row's field there.
pub open spec fn accumulate(widths: Seq<usize>, row: Seq<Seq<char>>, annotate: bool) -> Seq<usize> {
    let n = if row.len() > widths.len() {
        row.len()
    } else {
        widths.len()
    };
    Seq::new(
        n,
        |i: int|
            {
                let w: int = if i < widths.len() {
                    widths[i] as int
                } else {
                    0
                };
                let c: int = if i < row.len() {
                    cell_width(row[i], i, annotate) as int
                } else {
                    0
                };
                (if c > w {
                    c
                } else {
                    w
                }) as usize
            },
    )
}

/// Every width of the row fits in a `usize`.
pub open spec fn row_fits(row: Seq<Seq<char>>) -> bool {
    forall|i: int| 0 <= i < row.len() ==> 4 * (#[trigger] row[i]).len() + row.len() + 3 <= usize::MAX
}

pub proof fn lemma_cell_width_fits(row: Seq<Seq<char>>, i: int, annotate: bool)
    requires
        row_fits(row),
        0 <= i < row.len(),
    ensures
        cell_width(row[i], i, annotate) <= usize::MAX,
{
    crate::text::lemma_tab_count_bound(row[i]);
    lemma_digit_count_bound((i + 1) as nat);
}

fn digit_count_of(n: usize) -> (r: usize)
    requires
        n >= 1,
    ensures
        r == digit_count(n as nat),
    decreases n,
{
    if n < 10 {
        1
    } else {
        proof {
            lemma_digit_count_bound((n / 10) as nat);
        }
        1 + digit_count_of(n / 10)
    }
}

/// Raises the column widths to cover one more row.
pub fn accumulate_widths(widths: &mut Vec<usize>, row: &Vec<String>, annotate: bool)
    requires
        row_fits(row.deep_view()),
    ensures
        final(widths)@ == accumulate(old(widths)@, row.deep_view(), annotate),
{
    let ghost start = widths@;
    let ghost rv = row.deep_view();
    while widths.len() < row.len()
        invariant
            widths.len() >= start.len(),
            widths.len() > start.len() ==> widths.len() <= row.len(),
            forall|j: int| 0 <= j < widths.len() ==> #[trigger] widths@[j] == if j < start.len() {
                start[j]
            } else {
                0
            },
        decreases row.len() - widths.len(),
    {
        widths.push(0);
    }
    let mut i: usize = 0;
    while i < row.len()
        invariant
            i <= row.len(),
            rv == row.deep_view(),
            row_fits(rv),
            widths.len() == accumulate(start, rv, annotate).len(),
            forall|j: int| 0 <= j < i ==> #[trigger] widths@[j] == accumulate(start, rv, annotate)[j],
            forall|j: int| i <= j < widths.len() ==> #[trigger] widths@[j] == if j < start.len() {
                start[j]
            } else {
                0
            },
        decreases row.len() - i,
    {
        assert(rv[i as int] == row[i as int]@);
        proof {
            lemma_cell_width_fits(rv, i as int, annotate);
            crate::text::lemma_tab_count_bound(rv[i as int]);
            lemma_digit_count_bound((i + 1) as nat);
        }
        let mut cw = field_display_width(row[i].as_str());
        if annotate {
            cw = cw + digit_count_of(i + 1) + 3;
        }
        if widths[i] < cw {
            widths.set(i, cw);
        }
        i = i + 1;
    }
    assert(widths@ =~= accumulate(start, rv, annotate));
}

/// What the first pass has gathered so far.
pub struct ScanModel {
    pub widths: Seq<usize>,
    pub file: FileState,
    pub rows: Seq<Seq<Seq<char>>>,
    pub is_first_row: bool,
}

/// The first pass over the input: column widths, projection resolution, and
/// (where the input is buffered) the rows themselves.
pub struct TableScan {
    pub col_widths: Vec<usize>,
    pub file_data: FileData,
    pub rows: Vec<Vec<String>>,
    pub is_first_row: bool,
    /// Keep the rows for the second pass.
    pub save_rows: bool,
    /// Reserve room for column numbers in the first row.
    pub include_header_indexes: bool,
}

impl View for TableScan {
    type V = ScanModel;

    open spec fn view(&self) -> ScanModel {
        ScanModel {
            widths: self.col_widths@,
            file: self.file_data@,
            rows: self.rows.deep_view(),
            is_first_row: self.is_first_row,
        }
    }
}

pub open spec fn initial_scan(kind: KindModel) -> ScanModel {
    ScanModel { widths: Seq::empty(), file: initial_state(kind), rows: Seq::empty(), is_first_row: true }
}

/// One row of the first pass.
pub open spec fn scan_step(
    kind: KindModel,
    m: ScanModel,
    row: Seq<Seq<char>>,
    save_rows: bool,
    include_header_indexes: bool,
) -> Result<ScanModel, Seq<char>> {
    match observe(kind, m.file, row, m.is_first_row) {
        Err(e) => Err(e),
        Ok(f) => Ok(
            ScanModel {
                widths: accumulate(m.widths, row, m.is_first_row && include_header_indexes),
                file: f,
                rows: if save_rows {
                    m.rows.push(row)
                } else {
                    m.rows
                },
                is_first_row: false,
            },
        ),
    }
}

/// The whole first pass over `rows`, or the first error that it meets.
pub open spec fn scan_all(
    kind: KindModel,
    rows: Seq<Seq<Seq<char>>>,
    save_rows: bool,
    include_header_indexes: bool,
) -> Result<ScanModel, Seq<char>>
    decreases rows.len(),
{
    if rows.len() == 0 {
        Ok(initial_scan(kind))
    } else {
        match scan_all(kind, rows.drop_last(), save_rows, include_header_indexes) {
            Err(e) => Err(e),
            Ok(m) => scan_step(kind, m, rows.last(), save_rows, include_header_indexes),
        }
    }
}

impl TableScan {
    pub fn new(subset: &FieldsSubset, save_rows: bool, include_header_indexes: bool) -> (r: TableScan)
        ensures
            r@ == initial_scan(subset@),
            r.save_rows == save_rows,
            r.include_header_indexes == include_header_indexes,
    {
        let r = TableScan {
            col_widths: Vec::new(),
            file_data: subset.generate_file_data(),
            rows: Vec::new(),
            is_first_row: true,
            save_rows,
            include_header_indexes,
        };
        assert(r.rows.deep_view() =~= Seq::<Seq<Seq<char>>>::empty());
        r
    }

    /// Scans one row: resolution, widths, and the row kept where the input is buffered.
    pub fn scan_row(&mut self, subset: &FieldsSubset, row: Vec<String>) -> (r: Result<(), AppError>)
        requires
            row_fits(row.deep_view()),
        ensures
            final(self).save_rows == old(self).save_rows,
            final(self).include_header_indexes == old(self).include_header_indexes,
            match scan_step(
                subset@,
                old(self)@,
                row.deep_view(),
                old(self).save_rows,
                old(self).include_header_indexes,
            ) {
                Ok(m) => r is Ok && final(self)@ == m,
                Err(e) => r is Err && r->Err_0@ == e && final(self)@ == old(self)@,
            },
    {
        match subset.set_from_row(&mut self.file_data, &row, self.is_first_row) {
            Ok(()) => {},
            Err(e) => return Err(e),
        }
        accumulate_widths(&mut self.col_widths, &row, self.is_first_row && self.include_header_indexes);
        if self.save_rows {
            let ghost before = self.rows.deep_view();
            let ghost rv = row.deep_view();
            self.rows.push(row);
            assert(self.rows.deep_view() =~= before.push(rv));
        }
        self.is_first_row = false;
        Ok(())
    }
}

/// The first pass computes the same widths and the same resolution whether
/// it keeps the rows (buffered input) or drops them (streamed input); the
/// buffered pass keeps every row, the streamed one none.
pub proof fn lemma_widths_path_invariant(
    kind: KindModel,
    rows: Seq<Seq<Seq<char>>>,
    include_header_indexes: bool,
)
    ensures
        match (
            scan_all(kind, rows, true, include_header_indexes),
            scan_all(kind, rows, false, include_header_indexes),
        ) {
            (Ok(a), Ok(b)) => a.widths == b.widths && a.file == b.file && a.rows == rows
                && b.rows.len() == 0,
            (Err(x), Err(y)) => x == y,
            _ => false,
        },
    decreases rows.len(),
{
    if rows.len() > 0 {
        lemma_widths_path_invariant(kind, rows.drop_last(), include_header_indexes);
        assert(rows.drop_last().push(rows.last()) =~= rows);
    }
}

} // verus!
