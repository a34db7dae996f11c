//! Turning a decoded range into a sheet of typed, addressed cells.
use vstd::prelude::*;
use crate::cell::{build_cell, cell_from_source, ExcelCell, SourceCell};

verus! {

/// A decoded rectangular range: its rows in order, each a row of cells
/// enumerated from the first column, and the column count the decoder
/// reported.
///
/// Cells are addressed by their position in this enumeration, so the
/// decoder must hand over a dense range that starts at `A1`. A decoder
/// whose range starts at the first used cell (as calamine's does) has a
/// sheet whose data begins at `B2` addressed from `A1`.
#[derive(Clone, Debug)]
pub struct SourceRange {
    pub rows: Vec<Vec<SourceCell>>,
    pub col_count: usize,
}

/// A sheet of typed cells, row-major.
#[derive(Clone, Debug)]
pub struct ExcelSheet {
    pub name: String,
    pub rows: Vec<Vec<ExcelCell>>,
    pub row_count: usize,
    pub col_count: usize,
}

/// The number of rows kept from `total` under an optional cap.
pub open spec fn rows_kept(total: nat, max_rows: Option<nat>) -> nat {
    match max_rows {
        Some(m) => if m < total { m } else { total },
        None => total,
    }
}

/// The first `n` rows of `out` are built from those of `src`, each cell
/// addressed by its 1-based position in enumeration order.
pub open spec fn rows_from_source(
    out: Seq<Vec<ExcelCell>>,
    src: Seq<Vec<SourceCell>>,
    n: int,
) -> bool {
    &&& out.len() == n
    &&& n <= src.len()
    &&& forall|i: int| 0 <= i < n ==> (#[trigger] out[i])@.len() == src[i]@.len()
    &&& forall|i: int, j: int|
        0 <= i < n && 0 <= j < out[i]@.len() ==> cell_from_source(
            #[trigger] out[i]@[j],
            src[i]@[j],
            (i + 1) as nat,
            (j + 1) as nat,
        )
}

/// `sheet` is `range` materialized under the name `name`, keeping at most
/// `max_rows` rows where a cap is given.
pub open spec fn materialized(
    sheet: ExcelSheet,
    range: SourceRange,
    name: Seq<char>,
    max_rows: Option<nat>,
) -> bool {
    let n = rows_kept(range.rows@.len(), max_rows);
    &&& sheet.name@ == name
    &&& sheet.row_count == n
    &&& sheet.col_count == range.col_count
    &&& rows_from_source(sheet.rows@, range.rows@, n as int)
}

fn build_rows(range: &SourceRange, n: usize) -> (r: Vec<Vec<ExcelCell>>)
    requires
        n <= range.rows@.len(),
    ensures
        rows_from_source(r@, range.rows@, n as int),
{
    let mut rows: Vec<Vec<ExcelCell>> = Vec::new();
    let mut i: usize = 0;
    while i < n
        invariant
            i <= n,
            n <= range.rows@.len(),
            rows_from_source(rows@, range.rows@, i as int),
        decreases n - i,
    {
        let src_row = &range.rows[i];
        let mut row: Vec<ExcelCell> = Vec::new();
        let mut j: usize = 0;
        while j < src_row.len()
            invariant
                i < n,
                n <= range.rows@.len(),
                src_row == range.rows@[i as int],
                j <= src_row@.len(),
                row@.len() == j,
                forall|k: int|
                    0 <= k < j ==> cell_from_source(
                        #[trigger] row@[k],
                        src_row@[k],
                        (i + 1) as nat,
                        (k + 1) as nat,
                    ),
            decreases src_row@.len() - j,
        {
            let cell = build_cell(&src_row[j], i + 1, j + 1);
            row.push(cell);
            j = j + 1;
        }
        rows.push(row);
        i = i + 1;
    }
    rows
}

/// Materializes every row of `range` as the sheet `sheet_name`. The cell
/// in row `i` and column `j` of the enumeration (from 0) gets the address
/// of column `j + 1` and row `i + 1`: the range must start at `A1`.
pub fn process_sheet(range: &SourceRange, sheet_name: &str) -> (r: ExcelSheet)
    ensures
        materialized(r, *range, sheet_name@, None),
{
    let n = range.rows.len();
    ExcelSheet {
        name: String::from_str(sheet_name),
        rows: build_rows(range, n),
        row_count: n,
        col_count: range.col_count,
    }
}

/// Materializes at most `max_rows` rows of `range` as the sheet
/// `sheet_name`; `row_count` is the number of rows kept. Cells are
/// addressed by enumeration position, as in `process_sheet`.
pub fn process_sheet_streaming(range: &SourceRange, sheet_name: &str, max_rows: usize) -> (r:
    ExcelSheet)
    ensures
        materialized(r, *range, sheet_name@, Some(max_rows as nat)),
{
    let total = range.rows.len();
    let n = if max_rows < total {
        max_rows
    } else {
        total
    };
    ExcelSheet {
        name: String::from_str(sheet_name),
        rows: build_rows(range, n),
        row_count: n,
        col_count: range.col_count,
    }
}

} // verus!
