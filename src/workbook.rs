//! Assembling a workbook from the per-sheet outcomes of a decode, keeping
//! every sheet that could be read.
use vstd::prelude::*;
use crate::sheet::{materialized, process_sheet, process_sheet_streaming, ExcelSheet, SourceRange};

verus! {

/// A named sheet whose range could not be read.
#[derive(Clone, Debug)]
pub struct SheetAccessError {
    pub sheet_name: String,
    pub message: String,
}

/// A decoded workbook.
#[derive(Clone, Debug)]
pub struct ExcelWorkbook {
    pub sheets: Vec<ExcelSheet>,
    pub metadata: Vec<(String, String)>,
    pub has_errors: bool,
    pub processing_time_ms: u64,
}

/// What the decoder gave for one sheet: its declared name, and its range
/// or the failure to read it.
pub type SheetOutcome = (String, Result<SourceRange, SheetAccessError>);

/// The positions among the first `n` outcomes whose range could be read,
/// in increasing order.
pub open spec fn kept_positions(src: Seq<SheetOutcome>, n: int) -> Seq<int>
    decreases n,
{
    if n <= 0 {
        Seq::empty()
    } else if src[n - 1].1 is Ok {
        kept_positions(src, n - 1).push(n - 1)
    } else {
        kept_positions(src, n - 1)
    }
}

/// An optional row limit as a mathematical number.
pub open spec fn cap_of(row_limit: Option<usize>) -> Option<nat> {
    match row_limit {
        Some(m) => Some(m as nat),
        None => None,
    }
}

/// The metadata entries that identify the parser.
pub open spec fn parser_metadata(m: Seq<(String, String)>) -> bool {
    &&& m.len() == 2
    &&& m[0].0@ == "parser"@ && m[0].1@ == "wasm-calamine"@
    &&& m[1].0@ == "version"@ && m[1].1@ == "0.1.0"@
}

/// `wb` holds, in source order, exactly the sheets of `src` that could be
/// read, each materialized under its name with the optional row cap, and
/// flags an error exactly when some sheet was skipped.
pub open spec fn assembled(wb: ExcelWorkbook, src: Seq<SheetOutcome>, max_rows: Option<nat>) -> bool {
    let pos = kept_positions(src, src.len() as int);
    &&& wb.sheets@.len() == pos.len()
    &&& forall|k: int|
        0 <= k < pos.len() ==> materialized(
            #[trigger] wb.sheets@[k],
            src[pos[k]].1->Ok_0,
            src[pos[k]].0@,
            max_rows,
        )
    &&& wb.has_errors == exists|i: int| 0 <= i < src.len() && #[trigger] src[i].1 is Err
    &&& parser_metadata(wb.metadata@)
}

/// The kept positions are exactly the readable outcomes, each once, in
/// source order: a sheet that fails leaves out that sheet alone and keeps
/// the order of the others.
pub proof fn lemma_kept_positions(src: Seq<SheetOutcome>, n: int)
    requires
        0 <= n <= src.len(),
    ensures
        forall|k: int|
            0 <= k < kept_positions(src, n).len() ==> 0 <= #[trigger] kept_positions(src, n)[k] < n
                && src[kept_positions(src, n)[k]].1 is Ok,
        forall|k: int, l: int|
            0 <= k < l < kept_positions(src, n).len() ==> #[trigger] kept_positions(src, n)[k]
                < #[trigger] kept_positions(src, n)[l],
        forall|i: int|
            0 <= i < n && #[trigger] src[i].1 is Ok ==> exists|k: int|
                0 <= k < kept_positions(src, n).len() && kept_positions(src, n)[k] == i,
    decreases n,
{
    if n > 0 {
        lemma_kept_positions(src, n - 1);
        let prev = kept_positions(src, n - 1);
        if src[n - 1].1 is Ok {
            assert forall|i: int| 0 <= i < n && #[trigger] src[i].1 is Ok implies exists|k: int|
                0 <= k < kept_positions(src, n).len() && kept_positions(src, n)[k] == i by {
                if i == n - 1 {
                    assert(kept_positions(src, n)[prev.len() as int] == i);
                } else {
                    let k = choose|k: int| 0 <= k < prev.len() && prev[k] == i;
                    assert(kept_positions(src, n)[k] == i);
                }
            }
        }
    }
}

/// The entries that identify the parser: its name and version.
pub fn extract_metadata() -> (r: Vec<(String, String)>)
    ensures
        parser_metadata(r@),
{
    let mut metadata: Vec<(String, String)> = Vec::new();
    metadata.push((String::from_str("parser"), String::from_str("wasm-calamine")));
    metadata.push((String::from_str("version"), String::from_str("0.1.0")));
    metadata
}

/// Materializes every readable sheet of `sources`, in order, with at most
/// `row_limit` rows each where a limit is given; a sheet whose range could
/// not be read is skipped and recorded in `has_errors`.
pub fn assemble_workbook(
    sources: &Vec<SheetOutcome>,
    row_limit: Option<usize>,
    processing_time_ms: u64,
) -> (r: ExcelWorkbook)
    ensures
        assembled(r, sources@, cap_of(row_limit)),
        r.processing_time_ms == processing_time_ms,
{
    let ghost cap = cap_of(row_limit);
    let mut sheets: Vec<ExcelSheet> = Vec::new();
    let mut has_errors = false;
    let mut i: usize = 0;
    while i < sources.len()
        invariant
            i <= sources@.len(),
            cap == cap_of(row_limit),
            sheets@.len() == kept_positions(sources@, i as int).len(),
            forall|k: int|
                0 <= k < sheets@.len() ==> materialized(
                    #[trigger] sheets@[k],
                    sources@[kept_positions(sources@, i as int)[k]].1->Ok_0,
                    sources@[kept_positions(sources@, i as int)[k]].0@,
                    cap,
                ),
            has_errors == exists|j: int| 0 <= j < i && #[trigger] sources@[j].1 is Err,
        decreases sources@.len() - i,
    {
        proof {
            lemma_kept_positions(sources@, i as int);
        }
        let entry = &sources[i];
        match &entry.1 {
            Ok(range) => {
                let sheet = match row_limit {
                    Some(m) => {
                        let sheet = process_sheet_streaming(range, entry.0.as_str(), m);
                        assert(cap == Some(m as nat));
                        sheet
                    },
                    None => {
                        let sheet = process_sheet(range, entry.0.as_str());
                        assert(cap == None::<nat>);
                        sheet
                    },
                };
                let ghost prev = sheets@;
                sheets.push(sheet);
                proof {
                    let kp = kept_positions(sources@, i as int);
                    assert(kept_positions(sources@, i + 1) == kp.push(i as int));
                    assert forall|k: int| 0 <= k < sheets@.len() implies materialized(
                        #[trigger] sheets@[k],
                        sources@[kept_positions(sources@, i + 1)[k]].1->Ok_0,
                        sources@[kept_positions(sources@, i + 1)[k]].0@,
                        cap,
                    ) by {
                        if k < prev.len() {
                            assert(sheets@[k] == prev[k]);
                        } else {
                            assert(kept_positions(sources@, i + 1)[k] == i);
                        }
                    }
                }
            },
            Err(_) => {
                has_errors = true;
                assert(kept_positions(sources@, i + 1) == kept_positions(sources@, i as int));
            },
        }
        assert(has_errors == exists|j: int| 0 <= j < i + 1 && #[trigger] sources@[j].1 is Err);
        i = i + 1;
    }
    ExcelWorkbook { sheets, metadata: extract_metadata(), has_errors, processing_time_ms }
}

/// The library's build identity.
pub fn get_wasm_version() -> (r: String)
    ensures
        r@ == "excel-wasm v0.1.0"@,
{
    String::from_str("excel-wasm v0.1.0")
}

} // verus!
