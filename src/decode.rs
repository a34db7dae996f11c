//! What the library makes of a decoder's answers: the outcome of reading
//! each named sheet, the single-sheet request, and the row limit of a
//! bounded decode.
use vstd::prelude::*;
use crate::sheet::{materialized, process_sheet, ExcelSheet, SourceRange};
use crate::workbook::{SheetAccessError, SheetOutcome};

verus! {

/// The number of rows kept of each sheet by a bounded decode when the
/// caller names no limit.
pub const DEFAULT_ROW_LIMIT: usize = 10000;

/// The bytes could not be opened as a spreadsheet; `message` is the
/// decoder's cause.
#[derive(Clone, Debug)]
pub struct DecodeError {
    pub message: String,
}

/// The message of an access error for a name that no sheet has.
pub open spec fn missing_sheet_message() -> Seq<char> {
    "no sheet of this name"@
}

/// `r` is the outcome of asking the decoder for the sheet `name` when it
/// answered `read`: no sheet of that name, the range, or the cause why the
/// range could not be read.
pub open spec fn outcome_of(
    name: Seq<char>,
    read: Option<Result<SourceRange, String>>,
    r: Result<SourceRange, SheetAccessError>,
) -> bool {
    match read {
        Some(Ok(range)) => r == Ok::<SourceRange, SheetAccessError>(range),
        Some(Err(cause)) => r is Err && r->Err_0.sheet_name@ == name && r->Err_0.message@
            == cause@,
        None => r is Err && r->Err_0.sheet_name@ == name && r->Err_0.message@
            == missing_sheet_message(),
    }
}

/// The rows that a bounded decode keeps: `max_rows` where given, else
/// the default limit.
pub fn row_limit_or_default(max_rows: Option<usize>) -> (r: usize)
    ensures
        r == match max_rows {
            Some(m) => m,
            None => DEFAULT_ROW_LIMIT,
        },
{
    match max_rows {
        Some(m) => m,
        None => DEFAULT_ROW_LIMIT,
    }
}

fn access_error(name: &str, read: Option<Result<SourceRange, String>>) -> (r: Result<
    SourceRange,
    SheetAccessError,
>)
    ensures
        outcome_of(name@, read, r),
{
    match read {
        Some(Ok(range)) => Ok(range),
        Some(Err(cause)) => Err(SheetAccessError { sheet_name: String::from_str(name), message: cause }),
        None => Err(
            SheetAccessError {
                sheet_name: String::from_str(name),
                message: String::from_str("no sheet of this name"),
            },
        ),
    }
}

/// The outcome for the sheet `name`, given what the decoder answered when
/// asked for its range: the range, or an access error that carries the
/// name and the cause.
pub fn sheet_outcome(name: String, read: Option<Result<SourceRange, String>>) -> (r: SheetOutcome)
    ensures
        r.0 == name,
        outcome_of(name@, read, r.1),
{
    let result = access_error(name.as_str(), read);
    (name, result)
}

/// The single-sheet request: the sheet `name` materialized in full when
/// the decoder gave its range, else the access error, which carries the
/// name and the cause.
pub fn sheet_only(name: &str, read: Option<Result<SourceRange, String>>) -> (r: Result<
    ExcelSheet,
    SheetAccessError,
>)
    ensures
        r is Ok <==> read matches Some(Ok(_)),
        read matches Some(Ok(range)) ==> materialized(r->Ok_0, range, name@, None),
        r is Err ==> outcome_of(name@, read, Err(r->Err_0)),
{
    match access_error(name, read) {
        Ok(range) => Ok(process_sheet(&range, name)),
        Err(e) => Err(e),
    }
}

} // verus!
