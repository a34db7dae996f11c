//! Cells: what the decoder hands over for one position, and the typed cell
//! that the library builds from it.
use vstd::prelude::*;
use crate::address::{address, cell_address};

verus! {

/// The variant of a decoded cell value, one per kind of value the decoder
/// yields.
#[derive(Clone, Copy, Debug, PartialEq, Eq, Structural)]
pub enum SourceKind {
    Int,
    Float,
    Text,
    Bool,
    DateTime,
    Duration,
    DateTimeIso,
    DurationIso,
    Error,
    Empty,
}

/// One decoded cell: its variant and its display text.
#[derive(Clone, Debug)]
pub struct SourceCell {
    pub kind: SourceKind,
    pub text: String,
}

/// A typed cell of a sheet.
#[derive(Clone, Debug)]
pub struct ExcelCell {
    pub value: Option<String>,
    pub formula: Option<String>,
    pub cell_type: String,
    pub address: String,
}

/// The type tag of each source variant: integers and floats are both
/// numbers, and dates and durations in either form are dates.
pub open spec fn cell_type_name(kind: SourceKind) -> Seq<char> {
    match kind {
        SourceKind::Int | SourceKind::Float => "number"@,
        SourceKind::Text => "string"@,
        SourceKind::Bool => "boolean"@,
        SourceKind::DateTime | SourceKind::Duration | SourceKind::DateTimeIso
        | SourceKind::DurationIso => "date"@,
        SourceKind::Error => "error"@,
        SourceKind::Empty => "empty"@,
    }
}

/// The six type tags.
pub open spec fn is_type_tag(t: Seq<char>) -> bool {
    t == "number"@ || t == "string"@ || t == "boolean"@ || t == "date"@ || t == "error"@ || t
        == "empty"@
}

/// Every source variant has a tag, and it is one of the six.
pub proof fn lemma_classification_total(kind: SourceKind)
    ensures
        is_type_tag(cell_type_name(kind)),
{
}

/// `c` is the cell built from `src` at 1-based row `row` and column `col`.
pub open spec fn cell_from_source(c: ExcelCell, src: SourceCell, row: nat, col: nat) -> bool {
    &&& c.address@ == address(col, row)
    &&& c.cell_type@ == cell_type_name(src.kind)
    &&& c.formula.is_none()
    &&& (src.kind == SourceKind::Empty <==> c.value.is_none())
    &&& c.value.is_some() ==> c.value.unwrap()@ == src.text@
}

/// The type tag of a source variant.
pub fn get_cell_type(kind: SourceKind) -> (r: String)
    ensures
        r@ == cell_type_name(kind),
{
    match kind {
        SourceKind::Int | SourceKind::Float => String::from_str("number"),
        SourceKind::Text => String::from_str("string"),
        SourceKind::Bool => String::from_str("boolean"),
        SourceKind::DateTime | SourceKind::Duration | SourceKind::DateTimeIso
        | SourceKind::DurationIso => String::from_str("date"),
        SourceKind::Error => String::from_str("error"),
        SourceKind::Empty => String::from_str("empty"),
    }
}

/// Builds the cell for `src` at 1-based row `row` and column `col`; an empty
/// source cell has no value.
pub fn build_cell(src: &SourceCell, row: usize, col: usize) -> (r: ExcelCell)
    requires
        col >= 1,
    ensures
        cell_from_source(r, *src, row as nat, col as nat),
{
    let value = match src.kind {
        SourceKind::Empty => None,
        _ => Some(src.text.clone()),
    };
    ExcelCell {
        value,
        formula: None,
        cell_type: get_cell_type(src.kind),
        address: cell_address(col, row),
    }
}

} // verus!
