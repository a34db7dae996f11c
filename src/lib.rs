//! Decoding spreadsheet files into typed, addressed cells, and planning
//! the evaluation of simple formulas over cell ranges.
pub mod address;
pub mod cell;
pub mod sheet;
pub mod workbook;
pub mod formula;
pub mod decode;
