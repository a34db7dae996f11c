use excel_wasm::cell::{SourceCell, SourceKind};
use excel_wasm::decode::{row_limit_or_default, sheet_only, sheet_outcome, DEFAULT_ROW_LIMIT};
use excel_wasm::sheet::SourceRange;
use excel_wasm::workbook::{assemble_workbook, get_wasm_version};

fn one_cell_range() -> SourceRange {
    SourceRange {
        rows: vec![vec![SourceCell { kind: SourceKind::Float, text: "1.5".to_string() }]],
        col_count: 1,
    }
}

#[test]
fn readable_sheet_outcome_keeps_range() {
    let (name, result) = sheet_outcome("Data".to_string(), Some(Ok(one_cell_range())));
    assert_eq!(name, "Data");
    assert_eq!(result.unwrap().rows[0][0].text, "1.5");
}

#[test]
fn unreadable_sheet_outcome_carries_name_and_cause() {
    let (_, result) = sheet_outcome("Bad".to_string(), Some(Err("corrupt sheet".to_string())));
    let e = result.unwrap_err();
    assert_eq!(e.sheet_name, "Bad");
    assert_eq!(e.message, "corrupt sheet");
}

#[test]
fn missing_sheet_outcome_is_access_error() {
    let (_, result) = sheet_outcome("Nope".to_string(), None);
    let e = result.unwrap_err();
    assert_eq!(e.sheet_name, "Nope");
    assert_eq!(e.message, "no sheet of this name");
}

#[test]
fn single_sheet_request() {
    let sheet = sheet_only("Data", Some(Ok(one_cell_range()))).unwrap();
    assert_eq!(sheet.name, "Data");
    assert_eq!(sheet.rows[0][0].address, "A1");
    assert_eq!(sheet.rows[0][0].cell_type, "number");
    let e = sheet_only("Gone", None).unwrap_err();
    assert_eq!(e.sheet_name, "Gone");
    let e = sheet_only("Bad", Some(Err("cause".to_string()))).unwrap_err();
    assert_eq!(e.message, "cause");
}

#[test]
fn outcomes_assemble_with_partial_success() {
    let outcomes = vec![
        sheet_outcome("A".to_string(), Some(Ok(one_cell_range()))),
        sheet_outcome("B".to_string(), Some(Err("broken".to_string()))),
        sheet_outcome("C".to_string(), Some(Ok(one_cell_range()))),
    ];
    let wb = assemble_workbook(&outcomes, Some(row_limit_or_default(None)), 0);
    let names: Vec<&str> = wb.sheets.iter().map(|s| s.name.as_str()).collect();
    assert_eq!(names, vec!["A", "C"]);
    assert!(wb.has_errors);
}

#[test]
fn default_row_limit() {
    assert_eq!(row_limit_or_default(None), 10000);
    assert_eq!(DEFAULT_ROW_LIMIT, 10000);
    assert_eq!(row_limit_or_default(Some(5)), 5);
}

#[test]
fn version_string() {
    assert_eq!(get_wasm_version(), "excel-wasm v0.1.0");
}
