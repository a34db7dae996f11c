use excel_wasm::cell::{get_cell_type, SourceCell, SourceKind};
use excel_wasm::sheet::{process_sheet, process_sheet_streaming, SourceRange};
use excel_wasm::workbook::{assemble_workbook, extract_metadata, SheetAccessError, SheetOutcome};

fn cell(kind: SourceKind, text: &str) -> SourceCell {
    SourceCell { kind, text: text.to_string() }
}

fn range(rows: usize, cols: usize) -> SourceRange {
    let mut out = Vec::new();
    for r in 0..rows {
        let mut row = Vec::new();
        for c in 0..cols {
            row.push(cell(SourceKind::Int, &format!("{}", r * cols + c)));
        }
        out.push(row);
    }
    SourceRange { rows: out, col_count: cols }
}

#[test]
fn every_variant_has_one_of_six_tags() {
    let expected = [
        (SourceKind::Int, "number"),
        (SourceKind::Float, "number"),
        (SourceKind::Text, "string"),
        (SourceKind::Bool, "boolean"),
        (SourceKind::DateTime, "date"),
        (SourceKind::Duration, "date"),
        (SourceKind::DateTimeIso, "date"),
        (SourceKind::DurationIso, "date"),
        (SourceKind::Error, "error"),
        (SourceKind::Empty, "empty"),
    ];
    for (kind, tag) in expected {
        assert_eq!(get_cell_type(kind), tag);
    }
}

#[test]
fn empty_cell_has_no_value() {
    let src = SourceRange {
        rows: vec![vec![cell(SourceKind::Empty, ""), cell(SourceKind::Text, "hi")]],
        col_count: 2,
    };
    let sheet = process_sheet(&src, "S");
    assert_eq!(sheet.rows[0][0].value, None);
    assert_eq!(sheet.rows[0][0].cell_type, "empty");
    assert_eq!(sheet.rows[0][1].value, Some("hi".to_string()));
    assert_eq!(sheet.rows[0][1].cell_type, "string");
    assert_eq!(sheet.rows[0][1].formula, None);
}

#[test]
fn two_by_two_addresses() {
    let sheet = process_sheet(&range(2, 2), "Data");
    assert_eq!(sheet.name, "Data");
    assert_eq!(sheet.row_count, 2);
    assert_eq!(sheet.col_count, 2);
    let addrs: Vec<Vec<String>> = sheet
        .rows
        .iter()
        .map(|row| row.iter().map(|c| c.address.clone()).collect())
        .collect();
    assert_eq!(addrs, vec![vec!["A1", "B1"], vec!["A2", "B2"]]);
    assert_eq!(sheet.rows[1][0].value, Some("2".to_string()));
}

#[test]
fn bounded_keeps_five_of_ten_rows() {
    let sheet = process_sheet_streaming(&range(10, 3), "Big", 5);
    assert_eq!(sheet.row_count, 5);
    assert_eq!(sheet.rows.len(), 5);
    assert_eq!(sheet.col_count, 3);
    assert_eq!(sheet.rows[4][2].address, "C5");
}

#[test]
fn bounded_cap_above_total_keeps_all() {
    let sheet = process_sheet_streaming(&range(3, 1), "Small", 10);
    assert_eq!(sheet.row_count, 3);
    assert_eq!(sheet.rows.len(), 3);
}

fn outcomes() -> Vec<SheetOutcome> {
    vec![
        ("First".to_string(), Ok(range(1, 1))),
        (
            "Second".to_string(),
            Err(SheetAccessError { sheet_name: "Second".to_string(), message: "corrupt".to_string() }),
        ),
        ("Third".to_string(), Ok(range(2, 1))),
    ]
}

#[test]
fn failing_sheet_is_skipped() {
    let wb = assemble_workbook(&outcomes(), None, 12);
    let names: Vec<&str> = wb.sheets.iter().map(|s| s.name.as_str()).collect();
    assert_eq!(names, vec!["First", "Third"]);
    assert!(wb.has_errors);
    assert_eq!(wb.processing_time_ms, 12);
    assert_eq!(wb.sheets[1].row_count, 2);
}

#[test]
fn workbook_with_row_limit() {
    let wb = assemble_workbook(&outcomes(), Some(1), 0);
    assert_eq!(wb.sheets.len(), 2);
    assert_eq!(wb.sheets[1].row_count, 1);
    assert_eq!(wb.sheets[1].rows.len(), 1);
}

#[test]
fn workbook_without_failures() {
    let all = vec![("Only".to_string(), Ok(range(1, 2)))];
    let wb = assemble_workbook(&all, None, 0);
    assert!(!wb.has_errors);
    assert_eq!(wb.sheets.len(), 1);
}

#[test]
fn parser_metadata_entries() {
    let m = extract_metadata();
    assert_eq!(
        m,
        vec![
            ("parser".to_string(), "wasm-calamine".to_string()),
            ("version".to_string(), "0.1.0".to_string()),
        ]
    );
    assert_eq!(assemble_workbook(&Vec::new(), None, 0).metadata, m);
}
