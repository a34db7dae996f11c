use excel_wasm::formula::{
    expand_range, parse_formula, parse_range, trim_formula, Aggregate, FormulaError, FormulaPlan,
};

fn token(f: &str) -> String {
    match parse_formula(f) {
        Ok(FormulaPlan::Token(t)) => t,
        other => panic!("expected a token, got {:?}", other),
    }
}

fn over(f: &str) -> (Aggregate, Vec<String>) {
    match parse_formula(f) {
        Ok(FormulaPlan::Over(a, cells)) => (a, cells),
        other => panic!("expected an aggregate, got {:?}", other),
    }
}

#[test]
fn literal_is_a_token() {
    assert_eq!(token("42"), "42");
    assert_eq!(token("  42 \n"), "42");
}

#[test]
fn bare_reference_is_a_token() {
    assert_eq!(token("A1"), "A1");
}

#[test]
fn sum_over_column_range() {
    let (a, cells) = over("SUM(A1:A3)");
    assert_eq!(a, Aggregate::Sum);
    assert_eq!(cells, vec!["A1", "A2", "A3"]);
}

#[test]
fn average_over_row_range_reversed() {
    let (a, cells) = over("AVERAGE(C2:A2)");
    assert_eq!(a, Aggregate::Average);
    assert_eq!(cells, vec!["A2", "B2", "C2"]);
}

#[test]
fn rectangle_in_row_major_order() {
    let (_, cells) = over("SUM(B2:A1)");
    assert_eq!(cells, vec!["A1", "B1", "A2", "B2"]);
    assert_eq!(expand_range(1, 1, 1, 1), vec!["A1"]);
}

#[test]
fn unknown_function_fails() {
    assert!(matches!(parse_formula("MAX(A1:A2)"), Err(FormulaError::UnknownFunction)));
    assert!(matches!(parse_formula("sum(A1:A2)"), Err(FormulaError::UnknownFunction)));
}

#[test]
fn malformed_arguments_fail() {
    assert!(matches!(parse_formula("SUM(A1)"), Err(FormulaError::MalformedArguments)));
    assert!(matches!(parse_formula("SUM(A1:3)"), Err(FormulaError::MalformedArguments)));
    assert!(matches!(parse_formula("AVERAGE()"), Err(FormulaError::MalformedArguments)));
}

#[test]
fn range_corners() {
    assert_eq!(parse_range("A1:B3"), Some((1, 1, 2, 3)));
    assert_eq!(parse_range("A1-B3"), None);
    assert_eq!(trim_formula("\t SUM(A1:A2) "), "SUM(A1:A2)");
}
