use excel_wasm::address::{
    cell_address, col_number_to_letter, letters_to_col_number, parse_address, row_number_text,
    text_to_row_number,
};

#[test]
fn column_letters_known_values() {
    assert_eq!(col_number_to_letter(1), "A");
    assert_eq!(col_number_to_letter(26), "Z");
    assert_eq!(col_number_to_letter(27), "AA");
    assert_eq!(col_number_to_letter(52), "AZ");
    assert_eq!(col_number_to_letter(702), "ZZ");
    assert_eq!(col_number_to_letter(703), "AAA");
}

#[test]
fn column_letters_round_trip_up_to_bound() {
    for n in 1..=20000usize {
        let letters = col_number_to_letter(n);
        assert_eq!(letters_to_col_number(&letters), Some(n));
    }
}

#[test]
fn letters_to_number_rejects_bad_text() {
    assert_eq!(letters_to_col_number(""), None);
    assert_eq!(letters_to_col_number("a"), None);
    assert_eq!(letters_to_col_number("A1"), None);
    assert_eq!(letters_to_col_number("AAA"), Some(703));
    assert_eq!(letters_to_col_number("ZZZZZZZZZZZZZZZZZZZZZZZZZZ"), None);
}

#[test]
fn row_numbers_in_decimal() {
    assert_eq!(row_number_text(0), "0");
    assert_eq!(row_number_text(7), "7");
    assert_eq!(row_number_text(10), "10");
    assert_eq!(row_number_text(1048576), "1048576");
    assert_eq!(text_to_row_number("1048576"), Some(1048576));
    assert_eq!(text_to_row_number("12a"), None);
    assert_eq!(text_to_row_number("99999999999999999999999"), None);
}

#[test]
fn cell_addresses() {
    assert_eq!(cell_address(1, 1), "A1");
    assert_eq!(cell_address(2, 12), "B12");
    assert_eq!(cell_address(27, 27), "AA27");
}

#[test]
fn parse_addresses() {
    assert_eq!(parse_address("A1"), Some((1, 1)));
    assert_eq!(parse_address("AA27"), Some((27, 27)));
    assert_eq!(parse_address("B12"), Some((2, 12)));
    assert_eq!(parse_address("A0"), None);
    assert_eq!(parse_address("12"), None);
    assert_eq!(parse_address("AB"), None);
    assert_eq!(parse_address("A1B"), None);
    assert_eq!(parse_address(""), None);
}

#[test]
fn parse_inverts_cell_address() {
    for col in [1usize, 2, 26, 27, 52, 702, 703, 16384] {
        for row in [1usize, 9, 10, 99, 100, 1048576] {
            assert_eq!(parse_address(&cell_address(col, row)), Some((col, row)));
        }
    }
}
