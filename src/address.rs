//! Spreadsheet addresses: bijective base-26 column letters followed by a
//! 1-based decimal row number (`A1`, `AZ52`, `AAA703`).
use vstd::prelude::*;

verus! {

/// The letter that stands for digit `d` (0 for `A`, 25 for `Z`).
pub open spec fn letter(d: int) -> char {
    ((65 + d) as u32) as char
}

pub open spec fn is_letter(c: char) -> bool {
    65 <= c as u32 <= 90
}

/// The digit value of a column letter, 1 for `A` up to 26 for `Z`.
pub open spec fn letter_value(c: char) -> int {
    c as u32 - 64
}

/// The decimal digit character for `d` in 0..10.
pub open spec fn digit(d: int) -> char {
    ((48 + d) as u32) as char
}

pub open spec fn is_digit(c: char) -> bool {
    48 <= c as u32 <= 57
}

pub open spec fn digit_value(c: char) -> int {
    c as u32 - 48
}

/// The column letters of a 1-based column number, in bijective base 26
/// (1 is `A`, 26 is `Z`, 27 is `AA`); 0 has no letters.
pub open spec fn column_letters(n: nat) -> Seq<char>
    decreases n,
{
    if n == 0 {
        Seq::empty()
    } else {
        column_letters(((n - 1) / 26) as nat).push(letter((n - 1) % 26))
    }
}

/// The column number that a string of letters names: positional value
/// with letter digits valued 1 to 26.
pub open spec fn letters_value(s: Seq<char>) -> int
    decreases s.len(),
{
    if s.len() == 0 {
        0
    } else {
        26 * letters_value(s.drop_last()) + letter_value(s.last())
    }
}

pub open spec fn all_letters(s: Seq<char>) -> bool {
    forall|i: int| 0 <= i < s.len() ==> is_letter(#[trigger] s[i])
}

pub open spec fn all_digits(s: Seq<char>) -> bool {
    forall|i: int| 0 <= i < s.len() ==> is_digit(#[trigger] s[i])
}

/// The decimal form of `n`, without leading zeros.
pub open spec fn decimal(n: nat) -> Seq<char>
    decreases n,
{
    if n < 10 {
        seq![digit(n as int)]
    } else {
        decimal(n / 10).push(digit((n % 10) as int))
    }
}

pub open spec fn digits_value(s: Seq<char>) -> int
    decreases s.len(),
{
    if s.len() == 0 {
        0
    } else {
        10 * digits_value(s.drop_last()) + digit_value(s.last())
    }
}

/// The address of the cell at 1-based column `col` and row `row`.
pub open spec fn address(col: nat, row: nat) -> Seq<char> {
    column_letters(col) + decimal(row)
}

/// `s` is column letters up to position `k` and row digits after it.
pub open spec fn splits_address(s: Seq<char>, k: int) -> bool {
    &&& 1 <= k < s.len()
    &&& all_letters(s.subrange(0, k))
    &&& all_digits(s.subrange(k, s.len() as int))
}

/// `s` is an address naming column `col` and row `row`, both at least 1.
pub open spec fn names_cell(s: Seq<char>, col: int, row: int) -> bool {
    exists|k: int|
        #![trigger splits_address(s, k)]
        splits_address(s, k) && col == letters_value(s.subrange(0, k)) && row == digits_value(
            s.subrange(k, s.len() as int),
        ) && row >= 1
}

/// Reading the letters of a column number gives the number back.
pub proof fn lemma_letters_round_trip(n: nat)
    ensures
        letters_value(column_letters(n)) == n,
        all_letters(column_letters(n)),
        n >= 1 ==> column_letters(n).len() >= 1,
    decreases n,
{
    if n > 0 {
        let q = ((n - 1) / 26) as nat;
        let r = (n - 1) % 26;
        lemma_letters_round_trip(q);
        let s = column_letters(q).push(letter(r));
        assert(s.drop_last() =~= column_letters(q));
        assert(letter(r) as u32 == 65 + r);
    }
}

/// Reading the decimal form of a number gives the number back.
pub proof fn lemma_decimal_round_trip(n: nat)
    ensures
        digits_value(decimal(n)) == n,
        all_digits(decimal(n)),
        decimal(n).len() >= 1,
    decreases n,
{
    if n < 10 {
        let s = decimal(n);
        assert(s.drop_last() =~= Seq::<char>::empty());
        assert(digits_value(s.drop_last()) == 0);
        assert(digit(n as int) as u32 == 48 + n);
    } else {
        lemma_decimal_round_trip(n / 10);
        let s = decimal(n / 10).push(digit((n % 10) as int));
        assert(s.drop_last() =~= decimal(n / 10));
        assert(digit((n % 10) as int) as u32 == 48 + n % 10);
    }
}

/// Splitting an address is unambiguous: it names one column and one row.
pub proof fn lemma_names_cell_unique(s: Seq<char>, c1: int, r1: int, c2: int, r2: int)
    requires
        names_cell(s, c1, r1),
        names_cell(s, c2, r2),
    ensures
        c1 == c2 && r1 == r2,
{
    let k = choose|k: int| splits_address(s, k) && c1 == letters_value(s.subrange(0, k)) && r1
        == digits_value(s.subrange(k, s.len() as int)) && r1 >= 1;
    let j = choose|j: int| splits_address(s, j) && c2 == letters_value(s.subrange(0, j)) && r2
        == digits_value(s.subrange(j, s.len() as int)) && r2 >= 1;
    if k < j {
        assert(s.subrange(0, j)[k] == s[k]);
        assert(s.subrange(k, s.len() as int)[0] == s[k]);
    } else if j < k {
        assert(s.subrange(0, k)[j] == s[j]);
        assert(s.subrange(j, s.len() as int)[0] == s[j]);
    }
}

/// The address of a cell names that cell's column and row again.
pub proof fn lemma_address_round_trip(col: nat, row: nat)
    requires
        col >= 1,
        row >= 1,
    ensures
        names_cell(address(col, row), col as int, row as int),
{
    lemma_letters_round_trip(col);
    lemma_decimal_round_trip(row);
    let letters = column_letters(col);
    let digits = decimal(row);
    let s = address(col, row);
    let k = letters.len() as int;
    assert(s.subrange(0, k) =~= letters);
    assert(s.subrange(k, s.len() as int) =~= digits);
    assert(splits_address(s, k));
}

proof fn lemma_letters_prefix_grows(s: Seq<char>, i: int, j: int)
    requires
        all_letters(s),
        0 <= i <= j <= s.len(),
    ensures
        0 <= letters_value(s.subrange(0, i)) <= letters_value(s.subrange(0, j)),
    decreases j - i,
{
    if i < j {
        lemma_letters_prefix_grows(s, i, j - 1);
        assert(s.subrange(0, j).drop_last() =~= s.subrange(0, j - 1));
    } else {
        lemma_letters_nonneg(s.subrange(0, i));
    }
}

proof fn lemma_letters_nonneg(s: Seq<char>)
    requires
        all_letters(s),
    ensures
        letters_value(s) >= 0,
    decreases s.len(),
{
    if s.len() > 0 {
        assert(all_letters(s.drop_last()));
        lemma_letters_nonneg(s.drop_last());
    }
}

proof fn lemma_digits_prefix_grows(s: Seq<char>, i: int, j: int)
    requires
        all_digits(s),
        0 <= i <= j <= s.len(),
    ensures
        0 <= digits_value(s.subrange(0, i)) <= digits_value(s.subrange(0, j)),
    decreases j - i,
{
    if i < j {
        lemma_digits_prefix_grows(s, i, j - 1);
        assert(s.subrange(0, j).drop_last() =~= s.subrange(0, j - 1));
    } else {
        lemma_digits_nonneg(s.subrange(0, i));
    }
}

proof fn lemma_digits_nonneg(s: Seq<char>)
    requires
        all_digits(s),
    ensures
        digits_value(s) >= 0,
    decreases s.len(),
{
    if s.len() > 0 {
        assert(all_digits(s.drop_last()));
        lemma_digits_nonneg(s.drop_last());
    }
}

/// Converts a 1-based column number to its letters (1 to `A`, 27 to `AA`).
pub fn col_number_to_letter(col_num: usize) -> (r: String)
    requires
        col_num >= 1,
    ensures
        r@ == column_letters(col_num as nat),
{
    let alpha = "ABCDEFGHIJKLMNOPQRSTUVWXYZ";
    proof {
        reveal_strlit("ABCDEFGHIJKLMNOPQRSTUVWXYZ");
    }
    let mut result = String::new();
    let mut num: usize = col_num;
    while num > 0
        invariant
            column_letters(col_num as nat) == column_letters(num as nat) + result@,
            alpha@.len() == 26,
            forall|d: int| 0 <= d < 26 ==> #[trigger] alpha@[d] == letter(d),
        decreases num,
    {
        let d: usize = (num - 1) % 26;
        let one = alpha.substring_char(d, d + 1);
        assert(one@ =~= seq![letter(d as int)]);
        let ghost before = result@;
        result = String::from_str(one).concat(result.as_str());
        assert(column_letters(num as nat) == column_letters(((num - 1) / 26) as nat).push(
            letter(d as int),
        ));
        assert(column_letters(((num - 1) / 26) as nat) + result@ =~= column_letters(num as nat)
            + before);
        num = (num - 1) / 26;
    }
    assert(result@ =~= column_letters(col_num as nat));
    result
}

/// Writes `n` in decimal.
pub fn row_number_text(n: usize) -> (r: String)
    ensures
        r@ == decimal(n as nat),
{
    let digits = "0123456789";
    proof {
        reveal_strlit("0123456789");
    }
    let mut num: usize = n;
    let d0: usize = num % 10;
    let mut result = String::from_str(digits.substring_char(d0, d0 + 1));
    assert(result@ =~= seq![digit(d0 as int)]);
    num = num / 10;
    if n >= 10 {
        assert(decimal(n as nat) =~= decimal(num as nat) + result@);
    }
    while num > 0
        invariant
            num == 0 ==> decimal(n as nat) == result@,
            num > 0 ==> decimal(n as nat) == decimal(num as nat) + result@,
            digits@.len() == 10,
            forall|d: int| 0 <= d < 10 ==> #[trigger] digits@[d] == digit(d),
        decreases num,
    {
        let d: usize = num % 10;
        let one = digits.substring_char(d, d + 1);
        assert(one@ =~= seq![digit(d as int)]);
        let ghost before = result@;
        result = String::from_str(one).concat(result.as_str());
        if num < 10 {
            assert(result@ =~= decimal(num as nat) + before);
        } else {
            assert(decimal(num as nat) == decimal((num / 10) as nat).push(digit(d as int)));
            assert(decimal((num / 10) as nat) + result@ =~= decimal(num as nat) + before);
        }
        num = num / 10;
    }
    result
}

/// The address of the cell at 1-based column `col` and row `row` (`B12`).
pub fn cell_address(col: usize, row: usize) -> (r: String)
    requires
        col >= 1,
    ensures
        r@ == address(col as nat, row as nat),
{
    let letters = col_number_to_letter(col);
    let digits = row_number_text(row);
    letters.concat(digits.as_str())
}

/// Reads column letters back into a column number. Fails on an empty
/// string, a character other than `A` to `Z`, or a number over `usize::MAX`.
pub fn letters_to_col_number(s: &str) -> (r: Option<usize>)
    ensures
        r.is_some() <==> (s@.len() >= 1 && all_letters(s@) && letters_value(s@) <= usize::MAX),
        r.is_some() ==> r.unwrap() == letters_value(s@),
{
    let len = s.unicode_len();
    if len == 0 {
        return None;
    }
    let mut acc: usize = 0;
    let mut i: usize = 0;
    while i < len
        invariant
            len == s@.len(),
            i <= len,
            all_letters(s@.subrange(0, i as int)),
            acc == letters_value(s@.subrange(0, i as int)),
        decreases len - i,
    {
        let c = s.get_char(i);
        let code = c as u32;
        if code < 65 || code > 90 {
            return None;
        }
        let v: usize = (code - 64) as usize;
        assert(s@.subrange(0, i + 1).drop_last() =~= s@.subrange(0, i as int));
        assert(all_letters(s@.subrange(0, i + 1)));
        if acc > (usize::MAX - v) / 26 {
            proof {
                assert(letters_value(s@.subrange(0, i + 1)) == 26 * acc + v);
                if all_letters(s@) {
                    lemma_letters_prefix_grows(s@, i + 1, len as int);
                    assert(s@.subrange(0, len as int) =~= s@);
                }
            }
            return None;
        }
        acc = acc * 26 + v;
        i = i + 1;
    }
    assert(s@.subrange(0, len as int) =~= s@);
    Some(acc)
}

/// Reads a decimal number. Fails on an empty string, a character other than
/// `0` to `9`, or a number over `usize::MAX`.
pub fn text_to_row_number(s: &str) -> (r: Option<usize>)
    ensures
        r.is_some() <==> (s@.len() >= 1 && all_digits(s@) && digits_value(s@) <= usize::MAX),
        r.is_some() ==> r.unwrap() == digits_value(s@),
{
    let len = s.unicode_len();
    if len == 0 {
        return None;
    }
    let mut acc: usize = 0;
    let mut i: usize = 0;
    while i < len
        invariant
            len == s@.len(),
            i <= len,
            all_digits(s@.subrange(0, i as int)),
            acc == digits_value(s@.subrange(0, i as int)),
        decreases len - i,
    {
        let c = s.get_char(i);
        let code = c as u32;
        if code < 48 || code > 57 {
            return None;
        }
        let v: usize = (code - 48) as usize;
        assert(s@.subrange(0, i + 1).drop_last() =~= s@.subrange(0, i as int));
        assert(all_digits(s@.subrange(0, i + 1)));
        if acc > (usize::MAX - v) / 10 {
            proof {
                assert(digits_value(s@.subrange(0, i + 1)) == 10 * acc + v);
                if all_digits(s@) {
                    lemma_digits_prefix_grows(s@, i + 1, len as int);
                    assert(s@.subrange(0, len as int) =~= s@);
                }
            }
            return None;
        }
        acc = acc * 10 + v;
        i = i + 1;
    }
    assert(s@.subrange(0, len as int) =~= s@);
    Some(acc)
}

/// Splits an address such as `AB12` into its column and row numbers, both
/// 1-based. Fails where the text is not letters then digits, where the row
/// is 0, or where either number is over `usize::MAX`.
pub fn parse_address(s: &str) -> (r: Option<(usize, usize)>)
    ensures
        r.is_some() ==> names_cell(s@, r.unwrap().0 as int, r.unwrap().1 as int),
        r.is_some() ==> r.unwrap().0 >= 1 && r.unwrap().1 >= 1,
        r.is_none() ==> forall|col: int, row: int|
            names_cell(s@, col, row) ==> col > usize::MAX || row > usize::MAX,
{
    let len = s.unicode_len();
    let mut k: usize = 0;
    let mut at_letter: bool = len > 0;
    while at_letter
        invariant
            len == s@.len(),
            k <= len,
            at_letter ==> k < len,
            !at_letter ==> k == len || !is_letter(s@[k as int]),
            forall|i: int| 0 <= i < k ==> is_letter(#[trigger] s@[i]),
        decreases len - k + (if at_letter { 1int } else { 0int }),
    {
        let code = s.get_char(k) as u32;
        if 65 <= code && code <= 90 {
            k = k + 1;
            at_letter = k < len;
        } else {
            at_letter = false;
        }
    }
    assert(k < len ==> !is_letter(s@[k as int]));
    if k == 0 || k == len {
        proof {
            assert forall|col: int, row: int| names_cell(s@, col, row) implies false by {
                let j = choose|j: int| splits_address(s@, j) && col == letters_value(s@.subrange(0, j))
                    && row == digits_value(s@.subrange(j, s@.len() as int)) && row >= 1;
                if k == 0 {
                    assert(s@.subrange(0, j)[0] == s@[0]);
                } else {
                    assert(s@.subrange(j, s@.len() as int)[0] == s@[j]);
                }
            }
        }
        return None;
    }
    let letters = s.substring_char(0, k);
    let digits = s.substring_char(k, len);
    assert(all_letters(letters@));
    let col = letters_to_col_number(letters);
    let row = text_to_row_number(digits);
    proof {
        assert forall|c: int, w: int| names_cell(s@, c, w) implies splits_address(s@, k as int)
            && c == letters_value(letters@) && w == digits_value(digits@) && w >= 1 by {
            let j = choose|j: int| splits_address(s@, j) && c == letters_value(s@.subrange(0, j))
                && w == digits_value(s@.subrange(j, s@.len() as int)) && w >= 1;
            if j < k {
                assert(s@.subrange(j, s@.len() as int)[0] == s@[j]);
            } else if j > k {
                assert(s@.subrange(0, j)[k as int] == s@[k as int]);
            }
        }
    }
    match (col, row) {
        (Some(c), Some(w)) => {
            if w >= 1 {
                assert(splits_address(s@, k as int));
                proof {
                    lemma_letters_prefix_grows(letters@, 1, letters@.len() as int);
                    let first = letters@.subrange(0, 1);
                    assert(first.drop_last() =~= Seq::<char>::empty());
                    assert(letters_value(first.drop_last()) == 0);
                    assert(first.last() == letters@[0]);
                    assert(is_letter(letters@[0]));
                    assert(letters@.subrange(0, letters@.len() as int) =~= letters@);
                }
                Some((c, w))
            } else {
                None
            }
        },
        _ => None,
    }
}

} // verus!
