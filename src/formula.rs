//! Formula planning: a formula is a number or a cell reference (one token
//! resolved against the caller's values), or `SUM` or `AVERAGE` over a range
//! `START:END`, which is expanded here into the addresses of its cells.
use vstd::prelude::*;
use vstd::arithmetic::div_mod::{
    lemma_fundamental_div_mod_converse_div,
    lemma_fundamental_div_mod_converse_mod,
};
use crate::address::{address, cell_address, names_cell, parse_address};

verus! {

/// The aggregate functions that a formula may call.
#[derive(Clone, Copy, Debug, PartialEq, Eq, Structural)]
pub enum Aggregate {
    Sum,
    Average,
}

/// What a formula asks for: the value of a single token (a number literal
/// or a cell reference), or an aggregate over the listed cells, in
/// row-major order.
#[derive(Clone, Debug)]
pub enum FormulaPlan {
    Token(String),
    Over(Aggregate, Vec<String>),
}

/// Why a formula cannot be evaluated.
#[derive(Clone, Copy, Debug, PartialEq, Eq, Structural)]
pub enum FormulaError {
    /// `NAME(...)` where `NAME` is neither `SUM` nor `AVERAGE`.
    UnknownFunction,
    /// The argument of `SUM` or `AVERAGE` is not `START:END` with two addresses.
    MalformedArguments,
    /// A token that is neither a number nor a known cell.
    UnknownReference,
    /// An aggregate over no cells.
    EmptyRange,
}

pub open spec fn is_blank(c: char) -> bool {
    c == ' ' || c == '\t' || c == '\n' || c == '\r' || c == '\x0B' || c == '\x0C'
}

pub open spec fn trim_start(s: Seq<char>) -> Seq<char>
    decreases s.len(),
{
    if s.len() > 0 && is_blank(s[0]) {
        trim_start(s.drop_first())
    } else {
        s
    }
}

pub open spec fn trim_end(s: Seq<char>) -> Seq<char>
    decreases s.len(),
{
    if s.len() > 0 && is_blank(s.last()) {
        trim_end(s.drop_last())
    } else {
        s
    }
}

/// `s` without the blanks around it.
pub open spec fn trim_blank(s: Seq<char>) -> Seq<char> {
    trim_end(trim_start(s))
}

/// `p` is the first position of `c` in `s`.
pub open spec fn first_at(s: Seq<char>, c: char, p: int) -> bool {
    0 <= p < s.len() && s[p] == c && forall|i: int| 0 <= i < p ==> s[i] != c
}

/// `t` has the shape `NAME(ARGS)`, its first `(` at `p`.
pub open spec fn call_at(t: Seq<char>, p: int) -> bool {
    t.len() >= 2 && t.last() == ')' && first_at(t, '(', p)
}

pub open spec fn is_call(t: Seq<char>) -> bool {
    exists|p: int| call_at(t, p)
}

/// The aggregate a function name names, matched exactly.
pub open spec fn function_named(name: Seq<char>) -> Option<Aggregate> {
    if name == "SUM"@ {
        Some(Aggregate::Sum)
    } else if name == "AVERAGE"@ {
        Some(Aggregate::Average)
    } else {
        None
    }
}

/// `a` is `START:END`, split at its first `:`, with `START` naming column
/// `c1` and row `r1`, and `END` column `c2` and row `r2`.
pub open spec fn range_names(a: Seq<char>, c1: int, r1: int, c2: int, r2: int) -> bool {
    exists|q: int|
        #![trigger first_at(a, ':', q)]
        first_at(a, ':', q) && names_cell(a.subrange(0, q), c1, r1) && names_cell(
            a.subrange(q + 1, a.len() as int),
            c2,
            r2,
        )
}

pub open spec fn fits(x: int) -> bool {
    1 <= x <= usize::MAX
}

pub open spec fn spec_min(a: int, b: int) -> int {
    if a <= b {
        a
    } else {
        b
    }
}

pub open spec fn spec_max(a: int, b: int) -> int {
    if a <= b {
        b
    } else {
        a
    }
}

/// The addresses of the rectangle spanned by two corners, row by row and
/// left to right within a row; the corners may be given in any order.
pub open spec fn range_cells(c1: int, r1: int, c2: int, r2: int) -> Seq<Seq<char>> {
    let lc = spec_min(c1, c2);
    let lr = spec_min(r1, r2);
    let w = spec_max(c1, c2) - lc + 1;
    let h = spec_max(r1, r2) - lr + 1;
    Seq::new(
        (w * h) as nat,
        |k: int| address((lc + k % w) as nat, (lr + k / w) as nat),
    )
}

/// The views of a list of strings.
pub open spec fn views(v: Seq<String>) -> Seq<Seq<char>> {
    v.map_values(|s: String| s@)
}

/// Finds the first position of `c` in `s`.
fn find_char(s: &str, c: char) -> (r: Option<usize>)
    ensures
        r.is_some() ==> first_at(s@, c, r.unwrap() as int),
        r.is_none() ==> forall|i: int| 0 <= i < s@.len() ==> s@[i] != c,
{
    let len = s.unicode_len();
    let mut i: usize = 0;
    while i < len
        invariant
            len == s@.len(),
            i <= len,
            forall|j: int| 0 <= j < i ==> s@[j] != c,
        decreases len - i,
    {
        if s.get_char(i) == c {
            return Some(i);
        }
        i = i + 1;
    }
    None
}

fn blank(c: char) -> (r: bool)
    ensures
        r == is_blank(c),
{
    c == ' ' || c == '\t' || c == '\n' || c == '\r' || c == '\x0B' || c == '\x0C'
}

/// `s` without the blanks around it.
pub fn trim_formula(s: &str) -> (r: &str)
    ensures
        r@ == trim_blank(s@),
{
    let len = s.unicode_len();
    let mut a: usize = 0;
    assert(s@.subrange(0, len as int) =~= s@);
    while a < len && blank(s.get_char(a))
        invariant
            len == s@.len(),
            a <= len,
            trim_start(s@) == trim_start(s@.subrange(a as int, len as int)),
        decreases len - a,
    {
        assert(s@.subrange(a as int, len as int).drop_first() =~= s@.subrange(a + 1, len as int));
        a = a + 1;
    }
    assert(trim_start(s@) == s@.subrange(a as int, len as int));
    let mut b: usize = len;
    while b > a && blank(s.get_char(b - 1))
        invariant
            len == s@.len(),
            a <= b <= len,
            trim_blank(s@) == trim_end(s@.subrange(a as int, b as int)),
        decreases b,
    {
        assert(s@.subrange(a as int, b as int).drop_last() =~= s@.subrange(a as int, b - 1));
        b = b - 1;
    }
    s.substring_char(a, b)
}

/// Splits `START:END` at its first `:` and reads both addresses as
/// (column, row), 1-based.
pub fn parse_range(args: &str) -> (r: Option<(usize, usize, usize, usize)>)
    ensures
        r.is_some() ==> ({
            let (c1, r1, c2, r2) = r.unwrap();
            &&& range_names(args@, c1 as int, r1 as int, c2 as int, r2 as int)
            &&& c1 >= 1 && r1 >= 1 && c2 >= 1 && r2 >= 1
        }),
        r.is_none() ==> forall|c1: int, r1: int, c2: int, r2: int|
            range_names(args@, c1, r1, c2, r2) ==> !(fits(c1) && fits(r1) && fits(c2) && fits(r2)),
{
    let len = args.unicode_len();
    let q = match find_char(args, ':') {
        Some(q) => q,
        None => {
            return None;
        },
    };
    let start = args.substring_char(0, q);
    let end = args.substring_char(q + 1, len);
    let first = parse_address(start);
    let second = parse_address(end);
    proof {
        assert forall|c1: int, r1: int, c2: int, r2: int|
            range_names(args@, c1, r1, c2, r2) implies names_cell(start@, c1, r1) && names_cell(
            end@,
            c2,
            r2,
        ) by {
            let p = choose|p: int|
                first_at(args@, ':', p) && names_cell(args@.subrange(0, p), c1, r1) && names_cell(
                    args@.subrange(p + 1, args@.len() as int),
                    c2,
                    r2,
                );
            assert(p == q);
        }
    }
    match (first, second) {
        (Some((c1, r1)), Some((c2, r2))) => {
            assert(first_at(args@, ':', q as int));
            Some((c1, r1, c2, r2))
        },
        _ => None,
    }
}

proof fn lemma_row_major(i: int, j: int, w: int)
    requires
        0 <= j < w,
        0 <= i,
    ensures
        (i * w + j) / w == i,
        (i * w + j) % w == j,
{
    lemma_fundamental_div_mod_converse_div(i * w + j, w, i, j);
    lemma_fundamental_div_mod_converse_mod(i * w + j, w, i, j);
}

/// The addresses of the rectangle spanned by two 1-based corners, in
/// row-major order.
pub fn expand_range(c1: usize, r1: usize, c2: usize, r2: usize) -> (r: Vec<String>)
    requires
        c1 >= 1,
        r1 >= 1,
        c2 >= 1,
        r2 >= 1,
    ensures
        views(r@) == range_cells(c1 as int, r1 as int, c2 as int, r2 as int),
        r@.len() == range_cells(c1 as int, r1 as int, c2 as int, r2 as int).len(),
        r@.len() >= 1,
{
    let lc = if c1 <= c2 { c1 } else { c2 };
    let hc = if c1 <= c2 { c2 } else { c1 };
    let lr = if r1 <= r2 { r1 } else { r2 };
    let hr = if r1 <= r2 { r2 } else { r1 };
    let w: usize = hc - lc + 1;
    let h: usize = hr - lr + 1;
    let ghost target = range_cells(c1 as int, r1 as int, c2 as int, r2 as int);
    let mut cells: Vec<String> = Vec::new();
    let mut i: usize = 0;
    while i < h
        invariant
            w == hc - lc + 1,
            h == hr - lr + 1,
            lc >= 1,
            lr >= 1,
            target == range_cells(c1 as int, r1 as int, c2 as int, r2 as int),
            lc == spec_min(c1 as int, c2 as int),
            hc == spec_max(c1 as int, c2 as int),
            lr == spec_min(r1 as int, r2 as int),
            hr == spec_max(r1 as int, r2 as int),
            i <= h,
            cells@.len() == i * w,
            forall|k: int| 0 <= k < cells@.len() ==> (#[trigger] cells@[k])@ == target[k],
        decreases h - i,
    {
        let mut j: usize = 0;
        while j < w
            invariant
                w == hc - lc + 1,
                h == hr - lr + 1,
                lc >= 1,
                lr >= 1,
                target == range_cells(c1 as int, r1 as int, c2 as int, r2 as int),
                lc == spec_min(c1 as int, c2 as int),
                hc == spec_max(c1 as int, c2 as int),
                lr == spec_min(r1 as int, r2 as int),
                hr == spec_max(r1 as int, r2 as int),
                i < h,
                j <= w,
                cells@.len() == i * w + j,
                forall|k: int| 0 <= k < cells@.len() ==> (#[trigger] cells@[k])@ == target[k],
            decreases w - j,
        {
            let a = cell_address(lc + j, lr + i);
            proof {
                lemma_row_major(i as int, j as int, w as int);
                assert(i * w + j < h * w) by (nonlinear_arith)
                    requires
                        i < h,
                        j < w,
                ;
                assert(target[i * w + j] == address((lc + j) as nat, (lr + i) as nat));
            }
            cells.push(a);
            j = j + 1;
        }
        assert((i + 1) * w == i * w + w) by (nonlinear_arith);
        i = i + 1;
    }
    assert(w * h >= 1 && h * w == w * h) by (nonlinear_arith)
        requires
            w >= 1,
            h >= 1,
    ;
    assert(target.len() == w * h);
    assert(views(cells@) =~= target);
    cells
}

/// Some corners that `args` names as `START:END` fit the machine's numbers.
pub open spec fn has_range(args: Seq<char>) -> bool {
    exists|c1: int, r1: int, c2: int, r2: int|
        range_names(args, c1, r1, c2, r2) && fits(c1) && fits(r1) && fits(c2) && fits(r2)
}

/// `r` is the plan for a call of `name` on `args`.
pub open spec fn call_plan(name: Seq<char>, args: Seq<char>, r: Result<FormulaPlan, FormulaError>) -> bool {
    match function_named(name) {
        None => r == Err::<FormulaPlan, FormulaError>(FormulaError::UnknownFunction),
        Some(f) => if has_range(args) {
            &&& r is Ok
            &&& r->Ok_0 is Over
            &&& r->Ok_0->Over_0 == f
            &&& exists|c1: int, r1: int, c2: int, r2: int|
                range_names(args, c1, r1, c2, r2) && views(r->Ok_0->Over_1@) == range_cells(
                    c1,
                    r1,
                    c2,
                    r2,
                )
        } else {
            r == Err::<FormulaPlan, FormulaError>(FormulaError::MalformedArguments)
        },
    }
}

/// `r` is the plan for the formula `formula`: a call where the trimmed
/// text is `NAME(ARGS)`, else the trimmed text as a single token.
pub open spec fn formula_plan(formula: Seq<char>, r: Result<FormulaPlan, FormulaError>) -> bool {
    let t = trim_blank(formula);
    if is_call(t) {
        let p = choose|p: int| call_at(t, p);
        call_plan(t.subrange(0, p), t.subrange(p + 1, t.len() - 1), r)
    } else {
        &&& r is Ok
        &&& r->Ok_0 is Token
        &&& r->Ok_0->Token_0@ == t
    }
}

/// Plans the evaluation of `formula`: a single token to resolve, or the
/// aggregate and the cells of its range. Fails on an unknown function name
/// or an argument that is not a range of two addresses.
pub fn parse_formula(formula: &str) -> (r: Result<FormulaPlan, FormulaError>)
    ensures
        formula_plan(formula@, r),
{
    let t = trim_formula(formula);
    let len = t.unicode_len();
    if len >= 2 && t.get_char(len - 1) == ')' {
        if let Some(p) = find_char(t, '(') {
            proof {
                assert(call_at(t@, p as int));
                let p2 = choose|p2: int| call_at(t@, p2);
                assert(p2 == p) by {
                    if p2 < p {
                        assert(t@[p2] != '(');
                    } else if p < p2 {
                        assert(t@[p as int] != '(');
                    }
                }
            }
            let name = String::from_str(t.substring_char(0, p));
            let args = t.substring_char(p + 1, len - 1);
            let f = if name == String::from_str("SUM") {
                Aggregate::Sum
            } else if name == String::from_str("AVERAGE") {
                Aggregate::Average
            } else {
                return Err(FormulaError::UnknownFunction);
            };
            return match parse_range(args) {
                Some((c1, r1, c2, r2)) => {
                    let cells = expand_range(c1, r1, c2, r2);
                    assert(fits(c1 as int) && fits(r1 as int) && fits(c2 as int) && fits(r2 as int));
                    Ok(FormulaPlan::Over(f, cells))
                },
                None => Err(FormulaError::MalformedArguments),
            };
        }
    }
    Ok(FormulaPlan::Token(String::from_str(t)))
}

} // verus!
