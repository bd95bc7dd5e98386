//! Optical recognition of seven-segment digits drawn with pipes and
//! underscores: the input is a grid of rows, four text lines per row and
//! three columns per cell; each cell is read as a digit, an unrecognised
//! cell as a question mark, and rows are joined with commas.

use vstd::prelude::*;

verus! {

use vstd::string::*;
use crate::decimal::{digit_char, digit_str};
use crate::grep::{spec_split_lines, split_lines, str_eq};

#[derive(Debug, PartialEq, Eq, Structural)]
pub enum Error {
    InvalidRowCount(usize),
    InvalidColumnCount(usize),
}

/// The number of text lines that make up one row of cells.
pub open spec fn cell_rows() -> int {
    4
}

/// The number of columns that make up one cell.
pub open spec fn cell_cols() -> int {
    3
}

/// The drawing of digit `d`: four three-column lines joined by newlines.
pub open spec fn pattern_of(d: int) -> Seq<char> {
    if d == 0 {
        " _ \n| |\n|_|\n   "@
    } else if d == 1 {
        "   \n  |\n  |\n   "@
    } else if d == 2 {
        " _ \n _|\n|_ \n   "@
    } else if d == 3 {
        " _ \n _|\n _|\n   "@
    } else if d == 4 {
        "   \n|_|\n  |\n   "@
    } else if d == 5 {
        " _ \n|_ \n _|\n   "@
    } else if d == 6 {
        " _ \n|_ \n|_|\n   "@
    } else if d == 7 {
        " _ \n  |\n  |\n   "@
    } else if d == 8 {
        " _ \n|_|\n|_|\n   "@
    } else {
        " _ \n|_|\n _|\n   "@
    }
}

fn digit_pattern(d: usize) -> (r: &'static str)
    requires
        d < 10,
    ensures
        r@ == pattern_of(d as int),
{
    match d {
        0 => " _ \n| |\n|_|\n   ",
        1 => "   \n  |\n  |\n   ",
        2 => " _ \n _|\n|_ \n   ",
        3 => " _ \n _|\n _|\n   ",
        4 => "   \n|_|\n  |\n   ",
        5 => " _ \n|_ \n _|\n   ",
        6 => " _ \n|_ \n|_|\n   ",
        7 => " _ \n  |\n  |\n   ",
        8 => " _ \n|_|\n|_|\n   ",
        _ => " _ \n|_|\n _|\n   ",
    }
}

/// The smallest digit whose drawing is `s`, or 10 when no digit's drawing
/// is, scanning upward from `d`.
pub open spec fn first_digit_match(s: Seq<char>, d: int) -> int
    decreases 10 - d,
{
    if d < 0 || d >= 10 {
        10
    } else if s == pattern_of(d) {
        d
    } else {
        first_digit_match(s, d + 1)
    }
}

/// The character a cell is read as: the digit it draws, else '?'.
pub open spec fn spec_to_number(s: Seq<char>) -> Seq<char> {
    let d = first_digit_match(s, 0);
    if d == 10 {
        "?"@
    } else {
        seq![digit_char(d as nat)]
    }
}

pub fn to_number(s: &str) -> (r: String)
    ensures
        r@ == spec_to_number(s@),
{
    let mut d: usize = 0;
    while d < 10
        invariant
            d <= 10,
            first_digit_match(s@, 0) == first_digit_match(s@, d as int),
            forall|dd: int| 0 <= dd < d ==> s@ != pattern_of(dd),
        decreases 10 - d,
    {
        if str_eq(s, digit_pattern(d)) {
            return String::from_str(digit_str(d as u64));
        }
        d += 1;
    }
    proof {
        reveal_strlit("?");
    }
    String::from_str("?")
}

/// The drawing of the cell at index `li` in a four-line row: the three
/// columns starting at `3 * li` of each line, joined by newlines.
pub open spec fn spec_letter_at(rows: Seq<Seq<char>>, li: int) -> Seq<char> {
    rows[0].subrange(3 * li, 3 * li + 3) + seq!['\n'] + rows[1].subrange(3 * li, 3 * li + 3)
        + seq!['\n'] + rows[2].subrange(3 * li, 3 * li + 3) + seq!['\n'] + rows[3].subrange(
        3 * li,
        3 * li + 3,
    )
}

pub fn extract_letter_by_ind(row: &[String], letter_ind: usize) -> (r: String)
    requires
        row@.len() == cell_rows(),
        3 * letter_ind + 3 <= usize::MAX,
        forall|i: int| 0 <= i < row@.len() ==> 3 * letter_ind + 3 <= (#[trigger] row@[i])@.len(),
    ensures
        r@ == spec_letter_at(row.deep_view(), letter_ind as int),
{
    proof {
        reveal_strlit("\n");
    }
    let start = 3 * letter_ind;
    let mut s = String::new();
    let p0 = row[0].as_str().substring_char(start, start + 3);
    s.append(p0);
    s.append("\n");
    let p1 = row[1].as_str().substring_char(start, start + 3);
    s.append(p1);
    s.append("\n");
    let p2 = row[2].as_str().substring_char(start, start + 3);
    s.append(p2);
    s.append("\n");
    let p3 = row[3].as_str().substring_char(start, start + 3);
    s.append(p3);
    proof {
        assert(s@ =~= spec_letter_at(row.deep_view(), letter_ind as int));
    }
    s
}

/// The digits read from the first `nletters` cells of a four-line row,
/// left to right.
pub open spec fn spec_row_digits(rows: Seq<Seq<char>>, nletters: int) -> Seq<char>
    decreases nletters,
{
    if nletters <= 0 {
        Seq::empty()
    } else {
        spec_row_digits(rows, nletters - 1) + spec_to_number(spec_letter_at(rows, nletters - 1))
    }
}

/// The digits read from a four-line row; the line width of the first line
/// fixes how many cells are read.
pub open spec fn spec_transform_row(rows: Seq<Seq<char>>) -> Seq<char> {
    spec_row_digits(rows, rows[0].len() as int / cell_cols())
}

pub fn transform_row(row: &[String]) -> (r: String)
    requires
        row@.len() == cell_rows(),
        forall|i: int|
            0 <= i < row@.len() ==> 3 * ((row@[0])@.len() as int / 3) <= (#[trigger] row@[i])@.len(),
    ensures
        r@ == spec_transform_row(row.deep_view()),
{
    let width = row[0].as_str().unicode_len();
    let number_of_letters = width / 3;
    let mut s = String::new();
    let mut li: usize = 0;
    while li < number_of_letters
        invariant
            row@.len() == cell_rows(),
            forall|i: int|
                0 <= i < row@.len() ==> 3 * ((row@[0])@.len() as int / 3) <= (#[trigger] row@[i])@.len(),
            number_of_letters == (row@[0])@.len() as int / 3,
            (row@[0])@.len() <= usize::MAX,
            li <= number_of_letters,
            s@ == spec_row_digits(row.deep_view(), li as int),
        decreases number_of_letters - li,
    {
        proof {
            assert(3 * ((row@[0])@.len() as int / 3) <= (row@[0])@.len());
            assert(3 * (li as int) + 3 <= 3 * number_of_letters as int);
        }
        let letter = extract_letter_by_ind(row, li);
        let digit = to_number(letter.as_str());
        s.append(digit.as_str());
        li += 1;
    }
    s
}

/// Every row group of `lines` is wide enough for slicing: within each
/// four-line group, no line is shorter than the cells read from the
/// group's first line.
pub open spec fn rows_wide_enough(lines: Seq<Seq<char>>) -> bool {
    forall|g: int, i: int|
        0 <= g < lines.len() / 4 && 0 <= i < 4 ==> 3 * ((#[trigger] lines[4 * g]).len() as int / 3)
            <= (#[trigger] lines[4 * g + i]).len()
}

/// The digit strings of the first `g` row groups, joined by commas.
pub open spec fn spec_groups_upto(lines: Seq<Seq<char>>, g: int) -> Seq<char>
    decreases g,
{
    if g <= 0 {
        Seq::empty()
    } else if g == 1 {
        spec_transform_row(lines.subrange(0, 4))
    } else {
        spec_groups_upto(lines, g - 1) + seq![','] + spec_transform_row(
            lines.subrange(4 * (g - 1), 4 * g),
        )
    }
}

/// The whole grid read as text: one digit string per four-line group, in
/// order, joined by commas.
pub open spec fn spec_transform_input(content: Seq<char>) -> Seq<char> {
    let lines = spec_split_lines(content);
    spec_groups_upto(lines, lines.len() as int / 4)
}

pub fn transform_input(input: &str) -> (r: String)
    requires
        rows_wide_enough(spec_split_lines(input@)),
    ensures
        r@ == spec_transform_input(input@),
{
    proof {
        reveal_strlit(",");
    }
    let rows = split_lines(input);
    let n = rows.len();
    let number_of_rows = n / 4;
    let mut s = String::new();
    let mut g: usize = 0;
    while g < number_of_rows
        invariant
            n == rows@.len(),
            rows.deep_view() == spec_split_lines(input@),
            rows_wide_enough(rows.deep_view()),
            number_of_rows == n as int / 4,
            n <= usize::MAX,
            g <= number_of_rows,
            s@ == spec_groups_upto(rows.deep_view(), g as int),
        decreases number_of_rows - g,
    {
        proof {
            reveal_strlit(",");
            assert(4 * (number_of_rows as int) <= n as int);
        }
        let chunk: &[String] = &rows.as_slice()[4 * g..4 * g + 4];
        proof {
            assert(chunk.deep_view() =~~= rows.deep_view().subrange(4 * g as int, 4 * g as int + 4));
            assert(chunk@[0] == rows@[4 * g as int]);
            assert forall|i: int| 0 <= i < chunk@.len() implies 3 * ((chunk@[0])@.len() as int / 3)
                <= (#[trigger] chunk@[i])@.len() by {
                assert(chunk@[i] == rows@[4 * g as int + i]);
                assert(3 * ((rows.deep_view()[4 * (g as int)]).len() as int / 3) <= (
                rows.deep_view()[4 * (g as int) + i]).len());
            }
        }
        let part = transform_row(chunk);
        if g > 0 {
            s.append(",");
        }
        s.append(part.as_str());
        g += 1;
    }
    s
}

/// The index of the first line whose width is not a whole number of cells,
/// scanning from `i`, or -1 when every line's is.
pub open spec fn first_bad_col(lines: Seq<Seq<char>>, i: int) -> int
    decreases lines.len() - i,
{
    if i < 0 || i >= lines.len() {
        -1
    } else if lines[i].len() as int % 3 != 0 {
        i
    } else {
        first_bad_col(lines, i + 1)
    }
}

/// The number of lines divides into whole four-line groups.
pub open spec fn spec_rows_valid(content: Seq<char>) -> bool {
    spec_split_lines(content).len() as int % 4 == 0
}

pub fn validate_rows(input: &str) -> (r: Option<Error>)
    ensures
        r is None <==> spec_rows_valid(input@),
        !spec_rows_valid(input@) ==> r == Some(
            Error::InvalidRowCount(spec_split_lines(input@).len() as usize),
        ),
{
    let rows = split_lines(input);
    proof {
        assert(rows@.len() == spec_split_lines(input@).len());
    }
    if rows.len() % 4 == 0 {
        None
    } else {
        Some(Error::InvalidRowCount(rows.len()))
    }
}

pub fn validate_cols(input: &str) -> (r: Option<Error>)
    ensures
        r is None <==> first_bad_col(spec_split_lines(input@), 0) == -1,
        first_bad_col(spec_split_lines(input@), 0) >= 0 ==> r == Some(
            Error::InvalidColumnCount(
                spec_split_lines(input@)[first_bad_col(spec_split_lines(input@), 0)].len() as usize,
            ),
        ),
{
    let rows = split_lines(input);
    let n = rows.len();
    let mut i: usize = 0;
    while i < n
        invariant
            n == rows@.len(),
            rows.deep_view() == spec_split_lines(input@),
            i <= n,
            first_bad_col(rows.deep_view(), 0) == first_bad_col(rows.deep_view(), i as int),
            forall|j: int| 0 <= j < i ==> (#[trigger] rows.deep_view()[j]).len() as int % 3 == 0,
        decreases n - i,
    {
        let w = rows[i].as_str().unicode_len();
        if w % 3 != 0 {
            return Some(Error::InvalidColumnCount(w));
        }
        i += 1;
    }
    None
}

pub fn validate_input(input: &str) -> (r: Option<Error>)
    ensures
        r is None <==> (spec_rows_valid(input@) && first_bad_col(spec_split_lines(input@), 0)
            == -1),
        !spec_rows_valid(input@) ==> r == Some(
            Error::InvalidRowCount(spec_split_lines(input@).len() as usize),
        ),
        spec_rows_valid(input@) && first_bad_col(spec_split_lines(input@), 0) >= 0 ==> r == Some(
            Error::InvalidColumnCount(
                spec_split_lines(input@)[first_bad_col(spec_split_lines(input@), 0)].len() as usize,
            ),
        ),
{
    match validate_rows(input) {
        Some(e) => Some(e),
        None => validate_cols(input),
    }
}

/// Read a grid of seven-segment cells. The grid is rejected when its line
/// count is not a multiple of four, or some line's width is not a multiple
/// of three; otherwise every four-line group is read cell by cell.
pub fn convert(input: &str) -> (r: Result<String, Error>)
    requires
        spec_rows_valid(input@) && first_bad_col(spec_split_lines(input@), 0) == -1
            ==> rows_wide_enough(spec_split_lines(input@)),
    ensures
        spec_rows_valid(input@) && first_bad_col(spec_split_lines(input@), 0) == -1 ==> (r
            matches Ok(s) && s@ == spec_transform_input(input@)),
        !spec_rows_valid(input@) ==> r == Result::<String, Error>::Err(
            Error::InvalidRowCount(spec_split_lines(input@).len() as usize),
        ),
        spec_rows_valid(input@) && first_bad_col(spec_split_lines(input@), 0) >= 0 ==> r
            == Result::<String, Error>::Err(
            Error::InvalidColumnCount(
                spec_split_lines(input@)[first_bad_col(spec_split_lines(input@), 0)].len() as usize,
            ),
        ),
{
    match validate_input(input) {
        None => Ok(transform_input(input)),
        Some(err) => Err(err),
    }
}

} // verus!
