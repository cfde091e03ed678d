//! The table that the client shows for a result.
//!
//! Every cell becomes a text. A column is as wide as the longest of its
//! texts, measured in bytes of UTF-8. A row becomes one line: its texts, each
//! filled up with spaces on the right until it has as many characters as its
//! column is wide, with `|` between them.
//!
//! The text of a floating-point cell is not made here: the caller hands in
//! the function that formats the number behind 64 bits.

use crate::model::{QueryResult, TypedValue, ValueModel};
use crate::text::string_from_utf8;
use vstd::prelude::*;
use vstd::slice::slice_to_vec;
use vstd::string::{StrSliceExecFns, StringExecFns};
use vstd::utf8::{decode_utf8, encode_utf8, valid_utf8};

verus! {

/// Why a result could not be shown.
#[derive(Debug, Clone, Copy, PartialEq, Eq, Structural)]
pub enum RenderError {
    /// A blob is shown as the text that its bytes encode, and the bytes of
    /// one blob are not UTF-8.
    BlobNotText,
}

/// The digit `d` as a character.
pub open spec fn digit_char(d: int) -> char {
    if d == 0 {
        '0'
    } else if d == 1 {
        '1'
    } else if d == 2 {
        '2'
    } else if d == 3 {
        '3'
    } else if d == 4 {
        '4'
    } else if d == 5 {
        '5'
    } else if d == 6 {
        '6'
    } else if d == 7 {
        '7'
    } else if d == 8 {
        '8'
    } else {
        '9'
    }
}

/// The decimal digits of `n`, without leading zeros.
pub open spec fn natural_text(n: nat) -> Seq<char>
    decreases n,
{
    if n < 10 {
        seq![digit_char(n as int)]
    } else {
        natural_text(n / 10).push(digit_char((n % 10) as int))
    }
}

/// The decimal text of `i`: a minus sign if it is negative, then its digits.
pub open spec fn decimal_text(i: int) -> Seq<char> {
    if i < 0 {
        seq!['-'] + natural_text((-i) as nat)
    } else {
        natural_text(i as nat)
    }
}

/// The line shown for a result without rows.
pub open spec fn placeholder() -> Seq<char> {
    "(empty result set)\n"@
}

/// Whether `text` is the text of a cell that holds `value`, where
/// `float_text` formats floating-point numbers.
pub open spec fn is_cell_text<F: Fn(u64) -> String>(
    float_text: F,
    value: ValueModel,
    text: String,
) -> bool {
    match value {
        ValueModel::Null => text@ == "NULL"@,
        ValueModel::Integer(i) => text@ == decimal_text(i as int),
        ValueModel::Float(bits) => call_ensures(float_text, (bits,), text),
        ValueModel::Text(t) => text@ == t,
        ValueModel::Blob(bytes) => valid_utf8(bytes) && text@ == decode_utf8(bytes),
    }
}

/// Whether a cell has a text: every cell but a blob that is not UTF-8.
pub open spec fn has_text(value: ValueModel) -> bool {
    match value {
        ValueModel::Blob(bytes) => valid_utf8(bytes),
        _ => true,
    }
}

/// Whether every cell of the rows has a text.
pub open spec fn all_have_text(rows: Seq<Seq<ValueModel>>) -> bool {
    forall|r: int, c: int|
        0 <= r < rows.len() && 0 <= c < rows[r].len() ==> has_text(#[trigger] rows[r][c])
}

/// Whether `texts` are the texts of the cells of `rows`, cell by cell.
pub open spec fn are_cell_texts<F: Fn(u64) -> String>(
    float_text: F,
    rows: Seq<Seq<ValueModel>>,
    texts: Seq<Vec<String>>,
) -> bool {
    &&& texts.len() == rows.len()
    &&& forall|r: int| 0 <= r < rows.len() ==> (#[trigger] texts[r]).len() == rows[r].len()
    &&& forall|r: int, c: int|
        0 <= r < rows.len() && 0 <= c < rows[r].len() ==> is_cell_text(
            float_text,
            rows[r][c],
            #[trigger] texts[r][c],
        )
}

/// The width of a text: the number of bytes of its UTF-8 encoding.
pub open spec fn text_width(text: Seq<char>) -> nat {
    encode_utf8(text).len()
}

/// The width of a column: the largest width of its texts, 0 without rows.
pub open spec fn column_width(cells: Seq<Seq<Seq<char>>>, column: int) -> nat
    decreases cells.len(),
{
    if cells.len() == 0 {
        0
    } else {
        let above = column_width(cells.drop_last(), column);
        let here = text_width(cells.last()[column]);
        if here > above {
            here
        } else {
            above
        }
    }
}

/// `count` spaces.
pub open spec fn spaces(count: nat) -> Seq<char> {
    Seq::new(count, |i: int| ' ')
}

/// The text filled up with spaces on the right until it has `width`
/// characters; a text that has more is left as it is.
pub open spec fn padded(text: Seq<char>, width: nat) -> Seq<char> {
    if text.len() < width {
        text + spaces((width - text.len()) as nat)
    } else {
        text
    }
}

/// The first `count` cells of a line: each text padded to the width of its
/// column, with `|` before every cell but the first.
pub open spec fn line_start(cells: Seq<Seq<Seq<char>>>, row: int, count: nat) -> Seq<char>
    decreases count,
{
    if count == 0 {
        Seq::empty()
    } else {
        let column = count - 1;
        let bar = if column > 0 {
            seq!['|']
        } else {
            Seq::empty()
        };
        line_start(cells, row, column as nat) + bar + padded(
            cells[row][column],
            column_width(cells, column),
        )
    }
}

/// The line of one row, with the line feed that ends it.
pub open spec fn line(cells: Seq<Seq<Seq<char>>>, row: int) -> Seq<char> {
    line_start(cells, row, cells[row].len()) + seq!['\n']
}

/// The lines of the first `count` rows.
pub open spec fn table_start(cells: Seq<Seq<Seq<char>>>, count: nat) -> Seq<char>
    decreases count,
{
    if count == 0 {
        Seq::empty()
    } else {
        table_start(cells, (count - 1) as nat) + line(cells, count - 1)
    }
}

/// The table: one line for each row.
pub open spec fn table_text(cells: Seq<Seq<Seq<char>>>) -> Seq<char> {
    table_start(cells, cells.len())
}

/// Whether all rows have as many cells as the first.
pub open spec fn is_rectangular(cells: Seq<Seq<Seq<char>>>) -> bool {
    forall|r: int| 0 <= r < cells.len() ==> (#[trigger] cells[r]).len() == cells[0].len()
}

/// One decimal digit as a text.
fn digit_text(d: u64) -> (text: &'static str)
    requires
        d < 10,
    ensures
        text@ == seq![digit_char(d as int)],
{
    proof {
        reveal_strlit("0");
        reveal_strlit("1");
        reveal_strlit("2");
        reveal_strlit("3");
        reveal_strlit("4");
        reveal_strlit("5");
        reveal_strlit("6");
        reveal_strlit("7");
        reveal_strlit("8");
        reveal_strlit("9");
    }
    let text = if d == 0 {
        "0"
    } else if d == 1 {
        "1"
    } else if d == 2 {
        "2"
    } else if d == 3 {
        "3"
    } else if d == 4 {
        "4"
    } else if d == 5 {
        "5"
    } else if d == 6 {
        "6"
    } else if d == 7 {
        "7"
    } else if d == 8 {
        "8"
    } else {
        "9"
    };
    assert(text@ =~= seq![digit_char(d as int)]);
    text
}

/// Appends the decimal digits of `n`.
fn push_natural(out: &mut String, n: u64)
    ensures
        final(out)@ == old(out)@ + natural_text(n as nat),
    decreases n,
{
    if n >= 10 {
        push_natural(out, n / 10);
    }
    out.append(digit_text(n % 10));
    proof {
        if n >= 10 {
            assert(old(out)@ + natural_text((n / 10) as nat) + seq![digit_char((n % 10) as int)]
                =~= old(out)@ + natural_text(n as nat));
        } else {
            assert(old(out)@ + seq![digit_char((n % 10) as int)] =~= old(out)@ + natural_text(
                n as nat,
            ));
        }
    }
}

/// The decimal text of a signed integer.
pub fn integer_text(i: i64) -> (text: String)
    ensures
        text@ == decimal_text(i as int),
{
    let mut text = String::new();
    if i < 0 {
        proof {
            reveal_strlit("-");
        }
        text.append("-");
        let magnitude: u64 = (-(i + 1)) as u64 + 1;
        push_natural(&mut text, magnitude);
        assert(text@ =~= decimal_text(i as int));
    } else {
        push_natural(&mut text, i as u64);
        assert(text@ =~= decimal_text(i as int));
    }
    text
}

/// The text of one cell: `NULL` for no value, the decimal text of an
/// integer, what `float_text` makes of the bits of a floating-point number,
/// a text as it is, and for a blob the text that its bytes encode.
///
/// It fails exactly on a blob that is not UTF-8.
pub fn cell_text<F>(value: &TypedValue, float_text: &F) -> (out: Result<
    String,
    RenderError,
>) where F: Fn(u64) -> String
    requires
        forall|bits: u64| call_requires(*float_text, (bits,)),
    ensures
        out is Ok <==> has_text(value@),
        out matches Ok(text) ==> is_cell_text(*float_text, value@, text),
{
    match value {
        TypedValue::Null => {
            let text = String::from_str("NULL");
            Ok(text)
        },
        TypedValue::Integer(i) => Ok(integer_text(*i)),
        TypedValue::Float(bits) => Ok(float_text(*bits)),
        TypedValue::Text(text) => Ok(text.clone()),
        TypedValue::Blob(bytes) => match string_from_utf8(slice_to_vec(bytes.as_slice())) {
            Some(text) => Ok(text),
            None => Err(RenderError::BlobNotText),
        },
    }
}

/// The texts of the cells of one row.
fn row_texts<F>(row: &Vec<TypedValue>, float_text: &F) -> (out: Result<
    Vec<String>,
    RenderError,
>) where F: Fn(u64) -> String
    requires
        forall|bits: u64| call_requires(*float_text, (bits,)),
    ensures
        out is Ok <==> (forall|c: int| 0 <= c < row.len() ==> has_text(#[trigger] row[c]@)),
        out matches Ok(texts) ==> texts.len() == row.len() && forall|c: int|
            0 <= c < row.len() ==> is_cell_text(*float_text, row[c]@, #[trigger] texts[c]),
{
    let mut texts: Vec<String> = Vec::new();
    let mut c: usize = 0;
    while c < row.len()
        invariant
            c <= row.len(),
            texts.len() == c,
            forall|bits: u64| call_requires(*float_text, (bits,)),
            forall|k: int| 0 <= k < c ==> has_text(#[trigger] row[k]@),
            forall|k: int| 0 <= k < c ==> is_cell_text(*float_text, row[k]@, #[trigger] texts[k]),
        decreases row.len() - c,
    {
        match cell_text(&row[c], float_text) {
            Ok(text) => {
                texts.push(text);
            },
            Err(e) => {
                assert(!has_text(row[c as int]@));
                return Err(e);
            },
        }
        c = c + 1;
    }
    Ok(texts)
}

/// The texts of the cells of a result, row by row.
///
/// It fails exactly where a blob among the cells is not UTF-8.
pub fn cell_texts<F>(rows: &Vec<Vec<TypedValue>>, float_text: &F) -> (out: Result<
    Vec<Vec<String>>,
    RenderError,
>) where F: Fn(u64) -> String
    requires
        forall|bits: u64| call_requires(*float_text, (bits,)),
    ensures
        out is Ok <==> all_have_text(rows.deep_view()),
        out matches Ok(texts) ==> are_cell_texts(*float_text, rows.deep_view(), texts@),
{
    let mut texts: Vec<Vec<String>> = Vec::new();
    let mut r: usize = 0;
    while r < rows.len()
        invariant
            r <= rows.len(),
            texts.len() == r,
            forall|bits: u64| call_requires(*float_text, (bits,)),
            forall|k: int, c: int|
                0 <= k < r && 0 <= c < rows[k].len() ==> has_text(#[trigger] rows[k][c]@),
            forall|k: int| 0 <= k < r ==> (#[trigger] texts[k]).len() == rows[k].len(),
            forall|k: int, c: int|
                0 <= k < r && 0 <= c < rows[k].len() ==> is_cell_text(
                    *float_text,
                    rows[k][c]@,
                    #[trigger] texts[k][c],
                ),
        decreases rows.len() - r,
    {
        match row_texts(&rows[r], float_text) {
            Ok(row) => {
                texts.push(row);
            },
            Err(e) => {
                proof {
                    let c = choose|c: int| 0 <= c < rows[r as int].len() && !has_text(#[trigger] rows[r as int][c]@);
                    assert(rows.deep_view()[r as int][c] == rows[r as int][c]@);
                    assert(!has_text(rows.deep_view()[r as int][c]));
                }
                return Err(e);
            },
        }
        r = r + 1;
    }
    proof {
        let model = rows.deep_view();
        assert forall|k: int, c: int| 0 <= k < model.len() && 0 <= c < model[k].len() implies has_text(
            #[trigger] model[k][c],
        ) by {
            assert(model[k][c] == rows[k][c]@);
        }
        assert forall|k: int| 0 <= k < model.len() implies (#[trigger] texts@[k]).len()
            == model[k].len() by {
            assert(texts[k].len() == rows[k].len());
        }
        assert forall|k: int, c: int| 0 <= k < model.len() && 0 <= c < model[k].len() implies is_cell_text(
            *float_text,
            model[k][c],
            #[trigger] texts@[k][c],
        ) by {
            assert(model[k][c] == rows[k][c]@);
            assert(is_cell_text(*float_text, rows[k][c]@, texts[k][c]));
        }
    }
    Ok(texts)
}

/// The width of one column: the largest number of bytes that one of its
/// texts has.
fn measure_column(cells: &Vec<Vec<String>>, column: usize) -> (width: usize)
    requires
        is_rectangular(cells.deep_view()),
        cells.len() > 0,
        column < cells[0].len(),
    ensures
        width == column_width(cells.deep_view(), column as int),
{
    let ghost all = cells.deep_view();
    let mut width: usize = 0;
    let mut r: usize = 0;
    assert(all.take(0) =~= Seq::empty());
    while r < cells.len()
        invariant
            r <= cells.len(),
            all == cells.deep_view(),
            is_rectangular(all),
            cells.len() > 0,
            column < cells[0].len(),
            width == column_width(all.take(r as int), column as int),
        decreases cells.len() - r,
    {
        assert(all[r as int].len() == all[0].len());
        assert(all[0].len() == cells[0].len());
        let here: usize = cells[r][column].as_str().as_bytes().len();
        proof {
            assert(all.take(r + 1).drop_last() =~= all.take(r as int));
            assert(all.take(r + 1).last() == all[r as int]);
            assert(all[r as int][column as int] == cells[r as int][column as int]@);
        }
        if here > width {
            width = here;
        }
        r = r + 1;
    }
    assert(all.take(r as int) =~= all);
    width
}

/// Appends `count` spaces.
fn push_spaces(out: &mut String, count: usize)
    ensures
        final(out)@ == old(out)@ + spaces(count as nat),
{
    let mut done: usize = 0;
    assert(out@ + spaces(0) =~= out@);
    while done < count
        invariant
            done <= count,
            out@ == old(out)@ + spaces(done as nat),
        decreases count - done,
    {
        proof {
            reveal_strlit(" ");
        }
        out.append(" ");
        done = done + 1;
        assert(out@ =~= old(out)@ + spaces(done as nat));
    }
}

/// Appends a text, filled up with spaces on the right to `width` characters.
fn push_padded(out: &mut String, text: &String, width: usize)
    ensures
        final(out)@ == old(out)@ + padded(text@, width as nat),
{
    out.append(text.as_str());
    let chars: usize = text.as_str().unicode_len();
    if chars < width {
        push_spaces(out, width - chars);
        assert(out@ =~= old(out)@ + padded(text@, width as nat));
    }
}

/// Lays out the texts of the cells of a result as a table.
///
/// Every row becomes one line, ended by a line feed. In a line the texts
/// stand in the order of the columns with `|` between them. Each text, the
/// last of a line too, is filled up with spaces on the right until it has as
/// many characters as its column is wide; a column is as wide as the longest
/// of its texts is in bytes of UTF-8. All rows must have as many texts as
/// the first.
pub fn render_table(cells: &Vec<Vec<String>>) -> (out: String)
    requires
        is_rectangular(cells.deep_view()),
    ensures
        out@ == table_text(cells.deep_view()),
{
    let ghost all = cells.deep_view();
    let mut out = String::new();
    if cells.len() == 0 {
        return out;
    }
    let columns: usize = cells[0].len();
    assert(all[0].len() == columns);
    let mut widths: Vec<usize> = Vec::new();
    let mut c: usize = 0;
    while c < columns
        invariant
            c <= columns,
            all == cells.deep_view(),
            is_rectangular(all),
            cells.len() > 0,
            columns == cells[0].len(),
            widths.len() == c,
            forall|k: int| 0 <= k < c ==> widths[k] == column_width(all, k),
        decreases columns - c,
    {
        let width = measure_column(cells, c);
        widths.push(width);
        c = c + 1;
    }
    let mut r: usize = 0;
    while r < cells.len()
        invariant
            r <= cells.len(),
            all == cells.deep_view(),
            is_rectangular(all),
            cells.len() > 0,
            columns == cells[0].len(),
            widths.len() == columns,
            forall|k: int| 0 <= k < columns ==> widths[k] == column_width(all, k),
            out@ == table_start(all, r as nat),
        decreases cells.len() - r,
    {
        let ghost before = out@;
        assert(all[r as int].len() == all[0].len());
        assert(all[0].len() == cells[0].len());
        assert(all[r as int].len() == cells[r as int].len());
        let mut c: usize = 0;
        assert(out@ =~= before + line_start(all, r as int, 0));
        while c < columns
            invariant
                c <= columns,
                r < cells.len(),
                all == cells.deep_view(),
                columns == cells[r as int].len(),
                widths.len() == columns,
                forall|k: int| 0 <= k < columns ==> widths[k] == column_width(all, k),
                out@ == before + line_start(all, r as int, c as nat),
            decreases columns - c,
        {
            let ghost start = out@;
            if c > 0 {
                proof {
                    reveal_strlit("|");
                }
                out.append("|");
                assert(out@ =~= start + seq!['|']);
            } else {
                assert(out@ =~= start + Seq::<char>::empty());
            }
            push_padded(&mut out, &cells[r][c], widths[c]);
            proof {
                assert(all[r as int][c as int] == cells[r as int][c as int]@);
                let bar = if c > 0 {
                    seq!['|']
                } else {
                    Seq::<char>::empty()
                };
                assert(out@ =~= before + (line_start(all, r as int, c as nat) + bar + padded(
                    all[r as int][c as int],
                    column_width(all, c as int),
                )));
            }
            c = c + 1;
        }
        proof {
            reveal_strlit("\n");
        }
        out.append("\n");
        assert(out@ =~= before + line(all, r as int));
        r = r + 1;
    }
    out
}

/// The text that the client shows for a result.
///
/// A result without rows is shown as one fixed line. Any other is shown as
/// the table of the texts of its cells, where the text of a floating-point
/// cell is what `float_text` gives for its bits. It fails exactly where the
/// result has rows and a blob among its cells is not UTF-8.
pub fn render_result<F>(result: &QueryResult, float_text: F) -> (out: Result<
    String,
    RenderError,
>) where F: Fn(u64) -> String
    requires
        result.counts_agree(),
        forall|bits: u64| call_requires(float_text, (bits,)),
    ensures
        out is Err <==> result.header.row_count > 0 && !all_have_text(result@.rows),
        result.header.row_count == 0 ==> (out matches Ok(text) && text@ == placeholder()),
        result.header.row_count > 0 ==> (out matches Ok(text) ==> exists|texts: Vec<Vec<String>>|
            are_cell_texts(float_text, result@.rows, texts@) && text@ == table_text(
                texts.deep_view(),
            )),
{
    if result.header.row_count == 0 {
        return Ok(String::from_str("(empty result set)\n"));
    }
    match cell_texts(&result.rows, &float_text) {
        Err(e) => Err(e),
        Ok(texts) => {
            proof {
                let cells = texts.deep_view();
                let rows = result@.rows;
                assert forall|r: int| 0 <= r < cells.len() implies (#[trigger] cells[r]).len()
                    == cells[0].len() by {
                    assert(cells[r].len() == texts[r].len());
                    assert(cells[0].len() == texts[0].len());
                    assert(texts@[r].len() == rows[r].len());
                    assert(texts@[0].len() == rows[0].len());
                }
            }
            Ok(render_table(&texts))
        },
    }
}

} // verus!
