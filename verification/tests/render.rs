use sequent::{
    cell_text, cell_texts, integer_text, render_result, render_table, QueryResult,
    QueryResultHeader, RenderError, TypedValue,
};

fn float_text(bits: u64) -> String {
    format!("{}", f64::from_bits(bits))
}

fn texts(rows: &[&[&str]]) -> Vec<Vec<String>> {
    rows.iter().map(|row| row.iter().map(|cell| cell.to_string()).collect()).collect()
}

fn result(columns: &[&str], rows: Vec<Vec<TypedValue>>) -> QueryResult {
    QueryResult {
        header: QueryResultHeader {
            row_count: rows.len() as u64,
            column_count: columns.len() as u64,
            columns: columns.iter().map(|c| c.to_string()).collect(),
        },
        rows,
    }
}

#[test]
fn integer_text_is_the_decimal_text() {
    assert_eq!(integer_text(0), "0");
    assert_eq!(integer_text(7), "7");
    assert_eq!(integer_text(10), "10");
    assert_eq!(integer_text(-1), "-1");
    assert_eq!(integer_text(1234567890), "1234567890");
    assert_eq!(integer_text(i64::MAX), "9223372036854775807");
    assert_eq!(integer_text(i64::MIN), "-9223372036854775808");
    for i in [-1000i64, -99, -10, -9, 9, 99, 100, 101, 1 << 40, -(1 << 40)] {
        assert_eq!(integer_text(i), format!("{}", i));
    }
}

#[test]
fn cell_text_of_each_variant() {
    assert_eq!(cell_text(&TypedValue::Null, &float_text), Ok("NULL".to_string()));
    assert_eq!(cell_text(&TypedValue::Integer(-42), &float_text), Ok("-42".to_string()));
    assert_eq!(
        cell_text(&TypedValue::Float(1.5f64.to_bits()), &float_text),
        Ok("1.5".to_string())
    );
    assert_eq!(
        cell_text(&TypedValue::Float(f64::INFINITY.to_bits()), &float_text),
        Ok("inf".to_string())
    );
    assert_eq!(
        cell_text(&TypedValue::Text("a|b".to_string()), &float_text),
        Ok("a|b".to_string())
    );
    assert_eq!(
        cell_text(&TypedValue::Blob(b"bytes".to_vec()), &float_text),
        Ok("bytes".to_string())
    );
    assert_eq!(cell_text(&TypedValue::Blob(Vec::new()), &float_text), Ok(String::new()));
}

#[test]
fn blob_that_is_not_utf8_has_no_text() {
    assert_eq!(
        cell_text(&TypedValue::Blob(vec![0xFF, 0xFE]), &float_text),
        Err(RenderError::BlobNotText)
    );
    assert_eq!(
        cell_text(&TypedValue::Blob(vec![0xDE, 0xAD]), &float_text),
        Ok("\u{7ad}".to_string())
    );
    let rows = vec![
        vec![TypedValue::Integer(1), TypedValue::Null],
        vec![TypedValue::Integer(2), TypedValue::Blob(vec![0xC3, 0x28])],
    ];
    assert_eq!(cell_texts(&rows, &float_text), Err(RenderError::BlobNotText));
    assert_eq!(
        render_result(&result(&["id", "data"], rows), float_text),
        Err(RenderError::BlobNotText)
    );
}

#[test]
fn cell_texts_keep_the_shape_of_the_rows() {
    let rows = vec![
        vec![TypedValue::Integer(1), TypedValue::Text("alice".to_string()), TypedValue::Null],
        vec![
            TypedValue::Integer(2),
            TypedValue::Text("bob".to_string()),
            TypedValue::Float(0.25f64.to_bits()),
        ],
    ];
    assert_eq!(
        cell_texts(&rows, &float_text),
        Ok(texts(&[&["1", "alice", "NULL"], &["2", "bob", "0.25"]]))
    );
    assert_eq!(cell_texts(&Vec::new(), &float_text), Ok(Vec::new()));
}

#[test]
fn table_pads_every_cell_to_the_width_of_its_column() {
    let cells = texts(&[&["1", "alice", "NULL"], &["2", "bob", "x"]]);
    assert_eq!(render_table(&cells), "1|alice|NULL\n2|bob  |x   \n");
}

#[test]
fn table_of_one_cell() {
    assert_eq!(render_table(&texts(&[&["only"]])), "only\n");
    assert_eq!(render_table(&texts(&[&[""]])), "\n");
}

#[test]
fn table_without_rows_is_empty() {
    assert_eq!(render_table(&Vec::new()), "");
}

#[test]
fn table_of_rows_without_cells_is_empty_lines() {
    assert_eq!(render_table(&texts(&[&[], &[]])), "\n\n");
}

#[test]
fn column_width_counts_bytes_and_padding_counts_characters() {
    let cells = texts(&[&["\u{e9}", "a"], &["x", "b"]]);
    assert_eq!(render_table(&cells), "\u{e9} |a\nx |b\n");
    let cells = texts(&[&["\u{e9}\u{e9}"], &["abc"]]);
    assert_eq!(render_table(&cells), "\u{e9}\u{e9}  \nabc \n");
}

fn padded_by_the_standard_library(cells: &Vec<Vec<String>>) -> String {
    let columns = if cells.is_empty() { 0 } else { cells[0].len() };
    let mut longest = vec![0usize; columns];
    for row in cells {
        for (column, cell) in row.iter().enumerate() {
            if cell.len() > longest[column] {
                longest[column] = cell.len();
            }
        }
    }
    let mut expected = String::new();
    for row in cells {
        for (column, cell) in row.iter().enumerate() {
            if column > 0 {
                expected.push('|');
            }
            expected.push_str(&format!("{:width$}", cell, width = longest[column]));
        }
        expected.push('\n');
    }
    expected
}

#[test]
fn table_matches_the_standard_padding() {
    let cells = texts(&[&["a", "bbbb", ""], &["ccc", "d", "ee"], &["", "", "f"]]);
    assert_eq!(render_table(&cells), "a  |bbbb|  \nccc|d   |ee\n   |    |f \n");
    assert_eq!(render_table(&cells), padded_by_the_standard_library(&cells));
    let wide = texts(&[
        &["\u{e9}t\u{e9}", "\u{1F600}", "plain"],
        &["x", "\u{4e2d}\u{6587}", ""],
        &["longer text", "y", "\u{df}"],
    ]);
    assert_eq!(render_table(&wide), padded_by_the_standard_library(&wide));
    let one = texts(&[&["\u{1F600}\u{1F600}"]]);
    assert_eq!(render_table(&one), padded_by_the_standard_library(&one));
}

#[test]
fn result_without_rows_is_shown_as_the_placeholder() {
    assert_eq!(
        render_result(&QueryResult::empty(), float_text),
        Ok("(empty result set)\n".to_string())
    );
    assert_eq!(
        render_result(&result(&["id"], Vec::new()), float_text),
        Ok("(empty result set)\n".to_string())
    );
}

#[test]
fn result_is_shown_as_a_table() {
    let shown = render_result(
        &result(
            &["id", "name", "data"],
            vec![
                vec![TypedValue::Integer(1), TypedValue::Text("alice".to_string()), TypedValue::Null],
                vec![
                    TypedValue::Integer(-20),
                    TypedValue::Text("bob".to_string()),
                    TypedValue::Blob(b"hi".to_vec()),
                ],
                vec![
                    TypedValue::Float(2.5f64.to_bits()),
                    TypedValue::Text(String::new()),
                    TypedValue::Float(f64::NAN.to_bits()),
                ],
            ],
        ),
        float_text,
    );
    assert_eq!(shown, Ok("1  |alice|NULL\n-20|bob  |hi  \n2.5|     |NaN \n".to_string()));
}

#[test]
fn float_text_comes_from_the_caller() {
    let shown = render_result(
        &result(&["x"], vec![vec![TypedValue::Float(7)], vec![TypedValue::Integer(7)]]),
        |bits| format!("<{}>", bits),
    );
    assert_eq!(shown, Ok("<7>\n7  \n".to_string()));
}
