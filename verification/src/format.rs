//! The wire format, stated on sequences of bytes.
//!
//! A header is the magic marker, the row count, the column count and the
//! column names, each name behind its length. A row body is the cells of all
//! rows in row-major order, each cell a tag byte and its payload. All
//! integers are 64 bits wide and big-endian.
//!
//! The `*_bytes` functions say what the encoding of a value is. The `parse_*`
//! functions say what a decoder makes of a buffer: the value at its front and
//! the bytes that follow it, or the error.

use crate::bigendian::{i64_be_bytes, i64_from_be_bytes, u64_be_bytes, u64_from_be_bytes};
use crate::model::{DecodeError, HeaderModel, ResultModel, ValueModel};
use vstd::prelude::*;
use vstd::utf8::{decode_utf8, encode_utf8, valid_utf8};

verus! {

/// What a decoder makes of a buffer: the value at its front and the bytes
/// after it, or the reason why there is none.
pub type Parsed<T> = Result<(T, Seq<u8>), DecodeError>;

/// The magic marker, `SQNT` in ASCII.
pub open spec fn magic() -> Seq<u8> {
    seq![0x53u8, 0x51u8, 0x4Eu8, 0x54u8]
}

/// The header that stands for "no result": the marker, then sixteen zero
/// bytes, which are a row count and a column count of zero.
pub open spec fn sentinel() -> Seq<u8> {
    seq![
        0x53u8, 0x51u8, 0x4Eu8, 0x54u8, 0u8, 0u8, 0u8, 0u8, 0u8, 0u8, 0u8, 0u8, 0u8, 0u8, 0u8, 0u8,
        0u8, 0u8, 0u8, 0u8,
    ]
}

/// A payload behind its length.
pub open spec fn chunk_bytes(payload: Seq<u8>) -> Seq<u8> {
    u64_be_bytes(payload.len() as u64) + payload
}

/// A text in UTF-8 behind the length of that encoding.
pub open spec fn text_bytes(text: Seq<char>) -> Seq<u8> {
    chunk_bytes(encode_utf8(text))
}

/// The encoding of one cell: its tag, then its payload.
pub open spec fn value_bytes(value: ValueModel) -> Seq<u8> {
    match value {
        ValueModel::Null => seq![0u8],
        ValueModel::Integer(i) => seq![1u8] + i64_be_bytes(i),
        ValueModel::Float(bits) => seq![2u8] + u64_be_bytes(bits),
        ValueModel::Text(text) => seq![3u8] + text_bytes(text),
        ValueModel::Blob(bytes) => seq![4u8] + chunk_bytes(bytes),
    }
}

/// The encodings of the cells of one row, one after the other.
pub open spec fn values_bytes(values: Seq<ValueModel>) -> Seq<u8>
    decreases values.len(),
{
    if values.len() == 0 {
        Seq::empty()
    } else {
        value_bytes(values[0]) + values_bytes(values.drop_first())
    }
}

/// The row body: the encodings of the rows, one after the other.
pub open spec fn rows_bytes(rows: Seq<Seq<ValueModel>>) -> Seq<u8>
    decreases rows.len(),
{
    if rows.len() == 0 {
        Seq::empty()
    } else {
        values_bytes(rows[0]) + rows_bytes(rows.drop_first())
    }
}

/// The encodings of the column names, one after the other.
pub open spec fn names_bytes(names: Seq<Seq<char>>) -> Seq<u8>
    decreases names.len(),
{
    if names.len() == 0 {
        Seq::empty()
    } else {
        text_bytes(names[0]) + names_bytes(names.drop_first())
    }
}

/// The header segment.
pub open spec fn header_bytes(header: HeaderModel) -> Seq<u8> {
    magic() + u64_be_bytes(header.row_count) + u64_be_bytes(header.column_count) + names_bytes(
        header.columns,
    )
}

/// The message parts of a response. A result whose header counts no rows
/// is the empty response alone. Any other is its header, and after it the
/// row body unless that is empty.
pub open spec fn response_parts(result: ResultModel) -> Seq<Seq<u8>> {
    if result.header.row_count == 0 {
        seq![sentinel()]
    } else if rows_bytes(result.rows).len() == 0 {
        seq![header_bytes(result.header)]
    } else {
        seq![header_bytes(result.header), rows_bytes(result.rows)]
    }
}

/// Whether the length of the payload of a cell can be written in 64 bits. It
/// can for every value that a machine holds.
pub open spec fn value_fits(value: ValueModel) -> bool {
    match value {
        ValueModel::Text(text) => encode_utf8(text).len() <= u64::MAX,
        ValueModel::Blob(bytes) => bytes.len() <= u64::MAX,
        _ => true,
    }
}

/// Whether every cell of the row fits.
pub open spec fn row_fits(row: Seq<ValueModel>) -> bool {
    forall|c: int| 0 <= c < row.len() ==> value_fits(#[trigger] row[c])
}

/// Whether every cell of every row fits.
pub open spec fn rows_fit(rows: Seq<Seq<ValueModel>>) -> bool {
    forall|r: int| 0 <= r < rows.len() ==> row_fits(#[trigger] rows[r])
}

/// Whether the length of every name in UTF-8 can be written in 64 bits.
pub open spec fn names_fit(names: Seq<Seq<char>>) -> bool {
    forall|c: int| 0 <= c < names.len() ==> encode_utf8(#[trigger] names[c]).len() <= u64::MAX
}

/// Whether the length of every column name and of every payload of a result
/// can be written in 64 bits.
pub open spec fn result_fits(result: ResultModel) -> bool {
    names_fit(result.header.columns) && rows_fit(result.rows)
}

/// Whether the buffer starts with a length that announces more bytes than
/// follow it.
pub open spec fn announces_too_much(bytes: Seq<u8>) -> bool {
    bytes.len() >= 8 && u64_from_be_bytes(bytes) > bytes.len() - 8
}

/// Whether the buffer starts with the magic marker.
pub open spec fn has_magic(bytes: Seq<u8>) -> bool {
    bytes.len() >= 4 && bytes.take(4) == magic()
}

/// An unsigned integer at the front of the buffer.
pub open spec fn parse_u64(bytes: Seq<u8>) -> Parsed<u64> {
    if bytes.len() < 8 {
        Err(DecodeError::TruncatedPayload)
    } else {
        Ok((u64_from_be_bytes(bytes), bytes.skip(8)))
    }
}

/// A signed integer at the front of the buffer.
pub open spec fn parse_i64(bytes: Seq<u8>) -> Parsed<i64> {
    if bytes.len() < 8 {
        Err(DecodeError::TruncatedPayload)
    } else {
        Ok((i64_from_be_bytes(bytes), bytes.skip(8)))
    }
}

/// A length and as many bytes at the front of the buffer. A length beyond
/// what the buffer still holds is a truncation.
pub open spec fn parse_chunk(bytes: Seq<u8>) -> Parsed<Seq<u8>> {
    match parse_u64(bytes) {
        Err(e) => Err(e),
        Ok((len, rest)) => if len > rest.len() {
            Err(DecodeError::TruncatedPayload)
        } else {
            Ok((rest.take(len as int), rest.skip(len as int)))
        },
    }
}

/// A length and as many bytes of UTF-8 at the front of the buffer.
pub open spec fn parse_text(bytes: Seq<u8>) -> Parsed<Seq<char>> {
    match parse_chunk(bytes) {
        Err(e) => Err(e),
        Ok((payload, rest)) => if valid_utf8(payload) {
            Ok((decode_utf8(payload), rest))
        } else {
            Err(DecodeError::InvalidText)
        },
    }
}

/// One cell at the front of the buffer.
pub open spec fn parse_value(bytes: Seq<u8>) -> Parsed<ValueModel> {
    if bytes.len() == 0 {
        Err(DecodeError::TruncatedPayload)
    } else if bytes[0] == 0 {
        Ok((ValueModel::Null, bytes.skip(1)))
    } else if bytes[0] == 1 {
        match parse_i64(bytes.skip(1)) {
            Err(e) => Err(e),
            Ok((i, rest)) => Ok((ValueModel::Integer(i), rest)),
        }
    } else if bytes[0] == 2 {
        match parse_u64(bytes.skip(1)) {
            Err(e) => Err(e),
            Ok((bits, rest)) => Ok((ValueModel::Float(bits), rest)),
        }
    } else if bytes[0] == 3 {
        match parse_text(bytes.skip(1)) {
            Err(e) => Err(e),
            Ok((text, rest)) => Ok((ValueModel::Text(text), rest)),
        }
    } else if bytes[0] == 4 {
        match parse_chunk(bytes.skip(1)) {
            Err(e) => Err(e),
            Ok((payload, rest)) => Ok((ValueModel::Blob(payload), rest)),
        }
    } else {
        Err(DecodeError::InvalidTag)
    }
}

/// `count` cells at the front of the buffer.
pub open spec fn parse_values(bytes: Seq<u8>, count: nat) -> Parsed<Seq<ValueModel>>
    decreases count,
{
    if count == 0 {
        Ok((Seq::empty(), bytes))
    } else {
        match parse_value(bytes) {
            Err(e) => Err(e),
            Ok((value, rest)) => prepend(seq![value], parse_values(rest, (count - 1) as nat)),
        }
    }
}

/// `row_count` rows of `column_count` cells each at the front of the buffer.
pub open spec fn parse_rows(bytes: Seq<u8>, row_count: nat, column_count: nat) -> Parsed<
    Seq<Seq<ValueModel>>,
>
    decreases row_count,
{
    if row_count == 0 {
        Ok((Seq::empty(), bytes))
    } else {
        match parse_values(bytes, column_count) {
            Err(e) => Err(e),
            Ok((row, rest)) => prepend(
                seq![row],
                parse_rows(rest, (row_count - 1) as nat, column_count),
            ),
        }
    }
}

/// `count` column names at the front of the buffer.
pub open spec fn parse_names(bytes: Seq<u8>, count: nat) -> Parsed<Seq<Seq<char>>>
    decreases count,
{
    if count == 0 {
        Ok((Seq::empty(), bytes))
    } else {
        match parse_text(bytes) {
            Err(e) => Err(e),
            Ok((name, rest)) => prepend(seq![name], parse_names(rest, (count - 1) as nat)),
        }
    }
}

/// A header at the front of the buffer. Without the marker nothing else is
/// looked at.
pub open spec fn parse_header(bytes: Seq<u8>) -> Parsed<HeaderModel> {
    if !has_magic(bytes) {
        Err(DecodeError::MalformedHeader)
    } else {
        match parse_u64(bytes.skip(4)) {
            Err(e) => Err(e),
            Ok((row_count, after_rows)) => match parse_u64(after_rows) {
                Err(e) => Err(e),
                Ok((column_count, after_columns)) => match parse_names(
                    after_columns,
                    column_count as nat,
                ) {
                    Err(e) => Err(e),
                    Ok((columns, rest)) => Ok((HeaderModel { row_count, column_count, columns }, rest)),
                },
            },
        }
    }
}

/// The result that the parts of a response stand for. The first part is the
/// header. The second is the row body; where it is missing, the row body is
/// empty. Bytes after the header or after the last row are not looked at.
pub open spec fn parse_response(parts: Seq<Seq<u8>>) -> Result<ResultModel, DecodeError> {
    if parts.len() == 0 {
        Err(DecodeError::MalformedHeader)
    } else {
        match parse_header(parts[0]) {
            Err(e) => Err(e),
            Ok((header, _)) => {
                let body = if parts.len() > 1 {
                    parts[1]
                } else {
                    Seq::empty()
                };
                match parse_rows(body, header.row_count as nat, header.column_count as nat) {
                    Err(e) => Err(e),
                    Ok((rows, _)) => Ok(ResultModel { header, rows }),
                }
            },
        }
    }
}

/// How many bytes a parse took from the front of `bytes` when it left
/// `rest`.
pub open spec fn taken(bytes: Seq<u8>, rest: Seq<u8>) -> int {
    bytes.len() - rest.len()
}

/// The bytes of each part of a message.
pub open spec fn parts_bytes(parts: Seq<Vec<u8>>) -> Seq<Seq<u8>> {
    Seq::new(parts.len(), |i: int| parts[i]@)
}

/// A parse of more items, with the items already parsed put in front.
pub open spec fn prepend<T>(front: Seq<T>, parsed: Parsed<Seq<T>>) -> Parsed<Seq<T>> {
    match parsed {
        Err(e) => Err(e),
        Ok((items, rest)) => Ok((front + items, rest)),
    }
}

} // verus!
