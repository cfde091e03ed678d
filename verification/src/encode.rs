//! Encoding: from a result to the bytes of a response.
//!
//! A segment is built in one buffer, which cannot grow beyond `isize::MAX`
//! bytes. The encoders say so: they return `None` exactly where the encoding
//! would be longer than that.

use crate::bigendian::u64_be_bytes;
use crate::buffer::{
    buf_bytes, buffer_len, buffer_new, buffer_put_i64, buffer_put_slice, buffer_put_u64,
    buffer_put_u8, buffer_to_vec, has_room,
};
use crate::format::{
    chunk_bytes, header_bytes, magic, names_bytes, parse_response, parts_bytes, response_parts,
    rows_bytes, sentinel, text_bytes, value_bytes, values_bytes,
};
use crate::laws::{
    lemma_empty_result_bytes, lemma_response_round_trip, lemma_sentinel_is_empty_header,
    lemma_short_names_fit, lemma_short_rows_fit,
};
use crate::model::{
    DecodeError, QueryResult, QueryResultHeader, ResultModel, TypedValue, ValueModel,
};
use bytes::BytesMut;
use vstd::prelude::*;

verus! {

/// Whether a segment of `len` bytes can be held in one buffer.
pub open spec fn encodable(len: nat) -> bool {
    len <= isize::MAX
}

/// Whether the segments of the response to a result can each be held in one
/// buffer. Without rows there is nothing to hold but the empty response.
pub open spec fn response_encodable(result: ResultModel) -> bool {
    result.header.row_count == 0 || (encodable(header_bytes(result.header).len()) && encodable(
        rows_bytes(result.rows).len(),
    ))
}

/// Whether the buffer can take `fixed + payload` more bytes.
fn room_for(buf: &BytesMut, fixed: usize, payload: usize) -> (ok: bool)
    requires
        fixed <= 16,
    ensures
        ok == has_room(buf_bytes(buf).len(), (fixed + payload) as nat),
{
    let limit: usize = isize::MAX as usize;
    let held: usize = buffer_len(buf);
    held <= limit - fixed && payload <= limit - fixed - held
}

/// Appends a payload behind its length, if there is room for both.
fn write_chunk(buf: &mut BytesMut, payload: &[u8]) -> (ok: bool)
    ensures
        ok == has_room(buf_bytes(old(buf)).len(), chunk_bytes(payload@).len()),
        ok ==> buf_bytes(final(buf)) == buf_bytes(old(buf)) + chunk_bytes(payload@),
{
    if !room_for(buf, 8, payload.len()) {
        return false;
    }
    buffer_put_u64(buf, payload.len() as u64);
    buffer_put_slice(buf, payload);
    assert(buf_bytes(buf) =~= buf_bytes(old(buf)) + chunk_bytes(payload@));
    true
}

/// Appends a text in UTF-8 behind the length of that encoding, if there is
/// room for both.
fn write_text(buf: &mut BytesMut, text: &String) -> (ok: bool)
    ensures
        ok == has_room(buf_bytes(old(buf)).len(), text_bytes(text@).len()),
        ok ==> buf_bytes(final(buf)) == buf_bytes(old(buf)) + text_bytes(text@),
{
    write_chunk(buf, text.as_str().as_bytes())
}

/// Appends the encoding of one cell, if there is room for it.
fn write_value(buf: &mut BytesMut, value: &TypedValue) -> (ok: bool)
    ensures
        ok == has_room(buf_bytes(old(buf)).len(), value_bytes(value@).len()),
        ok ==> buf_bytes(final(buf)) == buf_bytes(old(buf)) + value_bytes(value@),
{
    match value {
        TypedValue::Null => {
            if !room_for(buf, 1, 0) {
                return false;
            }
            buffer_put_u8(buf, 0);
            assert(buf_bytes(buf) =~= buf_bytes(old(buf)) + value_bytes(value@));
            true
        },
        TypedValue::Integer(i) => {
            if !room_for(buf, 9, 0) {
                return false;
            }
            buffer_put_u8(buf, 1);
            buffer_put_i64(buf, *i);
            assert(buf_bytes(buf) =~= buf_bytes(old(buf)) + value_bytes(value@));
            true
        },
        TypedValue::Float(bits) => {
            if !room_for(buf, 9, 0) {
                return false;
            }
            buffer_put_u8(buf, 2);
            buffer_put_u64(buf, *bits);
            assert(buf_bytes(buf) =~= buf_bytes(old(buf)) + value_bytes(value@));
            true
        },
        TypedValue::Text(text) => {
            let payload = text.as_str().as_bytes();
            if !room_for(buf, 9, payload.len()) {
                return false;
            }
            buffer_put_u8(buf, 3);
            let written = write_chunk(buf, payload);
            assert(written);
            assert(buf_bytes(buf) =~= buf_bytes(old(buf)) + value_bytes(value@));
            true
        },
        TypedValue::Blob(bytes) => {
            let payload = bytes.as_slice();
            if !room_for(buf, 9, payload.len()) {
                return false;
            }
            buffer_put_u8(buf, 4);
            let written = write_chunk(buf, payload);
            assert(written);
            assert(buf_bytes(buf) =~= buf_bytes(old(buf)) + value_bytes(value@));
            true
        },
    }
}

/// Appends the encodings of the cells of one row, if there is room for all.
fn write_values(buf: &mut BytesMut, values: &Vec<TypedValue>) -> (ok: bool)
    requires
        has_room(buf_bytes(old(buf)).len(), 0),
    ensures
        ok == has_room(buf_bytes(old(buf)).len(), values_bytes(values.deep_view()).len()),
        ok ==> buf_bytes(final(buf)) == buf_bytes(old(buf)) + values_bytes(values.deep_view()),
{
    let ghost start = buf_bytes(buf);
    let ghost all = values.deep_view();
    let mut i: usize = 0;
    assert(all.skip(0) =~= all);
    while i < values.len()
        invariant
            i <= values.len(),
            start == buf_bytes(old(buf)),
            all == values.deep_view(),
            has_room(buf_bytes(buf).len(), 0),
            start + values_bytes(all) == buf_bytes(buf) + values_bytes(all.skip(i as int)),
        decreases values.len() - i,
    {
        let ghost held = buf_bytes(buf);
        proof {
            assert(all.skip(i as int)[0] == values[i as int]@);
            assert(all.skip(i as int).drop_first() =~= all.skip(i + 1));
            assert(held + (value_bytes(values[i as int]@) + values_bytes(all.skip(i + 1))) =~= (held
                + value_bytes(values[i as int]@)) + values_bytes(all.skip(i + 1)));
            assert((start + values_bytes(all)).len() == start.len() + values_bytes(all).len());
        }
        if !write_value(buf, &values[i]) {
            return false;
        }
        i = i + 1;
    }
    proof {
        assert(all.skip(i as int) =~= Seq::<ValueModel>::empty());
        assert(buf_bytes(buf) + Seq::<u8>::empty() =~= buf_bytes(buf));
        assert((start + values_bytes(all)).len() == start.len() + values_bytes(all).len());
    }
    true
}

/// Appends the encodings of the rows, if there is room for all.
fn write_rows(buf: &mut BytesMut, rows: &Vec<Vec<TypedValue>>) -> (ok: bool)
    requires
        has_room(buf_bytes(old(buf)).len(), 0),
    ensures
        ok == has_room(buf_bytes(old(buf)).len(), rows_bytes(rows.deep_view()).len()),
        ok ==> buf_bytes(final(buf)) == buf_bytes(old(buf)) + rows_bytes(rows.deep_view()),
{
    let ghost start = buf_bytes(buf);
    let ghost all = rows.deep_view();
    let mut i: usize = 0;
    assert(all.skip(0) =~= all);
    while i < rows.len()
        invariant
            i <= rows.len(),
            start == buf_bytes(old(buf)),
            all == rows.deep_view(),
            has_room(buf_bytes(buf).len(), 0),
            start + rows_bytes(all) == buf_bytes(buf) + rows_bytes(all.skip(i as int)),
        decreases rows.len() - i,
    {
        let ghost held = buf_bytes(buf);
        proof {
            assert(all.skip(i as int)[0] == rows[i as int].deep_view());
            assert(all.skip(i as int).drop_first() =~= all.skip(i + 1));
            assert(held + (values_bytes(rows[i as int].deep_view()) + rows_bytes(all.skip(i + 1)))
                =~= (held + values_bytes(rows[i as int].deep_view())) + rows_bytes(
                all.skip(i + 1),
            ));
            assert((start + rows_bytes(all)).len() == start.len() + rows_bytes(all).len());
        }
        if !write_values(buf, &rows[i]) {
            return false;
        }
        i = i + 1;
    }
    proof {
        assert(all.skip(i as int) =~= Seq::<Seq<ValueModel>>::empty());
        assert(buf_bytes(buf) + Seq::<u8>::empty() =~= buf_bytes(buf));
        assert((start + rows_bytes(all)).len() == start.len() + rows_bytes(all).len());
    }
    true
}

/// Appends the encodings of the column names, if there is room for all.
fn write_names(buf: &mut BytesMut, names: &Vec<String>) -> (ok: bool)
    requires
        has_room(buf_bytes(old(buf)).len(), 0),
    ensures
        ok == has_room(buf_bytes(old(buf)).len(), names_bytes(names.deep_view()).len()),
        ok ==> buf_bytes(final(buf)) == buf_bytes(old(buf)) + names_bytes(names.deep_view()),
{
    let ghost start = buf_bytes(buf);
    let ghost all = names.deep_view();
    let mut i: usize = 0;
    assert(all.skip(0) =~= all);
    while i < names.len()
        invariant
            i <= names.len(),
            start == buf_bytes(old(buf)),
            all == names.deep_view(),
            has_room(buf_bytes(buf).len(), 0),
            start + names_bytes(all) == buf_bytes(buf) + names_bytes(all.skip(i as int)),
        decreases names.len() - i,
    {
        let ghost held = buf_bytes(buf);
        proof {
            assert(all.skip(i as int)[0] == names[i as int]@);
            assert(all.skip(i as int).drop_first() =~= all.skip(i + 1));
            assert(held + (text_bytes(names[i as int]@) + names_bytes(all.skip(i + 1))) =~= (held
                + text_bytes(names[i as int]@)) + names_bytes(all.skip(i + 1)));
            assert((start + names_bytes(all)).len() == start.len() + names_bytes(all).len());
        }
        if !write_text(buf, &names[i]) {
            return false;
        }
        i = i + 1;
    }
    proof {
        assert(all.skip(i as int) =~= Seq::<Seq<char>>::empty());
        assert(buf_bytes(buf) + Seq::<u8>::empty() =~= buf_bytes(buf));
        assert((start + names_bytes(all)).len() == start.len() + names_bytes(all).len());
    }
    true
}

/// Appends the magic marker and the two counts.
fn write_counts(buf: &mut BytesMut, row_count: u64, column_count: u64)
    requires
        buf_bytes(old(buf)).len() == 0,
    ensures
        buf_bytes(final(buf)) == magic() + u64_be_bytes(row_count) + u64_be_bytes(column_count),
        buf_bytes(final(buf)).len() == 20,
{
    buffer_put_u8(buf, 0x53);
    buffer_put_u8(buf, 0x51);
    buffer_put_u8(buf, 0x4E);
    buffer_put_u8(buf, 0x54);
    assert(buf_bytes(buf) =~= magic());
    buffer_put_u64(buf, row_count);
    buffer_put_u64(buf, column_count);
}

/// The reply that stands for "no result": the magic marker and two zero
/// counts, twenty bytes in all.
pub fn empty_response() -> (bytes: Vec<u8>)
    ensures
        bytes@ == sentinel(),
        bytes@.len() == 20,
{
    proof {
        lemma_sentinel_is_empty_header();
    }
    let mut buf = buffer_new();
    write_counts(&mut buf, 0, 0);
    buffer_to_vec(&buf)
}

/// Encodes the header segment: the magic marker, the two counts, and the
/// column names, each behind its length.
///
/// The header is written as it stands, whether or not its column count is
/// the number of its names. The result is `None` exactly where the segment
/// would be longer than `isize::MAX` bytes.
pub fn serialize_header(header: &QueryResultHeader) -> (r: Option<Vec<u8>>)
    ensures
        r is Some <==> encodable(header_bytes(header@).len()),
        r matches Some(bytes) ==> bytes@ == header_bytes(header@),
{
    let mut buf = buffer_new();
    write_counts(&mut buf, header.row_count, header.column_count);
    if write_names(&mut buf, &header.columns) {
        Some(buffer_to_vec(&buf))
    } else {
        None
    }
}

/// Encodes the row body: the cells of all rows in row-major order.
///
/// The result is `None` exactly where the segment would be longer than
/// `isize::MAX` bytes.
pub fn serialize_rows(rows: &Vec<Vec<TypedValue>>) -> (r: Option<Vec<u8>>)
    ensures
        r is Some <==> encodable(rows_bytes(rows.deep_view()).len()),
        r matches Some(bytes) ==> bytes@ == rows_bytes(rows.deep_view()),
{
    let mut buf = buffer_new();
    if write_rows(&mut buf, rows) {
        assert(Seq::<u8>::empty() + rows_bytes(rows.deep_view()) =~= rows_bytes(rows.deep_view()));
        Some(buffer_to_vec(&buf))
    } else {
        None
    }
}

/// Encodes a result as the message parts of a response.
///
/// A result whose header counts no rows becomes one part, the twenty bytes
/// of the empty response, whatever else it holds. Any other becomes the
/// header segment, and after it the row body unless that is empty. The
/// result is `None` exactly where a segment would be longer than
/// `isize::MAX` bytes. The parts of a well-formed result decode to that
/// result again.
pub fn encode_response(result: &QueryResult) -> (r: Option<Vec<Vec<u8>>>)
    ensures
        r is Some <==> response_encodable(result@),
        r matches Some(parts) ==> parts_bytes(parts@) == response_parts(result@),
        result.header.row_count == 0 ==> (r matches Some(parts) && parts_bytes(parts@)
            == seq![sentinel()]),
        result.wf() ==> (r matches Some(parts) ==> parse_response(parts_bytes(parts@)) == Ok::<
            ResultModel,
            DecodeError,
        >(result@)),
{
    proof {
        if result.wf() && response_encodable(result@) {
            if result.header.row_count == 0 {
                lemma_empty_result_bytes(result@);
            } else {
                lemma_short_names_fit(result@.header.columns);
                lemma_short_rows_fit(result@.rows);
            }
            lemma_response_round_trip(result@);
        }
    }
    let mut parts: Vec<Vec<u8>> = Vec::new();
    if result.header.row_count == 0 {
        parts.push(empty_response());
        assert(parts_bytes(parts@) =~= response_parts(result@));
        return Some(parts);
    }
    let header = match serialize_header(&result.header) {
        Some(bytes) => bytes,
        None => {
            return None;
        },
    };
    let body = match serialize_rows(&result.rows) {
        Some(bytes) => bytes,
        None => {
            return None;
        },
    };
    parts.push(header);
    if body.len() > 0 {
        parts.push(body);
    }
    assert(parts_bytes(parts@) =~= response_parts(result@));
    Some(parts)
}

} // verus!
