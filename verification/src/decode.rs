//! Decoding: from the bytes of a response to a result.

use crate::buffer::{
    buf_bytes, buffer_advance, buffer_from, buffer_front, buffer_get_i64, buffer_get_u64,
    buffer_get_u8, buffer_len,
};
use crate::format::{
    has_magic, magic, parse_chunk, parse_header, parse_i64, parse_names, parse_response,
    parse_rows, parse_text, parse_u64, parse_value, parse_values, parts_bytes, prepend, taken,
};
use crate::laws::{
    lemma_header_is_self_delimiting, lemma_parse_header_shape, lemma_parse_rows_shape,
};
use crate::model::{DecodeError, QueryResult, QueryResultHeader, TypedValue, ValueModel};
use crate::text::string_from_utf8;
use bytes::BytesMut;
use vstd::prelude::*;

verus! {

/// Takes an unsigned integer from the front of the buffer.
fn read_u64(buf: &mut BytesMut) -> (r: Result<u64, DecodeError>)
    ensures
        match parse_u64(buf_bytes(old(buf))) {
            Ok((value, rest)) => r == Ok::<u64, DecodeError>(value) && buf_bytes(final(buf))
                == rest,
            Err(e) => r == Err::<u64, DecodeError>(e),
        },
{
    if buffer_len(buf) < 8 {
        return Err(DecodeError::TruncatedPayload);
    }
    Ok(buffer_get_u64(buf))
}

/// Takes a signed integer from the front of the buffer.
fn read_i64(buf: &mut BytesMut) -> (r: Result<i64, DecodeError>)
    ensures
        match parse_i64(buf_bytes(old(buf))) {
            Ok((value, rest)) => r == Ok::<i64, DecodeError>(value) && buf_bytes(final(buf))
                == rest,
            Err(e) => r == Err::<i64, DecodeError>(e),
        },
{
    if buffer_len(buf) < 8 {
        return Err(DecodeError::TruncatedPayload);
    }
    Ok(buffer_get_i64(buf))
}

/// Takes a length and as many bytes from the front of the buffer.
fn read_chunk(buf: &mut BytesMut) -> (r: Result<Vec<u8>, DecodeError>)
    ensures
        match parse_chunk(buf_bytes(old(buf))) {
            Ok((payload, rest)) => r matches Ok(bytes) && bytes@ == payload && buf_bytes(
                final(buf),
            ) == rest,
            Err(e) => r == Err::<Vec<u8>, DecodeError>(e),
        },
{
    let len: u64 = match read_u64(buf) {
        Ok(len) => len,
        Err(e) => {
            return Err(e);
        },
    };
    let held: usize = buffer_len(buf);
    if len > held as u64 {
        return Err(DecodeError::TruncatedPayload);
    }
    let count: usize = len as usize;
    let payload = buffer_front(buf, count);
    buffer_advance(buf, count);
    Ok(payload)
}

/// Takes a length and as many bytes of UTF-8 from the front of the buffer.
fn read_text(buf: &mut BytesMut) -> (r: Result<String, DecodeError>)
    ensures
        match parse_text(buf_bytes(old(buf))) {
            Ok((text, rest)) => r matches Ok(s) && s@ == text && buf_bytes(final(buf)) == rest,
            Err(e) => r == Err::<String, DecodeError>(e),
        },
{
    let payload = match read_chunk(buf) {
        Ok(payload) => payload,
        Err(e) => {
            return Err(e);
        },
    };
    match string_from_utf8(payload) {
        Some(text) => Ok(text),
        None => Err(DecodeError::InvalidText),
    }
}

/// Takes one cell from the front of the buffer.
fn read_value(buf: &mut BytesMut) -> (r: Result<TypedValue, DecodeError>)
    ensures
        match parse_value(buf_bytes(old(buf))) {
            Ok((value, rest)) => r matches Ok(v) && v@ == value && buf_bytes(final(buf)) == rest,
            Err(e) => r == Err::<TypedValue, DecodeError>(e),
        },
{
    if buffer_len(buf) < 1 {
        return Err(DecodeError::TruncatedPayload);
    }
    let tag: u8 = buffer_get_u8(buf);
    if tag == 0 {
        Ok(TypedValue::Null)
    } else if tag == 1 {
        match read_i64(buf) {
            Ok(i) => Ok(TypedValue::Integer(i)),
            Err(e) => Err(e),
        }
    } else if tag == 2 {
        match read_u64(buf) {
            Ok(bits) => Ok(TypedValue::Float(bits)),
            Err(e) => Err(e),
        }
    } else if tag == 3 {
        match read_text(buf) {
            Ok(text) => Ok(TypedValue::Text(text)),
            Err(e) => Err(e),
        }
    } else if tag == 4 {
        match read_chunk(buf) {
            Ok(bytes) => Ok(TypedValue::Blob(bytes)),
            Err(e) => Err(e),
        }
    } else {
        Err(DecodeError::InvalidTag)
    }
}

/// Parsing one more item after `front` is parsing it behind `front` with the
/// item added.
proof fn lemma_prepend_push<T>(front: Seq<T>, item: T, parsed: Result<(Seq<T>, Seq<u8>), DecodeError>)
    ensures
        prepend(front, prepend(seq![item], parsed)) == prepend(front.push(item), parsed),
{
    match parsed {
        Err(_) => {},
        Ok((items, _)) => {
            assert(front + (seq![item] + items) =~= front.push(item) + items);
        },
    }
}

/// Takes `count` cells from the front of the buffer.
fn read_values(buf: &mut BytesMut, count: u64) -> (r: Result<Vec<TypedValue>, DecodeError>)
    ensures
        match parse_values(buf_bytes(old(buf)), count as nat) {
            Ok((values, rest)) => r matches Ok(v) && v.deep_view() == values && buf_bytes(
                final(buf),
            ) == rest,
            Err(e) => r == Err::<Vec<TypedValue>, DecodeError>(e),
        },
{
    let ghost start = buf_bytes(buf);
    let mut values: Vec<TypedValue> = Vec::new();
    let mut done: u64 = 0;
    assert(values.deep_view() + Seq::<ValueModel>::empty() =~= Seq::empty());
    while done < count
        invariant
            done <= count,
            start == buf_bytes(old(buf)),
            parse_values(start, count as nat) == prepend(
                values.deep_view(),
                parse_values(buf_bytes(buf), (count - done) as nat),
            ),
        decreases count - done,
    {
        let ghost before = values.deep_view();
        let ghost rest_before = buf_bytes(buf);
        match read_value(buf) {
            Err(e) => {
                return Err(e);
            },
            Ok(value) => {
                proof {
                    lemma_prepend_push(
                        before,
                        value@,
                        parse_values(buf_bytes(buf), (count - done - 1) as nat),
                    );
                }
                values.push(value);
                assert(values.deep_view() =~= before.push(value@));
            },
        }
        done = done + 1;
    }
    assert(values.deep_view() + Seq::<ValueModel>::empty() =~= values.deep_view());
    Ok(values)
}

/// Takes `row_count` rows of `column_count` cells from the front of the
/// buffer.
fn read_rows(buf: &mut BytesMut, row_count: u64, column_count: u64) -> (r: Result<
    Vec<Vec<TypedValue>>,
    DecodeError,
>)
    ensures
        match parse_rows(buf_bytes(old(buf)), row_count as nat, column_count as nat) {
            Ok((rows, rest)) => r matches Ok(v) && v.deep_view() == rows && buf_bytes(final(buf))
                == rest,
            Err(e) => r == Err::<Vec<Vec<TypedValue>>, DecodeError>(e),
        },
{
    let ghost start = buf_bytes(buf);
    let mut rows: Vec<Vec<TypedValue>> = Vec::new();
    let mut done: u64 = 0;
    assert(rows.deep_view() + Seq::<Seq<ValueModel>>::empty() =~= Seq::empty());
    while done < row_count
        invariant
            done <= row_count,
            start == buf_bytes(old(buf)),
            parse_rows(start, row_count as nat, column_count as nat) == prepend(
                rows.deep_view(),
                parse_rows(buf_bytes(buf), (row_count - done) as nat, column_count as nat),
            ),
        decreases row_count - done,
    {
        let ghost before = rows.deep_view();
        match read_values(buf, column_count) {
            Err(e) => {
                return Err(e);
            },
            Ok(row) => {
                proof {
                    lemma_prepend_push(
                        before,
                        row.deep_view(),
                        parse_rows(
                            buf_bytes(buf),
                            (row_count - done - 1) as nat,
                            column_count as nat,
                        ),
                    );
                }
                rows.push(row);
                assert(rows.deep_view() =~= before.push(row.deep_view()));
            },
        }
        done = done + 1;
    }
    assert(rows.deep_view() + Seq::<Seq<ValueModel>>::empty() =~= rows.deep_view());
    Ok(rows)
}

/// Takes `count` column names from the front of the buffer.
fn read_names(buf: &mut BytesMut, count: u64) -> (r: Result<Vec<String>, DecodeError>)
    ensures
        match parse_names(buf_bytes(old(buf)), count as nat) {
            Ok((names, rest)) => r matches Ok(v) && v.deep_view() == names && buf_bytes(
                final(buf),
            ) == rest,
            Err(e) => r == Err::<Vec<String>, DecodeError>(e),
        },
{
    let ghost start = buf_bytes(buf);
    let mut names: Vec<String> = Vec::new();
    let mut done: u64 = 0;
    assert(names.deep_view() + Seq::<Seq<char>>::empty() =~= Seq::empty());
    while done < count
        invariant
            done <= count,
            start == buf_bytes(old(buf)),
            parse_names(start, count as nat) == prepend(
                names.deep_view(),
                parse_names(buf_bytes(buf), (count - done) as nat),
            ),
        decreases count - done,
    {
        let ghost before = names.deep_view();
        match read_text(buf) {
            Err(e) => {
                return Err(e);
            },
            Ok(name) => {
                proof {
                    lemma_prepend_push(
                        before,
                        name@,
                        parse_names(buf_bytes(buf), (count - done - 1) as nat),
                    );
                }
                names.push(name);
                assert(names.deep_view() =~= before.push(name@));
            },
        }
        done = done + 1;
    }
    assert(names.deep_view() + Seq::<Seq<char>>::empty() =~= names.deep_view());
    Ok(names)
}

/// Checks the magic marker at the front of the buffer and steps over it.
fn read_magic(buf: &mut BytesMut) -> (found: bool)
    ensures
        found == has_magic(buf_bytes(old(buf))),
        found ==> buf_bytes(final(buf)) == buf_bytes(old(buf)).skip(4),
{
    if buffer_len(buf) < 4 {
        return false;
    }
    let front = buffer_front(buf, 4);
    let found = front[0] == 0x53 && front[1] == 0x51 && front[2] == 0x4E && front[3] == 0x54;
    proof {
        if found {
            assert(front@ =~= magic());
        } else {
            assert(magic()[0] == 0x53 && magic()[1] == 0x51 && magic()[2] == 0x4E && magic()[3]
                == 0x54);
        }
    }
    if found {
        buffer_advance(buf, 4);
    }
    found
}

/// Takes a header from the front of the buffer.
fn read_header(buf: &mut BytesMut) -> (r: Result<QueryResultHeader, DecodeError>)
    ensures
        match parse_header(buf_bytes(old(buf))) {
            Ok((header, rest)) => r matches Ok(h) && h@ == header && buf_bytes(final(buf))
                == rest,
            Err(e) => r == Err::<QueryResultHeader, DecodeError>(e),
        },
{
    if !read_magic(buf) {
        return Err(DecodeError::MalformedHeader);
    }
    let row_count: u64 = match read_u64(buf) {
        Ok(n) => n,
        Err(e) => {
            return Err(e);
        },
    };
    let column_count: u64 = match read_u64(buf) {
        Ok(n) => n,
        Err(e) => {
            return Err(e);
        },
    };
    match read_names(buf, column_count) {
        Ok(columns) => Ok(QueryResultHeader { row_count, column_count, columns }),
        Err(e) => Err(e),
    }
}

/// Decodes the header segment of a response.
///
/// The header is read from the front of `bytes`; what follows it is not
/// looked at, so a row body may stand behind it in the same buffer. A buffer
/// that does not start with the magic marker is rejected as
/// `MalformedHeader` whatever else it holds, and nothing else is. A buffer
/// that ends before the counts or within a name is rejected as
/// `TruncatedPayload`, a name that is not UTF-8 as `InvalidText`.
pub fn deserialize_header(bytes: &Vec<u8>) -> (r: Result<QueryResultHeader, DecodeError>)
    ensures
        match parse_header(bytes@) {
            Ok((header, _)) => r matches Ok(h) && h@ == header,
            Err(e) => r == Err::<QueryResultHeader, DecodeError>(e),
        },
        r == Err::<QueryResultHeader, DecodeError>(DecodeError::MalformedHeader) <==> !has_magic(
            bytes@,
        ),
        r matches Ok(h) ==> h.wf(),
{
    proof {
        lemma_parse_header_shape(bytes@);
    }
    let mut buf = buffer_from(bytes.as_slice());
    read_header(&mut buf)
}

/// The length of the header segment at the front of `bytes`: where the
/// header ends, and a row body that stands behind it in the same buffer
/// begins. It is found from the header alone. A buffer that holds no header
/// is rejected as `deserialize_header` rejects it.
pub fn header_length(bytes: &Vec<u8>) -> (r: Result<usize, DecodeError>)
    ensures
        match parse_header(bytes@) {
            Ok((_, rest)) => r == Ok::<usize, DecodeError>(taken(bytes@, rest) as usize) && 20
                <= taken(bytes@, rest) <= bytes@.len() && bytes@.skip(taken(bytes@, rest)) == rest,
            Err(e) => r == Err::<usize, DecodeError>(e),
        },
{
    proof {
        if parse_header(bytes@) is Ok {
            lemma_header_is_self_delimiting(bytes@, Seq::empty());
        }
    }
    let mut buf = buffer_from(bytes.as_slice());
    match read_header(&mut buf) {
        Ok(_) => Ok(bytes.len() - buffer_len(&buf)),
        Err(e) => Err(e),
    }
}

/// Decodes the row body of a response: `header.row_count` rows of
/// `header.column_count` cells each, from the front of `bytes`.
///
/// A header without rows asks for nothing, so every buffer, the empty one
/// too, then gives no rows. What follows the last cell is not looked at.
pub fn deserialize_rows(bytes: &Vec<u8>, header: &QueryResultHeader) -> (r: Result<
    Vec<Vec<TypedValue>>,
    DecodeError,
>)
    ensures
        match parse_rows(bytes@, header.row_count as nat, header.column_count as nat) {
            Ok((rows, _)) => r matches Ok(v) && v.deep_view() == rows,
            Err(e) => r == Err::<Vec<Vec<TypedValue>>, DecodeError>(e),
        },
        r matches Ok(v) ==> v.len() == header.row_count && forall|i: int|
            0 <= i < v.len() ==> (#[trigger] v[i]).len() == header.column_count,
        !(r == Err::<Vec<Vec<TypedValue>>, DecodeError>(DecodeError::MalformedHeader)),
{
    proof {
        lemma_parse_rows_shape(bytes@, header.row_count as nat, header.column_count as nat);
    }
    let mut buf = buffer_from(bytes.as_slice());
    let r = read_rows(&mut buf, header.row_count, header.column_count);
    proof {
        if r is Ok {
            let v = r->Ok_0;
            let rows = v.deep_view();
            assert(v.len() == rows.len());
            assert forall|i: int| 0 <= i < v.len() implies (#[trigger] v[i]).len()
                == header.column_count by {
                assert(rows[i].len() == header.column_count);
                assert(rows[i] == v[i].deep_view());
            }
        }
    }
    r
}

/// Decodes a response from its message parts.
///
/// The first part is the header segment. The second part, where there is
/// one, is the row body; a response of one part has an empty row body, which
/// is all that a header without rows asks for. Further parts are not looked
/// at. A message without parts, or whose first part does not start with the
/// magic marker, is rejected as `MalformedHeader`, and nothing else is.
pub fn decode_response(parts: &Vec<Vec<u8>>) -> (r: Result<QueryResult, DecodeError>)
    ensures
        match parse_response(parts_bytes(parts@)) {
            Ok(result) => r matches Ok(decoded) && decoded@ == result,
            Err(e) => r == Err::<QueryResult, DecodeError>(e),
        },
        r matches Ok(decoded) ==> decoded.counts_agree(),
        r == Err::<QueryResult, DecodeError>(DecodeError::MalformedHeader) <==> (parts.len() == 0
            || !has_magic(parts[0]@)),
{
    if parts.len() == 0 {
        return Err(DecodeError::MalformedHeader);
    }
    let header = match deserialize_header(&parts[0]) {
        Ok(header) => header,
        Err(e) => {
            return Err(e);
        },
    };
    let decoded = if parts.len() > 1 {
        deserialize_rows(&parts[1], &header)
    } else {
        let body: Vec<u8> = Vec::new();
        deserialize_rows(&body, &header)
    };
    match decoded {
        Ok(rows) => {
            let result = QueryResult { header, rows };
            proof {
                let model = result@;
                assert forall|i: int| 0 <= i < model.rows.len() implies (#[trigger] model.rows[i]).len()
                    == model.header.column_count by {
                    assert(model.rows[i] == result.rows[i].deep_view());
                }
            }
            Ok(result)
        },
        Err(e) => Err(e),
    }
}

} // verus!
