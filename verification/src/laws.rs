//! What holds of the wire format, proved from its definition.

use crate::bigendian::{
    i64_be_bytes, lemma_i64_be_round_trip, lemma_u64_be_round_trip, u64_be_bytes,
    u64_from_be_bytes,
};
use crate::format::{
    announces_too_much, chunk_bytes, has_magic, header_bytes, magic, names_bytes, names_fit,
    parse_chunk, parse_header, parse_names, parse_response, parse_rows, parse_text, parse_u64,
    parse_value, parse_values, response_parts, result_fits, row_fits, rows_bytes, rows_fit,
    sentinel, taken, text_bytes, value_bytes, value_fits, values_bytes,
};
use crate::model::{rows_have_width, DecodeError, HeaderModel, ResultModel, ValueModel};
use vstd::prelude::*;
use vstd::utf8::{encode_utf8, encode_utf8_decode_utf8, encode_utf8_valid_utf8};

verus! {

/// A parse of `count` cells that succeeds gives `count` cells, and one that
/// fails never blames the header.
pub proof fn lemma_parse_values_shape(bytes: Seq<u8>, count: nat)
    ensures
        match parse_values(bytes, count) {
            Ok((values, _)) => values.len() == count,
            Err(e) => e != DecodeError::MalformedHeader,
        },
    decreases count,
{
    if count > 0 {
        if let Ok((_, rest)) = parse_value(bytes) {
            lemma_parse_values_shape(rest, (count - 1) as nat);
        }
    }
}

/// A parse of a row body that succeeds gives as many rows as asked for, each
/// with as many cells as asked for, and one that fails never blames the
/// header.
pub proof fn lemma_parse_rows_shape(bytes: Seq<u8>, row_count: nat, column_count: nat)
    ensures
        match parse_rows(bytes, row_count, column_count) {
            Ok((rows, _)) => rows.len() == row_count && forall|i: int|
                0 <= i < rows.len() ==> (#[trigger] rows[i]).len() == column_count,
            Err(e) => e != DecodeError::MalformedHeader,
        },
    decreases row_count,
{
    if row_count > 0 {
        lemma_parse_values_shape(bytes, column_count);
        if let Ok((_, rest)) = parse_values(bytes, column_count) {
            lemma_parse_rows_shape(rest, (row_count - 1) as nat, column_count);
        }
    }
}

/// A parse of `count` names that succeeds gives `count` names, and one that
/// fails never blames the header.
pub proof fn lemma_parse_names_shape(bytes: Seq<u8>, count: nat)
    ensures
        match parse_names(bytes, count) {
            Ok((names, _)) => names.len() == count,
            Err(e) => e != DecodeError::MalformedHeader,
        },
    decreases count,
{
    if count > 0 {
        if let Ok((_, rest)) = parse_text(bytes) {
            lemma_parse_names_shape(rest, (count - 1) as nat);
        }
    }
}

/// A header that parses has as many names as it counts columns, and the
/// parse fails with `MalformedHeader` exactly where the magic marker is
/// missing: the bytes after the first four play no part in that.
pub proof fn lemma_parse_header_shape(bytes: Seq<u8>)
    ensures
        parse_header(bytes) matches Ok((header, _)) ==> header.wf(),
        parse_header(bytes) == Err::<(HeaderModel, Seq<u8>), DecodeError>(
            DecodeError::MalformedHeader,
        ) <==> !has_magic(bytes),
{
    if has_magic(bytes) {
        if let Ok((_, after_rows)) = parse_u64(bytes.skip(4)) {
            if let Ok((column_count, after_columns)) = parse_u64(after_rows) {
                lemma_parse_names_shape(after_columns, column_count as nat);
            }
        }
    }
}

/// The empty response is the header of the empty result: the marker and two
/// counts of zero.
pub proof fn lemma_sentinel_is_empty_header()
    ensures
        sentinel() == magic() + u64_be_bytes(0) + u64_be_bytes(0),
        sentinel() == header_bytes(ResultModel::empty().header),
        sentinel().len() == 20,
{
    assert(sentinel() =~= magic() + u64_be_bytes(0) + u64_be_bytes(0));
    assert(header_bytes(ResultModel::empty().header) =~= magic() + u64_be_bytes(0) + u64_be_bytes(
        0,
    ));
}

/// Empty-result form: a result without rows is encoded as the empty
/// response alone, twenty bytes and no row body; and a well-formed result
/// without rows is the empty result, of which those bytes are the header.
pub proof fn lemma_empty_result_bytes(result: ResultModel)
    requires
        result.header.row_count == 0,
    ensures
        response_parts(result) == seq![sentinel()],
        sentinel().len() == 20,
        result.wf() ==> result == ResultModel::empty() && sentinel() == header_bytes(result.header),
{
    lemma_sentinel_is_empty_header();
    if result.wf() {
        assert(result.rows =~= Seq::empty());
        assert(result.header.columns =~= Seq::empty());
    }
}

/// A payload behind its length is read back as it was written, and what
/// follows it is left.
pub proof fn lemma_chunk_round_trip(payload: Seq<u8>, rest: Seq<u8>)
    requires
        payload.len() <= u64::MAX,
    ensures
        parse_chunk(chunk_bytes(payload) + rest) == Ok::<(Seq<u8>, Seq<u8>), DecodeError>(
            (payload, rest),
        ),
{
    let len = payload.len() as u64;
    let bytes = chunk_bytes(payload) + rest;
    lemma_u64_be_round_trip(len, payload + rest);
    assert(bytes =~= u64_be_bytes(len) + (payload + rest));
    assert(bytes.skip(8) =~= payload + rest);
    assert((payload + rest).take(len as int) =~= payload);
    assert((payload + rest).skip(len as int) =~= rest);
}

/// A text is read back as it was written, and what follows it is left.
pub proof fn lemma_text_round_trip(text: Seq<char>, rest: Seq<u8>)
    requires
        encode_utf8(text).len() <= u64::MAX,
    ensures
        parse_text(text_bytes(text) + rest) == Ok::<(Seq<char>, Seq<u8>), DecodeError>(
            (text, rest),
        ),
{
    lemma_chunk_round_trip(encode_utf8(text), rest);
    encode_utf8_valid_utf8(text);
    encode_utf8_decode_utf8(text);
}

/// A cell is read back as it was written, and what follows it is left.
pub proof fn lemma_value_round_trip(value: ValueModel, rest: Seq<u8>)
    requires
        value_fits(value),
    ensures
        parse_value(value_bytes(value) + rest) == Ok::<(ValueModel, Seq<u8>), DecodeError>(
            (value, rest),
        ),
{
    let bytes = value_bytes(value) + rest;
    match value {
        ValueModel::Null => {
            assert(bytes.skip(1) =~= rest);
        },
        ValueModel::Integer(i) => {
            lemma_i64_be_round_trip(i, rest);
            assert(bytes.skip(1) =~= i64_be_bytes(i) + rest);
            assert(bytes.skip(1).skip(8) =~= rest);
        },
        ValueModel::Float(bits) => {
            lemma_u64_be_round_trip(bits, rest);
            assert(bytes.skip(1) =~= u64_be_bytes(bits) + rest);
            assert(bytes.skip(1).skip(8) =~= rest);
        },
        ValueModel::Text(text) => {
            lemma_text_round_trip(text, rest);
            assert(bytes.skip(1) =~= text_bytes(text) + rest);
        },
        ValueModel::Blob(payload) => {
            lemma_chunk_round_trip(payload, rest);
            assert(bytes.skip(1) =~= chunk_bytes(payload) + rest);
        },
    }
}

/// An unsigned integer is read back as it was written, and what follows it
/// is left.
pub proof fn lemma_parse_u64_round_trip(n: u64, rest: Seq<u8>)
    ensures
        parse_u64(u64_be_bytes(n) + rest) == Ok::<(u64, Seq<u8>), DecodeError>((n, rest)),
{
    lemma_u64_be_round_trip(n, rest);
    assert((u64_be_bytes(n) + rest).skip(8) =~= rest);
}

/// The cells of a row are read back as they were written, and what follows
/// them is left.
pub proof fn lemma_values_round_trip(values: Seq<ValueModel>, rest: Seq<u8>)
    requires
        row_fits(values),
    ensures
        parse_values(values_bytes(values) + rest, values.len()) == Ok::<
            (Seq<ValueModel>, Seq<u8>),
            DecodeError,
        >((values, rest)),
    decreases values.len(),
{
    if values.len() == 0 {
        assert(values_bytes(values) + rest =~= rest);
        assert(values =~= Seq::empty());
    } else {
        let tail = values.drop_first();
        let after = values_bytes(tail) + rest;
        assert(values_bytes(values) + rest =~= value_bytes(values[0]) + after);
        assert(value_fits(values[0]));
        lemma_value_round_trip(values[0], after);
        assert(row_fits(tail)) by {
            assert forall|c: int| 0 <= c < tail.len() implies value_fits(#[trigger] tail[c]) by {
                assert(tail[c] == values[c + 1]);
            }
        }
        lemma_values_round_trip(tail, rest);
        assert(seq![values[0]] + tail =~= values);
    }
}

/// The rows of a row body are read back as they were written, and what
/// follows them is left.
pub proof fn lemma_rows_round_trip(rows: Seq<Seq<ValueModel>>, column_count: nat, rest: Seq<u8>)
    requires
        rows_have_width(rows, column_count),
        rows_fit(rows),
    ensures
        parse_rows(rows_bytes(rows) + rest, rows.len(), column_count) == Ok::<
            (Seq<Seq<ValueModel>>, Seq<u8>),
            DecodeError,
        >((rows, rest)),
    decreases rows.len(),
{
    if rows.len() == 0 {
        assert(rows_bytes(rows) + rest =~= rest);
        assert(rows =~= Seq::empty());
    } else {
        let tail = rows.drop_first();
        let after = rows_bytes(tail) + rest;
        assert(rows_bytes(rows) + rest =~= values_bytes(rows[0]) + after);
        assert(row_fits(rows[0]));
        assert(rows[0].len() == column_count);
        lemma_values_round_trip(rows[0], after);
        assert(rows_have_width(tail, column_count)) by {
            assert forall|r: int| 0 <= r < tail.len() implies (#[trigger] tail[r]).len()
                == column_count by {
                assert(tail[r] == rows[r + 1]);
            }
        }
        assert(rows_fit(tail)) by {
            assert forall|r: int| 0 <= r < tail.len() implies row_fits(#[trigger] tail[r]) by {
                assert(tail[r] == rows[r + 1]);
            }
        }
        lemma_rows_round_trip(tail, column_count, rest);
        assert(seq![rows[0]] + tail =~= rows);
    }
}

/// Column names are read back as they were written, and what follows them is
/// left.
pub proof fn lemma_names_round_trip(names: Seq<Seq<char>>, rest: Seq<u8>)
    requires
        names_fit(names),
    ensures
        parse_names(names_bytes(names) + rest, names.len()) == Ok::<
            (Seq<Seq<char>>, Seq<u8>),
            DecodeError,
        >((names, rest)),
    decreases names.len(),
{
    if names.len() == 0 {
        assert(names_bytes(names) + rest =~= rest);
        assert(names =~= Seq::empty());
    } else {
        let tail = names.drop_first();
        let after = names_bytes(tail) + rest;
        assert(names_bytes(names) + rest =~= text_bytes(names[0]) + after);
        assert(encode_utf8(names[0]).len() <= u64::MAX);
        lemma_text_round_trip(names[0], after);
        assert(names_fit(tail)) by {
            assert forall|c: int| 0 <= c < tail.len() implies encode_utf8(#[trigger] tail[c]).len()
                <= u64::MAX by {
                assert(tail[c] == names[c + 1]);
            }
        }
        lemma_names_round_trip(tail, rest);
        assert(seq![names[0]] + tail =~= names);
    }
}

/// Four segments behind a marker of four bytes start with the marker, and
/// the segments follow it.
proof fn lemma_marker_in_front(
    marker: Seq<u8>,
    first: Seq<u8>,
    second: Seq<u8>,
    third: Seq<u8>,
    rest: Seq<u8>,
)
    requires
        marker.len() == 4,
    ensures
        (marker + first + second + third + rest).take(4) == marker,
        (marker + first + second + third + rest).skip(4) == first + (second + (third + rest)),
{
    let bytes = marker + first + second + third + rest;
    assert(bytes.take(4) =~= marker);
    assert(bytes.skip(4) =~= first + (second + (third + rest)));
}

/// A header whose column count is the number of its names is read back as
/// it was written, and what follows it is left.
pub proof fn lemma_header_round_trip(header: HeaderModel, rest: Seq<u8>)
    requires
        header.wf(),
        names_fit(header.columns),
    ensures
        parse_header(header_bytes(header) + rest) == Ok::<(HeaderModel, Seq<u8>), DecodeError>(
            (header, rest),
        ),
{
    let after_columns = names_bytes(header.columns) + rest;
    let after_rows = u64_be_bytes(header.column_count) + after_columns;
    lemma_marker_in_front(
        magic(),
        u64_be_bytes(header.row_count),
        u64_be_bytes(header.column_count),
        names_bytes(header.columns),
        rest,
    );
    lemma_parse_u64_round_trip(header.row_count, after_rows);
    lemma_parse_u64_round_trip(header.column_count, after_columns);
    lemma_names_round_trip(header.columns, rest);
}

/// Names whose encoding has a length that can be written in 64 bits have
/// such lengths themselves.
pub proof fn lemma_short_names_fit(names: Seq<Seq<char>>)
    requires
        names_bytes(names).len() <= u64::MAX,
    ensures
        names_fit(names),
    decreases names.len(),
{
    if names.len() > 0 {
        let tail = names.drop_first();
        lemma_short_names_fit(tail);
        assert forall|c: int| 0 <= c < names.len() implies encode_utf8(#[trigger] names[c]).len()
            <= u64::MAX by {
            if c > 0 {
                assert(names[c] == tail[c - 1]);
            }
        }
    }
}

/// Cells whose encoding has a length that can be written in 64 bits have
/// payloads of such lengths.
pub proof fn lemma_short_row_fits(values: Seq<ValueModel>)
    requires
        values_bytes(values).len() <= u64::MAX,
    ensures
        row_fits(values),
    decreases values.len(),
{
    if values.len() > 0 {
        let tail = values.drop_first();
        lemma_short_row_fits(tail);
        assert forall|c: int| 0 <= c < values.len() implies value_fits(#[trigger] values[c]) by {
            if c > 0 {
                assert(values[c] == tail[c - 1]);
            }
        }
    }
}

/// Rows whose encoding has a length that can be written in 64 bits have
/// payloads of such lengths.
pub proof fn lemma_short_rows_fit(rows: Seq<Seq<ValueModel>>)
    requires
        rows_bytes(rows).len() <= u64::MAX,
    ensures
        rows_fit(rows),
    decreases rows.len(),
{
    if rows.len() > 0 {
        let tail = rows.drop_first();
        lemma_short_rows_fit(tail);
        lemma_short_row_fits(rows[0]);
        assert forall|r: int| 0 <= r < rows.len() implies row_fits(#[trigger] rows[r]) by {
            if r > 0 {
                assert(rows[r] == tail[r - 1]);
            }
        }
    }
}

/// Round trip: a well-formed result is decoded from its response as it was
/// encoded, whatever mix of values its rows hold.
pub proof fn lemma_response_round_trip(result: ResultModel)
    requires
        result.wf(),
        result_fits(result),
    ensures
        parse_response(response_parts(result)) == Ok::<ResultModel, DecodeError>(result),
{
    let parts = response_parts(result);
    let header = result.header;
    if header.row_count == 0 {
        lemma_empty_result_bytes(result);
    }
    assert(parse_header(parts[0]) == Ok::<(HeaderModel, Seq<u8>), DecodeError>(
        (header, Seq::empty()),
    )) by {
        lemma_header_round_trip(header, Seq::empty());
        assert(header_bytes(header) + Seq::<u8>::empty() =~= header_bytes(header));
    }
    let body = if parts.len() > 1 {
        parts[1]
    } else {
        Seq::empty()
    };
    assert(parse_rows(body, header.row_count as nat, header.column_count as nat) == Ok::<
        (Seq<Seq<ValueModel>>, Seq<u8>),
        DecodeError,
    >((result.rows, Seq::empty()))) by {
        lemma_rows_round_trip(result.rows, header.column_count as nat, Seq::empty());
        assert(rows_bytes(result.rows) + Seq::<u8>::empty() =~= rows_bytes(result.rows));
        assert(body =~= rows_bytes(result.rows));
    }
}

/// A parse of cells fails with the error of the first cell that fails.
pub proof fn lemma_values_first_error(bytes: Seq<u8>, count: nat, before: nat, e: DecodeError)
    requires
        before < count,
        parse_values(bytes, before) matches Ok((_, rest)) && parse_value(rest) == Err::<
            (ValueModel, Seq<u8>),
            DecodeError,
        >(e),
    ensures
        parse_values(bytes, count) == Err::<(Seq<ValueModel>, Seq<u8>), DecodeError>(e),
    decreases before,
{
    if before > 0 {
        let rest = parse_value(bytes)->Ok_0.1;
        lemma_values_first_error(rest, (count - 1) as nat, (before - 1) as nat, e);
    }
}

/// A parse of rows fails with the error of the first row that fails.
pub proof fn lemma_rows_first_error(
    bytes: Seq<u8>,
    row_count: nat,
    column_count: nat,
    before: nat,
    e: DecodeError,
)
    requires
        before < row_count,
        parse_rows(bytes, before, column_count) matches Ok((_, rest)) && parse_values(
            rest,
            column_count,
        ) == Err::<(Seq<ValueModel>, Seq<u8>), DecodeError>(e),
    ensures
        parse_rows(bytes, row_count, column_count) == Err::<
            (Seq<Seq<ValueModel>>, Seq<u8>),
            DecodeError,
        >(e),
    decreases before,
{
    if before > 0 {
        let rest = parse_values(bytes, column_count)->Ok_0.1;
        lemma_rows_first_error(rest, (row_count - 1) as nat, column_count, (before - 1) as nat, e);
    }
}

/// A parse of names fails with the error of the first name that fails.
pub proof fn lemma_names_first_error(bytes: Seq<u8>, count: nat, before: nat, e: DecodeError)
    requires
        before < count,
        parse_names(bytes, before) matches Ok((_, rest)) && parse_text(rest) == Err::<
            (Seq<char>, Seq<u8>),
            DecodeError,
        >(e),
    ensures
        parse_names(bytes, count) == Err::<(Seq<Seq<char>>, Seq<u8>), DecodeError>(e),
    decreases before,
{
    if before > 0 {
        let rest = parse_text(bytes)->Ok_0.1;
        lemma_names_first_error(rest, (count - 1) as nat, (before - 1) as nat, e);
    }
}

/// Truncation, for a text or a blob: where the cells before it parse and
/// its length announces more bytes than follow, the row body is rejected as
/// `TruncatedPayload`.
pub proof fn lemma_truncated_cell(
    bytes: Seq<u8>,
    row_count: nat,
    column_count: nat,
    rows_before: nat,
    cells_before: nat,
)
    requires
        rows_before < row_count,
        cells_before < column_count,
        parse_rows(bytes, rows_before, column_count) matches Ok((_, row)) && parse_values(
            row,
            cells_before,
        ) matches Ok((_, cell)) && cell.len() >= 1 && (cell[0] == 3 || cell[0] == 4)
            && announces_too_much(cell.skip(1)),
    ensures
        parse_rows(bytes, row_count, column_count) == Err::<
            (Seq<Seq<ValueModel>>, Seq<u8>),
            DecodeError,
        >(DecodeError::TruncatedPayload),
{
    let row = parse_rows(bytes, rows_before, column_count)->Ok_0.1;
    lemma_values_first_error(row, column_count, cells_before, DecodeError::TruncatedPayload);
    lemma_rows_first_error(
        bytes,
        row_count,
        column_count,
        rows_before,
        DecodeError::TruncatedPayload,
    );
}

/// Truncation, for a column name: where the marker and the counts are
/// there, the names before it parse and its length announces more bytes than
/// follow, the header is rejected as `TruncatedPayload`.
pub proof fn lemma_truncated_name(bytes: Seq<u8>, names_before: nat)
    requires
        has_magic(bytes),
        bytes.len() >= 20,
        names_before < u64_from_be_bytes(bytes.skip(12)),
        parse_names(bytes.skip(20), names_before) matches Ok((_, name)) && announces_too_much(name),
    ensures
        parse_header(bytes) == Err::<(HeaderModel, Seq<u8>), DecodeError>(
            DecodeError::TruncatedPayload,
        ),
{
    assert(bytes.skip(4).skip(8) =~= bytes.skip(12));
    assert(bytes.skip(12).skip(8) =~= bytes.skip(20));
    lemma_names_first_error(
        bytes.skip(20),
        u64_from_be_bytes(bytes.skip(12)) as nat,
        names_before,
        DecodeError::TruncatedPayload,
    );
}

/// A parse of an unsigned integer takes eight bytes and looks at no other.
pub proof fn lemma_u64_is_self_delimiting(bytes: Seq<u8>, other: Seq<u8>)
    requires
        parse_u64(bytes) is Ok,
    ensures
        parse_u64(bytes)->Ok_0.1 == bytes.skip(8),
        parse_u64(bytes.take(8) + other) == Ok::<(u64, Seq<u8>), DecodeError>(
            (parse_u64(bytes)->Ok_0.0, other),
        ),
{
    let moved = bytes.take(8) + other;
    assert(moved[0] == bytes[0] && moved[1] == bytes[1] && moved[2] == bytes[2] && moved[3]
        == bytes[3] && moved[4] == bytes[4] && moved[5] == bytes[5] && moved[6] == bytes[6]
        && moved[7] == bytes[7]);
    assert(moved.skip(8) =~= other);
}

/// A parse of a payload behind its length takes the length and the payload
/// and looks at no other byte.
pub proof fn lemma_chunk_is_self_delimiting(bytes: Seq<u8>, other: Seq<u8>)
    requires
        parse_chunk(bytes) is Ok,
    ensures
        ({
            let (payload, rest) = parse_chunk(bytes)->Ok_0;
            let used = taken(bytes, rest);
            &&& used == 8 + payload.len()
            &&& rest == bytes.skip(used)
            &&& parse_chunk(bytes.take(used) + other) == Ok::<(Seq<u8>, Seq<u8>), DecodeError>(
                (payload, other),
            )
        }),
{
    let (payload, rest) = parse_chunk(bytes)->Ok_0;
    let used = 8 + payload.len();
    let tail = bytes.subrange(8, used as int) + other;
    lemma_u64_is_self_delimiting(bytes, tail);
    assert(bytes.take(used as int) + other =~= bytes.take(8) + tail);
    assert(bytes.skip(8).skip(payload.len() as int) =~= bytes.skip(used as int));
    assert(bytes.skip(8).take(payload.len() as int) =~= bytes.subrange(8, used as int));
    assert(tail.take(payload.len() as int) =~= bytes.subrange(8, used as int));
    assert(tail.skip(payload.len() as int) =~= other);
}

/// A parse of a text takes its length and its bytes and looks at no other
/// byte.
pub proof fn lemma_text_is_self_delimiting(bytes: Seq<u8>, other: Seq<u8>)
    requires
        parse_text(bytes) is Ok,
    ensures
        ({
            let (text, rest) = parse_text(bytes)->Ok_0;
            let used = taken(bytes, rest);
            &&& 0 <= used <= bytes.len()
            &&& rest == bytes.skip(used)
            &&& parse_text(bytes.take(used) + other) == Ok::<(Seq<char>, Seq<u8>), DecodeError>(
                (text, other),
            )
        }),
{
    lemma_chunk_is_self_delimiting(bytes, other);
}

/// Taking a front in two steps, and skipping it in two steps.
proof fn lemma_front_in_two_steps(bytes: Seq<u8>, first: int, more: int, other: Seq<u8>)
    requires
        0 <= first,
        0 <= more,
        first + more <= bytes.len(),
    ensures
        bytes.take(first + more) + other == bytes.take(first) + (bytes.skip(first).take(more)
            + other),
        bytes.skip(first).skip(more) == bytes.skip(first + more),
        (bytes.take(first) + other).take(first) == bytes.take(first),
        (bytes.take(first) + other).skip(first) == other,
{
    assert(bytes.take(first + more) + other =~= bytes.take(first) + (bytes.skip(first).take(more)
        + other));
    assert(bytes.skip(first).skip(more) =~= bytes.skip(first + more));
    assert((bytes.take(first) + other).take(first) =~= bytes.take(first));
    assert((bytes.take(first) + other).skip(first) =~= other);
}

/// A parse of names takes the names and looks at no other byte.
pub proof fn lemma_names_are_self_delimiting(bytes: Seq<u8>, count: nat, other: Seq<u8>)
    requires
        parse_names(bytes, count) is Ok,
    ensures
        ({
            let (names, rest) = parse_names(bytes, count)->Ok_0;
            let used = taken(bytes, rest);
            &&& 0 <= used <= bytes.len()
            &&& rest == bytes.skip(used)
            &&& parse_names(bytes.take(used) + other, count) == Ok::<
                (Seq<Seq<char>>, Seq<u8>),
                DecodeError,
            >((names, other))
        }),
    decreases count,
{
    if count == 0 {
        assert(bytes.skip(0) =~= bytes);
        assert(bytes.take(0) + other =~= other);
    } else {
        let (name, after_name) = parse_text(bytes)->Ok_0;
        let (names, rest) = parse_names(after_name, (count - 1) as nat)->Ok_0;
        let first = taken(bytes, after_name);
        let more = taken(after_name, rest);
        lemma_names_are_self_delimiting(after_name, (count - 1) as nat, other);
        let tail = after_name.take(more) + other;
        lemma_text_is_self_delimiting(bytes, tail);
        lemma_front_in_two_steps(bytes, first, more, other);
        let moved = bytes.take(first + more) + other;
        assert(moved == bytes.take(first) + tail);
        assert(parse_text(moved) == Ok::<(Seq<char>, Seq<u8>), DecodeError>((name, tail)));
        assert(parse_names(tail, (count - 1) as nat) == Ok::<
            (Seq<Seq<char>>, Seq<u8>),
            DecodeError,
        >((names, other)));
        assert(taken(bytes, rest) == first + more);
    }
}

/// Self-delimiting header: a header that parses ends where its last name
/// ends. What follows it is left as it is, and plays no part in the parse:
/// with anything else behind it, the same header is read. So a row body can
/// be found behind a header without being looked at.
pub proof fn lemma_header_is_self_delimiting(bytes: Seq<u8>, other: Seq<u8>)
    requires
        parse_header(bytes) is Ok,
    ensures
        ({
            let (header, rest) = parse_header(bytes)->Ok_0;
            let used = taken(bytes, rest);
            &&& 20 <= used <= bytes.len()
            &&& rest == bytes.skip(used)
            &&& parse_header(bytes.take(used) + other) == Ok::<(HeaderModel, Seq<u8>), DecodeError>(
                (header, other),
            )
        }),
{
    let (header, rest) = parse_header(bytes)->Ok_0;
    let counts = bytes.skip(4);
    let after_rows = counts.skip(8);
    let after_columns = after_rows.skip(8);
    let more = taken(after_columns, rest);
    lemma_names_are_self_delimiting(after_columns, header.column_count as nat, other);
    let names_tail = after_columns.take(more) + other;
    lemma_u64_is_self_delimiting(after_rows, names_tail);
    let columns_tail = after_rows.take(8) + names_tail;
    lemma_u64_is_self_delimiting(counts, columns_tail);
    let rows_tail = counts.take(8) + columns_tail;
    lemma_front_in_two_steps(after_rows, 8, more, other);
    lemma_front_in_two_steps(counts, 8, 8 + more, other);
    lemma_front_in_two_steps(bytes, 4, 16 + more, other);
    let moved = bytes.take(20 + more) + other;
    assert(moved == bytes.take(4) + rows_tail);
    assert(has_magic(moved) && moved.skip(4) == rows_tail) by {
        lemma_front_in_two_steps(bytes, 4, 0, rows_tail);
    }
    assert(parse_u64(rows_tail) == Ok::<(u64, Seq<u8>), DecodeError>(
        (header.row_count, columns_tail),
    ));
    assert(parse_u64(columns_tail) == Ok::<(u64, Seq<u8>), DecodeError>(
        (header.column_count, names_tail),
    ));
    assert(taken(bytes, rest) == 20 + more);
}

} // verus!
