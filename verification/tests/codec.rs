use sequent::{
    decode_response, deserialize_header, deserialize_rows, empty_response, encode_response,
    header_length, serialize_header, serialize_rows, DecodeError, QueryResult, QueryResultHeader,
    TypedValue, DEFAULT_PORT,
};

fn be(n: u64) -> Vec<u8> {
    n.to_be_bytes().to_vec()
}

fn sentinel() -> Vec<u8> {
    let mut bytes = vec![0x53u8, 0x51, 0x4E, 0x54];
    bytes.extend_from_slice(&[0u8; 16]);
    bytes
}

fn header(row_count: u64, columns: &[&str]) -> QueryResultHeader {
    QueryResultHeader {
        row_count,
        column_count: columns.len() as u64,
        columns: columns.iter().map(|c| c.to_string()).collect(),
    }
}

fn two_by_three() -> QueryResult {
    QueryResult {
        header: header(2, &["id", "name", "data"]),
        rows: vec![
            vec![TypedValue::Integer(1), TypedValue::Text("alice".to_string()), TypedValue::Null],
            vec![
                TypedValue::Integer(2),
                TypedValue::Text("bob".to_string()),
                TypedValue::Blob(vec![0xDE, 0xAD]),
            ],
        ],
    }
}

fn two_by_three_header_bytes() -> Vec<u8> {
    let mut bytes = b"SQNT".to_vec();
    bytes.extend(be(2));
    bytes.extend(be(3));
    bytes.extend(be(2));
    bytes.extend(b"id");
    bytes.extend(be(4));
    bytes.extend(b"name");
    bytes.extend(be(4));
    bytes.extend(b"data");
    bytes
}

fn two_by_three_row_bytes() -> Vec<u8> {
    let mut bytes = vec![1u8];
    bytes.extend(be(1));
    bytes.push(3);
    bytes.extend(be(5));
    bytes.extend(b"alice");
    bytes.push(0);
    bytes.push(1);
    bytes.extend(be(2));
    bytes.push(3);
    bytes.extend(be(3));
    bytes.extend(b"bob");
    bytes.push(4);
    bytes.extend(be(2));
    bytes.extend([0xDE, 0xAD]);
    bytes
}

#[test]
fn default_port_is_9087() {
    assert_eq!(DEFAULT_PORT, 9087);
}

#[test]
fn empty_response_is_the_twenty_byte_sentinel() {
    let bytes = empty_response();
    assert_eq!(bytes.len(), 20);
    assert_eq!(bytes, sentinel());
    assert_eq!(
        bytes,
        vec![0x53, 0x51, 0x4E, 0x54, 0, 0, 0, 0, 0, 0, 0, 0, 0, 0, 0, 0, 0, 0, 0, 0]
    );
}

#[test]
fn two_by_three_result_encodes_to_the_exact_bytes() {
    let result = two_by_three();
    assert_eq!(serialize_header(&result.header), Some(two_by_three_header_bytes()));
    assert_eq!(serialize_rows(&result.rows), Some(two_by_three_row_bytes()));
    assert_eq!(
        encode_response(&result),
        Some(vec![two_by_three_header_bytes(), two_by_three_row_bytes()])
    );
}

#[test]
fn two_by_three_result_decodes_to_the_same_result() {
    let parts = vec![two_by_three_header_bytes(), two_by_three_row_bytes()];
    assert_eq!(decode_response(&parts), Ok(two_by_three()));
    let decoded_header = deserialize_header(&parts[0]).unwrap();
    assert_eq!(decoded_header, two_by_three().header);
    assert_eq!(deserialize_rows(&parts[1], &decoded_header), Ok(two_by_three().rows));
}

#[test]
fn encoding_is_deterministic() {
    assert_eq!(encode_response(&two_by_three()), encode_response(&two_by_three()));
}

#[test]
fn round_trip_of_all_variants() {
    let result = QueryResult {
        header: header(3, &["a", "", "c\u{e9}", "d", "e"]),
        rows: vec![
            vec![
                TypedValue::Null,
                TypedValue::Integer(0),
                TypedValue::Float(1.5f64.to_bits()),
                TypedValue::Text(String::new()),
                TypedValue::Blob(Vec::new()),
            ],
            vec![
                TypedValue::Integer(-1),
                TypedValue::Integer(i64::MIN),
                TypedValue::Float(f64::NAN.to_bits()),
                TypedValue::Text("gr\u{fc}\u{df}e \u{1F600}".to_string()),
                TypedValue::Blob(vec![0xFF, 0x00, 0x80]),
            ],
            vec![
                TypedValue::Integer(i64::MAX),
                TypedValue::Float(f64::INFINITY.to_bits()),
                TypedValue::Float(f64::NEG_INFINITY.to_bits()),
                TypedValue::Float((-0.0f64).to_bits()),
                TypedValue::Null,
            ],
        ],
    };
    assert!(result.has_consistent_counts());
    let parts = encode_response(&result).unwrap();
    assert_eq!(parts.len(), 2);
    assert_eq!(decode_response(&parts), Ok(result));
}

#[test]
fn round_trip_keeps_the_bits_of_a_float() {
    let bits = 0x7FF8_0000_0000_1234u64;
    let result = QueryResult { header: header(1, &["x"]), rows: vec![vec![TypedValue::Float(bits)]] };
    let parts = encode_response(&result).unwrap();
    let decoded = decode_response(&parts).unwrap();
    assert_eq!(decoded.rows[0][0], TypedValue::Float(bits));
}

#[test]
fn round_trip_of_rows_without_cells() {
    let result = QueryResult { header: header(3, &[]), rows: vec![vec![], vec![], vec![]] };
    let parts = encode_response(&result).unwrap();
    assert_eq!(parts.len(), 1);
    assert_eq!(decode_response(&parts), Ok(result));
}

#[test]
fn empty_result_encodes_to_the_sentinel_alone() {
    let result = QueryResult::empty();
    assert_eq!(result.header.row_count, 0);
    assert_eq!(result.header.column_count, 0);
    assert!(result.header.columns.is_empty());
    assert!(result.rows.is_empty());
    assert_eq!(encode_response(&result), Some(vec![sentinel()]));
    assert_eq!(serialize_rows(&result.rows), Some(Vec::new()));
}

#[test]
fn result_without_rows_always_encodes_to_the_sentinel() {
    let with_columns = QueryResult { header: header(0, &["id", "name"]), rows: Vec::new() };
    assert_eq!(encode_response(&with_columns), Some(vec![sentinel()]));
    let parts = encode_response(&with_columns).unwrap();
    assert_eq!(parts.len(), 1);
    assert_eq!(parts[0].len(), 20);
    assert_eq!(decode_response(&parts), Ok(QueryResult::empty()));
}

#[test]
fn sentinel_decodes_to_the_empty_result() {
    assert_eq!(decode_response(&vec![sentinel()]), Ok(QueryResult::empty()));
    assert_eq!(decode_response(&vec![sentinel(), Vec::new()]), Ok(QueryResult::empty()));
    assert_eq!(deserialize_header(&sentinel()), Ok(header(0, &[])));
}

#[test]
fn header_without_rows_needs_no_row_body() {
    let mut bytes = b"SQNT".to_vec();
    bytes.extend(be(0));
    bytes.extend(be(1));
    bytes.extend(be(2));
    bytes.extend(b"id");
    let expected = QueryResult { header: header(0, &["id"]), rows: Vec::new() };
    assert_eq!(decode_response(&vec![bytes.clone()]), Ok(expected.clone()));
    assert_eq!(decode_response(&vec![bytes.clone(), Vec::new()]), Ok(expected.clone()));
    assert_eq!(deserialize_rows(&Vec::new(), &expected.header), Ok(Vec::new()));
    assert!(expected.has_consistent_counts());
}

#[test]
fn integers_are_big_endian_twos_complement() {
    assert_eq!(
        serialize_rows(&vec![vec![TypedValue::Integer(1)]]),
        Some(vec![1, 0, 0, 0, 0, 0, 0, 0, 1])
    );
    assert_eq!(
        serialize_rows(&vec![vec![TypedValue::Integer(-1)]]),
        Some(vec![1, 0xFF, 0xFF, 0xFF, 0xFF, 0xFF, 0xFF, 0xFF, 0xFF])
    );
    assert_eq!(
        serialize_rows(&vec![vec![TypedValue::Integer(-2)]]),
        Some(vec![1, 0xFF, 0xFF, 0xFF, 0xFF, 0xFF, 0xFF, 0xFF, 0xFE])
    );
    assert_eq!(
        serialize_rows(&vec![vec![TypedValue::Integer(i64::MIN)]]),
        Some(vec![1, 0x80, 0, 0, 0, 0, 0, 0, 0])
    );
    assert_eq!(
        serialize_rows(&vec![vec![TypedValue::Integer(0x0102030405060708)]]),
        Some(vec![1, 1, 2, 3, 4, 5, 6, 7, 8])
    );
}

#[test]
fn floats_are_big_endian_ieee_754() {
    assert_eq!(
        serialize_rows(&vec![vec![TypedValue::Float(1.2f64.to_bits())]]),
        Some(vec![2, 0x3F, 0xF3, 0x33, 0x33, 0x33, 0x33, 0x33, 0x33])
    );
    let body = vec![2, 0x3F, 0xF3, 0x33, 0x33, 0x33, 0x33, 0x33, 0x33];
    let rows = deserialize_rows(&body, &header(1, &["x"])).unwrap();
    match rows[0][0] {
        TypedValue::Float(bits) => assert_eq!(f64::from_bits(bits), 1.2f64),
        _ => panic!("not a float"),
    }
}

#[test]
fn null_text_and_blob_have_their_tags() {
    assert_eq!(serialize_rows(&vec![vec![TypedValue::Null]]), Some(vec![0]));
    assert_eq!(
        serialize_rows(&vec![vec![TypedValue::Text("hi".to_string())]]),
        Some(vec![3, 0, 0, 0, 0, 0, 0, 0, 2, b'h', b'i'])
    );
    assert_eq!(
        serialize_rows(&vec![vec![TypedValue::Blob(vec![9, 8, 7])]]),
        Some(vec![4, 0, 0, 0, 0, 0, 0, 0, 3, 9, 8, 7])
    );
    assert_eq!(
        serialize_rows(&vec![vec![TypedValue::Text("\u{e9}".to_string())]]),
        Some(vec![3, 0, 0, 0, 0, 0, 0, 0, 2, 0xC3, 0xA9])
    );
}

#[test]
fn rows_are_written_in_row_major_order() {
    let rows = vec![
        vec![TypedValue::Integer(1), TypedValue::Integer(2)],
        vec![TypedValue::Integer(3), TypedValue::Integer(4)],
    ];
    let mut expected = Vec::new();
    for n in 1u64..=4 {
        expected.push(1u8);
        expected.extend(be(n));
    }
    assert_eq!(serialize_rows(&rows), Some(expected));
}

#[test]
fn header_is_written_as_it_stands() {
    let odd = QueryResultHeader {
        row_count: 7,
        column_count: 2,
        columns: vec!["only".to_string()],
    };
    let mut expected = b"SQNT".to_vec();
    expected.extend(be(7));
    expected.extend(be(2));
    expected.extend(be(4));
    expected.extend(b"only");
    assert_eq!(serialize_header(&odd), Some(expected));
}

#[test]
fn wrong_magic_is_a_malformed_header() {
    let mut bytes = sentinel();
    bytes[0] = b'X';
    assert_eq!(deserialize_header(&bytes), Err(DecodeError::MalformedHeader));
    let mut bytes = sentinel();
    bytes[3] = b't';
    assert_eq!(deserialize_header(&bytes), Err(DecodeError::MalformedHeader));
    assert_eq!(decode_response(&vec![bytes]), Err(DecodeError::MalformedHeader));
}

#[test]
fn wrong_magic_wins_over_everything_behind_it() {
    let good = two_by_three_header_bytes();
    let mut bad = good.clone();
    bad[1] = 0;
    assert_eq!(deserialize_header(&bad), Err(DecodeError::MalformedHeader));
    assert_eq!(deserialize_header(&b"SQNX".to_vec()), Err(DecodeError::MalformedHeader));
    let mut garbage = b"QSNT".to_vec();
    garbage.extend([0xFFu8; 40]);
    assert_eq!(deserialize_header(&garbage), Err(DecodeError::MalformedHeader));
}

#[test]
fn missing_magic_is_a_malformed_header() {
    assert_eq!(deserialize_header(&Vec::new()), Err(DecodeError::MalformedHeader));
    assert_eq!(deserialize_header(&b"SQN".to_vec()), Err(DecodeError::MalformedHeader));
    assert_eq!(decode_response(&Vec::new()), Err(DecodeError::MalformedHeader));
    assert_eq!(decode_response(&vec![Vec::new()]), Err(DecodeError::MalformedHeader));
}

#[test]
fn header_cut_within_the_counts_is_truncated() {
    assert_eq!(deserialize_header(&b"SQNT".to_vec()), Err(DecodeError::TruncatedPayload));
    let bytes = sentinel();
    for len in 4..20 {
        assert_eq!(
            deserialize_header(&bytes[..len].to_vec()),
            Err(DecodeError::TruncatedPayload)
        );
    }
}

#[test]
fn column_name_longer_than_the_buffer_is_truncated() {
    let mut bytes = b"SQNT".to_vec();
    bytes.extend(be(1));
    bytes.extend(be(1));
    bytes.extend(be(5));
    bytes.extend(b"name");
    assert_eq!(deserialize_header(&bytes), Err(DecodeError::TruncatedPayload));
    let mut huge = b"SQNT".to_vec();
    huge.extend(be(1));
    huge.extend(be(1));
    huge.extend(be(u64::MAX));
    huge.extend(b"name");
    assert_eq!(deserialize_header(&huge), Err(DecodeError::TruncatedPayload));
}

#[test]
fn more_columns_than_names_is_truncated() {
    let mut bytes = b"SQNT".to_vec();
    bytes.extend(be(1));
    bytes.extend(be(u64::MAX));
    bytes.extend(be(2));
    bytes.extend(b"id");
    assert_eq!(deserialize_header(&bytes), Err(DecodeError::TruncatedPayload));
}

#[test]
fn text_longer_than_the_buffer_is_truncated() {
    let mut body = vec![3u8];
    body.extend(be(6));
    body.extend(b"alice");
    assert_eq!(deserialize_rows(&body, &header(1, &["x"])), Err(DecodeError::TruncatedPayload));
    let mut huge = vec![3u8];
    huge.extend(be(u64::MAX));
    assert_eq!(deserialize_rows(&huge, &header(1, &["x"])), Err(DecodeError::TruncatedPayload));
}

#[test]
fn blob_longer_than_the_buffer_is_truncated() {
    let mut body = vec![4u8];
    body.extend(be(3));
    body.extend([0xDE, 0xAD]);
    assert_eq!(deserialize_rows(&body, &header(1, &["x"])), Err(DecodeError::TruncatedPayload));
    let mut after_good = vec![0u8, 4];
    after_good.extend(be(1 << 40));
    after_good.extend([1, 2, 3]);
    assert_eq!(
        deserialize_rows(&after_good, &header(1, &["x", "y"])),
        Err(DecodeError::TruncatedPayload)
    );
}

#[test]
fn row_body_cut_short_is_truncated() {
    assert_eq!(
        deserialize_rows(&Vec::new(), &header(1, &["x"])),
        Err(DecodeError::TruncatedPayload)
    );
    assert_eq!(
        deserialize_rows(&vec![1, 0, 0, 0], &header(1, &["x"])),
        Err(DecodeError::TruncatedPayload)
    );
    assert_eq!(
        deserialize_rows(&vec![2, 0, 0, 0, 0, 0, 0, 0], &header(1, &["x"])),
        Err(DecodeError::TruncatedPayload)
    );
    assert_eq!(
        deserialize_rows(&vec![3, 0, 0], &header(1, &["x"])),
        Err(DecodeError::TruncatedPayload)
    );
    assert_eq!(
        deserialize_rows(&two_by_three_row_bytes(), &header(3, &["id", "name", "data"])),
        Err(DecodeError::TruncatedPayload)
    );
    let parts = vec![two_by_three_header_bytes()];
    assert_eq!(decode_response(&parts), Err(DecodeError::TruncatedPayload));
}

#[test]
fn unknown_tag_is_an_invalid_tag() {
    assert_eq!(deserialize_rows(&vec![5], &header(1, &["x"])), Err(DecodeError::InvalidTag));
    assert_eq!(deserialize_rows(&vec![255], &header(1, &["x"])), Err(DecodeError::InvalidTag));
    assert_eq!(
        deserialize_rows(&vec![0, 0, 9], &header(1, &["x", "y", "z"])),
        Err(DecodeError::InvalidTag)
    );
}

#[test]
fn text_that_is_not_utf8_is_an_invalid_text() {
    let mut body = vec![3u8];
    body.extend(be(2));
    body.extend([0xC3, 0x28]);
    assert_eq!(deserialize_rows(&body, &header(1, &["x"])), Err(DecodeError::InvalidText));
    let mut blob = vec![4u8];
    blob.extend(be(2));
    blob.extend([0xC3, 0x28]);
    assert_eq!(
        deserialize_rows(&blob, &header(1, &["x"])),
        Ok(vec![vec![TypedValue::Blob(vec![0xC3, 0x28])]])
    );
}

#[test]
fn column_name_that_is_not_utf8_is_an_invalid_text() {
    let mut bytes = b"SQNT".to_vec();
    bytes.extend(be(1));
    bytes.extend(be(1));
    bytes.extend(be(1));
    bytes.push(0xFF);
    assert_eq!(deserialize_header(&bytes), Err(DecodeError::InvalidText));
}

#[test]
fn first_error_in_reading_order_is_reported() {
    let mut body = vec![9u8, 3];
    body.extend(be(100));
    assert_eq!(deserialize_rows(&body, &header(1, &["x", "y"])), Err(DecodeError::InvalidTag));
    let mut body = vec![3u8];
    body.extend(be(100));
    body.push(9);
    assert_eq!(
        deserialize_rows(&body, &header(1, &["x", "y"])),
        Err(DecodeError::TruncatedPayload)
    );
}

#[test]
fn header_is_found_in_front_of_a_row_body() {
    let mut joined = two_by_three_header_bytes();
    joined.extend(two_by_three_row_bytes());
    assert_eq!(deserialize_header(&joined), Ok(two_by_three().header));
    let mut longer = two_by_three_row_bytes();
    longer.extend([7, 7, 7]);
    assert_eq!(deserialize_rows(&longer, &two_by_three().header), Ok(two_by_three().rows));
}

#[test]
fn header_length_finds_the_row_body_behind_the_header() {
    let header_bytes = two_by_three_header_bytes();
    let mut joined = header_bytes.clone();
    joined.extend(two_by_three_row_bytes());
    assert_eq!(header_length(&header_bytes), Ok(header_bytes.len()));
    assert_eq!(header_length(&joined), Ok(header_bytes.len()));
    assert_eq!(header_length(&joined), Ok(20 + 10 + 12 + 12));
    let decoded_header = deserialize_header(&joined).unwrap();
    let body = joined[header_length(&joined).unwrap()..].to_vec();
    assert_eq!(deserialize_rows(&body, &decoded_header), Ok(two_by_three().rows));
    assert_eq!(header_length(&sentinel()), Ok(20));
}

#[test]
fn header_length_fails_as_the_header_does() {
    assert_eq!(header_length(&Vec::new()), Err(DecodeError::MalformedHeader));
    assert_eq!(header_length(&b"SQNX".to_vec()), Err(DecodeError::MalformedHeader));
    assert_eq!(header_length(&b"SQNT".to_vec()), Err(DecodeError::TruncatedPayload));
    let mut cut = two_by_three_header_bytes();
    cut.pop();
    assert_eq!(header_length(&cut), Err(DecodeError::TruncatedPayload));
}

#[test]
fn decoded_results_have_consistent_counts() {
    let decoded = decode_response(&vec![two_by_three_header_bytes(), two_by_three_row_bytes()])
        .unwrap();
    assert!(decoded.has_consistent_counts());
    assert_eq!(decoded.header.columns.len() as u64, decoded.header.column_count);
    assert_eq!(decoded.rows.len() as u64, decoded.header.row_count);
    for row in &decoded.rows {
        assert_eq!(row.len() as u64, decoded.header.column_count);
    }
}

#[test]
fn consistency_of_counts_is_told_apart() {
    assert!(two_by_three().has_consistent_counts());
    assert!(QueryResult::empty().has_consistent_counts());
    let mut wrong_rows = two_by_three();
    wrong_rows.header.row_count = 3;
    assert!(!wrong_rows.has_consistent_counts());
    let mut wrong_columns = two_by_three();
    wrong_columns.header.column_count = 2;
    assert!(!wrong_columns.has_consistent_counts());
    let mut ragged = two_by_three();
    ragged.rows[1].pop();
    assert!(!ragged.has_consistent_counts());
    let mut missing_name = two_by_three();
    missing_name.header.columns.pop();
    assert!(!missing_name.has_consistent_counts());
}

#[test]
fn assemble_counts_rows_and_columns() {
    let rows = two_by_three().rows;
    let columns = two_by_three().header.columns;
    assert_eq!(QueryResult::assemble(rows, columns), Some(two_by_three()));
}

#[test]
fn assemble_without_rows_is_the_empty_result() {
    let columns = vec!["id".to_string(), "name".to_string()];
    assert_eq!(QueryResult::assemble(Vec::new(), columns), Some(QueryResult::empty()));
    assert_eq!(QueryResult::assemble(Vec::new(), Vec::new()), Some(QueryResult::empty()));
}

#[test]
fn assemble_refuses_rows_of_another_width() {
    let columns = vec!["id".to_string(), "name".to_string()];
    let rows = vec![vec![TypedValue::Null, TypedValue::Null], vec![TypedValue::Null]];
    assert_eq!(QueryResult::assemble(rows, columns.clone()), None);
    let rows = vec![vec![TypedValue::Null, TypedValue::Null, TypedValue::Null]];
    assert_eq!(QueryResult::assemble(rows, columns), None);
}
