use sequent::{
    encode_response, show_response, ClientError, DecodeError, QueryResult, QueryResultHeader,
    RenderError, TypedValue,
};

fn float_text(bits: u64) -> String {
    format!("{}", f64::from_bits(bits))
}

fn sentinel() -> Vec<u8> {
    let mut bytes = b"SQNT".to_vec();
    bytes.extend_from_slice(&[0u8; 16]);
    bytes
}

fn result(columns: &[&str], rows: Vec<Vec<TypedValue>>) -> QueryResult {
    QueryResult {
        header: QueryResultHeader {
            row_count: rows.len() as u64,
            column_count: columns.len() as u64,
            columns: columns.iter().map(|c| c.to_string()).collect(),
        },
        rows,
    }
}

#[test]
fn sentinel_alone_is_shown_as_the_placeholder() {
    assert_eq!(show_response(&vec![sentinel()], float_text), Ok("(empty result set)\n".to_string()));
    assert_eq!(
        show_response(&vec![sentinel(), Vec::new()], float_text),
        Ok("(empty result set)\n".to_string())
    );
}

#[test]
fn reply_of_two_parts_is_shown_as_a_table() {
    let parts = encode_response(&result(
        &["id", "name", "data"],
        vec![
            vec![TypedValue::Integer(1), TypedValue::Text("alice".to_string()), TypedValue::Null],
            vec![
                TypedValue::Integer(2),
                TypedValue::Text("bob".to_string()),
                TypedValue::Float(0.5f64.to_bits()),
            ],
        ],
    ))
    .unwrap();
    assert_eq!(parts.len(), 2);
    assert_eq!(show_response(&parts, float_text), Ok("1|alice|NULL\n2|bob  |0.5 \n".to_string()));
}

#[test]
fn reply_that_cannot_be_decoded_is_an_error() {
    assert_eq!(
        show_response(&Vec::new(), float_text),
        Err(ClientError::Decode(DecodeError::MalformedHeader))
    );
    assert_eq!(
        show_response(&vec![b"HTTP/1.1 200 OK".to_vec()], float_text),
        Err(ClientError::Decode(DecodeError::MalformedHeader))
    );
    let good = encode_response(&result(&["x"], vec![vec![TypedValue::Text("abc".to_string())]]))
        .unwrap();
    let mut cut = good.clone();
    cut[1].pop();
    assert_eq!(
        show_response(&cut, float_text),
        Err(ClientError::Decode(DecodeError::TruncatedPayload))
    );
    let mut tagged = good.clone();
    tagged[1][0] = 77;
    assert_eq!(show_response(&tagged, float_text), Err(ClientError::Decode(DecodeError::InvalidTag)));
    let mut garbled = good.clone();
    garbled[1][9] = 0xFF;
    assert_eq!(
        show_response(&garbled, float_text),
        Err(ClientError::Decode(DecodeError::InvalidText))
    );
    assert_eq!(
        show_response(&vec![good[0].clone()], float_text),
        Err(ClientError::Decode(DecodeError::TruncatedPayload))
    );
}

#[test]
fn blob_that_is_not_text_is_an_error_of_the_display() {
    let parts =
        encode_response(&result(&["x"], vec![vec![TypedValue::Blob(vec![0xFF, 0xFE])]])).unwrap();
    assert_eq!(
        show_response(&parts, float_text),
        Err(ClientError::Render(RenderError::BlobNotText))
    );
}
