use pulse_monitor::cursor::{parse_cursor_response, reduce_rows, CursorRow};
use pulse_monitor::{FetchError, Height};

fn h(v: u64) -> Height {
    Height::from_u64(v)
}

#[test]
fn mixed_encodings_reduce_to_the_maximum() {
    let body = r#"{"data":{"cursors":[{"block_num":100},{"block_num":"250"},{"block_num":80}]}}"#;
    assert_eq!(parse_cursor_response(body), Ok(h(250)));
}

#[test]
fn empty_row_collection_is_a_shape_failure() {
    let body = r#"{"data":{"cursors":[]}}"#;
    assert_eq!(parse_cursor_response(body), Err(FetchError::DataShape));
}

#[test]
fn missing_collection_is_a_shape_failure() {
    assert_eq!(parse_cursor_response(r#"{"data":{}}"#), Err(FetchError::DataShape));
    assert_eq!(parse_cursor_response(r#"{}"#), Err(FetchError::DataShape));
    assert_eq!(
        parse_cursor_response(r#"{"data":{"cursors":42}}"#),
        Err(FetchError::DataShape)
    );
}

#[test]
fn unparseable_body_is_a_response_failure() {
    assert_eq!(parse_cursor_response("not json at all"), Err(FetchError::Response));
    assert_eq!(parse_cursor_response(""), Err(FetchError::Response));
}

#[test]
fn unreadable_rows_are_skipped_not_fatal() {
    let body = r#"{"data":{"cursors":[{"block_num":"bogus"},{"block_num":100},{"id":7}]}}"#;
    assert_eq!(parse_cursor_response(body), Ok(h(100)));
}

#[test]
fn only_unreadable_rows_fail_the_fetch() {
    let body = r#"{"data":{"cursors":[{"block_num":"bogus"},{"id":7},{"block_num":null}]}}"#;
    assert_eq!(parse_cursor_response(body), Err(FetchError::ValueParse));
}

#[test]
fn a_single_zero_row_is_a_valid_height() {
    let body = r#"{"data":{"cursors":[{"block_num":0}]}}"#;
    assert_eq!(parse_cursor_response(body), Ok(h(0)));
}

#[test]
fn extra_row_fields_are_ignored() {
    let body = r#"{"data":{"cursors":[{"block_id":"0xab","block_num":7,"cursor":"c","id":1}]}}"#;
    assert_eq!(parse_cursor_response(body), Ok(h(7)));
}

#[test]
fn reduction_is_order_independent() {
    let rows = vec![
        CursorRow::Numeric(100),
        CursorRow::Text("250".to_string()),
        CursorRow::Numeric(80),
        CursorRow::Unreadable,
    ];
    let permuted = vec![
        CursorRow::Unreadable,
        CursorRow::Numeric(80),
        CursorRow::Numeric(100),
        CursorRow::Text("250".to_string()),
    ];
    assert_eq!(reduce_rows(&rows), Some(h(250)));
    assert_eq!(reduce_rows(&permuted), Some(h(250)));
}

#[test]
fn reduction_is_idempotent_under_repetition() {
    let once = vec![CursorRow::Numeric(100), CursorRow::Text("250".to_string())];
    let twice = vec![
        CursorRow::Numeric(100),
        CursorRow::Text("250".to_string()),
        CursorRow::Numeric(100),
        CursorRow::Text("250".to_string()),
    ];
    assert_eq!(reduce_rows(&once), reduce_rows(&twice));
}

#[test]
fn integer_and_string_encodings_are_equivalent() {
    assert_eq!(
        reduce_rows(&vec![CursorRow::Text("100".to_string())]),
        reduce_rows(&vec![CursorRow::Numeric(100)])
    );
    assert_eq!(
        reduce_rows(&vec![CursorRow::Text("18446744073709551615".to_string())]),
        reduce_rows(&vec![CursorRow::Numeric(u64::MAX)])
    );
}

#[test]
fn reduction_of_no_readable_rows_is_none() {
    assert_eq!(reduce_rows(&vec![]), None);
    assert_eq!(reduce_rows(&vec![CursorRow::Unreadable]), None);
    assert_eq!(reduce_rows(&vec![CursorRow::Text("12a".to_string())]), None);
}

#[test]
fn reduction_accepts_heights_past_native_integers() {
    // A numeric string may carry a height no native integer field holds.
    let big = "340282366920938463463374607431768211456"; // 2^128
    let rows = vec![CursorRow::Text(big.to_string()), CursorRow::Numeric(u64::MAX)];
    let reduced = reduce_rows(&rows).unwrap();
    assert_eq!(pulse_monitor::codec::to_dec_string(&reduced), big);
}
