use pulse_monitor::head::parse_head_response;
use pulse_monitor::{FetchError, Height};

fn h(v: u64) -> Height {
    Height::from_u64(v)
}

#[test]
fn well_shaped_response_yields_the_height() {
    let body = r#"{"jsonrpc":"2.0","id":1,"result":"0x3e8"}"#;
    assert_eq!(parse_head_response(body), Ok(h(1000)));
}

#[test]
fn unparseable_head_body_is_a_response_failure() {
    assert_eq!(parse_head_response("<html>502</html>"), Err(FetchError::Response));
    assert_eq!(parse_head_response(""), Err(FetchError::Response));
}

#[test]
fn missing_result_field_is_a_shape_failure() {
    assert_eq!(
        parse_head_response(r#"{"jsonrpc":"2.0","id":1,"error":"rate limited"}"#),
        Err(FetchError::DataShape)
    );
    assert_eq!(parse_head_response(r#"{}"#), Err(FetchError::DataShape));
}

#[test]
fn non_string_result_is_a_shape_failure() {
    assert_eq!(
        parse_head_response(r#"{"jsonrpc":"2.0","id":1,"result":1000}"#),
        Err(FetchError::DataShape)
    );
}

#[test]
fn malformed_hex_is_a_value_failure() {
    assert_eq!(
        parse_head_response(r#"{"result":"3e8"}"#),
        Err(FetchError::ValueParse)
    );
    assert_eq!(
        parse_head_response(r#"{"result":"0x"}"#),
        Err(FetchError::ValueParse)
    );
    assert_eq!(
        parse_head_response(r#"{"result":"0xfrog"}"#),
        Err(FetchError::ValueParse)
    );
}

#[test]
fn oversized_hex_is_a_value_failure() {
    let body = format!(r#"{{"result":"0x1{}"}}"#, "0".repeat(64));
    assert_eq!(parse_head_response(&body), Err(FetchError::ValueParse));
}
