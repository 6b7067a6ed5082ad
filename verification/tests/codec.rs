use pulse_monitor::codec::{from_dec_str, from_hex_str, to_dec_string, to_hex_string};
use pulse_monitor::Height;

fn h(v: u64) -> Height {
    Height::from_u64(v)
}

#[test]
fn hex_decodes_prefixed_literals() {
    assert_eq!(from_hex_str("0x3e8"), Some(h(1000)));
    assert_eq!(from_hex_str("0x0"), Some(h(0)));
    assert_eq!(from_hex_str("0x00ff"), Some(h(255)));
    assert_eq!(from_hex_str("0xDeadBeef"), Some(h(0xdead_beef)));
    assert_eq!(from_hex_str("0xffffffffffffffff"), Some(h(u64::MAX)));
}

#[test]
fn hex_rejects_every_other_shape() {
    assert_eq!(from_hex_str(""), None);
    assert_eq!(from_hex_str("0x"), None);
    assert_eq!(from_hex_str("3e8"), None);
    assert_eq!(from_hex_str("1000"), None);
    assert_eq!(from_hex_str("0x3g8"), None);
    assert_eq!(from_hex_str("0x 12"), None);
    assert_eq!(from_hex_str("x3e8"), None);
}

#[test]
fn hex_overflow_is_rejected_not_wrapped() {
    // One digit past 256 bits.
    let over = format!("0x1{}", "0".repeat(64));
    assert_eq!(from_hex_str(&over), None);
    // The largest representable height still decodes.
    let max = format!("0x{}", "f".repeat(64));
    assert!(from_hex_str(&max).is_some());
}

#[test]
fn hex_encoding_round_trips() {
    let max = from_hex_str(&format!("0x{}", "f".repeat(64))).unwrap();
    for v in [h(0), h(1), h(10), h(1000), h(u64::MAX), max] {
        let encoded = to_hex_string(&v);
        assert_eq!(from_hex_str(&encoded), Some(v));
    }
    assert_eq!(to_hex_string(&h(0)), "0x0");
    assert_eq!(to_hex_string(&h(1000)), "0x3e8");
}

#[test]
fn dec_decodes_digit_strings() {
    assert_eq!(from_dec_str("250"), Some(h(250)));
    assert_eq!(from_dec_str("0"), Some(h(0)));
    assert_eq!(from_dec_str("0005"), Some(h(5)));
    assert_eq!(from_dec_str("18446744073709551615"), Some(h(u64::MAX)));
}

#[test]
fn dec_rejects_non_digit_strings() {
    assert_eq!(from_dec_str(""), None);
    assert_eq!(from_dec_str("12a"), None);
    assert_eq!(from_dec_str("-5"), None);
    assert_eq!(from_dec_str(" 5"), None);
    assert_eq!(from_dec_str("0x10"), None);
}

#[test]
fn dec_overflow_is_rejected_not_wrapped() {
    // 2^256 itself, one too large.
    let too_big =
        "115792089237316195423570985008687907853269984665640564039457584007913129639936";
    assert_eq!(from_dec_str(too_big), None);
    let max =
        "115792089237316195423570985008687907853269984665640564039457584007913129639935";
    let max_h = from_dec_str(max).unwrap();
    assert_eq!(to_dec_string(&max_h), max);
}

#[test]
fn dec_encoding_round_trips() {
    for v in [h(0), h(11), h(1000), h(u64::MAX)] {
        let encoded = to_dec_string(&v);
        assert_eq!(from_dec_str(&encoded), Some(v));
    }
    assert_eq!(to_dec_string(&h(0)), "0");
    assert_eq!(to_dec_string(&h(11)), "11");
}
