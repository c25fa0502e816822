use ironfoil_core::codec::{bytes_equal, push_be32, push_bytes, push_le32, push_le64, read_le32, read_le64};
use ironfoil_core::decimal::{parse_u64, push_decimal};

#[test]
fn integer_encodings() {
    let mut out = Vec::new();
    push_le32(&mut out, 0x0102_0304);
    push_be32(&mut out, 0x0102_0304);
    push_le64(&mut out, 0x0102_0304_0506_0708);
    assert_eq!(out, vec![4, 3, 2, 1, 1, 2, 3, 4, 8, 7, 6, 5, 4, 3, 2, 1]);
    assert_eq!(read_le32(&out, 0), 0x0102_0304);
    assert_eq!(read_le64(&out, 8), 0x0102_0304_0506_0708);
    push_bytes(&mut out, &[9, 9]);
    assert_eq!(out.len(), 18);
    assert!(bytes_equal(&[1, 2], &[1, 2]));
    assert!(!bytes_equal(&[1, 2], &[1]));
}

#[test]
fn decimal_numbers() {
    let mut out = Vec::new();
    push_decimal(&mut out, 0);
    push_decimal(&mut out, 8080);
    push_decimal(&mut out, u64::MAX);
    assert_eq!(String::from_utf8(out).unwrap(), "0808018446744073709551615");
    assert_eq!(parse_u64(b"18446744073709551615"), Some(u64::MAX));
    assert_eq!(parse_u64(b"18446744073709551616"), None);
    assert_eq!(parse_u64(b"+7"), Some(7));
    assert_eq!(parse_u64(b"+"), None);
    assert_eq!(parse_u64(b""), None);
    assert_eq!(parse_u64(b"-1"), None);
    assert_eq!(parse_u64(b"007"), Some(7));
    for s in ["0", "12", "+3", "", "+", "1 ", "99999999999999999999"] {
        assert_eq!(parse_u64(s.as_bytes()), s.parse::<u64>().ok(), "{}", s);
    }
}
