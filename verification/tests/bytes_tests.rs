use gwyh::bytes::{append_bytes, bytes_eq, decimal_bytes};

#[test]
fn decimal_text_matches_to_string() {
    for v in [0i64, 7, 10, 42, -1, -10, 1_700_000_000_123_456_789, i64::MAX, i64::MIN] {
        assert_eq!(decimal_bytes(v), v.to_string().into_bytes());
    }
}

#[test]
fn byte_helpers() {
    assert!(bytes_eq(b"abc", b"abc"));
    assert!(!bytes_eq(b"abc", b"abd"));
    assert!(!bytes_eq(b"ab", b"abc"));
    let mut v = b"ab".to_vec();
    append_bytes(&mut v, b"cd");
    assert_eq!(v, b"abcd".to_vec());
}
