use shhhfs::order::{bytes_equal, bytes_less};

#[test]
fn lexicographic_byte_order() {
    assert!(bytes_less(b"a", b"b"));
    assert!(!bytes_less(b"b", b"a"));
    assert!(bytes_less(b"", b"a"));
    assert!(!bytes_less(b"", b""));
    assert!(bytes_less(b"ab", b"abc"));
    assert!(!bytes_less(b"abc", b"ab"));
    assert!(bytes_less(b"Z", b"a"));
    assert!(!bytes_less(b"same", b"same"));
    assert!(bytes_less(b"\x7f", b"\xc3\xa9"));
}

#[test]
fn byte_equality() {
    assert!(bytes_equal(b"", b""));
    assert!(bytes_equal(b"abc", b"abc"));
    assert!(!bytes_equal(b"abc", b"abd"));
    assert!(!bytes_equal(b"abc", b"ab"));
}
