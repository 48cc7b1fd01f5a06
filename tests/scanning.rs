use slct::digest::fnv1a;
use slct::scan::{get_whitespace, get_word, is_ascii_ws, strip_line_end};

#[test]
fn fnv1a_of_empty_is_offset_basis() {
    assert_eq!(fnv1a(b""), 0xcbf2_9ce4_8422_2325);
}

#[test]
fn fnv1a_known_values() {
    assert_eq!(fnv1a(b"a"), 0xaf63_dc4c_8601_ec8c);
    assert_eq!(fnv1a(b"foobar"), 0x8594_4171_f739_67e8);
}

#[test]
fn fnv1a_tells_tokens_apart() {
    assert_ne!(fnv1a(b"connect"), fnv1a(b"connecT"));
    assert_eq!(fnv1a(b"connect"), fnv1a(b"connect"));
}

#[test]
fn ascii_whitespace_bytes() {
    for b in [b' ', b'\t', b'\n', b'\r', 0x0cu8] {
        assert!(is_ascii_ws(b));
    }
    assert!(!is_ascii_ws(0x0b));
    assert!(!is_ascii_ws(b'x'));
    assert!(!is_ascii_ws(0xa0));
}

#[test]
fn get_word_stops_at_whitespace() {
    assert_eq!(get_word(b"abc def"), b"abc");
    assert_eq!(get_word(b"abc"), b"abc");
    assert_eq!(get_word(b" abc"), b"");
    assert_eq!(get_word(b""), b"");
    assert_eq!(get_word(b"a\x0bb c"), b"a\x0bb");
}

#[test]
fn get_whitespace_stops_at_token() {
    assert_eq!(get_whitespace(b"  \tx y"), b"  \t");
    assert_eq!(get_whitespace(b"x  "), b"");
    assert_eq!(get_whitespace(b" \r\n"), b" \r\n");
    assert_eq!(get_whitespace(b""), b"");
}

#[test]
fn strip_line_end_drops_lf_and_crlf() {
    assert_eq!(strip_line_end(b"abc\n"), b"abc");
    assert_eq!(strip_line_end(b"abc\r\n"), b"abc");
    assert_eq!(strip_line_end(b"abc"), b"abc");
    assert_eq!(strip_line_end(b"abc\r"), b"abc\r");
    assert_eq!(strip_line_end(b"\n"), b"");
    assert_eq!(strip_line_end(b""), b"");
}
