use grid_messages::text::{encode_string, parse_string};

#[test]
fn a_string_is_its_length_and_its_bytes() {
    assert_eq!(encode_string("abc"), Some(vec![3, b'a', b'b', b'c']));
    assert_eq!(parse_string(&[3, b'a', b'b', b'c']), Some(("abc".to_string(), 4)));
    assert_eq!(encode_string(""), Some(vec![0]));
    assert_eq!(parse_string(&[0]), Some((String::new(), 1)));
}

#[test]
fn the_length_counts_bytes_not_characters() {
    let bytes = encode_string("h\u{e9}\u{4e16}").unwrap();
    assert_eq!(bytes, vec![6, b'h', 0xC3, 0xA9, 0xE4, 0xB8, 0x96]);
    assert_eq!(parse_string(&bytes), Some(("h\u{e9}\u{4e16}".to_string(), 7)));
}

#[test]
fn a_long_string_has_a_long_length() {
    let text = "x".repeat(300);
    let bytes = encode_string(&text).unwrap();
    assert_eq!(&bytes[..3], &[0xFF, 44, 1]);
    assert_eq!(bytes.len(), 303);
    assert_eq!(parse_string(&bytes), Some((text, 303)));
}

#[test]
fn what_follows_a_string_is_left_alone() {
    assert_eq!(parse_string(&[2, b'o', b'k', b'!', b'!']), Some(("ok".to_string(), 3)));
}

#[test]
fn a_string_shorter_than_its_length_is_not_read() {
    assert_eq!(parse_string(&[]), None);
    assert_eq!(parse_string(&[1]), None);
    assert_eq!(parse_string(&[4, b'a', b'b', b'c']), None);
    assert_eq!(parse_string(&[0xFF, 44, 1, b'x']), None);
    assert_eq!(parse_string(&[0xFF, 3]), None);
}

#[test]
fn bytes_that_are_not_utf8_are_not_read() {
    assert_eq!(parse_string(&[1, 0xFF]), None);
    assert_eq!(parse_string(&[2, 0xC3, 0x28]), None);
    // an overlong encoding of '/'
    assert_eq!(parse_string(&[2, 0xC0, 0xAF]), None);
    // a surrogate
    assert_eq!(parse_string(&[3, 0xED, 0xA0, 0x80]), None);
    // a character cut in the middle
    assert_eq!(parse_string(&[2, 0xE4, 0xB8, 0x96]), None);
}
