use grid_messages::varint::{encode_unbounded, parse_unbounded, parse_unbounded_private};

#[test]
fn single_byte_values_are_their_own_encoding() {
    assert_eq!(encode_unbounded(0), vec![0]);
    assert_eq!(encode_unbounded(7), vec![7]);
    assert_eq!(encode_unbounded(254), vec![254]);
    assert_eq!(parse_unbounded(&[0]), Some((0, 1)));
    assert_eq!(parse_unbounded(&[254]), Some((254, 1)));
}

#[test]
fn two_hundred_fifty_five_takes_three_bytes() {
    assert_eq!(encode_unbounded(255), vec![0xFF, 255, 0]);
    assert_eq!(parse_unbounded(&[0xFF, 255, 0]), Some((255, 3)));
}

#[test]
fn digits_are_little_endian() {
    assert_eq!(encode_unbounded(256), vec![0xFF, 0, 1]);
    assert_eq!(encode_unbounded(0x1234), vec![0xFF, 0x34, 0x12]);
    assert_eq!(parse_unbounded(&[0xFF, 0x34, 0x12]), Some((0x1234, 3)));
    assert_eq!(encode_unbounded(0x0102_0304), vec![0xFF, 4, 0xFF, 3, 0xFF, 2, 1]);
    assert_eq!(parse_unbounded(&[0xFF, 4, 0xFF, 3, 0xFF, 2, 1]), Some((0x0102_0304, 7)));
}

#[test]
fn a_digit_of_255_above_the_first_is_written_with_a_further_group() {
    // 255 * 256 + 3
    assert_eq!(encode_unbounded(65283), vec![0xFF, 3, 0xFF, 255, 0]);
    assert_eq!(parse_unbounded(&[0xFF, 3, 0xFF, 255, 0]), Some((65283, 5)));
}

#[test]
fn the_largest_value_takes_nine_bytes() {
    let bytes = encode_unbounded(u32::MAX);
    assert_eq!(bytes, vec![0xFF, 255, 0xFF, 255, 0xFF, 255, 0xFF, 255, 0]);
    assert_eq!(parse_unbounded(&bytes), Some((u32::MAX, 9)));
}

#[test]
fn every_value_of_a_sample_is_read_back() {
    let mut v: u64 = 0;
    while v <= u32::MAX as u64 {
        let bytes = encode_unbounded(v as u32);
        assert_eq!(parse_unbounded(&bytes), Some((v as u32, bytes.len())));
        v = v * 3 + 1;
    }
    for v in 0..2000u32 {
        let bytes = encode_unbounded(v);
        assert_eq!(parse_unbounded(&bytes), Some((v, bytes.len())));
    }
    for v in [65534u32, 65535, 65536, 65537, 0xFF_FFFF, 0x100_0000, u32::MAX - 1] {
        let bytes = encode_unbounded(v);
        assert_eq!(parse_unbounded(&bytes), Some((v, bytes.len())));
    }
}

#[test]
fn what_follows_an_integer_is_left_alone() {
    assert_eq!(parse_unbounded(&[9, 0xFF, 0xFF]), Some((9, 1)));
    assert_eq!(parse_unbounded(&[0xFF, 1, 2, 0xFF]), Some((513, 3)));
}

#[test]
fn an_integer_cut_short_is_not_read() {
    assert_eq!(parse_unbounded(&[]), None);
    assert_eq!(parse_unbounded(&[0xFF]), None);
    assert_eq!(parse_unbounded(&[0xFF, 5]), None);
    assert_eq!(parse_unbounded(&[0xFF, 5, 0xFF]), None);
    assert_eq!(parse_unbounded(&[0xFF, 5, 0xFF, 0xFF]), None);
}

#[test]
fn an_integer_above_32_bits_is_not_read() {
    // 256^4
    assert_eq!(parse_unbounded(&[0xFF, 0, 0xFF, 0, 0xFF, 0, 0xFF, 0, 1]), None);
    // u32::MAX + 1, written with a digit of 255 below a final 0
    assert_eq!(parse_unbounded(&[0xFF, 0, 0xFF, 0, 0xFF, 0, 0xFF, 0, 0xFF, 1, 0]), None);
}

#[test]
fn leading_zero_digits_do_not_change_the_value() {
    assert_eq!(parse_unbounded(&[0xFF, 5, 0xFF, 0, 0xFF, 0, 0xFF, 0, 0xFF, 0, 0]), Some((5, 11)));
}

#[test]
fn the_count_after_a_taken_byte_leaves_that_byte_out() {
    assert_eq!(parse_unbounded_private(7, &[1, 2, 3]), Some((7, 0)));
    assert_eq!(parse_unbounded_private(0xFF, &[255, 0]), Some((255, 2)));
    assert_eq!(parse_unbounded_private(0xFF, &[1, 2, 9]), Some((513, 2)));
    assert_eq!(parse_unbounded_private(0xFF, &[]), None);
    assert_eq!(parse_unbounded_private(0xFF, &[1]), None);
}
