use jboot::firmware::{
    decode_transfer_length, encode_transfer_length, extended_transfer_length, find_substring,
    header_has_marker, needs_length_extension, EXPECTED_FIRMWARE_LENGTH, FIRMWARE_HEADER_SIZE,
    HEADER_MARKER_OFFSET,
};

/// The bytes that announce `length`, if it has an encoding.
fn encoded(length: u32) -> Option<Vec<u8>> {
    encode_transfer_length(length).map(|(bytes, count)| bytes[..count].to_vec())
}

fn header_with_marker_at(offset: usize) -> Vec<u8> {
    let mut header = vec![0u8; 0x500];
    header[offset..offset + 9].copy_from_slice(b"J-Link V9");
    header
}

#[test]
fn firmware_constants() {
    assert_eq!(FIRMWARE_HEADER_SIZE, 0x500);
    assert_eq!(HEADER_MARKER_OFFSET, 0x210);
    assert_eq!(EXPECTED_FIRMWARE_LENGTH, 196608);
}

#[test]
fn find_substring_returns_the_first_place() {
    assert_eq!(find_substring(b"abcabc", b"bc", 6), Some(1));
    assert_eq!(find_substring(b"abcabc", b"abc", 100), Some(0));
    assert_eq!(find_substring(b"aaab", b"ab", 4), Some(2));
}

#[test]
fn find_substring_stays_inside_the_range() {
    // The match at 3 ends at 5, outside the first four bytes.
    assert_eq!(find_substring(b"xxxab", b"ab", 4), None);
    assert_eq!(find_substring(b"xxxab", b"ab", 5), Some(3));
    assert_eq!(find_substring(b"xxab", b"ab", 4), Some(2));
}

#[test]
fn find_substring_without_a_match() {
    assert_eq!(find_substring(b"abcdef", b"xyz", 6), None);
    assert_eq!(find_substring(b"ab", b"abc", 10), None);
    assert_eq!(find_substring(b"", b"a", 10), None);
    assert_eq!(find_substring(b"abc", b"abc", 2), None);
}

#[test]
fn find_substring_with_an_empty_target() {
    assert_eq!(find_substring(b"abc", b"", 3), Some(0));
    assert_eq!(find_substring(b"", b"", 0), Some(0));
}

#[test]
fn header_marker_at_the_scanned_offset() {
    assert!(header_has_marker(&header_with_marker_at(0x210)));
    assert!(header_has_marker(&header_with_marker_at(0x211)));
}

#[test]
fn header_marker_outside_the_ten_bytes() {
    assert!(!header_has_marker(&header_with_marker_at(0x212)));
    assert!(!header_has_marker(&header_with_marker_at(0x20F)));
    assert!(!header_has_marker(&header_with_marker_at(0)));
    assert!(!header_has_marker(&vec![0u8; 0x500]));
}

#[test]
fn header_marker_must_be_complete() {
    let mut header = header_with_marker_at(0x210);
    header[0x218] = b'8';
    assert!(!header_has_marker(&header));
}

#[test]
fn short_header_has_no_marker() {
    assert!(!header_has_marker(&[]));
    assert!(!header_has_marker(&vec![0u8; 0x20F]));
    let header = header_with_marker_at(0x210);
    assert!(!header_has_marker(&header[..0x218]));
    assert!(header_has_marker(&header[..0x219]));
}

#[test]
fn first_field_up_to_0x8000_needs_no_extension() {
    assert!(!needs_length_extension(0));
    assert!(!needs_length_extension(0x8000));
    assert!(needs_length_extension(0x8001));
    assert!(needs_length_extension(0xFFFF));
}

#[test]
fn packed_length_formula() {
    // combined = 0x000C_C000: (combined & 0x3FFF) | ((combined >> 16) << 14)
    assert_eq!(extended_transfer_length(0xC000, 0x000C), 0x30000);
    assert_eq!(extended_transfer_length(0x8001, 0x0001), 0x4001);
    assert_eq!(extended_transfer_length(0xFFFF, 0xFFFF), 0x3FFF_FFFF);
    // Bits 14 and 15 of the first field do not count.
    assert_eq!(extended_transfer_length(0x8123, 0x0002), 0x8123);
    assert_eq!(extended_transfer_length(0xC123, 0x0002), 0x8123);
}

#[test]
fn short_lengths_round_trip_through_two_bytes() {
    for &length in &[0u32, 1, 0x00FF, 0x0100, 0x1234, 0x7FFF, 0x8000] {
        let bytes = encoded(length).unwrap();
        assert_eq!(bytes, vec![length as u8, (length >> 8) as u8]);
        assert_eq!(decode_transfer_length(&bytes), Some(length));
    }
}

#[test]
fn long_lengths_round_trip_through_four_bytes() {
    for &length in &[0x8001u32, 0xC000, 0x1_0000, 0x30000, 0x12_3456, 0x3FFF_FFFF] {
        let bytes = encoded(length).unwrap();
        assert_eq!(bytes.len(), 4);
        let combined = u32::from_le_bytes([bytes[0], bytes[1], bytes[2], bytes[3]]);
        assert_eq!((combined & 0x3FFF) | ((combined >> 16) << 14), length);
        assert_eq!(decode_transfer_length(&bytes), Some(length));
    }
}

#[test]
fn expected_length_has_this_encoding() {
    assert_eq!(encode_transfer_length(0x30000), Some(([0x00, 0xC0, 0x0C, 0x00], 4)));
    assert_eq!(encode_transfer_length(0x1234), Some(([0x34, 0x12, 0x00, 0x00], 2)));
    assert_eq!(decode_transfer_length(&[0x00, 0xC0, 0x0C, 0x00]), Some(0x30000));
}

#[test]
fn lengths_from_two_to_the_thirty_have_no_encoding() {
    assert_eq!(encode_transfer_length(0x4000_0000), None);
    assert_eq!(encode_transfer_length(u32::MAX), None);
}

#[test]
fn incomplete_or_overlong_announcements_do_not_decode() {
    assert_eq!(decode_transfer_length(&[]), None);
    assert_eq!(decode_transfer_length(&[0x01]), None);
    assert_eq!(decode_transfer_length(&[0x01, 0x80]), None);
    assert_eq!(decode_transfer_length(&[0x01, 0x00, 0x00]), None);
    assert_eq!(decode_transfer_length(&[0x01, 0x00, 0x00, 0x00]), None);
    assert_eq!(decode_transfer_length(&[0x01, 0x80, 0x00, 0x00, 0x00]), None);
}
