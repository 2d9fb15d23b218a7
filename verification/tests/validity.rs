use jboot::checksum::app_crc16;
use jboot::validity::{
    check_for_valid_application, APPLICATION_BASE, APPLICATION_REGION_SIZE,
    IDENTITY_MARKER_OFFSET, STORED_CHECKSUM_OFFSET,
};

/// A region that passes all three gates.
fn valid_image() -> Vec<u8> {
    let mut region = vec![0xFFu8; 0x30000];
    region[0..4].copy_from_slice(&[0x00, 0x00, 0x02, 0x20]);
    for (i, byte) in region.iter_mut().enumerate().skip(4).take(4096) {
        *byte = (i * 7 + 3) as u8;
    }
    region[0x2FF00..0x2FF0E].copy_from_slice(b"www.segger.com");
    let crc = app_crc16(&region[..0x2FFFE]);
    region[0x2FFFE] = crc as u8;
    region[0x2FFFF] = (crc >> 8) as u8;
    region
}

#[test]
fn layout_constants() {
    assert_eq!(APPLICATION_BASE, 0x0801_0000);
    assert_eq!(APPLICATION_REGION_SIZE, 0x30000);
    assert_eq!(IDENTITY_MARKER_OFFSET, 0x2FF00);
    assert_eq!(STORED_CHECKSUM_OFFSET, 0x2FFFE);
}

#[test]
fn image_that_passes_all_gates_is_valid() {
    assert!(check_for_valid_application(&valid_image()));
}

#[test]
fn erased_reset_vector_is_invalid_whatever_else_holds() {
    let mut region = valid_image();
    region[0..4].copy_from_slice(&[0, 0, 0, 0]);
    // Even with a checksum that matches the changed body.
    let crc = app_crc16(&region[..0x2FFFE]);
    region[0x2FFFE] = crc as u8;
    region[0x2FFFF] = (crc >> 8) as u8;
    assert!(!check_for_valid_application(&region));
}

#[test]
fn erased_flash_is_invalid() {
    assert!(!check_for_valid_application(&vec![0u8; 0x30000]));
    assert!(!check_for_valid_application(&vec![0xFFu8; 0x30000]));
}

#[test]
fn one_nonzero_vector_byte_is_enough_for_the_first_gate() {
    for i in 0..4 {
        let mut region = valid_image();
        region[0..4].copy_from_slice(&[0, 0, 0, 0]);
        region[i] = 0x01;
        let crc = app_crc16(&region[..0x2FFFE]);
        region[0x2FFFE] = crc as u8;
        region[0x2FFFF] = (crc >> 8) as u8;
        assert!(check_for_valid_application(&region));
    }
}

#[test]
fn mismatched_marker_is_invalid() {
    for i in 0..14 {
        let mut region = valid_image();
        region[0x2FF00 + i] ^= 0x20;
        let crc = app_crc16(&region[..0x2FFFE]);
        region[0x2FFFE] = crc as u8;
        region[0x2FFFF] = (crc >> 8) as u8;
        assert!(!check_for_valid_application(&region));
    }
}

#[test]
fn marker_at_another_place_is_invalid() {
    let mut region = valid_image();
    region[0x2FF00..0x2FF0E].copy_from_slice(&[0xFF; 14]);
    region[0x2FF01..0x2FF0F].copy_from_slice(b"www.segger.com");
    let crc = app_crc16(&region[..0x2FFFE]);
    region[0x2FFFE] = crc as u8;
    region[0x2FFFF] = (crc >> 8) as u8;
    assert!(!check_for_valid_application(&region));
}

#[test]
fn stored_checksum_is_read_low_byte_first() {
    let mut region = valid_image();
    let crc = app_crc16(&region[..0x2FFFE]);
    assert_ne!(crc as u8, (crc >> 8) as u8);
    region[0x2FFFE] = (crc >> 8) as u8;
    region[0x2FFFF] = crc as u8;
    assert!(!check_for_valid_application(&region));
}

#[test]
fn wrong_checksum_is_invalid() {
    let mut region = valid_image();
    region[0x2FFFE] ^= 0x01;
    assert!(!check_for_valid_application(&region));
    let mut region = valid_image();
    region[0x2FFFF] ^= 0x80;
    assert!(!check_for_valid_application(&region));
}

#[test]
fn one_flipped_body_bit_turns_valid_into_invalid() {
    let region = valid_image();
    assert!(check_for_valid_application(&region));
    for &(index, bit) in &[(4usize, 0u8), (5000, 7), (0x1FFFF, 3), (0x2FFFD, 5)] {
        let mut flipped = region.clone();
        flipped[index] ^= 1 << bit;
        assert!(!check_for_valid_application(&flipped));
    }
}

#[test]
fn region_of_another_size_holds_no_application() {
    let region = valid_image();
    assert!(!check_for_valid_application(&region[..0x2FFFF]));
    assert!(!check_for_valid_application(&[]));
    let mut longer = region.clone();
    longer.push(0);
    assert!(!check_for_valid_application(&longer));
}
