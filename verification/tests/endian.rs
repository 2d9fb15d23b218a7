use jboot::endian::{u16_from_le, u16_to_le};

#[test]
fn two_bytes_spell_a_number_low_byte_first() {
    assert_eq!(u16_from_le(0x34, 0x12), 0x1234);
    assert_eq!(u16_from_le(0x00, 0x80), 0x8000);
    assert_eq!(u16_from_le(0xFF, 0xFF), 0xFFFF);
    assert_eq!(u16_from_le(0x60, 0x00), 96);
}

#[test]
fn a_number_is_written_low_byte_first() {
    assert_eq!(u16_to_le(0x1234), (0x34, 0x12));
    assert_eq!(u16_to_le(96), (0x60, 0x00));
    assert_eq!(u16_to_le(0xFFFF), (0xFF, 0xFF));
}

#[test]
fn every_number_comes_back_from_its_bytes() {
    for value in [0u16, 1, 0x00FF, 0x0100, 0x8000, 0x8001, 0xC000, 0xFFFF] {
        let (low, high) = u16_to_le(value);
        assert_eq!(u16_from_le(low, high), value);
        assert_eq!([low, high], value.to_le_bytes());
    }
}
