//! Two-byte numbers on the wire and in flash: low byte first.

use vstd::prelude::*;

verus! {

/// The number that two bytes spell, low byte first.
pub open spec fn le16(low: u8, high: u8) -> u16 {
    (low as int + 256 * (high as int)) as u16
}

/// The low byte of a two-byte number.
pub open spec fn low_byte(value: u16) -> u8 {
    (value as int % 256) as u8
}

/// The high byte of a two-byte number.
pub open spec fn high_byte(value: u16) -> u8 {
    (value as int / 256) as u8
}

/// Reads a two-byte number, low byte first.
pub fn u16_from_le(low: u8, high: u8) -> (value: u16)
    ensures
        value == le16(low, high),
        value == low as int + 256 * (high as int),
{
    (low as u16) + 256 * (high as u16)
}

/// Writes a two-byte number, low byte first.
pub fn u16_to_le(value: u16) -> (bytes: (u8, u8))
    ensures
        bytes.0 == low_byte(value),
        bytes.1 == high_byte(value),
        le16(bytes.0, bytes.1) == value,
{
    ((value % 256) as u8, (value / 256) as u8)
}

} // verus!
