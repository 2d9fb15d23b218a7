//! The check that runs once at power-on: is the application in flash fit to
//! be started?
//!
//! The application lives in one region of fixed size. Three gates are taken in
//! order and the first that fails ends the check: the reset vector window must
//! not be erased, the identity marker must stand at its place near the end of
//! the region, and the checksum kept in the last two bytes must be the
//! checksum of everything before it.

use vstd::prelude::*;
use crate::checksum::{app_crc16, crc16, lemma_crc16_finds_changed_byte};
use crate::endian::{le16, u16_from_le};

verus! {

/// Where the application region starts in the address space; the vector table
/// is moved here when the application is started.
pub const APPLICATION_BASE: u32 = 0x0801_0000;

/// The size of the application region in bytes.
pub const APPLICATION_REGION_SIZE: usize = 0x3_0000;

/// The width of the reset vector window at the start of the region.
pub const RESET_VECTOR_SIZE: usize = 4;

/// The offset of the identity marker in the region.
pub const IDENTITY_MARKER_OFFSET: usize = 0x2_FF00;

/// The length of the identity marker.
pub const IDENTITY_MARKER_SIZE: usize = 14;

/// The offset of the stored checksum: the last two bytes of the region. The
/// bytes before it are the body that the checksum covers.
pub const STORED_CHECKSUM_OFFSET: usize = 0x2_FFFE;

/// The identity marker, `www.segger.com` in ASCII.
pub open spec fn identity_marker() -> Seq<u8> {
    seq![
        0x77u8, 0x77u8, 0x77u8, 0x2eu8, 0x73u8, 0x65u8, 0x67u8,
        0x67u8, 0x65u8, 0x72u8, 0x2eu8, 0x63u8, 0x6fu8, 0x6du8,
    ]
}

/// The reset vector window of a region.
pub open spec fn reset_vector(region: Seq<u8>) -> Seq<u8> {
    region.subrange(0, RESET_VECTOR_SIZE as int)
}

/// The bytes of a region where the identity marker belongs.
pub open spec fn marker_window(region: Seq<u8>) -> Seq<u8> {
    region.subrange(
        IDENTITY_MARKER_OFFSET as int,
        IDENTITY_MARKER_OFFSET as int + IDENTITY_MARKER_SIZE as int,
    )
}

/// The body of a region: everything before the stored checksum.
pub open spec fn image_body(region: Seq<u8>) -> Seq<u8> {
    region.subrange(0, STORED_CHECKSUM_OFFSET as int)
}

/// The checksum that a region carries in its last two bytes.
pub open spec fn stored_checksum(region: Seq<u8>) -> u16 {
    le16(region[STORED_CHECKSUM_OFFSET as int], region[STORED_CHECKSUM_OFFSET as int + 1])
}

/// First gate: some byte of the reset vector window is not zero.
pub open spec fn presence_gate_passes(region: Seq<u8>) -> bool {
    exists|i: int| 0 <= i < RESET_VECTOR_SIZE && region[i] != 0
}

/// Second gate: the marker window holds the identity marker, byte for byte.
pub open spec fn identity_gate_passes(region: Seq<u8>) -> bool {
    marker_window(region) == identity_marker()
}

/// Third gate: the stored checksum is the checksum of the body.
pub open spec fn integrity_gate_passes(region: Seq<u8>) -> bool {
    stored_checksum(region) == crc16(image_body(region))
}

/// A region holds a valid application when it has the size of the application
/// region and passes all three gates.
pub open spec fn application_valid(region: Seq<u8>) -> bool {
    &&& region.len() == APPLICATION_REGION_SIZE
    &&& presence_gate_passes(region)
    &&& identity_gate_passes(region)
    &&& integrity_gate_passes(region)
}

/// The presence gate on a region of the right size.
fn presence_gate(region: &[u8]) -> (passes: bool)
    requires
        region@.len() == APPLICATION_REGION_SIZE,
    ensures
        passes == presence_gate_passes(region@),
{
    let mut i: usize = 0;
    while i < RESET_VECTOR_SIZE
        invariant
            i <= RESET_VECTOR_SIZE,
            region@.len() == APPLICATION_REGION_SIZE,
            forall|j: int| 0 <= j < i ==> region@[j] == 0,
        decreases RESET_VECTOR_SIZE - i,
    {
        if region[i] != 0 {
            return true;
        }
        i = i + 1;
    }
    false
}

/// The identity gate on a region of the right size.
fn identity_gate(region: &[u8]) -> (passes: bool)
    requires
        region@.len() == APPLICATION_REGION_SIZE,
    ensures
        passes == identity_gate_passes(region@),
{
    let marker: [u8; 14] = [
        0x77, 0x77, 0x77, 0x2e, 0x73, 0x65, 0x67, 0x67, 0x65, 0x72, 0x2e, 0x63, 0x6f, 0x6d,
    ];
    assert(marker@ =~= identity_marker());
    let mut i: usize = 0;
    while i < IDENTITY_MARKER_SIZE
        invariant
            i <= IDENTITY_MARKER_SIZE,
            region@.len() == APPLICATION_REGION_SIZE,
            marker@ == identity_marker(),
            forall|j: int| 0 <= j < i ==> marker_window(region@)[j] == identity_marker()[j],
        decreases IDENTITY_MARKER_SIZE - i,
    {
        if region[IDENTITY_MARKER_OFFSET + i] != marker[i] {
            assert(marker_window(region@)[i as int] != identity_marker()[i as int]);
            return false;
        }
        i = i + 1;
    }
    assert(marker_window(region@) =~= identity_marker());
    true
}

/// The integrity gate on a region of the right size.
fn integrity_gate(region: &[u8]) -> (passes: bool)
    requires
        region@.len() == APPLICATION_REGION_SIZE,
    ensures
        passes == integrity_gate_passes(region@),
{
    let low: u8 = region[STORED_CHECKSUM_OFFSET];
    let high: u8 = region[STORED_CHECKSUM_OFFSET + 1];
    let stored: u16 = u16_from_le(low, high);
    let body = vstd::slice::slice_subrange(region, 0, STORED_CHECKSUM_OFFSET);
    let computed: u16 = app_crc16(body);
    stored == computed
}

/// Decides whether the application in `region` may be started. A region of
/// any other size than the application region holds no application.
pub fn check_for_valid_application(region: &[u8]) -> (valid: bool)
    ensures
        valid == application_valid(region@),
{
    if region.len() != APPLICATION_REGION_SIZE {
        return false;
    }
    if !presence_gate(region) {
        return false;
    }
    if !identity_gate(region) {
        return false;
    }
    integrity_gate(region)
}

/// An image whose reset vector window is all zero is invalid, whatever the
/// rest of the region holds.
pub proof fn lemma_erased_vector_is_invalid(region: Seq<u8>)
    requires
        forall|i: int| 0 <= i < RESET_VECTOR_SIZE ==> region[i] == 0,
    ensures
        !application_valid(region),
{
}

/// An image whose marker window differs from the identity marker in any byte
/// is invalid, whatever its reset vector and its checksum are.
pub proof fn lemma_wrong_marker_is_invalid(region: Seq<u8>)
    requires
        marker_window(region) != identity_marker(),
    ensures
        !application_valid(region),
{
}

/// Of an image that passes the first two gates the checksum alone decides: it
/// is valid exactly when the checksum of its body equals the number that its
/// last two bytes spell, low byte first.
pub proof fn lemma_checksum_decides(region: Seq<u8>)
    requires
        region.len() == APPLICATION_REGION_SIZE,
        presence_gate_passes(region),
        identity_gate_passes(region),
    ensures
        application_valid(region) <==> crc16(image_body(region)) == stored_checksum(region),
{
}

/// No valid image stays valid when one byte of its body is changed, be it in
/// a single bit: the integrity gate finds every such change.
pub proof fn lemma_changed_body_byte_is_invalid(region: Seq<u8>, changed: Seq<u8>, place: int)
    requires
        application_valid(region),
        changed.len() == region.len(),
        0 <= place < STORED_CHECKSUM_OFFSET,
        changed[place] != region[place],
        forall|i: int| 0 <= i < region.len() && i != place ==> changed[i] == region[i],
    ensures
        !application_valid(changed),
{
    lemma_crc16_finds_changed_byte(image_body(region), image_body(changed), place);
}

} // verus!
