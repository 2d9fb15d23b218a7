//! What the update exchange carries: the transfer length in its two encodings
//! and the header window with its marker.

use vstd::prelude::*;
use crate::endian::{le16, low_byte, high_byte, u16_from_le, u16_to_le};

verus! {

/// The size of the header window, the first part of every firmware image.
pub const FIRMWARE_HEADER_SIZE: usize = 0x500;

/// Where in the header window the scan for the marker starts.
pub const HEADER_MARKER_OFFSET: usize = 0x210;

/// How many bytes from there the marker has to lie in.
pub const HEADER_MARKER_RANGE: usize = 10;

/// The length of the header marker.
pub const HEADER_MARKER_SIZE: usize = 9;

/// The one image size that is accepted.
pub const EXPECTED_FIRMWARE_LENGTH: u32 = 0x3_0000;

/// A first length field above this value announces a second one.
pub const LENGTH_EXTENSION_THRESHOLD: u16 = 0x8000;

/// The lengths that have an encoding: those below 2^30.
pub const ENCODABLE_LENGTH_LIMIT: u32 = 0x4000_0000;

/// The header marker, `J-Link V9` in ASCII.
pub open spec fn header_marker() -> Seq<u8> {
    seq![0x4Au8, 0x2Du8, 0x4Cu8, 0x69u8, 0x6Eu8, 0x6Bu8, 0x20u8, 0x56u8, 0x39u8]
}

/// `target` stands in `slice` at index `i`.
pub open spec fn occurs_at(slice: Seq<u8>, target: Seq<u8>, i: int) -> bool {
    &&& 0 <= i
    &&& i + target.len() <= slice.len()
    &&& slice.subrange(i, i + target.len()) == target
}

/// The part of a slice that a search with `max_range` looks at.
pub open spec fn search_length(slice_len: nat, max_range: nat) -> nat {
    if max_range < slice_len {
        max_range
    } else {
        slice_len
    }
}

/// `target` lies somewhere in the first `limit` bytes of `slice`.
pub open spec fn occurs_within(slice: Seq<u8>, target: Seq<u8>, limit: nat) -> bool {
    exists|i: int| i + target.len() <= limit && occurs_at(slice, target, i)
}

/// Whether `target` stands in `slice` at `at`.
fn equal_at(slice: &[u8], target: &[u8], at: usize) -> (equal: bool)
    requires
        at + target@.len() <= slice@.len(),
    ensures
        equal == occurs_at(slice@, target@, at as int),
{
    let mut k: usize = 0;
    while k < target.len()
        invariant
            k <= target.len(),
            at + target.len() <= slice.len(),
            forall|j: int| 0 <= j < k ==> slice@[at + j] == target@[j],
        decreases target.len() - k,
    {
        if slice[at + k] != target[k] {
            assert(slice@.subrange(at as int, at + target@.len())[k as int] != target@[k as int]);
            return false;
        }
        k = k + 1;
    }
    assert(slice@.subrange(at as int, at + target@.len()) =~= target@);
    true
}

/// Looks for `target` in the first `max_range` bytes of `slice` (in all of it
/// where it is shorter) and returns the index of the first place where it
/// stands, or `None` where it stands nowhere in that part.
pub fn find_substring(slice: &[u8], target: &[u8], max_range: usize) -> (found: Option<usize>)
    ensures
        found matches Some(i) ==> {
            &&& occurs_at(slice@, target@, i as int)
            &&& i + target@.len() <= search_length(slice@.len(), max_range as nat)
            &&& forall|j: int| 0 <= j < i ==> !occurs_at(slice@, target@, j)
        },
        found is None <==> !occurs_within(
            slice@,
            target@,
            search_length(slice@.len(), max_range as nat),
        ),
{
    let slice_len = slice.len();
    let target_len = target.len();
    let search_len = if max_range < slice_len {
        max_range
    } else {
        slice_len
    };
    if target_len > search_len {
        return None;
    }
    let last: usize = search_len - target_len;
    let mut i: usize = 0;
    loop
        invariant
            i <= last,
            last == search_len - target_len,
            search_len == search_length(slice@.len(), max_range as nat),
            target_len == target@.len(),
            search_len <= slice@.len(),
            forall|j: int| 0 <= j < i ==> !occurs_at(slice@, target@, j),
        ensures
            i == last,
            forall|j: int| 0 <= j <= last ==> !occurs_at(slice@, target@, j),
        decreases last - i,
    {
        if equal_at(slice, target, i) {
            return Some(i);
        }
        if i == last {
            break ;
        }
        i = i + 1;
    }
    None
}

/// The header window carries the marker: it stands inside the ten bytes that
/// start at the marker offset.
pub open spec fn header_marker_present(header: Seq<u8>) -> bool {
    exists|i: int|
        HEADER_MARKER_OFFSET <= i && i + HEADER_MARKER_SIZE <= HEADER_MARKER_OFFSET
            + HEADER_MARKER_RANGE && #[trigger] occurs_at(header, header_marker(), i)
}

/// Scans a header window for the marker.
pub fn header_has_marker(header: &[u8]) -> (present: bool)
    ensures
        present == header_marker_present(header@),
{
    if header.len() < HEADER_MARKER_OFFSET {
        return false;
    }
    let marker: [u8; 9] = [0x4A, 0x2D, 0x4C, 0x69, 0x6E, 0x6B, 0x20, 0x56, 0x39];
    assert(marker@ =~= header_marker());
    let tail = vstd::slice::slice_subrange(header, HEADER_MARKER_OFFSET, header.len());
    let found = find_substring(tail, marker.as_slice(), HEADER_MARKER_RANGE);
    let ghost limit = search_length(tail@.len(), HEADER_MARKER_RANGE as nat);
    proof {
        assert forall|k: int| 0 <= k implies (occurs_at(tail@, header_marker(), k) <==> occurs_at(
            header@,
            header_marker(),
            HEADER_MARKER_OFFSET + k,
        )) by {
            if k + HEADER_MARKER_SIZE <= tail@.len() {
                assert(header@.subrange(
                    HEADER_MARKER_OFFSET + k,
                    HEADER_MARKER_OFFSET + k + HEADER_MARKER_SIZE,
                ) =~= tail@.subrange(k, k + HEADER_MARKER_SIZE));
            }
        }
        if header_marker_present(header@) {
            let i = choose|i: int|
                HEADER_MARKER_OFFSET <= i && i + HEADER_MARKER_SIZE <= HEADER_MARKER_OFFSET
                    + HEADER_MARKER_RANGE && #[trigger] occurs_at(header@, header_marker(), i);
            let k = i - HEADER_MARKER_OFFSET;
            assert(occurs_at(tail@, header_marker(), k));
            assert(k + header_marker().len() <= limit);
            assert(occurs_within(tail@, header_marker(), limit));
        }
        if occurs_within(tail@, header_marker(), limit) {
            let k = choose|k: int|
                k + header_marker().len() <= limit && occurs_at(tail@, header_marker(), k);
            assert(occurs_at(header@, header_marker(), HEADER_MARKER_OFFSET + k));
            assert(header_marker_present(header@));
        }
    }
    found.is_some()
}

/// A first length field that announces a second one.
pub open spec fn needs_extension(first: u16) -> bool {
    first > LENGTH_EXTENSION_THRESHOLD
}

/// The length that two fields pack: the low fourteen bits of the first are
/// its low bits, the second field is everything above them.
pub open spec fn packed_length(first: u16, second: u16) -> u32 {
    ((first as int) % 0x4000 + 0x4000 * (second as int)) as u32
}

/// The transfer length that the fields of one exchange announce. The second
/// field counts only where the first asks for it.
pub open spec fn transfer_length(first: u16, second: u16) -> u32 {
    if needs_extension(first) {
        packed_length(first, second)
    } else {
        first as u32
    }
}

/// Whether a second length field follows the first.
pub fn needs_length_extension(first: u16) -> (needed: bool)
    ensures
        needed == needs_extension(first),
{
    first > LENGTH_EXTENSION_THRESHOLD
}

/// Unpacks the length from both fields: with `combined` the four bytes read as
/// one number, it is `(combined & 0x3FFF) | ((combined >> 16) << 14)`.
pub fn extended_transfer_length(first: u16, second: u16) -> (length: u32)
    ensures
        length == packed_length(first, second),
        length < ENCODABLE_LENGTH_LIMIT,
{
    let combined: u32 = (first as u32) | ((second as u32) << 16);
    let length: u32 = (combined & 0x3fff) | ((combined >> 16) << 14);
    assert(length == (first as u32) % 0x4000 + 0x4000 * (second as u32)) by (bit_vector)
        requires
            combined == (first as u32) | ((second as u32) << 16),
            length == (combined & 0x3fff) | ((combined >> 16) << 14),
    ;
    length
}

/// The bytes that announce `length`: two where it needs no extension, four
/// where it does. Of the two spare bits of the first field both are set.
pub open spec fn encoded_length(length: u32) -> Seq<u8> {
    if length <= LENGTH_EXTENSION_THRESHOLD {
        seq![low_byte(length as u16), high_byte(length as u16)]
    } else {
        let first = (0xC000 + length as int % 0x4000) as u16;
        let second = (length as int / 0x4000) as u16;
        seq![low_byte(first), high_byte(first), low_byte(second), high_byte(second)]
    }
}

/// The length that a complete announcement spells, if it is one: two bytes
/// that ask for no extension, or four bytes whose first two ask for it.
pub open spec fn decoded_length(bytes: Seq<u8>) -> Option<u32> {
    if bytes.len() == 2 && !needs_extension(le16(bytes[0], bytes[1])) {
        Some(le16(bytes[0], bytes[1]) as u32)
    } else if bytes.len() == 4 && needs_extension(le16(bytes[0], bytes[1])) {
        Some(packed_length(le16(bytes[0], bytes[1]), le16(bytes[2], bytes[3])))
    } else {
        None
    }
}

/// Encodes a transfer length: the bytes, and how many of them count, two
/// or four. Lengths of 2^30 and more have no encoding.
pub fn encode_transfer_length(length: u32) -> (encoding: Option<([u8; 4], usize)>)
    ensures
        encoding is Some <==> length < ENCODABLE_LENGTH_LIMIT,
        encoding matches Some((bytes, count)) ==> {
            &&& count == encoded_length(length).len()
            &&& bytes@.take(count as int) == encoded_length(length)
            &&& forall|i: int| count <= i < 4 ==> bytes@[i] == 0
        },
{
    if length >= ENCODABLE_LENGTH_LIMIT {
        return None;
    }
    if length <= 0x8000 {
        let (low, high) = u16_to_le(length as u16);
        let bytes: [u8; 4] = [low, high, 0, 0];
        assert(bytes@.take(2) =~= encoded_length(length));
        Some((bytes, 2))
    } else {
        let first: u16 = (0xC000 + length % 0x4000) as u16;
        let second: u16 = (length / 0x4000) as u16;
        let (low, high) = u16_to_le(first);
        let (low_second, high_second) = u16_to_le(second);
        let bytes: [u8; 4] = [low, high, low_second, high_second];
        assert(bytes@.take(4) =~= encoded_length(length));
        Some((bytes, 4))
    }
}

/// Decodes a complete announcement of a transfer length.
pub fn decode_transfer_length(bytes: &[u8]) -> (length: Option<u32>)
    ensures
        length == decoded_length(bytes@),
{
    if bytes.len() == 2 {
        let first = u16_from_le(bytes[0], bytes[1]);
        if needs_length_extension(first) {
            None
        } else {
            Some(first as u32)
        }
    } else if bytes.len() == 4 {
        let first = u16_from_le(bytes[0], bytes[1]);
        if needs_length_extension(first) {
            Some(extended_transfer_length(first, u16_from_le(bytes[2], bytes[3])))
        } else {
            None
        }
    } else {
        None
    }
}

/// Every length below 2^30 comes back from its encoding unchanged: one of at
/// most 0x8000 from two bytes, a longer one from four.
pub proof fn lemma_length_round_trip(length: u32)
    requires
        length < ENCODABLE_LENGTH_LIMIT,
    ensures
        decoded_length(encoded_length(length)) == Some(length),
        encoded_length(length).len() == (if length <= LENGTH_EXTENSION_THRESHOLD {
            2nat
        } else {
            4nat
        }),
{
}

/// Whatever the two spare bits of the first field are, fields that ask for
/// the extension and carry the low fourteen bits and the rest of a length
/// announce that length.
pub proof fn lemma_packed_fields_announce(length: u32, first: u16, second: u16)
    requires
        needs_extension(first),
        first as int % 0x4000 == length as int % 0x4000,
        second as int == length as int / 0x4000,
    ensures
        transfer_length(first, second) == length,
{
}

} // verus!
