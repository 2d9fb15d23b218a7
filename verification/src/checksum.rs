//! The image checksum: a bit-reversed CRC-16 with polynomial 0x8408, fed one
//! byte at a time, least significant bit first, starting from zero and with no
//! complement at either end.

use vstd::prelude::*;

verus! {

/// The reversed form of the generator polynomial.
pub const CRC16_POLYNOMIAL: u16 = 0x8408;

/// One shift of the register: the low bit leaves, and where it was set the
/// polynomial is folded in.
pub open spec fn crc16_shift(crc: u16) -> u16 {
    if crc & 1 != 0 {
        (crc >> 1) ^ CRC16_POLYNOMIAL
    } else {
        crc >> 1
    }
}

/// `rounds` shifts in a row.
pub open spec fn crc16_shifts(crc: u16, rounds: nat) -> u16
    decreases rounds,
{
    if rounds == 0 {
        crc
    } else {
        crc16_shift(crc16_shifts(crc, (rounds - 1) as nat))
    }
}

/// The register after one more byte: the byte is folded into the low half,
/// then the register is shifted eight times.
pub open spec fn crc16_update(crc: u16, byte: u8) -> u16 {
    crc16_shifts(crc ^ (byte as u16), 8)
}

/// The checksum of a byte string: the register that started at zero and took
/// every byte in order.
pub open spec fn crc16(data: Seq<u8>) -> u16
    decreases data.len(),
{
    if data.len() == 0 {
        0
    } else {
        crc16_update(crc16(data.drop_last()), data.last())
    }
}

/// Taking one more byte of a string is one update of the register.
pub proof fn lemma_crc16_take_next(data: Seq<u8>, n: int)
    requires
        0 <= n < data.len(),
    ensures
        crc16(data.take(n + 1)) == crc16_update(crc16(data.take(n)), data[n]),
{
    assert(data.take(n + 1).drop_last() =~= data.take(n));
}

/// Two registers that differ still differ after a shift.
pub proof fn lemma_shift_keeps_apart(a: u16, b: u16)
    requires
        a != b,
    ensures
        crc16_shift(a) != crc16_shift(b),
{
    assert(a != b ==> (if a & 1 != 0 {
        (a >> 1) ^ 0x8408u16
    } else {
        a >> 1
    }) != (if b & 1 != 0 {
        (b >> 1) ^ 0x8408u16
    } else {
        b >> 1
    })) by (bit_vector);
}

/// Two registers that differ still differ after any number of shifts.
pub proof fn lemma_shifts_keep_apart(a: u16, b: u16, rounds: nat)
    requires
        a != b,
    ensures
        crc16_shifts(a, rounds) != crc16_shifts(b, rounds),
    decreases rounds,
{
    if rounds > 0 {
        lemma_shifts_keep_apart(a, b, (rounds - 1) as nat);
        lemma_shift_keeps_apart(
            crc16_shifts(a, (rounds - 1) as nat),
            crc16_shifts(b, (rounds - 1) as nat),
        );
    }
}

/// One byte taken by two registers that differ leaves them different, and
/// two different bytes taken by one register lead to different registers.
pub proof fn lemma_update_keeps_apart(a: u16, x: u8, b: u16, y: u8)
    requires
        (a != b && x == y) || (a == b && x != y),
    ensures
        crc16_update(a, x) != crc16_update(b, y),
{
    let wide_x = x as u16;
    let wide_y = y as u16;
    assert(wide_x != wide_y <==> x != y);
    assert(((a != b && wide_x == wide_y) || (a == b && wide_x != wide_y)) ==> (a ^ wide_x) != (b
        ^ wide_y)) by (bit_vector);
    lemma_shifts_keep_apart(a ^ wide_x, b ^ wide_y, 8);
}

/// The checksum finds every change that is confined to one byte: two strings
/// of one length that differ in exactly one place have different checksums.
/// A single flipped bit is such a change.
pub proof fn lemma_crc16_finds_changed_byte(data: Seq<u8>, changed: Seq<u8>, place: int)
    requires
        data.len() == changed.len(),
        0 <= place < data.len(),
        data[place] != changed[place],
        forall|i: int| 0 <= i < data.len() && i != place ==> data[i] == changed[i],
    ensures
        crc16(data) != crc16(changed),
{
    lemma_crc16_prefixes_differ(data, changed, place, data.len() as int);
    assert(data.take(data.len() as int) =~= data);
    assert(changed.take(data.len() as int) =~= changed);
}

/// Every prefix that reaches past the changed place has another checksum.
proof fn lemma_crc16_prefixes_differ(data: Seq<u8>, changed: Seq<u8>, place: int, n: int)
    requires
        data.len() == changed.len(),
        0 <= place < n <= data.len(),
        data[place] != changed[place],
        forall|i: int| 0 <= i < data.len() && i != place ==> data[i] == changed[i],
    ensures
        crc16(data.take(n)) != crc16(changed.take(n)),
    decreases n,
{
    lemma_crc16_take_next(data, n - 1);
    lemma_crc16_take_next(changed, n - 1);
    if n - 1 == place {
        assert(data.take(place) =~= changed.take(place));
    } else {
        lemma_crc16_prefixes_differ(data, changed, place, n - 1);
    }
    lemma_update_keeps_apart(
        crc16(data.take(n - 1)),
        data[n - 1],
        crc16(changed.take(n - 1)),
        changed[n - 1],
    );
}

/// The running value of one verification pass.
#[derive(Clone, Copy, Debug)]
pub struct ChecksumState {
    value: u16,
}

impl ChecksumState {
    /// The register as a number.
    pub closed spec fn view(&self) -> u16 {
        self.value
    }

    /// The state at the start of a pass.
    pub fn new() -> (state: Self)
        ensures
            state@ == 0,
            state@ == crc16(Seq::<u8>::empty()),
    {
        ChecksumState { value: 0 }
    }

    /// Takes one byte.
    pub fn update(&mut self, byte: u8)
        ensures
            final(self)@ == crc16_update(old(self)@, byte),
    {
        let mut crc: u16 = self.value ^ (byte as u16);
        let mut round: u8 = 0;
        while round < 8
            invariant
                round <= 8,
                crc == crc16_shifts(old(self).value ^ (byte as u16), round as nat),
            decreases 8 - round,
        {
            if crc & 1 != 0 {
                crc = (crc >> 1) ^ CRC16_POLYNOMIAL;
            } else {
                crc = crc >> 1;
            }
            round = round + 1;
        }
        self.value = crc;
    }

    /// The value to compare with the stored checksum.
    pub fn value(&self) -> (crc: u16)
        ensures
            crc == self@,
    {
        self.value
    }
}

/// The checksum of `data`.
pub fn app_crc16(data: &[u8]) -> (crc: u16)
    ensures
        crc == crc16(data@),
{
    let mut state = ChecksumState::new();
    let mut i: usize = 0;
    while i < data.len()
        invariant
            i <= data.len(),
            state@ == crc16(data@.take(i as int)),
        decreases data.len() - i,
    {
        proof {
            lemma_crc16_take_next(data@, i as int);
        }
        state.update(data[i]);
        i = i + 1;
    }
    proof {
        assert(data@.take(data.len() as int) =~= data@);
    }
    state.value()
}

} // verus!
