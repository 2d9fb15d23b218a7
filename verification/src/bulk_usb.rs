//! The packet rules of the bulk channel: one transfer carries at most the
//! maximum packet size, and a longer buffer goes out as a row of packets.

use vstd::prelude::*;

verus! {

/// The maximum packet size of the bootloader's two bulk endpoints.
pub const MAX_PACKET_SIZE: u16 = 64;

/// The packets that carry `data` over a channel with the given maximum packet
/// size: full packets as long as more than one packet's worth is left, then
/// what is left. No data, no packet.
pub open spec fn packets_of(data: Seq<u8>, size: nat) -> Seq<Seq<u8>>
    decreases data.len(),
{
    if data.len() == 0 || size == 0 {
        Seq::empty()
    } else if data.len() <= size {
        seq![data]
    } else {
        seq![data.take(size as int)] + packets_of(data.skip(size as int), size)
    }
}

/// What the engine knows of its duplex bulk channel: the maximum packet size
/// that both endpoints were made with.
#[derive(Clone, Copy, Debug)]
pub struct BulkClass {
    max_packet_size: u16,
}

impl BulkClass {
    /// The maximum packet size of the channel.
    pub closed spec fn view(&self) -> u16 {
        self.max_packet_size
    }

    /// A channel whose endpoints carry up to `max_packet_size` bytes.
    pub fn new(max_packet_size: u16) -> (bulk: Self)
        ensures
            bulk@ == max_packet_size,
    {
        BulkClass { max_packet_size }
    }

    /// Gets the maximum packet size in bytes.
    pub fn max_packet_size(&self) -> (size: u16)
        ensures
            size == self@,
    {
        self.max_packet_size
    }

    /// Splits the first packet off `data`: the packet to write now, and what
    /// is left to split and write after it. `None` when nothing is left.
    /// Taken again and again on what is left, this yields the packets of
    /// `data` in the order in which they are written, without a copy.
    pub fn write_split<'a>(&self, data: &'a [u8]) -> (split: Option<(&'a [u8], &'a [u8])>)
        requires
            self@ > 0,
        ensures
            split is None <==> data@.len() == 0,
            split is None <==> packets_of(data@, self@ as nat).len() == 0,
            split matches Some((packet, rest)) ==> {
                &&& packet@ + rest@ == data@
                &&& packets_of(data@, self@ as nat) == seq![packet@] + packets_of(
                    rest@,
                    self@ as nat,
                )
                &&& packet@ == packets_of(data@, self@ as nat)[0]
            },
    {
        let size: usize = self.max_packet_size as usize;
        if data.len() == 0 {
            return None;
        }
        let end: usize = if data.len() <= size {
            data.len()
        } else {
            size
        };
        let packet = vstd::slice::slice_subrange(data, 0, end);
        let rest = vstd::slice::slice_subrange(data, end, data.len());
        proof {
            if data.len() <= size {
                assert(packet@ =~= data@);
                assert(packets_of(rest@, size as nat) =~= Seq::empty());
                assert(packets_of(data@, size as nat) =~= seq![packet@] + packets_of(
                    rest@,
                    size as nat,
                ));
            } else {
                assert(packet@ =~= data@.take(size as int));
                assert(rest@ =~= data@.skip(size as int));
            }
            assert(packet@ + rest@ =~= data@);
        }
        Some((packet, rest))
    }
}

/// No packet is empty, none is longer than the maximum packet size, and every
/// packet but the last is full.
pub proof fn lemma_packet_sizes(data: Seq<u8>, size: nat, i: int)
    requires
        0 <= i < packets_of(data, size).len(),
    ensures
        1 <= packets_of(data, size)[i].len() <= size,
        i + 1 < packets_of(data, size).len() ==> packets_of(data, size)[i].len() == size,
    decreases data.len(),
{
    if data.len() > size && size > 0 {
        if i > 0 {
            lemma_packet_sizes(data.skip(size as int), size, i - 1);
        } else {
            // the first packet is full; more data is left, so it is not the last
        }
    }
}

/// The packets, joined in order, are the data: nothing is lost, repeated or
/// moved.
pub proof fn lemma_packets_join(data: Seq<u8>, size: nat)
    requires
        size > 0,
    ensures
        packets_of(data, size).flatten() == data,
    decreases data.len(),
{
    let packets = packets_of(data, size);
    if data.len() == 0 {
        assert(packets.flatten() =~= data);
    } else if data.len() <= size {
        assert(packets.drop_first() =~= Seq::<Seq<u8>>::empty());
        assert(packets.drop_first().flatten() =~= Seq::<u8>::empty());
        assert(packets.flatten() =~= data);
    } else {
        let rest = data.skip(size as int);
        lemma_packets_join(rest, size);
        assert(packets.first() == data.take(size as int));
        assert(packets.drop_first() =~= packets_of(rest, size));
        assert(data.take(size as int) + rest =~= data);
    }
}

/// Packet `i` is the window of the data that starts at `i` times the maximum
/// packet size and ends one packet later, or where the data ends.
pub proof fn lemma_packet_is_window(data: Seq<u8>, size: nat, i: int)
    requires
        0 <= i < packets_of(data, size).len(),
    ensures
        i * size < data.len(),
        packets_of(data, size)[i] == data.subrange(
            i * size,
            if (i + 1) * size <= data.len() {
                (i + 1) * size
            } else {
                data.len() as int
            },
        ),
    decreases data.len(),
{
    if data.len() <= size {
        assert(i == 0);
        assert(i * size == 0) by (nonlinear_arith)
            requires
                i == 0,
        ;
        assert((i + 1) * size == size) by (nonlinear_arith)
            requires
                i == 0,
        ;
        assert(data.subrange(0, data.len() as int) =~= data);
    } else if i == 0 {
        assert(i * size == 0) by (nonlinear_arith)
            requires
                i == 0,
        ;
        assert((i + 1) * size == size) by (nonlinear_arith)
            requires
                i == 0,
        ;
        assert(data.take(size as int) =~= data.subrange(0, size as int));
    } else {
        let rest = data.skip(size as int);
        lemma_packet_is_window(rest, size, i - 1);
        assert((i - 1) * size + size == i * size) by (nonlinear_arith);
        assert(i * size + size == (i + 1) * size) by (nonlinear_arith);
        let end_rest = if i * size <= rest.len() {
            i * size
        } else {
            rest.len() as int
        };
        let end = if (i + 1) * size <= data.len() {
            (i + 1) * size
        } else {
            data.len() as int
        };
        assert(rest.subrange((i - 1) * size, end_rest) =~= data.subrange(i * size, end));
    }
}

} // verus!
