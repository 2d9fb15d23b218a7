//! What holds of whole runs of the engine: of every state it can reach, and
//! of an update from the acknowledgment of the command to its end.

use vstd::prelude::*;
use crate::bulk_usb::packets_of;
use crate::firmware::{
    encoded_length, header_marker_present, needs_extension, transfer_length,
    ENCODABLE_LENGTH_LIMIT, EXPECTED_FIRMWARE_LENGTH, FIRMWARE_HEADER_SIZE,
    LENGTH_EXTENSION_THRESHOLD,
};
use crate::protocol::{
    awaited_chunk, chunk_length, committed, ends_read, ends_write, header_awaited,
    header_verdict, initial_state, length_field, pending, read_buffer, received_length, step,
    version_prefix, version_response, well_formed, ActionView, EngineState, EventView, Phase,
    CMD_GET_INFO, CMD_UPDATE_FIRMWARE, CMD_VERSION, PACKET_SIZE, SETTLE_DELAY_MS,
    VERSION_RESPONSE_SIZE,
};

verus! {

/// The state after a row of events.
pub open spec fn run(state: EngineState, events: Seq<EventView>) -> EngineState
    decreases events.len(),
{
    if events.len() == 0 {
        state
    } else {
        step(run(state, events.drop_last()), events.last())
    }
}

/// Every event of the row ends a read.
pub open spec fn all_end_reads(events: Seq<EventView>) -> bool {
    forall|i: int| 0 <= i < events.len() ==> ends_read(#[trigger] events[i])
}

/// Where a row of reads leads, on the way from `start` to `total`: every
/// read moves the offset on by the number of bytes it brought. Each read is
/// made with room for a packet, or for what is still missing, so the offset
/// never passes `total`; once it is there, nothing more is counted.
pub open spec fn offset_after(start: int, total: int, reads: Seq<EventView>) -> int
    decreases reads.len(),
{
    if reads.len() == 0 {
        start
    } else {
        let before = offset_after(start, total, reads.drop_last());
        if before < total {
            before + received_length(reads.last(), chunk_length(before, total) as nat)
        } else {
            before
        }
    }
}

/// The bytes that a row of reads delivers on that way, in the order in which
/// they came.
pub open spec fn delivered(start: int, total: int, reads: Seq<EventView>) -> Seq<u8>
    decreases reads.len(),
{
    if reads.len() == 0 {
        Seq::empty()
    } else {
        let before = offset_after(start, total, reads.drop_last());
        let so_far = delivered(start, total, reads.drop_last());
        if before < total {
            let capacity = chunk_length(before, total) as nat;
            so_far + read_buffer(reads.last(), capacity).take(
                received_length(reads.last(), capacity) as int,
            )
        } else {
            so_far
        }
    }
}

/// The row of reads in which each packet of `packets` comes in whole.
pub open spec fn reads_of(packets: Seq<Seq<u8>>) -> Seq<EventView> {
    Seq::new(packets.len(), |i: int| EventView::Received(packets[i]))
}

/// No packet is longer than the packet size.
pub open spec fn all_fit(packets: Seq<Seq<u8>>) -> bool {
    forall|i: int| 0 <= i < packets.len() ==> (#[trigger] packets[i]).len() <= PACKET_SIZE
}

/// The events up to and including the length of an update: the end of the
/// acknowledgment, the first length field and, where that asks for it, the
/// second.
pub open spec fn announcement(ack: EventView, first: EventView, second: EventView) -> Seq<
    EventView,
> {
    if needs_extension(length_field(first)) {
        seq![ack, first, second]
    } else {
        seq![ack, first]
    }
}

/// One more event is one more step.
pub proof fn lemma_run_push(state: EngineState, events: Seq<EventView>, event: EventView)
    ensures
        run(state, events.push(event)) == step(run(state, events), event),
{
    assert(events.push(event).drop_last() =~= events);
}

/// A run of two rows is the run of the second from where the first ended.
pub proof fn lemma_run_concat(state: EngineState, first: Seq<EventView>, second: Seq<EventView>)
    ensures
        run(state, first + second) == run(run(state, first), second),
    decreases second.len(),
{
    if second.len() == 0 {
        assert(first + second =~= first);
    } else {
        lemma_run_concat(state, first, second.drop_last());
        assert((first + second).drop_last() =~= first + second.drop_last());
        assert((first + second).last() == second.last());
    }
}

/// Whatever happens, the engine stays well formed.
pub proof fn lemma_run_keeps_well_formed(state: EngineState, events: Seq<EventView>)
    requires
        well_formed(state),
    ensures
        well_formed(run(state, events)),
    decreases events.len(),
{
    if events.len() > 0 {
        lemma_run_keeps_well_formed(state, events.drop_last());
        crate::protocol::lemma_step_keeps_well_formed(
            run(state, events.drop_last()),
            events.last(),
        );
    }
}

/// In no state that the engine can reach from power-on does it wait for the
/// body, write the last acknowledgment, or ask for the settle delay or the
/// reset, unless the header in its staging buffer carries the marker and the
/// announced length is the expected one. The delay and the reset are asked
/// for in no other phase than their own.
pub proof fn lemma_reset_needs_accepted_image(events: Seq<EventView>)
    ensures
        ({
            let state = run(initial_state(), events);
            let asked = pending(state);
            &&& asked is SystemReset <==> state.phase is Reset
            &&& asked is Delay <==> state.phase is UpdateSettle
            &&& committed(state.phase) ==> header_marker_present(state.header)
                && state.total_length == EXPECTED_FIRMWARE_LENGTH
        }),
{
    assert(well_formed(initial_state()));
    lemma_run_keeps_well_formed(initial_state(), events);
}

/// What a listening engine does with a packet. Only a packet of exactly one
/// byte that is one of the three served commands gets a reply; the first
/// packet of that reply is then due. Every other packet, whatever its length,
/// gets none: the engine goes back to waiting for a connection.
pub proof fn lemma_only_served_commands_get_a_reply(state: EngineState, packet: Seq<u8>)
    requires
        state.phase is Listening,
    ensures
        ({
            let asked = pending(step(state, EventView::Received(packet)));
            let served = packet.len() == 1 && (packet[0] == CMD_VERSION || packet[0]
                == CMD_GET_INFO || packet[0] == CMD_UPDATE_FIRMWARE);
            &&& served ==> asked is WritePacket
            &&& !served ==> asked == ActionView::WaitConnection
            &&& packet =~= seq![CMD_VERSION] ==> asked == ActionView::WritePacket(seq![96u8, 0u8])
            &&& packet =~= seq![CMD_GET_INFO] ==> asked == ActionView::WritePacket(seq![0u8])
            &&& packet =~= seq![CMD_UPDATE_FIRMWARE] ==> asked == ActionView::WritePacket(
                seq![0u8],
            )
        }),
{
    assert(version_prefix() =~= seq![96u8, 0u8]);
}

/// The info reply is one zero byte and nothing more: when its write has
/// ended, well or not, the engine waits for the next connection.
pub proof fn lemma_info_reply(state: EngineState, done: EventView)
    requires
        state.phase is Info,
        ends_write(done),
    ensures
        pending(state) == ActionView::WritePacket(seq![0u8]),
        pending(step(state, done)) == ActionView::WaitConnection,
{
}

/// The events that carry the encoding of `length` to an engine that has just
/// acknowledged the update command: the end of the acknowledgment, then the
/// encoding, two bytes to a packet.
pub open spec fn announcement_of(ack: EventView, length: u32) -> Seq<EventView> {
    let bytes = encoded_length(length);
    if length <= LENGTH_EXTENSION_THRESHOLD {
        seq![ack, EventView::Received(bytes)]
    } else {
        seq![
            ack,
            EventView::Received(bytes.subrange(0, 2)),
            EventView::Received(bytes.subrange(2, 4)),
        ]
    }
}

/// The engine decodes what the encoding spells: every length below 2^30,
/// sent in its encoding, is the transfer length that the engine goes on
/// with, one of at most 0x8000 after one length packet, a longer one after
/// two.
pub proof fn lemma_engine_decodes_encoding(state: EngineState, ack: EventView, length: u32)
    requires
        state.phase is UpdateAck,
        ends_write(ack),
        length < ENCODABLE_LENGTH_LIMIT,
    ensures
        run(state, announcement_of(ack, length)) == header_awaited(state, length),
{
    let bytes = encoded_length(length);
    if length <= LENGTH_EXTENSION_THRESHOLD {
        let first = EventView::Received(bytes);
        assert(length_field(first) == length);
        lemma_announcement_is_decoded(state, ack, first, first);
    } else {
        let first = EventView::Received(bytes.subrange(0, 2));
        let second = EventView::Received(bytes.subrange(2, 4));
        assert(length_field(first) == 0xC000 + length % 0x4000);
        assert(length_field(second) == length / 0x4000);
        lemma_announcement_is_decoded(state, ack, first, second);
    }
}

/// The length phase of an update. From the acknowledgment of the command on,
/// the events of the announcement lead to the state in which the header is
/// awaited, with the staging buffer cleared and the announced length decoded.
pub proof fn lemma_announcement_is_decoded(
    state: EngineState,
    ack: EventView,
    first: EventView,
    second: EventView,
)
    requires
        state.phase is UpdateAck,
        ends_write(ack),
        ends_read(first),
        ends_read(second),
    ensures
        run(state, announcement(ack, first, second)) == header_awaited(
            state,
            transfer_length(length_field(first), length_field(second)),
        ),
{
    let empty = Seq::<EventView>::empty();
    assert(run(state, empty) == state);
    lemma_run_push(state, empty, ack);
    assert(empty.push(ack) =~= seq![ack]);
    lemma_run_push(state, seq![ack], first);
    assert(seq![ack].push(first) =~= seq![ack, first]);
    if needs_extension(length_field(first)) {
        lemma_run_push(state, seq![ack, first], second);
        assert(seq![ack, first].push(second) =~= seq![ack, first, second]);
    }
}

/// The offset lies between `start` and `total`, it is the number of bytes
/// delivered, and no shorter row of the same reads has come further.
pub proof fn lemma_offset_bounds(start: int, total: int, reads: Seq<EventView>, count: int)
    requires
        0 <= start <= total,
        0 <= count <= reads.len(),
    ensures
        start <= offset_after(start, total, reads.take(count)) <= offset_after(start, total, reads)
            <= total,
        delivered(start, total, reads).len() == offset_after(start, total, reads) - start,
    decreases reads.len(),
{
    if reads.len() == 0 {
        assert(reads.take(count) =~= reads);
    } else if count == reads.len() {
        assert(reads.take(count) =~= reads);
        lemma_offset_bounds(start, total, reads.drop_last(), count - 1);
    } else {
        lemma_offset_bounds(start, total, reads.drop_last(), count);
        assert(reads.drop_last().take(count) =~= reads.take(count));
    }
}

/// While the header window comes in: as long as the reads have not filled
/// it, the engine awaits the next packet right behind the bytes that came,
/// with room for a packet or for what is still missing, and the staging
/// buffer starts with the bytes that came, whatever the packet sizes were.
pub proof fn lemma_header_progress(state: EngineState, reads: Seq<EventView>)
    requires
        state.phase == (Phase::UpdateHeader { offset: 0 }),
        state.header.len() == FIRMWARE_HEADER_SIZE,
        all_end_reads(reads),
        offset_after(0, FIRMWARE_HEADER_SIZE as int, reads) < FIRMWARE_HEADER_SIZE,
    ensures
        ({
            let now = run(state, reads);
            let offset = offset_after(0, FIRMWARE_HEADER_SIZE as int, reads);
            &&& now.phase == Phase::UpdateHeader { offset: offset as u32 }
            &&& now.total_length == state.total_length
            &&& now.header.len() == FIRMWARE_HEADER_SIZE
            &&& now.header.take(offset) == delivered(0, FIRMWARE_HEADER_SIZE as int, reads)
            &&& awaited_chunk(now) == Some(
                (offset as u32, chunk_length(offset, FIRMWARE_HEADER_SIZE as int) as u32),
            )
        }),
    decreases reads.len(),
{
    let total = FIRMWARE_HEADER_SIZE as int;
    if reads.len() == 0 {
        assert(state.header.take(0) =~= Seq::<u8>::empty());
    } else {
        let earlier = reads.drop_last();
        lemma_offset_bounds(0, total, reads, reads.len() - 1);
        assert(reads.take(reads.len() - 1) =~= earlier);
        lemma_offset_bounds(0, total, earlier, 0);
        lemma_header_progress(state, earlier);
        let before = run(state, earlier);
        let now = run(state, reads);
        let place = offset_after(0, total, earlier);
        let offset = offset_after(0, total, reads);
        assert(ends_read(reads[reads.len() - 1]));
        assert(now == step(before, reads.last()));
        assert(before.header.take(place) == delivered(0, total, earlier));
        assert forall|i: int| 0 <= i < place implies now.header[i] == delivered(
            0,
            total,
            earlier,
        )[i] by {
            assert(before.header.take(place)[i] == before.header[i]);
        }
        assert(now.header.take(offset) =~= delivered(0, total, reads));
    }
}

/// From the first header read to the last, the engine asks for nothing but
/// the next read: while the window fills it writes no packet and asks for
/// no delay and no reset.
pub proof fn lemma_header_phase_only_reads(state: EngineState, reads: Seq<EventView>, count: int)
    requires
        state.phase == (Phase::UpdateHeader { offset: 0 }),
        state.header.len() == FIRMWARE_HEADER_SIZE,
        all_end_reads(reads),
        reads.len() > 0,
        offset_after(0, FIRMWARE_HEADER_SIZE as int, reads.drop_last()) < FIRMWARE_HEADER_SIZE,
        0 <= count < reads.len(),
    ensures
        pending(run(state, reads.take(count))) is ReadPacket,
        run(state, reads.take(count)).phase is UpdateHeader,
{
    let total = FIRMWARE_HEADER_SIZE as int;
    let earlier = reads.drop_last();
    lemma_offset_bounds(0, total, earlier, count);
    assert(earlier.take(count) =~= reads.take(count));
    assert forall|i: int| 0 <= i < count implies ends_read(#[trigger] reads.take(count)[i]) by {
        assert(reads.take(count)[i] == reads[i]);
    }
    lemma_header_progress(state, reads.take(count));
}

/// The header phase of an update, and with it the two reasons for which an
/// update is dropped. When the reads have brought as many bytes as the
/// window holds, however many packets that took, the staging buffer holds
/// those bytes in the order in which they came, and the engine goes on to
/// the body exactly when that header carries the marker and the announced
/// length is the expected one. Where the marker is missing, or the length is
/// another, it is back at the start, waiting for a connection: it has
/// written no acknowledgment and asked for no delay and no reset.
pub proof fn lemma_header_is_judged(state: EngineState, reads: Seq<EventView>)
    requires
        state.phase == (Phase::UpdateHeader { offset: 0 }),
        state.header.len() == FIRMWARE_HEADER_SIZE,
        all_end_reads(reads),
        reads.len() > 0,
        offset_after(0, FIRMWARE_HEADER_SIZE as int, reads.drop_last()) < FIRMWARE_HEADER_SIZE,
        offset_after(0, FIRMWARE_HEADER_SIZE as int, reads) == FIRMWARE_HEADER_SIZE,
    ensures
        ({
            let end = run(state, reads);
            let header = delivered(0, FIRMWARE_HEADER_SIZE as int, reads);
            let accepted = header_marker_present(header) && state.total_length
                == EXPECTED_FIRMWARE_LENGTH;
            &&& end.header == header
            &&& end.total_length == state.total_length
            &&& end.phase == header_verdict(header, state.total_length)
            &&& accepted ==> end.phase == Phase::UpdateBody { offset: FIRMWARE_HEADER_SIZE as u32 }
            &&& !accepted ==> end.phase == Phase::Disconnected && pending(end)
                == ActionView::WaitConnection
        }),
{
    let total = FIRMWARE_HEADER_SIZE as int;
    let earlier = reads.drop_last();
    assert forall|i: int| 0 <= i < earlier.len() implies ends_read(#[trigger] earlier[i]) by {
        assert(earlier[i] == reads[i]);
    }
    lemma_header_progress(state, earlier);
    lemma_offset_bounds(0, total, earlier, 0);
    lemma_offset_bounds(0, total, reads, 0);
    let before = run(state, earlier);
    let end = run(state, reads);
    let place = offset_after(0, total, earlier);
    assert(ends_read(reads[reads.len() - 1]));
    assert(end == step(before, reads.last()));
    assert forall|i: int| 0 <= i < place implies end.header[i] == delivered(0, total, earlier)[i] by {
        assert(before.header.take(place)[i] == before.header[i]);
    }
    assert(end.header =~= delivered(0, total, reads));
}

/// What a row of whole packets delivers: their bytes, joined in order. This
/// holds as long as no packet is longer than the packet size and all of them
/// together are no more than is missing.
pub proof fn lemma_packets_are_joined(start: int, total: int, packets: Seq<Seq<u8>>)
    requires
        0 <= start <= total,
        all_fit(packets),
        start + packets.flatten().len() <= total,
    ensures
        offset_after(start, total, reads_of(packets)) == start + packets.flatten().len(),
        delivered(start, total, reads_of(packets)) == packets.flatten(),
        all_end_reads(reads_of(packets)),
    decreases packets.len(),
{
    if packets.len() == 0 {
        assert(reads_of(packets) =~= Seq::<EventView>::empty());
    } else {
        let earlier = packets.drop_last();
        let packet = packets.last();
        assert(packets =~= earlier.push(packet));
        earlier.lemma_flatten_push(packet);
        assert(packets.flatten() == earlier.flatten() + packet);
        assert(reads_of(packets).drop_last() =~= reads_of(earlier));
        assert(reads_of(packets).last() == EventView::Received(packet));
        assert(all_fit(earlier)) by {
            assert forall|i: int| 0 <= i < earlier.len() implies (#[trigger] earlier[i]).len()
                <= PACKET_SIZE by {
                assert(earlier[i] == packets[i]);
            }
        }
        lemma_packets_are_joined(start, total, earlier);
        let before = start + earlier.flatten().len();
        if before < total {
            let capacity = chunk_length(before, total) as nat;
            assert(packet.len() <= capacity);
            assert(read_buffer(EventView::Received(packet), capacity).take(packet.len() as int)
                =~= packet);
        } else {
            assert(packet.len() == 0);
            assert(earlier.flatten() + packet =~= earlier.flatten());
        }
    }
}

/// The header is what the host sent, whatever the packet sizes. Whole
/// packets that together are as long as the window, none longer than the
/// packet size and the last one not empty, leave their bytes, joined in
/// order, in the staging buffer, and that header is judged: forty packets of
/// thirty-two bytes do what twenty of sixty-four do.
pub proof fn lemma_header_is_the_packets_joined(state: EngineState, packets: Seq<Seq<u8>>)
    requires
        state.phase == (Phase::UpdateHeader { offset: 0 }),
        state.header.len() == FIRMWARE_HEADER_SIZE,
        all_fit(packets),
        packets.flatten().len() == FIRMWARE_HEADER_SIZE,
        packets.len() > 0,
        packets.last().len() > 0,
    ensures
        ({
            let end = run(state, reads_of(packets));
            &&& end.header == packets.flatten()
            &&& end.total_length == state.total_length
            &&& end.phase == header_verdict(packets.flatten(), state.total_length)
        }),
{
    let total = FIRMWARE_HEADER_SIZE as int;
    let earlier = packets.drop_last();
    assert(packets =~= earlier.push(packets.last()));
    earlier.lemma_flatten_push(packets.last());
    assert(all_fit(earlier)) by {
        assert forall|i: int| 0 <= i < earlier.len() implies (#[trigger] earlier[i]).len()
            <= PACKET_SIZE by {
            assert(earlier[i] == packets[i]);
        }
    }
    lemma_packets_are_joined(0, total, packets);
    lemma_packets_are_joined(0, total, earlier);
    assert(reads_of(packets).drop_last() =~= reads_of(earlier));
    lemma_header_is_judged(state, reads_of(packets));
}

/// An update from the acknowledgment of the command to the verdict on the
/// header: whatever the host sends, and in whatever packets, the engine
/// commits itself to the image exactly when the header window carries the
/// marker and the announced length is the expected one, and drops the update
/// otherwise.
pub proof fn lemma_update_is_accepted_or_dropped(
    state: EngineState,
    ack: EventView,
    first: EventView,
    second: EventView,
    reads: Seq<EventView>,
)
    requires
        state.phase is UpdateAck,
        ends_write(ack),
        ends_read(first),
        ends_read(second),
        all_end_reads(reads),
        reads.len() > 0,
        offset_after(0, FIRMWARE_HEADER_SIZE as int, reads.drop_last()) < FIRMWARE_HEADER_SIZE,
        offset_after(0, FIRMWARE_HEADER_SIZE as int, reads) == FIRMWARE_HEADER_SIZE,
    ensures
        ({
            let end = run(state, announcement(ack, first, second) + reads);
            let length = transfer_length(length_field(first), length_field(second));
            let header = delivered(0, FIRMWARE_HEADER_SIZE as int, reads);
            &&& end.header == header
            &&& end.total_length == length
            &&& if header_marker_present(header) && length == EXPECTED_FIRMWARE_LENGTH {
                end.phase == Phase::UpdateBody { offset: FIRMWARE_HEADER_SIZE as u32 }
            } else {
                end.phase == Phase::Disconnected
            }
        }),
{
    let length = transfer_length(length_field(first), length_field(second));
    lemma_announcement_is_decoded(state, ack, first, second);
    lemma_run_concat(state, announcement(ack, first, second), reads);
    lemma_header_is_judged(header_awaited(state, length), reads);
}

/// While the body comes in: as long as the reads have not brought all of
/// it, the engine awaits the next packet right behind the bytes that came.
/// The packets tile the image from the end of the header window on.
pub proof fn lemma_body_progress(state: EngineState, reads: Seq<EventView>)
    requires
        well_formed(state),
        state.phase == (Phase::UpdateBody { offset: FIRMWARE_HEADER_SIZE as u32 }),
        all_end_reads(reads),
        offset_after(FIRMWARE_HEADER_SIZE as int, state.total_length as int, reads)
            < state.total_length,
    ensures
        ({
            let now = run(state, reads);
            let offset = offset_after(
                FIRMWARE_HEADER_SIZE as int,
                state.total_length as int,
                reads,
            );
            &&& now == EngineState { phase: Phase::UpdateBody { offset: offset as u32 }, ..state }
            &&& awaited_chunk(now) == Some(
                (offset as u32, chunk_length(offset, state.total_length as int) as u32),
            )
        }),
    decreases reads.len(),
{
    let start = FIRMWARE_HEADER_SIZE as int;
    let total = state.total_length as int;
    if reads.len() > 0 {
        let earlier = reads.drop_last();
        lemma_offset_bounds(start, total, reads, reads.len() - 1);
        assert(reads.take(reads.len() - 1) =~= earlier);
        lemma_offset_bounds(start, total, earlier, 0);
        lemma_body_progress(state, earlier);
        assert(ends_read(reads[reads.len() - 1]));
    }
}

/// The end of an accepted update. When the reads have brought the whole
/// body, the engine writes the acknowledgment; when that write has ended,
/// well or not, it asks for the settle delay; when the delay has passed, it
/// asks for the reset, and nothing moves it from there.
pub proof fn lemma_accepted_update_ends_in_reset(
    state: EngineState,
    reads: Seq<EventView>,
    ack: EventView,
    later: Seq<EventView>,
)
    requires
        well_formed(state),
        state.phase == (Phase::UpdateBody { offset: FIRMWARE_HEADER_SIZE as u32 }),
        all_end_reads(reads),
        reads.len() > 0,
        offset_after(FIRMWARE_HEADER_SIZE as int, state.total_length as int, reads.drop_last())
            < state.total_length,
        offset_after(FIRMWARE_HEADER_SIZE as int, state.total_length as int, reads)
            == state.total_length,
        ends_write(ack),
    ensures
        pending(run(state, reads)) == ActionView::WritePacket(seq![0u8]),
        pending(run(state, reads.push(ack))) == (ActionView::Delay { millis: SETTLE_DELAY_MS }),
        pending(run(state, reads.push(ack).push(EventView::Elapsed))) == ActionView::SystemReset,
        pending(run(state, reads.push(ack).push(EventView::Elapsed) + later))
            == ActionView::SystemReset,
{
    let earlier = reads.drop_last();
    assert forall|i: int| 0 <= i < earlier.len() implies ends_read(#[trigger] earlier[i]) by {
        assert(earlier[i] == reads[i]);
    }
    lemma_body_progress(state, earlier);
    assert(ends_read(reads[reads.len() - 1]));
    let written = run(state, reads);
    assert(written.phase is UpdateFinalAck);
    lemma_run_push(state, reads, ack);
    lemma_run_push(state, reads.push(ack), EventView::Elapsed);
    let end = run(state, reads.push(ack).push(EventView::Elapsed));
    assert(end.phase is Reset);
    lemma_run_concat(state, reads.push(ack).push(EventView::Elapsed), later);
    lemma_reset_is_final(end, later);
}

/// Nothing moves the engine once the reset is due.
pub proof fn lemma_reset_is_final(state: EngineState, events: Seq<EventView>)
    requires
        state.phase is Reset,
    ensures
        run(state, events) == state,
    decreases events.len(),
{
    if events.len() > 0 {
        lemma_reset_is_final(state, events.drop_last());
    }
}

/// The version reply. The prefix spells 96; the payload goes out as the
/// packets of the version string over a channel of 64 bytes: two of them, of
/// 64 and 32 bytes; then the engine waits for the next connection. A failed
/// write of the prefix does not stop the reply, a failed write of a payload
/// packet does.
pub proof fn lemma_version_reply(state: EngineState, prefix_done: EventView)
    requires
        state.phase is VersionPrefix,
        ends_write(prefix_done),
    ensures
        pending(state) == ActionView::WritePacket(seq![96u8, 0u8]),
        packets_of(version_response(), PACKET_SIZE as nat).len() == 2,
        ({
            let packets = packets_of(version_response(), PACKET_SIZE as nat);
            let first = step(state, prefix_done);
            let second = step(first, EventView::Written);
            let done = step(second, EventView::Written);
            &&& packets[0].len() == 64
            &&& packets[1].len() == 32
            &&& pending(first) == ActionView::WritePacket(packets[0])
            &&& pending(second) == ActionView::WritePacket(packets[1])
            &&& pending(done) == ActionView::WaitConnection
            &&& pending(step(first, EventView::WriteFailed)) == ActionView::WaitConnection
            &&& pending(step(second, EventView::WriteFailed)) == ActionView::WaitConnection
        }),
{
    let response = version_response();
    assert(response.len() == VERSION_RESPONSE_SIZE);
    assert(version_prefix() =~= seq![96u8, 0u8]);
    let rest = response.skip(PACKET_SIZE as int);
    assert(packets_of(rest, PACKET_SIZE as nat) =~= seq![rest]);
    assert(packets_of(response, PACKET_SIZE as nat) =~= seq![
        response.take(PACKET_SIZE as int),
        rest,
    ]);
    assert(response.take(PACKET_SIZE as int) =~= response.subrange(0, 64));
    assert(rest =~= response.subrange(64, 96));
}

} // verus!
