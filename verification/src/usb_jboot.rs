//! The command engine: the state machine of the protocol, in executable form.
//!
//! The caller runs the loop. It asks the engine for its [`Action`], performs
//! it on the transport, and hands the outcome back as an [`Event`]:
//! [`JBootInner::handle`] takes the event and answers with the next action.

use vstd::prelude::*;
use crate::endian::{u16_from_le, u16_to_le};
use crate::firmware::{
    extended_transfer_length, header_has_marker, needs_length_extension,
    EXPECTED_FIRMWARE_LENGTH, FIRMWARE_HEADER_SIZE,
};
use crate::protocol::{
    awaited_chunk, body_received, chunk_length, command_phase, committed, header_awaited,
    header_received, initial_state, length_field, pending, read_buffer, received_length, staged,
    step,
    version_prefix, version_response, version_written, well_formed, Action, EngineState, Event,
    Packet, Phase, CMD_GET_INFO, CMD_UPDATE_FIRMWARE, CMD_VERSION, LENGTH_FIELD_SIZE, PACKET_SIZE,
    SETTLE_DELAY_MS, VERSION_RESPONSE_SIZE,
};

verus! {

/// The engine. It owns the staging buffer, which is made once and used again
/// by every update.
pub struct JBootInner {
    phase: Phase,
    big_buf: [u8; FIRMWARE_HEADER_SIZE],
    total_firmware_len: u32,
}

impl View for JBootInner {
    type V = EngineState;

    closed spec fn view(&self) -> EngineState {
        EngineState {
            phase: self.phase,
            header: self.big_buf@,
            total_length: self.total_firmware_len,
        }
    }
}

/// The version reply.
fn version_response_bytes() -> (bytes: [u8; 96])
    ensures
        bytes@ == version_response(),
{
    let bytes: [u8; 96] = [
        0x4A, 0x2D, 0x4C, 0x69, 0x6E, 0x6B, 0x20, 0x56, 0x39, 0x20, 0x63, 0x6F, 0x6D, 0x70, 0x69, 0x6C,
        0x65, 0x64, 0x20, 0x4F, 0x63, 0x74, 0x20, 0x31, 0x32, 0x20, 0x32, 0x30, 0x31, 0x32, 0x20, 0x42,
        0x54, 0x4C, 0x20, 0x20, 0x20, 0x20, 0x20, 0x00, 0x43, 0x6F, 0x70, 0x79, 0x72, 0x69, 0x67, 0x68,
        0x74, 0x20, 0x32, 0x30, 0x30, 0x33, 0x2D, 0x32, 0x30, 0x31, 0x32, 0x20, 0x53, 0x45, 0x47, 0x47,
        0x45, 0x52, 0x3A, 0x20, 0x77, 0x77, 0x77, 0x2E, 0x73, 0x65, 0x67, 0x67, 0x65, 0x72, 0x2E, 0x63,
        0x6F, 0x6D, 0x00, 0x00, 0x00, 0x00, 0x00, 0x00, 0x00, 0x00, 0x00, 0x00, 0x00, 0x00, 0x00, 0x00,
    ];
    assert(bytes@ =~= version_response());
    bytes
}

/// How many bytes the packet at `offset` contributes to `total` bytes.
fn chunk_len(offset: u32, total: u32) -> (length: u32)
    requires
        offset < total,
    ensures
        length == chunk_length(offset as int, total as int),
        1 <= length <= PACKET_SIZE,
        offset + length <= total,
{
    if total - offset < PACKET_SIZE as u32 {
        total - offset
    } else {
        PACKET_SIZE as u32
    }
}

/// Byte `index` of the read buffer of `capacity` bytes after the read that
/// `event` ended.
fn read_byte(event: Event<'_>, capacity: usize, index: usize) -> (byte: u8)
    requires
        index < capacity,
    ensures
        byte == read_buffer(event@, capacity as nat)[index as int],
{
    match event {
        Event::Received(data) => {
            if data.len() <= capacity && index < data.len() {
                data[index]
            } else {
                0
            }
        },
        _ => 0,
    }
}

/// How many bytes the read that `event` ended brought into a buffer of
/// `capacity` bytes.
fn received_count(event: Event<'_>, capacity: usize) -> (count: usize)
    ensures
        count == received_length(event@, capacity as nat),
        count <= capacity,
{
    match event {
        Event::Received(data) => {
            if data.len() <= capacity {
                data.len()
            } else {
                capacity
            }
        },
        _ => capacity,
    }
}

/// The length field that the read ended by `event` delivered.
fn read_length_field(event: Event<'_>) -> (field: u16)
    ensures
        field == length_field(event@),
{
    u16_from_le(read_byte(event, LENGTH_FIELD_SIZE, 0), read_byte(event, LENGTH_FIELD_SIZE, 1))
}

/// Whether the event ends a read.
fn ends_read(event: Event<'_>) -> (ends: bool)
    ensures
        ends == crate::protocol::ends_read(event@),
{
    match event {
        Event::Received(_) => true,
        Event::ReadFailed => true,
        _ => false,
    }
}

/// Whether the event ends a write.
fn ends_write(event: Event<'_>) -> (ends: bool)
    ensures
        ends == crate::protocol::ends_write(event@),
{
    match event {
        Event::Written => true,
        Event::WriteFailed => true,
        _ => false,
    }
}

/// A packet of one zero byte: the acknowledgment.
fn acknowledgment() -> (packet: Packet)
    ensures
        packet@ == seq![0u8],
{
    let bytes: [u8; 1] = [0];
    assert(bytes@ =~= seq![0u8]);
    Packet::from_fitting(bytes.as_slice())
}

impl JBootInner {
    #[verifier::type_invariant]
    spec fn type_invariant(&self) -> bool {
        well_formed(self@)
    }

    /// The engine at power-on.
    pub fn new() -> (engine: Self)
        ensures
            engine@ == initial_state(),
            well_formed(engine@),
    {
        let big_buf: [u8; FIRMWARE_HEADER_SIZE] = [0u8; FIRMWARE_HEADER_SIZE];
        assert(big_buf@ =~= initial_state().header);
        JBootInner { phase: Phase::Disconnected, big_buf, total_firmware_len: 0 }
    }

    /// What the engine is waiting for.
    pub fn phase(&self) -> (phase: Phase)
        ensures
            phase == self@.phase,
    {
        self.phase
    }

    /// The transfer length that the running update announced; what the last
    /// one announced, where none is running.
    pub fn total_firmware_len(&self) -> (length: u32)
        ensures
            length == self@.total_length,
    {
        self.total_firmware_len
    }

    /// The staging buffer.
    pub fn staged_header(&self) -> (header: &[u8])
        ensures
            header@ == self@.header,
    {
        self.big_buf.as_slice()
    }

    /// Where in the image the bytes of the awaited packet belong, and how
    /// many of them there can be at most.
    pub fn awaited_chunk(&self) -> (chunk: Option<(u32, u32)>)
        ensures
            chunk == awaited_chunk(self@),
    {
        proof {
            use_type_invariant(self);
        }
        match self.phase {
            Phase::UpdateHeader { offset } => Some(
                (offset, chunk_len(offset, FIRMWARE_HEADER_SIZE as u32)),
            ),
            Phase::UpdateBody { offset } => Some(
                (offset, chunk_len(offset, self.total_firmware_len)),
            ),
            _ => None,
        }
    }

    /// What the engine asks for.
    pub fn action(&self) -> (action: Action)
        ensures
            action@ == pending(self@),
            well_formed(self@),
    {
        proof {
            use_type_invariant(self);
        }
        match self.phase {
            Phase::Disconnected => Action::WaitConnection,
            Phase::Listening => Action::ReadPacket { capacity: PACKET_SIZE },
            Phase::VersionPrefix => {
                let (low, high) = u16_to_le(VERSION_RESPONSE_SIZE as u16);
                let prefix: [u8; 2] = [low, high];
                assert(prefix@ =~= version_prefix());
                Action::WritePacket(Packet::from_fitting(prefix.as_slice()))
            },
            Phase::VersionPayload { sent } => {
                let response = version_response_bytes();
                let length = chunk_len(sent as u32, VERSION_RESPONSE_SIZE as u32) as usize;
                let packet = vstd::slice::slice_subrange(
                    response.as_slice(),
                    sent,
                    sent + length,
                );
                Action::WritePacket(Packet::from_fitting(packet))
            },
            Phase::Info => Action::WritePacket(acknowledgment()),
            Phase::UpdateAck => Action::WritePacket(acknowledgment()),
            Phase::UpdateLength => Action::ReadPacket { capacity: LENGTH_FIELD_SIZE },
            Phase::UpdateLengthExtension { .. } => Action::ReadPacket {
                capacity: LENGTH_FIELD_SIZE,
            },
            Phase::UpdateHeader { offset } => Action::ReadPacket {
                capacity: chunk_len(offset, FIRMWARE_HEADER_SIZE as u32) as usize,
            },
            Phase::UpdateBody { offset } => Action::ReadPacket {
                capacity: chunk_len(offset, self.total_firmware_len) as usize,
            },
            Phase::UpdateFinalAck => Action::WritePacket(acknowledgment()),
            Phase::UpdateSettle => Action::Delay { millis: SETTLE_DELAY_MS },
            Phase::Reset => Action::SystemReset,
        }
    }

    /// Takes what the transport did and answers with what it must do next.
    pub fn handle(&mut self, event: Event<'_>) -> (action: Action)
        ensures
            final(self)@ == step(old(self)@, event@),
            well_formed(final(self)@),
            action@ == pending(final(self)@),
    {
        proof {
            use_type_invariant(&*self);
        }
        match self.phase {
            Phase::Disconnected => {
                self.wait_and_handle(event);
            },
            Phase::Listening => {
                self.wait_and_handle(event);
            },
            Phase::VersionPrefix => {
                if ends_write(event) {
                    self.phase = Phase::VersionPayload { sent: 0 };
                }
            },
            Phase::VersionPayload { sent } => {
                if ends_write(event) {
                    self.version_packet_done(sent, event);
                }
            },
            Phase::Info => {
                if ends_write(event) {
                    self.phase = Phase::Disconnected;
                }
            },
            Phase::UpdateAck => {
                if ends_write(event) {
                    self.phase = Phase::UpdateLength;
                }
            },
            Phase::UpdateLength => {
                if ends_read(event) {
                    let first = read_length_field(event);
                    if needs_length_extension(first) {
                        self.phase = Phase::UpdateLengthExtension { first };
                    } else {
                        self.await_header(first as u32);
                    }
                }
            },
            Phase::UpdateLengthExtension { first } => {
                if ends_read(event) {
                    let second = read_length_field(event);
                    self.await_header(extended_transfer_length(first, second));
                }
            },
            Phase::UpdateHeader { offset } => {
                if ends_read(event) {
                    self.stage_header_packet(offset, event);
                }
            },
            Phase::UpdateBody { offset } => {
                if ends_read(event) {
                    self.count_body_packet(offset, event);
                }
            },
            Phase::UpdateFinalAck => {
                if ends_write(event) {
                    self.phase = Phase::UpdateSettle;
                }
            },
            Phase::UpdateSettle => {
                if let Event::Elapsed = event {
                    self.phase = Phase::Reset;
                }
            },
            Phase::Reset => {},
        }
        self.action()
    }

    /// Outside any exchange: takes the end of the wait for a connection,
    /// then the end of the read for a command packet, and sorts the packet
    /// that came. A failed read leads back to waiting. Inside an exchange
    /// this changes nothing.
    pub fn wait_and_handle(&mut self, event: Event<'_>)
        ensures
            final(self)@ == (if old(self)@.phase is Disconnected || old(self)@.phase is Listening {
                step(old(self)@, event@)
            } else {
                old(self)@
            }),
            well_formed(final(self)@),
    {
        proof {
            use_type_invariant(&*self);
        }
        match self.phase {
            Phase::Disconnected => {
                if let Event::Connected = event {
                    self.phase = Phase::Listening;
                }
            },
            Phase::Listening => {
                match event {
                    Event::Received(data) => {
                        self.process_data(data);
                    },
                    Event::ReadFailed => {
                        self.phase = Phase::Disconnected;
                    },
                    _ => {},
                }
            },
            _ => {},
        }
    }

    /// Sorts a packet that came in while the engine was listening: a command
    /// that is served starts its exchange, anything else is dropped without
    /// a reply. An engine that is not listening takes no packet this way.
    pub fn process_data(&mut self, data: &[u8])
        ensures
            final(self)@ == (if old(self)@.phase is Listening {
                EngineState { phase: command_phase(data@), ..old(self)@ }
            } else {
                old(self)@
            }),
            old(self)@.phase is Listening ==> final(self)@ == step(
                old(self)@,
                crate::protocol::EventView::Received(data@),
            ),
            well_formed(final(self)@),
    {
        proof {
            use_type_invariant(&*self);
        }
        match self.phase {
            Phase::Listening => {
                let count = data.len();
                if count == 1 {
                    let command = data[0];
                    if command == CMD_VERSION {
                        self.cmd_01_version();
                    } else if command == CMD_GET_INFO {
                        self.cmd_04_get_info();
                    } else if command == CMD_UPDATE_FIRMWARE {
                        self.cmd_06_update_firmware();
                    } else {
                        self.phase = Phase::Disconnected;
                    }
                } else {
                    self.phase = Phase::Disconnected;
                }
            },
            _ => {},
        }
    }

    /// Starts the version reply of a listening engine: the length prefix
    /// goes out first, then the payload, packet by packet.
    pub fn cmd_01_version(&mut self)
        ensures
            final(self)@ == (if old(self)@.phase is Listening {
                EngineState { phase: Phase::VersionPrefix, ..old(self)@ }
            } else {
                old(self)@
            }),
            well_formed(final(self)@),
    {
        proof {
            use_type_invariant(&*self);
        }
        match self.phase {
            Phase::Listening => {
                self.phase = Phase::VersionPrefix;
            },
            _ => {},
        }
    }

    /// Starts the info reply of a listening engine: one zero byte.
    pub fn cmd_04_get_info(&mut self)
        ensures
            final(self)@ == (if old(self)@.phase is Listening {
                EngineState { phase: Phase::Info, ..old(self)@ }
            } else {
                old(self)@
            }),
            well_formed(final(self)@),
    {
        proof {
            use_type_invariant(&*self);
        }
        match self.phase {
            Phase::Listening => {
                self.phase = Phase::Info;
            },
            _ => {},
        }
    }

    /// Starts the update of a listening engine. The command is acknowledged
    /// first; then the length is read, the header window is staged and
    /// judged, the body is counted, the last acknowledgment is written and,
    /// after the settle delay, the reset is asked for: each of these steps
    /// is taken by [`JBootInner::handle`] when the step before it has ended.
    pub fn cmd_06_update_firmware(&mut self)
        ensures
            final(self)@ == (if old(self)@.phase is Listening {
                EngineState { phase: Phase::UpdateAck, ..old(self)@ }
            } else {
                old(self)@
            }),
            well_formed(final(self)@),
    {
        proof {
            use_type_invariant(&*self);
        }
        match self.phase {
            Phase::Listening => {
                self.phase = Phase::UpdateAck;
            },
            _ => {},
        }
    }

    /// Goes on with the version reply after a payload packet.
    fn version_packet_done(&mut self, sent: usize, event: Event<'_>)
        requires
            sent < VERSION_RESPONSE_SIZE,
        ensures
            final(self)@ == (EngineState { phase: version_written(sent, event@), ..old(self)@ }),
    {
        proof {
            use_type_invariant(&*self);
        }
        let next = sent + chunk_len(sent as u32, VERSION_RESPONSE_SIZE as u32) as usize;
        let written = match event {
            Event::Written => true,
            _ => false,
        };
        if written && next < VERSION_RESPONSE_SIZE {
            self.phase = Phase::VersionPayload { sent: next };
        } else {
            self.phase = Phase::Disconnected;
        }
    }

    /// Clears the staging buffer and waits for the header window.
    fn await_header(&mut self, total_length: u32)
        requires
            !committed(old(self)@.phase),
        ensures
            final(self)@ == header_awaited(old(self)@, total_length),
    {
        proof {
            use_type_invariant(&*self);
        }
        let mut i: usize = 0;
        while i < FIRMWARE_HEADER_SIZE
            invariant
                i <= FIRMWARE_HEADER_SIZE,
                well_formed(self@),
                self.phase == old(self).phase,
                !committed(self.phase),
                self.big_buf@.len() == FIRMWARE_HEADER_SIZE,
                forall|j: int| 0 <= j < i ==> self.big_buf@[j] == 0,
            decreases FIRMWARE_HEADER_SIZE - i,
        {
            self.big_buf[i] = 0;
            i = i + 1;
        }
        self.total_firmware_len = total_length;
        self.phase = Phase::UpdateHeader { offset: 0 };
        assert(self.big_buf@ =~= header_awaited(old(self)@, total_length).header);
    }

    /// Copies the bytes that a header read brought to their place in the
    /// staging buffer. Once the window is full, the header and the announced
    /// length are judged.
    fn stage_header_packet(&mut self, offset: u32, event: Event<'_>)
        requires
            old(self)@.phase == (Phase::UpdateHeader { offset }),
        ensures
            final(self)@ == header_received(old(self)@, offset, event@),
    {
        proof {
            use_type_invariant(&*self);
        }
        let capacity = chunk_len(offset, FIRMWARE_HEADER_SIZE as u32) as usize;
        let count = received_count(event, capacity);
        let start = offset as usize;
        let ghost chunk = read_buffer(event@, capacity as nat);
        let ghost before = self.big_buf@;
        let mut i: usize = 0;
        while i < count
            invariant
                i <= count,
                count <= capacity,
                start + capacity <= FIRMWARE_HEADER_SIZE,
                chunk == read_buffer(event@, capacity as nat),
                before.len() == FIRMWARE_HEADER_SIZE,
                well_formed(self@),
                self.phase == old(self).phase,
                self.phase == (Phase::UpdateHeader { offset }),
                self.total_firmware_len == old(self).total_firmware_len,
                self.big_buf@.len() == FIRMWARE_HEADER_SIZE,
                forall|j: int|
                    0 <= j < FIRMWARE_HEADER_SIZE ==> self.big_buf@[j] == if start <= j < start + i {
                        chunk[j - start]
                    } else {
                        before[j]
                    },
            decreases count - i,
        {
            let byte = read_byte(event, capacity, i);
            self.big_buf[start + i] = byte;
            i = i + 1;
        }
        assert(self.big_buf@ =~= staged(before, offset as int, chunk, count as int));
        let next = start + count;
        if next < FIRMWARE_HEADER_SIZE {
            self.phase = Phase::UpdateHeader { offset: next as u32 };
        } else if !header_has_marker(self.big_buf.as_slice()) {
            self.phase = Phase::Disconnected;
        } else if self.total_firmware_len != EXPECTED_FIRMWARE_LENGTH {
            self.phase = Phase::Disconnected;
        } else {
            self.phase = Phase::UpdateBody { offset: FIRMWARE_HEADER_SIZE as u32 };
        }
    }

    /// Counts the bytes that a body read brought. The bytes themselves are
    /// not kept.
    fn count_body_packet(&mut self, offset: u32, event: Event<'_>)
        requires
            old(self)@.phase == (Phase::UpdateBody { offset }),
        ensures
            final(self)@ == (EngineState {
                phase: body_received(offset, old(self)@.total_length, event@),
                ..old(self)@
            }),
    {
        proof {
            use_type_invariant(&*self);
        }
        let capacity = chunk_len(offset, self.total_firmware_len) as usize;
        let next = offset + received_count(event, capacity) as u32;
        if next < self.total_firmware_len {
            self.phase = Phase::UpdateBody { offset: next };
        } else {
            self.phase = Phase::UpdateFinalAck;
        }
    }
}

} // verus!
