//! The command protocol as a state machine.
//!
//! The engine never touches the transport. It is told what the transport did
//! (an [`Event`]) and says what the transport must do next (an [`Action`]).
//! This file holds the model: the phases, the transition function [`step`]
//! and the output function [`pending`]. The executable engine is held to
//! both.

use vstd::prelude::*;
use crate::endian::{high_byte, le16, low_byte};
use crate::firmware::{
    header_marker_present, needs_extension, packed_length, EXPECTED_FIRMWARE_LENGTH,
    FIRMWARE_HEADER_SIZE,
};

verus! {

/// The version query.
pub const CMD_VERSION: u8 = 0x01;

/// The info query.
pub const CMD_GET_INFO: u8 = 0x04;

/// The firmware update.
pub const CMD_UPDATE_FIRMWARE: u8 = 0x06;

/// The size of the buffer that every packet but a length field is read into.
pub const PACKET_SIZE: usize = 64;

/// The size of a length field.
pub const LENGTH_FIELD_SIZE: usize = 2;

/// The length of the version reply.
pub const VERSION_RESPONSE_SIZE: usize = 96;

/// How long the engine waits between the last acknowledgment and the reset,
/// in milliseconds.
pub const SETTLE_DELAY_MS: u64 = 100;

/// What the engine is waiting for.
#[derive(Clone, Copy, Debug, PartialEq, Eq, Structural)]
pub enum Phase {
    /// No host session: waiting for the interface to be enabled.
    Disconnected,
    /// Connected: waiting for a command packet.
    Listening,
    /// Version query: the length prefix of the reply is being written.
    VersionPrefix,
    /// Version query: the payload packet that starts at `sent` is being
    /// written.
    VersionPayload { sent: usize },
    /// Info query: the one-byte reply is being written.
    Info,
    /// Update: the acknowledgment of the command is being written.
    UpdateAck,
    /// Update: waiting for the first length field.
    UpdateLength,
    /// Update: the first length field was `first`; waiting for the second.
    UpdateLengthExtension { first: u16 },
    /// Update: waiting for the header packet that belongs at `offset`.
    UpdateHeader { offset: u32 },
    /// Update: header and length were accepted; waiting for the body packet
    /// that belongs at `offset` of the image.
    UpdateBody { offset: u32 },
    /// Update: the whole image came in; the last acknowledgment is being
    /// written.
    UpdateFinalAck,
    /// Update: waiting for the settle delay to pass.
    UpdateSettle,
    /// Update: the system reset is due. Nothing follows.
    Reset,
}

/// What the transport, the timer or the host did.
#[derive(Clone, Copy, Debug)]
pub enum Event<'a> {
    /// The host enabled the interface.
    Connected,
    /// A read ended with a packet of these bytes.
    Received(&'a [u8]),
    /// A read ended with a transport error; the read buffer is untouched.
    ReadFailed,
    /// A write ended well.
    Written,
    /// A write ended with a transport error.
    WriteFailed,
    /// The delay has passed.
    Elapsed,
}

/// An [`Event`] as a plain value.
pub enum EventView {
    Connected,
    Received(Seq<u8>),
    ReadFailed,
    Written,
    WriteFailed,
    Elapsed,
}

impl<'a> View for Event<'a> {
    type V = EventView;

    open spec fn view(&self) -> EventView {
        match *self {
            Event::Connected => EventView::Connected,
            Event::Received(data) => EventView::Received(data@),
            Event::ReadFailed => EventView::ReadFailed,
            Event::Written => EventView::Written,
            Event::WriteFailed => EventView::WriteFailed,
            Event::Elapsed => EventView::Elapsed,
        }
    }
}

/// The bytes of one packet to write: at most a packet size of them, held in
/// place.
#[derive(Clone, Copy, Debug, PartialEq, Eq)]
pub struct Packet {
    bytes: [u8; PACKET_SIZE],
    len: usize,
}

impl View for Packet {
    type V = Seq<u8>;

    closed spec fn view(&self) -> Seq<u8> {
        self.bytes@.take(self.len as int)
    }
}

impl Packet {
    #[verifier::type_invariant]
    spec fn type_invariant(&self) -> bool {
        &&& self.len <= PACKET_SIZE
        &&& forall|i: int| self.len <= i < PACKET_SIZE ==> self.bytes@[i] == 0
    }

    /// A packet of the bytes of `data`, which fit.
    pub(crate) fn from_fitting(data: &[u8]) -> (packet: Self)
        requires
            data@.len() <= PACKET_SIZE,
        ensures
            packet@ == data@,
    {
        let mut bytes: [u8; PACKET_SIZE] = [0u8; PACKET_SIZE];
        let mut i: usize = 0;
        while i < data.len()
            invariant
                i <= data.len(),
                data.len() <= PACKET_SIZE,
                forall|j: int| 0 <= j < i ==> bytes@[j] == data@[j],
                forall|j: int| i <= j < PACKET_SIZE ==> bytes@[j] == 0,
            decreases data.len() - i,
        {
            bytes[i] = data[i];
            i = i + 1;
        }
        assert(bytes@.take(data.len() as int) =~= data@);
        Packet { bytes, len: data.len() }
    }

    /// A packet of the bytes of `data`; `None` where they are more than a
    /// packet holds.
    pub fn from_slice(data: &[u8]) -> (packet: Option<Self>)
        ensures
            packet is Some <==> data@.len() <= PACKET_SIZE,
            packet matches Some(p) ==> p@ == data@,
    {
        if data.len() <= PACKET_SIZE {
            Some(Packet::from_fitting(data))
        } else {
            None
        }
    }

    /// The bytes of the packet.
    pub fn as_slice(&self) -> (bytes: &[u8])
        ensures
            bytes@ == self@,
    {
        proof {
            use_type_invariant(self);
        }
        let bytes = vstd::slice::slice_subrange(self.bytes.as_slice(), 0, self.len);
        assert(bytes@ =~= self@);
        bytes
    }

    /// The number of bytes in the packet: at most the packet size.
    pub fn len(&self) -> (len: usize)
        ensures
            len == self@.len(),
            len <= PACKET_SIZE,
    {
        proof {
            use_type_invariant(self);
        }
        self.len
    }
}

/// What the engine asks for.
#[derive(Clone, Copy, Debug, PartialEq, Eq)]
pub enum Action {
    /// Wait until the host has enabled the interface.
    WaitConnection,
    /// Read one packet into a zeroed buffer of `capacity` bytes.
    ReadPacket { capacity: usize },
    /// Write these bytes as one packet.
    WritePacket(Packet),
    /// Wait for `millis` milliseconds.
    Delay { millis: u64 },
    /// Reset the system. This does not return.
    SystemReset,
}

/// An [`Action`] as a plain value.
pub enum ActionView {
    WaitConnection,
    ReadPacket { capacity: usize },
    WritePacket(Seq<u8>),
    Delay { millis: u64 },
    SystemReset,
}

impl View for Action {
    type V = ActionView;

    open spec fn view(&self) -> ActionView {
        match *self {
            Action::WaitConnection => ActionView::WaitConnection,
            Action::ReadPacket { capacity } => ActionView::ReadPacket { capacity },
            Action::WritePacket(data) => ActionView::WritePacket(data@),
            Action::Delay { millis } => ActionView::Delay { millis },
            Action::SystemReset => ActionView::SystemReset,
        }
    }
}

/// The engine as a plain value: its phase, the staging buffer and the
/// transfer length that the running update announced.
pub struct EngineState {
    pub phase: Phase,
    pub header: Seq<u8>,
    pub total_length: u32,
}

/// The version reply: product and build date, a terminator, the copyright
/// line, and zeros up to 96 bytes.
pub open spec fn version_response() -> Seq<u8> {
    seq![
        0x4Au8, 0x2Du8, 0x4Cu8, 0x69u8, 0x6Eu8, 0x6Bu8, 0x20u8, 0x56u8,
        0x39u8, 0x20u8, 0x63u8, 0x6Fu8, 0x6Du8, 0x70u8, 0x69u8, 0x6Cu8,
        0x65u8, 0x64u8, 0x20u8, 0x4Fu8, 0x63u8, 0x74u8, 0x20u8, 0x31u8,
        0x32u8, 0x20u8, 0x32u8, 0x30u8, 0x31u8, 0x32u8, 0x20u8, 0x42u8,
        0x54u8, 0x4Cu8, 0x20u8, 0x20u8, 0x20u8, 0x20u8, 0x20u8, 0x00u8,
        0x43u8, 0x6Fu8, 0x70u8, 0x79u8, 0x72u8, 0x69u8, 0x67u8, 0x68u8,
        0x74u8, 0x20u8, 0x32u8, 0x30u8, 0x30u8, 0x33u8, 0x2Du8, 0x32u8,
        0x30u8, 0x31u8, 0x32u8, 0x20u8, 0x53u8, 0x45u8, 0x47u8, 0x47u8,
        0x45u8, 0x52u8, 0x3Au8, 0x20u8, 0x77u8, 0x77u8, 0x77u8, 0x2Eu8,
        0x73u8, 0x65u8, 0x67u8, 0x67u8, 0x65u8, 0x72u8, 0x2Eu8, 0x63u8,
        0x6Fu8, 0x6Du8, 0x00u8, 0x00u8, 0x00u8, 0x00u8, 0x00u8, 0x00u8,
        0x00u8, 0x00u8, 0x00u8, 0x00u8, 0x00u8, 0x00u8, 0x00u8, 0x00u8,
    ]
}

/// The packet that goes before the version reply: the length of the reply as
/// a two-byte number, low byte first.
pub open spec fn version_prefix() -> Seq<u8> {
    seq![low_byte(VERSION_RESPONSE_SIZE as u16), high_byte(VERSION_RESPONSE_SIZE as u16)]
}

/// The phases in which the engine has accepted an image and is on its way to
/// the reset.
pub open spec fn committed(phase: Phase) -> bool {
    phase is UpdateBody || phase is UpdateFinalAck || phase is UpdateSettle || phase is Reset
}

/// What holds of the engine in every state it can reach: the staging buffer
/// has the size of the header window, the offsets lie inside what they count,
/// and the engine is committed only to an image whose staged header carries
/// the marker and whose announced length is the expected one.
pub open spec fn well_formed(state: EngineState) -> bool {
    &&& state.header.len() == FIRMWARE_HEADER_SIZE
    &&& state.phase matches Phase::VersionPayload { sent } ==> sent < VERSION_RESPONSE_SIZE
    &&& state.phase matches Phase::UpdateHeader { offset } ==> offset < FIRMWARE_HEADER_SIZE
    &&& state.phase matches Phase::UpdateBody { offset } ==> FIRMWARE_HEADER_SIZE <= offset
        < state.total_length
    &&& committed(state.phase) ==> header_marker_present(state.header) && state.total_length
        == EXPECTED_FIRMWARE_LENGTH
}

/// The engine at power-on: no session, an empty staging buffer.
pub open spec fn initial_state() -> EngineState {
    EngineState {
        phase: Phase::Disconnected,
        header: Seq::new(FIRMWARE_HEADER_SIZE as nat, |i: int| 0u8),
        total_length: 0,
    }
}

/// The event ends a read.
pub open spec fn ends_read(event: EventView) -> bool {
    event is Received || event is ReadFailed
}

/// The event ends a write.
pub open spec fn ends_write(event: EventView) -> bool {
    event is Written || event is WriteFailed
}

/// How many bytes the read that `event` ended brought into a buffer of
/// `capacity` bytes: the length of the packet that came, where it fits. An
/// error is not told from success: a failed read counts as a full buffer of
/// zeros, and so does a packet that does not fit, for the transport reports
/// it as an error.
pub open spec fn received_length(event: EventView, capacity: nat) -> nat {
    match event {
        EventView::Received(data) => if data.len() <= capacity {
            data.len()
        } else {
            capacity
        },
        _ => capacity,
    }
}

/// The read buffer of `capacity` bytes after the read that `event` ended. It
/// was zero before. A packet that fits lies at its start; after an error, or
/// a packet that does not fit, it is still zero.
pub open spec fn read_buffer(event: EventView, capacity: nat) -> Seq<u8> {
    Seq::new(
        capacity,
        |i: int|
            match event {
                EventView::Received(data) => if data.len() <= capacity && i < data.len() {
                    data[i]
                } else {
                    0u8
                },
                _ => 0u8,
            },
    )
}

/// The length field that a read ended by `event` delivered.
pub open spec fn length_field(event: EventView) -> u16 {
    let buffer = read_buffer(event, LENGTH_FIELD_SIZE as nat);
    le16(buffer[0], buffer[1])
}

/// How many bytes the packet that belongs at `offset` may bring to something
/// of `total` bytes: a full packet, or what is still missing.
pub open spec fn chunk_length(offset: int, total: int) -> int {
    if total - offset < PACKET_SIZE {
        total - offset
    } else {
        PACKET_SIZE as int
    }
}

/// The phase that a command packet leads to. Only a packet of exactly one
/// byte is a command, and only three commands are served; everything else is
/// dropped without a reply.
pub open spec fn command_phase(packet: Seq<u8>) -> Phase {
    if packet.len() != 1 {
        Phase::Disconnected
    } else if packet[0] == CMD_VERSION {
        Phase::VersionPrefix
    } else if packet[0] == CMD_GET_INFO {
        Phase::Info
    } else if packet[0] == CMD_UPDATE_FIRMWARE {
        Phase::UpdateAck
    } else {
        Phase::Disconnected
    }
}

/// The state in which the header window of an update of `total_length` bytes
/// is awaited: the staging buffer is cleared.
pub open spec fn header_awaited(state: EngineState, total_length: u32) -> EngineState {
    EngineState {
        phase: Phase::UpdateHeader { offset: 0 },
        header: Seq::new(FIRMWARE_HEADER_SIZE as nat, |i: int| 0u8),
        total_length,
    }
}

/// The staging buffer after the first `count` bytes of the read buffer
/// `chunk` were copied to `offset`.
pub open spec fn staged(header: Seq<u8>, offset: int, chunk: Seq<u8>, count: int) -> Seq<u8> {
    Seq::new(
        header.len(),
        |i: int|
            if offset <= i < offset + count {
                chunk[i - offset]
            } else {
                header[i]
            },
    )
}

/// The phase after the header window is complete: the update goes on only
/// where the header carries the marker and the announced length is the
/// expected one. Otherwise it is dropped without a word to the host.
pub open spec fn header_verdict(header: Seq<u8>, total_length: u32) -> Phase {
    if !header_marker_present(header) {
        Phase::Disconnected
    } else if total_length != EXPECTED_FIRMWARE_LENGTH {
        Phase::Disconnected
    } else {
        Phase::UpdateBody { offset: FIRMWARE_HEADER_SIZE as u32 }
    }
}

/// The state after the read for the header packet at `offset` ended. The
/// bytes that came are staged at `offset` and the offset moves on by their
/// number, so the window fills up whatever the packet sizes are. The header
/// is judged when the window is full.
pub open spec fn header_received(state: EngineState, offset: u32, event: EventView) -> EngineState {
    let capacity = chunk_length(offset as int, FIRMWARE_HEADER_SIZE as int) as nat;
    let count = received_length(event, capacity);
    let header = staged(state.header, offset as int, read_buffer(event, capacity), count as int);
    let next = offset + count;
    EngineState {
        phase: if next < FIRMWARE_HEADER_SIZE {
            Phase::UpdateHeader { offset: next as u32 }
        } else {
            header_verdict(header, state.total_length)
        },
        header,
        total_length: state.total_length,
    }
}

/// The phase after the read for the body packet at `offset` ended. The
/// offset moves on by the number of bytes that came.
pub open spec fn body_received(offset: u32, total_length: u32, event: EventView) -> Phase {
    let capacity = chunk_length(offset as int, total_length as int) as nat;
    let next = offset + received_length(event, capacity);
    if next < total_length {
        Phase::UpdateBody { offset: next as u32 }
    } else {
        Phase::UpdateFinalAck
    }
}

/// The phase after a payload packet of the version reply was written, or was
/// not: an error ends the reply.
pub open spec fn version_written(sent: usize, event: EventView) -> Phase {
    let next = sent + chunk_length(sent as int, VERSION_RESPONSE_SIZE as int);
    if event is Written && next < VERSION_RESPONSE_SIZE {
        Phase::VersionPayload { sent: next as usize }
    } else {
        Phase::Disconnected
    }
}

/// The transition function. An event that does not end what the engine waits
/// for changes nothing.
pub open spec fn step(state: EngineState, event: EventView) -> EngineState {
    match state.phase {
        Phase::Disconnected => if event is Connected {
            EngineState { phase: Phase::Listening, ..state }
        } else {
            state
        },
        Phase::Listening => match event {
            EventView::Received(packet) => EngineState { phase: command_phase(packet), ..state },
            EventView::ReadFailed => EngineState { phase: Phase::Disconnected, ..state },
            _ => state,
        },
        Phase::VersionPrefix => if ends_write(event) {
            EngineState { phase: Phase::VersionPayload { sent: 0 }, ..state }
        } else {
            state
        },
        Phase::VersionPayload { sent } => if ends_write(event) {
            EngineState { phase: version_written(sent, event), ..state }
        } else {
            state
        },
        Phase::Info => if ends_write(event) {
            EngineState { phase: Phase::Disconnected, ..state }
        } else {
            state
        },
        Phase::UpdateAck => if ends_write(event) {
            EngineState { phase: Phase::UpdateLength, ..state }
        } else {
            state
        },
        Phase::UpdateLength => if ends_read(event) {
            if needs_extension(length_field(event)) {
                EngineState {
                    phase: Phase::UpdateLengthExtension { first: length_field(event) },
                    ..state
                }
            } else {
                header_awaited(state, length_field(event) as u32)
            }
        } else {
            state
        },
        Phase::UpdateLengthExtension { first } => if ends_read(event) {
            header_awaited(state, packed_length(first, length_field(event)))
        } else {
            state
        },
        Phase::UpdateHeader { offset } => if ends_read(event) {
            header_received(state, offset, event)
        } else {
            state
        },
        Phase::UpdateBody { offset } => if ends_read(event) {
            EngineState { phase: body_received(offset, state.total_length, event), ..state }
        } else {
            state
        },
        Phase::UpdateFinalAck => if ends_write(event) {
            EngineState { phase: Phase::UpdateSettle, ..state }
        } else {
            state
        },
        Phase::UpdateSettle => if event is Elapsed {
            EngineState { phase: Phase::Reset, ..state }
        } else {
            state
        },
        Phase::Reset => state,
    }
}

/// The output function: what the engine in this state asks for.
pub open spec fn pending(state: EngineState) -> ActionView {
    match state.phase {
        Phase::Disconnected => ActionView::WaitConnection,
        Phase::Listening => ActionView::ReadPacket { capacity: PACKET_SIZE },
        Phase::VersionPrefix => ActionView::WritePacket(version_prefix()),
        Phase::VersionPayload { sent } => ActionView::WritePacket(
            version_response().subrange(
                sent as int,
                sent + chunk_length(sent as int, VERSION_RESPONSE_SIZE as int),
            ),
        ),
        Phase::Info => ActionView::WritePacket(seq![0u8]),
        Phase::UpdateAck => ActionView::WritePacket(seq![0u8]),
        Phase::UpdateLength => ActionView::ReadPacket { capacity: LENGTH_FIELD_SIZE },
        Phase::UpdateLengthExtension { .. } => ActionView::ReadPacket {
            capacity: LENGTH_FIELD_SIZE,
        },
        Phase::UpdateHeader { offset } => ActionView::ReadPacket {
            capacity: chunk_length(offset as int, FIRMWARE_HEADER_SIZE as int) as usize,
        },
        Phase::UpdateBody { offset } => ActionView::ReadPacket {
            capacity: chunk_length(offset as int, state.total_length as int) as usize,
        },
        Phase::UpdateFinalAck => ActionView::WritePacket(seq![0u8]),
        Phase::UpdateSettle => ActionView::Delay { millis: SETTLE_DELAY_MS },
        Phase::Reset => ActionView::SystemReset,
    }
}

/// Where in the image the bytes of the awaited packet belong, and how many
/// of them there can be at most: the place of the next unit that goes to
/// storage. `None` where no image packet is awaited.
pub open spec fn awaited_chunk(state: EngineState) -> Option<(u32, u32)> {
    match state.phase {
        Phase::UpdateHeader { offset } => Some(
            (offset, chunk_length(offset as int, FIRMWARE_HEADER_SIZE as int) as u32),
        ),
        Phase::UpdateBody { offset } => Some(
            (offset, chunk_length(offset as int, state.total_length as int) as u32),
        ),
        _ => None,
    }
}

/// Every transition keeps the engine well formed.
pub proof fn lemma_step_keeps_well_formed(state: EngineState, event: EventView)
    requires
        well_formed(state),
    ensures
        well_formed(step(state, event)),
{
}

} // verus!
