use jboot::protocol::{Action, Event, Packet, Phase};
use jboot::usb_jboot::JBootInner;

/// The action that writes these bytes as one packet.
fn write(bytes: &[u8]) -> Action {
    Action::WritePacket(Packet::from_slice(bytes).unwrap())
}

/// The bytes that announce `length`.
fn encoded(length: u32) -> Vec<u8> {
    let (bytes, count) = jboot::firmware::encode_transfer_length(length).unwrap();
    bytes[..count].to_vec()
}

fn listening() -> JBootInner {
    let mut engine = JBootInner::new();
    assert_eq!(engine.action(), Action::WaitConnection);
    assert_eq!(engine.handle(Event::Connected), Action::ReadPacket { capacity: 64 });
    engine
}

#[test]
fn version_command_is_answered_with_prefix_and_two_chunks() {
    let mut engine = listening();
    let prefix = engine.handle(Event::Received(&[0x01]));
    assert_eq!(prefix, write(&[0x60, 0x00]));
    let first = engine.handle(Event::Written);
    let second = engine.handle(Event::Written);
    let after = engine.handle(Event::Written);
    let mut payload: Vec<u8> = Vec::new();
    match (first, second) {
        (Action::WritePacket(a), Action::WritePacket(b)) => {
            assert_eq!(a.len(), 64);
            assert_eq!(b.len(), 32);
            payload.extend_from_slice(a.as_slice());
            payload.extend_from_slice(b.as_slice());
        }
        other => panic!("expected two payload packets, got {:?}", other),
    }
    let mut expected: Vec<u8> =
        b"J-Link V9 compiled Oct 12 2012 BTL     \0Copyright 2003-2012 SEGGER: www.segger.com"
            .to_vec();
    expected.resize(96, 0);
    assert_eq!(payload, expected);
    assert_eq!(after, Action::WaitConnection);
    assert_eq!(engine.phase(), Phase::Disconnected);
}

#[test]
fn info_command_is_answered_with_one_zero_byte() {
    let mut engine = listening();
    assert_eq!(engine.handle(Event::Received(&[0x04])), write(&[0x00]));
    assert_eq!(engine.handle(Event::Written), Action::WaitConnection);
}

#[test]
fn two_byte_packet_gets_no_reply() {
    let mut engine = listening();
    assert_eq!(engine.handle(Event::Received(&[0x02, 0x03])), Action::WaitConnection);
    assert_eq!(engine.phase(), Phase::Disconnected);
    assert_eq!(engine.handle(Event::Connected), Action::ReadPacket { capacity: 64 });
}

/// A header window with the marker at the scanned offset, as twenty packets.
fn header_packets(marker_at: Option<usize>) -> Vec<Vec<u8>> {
    let mut header = vec![0x11u8; 0x500];
    if let Some(offset) = marker_at {
        header[offset..offset + 9].copy_from_slice(b"J-Link V9");
    }
    header.chunks(64).map(|chunk| chunk.to_vec()).collect()
}

/// Drives the engine from listening through the command and the length.
fn announce(engine: &mut JBootInner, length_bytes: &[u8]) -> Action {
    assert_eq!(engine.handle(Event::Received(&[0x06])), write(&[0x00]));
    assert_eq!(engine.handle(Event::Written), Action::ReadPacket { capacity: 2 });
    let mut action = engine.handle(Event::Received(&length_bytes[..2]));
    if length_bytes.len() == 4 {
        assert_eq!(action, Action::ReadPacket { capacity: 2 });
        assert_eq!(engine.phase(), Phase::UpdateLengthExtension {
            first: u16::from_le_bytes([length_bytes[0], length_bytes[1]]),
        });
        action = engine.handle(Event::Received(&length_bytes[2..]));
    }
    action
}

#[test]
fn unknown_command_gets_no_reply() {
    for command in [0x00u8, 0x02, 0x03, 0x05, 0x07, 0xE6, 0xED, 0xF0, 0xFE, 0xFF] {
        let mut engine = listening();
        assert_eq!(engine.handle(Event::Received(&[command])), Action::WaitConnection);
        assert_eq!(engine.phase(), Phase::Disconnected);
    }
}

#[test]
fn empty_and_long_packets_get_no_reply() {
    let mut engine = listening();
    assert_eq!(engine.handle(Event::Received(&[])), Action::WaitConnection);
    let mut engine = listening();
    assert_eq!(engine.handle(Event::Received(&[0x01; 64])), Action::WaitConnection);
    let mut engine = listening();
    assert_eq!(engine.handle(Event::Received(&[0x01, 0x01])), Action::WaitConnection);
}

#[test]
fn read_error_while_listening_leads_back_to_waiting() {
    let mut engine = listening();
    assert_eq!(engine.handle(Event::ReadFailed), Action::WaitConnection);
    assert_eq!(engine.handle(Event::Connected), Action::ReadPacket { capacity: 64 });
    assert_eq!(engine.handle(Event::Received(&[0x04])), write(&[0x00]));
}

#[test]
fn events_that_end_nothing_awaited_change_nothing() {
    let mut engine = JBootInner::new();
    for event in [Event::Written, Event::WriteFailed, Event::Elapsed, Event::ReadFailed,
        Event::Received(&[0x01])]
    {
        assert_eq!(engine.handle(event), Action::WaitConnection);
        assert_eq!(engine.phase(), Phase::Disconnected);
    }
    let mut engine = listening();
    for event in [Event::Connected, Event::Written, Event::WriteFailed, Event::Elapsed] {
        assert_eq!(engine.handle(event), Action::ReadPacket { capacity: 64 });
        assert_eq!(engine.phase(), Phase::Listening);
    }
    assert_eq!(engine.handle(Event::Received(&[0x04])), write(&[0x00]));
    for event in [Event::Connected, Event::Elapsed, Event::ReadFailed, Event::Received(&[0x01])] {
        assert_eq!(engine.handle(event), write(&[0x00]));
        assert_eq!(engine.phase(), Phase::Info);
    }
}

#[test]
fn info_reply_ends_the_exchange_even_when_the_write_fails() {
    let mut engine = listening();
    assert_eq!(engine.handle(Event::Received(&[0x04])), write(&[0x00]));
    assert_eq!(engine.handle(Event::WriteFailed), Action::WaitConnection);
}

#[test]
fn version_reply_goes_on_after_a_failed_prefix() {
    let mut engine = listening();
    engine.handle(Event::Received(&[0x01]));
    match engine.handle(Event::WriteFailed) {
        Action::WritePacket(packet) => assert_eq!(&packet.as_slice()[..9], b"J-Link V9"),
        other => panic!("expected the first payload packet, got {:?}", other),
    }
    assert_eq!(engine.phase(), Phase::VersionPayload { sent: 0 });
}

#[test]
fn version_reply_stops_at_a_failed_payload_packet() {
    let mut engine = listening();
    engine.handle(Event::Received(&[0x01]));
    engine.handle(Event::Written);
    assert_eq!(engine.handle(Event::WriteFailed), Action::WaitConnection);

    let mut engine = listening();
    engine.handle(Event::Received(&[0x01]));
    engine.handle(Event::Written);
    engine.handle(Event::Written);
    assert_eq!(engine.phase(), Phase::VersionPayload { sent: 64 });
    assert_eq!(engine.handle(Event::WriteFailed), Action::WaitConnection);
}

#[test]
fn length_of_two_bytes_is_taken_as_it_is() {
    for &length in &[0u32, 1, 0x0500, 0x7FFF, 0x8000] {
        let mut engine = listening();
        let bytes = encoded(length);
        assert_eq!(bytes.len(), 2);
        assert_eq!(announce(&mut engine, &bytes), Action::ReadPacket { capacity: 64 });
        assert_eq!(engine.total_firmware_len(), length);
        assert_eq!(engine.phase(), Phase::UpdateHeader { offset: 0 });
    }
}

#[test]
fn length_that_needs_extension_is_unpacked_from_four_bytes() {
    for &length in &[0x8001u32, 0xFFFF, 0x1_0000, 0x30000, 0x30001, 0x3FFF_FFFF] {
        let mut engine = listening();
        let bytes = encoded(length);
        assert_eq!(bytes.len(), 4);
        assert_eq!(announce(&mut engine, &bytes), Action::ReadPacket { capacity: 64 });
        assert_eq!(engine.total_firmware_len(), length);
        assert_eq!(engine.phase(), Phase::UpdateHeader { offset: 0 });
    }
}

#[test]
fn header_without_marker_drops_the_update_before_any_acknowledgment() {
    let mut engine = listening();
    announce(&mut engine, &[0x00, 0xC0, 0x0C, 0x00]);
    let packets = header_packets(None);
    for (i, packet) in packets.iter().enumerate() {
        assert_eq!(engine.awaited_chunk(), Some((64 * i as u32, 64)));
        let action = engine.handle(Event::Received(packet));
        if i + 1 < packets.len() {
            assert_eq!(action, Action::ReadPacket { capacity: 64 });
            assert_eq!(engine.phase(), Phase::UpdateHeader { offset: 64 * (i as u32 + 1) });
        } else {
            assert_eq!(action, Action::WaitConnection);
        }
    }
    assert_eq!(engine.phase(), Phase::Disconnected);
    assert_eq!(engine.awaited_chunk(), None);
    assert_eq!(engine.handle(Event::Connected), Action::ReadPacket { capacity: 64 });
}

#[test]
fn marker_beside_the_scanned_offset_drops_the_update() {
    for offset in [0usize, 0x20F, 0x212, 0x400] {
        let mut engine = listening();
        announce(&mut engine, &[0x00, 0xC0, 0x0C, 0x00]);
        let mut last = Action::WaitConnection;
        for packet in header_packets(Some(offset)) {
            last = engine.handle(Event::Received(&packet));
        }
        assert_eq!(last, Action::WaitConnection);
        assert_eq!(engine.phase(), Phase::Disconnected);
    }
}

#[test]
fn length_other_than_expected_drops_the_update_before_the_reset() {
    for &length in &[0u32, 0x500, 0x8000, 0x2FFFF, 0x30001, 0x40000] {
        let mut engine = listening();
        let bytes = encoded(length);
        announce(&mut engine, &bytes);
        let mut last = Action::WaitConnection;
        for packet in header_packets(Some(0x210)) {
            last = engine.handle(Event::Received(&packet));
            assert_ne!(last, Action::SystemReset);
            assert_ne!(last, Action::Delay { millis: 100 });
            assert_ne!(last, write(&[0x00]));
        }
        assert_eq!(last, Action::WaitConnection);
        assert_eq!(engine.phase(), Phase::Disconnected);
    }
}

#[test]
fn accepted_update_runs_to_the_reset() {
    let mut engine = listening();
    assert_eq!(announce(&mut engine, &[0x00, 0xC0, 0x0C, 0x00]), Action::ReadPacket {
        capacity: 64,
    });
    let packets = header_packets(Some(0x210));
    for packet in &packets {
        assert_eq!(engine.handle(Event::Received(packet)), Action::ReadPacket { capacity: 64 });
    }
    assert_eq!(engine.phase(), Phase::UpdateBody { offset: 0x500 });
    assert_eq!(engine.staged_header(), &packets.concat()[..]);

    let body_packets = (0x30000 - 0x500) / 64;
    assert_eq!(body_packets, 3052);
    let chunk = [0xA5u8; 64];
    for i in 0..body_packets {
        assert_eq!(engine.awaited_chunk(), Some((0x500 + 64 * i as u32, 64)));
        let action = engine.handle(Event::Received(&chunk));
        if i + 1 < body_packets {
            assert_eq!(action, Action::ReadPacket { capacity: 64 });
        } else {
            assert_eq!(action, write(&[0x00]));
        }
    }
    assert_eq!(engine.phase(), Phase::UpdateFinalAck);
    assert_eq!(engine.awaited_chunk(), None);
    assert_eq!(engine.handle(Event::Written), Action::Delay { millis: 100 });
    assert_eq!(engine.handle(Event::Elapsed), Action::SystemReset);
    assert_eq!(engine.phase(), Phase::Reset);
    for event in [Event::Connected, Event::Elapsed, Event::Written, Event::ReadFailed,
        Event::Received(&[0x01])]
    {
        assert_eq!(engine.handle(event), Action::SystemReset);
    }
}

#[test]
fn marker_one_byte_later_is_still_inside_the_scan() {
    let mut engine = listening();
    announce(&mut engine, &[0x00, 0xC0, 0x0C, 0x00]);
    for packet in header_packets(Some(0x211)) {
        engine.handle(Event::Received(&packet));
    }
    assert_eq!(engine.phase(), Phase::UpdateBody { offset: 0x500 });
}

#[test]
fn transport_errors_inside_the_update_do_not_stop_it() {
    let mut engine = listening();
    assert_eq!(engine.handle(Event::Received(&[0x06])), write(&[0x00]));
    assert_eq!(engine.handle(Event::WriteFailed), Action::ReadPacket { capacity: 2 });
    assert_eq!(engine.handle(Event::Received(&[0x00, 0xC0])), Action::ReadPacket { capacity: 2 });
    assert_eq!(engine.handle(Event::Received(&[0x0C, 0x00])), Action::ReadPacket { capacity: 64 });
    let packets = header_packets(Some(0x210));
    for (i, packet) in packets.iter().enumerate() {
        // Packet 3 holds no byte of the marker window; it is lost.
        if i == 3 {
            engine.handle(Event::ReadFailed);
        } else {
            engine.handle(Event::Received(packet));
        }
    }
    assert_eq!(engine.phase(), Phase::UpdateBody { offset: 0x500 });
    let staged = engine.staged_header();
    assert_eq!(&staged[192..256], &[0u8; 64][..]);
    assert_eq!(&staged[..192], &[0x11u8; 192][..]);
    for _ in 0..3051 {
        assert_eq!(engine.handle(Event::ReadFailed), Action::ReadPacket { capacity: 64 });
    }
    assert_eq!(engine.handle(Event::ReadFailed), write(&[0x00]));
    assert_eq!(engine.handle(Event::WriteFailed), Action::Delay { millis: 100 });
    assert_eq!(engine.handle(Event::Elapsed), Action::SystemReset);
}

#[test]
fn failed_length_read_announces_zero() {
    let mut engine = listening();
    engine.handle(Event::Received(&[0x06]));
    engine.handle(Event::Written);
    assert_eq!(engine.handle(Event::ReadFailed), Action::ReadPacket { capacity: 64 });
    assert_eq!(engine.total_firmware_len(), 0);
}

#[test]
fn short_length_packet_is_padded_with_zeros() {
    let mut engine = listening();
    engine.handle(Event::Received(&[0x06]));
    engine.handle(Event::Written);
    // One byte of the length field: the second one stays zero.
    assert_eq!(engine.handle(Event::Received(&[0x34])), Action::ReadPacket { capacity: 64 });
    assert_eq!(engine.total_firmware_len(), 0x34);
}

#[test]
fn header_bytes_are_counted_as_they_come() {
    let mut engine = listening();
    announce(&mut engine, &[0x00, 0xC0, 0x0C, 0x00]);
    assert_eq!(engine.handle(Event::Received(&[1, 2, 3])), Action::ReadPacket { capacity: 64 });
    assert_eq!(engine.phase(), Phase::UpdateHeader { offset: 3 });
    assert_eq!(engine.awaited_chunk(), Some((3, 64)));
    assert_eq!(engine.handle(Event::Received(&[4, 5])), Action::ReadPacket { capacity: 64 });
    assert_eq!(engine.phase(), Phase::UpdateHeader { offset: 5 });
    let staged = engine.staged_header();
    assert_eq!(&staged[..6], &[1, 2, 3, 4, 5, 0]);
    assert_eq!(&staged[6..], &vec![0u8; 0x500 - 6][..]);
}

#[test]
fn empty_header_packet_brings_nothing() {
    let mut engine = listening();
    announce(&mut engine, &[0x00, 0xC0, 0x0C, 0x00]);
    engine.handle(Event::Received(&[7; 10]));
    assert_eq!(engine.handle(Event::Received(&[])), Action::ReadPacket { capacity: 64 });
    assert_eq!(engine.phase(), Phase::UpdateHeader { offset: 10 });
}

#[test]
fn header_in_forty_packets_of_thirty_two_bytes_is_accepted() {
    let mut header = vec![0x22u8; 0x500];
    header[0x210..0x219].copy_from_slice(b"J-Link V9");
    let mut engine = listening();
    announce(&mut engine, &[0x00, 0xC0, 0x0C, 0x00]);
    for (i, packet) in header.chunks(32).enumerate() {
        assert_eq!(engine.phase(), Phase::UpdateHeader { offset: 32 * i as u32 });
        let room = (0x500 - 32 * i).min(64);
        assert_eq!(engine.awaited_chunk(), Some((32 * i as u32, room as u32)));
        let next = engine.handle(Event::Received(packet));
        if i == 38 {
            assert_eq!(next, Action::ReadPacket { capacity: 32 });
        } else {
            assert_eq!(next, Action::ReadPacket { capacity: 64 });
        }
    }
    assert_eq!(engine.phase(), Phase::UpdateBody { offset: 0x500 });
    assert_eq!(engine.staged_header(), &header[..]);
    for _ in 0..3051 {
        assert_eq!(engine.handle(Event::Received(&[0x5A; 64])), Action::ReadPacket {
            capacity: 64,
        });
    }
    assert_eq!(engine.handle(Event::Received(&[0x5A; 64])), write(&[0x00]));
    assert_eq!(engine.handle(Event::Written), Action::Delay { millis: 100 });
    assert_eq!(engine.handle(Event::Elapsed), Action::SystemReset);
}

#[test]
fn header_in_packets_of_mixed_sizes_is_the_bytes_joined() {
    let mut header: Vec<u8> = (0..0x500u32).map(|i| (i * 31 + 5) as u8).collect();
    header[0x211..0x21A].copy_from_slice(b"J-Link V9");
    let sizes = [1usize, 64, 7, 0, 63, 33, 64, 64, 2, 50];
    let mut engine = listening();
    announce(&mut engine, &[0x00, 0xC0, 0x0C, 0x00]);
    let mut offset = 0usize;
    let mut turn = 0usize;
    while offset < 0x500 {
        let room = (0x500 - offset).min(64);
        assert_eq!(engine.action(), Action::ReadPacket { capacity: room });
        assert_eq!(engine.awaited_chunk(), Some((offset as u32, room as u32)));
        let size = sizes[turn % sizes.len()].min(room);
        engine.handle(Event::Received(&header[offset..offset + size]));
        offset += size;
        turn += 1;
    }
    assert_eq!(engine.phase(), Phase::UpdateBody { offset: 0x500 });
    assert_eq!(engine.staged_header(), &header[..]);
}

#[test]
fn last_header_read_has_room_for_what_is_missing_only() {
    let mut engine = listening();
    announce(&mut engine, &[0x00, 0xC0, 0x0C, 0x00]);
    for _ in 0..19 {
        engine.handle(Event::Received(&[0x33; 64]));
    }
    engine.handle(Event::Received(&[0x33; 48]));
    assert_eq!(engine.phase(), Phase::UpdateHeader { offset: 0x4F0 });
    assert_eq!(engine.action(), Action::ReadPacket { capacity: 16 });
    // Seventeen bytes do not fit: the transport reports an error, which
    // counts as sixteen zeros.
    assert_eq!(engine.handle(Event::Received(&[0x44; 17])), Action::WaitConnection);
    assert_eq!(engine.phase(), Phase::Disconnected);
    assert_eq!(&engine.staged_header()[0x4F0..], &[0u8; 16][..]);
    assert_eq!(&engine.staged_header()[..0x4F0], &vec![0x33u8; 0x4F0][..]);
}

#[test]
fn header_in_short_packets_without_marker_is_dropped() {
    let header = vec![0x22u8; 0x500];
    let mut engine = listening();
    announce(&mut engine, &[0x00, 0xC0, 0x0C, 0x00]);
    let mut last = Action::WaitConnection;
    for packet in header.chunks(32) {
        last = engine.handle(Event::Received(packet));
        assert_ne!(last, write(&[0x00]));
    }
    assert_eq!(last, Action::WaitConnection);
    assert_eq!(engine.phase(), Phase::Disconnected);
}

#[test]
fn body_bytes_are_counted_as_they_come() {
    let mut engine = listening();
    announce(&mut engine, &[0x00, 0xC0, 0x0C, 0x00]);
    for packet in header_packets(Some(0x210)) {
        engine.handle(Event::Received(&packet));
    }
    assert_eq!(engine.phase(), Phase::UpdateBody { offset: 0x500 });
    assert_eq!(engine.handle(Event::Received(&[1; 10])), Action::ReadPacket { capacity: 64 });
    assert_eq!(engine.phase(), Phase::UpdateBody { offset: 0x50A });
    assert_eq!(engine.awaited_chunk(), Some((0x50A, 64)));
    engine.handle(Event::Received(&[]));
    assert_eq!(engine.phase(), Phase::UpdateBody { offset: 0x50A });
    let mut offset = 0x50Au32;
    while offset + 64 <= 0x30000 - 64 {
        engine.handle(Event::Received(&[2; 64]));
        offset += 64;
    }
    assert_eq!(engine.phase(), Phase::UpdateBody { offset });
    engine.handle(Event::Received(&[2; 64]));
    offset += 64;
    let missing = 0x30000 - offset;
    assert!(missing < 64);
    assert_eq!(engine.action(), Action::ReadPacket { capacity: missing as usize });
    assert_eq!(engine.awaited_chunk(), Some((offset, missing)));
    assert_eq!(
        engine.handle(Event::Received(&vec![3u8; missing as usize])),
        write(&[0x00])
    );
    assert_eq!(engine.phase(), Phase::UpdateFinalAck);
}

#[test]
fn packet_that_does_not_fit_the_buffer_counts_as_a_failed_read() {
    let mut engine = listening();
    engine.handle(Event::Received(&[0x06]));
    engine.handle(Event::Written);
    assert_eq!(engine.handle(Event::Received(&[0x34, 0x12, 0x01])), Action::ReadPacket {
        capacity: 64,
    });
    assert_eq!(engine.total_firmware_len(), 0);
    engine.handle(Event::Received(&[0xEE; 65]));
    assert_eq!(engine.phase(), Phase::UpdateHeader { offset: 64 });
    assert_eq!(engine.staged_header(), &vec![0u8; 0x500][..]);
}

#[test]
fn staging_buffer_is_cleared_for_every_update() {
    let mut engine = listening();
    announce(&mut engine, &[0x00, 0x10]);
    for packet in header_packets(Some(0x210)) {
        engine.handle(Event::Received(&packet));
    }
    // Wrong length: dropped. The next attempt starts from an empty buffer.
    assert_eq!(engine.phase(), Phase::Disconnected);
    assert_eq!(engine.handle(Event::Connected), Action::ReadPacket { capacity: 64 });
    announce(&mut engine, &[0x00, 0xC0, 0x0C, 0x00]);
    assert_eq!(engine.staged_header(), &vec![0u8; 0x500][..]);
    for _ in 0..20 {
        engine.handle(Event::ReadFailed);
    }
    assert_eq!(engine.phase(), Phase::Disconnected);
}

#[test]
fn new_engine_waits_for_a_connection() {
    let engine = JBootInner::new();
    assert_eq!(engine.phase(), Phase::Disconnected);
    assert_eq!(engine.action(), Action::WaitConnection);
    assert_eq!(engine.total_firmware_len(), 0);
    assert_eq!(engine.staged_header(), &vec![0u8; 0x500][..]);
    assert_eq!(engine.awaited_chunk(), None);
}

#[test]
fn packet_holds_up_to_sixty_four_bytes() {
    assert_eq!(Packet::from_slice(&[]).unwrap().as_slice(), &[] as &[u8]);
    let packet = Packet::from_slice(&[1, 2, 3]).unwrap();
    assert_eq!(packet.as_slice(), &[1, 2, 3]);
    assert_eq!(packet.len(), 3);
    assert_eq!(Packet::from_slice(&[9; 64]).unwrap().as_slice(), &[9u8; 64][..]);
    assert_eq!(Packet::from_slice(&[9; 65]), None);
    assert_ne!(Packet::from_slice(&[0]), Packet::from_slice(&[]));
}

#[test]
fn process_data_sorts_the_packet_of_a_listening_engine() {
    let mut engine = listening();
    engine.process_data(&[0x01]);
    assert_eq!(engine.phase(), Phase::VersionPrefix);
    assert_eq!(engine.action(), write(&[0x60, 0x00]));

    let mut engine = listening();
    engine.process_data(&[0x04]);
    assert_eq!(engine.action(), write(&[0x00]));

    let mut engine = listening();
    engine.process_data(&[0x06]);
    assert_eq!(engine.phase(), Phase::UpdateAck);

    for packet in [&[][..], &[0x01, 0x00], &[0x04, 0x04], &[0x06, 0x00, 0x00], &[0x05], &[0x01; 64]] {
        let mut engine = listening();
        engine.process_data(packet);
        assert_eq!(engine.phase(), Phase::Disconnected);
        assert_eq!(engine.action(), Action::WaitConnection);
    }
}

#[test]
fn commands_are_served_only_while_listening() {
    let mut engine = JBootInner::new();
    engine.process_data(&[0x06]);
    engine.cmd_01_version();
    engine.cmd_04_get_info();
    engine.cmd_06_update_firmware();
    assert_eq!(engine.phase(), Phase::Disconnected);

    let mut engine = listening();
    engine.cmd_06_update_firmware();
    assert_eq!(engine.phase(), Phase::UpdateAck);
    engine.cmd_01_version();
    engine.process_data(&[0x04]);
    engine.wait_and_handle(Event::ReadFailed);
    assert_eq!(engine.phase(), Phase::UpdateAck);
    assert_eq!(engine.action(), write(&[0x00]));
}

#[test]
fn each_command_function_starts_its_exchange() {
    let mut engine = listening();
    engine.cmd_01_version();
    assert_eq!(engine.action(), write(&[0x60, 0x00]));
    let mut engine = listening();
    engine.cmd_04_get_info();
    assert_eq!(engine.phase(), Phase::Info);
    assert_eq!(engine.action(), write(&[0x00]));
    assert_eq!(engine.handle(Event::Written), Action::WaitConnection);
}

#[test]
fn wait_and_handle_takes_connection_and_command() {
    let mut engine = JBootInner::new();
    engine.wait_and_handle(Event::Written);
    assert_eq!(engine.phase(), Phase::Disconnected);
    engine.wait_and_handle(Event::Connected);
    assert_eq!(engine.phase(), Phase::Listening);
    engine.wait_and_handle(Event::ReadFailed);
    assert_eq!(engine.phase(), Phase::Disconnected);
    engine.wait_and_handle(Event::Connected);
    engine.wait_and_handle(Event::Received(&[0x02, 0x03]));
    assert_eq!(engine.action(), Action::WaitConnection);
    engine.wait_and_handle(Event::Connected);
    engine.wait_and_handle(Event::Received(&[0x06]));
    assert_eq!(engine.action(), write(&[0x00]));
}
