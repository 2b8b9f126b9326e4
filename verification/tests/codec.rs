use gaia_codec::default_true;
use gaia_codec::gaia_frame;
use gaia_codec::ioreturn_name;
use gaia_codec::parse_gaia_packet;
use gaia_codec::GaiaParser;

fn xor(bytes: &[u8]) -> u8 {
    bytes.iter().fold(0, |acc, b| acc ^ b)
}

#[test]
fn encode_minimal_frame() {
    let frame = gaia_frame(0x000A, 0x0003, &[], 0).unwrap();
    assert_eq!(frame, vec![0xFF, 0x01, 0x00, 0x00, 0x00, 0x0A, 0x00, 0x03]);
}

#[test]
fn decode_minimal_frame() {
    let packet = parse_gaia_packet(&[0xFF, 0x01, 0x00, 0x00, 0x00, 0x0A, 0x00, 0x03]).unwrap();
    assert_eq!(packet.vendor_id, 0x000A);
    assert_eq!(packet.command_id, 0x0003);
    assert_eq!(packet.command, 0x0003);
    assert!(!packet.ack);
    assert_eq!(packet.flags, 0);
    assert!(packet.payload.is_empty());
    assert_eq!(packet.status, None);
}

#[test]
fn decode_ack_frame_with_status() {
    let frame = gaia_frame(0x000A, 0x8003, &[0x01], 0).unwrap();
    let packet = parse_gaia_packet(&frame).unwrap();
    assert_eq!(packet.vendor_id, 0x000A);
    assert_eq!(packet.command_id, 0x8003);
    assert_eq!(packet.command, 0x0003);
    assert!(packet.ack);
    assert_eq!(packet.payload, vec![0x01]);
    assert_eq!(packet.status, Some(0x01));
}

#[test]
fn round_trip_preserves_fields() {
    let cases: Vec<(u16, u16, Vec<u8>, u8)> = vec![
        (0x0000, 0x0000, vec![], 0),
        (0x001D, 0x0101, vec![1, 2, 3], 0),
        (0xBEEF, 0x7FFF, vec![0, 0xFF, 0x7F], 1),
        (0xFFFF, 0xFFFF, vec![9; 40], 1),
    ];
    for (vendor_id, command_id, payload, flags) in cases {
        let frame = gaia_frame(vendor_id, command_id, &payload, flags).unwrap();
        let packet = parse_gaia_packet(&frame).unwrap();
        assert_eq!(packet.vendor_id, vendor_id);
        assert_eq!(packet.command_id, command_id);
        assert_eq!(packet.command, command_id & 0x7FFF);
        assert_eq!(packet.ack, command_id & 0x8000 != 0);
        assert_eq!(packet.flags, flags);
        assert_eq!(packet.payload, payload);
    }
}

#[test]
fn oversized_payload_is_rejected() {
    let payload = [0u8; 255];
    let result = gaia_frame(0x000A, 0x0003, &payload, 0);
    assert_eq!(result.unwrap_err(), "Payload too long");
}

#[test]
fn largest_payload_is_accepted() {
    let payload = [0xABu8; 254];
    let frame = gaia_frame(0x000A, 0x0003, &payload, 1).unwrap();
    assert_eq!(frame.len(), 8 + 254 + 1);
    let packet = parse_gaia_packet(&frame).unwrap();
    assert_eq!(packet.payload, payload.to_vec());
}

#[test]
fn checksum_byte_is_xor_of_frame() {
    let frame = gaia_frame(0x000A, 0x0003, &[0x10, 0x20], 1).unwrap();
    assert_eq!(frame.len(), 11);
    assert_eq!(frame[10], xor(&frame[..10]));
    assert!(parse_gaia_packet(&frame).is_some());
}

#[test]
fn single_bit_corruption_fails_decode() {
    let frame = gaia_frame(0x000A, 0x0003, &[0x10, 0x20], 1).unwrap();
    for i in 0..frame.len() {
        for bit in 0..8 {
            if i == 2 && bit == 0 {
                // Clearing the checksum-present flag turns the trailing
                // checksum byte into ignored surplus, so that one flip
                // still decodes; every other flip must fail.
                continue;
            }
            let mut corrupted = frame.clone();
            corrupted[i] ^= 1 << bit;
            assert!(parse_gaia_packet(&corrupted).is_none(), "flip at byte {i} bit {bit}");
        }
    }
}

#[test]
fn one_byte_chunks_yield_same_packet() {
    let frame = gaia_frame(0x1234, 0x8042, &[7, 8, 9], 1).unwrap();

    let mut whole = GaiaParser::new();
    let packets_whole = whole.push_bytes(&frame);
    assert_eq!(packets_whole.len(), 1);

    let mut chunked = GaiaParser::new();
    let mut packets_chunked = Vec::new();
    for byte in &frame {
        packets_chunked.extend(chunked.push_bytes(&[*byte]));
    }
    assert_eq!(packets_chunked.len(), 1);

    let a = &packets_whole[0];
    let b = &packets_chunked[0];
    assert_eq!(a.vendor_id, b.vendor_id);
    assert_eq!(a.command_id, b.command_id);
    assert_eq!(a.command, b.command);
    assert_eq!(a.ack, b.ack);
    assert_eq!(a.flags, b.flags);
    assert_eq!(a.payload, b.payload);
    assert_eq!(a.status, b.status);
    assert_eq!(a.payload, vec![7, 8, 9]);
}

#[test]
fn uneven_chunks_yield_same_packets() {
    let mut stream = Vec::new();
    stream.extend(gaia_frame(0x000A, 0x0001, &[1], 0).unwrap());
    stream.extend(gaia_frame(0x000A, 0x0002, &[2, 2], 1).unwrap());

    let mut parser = GaiaParser::new();
    let mut packets = Vec::new();
    for chunk in stream.chunks(5) {
        packets.extend(parser.push_bytes(chunk));
    }
    assert_eq!(packets.len(), 2);
    assert_eq!(packets[0].command, 0x0001);
    assert_eq!(packets[1].command, 0x0002);
}

#[test]
fn concatenated_frames_decode_in_order() {
    let mut stream = Vec::new();
    for command_id in [0x0001u16, 0x0002, 0x0003] {
        stream.extend(gaia_frame(0x000A, command_id, &[command_id as u8], 1).unwrap());
    }
    let mut parser = GaiaParser::new();
    let packets = parser.push_bytes(&stream);
    assert_eq!(packets.len(), 3);
    for (i, packet) in packets.iter().enumerate() {
        assert_eq!(packet.command, (i + 1) as u16);
        assert_eq!(packet.payload, vec![(i + 1) as u8]);
    }
}

#[test]
fn corrupt_checksum_then_valid_frame() {
    let mut bad = gaia_frame(0x000A, 0x0005, &[0x55], 1).unwrap();
    let last = bad.len() - 1;
    bad[last] ^= 0xA5;
    let good = gaia_frame(0x000A, 0x0006, &[0x66], 1).unwrap();

    let mut stream = bad;
    stream.extend(&good);
    let mut parser = GaiaParser::new();
    let packets = parser.push_bytes(&stream);
    assert_eq!(packets.len(), 1);
    assert_eq!(packets[0].command, 0x0006);
    assert_eq!(packets[0].payload, vec![0x66]);
}

#[test]
fn sync_byte_in_payload_is_data() {
    let frame = gaia_frame(0x000A, 0x0003, &[0xFF, 0x02], 0).unwrap();
    let mut parser = GaiaParser::new();
    let packets = parser.push_bytes(&frame);
    assert_eq!(packets.len(), 1);
    assert_eq!(packets[0].payload, vec![0xFF, 0x02]);

    let follow_up = gaia_frame(0x000A, 0x0004, &[], 0).unwrap();
    let packets = parser.push_bytes(&follow_up);
    assert_eq!(packets.len(), 1);
    assert_eq!(packets[0].command, 0x0004);
}

#[test]
fn stray_bytes_before_sync_are_skipped() {
    let mut stream = vec![0x00, 0x42, 0x13];
    stream.extend(gaia_frame(0x000A, 0x0009, &[], 0).unwrap());
    let mut parser = GaiaParser::new();
    let packets = parser.push_bytes(&stream);
    assert_eq!(packets.len(), 1);
    assert_eq!(packets[0].command, 0x0009);
}

#[test]
fn partial_frame_carries_across_calls() {
    let frame = gaia_frame(0x000A, 0x0007, &[1, 2, 3, 4], 1).unwrap();
    let mut parser = GaiaParser::new();
    assert!(parser.push_bytes(&frame[..6]).is_empty());
    let packets = parser.push_bytes(&frame[6..]);
    assert_eq!(packets.len(), 1);
    assert_eq!(packets[0].payload, vec![1, 2, 3, 4]);
}

#[test]
fn too_short_frame_fails_decode() {
    assert!(parse_gaia_packet(&[0xFF, 0x01, 0x00]).is_none());
    assert!(parse_gaia_packet(&[]).is_none());
}

#[test]
fn truncated_payload_fails_decode() {
    // Declared payload length 4, but only 2 payload bytes present.
    assert!(parse_gaia_packet(&[0xFF, 0x01, 0x00, 0x04, 0x00, 0x0A, 0x00, 0x03, 1, 2]).is_none());
}

#[test]
fn default_true_is_true() {
    assert!(default_true());
}

#[test]
fn ioreturn_names_are_mapped() {
    assert_eq!(ioreturn_name(0), "kIOReturnSuccess");
    assert_eq!(ioreturn_name(0xE0020002u32 as i32), "kIOBluetoothConnectionAlreadyExists");
    assert_eq!(ioreturn_name(0xE00002BCu32 as i32), "kIOReturnError");
    assert_eq!(ioreturn_name(0xE00002C0u32 as i32), "kIOReturnNoDevice");
    assert_eq!(ioreturn_name(0xE00002C5u32 as i32), "kIOReturnExclusiveAccess");
    assert_eq!(ioreturn_name(0xE00002CDu32 as i32), "kIOReturnNotOpen");
    assert_eq!(ioreturn_name(0xE00002D6u32 as i32), "kIOReturnTimeout");
    assert_eq!(ioreturn_name(0xE00002E2u32 as i32), "kIOReturnNotPermitted");
    assert_eq!(ioreturn_name(0xE00002F0u32 as i32), "kIOReturnNotFound");
    assert_eq!(ioreturn_name(7), "kIOReturnUnknown");
}

#[test]
fn checksum_on_empty_payload() {
    let frame = gaia_frame(0x000A, 0x0003, &[], 1).unwrap();
    assert_eq!(frame.len(), 9);
    assert_eq!(frame[8], xor(&frame[..8]));
    let packet = parse_gaia_packet(&frame).unwrap();
    assert!(packet.payload.is_empty());
    assert_eq!(packet.flags, 1);
}

#[test]
fn reserved_flag_bits_pass_through() {
    // Bit 0 clear: no checksum byte, whatever the other flag bits say.
    let frame = gaia_frame(0x000A, 0x0003, &[0x42], 0x02).unwrap();
    assert_eq!(frame.len(), 9);
    let packet = parse_gaia_packet(&frame).unwrap();
    assert_eq!(packet.flags, 0x02);
    assert_eq!(packet.payload, vec![0x42]);

    // Bit 0 set among others: the checksum byte is present and checked.
    let frame = gaia_frame(0x000A, 0x0003, &[0x42], 0x03).unwrap();
    assert_eq!(frame.len(), 10);
    assert_eq!(frame[9], xor(&frame[..9]));
    let packet = parse_gaia_packet(&frame).unwrap();
    assert_eq!(packet.flags, 0x03);
}
