use eq_network::transport::combined::{build_combined, split_combined, CombinedPacket, SubPacket};
use eq_network::transport::error::ProtocolError;
use eq_network::transport::soe::{
    build_ack, build_disconnect, build_keepalive, build_session_request, build_session_response,
    get_sequence, parse_session_response, set_sequence, transport_opcode, wrap_app_packet,
    SessionResponse, TransportOp,
};

#[test]
fn build_ack_wire_format() {
    let ack = build_ack(0x1234);
    assert_eq!(transport_opcode(&ack), TransportOp::Ack.code());
    assert_eq!(get_sequence(&ack, 0), 0x1234);
}

#[test]
fn roundtrip_combined() {
    let ack = build_ack(1);
    let packet = [0x00, 0x09, 0x00, 0x02, 0x02, 0x00];
    let combined = build_combined(&[&ack, &packet]).unwrap();
    assert_eq!(transport_opcode(&combined), TransportOp::Combined.code());
    let subs = split_combined(&combined);
    assert_eq!(subs.len(), 2);
}

#[test]
fn combined_split_returns_original_sub_packets() {
    let ack = build_ack(7);
    let packet = [0x00, 0x09, 0x00, 0x02, 0x02, 0x00];
    let long: Vec<u8> = (0..300u32).map(|i| (i % 251) as u8 + 1).collect();
    let exactly_ff: Vec<u8> = vec![9u8; 0xFF];
    let combined = build_combined(&[&ack, &packet, &long, &exactly_ff]).unwrap();
    let subs = split_combined(&combined);
    assert_eq!(subs, vec![ack.to_vec(), packet.to_vec(), long.clone(), exactly_ff.clone()]);
}

#[test]
fn combined_frames_use_short_and_extended_lengths() {
    let short = [1u8, 2, 3];
    let long = vec![5u8; 0x100];
    let combined = build_combined(&[&short, &long]).unwrap();
    assert_eq!(&combined[0..6], &[0x00, 0x03, 0x03, 1, 2, 3]);
    assert_eq!(&combined[6..9], &[0xFF, 0x01, 0x00]);
    assert_eq!(combined.len(), 2 + 1 + 3 + 3 + 0x100);
}

#[test]
fn combined_rejects_oversized_sub_packet() {
    let small = [1u8, 2];
    let huge = vec![0u8; 0x1_0000];
    let huger = vec![0u8; 0x1_0001];
    assert_eq!(
        build_combined(&[&small, &huge, &huger]),
        Err(ProtocolError::CombinedSubPacketTooLong { len: 0x1_0000 })
    );
    let max = vec![0u8; 0xFFFF];
    assert!(build_combined(&[&max]).is_ok());
}

#[test]
fn combined_parse_reports_offsets_and_opcodes() {
    let ack = build_ack(3);
    let packet = [0x00, 0x09, 0x00, 0x02, 0x02, 0x00];
    let combined = build_combined(&[&ack, &packet]).unwrap();
    let parsed = CombinedPacket::parse(&combined, 0, None).unwrap();
    assert_eq!(
        parsed.subs,
        vec![
            SubPacket { offset: 3, length: 4, transport_op: 0x0015 },
            SubPacket { offset: 8, length: 6, transport_op: 0x0009 },
        ]
    );
    assert_eq!(parsed.sub_bytes(&combined, &parsed.subs[1]), &packet);
}

#[test]
fn combined_parse_rejects_truncated_header() {
    assert_eq!(
        CombinedPacket::parse(&[0x00], 0, None),
        Err(ProtocolError::TooShort { need: 2, got: 1 })
    );
    assert_eq!(
        CombinedPacket::parse(&[0x00, 0x03, 0x01], 2, None),
        Err(ProtocolError::TooShort { need: 2, got: 1 })
    );
    assert_eq!(
        CombinedPacket::parse(&[0x00, 0x03], 5, None),
        Err(ProtocolError::TooShort { need: 2, got: 0 })
    );
    assert!(split_combined(&[0x00]).is_empty());
}

#[test]
fn combined_parse_stops_at_zero_or_overlong_length() {
    let data = [0x00, 0x03, 0x02, 0xAA, 0xBB, 0x00, 0x01];
    let parsed = CombinedPacket::parse(&data, 0, None).unwrap();
    assert_eq!(parsed.subs.len(), 1);
    let data = [0x00, 0x03, 0x05, 0xAA];
    assert!(CombinedPacket::parse(&data, 0, None).unwrap().subs.is_empty());
    let data = [0x00, 0x03, 0x02, 0xAA, 0xBB, 0x02, 0xCC, 0xDD];
    let parsed = CombinedPacket::parse(&data, 0, Some(5)).unwrap();
    assert_eq!(parsed.subs.len(), 1);
}

#[test]
fn combined_parse_single_byte_sub_packet_reads_opcode_past_it() {
    let data = [0x00, 0x03, 0x01, 0xAB];
    let parsed = CombinedPacket::parse(&data, 0, None).unwrap();
    assert_eq!(parsed.subs, vec![SubPacket { offset: 3, length: 1, transport_op: 0 }]);
}

#[test]
fn opcodes_round_trip_and_name() {
    assert_eq!(TransportOp::from_u16(0x0015), Some(TransportOp::Ack));
    assert_eq!(TransportOp::from_u16(0x001D), Some(TransportOp::OutOfSession));
    assert_eq!(TransportOp::from_u16(0x0004), None);
    assert_eq!(TransportOp::Fragment.code(), 0x000D);
    assert_eq!(TransportOp::SessionStatResponse.name(), "SessionStatResponse");
    assert_eq!(TransportOp::Ack.name(), "Ack");
}

#[test]
fn opcode_and_sequence_reads_handle_short_input() {
    assert_eq!(transport_opcode(&[0x00]), 0);
    assert_eq!(transport_opcode(&[0x12, 0x34, 0x56]), 0x1234);
    assert_eq!(get_sequence(&[0, 9, 0], 0), 0);
    assert_eq!(get_sequence(&[0xFF, 0, 9, 0xAB, 0xCD], 1), 0xABCD);
}

#[test]
fn set_sequence_writes_and_reads_back() {
    let mut buf = vec![0u8, 9, 0, 0, 0xEE];
    set_sequence(&mut buf, 0, 0xBEEF);
    assert_eq!(buf, vec![0, 9, 0xBE, 0xEF, 0xEE]);
    assert_eq!(get_sequence(&buf, 0), 0xBEEF);
    let mut short = vec![0u8, 9, 1];
    set_sequence(&mut short, 0, 7);
    assert_eq!(short, vec![0, 9, 1]);
}

#[test]
fn fixed_control_packets() {
    assert_eq!(build_keepalive(), [0x00, 0x06]);
    assert_eq!(build_disconnect(), [0x00, 0x05]);
    assert_eq!(build_session_request(), [0x00, 0x01]);
    assert_eq!(build_ack(0x0102), [0x00, 0x15, 0x01, 0x02]);
}

#[test]
fn wrap_app_packet_layout() {
    let wrapped = wrap_app_packet(0x0203, &[0xAA, 0xBB]);
    assert_eq!(wrapped, vec![0x00, 0x09, 0x02, 0x03, 0xAA, 0xBB]);
    assert_eq!(transport_opcode(&wrapped), TransportOp::Packet.code());
    assert_eq!(get_sequence(&wrapped, 0), 0x0203);
}

#[test]
fn session_response_round_trips() {
    let response = build_session_response();
    assert_eq!(response.len(), 17);
    assert_eq!(
        parse_session_response(&response),
        Ok(SessionResponse {
            connect_code: 0,
            encode_key: 1,
            crc_bytes: 0,
            encode_pass1: 0,
            encode_pass2: 0,
            max_packet_size: 512,
        })
    );
}

#[test]
fn session_response_fields_and_short_input() {
    let data = [
        0x00, 0x02, 0x01, 0x02, 0x03, 0x04, 0x0A, 0x0B, 0x0C, 0x0D, 2, 1, 3, 0x00, 0x02, 0x00,
        0x00,
    ];
    let parsed = parse_session_response(&data).unwrap();
    assert_eq!(parsed.connect_code, 0x0102_0304);
    assert_eq!(parsed.encode_key, 0x0A0B_0C0D);
    assert_eq!((parsed.crc_bytes, parsed.encode_pass1, parsed.encode_pass2), (2, 1, 3));
    assert_eq!(parsed.max_packet_size, 512);
    assert_eq!(
        parse_session_response(&data[..16]),
        Err(ProtocolError::TooShort { need: 17, got: 16 })
    );
}

#[test]
fn sequence_access_with_offset_past_any_buffer() {
    assert_eq!(get_sequence(&[0, 9, 1, 2], usize::MAX), 0);
    assert_eq!(get_sequence(&[0, 9, 1, 2], usize::MAX - 3), 0);
    let mut buf = vec![0u8, 9, 1, 2];
    set_sequence(&mut buf, usize::MAX, 0xFFFF);
    set_sequence(&mut buf, usize::MAX - 2, 0xFFFF);
    assert_eq!(buf, vec![0, 9, 1, 2]);
}
