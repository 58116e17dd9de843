use emulebb_ed2k::ed2k_client_udp::codec::{
    encode_reask_ack, encode_reask_file_ping, ReaskAck, OP_FILENOTFOUND, OP_QUEUEFULL,
    OP_REASKACK, OP_REASKCALLBACKUDP, OP_REASKFILEPING,
};
use emulebb_ed2k::ed2k_client_udp::dispatch::{parse_inbound_reask_datagram, InboundReaskMessage};
use emulebb_ed2k::ed2k_client_udp::outbound::{
    build_direct_callback_req_datagram, build_file_not_found_datagram, build_queue_full_datagram,
    build_reask_ack_datagram, build_reask_callback_udp_datagram, build_reask_file_ping_datagram,
    frame_packet_with, OutboundReaskTarget,
};
use emulebb_ed2k::ed2k_client_udp_obfuscation::{obfuscate_client_udp_with, OP_EMULEPROT};
use emulebb_ed2k::ids::Ed2kHash;


const OUR_HASH: [u8; 16] = [
    0x01, 0x02, 0x03, 0x04, 0x05, 0x06, 0x07, 0x08, 0x09, 0x0A, 0x0B, 0x0C, 0x0D, 0x0E, 0x0F,
    0x10,
];
const SENDER_IP: [u8; 4] = [198, 51, 100, 23];

fn file_hash() -> Ed2kHash {
    Ed2kHash::from_bytes([
        0xAA, 0xBB, 0xCC, 0xDD, 0xEE, 0xFF, 0x00, 0x11, 0x22, 0x33, 0x44, 0x55, 0x66, 0x77,
        0x88, 0x99,
    ])
}

fn frame(opcode: u8, body: &[u8]) -> Vec<u8> {
    let mut f = vec![OP_EMULEPROT, opcode];
    f.extend_from_slice(body);
    f
}

#[test]
fn parses_plaintext_file_ping() {
    let body = encode_reask_file_ping(&file_hash(), Some(&[true, false, true]), 4, 4);
    let datagram = frame(OP_REASKFILEPING, &body);
    let msg = parse_inbound_reask_datagram(&datagram, SENDER_IP, &OUR_HASH, 4).unwrap();
    match msg {
        InboundReaskMessage::FilePing(ping) => assert_eq!(ping.file_hash, file_hash()),
        other => panic!("expected FilePing, got {other:?}"),
    }
}

#[test]
fn parses_obfuscated_ack() {
    let body = encode_reask_ack(None, 9, 4);
    let plain = frame(OP_REASKACK, &body);
    let datagram = obfuscate_client_udp_with(&OUR_HASH, SENDER_IP, &plain, 0x2468, 0x40);
    let msg = parse_inbound_reask_datagram(&datagram, SENDER_IP, &OUR_HASH, 4).unwrap();
    assert_eq!(
        msg,
        InboundReaskMessage::Ack(ReaskAck {
            part_status: None,
            queue_position: 9
        })
    );
}

#[test]
fn parses_plaintext_direct_callback_req() {
    let mut body = Vec::new();
    body.extend_from_slice(&4662u16.to_le_bytes());
    body.extend_from_slice(&[0x5A; 16]);
    body.push(0x01);
    let datagram = frame(0x95, &body);
    let msg = parse_inbound_reask_datagram(&datagram, SENDER_IP, &OUR_HASH, 4).unwrap();
    match msg {
        InboundReaskMessage::DirectCallbackReq(req) => {
            assert_eq!(req.tcp_port, 4662);
            assert_eq!(req.user_hash, [0x5A; 16]);
            assert_eq!(req.connect_options, 0x01);
        }
        other => panic!("expected DirectCallbackReq, got {other:?}"),
    }
}

#[test]
fn parses_obfuscated_direct_callback_req() {
    let mut body = Vec::new();
    body.extend_from_slice(&5000u16.to_le_bytes());
    body.extend_from_slice(&[0x77; 16]);
    body.push(0x00);
    let plain = frame(0x95, &body);
    let datagram = obfuscate_client_udp_with(&OUR_HASH, SENDER_IP, &plain, 0x1357, 0x40);
    let msg = parse_inbound_reask_datagram(&datagram, SENDER_IP, &OUR_HASH, 4).unwrap();
    match msg {
        InboundReaskMessage::DirectCallbackReq(req) => assert_eq!(req.tcp_port, 5000),
        other => panic!("expected DirectCallbackReq, got {other:?}"),
    }
}

#[test]
fn parses_empty_body_status_opcodes() {
    assert_eq!(
        parse_inbound_reask_datagram(&frame(OP_QUEUEFULL, &[]), SENDER_IP, &OUR_HASH, 4),
        Some(InboundReaskMessage::QueueFull)
    );
    assert_eq!(
        parse_inbound_reask_datagram(&frame(OP_FILENOTFOUND, &[]), SENDER_IP, &OUR_HASH, 4),
        Some(InboundReaskMessage::FileNotFound)
    );
}

#[test]
fn non_reask_emuleprot_opcode_is_ignored() {
    assert!(
        parse_inbound_reask_datagram(&frame(0x01, &[1, 2, 3]), SENDER_IP, &OUR_HASH, 4)
            .is_none()
    );
}

#[test]
fn obfuscated_packet_under_wrong_hash_is_ignored() {
    let plain = frame(OP_REASKACK, &encode_reask_ack(None, 1, 4));
    let datagram = obfuscate_client_udp_with(&OUR_HASH, SENDER_IP, &plain, 0x1111, 0x40);
    let mut other_hash = OUR_HASH;
    other_hash[0] ^= 0xFF;
    assert!(parse_inbound_reask_datagram(&datagram, SENDER_IP, &other_hash, 4).is_none());
}

#[test]
fn junk_and_short_datagrams_are_ignored() {
    assert!(parse_inbound_reask_datagram(&[], SENDER_IP, &OUR_HASH, 4).is_none());
    assert!(parse_inbound_reask_datagram(&[OP_EMULEPROT], SENDER_IP, &OUR_HASH, 4).is_none());
    assert!(parse_inbound_reask_datagram(&[0x42; 24], SENDER_IP, &OUR_HASH, 4).is_none());
}


const DEST_HASH: [u8; 16] = [
    0x21, 0x22, 0x23, 0x24, 0x25, 0x26, 0x27, 0x28, 0x29, 0x2A, 0x2B, 0x2C, 0x2D, 0x2E, 0x2F,
    0x30,
];
const OUR_IP: [u8; 4] = [203, 0, 113, 9];


fn plaintext_target() -> OutboundReaskTarget {
    OutboundReaskTarget {
        dest_user_hash: DEST_HASH,
        our_public_ip: OUR_IP,
        obfuscate: false,
    }
}

fn obfuscated_target() -> OutboundReaskTarget {
    OutboundReaskTarget {
        dest_user_hash: DEST_HASH,
        our_public_ip: OUR_IP,
        obfuscate: true,
    }
}

#[test]
fn file_ping_round_trips_plaintext_and_obfuscated() {
    let parts = [true, false, true, true];
    for target in [plaintext_target(), obfuscated_target()] {
        let datagram =
            build_reask_file_ping_datagram(&file_hash(), Some(&parts), 5, 4, &target);
        let msg = parse_inbound_reask_datagram(&datagram, OUR_IP, &DEST_HASH, 4).unwrap();
        match msg {
            InboundReaskMessage::FilePing(ping) => {
                assert_eq!(ping.file_hash, file_hash());
                assert_eq!(ping.part_status.unwrap(), parts);
                assert_eq!(ping.complete_source_count, Some(5));
            }
            other => panic!("expected FilePing, got {other:?}"),
        }
    }
}

#[test]
fn ack_round_trips_obfuscated() {
    let datagram = build_reask_ack_datagram(None, 13, 4, &obfuscated_target());
    let msg = parse_inbound_reask_datagram(&datagram, OUR_IP, &DEST_HASH, 4).unwrap();
    match msg {
        InboundReaskMessage::Ack(ack) => assert_eq!(ack.queue_position, 13),
        other => panic!("expected Ack, got {other:?}"),
    }
}

#[test]
fn empty_body_opcodes_round_trip() {
    let qf = build_queue_full_datagram(&plaintext_target());
    assert_eq!(
        parse_inbound_reask_datagram(&qf, OUR_IP, &DEST_HASH, 4),
        Some(InboundReaskMessage::QueueFull)
    );
    let fnf = build_file_not_found_datagram(&obfuscated_target());
    assert_eq!(
        parse_inbound_reask_datagram(&fnf, OUR_IP, &DEST_HASH, 4),
        Some(InboundReaskMessage::FileNotFound)
    );
}

#[test]
fn callback_udp_is_always_plaintext() {
    let buddy = Ed2kHash::from_bytes([0x55; 16]);
    let datagram = build_reask_callback_udp_datagram(&buddy, &file_hash(), None, 2, 4);
    assert_eq!(datagram[0], OP_EMULEPROT);
    assert_eq!(datagram[1], OP_REASKCALLBACKUDP);
    let msg = parse_inbound_reask_datagram(&datagram, OUR_IP, &[0u8; 16], 4).unwrap();
    match msg {
        InboundReaskMessage::CallbackUdp(cb) => {
            assert_eq!(cb.buddy_id, buddy);
            assert_eq!(cb.file_hash, file_hash());
        }
        other => panic!("expected CallbackUdp, got {other:?}"),
    }
}

#[test]
fn direct_callback_request_round_trips_obfuscated() {
    let datagram =
        build_direct_callback_req_datagram(4662, &[0x5A; 16], 1, &obfuscated_target());
    assert!(datagram.obfuscated);
    assert_eq!(datagram.opcode, 0x95);
    match parse_inbound_reask_datagram(&datagram.bytes, OUR_IP, &DEST_HASH, 4) {
        Some(InboundReaskMessage::DirectCallbackReq(req)) => {
            assert_eq!(req.tcp_port, 4662);
            assert_eq!(req.user_hash, [0x5A; 16]);
            assert_eq!(req.connect_options, 1);
        }
        other => panic!("expected DirectCallbackReq, got {other:?}"),
    }
}

#[test]
fn framed_packet_holds_marker_opcode_and_body() {
    let plain = frame_packet_with(0x91, &[7, 0], &plaintext_target(), 1, 2);
    assert_eq!(plain.bytes, vec![0xC5, 0x91, 7, 0]);
    let hidden = frame_packet_with(0x91, &[7, 0], &obfuscated_target(), 1, 2);
    assert_eq!(
        hidden.bytes,
        obfuscate_client_udp_with(&DEST_HASH, OUR_IP, &[0xC5, 0x91, 7, 0], 1, 2)
    );
    assert_eq!(hidden.payload, vec![7, 0]);
}
