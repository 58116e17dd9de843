use emulebb_ed2k::ed2k_client_udp::codec::{
    decode_reask_file_ping, encode_reask_file_ping, OP_REASKFILEPING,
};
use emulebb_ed2k::ed2k_client_udp_obfuscation::{
    classify_inbound_client_udp, deobfuscate_client_udp, is_reserved_protocol_marker,
    obfuscate_client_udp, obfuscate_client_udp_with, sanitize_ed2k_marker, InboundUdpDecision,
    CRYPT_HEADER_SIZE, ED2K_MARKER_BIT, MAGICVALUE_UDP_SYNC_CLIENT, OP_EDONKEYPROT, OP_EMULEPROT,
    OP_KADEMLIAHEADER, OP_KADEMLIAPACKEDPROT, OP_PACKEDPROT, OP_UDPRESERVEDPROT1,
    OP_UDPRESERVEDPROT2,
};
use emulebb_ed2k::ids::Ed2kHash;

const DEST_HASH: [u8; 16] = [
    0x01, 0x02, 0x03, 0x04, 0x05, 0x06, 0x07, 0x08, 0x09, 0x0A, 0x0B, 0x0C, 0x0D, 0x0E, 0x0F,
    0x10,
];
const SENDER_IP: [u8; 4] = [203, 0, 113, 7];

#[test]
fn roundtrip_recovers_plaintext() {
    let plaintext = b"\xC5\x90reask-file-ping-payload";
    let datagram = obfuscate_client_udp_with(&DEST_HASH, SENDER_IP, plaintext, 0xBEEF, 0x42);
    let recovered = deobfuscate_client_udp(&DEST_HASH, SENDER_IP, &datagram)
        .expect("packet should decrypt under the shared key");
    assert_eq!(recovered, plaintext);
}

#[test]
fn obfuscated_header_keeps_marker_and_random_part_in_clear() {
    let datagram = obfuscate_client_udp_with(&DEST_HASH, SENDER_IP, b"payload", 0x1234, 0x40);
    assert_eq!(datagram[0] & ED2K_MARKER_BIT, ED2K_MARKER_BIT);
    assert!(!is_reserved_protocol_marker(datagram[0]));
    assert_eq!(u16::from_le_bytes([datagram[1], datagram[2]]), 0x1234);
    assert_ne!(
        u32::from_le_bytes([datagram[3], datagram[4], datagram[5], datagram[6]]),
        MAGICVALUE_UDP_SYNC_CLIENT
    );
    assert_eq!(datagram.len(), CRYPT_HEADER_SIZE + "payload".len());
}

#[test]
fn wrong_hash_does_not_decrypt() {
    let datagram = obfuscate_client_udp_with(&DEST_HASH, SENDER_IP, b"secret", 0x7777, 0x44);
    let mut other_hash = DEST_HASH;
    other_hash[0] ^= 0xFF;
    assert!(deobfuscate_client_udp(&other_hash, SENDER_IP, &datagram).is_none());
}

#[test]
fn wrong_sender_ip_does_not_decrypt() {
    let datagram = obfuscate_client_udp_with(&DEST_HASH, SENDER_IP, b"secret", 0x7777, 0x44);
    assert!(deobfuscate_client_udp(&DEST_HASH, [198, 51, 100, 9], &datagram).is_none());
}

#[test]
fn reserved_protocol_marker_is_passed_through() {
    let mut datagram = vec![OP_EMULEPROT, 0x00, 0x00, 1, 2, 3, 4, 5, 6, 7];
    assert!(deobfuscate_client_udp(&DEST_HASH, SENDER_IP, &datagram).is_none());
    datagram[0] = OP_KADEMLIAHEADER;
    assert!(deobfuscate_client_udp(&DEST_HASH, SENDER_IP, &datagram).is_none());
}

#[test]
fn short_datagram_is_not_treated_as_encrypted() {
    let datagram = [0x01u8; CRYPT_HEADER_SIZE]; // exactly header-sized => no payload
    assert!(deobfuscate_client_udp(&DEST_HASH, SENDER_IP, &datagram).is_none());
}

#[test]
fn sanitize_marker_sets_ed2k_bit_and_avoids_reserved() {
    assert_eq!(
        sanitize_ed2k_marker(0x40) & ED2K_MARKER_BIT,
        ED2K_MARKER_BIT
    );
    for reserved in [
        OP_EMULEPROT,
        OP_KADEMLIAPACKEDPROT,
        OP_KADEMLIAHEADER,
        OP_UDPRESERVEDPROT1,
        OP_UDPRESERVEDPROT2,
        OP_PACKEDPROT,
    ] {
        let marker = sanitize_ed2k_marker(reserved);
        assert!(!is_reserved_protocol_marker(marker));
        assert_eq!(marker & ED2K_MARKER_BIT, ED2K_MARKER_BIT);
    }
}

#[test]
fn classify_reserved_markers_are_plaintext() {
    for reserved in [
        OP_EMULEPROT,
        OP_KADEMLIAPACKEDPROT,
        OP_KADEMLIAHEADER,
        OP_UDPRESERVEDPROT1,
        OP_UDPRESERVEDPROT2,
        OP_PACKEDPROT,
    ] {
        assert_eq!(
            classify_inbound_client_udp(reserved, true),
            InboundUdpDecision::Plaintext
        );
    }
    assert_eq!(
        classify_inbound_client_udp(OP_EDONKEYPROT, true),
        InboundUdpDecision::TryEd2kClientFirst
    );
}

#[test]
fn classify_ed2k_bit_prefers_ed2k_when_kad_active() {
    assert_eq!(
        classify_inbound_client_udp(0x43, true),
        InboundUdpDecision::TryEd2kClientFirst
    );
    assert_eq!(
        classify_inbound_client_udp(0x42, true),
        InboundUdpDecision::TryKadFirst
    );
}

#[test]
fn classify_forces_ed2k_when_kad_inactive() {
    assert_eq!(
        classify_inbound_client_udp(0x42, false),
        InboundUdpDecision::TryEd2kClientFirst
    );
    assert_eq!(
        classify_inbound_client_udp(0x43, false),
        InboundUdpDecision::TryEd2kClientFirst
    );
    assert_eq!(
        classify_inbound_client_udp(OP_EMULEPROT, false),
        InboundUdpDecision::Plaintext
    );
}

#[test]
fn marker_and_random_part_do_not_affect_payload_recovery() {
    let plaintext = b"another-reask-ack";
    for (rkp, marker) in [(0x0000u16, 0x00u8), (0xFFFF, 0xFE), (0x8001, 0x80)] {
        let datagram = obfuscate_client_udp_with(&DEST_HASH, SENDER_IP, plaintext, rkp, marker);
        let recovered =
            deobfuscate_client_udp(&DEST_HASH, SENDER_IP, &datagram).expect("round-trip");
        assert_eq!(recovered, plaintext);
    }
}

#[test]
fn full_reask_obfuscation_pipeline_round_trips() {
    let file_hash = Ed2kHash::from_bytes([
        0xAA, 0xBB, 0xCC, 0xDD, 0xEE, 0xFF, 0x00, 0x11, 0x22, 0x33, 0x44, 0x55, 0x66, 0x77,
        0x88, 0x99,
    ]);
    let parts = [true, false, true, true, false];
    let udp_version = 4;

    let body = encode_reask_file_ping(&file_hash, Some(&parts), 3, udp_version);
    let mut frame = vec![OP_EMULEPROT, OP_REASKFILEPING];
    frame.extend_from_slice(&body);

    let datagram = obfuscate_client_udp_with(&DEST_HASH, SENDER_IP, &frame, 0x1357, 0x40);

    assert_eq!(
        classify_inbound_client_udp(datagram[0], true),
        InboundUdpDecision::TryEd2kClientFirst
    );

    let recovered_frame = deobfuscate_client_udp(&DEST_HASH, SENDER_IP, &datagram)
        .expect("pipeline should decrypt");
    assert_eq!(recovered_frame, frame);

    assert_eq!(recovered_frame[0], OP_EMULEPROT);
    assert_eq!(recovered_frame[1], OP_REASKFILEPING);
    let decoded = decode_reask_file_ping(&recovered_frame[2..], udp_version).unwrap();
    assert_eq!(decoded.file_hash, file_hash);
    assert_eq!(decoded.part_status.unwrap(), parts);
    assert_eq!(decoded.complete_source_count, Some(3));
}

#[test]
fn randomly_keyed_datagram_round_trips() {
    let plaintext = b"some packet";
    let first = obfuscate_client_udp(&DEST_HASH, SENDER_IP, plaintext);
    assert_ne!(&first[CRYPT_HEADER_SIZE..], &plaintext[..]);
    assert_eq!(
        deobfuscate_client_udp(&DEST_HASH, SENDER_IP, &first).as_deref(),
        Some(&plaintext[..])
    );
}

#[test]
fn key_is_the_digest_of_hash_address_magic_and_key_part() {
    let mut material = DEST_HASH.to_vec();
    material.extend_from_slice(&SENDER_IP);
    material.push(91);
    material.extend_from_slice(&0x1234u16.to_le_bytes());
    let key = md5::compute(&material).0;
    let mut state: Vec<u8> = (0..=255).collect();
    let mut j = 0usize;
    for i in 0..256 {
        j = (j + state[i] as usize + key[i % 16] as usize) % 256;
        state.swap(i, j);
    }
    let datagram = obfuscate_client_udp_with(&DEST_HASH, SENDER_IP, b"x", 0x1234, 0x40);
    let (mut a, mut b) = (0usize, 0usize);
    let mut inner = Vec::new();
    for &byte in &datagram[3..] {
        a = (a + 1) % 256;
        b = (b + state[a] as usize) % 256;
        state.swap(a, b);
        inner.push(byte ^ state[(state[a] as usize + state[b] as usize) % 256]);
    }
    assert_eq!(&inner[..4], &MAGICVALUE_UDP_SYNC_CLIENT.to_le_bytes());
    assert_eq!(inner[4], 0);
    assert_eq!(&inner[5..], b"x");
}
