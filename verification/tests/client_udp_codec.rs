use emulebb_ed2k::ed2k_client_udp::codec::{
    decode_direct_callback_req, decode_forwarded_reask, decode_part_status, decode_reask_ack,
    decode_reask_callback_udp, decode_reask_file_ping, encode_direct_callback_req,
    encode_part_status, encode_reask_ack, encode_reask_callback_udp, encode_reask_file_ping,
    ReaskError,
};
use emulebb_ed2k::ed2k_client_udp::state::{
    reask_interval, should_fall_back_to_tcp, udp_reask_eligible, FILE_REASK_TIME,
    MIN_REQUEST_TIME, UDP_MAX_QUEUE_TIME,
};
use emulebb_ed2k::ids::Ed2kHash;


fn hash() -> Ed2kHash {
    Ed2kHash::from_bytes([
        0x9e, 0xce, 0xd4, 0x7d, 0xf2, 0xed, 0xfb, 0xd7, 0x2f, 0x29, 0xf9, 0x34, 0x47, 0xd6,
        0x0b, 0x7b,
    ])
}

#[test]
fn direct_callback_req_decodes_oracle_layout() {
    let mut body = Vec::new();
    body.extend_from_slice(&4662u16.to_le_bytes());
    let user_hash = [0x5Au8; 16];
    body.extend_from_slice(&user_hash);
    body.push(0x03);
    let decoded = decode_direct_callback_req(&body).unwrap();
    assert_eq!(decoded.tcp_port, 4662);
    assert_eq!(decoded.user_hash, user_hash);
    assert_eq!(decoded.connect_options, 0x03);
}

#[test]
fn direct_callback_req_rejects_short_body() {
    assert!(decode_direct_callback_req(&[0u8; 18]).is_err());
    assert!(decode_direct_callback_req(&[]).is_err());
}

#[test]
fn codec_part_status_round_trip_lsb_first() {
    let parts = [
        true, true, false, true, false, false, false, false, false, true,
    ];
    let encoded = encode_part_status(Some(&parts));
    assert_eq!(encoded[0..2], 10u16.to_le_bytes());
    assert_eq!(encoded[2], 0b0000_1011);
    assert_eq!(encoded[3], 0b0000_0010);
    let (decoded, rest) = decode_part_status(&encoded).unwrap();
    assert_eq!(decoded.unwrap(), parts);
    assert!(rest.is_empty());
}

#[test]
fn codec_part_status_none_is_u16_zero() {
    assert_eq!(encode_part_status(None), vec![0, 0]);
    let (decoded, rest) = decode_part_status(&[0, 0, 0xAB]).unwrap();
    assert!(decoded.is_none());
    assert_eq!(rest, &[0xAB]);
}

#[test]
fn codec_reask_file_ping_v4_round_trip_with_partstatus_and_count() {
    let parts = [true, false, true];
    let body = encode_reask_file_ping(&hash(), Some(&parts), 7, 4);
    let decoded = decode_reask_file_ping(&body, 4).unwrap();
    assert_eq!(decoded.file_hash, hash());
    assert_eq!(decoded.part_status.unwrap(), parts);
    assert_eq!(decoded.complete_source_count, Some(7));
}

#[test]
fn codec_reask_file_ping_v2_has_count_but_no_partstatus() {
    let body = encode_reask_file_ping(&hash(), Some(&[true]), 2, 3);
    assert_eq!(body.len(), 16 + 2);
    let decoded = decode_reask_file_ping(&body, 3).unwrap();
    assert!(decoded.part_status.is_none());
    assert_eq!(decoded.complete_source_count, Some(2));
}

#[test]
fn codec_reask_file_ping_v1_is_hash_only() {
    let body = encode_reask_file_ping(&hash(), Some(&[true]), 9, 2);
    assert_eq!(body.len(), 16);
    let decoded = decode_reask_file_ping(&body, 2).unwrap();
    assert!(decoded.part_status.is_none());
    assert!(decoded.complete_source_count.is_none());
}

#[test]
fn codec_reask_ack_v4_round_trip() {
    let parts = [false, true, true, false, true];
    let body = encode_reask_ack(Some(&parts), 42, 4);
    let decoded = decode_reask_ack(&body, 4).unwrap();
    assert_eq!(decoded.part_status.unwrap(), parts);
    assert_eq!(decoded.queue_position, 42);
}

#[test]
fn codec_reask_ack_low_version_is_position_only() {
    let body = encode_reask_ack(Some(&[true]), 5, 3);
    assert_eq!(body, 5u16.to_le_bytes());
    let decoded = decode_reask_ack(&body, 3).unwrap();
    assert!(decoded.part_status.is_none());
    assert_eq!(decoded.queue_position, 5);
}

#[test]
fn codec_short_bodies_are_rejected() {
    assert!(decode_reask_file_ping(&[0u8; 4], 4).is_err());
    assert!(decode_reask_ack(&[], 2).is_err());
    assert!(decode_part_status(&[1]).is_err());
    assert!(decode_reask_callback_udp(&[0u8; 20], 4).is_err());
}

fn buddy() -> Ed2kHash {
    Ed2kHash::from_bytes([
        0x11, 0x22, 0x33, 0x44, 0x55, 0x66, 0x77, 0x88, 0x99, 0xAA, 0xBB, 0xCC, 0xDD, 0xEE,
        0xFF, 0x00,
    ])
}

#[test]
fn reask_callback_udp_v4_round_trip_prepends_buddy_id() {
    let parts = [true, false, false, true];
    let body = encode_reask_callback_udp(&buddy(), &hash(), Some(&parts), 5, 4);
    assert_eq!(&body[..16], &buddy().0);
    assert_eq!(&body[16..32], &hash().0);
    let decoded = decode_reask_callback_udp(&body, 4).unwrap();
    assert_eq!(decoded.buddy_id, buddy());
    assert_eq!(decoded.file_hash, hash());
    assert_eq!(decoded.part_status.unwrap(), parts);
    assert_eq!(decoded.complete_source_count, Some(5));
}

#[test]
fn reask_callback_udp_low_version_is_two_hashes_only() {
    let body = encode_reask_callback_udp(&buddy(), &hash(), Some(&[true]), 9, 2);
    assert_eq!(body.len(), 32);
    let decoded = decode_reask_callback_udp(&body, 2).unwrap();
    assert_eq!(decoded.buddy_id, buddy());
    assert_eq!(decoded.file_hash, hash());
    assert!(decoded.part_status.is_none());
    assert!(decoded.complete_source_count.is_none());
}



#[test]
fn ed2k_client_udp_part_status_round_trip_lsb_first() {
    let parts = [true, true, false, true, false, false, false, false, false, true];
    let encoded = encode_part_status(Some(&parts));
    assert_eq!(encoded[0..2], 10u16.to_le_bytes());
    assert_eq!(encoded[2], 0b0000_1011);
    assert_eq!(encoded[3], 0b0000_0010);
    let (decoded, rest) = decode_part_status(&encoded).unwrap();
    assert_eq!(decoded.unwrap(), parts);
    assert!(rest.is_empty());
}

#[test]
fn ed2k_client_udp_part_status_none_is_u16_zero() {
    assert_eq!(encode_part_status(None), vec![0, 0]);
    let (decoded, rest) = decode_part_status(&[0, 0, 0xAB]).unwrap();
    assert!(decoded.is_none());
    assert_eq!(rest, &[0xAB]);
}

#[test]
fn ed2k_client_udp_reask_file_ping_v4_round_trip_with_partstatus_and_count() {
    let parts = [true, false, true];
    let body = encode_reask_file_ping(&hash(), Some(&parts), 7, 4);
    let decoded = decode_reask_file_ping(&body, 4).unwrap();
    assert_eq!(decoded.file_hash, hash());
    assert_eq!(decoded.part_status.unwrap(), parts);
    assert_eq!(decoded.complete_source_count, Some(7));
}

#[test]
fn ed2k_client_udp_reask_file_ping_v2_has_count_but_no_partstatus() {
    let body = encode_reask_file_ping(&hash(), Some(&[true]), 2, 3);
    assert_eq!(body.len(), 16 + 2);
    let decoded = decode_reask_file_ping(&body, 3).unwrap();
    assert!(decoded.part_status.is_none());
    assert_eq!(decoded.complete_source_count, Some(2));
}

#[test]
fn ed2k_client_udp_reask_file_ping_v1_is_hash_only() {
    let body = encode_reask_file_ping(&hash(), Some(&[true]), 9, 2);
    assert_eq!(body.len(), 16);
    let decoded = decode_reask_file_ping(&body, 2).unwrap();
    assert!(decoded.part_status.is_none());
    assert!(decoded.complete_source_count.is_none());
}

#[test]
fn ed2k_client_udp_reask_ack_v4_round_trip() {
    let parts = [false, true, true, false, true];
    let body = encode_reask_ack(Some(&parts), 42, 4);
    let decoded = decode_reask_ack(&body, 4).unwrap();
    assert_eq!(decoded.part_status.unwrap(), parts);
    assert_eq!(decoded.queue_position, 42);
}

#[test]
fn ed2k_client_udp_reask_ack_low_version_is_position_only() {
    let body = encode_reask_ack(Some(&[true]), 5, 3);
    assert_eq!(body, 5u16.to_le_bytes());
    let decoded = decode_reask_ack(&body, 3).unwrap();
    assert!(decoded.part_status.is_none());
    assert_eq!(decoded.queue_position, 5);
}

#[test]
fn ed2k_client_udp_short_bodies_are_rejected() {
    assert!(decode_reask_file_ping(&[0u8; 4], 4).is_err());
    assert!(decode_reask_ack(&[], 2).is_err());
    assert!(decode_part_status(&[1]).is_err());
}

#[test]
fn ed2k_client_udp_reask_interval_doubles_for_no_needed_parts() {
    assert_eq!(reask_interval(false), FILE_REASK_TIME);
    assert_eq!(reask_interval(true), FILE_REASK_TIME * 2);
    assert!(reask_interval(false) >= MIN_REQUEST_TIME);
}

#[test]
fn ed2k_client_udp_udp_eligibility_requires_all_preconditions() {
    assert!(udp_reask_eligible(4672, 4, true, false, false, false));
    assert!(!udp_reask_eligible(0, 4, true, false, false, false));
    assert!(!udp_reask_eligible(4672, 0, true, false, false, false));
    assert!(!udp_reask_eligible(4672, 4, false, false, false, false));
    assert!(!udp_reask_eligible(4672, 4, true, true, false, false));
    assert!(!udp_reask_eligible(4672, 4, true, false, true, false));
    assert!(!udp_reask_eligible(4672, 4, true, false, false, true));
}

#[test]
fn ed2k_client_udp_failure_ratio_backoff_threshold() {
    assert!(!should_fall_back_to_tcp(0, 0));
    assert!(!should_fall_back_to_tcp(3, 3));
    assert!(!should_fall_back_to_tcp(10, 3));
    assert!(should_fall_back_to_tcp(10, 4));
    assert!(should_fall_back_to_tcp(4, 2));
}

#[test]
fn direct_callback_req_reads_back() {
    let body = encode_direct_callback_req(4662, &[0x5A; 16], 3);
    assert_eq!(body.len(), 19);
    let decoded = decode_direct_callback_req(&body).unwrap();
    assert_eq!((decoded.tcp_port, decoded.user_hash, decoded.connect_options), (4662, [0x5A; 16], 3));
}

#[test]
fn forwarded_reask_keeps_the_tail_as_it_came() {
    let mut body = [0x11u8; 16].to_vec();
    body.extend_from_slice(&[0xAB; 16]);
    body.extend_from_slice(&[0xDE, 0xAD]);
    let forwarded = decode_forwarded_reask(&body).unwrap();
    assert_eq!(forwarded.buddy_id, Ed2kHash::from_bytes([0x11; 16]));
    assert_eq!(forwarded.file_hash, Ed2kHash::from_bytes([0xAB; 16]));
    assert_eq!(forwarded.forwarded_tail, body[16..].to_vec());
    assert_eq!(decode_forwarded_reask(&body[..31]), Err(ReaskError::ShortCallback));
}

#[test]
fn each_short_body_says_what_is_missing() {
    assert_eq!(decode_part_status(&[1]), Err(ReaskError::ShortPartStatusHeader));
    assert_eq!(decode_part_status(&[9, 0, 0xFF]), Err(ReaskError::ShortPartStatus));
    assert_eq!(decode_reask_file_ping(&[0; 15], 2), Err(ReaskError::ShortFilePing));
    assert_eq!(decode_reask_file_ping(&[0; 17], 3), Err(ReaskError::ShortCompleteSourceCount));
    assert_eq!(decode_reask_ack(&[0], 3), Err(ReaskError::ShortQueuePosition));
    assert_eq!(decode_reask_callback_udp(&[0; 31], 2), Err(ReaskError::ShortCallback));
    assert_eq!(decode_direct_callback_req(&[0; 18]), Err(ReaskError::ShortDirectCallback));
}

#[test]
fn an_empty_part_status_reads_back_as_none() {
    let encoded = encode_part_status(Some(&[]));
    assert_eq!(encoded, vec![0, 0]);
    assert_eq!(decode_part_status(&encoded).unwrap().0, None);
    {
        let parts = vec![true; 65_537];
        let encoded = encode_part_status(Some(&parts));
        assert_eq!(&encoded[..2], &[0xFF, 0xFF]);
        assert_eq!(encoded.len(), 2 + 8_193);
        assert_eq!(*encoded.last().unwrap(), 1);
    }
}
