use emulebb_ed2k::addr::{Ipv4Addr, SocketAddrV4};
use emulebb_ed2k::ed2k_server::diagnostics::{
    capped_payload_hex, ed2k_server_state_id, ed2k_server_trace_key, normalized_direction,
    server_opcode_name, ED2K_SERVER_DUMP_FILE_PREFIX, MAX_SERVER_DUMP_HEX_BYTES,
};
use emulebb_ed2k::ed2k_server::flags::{format_connect_options, format_server_flags, is_low_id};
use emulebb_ed2k::ed2k_server::packet_codec::{
    accept_inflated, decode_packet_header, decode_server_payload, encode_packet,
    encode_packet_with, server_opcode_allows_compression, PacketError, MAX_ED2K_PACKET_LEN,
};
use emulebb_ed2k::ed2k_server::result_decoder::{
    decode_found_sources, decode_search_result_page, decode_search_results,
    decode_udp_found_source_sets, decode_udp_search_result_pages, ResultError,
};
use emulebb_ed2k::ed2k_server::search_expr::{
    encode_numeric_meta_node, encode_search_request, encode_search_request_with_criteria,
    parse_search_expression, wire_file_type, SearchCriteria, SearchError, SearchExprNode,
    ED2K_SEARCH_OP_GREATER_EQUAL, ED2K_SEARCH_OP_LESS_EQUAL, FT_COMPLETE_SOURCES,
};
use emulebb_ed2k::ed2k_server::server_description::{
    decode_server_description_response, server_description_challenge, DescriptionError,
};
use emulebb_ed2k::ed2k_server::server_events::{decode_server_list, MAX_SERVERS_FROM_ONE_LIST};
use emulebb_ed2k::ed2k_server::server_met::{
    parse_server_met, MetError, MAX_MET_ENTRIES, MET_HEADER, MET_HEADER_WITH_LARGEFILES,
    TAG_SERVER_NAME,
};
use emulebb_ed2k::ed2k_server::server_status::{
    decode_server_status_response, server_status_challenge, status_ping_due_at,
    UDP_SERV_STAT_MIN_REASK_TIME, UDP_SERV_STAT_REASK_TIME,
};
use emulebb_ed2k::ed2k_server::tag_codec::{
    decode_tag, decode_tag_value, push_short_int_tag, push_short_string_tag, push_short_u32_tag,
    push_string_tag, push_u32_tag, DecodedTagValue, TagError,
};
use emulebb_ed2k::ed2k_server::{
    FT_FILENAME, FT_FILESIZE, FT_FILESIZE_HI, FT_FILETYPE, FT_SOURCES,
    MAX_SERVER_DECOMPRESSED_PACKET_LEN, OP_CALLBACKREQUEST, OP_EDONKEYPROT, OP_GLOBFOUNDSOURCES,
    OP_GLOBSEARCHREQ, OP_GLOBSEARCHREQ2, OP_GLOBSEARCHREQ3, OP_GLOBSEARCHRES, OP_OFFERFILES,
    OP_PACKEDPROT, OP_SEARCHREQUEST, SOURCE_OBFUSCATION_USER_HASH_PRESENT, ST_DESCRIPTION,
    ST_SERVERNAME,
};

const NOW: u64 = 1_000_000;
const SECOND: u64 = 1_000;

#[test]
fn server_dump_prefix_uses_emulebb_rust_name() {
    assert_eq!(
        ED2K_SERVER_DUMP_FILE_PREFIX,
        "emulebb-rust-ed2k-server-dump-"
    );
}

#[test]
fn server_dump_names_global_udp_opcodes() {
    assert_eq!(server_opcode_name(OP_CALLBACKREQUEST), "OP_CALLBACKREQUEST");
    assert_eq!(server_opcode_name(OP_GLOBSEARCHREQ), "OP_GLOBSEARCHREQ");
    assert_eq!(server_opcode_name(OP_GLOBSEARCHREQ2), "OP_GLOBSEARCHREQ2");
    assert_eq!(server_opcode_name(OP_GLOBSEARCHREQ3), "OP_GLOBSEARCHREQ3");
    assert_eq!(server_opcode_name(OP_GLOBSEARCHRES), "OP_GLOBSEARCHRES");
    assert_eq!(
        server_opcode_name(OP_GLOBFOUNDSOURCES),
        "OP_GLOBFOUNDSOURCES"
    );
}

#[test]
fn huge_search_count_does_not_over_allocate() {
    let payload = [0xFFu8, 0xFF, 0xFF, 0xFF];
    let result = decode_search_result_page(&payload);
    assert!(
        result.is_err(),
        "tiny payload with a bogus count must error, not panic/abort"
    );
}

#[test]
fn legitimate_search_count_still_decodes() {
    let mut payload = Vec::new();
    payload.extend_from_slice(&1u32.to_le_bytes()); // count
    payload.extend_from_slice(&[0u8; 16]); // file hash
    payload.extend_from_slice(&[0u8; 4]); // client id
    payload.extend_from_slice(&[0u8; 2]); // port
    payload.extend_from_slice(&1u32.to_le_bytes()); // tag count = 1
    push_short_string_tag(&mut payload, FT_FILENAME, "a.txt"); // one filename tag
    payload.push(0x00); // more-results marker

    let page = decode_search_result_page(&payload).expect("legitimate page decodes");
    assert_eq!(page.files.len(), 1);
    assert_eq!(page.files[0].file_name.as_deref(), Some("a.txt"));
}

fn kw(term: &str) -> Vec<u8> {
    let mut v = vec![1u8];
    v.extend_from_slice(&(term.len() as u16).to_le_bytes());
    v.extend_from_slice(term.as_bytes());
    v
}

#[test]
fn empty_criteria_is_keyword_only() {
    let only_kw = encode_search_request("linux").unwrap();
    let via_criteria =
        encode_search_request_with_criteria("linux", &SearchCriteria::default()).unwrap();
    assert_eq!(only_kw, kw("linux"));
    assert_eq!(via_criteria, only_kw);
}

#[test]
fn keyword_and_type_matches_oracle_node_layout() {
    let criteria = SearchCriteria {
        file_type: Some("Video".to_string()),
        ..SearchCriteria::default()
    };
    let got = encode_search_request_with_criteria("linux", &criteria).unwrap();
    let mut want = vec![0u8, 0x00];
    want.extend_from_slice(&kw("linux"));
    want.extend_from_slice(&[2, 5, 0]);
    want.extend_from_slice(b"Video");
    want.extend_from_slice(&[1, 0, FT_FILETYPE]);
    assert_eq!(got, want);
}

#[test]
fn keyword_and_min_max_size_fold_as_and_chain() {
    let criteria = SearchCriteria {
        min_size: Some(1000),
        max_size: Some(2000),
        ..SearchCriteria::default()
    };
    let got = encode_search_request_with_criteria("iso", &criteria).unwrap();
    let mut want = vec![0u8, 0x00];
    want.extend_from_slice(&kw("iso"));
    want.extend_from_slice(&[0, 0x00]); // inner AND
    want.push(3);
    want.extend_from_slice(&1000u32.to_le_bytes());
    want.extend_from_slice(&[ED2K_SEARCH_OP_GREATER_EQUAL, 1, 0, FT_FILESIZE]);
    want.push(3);
    want.extend_from_slice(&2000u32.to_le_bytes());
    want.extend_from_slice(&[ED2K_SEARCH_OP_LESS_EQUAL, 1, 0, FT_FILESIZE]);
    assert_eq!(got, want);
}

#[test]
fn multi_constraint_fold_uses_oracle_reversed_leaf_order() {
    let criteria = SearchCriteria {
        file_type: Some("Video".to_string()),
        min_complete_sources: Some(5),
        ..SearchCriteria::default()
    };
    let got = encode_search_request_with_criteria("iso", &criteria).unwrap();

    let mut want = vec![0u8, 0x00];
    want.extend_from_slice(&kw("iso"));
    want.extend_from_slice(&[0, 0x00]); // inner AND joining the two constraints
    want.push(3);
    want.extend_from_slice(&5u32.to_le_bytes());
    want.extend_from_slice(&[ED2K_SEARCH_OP_GREATER_EQUAL, 1, 0, FT_COMPLETE_SOURCES]);
    want.extend_from_slice(&[2, 5, 0]);
    want.extend_from_slice(b"Video");
    want.extend_from_slice(&[1, 0, FT_FILETYPE]);
    assert_eq!(got, want);
}

#[test]
fn over_complex_expression_is_refused() {
    let too_complex = (0..12)
        .map(|i| format!("t{i}"))
        .collect::<Vec<_>>()
        .join(" OR ");
    assert!(encode_search_request(&too_complex).is_err());

    let at_limit = (0..11)
        .map(|i| format!("t{i}"))
        .collect::<Vec<_>>()
        .join(" OR ");
    assert!(encode_search_request(&at_limit).is_ok());

    let too_many_words = (0..12)
        .map(|i| format!("w{i}"))
        .collect::<Vec<_>>()
        .join(" ");
    assert!(encode_search_request(&too_many_words).is_err());
}

#[test]
fn metatag_constraints_do_not_count_toward_complexity_cap() {
    let eight_words = (0..8)
        .map(|i| format!("w{i}"))
        .collect::<Vec<_>>()
        .join(" ");
    let criteria = SearchCriteria {
        file_type: Some("Video".to_string()),
        min_size: Some(1000),
        max_size: Some(2_000_000),
        min_availability: Some(5),
        ..SearchCriteria::default()
    };
    let encoded = encode_search_request_with_criteria(&eight_words, &criteria)
        .expect("8 keyword operators + 4 constraints must encode (constraints do not count)");
    assert!(!encoded.is_empty());

    let eleven_words = (0..11)
        .map(|i| format!("k{i}"))
        .collect::<Vec<_>>()
        .join(" ");
    let full = SearchCriteria {
        file_type: Some("Pro".to_string()),
        extension: Some("iso".to_string()),
        min_size: Some(1),
        max_size: Some(9_000_000),
        min_availability: Some(2),
        min_complete_sources: Some(1),
    };
    assert!(encode_search_request_with_criteria(&eleven_words, &full).is_ok());

    let twelve_words = (0..12)
        .map(|i| format!("k{i}"))
        .collect::<Vec<_>>()
        .join(" ");
    assert!(encode_search_request_with_criteria(&twelve_words, &full).is_err());
}

#[test]
fn internal_archive_iso_types_map_to_pro() {
    assert_eq!(wire_file_type("Arc").as_deref(), Some("Pro"));
    assert_eq!(wire_file_type("Iso").as_deref(), Some("Pro"));
    assert_eq!(wire_file_type("Video").as_deref(), Some("Video"));
    assert_eq!(wire_file_type("").as_deref(), None);
}

#[test]
fn large_size_uses_64bit_numeric_form() {
    let big = u64::from(u32::MAX) + 1;
    let node = encode_numeric_meta_node(FT_FILESIZE, ED2K_SEARCH_OP_GREATER_EQUAL, big);
    assert_eq!(
        node[0], 8,
        "values > u32 must use the 64-bit (0x08) numeric form"
    );
}

#[test]
fn challenge_has_the_invalid_legacy_length_prefix() {
    for _ in 0..32 {
        assert_eq!(server_description_challenge() as u16, 0xF0FF);
    }
}

#[test]
fn decodes_challenge_tag_response_and_rejects_mismatch() {
    let challenge = 0x1234_F0FFu32;
    let mut payload = challenge.to_le_bytes().to_vec();
    payload.extend_from_slice(&2u32.to_le_bytes());
    push_string_tag(&mut payload, ST_SERVERNAME, "Example Server");
    push_string_tag(&mut payload, ST_DESCRIPTION, "Example Description");

    let decoded = decode_server_description_response(&payload, challenge)
        .unwrap()
        .expect("matching challenge");
    assert_eq!(decoded.name.as_deref(), Some("Example Server"));
    assert_eq!(decoded.description.as_deref(), Some("Example Description"));
    assert!(
        decode_server_description_response(&payload, 0x5678_F0FF)
            .unwrap()
            .is_none()
    );
}

#[test]
fn decodes_legacy_string_response() {
    let mut payload = Vec::new();
    payload.extend_from_slice(&6u16.to_le_bytes());
    payload.extend_from_slice(b"Server");
    payload.extend_from_slice(&11u16.to_le_bytes());
    payload.extend_from_slice(b"Description");

    let decoded = decode_server_description_response(&payload, 0)
        .unwrap()
        .expect("legacy response");
    assert_eq!(decoded.name.as_deref(), Some("Server"));
    assert_eq!(decoded.description.as_deref(), Some("Description"));
}

fn entry(ip: [u8; 4], port: u16) -> Vec<u8> {
    let mut bytes = ip.to_vec();
    bytes.extend_from_slice(&port.to_le_bytes());
    bytes
}

#[test]
fn decodes_count_and_entries() {
    let mut body = vec![2u8];
    body.extend(entry([45, 82, 80, 155], 5687));
    body.extend(entry([203, 0, 113, 9], 4661));
    let servers = decode_server_list(&body);
    assert_eq!(
        servers,
        vec![
            (Ipv4Addr::new(45, 82, 80, 155), 5687),
            (Ipv4Addr::new(203, 0, 113, 9), 4661),
        ]
    );
}

#[test]
fn dedupes_within_one_body() {
    let mut body = vec![3u8];
    body.extend(entry([45, 82, 80, 155], 5687));
    body.extend(entry([45, 82, 80, 155], 5687));
    body.extend(entry([1, 2, 3, 4], 4242));
    let servers = decode_server_list(&body);
    assert_eq!(servers.len(), 2);
    assert_eq!(servers[0], (Ipv4Addr::new(45, 82, 80, 155), 5687));
    assert_eq!(servers[1], (Ipv4Addr::new(1, 2, 3, 4), 4242));
}

#[test]
fn skips_zero_port_and_unspecified() {
    let mut body = vec![2u8];
    body.extend(entry([45, 82, 80, 155], 0)); // zero port
    body.extend(entry([0, 0, 0, 0], 4661)); // unspecified ip
    assert!(decode_server_list(&body).is_empty());
}

#[test]
fn rejects_count_exceeding_structural_bound() {
    let mut body = vec![5u8];
    body.extend(entry([1, 2, 3, 4], 4242));
    assert!(decode_server_list(&body).is_empty());
}

#[test]
fn empty_body_yields_nothing() {
    assert!(decode_server_list(&[]).is_empty());
    assert!(decode_server_list(&[0u8]).is_empty());
}

#[test]
fn caps_at_max_servers_from_one_list() {
    let count = MAX_SERVERS_FROM_ONE_LIST + 50;
    let declared = 255usize;
    let mut body = vec![declared as u8];
    for i in 0..declared {
        body.extend(entry(
            [10, 0, (i >> 8) as u8, (i & 0xff) as u8],
            4000 + (i as u16),
        ));
    }
    let servers = decode_server_list(&body);
    assert!(servers.len() <= MAX_SERVERS_FROM_ONE_LIST);
    assert!(servers.len() <= count);
}

fn short_string_name_tag(name: &str) -> Vec<u8> {
    let mut tag = Vec::new();
    let type_byte = 0x80 | (0x11 + (name.len() as u8 - 1)); // short-name | TAGTYPE_STR1+len-1
    tag.push(type_byte);
    tag.push(TAG_SERVER_NAME);
    tag.extend_from_slice(name.as_bytes());
    tag
}

#[test]
fn parses_ip_port_and_name() {
    let mut data = vec![MET_HEADER];
    data.extend_from_slice(&1u32.to_le_bytes()); // one server
    data.extend_from_slice(&[45, 82, 80, 155]); // ip 45.82.80.155
    data.extend_from_slice(&5687u16.to_le_bytes()); // port
    let name_tag = short_string_name_tag("Lugd");
    data.extend_from_slice(&1u32.to_le_bytes()); // tagcount
    data.extend_from_slice(&name_tag);

    let servers = parse_server_met(&data).unwrap();
    assert_eq!(servers.len(), 1);
    assert_eq!(servers[0].ip, Ipv4Addr::new(45, 82, 80, 155));
    assert_eq!(servers[0].port, 5687);
    assert_eq!(servers[0].name.as_deref(), Some("Lugd"));
}

#[test]
fn rejects_bad_version() {
    let data = [0x99u8, 0, 0, 0, 0];
    assert!(parse_server_met(&data).is_err());
}

fn body(challenge: u32, users: u32, files: u32, trailer: &[u8]) -> Vec<u8> {
    let mut payload = Vec::new();
    payload.extend_from_slice(&challenge.to_le_bytes());
    payload.extend_from_slice(&users.to_le_bytes());
    payload.extend_from_slice(&files.to_le_bytes());
    payload.extend_from_slice(trailer);
    payload
}

#[test]
fn challenge_uses_stock_prefix() {
    for _ in 0..64 {
        let challenge = server_status_challenge();
        assert_eq!(challenge & 0xFFFF_0000, 0x55AA_0000);
    }
}

#[test]
fn decode_reads_users_and_files_at_stock_offsets() {
    let challenge = 0x55AA_1234;
    let payload = body(challenge, 5000, 90000, &[]);
    let decoded =
        decode_server_status_response(&payload, challenge).expect("matching challenge");
    assert_eq!(decoded.users, 5000);
    assert_eq!(decoded.files, 90000);
    assert_eq!(decoded.udp_flags, None);
}

#[test]
fn decode_harvests_udp_flags_at_offset_24() {
    let challenge = 0x55AA_ABCD;
    let trailer = {
        let mut t = Vec::new();
        t.extend_from_slice(&7000u32.to_le_bytes()); // maxusers
        t.extend_from_slice(&1u32.to_le_bytes()); // softfiles
        t.extend_from_slice(&2u32.to_le_bytes()); // hardfiles
        t.extend_from_slice(&0x0000_0321u32.to_le_bytes()); // udpflags
        t
    };
    let payload = body(challenge, 100, 200, &trailer);
    let decoded =
        decode_server_status_response(&payload, challenge).expect("matching challenge");
    assert_eq!(decoded.users, 100);
    assert_eq!(decoded.files, 200);
    assert_eq!(decoded.udp_flags, Some(0x0000_0321));
}

#[test]
fn decode_rejects_mismatched_challenge() {
    let payload = body(0x55AA_0001, 1, 2, &[]);
    assert!(decode_server_status_response(&payload, 0x55AA_0002).is_none());
}

#[test]
fn decode_rejects_short_payload() {
    let payload = body(0x55AA_0001, 1, 2, &[]);
    assert!(decode_server_status_response(&payload[..11], 0x55AA_0001).is_none());
}

#[test]
fn status_ping_constants_match_oracle_opcodes() {
    assert_eq!(UDP_SERV_STAT_REASK_TIME, 16_200 * SECOND);
    assert_eq!(UDP_SERV_STAT_MIN_REASK_TIME, 1_200 * SECOND);
}

#[test]
fn first_status_ping_is_always_due() {
    assert!(status_ping_due_at(None, NOW));
}

fn anchored_now() -> u64 {
    NOW + UDP_SERV_STAT_REASK_TIME * 2
}

#[test]
fn status_ping_not_due_before_reask_time() {
    let now = anchored_now();
    let last = now - (UDP_SERV_STAT_REASK_TIME - 1 * SECOND);
    assert!(!status_ping_due_at(Some(last), now));
    let last_keepalive = now - 60 * SECOND;
    assert!(!status_ping_due_at(Some(last_keepalive), now));
}

#[test]
fn status_ping_due_after_reask_time() {
    let now = anchored_now();
    let last = now - UDP_SERV_STAT_REASK_TIME;
    assert!(status_ping_due_at(Some(last), now));
    let well_past = now - (UDP_SERV_STAT_REASK_TIME + 3_600 * SECOND);
    assert!(status_ping_due_at(Some(well_past), now));
}

#[test]
fn trace_of_a_packet_is_capped() {
    assert_eq!(capped_payload_hex(&[0x0A, 0xBC]), ("0abc".to_string(), false));
    let long = vec![0xEEu8; MAX_SERVER_DUMP_HEX_BYTES + 1];
    let (hex, cut) = capped_payload_hex(&long);
    assert!(cut);
    assert_eq!(hex, "ee".repeat(MAX_SERVER_DUMP_HEX_BYTES));
    assert_eq!(normalized_direction("tx"), "send");
    assert_eq!(normalized_direction("rx"), "recv");
    assert_eq!(normalized_direction("meta"), "meta");
    let endpoint = SocketAddrV4::new(Ipv4Addr::new(192, 0, 2, 1), 4661);
    assert_eq!(
        ed2k_server_trace_key("background", 7, endpoint),
        "server:background:7:192.0.2.1:4661"
    );
    assert_eq!(ed2k_server_state_id("background", "connected"), "server.background.connected");
    assert_eq!(server_opcode_name(0xFF), "UNKNOWN");
}

#[test]
fn flags_and_options_are_spelled_out() {
    assert!(is_low_id(1));
    assert!(is_low_id(0x00FF_FFFF));
    assert!(!is_low_id(0x0100_0000));
    assert_eq!(format_server_flags(0), "0x00000000");
    assert_eq!(format_server_flags(0x0000_0101), "0x00000101 [compression,large_files]");
    assert_eq!(format_connect_options(0), "0x00");
    assert_eq!(format_connect_options(3), "0x03 (supports_crypt|requests_crypt)");
}

#[test]
fn packets_are_framed_and_read_back() {
    let payload = vec![7u8; 512];
    let packet = encode_packet(OP_OFFERFILES, &payload, true).unwrap();
    assert_eq!(packet[0], OP_PACKEDPROT);
    assert!(packet.len() < payload.len());
    let (protocol, opcode, len) = decode_packet_header(&packet[..6]).unwrap();
    assert_eq!((protocol, opcode, len), (OP_PACKEDPROT, OP_OFFERFILES, packet.len() - 6));
    assert_eq!(decode_server_payload(protocol, packet[6..].to_vec()), Ok(payload));
    assert_eq!(
        encode_packet(OP_SEARCHREQUEST, &[1, 2], false),
        Ok(vec![OP_EDONKEYPROT, 3, 0, 0, 0, OP_SEARCHREQUEST, 1, 2])
    );
    assert_eq!(
        encode_packet_with(OP_SEARCHREQUEST, &[1, 2, 3], Some(vec![9])),
        Ok(vec![OP_PACKEDPROT, 2, 0, 0, 0, OP_SEARCHREQUEST, 9])
    );
    assert_eq!(
        encode_packet_with(OP_SEARCHREQUEST, &[1], Some(vec![9])),
        Ok(vec![OP_EDONKEYPROT, 2, 0, 0, 0, OP_SEARCHREQUEST, 1])
    );
    assert!(server_opcode_allows_compression(OP_OFFERFILES));
    assert!(!server_opcode_allows_compression(OP_SEARCHREQUEST));
}

#[test]
fn bad_packets_are_refused() {
    assert_eq!(
        decode_packet_header(&[0xC5, 1, 0, 0, 0, 1]),
        Err(PacketError::UnsupportedProtocol(0xC5))
    );
    assert_eq!(decode_packet_header(&[0xE3, 0, 0, 0, 0, 1]), Err(PacketError::ZeroLength));
    let len = (MAX_ED2K_PACKET_LEN + 2) as u32;
    let mut header = vec![0xE3];
    header.extend_from_slice(&len.to_le_bytes());
    header.push(1);
    assert!(matches!(decode_packet_header(&header), Err(PacketError::Oversized(_))));
    assert_eq!(
        decode_server_payload(OP_PACKEDPROT, vec![1, 2, 3]),
        Err(PacketError::InflateFailed)
    );
    let bomb = vec![0u8; MAX_SERVER_DECOMPRESSED_PACKET_LEN + 1];
    let packed = encode_packet(OP_OFFERFILES, &bomb, true).unwrap();
    assert_eq!(
        decode_server_payload(OP_PACKEDPROT, packed[6..].to_vec()),
        Err(PacketError::DecompressedTooLarge)
    );
    assert_eq!(accept_inflated(Some(vec![5])), Ok(vec![5]));
    assert_eq!(accept_inflated(None), Err(PacketError::InflateFailed));
}

#[test]
fn tags_read_back() {
    let mut bytes = Vec::new();
    push_u32_tag(&mut bytes, 0x11, 60);
    push_short_u32_tag(&mut bytes, 0x20, 0x0102_0304);
    push_short_int_tag(&mut bytes, 0x02, u64::from(u32::MAX) + 1);
    push_string_tag(&mut bytes, 0x01, "n\u{e4}me");
    push_short_string_tag(&mut bytes, 0x01, "a rather long file name.bin");
    let (name, value, rest) = decode_tag_value(&bytes).unwrap();
    assert_eq!((name, value), (Some(0x11), Some(DecodedTagValue::Unsigned(60))));
    let (name, value, rest) = decode_tag_value(rest).unwrap();
    assert_eq!((name, value), (Some(0x20), Some(DecodedTagValue::Unsigned(0x0102_0304))));
    let (name, value, rest) = decode_tag_value(rest).unwrap();
    assert_eq!((name, value), (Some(0x02), Some(DecodedTagValue::Unsigned(0x1_0000_0000))));
    let (name, text, rest) = decode_tag(rest).unwrap();
    assert_eq!((name, text.as_deref()), (Some(0x01), Some("n\u{e4}me")));
    let (name, text, rest) = decode_tag(rest).unwrap();
    assert_eq!((name, text.as_deref()), (Some(0x01), Some("a rather long file name.bin")));
    assert!(rest.is_empty());
    {
        let bytes = [0x82, 0x01, 3, 0, b'a', 0xFF, b'b'];
        let (name, text, rest) = decode_tag(&bytes).unwrap();
        assert_eq!(name, Some(0x01));
        assert_eq!(text.as_deref(), Some("a\u{FFFD}b"));
        assert!(rest.is_empty());
    }
}

#[test]
fn bad_tags_are_refused() {
    assert_eq!(decode_tag_value(&[]).unwrap_err(), TagError::ShortHeader);
    assert_eq!(decode_tag_value(&[0x02, 5]).unwrap_err(), TagError::ShortNameLength);
    assert_eq!(decode_tag_value(&[0x02, 5, 0, 1]).unwrap_err(), TagError::ShortName);
    assert_eq!(decode_tag_value(&[0x82, 1, 5]).unwrap_err(), TagError::ShortStringLength);
    assert_eq!(decode_tag_value(&[0x82, 1, 5, 0, 1]).unwrap_err(), TagError::ShortString);
    assert_eq!(decode_tag_value(&[0x92, 1, 5]).unwrap_err(), TagError::ShortCompactString);
    assert_eq!(decode_tag_value(&[0x83, 1, 5]).unwrap_err(), TagError::ShortUint32);
    assert_eq!(decode_tag_value(&[0x8B, 1, 5]).unwrap_err(), TagError::ShortUint64);
    assert_eq!(decode_tag_value(&[0x88, 1, 5]).unwrap_err(), TagError::ShortUint16);
    assert_eq!(decode_tag_value(&[0x89, 1]).unwrap_err(), TagError::ShortUint8);
    assert_eq!(decode_tag_value(&[0x84, 1, 0]).unwrap_err(), TagError::ShortFloat32);
    assert_eq!(decode_tag_value(&[0x81, 1, 0]).unwrap_err(), TagError::ShortHash);
    assert_eq!(decode_tag_value(&[0x86, 1, 0]).unwrap_err(), TagError::ShortBoolArrayLength);
    assert_eq!(decode_tag_value(&[0x86, 1, 9, 0, 0]).unwrap_err(), TagError::ShortBoolArray);
    assert_eq!(decode_tag_value(&[0x87, 1, 0]).unwrap_err(), TagError::ShortBlobLength);
    assert_eq!(decode_tag_value(&[0x87, 1, 2, 0, 0, 0, 7]).unwrap_err(), TagError::ShortBlob);
    assert_eq!(decode_tag_value(&[0xFE, 1]).unwrap_err(), TagError::UnsupportedType(0x7E));
}

fn entry_bytes(hash: u8, tags: &[Vec<u8>]) -> Vec<u8> {
    let mut bytes = vec![hash; 16];
    bytes.extend_from_slice(&[0u8; 6]);
    bytes.extend_from_slice(&(tags.len() as u32).to_le_bytes());
    for tag in tags {
        bytes.extend_from_slice(tag);
    }
    bytes
}

fn page_bytes(entries: &[Vec<u8>]) -> Vec<u8> {
    let mut bytes = (entries.len() as u32).to_le_bytes().to_vec();
    for entry in entries {
        bytes.extend_from_slice(entry);
    }
    bytes
}

fn u32_tag(name: u8, value: u32) -> Vec<u8> {
    let mut tag = Vec::new();
    push_short_u32_tag(&mut tag, name, value);
    tag
}

fn text_tag(name: u8, value: &str) -> Vec<u8> {
    let mut tag = Vec::new();
    push_short_string_tag(&mut tag, name, value);
    tag
}

#[test]
fn search_page_gathers_tags_and_names() {
    let entry = entry_bytes(
        5,
        &[
            text_tag(FT_FILENAME, "first"),
            text_tag(FT_FILENAME, "second"),
            u32_tag(FT_FILESIZE, 7),
            u32_tag(FT_FILESIZE_HI, 1),
            text_tag(FT_FILETYPE, "Video"),
            u32_tag(FT_SOURCES, 42),
        ],
    );
    let page = decode_search_result_page(&page_bytes(&[entry])).unwrap();
    let file = &page.files[0];
    assert_eq!(file.file_hash.0, [5; 16]);
    assert_eq!(file.file_name.as_deref(), Some("first"));
    assert_eq!(file.file_size, Some(0x1_0000_0007));
    assert_eq!(file.file_type.as_deref(), Some("Video"));
    assert_eq!(file.source_count, Some(42));
    assert!(!page.more_results_available);
    {
        let entries: Vec<Vec<u8>> =
            ["a", "b", "c", "d"].iter().map(|n| entry_bytes(1, &[text_tag(FT_FILENAME, n)])).collect();
        let summary = decode_search_results(&page_bytes(&entries)).unwrap();
        assert_eq!(summary.count, 4);
        assert_eq!(summary.sample_names, vec!["a", "b", "c"]);
    }
}

#[test]
fn bad_pages_and_source_lists_are_refused() {
    assert_eq!(decode_search_result_page(&[1, 0]).unwrap_err(), ResultError::ShortPage);
    assert_eq!(decode_search_result_page(&[1, 0, 0, 0]).unwrap_err(), ResultError::ShortEntry);
    let mut page = page_bytes(&[]);
    page.push(2);
    assert_eq!(decode_search_result_page(&page).unwrap_err(), ResultError::InvalidMoreMarker(2));
    page.push(2);
    assert_eq!(decode_search_result_page(&page).unwrap_err(), ResultError::TrailingData(2));
    let mut huge = Vec::new();
    push_short_int_tag(&mut huge, FT_SOURCES, u64::MAX);
    let page = page_bytes(&[entry_bytes(1, &[huge])]);
    assert_eq!(decode_search_result_page(&page).unwrap_err(), ResultError::SourceCountOverflow);
    let page = page_bytes(&[entry_bytes(1, &[vec![0x83, 1]])]);
    assert_eq!(
        decode_search_result_page(&page).unwrap_err(),
        ResultError::Tag(TagError::ShortUint32)
    );
    {
        assert_eq!(decode_found_sources(&[0; 16], false).unwrap_err(), ResultError::ShortSources);
        let mut payload = vec![9u8; 16];
        payload.push(1);
        assert_eq!(decode_found_sources(&payload, false).unwrap_err(), ResultError::ShortSource);
        payload.extend_from_slice(&[1, 2, 3, 4, 5, 6]);
        assert_eq!(decode_found_sources(&payload, true).unwrap_err(), ResultError::ShortSourceOptions);
        payload.push(0x80);
        assert_eq!(
            decode_found_sources(&payload, true).unwrap_err(),
            ResultError::ShortSourceUserHash
        );
        assert_eq!(
            decode_found_sources(&payload, false).unwrap_err(),
            ResultError::SourceTrailingData(1)
        );
    }
}

#[test]
fn chained_datagrams_are_split() {
    let mut datagram = page_bytes(&[entry_bytes(1, &[])]);
    datagram.push(1);
    datagram.extend_from_slice(&[OP_EDONKEYPROT, OP_GLOBSEARCHRES]);
    datagram.extend_from_slice(&page_bytes(&[entry_bytes(2, &[]), entry_bytes(3, &[])]));
    let pages = decode_udp_search_result_pages(&datagram).unwrap();
    assert_eq!(pages.len(), 2);
    assert!(pages[0].more_results_available);
    assert_eq!(pages[1].files.len(), 2);
    assert!(decode_udp_search_result_pages(&[]).unwrap().is_empty());
    {
        let mut payload = vec![1u8; 16];
        payload.push(1);
        payload.extend_from_slice(&[198, 51, 100, 7, 0x36, 0x12]);
        payload.extend_from_slice(&[OP_EDONKEYPROT, OP_GLOBFOUNDSOURCES]);
        payload.extend_from_slice(&[2u8; 16]);
        payload.push(0);
        let sets = decode_udp_found_source_sets(&payload).unwrap();
        assert_eq!(sets.len(), 2);
        assert_eq!(sets[0].len(), 1);
        assert!(sets[1].is_empty());
    }
}

#[test]
fn found_sources_are_told_apart() {
    let mut payload = vec![9u8; 16];
    payload.push(2);
    payload.extend_from_slice(&[198, 51, 100, 7, 0x36, 0x12]);
    payload.push(SOURCE_OBFUSCATION_USER_HASH_PRESENT | 3);
    payload.extend_from_slice(&[0x55; 16]);
    payload.extend_from_slice(&[5, 0, 0, 0, 0x36, 0x12, 0x01]);
    let sources = decode_found_sources(&payload, true).unwrap();
    assert_eq!(sources[0].ip, Ipv4Addr::new(198, 51, 100, 7));
    assert_eq!(sources[0].tcp_port, 4662);
    assert!(!sources[0].low_id);
    assert_eq!(sources[0].user_hash, Some([0x55; 16]));
    assert!(sources[1].low_id);
    assert_eq!(sources[1].client_id, 5);
    assert_eq!(sources[1].obfuscation_options, Some(1));
    assert_eq!(sources[1].user_hash, None);
}

#[test]
fn boolean_search_is_parsed_and_written() {
    match parse_search_expression("a NOT b").unwrap() {
        Some(SearchExprNode::Not(left, right)) => {
            assert!(matches!(*left, SearchExprNode::Term(ref t) if t == "a"));
            assert!(matches!(*right, SearchExprNode::Term(ref t) if t == "b"));
        }
        other => panic!("unexpected {other:?}"),
    }
    assert!(parse_search_expression("   ").unwrap().is_none());
    {
        let mut want = vec![0u8, 0x01];
        want.extend_from_slice(&kw("a"));
        want.extend_from_slice(&kw("b"));
        assert_eq!(encode_search_request("a OR b").unwrap(), want);
        assert_eq!(encode_search_request("two words").unwrap(), kw("two words"));
    }
}

#[test]
fn bad_search_expressions_are_refused() {
    assert_eq!(parse_search_expression("\"open").unwrap_err(), SearchError::UnterminatedQuote);
    assert_eq!(parse_search_expression("(a").unwrap_err(), SearchError::MissingCloseParen);
    assert_eq!(parse_search_expression("a )").unwrap_err(), SearchError::TrailingTokens);
    assert_eq!(parse_search_expression("OR a").unwrap_err(), SearchError::InvalidExpression);
    let long = "x".repeat(70_000);
    assert_eq!(encode_search_request(&long).unwrap_err(), SearchError::TermTooLong);
    let criteria = SearchCriteria { extension: Some(long), ..SearchCriteria::default() };
    assert_eq!(
        encode_search_request_with_criteria("a", &criteria).unwrap_err(),
        SearchError::MetaTagTooLong
    );
}

#[test]
fn bad_descriptions_and_server_lists_are_refused() {
    assert_eq!(
        decode_server_description_response(&[1], 0).unwrap_err(),
        DescriptionError::ShortNameLength
    );
    assert_eq!(
        decode_server_description_response(&[5, 0, b'a'], 0).unwrap_err(),
        DescriptionError::ShortName
    );
    assert_eq!(
        decode_server_description_response(&[1, 0, b'a', 1], 0).unwrap_err(),
        DescriptionError::ShortDescriptionLength
    );
    assert_eq!(
        decode_server_description_response(&[1, 0, b'a', 1, 0], 0).unwrap_err(),
        DescriptionError::ShortDescription
    );
    {
        assert_eq!(parse_server_met(&[MET_HEADER]).unwrap_err(), MetError::TooShort);
        assert_eq!(
            parse_server_met(&[0x99, 0, 0, 0, 0]).unwrap_err(),
            MetError::UnsupportedVersion(0x99)
        );
        let mut data = vec![MET_HEADER_WITH_LARGEFILES];
        data.extend_from_slice(&(MAX_MET_ENTRIES + 1).to_le_bytes());
        assert_eq!(
            parse_server_met(&data).unwrap_err(),
            MetError::ImplausibleCount(MAX_MET_ENTRIES + 1)
        );
        let mut data = vec![MET_HEADER];
        data.extend_from_slice(&1u32.to_le_bytes());
        assert_eq!(parse_server_met(&data).unwrap_err(), MetError::TruncatedEntry);
        data.extend_from_slice(&[1, 2, 3, 4, 5, 6]);
        data.extend_from_slice(&1u32.to_le_bytes());
        assert_eq!(parse_server_met(&data).unwrap_err(), MetError::Tag(TagError::ShortHeader));
    }
}
