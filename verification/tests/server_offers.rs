use emulebb_ed2k::addr::Ipv4Addr;
use emulebb_ed2k::ed2k_server::server_entry::{
    server_offer_file_limit, ConfiguredServerEntry, ResolvedServerEntry,
};
use emulebb_ed2k::ed2k_server::startup::{
    advertised_client_endpoint_for_offer_file, ed2k_offer_file_type, encode_login_request,
    encode_offer_files_payload, encode_source_request, encode_udp_search_request,
    encode_udp_source_request_batch, encode_unpublished_offer, is_udp_source_request_batch_full,
    login_identity_for_server_transport, offer_files_cursor_wrapped,
    offered_files_catalog_at_cursor, offered_files_catalog_at_cursor_cycling,
    offered_files_catalog_at_cursor_skipping_published, popular_hash_offer_file,
    ranked_offer_files, server_capabilities, source_request_opcode, Ed2kHelloIdentity,
    Ed2kUdpSourceRequestTarget, MAX_OFFER_FILES_PER_ADVERTISEMENT,
    OFFER_FILE_COMPLETE_SENTINEL_CLIENT_ID, OFFER_FILE_COMPLETE_SENTINEL_CLIENT_PORT,
};
use emulebb_ed2k::ed2k_server::tag_codec::{decode_tag_value, DecodedTagValue};
use emulebb_ed2k::ed2k_server::{
    ED2K_FILETYPE_ARCHIVE, ED2K_FILETYPE_VIDEO, FT_FILENAME, FT_FILESIZE, FT_FILESIZE_HI,
    OP_GETSOURCES, OP_GETSOURCES_OBFU,
    OP_GLOBGETSOURCES, OP_GLOBGETSOURCES2, OP_GLOBSEARCHREQ, OP_GLOBSEARCHREQ2,
    OP_GLOBSEARCHREQ3, SERVER_TCP_FLAG_COMPRESSION, SERVER_TCP_FLAG_LARGEFILES,
    SERVER_TCP_FLAG_TCPOBFUSCATION, SERVER_UDP_FLAG_EXT_GETFILES,
    SERVER_UDP_FLAG_EXT_GETSOURCES, SERVER_UDP_FLAG_EXT_GETSOURCES2, SERVER_UDP_FLAG_LARGEFILES,
    SRVCAP_SUPPORTCRYPT,
};
use emulebb_ed2k::ed2k_transfer::Ed2kSharedEntry;
use emulebb_ed2k::ids::Ed2kHash;

fn one_entry() -> Ed2kSharedEntry {
    Ed2kSharedEntry {
        file_hash: "00112233445566778899aabbccddeeff".to_string(),
        canonical_name: "lan-bind-source.bin".to_string(),
        file_size: 1234,
    }
}

fn shared_entry(index: usize) -> Ed2kSharedEntry {
    let mut hash = [0u8; 16];
    hash[0..8].copy_from_slice(&(index as u64).to_le_bytes());
    hash[8..16].copy_from_slice(&(!(index as u64)).to_le_bytes());
    Ed2kSharedEntry {
        file_hash: hex::encode(hash),
        canonical_name: format!("sample-file-{index:03}.bin"),
        file_size: 1_000 + index as u64,
    }
}

#[test]
fn startup_offer_files_uses_bind_ip_for_dialable_same_host_lan_sources() {
    let bind_ip = Ipv4Addr::new(192, 168, 1, 210);
    let synthetic_duplicate_high_id = u32::from_le_bytes([1, 0, 0, 1]);
    let payload = encode_offer_files_payload(
        &vec![one_entry()],
        Some(synthetic_duplicate_high_id),
        bind_ip,
        4662,
        None,
    );

    assert_eq!(u32::from_le_bytes(payload[0..4].try_into().unwrap()), 1);
    assert_eq!(
        u32::from_le_bytes(payload[20..24].try_into().unwrap()),
        u32::from_le_bytes(bind_ip.octets())
    );
    assert_eq!(
        u16::from_le_bytes(payload[24..26].try_into().unwrap()),
        4662
    );
}

#[test]
fn startup_offer_files_preserves_complete_sentinel_for_compression_servers() {
    let bind_ip = Ipv4Addr::new(192, 168, 1, 210);
    let payload = encode_offer_files_payload(
        &vec![one_entry()],
        Some(u32::from_le_bytes([192, 168, 1, 210])),
        bind_ip,
        4662,
        Some(SERVER_TCP_FLAG_COMPRESSION),
    );

    assert_eq!(
        u32::from_le_bytes(payload[20..24].try_into().unwrap()),
        OFFER_FILE_COMPLETE_SENTINEL_CLIENT_ID
    );
    assert_eq!(
        u16::from_le_bytes(payload[24..26].try_into().unwrap()),
        OFFER_FILE_COMPLETE_SENTINEL_CLIENT_PORT
    );
}

#[test]
fn startup_offer_files_preserves_unicode_filename_tag() {
    let mut entry = one_entry();
    entry.canonical_name = "unicode-\u{00e9}-\u{6f22}.bin".to_string();
    let payload = encode_offer_files_payload(
        &vec![entry],
        Some(u32::from_le_bytes([192, 168, 1, 210])),
        Ipv4Addr::new(192, 168, 1, 210),
        4662,
        None,
    );

    let tag_count_offset = 26;
    assert_eq!(
        u32::from_le_bytes(
            payload[tag_count_offset..tag_count_offset + 4]
                .try_into()
                .unwrap()
        ),
        3
    );
    let (tag_name, tag_value, _rest) =
        decode_tag_value(&payload[tag_count_offset + 4..]).unwrap();

    assert_eq!(tag_name, Some(FT_FILENAME));
    assert_eq!(
        tag_value,
        Some(DecodedTagValue::String(
            "unicode-\u{00e9}-\u{6f22}.bin".to_string()
        ))
    );
}

#[test]
fn startup_offered_files_catalog_rotates_large_libraries() {
    let shared_catalog = (0..450).map(shared_entry).collect::<Vec<_>>();

    let first = offered_files_catalog_at_cursor(
        &shared_catalog,
        0,
        MAX_OFFER_FILES_PER_ADVERTISEMENT,
        true,
    );
    let second = offered_files_catalog_at_cursor(
        &shared_catalog,
        first.next_cursor,
        MAX_OFFER_FILES_PER_ADVERTISEMENT,
        true,
    );
    let third = offered_files_catalog_at_cursor(
        &shared_catalog,
        second.next_cursor,
        MAX_OFFER_FILES_PER_ADVERTISEMENT,
        true,
    );

    assert_eq!(first.entries.len(), MAX_OFFER_FILES_PER_ADVERTISEMENT);
    assert_eq!(first.total_entries, 450);
    assert_eq!(first.next_cursor, 200);
    assert_eq!(second.next_cursor, 400);
    assert_eq!(third.next_cursor, 150);
    assert!(!offer_files_cursor_wrapped(
        first.total_entries,
        0,
        first.next_cursor
    ));
    assert!(!offer_files_cursor_wrapped(
        second.total_entries,
        first.next_cursor,
        second.next_cursor
    ));
    assert!(offer_files_cursor_wrapped(
        third.total_entries,
        second.next_cursor,
        third.next_cursor
    ));
    assert_ne!(first.entries[0].0, second.entries[0].0);
    assert_ne!(second.entries[0].0, third.entries[0].0);
    assert_eq!(
        third.entries[0].0,
        popular_hash_offer_file(&shared_catalog[400]).unwrap().0
    );
    assert_eq!(
        third.entries[50].0,
        popular_hash_offer_file(&shared_catalog[0]).unwrap().0
    );
}

#[test]
fn startup_offered_files_catalog_small_libraries_do_not_rotate() {
    let shared_catalog = (0..3).map(shared_entry).collect::<Vec<_>>();

    let offered = offered_files_catalog_at_cursor(
        &shared_catalog,
        2,
        MAX_OFFER_FILES_PER_ADVERTISEMENT,
        true,
    );

    assert_eq!(offered.entries.len(), 3);
    assert_eq!(offered.next_cursor, 0);
    assert_eq!(offered.total_entries, 3);
}

#[test]
fn startup_offered_files_catalog_prioritizes_unpublished_hashes() {
    let shared_catalog = (0..450).map(shared_entry).collect::<Vec<_>>();
    let mut already_published = Vec::new();
    for entry in shared_catalog.iter().take(200) {
        already_published.push(popular_hash_offer_file(entry).unwrap().0);
    }

    let offered = offered_files_catalog_at_cursor_skipping_published(
        &shared_catalog,
        0,
        &already_published,
        MAX_OFFER_FILES_PER_ADVERTISEMENT,
        true,
    );

    assert_eq!(offered.entries.len(), MAX_OFFER_FILES_PER_ADVERTISEMENT);
    assert_eq!(offered.next_cursor, 400);
    assert_eq!(
        offered.entries[0].0,
        popular_hash_offer_file(&shared_catalog[200]).unwrap().0
    );
}

#[test]
fn startup_offered_files_catalog_scans_to_late_new_hash() {
    let shared_catalog = (0..450).map(shared_entry).collect::<Vec<_>>();
    let mut already_published = Vec::new();
    for entry in shared_catalog.iter().take(449) {
        already_published.push(popular_hash_offer_file(entry).unwrap().0);
    }

    let offered = offered_files_catalog_at_cursor_skipping_published(
        &shared_catalog,
        0,
        &already_published,
        MAX_OFFER_FILES_PER_ADVERTISEMENT,
        true,
    );

    assert_eq!(offered.entries.len(), 1);
    assert_eq!(offered.next_cursor, 0);
    assert_eq!(
        offered.entries[0].0,
        popular_hash_offer_file(&shared_catalog[449]).unwrap().0
    );
}

#[test]
fn offered_files_catalog_is_empty_when_every_hash_was_published() {
    let shared_catalog = (0..3).map(shared_entry).collect::<Vec<_>>();
    let already_published = shared_catalog
        .iter()
        .map(|entry| popular_hash_offer_file(entry).unwrap().0)
        .collect::<Vec<_>>();

    let offered = offered_files_catalog_at_cursor_skipping_published(
        &shared_catalog,
        0,
        &already_published,
        MAX_OFFER_FILES_PER_ADVERTISEMENT,
        true,
    );

    assert!(offered.entries.is_empty());
    assert_eq!(offered.next_cursor, 0);
    assert_eq!(offered.total_entries, 3);
}

#[test]
fn tests_offer_files_uses_bind_ip_for_dialable_same_host_lan_sources() {
    let bind_ip = Ipv4Addr::new(192, 168, 1, 210);
    let synthetic_duplicate_high_id = u32::from_le_bytes([1, 0, 0, 1]);
    let payload = encode_offer_files_payload(
        &vec![one_entry()],
        Some(synthetic_duplicate_high_id),
        bind_ip,
        4662,
        None,
    );

    assert_eq!(u32::from_le_bytes(payload[0..4].try_into().unwrap()), 1);
    assert_eq!(
        u32::from_le_bytes(payload[20..24].try_into().unwrap()),
        u32::from_le_bytes(bind_ip.octets())
    );
    assert_eq!(
        u16::from_le_bytes(payload[24..26].try_into().unwrap()),
        4662
    );
}

#[test]
fn tests_offer_files_preserves_complete_sentinel_for_compression_servers() {
    let bind_ip = Ipv4Addr::new(192, 168, 1, 210);
    let payload = encode_offer_files_payload(
        &vec![one_entry()],
        Some(u32::from_le_bytes([192, 168, 1, 210])),
        bind_ip,
        4662,
        Some(SERVER_TCP_FLAG_COMPRESSION),
    );

    assert_eq!(
        u32::from_le_bytes(payload[20..24].try_into().unwrap()),
        OFFER_FILE_COMPLETE_SENTINEL_CLIENT_ID
    );
    assert_eq!(
        u16::from_le_bytes(payload[24..26].try_into().unwrap()),
        OFFER_FILE_COMPLETE_SENTINEL_CLIENT_PORT
    );
}

#[test]
fn tests_offer_files_preserves_unicode_filename_tag() {
    let mut entry = one_entry();
    entry.canonical_name = "unicode-\u{00e9}-\u{6f22}.bin".to_string();
    let payload = encode_offer_files_payload(
        &vec![entry],
        Some(u32::from_le_bytes([192, 168, 1, 210])),
        Ipv4Addr::new(192, 168, 1, 210),
        4662,
        None,
    );

    let tag_count_offset = 26;
    assert_eq!(
        u32::from_le_bytes(
            payload[tag_count_offset..tag_count_offset + 4]
                .try_into()
                .unwrap()
        ),
        3
    );
    let (tag_name, tag_value, _rest) = decode_tag_value(&payload[tag_count_offset + 4..]).unwrap();

    assert_eq!(tag_name, Some(FT_FILENAME));
    assert_eq!(
        tag_value,
        Some(DecodedTagValue::String(
            "unicode-\u{00e9}-\u{6f22}.bin".to_string()
        ))
    );
}

#[test]
fn server_offer_file_limit_clamps_like_mfc() {
    assert_eq!(server_offer_file_limit(0), 200);
    assert_eq!(server_offer_file_limit(50), 50);
    assert_eq!(server_offer_file_limit(200), 200);
    assert_eq!(server_offer_file_limit(500), 200);
}

#[test]
fn offered_files_catalog_honors_server_soft_limit() {
    let shared_catalog = (0..450).map(shared_entry).collect::<Vec<_>>();
    let limited = offered_files_catalog_at_cursor(&shared_catalog, 0, 50, true);
    assert_eq!(limited.entries.len(), 50);
    assert_eq!(limited.total_entries, 450);
    assert_eq!(limited.next_cursor, 50);
    assert_eq!(
        offered_files_catalog_at_cursor(&shared_catalog, 0, 0, true)
            .entries
            .len(),
        1
    );
    assert_eq!(
        offered_files_catalog_at_cursor(&shared_catalog, 0, 10_000, true)
            .entries
            .len(),
        MAX_OFFER_FILES_PER_ADVERTISEMENT
    );
}

#[test]
fn large_file_offered_only_to_largefiles_server() {
    let mut small = shared_entry(1);
    small.file_size = 1_000;
    let mut large = shared_entry(2);
    large.file_size = u64::from(u32::MAX) + 4_096;
    let catalog = vec![small.clone(), large.clone()];
    let small_hash = popular_hash_offer_file(&small).unwrap().0;

    let without = ranked_offer_files(&catalog, false);
    assert_eq!(without.len(), 1);
    assert_eq!(without[0].0, small_hash);

    let with = ranked_offer_files(&catalog, true);
    assert_eq!(with.len(), 2);

    let no_largefiles = encode_offer_files_payload(
        &catalog,
        Some(u32::from_le_bytes([192, 168, 1, 5])),
        Ipv4Addr::new(192, 168, 1, 5),
        4662,
        None,
    );
    assert_eq!(
        u32::from_le_bytes(no_largefiles[0..4].try_into().unwrap()),
        1
    );
    let with_largefiles = encode_offer_files_payload(
        &catalog,
        Some(u32::from_le_bytes([192, 168, 1, 5])),
        Ipv4Addr::new(192, 168, 1, 5),
        4662,
        Some(SERVER_TCP_FLAG_LARGEFILES),
    );
    assert_eq!(
        u32::from_le_bytes(with_largefiles[0..4].try_into().unwrap()),
        2
    );
}

#[test]
fn empty_share_advertises_zero_files_without_a_placeholder() {
    let catalog = offered_files_catalog_at_cursor(
        &Vec::new(),
        0,
        MAX_OFFER_FILES_PER_ADVERTISEMENT,
        true,
    );
    assert_eq!(catalog.entries.len(), 0);
    assert_eq!(catalog.total_entries, 0);
    let payload = encode_offer_files_payload(
        &Vec::new(),
        Some(0),
        Ipv4Addr::new(127, 0, 0, 1),
        4662,
        None,
    );
    assert_eq!(&payload[..4], &0u32.to_le_bytes(), "0 offered files");
    assert_eq!(payload.len(), 4, "no file entries follow the count");
}

#[test]
fn tests_offered_files_catalog_rotates_large_libraries() {
    let shared_catalog = (0..450).map(shared_entry).collect::<Vec<_>>();
    let ranked = ranked_offer_files(&shared_catalog, true);

    let first = offered_files_catalog_at_cursor(
        &shared_catalog,
        0,
        MAX_OFFER_FILES_PER_ADVERTISEMENT,
        true,
    );
    let second = offered_files_catalog_at_cursor(
        &shared_catalog,
        first.next_cursor,
        MAX_OFFER_FILES_PER_ADVERTISEMENT,
        true,
    );
    let third = offered_files_catalog_at_cursor(
        &shared_catalog,
        second.next_cursor,
        MAX_OFFER_FILES_PER_ADVERTISEMENT,
        true,
    );

    assert_eq!(first.entries.len(), MAX_OFFER_FILES_PER_ADVERTISEMENT);
    assert_eq!(first.total_entries, 450);
    assert_eq!(first.next_cursor, 200);
    assert_eq!(second.next_cursor, 400);
    assert_eq!(third.next_cursor, 150);
    assert!(!offer_files_cursor_wrapped(
        first.total_entries,
        0,
        first.next_cursor
    ));
    assert!(!offer_files_cursor_wrapped(
        second.total_entries,
        first.next_cursor,
        second.next_cursor
    ));
    assert!(offer_files_cursor_wrapped(
        third.total_entries,
        second.next_cursor,
        third.next_cursor
    ));
    assert_ne!(first.entries[0].0, second.entries[0].0);
    assert_ne!(second.entries[0].0, third.entries[0].0);
    assert_eq!(third.entries[0].0, ranked[400].0);
    assert_eq!(third.entries[50].0, ranked[0].0);
}

#[test]
fn tests_offered_files_catalog_small_libraries_do_not_rotate() {
    let shared_catalog = (0..3).map(shared_entry).collect::<Vec<_>>();

    let offered = offered_files_catalog_at_cursor(
        &shared_catalog,
        2,
        MAX_OFFER_FILES_PER_ADVERTISEMENT,
        true,
    );

    assert_eq!(offered.entries.len(), 3);
    assert_eq!(offered.next_cursor, 0);
    assert_eq!(offered.total_entries, 3);
}

#[test]
fn tests_offered_files_catalog_prioritizes_unpublished_hashes() {
    let shared_catalog = (0..450).map(shared_entry).collect::<Vec<_>>();
    let ranked = ranked_offer_files(&shared_catalog, true);
    let mut already_published = Vec::new();
    for entry in ranked.iter().take(200) {
        already_published.push(entry.0);
    }

    let offered = offered_files_catalog_at_cursor_skipping_published(
        &shared_catalog,
        0,
        &already_published,
        MAX_OFFER_FILES_PER_ADVERTISEMENT,
        true,
    );

    assert_eq!(offered.entries.len(), MAX_OFFER_FILES_PER_ADVERTISEMENT);
    assert_eq!(offered.next_cursor, 400);
    assert_eq!(offered.entries[0].0, ranked[200].0);
}

#[test]
fn tests_offered_files_catalog_scans_to_late_new_hash() {
    let shared_catalog = (0..450).map(shared_entry).collect::<Vec<_>>();
    let mut already_published = Vec::new();
    for entry in shared_catalog.iter().take(449) {
        already_published.push(popular_hash_offer_file(entry).unwrap().0);
    }

    let offered = offered_files_catalog_at_cursor_skipping_published(
        &shared_catalog,
        0,
        &already_published,
        MAX_OFFER_FILES_PER_ADVERTISEMENT,
        true,
    );

    assert_eq!(offered.entries.len(), 1);
    assert_eq!(offered.next_cursor, 0);
    assert_eq!(
        offered.entries[0].0,
        popular_hash_offer_file(&shared_catalog[449]).unwrap().0
    );
}

#[test]
fn offered_files_catalog_restarts_ranked_cycle_when_every_hash_was_published() {
    let shared_catalog = (0..3).map(shared_entry).collect::<Vec<_>>();
    let ranked = ranked_offer_files(&shared_catalog, true);
    let already_published = shared_catalog
        .iter()
        .map(|entry| popular_hash_offer_file(entry).unwrap().0)
        .collect::<Vec<_>>();

    let offered = offered_files_catalog_at_cursor_cycling(
        &shared_catalog,
        0,
        &already_published,
        MAX_OFFER_FILES_PER_ADVERTISEMENT,
        true,
    );

    assert_eq!(offered.entries, ranked);
    assert_eq!(offered.next_cursor, 0);
    assert_eq!(offered.total_entries, 3);
}

fn server(udp_flags: u32) -> ResolvedServerEntry {
    let mut entry = ConfiguredServerEntry::from_endpoint_text("192.0.2.1:4661").unwrap();
    entry.udp_flags = udp_flags;
    ResolvedServerEntry { entry, ip: Ipv4Addr::new(192, 0, 2, 1) }
}

fn target(byte: u8, file_size: u64) -> Ed2kUdpSourceRequestTarget {
    Ed2kUdpSourceRequestTarget { file_hash: Ed2kHash::from_bytes([byte; 16]), file_size }
}

#[test]
fn entry_with_a_bad_hash_is_not_offered() {
    for hash in ["", "0011", "zz112233445566778899aabbccddeeff"] {
        let mut entry = one_entry();
        entry.file_hash = hash.to_string();
        assert!(popular_hash_offer_file(&entry).is_none());
    }
    let mut upper = one_entry();
    upper.file_hash = upper.file_hash.to_uppercase();
    let (hash, name, size, _) = popular_hash_offer_file(&upper).unwrap();
    assert_eq!(hash[..3], [0x00, 0x11, 0x22]);
    assert_eq!(name, "lan-bind-source.bin");
    assert_eq!(size, 1234);
    assert_eq!(ed2k_offer_file_type("film.MKV"), ED2K_FILETYPE_VIDEO);
    assert_eq!(ed2k_offer_file_type("pack.zip"), ED2K_FILETYPE_ARCHIVE);
    {
        let bind_ip = Ipv4Addr::new(192, 168, 1, 210);
        assert_eq!(
            advertised_client_endpoint_for_offer_file(Some(5), bind_ip, 4662, None),
            (0, 0)
        );
    }
}

#[test]
fn offered_sizes_take_the_shortest_tag() {
    let cases: [(u64, Vec<u8>); 4] = [
        (200, vec![0x89, FT_FILESIZE, 200]),
        (1234, vec![0x88, FT_FILESIZE, 0xD2, 0x04]),
        (70_000, vec![0x83, FT_FILESIZE, 0x70, 0x11, 0x01, 0x00]),
        (
            (300u64 << 32) + 7,
            vec![0x89, FT_FILESIZE, 7, 0x88, FT_FILESIZE_HI, 0x2C, 0x01],
        ),
    ];
    for (file_size, tags) in cases {
        let mut entry = one_entry();
        entry.canonical_name = "x".to_string();
        entry.file_size = file_size;
        let payload = encode_offer_files_payload(
            &vec![entry],
            Some(u32::from_le_bytes([192, 168, 1, 5])),
            Ipv4Addr::new(192, 168, 1, 5),
            4662,
            Some(SERVER_TCP_FLAG_LARGEFILES),
        );
        let (name, _, rest) = decode_tag_value(&payload[30..]).unwrap();
        assert_eq!(name, Some(FT_FILENAME));
        let end = payload.len() - 3;
        assert_eq!(payload[payload.len() - rest.len()..end], tags);
    }
}

#[test]
fn published_files_are_left_out_of_the_next_offer() {
    let catalog = vec![shared_entry(1), shared_entry(2)];
    let first = popular_hash_offer_file(&catalog[0]).unwrap().0;
    let offer = encode_unpublished_offer(
        &catalog,
        0,
        &vec![first],
        200,
        Some(u32::from_le_bytes([192, 168, 1, 5])),
        Ipv4Addr::new(192, 168, 1, 5),
        4662,
        None,
    );
    assert_eq!(offer.entries.len(), 1);
    assert_eq!(offer.entries[0].1, "sample-file-002.bin");
    assert_eq!(offer.total_entries, 2);
    assert_eq!(&offer.payload[..4], &1u32.to_le_bytes());
    assert_eq!(offer.payload[4..20], offer.entries[0].0);
}

#[test]
fn login_names_the_client() {
    let identity = Ed2kHelloIdentity {
        user_hash: [0x21; 16],
        tcp_port: 4662,
        udp_port: 4672,
        connect_options: 1,
    };
    let payload = encode_login_request(identity);
    assert_eq!(payload[..16], [0x21; 16]);
    assert_eq!(payload[16..20], [0; 4]);
    assert_eq!(payload[20..22], 4662u16.to_le_bytes());
    assert_eq!(payload[22..26], 4u32.to_le_bytes());
    assert_eq!(server_capabilities(1) & SRVCAP_SUPPORTCRYPT, SRVCAP_SUPPORTCRYPT);
    assert_eq!(server_capabilities(0) & SRVCAP_SUPPORTCRYPT, 0);
    assert_eq!(login_identity_for_server_transport(identity, true), identity);
}

#[test]
fn source_request_carries_the_size() {
    let hash = Ed2kHash::from_bytes([7; 16]);
    let small = encode_source_request(hash, 1000);
    assert_eq!(small[..16], [7; 16]);
    assert_eq!(small[16..], 1000u32.to_le_bytes());
    let large = encode_source_request(hash, u64::from(u32::MAX) + 1);
    assert_eq!(large.len(), 28);
    assert_eq!(large[16..20], [0; 4]);
    assert_eq!(large[20..], (u64::from(u32::MAX) + 1).to_le_bytes());
    assert_eq!(source_request_opcode(0, Some(SERVER_TCP_FLAG_TCPOBFUSCATION)), OP_GETSOURCES);
    assert_eq!(
        source_request_opcode(1, Some(SERVER_TCP_FLAG_TCPOBFUSCATION)),
        OP_GETSOURCES_OBFU
    );
    assert_eq!(source_request_opcode(1, None), OP_GETSOURCES);
}

#[test]
fn udp_source_request_batches_what_the_server_takes() {
    let targets = vec![target(1, 1000), target(2, u64::from(u32::MAX) + 1)];
    let flags = SERVER_UDP_FLAG_EXT_GETSOURCES2 | SERVER_UDP_FLAG_LARGEFILES;
    let batch = encode_udp_source_request_batch(&server(flags), &targets).unwrap();
    assert_eq!(batch.opcode, OP_GLOBGETSOURCES2);
    assert_eq!((batch.included_files, batch.included_large_files), (2, 1));
    assert_eq!(batch.payload.len(), 20 + 28);

    let batch =
        encode_udp_source_request_batch(&server(SERVER_UDP_FLAG_EXT_GETSOURCES), &targets)
            .unwrap();
    assert_eq!(batch.opcode, OP_GLOBGETSOURCES);
    assert_eq!(batch.payload, vec![1; 16]);
    assert!(encode_udp_source_request_batch(&server(flags), &Vec::new()).is_none());
    {
        let targets: Vec<_> = (0..40).map(|i| target(i, 1000)).collect();
        let batch =
            encode_udp_source_request_batch(&server(SERVER_UDP_FLAG_EXT_GETSOURCES), &targets)
                .unwrap();
        assert!(is_udp_source_request_batch_full(
            false,
            batch.included_files,
            batch.included_large_files
        ));
        assert!(!is_udp_source_request_batch_full(false, batch.included_files - 1, 0));
        assert!(!is_udp_source_request_batch_full(true, 1, 2));
        assert!(is_udp_source_request_batch_full(true, 1, 1_000));
        assert_eq!(batch.included_files, 32);
        assert_eq!(batch.payload.len(), 32 * 16);
        let batch =
            encode_udp_source_request_batch(&server(SERVER_UDP_FLAG_EXT_GETSOURCES2), &targets)
                .unwrap();
        assert_eq!(batch.included_files, 26);
        assert_eq!(batch.payload.len(), 26 * 20);
    }
}

#[test]
fn udp_search_request_follows_the_server_flags() {
    assert_eq!(
        encode_udp_search_request(&server(0), &[1, 2]),
        (OP_GLOBSEARCHREQ, vec![1, 2])
    );
    assert_eq!(
        encode_udp_search_request(&server(SERVER_UDP_FLAG_EXT_GETFILES), &[1, 2]).0,
        OP_GLOBSEARCHREQ2
    );
    let (opcode, payload) = encode_udp_search_request(
        &server(SERVER_UDP_FLAG_EXT_GETFILES | SERVER_UDP_FLAG_LARGEFILES),
        &[1, 2],
    );
    assert_eq!(opcode, OP_GLOBSEARCHREQ3);
    assert!(payload.ends_with(&[1, 2]));
    assert!(payload.len() > 2);
}
