use emulebb_ed2k::addr::{IpAddr, Ipv4Addr, SocketAddr, SocketAddrV4};
use emulebb_ed2k::ban_store::BanStore;
use emulebb_ed2k::buddy_socket::BuddySocketRegistry;
use emulebb_ed2k::ed2k_client_udp::buddy_relay::{
    build_downloader_callback_origination, encode_reask_callback_tcp_relay,
    relay_buddy_reask_callback, relayed_ping, OP_REASKCALLBACKTCP,
};
use emulebb_ed2k::ed2k_client_udp::codec::{
    decode_reask_callback_udp, ForwardedReask, OP_DIRECTCALLBACKREQ, OP_REASKACK,
    OP_REASKCALLBACKUDP, OP_REASKFILEPING,
};
use emulebb_ed2k::ed2k_client_udp::dispatch::{parse_inbound_reask_datagram, InboundReaskMessage};
use emulebb_ed2k::ed2k_client_udp::dump::{
    capped_packet_hex, client_udp_opcode_name, client_udp_protocol_name, client_udp_trace_key,
    decode_client_udp_for_dump, CLIENT_UDP_DUMP_FILE_PREFIX, MAX_CLIENT_UDP_DUMP_HEX_BYTES,
};
use emulebb_ed2k::ed2k_client_udp::outbound::{
    build_reask_ack_datagram, build_reask_file_ping_datagram, OutboundReaskTarget,
};
use emulebb_ed2k::ed2k_client_udp::runtime::{
    apply_reask_command, build_detached_source, build_direct_callback, drive_reask_tick,
    handle_inbound_datagram, hex_preview, is_filtered_reask_source, routed_reply_events,
    DirectCallbackArgs, ReaskCommand, ReaskDetachArgs, ReaskEvent, REASK_REPLY_TIMEOUT,
    REENGAGE_RANK_THRESHOLD,
};
use emulebb_ed2k::ed2k_client_udp::service::{ReaskService, ReaskTickPacing};
use emulebb_ed2k::ed2k_client_udp::state::{ReaskAction, ReaskSource, FILE_REASK_TIME};
use emulebb_ed2k::ed2k_client_udp_obfuscation::OP_EMULEPROT;
use emulebb_ed2k::ids::{Ed2kHash, NodeId};

const NOW: u64 = 1_000_000;
const SECOND: u64 = 1_000;

fn at(ip: Ipv4Addr, port: u16) -> SocketAddrV4 {
    SocketAddrV4 { ip, port }
}

fn from(ip: Ipv4Addr, port: u16) -> SocketAddr {
    SocketAddr { ip: IpAddr::V4(ip), port }
}

fn detach(file_hash: Ed2kHash, last: u8) -> ReaskDetachArgs {
    ReaskDetachArgs {
        file_hash,
        endpoint: at(Ipv4Addr::new(198, 51, 100, last), 4672),
        tcp_port: 4662,
        udp_version: 4,
        initial_reask_delay: 0,
        user_hash: None,
        should_crypt: false,
        low_id: false,
        buddy_endpoint: None,
        buddy_id: None,
    }
}

fn service() -> ReaskService {
    ReaskService::new([0x10; 16], 4, Ipv4Addr::new(203, 0, 113, 9))
}

#[test]
fn register_command_adds_a_source_and_remove_drops_it() {
    let mut svc = service();
    let file_hash = Ed2kHash::from_bytes([0xAB; 16]);
    let endpoint = at(Ipv4Addr::new(198, 51, 100, 7), 4672);
    let lease_endpoint = at(Ipv4Addr::new(198, 51, 100, 7), 4662);
    let events = apply_reask_command(
        &mut svc,
        ReaskCommand::Register(ReaskDetachArgs {
            file_hash,
            endpoint,
            tcp_port: lease_endpoint.port,
            udp_version: 4,
            initial_reask_delay: 0,
            user_hash: Some([0x55; 16]),
            should_crypt: true,
            low_id: false,
            buddy_endpoint: None,
            buddy_id: None,
        }),
        NOW,
    );
    assert_eq!(svc.source_count(), 1);
    assert_eq!(svc.registered_file_hashes(), vec![file_hash]);
    assert!(events.is_empty());

    let events = apply_reask_command(&mut svc, ReaskCommand::Remove { endpoint }, NOW);
    assert_eq!(events.len(), 1);
    assert_eq!(svc.source_count(), 0);
    assert!(svc.registered_file_hashes().is_empty());
    match events[0] {
        ReaskEvent::SourceReleased { endpoint: released } => assert_eq!(
            released, lease_endpoint,
            "the release must carry the TCP lease key, not the UDP routing endpoint"
        ),
        other => panic!("expected SourceReleased, got {other:?}"),
    }
}

#[test]
fn register_command_respects_initial_reask_delay() {
    let mut svc = service();
    let file_hash = Ed2kHash::from_bytes([0xAC; 16]);
    let endpoint = at(Ipv4Addr::new(198, 51, 100, 8), 4672);
    let events = apply_reask_command(
        &mut svc,
        ReaskCommand::Register(ReaskDetachArgs {
            file_hash,
            endpoint,
            tcp_port: 4662,
            udp_version: 4,
            initial_reask_delay: FILE_REASK_TIME,
            user_hash: None,
            should_crypt: false,
            low_id: false,
            buddy_endpoint: None,
            buddy_id: None,
        }),
        NOW,
    );
    assert_eq!(svc.source_count(), 1);
    assert!(events.is_empty());

    let not_due = NOW + 1 * SECOND;
    let out = svc.tick(not_due, 20 * SECOND, &Vec::new());
    assert!(out.send.is_empty());

    let due = NOW + FILE_REASK_TIME + 1 * SECOND;
    let out = svc.tick(due, 20 * SECOND, &Vec::new());
    assert_eq!(out.send.len(), 1);
}

#[test]
fn remove_command_for_unknown_endpoint_releases_no_lease() {
    let mut svc = service();
    let events = apply_reask_command(
        &mut svc,
        ReaskCommand::Remove {
            endpoint: at(Ipv4Addr::new(203, 0, 113, 1), 4672),
        },
        NOW,
    );
    assert!(events.is_empty());
}

#[test]
fn reengage_releases_lease_before_signalling_source_ready() {
    let file_hash = Ed2kHash::from_bytes([0x33; 16]);
    let endpoint = at(Ipv4Addr::new(198, 51, 100, 9), 4672);
    let lease_endpoint = at(Ipv4Addr::new(198, 51, 100, 9), 4662);
    let events = routed_reply_events(
        ReaskAction::UpdatedRank(REENGAGE_RANK_THRESHOLD),
        file_hash,
        endpoint,
        lease_endpoint,
    );
    assert_eq!(events.len(), 2);
    match &events[0] {
        ReaskEvent::SourceReleased { endpoint: released } => assert_eq!(
            *released, lease_endpoint,
            "the release must carry the TCP lease key, not the UDP routing endpoint"
        ),
        other => panic!("expected SourceReleased first, got {other:?}"),
    }
    match &events[1] {
        ReaskEvent::SourceReady { file_hash: ready } => assert_eq!(*ready, file_hash),
        other => panic!("expected SourceReady second, got {other:?}"),
    }
}

#[test]
fn deep_rank_keeps_source_and_releases_no_lease() {
    let events = routed_reply_events(
        ReaskAction::UpdatedRank(REENGAGE_RANK_THRESHOLD + 1),
        Ed2kHash::from_bytes([0x44; 16]),
        at(Ipv4Addr::new(198, 51, 100, 10), 4672),
        at(Ipv4Addr::new(198, 51, 100, 10), 4662),
    );
    assert!(
        events.is_empty(),
        "deep rank must keep reasking, lease held"
    );
}

#[test]
fn dropped_source_is_dead_listed_then_releases_its_lease() {
    let endpoint = at(Ipv4Addr::new(198, 51, 100, 11), 4672);
    let lease_endpoint = at(Ipv4Addr::new(198, 51, 100, 11), 4662);
    let hash = Ed2kHash::from_bytes([0x55; 16]);
    let events = routed_reply_events(ReaskAction::DropSource, hash, endpoint, lease_endpoint);
    assert_eq!(events.len(), 2);
    match &events[0] {
        ReaskEvent::SourceDead {
            file_hash,
            endpoint: dead,
        } => {
            assert_eq!(*file_hash, hash);
            assert_eq!(*dead, endpoint);
        }
        other => panic!("expected SourceDead, got {other:?}"),
    }
    match &events[1] {
        ReaskEvent::SourceReleased { endpoint: released } => assert_eq!(
            *released, lease_endpoint,
            "the release must carry the TCP lease key, not the UDP routing endpoint"
        ),
        other => panic!("expected SourceReleased, got {other:?}"),
    }
}

fn buddy() -> Ed2kHash {
    Ed2kHash::from_bytes([0x11; 16])
}

fn file() -> Ed2kHash {
    Ed2kHash::from_bytes([0xAB; 16])
}

fn callback(extra_tail: &[u8]) -> ForwardedReask {
    let mut forwarded_tail = file().0.to_vec();
    forwarded_tail.extend_from_slice(extra_tail);
    ForwardedReask {
        buddy_id: buddy(),
        file_hash: file(),
        forwarded_tail,
    }
}

#[test]
fn relay_frame_strips_buddy_id_and_prepends_requester_endpoint() {
    let ip = Ipv4Addr::new(203, 0, 113, 7);
    let port = 4672u16;
    let frame = encode_reask_callback_tcp_relay(&callback(&[0x07, 0x00, 0x05, 0x00]), ip, port);

    assert_eq!(frame[0], OP_EMULEPROT);
    assert_eq!(frame[5], OP_REASKCALLBACKTCP);
    let declared_len = u32::from_le_bytes(frame[1..5].try_into().unwrap()) as usize;
    let body = &frame[6..];
    assert_eq!(declared_len, body.len() + 1, "len counts opcode + body");

    assert_eq!(&body[..4], &ip.octets());
    assert_eq!(&body[4..6], &port.to_le_bytes());
    assert_eq!(&body[6..22], &file().0);
    assert!(!body.windows(16).any(|w| w == buddy().0));
}

#[test]
fn relay_body_matches_oracle_layout_for_low_version() {
    let ip = Ipv4Addr::new(1, 2, 3, 4);
    let port = 0x1234u16;
    let frame = encode_reask_callback_tcp_relay(&callback(&[]), ip, port);
    let body = &frame[6..];
    let mut expected = Vec::new();
    expected.extend_from_slice(&[0x01, 0x02, 0x03, 0x04]);
    expected.extend_from_slice(&[0x34, 0x12]);
    expected.extend_from_slice(&file().0);
    assert_eq!(body, expected.as_slice());
}

#[test]
fn relay_forwards_opaque_tail_verbatim() {
    let ip = Ipv4Addr::new(203, 0, 113, 7);
    let port = 4672u16;
    let opaque = [0xDE, 0xAD, 0xBE];
    let frame = encode_reask_callback_tcp_relay(&callback(&opaque), ip, port);
    let body = &frame[6..];
    assert_eq!(&body[..4], &ip.octets());
    assert_eq!(&body[4..6], &port.to_le_bytes());
    assert_eq!(&body[6..22], &file().0);
    assert_eq!(&body[22..], &opaque, "opaque tail forwarded verbatim");
}

#[test]
fn relay_forwards_callback_to_matching_held_buddy_socket() {
    let mut registry = BuddySocketRegistry::new();
    let served_buddy_id = NodeId::from_bytes([0x11; 16]);
    assert!(registry.attach_inbound(served_buddy_id));

    let requester = from(Ipv4Addr::new(198, 51, 100, 7), 4672);
    let relay = relay_buddy_reask_callback(&registry, &callback(&[0x03, 0x00]), requester)
        .expect("a relayed OP_REASKCALLBACKTCP frame");
    assert_eq!(relay.buddy_id, served_buddy_id);
    let frame = relay.frame;
    assert_eq!(frame[0], OP_EMULEPROT);
    assert_eq!(frame[5], OP_REASKCALLBACKTCP);
    let body = &frame[6..];
    assert_eq!(u16::from_le_bytes(body[4..6].try_into().unwrap()), 4672);
    assert_eq!(&body[6..22], &file().0);

    let mut mismatch = callback(&[]);
    mismatch.buddy_id = Ed2kHash::from_bytes([0x99; 16]);
    assert!(
        relay_buddy_reask_callback(&registry, &mismatch, requester).is_none(),
        "mismatched buddy-id must not relay"
    );
}

#[test]
fn relay_drops_non_ipv4_requester() {
    let mut registry = BuddySocketRegistry::new();
    assert!(registry.attach_inbound(NodeId::from_bytes([0x11; 16])));
    let v6 = SocketAddr { ip: IpAddr::V6(0x2001_0db8_0000_0000_0000_0000_0000_0001), port: 4672 };
    assert!(
        relay_buddy_reask_callback(&registry, &callback(&[]), v6).is_none(),
        "non-IPv4 requester must be dropped"
    );
}

#[test]
fn relayed_body_decodes_through_the_source_side_decoder() {
    let ip = Ipv4Addr::new(198, 51, 100, 9);
    let port = 5000u16;
    let frame = encode_reask_callback_tcp_relay(&callback(&[0x02, 0x00]), ip, port);
    let body = &frame[6..];
    let dest_ip = Ipv4Addr::new(body[0], body[1], body[2], body[3]);
    let dest_port = u16::from_le_bytes(body[4..6].try_into().unwrap());
    let file_hash = Ed2kHash(body[6..22].try_into().unwrap());
    assert_eq!(dest_ip, ip);
    assert_eq!(dest_port, port);
    assert_eq!(file_hash, file());
}

#[test]
fn client_udp_dump_prefix_uses_emulebb_rust_name() {
    assert_eq!(
        CLIENT_UDP_DUMP_FILE_PREFIX,
        "emulebb-rust-ed2k-client-udp-dump-"
    );
}

#[test]
fn client_udp_dump_names_reask_opcodes() {
    assert_eq!(client_udp_opcode_name(OP_REASKFILEPING), "OP_REASKFILEPING");
    assert_eq!(client_udp_opcode_name(OP_REASKACK), "OP_REASKACK");
    assert_eq!(
        client_udp_opcode_name(OP_REASKCALLBACKUDP),
        "OP_REASKCALLBACKUDP"
    );
    assert_eq!(
        client_udp_opcode_name(OP_DIRECTCALLBACKREQ),
        "OP_DIRECTCALLBACKREQ"
    );
    assert_eq!(client_udp_opcode_name(0xFF), "UNKNOWN");
}

#[test]
fn client_udp_dump_decodes_obfuscated_datagram_for_opcode_metadata() {
    let dest_hash = [0x21; 16];
    let sender_ip = [203, 0, 113, 9];
    let file_hash = Ed2kHash::from_bytes([0xAB; 16]);
    let target = OutboundReaskTarget {
        dest_user_hash: dest_hash,
        our_public_ip: sender_ip,
        obfuscate: true,
    };
    let datagram = build_reask_file_ping_datagram(&file_hash, None, 1, 4, &target);
    let decoded = decode_client_udp_for_dump(&dest_hash, sender_ip, &datagram)
        .expect("obfuscated datagram decoded");
    assert_eq!(decoded.protocol_marker, 0xC5);
    assert_eq!(decoded.opcode, OP_REASKFILEPING);
    assert_eq!(decoded.transport_mode(), "obfuscated");
}

#[test]
fn client_udp_dump_rejects_non_client_foreign_datagrams() {
    assert!(decode_client_udp_for_dump(&[0x21; 16], [203, 0, 113, 9], &[1]).is_none());
}

#[test]
fn retry_tcp_timeout_releases_held_lease() {
    let mut svc = service();
    let file_hash = Ed2kHash::from_bytes([0x66; 16]);
    let endpoint = at(Ipv4Addr::new(198, 51, 100, 12), 4672);
    let lease_endpoint = at(Ipv4Addr::new(198, 51, 100, 12), 4662);
    apply_reask_command(&mut svc, ReaskCommand::Register(detach(file_hash, 12)), NOW);
    assert_eq!(svc.remove_source(endpoint.ip, endpoint.port), Some(lease_endpoint));
    assert_eq!(svc.remove_source(endpoint.ip, endpoint.port), None);

    apply_reask_command(&mut svc, ReaskCommand::Register(detach(file_hash, 12)), NOW);
    let pacing = ReaskTickPacing::unbounded();
    let mut now = NOW;
    let mut events = Vec::new();
    for _ in 0..5 {
        let plan = drive_reask_tick(&mut svc, now, &Vec::new(), &pacing);
        events.extend(plan.events);
        now += FILE_REASK_TIME;
        let plan = drive_reask_tick(&mut svc, now, &Vec::new(), &pacing);
        events.extend(plan.events);
        now += FILE_REASK_TIME;
    }
    assert_eq!(events, vec![ReaskEvent::SourceReleased { endpoint: lease_endpoint }]);
    assert_eq!(svc.source_count(), 0);
}

#[test]
fn inbound_direct_callback_req_raises_connect_out_event() {
    let mut svc = service();
    let requester = from(Ipv4Addr::new(198, 51, 100, 7), 4662);
    let mut datagram = vec![0xC5u8, OP_DIRECTCALLBACKREQ];
    datagram.extend_from_slice(&4662u16.to_le_bytes());
    datagram.extend_from_slice(&[0x5A; 16]);
    datagram.push(0x01);
    let plan = handle_inbound_datagram(
        &mut svc,
        &datagram,
        requester,
        false,
        &BanStore::new(),
        NOW,
    );
    assert_eq!(
        plan.events,
        vec![ReaskEvent::DirectCallbackReq {
            requester_ip: Ipv4Addr::new(198, 51, 100, 7),
            tcp_port: 4662,
            user_hash: [0x5A; 16],
            connect_options: 0x01,
        }]
    );
}

#[test]
fn inbound_reask_datagram_from_filtered_ip_is_dropped() {
    let filtered = from(Ipv4Addr::new(198, 51, 100, 7), 4672);
    let allowed = from(Ipv4Addr::new(203, 0, 113, 9), 4672);
    assert!(is_filtered_reask_source(filtered, true));
    assert!(!is_filtered_reask_source(allowed, false));
}

#[test]
fn empty_filter_allows_all_reask_sources() {
    assert!(!is_filtered_reask_source(from(Ipv4Addr::new(198, 51, 100, 7), 4672), false));
}

#[test]
fn filtered_banned_and_ipv6_senders_are_dropped() {
    let v4 = from(Ipv4Addr::new(198, 51, 100, 7), 4672);
    let v6 = SocketAddr { ip: IpAddr::V6(1), port: 4672 };
    assert!(is_filtered_reask_source(v4, true));
    assert!(!is_filtered_reask_source(v4, false));
    assert!(is_filtered_reask_source(v6, false));

    let ping = [vec![0xC5u8, OP_REASKFILEPING], vec![0xAB; 16], vec![0, 0, 0, 0]].concat();
    let mut svc = service();
    let mut bans = BanStore::new();
    let plan = handle_inbound_datagram(&mut svc, &ping, v4, false, &bans, NOW);
    assert!(plan.answer.is_some());
    let plan = handle_inbound_datagram(&mut svc, &ping, v4, true, &bans, NOW);
    assert!(plan.answer.is_none());
    bans.ban_at(Some(Ipv4Addr::new(198, 51, 100, 7)), None, NOW);
    let plan = handle_inbound_datagram(&mut svc, &ping, v4, false, &bans, NOW);
    assert!(plan.answer.is_none());
}

#[test]
fn near_rank_releases_and_forgets_the_source() {
    let mut svc = service();
    let file_hash = Ed2kHash::from_bytes([0x66; 16]);
    apply_reask_command(&mut svc, ReaskCommand::Register(detach(file_hash, 12)), NOW);
    let plan = drive_reask_tick(&mut svc, NOW, &Vec::new(), &ReaskTickPacing::unbounded());
    assert_eq!(plan.send.len(), 1);
    let peer = Ipv4Addr::new(198, 51, 100, 12);
    let ack = build_reask_ack_datagram(
        None,
        4,
        4,
        &OutboundReaskTarget {
            dest_user_hash: [0x10; 16],
            our_public_ip: peer.octets(),
            obfuscate: true,
        },
    );
    let plan = handle_inbound_datagram(
        &mut svc,
        &ack,
        from(peer, 4672),
        false,
        &BanStore::new(),
        NOW + SECOND,
    );
    assert_eq!(
        plan.events,
        vec![
            ReaskEvent::SourceReleased { endpoint: at(peer, 4662) },
            ReaskEvent::SourceReady { file_hash },
        ]
    );
    assert_eq!(svc.source_count(), 0);
}

#[test]
fn relay_and_marking_pass_through_the_runtime() {
    let mut svc = service();
    let mut datagram = vec![0xC5u8, OP_REASKCALLBACKUDP];
    datagram.extend_from_slice(&[0x11; 16]);
    datagram.extend_from_slice(&[0xAB; 16]);
    let plan = handle_inbound_datagram(
        &mut svc,
        &datagram,
        from(Ipv4Addr::new(198, 51, 100, 7), 4672),
        false,
        &BanStore::new(),
        NOW,
    );
    assert_eq!(plan.relay.unwrap().0.buddy_id, buddy());

    let file_hash = Ed2kHash::from_bytes([0x66; 16]);
    apply_reask_command(&mut svc, ReaskCommand::Register(detach(file_hash, 12)), NOW);
    let endpoint = at(Ipv4Addr::new(198, 51, 100, 12), 4672);
    apply_reask_command(&mut svc, ReaskCommand::MarkNoNeededParts { endpoint }, NOW);
    let plan = drive_reask_tick(
        &mut svc,
        NOW + FILE_REASK_TIME,
        &Vec::new(),
        &ReaskTickPacing::unbounded(),
    );
    assert!(plan.send.is_empty());
}

#[test]
fn detached_source_keeps_what_the_session_learned() {
    let mut args = detach(Ed2kHash::from_bytes([1; 16]), 3);
    args.user_hash = Some([0x55; 16]);
    args.should_crypt = true;
    args.initial_reask_delay = 7;
    let source = build_detached_source(args, NOW);
    assert_eq!(source.next_reask, NOW + 7);
    assert_eq!(source.lease_endpoint, at(Ipv4Addr::new(198, 51, 100, 3), 4662));
    assert_eq!(source.user_hash, Some([0x55; 16]));
    assert!(source.should_crypt);
}

#[test]
fn direct_callback_is_obfuscated_only_with_a_key() {
    let mut args = DirectCallbackArgs {
        dest: from(Ipv4Addr::new(198, 51, 100, 7), 4672),
        our_tcp_port: 4662,
        our_user_hash: [0x10; 16],
        connect_options: 1,
        dest_user_hash: None,
        obfuscate: true,
    };
    let plain = build_direct_callback(&args, [203, 0, 113, 9]);
    assert!(!plain.obfuscated);
    assert_eq!(plain.bytes[..2], [0xC5, OP_DIRECTCALLBACKREQ]);
    args.dest_user_hash = Some([0x21; 16]);
    let hidden = build_direct_callback(&args, [203, 0, 113, 9]);
    assert!(hidden.obfuscated);
    match parse_inbound_reask_datagram(&hidden.bytes, [203, 0, 113, 9], &[0x21; 16], 4) {
        Some(InboundReaskMessage::DirectCallbackReq(req)) => assert_eq!(req.tcp_port, 4662),
        other => panic!("expected DirectCallbackReq, got {other:?}"),
    }
}

#[test]
fn origination_goes_to_the_buddy_of_a_low_id_source() {
    let source = ReaskSource::new(at(Ipv4Addr::new(198, 51, 100, 7), 4672), file(), 4, NOW);
    assert!(build_downloader_callback_origination(&source, None, 1).is_none());
    let buddy_endpoint = at(Ipv4Addr::new(203, 0, 113, 80), 5000);
    let source = source.with_buddy(true, Some(buddy_endpoint), Some([0x99; 16]));
    let (dest, datagram) =
        build_downloader_callback_origination(&source, Some(&[true, false]), 4).unwrap();
    assert_eq!(dest, buddy_endpoint);
    let decoded = decode_reask_callback_udp(&datagram.payload, 4).unwrap();
    assert_eq!(decoded.part_status, Some(vec![true, false]));
    assert_eq!(decoded.complete_source_count, Some(4));
    assert_eq!(relayed_ping(file()).file_hash, file());
}

#[test]
fn traces_are_capped_and_named() {
    assert_eq!(hex_preview(&[0x00, 0xAB]), "00ab");
    assert_eq!(hex_preview(&[0x11; 64]), "11".repeat(64));
    assert_eq!(hex_preview(&[0x11; 70]), format!("{}\u{2026}(+6 more)", "11".repeat(64)));
    {
        assert_eq!(capped_packet_hex(&[0xFF]), ("ff".to_string(), false));
        let long = vec![0u8; MAX_CLIENT_UDP_DUMP_HEX_BYTES + 1];
        let (hex, cut) = capped_packet_hex(&long);
        assert!(cut);
        assert_eq!(hex.len(), 2 * MAX_CLIENT_UDP_DUMP_HEX_BYTES);
        assert_eq!(client_udp_protocol_name(0xC5), "emule");
        assert_eq!(client_udp_protocol_name(0xE3), "unknown");
        assert_eq!(
            client_udp_trace_key(SocketAddr::v4(Ipv4Addr::new(198, 51, 100, 7), 4672)),
            "client_udp:198.51.100.7:4672"
        );
        let v6 = SocketAddr { ip: IpAddr::V6(0x2001_0db8 << 96 | 1), port: 4672 };
        assert_eq!(client_udp_trace_key(v6), "client_udp:[2001:db8::1]:4672");
        assert_eq!(REASK_REPLY_TIMEOUT, 30 * SECOND);
    }
}
