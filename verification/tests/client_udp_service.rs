use emulebb_ed2k::addr::{IpAddr, Ipv4Addr, SocketAddr, SocketAddrV4};
use emulebb_ed2k::ed2k_client_udp::codec::{
    decode_reask_callback_udp, OP_DIRECTCALLBACKREQ, OP_REASKCALLBACKUDP,
};
use emulebb_ed2k::ed2k_client_udp::outbound::{
    build_reask_ack_datagram, build_reask_callback_udp_datagram, build_reask_file_ping_datagram,
    OutboundReaskTarget,
};
use emulebb_ed2k::ed2k_client_udp::service::{
    ReaskInboundOutcome, ReaskService, ReaskTickPacing, TransferReaskInfo,
};
use emulebb_ed2k::ed2k_client_udp::state::{ReaskAction, ReaskSource, FILE_REASK_TIME};
use emulebb_ed2k::ids::Ed2kHash;

const NOW: u64 = 1_000_000;
const SECOND: u64 = 1_000;

fn at(ip: Ipv4Addr, port: u16) -> SocketAddrV4 {
    SocketAddrV4 { ip, port }
}

fn from(ip: Ipv4Addr, port: u16) -> SocketAddr {
    SocketAddr { ip: IpAddr::V4(ip), port }
}

fn infos(
    part_status: Option<Vec<bool>>,
    complete_source_count: u16,
) -> Vec<(Ed2kHash, TransferReaskInfo)> {
    vec![(file_hash(), TransferReaskInfo { part_status, complete_source_count })]
}

fn peer_lease_v4() -> SocketAddrV4 {
    at(Ipv4Addr::new(198, 51, 100, 7), 4662)
}

fn register_leased(svc: &mut ReaskService, now: u64) {
    let src = ReaskSource::new(peer_v4(), file_hash(), 4, now)
        .with_lease_endpoint(peer_lease_v4())
        .with_obfuscation(PEER_HASH, true);
    svc.register_source(file_hash(), src);
}

const OUR_HASH: [u8; 16] = [0x10; 16];
const PEER_HASH: [u8; 16] = [0x55; 16];

fn file_hash() -> Ed2kHash {
    Ed2kHash::from_bytes([0xAB; 16])
}

fn peer_addr() -> SocketAddr {
    from(Ipv4Addr::new(198, 51, 100, 7), 4672)
}

fn peer_v4() -> SocketAddrV4 {
    at(Ipv4Addr::new(198, 51, 100, 7), 4672)
}

fn service() -> ReaskService {
    ReaskService::new(OUR_HASH, 4, Ipv4Addr::new(203, 0, 113, 9))
}

fn register(svc: &mut ReaskService, now: u64) {
    let src =
        ReaskSource::new(peer_v4(), file_hash(), 4, now).with_obfuscation(PEER_HASH, true);
    svc.register_source(file_hash(), src);
}

#[test]
fn service_tick_originates_buddy_callback_udp_for_a_low_id_buddy_source() {
    let now = NOW;
    let mut svc = service();
    let source_endpoint = at(Ipv4Addr::new(198, 51, 100, 50), 4672);
    let buddy_endpoint = at(Ipv4Addr::new(203, 0, 113, 80), 5000);
    let buddy_id = [0x99u8; 16];
    let src = ReaskSource::new(source_endpoint, file_hash(), 4, now).with_buddy(
        true,
        Some(buddy_endpoint),
        Some(buddy_id),
    );
    svc.register_source(file_hash(), src);

    let out = svc.tick(now, 20 * SECOND, &infos(Some(vec![true, false]), 4));
    assert_eq!(out.send.len(), 1);
    let (dest, datagram) = &out.send[0];
    assert_eq!(
        *dest,
        buddy_endpoint
    );
    assert_eq!(datagram.bytes[0], 0xC5);
    assert_eq!(datagram.bytes[1], OP_REASKCALLBACKUDP);
    let decoded = decode_reask_callback_udp(&datagram.bytes[2..], 4).unwrap();
    assert_eq!(decoded.buddy_id.0, buddy_id);
    assert_eq!(decoded.file_hash, file_hash());
}

#[test]
fn service_tick_emits_due_ping_then_routes_the_ack() {
    let now = NOW;
    let mut svc = service();
    register(&mut svc, now);

    let out = svc.tick(now, 20 * SECOND, &infos(Some(vec![true, false]), 1));
    assert_eq!(out.send.len(), 1);
    assert_eq!(out.send[0].0, peer_v4());

    let ack = build_reask_ack_datagram(
        None,
        12,
        4,
        &OutboundReaskTarget {
            dest_user_hash: OUR_HASH,
            our_public_ip: peer_v4().ip.octets(),
            obfuscate: true,
        },
    );
    let outcome = svc.handle_inbound(&ack, peer_addr(), now);
    assert_eq!(
        outcome,
        ReaskInboundOutcome::RoutedReply {
            file_hash: file_hash(),
            endpoint: peer_v4(),
            lease_endpoint: peer_v4(),
            action: ReaskAction::UpdatedRank(12),
        }
    );
}

#[test]
fn service_tick_paced_suppresses_sends_when_the_udp_cap_denies_a_file() {
    let now = NOW;
    let mut svc = service();
    register(&mut svc, now);

    let out = svc.tick_paced(
        now,
        20 * SECOND,
        &infos(Some(vec![true, false]), 1),
        &ReaskTickPacing {
            rotate_offset: 0,
            admitted: Some(Vec::new()),
        },
    );
    assert!(out.send.is_empty());

    let out = svc.tick_paced(
        now,
        20 * SECOND,
        &infos(Some(vec![true, false]), 1),
        &ReaskTickPacing {
            rotate_offset: 0,
            admitted: Some(vec![file_hash()]),
        },
    );
    assert_eq!(out.send.len(), 1);
}

#[test]
fn service_unsolicited_reply_without_pending_is_ignored() {
    let now = NOW;
    let mut svc = service();
    register(&mut svc, now);
    let ack = build_reask_ack_datagram(
        None,
        1,
        4,
        &OutboundReaskTarget {
            dest_user_hash: OUR_HASH,
            our_public_ip: peer_v4().ip.octets(),
            obfuscate: true,
        },
    );
    assert_eq!(
        svc.handle_inbound(&ack, peer_addr(), now),
        ReaskInboundOutcome::Ignored
    );
}

#[test]
fn service_inbound_file_ping_is_handed_back_for_the_caller_to_answer() {
    let now = NOW;
    let mut svc = service();
    let ping = build_reask_file_ping_datagram(
        &file_hash(),
        None,
        0,
        4,
        &OutboundReaskTarget {
            dest_user_hash: OUR_HASH,
            our_public_ip: peer_v4().ip.octets(),
            obfuscate: true,
        },
    );
    match svc.handle_inbound(&ping, peer_addr(), now) {
        ReaskInboundOutcome::AnswerNeeded { ping, from } => {
            assert_eq!(ping.file_hash, file_hash());
            assert_eq!(from, peer_addr());
        }
        other => panic!("expected AnswerNeeded, got {other:?}"),
    }
}

#[test]
fn service_file_not_found_drops_source_and_clears_routing() {
    let now = NOW;
    let mut svc = service();
    register(&mut svc, now);
    let _ = svc.tick(now, 20 * SECOND, &infos(None, 0));
    let fnf = vec![0xC5u8, 0x92];
    let outcome = svc.handle_inbound(&fnf, peer_addr(), now);
    assert_eq!(
        outcome,
        ReaskInboundOutcome::RoutedReply {
            file_hash: file_hash(),
            endpoint: peer_v4(),
            lease_endpoint: peer_v4(),
            action: ReaskAction::DropSource,
        }
    );
    assert_eq!(svc.source_count(), 0);
    let again = svc.handle_inbound(&fnf, peer_addr(), now);
    assert_eq!(again, ReaskInboundOutcome::Ignored);
}

#[test]
fn service_inbound_callback_udp_is_handed_back_for_buddy_relay() {
    let now = NOW;
    let mut svc = service();
    let buddy_id = Ed2kHash::from_bytes([0x77; 16]);
    let datagram =
        build_reask_callback_udp_datagram(&buddy_id, &file_hash(), Some(&[true, false]), 3, 4);
    match svc.handle_inbound(&datagram, peer_addr(), now) {
        ReaskInboundOutcome::BuddyRelay { callback, from } => {
            assert_eq!(callback.buddy_id, buddy_id);
            assert_eq!(callback.file_hash, file_hash());
            assert_eq!(from, peer_addr());
        }
        other => panic!("expected BuddyRelay, got {other:?}"),
    }
}

#[test]
fn service_inbound_direct_callback_req_is_handed_back_for_connect_out() {
    let now = NOW;
    let mut svc = service();
    let mut body = Vec::new();
    body.extend_from_slice(&4662u16.to_le_bytes());
    body.extend_from_slice(&PEER_HASH);
    body.push(0x01);
    let mut datagram = vec![0xC5u8, OP_DIRECTCALLBACKREQ];
    datagram.extend_from_slice(&body);
    match svc.handle_inbound(&datagram, peer_addr(), now) {
        ReaskInboundOutcome::DirectCallbackReq { req, from } => {
            assert_eq!(req.tcp_port, 4662);
            assert_eq!(req.user_hash, PEER_HASH);
            assert_eq!(from, peer_addr());
        }
        other => panic!("expected DirectCallbackReq, got {other:?}"),
    }
}

#[test]
fn service_junk_and_non_ipv4_are_ignored() {
    let now = NOW;
    let mut svc = service();
    register(&mut svc, now);
    assert_eq!(
        svc.handle_inbound(&[0x42; 30], peer_addr(), now),
        ReaskInboundOutcome::Ignored
    );
    let v6 = SocketAddr { ip: IpAddr::V6(0x2001_0db8_0000_0000_0000_0000_0000_0001), port: 4672 };
    assert_eq!(
        svc.handle_inbound(&[0xC5, 0x93], v6, now),
        ReaskInboundOutcome::Ignored
    );
}

#[test]
fn service_timed_out_reask_surfaces_in_tick_output() {
    let now = NOW;
    let timeout = 20 * SECOND;
    let mut svc = service();
    register(&mut svc, now);
    let _ = svc.tick(now, timeout, &infos(None, 0));
    let later = now + timeout + 1 * SECOND;
    let out = svc.tick(later, timeout, &infos(None, 0));
    assert_eq!(out.timed_out.len(), 1);
    assert_eq!(out.timed_out[0].0, peer_v4());
}

#[test]
fn tests_tick_originates_buddy_callback_udp_for_a_low_id_buddy_source() {
    let now = NOW;
    let mut svc = service();
    let source_endpoint = at(Ipv4Addr::new(198, 51, 100, 50), 4672);
    let buddy_endpoint = at(Ipv4Addr::new(203, 0, 113, 80), 5000);
    let buddy_id = [0x99u8; 16];
    let src = ReaskSource::new(source_endpoint, file_hash(), 4, now).with_buddy(
        true,
        Some(buddy_endpoint),
        Some(buddy_id),
    );
    svc.register_source(file_hash(), src);

    let out = svc.tick(now, 20 * SECOND, &infos(Some(vec![true, false]), 4));
    assert_eq!(out.send.len(), 1);
    let (dest, datagram) = &out.send[0];
    assert_eq!(
        *dest,
        buddy_endpoint
    );
    assert_eq!(datagram.bytes[0], 0xC5);
    assert_eq!(datagram.bytes[1], OP_REASKCALLBACKUDP);
    assert_eq!(datagram.opcode, OP_REASKCALLBACKUDP);
    assert!(!datagram.obfuscated);
    let decoded = decode_reask_callback_udp(&datagram.payload, 4).unwrap();
    assert_eq!(decoded.buddy_id.0, buddy_id);
    assert_eq!(decoded.file_hash, file_hash());
}

#[test]
fn tests_tick_emits_due_ping_then_routes_the_ack() {
    let now = NOW;
    let mut svc = service();
    register_leased(&mut svc, now);

    let out = svc.tick(now, 20 * SECOND, &infos(Some(vec![true, false]), 1));
    assert_eq!(out.send.len(), 1);
    assert_eq!(out.send[0].0, peer_v4());

    let ack = build_reask_ack_datagram(
        None,
        12,
        4,
        &OutboundReaskTarget {
            dest_user_hash: OUR_HASH,
            our_public_ip: peer_v4().ip.octets(),
            obfuscate: true,
        },
    );
    let outcome = svc.handle_inbound(&ack, peer_addr(), now);
    assert_eq!(
        outcome,
        ReaskInboundOutcome::RoutedReply {
            file_hash: file_hash(),
            endpoint: peer_v4(),
            lease_endpoint: peer_lease_v4(),
            action: ReaskAction::UpdatedRank(12),
        }
    );
}

#[test]
fn tests_tick_paced_suppresses_sends_when_the_udp_cap_denies_a_file() {
    let now = NOW;
    let mut svc = service();
    register_leased(&mut svc, now);
    let out = svc.tick_paced(
        now,
        20 * SECOND,
        &infos(Some(vec![true, false]), 1),
        &ReaskTickPacing {
            rotate_offset: 0,
            admitted: Some(Vec::new()),
        },
    );
    assert!(out.send.is_empty());

    let out = svc.tick_paced(
        now,
        20 * SECOND,
        &infos(Some(vec![true, false]), 1),
        &ReaskTickPacing {
            rotate_offset: 0,
            admitted: Some(vec![file_hash()]),
        },
    );
    assert_eq!(out.send.len(), 1);
}

#[test]
fn tests_unsolicited_reply_without_pending_is_ignored() {
    let now = NOW;
    let mut svc = service();
    register_leased(&mut svc, now);
    let ack = build_reask_ack_datagram(
        None,
        1,
        4,
        &OutboundReaskTarget {
            dest_user_hash: OUR_HASH,
            our_public_ip: peer_v4().ip.octets(),
            obfuscate: true,
        },
    );
    assert_eq!(
        svc.handle_inbound(&ack, peer_addr(), now),
        ReaskInboundOutcome::Ignored
    );
}

#[test]
fn tests_inbound_file_ping_is_handed_back_for_the_caller_to_answer() {
    let now = NOW;
    let mut svc = service();
    let ping = build_reask_file_ping_datagram(
        &file_hash(),
        None,
        0,
        4,
        &OutboundReaskTarget {
            dest_user_hash: OUR_HASH,
            our_public_ip: peer_v4().ip.octets(),
            obfuscate: true,
        },
    );
    match svc.handle_inbound(&ping, peer_addr(), now) {
        ReaskInboundOutcome::AnswerNeeded { ping, from } => {
            assert_eq!(ping.file_hash, file_hash());
            assert_eq!(from, peer_addr());
        }
        other => panic!("expected AnswerNeeded, got {other:?}"),
    }
}

#[test]
fn tests_file_not_found_drops_source_and_clears_routing() {
    let now = NOW;
    let mut svc = service();
    register_leased(&mut svc, now);
    let _ = svc.tick(now, 20 * SECOND, &infos(None, 0));
    let fnf = vec![0xC5u8, 0x92];
    let outcome = svc.handle_inbound(&fnf, peer_addr(), now);
    assert_eq!(
        outcome,
        ReaskInboundOutcome::RoutedReply {
            file_hash: file_hash(),
            endpoint: peer_v4(),
            lease_endpoint: peer_lease_v4(),
            action: ReaskAction::DropSource,
        }
    );
    assert_eq!(svc.source_count(), 0);
    assert_eq!(
        svc.handle_inbound(&fnf, peer_addr(), now),
        ReaskInboundOutcome::Ignored
    );
}

#[test]
fn tests_inbound_callback_udp_is_handed_back_for_buddy_relay() {
    let now = NOW;
    let mut svc = service();
    let buddy_id = Ed2kHash::from_bytes([0x77; 16]);
    let datagram =
        build_reask_callback_udp_datagram(&buddy_id, &file_hash(), Some(&[true, false]), 3, 4);
    match svc.handle_inbound(&datagram, peer_addr(), now) {
        ReaskInboundOutcome::BuddyRelay { callback, from } => {
            assert_eq!(callback.buddy_id, buddy_id);
            assert_eq!(callback.file_hash, file_hash());
            assert_eq!(from, peer_addr());
        }
        other => panic!("expected BuddyRelay, got {other:?}"),
    }
}

#[test]
fn tests_inbound_direct_callback_req_is_handed_back_for_connect_out() {
    let now = NOW;
    let mut svc = service();
    let mut body = Vec::new();
    body.extend_from_slice(&4662u16.to_le_bytes());
    body.extend_from_slice(&PEER_HASH);
    body.push(0x01);
    let mut datagram = vec![0xC5u8, OP_DIRECTCALLBACKREQ];
    datagram.extend_from_slice(&body);
    match svc.handle_inbound(&datagram, peer_addr(), now) {
        ReaskInboundOutcome::DirectCallbackReq { req, from } => {
            assert_eq!(req.tcp_port, 4662);
            assert_eq!(req.user_hash, PEER_HASH);
            assert_eq!(from, peer_addr());
        }
        other => panic!("expected DirectCallbackReq, got {other:?}"),
    }
}

#[test]
fn tests_junk_and_non_ipv4_are_ignored() {
    let now = NOW;
    let mut svc = service();
    register_leased(&mut svc, now);
    assert_eq!(
        svc.handle_inbound(&[0x42; 30], peer_addr(), now),
        ReaskInboundOutcome::Ignored
    );
    let v6 = SocketAddr { ip: IpAddr::V6(0x2001_0db8_0000_0000_0000_0000_0000_0001), port: 4672 };
    assert_eq!(
        svc.handle_inbound(&[0xC5, 0x93], v6, now),
        ReaskInboundOutcome::Ignored
    );
}

#[test]
fn mark_no_needed_parts_routes_by_endpoint_and_doubles_the_cadence() {
    let now = NOW;
    let mut svc = service();
    register_leased(&mut svc, now);
    let (ip, port) = (peer_v4().ip, peer_v4().port);

    assert!(svc.mark_no_needed_parts(ip, port, now));
    let out = svc.tick(now + FILE_REASK_TIME, 20 * SECOND, &infos(None, 0));
    assert!(out.send.is_empty());
    let out = svc.tick(now + FILE_REASK_TIME * 2, 20 * SECOND, &infos(None, 0));
    assert_eq!(out.send.len(), 1);
    assert!(!svc.mark_no_needed_parts(Ipv4Addr::new(198, 51, 100, 99), port, now));
}

#[test]
fn tests_timed_out_reask_surfaces_in_tick_output() {
    let now = NOW;
    let timeout = 20 * SECOND;
    let mut svc = service();
    register_leased(&mut svc, now);
    let _ = svc.tick(now, timeout, &infos(None, 0));
    let later = now + timeout + 1 * SECOND;
    let out = svc.tick(later, timeout, &infos(None, 0));
    assert_eq!(out.timed_out.len(), 1);
    assert_eq!(out.timed_out[0].0, peer_v4());
}

#[test]
fn rounds_rotate_over_the_files_in_order() {
    let mut svc = service();
    for (hash, last) in [(3u8, 1u8), (1, 2), (2, 3)] {
        let source = ReaskSource::new(
            at(Ipv4Addr::new(198, 51, 100, last), 4672),
            Ed2kHash::from_bytes([hash; 16]),
            4,
            NOW,
        );
        svc.register_source(Ed2kHash::from_bytes([hash; 16]), source);
    }
    let hashes: Vec<u8> = svc.registered_file_hashes().iter().map(|h| h.0[0]).collect();
    assert_eq!(hashes, vec![1, 2, 3]);
    assert_eq!(svc.file_source_counts().len(), 3);
    let out = svc.tick_paced(
        NOW,
        20 * SECOND,
        &Vec::new(),
        &ReaskTickPacing { rotate_offset: 4, admitted: None },
    );
    let order: Vec<u8> = out.send.iter().map(|(to, _)| to.ip.d).collect();
    assert_eq!(order, vec![3, 1, 2]);
}

#[test]
fn endpoint_registered_for_another_file_is_routed_there() {
    let mut svc = service();
    register(&mut svc, NOW);
    let other = Ed2kHash::from_bytes([0xCD; 16]);
    let source = ReaskSource::new(peer_v4(), other, 4, NOW).with_lease_endpoint(peer_lease_v4());
    svc.register_source(other, source);
    assert_eq!(svc.source_count(), 2);
    assert_eq!(svc.remove_source(peer_v4().ip, peer_v4().port), Some(peer_lease_v4()));
    assert_eq!(svc.registered_file_hashes(), vec![file_hash()]);
    assert_eq!(svc.remove_source(peer_v4().ip, peer_v4().port), None);
}

#[test]
fn denied_file_still_gives_up_late_reasks() {
    let mut svc = service();
    register(&mut svc, NOW);
    let _ = svc.tick(NOW, 20 * SECOND, &infos(None, 0));
    let out = svc.tick_paced(
        NOW + 21 * SECOND,
        20 * SECOND,
        &infos(None, 0),
        &ReaskTickPacing { rotate_offset: 0, admitted: Some(Vec::new()) },
    );
    assert_eq!(out.timed_out, vec![(peer_v4(), ReaskAction::RetryUdp)]);
    assert!(out.send.is_empty());
}
