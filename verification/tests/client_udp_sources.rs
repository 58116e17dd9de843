use emulebb_ed2k::addr::{Ipv4Addr, SocketAddrV4};
use emulebb_ed2k::ed2k_client_udp::dispatch::{parse_inbound_reask_datagram, InboundReaskMessage};
use emulebb_ed2k::ed2k_client_udp::outbound::OutboundReaskTarget;
use emulebb_ed2k::ed2k_client_udp::reciprocity::{
    answer_inbound_reask, build_reask_answer, InboundReaskAnswer, InboundReaskRequest,
};
use emulebb_ed2k::ed2k_client_udp::registry::ReaskPendingRegistry;
use emulebb_ed2k::ed2k_client_udp::source_set::ReaskSourceSet;
use emulebb_ed2k::ed2k_client_udp::state::{
    apply_reask_reply, reask_interval, should_fall_back_to_tcp, udp_reask_eligible, ReaskAction,
    ReaskReply, ReaskSource, FILE_REASK_TIME, MIN_REQUEST_TIME, UDP_MAX_QUEUE_TIME,
};
use emulebb_ed2k::ids::Ed2kHash;

const NOW: u64 = 1_000_000;
const SECOND: u64 = 1_000;

fn at(ip: Ipv4Addr, port: u16) -> SocketAddrV4 {
    SocketAddrV4 { ip, port }
}

fn hash() -> Ed2kHash {
    Ed2kHash::from_bytes([
        0x9e, 0xce, 0xd4, 0x7d, 0xf2, 0xed, 0xfb, 0xd7, 0x2f, 0x29, 0xf9, 0x34, 0x47, 0xd6,
        0x0b, 0x7b,
    ])
}

#[test]
fn state_reask_interval_doubles_for_no_needed_parts() {
    assert_eq!(reask_interval(false), FILE_REASK_TIME);
    assert_eq!(reask_interval(true), FILE_REASK_TIME * 2);
    assert!(reask_interval(false) >= MIN_REQUEST_TIME);
    assert!(UDP_MAX_QUEUE_TIME < MIN_REQUEST_TIME);
}

#[test]
fn state_udp_eligibility_requires_all_preconditions() {
    assert!(udp_reask_eligible(4672, 4, true, false, false, false));
    assert!(!udp_reask_eligible(0, 4, true, false, false, false));
    assert!(!udp_reask_eligible(4672, 0, true, false, false, false));
    assert!(!udp_reask_eligible(4672, 4, false, false, false, false));
    assert!(!udp_reask_eligible(4672, 4, true, true, false, false));
    assert!(!udp_reask_eligible(4672, 4, true, false, true, false));
    assert!(!udp_reask_eligible(4672, 4, true, false, false, true));
}

#[test]
fn state_failure_ratio_backoff_threshold() {
    assert!(!should_fall_back_to_tcp(0, 0));
    assert!(!should_fall_back_to_tcp(3, 3));
    assert!(!should_fall_back_to_tcp(10, 3));
    assert!(should_fall_back_to_tcp(10, 4));
    assert!(should_fall_back_to_tcp(4, 2));
}

#[test]
fn reask_source_success_updates_rank_and_reschedules() {
    let now = NOW;
    let mut source = ReaskSource::new(at(Ipv4Addr::new(198, 51, 100, 5), 4672), hash(), 4, now);
    assert!(source.is_due(now));
    source.record_success(12, now);
    assert_eq!(source.last_rank, Some(12));
    assert_eq!(source.udp_total, 1);
    assert_eq!(source.udp_failed, 0);
    assert!(!source.is_due(now));
    assert!(source.is_due(now + reask_interval(false)));
}

#[test]
fn reask_source_failures_flip_to_tcp_fallback() {
    let now = NOW;
    let mut source = ReaskSource::new(at(Ipv4Addr::new(198, 51, 100, 6), 4672), hash(), 4, now);
    for _ in 0..3 {
        assert!(!source.record_failure(now));
    }
    assert!(source.record_failure(now));
    assert!(source.fallback_tcp_only);
    assert_eq!(source.udp_failed, 4);
}

#[test]
fn reask_source_tcp_fallback_is_re_evaluated_not_latched() {
    let now = NOW;
    let mut source = ReaskSource::new(at(Ipv4Addr::new(198, 51, 100, 20), 4672), hash(), 4, now);
    for _ in 0..4 {
        source.record_failure(now);
    }
    assert!(source.fallback_tcp_only, "ratio 4/4 disqualifies UDP");

    for _ in 0..10 {
        source.record_success(5, now);
    }
    assert!(
        !source.fallback_tcp_only,
        "a recovered ratio re-enables UDP reask"
    );

    for _ in 0..20 {
        source.record_failure(now);
    }
    assert!(source.fallback_tcp_only);
}

#[test]
fn buddy_reask_target_requires_low_id_endpoint_and_id() {
    let now = NOW;
    let endpoint = at(Ipv4Addr::new(198, 51, 100, 30), 4672);
    let buddy_ep = at(Ipv4Addr::new(203, 0, 113, 50), 5000);
    let buddy_id = [0xCD; 16];

    let high = ReaskSource::new(endpoint, hash(), 4, now)
        .with_buddy(false, Some(buddy_ep), Some(buddy_id));
    assert!(high.buddy_reask_target().is_none());

    let no_id = ReaskSource::new(endpoint, hash(), 4, now)
        .with_buddy(true, Some(buddy_ep), None);
    assert!(no_id.buddy_reask_target().is_none());

    let no_ep =
        ReaskSource::new(endpoint, hash(), 4, now).with_buddy(true, None, Some(buddy_id));
    assert!(no_ep.buddy_reask_target().is_none());

    let ok = ReaskSource::new(endpoint, hash(), 4, now)
        .with_buddy(true, Some(buddy_ep), Some(buddy_id));
    assert_eq!(ok.buddy_reask_target(), Some((buddy_ep, buddy_id)));
}

#[test]
fn reask_source_no_needed_parts_doubles_interval() {
    let now = NOW;
    let mut source = ReaskSource::new(at(Ipv4Addr::new(198, 51, 100, 7), 4672), hash(), 4, now);
    source.no_needed_parts = true;
    source.schedule_next(now);
    assert!(!source.is_due(now + FILE_REASK_TIME));
    assert!(source.is_due(now + FILE_REASK_TIME * 2));
}

#[test]
fn reaction_ack_updates_rank_and_clears_queue_full() {
    let now = NOW;
    let mut source = ReaskSource::new(at(Ipv4Addr::new(198, 51, 100, 8), 4672), hash(), 4, now);
    source.remote_queue_full = true;
    let action = apply_reask_reply(&mut source, ReaskReply::Ack { rank: 7 }, now);
    assert_eq!(action, ReaskAction::UpdatedRank(7));
    assert_eq!(source.last_rank, Some(7));
    assert!(!source.remote_queue_full);
    assert_eq!(source.udp_total, 1);
    assert_eq!(source.udp_failed, 0);
}

#[test]
fn reaction_queue_full_keeps_source_as_rank_zero_not_a_failure() {
    let now = NOW;
    let mut source = ReaskSource::new(at(Ipv4Addr::new(198, 51, 100, 9), 4672), hash(), 4, now);
    let action = apply_reask_reply(&mut source, ReaskReply::QueueFull, now);
    assert_eq!(action, ReaskAction::QueueFull);
    assert_eq!(source.last_rank, Some(0));
    assert!(source.remote_queue_full);
    assert_eq!(source.udp_total, 1);
    assert_eq!(source.udp_failed, 0);
    assert!(!source.is_due(now));
}

#[test]
fn reaction_file_not_found_drops_the_source() {
    let now = NOW;
    let mut source = ReaskSource::new(at(Ipv4Addr::new(198, 51, 100, 10), 4672), hash(), 4, now);
    assert_eq!(
        apply_reask_reply(&mut source, ReaskReply::FileNotFound, now),
        ReaskAction::DropSource
    );
}

#[test]
fn reaction_timeout_retries_udp_then_falls_back_to_tcp() {
    let now = NOW;
    let mut source = ReaskSource::new(at(Ipv4Addr::new(198, 51, 100, 11), 4672), hash(), 4, now);
    for _ in 0..3 {
        assert_eq!(
            apply_reask_reply(&mut source, ReaskReply::Timeout, now),
            ReaskAction::RetryUdp
        );
    }
    assert_eq!(
        apply_reask_reply(&mut source, ReaskReply::Timeout, now),
        ReaskAction::RetryTcp
    );
    assert!(source.fallback_tcp_only);
    assert_eq!(source.udp_failed, 4);
}

#[test]
fn pending_registry_correlates_replies_and_drops_unsolicited() {
    let mut registry = ReaskPendingRegistry::new();
    let ip = Ipv4Addr::new(203, 0, 113, 7);
    let now = NOW;
    assert!(registry.take_reply(ip, 4672).is_none());
    registry.mark_sent(ip, 4672, hash(), now);
    assert!(registry.is_pending(ip, 4672));
    let accepted = registry.take_reply(ip, 4672).expect("pending reply");
    assert_eq!(accepted.file_hash, hash());
    assert!(registry.take_reply(ip, 4672).is_none());
    assert_eq!(registry.len(), 0);
}

#[test]
fn pending_registry_drains_timed_out_reasks() {
    let mut registry = ReaskPendingRegistry::new();
    let ip = Ipv4Addr::new(203, 0, 113, 8);
    let start = NOW;
    registry.mark_sent(ip, 5000, hash(), start);
    assert!(
        registry
            .drain_timed_out(start + 5 * SECOND, 30 * SECOND)
            .is_empty()
    );
    let timed_out =
        registry.drain_timed_out(start + 31 * SECOND, 30 * SECOND);
    assert_eq!(timed_out.len(), 1);
    assert_eq!(timed_out[0].0, at(ip, 5000));
    assert_eq!(registry.len(), 0);
}

fn ip(last: u8) -> Ipv4Addr {
    Ipv4Addr::new(198, 51, 100, last)
}

fn source(set: &mut ReaskSourceSet, last: u8, now: u64) -> (Ipv4Addr, u16) {
    set.insert(ReaskSource::new(at(ip(last), 4672), hash(), 4, now));
    (ip(last), 4672)
}

#[test]
fn due_lists_fresh_sources_then_excludes_pending() {
    let now = NOW;
    let mut set = ReaskSourceSet::new();
    let (a, pa) = source(&mut set, 1, now);
    assert_eq!(set.due(now), vec![at(a, pa)]);
    set.mark_reasked(a, pa, now);
    assert!(set.due(now).is_empty());
}

#[test]
fn ack_reply_is_gated_then_updates_rank_and_reschedules() {
    let now = NOW;
    let mut set = ReaskSourceSet::new();
    let (a, pa) = source(&mut set, 2, now);
    assert!(set.apply_reply(a, pa, ReaskReply::Ack { rank: 5 }, now).is_none());
    set.mark_reasked(a, pa, now);
    assert_eq!(
        set.apply_reply(a, pa, ReaskReply::Ack { rank: 5 }, now),
        Some(ReaskAction::UpdatedRank(5))
    );
    assert_eq!(set.get(a, pa).unwrap().last_rank, Some(5));
    assert!(set.due(now).is_empty());
}

#[test]
fn file_not_found_drops_the_source() {
    let now = NOW;
    let mut set = ReaskSourceSet::new();
    let (a, pa) = source(&mut set, 3, now);
    set.mark_reasked(a, pa, now);
    assert_eq!(
        set.apply_reply(a, pa, ReaskReply::FileNotFound, now),
        Some(ReaskAction::DropSource)
    );
    assert!(set.get(a, pa).is_none());
    assert_eq!(set.len(), 0);
}

#[test]
fn queue_full_keeps_source_and_is_not_a_failure() {
    let now = NOW;
    let mut set = ReaskSourceSet::new();
    let (a, pa) = source(&mut set, 4, now);
    set.mark_reasked(a, pa, now);
    assert_eq!(
        set.apply_reply(a, pa, ReaskReply::QueueFull, now),
        Some(ReaskAction::QueueFull)
    );
    let src = set.get(a, pa).unwrap();
    assert!(src.remote_queue_full);
    assert_eq!(src.udp_failed, 0);
    assert_eq!(set.len(), 1);
}

#[test]
fn timeouts_drain_as_failures_and_eventually_fall_back_to_tcp() {
    let now = NOW;
    let timeout = 20 * SECOND;
    let mut set = ReaskSourceSet::new();
    let (a, pa) = source(&mut set, 5, now);

    let mut last_action = None;
    for i in 0..4 {
        let sent_at = now + i * 60 * SECOND;
        set.mark_reasked(a, pa, sent_at);
        let drained = set.drain_timeouts(sent_at + timeout + 1 * SECOND, timeout);
        assert_eq!(drained.len(), 1);
        last_action = Some(drained[0].1);
    }
    assert_eq!(last_action, Some(ReaskAction::RetryTcp));
    assert!(set.get(a, pa).unwrap().fallback_tcp_only);
    assert_eq!(set.get(a, pa).unwrap().udp_failed, 4);
}

#[test]
fn due_datagrams_builds_pings_marks_pending_and_skips_tcp_fallback() {
    let now = NOW;
    let our_ip = [203, 0, 113, 9];
    let peer_hash = [0x55u8; 16];
    let mut set = ReaskSourceSet::new();

    let endpoint = at(ip(8), 4672);
    set.insert(
        ReaskSource::new(endpoint, hash(), 4, now).with_obfuscation(peer_hash, true),
    );

    let datagrams = set.due_datagrams(now, Some(&[true, false, true]), 2, 4, our_ip);
    assert_eq!(datagrams.len(), 1);
    assert_eq!(datagrams[0].0, endpoint);

    let msg = parse_inbound_reask_datagram(&datagrams[0].1.bytes, our_ip, &peer_hash, 4)
        .expect("peer should parse our reask");
    match msg {
        InboundReaskMessage::FilePing(ping) => {
            assert_eq!(ping.file_hash, hash());
            assert_eq!(ping.complete_source_count, Some(2));
        }
        other => panic!("expected FilePing, got {other:?}"),
    }

    assert!(set.due(now).is_empty());

    let tcp_endpoint = at(ip(9), 4672);
    let mut tcp_src = ReaskSource::new(tcp_endpoint, hash(), 4, now);
    tcp_src.fallback_tcp_only = true;
    set.insert(tcp_src);
    let next = set.due_datagrams(now, None, 0, 4, our_ip);
    assert!(
        next.iter().all(|(ep, _)| *ep != tcp_endpoint),
        "tcp-fallback source must not get a UDP reask datagram"
    );
}

#[test]
fn multiple_sources_are_tracked_independently() {
    let now = NOW;
    let mut set = ReaskSourceSet::new();
    let (a, pa) = source(&mut set, 6, now);
    let (b, pb) = source(&mut set, 7, now);
    assert_eq!(set.len(), 2);
    set.mark_reasked(a, pa, now);
    let due = set.due(now);
    assert!(due.contains(&at(b, pb)));
    assert!(!due.contains(&at(a, pa)));
    set.remove(b, pb);
    assert_eq!(set.len(), 1);
    assert!(set.get(b, pb).is_none());
}

fn base() -> InboundReaskRequest {
    InboundReaskRequest {
        file_shared: true,
        sender_located: true,
        file_matches: true,
        waiting_position: 0,
        sender_multiple_ip_unknown: false,
        waiting_user_count: 10,
        queue_size: 1000,
    }
}

#[test]
fn unshared_file_is_file_not_found() {
    let req = InboundReaskRequest {
        file_shared: false,
        ..base()
    };
    assert_eq!(answer_inbound_reask(&req), InboundReaskAnswer::FileNotFound);
}

#[test]
fn located_sender_with_matching_file_gets_ack_with_rank() {
    let req = InboundReaskRequest {
        waiting_position: 17,
        ..base()
    };
    assert_eq!(
        answer_inbound_reask(&req),
        InboundReaskAnswer::Ack { queue_position: 17 }
    );
}

#[test]
fn located_sender_with_mismatched_file_stays_silent() {
    let req = InboundReaskRequest {
        file_matches: false,
        ..base()
    };
    assert_eq!(answer_inbound_reask(&req), InboundReaskAnswer::Silent);
}

#[test]
fn unknown_sender_multiple_ip_forces_tcp_silence() {
    let req = InboundReaskRequest {
        sender_located: false,
        sender_multiple_ip_unknown: true,
        waiting_user_count: 1000,
        queue_size: 1000,
        ..base()
    };
    assert_eq!(answer_inbound_reask(&req), InboundReaskAnswer::Silent);
}

#[test]
fn unknown_sender_with_near_full_queue_gets_queue_full() {
    let req = InboundReaskRequest {
        sender_located: false,
        waiting_user_count: 960,
        queue_size: 1000,
        ..base()
    };
    assert_eq!(answer_inbound_reask(&req), InboundReaskAnswer::QueueFull);
}

#[test]
fn unknown_sender_with_room_stays_silent_to_force_tcp() {
    let req = InboundReaskRequest {
        sender_located: false,
        waiting_user_count: 100,
        queue_size: 1000,
        ..base()
    };
    assert_eq!(answer_inbound_reask(&req), InboundReaskAnswer::Silent);
}

#[test]
fn queue_full_margin_is_exclusive_threshold() {
    let at_margin = InboundReaskRequest {
        sender_located: false,
        waiting_user_count: 950,
        queue_size: 1000,
        ..base()
    };
    assert_eq!(answer_inbound_reask(&at_margin), InboundReaskAnswer::Silent);
    let over = InboundReaskRequest {
        waiting_user_count: 951,
        ..at_margin
    };
    assert_eq!(answer_inbound_reask(&over), InboundReaskAnswer::QueueFull);
}

#[test]
fn margin_does_not_overflow_near_the_largest_count() {
    let req = InboundReaskRequest {
        sender_located: false,
        waiting_user_count: u32::MAX,
        queue_size: u32::MAX,
        ..base()
    };
    assert_eq!(answer_inbound_reask(&req), InboundReaskAnswer::QueueFull);
}

#[test]
fn answers_become_datagrams_and_silence_none() {
    let target = OutboundReaskTarget {
        dest_user_hash: [0x21; 16],
        our_public_ip: [203, 0, 113, 9],
        obfuscate: false,
    };
    let ack = build_reask_answer(InboundReaskAnswer::Ack { queue_position: 3 }, None, 3, &target);
    assert_eq!(ack.unwrap().bytes, vec![0xC5, 0x91, 3, 0]);
    let gone = build_reask_answer(InboundReaskAnswer::FileNotFound, None, 4, &target);
    assert_eq!(gone.unwrap().bytes, vec![0xC5, 0x92]);
    let full = build_reask_answer(InboundReaskAnswer::QueueFull, None, 4, &target);
    assert_eq!(full.unwrap().bytes, vec![0xC5, 0x93]);
    assert!(build_reask_answer(InboundReaskAnswer::Silent, None, 4, &target).is_none());
}

#[test]
fn low_id_source_is_reasked_over_its_buddy() {
    let mut set = ReaskSourceSet::new();
    let buddy = at(Ipv4Addr::new(203, 0, 113, 80), 5000);
    set.insert(
        ReaskSource::new(at(ip(1), 4672), hash(), 2, NOW).with_buddy(
            true,
            Some(buddy),
            Some([0x99; 16]),
        ),
    );
    let datagrams = set.due_datagrams(NOW, None, 7, 4, [203, 0, 113, 9]);
    assert_eq!(datagrams.len(), 1);
    assert_eq!(datagrams[0].0, buddy);
    assert_eq!(datagrams[0].1.bytes.len(), 2 + 32);
    assert!(!datagrams[0].1.obfuscated);
    assert!(set.pending.is_pending(ip(1), 4672));
}

#[test]
fn second_answer_is_unsolicited() {
    let mut set = ReaskSourceSet::new();
    let (a, pa) = source(&mut set, 1, NOW);
    set.mark_reasked(a, pa, NOW);
    assert!(set.apply_reply(a, pa, ReaskReply::QueueFull, NOW).is_some());
    assert!(set.apply_reply(a, pa, ReaskReply::QueueFull, NOW).is_none());
    assert!(set.apply_reply(a, pa, ReaskReply::QueueFull, u64::MAX).is_none());
    assert!(!set.mark_no_needed_parts(ip(9), 4672, u64::MAX));
}

#[test]
fn marking_a_source_puts_it_off() {
    let mut set = ReaskSourceSet::new();
    let (a, pa) = source(&mut set, 1, NOW);
    assert!(set.mark_no_needed_parts(a, pa, NOW));
    assert!(!set.mark_no_needed_parts(a, 1, NOW));
    assert_eq!(set.get(a, pa).unwrap().next_reask, NOW + 2 * FILE_REASK_TIME);
    assert!(!set.is_empty());
}
