use emulebb_ed2k::addr::Ipv4Addr;
use emulebb_ed2k::advertised_ports::{self, AdvertisedPorts};
use emulebb_ed2k::advertised_udp_port::{self, AdvertisedUdpPort};
use emulebb_ed2k::ban_store::{BanStore, CLIENT_BAN_TIME};
use emulebb_ed2k::buddy_socket::{BuddySocketRegistry, ExpectedInboundBuddy};
use emulebb_ed2k::diag_event::{
    diag_event_file_name, encode_record_line, DiagSequence, DIAG_EVENT_FILE_PREFIX,
};
use emulebb_ed2k::disk_space::{should_pause_for_disk_space, DOWNLOAD_FREE_SPACE_MARGIN_BYTES};
use emulebb_ed2k::ids::NodeId;

const HASH_A: [u8; 16] = [1u8; 16];
const HASH_B: [u8; 16] = [2u8; 16];
const SECOND: u64 = 1_000;
const START: u64 = 5_000_000;

#[test]
fn udp_falls_back_to_internal_when_unknown() {
    let mut ports = AdvertisedPorts::default();
    advertised_ports::set_advertised_external_udp_port(&mut ports, 0);
    assert_eq!(advertised_ports::advertised_external_udp_port(&ports), None);
    assert_eq!(advertised_ports::advertised_udp_port(&ports, 4672), 4672);
}

#[test]
fn udp_external_port_overrides_internal() {
    let mut ports = AdvertisedPorts::default();
    advertised_ports::set_advertised_external_udp_port(&mut ports, 51000);
    assert_eq!(advertised_ports::advertised_external_udp_port(&ports), Some(51000));
    assert_eq!(advertised_ports::advertised_udp_port(&ports, 4672), 51000);
    assert_eq!(advertised_ports::advertised_tcp_port(&ports, 4662), 4662);
}

#[test]
fn tcp_falls_back_to_internal_when_unknown() {
    let mut ports = AdvertisedPorts::default();
    advertised_ports::set_advertised_external_tcp_port(&mut ports, 0);
    assert_eq!(advertised_ports::advertised_external_tcp_port(&ports), None);
    assert_eq!(advertised_ports::advertised_tcp_port(&ports, 4662), 4662);
}

#[test]
fn tcp_external_port_overrides_internal() {
    let mut ports = AdvertisedPorts::default();
    advertised_ports::set_advertised_external_tcp_port(&mut ports, 45000);
    assert_eq!(advertised_ports::advertised_external_tcp_port(&ports), Some(45000));
    assert_eq!(advertised_ports::advertised_tcp_port(&ports, 4662), 45000);
    advertised_ports::set_advertised_external_tcp_port(&mut ports, 0);
    assert_eq!(advertised_ports::advertised_tcp_port(&ports, 4662), 4662);
}

#[test]
fn falls_back_to_internal_when_unknown() {
    let mut cell = AdvertisedUdpPort::default();
    advertised_udp_port::set_advertised_external_udp_port(&mut cell, 0);
    assert_eq!(advertised_udp_port::advertised_external_udp_port(&cell), None);
    assert_eq!(advertised_udp_port::advertised_udp_port(&cell, 4672), 4672);
}

#[test]
fn external_port_overrides_internal() {
    let mut cell = AdvertisedUdpPort::default();
    advertised_udp_port::set_advertised_external_udp_port(&mut cell, 51000);
    assert_eq!(advertised_udp_port::advertised_external_udp_port(&cell), Some(51000));
    assert_eq!(advertised_udp_port::advertised_udp_port(&cell, 4672), 51000);
    advertised_udp_port::set_advertised_external_udp_port(&mut cell, 0);
    assert_eq!(advertised_udp_port::advertised_udp_port(&cell, 4672), 4672);
}

#[test]
fn ip_ban_is_active_then_expires_after_ttl() {
    let mut store = BanStore::new();
    let ip = Ipv4Addr::new(203, 0, 113, 7);
    store.ban_at(Some(ip), None, START);

    assert!(store.is_ip_banned_at(ip, START + SECOND));
    assert!(store.is_ip_banned_at(ip, START + CLIENT_BAN_TIME - SECOND));
    assert!(!store.is_ip_banned_at(ip, START + CLIENT_BAN_TIME + SECOND));
    assert!(!store.is_ip_banned_at(ip, START + CLIENT_BAN_TIME));
}

#[test]
fn hash_ban_is_active_then_expires_after_ttl() {
    let mut store = BanStore::new();
    store.ban_at(None, Some(HASH_A), START);

    assert!(store.is_hash_banned_at(&HASH_A, START));
    assert!(!store.is_hash_banned_at(&HASH_B, START));
    assert!(!store.is_hash_banned_at(&HASH_A, START + CLIENT_BAN_TIME + SECOND));
}

#[test]
fn is_banned_matches_either_key() {
    let mut store = BanStore::new();
    let ip = Ipv4Addr::new(198, 51, 100, 4);
    store.ban_at(Some(ip), Some(HASH_A), START);

    assert!(store.is_banned_at(Some(ip), Some(&HASH_B), START));
    let other_ip = Ipv4Addr::new(198, 51, 100, 9);
    assert!(store.is_banned_at(Some(other_ip), Some(&HASH_A), START));
    assert!(!store.is_banned_at(Some(other_ip), Some(&HASH_B), START));
    assert!(store.is_banned_at(Some(ip), None, START + CLIENT_BAN_TIME - 1));
    assert!(!store.is_banned_at(Some(ip), Some(&HASH_A), START + CLIENT_BAN_TIME));
    assert!(!store.is_banned_at(None, None, START));
    store.ban_at(Some(other_ip), None, u64::MAX - 1);
    assert!(store.is_banned_at(Some(other_ip), None, u64::MAX));
    assert!(!store.is_banned_at(Some(ip), Some(&HASH_A), u64::MAX));
}

#[test]
fn zero_keys_are_ignored() {
    let mut store = BanStore::new();
    let unspecified = Ipv4Addr::new(0, 0, 0, 0);
    store.ban_at(Some(unspecified), Some([0u8; 16]), START);
    assert!(!store.is_ip_banned_at(unspecified, START));
    assert!(!store.is_hash_banned_at(&[0u8; 16], START));
}

#[test]
fn unban_lifts_an_active_ban() {
    let mut store = BanStore::new();
    let ip = Ipv4Addr::new(192, 0, 2, 1);
    store.ban_at(Some(ip), Some(HASH_A), START);
    store.unban(Some(ip), Some(&HASH_A));
    assert!(!store.is_banned_at(Some(ip), Some(&HASH_A), START));
}

#[test]
fn prune_expired_reclaims_only_expired_entries() {
    let mut store = BanStore::new();
    let live_ip = Ipv4Addr::new(192, 0, 2, 2);
    store.ban_at(Some(live_ip), Some(HASH_A), START);
    let later = START + CLIENT_BAN_TIME - 10 * SECOND;
    let fresh_ip = Ipv4Addr::new(192, 0, 2, 3);
    store.ban_at(Some(fresh_ip), None, later);
    store.prune_expired(START + CLIENT_BAN_TIME + SECOND);
    assert!(!store.is_ip_banned_at(live_ip, later + CLIENT_BAN_TIME));
    assert!(store.is_ip_banned_at(fresh_ip, later + SECOND));
    assert_eq!(store.by_ip.len(), 1);
    assert_eq!(store.by_hash.len(), 0);
}

#[test]
fn banning_again_renews_the_ban() {
    let mut store = BanStore::new();
    let ip = Ipv4Addr::new(192, 0, 2, 2);
    store.ban_at(Some(ip), None, START);
    store.ban_at(Some(ip), None, START + SECOND);
    assert_eq!(store.by_ip.len(), 1);
    assert!(store.is_ip_banned_at(ip, START + CLIENT_BAN_TIME));
    assert_eq!(CLIENT_BAN_TIME, 4 * 60 * 60 * SECOND);
}

fn buddy_id(byte: u8) -> NodeId {
    NodeId::from_bytes([byte; 16])
}

fn expected(ip: Ipv4Addr, hash_byte: u8, id_byte: u8) -> ExpectedInboundBuddy {
    ExpectedInboundBuddy { ip, user_hash: [hash_byte; 16], buddy_id: buddy_id(id_byte) }
}

#[test]
fn match_requires_expected_ip_and_hash() {
    let mut registry = BuddySocketRegistry::new();
    let ip = Ipv4Addr::new(198, 51, 100, 9);
    registry.set_expected_inbound(expected(ip, 0x11, 0x22));

    assert_eq!(registry.match_connecting_peer(ip, [0x11; 16]), Some(buddy_id(0x22)));
    assert!(registry
        .match_connecting_peer(Ipv4Addr::new(10, 0, 0, 1), [0x11; 16])
        .is_none());
    assert!(registry.match_connecting_peer(ip, [0x99; 16]).is_none());
}

#[test]
fn attach_holds_single_inbound_and_evicts() {
    let mut registry = BuddySocketRegistry::new();
    assert!(registry.attach_inbound(buddy_id(0x22)));
    assert!(registry.has_inbound());

    assert!(!registry.attach_inbound(buddy_id(0x33)));

    let ip = Ipv4Addr::new(198, 51, 100, 9);
    registry.set_expected_inbound(expected(ip, 0x11, 0x22));
    assert!(registry.match_connecting_peer(ip, [0x11; 16]).is_none());

    registry.detach_inbound(buddy_id(0x44));
    assert!(registry.has_inbound());
    registry.detach_inbound(buddy_id(0x22));
    assert!(!registry.has_inbound());
    assert_eq!(registry.match_connecting_peer(ip, [0x11; 16]), Some(buddy_id(0x22)));
}

#[test]
fn relay_delivers_only_to_matching_attached_socket() {
    let mut registry = BuddySocketRegistry::new();
    assert!(registry.attach_inbound(buddy_id(0x22)));

    assert!(!registry.can_relay_to_inbound(buddy_id(0x55)));
    assert!(!registry.relay_to_inbound(buddy_id(0x55), true));
    assert!(registry.can_relay_to_inbound(buddy_id(0x22)));
    assert!(registry.relay_to_inbound(buddy_id(0x22), true));
}

#[test]
fn relay_to_closed_receiver_evicts_stale_socket() {
    let mut registry = BuddySocketRegistry::new();
    assert!(registry.attach_inbound(buddy_id(0x22)));
    assert!(!registry.relay_to_inbound(buddy_id(0x22), false));
    assert!(!registry.has_inbound());
}

#[test]
fn relay_without_attached_socket_returns_false() {
    let mut registry = BuddySocketRegistry::new();
    assert!(!registry.relay_to_inbound(buddy_id(0x22), true));
}

#[test]
fn outbound_register_match_and_evict() {
    let mut registry = BuddySocketRegistry::new();
    let ip = Ipv4Addr::new(192, 0, 2, 50);
    assert!(!registry.has_outbound());
    registry.register_outbound(ip, [0x77; 16]);
    assert!(registry.has_outbound());
    assert!(registry.is_outbound_buddy(ip, [0x77; 16]));
    assert!(!registry.is_outbound_buddy(ip, [0x00; 16]));
    assert!(!registry.is_outbound_buddy(Ipv4Addr::new(10, 0, 0, 1), [0x77; 16]));

    let ip2 = Ipv4Addr::new(192, 0, 2, 51);
    registry.register_outbound(ip2, [0x88; 16]);
    assert!(!registry.is_outbound_buddy(ip, [0x77; 16]));
    assert!(registry.is_outbound_buddy(ip2, [0x88; 16]));

    registry.evict_outbound();
    assert!(!registry.has_outbound());
}

#[test]
fn clear_inbound_drops_expectation_and_socket() {
    let mut registry = BuddySocketRegistry::new();
    let ip = Ipv4Addr::new(198, 51, 100, 9);
    registry.set_expected_inbound(expected(ip, 0x11, 0x22));
    assert!(registry.attach_inbound(buddy_id(0x22)));
    registry.clear_inbound();
    assert!(!registry.has_inbound());
    assert!(registry.match_connecting_peer(ip, [0x11; 16]).is_none());
}

#[test]
fn diag_event_file_prefix_uses_emulebb_rust_name() {
    assert_eq!(DIAG_EVENT_FILE_PREFIX, "emulebb-rust-diag-");
    assert_eq!(diag_event_file_name(4711), "emulebb-rust-diag-4711.jsonl");
}

#[test]
fn encoded_diag_event_line_is_single_json_record_with_newline() {
    let mut keys = serde_json::Map::new();
    keys.insert("peer".to_string(), serde_json::Value::from("192.0.2.10:4662"));
    let mut body = serde_json::Map::new();
    body.insert("outcome".to_string(), serde_json::Value::from("dropped"));
    let mut record = serde_json::Map::new();
    record.insert("schema".to_string(), serde_json::Value::from("diag_event_v1"));
    record.insert("client".to_string(), serde_json::Value::from("rust"));
    record.insert("ts".to_string(), serde_json::Value::from("2026-06-18T00:00:00.000Z"));
    record.insert("seq".to_string(), serde_json::Value::from(1u64));
    record.insert("family".to_string(), serde_json::Value::from("sched"));
    record.insert("event".to_string(), serde_json::Value::from("source_dropped"));
    record.insert("severity".to_string(), serde_json::Value::from("info"));
    record.insert("keys".to_string(), serde_json::Value::Object(keys));
    record.insert("body".to_string(), serde_json::Value::Object(body));
    let json = serde_json::to_vec(&serde_json::Value::Object(record)).unwrap();

    let line = encode_record_line(json);
    assert_eq!(line.last(), Some(&b'\n'));
    let without_newline = &line[..line.len() - 1];
    let decoded: serde_json::Value = serde_json::from_slice(without_newline).unwrap();
    assert_eq!(decoded["schema"], "diag_event_v1");
    assert_eq!(decoded["family"], "sched");
}

#[test]
fn diag_events_are_numbered_from_one() {
    let mut seq = DiagSequence::new();
    assert_eq!(seq.next_seq(), 1);
    assert_eq!(seq.next_seq(), 2);
}

#[test]
fn unknown_available_never_pauses() {
    assert!(!should_pause_for_disk_space(None, u64::MAX));
}

#[test]
fn pauses_only_when_below_need_plus_margin() {
    let need = 100 * 1024 * 1024;
    assert!(!should_pause_for_disk_space(
        Some(need + DOWNLOAD_FREE_SPACE_MARGIN_BYTES + 1),
        need
    ));
    assert!(!should_pause_for_disk_space(
        Some(need + DOWNLOAD_FREE_SPACE_MARGIN_BYTES),
        need
    ));
    assert!(should_pause_for_disk_space(
        Some(need + DOWNLOAD_FREE_SPACE_MARGIN_BYTES - 1),
        need
    ));
}

#[test]
fn margin_saturates_for_huge_downloads() {
    assert!(should_pause_for_disk_space(Some(u64::MAX - 1), u64::MAX));
    assert!(!should_pause_for_disk_space(Some(u64::MAX), u64::MAX));
}
