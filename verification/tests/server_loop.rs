use emulebb_ed2k::addr::{ipv4_to_text, IpAddr, Ipv4Addr, SocketAddr, SocketAddrV4};
use emulebb_ed2k::config::{Ed2kConfig, Ed2kServerEntry};
use emulebb_ed2k::ed2k_server::active_keyword::{
    udp_keyword_deadline, udp_keyword_wait, UdpKeywordWalk,
};
use emulebb_ed2k::ed2k_server::active_source_udp::{
    udp_source_timeout, UdpSourceBatchWalk, UdpSourceStep, UdpSourceWalk,
};
use emulebb_ed2k::ed2k_server::active_walk::{
    active_idle_timeout, plan_keyword_search, plan_source_search, plan_udp_keyword_search,
    queried_udp_response_server, resolved_server_matches_endpoint, KeywordWalk, SourceWalk,
    WalkError,
};
use emulebb_ed2k::ed2k_server::background::ServerUdpPacket;
use emulebb_ed2k::ed2k_server::loop_runtime::{
    after_attempt, after_cycle, after_parallel_cycle, loop_times, max_simultaneous_server_attempts,
    plan_cycle, selected_configured_servers, session_end_retry_delay, winner_ended,
    AttemptOutcome, AttemptStatus, CyclePlan, LoopStep, ParallelCycle, ParallelPoll,
    ParallelServerCycleOutcome, RetryReason,
};
use emulebb_ed2k::ed2k_server::search_expr::SearchError;
use emulebb_ed2k::ed2k_server::server_description_poll::{
    on_poll_datagram, should_poll_server, PollError, PollStep, ServerPoll,
};
use emulebb_ed2k::ed2k_server::server_entry::{
    configured_server_entries, exclude_endpoint, literal_server_ip, prefer_endpoint,
    resolve_callback_server_entry, resolve_server_entry, retain_live_servers,
    should_use_server_obfuscation, ConfiguredServerEntry, EntryError, ResolveError,
    ResolvedServerEntry,
};
use emulebb_ed2k::ed2k_server::server_events::Ed2kServerListEvent;
use emulebb_ed2k::ed2k_server::startup::Ed2kUdpSourceRequestTarget;
use emulebb_ed2k::ed2k_server::types::{Ed2kFoundSource, Ed2kSearchFile, Ed2kServerState};
use emulebb_ed2k::ed2k_server::{
    OP_GLOBFOUNDSOURCES, OP_GLOBSEARCHRES, OP_GLOBSERVSTATRES, OP_SERVER_DESC_RES,
    SERVER_UDP_FLAG_TCPOBFUSCATION,
};
use emulebb_ed2k::ids::Ed2kHash;

const SECOND: u64 = 1_000;

#[test]
fn default_ed2k_config_limits_active_download_fanout() {
    let config = Ed2kConfig::default();

    assert_eq!(config.max_concurrent_downloads, 500);
    assert_eq!(config.max_new_connections_per_five_seconds, 50);
    assert_eq!(config.max_half_open_connections, 50);
    assert_eq!(config.max_sources_per_file, 600);
    assert_eq!(config.max_parallel_download_peers, 2);
    assert_eq!(config.keyword_server_attempt_budget, 3);
    assert_eq!(config.exact_hash_keyword_server_attempt_budget, 4);
    assert_eq!(config.source_server_attempt_budget, 3);
    assert_eq!(config.kad_source_supplement_max_existing_sources, 2);
    assert!(config.enable_udp_reask);
    assert_eq!(config.download_limit_bytes_per_sec, 0);
    assert_eq!(config.upload_queue.waiting_timeout_secs, 60 * 60);
    assert_eq!(config.dead_server_retries, 1);
}

#[test]
fn default_connect_timeout_budgets_match_emule_reach() {
    let config = Ed2kConfig::default();
    assert_eq!(config.connect_timeout_secs, 15);
    assert_eq!(config.server_connect_timeout_secs, 25);
    assert_eq!(config.callback_timeout_secs, 45);
}

fn server(endpoint: &str) -> ConfiguredServerEntry {
    ConfiguredServerEntry::from_endpoint_text(endpoint).unwrap()
}

#[test]
fn targeted_server_is_pinned_without_fallbacks() {
    let servers = vec![
        server("192.0.2.1:4661"),
        server("192.0.2.2:4661"),
        server("192.0.2.3:4661"),
    ];

    let selected = selected_configured_servers(&servers, Some("192.0.2.2:4661"));

    assert_eq!(selected.len(), 1);
    assert_eq!(selected[0].base_endpoint_text(), "192.0.2.2:4661");
}

#[test]
fn unknown_target_uses_target_without_fallbacks() {
    let servers = vec![server("192.0.2.1:4661"), server("192.0.2.2:4661")];

    let selected = selected_configured_servers(&servers, Some("192.0.2.99:4661"));

    assert_eq!(selected.len(), 1);
    assert_eq!(selected[0].base_endpoint_text(), "192.0.2.99:4661");
}

#[test]
fn invalid_unknown_target_has_no_fallbacks() {
    let servers = vec![server("192.0.2.1:4661"), server("192.0.2.2:4661")];

    let selected = selected_configured_servers(&servers, Some("not-a-server"));

    assert!(selected.is_empty());
}

#[test]
fn established_session_drop_uses_fast_reconnect_delay() {
    let failed_attempt_delay = 60 * SECOND;

    assert_eq!(
        session_end_retry_delay(true, failed_attempt_delay),
        (3 * SECOND, RetryReason::EstablishedSessionDrop)
    );
    assert_eq!(
        session_end_retry_delay(false, failed_attempt_delay),
        (failed_attempt_delay, RetryReason::ConnectOrSessionEnd)
    );
    assert_eq!(RetryReason::EstablishedSessionDrop.as_str(), "established_session_drop");
    assert_eq!(RetryReason::ConnectOrSessionEnd.as_str(), "connect_or_session_end");
}

#[test]
fn safe_connect_and_explicit_targets_limit_parallel_attempts() {
    assert_eq!(max_simultaneous_server_attempts(true, None), 1);
    assert_eq!(max_simultaneous_server_attempts(false, None), 2);
    assert_eq!(
        max_simultaneous_server_attempts(false, Some("192.0.2.2:4661")),
        1
    );
}

fn metadata_entry(host: &str, port: u16, name: &str) -> Ed2kServerEntry {
    Ed2kServerEntry {
        host: host.to_string(),
        port,
        name: Some(name.to_string()),
        ..Ed2kServerEntry::default()
    }
}

#[test]
fn configured_endpoints_are_ordered_before_persisted_metadata() {
    let config = Ed2kConfig {
        server_endpoints: vec!["203.0.113.20:4661".to_string()],
        server_entries: vec![
            metadata_entry("203.0.113.10", 4661, "persisted-a"),
            metadata_entry("203.0.113.20", 4661, "configured-with-metadata"),
        ],
        ..Ed2kConfig::default()
    };

    let entries = configured_server_entries(&config).unwrap();

    assert_eq!(entries[0].base_endpoint_text(), "203.0.113.20:4661");
    assert_eq!(entries[0].display_name(), "configured-with-metadata");
    assert_eq!(entries[1].base_endpoint_text(), "203.0.113.10:4661");
}

#[test]
fn metadata_entries_are_used_when_no_endpoints_are_configured() {
    let config = Ed2kConfig {
        server_entries: vec![
            metadata_entry("203.0.113.10", 4661, "persisted-a"),
            metadata_entry("203.0.113.20", 4661, "persisted-b"),
        ],
        ..Ed2kConfig::default()
    };

    let entries = configured_server_entries(&config).unwrap();

    assert_eq!(entries[0].base_endpoint_text(), "203.0.113.10:4661");
    assert_eq!(entries[1].base_endpoint_text(), "203.0.113.20:4661");
}

fn resolved(ip: Ipv4Addr, port: u16) -> ResolvedServerEntry {
    ResolvedServerEntry {
        entry: ConfiguredServerEntry {
            host: ipv4_to_text(ip),
            port,
            name: None,
            description: None,
            udp_flags: 0,
            udp_key: 0,
            udp_key_ip: 0,
            obfuscation_port_tcp: 0,
            obfuscation_port_udp: 0,
            soft_files: 0,
            hard_files: 0,
        },
        ip,
    }
}

#[test]
fn udp_keyword_search_accepts_replies_from_any_queried_server_ip() {
    let first = resolved(Ipv4Addr::new(192, 0, 2, 10), 4661);
    let second = resolved(Ipv4Addr::new(192, 0, 2, 20), 4661);
    let queried = vec![first, second];

    let matched = queried_udp_response_server(
        &queried,
        SocketAddr::v4(Ipv4Addr::new(192, 0, 2, 10), 4665),
    )
    .expect("queried server accepted");

    assert_eq!(queried[matched].ip, Ipv4Addr::new(192, 0, 2, 10));
    assert!(
        queried_udp_response_server(
            &queried,
            SocketAddr::v4(Ipv4Addr::new(198, 51, 100, 10), 4665),
        )
        .is_none()
    );
}

#[test]
fn resolved_endpoint_exclusion_matches_ip_even_when_configured_host_differs() {
    let resolved = ResolvedServerEntry {
        entry: ConfiguredServerEntry {
            host: "server.example.invalid".to_string(),
            port: 5687,
            name: None,
            description: None,
            udp_flags: 0,
            udp_key: 0,
            udp_key_ip: 0,
            obfuscation_port_tcp: 0,
            obfuscation_port_udp: 0,
            soft_files: 0,
            hard_files: 0,
        },
        ip: Ipv4Addr::new(203, 0, 113, 10),
    };

    assert!(resolved_server_matches_endpoint(
        &resolved,
        Some(SocketAddr::v4(Ipv4Addr::new(203, 0, 113, 10), 5687))
    ));
    assert!(!resolved_server_matches_endpoint(
        &resolved,
        Some(SocketAddr::v4(Ipv4Addr::new(203, 0, 113, 11), 5687))
    ));
}

fn at(last: u8, port: u16) -> SocketAddrV4 {
    SocketAddrV4::new(Ipv4Addr::new(192, 0, 2, last), port)
}

fn sock(last: u8, port: u16) -> SocketAddr {
    SocketAddr::v4(Ipv4Addr::new(192, 0, 2, last), port)
}

fn two_servers() -> Ed2kConfig {
    Ed2kConfig {
        server_endpoints: vec!["192.0.2.1:4661".to_string(), "192.0.2.2:4661".to_string()],
        ..Ed2kConfig::default()
    }
}

fn endpoints(entries: &[ConfiguredServerEntry]) -> Vec<String> {
    entries.iter().map(|e| e.base_endpoint_text()).collect()
}

fn search_file(byte: u8) -> Ed2kSearchFile {
    Ed2kSearchFile {
        file_hash: Ed2kHash::from_bytes([byte; 16]),
        file_name: None,
        file_size: None,
        file_type: None,
        source_count: None,
    }
}

fn source(file: u8, last: u8) -> Ed2kFoundSource {
    let ip = Ipv4Addr::new(198, 51, 100, last);
    Ed2kFoundSource {
        file_hash: Ed2kHash::from_bytes([file; 16]),
        ip,
        tcp_port: 4662,
        client_id: u32::from_le_bytes(ip.octets()),
        low_id: false,
        obfuscated: false,
        obfuscation_options: None,
        user_hash: None,
        source_server: None,
        buddy_id: None,
        buddy_endpoint: None,
        source_udp_port: None,
    }
}

fn source_bytes(file: u8, lasts: &[u8]) -> Vec<u8> {
    let mut bytes = vec![file; 16];
    bytes.push(lasts.len() as u8);
    for last in lasts {
        bytes.extend_from_slice(&[198, 51, 100, *last, 0x36, 0x12]);
    }
    bytes
}

fn datagram(last: u8, opcode: u8, payload: Vec<u8>) -> ServerUdpPacket {
    ServerUdpPacket { from: SocketAddr::v4(Ipv4Addr::new(192, 0, 2, last), 4665), opcode, payload }
}

#[test]
fn bad_entries_are_refused() {
    assert_eq!(
        ConfiguredServerEntry::from_endpoint_text("192.0.2.1").unwrap_err(),
        EntryError::InvalidEndpoint
    );
    let empty = Ed2kServerEntry { port: 4661, ..Ed2kServerEntry::default() };
    assert_eq!(
        ConfiguredServerEntry::from_metadata(&empty).unwrap_err(),
        EntryError::MissingHostOrPort
    );
}

#[test]
fn entries_are_ordered_filtered_and_excluded() {
    let mut entries = configured_server_entries(&two_servers()).unwrap();
    prefer_endpoint(&mut entries, Some(sock(2, 4661)));
    assert_eq!(endpoints(&entries), vec!["192.0.2.2:4661", "192.0.2.1:4661"]);
    prefer_endpoint(&mut entries, Some(sock(9, 4661)));
    assert_eq!(endpoints(&entries), vec!["192.0.2.2:4661", "192.0.2.1:4661"]);
    retain_live_servers(&mut entries, &vec![sock(1, 4661)]);
    assert_eq!(endpoints(&entries), vec!["192.0.2.2:4661"]);
    exclude_endpoint(&mut entries, Some(sock(2, 4661)));
    assert!(entries.is_empty());
}

#[test]
fn ipv6_endpoints_are_entries_too() {
    let cases = [
        ("[::1]:4661", "::1", 4661),
        ("[::]:0", "::", 0),
        ("[2001:DB8:0:0:1:0:0:1]:4661", "2001:db8::1:0:0:1", 4661),
        ("[2001:db8:0:1:1:1:1:1]:00080", "2001:db8:0:1:1:1:1:1", 80),
        ("[0001:0000:0:0:0:0:0:0]:1", "1::", 1),
        ("[::ffff:192.0.2.7]:1", "::ffff:192.0.2.7", 1),
        ("[::ffff:c000:207]:1", "::ffff:192.0.2.7", 1),
        ("[::192.0.2.7]:1", "::c000:207", 1),
        ("[1:2:3:4:5:6:1.2.3.4]:1", "1:2:3:4:5:6:102:304", 1),
        ("[1:2:3:4:5:6:7::]:1", "1:2:3:4:5:6:7:0", 1),
        ("[0:0:1:0:0:0:1:0]:1", "0:0:1::1:0", 1),
        ("[fe80::1%4294967295]:4661", "fe80::1", 4661),
        ("[fe80::1%007]:4661", "fe80::1", 4661),
    ];
    for (text, host, port) in cases {
        let entry = server(text);
        assert_eq!((entry.host.as_str(), entry.port), (host, port), "{text}");
    }
    for text in [
        "::1:4661", "[::1]", "[::1]4661", "[::1]:", "[::1]:65536", "[::1]:4661 ", "[]:1", "[:]:1",
        "[:::]:1", "[1::2::3]:1", "[:1::2]:1", "[1:2:3:4:5:6:7]:1", "[1:2:3:4:5:6:7:8:9]:1",
        "[1:2:3:4:5:6:7:8::]:1", "[1:2:3:4:5:6:7:]:1", "[12345::]:1", "[g::]:1", "[1.2.3.4::]:1",
        "[::1.2.3.4:5]:1", "[::1.2.3.256]:1", "[1:2:3:4:5:6:7:1.2.3.4]:1", "[fe80::1%]:1",
        "[fe80::1%4294967296]:1", "[fe80::1%eth0]:1", "[::1]:+1", "[::1", "[", "",
    ] {
        assert_eq!(
            ConfiguredServerEntry::from_endpoint_text(text).unwrap_err(),
            EntryError::InvalidEndpoint,
            "{text}"
        );
    }
    let pinned = selected_configured_servers(&vec![server("192.0.2.1:4661")], Some("[::1]:4661"));
    assert_eq!(endpoints(&pinned), vec!["::1:4661"]);
    let mut config = two_servers();
    config.server_endpoints.insert(1, "[2001:db8::2]:4661".to_string());
    let mut entries = configured_server_entries(&config).unwrap();
    assert_eq!(
        endpoints(&entries),
        vec!["192.0.2.1:4661", "2001:db8::2:4661", "192.0.2.2:4661"]
    );
    let v6 = SocketAddr { ip: IpAddr::V6(0x2001_0db8_0000_0000_0000_0000_0000_0002), port: 4661 };
    assert_eq!(
        resolve_server_entry(&entries[1], &Some(vec![v6])).unwrap_err(),
        ResolveError::NoIpv4Address
    );
    prefer_endpoint(&mut entries, Some(v6));
    assert_eq!(entries[0].host, "2001:db8::2");
    exclude_endpoint(&mut entries, Some(v6));
    assert_eq!(endpoints(&entries), vec!["192.0.2.1:4661", "192.0.2.2:4661"]);
}

#[test]
fn obfuscation_needs_both_sides() {
    let mut known = resolved(Ipv4Addr::new(192, 0, 2, 1), 4661);
    assert!(should_use_server_obfuscation(1, &known));
    known.entry.udp_key = 7;
    assert!(!should_use_server_obfuscation(1, &known));
    known.entry.udp_flags = SERVER_UDP_FLAG_TCPOBFUSCATION;
    known.entry.obfuscation_port_tcp = 4663;
    assert!(should_use_server_obfuscation(1, &known));
    assert!(!should_use_server_obfuscation(0, &known));
    assert_eq!(known.transport_endpoint(true), at(1, 4663));
    assert_eq!(known.transport_endpoint(false), at(1, 4661));
    assert_eq!(known.base_endpoint(), at(1, 4661));
}

#[test]
fn names_are_resolved_to_the_first_ipv4_address() {
    let mut entry = server("192.0.2.1:4661");
    assert_eq!(literal_server_ip(&entry), Some(Ipv4Addr::new(192, 0, 2, 1)));
    assert_eq!(resolve_server_entry(&entry, &None).unwrap().ip, Ipv4Addr::new(192, 0, 2, 1));
    entry.host = "server.example.invalid".to_string();
    assert_eq!(resolve_server_entry(&entry, &None).unwrap_err(), ResolveError::LookupFailed);
    let v6 = SocketAddr { ip: IpAddr::V6(1), port: 4661 };
    assert_eq!(
        resolve_server_entry(&entry, &Some(vec![v6])).unwrap_err(),
        ResolveError::NoIpv4Address
    );
    let v4 = SocketAddr::v4(Ipv4Addr::new(203, 0, 113, 4), 4661);
    assert_eq!(
        resolve_server_entry(&entry, &Some(vec![v6, v4])).unwrap().ip,
        Ipv4Addr::new(203, 0, 113, 4)
    );
}

#[test]
fn callback_goes_to_the_configured_server_where_there_is_one() {
    let mut known = resolved(Ipv4Addr::new(192, 0, 2, 1), 4661);
    known.entry.name = Some("known".to_string());
    let endpoint = SocketAddr::v4(Ipv4Addr::new(192, 0, 2, 1), 4661);
    let found = resolve_callback_server_entry(endpoint, &vec![Ok(known)]).unwrap();
    assert_eq!(found.entry.name.as_deref(), Some("known"));
    let made = resolve_callback_server_entry(endpoint, &Vec::new()).unwrap();
    assert_eq!(made.base_endpoint(), at(1, 4661));
    assert_eq!(made.entry.name, None);
    let v6 = SocketAddr { ip: IpAddr::V6(1), port: 4661 };
    assert_eq!(
        resolve_callback_server_entry(v6, &Vec::new()).unwrap_err(),
        ResolveError::EndpointNotIpv4
    );
}

#[test]
fn times_come_from_the_configuration() {
    let config = Ed2kConfig {
        reconnect_interval_secs: 30,
        keepalive_secs: 0,
        session_rotation_secs: 90,
        ..Ed2kConfig::default()
    };
    let times = loop_times(&config);
    assert_eq!(times.connect_timeout, 25 * SECOND);
    assert_eq!(times.failed_attempt_delay, 30 * SECOND);
    assert_eq!(times.keepalive_interval, None);
    assert_eq!(times.rotation_interval, Some(90 * SECOND));
    {
        let config = Ed2kConfig { connect_timeout_secs: 1, ..Ed2kConfig::default() };
        assert_eq!(active_idle_timeout(&config), 15 * SECOND);
        let config = Ed2kConfig { connect_timeout_secs: 40, ..Ed2kConfig::default() };
        assert_eq!(active_idle_timeout(&config), 40 * SECOND);
        assert_eq!(udp_source_timeout(1), 5 * SECOND);
        assert_eq!(udp_source_timeout(9 * SECOND), 9 * SECOND);
    }
}

#[test]
fn cycle_runs_side_by_side_only_without_a_target() {
    let servers = vec![server("192.0.2.1:4661"), server("192.0.2.2:4661")];
    assert!(matches!(plan_cycle(&servers, None, false), CyclePlan::SideBySide(ref s) if s.len() == 2));
    assert!(matches!(plan_cycle(&servers, None, true), CyclePlan::InOrder(ref s) if s.len() == 2));
    assert!(matches!(
        plan_cycle(&servers, Some("192.0.2.2:4661"), false),
        CyclePlan::InOrder(ref s) if s.len() == 1
    ));
}

#[test]
fn attempts_and_cycles_decide_what_is_next() {
    let failed = AttemptOutcome::Failed { was_connected: false };
    let step = after_attempt(failed, 0, 2, true, false, 60 * SECOND);
    assert!(step.report_failure);
    assert!(step.clear_state);
    assert!(!step.end_cycle);
    let stop = after_attempt(AttemptOutcome::RestartPreferredOrder, 0, 2, true, false, 1);
    assert!(stop.end_cycle);
    assert!(!stop.report_failure);
    assert_eq!(after_cycle(true, true, true, 1), LoopStep::Stop);
    assert_eq!(after_cycle(true, false, false, 1), LoopStep::Stop);
    assert!(matches!(after_cycle(true, true, false, 1), LoopStep::Again(_)));
    assert_eq!(
        after_parallel_cycle(ParallelServerCycleOutcome::Shutdown, true, 1),
        LoopStep::Stop
    );
    assert_eq!(winner_ended(true), ParallelServerCycleOutcome::RestartPreferredOrder);
    assert_eq!(winner_ended(false), ParallelServerCycleOutcome::SessionEnded);
}

#[test]
fn parallel_cycle_keeps_two_attempts_and_takes_the_first_login() {
    let mut cycle = ParallelCycle::new(vec![
        server("192.0.2.1:4661"),
        server("192.0.2.2:4661"),
        server("192.0.2.3:4661"),
    ]);
    for _ in 0..2 {
        let next = cycle.next_to_try().unwrap();
        cycle.attempt_started(next);
    }
    assert!(cycle.next_to_try().is_none());
    cycle.set_status(0, AttemptStatus::Failed);
    let (poll, failed) = cycle.poll(false);
    assert!(matches!(poll, ParallelPoll::Wait));
    assert_eq!(endpoints(&failed), vec!["192.0.2.1:4661"]);
    let next = cycle.next_to_try().unwrap();
    assert_eq!(next.base_endpoint_text(), "192.0.2.3:4661");
    cycle.attempt_started(next);
    cycle.set_status(1, AttemptStatus::Connected);
    let (poll, failed) = cycle.poll(false);
    assert!(matches!(poll, ParallelPoll::Won(1)));
    assert!(failed.is_empty());
    {
        let mut cycle = ParallelCycle::new(vec![server("192.0.2.1:4661")]);
        let next = cycle.next_to_try().unwrap();
        cycle.attempt_started(next);
        cycle.set_status(0, AttemptStatus::Failed);
        let (poll, failed) = cycle.poll(false);
        assert!(matches!(poll, ParallelPoll::Done(ParallelServerCycleOutcome::Exhausted)));
        assert_eq!(failed.len(), 1);
        let mut cycle = ParallelCycle::new(vec![server("192.0.2.1:4661")]);
        let (poll, _) = cycle.poll(true);
        assert!(matches!(poll, ParallelPoll::Done(ParallelServerCycleOutcome::Shutdown)));
    }
}

#[test]
fn keyword_search_is_planned_from_the_configuration() {
    let plan = plan_keyword_search(&two_servers(), Some(sock(2, 4661)), 1, "linux").unwrap().unwrap();
    assert_eq!(endpoints(&plan.servers), vec!["192.0.2.2:4661"]);
    assert_eq!(plan.payload, [&[1u8, 5, 0][..], b"linux"].concat());
    assert_eq!(
        plan_keyword_search(&two_servers(), None, 1, "(a").unwrap_err(),
        WalkError::Search(SearchError::MissingCloseParen)
    );
    assert_eq!(
        plan_source_search(&Ed2kConfig::default(), &Vec::new(), None, None, 3).unwrap_err(),
        WalkError::NoServer
    );
    let servers = plan_source_search(
        &two_servers(),
        &vec![sock(1, 4661)],
        None,
        None,
        3,
    )
    .unwrap();
    assert_eq!(endpoints(&servers), vec!["192.0.2.2:4661"]);
    let plan = plan_udp_keyword_search(&two_servers(), &Vec::new(), Some(sock(1, 4661)), 3, "a")
        .unwrap()
        .unwrap();
    assert_eq!(endpoints(&plan.servers), vec!["192.0.2.2:4661"]);
}

#[test]
fn walks_prefer_results_to_errors() {
    let mut walk = KeywordWalk::new();
    assert!(walk.on_server(Err(WalkError::Transport)).is_none());
    assert!(walk.on_server(Ok(Vec::new())).is_none());
    let found = walk.on_server(Ok(vec![search_file(1)])).unwrap();
    assert_eq!(found, vec![search_file(1)]);
    assert_eq!(walk.finish().unwrap_err(), WalkError::Transport);
    assert_eq!(KeywordWalk::new().finish(), Ok(Vec::new()));
    {
        let mut walk = SourceWalk::new();
        walk.on_server(Ok(vec![source(1, 7)]));
        walk.on_server(Err(WalkError::Transport));
        walk.on_server(Ok(vec![source(1, 7), source(1, 8)]));
        walk.on_server(Ok(vec![source(1, 7), source(1, 8)]));
        assert_eq!(walk.finish().unwrap(), vec![source(1, 7), source(1, 8)]);
        let mut walk = SourceWalk::new();
        walk.on_server(Err(WalkError::Transport));
        assert_eq!(walk.finish().unwrap_err(), WalkError::Transport);
    }
}

#[test]
fn udp_keyword_walk_hears_only_queried_servers() {
    let mut page = 1u32.to_le_bytes().to_vec();
    page.extend_from_slice(&[6u8; 16]);
    page.extend_from_slice(&[0u8; 10]);
    let mut walk = UdpKeywordWalk::new();
    walk.on_datagram(&datagram(1, OP_GLOBSEARCHRES, page.clone()));
    assert!(walk.results.is_empty());
    walk.on_queried(&resolved(Ipv4Addr::new(192, 0, 2, 1), 4661));
    walk.on_datagram(&datagram(1, OP_GLOBFOUNDSOURCES, page.clone()));
    assert!(walk.results.is_empty());
    walk.on_datagram(&datagram(1, OP_GLOBSEARCHRES, page));
    assert_eq!(walk.finish().unwrap(), vec![search_file(6)]);
    assert_eq!(udp_keyword_deadline(100, 50), 850);
    assert_eq!(udp_keyword_wait(100, 850), Some(750));
    assert_eq!(udp_keyword_wait(850, 850), None);
}

#[test]
fn udp_source_walk_keeps_the_file_and_marks_the_server() {
    let server = resolved(Ipv4Addr::new(192, 0, 2, 1), 4661);
    let mut walk = UdpSourceWalk::new(Ed2kHash::from_bytes([1; 16]));
    let other = datagram(1, OP_GLOBFOUNDSOURCES, source_bytes(2, &[7]));
    assert_eq!(walk.on_datagram(&server, &other), UdpSourceStep::Answered);
    assert!(!walk.has_sources());
    let status = datagram(1, OP_GLOBSERVSTATRES, Vec::new());
    assert_eq!(walk.on_datagram(&server, &status), UdpSourceStep::KeepWaiting);
    let answer = datagram(1, OP_GLOBFOUNDSOURCES, source_bytes(1, &[7]));
    assert_eq!(walk.on_datagram(&server, &answer), UdpSourceStep::Answered);
    assert!(walk.has_sources());
    let sources = walk.finish().unwrap();
    assert_eq!(sources.len(), 1);
    assert_eq!(sources[0].source_server, Some(at(1, 4661)));
}

#[test]
fn udp_batch_walk_sorts_sources_by_file() {
    let mut walk = UdpSourceBatchWalk::new(vec![
        Ed2kUdpSourceRequestTarget { file_hash: Ed2kHash::from_bytes([1; 16]), file_size: 1 },
        Ed2kUdpSourceRequestTarget { file_hash: Ed2kHash::from_bytes([2; 16]), file_size: 1 },
    ]);
    assert!(!walk.any_queried());
    walk.on_queried(&resolved(Ipv4Addr::new(192, 0, 2, 1), 4661));
    assert!(walk.any_queried());
    walk.on_datagram(&datagram(1, OP_GLOBFOUNDSOURCES, source_bytes(2, &[7, 8])));
    walk.on_datagram(&datagram(1, OP_GLOBFOUNDSOURCES, source_bytes(3, &[9])));
    walk.on_datagram(&datagram(1, OP_GLOBFOUNDSOURCES, source_bytes(2, &[8])));
    let found = walk.finish().unwrap();
    assert_eq!(found.len(), 1);
    assert_eq!(found[0].file_hash, Ed2kHash::from_bytes([2; 16]));
    assert_eq!(found[0].sources.len(), 2);
}

#[test]
fn description_is_asked_for_after_the_status() {
    let server = resolved(Ipv4Addr::new(192, 0, 2, 1), 4661);
    let mut status = 0x55AA_0001u32.to_le_bytes().to_vec();
    status.extend_from_slice(&[0u8; 8]);
    let packet = datagram(1, OP_GLOBSERVSTATRES, status);
    assert!(matches!(
        on_poll_datagram(ServerPoll::Status(0x55AA_0001), &server, &packet),
        PollStep::AskDescription
    ));
    assert!(matches!(
        on_poll_datagram(ServerPoll::Status(0x55AA_0002), &server, &packet),
        PollStep::Fail(PollError::StatusChallengeMismatch)
    ));
    let other = datagram(1, OP_GLOBSEARCHRES, Vec::new());
    assert!(matches!(
        on_poll_datagram(ServerPoll::Status(0x55AA_0001), &server, &other),
        PollStep::KeepWaiting
    ));
    let legacy = [&[1u8, 0][..], b"n", &[1, 0], b"d"].concat();
    let packet = datagram(1, OP_SERVER_DESC_RES, legacy);
    match on_poll_datagram(ServerPoll::Description(0), &server, &packet) {
        PollStep::Report(Ed2kServerListEvent::MetadataUpdated { endpoint, name, description }) => {
            assert_eq!(endpoint, "192.0.2.1:4661");
            assert_eq!(name.as_deref(), Some("n"));
            assert_eq!(description.as_deref(), Some("d"));
        }
        other => panic!("unexpected {other:?}"),
    }
}

#[test]
fn connected_server_is_not_polled() {
    let server = resolved(Ipv4Addr::new(192, 0, 2, 1), 4661);
    let mut state = Ed2kServerState::default();
    assert!(should_poll_server(&state, &server));
    state.open_connection(at(2, 4661));
    state.connected = true;
    assert!(should_poll_server(&state, &server));
    state.endpoint = Some(at(1, 4661));
    assert!(!should_poll_server(&state, &server));
}
