use emulebb_ed2k::addr::{Ipv4Addr, SocketAddr, SocketAddrV4};
use emulebb_ed2k::ed2k_server::active_callback::{ActiveCallback, CallbackWait};
use emulebb_ed2k::ed2k_server::active_keyword::{ActiveKeywordSearch, ActiveProgress};
use emulebb_ed2k::ed2k_server::active_source::ActiveSourceSearch;
use emulebb_ed2k::ed2k_server::background::{
    search_channel_capacity, settle_callback_reply, settle_keyword_reply, settle_publish_reply,
    settle_source_reply, BackgroundAnswer, BackgroundReply, BackgroundSearchError,
    BackgroundSearchFailure, BackgroundServerSearchRequest, Ed2kBackgroundSearchInterrupted,
    ServerUdpPacket,
};
use emulebb_ed2k::ed2k_server::obfuscation::{
    biguint_to_fixed_be, derive_server_cipher, non_protocol_marker, prime_bytes, public_number,
    random_non_protocol_marker, random_nonzero_biguint, shared_secret, HandshakeError,
    NumberTooLong, ObfuscationHandshake, EMULE_TCP_CRYPT_MAGIC_REQUESTER,
    EMULE_TCP_CRYPT_MAGIC_SERVER, EMULE_TCP_CRYPT_MAGIC_SYNC, SERVER_OBFUSCATION_MAX_PADDING_LEN,
    SERVER_OBFUSCATION_PUBLIC_KEY_LEN,
};
use emulebb_ed2k::ed2k_server::packet_codec::PacketError;
use emulebb_ed2k::ed2k_server::packet_handler::{
    decode_callback_request, decode_id_change_payload, decode_server_ident, handle_server_packet,
    ServerError, ServerSessionContext,
};
use emulebb_ed2k::ed2k_server::search_expr::SearchCriteria;
use emulebb_ed2k::ed2k_server::server_entry::{ConfiguredServerEntry, ResolvedServerEntry};
use emulebb_ed2k::ed2k_server::session::{
    cancelled_publish_stats, offer_files_catalog_fingerprint, offer_files_entries_fingerprint,
    offer_files_settle_delay, send_offer_files_advertisement,
    send_server_list_request, Ed2kPacket, OfferFilesPublishStats, ServerSession,
    ServerSessionPhase, ServerWire, SessionAction, OFFER_FILE_SEARCH_SETTLE_DELAY,
};
use emulebb_ed2k::ed2k_server::session_driver::{
    plan_login, BackgroundSession, SessionEnd, SessionStep,
};
use emulebb_ed2k::ed2k_server::startup::Ed2kHelloIdentity;
use emulebb_ed2k::ed2k_server::types::Ed2kServerState;
use emulebb_ed2k::ed2k_server::{
    OP_CALLBACKREQUEST, OP_CALLBACKREQUESTED, OP_CALLBACK_FAIL, OP_EDONKEYPROT, OP_FOUNDSOURCES,
    OP_GETSERVERLIST, OP_GETSOURCES, OP_GLOBSEARCHRES, OP_GLOBSERVSTATRES, OP_IDCHANGE,
    OP_OFFERFILES, OP_PACKEDPROT, OP_QUERY_MORE_RESULT, OP_REJECT, OP_SEARCHREQUEST,
    OP_SEARCHRESULT, OP_SERVERLIST, OP_SERVERSTATUS, SERVER_TCP_FLAG_COMPRESSION,
    SERVER_TCP_FLAG_TCPOBFUSCATION,
};
use emulebb_ed2k::ed2k_transfer::Ed2kSharedEntry;
use emulebb_ed2k::ids::Ed2kHash;

const NOW: u64 = 1_000_000;
const SECOND: u64 = 1_000;
const CONNECT_OPTIONS: u8 = 0x03;

fn at(last: u8, port: u16) -> SocketAddrV4 {
    SocketAddrV4::new(Ipv4Addr::new(192, 0, 2, last), port)
}

fn resolved() -> ResolvedServerEntry {
    ResolvedServerEntry {
        entry: ConfiguredServerEntry::from_endpoint_text("192.0.2.1:4661").unwrap(),
        ip: Ipv4Addr::new(192, 0, 2, 1),
    }
}

fn shared(byte: u8) -> Ed2kSharedEntry {
    Ed2kSharedEntry {
        file_hash: format!("{byte:02x}").repeat(16),
        canonical_name: format!("file-{byte}.bin"),
        file_size: 1_000,
    }
}

fn context(catalog: Vec<Ed2kSharedEntry>) -> ServerSessionContext {
    ServerSessionContext {
        bind_ip: Ipv4Addr::new(192, 168, 1, 5),
        tcp_port: 4662,
        connect_options: 0,
        probe_search_term: None,
        shared_catalog: catalog,
        add_servers_from_server: false,
        keepalive_interval: Some(60 * SECOND),
    }
}

fn packet(opcode: u8, payload: Vec<u8>) -> Ed2kPacket {
    Ed2kPacket { opcode, payload }
}

fn id_change(client_id: u32) -> Ed2kPacket {
    packet(OP_IDCHANGE, client_id.to_le_bytes().to_vec())
}

fn page(hashes: &[u8], more: bool) -> Vec<u8> {
    let mut bytes = (hashes.len() as u32).to_le_bytes().to_vec();
    for hash in hashes {
        bytes.extend_from_slice(&[*hash; 16]);
        bytes.extend_from_slice(&[0u8; 10]);
    }
    bytes.push(u8::from(more));
    bytes
}

fn sources(file: u8, lasts: &[u8]) -> Vec<u8> {
    let mut bytes = vec![file; 16];
    bytes.push(lasts.len() as u8);
    for last in lasts {
        bytes.extend_from_slice(&[198, 51, 100, *last, 0x36, 0x12]);
    }
    bytes
}

fn sent_opcodes(actions: &[SessionAction]) -> Vec<u8> {
    actions
        .iter()
        .filter_map(|a| match a {
            SessionAction::Send { opcode, .. } => Some(*opcode),
            _ => None,
        })
        .collect()
}

fn keyword(id: u64) -> BackgroundServerSearchRequest {
    BackgroundServerSearchRequest::Keyword {
        id,
        query: "linux".to_string(),
        criteria: SearchCriteria::default(),
        timeout: 30 * SECOND,
    }
}

fn started() -> (BackgroundSession, Ed2kServerState) {
    let mut state = Ed2kServerState::default();
    let driver =
        BackgroundSession::start(&resolved(), at(1, 4661), Some(100 * SECOND), &mut state, NOW);
    (driver, state)
}

fn logged_in() -> (BackgroundSession, Ed2kServerState) {
    let (mut driver, mut state) = started();
    let step = driver.on_packet(&mut state, &id_change(0x0A00_0001), &context(Vec::new()), NOW);
    assert!(step.end.is_none());
    assert!(driver.session.login_accepted);
    (driver, state)
}

fn assert_quiet(step: &SessionStep) {
    assert!(step.answers.is_empty());
    assert!(step.actions.is_empty());
    assert!(step.end.is_none());
}

#[test]
fn server_read_rejects_oversized_declared_length() {
    let mut header = vec![OP_EDONKEYPROT];
    header.extend_from_slice(&u32::MAX.to_le_bytes());
    header.push(OP_EDONKEYPROT);
    let err = ServerWire::plain()
        .decode_header(header)
        .expect_err("oversized server packet length must be rejected");
    assert_eq!(err, PacketError::Oversized(u32::MAX - 1));
}

#[test]
fn server_connect_rolls_back_connecting_state_on_setup_failure() {
    let mut state = Ed2kServerState::default();
    let endpoint = SocketAddrV4::new(Ipv4Addr::new(127, 0, 0, 1), 4661);
    state.begin_connect(endpoint);
    assert!(state.connecting);
    state.undo_connect(endpoint);
    assert!(!state.connecting);
    assert!(!state.connected);
    assert!(state.endpoint.is_none());
}

#[test]
fn server_bound_non_offer_packets_stay_uncompressed_with_compression_flag() {
    for opcode in [OP_SEARCHREQUEST, OP_GETSOURCES] {
        let packet = ServerWire::plain()
            .encode(opcode, &vec![0u8; 512], Some(SERVER_TCP_FLAG_COMPRESSION))
            .unwrap();
        assert_eq!(
            packet[0], OP_EDONKEYPROT,
            "opcode 0x{opcode:02X} must be sent as 0xE3, not packed",
        );
        assert_eq!(packet[5], opcode);
    }
}

#[test]
fn offer_files_is_packed_when_smaller_on_compression_server() {
    let packet = ServerWire::plain()
        .encode(OP_OFFERFILES, &vec![0u8; 512], Some(SERVER_TCP_FLAG_COMPRESSION))
        .unwrap();
    assert_eq!(packet[0], OP_PACKEDPROT, "compressible OP_OFFERFILES must pack");
    assert_eq!(packet[5], OP_OFFERFILES);
}

#[test]
fn empty_offer_files_keepalive_is_not_packed() {
    let packet = ServerWire::plain()
        .encode(OP_OFFERFILES, &0u32.to_le_bytes(), Some(SERVER_TCP_FLAG_COMPRESSION))
        .unwrap();
    assert_eq!(
        packet[0], OP_EDONKEYPROT,
        "0-file OP_OFFERFILES keepalive must stay uncompressed",
    );
    assert_eq!(packet[5], OP_OFFERFILES);
}

#[test]
fn server_list_request_gated_on_add_servers_from_server() {
    let mut session = ServerSession::new(at(1, 4661), 0, NOW);
    let mut actions = Vec::new();
    send_server_list_request(&mut session, false, NOW, &mut actions);
    assert!(!session.server_list_requested);
    assert!(actions.is_empty(), "no packet must be sent when AddServersFromServer is off");

    send_server_list_request(&mut session, true, NOW, &mut actions);
    assert!(session.server_list_requested);
    assert_eq!(
        actions,
        vec![SessionAction::Send { opcode: OP_GETSERVERLIST, payload: Vec::new() }]
    );
    let header = ServerWire::plain().encode(OP_GETSERVERLIST, &[], None).unwrap();
    assert_eq!(header[0], OP_EDONKEYPROT);
    assert_eq!(u32::from_le_bytes(header[1..5].try_into().unwrap()), 1);
    assert_eq!(header[5], OP_GETSERVERLIST);

    send_server_list_request(&mut session, true, NOW, &mut actions);
    assert_eq!(actions.len(), 1, "server list must be requested at most once");
}

#[test]
fn callback_request_only_trusts_crypt_profile_with_user_hash() {
    let mut truncated = Vec::new();
    truncated.extend_from_slice(&u32::from_le_bytes([127, 0, 0, 1]).to_le_bytes());
    truncated.extend_from_slice(&4662u16.to_le_bytes());
    truncated.push(CONNECT_OPTIONS);

    let callback = decode_callback_request(&truncated).expect("callback");

    assert_eq!(callback.peer_addr, SocketAddrV4::new(Ipv4Addr::new(127, 0, 0, 1), 4662));
    assert_eq!(callback.connect_options, None);
    assert_eq!(callback.user_hash, None);

    let mut full = truncated;
    full.extend_from_slice(&[0x11; 16]);
    let callback = decode_callback_request(&full).expect("callback");

    assert_eq!(callback.connect_options, Some(CONNECT_OPTIONS));
    assert_eq!(callback.user_hash, Some([0x11; 16]));
}

#[test]
fn id_change_decoder_preserves_zero_client_id_as_unaccepted_login() {
    let mut payload = Vec::new();
    payload.extend_from_slice(&0u32.to_le_bytes());
    payload.extend_from_slice(&SERVER_TCP_FLAG_TCPOBFUSCATION.to_le_bytes());
    payload.extend_from_slice(&[0, 0, 0, 0]);
    payload.extend_from_slice(&u32::from_le_bytes([127, 0, 0, 1]).to_le_bytes());

    let id_change = decode_id_change_payload(&payload).unwrap();

    assert_eq!(id_change.client_id, 0);
    assert_eq!(id_change.server_flags, Some(SERVER_TCP_FLAG_TCPOBFUSCATION));
    assert_eq!(id_change.reported_client_ip, Some(Ipv4Addr::new(127, 0, 0, 1)));
}

#[test]
fn server_messages_are_decoded_or_refused() {
    assert_eq!(decode_id_change_payload(&[1, 2, 3]).unwrap_err(), ServerError::ShortIdChange);
    assert!(decode_callback_request(&[1, 2, 3, 4, 5]).is_none());
    {
        let mut payload = vec![9u8; 16];
        payload.extend_from_slice(&[192, 0, 2, 1, 0x35, 0x12]);
        payload.extend_from_slice(&1u32.to_le_bytes());
        payload.extend_from_slice(&[0x82, 0x01, 3, 0, b'a', b'b', b'c']);
        let ident = decode_server_ident(&payload).unwrap();
        assert_eq!(ident.name.as_deref(), Some("abc"));
        assert_eq!(ident.description, None);
    }
}

#[test]
fn wire_ciphers_undo_each_other() {
    let secret = [0x42u8; SERVER_OBFUSCATION_PUBLIC_KEY_LEN];
    let cipher = |magic| Some(derive_server_cipher(&secret, magic));
    let mut client = ServerWire {
        send: cipher(EMULE_TCP_CRYPT_MAGIC_REQUESTER),
        receive: cipher(EMULE_TCP_CRYPT_MAGIC_SERVER),
    };
    let mut server = ServerWire {
        send: cipher(EMULE_TCP_CRYPT_MAGIC_SERVER),
        receive: cipher(EMULE_TCP_CRYPT_MAGIC_REQUESTER),
    };
    for _ in 0..2 {
        let packet = client.encode(OP_SEARCHREQUEST, b"query", None).unwrap();
        assert_ne!(packet[0], OP_EDONKEYPROT);
        let (protocol, opcode, len) = server.decode_header(packet[..6].to_vec()).unwrap();
        assert_eq!(len, 5);
        let decoded = server.decode_body(protocol, opcode, packet[6..].to_vec()).unwrap();
        assert_eq!(decoded, Ed2kPacket { opcode: OP_SEARCHREQUEST, payload: b"query".to_vec() });
    }
}

#[test]
fn both_sides_of_the_handshake_agree() {
    let ours = vec![0x11u8; 16];
    let theirs = vec![0x2Fu8; 16];
    let (handshake, request) = ObfuscationHandshake::start_with(ours.clone(), 0x55, &[1, 2]);
    assert_eq!(request[0], 0x55);
    let our_public = request[1..97].to_vec();
    assert_eq!(our_public, public_number(&ours));
    assert_eq!(&request[97..], &[2, 1, 2]);
    assert_eq!(
        shared_secret(&our_public, &theirs),
        shared_secret(&public_number(&theirs), &ours)
    );

    let secret = shared_secret(&our_public, &theirs);
    let mut their_send = derive_server_cipher(&secret, EMULE_TCP_CRYPT_MAGIC_SERVER);
    let mut their_receive = derive_server_cipher(&secret, EMULE_TCP_CRYPT_MAGIC_REQUESTER);
    let mut ciphers = handshake.accept_public(&public_number(&theirs));
    let mut header = EMULE_TCP_CRYPT_MAGIC_SYNC.to_le_bytes().to_vec();
    header.extend_from_slice(&[0, 0, 3]);
    their_send.apply(&mut header);
    assert_eq!(ciphers.accept_header(header), Ok(3));
    let mut padding = vec![7, 7, 7];
    their_send.apply(&mut padding);
    ciphers.accept_padding(padding);
    let mut plain = ciphers.answer_with(&[0xE3, 1], &[9]);
    their_receive.apply(&mut plain);
    assert_eq!(plain[..4], EMULE_TCP_CRYPT_MAGIC_SYNC.to_le_bytes());
    assert_eq!(plain[4..], [0, 1, 9, 0xE3, 1]);
    {
        let (handshake, request) = ObfuscationHandshake::start();
        assert!(request.len() >= 98);
        assert!(request.len() <= 98 + usize::from(SERVER_OBFUSCATION_MAX_PADDING_LEN));
        let mut ciphers = handshake.accept_public(&public_number(&[5]));
        assert!(matches!(
            ciphers.accept_header(vec![0; 7]),
            Err(HandshakeError::UnexpectedMagic(_))
        ));
    }
}

#[test]
fn public_number_is_a_power_of_two() {
    let mut want = vec![0u8; 96];
    want[94] = 1;
    assert_eq!(public_number(&[8]), want);
    assert_eq!(prime_bytes().len(), 96);
    assert_eq!(biguint_to_fixed_be(&[1, 2], 4), Ok(vec![0, 0, 1, 2]));
    assert_eq!(
        biguint_to_fixed_be(&[1, 2], 1),
        Err(NumberTooLong { needed: 2, available: 1 })
    );
    let secret = random_nonzero_biguint(16);
    assert_eq!(secret.len(), 16);
    assert!(secret.iter().any(|b| *b != 0));
    assert_eq!(non_protocol_marker(&[0xE3, 0xC5, 0xD4, 0x17, 0x18]), 0x17);
    assert_eq!(non_protocol_marker(&[0x17, 0xE3]), 0x17);
    assert_eq!(non_protocol_marker(&[0xE3, 0xD4]), 0);
    assert_eq!(non_protocol_marker(&[]), 0);
    for _ in 0..64 {
        let marker = random_non_protocol_marker();
        assert!(![0xE3, 0xD4, 0xC5].contains(&marker));
    }
}

#[test]
fn login_is_planned_with_the_outside_ports() {
    let identity = Ed2kHelloIdentity {
        user_hash: [0x21; 16],
        tcp_port: 1,
        udp_port: 2,
        connect_options: CONNECT_OPTIONS,
    };
    let plan = plan_login(&resolved(), identity, 4662, 4672);
    assert!(plan.use_obfuscation);
    assert_eq!(plan.endpoint, at(1, 4661));
    assert!(!plan_login(&resolved(), Ed2kHelloIdentity { connect_options: 0, ..identity }, 1, 2)
        .use_obfuscation);
    assert_eq!(plan.payload[20..22], 4662u16.to_le_bytes());
}

#[test]
fn login_opens_the_connection_and_offers_the_share() {
    let (mut driver, mut state) = started();
    assert!(!state.connected);
    assert_eq!(state.endpoint, Some(at(1, 4661)));
    let step = driver.on_packet(
        &mut state,
        &id_change(0x0A00_0001),
        &context(vec![shared(1)]),
        NOW,
    );
    assert!(state.connected);
    assert_eq!(state.client_id, Some(0x0A00_0001));
    assert!(step.actions.contains(&SessionAction::ReportConnected));
    assert_eq!(sent_opcodes(&step.actions), vec![OP_OFFERFILES]);
    assert_eq!(driver.session.offer_files_published_hashes, vec![[1u8; 16]]);
}

#[test]
fn refused_login_is_not_a_login() {
    let (mut driver, mut state) = started();
    let step = driver.on_packet(&mut state, &id_change(0), &context(Vec::new()), NOW);
    assert_eq!(step.end, None);
    assert_eq!(step.actions, vec![SessionAction::ClearPublicIp]);
    assert!(!driver.session.login_accepted);
    assert!(!state.connected);
    let mut endless = shared(1);
    endless.canonical_name = "x".repeat(70_000);
    let step = driver.on_packet(&mut state, &id_change(0), &context(vec![endless]), NOW);
    assert_eq!(step.actions, vec![SessionAction::ClearPublicIp]);
    let (mut driver, mut state) = started();
    let step =
        driver.on_packet(&mut state, &packet(OP_REJECT, Vec::new()), &context(Vec::new()), NOW);
    assert_eq!(step.end, Some(SessionEnd::Failed(ServerError::Rejected)));
}

#[test]
fn request_before_the_login_is_queued_and_started_after_it() {
    let (mut driver, mut state) = started();
    let step = driver.on_request(keyword(7), &context(Vec::new()), NOW);
    assert_quiet(&step);
    assert!(driver.queued.is_some());
    assert!(!driver.idle());
    let step = driver.on_packet(&mut state, &id_change(0x0A00_0001), &context(Vec::new()), NOW);
    assert!(sent_opcodes(&step.actions).contains(&OP_SEARCHREQUEST));
    assert!(driver.queued.is_none());
    assert!(driver.pending.is_some());
}

#[test]
fn keyword_search_gathers_its_pages() {
    let (mut driver, mut state) = logged_in();
    let step = driver.on_request(keyword(7), &context(Vec::new()), NOW);
    assert_eq!(sent_opcodes(&step.actions), vec![OP_SEARCHREQUEST]);
    let step = driver.on_packet(
        &mut state,
        &packet(OP_SEARCHRESULT, page(&[1], true)),
        &context(Vec::new()),
        NOW,
    );
    assert_eq!(sent_opcodes(&step.actions), vec![OP_QUERY_MORE_RESULT]);
    assert!(step.answers.is_empty());
    let step = driver.on_packet(
        &mut state,
        &packet(OP_SEARCHRESULT, page(&[2], false)),
        &context(Vec::new()),
        NOW,
    );
    match &step.answers[..] {
        [BackgroundAnswer::Files { id: 7, files }] => {
            let hashes: Vec<u8> = files.iter().map(|f| f.file_hash.0[0]).collect();
            assert_eq!(hashes, vec![1, 2]);
        }
        other => panic!("unexpected {other:?}"),
    }
    assert!(driver.idle());
}

#[test]
fn source_search_accepts_only_its_file() {
    let (mut driver, mut state) = logged_in();
    let request = BackgroundServerSearchRequest::Source {
        id: 8,
        file_hash: Ed2kHash::from_bytes([3; 16]),
        file_size: 1_000,
        timeout: 30 * SECOND,
    };
    let step = driver.on_request(request, &context(Vec::new()), NOW);
    assert_eq!(sent_opcodes(&step.actions), vec![OP_GETSOURCES]);
    let step = driver.on_packet(
        &mut state,
        &packet(OP_FOUNDSOURCES, sources(3, &[7])),
        &context(Vec::new()),
        NOW,
    );
    match &step.answers[..] {
        [BackgroundAnswer::Sources { id: 8, sources }] => {
            assert_eq!(sources.len(), 1);
            assert_eq!(sources[0].source_server, Some(at(1, 4661)));
        }
        other => panic!("unexpected {other:?}"),
    }
}

#[test]
fn callback_and_publish_are_answered_at_once() {
    let (mut driver, _state) = logged_in();
    let callback = BackgroundServerSearchRequest::Callback { id: 1, client_id: 9 };
    let step = driver.on_request(callback, &context(Vec::new()), NOW);
    assert!(matches!(step.answers[..], [BackgroundAnswer::CallbackSent { id: 1 }]));
    assert_eq!(
        step.actions,
        vec![
            SessionAction::Sleep { millis: OFFER_FILE_SEARCH_SETTLE_DELAY },
            SessionAction::Send {
                opcode: OP_CALLBACKREQUEST,
                payload: 9u32.to_le_bytes().to_vec(),
            },
        ]
    );
    let publish = BackgroundServerSearchRequest::Publish { id: 2 };
    let step = driver.on_request(publish, &context(vec![shared(4)]), NOW);
    match step.answers[..] {
        [BackgroundAnswer::Published { id: 2, stats }] => assert_eq!(stats.entries_sent, 1),
        ref other => panic!("unexpected {other:?}"),
    }
}

#[test]
fn search_out_of_time_fails_and_the_session_goes_on() {
    let (mut driver, _state) = logged_in();
    driver.on_request(keyword(7), &context(Vec::new()), NOW);
    let deadline = NOW + OFFER_FILE_SEARCH_SETTLE_DELAY + 30 * SECOND;
    assert_eq!(driver.session.last_tx, NOW + OFFER_FILE_SEARCH_SETTLE_DELAY);
    assert_quiet(&driver.on_deadline(deadline - 1));
    let step = driver.on_deadline(deadline);
    match &step.answers[..] {
        [BackgroundAnswer::Failed { id: 7, failure }] => {
            assert!(!failure.interrupted);
            assert!(failure.message.contains("timed out"));
        }
        other => panic!("unexpected {other:?}"),
    }
    assert!(step.end.is_none());
    assert!(driver.idle());
    {
        let (mut driver, _state) = logged_in();
        let hasty = BackgroundServerSearchRequest::Source {
            id: 8,
            file_hash: Ed2kHash::from_bytes([3; 16]),
            file_size: 1_000,
            timeout: 50,
        };
        let step = driver.on_request(hasty, &context(Vec::new()), NOW + 30);
        assert_eq!(step.actions[0], SessionAction::Sleep { millis: 50 });
        assert_eq!(driver.pending.as_ref().map(|p| p.deadline()), Some(NOW + 130));
    }
}

#[test]
fn leaving_interrupts_what_is_outstanding() {
    let (mut driver, mut state) = logged_in();
    driver.on_request(keyword(7), &context(Vec::new()), NOW);
    assert_quiet(&driver.on_rotation(&mut state, NOW + 200 * SECOND));
    let step = driver.on_reconnect(&mut state);
    assert!(matches!(
        &step.answers[..],
        [BackgroundAnswer::Failed { id: 7, failure }] if failure.interrupted
    ));
    assert_eq!(step.end, Some(SessionEnd::RestartPreferredOrder));
    assert!(!state.connected);

    let (mut driver, mut state) = logged_in();
    let step = driver.on_rotation(&mut state, NOW + 200 * SECOND);
    assert_eq!(step.end, Some(SessionEnd::ContinueOrder));
    let (mut driver, mut state) = logged_in();
    assert_eq!(driver.on_shutdown(&mut state).end, Some(SessionEnd::ContinueOrder));
    let (mut driver, _) = logged_in();
    assert_eq!(driver.on_closed().end, Some(SessionEnd::Failed(ServerError::Closed)));
}

#[test]
fn status_answer_is_counted_once() {
    let (mut driver, mut state) = logged_in();
    assert!(driver.status_request_due(NOW));
    driver.status_request_sent(0x55AA_0001, NOW);
    assert!(!driver.status_request_due(NOW + SECOND));
    let mut payload = 0x55AA_0001u32.to_le_bytes().to_vec();
    payload.extend_from_slice(&5u32.to_le_bytes());
    payload.extend_from_slice(&6u32.to_le_bytes());
    let datagram = ServerUdpPacket {
        from: SocketAddr::v4(Ipv4Addr::new(192, 0, 2, 1), 4665),
        opcode: OP_GLOBSERVSTATRES,
        payload,
    };
    assert_quiet(&driver.on_udp_packet(&mut state, &datagram));
    assert_eq!((state.server_users, state.server_files), (Some(5), Some(6)));
    assert_eq!(driver.status_challenge, None);
    state.server_users = None;
    driver.on_udp_packet(&mut state, &datagram);
    assert_eq!(state.server_users, None);
}

#[test]
fn datagram_answers_the_pending_search() {
    let (mut driver, mut state) = logged_in();
    driver.on_request(keyword(7), &context(Vec::new()), NOW);
    let datagram = |last: u8, payload: Vec<u8>| ServerUdpPacket {
        from: SocketAddr::v4(Ipv4Addr::new(192, 0, 2, last), 4665),
        opcode: OP_GLOBSEARCHRES,
        payload,
    };
    assert_quiet(&driver.on_udp_packet(&mut state, &datagram(9, page(&[1], false))));
    assert_quiet(&driver.on_udp_packet(&mut state, &datagram(1, vec![1, 2])));
    let step = driver.on_udp_packet(&mut state, &datagram(1, page(&[1], false)));
    assert!(matches!(&step.answers[..], [BackgroundAnswer::Files { id: 7, files }] if files.len() == 1));
}

#[test]
fn keepalive_goes_out_after_silence() {
    let (mut driver, _state) = logged_in();
    assert_quiet(&driver.on_keepalive(&context(Vec::new()), NOW + 59 * SECOND));
    let step = driver.on_keepalive(&context(vec![shared(1)]), NOW + 60 * SECOND);
    assert_eq!(
        step.actions,
        vec![SessionAction::Send { opcode: OP_OFFERFILES, payload: vec![0, 0, 0, 0] }]
    );
    assert_quiet(&driver.on_keepalive(&context(Vec::new()), NOW + 61 * SECOND));
}

#[test]
fn server_news_are_passed_on() {
    let (mut driver, mut state) = logged_in();
    let mut status = 11u32.to_le_bytes().to_vec();
    status.extend_from_slice(&22u32.to_le_bytes());
    let step =
        driver.on_packet(&mut state, &packet(OP_SERVERSTATUS, status), &context(Vec::new()), NOW);
    assert_quiet(&step);
    assert_eq!((state.server_users, state.server_files), (Some(11), Some(22)));
    let list = vec![1, 203, 0, 113, 9, 0x35, 0x12];
    let mut learning = context(Vec::new());
    learning.add_servers_from_server = true;
    let step = driver.on_packet(&mut state, &packet(OP_SERVERLIST, list), &learning, NOW);
    assert_eq!(
        step.actions,
        vec![SessionAction::ReportServers(vec![(Ipv4Addr::new(203, 0, 113, 9), 4661)])]
    );
    let mut callback = vec![198, 51, 100, 7];
    callback.extend_from_slice(&4662u16.to_le_bytes());
    let step = driver.on_packet(
        &mut state,
        &packet(OP_CALLBACKREQUESTED, callback),
        &context(Vec::new()),
        NOW,
    );
    assert!(matches!(step.actions[..], [SessionAction::ConnectPeer(_)]));
}

#[test]
fn offers_are_published_once_and_settle() {
    let mut session = ServerSession::new(at(1, 4661), 0, NOW);
    session.assigned_client_id = Some(0x0A00_0001);
    let catalog = vec![shared(1), shared(2)];
    let mut actions = Vec::new();
    let bind_ip = Ipv4Addr::new(192, 168, 1, 5);
    let stats =
        send_offer_files_advertisement(&mut session, &catalog, bind_ip, 4662, NOW, &mut actions);
    assert_eq!((stats.entries_sent, stats.total_entries), (2, 2));
    assert_eq!(sent_opcodes(&actions), vec![OP_OFFERFILES]);
    assert_eq!(
        offer_files_settle_delay(&session, NOW + 10),
        Some(OFFER_FILE_SEARCH_SETTLE_DELAY - 10)
    );
    assert_eq!(offer_files_settle_delay(&session, NOW + OFFER_FILE_SEARCH_SETTLE_DELAY), None);
    let stats =
        send_offer_files_advertisement(&mut session, &catalog, bind_ip, 4662, NOW, &mut actions);
    assert_eq!(stats.entries_sent, 0);
    assert_eq!(cancelled_publish_stats().entries_sent, 0);
    assert_eq!(OfferFilesPublishStats::default().total_entries, 0);
}

#[test]
fn unknown_packets_change_nothing() {
    let mut session = ServerSession::new(at(1, 4661), 0, NOW);
    let mut state = Ed2kServerState::default();
    let (actions, error) = handle_server_packet(
        &mut session,
        &mut state,
        &packet(0xFE, vec![1, 2, 3]),
        &context(Vec::new()),
        true,
        NOW,
    );
    assert!(actions.is_empty());
    assert!(error.is_none());
    assert_eq!(state, Ed2kServerState::default());
    assert_eq!(session.phase, ServerSessionPhase::Connecting);
}

#[test]
fn active_keyword_search_runs_to_its_last_page() {
    let mut search = ActiveKeywordSearch::start(at(1, 4661), 0, vec![1, 1, 0, b'a'], NOW);
    let ctx = context(Vec::new());
    let (actions, progress) = search.on_packet(&id_change(0x0A00_0001), &ctx, NOW);
    assert_eq!(progress, ActiveProgress::Going);
    assert!(sent_opcodes(&actions).contains(&OP_SEARCHREQUEST));
    let (_, progress) = search.on_packet(&packet(OP_SEARCHRESULT, page(&[1], true)), &ctx, NOW);
    assert_eq!(progress, ActiveProgress::Going);
    let (_, progress) = search.on_packet(&packet(OP_SEARCHRESULT, page(&[2], false)), &ctx, NOW);
    assert_eq!(progress, ActiveProgress::Complete);
    assert_eq!(search.into_results().len(), 2);
    let mut search = ActiveKeywordSearch::start(at(1, 4661), 0, vec![1], NOW);
    let (_, progress) = search.on_packet(&id_change(0), &ctx, NOW);
    assert_eq!(progress, ActiveProgress::Failed(ServerError::ZeroClientId));
}

#[test]
fn active_source_search_refuses_another_file() {
    let ctx = context(Vec::new());
    let start = || {
        ActiveSourceSearch::start(
            &resolved(),
            at(1, 4661),
            0,
            Ed2kHash::from_bytes([3; 16]),
            1_000,
            NOW,
        )
    };
    let mut search = start();
    let (actions, _) = search.on_packet(&id_change(0x0A00_0001), &ctx, NOW);
    assert!(sent_opcodes(&actions).contains(&OP_GETSOURCES));
    let (_, progress) = search.on_packet(&packet(OP_FOUNDSOURCES, sources(3, &[7])), &ctx, NOW);
    assert_eq!(progress, ActiveProgress::Complete);
    assert_eq!(search.into_sources().len(), 1);
    let mut search = start();
    search.on_packet(&id_change(0x0A00_0001), &ctx, NOW);
    let (_, progress) = search.on_packet(&packet(OP_FOUNDSOURCES, sources(4, &[7])), &ctx, NOW);
    assert_eq!(progress, ActiveProgress::Failed(ServerError::UnexpectedFileHash));
}

#[test]
fn active_callback_waits_for_a_refusal() {
    let ctx = context(Vec::new());
    let mut callback = ActiveCallback::start(at(1, 4661), 9, 45 * SECOND, NOW);
    assert_eq!(callback.before_read(NOW), CallbackWait::Read(45 * SECOND));
    let (actions, progress) = callback.on_packet(&id_change(0x0A00_0001), &ctx, NOW);
    assert_eq!(progress, ActiveProgress::Going);
    assert!(sent_opcodes(&actions).contains(&OP_CALLBACKREQUEST));
    let sent = NOW + OFFER_FILE_SEARCH_SETTLE_DELAY;
    assert_eq!(callback.before_read(sent), CallbackWait::Read(5 * SECOND));
    assert_eq!(callback.before_read(sent + 5 * SECOND - 1), CallbackWait::Read(1));
    assert_eq!(callback.before_read(sent + 5 * SECOND), CallbackWait::Done);
    let (_, progress) = callback.on_packet(&packet(OP_CALLBACK_FAIL, Vec::new()), &ctx, NOW);
    assert_eq!(progress, ActiveProgress::Failed(ServerError::CallbackFailed));
    assert_eq!(callback.on_timeout(), ServerError::TimedOut);
    assert_eq!(callback.on_closed(), ServerError::Closed);
}

#[test]
fn replies_are_settled() {
    assert_eq!(settle_keyword_reply(BackgroundReply::Cancelled), Ok(Vec::new()));
    assert!(matches!(
        settle_keyword_reply(BackgroundReply::Dropped),
        Err(BackgroundSearchError::Interrupted(Ed2kBackgroundSearchInterrupted(_)))
    ));
    assert_eq!(
        settle_source_reply(BackgroundReply::Dropped),
        Err(BackgroundSearchError::Interrupted(Ed2kBackgroundSearchInterrupted(
            "ED2K background source responder dropped".to_string()
        )))
    );
    assert!(matches!(
        settle_source_reply(BackgroundReply::ChannelClosed),
        Err(BackgroundSearchError::Interrupted(_))
    ));
    assert!(matches!(
        settle_callback_reply(BackgroundReply::Dropped),
        Err(BackgroundSearchError::Interrupted(_))
    ));
    assert!(matches!(
        settle_callback_reply(BackgroundReply::ChannelClosed),
        Err(BackgroundSearchError::Interrupted(_))
    ));
    assert!(matches!(
        settle_publish_reply(BackgroundReply::Dropped),
        Err(BackgroundSearchError::Interrupted(_))
    ));
    assert!(matches!(
        settle_publish_reply(BackgroundReply::ChannelClosed),
        Err(BackgroundSearchError::Interrupted(_))
    ));
    assert_eq!(
        settle_callback_reply(BackgroundReply::TimedOut(5)),
        Err(BackgroundSearchError::TimedOut(5))
    );
    let failure = BackgroundSearchFailure { message: "no".to_string(), interrupted: false };
    assert_eq!(
        settle_publish_reply(BackgroundReply::Answered(Err(failure))),
        Err(BackgroundSearchError::Failed("no".to_string()))
    );
    assert_eq!(settle_callback_reply(BackgroundReply::Answered(Ok(()))), Ok(()));
    assert_eq!(search_channel_capacity(0), 1);
    assert_eq!(search_channel_capacity(9), 9);
}

#[test]
fn fingerprint_is_the_hash_of_the_files() {
    let offer = vec![
        ([1u8; 16], "first.bin".to_string(), 1_000u64, 4u8),
        ([2u8; 16], "zweite-\u{e4}.avi".to_string(), u64::MAX, 8u8),
    ];
    let mut hasher = std::collections::hash_map::DefaultHasher::new();
    std::hash::Hash::hash(&offer, &mut hasher);
    let want = std::hash::Hasher::finish(&hasher);
    assert_eq!(offer_files_entries_fingerprint(&offer), want);
    assert_ne!(offer_files_entries_fingerprint(&Vec::new()), want);
    let catalog = vec![shared(1), shared(2)];
    assert_eq!(
        offer_files_catalog_fingerprint(&catalog),
        offer_files_catalog_fingerprint(&catalog)
    );
    assert_ne!(
        offer_files_catalog_fingerprint(&catalog),
        offer_files_catalog_fingerprint(&vec![shared(1)])
    );
}
