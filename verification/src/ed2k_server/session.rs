//! One session with a server: the bytes on its connection, and what both ends
//! have said so far.
//!
//! A session does no input or output of its own. What it decides to do it
//! hands out as actions; it takes them as done, and a caller that cannot carry
//! one out gives the session up.
use std::collections::hash_map::DefaultHasher;
use std::hash::Hasher;

use vstd::prelude::*;
use vstd::std_specs::hash::DefaultHasherAdditionalSpecFns;
use vstd::utf8::encode_utf8;

use super::packet_codec::{
    decode_packet_header, decode_server_payload, encode_packet, encoded_packet, packet_header,
    payload_of, server_opcode_allows_compression, PacketError,
};
use super::search_expr::{encode_search_request, no_criteria, search_request, SearchError};
use super::server_entry::{offer_limit, server_offer_file_limit};
use super::startup::{
    batch_at_cursor, cursor_wrapped, encode_unpublished_offer, flag_is_set, has_flag, hash_views,
    offer_endpoint, offer_files_cursor_wrapped, offer_names_fit, offer_payload, offer_view,
    offer_views,
    offered_files_catalog_at_cursor, ranked, shared_views, unpublished_batch_at_cursor,
    EncodedOfferFilesPayload, OfferBatchView, OfferView, OfferedFile,
    MAX_OFFER_FILES_PER_ADVERTISEMENT,
};
use super::types::{CallbackRequest, CallbackRequestView};
use super::{
    OP_GETSERVERLIST, OP_OFFERFILES, OP_SEARCHREQUEST, SERVER_TCP_FLAG_COMPRESSION,
    SERVER_TCP_FLAG_LARGEFILES, TCP_PACKET_HEADER_LEN,
};
use crate::addr::{Ipv4Addr, SocketAddrV4};
use crate::bytes::{push_u64, u64_le};
use crate::compression::zlib_deflated;
use crate::ed2k_transfer::{Ed2kSharedEntry, SharedView};
use crate::rc4::{advanced, crypted, Rc4KeyStream, Rc4View};
use crate::text::opt_text;

verus! {

/// Milliseconds between an offer of files and the first search after it.
pub const OFFER_FILE_SEARCH_SETTLE_DELAY: u64 = 80;

// ---------------------------------------------------------------------------
// The connection
// ---------------------------------------------------------------------------
/// A packet from a server.
#[derive(Debug, PartialEq, Eq)]
pub struct Ed2kPacket {
    pub opcode: u8,
    pub payload: Vec<u8>,
}

/// The ciphers of a connection; none where it is plain.
pub struct ServerWire {
    pub send: Option<Rc4KeyStream>,
    pub receive: Option<Rc4KeyStream>,
}

/// The state of a cipher that may be missing.
pub open spec fn cipher_view(c: Option<Rc4KeyStream>) -> Option<Rc4View> {
    match c {
        Some(k) => Some(k@),
        None => None,
    }
}

/// `data` under a cipher that may be missing.
pub open spec fn under(c: Option<Rc4View>, data: Seq<u8>) -> Seq<u8> {
    match c {
        Some(v) => crypted(v, data),
        None => data,
    }
}

/// A cipher that may be missing, `n` bytes on.
pub open spec fn moved_on(c: Option<Rc4View>, n: nat) -> Option<Rc4View> {
    match c {
        Some(v) => Some(advanced(v, n)),
        None => None,
    }
}

/// Whether a packet may be packed: it offers files, and the server knows
/// compression.
pub open spec fn may_pack(opcode: u8, server_flags: Option<u32>) -> bool {
    opcode == OP_OFFERFILES && has_flag(server_flags, SERVER_TCP_FLAG_COMPRESSION)
}

impl ServerWire {
    /// A plain connection.
    pub fn plain() -> (r: Self)
        ensures
            cipher_view(r.send) is None,
            cipher_view(r.receive) is None,
    {
        ServerWire { send: None, receive: None }
    }

    /// The bytes that a packet goes out as.
    pub fn encode(&mut self, opcode: u8, payload: &[u8], server_flags: Option<u32>) -> (r: Result<
        Vec<u8>,
        PacketError,
    >)
        ensures
            cipher_view(final(self).receive) == cipher_view(old(self).receive),
            match r {
                Ok(bytes) => exists|packet: Seq<u8>|
                    {
                        &&& encoded_packet(
                            opcode,
                            payload@,
                            if may_pack(opcode, server_flags) {
                                zlib_deflated(payload@)
                            } else {
                                None
                            },
                        ) == Ok::<_, PacketError>(packet)
                        &&& bytes@ == #[trigger] under(cipher_view(old(self).send), packet)
                        &&& cipher_view(final(self).send) == moved_on(
                            cipher_view(old(self).send),
                            packet.len(),
                        )
                    },
                Err(e) => {
                    &&& cipher_view(final(self).send) == cipher_view(old(self).send)
                    &&& if may_pack(opcode, server_flags) && zlib_deflated(payload@) is None {
                        e == PacketError::DeflateFailed
                    } else {
                        encoded_packet(
                            opcode,
                            payload@,
                            if may_pack(opcode, server_flags) {
                                zlib_deflated(payload@)
                            } else {
                                None
                            },
                        ) == Err::<Seq<u8>, _>(e)
                    }
                },
            },
            may_pack(opcode, server_flags) && zlib_deflated(payload@) is None ==> r == Err::<
                Vec<u8>,
                _,
            >(PacketError::DeflateFailed),
    {
        let use_compression: bool = server_opcode_allows_compression(opcode) && flag_is_set(
            server_flags,
            SERVER_TCP_FLAG_COMPRESSION,
        );
        let mut packet: Vec<u8> = match encode_packet(opcode, payload, use_compression) {
            Ok(p) => p,
            Err(e) => return Err(e),
        };
        let ghost plain = packet@;
        if let Some(cipher) = &mut self.send {
            cipher.apply(&mut packet);
        }
        assert(packet@ == under(cipher_view(old(self).send), plain));
        Ok(packet)
    }

    /// What the header of a packet says, from its bytes on the connection.
    pub fn decode_header(&mut self, header: Vec<u8>) -> (r: Result<(u8, u8, usize), PacketError>)
        requires
            header@.len() == TCP_PACKET_HEADER_LEN,
        ensures
            cipher_view(final(self).send) == cipher_view(old(self).send),
            cipher_view(final(self).receive) == moved_on(cipher_view(old(self).receive), 6),
            match r {
                Ok((protocol, opcode, len)) => packet_header(
                    under(cipher_view(old(self).receive), header@),
                ) == Ok::<_, PacketError>((protocol, opcode, len as nat)),
                Err(e) => packet_header(under(cipher_view(old(self).receive), header@)) == Err::<
                    (u8, u8, nat),
                    _,
                >(e),
            },
    {
        let mut header: Vec<u8> = header;
        if let Some(cipher) = &mut self.receive {
            cipher.apply(&mut header);
        }
        decode_packet_header(header.as_slice())
    }

    /// The packet whose header said `protocol` and `opcode`, from the bytes of
    /// its body on the connection.
    pub fn decode_body(&mut self, protocol: u8, opcode: u8, body: Vec<u8>) -> (r: Result<
        Ed2kPacket,
        PacketError,
    >)
        ensures
            cipher_view(final(self).send) == cipher_view(old(self).send),
            cipher_view(final(self).receive) == moved_on(
                cipher_view(old(self).receive),
                body@.len(),
            ),
            match r {
                Ok(packet) => packet.opcode == opcode && payload_of(
                    protocol,
                    under(cipher_view(old(self).receive), body@),
                ) == Ok::<_, PacketError>(packet.payload@),
                Err(e) => payload_of(protocol, under(cipher_view(old(self).receive), body@))
                    == Err::<Seq<u8>, _>(e),
            },
    {
        let mut body: Vec<u8> = body;
        if let Some(cipher) = &mut self.receive {
            cipher.apply(&mut body);
        }
        match decode_server_payload(protocol, body) {
            Ok(payload) => Ok(Ed2kPacket { opcode, payload }),
            Err(e) => Err(e),
        }
    }
}

/// Bytes that one end sends, header and body, come out the same at the other
/// end, whose cipher is in the same state; plain or under a cipher.
pub proof fn law_connection_is_transparent(c: Option<Rc4View>, header: Seq<u8>, body: Seq<u8>)
    ensures
        ({
            let wire = under(c, header + body);
            let n = header.len() as int;
            &&& under(c, wire.take(n)) == header
            &&& under(moved_on(c, header.len()), wire.skip(n)) == body
        }),
{
    let wire = under(c, header + body);
    let n = header.len() as int;
    match c {
        Some(v) => {
            crate::rc4::law_crypting_in_pieces(v, header, body);
            assert(wire.take(n) =~= crypted(v, header));
            assert(wire.skip(n) =~= crypted(advanced(v, header.len()), body));
            crate::rc4::law_crypting_twice_restores(v, header);
            crate::rc4::law_crypting_twice_restores(advanced(v, header.len()), body);
        },
        None => {
            assert(wire.take(n) =~= header);
            assert(wire.skip(n) =~= body);
        },
    }
}

/// Only an offer of files is ever packed.
pub proof fn law_only_offers_are_packed(opcode: u8, server_flags: Option<u32>)
    requires
        opcode != OP_OFFERFILES,
    ensures
        !may_pack(opcode, server_flags),
{
}

// ---------------------------------------------------------------------------
// The session
// ---------------------------------------------------------------------------
/// How far a session has come.
#[derive(Debug, Clone, Copy, PartialEq, Eq, Structural)]
pub enum ServerSessionPhase {
    Connecting,
    AwaitingIdChange,
    Connected,
    OfferFilesSent,
    SearchActive,
    AwaitingMore,
    Completed,
}

impl ServerSessionPhase {
    /// The name of a phase.
    pub open spec fn name(self) -> Seq<char> {
        match self {
            ServerSessionPhase::Connecting => "connecting"@,
            ServerSessionPhase::AwaitingIdChange => "awaiting_idchange"@,
            ServerSessionPhase::Connected => "connected"@,
            ServerSessionPhase::OfferFilesSent => "offer_files_sent"@,
            ServerSessionPhase::SearchActive => "search_active"@,
            ServerSessionPhase::AwaitingMore => "awaiting_more"@,
            ServerSessionPhase::Completed => "completed"@,
        }
    }

    /// The name of a phase.
    pub fn as_str(self) -> (r: &'static str)
        ensures
            r@ == self.name(),
    {
        match self {
            ServerSessionPhase::Connecting => "connecting",
            ServerSessionPhase::AwaitingIdChange => "awaiting_idchange",
            ServerSessionPhase::Connected => "connected",
            ServerSessionPhase::OfferFilesSent => "offer_files_sent",
            ServerSessionPhase::SearchActive => "search_active",
            ServerSessionPhase::AwaitingMore => "awaiting_more",
            ServerSessionPhase::Completed => "completed",
        }
    }
}

/// A session with a server.
#[derive(Debug)]
pub struct ServerSession {
    pub endpoint: SocketAddrV4,
    /// When the client last sent something.
    pub last_tx: u64,
    pub login_accepted: bool,
    pub probe_search_sent: bool,
    pub offer_files_sent: bool,
    pub offer_files_sent_at: Option<u64>,
    pub offer_files_catalog_fingerprint: Option<u64>,
    pub offer_files_catalog_cursor: usize,
    pub offer_files_published_hashes: Vec<[u8; 16]>,
    pub assigned_client_id: Option<u32>,
    pub server_flags: Option<u32>,
    /// How many files the server likes to be offered; zero where unknown.
    pub server_soft_files: u32,
    pub server_list_requested: bool,
    pub phase: ServerSessionPhase,
}

/// What a session holds.
pub struct SessionView {
    pub endpoint: SocketAddrV4,
    pub last_tx: u64,
    pub login_accepted: bool,
    pub probe_search_sent: bool,
    pub offer_files_sent: bool,
    pub offer_files_sent_at: Option<u64>,
    pub fingerprint: Option<u64>,
    pub cursor: int,
    pub published: Seq<Seq<u8>>,
    pub assigned_client_id: Option<u32>,
    pub server_flags: Option<u32>,
    pub server_soft_files: u32,
    pub server_list_requested: bool,
    pub phase: ServerSessionPhase,
}

impl View for ServerSession {
    type V = SessionView;

    open spec fn view(&self) -> SessionView {
        SessionView {
            endpoint: self.endpoint,
            last_tx: self.last_tx,
            login_accepted: self.login_accepted,
            probe_search_sent: self.probe_search_sent,
            offer_files_sent: self.offer_files_sent,
            offer_files_sent_at: self.offer_files_sent_at,
            fingerprint: self.offer_files_catalog_fingerprint,
            cursor: self.offer_files_catalog_cursor as int,
            published: hash_views(self.offer_files_published_hashes@),
            assigned_client_id: self.assigned_client_id,
            server_flags: self.server_flags,
            server_soft_files: self.server_soft_files,
            server_list_requested: self.server_list_requested,
            phase: self.phase,
        }
    }
}

/// A session on a fresh connection.
pub open spec fn fresh_session(endpoint: SocketAddrV4, soft_files: u32, now: u64) -> SessionView {
    SessionView {
        endpoint,
        last_tx: now,
        login_accepted: false,
        probe_search_sent: false,
        offer_files_sent: false,
        offer_files_sent_at: None,
        fingerprint: None,
        cursor: 0,
        published: Seq::empty(),
        assigned_client_id: None,
        server_flags: None,
        server_soft_files: soft_files,
        server_list_requested: false,
        phase: ServerSessionPhase::Connecting,
    }
}

/// What a session has its owner do.
#[derive(Debug, PartialEq, Eq)]
pub enum SessionAction {
    /// Send a packet.
    Send { opcode: u8, payload: Vec<u8> },
    /// Wait so many milliseconds.
    Sleep { millis: u64 },
    /// The public address of the client is known.
    SetPublicIp(Ipv4Addr),
    /// The public address of the client is not known.
    ClearPublicIp,
    /// Report that the server accepted the login.
    ReportConnected,
    /// Report servers that the server named.
    ReportServers(Vec<(Ipv4Addr, u16)>),
    /// Connect to a peer that asked for it through the server.
    ConnectPeer(CallbackRequest),
}

/// What an action says.
pub enum ActionView {
    Send(u8, Seq<u8>),
    Sleep(u64),
    SetPublicIp(Ipv4Addr),
    ClearPublicIp,
    ReportConnected,
    ReportServers(Seq<(Ipv4Addr, u16)>),
    ConnectPeer(CallbackRequestView),
}

impl View for SessionAction {
    type V = ActionView;

    open spec fn view(&self) -> ActionView {
        match *self {
            SessionAction::Send { opcode, payload } => ActionView::Send(opcode, payload@),
            SessionAction::Sleep { millis } => ActionView::Sleep(millis),
            SessionAction::SetPublicIp(ip) => ActionView::SetPublicIp(ip),
            SessionAction::ClearPublicIp => ActionView::ClearPublicIp,
            SessionAction::ReportConnected => ActionView::ReportConnected,
            SessionAction::ReportServers(v) => ActionView::ReportServers(v@),
            SessionAction::ConnectPeer(c) => ActionView::ConnectPeer(c@),
        }
    }
}

/// What actions say.
pub open spec fn action_views(v: Seq<SessionAction>) -> Seq<ActionView> {
    v.map_values(|a: SessionAction| a@)
}

/// Appends an action.
pub fn push_action(actions: &mut Vec<SessionAction>, action: SessionAction)
    ensures
        action_views(final(actions)@) == action_views(old(actions)@).push(action@),
{
    actions.push(action);
    assert(action_views(actions@) =~= action_views(old(actions)@).push(action@));
}

impl ServerSession {
    /// A session on a fresh connection.
    pub fn new(endpoint: SocketAddrV4, server_soft_files: u32, now: u64) -> (r: Self)
        ensures
            r@ == fresh_session(endpoint, server_soft_files, now),
    {
        let r = ServerSession {
            endpoint,
            last_tx: now,
            login_accepted: false,
            probe_search_sent: false,
            offer_files_sent: false,
            offer_files_sent_at: None,
            offer_files_catalog_fingerprint: None,
            offer_files_catalog_cursor: 0,
            offer_files_published_hashes: Vec::new(),
            assigned_client_id: None,
            server_flags: None,
            server_soft_files,
            server_list_requested: false,
            phase: ServerSessionPhase::Connecting,
        };
        assert(hash_views(r.offer_files_published_hashes@) =~= Seq::empty());
        r
    }
}

/// A session after it sent something at `now`.
pub open spec fn sent(s: SessionView, now: u64) -> SessionView {
    SessionView { last_tx: now, ..s }
}

/// A session in another phase.
pub open spec fn in_phase(s: SessionView, phase: ServerSessionPhase) -> SessionView {
    SessionView { phase, ..s }
}

/// How long a search has to wait for the last offer to settle.
pub open spec fn settle_delay(s: SessionView, now: u64) -> Option<u64> {
    match s.offer_files_sent_at {
        Some(at) => {
            let elapsed = if now >= at {
                now - at
            } else {
                0
            };
            if elapsed < OFFER_FILE_SEARCH_SETTLE_DELAY {
                Some((OFFER_FILE_SEARCH_SETTLE_DELAY - elapsed) as u64)
            } else {
                None
            }
        },
        None => None,
    }
}

/// How many milliseconds go by before a search that is dispatched at `now`
/// goes out.
pub open spec fn settle_wait(s: SessionView, now: u64) -> u64 {
    match settle_delay(s, now) {
        Some(millis) => millis,
        None => 0,
    }
}

/// Whether the time at which a search goes out is on the clock.
pub open spec fn can_go_out(s: SessionView, now: u64) -> bool {
    now + settle_wait(s, now) <= u64::MAX
}

/// When a search that is dispatched at `now` goes out: once the last offer has
/// settled.
pub open spec fn goes_out_at(s: SessionView, now: u64) -> u64 {
    (now + settle_wait(s, now)) as u64
}

/// The wait for the last offer to settle, where one is needed.
pub open spec fn settled(s: SessionView, now: u64) -> Seq<ActionView> {
    match settle_delay(s, now) {
        Some(millis) => seq![ActionView::Sleep(millis)],
        None => Seq::empty(),
    }
}

/// How long a search has to wait for the last offer to settle.
pub fn offer_files_settle_delay(session: &ServerSession, now: u64) -> (r: Option<u64>)
    ensures
        r == settle_delay(session@, now),
{
    match session.offer_files_sent_at {
        Some(at) => {
            let elapsed: u64 = if now >= at {
                now - at
            } else {
                0
            };
            if elapsed < OFFER_FILE_SEARCH_SETTLE_DELAY {
                Some(OFFER_FILE_SEARCH_SETTLE_DELAY - elapsed)
            } else {
                None
            }
        },
        None => None,
    }
}

/// Has the owner wait for the last offer to settle, then send a packet, with
/// the session in the phase of a search.
pub open spec fn dispatched(s: SessionView, opcode: u8, payload: Seq<u8>, now: u64) -> (
    SessionView,
    Seq<ActionView>,
) {
    (
        sent(in_phase(s, ServerSessionPhase::SearchActive), goes_out_at(s, now)),
        settled(s, now).push(ActionView::Send(opcode, payload)),
    )
}

/// Has the owner wait for the last offer to settle, then send a packet. Says
/// when the packet goes out.
pub fn dispatch(
    session: &mut ServerSession,
    opcode: u8,
    payload: Vec<u8>,
    now: u64,
    actions: &mut Vec<SessionAction>,
) -> (r: u64)
    requires
        can_go_out(old(session)@, now),
    ensures
        r == goes_out_at(old(session)@, now),
        final(session)@ == dispatched(old(session)@, opcode, payload@, now).0,
        action_views(final(actions)@) == action_views(old(actions)@) + dispatched(
            old(session)@,
            opcode,
            payload@,
            now,
        ).1,
{
    let mut at: u64 = now;
    if let Some(millis) = offer_files_settle_delay(session, now) {
        push_action(actions, SessionAction::Sleep { millis });
        at = now + millis;
    }
    push_action(actions, SessionAction::Send { opcode, payload });
    session.phase = ServerSessionPhase::SearchActive;
    session.last_tx = at;
    assert(action_views(actions@) =~= action_views(old(actions)@) + dispatched(
        old(session)@,
        opcode,
        payload@,
        now,
    ).1);
    at
}

// ---------------------------------------------------------------------------
// Offering files
// ---------------------------------------------------------------------------
/// What became of an offer.
#[derive(Clone, Copy, Debug, Eq, PartialEq, Structural)]
pub struct OfferFilesPublishStats {
    pub entries_sent: usize,
    pub total_entries: usize,
    pub next_cursor: usize,
    pub wrapped: bool,
    pub skipped_duplicate_batch: bool,
}

impl Default for OfferFilesPublishStats {
    fn default() -> (r: Self)
        ensures
            r == (OfferFilesPublishStats {
                entries_sent: 0,
                total_entries: 0,
                next_cursor: 0,
                wrapped: false,
                skipped_duplicate_batch: false,
            }),
    {
        OfferFilesPublishStats {
            entries_sent: 0,
            total_entries: 0,
            next_cursor: 0,
            wrapped: false,
            skipped_duplicate_batch: false,
        }
    }
}

/// What a publish request that was cancelled is answered with.
pub fn cancelled_publish_stats() -> (r: OfferFilesPublishStats)
    ensures
        r == (OfferFilesPublishStats {
            entries_sent: 0,
            total_entries: 0,
            next_cursor: 0,
            wrapped: true,
            skipped_duplicate_batch: true,
        }),
{
    OfferFilesPublishStats {
        entries_sent: 0,
        total_entries: 0,
        next_cursor: 0,
        wrapped: true,
        skipped_duplicate_batch: true,
    }
}

/// The files that a session offers next: those not published yet, from its
/// cursor on, as many as the server likes.
pub open spec fn next_offer(s: SessionView, catalog: Seq<SharedView>) -> OfferBatchView {
    unpublished_batch_at_cursor(
        ranked(catalog, has_flag(s.server_flags, SERVER_TCP_FLAG_LARGEFILES)),
        s.cursor,
        s.published,
        offer_limit(s.server_soft_files),
    )
}

/// Whether the offer that a session makes next can be made: every name in it
/// fits the length of a string tag.
pub open spec fn offer_fits(s: SessionView, catalog: Seq<SharedView>) -> bool {
    offer_names_fit(next_offer(s, catalog).entries)
}

/// The hashes that an offer names.
pub open spec fn offer_hashes(entries: Seq<OfferView>) -> Seq<Seq<u8>> {
    entries.map_values(|o: OfferView| o.file_hash)
}

/// Whether an offer stays unsent: nothing of a catalogue that has something is
/// left to publish, or it is the offer that was sent last.
pub open spec fn offer_is_skipped(s: SessionView, b: OfferBatchView) -> bool {
    ||| b.entries.len() == 0 && b.total_entries > 0
    ||| s.offer_files_sent && s.fingerprint == Some(offer_fingerprint(b.entries))
}

/// A session after the offer `b`: it is sent, unless it is skipped.
pub open spec fn offered(s: SessionView, b: OfferBatchView, now: u64) -> SessionView {
    if offer_is_skipped(s, b) {
        s
    } else {
        SessionView {
            last_tx: now,
            offer_files_sent: true,
            offer_files_sent_at: Some(now),
            fingerprint: Some(offer_fingerprint(b.entries)),
            cursor: b.next_cursor,
            published: s.published + offer_hashes(b.entries),
            phase: ServerSessionPhase::OfferFilesSent,
            ..s
        }
    }
}

/// The packet that the offer `b` is sent as, unless it is skipped.
pub open spec fn offer_actions(
    s: SessionView,
    b: OfferBatchView,
    bind_ip: Ipv4Addr,
    tcp_port: u16,
) -> Seq<ActionView> {
    if offer_is_skipped(s, b) {
        Seq::empty()
    } else {
        seq![
            ActionView::Send(
                OP_OFFERFILES,
                offer_payload(
                    b.entries,
                    offer_endpoint(s.assigned_client_id, bind_ip, tcp_port, s.server_flags),
                ),
            ),
        ]
    }
}

/// What is said of the offer `b`.
pub open spec fn offer_stats(s: SessionView, b: OfferBatchView) -> OfferFilesPublishStats {
    OfferFilesPublishStats {
        entries_sent: b.entries.len() as usize,
        total_entries: b.total_entries as usize,
        next_cursor: b.next_cursor as usize,
        wrapped: (b.entries.len() == 0 && b.total_entries > 0) || cursor_wrapped(
            b.total_entries,
            s.cursor,
            b.next_cursor,
        ),
        skipped_duplicate_batch: offer_is_skipped(s, b),
    }
}

/// What becomes of the offer that a session makes next.
pub open spec fn advertised(
    s: SessionView,
    catalog: Seq<SharedView>,
    bind_ip: Ipv4Addr,
    tcp_port: u16,
    now: u64,
) -> (SessionView, Seq<ActionView>, OfferFilesPublishStats) {
    let b = next_offer(s, catalog);
    (
        offered(s, b, now),
        offer_actions(s, b, bind_ip, tcp_port),
        offer_stats(s, b),
    )
}

/// What is fed to a hasher for one file of an offer: the length of the hash
/// and the hash, the name with its end mark, the size and the type.
pub open spec fn entry_writes(o: OfferView) -> Seq<Seq<u8>> {
    seq![
        u64_le(o.file_hash.len() as u64),
        o.file_hash,
        encode_utf8(o.file_name),
        seq![0xFFu8],
        u64_le(o.file_size),
        seq![o.file_type],
    ]
}

/// What is fed to a hasher for the files of an offer, behind their number.
pub open spec fn offer_writes(count: u64, entries: Seq<OfferView>) -> Seq<Seq<u8>>
    decreases entries.len(),
{
    if entries.len() == 0 {
        seq![u64_le(count)]
    } else {
        offer_writes(count, entries.drop_last()) + entry_writes(entries.last())
    }
}

/// The number that an offer is told apart by: what the default hasher makes of
/// its files.
pub open spec fn offer_fingerprint(entries: Seq<OfferView>) -> u64 {
    DefaultHasher::spec_finish(offer_writes(entries.len() as u64, entries))
}

fn write_u64(hasher: &mut DefaultHasher, v: u64)
    ensures
        final(hasher)@ == old(hasher)@.push(u64_le(v)),
{
    let mut bytes: Vec<u8> = Vec::new();
    push_u64(&mut bytes, v);
    assert(bytes@ =~= u64_le(v));
    hasher.write(bytes.as_slice());
}

fn write_byte(hasher: &mut DefaultHasher, v: u8)
    ensures
        final(hasher)@ == old(hasher)@.push(seq![v]),
{
    let mut bytes: Vec<u8> = Vec::new();
    bytes.push(v);
    assert(bytes@ =~= seq![v]);
    hasher.write(bytes.as_slice());
}

fn write_entry(hasher: &mut DefaultHasher, entry: &OfferedFile)
    ensures
        final(hasher)@ == old(hasher)@ + entry_writes(offer_view(*entry)),
{
    write_u64(hasher, 16);
    hasher.write(entry.0.as_slice());
    hasher.write(entry.1.as_str().as_bytes());
    write_byte(hasher, 0xFF);
    write_u64(hasher, entry.2);
    write_byte(hasher, entry.3);
    assert(hasher@ =~= old(hasher)@ + entry_writes(offer_view(*entry)));
}

/// The number that an offer is told apart by.
pub fn offer_files_entries_fingerprint(entries: &Vec<OfferedFile>) -> (r: u64)
    ensures
        r == offer_fingerprint(offer_views(entries@)),
{
    let ghost views = offer_views(entries@);
    let ghost count = entries@.len() as u64;
    let mut hasher: DefaultHasher = DefaultHasher::new();
    write_u64(&mut hasher, entries.len() as u64);
    let mut i: usize = 0;
    assert(views.take(0) =~= Seq::empty());
    assert(hasher@ =~= offer_writes(count, views.take(0)));
    while i < entries.len()
        invariant
            i <= entries@.len(),
            views == offer_views(entries@),
            hasher@ == offer_writes(count, views.take(i as int)),
        decreases entries@.len() - i,
    {
        write_entry(&mut hasher, &entries[i]);
        assert(views.take(i + 1).drop_last() =~= views.take(i as int));
        assert(views.take(i + 1).last() == offer_view(entries@[i as int]));
        i += 1;
    }
    assert(views.take(i as int) =~= views);
    hasher.finish()
}

/// The number that the first offer of a catalogue is told apart by.
pub fn offer_files_catalog_fingerprint(shared_catalog: &Vec<Ed2kSharedEntry>) -> (r: u64)
    ensures
        r == offer_fingerprint(
            batch_at_cursor(
                ranked(shared_views(shared_catalog@), true),
                0,
                MAX_OFFER_FILES_PER_ADVERTISEMENT as int,
            ).entries,
        ),
{
    let first = offered_files_catalog_at_cursor(
        shared_catalog,
        0,
        MAX_OFFER_FILES_PER_ADVERTISEMENT,
        true,
    );
    offer_files_entries_fingerprint(&first.entries)
}

/// The offer that a session makes next, encoded.
pub fn encode_next_offer(
    session: &ServerSession,
    shared_catalog: &Vec<Ed2kSharedEntry>,
    bind_ip: Ipv4Addr,
    tcp_port: u16,
) -> (r: EncodedOfferFilesPayload)
    requires
        offer_fits(session@, shared_views(shared_catalog@)),
    ensures
        ({
            let b = next_offer(session@, shared_views(shared_catalog@));
            &&& r.payload@ == offer_payload(
                b.entries,
                offer_endpoint(
                    session.assigned_client_id,
                    bind_ip,
                    tcp_port,
                    session.server_flags,
                ),
            )
            &&& offer_views(r.entries@) == b.entries
            &&& r.next_cursor == b.next_cursor
            &&& r.total_entries == b.total_entries
        }),
{
    encode_unpublished_offer(
        shared_catalog,
        session.offer_files_catalog_cursor,
        &session.offer_files_published_hashes,
        server_offer_file_limit(session.server_soft_files),
        session.assigned_client_id,
        bind_ip,
        tcp_port,
        session.server_flags,
    )
}

/// Sends the offer of files that is next, unless its fingerprint says that it
/// is the one sent last, or nothing is left to publish.
pub fn send_offer_files_advertisement(
    session: &mut ServerSession,
    shared_catalog: &Vec<Ed2kSharedEntry>,
    bind_ip: Ipv4Addr,
    tcp_port: u16,
    now: u64,
    actions: &mut Vec<SessionAction>,
) -> (r: OfferFilesPublishStats)
    requires
        offer_fits(old(session)@, shared_views(shared_catalog@)),
    ensures
        ({
            let a = advertised(
                old(session)@,
                shared_views(shared_catalog@),
                bind_ip,
                tcp_port,
                now,
            );
            &&& final(session)@ == a.0
            &&& action_views(final(actions)@) == action_views(old(actions)@) + a.1
            &&& r == a.2
        }),
{
    let encoded: EncodedOfferFilesPayload = encode_next_offer(
        session,
        shared_catalog,
        bind_ip,
        tcp_port,
    );
    let ghost s = session@;
    let ghost b = next_offer(s, shared_views(shared_catalog@));
    let wrapped: bool = offer_files_cursor_wrapped(
        encoded.total_entries,
        session.offer_files_catalog_cursor,
        encoded.next_cursor,
    );
    let entries_sent: usize = encoded.entries.len();
    let fingerprint: u64 = offer_files_entries_fingerprint(&encoded.entries);
    assert(b.entries.len() == entries_sent);
    if entries_sent == 0 && encoded.total_entries > 0 {
        assert(action_views(actions@) + Seq::<ActionView>::empty() =~= action_views(actions@));
        return OfferFilesPublishStats {
            entries_sent: 0,
            total_entries: encoded.total_entries,
            next_cursor: encoded.next_cursor,
            wrapped: true,
            skipped_duplicate_batch: true,
        };
    }
    if session.offer_files_sent && session.offer_files_catalog_fingerprint == Some(fingerprint) {
        assert(action_views(actions@) + Seq::<ActionView>::empty() =~= action_views(actions@));
        return OfferFilesPublishStats {
            entries_sent,
            total_entries: encoded.total_entries,
            next_cursor: encoded.next_cursor,
            wrapped,
            skipped_duplicate_batch: true,
        };
    }
    let mut i: usize = 0;
    let ghost hashes = offer_hashes(b.entries);
    assert(s.published + hashes.take(0) =~= s.published);
    while i < encoded.entries.len()
        invariant
            i <= encoded.entries@.len(),
            offer_views(encoded.entries@) == b.entries,
            hashes == offer_hashes(b.entries),
            hash_views(session.offer_files_published_hashes@) == s.published + hashes.take(
                i as int,
            ),
            session@ == (SessionView {
                published: hash_views(session.offer_files_published_hashes@),
                ..s
            }),
        decreases encoded.entries@.len() - i,
    {
        let hash: [u8; 16] = encoded.entries[i].0;
        let ghost before = hash_views(session.offer_files_published_hashes@);
        session.offer_files_published_hashes.push(hash);
        proof {
            assert(hash_views(session.offer_files_published_hashes@) =~= before.push(hash@));
            assert(b.entries[i as int].file_hash == hash@);
            assert(hashes.take(i + 1) =~= hashes.take(i as int).push(hash@));
            assert(before.push(hash@) =~= s.published + hashes.take(i + 1));
        }
        i += 1;
    }
    assert(hashes.take(i as int) =~= hashes);
    session.last_tx = now;
    session.offer_files_sent = true;
    session.offer_files_sent_at = Some(now);
    session.offer_files_catalog_fingerprint = Some(fingerprint);
    session.offer_files_catalog_cursor = encoded.next_cursor;
    session.phase = ServerSessionPhase::OfferFilesSent;
    let next_cursor: usize = encoded.next_cursor;
    let total_entries: usize = encoded.total_entries;
    let ghost had = action_views(actions@);
    push_action(actions, SessionAction::Send { opcode: OP_OFFERFILES, payload: encoded.payload });
    assert(action_views(actions@) =~= had + offer_actions(s, b, bind_ip, tcp_port));
    OfferFilesPublishStats {
        entries_sent,
        total_entries,
        next_cursor,
        wrapped,
        skipped_duplicate_batch: false,
    }
}

/// What a session asks for by way of a server list, once, and only where
/// servers are to be learned from servers.
pub open spec fn list_requested(s: SessionView, add_servers_from_server: bool, now: u64) -> (
    SessionView,
    Seq<ActionView>,
) {
    if s.server_list_requested || !add_servers_from_server {
        (s, Seq::empty())
    } else {
        (
            sent(SessionView { server_list_requested: true, ..s }, now),
            seq![ActionView::Send(OP_GETSERVERLIST, Seq::empty())],
        )
    }
}

/// Asks for a server list, once, and only where servers are to be learned from
/// servers.
pub fn send_server_list_request(
    session: &mut ServerSession,
    add_servers_from_server: bool,
    now: u64,
    actions: &mut Vec<SessionAction>,
)
    ensures
        final(session)@ == list_requested(old(session)@, add_servers_from_server, now).0,
        action_views(final(actions)@) == action_views(old(actions)@) + list_requested(
            old(session)@,
            add_servers_from_server,
            now,
        ).1,
{
    if session.server_list_requested || !add_servers_from_server {
        assert(action_views(actions@) + Seq::<ActionView>::empty() =~= action_views(actions@));
        return ;
    }
    let payload: Vec<u8> = Vec::new();
    assert(payload@ =~= Seq::empty());
    push_action(actions, SessionAction::Send { opcode: OP_GETSERVERLIST, payload });
    session.server_list_requested = true;
    session.last_tx = now;
    assert(action_views(actions@) =~= action_views(old(actions)@) + list_requested(
        old(session)@,
        add_servers_from_server,
        now,
    ).1);
}

/// What happens once the login is accepted: files are offered, and a server
/// list is asked for.
pub open spec fn started_up(
    s: SessionView,
    catalog: Seq<SharedView>,
    bind_ip: Ipv4Addr,
    tcp_port: u16,
    add_servers_from_server: bool,
    now: u64,
) -> (SessionView, Seq<ActionView>) {
    let a = advertised(
        in_phase(s, ServerSessionPhase::Connected),
        catalog,
        bind_ip,
        tcp_port,
        now,
    );
    let listed = list_requested(a.0, add_servers_from_server, now);
    (listed.0, a.1 + listed.1)
}

/// Offers files and asks for a server list, once the login is accepted.
pub fn send_connected_server_startup(
    session: &mut ServerSession,
    shared_catalog: &Vec<Ed2kSharedEntry>,
    bind_ip: Ipv4Addr,
    tcp_port: u16,
    add_servers_from_server: bool,
    now: u64,
    actions: &mut Vec<SessionAction>,
)
    requires
        offer_fits(old(session)@, shared_views(shared_catalog@)),
    ensures
        ({
            let started = started_up(
                old(session)@,
                shared_views(shared_catalog@),
                bind_ip,
                tcp_port,
                add_servers_from_server,
                now,
            );
            &&& final(session)@ == started.0
            &&& action_views(final(actions)@) == action_views(old(actions)@) + started.1
        }),
{
    session.phase = ServerSessionPhase::Connected;
    let _ = send_offer_files_advertisement(
        session,
        shared_catalog,
        bind_ip,
        tcp_port,
        now,
        actions,
    );
    send_server_list_request(session, add_servers_from_server, now, actions);
    assert(action_views(actions@) =~= action_views(old(actions)@) + started_up(
        old(session)@,
        shared_views(shared_catalog@),
        bind_ip,
        tcp_port,
        add_servers_from_server,
        now,
    ).1);
}

// ---------------------------------------------------------------------------
// The probe search
// ---------------------------------------------------------------------------
/// Whether a probe search is dispatched: the login is accepted, none went out
/// yet, and a term is set that says something.
pub open spec fn probe_is_due(s: SessionView, term: Option<Seq<char>>) -> bool {
    &&& s.login_accepted && !s.probe_search_sent
    &&& term matches Some(t) && search_request(t, no_criteria()) matches Ok(payload)
        && payload.len() > 0
}

/// What becomes of a probe search: it goes out once, after the login, where a
/// term is set that says something.
pub open spec fn probed(s: SessionView, term: Option<Seq<char>>, now: u64) -> (
    SessionView,
    Seq<ActionView>,
    Option<SearchError>,
) {
    if !s.login_accepted || s.probe_search_sent || term is None {
        (s, Seq::empty(), None)
    } else {
        match search_request(term->Some_0, no_criteria()) {
            Err(e) => (s, Seq::empty(), Some(e)),
            Ok(payload) => if payload.len() == 0 {
                (s, Seq::empty(), None)
            } else {
                let d = dispatched(s, OP_SEARCHREQUEST, payload, now);
                (SessionView { probe_search_sent: true, ..d.0 }, d.1, None)
            },
        }
    }
}

/// Sends the probe search, once, after the login.
pub fn maybe_send_probe_search(
    session: &mut ServerSession,
    term: &Option<String>,
    now: u64,
    actions: &mut Vec<SessionAction>,
) -> (r: Option<SearchError>)
    requires
        probe_is_due(old(session)@, opt_text(*term)) ==> can_go_out(old(session)@, now),
    ensures
        ({
            let p = probed(old(session)@, opt_text(*term), now);
            &&& final(session)@ == p.0
            &&& action_views(final(actions)@) == action_views(old(actions)@) + p.1
            &&& r == p.2
        }),
{
    assert(action_views(actions@) + Seq::<ActionView>::empty() =~= action_views(actions@));
    if !session.login_accepted || session.probe_search_sent {
        return None;
    }
    let term: &String = match term {
        Some(t) => t,
        None => return None,
    };
    let payload: Vec<u8> = match encode_search_request(term.as_str()) {
        Ok(p) => p,
        Err(e) => return Some(e),
    };
    if payload.len() == 0 {
        return None;
    }
    let _ = dispatch(session, OP_SEARCHREQUEST, payload, now, actions);
    session.probe_search_sent = true;
    None
}

// ---------------------------------------------------------------------------
// Laws
// ---------------------------------------------------------------------------
/// How many milliseconds actions wait in all.
pub open spec fn slept(actions: Seq<ActionView>) -> int
    decreases actions.len(),
{
    if actions.len() == 0 {
        0
    } else {
        slept(actions.drop_last()) + (match actions.last() {
            ActionView::Sleep(millis) => millis as int,
            _ => 0,
        })
    }
}

pub proof fn lemma_slept_sum(a: Seq<ActionView>, b: Seq<ActionView>)
    ensures
        slept(a + b) == slept(a) + slept(b),
    decreases b.len(),
{
    if b.len() == 0 {
        assert(a + b =~= a);
    } else {
        assert((a + b).drop_last() =~= a + b.drop_last());
        lemma_slept_sum(a, b.drop_last());
    }
}

/// A search goes out when what its dispatch waits for is over, and that is
/// what the session takes for the time of its last packet.
pub proof fn law_search_goes_out_after_the_wait(
    s: SessionView,
    opcode: u8,
    payload: Seq<u8>,
    now: u64,
)
    ensures
        slept(dispatched(s, opcode, payload, now).1) == settle_wait(s, now),
        can_go_out(s, now) ==> dispatched(s, opcode, payload, now).0.last_tx == now + slept(
            dispatched(s, opcode, payload, now).1,
        ),
        settle_wait(s, now) <= OFFER_FILE_SEARCH_SETTLE_DELAY,
{
    reveal_with_fuel(slept, 3);
    let actions = dispatched(s, opcode, payload, now).1;
    assert(actions.drop_last() =~= settled(s, now));
    assert(settled(s, now).len() == 1 ==> settled(s, now).drop_last() =~= Seq::empty());
}

/// Nothing that follows an accepted login waits.
pub proof fn law_startup_does_not_wait(
    s: SessionView,
    catalog: Seq<SharedView>,
    bind_ip: Ipv4Addr,
    tcp_port: u16,
    add_servers_from_server: bool,
    now: u64,
)
    ensures
        slept(started_up(s, catalog, bind_ip, tcp_port, add_servers_from_server, now).1) == 0,
{
    reveal_with_fuel(slept, 2);
    let ready = in_phase(s, ServerSessionPhase::Connected);
    let a = advertised(ready, catalog, bind_ip, tcp_port, now);
    let listed = list_requested(a.0, add_servers_from_server, now);
    lemma_slept_sum(a.1, listed.1);
    assert(a.1.len() == 1 ==> a.1.drop_last() =~= Seq::empty());
    assert(listed.1.len() == 1 ==> listed.1.drop_last() =~= Seq::empty());
}

/// An offer that was sent is not sent again: it is skipped, and the session
/// stays as it is.
pub proof fn law_same_offer_is_not_repeated(
    s: SessionView,
    b: OfferBatchView,
    now: u64,
    later: u64,
)
    ensures
        ({
            let after = offered(s, b, now);
            !offer_is_skipped(s, b) ==> offered(after, b, later) == after
        }),
{
}

/// Every file that an offer names is published afterwards, and nothing that
/// was published is forgotten.
pub proof fn law_offer_publishes_its_files(
    s: SessionView,
    b: OfferBatchView,
    now: u64,
    i: int,
)
    requires
        !offer_is_skipped(s, b),
        0 <= i < b.entries.len(),
    ensures
        offered(s, b, now).published.contains(b.entries[i].file_hash),
        forall|h: Seq<u8>|
            s.published.contains(h) ==> offered(s, b, now).published.contains(h),
{
    let after = offered(s, b, now).published;
    assert(after[s.published.len() + i] == b.entries[i].file_hash);
    assert forall|h: Seq<u8>| s.published.contains(h) implies after.contains(h) by {
        let k = s.published.index_of(h);
        assert(after[k] == h);
    }
}

/// A server list is asked for at most once in a session.
pub proof fn law_server_list_is_requested_once(s: SessionView, add: bool, now: u64, again: bool, later: u64)
    requires
        list_requested(s, add, now).1.len() > 0,
    ensures
        list_requested(list_requested(s, add, now).0, again, later).1.len() == 0,
{
}

/// Where servers are not to be learned from servers, none are asked for.
pub proof fn law_no_server_list_unless_wanted(s: SessionView, now: u64)
    ensures
        list_requested(s, false, now) == (s, Seq::<ActionView>::empty()),
{
}

/// A search waits until eighty milliseconds have gone by since the last offer,
/// and not at all where no offer was made or they have.
pub proof fn law_offers_are_left_to_settle(s: SessionView, now: u64)
    ensures
        s.offer_files_sent_at is None ==> settle_wait(s, now) == 0,
        s.offer_files_sent_at matches Some(at) ==> {
            &&& now >= at + 80 ==> settle_wait(s, now) == 0
            &&& at <= now < at + 80 ==> now + settle_wait(s, now) == at + 80
            &&& now < at ==> settle_wait(s, now) == 80
        },
{
}

/// What is dispatched goes out last, as it is; the session is then in a search,
/// and nothing else of it changes but when it last sent.
pub proof fn law_dispatched_packet_goes_out(s: SessionView, opcode: u8, payload: Seq<u8>, now: u64)
    ensures
        ({
            let (after, actions) = dispatched(s, opcode, payload, now);
            &&& actions.len() > 0
            &&& actions.last() == ActionView::Send(opcode, payload)
            &&& settle_wait(s, now) == 0 ==> actions.len() == 1
            &&& settle_wait(s, now) > 0 ==> actions.len() == 2 && actions[0] == ActionView::Sleep(
                settle_wait(s, now),
            )
            &&& after.phase == ServerSessionPhase::SearchActive
            &&& (SessionView { phase: s.phase, last_tx: s.last_tx, ..after }) == s
        }),
{
}

/// An offer of nothing new from a catalogue with files is not sent, nor is the
/// last offer once more; the first offer always is unless nothing is left. What
/// is sent is the offer of the batch, under its opcode, to the endpoint that the
/// session stands for.
pub proof fn law_offer_goes_out(
    s: SessionView,
    b: OfferBatchView,
    bind_ip: Ipv4Addr,
    tcp_port: u16,
    now: u64,
)
    ensures
        b.entries.len() == 0 && b.total_entries > 0 ==> offer_actions(
            s,
            b,
            bind_ip,
            tcp_port,
        ).len() == 0 && offered(s, b, now) == s,
        !s.offer_files_sent && !(b.entries.len() == 0 && b.total_entries > 0) ==> offer_actions(
            s,
            b,
            bind_ip,
            tcp_port,
        ) == seq![
            ActionView::Send(
                0x15u8,
                offer_payload(
                    b.entries,
                    offer_endpoint(s.assigned_client_id, bind_ip, tcp_port, s.server_flags),
                ),
            ),
        ] && ({
            let after = offered(s, b, now);
            &&& after.offer_files_sent
            &&& after.offer_files_sent_at == Some(now)
            &&& after.last_tx == now
            &&& after.cursor == b.next_cursor
            &&& after.phase == ServerSessionPhase::OfferFilesSent
            &&& after.published.len() == s.published.len() + b.entries.len()
        }),
{
}

/// The next offer is made of the files that this server can take: large ones
/// only where it knows them, no more than it likes, from where the last one
/// ended.
pub proof fn law_next_offer_suits_the_server(s: SessionView, catalog: Seq<SharedView>, i: int)
    requires
        s.cursor >= 0,
        0 <= i < next_offer(s, catalog).entries.len(),
    ensures
        next_offer(s, catalog).entries.len() <= 200,
        1 <= s.server_soft_files <= 200 ==> next_offer(s, catalog).entries.len()
            <= s.server_soft_files,
        !s.published.contains(next_offer(s, catalog).entries[i].file_hash),
        ranked(
            catalog,
            s.server_flags matches Some(f) && f & 0x100 != 0,
        ).contains(next_offer(s, catalog).entries[i]),
{
    let all = ranked(catalog, has_flag(s.server_flags, SERVER_TCP_FLAG_LARGEFILES));
    super::startup::law_offer_names_unpublished_files_only(
        all,
        s.cursor,
        s.published,
        offer_limit(s.server_soft_files),
        i,
    );
}

/// The probe search goes out once the login is accepted, once, where its term
/// says something.
pub proof fn law_probe_search_goes_out_once(s: SessionView, term: Seq<char>, now: u64)
    ensures
        !s.login_accepted ==> probed(s, Some(term), now).1.len() == 0,
        s.probe_search_sent ==> probed(s, Some(term), now).1.len() == 0,
        probed(s, None, now) == (s, Seq::<ActionView>::empty(), None::<SearchError>),
        s.login_accepted && !s.probe_search_sent ==> match search_request(term, no_criteria()) {
            Err(e) => probed(s, Some(term), now) == (s, Seq::<ActionView>::empty(), Some(e)),
            Ok(payload) => if payload.len() == 0 {
                probed(s, Some(term), now) == (s, Seq::<ActionView>::empty(), None::<SearchError>)
            } else {
                &&& probed(s, Some(term), now).0.probe_search_sent
                &&& probed(s, Some(term), now).1.last() == ActionView::Send(0x16u8, payload)
                &&& probed(s, Some(term), now).2 is None
            },
        },
{
}

/// A server list is asked for under its own opcode, with nothing else in the
/// packet.
pub proof fn law_server_list_request(s: SessionView, now: u64)
    requires
        !s.server_list_requested,
    ensures
        list_requested(s, true, now).1 == seq![ActionView::Send(0x14u8, Seq::<u8>::empty())],
        list_requested(s, true, now).0.server_list_requested,
        list_requested(s, true, now).0.last_tx == now,
{
}

/// Only an offer to a server that knows compression is packed.
pub proof fn law_what_is_packed(opcode: u8, flags: Option<u32>)
    ensures
        may_pack(opcode, flags) <==> opcode == 0x15 && (flags matches Some(f) && f & 0x01 != 0),
{
}

/// What is hashed of an offer is the number of its files and, for each in order,
/// all that tells it from another: hash, name, size and type.
pub proof fn law_fingerprint_covers_every_file(count: u64, entries: Seq<OfferView>, i: int)
    requires
        0 <= i < entries.len(),
    ensures
        offer_writes(count, entries).len() == 1 + 6 * entries.len(),
        offer_writes(count, entries)[0] == u64_le(count),
        offer_writes(count, entries).subrange(1 + 6 * i, 7 + 6 * i) == entry_writes(entries[i]),
    decreases entries.len(),
{
    let all = offer_writes(count, entries);
    let last = entry_writes(entries.last());
    let earlier = offer_writes(count, entries.drop_last());
    lemma_writes_len(count, entries.drop_last());
    if i < entries.len() - 1 {
        law_fingerprint_covers_every_file(count, entries.drop_last(), i);
        assert(all.subrange(1 + 6 * i, 7 + 6 * i) =~= earlier.subrange(1 + 6 * i, 7 + 6 * i));
    } else {
        assert(all.subrange(1 + 6 * i, 7 + 6 * i) =~= last);
    }
}

proof fn lemma_writes_len(count: u64, entries: Seq<OfferView>)
    ensures
        offer_writes(count, entries).len() == 1 + 6 * entries.len(),
        offer_writes(count, entries)[0] == u64_le(count),
    decreases entries.len(),
{
    if entries.len() > 0 {
        lemma_writes_len(count, entries.drop_last());
    }
}

/// Files that differ in anything are hashed differently.
pub proof fn law_different_files_are_hashed_differently(a: OfferView, b: OfferView)
    ensures
        entry_writes(a) == entry_writes(b) ==> a == b,
{
    if entry_writes(a) == entry_writes(b) {
        assert(entry_writes(a)[1] == a.file_hash && entry_writes(b)[1] == b.file_hash);
        assert(entry_writes(a)[2] == encode_utf8(a.file_name));
        assert(entry_writes(b)[2] == encode_utf8(b.file_name));
        crate::text::law_text_survives_utf8(a.file_name);
        crate::text::law_text_survives_utf8(b.file_name);
        assert(entry_writes(a)[4] == u64_le(a.file_size));
        assert(entry_writes(b)[4] == u64_le(b.file_size));
        assert(u64_le(a.file_size).subrange(0, 8) =~= u64_le(a.file_size));
        crate::bytes::lemma_le64(a.file_size, u64_le(a.file_size), 0);
        assert(u64_le(b.file_size).subrange(0, 8) =~= u64_le(b.file_size));
        crate::bytes::lemma_le64(b.file_size, u64_le(b.file_size), 0);
        assert(entry_writes(a)[5] == seq![a.file_type]);
        assert(entry_writes(b)[5] == seq![b.file_type]);
        assert(seq![a.file_type][0] == seq![b.file_type][0]);
    }
}

} // verus!
