//! What a session does with the packets that a server sends it.
use vstd::prelude::*;

use super::flags::{is_low_id, low_id};
use super::result_decoder::{decode_search_result_page, whole_page, ResultError};
use super::search_expr::SearchError;
use super::server_description::{
    decode_description_tags, described_by, law_tags_describe_the_server, no_description,
    said_of_server, DescriptionView, ServerDescription,
};
use super::server_events::{decode_server_list, server_list};
use super::session::{
    action_views, can_go_out, in_phase, maybe_send_probe_search, offer_fits, probe_is_due, probed,
    push_action, send_connected_server_startup, sent, started_up, ActionView, Ed2kPacket,
    ServerSession, ServerSessionPhase, SessionAction, SessionView,
};
use super::startup::shared_views;
use super::tag_codec::{decode_ed2k_string, ed2k_string, tag_list, TagError};
use super::types::{CallbackRequest, CallbackRequestView, Ed2kServerState, StateView};
use super::{
    OP_CALLBACKREQUESTED, OP_IDCHANGE, OP_QUERY_MORE_RESULT, OP_REJECT, OP_SEARCHRESULT,
    OP_SERVERIDENT, OP_SERVERLIST, OP_SERVERMESSAGE, OP_SERVERSTATUS,
};
use crate::addr::{
    client_id_of_ipv4, ipv4_at, ipv4_from_client_id, ipv4_of_client_id,
    law_client_id_stands_for_address, octets_of, read_ipv4, Ipv4Addr, SocketAddrV4,
};
use crate::bytes::{
    le16, le32, lemma_le16, lemma_le32, read_16, read_u16, read_u32, suffix, u16_le, u32_le,
};
use crate::ed2k_transfer::{Ed2kSharedEntry, SharedView};
use crate::text::opt_text;

verus! {

/// Why a session with a server ends.
#[derive(Debug, Clone, Copy, PartialEq, Eq, Structural)]
pub enum ServerError {
    ShortIdChange,
    ZeroClientId,
    Rejected,
    CallbackFailed,
    Closed,
    TimedOut,
    EmptySearch,
    UnexpectedFileHash,
    Results(ResultError),
    Tag(TagError),
    Search(SearchError),
}

/// What a login is answered with.
#[derive(Debug, Clone, Copy, PartialEq, Eq, Structural)]
pub struct IdChangePayload {
    pub client_id: u32,
    pub server_flags: Option<u32>,
    pub reported_client_ip: Option<Ipv4Addr>,
}

/// What a login is answered with: a client id, and where they are there the
/// server's flags and the client's address as the server sees it.
pub open spec fn id_change(b: Seq<u8>) -> Result<IdChangePayload, ServerError> {
    if b.len() < 4 {
        Err(ServerError::ShortIdChange)
    } else {
        Ok(
            IdChangePayload {
                client_id: le32(b, 0),
                server_flags: if b.len() >= 8 {
                    Some(le32(b, 4))
                } else {
                    None
                },
                reported_client_ip: if b.len() >= 16 && !low_id(le32(b, 12)) {
                    Some(ipv4_of_client_id(le32(b, 12)))
                } else {
                    None
                },
            },
        )
    }
}

/// Decodes what a login is answered with.
pub fn decode_id_change_payload(payload: &[u8]) -> (r: Result<IdChangePayload, ServerError>)
    ensures
        r == id_change(payload@),
{
    if payload.len() < 4 {
        return Err(ServerError::ShortIdChange);
    }
    let client_id: u32 = read_u32(payload, 0);
    let server_flags: Option<u32> = if payload.len() >= 8 {
        Some(read_u32(payload, 4))
    } else {
        None
    };
    let mut reported_client_ip: Option<Ipv4Addr> = None;
    if payload.len() >= 16 {
        let reported: u32 = read_u32(payload, 12);
        if !is_low_id(reported) {
            reported_client_ip = Some(ipv4_from_client_id(reported));
        }
    }
    Ok(IdChangePayload { client_id, server_flags, reported_client_ip })
}

/// The peer that asks to be connected to. Its crypt profile counts only where
/// its user hash comes along.
pub open spec fn callback_request(b: Seq<u8>) -> Option<CallbackRequestView> {
    if b.len() < 6 {
        None
    } else {
        Some(
            CallbackRequestView {
                peer_addr: SocketAddrV4 { ip: ipv4_at(b, 0), port: le16(b, 4) },
                connect_options: if b.len() >= 23 {
                    Some(b[6])
                } else {
                    None
                },
                user_hash: if b.len() >= 23 {
                    Some(b.subrange(7, 23))
                } else {
                    None
                },
            },
        )
    }
}

/// Decodes the peer that asks to be connected to.
pub fn decode_callback_request(payload: &[u8]) -> (r: Option<CallbackRequest>)
    ensures
        match r {
            Some(c) => callback_request(payload@) == Some(c@),
            None => callback_request(payload@) is None,
        },
{
    if payload.len() < 6 {
        return None;
    }
    let peer_addr = SocketAddrV4 { ip: read_ipv4(payload, 0), port: read_u16(payload, 4) };
    if payload.len() >= 23 {
        let user_hash: [u8; 16] = read_16(payload, 7);
        return Some(
            CallbackRequest {
                peer_addr,
                connect_options: Some(payload[6]),
                user_hash: Some(user_hash),
            },
        );
    }
    Some(CallbackRequest { peer_addr, connect_options: None, user_hash: None })
}

/// What a server says about itself: hash, address and port, then tags. Short
/// of those it says nothing.
pub open spec fn server_ident(b: Seq<u8>) -> Result<DescriptionView, TagError> {
    if b.len() < 26 {
        Ok(no_description())
    } else {
        described_by(b.skip(26), le32(b, 22) as nat, no_description())
    }
}

/// Decodes what a server says about itself.
pub fn decode_server_ident(payload: &[u8]) -> (r: Result<ServerDescription, TagError>)
    ensures
        match r {
            Ok(d) => server_ident(payload@) == Ok::<_, TagError>(d@),
            Err(e) => server_ident(payload@) == Err::<DescriptionView, _>(e),
        },
{
    if payload.len() < 26 {
        return Ok(ServerDescription { name: None, description: None });
    }
    decode_description_tags(suffix(payload, 26), read_u32(payload, 22))
}

/// What a session needs to know about the client.
#[derive(Debug)]
pub struct ServerSessionContext {
    pub bind_ip: Ipv4Addr,
    pub tcp_port: u16,
    pub connect_options: u8,
    pub probe_search_term: Option<String>,
    pub shared_catalog: Vec<Ed2kSharedEntry>,
    /// Whether servers are to be learned from servers.
    pub add_servers_from_server: bool,
    /// Milliseconds without traffic after which the session is kept alive.
    pub keepalive_interval: Option<u64>,
}

/// What a session needs to know about the client.
pub struct ContextView {
    pub bind_ip: Ipv4Addr,
    pub tcp_port: u16,
    pub connect_options: u8,
    pub probe_search_term: Option<Seq<char>>,
    pub catalog: Seq<SharedView>,
    pub add_servers_from_server: bool,
    pub keepalive_interval: Option<u64>,
}

impl View for ServerSessionContext {
    type V = ContextView;

    open spec fn view(&self) -> ContextView {
        ContextView {
            bind_ip: self.bind_ip,
            tcp_port: self.tcp_port,
            connect_options: self.connect_options,
            probe_search_term: opt_text(self.probe_search_term),
            catalog: shared_views(self.shared_catalog@),
            add_servers_from_server: self.add_servers_from_server,
            keepalive_interval: self.keepalive_interval,
        }
    }
}

/// What handling a packet comes to: the session and what is known of the
/// connection, what is to be done, and, where the session ends, why.
pub struct HandledView {
    pub session: SessionView,
    pub state: StateView,
    pub actions: Seq<ActionView>,
    pub error: Option<ServerError>,
}

/// Nothing but the state changes.
pub open spec fn handled_quietly(s: SessionView, st: StateView) -> HandledView {
    HandledView { session: s, state: st, actions: Seq::empty(), error: None }
}

/// The session ends.
pub open spec fn handled_with_error(s: SessionView, st: StateView, e: ServerError) -> HandledView {
    HandledView { session: s, state: st, actions: Seq::empty(), error: Some(e) }
}

/// What follows the probe search, where one may go out now.
pub open spec fn then_probed(h: HandledView, term: Option<Seq<char>>, allow: bool, now: u64) -> HandledView {
    if allow {
        let p = probed(h.session, term, now);
        HandledView {
            session: p.0,
            state: h.state,
            actions: h.actions + p.1,
            error: match p.2 {
                Some(e) => Some(ServerError::Search(e)),
                None => None,
            },
        }
    } else {
        h
    }
}

/// The public address that a login gives: the client id itself where it is
/// high, else what the server reports, if anything.
pub open spec fn public_ip(id: IdChangePayload) -> ActionView {
    if low_id(id.client_id) {
        match id.reported_client_ip {
            Some(ip) => ActionView::SetPublicIp(ip),
            None => ActionView::ClearPublicIp,
        }
    } else {
        ActionView::SetPublicIp(ipv4_of_client_id(id.client_id))
    }
}

/// A login that was not accepted.
pub open spec fn login_refused(s: SessionView, st: StateView, id: IdChangePayload) -> HandledView {
    HandledView {
        session: SessionView {
            assigned_client_id: None,
            server_flags: id.server_flags,
            login_accepted: false,
            ..s
        },
        state: StateView {
            connected: false,
            client_id: None,
            server_flags: id.server_flags,
            ..st
        },
        actions: seq![ActionView::ClearPublicIp],
        error: None,
    }
}

/// A session that knows that its login was accepted.
pub open spec fn logged_in(s: SessionView, id: IdChangePayload) -> SessionView {
    SessionView {
        assigned_client_id: Some(id.client_id),
        server_flags: id.server_flags,
        login_accepted: true,
        ..s
    }
}

/// A login that was accepted.
pub open spec fn login_accepted(
    s: SessionView,
    st: StateView,
    id: IdChangePayload,
    c: ContextView,
    now: u64,
) -> HandledView {
    let started = started_up(
        logged_in(s, id),
        c.catalog,
        c.bind_ip,
        c.tcp_port,
        c.add_servers_from_server,
        now,
    );
    HandledView {
        session: started.0,
        state: StateView {
            connected: true,
            client_id: Some(id.client_id),
            server_flags: id.server_flags,
            ..st
        },
        actions: seq![ActionView::ReportConnected, public_ip(id)] + started.1,
        error: None,
    }
}

/// A page of results for the probe search.
pub open spec fn probe_page(s: SessionView, st: StateView, b: Seq<u8>, now: u64) -> HandledView {
    match whole_page(b) {
        Err(e) => handled_with_error(s, st, ServerError::Results(e)),
        Ok(page) => if page.more_results_available {
            HandledView {
                session: sent(in_phase(s, ServerSessionPhase::AwaitingMore), now),
                state: st,
                actions: seq![ActionView::Send(OP_QUERY_MORE_RESULT, Seq::empty())],
                error: None,
            }
        } else if s.probe_search_sent {
            handled_quietly(in_phase(s, ServerSessionPhase::Completed), st)
        } else {
            handled_quietly(s, st)
        },
    }
}

/// What is known once the server has described itself.
pub open spec fn described(st: StateView, d: DescriptionView) -> StateView {
    StateView {
        server_name: if d.name is Some {
            d.name
        } else {
            st.server_name
        },
        server_description: if d.description is Some {
            d.description
        } else {
            st.server_description
        },
        ..st
    }
}

/// What handling a packet comes to.
pub open spec fn packet_handled(
    s: SessionView,
    st: StateView,
    opcode: u8,
    b: Seq<u8>,
    c: ContextView,
    allow_probe_search: bool,
    now: u64,
) -> HandledView {
    let term = c.probe_search_term;
    if opcode == OP_IDCHANGE {
        match id_change(b) {
            Err(e) => handled_with_error(s, st, e),
            Ok(id) => if id.client_id == 0 {
                login_refused(s, st, id)
            } else {
                then_probed(
                    login_accepted(s, st, id, c, now),
                    term,
                    allow_probe_search,
                    now,
                )
            },
        }
    } else if opcode == OP_SEARCHRESULT {
        probe_page(s, st, b, now)
    } else if opcode == OP_SERVERSTATUS {
        if b.len() >= 8 {
            handled_quietly(
                s,
                StateView {
                    server_users: Some(le32(b, 0)),
                    server_files: Some(le32(b, 4)),
                    ..st
                },
            )
        } else {
            handled_quietly(s, st)
        }
    } else if opcode == OP_SERVERIDENT {
        match server_ident(b) {
            Err(e) => handled_with_error(s, st, ServerError::Tag(e)),
            Ok(d) => then_probed(
                handled_quietly(s, described(st, d)),
                term,
                allow_probe_search,
                now,
            ),
        }
    } else if opcode == OP_SERVERLIST {
        let found = server_list(b);
        then_probed(
            HandledView {
                session: s,
                state: st,
                actions: if found.len() > 0 {
                    seq![ActionView::ReportServers(found)]
                } else {
                    Seq::empty()
                },
                error: None,
            },
            term,
            allow_probe_search,
            now,
        )
    } else if opcode == OP_SERVERMESSAGE {
        match ed2k_string(b) {
            Err(e) => handled_with_error(s, st, ServerError::Tag(e)),
            Ok(_) => then_probed(handled_quietly(s, st), term, allow_probe_search, now),
        }
    } else if opcode == OP_CALLBACKREQUESTED {
        match callback_request(b) {
            Some(peer) => HandledView {
                session: s,
                state: st,
                actions: seq![ActionView::ConnectPeer(peer)],
                error: None,
            },
            None => handled_quietly(s, st),
        }
    } else if opcode == OP_REJECT {
        handled_with_error(s, st, ServerError::Rejected)
    } else {
        handled_quietly(s, st)
    }
}

/// Whether the probe search, where one is dispatched now, goes out at a time
/// that is on the clock.
pub open spec fn probe_fits(s: SessionView, term: Option<Seq<char>>, allow: bool, now: u64) -> bool {
    allow && probe_is_due(s, term) ==> can_go_out(s, now)
}

/// Whether what a packet makes go out can go out: the names of the offer that
/// follows an accepted login fit, and the time of a probe search is on the
/// clock.
pub open spec fn packet_fits(
    s: SessionView,
    st: StateView,
    opcode: u8,
    b: Seq<u8>,
    c: ContextView,
    allow_probe_search: bool,
    now: u64,
) -> bool {
    let term = c.probe_search_term;
    if opcode == OP_IDCHANGE {
        id_change(b) matches Ok(id) ==> id.client_id != 0 ==> {
            &&& offer_fits(logged_in(s, id), c.catalog)
            &&& probe_fits(
                login_accepted(s, st, id, c, now).session,
                term,
                allow_probe_search,
                now,
            )
        }
    } else if opcode == OP_SERVERIDENT {
        server_ident(b) is Ok ==> probe_fits(s, term, allow_probe_search, now)
    } else if opcode == OP_SERVERLIST {
        probe_fits(s, term, allow_probe_search, now)
    } else if opcode == OP_SERVERMESSAGE {
        ed2k_string(b) is Ok ==> probe_fits(s, term, allow_probe_search, now)
    } else {
        true
    }
}

fn probe_if_allowed(
    session: &mut ServerSession,
    context: &ServerSessionContext,
    allow: bool,
    now: u64,
    actions: &mut Vec<SessionAction>,
) -> (r: Option<ServerError>)
    requires
        probe_fits(old(session)@, context@.probe_search_term, allow, now),
    ensures
        forall|st: StateView, had: Seq<ActionView>|
            action_views(old(actions)@) == had ==> #[trigger] then_probed(
                HandledView { session: old(session)@, state: st, actions: had, error: None },
                context@.probe_search_term,
                allow,
                now,
            ) == (HandledView {
                session: final(session)@,
                state: st,
                actions: action_views(final(actions)@),
                error: r,
            }),
{
    if !allow {
        return None;
    }
    match maybe_send_probe_search(session, &context.probe_search_term, now, actions) {
        Some(e) => Some(ServerError::Search(e)),
        None => None,
    }
}

fn accept_login(
    session: &mut ServerSession,
    state: &mut Ed2kServerState,
    id: IdChangePayload,
    context: &ServerSessionContext,
    now: u64,
    actions: &mut Vec<SessionAction>,
)
    requires
        offer_fits(logged_in(old(session)@, id), context@.catalog),
        action_views(old(actions)@) == Seq::<ActionView>::empty(),
    ensures
        login_accepted(old(session)@, old(state)@, id, context@, now) == (HandledView {
            session: final(session)@,
            state: final(state)@,
            actions: action_views(final(actions)@),
            error: None,
        }),
{
    state.connected = true;
    state.client_id = Some(id.client_id);
    state.server_flags = id.server_flags;
    session.assigned_client_id = Some(id.client_id);
    session.server_flags = id.server_flags;
    session.login_accepted = true;
    push_action(actions, SessionAction::ReportConnected);
    if is_low_id(id.client_id) {
        match id.reported_client_ip {
            Some(ip) => push_action(actions, SessionAction::SetPublicIp(ip)),
            None => push_action(actions, SessionAction::ClearPublicIp),
        }
    } else {
        push_action(actions, SessionAction::SetPublicIp(ipv4_from_client_id(id.client_id)));
    }
    assert(action_views(actions@) =~= seq![ActionView::ReportConnected, public_ip(id)]);
    send_connected_server_startup(
        session,
        &context.shared_catalog,
        context.bind_ip,
        context.tcp_port,
        context.add_servers_from_server,
        now,
        actions,
    );
}

fn handle_probe_page(
    session: &mut ServerSession,
    payload: &[u8],
    now: u64,
    actions: &mut Vec<SessionAction>,
) -> (r: Option<ServerError>)
    requires
        action_views(old(actions)@) == Seq::<ActionView>::empty(),
    ensures
        forall|st: StateView| #[trigger]
            probe_page(old(session)@, st, payload@, now) == (HandledView {
                session: final(session)@,
                state: st,
                actions: action_views(final(actions)@),
                error: r,
            }),
{
    match decode_search_result_page(payload) {
        Err(e) => Some(ServerError::Results(e)),
        Ok(page) => {
            if page.more_results_available {
                session.phase = ServerSessionPhase::AwaitingMore;
                session.last_tx = now;
                let payload: Vec<u8> = Vec::new();
                assert(payload@ =~= Seq::empty());
                push_action(actions, SessionAction::Send { opcode: OP_QUERY_MORE_RESULT, payload });
                assert(action_views(actions@) =~= seq![
                    ActionView::Send(OP_QUERY_MORE_RESULT, Seq::empty()),
                ]);
            } else if session.probe_search_sent {
                session.phase = ServerSessionPhase::Completed;
            }
            None
        },
    }
}

/// Handles a packet from the server. The answer says what is to be done and,
/// where the session ends after that, why.
pub fn handle_server_packet(
    session: &mut ServerSession,
    state: &mut Ed2kServerState,
    packet: &Ed2kPacket,
    context: &ServerSessionContext,
    allow_probe_search: bool,
    now: u64,
) -> (r: (Vec<SessionAction>, Option<ServerError>))
    requires
        packet_fits(
            old(session)@,
            old(state)@,
            packet.opcode,
            packet.payload@,
            context@,
            allow_probe_search,
            now,
        ),
    ensures
        packet_handled(
            old(session)@,
            old(state)@,
            packet.opcode,
            packet.payload@,
            context@,
            allow_probe_search,
            now,
        ) == (HandledView {
            session: final(session)@,
            state: final(state)@,
            actions: action_views(r.0@),
            error: r.1,
        }),
{
    let mut actions: Vec<SessionAction> = Vec::new();
    assert(action_views(actions@) =~= Seq::empty());
    let payload: &[u8] = packet.payload.as_slice();
    let opcode: u8 = packet.opcode;
    if opcode == OP_IDCHANGE {
        let id: IdChangePayload = match decode_id_change_payload(payload) {
            Ok(id) => id,
            Err(e) => return (actions, Some(e)),
        };
        if id.client_id == 0 {
            state.connected = false;
            state.client_id = None;
            state.server_flags = id.server_flags;
            session.assigned_client_id = None;
            session.server_flags = id.server_flags;
            session.login_accepted = false;
            push_action(&mut actions, SessionAction::ClearPublicIp);
            assert(action_views(actions@) =~= seq![ActionView::ClearPublicIp]);
            return (actions, None);
        }
        accept_login(session, state, id, context, now, &mut actions);
        let error = probe_if_allowed(session, context, allow_probe_search, now, &mut actions);
        return (actions, error);
    }
    if opcode == OP_SEARCHRESULT {
        let error = handle_probe_page(session, payload, now, &mut actions);
        return (actions, error);
    }
    if opcode == OP_SERVERSTATUS {
        if payload.len() >= 8 {
            state.server_users = Some(read_u32(payload, 0));
            state.server_files = Some(read_u32(payload, 4));
        }
        return (actions, None);
    }
    if opcode == OP_SERVERIDENT {
        let d: ServerDescription = match decode_server_ident(payload) {
            Ok(d) => d,
            Err(e) => return (actions, Some(ServerError::Tag(e))),
        };
        if d.name.is_some() {
            state.server_name = d.name;
        }
        if d.description.is_some() {
            state.server_description = d.description;
        }
        let error = probe_if_allowed(session, context, allow_probe_search, now, &mut actions);
        return (actions, error);
    }
    if opcode == OP_SERVERLIST {
        let found: Vec<(Ipv4Addr, u16)> = decode_server_list(payload);
        if found.len() > 0 {
            push_action(&mut actions, SessionAction::ReportServers(found));
            assert(action_views(actions@) =~= seq![ActionView::ReportServers(found@)]);
        }
        let error = probe_if_allowed(session, context, allow_probe_search, now, &mut actions);
        return (actions, error);
    }
    if opcode == OP_SERVERMESSAGE {
        if let Err(e) = decode_ed2k_string(payload) {
            return (actions, Some(ServerError::Tag(e)));
        }
        let error = probe_if_allowed(session, context, allow_probe_search, now, &mut actions);
        return (actions, error);
    }
    if opcode == OP_CALLBACKREQUESTED {
        if let Some(peer) = decode_callback_request(payload) {
            push_action(&mut actions, SessionAction::ConnectPeer(peer));
            assert(action_views(actions@) =~= seq![ActionView::ConnectPeer(peer@)]);
        }
        return (actions, None);
    }
    if opcode == OP_REJECT {
        return (actions, Some(ServerError::Rejected));
    }
    (actions, None)
}

// ---------------------------------------------------------------------------
// Laws
// ---------------------------------------------------------------------------
/// A client id of zero is no login: the session is not accepted, and nothing
/// is offered.
pub proof fn law_zero_client_id_is_no_login(
    s: SessionView,
    st: StateView,
    b: Seq<u8>,
    c: ContextView,
    allow: bool,
    now: u64,
)
    requires
        id_change(b) matches Ok(id) && id.client_id == 0,
    ensures
        ({
            let h = packet_handled(s, st, OP_IDCHANGE, b, c, allow, now);
            &&& !h.session.login_accepted
            &&& !h.state.connected
            &&& h.state.client_id is None
            &&& h.actions == seq![ActionView::ClearPublicIp]
            &&& h.error is None
        }),
{
}

/// An accepted login is known to the session and to the outside alike, and is
/// reported before anything is sent.
pub proof fn law_login_is_known_everywhere(
    s: SessionView,
    st: StateView,
    b: Seq<u8>,
    c: ContextView,
    allow: bool,
    now: u64,
)
    requires
        id_change(b) matches Ok(id) && id.client_id != 0,
    ensures
        ({
            let h = packet_handled(s, st, OP_IDCHANGE, b, c, allow, now);
            let id = id_change(b)->Ok_0;
            &&& h.session.login_accepted
            &&& h.session.assigned_client_id == Some(id.client_id)
            &&& h.session.server_flags == id.server_flags
            &&& h.state.connected
            &&& h.state.client_id == Some(id.client_id)
            &&& h.state.server_flags == id.server_flags
            &&& h.actions.len() >= 2
            &&& h.actions[0] == ActionView::ReportConnected
            &&& h.actions[1] == public_ip(id)
        }),
{
}

/// No packet but the answer to the login changes whether the login is
/// accepted.
pub proof fn law_only_the_login_answer_accepts(
    s: SessionView,
    st: StateView,
    opcode: u8,
    b: Seq<u8>,
    c: ContextView,
    allow: bool,
    now: u64,
)
    requires
        opcode != OP_IDCHANGE,
    ensures
        ({
            let h = packet_handled(s, st, opcode, b, c, allow, now);
            &&& h.session.login_accepted == s.login_accepted
            &&& h.state.connected == st.connected
            &&& h.state.client_id == st.client_id
        }),
{
}

/// The answer to a login reads back: client id, then flags, then four bytes that
/// do not matter, then the client's address as the server sees it. The address
/// counts where it is no low number.
pub proof fn law_login_answer_reads_back(
    client_id: u32,
    flags: u32,
    between: Seq<u8>,
    seen: Ipv4Addr,
    rest: Seq<u8>,
)
    requires
        between.len() == 4,
    ensures
        id_change(u32_le(client_id)) == Ok::<_, ServerError>(
            IdChangePayload { client_id, server_flags: None, reported_client_ip: None },
        ),
        id_change(u32_le(client_id) + u32_le(flags)) == Ok::<_, ServerError>(
            IdChangePayload { client_id, server_flags: Some(flags), reported_client_ip: None },
        ),
        id_change(u32_le(client_id) + u32_le(flags) + between + octets_of(seen) + rest) == Ok::<
            _,
            ServerError,
        >(
            IdChangePayload {
                client_id,
                server_flags: Some(flags),
                reported_client_ip: if seen.d != 0 {
                    Some(seen)
                } else {
                    None
                },
            },
        ),
        rest.len() < 4 ==> id_change(rest) == Err::<IdChangePayload, _>(ServerError::ShortIdChange),
{
    let a = u32_le(client_id);
    assert(a.subrange(0, 4) =~= a);
    lemma_le32(client_id, a, 0);
    let b = a + u32_le(flags);
    assert(b.subrange(0, 4) =~= a);
    lemma_le32(client_id, b, 0);
    assert(b.subrange(4, 8) =~= u32_le(flags));
    lemma_le32(flags, b, 4);
    let c = b + between + octets_of(seen) + rest;
    assert(c.subrange(0, 4) =~= a);
    lemma_le32(client_id, c, 0);
    assert(c.subrange(4, 8) =~= u32_le(flags));
    lemma_le32(flags, c, 4);
    let id = client_id_of_ipv4(seen);
    law_client_id_stands_for_address(id, seen);
    assert(u32_le(id) =~= octets_of(seen));
    assert(c.subrange(12, 16) =~= u32_le(id));
    lemma_le32(id, c, 12);
}

/// A peer that asks to be connected to reads back: address and port, and options
/// with user hash where both come along.
pub proof fn law_callback_request_reads_back(
    ip: Ipv4Addr,
    port: u16,
    options: u8,
    user_hash: Seq<u8>,
    rest: Seq<u8>,
)
    requires
        user_hash.len() == 16,
    ensures
        callback_request(octets_of(ip) + u16_le(port) + seq![options] + user_hash + rest) == Some(
            CallbackRequestView {
                peer_addr: SocketAddrV4 { ip, port },
                connect_options: Some(options),
                user_hash: Some(user_hash),
            },
        ),
        rest.len() < 17 ==> callback_request(octets_of(ip) + u16_le(port) + rest) == Some(
            CallbackRequestView {
                peer_addr: SocketAddrV4 { ip, port },
                connect_options: None,
                user_hash: None,
            },
        ),
        rest.len() < 6 ==> callback_request(rest) is None,
{
    let b = octets_of(ip) + u16_le(port) + seq![options] + user_hash + rest;
    assert(b[0] == ip.a && b[1] == ip.b && b[2] == ip.c && b[3] == ip.d && b[6] == options);
    assert(b.subrange(4, 6) =~= u16_le(port));
    lemma_le16(port, b, 4);
    assert(b.subrange(7, 23) =~= user_hash);
    let c = octets_of(ip) + u16_le(port) + rest;
    assert(c[0] == ip.a && c[1] == ip.b && c[2] == ip.c && c[3] == ip.d);
    assert(c.subrange(4, 6) =~= u16_le(port));
    lemma_le16(port, c, 4);
}

/// What a server says about itself is what the tags behind its hash, address and
/// port say; fewer bytes than those say nothing.
pub proof fn law_server_ident_reads_back(
    hash: Seq<u8>,
    ip: Ipv4Addr,
    port: u16,
    count: u32,
    tags: Seq<u8>,
    short: Seq<u8>,
)
    requires
        hash.len() == 16,
        short.len() < 26,
    ensures
        match tag_list(tags, count as nat) {
            None => server_ident(
                hash + octets_of(ip) + u16_le(port) + u32_le(count) + tags,
            ) is Err,
            Some((list, _)) => server_ident(
                hash + octets_of(ip) + u16_le(port) + u32_le(count) + tags,
            ) == Ok::<_, TagError>(
                DescriptionView {
                    name: said_of_server(list, 0x01),
                    description: said_of_server(list, 0x0B),
                },
            ),
        },
        server_ident(short) == Ok::<_, TagError>(
            DescriptionView { name: None, description: None },
        ),
{
    let b = hash + octets_of(ip) + u16_le(port) + u32_le(count) + tags;
    assert(b.subrange(22, 26) =~= u32_le(count));
    lemma_le32(count, b, 22);
    assert(b.skip(26) =~= tags);
    law_tags_describe_the_server(tags, count as nat);
}

/// A client with a HighID is known by the address that its id is; one with a
/// LowID by what the server reports, if anything.
pub proof fn law_public_address_is_the_high_id(id: IdChangePayload)
    ensures
        id.client_id >= 0x0100_0000 ==> (public_ip(id) matches ActionView::SetPublicIp(ip)
            && octets_of(ip) == u32_le(id.client_id)),
        id.client_id < 0x0100_0000 ==> public_ip(id) == (match id.reported_client_ip {
            Some(ip) => ActionView::SetPublicIp(ip),
            None => ActionView::ClearPublicIp,
        }),
{
    if id.client_id >= 0x0100_0000 {
        assert(octets_of(ipv4_of_client_id(id.client_id)) =~= u32_le(id.client_id));
    }
}

/// Counts that the server tells are remembered, its description is, its list of
/// servers is passed on, a peer that asks is connected to and a rejection ends
/// the session; other packets change nothing.
pub proof fn law_each_packet_has_its_effect(
    s: SessionView,
    st: StateView,
    opcode: u8,
    b: Seq<u8>,
    c: ContextView,
    now: u64,
)
    ensures
        ({
            let h = packet_handled(s, st, opcode, b, c, false, now);
            &&& opcode == 0x34 && b.len() >= 8 ==> h.error is None && h.session == s
                && h.actions.len() == 0 && h.state == (StateView {
                server_users: Some(le32(b, 0)),
                server_files: Some(le32(b, 4)),
                ..st
            })
            &&& opcode == 0x34 && b.len() < 8 ==> h.error is None && h.session == s
                && h.actions.len() == 0 && h.state == st
            &&& opcode == 0x41 ==> (server_ident(b) matches Ok(d) ==> h.error is None && h.session
                == s && h.actions.len() == 0 && (d.name is Some ==> h.state.server_name == d.name)
                && (d.name is None ==> h.state.server_name == st.server_name) && (
            d.description is Some ==> h.state.server_description == d.description) && (
            d.description is None ==> h.state.server_description == st.server_description))
            &&& opcode == 0x32 ==> h.error is None && h.session == s && h.state == st && (
            server_list(b).len() == 0 ==> h.actions.len() == 0) && (server_list(b).len() > 0
                ==> h.actions == seq![ActionView::ReportServers(server_list(b))])
            &&& opcode == 0x35 ==> h.error is None && h.session == s && h.state == st && (
            callback_request(b) is None ==> h.actions.len() == 0) && (callback_request(
                b,
            ) matches Some(peer) ==> h.actions == seq![ActionView::ConnectPeer(peer)])
            &&& opcode == 0x05 ==> h.error == Some(ServerError::Rejected) && h.session == s
                && h.state == st && h.actions.len() == 0
            &&& opcode != 0x05 && opcode != 0x32 && opcode != 0x33 && opcode != 0x34 && opcode
                != 0x35 && opcode != 0x38 && opcode != 0x40 && opcode != 0x41 ==> h.error is None
                && h.session == s && h.state == st && h.actions.len() == 0
        }),
{
}

/// A page of the probe search with more behind it asks for more; the last one
/// completes the search.
pub proof fn law_probe_search_asks_for_more(
    s: SessionView,
    st: StateView,
    b: Seq<u8>,
    c: ContextView,
    allow: bool,
    now: u64,
)
    requires
        whole_page(b) is Ok,
    ensures
        ({
            let h = packet_handled(s, st, 0x33, b, c, allow, now);
            &&& h.error is None
            &&& h.state == st
            &&& whole_page(b)->Ok_0.more_results_available ==> h.actions == seq![
                ActionView::Send(0x21u8, Seq::<u8>::empty()),
            ] && h.session.phase == ServerSessionPhase::AwaitingMore
            &&& !whole_page(b)->Ok_0.more_results_available ==> h.actions.len() == 0
                && h.session.phase == (if s.probe_search_sent {
                ServerSessionPhase::Completed
            } else {
                s.phase
            })
        }),
{
}

} // verus!
