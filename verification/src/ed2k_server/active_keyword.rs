//! One-shot keyword searches: a short session with one server, and the walk
//! over UDP.
use vstd::prelude::*;

use super::active_walk::{answerer, keyword_outcome, queried_udp_response_server, WalkError};
use super::background::{collect_files, files_of, ServerUdpPacket};
use super::packet_handler::{
    decode_id_change_payload, id_change, ContextView, IdChangePayload,
    ServerError, ServerSessionContext,
};
use super::result_decoder::{
    decode_search_result_page, decode_udp_search_result_pages, pages_from, whole_page,
};
use super::server_entry::ResolvedServerEntry;
use super::session::{
    action_views, can_go_out, dispatch, dispatched, fresh_session, in_phase, offer_fits,
    push_action, send_connected_server_startup, sent, started_up, ActionView, Ed2kPacket,
    ServerSession, ServerSessionPhase, SessionAction, SessionView,
};
use super::types::{file_views, Ed2kSearchFile, SearchFileView};
use super::{
    OP_GLOBSEARCHRES, OP_IDCHANGE, OP_QUERY_MORE_RESULT, OP_REJECT, OP_SEARCHREQUEST,
    OP_SEARCHRESULT,
};
use crate::addr::SocketAddrV4;

verus! {

/// Milliseconds that the walk over UDP waits for one server.
pub const UDP_KEYWORD_SERVER_TIMEOUT: u64 = 750;

// ---------------------------------------------------------------------------
// The login of a one-shot session
// ---------------------------------------------------------------------------
/// What a one-shot session does once its login is answered: it starts up, but
/// asks for no server list. A client id of zero is an error.
pub open spec fn active_login(
    s: SessionView,
    b: Seq<u8>,
    c: ContextView,
    now: u64,
) -> Result<(SessionView, Seq<ActionView>), ServerError> {
    match id_change(b) {
        Err(e) => Err(e),
        Ok(id) => if id.client_id == 0 {
            Err(ServerError::ZeroClientId)
        } else {
            Ok(
                started_up(
                    SessionView {
                        server_flags: id.server_flags,
                        assigned_client_id: Some(id.client_id),
                        ..s
                    },
                    c.catalog,
                    c.bind_ip,
                    c.tcp_port,
                    false,
                    now,
                ),
            )
        },
    }
}

/// Whether the names of the offer that follows the login of a one-shot session
/// fit.
pub open spec fn active_login_fits(s: SessionView, b: Seq<u8>, c: ContextView) -> bool {
    id_change(b) matches Ok(id) ==> id.client_id != 0 ==> offer_fits(
        SessionView {
            server_flags: id.server_flags,
            assigned_client_id: Some(id.client_id),
            ..s
        },
        c.catalog,
    )
}

/// Takes the answer to the login of a one-shot session.
pub fn accept_active_login(
    session: &mut ServerSession,
    payload: &[u8],
    context: &ServerSessionContext,
    now: u64,
    actions: &mut Vec<SessionAction>,
) -> (r: Option<ServerError>)
    requires
        active_login_fits(old(session)@, payload@, context@),
    ensures
        match r {
            None => {
                let login = active_login(old(session)@, payload@, context@, now);
                &&& login is Ok
                &&& final(session)@ == login->Ok_0.0
                &&& action_views(final(actions)@) == action_views(old(actions)@) + login->Ok_0.1
            },
            Some(e) => active_login(old(session)@, payload@, context@, now) == Err::<
                (SessionView, Seq<ActionView>),
                _,
            >(e) && action_views(final(actions)@) == action_views(old(actions)@),
        },
{
    let id: IdChangePayload = match decode_id_change_payload(payload) {
        Ok(id) => id,
        Err(e) => return Some(e),
    };
    session.server_flags = id.server_flags;
    if id.client_id == 0 {
        return Some(ServerError::ZeroClientId);
    }
    session.assigned_client_id = Some(id.client_id);
    send_connected_server_startup(
        session,
        &context.shared_catalog,
        context.bind_ip,
        context.tcp_port,
        false,
        now,
        actions,
    );
    None
}

// ---------------------------------------------------------------------------
// The session
// ---------------------------------------------------------------------------
/// A keyword search on one server.
#[derive(Debug)]
pub struct ActiveKeywordSearch {
    pub session: ServerSession,
    pub payload: Vec<u8>,
    pub results: Vec<Ed2kSearchFile>,
}

/// What a keyword search on one server holds.
pub struct ActiveKeywordView {
    pub session: SessionView,
    pub payload: Seq<u8>,
    pub results: Seq<SearchFileView>,
}

impl View for ActiveKeywordSearch {
    type V = ActiveKeywordView;

    open spec fn view(&self) -> ActiveKeywordView {
        ActiveKeywordView {
            session: self.session@,
            payload: self.payload@,
            results: file_views(self.results@),
        }
    }
}

/// Whether a search goes on, is complete, or failed.
#[derive(Debug, Clone, Copy, PartialEq, Eq, Structural)]
pub enum ActiveProgress {
    Going,
    Complete,
    Failed(ServerError),
}

/// What a packet comes to in a keyword search.
pub open spec fn keyword_packet(
    v: ActiveKeywordView,
    opcode: u8,
    b: Seq<u8>,
    c: ContextView,
    now: u64,
) -> (ActiveKeywordView, Seq<ActionView>, ActiveProgress) {
    if opcode == OP_IDCHANGE {
        match active_login(v.session, b, c, now) {
            Err(e) => (v, Seq::empty(), ActiveProgress::Failed(e)),
            Ok((session, actions)) => {
                let d = dispatched(session, OP_SEARCHREQUEST, v.payload, now);
                (ActiveKeywordView { session: d.0, ..v }, actions + d.1, ActiveProgress::Going)
            },
        }
    } else if opcode == OP_SEARCHRESULT {
        match whole_page(b) {
            Err(e) => (v, Seq::empty(), ActiveProgress::Failed(ServerError::Results(e))),
            Ok(page) => if page.more_results_available {
                (
                    ActiveKeywordView {
                        session: sent(in_phase(v.session, ServerSessionPhase::AwaitingMore), now),
                        results: v.results + page.files,
                        ..v
                    },
                    seq![ActionView::Send(OP_QUERY_MORE_RESULT, Seq::empty())],
                    ActiveProgress::Going,
                )
            } else {
                (
                    ActiveKeywordView {
                        session: in_phase(v.session, ServerSessionPhase::Completed),
                        results: v.results + page.files,
                        ..v
                    },
                    Seq::empty(),
                    ActiveProgress::Complete,
                )
            },
        }
    } else if opcode == OP_REJECT {
        (v, Seq::empty(), ActiveProgress::Failed(ServerError::Rejected))
    } else {
        (v, Seq::empty(), ActiveProgress::Going)
    }
}

/// Whether a packet took a search from `before` to `after`. Where it failed,
/// nothing is said of the search it leaves behind.
pub open spec fn keyword_step_is(
    step: (ActiveKeywordView, Seq<ActionView>, ActiveProgress),
    after: ActiveKeywordView,
    actions: Seq<ActionView>,
    progress: ActiveProgress,
) -> bool {
    &&& progress == step.2
    &&& actions == step.1
    &&& progress is Failed || after == step.0
}

fn copy_bytes(v: &Vec<u8>) -> (r: Vec<u8>)
    ensures
        r@ == v@,
{
    crate::bytes::to_vec(v.as_slice())
}

impl ActiveKeywordSearch {
    /// A search whose login was just sent.
    pub fn start(transport: SocketAddrV4, soft_files: u32, payload: Vec<u8>, now: u64) -> (r: Self)
        ensures
            r@ == (ActiveKeywordView {
                session: in_phase(
                    fresh_session(transport, soft_files, now),
                    ServerSessionPhase::AwaitingIdChange,
                ),
                payload: payload@,
                results: Seq::empty(),
            }),
    {
        let mut session = ServerSession::new(transport, soft_files, now);
        session.phase = ServerSessionPhase::AwaitingIdChange;
        let r = ActiveKeywordSearch { session, payload, results: Vec::new() };
        assert(file_views(r.results@) =~= Seq::empty());
        r
    }

    /// A packet comes in.
    pub fn on_packet(
        &mut self,
        packet: &Ed2kPacket,
        context: &ServerSessionContext,
        now: u64,
    ) -> (r: (Vec<SessionAction>, ActiveProgress))
        requires
            packet.opcode == OP_IDCHANGE ==> {
                &&& active_login_fits(old(self)@.session, packet.payload@, context@)
                &&& active_login(old(self)@.session, packet.payload@, context@, now) matches Ok(
                    login,
                ) ==> can_go_out(login.0, now)
            },
        ensures
            keyword_step_is(
                keyword_packet(
                    old(self)@,
                    packet.opcode,
                    packet.payload@,
                    context@,
                    now,
                ),
                final(self)@,
                action_views(r.0@),
                r.1,
            ),
    {
        let mut actions: Vec<SessionAction> = Vec::new();
        assert(action_views(actions@) =~= Seq::empty());
        if packet.opcode == OP_IDCHANGE {
            if let Some(e) = accept_active_login(
                &mut self.session,
                packet.payload.as_slice(),
                context,
                now,
                &mut actions,
            ) {
                return (actions, ActiveProgress::Failed(e));
            }
            let payload: Vec<u8> = copy_bytes(&self.payload);
            let _ = dispatch(&mut self.session, OP_SEARCHREQUEST, payload, now, &mut actions);
            proof {
                let login = active_login(
                    old(self)@.session,
                    packet.payload@,
                    context@,
                    now,
                )->Ok_0;
                assert(Seq::<ActionView>::empty() + login.1 =~= login.1);
            }
            return (actions, ActiveProgress::Going);
        }
        if packet.opcode == OP_SEARCHRESULT {
            let mut page = match decode_search_result_page(packet.payload.as_slice()) {
                Ok(page) => page,
                Err(e) => return (actions, ActiveProgress::Failed(ServerError::Results(e))),
            };
            let ghost earlier = file_views(self.results@);
            let ghost own = file_views(page.files@);
            self.results.append(&mut page.files);
            assert(file_views(self.results@) =~= earlier + own);
            if page.more_results_available {
                self.session.phase = ServerSessionPhase::AwaitingMore;
                self.session.last_tx = now;
                let empty: Vec<u8> = Vec::new();
                assert(empty@ =~= Seq::empty());
                push_action(
                    &mut actions,
                    SessionAction::Send { opcode: OP_QUERY_MORE_RESULT, payload: empty },
                );
                assert(action_views(actions@) =~= seq![
                    ActionView::Send(OP_QUERY_MORE_RESULT, Seq::empty()),
                ]);
                return (actions, ActiveProgress::Going);
            }
            self.session.phase = ServerSessionPhase::Completed;
            return (actions, ActiveProgress::Complete);
        }
        if packet.opcode == OP_REJECT {
            return (actions, ActiveProgress::Failed(ServerError::Rejected));
        }
        (actions, ActiveProgress::Going)
    }

    /// The files found, once the search is complete or the server closed the
    /// connection.
    pub fn into_results(self) -> (r: Vec<Ed2kSearchFile>)
        ensures
            file_views(r@) == self@.results,
    {
        self.results
    }
}

// ---------------------------------------------------------------------------
// The walk over UDP
// ---------------------------------------------------------------------------
/// A keyword search over UDP.
#[derive(Debug)]
pub struct UdpKeywordWalk {
    pub queried: Vec<ResolvedServerEntry>,
    pub results: Vec<Ed2kSearchFile>,
    pub last_error: Option<WalkError>,
}

/// When the walk is over, at the latest.
pub fn udp_keyword_deadline(now: u64, timeout: u64) -> (r: u64)
    requires
        now + timeout <= u64::MAX,
        now + UDP_KEYWORD_SERVER_TIMEOUT <= u64::MAX,
    ensures
        r == now + if timeout > UDP_KEYWORD_SERVER_TIMEOUT {
            timeout
        } else {
            UDP_KEYWORD_SERVER_TIMEOUT
        },
        r >= now + timeout && r >= now + 750,
        r == now + timeout || r == now + 750,
{
    if timeout > UDP_KEYWORD_SERVER_TIMEOUT {
        now + timeout
    } else {
        now + UDP_KEYWORD_SERVER_TIMEOUT
    }
}

/// How long the walk waits for the next server; nothing where it is over.
pub fn udp_keyword_wait(now: u64, overall_deadline: u64) -> (r: Option<u64>)
    ensures
        r == if now >= overall_deadline {
            None
        } else if overall_deadline - now < UDP_KEYWORD_SERVER_TIMEOUT {
            Some((overall_deadline - now) as u64)
        } else {
            Some(UDP_KEYWORD_SERVER_TIMEOUT)
        },
        r is Some <==> now < overall_deadline,
        r matches Some(wait) ==> 0 < wait <= 750 && now + wait <= overall_deadline && (wait == 750
            || now + wait == overall_deadline),
{
    if now >= overall_deadline {
        return None;
    }
    let remaining: u64 = overall_deadline - now;
    if remaining < UDP_KEYWORD_SERVER_TIMEOUT {
        Some(remaining)
    } else {
        Some(UDP_KEYWORD_SERVER_TIMEOUT)
    }
}

/// The files that a datagram adds: none where it is not from a server that was
/// asked, is no search result, or cannot be read.
pub open spec fn udp_files(queried: Seq<ResolvedServerEntry>, packet: ServerUdpPacket) -> Seq<
    SearchFileView,
> {
    if answerer(queried, packet.from.ip, 0) >= queried.len() || packet.opcode != OP_GLOBSEARCHRES {
        Seq::empty()
    } else {
        match pages_from(packet.payload@, Seq::empty()) {
            Err(_) => Seq::empty(),
            Ok(pages) => files_of(pages),
        }
    }
}

impl UdpKeywordWalk {
    /// A walk that has not begun.
    pub fn new() -> (r: Self)
        ensures
            r.queried@.len() == 0,
            file_views(r.results@) == Seq::<SearchFileView>::empty(),
            r.last_error is None,
    {
        let r = UdpKeywordWalk { queried: Vec::new(), results: Vec::new(), last_error: None };
        assert(file_views(r.results@) =~= Seq::empty());
        r
    }

    /// Notes that a server was asked.
    pub fn on_queried(&mut self, server: &ResolvedServerEntry)
        ensures
            final(self).queried@ == old(self).queried@.push(*server),
            final(self).results == old(self).results,
            final(self).last_error == old(self).last_error,
    {
        self.queried.push(server.duplicate());
    }

    /// Notes that a server could not be asked, or that nothing could be read.
    pub fn on_error(&mut self, error: WalkError)
        ensures
            final(self).queried == old(self).queried,
            final(self).results == old(self).results,
            final(self).last_error == Some(error),
    {
        self.last_error = Some(error);
    }

    /// A datagram comes in, perhaps late.
    pub fn on_datagram(&mut self, packet: &ServerUdpPacket)
        ensures
            final(self).queried == old(self).queried,
            final(self).last_error == old(self).last_error,
            file_views(final(self).results@) == file_views(old(self).results@) + udp_files(
                old(self).queried@,
                *packet,
            ),
    {
        let ghost before = file_views(self.results@);
        assert(before + Seq::<SearchFileView>::empty() =~= before);
        if queried_udp_response_server(&self.queried, packet.from).is_none() {
            return ;
        }
        if packet.opcode != OP_GLOBSEARCHRES {
            return ;
        }
        if let Ok(pages) = decode_udp_search_result_pages(packet.payload.as_slice()) {
            collect_files(&mut self.results, pages);
        }
    }

    /// What the walk comes to: an error only where there are no results.
    pub fn finish(self) -> (r: Result<Vec<Ed2kSearchFile>, WalkError>)
        ensures
            keyword_outcome(r) == if self.results@.len() == 0 && self.last_error is Some {
                Err(self.last_error->Some_0)
            } else {
                Ok(file_views(self.results@))
            },
    {
        if self.results.len() == 0 {
            if let Some(e) = self.last_error {
                return Err(e);
            }
        }
        Ok(self.results)
    }
}

// ---------------------------------------------------------------------------
// Laws
// ---------------------------------------------------------------------------
/// A server that was asked is heard whenever it answers; one that was not is
/// never heard.
pub proof fn law_any_queried_server_is_heard(
    queried: Seq<ResolvedServerEntry>,
    more: Seq<ResolvedServerEntry>,
    packet: ServerUdpPacket,
)
    ensures
        answerer(queried, packet.from.ip, 0) < queried.len() ==> udp_files(queried + more, packet)
            == udp_files(queried, packet),
        (forall|i: int|
            0 <= i < queried.len() ==> packet.from.ip != crate::addr::IpAddr::V4(
                (#[trigger] queried[i]).ip,
            )) ==> udp_files(queried, packet) == Seq::<SearchFileView>::empty(),
{
    lemma_answerer(queried, packet.from.ip, 0);
    if answerer(queried, packet.from.ip, 0) < queried.len() {
        lemma_answerer(queried + more, packet.from.ip, 0);
        let at = answerer(queried, packet.from.ip, 0);
        assert((queried + more)[at] == queried[at]);
    }
}

proof fn lemma_answerer(servers: Seq<ResolvedServerEntry>, from: crate::addr::IpAddr, i: int)
    requires
        0 <= i <= servers.len(),
    ensures
        i <= answerer(servers, from, i) <= servers.len(),
        answerer(servers, from, i) < servers.len() ==> from == crate::addr::IpAddr::V4(
            servers[answerer(servers, from, i)].ip,
        ),
        forall|k: int|
            i <= k < answerer(servers, from, i) ==> from != crate::addr::IpAddr::V4(
                (#[trigger] servers[k]).ip,
            ),
    decreases servers.len() - i,
{
    if i < servers.len() && from != crate::addr::IpAddr::V4(servers[i].ip) {
        lemma_answerer(servers, from, i + 1);
    }
}

/// A one-shot session asks for no server list.
pub proof fn law_active_login_asks_for_no_server_list(
    s: SessionView,
    b: Seq<u8>,
    c: ContextView,
    now: u64,
)
    requires
        active_login(s, b, c, now) is Ok,
    ensures
        ({
            let login = active_login(s, b, c, now)->Ok_0;
            &&& login.0.server_list_requested == s.server_list_requested
            &&& forall|i: int|
                0 <= i < login.1.len() ==> (#[trigger] login.1[i] matches ActionView::Send(
                    opcode,
                    _,
                ) ==> opcode != super::OP_GETSERVERLIST)
        }),
{
}

/// The search goes out once the login is answered, under its own opcode, behind
/// whatever the login brings.
pub proof fn law_search_goes_out_after_the_login(
    v: ActiveKeywordView,
    b: Seq<u8>,
    c: ContextView,
    now: u64,
)
    requires
        active_login(v.session, b, c, now) is Ok,
    ensures
        ({
            let (after, actions, progress) = keyword_packet(v, 0x40, b, c, now);
            &&& progress == ActiveProgress::Going
            &&& actions.len() > 0
            &&& actions.last() == ActionView::Send(0x16u8, v.payload)
            &&& after.results == v.results
            &&& after.payload == v.payload
        }),
{
}

/// Each page adds its files behind those that are there. Where there is more, it
/// is asked for; the last page completes the search. A page that cannot be read
/// and a rejection fail it, and no other packet does anything.
pub proof fn law_pages_add_up(
    v: ActiveKeywordView,
    opcode: u8,
    b: Seq<u8>,
    c: ContextView,
    now: u64,
)
    requires
        opcode != 0x40,
    ensures
        ({
            let (after, actions, progress) = keyword_packet(v, opcode, b, c, now);
            &&& opcode == 0x33 ==> match whole_page(b) {
                Ok(page) => after.results == v.results + page.files && (
                if page.more_results_available {
                    progress == ActiveProgress::Going && actions == seq![
                        ActionView::Send(0x21u8, Seq::<u8>::empty()),
                    ]
                } else {
                    progress == ActiveProgress::Complete && actions.len() == 0
                }),
                Err(e) => progress == ActiveProgress::Failed(ServerError::Results(e)),
            }
            &&& opcode == 0x05 ==> progress == ActiveProgress::Failed(ServerError::Rejected)
            &&& opcode != 0x33 && opcode != 0x05 ==> after == v && actions.len() == 0 && progress
                == ActiveProgress::Going
        }),
{
}

/// A one-shot login fails on an answer that is too short and on a client id of
/// zero, and on nothing else.
pub proof fn law_one_shot_login_fails(s: SessionView, b: Seq<u8>, c: ContextView, now: u64)
    ensures
        b.len() < 4 ==> active_login(s, b, c, now) == Err::<(SessionView, Seq<ActionView>), _>(
            ServerError::ShortIdChange,
        ),
        b.len() >= 4 && crate::bytes::le32(b, 0) == 0 ==> active_login(s, b, c, now) == Err::<
            (SessionView, Seq<ActionView>),
            _,
        >(ServerError::ZeroClientId),
        b.len() >= 4 && crate::bytes::le32(b, 0) != 0 ==> active_login(s, b, c, now) is Ok,
        active_login(s, b, c, now) matches Ok((after, _)) ==> after.assigned_client_id == Some(
            crate::bytes::le32(b, 0),
        ),
{
}

/// A datagram of results from a queried server adds the files of its page, all
/// of them and in order; one under another opcode adds none.
pub proof fn law_datagram_adds_its_files(
    queried: Seq<ResolvedServerEntry>,
    packet: ServerUdpPacket,
    entries: Seq<super::result_forms::ListedFile>,
)
    requires
        answerer(queried, packet.from.ip, 0) < queried.len(),
        super::result_forms::all_fit(entries),
        packet.payload@ == super::result_forms::page_bytes(entries, None),
    ensures
        packet.opcode == 0x99 ==> udp_files(queried, packet) == super::result_forms::listed_files(
            entries,
        ),
        packet.opcode != 0x99 ==> udp_files(queried, packet).len() == 0,
{
    let one = seq![(entries, None::<bool>)];
    assert(one[0].0 == entries);
    super::result_forms::law_chained_pages_read_back(one);
    assert(super::result_forms::chain_bytes(one) == super::result_forms::page_bytes(entries, None));
    let pages = pages_from(packet.payload@, Seq::empty())->Ok_0;
    assert(pages.len() == 1);
    reveal_with_fuel(files_of, 2);
    assert(files_of(pages) =~= super::result_forms::listed_files(entries));
}

} // verus!
