//! The long-lived session with one server, event by event.
//!
//! At most one request is outstanding on a session: it is queued until the
//! login is accepted, or it waits for its answer. Each event says which
//! requests are answered, what is to be done and whether the session is over.
use vstd::prelude::*;

use super::background::{
    answer_number, fail_background_search_request, fail_pending_background_search,
    handle_background_udp_packet, opt_answer, opt_pending, pending_failed, pending_number,
    request_failed, request_fits, request_started, start_background_server_search, udp_handled, AnswerView,
    BackgroundAnswer, BackgroundSearchFailure, BackgroundServerSearchRequest,
    PendingBackgroundServerSearch, PendingView, ServerUdpPacket,
};
use super::packet_handler::{
    handle_server_packet, packet_fits, packet_handled, ContextView, ServerError,
    ServerSessionContext,
};
use super::result_decoder::{
    decode_found_sources, decode_search_result_page, whole_page, whole_source_set,
};
use super::search_expr::search_request;
use super::server_entry::{
    should_use_server_obfuscation, uses_server_obfuscation, ResolvedServerEntry,
};
use super::server_status::{status_ping_due, status_ping_due_at};
use super::session::{
    action_views, fresh_session, in_phase, law_search_goes_out_after_the_wait, push_action, sent,
    slept, ActionView, Ed2kPacket, ServerSession, ServerSessionPhase, SessionAction, SessionView,
};
use super::source_utils::{
    all_of_file, annotate_found_sources_server, annotated, validate_found_sources,
};
use super::startup::{
    encode_login_request, login_identity_for_server_transport, login_request, source_opcode,
    source_request, Ed2kHelloIdentity,
};
use super::types::{
    connection_open, disconnected, file_views, source_views, Ed2kFoundSource, Ed2kSearchFile,
    Ed2kServerState, SearchFileView, StateView,
};
use super::{
    OP_FOUNDSOURCES, OP_FOUNDSOURCES_OBFU, OP_OFFERFILES, OP_QUERY_MORE_RESULT, OP_SEARCHREQUEST,
    OP_SEARCHRESULT,
};
use crate::addr::{endpoint_text, endpoint_to_text, SocketAddrV4};
use crate::bytes::{push_u32, u32_le};

verus! {

/// How a session ended.
#[derive(Debug, PartialEq, Eq)]
pub enum SessionEnd {
    /// The next server in the order is due.
    ContinueOrder,
    /// The order starts over, with the preferred server first.
    RestartPreferredOrder,
    /// The session failed.
    Failed(ServerError),
}

// ---------------------------------------------------------------------------
// The login
// ---------------------------------------------------------------------------
/// How to log in on a server.
#[derive(Debug)]
pub struct LoginPlan {
    pub endpoint: SocketAddrV4,
    pub use_obfuscation: bool,
    pub payload: Vec<u8>,
}

/// Plans the login on a server, with the ports by which peers reach the client
/// from outside. Under server obfuscation the login asks for no more than what
/// the client supports.
pub fn plan_login(
    server: &ResolvedServerEntry,
    identity: Ed2kHelloIdentity,
    external_tcp_port: u16,
    external_udp_port: u16,
) -> (r: LoginPlan)
    ensures
        r.use_obfuscation == uses_server_obfuscation(identity.connect_options, *server),
        r.endpoint == server.transport(r.use_obfuscation),
        r.payload@ == login_request(
            identity.user_hash@,
            external_tcp_port,
            if r.use_obfuscation {
                identity.connect_options & 0x01
            } else {
                identity.connect_options
            },
        ),
{
    let use_obfuscation: bool = should_use_server_obfuscation(identity.connect_options, server);
    let mut login = login_identity_for_server_transport(identity, use_obfuscation);
    login.tcp_port = external_tcp_port;
    login.udp_port = external_udp_port;
    LoginPlan {
        endpoint: server.transport_endpoint(use_obfuscation),
        use_obfuscation,
        payload: encode_login_request(login),
    }
}

// ---------------------------------------------------------------------------
// The driver
// ---------------------------------------------------------------------------
/// The long-lived session with one server.
#[derive(Debug)]
pub struct BackgroundSession {
    pub server: ResolvedServerEntry,
    pub session: ServerSession,
    /// A request that waits for the login.
    pub queued: Option<BackgroundServerSearchRequest>,
    /// A search that waits for its answer.
    pub pending: Option<PendingBackgroundServerSearch>,
    /// The challenge of the status request that is out.
    pub status_challenge: Option<u32>,
    pub last_status_ping: Option<u64>,
    /// When the next server is due.
    pub rotation_deadline: Option<u64>,
}

/// What the long-lived session holds.
pub struct DriverView {
    pub server: ResolvedServerEntry,
    pub session: SessionView,
    pub queued: Option<BackgroundServerSearchRequest>,
    pub pending: Option<PendingView>,
    pub status_challenge: Option<u32>,
    pub last_status_ping: Option<u64>,
    pub rotation_deadline: Option<u64>,
}

impl View for BackgroundSession {
    type V = DriverView;

    open spec fn view(&self) -> DriverView {
        DriverView {
            server: self.server,
            session: self.session@,
            queued: self.queued,
            pending: opt_pending(self.pending),
            status_challenge: self.status_challenge,
            last_status_ping: self.last_status_ping,
            rotation_deadline: self.rotation_deadline,
        }
    }
}

/// What an event comes to: the requests that are answered, what is to be done
/// and, where the session is over, how it ended.
#[derive(Debug)]
pub struct SessionStep {
    pub answers: Vec<BackgroundAnswer>,
    pub actions: Vec<SessionAction>,
    pub end: Option<SessionEnd>,
}

/// What an event comes to.
pub struct StepView {
    pub driver: DriverView,
    pub state: StateView,
    pub answers: Seq<AnswerView>,
    pub actions: Seq<ActionView>,
    pub end: Option<SessionEnd>,
}

/// What answers say.
pub open spec fn answer_views(v: Seq<BackgroundAnswer>) -> Seq<AnswerView> {
    v.map_values(|a: BackgroundAnswer| a@)
}

/// An answer that may be missing, as a sequence.
pub open spec fn answers_of(a: Option<AnswerView>) -> Seq<AnswerView> {
    match a {
        Some(x) => seq![x],
        None => Seq::empty(),
    }
}

fn push_answer(answers: &mut Vec<BackgroundAnswer>, answer: Option<BackgroundAnswer>)
    ensures
        answer_views(final(answers)@) == answer_views(old(answers)@) + answers_of(
            opt_answer(answer),
        ),
{
    if let Some(a) = answer {
        answers.push(a);
    }
    assert(answer_views(answers@) =~= answer_views(old(answers)@) + answers_of(opt_answer(answer)));
}

/// The step that `s` is part of.
pub open spec fn step_view(d: DriverView, st: StateView, s: SessionStep) -> StepView {
    StepView {
        driver: d,
        state: st,
        answers: answer_views(s.answers@),
        actions: action_views(s.actions@),
        end: s.end,
    }
}

/// Nothing happens.
pub open spec fn idle_step(d: DriverView, st: StateView) -> StepView {
    StepView {
        driver: d,
        state: st,
        answers: Seq::empty(),
        actions: Seq::empty(),
        end: None,
    }
}

fn no_step() -> (r: SessionStep)
    ensures
        forall|d: DriverView, st: StateView| #[trigger] step_view(d, st, r) == idle_step(d, st),
{
    let r = SessionStep { answers: Vec::new(), actions: Vec::new(), end: None };
    assert(answer_views(r.answers@) =~= Seq::empty());
    assert(action_views(r.actions@) =~= Seq::empty());
    r
}

/// Whether no request is outstanding.
pub open spec fn is_idle(d: DriverView) -> bool {
    d.queued is None && d.pending is None
}

/// A session with nothing outstanding any more.
pub open spec fn emptied(d: DriverView) -> DriverView {
    DriverView { queued: None, pending: None, ..d }
}

/// The session is left in good order: whatever is outstanding is interrupted,
/// and there is no connection any more.
pub open spec fn left(
    d: DriverView,
    st: StateView,
    before_dispatch: Seq<char>,
    before_completion: Seq<char>,
    end: SessionEnd,
) -> StepView {
    StepView {
        driver: emptied(d),
        state: disconnected(st),
        answers: answers_of(request_failed(d.queued, before_dispatch, true)) + answers_of(
            pending_failed(d.pending, before_completion, true),
        ),
        actions: Seq::empty(),
        end: Some(end),
    }
}

/// The application shuts down.
pub open spec fn shut_down(d: DriverView, st: StateView) -> StepView {
    left(
        d,
        st,
        "ED2K background session is shutting down before search dispatch"@,
        "ED2K background session is shutting down before search completion"@,
        SessionEnd::ContinueOrder,
    )
}

/// The session is dropped to connect anew.
pub open spec fn reconnecting(d: DriverView, st: StateView) -> StepView {
    left(
        d,
        st,
        "ED2K background session reconnecting before search dispatch"@,
        "ED2K background session reconnecting before search completion"@,
        SessionEnd::RestartPreferredOrder,
    )
}

/// Whether the next server is due. Not while a request is outstanding.
pub open spec fn rotation_due(d: DriverView, now: u64) -> bool {
    is_idle(d) && match d.rotation_deadline {
        Some(deadline) => now >= deadline,
        None => false,
    }
}

/// The next server is due.
pub open spec fn rotated(d: DriverView, st: StateView, now: u64) -> StepView {
    if rotation_due(d, now) {
        left(
            d,
            st,
            "ED2K background session rotated before search dispatch"@,
            "ED2K background session rotated before search completion"@,
            SessionEnd::ContinueOrder,
        )
    } else {
        idle_step(d, st)
    }
}

/// What a server that closed the connection is blamed with.
pub open spec fn closed_text(server: ResolvedServerEntry) -> Seq<char> {
    "ED2K server "@ + endpoint_text(server.base()) + " closed the connection"@
}

/// The server closed the connection.
pub open spec fn closed(d: DriverView, st: StateView) -> StepView {
    StepView {
        driver: emptied(d),
        state: st,
        answers: answers_of(
            request_failed(d.queued, closed_text(d.server) + " before search dispatch"@, true),
        ) + answers_of(
            pending_failed(d.pending, closed_text(d.server) + " before search completion"@, true),
        ),
        actions: Seq::empty(),
        end: Some(SessionEnd::Failed(ServerError::Closed)),
    }
}

/// The answer of a request that dies with its session before it was
/// dispatched.
pub open spec fn queued_dropped(d: DriverView) -> Option<AnswerView> {
    match d.queued {
        Some(r) => Some(AnswerView::Dropped(r.number())),
        None => None,
    }
}

/// The answer of a search that dies with its session.
pub open spec fn pending_dropped(d: DriverView) -> Option<AnswerView> {
    match d.pending {
        Some(p) => Some(AnswerView::Dropped(pending_number(p))),
        None => None,
    }
}

/// The session fails, and whatever is outstanding dies with it.
pub open spec fn given_up(
    d: DriverView,
    st: StateView,
    actions: Seq<ActionView>,
    e: ServerError,
) -> StepView {
    StepView {
        driver: emptied(d),
        state: st,
        answers: answers_of(queued_dropped(d)) + answers_of(pending_dropped(d)),
        actions,
        end: Some(SessionEnd::Failed(e)),
    }
}

/// What a search that runs out of time is told.
pub open spec fn timeout_text(p: PendingView) -> Seq<char> {
    match p {
        PendingView::Keyword { .. } => {
            "ED2K background session search timed out waiting for OP_SEARCHRESULT"@
        },
        PendingView::Source { .. } => {
            "ED2K background session search timed out waiting for OP_FOUNDSOURCES"@
        },
    }
}

/// When a search gives up.
pub open spec fn pending_deadline(p: PendingView) -> u64 {
    match p {
        PendingView::Keyword { deadline, .. } => deadline,
        PendingView::Source { deadline, .. } => deadline,
    }
}

/// A search runs out of time; the session goes on.
pub open spec fn timed_out(d: DriverView, st: StateView, now: u64) -> StepView {
    match d.pending {
        Some(p) => if now >= pending_deadline(p) {
            StepView {
                driver: DriverView { pending: None, ..d },
                answers: seq![AnswerView::Failed(pending_number(p), timeout_text(p), false)],
                ..idle_step(d, st)
            }
        } else {
            idle_step(d, st)
        },
        None => idle_step(d, st),
    }
}

/// A request starts.
pub open spec fn starting(
    d: DriverView,
    st: StateView,
    request: BackgroundServerSearchRequest,
    c: ContextView,
    now: u64,
) -> StepView {
    let started = request_started(d.session, request, c, now);
    StepView {
        driver: DriverView { session: started.session, pending: started.pending, ..d },
        state: st,
        answers: answers_of(started.answer),
        actions: started.actions,
        end: None,
    }
}

/// A request comes in: it starts where the login is accepted, else it is
/// queued.
pub open spec fn requested(
    d: DriverView,
    st: StateView,
    request: BackgroundServerSearchRequest,
    c: ContextView,
    now: u64,
) -> StepView {
    if d.session.login_accepted {
        starting(d, st, request, c, now)
    } else {
        StepView { driver: DriverView { queued: Some(request), ..d }, ..idle_step(d, st) }
    }
}

/// Whether a queued request can start.
pub open spec fn can_start_queued(d: DriverView) -> bool {
    d.session.login_accepted && d.pending is None && d.queued is Some
}

/// Whether the queued request, where it starts, can go out.
pub open spec fn queue_fits(d: DriverView, c: ContextView, now: u64) -> bool {
    can_start_queued(d) ==> request_fits(d.session, d.queued->Some_0, c, now)
}

/// The queued request starts, where it can.
pub open spec fn queue_started(
    d: DriverView,
    st: StateView,
    c: ContextView,
    now: u64,
) -> StepView {
    if can_start_queued(d) {
        starting(
            DriverView { queued: None, ..d },
            st,
            d.queued->Some_0,
            c,
            now,
        )
    } else {
        idle_step(d, st)
    }
}

/// A page of results for the keyword search that waits.
pub open spec fn results_came(
    d: DriverView,
    st: StateView,
    id: u64,
    query: Seq<char>,
    deadline: u64,
    results: Seq<SearchFileView>,
    page_count: u32,
    b: Seq<u8>,
    now: u64,
) -> StepView {
    match whole_page(b) {
        Err(e) => given_up(d, st, Seq::empty(), ServerError::Results(e)),
        Ok(page) => if page.more_results_available {
            StepView {
                driver: DriverView {
                    session: sent(in_phase(d.session, ServerSessionPhase::AwaitingMore), now),
                    pending: Some(
                        PendingView::Keyword {
                            id,
                            query,
                            deadline,
                            results: results + page.files,
                            page_count: page_count.wrapping_add(1),
                        },
                    ),
                    ..d
                },
                actions: seq![ActionView::Send(OP_QUERY_MORE_RESULT, Seq::empty())],
                ..idle_step(d, st)
            }
        } else {
            StepView {
                driver: DriverView {
                    session: in_phase(d.session, ServerSessionPhase::Completed),
                    pending: None,
                    ..d
                },
                answers: seq![AnswerView::Files(id, results + page.files)],
                ..idle_step(d, st)
            }
        },
    }
}

/// The sources for the search that waits.
pub open spec fn sources_came(
    d: DriverView,
    st: StateView,
    id: u64,
    file_hash: Seq<u8>,
    obfuscated: bool,
    b: Seq<u8>,
) -> StepView {
    match whole_source_set(b, obfuscated) {
        Err(e) => given_up(d, st, Seq::empty(), ServerError::Results(e)),
        Ok(sources) => if all_of_file(sources, file_hash) {
            StepView {
                driver: DriverView {
                    session: in_phase(d.session, ServerSessionPhase::Completed),
                    pending: None,
                    ..d
                },
                answers: seq![AnswerView::Sources(id, annotated(sources, d.session.endpoint))],
                ..idle_step(d, st)
            }
        } else {
            given_up(d, st, Seq::empty(), ServerError::UnexpectedFileHash)
        },
    }
}

/// A packet that the search that waits has no use for.
pub open spec fn other_came(
    d: DriverView,
    st: StateView,
    opcode: u8,
    b: Seq<u8>,
    c: ContextView,
    now: u64,
) -> StepView {
    let h = packet_handled(d.session, st, opcode, b, c, is_idle(d), now);
    let after = DriverView { session: h.session, ..d };
    match h.error {
        Some(e) => given_up(after, h.state, h.actions, e),
        None => StepView {
            driver: after,
            state: h.state,
            answers: Seq::empty(),
            actions: h.actions,
            end: None,
        },
    }
}

/// A packet comes in.
pub open spec fn packet_came(
    d: DriverView,
    st: StateView,
    opcode: u8,
    b: Seq<u8>,
    c: ContextView,
    now: u64,
) -> StepView {
    match d.pending {
        Some(PendingView::Keyword { id, query, deadline, results, page_count }) => {
            if opcode == OP_SEARCHRESULT {
                results_came(d, st, id, query, deadline, results, page_count, b, now)
            } else {
                other_came(d, st, opcode, b, c, now)
            }
        },
        Some(PendingView::Source { id, file_hash, deadline }) => {
            if opcode == OP_FOUNDSOURCES || opcode == OP_FOUNDSOURCES_OBFU {
                sources_came(d, st, id, file_hash, opcode == OP_FOUNDSOURCES_OBFU, b)
            } else {
                other_came(d, st, opcode, b, c, now)
            }
        },
        None => other_came(d, st, opcode, b, c, now),
    }
}

/// A packet comes in, and the queued request starts behind it where it can.
pub open spec fn packet_and_queue(
    d: DriverView,
    st: StateView,
    opcode: u8,
    b: Seq<u8>,
    c: ContextView,
    now: u64,
) -> StepView {
    let first = packet_came(d, st, opcode, b, c, now);
    if first.end is Some {
        first
    } else {
        let second = queue_started(first.driver, first.state, c, now);
        StepView {
            answers: first.answers + second.answers,
            actions: first.actions + second.actions,
            ..second
        }
    }
}

/// A datagram comes in.
pub open spec fn datagram_came(
    d: DriverView,
    st: StateView,
    packet: ServerUdpPacket,
) -> StepView {
    let h = udp_handled(
        d.server,
        packet.from,
        packet.opcode,
        packet.payload@,
        d.pending,
        st,
        d.status_challenge,
    );
    StepView {
        driver: DriverView { pending: h.pending, status_challenge: h.challenge, ..d },
        state: h.state,
        answers: answers_of(h.answer),
        actions: Seq::empty(),
        end: None,
    }
}

/// Whether the session has to be kept alive.
pub open spec fn keepalive_due(s: SessionView, c: ContextView, now: u64) -> bool {
    match c.keepalive_interval {
        Some(interval) => (if now >= s.last_tx {
            now - s.last_tx
        } else {
            0
        }) >= interval,
        None => false,
    }
}

/// The session is kept alive, where that is due, by an offer of no file.
pub open spec fn kept_alive(d: DriverView, st: StateView, c: ContextView, now: u64) -> StepView {
    if keepalive_due(d.session, c, now) {
        StepView {
            driver: DriverView { session: sent(d.session, now), ..d },
            actions: seq![ActionView::Send(OP_OFFERFILES, u32_le(0))],
            ..idle_step(d, st)
        }
    } else {
        idle_step(d, st)
    }
}

impl BackgroundSession {
    /// A session on a fresh connection whose login was just sent. The state of
    /// the connection says so.
    pub fn start(
        server: &ResolvedServerEntry,
        transport: SocketAddrV4,
        rotation_interval: Option<u64>,
        state: &mut Ed2kServerState,
        now: u64,
    ) -> (r: Self)
        requires
            rotation_interval matches Some(i) ==> now + i <= u64::MAX,
        ensures
            r@ == (DriverView {
                server: *server,
                session: in_phase(
                    fresh_session(transport, server.entry.soft_files, now),
                    ServerSessionPhase::AwaitingIdChange,
                ),
                queued: None,
                pending: None,
                status_challenge: None,
                last_status_ping: None,
                rotation_deadline: match rotation_interval {
                    Some(i) => Some((now + i) as u64),
                    None => None,
                },
            }),
            final(state)@ == connection_open(old(state)@, server.base()),
    {
        let mut session = ServerSession::new(transport, server.entry.soft_files, now);
        session.phase = ServerSessionPhase::AwaitingIdChange;
        state.open_connection(server.base_endpoint());
        BackgroundSession {
            server: server.duplicate(),
            session,
            queued: None,
            pending: None,
            status_challenge: None,
            last_status_ping: None,
            rotation_deadline: match rotation_interval {
                Some(i) => Some(now + i),
                None => None,
            },
        }
    }

    /// Whether no request is outstanding: only then is another one accepted.
    pub fn idle(&self) -> (r: bool)
        ensures
            r == is_idle(self@),
    {
        self.queued.is_none() && self.pending.is_none()
    }

    fn fail_outstanding(&mut self, before_dispatch: String, before_completion: String) -> (r: Vec<
        BackgroundAnswer,
    >)
        ensures
            final(self)@ == emptied(old(self)@),
            answer_views(r@) == answers_of(
                request_failed(old(self).queued, before_dispatch@, true),
            ) + answers_of(
                pending_failed(old(self)@.pending, before_completion@, true),
            ),
    {
        let mut answers: Vec<BackgroundAnswer> = Vec::new();
        assert(answer_views(answers@) =~= Seq::empty());
        let first = fail_background_search_request(
            &mut self.queued,
            BackgroundSearchFailure::interrupted(before_dispatch),
        );
        let second = fail_pending_background_search(
            &mut self.pending,
            BackgroundSearchFailure::interrupted(before_completion),
        );
        push_answer(&mut answers, first);
        push_answer(&mut answers, second);
        assert(answer_views(answers@) =~= answers_of(
            request_failed(old(self).queued, before_dispatch@, true),
        ) + answers_of(pending_failed(old(self)@.pending, before_completion@, true)));
        answers
    }

    fn leave(
        &mut self,
        state: &mut Ed2kServerState,
        before_dispatch: &str,
        before_completion: &str,
        end: SessionEnd,
    ) -> (r: SessionStep)
        ensures
            step_view(final(self)@, final(state)@, r) == left(
                old(self)@,
                old(state)@,
                before_dispatch@,
                before_completion@,
                end,
            ),
    {
        let answers = self.fail_outstanding(
            before_dispatch.to_owned(),
            before_completion.to_owned(),
        );
        state.clear_server_connection_state();
        let r = SessionStep { answers, actions: Vec::new(), end: Some(end) };
        assert(action_views(r.actions@) =~= Seq::empty());
        r
    }

    fn give_up(&mut self, actions: Vec<SessionAction>, e: ServerError) -> (r: SessionStep)
        ensures
            forall|st: StateView| #[trigger]
                step_view(final(self)@, st, r) == given_up(
                    old(self)@,
                    st,
                    action_views(actions@),
                    e,
                ),
    {
        let mut answers: Vec<BackgroundAnswer> = Vec::new();
        assert(answer_views(answers@) =~= Seq::empty());
        let first = match self.queued.take() {
            Some(request) => Some(BackgroundAnswer::Dropped { id: request.id() }),
            None => None,
        };
        let second = match self.pending.take() {
            Some(pending) => Some(BackgroundAnswer::Dropped { id: pending.id() }),
            None => None,
        };
        push_answer(&mut answers, first);
        push_answer(&mut answers, second);
        assert(answer_views(answers@) =~= answers_of(queued_dropped(old(self)@)) + answers_of(
            pending_dropped(old(self)@),
        ));
        SessionStep { answers, actions, end: Some(SessionEnd::Failed(e)) }
    }

    /// The application shuts down.
    pub fn on_shutdown(&mut self, state: &mut Ed2kServerState) -> (r: SessionStep)
        ensures
            step_view(final(self)@, final(state)@, r) == shut_down(old(self)@, old(state)@),
    {
        self.leave(
            state,
            "ED2K background session is shutting down before search dispatch",
            "ED2K background session is shutting down before search completion",
            SessionEnd::ContinueOrder,
        )
    }

    /// Another connection is wanted: the ports changed, or another server was
    /// asked for.
    pub fn on_reconnect(&mut self, state: &mut Ed2kServerState) -> (r: SessionStep)
        ensures
            step_view(final(self)@, final(state)@, r) == reconnecting(old(self)@, old(state)@),
    {
        self.leave(
            state,
            "ED2K background session reconnecting before search dispatch",
            "ED2K background session reconnecting before search completion",
            SessionEnd::RestartPreferredOrder,
        )
    }

    /// The time to move on to the next server may have come.
    pub fn on_rotation(&mut self, state: &mut Ed2kServerState, now: u64) -> (r: SessionStep)
        ensures
            step_view(final(self)@, final(state)@, r) == rotated(old(self)@, old(state)@, now),
    {
        let due: bool = self.idle() && match self.rotation_deadline {
            Some(deadline) => now >= deadline,
            None => false,
        };
        if due {
            self.leave(
                state,
                "ED2K background session rotated before search dispatch",
                "ED2K background session rotated before search completion",
                SessionEnd::ContinueOrder,
            )
        } else {
            no_step()
        }
    }

    /// The server closed the connection.
    pub fn on_closed(&mut self) -> (r: SessionStep)
        ensures
            forall|st: StateView| #[trigger]
                step_view(final(self)@, st, r) == closed(old(self)@, st),
    {
        let endpoint: String = endpoint_to_text(self.server.base_endpoint());
        let mut text: String = "ED2K server ".to_owned();
        text.append(endpoint.as_str());
        text.append(" closed the connection");
        let mut before_dispatch: String = text.clone();
        before_dispatch.append(" before search dispatch");
        text.append(" before search completion");
        let answers = self.fail_outstanding(before_dispatch, text);
        let r = SessionStep {
            answers,
            actions: Vec::new(),
            end: Some(SessionEnd::Failed(ServerError::Closed)),
        };
        assert(action_views(r.actions@) =~= Seq::empty());
        r
    }

    /// The search that waits may have run out of time.
    pub fn on_deadline(&mut self, now: u64) -> (r: SessionStep)
        ensures
            forall|st: StateView| #[trigger]
                step_view(final(self)@, st, r) == timed_out(old(self)@, st, now),
    {
        let message: String = match &self.pending {
            None => return no_step(),
            Some(pending) => {
                if now < pending.deadline() {
                    return no_step();
                }
                match pending {
                    PendingBackgroundServerSearch::Keyword { .. } => {
                        "ED2K background session search timed out waiting for OP_SEARCHRESULT"
                            .to_owned()
                    },
                    PendingBackgroundServerSearch::Source { .. } => {
                        "ED2K background session search timed out waiting for OP_FOUNDSOURCES"
                            .to_owned()
                    },
                }
            },
        };
        let mut r = no_step();
        let answer = fail_pending_background_search(
            &mut self.pending,
            BackgroundSearchFailure::timed_out(message),
        );
        let ghost before = answer_views(r.answers@);
        proof {
            assert(step_view(self@, arbitrary(), r) == idle_step(self@, arbitrary()));
            assert(before =~= Seq::empty());
        }
        push_answer(&mut r.answers, answer);
        proof {
            let p = old(self)@.pending->Some_0;
            assert(answer_views(r.answers@) =~= seq![
                AnswerView::Failed(pending_number(p), timeout_text(p), false),
            ]);
        }
        r
    }

    fn start_request(
        &mut self,
        request: BackgroundServerSearchRequest,
        context: &ServerSessionContext,
        now: u64,
    ) -> (r: SessionStep)
        requires
            request_fits(old(self)@.session, request, context@, now),
        ensures
            forall|st: StateView| #[trigger]
                step_view(final(self)@, st, r) == starting(
                    old(self)@,
                    st,
                    request,
                    context@,
                    now,
                ),
    {
        let mut actions: Vec<SessionAction> = Vec::new();
        let mut answers: Vec<BackgroundAnswer> = Vec::new();
        assert(answer_views(answers@) =~= Seq::empty());
        assert(action_views(actions@) =~= Seq::empty());
        let started = start_background_server_search(
            &mut self.session,
            context,
            request,
            now,
            &mut actions,
        );
        self.pending = started.pending;
        push_answer(&mut answers, started.answer);
        let ghost want = request_started(
            old(self)@.session,
            request,
            context@,
            now,
        );
        assert(answer_views(answers@) =~= answers_of(want.answer));
        assert(action_views(actions@) =~= want.actions);
        SessionStep { answers, actions, end: None }
    }

    /// A request comes in.
    pub fn on_request(
        &mut self,
        request: BackgroundServerSearchRequest,
        context: &ServerSessionContext,
        now: u64,
    ) -> (r: SessionStep)
        requires
            is_idle(old(self)@),
            old(self).session.login_accepted ==> request_fits(
                old(self)@.session,
                request,
                context@,
                now,
            ),
        ensures
            forall|st: StateView| #[trigger]
                step_view(final(self)@, st, r) == requested(
                    old(self)@,
                    st,
                    request,
                    context@,
                    now,
                ),
    {
        if self.session.login_accepted {
            self.start_request(request, context, now)
        } else {
            self.queued = Some(request);
            no_step()
        }
    }

    fn take_results(
        &mut self,
        id: u64,
        query: String,
        deadline: u64,
        results: Vec<Ed2kSearchFile>,
        page_count: u32,
        payload: &[u8],
        now: u64,
    ) -> (r: SessionStep)
        requires
            old(self)@.pending is None,
        ensures
            forall|st: StateView| #[trigger]
                step_view(final(self)@, st, r) == results_came(
                    DriverView {
                        pending: Some(
                            PendingView::Keyword {
                                id,
                                query: query@,
                                deadline,
                                results: file_views(results@),
                                page_count,
                            },
                        ),
                        ..old(self)@
                    },
                    st,
                    id,
                    query@,
                    deadline,
                    file_views(results@),
                    page_count,
                    payload@,
                    now,
                ),
    {
        let mut page = match decode_search_result_page(payload) {
            Ok(page) => page,
            Err(e) => {
                self.pending = Some(
                    PendingBackgroundServerSearch::Keyword {
                        id,
                        query,
                        deadline,
                        results,
                        page_count,
                    },
                );
                let actions: Vec<SessionAction> = Vec::new();
                assert(action_views(actions@) =~= Seq::empty());
                return self.give_up(actions, ServerError::Results(e));
            },
        };
        let mut results: Vec<Ed2kSearchFile> = results;
        let ghost earlier = file_views(results@);
        let ghost own = file_views(page.files@);
        results.append(&mut page.files);
        assert(file_views(results@) =~= earlier + own);
        let mut r = no_step();
        proof {
            assert(step_view(self@, arbitrary(), r) == idle_step(self@, arbitrary()));
        }
        if page.more_results_available {
            self.session.phase = ServerSessionPhase::AwaitingMore;
            self.session.last_tx = now;
            self.pending = Some(
                PendingBackgroundServerSearch::Keyword {
                    id,
                    query,
                    deadline,
                    results,
                    page_count: page_count.wrapping_add(1),
                },
            );
            let empty: Vec<u8> = Vec::new();
            assert(empty@ =~= Seq::empty());
            push_action(
                &mut r.actions,
                SessionAction::Send { opcode: OP_QUERY_MORE_RESULT, payload: empty },
            );
            assert(action_views(r.actions@) =~= seq![
                ActionView::Send(OP_QUERY_MORE_RESULT, Seq::empty()),
            ]);
        } else {
            self.session.phase = ServerSessionPhase::Completed;
            push_answer(&mut r.answers, Some(BackgroundAnswer::Files { id, files: results }));
            assert(answer_views(r.answers@) =~= seq![AnswerView::Files(id, earlier + own)]);
        }
        r
    }

    fn take_sources(
        &mut self,
        id: u64,
        file_hash: crate::ids::Ed2kHash,
        deadline: u64,
        obfuscated: bool,
        payload: &[u8],
    ) -> (r: SessionStep)
        requires
            old(self)@.pending == Some(
                PendingView::Source { id, file_hash: file_hash.0@, deadline },
            ),
        ensures
            forall|st: StateView| #[trigger]
                step_view(final(self)@, st, r) == sources_came(
                    old(self)@,
                    st,
                    id,
                    file_hash.0@,
                    obfuscated,
                    payload@,
                ),
    {
        let actions: Vec<SessionAction> = Vec::new();
        assert(action_views(actions@) =~= Seq::empty());
        let sources: Vec<Ed2kFoundSource> = match decode_found_sources(payload, obfuscated) {
            Ok(sources) => sources,
            Err(e) => return self.give_up(actions, ServerError::Results(e)),
        };
        if validate_found_sources(&sources, file_hash).is_err() {
            return self.give_up(actions, ServerError::UnexpectedFileHash);
        }
        let sources: Vec<Ed2kFoundSource> = annotate_found_sources_server(
            sources,
            self.session.endpoint,
        );
        self.pending = None;
        self.session.phase = ServerSessionPhase::Completed;
        let mut r = no_step();
        proof {
            assert(step_view(self@, arbitrary(), r) == idle_step(self@, arbitrary()));
        }
        push_answer(&mut r.answers, Some(BackgroundAnswer::Sources { id, sources }));
        assert(answer_views(r.answers@) =~= seq![
            AnswerView::Sources(id, source_views(sources@)),
        ]);
        r
    }

    fn take_other(
        &mut self,
        state: &mut Ed2kServerState,
        packet: &Ed2kPacket,
        context: &ServerSessionContext,
        now: u64,
    ) -> (r: SessionStep)
        requires
            packet_fits(
                old(self)@.session,
                old(state)@,
                packet.opcode,
                packet.payload@,
                context@,
                is_idle(old(self)@),
                now,
            ),
        ensures
            step_view(final(self)@, final(state)@, r) == other_came(
                old(self)@,
                old(state)@,
                packet.opcode,
                packet.payload@,
                context@,
                now,
            ),
    {
        let allow_probe_search: bool = self.idle();
        let (actions, error) = handle_server_packet(
            &mut self.session,
            state,
            packet,
            context,
            allow_probe_search,
            now,
        );
        match error {
            Some(e) => self.give_up(actions, e),
            None => {
                let r = SessionStep { answers: Vec::new(), actions, end: None };
                assert(answer_views(r.answers@) =~= Seq::empty());
                r
            },
        }
    }

    fn take_packet(
        &mut self,
        state: &mut Ed2kServerState,
        packet: &Ed2kPacket,
        context: &ServerSessionContext,
        now: u64,
    ) -> (r: SessionStep)
        requires
            packet_fits(
                old(self)@.session,
                old(state)@,
                packet.opcode,
                packet.payload@,
                context@,
                is_idle(old(self)@),
                now,
            ),
        ensures
            step_view(final(self)@, final(state)@, r) == packet_came(
                old(self)@,
                old(state)@,
                packet.opcode,
                packet.payload@,
                context@,
                now,
            ),
    {
        let payload: &[u8] = packet.payload.as_slice();
        if packet.opcode == OP_SEARCHRESULT {
            match self.pending.take() {
                Some(
                    PendingBackgroundServerSearch::Keyword {
                        id,
                        query,
                        deadline,
                        results,
                        page_count,
                    },
                ) => {
                    return self.take_results(
                        id,
                        query,
                        deadline,
                        results,
                        page_count,
                        payload,
                        now,
                    );
                },
                other => {
                    self.pending = other;
                },
            }
        }
        if packet.opcode == OP_FOUNDSOURCES || packet.opcode == OP_FOUNDSOURCES_OBFU {
            if let Some(PendingBackgroundServerSearch::Source { id, file_hash, deadline }) =
                &self.pending {
                let obfuscated: bool = packet.opcode == OP_FOUNDSOURCES_OBFU;
                let (id, file_hash, deadline) = (*id, *file_hash, *deadline);
                return self.take_sources(id, file_hash, deadline, obfuscated, payload);
            }
        }
        self.take_other(state, packet, context, now)
    }

    fn start_queued(
        &mut self,
        context: &ServerSessionContext,
        now: u64,
    ) -> (r: SessionStep)
        requires
            queue_fits(old(self)@, context@, now),
        ensures
            forall|st: StateView| #[trigger]
                step_view(final(self)@, st, r) == queue_started(
                    old(self)@,
                    st,
                    context@,
                    now,
                ),
    {
        if self.session.login_accepted && self.pending.is_none() {
            if let Some(request) = self.queued.take() {
                return self.start_request(request, context, now);
            }
        }
        no_step()
    }

    /// A packet comes in, and the queued request starts behind it where it can.
    pub fn on_packet(
        &mut self,
        state: &mut Ed2kServerState,
        packet: &Ed2kPacket,
        context: &ServerSessionContext,
        now: u64,
    ) -> (r: SessionStep)
        requires
            packet_fits(
                old(self)@.session,
                old(state)@,
                packet.opcode,
                packet.payload@,
                context@,
                is_idle(old(self)@),
                now,
            ),
            ({
                let first = packet_came(
                    old(self)@,
                    old(state)@,
                    packet.opcode,
                    packet.payload@,
                    context@,
                    now,
                );
                first.end is None ==> queue_fits(first.driver, context@, now)
            }),
        ensures
            step_view(final(self)@, final(state)@, r) == packet_and_queue(
                old(self)@,
                old(state)@,
                packet.opcode,
                packet.payload@,
                context@,
                now,
            ),
    {
        let mut first = self.take_packet(state, packet, context, now);
        if first.end.is_some() {
            assert(step_view(self@, state@, first) == packet_and_queue(
                old(self)@,
                old(state)@,
                packet.opcode,
                packet.payload@,
                context@,
                now,
            ));
            return first;
        }
        let ghost middle = self@;
        let ghost first_view = step_view(self@, state@, first);
        let mut second = self.start_queued(context, now);
        let ghost second_view = step_view(self@, state@, second);
        first.answers.append(&mut second.answers);
        first.actions.append(&mut second.actions);
        proof {
            assert(second_view == queue_started(middle, state@, context@, now));
            assert(answer_views(first.answers@) =~= first_view.answers + second_view.answers);
            assert(action_views(first.actions@) =~= first_view.actions + second_view.actions);
            assert(step_view(self@, state@, first) == packet_and_queue(
                old(self)@,
                old(state)@,
                packet.opcode,
                packet.payload@,
                context@,
                now,
            ));
        }
        first
    }

    /// A datagram comes in.
    pub fn on_udp_packet(&mut self, state: &mut Ed2kServerState, packet: &ServerUdpPacket) -> (r:
        SessionStep)
        ensures
            step_view(final(self)@, final(state)@, r) == datagram_came(
                old(self)@,
                old(state)@,
                *packet,
            ),
    {
        let mut r = no_step();
        proof {
            assert(step_view(self@, state@, r) == idle_step(self@, state@));
        }
        let answer = handle_background_udp_packet(
            &self.server,
            packet,
            &mut self.pending,
            state,
            &mut self.status_challenge,
        );
        push_answer(&mut r.answers, answer);
        assert(answer_views(r.answers@) =~= answers_of(opt_answer(answer)));
        r
    }

    /// The session may have to be kept alive.
    pub fn on_keepalive(&mut self, context: &ServerSessionContext, now: u64) -> (r: SessionStep)
        ensures
            forall|st: StateView| #[trigger]
                step_view(final(self)@, st, r) == kept_alive(old(self)@, st, context@, now),
    {
        let mut r = no_step();
        proof {
            assert(step_view(self@, arbitrary(), r) == idle_step(self@, arbitrary()));
        }
        let due: bool = match context.keepalive_interval {
            Some(interval) => {
                let elapsed: u64 = if now >= self.session.last_tx {
                    now - self.session.last_tx
                } else {
                    0
                };
                elapsed >= interval
            },
            None => false,
        };
        if due {
            self.session.last_tx = now;
            let mut payload: Vec<u8> = Vec::new();
            push_u32(&mut payload, 0);
            assert(payload@ =~= u32_le(0));
            push_action(&mut r.actions, SessionAction::Send { opcode: OP_OFFERFILES, payload });
            assert(action_views(r.actions@) =~= seq![ActionView::Send(OP_OFFERFILES, u32_le(0))]);
        }
        r
    }

    /// Whether a status request over UDP is due.
    pub fn status_request_due(&self, now: u64) -> (r: bool)
        ensures
            r == status_ping_due(self@.last_status_ping, now),
    {
        status_ping_due_at(self.last_status_ping, now)
    }

    /// Notes that a status request went out.
    pub fn status_request_sent(&mut self, challenge: u32, now: u64)
        ensures
            final(self)@ == (DriverView {
                status_challenge: Some(challenge),
                last_status_ping: Some(now),
                ..old(self)@
            }),
    {
        self.status_challenge = Some(challenge);
        self.last_status_ping = Some(now);
    }
}

// ---------------------------------------------------------------------------
// Laws
// ---------------------------------------------------------------------------
/// The numbers of the requests that are outstanding.
pub open spec fn outstanding(d: DriverView) -> Seq<u64> {
    (match d.queued {
        Some(r) => seq![r.number()],
        None => Seq::empty(),
    }) + (match d.pending {
        Some(p) => seq![pending_number(p)],
        None => Seq::empty(),
    })
}

/// The numbers of the requests that answers are for.
pub open spec fn answered(answers: Seq<AnswerView>) -> Seq<u64> {
    answers.map_values(|a: AnswerView| answer_number(a))
}

/// Whether the requests in `before` are each answered by the step or left
/// outstanding behind it, none lost and none answered twice, with no more than
/// one outstanding, and none once the session is over.
pub open spec fn accounts_for(before: Seq<u64>, step: StepView) -> bool {
    &&& before == answered(step.answers) + outstanding(step.driver)
    &&& outstanding(step.driver).len() <= 1
    &&& step.end is Some ==> outstanding(step.driver).len() == 0
}

proof fn lemma_answered_empty()
    ensures
        answered(Seq::empty()) == Seq::<u64>::empty(),
{
    assert(answered(Seq::empty()) =~= Seq::<u64>::empty());
}

proof fn lemma_answered_one(a: AnswerView)
    ensures
        answered(seq![a]) == seq![answer_number(a)],
{
    assert(answered(seq![a]) =~= seq![answer_number(a)]);
}

proof fn lemma_answered_sum(a: Seq<AnswerView>, b: Seq<AnswerView>)
    ensures
        answered(a + b) == answered(a) + answered(b),
{
    assert(answered(a + b) =~= answered(a) + answered(b));
}

proof fn lemma_answers_of(a: Option<AnswerView>)
    ensures
        answered(answers_of(a)) == match a {
            Some(x) => seq![answer_number(x)],
            None => Seq::empty(),
        },
{
    lemma_answered_empty();
    if let Some(x) = a {
        lemma_answered_one(x);
    }
}

/// Leaving the session in good order, or losing the connection, answers
/// whatever is outstanding.
pub proof fn law_leaving_answers_everything(
    d: DriverView,
    st: StateView,
    before_dispatch: Seq<char>,
    before_completion: Seq<char>,
    end: SessionEnd,
)
    ensures
        accounts_for(outstanding(d), left(d, st, before_dispatch, before_completion, end)),
        accounts_for(outstanding(d), closed(d, st)),
        forall|i: int|
            0 <= i < left(d, st, before_dispatch, before_completion, end).answers.len()
                ==> #[trigger] left(d, st, before_dispatch, before_completion, end).answers[i]
                matches AnswerView::Failed(_, _, true),
        forall|i: int|
            0 <= i < closed(d, st).answers.len()
                ==> #[trigger] closed(d, st).answers[i] matches AnswerView::Failed(_, _, true),
{
    let l1 = request_failed(d.queued, before_dispatch, true);
    let l2 = pending_failed(d.pending, before_completion, true);
    lemma_answers_of(l1);
    lemma_answers_of(l2);
    lemma_answered_sum(answers_of(l1), answers_of(l2));
    let c1 = request_failed(d.queued, closed_text(d.server) + " before search dispatch"@, true);
    let c2 = pending_failed(d.pending, closed_text(d.server) + " before search completion"@, true);
    lemma_answers_of(c1);
    lemma_answers_of(c2);
    lemma_answered_sum(answers_of(c1), answers_of(c2));
    assert(outstanding(emptied(d)) =~= Seq::empty());
    assert(outstanding(d) =~= answered(answers_of(l1) + answers_of(l2)) + Seq::empty());
    assert(outstanding(d) =~= answered(answers_of(c1) + answers_of(c2)) + Seq::empty());
}

proof fn lemma_giving_up_accounts(
    d: DriverView,
    st: StateView,
    actions: Seq<ActionView>,
    e: ServerError,
)
    ensures
        accounts_for(outstanding(d), given_up(d, st, actions, e)),
{
    let a = queued_dropped(d);
    let b = pending_dropped(d);
    lemma_answers_of(a);
    lemma_answers_of(b);
    lemma_answered_sum(answers_of(a), answers_of(b));
    assert(outstanding(emptied(d)) =~= Seq::empty());
    assert(outstanding(d) =~= answered(answers_of(a) + answers_of(b)) + Seq::empty());
}

proof fn lemma_starting_accounts(
    d: DriverView,
    st: StateView,
    request: BackgroundServerSearchRequest,
    c: ContextView,
    now: u64,
)
    requires
        is_idle(d),
    ensures
        accounts_for(seq![request.number()], starting(d, st, request, c, now)),
{
    let r = request_started(d.session, request, c, now);
    let step = starting(d, st, request, c, now);
    super::background::law_started_request_waits_or_is_answered(
        d.session,
        request,
        c,
        now,
    );
    lemma_answers_of(r.answer);
    assert(seq![request.number()] =~= answered(step.answers) + outstanding(step.driver));
}

/// A search that starts is given its full time: it is given up no earlier
/// than that after the waits that its start orders are over.
pub proof fn law_search_is_given_its_full_time(
    s: SessionView,
    request: BackgroundServerSearchRequest,
    c: ContextView,
    now: u64,
)
    requires
        request_fits(s, request, c, now),
    ensures
        ({
            let started = request_started(s, request, c, now);
            started.pending matches Some(p) ==> match request {
                BackgroundServerSearchRequest::Keyword { timeout, .. } => pending_deadline(p) == now
                    + slept(started.actions) + timeout,
                BackgroundServerSearchRequest::Source { timeout, .. } => pending_deadline(p) == now
                    + slept(started.actions) + timeout,
                _ => false,
            }
        }),
{
    match request {
        BackgroundServerSearchRequest::Keyword { query, criteria, .. } => {
            if let Ok(payload) = search_request(query@, criteria@) {
                law_search_goes_out_after_the_wait(s, OP_SEARCHREQUEST, payload, now);
            }
        },
        BackgroundServerSearchRequest::Source { file_hash, file_size, .. } => {
            law_search_goes_out_after_the_wait(
                s,
                source_opcode(c.connect_options, s.server_flags),
                source_request(file_hash.0@, file_size),
                now,
            );
        },
        _ => {},
    }
}

/// A request that comes in is answered, or it is outstanding from then on.
pub proof fn law_request_is_accounted_for(
    d: DriverView,
    st: StateView,
    request: BackgroundServerSearchRequest,
    c: ContextView,
    now: u64,
)
    requires
        is_idle(d),
    ensures
        accounts_for(seq![request.number()], requested(d, st, request, c, now)),
{
    if d.session.login_accepted {
        lemma_starting_accounts(d, st, request, c, now);
    } else {
        let step = requested(d, st, request, c, now);
        lemma_answered_empty();
        assert(seq![request.number()] =~= answered(step.answers) + outstanding(step.driver));
    }
}

proof fn lemma_idle_step_accounts(d: DriverView, st: StateView)
    requires
        outstanding(d).len() <= 1,
    ensures
        accounts_for(outstanding(d), idle_step(d, st)),
{
    lemma_answered_empty();
    assert(outstanding(d) =~= Seq::<u64>::empty() + outstanding(d));
}

proof fn lemma_packet_accounts(
    d: DriverView,
    st: StateView,
    opcode: u8,
    b: Seq<u8>,
    c: ContextView,
    now: u64,
)
    requires
        outstanding(d).len() <= 1,
    ensures
        accounts_for(outstanding(d), packet_came(d, st, opcode, b, c, now)),
{
    let step = packet_came(d, st, opcode, b, c, now);
    lemma_answered_empty();
    let h = packet_handled(d.session, st, opcode, b, c, is_idle(d), now);
    let after = DriverView { session: h.session, ..d };
    assert(outstanding(after) =~= outstanding(d));
    if step.end is Some {
        if let Some(e) = h.error {
            lemma_giving_up_accounts(after, h.state, h.actions, e);
        }
        if let Some(SessionEnd::Failed(e)) = step.end {
            lemma_giving_up_accounts(d, st, Seq::empty(), e);
        }
    } else {
        if step.answers.len() == 1 {
            assert(step.answers =~= seq![step.answers[0]]);
            lemma_answered_one(step.answers[0]);
        }
        assert(outstanding(d) =~= answered(step.answers) + outstanding(step.driver));
    }
}

/// Whatever packet comes in, the request that is outstanding is answered once
/// or still outstanding behind it.
pub proof fn law_packet_accounts_for_the_request(
    d: DriverView,
    st: StateView,
    opcode: u8,
    b: Seq<u8>,
    c: ContextView,
    now: u64,
)
    requires
        outstanding(d).len() <= 1,
    ensures
        accounts_for(
            outstanding(d),
            packet_and_queue(d, st, opcode, b, c, now),
        ),
{
    let first = packet_came(d, st, opcode, b, c, now);
    lemma_packet_accounts(d, st, opcode, b, c, now);
    if first.end is None {
        let second = queue_started(first.driver, first.state, c, now);
        let middle = first.driver;
        if can_start_queued(middle) {
            lemma_starting_accounts(
                DriverView { queued: None, ..middle },
                first.state,
                middle.queued->Some_0,
                c,
                now,
            );
            assert(outstanding(middle) =~= seq![middle.queued->Some_0.number()]);
        } else {
            lemma_idle_step_accounts(middle, first.state);
        }
        lemma_answered_sum(first.answers, second.answers);
        assert(outstanding(d) =~= answered(first.answers + second.answers) + outstanding(
            second.driver,
        ));
    }
}

/// Whatever datagram comes in, and whether or not time runs out or the session
/// is kept alive, the request that is outstanding is answered once or still
/// outstanding behind it.
pub proof fn law_other_events_account_for_the_request(
    d: DriverView,
    st: StateView,
    packet: ServerUdpPacket,
    c: ContextView,
    now: u64,
)
    requires
        outstanding(d).len() <= 1,
    ensures
        accounts_for(outstanding(d), datagram_came(d, st, packet)),
        accounts_for(outstanding(d), timed_out(d, st, now)),
        accounts_for(outstanding(d), kept_alive(d, st, c, now)),
        accounts_for(outstanding(d), rotated(d, st, now)),
{
    lemma_idle_step_accounts(d, st);
    lemma_answered_empty();
    let h = udp_handled(
        d.server,
        packet.from,
        packet.opcode,
        packet.payload@,
        d.pending,
        st,
        d.status_challenge,
    );
    super::background::law_datagram_answers_the_search_or_leaves_it(
        d.server,
        packet.from,
        packet.opcode,
        packet.payload@,
        d.pending,
        st,
        d.status_challenge,
    );
    lemma_answers_of(h.answer);
    let step = datagram_came(d, st, packet);
    assert(outstanding(d) =~= answered(step.answers) + outstanding(step.driver));
    let late = timed_out(d, st, now);
    if late.answers.len() == 1 {
        assert(late.answers =~= seq![late.answers[0]]);
        lemma_answered_one(late.answers[0]);
    }
    assert(outstanding(d) =~= answered(late.answers) + outstanding(late.driver));
    let alive = kept_alive(d, st, c, now);
    assert(outstanding(d) =~= answered(alive.answers) + outstanding(alive.driver));
    if rotation_due(d, now) {
        law_leaving_answers_everything(
            d,
            st,
            "ED2K background session rotated before search dispatch"@,
            "ED2K background session rotated before search completion"@,
            SessionEnd::ContinueOrder,
        );
    }
}

/// A session with a request outstanding does not move on to the next server.
pub proof fn law_no_rotation_during_a_request(d: DriverView, st: StateView, now: u64)
    requires
        outstanding(d).len() > 0,
    ensures
        rotated(d, st, now) == idle_step(d, st),
{
    assert(!is_idle(d)) by {
        if is_idle(d) {
            assert(outstanding(d) =~= Seq::empty());
        }
    }
}

/// Keeping the session alive offers no file: what is published and what comes
/// next stay as they are.
pub proof fn law_keepalive_offers_nothing(d: DriverView, st: StateView, c: ContextView, now: u64)
    ensures
        ({
            let after = kept_alive(d, st, c, now).driver.session;
            &&& after.cursor == d.session.cursor
            &&& after.published == d.session.published
            &&& after.fingerprint == d.session.fingerprint
            &&& after.offer_files_sent == d.session.offer_files_sent
        }),
{
}

/// The pages of a keyword search add up behind what is there. Where a page says
/// that there is more, it is asked for and the search waits on, to the same
/// deadline; the last page answers it with all the files.
pub proof fn law_pages_answer_the_search(
    d: DriverView,
    st: StateView,
    id: u64,
    query: Seq<char>,
    deadline: u64,
    results: Seq<SearchFileView>,
    page_count: u32,
    entries: Seq<super::result_forms::ListedFile>,
    marker: Option<bool>,
    c: ContextView,
    now: u64,
)
    requires
        d.pending == Some(PendingView::Keyword { id, query, deadline, results, page_count }),
        super::result_forms::all_fit(entries),
        page_count < u32::MAX,
    ensures
        ({
            let b = super::result_forms::page_bytes(entries, marker);
            let step = packet_came(d, st, 0x33, b, c, now);
            let files = results + super::result_forms::listed_files(entries);
            &&& step.end is None
            &&& step.state == st
            &&& marker == Some(true) ==> step.answers.len() == 0 && step.actions == seq![
                ActionView::Send(0x21u8, Seq::<u8>::empty()),
            ] && step.driver.pending == Some(
                PendingView::Keyword {
                    id,
                    query,
                    deadline,
                    results: files,
                    page_count: (page_count + 1) as u32,
                },
            )
            &&& marker != Some(true) ==> step.answers == seq![AnswerView::Files(id, files)]
                && step.actions.len() == 0 && step.driver.pending is None
        }),
{
    super::result_forms::law_page_reads_back(entries, marker, Seq::empty());
}

/// The sources of the file answer a source search, each labelled with the
/// server; plain and obfuscated lists are told by their opcodes.
pub proof fn law_sources_answer_the_search(
    d: DriverView,
    st: StateView,
    id: u64,
    file_hash: Seq<u8>,
    deadline: u64,
    sources: Seq<super::result_forms::ListedSource>,
    obfuscated: bool,
    c: ContextView,
    now: u64,
)
    requires
        d.pending == Some(PendingView::Source { id, file_hash, deadline }),
        super::result_forms::sources_fit(sources),
        file_hash.len() == 16,
    ensures
        ({
            let b = super::result_forms::source_set_bytes(file_hash, sources, obfuscated);
            let opcode = if obfuscated {
                0x44u8
            } else {
                0x42u8
            };
            let step = packet_came(d, st, opcode, b, c, now);
            &&& step.end is None
            &&& step.state == st
            &&& step.driver.pending is None
            &&& step.answers == seq![
                AnswerView::Sources(
                    id,
                    annotated(
                        super::result_forms::sources_meaning(sources, file_hash, obfuscated),
                        d.session.endpoint,
                    ),
                ),
            ]
        }),
{
    super::result_forms::law_sources_read_back(file_hash, sources, obfuscated, Seq::empty());
    let said = super::result_forms::sources_meaning(sources, file_hash, obfuscated);
    assert(all_of_file(said, file_hash));
}

/// A search gives up at its deadline and not before, with a failure that is no
/// interruption; the session goes on.
pub proof fn law_search_times_out(d: DriverView, st: StateView, now: u64)
    ensures
        ({
            let step = timed_out(d, st, now);
            &&& step.end is None
            &&& step.actions.len() == 0
            &&& step.driver.queued == d.queued
            &&& d.pending is None ==> step.answers.len() == 0
            &&& d.pending matches Some(p) ==> {
                let deadline = match p {
                    PendingView::Keyword { deadline, .. } => deadline,
                    PendingView::Source { deadline, .. } => deadline,
                };
                &&& now < deadline ==> step.answers.len() == 0 && step.driver.pending == d.pending
                &&& now >= deadline ==> step.driver.pending is None && step.answers.len() == 1
                    && (step.answers[0] matches AnswerView::Failed(id, _, interrupted) && id
                    == pending_number(p) && !interrupted)
            }
        }),
{
}

/// A request starts at once where the login is accepted, and waits for it
/// otherwise; a queued one starts once the login is accepted and no search
/// waits.
pub proof fn law_request_starts_or_is_queued(
    d: DriverView,
    st: StateView,
    request: BackgroundServerSearchRequest,
    c: ContextView,
    now: u64,
)
    ensures
        !d.session.login_accepted ==> requested(d, st, request, c, now) == (StepView {
            driver: DriverView { queued: Some(request), ..d },
            state: st,
            answers: Seq::empty(),
            actions: Seq::empty(),
            end: None,
        }),
        d.session.login_accepted ==> ({
            let r = request_started(d.session, request, c, now);
            let step = requested(d, st, request, c, now);
            &&& step.actions == r.actions
            &&& step.driver.pending == r.pending
            &&& step.driver.session == r.session
            &&& step.driver.queued == d.queued
            &&& step.answers == answers_of(r.answer)
        }),
        can_start_queued(d) <==> d.session.login_accepted && d.pending is None && d.queued is Some,
        !can_start_queued(d) ==> queue_started(d, st, c, now).actions.len() == 0 && queue_started(
            d,
            st,
            c,
            now,
        ).driver == d,
        can_start_queued(d) ==> queue_started(d, st, c, now).driver.queued is None,
{
}

/// A session that is left, for whatever reason, fails what is outstanding as
/// interrupted, the queued request first, and is no longer connected.
pub proof fn law_leaving_interrupts_requests(d: DriverView, st: StateView)
    ensures
        ({
            let down = shut_down(d, st);
            let again = reconnecting(d, st);
            &&& down.end == Some(SessionEnd::ContinueOrder)
            &&& again.end == Some(SessionEnd::RestartPreferredOrder)
            &&& !down.state.connected && !again.state.connected
            &&& down.driver.queued is None && down.driver.pending is None
            &&& again.driver.queued is None && again.driver.pending is None
            &&& forall|i: int|
                0 <= i < down.answers.len() ==> (#[trigger] down.answers[i] matches AnswerView::Failed(
                    _,
                    _,
                    interrupted,
                ) && interrupted)
            &&& forall|i: int|
                0 <= i < again.answers.len() ==> (
                #[trigger] again.answers[i] matches AnswerView::Failed(_, _, interrupted)
                    && interrupted)
        }),
{
}

/// A server that closes the connection ends the session in failure.
pub proof fn law_closed_connection_fails_the_session(d: DriverView, st: StateView)
    ensures
        closed(d, st).end == Some(SessionEnd::Failed(ServerError::Closed)),
        closed(d, st).driver.queued is None,
        closed(d, st).driver.pending is None,
        forall|i: int|
            0 <= i < closed(d, st).answers.len() ==> (
            #[trigger] closed(d, st).answers[i] matches AnswerView::Failed(_, _, interrupted)
                && interrupted),
{
}

/// The next server is due from the deadline on, where there is one and nothing
/// is outstanding.
pub proof fn law_when_servers_rotate(d: DriverView, now: u64)
    ensures
        rotation_due(d, now) <==> d.queued is None && d.pending is None && (
        d.rotation_deadline matches Some(at) && at <= now),
{
}

/// A session is kept alive once nothing was sent for the whole interval, by an
/// offer of no file, which counts as sent.
pub proof fn law_when_a_session_is_kept_alive(
    d: DriverView,
    st: StateView,
    c: ContextView,
    now: u64,
)
    ensures
        c.keepalive_interval is None ==> !keepalive_due(d.session, c, now),
        c.keepalive_interval matches Some(interval) ==> interval > 0 ==> (keepalive_due(
            d.session,
            c,
            now,
        ) <==> now >= d.session.last_tx + interval),
        keepalive_due(d.session, c, now) ==> kept_alive(d, st, c, now).actions == seq![
            ActionView::Send(0x15u8, seq![0u8, 0, 0, 0]),
        ] && kept_alive(d, st, c, now).driver.session.last_tx == now,
        !keepalive_due(d.session, c, now) ==> kept_alive(d, st, c, now).actions.len() == 0,
{
    assert(u32_le(0) =~= seq![0u8, 0, 0, 0]);
}

} // verus!
