//! A one-shot source search: a short session with one server.
use vstd::prelude::*;

use super::active_keyword::{
    accept_active_login, active_login, active_login_fits, ActiveProgress,
};
use super::packet_handler::{
    ContextView, ServerError, ServerSessionContext,
};
use super::result_decoder::{decode_found_sources, whole_source_set};
use super::server_entry::ResolvedServerEntry;
use super::session::{
    action_views, fresh_session, in_phase, push_action, sent, ActionView, Ed2kPacket,
    ServerSession, ServerSessionPhase, SessionAction, SessionView,
};
use super::source_utils::{
    all_of_file, annotate_found_sources_server, annotated, validate_found_sources,
};
use super::startup::{
    encode_source_request, source_opcode, source_request, source_request_opcode,
};
use super::types::{source_views, Ed2kFoundSource, FoundSourceView};
use super::{OP_FOUNDSOURCES, OP_FOUNDSOURCES_OBFU, OP_IDCHANGE, OP_REJECT};
use crate::addr::SocketAddrV4;
use crate::ids::Ed2kHash;

verus! {

/// A source search on one server.
#[derive(Debug)]
pub struct ActiveSourceSearch {
    pub session: ServerSession,
    /// The address and port that sources are labelled with.
    pub base_endpoint: SocketAddrV4,
    /// What the login said of obfuscation.
    pub login_connect_options: u8,
    pub file_hash: Ed2kHash,
    pub file_size: u64,
    pub sources: Vec<Ed2kFoundSource>,
}

/// What a source search on one server holds.
pub struct ActiveSourceView {
    pub session: SessionView,
    pub base_endpoint: SocketAddrV4,
    pub login_connect_options: u8,
    pub file_hash: Seq<u8>,
    pub file_size: u64,
    pub sources: Seq<FoundSourceView>,
}

impl View for ActiveSourceSearch {
    type V = ActiveSourceView;

    open spec fn view(&self) -> ActiveSourceView {
        ActiveSourceView {
            session: self.session@,
            base_endpoint: self.base_endpoint,
            login_connect_options: self.login_connect_options,
            file_hash: self.file_hash.0@,
            file_size: self.file_size,
            sources: source_views(self.sources@),
        }
    }
}

/// What the sources that a server answers with come to.
pub open spec fn active_sources(v: ActiveSourceView, obfuscated: bool, b: Seq<u8>) -> (
    ActiveSourceView,
    Seq<ActionView>,
    ActiveProgress,
) {
    match whole_source_set(b, obfuscated) {
        Err(e) => (v, Seq::empty(), ActiveProgress::Failed(ServerError::Results(e))),
        Ok(sources) => if all_of_file(sources, v.file_hash) {
            (
                ActiveSourceView {
                    session: in_phase(v.session, ServerSessionPhase::Completed),
                    sources: annotated(sources, v.base_endpoint),
                    ..v
                },
                Seq::empty(),
                ActiveProgress::Complete,
            )
        } else {
            (v, Seq::empty(), ActiveProgress::Failed(ServerError::UnexpectedFileHash))
        },
    }
}

/// What a packet comes to in a source search.
pub open spec fn source_packet(
    v: ActiveSourceView,
    opcode: u8,
    b: Seq<u8>,
    c: ContextView,
    now: u64,
) -> (ActiveSourceView, Seq<ActionView>, ActiveProgress) {
    if opcode == OP_IDCHANGE {
        match active_login(v.session, b, c, now) {
            Err(e) => (v, Seq::empty(), ActiveProgress::Failed(e)),
            Ok((session, actions)) => (
                ActiveSourceView {
                    session: sent(in_phase(session, ServerSessionPhase::SearchActive), now),
                    ..v
                },
                actions.push(
                    ActionView::Send(
                        source_opcode(v.login_connect_options, session.server_flags),
                        source_request(v.file_hash, v.file_size),
                    ),
                ),
                ActiveProgress::Going,
            ),
        }
    } else if opcode == OP_FOUNDSOURCES || opcode == OP_FOUNDSOURCES_OBFU {
        active_sources(v, opcode == OP_FOUNDSOURCES_OBFU, b)
    } else if opcode == OP_REJECT {
        (v, Seq::empty(), ActiveProgress::Failed(ServerError::Rejected))
    } else {
        (v, Seq::empty(), ActiveProgress::Going)
    }
}

/// Whether a packet took a search to `after`. Where it failed, nothing is said
/// of the search it leaves behind.
pub open spec fn source_step_is(
    step: (ActiveSourceView, Seq<ActionView>, ActiveProgress),
    after: ActiveSourceView,
    actions: Seq<ActionView>,
    progress: ActiveProgress,
) -> bool {
    &&& progress == step.2
    &&& actions == step.1
    &&& progress is Failed || after == step.0
}

impl ActiveSourceSearch {
    /// A search whose login was just sent.
    pub fn start(
        server: &ResolvedServerEntry,
        transport: SocketAddrV4,
        login_connect_options: u8,
        file_hash: Ed2kHash,
        file_size: u64,
        now: u64,
    ) -> (r: Self)
        ensures
            r@ == (ActiveSourceView {
                session: in_phase(
                    fresh_session(transport, 0, now),
                    ServerSessionPhase::AwaitingIdChange,
                ),
                base_endpoint: server.base(),
                login_connect_options,
                file_hash: file_hash.0@,
                file_size,
                sources: Seq::empty(),
            }),
    {
        let mut session = ServerSession::new(transport, 0, now);
        session.phase = ServerSessionPhase::AwaitingIdChange;
        let r = ActiveSourceSearch {
            session,
            base_endpoint: server.base_endpoint(),
            login_connect_options,
            file_hash,
            file_size,
            sources: Vec::new(),
        };
        assert(source_views(r.sources@) =~= Seq::empty());
        r
    }

    /// A packet comes in.
    pub fn on_packet(
        &mut self,
        packet: &Ed2kPacket,
        context: &ServerSessionContext,
        now: u64,
    ) -> (r: (Vec<SessionAction>, ActiveProgress))
        requires
            packet.opcode == OP_IDCHANGE ==> active_login_fits(
                old(self)@.session,
                packet.payload@,
                context@,
            ),
        ensures
            source_step_is(
                source_packet(
                    old(self)@,
                    packet.opcode,
                    packet.payload@,
                    context@,
                    now,
                ),
                final(self)@,
                action_views(r.0@),
                r.1,
            ),
    {
        let mut actions: Vec<SessionAction> = Vec::new();
        assert(action_views(actions@) =~= Seq::empty());
        if packet.opcode == OP_IDCHANGE {
            if let Some(e) = accept_active_login(
                &mut self.session,
                packet.payload.as_slice(),
                context,
                now,
                &mut actions,
            ) {
                return (actions, ActiveProgress::Failed(e));
            }
            let opcode: u8 = source_request_opcode(
                self.login_connect_options,
                self.session.server_flags,
            );
            let payload: Vec<u8> = encode_source_request(self.file_hash, self.file_size);
            push_action(&mut actions, SessionAction::Send { opcode, payload });
            self.session.phase = ServerSessionPhase::SearchActive;
            self.session.last_tx = now;
            proof {
                let login = active_login(
                    old(self)@.session,
                    packet.payload@,
                    context@,
                    now,
                )->Ok_0;
                assert(Seq::<ActionView>::empty() + login.1 =~= login.1);
            }
            return (actions, ActiveProgress::Going);
        }
        if packet.opcode == OP_FOUNDSOURCES || packet.opcode == OP_FOUNDSOURCES_OBFU {
            let sources: Vec<Ed2kFoundSource> = match decode_found_sources(
                packet.payload.as_slice(),
                packet.opcode == OP_FOUNDSOURCES_OBFU,
            ) {
                Ok(sources) => sources,
                Err(e) => return (actions, ActiveProgress::Failed(ServerError::Results(e))),
            };
            if validate_found_sources(&sources, self.file_hash).is_err() {
                return (actions, ActiveProgress::Failed(ServerError::UnexpectedFileHash));
            }
            self.sources = annotate_found_sources_server(sources, self.base_endpoint);
            self.session.phase = ServerSessionPhase::Completed;
            return (actions, ActiveProgress::Complete);
        }
        if packet.opcode == OP_REJECT {
            return (actions, ActiveProgress::Failed(ServerError::Rejected));
        }
        (actions, ActiveProgress::Going)
    }

    /// The sources found, none where the server closed the connection before it
    /// answered.
    pub fn into_sources(self) -> (r: Vec<Ed2kFoundSource>)
        ensures
            source_views(r@) == self@.sources,
    {
        self.sources
    }
}

/// A search is complete only with sources of its own file.
pub proof fn law_found_sources_are_of_the_file(
    v: ActiveSourceView,
    opcode: u8,
    b: Seq<u8>,
    c: ContextView,
    now: u64,
)
    ensures
        ({
            let step = source_packet(v, opcode, b, c, now);
            step.2 is Complete ==> all_of_file(step.0.sources, v.file_hash)
        }),
{
    let step = source_packet(v, opcode, b, c, now);
    if step.2 is Complete {
        let sources = whole_source_set(b, opcode == OP_FOUNDSOURCES_OBFU)->Ok_0;
        assert forall|i: int| 0 <= i < step.0.sources.len() implies (
        #[trigger] step.0.sources[i]).file_hash == v.file_hash by {
            assert(sources[i].file_hash == v.file_hash);
        }
    }
}

/// The file is asked for once the login is answered, by its hash and size.
pub proof fn law_file_is_asked_for_after_the_login(
    v: ActiveSourceView,
    b: Seq<u8>,
    c: ContextView,
    now: u64,
)
    requires
        active_login(v.session, b, c, now) is Ok,
        v.file_hash.len() == 16,
    ensures
        ({
            let (after, actions, progress) = source_packet(v, 0x40, b, c, now);
            &&& progress == ActiveProgress::Going
            &&& actions.len() > 0
            &&& actions.last() matches ActionView::Send(opcode, payload) && (opcode == 0x19
                || opcode == 0x23) && payload.subrange(0, 16) == v.file_hash
                && super::request_forms::requested_size(payload) == v.file_size
            &&& after.sources == v.sources
        }),
{
    super::request_forms::law_source_request_reads_back(v.file_hash, v.file_size);
}

/// The sources of the file complete the search, each labelled with the server,
/// plain or obfuscated by the opcode of the answer; sources of another file, an
/// answer that cannot be read and a rejection fail it; no other packet does
/// anything.
pub proof fn law_answer_completes_the_source_search(
    v: ActiveSourceView,
    opcode: u8,
    b: Seq<u8>,
    c: ContextView,
    now: u64,
)
    requires
        opcode != 0x40,
    ensures
        ({
            let (after, actions, progress) = source_packet(v, opcode, b, c, now);
            &&& actions.len() == 0
            &&& opcode == 0x42 || opcode == 0x44 ==> match whole_source_set(b, opcode == 0x44) {
                Ok(sources) => if all_of_file(sources, v.file_hash) {
                    &&& progress == ActiveProgress::Complete
                    &&& after.sources.len() == sources.len()
                    &&& forall|i: int|
                        0 <= i < sources.len() ==> #[trigger] after.sources[i] == (
                        FoundSourceView { source_server: Some(v.base_endpoint), ..sources[i] })
                } else {
                    progress == ActiveProgress::Failed(ServerError::UnexpectedFileHash)
                },
                Err(e) => progress == ActiveProgress::Failed(ServerError::Results(e)),
            }
            &&& opcode == 0x05 ==> progress == ActiveProgress::Failed(ServerError::Rejected)
            &&& opcode != 0x42 && opcode != 0x44 && opcode != 0x05 ==> after == v && progress
                == ActiveProgress::Going
        }),
{
}

} // verus!
