//! Searches, callbacks and offers that others ask of the long-lived session.
//!
//! A request carries a number by which its answer finds its way back. The
//! session answers a request once, or drops it where it dies with it.
use vstd::prelude::*;

use super::packet_handler::{ContextView, ServerError, ServerSessionContext};
use super::result_decoder::{
    decode_udp_found_source_sets, decode_udp_search_result_pages, page_views, pages_from,
    source_set_views, source_sets_from, PageView, SearchResultPage,
};
use super::search_expr::{
    encode_search_request_with_criteria, search_request, CriteriaView, SearchCriteria,
};
use super::server_entry::ResolvedServerEntry;
use super::server_status::{decode_server_status_response, status_answer};
use super::session::{
    action_views, advertised, can_go_out, cancelled_publish_stats, dispatch, dispatched,
    goes_out_at, offer_fits, send_offer_files_advertisement, settle_wait, ActionView,
    OfferFilesPublishStats, ServerSession, SessionAction, SessionView,
};
use super::source_utils::{
    all_of_file, annotate_found_sources_server, annotated, merge_found_sources, merged,
    validate_found_sources,
};
use super::startup::{
    encode_source_request, source_opcode, source_request, source_request_opcode,
};
use super::types::{
    file_views, source_views, Ed2kFoundSource, Ed2kSearchFile, Ed2kServerState, FoundSourceView,
    SearchFileView, StateView,
};
use super::{
    OP_CALLBACKREQUEST, OP_GLOBFOUNDSOURCES, OP_GLOBSEARCHRES, OP_GLOBSERVSTATRES, OP_SEARCHREQUEST,
};
use crate::addr::{IpAddr, SocketAddr, SocketAddrV4};
use crate::bytes::{push_u32, u32_le};
use crate::ids::Ed2kHash;

verus! {

/// A request that never ran to its end on a live session. Whoever made it may
/// make it again; it does not mean that there were no results.
#[derive(Debug, Clone, PartialEq, Eq)]
pub struct Ed2kBackgroundSearchInterrupted(pub String);

/// Why a request failed. `interrupted` tells a session that went away from a
/// server that did not answer.
#[derive(Debug, Clone, PartialEq, Eq)]
pub struct BackgroundSearchFailure {
    pub message: String,
    pub interrupted: bool,
}

/// A failure as whoever made the request sees it.
#[derive(Debug, Clone, PartialEq, Eq)]
pub enum BackgroundSearchError {
    /// The request may be made again.
    Interrupted(Ed2kBackgroundSearchInterrupted),
    Failed(String),
    /// No answer came within so many milliseconds.
    TimedOut(u64),
}

/// What an error says.
pub enum ErrorView {
    Interrupted(Seq<char>),
    Failed(Seq<char>),
    TimedOut(u64),
}

impl View for BackgroundSearchError {
    type V = ErrorView;

    open spec fn view(&self) -> ErrorView {
        match *self {
            BackgroundSearchError::Interrupted(e) => ErrorView::Interrupted(e.0@),
            BackgroundSearchError::Failed(message) => ErrorView::Failed(message@),
            BackgroundSearchError::TimedOut(millis) => ErrorView::TimedOut(millis),
        }
    }
}

impl BackgroundSearchFailure {
    /// A session that went away.
    pub fn interrupted(message: String) -> (r: Self)
        ensures
            r.message == message,
            r.interrupted,
    {
        BackgroundSearchFailure { message, interrupted: true }
    }

    /// A server that did not answer in time.
    pub fn timed_out(message: String) -> (r: Self)
        ensures
            r.message == message,
            !r.interrupted,
    {
        BackgroundSearchFailure { message, interrupted: false }
    }

    /// The failure as whoever made the request sees it.
    pub fn into_error(self) -> (r: BackgroundSearchError)
        ensures
            r == if self.interrupted {
                BackgroundSearchError::Interrupted(Ed2kBackgroundSearchInterrupted(self.message))
            } else {
                BackgroundSearchError::Failed(self.message)
            },
    {
        if self.interrupted {
            BackgroundSearchError::Interrupted(Ed2kBackgroundSearchInterrupted(self.message))
        } else {
            BackgroundSearchError::Failed(self.message)
        }
    }
}

/// How waiting for an answer ended.
#[derive(Debug)]
pub enum BackgroundReply<T> {
    /// Whoever made the request cancelled it.
    Cancelled,
    /// There is no session to ask.
    ChannelClosed,
    /// No answer came within so many milliseconds.
    TimedOut(u64),
    /// The session died before it answered.
    Dropped,
    /// The session answered.
    Answered(Result<T, BackgroundSearchFailure>),
}

/// The error that a failure is for whoever made the request.
pub open spec fn failure_view(f: BackgroundSearchFailure) -> ErrorView {
    if f.interrupted {
        ErrorView::Interrupted(f.message@)
    } else {
        ErrorView::Failed(f.message@)
    }
}

/// Whether a request was never carried out: it reached no session, or its
/// session was over before it was answered.
pub open spec fn is_lost<T>(reply: BackgroundReply<T>) -> bool {
    ||| reply is ChannelClosed
    ||| reply is Dropped
    ||| reply matches BackgroundReply::Answered(Err(f)) && f.interrupted
}

/// What a request comes to: nothing lost where it was cancelled, else the
/// answer or an error.
pub open spec fn reply_error<T>(
    reply: BackgroundReply<T>,
    closed: Seq<char>,
    dropped: Seq<char>,
) -> Option<ErrorView> {
    match reply {
        BackgroundReply::Cancelled => None,
        BackgroundReply::ChannelClosed => Some(ErrorView::Interrupted(closed)),
        BackgroundReply::TimedOut(millis) => Some(ErrorView::TimedOut(millis)),
        BackgroundReply::Dropped => Some(ErrorView::Interrupted(dropped)),
        BackgroundReply::Answered(Ok(_)) => None,
        BackgroundReply::Answered(Err(f)) => Some(failure_view(f)),
    }
}

fn no_answer(text: &str) -> (r: BackgroundSearchError)
    ensures
        r@ == ErrorView::Interrupted(text@),
{
    BackgroundSearchError::Interrupted(Ed2kBackgroundSearchInterrupted(text.to_owned()))
}

fn settle_reply<T>(
    reply: BackgroundReply<T>,
    cancelled: T,
    closed: &str,
    dropped: &str,
) -> (r: Result<T, BackgroundSearchError>)
    ensures
        match r {
            Ok(v) => reply_error(reply, closed@, dropped@) is None && v == match reply {
                BackgroundReply::Answered(Ok(answer)) => answer,
                _ => cancelled,
            },
            Err(e) => reply_error(reply, closed@, dropped@) == Some(e@),
        },
{
    match reply {
        BackgroundReply::Cancelled => Ok(cancelled),
        BackgroundReply::ChannelClosed => Err(no_answer(closed)),
        BackgroundReply::TimedOut(millis) => Err(BackgroundSearchError::TimedOut(millis)),
        BackgroundReply::Dropped => Err(no_answer(dropped)),
        BackgroundReply::Answered(Ok(answer)) => Ok(answer),
        BackgroundReply::Answered(Err(f)) => Err(f.into_error()),
    }
}

/// What a keyword search on the session comes to. A search that never reached
/// a session, or whose session died, may be made again; one that was cancelled
/// found nothing.
pub fn settle_keyword_reply(reply: BackgroundReply<Vec<Ed2kSearchFile>>) -> (r: Result<
    Vec<Ed2kSearchFile>,
    BackgroundSearchError,
>)
    ensures
        match r {
            Ok(v) => match reply {
                BackgroundReply::Answered(Ok(answer)) => v == answer,
                _ => reply is Cancelled && v@.len() == 0,
            },
            Err(e) => reply_error(
                reply,
                "ED2K background search channel is closed"@,
                "ED2K background search responder dropped"@,
            ) == Some(e@),
        },
        is_lost(reply) ==> (r matches Err(e) && e@ is Interrupted),
{
    settle_reply(
        reply,
        Vec::new(),
        "ED2K background search channel is closed",
        "ED2K background search responder dropped",
    )
}

/// What a source search on the session comes to.
pub fn settle_source_reply(reply: BackgroundReply<Vec<Ed2kFoundSource>>) -> (r: Result<
    Vec<Ed2kFoundSource>,
    BackgroundSearchError,
>)
    ensures
        match r {
            Ok(v) => match reply {
                BackgroundReply::Answered(Ok(answer)) => v == answer,
                _ => reply is Cancelled && v@.len() == 0,
            },
            Err(e) => reply_error(
                reply,
                "ED2K background search channel is closed"@,
                "ED2K background source responder dropped"@,
            ) == Some(e@),
        },
        is_lost(reply) ==> (r matches Err(e) && e@ is Interrupted),
{
    settle_reply(
        reply,
        Vec::new(),
        "ED2K background search channel is closed",
        "ED2K background source responder dropped",
    )
}

/// What a callback request on the session comes to.
pub fn settle_callback_reply(reply: BackgroundReply<()>) -> (r: Result<(), BackgroundSearchError>)
    ensures
        match r {
            Ok(_) => reply is Cancelled || reply matches BackgroundReply::Answered(Ok(_)),
            Err(e) => reply_error(
                reply,
                "ED2K background callback channel is closed"@,
                "ED2K background callback responder dropped"@,
            ) == Some(e@),
        },
        is_lost(reply) ==> (r matches Err(e) && e@ is Interrupted),
{
    settle_reply(
        reply,
        (),
        "ED2K background callback channel is closed",
        "ED2K background callback responder dropped",
    )
}

/// What an offer of files on the session comes to.
pub fn settle_publish_reply(reply: BackgroundReply<OfferFilesPublishStats>) -> (r: Result<
    OfferFilesPublishStats,
    BackgroundSearchError,
>)
    ensures
        match r {
            Ok(v) => match reply {
                BackgroundReply::Answered(Ok(answer)) => v == answer,
                _ => reply is Cancelled && v == (OfferFilesPublishStats {
                    entries_sent: 0,
                    total_entries: 0,
                    next_cursor: 0,
                    wrapped: true,
                    skipped_duplicate_batch: true,
                }),
            },
            Err(e) => reply_error(
                reply,
                "ED2K background publish channel is closed"@,
                "ED2K background publish responder dropped"@,
            ) == Some(e@),
        },
        is_lost(reply) ==> (r matches Err(e) && e@ is Interrupted),
{
    settle_reply(
        reply,
        cancelled_publish_stats(),
        "ED2K background publish channel is closed",
        "ED2K background publish responder dropped",
    )
}

/// How many requests may wait for the session: one at the least.
pub fn search_channel_capacity(capacity: usize) -> (r: usize)
    ensures
        r == if capacity < 1 {
            1
        } else {
            capacity
        },
{
    if capacity < 1 {
        1
    } else {
        capacity
    }
}

/// A request that is over without an answer of the session is never taken for
/// one that was carried out: it fails, and it may be made again. So it is with
/// every kind of request, whatever the texts that its failure comes with.
pub proof fn law_lost_request_is_retryable<T>(
    reply: BackgroundReply<T>,
    closed: Seq<char>,
    dropped: Seq<char>,
)
    requires
        is_lost(reply),
    ensures
        reply_error(reply, closed, dropped) matches Some(ErrorView::Interrupted(_)),
{
}

/// What is asked of the session.
#[derive(Debug)]
pub enum BackgroundServerSearchRequest {
    Keyword { id: u64, query: String, criteria: SearchCriteria, timeout: u64 },
    Source { id: u64, file_hash: Ed2kHash, file_size: u64, timeout: u64 },
    Callback { id: u64, client_id: u32 },
    Publish { id: u64 },
}

impl BackgroundServerSearchRequest {
    /// The number of a request.
    pub open spec fn number(self) -> u64 {
        match self {
            BackgroundServerSearchRequest::Keyword { id, .. } => id,
            BackgroundServerSearchRequest::Source { id, .. } => id,
            BackgroundServerSearchRequest::Callback { id, .. } => id,
            BackgroundServerSearchRequest::Publish { id } => id,
        }
    }

    /// The number of a request.
    pub fn id(&self) -> (r: u64)
        ensures
            r == self.number(),
    {
        match self {
            BackgroundServerSearchRequest::Keyword { id, .. } => *id,
            BackgroundServerSearchRequest::Source { id, .. } => *id,
            BackgroundServerSearchRequest::Callback { id, .. } => *id,
            BackgroundServerSearchRequest::Publish { id } => *id,
        }
    }
}

/// A search that waits for its answer.
#[derive(Debug)]
pub enum PendingBackgroundServerSearch {
    Keyword {
        id: u64,
        query: String,
        deadline: u64,
        results: Vec<Ed2kSearchFile>,
        page_count: u32,
    },
    Source { id: u64, file_hash: Ed2kHash, deadline: u64 },
}

/// What a search that waits for its answer holds.
pub enum PendingView {
    Keyword {
        id: u64,
        query: Seq<char>,
        deadline: u64,
        results: Seq<SearchFileView>,
        page_count: u32,
    },
    Source { id: u64, file_hash: Seq<u8>, deadline: u64 },
}

impl View for PendingBackgroundServerSearch {
    type V = PendingView;

    open spec fn view(&self) -> PendingView {
        match *self {
            PendingBackgroundServerSearch::Keyword { id, query, deadline, results, page_count } => {
                PendingView::Keyword {
                    id,
                    query: query@,
                    deadline,
                    results: file_views(results@),
                    page_count,
                }
            },
            PendingBackgroundServerSearch::Source { id, file_hash, deadline } => {
                PendingView::Source { id, file_hash: file_hash.0@, deadline }
            },
        }
    }
}

/// The number of a search.
pub open spec fn pending_number(p: PendingView) -> u64 {
    match p {
        PendingView::Keyword { id, .. } => id,
        PendingView::Source { id, .. } => id,
    }
}

/// What an optional search holds.
pub open spec fn opt_pending(p: Option<PendingBackgroundServerSearch>) -> Option<PendingView> {
    match p {
        Some(x) => Some(x@),
        None => None,
    }
}

impl PendingBackgroundServerSearch {
    /// The number of a search.
    pub fn id(&self) -> (r: u64)
        ensures
            r == pending_number(self@),
    {
        match self {
            PendingBackgroundServerSearch::Keyword { id, .. } => *id,
            PendingBackgroundServerSearch::Source { id, .. } => *id,
        }
    }

    /// When the search gives up.
    pub fn deadline(&self) -> (r: u64)
        ensures
            r == match self@ {
                PendingView::Keyword { deadline, .. } => deadline,
                PendingView::Source { deadline, .. } => deadline,
            },
    {
        match self {
            PendingBackgroundServerSearch::Keyword { deadline, .. } => *deadline,
            PendingBackgroundServerSearch::Source { deadline, .. } => *deadline,
        }
    }
}

/// What a request is answered with.
#[derive(Debug)]
pub enum BackgroundAnswer {
    Files { id: u64, files: Vec<Ed2kSearchFile> },
    Sources { id: u64, sources: Vec<Ed2kFoundSource> },
    CallbackSent { id: u64 },
    Published { id: u64, stats: OfferFilesPublishStats },
    Failed { id: u64, failure: BackgroundSearchFailure },
    /// The request dies unanswered, which whoever made it sees as interrupted.
    Dropped { id: u64 },
}

/// What an answer says.
pub enum AnswerView {
    Files(u64, Seq<SearchFileView>),
    Sources(u64, Seq<FoundSourceView>),
    CallbackSent(u64),
    Published(u64, OfferFilesPublishStats),
    Failed(u64, Seq<char>, bool),
    Dropped(u64),
}

impl View for BackgroundAnswer {
    type V = AnswerView;

    open spec fn view(&self) -> AnswerView {
        match *self {
            BackgroundAnswer::Files { id, files } => AnswerView::Files(id, file_views(files@)),
            BackgroundAnswer::Sources { id, sources } => AnswerView::Sources(
                id,
                source_views(sources@),
            ),
            BackgroundAnswer::CallbackSent { id } => AnswerView::CallbackSent(id),
            BackgroundAnswer::Published { id, stats } => AnswerView::Published(id, stats),
            BackgroundAnswer::Failed { id, failure } => AnswerView::Failed(
                id,
                failure.message@,
                failure.interrupted,
            ),
            BackgroundAnswer::Dropped { id } => AnswerView::Dropped(id),
        }
    }
}

/// The number of the request that an answer is for.
pub open spec fn answer_number(a: AnswerView) -> u64 {
    match a {
        AnswerView::Files(id, _) => id,
        AnswerView::Sources(id, _) => id,
        AnswerView::CallbackSent(id) => id,
        AnswerView::Published(id, _) => id,
        AnswerView::Failed(id, _, _) => id,
        AnswerView::Dropped(id) => id,
    }
}

/// What an optional answer says.
pub open spec fn opt_answer(a: Option<BackgroundAnswer>) -> Option<AnswerView> {
    match a {
        Some(x) => Some(x@),
        None => None,
    }
}

/// The answer that fails a request that was not dispatched yet.
pub open spec fn request_failed(
    request: Option<BackgroundServerSearchRequest>,
    message: Seq<char>,
    interrupted: bool,
) -> Option<AnswerView> {
    match request {
        Some(r) => Some(AnswerView::Failed(r.number(), message, interrupted)),
        None => None,
    }
}

/// The answer that fails a search that waits for its answer.
pub open spec fn pending_failed(
    pending: Option<PendingView>,
    message: Seq<char>,
    interrupted: bool,
) -> Option<AnswerView> {
    match pending {
        Some(p) => Some(AnswerView::Failed(pending_number(p), message, interrupted)),
        None => None,
    }
}

/// Fails a request that was not dispatched yet.
pub fn fail_background_search_request(
    request: &mut Option<BackgroundServerSearchRequest>,
    failure: BackgroundSearchFailure,
) -> (r: Option<BackgroundAnswer>)
    ensures
        *final(request) is None,
        opt_answer(r) == request_failed(*old(request), failure.message@, failure.interrupted),
{
    match request.take() {
        Some(r) => Some(BackgroundAnswer::Failed { id: r.id(), failure }),
        None => None,
    }
}

/// Fails a search that waits for its answer.
pub fn fail_pending_background_search(
    pending: &mut Option<PendingBackgroundServerSearch>,
    failure: BackgroundSearchFailure,
) -> (r: Option<BackgroundAnswer>)
    ensures
        *final(pending) is None,
        opt_answer(r) == pending_failed(
            opt_pending(*old(pending)),
            failure.message@,
            failure.interrupted,
        ),
{
    match pending.take() {
        Some(p) => Some(BackgroundAnswer::Failed { id: p.id(), failure }),
        None => None,
    }
}

// ---------------------------------------------------------------------------
// Starting a request
// ---------------------------------------------------------------------------
/// What starting a request comes to.
pub struct StartedView {
    pub session: SessionView,
    pub pending: Option<PendingView>,
    pub answer: Option<AnswerView>,
    pub actions: Seq<ActionView>,
    pub error: Option<ServerError>,
}

/// What starting a keyword search comes to. An expression that cannot be
/// asked is dropped; one that says nothing is answered with no file.
pub open spec fn keyword_started(
    s: SessionView,
    id: u64,
    query: Seq<char>,
    criteria: CriteriaView,
    timeout: u64,
    now: u64,
) -> StartedView {
    match search_request(query, criteria) {
        Err(e) => StartedView {
            session: s,
            pending: None,
            answer: Some(AnswerView::Dropped(id)),
            actions: Seq::empty(),
            error: Some(ServerError::Search(e)),
        },
        Ok(payload) => if payload.len() == 0 {
            StartedView {
                session: s,
                pending: None,
                answer: Some(AnswerView::Files(id, Seq::empty())),
                actions: Seq::empty(),
                error: Some(ServerError::EmptySearch),
            }
        } else {
            let d = dispatched(s, OP_SEARCHREQUEST, payload, now);
            StartedView {
                session: d.0,
                pending: Some(
                    PendingView::Keyword {
                        id,
                        query,
                        deadline: (goes_out_at(s, now) + timeout) as u64,
                        results: Seq::empty(),
                        page_count: 0,
                    },
                ),
                answer: None,
                actions: d.1,
                error: None,
            }
        },
    }
}

/// What starting a request comes to.
pub open spec fn request_started(
    s: SessionView,
    request: BackgroundServerSearchRequest,
    c: ContextView,
    now: u64,
) -> StartedView {
    match request {
        BackgroundServerSearchRequest::Keyword { id, query, criteria, timeout } => keyword_started(
            s,
            id,
            query@,
            criteria@,
            timeout,
            now,
        ),
        BackgroundServerSearchRequest::Source { id, file_hash, file_size, timeout } => {
            let d = dispatched(
                s,
                source_opcode(c.connect_options, s.server_flags),
                source_request(file_hash.0@, file_size),
                now,
            );
            StartedView {
                session: d.0,
                pending: Some(
                    PendingView::Source {
                        id,
                        file_hash: file_hash.0@,
                        deadline: (goes_out_at(s, now) + timeout) as u64,
                    },
                ),
                answer: None,
                actions: d.1,
                error: None,
            }
        },
        BackgroundServerSearchRequest::Callback { id, client_id } => {
            let d = dispatched(s, OP_CALLBACKREQUEST, u32_le(client_id), now);
            StartedView {
                session: d.0,
                pending: None,
                answer: Some(AnswerView::CallbackSent(id)),
                actions: d.1,
                error: None,
            }
        },
        BackgroundServerSearchRequest::Publish { id } => {
            let a = advertised(s, c.catalog, c.bind_ip, c.tcp_port, now);
            StartedView {
                session: a.0,
                pending: None,
                answer: Some(AnswerView::Published(id, a.2)),
                actions: a.1,
                error: None,
            }
        },
    }
}

/// Whether a request can start: the time at which its answer is given up is on
/// the clock, and the names of an offer fit.
pub open spec fn request_fits(
    s: SessionView,
    request: BackgroundServerSearchRequest,
    c: ContextView,
    now: u64,
) -> bool {
    match request {
        BackgroundServerSearchRequest::Keyword { query, criteria, timeout, .. } => {
            search_request(query@, criteria@) matches Ok(payload) ==> payload.len() > 0 ==> now
                + settle_wait(s, now) + timeout <= u64::MAX
        },
        BackgroundServerSearchRequest::Source { timeout, .. } => now + settle_wait(s, now) + timeout
            <= u64::MAX,
        BackgroundServerSearchRequest::Callback { .. } => can_go_out(s, now),
        BackgroundServerSearchRequest::Publish { .. } => offer_fits(s, c.catalog),
    }
}

/// What starting a request came to.
#[derive(Debug)]
pub struct StartedRequest {
    pub pending: Option<PendingBackgroundServerSearch>,
    pub answer: Option<BackgroundAnswer>,
    pub error: Option<ServerError>,
}

/// Starts a request on the session.
pub fn start_background_server_search(
    session: &mut ServerSession,
    context: &ServerSessionContext,
    request: BackgroundServerSearchRequest,
    now: u64,
    actions: &mut Vec<SessionAction>,
) -> (r: StartedRequest)
    requires
        request_fits(old(session)@, request, context@, now),
    ensures
        ({
            let started = request_started(old(session)@, request, context@, now);
            &&& final(session)@ == started.session
            &&& opt_pending(r.pending) == started.pending
            &&& opt_answer(r.answer) == started.answer
            &&& action_views(final(actions)@) == action_views(old(actions)@) + started.actions
            &&& r.error == started.error
        }),
{
    assert(action_views(actions@) + Seq::<ActionView>::empty() =~= action_views(actions@));
    match request {
        BackgroundServerSearchRequest::Keyword { id, query, criteria, timeout } => {
            let payload: Vec<u8> = match encode_search_request_with_criteria(
                query.as_str(),
                &criteria,
            ) {
                Ok(p) => p,
                Err(e) => {
                    return StartedRequest {
                        pending: None,
                        answer: Some(BackgroundAnswer::Dropped { id }),
                        error: Some(ServerError::Search(e)),
                    };
                },
            };
            let results: Vec<Ed2kSearchFile> = Vec::new();
            assert(file_views(results@) =~= Seq::empty());
            if payload.len() == 0 {
                return StartedRequest {
                    pending: None,
                    answer: Some(BackgroundAnswer::Files { id, files: results }),
                    error: Some(ServerError::EmptySearch),
                };
            }
            let at: u64 = dispatch(session, OP_SEARCHREQUEST, payload, now, actions);
            let deadline: u64 = at + timeout;
            StartedRequest {
                pending: Some(
                    PendingBackgroundServerSearch::Keyword {
                        id,
                        query,
                        deadline,
                        results,
                        page_count: 0,
                    },
                ),
                answer: None,
                error: None,
            }
        },
        BackgroundServerSearchRequest::Source { id, file_hash, file_size, timeout } => {
            let opcode: u8 = source_request_opcode(context.connect_options, session.server_flags);
            let payload: Vec<u8> = encode_source_request(file_hash, file_size);
            let at: u64 = dispatch(session, opcode, payload, now, actions);
            let deadline: u64 = at + timeout;
            StartedRequest {
                pending: Some(PendingBackgroundServerSearch::Source { id, file_hash, deadline }),
                answer: None,
                error: None,
            }
        },
        BackgroundServerSearchRequest::Callback { id, client_id } => {
            let mut payload: Vec<u8> = Vec::new();
            push_u32(&mut payload, client_id);
            assert(payload@ =~= u32_le(client_id));
            let _ = dispatch(session, OP_CALLBACKREQUEST, payload, now, actions);
            StartedRequest {
                pending: None,
                answer: Some(BackgroundAnswer::CallbackSent { id }),
                error: None,
            }
        },
        BackgroundServerSearchRequest::Publish { id } => {
            let stats = send_offer_files_advertisement(
                session,
                &context.shared_catalog,
                context.bind_ip,
                context.tcp_port,
                now,
                actions,
            );
            StartedRequest {
                pending: None,
                answer: Some(BackgroundAnswer::Published { id, stats }),
                error: None,
            }
        },
    }
}

// ---------------------------------------------------------------------------
// Answers over UDP
// ---------------------------------------------------------------------------
/// A datagram from a server.
#[derive(Debug, PartialEq, Eq)]
pub struct ServerUdpPacket {
    pub from: SocketAddr,
    pub opcode: u8,
    pub payload: Vec<u8>,
}

/// The files of pages, one page behind the other.
pub open spec fn files_of(pages: Seq<PageView>) -> Seq<SearchFileView>
    decreases pages.len(),
{
    if pages.len() == 0 {
        Seq::empty()
    } else {
        files_of(pages.drop_last()) + pages.last().files
    }
}

/// Lists of sources, labelled and merged; nothing where one of them is not of
/// the file.
pub open spec fn merged_sets(
    sets: Seq<Seq<FoundSourceView>>,
    server: SocketAddrV4,
    file_hash: Seq<u8>,
) -> Option<Seq<FoundSourceView>>
    decreases sets.len(),
{
    if sets.len() == 0 {
        Some(Seq::empty())
    } else {
        match merged_sets(sets.drop_last(), server, file_hash) {
            None => None,
            Some(earlier) => if all_of_file(sets.last(), file_hash) {
                Some(merged(earlier, annotated(sets.last(), server)))
            } else {
                None
            },
        }
    }
}

/// What a datagram comes to.
pub struct UdpHandledView {
    pub pending: Option<PendingView>,
    pub state: StateView,
    pub challenge: Option<u32>,
    pub answer: Option<AnswerView>,
}

/// What a datagram with search results comes to for the search that waits. A
/// datagram that cannot be read leaves a keyword search waiting; it ends a
/// search for sources.
pub open spec fn udp_results(pending: Option<PendingView>, b: Seq<u8>) -> (
    Option<PendingView>,
    Option<AnswerView>,
) {
    match pending {
        None => (None, None),
        Some(PendingView::Source { id, .. }) => (None, Some(AnswerView::Dropped(id))),
        Some(PendingView::Keyword { id, query, deadline, results, page_count }) => match pages_from(
            b,
            Seq::empty(),
        ) {
            Err(_) => (pending, None),
            Ok(pages) => (None, Some(AnswerView::Files(id, results + files_of(pages)))),
        },
    }
}

/// What a datagram with sources comes to for the search that waits. A datagram
/// that cannot be read, or that is about another file, leaves a search for
/// sources waiting; it ends a keyword search.
pub open spec fn udp_sources(
    pending: Option<PendingView>,
    b: Seq<u8>,
    server: SocketAddrV4,
) -> (Option<PendingView>, Option<AnswerView>) {
    match pending {
        None => (None, None),
        Some(PendingView::Keyword { id, .. }) => (None, Some(AnswerView::Dropped(id))),
        Some(PendingView::Source { id, file_hash, deadline }) => match source_sets_from(
            b,
            Seq::empty(),
        ) {
            Err(_) => (pending, None),
            Ok(sets) => match merged_sets(sets, server, file_hash) {
                None => (pending, None),
                Some(sources) => (None, Some(AnswerView::Sources(id, sources))),
            },
        },
    }
}

/// What is known once a status answer to `challenge` came in, and whether the
/// challenge is used up.
pub open spec fn udp_status(st: StateView, challenge: Option<u32>, b: Seq<u8>) -> (
    StateView,
    Option<u32>,
) {
    match challenge {
        None => (st, None),
        Some(expected) => match status_answer(b, expected) {
            None => (st, challenge),
            Some(status) => (
                StateView {
                    server_users: Some(status.users),
                    server_files: Some(status.files),
                    server_udp_flags: if status.udp_flags is Some {
                        status.udp_flags
                    } else {
                        st.server_udp_flags
                    },
                    ..st
                },
                None,
            ),
        },
    }
}

/// What a datagram comes to. One that is not from the server's address is
/// ignored.
pub open spec fn udp_handled(
    server: ResolvedServerEntry,
    from: SocketAddr,
    opcode: u8,
    b: Seq<u8>,
    pending: Option<PendingView>,
    st: StateView,
    challenge: Option<u32>,
) -> UdpHandledView {
    let ignored = UdpHandledView { pending, state: st, challenge, answer: None };
    if from.ip != IpAddr::V4(server.ip) {
        ignored
    } else if opcode == OP_GLOBSEARCHRES {
        let r = udp_results(pending, b);
        UdpHandledView { pending: r.0, answer: r.1, ..ignored }
    } else if opcode == OP_GLOBFOUNDSOURCES {
        let r = udp_sources(pending, b, server.base());
        UdpHandledView { pending: r.0, answer: r.1, ..ignored }
    } else if opcode == OP_GLOBSERVSTATRES {
        let r = udp_status(st, challenge, b);
        UdpHandledView { state: r.0, challenge: r.1, ..ignored }
    } else {
        ignored
    }
}

/// Appends the files of every page.
pub fn collect_files(results: &mut Vec<Ed2kSearchFile>, pages: Vec<SearchResultPage>)
    ensures
        file_views(final(results)@) == file_views(old(results)@) + files_of(page_views(pages@)),
{
    let ghost views = page_views(pages@);
    let ghost before = file_views(results@);
    let mut rest: Vec<SearchResultPage> = pages;
    let mut tail: Vec<Ed2kSearchFile> = Vec::new();
    let ghost n = views.len();
    assert(views.take(n as int) =~= views);
    assert(files_of(views) + file_views(tail@) =~= files_of(views));
    while rest.len() > 0
        invariant
            rest@.len() <= n,
            n == views.len(),
            page_views(rest@) == views.take(rest@.len() as int),
            files_of(page_views(rest@)) + file_views(tail@) == files_of(views),
            file_views(results@) == before,
        decreases rest@.len(),
    {
        let ghost all = page_views(rest@);
        let ghost held = file_views(tail@);
        if let Some(page) = rest.pop() {
            let ghost page_view = page@;
            proof {
                assert(all.last() == page_view);
                assert(all.drop_last() =~= page_views(rest@));
                assert(page_views(rest@) =~= views.take(rest@.len() as int));
            }
            let mut files: Vec<Ed2kSearchFile> = page.files;
            let ghost own = file_views(files@);
            files.append(&mut tail);
            assert(file_views(files@) =~= own + held);
            tail = files;
            assert(files_of(page_views(rest@)) + file_views(tail@) =~= files_of(all) + held);
        }
    }
    assert(page_views(rest@) =~= Seq::empty());
    assert(files_of(page_views(rest@)) + file_views(tail@) =~= file_views(tail@));
    results.append(&mut tail);
    assert(file_views(results@) =~= before + files_of(views));
}

/// Labels and merges lists of sources; nothing where one of them is not of the
/// file.
pub fn merge_source_sets(
    sets: Vec<Vec<Ed2kFoundSource>>,
    server: SocketAddrV4,
    file_hash: Ed2kHash,
) -> (r: Option<Vec<Ed2kFoundSource>>)
    ensures
        match r {
            Some(v) => merged_sets(source_set_views(sets@), server, file_hash.0@) == Some(
                source_views(v@),
            ),
            None => merged_sets(source_set_views(sets@), server, file_hash.0@) is None,
        },
{
    let ghost views = source_set_views(sets@);
    let mut aggregated: Vec<Ed2kFoundSource> = Vec::new();
    let mut i: usize = 0;
    assert(views.take(0) =~= Seq::empty());
    assert(source_views(aggregated@) =~= Seq::empty());
    while i < sets.len()
        invariant
            i <= sets@.len(),
            views == source_set_views(sets@),
            merged_sets(views.take(i as int), server, file_hash.0@) == Some(
                source_views(aggregated@),
            ),
        decreases sets@.len() - i,
    {
        let ghost next = views.take(i + 1);
        assert(next.drop_last() =~= views.take(i as int));
        assert(next.last() == source_views(sets@[i as int]@));
        if validate_found_sources(&sets[i], file_hash).is_err() {
            proof {
                lemma_merged_sets_none(views, server, file_hash.0@, i + 1);
            }
            return None;
        }
        let set: Vec<Ed2kFoundSource> = copy_sources(&sets[i]);
        let labelled = annotate_found_sources_server(set, server);
        merge_found_sources(&mut aggregated, labelled);
        i += 1;
    }
    assert(views.take(i as int) =~= views);
    Some(aggregated)
}

proof fn lemma_merged_sets_none(
    sets: Seq<Seq<FoundSourceView>>,
    server: SocketAddrV4,
    file_hash: Seq<u8>,
    n: int,
)
    requires
        0 <= n <= sets.len(),
        merged_sets(sets.take(n), server, file_hash) is None,
    ensures
        merged_sets(sets, server, file_hash) is None,
    decreases sets.len() - n,
{
    if n < sets.len() {
        assert(sets.take(n + 1).drop_last() =~= sets.take(n));
        lemma_merged_sets_none(sets, server, file_hash, n + 1);
    } else {
        assert(sets.take(n) =~= sets);
    }
}

/// Copies a list of sources.
pub fn copy_sources(sources: &Vec<Ed2kFoundSource>) -> (r: Vec<Ed2kFoundSource>)
    ensures
        r@ == sources@,
{
    let mut r: Vec<Ed2kFoundSource> = Vec::with_capacity(sources.len());
    let mut i: usize = 0;
    while i < sources.len()
        invariant
            i <= sources@.len(),
            r@ == sources@.take(i as int),
        decreases sources@.len() - i,
    {
        r.push(sources[i]);
        assert(r@ =~= sources@.take(i + 1));
        i += 1;
    }
    assert(r@ =~= sources@);
    r
}

/// Handles a datagram from the server's UDP port.
pub fn handle_background_udp_packet(
    server: &ResolvedServerEntry,
    packet: &ServerUdpPacket,
    pending: &mut Option<PendingBackgroundServerSearch>,
    state: &mut Ed2kServerState,
    server_status_challenge: &mut Option<u32>,
) -> (r: Option<BackgroundAnswer>)
    ensures
        udp_handled(
            *server,
            packet.from,
            packet.opcode,
            packet.payload@,
            opt_pending(*old(pending)),
            old(state)@,
            *old(server_status_challenge),
        ) == (UdpHandledView {
            pending: opt_pending(*final(pending)),
            state: final(state)@,
            challenge: *final(server_status_challenge),
            answer: opt_answer(r),
        }),
{
    let from_server: bool = match packet.from.ip {
        IpAddr::V4(ip) => ip == server.ip,
        IpAddr::V6(_) => false,
    };
    if !from_server {
        return None;
    }
    if packet.opcode == OP_GLOBSEARCHRES {
        return match pending.take() {
            None => None,
            Some(PendingBackgroundServerSearch::Source { id, file_hash, deadline }) => Some(
                BackgroundAnswer::Dropped { id },
            ),
            Some(
                PendingBackgroundServerSearch::Keyword { id, query, deadline, results, page_count },
            ) => {
                let mut results: Vec<Ed2kSearchFile> = results;
                match decode_udp_search_result_pages(packet.payload.as_slice()) {
                    Err(_) => {
                        *pending = Some(
                            PendingBackgroundServerSearch::Keyword {
                                id,
                                query,
                                deadline,
                                results,
                                page_count,
                            },
                        );
                        None
                    },
                    Ok(pages) => {
                        collect_files(&mut results, pages);
                        Some(BackgroundAnswer::Files { id, files: results })
                    },
                }
            },
        };
    }
    if packet.opcode == OP_GLOBFOUNDSOURCES {
        return match pending.take() {
            None => None,
            Some(
                PendingBackgroundServerSearch::Keyword { id, query, deadline, results, page_count },
            ) => Some(BackgroundAnswer::Dropped { id }),
            Some(PendingBackgroundServerSearch::Source { id, file_hash, deadline }) => {
                let merged = match decode_udp_found_source_sets(packet.payload.as_slice()) {
                    Err(_) => None,
                    Ok(sets) => merge_source_sets(sets, server.base_endpoint(), file_hash),
                };
                match merged {
                    Some(sources) => Some(BackgroundAnswer::Sources { id, sources }),
                    None => {
                        *pending = Some(
                            PendingBackgroundServerSearch::Source { id, file_hash, deadline },
                        );
                        None
                    },
                }
            },
        };
    }
    if packet.opcode == OP_GLOBSERVSTATRES {
        if let Some(expected) = *server_status_challenge {
            if let Some(status) = decode_server_status_response(
                packet.payload.as_slice(),
                expected,
            ) {
                *server_status_challenge = None;
                state.server_users = Some(status.users);
                state.server_files = Some(status.files);
                if status.udp_flags.is_some() {
                    state.server_udp_flags = status.udp_flags;
                }
            }
        }
    }
    None
}

// ---------------------------------------------------------------------------
// Laws
// ---------------------------------------------------------------------------
/// A datagram either leaves the search that waits as it is and answers
/// nothing, or ends it with one answer of its own.
pub proof fn law_datagram_answers_the_search_or_leaves_it(
    server: ResolvedServerEntry,
    from: SocketAddr,
    opcode: u8,
    b: Seq<u8>,
    pending: Option<PendingView>,
    st: StateView,
    challenge: Option<u32>,
)
    ensures
        ({
            let h = udp_handled(server, from, opcode, b, pending, st, challenge);
            ||| h.pending == pending && h.answer is None
            ||| h.pending is None && pending is Some && h.answer is Some && answer_number(
                h.answer->Some_0,
            ) == pending_number(pending->Some_0)
        }),
{
}

/// A datagram from another address changes nothing.
pub proof fn law_foreign_datagram_is_ignored(
    server: ResolvedServerEntry,
    from: SocketAddr,
    opcode: u8,
    b: Seq<u8>,
    pending: Option<PendingView>,
    st: StateView,
    challenge: Option<u32>,
)
    requires
        from.ip != IpAddr::V4(server.ip),
    ensures
        udp_handled(server, from, opcode, b, pending, st, challenge) == (UdpHandledView {
            pending,
            state: st,
            challenge,
            answer: None,
        }),
{
}

/// A datagram that cannot be read leaves the search that it would answer
/// waiting.
pub proof fn law_malformed_datagram_keeps_the_search(
    server: ResolvedServerEntry,
    from: SocketAddr,
    b: Seq<u8>,
    pending: PendingView,
    st: StateView,
    challenge: Option<u32>,
)
    ensures
        pending is Keyword && pages_from(b, Seq::empty()) is Err ==> udp_handled(
            server,
            from,
            OP_GLOBSEARCHRES,
            b,
            Some(pending),
            st,
            challenge,
        ).pending == Some(pending),
        pending is Source && source_sets_from(b, Seq::empty()) is Err ==> udp_handled(
            server,
            from,
            OP_GLOBFOUNDSOURCES,
            b,
            Some(pending),
            st,
            challenge,
        ).pending == Some(pending),
{
}

/// A status answer counts once: it uses the challenge up.
pub proof fn law_status_answer_counts_once(st: StateView, challenge: u32, b: Seq<u8>, again: Seq<u8>)
    requires
        status_answer(b, challenge) is Some,
    ensures
        ({
            let (after, left) = udp_status(st, Some(challenge), b);
            &&& left is None
            &&& udp_status(after, left, again) == (after, left)
        }),
{
}

/// Starting a request either answers it or leaves it waiting, never both.
pub proof fn law_started_request_waits_or_is_answered(
    s: SessionView,
    request: BackgroundServerSearchRequest,
    c: ContextView,
    now: u64,
)
    ensures
        ({
            let r = request_started(s, request, c, now);
            ||| r.pending is Some && r.answer is None && pending_number(r.pending->Some_0)
                == request.number()
            ||| r.pending is None && r.answer is Some && answer_number(r.answer->Some_0)
                == request.number()
        }),
{
}

/// A keyword search ends with what was there and the files of every page of a
/// datagram, in order.
pub proof fn law_datagram_of_pages_ends_the_search(
    server: ResolvedServerEntry,
    port: u16,
    id: u64,
    query: Seq<char>,
    deadline: u64,
    results: Seq<SearchFileView>,
    page_count: u32,
    st: StateView,
    challenge: Option<u32>,
    entries: Seq<super::result_forms::ListedFile>,
)
    requires
        super::result_forms::all_fit(entries),
    ensures
        ({
            let h = udp_handled(
                server,
                SocketAddr { ip: IpAddr::V4(server.ip), port },
                0x99,
                super::result_forms::page_bytes(entries, None),
                Some(PendingView::Keyword { id, query, deadline, results, page_count }),
                st,
                challenge,
            );
            &&& h.pending is None
            &&& h.answer == Some(
                AnswerView::Files(id, results + super::result_forms::listed_files(entries)),
            )
            &&& h.state == st
            &&& h.challenge == challenge
        }),
{
    let one = seq![(entries, None::<bool>)];
    assert(one[0].0 == entries);
    super::result_forms::law_chained_pages_read_back(one);
    assert(super::result_forms::chain_bytes(one) == super::result_forms::page_bytes(entries, None));
    let pages = pages_from(super::result_forms::page_bytes(entries, None), Seq::empty())->Ok_0;
    assert(pages.len() == 1);
    reveal_with_fuel(files_of, 2);
    assert(files_of(pages) =~= super::result_forms::listed_files(entries));
}

/// The files of pages are those of the first pages and then those of the rest.
pub proof fn law_pages_are_gathered_in_order(first: Seq<PageView>, rest: Seq<PageView>)
    ensures
        files_of(first + rest) == files_of(first) + files_of(rest),
    decreases rest.len(),
{
    if rest.len() == 0 {
        assert(first + rest =~= first);
        assert(files_of(first) + files_of(rest) =~= files_of(first));
    } else {
        law_pages_are_gathered_in_order(first, rest.drop_last());
        assert((first + rest).drop_last() =~= first + rest.drop_last());
        assert((first + rest).last() == rest.last());
        assert(files_of(first + rest) =~= files_of(first) + files_of(rest));
    }
}

/// A search for sources ends with the sources of a datagram where they are all
/// of its file, each labelled with the server; a list of another file leaves it
/// waiting.
pub proof fn law_datagram_of_sources_ends_the_search(
    id: u64,
    file_hash: Seq<u8>,
    deadline: u64,
    set: Seq<FoundSourceView>,
    b: Seq<u8>,
    server: SocketAddrV4,
)
    requires
        source_sets_from(b, Seq::empty()) == Ok::<_, super::result_decoder::ResultError>(seq![set]),
    ensures
        ({
            let p = Some(PendingView::Source { id, file_hash, deadline });
            let r = udp_sources(p, b, server);
            &&& all_of_file(set, file_hash) ==> r == (
                None::<PendingView>,
                Some(AnswerView::Sources(id, merged(Seq::empty(), annotated(set, server)))),
            )
            &&& !all_of_file(set, file_hash) ==> r == (p, None::<AnswerView>)
        }),
{
    let one = seq![set];
    reveal_with_fuel(merged_sets, 2);
    assert(one.drop_last() =~= Seq::empty());
    assert(one.last() == set);
}

/// A status answer that echoes the challenge is remembered: users, files, and
/// the flags where they came along.
pub proof fn law_status_is_remembered(st: StateView, challenge: u32, b: Seq<u8>)
    ensures
        ({
            let (after, left) = udp_status(st, Some(challenge), b);
            match status_answer(b, challenge) {
                None => after == st && left == Some(challenge),
                Some(status) => {
                    &&& after.server_users == Some(status.users)
                    &&& after.server_files == Some(status.files)
                    &&& status.udp_flags is Some ==> after.server_udp_flags == status.udp_flags
                    &&& status.udp_flags is None ==> after.server_udp_flags == st.server_udp_flags
                    &&& after.connected == st.connected
                    &&& after.client_id == st.client_id
                },
            }
        }),
        udp_status(st, None, b) == (st, None::<u32>),
{
}

/// Each kind of request sends its own packet: a search its query, a source
/// search the file, a callback the client, and a search or source search waits
/// for its whole time from when it goes out.
pub proof fn law_each_request_sends_its_packet(
    s: SessionView,
    id: u64,
    client_id: u32,
    file_hash: Ed2kHash,
    file_size: u64,
    timeout: u64,
    c: ContextView,
    now: u64,
)
    requires
        now + 80 + timeout <= u64::MAX,
    ensures
        ({
            let r = request_started(
                s,
                BackgroundServerSearchRequest::Callback { id, client_id },
                c,
                now,
            );
            &&& r.answer == Some(AnswerView::CallbackSent(id))
            &&& r.actions.last() == ActionView::Send(0x1Cu8, u32_le(client_id))
            &&& r.error is None
        }),
        ({
            let r = request_started(
                s,
                BackgroundServerSearchRequest::Source { id, file_hash, file_size, timeout },
                c,
                now,
            );
            &&& r.answer is None
            &&& r.error is None
            &&& r.pending == Some(
                PendingView::Source {
                    id,
                    file_hash: file_hash.0@,
                    deadline: (now + settle_wait(s, now) + timeout) as u64,
                },
            )
            &&& r.actions.last() matches ActionView::Send(opcode, payload) && (opcode == 0x19
                || opcode == 0x23) && payload.subrange(0, 16) == file_hash.0@
                && super::request_forms::requested_size(payload) == file_size
        }),
{
    super::request_forms::law_source_request_reads_back(file_hash.0@, file_size);
}

/// A keyword search sends its query and waits for its whole time; one that says
/// nothing is answered with no file at once, and one that cannot be encoded is
/// dropped.
pub proof fn law_keyword_search_starts(
    s: SessionView,
    id: u64,
    query: Seq<char>,
    criteria: CriteriaView,
    timeout: u64,
    now: u64,
)
    requires
        now + 80 + timeout <= u64::MAX,
    ensures
        ({
            let r = keyword_started(s, id, query, criteria, timeout, now);
            match search_request(query, criteria) {
                Err(e) => r.answer == Some(AnswerView::Dropped(id)) && r.pending is None
                    && r.actions.len() == 0 && r.session == s && r.error == Some(
                    ServerError::Search(e),
                ),
                Ok(payload) => if payload.len() == 0 {
                    r.answer == Some(AnswerView::Files(id, Seq::empty())) && r.pending is None
                        && r.actions.len() == 0 && r.session == s
                } else {
                    r.answer is None && r.error is None && r.actions.last() == ActionView::Send(
                        0x16u8,
                        payload,
                    ) && r.pending == Some(
                        PendingView::Keyword {
                            id,
                            query,
                            deadline: (now + settle_wait(s, now) + timeout) as u64,
                            results: Seq::empty(),
                            page_count: 0,
                        },
                    )
                },
            }
        }),
{
}

/// A request that was cancelled or answered is no error; any other way it ended
/// is the error it looks like.
pub proof fn law_how_a_request_ended<T>(
    answer: T,
    failure: BackgroundSearchFailure,
    millis: u64,
    closed: Seq<char>,
    dropped: Seq<char>,
)
    ensures
        reply_error(BackgroundReply::<T>::Cancelled, closed, dropped) is None,
        reply_error(BackgroundReply::Answered(Ok(answer)), closed, dropped) is None,
        reply_error(BackgroundReply::<T>::ChannelClosed, closed, dropped) == Some(
            ErrorView::Interrupted(closed),
        ),
        reply_error(BackgroundReply::<T>::Dropped, closed, dropped) == Some(
            ErrorView::Interrupted(dropped),
        ),
        reply_error(BackgroundReply::<T>::TimedOut(millis), closed, dropped) == Some(
            ErrorView::TimedOut(millis),
        ),
        reply_error(BackgroundReply::<T>::Answered(Err(failure)), closed, dropped) == Some(
            if failure.interrupted {
                ErrorView::Interrupted(failure.message@)
            } else {
                ErrorView::Failed(failure.message@)
            },
        ),
{
}

} // verus!
