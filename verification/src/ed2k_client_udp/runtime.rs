//! What the rest of the client asks of the reask service, and what it is told.
//!
//! A source that is reasked is held by the rest of the client under its TCP
//! address and port. Whenever the service drops it, that hold is released, and
//! always before the client is told to connect to the source.
use vstd::prelude::*;

use super::codec::{
    direct_callback_body, DirectCallbackView, FilePingView, ForwardedReask, ForwardedView,
    ReaskFilePing, OP_DIRECTCALLBACKREQ,
};
use super::outbound::{
    build_direct_callback_req_datagram, is_datagram, ClientUdpDatagram, OutboundReaskTarget,
};
use super::service::{
    datagram_handled, info_views, no_needed_parts_marked, round, routed_source, sends_reask,
    service_well_formed, source_registered, source_removed, OutcomeView, ReaskInboundOutcome,
    ReaskService, ReaskTickPacing, ServiceView, TransferReaskInfo,
};
use super::source_set::time_left;
use super::state::{ReaskAction, ReaskSource};
use crate::addr::{IpAddr, Ipv4Addr, SocketAddr, SocketAddrV4};
use crate::ban_store::{still_on, BanStore};
use crate::hexadecimal::{hex_encode, hexed};
use crate::ids::Ed2kHash;
use crate::text::{decimal, push_decimal};

verus! {

/// Milliseconds that an answer is waited for.
pub const REASK_REPLY_TIMEOUT: u64 = 30_000;

/// Milliseconds between two rounds.
pub const REASK_TICK_INTERVAL: u64 = 30_000;

/// Datagrams that may wait to be handled.
pub const REASK_INBOUND_CHANNEL_BOUND: usize = 256;

/// Commands that may wait to be handled.
pub const REASK_COMMAND_CHANNEL_BOUND: usize = 256;

/// The place in a queue from which on it pays to connect.
pub const REENGAGE_RANK_THRESHOLD: u16 = 4;

// ---------------------------------------------------------------------------
// Events
// ---------------------------------------------------------------------------
/// What the rest of the client is told.
#[derive(Debug, Clone, Copy, PartialEq, Eq)]
pub enum ReaskEvent {
    /// A source is held no more.
    SourceReleased { endpoint: SocketAddrV4 },
    /// A source does not have the file any more.
    SourceDead { file_hash: Ed2kHash, endpoint: SocketAddrV4 },
    /// A source of a file is worth connecting to.
    SourceReady { file_hash: Ed2kHash },
    /// A peer asks to be connected to.
    DirectCallbackReq {
        requester_ip: Ipv4Addr,
        tcp_port: u16,
        user_hash: [u8; 16],
        connect_options: u8,
    },
}

/// What the rest of the client is told.
pub enum EventView {
    SourceReleased { endpoint: SocketAddrV4 },
    SourceDead { file_hash: Ed2kHash, endpoint: SocketAddrV4 },
    SourceReady { file_hash: Ed2kHash },
    DirectCallbackReq { requester_ip: Ipv4Addr, req: DirectCallbackView },
}

impl View for ReaskEvent {
    type V = EventView;

    open spec fn view(&self) -> EventView {
        match *self {
            ReaskEvent::SourceReleased { endpoint } => EventView::SourceReleased { endpoint },
            ReaskEvent::SourceDead { file_hash, endpoint } => EventView::SourceDead {
                file_hash,
                endpoint,
            },
            ReaskEvent::SourceReady { file_hash } => EventView::SourceReady { file_hash },
            ReaskEvent::DirectCallbackReq {
                requester_ip,
                tcp_port,
                user_hash,
                connect_options,
            } => EventView::DirectCallbackReq {
                requester_ip,
                req: DirectCallbackView { tcp_port, user_hash: user_hash@, connect_options },
            },
        }
    }
}

/// What events say.
pub open spec fn event_views(v: Seq<ReaskEvent>) -> Seq<EventView> {
    v.map_values(|e: ReaskEvent| e@)
}

fn push_event(events: &mut Vec<ReaskEvent>, event: ReaskEvent)
    ensures
        event_views(final(events)@) == event_views(old(events)@).push(event@),
{
    events.push(event);
    assert(event_views(events@) =~= event_views(old(events)@).push(event@));
}

/// Whether an answer makes it worth connecting to a source.
pub open spec fn is_near_front(action: ReaskAction) -> bool {
    action matches ReaskAction::UpdatedRank(rank) && rank <= REENGAGE_RANK_THRESHOLD
}

/// What the rest of the client is told about an answer. A source that does not
/// have the file is reported dead before it is released.
pub open spec fn reply_events(
    action: ReaskAction,
    file_hash: Ed2kHash,
    endpoint: SocketAddrV4,
    lease_endpoint: SocketAddrV4,
) -> Seq<EventView> {
    if is_near_front(action) {
        seq![
            EventView::SourceReleased { endpoint: lease_endpoint },
            EventView::SourceReady { file_hash },
        ]
    } else if action is DropSource {
        seq![
            EventView::SourceDead { file_hash, endpoint },
            EventView::SourceReleased { endpoint: lease_endpoint },
        ]
    } else {
        Seq::empty()
    }
}

/// What the rest of the client is told about an answer.
pub fn routed_reply_events(
    action: ReaskAction,
    file_hash: Ed2kHash,
    endpoint: SocketAddrV4,
    lease_endpoint: SocketAddrV4,
) -> (r: Vec<ReaskEvent>)
    ensures
        event_views(r@) == reply_events(action, file_hash, endpoint, lease_endpoint),
{
    let mut events: Vec<ReaskEvent> = Vec::new();
    assert(event_views(events@) =~= Seq::empty());
    match action {
        ReaskAction::UpdatedRank(rank) => {
            if rank <= REENGAGE_RANK_THRESHOLD {
                push_event(
                    &mut events,
                    ReaskEvent::SourceReleased { endpoint: lease_endpoint },
                );
                push_event(&mut events, ReaskEvent::SourceReady { file_hash });
            }
        },
        ReaskAction::DropSource => {
            push_event(&mut events, ReaskEvent::SourceDead { file_hash, endpoint });
            push_event(&mut events, ReaskEvent::SourceReleased { endpoint: lease_endpoint });
        },
        _ => {},
    }
    assert(event_views(events@) =~= reply_events(action, file_hash, endpoint, lease_endpoint));
    events
}

// ---------------------------------------------------------------------------
// Commands
// ---------------------------------------------------------------------------
/// A source to reask from now on.
#[derive(Debug, Clone, Copy)]
pub struct ReaskDetachArgs {
    pub file_hash: Ed2kHash,
    pub endpoint: SocketAddrV4,
    /// The TCP port of the source.
    pub tcp_port: u16,
    pub udp_version: u8,
    /// Milliseconds before the first reask.
    pub initial_reask_delay: u64,
    pub user_hash: Option<[u8; 16]>,
    pub should_crypt: bool,
    pub low_id: bool,
    pub buddy_endpoint: Option<SocketAddrV4>,
    pub buddy_id: Option<[u8; 16]>,
}

/// A request for a direct callback to make.
#[derive(Debug, Clone, Copy)]
pub struct DirectCallbackArgs {
    pub dest: SocketAddr,
    pub our_tcp_port: u16,
    pub our_user_hash: [u8; 16],
    pub connect_options: u8,
    pub dest_user_hash: Option<[u8; 16]>,
    pub obfuscate: bool,
}

/// What the rest of the client asks.
#[derive(Debug, Clone, Copy)]
pub enum ReaskCommand {
    /// Reask a source from now on.
    Register(ReaskDetachArgs),
    /// Reask a source no more.
    Remove { endpoint: SocketAddrV4 },
    /// A source has no part that is needed.
    MarkNoNeededParts { endpoint: SocketAddrV4 },
    /// Answer a reask that a buddy passed on.
    AnswerCallbackTcp { dest: SocketAddr, file_hash: Ed2kHash },
    /// Make a request for a direct callback.
    SendDirectCallback(DirectCallbackArgs),
}

/// The source that is to be reasked.
pub open spec fn detached_source(args: ReaskDetachArgs, now: u64) -> ReaskSource {
    ReaskSource {
        endpoint: args.endpoint,
        lease_endpoint: SocketAddrV4 { ip: args.endpoint.ip, port: args.tcp_port },
        file_hash: args.file_hash,
        udp_version: args.udp_version,
        last_rank: None,
        next_reask: (now + args.initial_reask_delay) as u64,
        udp_total: 0,
        udp_failed: 0,
        fallback_tcp_only: false,
        no_needed_parts: false,
        remote_queue_full: false,
        user_hash: args.user_hash,
        should_crypt: args.user_hash is Some && args.should_crypt,
        low_id: args.low_id,
        buddy_endpoint: args.buddy_endpoint,
        buddy_id: args.buddy_id,
    }
}

/// Makes the source that is to be reasked.
pub fn build_detached_source(args: ReaskDetachArgs, now: u64) -> (r: ReaskSource)
    requires
        now + args.initial_reask_delay <= u64::MAX,
    ensures
        r == detached_source(args, now),
{
    let mut source = ReaskSource::new(
        args.endpoint,
        args.file_hash,
        args.udp_version,
        now,
    ).with_lease_endpoint(SocketAddrV4 { ip: args.endpoint.ip, port: args.tcp_port });
    source.next_reask = now + args.initial_reask_delay;
    if let Some(h) = args.user_hash {
        source = source.with_obfuscation(h, args.should_crypt);
    }
    source.with_buddy(args.low_id, args.buddy_endpoint, args.buddy_id)
}

/// What is told when a source is dropped: its release, where it was known.
pub open spec fn release_events(source: Option<ReaskSource>) -> Seq<EventView> {
    match source {
        Some(s) => seq![EventView::SourceReleased { endpoint: s.lease_endpoint }],
        None => Seq::empty(),
    }
}

/// What a command makes of the service, and what is told. Commands that only
/// make something go out change nothing.
pub open spec fn command_applied(v: ServiceView, command: ReaskCommand, now: u64) -> (
    ServiceView,
    Seq<EventView>,
) {
    match command {
        ReaskCommand::Register(args) => (
            source_registered(v, args.file_hash, detached_source(args, now)),
            Seq::empty(),
        ),
        ReaskCommand::Remove { endpoint } => (
            source_removed(v, endpoint),
            release_events(routed_source(v, endpoint)),
        ),
        ReaskCommand::MarkNoNeededParts { endpoint } => (
            no_needed_parts_marked(v, endpoint, now),
            Seq::empty(),
        ),
        ReaskCommand::AnswerCallbackTcp { dest, file_hash } => (v, Seq::empty()),
        ReaskCommand::SendDirectCallback(args) => (v, Seq::empty()),
    }
}

fn drop_source(service: &mut ReaskService, endpoint: SocketAddrV4, events: &mut Vec<ReaskEvent>)
    requires
        service_well_formed(old(service)@),
    ensures
        service_well_formed(final(service)@),
        final(service)@ == source_removed(old(service)@, endpoint),
        event_views(final(events)@) == event_views(old(events)@) + release_events(
            routed_source(old(service)@, endpoint),
        ),
{
    if let Some(lease) = service.remove_source(endpoint.ip, endpoint.port) {
        push_event(events, ReaskEvent::SourceReleased { endpoint: lease });
    }
    assert(event_views(events@) =~= event_views(old(events)@) + release_events(
        routed_source(old(service)@, endpoint),
    ));
}

/// Does what the rest of the client asks, and says what it is told.
pub fn apply_reask_command(service: &mut ReaskService, command: ReaskCommand, now: u64) -> (r: Vec<
    ReaskEvent,
>)
    requires
        service_well_formed(old(service)@),
        time_left(now),
        command matches ReaskCommand::Register(args) ==> now + args.initial_reask_delay
            <= u64::MAX,
    ensures
        service_well_formed(final(service)@),
        (final(service)@, event_views(r@)) == command_applied(old(service)@, command, now),
{
    let mut events: Vec<ReaskEvent> = Vec::new();
    assert(event_views(events@) =~= Seq::empty());
    match command {
        ReaskCommand::Register(args) => {
            let source = build_detached_source(args, now);
            service.register_source(args.file_hash, source);
        },
        ReaskCommand::Remove { endpoint } => {
            drop_source(service, endpoint, &mut events);
            assert(event_views(events@) =~= release_events(
                routed_source(old(service)@, endpoint),
            ));
        },
        ReaskCommand::MarkNoNeededParts { endpoint } => {
            let _ = service.mark_no_needed_parts(endpoint.ip, endpoint.port, now);
        },
        ReaskCommand::AnswerCallbackTcp { dest, file_hash } => {},
        ReaskCommand::SendDirectCallback(args) => {},
    }
    events
}

/// Makes a request for a direct callback, obfuscated where that is wanted and
/// the key of the peer is known.
pub fn build_direct_callback(args: &DirectCallbackArgs, our_public_ip: [u8; 4]) -> (r:
    ClientUdpDatagram)
    ensures
        exists|target: OutboundReaskTarget|
            {
                &&& target.our_public_ip == our_public_ip
                &&& target.obfuscate == (args.obfuscate && args.dest_user_hash is Some)
                &&& args.dest_user_hash matches Some(h) ==> target.dest_user_hash == h
                &&& #[trigger] is_datagram(
                    r,
                    OP_DIRECTCALLBACKREQ,
                    direct_callback_body(
                        (DirectCallbackView {
                            tcp_port: args.our_tcp_port,
                            user_hash: args.our_user_hash@,
                            connect_options: args.connect_options,
                        }),
                    ),
                    target,
                )
            },
{
    let target = OutboundReaskTarget {
        dest_user_hash: match args.dest_user_hash {
            Some(h) => h,
            None => [0u8; 16],
        },
        our_public_ip,
        obfuscate: args.obfuscate && args.dest_user_hash.is_some(),
    };
    build_direct_callback_req_datagram(
        args.our_tcp_port,
        &args.our_user_hash,
        args.connect_options,
        &target,
    )
}

// ---------------------------------------------------------------------------
// Datagrams
// ---------------------------------------------------------------------------
/// Whether a datagram is dropped for where it comes from: an IPv6 address, or
/// one that the filter holds back.
pub fn is_filtered_reask_source(from: SocketAddr, ip_filtered: bool) -> (r: bool)
    ensures
        r == (from.ip is V6 || ip_filtered),
{
    match from.ip {
        IpAddr::V4(_) => ip_filtered,
        IpAddr::V6(_) => true,
    }
}

/// What is to be done about a datagram.
#[derive(Debug)]
pub struct InboundPlan {
    /// What the rest of the client is told.
    pub events: Vec<ReaskEvent>,
    /// A peer in the queue that is to be answered.
    pub answer: Option<(ReaskFilePing, SocketAddr)>,
    /// A reask that is to be passed on.
    pub relay: Option<(ForwardedReask, SocketAddr)>,
}

/// What a datagram comes to.
pub struct InboundView {
    pub service: ServiceView,
    pub events: Seq<EventView>,
    pub answer: Option<(FilePingView, SocketAddr)>,
    pub relay: Option<(ForwardedView, SocketAddr)>,
}

/// Nothing is to be done.
pub open spec fn nothing_to_do(v: ServiceView) -> InboundView {
    InboundView { service: v, events: Seq::empty(), answer: None, relay: None }
}

/// What a plan says.
pub open spec fn plan_view(v: ServiceView, p: InboundPlan) -> InboundView {
    InboundView {
        service: v,
        events: event_views(p.events@),
        answer: match p.answer {
            Some((ping, from)) => Some((ping@, from)),
            None => None,
        },
        relay: match p.relay {
            Some((callback, from)) => Some((callback@, from)),
            None => None,
        },
    }
}

/// What follows what the service made of a datagram. A source that is worth
/// connecting to is not reasked any more.
pub open spec fn outcome_followed(v: ServiceView, outcome: OutcomeView) -> InboundView {
    match outcome {
        OutcomeView::RoutedReply { file_hash, endpoint, lease_endpoint, action } => InboundView {
            service: if is_near_front(action) {
                source_removed(v, endpoint)
            } else {
                v
            },
            events: reply_events(action, file_hash, endpoint, lease_endpoint),
            ..nothing_to_do(v)
        },
        OutcomeView::AnswerNeeded { ping, from } => InboundView {
            answer: Some((ping, from)),
            ..nothing_to_do(v)
        },
        OutcomeView::BuddyRelay { callback, from } => InboundView {
            relay: Some((callback, from)),
            ..nothing_to_do(v)
        },
        OutcomeView::DirectCallbackReq { req, from } => match from.ip {
            IpAddr::V4(ip) => InboundView {
                events: seq![EventView::DirectCallbackReq { requester_ip: ip, req }],
                ..nothing_to_do(v)
            },
            IpAddr::V6(_) => nothing_to_do(v),
        },
        OutcomeView::Ignored => nothing_to_do(v),
    }
}

/// Whether a datagram is dropped for where it comes from.
pub open spec fn is_unwelcome(from: SocketAddr, ip_filtered: bool, bans: BanStore, now: u64) -> bool {
    match from.ip {
        IpAddr::V6(_) => true,
        IpAddr::V4(ip) => ip_filtered || still_on(bans.by_ip@, ip, now),
    }
}

/// What a datagram comes to.
pub open spec fn inbound_handled(
    v: ServiceView,
    datagram: Seq<u8>,
    from: SocketAddr,
    ip_filtered: bool,
    bans: BanStore,
    now: u64,
) -> InboundView {
    if is_unwelcome(from, ip_filtered, bans, now) {
        nothing_to_do(v)
    } else {
        let (after, outcome) = datagram_handled(v, datagram, from, now);
        outcome_followed(after, outcome)
    }
}

/// A datagram comes in. `ip_filtered` says whether the filter holds its
/// address back.
pub fn handle_inbound_datagram(
    service: &mut ReaskService,
    datagram: &[u8],
    from: SocketAddr,
    ip_filtered: bool,
    bans: &BanStore,
    now: u64,
) -> (r: InboundPlan)
    requires
        service_well_formed(old(service)@),
        time_left(now),
    ensures
        service_well_formed(final(service)@),
        plan_view(final(service)@, r) == inbound_handled(
            old(service)@,
            datagram@,
            from,
            ip_filtered,
            *bans,
            now,
        ),
{
    let mut plan = InboundPlan { events: Vec::new(), answer: None, relay: None };
    assert(event_views(plan.events@) =~= Seq::empty());
    if is_filtered_reask_source(from, ip_filtered) {
        return plan;
    }
    if let IpAddr::V4(ip) = from.ip {
        if bans.is_banned_at(Some(ip), None, now) {
            return plan;
        }
    }
    match service.handle_inbound(datagram, from, now) {
        ReaskInboundOutcome::RoutedReply { file_hash, endpoint, lease_endpoint, action } => {
            if let ReaskAction::UpdatedRank(rank) = action {
                if rank <= REENGAGE_RANK_THRESHOLD {
                    let _ = service.remove_source(endpoint.ip, endpoint.port);
                }
            }
            plan.events = routed_reply_events(action, file_hash, endpoint, lease_endpoint);
        },
        ReaskInboundOutcome::AnswerNeeded { ping, from } => {
            plan.answer = Some((ping, from));
        },
        ReaskInboundOutcome::BuddyRelay { callback, from } => {
            plan.relay = Some((callback, from));
        },
        ReaskInboundOutcome::DirectCallbackReq { req, from } => {
            if let IpAddr::V4(requester_ip) = from.ip {
                push_event(
                    &mut plan.events,
                    ReaskEvent::DirectCallbackReq {
                        requester_ip,
                        tcp_port: req.tcp_port,
                        user_hash: req.user_hash,
                        connect_options: req.connect_options,
                    },
                );
                assert(event_views(plan.events@) =~= seq![
                    EventView::DirectCallbackReq { requester_ip, req: req@ },
                ]);
            }
        },
        ReaskInboundOutcome::Ignored => {},
    }
    plan
}

// ---------------------------------------------------------------------------
// Rounds
// ---------------------------------------------------------------------------
/// What missing answers come to: a source with too many of them is dropped.
pub open spec fn failures_released(
    v: ServiceView,
    timed_out: Seq<(SocketAddrV4, ReaskAction)>,
) -> (ServiceView, Seq<EventView>)
    decreases timed_out.len(),
{
    if timed_out.len() == 0 {
        (v, Seq::empty())
    } else {
        let (before, events) = failures_released(v, timed_out.drop_last());
        let (endpoint, action) = timed_out.last();
        if action is RetryTcp {
            (
                source_removed(before, endpoint),
                events + release_events(routed_source(before, endpoint)),
            )
        } else {
            (before, events)
        }
    }
}

/// What a round has the client do.
#[derive(Debug)]
pub struct RoundPlan {
    /// The datagrams to send, and where to.
    pub send: Vec<(SocketAddrV4, ClientUdpDatagram)>,
    /// What the rest of the client is told.
    pub events: Vec<ReaskEvent>,
}

/// Makes one round of reasks, and drops every source with too many missing
/// answers.
pub fn drive_reask_tick(
    service: &mut ReaskService,
    now: u64,
    infos: &Vec<(Ed2kHash, TransferReaskInfo)>,
    pacing: &ReaskTickPacing,
) -> (plan: RoundPlan)
    requires
        service_well_formed(old(service)@),
        time_left(now),
    ensures
        service_well_formed(final(service)@),
        ({
            let v = old(service)@;
            let r = round(
                v.files,
                v.files.len(),
                now,
                REASK_REPLY_TIMEOUT,
                info_views(infos@),
                *pacing,
            );
            &&& sends_reask(plan.send@, r.reasked, v.our_udp_version, v.public_ip)
            &&& (final(service)@, event_views(plan.events@)) == failures_released(
                (ServiceView { files: r.files, ..v }),
                r.timed_out,
            )
        }),
{
    let out = service.tick_paced(now, REASK_REPLY_TIMEOUT, infos, pacing);
    let ghost ticked = service@;
    let timed_out = out.timed_out;
    let mut events: Vec<ReaskEvent> = Vec::new();
    let mut i: usize = 0;
    proof {
        assert(event_views(events@) =~= Seq::empty());
        assert(timed_out@.take(0) =~= Seq::empty());
    }
    while i < timed_out.len()
        invariant
            i <= timed_out@.len(),
            service_well_formed(service@),
            (service@, event_views(events@)) == failures_released(
                ticked,
                timed_out@.take(i as int),
            ),
        decreases timed_out@.len() - i,
    {
        let ghost next = timed_out@.take(i + 1);
        assert(next.drop_last() =~= timed_out@.take(i as int));
        assert(next.last() == timed_out@[i as int]);
        let (endpoint, action) = timed_out[i];
        if matches!(action, ReaskAction::RetryTcp) {
            drop_source(service, endpoint, &mut events);
        }
        i += 1;
    }
    assert(timed_out@.take(i as int) =~= timed_out@);
    RoundPlan { send: out.send, events }
}

// ---------------------------------------------------------------------------
// Traces
// ---------------------------------------------------------------------------
/// The bytes of a datagram that a trace line shows.
pub const HEX_PREVIEW_BYTES: usize = 64;

/// The bytes of a datagram in hexadecimal as a trace line shows them.
pub open spec fn preview(bytes: Seq<u8>) -> Seq<char> {
    if bytes.len() > HEX_PREVIEW_BYTES {
        hexed(bytes.take(HEX_PREVIEW_BYTES as int)).push('\u{2026}') + "(+"@ + decimal(
            (bytes.len() - HEX_PREVIEW_BYTES) as nat,
        ) + " more)"@
    } else {
        hexed(bytes)
    }
}

/// The bytes of a datagram in hexadecimal as a trace line shows them.
pub fn hex_preview(bytes: &[u8]) -> (r: String)
    ensures
        r@ == preview(bytes@),
{
    if bytes.len() <= HEX_PREVIEW_BYTES {
        return hex_encode(bytes);
    }
    let shown: &[u8] = vstd::slice::slice_subrange(bytes, 0, HEX_PREVIEW_BYTES);
    assert(shown@ =~= bytes@.take(HEX_PREVIEW_BYTES as int));
    let mut out: String = hex_encode(shown);
    out.push('\u{2026}');
    out.append("(+");
    push_decimal(&mut out, (bytes.len() - HEX_PREVIEW_BYTES) as u64);
    out.append(" more)");
    out
}

// ---------------------------------------------------------------------------
// Laws
// ---------------------------------------------------------------------------
/// A source is released before the client is told that it is worth connecting
/// to, and reported dead before it is released.
pub proof fn law_events_come_in_order(
    action: ReaskAction,
    file_hash: Ed2kHash,
    endpoint: SocketAddrV4,
    lease_endpoint: SocketAddrV4,
)
    ensures
        ({
            let events = reply_events(action, file_hash, endpoint, lease_endpoint);
            &&& forall|i: int|
                0 <= i < events.len() && #[trigger] events[i] is SourceReady ==> i > 0
                    && events[i - 1] == (EventView::SourceReleased { endpoint: lease_endpoint })
            &&& forall|i: int|
                0 <= i < events.len() && #[trigger] events[i] is SourceDead ==> i + 1
                    < events.len() && events[i + 1] == (EventView::SourceReleased {
                    endpoint: lease_endpoint,
                })
        }),
{
}

/// A source that is registered is released under its TCP port when it is
/// removed, and the service forgets it.
pub proof fn law_release_carries_the_lease(v: ServiceView, args: ReaskDetachArgs, now: u64)
    requires
        service_well_formed(v),
    ensures
        ({
            let registered = command_applied(v, ReaskCommand::Register(args), now).0;
            let (after, events) = command_applied(
                registered,
                ReaskCommand::Remove { endpoint: args.endpoint },
                now,
            );
            &&& events == seq![
                EventView::SourceReleased {
                    endpoint: SocketAddrV4 { ip: args.endpoint.ip, port: args.tcp_port },
                },
            ]
            &&& routed_source(after, args.endpoint) is None
        }),
{
    let source = detached_source(args, now);
    super::service::law_registering_keeps_routes(v, args.file_hash, source);
    super::service::law_removing_keeps_routes(
        source_registered(v, args.file_hash, source),
        args.endpoint,
    );
}

/// Removing a source that is not known releases nothing.
pub proof fn law_unknown_source_releases_nothing(v: ServiceView, endpoint: SocketAddrV4, now: u64)
    requires
        routed_source(v, endpoint) is None,
    ensures
        command_applied(v, ReaskCommand::Remove { endpoint }, now).1 == Seq::<EventView>::empty(),
{
}

/// A source whose answer says that it is worth connecting to, or that it does
/// not have the file, is not reasked any more.
pub proof fn law_released_source_is_forgotten(
    v: ServiceView,
    datagram: Seq<u8>,
    from: SocketAddr,
    ip_filtered: bool,
    bans: BanStore,
    now: u64,
)
    requires
        service_well_formed(v),
        time_left(now),
    ensures
        ({
            let handled = inbound_handled(v, datagram, from, ip_filtered, bans, now);
            let (after, outcome) = datagram_handled(v, datagram, from, now);
            handled.events.len() > 0 ==> (outcome matches OutcomeView::RoutedReply { endpoint, .. }
                ==> routed_source(handled.service, endpoint) is None)
        }),
{
    let (after, outcome) = datagram_handled(v, datagram, from, now);
    if !is_unwelcome(from, ip_filtered, bans, now) {
        if let OutcomeView::RoutedReply { endpoint, action, .. } = outcome {
            super::service::law_answer_keeps_routes(
                v,
                endpoint,
                super::state::ReaskReply::FileNotFound,
                now,
            );
            if let super::dispatch::MessageView::Ack(ack) = super::dispatch::parsed_reask(
                datagram,
                crate::addr::octets_of(endpoint.ip),
                v.our_user_hash,
                v.our_udp_version,
            )->Some_0 {
                super::service::law_answer_keeps_routes(
                    v,
                    endpoint,
                    super::state::ReaskReply::Ack { rank: ack.queue_position },
                    now,
                );
            }
            super::service::law_answer_keeps_routes(
                v,
                endpoint,
                super::state::ReaskReply::QueueFull,
                now,
            );
            super::service::law_removing_keeps_routes(after, endpoint);
        }
    }
}

/// A source is worth connecting to from place four on. It is then released and
/// its file is ready; a source without the file is dead and released; any other
/// answer tells nothing.
pub proof fn law_what_an_answer_tells(
    action: ReaskAction,
    file_hash: Ed2kHash,
    endpoint: SocketAddrV4,
    lease: SocketAddrV4,
)
    ensures
        ({
            let events = reply_events(action, file_hash, endpoint, lease);
            &&& action matches ReaskAction::UpdatedRank(rank) ==> {
                &&& rank <= 4 ==> events == seq![
                    EventView::SourceReleased { endpoint: lease },
                    EventView::SourceReady { file_hash },
                ]
                &&& rank > 4 ==> events.len() == 0
            }
            &&& action is DropSource ==> events == seq![
                EventView::SourceDead { file_hash, endpoint },
                EventView::SourceReleased { endpoint: lease },
            ]
            &&& !(action is DropSource) && !(action is UpdatedRank) ==> events.len() == 0
        }),
{
}

/// A source that is handed over keeps what was known of it, is leased under its
/// TCP port, and is first reasked after the delay that was asked for; it is
/// obfuscated only where its key is known.
pub proof fn law_detached_source_is_as_described(args: ReaskDetachArgs, now: u64)
    requires
        now + args.initial_reask_delay <= u64::MAX,
    ensures
        ({
            let s = detached_source(args, now);
            &&& s.endpoint == args.endpoint
            &&& s.lease_endpoint.ip == args.endpoint.ip
            &&& s.lease_endpoint.port == args.tcp_port
            &&& s.file_hash == args.file_hash
            &&& s.udp_version == args.udp_version
            &&& s.next_reask == now + args.initial_reask_delay
            &&& s.udp_total == 0 && s.udp_failed == 0
            &&& !s.fallback_tcp_only && !s.no_needed_parts && !s.remote_queue_full
            &&& s.last_rank is None
            &&& s.user_hash == args.user_hash
            &&& s.should_crypt <==> args.should_crypt && args.user_hash is Some
            &&& s.low_id == args.low_id
            &&& s.buddy_endpoint == args.buddy_endpoint
            &&& s.buddy_id == args.buddy_id
        }),
{
}

/// A datagram over IPv6, from a filtered address or from a banned one, does
/// nothing; any other is taken up.
pub proof fn law_unwelcome_datagrams_do_nothing(
    v: ServiceView,
    datagram: Seq<u8>,
    from: SocketAddr,
    filtered: bool,
    bans: BanStore,
    now: u64,
)
    ensures
        from.ip is V6 || filtered || (from.ip matches IpAddr::V4(ip) && still_on(
            bans.by_ip@,
            ip,
            now,
        )) ==> ({
            let h = inbound_handled(v, datagram, from, filtered, bans, now);
            h.service == v && h.events.len() == 0 && h.answer is None && h.relay is None
        }),
        !filtered ==> (from.ip matches IpAddr::V4(ip) ==> !still_on(bans.by_ip@, ip, now)
            ==> inbound_handled(v, datagram, from, filtered, bans, now) == outcome_followed(
            datagram_handled(v, datagram, from, now).0,
            datagram_handled(v, datagram, from, now).1,
        )),
{
}

/// What the service makes of a datagram is followed up: a ping is answered, a
/// reask over a buddy relayed, a callback told, each to or of its sender and
/// nothing else.
pub proof fn law_outcomes_are_followed_up(
    v: ServiceView,
    ping: FilePingView,
    callback: ForwardedView,
    req: DirectCallbackView,
    from: SocketAddr,
)
    ensures
        outcome_followed(v, OutcomeView::AnswerNeeded { ping, from }).answer == Some((ping, from)),
        outcome_followed(v, OutcomeView::AnswerNeeded { ping, from }).relay is None,
        outcome_followed(v, OutcomeView::AnswerNeeded { ping, from }).events.len() == 0,
        outcome_followed(v, OutcomeView::BuddyRelay { callback, from }).relay == Some(
            (callback, from),
        ),
        outcome_followed(v, OutcomeView::BuddyRelay { callback, from }).answer is None,
        outcome_followed(v, OutcomeView::BuddyRelay { callback, from }).events.len() == 0,
        from.ip matches IpAddr::V4(ip) ==> outcome_followed(
            v,
            OutcomeView::DirectCallbackReq { req, from },
        ).events == seq![EventView::DirectCallbackReq { requester_ip: ip, req }],
        outcome_followed(v, OutcomeView::Ignored).events.len() == 0,
        outcome_followed(v, OutcomeView::Ignored).service == v,
{
}

/// Missing answers release the sources that fall back to a connection, one by
/// one, and leave the others.
pub proof fn law_fallen_back_sources_are_released(
    v: ServiceView,
    first: Seq<(SocketAddrV4, ReaskAction)>,
    endpoint: SocketAddrV4,
    action: ReaskAction,
)
    ensures
        ({
            let (before, events) = failures_released(v, first);
            let (after, told) = failures_released(v, first.push((endpoint, action)));
            &&& action is RetryTcp ==> after == source_removed(before, endpoint) && told == events
                + release_events(routed_source(before, endpoint))
            &&& !(action is RetryTcp) ==> after == before && told == events
        }),
        failures_released(v, Seq::empty()) == (v, Seq::<EventView>::empty()),
{
    assert(first.push((endpoint, action)).drop_last() =~= first);
}

} // verus!
