//! All transfers whose sources are reasked.
//!
//! An answer names no file, so it is routed by the address and port it comes
//! from. The service does no input or output: it reads datagrams, and hands
//! out those to send.
use vstd::prelude::*;

use super::codec::{
    opt_parts, opt_parts_ref, DirectCallbackReq, DirectCallbackView, FilePingView, ForwardedReask,
    ForwardedView, ReaskFilePing,
};
use super::dispatch::{
    parse_inbound_reask_datagram, parsed_reask, InboundReaskMessage, MessageView,
};
use super::outbound::ClientUdpDatagram;
use super::source_set::{
    due_over_udp, empty_set, law_set_stays_well_formed, marked, reask_destination, reasks,
    reply_applied, set_well_formed, time_left, timeouts_drained, ReaskSourceSet, SourceSetView,
};
use super::state::{without_needed_parts, ReaskAction, ReaskReply, ReaskSource};
use crate::addr::{octets_of, IpAddr, Ipv4Addr, SocketAddr, SocketAddrV4};
use crate::ids::Ed2kHash;
use crate::keyed::{
    distinct, has_key, law_value_is_found, law_value_is_gone, lemma_has_key_with, value_of,
    with_value, without_key, KeyedList,
};

verus! {

// ---------------------------------------------------------------------------
// The order of files
// ---------------------------------------------------------------------------
/// Whether a hash comes before another one, byte by byte from `i` on.
pub open spec fn comes_before(a: Seq<u8>, b: Seq<u8>, i: int) -> bool
    decreases 16 - i,
{
    if i >= 16 {
        false
    } else if a[i] != b[i] {
        a[i] < b[i]
    } else {
        comes_before(a, b, i + 1)
    }
}

/// Whether a file comes before another one.
pub open spec fn before(a: Ed2kHash, b: Ed2kHash) -> bool {
    comes_before(a.0@, b.0@, 0)
}

fn is_before(a: &Ed2kHash, b: &Ed2kHash) -> (r: bool)
    ensures
        r == before(*a, *b),
{
    let mut i: usize = 0;
    while i < 16
        invariant
            i <= 16,
            before(*a, *b) == comes_before(a.0@, b.0@, i as int),
        decreases 16 - i,
    {
        if a.0[i] != b.0[i] {
            return a.0[i] < b.0[i];
        }
        i += 1;
    }
    false
}

proof fn lemma_before_is_strict(a: Seq<u8>, b: Seq<u8>, c: Seq<u8>, i: int)
    requires
        0 <= i <= 16,
    ensures
        comes_before(a, b, i) && comes_before(b, c, i) ==> comes_before(a, c, i),
        comes_before(a, b, i) ==> !comes_before(b, a, i),
        !comes_before(a, a, i),
    decreases 16 - i,
{
    if i < 16 {
        lemma_before_is_strict(a, b, c, i + 1);
    }
}

proof fn lemma_before_is_total(a: Seq<u8>, b: Seq<u8>, i: int)
    requires
        0 <= i <= 16,
        !comes_before(a, b, i),
        !comes_before(b, a, i),
    ensures
        forall|k: int| i <= k < 16 ==> a[k] == b[k],
    decreases 16 - i,
{
    if i < 16 {
        lemma_before_is_total(a, b, i + 1);
    }
}

proof fn lemma_same_or_ordered(a: Ed2kHash, b: Ed2kHash)
    ensures
        a == b || before(a, b) || before(b, a),
        before(a, b) ==> !before(b, a) && a != b,
{
    lemma_before_is_strict(a.0@, b.0@, a.0@, 0);
    if !before(a, b) && !before(b, a) {
        lemma_before_is_total(a.0@, b.0@, 0);
        assert(a.0@ =~= b.0@);
        crate::bytes::lemma_same_16(a.0, b.0);
    }
}

/// The files stand in order, each once.
pub open spec fn in_order(files: Seq<(Ed2kHash, SourceSetView)>) -> bool {
    forall|i: int, j: int|
        0 <= i < j < files.len() ==> before((#[trigger] files[i]).0, (#[trigger] files[j]).0)
}

/// The first position from `i` on of a file that does not come before `h`, or
/// the end.
pub open spec fn place(files: Seq<(Ed2kHash, SourceSetView)>, h: Ed2kHash, i: int) -> int
    decreases files.len() - i,
{
    if 0 <= i < files.len() && before(files[i].0, h) {
        place(files, h, i + 1)
    } else {
        i
    }
}

proof fn lemma_place(files: Seq<(Ed2kHash, SourceSetView)>, h: Ed2kHash, i: int)
    requires
        0 <= i <= files.len(),
    ensures
        i <= place(files, h, i) <= files.len(),
        forall|k: int| i <= k < place(files, h, i) ==> before((#[trigger] files[k]).0, h),
        place(files, h, i) < files.len() ==> !before(files[place(files, h, i)].0, h),
    decreases files.len() - i,
{
    if i < files.len() && before(files[i].0, h) {
        lemma_place(files, h, i + 1);
    }
}

/// Whether a file is there.
pub open spec fn has_file(files: Seq<(Ed2kHash, SourceSetView)>, h: Ed2kHash) -> bool {
    let at = place(files, h, 0);
    at < files.len() && files[at].0 == h
}

/// The sources of a file.
pub open spec fn sources_of(files: Seq<(Ed2kHash, SourceSetView)>, h: Ed2kHash) -> Option<
    SourceSetView,
> {
    if has_file(files, h) {
        Some(files[place(files, h, 0)].1)
    } else {
        None
    }
}

/// The files with other sources for one of them.
pub open spec fn with_sources(
    files: Seq<(Ed2kHash, SourceSetView)>,
    h: Ed2kHash,
    set: SourceSetView,
) -> Seq<(Ed2kHash, SourceSetView)> {
    let at = place(files, h, 0);
    if has_file(files, h) {
        files.update(at, (h, set))
    } else {
        files.insert(at, (h, set))
    }
}

proof fn lemma_file_at(files: Seq<(Ed2kHash, SourceSetView)>, at: int)
    requires
        in_order(files),
        0 <= at < files.len(),
    ensures
        place(files, files[at].0, 0) == at,
        sources_of(files, files[at].0) == Some(files[at].1),
{
    let h = files[at].0;
    lemma_place(files, h, 0);
    let p = place(files, h, 0);
    if p < at {
        assert(before(files[p].0, files[at].0));
    } else if p > at {
        assert(before(files[at].0, h));
        lemma_same_or_ordered(h, h);
    }
}

proof fn lemma_with_sources(
    files: Seq<(Ed2kHash, SourceSetView)>,
    h: Ed2kHash,
    set: SourceSetView,
    other: Ed2kHash,
)
    requires
        in_order(files),
    ensures
        in_order(with_sources(files, h, set)),
        sources_of(with_sources(files, h, set), h) == Some(set),
        other != h ==> sources_of(with_sources(files, h, set), other) == sources_of(files, other),
        forall|i: int|
            0 <= i < with_sources(files, h, set).len() ==> {
                let e = #[trigger] with_sources(files, h, set)[i];
                e == (h, set) || (e.0 != h && files.contains(e))
            },
{
    let t = with_sources(files, h, set);
    let at = place(files, h, 0);
    lemma_place(files, h, 0);
    lemma_place(files, other, 0);
    if has_file(files, h) {
        assert forall|i: int, j: int| 0 <= i < j < t.len() implies before(
            (#[trigger] t[i]).0,
            (#[trigger] t[j]).0,
        ) by {
            assert(before(files[i].0, files[j].0));
        }
        assert forall|i: int| 0 <= i < t.len() implies ({
            let e = #[trigger] t[i];
            e == (h, set) || (e.0 != h && files.contains(e))
        }) by {
            if i != at {
                assert(t[i] == files[i]);
                if i < at {
                    assert(before(files[i].0, files[at].0));
                } else {
                    assert(before(files[at].0, files[i].0));
                }
                lemma_same_or_ordered(files[i].0, h);
                lemma_same_or_ordered(h, files[i].0);
            }
        }
    } else {
        assert forall|k: int| at <= k < files.len() implies before(
            h,
            (#[trigger] files[k]).0,
        ) by {
            lemma_same_or_ordered(files[at].0, h);
            if k > at {
                assert(before(files[at].0, files[k].0));
                lemma_before_is_strict(h.0@, files[at].0.0@, files[k].0.0@, 0);
            }
        }
        assert forall|i: int, j: int| 0 <= i < j < t.len() implies before(
            (#[trigger] t[i]).0,
            (#[trigger] t[j]).0,
        ) by {
            if i < at && j == at {
                assert(before(files[i].0, h));
            } else if i == at {
                assert(before(h, files[j - 1].0));
            } else if i < at && j > at {
                assert(before(files[i].0, files[j - 1].0));
            } else if i > at {
                assert(before(files[i - 1].0, files[j - 1].0));
            } else {
                assert(before(files[i].0, files[j].0));
            }
        }
        assert forall|i: int| 0 <= i < t.len() implies ({
            let e = #[trigger] t[i];
            e == (h, set) || (e.0 != h && files.contains(e))
        }) by {
            if i != at {
                let k = if i < at {
                    i
                } else {
                    i - 1
                };
                assert(t[i] == files[k]);
                lemma_same_or_ordered(files[k].0, h);
                lemma_same_or_ordered(h, files[k].0);
            }
        }
    }
    assert(t[at] == (h, set));
    lemma_file_at(t, at);
    if other != h {
        let p = place(files, other, 0);
        lemma_place(t, other, 0);
        let q = place(t, other, 0);
        if has_file(files, other) {
            let k = if has_file(files, h) || p < at {
                p
            } else {
                p + 1
            };
            assert(t[k] == files[p]);
            lemma_file_at(t, k);
        } else if has_file(t, other) {
            assert(t[q].0 == other);
            assert(files.contains(t[q]));
            let k = choose|k: int| 0 <= k < files.len() && files[k] == t[q];
            lemma_file_at(files, k);
        }
    }
}

// ---------------------------------------------------------------------------
// The service
// ---------------------------------------------------------------------------
/// All transfers whose sources are reasked.
#[derive(Debug)]
pub struct ReaskService {
    pub our_user_hash: [u8; 16],
    pub our_udp_version: u8,
    /// The public address of this client; unspecified until it is known.
    pub public_ip: Ipv4Addr,
    /// Which file an answer is about, by where it comes from.
    pub endpoint_index: KeyedList<SocketAddrV4, Ed2kHash>,
    /// The sources of each file, in the order of the files.
    pub per_file: Vec<(Ed2kHash, ReaskSourceSet)>,
}

/// What the service holds.
pub struct ServiceView {
    pub our_user_hash: Seq<u8>,
    pub our_udp_version: u8,
    pub public_ip: Ipv4Addr,
    pub index: Seq<(SocketAddrV4, Ed2kHash)>,
    pub files: Seq<(Ed2kHash, SourceSetView)>,
}

/// What the sources of files are.
pub open spec fn file_set_views(v: Seq<(Ed2kHash, ReaskSourceSet)>) -> Seq<
    (Ed2kHash, SourceSetView),
> {
    v.map_values(|e: (Ed2kHash, ReaskSourceSet)| (e.0, e.1@))
}

impl View for ReaskService {
    type V = ServiceView;

    open spec fn view(&self) -> ServiceView {
        ServiceView {
            our_user_hash: self.our_user_hash@,
            our_udp_version: self.our_udp_version,
            public_ip: self.public_ip,
            index: self.endpoint_index@,
            files: file_set_views(self.per_file@),
        }
    }
}

/// Every set of sources is well formed.
pub open spec fn sets_well_formed(files: Seq<(Ed2kHash, SourceSetView)>) -> bool {
    forall|i: int| 0 <= i < files.len() ==> set_well_formed((#[trigger] files[i]).1)
}

/// Wherever an answer is routed to, its source is there.
pub open spec fn routes_lead_to_sources(
    index: Seq<(SocketAddrV4, Ed2kHash)>,
    files: Seq<(Ed2kHash, SourceSetView)>,
) -> bool {
    forall|i: int| 0 <= i < index.len() ==> leads_to_source(#[trigger] index[i], files)
}

/// A route leads to a source.
pub open spec fn leads_to_source(
    route: (SocketAddrV4, Ed2kHash),
    files: Seq<(Ed2kHash, SourceSetView)>,
) -> bool {
    sources_of(files, route.1) matches Some(set) && has_key(set.sources, route.0)
}

/// The service is well formed.
pub open spec fn service_well_formed(v: ServiceView) -> bool {
    &&& in_order(v.files)
    &&& sets_well_formed(v.files)
    &&& distinct(v.index)
    &&& routes_lead_to_sources(v.index, v.files)
}

/// A source is registered for a file.
pub open spec fn source_registered(v: ServiceView, h: Ed2kHash, source: ReaskSource) -> ServiceView {
    let set = match sources_of(v.files, h) {
        Some(set) => set,
        None => empty_set(),
    };
    ServiceView {
        index: with_value(v.index, source.endpoint, h),
        files: with_sources(
            v.files,
            h,
            (SourceSetView {
                sources: with_value(set.sources, source.endpoint, source),
                ..set
            }),
        ),
        ..v
    }
}

/// The source that an address and port lead to.
pub open spec fn routed_source(v: ServiceView, endpoint: SocketAddrV4) -> Option<ReaskSource> {
    match value_of(v.index, endpoint) {
        Some(h) => match sources_of(v.files, h) {
            Some(set) => value_of(set.sources, endpoint),
            None => None,
        },
        None => None,
    }
}

/// A source is gone, with its route.
pub open spec fn source_removed(v: ServiceView, endpoint: SocketAddrV4) -> ServiceView {
    match value_of(v.index, endpoint) {
        None => v,
        Some(h) => ServiceView {
            index: without_key(v.index, endpoint),
            files: match sources_of(v.files, h) {
                Some(set) => with_sources(
                    v.files,
                    h,
                    (SourceSetView {
                        sources: without_key(set.sources, endpoint),
                        pending: without_key(set.pending, endpoint),
                    }),
                ),
                None => v.files,
            },
            ..v
        },
    }
}

/// What is to be done about a datagram.
#[derive(Debug, Clone, PartialEq, Eq)]
pub enum ReaskInboundOutcome {
    /// A source answered.
    RoutedReply {
        file_hash: Ed2kHash,
        endpoint: SocketAddrV4,
        /// What the rest of the client holds the source by.
        lease_endpoint: SocketAddrV4,
        action: ReaskAction,
    },
    /// A peer in the queue is to be answered.
    AnswerNeeded { ping: ReaskFilePing, from: SocketAddr },
    /// A reask is to be passed on to the client that is served.
    BuddyRelay { callback: ForwardedReask, from: SocketAddr },
    /// A peer asks to be connected to.
    DirectCallbackReq { req: DirectCallbackReq, from: SocketAddr },
    /// Nothing.
    Ignored,
}

/// What is to be done about a datagram.
pub enum OutcomeView {
    RoutedReply {
        file_hash: Ed2kHash,
        endpoint: SocketAddrV4,
        lease_endpoint: SocketAddrV4,
        action: ReaskAction,
    },
    AnswerNeeded { ping: FilePingView, from: SocketAddr },
    BuddyRelay { callback: ForwardedView, from: SocketAddr },
    DirectCallbackReq { req: DirectCallbackView, from: SocketAddr },
    Ignored,
}

impl View for ReaskInboundOutcome {
    type V = OutcomeView;

    open spec fn view(&self) -> OutcomeView {
        match *self {
            ReaskInboundOutcome::RoutedReply { file_hash, endpoint, lease_endpoint, action } => {
                OutcomeView::RoutedReply { file_hash, endpoint, lease_endpoint, action }
            },
            ReaskInboundOutcome::AnswerNeeded { ping, from } => OutcomeView::AnswerNeeded {
                ping: ping@,
                from,
            },
            ReaskInboundOutcome::BuddyRelay { callback, from } => OutcomeView::BuddyRelay {
                callback: callback@,
                from,
            },
            ReaskInboundOutcome::DirectCallbackReq { req, from } => {
                OutcomeView::DirectCallbackReq { req: req@, from }
            },
            ReaskInboundOutcome::Ignored => OutcomeView::Ignored,
        }
    }
}

/// Whether an answer from `endpoint` is waited for.
pub open spec fn is_awaited(v: ServiceView, endpoint: SocketAddrV4) -> bool {
    match value_of(v.index, endpoint) {
        Some(h) => match sources_of(v.files, h) {
            Some(set) => has_key(set.pending, endpoint),
            None => false,
        },
        None => false,
    }
}

/// What an answer from `endpoint` makes of the service, and what it means. It
/// is ignored where no source is known there or no answer is waited for.
pub open spec fn reply_routed(
    v: ServiceView,
    endpoint: SocketAddrV4,
    reply: ReaskReply,
    now: u64,
) -> (ServiceView, OutcomeView) {
    match value_of(v.index, endpoint) {
        None => (v, OutcomeView::Ignored),
        Some(h) => match sources_of(v.files, h) {
            None => (v, OutcomeView::Ignored),
            Some(set) => {
                let (after, action) = reply_applied(set, endpoint, reply, now);
                let files = with_sources(v.files, h, after);
                match action {
                    None => (ServiceView { files, ..v }, OutcomeView::Ignored),
                    Some(action) => (
                        ServiceView {
                            index: if action is DropSource {
                                without_key(v.index, endpoint)
                            } else {
                                v.index
                            },
                            files,
                            ..v
                        },
                        OutcomeView::RoutedReply {
                            file_hash: h,
                            endpoint,
                            lease_endpoint: value_of(
                                set.sources,
                                endpoint,
                            )->Some_0.lease_endpoint,
                            action,
                        },
                    ),
                }
            },
        },
    }
}

/// What a datagram makes of the service, and what is to be done about it.
pub open spec fn datagram_handled(v: ServiceView, datagram: Seq<u8>, from: SocketAddr, now: u64) -> (
    ServiceView,
    OutcomeView,
) {
    match from.ip {
        IpAddr::V6(_) => (v, OutcomeView::Ignored),
        IpAddr::V4(ip) => {
            let endpoint = SocketAddrV4 { ip, port: from.port };
            match parsed_reask(datagram, octets_of(ip), v.our_user_hash, v.our_udp_version) {
                None => (v, OutcomeView::Ignored),
                Some(MessageView::FilePing(ping)) => (v, OutcomeView::AnswerNeeded { ping, from }),
                Some(MessageView::Ack(ack)) => reply_routed(
                    v,
                    endpoint,
                    ReaskReply::Ack { rank: ack.queue_position },
                    now,
                ),
                Some(MessageView::QueueFull) => reply_routed(
                    v,
                    endpoint,
                    ReaskReply::QueueFull,
                    now,
                ),
                Some(MessageView::FileNotFound) => reply_routed(
                    v,
                    endpoint,
                    ReaskReply::FileNotFound,
                    now,
                ),
                Some(MessageView::CallbackUdp(callback)) => (
                    v,
                    OutcomeView::BuddyRelay { callback, from },
                ),
                Some(MessageView::DirectCallbackReq(req)) => (
                    v,
                    OutcomeView::DirectCallbackReq { req, from },
                ),
            }
        },
    }
}

// ---------------------------------------------------------------------------
// One round of reasks
// ---------------------------------------------------------------------------
/// What a file says in its reasks.
#[derive(Debug, Clone, PartialEq, Eq)]
pub struct TransferReaskInfo {
    /// The parts that this client has, where it says so.
    pub part_status: Option<Vec<bool>>,
    pub complete_source_count: u16,
}

/// What a file says in its reasks.
pub struct InfoView {
    pub part_status: Option<Seq<bool>>,
    pub complete_source_count: u16,
}

impl View for TransferReaskInfo {
    type V = InfoView;

    open spec fn view(&self) -> InfoView {
        InfoView {
            part_status: opt_parts(self.part_status),
            complete_source_count: self.complete_source_count,
        }
    }
}

/// What the infos of files say.
pub open spec fn info_views(v: Seq<(Ed2kHash, TransferReaskInfo)>) -> Seq<(Ed2kHash, InfoView)> {
    v.map_values(|e: (Ed2kHash, TransferReaskInfo)| (e.0, e.1@))
}

/// What a file says in its reasks: no part status and no complete source where
/// nothing is given.
pub open spec fn info_for(infos: Seq<(Ed2kHash, InfoView)>, h: Ed2kHash) -> InfoView {
    match value_of(infos, h) {
        Some(info) => info,
        None => InfoView { part_status: None, complete_source_count: 0 },
    }
}

/// How reasks are paced.
#[derive(Debug)]
pub struct ReaskTickPacing {
    /// Which file comes first, so that no file is left behind.
    pub rotate_offset: usize,
    /// The files that may reask now; any file where none is given.
    pub admitted: Option<Vec<Ed2kHash>>,
}

impl ReaskTickPacing {
    /// Any file may reask, in order.
    pub fn unbounded() -> (r: Self)
        ensures
            r.rotate_offset == 0,
            r.admitted is None,
    {
        ReaskTickPacing { rotate_offset: 0, admitted: None }
    }

    /// Whether a file may reask.
    pub open spec fn admits(&self, h: Ed2kHash) -> bool {
        match self.admitted {
            Some(v) => v@.contains(h),
            None => true,
        }
    }

    fn may_reask(&self, h: &Ed2kHash) -> (r: bool)
        ensures
            r == self.admits(*h),
    {
        let admitted: &Vec<Ed2kHash> = match &self.admitted {
            Some(v) => v,
            None => return true,
        };
        let mut i: usize = 0;
        while i < admitted.len()
            invariant
                i <= admitted@.len(),
                self.admitted == Some(*admitted),
                forall|k: int| 0 <= k < i ==> admitted@[k] != *h,
            decreases admitted@.len() - i,
        {
            if admitted[i].same(h) {
                assert(admitted@[i as int] == *h);
                return true;
            }
            i += 1;
        }
        false
    }
}

/// What is to be done in one round.
#[derive(Debug)]
pub struct ReaskTickOutput {
    /// The datagrams to send, and where to.
    pub send: Vec<(SocketAddrV4, ClientUdpDatagram)>,
    /// The sources that did not answer in time, and what that means.
    pub timed_out: Vec<(SocketAddrV4, ReaskAction)>,
}

/// One reask of a round: the source, where it is known, and what its file
/// says.
pub struct RoundReask {
    pub entry: (SocketAddrV4, ReaskSource),
    pub info: InfoView,
}

/// What a round comes to.
pub struct RoundView {
    pub files: Seq<(Ed2kHash, SourceSetView)>,
    pub timed_out: Seq<(SocketAddrV4, ReaskAction)>,
    pub reasked: Seq<RoundReask>,
}

/// The reasks of the sources of a file.
pub open spec fn reasks_of(entries: Seq<(SocketAddrV4, ReaskSource)>, info: InfoView) -> Seq<
    RoundReask,
> {
    entries.map_values(|entry: (SocketAddrV4, ReaskSource)| RoundReask { entry, info })
}

/// The file that a step of a round is about.
pub open spec fn visited(rotate_offset: usize, step: int, len: int) -> int {
    rotate_offset.wrapping_add(step as usize) as int % len
}

/// One step of a round: reasks of the file that waited too long are given up;
/// then, where the file may, its sources that are due are reasked.
pub open spec fn stepped(
    r: RoundView,
    at: int,
    now: u64,
    reply_timeout: u64,
    infos: Seq<(Ed2kHash, InfoView)>,
    pacing: ReaskTickPacing,
) -> RoundView {
    let (h, set) = r.files[at];
    let (drained, actions) = timeouts_drained(set, now, reply_timeout);
    if pacing.admits(h) {
        let due = due_over_udp(drained, now);
        RoundView {
            files: r.files.update(
                at,
                (
                    h,
                    (SourceSetView { pending: marked(drained.pending, due, now), ..drained }),
                ),
            ),
            timed_out: r.timed_out + actions,
            reasked: r.reasked + reasks_of(due, info_for(infos, h)),
        }
    } else {
        RoundView {
            files: r.files.update(at, (h, drained)),
            timed_out: r.timed_out + actions,
            reasked: r.reasked,
        }
    }
}

/// What the first `steps` steps of a round come to.
pub open spec fn round(
    files: Seq<(Ed2kHash, SourceSetView)>,
    steps: nat,
    now: u64,
    reply_timeout: u64,
    infos: Seq<(Ed2kHash, InfoView)>,
    pacing: ReaskTickPacing,
) -> RoundView
    decreases steps,
{
    if steps == 0 {
        RoundView { files, timed_out: Seq::empty(), reasked: Seq::empty() }
    } else {
        stepped(
            round(files, (steps - 1) as nat, now, reply_timeout, infos, pacing),
            visited(pacing.rotate_offset, steps - 1, files.len() as int),
            now,
            reply_timeout,
            infos,
            pacing,
        )
    }
}

/// How many sources files have together.
pub open spec fn total_sources(files: Seq<(Ed2kHash, SourceSetView)>) -> nat
    decreases files.len(),
{
    if files.len() == 0 {
        0
    } else {
        total_sources(files.drop_last()) + files.last().1.sources.len()
    }
}

/// The files that have a source, in order.
pub open spec fn files_with_sources(files: Seq<(Ed2kHash, SourceSetView)>) -> Seq<Ed2kHash>
    decreases files.len(),
{
    if files.len() == 0 {
        Seq::empty()
    } else if files.last().1.sources.len() > 0 {
        files_with_sources(files.drop_last()).push(files.last().0)
    } else {
        files_with_sources(files.drop_last())
    }
}

// ---------------------------------------------------------------------------
// The invariant
// ---------------------------------------------------------------------------
proof fn lemma_sets_stay(
    files: Seq<(Ed2kHash, SourceSetView)>,
    h: Ed2kHash,
    set: SourceSetView,
)
    requires
        in_order(files),
        sets_well_formed(files),
        set_well_formed(set),
    ensures
        in_order(with_sources(files, h, set)),
        sets_well_formed(with_sources(files, h, set)),
{
    let t = with_sources(files, h, set);
    lemma_with_sources(files, h, set, h);
    assert forall|i: int| 0 <= i < t.len() implies set_well_formed((#[trigger] t[i]).1) by {
        if t[i] != (h, set) {
            assert(files.contains(t[i]));
            let k = choose|k: int| 0 <= k < files.len() && files[k] == t[i];
            assert(set_well_formed(files[k].1));
        }
    }
}

proof fn lemma_set_of_file(v: ServiceView, h: Ed2kHash)
    requires
        service_well_formed(v),
        has_file(v.files, h),
    ensures
        set_well_formed(sources_of(v.files, h)->Some_0),
{
    lemma_place(v.files, h, 0);
    assert(set_well_formed(v.files[place(v.files, h, 0)].1));
}

/// Registering a source keeps the service well formed: in particular every
/// route leads to a source.
pub proof fn law_registering_keeps_routes(v: ServiceView, h: Ed2kHash, source: ReaskSource)
    requires
        service_well_formed(v),
    ensures
        service_well_formed(source_registered(v, h, source)),
        routed_source(source_registered(v, h, source), source.endpoint) == Some(source),
{
    let set = match sources_of(v.files, h) {
        Some(set) => set,
        None => empty_set(),
    };
    if has_file(v.files, h) {
        lemma_set_of_file(v, h);
    }
    let after = SourceSetView {
        sources: with_value(set.sources, source.endpoint, source),
        ..set
    };
    let t = source_registered(v, h, source);
    law_value_is_found(set.sources, source.endpoint, source, source.endpoint);
    law_value_is_found(v.index, source.endpoint, h, source.endpoint);
    lemma_sets_stay(v.files, h, after);
    lemma_with_sources(v.files, h, after, h);
    assert forall|i: int| 0 <= i < t.index.len() implies leads_to_source(
        #[trigger] t.index[i],
        t.files,
    ) by {
        let route = t.index[i];
        lemma_with_sources(v.files, h, after, route.1);
        if route.0 == source.endpoint {
            crate::keyed::lemma_found_at(t.index, i);
            assert(route.1 == h);
        } else {
            crate::keyed::lemma_found_at(t.index, i);
            law_value_is_found(v.index, source.endpoint, h, route.0);
            crate::keyed::lemma_position(v.index, route.0, 0);
            let k = crate::keyed::position(v.index, route.0, 0);
            assert(v.index[k] == route);
            assert(leads_to_source(v.index[k], v.files));
            lemma_has_key_with(set.sources, source.endpoint, source, route.0);
        }
    }
}

proof fn lemma_without_route(v: ServiceView, endpoint: SocketAddrV4, i: int)
    requires
        distinct(v.index),
        0 <= i < without_key(v.index, endpoint).len(),
    ensures
        without_key(v.index, endpoint)[i].0 != endpoint,
        v.index.contains(without_key(v.index, endpoint)[i]),
{
    let t = without_key(v.index, endpoint);
    law_value_is_gone(v.index, endpoint, endpoint);
    crate::keyed::lemma_position(v.index, endpoint, 0);
    crate::keyed::lemma_found_at(t, i);
    let p = crate::keyed::position(v.index, endpoint, 0);
    if has_key(v.index, endpoint) {
        let k = if i < p {
            i
        } else {
            i + 1
        };
        assert(v.index[k] == t[i]);
    } else {
        assert(v.index[i] == t[i]);
    }
}

proof fn lemma_has_key_without<V>(
    s: Seq<(SocketAddrV4, V)>,
    k: SocketAddrV4,
    other: SocketAddrV4,
)
    requires
        distinct(s),
        other != k,
    ensures
        has_key(without_key(s, k), other) == has_key(s, other),
{
    law_value_is_gone(s, k, other);
}

/// Removing a source keeps the service well formed, and the source is not
/// found any more.
pub proof fn law_removing_keeps_routes(v: ServiceView, endpoint: SocketAddrV4)
    requires
        service_well_formed(v),
    ensures
        service_well_formed(source_removed(v, endpoint)),
        routed_source(source_removed(v, endpoint), endpoint) is None,
{
    if let Some(h) = value_of(v.index, endpoint) {
        let t = source_removed(v, endpoint);
        law_value_is_gone(v.index, endpoint, endpoint);
        crate::keyed::lemma_position(v.index, endpoint, 0);
        assert(leads_to_source(
            v.index[crate::keyed::position(v.index, endpoint, 0)],
            v.files,
        ));
        let set = sources_of(v.files, h)->Some_0;
        lemma_set_of_file(v, h);
        let after = SourceSetView {
            sources: without_key(set.sources, endpoint),
            pending: without_key(set.pending, endpoint),
        };
        law_value_is_gone(set.sources, endpoint, endpoint);
        law_value_is_gone(set.pending, endpoint, endpoint);
        lemma_sets_stay(v.files, h, after);
        assert forall|i: int| 0 <= i < t.index.len() implies leads_to_source(
            #[trigger] t.index[i],
            t.files,
        ) by {
            let route = t.index[i];
            lemma_without_route(v, endpoint, i);
            let k = choose|k: int| 0 <= k < v.index.len() && v.index[k] == route;
            assert(leads_to_source(v.index[k], v.files));
            lemma_with_sources(v.files, h, after, route.1);
            lemma_has_key_without(set.sources, endpoint, route.0);
        }
    }
}

/// An answer keeps the service well formed. A source that does not have the
/// file is not found any more.
pub proof fn law_answer_keeps_routes(
    v: ServiceView,
    endpoint: SocketAddrV4,
    reply: ReaskReply,
    now: u64,
)
    requires
        service_well_formed(v),
    ensures
        service_well_formed(reply_routed(v, endpoint, reply, now).0),
        (reply_routed(v, endpoint, reply, now).1 matches OutcomeView::RoutedReply { action, .. }
            && action is DropSource) ==> routed_source(
            reply_routed(v, endpoint, reply, now).0,
            endpoint,
        ) is None,
{
    if let Some(h) = value_of(v.index, endpoint) {
        crate::keyed::lemma_position(v.index, endpoint, 0);
        assert(leads_to_source(
            v.index[crate::keyed::position(v.index, endpoint, 0)],
            v.files,
        ));
        let set = sources_of(v.files, h)->Some_0;
        lemma_set_of_file(v, h);
        let (after, action) = reply_applied(set, endpoint, reply, now);
        law_set_stays_well_formed(set, value_of(set.sources, endpoint)->Some_0, endpoint, reply, now, 0);
        lemma_sets_stay(v.files, h, after);
        let t = reply_routed(v, endpoint, reply, now).0;
        law_value_is_gone(v.index, endpoint, endpoint);
        assert forall|i: int| 0 <= i < t.index.len() implies leads_to_source(
            #[trigger] t.index[i],
            t.files,
        ) by {
            let route = t.index[i];
            lemma_with_sources(v.files, h, after, route.1);
            let dropped = action matches Some(a) && a is DropSource;
            if dropped {
                lemma_without_route(v, endpoint, i);
            }
            assert(v.index.contains(route));
            let k = choose|k: int| 0 <= k < v.index.len() && v.index[k] == route;
            assert(leads_to_source(v.index[k], v.files));
            if route.0 != endpoint {
                lemma_has_key_without(set.sources, endpoint, route.0);
            }
            lemma_has_key_with(
                set.sources,
                endpoint,
                super::state::reacted(value_of(set.sources, endpoint)->Some_0, reply, now).0,
                route.0,
            );
        }
    }
}

/// Marking a source keeps the service well formed.
proof fn lemma_marking_keeps_routes(v: ServiceView, endpoint: SocketAddrV4, now: u64)
    requires
        service_well_formed(v),
    ensures
        service_well_formed(no_needed_parts_marked(v, endpoint, now)),
{
    if let Some(h) = value_of(v.index, endpoint) {
        crate::keyed::lemma_position(v.index, endpoint, 0);
        assert(leads_to_source(
            v.index[crate::keyed::position(v.index, endpoint, 0)],
            v.files,
        ));
        let set = sources_of(v.files, h)->Some_0;
        lemma_set_of_file(v, h);
        let source = value_of(set.sources, endpoint)->Some_0;
        let after = SourceSetView {
            sources: with_value(set.sources, endpoint, without_needed_parts(source, now)),
            ..set
        };
        law_value_is_found(set.sources, endpoint, without_needed_parts(source, now), endpoint);
        lemma_sets_stay(v.files, h, after);
        let t = no_needed_parts_marked(v, endpoint, now);
        assert forall|i: int| 0 <= i < t.index.len() implies leads_to_source(
            #[trigger] t.index[i],
            t.files,
        ) by {
            let route = t.index[i];
            assert(leads_to_source(v.index[i], v.files));
            lemma_with_sources(v.files, h, after, route.1);
            lemma_has_key_with(
                set.sources,
                endpoint,
                without_needed_parts(source, now),
                route.0,
            );
        }
    }
}

/// A source has no part that is needed.
pub open spec fn no_needed_parts_marked(v: ServiceView, endpoint: SocketAddrV4, now: u64) -> ServiceView {
    match value_of(v.index, endpoint) {
        None => v,
        Some(h) => match sources_of(v.files, h) {
            None => v,
            Some(set) => match value_of(set.sources, endpoint) {
                None => v,
                Some(source) => ServiceView {
                    files: with_sources(
                        v.files,
                        h,
                        (SourceSetView {
                            sources: with_value(
                                set.sources,
                                endpoint,
                                without_needed_parts(source, now),
                            ),
                            ..set
                        }),
                    ),
                    ..v
                },
            },
        },
    }
}

proof fn lemma_timeouts_keep_sources(
    sources: Seq<(SocketAddrV4, ReaskSource)>,
    late: Seq<(SocketAddrV4, super::registry::PendingReask)>,
    now: u64,
    k: SocketAddrV4,
)
    ensures
        has_key(super::source_set::timeouts_applied(sources, late, now).0, k) == has_key(
            sources,
            k,
        ),
    decreases late.len(),
{
    if late.len() > 0 {
        lemma_timeouts_keep_sources(sources, late.drop_last(), now, k);
        let prior = super::source_set::timeouts_applied(sources, late.drop_last(), now).0;
        let endpoint = late.last().0;
        if let Some(source) = value_of(prior, endpoint) {
            lemma_has_key_with(
                prior,
                endpoint,
                super::state::reacted(source, ReaskReply::Timeout, now).0,
                k,
            );
        }
    }
}

/// Replacing the sources of one file by others at the same addresses and ports
/// keeps the service well formed.
proof fn lemma_same_sources_keep_routes(v: ServiceView, at: int, set: SourceSetView)
    requires
        service_well_formed(v),
        0 <= at < v.files.len(),
        set_well_formed(set),
        forall|k: SocketAddrV4|
            has_key(set.sources, k) == #[trigger] has_key(v.files[at].1.sources, k),
    ensures
        service_well_formed(
            (ServiceView { files: v.files.update(at, (v.files[at].0, set)), ..v }),
        ),
{
    let h = v.files[at].0;
    let t = ServiceView { files: v.files.update(at, (h, set)), ..v };
    lemma_file_at(v.files, at);
    assert(t.files =~= with_sources(v.files, h, set));
    lemma_sets_stay(v.files, h, set);
    assert forall|i: int| 0 <= i < t.index.len() implies leads_to_source(
        #[trigger] t.index[i],
        t.files,
    ) by {
        let route = t.index[i];
        assert(leads_to_source(v.index[i], v.files));
        lemma_with_sources(v.files, h, set, route.1);
        assert(has_key(set.sources, route.0) == has_key(v.files[at].1.sources, route.0));
    }
}

proof fn lemma_step_keeps_routes(
    v: ServiceView,
    r: RoundView,
    at: int,
    now: u64,
    reply_timeout: u64,
    infos: Seq<(Ed2kHash, InfoView)>,
    pacing: ReaskTickPacing,
)
    requires
        service_well_formed((ServiceView { files: r.files, ..v })),
        0 <= at < r.files.len(),
    ensures
        service_well_formed(
            (ServiceView {
                files: stepped(r, at, now, reply_timeout, infos, pacing).files,
                ..v
            }),
        ),
        set_well_formed(timeouts_drained(r.files[at].1, now, reply_timeout).0),
{
    let set = r.files[at].1;
    let some = arbitrary::<ReaskSource>();
    let somewhere = arbitrary::<SocketAddrV4>();
    assert(set_well_formed(set));
    law_set_stays_well_formed(set, some, somewhere, ReaskReply::Timeout, now, reply_timeout);
    let drained = timeouts_drained(set, now, reply_timeout).0;
    law_set_stays_well_formed(drained, some, somewhere, ReaskReply::Timeout, now, reply_timeout);
    assert forall|k: SocketAddrV4|
        has_key(drained.sources, k) == #[trigger] has_key(set.sources, k) by {
        lemma_timeouts_keep_sources(
            set.sources,
            super::registry::overdue(set.pending, now, reply_timeout),
            now,
            k,
        );
    }
    let w = ServiceView { files: r.files, ..v };
    lemma_same_sources_keep_routes(w, at, drained);
    let due = due_over_udp(drained, now);
    lemma_same_sources_keep_routes(
        w,
        at,
        SourceSetView { pending: marked(drained.pending, due, now), ..drained },
    );
}

impl ReaskService {
    /// No source of any transfer.
    pub fn new(our_user_hash: [u8; 16], our_udp_version: u8, public_ip: Ipv4Addr) -> (r: Self)
        ensures
            r@ == (ServiceView {
                our_user_hash: our_user_hash@,
                our_udp_version,
                public_ip,
                index: Seq::empty(),
                files: Seq::empty(),
            }),
            service_well_formed(r@),
    {
        let r = ReaskService {
            our_user_hash,
            our_udp_version,
            public_ip,
            endpoint_index: KeyedList::new(),
            per_file: Vec::new(),
        };
        assert(r@.files =~= Seq::empty());
        r
    }

    /// Notes the public address of this client.
    pub fn set_public_ip(&mut self, public_ip: Ipv4Addr)
        requires
            service_well_formed(old(self)@),
        ensures
            final(self)@ == (ServiceView { public_ip, ..old(self)@ }),
            service_well_formed(final(self)@),
    {
        self.public_ip = public_ip;
    }

    fn place_of(&self, h: &Ed2kHash) -> (r: usize)
        ensures
            r == place(self@.files, *h, 0),
            r <= self.per_file@.len(),
    {
        let ghost files = self@.files;
        let mut i: usize = 0;
        while i < self.per_file.len() && is_before(&self.per_file[i].0, h)
            invariant
                i <= self.per_file@.len(),
                files == file_set_views(self.per_file@),
                place(files, *h, 0) == place(files, *h, i as int),
            decreases self.per_file@.len() - i,
        {
            assert(files[i as int].0 == self.per_file@[i as int].0);
            i += 1;
        }
        if i < self.per_file.len() {
            assert(files[i as int].0 == self.per_file@[i as int].0);
        }
        i
    }

    /// Registers a source for a file.
    pub fn register_source(&mut self, file_hash: Ed2kHash, source: ReaskSource)
        requires
            service_well_formed(old(self)@),
        ensures
            final(self)@ == source_registered(old(self)@, file_hash, source),
            service_well_formed(final(self)@),
    {
        proof {
            law_registering_keeps_routes(self@, file_hash, source);
        }
        let ghost files = self@.files;
        let at: usize = self.place_of(&file_hash);
        if at < self.per_file.len() && self.per_file[at].0.same(&file_hash) {
            assert(files[at as int] == (
                self.per_file@[at as int].0,
                self.per_file@[at as int].1@,
            ));
            let ghost set = files[at as int].1;
            self.per_file[at].1.insert(source);
            assert(self@.files =~= files.update(
                at as int,
                (
                    file_hash,
                    SourceSetView {
                        sources: with_value(set.sources, source.endpoint, source),
                        ..set
                    },
                ),
            ));
        } else {
            if at < self.per_file.len() {
                assert(files[at as int].0 == self.per_file@[at as int].0);
            }
            let mut set = ReaskSourceSet::new();
            set.insert(source);
            self.per_file.insert(at, (file_hash, set));
            assert(self@.files =~= files.insert(at as int, (file_hash, set@)));
        }
        self.endpoint_index.insert(source.endpoint, file_hash);
    }

    /// Removes a source, and says what the rest of the client holds it by;
    /// nothing where it is not known.
    pub fn remove_source(&mut self, ip: Ipv4Addr, udp_port: u16) -> (r: Option<SocketAddrV4>)
        requires
            service_well_formed(old(self)@),
        ensures
            ({
                let endpoint = SocketAddrV4 { ip, port: udp_port };
                &&& final(self)@ == source_removed(old(self)@, endpoint)
                &&& r == match routed_source(old(self)@, endpoint) {
                    Some(source) => Some(source.lease_endpoint),
                    None => None,
                }
            }),
            service_well_formed(final(self)@),
    {
        let endpoint = SocketAddrV4 { ip, port: udp_port };
        proof {
            law_removing_keeps_routes(self@, endpoint);
        }
        let file_hash: Ed2kHash = match self.endpoint_index.remove(&endpoint) {
            Some(h) => h,
            None => {
                return None;
            },
        };
        let ghost files = self@.files;
        let at: usize = self.place_of(&file_hash);
        if at < self.per_file.len() && self.per_file[at].0.same(&file_hash) {
            assert(files[at as int] == (
                self.per_file@[at as int].0,
                self.per_file@[at as int].1@,
            ));
            let ghost set = files[at as int].1;
            let removed = self.per_file[at].1.remove(ip, udp_port);
            assert(self@.files =~= files.update(
                at as int,
                (
                    file_hash,
                    SourceSetView {
                        sources: without_key(set.sources, endpoint),
                        pending: without_key(set.pending, endpoint),
                    },
                ),
            ));
            match removed {
                Some(source) => Some(source.lease_endpoint),
                None => None,
            }
        } else {
            if at < self.per_file.len() {
                assert(files[at as int].0 == self.per_file@[at as int].0);
            }
            None
        }
    }

    /// Notes that a source has no part that is needed, and says whether it is
    /// known.
    pub fn mark_no_needed_parts(&mut self, ip: Ipv4Addr, udp_port: u16, now: u64) -> (r: bool)
        requires
            service_well_formed(old(self)@),
            time_left(now),
        ensures
            ({
                let endpoint = SocketAddrV4 { ip, port: udp_port };
                &&& final(self)@ == no_needed_parts_marked(old(self)@, endpoint, now)
                &&& r == (routed_source(old(self)@, endpoint) is Some)
            }),
            service_well_formed(final(self)@),
    {
        let endpoint = SocketAddrV4 { ip, port: udp_port };
        proof {
            lemma_marking_keeps_routes(self@, endpoint, now);
        }
        let file_hash: Ed2kHash = match self.endpoint_index.get(&endpoint) {
            Some(h) => h,
            None => return false,
        };
        let ghost files = self@.files;
        let at: usize = self.place_of(&file_hash);
        if at < self.per_file.len() && self.per_file[at].0.same(&file_hash) {
            assert(files[at as int] == (
                self.per_file@[at as int].0,
                self.per_file@[at as int].1@,
            ));
            let r: bool = self.per_file[at].1.mark_no_needed_parts(ip, udp_port, now);
            assert(self@.files =~= files.update(
                at as int,
                (file_hash, self.per_file@[at as int].1@),
            ));
            assert(!r ==> self@.files =~= files);
            r
        } else {
            if at < self.per_file.len() {
                assert(files[at as int].0 == self.per_file@[at as int].0);
            }
            false
        }
    }

    fn route_reply(&mut self, endpoint: SocketAddrV4, reply: ReaskReply, now: u64) -> (r:
        ReaskInboundOutcome)
        requires
            service_well_formed(old(self)@),
            is_awaited(old(self)@, endpoint) ==> time_left(now),
        ensures
            (final(self)@, r@) == reply_routed(old(self)@, endpoint, reply, now),
            service_well_formed(final(self)@),
    {
        proof {
            law_answer_keeps_routes(self@, endpoint, reply, now);
        }
        let file_hash: Ed2kHash = match self.endpoint_index.get(&endpoint) {
            Some(h) => h,
            None => return ReaskInboundOutcome::Ignored,
        };
        let ghost files = self@.files;
        let at: usize = self.place_of(&file_hash);
        if !(at < self.per_file.len() && self.per_file[at].0.same(&file_hash)) {
            if at < self.per_file.len() {
                assert(files[at as int].0 == self.per_file@[at as int].0);
            }
            return ReaskInboundOutcome::Ignored;
        }
        assert(files[at as int] == (self.per_file@[at as int].0, self.per_file@[at as int].1@));
        let known = self.per_file[at].1.get(endpoint.ip, endpoint.port);
        let action = self.per_file[at].1.apply_reply(endpoint.ip, endpoint.port, reply, now);
        assert(self@.files =~= files.update(
            at as int,
            (file_hash, self.per_file@[at as int].1@),
        ));
        match action {
            Some(action) => {
                if matches!(action, ReaskAction::DropSource) {
                    let _ = self.endpoint_index.remove(&endpoint);
                }
                let lease_endpoint: SocketAddrV4 = match known {
                    Some(source) => source.lease_endpoint,
                    None => endpoint,
                };
                ReaskInboundOutcome::RoutedReply { file_hash, endpoint, lease_endpoint, action }
            },
            None => ReaskInboundOutcome::Ignored,
        }
    }

    /// A datagram comes in.
    pub fn handle_inbound(&mut self, datagram: &[u8], from: SocketAddr, now: u64) -> (r:
        ReaskInboundOutcome)
        requires
            service_well_formed(old(self)@),
            from.ip matches IpAddr::V4(ip) ==> is_awaited(
                old(self)@,
                (SocketAddrV4 { ip, port: from.port }),
            ) ==> time_left(now),
        ensures
            (final(self)@, r@) == datagram_handled(old(self)@, datagram@, from, now),
            service_well_formed(final(self)@),
    {
        let ip: Ipv4Addr = match from.ip {
            IpAddr::V4(ip) => ip,
            IpAddr::V6(_) => return ReaskInboundOutcome::Ignored,
        };
        let endpoint = SocketAddrV4 { ip, port: from.port };
        let message = parse_inbound_reask_datagram(
            datagram,
            ip.octets(),
            &self.our_user_hash,
            self.our_udp_version,
        );
        match message {
            None => ReaskInboundOutcome::Ignored,
            Some(InboundReaskMessage::FilePing(ping)) => ReaskInboundOutcome::AnswerNeeded {
                ping,
                from,
            },
            Some(InboundReaskMessage::Ack(ack)) => self.route_reply(
                endpoint,
                ReaskReply::Ack { rank: ack.queue_position },
                now,
            ),
            Some(InboundReaskMessage::QueueFull) => self.route_reply(
                endpoint,
                ReaskReply::QueueFull,
                now,
            ),
            Some(InboundReaskMessage::FileNotFound) => self.route_reply(
                endpoint,
                ReaskReply::FileNotFound,
                now,
            ),
            Some(InboundReaskMessage::CallbackUdp(callback)) => ReaskInboundOutcome::BuddyRelay {
                callback,
                from,
            },
            Some(InboundReaskMessage::DirectCallbackReq(req)) => {
                ReaskInboundOutcome::DirectCallbackReq { req, from }
            },
        }
    }

    fn info_position(infos: &Vec<(Ed2kHash, TransferReaskInfo)>, h: &Ed2kHash) -> (r: usize)
        ensures
            r <= infos@.len(),
            r == crate::keyed::position(info_views(infos@), *h, 0),
    {
        let ghost views = info_views(infos@);
        let mut i: usize = 0;
        while i < infos.len() && !infos[i].0.same(h)
            invariant
                i <= infos@.len(),
                views == info_views(infos@),
                crate::keyed::position(views, *h, 0) == crate::keyed::position(
                    views,
                    *h,
                    i as int,
                ),
            decreases infos@.len() - i,
        {
            assert(views[i as int].0 == infos@[i as int].0);
            i += 1;
        }
        if i < infos.len() {
            assert(views[i as int].0 == infos@[i as int].0);
        }
        i
    }

    /// One round of reasks: every file has its turn, from the one that comes
    /// first on. What waited too long is given up whether or not the file may
    /// reask.
    pub fn tick_paced(
        &mut self,
        now: u64,
        reply_timeout: u64,
        infos: &Vec<(Ed2kHash, TransferReaskInfo)>,
        pacing: &ReaskTickPacing,
    ) -> (out: ReaskTickOutput)
        requires
            service_well_formed(old(self)@),
            time_left(now),
        ensures
            ({
                let r = round(
                    old(self)@.files,
                    old(self)@.files.len(),
                    now,
                    reply_timeout,
                    info_views(infos@),
                    *pacing,
                );
                &&& final(self)@ == (ServiceView { files: r.files, ..old(self)@ })
                &&& out.timed_out@ == r.timed_out
                &&& sends_reask(
                    out.send@,
                    r.reasked,
                    old(self)@.our_udp_version,
                    old(self)@.public_ip,
                )
            }),
            service_well_formed(final(self)@),
    {
        let ghost files = self@.files;
        let ghost views = info_views(infos@);
        let our_public_ip: [u8; 4] = self.public_ip.octets();
        let mut send: Vec<(SocketAddrV4, ClientUdpDatagram)> = Vec::new();
        let mut timed_out: Vec<(SocketAddrV4, ReaskAction)> = Vec::new();
        let len: usize = self.per_file.len();
        let mut step: usize = 0;
        while step < len
            invariant
                step <= len,
                len == files.len(),
                len == self.per_file@.len(),
                time_left(now),
                views == info_views(infos@),
                our_public_ip@ == octets_of(old(self)@.public_ip),
                service_well_formed(old(self)@),
                service_well_formed(self@),
                files == old(self)@.files,
                self@ == (ServiceView {
                    files: round(files, step as nat, now, reply_timeout, views, *pacing).files,
                    ..old(self)@
                }),
                timed_out@ == round(
                    files,
                    step as nat,
                    now,
                    reply_timeout,
                    views,
                    *pacing,
                ).timed_out,
                sends_reask(
                    send@,
                    round(files, step as nat, now, reply_timeout, views, *pacing).reasked,
                    old(self)@.our_udp_version,
                    old(self)@.public_ip,
                ),
            decreases len - step,
        {
            let ghost r = round(files, step as nat, now, reply_timeout, views, *pacing);
            let ghost next = round(files, (step + 1) as nat, now, reply_timeout, views, *pacing);
            let at: usize = pacing.rotate_offset.wrapping_add(step) % len;
            let ghost set = r.files[at as int].1;
            let ghost drained = timeouts_drained(set, now, reply_timeout).0;
            proof {
                lemma_step_keeps_routes(
                    old(self)@,
                    r,
                    at as int,
                    now,
                    reply_timeout,
                    views,
                    *pacing,
                );
                assert(r.files[at as int] == (
                    self.per_file@[at as int].0,
                    self.per_file@[at as int].1@,
                ));
                assert(next == stepped(r, at as int, now, reply_timeout, views, *pacing));
            }
            let file_hash: Ed2kHash = self.per_file[at].0;
            let mut late = self.per_file[at].1.drain_timeouts(now, reply_timeout);
            timed_out.append(&mut late);
            assert(timed_out@ =~= next.timed_out);
            assert(self@.files =~= r.files.update(at as int, (file_hash, drained)));
            if pacing.may_reask(&file_hash) {
                let i: usize = Self::info_position(infos, &file_hash);
                let ghost info = info_for(views, file_hash);
                let mut part_status: Option<&[bool]> = None;
                let mut complete_source_count: u16 = 0;
                if i < infos.len() {
                    assert(views[i as int] == (infos@[i as int].0, infos@[i as int].1@));
                    complete_source_count = infos[i].1.complete_source_count;
                    part_status = match &infos[i].1.part_status {
                        Some(v) => Some(v.as_slice()),
                        None => None,
                    };
                }
                assert(opt_parts_ref(part_status) == info.part_status);
                let mut datagrams = self.per_file[at].1.due_datagrams(
                    now,
                    part_status,
                    complete_source_count,
                    self.our_udp_version,
                    our_public_ip,
                );
                let ghost due = due_over_udp(drained, now);
                let ghost fresh = datagrams@;
                let ghost earlier = send@;
                send.append(&mut datagrams);
                proof {
                    assert(self@.files =~= next.files);
                    let rs = reasks_of(due, info);
                    assert(next.reasked == r.reasked + rs);
                    assert(send@ == earlier + fresh);
                    assert forall|k: int| 0 <= k < send@.len() implies sends_one(
                        #[trigger] send@[k],
                        next.reasked[k],
                        old(self)@.our_udp_version,
                        old(self)@.public_ip,
                    ) by {
                        if k < earlier.len() {
                            assert(send@[k] == earlier[k]);
                            assert(next.reasked[k] == r.reasked[k]);
                            assert(sends_one(
                                earlier[k],
                                r.reasked[k],
                                old(self)@.our_udp_version,
                                old(self)@.public_ip,
                            ));
                        } else {
                            let j = k - earlier.len();
                            assert(send@[k] == fresh[j]);
                            assert(next.reasked[k] == rs[j]);
                            assert(rs[j] == RoundReask { entry: due[j], info });
                        }
                    }
                }
            } else {
                assert(self@.files =~= next.files);
            }
            step += 1;
        }
        ReaskTickOutput { send, timed_out }
    }

    /// One round of reasks in which every file may reask.
    pub fn tick(
        &mut self,
        now: u64,
        reply_timeout: u64,
        infos: &Vec<(Ed2kHash, TransferReaskInfo)>,
    ) -> (out: ReaskTickOutput)
        requires
            service_well_formed(old(self)@),
            time_left(now),
        ensures
            ({
                let r = round(
                    old(self)@.files,
                    old(self)@.files.len(),
                    now,
                    reply_timeout,
                    info_views(infos@),
                    (ReaskTickPacing { rotate_offset: 0, admitted: None }),
                );
                &&& final(self)@ == (ServiceView { files: r.files, ..old(self)@ })
                &&& out.timed_out@ == r.timed_out
                &&& sends_reask(
                    out.send@,
                    r.reasked,
                    old(self)@.our_udp_version,
                    old(self)@.public_ip,
                )
            }),
            service_well_formed(final(self)@),
    {
        let pacing = ReaskTickPacing::unbounded();
        self.tick_paced(now, reply_timeout, infos, &pacing)
    }

    /// How many sources there are, as far as a `usize` goes.
    pub fn source_count(&self) -> (r: usize)
        ensures
            r == if total_sources(self@.files) <= usize::MAX {
                total_sources(self@.files) as int
            } else {
                usize::MAX as int
            },
    {
        let ghost files = self@.files;
        let mut total: usize = 0;
        let mut i: usize = 0;
        assert(files.take(0) =~= Seq::empty());
        while i < self.per_file.len()
            invariant
                i <= self.per_file@.len(),
                files == file_set_views(self.per_file@),
                total == if total_sources(files.take(i as int)) <= usize::MAX {
                    total_sources(files.take(i as int)) as int
                } else {
                    usize::MAX as int
                },
            decreases self.per_file@.len() - i,
        {
            assert(files.take(i + 1).drop_last() =~= files.take(i as int));
            assert(files.take(i + 1).last() == (
                self.per_file@[i as int].0,
                self.per_file@[i as int].1@,
            ));
            total = total.saturating_add(self.per_file[i].1.len());
            i += 1;
        }
        assert(files.take(i as int) =~= files);
        total
    }

    /// The files that have a source.
    pub fn registered_file_hashes(&self) -> (r: Vec<Ed2kHash>)
        ensures
            r@ == files_with_sources(self@.files),
    {
        let ghost files = self@.files;
        let mut out: Vec<Ed2kHash> = Vec::new();
        let mut i: usize = 0;
        assert(files.take(0) =~= Seq::empty());
        while i < self.per_file.len()
            invariant
                i <= self.per_file@.len(),
                files == file_set_views(self.per_file@),
                out@ == files_with_sources(files.take(i as int)),
            decreases self.per_file@.len() - i,
        {
            assert(files.take(i + 1).drop_last() =~= files.take(i as int));
            assert(files.take(i + 1).last() == (
                self.per_file@[i as int].0,
                self.per_file@[i as int].1@,
            ));
            if !self.per_file[i].1.is_empty() {
                out.push(self.per_file[i].0);
            }
            i += 1;
        }
        assert(files.take(i as int) =~= files);
        out
    }

    /// The files, and how many sources each has.
    pub fn file_source_counts(&self) -> (r: Vec<(Ed2kHash, usize)>)
        ensures
            r@.len() == self@.files.len(),
            forall|i: int|
                0 <= i < r@.len() ==> (#[trigger] r@[i]).0 == self@.files[i].0 && r@[i].1
                    == self@.files[i].1.sources.len(),
    {
        let mut out: Vec<(Ed2kHash, usize)> = Vec::new();
        let mut i: usize = 0;
        while i < self.per_file.len()
            invariant
                i <= self.per_file@.len(),
                out@.len() == i,
                forall|k: int|
                    0 <= k < i ==> (#[trigger] out@[k]).0 == self@.files[k].0 && out@[k].1
                        == self@.files[k].1.sources.len(),
            decreases self.per_file@.len() - i,
        {
            assert(self@.files[i as int] == (
                self.per_file@[i as int].0,
                self.per_file@[i as int].1@,
            ));
            out.push((self.per_file[i].0, self.per_file[i].1.len()));
            i += 1;
        }
        out
    }
}

/// Whether one datagram of a round reasks the source it is for.
pub open spec fn sends_one(
    sent: (SocketAddrV4, ClientUdpDatagram),
    reask: RoundReask,
    our_udp_version: u8,
    public_ip: Ipv4Addr,
) -> bool {
    &&& sent.0 == reask_destination(reask.entry)
    &&& reasks(
        sent.1,
        reask.entry.1,
        reask.info.part_status,
        reask.info.complete_source_count,
        our_udp_version,
        octets_of(public_ip),
    )
}

/// Whether the datagrams of a round are its reasks, in order.
pub open spec fn sends_reask(
    sent: Seq<(SocketAddrV4, ClientUdpDatagram)>,
    reasked: Seq<RoundReask>,
    our_udp_version: u8,
    public_ip: Ipv4Addr,
) -> bool {
    &&& sent.len() == reasked.len()
    &&& forall|i: int|
        0 <= i < sent.len() ==> sends_one(
            #[trigger] sent[i],
            reasked[i],
            our_udp_version,
            public_ip,
        )
}

// ---------------------------------------------------------------------------
// Laws
// ---------------------------------------------------------------------------
/// Every file has its turn in a round exactly once, whichever comes first.
pub proof fn law_every_file_has_its_turn(rotate_offset: usize, len: int, at: int)
    requires
        0 <= at < len,
        rotate_offset + len <= usize::MAX,
    ensures
        exists|step: int| 0 <= step < len && #[trigger] visited(rotate_offset, step, len) == at,
        forall|i: int, j: int|
            0 <= i < j < len ==> #[trigger] visited(rotate_offset, i, len) != #[trigger] visited(
                rotate_offset,
                j,
                len,
            ),
{
    let first = rotate_offset as int % len;
    let step = if at >= first {
        at - first
    } else {
        at - first + len
    };
    vstd::arithmetic::div_mod::lemma_mod_bound(rotate_offset as int, len);
    vstd::arithmetic::div_mod::lemma_fundamental_div_mod(rotate_offset as int, len);
    let q = rotate_offset as int / len;
    assert(len * q == q * len) by (nonlinear_arith);
    assert(len * (q + 1) == (q + 1) * len) by (nonlinear_arith);
    assert(rotate_offset.wrapping_add(step as usize) == rotate_offset + step);
    if at >= first {
        assert(rotate_offset + step == len * q + at);
        vstd::arithmetic::div_mod::lemma_fundamental_div_mod_converse(
            rotate_offset + step,
            len,
            q,
            at,
        );
    } else {
        assert(len * (q + 1) == len * q + len) by (nonlinear_arith);
        assert(rotate_offset + step == len * (q + 1) + at);
        vstd::arithmetic::div_mod::lemma_fundamental_div_mod_converse(
            rotate_offset + step,
            len,
            q + 1,
            at,
        );
    }
    assert(visited(rotate_offset, step, len) == at);
    assert forall|i: int, j: int| 0 <= i < j < len implies #[trigger] visited(
        rotate_offset,
        i,
        len,
    ) != #[trigger] visited(rotate_offset, j, len) by {
        let a = rotate_offset + i;
        let b = rotate_offset + j;
        assert(rotate_offset.wrapping_add(i as usize) == a);
        assert(rotate_offset.wrapping_add(j as usize) == b);
        vstd::arithmetic::div_mod::lemma_fundamental_div_mod(a, len);
        vstd::arithmetic::div_mod::lemma_fundamental_div_mod(b, len);
        if a % len == b % len {
            let d = b / len - a / len;
            assert(len * (b / len) - len * (a / len) == len * d) by (nonlinear_arith)
                requires
                    d == b / len - a / len,
            ;
            assert(b - a == len * d);
            assert(d >= 1 || d <= 0);
            if d >= 1 {
                assert(len * d >= len) by (nonlinear_arith)
                    requires
                        d >= 1,
                        len > 0,
                ;
            } else {
                assert(len * d <= 0) by (nonlinear_arith)
                    requires
                        d <= 0,
                        len > 0,
                ;
            }
        }
    }
}

/// A file that may not reask sends nothing, but what waited too long is given
/// up all the same.
pub proof fn law_pacing_only_holds_back_sends(
    r: RoundView,
    at: int,
    now: u64,
    reply_timeout: u64,
    infos: Seq<(Ed2kHash, InfoView)>,
    pacing: ReaskTickPacing,
)
    requires
        0 <= at < r.files.len(),
    ensures
        ({
            let after = stepped(r, at, now, reply_timeout, infos, pacing);
            let drained = timeouts_drained(r.files[at].1, now, reply_timeout);
            &&& after.timed_out == r.timed_out + drained.1
            &&& !pacing.admits(r.files[at].0) ==> after.reasked == r.reasked && after.files[at].1
                == drained.0
        }),
{
}

/// A datagram that is no answer changes nothing in the service.
pub proof fn law_only_answers_change_the_service(
    v: ServiceView,
    datagram: Seq<u8>,
    from: SocketAddr,
    now: u64,
)
    ensures
        !(datagram_handled(v, datagram, from, now).1 is RoutedReply)
            && !(datagram_handled(v, datagram, from, now).1 is Ignored) ==> datagram_handled(
            v,
            datagram,
            from,
            now,
        ).0 == v,
{
}

/// An answer from where no source is known is ignored, and changes nothing.
pub proof fn law_stranger_is_ignored(
    v: ServiceView,
    endpoint: SocketAddrV4,
    reply: ReaskReply,
    now: u64,
)
    requires
        !has_key(v.index, endpoint),
    ensures
        reply_routed(v, endpoint, reply, now) == (v, OutcomeView::Ignored),
{
}

/// An answer that is waited for is told with what it means and under the lease
/// of its source; other routes stay.
pub proof fn law_answer_is_routed(
    v: ServiceView,
    endpoint: SocketAddrV4,
    reply: ReaskReply,
    now: u64,
    other: SocketAddrV4,
)
    requires
        service_well_formed(v),
        is_awaited(v, endpoint),
    ensures
        ({
            let (after, outcome) = reply_routed(v, endpoint, reply, now);
            let source = routed_source(v, endpoint);
            &&& source is Some
            &&& outcome == (OutcomeView::RoutedReply {
                file_hash: value_of(v.index, endpoint)->Some_0,
                endpoint,
                lease_endpoint: source->Some_0.lease_endpoint,
                action: super::state::reacted(source->Some_0, reply, now).1,
            })
            &&& other != endpoint ==> value_of(after.index, other) == value_of(v.index, other)
            &&& !(reply is FileNotFound) ==> after.index == v.index
        }),
{
    let h = value_of(v.index, endpoint)->Some_0;
    crate::keyed::lemma_position(v.index, endpoint, 0);
    assert(leads_to_source(v.index[crate::keyed::position(v.index, endpoint, 0)], v.files));
    law_value_is_gone(v.index, endpoint, other);
}

/// Messages are told apart: a ping asks for an answer, a reask over a buddy to
/// be relayed, a callback to be made, and what cannot be read is ignored; none
/// of these changes the service.
pub proof fn law_datagrams_have_their_outcomes(
    v: ServiceView,
    datagram: Seq<u8>,
    ip: crate::addr::Ipv4Addr,
    port: u16,
    now: u64,
)
    ensures
        ({
            let from = SocketAddr { ip: IpAddr::V4(ip), port };
            let m = parsed_reask(datagram, octets_of(ip), v.our_user_hash, v.our_udp_version);
            let r = datagram_handled(v, datagram, from, now);
            &&& m is None ==> r == (v, OutcomeView::Ignored)
            &&& m matches Some(MessageView::FilePing(ping)) ==> r == (
                v,
                OutcomeView::AnswerNeeded { ping, from },
            )
            &&& m matches Some(MessageView::CallbackUdp(callback)) ==> r == (
                v,
                OutcomeView::BuddyRelay { callback, from },
            )
            &&& m matches Some(MessageView::DirectCallbackReq(req)) ==> r == (
                v,
                OutcomeView::DirectCallbackReq { req, from },
            )
            &&& m matches Some(MessageView::Ack(ack)) ==> r == reply_routed(
                v,
                SocketAddrV4 { ip, port },
                ReaskReply::Ack { rank: ack.queue_position },
                now,
            )
            &&& m matches Some(MessageView::QueueFull) ==> r == reply_routed(
                v,
                SocketAddrV4 { ip, port },
                ReaskReply::QueueFull,
                now,
            )
            &&& m matches Some(MessageView::FileNotFound) ==> r == reply_routed(
                v,
                SocketAddrV4 { ip, port },
                ReaskReply::FileNotFound,
                now,
            )
        }),
{
}

/// In a step of a round every source of an admitted file is reasked that is due,
/// with what its file has to say.
pub proof fn law_due_sources_are_reasked(
    r: RoundView,
    at: int,
    now: u64,
    reply_timeout: u64,
    infos: Seq<(Ed2kHash, InfoView)>,
    pacing: ReaskTickPacing,
    i: int,
)
    requires
        0 <= at < r.files.len(),
        pacing.admitted is None,
        0 <= i < timeouts_drained(r.files[at].1, now, reply_timeout).0.sources.len(),
    ensures
        ({
            let after = stepped(r, at, now, reply_timeout, infos, pacing);
            let drained = timeouts_drained(r.files[at].1, now, reply_timeout).0;
            let entry = drained.sources[i];
            entry.1.next_reask <= now && value_of(drained.pending, entry.0) is None
                && !entry.1.fallback_tcp_only ==> after.reasked.contains(
                RoundReask { entry, info: info_for(infos, r.files[at].0) },
            )
        }),
{
    let after = stepped(r, at, now, reply_timeout, infos, pacing);
    let drained = timeouts_drained(r.files[at].1, now, reply_timeout).0;
    let entry = drained.sources[i];
    let due = due_over_udp(drained, now);
    let info = info_for(infos, r.files[at].0);
    super::source_set::law_every_due_source_is_reasked(drained, now, i);
    if entry.1.next_reask <= now && value_of(drained.pending, entry.0) is None
        && !entry.1.fallback_tcp_only {
        let k = due.index_of(entry);
        assert(reasks_of(due, info)[k] == (RoundReask { entry, info }));
        assert(after.reasked[r.reasked.len() + k] == (RoundReask { entry, info }));
    }
}

/// What a file says in its reasks is what is given for it, and nothing where
/// nothing is.
pub proof fn law_file_says_what_is_given(infos: Seq<(Ed2kHash, InfoView)>, h: Ed2kHash)
    ensures
        value_of(infos, h) matches Some(info) ==> info_for(infos, h) == info,
        value_of(infos, h) is None ==> info_for(infos, h).part_status is None && info_for(
            infos,
            h,
        ).complete_source_count == 0,
{
}

/// Files are kept in the order of their hashes, byte by byte: of two that differ
/// first at `i`, the one with the lesser byte there comes first.
pub proof fn law_files_are_ordered_by_hash(a: Ed2kHash, b: Ed2kHash, i: int)
    requires
        0 <= i < 16,
        a.0@[i] != b.0@[i],
        forall|k: int| 0 <= k < i ==> a.0@[k] == b.0@[k],
    ensures
        before(a, b) <==> a.0@[i] < b.0@[i],
        before(b, a) <==> b.0@[i] < a.0@[i],
{
    lemma_first_difference(a.0@, b.0@, 0, i);
    lemma_first_difference(b.0@, a.0@, 0, i);
}

proof fn lemma_first_difference(a: Seq<u8>, b: Seq<u8>, from: int, i: int)
    requires
        0 <= from <= i < 16,
        a[i] != b[i],
        forall|k: int| from <= k < i ==> a[k] == b[k],
    ensures
        comes_before(a, b, from) == (a[i] < b[i]),
    decreases i - from,
{
    if from < i {
        assert(a[from] == b[from]);
        lemma_first_difference(a, b, from + 1, i);
    }
}

/// A round takes each file exactly once: after it, a file holds what one step on
/// it alone makes of it, whichever came first.
pub proof fn law_round_steps_every_file_once(
    files: Seq<(Ed2kHash, SourceSetView)>,
    at: int,
    now: u64,
    reply_timeout: u64,
    infos: Seq<(Ed2kHash, InfoView)>,
    pacing: ReaskTickPacing,
)
    requires
        0 <= at < files.len(),
        pacing.rotate_offset + files.len() <= usize::MAX,
    ensures
        ({
            let fresh = RoundView { files, timed_out: Seq::empty(), reasked: Seq::empty() };
            let after = round(files, files.len(), now, reply_timeout, infos, pacing);
            &&& after.files.len() == files.len()
            &&& after.files[at] == stepped(fresh, at, now, reply_timeout, infos, pacing).files[at]
        }),
{
    law_every_file_has_its_turn(pacing.rotate_offset, files.len() as int, at);
    lemma_round_file(files, files.len(), at, now, reply_timeout, infos, pacing);
}

proof fn lemma_round_file(
    files: Seq<(Ed2kHash, SourceSetView)>,
    steps: nat,
    at: int,
    now: u64,
    reply_timeout: u64,
    infos: Seq<(Ed2kHash, InfoView)>,
    pacing: ReaskTickPacing,
)
    requires
        0 <= at < files.len(),
        steps <= files.len(),
        pacing.rotate_offset + files.len() <= usize::MAX,
    ensures
        ({
            let fresh = RoundView { files, timed_out: Seq::empty(), reasked: Seq::empty() };
            let after = round(files, steps, now, reply_timeout, infos, pacing);
            let len = files.len() as int;
            &&& after.files.len() == files.len()
            &&& (forall|s: int|
                0 <= s < steps ==> #[trigger] visited(pacing.rotate_offset, s, len) != at)
                ==> after.files[at] == files[at]
            &&& (exists|s: int|
                0 <= s < steps && #[trigger] visited(pacing.rotate_offset, s, len) == at)
                ==> after.files[at] == stepped(fresh, at, now, reply_timeout, infos, pacing).files[at]
        }),
    decreases steps,
{
    let len = files.len() as int;
    let offset = pacing.rotate_offset;
    if steps > 0 {
        let k = steps - 1;
        lemma_round_file(files, k as nat, at, now, reply_timeout, infos, pacing);
        law_every_file_has_its_turn(offset, len, at);
        let before = round(files, k as nat, now, reply_timeout, infos, pacing);
        let v = visited(offset, k, len);
        vstd::arithmetic::div_mod::lemma_mod_bound(offset.wrapping_add(k as usize) as int, len);
        if v == at {
            assert forall|s: int| 0 <= s < k implies #[trigger] visited(offset, s, len) != at by {
                assert(visited(offset, s, len) != visited(offset, k, len));
            }
            assert(before.files[at] == files[at]);
        } else {
            if exists|s: int| 0 <= s < steps && #[trigger] visited(offset, s, len) == at {
                let s = choose|s: int| 0 <= s < steps && #[trigger] visited(offset, s, len) == at;
                assert(s < k);
            }
        }
    }
}

/// Sources are counted over all files, and the files that have any are listed in
/// order.
pub proof fn law_sources_are_counted(
    first: Seq<(Ed2kHash, SourceSetView)>,
    rest: Seq<(Ed2kHash, SourceSetView)>,
    h: Ed2kHash,
    set: SourceSetView,
)
    ensures
        total_sources(first + rest) == total_sources(first) + total_sources(rest),
        total_sources(seq![(h, set)]) == set.sources.len(),
        files_with_sources(first + rest) == files_with_sources(first) + files_with_sources(rest),
        files_with_sources(seq![(h, set)]) == (if set.sources.len() > 0 {
            seq![h]
        } else {
            Seq::empty()
        }),
    decreases rest.len(),
{
    let one = seq![(h, set)];
    assert(one.drop_last() =~= Seq::empty());
    reveal_with_fuel(total_sources, 2);
    reveal_with_fuel(files_with_sources, 2);
    assert(files_with_sources(one) =~= (if set.sources.len() > 0 {
        seq![h]
    } else {
        Seq::empty()
    }));
    if rest.len() == 0 {
        assert(first + rest =~= first);
        assert(files_with_sources(first) + files_with_sources(rest) =~= files_with_sources(first));
    } else {
        law_sources_are_counted(first, rest.drop_last(), h, set);
        assert((first + rest).drop_last() =~= first + rest.drop_last());
        assert((first + rest).last() == rest.last());
        assert(files_with_sources(first + rest) =~= files_with_sources(first) + files_with_sources(
            rest,
        ));
    }
}

} // verus!
