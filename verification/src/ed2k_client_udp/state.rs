//! One source that is reasked: when, over what, and what an answer means.
//!
//! Times are milliseconds of one clock.
use vstd::prelude::*;

use crate::addr::SocketAddrV4;
use crate::ids::Ed2kHash;

verus! {

/// Between two reasks of one source: 29 minutes.
pub const FILE_REASK_TIME: u64 = 1_740_000;

/// Between two reasks of one source at the least: ten minutes.
pub const MIN_REQUEST_TIME: u64 = 600_000;

/// How long the place of a peer that just asked is kept: twenty seconds.
pub const UDP_MAX_QUEUE_TIME: u64 = 20_000;

/// Attempts after which failures count.
pub const UDP_FAILURE_MIN_ATTEMPTS: u32 = 3;

/// Failures in ten attempts that are too many when exceeded.
pub const UDP_FAILURES_IN_TEN: u64 = 3;

/// A source that is reasked without a connection.
#[derive(Debug, Clone, Copy, PartialEq, Eq)]
pub struct ReaskSource {
    /// Where datagrams go to and come from.
    pub endpoint: SocketAddrV4,
    /// What the rest of the client holds the source by.
    pub lease_endpoint: SocketAddrV4,
    pub file_hash: Ed2kHash,
    pub udp_version: u8,
    /// The last known place in the queue; zero where it is full.
    pub last_rank: Option<u16>,
    pub next_reask: u64,
    pub udp_total: u32,
    pub udp_failed: u32,
    /// Whether too many reasks failed for now.
    pub fallback_tcp_only: bool,
    /// Whether the source has no part that is needed.
    pub no_needed_parts: bool,
    pub remote_queue_full: bool,
    pub user_hash: Option<[u8; 16]>,
    /// Whether the source wants datagrams obfuscated.
    pub should_crypt: bool,
    /// Whether the source cannot be reached directly.
    pub low_id: bool,
    pub buddy_endpoint: Option<SocketAddrV4>,
    pub buddy_id: Option<[u8; 16]>,
}

/// Milliseconds between two reasks: twice as many where no part is needed.
pub open spec fn interval(no_needed_parts: bool) -> int {
    let base = if no_needed_parts {
        2 * FILE_REASK_TIME
    } else {
        FILE_REASK_TIME as int
    };
    if base < MIN_REQUEST_TIME {
        MIN_REQUEST_TIME as int
    } else {
        base
    }
}

/// Milliseconds between two reasks.
pub fn reask_interval(no_needed_parts: bool) -> (r: u64)
    ensures
        r == interval(no_needed_parts),
{
    if no_needed_parts {
        2 * FILE_REASK_TIME
    } else {
        FILE_REASK_TIME
    }
}

/// Whether a source can be reasked over UDP.
pub fn udp_reask_eligible(
    source_udp_port: u16,
    source_udp_version: u8,
    have_local_udp_port: bool,
    self_firewalled: bool,
    has_live_tcp_socket: bool,
    proxy_configured: bool,
) -> (r: bool)
    ensures
        r == (source_udp_port != 0 && source_udp_version != 0 && have_local_udp_port
            && !self_firewalled && !has_live_tcp_socket && !proxy_configured),
        r ==> source_udp_port > 0 && source_udp_version > 0 && have_local_udp_port,
        self_firewalled || has_live_tcp_socket || proxy_configured ==> !r,
{
    source_udp_port != 0 && source_udp_version != 0 && have_local_udp_port && !self_firewalled
        && !has_live_tcp_socket && !proxy_configured
}

/// Whether too many reasks failed: more than three in ten, of more than three.
pub open spec fn too_many_failures(udp_total: u32, udp_failed: u32) -> bool {
    udp_total > UDP_FAILURE_MIN_ATTEMPTS && 10 * udp_failed > UDP_FAILURES_IN_TEN * udp_total
}

/// Whether too many reasks failed.
pub fn should_fall_back_to_tcp(udp_total: u32, udp_failed: u32) -> (r: bool)
    ensures
        r == too_many_failures(udp_total, udp_failed),
{
    udp_total > UDP_FAILURE_MIN_ATTEMPTS && 10 * (udp_failed as u64) > UDP_FAILURES_IN_TEN * (
    udp_total as u64)
}

/// One more, as far as a `u32` goes.
pub open spec fn one_more(n: u32) -> u32 {
    if n < u32::MAX {
        (n + 1) as u32
    } else {
        n
    }
}

/// A source whose next reask is one interval off.
pub open spec fn rescheduled(s: ReaskSource, now: u64) -> ReaskSource {
    ReaskSource { next_reask: (now + interval(s.no_needed_parts)) as u64, ..s }
}

/// A source that told the place in its queue.
pub open spec fn succeeded(s: ReaskSource, rank: u16, now: u64) -> ReaskSource {
    rescheduled(
        ReaskSource {
            udp_total: one_more(s.udp_total),
            last_rank: Some(rank),
            remote_queue_full: false,
            fallback_tcp_only: too_many_failures(one_more(s.udp_total), s.udp_failed),
            ..s
        },
        now,
    )
}

/// A source that did not answer.
pub open spec fn failed(s: ReaskSource, now: u64) -> ReaskSource {
    rescheduled(
        ReaskSource {
            udp_total: one_more(s.udp_total),
            udp_failed: one_more(s.udp_failed),
            fallback_tcp_only: too_many_failures(
                one_more(s.udp_total),
                one_more(s.udp_failed),
            ),
            ..s
        },
        now,
    )
}

/// A source whose queue is full. It did answer.
pub open spec fn queue_full(s: ReaskSource, now: u64) -> ReaskSource {
    rescheduled(
        ReaskSource {
            udp_total: one_more(s.udp_total),
            last_rank: Some(0),
            remote_queue_full: true,
            ..s
        },
        now,
    )
}

/// A source that has no part that is needed.
pub open spec fn without_needed_parts(s: ReaskSource, now: u64) -> ReaskSource {
    rescheduled(ReaskSource { no_needed_parts: true, ..s }, now)
}

/// The buddy over which a source is reasked: it cannot be reached directly,
/// and its buddy is known.
pub open spec fn buddy_target(s: ReaskSource) -> Option<(SocketAddrV4, [u8; 16])> {
    match s.buddy_endpoint {
        Some(endpoint) => match s.buddy_id {
            Some(id) => if s.low_id {
                Some((endpoint, id))
            } else {
                None
            },
            None => None,
        },
        None => None,
    }
}

impl ReaskSource {
    /// A source that is reasked at once.
    pub fn new(endpoint: SocketAddrV4, file_hash: Ed2kHash, udp_version: u8, now: u64) -> (r: Self)
        ensures
            r == (ReaskSource {
                endpoint,
                lease_endpoint: endpoint,
                file_hash,
                udp_version,
                last_rank: None,
                next_reask: now,
                udp_total: 0,
                udp_failed: 0,
                fallback_tcp_only: false,
                no_needed_parts: false,
                remote_queue_full: false,
                user_hash: None,
                should_crypt: false,
                low_id: false,
                buddy_endpoint: None,
                buddy_id: None,
            }),
    {
        ReaskSource {
            endpoint,
            lease_endpoint: endpoint,
            file_hash,
            udp_version,
            last_rank: None,
            next_reask: now,
            udp_total: 0,
            udp_failed: 0,
            fallback_tcp_only: false,
            no_needed_parts: false,
            remote_queue_full: false,
            user_hash: None,
            should_crypt: false,
            low_id: false,
            buddy_endpoint: None,
            buddy_id: None,
        }
    }

    /// The source with what the rest of the client holds it by.
    pub fn with_lease_endpoint(self, lease_endpoint: SocketAddrV4) -> (r: Self)
        ensures
            r == (ReaskSource { lease_endpoint, ..self }),
    {
        let mut r = self;
        r.lease_endpoint = lease_endpoint;
        r
    }

    /// The source with its key for obfuscation.
    pub fn with_obfuscation(self, user_hash: [u8; 16], should_crypt: bool) -> (r: Self)
        ensures
            r == (ReaskSource { user_hash: Some(user_hash), should_crypt, ..self }),
    {
        let mut r = self;
        r.user_hash = Some(user_hash);
        r.should_crypt = should_crypt;
        r
    }

    /// The source with its buddy.
    pub fn with_buddy(
        self,
        low_id: bool,
        buddy_endpoint: Option<SocketAddrV4>,
        buddy_id: Option<[u8; 16]>,
    ) -> (r: Self)
        ensures
            r == (ReaskSource { low_id, buddy_endpoint, buddy_id, ..self }),
    {
        let mut r = self;
        r.low_id = low_id;
        r.buddy_endpoint = buddy_endpoint;
        r.buddy_id = buddy_id;
        r
    }

    /// The buddy over which the source is reasked.
    pub fn buddy_reask_target(&self) -> (r: Option<(SocketAddrV4, [u8; 16])>)
        ensures
            r == buddy_target(*self),
    {
        if !self.low_id {
            return None;
        }
        match self.buddy_endpoint {
            Some(endpoint) => match self.buddy_id {
                Some(id) => Some((endpoint, id)),
                None => None,
            },
            None => None,
        }
    }

    /// Whether the source is to be reasked.
    pub fn is_due(&self, now: u64) -> (r: bool)
        ensures
            r == (now >= self.next_reask),
    {
        now >= self.next_reask
    }

    /// Puts the next reask one interval off.
    pub fn schedule_next(&mut self, now: u64)
        requires
            now + interval(old(self).no_needed_parts) <= u64::MAX,
        ensures
            *final(self) == rescheduled(*old(self), now),
    {
        self.next_reask = now + reask_interval(self.no_needed_parts);
    }

    /// Notes that the source told the place in its queue. Whether too many
    /// reasks failed is decided anew.
    pub fn record_success(&mut self, rank: u16, now: u64)
        requires
            now + interval(old(self).no_needed_parts) <= u64::MAX,
        ensures
            *final(self) == succeeded(*old(self), rank, now),
    {
        self.udp_total = self.udp_total.saturating_add(1);
        self.last_rank = Some(rank);
        self.remote_queue_full = false;
        self.fallback_tcp_only = should_fall_back_to_tcp(self.udp_total, self.udp_failed);
        self.schedule_next(now);
    }

    /// Notes that the source did not answer, and says whether too many reasks
    /// failed.
    pub fn record_failure(&mut self, now: u64) -> (r: bool)
        requires
            now + interval(old(self).no_needed_parts) <= u64::MAX,
        ensures
            *final(self) == failed(*old(self), now),
            r == final(self).fallback_tcp_only,
    {
        self.udp_total = self.udp_total.saturating_add(1);
        self.udp_failed = self.udp_failed.saturating_add(1);
        self.fallback_tcp_only = should_fall_back_to_tcp(self.udp_total, self.udp_failed);
        self.schedule_next(now);
        self.fallback_tcp_only
    }

    /// Notes that the source has no part that is needed: it is reasked half as
    /// often from now on.
    pub fn mark_no_needed_parts(&mut self, now: u64)
        requires
            now + interval(true) <= u64::MAX,
        ensures
            *final(self) == without_needed_parts(*old(self), now),
    {
        self.no_needed_parts = true;
        self.schedule_next(now);
    }
}

/// What a source answers, if it does.
#[derive(Debug, Clone, Copy, PartialEq, Eq, Structural)]
pub enum ReaskReply {
    /// The place in its queue.
    Ack { rank: u16 },
    /// Its queue is full.
    QueueFull,
    /// It does not have the file.
    FileNotFound,
    /// It did not answer in time.
    Timeout,
}

/// What an answer means for the transfer.
#[derive(Debug, Clone, Copy, PartialEq, Eq, Structural)]
pub enum ReaskAction {
    /// The place in the queue is known.
    UpdatedRank(u16),
    /// The queue is full; the source stays.
    QueueFull,
    /// The source is of no use any more.
    DropSource,
    /// Too many reasks failed; the source is to be asked over a connection.
    RetryTcp,
    /// The source is reasked again.
    RetryUdp,
}

/// What an answer makes of a source, and what it means.
pub open spec fn reacted(s: ReaskSource, reply: ReaskReply, now: u64) -> (ReaskSource, ReaskAction) {
    match reply {
        ReaskReply::Ack { rank } => (succeeded(s, rank, now), ReaskAction::UpdatedRank(rank)),
        ReaskReply::QueueFull => (queue_full(s, now), ReaskAction::QueueFull),
        ReaskReply::FileNotFound => (s, ReaskAction::DropSource),
        ReaskReply::Timeout => (
            failed(s, now),
            if failed(s, now).fallback_tcp_only {
                ReaskAction::RetryTcp
            } else {
                ReaskAction::RetryUdp
            },
        ),
    }
}

/// Takes an answer of a source, or that none came.
pub fn apply_reask_reply(source: &mut ReaskSource, reply: ReaskReply, now: u64) -> (r: ReaskAction)
    requires
        !(reply is FileNotFound) ==> now + interval(old(source).no_needed_parts) <= u64::MAX,
    ensures
        (*final(source), r) == reacted(*old(source), reply, now),
{
    match reply {
        ReaskReply::Ack { rank } => {
            source.record_success(rank, now);
            ReaskAction::UpdatedRank(rank)
        },
        ReaskReply::QueueFull => {
            source.udp_total = source.udp_total.saturating_add(1);
            source.last_rank = Some(0);
            source.remote_queue_full = true;
            source.schedule_next(now);
            ReaskAction::QueueFull
        },
        ReaskReply::FileNotFound => ReaskAction::DropSource,
        ReaskReply::Timeout => {
            if source.record_failure(now) {
                ReaskAction::RetryTcp
            } else {
                ReaskAction::RetryUdp
            }
        },
    }
}

// ---------------------------------------------------------------------------
// Laws
// ---------------------------------------------------------------------------
/// Whatever a source answers, if it stays it is not reasked before one
/// interval is over.
pub proof fn law_answer_reschedules(s: ReaskSource, reply: ReaskReply, now: u64)
    requires
        now + interval(s.no_needed_parts) <= u64::MAX,
        !(reply is FileNotFound),
    ensures
        reacted(s, reply, now).0.next_reask == now + interval(s.no_needed_parts),
        interval(s.no_needed_parts) >= MIN_REQUEST_TIME,
{
}

/// Only a missing answer is a failure.
pub proof fn law_only_silence_is_a_failure(s: ReaskSource, reply: ReaskReply, now: u64)
    ensures
        reacted(s, reply, now).0.udp_failed > s.udp_failed ==> reply is Timeout,
        reply is Timeout && s.udp_failed < u32::MAX ==> reacted(s, reply, now).0.udp_failed
            == s.udp_failed + 1,
{
}

/// Whether a source falls back is decided anew with every place in a queue
/// that it tells and with every failure: it is not for good.
pub proof fn law_fallback_is_not_for_good(s: ReaskSource, rank: u16, now: u64)
    requires
        s.udp_total < u32::MAX,
        10 * s.udp_failed <= UDP_FAILURES_IN_TEN * (s.udp_total + 1),
    ensures
        !succeeded(s, rank, now).fallback_tcp_only,
{
}

/// A source is reasked every 29 minutes, and half as often where it has no part
/// that is needed.
pub proof fn law_reasks_are_minutes_apart()
    ensures
        interval(false) == 29 * 60_000,
        interval(true) == 2 * interval(false),
{
}

/// Reasks fail too often from the fourth on, where more than three in ten of
/// them failed. One more failure never makes a source more trusted, one more
/// answer never less.
pub proof fn law_failures_are_weighed(total: u32, failed: u32)
    ensures
        too_many_failures(total, failed) <==> total >= 4 && 10 * failed > 3 * total,
        total < u32::MAX && failed < u32::MAX && total >= 3 && too_many_failures(total, failed)
            ==> too_many_failures((total + 1) as u32, (failed + 1) as u32),
        total < u32::MAX && total > 3 && !too_many_failures(total, failed) ==> !too_many_failures(
            (total + 1) as u32,
            failed,
        ),
{
}

/// What an answer makes of a source. A place in the queue is noted and the queue
/// is not full; a full queue is noted as place zero; both count as attempts. A
/// missing answer counts as an attempt and as a failure and leaves the place. A
/// source without the file is dropped as it is.
pub proof fn law_answer_is_noted(s: ReaskSource, reply: ReaskReply, now: u64)
    requires
        s.udp_total < u32::MAX,
        s.udp_failed < u32::MAX,
    ensures
        ({
            let (after, action) = reacted(s, reply, now);
            &&& reply matches ReaskReply::Ack { rank } ==> after.last_rank == Some(rank)
                && !after.remote_queue_full && after.udp_total == s.udp_total + 1
                && after.udp_failed == s.udp_failed && action == ReaskAction::UpdatedRank(rank)
            &&& reply is QueueFull ==> after.last_rank == Some(0u16) && after.remote_queue_full
                && after.udp_total == s.udp_total + 1 && after.udp_failed == s.udp_failed
                && after.fallback_tcp_only == s.fallback_tcp_only && action
                == ReaskAction::QueueFull
            &&& reply is FileNotFound ==> after == s && action == ReaskAction::DropSource
            &&& reply is Timeout ==> after.last_rank == s.last_rank && after.remote_queue_full
                == s.remote_queue_full && after.udp_total == s.udp_total + 1 && after.udp_failed
                == s.udp_failed + 1 && (after.fallback_tcp_only <==> after.udp_total >= 4 && 10
                * after.udp_failed > 3 * after.udp_total) && action == (
            if after.fallback_tcp_only {
                ReaskAction::RetryTcp
            } else {
                ReaskAction::RetryUdp
            })
        }),
{
}

/// No answer changes who the source is or how it is reached.
pub proof fn law_answer_keeps_the_source(s: ReaskSource, reply: ReaskReply, now: u64)
    ensures
        ({
            let after = reacted(s, reply, now).0;
            &&& after.endpoint == s.endpoint
            &&& after.lease_endpoint == s.lease_endpoint
            &&& after.file_hash == s.file_hash
            &&& after.udp_version == s.udp_version
            &&& after.no_needed_parts == s.no_needed_parts
            &&& after.user_hash == s.user_hash
            &&& after.should_crypt == s.should_crypt
            &&& after.low_id == s.low_id
            &&& after.buddy_endpoint == s.buddy_endpoint
            &&& after.buddy_id == s.buddy_id
        }),
{
}

/// A source that turns out to have no needed part is reasked half as often from
/// then on.
pub proof fn law_unneeded_source_waits_twice_as_long(s: ReaskSource, now: u64)
    requires
        now + 2 * 1_740_000 <= u64::MAX,
    ensures
        without_needed_parts(s, now).no_needed_parts,
        without_needed_parts(s, now).next_reask == now + 2 * 1_740_000,
        without_needed_parts(s, now).udp_total == s.udp_total,
        without_needed_parts(s, now).udp_failed == s.udp_failed,
        without_needed_parts(s, now).last_rank == s.last_rank,
{
}

/// Only a source that cannot be reached directly is asked over its buddy, and
/// only over a buddy whose address and id are known.
pub proof fn law_buddy_is_for_unreachable_sources(s: ReaskSource)
    ensures
        buddy_target(s) is Some <==> s.low_id && s.buddy_endpoint is Some && s.buddy_id is Some,
        buddy_target(s) matches Some((endpoint, id)) ==> s.buddy_endpoint == Some(endpoint)
            && s.buddy_id == Some(id),
{
}

} // verus!
