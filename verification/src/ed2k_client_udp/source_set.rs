//! The sources of one transfer that are reasked.
//!
//! A source waits for one answer at a time. An answer that nothing waits for
//! is dropped.
use vstd::prelude::*;

use super::codec::{
    callback_udp_body, file_ping_body, opt_parts_ref, OP_REASKCALLBACKUDP, OP_REASKFILEPING,
};
use super::outbound::{
    build_reask_callback_udp_packet, build_reask_file_ping_packet, is_datagram, plain_frame,
    ClientUdpDatagram, OutboundReaskTarget,
};
use super::registry::{in_time, overdue, PendingReask, ReaskPendingRegistry};
use super::state::{
    apply_reask_reply, buddy_target, interval, reacted, without_needed_parts, ReaskAction,
    ReaskReply, ReaskSource,
};
use crate::addr::{Ipv4Addr, SocketAddrV4};
use crate::ed2k_client_udp_obfuscation::OP_EMULEPROT;
use crate::ids::Ed2kHash;
use crate::keyed::{
    distinct, has_key, lemma_filter_distinct, lemma_filter_in, lemma_has_key_with, value_of,
    with_value, without_key, KeyedList,
};

verus! {

/// The sources of one transfer that are reasked, by address and port.
#[derive(Debug)]
pub struct ReaskSourceSet {
    pub sources: KeyedList<SocketAddrV4, ReaskSource>,
    pub pending: ReaskPendingRegistry,
}

/// What a set of sources holds.
pub struct SourceSetView {
    pub sources: Seq<(SocketAddrV4, ReaskSource)>,
    pub pending: Seq<(SocketAddrV4, PendingReask)>,
}

impl View for ReaskSourceSet {
    type V = SourceSetView;

    open spec fn view(&self) -> SourceSetView {
        SourceSetView { sources: self.sources@, pending: self.pending@ }
    }
}

/// No source.
pub open spec fn empty_set() -> SourceSetView {
    SourceSetView { sources: Seq::empty(), pending: Seq::empty() }
}

/// No source and no reask stands in the set twice.
pub open spec fn set_well_formed(v: SourceSetView) -> bool {
    distinct(v.sources) && distinct(v.pending)
}

/// Whether every source can be put one interval off.
pub open spec fn time_left(now: u64) -> bool {
    now + interval(true) <= u64::MAX
}

/// Whether the source that an answer comes from can be put one interval off,
/// where the answer is waited for and the source stays.
pub open spec fn answer_fits(
    v: SourceSetView,
    endpoint: SocketAddrV4,
    reply: ReaskReply,
    now: u64,
) -> bool {
    has_key(v.pending, endpoint) && !(reply is FileNotFound) ==> match value_of(
        v.sources,
        endpoint,
    ) {
        Some(source) => now + interval(source.no_needed_parts) <= u64::MAX,
        None => true,
    }
}

/// Whether a source is to be reasked: its time has come, and no answer is
/// waited for.
pub open spec fn is_due_in(
    p: (SocketAddrV4, ReaskSource),
    pending: Seq<(SocketAddrV4, PendingReask)>,
    now: u64,
) -> bool {
    now >= p.1.next_reask && !has_key(pending, p.0)
}

/// The sources that are to be reasked.
pub open spec fn due_sources(v: SourceSetView, now: u64) -> Seq<(SocketAddrV4, ReaskSource)> {
    v.sources.filter(|p: (SocketAddrV4, ReaskSource)| is_due_in(p, v.pending, now))
}

/// The sources that are to be reasked over UDP.
pub open spec fn due_over_udp(v: SourceSetView, now: u64) -> Seq<(SocketAddrV4, ReaskSource)> {
    v.sources.filter(
        |p: (SocketAddrV4, ReaskSource)|
            is_due_in(p, v.pending, now) && !p.1.fallback_tcp_only,
    )
}

/// The keys of a sequence of pairs.
pub open spec fn keys_of(s: Seq<(SocketAddrV4, ReaskSource)>) -> Seq<SocketAddrV4> {
    s.map_values(|p: (SocketAddrV4, ReaskSource)| p.0)
}

/// The reasks that wait for an answer once the given sources are reasked.
pub open spec fn marked(
    pending: Seq<(SocketAddrV4, PendingReask)>,
    reasked: Seq<(SocketAddrV4, ReaskSource)>,
    now: u64,
) -> Seq<(SocketAddrV4, PendingReask)>
    decreases reasked.len(),
{
    if reasked.len() == 0 {
        pending
    } else {
        with_value(
            marked(pending, reasked.drop_last(), now),
            reasked.last().0,
            (PendingReask { file_hash: reasked.last().1.file_hash, sent_at: now }),
        )
    }
}

/// Where the reask of a source goes to: its buddy where it has to, else the
/// source.
pub open spec fn reask_destination(p: (SocketAddrV4, ReaskSource)) -> SocketAddrV4 {
    match buddy_target(p.1) {
        Some((endpoint, _)) => endpoint,
        None => p.0,
    }
}

/// Whether a datagram reasks a source. What goes over a buddy is made for the
/// version that the source speaks, and in clear; what goes to the source is
/// made for the version that this client speaks, and obfuscated where the
/// source wants it and its key is known.
pub open spec fn reasks(
    d: ClientUdpDatagram,
    source: ReaskSource,
    part_status: Option<Seq<bool>>,
    complete_source_count: u16,
    our_udp_version: u8,
    our_public_ip: Seq<u8>,
) -> bool {
    match buddy_target(source) {
        Some((_, buddy_id)) => {
            let body = callback_udp_body(
                buddy_id@,
                source.file_hash.0@,
                part_status,
                complete_source_count,
                source.udp_version,
            );
            &&& d.bytes@ == plain_frame(OP_REASKCALLBACKUDP, body)
            &&& d.protocol_marker == OP_EMULEPROT
            &&& d.opcode == OP_REASKCALLBACKUDP
            &&& d.payload@ == body
            &&& !d.obfuscated
        },
        None => exists|target: OutboundReaskTarget|
            {
                &&& target.our_public_ip@ == our_public_ip
                &&& target.obfuscate == (source.should_crypt && source.user_hash is Some)
                &&& source.user_hash matches Some(h) ==> target.dest_user_hash == h
                &&& #[trigger] is_datagram(
                    d,
                    OP_REASKFILEPING,
                    file_ping_body(
                        source.file_hash.0@,
                        part_status,
                        complete_source_count,
                        our_udp_version,
                    ),
                    target,
                )
            },
    }
}

/// What an answer makes of a set, and what it means; nothing where no answer
/// is waited for.
pub open spec fn reply_applied(
    v: SourceSetView,
    endpoint: SocketAddrV4,
    reply: ReaskReply,
    now: u64,
) -> (SourceSetView, Option<ReaskAction>) {
    if !has_key(v.pending, endpoint) {
        (v, None)
    } else {
        let answered = SourceSetView { pending: without_key(v.pending, endpoint), ..v };
        match value_of(v.sources, endpoint) {
            None => (answered, None),
            Some(source) => {
                let (after, action) = reacted(source, reply, now);
                if action is DropSource {
                    (
                        SourceSetView { sources: without_key(v.sources, endpoint), ..answered },
                        Some(action),
                    )
                } else {
                    (
                        SourceSetView {
                            sources: with_value(v.sources, endpoint, after),
                            ..answered
                        },
                        Some(action),
                    )
                }
            },
        }
    }
}

/// What missing answers make of sources, and what they mean, one behind the
/// other.
pub open spec fn timeouts_applied(
    sources: Seq<(SocketAddrV4, ReaskSource)>,
    late: Seq<(SocketAddrV4, PendingReask)>,
    now: u64,
) -> (Seq<(SocketAddrV4, ReaskSource)>, Seq<(SocketAddrV4, ReaskAction)>)
    decreases late.len(),
{
    if late.len() == 0 {
        (sources, Seq::empty())
    } else {
        let (before, actions) = timeouts_applied(sources, late.drop_last(), now);
        let endpoint = late.last().0;
        match value_of(before, endpoint) {
            None => (before, actions),
            Some(source) => {
                let (after, action) = reacted(source, ReaskReply::Timeout, now);
                (with_value(before, endpoint, after), actions.push((endpoint, action)))
            },
        }
    }
}

/// What a set is once the reasks that waited too long are given up.
pub open spec fn timeouts_drained(v: SourceSetView, now: u64, timeout: u64) -> (
    SourceSetView,
    Seq<(SocketAddrV4, ReaskAction)>,
) {
    let (sources, actions) = timeouts_applied(
        v.sources,
        overdue(v.pending, now, timeout),
        now,
    );
    (SourceSetView { sources, pending: in_time(v.pending, now, timeout) }, actions)
}

impl ReaskSourceSet {
    /// No source.
    pub fn new() -> (r: Self)
        ensures
            r@ == empty_set(),
    {
        ReaskSourceSet { sources: KeyedList::new(), pending: ReaskPendingRegistry::new() }
    }

    /// Puts a source in, in the place of any other at its address and port.
    pub fn insert(&mut self, source: ReaskSource)
        ensures
            final(self)@ == (SourceSetView {
                sources: with_value(old(self)@.sources, source.endpoint, source),
                ..old(self)@
            }),
    {
        self.sources.insert(source.endpoint, source);
    }

    fn is_due_at(&self, i: usize, now: u64) -> (r: bool)
        requires
            i < self@.sources.len(),
        ensures
            r == is_due_in(self@.sources[i as int], self@.pending, now),
    {
        let entry: &(SocketAddrV4, ReaskSource) = &self.sources.entries[i];
        entry.1.is_due(now) && !self.pending.is_pending(entry.0.ip, entry.0.port)
    }

    /// Where the sources are that are to be reasked.
    pub fn due(&self, now: u64) -> (r: Vec<SocketAddrV4>)
        ensures
            r@ == keys_of(due_sources(self@, now)),
    {
        let ghost all = self@.sources;
        let mut out: Vec<SocketAddrV4> = Vec::new();
        let mut i: usize = 0;
        proof {
            reveal(Seq::filter);
            assert(all.take(0) =~= Seq::empty());
            assert(out@ =~= keys_of(
                due_sources(SourceSetView { sources: all.take(0), ..self@ }, now),
            ));
        }
        while i < self.sources.entries.len()
            invariant
                i <= self.sources.entries@.len(),
                all == self.sources.entries@,
                out@ == keys_of(
                    due_sources((SourceSetView { sources: all.take(i as int), ..self@ }), now),
                ),
            decreases self.sources.entries@.len() - i,
        {
            let ghost before = due_sources(
                SourceSetView { sources: all.take(i as int), ..self@ },
                now,
            );
            proof {
                reveal(Seq::filter);
                let next = all.take(i + 1);
                assert(next.drop_last() =~= all.take(i as int));
                assert(next.last() == all[i as int]);
                assert(keys_of(before.push(all[i as int])) =~= keys_of(before).push(
                    all[i as int].0,
                ));
            }
            if self.is_due_at(i, now) {
                out.push(self.sources.entries[i].0);
            }
            i += 1;
        }
        assert(all.take(i as int) =~= all);
        out
    }

    fn build_reask(
        &self,
        i: usize,
        our_part_status: Option<&[bool]>,
        complete_source_count: u16,
        our_udp_version: u8,
        our_public_ip: [u8; 4],
    ) -> (r: (SocketAddrV4, ClientUdpDatagram))
        requires
            i < self@.sources.len(),
        ensures
            r.0 == reask_destination(self@.sources[i as int]),
            reasks(
                r.1,
                self@.sources[i as int].1,
                opt_parts_ref(our_part_status),
                complete_source_count,
                our_udp_version,
                our_public_ip@,
            ),
    {
        let (endpoint, source) = self.sources.entries[i];
        if let Some((buddy_endpoint, buddy_id)) = source.buddy_reask_target() {
            let datagram = build_reask_callback_udp_packet(
                &Ed2kHash(buddy_id),
                &source.file_hash,
                our_part_status,
                complete_source_count,
                source.udp_version,
            );
            return (buddy_endpoint, datagram);
        }
        let target = OutboundReaskTarget {
            dest_user_hash: match source.user_hash {
                Some(h) => h,
                None => [0u8; 16],
            },
            our_public_ip,
            obfuscate: source.should_crypt && source.user_hash.is_some(),
        };
        let datagram = build_reask_file_ping_packet(
            &source.file_hash,
            our_part_status,
            complete_source_count,
            our_udp_version,
            &target,
        );
        (endpoint, datagram)
    }

    /// The datagrams that reask every source which is due over UDP, and where
    /// they go to. From then on an answer of each is waited for.
    pub fn due_datagrams(
        &mut self,
        now: u64,
        our_part_status: Option<&[bool]>,
        complete_source_count: u16,
        our_udp_version: u8,
        our_public_ip: [u8; 4],
    ) -> (r: Vec<(SocketAddrV4, ClientUdpDatagram)>)
        requires
            set_well_formed(old(self)@),
        ensures
            ({
                let reasked = due_over_udp(old(self)@, now);
                &&& final(self)@ == (SourceSetView {
                    pending: marked(old(self)@.pending, reasked, now),
                    ..old(self)@
                })
                &&& r@.len() == reasked.len()
                &&& forall|i: int|
                    0 <= i < reasked.len() ==> (#[trigger] r@[i]).0 == reask_destination(
                        reasked[i],
                    ) && reasks(
                        r@[i].1,
                        reasked[i].1,
                        opt_parts_ref(our_part_status),
                        complete_source_count,
                        our_udp_version,
                        our_public_ip@,
                    )
            }),
    {
        let ghost all = self@.sources;
        let ghost before = self@.pending;
        let ghost keep = |p: (SocketAddrV4, ReaskSource)|
            is_due_in(p, before, now) && !p.1.fallback_tcp_only;
        let mut out: Vec<(SocketAddrV4, ClientUdpDatagram)> = Vec::new();
        let mut i: usize = 0;
        proof {
            reveal(Seq::filter);
            assert(all.take(0) =~= Seq::empty());
        }
        while i < self.sources.entries.len()
            invariant
                i <= self.sources.entries@.len(),
                all == self.sources.entries@,
                distinct(all),
                before == old(self)@.pending,
                all == old(self)@.sources,
                keep == (|p: (SocketAddrV4, ReaskSource)|
                    is_due_in(p, before, now) && !p.1.fallback_tcp_only),
                self@.pending == marked(before, all.take(i as int).filter(keep), now),
                out@.len() == all.take(i as int).filter(keep).len(),
                forall|j: int|
                    0 <= j < out@.len() ==> (#[trigger] out@[j]).0 == reask_destination(
                        all.take(i as int).filter(keep)[j],
                    ) && reasks(
                        out@[j].1,
                        all.take(i as int).filter(keep)[j].1,
                        opt_parts_ref(our_part_status),
                        complete_source_count,
                        our_udp_version,
                        our_public_ip@,
                    ),
            decreases self.sources.entries@.len() - i,
        {
            let ghost done = all.take(i as int).filter(keep);
            proof {
                reveal(Seq::filter);
                let next = all.take(i + 1);
                assert(next.drop_last() =~= all.take(i as int));
                assert(next.last() == all[i as int]);
                lemma_unmarked(before, done, all[i as int].0, now);
                lemma_filter_in(all.take(i as int), keep);
                assert forall|k: int| 0 <= k < done.len() implies (#[trigger] done[k]).0
                    != all[i as int].0 by {
                    let j = choose|j: int|
                        0 <= j < all.take(i as int).len() && all.take(i as int)[j] == done[k];
                    assert(all[j].0 != all[i as int].0);
                }
                assert(done.push(all[i as int]).drop_last() =~= done);
            }
            if self.is_due_at(i, now) && !self.sources.entries[i].1.fallback_tcp_only {
                let datagram = self.build_reask(
                    i,
                    our_part_status,
                    complete_source_count,
                    our_udp_version,
                    our_public_ip,
                );
                let (endpoint, source) = self.sources.entries[i];
                self.pending.mark_sent(endpoint.ip, endpoint.port, source.file_hash, now);
                out.push(datagram);
                assert(all.take(i + 1).filter(keep) == done.push(all[i as int]));
            } else {
                assert(all.take(i + 1).filter(keep) == done);
            }
            i += 1;
        }
        assert(all.take(i as int) =~= all);
        out
    }

    /// Notes that a source was reasked. Nothing happens where it is not in the
    /// set.
    pub fn mark_reasked(&mut self, ip: Ipv4Addr, udp_port: u16, now: u64)
        ensures
            ({
                let endpoint = SocketAddrV4 { ip, port: udp_port };
                final(self)@ == match value_of(old(self)@.sources, endpoint) {
                    Some(source) => SourceSetView {
                        pending: with_value(
                            old(self)@.pending,
                            endpoint,
                            (PendingReask { file_hash: source.file_hash, sent_at: now }),
                        ),
                        ..old(self)@
                    },
                    None => old(self)@,
                }
            }),
    {
        if let Some(source) = self.sources.get(&SocketAddrV4 { ip, port: udp_port }) {
            self.pending.mark_sent(ip, udp_port, source.file_hash, now);
        }
    }

    /// Takes an answer. Nothing comes back where none is waited for.
    pub fn apply_reply(&mut self, ip: Ipv4Addr, udp_port: u16, reply: ReaskReply, now: u64) -> (r:
        Option<ReaskAction>)
        requires
            answer_fits(old(self)@, (SocketAddrV4 { ip, port: udp_port }), reply, now),
        ensures
            (final(self)@, r) == reply_applied(
                old(self)@,
                (SocketAddrV4 { ip, port: udp_port }),
                reply,
                now,
            ),
    {
        let endpoint = SocketAddrV4 { ip, port: udp_port };
        if self.pending.take_reply(ip, udp_port).is_none() {
            return None;
        }
        let mut source: ReaskSource = match self.sources.get(&endpoint) {
            Some(source) => source,
            None => return None,
        };
        let action: ReaskAction = apply_reask_reply(&mut source, reply, now);
        if matches!(action, ReaskAction::DropSource) {
            let _ = self.sources.remove(&endpoint);
        } else {
            self.sources.insert(endpoint, source);
        }
        Some(action)
    }

    /// Gives up the reasks that waited too long, and says what that means for
    /// each source that is still there.
    pub fn drain_timeouts(&mut self, now: u64, timeout: u64) -> (r: Vec<
        (SocketAddrV4, ReaskAction),
    >)
        requires
            time_left(now),
        ensures
            (final(self)@, r@) == timeouts_drained(old(self)@, now, timeout),
    {
        let ghost before = self@.sources;
        let late: Vec<(SocketAddrV4, PendingReask)> = self.pending.drain_timed_out(now, timeout);
        let ghost after_pending = self@.pending;
        let mut out: Vec<(SocketAddrV4, ReaskAction)> = Vec::new();
        let mut i: usize = 0;
        assert(late@.take(0) =~= Seq::empty());
        while i < late.len()
            invariant
                i <= late@.len(),
                time_left(now),
                self@.pending == after_pending,
                (self@.sources, out@) == timeouts_applied(before, late@.take(i as int), now),
            decreases late@.len() - i,
        {
            let ghost next = late@.take(i + 1);
            assert(next.drop_last() =~= late@.take(i as int));
            assert(next.last() == late@[i as int]);
            let endpoint: SocketAddrV4 = late[i].0;
            if let Some(found) = self.sources.get(&endpoint) {
                let mut source: ReaskSource = found;
                let action: ReaskAction = apply_reask_reply(&mut source, ReaskReply::Timeout, now);
                self.sources.insert(endpoint, source);
                out.push((endpoint, action));
            }
            i += 1;
        }
        assert(late@.take(i as int) =~= late@);
        out
    }

    /// Takes a source out, with its reask.
    pub fn remove(&mut self, ip: Ipv4Addr, udp_port: u16) -> (r: Option<ReaskSource>)
        ensures
            ({
                let endpoint = SocketAddrV4 { ip, port: udp_port };
                &&& r == value_of(old(self)@.sources, endpoint)
                &&& final(self)@ == (SourceSetView {
                    sources: without_key(old(self)@.sources, endpoint),
                    pending: without_key(old(self)@.pending, endpoint),
                })
            }),
    {
        let endpoint = SocketAddrV4 { ip, port: udp_port };
        let _ = self.pending.take_reply(ip, udp_port);
        self.sources.remove(&endpoint)
    }

    /// Notes that a source has no part that is needed, and says whether it is
    /// in the set.
    pub fn mark_no_needed_parts(&mut self, ip: Ipv4Addr, udp_port: u16, now: u64) -> (r: bool)
        requires
            has_key(old(self)@.sources, (SocketAddrV4 { ip, port: udp_port })) ==> time_left(now),
        ensures
            ({
                let endpoint = SocketAddrV4 { ip, port: udp_port };
                &&& r == has_key(old(self)@.sources, endpoint)
                &&& final(self)@ == match value_of(old(self)@.sources, endpoint) {
                    Some(source) => SourceSetView {
                        sources: with_value(
                            old(self)@.sources,
                            endpoint,
                            without_needed_parts(source, now),
                        ),
                        ..old(self)@
                    },
                    None => old(self)@,
                }
            }),
    {
        let endpoint = SocketAddrV4 { ip, port: udp_port };
        match self.sources.get(&endpoint) {
            Some(found) => {
                let mut source: ReaskSource = found;
                source.mark_no_needed_parts(now);
                self.sources.insert(endpoint, source);
                true
            },
            None => false,
        }
    }

    /// A source of the set.
    pub fn get(&self, ip: Ipv4Addr, udp_port: u16) -> (r: Option<ReaskSource>)
        ensures
            r == value_of(self@.sources, (SocketAddrV4 { ip, port: udp_port })),
    {
        self.sources.get(&SocketAddrV4 { ip, port: udp_port })
    }

    /// How many sources there are.
    pub fn len(&self) -> (r: usize)
        ensures
            r == self@.sources.len(),
    {
        self.sources.len()
    }

    /// Whether there is no source.
    pub fn is_empty(&self) -> (r: bool)
        ensures
            r == (self@.sources.len() == 0),
    {
        self.sources.len() == 0
    }
}

// ---------------------------------------------------------------------------
// Lemmas and laws
// ---------------------------------------------------------------------------
/// Reasking sources leaves a reask to any other address and port as it is.
proof fn lemma_unmarked(
    pending: Seq<(SocketAddrV4, PendingReask)>,
    reasked: Seq<(SocketAddrV4, ReaskSource)>,
    endpoint: SocketAddrV4,
    now: u64,
)
    ensures
        (forall|i: int| 0 <= i < reasked.len() ==> (#[trigger] reasked[i]).0 != endpoint)
            ==> has_key(marked(pending, reasked, now), endpoint) == has_key(pending, endpoint),
    decreases reasked.len(),
{
    if reasked.len() > 0 && (forall|i: int|
        0 <= i < reasked.len() ==> (#[trigger] reasked[i]).0 != endpoint) {
        let head = reasked.drop_last();
        assert forall|i: int| 0 <= i < head.len() implies (#[trigger] head[i]).0 != endpoint by {
            assert(reasked[i].0 != endpoint);
        }
        lemma_unmarked(pending, head, endpoint, now);
        let last = reasked.last();
        assert(reasked[reasked.len() - 1].0 != endpoint);
        lemma_has_key_with(
            marked(pending, head, now),
            last.0,
            PendingReask { file_hash: last.1.file_hash, sent_at: now },
            endpoint,
        );
    }
}

/// A source that waits for an answer is not reasked.
pub proof fn law_one_reask_at_a_time(v: SourceSetView, now: u64)
    ensures
        forall|i: int|
            0 <= i < due_over_udp(v, now).len() ==> !has_key(
                v.pending,
                (#[trigger] due_over_udp(v, now)[i]).0,
            ) && !due_over_udp(v, now)[i].1.fallback_tcp_only && now >= due_over_udp(
                v,
                now,
            )[i].1.next_reask,
{
    let keep = |p: (SocketAddrV4, ReaskSource)|
        is_due_in(p, v.pending, now) && !p.1.fallback_tcp_only;
    lemma_filter_in(v.sources, keep);
}

/// An answer that nothing waits for changes nothing.
pub proof fn law_unsolicited_answer_is_dropped(
    v: SourceSetView,
    endpoint: SocketAddrV4,
    reply: ReaskReply,
    now: u64,
)
    requires
        !has_key(v.pending, endpoint),
    ensures
        reply_applied(v, endpoint, reply, now) == (v, None::<ReaskAction>),
{
}

/// An answer is waited for once: whatever it says, a second one changes
/// nothing.
pub proof fn law_second_answer_is_dropped(
    v: SourceSetView,
    endpoint: SocketAddrV4,
    first: ReaskReply,
    second: ReaskReply,
    now: u64,
)
    requires
        set_well_formed(v),
    ensures
        ({
            let after = reply_applied(v, endpoint, first, now).0;
            reply_applied(after, endpoint, second, now) == (after, None::<ReaskAction>)
        }),
{
    crate::keyed::law_value_is_gone(v.pending, endpoint, endpoint);
}

/// Every operation keeps each source and each reask in the set once.
pub proof fn law_set_stays_well_formed(
    v: SourceSetView,
    source: ReaskSource,
    endpoint: SocketAddrV4,
    reply: ReaskReply,
    now: u64,
    timeout: u64,
)
    requires
        set_well_formed(v),
    ensures
        set_well_formed(
            (SourceSetView { sources: with_value(v.sources, source.endpoint, source), ..v }),
        ),
        set_well_formed(reply_applied(v, endpoint, reply, now).0),
        set_well_formed(timeouts_drained(v, now, timeout).0),
        set_well_formed(
            (SourceSetView { pending: marked(v.pending, due_over_udp(v, now), now), ..v }),
        ),
        set_well_formed(
            (SourceSetView {
                sources: without_key(v.sources, endpoint),
                pending: without_key(v.pending, endpoint),
            }),
        ),
        set_well_formed(
            (SourceSetView {
                sources: with_value(v.sources, endpoint, without_needed_parts(source, now)),
                ..v
            }),
        ),
{
    crate::keyed::law_value_is_found(v.sources, source.endpoint, source, endpoint);
    crate::keyed::law_value_is_found(
        v.sources,
        endpoint,
        without_needed_parts(source, now),
        endpoint,
    );
    crate::keyed::law_value_is_gone(v.sources, endpoint, endpoint);
    crate::keyed::law_value_is_gone(v.pending, endpoint, endpoint);
    if let Some(known) = value_of(v.sources, endpoint) {
        crate::keyed::law_value_is_found(
            v.sources,
            endpoint,
            reacted(known, reply, now).0,
            endpoint,
        );
    }
    lemma_timeouts_distinct(v.sources, overdue(v.pending, now, timeout), now);
    lemma_filter_distinct(
        v.pending,
        |p: (SocketAddrV4, PendingReask)| !super::registry::is_overdue(p.1, now, timeout),
    );
    lemma_marked_distinct(v.pending, due_over_udp(v, now), now);
}

proof fn lemma_timeouts_distinct(
    sources: Seq<(SocketAddrV4, ReaskSource)>,
    late: Seq<(SocketAddrV4, PendingReask)>,
    now: u64,
)
    requires
        distinct(sources),
    ensures
        distinct(timeouts_applied(sources, late, now).0),
    decreases late.len(),
{
    if late.len() > 0 {
        lemma_timeouts_distinct(sources, late.drop_last(), now);
        let before = timeouts_applied(sources, late.drop_last(), now).0;
        let endpoint = late.last().0;
        if let Some(known) = value_of(before, endpoint) {
            crate::keyed::law_value_is_found(
                before,
                endpoint,
                reacted(known, ReaskReply::Timeout, now).0,
                endpoint,
            );
        }
    }
}

proof fn lemma_marked_distinct(
    pending: Seq<(SocketAddrV4, PendingReask)>,
    reasked: Seq<(SocketAddrV4, ReaskSource)>,
    now: u64,
)
    requires
        distinct(pending),
    ensures
        distinct(marked(pending, reasked, now)),
    decreases reasked.len(),
{
    if reasked.len() > 0 {
        lemma_marked_distinct(pending, reasked.drop_last(), now);
        crate::keyed::law_value_is_found(
            marked(pending, reasked.drop_last(), now),
            reasked.last().0,
            PendingReask { file_hash: reasked.last().1.file_hash, sent_at: now },
            reasked.last().0,
        );
    }
}

/// A source is reasked when its time has come, it waits for no answer, and reasks
/// of it do not fail too often; every such source is.
pub proof fn law_every_due_source_is_reasked(v: SourceSetView, now: u64, i: int)
    requires
        0 <= i < v.sources.len(),
    ensures
        ({
            let (endpoint, source) = v.sources[i];
            &&& source.next_reask <= now && value_of(v.pending, endpoint) is None
                && !source.fallback_tcp_only ==> due_over_udp(v, now).contains(v.sources[i])
            &&& source.next_reask <= now && value_of(v.pending, endpoint) is None
                ==> due_sources(v, now).contains(v.sources[i])
            &&& source.next_reask > now || value_of(v.pending, endpoint) is Some || source.fallback_tcp_only ==> !due_over_udp(
                v,
                now,
            ).contains(v.sources[i])
            &&& source.next_reask > now || value_of(v.pending, endpoint) is Some ==> !due_sources(
                v,
                now,
            ).contains(v.sources[i])
        }),
{
    let due = |p: (SocketAddrV4, ReaskSource)| is_due_in(p, v.pending, now);
    let udp = |p: (SocketAddrV4, ReaskSource)|
        is_due_in(p, v.pending, now) && !p.1.fallback_tcp_only;
    v.sources.filter_lemma(due);
    v.sources.filter_lemma(udp);
}

/// An answer that is waited for ends the waiting and touches one source alone:
/// it is dropped where the file is not there, else it holds what the answer
/// made of it.
pub proof fn law_answer_touches_one_source(
    v: SourceSetView,
    endpoint: SocketAddrV4,
    other: SocketAddrV4,
    reply: ReaskReply,
    now: u64,
)
    requires
        set_well_formed(v),
        value_of(v.pending, endpoint) is Some,
    ensures
        ({
            let (after, action) = reply_applied(v, endpoint, reply, now);
            &&& value_of(after.pending, endpoint) is None
            &&& other != endpoint ==> value_of(after.sources, other) == value_of(v.sources, other)
                && value_of(after.pending, other) == value_of(v.pending, other)
            &&& value_of(v.sources, endpoint) matches Some(source) ==> action == Some(
                reacted(source, reply, now).1,
            ) && value_of(after.sources, endpoint) == (if reply is FileNotFound {
                None
            } else {
                Some(reacted(source, reply, now).0)
            })
            &&& value_of(v.sources, endpoint) is None ==> action is None && after.sources
                == v.sources
        }),
{
    crate::keyed::law_value_is_gone(v.pending, endpoint, endpoint);
    crate::keyed::law_value_is_gone(v.pending, endpoint, other);
    crate::keyed::law_value_is_gone(v.sources, endpoint, endpoint);
    crate::keyed::law_value_is_gone(v.sources, endpoint, other);
    match value_of(v.sources, endpoint) {
        Some(source) => {
            let after = reacted(source, reply, now).0;
            crate::keyed::law_value_is_found(v.sources, endpoint, after, endpoint);
            crate::keyed::law_value_is_found(v.sources, endpoint, after, other);
        },
        None => {},
    }
}

/// A reask goes to the source itself, or to the buddy of one that cannot be
/// reached.
pub proof fn law_reask_goes_to_the_source_or_its_buddy(p: (SocketAddrV4, ReaskSource))
    ensures
        !p.1.low_id ==> reask_destination(p) == p.0,
        p.1.low_id && p.1.buddy_id is Some ==> (p.1.buddy_endpoint matches Some(buddy)
            ==> reask_destination(p) == buddy),
{
}

/// Each source whose answer is missing takes that as a failure, once; what it
/// means is told in the order in which the reasks went out. Other sources stay
/// as they are.
pub proof fn law_missing_answers_are_failures(
    sources: Seq<(SocketAddrV4, ReaskSource)>,
    late: Seq<(SocketAddrV4, PendingReask)>,
    now: u64,
    endpoint: SocketAddrV4,
)
    requires
        distinct(sources),
        distinct(late),
    ensures
        ({
            let (after, actions) = timeouts_applied(sources, late, now);
            &&& distinct(after)
            &&& !has_late(late, endpoint) ==> value_of(after, endpoint) == value_of(
                sources,
                endpoint,
            )
            &&& has_late(late, endpoint) ==> (match value_of(sources, endpoint) {
                Some(source) => value_of(after, endpoint) == Some(
                    reacted(source, ReaskReply::Timeout, now).0,
                ) && actions.contains((endpoint, reacted(source, ReaskReply::Timeout, now).1)),
                None => value_of(after, endpoint) is None,
            })
        }),
    decreases late.len(),
{
    if late.len() > 0 {
        let earlier = late.drop_last();
        let last = late.last().0;
        assert forall|i: int, j: int|
            0 <= i < j < earlier.len() implies #[trigger] earlier[i].0 != #[trigger] earlier[j].0 by {
            assert(late[i].0 != late[j].0);
        }
        law_missing_answers_are_failures(sources, earlier, now, endpoint);
        law_missing_answers_are_failures(sources, earlier, now, last);
        let (before, actions) = timeouts_applied(sources, earlier, now);
        if has_late(earlier, last) {
            let i = choose|i: int| 0 <= i < earlier.len() && (#[trigger] earlier[i]).0 == last;
            assert(late[i].0 != late[late.len() - 1].0);
        }
        if has_late(earlier, endpoint) {
            let i = choose|i: int| 0 <= i < earlier.len() && (#[trigger] earlier[i]).0 == endpoint;
            assert(late[i].0 == endpoint);
        }
        if has_late(late, endpoint) && endpoint != last {
            let i = choose|i: int| 0 <= i < late.len() && (#[trigger] late[i]).0 == endpoint;
            assert(earlier[i].0 == endpoint);
        }
        if endpoint == last {
            assert(late[late.len() - 1].0 == endpoint);
        }
        match value_of(before, last) {
            None => {},
            Some(source) => {
                let (next, action) = reacted(source, ReaskReply::Timeout, now);
                crate::keyed::law_value_is_found(before, last, next, endpoint);
                crate::keyed::law_value_is_found(before, last, next, last);
                let all = actions.push((last, action));
                assert(all[actions.len() as int] == (last, action));
                match value_of(sources, endpoint) {
                    Some(s) => {
                        let x = (endpoint, reacted(s, ReaskReply::Timeout, now).1);
                        if actions.contains(x) {
                            let k = actions.index_of(x);
                            assert(all[k] == x);
                        }
                    },
                    None => {},
                }
            },
        }
    }
}

/// Whether a reask to `endpoint` is among those that are late.
pub open spec fn has_late(late: Seq<(SocketAddrV4, PendingReask)>, endpoint: SocketAddrV4) -> bool {
    exists|i: int| 0 <= i < late.len() && (#[trigger] late[i]).0 == endpoint
}

/// A reask that goes out waits for its answer from now on, under the file of its
/// source; whatever else waits goes on.
pub proof fn law_reasked_source_waits(
    pending: Seq<(SocketAddrV4, PendingReask)>,
    endpoint: SocketAddrV4,
    source: ReaskSource,
    now: u64,
    other: SocketAddrV4,
)
    requires
        distinct(pending),
    ensures
        ({
            let after = marked(pending, seq![(endpoint, source)], now);
            &&& value_of(after, endpoint) == Some(
                PendingReask { file_hash: source.file_hash, sent_at: now },
            )
            &&& other != endpoint ==> value_of(after, other) == value_of(pending, other)
        }),
        marked(pending, Seq::empty(), now) == pending,
{
    let one = seq![(endpoint, source)];
    assert(one.drop_last() =~= Seq::empty());
    assert(marked(pending, one.drop_last(), now) == pending);
    let p = PendingReask { file_hash: source.file_hash, sent_at: now };
    crate::keyed::law_value_is_found(pending, endpoint, p, endpoint);
    crate::keyed::law_value_is_found(pending, endpoint, p, other);
}

} // verus!
