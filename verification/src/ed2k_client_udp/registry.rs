//! The reasks that wait for an answer. An answer counts only where one is
//! waited for.
use vstd::prelude::*;

use crate::addr::{Ipv4Addr, SocketAddrV4};
use crate::ids::Ed2kHash;
use crate::keyed::{distinct, has_key, value_of, with_value, without_key, KeyedList};

verus! {

/// A reask that waits for an answer.
#[derive(Debug, Clone, Copy, PartialEq, Eq)]
pub struct PendingReask {
    pub file_hash: Ed2kHash,
    pub sent_at: u64,
}

/// The reasks that wait for an answer, by the address and port they went to.
#[derive(Debug)]
pub struct ReaskPendingRegistry {
    pub pending: KeyedList<SocketAddrV4, PendingReask>,
}

impl View for ReaskPendingRegistry {
    type V = Seq<(SocketAddrV4, PendingReask)>;

    open spec fn view(&self) -> Seq<(SocketAddrV4, PendingReask)> {
        self.pending@
    }
}

/// Whether a reask has waited longer than `timeout`.
pub open spec fn is_overdue(p: PendingReask, now: u64, timeout: u64) -> bool {
    now - p.sent_at > timeout
}

/// The reasks that have waited too long.
pub open spec fn overdue(
    s: Seq<(SocketAddrV4, PendingReask)>,
    now: u64,
    timeout: u64,
) -> Seq<(SocketAddrV4, PendingReask)> {
    s.filter(|p: (SocketAddrV4, PendingReask)| is_overdue(p.1, now, timeout))
}

/// The reasks that have not waited too long.
pub open spec fn in_time(
    s: Seq<(SocketAddrV4, PendingReask)>,
    now: u64,
    timeout: u64,
) -> Seq<(SocketAddrV4, PendingReask)> {
    s.filter(|p: (SocketAddrV4, PendingReask)| !is_overdue(p.1, now, timeout))
}

impl ReaskPendingRegistry {
    /// No reask waits for an answer.
    pub fn new() -> (r: Self)
        ensures
            r@ == Seq::<(SocketAddrV4, PendingReask)>::empty(),
    {
        ReaskPendingRegistry { pending: KeyedList::new() }
    }

    /// Notes that a reask went out, in the place of any other to that address
    /// and port.
    pub fn mark_sent(&mut self, ip: Ipv4Addr, udp_port: u16, file_hash: Ed2kHash, now: u64)
        ensures
            final(self)@ == with_value(
                old(self)@,
                (SocketAddrV4 { ip, port: udp_port }),
                (PendingReask { file_hash, sent_at: now }),
            ),
    {
        self.pending.insert(
            SocketAddrV4 { ip, port: udp_port },
            PendingReask { file_hash, sent_at: now },
        );
    }

    /// Whether a reask waits for an answer.
    pub fn is_pending(&self, ip: Ipv4Addr, udp_port: u16) -> (r: bool)
        ensures
            r == has_key(self@, (SocketAddrV4 { ip, port: udp_port })),
    {
        self.pending.contains(&SocketAddrV4 { ip, port: udp_port })
    }

    /// Takes the answer to a reask; nothing where none is waited for.
    pub fn take_reply(&mut self, ip: Ipv4Addr, udp_port: u16) -> (r: Option<PendingReask>)
        ensures
            r == value_of(old(self)@, (SocketAddrV4 { ip, port: udp_port })),
            final(self)@ == without_key(old(self)@, (SocketAddrV4 { ip, port: udp_port })),
    {
        self.pending.remove(&SocketAddrV4 { ip, port: udp_port })
    }

    /// Gives up the reasks that have waited too long, and says which.
    pub fn drain_timed_out(&mut self, now: u64, timeout: u64) -> (r: Vec<
        (SocketAddrV4, PendingReask),
    >)
        ensures
            r@ == overdue(old(self)@, now, timeout),
            final(self)@ == in_time(old(self)@, now, timeout),
    {
        let ghost all = self@;
        let mut expired: Vec<(SocketAddrV4, PendingReask)> = Vec::new();
        let mut kept: Vec<(SocketAddrV4, PendingReask)> = Vec::new();
        let mut i: usize = 0;
        proof {
            reveal(Seq::filter);
            assert(all.take(0) =~= Seq::empty());
        }
        while i < self.pending.entries.len()
            invariant
                i <= self.pending.entries@.len(),
                self@ == all,
                expired@ == overdue(all.take(i as int), now, timeout),
                kept@ == in_time(all.take(i as int), now, timeout),
            decreases self.pending.entries@.len() - i,
        {
            proof {
                reveal(Seq::filter);
                let next = all.take(i + 1);
                assert(next.drop_last() =~= all.take(i as int));
                assert(next.last() == all[i as int]);
            }
            let entry: (SocketAddrV4, PendingReask) = self.pending.entries[i];
            if now > entry.1.sent_at && now - entry.1.sent_at > timeout {
                expired.push(entry);
            } else {
                kept.push(entry);
            }
            i += 1;
        }
        assert(all.take(i as int) =~= all);
        self.pending.entries = kept;
        expired
    }

    /// How many reasks wait for an answer.
    pub fn len(&self) -> (r: usize)
        ensures
            r == self@.len(),
    {
        self.pending.len()
    }
}

/// An answer is taken once: a second one is unsolicited.
pub proof fn law_answer_is_taken_once(
    s: Seq<(SocketAddrV4, PendingReask)>,
    endpoint: SocketAddrV4,
    reask: PendingReask,
)
    requires
        distinct(s),
    ensures
        ({
            let waiting = with_value(s, endpoint, reask);
            &&& value_of(waiting, endpoint) == Some(reask)
            &&& value_of(without_key(waiting, endpoint), endpoint) is None
        }),
{
    crate::keyed::law_value_is_found(s, endpoint, reask, endpoint);
    crate::keyed::law_value_is_gone(with_value(s, endpoint, reask), endpoint, endpoint);
}

/// Every reask that waits is either given up or goes on waiting: it is given up
/// where it has waited longer than the limit, and only there.
pub proof fn law_reasks_are_given_up_in_time(
    s: Seq<(SocketAddrV4, PendingReask)>,
    now: u64,
    timeout: u64,
    i: int,
)
    requires
        0 <= i < s.len(),
    ensures
        now > s[i].1.sent_at + timeout ==> overdue(s, now, timeout).contains(s[i]) && !in_time(
            s,
            now,
            timeout,
        ).contains(s[i]),
        now <= s[i].1.sent_at + timeout ==> in_time(s, now, timeout).contains(s[i]) && !overdue(
            s,
            now,
            timeout,
        ).contains(s[i]),
        overdue(s, now, timeout).len() + in_time(s, now, timeout).len() == s.len(),
{
    let late = |p: (SocketAddrV4, PendingReask)| is_overdue(p.1, now, timeout);
    let early = |p: (SocketAddrV4, PendingReask)| !is_overdue(p.1, now, timeout);
    s.filter_lemma(late);
    s.filter_lemma(early);
    lemma_parted(s, now, timeout);
}

proof fn lemma_parted(s: Seq<(SocketAddrV4, PendingReask)>, now: u64, timeout: u64)
    ensures
        overdue(s, now, timeout).len() + in_time(s, now, timeout).len() == s.len(),
    decreases s.len(),
{
    reveal(Seq::filter);
    if s.len() > 0 {
        lemma_parted(s.drop_last(), now, timeout);
    }
}

} // verus!
