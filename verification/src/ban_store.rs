//! Clients that are banned for a while, by address and by user hash.
//!
//! A ban runs out after a fixed time and is not kept across restarts. Times
//! are milliseconds of one clock.
use vstd::prelude::*;

use crate::addr::Ipv4Addr;
use crate::ids::Ed2kHash;
use crate::keyed::{
    distinct, lemma_filter_distinct, lemma_filter_in, value_of, with_value, without_key, Key,
    KeyedList,
};

verus! {

/// How long a ban lasts: four hours.
pub const CLIENT_BAN_TIME: u64 = 14_400_000;

/// The banned clients.
#[derive(Debug)]
pub struct BanStore {
    /// When an address was banned.
    pub by_ip: KeyedList<Ipv4Addr, u64>,
    /// When a user hash was banned.
    pub by_hash: KeyedList<Ed2kHash, u64>,
}

/// Whether a hash is all zero, so that it names no client.
pub open spec fn zero_hash(h: Seq<u8>) -> bool {
    h == Seq::new(16, |i: int| 0u8)
}

fn is_zero_hash(h: &[u8; 16]) -> (r: bool)
    ensures
        r == zero_hash(h@),
{
    let mut i: usize = 0;
    while i < 16
        invariant
            i <= 16,
            forall|k: int| 0 <= k < i ==> h@[k] == 0,
        decreases 16 - i,
    {
        if h[i] != 0 {
            assert(h@[i as int] != Seq::new(16, |i: int| 0u8)[i as int]);
            return false;
        }
        i += 1;
    }
    assert(h@ =~= Seq::new(16, |i: int| 0u8));
    true
}

/// Whether a ban that was placed at `placed` is on at `now`.
pub open spec fn lasts(placed: u64, now: u64) -> bool {
    now < placed + CLIENT_BAN_TIME
}

/// Whether a ban that was placed at `placed` is on at `now`.
fn is_lasting(placed: u64, now: u64) -> (r: bool)
    ensures
        r == lasts(placed, now),
{
    now < placed || now - placed < CLIENT_BAN_TIME
}

/// Whether a ban is still on.
pub open spec fn still_on<K>(s: Seq<(K, u64)>, k: K, now: u64) -> bool {
    value_of(s, k) matches Some(placed) && lasts(placed, now)
}

/// The bans that are still on.
pub open spec fn live<K>(s: Seq<(K, u64)>, now: u64) -> Seq<(K, u64)> {
    s.filter(|p: (K, u64)| lasts(p.1, now))
}

fn keep_live<K: Key>(list: &mut KeyedList<K, u64>, now: u64)
    ensures
        final(list)@ == live(old(list)@, now),
{
    let ghost all = list@;
    let mut kept: Vec<(K, u64)> = Vec::new();
    let mut i: usize = 0;
    proof {
        reveal(Seq::filter);
        assert(all.take(0) =~= Seq::empty());
    }
    while i < list.entries.len()
        invariant
            i <= list.entries@.len(),
            list@ == all,
            kept@ == live(all.take(i as int), now),
        decreases list.entries@.len() - i,
    {
        proof {
            reveal(Seq::filter);
            let next = all.take(i + 1);
            assert(next.drop_last() =~= all.take(i as int));
            assert(next.last() == all[i as int]);
        }
        let entry: (K, u64) = list.entries[i];
        if is_lasting(entry.1, now) {
            kept.push(entry);
        }
        i += 1;
    }
    assert(all.take(i as int) =~= all);
    list.entries = kept;
}

/// The bans by address once `ip` is banned at `now`. The unspecified address
/// names no client.
pub open spec fn ip_banned(s: Seq<(Ipv4Addr, u64)>, ip: Option<Ipv4Addr>, now: u64) -> Seq<
    (Ipv4Addr, u64),
> {
    match ip {
        Some(ip) => if ip.unspecified() {
            s
        } else {
            with_value(s, ip, now)
        },
        None => s,
    }
}

/// The bans by user hash once `user_hash` is banned at `now`. The zero hash
/// names no client.
pub open spec fn hash_banned(s: Seq<(Ed2kHash, u64)>, user_hash: Option<[u8; 16]>, now: u64) -> Seq<
    (Ed2kHash, u64),
> {
    match user_hash {
        Some(h) => if zero_hash(h@) {
            s
        } else {
            with_value(s, Ed2kHash(h), now)
        },
        None => s,
    }
}

/// Whether a client is banned, by either key.
pub open spec fn is_banned(
    by_ip: Seq<(Ipv4Addr, u64)>,
    by_hash: Seq<(Ed2kHash, u64)>,
    ip: Option<Ipv4Addr>,
    user_hash: Option<[u8; 16]>,
    now: u64,
) -> bool {
    ||| (user_hash matches Some(h) && still_on(by_hash, Ed2kHash(h), now))
    ||| (ip matches Some(ip) && still_on(by_ip, ip, now))
}

impl BanStore {
    /// No key is banned twice.
    pub open spec fn well_formed(&self) -> bool {
        distinct(self.by_ip@) && distinct(self.by_hash@)
    }

    /// No client is banned.
    pub fn new() -> (r: Self)
        ensures
            r.well_formed(),
            r.by_ip@ == Seq::<(Ipv4Addr, u64)>::empty(),
            r.by_hash@ == Seq::<(Ed2kHash, u64)>::empty(),
    {
        BanStore { by_ip: KeyedList::new(), by_hash: KeyedList::new() }
    }

    /// Bans a client by its address, by its user hash, or by both. The
    /// unspecified address and the zero hash name no client.
    pub fn ban_at(&mut self, ip: Option<Ipv4Addr>, user_hash: Option<[u8; 16]>, now: u64)
        requires
            old(self).well_formed(),
        ensures
            final(self).well_formed(),
            final(self).by_ip@ == ip_banned(old(self).by_ip@, ip, now),
            final(self).by_hash@ == hash_banned(old(self).by_hash@, user_hash, now),
    {
        if let Some(ip) = ip {
            if !ip.is_unspecified() {
                proof {
                    crate::keyed::law_value_is_found(self.by_ip@, ip, now, ip);
                }
                self.by_ip.insert(ip, now);
            }
        }
        if let Some(h) = user_hash {
            if !is_zero_hash(&h) {
                proof {
                    crate::keyed::law_value_is_found(
                        self.by_hash@,
                        Ed2kHash(h),
                        now,
                        Ed2kHash(h),
                    );
                }
                self.by_hash.insert(Ed2kHash(h), now);
            }
        }
    }

    /// Whether an address is banned.
    pub fn is_ip_banned_at(&self, ip: Ipv4Addr, now: u64) -> (r: bool)
        ensures
            r == still_on(self.by_ip@, ip, now),
    {
        match self.by_ip.get(&ip) {
            Some(placed) => is_lasting(placed, now),
            None => false,
        }
    }

    /// Whether a user hash is banned.
    pub fn is_hash_banned_at(&self, user_hash: &[u8; 16], now: u64) -> (r: bool)
        ensures
            r == still_on(self.by_hash@, Ed2kHash(*user_hash), now),
    {
        match self.by_hash.get(&Ed2kHash(*user_hash)) {
            Some(placed) => is_lasting(placed, now),
            None => false,
        }
    }

    /// Whether a client is banned, by either key.
    pub fn is_banned_at(&self, ip: Option<Ipv4Addr>, user_hash: Option<&[u8; 16]>, now: u64) -> (r:
        bool)
        ensures
            r == is_banned(
                self.by_ip@,
                self.by_hash@,
                ip,
                match user_hash {
                    Some(h) => Some(*h),
                    None => None,
                },
                now,
            ),
    {
        if let Some(h) = user_hash {
            if self.is_hash_banned_at(h, now) {
                return true;
            }
        }
        match ip {
            Some(ip) => self.is_ip_banned_at(ip, now),
            None => false,
        }
    }

    /// Lifts the ban of an address, of a user hash, or of both.
    pub fn unban(&mut self, ip: Option<Ipv4Addr>, user_hash: Option<&[u8; 16]>)
        requires
            old(self).well_formed(),
        ensures
            final(self).well_formed(),
            final(self).by_ip@ == match ip {
                Some(ip) => without_key(old(self).by_ip@, ip),
                None => old(self).by_ip@,
            },
            final(self).by_hash@ == match user_hash {
                Some(h) => without_key(old(self).by_hash@, Ed2kHash(*h)),
                None => old(self).by_hash@,
            },
    {
        if let Some(ip) = ip {
            proof {
                crate::keyed::law_value_is_gone(self.by_ip@, ip, ip);
            }
            let _ = self.by_ip.remove(&ip);
        }
        if let Some(h) = user_hash {
            proof {
                crate::keyed::law_value_is_gone(self.by_hash@, Ed2kHash(*h), Ed2kHash(*h));
            }
            let _ = self.by_hash.remove(&Ed2kHash(*h));
        }
    }

    /// Forgets every ban that has run out.
    pub fn prune_expired(&mut self, now: u64)
        requires
            old(self).well_formed(),
        ensures
            final(self).well_formed(),
            final(self).by_ip@ == live(old(self).by_ip@, now),
            final(self).by_hash@ == live(old(self).by_hash@, now),
    {
        proof {
            lemma_filter_distinct(self.by_ip@, |p: (Ipv4Addr, u64)| lasts(p.1, now));
            lemma_filter_distinct(self.by_hash@, |p: (Ed2kHash, u64)| lasts(p.1, now));
        }
        keep_live(&mut self.by_ip, now);
        keep_live(&mut self.by_hash, now);
    }
}

// ---------------------------------------------------------------------------
// Laws
// ---------------------------------------------------------------------------
proof fn lemma_live_keeps<K>(s: Seq<(K, u64)>, now: u64, i: int)
    requires
        0 <= i < s.len(),
        lasts(s[i].1, now),
    ensures
        live(s, now).contains(s[i]),
    decreases s.len(),
{
    reveal(Seq::filter);
    let t = live(s, now);
    if i < s.len() - 1 {
        lemma_live_keeps(s.drop_last(), now, i);
        let rest = live(s.drop_last(), now);
        let j = choose|j: int| 0 <= j < rest.len() && rest[j] == s[i];
        assert(t[j] == s[i]);
    } else {
        assert(t[t.len() - 1] == s[i]);
    }
}

/// A ban is on from the moment it is placed until its time has run out, and
/// not after.
pub proof fn law_ban_runs_out<K>(s: Seq<(K, u64)>, k: K, placed: u64, now: u64)
    requires
        distinct(s),
    ensures
        still_on(with_value(s, k, placed), k, now) <==> now < placed + CLIENT_BAN_TIME,
{
    crate::keyed::law_value_is_found(s, k, placed, k);
}

/// Where one ban was placed and nothing else, a client is banned if it has the
/// banned address or the banned user hash and four hours are not over yet, and
/// only then. A key that names no client bans nobody.
pub proof fn law_single_ban(
    banned_ip: Option<Ipv4Addr>,
    banned_hash: Option<[u8; 16]>,
    placed: u64,
    ip: Option<Ipv4Addr>,
    user_hash: Option<[u8; 16]>,
    now: u64,
)
    ensures
        is_banned(
            ip_banned(Seq::empty(), banned_ip, placed),
            hash_banned(Seq::empty(), banned_hash, placed),
            ip,
            user_hash,
            now,
        ) <==> now < placed + CLIENT_BAN_TIME && ((ip matches Some(i) && !i.unspecified()
            && banned_ip == Some(i)) || (user_hash matches Some(h) && !zero_hash(h@)
            && banned_hash == Some(h))),
{
    let no_ips = Seq::<(Ipv4Addr, u64)>::empty();
    let no_hashes = Seq::<(Ed2kHash, u64)>::empty();
    if let Some(b) = banned_ip {
        if let Some(i) = ip {
            crate::keyed::law_value_is_found(no_ips, b, placed, i);
        }
    }
    if let Some(b) = banned_hash {
        if let Some(h) = user_hash {
            crate::keyed::law_value_is_found(no_hashes, Ed2kHash(b), placed, Ed2kHash(h));
        }
    }
}

/// A ban that is lifted is off.
pub proof fn law_unban_lifts_the_ban<K>(s: Seq<(K, u64)>, k: K, now: u64)
    requires
        distinct(s),
    ensures
        !still_on(without_key(s, k), k, now),
{
    crate::keyed::law_value_is_gone(s, k, k);
}

/// Forgetting what has run out changes no answer, now or later.
pub proof fn law_pruning_changes_no_answer<K>(s: Seq<(K, u64)>, k: K, now: u64, later: u64)
    requires
        distinct(s),
        now <= later,
    ensures
        still_on(live(s, now), k, later) <==> still_on(s, k, later),
{
    let t = live(s, now);
    let keep = |p: (K, u64)| lasts(p.1, now);
    lemma_filter_distinct(s, keep);
    lemma_filter_in(s, keep);
    crate::keyed::lemma_position(s, k, 0);
    crate::keyed::lemma_position(t, k, 0);
    let p = crate::keyed::position(s, k, 0);
    let q = crate::keyed::position(t, k, 0);
    if q < t.len() {
        assert(s.contains(t[q]));
        let j = choose|j: int| 0 <= j < s.len() && s[j] == t[q];
        crate::keyed::lemma_found_at(s, j);
    }
    if p < s.len() && lasts(s[p].1, now) {
        lemma_live_keeps(s, now, p);
        let j = choose|j: int| 0 <= j < t.len() && t[j] == s[p];
        crate::keyed::lemma_found_at(t, j);
    }
}

/// A ban lasts four hours from the moment it is placed, and not one millisecond
/// more.
pub proof fn law_ban_lasts_four_hours(placed: u64, now: u64)
    ensures
        lasts(placed, now) <==> now < placed + 4 * 60 * 60 * 1000,
{
}

/// Banning one client leaves every other as it is. A second ban on the same one
/// starts its time anew.
pub proof fn law_ban_touches_one_client(
    s: Seq<(Ipv4Addr, u64)>,
    ip: Ipv4Addr,
    other: Ipv4Addr,
    placed: u64,
    now: u64,
)
    requires
        distinct(s),
        ip.a != 0 || ip.b != 0 || ip.c != 0 || ip.d != 0,
    ensures
        still_on(ip_banned(s, Some(ip), placed), ip, now) <==> now < placed + 14_400_000,
        other != ip ==> still_on(ip_banned(s, Some(ip), placed), other, now) == still_on(
            s,
            other,
            now,
        ),
        ip_banned(s, None, placed) == s,
{
    crate::keyed::law_value_is_found(s, ip, placed, ip);
    crate::keyed::law_value_is_found(s, ip, placed, other);
}

/// The zero hash and no hash ban nobody; any other hash bans one user.
pub proof fn law_hash_ban_touches_one_user(
    s: Seq<(Ed2kHash, u64)>,
    hash: [u8; 16],
    other: Ed2kHash,
    placed: u64,
    now: u64,
)
    requires
        distinct(s),
    ensures
        hash_banned(s, None, placed) == s,
        (forall|i: int| 0 <= i < 16 ==> #[trigger] hash@[i] == 0) ==> hash_banned(
            s,
            Some(hash),
            placed,
        ) == s,
        (exists|i: int| 0 <= i < 16 && #[trigger] hash@[i] != 0) ==> (still_on(
            hash_banned(s, Some(hash), placed),
            Ed2kHash(hash),
            now,
        ) <==> now < placed + 14_400_000),
        other != Ed2kHash(hash) ==> still_on(hash_banned(s, Some(hash), placed), other, now)
            == still_on(s, other, now),
{
    let zeros = Seq::new(16, |i: int| 0u8);
    if forall|i: int| 0 <= i < 16 ==> #[trigger] hash@[i] == 0 {
        assert(hash@ =~= zeros);
    }
    if exists|i: int| 0 <= i < 16 && #[trigger] hash@[i] != 0 {
        let i = choose|i: int| 0 <= i < 16 && #[trigger] hash@[i] != 0;
        assert(zeros[i] == 0);
        assert(hash@ != zeros);
    }
    crate::keyed::law_value_is_found(s, Ed2kHash(hash), placed, Ed2kHash(hash));
    crate::keyed::law_value_is_found(s, Ed2kHash(hash), placed, other);
}

} // verus!
