//! Values by key, in the order in which their keys first came.
use vstd::prelude::*;

use crate::addr::{Ipv4Addr, SocketAddrV4};
use crate::ids::Ed2kHash;

verus! {

/// What a value can be found by.
pub trait Key: Sized + Copy {
    /// Whether two keys are the same.
    fn same(&self, other: &Self) -> (r: bool)
        ensures
            r == (*self == *other),
    ;
}

impl Key for Ipv4Addr {
    fn same(&self, other: &Self) -> (r: bool) {
        *self == *other
    }
}

impl Key for SocketAddrV4 {
    fn same(&self, other: &Self) -> (r: bool) {
        *self == *other
    }
}

impl Key for Ed2kHash {
    fn same(&self, other: &Self) -> (r: bool) {
        Ed2kHash::same(self, other)
    }
}

/// The first position from `i` on of a key, or the end.
pub open spec fn position<K, V>(s: Seq<(K, V)>, k: K, i: int) -> int
    decreases s.len() - i,
{
    if 0 <= i < s.len() && s[i].0 != k {
        position(s, k, i + 1)
    } else {
        i
    }
}

/// Whether a key is there.
pub open spec fn has_key<K, V>(s: Seq<(K, V)>, k: K) -> bool {
    position(s, k, 0) < s.len()
}

/// The value by a key.
pub open spec fn value_of<K, V>(s: Seq<(K, V)>, k: K) -> Option<V> {
    if has_key(s, k) {
        Some(s[position(s, k, 0)].1)
    } else {
        None
    }
}

/// The values with another one by a key: in the place of the one by that key,
/// or at the end.
pub open spec fn with_value<K, V>(s: Seq<(K, V)>, k: K, v: V) -> Seq<(K, V)> {
    if has_key(s, k) {
        s.update(position(s, k, 0), (k, v))
    } else {
        s.push((k, v))
    }
}

/// The values without the one by a key.
pub open spec fn without_key<K, V>(s: Seq<(K, V)>, k: K) -> Seq<(K, V)> {
    if has_key(s, k) {
        s.remove(position(s, k, 0))
    } else {
        s
    }
}

/// No key is there twice.
pub open spec fn distinct<K, V>(s: Seq<(K, V)>) -> bool {
    forall|i: int, j: int| 0 <= i < j < s.len() ==> (#[trigger] s[i]).0 != (#[trigger] s[j]).0
}

/// Where a key is found, or not.
pub proof fn lemma_position<K, V>(s: Seq<(K, V)>, k: K, i: int)
    requires
        0 <= i <= s.len(),
    ensures
        i <= position(s, k, i) <= s.len(),
        position(s, k, i) < s.len() ==> s[position(s, k, i)].0 == k,
        forall|j: int| i <= j < position(s, k, i) ==> (#[trigger] s[j]).0 != k,
    decreases s.len() - i,
{
    if i < s.len() && s[i].0 != k {
        lemma_position(s, k, i + 1);
    }
}

/// A key that stands somewhere is found there, where no key is there twice.
pub proof fn lemma_found_at<K, V>(s: Seq<(K, V)>, at: int)
    requires
        distinct(s),
        0 <= at < s.len(),
    ensures
        position(s, s[at].0, 0) == at,
        value_of(s, s[at].0) == Some(s[at].1),
{
    let k = s[at].0;
    lemma_position(s, k, 0);
    let p = position(s, k, 0);
    if p < at {
        assert(s[p].0 != s[at].0);
    }
}

/// A value that is put in is found by its key, and no other value changes.
pub proof fn law_value_is_found<K, V>(s: Seq<(K, V)>, k: K, v: V, other: K)
    requires
        distinct(s),
    ensures
        distinct(with_value(s, k, v)),
        value_of(with_value(s, k, v), k) == Some(v),
        other != k ==> value_of(with_value(s, k, v), other) == value_of(s, other),
{
    let t = with_value(s, k, v);
    lemma_position(s, k, 0);
    lemma_position(s, other, 0);
    lemma_position(t, k, 0);
    lemma_position(t, other, 0);
    let at = position(s, k, 0);
    let p = position(s, other, 0);
    assert(distinct(t)) by {
        assert forall|i: int, j: int| 0 <= i < j < t.len() implies (#[trigger] t[i]).0 != (
        #[trigger] t[j]).0 by {
            if j < s.len() {
                assert(s[i].0 != s[j].0);
            } else {
                assert(s[i].0 != k);
            }
        }
    }
    if at < s.len() {
        assert(t[at].0 == k);
        lemma_found_at(t, at);
    } else {
        assert(t[s.len() as int].0 == k);
        lemma_found_at(t, s.len() as int);
    }
    if other != k {
        if p < s.len() {
            assert(t[p] == s[p]);
            lemma_found_at(t, p);
        } else {
            let q = position(t, other, 0);
            if q < t.len() {
                assert(t[q].0 == other);
                assert(q < s.len() ==> s[q].0 == t[q].0);
            }
        }
    }
}

/// A value that is taken out is gone, and no other value changes.
pub proof fn law_value_is_gone<K, V>(s: Seq<(K, V)>, k: K, other: K)
    requires
        distinct(s),
    ensures
        distinct(without_key(s, k)),
        !has_key(without_key(s, k), k),
        other != k ==> value_of(without_key(s, k), other) == value_of(s, other),
{
    let t = without_key(s, k);
    lemma_position(s, k, 0);
    lemma_position(s, other, 0);
    lemma_position(t, k, 0);
    lemma_position(t, other, 0);
    let at = position(s, k, 0);
    if at < s.len() {
        assert forall|i: int| 0 <= i < t.len() implies #[trigger] t[i] == s[if i < at {
            i
        } else {
            i + 1
        }] by {}
        assert(distinct(t)) by {
            assert forall|i: int, j: int| 0 <= i < j < t.len() implies (#[trigger] t[i]).0 != (
            #[trigger] t[j]).0 by {
                let a = if i < at {
                    i
                } else {
                    i + 1
                };
                let b = if j < at {
                    j
                } else {
                    j + 1
                };
                assert(s[a].0 != s[b].0);
            }
        }
        let q = position(t, k, 0);
        if q < t.len() {
            let a = if q < at {
                q
            } else {
                q + 1
            };
            assert(s[a].0 == k);
            if a < at {
                assert(s[a].0 != s[at].0);
            } else {
                assert(s[at].0 != s[a].0);
            }
        }
        if other != k {
            let p = position(s, other, 0);
            if p < s.len() {
                let b = if p < at {
                    p
                } else {
                    p - 1
                };
                assert(t[b] == s[p]);
                lemma_found_at(t, b);
            } else {
                let o = position(t, other, 0);
                if o < t.len() {
                    let a = if o < at {
                        o
                    } else {
                        o + 1
                    };
                    assert(s[a].0 == other);
                }
            }
        }
    }
}

/// Putting a value in leaves whether another key is there as it is.
pub proof fn lemma_has_key_with<K, V>(s: Seq<(K, V)>, k: K, v: V, other: K)
    ensures
        other != k ==> has_key(with_value(s, k, v), other) == has_key(s, other),
        has_key(with_value(s, k, v), k),
{
    let t = with_value(s, k, v);
    lemma_position(s, k, 0);
    lemma_position(s, other, 0);
    lemma_position(t, k, 0);
    lemma_position(t, other, 0);
    let at = position(s, k, 0);
    let p = position(s, other, 0);
    let q = position(t, other, 0);
    let h = position(t, k, 0);
    if h >= t.len() {
        if at < s.len() {
            assert(t[at].0 == k);
        } else {
            assert(t[s.len() as int].0 == k);
        }
    }
    if other != k {
        if p < s.len() && q >= t.len() {
            assert(t[p].0 == s[p].0);
        }
        if q < t.len() && p >= s.len() {
            assert(q < s.len());
            assert(s[q].0 == t[q].0);
        }
    }
}

/// Every element that a filter keeps is one of the sequence.
pub proof fn lemma_filter_in<A>(s: Seq<A>, keep: spec_fn(A) -> bool)
    ensures
        forall|i: int|
            0 <= i < s.filter(keep).len() ==> s.contains(#[trigger] s.filter(keep)[i]) && keep(
                s.filter(keep)[i],
            ),
    decreases s.len(),
{
    reveal(Seq::filter);
    if s.len() > 0 {
        lemma_filter_in(s.drop_last(), keep);
        let rest = s.drop_last().filter(keep);
        assert forall|i: int| 0 <= i < s.filter(keep).len() implies s.contains(
            #[trigger] s.filter(keep)[i],
        ) && keep(s.filter(keep)[i]) by {
            if i < rest.len() {
                let x = rest[i];
                let j = choose|j: int| 0 <= j < s.drop_last().len() && s.drop_last()[j] == x;
                assert(s[j] == x);
            } else {
                assert(s[s.len() - 1] == s.filter(keep)[i]);
            }
        }
    }
}

/// A filter keeps each key once.
pub proof fn lemma_filter_distinct<K, V>(s: Seq<(K, V)>, keep: spec_fn((K, V)) -> bool)
    requires
        distinct(s),
    ensures
        distinct(s.filter(keep)),
    decreases s.len(),
{
    reveal(Seq::filter);
    if s.len() > 0 {
        let head = s.drop_last();
        assert(distinct(head)) by {
            assert forall|i: int, j: int| 0 <= i < j < head.len() implies (#[trigger] head[i]).0
                != (#[trigger] head[j]).0 by {
                assert(s[i].0 != s[j].0);
            }
        }
        lemma_filter_distinct(head, keep);
        lemma_filter_in(head, keep);
        let rest = head.filter(keep);
        let t = s.filter(keep);
        assert forall|i: int, j: int| 0 <= i < j < t.len() implies (#[trigger] t[i]).0 != (
        #[trigger] t[j]).0 by {
            if j < rest.len() {
                assert(rest[i].0 != rest[j].0);
            } else {
                let x = rest[i];
                let k = choose|k: int| 0 <= k < head.len() && head[k] == x;
                assert(s[k].0 != s[s.len() - 1].0);
            }
        }
    }
}

/// Values by key.
#[derive(Debug)]
pub struct KeyedList<K, V> {
    pub entries: Vec<(K, V)>,
}

impl<K, V> View for KeyedList<K, V> {
    type V = Seq<(K, V)>;

    open spec fn view(&self) -> Seq<(K, V)> {
        self.entries@
    }
}

impl<K: Key, V> KeyedList<K, V> {
    /// No value.
    pub fn new() -> (r: Self)
        ensures
            r@ == Seq::<(K, V)>::empty(),
    {
        KeyedList { entries: Vec::new() }
    }

    /// How many values there are.
    pub fn len(&self) -> (r: usize)
        ensures
            r == self@.len(),
    {
        self.entries.len()
    }

    /// The position of a key, or the end.
    pub fn position(&self, k: &K) -> (r: usize)
        ensures
            r == position(self@, *k, 0),
            r <= self@.len(),
    {
        let mut i: usize = 0;
        while i < self.entries.len() && !self.entries[i].0.same(k)
            invariant
                i <= self.entries@.len(),
                position(self@, *k, 0) == position(self@, *k, i as int),
            decreases self.entries@.len() - i,
        {
            i += 1;
        }
        i
    }

    /// Whether a key is there.
    pub fn contains(&self, k: &K) -> (r: bool)
        ensures
            r == has_key(self@, *k),
    {
        self.position(k) < self.entries.len()
    }

    /// Puts a value in by a key, in the place of the one there was.
    pub fn insert(&mut self, k: K, v: V)
        ensures
            final(self)@ == with_value(old(self)@, k, v),
    {
        let at: usize = self.position(&k);
        if at < self.entries.len() {
            self.entries.set(at, (k, v));
        } else {
            self.entries.push((k, v));
        }
    }

    /// Takes the value by a key out.
    pub fn remove(&mut self, k: &K) -> (r: Option<V>)
        ensures
            final(self)@ == without_key(old(self)@, *k),
            r == value_of(old(self)@, *k),
    {
        let at: usize = self.position(k);
        if at < self.entries.len() {
            let entry = self.entries.remove(at);
            Some(entry.1)
        } else {
            None
        }
    }
}

impl<K: Key, V: Copy> KeyedList<K, V> {
    /// The value by a key.
    pub fn get(&self, k: &K) -> (r: Option<V>)
        ensures
            r == value_of(self@, *k),
    {
        let at: usize = self.position(k);
        if at < self.entries.len() {
            Some(self.entries[at].1)
        } else {
            None
        }
    }
}

} // verus!
