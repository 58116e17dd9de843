//! The RC4 key stream that hides ED2K traffic.
use vstd::prelude::*;

verus! {

/// The state of the generator: a permutation of the bytes and two indices.
pub struct Rc4View {
    pub s: Seq<u8>,
    pub i: int,
    pub j: int,
}

/// `s` with the elements at `a` and `b` exchanged.
pub open spec fn swapped(s: Seq<u8>, a: int, b: int) -> Seq<u8> {
    s.update(a, s[b]).update(b, s[a])
}

/// The permutation and the second index after `n` rounds of key scheduling.
pub open spec fn scheduled(key: Seq<u8>, n: nat) -> (Seq<u8>, int)
    decreases n,
{
    if n == 0 {
        (Seq::new(256, |k: int| k as u8), 0)
    } else {
        let (s, j) = scheduled(key, (n - 1) as nat);
        let i = n - 1;
        let next_j = (j + s[i] + key[i % key.len() as int]) % 256;
        (swapped(s, i, next_j), next_j)
    }
}

/// The state that a key starts in.
pub open spec fn keyed(key: Seq<u8>) -> Rc4View {
    Rc4View { s: scheduled(key, 256).0, i: 0, j: 0 }
}

/// The state one step on.
pub open spec fn stepped(v: Rc4View) -> Rc4View {
    let i = (v.i + 1) % 256;
    let j = (v.j + v.s[i]) % 256;
    Rc4View { s: swapped(v.s, i, j), i, j }
}

/// The state `n` steps on.
pub open spec fn advanced(v: Rc4View, n: nat) -> Rc4View
    decreases n,
{
    if n == 0 {
        v
    } else {
        stepped(advanced(v, (n - 1) as nat))
    }
}

/// The byte of key stream that step `k` gives, counted from zero.
pub open spec fn key_byte(v: Rc4View, k: int) -> u8 {
    let t = advanced(v, (k + 1) as nat);
    t.s[(t.s[t.i] + t.s[t.j]) % 256]
}

/// `data` under the key stream that starts in state `v`.
pub open spec fn crypted(v: Rc4View, data: Seq<u8>) -> Seq<u8> {
    Seq::new(data.len(), |k: int| data[k] ^ key_byte(v, k))
}

/// The same key stream applied twice gives the data back.
pub proof fn law_crypting_twice_restores(v: Rc4View, data: Seq<u8>)
    ensures
        crypted(v, crypted(v, data)) == data,
{
    assert forall|k: int| 0 <= k < data.len() implies crypted(v, crypted(v, data))[k] == data[k] by {
        let a = data[k];
        let b = key_byte(v, k);
        assert((a ^ b) ^ b == a) by (bit_vector);
    }
    assert(crypted(v, crypted(v, data)) =~= data);
}

/// Steps add up.
pub proof fn lemma_advanced_adds(v: Rc4View, n: nat, m: nat)
    ensures
        advanced(advanced(v, n), m) == advanced(v, n + m),
    decreases m,
{
    if m > 0 {
        lemma_advanced_adds(v, n, (m - 1) as nat);
        assert((n + m - 1) as nat == n + (m - 1) as nat);
    }
}

/// Data may go through the key stream in one piece or in two: the second piece
/// goes on where the first one ended.
pub proof fn law_crypting_in_pieces(v: Rc4View, first: Seq<u8>, second: Seq<u8>)
    ensures
        crypted(v, first + second) == crypted(v, first) + crypted(
            advanced(v, first.len()),
            second,
        ),
{
    let whole = crypted(v, first + second);
    let parts = crypted(v, first) + crypted(advanced(v, first.len()), second);
    assert forall|k: int| 0 <= k < whole.len() implies whole[k] == parts[k] by {
        if k >= first.len() {
            lemma_advanced_adds(v, first.len(), (k - first.len() + 1) as nat);
            assert((k + 1) as nat == first.len() + (k - first.len() + 1) as nat);
        }
    }
    assert(whole =~= parts);
}

/// An RC4 key stream and how far it has run.
#[derive(Debug)]
pub struct Rc4KeyStream {
    s: [u8; 256],
    i: usize,
    j: usize,
}

impl View for Rc4KeyStream {
    type V = Rc4View;

    closed spec fn view(&self) -> Rc4View {
        Rc4View { s: self.s@, i: self.i as int, j: self.j as int }
    }
}

/// How many bytes of key stream the TCP ciphers drop before their first use.
pub const TCP_CRYPT_DISCARD_LEN: usize = 1024;

fn exchange(s: &mut [u8; 256], a: usize, b: usize)
    requires
        a < 256,
        b < 256,
    ensures
        final(s)@ == swapped(old(s)@, a as int, b as int),
{
    let x: u8 = s[a];
    let y: u8 = s[b];
    s[a] = y;
    s[b] = x;
    assert(s@ =~= swapped(old(s)@, a as int, b as int));
}

impl Rc4KeyStream {
    #[verifier::type_invariant]
    spec fn indices_in_range(self) -> bool {
        self.i < 256 && self.j < 256
    }

    /// The key stream of `key` with its first bytes dropped, as the TCP
    /// ciphers use it.
    pub fn new(key: &[u8]) -> (r: Rc4KeyStream)
        requires
            key.len() > 0,
        ensures
            r@ == advanced(keyed(key@), TCP_CRYPT_DISCARD_LEN as nat),
    {
        Self::new_with_discard(key, TCP_CRYPT_DISCARD_LEN)
    }

    /// The key stream of `key` from its first byte on.
    pub fn new_without_discard(key: &[u8]) -> (r: Rc4KeyStream)
        requires
            key.len() > 0,
        ensures
            r@ == keyed(key@),
    {
        Self::new_with_discard(key, 0)
    }

    /// The key stream of `key` after `discard_len` bytes.
    pub fn new_with_discard(key: &[u8], discard_len: usize) -> (r: Rc4KeyStream)
        requires
            key.len() > 0,
        ensures
            r@ == advanced(keyed(key@), discard_len as nat),
    {
        let mut s: [u8; 256] = [0u8; 256];
        let mut k: usize = 0;
        while k < 256
            invariant
                k <= 256,
                forall|m: int| 0 <= m < k ==> s[m] == m as u8,
            decreases 256 - k,
        {
            s[k] = k as u8;
            k += 1;
        }
        assert(s@ =~= scheduled(key@, 0).0);
        let mut j: usize = 0;
        let mut i: usize = 0;
        while i < 256
            invariant
                i <= 256,
                j < 256,
                key.len() > 0,
                (s@, j as int) == scheduled(key@, i as nat),
            decreases 256 - i,
        {
            j = (j + s[i] as usize + key[i % key.len()] as usize) % 256;
            exchange(&mut s, i, j);
            i += 1;
        }
        let mut stream = Rc4KeyStream { s, i: 0, j: 0 };
        let mut n: usize = 0;
        while n < discard_len
            invariant
                n <= discard_len,
                stream@ == advanced(keyed(key@), n as nat),
            decreases discard_len - n,
        {
            let _ = stream.next_byte();
            n += 1;
        }
        stream
    }

    /// Takes the next byte of key stream.
    fn next_byte(&mut self) -> (b: u8)
        ensures
            final(self)@ == stepped(old(self)@),
            b == key_byte(old(self)@, 0),
    {
        proof {
            use_type_invariant(&*self);
            reveal_with_fuel(advanced, 2);
        }
        let i: usize = (self.i + 1) % 256;
        let j: usize = (self.j + self.s[i] as usize) % 256;
        let mut s: [u8; 256] = self.s;
        exchange(&mut s, i, j);
        let b: u8 = s[(s[i] as usize + s[j] as usize) % 256];
        *self = Rc4KeyStream { s, i, j };
        b
    }

    /// Runs `bytes` through the key stream in place.
    pub fn apply(&mut self, bytes: &mut Vec<u8>)
        ensures
            final(bytes)@ == crypted(old(self)@, old(bytes)@),
            final(self)@ == advanced(old(self)@, old(bytes)@.len()),
    {
        let ghost start = self@;
        let ghost data = bytes@;
        let len: usize = bytes.len();
        let mut k: usize = 0;
        while k < len
            invariant
                k <= len,
                len == data.len(),
                bytes@.len() == len,
                self@ == advanced(start, k as nat),
                forall|m: int| 0 <= m < k ==> bytes@[m] == data[m] ^ key_byte(start, m),
                forall|m: int| k <= m < len ==> bytes@[m] == data[m],
            decreases len - k,
        {
            proof {
                lemma_advanced_adds(start, k as nat, 1);
                assert(key_byte(self@, 0) == key_byte(start, k as int)) by {
                    assert((0 + 1) as nat == 1nat);
                    assert((k + 1) as nat == k as nat + 1nat);
                }
            }
            let b: u8 = self.next_byte();
            let c: u8 = bytes[k];
            bytes[k] = c ^ b;
            k += 1;
        }
        assert(bytes@ =~= crypted(start, data));
    }
}

/// The state of the generator stays a permutation of the bytes, whatever the key
/// and however far it has run.
pub proof fn law_state_is_a_permutation(key: Seq<u8>, n: nat)
    requires
        key.len() > 0,
    ensures
        ({
            let s = advanced(keyed(key), n).s;
            &&& s.len() == 256
            &&& forall|a: int, b: int|
                0 <= a < b < 256 ==> #[trigger] s[a] != #[trigger] s[b]
        }),
{
    lemma_scheduled_permutes(key, 256);
    lemma_advanced_permutes(keyed(key), n);
}

/// Whether `s` holds every byte once.
spec fn permutes(s: Seq<u8>) -> bool {
    s.len() == 256 && forall|a: int, b: int| 0 <= a < b < 256 ==> #[trigger] s[a] != #[trigger] s[b]
}

proof fn lemma_swap_permutes(s: Seq<u8>, i: int, j: int)
    requires
        permutes(s),
        0 <= i < 256,
        0 <= j < 256,
    ensures
        permutes(swapped(s, i, j)),
{
    let t = swapped(s, i, j);
    assert forall|a: int, b: int| 0 <= a < b < 256 implies #[trigger] t[a] != #[trigger] t[b] by {
        let x = if a == i {
            j
        } else if a == j {
            i
        } else {
            a
        };
        let y = if b == i {
            j
        } else if b == j {
            i
        } else {
            b
        };
        assert(t[a] == s[x] && t[b] == s[y]);
        if x < y {
            assert(s[x] != s[y]);
        } else {
            assert(s[y] != s[x]);
        }
    }
}

proof fn lemma_scheduled_permutes(key: Seq<u8>, n: nat)
    requires
        n <= 256,
        key.len() > 0,
    ensures
        permutes(scheduled(key, n).0),
    decreases n,
{
    if n > 0 {
        lemma_scheduled_permutes(key, (n - 1) as nat);
        let (s, j) = scheduled(key, (n - 1) as nat);
        let i = n - 1;
        let next = (j + s[i] + key[i % key.len() as int]) % 256;
        lemma_swap_permutes(s, i, next);
    }
}

proof fn lemma_advanced_permutes(v: Rc4View, n: nat)
    requires
        permutes(v.s),
    ensures
        permutes(advanced(v, n).s),
    decreases n,
{
    if n > 0 {
        lemma_advanced_permutes(v, (n - 1) as nat);
        let t = advanced(v, (n - 1) as nat);
        let i = (t.i + 1) % 256;
        let j = (t.j + t.s[i]) % 256;
        lemma_swap_permutes(t.s, i, j);
    }
}

} // verus!
