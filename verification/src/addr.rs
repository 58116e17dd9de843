//! Network addresses as plain values, with their text forms.
use vstd::prelude::*;

use crate::bytes::{le32, u32_le};
use crate::text::{chars_of, decimal, digit, push_decimal};

verus! {

/// An IPv4 address, held as its four dotted octets in order.
#[derive(Clone, Copy, Debug, PartialEq, Eq, Hash, Structural)]
pub struct Ipv4Addr {
    pub a: u8,
    pub b: u8,
    pub c: u8,
    pub d: u8,
}

/// An IPv4 address with a port.
#[derive(Clone, Copy, Debug, PartialEq, Eq, Hash, Structural)]
pub struct SocketAddrV4 {
    pub ip: Ipv4Addr,
    pub port: u16,
}

/// An IP address of either family; an IPv6 address is its 128-bit number.
#[derive(Clone, Copy, Debug, PartialEq, Eq, Hash, Structural)]
pub enum IpAddr {
    V4(Ipv4Addr),
    V6(u128),
}

/// An IP address of either family with a port.
#[derive(Clone, Copy, Debug, PartialEq, Eq, Hash, Structural)]
pub struct SocketAddr {
    pub ip: IpAddr,
    pub port: u16,
}

/// The four octets of `ip` in dotted order.
pub open spec fn octets_of(ip: Ipv4Addr) -> Seq<u8> {
    seq![ip.a, ip.b, ip.c, ip.d]
}

/// The address whose dotted octets are the bytes of `b` at `i`.
pub open spec fn ipv4_at(b: Seq<u8>, i: int) -> Ipv4Addr {
    Ipv4Addr { a: b[i], b: b[i + 1], c: b[i + 2], d: b[i + 3] }
}

impl Ipv4Addr {
    /// The address `a.b.c.d`.
    pub fn new(a: u8, b: u8, c: u8, d: u8) -> (r: Ipv4Addr)
        ensures
            r == (Ipv4Addr { a, b, c, d }),
    {
        Ipv4Addr { a, b, c, d }
    }

    /// The four octets in dotted order.
    pub fn octets(&self) -> (r: [u8; 4])
        ensures
            r@ == octets_of(*self),
    {
        let r: [u8; 4] = [self.a, self.b, self.c, self.d];
        assert(r@ =~= octets_of(*self));
        r
    }

    /// Whether this is the address `0.0.0.0`.
    pub open spec fn unspecified(self) -> bool {
        self.a == 0 && self.b == 0 && self.c == 0 && self.d == 0
    }

    /// Whether this is the address `0.0.0.0`.
    pub fn is_unspecified(&self) -> (r: bool)
        ensures
            r == self.unspecified(),
    {
        self.a == 0 && self.b == 0 && self.c == 0 && self.d == 0
    }
}

impl SocketAddrV4 {
    /// The endpoint `ip:port`.
    pub fn new(ip: Ipv4Addr, port: u16) -> (r: SocketAddrV4)
        ensures
            r == (SocketAddrV4 { ip, port }),
    {
        SocketAddrV4 { ip, port }
    }
}

impl SocketAddr {
    /// The endpoint `ip:port` of an IPv4 address.
    pub fn v4(ip: Ipv4Addr, port: u16) -> (r: SocketAddr)
        ensures
            r == (SocketAddr { ip: IpAddr::V4(ip), port }),
    {
        SocketAddr { ip: IpAddr::V4(ip), port }
    }
}

/// Reads the four octets at `i` as an address.
pub fn read_ipv4(b: &[u8], i: usize) -> (r: Ipv4Addr)
    requires
        i + 4 <= b.len(),
    ensures
        r == ipv4_at(b@, i as int),
{
    Ipv4Addr { a: b[i], b: b[i + 1], c: b[i + 2], d: b[i + 3] }
}

/// The address that a client id stands for: its little-endian bytes are the
/// dotted octets.
pub open spec fn ipv4_of_client_id(client_id: u32) -> Ipv4Addr {
    ipv4_at(u32_le(client_id), 0)
}

/// The client id that stands for an address.
pub open spec fn client_id_of_ipv4(ip: Ipv4Addr) -> u32 {
    le32(octets_of(ip), 0)
}

/// The address that a client id stands for.
pub fn ipv4_from_client_id(client_id: u32) -> (r: Ipv4Addr)
    ensures
        r == ipv4_of_client_id(client_id),
{
    Ipv4Addr {
        a: (client_id % 256) as u8,
        b: (client_id / 256 % 256) as u8,
        c: (client_id / 65536 % 256) as u8,
        d: (client_id / 16777216) as u8,
    }
}

/// The client id that stands for an address.
pub fn client_id_from_ipv4(ip: Ipv4Addr) -> (r: u32)
    ensures
        r == client_id_of_ipv4(ip),
{
    ip.a as u32 + 256 * (ip.b as u32) + 65536 * (ip.c as u32) + 16777216 * (ip.d as u32)
}

/// An address and the client id that stands for it determine each other.
pub proof fn law_client_id_stands_for_address(client_id: u32, ip: Ipv4Addr)
    ensures
        client_id_of_ipv4(ipv4_of_client_id(client_id)) == client_id,
        ipv4_of_client_id(client_id_of_ipv4(ip)) == ip,
{
    assert(octets_of(ipv4_of_client_id(client_id)) =~= u32_le(client_id));
    assert(u32_le(client_id).subrange(0, 4) =~= u32_le(client_id));
    crate::bytes::lemma_le32(client_id, u32_le(client_id), 0);
    lemma_four_digits(ip.a as int, ip.b as int, ip.c as int, ip.d as int);
}

/// The digits of a four-digit number in base 256.
proof fn lemma_four_digits(a: int, b: int, c: int, d: int)
    requires
        0 <= a < 256,
        0 <= b < 256,
        0 <= c < 256,
        0 <= d < 256,
    ensures
        ({
            let v = a + 256 * b + 65536 * c + 16777216 * d;
            &&& v % 256 == a
            &&& v / 256 % 256 == b
            &&& v / 65536 % 256 == c
            &&& v / 16777216 == d
        }),
{
    let v = a + 256 * b + 65536 * c + 16777216 * d;
    let k = b + 256 * c + 65536 * d;
    assert(v == a + 256 * k);
    assert(v / 256 == k && v % 256 == a);
    let l = c + 256 * d;
    assert(k == b + 256 * l);
    assert(k % 256 == b);
    assert(v == (a + 256 * b) + 65536 * l);
    assert(v / 65536 == l);
    assert(l % 256 == c);
    assert(v == (a + 256 * b + 65536 * c) + 16777216 * d);
    assert(v / 16777216 == d);
}

/// `a.b.c.d` in decimal.
pub open spec fn ipv4_text(ip: Ipv4Addr) -> Seq<char> {
    decimal(ip.a as nat).push('.') + decimal(ip.b as nat).push('.') + decimal(ip.c as nat).push('.')
        + decimal(ip.d as nat)
}

/// `host:port`.
pub open spec fn host_port_text(host: Seq<char>, port: u16) -> Seq<char> {
    host.push(':') + decimal(port as nat)
}

/// `a.b.c.d` in decimal.
pub fn ipv4_to_text(ip: Ipv4Addr) -> (s: String)
    ensures
        s@ == ipv4_text(ip),
{
    let mut s: String = String::new();
    push_decimal(&mut s, ip.a as u64);
    s.push('.');
    assert(s@ =~= decimal(ip.a as nat).push('.'));
    push_decimal(&mut s, ip.b as u64);
    s.push('.');
    assert(s@ =~= decimal(ip.a as nat).push('.') + decimal(ip.b as nat).push('.'));
    push_decimal(&mut s, ip.c as u64);
    s.push('.');
    assert(s@ =~= decimal(ip.a as nat).push('.') + decimal(ip.b as nat).push('.') + decimal(
        ip.c as nat,
    ).push('.'));
    push_decimal(&mut s, ip.d as u64);
    assert(s@ =~= ipv4_text(ip));
    s
}

/// `host:port`.
pub fn host_port_to_text(host: &String, port: u16) -> (s: String)
    ensures
        s@ == host_port_text(host@, port),
{
    let mut s: String = host.clone();
    s.push(':');
    push_decimal(&mut s, port as u64);
    assert(s@ =~= host_port_text(host@, port));
    s
}

/// `a.b.c.d:port` in decimal.
pub open spec fn endpoint_text(e: SocketAddrV4) -> Seq<char> {
    host_port_text(ipv4_text(e.ip), e.port)
}

/// `a.b.c.d:port` in decimal.
pub fn endpoint_to_text(e: SocketAddrV4) -> (s: String)
    ensures
        s@ == endpoint_text(e),
{
    let host: String = ipv4_to_text(e.ip);
    host_port_to_text(&host, e.port)
}

/// Whether `c` is a decimal digit.
pub open spec fn is_digit(c: char) -> bool {
    '0' <= c && c <= '9'
}

/// The first position from `i` on that holds no decimal digit.
pub open spec fn digits_end(s: Seq<char>, i: int) -> int
    decreases s.len() - i,
{
    if 0 <= i < s.len() && is_digit(s[i]) {
        digits_end(s, i + 1)
    } else {
        i
    }
}

/// The number that the digits `s[i..j]` spell.
pub open spec fn digits_value(s: Seq<char>, i: int, j: int) -> nat
    decreases j - i,
{
    if i >= j {
        0
    } else {
        10 * digits_value(s, i, j - 1) + (s[j - 1] as nat - 48) as nat
    }
}

/// Whether `s[i..j]` spells an octet: one to three digits, no leading zero,
/// at most 255.
pub open spec fn is_octet(s: Seq<char>, i: int, j: int) -> bool {
    &&& 1 <= j - i <= 3
    &&& (j - i > 1 ==> s[i] != '0')
    &&& digits_value(s, i, j) <= 255
}

/// The octet that stands at `i`, and where it ends.
pub open spec fn octet_at(s: Seq<char>, i: int) -> Option<(u8, int)> {
    let j = digits_end(s, i);
    if is_octet(s, i, j) {
        Some((digits_value(s, i, j) as u8, j))
    } else {
        None
    }
}

/// The octet that stands at `i` before the character `after`, and the
/// position behind that character.
pub open spec fn octet_before(s: Seq<char>, i: int, after: char) -> Option<(u8, int)> {
    match octet_at(s, i) {
        Some((v, j)) => if j < s.len() && s[j] == after {
            Some((v, j + 1))
        } else {
            None
        },
        None => None,
    }
}

/// The port that the rest of `s` from `i` on spells: one or more digits, at
/// most 65535.
pub open spec fn port_at(s: Seq<char>, i: int) -> Option<u16> {
    if i < s.len() && digits_end(s, i) == s.len() && digits_value(s, i, s.len() as int) <= 65535 {
        Some(digits_value(s, i, s.len() as int) as u16)
    } else {
        None
    }
}

/// The endpoint that `s` spells as `a.b.c.d:port`.
pub open spec fn endpoint_of(s: Seq<char>) -> Option<SocketAddrV4> {
    match octet_before(s, 0, '.') {
        Some((a, i)) => match octet_before(s, i, '.') {
            Some((b, j)) => match octet_before(s, j, '.') {
                Some((c, k)) => match octet_before(s, k, ':') {
                    Some((d, l)) => match port_at(s, l) {
                        Some(port) => Some(SocketAddrV4 { ip: Ipv4Addr { a, b, c, d }, port }),
                        None => None,
                    },
                    None => None,
                },
                None => None,
            },
            None => None,
        },
        None => None,
    }
}

/// The address that `s` spells as `a.b.c.d`.
pub open spec fn ipv4_of(s: Seq<char>) -> Option<Ipv4Addr> {
    match octet_before(s, 0, '.') {
        Some((a, i)) => match octet_before(s, i, '.') {
            Some((b, j)) => match octet_before(s, j, '.') {
                Some((c, k)) => match octet_at(s, k) {
                    Some((d, l)) => if l == s.len() {
                        Some(Ipv4Addr { a, b, c, d })
                    } else {
                        None
                    },
                    None => None,
                },
                None => None,
            },
            None => None,
        },
        None => None,
    }
}

pub proof fn lemma_digits_end(s: Seq<char>, i: int)
    requires
        0 <= i <= s.len(),
    ensures
        i <= digits_end(s, i) <= s.len(),
        forall|k: int| i <= k < digits_end(s, i) ==> is_digit(#[trigger] s[k]),
    decreases s.len() - i,
{
    if i < s.len() && is_digit(s[i]) {
        lemma_digits_end(s, i + 1);
    }
}

proof fn lemma_digits_end_at(s: Seq<char>, i: int, j: int)
    requires
        0 <= i <= j <= s.len(),
        forall|k: int| i <= k < j ==> is_digit(#[trigger] s[k]),
        j == s.len() || !is_digit(s[j]),
    ensures
        digits_end(s, i) == j,
    decreases j - i,
{
    if i < j {
        lemma_digits_end_at(s, i + 1, j);
    }
}

/// The value of a run of digits never shrinks as the run grows.
pub proof fn lemma_digits_value_grows(s: Seq<char>, i: int, j: int, k: int)
    requires
        i <= j <= k,
    ensures
        digits_value(s, i, j) <= digits_value(s, i, k),
    decreases k - j,
{
    if j < k {
        lemma_digits_value_grows(s, i, j, k - 1);
    }
}

pub(crate) fn find_digits_end(c: &[char], i: usize) -> (j: usize)
    requires
        i <= c.len(),
    ensures
        j == digits_end(c@, i as int),
        i <= j <= c.len(),
{
    let mut j: usize = i;
    while j < c.len() && '0' <= c[j] && c[j] <= '9'
        invariant
            i <= j <= c.len(),
            digits_end(c@, j as int) == digits_end(c@, i as int),
        decreases c@.len() - j,
    {
        j += 1;
    }
    j
}

fn parse_octet_at(c: &[char], i: usize) -> (r: Option<(u8, usize)>)
    requires
        i <= c.len(),
    ensures
        match r {
            Some((v, j)) => octet_at(c@, i as int) == Some((v, j as int)) && i <= j <= c.len(),
            None => octet_at(c@, i as int) is None,
        },
{
    let j: usize = find_digits_end(c, i);
    proof {
        lemma_digits_end(c@, i as int);
    }
    if j - i < 1 || j - i > 3 {
        return None;
    }
    if j - i > 1 && c[i] == '0' {
        return None;
    }
    let mut v: u32 = 0;
    let mut k: usize = i;
    while k < j
        invariant
            i <= k <= j <= c.len(),
            j - i <= 3,
            v == digits_value(c@, i as int, k as int),
            k - i == 0 ==> v == 0,
            k - i == 1 ==> v <= 9,
            k - i == 2 ==> v <= 99,
            k - i == 3 ==> v <= 999,
            forall|m: int| i <= m < j ==> is_digit(#[trigger] c@[m]),
        decreases j - k,
    {
        assert(is_digit(c@[k as int]));
        v = 10 * v + (c[k] as u32 - 48);
        k += 1;
    }
    if v > 255 {
        return None;
    }
    Some((v as u8, j))
}

fn parse_octet_before(c: &[char], i: usize, after: char) -> (r: Option<(u8, usize)>)
    requires
        i <= c.len(),
    ensures
        match r {
            Some((v, j)) => octet_before(c@, i as int, after) == Some((v, j as int)) && i <= j
                <= c.len(),
            None => octet_before(c@, i as int, after) is None,
        },
{
    match parse_octet_at(c, i) {
        Some((v, j)) => {
            if j < c.len() && c[j] == after {
                Some((v, j + 1))
            } else {
                None
            }
        },
        None => None,
    }
}

pub(crate) fn parse_port_at(c: &[char], i: usize) -> (r: Option<u16>)
    requires
        i <= c.len(),
    ensures
        r == port_at(c@, i as int),
{
    let j: usize = find_digits_end(c, i);
    if i >= c.len() || j != c.len() {
        return None;
    }
    proof {
        lemma_digits_end(c@, i as int);
    }
    let mut v: u32 = 0;
    let mut k: usize = i;
    while k < j
        invariant
            i <= k <= j == c@.len(),
            v == digits_value(c@, i as int, k as int),
            v <= 65535,
            forall|m: int| i <= m < j ==> is_digit(#[trigger] c@[m]),
            digits_end(c@, i as int) == c@.len(),
        decreases j - k,
    {
        assert(is_digit(c@[k as int]));
        v = 10 * v + (c[k] as u32 - 48);
        k += 1;
        if v > 65535 {
            proof {
                lemma_digits_value_grows(c@, i as int, k as int, j as int);
            }
            return None;
        }
    }
    Some(v as u16)
}

/// Parses `a.b.c.d:port`.
pub fn parse_endpoint(text: &str) -> (r: Option<SocketAddrV4>)
    ensures
        r == endpoint_of(text@),
{
    let v: Vec<char> = chars_of(text);
    let s: &[char] = v.as_slice();
    let (a, i) = match parse_octet_before(s, 0, '.') {
        Some(x) => x,
        None => return None,
    };
    let (b, j) = match parse_octet_before(s, i, '.') {
        Some(x) => x,
        None => return None,
    };
    let (c, k) = match parse_octet_before(s, j, '.') {
        Some(x) => x,
        None => return None,
    };
    let (d, l) = match parse_octet_before(s, k, ':') {
        Some(x) => x,
        None => return None,
    };
    match parse_port_at(s, l) {
        Some(port) => Some(SocketAddrV4 { ip: Ipv4Addr { a, b, c, d }, port }),
        None => None,
    }
}

/// Parses `a.b.c.d`.
pub fn parse_ipv4(text: &str) -> (r: Option<Ipv4Addr>)
    ensures
        r == ipv4_of(text@),
{
    let v: Vec<char> = chars_of(text);
    let s: &[char] = v.as_slice();
    let (a, i) = match parse_octet_before(s, 0, '.') {
        Some(x) => x,
        None => return None,
    };
    let (b, j) = match parse_octet_before(s, i, '.') {
        Some(x) => x,
        None => return None,
    };
    let (c, k) = match parse_octet_before(s, j, '.') {
        Some(x) => x,
        None => return None,
    };
    match parse_octet_at(s, k) {
        Some((d, l)) => if l == s.len() {
            Some(Ipv4Addr { a, b, c, d })
        } else {
            None
        },
        None => None,
    }
}

/// `decimal(n)` is made of digits, spells `n`, and has no leading zero.
pub proof fn lemma_decimal(n: nat)
    ensures
        decimal(n).len() >= 1,
        forall|k: int| 0 <= k < decimal(n).len() ==> is_digit(#[trigger] decimal(n)[k]),
        digits_value(decimal(n), 0, decimal(n).len() as int) == n,
        n >= 1 ==> decimal(n)[0] != '0',
        n < 10 ==> decimal(n).len() == 1,
        n < 100 ==> decimal(n).len() <= 2,
        n < 1000 ==> decimal(n).len() <= 3,
    decreases n,
{
    reveal_with_fuel(digits_value, 2);
    if n < 10 {
        assert(digits_value(decimal(n), 0, 1) == n);
    } else {
        let m = n / 10;
        lemma_decimal(m);
        let s = decimal(n);
        let t = decimal(m);
        let last = t.len() as int;
        assert(s == t.push(digit((n % 10) as int)));
        lemma_digits_value_local(s, t, 0, 0, last);
        assert(s[last] == digit((n % 10) as int));
        assert(s[0] == t[0]);
    }
}

/// The value of a run depends on its characters alone.
proof fn lemma_digits_value_local(s: Seq<char>, t: Seq<char>, i: int, k: int, n: int)
    requires
        0 <= n,
        0 <= i,
        0 <= k,
        i + n <= s.len(),
        k + n <= t.len(),
        forall|m: int| 0 <= m < n ==> #[trigger] s[i + m] == t[k + m],
    ensures
        digits_value(s, i, i + n) == digits_value(t, k, k + n),
    decreases n,
{
    if n > 0 {
        lemma_digits_value_local(s, t, i, k, n - 1);
        assert(s[i + (n - 1)] == t[k + (n - 1)]);
    }
}

/// An octet in decimal before a character that is no digit reads back.
proof fn lemma_octet_reads_back(v: u8, s: Seq<char>, i: int)
    requires
        0 <= i,
        i + decimal(v as nat).len() <= s.len(),
        s.subrange(i, i + decimal(v as nat).len()) == decimal(v as nat),
        i + decimal(v as nat).len() == s.len() || !is_digit(s[i + decimal(v as nat).len()]),
    ensures
        octet_at(s, i) == Some((v, i + decimal(v as nat).len())),
{
    let t = decimal(v as nat);
    let n = t.len() as int;
    lemma_decimal(v as nat);
    assert forall|m: int| 0 <= m < n implies #[trigger] s[i + m] == t[0 + m] by {
        assert(s.subrange(i, i + n)[m] == t[m]);
    }
    assert forall|k: int| i <= k < i + n implies is_digit(#[trigger] s[k]) by {
        assert(s[i + (k - i)] == t[0 + (k - i)]);
    }
    lemma_digits_end_at(s, i, i + n);
    lemma_digits_value_local(s, t, i, 0, n);
    assert(s[i] == t[0]) by {
        assert(s.subrange(i, i + n)[0] == t[0]);
    }
}

proof fn lemma_octet_before_reads_back(v: u8, s: Seq<char>, i: int, after: char)
    requires
        0 <= i,
        i + decimal(v as nat).len() < s.len(),
        s.subrange(i, i + decimal(v as nat).len() + 1) == decimal(v as nat).push(after),
        !is_digit(after),
    ensures
        octet_before(s, i, after) == Some((v, i + decimal(v as nat).len() + 1)),
{
    let t = decimal(v as nat);
    let n = t.len() as int;
    let w = s.subrange(i, i + n + 1);
    assert(s.subrange(i, i + n) =~= w.subrange(0, n));
    assert(t.push(after).subrange(0, n) =~= t);
    assert(w[n] == s[i + n]);
    lemma_octet_reads_back(v, s, i);
}

/// A port in decimal that ends the text reads back.
pub proof fn lemma_port_reads_back(port: u16, s: Seq<char>, i: int)
    requires
        0 <= i <= s.len(),
        s.subrange(i, s.len() as int) == decimal(port as nat),
    ensures
        port_at(s, i) == Some(port),
{
    let t = decimal(port as nat);
    let n = t.len() as int;
    lemma_decimal(port as nat);
    assert forall|m: int| 0 <= m < n implies #[trigger] s[i + m] == t[0 + m] by {
        assert(s.subrange(i, s.len() as int)[m] == t[m]);
    }
    assert forall|q: int| i <= q < i + n implies is_digit(#[trigger] s[q]) by {
        assert(s[i + (q - i)] == t[0 + (q - i)]);
    }
    lemma_digits_end_at(s, i, i + n);
    lemma_digits_value_local(s, t, i, 0, n);
}

/// The text of an endpoint parses back to that endpoint.
pub proof fn law_endpoint_text_parses_back(ep: SocketAddrV4)
    ensures
        endpoint_of(host_port_text(ipv4_text(ep.ip), ep.port)) == Some(ep),
{
    let s = host_port_text(ipv4_text(ep.ip), ep.port);
    let da = decimal(ep.ip.a as nat);
    let db = decimal(ep.ip.b as nat);
    let dc = decimal(ep.ip.c as nat);
    let dd = decimal(ep.ip.d as nat);
    let dp = decimal(ep.port as nat);
    let i = da.len() as int + 1;
    let j = i + db.len() as int + 1;
    let k = j + dc.len() as int + 1;
    let l = k + dd.len() as int + 1;
    lemma_decimal(ep.ip.a as nat);
    lemma_decimal(ep.ip.b as nat);
    lemma_decimal(ep.ip.c as nat);
    lemma_decimal(ep.ip.d as nat);
    lemma_decimal(ep.port as nat);
    assert(s.len() == l + dp.len());
    assert(s.subrange(0, i) =~= da.push('.'));
    assert(s.subrange(i, j) =~= db.push('.'));
    assert(s.subrange(j, k) =~= dc.push('.'));
    assert(s.subrange(k, l) =~= dd.push(':'));
    lemma_octet_before_reads_back(ep.ip.a, s, 0, '.');
    lemma_octet_before_reads_back(ep.ip.b, s, i, '.');
    lemma_octet_before_reads_back(ep.ip.c, s, j, '.');
    lemma_octet_before_reads_back(ep.ip.d, s, k, ':');
    assert(s.subrange(l, s.len() as int) =~= dp);
    lemma_port_reads_back(ep.port, s, l);
}

/// The text of an address parses back to that address.
pub proof fn law_ipv4_text_parses_back(ip: Ipv4Addr)
    ensures
        ipv4_of(ipv4_text(ip)) == Some(ip),
{
    let s = ipv4_text(ip);
    let da = decimal(ip.a as nat);
    let db = decimal(ip.b as nat);
    let dc = decimal(ip.c as nat);
    let dd = decimal(ip.d as nat);
    let i = da.len() as int + 1;
    let j = i + db.len() as int + 1;
    let k = j + dc.len() as int + 1;
    lemma_decimal(ip.d as nat);
    assert(s.len() == k + dd.len());
    assert(s.subrange(0, i) =~= da.push('.'));
    assert(s.subrange(i, j) =~= db.push('.'));
    assert(s.subrange(j, k) =~= dc.push('.'));
    assert(s.subrange(k, s.len() as int) =~= dd);
    lemma_octet_before_reads_back(ip.a, s, 0, '.');
    lemma_octet_before_reads_back(ip.b, s, i, '.');
    lemma_octet_before_reads_back(ip.c, s, j, '.');
    lemma_octet_reads_back(ip.d, s, k);
}

proof fn lemma_leading_digit(s: Seq<char>, i: int, j: int)
    requires
        0 <= i < j <= s.len(),
        forall|k: int| i <= k < j ==> is_digit(#[trigger] s[k]),
        s[i] != '0',
    ensures
        digits_value(s, i, j) >= 1,
    decreases j - i,
{
    reveal_with_fuel(digits_value, 2);
    if j - i > 1 {
        lemma_leading_digit(s, i, j - 1);
    }
}

/// Digits without a leading zero are the decimal text of what they spell.
proof fn lemma_canonical(s: Seq<char>, i: int, j: int)
    requires
        0 <= i < j <= s.len(),
        forall|k: int| i <= k < j ==> is_digit(#[trigger] s[k]),
        j - i > 1 ==> s[i] != '0',
    ensures
        s.subrange(i, j) == decimal(digits_value(s, i, j)),
    decreases j - i,
{
    reveal_with_fuel(digits_value, 2);
    let v = digits_value(s, i, j);
    let d = (s[j - 1] as int - 48) as nat;
    assert(is_digit(s[j - 1]));
    assert(d < 10);
    if j - i == 1 {
        assert(v == d);
        assert(s.subrange(i, j) =~= decimal(v));
    } else {
        let w = digits_value(s, i, j - 1);
        lemma_leading_digit(s, i, j - 1);
        lemma_canonical(s, i, j - 1);
        assert(v == 10 * w + d);
        assert(v / 10 == w && v % 10 == d);
        assert(s.subrange(i, j) =~= s.subrange(i, j - 1).push(s[j - 1]));
        assert(s.subrange(i, j) =~= decimal(v));
    }
}

proof fn lemma_octet_is_canonical(s: Seq<char>, i: int)
    requires
        0 <= i <= s.len(),
    ensures
        octet_at(s, i) matches Some((v, j)) ==> i < j <= s.len() && s.subrange(i, j) == decimal(
            v as nat,
        ),
{
    lemma_digits_end(s, i);
    if octet_at(s, i) is Some {
        lemma_canonical(s, i, digits_end(s, i));
    }
}

proof fn lemma_octet_before_is_canonical(s: Seq<char>, i: int, after: char)
    requires
        0 <= i <= s.len(),
    ensures
        octet_before(s, i, after) matches Some((v, j)) ==> i < j <= s.len() && s.subrange(i, j)
            == decimal(v as nat).push(after),
{
    lemma_octet_is_canonical(s, i);
    if let Some((v, j)) = octet_before(s, i, after) {
        assert(s.subrange(i, j) =~= s.subrange(i, j - 1).push(after));
    }
}

proof fn lemma_four_pieces(s: Seq<char>, i: int, j: int, k: int)
    requires
        0 <= i <= j <= k <= s.len(),
    ensures
        s == s.subrange(0, i) + s.subrange(i, j) + s.subrange(j, k) + s.subrange(
            k,
            s.len() as int,
        ),
{
    assert(s =~= s.subrange(0, i) + s.subrange(i, j) + s.subrange(j, k) + s.subrange(
        k,
        s.len() as int,
    ));
}

#[verifier::rlimit(60)]
proof fn lemma_spelt_address(s: Seq<char>, ip: Ipv4Addr)
    requires
        ipv4_of(s) == Some(ip),
    ensures
        s == ipv4_text(ip),
{
    lemma_octet_before_is_canonical(s, 0, '.');
    let (a, i) = octet_before(s, 0, '.')->Some_0;
    lemma_octet_before_is_canonical(s, i, '.');
    let (b, j) = octet_before(s, i, '.')->Some_0;
    lemma_octet_before_is_canonical(s, j, '.');
    let (c, k) = octet_before(s, j, '.')->Some_0;
    lemma_octet_is_canonical(s, k);
    lemma_four_pieces(s, i, j, k);
}

/// A text spells an address where it is the text of that address, and nowhere
/// else: no leading zeros, no octet over 255, no other number of octets.
pub proof fn law_only_the_text_of_an_address_spells_it(s: Seq<char>, ip: Ipv4Addr)
    ensures
        ipv4_of(s) == Some(ip) <==> s == ipv4_text(ip),
{
    law_ipv4_text_parses_back(ip);
    if ipv4_of(s) == Some(ip) {
        lemma_spelt_address(s, ip);
    }
}

/// A text spells an endpoint where the text of its address, a colon and digits
/// that spell its port are all of it.
#[verifier::rlimit(60)]
pub proof fn law_what_spells_an_endpoint(s: Seq<char>, ep: SocketAddrV4)
    requires
        endpoint_of(s) == Some(ep),
    ensures
        ({
            let host = ipv4_text(ep.ip);
            let n = host.len() as int;
            &&& s.len() > n + 1
            &&& s.take(n) == host
            &&& s[n] == ':'
            &&& forall|k: int| n < k < s.len() ==> is_digit(#[trigger] s[k])
            &&& digits_value(s, n + 1, s.len() as int) == ep.port
        }),
{
    lemma_octet_before_is_canonical(s, 0, '.');
    let (a, i) = octet_before(s, 0, '.')->Some_0;
    lemma_octet_before_is_canonical(s, i, '.');
    let (b, j) = octet_before(s, i, '.')->Some_0;
    lemma_octet_before_is_canonical(s, j, '.');
    let (c, k) = octet_before(s, j, '.')->Some_0;
    lemma_octet_before_is_canonical(s, k, ':');
    lemma_octet_is_canonical(s, k);
    let (d, l) = octet_before(s, k, ':')->Some_0;
    let head = s.take(l - 1);
    lemma_four_pieces(head, i, j, k);
    assert(head.subrange(0, i) =~= s.subrange(0, i));
    assert(head.subrange(i, j) =~= s.subrange(i, j));
    assert(head.subrange(j, k) =~= s.subrange(j, k));
    assert(head.subrange(k, l - 1) =~= s.subrange(k, l - 1));
    assert(head == ipv4_text(ep.ip));
    lemma_digits_end(s, l);
}

/// The bytes of an address in order are the bytes of its client id, the lowest
/// first.
pub proof fn law_client_id_holds_the_octets(ip: Ipv4Addr)
    ensures
        client_id_of_ipv4(ip) == ip.a + 256 * ip.b + 65536 * ip.c + 16777216 * ip.d,
        octets_of(ip) == seq![ip.a, ip.b, ip.c, ip.d],
{
}

} // verus!
