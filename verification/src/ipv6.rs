//! The text form of IPv6 addresses, and endpoint texts of either family.
use vstd::prelude::*;

use crate::addr::{
    digits_end, digits_value, endpoint_of, find_digits_end, host_port_text, host_port_to_text,
    ipv4_of, ipv4_text, ipv4_to_text, is_digit, law_endpoint_text_parses_back,
    law_ipv4_text_parses_back, lemma_decimal, lemma_port_reads_back, octet_before, parse_endpoint,
    parse_ipv4, parse_port_at, port_at, IpAddr, Ipv4Addr, SocketAddr, SocketAddrV4,
};
use crate::hexadecimal::{hex_digit, hex_digit_value, is_hex_digit};
use crate::text::{chars_of, decimal, text_of};

verus! {

// ---------------------------------------------------------------------------
// Reading
// ---------------------------------------------------------------------------
/// The first position from `i` on that holds `c`, or the end.
pub open spec fn first_char(s: Seq<char>, c: char, i: int) -> int
    decreases s.len() - i,
{
    if 0 <= i < s.len() && s[i] != c {
        first_char(s, c, i + 1)
    } else {
        i
    }
}

/// The first position from `i` on where two colons stand, or the end.
pub open spec fn double_colon(s: Seq<char>, i: int) -> int
    decreases s.len() - i,
{
    if i < 0 || i + 1 >= s.len() {
        s.len() as int
    } else if s[i] == ':' && s[i + 1] == ':' {
        i
    } else {
        double_colon(s, i + 1)
    }
}

/// The number that hexadecimal digits spell.
pub open spec fn hex_value(s: Seq<char>) -> int
    decreases s.len(),
{
    if s.len() == 0 {
        0
    } else {
        16 * hex_value(s.drop_last()) + hex_digit_value(s.last())
    }
}

/// The group that `s` spells: one to four hexadecimal digits in either case.
pub open spec fn group_of(s: Seq<char>) -> Option<u16> {
    if 1 <= s.len() <= 4 && (forall|i: int| 0 <= i < s.len() ==> is_hex_digit(#[trigger] s[i])) {
        Some(hex_value(s) as u16)
    } else {
        None
    }
}

/// The two groups that an IPv4 address fills.
pub open spec fn groups_of_ipv4(ip: Ipv4Addr) -> Seq<u16> {
    seq![(256 * ip.a + ip.b) as u16, (256 * ip.c + ip.d) as u16]
}

/// The groups that `s` spells with a colon between two of them. Where
/// `with_ipv4` says so, `a.b.c.d` may stand at the end for two groups.
pub open spec fn groups_in(s: Seq<char>, with_ipv4: bool) -> Option<Seq<u16>>
    decreases s.len(),
{
    let end = first_char(s, ':', 0);
    if 0 <= end < s.len() {
        match (group_of(s.take(end)), groups_in(s.skip(end + 1), with_ipv4)) {
            (Some(group), Some(rest)) => Some(seq![group] + rest),
            _ => None,
        }
    } else {
        match (group_of(s), ipv4_of(s)) {
            (Some(group), _) => Some(seq![group]),
            (None, Some(ip)) => if with_ipv4 {
                Some(groups_of_ipv4(ip))
            } else {
                None
            },
            (None, None) => None,
        }
    }
}

/// The groups on one side of a double colon, where there may be none.
pub open spec fn side_groups(s: Seq<char>, with_ipv4: bool) -> Option<Seq<u16>> {
    if s.len() == 0 {
        Some(Seq::empty())
    } else {
        groups_in(s, with_ipv4)
    }
}

/// A run of `n` groups that are zero.
pub open spec fn zero_groups(n: int) -> Seq<u16> {
    Seq::new(n as nat, |i: int| 0u16)
}

/// The eight groups of the IPv6 address that `s` spells. A double colon
/// stands for one zero group or more; a part in IPv4 form comes last.
pub open spec fn ipv6_groups(s: Seq<char>) -> Option<Seq<u16>> {
    let k = double_colon(s, 0);
    if k >= s.len() {
        match groups_in(s, true) {
            Some(groups) => if groups.len() == 8 {
                Some(groups)
            } else {
                None
            },
            None => None,
        }
    } else {
        match (side_groups(s.take(k), false), side_groups(s.skip(k + 2), true)) {
            (Some(head), Some(tail)) => if head.len() + tail.len() <= 7 {
                Some(head + zero_groups(8 - head.len() - tail.len()) + tail)
            } else {
                None
            },
            _ => None,
        }
    }
}

/// Whether the rest of `s` from `i` on is the number of a scope: one or more
/// digits, below two to the thirty-second.
pub open spec fn is_scope(s: Seq<char>, i: int) -> bool {
    &&& i < s.len()
    &&& digits_end(s, i) == s.len()
    &&& digits_value(s, i, s.len() as int) <= u32::MAX
}

/// The groups of the address in `s`, which a scope may follow behind a
/// percent sign.
pub open spec fn scoped_groups(s: Seq<char>) -> Option<Seq<u16>> {
    let end = first_char(s, '%', 0);
    if end >= s.len() {
        ipv6_groups(s)
    } else if is_scope(s, end + 1) {
        ipv6_groups(s.take(end))
    } else {
        None
    }
}

/// The groups and the port that `s` spells as `[address]:port`.
pub open spec fn ipv6_endpoint_of(s: Seq<char>) -> Option<(Seq<u16>, u16)> {
    let close = first_char(s, ']', 0);
    if s.len() > 0 && s[0] == '[' && close + 1 < s.len() && s[close + 1] == ':' {
        match (scoped_groups(s.subrange(1, close)), port_at(s, close + 2)) {
            (Some(groups), Some(port)) => Some((groups, port)),
            _ => None,
        }
    } else {
        None
    }
}

// ---------------------------------------------------------------------------
// Writing
// ---------------------------------------------------------------------------
/// `n` in lower-case hexadecimal, without leading zeros.
pub open spec fn hex_number(n: nat) -> Seq<char>
    decreases n,
{
    if n < 16 {
        seq![hex_digit(n as int)]
    } else {
        hex_number(n / 16).push(hex_digit((n % 16) as int))
    }
}

/// The groups in hexadecimal, with a colon between two of them.
pub open spec fn joined(groups: Seq<u16>) -> Seq<char>
    decreases groups.len(),
{
    if groups.len() == 0 {
        Seq::empty()
    } else if groups.len() == 1 {
        hex_number(groups[0] as nat)
    } else {
        joined(groups.drop_last()).push(':') + hex_number(groups.last() as nat)
    }
}

/// How many groups from `i` on are zero.
pub open spec fn zeros_at(groups: Seq<u16>, i: int) -> int
    decreases groups.len() - i,
{
    if 0 <= i < groups.len() && groups[i] == 0 {
        1 + zeros_at(groups, i + 1)
    } else {
        0
    }
}

/// Where, among the first `n` positions, the first of the longest runs of zero
/// groups begins.
pub open spec fn longest_run(groups: Seq<u16>, n: int) -> int
    decreases n,
{
    if n <= 1 {
        0
    } else {
        let best = longest_run(groups, n - 1);
        if zeros_at(groups, n - 1) > zeros_at(groups, best) {
            n - 1
        } else {
            best
        }
    }
}

/// Whether the groups hold an IPv4 address in the mapped form.
pub open spec fn is_mapped(groups: Seq<u16>) -> bool {
    &&& groups.len() == 8
    &&& groups[0] == 0 && groups[1] == 0 && groups[2] == 0 && groups[3] == 0 && groups[4] == 0
    &&& groups[5] == 0xffff
}

/// The IPv4 address that two groups hold.
pub open spec fn ipv4_of_groups(high: u16, low: u16) -> Ipv4Addr {
    Ipv4Addr {
        a: (high / 256) as u8,
        b: (high % 256) as u8,
        c: (low / 256) as u8,
        d: (low % 256) as u8,
    }
}

/// An IPv6 address in its canonical form: an IPv4 address in the mapped form
/// is dotted, and otherwise the first of the longest runs of two or more zero
/// groups is a double colon.
pub open spec fn ipv6_text(groups: Seq<u16>) -> Seq<char> {
    let start = longest_run(groups, groups.len() as int);
    let run = zeros_at(groups, start);
    if is_mapped(groups) {
        seq![':', ':', 'f', 'f', 'f', 'f', ':'] + ipv4_text(ipv4_of_groups(groups[6], groups[7]))
    } else if run > 1 {
        joined(groups.take(start)).push(':').push(':') + joined(groups.skip(start + run))
    } else {
        joined(groups)
    }
}

/// The eight groups of an IPv6 address, the highest first.
pub open spec fn groups_of_ipv6(n: u128) -> Seq<u16> {
    seq![
        (n / 0x1_0000_0000_0000_0000_0000_0000_0000 % 0x1_0000) as u16,
        (n / 0x1_0000_0000_0000_0000_0000_0000 % 0x1_0000) as u16,
        (n / 0x1_0000_0000_0000_0000_0000 % 0x1_0000) as u16,
        (n / 0x1_0000_0000_0000_0000 % 0x1_0000) as u16,
        (n / 0x1_0000_0000_0000 % 0x1_0000) as u16,
        (n / 0x1_0000_0000 % 0x1_0000) as u16,
        (n / 0x1_0000 % 0x1_0000) as u16,
        (n % 0x1_0000) as u16,
    ]
}

/// The text of an address of either family.
pub open spec fn ip_text(ip: IpAddr) -> Seq<char> {
    match ip {
        IpAddr::V4(ip) => ipv4_text(ip),
        IpAddr::V6(n) => ipv6_text(groups_of_ipv6(n)),
    }
}

/// The text of an endpoint of either family; an IPv6 address stands in
/// brackets.
pub open spec fn socket_text(e: SocketAddr) -> Seq<char> {
    match e.ip {
        IpAddr::V4(ip) => host_port_text(ipv4_text(ip), e.port),
        IpAddr::V6(n) => seq!['['] + host_port_text(
            ipv6_text(groups_of_ipv6(n)).push(']'),
            e.port,
        ),
    }
}

/// The host and the port of the endpoint that `s` spells: `a.b.c.d:port` or
/// `[address]:port`. The host is the address in its canonical form.
pub open spec fn endpoint_host(s: Seq<char>) -> Option<(Seq<char>, u16)> {
    match (endpoint_of(s), ipv6_endpoint_of(s)) {
        (Some(e), _) => Some((ipv4_text(e.ip), e.port)),
        (None, Some((groups, port))) => Some((ipv6_text(groups), port)),
        (None, None) => None,
    }
}

// ---------------------------------------------------------------------------
// The reader
// ---------------------------------------------------------------------------
fn find_char(c: &[char], wanted: char, from: usize) -> (r: usize)
    requires
        from <= c.len(),
    ensures
        r == first_char(c@, wanted, from as int),
        from <= r <= c.len(),
{
    let mut i: usize = from;
    while i < c.len() && c[i] != wanted
        invariant
            from <= i <= c.len(),
            first_char(c@, wanted, i as int) == first_char(c@, wanted, from as int),
        decreases c@.len() - i,
    {
        i += 1;
    }
    i
}

fn find_double_colon(c: &[char]) -> (r: usize)
    ensures
        r == double_colon(c@, 0),
        r < c.len() ==> r + 1 < c.len(),
        r <= c.len(),
{
    let mut i: usize = 0;
    while i < c.len() && i + 1 < c.len()
        invariant
            i <= c.len(),
            double_colon(c@, i as int) == double_colon(c@, 0),
        decreases c@.len() - i,
    {
        if c[i] == ':' && c[i + 1] == ':' {
            return i;
        }
        i += 1;
    }
    c.len()
}

fn read_hex_digit(c: char) -> (r: Option<u16>)
    ensures
        match r {
            Some(v) => is_hex_digit(c) && v == hex_digit_value(c) && v < 16,
            None => !is_hex_digit(c),
        },
{
    if '0' <= c && c <= '9' {
        Some((c as u8 - 48) as u16)
    } else if 'a' <= c && c <= 'f' {
        Some((c as u8 - 87) as u16)
    } else if 'A' <= c && c <= 'F' {
        Some((c as u8 - 55) as u16)
    } else {
        None
    }
}

/// Reads one group, `c[from..to]`.
fn read_group(c: &[char], from: usize, to: usize) -> (r: Option<u16>)
    requires
        from <= to <= c.len(),
    ensures
        r == group_of(c@.subrange(from as int, to as int)),
{
    let ghost piece = c@.subrange(from as int, to as int);
    if to - from < 1 || to - from > 4 {
        return None;
    }
    let mut v: u32 = 0;
    let mut i: usize = from;
    assert(piece.take(0) =~= Seq::empty());
    while i < to
        invariant
            from <= i <= to <= c.len(),
            to - from <= 4,
            piece == c@.subrange(from as int, to as int),
            v == hex_value(piece.take(i - from)),
            i - from == 0 ==> v == 0,
            i - from == 1 ==> v < 0x10,
            i - from == 2 ==> v < 0x100,
            i - from == 3 ==> v < 0x1000,
            i - from == 4 ==> v < 0x1_0000,
            forall|k: int| 0 <= k < i - from ==> is_hex_digit(#[trigger] piece[k]),
        decreases to - i,
    {
        assert(piece[i - from] == c@[i as int]);
        match read_hex_digit(c[i]) {
            Some(d) => {
                assert(piece.take(i + 1 - from).drop_last() =~= piece.take(i - from));
                v = 16 * v + d as u32;
            },
            None => return None,
        }
        i += 1;
    }
    assert(piece.take(to - from) =~= piece);
    Some(v as u16)
}

/// `earlier` with what follows it, where something does.
spec fn prefixed(earlier: Seq<u16>, rest: Option<Seq<u16>>) -> Option<Seq<u16>> {
    match rest {
        Some(groups) => Some(earlier + groups),
        None => None,
    }
}

spec fn groups_result(r: Option<Vec<u16>>) -> Option<Seq<u16>> {
    match r {
        Some(v) => Some(v@),
        None => None,
    }
}

proof fn lemma_first_char_skip(s: Seq<char>, c: char, n: int, i: int)
    requires
        0 <= n,
        0 <= i,
        n + i <= s.len(),
    ensures
        first_char(s.skip(n), c, i) + n == first_char(s, c, n + i),
    decreases s.len() - i,
{
    if n + i < s.len() && s[n + i] != c {
        assert(s.skip(n)[i] == s[n + i]);
        lemma_first_char_skip(s, c, n, i + 1);
    } else if n + i < s.len() {
        assert(s.skip(n)[i] == s[n + i]);
    }
}

/// Reads groups with a colon between two of them.
#[verifier::rlimit(40)]
fn read_groups(c: &[char], with_ipv4: bool) -> (r: Option<Vec<u16>>)
    ensures
        groups_result(r) == groups_in(c@, with_ipv4),
{
    let mut out: Vec<u16> = Vec::new();
    let mut at: usize = 0;
    assert(c@.skip(0) =~= c@);
    proof {
        assert(out@ =~= Seq::empty());
        if let Some(groups) = groups_in(c@, with_ipv4) {
            assert(out@ + groups =~= groups);
        }
    }
    loop
        invariant
            at <= c.len(),
            groups_in(c@, with_ipv4) == prefixed(
                out@,
                groups_in(c@.skip(at as int), with_ipv4),
            ),
        decreases c@.len() - at,
    {
        let ghost here = c@.skip(at as int);
        let end: usize = find_char(c, ':', at);
        proof {
            lemma_first_char_skip(c@, ':', at as int, 0);
            assert(here.take(end - at) =~= c@.subrange(at as int, end as int));
        }
        let group: Option<u16> = read_group(c, at, end);
        if end >= c.len() {
            assert(here.take(end - at) =~= here);
            match group {
                Some(g) => {
                    out.push(g);
                    return Some(out);
                },
                None => {
                    let text: String = text_of(c, at, end);
                    return match parse_ipv4(text.as_str()) {
                        Some(ip) => {
                            if with_ipv4 {
                                out.push(256 * (ip.a as u16) + ip.b as u16);
                                out.push(256 * (ip.c as u16) + ip.d as u16);
                                Some(out)
                            } else {
                                None
                            }
                        },
                        None => None,
                    };
                },
            }
        }
        match group {
            Some(g) => {
                let ghost before = out@;
                out.push(g);
                proof {
                    assert(here.skip(end - at + 1) =~= c@.skip(end + 1));
                    if let Some(rest) = groups_in(c@.skip(end + 1), with_ipv4) {
                        assert(before + (seq![g] + rest) =~= out@ + rest);
                    }
                }
                at = end + 1;
            },
            None => return None,
        }
    }
}

fn read_side(c: &[char], with_ipv4: bool) -> (r: Option<Vec<u16>>)
    ensures
        groups_result(r) == side_groups(c@, with_ipv4),
{
    if c.len() == 0 {
        Some(Vec::new())
    } else {
        read_groups(c, with_ipv4)
    }
}

/// Reads an IPv6 address.
fn read_ipv6(c: &[char]) -> (r: Option<Vec<u16>>)
    ensures
        groups_result(r) == ipv6_groups(c@),
{
    let k: usize = find_double_colon(c);
    if k >= c.len() {
        return match read_groups(c, true) {
            Some(groups) => if groups.len() == 8 {
                Some(groups)
            } else {
                None
            },
            None => None,
        };
    }
    let front: &[char] = vstd::slice::slice_subrange(c, 0, k);
    let back: &[char] = vstd::slice::slice_subrange(c, k + 2, c.len());
    assert(front@ =~= c@.take(k as int));
    assert(back@ =~= c@.skip(k + 2));
    let mut groups: Vec<u16> = match read_side(front, false) {
        Some(v) => v,
        None => return None,
    };
    let tail: Vec<u16> = match read_side(back, true) {
        Some(v) => v,
        None => return None,
    };
    let ghost head = groups@;
    if groups.len() > 7 || tail.len() > 7 - groups.len() {
        return None;
    }
    let zeros: usize = 8 - groups.len() - tail.len();
    let mut i: usize = 0;
    assert(head + zero_groups(0) =~= head);
    while i < zeros
        invariant
            i <= zeros,
            groups@ == head + zero_groups(i as int),
        decreases zeros - i,
    {
        groups.push(0);
        i += 1;
        assert(groups@ =~= head + zero_groups(i as int));
    }
    let mut m: usize = 0;
    assert(groups@ =~= head + zero_groups(zeros as int) + tail@.take(0));
    while m < tail.len()
        invariant
            m <= tail@.len(),
            groups@ == head + zero_groups(zeros as int) + tail@.take(m as int),
        decreases tail@.len() - m,
    {
        groups.push(tail[m]);
        m += 1;
        assert(groups@ =~= head + zero_groups(zeros as int) + tail@.take(m as int));
    }
    assert(tail@.take(m as int) =~= tail@);
    Some(groups)
}

fn is_scope_at(c: &[char], i: usize) -> (r: bool)
    requires
        i <= c.len(),
    ensures
        r == is_scope(c@, i as int),
{
    let j: usize = find_digits_end(c, i);
    if i >= c.len() || j != c.len() {
        return false;
    }
    proof {
        crate::addr::lemma_digits_end(c@, i as int);
    }
    let mut v: u64 = 0;
    let mut k: usize = i;
    while k < j
        invariant
            i <= k <= j == c@.len(),
            v == digits_value(c@, i as int, k as int),
            v <= u32::MAX,
            forall|m: int| i <= m < j ==> is_digit(#[trigger] c@[m]),
            digits_end(c@, i as int) == c@.len(),
        decreases j - k,
    {
        assert(is_digit(c@[k as int]));
        v = 10 * v + (c[k] as u64 - 48);
        k += 1;
        if v > u32::MAX as u64 {
            proof {
                crate::addr::lemma_digits_value_grows(c@, i as int, k as int, j as int);
            }
            return false;
        }
    }
    true
}

fn read_scoped(c: &[char]) -> (r: Option<Vec<u16>>)
    ensures
        groups_result(r) == scoped_groups(c@),
{
    let end: usize = find_char(c, '%', 0);
    if end >= c.len() {
        return read_ipv6(c);
    }
    if !is_scope_at(c, end + 1) {
        return None;
    }
    let address: &[char] = vstd::slice::slice_subrange(c, 0, end);
    assert(address@ =~= c@.take(end as int));
    read_ipv6(address)
}

fn read_ipv6_endpoint(c: &[char]) -> (r: Option<(Vec<u16>, u16)>)
    ensures
        match r {
            Some((groups, port)) => ipv6_endpoint_of(c@) == Some((groups@, port)),
            None => ipv6_endpoint_of(c@) is None,
        },
{
    if c.len() == 0 || c[0] != '[' {
        return None;
    }
    let close: usize = find_char(c, ']', 1);
    assert(first_char(c@, ']', 0) == close);
    if close >= c.len() || close + 1 >= c.len() || c[close + 1] != ':' {
        return None;
    }
    let inside: &[char] = vstd::slice::slice_subrange(c, 1, close);
    let groups: Vec<u16> = match read_scoped(inside) {
        Some(groups) => groups,
        None => return None,
    };
    match parse_port_at(c, close + 2) {
        Some(port) => Some((groups, port)),
        None => None,
    }
}

// ---------------------------------------------------------------------------
// The writer
// ---------------------------------------------------------------------------
fn push_hex(s: &mut String, n: u16)
    ensures
        final(s)@ == old(s)@ + hex_number(n as nat),
    decreases n,
{
    if n >= 16 {
        push_hex(s, n / 16);
    }
    let d: u8 = (n % 16) as u8;
    if d < 10 {
        s.push((48 + d) as char);
    } else {
        s.push((87 + d) as char);
    }
    assert(s@ =~= old(s)@ + hex_number(n as nat));
}

/// Appends the groups `g[from..to]`.
fn push_joined(s: &mut String, g: &Vec<u16>, from: usize, to: usize)
    requires
        from <= to <= g@.len(),
    ensures
        final(s)@ == old(s)@ + joined(g@.subrange(from as int, to as int)),
{
    let mut i: usize = from;
    assert(g@.subrange(from as int, from as int) =~= Seq::empty());
    assert(s@ =~= old(s)@ + joined(Seq::empty()));
    while i < to
        invariant
            from <= i <= to <= g@.len(),
            s@ == old(s)@ + joined(g@.subrange(from as int, i as int)),
        decreases to - i,
    {
        let ghost done = g@.subrange(from as int, i as int);
        let ghost next = g@.subrange(from as int, i + 1);
        assert(next.drop_last() =~= done);
        if i > from {
            s.push(':');
        }
        push_hex(s, g[i]);
        assert(s@ =~= old(s)@ + joined(next));
        i += 1;
    }
}

fn count_zeros(g: &Vec<u16>, from: usize) -> (r: usize)
    requires
        from <= g@.len(),
    ensures
        r == zeros_at(g@, from as int),
        from + r <= g@.len(),
{
    let mut i: usize = from;
    while i < g.len() && g[i] == 0
        invariant
            from <= i <= g@.len(),
            zeros_at(g@, from as int) == (i - from) + zeros_at(g@, i as int),
        decreases g@.len() - i,
    {
        i += 1;
    }
    i - from
}

/// The canonical form of an IPv6 address.
pub fn ipv6_to_text(groups: &Vec<u16>) -> (s: String)
    ensures
        s@ == ipv6_text(groups@),
{
    let mut s: String = String::new();
    if groups.len() == 8 && groups[0] == 0 && groups[1] == 0 && groups[2] == 0 && groups[3] == 0
        && groups[4] == 0 && groups[5] == 0xffff {
        s.push(':');
        s.push(':');
        s.push('f');
        s.push('f');
        s.push('f');
        s.push('f');
        s.push(':');
        assert(s@ =~= seq![':', ':', 'f', 'f', 'f', 'f', ':']);
        let ip = Ipv4Addr {
            a: (groups[6] / 256) as u8,
            b: (groups[6] % 256) as u8,
            c: (groups[7] / 256) as u8,
            d: (groups[7] % 256) as u8,
        };
        let dotted: String = ipv4_to_text(ip);
        s.append(dotted.as_str());
        return s;
    }
    let mut start: usize = 0;
    let mut run: usize = count_zeros(groups, 0);
    let mut i: usize = 1;
    while i < groups.len()
        invariant
            1 <= i,
            i <= groups@.len() || i == 1,
            start + run <= groups@.len(),
            start == longest_run(groups@, i as int),
            run == zeros_at(groups@, start as int),
        decreases groups@.len() - i,
    {
        let n: usize = count_zeros(groups, i);
        if n > run {
            start = i;
            run = n;
        }
        i += 1;
    }
    assert(start == longest_run(groups@, groups@.len() as int));
    if run > 1 {
        push_joined(&mut s, groups, 0, start);
        s.push(':');
        s.push(':');
        push_joined(&mut s, groups, start + run, groups.len());
        assert(groups@.subrange(0, start as int) =~= groups@.take(start as int));
        assert(groups@.subrange(start + run, groups@.len() as int) =~= groups@.skip(start + run));
    } else {
        push_joined(&mut s, groups, 0, groups.len());
        assert(groups@.subrange(0, groups@.len() as int) =~= groups@);
    }
    assert(s@ =~= ipv6_text(groups@));
    s
}

/// The text of an address of either family.
pub fn ip_to_text(ip: IpAddr) -> (s: String)
    ensures
        s@ == ip_text(ip),
{
    match ip {
        IpAddr::V4(ip) => ipv4_to_text(ip),
        IpAddr::V6(n) => {
            let mut groups: Vec<u16> = Vec::new();
            groups.push((n / 0x1_0000_0000_0000_0000_0000_0000_0000 % 0x1_0000) as u16);
            groups.push((n / 0x1_0000_0000_0000_0000_0000_0000 % 0x1_0000) as u16);
            groups.push((n / 0x1_0000_0000_0000_0000_0000 % 0x1_0000) as u16);
            groups.push((n / 0x1_0000_0000_0000_0000 % 0x1_0000) as u16);
            groups.push((n / 0x1_0000_0000_0000 % 0x1_0000) as u16);
            groups.push((n / 0x1_0000_0000 % 0x1_0000) as u16);
            groups.push((n / 0x1_0000 % 0x1_0000) as u16);
            groups.push((n % 0x1_0000) as u16);
            assert(groups@ =~= groups_of_ipv6(n));
            ipv6_to_text(&groups)
        },
    }
}

/// The text of an endpoint of either family.
pub fn socket_to_text(e: SocketAddr) -> (s: String)
    ensures
        s@ == socket_text(e),
{
    match e.ip {
        IpAddr::V4(ip) => host_port_to_text(&ipv4_to_text(ip), e.port),
        IpAddr::V6(_) => {
            let mut host: String = ip_to_text(e.ip);
            host.push(']');
            let mut s: String = String::new();
            s.push('[');
            s.append(host_port_to_text(&host, e.port).as_str());
            assert(s@ =~= socket_text(e));
            s
        },
    }
}

/// Parses `a.b.c.d:port` or `[address]:port` into the host, as text, and the
/// port.
pub fn parse_endpoint_host(text: &str) -> (r: Option<(String, u16)>)
    ensures
        match r {
            Some((host, port)) => endpoint_host(text@) == Some((host@, port)),
            None => endpoint_host(text@) is None,
        },
{
    if let Some(endpoint) = parse_endpoint(text) {
        return Some((ipv4_to_text(endpoint.ip), endpoint.port));
    }
    let c: Vec<char> = chars_of(text);
    match read_ipv6_endpoint(c.as_slice()) {
        Some((groups, port)) => Some((ipv6_to_text(&groups), port)),
        None => None,
    }
}

// ---------------------------------------------------------------------------
// Laws
// ---------------------------------------------------------------------------
spec fn is_address_char(c: char) -> bool {
    is_hex_digit(c) || c == ':' || c == '.'
}

spec fn colons_at(s: Seq<char>, i: int) -> bool {
    i + 1 < s.len() && s[i] == ':' && s[i + 1] == ':'
}

spec fn no_double_colon(s: Seq<char>) -> bool {
    forall|i: int| 0 <= i ==> !#[trigger] colons_at(s, i)
}

proof fn lemma_first_char_at(s: Seq<char>, c: char, i: int, end: int)
    requires
        0 <= i <= end <= s.len(),
        forall|k: int| i <= k < end ==> #[trigger] s[k] != c,
        end < s.len() ==> s[end] == c,
    ensures
        first_char(s, c, i) == end,
    decreases end - i,
{
    if i < end {
        lemma_first_char_at(s, c, i + 1, end);
    }
}

proof fn lemma_double_colon_at(s: Seq<char>, i: int, k: int)
    requires
        0 <= i <= k <= s.len(),
        forall|m: int| i <= m < k ==> !#[trigger] colons_at(s, m),
        k < s.len() ==> colons_at(s, k),
    ensures
        double_colon(s, i) == k,
    decreases k - i,
{
    if i < k {
        assert(!colons_at(s, i));
        lemma_double_colon_at(s, i + 1, k);
    }
}

/// A group in hexadecimal reads back.
proof fn lemma_hex_number(n: nat)
    ensures
        hex_number(n).len() >= 1,
        n < 0x10 ==> hex_number(n).len() == 1,
        n < 0x100 ==> hex_number(n).len() <= 2,
        n < 0x1000 ==> hex_number(n).len() <= 3,
        n < 0x1_0000 ==> hex_number(n).len() <= 4,
        forall|k: int| 0 <= k < hex_number(n).len() ==> is_hex_digit(#[trigger] hex_number(n)[k]),
        hex_value(hex_number(n)) == n,
    decreases n,
{
    reveal_with_fuel(hex_value, 2);
    if n >= 16 {
        lemma_hex_number(n / 16);
        let s = hex_number(n);
        assert(s.drop_last() =~= hex_number(n / 16));
        assert(s.last() == hex_digit((n % 16) as int));
    } else {
        let s = hex_number(n);
        assert(s.drop_last() =~= Seq::empty());
    }
}

proof fn lemma_group_reads_back(g: u16)
    ensures
        group_of(hex_number(g as nat)) == Some(g),
{
    lemma_hex_number(g as nat);
}

proof fn lemma_joined(groups: Seq<u16>)
    ensures
        groups.len() > 0 ==> joined(groups).len() > 0 && joined(groups)[0] != ':' && joined(
            groups,
        ).last() != ':',
        forall|k: int|
            0 <= k < joined(groups).len() ==> is_address_char(#[trigger] joined(groups)[k]),
        no_double_colon(joined(groups)),
    decreases groups.len(),
{
    if groups.len() == 1 {
        lemma_hex_number(groups[0] as nat);
    } else if groups.len() > 1 {
        let a = joined(groups.drop_last());
        let b = hex_number(groups.last() as nat);
        let s = joined(groups);
        lemma_joined(groups.drop_last());
        lemma_hex_number(groups.last() as nat);
        assert(s == a.push(':') + b);
        let n = a.len() as int;
        assert(s[0] == a[0]);
        assert(s.last() == b.last());
        assert forall|k: int| 0 <= k < s.len() implies is_address_char(#[trigger] s[k]) by {
            if k < n {
                assert(s[k] == a[k]);
            } else if k > n {
                assert(s[k] == b[k - n - 1]);
            }
        }
        assert forall|i: int| 0 <= i implies !#[trigger] colons_at(s, i) by {
            if i + 1 < n {
                assert(!colons_at(a, i));
                assert(s[i] == a[i] && s[i + 1] == a[i + 1]);
            } else if i + 1 == n {
                assert(s[i] == a.last());
            } else if i + 1 < s.len() {
                assert(s[i + 1] == b[i + 1 - n - 1]);
            }
        }
    }
}

proof fn lemma_joined_front(groups: Seq<u16>)
    requires
        groups.len() >= 2,
    ensures
        joined(groups) == hex_number(groups[0] as nat).push(':') + joined(groups.skip(1)),
    decreases groups.len(),
{
    let init = groups.drop_last();
    let first = hex_number(groups[0] as nat).push(':');
    let last = hex_number(groups.last() as nat);
    if groups.len() == 2 {
        assert(joined(init) == hex_number(groups[0] as nat));
        assert(groups.skip(1)[0] == groups.last());
        assert(joined(groups) =~= first + joined(groups.skip(1)));
    } else {
        lemma_joined_front(init);
        assert(init.skip(1) =~= groups.skip(1).drop_last());
        assert(joined(groups.skip(1)) == joined(init.skip(1)).push(':') + last);
        assert(joined(groups) =~= first + joined(groups.skip(1)));
    }
}

/// Groups with colons between them read back.
proof fn lemma_joined_reads_back(groups: Seq<u16>, with_ipv4: bool)
    requires
        groups.len() > 0,
    ensures
        groups_in(joined(groups), with_ipv4) == Some(groups),
    decreases groups.len(),
{
    let s = joined(groups);
    let first = hex_number(groups[0] as nat);
    let n = first.len() as int;
    lemma_hex_number(groups[0] as nat);
    lemma_group_reads_back(groups[0]);
    if groups.len() == 1 {
        lemma_first_char_at(s, ':', 0, s.len() as int);
        assert(seq![groups[0]] =~= groups);
    } else {
        lemma_joined_front(groups);
        lemma_joined_reads_back(groups.skip(1), with_ipv4);
        assert forall|k: int| 0 <= k < n implies #[trigger] s[k] != ':' by {
            assert(s[k] == first[k]);
        }
        assert(s[n] == ':');
        lemma_first_char_at(s, ':', 0, n);
        assert(s.take(n) =~= first);
        assert(s.skip(n + 1) =~= joined(groups.skip(1)));
        assert(seq![groups[0]] + groups.skip(1) =~= groups);
    }
}

proof fn lemma_side_reads_back(groups: Seq<u16>, with_ipv4: bool)
    ensures
        side_groups(joined(groups), with_ipv4) == Some(groups),
{
    lemma_joined(groups);
    if groups.len() > 0 {
        lemma_joined_reads_back(groups, with_ipv4);
    } else {
        assert(groups =~= Seq::empty());
    }
}

proof fn lemma_zeros_at(groups: Seq<u16>, i: int)
    requires
        0 <= i <= groups.len(),
    ensures
        0 <= zeros_at(groups, i) <= groups.len() - i,
        forall|k: int| i <= k < i + zeros_at(groups, i) ==> #[trigger] groups[k] == 0,
    decreases groups.len() - i,
{
    if i < groups.len() && groups[i] == 0 {
        lemma_zeros_at(groups, i + 1);
    }
}

proof fn lemma_longest_run(groups: Seq<u16>, n: int)
    requires
        0 <= n <= groups.len(),
    ensures
        0 <= longest_run(groups, n) <= groups.len(),
    decreases n,
{
    if n > 1 {
        lemma_longest_run(groups, n - 1);
    }
}

proof fn lemma_ipv4_chars(ip: Ipv4Addr)
    ensures
        forall|k: int|
            0 <= k < ipv4_text(ip).len() ==> is_digit(#[trigger] ipv4_text(ip)[k]) || ipv4_text(
                ip,
            )[k] == '.',
        exists|k: int| 0 <= k < ipv4_text(ip).len() && #[trigger] ipv4_text(ip)[k] == '.',
{
    lemma_decimal(ip.a as nat);
    lemma_decimal(ip.b as nat);
    lemma_decimal(ip.c as nat);
    lemma_decimal(ip.d as nat);
    assert(ipv4_text(ip)[decimal(ip.a as nat).len() as int] == '.');
}

/// The form with a double colon reads back.
#[verifier::rlimit(40)]
proof fn lemma_compressed_reads_back(groups: Seq<u16>, start: int, run: int)
    requires
        groups.len() == 8,
        0 <= start,
        1 < run <= 8 - start,
        forall|k: int| start <= k < start + run ==> #[trigger] groups[k] == 0,
    ensures
        ({
            let s = joined(groups.take(start)).push(':').push(':') + joined(
                groups.skip(start + run),
            );
            &&& ipv6_groups(s) == Some(groups)
            &&& forall|k: int| 0 <= k < s.len() ==> is_address_char(#[trigger] s[k])
        }),
{
    let head = groups.take(start);
    let tail = groups.skip(start + run);
    let a = joined(head);
    let b = joined(tail);
    let s = a.push(':').push(':') + b;
    let n = a.len() as int;
    lemma_joined(head);
    lemma_joined(tail);
    assert forall|m: int| 0 <= m < n implies !#[trigger] colons_at(s, m) by {
        assert(s[m] == a[m]);
        if m + 1 < n {
            assert(!colons_at(a, m));
            assert(s[m + 1] == a[m + 1]);
        } else {
            assert(s[m] == a.last());
        }
    }
    assert(colons_at(s, n));
    lemma_double_colon_at(s, 0, n);
    assert(s.take(n) =~= a);
    assert(s.skip(n + 2) =~= b);
    lemma_side_reads_back(head, false);
    lemma_side_reads_back(tail, true);
    assert(head + zero_groups(run) + tail =~= groups);
    assert forall|k: int| 0 <= k < s.len() implies is_address_char(#[trigger] s[k]) by {
        if k < n {
            assert(s[k] == a[k]);
        } else if k > n + 1 {
            assert(s[k] == b[k - n - 2]);
        }
    }
}

proof fn lemma_all_ones()
    ensures
        group_of(seq!['f', 'f', 'f', 'f']) == Some(0xffffu16),
{
    let f = seq!['f', 'f', 'f', 'f'];
    reveal_with_fuel(hex_value, 5);
    assert(f.drop_last() =~= seq!['f', 'f', 'f']);
    assert(f.drop_last().drop_last() =~= seq!['f', 'f']);
    assert(f.drop_last().drop_last().drop_last() =~= seq!['f']);
    assert(f.drop_last().drop_last().drop_last().drop_last() =~= Seq::empty());
}

/// A dotted address behind a group reads back as two more groups.
proof fn lemma_dotted_reads_back(t: Seq<char>, ip: Ipv4Addr)
    requires
        ipv4_of(t) == Some(ip),
        forall|k: int| 0 <= k < t.len() ==> #[trigger] t[k] != ':',
        exists|k: int| 0 <= k < t.len() && #[trigger] t[k] == '.',
    ensures
        groups_in(seq!['f', 'f', 'f', 'f', ':'] + t, true) == Some(
            seq![0xffffu16] + groups_of_ipv4(ip),
        ),
{
    let f = seq!['f', 'f', 'f', 'f'];
    let s = seq!['f', 'f', 'f', 'f', ':'] + t;
    lemma_all_ones();
    lemma_first_char_at(s, ':', 0, 4);
    assert(s.take(4) =~= f);
    assert(s.skip(5) =~= t);
    lemma_first_char_at(t, ':', 0, t.len() as int);
    let dot = choose|k: int| 0 <= k < t.len() && #[trigger] t[k] == '.';
    assert(!is_hex_digit(t[dot]));
    assert(group_of(t) is None);
    assert(groups_in(t, true) == Some(groups_of_ipv4(ip)));
    assert(groups_in(s, true) == Some(seq![0xffffu16] + groups_of_ipv4(ip)));
}

/// The mapped form reads back.
proof fn lemma_mapped_reads_back(t: Seq<char>, ip: Ipv4Addr)
    requires
        ipv4_of(t) == Some(ip),
        forall|k: int| 0 <= k < t.len() ==> #[trigger] t[k] != ':',
        exists|k: int| 0 <= k < t.len() && #[trigger] t[k] == '.',
    ensures
        ipv6_groups(seq![':', ':', 'f', 'f', 'f', 'f', ':'] + t) == Some(
            zero_groups(5) + (seq![0xffffu16] + groups_of_ipv4(ip)),
        ),
{
    let s = seq![':', ':', 'f', 'f', 'f', 'f', ':'] + t;
    let tail = seq![0xffffu16] + groups_of_ipv4(ip);
    lemma_dotted_reads_back(t, ip);
    assert(colons_at(s, 0));
    lemma_double_colon_at(s, 0, 0);
    assert(s.take(0) =~= Seq::empty());
    assert(s.skip(2) =~= seq!['f', 'f', 'f', 'f', ':'] + t);
    assert(Seq::<u16>::empty() + zero_groups(5) + tail =~= zero_groups(5) + tail);
}

proof fn lemma_mapped_text(groups: Seq<u16>)
    requires
        is_mapped(groups),
    ensures
        ipv6_groups(ipv6_text(groups)) == Some(groups),
        forall|k: int|
            0 <= k < ipv6_text(groups).len() ==> is_address_char(#[trigger] ipv6_text(groups)[k]),
{
    let ip = ipv4_of_groups(groups[6], groups[7]);
    let t = ipv4_text(ip);
    let lead = seq![':', ':', 'f', 'f', 'f', 'f', ':'];
    let s = ipv6_text(groups);
    assert(s == lead + t);
    lemma_ipv4_chars(ip);
    law_ipv4_text_parses_back(ip);
    lemma_mapped_reads_back(t, ip);
    assert(zero_groups(5) + (seq![0xffffu16] + groups_of_ipv4(ip)) =~= groups);
    assert forall|k: int| 0 <= k < s.len() implies is_address_char(#[trigger] s[k]) by {
        if k < 7 {
            assert(s[k] == lead[k]);
        } else {
            assert(s[k] == t[k - 7]);
        }
    }
}

/// The canonical form of an IPv6 address parses back to that address.
pub proof fn law_ipv6_text_parses_back(groups: Seq<u16>)
    requires
        groups.len() == 8,
    ensures
        ipv6_groups(ipv6_text(groups)) == Some(groups),
{
    lemma_ipv6_text(groups);
}

proof fn lemma_ipv6_text(groups: Seq<u16>)
    requires
        groups.len() == 8,
    ensures
        ipv6_groups(ipv6_text(groups)) == Some(groups),
        forall|k: int|
            0 <= k < ipv6_text(groups).len() ==> is_address_char(#[trigger] ipv6_text(groups)[k]),
{
    let start = longest_run(groups, 8);
    let run = zeros_at(groups, start);
    lemma_longest_run(groups, 8);
    lemma_zeros_at(groups, start);
    if is_mapped(groups) {
        lemma_mapped_text(groups);
    } else if run > 1 {
        lemma_compressed_reads_back(groups, start, run);
    } else {
        let s = joined(groups);
        lemma_joined(groups);
        lemma_double_colon_at(s, 0, s.len() as int);
        lemma_joined_reads_back(groups, true);
    }
}

/// An address in brackets before a port reads back.
proof fn lemma_bracketed_reads_back(t: Seq<char>, groups: Seq<u16>, port: u16, s: Seq<char>)
    requires
        ipv6_groups(t) == Some(groups),
        forall|k: int| 0 <= k < t.len() ==> is_address_char(#[trigger] t[k]),
        s == seq!['['] + (t.push(']').push(':') + decimal(port as nat)),
    ensures
        ipv6_endpoint_of(s) == Some((groups, port)),
        endpoint_of(s) is None,
{
    let close = t.len() as int + 1;
    assert(s[0] == '[');
    assert(s[close] == ']');
    assert(s[close + 1] == ':');
    assert(octet_before(s, 0, '.') is None);
    assert forall|k: int| 0 <= k < close implies #[trigger] s[k] != ']' by {
        if k > 0 {
            assert(s[k] == t[k - 1]);
        }
    }
    lemma_first_char_at(s, ']', 0, close);
    assert(s.subrange(1, close) =~= t);
    assert(scoped_groups(t) == Some(groups)) by {
        assert forall|k: int| 0 <= k < t.len() implies #[trigger] t[k] != '%' by {
            assert(is_address_char(t[k]));
        }
        lemma_first_char_at(t, '%', 0, t.len() as int);
    }
    assert(s.subrange(close + 2, s.len() as int) =~= decimal(port as nat));
    lemma_port_reads_back(port, s, close + 2);
    lemma_decimal(port as nat);
}

proof fn lemma_ipv6_endpoint_host(groups: Seq<u16>, port: u16)
    requires
        groups.len() == 8,
    ensures
        endpoint_host(seq!['['] + host_port_text(ipv6_text(groups).push(']'), port)) == Some(
            (ipv6_text(groups), port),
        ),
{
    let t = ipv6_text(groups);
    lemma_ipv6_text(groups);
    lemma_bracketed_reads_back(t, groups, port, seq!['['] + host_port_text(t.push(']'), port));
}

proof fn lemma_ipv4_endpoint_host(ip: Ipv4Addr, port: u16)
    ensures
        endpoint_host(host_port_text(ipv4_text(ip), port)) == Some((ipv4_text(ip), port)),
{
    law_endpoint_text_parses_back(SocketAddrV4 { ip, port });
}

/// The text of an endpoint of either family names its address and its port.
#[verifier::rlimit(40)]
pub proof fn law_endpoint_text_names_its_host(e: SocketAddr)
    ensures
        endpoint_host(socket_text(e)) == Some((ip_text(e.ip), e.port)),
{
    match e.ip {
        IpAddr::V4(ip) => {
            lemma_ipv4_endpoint_host(ip, e.port);
        },
        IpAddr::V6(n) => {
            lemma_ipv6_endpoint_host(groups_of_ipv6(n), e.port);
        },
    }
}

/// A run of zero groups ends where a group is not zero or there is none.
pub proof fn law_run_of_zeros(groups: Seq<u16>, i: int)
    requires
        0 <= i <= groups.len(),
    ensures
        ({
            let n = zeros_at(groups, i);
            &&& 0 <= n <= groups.len() - i
            &&& forall|k: int| i <= k < i + n ==> #[trigger] groups[k] == 0
            &&& i + n < groups.len() ==> groups[i + n] != 0
        }),
    decreases groups.len() - i,
{
    if i < groups.len() && groups[i] == 0 {
        law_run_of_zeros(groups, i + 1);
    }
}

/// The run that a double colon stands for is a longest one, and the first of
/// these.
pub proof fn law_double_colon_is_the_first_longest_run(groups: Seq<u16>, n: int)
    requires
        1 <= n <= groups.len(),
    ensures
        0 <= longest_run(groups, n) < n,
        forall|i: int|
            0 <= i < n ==> #[trigger] zeros_at(groups, i) <= zeros_at(
                groups,
                longest_run(groups, n),
            ),
        forall|i: int|
            0 <= i < longest_run(groups, n) ==> #[trigger] zeros_at(groups, i) < zeros_at(
                groups,
                longest_run(groups, n),
            ),
    decreases n,
{
    if n > 1 {
        law_double_colon_is_the_first_longest_run(groups, n - 1);
    }
}

/// A group is written as the lower-case hexadecimal number that it is, without
/// leading zeros.
pub proof fn law_group_text_spells_the_group(n: nat)
    ensures
        hex_value(hex_number(n)) == n,
        n > 0 ==> hex_number(n)[0] != '0',
        forall|i: int|
            0 <= i < hex_number(n).len() ==> '0' <= #[trigger] hex_number(n)[i] <= '9' || 'a'
                <= hex_number(n)[i] <= 'f',
        hex_number(n).len() > 0,
    decreases n,
{
    let t = hex_number(n);
    reveal_with_fuel(hex_value, 2);
    if n < 16 {
        assert(t.drop_last() =~= Seq::empty());
        assert(t.last() == hex_digit(n as int));
    } else {
        law_group_text_spells_the_group(n / 16);
        assert(t.drop_last() =~= hex_number(n / 16));
        assert(t.last() == hex_digit((n % 16) as int));
        assert(t[0] == hex_number(n / 16)[0]);
        assert forall|i: int| 0 <= i < t.len() implies '0' <= #[trigger] t[i] <= '9' || 'a' <= t[i]
            <= 'f' by {
            if i < t.len() - 1 {
                assert(t[i] == hex_number(n / 16)[i]);
            }
        }
    }
}

/// The groups of an address are its number in base 65536, the highest first.
pub proof fn law_groups_are_the_number(n: u128)
    ensures
        ({
            let g = groups_of_ipv6(n);
            &&& g.len() == 8
            &&& n == ((((((g[0] * 0x1_0000 + g[1]) * 0x1_0000 + g[2]) * 0x1_0000 + g[3]) * 0x1_0000
                + g[4]) * 0x1_0000 + g[5]) * 0x1_0000 + g[6]) * 0x1_0000 + g[7]
        }),
{
    let m = n as int;
    let n1 = m / 0x1_0000;
    let n2 = n1 / 0x1_0000;
    let n3 = n2 / 0x1_0000;
    let n4 = n3 / 0x1_0000;
    let n5 = n4 / 0x1_0000;
    let n6 = n5 / 0x1_0000;
    let n7 = n6 / 0x1_0000;
    assert(m / 0x1_0000_0000 == n2);
    assert(m / 0x1_0000_0000_0000 == n3);
    assert(m / 0x1_0000_0000_0000_0000 == n4);
    assert(m / 0x1_0000_0000_0000_0000_0000 == n5);
    assert(m / 0x1_0000_0000_0000_0000_0000_0000 == n6);
    assert(m / 0x1_0000_0000_0000_0000_0000_0000_0000 == n7);
    assert(n7 < 0x1_0000);
}

/// How an address is written: an IPv4 address in the mapped form is dotted
/// behind its prefix; an address without two zero groups in a row has all its
/// groups.
pub proof fn law_form_of_the_text(groups: Seq<u16>)
    requires
        groups.len() == 8,
    ensures
        groups[0] == 0 && groups[1] == 0 && groups[2] == 0 && groups[3] == 0 && groups[4] == 0
            && groups[5] == 0xffff ==> ipv6_text(groups) == seq![
            ':',
            ':',
            'f',
            'f',
            'f',
            'f',
            ':',
        ] + ipv4_text(
            Ipv4Addr {
                a: (groups[6] / 256) as u8,
                b: (groups[6] % 256) as u8,
                c: (groups[7] / 256) as u8,
                d: (groups[7] % 256) as u8,
            },
        ),
        (forall|i: int| 0 <= i < 7 ==> (#[trigger] groups[i] != 0 || groups[i + 1] != 0))
            ==> ipv6_text(groups) == joined(groups),
{
    let start = longest_run(groups, 8);
    law_double_colon_is_the_first_longest_run(groups, 8);
    law_run_of_zeros(groups, start);
    if forall|i: int| 0 <= i < 7 ==> (#[trigger] groups[i] != 0 || groups[i + 1] != 0) {
        if zeros_at(groups, start) > 1 {
            assert(groups[start] == 0 && groups[start + 1] == 0);
        }
        assert(groups[0] != 0 || groups[1] != 0);
    }
}

} // verus!
