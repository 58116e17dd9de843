//! What a session reports about servers, and the lists of servers that servers
//! send.
use vstd::prelude::*;

use crate::addr::{ipv4_at, octets_of, read_ipv4, Ipv4Addr};
use crate::bytes::{le16, lemma_le16, read_u16, u16_le};

verus! {

/// The most servers that one list may bring.
pub const MAX_SERVERS_FROM_ONE_LIST: usize = 1_000;

/// What a session reports to whoever keeps the list of servers.
#[derive(Debug, Clone, PartialEq, Eq)]
pub enum Ed2kServerListEvent {
    /// Servers that another server named.
    DiscoveredServers(Vec<(Ipv4Addr, u16)>),
    /// A server that could not be reached.
    ConnectFailed { endpoint: String },
    /// A server that accepted the login.
    ConnectSucceeded { endpoint: String },
    /// What a server says about itself.
    MetadataUpdated { endpoint: String, name: Option<String>, description: Option<String> },
}

/// The server that entry `i` of a list names.
pub open spec fn listed_server(b: Seq<u8>, i: int) -> (Ipv4Addr, u16) {
    (ipv4_at(b, 1 + 6 * i), le16(b, 1 + 6 * i + 4))
}

/// Whether a server can be connected to.
pub open spec fn is_usable(server: (Ipv4Addr, u16)) -> bool {
    server.1 != 0 && !server.0.unspecified()
}

/// The servers that the first `n` entries of a list name: those that can be
/// used, each once.
pub open spec fn listed_servers(b: Seq<u8>, n: nat) -> Seq<(Ipv4Addr, u16)>
    decreases n,
{
    if n == 0 {
        Seq::empty()
    } else {
        let earlier = listed_servers(b, (n - 1) as nat);
        let server = listed_server(b, n - 1);
        if is_usable(server) && !earlier.contains(server) {
            earlier.push(server)
        } else {
            earlier
        }
    }
}

/// The servers that a list names; none where it claims more entries than it
/// holds.
pub open spec fn server_list(b: Seq<u8>) -> Seq<(Ipv4Addr, u16)> {
    if b.len() == 0 || b[0] > (b.len() - 1) / 6 {
        Seq::empty()
    } else {
        listed_servers(b, b[0] as nat)
    }
}

fn contains_server(servers: &Vec<(Ipv4Addr, u16)>, server: (Ipv4Addr, u16)) -> (r: bool)
    ensures
        r == servers@.contains(server),
{
    let mut i: usize = 0;
    while i < servers.len()
        invariant
            i <= servers@.len(),
            forall|k: int| 0 <= k < i ==> servers@[k] != server,
        decreases servers@.len() - i,
    {
        if servers[i].0 == server.0 && servers[i].1 == server.1 {
            assert(servers@[i as int] == server);
            return true;
        }
        i += 1;
    }
    false
}

/// Decodes a list of servers: a count, and so many addresses with ports.
pub fn decode_server_list(body: &[u8]) -> (r: Vec<(Ipv4Addr, u16)>)
    ensures
        r@ == server_list(body@),
        r@.len() <= MAX_SERVERS_FROM_ONE_LIST,
{
    let mut servers: Vec<(Ipv4Addr, u16)> = Vec::new();
    if body.len() == 0 {
        return servers;
    }
    let declared: usize = body[0] as usize;
    let available: usize = (body.len() - 1) / 6;
    if declared > available {
        return servers;
    }
    let mut i: usize = 0;
    while i < declared
        invariant
            i <= declared <= 255,
            1 + 6 * declared <= body.len(),
            servers@ == listed_servers(body@, i as nat),
            servers@.len() <= i,
        decreases declared - i,
    {
        let pos: usize = 1 + 6 * i;
        let server: (Ipv4Addr, u16) = (read_ipv4(body, pos), read_u16(body, pos + 4));
        if server.1 != 0 && !server.0.is_unspecified() && !contains_server(&servers, server) {
            servers.push(server);
        }
        i += 1;
    }
    servers
}

/// A list brings no server twice, and only servers that can be used.
pub proof fn law_listed_servers_are_distinct_and_usable(b: Seq<u8>)
    ensures
        server_list(b).no_duplicates(),
        forall|i: int| 0 <= i < server_list(b).len() ==> is_usable(#[trigger] server_list(b)[i]),
{
    if b.len() > 0 {
        lemma_listed_servers(b, b[0] as nat);
    }
}

proof fn lemma_listed_servers(b: Seq<u8>, n: nat)
    ensures
        listed_servers(b, n).no_duplicates(),
        forall|i: int| 0 <= i < listed_servers(b, n).len() ==> is_usable(#[trigger] listed_servers(b, n)[i]),
    decreases n,
{
    if n > 0 {
        lemma_listed_servers(b, (n - 1) as nat);
    }
}

/// A list of servers as a server sends it: a count, and each address with its
/// port.
pub open spec fn server_list_bytes(servers: Seq<(Ipv4Addr, u16)>) -> Seq<u8> {
    seq![servers.len() as u8] + server_entries_bytes(servers)
}

/// Addresses with their ports, one behind the other.
pub open spec fn server_entries_bytes(servers: Seq<(Ipv4Addr, u16)>) -> Seq<u8>
    decreases servers.len(),
{
    if servers.len() == 0 {
        Seq::empty()
    } else {
        server_entries_bytes(servers.drop_last()) + octets_of(servers.last().0) + u16_le(
            servers.last().1,
        )
    }
}

proof fn lemma_entry_bytes(servers: Seq<(Ipv4Addr, u16)>, i: int)
    requires
        0 <= i < servers.len(),
    ensures
        server_entries_bytes(servers).len() == 6 * servers.len(),
        server_entries_bytes(servers).subrange(6 * i, 6 * i + 4) == octets_of(servers[i].0),
        server_entries_bytes(servers).subrange(6 * i + 4, 6 * i + 6) == u16_le(servers[i].1),
    decreases servers.len(),
{
    let b = server_entries_bytes(servers);
    let earlier = server_entries_bytes(servers.drop_last());
    if servers.len() > 1 {
        lemma_entry_bytes(
            servers.drop_last(),
            if i < servers.len() - 1 {
                i
            } else {
                0
            },
        );
    }
    assert(earlier.len() == 6 * (servers.len() - 1));
    if i < servers.len() - 1 {
        assert(b.subrange(6 * i, 6 * i + 4) =~= earlier.subrange(6 * i, 6 * i + 4));
        assert(b.subrange(6 * i + 4, 6 * i + 6) =~= earlier.subrange(6 * i + 4, 6 * i + 6));
    } else {
        assert(b.subrange(6 * i, 6 * i + 4) =~= octets_of(servers[i].0));
        assert(b.subrange(6 * i + 4, 6 * i + 6) =~= u16_le(servers[i].1));
    }
}

proof fn lemma_listed_server(servers: Seq<(Ipv4Addr, u16)>, rest: Seq<u8>, i: int)
    requires
        0 <= i < servers.len() <= 255,
    ensures
        listed_server(server_list_bytes(servers) + rest, i) == servers[i],
{
    let b = server_list_bytes(servers) + rest;
    let e = server_entries_bytes(servers);
    lemma_entry_bytes(servers, i);
    let o = octets_of(servers[i].0);
    assert(e.subrange(6 * i, 6 * i + 4)[0] == o[0] && e.subrange(6 * i, 6 * i + 4)[1] == o[1]
        && e.subrange(6 * i, 6 * i + 4)[2] == o[2] && e.subrange(6 * i, 6 * i + 4)[3] == o[3]);
    assert(b[1 + 6 * i] == e[6 * i] && b[1 + 6 * i + 1] == e[6 * i + 1] && b[1 + 6 * i + 2] == e[6
        * i + 2] && b[1 + 6 * i + 3] == e[6 * i + 3]);
    assert(b.subrange(1 + 6 * i + 4, 1 + 6 * i + 6) =~= u16_le(servers[i].1)) by {
        assert(b.subrange(1 + 6 * i + 4, 1 + 6 * i + 6) =~= e.subrange(6 * i + 4, 6 * i + 6));
    }
    lemma_le16(servers[i].1, b, 1 + 6 * i + 4);
}

proof fn lemma_none_is_missed(servers: Seq<(Ipv4Addr, u16)>, rest: Seq<u8>, n: nat, i: int)
    requires
        0 <= i < n <= servers.len() <= 255,
        servers[i].1 != 0,
        servers[i].0.a != 0 || servers[i].0.b != 0 || servers[i].0.c != 0 || servers[i].0.d != 0,
    ensures
        listed_servers(server_list_bytes(servers) + rest, n).contains(servers[i]),
    decreases n,
{
    let b = server_list_bytes(servers) + rest;
    let earlier = listed_servers(b, (n - 1) as nat);
    lemma_listed_server(servers, rest, n - 1);
    if i < n - 1 {
        lemma_none_is_missed(servers, rest, (n - 1) as nat, i);
        let k = earlier.index_of(servers[i]);
        assert(listed_servers(b, n)[k] == servers[i]);
    } else if !earlier.contains(servers[i]) {
        assert(listed_servers(b, n).last() == servers[i]);
    }
}

/// A list of servers brings every server of it that has an address and a port.
pub proof fn law_no_listed_server_is_missed(servers: Seq<(Ipv4Addr, u16)>, rest: Seq<u8>, i: int)
    requires
        0 <= i < servers.len() <= 255,
        servers[i].1 != 0,
        servers[i].0.a != 0 || servers[i].0.b != 0 || servers[i].0.c != 0 || servers[i].0.d != 0,
    ensures
        server_list(server_list_bytes(servers) + rest).contains(servers[i]),
{
    lemma_entry_bytes(servers, i);
    lemma_none_is_missed(servers, rest, servers.len(), i);
}

proof fn lemma_listed_in_order(servers: Seq<(Ipv4Addr, u16)>, rest: Seq<u8>, n: nat)
    requires
        n <= servers.len() <= 255,
        servers.no_duplicates(),
        forall|i: int|
            0 <= i < servers.len() ==> (#[trigger] servers[i]).1 != 0 && (servers[i].0.a != 0
                || servers[i].0.b != 0 || servers[i].0.c != 0 || servers[i].0.d != 0),
    ensures
        listed_servers(server_list_bytes(servers) + rest, n) == servers.take(n as int),
    decreases n,
{
    if n > 0 {
        lemma_listed_in_order(servers, rest, (n - 1) as nat);
        lemma_listed_server(servers, rest, n - 1);
        let earlier = servers.take(n - 1);
        assert(!earlier.contains(servers[n - 1]));
        assert(servers.take(n as int) =~= earlier.push(servers[n - 1]));
    } else {
        assert(servers.take(0) =~= Seq::empty());
    }
}

/// A list of different servers that can all be used reads back whole and in
/// order; one that claims more than it holds brings none.
pub proof fn law_server_list_reads_back(servers: Seq<(Ipv4Addr, u16)>, rest: Seq<u8>)
    requires
        servers.len() <= 255,
        servers.no_duplicates(),
        forall|i: int|
            0 <= i < servers.len() ==> (#[trigger] servers[i]).1 != 0 && (servers[i].0.a != 0
                || servers[i].0.b != 0 || servers[i].0.c != 0 || servers[i].0.d != 0),
    ensures
        server_list(server_list_bytes(servers) + rest) == servers,
        forall|count: u8|
            #![trigger seq_head(count)]
            count > servers.len() ==> server_list(seq_head(count) + server_entries_bytes(servers))
                == Seq::<(Ipv4Addr, u16)>::empty(),
{
    let b = server_list_bytes(servers) + rest;
    assert(b[0] == servers.len() as u8);
    if servers.len() > 0 {
        lemma_entry_bytes(servers, 0);
    }
    lemma_listed_in_order(servers, rest, servers.len());
    assert(servers.take(servers.len() as int) =~= servers);
}

/// The count that opens a list.
pub open spec fn seq_head(count: u8) -> Seq<u8> {
    seq![count]
}

} // verus!
