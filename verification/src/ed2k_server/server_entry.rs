//! The servers that a client is configured with.
use vstd::prelude::*;

use super::{SERVER_UDP_FLAG_TCPOBFUSCATION, SERVER_UDP_FLAG_UDPOBFUSCATION};
use crate::addr::{
    host_port_text, host_port_to_text, ipv4_of, ipv4_text, ipv4_to_text, parse_ipv4, IpAddr,
    Ipv4Addr, SocketAddr, SocketAddrV4,
};
use crate::config::{bare_entry, Ed2kConfig, Ed2kServerEntry, ServerEntryView};
use crate::ipv6::{
    endpoint_host, ip_text, ip_to_text, law_endpoint_text_names_its_host, parse_endpoint_host,
    socket_text,
};
use crate::text::{
    eq_ignore_ascii_case, opt_text, same_text, same_text_ignoring_case, trim, trimmed,
};

verus! {

/// A server as the client uses it.
#[derive(Debug, Clone, PartialEq, Eq)]
pub struct ConfiguredServerEntry {
    pub host: String,
    pub port: u16,
    pub name: Option<String>,
    pub description: Option<String>,
    pub udp_flags: u32,
    pub udp_key: u32,
    pub udp_key_ip: u32,
    pub obfuscation_port_tcp: u16,
    pub obfuscation_port_udp: u16,
    pub soft_files: u32,
    pub hard_files: u32,
}

impl View for ConfiguredServerEntry {
    type V = ServerEntryView;

    open spec fn view(&self) -> ServerEntryView {
        ServerEntryView {
            host: self.host@,
            port: self.port,
            name: opt_text(self.name),
            description: opt_text(self.description),
            udp_flags: self.udp_flags,
            udp_key: self.udp_key,
            udp_key_ip: self.udp_key_ip,
            obfuscation_port_tcp: self.obfuscation_port_tcp,
            obfuscation_port_udp: self.obfuscation_port_udp,
            soft_files: self.soft_files,
            hard_files: self.hard_files,
        }
    }
}

/// Why the servers cannot be configured.
#[derive(Debug, Clone, Copy, PartialEq, Eq, Structural)]
pub enum EntryError {
    MissingHostOrPort,
    InvalidEndpoint,
}

/// The most files that one offer may hold: what the server likes, or two
/// hundred where that is unknown or more.
pub open spec fn offer_limit(soft_files: u32) -> int {
    if soft_files == 0 || soft_files > 200 {
        200
    } else {
        soft_files as int
    }
}

/// The most files that one offer may hold.
pub fn server_offer_file_limit(soft_files: u32) -> (r: usize)
    ensures
        r == offer_limit(soft_files),
        1 <= r <= 200,
{
    if soft_files == 0 || soft_files > 200 {
        200
    } else {
        soft_files as usize
    }
}

/// `host:port` of an entry.
pub open spec fn base_text(e: ServerEntryView) -> Seq<char> {
    host_port_text(e.host, e.port)
}

/// The entry that an endpoint text stands for.
pub open spec fn entry_of_endpoint(text: Seq<char>) -> Result<ServerEntryView, EntryError> {
    match endpoint_host(text) {
        Some((host, port)) => Ok(bare_entry(host, port)),
        None => Err(EntryError::InvalidEndpoint),
    }
}

/// Whether an entry names a host and a port.
pub open spec fn is_complete(e: ServerEntryView) -> bool {
    trimmed(e.host).len() > 0 && e.port != 0
}

/// Whether an entry offers TCP obfuscation.
pub open spec fn offers_tcp_obfuscation(e: ServerEntryView) -> bool {
    e.obfuscation_port_tcp != 0 && e.udp_flags & (SERVER_UDP_FLAG_UDPOBFUSCATION
        | SERVER_UDP_FLAG_TCPOBFUSCATION) != 0
}

/// Whether an entry says anything about obfuscation.
pub open spec fn speaks_of_obfuscation(e: ServerEntryView) -> bool {
    ||| e.obfuscation_port_tcp != 0
    ||| e.obfuscation_port_udp != 0
    ||| e.udp_key != 0
    ||| e.udp_key_ip != 0
    ||| e.udp_flags != 0
}

impl ConfiguredServerEntry {
    /// A copy of the entry.
    pub fn duplicate(&self) -> (r: Self)
        ensures
            r == *self,
    {
        ConfiguredServerEntry {
            host: self.host.clone(),
            port: self.port,
            name: self.name.clone(),
            description: self.description.clone(),
            udp_flags: self.udp_flags,
            udp_key: self.udp_key,
            udp_key_ip: self.udp_key_ip,
            obfuscation_port_tcp: self.obfuscation_port_tcp,
            obfuscation_port_udp: self.obfuscation_port_udp,
            soft_files: self.soft_files,
            hard_files: self.hard_files,
        }
    }

    /// The most files that one offer to this server may hold.
    pub fn offer_file_limit(&self) -> (r: usize)
        ensures
            r == offer_limit(self.soft_files),
    {
        server_offer_file_limit(self.soft_files)
    }

    /// The entry that `a.b.c.d:port` or `[address]:port` stands for.
    pub fn from_endpoint_text(endpoint_text: &str) -> (r: Result<Self, EntryError>)
        ensures
            match r {
                Ok(e) => entry_of_endpoint(endpoint_text@) == Ok::<_, EntryError>(e@),
                Err(e) => entry_of_endpoint(endpoint_text@) == Err::<ServerEntryView, _>(e),
            },
    {
        let (host, port) = match parse_endpoint_host(endpoint_text) {
            Some(found) => found,
            None => return Err(EntryError::InvalidEndpoint),
        };
        Ok(
            ConfiguredServerEntry {
                host,
                port,
                name: None,
                description: None,
                udp_flags: 0,
                udp_key: 0,
                udp_key_ip: 0,
                obfuscation_port_tcp: 0,
                obfuscation_port_udp: 0,
                soft_files: 0,
                hard_files: 0,
            },
        )
    }

    /// The entry of a server with its metadata. It needs a host and a port.
    pub fn from_metadata(entry: &Ed2kServerEntry) -> (r: Result<Self, EntryError>)
        ensures
            match r {
                Ok(e) => is_complete(entry@) && e@ == entry@,
                Err(e) => !is_complete(entry@) && e == EntryError::MissingHostOrPort,
            },
    {
        if trim(entry.host.as_str()).as_str().is_empty() || entry.port == 0 {
            return Err(EntryError::MissingHostOrPort);
        }
        Ok(
            ConfiguredServerEntry {
                host: entry.host.clone(),
                port: entry.port,
                name: entry.name.clone(),
                description: entry.description.clone(),
                udp_flags: entry.udp_flags,
                udp_key: entry.udp_key,
                udp_key_ip: entry.udp_key_ip,
                obfuscation_port_tcp: entry.obfuscation_port_tcp,
                obfuscation_port_udp: entry.obfuscation_port_udp,
                soft_files: entry.soft_files,
                hard_files: entry.hard_files,
            },
        )
    }

    /// The name to show, a dash where there is none.
    pub fn display_name(&self) -> (r: String)
        ensures
            r@ == match opt_text(self.name) {
                Some(n) => n,
                None => seq!['-'],
            },
    {
        match &self.name {
            Some(n) => n.clone(),
            None => {
                let mut s: String = String::new();
                s.push('-');
                assert(s@ =~= seq!['-']);
                s
            },
        }
    }

    /// `host:port`.
    pub fn base_endpoint_text(&self) -> (r: String)
        ensures
            r@ == base_text(self@),
    {
        host_port_to_text(&self.host, self.port)
    }

    /// Whether the server offers TCP obfuscation.
    pub fn supports_obfuscation_tcp(&self) -> (r: bool)
        ensures
            r == offers_tcp_obfuscation(self@),
    {
        self.obfuscation_port_tcp != 0 && (self.udp_flags & (SERVER_UDP_FLAG_UDPOBFUSCATION
            | SERVER_UDP_FLAG_TCPOBFUSCATION)) != 0
    }

    /// Whether the entry says anything about obfuscation.
    pub fn has_obfuscation_metadata(&self) -> (r: bool)
        ensures
            r == speaks_of_obfuscation(self@),
    {
        self.obfuscation_port_tcp != 0 || self.obfuscation_port_udp != 0 || self.udp_key != 0
            || self.udp_key_ip != 0 || self.udp_flags != 0
    }

    /// Whether the server offers UDP obfuscation.
    pub fn supports_obfuscation_udp(&self) -> (r: bool)
        ensures
            r == (self.udp_flags & SERVER_UDP_FLAG_UDPOBFUSCATION != 0),
    {
        self.udp_flags & SERVER_UDP_FLAG_UDPOBFUSCATION != 0
    }
}

/// A server whose address is known.
#[derive(Debug, Clone, PartialEq, Eq)]
pub struct ResolvedServerEntry {
    pub entry: ConfiguredServerEntry,
    pub ip: Ipv4Addr,
}

impl ResolvedServerEntry {
    /// The address and port of the server.
    pub open spec fn base(self) -> SocketAddrV4 {
        SocketAddrV4 { ip: self.ip, port: self.entry.port }
    }

    /// The address and port to connect to.
    pub open spec fn transport(self, use_obfuscation: bool) -> SocketAddrV4 {
        SocketAddrV4 {
            ip: self.ip,
            port: if use_obfuscation && self.entry.obfuscation_port_tcp != 0 {
                self.entry.obfuscation_port_tcp
            } else {
                self.entry.port
            },
        }
    }

    /// A copy of the entry.
    pub fn duplicate(&self) -> (r: Self)
        ensures
            r == *self,
    {
        ResolvedServerEntry { entry: self.entry.duplicate(), ip: self.ip }
    }

    /// The address and port of the server.
    pub fn base_endpoint(&self) -> (r: SocketAddrV4)
        ensures
            r == self.base(),
    {
        SocketAddrV4 { ip: self.ip, port: self.entry.port }
    }

    /// The address and port to connect to: the obfuscation port where it is
    /// known and wanted.
    pub fn transport_endpoint(&self, use_obfuscation: bool) -> (r: SocketAddrV4)
        ensures
            r == self.transport(use_obfuscation),
    {
        let port: u16 = if use_obfuscation && self.entry.obfuscation_port_tcp != 0 {
            self.entry.obfuscation_port_tcp
        } else {
            self.entry.port
        };
        SocketAddrV4 { ip: self.ip, port }
    }
}

/// Whether a session with the server starts obfuscated: the client allows it,
/// and the server offers it or nothing is known about it yet.
pub open spec fn uses_server_obfuscation(connect_options: u8, server: ResolvedServerEntry) -> bool {
    connect_options != 0 && (offers_tcp_obfuscation(server.entry@) || !speaks_of_obfuscation(
        server.entry@,
    ))
}

/// Whether a session with the server starts obfuscated.
pub fn should_use_server_obfuscation(connect_options: u8, server: &ResolvedServerEntry) -> (r: bool)
    ensures
        r == uses_server_obfuscation(connect_options, *server),
{
    connect_options != 0 && (server.entry.supports_obfuscation_tcp()
        || !server.entry.has_obfuscation_metadata())
}

// ---------------------------------------------------------------------------
// The configured list
// ---------------------------------------------------------------------------
/// What entries say.
pub open spec fn entry_views(v: Seq<ConfiguredServerEntry>) -> Seq<ServerEntryView> {
    v.map_values(|e: ConfiguredServerEntry| e@)
}

/// What entries with metadata say.
pub open spec fn metadata_views(v: Seq<Ed2kServerEntry>) -> Seq<ServerEntryView> {
    v.map_values(|e: Ed2kServerEntry| e@)
}

/// The texts of owned strings.
pub open spec fn text_views(v: Seq<String>) -> Seq<Seq<char>> {
    v.map_values(|s: String| s@)
}

/// The first position from `i` on whose `host:port` is `text` but for case, or
/// the end.
pub open spec fn entry_position(entries: Seq<ServerEntryView>, text: Seq<char>, i: int) -> int
    decreases entries.len() - i,
{
    if 0 <= i < entries.len() && !same_text_ignoring_case(base_text(entries[i]), text) {
        entry_position(entries, text, i + 1)
    } else {
        i
    }
}

/// Whether some entry has the `host:port` `text` but for case.
pub open spec fn has_entry(entries: Seq<ServerEntryView>, text: Seq<char>) -> bool {
    entry_position(entries, text, 0) < entries.len()
}

/// The entry that an endpoint text stands for among those with metadata: the
/// first one with that `host:port`, else a bare one.
pub open spec fn entry_for(metadata: Seq<ServerEntryView>, text: Seq<char>) -> Result<
    ServerEntryView,
    EntryError,
> {
    if has_entry(metadata, text) {
        Ok(metadata[entry_position(metadata, text, 0)])
    } else {
        entry_of_endpoint(text)
    }
}

/// The entries that the endpoint texts stand for, in order.
pub open spec fn entries_for(metadata: Seq<ServerEntryView>, endpoints: Seq<Seq<char>>) -> Result<
    Seq<ServerEntryView>,
    EntryError,
>
    decreases endpoints.len(),
{
    if endpoints.len() == 0 {
        Ok(Seq::empty())
    } else {
        match entries_for(metadata, endpoints.drop_last()) {
            Err(e) => Err(e),
            Ok(earlier) => match entry_for(metadata, endpoints.last()) {
                Err(e) => Err(e),
                Ok(e) => Ok(earlier.push(e)),
            },
        }
    }
}

/// `ordered` with every entry of `metadata` behind it that is not there yet.
pub open spec fn completed(ordered: Seq<ServerEntryView>, metadata: Seq<ServerEntryView>) -> Seq<
    ServerEntryView,
>
    decreases metadata.len(),
{
    if metadata.len() == 0 {
        ordered
    } else {
        let earlier = completed(ordered, metadata.drop_last());
        if has_entry(earlier, base_text(metadata.last())) {
            earlier
        } else {
            earlier.push(metadata.last())
        }
    }
}

/// Whether every entry names a host and a port.
pub open spec fn all_complete(metadata: Seq<ServerEntryView>) -> bool {
    forall|i: int| 0 <= i < metadata.len() ==> is_complete(#[trigger] metadata[i])
}

/// The servers of a configuration: those named by endpoint first, then those
/// known by metadata alone.
pub open spec fn configured(metadata: Seq<ServerEntryView>, endpoints: Seq<Seq<char>>) -> Result<
    Seq<ServerEntryView>,
    EntryError,
> {
    if !all_complete(metadata) {
        Err(EntryError::MissingHostOrPort)
    } else {
        match entries_for(metadata, endpoints) {
            Err(e) => Err(e),
            Ok(ordered) => Ok(completed(ordered, metadata)),
        }
    }
}

fn find_entry(entries: &Vec<ConfiguredServerEntry>, text: &str) -> (r: usize)
    ensures
        r == entry_position(entry_views(entries@), text@, 0),
        r <= entries@.len(),
{
    let mut i: usize = 0;
    while i < entries.len() && !eq_ignore_ascii_case(
        entries[i].base_endpoint_text().as_str(),
        text,
    )
        invariant
            i <= entries@.len(),
            entry_position(entry_views(entries@), text@, i as int) == entry_position(
                entry_views(entries@),
                text@,
                0,
            ),
        decreases entries@.len() - i,
    {
        assert(entry_views(entries@)[i as int] == entries@[i as int]@);
        i += 1;
    }
    assert(i < entries@.len() ==> entry_views(entries@)[i as int] == entries@[i as int]@);
    i
}

proof fn lemma_entries_for_error(
    metadata: Seq<ServerEntryView>,
    endpoints: Seq<Seq<char>>,
    n: int,
    e: EntryError,
)
    requires
        0 <= n <= endpoints.len(),
        entries_for(metadata, endpoints.take(n)) == Err::<Seq<ServerEntryView>, _>(e),
    ensures
        entries_for(metadata, endpoints) == Err::<Seq<ServerEntryView>, _>(e),
    decreases endpoints.len() - n,
{
    if n < endpoints.len() {
        assert(endpoints.take(n + 1).drop_last() =~= endpoints.take(n));
        lemma_entries_for_error(metadata, endpoints, n + 1, e);
    } else {
        assert(endpoints.take(n) =~= endpoints);
    }
}

/// The servers of a configuration, in the order in which to try them.
pub fn configured_server_entries(config: &Ed2kConfig) -> (r: Result<
    Vec<ConfiguredServerEntry>,
    EntryError,
>)
    ensures
        match r {
            Ok(v) => configured(
                metadata_views(config.server_entries@),
                text_views(config.server_endpoints@),
            ) == Ok::<_, EntryError>(entry_views(v@)),
            Err(e) => configured(
                metadata_views(config.server_entries@),
                text_views(config.server_endpoints@),
            ) == Err::<Seq<ServerEntryView>, _>(e),
        },
{
    let ghost meta = metadata_views(config.server_entries@);
    let ghost names = text_views(config.server_endpoints@);
    let mut metadata: Vec<ConfiguredServerEntry> = Vec::new();
    let mut i: usize = 0;
    while i < config.server_entries.len()
        invariant
            i <= config.server_entries@.len(),
            meta == metadata_views(config.server_entries@),
            entry_views(metadata@) == meta.take(i as int),
            forall|k: int| 0 <= k < i ==> is_complete(#[trigger] meta[k]),
        decreases config.server_entries@.len() - i,
    {
        assert(meta[i as int] == config.server_entries@[i as int]@);
        match ConfiguredServerEntry::from_metadata(&config.server_entries[i]) {
            Ok(e) => {
                let ghost before = entry_views(metadata@);
                metadata.push(e);
                assert(entry_views(metadata@) =~= before.push(e@));
                assert(meta.take(i + 1) =~= meta.take(i as int).push(meta[i as int]));
            },
            Err(e) => return Err(e),
        }
        i += 1;
    }
    assert(meta.take(i as int) =~= meta);
    let mut ordered: Vec<ConfiguredServerEntry> = Vec::new();
    let mut k: usize = 0;
    assert(names.take(0) =~= Seq::empty());
    assert(entry_views(ordered@) =~= Seq::empty());
    while k < config.server_endpoints.len()
        invariant
            k <= config.server_endpoints@.len(),
            names == text_views(config.server_endpoints@),
            meta == entry_views(metadata@),
            meta == metadata_views(config.server_entries@),
            all_complete(meta),
            entries_for(meta, names.take(k as int)) == Ok::<_, EntryError>(entry_views(ordered@)),
        decreases config.server_endpoints@.len() - k,
    {
        let text: &str = config.server_endpoints[k].as_str();
        let ghost next = names.take(k + 1);
        assert(next.drop_last() =~= names.take(k as int));
        assert(next.last() == text@);
        let at: usize = find_entry(&metadata, text);
        let found = if at < metadata.len() {
            assert(meta[at as int] == metadata@[at as int]@);
            metadata[at].duplicate()
        } else {
            match ConfiguredServerEntry::from_endpoint_text(text) {
                Ok(e) => e,
                Err(e) => {
                    proof {
                        lemma_entries_for_error(meta, names, k + 1, e);
                    }
                    return Err(e);
                },
            }
        };
        let ghost before = entry_views(ordered@);
        ordered.push(found);
        assert(entry_views(ordered@) =~= before.push(found@));
        k += 1;
    }
    assert(names.take(k as int) =~= names);
    let ghost named = entry_views(ordered@);
    let mut m: usize = 0;
    assert(meta.take(0) =~= Seq::empty());
    while m < metadata.len()
        invariant
            m <= metadata@.len(),
            meta == entry_views(metadata@),
            entry_views(ordered@) == completed(named, meta.take(m as int)),
        decreases metadata@.len() - m,
    {
        let ghost next = meta.take(m + 1);
        assert(next.drop_last() =~= meta.take(m as int));
        assert(next.last() == metadata@[m as int]@);
        let text: String = metadata[m].base_endpoint_text();
        let ghost before = entry_views(ordered@);
        if find_entry(&ordered, text.as_str()) >= ordered.len() {
            let e = metadata[m].duplicate();
            ordered.push(e);
            assert(entry_views(ordered@) =~= before.push(e@));
        }
        m += 1;
    }
    assert(meta.take(m as int) =~= meta);
    Ok(ordered)
}

/// The servers named by endpoint come first and in the order in which they are
/// named; each stands for its metadata where there is any.
pub proof fn law_named_servers_come_first(
    metadata: Seq<ServerEntryView>,
    endpoints: Seq<Seq<char>>,
    i: int,
)
    requires
        configured(metadata, endpoints) is Ok,
        0 <= i < endpoints.len(),
    ensures
        i < configured(metadata, endpoints)->Ok_0.len(),
        entry_for(metadata, endpoints[i]) == Ok::<_, EntryError>(
            configured(metadata, endpoints)->Ok_0[i],
        ),
{
    lemma_entries_for(metadata, endpoints, i);
    let ordered = entries_for(metadata, endpoints)->Ok_0;
    lemma_completed_keeps(ordered, metadata);
}

proof fn lemma_entries_for(metadata: Seq<ServerEntryView>, endpoints: Seq<Seq<char>>, i: int)
    requires
        entries_for(metadata, endpoints) is Ok,
        0 <= i < endpoints.len(),
    ensures
        entries_for(metadata, endpoints)->Ok_0.len() == endpoints.len(),
        entry_for(metadata, endpoints[i]) == Ok::<_, EntryError>(
            entries_for(metadata, endpoints)->Ok_0[i],
        ),
    decreases endpoints.len(),
{
    if i < endpoints.len() - 1 {
        lemma_entries_for(metadata, endpoints.drop_last(), i);
    } else if endpoints.len() > 1 {
        lemma_entries_for(metadata, endpoints.drop_last(), 0);
    } else {
        assert(endpoints.drop_last().len() == 0);
    }
}

proof fn lemma_completed_keeps(ordered: Seq<ServerEntryView>, metadata: Seq<ServerEntryView>)
    ensures
        completed(ordered, metadata).len() >= ordered.len(),
        forall|i: int|
            0 <= i < ordered.len() ==> #[trigger] completed(ordered, metadata)[i] == ordered[i],
    decreases metadata.len(),
{
    if metadata.len() > 0 {
        lemma_completed_keeps(ordered, metadata.drop_last());
    }
}

proof fn lemma_position_bounds(entries: Seq<ServerEntryView>, text: Seq<char>, i: int)
    requires
        0 <= i <= entries.len(),
    ensures
        i <= entry_position(entries, text, i) <= entries.len(),
        entry_position(entries, text, i) < entries.len() ==> same_text_ignoring_case(
            base_text(entries[entry_position(entries, text, i)]),
            text,
        ),
        forall|k: int|
            i <= k < entry_position(entries, text, i) ==> !same_text_ignoring_case(
                base_text(#[trigger] entries[k]),
                text,
            ),
    decreases entries.len() - i,
{
    if i < entries.len() && !same_text_ignoring_case(base_text(entries[i]), text) {
        lemma_position_bounds(entries, text, i + 1);
    }
}

/// No server with metadata is left out: each has an entry with its `host:port`
/// in the list.
pub proof fn law_no_known_server_is_left_out(
    metadata: Seq<ServerEntryView>,
    endpoints: Seq<Seq<char>>,
    i: int,
)
    requires
        configured(metadata, endpoints) is Ok,
        0 <= i < metadata.len(),
    ensures
        has_entry(configured(metadata, endpoints)->Ok_0, base_text(metadata[i])),
{
    lemma_completed_has(entries_for(metadata, endpoints)->Ok_0, metadata, i);
}

proof fn lemma_has_entry_push(entries: Seq<ServerEntryView>, e: ServerEntryView, text: Seq<char>)
    ensures
        has_entry(entries, text) ==> has_entry(entries.push(e), text),
        base_text(e) == text ==> has_entry(entries.push(e), text),
{
    lemma_position_bounds(entries, text, 0);
    lemma_position_bounds(entries.push(e), text, 0);
    let at = entry_position(entries, text, 0);
    if has_entry(entries, text) {
        assert(entries.push(e)[at] == entries[at]);
    }
    if base_text(e) == text {
        assert(entries.push(e)[entries.len() as int] == e);
    }
}

proof fn lemma_completed_has(ordered: Seq<ServerEntryView>, metadata: Seq<ServerEntryView>, i: int)
    requires
        0 <= i < metadata.len(),
    ensures
        has_entry(completed(ordered, metadata), base_text(metadata[i])),
    decreases metadata.len(),
{
    let earlier = completed(ordered, metadata.drop_last());
    if i < metadata.len() - 1 {
        lemma_completed_has(ordered, metadata.drop_last(), i);
        lemma_has_entry_push(earlier, metadata.last(), base_text(metadata[i]));
    } else {
        lemma_has_entry_push(earlier, metadata.last(), base_text(metadata[i]));
    }
}

// ---------------------------------------------------------------------------
// Choosing among the configured servers
// ---------------------------------------------------------------------------
/// Whether an entry is written with the address and port of `endpoint`.
pub open spec fn is_at(e: ServerEntryView, endpoint: SocketAddr) -> bool {
    e.host == ip_text(endpoint.ip) && e.port == endpoint.port
}

/// Whether an entry is written with the address and port of `endpoint`.
pub fn entry_is_at(e: &ConfiguredServerEntry, endpoint: SocketAddr) -> (r: bool)
    ensures
        r == is_at(e@, endpoint),
{
    same_text(e.host.as_str(), ip_to_text(endpoint.ip).as_str()) && e.port == endpoint.port
}

/// The entry that the text of an endpoint stands for is at that endpoint, for
/// either address family.
pub proof fn law_entry_of_an_endpoint_is_at_it(endpoint: SocketAddr)
    ensures
        entry_of_endpoint(socket_text(endpoint)) matches Ok(e) && is_at(e, endpoint),
{
    law_endpoint_text_names_its_host(endpoint);
}

/// The first position from `i` on that is at `endpoint`, or the end.
pub open spec fn position_at(
    entries: Seq<ServerEntryView>,
    endpoint: SocketAddr,
    i: int,
) -> int
    decreases entries.len() - i,
{
    if 0 <= i < entries.len() && !is_at(entries[i], endpoint) {
        position_at(entries, endpoint, i + 1)
    } else {
        i
    }
}

/// `entries` with the first one that is at `endpoint` moved to the front.
pub open spec fn with_preferred(
    entries: Seq<ServerEntryView>,
    endpoint: Option<SocketAddr>,
) -> Seq<ServerEntryView> {
    match endpoint {
        Some(ep) => {
            let at = position_at(entries, ep, 0);
            if at < entries.len() {
                entries.remove(at).insert(0, entries[at])
            } else {
                entries
            }
        },
        None => entries,
    }
}

/// `entries` without those at one of `endpoints`.
pub open spec fn without(entries: Seq<ServerEntryView>, endpoints: Seq<SocketAddr>) -> Seq<
    ServerEntryView,
> {
    entries.filter(|e: ServerEntryView| !at_any(e, endpoints))
}

/// Whether an entry is at one of `endpoints`.
pub open spec fn at_any(e: ServerEntryView, endpoints: Seq<SocketAddr>) -> bool {
    exists|i: int| 0 <= i < endpoints.len() && is_at(e, #[trigger] endpoints[i])
}

/// The endpoints that an optional one is.
pub open spec fn opt_endpoints(endpoint: Option<SocketAddr>) -> Seq<SocketAddr> {
    match endpoint {
        Some(ep) => seq![ep],
        None => Seq::empty(),
    }
}

/// Moves the first entry at `preferred` to the front.
pub fn prefer_endpoint(
    entries: &mut Vec<ConfiguredServerEntry>,
    preferred: Option<SocketAddr>,
)
    ensures
        entry_views(final(entries)@) == with_preferred(entry_views(old(entries)@), preferred),
{
    if let Some(ep) = preferred {
        let ghost all = entry_views(entries@);
        let mut i: usize = 0;
        while i < entries.len() && !entry_is_at(&entries[i], ep)
            invariant
                i <= entries@.len(),
                all == entry_views(entries@),
                position_at(all, ep, i as int) == position_at(all, ep, 0),
            decreases entries@.len() - i,
        {
            assert(all[i as int] == entries@[i as int]@);
            i += 1;
        }
        if i < entries.len() {
            assert(all[i as int] == entries@[i as int]@);
            let first = entries.remove(i);
            entries.insert(0, first);
            assert(entry_views(entries@) =~= with_preferred(all, preferred));
        }
    }
}

/// Drops the entries at one of `dead_endpoints`.
pub fn retain_live_servers(
    entries: &mut Vec<ConfiguredServerEntry>,
    dead_endpoints: &Vec<SocketAddr>,
)
    ensures
        entry_views(final(entries)@) == without(entry_views(old(entries)@), dead_endpoints@),
{
    let ghost all = entry_views(entries@);
    let ghost keep = |e: ServerEntryView| !at_any(e, dead_endpoints@);
    let mut kept: Vec<ConfiguredServerEntry> = Vec::new();
    let mut i: usize = 0;
    proof {
        reveal(Seq::filter);
        assert(all.take(0).filter(keep) =~= Seq::empty());
        assert(entry_views(kept@) =~= Seq::empty());
    }
    while i < entries.len()
        invariant
            i <= entries@.len(),
            all == entry_views(entries@),
            keep == (|e: ServerEntryView| !at_any(e, dead_endpoints@)),
            entry_views(kept@) == all.take(i as int).filter(keep),
        decreases entries@.len() - i,
    {
        let mut dead: bool = false;
        let mut k: usize = 0;
        while k < dead_endpoints.len()
            invariant
                k <= dead_endpoints@.len(),
                i < entries@.len(),
                dead == exists|j: int|
                    0 <= j < k && is_at(entries@[i as int]@, #[trigger] dead_endpoints@[j]),
            decreases dead_endpoints@.len() - k,
        {
            if entry_is_at(&entries[i], dead_endpoints[k]) {
                dead = true;
            }
            k += 1;
        }
        proof {
            reveal(Seq::filter);
            let next = all.take(i + 1);
            assert(next.drop_last() =~= all.take(i as int));
            assert(next.last() == entries@[i as int]@);
            assert(dead == at_any(entries@[i as int]@, dead_endpoints@));
        }
        if !dead {
            let ghost before = entry_views(kept@);
            let e = entries[i].duplicate();
            kept.push(e);
            assert(entry_views(kept@) =~= before.push(e@));
        }
        i += 1;
    }
    assert(all.take(i as int) =~= all);
    *entries = kept;
}

/// Drops the entries at `excluded`.
pub fn exclude_endpoint(
    entries: &mut Vec<ConfiguredServerEntry>,
    excluded: Option<SocketAddr>,
)
    ensures
        entry_views(final(entries)@) == without(entry_views(old(entries)@), opt_endpoints(excluded)),
{
    let mut endpoints: Vec<SocketAddr> = Vec::new();
    if let Some(ep) = excluded {
        endpoints.push(ep);
    }
    assert(endpoints@ =~= opt_endpoints(excluded));
    retain_live_servers(entries, &endpoints);
}

/// A server that is excluded, or dead, is not in what is left; every other one
/// is.
pub proof fn law_excluded_servers_are_not_tried(
    entries: Seq<ServerEntryView>,
    endpoints: Seq<SocketAddr>,
    e: ServerEntryView,
)
    ensures
        without(entries, endpoints).contains(e) <==> entries.contains(e) && !at_any(e, endpoints),
{
    lemma_filter_contains(entries, |e: ServerEntryView| !at_any(e, endpoints), e);
}

proof fn lemma_filter_contains(
    entries: Seq<ServerEntryView>,
    keep: spec_fn(ServerEntryView) -> bool,
    e: ServerEntryView,
)
    ensures
        entries.filter(keep).contains(e) <==> entries.contains(e) && keep(e),
    decreases entries.len(),
{
    reveal(Seq::filter);
    if entries.len() > 0 {
        let earlier = entries.drop_last();
        let last = entries.last();
        lemma_filter_contains(earlier, keep, e);
        assert(entries =~= earlier.push(last));
        assert(entries.contains(e) <==> earlier.contains(e) || e == last) by {
            if earlier.contains(e) {
                let i = earlier.index_of(e);
                assert(entries[i] == e);
            }
            if e == last {
                assert(entries[entries.len() - 1] == e);
            }
        }
        let kept = earlier.filter(keep);
        if keep(last) {
            assert(kept.push(last).contains(e) <==> kept.contains(e) || e == last) by {
                if kept.contains(e) {
                    let i = kept.index_of(e);
                    assert(kept.push(last)[i] == e);
                }
                if e == last {
                    assert(kept.push(last)[kept.len() as int] == e);
                }
            }
        }
    }
}

/// Moving a preferred server to the front neither adds nor drops one.
pub proof fn law_preferring_keeps_every_server(
    entries: Seq<ServerEntryView>,
    endpoint: Option<SocketAddr>,
)
    ensures
        with_preferred(entries, endpoint).to_multiset() == entries.to_multiset(),
        endpoint matches Some(ep) ==> (exists|i: int|
            0 <= i < entries.len() && is_at(#[trigger] entries[i], ep)) ==> is_at(
            with_preferred(entries, endpoint)[0],
            ep,
        ),
{
    if let Some(ep) = endpoint {
        lemma_position_at(entries, ep, 0);
        let at = position_at(entries, ep, 0);
        if at < entries.len() {
            let m = with_preferred(entries, endpoint);
            assert(m.remove(0) =~= entries.remove(at));
            vstd::seq_lib::to_multiset_remove(m, 0);
            vstd::seq_lib::to_multiset_remove(entries, at);
            m.to_multiset_ensures();
            entries.to_multiset_ensures();
            assert(m.contains(m[0]));
            assert(entries.contains(entries[at]));
            assert(m.to_multiset() =~= m.to_multiset().remove(m[0]).insert(m[0]));
            assert(entries.to_multiset() =~= entries.to_multiset().remove(m[0]).insert(m[0]));
        }
    }
}

proof fn lemma_position_at(entries: Seq<ServerEntryView>, endpoint: SocketAddr, i: int)
    requires
        0 <= i <= entries.len(),
    ensures
        i <= position_at(entries, endpoint, i) <= entries.len(),
        position_at(entries, endpoint, i) < entries.len() ==> is_at(
            entries[position_at(entries, endpoint, i)],
            endpoint,
        ),
        forall|k: int|
            i <= k < position_at(entries, endpoint, i) ==> !is_at(#[trigger] entries[k], endpoint),
    decreases entries.len() - i,
{
    if i < entries.len() && !is_at(entries[i], endpoint) {
        lemma_position_at(entries, endpoint, i + 1);
    }
}

// ---------------------------------------------------------------------------
// Resolving
// ---------------------------------------------------------------------------
/// Why a server has no address.
#[derive(Debug, Clone, Copy, PartialEq, Eq, Structural)]
pub enum ResolveError {
    LookupFailed,
    NoIpv4Address,
    EndpointNotIpv4,
}

/// The first IPv4 address among looked-up endpoints, from `i` on.
pub open spec fn first_ipv4(found: Seq<SocketAddr>, i: int) -> Option<Ipv4Addr>
    decreases found.len() - i,
{
    if 0 <= i < found.len() {
        match found[i].ip {
            IpAddr::V4(ip) => Some(ip),
            IpAddr::V6(_) => first_ipv4(found, i + 1),
        }
    } else {
        None
    }
}

/// The address of a host: what it spells, else the first IPv4 address that the
/// lookup found.
pub open spec fn resolved_ip(host: Seq<char>, lookup: Option<Seq<SocketAddr>>) -> Result<
    Ipv4Addr,
    ResolveError,
> {
    match ipv4_of(host) {
        Some(ip) => Ok(ip),
        None => match lookup {
            None => Err(ResolveError::LookupFailed),
            Some(found) => match first_ipv4(found, 0) {
                Some(ip) => Ok(ip),
                None => Err(ResolveError::NoIpv4Address),
            },
        },
    }
}

/// The address that the host of an entry spells, so that no lookup is needed.
pub fn literal_server_ip(entry: &ConfiguredServerEntry) -> (r: Option<Ipv4Addr>)
    ensures
        r == ipv4_of(entry.host@),
{
    parse_ipv4(entry.host.as_str())
}

/// Resolves an entry, given what looking its host up found.
pub fn resolve_server_entry(
    entry: &ConfiguredServerEntry,
    lookup: &Option<Vec<SocketAddr>>,
) -> (r: Result<ResolvedServerEntry, ResolveError>)
    ensures
        match r {
            Ok(server) => server.entry == *entry && resolved_ip(
                entry.host@,
                match *lookup {
                    Some(v) => Some(v@),
                    None => None,
                },
            ) == Ok::<_, ResolveError>(server.ip),
            Err(e) => resolved_ip(
                entry.host@,
                match *lookup {
                    Some(v) => Some(v@),
                    None => None,
                },
            ) == Err::<Ipv4Addr, _>(e),
        },
{
    if let Some(ip) = literal_server_ip(entry) {
        return Ok(ResolvedServerEntry { entry: entry.duplicate(), ip });
    }
    let found: &Vec<SocketAddr> = match lookup {
        Some(v) => v,
        None => return Err(ResolveError::LookupFailed),
    };
    let mut i: usize = 0;
    while i < found.len()
        invariant
            i <= found@.len(),
            first_ipv4(found@, i as int) == first_ipv4(found@, 0),
            ipv4_of(entry.host@) is None,
            *lookup matches Some(v) && v@ == found@,
        decreases found@.len() - i,
    {
        if let IpAddr::V4(ip) = found[i].ip {
            return Ok(ResolvedServerEntry { entry: entry.duplicate(), ip });
        }
        i += 1;
    }
    Err(ResolveError::NoIpv4Address)
}

/// The server that a callback goes through: the first configured one at the
/// endpoint, where those before it resolved, else a bare one.
pub open spec fn callback_server(
    endpoint: SocketAddr,
    resolutions: Seq<Result<ResolvedServerEntry, ResolveError>>,
    i: int,
) -> Result<(ServerEntryView, Ipv4Addr), ResolveError>
    decreases resolutions.len() - i,
{
    match endpoint.ip {
        IpAddr::V6(_) => Err(ResolveError::EndpointNotIpv4),
        IpAddr::V4(ip) => if 0 <= i < resolutions.len() {
            match resolutions[i] {
                Err(e) => Err(e),
                Ok(server) => if server.base() == (SocketAddrV4 { ip, port: endpoint.port }) {
                    Ok((server.entry@, server.ip))
                } else {
                    callback_server(endpoint, resolutions, i + 1)
                },
            }
        } else {
            Ok((bare_entry(ipv4_text(ip), endpoint.port), ip))
        },
    }
}

/// The server that a callback goes through, given what became of resolving the
/// configured ones in order.
pub fn resolve_callback_server_entry(
    server_endpoint: SocketAddr,
    resolutions: &Vec<Result<ResolvedServerEntry, ResolveError>>,
) -> (r: Result<ResolvedServerEntry, ResolveError>)
    ensures
        match r {
            Ok(server) => callback_server(server_endpoint, resolutions@, 0) == Ok::<
                _,
                ResolveError,
            >((server.entry@, server.ip)),
            Err(e) => callback_server(server_endpoint, resolutions@, 0) == Err::<
                (ServerEntryView, Ipv4Addr),
                _,
            >(e),
        },
{
    let ip = match server_endpoint.ip {
        IpAddr::V4(ip) => ip,
        IpAddr::V6(_) => return Err(ResolveError::EndpointNotIpv4),
    };
    let endpoint = SocketAddrV4 { ip, port: server_endpoint.port };
    let mut i: usize = 0;
    while i < resolutions.len()
        invariant
            i <= resolutions@.len(),
            server_endpoint.ip == IpAddr::V4(ip),
            endpoint == (SocketAddrV4 { ip, port: server_endpoint.port }),
            callback_server(server_endpoint, resolutions@, i as int) == callback_server(
                server_endpoint,
                resolutions@,
                0,
            ),
        decreases resolutions@.len() - i,
    {
        match &resolutions[i] {
            Err(e) => return Err(*e),
            Ok(server) => {
                if server.base_endpoint() == endpoint {
                    return Ok(server.duplicate());
                }
            },
        }
        i += 1;
    }
    let entry = ConfiguredServerEntry {
        host: ipv4_to_text(ip),
        port: server_endpoint.port,
        name: None,
        description: None,
        udp_flags: 0,
        udp_key: 0,
        udp_key_ip: 0,
        obfuscation_port_tcp: 0,
        obfuscation_port_udp: 0,
        soft_files: 0,
        hard_files: 0,
    };
    Ok(ResolvedServerEntry { entry, ip })
}

/// One offer holds what the server likes, and two hundred where it likes more
/// or does not say.
pub proof fn law_offer_limit_is_what_the_server_likes(soft_files: u32)
    ensures
        1 <= soft_files <= 200 ==> offer_limit(soft_files) == soft_files,
        soft_files == 0 || soft_files > 200 ==> offer_limit(soft_files) == 200,
{
}

/// A client with any connect option starts obfuscated with a server that offers
/// it on a port of its own, and with one of which nothing is known; with any
/// other, and without connect options, it starts in clear.
pub proof fn law_when_a_session_starts_obfuscated(options: u8, server: ResolvedServerEntry)
    ensures
        uses_server_obfuscation(0, server) == false,
        options > 0 && server.entry.obfuscation_port_tcp > 0 && (server.entry.udp_flags & 0x600
            != 0) ==> uses_server_obfuscation(options, server),
        options > 0 && server.entry.obfuscation_port_tcp == 0 && server.entry.obfuscation_port_udp
            == 0 && server.entry.udp_key == 0 && server.entry.udp_key_ip == 0
            && server.entry.udp_flags == 0 ==> uses_server_obfuscation(options, server),
        server.entry.obfuscation_port_tcp > 0 && server.entry.udp_flags & 0x600 == 0
            ==> !uses_server_obfuscation(options, server),
        server.entry.obfuscation_port_tcp == 0 && (server.entry.obfuscation_port_udp > 0
            || server.entry.udp_key > 0 || server.entry.udp_key_ip > 0 || server.entry.udp_flags
            > 0) ==> !uses_server_obfuscation(options, server),
{
    assert(0x200u32 | 0x400u32 == 0x600u32) by (bit_vector);
}

/// A session goes to the server's own port, and to the obfuscation port where it
/// starts obfuscated and there is one; the address is the same.
pub proof fn law_obfuscated_sessions_have_their_port(server: ResolvedServerEntry)
    ensures
        server.transport(false) == server.base(),
        server.base() == (SocketAddrV4 { ip: server.ip, port: server.entry.port }),
        server.entry.obfuscation_port_tcp == 0 ==> server.transport(true) == server.base(),
        server.entry.obfuscation_port_tcp != 0 ==> server.transport(true) == (SocketAddrV4 {
            ip: server.ip,
            port: server.entry.obfuscation_port_tcp,
        }),
{
}

/// Each endpoint text stands for one entry, in order; the first text that stands
/// for none fails them all.
pub proof fn law_endpoints_stand_for_entries(
    metadata: Seq<ServerEntryView>,
    endpoints: Seq<Seq<char>>,
)
    ensures
        match entries_for(metadata, endpoints) {
            Ok(entries) => entries.len() == endpoints.len() && forall|i: int|
                0 <= i < endpoints.len() ==> entry_for(metadata, endpoints[i]) == Ok::<
                    _,
                    EntryError,
                >(#[trigger] entries[i]),
            Err(e) => exists|i: int|
                0 <= i < endpoints.len() && entry_for(metadata, #[trigger] endpoints[i]) == Err::<
                    ServerEntryView,
                    _,
                >(e),
        },
    decreases endpoints.len(),
{
    if endpoints.len() > 0 {
        let earlier = endpoints.drop_last();
        law_endpoints_stand_for_entries(metadata, earlier);
        assert(endpoints.last() == endpoints[endpoints.len() - 1]);
        match entries_for(metadata, earlier) {
            Ok(entries) => {
                match entry_for(metadata, endpoints.last()) {
                    Ok(e) => {
                        let all = entries.push(e);
                        assert forall|i: int| 0 <= i < endpoints.len() implies entry_for(
                            metadata,
                            endpoints[i],
                        ) == Ok::<_, EntryError>(#[trigger] all[i]) by {
                            if i < endpoints.len() - 1 {
                                assert(endpoints[i] == earlier[i]);
                                assert(all[i] == entries[i]);
                            }
                        }
                    },
                    Err(_) => {},
                }
            },
            Err(e) => {
                let i = choose|i: int|
                    0 <= i < earlier.len() && entry_for(metadata, #[trigger] earlier[i]) == Err::<
                        ServerEntryView,
                        _,
                    >(e);
                assert(endpoints[i] == earlier[i]);
            },
        }
    }
}

/// An endpoint text stands for the first entry written like it, with its
/// metadata; a text that no entry is written like for a bare one.
pub proof fn law_endpoint_stands_for_the_first_like_it(
    metadata: Seq<ServerEntryView>,
    text: Seq<char>,
    i: int,
)
    ensures
        0 <= i < metadata.len() && same_text_ignoring_case(base_text(metadata[i]), text) && (
        forall|k: int|
            0 <= k < i ==> !same_text_ignoring_case(base_text(#[trigger] metadata[k]), text))
            ==> entry_for(metadata, text) == Ok::<_, EntryError>(metadata[i]),
        (forall|k: int|
            0 <= k < metadata.len() ==> !same_text_ignoring_case(
                base_text(#[trigger] metadata[k]),
                text,
            )) ==> entry_for(metadata, text) == entry_of_endpoint(text),
{
    lemma_first_like(metadata, text, 0);
    let at = entry_position(metadata, text, 0);
    if 0 <= i < metadata.len() && same_text_ignoring_case(base_text(metadata[i]), text) {
        if at > i {
            assert(!same_text_ignoring_case(base_text(metadata[i]), text));
        }
    }
}

proof fn lemma_first_like(entries: Seq<ServerEntryView>, text: Seq<char>, i: int)
    requires
        0 <= i <= entries.len(),
    ensures
        i <= entry_position(entries, text, i) <= entries.len(),
        entry_position(entries, text, i) < entries.len() ==> same_text_ignoring_case(
            base_text(entries[entry_position(entries, text, i)]),
            text,
        ),
        forall|k: int|
            i <= k < entry_position(entries, text, i) ==> !same_text_ignoring_case(
                base_text(#[trigger] entries[k]),
                text,
            ),
    decreases entries.len() - i,
{
    if i < entries.len() && !same_text_ignoring_case(base_text(entries[i]), text) {
        lemma_first_like(entries, text, i + 1);
    }
}

/// A preferred server comes first where it is configured; the others keep their
/// order, and nothing changes where it is not.
pub proof fn law_preferred_server_comes_first(
    entries: Seq<ServerEntryView>,
    endpoint: SocketAddr,
    i: int,
)
    ensures
        with_preferred(entries, None) == entries,
        0 <= i < entries.len() && is_at(entries[i], endpoint) && (forall|k: int|
            0 <= k < i ==> !is_at(#[trigger] entries[k], endpoint)) ==> with_preferred(
            entries,
            Some(endpoint),
        ) == seq![entries[i]] + entries.take(i) + entries.skip(i + 1),
        (forall|k: int| 0 <= k < entries.len() ==> !is_at(#[trigger] entries[k], endpoint))
            ==> with_preferred(entries, Some(endpoint)) == entries,
{
    lemma_first_at(entries, endpoint, 0);
    let at = position_at(entries, endpoint, 0);
    if 0 <= i < entries.len() && is_at(entries[i], endpoint) && (forall|k: int|
        0 <= k < i ==> !is_at(#[trigger] entries[k], endpoint)) {
        if at > i {
            assert(!is_at(entries[i], endpoint));
        }
        assert(at == i);
        assert(with_preferred(entries, Some(endpoint)) =~= seq![entries[i]] + entries.take(i)
            + entries.skip(i + 1));
    }
}

proof fn lemma_first_at(entries: Seq<ServerEntryView>, endpoint: SocketAddr, i: int)
    requires
        0 <= i <= entries.len(),
    ensures
        i <= position_at(entries, endpoint, i) <= entries.len(),
        position_at(entries, endpoint, i) < entries.len() ==> is_at(
            entries[position_at(entries, endpoint, i)],
            endpoint,
        ),
        forall|k: int|
            i <= k < position_at(entries, endpoint, i) ==> !is_at(#[trigger] entries[k], endpoint),
    decreases entries.len() - i,
{
    if i < entries.len() && !is_at(entries[i], endpoint) {
        lemma_first_at(entries, endpoint, i + 1);
    }
}

/// A host that spells an address needs no lookup. Else the first IPv4 address
/// that the lookup found counts; one that failed or found none is told apart.
pub proof fn law_host_resolves(ip: Ipv4Addr, host: Seq<char>, found: Seq<SocketAddr>, i: int)
    ensures
        resolved_ip(ipv4_text(ip), None) == Ok::<_, ResolveError>(ip),
        resolved_ip(ipv4_text(ip), Some(found)) == Ok::<_, ResolveError>(ip),
        ipv4_of(host) is None ==> resolved_ip(host, None) == Err::<Ipv4Addr, _>(
            ResolveError::LookupFailed,
        ),
        ipv4_of(host) is None && 0 <= i < found.len() && found[i].ip is V4 && (forall|k: int|
            0 <= k < i ==> (#[trigger] found[k]).ip is V6) ==> resolved_ip(host, Some(found))
            == Ok::<_, ResolveError>(found[i].ip->V4_0),
        ipv4_of(host) is None && (forall|k: int|
            0 <= k < found.len() ==> (#[trigger] found[k]).ip is V6) ==> resolved_ip(
            host,
            Some(found),
        ) == Err::<Ipv4Addr, _>(ResolveError::NoIpv4Address),
{
    crate::addr::law_ipv4_text_parses_back(ip);
    lemma_first_ipv4(found, 0, i);
}

proof fn lemma_first_ipv4(found: Seq<SocketAddr>, from: int, i: int)
    requires
        0 <= from <= found.len(),
    ensures
        from <= i < found.len() && found[i].ip is V4 && (forall|k: int|
            from <= k < i ==> (#[trigger] found[k]).ip is V6) ==> first_ipv4(found, from) == Some(
            found[i].ip->V4_0,
        ),
        (forall|k: int| from <= k < found.len() ==> (#[trigger] found[k]).ip is V6) ==> first_ipv4(
            found,
            from,
        ) is None,
    decreases found.len() - from,
{
    if from < found.len() {
        lemma_first_ipv4(found, from + 1, i);
    }
}

/// A callback goes through the first configured server at the endpoint, with
/// what is known of it, through a bare one where none is there, and through none
/// at an IPv6 endpoint. A server before it that does not resolve fails it.
pub proof fn law_callback_goes_through_its_server(
    ip: Ipv4Addr,
    port: u16,
    resolutions: Seq<Result<ResolvedServerEntry, ResolveError>>,
    from: int,
    at: int,
)
    requires
        0 <= from <= at <= resolutions.len(),
        forall|k: int|
            from <= k < at ==> (#[trigger] resolutions[k] matches Ok(server) && server.base() != (
            SocketAddrV4 { ip, port })),
    ensures
        ({
            let endpoint = SocketAddr { ip: IpAddr::V4(ip), port };
            let r = callback_server(endpoint, resolutions, from);
            &&& at == resolutions.len() ==> r == Ok::<_, ResolveError>(
                (bare_entry(ipv4_text(ip), port), ip),
            )
            &&& at < resolutions.len() ==> match resolutions[at] {
                Err(e) => r == Err::<(ServerEntryView, Ipv4Addr), _>(e),
                Ok(server) => server.base() == (SocketAddrV4 { ip, port }) ==> r == Ok::<
                    _,
                    ResolveError,
                >((server.entry@, server.ip)),
            }
        }),
        forall|n: u128|
            #![trigger callback_server(SocketAddr { ip: IpAddr::V6(n), port }, resolutions, from)]
            callback_server(SocketAddr { ip: IpAddr::V6(n), port }, resolutions, from) == Err::<
                (ServerEntryView, Ipv4Addr),
                _,
            >(ResolveError::EndpointNotIpv4),
    decreases at - from,
{
    if from < at {
        assert(resolutions[from] is Ok);
        law_callback_goes_through_its_server(ip, port, resolutions, from + 1, at);
    }
}

/// An entry with a blank host or without a port fails the configuration.
pub proof fn law_entries_need_a_host_and_a_port(
    metadata: Seq<ServerEntryView>,
    endpoints: Seq<Seq<char>>,
    i: int,
)
    requires
        0 <= i < metadata.len(),
        metadata[i].port == 0 || (forall|k: int|
            0 <= k < metadata[i].host.len() ==> crate::text::is_space(#[trigger] metadata[i].host[k])),
    ensures
        configured(metadata, endpoints) == Err::<Seq<ServerEntryView>, _>(
            EntryError::MissingHostOrPort,
        ),
{
    if metadata[i].port != 0 {
        crate::text::law_white_space_leaves_nothing(metadata[i].host);
    }
    assert(!is_complete(metadata[i]));
}

/// A configuration of complete entries alone is those entries, each written
/// `host:port` once, in order.
pub proof fn law_different_entries_are_all_configured(metadata: Seq<ServerEntryView>)
    requires
        forall|i: int|
            0 <= i < metadata.len() ==> trimmed((#[trigger] metadata[i]).host).len() > 0
                && metadata[i].port != 0,
        forall|i: int, j: int|
            0 <= i < j < metadata.len() ==> !same_text_ignoring_case(
                base_text(#[trigger] metadata[i]),
                base_text(#[trigger] metadata[j]),
            ),
    ensures
        configured(metadata, Seq::empty()) == Ok::<_, EntryError>(metadata),
{
    lemma_completed_alone(metadata);
}

proof fn lemma_completed_alone(metadata: Seq<ServerEntryView>)
    requires
        forall|i: int, j: int|
            0 <= i < j < metadata.len() ==> !same_text_ignoring_case(
                base_text(#[trigger] metadata[i]),
                base_text(#[trigger] metadata[j]),
            ),
    ensures
        completed(Seq::empty(), metadata) == metadata,
    decreases metadata.len(),
{
    if metadata.len() > 0 {
        let earlier = metadata.drop_last();
        let text = base_text(metadata.last());
        assert forall|i: int, j: int| 0 <= i < j < earlier.len() implies !same_text_ignoring_case(
            base_text(#[trigger] earlier[i]),
            base_text(#[trigger] earlier[j]),
        ) by {
            assert(earlier[i] == metadata[i] && earlier[j] == metadata[j]);
        }
        lemma_completed_alone(earlier);
        lemma_first_like(earlier, text, 0);
        let at = entry_position(earlier, text, 0);
        if at < earlier.len() {
            assert(earlier[at] == metadata[at]);
            assert(metadata.last() == metadata[metadata.len() - 1]);
        }
        assert(earlier.push(metadata.last()) =~= metadata);
    } else {
        assert(metadata =~= Seq::empty());
    }
}

} // verus!
