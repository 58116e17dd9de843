//! Settings of the ED2K client.
use vstd::prelude::*;

use crate::text::opt_text;

verus! {

/// Seconds after which a waiting upload client is dropped.
pub const DEFAULT_UPLOAD_QUEUE_WAITING_TIMEOUT_SECS: u64 = 3600;

/// Settings of the ED2K client.
#[derive(Debug, Clone, PartialEq, Eq)]
pub struct Ed2kConfig {
    /// The TCP port that peers connect to.
    pub listen_port: Option<u16>,
    /// Servers known with their metadata, in order.
    pub server_entries: Vec<Ed2kServerEntry>,
    /// Servers configured as `host:port`, in order.
    pub server_endpoints: Vec<String>,
    /// Whether TCP obfuscation is advertised and used.
    pub obfuscation_enabled: bool,
    /// A term to search for once after login.
    pub probe_search_term: Option<String>,
    /// Budget for one direct connection to a peer.
    pub connect_timeout_secs: u64,
    /// Budget for one connection to a server.
    pub server_connect_timeout_secs: u64,
    /// Budget for a LowID source to call back.
    pub callback_timeout_secs: u64,
    /// Delay before the next server after a failed attempt.
    pub reconnect_interval_secs: u64,
    /// Whether the session reconnects after the first pass over the servers.
    pub reconnect_enabled: bool,
    /// Idle time after which the session is refreshed.
    pub keepalive_secs: u64,
    /// Longest life of one session; zero for no limit.
    pub session_rotation_secs: u64,
    /// Cap on concurrent source connections; zero for none.
    pub max_concurrent_downloads: usize,
    /// Cap on new connections per five seconds; zero for none.
    pub max_new_connections_per_five_seconds: usize,
    /// Cap on connections still in their handshake; zero for none.
    pub max_half_open_connections: usize,
    /// Cap on the sources of one file; zero for none.
    pub max_sources_per_file: usize,
    /// Peers that one download keeps in flight.
    pub max_parallel_download_peers: usize,
    /// Servers that a one-shot keyword search tries.
    pub keyword_server_attempt_budget: usize,
    /// Servers that a one-shot hash search tries.
    pub exact_hash_keyword_server_attempt_budget: usize,
    /// Servers that a source search tries.
    pub source_server_attempt_budget: usize,
    /// Sources up to which a file is topped up over UDP and Kad.
    pub kad_source_supplement_max_existing_sources: usize,
    /// Policy of the upload queue.
    pub upload_queue: Ed2kUploadQueuePolicyConfig,
    /// Download budget of all transfers together; zero for none.
    pub download_limit_bytes_per_sec: u64,
    /// Whether queued sources are reasked over UDP.
    pub enable_udp_reask: bool,
    /// Whether the hello names this client.
    pub publish_emule_rust_identity: bool,
    /// Failures in a row after which a server counts as dead.
    pub dead_server_retries: u32,
}

/// Policy of the upload queue.
#[derive(Debug, Clone, Copy, PartialEq, Eq, Structural)]
pub struct Ed2kUploadQueuePolicyConfig {
    pub active_slots: usize,
    pub elastic_percent: u32,
    pub upload_limit_bytes_per_sec: u64,
    pub elastic_underfill_bytes_per_sec: u64,
    pub elastic_underfill_secs: u64,
    pub waiting_capacity: usize,
    pub waiting_timeout_secs: u64,
    pub granted_timeout_secs: u64,
    pub upload_timeout_secs: u64,
}

/// A server with its metadata.
#[derive(Debug, Clone, PartialEq, Eq)]
pub struct Ed2kServerEntry {
    pub host: String,
    pub port: u16,
    pub name: Option<String>,
    pub description: Option<String>,
    pub udp_flags: u32,
    pub udp_key: u32,
    pub udp_key_ip: u32,
    pub obfuscation_port_tcp: u16,
    pub obfuscation_port_udp: u16,
    /// Files that the server likes to be offered; zero where unknown.
    pub soft_files: u32,
    /// Files that the server takes at most; zero where unknown.
    pub hard_files: u32,
}

/// What a server entry says.
pub struct ServerEntryView {
    pub host: Seq<char>,
    pub port: u16,
    pub name: Option<Seq<char>>,
    pub description: Option<Seq<char>>,
    pub udp_flags: u32,
    pub udp_key: u32,
    pub udp_key_ip: u32,
    pub obfuscation_port_tcp: u16,
    pub obfuscation_port_udp: u16,
    pub soft_files: u32,
    pub hard_files: u32,
}

impl View for Ed2kServerEntry {
    type V = ServerEntryView;

    open spec fn view(&self) -> ServerEntryView {
        ServerEntryView {
            host: self.host@,
            port: self.port,
            name: opt_text(self.name),
            description: opt_text(self.description),
            udp_flags: self.udp_flags,
            udp_key: self.udp_key,
            udp_key_ip: self.udp_key_ip,
            obfuscation_port_tcp: self.obfuscation_port_tcp,
            obfuscation_port_udp: self.obfuscation_port_udp,
            soft_files: self.soft_files,
            hard_files: self.hard_files,
        }
    }
}

/// An entry with a host and a port and no metadata.
pub open spec fn bare_entry(host: Seq<char>, port: u16) -> ServerEntryView {
    ServerEntryView {
        host,
        port,
        name: None,
        description: None,
        udp_flags: 0,
        udp_key: 0,
        udp_key_ip: 0,
        obfuscation_port_tcp: 0,
        obfuscation_port_udp: 0,
        soft_files: 0,
        hard_files: 0,
    }
}

/// The upload queue policy that applies unless one is configured.
pub open spec fn default_upload_queue() -> Ed2kUploadQueuePolicyConfig {
    Ed2kUploadQueuePolicyConfig {
        active_slots: 3,
        elastic_percent: 0,
        upload_limit_bytes_per_sec: 0,
        elastic_underfill_bytes_per_sec: 0,
        elastic_underfill_secs: 10,
        waiting_capacity: 512,
        waiting_timeout_secs: DEFAULT_UPLOAD_QUEUE_WAITING_TIMEOUT_SECS,
        granted_timeout_secs: 30,
        upload_timeout_secs: 90,
    }
}

impl Default for Ed2kUploadQueuePolicyConfig {
    fn default() -> (r: Self)
        ensures
            r == default_upload_queue(),
    {
        Ed2kUploadQueuePolicyConfig {
            active_slots: 3,
            elastic_percent: 0,
            upload_limit_bytes_per_sec: 0,
            elastic_underfill_bytes_per_sec: 0,
            elastic_underfill_secs: 10,
            waiting_capacity: 512,
            waiting_timeout_secs: DEFAULT_UPLOAD_QUEUE_WAITING_TIMEOUT_SECS,
            granted_timeout_secs: 30,
            upload_timeout_secs: 90,
        }
    }
}

impl Default for Ed2kServerEntry {
    fn default() -> (r: Self)
        ensures
            r@ == bare_entry(Seq::empty(), 0),
    {
        Ed2kServerEntry {
            host: String::new(),
            port: 0,
            name: None,
            description: None,
            udp_flags: 0,
            udp_key: 0,
            udp_key_ip: 0,
            obfuscation_port_tcp: 0,
            obfuscation_port_udp: 0,
            soft_files: 0,
            hard_files: 0,
        }
    }
}

impl Default for Ed2kConfig {
    fn default() -> (r: Self)
        ensures
            r.listen_port is None,
            r.server_entries@.len() == 0,
            r.server_endpoints@.len() == 0,
            r.obfuscation_enabled,
            r.probe_search_term is None,
            r.connect_timeout_secs == 15,
            r.server_connect_timeout_secs == 25,
            r.callback_timeout_secs == 45,
            r.reconnect_interval_secs == 30,
            r.reconnect_enabled,
            r.keepalive_secs == 60,
            r.session_rotation_secs == 0,
            r.max_concurrent_downloads == 500,
            r.max_new_connections_per_five_seconds == 50,
            r.max_half_open_connections == 50,
            r.max_sources_per_file == 600,
            r.max_parallel_download_peers == 2,
            r.keyword_server_attempt_budget == 3,
            r.exact_hash_keyword_server_attempt_budget == 4,
            r.source_server_attempt_budget == 3,
            r.kad_source_supplement_max_existing_sources == 2,
            r.upload_queue == default_upload_queue(),
            r.download_limit_bytes_per_sec == 0,
            r.enable_udp_reask,
            !r.publish_emule_rust_identity,
            r.dead_server_retries == 1,
    {
        Ed2kConfig {
            listen_port: None,
            server_entries: Vec::new(),
            server_endpoints: Vec::new(),
            obfuscation_enabled: true,
            probe_search_term: None,
            connect_timeout_secs: 15,
            server_connect_timeout_secs: 25,
            callback_timeout_secs: 45,
            reconnect_interval_secs: 30,
            reconnect_enabled: true,
            keepalive_secs: 60,
            session_rotation_secs: 0,
            max_concurrent_downloads: 500,
            max_new_connections_per_five_seconds: 50,
            max_half_open_connections: 50,
            max_sources_per_file: 600,
            max_parallel_download_peers: 2,
            keyword_server_attempt_budget: 3,
            exact_hash_keyword_server_attempt_budget: 4,
            source_server_attempt_budget: 3,
            kad_source_supplement_max_existing_sources: 2,
            upload_queue: Ed2kUploadQueuePolicyConfig::default(),
            download_limit_bytes_per_sec: 0,
            enable_udp_reask: true,
            publish_emule_rust_identity: false,
            dead_server_retries: 1,
        }
    }
}

} // verus!
