//! What a server session learns and hands out.
use vstd::prelude::*;

use crate::addr::{Ipv4Addr, SocketAddrV4};
use crate::ids::{opt_bytes, Ed2kHash};
use crate::text::opt_text;

verus! {

/// One file of a search answer.
#[derive(Debug, Clone, PartialEq, Eq)]
pub struct Ed2kSearchFile {
    pub file_hash: Ed2kHash,
    pub file_name: Option<String>,
    pub file_size: Option<u64>,
    pub file_type: Option<String>,
    pub source_count: Option<u32>,
}

/// What a file of a search answer says.
pub struct SearchFileView {
    pub file_hash: Seq<u8>,
    pub file_name: Option<Seq<char>>,
    pub file_size: Option<u64>,
    pub file_type: Option<Seq<char>>,
    pub source_count: Option<u32>,
}

impl View for Ed2kSearchFile {
    type V = SearchFileView;

    open spec fn view(&self) -> SearchFileView {
        SearchFileView {
            file_hash: self.file_hash.0@,
            file_name: opt_text(self.file_name),
            file_size: self.file_size,
            file_type: opt_text(self.file_type),
            source_count: self.source_count,
        }
    }
}

/// What the files of a search answer say.
pub open spec fn file_views(files: Seq<Ed2kSearchFile>) -> Seq<SearchFileView> {
    files.map_values(|f: Ed2kSearchFile| f@)
}

/// One source of a file.
#[derive(Debug, Clone, Copy, PartialEq, Eq)]
pub struct Ed2kFoundSource {
    pub file_hash: Ed2kHash,
    pub ip: Ipv4Addr,
    pub tcp_port: u16,
    pub client_id: u32,
    pub low_id: bool,
    pub obfuscated: bool,
    pub obfuscation_options: Option<u8>,
    pub user_hash: Option<[u8; 16]>,
    pub source_server: Option<SocketAddrV4>,
    pub buddy_id: Option<[u8; 16]>,
    pub buddy_endpoint: Option<SocketAddrV4>,
    pub source_udp_port: Option<u16>,
}

/// What a source of a file says.
pub struct FoundSourceView {
    pub file_hash: Seq<u8>,
    pub ip: Ipv4Addr,
    pub tcp_port: u16,
    pub client_id: u32,
    pub low_id: bool,
    pub obfuscated: bool,
    pub obfuscation_options: Option<u8>,
    pub user_hash: Option<Seq<u8>>,
    pub source_server: Option<SocketAddrV4>,
    pub buddy_id: Option<Seq<u8>>,
    pub buddy_endpoint: Option<SocketAddrV4>,
    pub source_udp_port: Option<u16>,
}

impl View for Ed2kFoundSource {
    type V = FoundSourceView;

    open spec fn view(&self) -> FoundSourceView {
        FoundSourceView {
            file_hash: self.file_hash.0@,
            ip: self.ip,
            tcp_port: self.tcp_port,
            client_id: self.client_id,
            low_id: self.low_id,
            obfuscated: self.obfuscated,
            obfuscation_options: self.obfuscation_options,
            user_hash: opt_bytes(self.user_hash),
            source_server: self.source_server,
            buddy_id: opt_bytes(self.buddy_id),
            buddy_endpoint: self.buddy_endpoint,
            source_udp_port: self.source_udp_port,
        }
    }
}

/// What the sources of a file say.
pub open spec fn source_views(sources: Seq<Ed2kFoundSource>) -> Seq<FoundSourceView> {
    sources.map_values(|s: Ed2kFoundSource| s@)
}

/// A peer that asks, through the server, to be connected to.
#[derive(Debug, Clone, Copy, PartialEq, Eq)]
pub struct CallbackRequest {
    pub peer_addr: SocketAddrV4,
    pub connect_options: Option<u8>,
    pub user_hash: Option<[u8; 16]>,
}

/// What a peer says that asks to be connected to.
pub struct CallbackRequestView {
    pub peer_addr: SocketAddrV4,
    pub connect_options: Option<u8>,
    pub user_hash: Option<Seq<u8>>,
}

impl View for CallbackRequest {
    type V = CallbackRequestView;

    open spec fn view(&self) -> CallbackRequestView {
        CallbackRequestView {
            peer_addr: self.peer_addr,
            connect_options: self.connect_options,
            user_hash: opt_bytes(self.user_hash),
        }
    }
}

/// What is known of the server connection.
#[derive(Debug, Clone, PartialEq, Eq)]
pub struct Ed2kServerState {
    pub connecting: bool,
    pub connected: bool,
    pub endpoint: Option<SocketAddrV4>,
    pub client_id: Option<u32>,
    pub server_flags: Option<u32>,
    pub server_users: Option<u32>,
    pub server_files: Option<u32>,
    pub server_udp_flags: Option<u32>,
    pub server_name: Option<String>,
    pub server_description: Option<String>,
}

/// What is known of the server connection.
pub struct StateView {
    pub connecting: bool,
    pub connected: bool,
    pub endpoint: Option<SocketAddrV4>,
    pub client_id: Option<u32>,
    pub server_flags: Option<u32>,
    pub server_users: Option<u32>,
    pub server_files: Option<u32>,
    pub server_udp_flags: Option<u32>,
    pub server_name: Option<Seq<char>>,
    pub server_description: Option<Seq<char>>,
}

impl View for Ed2kServerState {
    type V = StateView;

    open spec fn view(&self) -> StateView {
        StateView {
            connecting: self.connecting,
            connected: self.connected,
            endpoint: self.endpoint,
            client_id: self.client_id,
            server_flags: self.server_flags,
            server_users: self.server_users,
            server_files: self.server_files,
            server_udp_flags: self.server_udp_flags,
            server_name: opt_text(self.server_name),
            server_description: opt_text(self.server_description),
        }
    }
}

/// Nothing known, and no connection.
pub open spec fn unknown_state() -> StateView {
    StateView {
        connecting: false,
        connected: false,
        endpoint: None,
        client_id: None,
        server_flags: None,
        server_users: None,
        server_files: None,
        server_udp_flags: None,
        server_name: None,
        server_description: None,
    }
}

impl Default for Ed2kServerState {
    fn default() -> (r: Self)
        ensures
            r@ == unknown_state(),
    {
        Ed2kServerState {
            connecting: false,
            connected: false,
            endpoint: None,
            client_id: None,
            server_flags: None,
            server_users: None,
            server_files: None,
            server_udp_flags: None,
            server_name: None,
            server_description: None,
        }
    }
}

/// A connection attempt has begun.
pub open spec fn connect_begun(s: StateView, endpoint: SocketAddrV4) -> StateView {
    StateView { connecting: true, connected: false, endpoint: Some(endpoint), ..s }
}

/// A connection attempt to `endpoint` has failed: it is taken back, unless
/// another one has begun meanwhile.
pub open spec fn connect_undone(s: StateView, endpoint: SocketAddrV4) -> StateView {
    if s.connecting && s.endpoint == Some(endpoint) {
        StateView { connecting: false, endpoint: None, ..s }
    } else {
        s
    }
}

/// A connection stands, and the login is about to be sent.
pub open spec fn connection_open(s: StateView, base_endpoint: SocketAddrV4) -> StateView {
    StateView {
        endpoint: Some(base_endpoint),
        connected: false,
        client_id: None,
        server_flags: None,
        ..s
    }
}

/// There is no connection any more.
pub open spec fn disconnected(s: StateView) -> StateView {
    StateView {
        connecting: false,
        connected: false,
        endpoint: None,
        client_id: None,
        server_flags: None,
        ..s
    }
}

impl Ed2kServerState {
    /// Notes that a connection attempt begins.
    pub fn begin_connect(&mut self, endpoint: SocketAddrV4)
        ensures
            final(self)@ == connect_begun(old(self)@, endpoint),
    {
        self.connecting = true;
        self.connected = false;
        self.endpoint = Some(endpoint);
    }

    /// Notes that a connection attempt failed.
    pub fn undo_connect(&mut self, endpoint: SocketAddrV4)
        ensures
            final(self)@ == connect_undone(old(self)@, endpoint),
    {
        if self.connecting && self.endpoint == Some(endpoint) {
            self.connecting = false;
            self.endpoint = None;
        }
    }

    /// Notes that a connection stands.
    pub fn open_connection(&mut self, base_endpoint: SocketAddrV4)
        ensures
            final(self)@ == connection_open(old(self)@, base_endpoint),
    {
        self.endpoint = Some(base_endpoint);
        self.connected = false;
        self.client_id = None;
        self.server_flags = None;
    }

    /// Notes that there is no connection any more.
    pub fn clear_server_connection_state(&mut self)
        ensures
            final(self)@ == disconnected(old(self)@),
    {
        self.connecting = false;
        self.connected = false;
        self.endpoint = None;
        self.client_id = None;
        self.server_flags = None;
    }
}

/// A connection attempt that fails leaves no trace of itself.
pub proof fn law_failed_connect_leaves_no_trace(s: StateView, endpoint: SocketAddrV4)
    ensures
        ({
            let after = connect_undone(connect_begun(s, endpoint), endpoint);
            !after.connecting && !after.connected && after.endpoint is None
        }),
{
}

/// From the first attempt to the loss of the connection, what is known goes
/// with it: the endpoint while there is an attempt or a connection, id and flags
/// only once the server gave them, and what the server said of itself for good.
pub proof fn law_state_goes_with_the_connection(
    s: StateView,
    endpoint: SocketAddrV4,
    other: SocketAddrV4,
)
    ensures
        ({
            let begun = connect_begun(s, endpoint);
            &&& begun.connecting && !begun.connected && begun.endpoint == Some(endpoint)
            &&& begun.client_id == s.client_id && begun.server_flags == s.server_flags
            &&& other != endpoint ==> connect_undone(begun, other) == begun
            &&& !connect_undone(begun, endpoint).connecting
            &&& connect_undone(begun, endpoint).endpoint is None
        }),
        ({
            let open = connection_open(s, endpoint);
            &&& open.endpoint == Some(endpoint)
            &&& !open.connected && open.client_id is None && open.server_flags is None
            &&& open.connecting == s.connecting
            &&& open.server_name == s.server_name
        }),
        ({
            let lost = disconnected(s);
            &&& !lost.connecting && !lost.connected && lost.endpoint is None
            &&& lost.client_id is None && lost.server_flags is None
            &&& lost.server_users == s.server_users && lost.server_files == s.server_files
            &&& lost.server_udp_flags == s.server_udp_flags
            &&& lost.server_name == s.server_name
            &&& lost.server_description == s.server_description
        }),
        !s.connecting ==> connect_undone(s, endpoint) == s,
{
}

} // verus!
