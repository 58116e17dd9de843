//! The logic of an ED2K client: the session with a server, searches over
//! servers, and the reasking of queued sources over UDP.
//!
//! Nothing here opens a socket, a file or a clock. Sessions, searches and the
//! reask service take events and say what is to be done; times are
//! milliseconds on whatever clock the caller keeps.
pub mod addr;
pub mod advertised_ports;
pub mod advertised_udp_port;
pub mod ban_store;
pub mod bignum;
pub mod buddy_socket;
pub mod bytes;
pub mod compression;
pub mod config;
pub mod diag_event;
pub mod digest;
pub mod disk_space;
pub mod ed2k_client_udp;
pub mod ed2k_client_udp_obfuscation;
pub mod ed2k_server;
pub mod ed2k_transfer;
pub mod hexadecimal;
pub mod ids;
pub mod ipv6;
pub mod keyed;
pub mod random;
pub mod rc4;
pub mod text;
