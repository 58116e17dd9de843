//! The detour of a reask over the buddy of a source that cannot be reached.
//!
//! The client that reasks sends to the buddy; the buddy passes the reask on
//! over its connection to the source, with where it came from; the source
//! answers over UDP.
use vstd::prelude::*;

use super::codec::{
    callback_udp_body, file_ping_body, opt_parts_ref, ForwardedReask,
    ReaskFilePing, OP_REASKCALLBACKUDP,
};
use super::outbound::{build_reask_callback_udp_packet, plain_frame, ClientUdpDatagram};
use super::state::{buddy_target, ReaskSource};
use crate::addr::{ipv4_at, octets_of, IpAddr, Ipv4Addr, SocketAddr, SocketAddrV4};
use crate::buddy_socket::{relays_to, BuddySocketRegistry};
use crate::bytes::{le16, push_all, push_u16, push_u32, u16_le, u32_le};
use crate::ed2k_client_udp_obfuscation::OP_EMULEPROT;
use crate::ids::{Ed2kHash, NodeId};

verus! {

/// The message that a buddy passes a reask on with.
pub const OP_REASKCALLBACKTCP: u8 = 0x9A;

/// The body of a reask that is passed on: where it came from, and the reask as
/// it came.
pub open spec fn relay_body(forwarded_tail: Seq<u8>, ip: Ipv4Addr, port: u16) -> Seq<u8> {
    octets_of(ip) + u16_le(port) + forwarded_tail
}

/// The packet that passes a reask on. Its length counts the opcode.
pub open spec fn relay_frame(forwarded_tail: Seq<u8>, ip: Ipv4Addr, port: u16) -> Seq<u8> {
    let body = relay_body(forwarded_tail, ip, port);
    seq![OP_EMULEPROT] + u32_le(
        if body.len() + 1 <= u32::MAX {
            (body.len() + 1) as u32
        } else {
            u32::MAX
        },
    ) + seq![OP_REASKCALLBACKTCP] + body
}

/// Makes the packet that passes a reask on. The id of the buddy is not passed
/// on.
pub fn encode_reask_callback_tcp_relay(
    callback: &ForwardedReask,
    requester_ip: Ipv4Addr,
    requester_port: u16,
) -> (r: Vec<u8>)
    ensures
        r@ == relay_frame(callback.forwarded_tail@, requester_ip, requester_port),
{
    let mut body: Vec<u8> = Vec::new();
    push_all(&mut body, requester_ip.octets().as_slice());
    push_u16(&mut body, requester_port);
    push_all(&mut body, callback.forwarded_tail.as_slice());
    assert(body@ =~= relay_body(callback.forwarded_tail@, requester_ip, requester_port));
    let len: u32 = if body.len() < 0xFFFF_FFFF {
        (body.len() + 1) as u32
    } else {
        0xFFFF_FFFF
    };
    let mut frame: Vec<u8> = Vec::new();
    frame.push(OP_EMULEPROT);
    push_u32(&mut frame, len);
    frame.push(OP_REASKCALLBACKTCP);
    push_all(&mut frame, body.as_slice());
    assert(frame@ =~= relay_frame(callback.forwarded_tail@, requester_ip, requester_port));
    frame
}

/// Makes the reask of a source over its buddy, and says where it goes to;
/// nothing where the source is not reasked over a buddy.
pub fn build_downloader_callback_origination(
    source: &ReaskSource,
    our_part_status: Option<&[bool]>,
    complete_source_count: u16,
) -> (r: Option<(SocketAddrV4, ClientUdpDatagram)>)
    ensures
        match buddy_target(*source) {
            None => r is None,
            Some((endpoint, buddy_id)) => r matches Some(sent) && {
                let body = callback_udp_body(
                    buddy_id@,
                    source.file_hash.0@,
                    opt_parts_ref(our_part_status),
                    complete_source_count,
                    source.udp_version,
                );
                &&& sent.0 == endpoint
                &&& sent.1.bytes@ == plain_frame(OP_REASKCALLBACKUDP, body)
                &&& sent.1.payload@ == body
                &&& sent.1.opcode == OP_REASKCALLBACKUDP
                &&& !sent.1.obfuscated
            },
        },
{
    match source.buddy_reask_target() {
        Some((endpoint, buddy_id)) => {
            let datagram = build_reask_callback_udp_packet(
                &Ed2kHash(buddy_id),
                &source.file_hash,
                our_part_status,
                complete_source_count,
                source.udp_version,
            );
            Some((endpoint, datagram))
        },
        None => None,
    }
}

/// What to pass on, and to which client.
#[derive(Debug, PartialEq, Eq)]
pub struct BuddyRelay {
    pub buddy_id: NodeId,
    pub frame: Vec<u8>,
}

/// Whether a reask is passed on: it comes from an IPv4 address, and the client
/// it is for is served.
pub open spec fn is_relayed(
    registry: BuddySocketRegistry,
    buddy_id: Ed2kHash,
    from: SocketAddr,
) -> bool {
    from.ip is V4 && relays_to(registry, NodeId(buddy_id.0))
}

/// What to pass on of a reask, if anything.
pub fn relay_buddy_reask_callback(
    buddy_registry: &BuddySocketRegistry,
    callback: &ForwardedReask,
    from: SocketAddr,
) -> (r: Option<BuddyRelay>)
    ensures
        match r {
            Some(relay) => {
                &&& is_relayed(*buddy_registry, callback.buddy_id, from)
                &&& relay.buddy_id == NodeId(callback.buddy_id.0)
                &&& relay.frame@ == relay_frame(
                    callback.forwarded_tail@,
                    from.ip->V4_0,
                    from.port,
                )
            },
            None => !is_relayed(*buddy_registry, callback.buddy_id, from),
        },
{
    let ip: Ipv4Addr = match from.ip {
        IpAddr::V4(ip) => ip,
        IpAddr::V6(_) => return None,
    };
    let buddy_id = NodeId::from_bytes(callback.buddy_id.0);
    if !buddy_registry.can_relay_to_inbound(buddy_id) {
        return None;
    }
    Some(
        BuddyRelay {
            buddy_id,
            frame: encode_reask_callback_tcp_relay(callback, ip, from.port),
        },
    )
}

/// The ping that a reask which was passed on stands for: the answer depends on
/// the file alone.
pub fn relayed_ping(file_hash: Ed2kHash) -> (r: ReaskFilePing)
    ensures
        r.file_hash == file_hash,
        r.part_status is None,
        r.complete_source_count is None,
{
    ReaskFilePing { file_hash, part_status: None, complete_source_count: None }
}

/// What is passed on tells the source where to answer, and holds the ping of
/// the client that reasked byte by byte, whatever version either speaks.
pub proof fn law_relay_passes_the_ping_on(
    buddy_id: Seq<u8>,
    file_hash: Seq<u8>,
    part_status: Option<Seq<bool>>,
    count: u16,
    udp_version: u8,
    ip: Ipv4Addr,
    port: u16,
)
    requires
        buddy_id.len() == 16,
        file_hash.len() == 16,
    ensures
        ({
            let sent = callback_udp_body(buddy_id, file_hash, part_status, count, udp_version);
            let body = relay_body(sent.skip(16), ip, port);
            &&& ipv4_at(body, 0) == ip
            &&& le16(body, 4) == port
            &&& body.subrange(6, 22) == file_hash
            &&& body.skip(6) == file_ping_body(file_hash, part_status, count, udp_version)
        }),
{
    let ping = file_ping_body(file_hash, part_status, count, udp_version);
    let sent = callback_udp_body(buddy_id, file_hash, part_status, count, udp_version);
    assert(sent.skip(16) =~= ping);
    let body = relay_body(ping, ip, port);
    assert(body.subrange(4, 6) =~= u16_le(port));
    crate::bytes::lemma_le16(port, body, 4);
    assert(body.skip(6) =~= ping);
    assert(body.subrange(6, 22) =~= file_hash);
}

/// A relayed reask names the address and the port it came from, and then holds
/// what was to be passed on.
pub proof fn law_relay_names_who_asked(tail: Seq<u8>, ip: Ipv4Addr, port: u16)
    requires
        tail.len() + 7 <= u32::MAX,
    ensures
        ({
            let f = relay_frame(tail, ip, port);
            &&& f[0] == 0xC5
            &&& crate::bytes::le32(f, 1) == f.len() - 5
            &&& f[5] == 0x9A
            &&& f.subrange(6, 10) == octets_of(ip)
            &&& f.subrange(10, 12) == u16_le(port)
            &&& f.skip(12) == tail
        }),
{
    let f = relay_frame(tail, ip, port);
    let n = (tail.len() + 7) as u32;
    assert(f.subrange(1, 5) =~= u32_le(n));
    crate::bytes::lemma_le32(n, f, 1);
    assert(f.subrange(6, 10) =~= octets_of(ip));
    assert(f.subrange(10, 12) =~= u16_le(port));
    assert(f.skip(12) =~= tail);
}

} // verus!
