//! The datagrams that go out.
//!
//! A message goes out behind a protocol marker and its opcode, in clear or
//! obfuscated for the client that it goes to.
use vstd::prelude::*;

use super::codec::{
    ack_body, callback_udp_body, direct_callback_body, encode_direct_callback_req,
    encode_reask_ack, encode_reask_callback_udp, encode_reask_file_ping, file_ping_body,
    opt_parts_ref, DirectCallbackView, OP_DIRECTCALLBACKREQ, OP_FILENOTFOUND, OP_QUEUEFULL,
    OP_REASKACK, OP_REASKCALLBACKUDP, OP_REASKFILEPING,
};
use crate::bytes::{push_all, to_vec};
use crate::ed2k_client_udp_obfuscation::{
    obfuscate_client_udp_with, obfuscated_client_udp, OP_EMULEPROT,
};
use crate::ids::Ed2kHash;
use crate::random::{random_u16, random_u8};

verus! {

/// A datagram, and what it says in clear.
#[derive(Debug, Clone, PartialEq, Eq)]
pub struct ClientUdpDatagram {
    /// The bytes that go out.
    pub bytes: Vec<u8>,
    pub protocol_marker: u8,
    pub opcode: u8,
    /// The body in clear.
    pub payload: Vec<u8>,
    pub obfuscated: bool,
}

/// Whom a datagram goes to.
#[derive(Debug, Clone, Copy)]
pub struct OutboundReaskTarget {
    pub dest_user_hash: [u8; 16],
    pub our_public_ip: [u8; 4],
    /// Whether the receiver wants datagrams obfuscated.
    pub obfuscate: bool,
}

/// A message in clear.
pub open spec fn plain_frame(opcode: u8, body: Seq<u8>) -> Seq<u8> {
    seq![OP_EMULEPROT, opcode] + body
}

/// The bytes that a message goes out as, given the random parts of its key and
/// its marker.
pub open spec fn wire_bytes(
    opcode: u8,
    body: Seq<u8>,
    target: OutboundReaskTarget,
    random_key_part: u16,
    marker: u8,
) -> Seq<u8> {
    if target.obfuscate {
        obfuscated_client_udp(
            target.dest_user_hash@,
            target.our_public_ip@,
            plain_frame(opcode, body),
            random_key_part,
            marker,
        )
    } else {
        plain_frame(opcode, body)
    }
}

/// Whether bytes carry a message to a target, whatever the random parts of the
/// key and the marker are.
pub open spec fn carries(
    bytes: Seq<u8>,
    opcode: u8,
    body: Seq<u8>,
    target: OutboundReaskTarget,
) -> bool {
    exists|random_key_part: u16, marker: u8|
        bytes == #[trigger] wire_bytes(opcode, body, target, random_key_part, marker)
}

/// Whether a datagram carries a message to a target, and says so.
pub open spec fn is_datagram(
    d: ClientUdpDatagram,
    opcode: u8,
    body: Seq<u8>,
    target: OutboundReaskTarget,
) -> bool {
    &&& carries(d.bytes@, opcode, body, target)
    &&& d.protocol_marker == OP_EMULEPROT
    &&& d.opcode == opcode
    &&& d.payload@ == body
    &&& d.obfuscated == target.obfuscate
}

/// Makes the datagram of a message, with the given random parts.
pub fn frame_packet_with(
    opcode: u8,
    body: &[u8],
    target: &OutboundReaskTarget,
    random_key_part: u16,
    marker: u8,
) -> (r: ClientUdpDatagram)
    ensures
        r.bytes@ == wire_bytes(opcode, body@, *target, random_key_part, marker),
        r.protocol_marker == OP_EMULEPROT,
        r.opcode == opcode,
        r.payload@ == body@,
        r.obfuscated == target.obfuscate,
{
    let mut plain: Vec<u8> = Vec::with_capacity(body.len());
    plain.push(OP_EMULEPROT);
    plain.push(opcode);
    push_all(&mut plain, body);
    assert(plain@ =~= plain_frame(opcode, body@));
    let bytes: Vec<u8> = if target.obfuscate {
        obfuscate_client_udp_with(
            &target.dest_user_hash,
            target.our_public_ip,
            plain.as_slice(),
            random_key_part,
            marker,
        )
    } else {
        plain
    };
    ClientUdpDatagram {
        bytes,
        protocol_marker: OP_EMULEPROT,
        opcode,
        payload: to_vec(body),
        obfuscated: target.obfuscate,
    }
}

/// Makes the datagram of a message.
pub fn frame_packet(opcode: u8, body: &[u8], target: &OutboundReaskTarget) -> (r: ClientUdpDatagram)
    ensures
        is_datagram(r, opcode, body@, *target),
{
    frame_packet_with(opcode, body, target, random_u16(), random_u8())
}

/// Makes a request for a direct callback.
pub fn build_direct_callback_req_datagram(
    our_tcp_port: u16,
    our_user_hash: &[u8; 16],
    connect_options: u8,
    target: &OutboundReaskTarget,
) -> (r: ClientUdpDatagram)
    ensures
        is_datagram(
            r,
            OP_DIRECTCALLBACKREQ,
            direct_callback_body(
                (DirectCallbackView {
                    tcp_port: our_tcp_port,
                    user_hash: our_user_hash@,
                    connect_options,
                }),
            ),
            *target,
        ),
{
    let body: Vec<u8> = encode_direct_callback_req(our_tcp_port, our_user_hash, connect_options);
    frame_packet(OP_DIRECTCALLBACKREQ, body.as_slice(), target)
}

/// Makes a ping.
pub fn build_reask_file_ping_packet(
    file_hash: &Ed2kHash,
    part_status: Option<&[bool]>,
    complete_source_count: u16,
    our_udp_version: u8,
    target: &OutboundReaskTarget,
) -> (r: ClientUdpDatagram)
    ensures
        is_datagram(
            r,
            OP_REASKFILEPING,
            file_ping_body(
                file_hash.0@,
                opt_parts_ref(part_status),
                complete_source_count,
                our_udp_version,
            ),
            *target,
        ),
{
    let body: Vec<u8> = encode_reask_file_ping(
        file_hash,
        part_status,
        complete_source_count,
        our_udp_version,
    );
    frame_packet(OP_REASKFILEPING, body.as_slice(), target)
}

/// Makes the bytes of a ping.
pub fn build_reask_file_ping_datagram(
    file_hash: &Ed2kHash,
    part_status: Option<&[bool]>,
    complete_source_count: u16,
    our_udp_version: u8,
    target: &OutboundReaskTarget,
) -> (r: Vec<u8>)
    ensures
        carries(
            r@,
            OP_REASKFILEPING,
            file_ping_body(
                file_hash.0@,
                opt_parts_ref(part_status),
                complete_source_count,
                our_udp_version,
            ),
            *target,
        ),
{
    build_reask_file_ping_packet(
        file_hash,
        part_status,
        complete_source_count,
        our_udp_version,
        target,
    ).bytes
}

/// Makes an answer with a queue position.
pub fn build_reask_ack_packet(
    part_status: Option<&[bool]>,
    queue_position: u16,
    peer_udp_version: u8,
    target: &OutboundReaskTarget,
) -> (r: ClientUdpDatagram)
    ensures
        is_datagram(
            r,
            OP_REASKACK,
            ack_body(opt_parts_ref(part_status), queue_position, peer_udp_version),
            *target,
        ),
{
    let body: Vec<u8> = encode_reask_ack(part_status, queue_position, peer_udp_version);
    frame_packet(OP_REASKACK, body.as_slice(), target)
}

/// Makes the bytes of an answer with a queue position.
pub fn build_reask_ack_datagram(
    part_status: Option<&[bool]>,
    queue_position: u16,
    peer_udp_version: u8,
    target: &OutboundReaskTarget,
) -> (r: Vec<u8>)
    ensures
        carries(
            r@,
            OP_REASKACK,
            ack_body(opt_parts_ref(part_status), queue_position, peer_udp_version),
            *target,
        ),
{
    build_reask_ack_packet(part_status, queue_position, peer_udp_version, target).bytes
}

fn frame_empty(opcode: u8, target: &OutboundReaskTarget) -> (r: ClientUdpDatagram)
    ensures
        is_datagram(r, opcode, Seq::empty(), *target),
{
    let body: Vec<u8> = Vec::new();
    assert(body@ =~= Seq::empty());
    frame_packet(opcode, body.as_slice(), target)
}

/// Makes the answer that the queue is full.
pub fn build_queue_full_packet(target: &OutboundReaskTarget) -> (r: ClientUdpDatagram)
    ensures
        is_datagram(r, OP_QUEUEFULL, Seq::empty(), *target),
{
    frame_empty(OP_QUEUEFULL, target)
}

/// Makes the bytes of the answer that the queue is full.
pub fn build_queue_full_datagram(target: &OutboundReaskTarget) -> (r: Vec<u8>)
    ensures
        carries(r@, OP_QUEUEFULL, Seq::empty(), *target),
{
    build_queue_full_packet(target).bytes
}

/// Makes the answer that the file is not there.
pub fn build_file_not_found_packet(target: &OutboundReaskTarget) -> (r: ClientUdpDatagram)
    ensures
        is_datagram(r, OP_FILENOTFOUND, Seq::empty(), *target),
{
    frame_empty(OP_FILENOTFOUND, target)
}

/// Makes the bytes of the answer that the file is not there.
pub fn build_file_not_found_datagram(target: &OutboundReaskTarget) -> (r: Vec<u8>)
    ensures
        carries(r@, OP_FILENOTFOUND, Seq::empty(), *target),
{
    build_file_not_found_packet(target).bytes
}

/// Makes a reask over a buddy. It always goes in clear: what the buddy
/// understands is not known.
pub fn build_reask_callback_udp_packet(
    buddy_id: &Ed2kHash,
    file_hash: &Ed2kHash,
    part_status: Option<&[bool]>,
    complete_source_count: u16,
    our_udp_version: u8,
) -> (r: ClientUdpDatagram)
    ensures
        ({
            let body = callback_udp_body(
                buddy_id.0@,
                file_hash.0@,
                opt_parts_ref(part_status),
                complete_source_count,
                our_udp_version,
            );
            &&& r.bytes@ == plain_frame(OP_REASKCALLBACKUDP, body)
            &&& r.protocol_marker == OP_EMULEPROT
            &&& r.opcode == OP_REASKCALLBACKUDP
            &&& r.payload@ == body
            &&& !r.obfuscated
        }),
{
    let body: Vec<u8> = encode_reask_callback_udp(
        buddy_id,
        file_hash,
        part_status,
        complete_source_count,
        our_udp_version,
    );
    let mut bytes: Vec<u8> = Vec::with_capacity(body.len());
    bytes.push(OP_EMULEPROT);
    bytes.push(OP_REASKCALLBACKUDP);
    push_all(&mut bytes, body.as_slice());
    assert(bytes@ =~= plain_frame(OP_REASKCALLBACKUDP, body@));
    ClientUdpDatagram {
        bytes,
        protocol_marker: OP_EMULEPROT,
        opcode: OP_REASKCALLBACKUDP,
        payload: body,
        obfuscated: false,
    }
}

/// Makes the bytes of a reask over a buddy.
pub fn build_reask_callback_udp_datagram(
    buddy_id: &Ed2kHash,
    file_hash: &Ed2kHash,
    part_status: Option<&[bool]>,
    complete_source_count: u16,
    our_udp_version: u8,
) -> (r: Vec<u8>)
    ensures
        r@ == plain_frame(
            OP_REASKCALLBACKUDP,
            callback_udp_body(
                buddy_id.0@,
                file_hash.0@,
                opt_parts_ref(part_status),
                complete_source_count,
                our_udp_version,
            ),
        ),
{
    build_reask_callback_udp_packet(
        buddy_id,
        file_hash,
        part_status,
        complete_source_count,
        our_udp_version,
    ).bytes
}

/// A message in clear is the protocol byte, its opcode and its body.
pub proof fn law_message_in_clear(
    opcode: u8,
    body: Seq<u8>,
    target: OutboundReaskTarget,
    r: u16,
    m: u8,
)
    ensures
        plain_frame(opcode, body).len() == 2 + body.len(),
        plain_frame(opcode, body)[0] == 0xC5,
        plain_frame(opcode, body)[1] == opcode,
        plain_frame(opcode, body).skip(2) == body,
        !target.obfuscate ==> wire_bytes(opcode, body, target, r, m) == plain_frame(opcode, body),
        target.obfuscate ==> wire_bytes(opcode, body, target, r, m) == obfuscated_client_udp(
            target.dest_user_hash@,
            target.our_public_ip@,
            plain_frame(opcode, body),
            r,
            m,
        ),
{
    assert(plain_frame(opcode, body).skip(2) =~= body);
}

} // verus!
