//! How to answer a peer that keeps its place in the queue of this client.
use vstd::prelude::*;

use super::codec::{ack_body, opt_parts_ref, OP_FILENOTFOUND, OP_QUEUEFULL, OP_REASKACK};
use super::outbound::{
    build_file_not_found_packet, build_queue_full_packet, build_reask_ack_packet, is_datagram,
    ClientUdpDatagram, OutboundReaskTarget,
};

verus! {

/// How close to full the queue counts as full.
pub const QUEUE_FULL_MARGIN: u32 = 50;

/// What is known of a peer that reasks, and of the queue.
#[derive(Debug, Clone, Copy, PartialEq, Eq, Structural)]
pub struct InboundReaskRequest {
    /// Whether the file is shared.
    pub file_shared: bool,
    /// Whether the peer is in the queue.
    pub sender_located: bool,
    /// Whether the peer is in the queue for this file.
    pub file_matches: bool,
    /// The place of the peer in the queue.
    pub waiting_position: u16,
    /// Whether several clients share the address of the peer.
    pub sender_multiple_ip_unknown: bool,
    pub waiting_user_count: u32,
    pub queue_size: u32,
}

/// How to answer.
#[derive(Debug, Clone, Copy, PartialEq, Eq, Structural)]
pub enum InboundReaskAnswer {
    /// With the place in the queue.
    Ack { queue_position: u16 },
    /// That the file is not there.
    FileNotFound,
    /// That the queue is full.
    QueueFull,
    /// Not at all, so that the peer connects.
    Silent,
}

/// How to answer a peer that reasks.
pub open spec fn reask_answer(req: InboundReaskRequest) -> InboundReaskAnswer {
    if !req.file_shared {
        InboundReaskAnswer::FileNotFound
    } else if req.sender_located && req.file_matches {
        InboundReaskAnswer::Ack { queue_position: req.waiting_position }
    } else if !req.sender_located && !req.sender_multiple_ip_unknown && req.waiting_user_count
        + QUEUE_FULL_MARGIN > req.queue_size {
        InboundReaskAnswer::QueueFull
    } else {
        InboundReaskAnswer::Silent
    }
}

/// How to answer a peer that reasks.
pub fn answer_inbound_reask(req: &InboundReaskRequest) -> (r: InboundReaskAnswer)
    ensures
        r == reask_answer(*req),
{
    if !req.file_shared {
        return InboundReaskAnswer::FileNotFound;
    }
    if req.sender_located {
        if req.file_matches {
            InboundReaskAnswer::Ack { queue_position: req.waiting_position }
        } else {
            InboundReaskAnswer::Silent
        }
    } else if req.sender_multiple_ip_unknown {
        InboundReaskAnswer::Silent
    } else if req.waiting_user_count as u64 + QUEUE_FULL_MARGIN as u64 > req.queue_size as u64 {
        InboundReaskAnswer::QueueFull
    } else {
        InboundReaskAnswer::Silent
    }
}

/// Makes the datagram of an answer; none for silence.
pub fn build_reask_answer(
    answer: InboundReaskAnswer,
    part_status: Option<&[bool]>,
    peer_udp_version: u8,
    target: &OutboundReaskTarget,
) -> (r: Option<ClientUdpDatagram>)
    ensures
        match answer {
            InboundReaskAnswer::Ack { queue_position } => r matches Some(d) && is_datagram(
                d,
                OP_REASKACK,
                ack_body(opt_parts_ref(part_status), queue_position, peer_udp_version),
                *target,
            ),
            InboundReaskAnswer::FileNotFound => r matches Some(d) && is_datagram(
                d,
                OP_FILENOTFOUND,
                Seq::empty(),
                *target,
            ),
            InboundReaskAnswer::QueueFull => r matches Some(d) && is_datagram(
                d,
                OP_QUEUEFULL,
                Seq::empty(),
                *target,
            ),
            InboundReaskAnswer::Silent => r is None,
        },
{
    match answer {
        InboundReaskAnswer::Ack { queue_position } => Some(
            build_reask_ack_packet(part_status, queue_position, peer_udp_version, target),
        ),
        InboundReaskAnswer::FileNotFound => Some(build_file_not_found_packet(target)),
        InboundReaskAnswer::QueueFull => Some(build_queue_full_packet(target)),
        InboundReaskAnswer::Silent => None,
    }
}

/// A place in the queue is told only to a peer that has it, for the file it
/// asks for.
pub proof fn law_only_queued_peers_learn_their_place(req: InboundReaskRequest)
    requires
        reask_answer(req) is Ack,
    ensures
        req.file_shared && req.sender_located && req.file_matches,
{
}

/// A peer in the queue for the file is told its place and nothing else; a peer
/// in the queue for another file hears nothing.
pub proof fn law_queued_peer_is_answered(req: InboundReaskRequest)
    requires
        req.file_shared,
        req.sender_located,
    ensures
        req.file_matches ==> reask_answer(req) == (InboundReaskAnswer::Ack {
            queue_position: req.waiting_position,
        }),
        !req.file_matches ==> reask_answer(req) == InboundReaskAnswer::Silent,
{
}

/// A peer that is not in the queue is told that it is full where fewer than
/// fifty places are left, unless several clients share its address. Whoever asks
/// for a file that is not shared is told that.
pub proof fn law_unknown_peer_is_answered(req: InboundReaskRequest)
    ensures
        reask_answer(req) == InboundReaskAnswer::FileNotFound <==> !req.file_shared,
        req.file_shared && !req.sender_located && !req.sender_multiple_ip_unknown ==> (reask_answer(
            req,
        ) == InboundReaskAnswer::QueueFull <==> req.queue_size - req.waiting_user_count < 50),
        req.file_shared && !req.sender_located && req.sender_multiple_ip_unknown ==> reask_answer(
            req,
        ) == InboundReaskAnswer::Silent,
        req.file_shared && !req.sender_located && req.queue_size - req.waiting_user_count >= 50
            ==> reask_answer(req) == InboundReaskAnswer::Silent,
{
}

} // verus!
