//! The datagrams that come in.
//!
//! A datagram in clear opens with the protocol marker; any other may be an
//! obfuscated one that is meant for this client, or not for it at all.
use vstd::prelude::*;

use super::codec::{
    ack_body, ack_from, callback_udp_body, decode_direct_callback_req, decode_forwarded_reask,
    decode_reask_ack, decode_reask_file_ping, direct_callback_body, direct_callback_from,
    file_ping_body, file_ping_from, forwarded_from, heard_count, heard_parts, AckView,
    DirectCallbackReq, DirectCallbackView, FilePingView, ForwardedReask, ForwardedView, ReaskAck,
    ReaskFilePing, OP_DIRECTCALLBACKREQ, OP_FILENOTFOUND, OP_QUEUEFULL, OP_REASKACK,
    OP_REASKCALLBACKUDP, OP_REASKFILEPING,
};
use super::outbound::{carries, plain_frame, wire_bytes, OutboundReaskTarget};
use crate::bytes::suffix;
use crate::ed2k_client_udp_obfuscation::{
    deobfuscate_client_udp, law_obfuscated_packet_is_revealed, reserved_marker,
    revealed_client_udp, OP_EMULEPROT,
};

verus! {

/// A message that came in.
#[derive(Debug, Clone, PartialEq, Eq)]
pub enum InboundReaskMessage {
    /// A peer in the queue of this client keeps its place.
    FilePing(ReaskFilePing),
    /// A source tells the place in its queue.
    Ack(ReaskAck),
    /// The queue of a source is full.
    QueueFull,
    /// A source does not have the file any more.
    FileNotFound,
    /// A reask to pass on to the client that is served.
    CallbackUdp(ForwardedReask),
    /// A peer that cannot connect asks to be connected to.
    DirectCallbackReq(DirectCallbackReq),
}

/// A message that came in.
pub enum MessageView {
    FilePing(FilePingView),
    Ack(AckView),
    QueueFull,
    FileNotFound,
    CallbackUdp(ForwardedView),
    DirectCallbackReq(DirectCallbackView),
}

impl View for InboundReaskMessage {
    type V = MessageView;

    open spec fn view(&self) -> MessageView {
        match *self {
            InboundReaskMessage::FilePing(p) => MessageView::FilePing(p@),
            InboundReaskMessage::Ack(a) => MessageView::Ack(a@),
            InboundReaskMessage::QueueFull => MessageView::QueueFull,
            InboundReaskMessage::FileNotFound => MessageView::FileNotFound,
            InboundReaskMessage::CallbackUdp(c) => MessageView::CallbackUdp(c@),
            InboundReaskMessage::DirectCallbackReq(d) => MessageView::DirectCallbackReq(d@),
        }
    }
}

/// The message that a frame in clear is.
pub open spec fn message_of(frame: Seq<u8>, our_udp_version: u8) -> Option<MessageView> {
    if frame.len() < 2 || frame[0] != OP_EMULEPROT {
        None
    } else {
        let body = frame.skip(2);
        if frame[1] == OP_REASKFILEPING {
            match file_ping_from(body, our_udp_version) {
                Ok(p) => Some(MessageView::FilePing(p)),
                Err(_) => None,
            }
        } else if frame[1] == OP_REASKACK {
            match ack_from(body, our_udp_version) {
                Ok(a) => Some(MessageView::Ack(a)),
                Err(_) => None,
            }
        } else if frame[1] == OP_QUEUEFULL {
            Some(MessageView::QueueFull)
        } else if frame[1] == OP_FILENOTFOUND {
            Some(MessageView::FileNotFound)
        } else if frame[1] == OP_REASKCALLBACKUDP {
            match forwarded_from(body) {
                Ok(f) => Some(MessageView::CallbackUdp(f)),
                Err(_) => None,
            }
        } else if frame[1] == OP_DIRECTCALLBACKREQ {
            match direct_callback_from(body) {
                Ok(d) => Some(MessageView::DirectCallbackReq(d)),
                Err(_) => None,
            }
        } else {
            None
        }
    }
}

/// The message that a datagram from `sender_ip` is to the client with
/// `our_user_hash`, if it is one.
pub open spec fn parsed_reask(
    datagram: Seq<u8>,
    sender_ip: Seq<u8>,
    our_user_hash: Seq<u8>,
    our_udp_version: u8,
) -> Option<MessageView> {
    if datagram.len() > 0 && datagram[0] == OP_EMULEPROT {
        message_of(datagram, our_udp_version)
    } else {
        match revealed_client_udp(our_user_hash, sender_ip, datagram) {
            Some(frame) => message_of(frame, our_udp_version),
            None => None,
        }
    }
}

fn decode_frame(frame: &[u8], our_udp_version: u8) -> (r: Option<InboundReaskMessage>)
    ensures
        match r {
            Some(m) => message_of(frame@, our_udp_version) == Some(m@),
            None => message_of(frame@, our_udp_version) is None,
        },
{
    if frame.len() < 2 || frame[0] != OP_EMULEPROT {
        return None;
    }
    let body: &[u8] = suffix(frame, 2);
    let opcode: u8 = frame[1];
    if opcode == OP_REASKFILEPING {
        match decode_reask_file_ping(body, our_udp_version) {
            Ok(p) => Some(InboundReaskMessage::FilePing(p)),
            Err(_) => None,
        }
    } else if opcode == OP_REASKACK {
        match decode_reask_ack(body, our_udp_version) {
            Ok(a) => Some(InboundReaskMessage::Ack(a)),
            Err(_) => None,
        }
    } else if opcode == OP_QUEUEFULL {
        Some(InboundReaskMessage::QueueFull)
    } else if opcode == OP_FILENOTFOUND {
        Some(InboundReaskMessage::FileNotFound)
    } else if opcode == OP_REASKCALLBACKUDP {
        match decode_forwarded_reask(body) {
            Ok(f) => Some(InboundReaskMessage::CallbackUdp(f)),
            Err(_) => None,
        }
    } else if opcode == OP_DIRECTCALLBACKREQ {
        match decode_direct_callback_req(body) {
            Ok(d) => Some(InboundReaskMessage::DirectCallbackReq(d)),
            Err(_) => None,
        }
    } else {
        None
    }
}

/// Reads a datagram from `sender_ip`. It is nothing where it is not a message
/// for this client.
pub fn parse_inbound_reask_datagram(
    datagram: &[u8],
    sender_ip: [u8; 4],
    our_user_hash: &[u8; 16],
    our_udp_version: u8,
) -> (r: Option<InboundReaskMessage>)
    ensures
        match r {
            Some(m) => parsed_reask(datagram@, sender_ip@, our_user_hash@, our_udp_version)
                == Some(m@),
            None => parsed_reask(datagram@, sender_ip@, our_user_hash@, our_udp_version) is None,
        },
{
    if datagram.len() > 0 && datagram[0] == OP_EMULEPROT {
        return decode_frame(datagram, our_udp_version);
    }
    match deobfuscate_client_udp(our_user_hash, sender_ip, datagram) {
        Some(frame) => decode_frame(frame.as_slice(), our_udp_version),
        None => None,
    }
}

// ---------------------------------------------------------------------------
// Laws
// ---------------------------------------------------------------------------
/// What goes out to a client comes in at that client as it was, in clear or
/// obfuscated.
pub proof fn law_datagram_arrives(
    bytes: Seq<u8>,
    opcode: u8,
    body: Seq<u8>,
    target: OutboundReaskTarget,
    udp_version: u8,
)
    requires
        carries(bytes, opcode, body, target),
    ensures
        parsed_reask(bytes, target.our_public_ip@, target.dest_user_hash@, udp_version)
            == message_of(plain_frame(opcode, body), udp_version),
{
    let (random_key_part, marker) = choose|random_key_part: u16, marker: u8|
        bytes == #[trigger] wire_bytes(opcode, body, target, random_key_part, marker);
    let plain = plain_frame(opcode, body);
    if target.obfuscate {
        law_obfuscated_packet_is_revealed(
            target.dest_user_hash@,
            target.our_public_ip@,
            plain,
            random_key_part,
            marker,
        );
        if bytes[0] == OP_EMULEPROT {
            assert(reserved_marker(bytes[0]));
        }
    } else {
        assert(bytes[0] == OP_EMULEPROT);
    }
}

/// A ping says at its receiver what its sender said.
pub proof fn law_file_ping_arrives(
    file_hash: Seq<u8>,
    part_status: Option<Seq<bool>>,
    count: u16,
    udp_version: u8,
)
    requires
        file_hash.len() == 16,
        part_status matches Some(parts) ==> 0 < parts.len() <= u16::MAX,
    ensures
        message_of(
            plain_frame(
                OP_REASKFILEPING,
                file_ping_body(file_hash, part_status, count, udp_version),
            ),
            udp_version,
        ) == Some(
            MessageView::FilePing(
                (FilePingView {
                    file_hash,
                    part_status: heard_parts(part_status, udp_version),
                    complete_source_count: heard_count(count, udp_version),
                }),
            ),
        ),
{
    let body = file_ping_body(file_hash, part_status, count, udp_version);
    super::codec::law_file_ping_reads_back(file_hash, part_status, count, udp_version);
    assert(plain_frame(OP_REASKFILEPING, body).skip(2) =~= body);
}

/// An answer says at its receiver what its sender said.
pub proof fn law_ack_arrives(part_status: Option<Seq<bool>>, queue_position: u16, udp_version: u8)
    requires
        part_status matches Some(parts) ==> 0 < parts.len() <= u16::MAX,
    ensures
        message_of(
            plain_frame(OP_REASKACK, ack_body(part_status, queue_position, udp_version)),
            udp_version,
        ) == Some(
            MessageView::Ack(
                (AckView { part_status: heard_parts(part_status, udp_version), queue_position }),
            ),
        ),
        message_of(plain_frame(OP_QUEUEFULL, Seq::empty()), udp_version) == Some(
            MessageView::QueueFull,
        ),
        message_of(plain_frame(OP_FILENOTFOUND, Seq::empty()), udp_version) == Some(
            MessageView::FileNotFound,
        ),
{
    let body = ack_body(part_status, queue_position, udp_version);
    super::codec::law_ack_reads_back(part_status, queue_position, udp_version);
    assert(plain_frame(OP_REASKACK, body).skip(2) =~= body);
}

/// A request for a direct callback says at its receiver what its sender said.
pub proof fn law_direct_callback_arrives(v: DirectCallbackView, udp_version: u8)
    requires
        v.user_hash.len() == 16,
    ensures
        message_of(plain_frame(OP_DIRECTCALLBACKREQ, direct_callback_body(v)), udp_version)
            == Some(MessageView::DirectCallbackReq(v)),
{
    let body = direct_callback_body(v);
    super::codec::law_direct_callback_reads_back(v);
    assert(plain_frame(OP_DIRECTCALLBACKREQ, body).skip(2) =~= body);
}

/// A reask over a buddy arrives at the buddy as the ping to pass on, whatever
/// version the buddy speaks.
pub proof fn law_callback_udp_arrives(
    buddy_id: Seq<u8>,
    file_hash: Seq<u8>,
    part_status: Option<Seq<bool>>,
    count: u16,
    sender_udp_version: u8,
    buddy_udp_version: u8,
)
    requires
        buddy_id.len() == 16,
        file_hash.len() == 16,
    ensures
        message_of(
            plain_frame(
                OP_REASKCALLBACKUDP,
                callback_udp_body(buddy_id, file_hash, part_status, count, sender_udp_version),
            ),
            buddy_udp_version,
        ) == Some(
            MessageView::CallbackUdp(
                (ForwardedView {
                    buddy_id,
                    file_hash,
                    forwarded_tail: file_ping_body(
                        file_hash,
                        part_status,
                        count,
                        sender_udp_version,
                    ),
                }),
            ),
        ),
{
    let ping = file_ping_body(file_hash, part_status, count, sender_udp_version);
    let body = callback_udp_body(buddy_id, file_hash, part_status, count, sender_udp_version);
    assert(plain_frame(OP_REASKCALLBACKUDP, body).skip(2) =~= body);
    assert(body.take(16) =~= buddy_id);
    assert(body.skip(16) =~= ping);
    assert(body.subrange(16, 32) =~= file_hash);
}

/// Each opcode has its own message, and no other protocol byte or opcode has
/// any.
pub proof fn law_messages_are_told_by_their_opcodes(opcode: u8, body: Seq<u8>, version: u8)
    ensures
        ({
            let m = message_of(seq![0xC5u8, opcode] + body, version);
            &&& m is Some && m->Some_0 is FilePing ==> opcode == 0x90
            &&& m is Some && m->Some_0 is Ack ==> opcode == 0x91
            &&& m == Some(MessageView::FileNotFound) <==> opcode == 0x92
            &&& m == Some(MessageView::QueueFull) <==> opcode == 0x93
            &&& m is Some && m->Some_0 is CallbackUdp ==> opcode == 0x94
            &&& m is Some && m->Some_0 is DirectCallbackReq ==> opcode == 0x95
            &&& opcode == 0x90 ==> (file_ping_from(body, version) matches Ok(p) ==> m == Some(
                MessageView::FilePing(p),
            ))
            &&& opcode == 0x91 ==> (ack_from(body, version) matches Ok(a) ==> m == Some(
                MessageView::Ack(a),
            ))
            &&& opcode == 0x94 ==> (forwarded_from(body) matches Ok(f) ==> m == Some(
                MessageView::CallbackUdp(f),
            ))
            &&& opcode == 0x95 ==> (direct_callback_from(body) matches Ok(d) ==> m == Some(
                MessageView::DirectCallbackReq(d),
            ))
        }),
        forall|b: Seq<u8>|
            #![trigger message_of(b, version)]
            b.len() < 2 || b[0] != 0xC5 ==> message_of(b, version) is None,
{
    let f = seq![0xC5u8, opcode] + body;
    assert(f.skip(2) =~= body);
}

} // verus!
