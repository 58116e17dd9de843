//! What a trace of client datagrams says.
use vstd::prelude::*;

use super::codec::{
    OP_DIRECTCALLBACKREQ, OP_FILENOTFOUND, OP_QUEUEFULL, OP_REASKACK, OP_REASKCALLBACKUDP,
    OP_REASKFILEPING,
};
use super::outbound::{carries, plain_frame, wire_bytes, OutboundReaskTarget};
use crate::addr::SocketAddr;
use crate::bytes::{suffix, to_vec};
use crate::ed2k_client_udp_obfuscation::{
    deobfuscate_client_udp, reserved_marker, revealed_client_udp, OP_EMULEPROT,
};
use crate::hexadecimal::{hex_encode, hexed};
use crate::ipv6::{socket_text, socket_to_text};

verus! {

/// What the names of trace files start with.
pub const CLIENT_UDP_DUMP_FILE_PREFIX: &'static str = "emulebb-rust-ed2k-client-udp-dump-";

/// The most bytes of a datagram that a trace shows.
pub const MAX_CLIENT_UDP_DUMP_HEX_BYTES: usize = 4096;

/// A datagram as a trace shows it.
#[derive(Debug, PartialEq, Eq)]
pub struct DecodedClientUdpDatagram {
    pub protocol_marker: u8,
    pub opcode: u8,
    pub payload: Vec<u8>,
    /// Whether it came obfuscated.
    pub obfuscated: bool,
}

/// A datagram as a trace shows it.
pub struct DecodedView {
    pub protocol_marker: u8,
    pub opcode: u8,
    pub payload: Seq<u8>,
    pub obfuscated: bool,
}

impl View for DecodedClientUdpDatagram {
    type V = DecodedView;

    open spec fn view(&self) -> DecodedView {
        DecodedView {
            protocol_marker: self.protocol_marker,
            opcode: self.opcode,
            payload: self.payload@,
            obfuscated: self.obfuscated,
        }
    }
}

impl DecodedClientUdpDatagram {
    /// How the datagram went, in the words of a trace.
    pub fn transport_mode(&self) -> (r: &'static str)
        ensures
            r@ == if self.obfuscated {
                "obfuscated"@
            } else {
                "plaintext"@
            },
    {
        if self.obfuscated {
            "obfuscated"
        } else {
            "plaintext"
        }
    }
}

/// A frame as a trace shows it.
pub open spec fn shown_frame(frame: Seq<u8>, obfuscated: bool) -> Option<DecodedView> {
    if frame.len() < 2 {
        None
    } else {
        Some(
            DecodedView {
                protocol_marker: frame[0],
                opcode: frame[1],
                payload: frame.skip(2),
                obfuscated,
            },
        )
    }
}

/// A datagram as a trace shows it; nothing where it is not for this client.
pub open spec fn shown_datagram(
    our_user_hash: Seq<u8>,
    sender_ip: Seq<u8>,
    datagram: Seq<u8>,
) -> Option<DecodedView> {
    if datagram.len() >= 2 && datagram[0] == OP_EMULEPROT {
        shown_frame(datagram, false)
    } else {
        match revealed_client_udp(our_user_hash, sender_ip, datagram) {
            Some(frame) => shown_frame(frame, true),
            None => None,
        }
    }
}

/// Reads a datagram for the trace.
pub fn decode_client_udp_for_dump(
    our_user_hash: &[u8; 16],
    sender_ip: [u8; 4],
    datagram: &[u8],
) -> (r: Option<DecodedClientUdpDatagram>)
    ensures
        match r {
            Some(d) => shown_datagram(our_user_hash@, sender_ip@, datagram@) == Some(d@),
            None => shown_datagram(our_user_hash@, sender_ip@, datagram@) is None,
        },
{
    if datagram.len() >= 2 && datagram[0] == OP_EMULEPROT {
        return Some(
            DecodedClientUdpDatagram {
                protocol_marker: datagram[0],
                opcode: datagram[1],
                payload: to_vec(suffix(datagram, 2)),
                obfuscated: false,
            },
        );
    }
    let frame: Vec<u8> = match deobfuscate_client_udp(our_user_hash, sender_ip, datagram) {
        Some(frame) => frame,
        None => return None,
    };
    if frame.len() < 2 {
        return None;
    }
    Some(
        DecodedClientUdpDatagram {
            protocol_marker: frame[0],
            opcode: frame[1],
            payload: to_vec(suffix(frame.as_slice(), 2)),
            obfuscated: true,
        },
    )
}

/// The name of a message.
pub open spec fn opcode_name(opcode: u8) -> Seq<char> {
    if opcode == OP_REASKFILEPING {
        "OP_REASKFILEPING"@
    } else if opcode == OP_REASKACK {
        "OP_REASKACK"@
    } else if opcode == OP_FILENOTFOUND {
        "OP_FILENOTFOUND"@
    } else if opcode == OP_QUEUEFULL {
        "OP_QUEUEFULL"@
    } else if opcode == OP_REASKCALLBACKUDP {
        "OP_REASKCALLBACKUDP"@
    } else if opcode == OP_DIRECTCALLBACKREQ {
        "OP_DIRECTCALLBACKREQ"@
    } else {
        "UNKNOWN"@
    }
}

/// The name of a message.
pub fn client_udp_opcode_name(opcode: u8) -> (r: &'static str)
    ensures
        r@ == opcode_name(opcode),
{
    if opcode == OP_REASKFILEPING {
        "OP_REASKFILEPING"
    } else if opcode == OP_REASKACK {
        "OP_REASKACK"
    } else if opcode == OP_FILENOTFOUND {
        "OP_FILENOTFOUND"
    } else if opcode == OP_QUEUEFULL {
        "OP_QUEUEFULL"
    } else if opcode == OP_REASKCALLBACKUDP {
        "OP_REASKCALLBACKUDP"
    } else if opcode == OP_DIRECTCALLBACKREQ {
        "OP_DIRECTCALLBACKREQ"
    } else {
        "UNKNOWN"
    }
}

/// The name of a protocol.
pub fn client_udp_protocol_name(protocol_marker: u8) -> (r: &'static str)
    ensures
        r@ == if protocol_marker == OP_EMULEPROT {
            "emule"@
        } else {
            "unknown"@
        },
{
    if protocol_marker == OP_EMULEPROT {
        "emule"
    } else {
        "unknown"
    }
}

/// The key that ties the datagrams of one peer together in a trace.
pub fn client_udp_trace_key(remote_addr: SocketAddr) -> (r: String)
    ensures
        r@ == "client_udp:"@ + socket_text(remote_addr),
{
    let mut key: String = "client_udp:".to_owned();
    key.append(socket_to_text(remote_addr).as_str());
    key
}

/// The bytes of a datagram that a trace shows.
pub open spec fn shown_bytes(bytes: Seq<u8>, most: int) -> Seq<u8> {
    if bytes.len() > most {
        bytes.take(most)
    } else {
        bytes
    }
}

/// The bytes of a datagram in hexadecimal as a trace shows them, and whether
/// they were cut.
pub fn capped_packet_hex(bytes: &[u8]) -> (r: (String, bool))
    ensures
        r.0@ == hexed(shown_bytes(bytes@, MAX_CLIENT_UDP_DUMP_HEX_BYTES as int)),
        r.1 == (bytes@.len() > MAX_CLIENT_UDP_DUMP_HEX_BYTES),
{
    if bytes.len() > MAX_CLIENT_UDP_DUMP_HEX_BYTES {
        let shown: &[u8] = vstd::slice::slice_subrange(bytes, 0, MAX_CLIENT_UDP_DUMP_HEX_BYTES);
        assert(shown@ =~= shown_bytes(bytes@, MAX_CLIENT_UDP_DUMP_HEX_BYTES as int));
        (hex_encode(shown), true)
    } else {
        (hex_encode(bytes), false)
    }
}

/// The trace of the receiver shows what the sender sent, and whether it went
/// in clear.
pub proof fn law_trace_shows_what_was_sent(
    bytes: Seq<u8>,
    opcode: u8,
    body: Seq<u8>,
    target: OutboundReaskTarget,
)
    requires
        carries(bytes, opcode, body, target),
    ensures
        shown_datagram(target.dest_user_hash@, target.our_public_ip@, bytes) == Some(
            (DecodedView {
                protocol_marker: OP_EMULEPROT,
                opcode,
                payload: body,
                obfuscated: target.obfuscate,
            }),
        ),
{
    let (random_key_part, marker) = choose|random_key_part: u16, marker: u8|
        bytes == #[trigger] wire_bytes(opcode, body, target, random_key_part, marker);
    let plain = plain_frame(opcode, body);
    assert(plain.skip(2) =~= body);
    if target.obfuscate {
        crate::ed2k_client_udp_obfuscation::law_obfuscated_packet_is_revealed(
            target.dest_user_hash@,
            target.our_public_ip@,
            plain,
            random_key_part,
            marker,
        );
        if bytes[0] == OP_EMULEPROT {
            assert(reserved_marker(bytes[0]));
        }
    }
}

/// Each message is shown under its own name, and any other as unknown.
pub proof fn law_messages_have_their_names(opcode: u8)
    ensures
        opcode == 0x90 ==> opcode_name(opcode) == "OP_REASKFILEPING"@,
        opcode == 0x91 ==> opcode_name(opcode) == "OP_REASKACK"@,
        opcode == 0x92 ==> opcode_name(opcode) == "OP_FILENOTFOUND"@,
        opcode == 0x93 ==> opcode_name(opcode) == "OP_QUEUEFULL"@,
        opcode == 0x94 ==> opcode_name(opcode) == "OP_REASKCALLBACKUDP"@,
        opcode == 0x95 ==> opcode_name(opcode) == "OP_DIRECTCALLBACKREQ"@,
        opcode < 0x90 || opcode > 0x95 ==> opcode_name(opcode) == "UNKNOWN"@,
{
}

/// A trace shows the bytes up to its limit, from the first on.
pub proof fn law_trace_shows_the_first_bytes(bytes: Seq<u8>, most: int)
    requires
        most >= 0,
    ensures
        bytes.len() <= most ==> shown_bytes(bytes, most) == bytes,
        bytes.len() > most ==> shown_bytes(bytes, most) == bytes.take(most),
{
}

} // verus!
