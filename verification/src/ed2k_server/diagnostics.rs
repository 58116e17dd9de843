//! Names for packet traces.
use vstd::prelude::*;

use super::{
    OP_CALLBACKREQUEST,
    OP_CALLBACKREQUESTED,
    OP_CALLBACK_FAIL,
    OP_FOUNDSOURCES,
    OP_FOUNDSOURCES_OBFU,
    OP_GETSERVERLIST,
    OP_GETSOURCES,
    OP_GETSOURCES_OBFU,
    OP_GLOBFOUNDSOURCES,
    OP_GLOBGETSOURCES,
    OP_GLOBGETSOURCES2,
    OP_GLOBSEARCHREQ,
    OP_GLOBSEARCHREQ2,
    OP_GLOBSEARCHREQ3,
    OP_GLOBSEARCHRES,
    OP_GLOBSERVSTATREQ,
    OP_GLOBSERVSTATRES,
    OP_IDCHANGE,
    OP_LOGINREQUEST,
    OP_OFFERFILES,
    OP_QUERY_MORE_RESULT,
    OP_REJECT,
    OP_SEARCHREQUEST,
    OP_SEARCHRESULT,
    OP_SERVERIDENT,
    OP_SERVERLIST,
    OP_SERVERMESSAGE,
    OP_SERVERSTATUS,
};
use crate::addr::{host_port_text, host_port_to_text, ipv4_text, ipv4_to_text, SocketAddrV4};
use crate::hexadecimal::{hex_encode, hexed};

verus! {

/// What the name of a server packet trace starts with.
pub const ED2K_SERVER_DUMP_FILE_PREFIX: &'static str = "emulebb-rust-ed2k-server-dump-";

/// How many payload bytes a trace shows.
pub const MAX_SERVER_DUMP_HEX_BYTES: usize = 4096;

/// The name of a server opcode.
pub open spec fn opcode_name(opcode: u8) -> Seq<char> {
    if opcode == OP_LOGINREQUEST {
        "OP_LOGINREQUEST"@
    } else if opcode == OP_GETSERVERLIST {
        "OP_GETSERVERLIST"@
    } else if opcode == OP_OFFERFILES {
        "OP_OFFERFILES"@
    } else if opcode == OP_SEARCHREQUEST {
        "OP_SEARCHREQUEST"@
    } else if opcode == OP_GETSOURCES {
        "OP_GETSOURCES"@
    } else if opcode == OP_GETSOURCES_OBFU {
        "OP_GETSOURCES_OBFU"@
    } else if opcode == OP_QUERY_MORE_RESULT {
        "OP_QUERY_MORE_RESULT"@
    } else if opcode == OP_SERVERLIST {
        "OP_SERVERLIST"@
    } else if opcode == OP_SEARCHRESULT {
        "OP_SEARCHRESULT"@
    } else if opcode == OP_SERVERSTATUS {
        "OP_SERVERSTATUS"@
    } else if opcode == OP_CALLBACKREQUEST {
        "OP_CALLBACKREQUEST"@
    } else if opcode == OP_CALLBACKREQUESTED {
        "OP_CALLBACKREQUESTED"@
    } else if opcode == OP_CALLBACK_FAIL {
        "OP_CALLBACK_FAIL"@
    } else if opcode == OP_SERVERMESSAGE {
        "OP_SERVERMESSAGE"@
    } else if opcode == OP_IDCHANGE {
        "OP_IDCHANGE"@
    } else if opcode == OP_SERVERIDENT {
        "OP_SERVERIDENT"@
    } else if opcode == OP_FOUNDSOURCES {
        "OP_FOUNDSOURCES"@
    } else if opcode == OP_FOUNDSOURCES_OBFU {
        "OP_FOUNDSOURCES_OBFU"@
    } else if opcode == OP_GLOBSEARCHREQ {
        "OP_GLOBSEARCHREQ"@
    } else if opcode == OP_GLOBSEARCHREQ2 {
        "OP_GLOBSEARCHREQ2"@
    } else if opcode == OP_GLOBSEARCHREQ3 {
        "OP_GLOBSEARCHREQ3"@
    } else if opcode == OP_GLOBSEARCHRES {
        "OP_GLOBSEARCHRES"@
    } else if opcode == OP_GLOBGETSOURCES {
        "OP_GLOBGETSOURCES"@
    } else if opcode == OP_GLOBGETSOURCES2 {
        "OP_GLOBGETSOURCES2"@
    } else if opcode == OP_GLOBFOUNDSOURCES {
        "OP_GLOBFOUNDSOURCES"@
    } else if opcode == OP_GLOBSERVSTATREQ {
        "OP_GLOBSERVSTATREQ"@
    } else if opcode == OP_GLOBSERVSTATRES {
        "OP_GLOBSERVSTATRES"@
    } else if opcode == OP_REJECT {
        "OP_REJECT"@
    } else {
        "UNKNOWN"@
    }
}

/// The name of a server opcode.
pub fn server_opcode_name(opcode: u8) -> (r: &'static str)
    ensures
        r@ == opcode_name(opcode),
{
    if opcode == OP_LOGINREQUEST {
        "OP_LOGINREQUEST"
    } else if opcode == OP_GETSERVERLIST {
        "OP_GETSERVERLIST"
    } else if opcode == OP_OFFERFILES {
        "OP_OFFERFILES"
    } else if opcode == OP_SEARCHREQUEST {
        "OP_SEARCHREQUEST"
    } else if opcode == OP_GETSOURCES {
        "OP_GETSOURCES"
    } else if opcode == OP_GETSOURCES_OBFU {
        "OP_GETSOURCES_OBFU"
    } else if opcode == OP_QUERY_MORE_RESULT {
        "OP_QUERY_MORE_RESULT"
    } else if opcode == OP_SERVERLIST {
        "OP_SERVERLIST"
    } else if opcode == OP_SEARCHRESULT {
        "OP_SEARCHRESULT"
    } else if opcode == OP_SERVERSTATUS {
        "OP_SERVERSTATUS"
    } else if opcode == OP_CALLBACKREQUEST {
        "OP_CALLBACKREQUEST"
    } else if opcode == OP_CALLBACKREQUESTED {
        "OP_CALLBACKREQUESTED"
    } else if opcode == OP_CALLBACK_FAIL {
        "OP_CALLBACK_FAIL"
    } else if opcode == OP_SERVERMESSAGE {
        "OP_SERVERMESSAGE"
    } else if opcode == OP_IDCHANGE {
        "OP_IDCHANGE"
    } else if opcode == OP_SERVERIDENT {
        "OP_SERVERIDENT"
    } else if opcode == OP_FOUNDSOURCES {
        "OP_FOUNDSOURCES"
    } else if opcode == OP_FOUNDSOURCES_OBFU {
        "OP_FOUNDSOURCES_OBFU"
    } else if opcode == OP_GLOBSEARCHREQ {
        "OP_GLOBSEARCHREQ"
    } else if opcode == OP_GLOBSEARCHREQ2 {
        "OP_GLOBSEARCHREQ2"
    } else if opcode == OP_GLOBSEARCHREQ3 {
        "OP_GLOBSEARCHREQ3"
    } else if opcode == OP_GLOBSEARCHRES {
        "OP_GLOBSEARCHRES"
    } else if opcode == OP_GLOBGETSOURCES {
        "OP_GLOBGETSOURCES"
    } else if opcode == OP_GLOBGETSOURCES2 {
        "OP_GLOBGETSOURCES2"
    } else if opcode == OP_GLOBFOUNDSOURCES {
        "OP_GLOBFOUNDSOURCES"
    } else if opcode == OP_GLOBSERVSTATREQ {
        "OP_GLOBSERVSTATREQ"
    } else if opcode == OP_GLOBSERVSTATRES {
        "OP_GLOBSERVSTATRES"
    } else if opcode == OP_REJECT {
        "OP_REJECT"
    } else {
        "UNKNOWN"
    }
}

/// The part of a payload that a trace shows.
pub open spec fn shown_part(payload: Seq<u8>) -> Seq<u8> {
    if payload.len() > MAX_SERVER_DUMP_HEX_BYTES {
        payload.take(MAX_SERVER_DUMP_HEX_BYTES as int)
    } else {
        payload
    }
}

/// A payload in hexadecimal as a trace shows it, and whether it was cut.
pub fn capped_payload_hex(payload: &[u8]) -> (r: (String, bool))
    ensures
        r.0@ == hexed(shown_part(payload@)),
        r.1 == (payload@.len() > MAX_SERVER_DUMP_HEX_BYTES),
{
    if payload.len() > MAX_SERVER_DUMP_HEX_BYTES {
        let shown: &[u8] = vstd::slice::slice_subrange(payload, 0, MAX_SERVER_DUMP_HEX_BYTES);
        assert(shown@ =~= shown_part(payload@));
        (hex_encode(shown), true)
    } else {
        (hex_encode(payload), false)
    }
}

/// The direction of a packet in the words of a trace.
pub open spec fn trace_direction(direction: Seq<char>) -> Seq<char> {
    if direction == "tx"@ {
        "send"@
    } else if direction == "rx"@ {
        "recv"@
    } else {
        direction
    }
}

/// The direction of a packet in the words of a trace.
pub fn normalized_direction(direction: &str) -> (r: String)
    ensures
        r@ == trace_direction(direction@),
{
    if crate::text::same_text(direction, "tx") {
        "send".to_owned()
    } else if crate::text::same_text(direction, "rx") {
        "recv".to_owned()
    } else {
        direction.to_owned()
    }
}

/// The key that ties the packets of one session together in a trace.
pub open spec fn trace_key(role: Seq<char>, trace_id: u64, endpoint: SocketAddrV4) -> Seq<char> {
    ("server:"@ + role).push(':') + crate::text::decimal(trace_id as nat).push(':')
        + host_port_text(ipv4_text(endpoint.ip), endpoint.port)
}

/// The key that ties the packets of one session together in a trace.
pub fn ed2k_server_trace_key(role: &str, trace_id: u64, endpoint: SocketAddrV4) -> (r: String)
    ensures
        r@ == trace_key(role@, trace_id, endpoint),
{
    let mut s: String = "server:".to_owned();
    s.append(role);
    s.push(':');
    crate::text::push_decimal(&mut s, trace_id);
    s.push(':');
    let ip: String = ipv4_to_text(endpoint.ip);
    s.append(host_port_to_text(&ip, endpoint.port).as_str());
    assert(s@ =~= trace_key(role@, trace_id, endpoint));
    s
}

/// The name of a session's state in a trace.
pub open spec fn state_id(role: Seq<char>, phase: Seq<char>) -> Seq<char> {
    ("server."@ + role).push('.') + phase
}

/// The name of a session's state in a trace.
pub fn ed2k_server_state_id(role: &str, phase: &str) -> (r: String)
    ensures
        r@ == state_id(role@, phase@),
{
    let mut s: String = "server.".to_owned();
    s.append(role);
    s.push('.');
    s.append(phase);
    assert(s@ =~= state_id(role@, phase@));
    s
}

/// Each opcode is shown under its own name, and one without a name as unknown.
pub proof fn law_opcodes_have_their_names(opcode: u8)
    ensures
        opcode == 0x01 ==> opcode_name(opcode) == "OP_LOGINREQUEST"@,
        opcode == 0x14 ==> opcode_name(opcode) == "OP_GETSERVERLIST"@,
        opcode == 0x15 ==> opcode_name(opcode) == "OP_OFFERFILES"@,
        opcode == 0x16 ==> opcode_name(opcode) == "OP_SEARCHREQUEST"@,
        opcode == 0x19 ==> opcode_name(opcode) == "OP_GETSOURCES"@,
        opcode == 0x23 ==> opcode_name(opcode) == "OP_GETSOURCES_OBFU"@,
        opcode == 0x21 ==> opcode_name(opcode) == "OP_QUERY_MORE_RESULT"@,
        opcode == 0x32 ==> opcode_name(opcode) == "OP_SERVERLIST"@,
        opcode == 0x33 ==> opcode_name(opcode) == "OP_SEARCHRESULT"@,
        opcode == 0x34 ==> opcode_name(opcode) == "OP_SERVERSTATUS"@,
        opcode == 0x1C ==> opcode_name(opcode) == "OP_CALLBACKREQUEST"@,
        opcode == 0x35 ==> opcode_name(opcode) == "OP_CALLBACKREQUESTED"@,
        opcode == 0x36 ==> opcode_name(opcode) == "OP_CALLBACK_FAIL"@,
        opcode == 0x38 ==> opcode_name(opcode) == "OP_SERVERMESSAGE"@,
        opcode == 0x40 ==> opcode_name(opcode) == "OP_IDCHANGE"@,
        opcode == 0x41 ==> opcode_name(opcode) == "OP_SERVERIDENT"@,
        opcode == 0x42 ==> opcode_name(opcode) == "OP_FOUNDSOURCES"@,
        opcode == 0x44 ==> opcode_name(opcode) == "OP_FOUNDSOURCES_OBFU"@,
        opcode == 0x98 ==> opcode_name(opcode) == "OP_GLOBSEARCHREQ"@,
        opcode == 0x92 ==> opcode_name(opcode) == "OP_GLOBSEARCHREQ2"@,
        opcode == 0x90 ==> opcode_name(opcode) == "OP_GLOBSEARCHREQ3"@,
        opcode == 0x99 ==> opcode_name(opcode) == "OP_GLOBSEARCHRES"@,
        opcode == 0x9A ==> opcode_name(opcode) == "OP_GLOBGETSOURCES"@,
        opcode == 0x94 ==> opcode_name(opcode) == "OP_GLOBGETSOURCES2"@,
        opcode == 0x9B ==> opcode_name(opcode) == "OP_GLOBFOUNDSOURCES"@,
        opcode == 0x96 ==> opcode_name(opcode) == "OP_GLOBSERVSTATREQ"@,
        opcode == 0x97 ==> opcode_name(opcode) == "OP_GLOBSERVSTATRES"@,
        opcode == 0x05 ==> opcode_name(opcode) == "OP_REJECT"@,
        opcode != 0x01
            && opcode != 0x14
            && opcode != 0x15
            && opcode != 0x16
            && opcode != 0x19
            && opcode != 0x23
            && opcode != 0x21
            && opcode != 0x32
            && opcode != 0x33
            && opcode != 0x34
            && opcode != 0x1C
            && opcode != 0x35
            && opcode != 0x36
            && opcode != 0x38
            && opcode != 0x40
            && opcode != 0x41
            && opcode != 0x42
            && opcode != 0x44
            && opcode != 0x98
            && opcode != 0x92
            && opcode != 0x90
            && opcode != 0x99
            && opcode != 0x9A
            && opcode != 0x94
            && opcode != 0x9B
            && opcode != 0x96
            && opcode != 0x97
            && opcode != 0x05 ==> opcode_name(opcode) == "UNKNOWN"@,
{
}

/// A trace shows the first 4096 bytes of a payload, or all of them.
pub proof fn law_trace_shows_the_beginning(payload: Seq<u8>)
    ensures
        payload.len() <= 4096 ==> shown_part(payload) == payload,
        payload.len() > 4096 ==> shown_part(payload) == payload.take(4096),
        crate::hexadecimal::unhexed(hexed(shown_part(payload))) == Some(shown_part(payload)),
{
    crate::hexadecimal::law_hex_reads_back(shown_part(payload));
}

/// A trace says `send` and `recv` for what goes out and comes in, and keeps any
/// other word.
pub proof fn law_directions_in_a_trace(direction: Seq<char>)
    ensures
        direction == "tx"@ ==> trace_direction(direction) == "send"@,
        direction == "rx"@ ==> trace_direction(direction) == "recv"@,
        direction != "tx"@ && direction != "rx"@ ==> trace_direction(direction) == direction,
{
    reveal_strlit("tx");
    reveal_strlit("rx");
    assert("tx"@[0] == 't' && "rx"@[0] == 'r');
}

} // verus!
