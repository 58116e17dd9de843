//! Framing and packing of packets on the server connection.
use vstd::prelude::*;

use super::{
    MAX_SERVER_DECOMPRESSED_PACKET_LEN, OP_EDONKEYPROT, OP_OFFERFILES, OP_PACKEDPROT,
    TCP_PACKET_HEADER_LEN,
};
use crate::bytes::{le32, push_all, push_u32, read_u32, u32_le};
use crate::compression::{deflate, inflate, zlib_deflated, zlib_inflated};

verus! {

/// The greatest payload that a packet on the wire may declare.
pub const MAX_ED2K_PACKET_LEN: usize = 2_000_000;

/// Why a packet cannot be sent or read.
#[derive(Debug, Clone, Copy, PartialEq, Eq, Structural)]
pub enum PacketError {
    DeflateFailed,
    PayloadTooLarge,
    UnsupportedProtocol(u8),
    ZeroLength,
    Oversized(u32),
    InflateFailed,
    DecompressedTooLarge,
}

/// Whether a packet with this opcode may be packed on its way to the server.
/// Only the offered files may.
pub fn server_opcode_allows_compression(opcode: u8) -> (r: bool)
    ensures
        r == (opcode == OP_OFFERFILES),
{
    opcode == OP_OFFERFILES
}

/// A packet: protocol byte, length of opcode and body, opcode, body.
pub open spec fn framed(protocol: u8, opcode: u8, body: Seq<u8>) -> Seq<u8> {
    seq![protocol] + u32_le((body.len() + 1) as u32) + seq![opcode] + body
}

/// The protocol and the body that a payload goes out with: packed only where
/// that is strictly smaller.
pub open spec fn wire_form(payload: Seq<u8>, packed: Option<Seq<u8>>) -> (u8, Seq<u8>) {
    match packed {
        Some(p) => if p.len() < payload.len() {
            (OP_PACKEDPROT, p)
        } else {
            (OP_EDONKEYPROT, payload)
        },
        None => (OP_EDONKEYPROT, payload),
    }
}

/// The packet that a payload goes out as, when `packed` is its packed form.
pub open spec fn encoded_packet(opcode: u8, payload: Seq<u8>, packed: Option<Seq<u8>>) -> Result<
    Seq<u8>,
    PacketError,
> {
    let (protocol, body) = wire_form(payload, packed);
    if body.len() + 1 > u32::MAX {
        Err(PacketError::PayloadTooLarge)
    } else {
        Ok(framed(protocol, opcode, body))
    }
}

/// What the header of a packet says: protocol, opcode, length of the body.
pub open spec fn packet_header(h: Seq<u8>) -> Result<(u8, u8, nat), PacketError> {
    if h[0] != OP_EDONKEYPROT && h[0] != OP_PACKEDPROT {
        Err(PacketError::UnsupportedProtocol(h[0]))
    } else if le32(h, 1) == 0 {
        Err(PacketError::ZeroLength)
    } else if le32(h, 1) - 1 > MAX_ED2K_PACKET_LEN {
        Err(PacketError::Oversized((le32(h, 1) - 1) as u32))
    } else {
        Ok((h[0], h[5], (le32(h, 1) - 1) as nat))
    }
}

/// What becomes of a packed body that inflates to `inflated`, read one byte
/// past the limit.
pub open spec fn accepted_inflated(inflated: Option<Seq<u8>>) -> Result<Seq<u8>, PacketError> {
    match inflated {
        None => Err(PacketError::InflateFailed),
        Some(data) => if data.len() > MAX_SERVER_DECOMPRESSED_PACKET_LEN {
            Err(PacketError::DecompressedTooLarge)
        } else {
            Ok(data)
        },
    }
}

/// The payload of a packet with the body `body`.
pub open spec fn payload_of(protocol: u8, body: Seq<u8>) -> Result<Seq<u8>, PacketError> {
    if protocol != OP_PACKEDPROT {
        Ok(body)
    } else {
        accepted_inflated(
            zlib_inflated(body, (MAX_SERVER_DECOMPRESSED_PACKET_LEN + 1) as nat),
        )
    }
}

/// The bytes of an optional buffer.
pub open spec fn opt_view(o: Option<Vec<u8>>) -> Option<Seq<u8>> {
    match o {
        Some(v) => Some(v@),
        None => None,
    }
}

/// Frames a payload, given its packed form where packing is allowed.
pub fn encode_packet_with(opcode: u8, payload: &[u8], packed: Option<Vec<u8>>) -> (r: Result<
    Vec<u8>,
    PacketError,
>)
    ensures
        match r {
            Ok(bytes) => encoded_packet(opcode, payload@, opt_view(packed)) == Ok::<_, PacketError>(
                bytes@,
            ),
            Err(e) => encoded_packet(opcode, payload@, opt_view(packed)) == Err::<Seq<u8>, _>(e),
        },
{
    let mut protocol: u8 = OP_EDONKEYPROT;
    let mut body: &[u8] = payload;
    if let Some(p) = &packed {
        if p.len() < payload.len() {
            protocol = OP_PACKEDPROT;
            body = p.as_slice();
        }
    }
    if body.len() >= 0xFFFF_FFFF {
        return Err(PacketError::PayloadTooLarge);
    }
    let mut bytes: Vec<u8> = Vec::new();
    bytes.push(protocol);
    push_u32(&mut bytes, (body.len() + 1) as u32);
    bytes.push(opcode);
    push_all(&mut bytes, body);
    assert(bytes@ =~= framed(protocol, opcode, body@));
    Ok(bytes)
}

/// Frames a payload, packed where that is allowed and strictly smaller. What
/// comes out reads back as the opcode and the payload that went in.
pub fn encode_packet(opcode: u8, payload: &[u8], use_compression: bool) -> (r: Result<
    Vec<u8>,
    PacketError,
>)
    ensures
        use_compression && zlib_deflated(payload@) is None ==> r == Err::<Vec<u8>, _>(
            PacketError::DeflateFailed,
        ),
        !use_compression || zlib_deflated(payload@) is Some ==> match r {
            Ok(bytes) => encoded_packet(
                opcode,
                payload@,
                if use_compression {
                    zlib_deflated(payload@)
                } else {
                    None
                },
            ) == Ok::<_, PacketError>(bytes@),
            Err(e) => encoded_packet(
                opcode,
                payload@,
                if use_compression {
                    zlib_deflated(payload@)
                } else {
                    None
                },
            ) == Err::<Seq<u8>, _>(e),
        },
        payload@.len() <= MAX_SERVER_DECOMPRESSED_PACKET_LEN ==> (r matches Ok(bytes)
            ==> packet_header(bytes@.take(6)) == Ok::<_, PacketError>(
            (bytes@[0], opcode, (bytes@.len() - 6) as nat),
        ) && payload_of(bytes@[0], bytes@.skip(6)) == Ok::<_, PacketError>(payload@)),
{
    let packed = if use_compression {
        match deflate(payload) {
            Some(p) => Some(p),
            None => return Err(PacketError::DeflateFailed),
        }
    } else {
        None
    };
    let ghost packed_view = opt_view(packed);
    let r = encode_packet_with(opcode, payload, packed);
    proof {
        if payload@.len() <= MAX_SERVER_DECOMPRESSED_PACKET_LEN {
            let (protocol, body) = wire_form(payload@, packed_view);
            lemma_frame_reads_back(protocol, opcode, body);
        }
    }
    r
}

proof fn lemma_frame_reads_back(protocol: u8, opcode: u8, body: Seq<u8>)
    requires
        protocol == OP_EDONKEYPROT || protocol == OP_PACKEDPROT,
        body.len() <= MAX_ED2K_PACKET_LEN,
    ensures
        framed(protocol, opcode, body)[0] == protocol,
        framed(protocol, opcode, body).len() == body.len() + 6,
        packet_header(framed(protocol, opcode, body).take(6)) == Ok::<_, PacketError>(
            (protocol, opcode, body.len()),
        ),
        framed(protocol, opcode, body).skip(6) == body,
{
    let f = framed(protocol, opcode, body);
    let h = f.take(6);
    assert(h.subrange(1, 5) =~= u32_le((body.len() + 1) as u32));
    crate::bytes::lemma_le32((body.len() + 1) as u32, h, 1);
    assert(f.skip(6) =~= body);
}

/// A packet that is framed reads back: its header gives the protocol, the
/// opcode and the length of the body, and the body follows.
pub proof fn law_frame_reads_back(protocol: u8, opcode: u8, body: Seq<u8>)
    requires
        protocol == OP_EDONKEYPROT || protocol == OP_PACKEDPROT,
        body.len() <= MAX_ED2K_PACKET_LEN,
    ensures
        packet_header(framed(protocol, opcode, body).take(6)) == Ok::<_, PacketError>(
            (protocol, opcode, body.len()),
        ),
        framed(protocol, opcode, body).skip(6) == body,
{
    lemma_frame_reads_back(protocol, opcode, body);
}

/// A packet is never larger for having been packed.
pub proof fn law_packing_never_grows(payload: Seq<u8>, packed: Option<Seq<u8>>)
    ensures
        wire_form(payload, packed).1.len() <= payload.len(),
        wire_form(payload, packed).0 == OP_PACKEDPROT <==> packed is Some
            && packed->Some_0.len() < payload.len(),
{
}

/// Reads the header of a packet.
pub fn decode_packet_header(header: &[u8]) -> (r: Result<(u8, u8, usize), PacketError>)
    requires
        header.len() == TCP_PACKET_HEADER_LEN,
    ensures
        match r {
            Ok((protocol, opcode, len)) => packet_header(header@) == Ok::<_, PacketError>(
                (protocol, opcode, len as nat),
            ),
            Err(e) => packet_header(header@) == Err::<(u8, u8, nat), _>(e),
        },
{
    if header[0] != OP_EDONKEYPROT && header[0] != OP_PACKEDPROT {
        return Err(PacketError::UnsupportedProtocol(header[0]));
    }
    let packet_length: u32 = read_u32(header, 1);
    if packet_length == 0 {
        return Err(PacketError::ZeroLength);
    }
    let payload_len: u32 = packet_length - 1;
    if payload_len > MAX_ED2K_PACKET_LEN as u32 {
        return Err(PacketError::Oversized(payload_len));
    }
    Ok((header[0], header[5], payload_len as usize))
}

/// Accepts what a packed body inflated to, unless it failed or is too large.
pub fn accept_inflated(inflated: Option<Vec<u8>>) -> (r: Result<Vec<u8>, PacketError>)
    ensures
        match r {
            Ok(data) => accepted_inflated(opt_view(inflated)) == Ok::<_, PacketError>(data@),
            Err(e) => accepted_inflated(opt_view(inflated)) == Err::<Seq<u8>, _>(e),
        },
{
    match inflated {
        None => Err(PacketError::InflateFailed),
        Some(data) => {
            if data.len() > MAX_SERVER_DECOMPRESSED_PACKET_LEN {
                Err(PacketError::DecompressedTooLarge)
            } else {
                Ok(data)
            }
        },
    }
}

/// The payload of a packet with the body `payload`: the body itself, or what
/// it inflates to where the protocol says that it is packed.
pub fn decode_server_payload(protocol: u8, payload: Vec<u8>) -> (r: Result<Vec<u8>, PacketError>)
    ensures
        match r {
            Ok(data) => payload_of(protocol, payload@) == Ok::<_, PacketError>(data@),
            Err(e) => payload_of(protocol, payload@) == Err::<Seq<u8>, _>(e),
        },
{
    if protocol != OP_PACKEDPROT {
        return Ok(payload);
    }
    accept_inflated(inflate(payload.as_slice(), MAX_SERVER_DECOMPRESSED_PACKET_LEN as u64 + 1))
}

/// A payload goes out under the plain protocol, or packed under the other where
/// it has a packed form that is strictly smaller; the frame holds the protocol,
/// the length of opcode and body, the opcode and the body.
pub proof fn law_packet_is_its_frame(opcode: u8, payload: Seq<u8>, packed: Seq<u8>)
    requires
        payload.len() < u32::MAX,
    ensures
        ({
            let plain = encoded_packet(opcode, payload, None);
            let either = encoded_packet(opcode, payload, Some(packed));
            &&& plain is Ok
            &&& plain->Ok_0[0] == 0xE3
            &&& le32(plain->Ok_0, 1) == payload.len() + 1
            &&& plain->Ok_0[5] == opcode
            &&& plain->Ok_0.skip(6) == payload
            &&& packed.len() >= payload.len() ==> either == plain
            &&& packed.len() < payload.len() ==> either is Ok && either->Ok_0[0] == 0xD4 && le32(
                either->Ok_0,
                1,
            ) == packed.len() + 1 && either->Ok_0[5] == opcode && either->Ok_0.skip(6) == packed
        }),
{
    let f = framed(0xE3, opcode, payload);
    assert(f.subrange(1, 5) =~= u32_le((payload.len() + 1) as u32));
    crate::bytes::lemma_le32((payload.len() + 1) as u32, f, 1);
    assert(f.skip(6) =~= payload);
    if packed.len() < payload.len() {
        let g = framed(0xD4, opcode, packed);
        assert(g.subrange(1, 5) =~= u32_le((packed.len() + 1) as u32));
        crate::bytes::lemma_le32((packed.len() + 1) as u32, g, 1);
        assert(g.skip(6) =~= packed);
    }
}

/// A header is refused for its protocol, for a length of zero and for a body of
/// more than two million bytes, and for nothing else.
pub proof fn law_bad_headers_are_refused(protocol: u8, length: u32, opcode: u8)
    ensures
        ({
            let h = packet_header(seq![protocol] + u32_le(length) + seq![opcode]);
            &&& protocol != 0xE3 && protocol != 0xD4 ==> h == Err::<(u8, u8, nat), _>(
                PacketError::UnsupportedProtocol(protocol),
            )
            &&& (protocol == 0xE3 || protocol == 0xD4) && length == 0 ==> h == Err::<
                (u8, u8, nat),
                _,
            >(PacketError::ZeroLength)
            &&& (protocol == 0xE3 || protocol == 0xD4) && length > 2_000_001 ==> h == Err::<
                (u8, u8, nat),
                _,
            >(PacketError::Oversized((length - 1) as u32))
            &&& (protocol == 0xE3 || protocol == 0xD4) && 0 < length <= 2_000_001 ==> h == Ok::<
                _,
                PacketError,
            >((protocol, opcode, (length - 1) as nat))
        }),
{
    let b = seq![protocol] + u32_le(length) + seq![opcode];
    assert(b[0] == protocol && b[5] == opcode);
    assert(b.subrange(1, 5) =~= u32_le(length));
    crate::bytes::lemma_le32(length, b, 1);
}

/// A plain body is the payload. A packed one is what it inflates to, up to
/// 250,000 bytes; more is refused, and so is what does not inflate.
pub proof fn law_payload_is_the_body_or_what_it_inflates_to(body: Seq<u8>, data: Seq<u8>)
    ensures
        payload_of(0xE3, body) == Ok::<_, PacketError>(body),
        payload_of(0xD4, body) == accepted_inflated(zlib_inflated(body, 250_001)),
        data.len() <= 250_000 ==> accepted_inflated(Some(data)) == Ok::<_, PacketError>(data),
        data.len() > 250_000 ==> accepted_inflated(Some(data)) == Err::<Seq<u8>, _>(
            PacketError::DecompressedTooLarge,
        ),
        accepted_inflated(None) == Err::<Seq<u8>, _>(PacketError::InflateFailed),
{
}

} // verus!
