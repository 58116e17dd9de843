//! Obfuscation of client-to-client ED2K datagrams.
//!
//! A datagram is keyed on the user hash of the client that it goes to and on
//! the public address of the client that sends it. One marker byte and two
//! bytes of random key part go in clear; the sync value, a padding length and
//! the packet follow under an RC4 key stream.
use vstd::prelude::*;

use crate::bytes::{
    le16, le32, push_all, push_u16, push_u32, read_u16, read_u32, to_vec, u16_le, u32_le,
};
use crate::digest::{md5_digest, md5_of};
use crate::random::{random_u16, random_u8};
use crate::rc4::{crypted, keyed, Rc4KeyStream, Rc4View};

verus! {

/// The byte that marks the key material of client datagrams.
pub const MAGICVALUE_UDP: u8 = 91;

/// The value that the first four hidden bytes spell.
pub const MAGICVALUE_UDP_SYNC_CLIENT: u32 = 0x395F_2EC1;

/// The bytes before the packet: marker, key part, sync value, padding length.
pub const CRYPT_HEADER_SIZE: usize = 8;

/// The bytes that go in clear: marker and key part.
pub const CRYPT_HEADER_CLEAR_PREFIX: usize = 3;

pub const OP_EDONKEYPROT: u8 = 0xE3;
pub const OP_PACKEDPROT: u8 = 0xD4;
pub const OP_EMULEPROT: u8 = 0xC5;
pub const OP_KADEMLIAHEADER: u8 = 0xE4;
pub const OP_KADEMLIAPACKEDPROT: u8 = 0xE5;
pub const OP_UDPRESERVEDPROT1: u8 = 0xA3;
pub const OP_UDPRESERVEDPROT2: u8 = 0xB2;

/// The bit that marks the first byte of an obfuscated client datagram.
pub const ED2K_MARKER_BIT: u8 = 0x01;

/// Whether `marker` opens a plaintext packet, so that it cannot open an
/// obfuscated one.
pub open spec fn reserved_marker(marker: u8) -> bool {
    ||| marker == OP_EMULEPROT
    ||| marker == OP_KADEMLIAPACKEDPROT
    ||| marker == OP_KADEMLIAHEADER
    ||| marker == OP_UDPRESERVEDPROT1
    ||| marker == OP_UDPRESERVEDPROT2
    ||| marker == OP_PACKEDPROT
}

/// The marker that stands for `candidate`: the marker bit set, and a byte that
/// is not reserved.
pub open spec fn ed2k_marker(candidate: u8) -> u8 {
    if reserved_marker(candidate | ED2K_MARKER_BIT) {
        OP_EDONKEYPROT
    } else {
        candidate | ED2K_MARKER_BIT
    }
}

/// Whether `marker` is a reserved protocol byte.
pub fn is_reserved_protocol_marker(marker: u8) -> (r: bool)
    ensures
        r == reserved_marker(marker),
{
    marker == OP_EMULEPROT || marker == OP_KADEMLIAPACKEDPROT || marker == OP_KADEMLIAHEADER
        || marker == OP_UDPRESERVEDPROT1 || marker == OP_UDPRESERVEDPROT2 || marker == OP_PACKEDPROT
}

/// Makes a valid marker of any byte.
pub fn sanitize_ed2k_marker(candidate: u8) -> (r: u8)
    ensures
        r == ed2k_marker(candidate),
        !reserved_marker(r),
        r & ED2K_MARKER_BIT == ED2K_MARKER_BIT,
{
    let marker: u8 = candidate | ED2K_MARKER_BIT;
    proof {
        lemma_marker(candidate);
    }
    if is_reserved_protocol_marker(marker) {
        OP_EDONKEYPROT
    } else {
        marker
    }
}

proof fn lemma_marker(candidate: u8)
    ensures
        !reserved_marker(ed2k_marker(candidate)),
        ed2k_marker(candidate) & ED2K_MARKER_BIT == ED2K_MARKER_BIT,
{
    assert((candidate | 0x01u8) & 0x01u8 == 0x01u8) by (bit_vector);
    assert(0xE3u8 & 0x01u8 == 0x01u8) by (bit_vector);
}

/// What to try first on a datagram that arrived on the shared socket.
#[derive(Debug, Clone, Copy, PartialEq, Eq, Structural)]
pub enum InboundUdpDecision {
    /// The first byte is a reserved marker: the datagram is plaintext.
    Plaintext,
    /// Try the ED2K client key first.
    TryEd2kClientFirst,
    /// Try the Kad keys first; the ED2K client key is a later fallback.
    TryKadFirst,
}

/// What the first byte of a datagram says about it.
pub open spec fn inbound_decision(first_byte: u8, kad_active: bool) -> InboundUdpDecision {
    if reserved_marker(first_byte) {
        InboundUdpDecision::Plaintext
    } else if !kad_active || first_byte & ED2K_MARKER_BIT != 0 {
        InboundUdpDecision::TryEd2kClientFirst
    } else {
        InboundUdpDecision::TryKadFirst
    }
}

/// Classifies a datagram by its first byte. Without Kad there is no other key
/// to try, so the ED2K client key comes first.
pub fn classify_inbound_client_udp(first_byte: u8, kad_active: bool) -> (r: InboundUdpDecision)
    ensures
        r == inbound_decision(first_byte, kad_active),
{
    if is_reserved_protocol_marker(first_byte) {
        return InboundUdpDecision::Plaintext;
    }
    if !kad_active || (first_byte & ED2K_MARKER_BIT) != 0 {
        InboundUdpDecision::TryEd2kClientFirst
    } else {
        InboundUdpDecision::TryKadFirst
    }
}

/// The bytes that the key of a datagram is the digest of.
pub open spec fn client_udp_key_material(
    user_hash: Seq<u8>,
    ip: Seq<u8>,
    random_key_part: u16,
) -> Seq<u8> {
    user_hash + ip + seq![MAGICVALUE_UDP] + u16_le(random_key_part)
}

/// The key stream of a datagram: no byte of it is dropped.
pub open spec fn client_udp_stream(
    user_hash: Seq<u8>,
    ip: Seq<u8>,
    random_key_part: u16,
) -> Rc4View {
    keyed(md5_digest(client_udp_key_material(user_hash, ip, random_key_part)))
}

/// The bytes that go under the key stream: sync value, no padding, packet.
pub open spec fn client_udp_inner(plaintext: Seq<u8>) -> Seq<u8> {
    u32_le(MAGICVALUE_UDP_SYNC_CLIENT) + seq![0u8] + plaintext
}

/// The datagram that hides `plaintext`.
pub open spec fn obfuscated_client_udp(
    dest_user_hash: Seq<u8>,
    our_public_ip: Seq<u8>,
    plaintext: Seq<u8>,
    random_key_part: u16,
    marker: u8,
) -> Seq<u8> {
    seq![ed2k_marker(marker)] + u16_le(random_key_part) + crypted(
        client_udp_stream(dest_user_hash, our_public_ip, random_key_part),
        client_udp_inner(plaintext),
    )
}

/// The packet that `datagram` hides, when it is an obfuscated client datagram
/// from `sender_ip` to the client with `our_user_hash`.
pub open spec fn revealed_client_udp(
    our_user_hash: Seq<u8>,
    sender_ip: Seq<u8>,
    datagram: Seq<u8>,
) -> Option<Seq<u8>> {
    if datagram.len() <= CRYPT_HEADER_SIZE || reserved_marker(datagram[0]) {
        None
    } else {
        let inner = crypted(
            client_udp_stream(our_user_hash, sender_ip, le16(datagram, 1)),
            datagram.skip(CRYPT_HEADER_CLEAR_PREFIX as int),
        );
        let padding_len = (inner[4] & 0x0F) as int;
        if le32(inner, 0) != MAGICVALUE_UDP_SYNC_CLIENT || inner.len() - 5 <= padding_len {
            None
        } else {
            Some(inner.skip(5 + padding_len))
        }
    }
}

fn client_udp_keystream(user_hash: &[u8; 16], ip_octets: [u8; 4], random_key_part: u16) -> (r:
    Rc4KeyStream)
    ensures
        r@ == client_udp_stream(user_hash@, ip_octets@, random_key_part),
{
    let mut key_material: Vec<u8> = Vec::with_capacity(23);
    push_all(&mut key_material, user_hash.as_slice());
    push_all(&mut key_material, ip_octets.as_slice());
    key_material.push(MAGICVALUE_UDP);
    push_u16(&mut key_material, random_key_part);
    assert(key_material@ =~= client_udp_key_material(user_hash@, ip_octets@, random_key_part));
    let key: [u8; 16] = md5_of(key_material.as_slice());
    Rc4KeyStream::new_without_discard(key.as_slice())
}

/// Obfuscates a datagram with the key part and marker given.
pub fn obfuscate_client_udp_with(
    dest_user_hash: &[u8; 16],
    our_public_ip: [u8; 4],
    plaintext: &[u8],
    random_key_part: u16,
    marker: u8,
) -> (out: Vec<u8>)
    ensures
        out@ == obfuscated_client_udp(
            dest_user_hash@,
            our_public_ip@,
            plaintext@,
            random_key_part,
            marker,
        ),
{
    let marker: u8 = sanitize_ed2k_marker(marker);
    let mut keystream = client_udp_keystream(dest_user_hash, our_public_ip, random_key_part);
    let mut inner: Vec<u8> = Vec::new();
    push_u32(&mut inner, MAGICVALUE_UDP_SYNC_CLIENT);
    inner.push(0u8);
    push_all(&mut inner, plaintext);
    assert(inner@ =~= client_udp_inner(plaintext@));
    keystream.apply(&mut inner);
    let mut out: Vec<u8> = Vec::new();
    out.push(marker);
    push_u16(&mut out, random_key_part);
    push_all(&mut out, inner.as_slice());
    assert(out@ =~= seq![marker] + u16_le(random_key_part) + inner@);
    out
}

/// Obfuscates a datagram with a random key part and a random marker.
pub fn obfuscate_client_udp(
    dest_user_hash: &[u8; 16],
    our_public_ip: [u8; 4],
    plaintext: &[u8],
) -> (out: Vec<u8>)
    ensures
        exists|random_key_part: u16, marker: u8|
            out@ == #[trigger] obfuscated_client_udp(
                dest_user_hash@,
                our_public_ip@,
                plaintext@,
                random_key_part,
                marker,
            ),
{
    let random_key_part: u16 = random_u16();
    let marker: u8 = sanitize_ed2k_marker(random_u8());
    obfuscate_client_udp_with(
        dest_user_hash,
        our_public_ip,
        plaintext,
        random_key_part,
        marker,
    )
}

/// The packet that a datagram hides, or `None` where the datagram is plaintext,
/// addressed to somebody else, or junk.
pub fn deobfuscate_client_udp(
    our_user_hash: &[u8; 16],
    sender_ip: [u8; 4],
    datagram: &[u8],
) -> (r: Option<Vec<u8>>)
    ensures
        match r {
            Some(p) => revealed_client_udp(our_user_hash@, sender_ip@, datagram@) == Some(p@),
            None => revealed_client_udp(our_user_hash@, sender_ip@, datagram@) is None,
        },
{
    if datagram.len() <= CRYPT_HEADER_SIZE {
        return None;
    }
    if is_reserved_protocol_marker(datagram[0]) {
        return None;
    }
    let random_key_part: u16 = read_u16(datagram, 1);
    let mut keystream = client_udp_keystream(our_user_hash, sender_ip, random_key_part);
    let mut inner: Vec<u8> = to_vec(crate::bytes::suffix(datagram, CRYPT_HEADER_CLEAR_PREFIX));
    keystream.apply(&mut inner);
    if read_u32(inner.as_slice(), 0) != MAGICVALUE_UDP_SYNC_CLIENT {
        return None;
    }
    let low: u8 = inner[4] & 0x0F;
    let padding_len: usize = low as usize;
    if inner.len() - 5 <= padding_len {
        return None;
    }
    Some(to_vec(crate::bytes::suffix(inner.as_slice(), 5 + padding_len)))
}

/// A datagram that one client obfuscates for another is read back by it: the
/// receiver's own hash and the sender's address give the packet that went in.
pub proof fn law_obfuscated_packet_is_revealed(
    user_hash: Seq<u8>,
    sender_ip: Seq<u8>,
    plaintext: Seq<u8>,
    random_key_part: u16,
    marker: u8,
)
    requires
        plaintext.len() > 0,
    ensures
        revealed_client_udp(
            user_hash,
            sender_ip,
            obfuscated_client_udp(user_hash, sender_ip, plaintext, random_key_part, marker),
        ) == Some(plaintext),
{
    let d = obfuscated_client_udp(user_hash, sender_ip, plaintext, random_key_part, marker);
    let stream = client_udp_stream(user_hash, sender_ip, random_key_part);
    let inner = client_udp_inner(plaintext);
    let hidden = crypted(stream, inner);
    lemma_marker(marker);
    assert(d[0] == ed2k_marker(marker));
    assert(d.subrange(1, 3) =~= u16_le(random_key_part));
    crate::bytes::lemma_le16(random_key_part, d, 1);
    assert(d.skip(CRYPT_HEADER_CLEAR_PREFIX as int) =~= hidden);
    crate::rc4::law_crypting_twice_restores(stream, inner);
    assert(inner.subrange(0, 4) =~= u32_le(MAGICVALUE_UDP_SYNC_CLIENT));
    crate::bytes::lemma_le32(MAGICVALUE_UDP_SYNC_CLIENT, inner, 0);
    assert(inner[4] == 0u8);
    assert(0u8 & 0x0Fu8 == 0u8) by (bit_vector);
    assert(inner.skip(5) =~= plaintext);
}

/// An obfuscated datagram is never taken for plaintext, and the ED2K client
/// key is tried on it first, with Kad or without.
pub proof fn law_obfuscated_packet_is_tried_as_ed2k_first(
    user_hash: Seq<u8>,
    sender_ip: Seq<u8>,
    plaintext: Seq<u8>,
    random_key_part: u16,
    marker: u8,
    kad_active: bool,
)
    ensures
        inbound_decision(
            obfuscated_client_udp(user_hash, sender_ip, plaintext, random_key_part, marker)[0],
            kad_active,
        ) == InboundUdpDecision::TryEd2kClientFirst,
{
    lemma_marker(marker);
}

/// A datagram that opens with a reserved marker is plaintext, and nothing is
/// revealed of it.
pub proof fn law_reserved_marker_is_never_revealed(
    user_hash: Seq<u8>,
    sender_ip: Seq<u8>,
    datagram: Seq<u8>,
    kad_active: bool,
)
    requires
        datagram.len() > 0,
        reserved_marker(datagram[0]),
    ensures
        inbound_decision(datagram[0], kad_active) == InboundUdpDecision::Plaintext,
        revealed_client_udp(user_hash, sender_ip, datagram) is None,
{
}

/// The key of a datagram is the digest of 23 bytes: user hash, address, the
/// marking byte, and the random part.
pub proof fn law_key_is_the_hash_the_address_and_the_random_part(
    user_hash: Seq<u8>,
    ip: Seq<u8>,
    random_key_part: u16,
) -> (material: Seq<u8>)
    requires
        user_hash.len() == 16,
        ip.len() == 4,
    ensures
        material.len() == 23,
        material.subrange(0, 16) == user_hash,
        material.subrange(16, 20) == ip,
        material[20] == 91,
        material[21] == random_key_part as int % 256,
        material[22] == random_key_part as int / 256,
        client_udp_stream(user_hash, ip, random_key_part) == keyed(md5_digest(material)),
{
    let material = client_udp_key_material(user_hash, ip, random_key_part);
    assert(material.subrange(0, 16) =~= user_hash);
    assert(material.subrange(16, 20) =~= ip);
    material
}

/// A datagram shows a marker with its lowest bit set and the random part; behind
/// them stand, under the key stream, the sync value, no padding and the packet.
pub proof fn law_datagram_is_marker_random_part_and_hidden_packet(
    user_hash: Seq<u8>,
    ip: Seq<u8>,
    plaintext: Seq<u8>,
    random_key_part: u16,
    marker: u8,
)
    ensures
        ({
            let d = obfuscated_client_udp(user_hash, ip, plaintext, random_key_part, marker);
            let inner = crypted(client_udp_stream(user_hash, ip, random_key_part), d.skip(3));
            &&& d.len() == 8 + plaintext.len()
            &&& d[0] as int % 2 == 1
            &&& d[0] != 0xC5 && d[0] != 0xE5 && d[0] != 0xA3
            &&& le16(d, 1) == random_key_part
            &&& inner.subrange(0, 4) == seq![0xC1u8, 0x2E, 0x5F, 0x39]
            &&& inner[4] == 0
            &&& inner.skip(5) == plaintext
        }),
{
    let d = obfuscated_client_udp(user_hash, ip, plaintext, random_key_part, marker);
    let v = client_udp_stream(user_hash, ip, random_key_part);
    lemma_marker(marker);
    let m = ed2k_marker(marker);
    assert(m & 0x01u8 == 0x01u8 ==> m % 2 == 1) by (bit_vector);
    assert(d.subrange(1, 3) =~= u16_le(random_key_part));
    crate::bytes::lemma_le16(random_key_part, d, 1);
    let hidden = client_udp_inner(plaintext);
    assert(d.skip(3) =~= crypted(v, hidden));
    crate::rc4::law_crypting_twice_restores(v, hidden);
    assert(hidden.subrange(0, 4) =~= seq![0xC1u8, 0x2E, 0x5F, 0x39]);
    assert(hidden.skip(5) =~= plaintext);
}

/// A byte that opens a packet in clear is never taken for a marker. Any other is
/// tried as an obfuscated client datagram first, unless Kad is active and its
/// lowest bit is clear.
pub proof fn law_first_byte_decides(first: u8)
    ensures
        first == 0xC5 || first == 0xE5 || first == 0xE4 || first == 0xA3 || first == 0xB2 || first
            == 0xD4 <==> inbound_decision(first, true) == InboundUdpDecision::Plaintext,
        inbound_decision(first, false) == InboundUdpDecision::Plaintext <==> inbound_decision(
            first,
            true,
        ) == InboundUdpDecision::Plaintext,
        inbound_decision(first, false) != InboundUdpDecision::TryKadFirst,
        inbound_decision(first, true) == InboundUdpDecision::TryKadFirst ==> first % 2 == 0,
        inbound_decision(first, true) == InboundUdpDecision::TryEd2kClientFirst ==> first % 2 == 1,
{
    assert((first & 0x01u8 != 0) <==> first % 2 == 1) by (bit_vector);
}

} // verus!
