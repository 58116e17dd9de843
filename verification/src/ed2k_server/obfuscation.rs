//! The key agreement that opens an obfuscated server session, and the ciphers
//! that come out of it.
//!
//! The client sends a marker, its public number and some padding; the server
//! answers with its own public number and, under the ciphers that both now
//! share, a sync value and some padding; the client answers in kind and with
//! its first packet.
use vstd::arithmetic::power::pow;
use vstd::prelude::*;

use super::{OP_EDONKEYPROT, OP_EMULEPROT, OP_PACKEDPROT};
use crate::bignum::{
    be_value, lemma_be_value_bound, lemma_be_value_leading, lemma_be_value_padded,
    lemma_minimal_len, mod_pow,
};
use crate::bytes::{le32, push_all, push_u32, read_u32, u32_le};
use crate::digest::{md5_digest, md5_of};
use crate::random::{random_bytes, random_up_to};
use crate::rc4::{advanced, crypted, keyed, Rc4KeyStream, Rc4View, TCP_CRYPT_DISCARD_LEN};

verus! {

pub const EMULE_TCP_CRYPT_MAGIC_REQUESTER: u8 = 34;
pub const EMULE_TCP_CRYPT_MAGIC_SERVER: u8 = 203;
pub const EMULE_TCP_CRYPT_MAGIC_SYNC: u32 = 0x835E_6FC4;
pub const EMULE_ENCRYPTION_METHOD_OBFUSCATION: u8 = 0x00;
pub const SERVER_OBFUSCATION_PUBLIC_KEY_LEN: usize = 96;
pub const SERVER_OBFUSCATION_RANDOM_EXPONENT_LEN: usize = 16;
pub const SERVER_OBFUSCATION_MAX_PADDING_LEN: u8 = 15;
pub const SERVER_OBFUSCATION_HEADER_LEN: usize = 7;

/// The modulus of the key agreement, most significant byte first.
pub open spec fn prime() -> Seq<u8> {
    seq![
        0xF2u8, 0xBF, 0x52, 0xC5, 0x5F, 0x58, 0x7A, 0xDD, 0x53, 0x71, 0xA9, 0x36, 0xE8, 0x86, 0xEB, 0x3C,
        0x62, 0x17, 0xA3, 0x3E, 0xC3, 0x4C, 0xB4, 0x0D, 0xC7, 0x3A, 0x41, 0xA6, 0x43, 0xAF, 0xFC, 0xE7,
        0x21, 0xFC, 0x28, 0x63, 0x66, 0x53, 0x5B, 0xDB, 0xCE, 0x25, 0x9F, 0x22, 0x86, 0xDA, 0x4A, 0x91,
        0xB2, 0x07, 0xCB, 0xAA, 0x52, 0x55, 0xD4, 0xF6, 0x1C, 0xCE, 0xAE, 0xD4, 0x5A, 0xD5, 0xE0, 0x74,
        0x7D, 0xF7, 0x78, 0x18, 0x28, 0x10, 0x5F, 0x34, 0x0F, 0x76, 0x23, 0x87, 0xF8, 0x8B, 0x28, 0x91,
        0x42, 0xFB, 0x42, 0x68, 0x8F, 0x05, 0x15, 0x0F, 0x54, 0x8B, 0x5F, 0x43, 0x6A, 0xF7, 0x0D, 0xF3,
    ]
}

/// The modulus of the key agreement, most significant byte first.
pub fn prime_bytes() -> (r: [u8; 96])
    ensures
        r@ == prime(),
{
    let r: [u8; 96] = [
        0xF2, 0xBF, 0x52, 0xC5, 0x5F, 0x58, 0x7A, 0xDD, 0x53, 0x71, 0xA9, 0x36, 0xE8, 0x86, 0xEB, 0x3C,
        0x62, 0x17, 0xA3, 0x3E, 0xC3, 0x4C, 0xB4, 0x0D, 0xC7, 0x3A, 0x41, 0xA6, 0x43, 0xAF, 0xFC, 0xE7,
        0x21, 0xFC, 0x28, 0x63, 0x66, 0x53, 0x5B, 0xDB, 0xCE, 0x25, 0x9F, 0x22, 0x86, 0xDA, 0x4A, 0x91,
        0xB2, 0x07, 0xCB, 0xAA, 0x52, 0x55, 0xD4, 0xF6, 0x1C, 0xCE, 0xAE, 0xD4, 0x5A, 0xD5, 0xE0, 0x74,
        0x7D, 0xF7, 0x78, 0x18, 0x28, 0x10, 0x5F, 0x34, 0x0F, 0x76, 0x23, 0x87, 0xF8, 0x8B, 0x28, 0x91,
        0x42, 0xFB, 0x42, 0x68, 0x8F, 0x05, 0x15, 0x0F, 0x54, 0x8B, 0x5F, 0x43, 0x6A, 0xF7, 0x0D, 0xF3,
    ];
    assert(r@ =~= prime());
    r
}

proof fn lemma_prime()
    ensures
        prime().len() == 96,
        be_value(prime()) > 1,
        be_value(prime()) < pow(256, 96),
{
    assert(prime().len() == 96);
    assert(prime()[0] == 0xF2);
    lemma_be_value_leading(prime());
    lemma_be_value_bound(prime());
    vstd::arithmetic::power::lemma_pow1(256);
    vstd::arithmetic::power::lemma_pow_increases(256, 1, 95);
}

/// `bytes` with the last one set where all are zero, so that the number they
/// spell is not zero.
pub open spec fn made_nonzero(bytes: Seq<u8>) -> Seq<u8> {
    if forall|i: int| 0 <= i < bytes.len() ==> bytes[i] == 0 {
        bytes.update(bytes.len() - 1, 1)
    } else {
        bytes
    }
}

/// Sets the last byte where all are zero.
pub fn make_nonzero(bytes: Vec<u8>) -> (r: Vec<u8>)
    requires
        bytes@.len() > 0,
    ensures
        r@ == made_nonzero(bytes@),
        be_value(r@) > 0,
{
    let mut i: usize = 0;
    while i < bytes.len()
        invariant
            i <= bytes@.len(),
            forall|k: int| 0 <= k < i ==> bytes@[k] == 0,
        decreases bytes@.len() - i,
    {
        if bytes[i] != 0 {
            proof {
                lemma_nonzero(bytes@, i as int);
            }
            return bytes;
        }
        i += 1;
    }
    let mut bytes: Vec<u8> = bytes;
    let last: usize = bytes.len() - 1;
    bytes.set(last, 1);
    proof {
        lemma_nonzero(bytes@, last as int);
    }
    bytes
}

proof fn lemma_nonzero(b: Seq<u8>, i: int)
    requires
        0 <= i < b.len(),
        b[i] != 0,
    ensures
        be_value(b) > 0,
    decreases b.len(),
{
    if i < b.len() - 1 {
        lemma_nonzero(b.drop_last(), i);
    }
}

/// A random number other than zero, as `byte_len` big-endian bytes.
pub fn random_nonzero_biguint(byte_len: usize) -> (r: Vec<u8>)
    requires
        byte_len > 0,
    ensures
        r@.len() == byte_len,
        be_value(r@) > 0,
{
    make_nonzero(random_bytes(byte_len))
}

/// A number that does not fit the bytes it is to be written in.
#[derive(Debug, Clone, Copy, PartialEq, Eq, Structural)]
pub struct NumberTooLong {
    pub needed: usize,
    pub available: usize,
}

/// `value` with as many leading zeros as make it `byte_len` bytes long.
pub open spec fn zero_padded(value: Seq<u8>, byte_len: nat) -> Seq<u8> {
    Seq::new((byte_len - value.len()) as nat, |i: int| 0u8) + value
}

/// Writes a number in exactly `byte_len` bytes.
pub fn biguint_to_fixed_be(value: &[u8], byte_len: usize) -> (r: Result<Vec<u8>, NumberTooLong>)
    ensures
        match r {
            Ok(fixed) => value@.len() <= byte_len && fixed@ == zero_padded(value@, byte_len as nat)
                && fixed@.len() == byte_len && be_value(fixed@) == be_value(value@),
            Err(e) => value@.len() > byte_len && e == (NumberTooLong {
                needed: value@.len() as usize,
                available: byte_len,
            }),
        },
{
    if value.len() > byte_len {
        return Err(NumberTooLong { needed: value.len(), available: byte_len });
    }
    let mut fixed: Vec<u8> = Vec::with_capacity(byte_len);
    let zeros: usize = byte_len - value.len();
    let mut i: usize = 0;
    while i < zeros
        invariant
            i <= zeros,
            fixed@ == Seq::new(i as nat, |k: int| 0u8),
        decreases zeros - i,
    {
        fixed.push(0);
        i += 1;
        assert(fixed@ =~= Seq::new(i as nat, |k: int| 0u8));
    }
    push_all(&mut fixed, value);
    proof {
        lemma_be_value_padded(zeros as nat, value@);
    }
    Ok(fixed)
}

/// The cipher that a shared secret gives for one direction.
pub open spec fn server_cipher(shared_secret: Seq<u8>, magic: u8) -> Rc4View {
    advanced(keyed(md5_digest(shared_secret + seq![magic])), TCP_CRYPT_DISCARD_LEN as nat)
}

/// The cipher that a shared secret gives for one direction.
pub fn derive_server_cipher(shared_secret: &[u8], magic: u8) -> (r: Rc4KeyStream)
    ensures
        r@ == server_cipher(shared_secret@, magic),
{
    let mut key_material: Vec<u8> = Vec::new();
    push_all(&mut key_material, shared_secret);
    key_material.push(magic);
    assert(key_material@ =~= shared_secret@ + seq![magic]);
    let key: [u8; 16] = md5_of(key_material.as_slice());
    Rc4KeyStream::new(key.as_slice())
}

/// The ciphers of the client's end of a connection: the one it sends under and
/// the one it receives under.
pub open spec fn client_ciphers(shared: Seq<u8>) -> (Rc4View, Rc4View) {
    (
        server_cipher(shared, EMULE_TCP_CRYPT_MAGIC_REQUESTER),
        server_cipher(shared, EMULE_TCP_CRYPT_MAGIC_SERVER),
    )
}

/// Whether a byte opens a plain packet.
pub open spec fn is_protocol_marker(marker: u8) -> bool {
    marker == OP_EDONKEYPROT || marker == OP_EMULEPROT || marker == OP_PACKEDPROT
}

/// How many bytes are drawn for one that opens no plain packet.
pub const MARKER_DRAWS: usize = 64;

/// The first of `draws`, from `i` on, that opens no plain packet; zero where
/// all of them do.
pub open spec fn first_non_protocol(draws: Seq<u8>, i: int) -> u8
    decreases draws.len() - i,
{
    if !(0 <= i < draws.len()) {
        0
    } else if is_protocol_marker(draws[i]) {
        first_non_protocol(draws, i + 1)
    } else {
        draws[i]
    }
}

/// The first of `draws` that opens no plain packet; zero, which opens none
/// either, where all of them do.
pub fn non_protocol_marker(draws: &[u8]) -> (r: u8)
    ensures
        r == first_non_protocol(draws@, 0),
        !is_protocol_marker(r),
{
    let mut i: usize = 0;
    while i < draws.len()
        invariant
            i <= draws@.len(),
            first_non_protocol(draws@, 0) == first_non_protocol(draws@, i as int),
        decreases draws@.len() - i,
    {
        let marker: u8 = draws[i];
        if marker != OP_EDONKEYPROT && marker != OP_EMULEPROT && marker != OP_PACKEDPROT {
            return marker;
        }
        i += 1;
    }
    0
}

/// A random byte that opens no plain packet: the first such among so many
/// random bytes.
pub fn random_non_protocol_marker() -> (r: u8)
    ensures
        !is_protocol_marker(r),
        exists|draws: Seq<u8>|
            draws.len() == MARKER_DRAWS && r == #[trigger] first_non_protocol(draws, 0),
{
    let draws: Vec<u8> = random_bytes(MARKER_DRAWS);
    non_protocol_marker(draws.as_slice())
}

/// The number that a party publishes for a secret, in full length.
pub open spec fn is_public_number(bytes: Seq<u8>, secret: Seq<u8>) -> bool {
    bytes.len() == SERVER_OBFUSCATION_PUBLIC_KEY_LEN && be_value(bytes) == pow(
        2,
        be_value(secret),
    ) % be_value(prime()) as int
}

/// The secret that a party shares with the owner of a public number, in full
/// length.
pub open spec fn is_shared_secret(bytes: Seq<u8>, remote_public: Seq<u8>, secret: Seq<u8>) -> bool {
    bytes.len() == SERVER_OBFUSCATION_PUBLIC_KEY_LEN && be_value(bytes) == pow(
        be_value(remote_public) as int,
        be_value(secret),
    ) % be_value(prime()) as int
}

fn power_in_full_length(base: &[u8], secret: &[u8]) -> (r: Vec<u8>)
    ensures
        r@.len() == SERVER_OBFUSCATION_PUBLIC_KEY_LEN,
        be_value(r@) == pow(be_value(base@) as int, be_value(secret@)) % be_value(prime()) as int,
{
    let modulus: [u8; 96] = prime_bytes();
    proof {
        lemma_prime();
    }
    let power: Vec<u8> = mod_pow(base, secret, modulus.as_slice());
    proof {
        let m = be_value(prime()) as int;
        let x = pow(be_value(base@) as int, be_value(secret@));
        assert(x % m < m) by (nonlinear_arith)
            requires
                m > 1,
        ;
        lemma_minimal_len(power@, 96);
    }
    match biguint_to_fixed_be(power.as_slice(), SERVER_OBFUSCATION_PUBLIC_KEY_LEN) {
        Ok(fixed) => fixed,
        Err(_) => power,
    }
}

/// The number that a client publishes for its secret.
pub fn public_number(secret: &[u8]) -> (r: Vec<u8>)
    ensures
        is_public_number(r@, secret@),
{
    let generator: [u8; 1] = [2];
    proof {
        let g = generator@;
        assert(g.drop_last().len() == 0);
        assert(g.last() == 2);
        reveal_with_fuel(be_value, 2);
        assert(be_value(g) == 2);
    }
    power_in_full_length(generator.as_slice(), secret)
}

/// The secret that a client shares with the owner of a public number.
pub fn shared_secret(remote_public: &[u8], secret: &[u8]) -> (r: Vec<u8>)
    ensures
        is_shared_secret(r@, remote_public@, secret@),
{
    power_in_full_length(remote_public, secret)
}

/// The request that opens the key agreement: marker, public number, padding.
pub open spec fn obfuscation_request(marker: u8, public: Seq<u8>, padding: Seq<u8>) -> Seq<u8> {
    seq![marker] + public + seq![padding.len() as u8] + padding
}

/// The request that opens the key agreement.
pub fn encode_obfuscation_request(marker: u8, public: &[u8], padding: &[u8]) -> (r: Vec<u8>)
    requires
        padding.len() <= SERVER_OBFUSCATION_MAX_PADDING_LEN,
    ensures
        r@ == obfuscation_request(marker, public@, padding@),
{
    let mut request: Vec<u8> = Vec::new();
    request.push(marker);
    push_all(&mut request, public);
    request.push(padding.len() as u8);
    push_all(&mut request, padding);
    assert(request@ =~= obfuscation_request(marker, public@, padding@));
    request
}

/// Why the key agreement failed.
#[derive(Debug, Clone, Copy, PartialEq, Eq, Structural)]
pub enum HandshakeError {
    UnexpectedMagic(u32),
}

/// How much padding follows a deciphered answer header; an error where it does
/// not open with the sync value.
pub open spec fn answer_padding(header: Seq<u8>) -> Result<u8, HandshakeError> {
    if le32(header, 0) != EMULE_TCP_CRYPT_MAGIC_SYNC {
        Err(HandshakeError::UnexpectedMagic(le32(header, 0)))
    } else {
        Ok(header[6])
    }
}

/// What the client says under its cipher: sync value, method, padding, first
/// packet.
pub open spec fn client_answer(padding: Seq<u8>, first_packet: Seq<u8>) -> Seq<u8> {
    u32_le(EMULE_TCP_CRYPT_MAGIC_SYNC) + seq![
        EMULE_ENCRYPTION_METHOD_OBFUSCATION,
        padding.len() as u8,
    ] + padding + first_packet
}

/// A key agreement that waits for the server's public number.
pub struct ObfuscationHandshake {
    secret: Vec<u8>,
}

/// A key agreement whose ciphers are known and that waits for the server's
/// answer.
pub struct ObfuscationCiphers {
    pub send: Rc4KeyStream,
    pub receive: Rc4KeyStream,
}

impl ObfuscationHandshake {
    /// The secret number of the client.
    pub closed spec fn secret(self) -> Seq<u8> {
        self.secret@
    }

    /// Opens a key agreement with everything that is otherwise random given.
    pub fn start_with(secret: Vec<u8>, marker: u8, padding: &[u8]) -> (r: (Self, Vec<u8>))
        requires
            padding.len() <= SERVER_OBFUSCATION_MAX_PADDING_LEN,
        ensures
            r.0.secret() == secret@,
            exists|public: Seq<u8>|
                is_public_number(public, secret@) && r.1@ == #[trigger] obfuscation_request(
                    marker,
                    public,
                    padding@,
                ),
    {
        let public: Vec<u8> = public_number(secret.as_slice());
        let request: Vec<u8> = encode_obfuscation_request(marker, public.as_slice(), padding);
        (ObfuscationHandshake { secret }, request)
    }

    /// Opens a key agreement: a random secret, marker and padding.
    pub fn start() -> (r: (Self, Vec<u8>))
        ensures
            be_value(r.0.secret()) > 0,
            r.0.secret().len() == SERVER_OBFUSCATION_RANDOM_EXPONENT_LEN,
            exists|marker: u8, public: Seq<u8>, padding: Seq<u8>|
                !is_protocol_marker(marker) && is_public_number(public, r.0.secret())
                    && padding.len() <= SERVER_OBFUSCATION_MAX_PADDING_LEN && r.1@
                    == #[trigger] obfuscation_request(marker, public, padding),
    {
        let secret: Vec<u8> = random_nonzero_biguint(SERVER_OBFUSCATION_RANDOM_EXPONENT_LEN);
        let padding_len: u8 = random_up_to(SERVER_OBFUSCATION_MAX_PADDING_LEN);
        let padding: Vec<u8> = random_bytes(padding_len as usize);
        let marker: u8 = random_non_protocol_marker();
        Self::start_with(secret, marker, padding.as_slice())
    }

    /// Takes the server's public number and derives both ciphers.
    pub fn accept_public(self, remote_public: &[u8]) -> (r: ObfuscationCiphers)
        ensures
            exists|shared: Seq<u8>| #[trigger]
                is_shared_secret(shared, remote_public@, self.secret()) && (r.send@, r.receive@)
                    == client_ciphers(shared),
    {
        let shared: Vec<u8> = shared_secret(remote_public, self.secret.as_slice());
        let send = derive_server_cipher(shared.as_slice(), EMULE_TCP_CRYPT_MAGIC_REQUESTER);
        let receive = derive_server_cipher(shared.as_slice(), EMULE_TCP_CRYPT_MAGIC_SERVER);
        assert(is_shared_secret(shared@, remote_public@, self.secret()));
        ObfuscationCiphers { send, receive }
    }
}

impl ObfuscationCiphers {
    /// Takes the header of the server's answer as it came off the wire and
    /// says how many bytes of padding follow it.
    pub fn accept_header(&mut self, header: Vec<u8>) -> (r: Result<u8, HandshakeError>)
        requires
            header@.len() == SERVER_OBFUSCATION_HEADER_LEN,
        ensures
            r == answer_padding(crypted(old(self).receive@, header@)),
            final(self).receive@ == advanced(old(self).receive@, header@.len()),
            final(self).send@ == old(self).send@,
    {
        let mut header: Vec<u8> = header;
        self.receive.apply(&mut header);
        let magic: u32 = read_u32(header.as_slice(), 0);
        if magic != EMULE_TCP_CRYPT_MAGIC_SYNC {
            return Err(HandshakeError::UnexpectedMagic(magic));
        }
        Ok(header[6])
    }

    /// Takes the padding of the server's answer, whose bytes do not matter.
    pub fn accept_padding(&mut self, padding: Vec<u8>)
        ensures
            final(self).receive@ == advanced(old(self).receive@, padding@.len()),
            final(self).send@ == old(self).send@,
    {
        let mut padding: Vec<u8> = padding;
        self.receive.apply(&mut padding);
    }

    /// The client's answer with the padding given: it carries the first
    /// packet.
    pub fn answer_with(&mut self, first_packet: &[u8], padding: &[u8]) -> (r: Vec<u8>)
        requires
            padding.len() <= SERVER_OBFUSCATION_MAX_PADDING_LEN,
        ensures
            r@ == crypted(old(self).send@, client_answer(padding@, first_packet@)),
            final(self).send@ == advanced(
                old(self).send@,
                client_answer(padding@, first_packet@).len(),
            ),
            final(self).receive@ == old(self).receive@,
    {
        let mut response: Vec<u8> = Vec::new();
        push_u32(&mut response, EMULE_TCP_CRYPT_MAGIC_SYNC);
        response.push(EMULE_ENCRYPTION_METHOD_OBFUSCATION);
        response.push(padding.len() as u8);
        push_all(&mut response, padding);
        push_all(&mut response, first_packet);
        assert(response@ =~= client_answer(padding@, first_packet@));
        self.send.apply(&mut response);
        response
    }

    /// The client's answer with random padding.
    pub fn answer(&mut self, first_packet: &[u8]) -> (r: Vec<u8>)
        ensures
            exists|padding: Seq<u8>|
                padding.len() <= SERVER_OBFUSCATION_MAX_PADDING_LEN && r@ == crypted(
                    old(self).send@,
                    #[trigger] client_answer(padding, first_packet@),
                ) && final(self).send@ == advanced(
                    old(self).send@,
                    client_answer(padding, first_packet@).len(),
                ),
            final(self).receive@ == old(self).receive@,
    {
        let padding_len: u8 = random_up_to(SERVER_OBFUSCATION_MAX_PADDING_LEN);
        let padding: Vec<u8> = random_bytes(padding_len as usize);
        self.answer_with(first_packet, padding.as_slice())
    }
}

/// Client and server come to the same secret, so that each end's ciphers are
/// those of the other.
pub proof fn law_both_ends_share_the_ciphers(
    client_secret: Seq<u8>,
    server_secret: Seq<u8>,
    client_public: Seq<u8>,
    server_public: Seq<u8>,
    client_shared: Seq<u8>,
    server_shared: Seq<u8>,
    magic: u8,
)
    requires
        is_public_number(client_public, client_secret),
        is_public_number(server_public, server_secret),
        is_shared_secret(client_shared, server_public, client_secret),
        is_shared_secret(server_shared, client_public, server_secret),
    ensures
        be_value(client_shared) == be_value(server_shared),
        client_shared == server_shared,
        server_cipher(client_shared, magic) == server_cipher(server_shared, magic),
{
    lemma_prime();
    crate::bignum::law_shared_secret_agrees(
        2,
        be_value(client_secret),
        be_value(server_secret),
        be_value(prime()) as int,
    );
    lemma_be_value_injective(client_shared, server_shared);
}

/// Numbers of the same length that are equal have the same bytes.
proof fn lemma_be_value_injective(a: Seq<u8>, b: Seq<u8>)
    requires
        a.len() == b.len(),
        be_value(a) == be_value(b),
    ensures
        a == b,
    decreases a.len(),
{
    if a.len() > 0 {
        let x = be_value(a.drop_last());
        let y = be_value(b.drop_last());
        assert(x * 256 + a.last() == y * 256 + b.last());
        assert(x == y && a.last() == b.last());
        lemma_be_value_injective(a.drop_last(), b.drop_last());
        assert(a =~= a.drop_last().push(a.last()));
        assert(b =~= b.drop_last().push(b.last()));
    } else {
        assert(a =~= b);
    }
}

/// The server deciphers the client's answer with the same cipher, and finds the
/// first packet behind the padding.
pub proof fn law_first_packet_arrives(cipher: Rc4View, padding: Seq<u8>, first_packet: Seq<u8>)
    requires
        padding.len() <= SERVER_OBFUSCATION_MAX_PADDING_LEN,
    ensures
        ({
            let seen = crypted(cipher, crypted(cipher, client_answer(padding, first_packet)));
            &&& le32(seen, 0) == EMULE_TCP_CRYPT_MAGIC_SYNC
            &&& seen[5] == padding.len()
            &&& seen.skip(6 + padding.len() as int) == first_packet
        }),
{
    let inner = client_answer(padding, first_packet);
    crate::rc4::law_crypting_twice_restores(cipher, inner);
    assert(inner.subrange(0, 4) =~= u32_le(EMULE_TCP_CRYPT_MAGIC_SYNC));
    crate::bytes::lemma_le32(EMULE_TCP_CRYPT_MAGIC_SYNC, inner, 0);
    assert(inner.skip(6 + padding.len() as int) =~= first_packet);
}

/// The key of a cipher is the digest of the shared secret with the magic byte
/// behind it, and a thousand and twenty-four bytes of key stream are dropped.
pub proof fn law_cipher_key_is_the_secret_and_the_magic(
    secret: Seq<u8>,
    magic: u8,
    material: Seq<u8>,
)
    requires
        material.len() == secret.len() + 1,
        material.take(secret.len() as int) == secret,
        material.last() == magic,
    ensures
        server_cipher(secret, magic) == advanced(keyed(md5_digest(material)), 1024),
{
    assert(material =~= material.take(secret.len() as int).push(material.last()));
    assert(material =~= secret + seq![magic]);
}

/// What the client sends goes out under the key whose material ends in 34, and
/// what comes in is read under the one whose material ends in 203.
pub proof fn law_each_direction_has_its_own_key(
    shared: Seq<u8>,
    to_server: Seq<u8>,
    to_client: Seq<u8>,
)
    requires
        to_server.len() == shared.len() + 1,
        to_server.take(shared.len() as int) == shared,
        to_server.last() == 34,
        to_client.len() == shared.len() + 1,
        to_client.take(shared.len() as int) == shared,
        to_client.last() == 203,
    ensures
        client_ciphers(shared).0 == advanced(keyed(md5_digest(to_server)), 1024),
        client_ciphers(shared).1 == advanced(keyed(md5_digest(to_client)), 1024),
{
    law_cipher_key_is_the_secret_and_the_magic(shared, 34, to_server);
    law_cipher_key_is_the_secret_and_the_magic(shared, 203, to_client);
}

/// The request holds the marker, the whole public number, the length of the
/// padding and the padding, at the places where a server looks for them.
pub proof fn law_request_shows_the_public_number(
    marker: u8,
    public: Seq<u8>,
    padding: Seq<u8>,
)
    requires
        public.len() == 96,
        padding.len() <= 15,
    ensures
        ({
            let r = obfuscation_request(marker, public, padding);
            &&& r.len() == 98 + padding.len()
            &&& r[0] == marker
            &&& r.subrange(1, 97) == public
            &&& r[97] == padding.len()
            &&& r.skip(98) == padding
        }),
{
    let r = obfuscation_request(marker, public, padding);
    assert(r.subrange(1, 97) =~= public);
    assert(r.skip(98) =~= padding);
}

/// Raising a secret by one doubles its public number, modulo the modulus; the
/// public number of zero is one.
pub proof fn law_next_secret_doubles_the_public_number(
    secret: Seq<u8>,
    next: Seq<u8>,
    public: Seq<u8>,
    next_public: Seq<u8>,
)
    requires
        is_public_number(public, secret),
        is_public_number(next_public, next),
        be_value(next) == be_value(secret) + 1,
    ensures
        be_value(next_public) as int == (2 * be_value(public)) as int % (be_value(
            prime(),
        ) as int),
        be_value(secret) == 0 ==> be_value(public) == 1,
        be_value(public) < be_value(prime()),
{
    lemma_prime();
    let m = be_value(prime()) as int;
    let x = pow(2, be_value(secret));
    assert(pow(2, be_value(next)) == 2 * x) by {
        reveal(pow);
    }
    vstd::arithmetic::div_mod::lemma_mul_mod_noop_right(2, x, m);
    vstd::arithmetic::div_mod::lemma_mod_bound(x, m);
    if be_value(secret) == 0 {
        vstd::arithmetic::power::lemma_pow0(2);
        vstd::arithmetic::div_mod::lemma_small_mod(1, m as nat);
    }
}

/// With a server whose secret is one the shared secret is the client's own
/// public number; a client whose secret is one shares the server's.
pub proof fn law_shared_secret_of_one(
    remote_public: Seq<u8>,
    secret: Seq<u8>,
    shared: Seq<u8>,
)
    requires
        is_shared_secret(shared, remote_public, secret),
    ensures
        shared.len() == 96,
        be_value(remote_public) == 2 ==> is_public_number(shared, secret),
        be_value(secret) == 1 ==> be_value(shared) as int == be_value(remote_public) as int
            % be_value(prime()) as int,
{
    if be_value(secret) == 1 {
        vstd::arithmetic::power::lemma_pow1(be_value(remote_public) as int);
    }
}

/// The modulus, in words of sixteen bytes.
pub proof fn law_modulus()
    ensures
        prime().len() == 96,
        be_value(prime().subrange(0, 16)) == 0xF2BF52C55F587ADD5371A936E886EB3C,
        be_value(prime().subrange(16, 32)) == 0x6217A33EC34CB40DC73A41A643AFFCE7,
        be_value(prime().subrange(32, 48)) == 0x21FC286366535BDBCE259F2286DA4A91,
        be_value(prime().subrange(48, 64)) == 0xB207CBAA5255D4F61CCEAED45AD5E074,
        be_value(prime().subrange(64, 80)) == 0x7DF7781828105F340F762387F88B2891,
        be_value(prime().subrange(80, 96)) == 0x42FB42688F05150F548B5F436AF70DF3,
{
    lemma_sixteen(prime(), 0);
    lemma_sixteen(prime(), 16);
    lemma_sixteen(prime(), 32);
    lemma_sixteen(prime(), 48);
    lemma_sixteen(prime(), 64);
    lemma_sixteen(prime(), 80);
}

proof fn lemma_be_step(b: Seq<u8>, from: int, to: int)
    requires
        0 <= from <= to < b.len(),
    ensures
        be_value(b.subrange(from, to + 1)) == be_value(b.subrange(from, to)) * 256 + b[to],
{
    let s = b.subrange(from, to + 1);
    assert(s.drop_last() =~= b.subrange(from, to));
}

/// The number that sixteen bytes spell.
proof fn lemma_sixteen(b: Seq<u8>, i: int)
    requires
        0 <= i,
        i + 16 <= b.len(),
    ensures
        be_value(b.subrange(i, i + 16)) == ((((((((((((((b[i] * 256 + b[i + 1]) * 256 + b[i + 2])
            * 256 + b[i + 3]) * 256 + b[i + 4]) * 256 + b[i + 5]) * 256 + b[i + 6]) * 256 + b[i
            + 7]) * 256 + b[i + 8]) * 256 + b[i + 9]) * 256 + b[i + 10]) * 256 + b[i + 11]) * 256
            + b[i + 12]) * 256 + b[i + 13]) * 256 + b[i + 14]) * 256 + b[i + 15],
{
    assert(b.subrange(i, i).len() == 0);
    lemma_be_step(b, i, i);
    lemma_be_step(b, i, i + 1);
    lemma_be_step(b, i, i + 2);
    lemma_be_step(b, i, i + 3);
    lemma_be_step(b, i, i + 4);
    lemma_be_step(b, i, i + 5);
    lemma_be_step(b, i, i + 6);
    lemma_be_step(b, i, i + 7);
    lemma_be_step(b, i, i + 8);
    lemma_be_step(b, i, i + 9);
    lemma_be_step(b, i, i + 10);
    lemma_be_step(b, i, i + 11);
    lemma_be_step(b, i, i + 12);
    lemma_be_step(b, i, i + 13);
    lemma_be_step(b, i, i + 14);
    lemma_be_step(b, i, i + 15);
}

/// An answer that opens with the sync value says in its last byte how much
/// padding follows; one that opens with anything else is refused.
pub proof fn law_sync_value_is_told_from_others(
    opening: u32,
    method: u8,
    preferred: u8,
    padding_len: u8,
)
    ensures
        ({
            let header = u32_le(opening) + seq![method, preferred, padding_len];
            answer_padding(header) == if opening == 0x835E_6FC4 {
                Ok::<u8, HandshakeError>(padding_len)
            } else {
                Err(HandshakeError::UnexpectedMagic(opening))
            }
        }),
{
    let header = u32_le(opening) + seq![method, preferred, padding_len];
    assert(header.subrange(0, 4) =~= u32_le(opening));
    crate::bytes::lemma_le32(opening, header, 0);
    assert(header[6] == padding_len);
}

/// The client's answer opens with the sync value and the method of
/// obfuscation, says how long its padding is, and ends in the first packet.
pub proof fn law_answer_carries_the_first_packet(padding: Seq<u8>, first_packet: Seq<u8>)
    requires
        padding.len() <= 15,
    ensures
        ({
            let a = client_answer(padding, first_packet);
            &&& a.len() == 6 + padding.len() + first_packet.len()
            &&& a[0] == 0xC4 && a[1] == 0x6F && a[2] == 0x5E && a[3] == 0x83
            &&& a[4] == 0
            &&& a[5] == padding.len()
            &&& a.subrange(6, 6 + padding.len() as int) == padding
            &&& a.skip(6 + padding.len() as int) == first_packet
        }),
{
    let a = client_answer(padding, first_packet);
    assert(a.subrange(6, 6 + padding.len() as int) =~= padding);
    assert(a.skip(6 + padding.len() as int) =~= first_packet);
}

/// The marker is the first byte drawn that opens neither a plain nor a packed
/// packet.
pub proof fn law_marker_is_the_first_that_opens_no_packet(draws: Seq<u8>, k: int)
    requires
        0 <= k < draws.len(),
        draws[k] != 0xE3 && draws[k] != 0xC5 && draws[k] != 0xD4,
        forall|i: int|
            0 <= i < k ==> (#[trigger] draws[i] == 0xE3 || draws[i] == 0xC5 || draws[i] == 0xD4),
    ensures
        first_non_protocol(draws, 0) == draws[k],
{
    lemma_first_non_protocol(draws, 0, k);
}

proof fn lemma_first_non_protocol(draws: Seq<u8>, i: int, k: int)
    requires
        0 <= i <= k < draws.len(),
        !is_protocol_marker(draws[k]),
        forall|m: int| i <= m < k ==> is_protocol_marker(#[trigger] draws[m]),
    ensures
        first_non_protocol(draws, i) == draws[k],
    decreases k - i,
{
    if i < k {
        assert(is_protocol_marker(draws[i]));
        lemma_first_non_protocol(draws, i + 1, k);
    }
}

} // verus!
