//! The messages of a reask.
//!
//! A part status is a count of parts and a bit for each, the lowest bit of a
//! byte first. What follows the file hash of a ping depends on the version of
//! the protocol that the sender speaks.
use vstd::prelude::*;

use crate::bytes::{
    le16, push_all, push_u16, read_16, read_u16, suffix, to_vec, u16_le,
};
use crate::ids::Ed2kHash;

verus! {

pub const OP_REASKFILEPING: u8 = 0x90;
pub const OP_REASKACK: u8 = 0x91;
pub const OP_FILENOTFOUND: u8 = 0x92;
pub const OP_QUEUEFULL: u8 = 0x93;
pub const OP_REASKCALLBACKUDP: u8 = 0x94;
pub const OP_DIRECTCALLBACKREQ: u8 = 0x95;

/// Why a message cannot be read.
#[derive(Debug, Clone, Copy, PartialEq, Eq, Structural)]
pub enum ReaskError {
    ShortPartStatusHeader,
    ShortPartStatus,
    ShortFilePing,
    ShortCompleteSourceCount,
    ShortQueuePosition,
    ShortCallback,
    ShortDirectCallback,
}

// ---------------------------------------------------------------------------
// Part status
// ---------------------------------------------------------------------------
/// One where there is a part `i` and it is present, else zero.
pub open spec fn bit(parts: Seq<bool>, i: int) -> int {
    if 0 <= i < parts.len() && parts[i] {
        1
    } else {
        0
    }
}

/// Byte `k` of a part status: eight parts, the lowest bit first.
pub open spec fn status_byte(parts: Seq<bool>, k: int) -> u8 {
    (bit(parts, 8 * k) + 2 * bit(parts, 8 * k + 1) + 4 * bit(parts, 8 * k + 2) + 8 * bit(
        parts,
        8 * k + 3,
    ) + 16 * bit(parts, 8 * k + 4) + 32 * bit(parts, 8 * k + 5) + 64 * bit(parts, 8 * k + 6) + 128
        * bit(parts, 8 * k + 7)) as u8
}

/// How many bytes the bits of `n` parts take.
pub open spec fn status_len(n: int) -> int {
    (n + 7) / 8
}

/// The bits of parts.
pub open spec fn status_bits(parts: Seq<bool>) -> Seq<u8> {
    Seq::new(status_len(parts.len() as int) as nat, |k: int| status_byte(parts, k))
}

/// A part status. Without parts to speak of, the count is zero.
pub open spec fn part_status_bytes(part_status: Option<Seq<bool>>) -> Seq<u8> {
    match part_status {
        None => u16_le(0),
        Some(parts) => u16_le(
            if parts.len() <= u16::MAX {
                parts.len() as u16
            } else {
                u16::MAX
            },
        ) + status_bits(parts),
    }
}

/// The weight of bit `j` of a byte.
pub open spec fn weight(j: int) -> int {
    if j == 0 {
        1
    } else if j == 1 {
        2
    } else if j == 2 {
        4
    } else if j == 3 {
        8
    } else if j == 4 {
        16
    } else if j == 5 {
        32
    } else if j == 6 {
        64
    } else {
        128
    }
}

/// Whether bit `j` of a byte is set.
pub open spec fn bit_is_set(b: u8, j: int) -> bool {
    (b as int / weight(j)) % 2 == 1
}

/// The parts that `n` bits from position `from` on say.
pub open spec fn parts_at(b: Seq<u8>, from: int, n: nat) -> Seq<bool> {
    Seq::new(n, |i: int| bit_is_set(b[from + i / 8], i % 8))
}

/// The part status that `b` starts with, and what follows it. A count of zero
/// says that there is none.
pub open spec fn part_status_from(b: Seq<u8>) -> Result<
    (Option<Seq<bool>>, Seq<u8>),
    ReaskError,
> {
    if b.len() < 2 {
        Err(ReaskError::ShortPartStatusHeader)
    } else {
        let n = le16(b, 0) as int;
        let end = 2 + status_len(n);
        if n == 0 {
            Ok((None, b.skip(2)))
        } else if b.len() < end {
            Err(ReaskError::ShortPartStatus)
        } else {
            Ok((Some(parts_at(b, 2, n as nat)), b.skip(end)))
        }
    }
}

/// What an optional part status says.
pub open spec fn opt_parts(p: Option<Vec<bool>>) -> Option<Seq<bool>> {
    match p {
        Some(v) => Some(v@),
        None => None,
    }
}

/// What a borrowed optional part status says.
pub open spec fn opt_parts_ref(p: Option<&[bool]>) -> Option<Seq<bool>> {
    match p {
        Some(v) => Some(v@),
        None => None,
    }
}

fn part_bit(parts: &[bool], i: usize, j: usize) -> (r: u8)
    requires
        i <= parts@.len(),
    ensures
        r == bit(parts@, i + j),
{
    if j < parts.len() - i && parts[i + j] {
        1
    } else {
        0
    }
}

fn part_byte(parts: &[bool], k: usize) -> (r: u8)
    requires
        8 * k <= parts.len(),
    ensures
        r == status_byte(parts@, k as int),
{
    let i: usize = 8 * k;
    part_bit(parts, i, 0) + 2 * part_bit(parts, i, 1) + 4 * part_bit(parts, i, 2) + 8 * part_bit(
        parts,
        i,
        3,
    ) + 16 * part_bit(parts, i, 4) + 32 * part_bit(parts, i, 5) + 64 * part_bit(parts, i, 6) + 128
        * part_bit(parts, i, 7)
}

/// Encodes a part status.
pub fn encode_part_status(part_status: Option<&[bool]>) -> (r: Vec<u8>)
    ensures
        r@ == part_status_bytes(opt_parts_ref(part_status)),
{
    let mut out: Vec<u8> = Vec::new();
    let parts: &[bool] = match part_status {
        Some(parts) => parts,
        None => {
            push_u16(&mut out, 0);
            assert(out@ =~= u16_le(0));
            return out;
        },
    };
    let count: u16 = if parts.len() <= 65535 {
        parts.len() as u16
    } else {
        65535
    };
    push_u16(&mut out, count);
    let ghost head = out@;
    assert(head =~= u16_le(count));
    let bytes: usize = if parts.len() % 8 == 0 {
        parts.len() / 8
    } else {
        parts.len() / 8 + 1
    };
    let mut k: usize = 0;
    assert(out@ =~= head + status_bits(parts@).take(0));
    while k < bytes
        invariant
            k <= bytes,
            bytes == status_len(parts@.len() as int),
            out@ == head + status_bits(parts@).take(k as int),
        decreases bytes - k,
    {
        let b: u8 = part_byte(parts, k);
        out.push(b);
        assert(status_bits(parts@).take(k + 1) =~= status_bits(parts@).take(k as int).push(b));
        assert(out@ =~= head + status_bits(parts@).take(k + 1));
        k += 1;
    }
    assert(status_bits(parts@).take(k as int) =~= status_bits(parts@));
    out
}

fn has_bit(b: u8, j: usize) -> (r: bool)
    requires
        j < 8,
    ensures
        r == bit_is_set(b, j as int),
{
    let w: u8 = if j == 0 {
        1
    } else if j == 1 {
        2
    } else if j == 2 {
        4
    } else if j == 3 {
        8
    } else if j == 4 {
        16
    } else if j == 5 {
        32
    } else if j == 6 {
        64
    } else {
        128
    };
    (b / w) % 2 == 1
}

/// Decodes the part status that `buf` starts with, and says what follows it.
pub fn decode_part_status(buf: &[u8]) -> (r: Result<(Option<Vec<bool>>, &[u8]), ReaskError>)
    ensures
        match r {
            Ok((parts, rest)) => part_status_from(buf@) == Ok::<_, ReaskError>(
                (opt_parts(parts), rest@),
            ),
            Err(e) => part_status_from(buf@) == Err::<(Option<Seq<bool>>, Seq<u8>), _>(e),
        },
{
    if buf.len() < 2 {
        return Err(ReaskError::ShortPartStatusHeader);
    }
    let n: usize = read_u16(buf, 0) as usize;
    if n == 0 {
        return Ok((None, suffix(buf, 2)));
    }
    let end: usize = 2 + (n + 7) / 8;
    if buf.len() < end {
        return Err(ReaskError::ShortPartStatus);
    }
    let mut parts: Vec<bool> = Vec::with_capacity(n);
    let mut i: usize = 0;
    while i < n
        invariant
            i <= n,
            n <= u16::MAX,
            end == 2 + status_len(n as int),
            end <= buf@.len(),
            parts@ == parts_at(buf@, 2, i as nat),
        decreases n - i,
    {
        let p: bool = has_bit(buf[2 + i / 8], i % 8);
        parts.push(p);
        assert(parts@ =~= parts_at(buf@, 2, (i + 1) as nat));
        i += 1;
    }
    Ok((Some(parts), suffix(buf, end)))
}

proof fn lemma_status_byte_bits(parts: Seq<bool>, k: int, j: int)
    requires
        0 <= j < 8,
    ensures
        bit_is_set(status_byte(parts, k), j) == (bit(parts, 8 * k + j) == 1),
{
    let b0 = bit(parts, 8 * k);
    let b1 = bit(parts, 8 * k + 1);
    let b2 = bit(parts, 8 * k + 2);
    let b3 = bit(parts, 8 * k + 3);
    let b4 = bit(parts, 8 * k + 4);
    let b5 = bit(parts, 8 * k + 5);
    let b6 = bit(parts, 8 * k + 6);
    let b7 = bit(parts, 8 * k + 7);
    let s = b0 + 2 * b1 + 4 * b2 + 8 * b3 + 16 * b4 + 32 * b5 + 64 * b6 + 128 * b7;
    assert(status_byte(parts, k) == s);
    if j == 0 {
        assert(s == b0 + 2 * (b1 + 2 * b2 + 4 * b3 + 8 * b4 + 16 * b5 + 32 * b6 + 64 * b7));
    } else if j == 1 {
        assert(s / 2 == b1 + 2 * (b2 + 2 * b3 + 4 * b4 + 8 * b5 + 16 * b6 + 32 * b7));
    } else if j == 2 {
        assert(s / 4 == b2 + 2 * (b3 + 2 * b4 + 4 * b5 + 8 * b6 + 16 * b7));
    } else if j == 3 {
        assert(s / 8 == b3 + 2 * (b4 + 2 * b5 + 4 * b6 + 8 * b7));
    } else if j == 4 {
        assert(s / 16 == b4 + 2 * (b5 + 2 * b6 + 4 * b7));
    } else if j == 5 {
        assert(s / 32 == b5 + 2 * (b6 + 2 * b7));
    } else if j == 6 {
        assert(s / 64 == b6 + 2 * b7);
    } else {
        assert(s / 128 == b7);
    }
}

/// A part status reads back. The count must not be zero, which stands for no
/// status, and must fit its field.
pub proof fn law_part_status_reads_back(part_status: Option<Seq<bool>>, rest: Seq<u8>)
    requires
        part_status matches Some(parts) ==> 0 < parts.len() <= u16::MAX,
    ensures
        part_status_from(part_status_bytes(part_status) + rest) == Ok::<_, ReaskError>(
            (part_status, rest),
        ),
{
    let b = part_status_bytes(part_status) + rest;
    match part_status {
        None => {
            assert(b.subrange(0, 2) =~= u16_le(0));
            crate::bytes::lemma_le16(0, b, 0);
            assert(b.skip(2) =~= rest);
        },
        Some(parts) => {
            let n = parts.len() as int;
            assert(b.subrange(0, 2) =~= u16_le(n as u16));
            crate::bytes::lemma_le16(n as u16, b, 0);
            assert(b.skip(2 + status_len(n)) =~= rest);
            let back = parts_at(b, 2, n as nat);
            assert forall|i: int| 0 <= i < n implies #[trigger] back[i] == parts[i] by {
                let k = i / 8;
                let j = i % 8;
                assert(b[2 + k] == status_byte(parts, k));
                lemma_status_byte_bits(parts, k, j);
                assert(8 * k + j == i);
            }
            assert(back =~= parts);
        },
    }
}

// ---------------------------------------------------------------------------
// The ping of a file
// ---------------------------------------------------------------------------
/// What a client that reasks says.
#[derive(Debug, Clone, PartialEq, Eq)]
pub struct ReaskFilePing {
    pub file_hash: Ed2kHash,
    /// The parts that the sender has, where it says so.
    pub part_status: Option<Vec<bool>>,
    /// The complete sources that the sender knows, where it says so.
    pub complete_source_count: Option<u16>,
}

/// What a client that reasks says.
pub struct FilePingView {
    pub file_hash: Seq<u8>,
    pub part_status: Option<Seq<bool>>,
    pub complete_source_count: Option<u16>,
}

impl View for ReaskFilePing {
    type V = FilePingView;

    open spec fn view(&self) -> FilePingView {
        FilePingView {
            file_hash: self.file_hash.0@,
            part_status: opt_parts(self.part_status),
            complete_source_count: self.complete_source_count,
        }
    }
}

/// What follows the file hash: a part status from version four on, a count of
/// complete sources from version three on.
pub open spec fn reask_tail(
    part_status: Option<Seq<bool>>,
    complete_source_count: u16,
    udp_version: u8,
) -> Seq<u8> {
    (if udp_version > 3 {
        part_status_bytes(part_status)
    } else {
        Seq::empty()
    }) + (if udp_version > 2 {
        u16_le(complete_source_count)
    } else {
        Seq::empty()
    })
}

/// The body of a ping.
pub open spec fn file_ping_body(
    file_hash: Seq<u8>,
    part_status: Option<Seq<bool>>,
    complete_source_count: u16,
    sender_udp_version: u8,
) -> Seq<u8> {
    file_hash + reask_tail(part_status, complete_source_count, sender_udp_version)
}

/// What the bytes behind the file hash say.
pub open spec fn tail_from(b: Seq<u8>, udp_version: u8) -> Result<
    (Option<Seq<bool>>, Option<u16>),
    ReaskError,
> {
    let status = if udp_version > 3 {
        part_status_from(b)
    } else {
        Ok((None, b))
    };
    match status {
        Err(e) => Err(e),
        Ok((parts, rest)) => if udp_version > 2 {
            if rest.len() < 2 {
                Err(ReaskError::ShortCompleteSourceCount)
            } else {
                Ok((parts, Some(le16(rest, 0))))
            }
        } else {
            Ok((parts, None))
        },
    }
}

/// What the body of a ping says.
pub open spec fn file_ping_from(b: Seq<u8>, sender_udp_version: u8) -> Result<
    FilePingView,
    ReaskError,
> {
    if b.len() < 16 {
        Err(ReaskError::ShortFilePing)
    } else {
        match tail_from(b.skip(16), sender_udp_version) {
            Err(e) => Err(e),
            Ok((part_status, complete_source_count)) => Ok(
                FilePingView { file_hash: b.take(16), part_status, complete_source_count },
            ),
        }
    }
}

fn push_tail(
    body: &mut Vec<u8>,
    part_status: Option<&[bool]>,
    complete_source_count: u16,
    udp_version: u8,
)
    ensures
        final(body)@ == old(body)@ + reask_tail(
            opt_parts_ref(part_status),
            complete_source_count,
            udp_version,
        ),
{
    if udp_version > 3 {
        let status: Vec<u8> = encode_part_status(part_status);
        push_all(body, status.as_slice());
    }
    if udp_version > 2 {
        push_u16(body, complete_source_count);
    }
    assert(body@ =~= old(body)@ + reask_tail(
        opt_parts_ref(part_status),
        complete_source_count,
        udp_version,
    ));
}

fn decode_tail(tail: &[u8], udp_version: u8) -> (r: Result<
    (Option<Vec<bool>>, Option<u16>),
    ReaskError,
>)
    ensures
        match r {
            Ok((parts, count)) => tail_from(tail@, udp_version) == Ok::<_, ReaskError>(
                (opt_parts(parts), count),
            ),
            Err(e) => tail_from(tail@, udp_version) == Err::<
                (Option<Seq<bool>>, Option<u16>),
                _,
            >(e),
        },
{
    let mut rest: &[u8] = tail;
    let mut part_status: Option<Vec<bool>> = None;
    if udp_version > 3 {
        let (parts, behind) = match decode_part_status(rest) {
            Ok(x) => x,
            Err(e) => return Err(e),
        };
        part_status = parts;
        rest = behind;
    }
    if udp_version > 2 {
        if rest.len() < 2 {
            return Err(ReaskError::ShortCompleteSourceCount);
        }
        return Ok((part_status, Some(read_u16(rest, 0))));
    }
    Ok((part_status, None))
}

/// Encodes the body of a ping for the version that this client speaks.
pub fn encode_reask_file_ping(
    file_hash: &Ed2kHash,
    part_status: Option<&[bool]>,
    complete_source_count: u16,
    sender_udp_version: u8,
) -> (r: Vec<u8>)
    ensures
        r@ == file_ping_body(
            file_hash.0@,
            opt_parts_ref(part_status),
            complete_source_count,
            sender_udp_version,
        ),
{
    let mut body: Vec<u8> = to_vec(file_hash.0.as_slice());
    assert(body@ =~= file_hash.0@);
    push_tail(&mut body, part_status, complete_source_count, sender_udp_version);
    body
}

/// Decodes the body of a ping for the version that its sender speaks.
pub fn decode_reask_file_ping(body: &[u8], sender_udp_version: u8) -> (r: Result<
    ReaskFilePing,
    ReaskError,
>)
    ensures
        match r {
            Ok(p) => file_ping_from(body@, sender_udp_version) == Ok::<_, ReaskError>(p@),
            Err(e) => file_ping_from(body@, sender_udp_version) == Err::<FilePingView, _>(e),
        },
{
    if body.len() < 16 {
        return Err(ReaskError::ShortFilePing);
    }
    let file_hash = Ed2kHash(read_16(body, 0));
    assert(file_hash.0@ =~= body@.take(16));
    match decode_tail(suffix(body, 16), sender_udp_version) {
        Ok((part_status, complete_source_count)) => Ok(
            ReaskFilePing { file_hash, part_status, complete_source_count },
        ),
        Err(e) => Err(e),
    }
}

/// What a part status is for a receiver that speaks the version: nothing below
/// version four.
pub open spec fn heard_parts(part_status: Option<Seq<bool>>, udp_version: u8) -> Option<Seq<bool>> {
    if udp_version > 3 {
        part_status
    } else {
        None
    }
}

/// What a count is for a receiver that speaks the version: nothing below
/// version three.
pub open spec fn heard_count(count: u16, udp_version: u8) -> Option<u16> {
    if udp_version > 2 {
        Some(count)
    } else {
        None
    }
}

proof fn lemma_tail_reads_back(part_status: Option<Seq<bool>>, count: u16, udp_version: u8)
    requires
        part_status matches Some(parts) ==> 0 < parts.len() <= u16::MAX,
    ensures
        tail_from(reask_tail(part_status, count, udp_version), udp_version) == Ok::<
            _,
            ReaskError,
        >((heard_parts(part_status, udp_version), heard_count(count, udp_version))),
{
    let b = reask_tail(part_status, count, udp_version);
    if udp_version > 3 {
        law_part_status_reads_back(part_status, u16_le(count));
        assert(b =~= part_status_bytes(part_status) + u16_le(count));
        assert(u16_le(count).subrange(0, 2) =~= u16_le(count));
        crate::bytes::lemma_le16(count, u16_le(count), 0);
    } else if udp_version > 2 {
        assert(b =~= u16_le(count));
        assert(b.subrange(0, 2) =~= u16_le(count));
        crate::bytes::lemma_le16(count, b, 0);
    }
}

/// A ping reads back at a receiver that takes it for the same version.
pub proof fn law_file_ping_reads_back(
    file_hash: Seq<u8>,
    part_status: Option<Seq<bool>>,
    count: u16,
    udp_version: u8,
)
    requires
        file_hash.len() == 16,
        part_status matches Some(parts) ==> 0 < parts.len() <= u16::MAX,
    ensures
        file_ping_from(file_ping_body(file_hash, part_status, count, udp_version), udp_version)
            == Ok::<_, ReaskError>(
            (FilePingView {
                file_hash,
                part_status: heard_parts(part_status, udp_version),
                complete_source_count: heard_count(count, udp_version),
            }),
        ),
{
    let b = file_ping_body(file_hash, part_status, count, udp_version);
    lemma_tail_reads_back(part_status, count, udp_version);
    assert(b.take(16) =~= file_hash);
    assert(b.skip(16) =~= reask_tail(part_status, count, udp_version));
}

// ---------------------------------------------------------------------------
// The answer with a queue position
// ---------------------------------------------------------------------------
/// What a source answers.
#[derive(Debug, Clone, PartialEq, Eq)]
pub struct ReaskAck {
    /// The parts that the source has, where it says so.
    pub part_status: Option<Vec<bool>>,
    /// The place in its queue.
    pub queue_position: u16,
}

/// What a source answers.
pub struct AckView {
    pub part_status: Option<Seq<bool>>,
    pub queue_position: u16,
}

impl View for ReaskAck {
    type V = AckView;

    open spec fn view(&self) -> AckView {
        AckView { part_status: opt_parts(self.part_status), queue_position: self.queue_position }
    }
}

/// The body of an answer.
pub open spec fn ack_body(part_status: Option<Seq<bool>>, queue_position: u16, udp_version: u8) -> Seq<u8> {
    if udp_version > 3 {
        part_status_bytes(part_status) + u16_le(queue_position)
    } else {
        u16_le(queue_position)
    }
}

/// What the body of an answer says.
pub open spec fn ack_from(b: Seq<u8>, udp_version: u8) -> Result<AckView, ReaskError> {
    let status = if udp_version > 3 {
        part_status_from(b)
    } else {
        Ok((None, b))
    };
    match status {
        Err(e) => Err(e),
        Ok((part_status, rest)) => if rest.len() < 2 {
            Err(ReaskError::ShortQueuePosition)
        } else {
            Ok(AckView { part_status, queue_position: le16(rest, 0) })
        },
    }
}

/// Encodes an answer for the version that the client which reasked speaks.
pub fn encode_reask_ack(
    part_status: Option<&[bool]>,
    queue_position: u16,
    peer_udp_version: u8,
) -> (r: Vec<u8>)
    ensures
        r@ == ack_body(opt_parts_ref(part_status), queue_position, peer_udp_version),
{
    let mut body: Vec<u8> = Vec::new();
    if peer_udp_version > 3 {
        body = encode_part_status(part_status);
    }
    push_u16(&mut body, queue_position);
    assert(body@ =~= ack_body(opt_parts_ref(part_status), queue_position, peer_udp_version));
    body
}

/// Decodes an answer for the version that this client speaks.
pub fn decode_reask_ack(body: &[u8], our_udp_version: u8) -> (r: Result<ReaskAck, ReaskError>)
    ensures
        match r {
            Ok(a) => ack_from(body@, our_udp_version) == Ok::<_, ReaskError>(a@),
            Err(e) => ack_from(body@, our_udp_version) == Err::<AckView, _>(e),
        },
{
    let mut rest: &[u8] = body;
    let mut part_status: Option<Vec<bool>> = None;
    if our_udp_version > 3 {
        let (parts, behind) = match decode_part_status(rest) {
            Ok(x) => x,
            Err(e) => return Err(e),
        };
        part_status = parts;
        rest = behind;
    }
    if rest.len() < 2 {
        return Err(ReaskError::ShortQueuePosition);
    }
    Ok(ReaskAck { part_status, queue_position: read_u16(rest, 0) })
}

/// An answer reads back.
pub proof fn law_ack_reads_back(
    part_status: Option<Seq<bool>>,
    queue_position: u16,
    udp_version: u8,
)
    requires
        part_status matches Some(parts) ==> 0 < parts.len() <= u16::MAX,
    ensures
        ack_from(ack_body(part_status, queue_position, udp_version), udp_version) == Ok::<
            _,
            ReaskError,
        >((AckView { part_status: heard_parts(part_status, udp_version), queue_position })),
{
    law_part_status_reads_back(part_status, u16_le(queue_position));
    assert(u16_le(queue_position).subrange(0, 2) =~= u16_le(queue_position));
    crate::bytes::lemma_le16(queue_position, u16_le(queue_position), 0);
}

// ---------------------------------------------------------------------------
// The reask over a buddy
// ---------------------------------------------------------------------------
/// What a reask over the buddy of a source says.
#[derive(Debug, Clone, PartialEq, Eq)]
pub struct ReaskCallbackUdp {
    pub buddy_id: Ed2kHash,
    pub file_hash: Ed2kHash,
    pub part_status: Option<Vec<bool>>,
    pub complete_source_count: Option<u16>,
}

/// What a reask over the buddy of a source says.
pub struct CallbackUdpView {
    pub buddy_id: Seq<u8>,
    pub ping: FilePingView,
}

impl View for ReaskCallbackUdp {
    type V = CallbackUdpView;

    open spec fn view(&self) -> CallbackUdpView {
        CallbackUdpView {
            buddy_id: self.buddy_id.0@,
            ping: FilePingView {
                file_hash: self.file_hash.0@,
                part_status: opt_parts(self.part_status),
                complete_source_count: self.complete_source_count,
            },
        }
    }
}

/// What the buddy of a source is to pass on: everything behind its own id, as
/// it came.
#[derive(Debug, Clone, PartialEq, Eq)]
pub struct ForwardedReask {
    pub buddy_id: Ed2kHash,
    pub file_hash: Ed2kHash,
    /// The file hash and whatever follows it.
    pub forwarded_tail: Vec<u8>,
}

/// What the buddy of a source is to pass on.
pub struct ForwardedView {
    pub buddy_id: Seq<u8>,
    pub file_hash: Seq<u8>,
    pub forwarded_tail: Seq<u8>,
}

impl View for ForwardedReask {
    type V = ForwardedView;

    open spec fn view(&self) -> ForwardedView {
        ForwardedView {
            buddy_id: self.buddy_id.0@,
            file_hash: self.file_hash.0@,
            forwarded_tail: self.forwarded_tail@,
        }
    }
}

/// The body of a reask over a buddy: its id, and a ping.
pub open spec fn callback_udp_body(
    buddy_id: Seq<u8>,
    file_hash: Seq<u8>,
    part_status: Option<Seq<bool>>,
    complete_source_count: u16,
    sender_udp_version: u8,
) -> Seq<u8> {
    buddy_id + file_ping_body(file_hash, part_status, complete_source_count, sender_udp_version)
}

/// What the body of a reask over a buddy says.
pub open spec fn callback_udp_from(b: Seq<u8>, sender_udp_version: u8) -> Result<
    CallbackUdpView,
    ReaskError,
> {
    if b.len() < 32 {
        Err(ReaskError::ShortCallback)
    } else {
        match file_ping_from(b.skip(16), sender_udp_version) {
            Err(e) => Err(e),
            Ok(ping) => Ok(CallbackUdpView { buddy_id: b.take(16), ping }),
        }
    }
}

/// What the body of a reask over a buddy is to that buddy, whatever version
/// its sender speaks.
pub open spec fn forwarded_from(b: Seq<u8>) -> Result<ForwardedView, ReaskError> {
    if b.len() < 32 {
        Err(ReaskError::ShortCallback)
    } else {
        Ok(
            ForwardedView {
                buddy_id: b.take(16),
                file_hash: b.subrange(16, 32),
                forwarded_tail: b.skip(16),
            },
        )
    }
}

/// Encodes the body of a reask over a buddy.
pub fn encode_reask_callback_udp(
    buddy_id: &Ed2kHash,
    file_hash: &Ed2kHash,
    part_status: Option<&[bool]>,
    complete_source_count: u16,
    sender_udp_version: u8,
) -> (r: Vec<u8>)
    ensures
        r@ == callback_udp_body(
            buddy_id.0@,
            file_hash.0@,
            opt_parts_ref(part_status),
            complete_source_count,
            sender_udp_version,
        ),
{
    let mut body: Vec<u8> = to_vec(buddy_id.0.as_slice());
    assert(body@ =~= buddy_id.0@);
    let ping: Vec<u8> = encode_reask_file_ping(
        file_hash,
        part_status,
        complete_source_count,
        sender_udp_version,
    );
    push_all(&mut body, ping.as_slice());
    body
}

/// Decodes the body of a reask over a buddy for the version that its sender
/// speaks.
pub fn decode_reask_callback_udp(body: &[u8], sender_udp_version: u8) -> (r: Result<
    ReaskCallbackUdp,
    ReaskError,
>)
    ensures
        match r {
            Ok(c) => callback_udp_from(body@, sender_udp_version) == Ok::<_, ReaskError>(c@),
            Err(e) => callback_udp_from(body@, sender_udp_version) == Err::<CallbackUdpView, _>(e),
        },
{
    if body.len() < 32 {
        return Err(ReaskError::ShortCallback);
    }
    let buddy_id = Ed2kHash(read_16(body, 0));
    assert(buddy_id.0@ =~= body@.take(16));
    match decode_reask_file_ping(suffix(body, 16), sender_udp_version) {
        Ok(ping) => Ok(
            ReaskCallbackUdp {
                buddy_id,
                file_hash: ping.file_hash,
                part_status: ping.part_status,
                complete_source_count: ping.complete_source_count,
            },
        ),
        Err(e) => Err(e),
    }
}

/// Decodes the body of a reask over a buddy for that buddy.
pub fn decode_forwarded_reask(body: &[u8]) -> (r: Result<ForwardedReask, ReaskError>)
    ensures
        match r {
            Ok(f) => forwarded_from(body@) == Ok::<_, ReaskError>(f@),
            Err(e) => forwarded_from(body@) == Err::<ForwardedView, _>(e),
        },
{
    if body.len() < 32 {
        return Err(ReaskError::ShortCallback);
    }
    let buddy_id = Ed2kHash(read_16(body, 0));
    let file_hash = Ed2kHash(read_16(body, 16));
    assert(buddy_id.0@ =~= body@.take(16));
    assert(file_hash.0@ =~= body@.subrange(16, 32));
    let forwarded_tail: Vec<u8> = to_vec(suffix(body, 16));
    Ok(ForwardedReask { buddy_id, file_hash, forwarded_tail })
}

/// A reask over a buddy reads back, and what the buddy passes on is the ping
/// itself.
pub proof fn law_callback_udp_reads_back(
    buddy_id: Seq<u8>,
    file_hash: Seq<u8>,
    part_status: Option<Seq<bool>>,
    count: u16,
    udp_version: u8,
)
    requires
        buddy_id.len() == 16,
        file_hash.len() == 16,
        part_status matches Some(parts) ==> 0 < parts.len() <= u16::MAX,
    ensures
        ({
            let b = callback_udp_body(buddy_id, file_hash, part_status, count, udp_version);
            &&& callback_udp_from(b, udp_version) == Ok::<_, ReaskError>(
                (CallbackUdpView {
                    buddy_id,
                    ping: FilePingView {
                        file_hash,
                        part_status: heard_parts(part_status, udp_version),
                        complete_source_count: heard_count(count, udp_version),
                    },
                }),
            )
            &&& forwarded_from(b) == Ok::<_, ReaskError>(
                (ForwardedView {
                    buddy_id,
                    file_hash,
                    forwarded_tail: file_ping_body(file_hash, part_status, count, udp_version),
                }),
            )
        }),
{
    let ping = file_ping_body(file_hash, part_status, count, udp_version);
    let b = callback_udp_body(buddy_id, file_hash, part_status, count, udp_version);
    law_file_ping_reads_back(file_hash, part_status, count, udp_version);
    assert(b.take(16) =~= buddy_id);
    assert(b.skip(16) =~= ping);
    assert(b.subrange(16, 32) =~= file_hash);
}

// ---------------------------------------------------------------------------
// The direct callback
// ---------------------------------------------------------------------------
/// A peer that cannot connect asks to be connected to.
#[derive(Debug, Clone, Copy, PartialEq, Eq)]
pub struct DirectCallbackReq {
    pub tcp_port: u16,
    pub user_hash: [u8; 16],
    pub connect_options: u8,
}

/// A peer that cannot connect asks to be connected to.
pub struct DirectCallbackView {
    pub tcp_port: u16,
    pub user_hash: Seq<u8>,
    pub connect_options: u8,
}

impl View for DirectCallbackReq {
    type V = DirectCallbackView;

    open spec fn view(&self) -> DirectCallbackView {
        DirectCallbackView {
            tcp_port: self.tcp_port,
            user_hash: self.user_hash@,
            connect_options: self.connect_options,
        }
    }
}

/// The body of a request for a direct callback.
pub open spec fn direct_callback_body(v: DirectCallbackView) -> Seq<u8> {
    (u16_le(v.tcp_port) + v.user_hash).push(v.connect_options)
}

/// What the body of a request for a direct callback says. What follows it is
/// ignored.
pub open spec fn direct_callback_from(b: Seq<u8>) -> Result<DirectCallbackView, ReaskError> {
    if b.len() < 19 {
        Err(ReaskError::ShortDirectCallback)
    } else {
        Ok(
            DirectCallbackView {
                tcp_port: le16(b, 0),
                user_hash: b.subrange(2, 18),
                connect_options: b[18],
            },
        )
    }
}

/// Encodes the body of a request for a direct callback.
pub fn encode_direct_callback_req(
    tcp_port: u16,
    user_hash: &[u8; 16],
    connect_options: u8,
) -> (r: Vec<u8>)
    ensures
        r@ == direct_callback_body(
            (DirectCallbackView { tcp_port, user_hash: user_hash@, connect_options }),
        ),
{
    let mut body: Vec<u8> = Vec::new();
    push_u16(&mut body, tcp_port);
    push_all(&mut body, user_hash.as_slice());
    body.push(connect_options);
    assert(body@ =~= direct_callback_body(
        DirectCallbackView { tcp_port, user_hash: user_hash@, connect_options },
    ));
    body
}

/// Decodes the body of a request for a direct callback.
pub fn decode_direct_callback_req(body: &[u8]) -> (r: Result<DirectCallbackReq, ReaskError>)
    ensures
        match r {
            Ok(d) => direct_callback_from(body@) == Ok::<_, ReaskError>(d@),
            Err(e) => direct_callback_from(body@) == Err::<DirectCallbackView, _>(e),
        },
{
    if body.len() < 19 {
        return Err(ReaskError::ShortDirectCallback);
    }
    let user_hash: [u8; 16] = read_16(body, 2);
    Ok(
        DirectCallbackReq {
            tcp_port: read_u16(body, 0),
            user_hash,
            connect_options: body[18],
        },
    )
}

/// A request for a direct callback reads back.
pub proof fn law_direct_callback_reads_back(v: DirectCallbackView)
    requires
        v.user_hash.len() == 16,
    ensures
        direct_callback_from(direct_callback_body(v)) == Ok::<_, ReaskError>(v),
{
    let b = direct_callback_body(v);
    assert(b.subrange(0, 2) =~= u16_le(v.tcp_port));
    crate::bytes::lemma_le16(v.tcp_port, b, 0);
    assert(b.subrange(2, 18) =~= v.user_hash);
}

// ---------------------------------------------------------------------------
// The bytes of the messages
// ---------------------------------------------------------------------------
/// The bits of a part status stand behind its two-byte count, eight to a byte,
/// the first part in the lowest bit; bits behind the last part are zero.
pub proof fn law_first_part_is_the_lowest_bit(parts: Seq<bool>, k: int)
    requires
        parts.len() <= u16::MAX,
        0 <= k < (parts.len() + 7) / 8,
    ensures
        ({
            let b = part_status_bytes(Some(parts));
            let here = |j: int| 8 * k + j < parts.len() && parts[8 * k + j];
            &&& b.len() == 2 + (parts.len() + 7) / 8
            &&& b[0] + 256 * b[1] == parts.len()
            &&& b[2 + k] == (if here(0) {
                1int
            } else {
                0
            }) + (if here(1) {
                2int
            } else {
                0
            }) + (if here(2) {
                4int
            } else {
                0
            }) + (if here(3) {
                8int
            } else {
                0
            }) + (if here(4) {
                16int
            } else {
                0
            }) + (if here(5) {
                32int
            } else {
                0
            }) + (if here(6) {
                64int
            } else {
                0
            }) + (if here(7) {
                128int
            } else {
                0
            })
        }),
{
    let b = part_status_bytes(Some(parts));
    assert(b[2 + k] == status_byte(parts, k));
    let n = parts.len() as u16;
    assert(b[0] == u16_le(n)[0] && b[1] == u16_le(n)[1]);
}

/// What a ping holds by the version that its sender speaks: the hash alone below
/// three, a count of complete sources from three on, and ahead of it the part
/// status from four on.
pub proof fn law_ping_grows_with_the_version(
    file_hash: Seq<u8>,
    part_status: Option<Seq<bool>>,
    count: u16,
    version: u8,
)
    ensures
        version <= 2 ==> file_ping_body(file_hash, part_status, count, version) == file_hash,
        version == 3 ==> file_ping_body(file_hash, part_status, count, version) == file_hash
            + u16_le(count),
        version >= 4 ==> file_ping_body(file_hash, part_status, count, version) == file_hash
            + part_status_bytes(part_status) + u16_le(count),
{
    assert(file_hash + reask_tail(part_status, count, version) =~= (if version <= 2 {
        file_hash
    } else if version == 3 {
        file_hash + u16_le(count)
    } else {
        file_hash + part_status_bytes(part_status) + u16_le(count)
    }));
}

/// An answer ends in the place in the queue, with the part status ahead of it
/// from version four on.
pub proof fn law_answer_ends_in_the_place(part_status: Option<Seq<bool>>, place: u16, version: u8)
    ensures
        version <= 3 ==> ack_body(part_status, place, version) == u16_le(place),
        version >= 4 ==> ack_body(part_status, place, version) == part_status_bytes(part_status)
            + u16_le(place),
        part_status_bytes(None) == u16_le(0),
{
}

/// A reask over a buddy is the id of the buddy and the ping; the buddy passes on
/// the ping, without its id, as it came.
pub proof fn law_buddy_passes_the_ping_on(
    buddy_id: Seq<u8>,
    file_hash: Seq<u8>,
    part_status: Option<Seq<bool>>,
    count: u16,
    version: u8,
)
    requires
        buddy_id.len() == 16,
        file_hash.len() == 16,
    ensures
        ({
            let ping = file_ping_body(file_hash, part_status, count, version);
            let body = callback_udp_body(buddy_id, file_hash, part_status, count, version);
            &&& body.take(16) == buddy_id
            &&& body.skip(16) == ping
            &&& forwarded_from(body) == Ok::<_, ReaskError>(
                ForwardedView { buddy_id, file_hash, forwarded_tail: ping },
            )
        }),
{
    let ping = file_ping_body(file_hash, part_status, count, version);
    let body = callback_udp_body(buddy_id, file_hash, part_status, count, version);
    assert(body.take(16) =~= buddy_id);
    assert(body.skip(16) =~= ping);
    assert(body.subrange(16, 32) =~= file_hash);
}

/// A request for a direct callback is nineteen bytes: port, user hash, options.
pub proof fn law_direct_callback_is_port_hash_and_options(v: DirectCallbackView)
    requires
        v.user_hash.len() == 16,
    ensures
        ({
            let b = direct_callback_body(v);
            &&& b.len() == 19
            &&& b.take(2) == u16_le(v.tcp_port)
            &&& b.subrange(2, 18) == v.user_hash
            &&& b[18] == v.connect_options
        }),
{
    let b = direct_callback_body(v);
    assert(b.take(2) =~= u16_le(v.tcp_port));
    assert(b.subrange(2, 18) =~= v.user_hash);
}

/// What is too short for its message is refused by what is missing.
pub proof fn law_short_messages_are_refused(b: Seq<u8>, version: u8)
    ensures
        b.len() < 16 ==> file_ping_from(b, version) == Err::<FilePingView, _>(
            ReaskError::ShortFilePing,
        ),
        version == 3 && 16 <= b.len() < 18 ==> file_ping_from(b, version) == Err::<FilePingView, _>(
            ReaskError::ShortCompleteSourceCount,
        ),
        version >= 4 && 16 <= b.len() < 18 ==> file_ping_from(b, version) == Err::<FilePingView, _>(
            ReaskError::ShortPartStatusHeader,
        ),
        version <= 3 && b.len() < 2 ==> ack_from(b, version) == Err::<AckView, _>(
            ReaskError::ShortQueuePosition,
        ),
        b.len() < 32 ==> callback_udp_from(b, version) == Err::<CallbackUdpView, _>(
            ReaskError::ShortCallback,
        ) && forwarded_from(b) == Err::<ForwardedView, _>(ReaskError::ShortCallback),
        b.len() < 19 ==> direct_callback_from(b) == Err::<DirectCallbackView, _>(
            ReaskError::ShortDirectCallback,
        ),
{
}

} // verus!
