//! Status requests over UDP: how many users and files a server has.
//!
//! A request carries a challenge that the answer echoes; an answer with
//! another challenge is unsolicited and is discarded. A server is asked only
//! once in a long while.
use vstd::prelude::*;

use crate::bytes::{le32, lemma_le32, read_u32, u32_le};
use crate::random::random_u16;

verus! {

/// Milliseconds between two status requests to one server.
pub const UDP_SERV_STAT_REASK_TIME: u64 = 16_200_000;

/// Milliseconds that two status requests are apart at the very least.
pub const UDP_SERV_STAT_MIN_REASK_TIME: u64 = 1_200_000;

/// Whether a status request is due.
pub open spec fn status_ping_due(last_status_ping: Option<u64>, now: u64) -> bool {
    match last_status_ping {
        None => true,
        Some(last) => now - last >= UDP_SERV_STAT_REASK_TIME && now - last
            >= UDP_SERV_STAT_MIN_REASK_TIME,
    }
}

/// Whether a status request is due: the first one always is.
pub fn status_ping_due_at(last_status_ping: Option<u64>, now: u64) -> (r: bool)
    ensures
        r == status_ping_due(last_status_ping, now),
{
    match last_status_ping {
        None => true,
        Some(last) => {
            let elapsed: u64 = if now >= last {
                now - last
            } else {
                0
            };
            elapsed >= UDP_SERV_STAT_REASK_TIME && elapsed >= UDP_SERV_STAT_MIN_REASK_TIME
        },
    }
}

/// A challenge for a status request.
pub open spec fn status_challenge(random: u16) -> u32 {
    (0x55AA_0000 + random) as u32
}

/// A challenge for a status request, made of a random number.
pub fn status_challenge_with(random: u16) -> (r: u32)
    ensures
        r == status_challenge(random),
        r / 65536 == 0x55AA,
{
    0x55AA_0000 + random as u32
}

/// A random challenge for a status request.
pub fn server_status_challenge() -> (r: u32)
    ensures
        r / 65536 == 0x55AA,
        exists|random: u16| r == #[trigger] status_challenge(random),
{
    status_challenge_with(random_u16())
}

/// What a status answer says.
#[derive(Debug, Clone, Copy, PartialEq, Eq, Structural)]
pub struct ServerStatusResponse {
    pub users: u32,
    pub files: u32,
    /// The server's capabilities over UDP, where it names them.
    pub udp_flags: Option<u32>,
}

/// What an answer to `expected_challenge` says; nothing where it is short or
/// echoes another challenge.
pub open spec fn status_answer(b: Seq<u8>, expected_challenge: u32) -> Option<ServerStatusResponse> {
    if b.len() < 12 || le32(b, 0) != expected_challenge {
        None
    } else {
        Some(
            ServerStatusResponse {
                users: le32(b, 4),
                files: le32(b, 8),
                udp_flags: if b.len() >= 28 {
                    Some(le32(b, 24))
                } else {
                    None
                },
            },
        )
    }
}

/// Decodes an answer to a status request.
pub fn decode_server_status_response(payload: &[u8], expected_challenge: u32) -> (r: Option<
    ServerStatusResponse,
>)
    ensures
        r == status_answer(payload@, expected_challenge),
{
    if payload.len() < 12 {
        return None;
    }
    if read_u32(payload, 0) != expected_challenge {
        return None;
    }
    let udp_flags: Option<u32> = if payload.len() >= 28 {
        Some(read_u32(payload, 24))
    } else {
        None
    };
    Some(
        ServerStatusResponse { users: read_u32(payload, 4), files: read_u32(payload, 8), udp_flags },
    )
}

/// Two status requests that were both due lie at least the interval apart.
pub proof fn law_status_pings_keep_their_distance(first: u64, second: u64)
    requires
        status_ping_due(Some(first), second),
    ensures
        second - first >= UDP_SERV_STAT_REASK_TIME,
        second - first >= UDP_SERV_STAT_MIN_REASK_TIME,
{
}

/// A status answer is taken only where it echoes the challenge.
pub proof fn law_status_answer_echoes_its_challenge(b: Seq<u8>, expected_challenge: u32)
    requires
        status_answer(b, expected_challenge) is Some,
    ensures
        le32(b, 0) == expected_challenge,
{
}

/// A status answer reads back: users and files behind the challenge, and the
/// flags behind twelve more bytes where they come along.
pub proof fn law_status_answer_reads_back(
    challenge: u32,
    users: u32,
    files: u32,
    between: Seq<u8>,
    flags: u32,
    rest: Seq<u8>,
)
    requires
        between.len() == 12,
    ensures
        status_answer(u32_le(challenge) + u32_le(users) + u32_le(files), challenge) == Some(
            ServerStatusResponse { users, files, udp_flags: None },
        ),
        status_answer(u32_le(challenge) + u32_le(users) + u32_le(files) + between, challenge)
            == Some(ServerStatusResponse { users, files, udp_flags: None }),
        status_answer(
            u32_le(challenge) + u32_le(users) + u32_le(files) + between + u32_le(flags) + rest,
            challenge,
        ) == Some(ServerStatusResponse { users, files, udp_flags: Some(flags) }),
{
    let short = u32_le(challenge) + u32_le(users) + u32_le(files);
    let plain = short + between;
    let full = plain + u32_le(flags) + rest;
    lemma_status_fields(challenge, users, files, Seq::empty());
    assert(short + Seq::<u8>::empty() =~= short);
    lemma_status_fields(challenge, users, files, between);
    lemma_status_fields(challenge, users, files, between + u32_le(flags) + rest);
    assert(full =~= short + (between + u32_le(flags) + rest));
    assert(full.subrange(24, 28) =~= u32_le(flags));
    lemma_le32(flags, full, 24);
}

proof fn lemma_status_fields(challenge: u32, users: u32, files: u32, rest: Seq<u8>)
    ensures
        ({
            let b = u32_le(challenge) + u32_le(users) + u32_le(files) + rest;
            le32(b, 0) == challenge && le32(b, 4) == users && le32(b, 8) == files
        }),
{
    let b = u32_le(challenge) + u32_le(users) + u32_le(files) + rest;
    assert(b.subrange(0, 4) =~= u32_le(challenge));
    assert(b.subrange(4, 8) =~= u32_le(users));
    assert(b.subrange(8, 12) =~= u32_le(files));
    lemma_le32(challenge, b, 0);
    lemma_le32(users, b, 4);
    lemma_le32(files, b, 8);
}

/// A server is asked at once the first time, and then again from four and a half
/// hours after the last request on and never before.
pub proof fn law_status_is_asked_for_in_time(last: u64, now: u64)
    ensures
        status_ping_due(None, now),
        status_ping_due(Some(last), now) <==> now - last >= 4 * 3_600_000 + 30 * 60_000,
{
}

/// A status challenge tells itself by its upper half, and different random
/// numbers make different challenges.
pub proof fn law_status_challenges_differ(a: u16, b: u16)
    ensures
        status_challenge(a) / 0x1_0000 == 0x55AA,
        status_challenge(a) == status_challenge(b) ==> a == b,
{
}

} // verus!
