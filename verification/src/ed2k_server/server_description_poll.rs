//! One round of metadata requests over UDP to the servers that are not
//! connected.
//!
//! A server is asked for its status first, which opens the way, and for its
//! name and description then.
use vstd::prelude::*;

use super::background::ServerUdpPacket;
use super::server_description::{
    decode_server_description_response, description_answer, DescriptionError,
};
use super::server_entry::{base_text, ResolvedServerEntry};
use super::server_events::Ed2kServerListEvent;
use super::server_status::{decode_server_status_response, status_answer};
use super::types::{Ed2kServerState, StateView};
use super::{OP_GLOBSERVSTATRES, OP_SERVER_DESC_RES};
use crate::addr::SocketAddrV4;
use crate::text::opt_text;

verus! {

/// Milliseconds that an answer is waited for.
pub const SERVER_METADATA_RESPONSE_TIMEOUT: u64 = 3_000;

/// Milliseconds between two servers.
pub const SERVER_METADATA_PACING: u64 = 1_000;

/// Whether a server is the one that is connected.
pub open spec fn is_connected_to(st: StateView, base: SocketAddrV4) -> bool {
    st.connected && st.endpoint == Some(base)
}

/// Whether a server is to be asked: the one that is connected is not.
pub fn should_poll_server(state: &Ed2kServerState, server: &ResolvedServerEntry) -> (r: bool)
    ensures
        r == !is_connected_to(state@, server.base()),
{
    !(state.connected && state.endpoint == Some(server.base_endpoint()))
}

/// Why a server could not be asked.
#[derive(Debug, Clone, Copy, PartialEq, Eq, Structural)]
pub enum PollError {
    StatusChallengeMismatch,
    DescriptionChallengeMismatch,
    Description(DescriptionError),
}

/// What is waited for.
#[derive(Debug, Clone, Copy, PartialEq, Eq, Structural)]
pub enum ServerPoll {
    /// The answer to the status request with this challenge.
    Status(u32),
    /// The answer to the description request with this challenge.
    Description(u32),
}

/// What a datagram comes to.
#[derive(Debug)]
pub enum PollStep {
    /// It is not what is waited for.
    KeepWaiting,
    /// The description is to be asked for.
    AskDescription,
    /// The server has told what it is.
    Report(Ed2kServerListEvent),
    /// The server answered wrong.
    Fail(PollError),
}

/// What a datagram comes to.
pub enum PollStepView {
    KeepWaiting,
    AskDescription,
    Report { endpoint: Seq<char>, name: Option<Seq<char>>, description: Option<Seq<char>> },
    Fail(PollError),
}

impl View for PollStep {
    type V = Option<PollStepView>;

    open spec fn view(&self) -> Option<PollStepView> {
        match *self {
            PollStep::KeepWaiting => Some(PollStepView::KeepWaiting),
            PollStep::AskDescription => Some(PollStepView::AskDescription),
            PollStep::Report(
                Ed2kServerListEvent::MetadataUpdated { endpoint, name, description },
            ) => Some(
                PollStepView::Report {
                    endpoint: endpoint@,
                    name: opt_text(name),
                    description: opt_text(description),
                },
            ),
            PollStep::Report(_) => None,
            PollStep::Fail(e) => Some(PollStepView::Fail(e)),
        }
    }
}

/// What a datagram from the server at `endpoint` comes to.
pub open spec fn polled(poll: ServerPoll, endpoint: Seq<char>, opcode: u8, b: Seq<u8>) -> PollStepView {
    match poll {
        ServerPoll::Status(challenge) => if opcode != OP_GLOBSERVSTATRES {
            PollStepView::KeepWaiting
        } else if status_answer(b, challenge) is Some {
            PollStepView::AskDescription
        } else {
            PollStepView::Fail(PollError::StatusChallengeMismatch)
        },
        ServerPoll::Description(challenge) => if opcode != OP_SERVER_DESC_RES {
            PollStepView::KeepWaiting
        } else {
            match description_answer(b, challenge) {
                Err(e) => PollStepView::Fail(PollError::Description(e)),
                Ok(None) => PollStepView::Fail(PollError::DescriptionChallengeMismatch),
                Ok(Some(d)) => PollStepView::Report {
                    endpoint,
                    name: d.name,
                    description: d.description,
                },
            }
        },
    }
}

/// A datagram from a server that is asked comes in.
pub fn on_poll_datagram(
    poll: ServerPoll,
    server: &ResolvedServerEntry,
    packet: &ServerUdpPacket,
) -> (r: PollStep)
    ensures
        r@ == Some(polled(poll, base_text(server.entry@), packet.opcode, packet.payload@)),
{
    match poll {
        ServerPoll::Status(challenge) => {
            if packet.opcode != OP_GLOBSERVSTATRES {
                return PollStep::KeepWaiting;
            }
            if decode_server_status_response(packet.payload.as_slice(), challenge).is_some() {
                PollStep::AskDescription
            } else {
                PollStep::Fail(PollError::StatusChallengeMismatch)
            }
        },
        ServerPoll::Description(challenge) => {
            if packet.opcode != OP_SERVER_DESC_RES {
                return PollStep::KeepWaiting;
            }
            match decode_server_description_response(packet.payload.as_slice(), challenge) {
                Err(e) => PollStep::Fail(PollError::Description(e)),
                Ok(None) => PollStep::Fail(PollError::DescriptionChallengeMismatch),
                Ok(Some(d)) => PollStep::Report(
                    Ed2kServerListEvent::MetadataUpdated {
                        endpoint: server.entry.base_endpoint_text(),
                        name: d.name,
                        description: d.description,
                    },
                ),
            }
        },
    }
}

/// A server's description counts only as the answer to the request that is
/// out.
pub proof fn law_description_is_reported_only_when_asked_for(
    poll: ServerPoll,
    endpoint: Seq<char>,
    opcode: u8,
    b: Seq<u8>,
)
    requires
        polled(poll, endpoint, opcode, b) is Report,
    ensures
        poll matches ServerPoll::Description(challenge) && description_answer(b, challenge)
            matches Ok(Some(_)),
{
}

/// A server is asked for its status first; the answer that echoes the challenge
/// leads to the description, any other ends the polling, and datagrams of
/// another kind are waited past.
pub proof fn law_status_comes_before_the_description(
    challenge: u32,
    endpoint: Seq<char>,
    opcode: u8,
    b: Seq<u8>,
)
    ensures
        ({
            let p = polled(ServerPoll::Status(challenge), endpoint, opcode, b);
            &&& opcode != 0x97 ==> p is KeepWaiting
            &&& opcode == 0x97 && b.len() >= 12 && crate::bytes::le32(b, 0) == challenge
                ==> p is AskDescription
            &&& opcode == 0x97 && (b.len() < 12 || crate::bytes::le32(b, 0) != challenge) ==> p
                == PollStepView::Fail(PollError::StatusChallengeMismatch)
        }),
{
}

/// A described server is reported under the endpoint that was asked, with the
/// name and the description that it gave.
pub proof fn law_description_is_reported(
    random: u16,
    endpoint: Seq<char>,
    name: Seq<char>,
    description: Seq<char>,
    rest: Seq<u8>,
)
    requires
        vstd::utf8::encode_utf8(name).len() <= 65535,
        vstd::utf8::encode_utf8(description).len() <= 65535,
    ensures
        ({
            let c = super::server_description::description_challenge(random);
            let b = crate::bytes::u32_le(c) + crate::bytes::u32_le(2)
                + super::tag_codec::string_tag(0x01, name) + super::tag_codec::string_tag(
                0x0B,
                description,
            ) + rest;
            polled(ServerPoll::Description(c), endpoint, 0xA3, b) == (PollStepView::Report {
                endpoint,
                name: Some(name),
                description: Some(description),
            })
        }),
{
    super::server_description::law_described_server_reads_back(random, name, description, rest);
}

/// The server that is connected is known by its own address and port.
pub proof fn law_connected_server_is_not_polled(st: StateView, base: SocketAddrV4)
    ensures
        is_connected_to(st, base) <==> st.connected && st.endpoint == Some(base),
{
}

} // verus!
