//! The long-lived connections between a firewalled client and its Kad buddy.
//!
//! A client has one buddy at the most, and serves one at the most. The
//! connections themselves live elsewhere; what is kept here is who they belong
//! to, and whether one is there to relay through.
use vstd::prelude::*;

use crate::addr::Ipv4Addr;
use crate::bytes::same_16;
use crate::ids::NodeId;

verus! {

/// A client that is expected to connect, so that it can be served.
#[derive(Debug, Clone, Copy, PartialEq, Eq)]
pub struct ExpectedInboundBuddy {
    /// The address it asked from.
    pub ip: Ipv4Addr,
    pub user_hash: [u8; 16],
    /// The id by which callbacks for it are asked.
    pub buddy_id: NodeId,
}

/// The buddy of this client.
#[derive(Debug, Clone, Copy, PartialEq, Eq)]
pub struct OutboundBuddy {
    pub ip: Ipv4Addr,
    pub user_hash: [u8; 16],
}

/// The buddies, by their roles.
#[derive(Debug, Clone, Copy)]
pub struct BuddySocketRegistry {
    pub expected_inbound: Option<ExpectedInboundBuddy>,
    /// The id of the client that is served over a connection.
    pub inbound: Option<NodeId>,
    pub outbound: Option<OutboundBuddy>,
}

/// The id of a client that connects: the one that is expected, where none is
/// served yet.
pub open spec fn matching_buddy(
    r: BuddySocketRegistry,
    ip: Ipv4Addr,
    user_hash: Seq<u8>,
) -> Option<NodeId> {
    match r.expected_inbound {
        Some(e) => if r.inbound is None && e.ip == ip && e.user_hash@ == user_hash {
            Some(e.buddy_id)
        } else {
            None
        },
        None => None,
    }
}

/// Whether a frame for `buddy_id` can be relayed.
pub open spec fn relays_to(r: BuddySocketRegistry, buddy_id: NodeId) -> bool {
    r.inbound == Some(buddy_id)
}

impl Default for BuddySocketRegistry {
    fn default() -> (r: Self)
        ensures
            r == (BuddySocketRegistry { expected_inbound: None, inbound: None, outbound: None }),
    {
        BuddySocketRegistry { expected_inbound: None, inbound: None, outbound: None }
    }
}

impl BuddySocketRegistry {
    /// No buddy in any role.
    pub fn new() -> (r: Self)
        ensures
            r == (BuddySocketRegistry { expected_inbound: None, inbound: None, outbound: None }),
    {
        BuddySocketRegistry { expected_inbound: None, inbound: None, outbound: None }
    }

    /// Expects a client to connect, in the place of any other.
    pub fn set_expected_inbound(&mut self, expected: ExpectedInboundBuddy)
        ensures
            *final(self) == (BuddySocketRegistry {
                expected_inbound: Some(expected),
                ..*old(self)
            }),
    {
        self.expected_inbound = Some(expected);
    }

    /// Serves and expects no client any more.
    pub fn clear_inbound(&mut self)
        ensures
            *final(self) == (BuddySocketRegistry {
                expected_inbound: None,
                inbound: None,
                ..*old(self)
            }),
    {
        self.expected_inbound = None;
        self.inbound = None;
    }

    /// The id to serve a client by that connects, where it is the one that is
    /// expected and none is served yet.
    pub fn match_connecting_peer(&self, ip: Ipv4Addr, user_hash: [u8; 16]) -> (r: Option<NodeId>)
        ensures
            r == matching_buddy(*self, ip, user_hash@),
    {
        if self.inbound.is_some() {
            return None;
        }
        match self.expected_inbound {
            Some(expected) => {
                if expected.ip == ip && same_16(&expected.user_hash, &user_hash) {
                    Some(expected.buddy_id)
                } else {
                    None
                }
            },
            None => None,
        }
    }

    /// Serves a client over its connection, unless another one is served.
    pub fn attach_inbound(&mut self, buddy_id: NodeId) -> (r: bool)
        ensures
            r == (old(self).inbound is None),
            *final(self) == if r {
                BuddySocketRegistry { inbound: Some(buddy_id), ..*old(self) }
            } else {
                *old(self)
            },
    {
        if self.inbound.is_some() {
            return false;
        }
        self.inbound = Some(buddy_id);
        true
    }

    /// The connection of a client is closed. It stays expected.
    pub fn detach_inbound(&mut self, buddy_id: NodeId)
        ensures
            *final(self) == if relays_to(*old(self), buddy_id) {
                BuddySocketRegistry { inbound: None, ..*old(self) }
            } else {
                *old(self)
            },
    {
        if let Some(served) = self.inbound {
            if served.same(&buddy_id) {
                self.inbound = None;
            }
        }
    }

    /// Whether a frame for `buddy_id` can be relayed: its client is served.
    pub fn can_relay_to_inbound(&self, buddy_id: NodeId) -> (r: bool)
        ensures
            r == relays_to(*self, buddy_id),
    {
        match self.inbound {
            Some(served) => served.same(&buddy_id),
            None => false,
        }
    }

    /// Notes whether the connection took a frame for `buddy_id`, and says
    /// whether it was relayed. A connection that did not is gone.
    pub fn relay_to_inbound(&mut self, buddy_id: NodeId, accepted: bool) -> (r: bool)
        ensures
            r == (relays_to(*old(self), buddy_id) && accepted),
            *final(self) == if relays_to(*old(self), buddy_id) && !accepted {
                BuddySocketRegistry { inbound: None, ..*old(self) }
            } else {
                *old(self)
            },
    {
        if !self.can_relay_to_inbound(buddy_id) {
            return false;
        }
        if !accepted {
            self.inbound = None;
        }
        accepted
    }

    /// Whether a client is served.
    pub fn has_inbound(&self) -> (r: bool)
        ensures
            r == (self.inbound is Some),
    {
        self.inbound.is_some()
    }

    /// Has a buddy, in the place of any other.
    pub fn register_outbound(&mut self, ip: Ipv4Addr, user_hash: [u8; 16])
        ensures
            *final(self) == (BuddySocketRegistry {
                outbound: Some(OutboundBuddy { ip, user_hash }),
                ..*old(self)
            }),
    {
        self.outbound = Some(OutboundBuddy { ip, user_hash });
    }

    /// Has no buddy any more.
    pub fn evict_outbound(&mut self)
        ensures
            *final(self) == (BuddySocketRegistry { outbound: None, ..*old(self) }),
    {
        self.outbound = None;
    }

    /// Whether a peer is the buddy of this client.
    pub fn is_outbound_buddy(&self, ip: Ipv4Addr, user_hash: [u8; 16]) -> (r: bool)
        ensures
            r == (self.outbound matches Some(b) && b.ip == ip && b.user_hash@ == user_hash@),
    {
        match self.outbound {
            Some(b) => b.ip == ip && same_16(&b.user_hash, &user_hash),
            None => false,
        }
    }

    /// Whether this client has a buddy.
    pub fn has_outbound(&self) -> (r: bool)
        ensures
            r == (self.outbound is Some),
    {
        self.outbound.is_some()
    }
}

/// A client that is served keeps every other one from being served, however
/// it connects.
pub proof fn law_one_client_is_served(
    r: BuddySocketRegistry,
    served: NodeId,
    ip: Ipv4Addr,
    user_hash: Seq<u8>,
)
    requires
        r.inbound == Some(served),
    ensures
        matching_buddy(r, ip, user_hash) is None,
        forall|other: NodeId| other != served ==> !#[trigger] relays_to(r, other),
{
}

/// A client whose connection closed may connect again.
pub proof fn law_detached_client_may_return(r: BuddySocketRegistry, expected: ExpectedInboundBuddy)
    requires
        r.expected_inbound == Some(expected),
    ensures
        matching_buddy(
            BuddySocketRegistry { inbound: None, ..r },
            expected.ip,
            expected.user_hash@,
        ) == Some(expected.buddy_id),
{
}

/// A client is served under the id it asked for where it connects from the
/// address and with the user hash that are expected, and none is served yet.
pub proof fn law_only_the_expected_client_is_served(
    r: BuddySocketRegistry,
    ip: Ipv4Addr,
    user_hash: Seq<u8>,
)
    ensures
        matching_buddy(r, ip, user_hash) is Some <==> r.inbound is None && (
        r.expected_inbound matches Some(e) && e.ip == ip && e.user_hash@ == user_hash),
        matching_buddy(r, ip, user_hash) matches Some(id) ==> id == r.expected_inbound->Some_0.buddy_id,
{
}

} // verus!
