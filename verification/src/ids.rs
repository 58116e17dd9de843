//! Sixteen-byte identifiers.
use vstd::prelude::*;

use crate::bytes::{lemma_same_16, same_16};

verus! {

/// The hash that names a file on the ED2K network.
#[derive(Clone, Copy, Debug, PartialEq, Eq, Hash)]
pub struct Ed2kHash(pub [u8; 16]);

/// The id of a node on the Kad network.
#[derive(Clone, Copy, Debug, PartialEq, Eq, Hash)]
pub struct NodeId(pub [u8; 16]);

impl Ed2kHash {
    /// The hash made of `bytes`.
    pub fn from_bytes(bytes: [u8; 16]) -> (r: Ed2kHash)
        ensures
            r.0 == bytes,
    {
        Ed2kHash(bytes)
    }

    /// Whether two hashes are the same.
    pub fn same(&self, other: &Ed2kHash) -> (r: bool)
        ensures
            r == (*self == *other),
            r == (self.0@ == other.0@),
    {
        proof {
            if self.0@ == other.0@ {
                lemma_same_16(self.0, other.0);
            }
        }
        same_16(&self.0, &other.0)
    }
}

impl NodeId {
    /// The id made of `bytes`.
    pub fn from_bytes(bytes: [u8; 16]) -> (r: NodeId)
        ensures
            r.0 == bytes,
    {
        NodeId(bytes)
    }

    /// Whether two ids are the same.
    pub fn same(&self, other: &NodeId) -> (r: bool)
        ensures
            r == (*self == *other),
    {
        same_16(&self.0, &other.0)
    }
}

/// The bytes of an optional sixteen-byte value.
pub open spec fn opt_bytes(o: Option<[u8; 16]>) -> Option<Seq<u8>> {
    match o {
        Some(a) => Some(a@),
        None => None,
    }
}

/// Whether two optional sixteen-byte values are the same.
pub fn same_opt_16(a: &Option<[u8; 16]>, b: &Option<[u8; 16]>) -> (r: bool)
    ensures
        r == (*a == *b),
        r == (opt_bytes(*a) == opt_bytes(*b)),
{
    match (a, b) {
        (Some(x), Some(y)) => {
            proof {
                if x@ == y@ {
                    lemma_same_16(*x, *y);
                }
            }
            same_16(x, y)
        },
        (None, None) => true,
        _ => false,
    }
}

} // verus!
