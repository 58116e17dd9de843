//! What the server side reads of the files that the client shares.
use vstd::prelude::*;

use crate::bytes::read_16;
use crate::hexadecimal::{hex_decode, unhexed};
use crate::ids::Ed2kHash;

verus! {

/// The size of one part of a file.
pub const ED2K_PART_SIZE: u64 = 9_728_000;

/// A shared file.
#[derive(Debug, Clone, PartialEq, Eq)]
pub struct Ed2kSharedEntry {
    /// The hash of the file as 32 hexadecimal digits.
    pub file_hash: String,
    pub canonical_name: String,
    pub file_size: u64,
}

/// What a shared file says.
pub struct SharedView {
    pub file_hash: Seq<char>,
    pub canonical_name: Seq<char>,
    pub file_size: u64,
}

impl View for Ed2kSharedEntry {
    type V = SharedView;

    open spec fn view(&self) -> SharedView {
        SharedView {
            file_hash: self.file_hash@,
            canonical_name: self.canonical_name@,
            file_size: self.file_size,
        }
    }
}

/// The sixteen bytes that a hash text spells.
pub open spec fn hash_of_text(text: Seq<char>) -> Option<Seq<u8>> {
    match unhexed(text) {
        Some(b) => if b.len() == 16 {
            Some(b)
        } else {
            None
        },
        None => None,
    }
}

impl Ed2kSharedEntry {
    /// The hash of the file, where its text is one.
    pub fn parsed_hash(&self) -> (r: Option<Ed2kHash>)
        ensures
            match r {
                Some(h) => hash_of_text(self.file_hash@) == Some(h.0@),
                None => hash_of_text(self.file_hash@) is None,
            },
    {
        match hex_decode(self.file_hash.as_str()) {
            Some(bytes) => {
                if bytes.len() == 16 {
                    let h: [u8; 16] = read_16(bytes.as_slice(), 0);
                    assert(h@ =~= bytes@);
                    Some(Ed2kHash(h))
                } else {
                    None
                }
            },
            None => None,
        }
    }
}

} // verus!
