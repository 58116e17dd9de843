//! Random numbers for markers, key parts, paddings and challenges.
use vstd::prelude::*;

verus! {

/// Calls `rand::random`: some byte. Nothing more is claimed of it.
#[verifier::external_body]
pub(crate) fn random_u8() -> (r: u8) {
    rand::random::<u8>()
}

/// Calls `rand::random`: some 16-bit number. Nothing more is claimed of it.
#[verifier::external_body]
pub(crate) fn random_u16() -> (r: u16) {
    rand::random::<u16>()
}

/// Calls `rand::RngCore::fill_bytes` on the thread's generator: `len` bytes.
/// Nothing is claimed of what they are.
#[verifier::external_body]
pub(crate) fn random_bytes(len: usize) -> (r: Vec<u8>)
    ensures
        r@.len() == len,
{
    let mut bytes = vec![0u8; len];
    rand::RngCore::fill_bytes(&mut rand::thread_rng(), &mut bytes);
    bytes
}

/// Calls `rand::Rng::gen_range` on the thread's generator: a number from zero
/// to `max`, both included.
#[verifier::external_body]
pub(crate) fn random_up_to(max: u8) -> (r: u8)
    ensures
        r <= max,
{
    rand::Rng::gen_range(&mut rand::thread_rng(), 0..=max)
}

} // verus!
