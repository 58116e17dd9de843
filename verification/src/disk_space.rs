//! Whether a download fits on the disk.
use vstd::prelude::*;

use crate::ed2k_transfer::ED2K_PART_SIZE;

verus! {

/// The space to keep free beyond a download: one part.
pub const DOWNLOAD_FREE_SPACE_MARGIN_BYTES: u64 = ED2K_PART_SIZE;

/// Whether a download that needs `needed_bytes` is to be paused: the space is
/// known, and it does not hold the download and the margin.
pub fn should_pause_for_disk_space(available: Option<u64>, needed_bytes: u64) -> (r: bool)
    ensures
        r == match available {
            Some(a) => if needed_bytes + DOWNLOAD_FREE_SPACE_MARGIN_BYTES <= u64::MAX {
                a < needed_bytes + DOWNLOAD_FREE_SPACE_MARGIN_BYTES
            } else {
                a < u64::MAX
            },
            None => false,
        },
        available is None ==> !r,
        available matches Some(a) ==> a < u64::MAX ==> (r <==> a - needed_bytes < 9_728_000),
{
    match available {
        Some(available) => available < needed_bytes.saturating_add(
            DOWNLOAD_FREE_SPACE_MARGIN_BYTES,
        ),
        None => false,
    }
}

} // verus!
