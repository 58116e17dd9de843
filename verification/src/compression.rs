//! The zlib streams that packed packets carry.
use vstd::prelude::*;

verus! {

/// The zlib stream that `flate2` makes of `data` at its default level.
pub uninterp spec fn zlib_deflated(data: Seq<u8>) -> Option<Seq<u8>>;

/// What `flate2` reads from the zlib stream `stream`, cut off after `limit`
/// bytes; `None` where the stream is corrupt or breaks off before that.
pub uninterp spec fn zlib_inflated(stream: Seq<u8>, limit: nat) -> Option<Seq<u8>>;

/// Writes `data` through `flate2::write::ZlibEncoder`. A stream that it gives
/// reads back as `data`, whatever limit beyond its length is set.
#[verifier::external_body]
pub(crate) fn deflate(data: &[u8]) -> (r: Option<Vec<u8>>)
    ensures
        match r {
            Some(stream) => zlib_deflated(data@) == Some(stream@),
            None => zlib_deflated(data@) is None,
        },
        r matches Some(stream) ==> forall|limit: nat|
            data@.len() < limit ==> #[trigger] zlib_inflated(stream@, limit) == Some(data@),
{
    let level = flate2::Compression::default();
    let mut encoder = flate2::write::ZlibEncoder::new(Vec::new(), level);
    std::io::Write::write_all(&mut encoder, data).ok()?;
    encoder.finish().ok()
}

/// Reads at most `limit` bytes through `flate2::read::ZlibDecoder`.
#[verifier::external_body]
pub(crate) fn inflate(stream: &[u8], limit: u64) -> (r: Option<Vec<u8>>)
    ensures
        match r {
            Some(data) => zlib_inflated(stream@, limit as nat) == Some(data@) && data@.len()
                <= limit,
            None => zlib_inflated(stream@, limit as nat) is None,
        },
{
    let decoder = flate2::read::ZlibDecoder::new(stream);
    let mut data = Vec::new();
    std::io::Read::read_to_end(&mut std::io::Read::take(decoder, limit), &mut data).ok()?;
    Some(data)
}

} // verus!
