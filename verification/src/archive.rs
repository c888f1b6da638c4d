//! The archive decoder's model: each dataset is bundled as a
//! zstd-compressed FlatGeobuf feature collection, and every lookup
//! decompresses it anew.

use vstd::prelude::*;

verus! {

/// What zstd decompression yields on `archive`: the decompressed bytes,
/// or nothing when the compressed stream is malformed or truncated. The
/// outcome is a function of the input bytes alone.
pub uninterp spec fn zstd_plain(archive: Seq<u8>) -> Option<Seq<u8>>;

} // verus!
