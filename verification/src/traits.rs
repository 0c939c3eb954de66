//! What the decompressors of all versions share.

use vstd::prelude::*;

verus! {

/// The compressors that a super block can name.
#[derive(Debug, Clone, Copy, PartialEq, Eq, Structural)]
pub enum Compressor {
    Gzip,
    Lzma,
    Lzo,
    Xz,
    Lz4,
    Zstd,
}

} // verus!
