//! The reader of `lzma_rust2` for the standard `.lzma` format, whose 13-byte header carries the
//! properties, the dictionary size and the uncompressed size.

use crate::endian::Endian;
use lzma_rust2::LzmaReader;
use no_std_io2::io::{ErrorKind, Read};
use vstd::prelude::*;

verus! {

/// A reader that decodes the `.lzma` format.
#[verifier::external_type_specification]
#[verifier::external_body]
#[verifier::reject_recursive_types(R)]
pub struct ExLzmaReader<R>(lzma_rust2::LzmaReader<R>);

/// How reading a block to its end came out.
#[derive(Debug, Clone, Copy, PartialEq, Eq, Structural)]
pub enum ReadEnd {
    /// The end was reached.
    Done,
    /// The block is not a whole, valid stream.
    Failed,
    /// Memory ran out on the way.
    OutOfMemory,
}

/// The bytes that a freshly made `reader` is to decode.
pub uninterp spec fn reader_source(reader: LzmaReader<&[u8]>) -> Seq<u8>;

/// What reading a fresh reader over `block` to its end yields, if `block` is a valid stream. How the
/// reading is split up does not bear on it.
pub uninterp spec fn alone_decoded(block: Seq<u8>) -> Option<Seq<u8>>;

/// The blocks whose first bytes can be the header of a `.lzma` stream: a properties byte that packs
/// `lc` up to 8, `lp` up to 4 and `pb` up to 4, a dictionary size that can be rounded up to a
/// multiple of 16, any uncompressed size, and the five bytes that start the range coder, the first
/// of them zero.
pub open spec fn alone_header(block: Seq<u8>) -> bool {
    &&& block.len() >= 18
    &&& block[0] <= 224
    &&& Endian::Little.value(block.subrange(1, 5)) <= 0xffff_fff0
    &&& block[13] == 0
}

/// `lzma_rust2::LzmaReader::new_mem_limit` without a limit and without a preset dictionary: a
/// reader over `block` comes back exactly if `block` starts with a `.lzma` header.
#[verifier::external_body]
pub(crate) fn new_mem_limit<'a>(block: &'a [u8], mem_limit_kb: u32) -> (r: Option<
    LzmaReader<&'a [u8]>,
>)
    requires
        mem_limit_kb == u32::MAX,
    ensures
        match r {
            Some(reader) => alone_header(block@) && reader_source(reader) == block@,
            None => !alone_header(block@),
        },
{
    LzmaReader::new_mem_limit(block, mem_limit_kb, None).ok()
}

/// `std::io::Read::read_to_end` on a fresh reader: what has been decoded is appended to `out`.
/// Where the end is reached that is all that the block decodes to. Nothing is said of a block on
/// which memory ran out.
#[verifier::external_body]
pub(crate) fn read_to_end(mut reader: LzmaReader<&[u8]>, out: &mut Vec<u8>) -> (r: ReadEnd)
    ensures
        match r {
            ReadEnd::Done => {
                &&& alone_decoded(reader_source(reader)) is Some
                &&& final(out)@ == old(out)@ + alone_decoded(reader_source(reader))->0
            },
            ReadEnd::Failed => alone_decoded(reader_source(reader)) is None,
            ReadEnd::OutOfMemory => true,
        },
{
    match reader.read_to_end(out) {
        Ok(_) => ReadEnd::Done,
        Err(error) if error.kind() == ErrorKind::OutOfMemory => ReadEnd::OutOfMemory,
        Err(_) => ReadEnd::Failed,
    }
}

/// Whether running out of memory is a way in which reading a fresh reader over `block` to its end
/// can come out, where the output holds `before` beforehand.
pub closed spec fn read_starves(block: Seq<u8>, before: Seq<u8>) -> bool {
    exists|reader: LzmaReader<&[u8]>, out: &mut Vec<u8>|
        reader_source(reader) == block && out@ == before && #[trigger] call_ensures(
            read_to_end,
            (reader, out),
            ReadEnd::OutOfMemory,
        )
}

/// Reads `block` to its end behind what `out` holds, if it starts with a `.lzma` header.
pub(crate) fn read_alone(block: &[u8], out: &mut Vec<u8>) -> (end: Option<ReadEnd>)
    ensures
        match end {
            None => !alone_header(block@) && final(out)@ == old(out)@,
            Some(ReadEnd::Done) => {
                &&& alone_header(block@)
                &&& alone_decoded(block@) is Some
                &&& final(out)@ == old(out)@ + alone_decoded(block@)->0
            },
            Some(ReadEnd::Failed) => alone_header(block@) && alone_decoded(block@) is None,
            Some(ReadEnd::OutOfMemory) => alone_header(block@) && read_starves(
                block@,
                old(out)@,
            ),
        },
{
    match new_mem_limit(block, u32::MAX) {
        Some(reader) => Some(read_to_end(reader, out)),
        None => None,
    }
}

/// Reading counts as running out of memory only where that is how reading the very same block
/// behind the very same output can come out.
pub(crate) proof fn law_starving_is_an_answer(block: Seq<u8>, before: Seq<u8>)
    requires
        read_starves(block, before),
    ensures
        exists|reader: LzmaReader<&[u8]>, out: &mut Vec<u8>|
            reader_source(reader) == block && out@ == before && #[trigger] call_ensures(
                read_to_end,
                (reader, out),
                ReadEnd::OutOfMemory,
            ),
{
}

} // verus!
