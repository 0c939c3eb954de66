//! Decompression of LZMA blocks whose framing is not known beforehand.

use super::alone::{alone_decoded, alone_header, read_alone, read_starves, ReadEnd};
use super::raw_stream::{RawDecoder, RawRefusal, RawSetup};
use crate::endian::{lemma_widths, read_uint, Endian};
use crate::error::BackhandError;
use crate::traits::Compressor;
use vstd::prelude::*;
use vstd::slice::slice_subrange;

verus! {

/// Byte offsets into a compressed block at which a `props` + `dict_size` + bitstream header may
/// begin: most blocks start the header at byte 0, some carry 4 bytes of leading cruft before it.
pub const LZMA_ALT_HEADER_OFFSETS: [usize; 2] = [0, 4];

/// Upper bound, in bytes, on the uncompressed size of any single squashfs block, which is at most
/// 1 MiB. It clamps the capacity that a caller supplies, so that no capacity, however large, can
/// drive an oversized allocation.
pub const MAX_SQUASHFS_BLOCK: usize = 0x10_0000;

/// LZMA properties byte for the squashfs-lzma encoder defaults `lc=3, lp=0, pb=2`, packed as
/// `(pb * 5 + lp) * 9 + lc`. It stands in for the header of blocks that have none.
pub const SQUASHFS_LZMA_PROPS: u8 = 0x5d;

/// Unpacks a properties byte, `(pb * 5 + lp) * 9 + lc`, beside a dictionary size.
pub fn unpack_props(props: u8, dict_size: u32) -> (setup: RawSetup)
    ensures
        setup == packed_setup(props, dict_size),
{
    let lc = (props % 9) as u32;
    let rem = props / 9;
    let lp = (rem % 5) as u32;
    let pb = (rem / 5) as u32;
    RawSetup { dict_size, lc, lp, pb }
}

/// The setup that a properties byte and a dictionary size stand for.
pub open spec fn packed_setup(props: u8, dict_size: u32) -> RawSetup {
    RawSetup {
        dict_size,
        lc: (props % 9) as u32,
        lp: (props / 9 % 5) as u32,
        pb: (props / 45) as u32,
    }
}

/// A bare LZMA1 stream with what is needed to decode it.
pub struct RawBlock {
    pub payload: Seq<u8>,
    pub props: u8,
    pub dict_size: u32,
}

impl RawBlock {
    /// Whether a decoder is asked for at all: there is room for output and the range coder's
    /// mandatory leading zero byte is there.
    pub open spec fn tried(self, max_out: nat) -> bool {
        &&& max_out > 0
        &&& self.payload.len() > 0
        &&& self.payload[0] == 0
    }

    /// Whether the stream is decoded, if memory for a decoder can be had: it is tried, and the
    /// decoder supports its properties.
    pub open spec fn eligible(self, max_out: nat) -> bool {
        self.tried(max_out) && packed_setup(self.props, self.dict_size).supported()
    }

    /// What the stream decodes to, up to `max_out` bytes.
    pub open spec fn decoded(self, max_out: nat) -> Seq<u8> {
        packed_setup(self.props, self.dict_size).decoded(self.payload, max_out)
    }

    /// What trying the stream yields where memory for a decoder can be had: nothing, if it is not
    /// eligible or decodes to nothing.
    pub open spec fn attempt(self, max_out: nat) -> Option<Seq<u8>> {
        if self.eligible(max_out) && self.decoded(max_out).len() > 0 {
            Some(self.decoded(max_out))
        } else {
            None
        }
    }

    /// Whether `max_out` does no more than cut short what the stream decodes to.
    pub open spec fn ceiling_cuts(self, max_out: nat) -> bool {
        packed_setup(self.props, self.dict_size).ceiling_cuts(self.payload, max_out)
    }

    /// Whether want of memory is an answer that asking for the stream's decoder can be given.
    pub open spec fn starves(self) -> bool {
        RawDecoder::memory_refused(packed_setup(self.props, self.dict_size))
    }
}

/// The bare stream `payload` with its properties byte and dictionary size.
pub open spec fn raw_block(payload: Seq<u8>, props: u8, dict_size: u32) -> RawBlock {
    RawBlock { payload, props, dict_size }
}

/// How an attempt at a block came out.
#[derive(Debug, Clone, Copy, PartialEq, Eq, Structural)]
pub enum AttemptEnd {
    /// The output holds what the block decodes to.
    Decoded,
    /// The block yields nothing.
    Nothing,
    /// Memory could not be had, so the block was not decoded.
    OutOfMemory,
}

/// What an attempt at a bare stream that came out as `end` leaves behind, where the output held
/// `before`.
pub open spec fn attempted(
    block: RawBlock,
    before: Seq<u8>,
    max_out: nat,
    end: AttemptEnd,
    after: Seq<u8>,
) -> bool {
    &&& match end {
        AttemptEnd::Decoded => {
            &&& block.attempt(max_out) == Some(after)
            &&& after.len() <= max_out
        },
        AttemptEnd::Nothing => block.attempt(max_out) is None,
        AttemptEnd::OutOfMemory => block.tried(max_out) && block.starves(),
    }
    &&& if block.eligible(max_out) && !(end is OutOfMemory) {
        &&& after == block.decoded(max_out)
        &&& block.ceiling_cuts(max_out)
    } else {
        after == before
    }
}

/// Tries one raw-LZMA1 squashfs block, and tells apart why it did not yield anything.
pub fn attempt_raw_lzma1(
    payload: &[u8],
    props: u8,
    dict_size: u32,
    max_out: usize,
    out: &mut Vec<u8>,
) -> (end: AttemptEnd)
    requires
        raw_block(payload@, props, dict_size).eligible(max_out as nat) ==> max_out <= isize::MAX,
    ensures
        attempted(
            raw_block(payload@, props, dict_size),
            old(out)@,
            max_out as nat,
            end,
            final(out)@,
        ),
{
    // The leading byte of a raw LZMA1 range-coded stream is always `0x00`.
    if max_out == 0 || payload.len() == 0 || payload[0] != 0 {
        return AttemptEnd::Nothing;
    }
    let setup = unpack_props(props, dict_size);
    match RawDecoder::new(&setup) {
        Ok(decoder) => {
            let done = decoder.decode(payload, max_out, out);
            proof {
                let block = raw_block(payload@, props, dict_size);
                assert(block.eligible(max_out as nat));
                assert(out@ == block.decoded(max_out as nat));
            }
            if done {
                AttemptEnd::Decoded
            } else {
                AttemptEnd::Nothing
            }
        },
        Err(RawRefusal::Properties) => AttemptEnd::Nothing,
        Err(RawRefusal::Memory) => AttemptEnd::OutOfMemory,
    }
}

/// What trying a bare stream leaves behind, where the output held `before`: what the stream decodes
/// to, cut short at `max_out`, with `done` telling whether that is anything; or, if the stream is
/// not eligible or no memory was given for its decoder, an output that is left alone.
pub open spec fn raw_settled(
    block: RawBlock,
    before: Seq<u8>,
    max_out: nat,
    done: bool,
    after: Seq<u8>,
) -> bool {
    ||| {
        &&& block.eligible(max_out)
        &&& after == block.decoded(max_out)
        &&& after.len() <= max_out
        &&& block.ceiling_cuts(max_out)
        &&& done == (after.len() > 0)
    }
    ||| {
        &&& !block.eligible(max_out) || block.starves()
        &&& !done
        &&& after == before
    }
}

/// Decompress one raw-LZMA1 squashfs block, and tell whether that yielded anything.
///
/// Some images store every metadata and data block as a bare LZMA1 stream with no embedded
/// uncompressed-size field and no end-of-stream marker, so the decoder cannot know where the
/// decompressed output ends. `max_out`, the structural size ceiling of the block, solves that: a
/// full block fills the output and stops at exactly `max_out`, a short block stops earlier, when
/// the compressed input is exhausted, at its true length.
///
/// `payload` must start with the range coder's mandatory zero byte; requiring it rejects a wrong
/// guess of the framing before anything is decoded. Where the block is not decoded at all (it is
/// not eligible, or memory for a decoder cannot be had), the output is left alone.
pub fn decompress_raw_lzma1(
    payload: &[u8],
    props: u8,
    dict_size: u32,
    max_out: usize,
    out: &mut Vec<u8>,
) -> (done: bool)
    requires
        raw_block(payload@, props, dict_size).eligible(max_out as nat) ==> max_out <= isize::MAX,
    ensures
        raw_settled(
            raw_block(payload@, props, dict_size),
            old(out)@,
            max_out as nat,
            done,
            final(out)@,
        ),
{
    match attempt_raw_lzma1(payload, props, dict_size, max_out, out) {
        AttemptEnd::Decoded => true,
        _ => false,
    }
}

/// A candidate framing of a block: the bare stream in it with its properties and dictionary size.
pub struct RawFraming<'a> {
    pub payload: &'a [u8],
    pub props: u8,
    pub dict_size: u32,
}

impl<'a> View for RawFraming<'a> {
    type V = RawBlock;

    open spec fn view(&self) -> RawBlock {
        raw_block(self.payload@, self.props, self.dict_size)
    }
}

/// The "lzma-alt" framing with its header at `offset`, if `bytes` are long enough for the header:
/// a `props` byte and a 4-byte little-endian `dict_size`, then the bare stream.
pub open spec fn alt_block(bytes: Seq<u8>, offset: int) -> Option<RawBlock> {
    if offset + 5 <= bytes.len() {
        Some(
            raw_block(
                bytes.skip(offset + 5),
                bytes[offset],
                Endian::Little.value(bytes.subrange(offset + 1, offset + 5)) as u32,
            ),
        )
    } else {
        None
    }
}

/// The same framing as a sequence of at most one.
pub open spec fn alt_blocks(bytes: Seq<u8>, offset: int) -> Seq<RawBlock> {
    match alt_block(bytes, offset) {
        Some(block) => seq![block],
        None => Seq::empty(),
    }
}

/// Every framing that a raw block may have, in the order in which they are tried: "lzma-alt" at
/// byte 0, "lzma-alt" behind 4 bytes of cruft, then the stream without any header. The last has
/// no dictionary size of its own; the block's own size bounds every back-reference.
pub open spec fn candidates(bytes: Seq<u8>, max_out: nat) -> Seq<RawBlock> {
    (alt_blocks(bytes, 0) + alt_blocks(bytes, 4)).push(
        raw_block(bytes, SQUASHFS_LZMA_PROPS, max_out as u32),
    )
}

/// Reads an "lzma-alt" header at `offset`.
pub fn alt_framing(bytes: &[u8], offset: usize) -> (framing: Option<RawFraming<'_>>)
    ensures
        match framing {
            Some(f) => alt_block(bytes@, offset as int) == Some(f@),
            None => alt_block(bytes@, offset as int) is None,
        },
{
    if bytes.len() < 5 || bytes.len() - 5 < offset {
        return None;
    }
    proof {
        lemma_widths();
    }
    let dict_size = read_uint(bytes, offset + 1, 4, Endian::Little) as u32;
    let payload = slice_subrange(bytes, offset + 5, bytes.len());
    proof {
        assert(payload@ == bytes@.skip(offset + 5));
    }
    Some(RawFraming { payload, props: bytes[offset], dict_size })
}

/// Lists the framings to try for a raw block.
pub fn raw_framings(bytes: &[u8], max_out: usize) -> (framings: Vec<RawFraming<'_>>)
    requires
        max_out <= MAX_SQUASHFS_BLOCK,
    ensures
        framings@.map_values(|f: RawFraming<'_>| f@) == candidates(bytes@, max_out as nat),
{
    let mut framings: Vec<RawFraming<'_>> = Vec::new();
    let mut i: usize = 0;
    let ghost view = |f: RawFraming<'_>| f@;
    while i < LZMA_ALT_HEADER_OFFSETS.len()
        invariant
            i <= 2,
            view == (|f: RawFraming<'_>| f@),
            framings@.map_values(view) == (if i == 0 {
                Seq::empty()
            } else if i == 1 {
                alt_blocks(bytes@, 0)
            } else {
                alt_blocks(bytes@, 0) + alt_blocks(bytes@, 4)
            }),
        decreases 2 - i,
    {
        let ghost before = framings@;
        let offset = LZMA_ALT_HEADER_OFFSETS[i];
        proof {
            assert(offset == (if i == 0 { 0int } else { 4 }));
        }
        if let Some(framing) = alt_framing(bytes, offset) {
            framings.push(framing);
            proof {
                assert(framings@.map_values(view) == before.map_values(view).push(framing@));
                assert(alt_blocks(bytes@, offset as int) == seq![framing@]);
            }
        }
        proof {
            assert(framings@.map_values(view) == before.map_values(view) + alt_blocks(
                bytes@,
                offset as int,
            ));
        }
        i = i + 1;
    }
    let ghost before = framings@;
    framings.push(
        RawFraming { payload: bytes, props: SQUASHFS_LZMA_PROPS, dict_size: max_out as u32 },
    );
    proof {
        assert(framings@.map_values(view) == before.map_values(view).push(framings@.last()@));
    }
    framings
}

/// The attempts at a block for which memory could not be had.
pub struct Starved {
    /// Whether the attempt at the standard format is one of them.
    pub standard: bool,
    /// Those of the candidate framings that are, by their place.
    pub raw: Set<int>,
}

impl Starved {
    /// Whether these can be the attempts for which memory could not be had, where `before` is what
    /// the output holds beforehand: each was made, and want of memory is an answer that it can be
    /// given.
    pub open spec fn met(self, bytes: Seq<u8>, before: Seq<u8>, max_out: nat) -> bool {
        &&& self.standard ==> alone_header(bytes) && read_starves(bytes, before)
        &&& forall|place: int| #[trigger]
            self.raw.contains(place) ==> {
                &&& 0 <= place < candidates(bytes, max_out).len()
                &&& candidates(bytes, max_out)[place].tried(max_out)
                &&& candidates(bytes, max_out)[place].starves()
            }
    }
}

/// What the standard `.lzma` format yields behind what `before` holds: nothing, if the block does
/// not start with a header of that format, is no valid stream, or leaves the output empty.
pub open spec fn standard_attempt(bytes: Seq<u8>, before: Seq<u8>) -> Option<Seq<u8>> {
    if alone_header(bytes) && alone_decoded(bytes) is Some && (before + alone_decoded(
        bytes,
    )->0).len() > 0 {
        Some(before + alone_decoded(bytes)->0)
    } else {
        None
    }
}

/// What the first of `blocks`, from place `from` on, that yields anything yields.
pub open spec fn first_attempt(
    blocks: Seq<RawBlock>,
    max_out: nat,
    starved: Set<int>,
    from: int,
) -> Option<Seq<u8>>
    decreases blocks.len() - from,
{
    if from >= blocks.len() {
        None
    } else if !starved.contains(from) && blocks[from].attempt(max_out) is Some {
        blocks[from].attempt(max_out)
    } else {
        first_attempt(blocks, max_out, starved, from + 1)
    }
}

/// Attempts that yield nothing can be passed over.
pub proof fn lemma_first_attempt(
    blocks: Seq<RawBlock>,
    max_out: nat,
    starved: Set<int>,
    from: int,
)
    requires
        0 <= from <= blocks.len(),
        forall|k: int|
            0 <= k < from ==> starved.contains(k) || (#[trigger] blocks[k]).attempt(
                max_out,
            ) is None,
    ensures
        first_attempt(blocks, max_out, starved, 0) == first_attempt(
            blocks,
            max_out,
            starved,
            from,
        ),
    decreases from,
{
    if from > 0 {
        lemma_first_attempt(blocks, max_out, starved, from - 1);
    }
}

/// What a block decompresses to, where `before` is what the output holds beforehand: an empty
/// block leaves the output alone; any other is tried in the standard format, then in each raw
/// framing, and the first that yields anything counts.
pub open spec fn decompressed(
    bytes: Seq<u8>,
    before: Seq<u8>,
    max_out: nat,
    starved: Starved,
) -> Option<Seq<u8>> {
    if bytes.len() == 0 {
        Some(before)
    } else if !starved.standard && standard_attempt(bytes, before) is Some {
        standard_attempt(bytes, before)
    } else {
        first_attempt(candidates(bytes, max_out), max_out, starved.raw, 0)
    }
}

/// What a caller is told of `outcome`: the output holds it, or it is empty and the error says that
/// no framing fits.
pub open spec fn reported(
    outcome: Option<Seq<u8>>,
    result: Result<(), BackhandError>,
    after: Seq<u8>,
) -> bool {
    match outcome {
        Some(bytes) => result is Ok && after == bytes,
        None => {
            &&& result matches Err(BackhandError::UnsupportedCompression(message))
            &&& message@ == "Failed to decompress LZMA adaptive data"@
            &&& after.len() == 0
        },
    }
}

/// What a call that decompresses `bytes` leaves behind, where the output held `before`: what is
/// reported is what the block decompresses to, and want of memory bears on that only where it was
/// met. Of each framing that was tried the ceiling did no more than cut the output short.
pub open spec fn settled(
    bytes: Seq<u8>,
    before: Seq<u8>,
    max_out: nat,
    starved: Starved,
    result: Result<(), BackhandError>,
    after: Seq<u8>,
) -> bool {
    &&& starved.met(bytes, before, max_out)
    &&& reported(decompressed(bytes, before, max_out, starved), result, after)
    &&& forall|place: int|
        0 <= place < candidates(bytes, max_out).len() && reached(
            bytes,
            before,
            max_out,
            starved,
            place,
        ) && !starved.raw.contains(place) && (#[trigger] candidates(bytes, max_out)[place]).eligible(
            max_out,
        ) ==> candidates(bytes, max_out)[place].ceiling_cuts(max_out)
}

/// Whether the candidate framing at `place` has its turn: the block is not empty, and neither the
/// standard format nor any framing before it has yielded anything.
pub open spec fn reached(
    bytes: Seq<u8>,
    before: Seq<u8>,
    max_out: nat,
    starved: Starved,
    place: int,
) -> bool {
    &&& bytes.len() > 0
    &&& standard_attempt(bytes, before) is None || starved.standard
    &&& forall|k: int|
        0 <= k < place ==> starved.raw.contains(k) || (#[trigger] candidates(
            bytes,
            max_out,
        )[k]).attempt(max_out) is None
}

/// Decides whether the output of an attempt stands; if it does not, the output is cleared.
pub fn keep_output(done: bool, out: &mut Vec<u8>) -> (kept: bool)
    ensures
        kept == done,
        final(out)@ == (if done {
            old(out)@
        } else {
            Seq::empty()
        }),
{
    if !done {
        out.clear();
    }
    done
}

/// Decides whether what was read in the standard format stands: the block was read to its end and
/// the output is not empty. If it does not, the output is cleared.
pub fn keep_standard(end: ReadEnd, out: &mut Vec<u8>) -> (kept: bool)
    ensures
        kept == (end is Done && old(out)@.len() > 0),
        final(out)@ == (if kept {
            old(out)@
        } else {
            Seq::empty()
        }),
{
    let done = match end {
        ReadEnd::Done => !out.is_empty(),
        _ => false,
    };
    keep_output(done, out)
}

/// Tries the standard `.lzma` format.
fn try_standard(bytes: &[u8], out: &mut Vec<u8>) -> (end: AttemptEnd)
    ensures
        match end {
            AttemptEnd::Decoded => standard_attempt(bytes@, old(out)@) == Some(final(out)@),
            AttemptEnd::Nothing => standard_attempt(bytes@, old(out)@) is None,
            AttemptEnd::OutOfMemory => alone_header(bytes@) && read_starves(bytes@, old(out)@),
        },
{
    match read_alone(bytes, out) {
        Some(end) => {
            let kept = keep_standard(end, out);
            if kept {
                AttemptEnd::Decoded
            } else if end == ReadEnd::OutOfMemory {
                AttemptEnd::OutOfMemory
            } else {
                AttemptEnd::Nothing
            }
        },
        None => AttemptEnd::Nothing,
    }
}

/// Tries the raw framings in their order until one yields something, and tells how each attempt
/// came out.
fn try_raw(bytes: &[u8], out: &mut Vec<u8>, max_out: usize) -> (ends: Vec<AttemptEnd>)
    requires
        max_out <= MAX_SQUASHFS_BLOCK,
    ensures
        ends@.len() <= candidates(bytes@, max_out as nat).len(),
        ends@.len() == candidates(bytes@, max_out as nat).len() || (ends@.len() > 0
            && ends@.last() is Decoded),
        forall|k: int|
            0 <= k < ends@.len() ==> match #[trigger] ends@[k] {
                AttemptEnd::Decoded => {
                    &&& k == ends@.len() - 1
                    &&& candidates(bytes@, max_out as nat)[k].attempt(max_out as nat) == Some(
                        final(out)@,
                    )
                    &&& final(out)@.len() <= max_out
                },
                AttemptEnd::Nothing => candidates(bytes@, max_out as nat)[k].attempt(
                    max_out as nat,
                ) is None,
                AttemptEnd::OutOfMemory => {
                    &&& candidates(bytes@, max_out as nat)[k].tried(max_out as nat)
                    &&& candidates(bytes@, max_out as nat)[k].starves()
                },
            },
        forall|k: int|
            0 <= k < ends@.len() && !(#[trigger] ends@[k] is OutOfMemory) && candidates(
                bytes@,
                max_out as nat,
            )[k].eligible(max_out as nat) ==> candidates(bytes@, max_out as nat)[k].ceiling_cuts(
                max_out as nat,
            ),
{
    let framings = raw_framings(bytes, max_out);
    let ghost blocks = candidates(bytes@, max_out as nat);
    let mut ends: Vec<AttemptEnd> = Vec::new();
    let mut kept = false;
    while !kept && ends.len() < framings.len()
        invariant
            ends@.len() <= framings@.len(),
            max_out <= MAX_SQUASHFS_BLOCK,
            framings@.map_values(|f: RawFraming<'_>| f@) == blocks,
            kept ==> ends@.len() > 0 && ends@.last() is Decoded,
            forall|k: int|
                0 <= k < ends@.len() ==> match #[trigger] ends@[k] {
                    AttemptEnd::Decoded => {
                        &&& kept
                        &&& k == ends@.len() - 1
                        &&& blocks[k].attempt(max_out as nat) == Some(out@)
                        &&& out@.len() <= max_out
                    },
                    AttemptEnd::Nothing => blocks[k].attempt(max_out as nat) is None,
                    AttemptEnd::OutOfMemory => {
                        &&& blocks[k].tried(max_out as nat)
                        &&& blocks[k].starves()
                    },
                },
            forall|k: int|
                0 <= k < ends@.len() && !(#[trigger] ends@[k] is OutOfMemory)
                    && blocks[k].eligible(max_out as nat) ==> blocks[k].ceiling_cuts(
                    max_out as nat,
                ),
        decreases framings.len() - ends.len(),
    {
        let framing = &framings[ends.len()];
        proof {
            assert(framing@ == blocks[ends@.len() as int]);
        }
        let end = attempt_raw_lzma1(
            framing.payload,
            framing.props,
            framing.dict_size,
            max_out,
            out,
        );
        kept = keep_output(end == AttemptEnd::Decoded, out);
        ends.push(end);
    }
    ends
}

/// The attempts at a block for which memory could not be had, as they were met.
pub struct MemoryReport {
    /// Whether the attempt at the standard format is one of them.
    pub standard: bool,
    /// The places of those of the candidate framings that are.
    pub raw: Vec<usize>,
}

impl View for MemoryReport {
    type V = Starved;

    open spec fn view(&self) -> Starved {
        Starved {
            standard: self.standard,
            raw: Set::new(
                |place: int| exists|k: int| 0 <= k < self.raw@.len() && self.raw@[k] == place,
            ),
        }
    }
}

/// The attempts that ran out of memory among those that came out as `standard` and `raw` say.
pub open spec fn starved_among(standard: AttemptEnd, raw: Seq<AttemptEnd>) -> Starved {
    Starved {
        standard: standard is OutOfMemory,
        raw: Set::new(|place: int| 0 <= place < raw.len() && raw[place] is OutOfMemory),
    }
}

/// Settles a block from how the attempts at it came out: `standard` is the attempt at the standard
/// format, `raw` are those at the candidate framings by their place. If any has decoded the block
/// the output stands; if none has it is cleared, and the error says that no framing fits.
pub fn settle(standard: AttemptEnd, raw: &Vec<AttemptEnd>, out: &mut Vec<u8>) -> (verdict: (
    Result<(), BackhandError>,
    MemoryReport,
))
    ensures
        reported(
            if standard is Decoded || raw@.contains(AttemptEnd::Decoded) {
                Some(old(out)@)
            } else {
                None
            },
            verdict.0,
            final(out)@,
        ),
        verdict.1@ == starved_among(standard, raw@),
{
    let mut report = MemoryReport {
        standard: standard == AttemptEnd::OutOfMemory,
        raw: Vec::new(),
    };
    let mut decoded = standard == AttemptEnd::Decoded;
    let mut i: usize = 0;
    while i < raw.len()
        invariant
            i <= raw@.len(),
            report.standard == (standard is OutOfMemory),
            report@.raw == starved_among(standard, raw@.take(i as int)).raw,
            decoded == (standard is Decoded || raw@.take(i as int).contains(AttemptEnd::Decoded)),
        decreases raw.len() - i,
    {
        let ghost earlier = report;
        if raw[i] == AttemptEnd::OutOfMemory {
            report.raw.push(i);
        }
        if raw[i] == AttemptEnd::Decoded {
            decoded = true;
        }
        proof {
            lemma_report_grows(earlier, report, i, raw@[i as int] is OutOfMemory);
            let next = raw@.take(i + 1);
            assert(next == raw@.take(i as int).push(raw@[i as int]));
            assert(next.contains(AttemptEnd::Decoded) == (raw@.take(i as int).contains(
                AttemptEnd::Decoded,
            ) || raw@[i as int] is Decoded)) by {
                if raw@.take(i as int).contains(AttemptEnd::Decoded) {
                    let k = choose|k: int|
                        0 <= k < i && raw@.take(i as int)[k] == AttemptEnd::Decoded;
                    assert(next[k] == AttemptEnd::Decoded);
                }
                if raw@[i as int] is Decoded {
                    assert(next[i as int] == AttemptEnd::Decoded);
                }
            }
            assert(report@.raw =~= starved_among(standard, next).raw);
        }
        i = i + 1;
    }
    proof {
        assert(raw@.take(i as int) == raw@);
    }
    if decoded {
        return (Ok(()), report);
    }
    out.clear();
    let error = BackhandError::UnsupportedCompression(
        "Failed to decompress LZMA adaptive data".to_string(),
    );
    (Err(error), report)
}

/// One more place in a report is one more place in what it stands for.
proof fn lemma_report_grows(earlier: MemoryReport, report: MemoryReport, place: usize, grows: bool)
    requires
        report.raw@ == (if grows {
            earlier.raw@.push(place)
        } else {
            earlier.raw@
        }),
    ensures
        report@.raw == (if grows {
            earlier@.raw.insert(place as int)
        } else {
            earlier@.raw
        }),
{
    assert forall|p: int| earlier@.raw.contains(p) implies report@.raw.contains(p) by {
        let k = choose|k: int| 0 <= k < earlier.raw@.len() && earlier.raw@[k] == p;
        assert(report.raw@[k] == p);
    }
    assert forall|p: int| report@.raw.contains(p) && !(grows && p == place) implies
        earlier@.raw.contains(p) by {
        let k = choose|k: int| 0 <= k < report.raw@.len() && report.raw@[k] == p;
        assert(earlier.raw@[k] == p);
    }
    if grows {
        assert(report.raw@[earlier.raw@.len() as int] == place);
    }
    assert(report@.raw =~= (if grows {
        earlier@.raw.insert(place as int)
    } else {
        earlier@.raw
    }));
}

/// Decompresses `bytes` into `out`, with room for `max_out` bytes of a raw block, and tells for
/// which attempts memory could not be had. Where there is none, the outcome depends on the bytes,
/// the room and the output alone.
pub fn decompress_within(bytes: &[u8], out: &mut Vec<u8>, max_out: usize) -> (verdict: (
    Result<(), BackhandError>,
    MemoryReport,
))
    requires
        max_out <= MAX_SQUASHFS_BLOCK,
    ensures
        settled(
            bytes@,
            old(out)@,
            max_out as nat,
            verdict.1@,
            verdict.0,
            final(out)@,
        ),
        verdict.0 is Ok && bytes@.len() > 0 && standard_attempt(bytes@, old(out)@) is None
            ==> final(out)@.len() <= max_out,
{
    if bytes.is_empty() {
        return (Ok(()), MemoryReport { standard: false, raw: Vec::new() });
    }
    let standard = try_standard(bytes, out);
    let raw = if standard == AttemptEnd::Decoded {
        Vec::new()
    } else {
        try_raw(bytes, out, max_out)
    };
    proof {
        let starved = starved_among(standard, raw@);
        let blocks = candidates(bytes@, max_out as nat);
        if !(standard is Decoded) {
            if raw@.contains(AttemptEnd::Decoded) {
                lemma_first_attempt(blocks, max_out as nat, starved.raw, raw@.len() - 1);
            } else {
                lemma_first_attempt(blocks, max_out as nat, starved.raw, raw@.len() as int);
            }
            assert forall|place: int|
                0 <= place < blocks.len() && reached(
                    bytes@,
                    old(out)@,
                    max_out as nat,
                    starved,
                    place,
                ) && !starved.raw.contains(place) && (#[trigger] blocks[place]).eligible(
                    max_out as nat,
                ) implies blocks[place].ceiling_cuts(max_out as nat) by {
                if place < raw@.len() {
                    assert(!(raw@[place] is OutOfMemory));
                } else {
                    let last = raw@.len() - 1;
                    assert(raw@[last] is Decoded);
                    assert(blocks[last].attempt(max_out as nat) is Some);
                }
            }
        }
    }
    settle(standard, &raw, out)
}

/// The most that a raw block may decode to, where the output has room for `capacity` bytes.
pub open spec fn block_limit(capacity: usize) -> nat {
    if capacity <= MAX_SQUASHFS_BLOCK {
        capacity as nat
    } else {
        MAX_SQUASHFS_BLOCK as nat
    }
}

/// `Vec::capacity`: no less than the length. How much more is the allocator's choice.
#[verifier::external_body]
pub(crate) fn capacity_of(out: &Vec<u8>) -> (capacity: usize)
    ensures
        capacity >= out@.len(),
{
    out.capacity()
}

/// Whether `capacity` is an answer that asking `out` for its capacity can be given.
pub closed spec fn capacity_given(out: Vec<u8>, capacity: usize) -> bool {
    call_ensures(capacity_of, (&out,), capacity)
}

/// A capacity counts as given only where it is what asking the very same output can be answered.
pub(crate) proof fn law_capacity_is_an_answer(out: Vec<u8>, capacity: usize)
    requires
        capacity_given(out, capacity),
    ensures
        call_ensures(capacity_of, (&out,), capacity),
{
}

/// Clamps the room that a caller has set aside to the size of a block.
pub fn clamp_capacity(capacity: usize) -> (max_out: usize)
    ensures
        max_out == block_limit(capacity),
{
    if capacity <= MAX_SQUASHFS_BLOCK {
        capacity
    } else {
        MAX_SQUASHFS_BLOCK
    }
}

/// Decompressor for images whose LZMA blocks come in several framings.
#[derive(Copy, Clone)]
pub struct LzmaAdaptiveCompressor;

impl LzmaAdaptiveCompressor {
    /// Decompresses `bytes` into `out`.
    ///
    /// The caller pre-sizes the capacity of `out` to the structural maximum for this block. It is
    /// the size ceiling of the raw framings; see [`decompressed`] for the order in which framings
    /// are tried. A framing that fits is passed over only where memory for it was asked for and
    /// refused.
    pub fn decompress(
        &self,
        bytes: &[u8],
        out: &mut Vec<u8>,
        _compressor: Option<Compressor>,
    ) -> (result: Result<(), BackhandError>)
        ensures
            exists|capacity: usize, starved: Starved|
                {
                    &&& #[trigger] capacity_given(*old(out), capacity)
                    &&& capacity >= old(out)@.len()
                    &&& #[trigger] settled(
                        bytes@,
                        old(out)@,
                        block_limit(capacity),
                        starved,
                        result,
                        final(out)@,
                    )
                    &&& result is Ok && bytes@.len() > 0 && standard_attempt(
                        bytes@,
                        old(out)@,
                    ) is None ==> final(out)@.len() <= block_limit(capacity)
                },
    {
        let capacity = capacity_of(out);
        let max_out = clamp_capacity(capacity);
        let (result, _report) = decompress_within(bytes, out, max_out);
        proof {
            assert(capacity_given(*old(out), capacity));
            assert(settled(
                bytes@,
                old(out)@,
                block_limit(capacity),
                _report@,
                result,
                out@,
            ));
        }
        result
    }
}

} // verus!
