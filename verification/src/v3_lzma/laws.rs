//! What holds of every block, whatever the decoders make of it.

use super::alone::{alone_decoded, alone_header, read_starves};
use super::compressor::{
    alt_block, alt_blocks, attempted, block_limit, candidates, decompressed, first_attempt,
    lemma_first_attempt, packed_setup, raw_block, raw_settled, reported, settled,
    standard_attempt, AttemptEnd, RawBlock, Starved, SQUASHFS_LZMA_PROPS,
};
use super::raw_stream::{clip, RawSetup};
use crate::endian::{lemma_widths, Endian};
use crate::error::BackhandError;
use vstd::prelude::*;

verus! {

/// The bytes of a block in the "lzma-alt" framing: the properties byte, the dictionary size in
/// four bytes with the lowest first, and the bare stream.
pub open spec fn alt_framed(block: RawBlock) -> Seq<u8> {
    seq![block.props] + Endian::Little.bytes(block.dict_size as nat, 4) + block.payload
}

/// Packing `lc`, `lp` and `pb` as `(pb * 5 + lp) * 9 + lc` and unpacking the byte gives them back.
pub proof fn law_props_round_trip(lc: nat, lp: nat, pb: nat, dict_size: u32)
    requires
        lc < 9,
        lp < 5,
        (pb * 5 + lp) * 9 + lc <= u8::MAX,
    ensures
        packed_setup(((pb * 5 + lp) * 9 + lc) as u8, dict_size) == (RawSetup {
            dict_size,
            lc: lc as u32,
            lp: lp as u32,
            pb: pb as u32,
        }),
{
}

/// The properties of blocks without a header are `lc=3, lp=0, pb=2`, which are supported.
pub proof fn law_default_props(dict_size: u32)
    ensures
        packed_setup(SQUASHFS_LZMA_PROPS, dict_size) == (RawSetup { dict_size, lc: 3, lp: 0, pb: 2 }),
        packed_setup(SQUASHFS_LZMA_PROPS, dict_size).supported(),
{
}

/// A stream that does not start with the range coder's zero byte yields nothing, whatever is
/// guessed of its properties, its dictionary size and the room for output.
pub proof fn law_lead_byte_gate(payload: Seq<u8>, props: u8, dict_size: u32, max_out: nat)
    requires
        payload.len() == 0 || payload[0] != 0,
    ensures
        raw_block(payload, props, dict_size).attempt(max_out) is None,
{
}

/// Without room for output no stream yields anything.
pub proof fn law_no_room(block: RawBlock)
    ensures
        block.attempt(0) is None,
{
}

/// What the output held bears neither on how an attempt at an eligible stream comes out nor on what
/// then stands in the output, where memory for a decoder was had.
pub proof fn law_raw_ignores_output(
    block: RawBlock,
    max_out: nat,
    before: Seq<u8>,
    end: AttemptEnd,
    after: Seq<u8>,
    other_before: Seq<u8>,
    other_end: AttemptEnd,
    other_after: Seq<u8>,
)
    requires
        block.eligible(max_out),
        attempted(block, before, max_out, end, after),
        attempted(block, other_before, max_out, other_end, other_after),
        !(end is OutOfMemory),
        !(other_end is OutOfMemory),
    ensures
        end == other_end,
        after == other_after,
{
}

/// Two calls on the same stream with the same ceiling leave the same output behind if both yield
/// something, whatever it held; if only one does, memory for the decoder was refused to the other.
pub proof fn law_raw_calls_agree(
    block: RawBlock,
    max_out: nat,
    before: Seq<u8>,
    done: bool,
    after: Seq<u8>,
    other_before: Seq<u8>,
    other_done: bool,
    other_after: Seq<u8>,
)
    requires
        raw_settled(block, before, max_out, done, after),
        raw_settled(block, other_before, max_out, other_done, other_after),
    ensures
        done && other_done ==> after == other_after,
        done != other_done ==> block.starves(),
{
}

/// A smaller ceiling only cuts the tail: two attempts at the same stream into an empty output come
/// out alike, and the one with the smaller ceiling leaves the first bytes of what the other leaves,
/// where memory for a decoder was had.
pub proof fn law_smaller_ceiling(
    block: RawBlock,
    small: nat,
    small_end: AttemptEnd,
    small_after: Seq<u8>,
    large: nat,
    large_end: AttemptEnd,
    large_after: Seq<u8>,
)
    requires
        0 < small <= large <= isize::MAX,
        attempted(block, Seq::empty(), small, small_end, small_after),
        attempted(block, Seq::empty(), large, large_end, large_after),
        !(small_end is OutOfMemory),
        !(large_end is OutOfMemory),
    ensures
        small_end == large_end,
        small_after == clip(large_after, small),
{
    let setup = packed_setup(block.props, block.dict_size);
    if block.eligible(small) {
        assert(setup.first_call(block.payload, small) == clip(
            setup.first_call(block.payload, large),
            small,
        ));
    }
}

/// So do two calls on the same stream that both yield something, whatever the output held; if only
/// one does, memory for the decoder was refused to the other.
pub proof fn law_smaller_ceiling_of_calls(
    block: RawBlock,
    small: nat,
    small_before: Seq<u8>,
    small_done: bool,
    small_after: Seq<u8>,
    large: nat,
    large_before: Seq<u8>,
    large_done: bool,
    large_after: Seq<u8>,
)
    requires
        0 < small <= large <= isize::MAX,
        raw_settled(block, small_before, small, small_done, small_after),
        raw_settled(block, large_before, large, large_done, large_after),
    ensures
        small_done && large_done ==> small_after == clip(large_after, small),
        small_done != large_done ==> block.starves(),
{
    let setup = packed_setup(block.props, block.dict_size);
    if block.eligible(small) && !block.starves() || small_done && large_done {
        assert(setup.first_call(block.payload, small) == clip(
            setup.first_call(block.payload, large),
            small,
        ));
    }
}

/// A call on an empty block succeeds and leaves the output as it is.
pub proof fn law_empty_block(
    before: Seq<u8>,
    max_out: nat,
    starved: Starved,
    result: Result<(), BackhandError>,
    after: Seq<u8>,
)
    requires
        settled(Seq::empty(), before, max_out, starved, result, after),
    ensures
        result is Ok,
        after == before,
{
}

/// On a block that is not empty, a call succeeds exactly if it leaves something in the output.
pub proof fn law_output_never_empty(
    bytes: Seq<u8>,
    before: Seq<u8>,
    max_out: nat,
    starved: Starved,
    result: Result<(), BackhandError>,
    after: Seq<u8>,
)
    requires
        bytes.len() > 0,
        settled(bytes, before, max_out, starved, result, after),
    ensures
        result is Ok <==> after.len() > 0,
{
    lemma_attempts_never_empty(candidates(bytes, max_out), max_out, starved.raw, 0);
}

proof fn lemma_attempts_never_empty(
    blocks: Seq<RawBlock>,
    max_out: nat,
    starved: Set<int>,
    from: int,
)
    ensures
        first_attempt(blocks, max_out, starved, from) matches Some(out) ==> out.len() > 0,
    decreases blocks.len() - from,
{
    if from < blocks.len() {
        lemma_attempts_never_empty(blocks, max_out, starved, from + 1);
    }
}

/// A block in the standard format is decoded as such, behind what the output held, whatever room
/// the caller set aside and whatever the raw framings would make of it, unless the output would be
/// empty or reading it ran out of memory.
pub proof fn law_standard_first(
    bytes: Seq<u8>,
    before: Seq<u8>,
    max_out: nat,
    starved: Starved,
    result: Result<(), BackhandError>,
    after: Seq<u8>,
)
    requires
        alone_header(bytes),
        alone_decoded(bytes) matches Some(plain) && before.len() + plain.len() > 0,
        !starved.standard,
        settled(bytes, before, max_out, starved, result, after),
    ensures
        result is Ok,
        after == before + alone_decoded(bytes)->0,
{
}

/// The first framing that yields anything wins: where neither the standard format nor any earlier
/// framing applies, a framing that yields something is what the call reports, if memory for its
/// decoder was had.
pub proof fn law_first_framing_wins(
    place: int,
    bytes: Seq<u8>,
    before: Seq<u8>,
    max_out: nat,
    starved: Starved,
    result: Result<(), BackhandError>,
    after: Seq<u8>,
)
    requires
        0 <= place < candidates(bytes, max_out).len(),
        standard_attempt(bytes, before) is None || starved.standard,
        forall|k: int|
            0 <= k < place ==> starved.raw.contains(k) || (#[trigger] candidates(
                bytes,
                max_out,
            )[k]).attempt(max_out) is None,
        candidates(bytes, max_out)[place].attempt(max_out) is Some,
        !starved.raw.contains(place),
        bytes.len() > 0,
        settled(bytes, before, max_out, starved, result, after),
    ensures
        result is Ok,
        Some(after) == candidates(bytes, max_out)[place].attempt(max_out),
{
    lemma_first_attempt(candidates(bytes, max_out), max_out, starved.raw, place);
}

/// Where the standard format does not apply, what the output held beforehand does not matter.
pub proof fn law_raw_ignores_earlier_output(
    bytes: Seq<u8>,
    before: Seq<u8>,
    max_out: nat,
    starved: Starved,
    result: Result<(), BackhandError>,
    after: Seq<u8>,
)
    requires
        bytes.len() > 0,
        standard_attempt(bytes, before) is None || starved.standard,
        settled(bytes, before, max_out, starved, result, after),
    ensures
        reported(
            first_attempt(candidates(bytes, max_out), max_out, starved.raw, 0),
            result,
            after,
        ),
{
}

/// Reading an "lzma-alt" header behind any cruft gives back the stream that was framed.
pub proof fn law_alt_framing_round_trip(block: RawBlock, cruft: Seq<u8>)
    ensures
        alt_block(cruft + alt_framed(block), cruft.len() as int) == Some(block),
{
    let bytes = cruft + alt_framed(block);
    let at = cruft.len() as int;
    let size = Endian::Little.bytes(block.dict_size as nat, 4);
    lemma_widths();
    Endian::Little.lemma_value_of_bytes(block.dict_size as nat, 4);
    assert(bytes.subrange(at + 1, at + 5) == size);
    assert(bytes.skip(at + 5) == block.payload);
    assert(bytes[at] == block.props);
}

/// Reading an "lzma-alt" header at any place and framing what was read gives the bytes back.
pub proof fn law_alt_header_round_trip(bytes: Seq<u8>, offset: nat)
    ensures
        alt_block(bytes, offset as int) matches Some(block) ==> alt_framed(block) == bytes.skip(
            offset as int,
        ),
{
    if offset + 5 <= bytes.len() {
        let size = bytes.subrange(offset as int + 1, offset as int + 5);
        lemma_widths();
        Endian::Little.lemma_bytes_of_value(size);
        let block = alt_block(bytes, offset as int)->0;
        assert(alt_framed(block) =~= bytes.skip(offset as int));
    }
}

/// A stream in the "lzma-alt" framing is recovered: a call on the block reports what its bare stream
/// decodes to, if memory for its decoder was had.
pub proof fn law_alt_framing_recovered(
    block: RawBlock,
    before: Seq<u8>,
    max_out: nat,
    starved: Starved,
    result: Result<(), BackhandError>,
    after: Seq<u8>,
)
    requires
        block.attempt(max_out) is Some,
        standard_attempt(alt_framed(block), before) is None || starved.standard,
        !starved.raw.contains(0),
        settled(alt_framed(block), before, max_out, starved, result, after),
    ensures
        result is Ok,
        after == block.decoded(max_out),
{
    let bytes = alt_framed(block);
    law_alt_framing_round_trip(block, Seq::empty());
    assert(Seq::<u8>::empty() + bytes == bytes);
    assert(candidates(bytes, max_out)[0] == block);
    law_first_framing_wins(0, bytes, before, max_out, starved, result, after);
}

/// So is one behind four bytes of cruft, unless the header that those bytes make up at byte 0
/// yields something first.
pub proof fn law_alt_framing_behind_cruft_recovered(
    cruft: Seq<u8>,
    block: RawBlock,
    before: Seq<u8>,
    max_out: nat,
    starved: Starved,
    result: Result<(), BackhandError>,
    after: Seq<u8>,
)
    requires
        cruft.len() == 4,
        block.attempt(max_out) is Some,
        standard_attempt(cruft + alt_framed(block), before) is None || starved.standard,
        alt_block(cruft + alt_framed(block), 0) matches Some(wrong) ==> wrong.attempt(max_out) is None
            || starved.raw.contains(0),
        !starved.raw.contains(1),
        settled(cruft + alt_framed(block), before, max_out, starved, result, after),
    ensures
        result is Ok,
        after == block.decoded(max_out),
{
    let bytes = cruft + alt_framed(block);
    law_alt_framing_round_trip(block, cruft);
    lemma_widths();
    Endian::Little.lemma_value_of_bytes(block.dict_size as nat, 4);
    let blocks = candidates(bytes, max_out);
    assert(blocks[0] == alt_block(bytes, 0)->0);
    assert(blocks[1] == block);
    law_first_framing_wins(1, bytes, before, max_out, starved, result, after);
}

/// A stream without a header is recovered, unless its own bytes, taken for an "lzma-alt" header,
/// yield something first, if memory for its decoder was had.
pub proof fn law_headerless_recovered(
    bytes: Seq<u8>,
    before: Seq<u8>,
    max_out: nat,
    starved: Starved,
    result: Result<(), BackhandError>,
    after: Seq<u8>,
)
    requires
        raw_block(bytes, SQUASHFS_LZMA_PROPS, max_out as u32).attempt(max_out) is Some,
        standard_attempt(bytes, before) is None || starved.standard,
        forall|k: int|
            0 <= k < candidates(bytes, max_out).len() - 1 ==> starved.raw.contains(k) || (
            #[trigger] candidates(bytes, max_out)[k]).attempt(max_out) is None,
        !starved.raw.contains(candidates(bytes, max_out).len() - 1),
        settled(bytes, before, max_out, starved, result, after),
    ensures
        result is Ok,
        after == raw_block(bytes, SQUASHFS_LZMA_PROPS, max_out as u32).decoded(max_out),
{
    law_first_framing_wins(
        candidates(bytes, max_out).len() - 1,
        bytes,
        before,
        max_out,
        starved,
        result,
        after,
    );
}

/// A block is refused if and only if it is not empty and no framing yields anything for which
/// memory was had.
pub proof fn law_refused_exactly(
    bytes: Seq<u8>,
    before: Seq<u8>,
    max_out: nat,
    starved: Starved,
    result: Result<(), BackhandError>,
    after: Seq<u8>,
)
    requires
        settled(bytes, before, max_out, starved, result, after),
    ensures
        result is Err <==> {
            &&& bytes.len() > 0
            &&& standard_attempt(bytes, before) is None || starved.standard
            &&& forall|k: int|
                0 <= k < candidates(bytes, max_out).len() ==> starved.raw.contains(k) || (
                #[trigger] candidates(bytes, max_out)[k]).attempt(max_out) is None
        },
        result is Err ==> after.len() == 0,
{
    lemma_no_attempt(candidates(bytes, max_out), max_out, starved.raw, 0);
}

/// A call refuses a block that some framing fits only where memory was refused to that framing.
pub proof fn law_refusal_is_owed(
    bytes: Seq<u8>,
    before: Seq<u8>,
    max_out: nat,
    starved: Starved,
    result: Result<(), BackhandError>,
    after: Seq<u8>,
)
    requires
        result is Err,
        settled(bytes, before, max_out, starved, result, after),
    ensures
        bytes.len() > 0,
        standard_attempt(bytes, before) is None || read_starves(bytes, before),
        forall|k: int|
            0 <= k < candidates(bytes, max_out).len() ==> (#[trigger] candidates(
                bytes,
                max_out,
            )[k]).attempt(max_out) is None || candidates(bytes, max_out)[k].starves(),
{
    law_refused_exactly(bytes, before, max_out, starved, result, after);
}

proof fn lemma_no_attempt(blocks: Seq<RawBlock>, max_out: nat, starved: Set<int>, from: int)
    ensures
        first_attempt(blocks, max_out, starved, from) is None <==> forall|k: int|
            from <= k < blocks.len() ==> starved.contains(k) || (#[trigger] blocks[k]).attempt(
                max_out,
            ) is None,
    decreases blocks.len() - from,
{
    if from < blocks.len() {
        lemma_no_attempt(blocks, max_out, starved, from + 1);
    }
}

/// Without room for output a block that is not in the standard format is refused.
pub proof fn law_no_room_refused(
    bytes: Seq<u8>,
    before: Seq<u8>,
    starved: Starved,
    result: Result<(), BackhandError>,
    after: Seq<u8>,
)
    requires
        bytes.len() > 0,
        standard_attempt(bytes, before) is None,
        settled(bytes, before, 0, starved, result, after),
    ensures
        result is Err,
        after.len() == 0,
{
    lemma_no_attempt(candidates(bytes, 0), 0, starved.raw, 0);
}

/// A block in none of the framings is refused, whatever memory there is: it has no header of the
/// standard format, and the range coder's zero byte is at none of the three places at which a raw
/// stream could start.
pub proof fn law_unframed_block_refused(
    bytes: Seq<u8>,
    before: Seq<u8>,
    max_out: nat,
    starved: Starved,
    result: Result<(), BackhandError>,
    after: Seq<u8>,
)
    requires
        bytes.len() > 0,
        !alone_header(bytes),
        bytes[0] != 0,
        bytes.len() <= 5 || bytes[5] != 0,
        bytes.len() <= 9 || bytes[9] != 0,
        settled(bytes, before, max_out, starved, result, after),
    ensures
        result is Err,
        after.len() == 0,
{
    lemma_alt_gated(bytes, max_out);
    lemma_no_attempt(candidates(bytes, max_out), max_out, starved.raw, 0);
}

/// Without the zero byte behind it no "lzma-alt" header yields anything.
proof fn lemma_alt_gated(bytes: Seq<u8>, max_out: nat)
    requires
        bytes.len() <= 5 || bytes[5] != 0,
        bytes.len() <= 9 || bytes[9] != 0,
    ensures
        forall|k: int|
            0 <= k < candidates(bytes, max_out).len() - 1 ==> (#[trigger] candidates(
                bytes,
                max_out,
            )[k]).attempt(max_out) is None,
{
    assert forall|k: int| 0 <= k < candidates(bytes, max_out).len() - 1 implies (
    #[trigger] candidates(bytes, max_out)[k]).attempt(max_out) is None by {
        let block = candidates(bytes, max_out)[k];
        assert(block == (alt_blocks(bytes, 0) + alt_blocks(bytes, 4))[k]);
        assert(Some(block) == alt_block(bytes, 0) || Some(block) == alt_block(bytes, 4));
    }
}

/// No attempt at all for which memory could not be had.
pub open spec fn none_starved() -> Starved {
    Starved { standard: false, raw: Set::empty() }
}

/// Want of memory never turns a refusal into a success.
pub proof fn law_memory_only_refuses(
    bytes: Seq<u8>,
    before: Seq<u8>,
    max_out: nat,
    starved: Starved,
    result: Result<(), BackhandError>,
    after: Seq<u8>,
)
    requires
        decompressed(bytes, before, max_out, none_starved()) is None,
        settled(bytes, before, max_out, starved, result, after),
    ensures
        result is Err,
{
    lemma_no_attempt(candidates(bytes, max_out), max_out, Set::empty(), 0);
    lemma_no_attempt(candidates(bytes, max_out), max_out, starved.raw, 0);
}

/// Whether two calls told their callers the same.
pub open spec fn same_result(a: Result<(), BackhandError>, b: Result<(), BackhandError>) -> bool {
    match (a, b) {
        (Ok(_), Ok(_)) => true,
        (
            Err(BackhandError::UnsupportedCompression(x)),
            Err(BackhandError::UnsupportedCompression(y)),
        ) => x@ == y@,
        (
            Err(BackhandError::InvalidXattrTable(x)),
            Err(BackhandError::InvalidXattrTable(y)),
        ) => x@ == y@,
        _ => false,
    }
}

/// Two calls on the same block, with outputs of the same contents and capacity, have the same
/// result and leave the same output behind, if the same attempts ran out of memory in both, such as
/// none. Whatever compressor either was told of has no part in it.
pub proof fn law_equal_calls(
    bytes: Seq<u8>,
    before: Seq<u8>,
    capacity: usize,
    starved: Starved,
    result: Result<(), BackhandError>,
    after: Seq<u8>,
    other_result: Result<(), BackhandError>,
    other_after: Seq<u8>,
)
    requires
        settled(bytes, before, block_limit(capacity), starved, result, after),
        settled(bytes, before, block_limit(capacity), starved, other_result, other_after),
    ensures
        same_result(result, other_result),
        after == other_after,
{
}

} // verus!
