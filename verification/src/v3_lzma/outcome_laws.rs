//! What a call does, told in the bytes that it is handed and in what the decoders write.

use super::alone::{alone_decoded, alone_header, read_starves};
use super::compressor::{
    alt_block, alt_blocks, attempted, block_limit, candidates, first_attempt, packed_setup,
    raw_block, raw_settled, reached, reported, settled, standard_attempt, starved_among,
    AttemptEnd, MemoryReport, RawBlock, RawFraming, Starved, LZMA_ALT_HEADER_OFFSETS,
    MAX_SQUASHFS_BLOCK, SQUASHFS_LZMA_PROPS,
};
use super::raw_stream::{clip, raw_step, RawDecoder, RawSetup};
use crate::endian::{law_value_digits, law_value_of_four, lemma_widths, Endian};
use crate::error::BackhandError;
use vstd::prelude::*;

verus! {

/// The numbers that the format fixes.
pub proof fn law_fixed_numbers()
    ensures
        MAX_SQUASHFS_BLOCK == 0x10_0000,
        SQUASHFS_LZMA_PROPS == 0x5d,
        LZMA_ALT_HEADER_OFFSETS@ == seq![0usize, 4usize],
{
    assert(LZMA_ALT_HEADER_OFFSETS@ =~= seq![0usize, 4usize]);
}

/// The ceiling of a raw block is the smaller of the capacity and one MiB: it exceeds neither, and it
/// is one of them.
pub proof fn law_ceiling_is_the_smaller(capacity: usize)
    ensures
        block_limit(capacity) <= capacity,
        block_limit(capacity) <= 0x10_0000,
        block_limit(capacity) == capacity || block_limit(capacity) == 0x10_0000,
{
}

/// A capacity that holds all of a block loses none of it: with more capacity the ceiling is no
/// smaller, and up to one MiB each byte of capacity counts.
pub proof fn law_ceiling_grows(capacity: usize, larger: usize)
    requires
        capacity <= larger,
    ensures
        block_limit(capacity) <= block_limit(larger),
        larger <= 0x10_0000 ==> block_limit(larger) - block_limit(capacity) == larger - capacity,
{
}

/// The parts of a properties byte make it up again, and each is in its range.
pub proof fn law_props_parts(props: u8, dict_size: u32, setup: RawSetup)
    requires
        setup == packed_setup(props, dict_size),
    ensures
        setup.dict_size == dict_size,
        setup.lc < 9,
        setup.lp < 5,
        (setup.pb * 5 + setup.lp) * 9 + setup.lc == props,
{
}

/// Properties are supported exactly up to `lc + lp` of 4 and `pb` of 4.
pub proof fn law_supported_properties(setup: RawSetup)
    ensures
        setup.supported() <==> setup.lc + setup.lp <= 4 && setup.pb <= 4,
{
}

/// Clipping keeps the first bytes, as many as asked for or as there are.
pub proof fn law_clip_keeps_the_front(bytes: Seq<u8>, len: nat)
    ensures
        clip(bytes, len).len() <= len,
        clip(bytes, len).len() == len || clip(bytes, len).len() == bytes.len(),
        clip(bytes, len).len() <= bytes.len(),
        forall|i: int| 0 <= i < clip(bytes, len).len() ==> #[trigger] clip(bytes, len)[i] == bytes[i],
{
}

/// A decoder's output is all that it writes when it is offered the whole stream and the whole room
/// at once; with a larger ceiling it goes on behind the same bytes.
pub proof fn law_output_is_what_the_decoder_writes(
    setup: RawSetup,
    payload: Seq<u8>,
    max_out: nat,
    larger: nat,
)
    requires
        setup.ceiling_cuts(payload, max_out),
        max_out <= larger <= isize::MAX,
    ensures
        setup.decoded(payload, max_out) == raw_step(
            setup.dict_size,
            setup.lc,
            setup.lp,
            setup.pb,
            Seq::empty(),
            payload,
            max_out,
        ).1,
        setup.decoded(payload, max_out).is_prefix_of(
            raw_step(
                setup.dict_size,
                setup.lc,
                setup.lp,
                setup.pb,
                Seq::empty(),
                payload,
                larger,
            ).1,
        ),
{
    let wide = setup.first_call(payload, larger);
    assert(setup.first_call(payload, max_out) == clip(wide, max_out));
}

/// A bare stream is decoded whenever there is room, it starts with a zero byte and its properties
/// are supported, whatever its length: the output is what the decoder writes, and the call tells
/// whether that is anything. In every other case, and where memory for the decoder was refused, the
/// call yields nothing and leaves the output alone.
pub proof fn law_raw_call(
    payload: Seq<u8>,
    props: u8,
    dict_size: u32,
    max_out: nat,
    before: Seq<u8>,
    done: bool,
    after: Seq<u8>,
)
    requires
        raw_settled(raw_block(payload, props, dict_size), before, max_out, done, after),
    ensures
        ({
            let lc = (props % 9) as u32;
            let lp = (props / 9 % 5) as u32;
            let pb = (props / 45) as u32;
            let fit = max_out > 0 && payload.len() > 0 && payload[0] == 0 && lc + lp <= 4 && pb
                <= 4;
            let written = raw_step(dict_size, lc, lp, pb, Seq::empty(), payload, max_out).1;
            ||| {
                &&& fit
                &&& after == written
                &&& done == (written.len() > 0)
            }
            ||| {
                &&& !fit || RawDecoder::memory_refused(RawSetup { dict_size, lc, lp, pb })
                &&& !done
                &&& after == before
            }
        }),
{
}

/// A stream that fits below the ceiling comes out whole: if the decoder writes no more than `max_out`
/// bytes however much room it is given, a call that yields anything leaves all of them.
pub proof fn law_whole_stream_comes_out(
    payload: Seq<u8>,
    props: u8,
    dict_size: u32,
    max_out: nat,
    before: Seq<u8>,
    after: Seq<u8>,
    room: nat,
)
    requires
        raw_settled(raw_block(payload, props, dict_size), before, max_out, true, after),
        max_out <= room <= isize::MAX,
        raw_step(
            dict_size,
            (props % 9) as u32,
            (props / 9 % 5) as u32,
            (props / 45) as u32,
            Seq::empty(),
            payload,
            room,
        ).1.len() <= max_out,
    ensures
        after == raw_step(
            dict_size,
            (props % 9) as u32,
            (props / 9 % 5) as u32,
            (props / 45) as u32,
            Seq::empty(),
            payload,
            room,
        ).1,
{
    let setup = packed_setup(props, dict_size);
    assert(setup.first_call(payload, max_out) == clip(setup.first_call(payload, room), max_out));
}

/// So is it with an attempt, which tells apart whether the stream is no good or memory was refused.
pub proof fn law_raw_attempt(
    payload: Seq<u8>,
    props: u8,
    dict_size: u32,
    max_out: nat,
    before: Seq<u8>,
    end: AttemptEnd,
    after: Seq<u8>,
)
    requires
        attempted(raw_block(payload, props, dict_size), before, max_out, end, after),
    ensures
        ({
            let lc = (props % 9) as u32;
            let lp = (props / 9 % 5) as u32;
            let pb = (props / 45) as u32;
            let begun = max_out > 0 && payload.len() > 0 && payload[0] == 0;
            let fit = begun && lc + lp <= 4 && pb <= 4;
            let written = raw_step(dict_size, lc, lp, pb, Seq::empty(), payload, max_out).1;
            match end {
                AttemptEnd::Decoded => fit && written.len() > 0 && after == written,
                AttemptEnd::Nothing => if fit {
                    written.len() == 0 && after == written
                } else {
                    after == before
                },
                AttemptEnd::OutOfMemory => {
                    &&& begun
                    &&& RawDecoder::memory_refused(RawSetup { dict_size, lc, lp, pb })
                    &&& after == before
                },
            }
        }),
{
}

/// What the header of the standard format is: 13 bytes and the five that start the range coder, a
/// properties byte up to 224, a dictionary size that can be rounded up to a multiple of 16, and a
/// zero byte behind the header.
pub proof fn law_standard_header(block: Seq<u8>)
    ensures
        alone_header(block) <==> {
            &&& block.len() >= 18
            &&& block[0] <= 224
            &&& block[1] + 0x100 * block[2] + 0x1_0000 * block[3] + 0x100_0000 * block[4]
                <= 0xffff_fff0
            &&& block[13] == 0
        },
{
    if block.len() >= 18 {
        law_value_of_four(Endian::Little, block.subrange(1, 5));
    }
}

/// An "lzma-alt" header is read wherever five bytes are left for it: the properties byte, the
/// dictionary size with its low byte first, and then the stream to the end of the block.
pub proof fn law_alt_header_layout(bytes: Seq<u8>, offset: usize, framing: RawFraming<'_>)
    requires
        alt_block(bytes, offset as int) == Some(framing@),
    ensures
        offset + 5 <= bytes.len(),
        framing.props == bytes[offset as int],
        framing.dict_size == bytes[offset + 1] + 0x100 * bytes[offset + 2] + 0x1_0000
            * bytes[offset + 3] + 0x100_0000 * bytes[offset + 4],
        framing.payload@.len() == bytes.len() - offset - 5,
        forall|i: int|
            0 <= i < framing.payload@.len() ==> #[trigger] framing.payload@[i] == bytes[offset + 5
                + i],
{
    let size = bytes.subrange(offset as int + 1, offset as int + 5);
    lemma_widths();
    law_value_digits(Endian::Little, size, 0);
    law_value_of_four(Endian::Little, size);
}

/// An "lzma-alt" header is missed only where fewer than five bytes are left.
pub proof fn law_alt_header_needs_five_bytes(bytes: Seq<u8>, offset: usize)
    ensures
        alt_block(bytes, offset as int) is Some <==> offset + 5 <= bytes.len(),
{
}

/// Every framing that can be there is tried, in this order: the header at byte 0, the header at byte
/// 4, no header. The last has the default properties, the room for its dictionary size and all of
/// the block for its stream.
pub proof fn law_framings_in_order(bytes: Seq<u8>, max_out: nat, framings: Seq<RawFraming<'_>>)
    requires
        framings.map_values(|f: RawFraming<'_>| f@) == candidates(bytes, max_out),
    ensures
        framings.len() == (if bytes.len() >= 9 {
            3int
        } else if bytes.len() >= 5 {
            2
        } else {
            1
        }),
        framings.last().payload@ == bytes,
        framings.last().props == 0x5d,
        framings.last().dict_size == max_out as u32,
        bytes.len() >= 5 ==> {
            &&& framings[0].payload@ == bytes.skip(5)
            &&& framings[0].props == bytes[0]
            &&& framings[0].dict_size == bytes[1] + 0x100 * bytes[2] + 0x1_0000 * bytes[3]
                + 0x100_0000 * bytes[4]
        },
        bytes.len() >= 9 ==> {
            &&& framings[1].payload@ == bytes.skip(9)
            &&& framings[1].props == bytes[4]
            &&& framings[1].dict_size == bytes[5] + 0x100 * bytes[6] + 0x1_0000 * bytes[7]
                + 0x100_0000 * bytes[8]
        },
{
    let blocks = candidates(bytes, max_out);
    assert(framings.len() == blocks.len());
    assert(framings.last()@ == blocks.last());
    lemma_candidates(bytes, max_out);
    if bytes.len() >= 5 {
        assert(framings[0]@ == blocks[0]);
    }
    if bytes.len() >= 9 {
        assert(framings[1]@ == blocks[1]);
    }
}

proof fn lemma_candidates(bytes: Seq<u8>, max_out: nat)
    ensures
        candidates(bytes, max_out).len() == (if bytes.len() >= 9 {
            3int
        } else if bytes.len() >= 5 {
            2
        } else {
            1
        }),
        candidates(bytes, max_out).last() == (RawBlock {
            payload: bytes,
            props: 0x5d,
            dict_size: max_out as u32,
        }),
        bytes.len() >= 5 ==> candidates(bytes, max_out)[0] == (RawBlock {
            payload: bytes.skip(5),
            props: bytes[0],
            dict_size: (bytes[1] + 0x100 * bytes[2] + 0x1_0000 * bytes[3] + 0x100_0000
                * bytes[4]) as u32,
        }),
        bytes.len() >= 9 ==> candidates(bytes, max_out)[1] == (RawBlock {
            payload: bytes.skip(9),
            props: bytes[4],
            dict_size: (bytes[5] + 0x100 * bytes[6] + 0x1_0000 * bytes[7] + 0x100_0000
                * bytes[8]) as u32,
        }),
{
    if bytes.len() >= 5 {
        law_value_of_four(Endian::Little, bytes.subrange(1, 5));
    }
    if bytes.len() >= 9 {
        law_value_of_four(Endian::Little, bytes.subrange(5, 9));
    }
}

/// What a call makes of a block, in the block's own bytes. An empty block succeeds and leaves the
/// output alone. Any other is, in this order, what the standard format yields behind the output,
/// what the stream behind a header at byte 0 yields, what the stream behind a header at byte 4
/// yields, and what the block itself yields as a stream; the first of these that is not empty is
/// reported. If all are empty the call fails, says so and leaves nothing in the output. A framing
/// to which memory was refused yields nothing.
pub proof fn law_what_a_call_reports(
    bytes: Seq<u8>,
    before: Seq<u8>,
    max_out: nat,
    starved: Starved,
    result: Result<(), BackhandError>,
    after: Seq<u8>,
)
    requires
        settled(bytes, before, max_out, starved, result, after),
    ensures
        ({
            let standard = !starved.standard && bytes.len() >= 18 && bytes[0] <= 224 && bytes[1]
                + 0x100 * bytes[2] + 0x1_0000 * bytes[3] + 0x100_0000 * bytes[4] <= 0xffff_fff0
                && bytes[13] == 0 && alone_decoded(bytes) is Some && before.len() + alone_decoded(
                bytes,
            )->0.len() > 0;
            let at_zero = if !starved.raw.contains(0) && max_out > 0 && bytes.len() >= 6
                && bytes[5] == 0 && bytes[0] % 9 + bytes[0] / 9 % 5 <= 4 && bytes[0] / 45 <= 4 {
                raw_step(
                    (bytes[1] + 0x100 * bytes[2] + 0x1_0000 * bytes[3] + 0x100_0000
                        * bytes[4]) as u32,
                    (bytes[0] % 9) as u32,
                    (bytes[0] / 9 % 5) as u32,
                    (bytes[0] / 45) as u32,
                    Seq::empty(),
                    bytes.skip(5),
                    max_out,
                ).1
            } else {
                Seq::empty()
            };
            let at_four = if !starved.raw.contains(1) && max_out > 0 && bytes.len() >= 10
                && bytes[9] == 0 && bytes[4] % 9 + bytes[4] / 9 % 5 <= 4 && bytes[4] / 45 <= 4 {
                raw_step(
                    (bytes[5] + 0x100 * bytes[6] + 0x1_0000 * bytes[7] + 0x100_0000
                        * bytes[8]) as u32,
                    (bytes[4] % 9) as u32,
                    (bytes[4] / 9 % 5) as u32,
                    (bytes[4] / 45) as u32,
                    Seq::empty(),
                    bytes.skip(9),
                    max_out,
                ).1
            } else {
                Seq::empty()
            };
            let last = if bytes.len() >= 9 {
                2int
            } else if bytes.len() >= 5 {
                1
            } else {
                0
            };
            let bare = if !starved.raw.contains(last) && max_out > 0 && bytes.len() > 0 && bytes[0]
                == 0 {
                raw_step(max_out as u32, 3, 0, 2, Seq::empty(), bytes, max_out).1
            } else {
                Seq::empty()
            };
            if bytes.len() == 0 {
                result is Ok && after == before
            } else if standard {
                result is Ok && after == before + alone_decoded(bytes)->0
            } else if at_zero.len() > 0 {
                result is Ok && after == at_zero
            } else if at_four.len() > 0 {
                result is Ok && after == at_four
            } else if bare.len() > 0 {
                result is Ok && after == bare
            } else {
                &&& result matches Err(BackhandError::UnsupportedCompression(message))
                &&& message@ == "Failed to decompress LZMA adaptive data"@
                &&& after.len() == 0
            }
        }),
{
    let blocks = candidates(bytes, max_out);
    let raw = starved.raw;
    lemma_candidates(bytes, max_out);
    law_standard_header(bytes);
    reveal_with_fuel(first_attempt, 4);
    if bytes.len() > 0 && !(standard_attempt(bytes, before) is Some && !starved.standard) {
        assert(reached(bytes, before, max_out, starved, 0));
        if raw.contains(0) || blocks[0].attempt(max_out) is None {
            if blocks.len() > 1 {
                assert(reached(bytes, before, max_out, starved, 1));
            }
            if blocks.len() > 2 && (raw.contains(1) || blocks[1].attempt(max_out) is None) {
                assert(reached(bytes, before, max_out, starved, 2));
            }
        }
    }
}

/// Want of memory bears on a call only where it was met: for the standard format, if the block has
/// its header and reading it can run out of memory; for a raw framing, if the framing is there and a
/// decoder with exactly its properties and dictionary size can be refused.
pub proof fn law_starved_where_refused(
    bytes: Seq<u8>,
    before: Seq<u8>,
    max_out: nat,
    starved: Starved,
    result: Result<(), BackhandError>,
    after: Seq<u8>,
    place: int,
)
    requires
        settled(bytes, before, max_out, starved, result, after),
    ensures
        starved.standard ==> {
            &&& bytes.len() >= 18
            &&& bytes[0] <= 224
            &&& bytes[13] == 0
            &&& read_starves(bytes, before)
        },
        starved.raw.contains(place) ==> {
            let last = if bytes.len() >= 9 {
                2int
            } else if bytes.len() >= 5 {
                1
            } else {
                0
            };
            let at = if place == 0 {
                0int
            } else {
                4
            };
            &&& max_out > 0
            &&& 0 <= place <= last
            &&& place == last ==> bytes.len() > 0 && bytes[0] == 0 && RawDecoder::memory_refused(
                RawSetup { dict_size: max_out as u32, lc: 3, lp: 0, pb: 2 },
            )
            &&& place < last ==> bytes.len() > at + 5 && bytes[at + 5] == 0
                && RawDecoder::memory_refused(
                RawSetup {
                    dict_size: (bytes[at + 1] + 0x100 * bytes[at + 2] + 0x1_0000 * bytes[at + 3]
                        + 0x100_0000 * bytes[at + 4]) as u32,
                    lc: (bytes[at] % 9) as u32,
                    lp: (bytes[at] / 9 % 5) as u32,
                    pb: (bytes[at] / 45) as u32,
                },
            )
        },
{
    lemma_candidates(bytes, max_out);
    law_standard_header(bytes);
}

/// A report names the attempts that it stands for, and no others.
pub proof fn law_report_stands_for_its_places(report: MemoryReport, place: int)
    ensures
        report@.standard == report.standard,
        report@.raw.contains(place) <==> exists|k: int|
            0 <= k < report.raw@.len() && report.raw@[k] == place,
{
}

/// The attempts that ran out of memory are those that came out so.
pub proof fn law_starved_are_those_that_ended_so(
    standard: AttemptEnd,
    raw: Seq<AttemptEnd>,
    place: int,
)
    ensures
        starved_among(standard, raw).standard == (standard is OutOfMemory),
        starved_among(standard, raw).raw.contains(place) <==> 0 <= place < raw.len()
            && raw[place] is OutOfMemory,
{
}

/// A caller is told of success exactly if there is an outcome, and finds it in the output; otherwise
/// the output is empty and the error says that no framing fits.
pub proof fn law_what_a_caller_is_told(
    outcome: Option<Seq<u8>>,
    result: Result<(), BackhandError>,
    after: Seq<u8>,
)
    requires
        reported(outcome, result, after),
    ensures
        result is Ok <==> outcome is Some,
        result is Ok ==> outcome == Some(after),
        result is Err ==> after.len() == 0,
        result matches Err(error) ==> {
            &&& error matches BackhandError::UnsupportedCompression(message)
            &&& message@ == "Failed to decompress LZMA adaptive data"@
        },
{
}

} // verus!
