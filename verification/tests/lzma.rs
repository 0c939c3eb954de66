use backhand::error::BackhandError;
use backhand::traits::Compressor;
use backhand::v3_lzma::alone::ReadEnd;
use backhand::v3_lzma::compressor::{
    alt_framing, attempt_raw_lzma1, clamp_capacity, decompress_raw_lzma1, decompress_within,
    keep_output, keep_standard, raw_framings, settle, unpack_props, AttemptEnd,
    LzmaAdaptiveCompressor, MAX_SQUASHFS_BLOCK, SQUASHFS_LZMA_PROPS,
};
use backhand::v3_lzma::raw_stream::{RawDecoder, RawProgress, RawRefusal, RawSetup};
use liblzma::stream::{Action, Filters, LzmaOptions, Status, Stream};

/// Encode `plain` as a bare LZMA1 range-coded stream (no header, no size, the framing squashfs
/// blocks use) with `lc=3/lp=0/pb=2`.
fn encode_raw_lzma1(plain: &[u8], dict: u32) -> Vec<u8> {
    // `new()` lacks the encoder-required fields; a preset fills them, then we pin the
    // squashfs-default lc/lp/pb and dictionary size.
    let mut opts = LzmaOptions::new_preset(6).unwrap();
    opts.dict_size(dict).literal_context_bits(3).literal_position_bits(0).position_bits(2);
    let mut filters = Filters::new();
    filters.lzma1(&opts);
    let mut stream = Stream::new_raw_encoder(&filters).unwrap();

    let mut comp = vec![0u8; plain.len() + 4096];
    let (mut in_off, mut out_off) = (0usize, 0usize);
    loop {
        let status =
            stream.process(&plain[in_off..], &mut comp[out_off..], Action::Finish).unwrap();
        in_off = stream.total_in() as usize;
        out_off = stream.total_out() as usize;
        if status == Status::StreamEnd {
            break;
        }
        if out_off == comp.len() {
            comp.resize(comp.len() * 2, 0);
        }
    }
    comp.truncate(out_off);
    comp
}

fn sample() -> Vec<u8> {
    b"squashfs v3 lzma round-trip sample payload. ".repeat(120)
}

/// "Hello, world!" in the standard format, without a size and with an end marker.
fn hello_alone() -> Vec<u8> {
    vec![
        93, 0, 0, 128, 0, 255, 255, 255, 255, 255, 255, 255, 255, 0, 36, 25, 73, 152, 111, 22, 2,
        140, 232, 230, 91, 177, 71, 198, 206, 183, 99, 255, 255, 60, 172, 0, 0,
    ]
}

/// Decompresses with room for `max_out` bytes, where memory suffices for every attempt.
fn within(bytes: &[u8], out: &mut Vec<u8>, max_out: usize) -> Result<(), BackhandError> {
    let (result, report) = decompress_within(bytes, out, max_out);
    assert!(!report.standard && report.raw.is_empty());
    result
}

fn is_unsupported(result: Result<(), BackhandError>) -> bool {
    match result {
        Err(BackhandError::UnsupportedCompression(message)) => {
            message == "Failed to decompress LZMA adaptive data"
        }
        _ => false,
    }
}

/// Short block: cap exceeds the genuine size, so decoding stops at input exhaustion and yields
/// exactly the original bytes.
#[test]
fn raw_lzma1_round_trip_short_block() {
    let plain = sample();
    let comp = encode_raw_lzma1(&plain, 0x10000);
    assert_eq!(comp.first(), Some(&0x00), "range-coded stream starts with 0x00");

    let mut out = Vec::new();
    assert!(decompress_raw_lzma1(
        &comp,
        SQUASHFS_LZMA_PROPS,
        0x10000,
        plain.len() + 4096,
        &mut out
    ));
    assert_eq!(out, plain);
}

/// Full block: cap equals the genuine size, so decoding stops at the cap, dropping the phantom
/// tail byte a size-less LZMA1 decode would emit.
#[test]
fn raw_lzma1_round_trip_full_block() {
    let plain = sample();
    let comp = encode_raw_lzma1(&plain, 0x10000);

    let mut out = Vec::new();
    assert!(decompress_raw_lzma1(&comp, SQUASHFS_LZMA_PROPS, 0x10000, plain.len(), &mut out));
    assert_eq!(out, plain);
}

/// The leading-byte gate rejects a payload that is not a range-coded stream (first byte != 0x00)
/// instead of decoding it into garbage.
#[test]
fn raw_lzma1_rejects_non_range_coder_lead_byte() {
    let mut out = Vec::new();
    assert!(!decompress_raw_lzma1(
        &[0x01, 0x02, 0x03, 0x04],
        SQUASHFS_LZMA_PROPS,
        0x10000,
        8192,
        &mut out
    ));
    assert!(out.is_empty());
}

/// `decompress` dispatches both framings: lzma-alt (`[props][dict][stream]`) and headerless
/// (stream at byte 0), recovering the original bytes.
#[test]
fn decompress_dispatches_both_framings() {
    let plain = sample();
    let comp = encode_raw_lzma1(&plain, 0x10000);
    let comp_decoder = LzmaAdaptiveCompressor;

    // headerless: the range-coded stream directly.
    let mut out = Vec::with_capacity(plain.len() + 4096);
    comp_decoder.decompress(&comp, &mut out, None).unwrap();
    assert_eq!(out, plain, "headerless framing");

    // lzma-alt: props byte + 4-byte little-endian dict_size + stream.
    let mut alt = vec![SQUASHFS_LZMA_PROPS];
    alt.extend_from_slice(&0x10000u32.to_le_bytes());
    alt.extend_from_slice(&comp);
    let mut out = Vec::with_capacity(plain.len() + 4096);
    comp_decoder.decompress(&alt, &mut out, None).unwrap();
    assert_eq!(out, plain, "lzma-alt framing");
}

#[test]
fn alt_framing_behind_cruft_is_recovered() {
    let plain = sample();
    let mut block = vec![0xff, 0xff, 0xff, 0xff, SQUASHFS_LZMA_PROPS];
    block.extend_from_slice(&0x10000u32.to_le_bytes());
    block.extend_from_slice(&encode_raw_lzma1(&plain, 0x10000));
    let mut out = Vec::new();
    within(&block, &mut out, plain.len()).unwrap();
    assert_eq!(out, plain);
}

#[test]
fn standard_block_is_appended() {
    let mut out = b"so: ".to_vec();
    LzmaAdaptiveCompressor.decompress(&hello_alone(), &mut out, None).unwrap();
    assert_eq!(out, b"so: Hello, world!");
}

#[test]
fn standard_block_needs_no_capacity() {
    let mut out = Vec::new();
    within(&hello_alone(), &mut out, 0).unwrap();
    assert_eq!(out, b"Hello, world!");
}

#[test]
fn standard_block_with_a_size_stops_there() {
    let mut block = hello_alone();
    block[5..13].copy_from_slice(&5u64.to_le_bytes());
    let mut out = Vec::new();
    within(&block, &mut out, 0).unwrap();
    assert_eq!(out, b"Hello");
}

#[test]
fn standard_block_of_size_zero_keeps_earlier_output() {
    let mut block = hello_alone();
    block[5..13].copy_from_slice(&0u64.to_le_bytes());
    let mut out = b"kept".to_vec();
    within(&block, &mut out, 0).unwrap();
    assert_eq!(out, b"kept");
    let mut out = Vec::new();
    assert!(is_unsupported(within(&block, &mut out, 0)));
}

#[test]
fn truncated_standard_block_is_refused() {
    let block = hello_alone();
    let mut out = b"earlier".to_vec();
    assert!(is_unsupported(within(&block[..24], &mut out, 4096)));
    assert!(out.is_empty());
}

#[test]
fn standard_header_conditions() {
    // Each change alone turns the header away, and no other framing fits.
    for (at, value) in [(0usize, 225u8), (13, 1)] {
        let mut block = hello_alone();
        block[at] = value;
        let mut out = Vec::new();
        assert!(is_unsupported(within(&block, &mut out, 4096)), "byte {}", at);
    }
    let mut out = Vec::new();
    assert!(is_unsupported(within(&hello_alone()[..17], &mut out, 4096)));
}

#[test]
fn earlier_output_does_not_matter_to_raw_blocks() {
    let plain = sample();
    let comp = encode_raw_lzma1(&plain, 0x10000);
    let mut out = b"left over".to_vec();
    within(&comp, &mut out, plain.len()).unwrap();
    assert_eq!(out, plain);
}

#[test]
fn empty_block_leaves_output_alone() {
    let mut out = b"kept".to_vec();
    LzmaAdaptiveCompressor.decompress(&[], &mut out, None).unwrap();
    assert_eq!(out, b"kept");
}

#[test]
fn unframed_block_is_refused_and_output_cleared() {
    let mut out = b"gone".to_vec();
    assert!(is_unsupported(LzmaAdaptiveCompressor.decompress(&[1, 2, 3], &mut out, None)));
    assert!(out.is_empty());
}

#[test]
fn raw_block_without_room_is_refused() {
    let comp = encode_raw_lzma1(&sample(), 0x10000);
    let mut out = Vec::new();
    assert!(is_unsupported(within(&comp, &mut out, 0)));
    assert!(!decompress_raw_lzma1(&comp, SQUASHFS_LZMA_PROPS, 0x10000, 0, &mut out));
}

#[test]
fn raw_block_is_cut_at_the_cap() {
    let plain = sample();
    let comp = encode_raw_lzma1(&plain, 0x10000);
    let mut out = Vec::new();
    assert!(decompress_raw_lzma1(&comp, SQUASHFS_LZMA_PROPS, 0x10000, 100, &mut out));
    assert_eq!(out, plain[..100].to_vec());
}

#[test]
fn raw_block_stops_at_corrupt_data() {
    // After the range coder's start-up bytes, a match reaches back before the beginning.
    let block = [0u8, 0xff, 0xff, 0xff, 0xff, 0xff, 0xff, 0xff, 0xff, 0xff];
    let mut out = vec![7u8; 3];
    assert!(!decompress_raw_lzma1(&block, SQUASHFS_LZMA_PROPS, 0x10000, 64, &mut out));
    assert!(out.is_empty());
}

#[test]
fn unsupported_properties_leave_output_alone() {
    let comp = encode_raw_lzma1(&sample(), 0x10000);
    for props in [5u8, 4 * 9 + 1, 225, 255] {
        let mut out = vec![1u8, 2];
        assert!(!decompress_raw_lzma1(&comp, props, 0x10000, 64, &mut out), "props {}", props);
        assert_eq!(out, vec![1u8, 2]);
    }
}

#[test]
fn attempts_tell_why_nothing_came() {
    let plain = sample();
    let comp = encode_raw_lzma1(&plain, 0x10000);
    let mut out = vec![5u8];
    assert_eq!(attempt_raw_lzma1(&comp, 255, 0x10000, 64, &mut out), AttemptEnd::Nothing);
    assert_eq!(attempt_raw_lzma1(&[], 0x5d, 0x10000, 64, &mut out), AttemptEnd::Nothing);
    assert_eq!(attempt_raw_lzma1(&[1], 0x5d, 0x10000, 64, &mut out), AttemptEnd::Nothing);
    assert_eq!(out, vec![5u8]);
    // The range coder's start-up bytes alone decode to nothing.
    assert_eq!(attempt_raw_lzma1(&[0, 0, 0], 0x5d, 0x10000, 64, &mut out), AttemptEnd::Nothing);
    assert!(out.is_empty());
    assert_eq!(attempt_raw_lzma1(&comp, 0x5d, 0x10000, 64, &mut out), AttemptEnd::Decoded);
    assert_eq!(out, plain[..64].to_vec());
}

#[test]
fn decoder_refuses_unsupported_properties() {
    let refusal = |lc: u32, lp: u32, pb: u32| {
        match RawDecoder::new(&RawSetup { dict_size: 4096, lc, lp, pb }) {
            Ok(_) => None,
            Err(refusal) => Some(refusal),
        }
    };
    assert_eq!(refusal(4, 0, 4), None);
    assert_eq!(refusal(0, 4, 0), None);
    assert_eq!(refusal(4, 1, 0), Some(RawRefusal::Properties));
    assert_eq!(refusal(0, 0, 5), Some(RawRefusal::Properties));
}

#[test]
fn decoder_decodes_up_to_the_cap() {
    let plain = sample();
    let comp = encode_raw_lzma1(&plain, 0x10000);
    let setup = unpack_props(SQUASHFS_LZMA_PROPS, 0x10000);
    let mut out = vec![9u8; 10];
    assert!(RawDecoder::new(&setup).unwrap_or_else(|_| panic!("no decoder")).decode(
        &comp, 44, &mut out
    ));
    assert_eq!(out, b"squashfs v3 lzma round-trip sample payload. ".to_vec());
}

#[test]
fn properties_unpack() {
    let setup = unpack_props(0x5d, 7);
    assert_eq!((setup.dict_size, setup.lc, setup.lp, setup.pb), (7, 3, 0, 2));
    let setup = unpack_props((4 * 5 + 3) * 9 + 8, 0);
    assert_eq!((setup.dict_size, setup.lc, setup.lp, setup.pb), (0, 8, 3, 4));
    let setup = unpack_props(255, 1);
    assert_eq!((setup.dict_size, setup.lc, setup.lp, setup.pb), (1, 3, 3, 5));
}

#[test]
fn progress_tells_the_last_call() {
    let cases = [
        // total_in, total_out, failed, last
        (5u64, 9u64, false, false),
        (4, 10, false, false),
        (4, 9, false, true),
        (5, 20, false, true),
        (8, 9, false, true),
        (5, 9, true, true),
    ];
    for (total_in, total_out, failed, last) in cases {
        let mut progress = RawProgress { in_off: 4, out_off: 9 };
        assert_eq!(progress.advance(total_in, total_out, failed, 8, 20), last);
        assert_eq!(progress.in_off as u64, total_in);
        assert_eq!(progress.out_off as u64, total_out);
    }
}

#[test]
fn alt_headers_are_read_where_they_fit() {
    let bytes = [9u8, 1, 2, 3, 4, 5, 6, 7, 8];
    let framing = alt_framing(&bytes, 0).unwrap();
    assert_eq!((framing.props, framing.dict_size), (9, 0x0403_0201));
    assert_eq!(framing.payload, &[5u8, 6, 7, 8][..]);
    let framing = alt_framing(&bytes, 4).unwrap();
    assert_eq!((framing.props, framing.dict_size), (4, 0x0807_0605));
    assert!(framing.payload.is_empty());
    assert!(alt_framing(&bytes, 5).is_none());
    assert!(alt_framing(&bytes, usize::MAX).is_none());
    assert!(alt_framing(&[1, 2, 3, 4], 0).is_none());
}

#[test]
fn framings_are_tried_in_order() {
    let bytes = [9u8, 1, 2, 3, 4, 5, 6, 7, 8];
    let framings = raw_framings(&bytes, 4096);
    let found: Vec<(usize, u8, u32)> =
        framings.iter().map(|f| (f.payload.len(), f.props, f.dict_size)).collect();
    assert_eq!(
        found,
        vec![(4, 9, 0x0403_0201), (0, 4, 0x0807_0605), (9, SQUASHFS_LZMA_PROPS, 4096)]
    );
    assert_eq!(raw_framings(&bytes[..8], 1).len(), 2);
    assert_eq!(raw_framings(&bytes[..4], 1).len(), 1);
}

#[test]
fn outputs_are_kept_or_cleared() {
    for (end, held, kept) in [
        (ReadEnd::Done, 1usize, true),
        (ReadEnd::Done, 0, false),
        (ReadEnd::Failed, 1, false),
        (ReadEnd::OutOfMemory, 1, false),
    ] {
        let mut out = vec![3u8; held];
        assert_eq!(keep_standard(end, &mut out), kept);
        assert_eq!(out.len(), if kept { held } else { 0 });
    }
    let mut out = vec![1u8];
    assert!(keep_output(true, &mut out));
    assert_eq!(out, vec![1u8]);
    assert!(!keep_output(false, &mut out));
    assert!(out.is_empty());
}

#[test]
fn capacity_is_clamped() {
    assert_eq!(MAX_SQUASHFS_BLOCK, 1 << 20);
    assert_eq!(clamp_capacity(0), 0);
    assert_eq!(clamp_capacity(8192), 8192);
    assert_eq!(clamp_capacity(1 << 20), 1 << 20);
    assert_eq!(clamp_capacity(usize::MAX), 1 << 20);
}

#[test]
fn oversized_capacity_does_not_oversize_the_output() {
    // Two MiB of zeros compress to very little; only one block's worth comes back.
    let comp = encode_raw_lzma1(&vec![0u8; 2 << 20], 0x10000);
    let mut out = Vec::with_capacity(2 << 20);
    LzmaAdaptiveCompressor.decompress(&comp, &mut out, None).unwrap();
    assert_eq!(out, vec![0u8; 1 << 20]);
}

#[test]
fn zeros_decode_without_a_header() {
    let mut out = Vec::with_capacity(16);
    LzmaAdaptiveCompressor.decompress(&[0u8; 6], &mut out, None).unwrap();
    assert_eq!(out, vec![0u8]);
}

#[test]
fn header_behind_cruft_is_found() {
    let block = [0xffu8, 0xff, 0xff, 0xff, 0x5d, 0, 0, 1, 0, 0, 0, 0, 0, 0, 0];
    let mut out = Vec::with_capacity(16);
    LzmaAdaptiveCompressor.decompress(&block, &mut out, None).unwrap();
    assert_eq!(out, vec![0u8]);
}

#[test]
fn standard_block_is_not_cut_to_the_capacity() {
    let block = [0x5du8, 0, 0, 1, 0, 1, 0, 0, 0, 0, 0, 0, 0, 0, 0, 0, 0, 0, 0];
    let mut out = Vec::new();
    LzmaAdaptiveCompressor.decompress(&block, &mut out, None).unwrap();
    assert_eq!(out, vec![0u8]);
}

#[test]
fn capacity_and_not_length_is_the_room() {
    let plain = sample();
    let comp = encode_raw_lzma1(&plain, 0x10000);
    let mut out = Vec::with_capacity(plain.len());
    LzmaAdaptiveCompressor.decompress(&comp, &mut out, None).unwrap();
    assert_eq!(out, plain);
    let mut out = Vec::new();
    assert!(is_unsupported(LzmaAdaptiveCompressor.decompress(&comp, &mut out, None)));
}

#[test]
fn compressor_does_not_matter() {
    let plain = sample();
    let comp = encode_raw_lzma1(&plain, 0x10000);
    for compressor in [None, Some(Compressor::Lzma), Some(Compressor::Gzip), Some(Compressor::Zstd)]
    {
        let mut out = Vec::with_capacity(plain.len());
        LzmaAdaptiveCompressor.decompress(&comp, &mut out, compressor).unwrap();
        assert_eq!(out, plain);
    }
}

#[test]
fn raw_output_does_not_depend_on_earlier_output() {
    let comp = encode_raw_lzma1(&sample(), 0x10000);
    let mut outputs = Vec::new();
    for earlier in [0usize, 3, 10_000] {
        let mut out = vec![9u8; earlier];
        assert!(decompress_raw_lzma1(&comp, SQUASHFS_LZMA_PROPS, 0x10000, 500, &mut out));
        outputs.push(out);
    }
    assert_eq!(outputs[0], sample()[..500].to_vec());
    assert_eq!(outputs[0], outputs[1]);
    assert_eq!(outputs[0], outputs[2]);
}

#[test]
fn ineligible_blocks_are_refused_with_any_room() {
    let mut out = vec![4u8];
    assert!(!decompress_raw_lzma1(&[], SQUASHFS_LZMA_PROPS, 0x10000, usize::MAX, &mut out));
    assert!(!decompress_raw_lzma1(&[1], SQUASHFS_LZMA_PROPS, 0x10000, usize::MAX, &mut out));
    assert!(!decompress_raw_lzma1(&[0; 6], 255, 0x10000, usize::MAX, &mut out));
    assert_eq!(out, vec![4u8]);
}

#[test]
fn blocks_settle_by_how_the_attempts_came_out() {
    let decoded = AttemptEnd::Decoded;
    let nothing = AttemptEnd::Nothing;
    let starved = AttemptEnd::OutOfMemory;
    for (standard, raw, fits, report) in [
        (decoded, vec![], true, (false, vec![])),
        (nothing, vec![decoded], true, (false, vec![])),
        (starved, vec![nothing, starved, decoded], true, (true, vec![1usize])),
        (nothing, vec![nothing, nothing, nothing], false, (false, vec![])),
        (starved, vec![starved, nothing, starved], false, (true, vec![0, 2])),
        (nothing, vec![], false, (false, vec![])),
    ] {
        let mut out = vec![1u8, 2];
        let (result, met) = settle(standard, &raw, &mut out);
        assert_eq!((met.standard, met.raw), report);
        if fits {
            assert!(result.is_ok());
            assert_eq!(out, vec![1u8, 2]);
        } else {
            assert!(is_unsupported(result));
            assert!(out.is_empty());
        }
    }
}

/// Bytes without much structure, the same in every run.
fn noise(len: usize, seed: u32) -> Vec<u8> {
    let mut state = seed;
    (0..len)
        .map(|_| {
            state = state.wrapping_mul(1_664_525).wrapping_add(1_013_904_223);
            (state >> 24) as u8
        })
        .collect()
}

#[test]
fn smaller_ceiling_only_cuts_the_tail() {
    // More than the dictionary holds, with matches at every distance.
    let mut plain = noise(3000, 1);
    plain.extend_from_slice(&sample());
    plain.extend_from_slice(&noise(3000, 1));
    plain.extend_from_slice(&vec![7u8; 9000]);
    let comp = encode_raw_lzma1(&plain, 4096);
    for ceiling in [1usize, 2, 15, 16, 4095, 4096, 4097, 4672, 5000, 17_000, plain.len()] {
        let mut out = Vec::new();
        assert!(decompress_raw_lzma1(&comp, SQUASHFS_LZMA_PROPS, 4096, ceiling, &mut out));
        assert_eq!(out, plain[..ceiling].to_vec(), "ceiling {}", ceiling);
    }
}

#[test]
fn smaller_ceiling_only_cuts_the_tail_of_corrupt_streams() {
    for seed in 0..200u32 {
        let mut payload = noise(300, seed);
        payload[0] = 0;
        let mut whole = Vec::new();
        let done = decompress_raw_lzma1(&payload, SQUASHFS_LZMA_PROPS, 4096, 20_000, &mut whole);
        for ceiling in [1usize, 3, 40, 280, 1000, 19_999] {
            let mut out = Vec::new();
            let cut = decompress_raw_lzma1(&payload, SQUASHFS_LZMA_PROPS, 4096, ceiling, &mut out);
            assert_eq!(cut, done, "seed {} ceiling {}", seed, ceiling);
            assert_eq!(out, whole[..whole.len().min(ceiling)].to_vec());
        }
    }
}

#[test]
fn raw_output_stays_within_the_capacity() {
    let plain = sample();
    let comp = encode_raw_lzma1(&plain, 0x10000);
    let mut out = Vec::with_capacity(100);
    let capacity = out.capacity();
    LzmaAdaptiveCompressor.decompress(&comp, &mut out, None).unwrap();
    assert_eq!(out, plain[..capacity].to_vec());
}
