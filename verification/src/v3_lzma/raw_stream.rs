//! The streaming LZMA1 decoder of `liblzma`, seen through a log of the calls made to it.

use liblzma::stream::{Action, Error, Filters, LzmaOptions, Stream};
use vstd::prelude::*;
use vstd::slice::slice_subrange;

verus! {

/// A decoding or encoding stream of `liblzma`.
#[verifier::external_type_specification]
#[verifier::external_body]
pub struct ExStream(liblzma::stream::Stream);

/// What a raw LZMA1 decoder is set up with.
pub struct RawSetup {
    /// Dictionary size in bytes.
    pub dict_size: u32,
    /// Literal context bits.
    pub lc: u32,
    /// Literal position bits.
    pub lp: u32,
    /// Position bits.
    pub pb: u32,
}

/// Why no raw decoder could be had.
#[derive(Debug, Clone, Copy, PartialEq, Eq, Structural)]
pub enum RawRefusal {
    /// The properties are outside of what the decoder supports.
    Properties,
    /// Memory could not be allocated.
    Memory,
}

/// The dictionary size and the `lc`, `lp` and `pb` that the decoder `stream` was set up with.
pub uninterp spec fn stream_setup(stream: Stream) -> RawSetup;

/// The calls made to `stream` so far: of each, the input it was offered and the room it was given.
pub uninterp spec fn stream_calls(stream: Stream) -> Seq<(Seq<u8>, nat)>;

/// What a decoder that was set up with `dict_size`, `lc`, `lp` and `pb` and has answered `calls`
/// does when it is offered `input` and `room` bytes to write to: how many input bytes it takes,
/// which bytes it writes, and whether it reports no error.
pub uninterp spec fn raw_step(
    dict_size: u32,
    lc: u32,
    lp: u32,
    pb: u32,
    calls: Seq<(Seq<u8>, nat)>,
    input: Seq<u8>,
    room: nat,
) -> (nat, Seq<u8>, bool);

/// The first `len` bytes of `bytes`, or all of them if there are no more.
pub open spec fn clip(bytes: Seq<u8>, len: nat) -> Seq<u8> {
    if bytes.len() <= len {
        bytes
    } else {
        bytes.take(len as int)
    }
}

impl RawSetup {
    /// The properties that `liblzma` decodes: it supports `lc + lp` up to 4 and `pb` up to 4.
    pub open spec fn supported(self) -> bool {
        self.lc + self.lp <= 4 && self.pb <= 4
    }

    /// The next step of a decoder with this setup, after `calls`.
    pub open spec fn step(self, calls: Seq<(Seq<u8>, nat)>, input: Seq<u8>, room: nat) -> (
        nat,
        Seq<u8>,
        bool,
    ) {
        raw_step(self.dict_size, self.lc, self.lp, self.pb, calls, input, room)
    }

    /// How many input bytes a decoder with this setup has taken over all of `calls`.
    pub open spec fn taken(self, calls: Seq<(Seq<u8>, nat)>) -> nat
        decreases calls.len(),
    {
        if calls.len() == 0 {
            0
        } else {
            self.taken(calls.drop_last()) + self.step(
                calls.drop_last(),
                calls.last().0,
                calls.last().1,
            ).0
        }
    }

    /// The bytes that a decoder with this setup has written over all of `calls`.
    pub open spec fn written(self, calls: Seq<(Seq<u8>, nat)>) -> Seq<u8>
        decreases calls.len(),
    {
        if calls.len() == 0 {
            Seq::empty()
        } else {
            self.written(calls.drop_last()) + self.step(
                calls.drop_last(),
                calls.last().0,
                calls.last().1,
            ).1
        }
    }

    /// Whether `input` is the rest of what the last of `calls` was offered, where that call left
    /// room in its output.
    pub open spec fn drained(self, calls: Seq<(Seq<u8>, nat)>, input: Seq<u8>) -> bool {
        let last = calls.last();
        let step = self.step(calls.drop_last(), last.0, last.1);
        &&& calls.len() > 0
        &&& step.1.len() < last.1
        &&& input == last.0.skip(step.0 as int)
    }

    /// What a decoder with this setup makes of `payload` when it is called over and over, after
    /// `calls`, with the input it has not taken yet and the room left up to `max_out` bytes. The
    /// calls end when the output is full, the input is used up, a call does nothing, or a call
    /// reports an error; the bytes written up to then are the outcome in each case.
    pub open spec fn decoded_after(
        self,
        payload: Seq<u8>,
        max_out: nat,
        calls: Seq<(Seq<u8>, nat)>,
    ) -> Seq<u8>
        decreases payload.len() - self.taken(calls) + max_out - self.written(calls).len(),
    {
        proof {
            self.lemma_one_more_call(
                calls,
                payload.skip(self.taken(calls) as int),
                (max_out - self.written(calls).len()) as nat,
            );
        }
        let input = payload.skip(self.taken(calls) as int);
        let room = (max_out - self.written(calls).len()) as nat;
        let next = calls.push((input, room));
        if self.written(next).len() >= max_out || self.taken(next) >= payload.len() || (self.taken(
            next,
        ) == self.taken(calls) && self.written(next) == self.written(calls)) || !self.step(
            calls,
            input,
            room,
        ).2 {
            self.written(next)
        } else {
            self.decoded_after(payload, max_out, next)
        }
    }

    /// The bytes that a fresh decoder with this setup makes of `payload`, up to `max_out` of them.
    pub open spec fn decoded(self, payload: Seq<u8>, max_out: nat) -> Seq<u8> {
        self.decoded_after(payload, max_out, Seq::empty())
    }

    /// What the first call to a decoder with this setup writes, if it is offered all of `payload`
    /// and room for `room` bytes.
    pub open spec fn first_call(self, payload: Seq<u8>, room: nat) -> Seq<u8> {
        self.step(Seq::empty(), payload, room).1
    }

    /// Whether a first call with any more room than `room` writes the same bytes up to there.
    pub open spec fn room_cuts(self, payload: Seq<u8>, room: nat) -> bool {
        forall|more: nat|
            room <= more <= isize::MAX ==> self.first_call(payload, room) == clip(
                #[trigger] self.first_call(payload, more),
                room,
            )
    }

    /// Whether `max_out` does no more than cut the output short: the first call writes all there
    /// is, and with more room it would write the same bytes up to `max_out`.
    pub open spec fn ceiling_cuts(self, payload: Seq<u8>, max_out: nat) -> bool {
        &&& self.decoded(payload, max_out) == self.first_call(payload, max_out)
        &&& self.room_cuts(payload, max_out)
    }

    /// One more call adds what that call takes and writes to the totals.
    pub proof fn lemma_one_more_call(self, calls: Seq<(Seq<u8>, nat)>, input: Seq<u8>, room: nat)
        ensures
            self.taken(calls.push((input, room))) == self.taken(calls) + self.step(
                calls,
                input,
                room,
            ).0,
            self.written(calls.push((input, room))) == self.written(calls) + self.step(
                calls,
                input,
                room,
            ).1,
    {
        assert(calls.push((input, room)).drop_last() == calls);
    }
}

/// `liblzma::stream::Stream::new_raw_decoder` on a filter chain of one LZMA1 filter: a decoder
/// comes back only if the properties are supported, with the setup it was asked for and no call
/// made to it yet. With supported properties the one thing that can be refused is memory.
#[verifier::external_body]
pub(crate) fn new_raw_decoder(setup: &RawSetup) -> (r: Result<Stream, RawRefusal>)
    ensures
        match r {
            Ok(stream) => {
                &&& setup.supported()
                &&& stream_setup(stream) == *setup
                &&& stream_calls(stream) == Seq::<(Seq<u8>, nat)>::empty()
            },
            Err(RawRefusal::Properties) => !setup.supported(),
            Err(RawRefusal::Memory) => true,
        },
{
    let mut options = LzmaOptions::new();
    options.dict_size(setup.dict_size).literal_context_bits(setup.lc);
    options.literal_position_bits(setup.lp).position_bits(setup.pb);
    let mut filters = Filters::new();
    filters.lzma1(&options);
    match Stream::new_raw_decoder(&filters) {
        Ok(stream) => Ok(stream),
        Err(Error::Mem) => Err(RawRefusal::Memory),
        Err(_) => Err(RawRefusal::Properties),
    }
}

/// `liblzma::stream::Stream::process` with `Action::Run`: the call is added to the log, the
/// decoder takes no more than the input it was offered and writes no more than it has room for,
/// and what it writes stands at the start of `output`. What `output` holds behind that is left
/// unsaid. With more room the decoder would write the same bytes and go on behind them, since the
/// room decides only where it stops. A call that leaves room has stopped for want of input, at the
/// end of the stream or at an error, so that the rest of its input yields nothing further.
#[verifier::external_body]
pub(crate) fn process(stream: &mut Stream, input: &[u8], output: &mut [u8]) -> (ok: bool)
    requires
        stream_setup(*old(stream)).taken(stream_calls(*old(stream))) + input@.len() <= u64::MAX,
        stream_setup(*old(stream)).written(stream_calls(*old(stream))).len() + old(output)@.len()
            <= u64::MAX,
    ensures
        stream_setup(*final(stream)) == stream_setup(*old(stream)),
        stream_calls(*final(stream)) == stream_calls(*old(stream)).push(
            (input@, old(output)@.len()),
        ),
        final(output)@.len() == old(output)@.len(),
        ok == raw_step(
            stream_setup(*old(stream)).dict_size,
            stream_setup(*old(stream)).lc,
            stream_setup(*old(stream)).lp,
            stream_setup(*old(stream)).pb,
            stream_calls(*old(stream)),
            input@,
            old(output)@.len(),
        ).2,
        stream_setup(*final(stream)).taken(stream_calls(*final(stream))) <= stream_setup(
            *old(stream),
        ).taken(stream_calls(*old(stream))) + input@.len(),
        stream_setup(*old(stream)).step(
            stream_calls(*old(stream)),
            input@,
            old(output)@.len(),
        ).1.is_prefix_of(final(output)@),
        forall|more: nat|
            old(output)@.len() <= more <= isize::MAX ==> stream_setup(*final(stream)).written(
                stream_calls(*final(stream)),
            ) == stream_setup(*old(stream)).written(stream_calls(*old(stream))) + clip(
                (#[trigger] stream_setup(*old(stream)).step(
                    stream_calls(*old(stream)),
                    input@,
                    more,
                )).1,
                old(output)@.len(),
            ),
        stream_setup(*old(stream)).drained(stream_calls(*old(stream)), input@) ==> stream_setup(
            *final(stream),
        ).written(stream_calls(*final(stream))) == stream_setup(*old(stream)).written(
            stream_calls(*old(stream)),
        ),
{
    stream.process(input, output, Action::Run).is_ok()
}

/// `liblzma::stream::Stream::total_in`: the input bytes taken since the decoder was made.
#[verifier::external_body]
pub(crate) fn total_in(stream: &Stream) -> (n: u64)
    ensures
        n == stream_setup(*stream).taken(stream_calls(*stream)),
{
    stream.total_in()
}

/// `liblzma::stream::Stream::total_out`: the bytes written since the decoder was made.
#[verifier::external_body]
pub(crate) fn total_out(stream: &Stream) -> (n: u64)
    ensures
        n == stream_setup(*stream).written(stream_calls(*stream)).len(),
{
    stream.total_out()
}

/// How far a run of decoder calls has come: the input taken and the output written.
pub struct RawProgress {
    pub in_off: usize,
    pub out_off: usize,
}

impl RawProgress {
    /// Takes over the totals that the decoder reports after a call and tells whether that call was
    /// the last: the output is full, the input is used up, nothing was done, or the call failed.
    pub fn advance(
        &mut self,
        total_in: u64,
        total_out: u64,
        failed: bool,
        input_len: usize,
        max_out: usize,
    ) -> (last: bool)
        requires
            total_in <= usize::MAX,
            total_out <= usize::MAX,
        ensures
            final(self).in_off == total_in,
            final(self).out_off == total_out,
            last == (total_out >= max_out || total_in >= input_len || (total_in <= old(self).in_off
                && total_out <= old(self).out_off) || failed),
    {
        let new_in = total_in as usize;
        let new_out = total_out as usize;
        let progressed = new_in > self.in_off || new_out > self.out_off;
        self.in_off = new_in;
        self.out_off = new_out;
        self.out_off >= max_out || self.in_off >= input_len || !progressed || failed
    }
}

/// A raw LZMA1 decoder that has not been called yet.
pub struct RawDecoder {
    stream: Stream,
}

impl RawDecoder {
    /// What the decoder was set up with.
    pub closed spec fn setup(self) -> RawSetup {
        stream_setup(self.stream)
    }

    /// Whether want of memory is an answer that asking for a decoder with `setup` can be given.
    pub closed spec fn memory_refused(setup: RawSetup) -> bool {
        call_ensures(new_raw_decoder, (&setup,), Err(RawRefusal::Memory))
    }

    #[verifier::type_invariant]
    spec fn fresh(self) -> bool {
        &&& stream_calls(self.stream).len() == 0
        &&& stream_setup(self.stream).supported()
    }

    /// Sets a decoder up. Properties that are not supported are refused; with any others the one
    /// thing that can be refused is memory.
    pub fn new(setup: &RawSetup) -> (decoder: Result<RawDecoder, RawRefusal>)
        ensures
            match decoder {
                Ok(decoder) => setup.supported() && decoder.setup() == *setup,
                Err(RawRefusal::Properties) => !setup.supported(),
                Err(RawRefusal::Memory) => RawDecoder::memory_refused(*setup),
            },
    {
        match new_raw_decoder(setup) {
            Ok(stream) => Ok(RawDecoder { stream }),
            Err(refusal) => Err(refusal),
        }
    }

    /// Decodes `payload` into a buffer capped at `max_out` bytes, and tells whether that gave any.
    ///
    /// The decoder stops when the input is exhausted (a short block, at its true length) or the
    /// output is full (a full block, at exactly `max_out`, without the phantom byte that a decoder
    /// without a size would otherwise emit past the genuine end).
    pub fn decode(self, payload: &[u8], max_out: usize, out: &mut Vec<u8>) -> (done: bool)
        requires
            0 < max_out <= isize::MAX,
        ensures
            final(out)@ == self.setup().decoded(payload@, max_out as nat),
            self.setup().ceiling_cuts(payload@, max_out as nat),
            final(out)@.len() <= max_out,
            done == (final(out)@.len() > 0),
    {
        proof {
            use_type_invariant(&self);
        }
        let mut stream = self.stream;
        let ghost setup = stream_setup(stream);
        let ghost decoded = setup.decoded(payload@, max_out as nat);
        out.resize(max_out, 0);
        let mut progress = RawProgress { in_off: 0, out_off: 0 };
        proof {
            assert(stream_calls(stream) == Seq::<(Seq<u8>, nat)>::empty());
            assert(out@.take(0) == setup.written(stream_calls(stream)));
        }
        loop
            invariant_except_break
                decoded == setup.decoded_after(payload@, max_out as nat, stream_calls(stream)),
                stream_calls(stream).len() > 0 ==> setup.drained(
                    stream_calls(stream),
                    payload@.skip(progress.in_off as int),
                ),
                progress.out_off < max_out,
            invariant
                max_out <= isize::MAX,
                setup == stream_setup(stream),
                out@.len() == max_out,
                progress.in_off == setup.taken(stream_calls(stream)),
                progress.in_off <= payload.len(),
                progress.out_off <= max_out,
                out@.take(progress.out_off as int) == setup.written(stream_calls(stream)),
                stream_calls(stream).len() > 0 ==> {
                    &&& setup.written(stream_calls(stream)) == setup.first_call(
                        payload@,
                        max_out as nat,
                    )
                    &&& setup.room_cuts(payload@, max_out as nat)
                },
            ensures
                decoded == setup.written(stream_calls(stream)),
                stream_calls(stream).len() > 0,
            decreases payload.len() - progress.in_off + max_out - progress.out_off,
        {
            let ghost calls = stream_calls(stream);
            let ghost input = payload@.skip(progress.in_off as int);
            let ghost room = (max_out - progress.out_off) as nat;
            proof {
                setup.lemma_one_more_call(calls, input, room);
            }
            let rest = slice_subrange(payload, progress.in_off, payload.len());
            let (_, free) = out.as_mut_slice().split_at_mut(progress.out_off);
            let fine = process(&mut stream, rest, free);
            proof {
                assert(rest@ == input);
                let next = stream_calls(stream);
                assert(out@.take(setup.written(next).len() as int) == setup.written(next));
                assert(next.drop_last() == calls);
                if calls.len() == 0 {
                    assert(calls == Seq::<(Seq<u8>, nat)>::empty());
                    assert(input == payload@);
                    assert forall|more: nat| max_out <= more <= isize::MAX implies setup.first_call(
                        payload@,
                        max_out as nat,
                    ) == clip(#[trigger] setup.first_call(payload@, more), max_out as nat) by {
                        let wider = setup.step(calls, input, more);
                    }
                }
                assert(input.skip(setup.step(calls, input, room).0 as int) == payload@.skip(
                    setup.taken(next) as int,
                ));
            }
            let last = progress.advance(
                total_in(&stream),
                total_out(&stream),
                !fine,
                payload.len(),
                max_out,
            );
            if last {
                break;
            }
        }
        out.truncate(progress.out_off);
        !out.is_empty()
    }
}

/// Memory counts as refused only where that is what asking `liblzma` for a decoder with the very
/// same setup can be answered.
pub(crate) proof fn law_refusal_is_an_answer(setup: RawSetup)
    requires
        RawDecoder::memory_refused(setup),
    ensures
        call_ensures(new_raw_decoder, (&setup,), Err::<Stream, RawRefusal>(RawRefusal::Memory)),
{
}

} // verus!
