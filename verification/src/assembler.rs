//! Reassembly of frames from the byte stream that CAN payloads carry.

use vstd::prelude::*;

use crate::cobs;
use crate::wire;
use crate::wire::{Frame, FrameError, FrameView, MAX_ENCODED_LEN};

verus! {

/// What an assembler holds between payloads.
pub struct AssemblerView {
    /// Bytes since the last delimiter.
    pub encoded: Seq<u8>,
    /// Whether bytes are dropped until the next delimiter.
    pub discarding: bool,
}

impl AssemblerView {
    /// Between frames.
    pub open spec fn clean() -> AssemblerView {
        AssemblerView { encoded: Seq::empty(), discarding: false }
    }

    /// Holds no more than the longest frame, and no delimiter.
    pub open spec fn bounded(self) -> bool {
        self.encoded.len() <= MAX_ENCODED_LEN && cobs::zero_free(self.encoded) && (self.discarding
            ==> self.encoded.len() == 0)
    }

    /// The state after one more byte.
    pub open spec fn after(self, byte: u8) -> AssemblerView {
        if byte == 0 {
            AssemblerView::clean()
        } else if self.discarding {
            self
        } else if self.encoded.len() == MAX_ENCODED_LEN {
            AssemblerView { encoded: Seq::empty(), discarding: true }
        } else {
            AssemblerView { encoded: self.encoded.push(byte), discarding: false }
        }
    }

    /// What one more byte completes: a frame at a delimiter, an error where a
    /// frame outgrows the bound.
    pub open spec fn completed(self, byte: u8) -> Seq<Result<FrameView, FrameError>> {
        if self.discarding {
            Seq::empty()
        } else if byte == 0 && self.encoded.len() > 0 {
            seq![wire::decoded(self.encoded)]
        } else if byte != 0 && self.encoded.len() == MAX_ENCODED_LEN {
            seq![Err(FrameError::EncodedTooLong { maximum: MAX_ENCODED_LEN })]
        } else {
            Seq::empty()
        }
    }

    /// The state after `bytes`.
    pub open spec fn after_all(self, bytes: Seq<u8>) -> AssemblerView
        decreases bytes.len(),
    {
        if bytes.len() == 0 {
            self
        } else {
            self.after_all(bytes.drop_last()).after(bytes.last())
        }
    }

    /// Everything that `bytes` complete, in order.
    pub open spec fn results(self, bytes: Seq<u8>) -> Seq<Result<FrameView, FrameError>>
        decreases bytes.len(),
    {
        if bytes.len() == 0 {
            Seq::empty()
        } else {
            self.results(bytes.drop_last()) + self.after_all(bytes.drop_last()).completed(
                bytes.last(),
            )
        }
    }
}

/// Results with each frame taken by its view.
pub open spec fn outcomes(results: Seq<Result<Frame, FrameError>>) -> Seq<
    Result<FrameView, FrameError>,
> {
    Seq::new(results.len(), |i: int| wire::outcome(results[i]))
}

#[derive(Debug)]
pub struct FrameAssembler {
    encoded: Vec<u8>,
    discarding: bool,
}

impl View for FrameAssembler {
    type V = AssemblerView;

    closed spec fn view(&self) -> AssemblerView {
        AssemblerView { encoded: self.encoded@, discarding: self.discarding }
    }
}

impl Default for FrameAssembler {
    fn default() -> (assembler: FrameAssembler)
        ensures
            assembler@ == AssemblerView::clean(),
    {
        FrameAssembler::new()
    }
}

impl FrameAssembler {
    pub fn new() -> (assembler: FrameAssembler)
        ensures
            assembler@ == AssemblerView::clean(),
    {
        FrameAssembler { encoded: Vec::with_capacity(MAX_ENCODED_LEN), discarding: false }
    }

    /// Consume all bytes, preserving frames after a delimiter in the same CAN
    /// payload.
    pub fn feed(&mut self, bytes: &[u8]) -> (results: Vec<Result<Frame, FrameError>>)
        ensures
            final(self)@ == old(self)@.after_all(bytes@),
            outcomes(results@) == old(self)@.results(bytes@),
    {
        let mut results: Vec<Result<Frame, FrameError>> = Vec::new();
        let ghost start = self@;
        assert(outcomes(results@) =~= start.results(bytes@.take(0)));
        for next in 0..bytes.len()
            invariant
                self@ == start.after_all(bytes@.take(next as int)),
                outcomes(results@) == start.results(bytes@.take(next as int)),
        {
            let byte = bytes[next];
            let ghost here = self@;
            let ghost earlier = results@;
            assert(bytes@.take(next + 1).drop_last() =~= bytes@.take(next as int));
            if byte == 0 {
                if !self.discarding && self.encoded.len() > 0 {
                    results.push(Frame::decode(self.encoded.as_slice()));
                }
                self.discarding = false;
                self.encoded.clear();
            } else if self.discarding {
            } else if self.encoded.len() == MAX_ENCODED_LEN {
                self.encoded.clear();
                self.discarding = true;
                results.push(Err(FrameError::EncodedTooLong { maximum: MAX_ENCODED_LEN }));
            } else {
                self.encoded.push(byte);
            }
            assert(self@ =~= here.after(byte));
            assert(outcomes(results@) =~= outcomes(earlier) + here.completed(byte));
        }
        assert(bytes@.take(bytes@.len() as int) =~= bytes@);
        results
    }

    /// Forget any partial frame.
    pub fn reset(&mut self)
        ensures
            final(self)@ == AssemblerView::clean(),
    {
        self.encoded.clear();
        self.discarding = false;
    }
}

/// How the stream is cut into payloads changes nothing.
pub proof fn feeding_is_incremental(state: AssemblerView, first: Seq<u8>, second: Seq<u8>)
    ensures
        state.after_all(first + second) == state.after_all(first).after_all(second),
        state.results(first + second) == state.results(first) + state.after_all(first).results(
            second,
        ),
    decreases second.len(),
{
    let whole = first + second;
    if second.len() == 0 {
        assert(whole =~= first);
        assert(state.results(first) + Seq::empty() =~= state.results(first));
    } else {
        feeding_is_incremental(state, first, second.drop_last());
        assert(whole.drop_last() =~= first + second.drop_last());
        assert(state.results(whole) =~= state.results(first) + state.after_all(first).results(
            second,
        ));
    }
}

/// Memory stays within one frame, whatever the stream holds.
pub proof fn assembler_stays_bounded(state: AssemblerView, bytes: Seq<u8>)
    requires
        state.bounded(),
    ensures
        state.after_all(bytes).bounded(),
    decreases bytes.len(),
{
    if bytes.len() > 0 {
        assembler_stays_bounded(state, bytes.drop_last());
    }
}

/// A delimiter ends whatever came before it: the next byte starts a frame.
pub proof fn delimiter_resynchronizes(state: AssemblerView, bytes: Seq<u8>)
    ensures
        state.after_all(bytes.push(0)) == AssemblerView::clean(),
{
    assert(bytes.push(0).drop_last() =~= bytes);
}

/// Bytes of an unfinished frame accumulate and complete nothing.
pub proof fn lemma_accumulates(bytes: Seq<u8>)
    requires
        cobs::zero_free(bytes),
        bytes.len() <= MAX_ENCODED_LEN,
    ensures
        AssemblerView::clean().after_all(bytes) == (AssemblerView {
            encoded: bytes,
            discarding: false,
        }),
        AssemblerView::clean().results(bytes) == Seq::<Result<FrameView, FrameError>>::empty(),
    decreases bytes.len(),
{
    if bytes.len() == 0 {
        assert(bytes =~= Seq::empty());
    } else {
        lemma_accumulates(bytes.drop_last());
        assert(bytes.drop_last().push(bytes.last()) =~= bytes);
        assert(AssemblerView::clean().results(bytes) =~= Seq::empty());
    }
}

/// One encoded frame comes out as that frame.
pub proof fn frame_is_reassembled(frame: FrameView)
    requires
        frame.sound(),
    ensures
        AssemblerView::clean().after_all(frame.encoded()) == AssemblerView::clean(),
        AssemblerView::clean().results(frame.encoded()) == seq![
            Ok::<FrameView, FrameError>(frame),
        ],
{
    let stuffed = frame.encoded().drop_last();
    wire::encoded_frames_are_delimited(frame);
    wire::frame_round_trip(frame);
    lemma_accumulates(stuffed);
    delimiter_resynchronizes(AssemblerView::clean(), stuffed);
    assert(stuffed.push(0) =~= frame.encoded());
    assert(AssemblerView::clean().results(frame.encoded()) =~= seq![
        Ok::<FrameView, FrameError>(frame),
    ]);
}

/// The wire bytes of `frames`, one after the other.
pub open spec fn stream(frames: Seq<FrameView>) -> Seq<u8>
    decreases frames.len(),
{
    if frames.len() == 0 {
        Seq::empty()
    } else {
        stream(frames.drop_last()) + frames.last().encoded()
    }
}

/// Whatever an assembler has seen, after the next delimiter every frame of the
/// stream comes out, in order and unchanged.
pub proof fn stream_is_reassembled(state: AssemblerView, noise: Seq<u8>, frames: Seq<FrameView>)
    requires
        forall|i: int| 0 <= i < frames.len() ==> (#[trigger] frames[i]).sound(),
    ensures
        state.after_all(noise.push(0) + stream(frames)) == AssemblerView::clean(),
        state.results(noise.push(0) + stream(frames)) == state.results(noise.push(0))
            + frames.map_values(|frame: FrameView| Ok::<FrameView, FrameError>(frame)),
    decreases frames.len(),
{
    let start = noise.push(0);
    let accepted = frames.map_values(|frame: FrameView| Ok::<FrameView, FrameError>(frame));
    if frames.len() == 0 {
        delimiter_resynchronizes(state, noise);
        assert(start + stream(frames) =~= start);
        assert(state.results(start) + accepted =~= state.results(start));
    } else {
        let fewer = frames.drop_last();
        stream_is_reassembled(state, noise, fewer);
        frame_is_reassembled(frames.last());
        feeding_is_incremental(state, start + stream(fewer), frames.last().encoded());
        assert(start + stream(frames) =~= start + stream(fewer) + frames.last().encoded());
        assert(fewer.map_values(|frame: FrameView| Ok::<FrameView, FrameError>(frame))
            =~= accepted.drop_last());
        assert(state.results(start + stream(frames)) =~= state.results(start) + accepted);
    }
}

/// What stands between two delimiters is decoded as one frame at the second, where
/// it is not longer than the longest frame; nothing between them is no frame.
pub proof fn each_delimiter_ends_one_frame(content: Seq<u8>)
    requires
        cobs::zero_free(content),
        content.len() <= 264,
    ensures
        AssemblerView::clean().after_all(content.push(0)) == AssemblerView::clean(),
        content.len() == 0 ==> AssemblerView::clean().results(content.push(0)).len() == 0,
        content.len() > 0 ==> AssemblerView::clean().results(content.push(0)) == seq![
            wire::decoded(content),
        ],
{
    lemma_accumulates(content);
    delimiter_resynchronizes(AssemblerView::clean(), content);
    assert(content.push(0).drop_last() =~= content);
    assert(AssemblerView::clean().results(content.push(0)) =~= AssemblerView::clean().results(
        content,
    ) + (AssemblerView { encoded: content, discarding: false }).completed(0));
    if content.len() > 0 {
        assert(AssemblerView::clean().results(content.push(0)) =~= seq![wire::decoded(content)]);
    }
}

/// Content that is longer than the longest frame gives one error, at the byte that
/// is too many, and nothing more up to the delimiter, which ends it.
pub proof fn overlong_content_is_reported_once(content: Seq<u8>)
    requires
        cobs::zero_free(content),
        content.len() > 264,
    ensures
        AssemblerView::clean().results(content.take(264)).len() == 0,
        AssemblerView::clean().results(content.push(0)) == seq![
            Err::<FrameView, FrameError>(FrameError::EncodedTooLong { maximum: 264 }),
        ],
        AssemblerView::clean().results(content) == AssemblerView::clean().results(
            content.push(0),
        ),
        AssemblerView::clean().after_all(content.push(0)) == AssemblerView::clean(),
{
    let head = content.take(264);
    lemma_accumulates(head);
    lemma_overlong(content);
    delimiter_resynchronizes(AssemblerView::clean(), content);
    assert(content.push(0).drop_last() =~= content);
    assert(AssemblerView::clean().results(content.push(0)) =~= AssemblerView::clean().results(
        content,
    ));
}

proof fn lemma_overlong(content: Seq<u8>)
    requires
        cobs::zero_free(content),
        content.len() > 264,
    ensures
        AssemblerView::clean().results(content) == seq![
            Err::<FrameView, FrameError>(FrameError::EncodedTooLong { maximum: 264 }),
        ],
        AssemblerView::clean().after_all(content) == (AssemblerView {
            encoded: Seq::empty(),
            discarding: true,
        }),
    decreases content.len(),
{
    let fewer = content.drop_last();
    let error = seq![
        Err::<FrameView, FrameError>(FrameError::EncodedTooLong { maximum: 264 }),
    ];
    if fewer.len() > 264 {
        lemma_overlong(fewer);
        assert(AssemblerView::clean().results(content) =~= error);
    } else {
        lemma_accumulates(fewer);
        assert(AssemblerView::clean().results(content) =~= error);
    }
}

/// Results are seen one by one, in order, as what they are.
pub proof fn results_are_seen_in_order(results: Seq<Result<Frame, FrameError>>, index: int)
    requires
        0 <= index < results.len(),
    ensures
        outcomes(results).len() == results.len(),
        match results[index] {
            Ok(frame) => outcomes(results)[index] is Ok && outcomes(results)[index]->Ok_0 == frame@,
            Err(error) => outcomes(results)[index] is Err && outcomes(results)[index]->Err_0
                == error,
        },
{
}

} // verus!
