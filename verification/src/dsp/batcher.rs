//! The frame batcher: a stream cut into overlapping frames, each padded at
//! the ends of the stream, split by channel and weighed by the window.
//!
//! The batcher does not read the stream itself. For each frame it says which
//! frames of the stream it needs ([`TimeWindowBatcher::next_read`]) and builds
//! the frame from what was read ([`TimeWindowBatcher::get_next_batch`]).

use crate::dsp::data::DspErr;
use crate::dsp::time_window::{
    windowed, zero_channels, SidePadding, SidePaddingType, SidePaddingView, Window,
    LOOP_DATA_ERROR, WINDOW_ERROR,
};
use crate::utils::{lemma_interleaved_index, UNIT};
use vstd::prelude::*;

verus! {

/// The message of the error for an overlap outside of the open interval
/// between zero and one whole.
pub const OVERLAP_ERROR: &'static str = "Overlap values should be contained within ]0:1[";

/// The message of the error for a window so short that the frames would not
/// advance.
pub const HOP_ERROR: &'static str = "The window is too short for this overlap";

/// The message of the error for samples that are not the frames asked for.
pub const READ_ERROR: &'static str = "The samples read are not the frames asked for";

/// The advance between two frames: the part of `window_size` that `overlap`
/// (in parts per billion) leaves, rounded down.
pub open spec fn hop_of(window_size: int, overlap: int) -> int {
    (window_size * (UNIT - overlap)) / (UNIT as int)
}

/// The number of frames that cover `frames` samples with an advance of
/// `hop`: their quotient, rounded up.
pub open spec fn band_count(frames: int, hop: int) -> int {
    if frames % hop == 0 {
        frames / hop
    } else {
        frames / hop + 1
    }
}

/// The margin of a frame: the number of samples of the first frame that lie
/// before the stream.
pub open spec fn side_offset(window_size: int, hop: int) -> int {
    (window_size - hop) / 2
}

/// The room kept for the samples before the stream: what a frame shares
/// with the one before it.
pub open spec fn left_capacity(window_size: int, hop: int) -> int {
    window_size - hop
}

/// The first real sample of a channel among the samples read for a frame;
/// zero where none was read.
pub open spec fn next_real_sample(interleaved: Seq<i32>, channel: int) -> int {
    if interleaved.len() > 0 {
        interleaved[channel] as int
    } else {
        0
    }
}

/// The last real sample of a channel among the samples read for a frame;
/// zero where none was read.
pub open spec fn prev_real_sample(interleaved: Seq<i32>, channels: int, channel: int) -> int {
    if interleaved.len() > 0 {
        interleaved[interleaved.len() - channels + channel] as int
    } else {
        0
    }
}

/// Sample `p` of channel `channel` of a frame of `size` samples, before the
/// window is applied. The frame holds `left` samples from before the stream,
/// then the samples read from it, up to position `right`, then samples from
/// after the stream.
pub open spec fn unweighed_sample(
    padding: SidePaddingView,
    interleaved: Seq<i32>,
    left: int,
    right: int,
    size: int,
    channel: int,
    p: int,
) -> int {
    if p < left {
        padding.left_sample(channel, left, next_real_sample(interleaved, channel), p)
    } else if p < right {
        interleaved[(p - left) * padding.channels() + channel] as int
    } else {
        padding.right_sample(
            channel,
            size - right,
            prev_real_sample(interleaved, padding.channels(), channel),
            p - right,
        )
    }
}

/// The advance between two frames of `window_size` samples that overlap by
/// `overlap` parts per billion. An overlap of zero or less, or of one whole
/// or more, is refused.
pub fn hop_size(window_size: usize, overlap: i64) -> (result: Result<usize, DspErr>)
    ensures
        result is Err <==> overlap <= 0 || overlap >= UNIT,
        result matches Err(err) ==> err@ == OVERLAP_ERROR@,
        result matches Ok(hop) ==> hop == hop_of(window_size as int, overlap as int) && hop
            <= window_size,
{
    if overlap <= 0 || overlap >= UNIT as i64 {
        return Err(DspErr::new(OVERLAP_ERROR));
    }
    let kept: u128 = (UNIT as i64 - overlap) as u128;
    proof {
        assert(0 <= window_size * kept <= window_size * UNIT) by (nonlinear_arith)
            requires
                0 <= kept <= UNIT,
                0 <= window_size,
        ;
        assert((window_size * kept) / (UNIT as int) <= window_size) by (nonlinear_arith)
            requires
                0 <= window_size * kept <= window_size * UNIT,
        ;
        assert((window_size * kept) / (UNIT as int) >= 0) by (nonlinear_arith)
            requires
                0 <= window_size * kept,
        ;
        assert(window_size * UNIT <= 0xffff_ffff_ffff_ffff * 0x1_0000_0000) by (nonlinear_arith)
            requires
                window_size <= 0xffff_ffff_ffff_ffff,
                UNIT <= 0x1_0000_0000,
        ;
    }
    let hop: u128 = ((window_size as u128) * kept) / (UNIT as u128);
    Ok(hop as usize)
}

/// The frames of the stream that a frame of the batcher is built from.
#[derive(Debug, Clone, Copy, PartialEq, Eq, Structural)]
pub struct FrameRead {
    /// The first frame of the stream to read.
    pub start: usize,
    /// The number of frames to read from there.
    pub frames: usize,
}

/// Cuts a stream into overlapping, windowed frames, one channel apart from
/// the other. It goes through the stream once.
pub struct TimeWindowBatcher {
    frames: usize,
    tband_size: usize,
    window_size: usize,
    crt_band_idx: usize,
    num_bands: usize,
    batch: Vec<Vec<i32>>,
    window: Window,
    side_padding: SidePadding,
}

/// What a [`TimeWindowBatcher`] stands for.
pub ghost struct BatcherView {
    /// The number of frames of the stream.
    pub frames: int,
    /// The advance between two frames.
    pub hop: int,
    /// The number of samples of a frame.
    pub window_size: int,
    /// The frame that comes next.
    pub band_idx: int,
    /// The number of frames that the batcher produces.
    pub num_bands: int,
    /// The coefficients of the window.
    pub window: Seq<u32>,
    /// The padding of both ends of the stream.
    pub padding: SidePaddingView,
    /// The frame produced last, one sequence per channel.
    pub batch: Seq<Seq<i32>>,
}

impl BatcherView {
    /// The number of channels.
    pub open spec fn channels(self) -> int {
        self.padding.channels()
    }

    /// The invariant of a batcher.
    pub open spec fn wf(self) -> bool {
        &&& 0 <= self.frames
        &&& 0 < self.hop <= self.window_size
        &&& self.num_bands == band_count(self.frames, self.hop)
        &&& 0 <= self.band_idx <= self.num_bands
        &&& self.window.len() == self.window_size
        &&& forall|i: int| 0 <= i < self.window.len() ==> #[trigger] self.window[i] <= UNIT
        &&& self.padding.wf()
        &&& self.padding.max_left == left_capacity(self.window_size, self.hop)
        &&& self.padding.max_right == self.window_size
        &&& self.batch.len() == self.channels()
        &&& forall|c: int|
            0 <= c < self.batch.len() ==> (#[trigger] self.batch[c]).len() == self.window_size
    }

    /// Whether every frame was produced.
    pub open spec fn exhausted(self) -> bool {
        self.band_idx >= self.num_bands
    }

    /// The frame of the stream at which the next frame starts to read.
    pub open spec fn seek(self) -> int {
        self.band_idx * self.hop
    }

    /// The number of samples of the next frame that lie before the stream.
    pub open spec fn left_gap(self) -> int {
        if self.seek() < side_offset(self.window_size, self.hop) {
            side_offset(self.window_size, self.hop) - self.seek()
        } else {
            0
        }
    }

    /// The position in the next frame at which the samples after the stream
    /// begin: the frame holds what the stream has from where it starts to
    /// read, as far as there is room after the samples before the stream.
    pub open spec fn right_edge(self) -> int {
        if self.left_gap() + (self.frames - self.seek()) < self.window_size {
            self.left_gap() + (self.frames - self.seek())
        } else {
            self.window_size
        }
    }

    /// The frames of the stream that the next frame is built from.
    pub open spec fn read(self) -> (int, int) {
        (self.seek(), self.right_edge() - self.left_gap())
    }

    /// Sample `p` of channel `channel` of the next frame, built from the
    /// samples `interleaved` read from the stream.
    pub open spec fn frame_sample(self, interleaved: Seq<i32>, channel: int, p: int) -> int {
        windowed(
            unweighed_sample(
                self.padding,
                interleaved,
                self.left_gap(),
                self.right_edge(),
                self.window_size,
                channel,
                p,
            ),
            self.window[p] as int,
        )
    }

    /// Why a batcher cannot be built from the given parts, if it cannot.
    pub open spec fn refusal(
        frames: int,
        channels: int,
        window_size: int,
        overlap: int,
        window_len: int,
        side_padding: SidePaddingType,
        head_len: int,
        tail_len: int,
    ) -> Option<Seq<char>> {
        let hop = hop_of(window_size, overlap);
        if overlap <= 0 || overlap >= UNIT {
            Some(OVERLAP_ERROR@)
        } else if hop == 0 {
            Some(HOP_ERROR@)
        } else if window_len != window_size {
            Some(WINDOW_ERROR@)
        } else if !SidePadding::accepts(
            side_padding,
            channels,
            left_capacity(window_size, hop),
            window_size,
            head_len,
            tail_len,
        ) {
            Some(LOOP_DATA_ERROR@)
        } else {
            None
        }
    }
}

/// The frames cover the stream and none of them starts after its end: the
/// number of frames is the quotient of the length of the stream by the
/// advance, rounded up.
pub proof fn lemma_band_count_is_the_rounded_up_quotient(frames: int, hop: int)
    requires
        0 <= frames,
        0 < hop,
    ensures
        0 <= band_count(frames, hop),
        band_count(frames, hop) * hop >= frames,
        frames > 0 ==> (band_count(frames, hop) - 1) * hop < frames,
        frames / hop <= band_count(frames, hop) <= frames / hop + 1,
{
    let count = band_count(frames, hop);
    assert(frames == hop * (frames / hop) + frames % hop) by (nonlinear_arith)
        requires
            hop > 0,
    ;
    assert(0 <= frames % hop < hop) by (nonlinear_arith)
        requires
            hop > 0,
    ;
    assert(frames / hop >= 0) by (nonlinear_arith)
        requires
            frames >= 0,
            hop > 0,
    ;
    assert(count * hop == hop * count) by (nonlinear_arith);
    assert((count - 1) * hop == hop * count - hop) by (nonlinear_arith);
    if frames % hop != 0 {
        assert(hop * (frames / hop + 1) == hop * (frames / hop) + hop) by (nonlinear_arith);
    }
}

/// Before the last frame is produced, the next frame starts inside the
/// stream.
pub proof fn lemma_seek_is_inside(frames: int, hop: int, band_idx: int)
    requires
        0 <= frames,
        0 < hop,
        0 <= band_idx < band_count(frames, hop),
    ensures
        0 <= band_idx * hop < frames,
{
    assert(band_idx * hop >= 0) by (nonlinear_arith)
        requires
            band_idx >= 0,
            hop > 0,
    ;
    assert(frames == hop * (frames / hop) + frames % hop) by (nonlinear_arith)
        requires
            hop > 0,
    ;
    assert(0 <= frames % hop < hop) by (nonlinear_arith)
        requires
            hop > 0,
    ;
    if frames % hop == 0 {
        assert(band_idx * hop <= (frames / hop - 1) * hop) by (nonlinear_arith)
            requires
                band_idx <= frames / hop - 1,
                hop > 0,
        ;
        assert((frames / hop - 1) * hop == hop * (frames / hop) - hop) by (nonlinear_arith);
    } else {
        assert(band_idx * hop <= (frames / hop) * hop) by (nonlinear_arith)
            requires
                band_idx <= frames / hop,
                hop > 0,
        ;
        assert((frames / hop) * hop == hop * (frames / hop)) by (nonlinear_arith);
    }
}

/// The samples read for a frame fit between the samples that lie before the
/// stream and those that lie after it.
pub proof fn lemma_frame_layout(view: BatcherView)
    requires
        view.wf(),
        !view.exhausted(),
    ensures
        0 <= view.seek() < view.frames,
        0 <= view.left_gap() < view.right_edge() <= view.window_size,
        view.left_gap() <= view.padding.max_left,
        view.window_size - view.right_edge() <= view.padding.max_right,
{
    lemma_seek_is_inside(view.frames, view.hop, view.band_idx);
}

/// A frame that lies inside the stream is the stream under the window: it
/// reads as many frames as it has samples, from where it starts, and each of
/// its samples is the sample read at its position, weighed by the
/// coefficient of that position.
pub proof fn lemma_frame_inside_the_stream(
    view: BatcherView,
    interleaved: Seq<i32>,
    channel: int,
    p: int,
)
    requires
        view.wf(),
        !view.exhausted(),
        view.seek() >= side_offset(view.window_size, view.hop),
        view.seek() + view.window_size <= view.frames,
        0 <= channel < view.channels(),
        0 <= p < view.window_size,
    ensures
        view.read() == (view.band_idx * view.hop, view.window_size),
        view.frame_sample(interleaved, channel, p) == windowed(
            interleaved[p * view.channels() + channel] as int,
            view.window[p] as int,
        ),
{
    lemma_frame_layout(view);
}

/// Copies the samples of channel `channel` out of interleaved frames.
fn take_channel(dst: &mut [i32], interleaved: &[i32], channels: usize, channel: usize)
    requires
        channel < channels,
        interleaved@.len() == channels * old(dst)@.len(),
    ensures
        final(dst)@.len() == old(dst)@.len(),
        forall|k: int|
            0 <= k < final(dst)@.len() ==> #[trigger] final(dst)@[k] == interleaved@[k * channels
                + channel],
{
    let len: usize = dst.len();
    let total: usize = interleaved.len();
    let mut k: usize = 0;
    while k < len
        invariant
            k <= len,
            len == dst@.len(),
            channel < channels,
            interleaved@.len() == channels * len,
            interleaved@.len() == total,
            forall|j: int| 0 <= j < k ==> #[trigger] dst@[j] == interleaved@[j * channels + channel],
        decreases len - k,
    {
        proof {
            assert((channels * len) / (channels as int) == len) by (nonlinear_arith)
                requires
                    channels > 0,
            ;
            lemma_interleaved_index(
                interleaved@.len() as int,
                channels as int,
                k as int,
                channel as int,
            );
        }
        dst[k] = interleaved[k * channels + channel];
        k += 1;
    }
}

/// Builds channel `channel` of a frame in `buffer`: `left` samples from
/// before the stream, the samples read from it up to position `right`,
/// samples from after the stream, all weighed by the window.
fn fill_channel(
    padding: &SidePadding,
    window: &Window,
    buffer: &mut Vec<i32>,
    interleaved: &[i32],
    channel: usize,
    left: usize,
    right: usize,
)
    requires
        padding.wf(),
        window.wf(),
        channel < padding@.channels(),
        window@.len() == old(buffer)@.len(),
        left <= right <= old(buffer)@.len(),
        left <= padding@.max_left,
        old(buffer)@.len() - right <= padding@.max_right,
        interleaved@.len() == padding@.channels() * (right - left),
    ensures
        final(buffer)@.len() == old(buffer)@.len(),
        forall|p: int|
            0 <= p < final(buffer)@.len() ==> #[trigger] final(buffer)@[p] == windowed(
                unweighed_sample(
                    padding@,
                    interleaved@,
                    left as int,
                    right as int,
                    old(buffer)@.len() as int,
                    channel as int,
                    p,
                ),
                window@[p] as int,
            ),
{
    let channels: usize = padding.channels();
    let stored: usize = right - left;
    let ghost size = buffer@.len() as int;
    proof {
        if stored > 0 {
            assert((channels * stored) / (channels as int) == stored) by (nonlinear_arith)
                requires
                    channels > 0,
            ;
            lemma_interleaved_index(
                interleaved@.len() as int,
                channels as int,
                stored - 1,
                channel as int,
            );
            lemma_interleaved_index(interleaved@.len() as int, channels as int, 0, channel as int);
            assert((stored - 1) * channels + channel == interleaved@.len() - channels + channel)
                by (nonlinear_arith)
                requires
                    interleaved@.len() == channels * stored,
            ;
        } else {
            assert(channels * stored == 0) by (nonlinear_arith)
                requires
                    stored == 0,
            ;
        }
    }
    let next_sample: i32 = if stored > 0 {
        interleaved[channel]
    } else {
        0
    };
    let prev_sample: i32 = if stored > 0 {
        interleaved[(stored - 1) * channels + channel]
    } else {
        0
    };
    let (before, rest) = buffer.as_mut_slice().split_at_mut(left);
    let (inside, after) = rest.split_at_mut(stored);
    padding.pad_left(before, next_sample, channel);
    take_channel(inside, interleaved, channels, channel);
    padding.pad_right(after, prev_sample, channel);
    assert(buffer@.len() == size);
    assert forall|p: int| 0 <= p < size implies #[trigger] buffer@[p] == unweighed_sample(
        padding@,
        interleaved@,
        left as int,
        right as int,
        size,
        channel as int,
        p,
    ) by {
        if p < left {
            assert(buffer@[p] == before@[p]);
        } else if p < right {
            assert(buffer@[p] == inside@[p - left]);
        } else {
            assert(buffer@[p] == after@[p - right]);
        }
    }
    window.apply(buffer.as_mut_slice());
}

impl View for TimeWindowBatcher {
    type V = BatcherView;

    closed spec fn view(&self) -> BatcherView {
        BatcherView {
            frames: self.frames as int,
            hop: self.tband_size as int,
            window_size: self.window_size as int,
            band_idx: self.crt_band_idx as int,
            num_bands: self.num_bands as int,
            window: self.window@,
            padding: self.side_padding@,
            batch: Seq::new(self.batch@.len(), |c: int| self.batch@[c]@),
        }
    }
}

impl TimeWindowBatcher {
    /// Whether the batcher meets its invariant.
    pub open spec fn wf(&self) -> bool {
        self@.wf()
    }

    /// Builds the batcher of a stream of `frames` frames of `channels`
    /// channels, for frames of `window_size` samples that overlap by
    /// `overlap` parts per billion and are weighed by `window`.
    ///
    /// `head` and `tail` are what [`SidePadding::new`] takes, for a left side
    /// of what two frames share, `window_size` less the advance, and a right
    /// side of a whole frame. What cannot be built is refused with the
    /// message that [`BatcherView::refusal`] gives.
    pub fn new(
        frames: usize,
        channels: usize,
        window_size: usize,
        overlap: i64,
        window: Window,
        side_padding: SidePaddingType,
        head: &[i32],
        tail: &[i32],
    ) -> (result: Result<TimeWindowBatcher, DspErr>)
        requires
            window.wf(),
        ensures
            match result {
                Ok(batcher) => {
                    &&& BatcherView::refusal(
                        frames as int,
                        channels as int,
                        window_size as int,
                        overlap as int,
                        window@.len() as int,
                        side_padding,
                        head@.len() as int,
                        tail@.len() as int,
                    ) is None
                    &&& batcher.wf()
                    &&& batcher@.frames == frames
                    &&& batcher@.hop == hop_of(window_size as int, overlap as int)
                    &&& batcher@.window_size == window_size
                    &&& batcher@.band_idx == 0
                    &&& batcher@.num_bands == band_count(frames as int, batcher@.hop)
                    &&& batcher@.window == window@
                    &&& batcher@.padding.built_from(
                        side_padding,
                        channels as int,
                        left_capacity(window_size as int, batcher@.hop),
                        window_size as int,
                        head@,
                        tail@,
                    )
                    &&& forall|c: int, p: int|
                        0 <= c < channels && 0 <= p < window_size
                            ==> #[trigger] batcher@.batch[c][p] == 0
                },
                Err(err) => BatcherView::refusal(
                    frames as int,
                    channels as int,
                    window_size as int,
                    overlap as int,
                    window@.len() as int,
                    side_padding,
                    head@.len() as int,
                    tail@.len() as int,
                ) == Some(err@),
            },
    {
        let tband_size: usize = match hop_size(window_size, overlap) {
            Ok(hop) => hop,
            Err(err) => {
                return Err(err);
            },
        };
        if tband_size == 0 {
            return Err(DspErr::new(HOP_ERROR));
        }
        if window.len() != window_size {
            return Err(DspErr::new(WINDOW_ERROR));
        }
        let max_padding_left: usize = window_size - tband_size;
        let num_bands: usize = if frames % tband_size == 0 {
            frames / tband_size
        } else {
            proof {
                assert((frames as int) / (tband_size as int) < frames) by (nonlinear_arith)
                    requires
                        (frames as int) % (tband_size as int) != 0,
                        tband_size > 0,
                        frames >= 0,
                ;
            }
            frames / tband_size + 1
        };
        let side_padding = match SidePadding::new(
            side_padding,
            channels,
            max_padding_left,
            window_size,
            head,
            tail,
        ) {
            Ok(padding) => padding,
            Err(err) => {
                return Err(err);
            },
        };
        let batch = zero_channels(channels, window_size);
        let batcher = TimeWindowBatcher {
            frames,
            tband_size,
            window_size,
            crt_band_idx: 0,
            num_bands,
            batch,
            window,
            side_padding,
        };
        proof {
            assert forall|c: int, p: int|
                0 <= c < channels && 0 <= p < window_size implies #[trigger] batcher@.batch[c][p]
                == 0 by {
                assert(batcher@.batch[c] == batch@[c]@);
            }
        }
        Ok(batcher)
    }

    /// The number of frames that the batcher produces.
    pub fn get_num_bands(&self) -> (num_bands: usize)
        ensures
            num_bands == self@.num_bands,
    {
        self.num_bands
    }

    /// The padding of both ends of the stream.
    pub fn side_padding(&self) -> (padding: &SidePadding)
        ensures
            padding@ == self@.padding,
    {
        &self.side_padding
    }

    /// The number of channels of a frame.
    pub fn channels(&self) -> (channels: usize)
        ensures
            channels == self@.channels(),
    {
        self.side_padding.channels()
    }

    /// The number of samples that lie before the stream in the next frame,
    /// and the position at which those that lie after it begin.
    fn bounds(&self) -> (bounds: (usize, usize))
        requires
            self.wf(),
            !self@.exhausted(),
        ensures
            bounds.0 == self@.left_gap(),
            bounds.1 == self@.right_edge(),
            self.crt_band_idx * self.tband_size == self@.seek(),
            self@.seek() < self.frames,
    {
        proof {
            lemma_frame_layout(self@);
        }
        let new_seek_idx: usize = self.crt_band_idx * self.tband_size;
        let side_offset: usize = (self.window_size - self.tband_size) / 2;
        let left_padding_idx: usize = if new_seek_idx < side_offset {
            side_offset - new_seek_idx
        } else {
            0
        };
        let room: usize = self.window_size - left_padding_idx;
        let right_padding_idx: usize = if self.frames - new_seek_idx < room {
            left_padding_idx + (self.frames - new_seek_idx)
        } else {
            self.window_size
        };
        (left_padding_idx, right_padding_idx)
    }

    /// The frames of the stream to read for the next frame; `None` once
    /// every frame was produced.
    pub fn next_read(&self) -> (request: Option<FrameRead>)
        requires
            self.wf(),
        ensures
            request is None <==> self@.exhausted(),
            request matches Some(read) ==> (read.start as int, read.frames as int) == self@.read(),
    {
        if self.crt_band_idx >= self.num_bands {
            return None;
        }
        let (left, right) = self.bounds();
        proof {
            lemma_frame_layout(self@);
        }
        Some(FrameRead { start: self.crt_band_idx * self.tband_size, frames: right - left })
    }

    /// Builds the next frame from `interleaved`, the frames of the stream
    /// that [`TimeWindowBatcher::next_read`] asked for, and tells whether
    /// there was a frame to build.
    ///
    /// Once every frame was produced nothing is built and nothing changes.
    /// Samples that are not the frames asked for are refused and change
    /// nothing either. The frame built is kept until the next one is: see
    /// [`TimeWindowBatcher::batch`].
    pub fn get_next_batch(&mut self, interleaved: &[i32]) -> (result: Result<bool, DspErr>)
        requires
            old(self).wf(),
        ensures
            final(self).wf(),
            old(self)@.exhausted() ==> result == Ok::<bool, DspErr>(false),
            result matches Ok(produced) ==> produced == !old(self)@.exhausted(),
            !old(self)@.exhausted() ==> (result is Err <==> interleaved@.len() != old(
                self,
            )@.channels() * old(self)@.read().1),
            result matches Err(err) ==> err@ == READ_ERROR@,
            !(result matches Ok(true)) ==> final(self)@ == old(self)@,
            result matches Ok(true) ==> {
                &&& final(self)@ == (BatcherView {
                    band_idx: old(self)@.band_idx + 1,
                    batch: final(self)@.batch,
                    ..old(self)@
                })
                &&& forall|c: int, p: int|
                    0 <= c < old(self)@.channels() && 0 <= p < old(self)@.window_size
                        ==> #[trigger] final(self)@.batch[c][p] == old(self)@.frame_sample(
                        interleaved@,
                        c,
                        p,
                    )
            },
    {
        if self.crt_band_idx >= self.num_bands {
            return Ok(false);
        }
        let (left, right) = self.bounds();
        let channels: usize = self.side_padding.channels();
        proof {
            lemma_frame_layout(self@);
        }
        let expected = channels.checked_mul(right - left);
        if expected != Some(interleaved.len()) {
            return Err(DspErr::new(READ_ERROR));
        }
        proof {
            assert forall|k: int| 0 <= k < channels implies (#[trigger] self.batch@[k])@.len()
                == self.window_size by {
                assert(self@.batch[k] == self.batch@[k]@);
            }
        }
        let mut c: usize = 0;
        while c < channels
            invariant
                c <= channels,
                channels == old(self)@.channels(),
                left == old(self)@.left_gap(),
                right == old(self)@.right_edge(),
                old(self).wf(),
                !old(self)@.exhausted(),
                interleaved@.len() == channels * (right - left),
                self.frames == old(self).frames,
                self.tband_size == old(self).tband_size,
                self.window_size == old(self).window_size,
                self.crt_band_idx == old(self).crt_band_idx,
                self.num_bands == old(self).num_bands,
                self.window == old(self).window,
                self.side_padding == old(self).side_padding,
                self.batch@.len() == channels,
                forall|k: int|
                    0 <= k < channels ==> (#[trigger] self.batch@[k])@.len() == self.window_size,
                forall|k: int, p: int|
                    0 <= k < c && 0 <= p < self.window_size ==> #[trigger] self.batch@[k]@[p]
                        == old(self)@.frame_sample(interleaved@, k, p),
            decreases channels - c,
        {
            proof {
                lemma_frame_layout(old(self)@);
                assert(old(self)@.batch[c as int].len() == self.window_size);
            }
            fill_channel(
                &self.side_padding,
                &self.window,
                &mut self.batch[c],
                interleaved,
                c,
                left,
                right,
            );
            c += 1;
        }
        self.crt_band_idx += 1;
        proof {
            assert(final(self)@.batch.len() == channels);
            assert(self@ =~= (BatcherView {
                band_idx: old(self)@.band_idx + 1,
                batch: self@.batch,
                ..old(self)@
            }));
            assert forall|k: int, p: int|
                0 <= k < channels && 0 <= p < self.window_size implies #[trigger] self@.batch[k][p]
                == old(self)@.frame_sample(interleaved@, k, p) by {
                assert(self@.batch[k][p] == self.batch@[k]@[p]);
            }
        }
        Ok(true)
    }

    /// The frame produced last: for each channel, its samples.
    pub fn batch(&self) -> (batch: &Vec<Vec<i32>>)
        ensures
            batch@.len() == self@.batch.len(),
            forall|c: int| 0 <= c < batch@.len() ==> (#[trigger] batch@[c])@ == self@.batch[c],
    {
        &self.batch
    }
}

} // verus!
