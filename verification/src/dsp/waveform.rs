//! The waveform: the samples of each channel, reduced on demand to the
//! blocks that a viewport shows.

use crate::dsp::data::DspErr;
use crate::dsp::normalization::Norm;
use crate::dsp::time_window::zero_channels;
use crate::utils::{lemma_interleaved_index, whole_frames, Zoom};
use rayon::iter::{IndexedParallelIterator, IntoParallelRefMutIterator, ParallelIterator};
use rayon::slice::ParallelSlice;
use vstd::prelude::*;

verus! {

/// The number of frames that are loaded at a time.
pub const BLOCK_SIZE: usize = 4096;

/// The message of the error for a block without a whole frame.
pub const EMPTY_READ_ERROR: &'static str = "0 frames read";

/// The message of the error for a block that ends after the stream.
pub const LONG_READ_ERROR: &'static str = "More frames read than the stream holds";

/// What a block of samples is reduced to.
#[derive(Default, Debug, Copy, Clone)]
pub struct WaveformPoint<T> {
    /// The root of the mean of the squared samples.
    pub rms: T,
    /// The smallest sample.
    pub peak_min: T,
    /// The greatest sample.
    pub peak_max: T,
}

/// What a waveform is computed with: nothing so far.
#[derive(Default)]
pub struct WaveformParameters;

/// Whether `root` is the square root of `x`, rounded down.
pub open spec fn is_floor_sqrt(x: int, root: int) -> bool {
    0 <= root && root * root <= x < (root + 1) * (root + 1)
}

/// The square root of `x`, rounded down.
pub open spec fn floor_sqrt(x: int) -> int {
    choose|root: int| is_floor_sqrt(x, root)
}

/// A number has at most one rounded-down square root, so the one that is
/// found is the one that [`floor_sqrt`] names.
pub proof fn lemma_floor_sqrt_is_unique(x: int, root: int)
    requires
        is_floor_sqrt(x, root),
    ensures
        floor_sqrt(x) == root,
{
    let other = floor_sqrt(x);
    assert(is_floor_sqrt(x, other));
    if other < root {
        assert((other + 1) * (other + 1) <= root * root) by (nonlinear_arith)
            requires
                0 <= other + 1 <= root,
        ;
    } else if root < other {
        assert((root + 1) * (root + 1) <= other * other) by (nonlinear_arith)
            requires
                0 <= root + 1 <= other,
        ;
    }
}

/// The square root of `x`, rounded down.
pub fn isqrt(x: u64) -> (root: u64)
    ensures
        root == floor_sqrt(x as int),
        is_floor_sqrt(x as int, root as int),
        root < 0x1_0000_0000,
{
    let mut low: u64 = 0;
    let mut high: u64 = 0x1_0000_0000;
    assert(0x1_0000_0000 * 0x1_0000_0000 > x) by (nonlinear_arith)
        requires
            x <= 0xffff_ffff_ffff_ffff,
    ;
    while high - low > 1
        invariant
            low < high <= 0x1_0000_0000,
            low * low <= x < high * high,
        decreases high - low,
    {
        let middle: u64 = low + (high - low) / 2;
        assert(middle * middle <= 0xffff_ffff * 0xffff_ffff) by (nonlinear_arith)
            requires
                0 <= middle <= 0xffff_ffff,
        ;
        if middle * middle <= x {
            low = middle;
        } else {
            high = middle;
        }
    }
    proof {
        lemma_floor_sqrt_is_unique(x as int, low as int);
    }
    low
}

/// The sum of the squared samples.
pub open spec fn sum_squares(samples: Seq<i32>) -> int
    decreases samples.len(),
{
    if samples.len() == 0 {
        0
    } else {
        sum_squares(samples.drop_last()) + samples.last() * samples.last()
    }
}

/// The smallest sample; zero where there is none.
pub open spec fn min_of(samples: Seq<i32>) -> int
    decreases samples.len(),
{
    if samples.len() == 0 {
        0
    } else if samples.len() == 1 {
        samples[0] as int
    } else if samples.last() < min_of(samples.drop_last()) {
        samples.last() as int
    } else {
        min_of(samples.drop_last())
    }
}

/// The greatest sample; zero where there is none.
pub open spec fn max_of(samples: Seq<i32>) -> int
    decreases samples.len(),
{
    if samples.len() == 0 {
        0
    } else if samples.len() == 1 {
        samples[0] as int
    } else if samples.last() > max_of(samples.drop_last()) {
        samples.last() as int
    } else {
        max_of(samples.drop_last())
    }
}

/// The root of the mean of the squared samples, rounded down and kept
/// inside the range of a sample; zero where there is no sample.
pub open spec fn rms_of(samples: Seq<i32>) -> int {
    if samples.len() == 0 {
        0
    } else {
        let root = floor_sqrt(sum_squares(samples) / (samples.len() as int));
        if root > i32::MAX {
            i32::MAX as int
        } else {
            root
        }
    }
}

/// The point that a block of samples is reduced to.
pub open spec fn point_of(samples: Seq<i32>) -> WaveformPoint<i32> {
    WaveformPoint {
        rms: rms_of(samples) as i32,
        peak_min: min_of(samples) as i32,
        peak_max: max_of(samples) as i32,
    }
}

/// Reduces a block of samples to its point.
pub fn compute_point(frames: &[i32]) -> (point: WaveformPoint<i32>)
    ensures
        point == point_of(frames@),
{
    let len: usize = frames.len();
    if len == 0 {
        return WaveformPoint { rms: 0, peak_min: 0, peak_max: 0 };
    }
    let mut min: i32 = frames[0];
    let mut max: i32 = frames[0];
    let mut sum: u128 = 0;
    let mut i: usize = 0;
    while i < len
        invariant
            i <= len,
            len == frames@.len(),
            len > 0,
            sum == sum_squares(frames@.take(i as int)),
            sum <= i * 0x4000_0000_0000_0000,
            i > 0 ==> min == min_of(frames@.take(i as int)),
            i > 0 ==> max == max_of(frames@.take(i as int)),
            i == 0 ==> min == frames@[0] && max == frames@[0],
        decreases len - i,
    {
        let elm: i64 = frames[i] as i64;
        proof {
            assert(frames@.take(i + 1).drop_last() =~= frames@.take(i as int));
            assert(frames@.take(i + 1).last() == frames@[i as int]);
            assert(0 <= elm * elm <= 0x4000_0000_0000_0000) by (nonlinear_arith)
                requires
                    -0x8000_0000 <= elm <= 0x8000_0000,
            ;
            assert((i + 1) * 0x4000_0000_0000_0000 <= 0x1_0000_0000_0000_0000
                * 0x4000_0000_0000_0000) by (nonlinear_arith)
                requires
                    i + 1 <= 0x1_0000_0000_0000_0000,
            ;
        }
        sum = sum + (elm * elm) as u128;
        if frames[i] > max {
            max = frames[i];
        }
        if frames[i] < min {
            min = frames[i];
        }
        i += 1;
    }
    proof {
        assert(frames@.take(len as int) =~= frames@);
        assert(sum / (len as u128) <= 0x4000_0000_0000_0000) by (nonlinear_arith)
            requires
                sum <= len * 0x4000_0000_0000_0000,
                len > 0,
        ;
    }
    let mean: u128 = sum / (len as u128);
    let root: u64 = isqrt(mean as u64);
    let rms: i32 = if root > 0x7fff_ffff {
        i32::MAX
    } else {
        root as i32
    };
    WaveformPoint { rms, peak_min: min, peak_max: max }
}

/// The number of samples of every chunk but the last when `len` samples are
/// shared among `block_count` chunks: their quotient, rounded down.
pub open spec fn chunk_size(len: int, block_count: int) -> int {
    len / block_count
}

/// Where chunk `i` starts.
pub open spec fn chunk_start(len: int, block_count: int, i: int) -> int {
    i * chunk_size(len, block_count)
}

/// Where chunk `i` ends: where the next one starts, and for the last chunk
/// where the samples end, so that it takes what the division leaves.
pub open spec fn chunk_end(len: int, block_count: int, i: int) -> int {
    if i == block_count - 1 {
        len
    } else {
        (i + 1) * chunk_size(len, block_count)
    }
}

/// Point `i` of the `block_count` points that `samples` are reduced to: the
/// point of chunk `i`. A chunk without a sample gives a point of zeros.
pub open spec fn point_at(samples: Seq<i32>, block_count: int, i: int) -> WaveformPoint<i32> {
    point_of(
        samples.subrange(
            chunk_start(samples.len() as int, block_count, i),
            chunk_end(samples.len() as int, block_count, i),
        ),
    )
}

/// The chunks part the samples: they follow one another from the first
/// sample to the last, each starting where the one before it ends, and none
/// of them is empty where there are at least as many samples as chunks.
pub proof fn lemma_chunks_part_the_samples(len: int, block_count: int)
    requires
        0 <= len,
        0 < block_count,
    ensures
        chunk_start(len, block_count, 0) == 0,
        chunk_end(len, block_count, block_count - 1) == len,
        forall|i: int|
            0 <= i < block_count - 1 ==> #[trigger] chunk_end(len, block_count, i) == chunk_start(
                len,
                block_count,
                i + 1,
            ),
        forall|i: int|
            0 <= i < block_count ==> 0 <= chunk_start(len, block_count, i) <= #[trigger] chunk_end(
                len,
                block_count,
                i,
            ) <= len,
        len >= block_count ==> forall|i: int|
            0 <= i < block_count ==> chunk_start(len, block_count, i) < #[trigger] chunk_end(
                len,
                block_count,
                i,
            ),
{
    let size = chunk_size(len, block_count);
    lemma_chunk_bounds(len, block_count, 0);
    assert forall|i: int| 0 <= i < block_count implies 0 <= chunk_start(len, block_count, i)
        <= #[trigger] chunk_end(len, block_count, i) <= len && (len >= block_count
        ==> chunk_start(len, block_count, i) < chunk_end(len, block_count, i)) by {
        lemma_chunk_bounds(len, block_count, i);
    }
}

/// Chunk `i` lies among the samples, and holds one at least where there are
/// as many samples as chunks.
pub proof fn lemma_chunk_bounds(len: int, block_count: int, i: int)
    requires
        0 <= len,
        0 < block_count,
        0 <= i < block_count,
    ensures
        0 <= chunk_size(len, block_count),
        block_count * chunk_size(len, block_count) + len % block_count == len,
        0 <= len % block_count < block_count,
        len >= block_count ==> chunk_size(len, block_count) >= 1,
        0 <= chunk_start(len, block_count, i) <= chunk_end(len, block_count, i) <= len,
        (i + 1) * chunk_size(len, block_count) == chunk_start(len, block_count, i) + chunk_size(
            len,
            block_count,
        ),
        (i + 1) * chunk_size(len, block_count) <= len,
        len >= block_count ==> chunk_start(len, block_count, i) < chunk_end(len, block_count, i),
{
    let size = len / block_count;
    assert(len == block_count * size + len % block_count) by (nonlinear_arith)
        requires
            block_count > 0,
            size == len / block_count,
    ;
    assert(0 <= len % block_count < block_count) by (nonlinear_arith)
        requires
            block_count > 0,
    ;
    assert(size >= 0) by (nonlinear_arith)
        requires
            len >= 0,
            block_count > 0,
            size == len / block_count,
    ;
    if len >= block_count {
        assert(size >= 1) by (nonlinear_arith)
            requires
                len == block_count * size + len % block_count,
                len % block_count < block_count,
                len >= block_count,
                block_count > 0,
        ;
    }
    assert(i * size >= 0) by (nonlinear_arith)
        requires
            i >= 0,
            size >= 0,
    ;
    assert((i + 1) * size == i * size + size) by (nonlinear_arith);
    assert((i + 1) * size <= block_count * size) by (nonlinear_arith)
        requires
            i + 1 <= block_count,
            size >= 0,
    ;
}

/// The smallest and the greatest sample of a sequence that holds one are
/// samples of it, and every sample lies between them.
pub proof fn lemma_peaks_are_extremes(samples: Seq<i32>)
    requires
        samples.len() > 0,
    ensures
        forall|i: int|
            0 <= i < samples.len() ==> min_of(samples) <= #[trigger] samples[i] <= max_of(samples),
        exists|i: int| 0 <= i < samples.len() && #[trigger] samples[i] == min_of(samples),
        exists|i: int| 0 <= i < samples.len() && #[trigger] samples[i] == max_of(samples),
    decreases samples.len(),
{
    let last = samples.len() - 1;
    if samples.len() == 1 {
        assert(samples[0] == min_of(samples) && samples[0] == max_of(samples));
    } else {
        let rest = samples.drop_last();
        lemma_peaks_are_extremes(rest);
        assert forall|i: int| 0 <= i < samples.len() implies min_of(samples)
            <= #[trigger] samples[i] <= max_of(samples) by {
            if i < last {
                assert(samples[i] == rest[i]);
            }
        }
        let low = choose|i: int| 0 <= i < rest.len() && #[trigger] rest[i] == min_of(rest);
        let high = choose|i: int| 0 <= i < rest.len() && #[trigger] rest[i] == max_of(rest);
        assert(samples[low] == rest[low] && samples[high] == rest[high]);
        if samples[last] < min_of(rest) {
            assert(samples[last] == min_of(samples));
        } else {
            assert(samples[low] == min_of(samples));
        }
        if samples[last] > max_of(rest) {
            assert(samples[last] == max_of(samples));
        } else {
            assert(samples[high] == max_of(samples));
        }
    }
}

/// A sample lies in one of the chunks.
pub proof fn lemma_sample_is_in_a_chunk(len: int, block_count: int, position: int) -> (i: int)
    requires
        0 < block_count <= len,
        0 <= position < len,
    ensures
        0 <= i < block_count,
        chunk_start(len, block_count, i) <= position < chunk_end(len, block_count, i),
{
    let size = chunk_size(len, block_count);
    lemma_chunk_bounds(len, block_count, 0);
    let quotient = position / size;
    assert(position == size * quotient + position % size && 0 <= position % size < size)
        by (nonlinear_arith)
        requires
            size >= 1,
            quotient == position / size,
    ;
    assert(quotient >= 0) by (nonlinear_arith)
        requires
            position >= 0,
            size >= 1,
            quotient == position / size,
    ;
    let i = if quotient >= block_count - 1 {
        block_count - 1
    } else {
        quotient
    };
    lemma_chunk_bounds(len, block_count, i);
    assert(i * size == size * i) by (nonlinear_arith);
    if quotient >= block_count - 1 {
        assert(size * i <= size * quotient) by (nonlinear_arith)
            requires
                i <= quotient,
                size >= 1,
        ;
    } else {
        assert((i + 1) * size == size * quotient + size) by (nonlinear_arith)
            requires
                i == quotient,
        ;
    }
    i
}

/// Where there are at least as many samples as points, the points keep the
/// peaks of the samples: the low peak of each point is no higher than its
/// high peak, the lowest of the low peaks is the smallest sample and the
/// highest of the high peaks the greatest.
pub proof fn lemma_points_keep_the_peaks(samples: Seq<i32>, block_count: int)
    requires
        0 < block_count <= samples.len(),
    ensures
        forall|i: int|
            0 <= i < block_count ==> min_of(samples) <= (#[trigger] point_at(
                samples,
                block_count,
                i,
            )).peak_min <= point_at(samples, block_count, i).peak_max <= max_of(samples),
        exists|i: int|
            0 <= i < block_count && (#[trigger] point_at(samples, block_count, i)).peak_min
                == min_of(samples),
        exists|i: int|
            0 <= i < block_count && (#[trigger] point_at(samples, block_count, i)).peak_max
                == max_of(samples),
{
    let len = samples.len() as int;
    lemma_peaks_are_extremes(samples);
    assert forall|i: int| 0 <= i < block_count implies min_of(samples) <= (#[trigger] point_at(
        samples,
        block_count,
        i,
    )).peak_min <= point_at(samples, block_count, i).peak_max <= max_of(samples) by {
        lemma_chunk_peaks(samples, block_count, i);
    }
    let low = choose|j: int| 0 <= j < len && #[trigger] samples[j] == min_of(samples);
    let high = choose|j: int| 0 <= j < len && #[trigger] samples[j] == max_of(samples);
    let low_chunk = lemma_sample_is_in_a_chunk(len, block_count, low);
    let high_chunk = lemma_sample_is_in_a_chunk(len, block_count, high);
    lemma_chunk_peaks(samples, block_count, low_chunk);
    lemma_chunk_peaks(samples, block_count, high_chunk);
    lemma_chunk_bounds(len, block_count, low_chunk);
    lemma_chunk_bounds(len, block_count, high_chunk);
    let low_from = chunk_start(len, block_count, low_chunk);
    let high_from = chunk_start(len, block_count, high_chunk);
    let low_samples = samples.subrange(low_from, chunk_end(len, block_count, low_chunk));
    let high_samples = samples.subrange(high_from, chunk_end(len, block_count, high_chunk));
    assert(low_samples[low - low_from] == samples[low]);
    assert(high_samples[high - high_from] == samples[high]);
    assert(min_of(low_samples) <= low_samples[low - low_from]);
    assert(max_of(high_samples) >= high_samples[high - high_from]);
    assert(point_at(samples, block_count, low_chunk).peak_min == min_of(samples));
    assert(point_at(samples, block_count, high_chunk).peak_max == max_of(samples));
}

/// The peaks of the point of a chunk are the smallest and the greatest
/// sample of the chunk, which lie between those of all the samples.
pub proof fn lemma_chunk_peaks(samples: Seq<i32>, block_count: int, i: int)
    requires
        0 < block_count <= samples.len(),
        0 <= i < block_count,
    ensures
        ({
            let len = samples.len() as int;
            let chunk = samples.subrange(
                chunk_start(len, block_count, i),
                chunk_end(len, block_count, i),
            );
            &&& chunk.len() > 0
            &&& point_at(samples, block_count, i).peak_min == min_of(chunk)
            &&& point_at(samples, block_count, i).peak_max == max_of(chunk)
            &&& min_of(samples) <= min_of(chunk) <= max_of(chunk) <= max_of(samples)
            &&& forall|k: int| 0 <= k < chunk.len() ==> min_of(chunk) <= #[trigger] chunk[k]
                <= max_of(chunk)
        }),
{
    let len = samples.len() as int;
    let from = chunk_start(len, block_count, i);
    let chunk = samples.subrange(from, chunk_end(len, block_count, i));
    lemma_chunk_bounds(len, block_count, i);
    lemma_peaks_are_extremes(samples);
    lemma_peaks_are_extremes(chunk);
    let low = choose|k: int| 0 <= k < chunk.len() && #[trigger] chunk[k] == min_of(chunk);
    let high = choose|k: int| 0 <= k < chunk.len() && #[trigger] chunk[k] == max_of(chunk);
    assert(chunk[low] == samples[from + low]);
    assert(chunk[high] == samples[from + high]);
}

/// Reduces the whole blocks of `samples` to points, in parallel, through
/// `rayon`: `par_chunks_exact` cuts the samples into the blocks of
/// `block_size` samples that are whole, `par_iter_mut` hands out the points,
/// `zip` pairs the two in order as far as both go, and `for_each` stores in
/// each point of a pair what [`compute_point`] makes of its block. Points
/// beyond the last whole block stay as they are.
#[verifier::external_body]
fn par_compute_points(points: &mut Vec<WaveformPoint<i32>>, samples: &[i32], block_size: usize)
    requires
        block_size > 0,
    ensures
        final(points)@.len() == old(points)@.len(),
        forall|i: int|
            0 <= i < old(points)@.len() ==> #[trigger] final(points)@[i] == (if i < samples@.len()
                / (block_size as nat) {
                point_of(samples@.subrange(i * block_size, (i + 1) * block_size))
            } else {
                old(points)@[i]
            }),
{
    points.par_iter_mut().zip(samples.par_chunks_exact(block_size)).for_each(
        |(point, chunk)| {
            *point = compute_point(chunk);
        },
    );
}

/// The samples of a whole stream, one sequence per channel.
pub struct Waveform {
    frames: Vec<Vec<i32>>,
}

/// A sample as it is kept: divided by the divisor, if there is one.
pub open spec fn loaded_sample(sample: i32, norm: Option<Norm>) -> int {
    match norm {
        Some(norm) => norm@.normalized(sample as int),
        None => sample as int,
    }
}

impl View for Waveform {
    type V = Seq<Seq<i32>>;

    closed spec fn view(&self) -> Seq<Seq<i32>> {
        Seq::new(self.frames@.len(), |c: int| self.frames@[c]@)
    }
}

impl Waveform {
    /// The number of frames of the stream.
    pub open spec fn total_frames(&self) -> int {
        if self@.len() == 0 {
            0
        } else {
            self@[0].len() as int
        }
    }

    /// Every channel holds one sample per frame.
    pub open spec fn wf(&self) -> bool {
        forall|c: int| 0 <= c < self@.len() ==> (#[trigger] self@[c]).len() == self.total_frames()
    }

    /// The waveform of a silent stream of `frames` frames of `channels`
    /// channels.
    pub fn new(channels: usize, frames: usize) -> (waveform: Waveform)
        ensures
            waveform.wf(),
            waveform@.len() == channels,
            channels > 0 ==> waveform.total_frames() == frames,
            forall|c: int, f: int|
                0 <= c < channels && 0 <= f < frames ==> #[trigger] waveform@[c][f] == 0,
    {
        let data = zero_channels(channels, frames);
        let waveform = Waveform { frames: data };
        proof {
            assert forall|c: int| 0 <= c < waveform@.len() implies (#[trigger] waveform@[c]).len()
                == waveform.total_frames() by {
                assert(waveform@[c] == data@[c]@);
                assert(waveform@[0] == data@[0]@);
            }
            assert forall|c: int, f: int|
                0 <= c < channels && 0 <= f < frames implies #[trigger] waveform@[c][f] == 0 by {
                assert(waveform@[c] == data@[c]@);
            }
            if channels > 0 {
                assert(waveform@[0] == data@[0]@);
            }
        }
        waveform
    }

    /// The number of channels.
    pub fn channels(&self) -> (channels: usize)
        ensures
            channels == self@.len(),
    {
        self.frames.len()
    }

    /// The number of frames of the stream.
    pub fn frame_count(&self) -> (frames: usize)
        ensures
            frames == self.total_frames(),
    {
        if self.frames.len() == 0 {
            0
        } else {
            proof {
                assert(self@[0] == self.frames@[0]@);
            }
            self.frames[0].len()
        }
    }

    /// Why a block cannot be loaded, if it cannot.
    pub open spec fn refusal(&self, frame_offset: int, len: int) -> Option<Seq<char>> {
        if self@.len() == 0 || whole_frames(len, self@.len() as int) == 0 {
            Some(EMPTY_READ_ERROR@)
        } else if frame_offset + whole_frames(len, self@.len() as int) > self.total_frames() {
            Some(LONG_READ_ERROR@)
        } else {
            None
        }
    }

    /// Stores the frames of `interleaved` from frame `frame_offset` on, each
    /// sample divided by the divisor `norm` where there is one. Samples after
    /// the last whole frame are left out.
    ///
    /// A block without a whole frame is refused, and so is one that ends
    /// after the stream; neither changes anything.
    pub fn load_block(
        &mut self,
        frame_offset: usize,
        interleaved: &[i32],
        norm: Option<Norm>,
    ) -> (result: Result<(), DspErr>)
        requires
            old(self).wf(),
            norm matches Some(divisor) ==> divisor.wf(),
        ensures
            final(self).wf(),
            final(self)@.len() == old(self)@.len(),
            final(self).total_frames() == old(self).total_frames(),
            match result {
                Ok(_) => {
                    &&& old(self).refusal(frame_offset as int, interleaved@.len() as int) is None
                    &&& forall|c: int, f: int|
                        0 <= c < final(self)@.len() && 0 <= f < final(self).total_frames()
                            ==> #[trigger] final(self)@[c][f] == (if frame_offset <= f
                            < frame_offset + whole_frames(
                            interleaved@.len() as int,
                            old(self)@.len() as int,
                        ) {
                            loaded_sample(
                                interleaved@[(f - frame_offset) * old(self)@.len() + c],
                                norm,
                            )
                        } else {
                            old(self)@[c][f] as int
                        })
                },
                Err(err) => {
                    &&& old(self).refusal(frame_offset as int, interleaved@.len() as int) == Some(
                        err@,
                    )
                    &&& final(self)@ == old(self)@
                },
            },
    {
        let channels: usize = self.frames.len();
        if channels == 0 {
            return Err(DspErr::new(EMPTY_READ_ERROR));
        }
        let nb_frames: usize = interleaved.len() / channels;
        if nb_frames == 0 {
            return Err(DspErr::new(EMPTY_READ_ERROR));
        }
        let total: usize = self.frame_count();
        if frame_offset > total || nb_frames > total - frame_offset {
            return Err(DspErr::new(LONG_READ_ERROR));
        }
        let ghost before = self@;
        let src_len: usize = interleaved.len();
        proof {
            assert forall|c: int| 0 <= c < channels implies (#[trigger] self.frames@[c])@.len()
                == total by {
                assert(self@[c] == self.frames@[c]@);
            }
        }
        let mut frame_idx: usize = 0;
        while frame_idx < nb_frames
            invariant
                frame_idx <= nb_frames,
                channels > 0,
                channels == self.frames@.len(),
                src_len == interleaved@.len(),
                nb_frames == whole_frames(src_len as int, channels as int),
                frame_offset + nb_frames <= total,
                norm matches Some(divisor) ==> divisor.wf(),
                before == old(self)@,
                before.len() == channels,
                forall|c: int| 0 <= c < channels ==> (#[trigger] before[c]).len() == total,
                forall|c: int| 0 <= c < channels ==> (#[trigger] self.frames@[c])@.len() == total,
                forall|c: int, f: int|
                    0 <= c < channels && 0 <= f < total ==> #[trigger] self.frames@[c]@[f] == (
                    if frame_offset <= f < frame_offset + frame_idx {
                        loaded_sample(interleaved@[(f - frame_offset) * channels + c], norm)
                    } else {
                        before[c][f] as int
                    }),
            decreases nb_frames - frame_idx,
        {
            let mut channel: usize = 0;
            while channel < channels
                invariant
                    frame_idx < nb_frames,
                    channel <= channels,
                    channels > 0,
                    channels == self.frames@.len(),
                    src_len == interleaved@.len(),
                    nb_frames == whole_frames(src_len as int, channels as int),
                    frame_offset + nb_frames <= total,
                    norm matches Some(divisor) ==> divisor.wf(),
                    before == old(self)@,
                    before.len() == channels,
                    forall|c: int| 0 <= c < channels ==> (#[trigger] before[c]).len() == total,
                    forall|c: int|
                        0 <= c < channels ==> (#[trigger] self.frames@[c])@.len() == total,
                    forall|c: int, f: int|
                        0 <= c < channels && 0 <= f < total ==> #[trigger] self.frames@[c]@[f] == (
                        if frame_offset <= f < frame_offset + frame_idx || (f == frame_offset
                            + frame_idx && c < channel) {
                            loaded_sample(interleaved@[(f - frame_offset) * channels + c], norm)
                        } else {
                            before[c][f] as int
                        }),
                decreases channels - channel,
            {
                proof {
                    lemma_interleaved_index(
                        src_len as int,
                        channels as int,
                        frame_idx as int,
                        channel as int,
                    );
                }
                let value: i32 = interleaved[frame_idx * channels + channel];
                let kept: i32 = match norm {
                    Some(divisor) => divisor.apply(value),
                    None => value,
                };
                self.frames[channel][frame_offset + frame_idx] = kept;
                channel += 1;
            }
            frame_idx += 1;
        }
        proof {
            assert(self@.len() == channels);
            assert forall|c: int| 0 <= c < channels implies #[trigger] self@[c] == self.frames@[c]@ by {}
            assert(self@[0] == self.frames@[0]@);
            assert(before[0].len() == total);
            assert forall|c: int, f: int|
                0 <= c < self@.len() && 0 <= f < self.total_frames() implies #[trigger] self@[c][f]
                == (if frame_offset <= f < frame_offset + whole_frames(
                interleaved@.len() as int,
                old(self)@.len() as int,
            ) {
                loaded_sample(interleaved@[(f - frame_offset) * old(self)@.len() + c], norm)
            } else {
                old(self)@[c][f] as int
            }) by {
                assert(self@[c] == self.frames@[c]@);
            }
        }
        Ok(())
    }

    /// Reduces the samples of channel `channel` that the viewport shows to
    /// `block_count` points, in time order: the samples are parted into as
    /// many chunks of the same size, the last of which also takes what the
    /// division leaves, and each point is the point of its chunk. See
    /// [`point_at`].
    pub fn compute_points(&self, channel: usize, block_count: usize, zoom: &Zoom) -> (points: Vec<
        WaveformPoint<i32>,
    >)
        requires
            self.wf(),
            zoom.wf(),
            channel < self@.len(),
        ensures
            points@.len() == block_count,
            forall|i: int|
                0 <= i < block_count ==> #[trigger] points@[i] == point_at(
                    self@[channel as int].subrange(
                        zoom@.first_visible(self.total_frames()),
                        zoom@.end_visible(self.total_frames()),
                    ),
                    block_count as int,
                    i,
                ),
    {
        // Alloc vectors
        let mut points: Vec<WaveformPoint<i32>> = Vec::new();
        let mut i: usize = 0;
        while i < block_count
            invariant
                i <= block_count,
                points@.len() == i,
                forall|k: int|
                    0 <= k < i ==> #[trigger] points@[k] == (WaveformPoint::<i32> {
                        rms: 0,
                        peak_min: 0,
                        peak_max: 0,
                    }),
            decreases block_count - i,
        {
            points.push(WaveformPoint { rms: 0, peak_min: 0, peak_max: 0 });
            i += 1;
        }
        if block_count == 0 {
            return points;
        }
        // Compute block size and count
        let total_frames: usize = self.frame_count();
        let (start, end) = zoom.visible_range(total_frames);
        proof {
            assert(self@[channel as int] == self.frames@[channel as int]@);
        }
        let rendered_frames: usize = end - start;
        let block_size: usize = rendered_frames / block_count;
        let remains: usize = rendered_frames % block_count;
        let samples = vstd::slice::slice_subrange(self.frames[channel].as_slice(), start, end);
        let ghost empty = points@;
        proof {
            lemma_chunk_bounds(rendered_frames as int, block_count as int, block_count - 1);
        }
        if block_size > 0 {
            proof {
                assert(rendered_frames as int / block_size as int >= block_count)
                    by (nonlinear_arith)
                    requires
                        block_count * block_size <= rendered_frames,
                        block_size > 0,
                ;
            }
            par_compute_points(&mut points, samples, block_size);
        }
        let ghost whole = points@;
        if remains > 0 {
            // The last chunk takes what is left
            let last = vstd::slice::slice_subrange(
                samples,
                (block_count - 1) * block_size,
                rendered_frames,
            );
            points[block_count - 1] = compute_point(last);
        }
        proof {
            assert forall|i: int| 0 <= i < block_count implies #[trigger] points@[i] == point_at(
                samples@,
                block_count as int,
                i,
            ) by {
                lemma_chunk_bounds(rendered_frames as int, block_count as int, i);
                let from = chunk_start(rendered_frames as int, block_count as int, i);
                let to = chunk_end(rendered_frames as int, block_count as int, i);
                if i == block_count - 1 && remains > 0 {
                } else if block_size > 0 {
                    assert(points@[i] == whole[i]);
                    assert(to == (i + 1) * block_size);
                } else {
                    assert(points@[i] == empty[i]);
                    assert(samples@.subrange(from, to).len() == 0);
                }
            }
        }
        points
    }
}

} // verus!
