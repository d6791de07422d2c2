//! The spectrogram: for each channel a grid of pixels, one row per frame
//! and one pixel per frequency bin, quantized from decibels through a
//! palette.

use crate::dsp::data::DspErr;
use crate::dsp::time_window::{SidePaddingType, WindowType};
use crate::utils::Zoom;
use vstd::prelude::*;

verus! {

/// The message of the error for a threshold that is not below zero.
pub const DB_ERROR: &'static str = "dB threshold should be a negative value";

/// The message of the error for a grid with more bytes than can be
/// addressed.
pub const SIZE_ERROR: &'static str = "The spectrogram is too large";

/// The message of the error for a palette without a whole color.
pub const PALETTE_ERROR: &'static str = "A palette should hold a whole number of colors";

/// What a spectrogram is computed with.
pub struct SpectrogramParameters {
    /// The number of samples of a frame.
    pub window_size: usize,
    /// The overlap of two frames, in parts per billion of a frame.
    pub overlap_rate: i64,
    /// The level below which a magnitude is shown as silence, in
    /// thousandths of a decibel.
    pub db_threshold: i64,
    pub window_type: WindowType,
    pub side_padding_type: SidePaddingType,
}

/// The level, among `levels` of them, that a magnitude of `db` is shown in:
/// the last level above zero decibels, the first below the threshold, and in
/// between the part of the last level that the magnitude has covered of the
/// way from the threshold to zero decibels, rounded down.
pub open spec fn level_of(db: int, threshold: int, levels: int) -> int {
    if db > 0 {
        levels - 1
    } else if db < threshold {
        0
    } else {
        ((db - threshold) * (levels - 1)) / (-threshold)
    }
}

/// Every magnitude is shown in one of the levels.
pub proof fn lemma_level_in_range(db: int, threshold: int, levels: int)
    requires
        threshold < 0,
        1 <= levels,
    ensures
        0 <= level_of(db, threshold, levels) < levels,
{
    if threshold <= db <= 0 {
        let span = -threshold;
        let above = db - threshold;
        let last = levels - 1;
        assert(0 <= above * last <= span * last) by (nonlinear_arith)
            requires
                0 <= above <= span,
                0 <= last,
        ;
        assert(0 <= (above * last) / span <= last) by (nonlinear_arith)
            requires
                0 <= above * last <= span * last,
                0 < span,
        ;
    }
}

/// The colors that the magnitudes between silence and full scale are shown
/// in: a table of levels, each a pixel of `stride` bytes.
pub struct Palette {
    stride: usize,
    colors: Vec<u8>,
}

/// What a [`Palette`] stands for.
pub ghost struct PaletteView {
    /// The number of bytes of a pixel.
    pub stride: int,
    /// The bytes of every level, the level for silence first.
    pub colors: Seq<u8>,
}

impl PaletteView {
    /// The table holds at least one pixel and only whole pixels.
    pub open spec fn wf(self) -> bool {
        &&& 1 <= self.stride <= self.colors.len()
        &&& self.colors.len() % (self.stride as nat) == 0
    }

    /// The number of levels.
    pub open spec fn levels(self) -> int {
        self.colors.len() as int / self.stride
    }

    /// Byte `k` of the pixel that shows a magnitude of `db`.
    pub open spec fn pixel_byte(self, db: int, threshold: int, k: int) -> u8 {
        self.colors[level_of(db, threshold, self.levels()) * self.stride + k]
    }
}

/// Pixel `level` of a table of whole pixels lies inside the table.
pub proof fn lemma_pixel_in_table(len: int, stride: int, level: int, k: int)
    requires
        1 <= stride,
        0 <= len,
        len % stride == 0,
        0 <= level < len / stride,
        0 <= k < stride,
    ensures
        0 <= level * stride + k < len,
{
    assert(level * stride >= 0) by (nonlinear_arith)
        requires
            level >= 0,
            stride >= 1,
    ;
    assert((level + 1) * stride <= (len / stride) * stride) by (nonlinear_arith)
        requires
            level + 1 <= len / stride,
            stride >= 1,
    ;
    assert((len / stride) * stride == len) by (nonlinear_arith)
        requires
            len % stride == 0,
            stride >= 1,
    ;
    assert((level + 1) * stride == level * stride + stride) by (nonlinear_arith);
}

impl View for Palette {
    type V = PaletteView;

    closed spec fn view(&self) -> PaletteView {
        PaletteView { stride: self.stride as int, colors: self.colors@ }
    }
}

impl Palette {
    /// Whether the palette meets its invariant.
    pub open spec fn wf(&self) -> bool {
        self@.wf()
    }

    /// The palette of the 256 greys, from black to white, one byte each.
    pub fn greyscale() -> (palette: Palette)
        ensures
            palette.wf(),
            palette@.stride == 1,
            palette@.colors.len() == 256,
            forall|level: int| 0 <= level < 256 ==> #[trigger] palette@.colors[level] == level,
    {
        let mut colors: Vec<u8> = Vec::new();
        let mut level: u8 = 0;
        while level < 255
            invariant
                colors@.len() == level,
                forall|k: int| 0 <= k < level ==> #[trigger] colors@[k] == k,
            decreases 255 - level,
        {
            colors.push(level);
            level += 1;
        }
        colors.push(255u8);
        Palette { stride: 1, colors }
    }

    /// The palette of the given levels, each a pixel of `stride` bytes, the
    /// level for silence first. A table without a whole pixel, or with part
    /// of one, is refused.
    pub fn new(stride: usize, colors: Vec<u8>) -> (result: Result<Palette, DspErr>)
        ensures
            result is Ok <==> (PaletteView { stride: stride as int, colors: colors@ }).wf(),
            result matches Ok(palette) ==> palette@ == (PaletteView {
                stride: stride as int,
                colors: colors@,
            }),
            result matches Err(err) ==> err@ == PALETTE_ERROR@,
    {
        if stride == 0 || colors.len() < stride || colors.len() % stride != 0 {
            return Err(DspErr::new(PALETTE_ERROR));
        }
        Ok(Palette { stride, colors })
    }

    /// The number of bytes of a pixel.
    pub fn bytes_per_pixel(&self) -> (stride: usize)
        ensures
            stride == self@.stride,
    {
        self.stride
    }

    /// The number of levels.
    pub fn levels(&self) -> (levels: usize)
        requires
            self.wf(),
        ensures
            levels == self@.levels(),
            levels >= 1,
    {
        proof {
            assert(self@.colors.len() as int / self@.stride >= 1) by (nonlinear_arith)
                requires
                    1 <= self@.stride <= self@.colors.len(),
            ;
        }
        self.colors.len() / self.stride
    }

    /// The level that a magnitude of `db` is shown in, for a threshold of
    /// `threshold`. Both are in the same unit.
    pub fn level_for(&self, db: i64, threshold: i64) -> (level: usize)
        requires
            self.wf(),
            threshold < 0,
        ensures
            level == level_of(db as int, threshold as int, self@.levels()),
            level < self@.levels(),
    {
        let last: usize = self.levels() - 1;
        proof {
            lemma_level_in_range(db as int, threshold as int, self@.levels());
        }
        if db > 0 {
            last
        } else if db < threshold {
            0
        } else {
            let above: u128 = ((db as i128) - (threshold as i128)) as u128;
            let span: u128 = (-(threshold as i128)) as u128;
            proof {
                assert(0 <= above * last <= 0x8000_0000_0000_0000 * 0xffff_ffff_ffff_ffff)
                    by (nonlinear_arith)
                    requires
                        0 <= above <= 0x8000_0000_0000_0000,
                        0 <= last <= 0xffff_ffff_ffff_ffff,
                ;
            }
            ((above * (last as u128)) / span) as usize
        }
    }
}

/// The pixels of a whole stream: for each channel one row per frame, each
/// row one pixel per frequency bin.
pub struct Spectrogram {
    num_bands: usize,
    num_bins: usize,
    threshold: i64,
    palette: Palette,
    // Ordered by [channel]
    color_frames: Vec<Vec<u8>>,
}

/// What a [`Spectrogram`] stands for.
pub ghost struct SpectrogramView {
    /// The number of frames.
    pub num_bands: int,
    /// The number of frequency bins of a frame.
    pub num_bins: int,
    /// The level below which a magnitude is shown as silence.
    pub threshold: int,
    /// The colors that magnitudes are shown in.
    pub palette: PaletteView,
    /// The bytes of each channel.
    pub frames: Seq<Seq<u8>>,
}

impl SpectrogramView {
    /// The number of bytes of a row.
    pub open spec fn row(self) -> int {
        self.num_bins * self.palette.stride
    }

    /// The number of channels.
    pub open spec fn channels(self) -> int {
        self.frames.len() as int
    }

    /// The invariant of a spectrogram.
    pub open spec fn wf(self) -> bool {
        &&& 0 <= self.num_bands
        &&& 0 <= self.num_bins
        &&& self.threshold < 0
        &&& self.palette.wf()
        &&& self.row() <= usize::MAX
        &&& self.num_bands * self.row() <= usize::MAX
        &&& forall|c: int|
            0 <= c < self.frames.len() ==> (#[trigger] self.frames[c]).len() == self.num_bands
                * self.row()
    }

    /// The bytes of the row of the magnitudes `decibels`, one per bin.
    pub open spec fn row_bytes(self, decibels: Seq<i64>) -> Seq<u8> {
        Seq::new(
            self.row() as nat,
            |o: int|
                self.palette.pixel_byte(
                    decibels[o / self.palette.stride] as int,
                    self.threshold,
                    o % self.palette.stride,
                ),
        )
    }
}

/// Row `band` of a grid of `num_bands` rows of `row` bytes lies inside the
/// grid.
pub proof fn lemma_row_in_grid(num_bands: int, row: int, band: int)
    requires
        0 <= row,
        0 <= band < num_bands,
    ensures
        0 <= band * row,
        (band + 1) * row == band * row + row,
        (band + 1) * row <= num_bands * row,
{
    assert(band * row >= 0) by (nonlinear_arith)
        requires
            band >= 0,
            row >= 0,
    ;
    assert((band + 1) * row <= num_bands * row) by (nonlinear_arith)
        requires
            band + 1 <= num_bands,
            row >= 0,
    ;
    assert((band + 1) * row == band * row + row) by (nonlinear_arith);
}

/// Byte `k` of pixel `bin` lies inside a row of `num_bins` pixels of
/// `stride` bytes, at an offset that gives back the pixel and the byte.
pub proof fn lemma_pixel_in_row(num_bins: int, stride: int, bin: int, k: int)
    requires
        1 <= stride,
        0 <= bin < num_bins,
        0 <= k < stride,
    ensures
        0 <= bin * stride,
        (bin + 1) * stride == bin * stride + stride,
        (bin + 1) * stride <= num_bins * stride,
        bin * stride + k < num_bins * stride,
        (bin * stride + k) / stride == bin,
        (bin * stride + k) % stride == k,
{
    assert(bin * stride >= 0) by (nonlinear_arith)
        requires
            bin >= 0,
            stride >= 1,
    ;
    assert((bin + 1) * stride <= num_bins * stride) by (nonlinear_arith)
        requires
            bin + 1 <= num_bins,
            stride >= 1,
    ;
    assert((bin + 1) * stride == bin * stride + stride) by (nonlinear_arith);
    vstd::arithmetic::div_mod::lemma_fundamental_div_mod_converse(bin * stride + k, stride, bin, k);
}

impl View for Spectrogram {
    type V = SpectrogramView;

    closed spec fn view(&self) -> SpectrogramView {
        SpectrogramView {
            num_bands: self.num_bands as int,
            num_bins: self.num_bins as int,
            threshold: self.threshold as int,
            palette: self.palette@,
            frames: Seq::new(self.color_frames@.len(), |c: int| self.color_frames@[c]@),
        }
    }
}

impl Spectrogram {
    /// Whether the spectrogram meets its invariant.
    pub open spec fn wf(&self) -> bool {
        self@.wf()
    }

    /// Why no spectrogram can be made of the given parts, if none can.
    pub open spec fn refusal(
        window_size: int,
        db_threshold: int,
        num_bands: int,
        stride: int,
    ) -> Option<Seq<char>> {
        let row = (window_size / 2) * stride;
        if db_threshold >= 0 {
            Some(DB_ERROR@)
        } else if row > usize::MAX || num_bands * row > usize::MAX {
            Some(SIZE_ERROR@)
        } else {
            None
        }
    }

    /// An empty spectrogram of `num_bands` frames for each of `channels`
    /// channels: every pixel is made of zeros. A frame has one bin for each
    /// two samples of the window.
    ///
    /// A threshold that is not below zero is refused, and so is a grid that
    /// has more bytes than can be addressed.
    pub fn new(
        parameters: &SpectrogramParameters,
        channels: usize,
        num_bands: usize,
        palette: Palette,
    ) -> (result: Result<Spectrogram, DspErr>)
        requires
            palette.wf(),
        ensures
            match result {
                Ok(spectrogram) => {
                    &&& Self::refusal(
                        parameters.window_size as int,
                        parameters.db_threshold as int,
                        num_bands as int,
                        palette@.stride,
                    ) is None
                    &&& spectrogram.wf()
                    &&& spectrogram@.num_bands == num_bands
                    &&& spectrogram@.num_bins == parameters.window_size / 2
                    &&& spectrogram@.threshold == parameters.db_threshold
                    &&& spectrogram@.palette == palette@
                    &&& spectrogram@.channels() == channels
                    &&& forall|c: int, q: int|
                        0 <= c < channels && 0 <= q < spectrogram@.frames[c].len()
                            ==> #[trigger] spectrogram@.frames[c][q] == 0
                },
                Err(err) => Self::refusal(
                    parameters.window_size as int,
                    parameters.db_threshold as int,
                    num_bands as int,
                    palette@.stride,
                ) == Some(err@),
            },
    {
        if parameters.db_threshold >= 0 {
            return Err(DspErr::new(DB_ERROR));
        }
        let num_bins: usize = parameters.window_size / 2;
        let stride: usize = palette.bytes_per_pixel();
        let size: usize = match num_bins.checked_mul(stride) {
            Some(row) => match num_bands.checked_mul(row) {
                Some(size) => size,
                None => {
                    return Err(DspErr::new(SIZE_ERROR));
                },
            },
            None => {
                return Err(DspErr::new(SIZE_ERROR));
            },
        };
        let mut color_frames: Vec<Vec<u8>> = Vec::new();
        let mut c: usize = 0;
        while c < channels
            invariant
                c <= channels,
                color_frames@.len() == c,
                forall|k: int| 0 <= k < c ==> (#[trigger] color_frames@[k])@.len() == size,
                forall|k: int, q: int|
                    0 <= k < c && 0 <= q < size ==> #[trigger] color_frames@[k]@[q] == 0,
            decreases channels - c,
        {
            let mut bytes: Vec<u8> = Vec::new();
            let mut q: usize = 0;
            while q < size
                invariant
                    q <= size,
                    bytes@.len() == q,
                    forall|j: int| 0 <= j < q ==> #[trigger] bytes@[j] == 0,
                decreases size - q,
            {
                bytes.push(0u8);
                q += 1;
            }
            color_frames.push(bytes);
            c += 1;
        }
        let spectrogram = Spectrogram {
            num_bands,
            num_bins,
            threshold: parameters.db_threshold,
            palette,
            color_frames,
        };
        proof {
            assert forall|c: int, q: int|
                0 <= c < channels && 0 <= q < spectrogram@.frames[c].len()
                    implies #[trigger] spectrogram@.frames[c][q] == 0 by {
                assert(spectrogram@.frames[c] == color_frames@[c]@);
            }
        }
        Ok(spectrogram)
    }

    /// Stores row `band` of channel `channel`: the pixels that show the
    /// magnitudes `decibels` of its bins, in thousandths of a decibel. Every
    /// other row stays as it is.
    pub fn store_band(&mut self, channel: usize, band: usize, decibels: &[i64])
        requires
            old(self).wf(),
            channel < old(self)@.channels(),
            band < old(self)@.num_bands,
            decibels@.len() == old(self)@.num_bins,
        ensures
            final(self).wf(),
            final(self)@ == (SpectrogramView { frames: final(self)@.frames, ..old(self)@ }),
            final(self)@.channels() == old(self)@.channels(),
            forall|c: int|
                0 <= c < old(self)@.channels() && c != channel ==> #[trigger] final(self)@.frames[c]
                    == old(self)@.frames[c],
            final(self)@.frames[channel as int] == old(self)@.frames[channel as int].subrange(
                0,
                band * old(self)@.row(),
            ) + old(self)@.row_bytes(decibels@) + old(self)@.frames[channel as int].subrange(
                (band + 1) * old(self)@.row(),
                old(self)@.num_bands * old(self)@.row(),
            ),
    {
        let stride: usize = self.palette.bytes_per_pixel();
        let ghost before = self.color_frames@[channel as int]@;
        let ghost view = self@;
        let row: usize = self.num_bins * stride;
        proof {
            assert(view.frames[channel as int] == before);
            lemma_row_in_grid(self.num_bands as int, row as int, band as int);
            assert(self.palette@.colors.len() == self.palette.colors.len());
        }
        let base: usize = band * row;
        let mut bin: usize = 0;
        let mut offset: usize = 0;
        while bin < self.num_bins
            invariant
                bin <= self.num_bins,
                offset == bin * stride,
                offset <= row,
                stride == self.palette@.stride,
                row == self.num_bins * stride,
                base == band * row,
                base + row <= self.num_bands * row,
                self.num_bands * row <= usize::MAX,
                self.palette@.colors.len() <= usize::MAX,
                view.wf(),
                view == old(self)@,
                band < self.num_bands,
                channel < self.color_frames@.len(),
                decibels@.len() == self.num_bins,
                self.num_bands == old(self).num_bands,
                self.num_bins == old(self).num_bins,
                self.threshold == old(self).threshold,
                self.palette == old(self).palette,
                self.color_frames@.len() == old(self).color_frames@.len(),
                forall|c: int|
                    0 <= c < self.color_frames@.len() && c != channel
                        ==> #[trigger] self.color_frames@[c] == old(self).color_frames@[c],
                self.color_frames@[channel as int]@.len() == before.len(),
                before.len() == self.num_bands * row,
                forall|q: int|
                    0 <= q < before.len() && !(base <= q < base + offset)
                        ==> #[trigger] self.color_frames@[channel as int]@[q] == before[q],
                forall|q: int|
                    base <= q < base + offset ==> #[trigger] self.color_frames@[channel as int]@[q]
                        == view.row_bytes(decibels@)[q - base],
            decreases self.num_bins - bin,
        {
            let level = self.palette.level_for(decibels[bin], self.threshold);
            proof {
                lemma_pixel_in_row(self.num_bins as int, stride as int, bin as int, 0);
            }
            let mut k: usize = 0;
            while k < stride
                invariant
                    k <= stride,
                    bin < self.num_bins,
                    offset == bin * stride,
                    offset + stride <= row,
                    stride == self.palette@.stride,
                    row == self.num_bins * stride,
                    base == band * row,
                    base + row <= self.num_bands * row,
                    self.num_bands * row <= usize::MAX,
                    self.palette@.colors.len() <= usize::MAX,
                    view.wf(),
                    view == old(self)@,
                    band < self.num_bands,
                    channel < self.color_frames@.len(),
                    decibels@.len() == self.num_bins,
                    level == level_of(
                        decibels@[bin as int] as int,
                        self.threshold as int,
                        self.palette@.levels(),
                    ),
                    level < self.palette@.levels(),
                    self.num_bands == old(self).num_bands,
                    self.num_bins == old(self).num_bins,
                    self.threshold == old(self).threshold,
                    self.palette == old(self).palette,
                    self.color_frames@.len() == old(self).color_frames@.len(),
                    forall|c: int|
                        0 <= c < self.color_frames@.len() && c != channel
                            ==> #[trigger] self.color_frames@[c] == old(self).color_frames@[c],
                    self.color_frames@[channel as int]@.len() == before.len(),
                    before.len() == self.num_bands * row,
                    forall|q: int|
                        0 <= q < before.len() && !(base <= q < base + offset + k)
                            ==> #[trigger] self.color_frames@[channel as int]@[q] == before[q],
                    forall|q: int|
                        base <= q < base + offset + k
                            ==> #[trigger] self.color_frames@[channel as int]@[q]
                            == view.row_bytes(decibels@)[q - base],
                decreases stride - k,
            {
                proof {
                    lemma_pixel_in_row(self.num_bins as int, stride as int, bin as int, k as int);
                    lemma_pixel_in_table(
                        self.palette@.colors.len() as int,
                        stride as int,
                        level as int,
                        k as int,
                    );
                }
                let byte = self.palette.colors[level * stride + k];
                self.color_frames[channel][base + offset + k] = byte;
                k += 1;
            }
            bin += 1;
            offset += stride;
        }
        proof {
            let after = self.color_frames@[channel as int]@;
            let expected = before.subrange(0, base as int) + view.row_bytes(decibels@)
                + before.subrange(base + row, self.num_bands * row);
            assert(after =~= expected);
            assert(self@.frames[channel as int] == after);
            assert(self@.frames.len() == view.frames.len());
            assert forall|c: int| 0 <= c < self@.frames.len() implies (#[trigger] self@.frames[c]).len()
                == self@.num_bands * self@.row() by {
                if c != channel {
                    assert(self@.frames[c] == view.frames[c]);
                }
            }
            assert forall|c: int| 0 <= c < view.channels() && c != channel implies #[trigger] self@.frames[c]
                == view.frames[c] by {
                assert(self@.frames[c] == self.color_frames@[c]@);
                assert(view.frames[c] == old(self).color_frames@[c]@);
            }
        }
    }

    /// The pixels of channel `channel` that the viewport shows, and the
    /// number of frames they are the rows of.
    pub fn data(&self, channel: usize, zoom: &Zoom) -> (visible: (&[u8], usize))
        requires
            self.wf(),
            zoom.wf(),
            channel < self@.channels(),
        ensures
            visible.1 == zoom@.end_visible(self@.num_bands) - zoom@.first_visible(self@.num_bands),
            visible.0@ == self@.frames[channel as int].subrange(
                zoom@.first_visible(self@.num_bands) * self@.row(),
                zoom@.end_visible(self@.num_bands) * self@.row(),
            ),
            visible.0@.len() == self@.num_bins * visible.1 * self@.palette.stride,
            self@.num_bands * zoom@.length >= crate::utils::UNIT ==> visible.1 >= 1,
            self@.num_bands * zoom@.length >= crate::utils::UNIT && self@.num_bins >= 1
                ==> visible.0@.len() >= 1,
    {
        let (start, end) = zoom.visible_range(self.num_bands);
        let stride: usize = self.palette.bytes_per_pixel();
        let row: usize = self.num_bins * stride;
        proof {
            assert(self@.frames[channel as int] == self.color_frames@[channel as int]@);
            assert(0 <= start * row <= end * row <= self.num_bands * row) by (nonlinear_arith)
                requires
                    0 <= start <= end <= self.num_bands,
                    row >= 0,
            ;
            assert(end * row - start * row == self.num_bins * (end - start) * stride)
                by (nonlinear_arith)
                requires
                    row == self.num_bins * stride,
            ;
            if end > start && self.num_bins >= 1 {
                assert((end - start) * row >= 1) by (nonlinear_arith)
                    requires
                        end - start >= 1,
                        row == self.num_bins * stride,
                        self.num_bins >= 1,
                        stride >= 1,
                ;
                assert(end * row - start * row == (end - start) * row) by (nonlinear_arith);
            }
        }
        let pixels = vstd::slice::slice_subrange(
            self.color_frames[channel].as_slice(),
            start * row,
            end * row,
        );
        (pixels, end - start)
    }

    /// The number of frequency bins of a frame.
    pub fn num_bins(&self) -> (num_bins: usize)
        ensures
            num_bins == self@.num_bins,
    {
        self.num_bins
    }

    /// The number of frames.
    pub fn num_bands(&self) -> (num_bands: usize)
        ensures
            num_bands == self@.num_bands,
    {
        self.num_bands
    }

    /// The number of channels.
    pub fn channels(&self) -> (channels: usize)
        ensures
            channels == self@.channels(),
    {
        self.color_frames.len()
    }

    /// The number of bytes of a pixel.
    pub fn bytes_per_pixel(&self) -> (stride: usize)
        ensures
            stride == self@.palette.stride,
    {
        self.palette.bytes_per_pixel()
    }
}

} // verus!
