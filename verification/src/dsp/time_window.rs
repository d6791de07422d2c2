//! Overlapping, windowed frames of a stream: the apodization windows, the
//! policies that fill what lies before the first and after the last sample,
//! and the batcher that cuts the frames.

use crate::dsp::data::DspErr;
use crate::utils::{deinterleave_vec, div_toward_zero, str_equal, UNIT};
use vstd::prelude::*;
use vstd::string::StringExecFns;

verus! {

/// The apodization window applied to each frame.
#[derive(Debug, Clone, Copy, PartialEq, Eq, Structural)]
pub enum WindowType {
    Blackman,
    Hanning,
    Hamming,
    Uniform,
}

/// A name that is no window type.
#[derive(Debug, Clone, Copy)]
pub struct WindowTypeParseError;

impl WindowTypeParseError {
    /// The message to show for this error.
    pub fn message(&self) -> (msg: String)
        ensures
            msg@ == "Invalid window type"@,
    {
        String::from_str("Invalid window type")
    }
}

pub const HANNING: &'static str = "hanning";

pub const HAMMING: &'static str = "hamming";

pub const BLACKMAN: &'static str = "blackman";

pub const UNIFORM: &'static str = "uniform";

impl WindowType {
    /// The name that selects this window type.
    pub open spec fn name(self) -> Seq<char> {
        match self {
            WindowType::Blackman => BLACKMAN@,
            WindowType::Hanning => HANNING@,
            WindowType::Hamming => HAMMING@,
            WindowType::Uniform => UNIFORM@,
        }
    }

    /// The energy correction of the window, in hundredths.
    pub open spec fn correction(self) -> int {
        match self {
            WindowType::Blackman => 280,
            WindowType::Hamming => 185,
            WindowType::Hanning => 200,
            WindowType::Uniform => 100,
        }
    }

    /// The factor that undoes the attenuation of the window, in hundredths:
    /// 280 stands for 2.80.
    pub fn correction_factor(&self) -> (hundredths: u32)
        ensures
            hundredths == self.correction(),
    {
        match self {
            Self::Blackman => 280,
            Self::Hamming => 185,
            Self::Hanning => 200,
            Self::Uniform => 100,
        }
    }

    /// The window type that `name` selects.
    pub fn parse(name: &str) -> (result: Result<Self, WindowTypeParseError>)
        ensures
            match result {
                Ok(window_type) => name@ == window_type.name(),
                Err(_) => forall|window_type: WindowType| name@ != window_type.name(),
            },
    {
        if str_equal(name, HANNING) {
            Ok(Self::Hanning)
        } else if str_equal(name, HAMMING) {
            Ok(Self::Hamming)
        } else if str_equal(name, BLACKMAN) {
            Ok(Self::Blackman)
        } else if str_equal(name, UNIFORM) {
            Ok(Self::Uniform)
        } else {
            Err(WindowTypeParseError)
        }
    }

    /// The names that [`WindowType::parse`] accepts.
    pub fn possible_values() -> (values: &'static [&'static str])
        ensures
            values@.len() == 4,
            values@[0]@ == HAMMING@,
            values@[1]@ == HANNING@,
            values@[2]@ == BLACKMAN@,
            values@[3]@ == UNIFORM@,
    {
        &[HAMMING, HANNING, BLACKMAN, UNIFORM]
    }

    /// The name of the window type used when none is asked for.
    pub fn default() -> (name: &'static str)
        ensures
            name@ == WindowType::Hanning.name(),
    {
        HANNING
    }
}

/// The names of the window types differ, so a name selects at most one.
pub proof fn lemma_window_names_differ(a: WindowType, b: WindowType)
    ensures
        a.name() == b.name() ==> a == b,
{
    reveal_strlit("hanning");
    reveal_strlit("hamming");
    reveal_strlit("blackman");
    reveal_strlit("uniform");
    if a != b {
        assert(HANNING@.len() == 7 && HAMMING@.len() == 7 && BLACKMAN@.len() == 8 && UNIFORM@.len()
            == 7);
        assert(HANNING@[2] == 'n' && HAMMING@[2] == 'm' && UNIFORM@[2] == 'i');
    }
}

/// The coefficients of an apodization window, in parts per billion: each of
/// them lies between zero and one whole.
pub struct Window {
    coefficients: Vec<u32>,
}

/// The message of the error for a window with another number of
/// coefficients than a frame has samples.
pub const WINDOW_ERROR: &'static str = "The window should hold one coefficient per sample";

/// The message of the error for a window coefficient above one whole.
pub const COEFFICIENT_ERROR: &'static str = "Window coefficients should be contained within [0:1]";

impl View for Window {
    type V = Seq<u32>;

    closed spec fn view(&self) -> Seq<u32> {
        self.coefficients@
    }
}

/// `sample` scaled by the window coefficient `coefficient`, rounded toward
/// zero.
pub open spec fn windowed(sample: int, coefficient: int) -> int {
    div_toward_zero(sample * coefficient, UNIT as int)
}

/// Scaling by a coefficient of at most one whole brings a sample no further
/// from zero.
pub proof fn lemma_windowed_is_no_larger(sample: int, coefficient: int)
    requires
        0 <= coefficient <= UNIT,
    ensures
        sample >= 0 ==> 0 <= windowed(sample, coefficient) <= sample,
        sample <= 0 ==> sample <= windowed(sample, coefficient) <= 0,
{
    let magnitude = if sample >= 0 {
        sample
    } else {
        -sample
    };
    assert(0 <= magnitude * coefficient <= magnitude * UNIT) by (nonlinear_arith)
        requires
            0 <= coefficient <= UNIT,
            0 <= magnitude,
    ;
    assert((magnitude * coefficient) / (UNIT as int) <= magnitude) by (nonlinear_arith)
        requires
            0 <= magnitude * coefficient <= magnitude * UNIT,
    ;
    assert((magnitude * coefficient) / (UNIT as int) >= 0) by (nonlinear_arith)
        requires
            0 <= magnitude * coefficient,
    ;
    if sample < 0 {
        assert(-(sample * coefficient) == magnitude * coefficient) by (nonlinear_arith)
            requires
                magnitude == -sample,
        ;
        assert(sample * coefficient <= 0) by (nonlinear_arith)
            requires
                sample < 0,
                0 <= coefficient,
        ;
        if sample * coefficient == 0 {
            assert(magnitude * coefficient == 0);
        }
    } else {
        assert(sample * coefficient == magnitude * coefficient);
    }
}

impl Window {
    /// Every coefficient is at most one whole.
    pub open spec fn wf(&self) -> bool {
        forall|i: int| 0 <= i < self@.len() ==> #[trigger] self@[i] <= UNIT
    }

    /// The window of `size` coefficients that leaves every sample as it is.
    pub fn uniform(size: usize) -> (window: Window)
        ensures
            window.wf(),
            window@.len() == size,
            forall|i: int| 0 <= i < size ==> #[trigger] window@[i] == UNIT,
    {
        let mut coefficients: Vec<u32> = Vec::new();
        let mut i: usize = 0;
        while i < size
            invariant
                i <= size,
                coefficients@.len() == i,
                forall|k: int| 0 <= k < i ==> #[trigger] coefficients@[k] == UNIT,
            decreases size - i,
        {
            coefficients.push(UNIT as u32);
            i += 1;
        }
        Window { coefficients }
    }

    /// The window of the given coefficients, which are refused if one of
    /// them is above one whole.
    pub fn from_coefficients(coefficients: Vec<u32>) -> (result: Result<Window, DspErr>)
        ensures
            result is Err <==> exists|i: int|
                0 <= i < coefficients@.len() && #[trigger] coefficients@[i] > UNIT,
            result matches Ok(window) ==> window.wf() && window@ == coefficients@,
            result matches Err(err) ==> err@ == COEFFICIENT_ERROR@,
    {
        let mut i: usize = 0;
        while i < coefficients.len()
            invariant
                i <= coefficients@.len(),
                forall|k: int| 0 <= k < i ==> #[trigger] coefficients@[k] <= UNIT,
            decreases coefficients@.len() - i,
        {
            if coefficients[i] > UNIT as u32 {
                return Err(DspErr::new(COEFFICIENT_ERROR));
            }
            i += 1;
        }
        Ok(Window { coefficients })
    }

    /// The number of coefficients.
    pub fn len(&self) -> (len: usize)
        ensures
            len == self@.len(),
    {
        self.coefficients.len()
    }

    /// The coefficient at position `i`.
    pub fn coefficient(&self, i: usize) -> (coefficient: u32)
        requires
            i < self@.len(),
        ensures
            coefficient == self@[i as int],
    {
        self.coefficients[i]
    }

    /// One sample scaled by the coefficient at position `i`.
    pub fn weigh(&self, sample: i32, i: usize) -> (scaled: i32)
        requires
            self.wf(),
            i < self@.len(),
        ensures
            scaled == windowed(sample as int, self@[i as int] as int),
    {
        let coefficient: i64 = self.coefficients[i] as i64;
        proof {
            lemma_windowed_is_no_larger(sample as int, coefficient as int);
            assert(-0x8000_0000 * UNIT <= (sample as int) * (coefficient as int) <= 0x8000_0000
                * UNIT) by (nonlinear_arith)
                requires
                    -0x8000_0000 <= sample as int <= 0x8000_0000,
                    0 <= coefficient as int <= UNIT,
            ;
        }
        let product: i64 = (sample as i64) * coefficient;
        (product / (UNIT as i64)) as i32
    }

    /// Scales each sample of `frame` by the coefficient at its position.
    pub fn apply(&self, frame: &mut [i32])
        requires
            self.wf(),
            old(frame)@.len() == self@.len(),
        ensures
            final(frame)@.len() == old(frame)@.len(),
            forall|i: int|
                0 <= i < final(frame)@.len() ==> #[trigger] final(frame)@[i] == windowed(
                    old(frame)@[i] as int,
                    self@[i] as int,
                ),
    {
        let len: usize = frame.len();
        let mut i: usize = 0;
        while i < len
            invariant
                i <= len,
                self.wf(),
                len == frame@.len(),
                len == old(frame)@.len(),
                len == self@.len(),
                forall|k: int|
                    0 <= k < i ==> #[trigger] frame@[k] == windowed(
                        old(frame)@[k] as int,
                        self@[k] as int,
                    ),
                forall|k: int| i <= k < len ==> #[trigger] frame@[k] == old(frame)@[k],
            decreases len - i,
        {
            let weighed = self.weigh(frame[i], i);
            frame[i] = weighed;
            i += 1;
        }
    }
}

impl WindowType {
    /// Why no window of `size` coefficients of this type is made of the
    /// coefficients `shape`, if none is: the uniform window needs no shape,
    /// the other windows need one of the size asked for that has no
    /// coefficient above one whole.
    pub open spec fn refusal(self, size: int, shape: Seq<u32>) -> Option<Seq<char>> {
        if self is Uniform {
            None
        } else if shape.len() != size {
            Some(WINDOW_ERROR@)
        } else if exists|i: int| 0 <= i < shape.len() && #[trigger] shape[i] > UNIT {
            Some(COEFFICIENT_ERROR@)
        } else {
            None
        }
    }

    /// The window of `size` coefficients of this type: as many coefficients
    /// as asked for, each between zero and one whole.
    ///
    /// The uniform window is one whole everywhere. The other windows are
    /// made of `shape`, their coefficients in parts per billion, which is
    /// refused where it is not such a window.
    pub fn build_window(&self, size: usize, shape: Vec<u32>) -> (result: Result<Window, DspErr>)
        ensures
            match result {
                Ok(window) => {
                    &&& self.refusal(size as int, shape@) is None
                    &&& window.wf()
                    &&& window@.len() == size
                    &&& self is Uniform ==> forall|i: int|
                        0 <= i < size ==> #[trigger] window@[i] == UNIT
                    &&& !(self is Uniform) ==> window@ == shape@
                },
                Err(err) => self.refusal(size as int, shape@) == Some(err@),
            },
    {
        match self {
            WindowType::Uniform => Ok(Window::uniform(size)),
            _ => {
                if shape.len() != size {
                    return Err(DspErr::new(WINDOW_ERROR));
                }
                Window::from_coefficients(shape)
            },
        }
    }
}

/// How the samples that lie before the first and after the last sample of
/// the stream are made up.
#[derive(Debug, Clone, Copy, PartialEq, Eq, Structural)]
pub enum SidePaddingType {
    Zeros,
    SmoothRamp,
    Loop,
}

/// A name that is no side padding type.
#[derive(Debug, Clone, Copy)]
pub struct SidePaddingTypeParseError;

impl SidePaddingTypeParseError {
    /// The message to show for this error.
    pub fn message(&self) -> (msg: String)
        ensures
            msg@ == "Invalid side padding type"@,
    {
        String::from_str("Invalid side padding type")
    }
}

pub const ZEROS: &'static str = "zeros";

pub const RAMP: &'static str = "ramp";

pub const LOOP: &'static str = "loop";

pub const PADDING_HELP_TEXT: &'static str =
    "How to fill the missing samples for the firsts and lasts sample windows
    \tzeros : fill with zeros samples
    \tramp : small linear ramp to match the last/next sample
    \tloop : loop the end to the beginning and vice-versa\n";

impl SidePaddingType {
    /// The name that selects this side padding type.
    pub open spec fn name(self) -> Seq<char> {
        match self {
            SidePaddingType::Zeros => ZEROS@,
            SidePaddingType::SmoothRamp => RAMP@,
            SidePaddingType::Loop => LOOP@,
        }
    }

    /// The side padding type that `name` selects.
    pub fn parse(name: &str) -> (result: Result<Self, SidePaddingTypeParseError>)
        ensures
            match result {
                Ok(padding_type) => name@ == padding_type.name(),
                Err(_) => forall|padding_type: SidePaddingType| name@ != padding_type.name(),
            },
    {
        if str_equal(name, ZEROS) {
            Ok(Self::Zeros)
        } else if str_equal(name, RAMP) {
            Ok(Self::SmoothRamp)
        } else if str_equal(name, LOOP) {
            Ok(Self::Loop)
        } else {
            Err(SidePaddingTypeParseError)
        }
    }

    /// The names that [`SidePaddingType::parse`] accepts.
    pub fn possible_values() -> (values: &'static [&'static str])
        ensures
            values@.len() == 3,
            values@[0]@ == ZEROS@,
            values@[1]@ == RAMP@,
            values@[2]@ == LOOP@,
    {
        &[ZEROS, RAMP, LOOP]
    }

    /// The name of the side padding type used when none is asked for.
    pub fn default() -> (name: &'static str)
        ensures
            name@ == SidePaddingType::Zeros.name(),
    {
        ZEROS
    }
}

/// The names of the side padding types differ, so a name selects at most one.
pub proof fn lemma_padding_names_differ(a: SidePaddingType, b: SidePaddingType)
    ensures
        a.name() == b.name() ==> a == b,
{
    reveal_strlit("zeros");
    reveal_strlit("ramp");
    reveal_strlit("loop");
    if a != b {
        assert(ZEROS@.len() == 5 && RAMP@.len() == 4 && LOOP@.len() == 4);
        assert(RAMP@[0] == 'r' && LOOP@[0] == 'l');
    }
}

/// The message of the error for loop padding that did not get the frames of
/// the stream it repeats.
pub const LOOP_DATA_ERROR: &'static str =
    "Loop padding needs the first and the last frames of the stream";

/// The samples that stand in for what lies outside the stream, per channel
/// and per side.
pub struct SidePadding {
    padding_type: SidePaddingType,
    padding_left: Vec<Vec<i32>>,
    padding_right: Vec<Vec<i32>>,
    max_padding_right: usize,
    max_padding_left: usize,
}

/// What a [`SidePadding`] stands for: its policy and, for each channel, the
/// buffer kept for each side.
pub ghost struct SidePaddingView {
    pub padding_type: SidePaddingType,
    pub left: Seq<Seq<i32>>,
    pub right: Seq<Seq<i32>>,
    pub max_left: int,
    pub max_right: int,
}

impl SidePaddingView {
    /// Both sides have one buffer per channel, each of the size of its side.
    pub open spec fn wf(self) -> bool {
        &&& self.left.len() == self.right.len()
        &&& 0 <= self.max_left
        &&& 0 <= self.max_right
        &&& forall|c: int| 0 <= c < self.left.len() ==> (#[trigger] self.left[c]).len() == self.max_left
        &&& forall|c: int|
            0 <= c < self.right.len() ==> (#[trigger] self.right[c]).len() == self.max_right
    }

    /// The number of channels.
    pub open spec fn channels(self) -> int {
        self.left.len() as int
    }

    /// Whether this is the padding of the given type and sizes: zeros, or
    /// for loop padding the frames of `head` after the stream and those of
    /// `tail` before it, each channel apart.
    pub open spec fn built_from(
        self,
        padding_type: SidePaddingType,
        channels: int,
        max_left: int,
        max_right: int,
        head: Seq<i32>,
        tail: Seq<i32>,
    ) -> bool {
        &&& self.wf()
        &&& self.padding_type == padding_type
        &&& self.channels() == channels
        &&& self.max_left == max_left
        &&& self.max_right == max_right
        &&& forall|c: int, f: int|
            0 <= c < channels && 0 <= f < max_left ==> #[trigger] self.left[c][f] == (
            if padding_type is Loop {
                tail[f * channels + c]
            } else {
                0i32
            })
        &&& forall|c: int, f: int|
            0 <= c < channels && 0 <= f < max_right ==> #[trigger] self.right[c][f] == (
            if padding_type is Loop {
                head[f * channels + c]
            } else {
                0i32
            })
    }

    /// The number of samples over which a ramp rises or falls in a fill of
    /// `len` samples.
    pub open spec fn ramp_size(self, len: int) -> int {
        if len <= self.max_left / 64 {
            len
        } else {
            self.max_left / 64
        }
    }

    /// Sample `i` of a fill of `len` samples before the stream, whose first
    /// real sample is `next_sample`.
    ///
    /// A ramp is zero until its last `ramp_size` samples, which rise in equal
    /// steps from zero toward `next_sample`. The other policies take the end
    /// of the buffer kept for the left side.
    pub open spec fn left_sample(self, channel: int, len: int, next_sample: int, i: int) -> int {
        if self.padding_type is SmoothRamp {
            let ramp = self.ramp_size(len);
            if i < len - ramp {
                0
            } else {
                div_toward_zero((i - (len - ramp)) * next_sample, ramp)
            }
        } else {
            self.left[channel][self.max_left - len + i] as int
        }
    }

    /// Sample `i` of a fill of `len` samples after the stream, whose last
    /// real sample is `prev_sample`.
    ///
    /// A ramp mirrors the one of the left side: its first `ramp_size` samples
    /// fall in equal steps from `prev_sample` toward zero, which the last of
    /// them reaches, and the rest is zero. The other policies take the start
    /// of the buffer kept for the right side.
    pub open spec fn right_sample(self, channel: int, len: int, prev_sample: int, i: int) -> int {
        if self.padding_type is SmoothRamp {
            let ramp = self.ramp_size(len);
            if i < ramp {
                div_toward_zero((ramp - 1 - i) * prev_sample, ramp)
            } else {
                0
            }
        } else {
            self.right[channel][i] as int
        }
    }
}

/// One step of a ramp of `ramp` steps toward `target` lies between zero and
/// `target`.
pub proof fn lemma_ramp_step_in_range(step: int, ramp: int, target: int)
    requires
        0 <= step < ramp,
    ensures
        target >= 0 ==> 0 <= div_toward_zero(step * target, ramp) <= target,
        target <= 0 ==> target <= div_toward_zero(step * target, ramp) <= 0,
{
    let magnitude = if target >= 0 {
        target
    } else {
        -target
    };
    assert(0 <= step * magnitude <= ramp * magnitude) by (nonlinear_arith)
        requires
            0 <= step < ramp,
            0 <= magnitude,
    ;
    assert(0 <= (step * magnitude) / ramp <= magnitude) by (nonlinear_arith)
        requires
            0 <= step * magnitude <= ramp * magnitude,
            0 < ramp,
    ;
    if target < 0 {
        assert(-(step * target) == step * magnitude) by (nonlinear_arith)
            requires
                magnitude == -target,
        ;
        assert(step * target <= 0) by (nonlinear_arith)
            requires
                target < 0,
                0 <= step,
        ;
    } else {
        assert(step * target == step * magnitude);
    }
}

impl View for SidePadding {
    type V = SidePaddingView;

    closed spec fn view(&self) -> SidePaddingView {
        SidePaddingView {
            padding_type: self.padding_type,
            left: Seq::new(self.padding_left@.len(), |c: int| self.padding_left@[c]@),
            right: Seq::new(self.padding_right@.len(), |c: int| self.padding_right@[c]@),
            max_left: self.max_padding_left as int,
            max_right: self.max_padding_right as int,
        }
    }
}

/// `len` zeros.
fn zeros(len: usize) -> (samples: Vec<i32>)
    ensures
        samples@.len() == len,
        forall|i: int| 0 <= i < len ==> #[trigger] samples@[i] == 0,
{
    let mut samples: Vec<i32> = Vec::new();
    let mut i: usize = 0;
    while i < len
        invariant
            i <= len,
            samples@.len() == i,
            forall|k: int| 0 <= k < i ==> #[trigger] samples@[k] == 0,
        decreases len - i,
    {
        samples.push(0i32);
        i += 1;
    }
    samples
}

/// One buffer of `len` zeros for each of `channels` channels.
pub(crate) fn zero_channels(channels: usize, len: usize) -> (buffers: Vec<Vec<i32>>)
    ensures
        buffers@.len() == channels,
        forall|c: int| 0 <= c < channels ==> (#[trigger] buffers@[c])@.len() == len,
        forall|c: int, i: int| 0 <= c < channels && 0 <= i < len ==> #[trigger] buffers@[c]@[i] == 0,
{
    let mut buffers: Vec<Vec<i32>> = Vec::new();
    let mut c: usize = 0;
    while c < channels
        invariant
            c <= channels,
            buffers@.len() == c,
            forall|k: int| 0 <= k < c ==> (#[trigger] buffers@[k])@.len() == len,
            forall|k: int, i: int| 0 <= k < c && 0 <= i < len ==> #[trigger] buffers@[k]@[i] == 0,
        decreases channels - c,
    {
        buffers.push(zeros(len));
        c += 1;
    }
    buffers
}

/// Whether `len` samples are exactly `frames` frames of `channels` channels.
fn holds_frames(len: usize, channels: usize, frames: usize) -> (exact: bool)
    ensures
        exact <==> len == channels * frames,
{
    match channels.checked_mul(frames) {
        Some(samples) => samples == len,
        None => false,
    }
}

impl SidePadding {
    /// Whether the padding meets its invariant.
    pub open spec fn wf(&self) -> bool {
        self@.wf()
    }

    /// Whether padding of this type, for `channels` channels and with sides
    /// of `max_left` and `max_right` samples, can be built from the `head`
    /// and `tail` samples given: loop padding needs the first `max_right` and
    /// the last `max_left` frames of the stream, the other policies nothing.
    pub open spec fn accepts(
        padding_type: SidePaddingType,
        channels: int,
        max_left: int,
        max_right: int,
        head: int,
        tail: int,
    ) -> bool {
        padding_type is Loop ==> head == channels * max_right && tail == channels * max_left
    }

    /// Builds the padding for `channels` channels, with room for fills of up
    /// to `max_padding_left` samples before the stream and up to
    /// `max_padding_right` samples after it.
    ///
    /// Loop padding repeats the stream: `head` holds its first
    /// `max_padding_right` frames, interleaved, which follow its end, and
    /// `tail` its last `max_padding_left` frames, which precede its start.
    /// The other policies keep zeros and do not read `head` and `tail`.
    pub fn new(
        padding_type: SidePaddingType,
        channels: usize,
        max_padding_left: usize,
        max_padding_right: usize,
        head: &[i32],
        tail: &[i32],
    ) -> (result: Result<Self, DspErr>)
        ensures
            result is Ok <==> Self::accepts(
                padding_type,
                channels as int,
                max_padding_left as int,
                max_padding_right as int,
                head@.len() as int,
                tail@.len() as int,
            ),
            result matches Err(err) ==> err@ == LOOP_DATA_ERROR@,
            result matches Ok(padding) ==> padding@.built_from(
                padding_type,
                channels as int,
                max_padding_left as int,
                max_padding_right as int,
                head@,
                tail@,
            ),
    {
        let looped = match padding_type {
            SidePaddingType::Loop => true,
            _ => false,
        };
        if looped && (!holds_frames(head.len(), channels, max_padding_right) || !holds_frames(
            tail.len(),
            channels,
            max_padding_left,
        )) {
            return Err(DspErr::new(LOOP_DATA_ERROR));
        }
        let mut padding_left = zero_channels(channels, max_padding_left);
        let mut padding_right = zero_channels(channels, max_padding_right);
        if looped && channels > 0 {
            proof {
                assert((channels * max_padding_right) / (channels as int) == max_padding_right)
                    by (nonlinear_arith)
                    requires
                        channels > 0,
                ;
                assert((channels * max_padding_left) / (channels as int) == max_padding_left)
                    by (nonlinear_arith)
                    requires
                        channels > 0,
                ;
            }
            deinterleave_vec(channels, head, padding_right.as_mut_slice());
            deinterleave_vec(channels, tail, padding_left.as_mut_slice());
        }
        let padding = Self {
            padding_type,
            padding_left,
            padding_right,
            max_padding_right,
            max_padding_left,
        };
        proof {
            assert forall|c: int, f: int|
                0 <= c < channels && 0 <= f < max_padding_left implies #[trigger] padding@.left[c][f]
                == (if padding_type is Loop {
                tail@[f * channels + c]
            } else {
                0i32
            }) by {
                assert(padding@.left[c][f] == padding_left@[c]@[f]);
            }
            assert forall|c: int, f: int|
                0 <= c < channels && 0 <= f < max_padding_right implies #[trigger] padding@.right[c][f]
                == (if padding_type is Loop {
                head@[f * channels + c]
            } else {
                0i32
            }) by {
                assert(padding@.right[c][f] == padding_right@[c]@[f]);
            }
        }
        Ok(padding)
    }

    /// The number of channels.
    pub fn channels(&self) -> (channels: usize)
        ensures
            channels == self@.channels(),
    {
        self.padding_left.len()
    }

    /// The longest fill that can be asked for before the stream.
    pub fn left_side_offset(&self) -> (max_left: usize)
        ensures
            max_left == self@.max_left,
    {
        self.max_padding_left
    }

    /// The longest fill that can be asked for after the stream.
    pub fn right_side_offset(&self) -> (max_right: usize)
        ensures
            max_right == self@.max_right,
    {
        self.max_padding_right
    }

    /// The number of samples of a ramp in a fill of `len` samples.
    fn ramp_len(&self, len: usize) -> (ramp: usize)
        ensures
            ramp == self@.ramp_size(len as int),
    {
        let longest: usize = self.max_padding_left / 64;
        if len <= longest {
            len
        } else {
            longest
        }
    }

    /// One step of a ramp: `step * target / ramp`, rounded toward zero.
    fn ramp_step(step: usize, ramp: usize, target: i32) -> (value: i32)
        requires
            step < ramp,
        ensures
            value == div_toward_zero(step * target, ramp as int),
    {
        proof {
            lemma_ramp_step_in_range(step as int, ramp as int, target as int);
            assert(-0x8000_0000 * 0x1_0000_0000_0000_0000 <= (step as int) * (target as int)
                <= 0x8000_0000 * 0x1_0000_0000_0000_0000) by (nonlinear_arith)
                requires
                    0 <= step as int <= 0x1_0000_0000_0000_0000,
                    -0x8000_0000 <= target as int <= 0x8000_0000,
            ;
        }
        let product: i128 = (step as i128) * (target as i128);
        (product / (ramp as i128)) as i32
    }

    /// Fills `content`, the samples of a frame that lie before the stream,
    /// from the first real sample `next_sample` of channel `channel`.
    ///
    /// A request must not be longer than the left side was built for: see
    /// [`SidePadding::left_side_offset`].
    pub fn pad_left(&self, content: &mut [i32], next_sample: i32, channel: usize)
        requires
            self.wf(),
            channel < self@.channels(),
            old(content)@.len() <= self@.max_left,
        ensures
            final(content)@.len() == old(content)@.len(),
            forall|i: int|
                0 <= i < final(content)@.len() ==> #[trigger] final(content)@[i]
                    == self@.left_sample(
                    channel as int,
                    old(content)@.len() as int,
                    next_sample as int,
                    i,
                ),
    {
        let len: usize = content.len();
        match self.padding_type {
            SidePaddingType::SmoothRamp => {
                let ramp_size = self.ramp_len(len);
                let start_idx: usize = len - ramp_size;
                let mut i: usize = 0;
                while i < len
                    invariant
                        i <= len,
                        len == content@.len(),
                        len == old(content)@.len(),
                        self@.padding_type is SmoothRamp,
                        ramp_size == self@.ramp_size(len as int),
                        start_idx == len - ramp_size,
                        forall|k: int|
                            0 <= k < i ==> #[trigger] content@[k] == self@.left_sample(
                                channel as int,
                                len as int,
                                next_sample as int,
                                k,
                            ),
                    decreases len - i,
                {
                    if i < start_idx {
                        content[i] = 0;
                    } else {
                        content[i] = Self::ramp_step(i - start_idx, ramp_size, next_sample);
                    }
                    i += 1;
                }
            },
            _ => {
                let start: usize = self.max_padding_left - len;
                let mut i: usize = 0;
                while i < len
                    invariant
                        i <= len,
                        len == content@.len(),
                        len == old(content)@.len(),
                        self.wf(),
                        channel < self@.channels(),
                        !(self@.padding_type is SmoothRamp),
                        start == self@.max_left - len,
                        forall|k: int|
                            0 <= k < i ==> #[trigger] content@[k] == self@.left_sample(
                                channel as int,
                                len as int,
                                next_sample as int,
                                k,
                            ),
                    decreases len - i,
                {
                    proof {
                        assert(self@.left[channel as int].len() == self@.max_left);
                    }
                    content[i] = self.padding_left[channel][start + i];
                    i += 1;
                }
            },
        }
    }

    /// Fills `content`, the samples of a frame that lie after the stream,
    /// from the last real sample `prev_sample` of channel `channel`.
    ///
    /// A request must not be longer than the right side was built for: see
    /// [`SidePadding::right_side_offset`].
    pub fn pad_right(&self, content: &mut [i32], prev_sample: i32, channel: usize)
        requires
            self.wf(),
            channel < self@.channels(),
            old(content)@.len() <= self@.max_right,
        ensures
            final(content)@.len() == old(content)@.len(),
            forall|i: int|
                0 <= i < final(content)@.len() ==> #[trigger] final(content)@[i]
                    == self@.right_sample(
                    channel as int,
                    old(content)@.len() as int,
                    prev_sample as int,
                    i,
                ),
    {
        let len: usize = content.len();
        match self.padding_type {
            SidePaddingType::SmoothRamp => {
                let ramp_size = self.ramp_len(len);
                let mut i: usize = 0;
                while i < len
                    invariant
                        i <= len,
                        len == content@.len(),
                        len == old(content)@.len(),
                        self@.padding_type is SmoothRamp,
                        ramp_size == self@.ramp_size(len as int),
                        ramp_size <= len,
                        forall|k: int|
                            0 <= k < i ==> #[trigger] content@[k] == self@.right_sample(
                                channel as int,
                                len as int,
                                prev_sample as int,
                                k,
                            ),
                    decreases len - i,
                {
                    if i < ramp_size {
                        content[i] = Self::ramp_step(ramp_size - 1 - i, ramp_size, prev_sample);
                    } else {
                        content[i] = 0;
                    }
                    i += 1;
                }
            },
            _ => {
                let mut i: usize = 0;
                while i < len
                    invariant
                        i <= len,
                        len == content@.len(),
                        len == old(content)@.len(),
                        len <= self@.max_right,
                        self.wf(),
                        channel < self@.channels(),
                        !(self@.padding_type is SmoothRamp),
                        forall|k: int|
                            0 <= k < i ==> #[trigger] content@[k] == self@.right_sample(
                                channel as int,
                                len as int,
                                prev_sample as int,
                                k,
                            ),
                    decreases len - i,
                {
                    proof {
                        assert(self@.right[channel as int].len() == self@.max_right);
                    }
                    content[i] = self.padding_right[channel][i];
                    i += 1;
                }
            },
        }
    }
}

} // verus!
