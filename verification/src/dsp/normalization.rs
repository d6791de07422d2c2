//! Peak normalization: the divisor that brings the loudest sample of a file
//! to full scale.

use crate::dsp::data::DspErr;
use crate::utils::div_toward_zero;
use rayon::iter::{IntoParallelRefIterator, ParallelIterator};
use vstd::prelude::*;

verus! {

/// `val`, with the one sample that has no opposite moved next to it.
pub open spec fn clamped(val: i32) -> int {
    if val == i32::MIN {
        i32::MIN + 1
    } else {
        val as int
    }
}

/// The absolute value of the clamped sample: never above `i32::MAX`.
pub open spec fn magnitude(val: i32) -> int {
    if clamped(val) < 0 {
        -clamped(val)
    } else {
        clamped(val)
    }
}

/// The greatest magnitude among `samples`; zero where there is none.
pub open spec fn peak_amplitude(samples: Seq<i32>) -> int
    decreases samples.len(),
{
    if samples.len() == 0 {
        0
    } else {
        let rest = peak_amplitude(samples.drop_last());
        if magnitude(samples.last()) > rest {
            magnitude(samples.last())
        } else {
            rest
        }
    }
}

/// The message of the error for a divisor that is not positive.
pub const DIVISOR_ERROR: &'static str = "A normalization divisor should be positive";

/// The denominator of the smallest positive divisor: two to the power of 52,
/// whose inverse is the machine epsilon of a double-precision number.
pub const EPSILON_DENOMINATOR: u64 = 4_503_599_627_370_496;

/// A normalization divisor: the positive ratio `numerator / denominator`.
#[derive(Debug, Clone, Copy)]
pub struct Norm {
    numerator: u64,
    denominator: u64,
}

/// What a [`Norm`] stands for: the two terms of its ratio.
pub ghost struct NormView {
    pub numerator: int,
    pub denominator: int,
}

impl NormView {
    /// Both terms are positive: a divisor is never zero.
    pub open spec fn wf(self) -> bool {
        &&& 0 < self.numerator <= u64::MAX
        &&& 0 < self.denominator <= u64::MAX
    }

    /// The divisor of a signal of peak amplitude `peak`: the peak over full
    /// scale, and for a silent signal the machine epsilon in place of zero.
    pub open spec fn of_peak(peak: int) -> NormView {
        if peak <= 0 {
            NormView { numerator: 1, denominator: EPSILON_DENOMINATOR as int }
        } else {
            NormView { numerator: peak, denominator: i32::MAX as int }
        }
    }

    /// `sample` divided by the divisor, rounded toward zero and kept inside
    /// the range of a sample.
    pub open spec fn normalized(self, sample: int) -> int {
        let scaled = div_toward_zero(sample * self.denominator, self.numerator);
        if scaled > i32::MAX {
            i32::MAX as int
        } else if scaled < i32::MIN {
            i32::MIN as int
        } else {
            scaled
        }
    }
}

impl View for Norm {
    type V = NormView;

    closed spec fn view(&self) -> NormView {
        NormView { numerator: self.numerator as int, denominator: self.denominator as int }
    }
}

impl Norm {
    /// Whether the divisor is positive.
    pub open spec fn wf(&self) -> bool {
        self@.wf()
    }

    /// The divisor `numerator / denominator`. A term of zero is refused.
    pub fn new(numerator: u64, denominator: u64) -> (result: Result<Norm, DspErr>)
        ensures
            result is Err <==> numerator == 0 || denominator == 0,
            result matches Err(err) ==> err@ == DIVISOR_ERROR@,
            result matches Ok(norm) ==> norm.wf() && norm@ == (NormView {
                numerator: numerator as int,
                denominator: denominator as int,
            }),
    {
        if numerator == 0 || denominator == 0 {
            return Err(DspErr::new(DIVISOR_ERROR));
        }
        Ok(Norm { numerator, denominator })
    }

    /// The numerator of the divisor.
    pub fn numerator(&self) -> (numerator: u64)
        ensures
            numerator == self@.numerator,
    {
        self.numerator
    }

    /// The denominator of the divisor.
    pub fn denominator(&self) -> (denominator: u64)
        ensures
            denominator == self@.denominator,
    {
        self.denominator
    }

    /// Whether the divisor is the machine epsilon, which stands for a silent
    /// signal.
    pub fn is_epsilon(&self) -> (silent: bool)
        ensures
            silent <==> self@ == NormView::of_peak(0),
    {
        self.numerator == 1 && self.denominator == EPSILON_DENOMINATOR
    }

    /// Divides `sample` by the divisor, rounds toward zero and keeps the
    /// result inside the range of a sample.
    pub fn apply(&self, sample: i32) -> (scaled: i32)
        requires
            self.wf(),
        ensures
            scaled == self@.normalized(sample as int),
    {
        proof {
            assert(-0x8000_0000 * 0x1_0000_0000_0000_0000 <= (sample as int)
                * (self.denominator as int) <= 0x8000_0000 * 0x1_0000_0000_0000_0000)
                by (nonlinear_arith)
                requires
                    -0x8000_0000 <= sample as int <= 0x8000_0000,
                    0 <= self.denominator as int <= 0x1_0000_0000_0000_0000,
            ;
        }
        let product: i128 = (sample as i128) * (self.denominator as i128);
        let scaled: i128 = product / (self.numerator as i128);
        if scaled > i32::MAX as i128 {
            i32::MAX
        } else if scaled < i32::MIN as i128 {
            i32::MIN
        } else {
            scaled as i32
        }
    }
}

/// Maps the one sample whose opposite does not fit to its neighbour.
fn clamp(val: &i32) -> (clamped_val: i32)
    ensures
        clamped_val == clamped(*val),
{
    if *val == i32::MIN {
        i32::MIN + 1i32
    } else {
        *val
    }
}

/// The magnitude of one sample. No sample makes it overflow.
pub fn magnitude_of(val: &i32) -> (size: i32)
    ensures
        size == magnitude(*val),
{
    let clamped_val = clamp(val);
    if clamped_val < 0 {
        -clamped_val
    } else {
        clamped_val
    }
}

/// The greatest magnitude of `data`, computed in parallel by `rayon`:
/// `par_iter` hands out the samples, `map` takes the magnitude of each through
/// [`magnitude_of`] and `max` reduces them. As `max` documents, an empty input
/// gives `None` and any other input the greatest item: one that is the
/// magnitude of some sample and that no other magnitude exceeds.
#[verifier::external_body]
fn par_max_magnitude(data: &[i32]) -> (max: Option<i32>)
    ensures
        max is None <==> data@.len() == 0,
        max matches Some(m) ==> {
            &&& exists|i: int| 0 <= i < data@.len() && m == magnitude(#[trigger] data@[i])
            &&& forall|i: int| 0 <= i < data@.len() ==> magnitude(#[trigger] data@[i]) <= m
        },
{
    data.par_iter().map(|val| magnitude_of(val)).max()
}

/// The peak of a sequence is the magnitude of one of its samples and bounds
/// the magnitude of all of them.
pub proof fn lemma_peak_amplitude_is_greatest(samples: Seq<i32>)
    ensures
        0 <= peak_amplitude(samples) <= i32::MAX,
        forall|i: int|
            0 <= i < samples.len() ==> magnitude(#[trigger] samples[i]) <= peak_amplitude(samples),
        samples.len() > 0 ==> exists|i: int|
            0 <= i < samples.len() && peak_amplitude(samples) == magnitude(#[trigger] samples[i]),
    decreases samples.len(),
{
    if samples.len() > 0 {
        let rest = samples.drop_last();
        lemma_peak_amplitude_is_greatest(rest);
        assert forall|i: int| 0 <= i < samples.len() implies magnitude(#[trigger] samples[i])
            <= peak_amplitude(samples) by {
            if i < rest.len() {
                assert(samples[i] == rest[i]);
            }
        }
        if magnitude(samples.last()) > peak_amplitude(rest) || rest.len() == 0 {
            assert(peak_amplitude(samples) == magnitude(samples[samples.len() - 1]));
        } else {
            let i = choose|i: int|
                0 <= i < rest.len() && peak_amplitude(rest) == magnitude(#[trigger] rest[i]);
            assert(samples[i] == rest[i]);
        }
    }
}

/// The normalization divisor of a whole file, given as all of its samples.
///
/// The divisor is the peak amplitude over full scale. A silent file, and an
/// empty one, get the machine epsilon in place of zero.
pub fn compute_norm(data: &[i32]) -> (norm: Norm)
    ensures
        norm.wf(),
        norm@ == NormView::of_peak(peak_amplitude(data@)),
        norm@ == NormView::of_peak(0) <==> forall|i: int|
            0 <= i < data@.len() ==> #[trigger] data@[i] == 0,
{
    let max = match par_max_magnitude(data) {
        Some(max) => max,
        None => 0i32,
    };
    proof {
        lemma_peak_amplitude_is_greatest(data@);
        if peak_amplitude(data@) == 0 {
            assert forall|i: int| 0 <= i < data@.len() implies #[trigger] data@[i] == 0 by {
                assert(magnitude(data@[i]) <= 0);
            }
        }
    }
    if max <= 0i32 {
        return Norm { numerator: 1, denominator: EPSILON_DENOMINATOR };
    }
    Norm { numerator: max as u64, denominator: i32::MAX as u64 }
}

} // verus!
