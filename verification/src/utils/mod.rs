//! Helpers shared by the transforms and by the interface state.

pub mod bindings;
pub mod zoom;

pub use zoom::{scale, scaled, Zoom, ZoomError, ZoomOp, ZoomView, UNIT};

use vstd::prelude::*;
use vstd::string::StrSliceExecFns;

verus! {

/// `dividend / divisor`, rounded toward zero.
pub open spec fn div_toward_zero(dividend: int, divisor: int) -> int {
    if dividend >= 0 {
        dividend / divisor
    } else {
        -((-dividend) / divisor)
    }
}

/// Whether two strings hold the same characters.
pub fn str_equal(a: &str, b: &str) -> (equal: bool)
    ensures
        equal <==> a@ == b@,
{
    let len = a.unicode_len();
    if len != b.unicode_len() {
        return false;
    }
    let mut i: usize = 0;
    while i < len
        invariant
            len == a@.len(),
            len == b@.len(),
            i <= len,
            forall|k: int| 0 <= k < i ==> a@[k] == b@[k],
        decreases len - i,
    {
        if a.get_char(i) != b.get_char(i) {
            return false;
        }
        i += 1;
    }
    proof {
        assert(a@ =~= b@);
    }
    true
}

/// The number of whole frames that `len` interleaved samples of `channels`
/// channels hold.
pub open spec fn whole_frames(len: int, channels: int) -> int {
    len / channels
}

/// What position `frame` of channel `channel` holds once `src` was written
/// over `before`: sample `channel` of frame `frame` where `src` has that
/// frame, and what was there before elsewhere.
pub open spec fn deinterleaved_sample<T>(
    channels: int,
    src: Seq<T>,
    before: Seq<T>,
    channel: int,
    frame: int,
) -> T {
    if channel < channels && frame < whole_frames(src.len() as int, channels) {
        src[frame * channels + channel]
    } else {
        before[frame]
    }
}

/// Sample `channel` of frame `frame` lies inside the whole frames of the
/// interleaved data.
pub proof fn lemma_interleaved_index(len: int, channels: int, frame: int, channel: int)
    requires
        0 < channels,
        0 <= len,
        0 <= channel < channels,
        0 <= frame < whole_frames(len, channels),
    ensures
        0 <= frame * channels + channel < len,
        (frame + 1) * channels <= len,
{
    assert(frame * channels >= 0) by (nonlinear_arith)
        requires
            frame >= 0,
            channels > 0,
    ;
    assert((frame + 1) * channels <= (len / channels) * channels) by (nonlinear_arith)
        requires
            frame + 1 <= len / channels,
            channels > 0,
    ;
    assert((len / channels) * channels <= len) by (nonlinear_arith)
        requires
            channels > 0,
            len >= 0,
    ;
    assert((frame + 1) * channels == frame * channels + channels) by (nonlinear_arith);
}

/// Splits interleaved samples into one vector per channel.
///
/// Frame `f` of `src` is its samples `f * channels .. (f + 1) * channels`, one
/// per channel; sample `c` of it goes to position `f` of `dst[c]`. Samples
/// after the last whole frame are left out, and so is everything in `dst`
/// that no sample goes to.
pub fn deinterleave_vec<T: Copy>(channels: usize, src: &[T], dst: &mut [Vec<T>])
    requires
        channels > 0,
        channels <= old(dst)@.len(),
        forall|c: int|
            0 <= c < channels ==> (#[trigger] old(dst)@[c]).len() >= whole_frames(
                src@.len() as int,
                channels as int,
            ),
    ensures
        final(dst)@.len() == old(dst)@.len(),
        forall|c: int|
            0 <= c < final(dst)@.len() ==> (#[trigger] final(dst)@[c]).len() == old(dst)@[c].len(),
        forall|c: int, f: int|
            0 <= c < final(dst)@.len() && 0 <= f < final(dst)@[c].len()
                ==> #[trigger] final(dst)@[c]@[f]
                == deinterleaved_sample(channels as int, src@, old(dst)@[c]@, c, f),
{
    let frames: usize = src.len() / channels;
    let mut frame_idx: usize = 0;
    while frame_idx < frames
        invariant
            channels > 0,
            frames == whole_frames(src@.len() as int, channels as int),
            src@.len() <= usize::MAX,
            frame_idx <= frames,
            channels <= dst@.len(),
            dst@.len() == old(dst)@.len(),
            forall|c: int| 0 <= c < dst@.len() ==> (#[trigger] dst@[c]).len() == old(dst)@[c].len(),
            forall|c: int| 0 <= c < channels ==> (#[trigger] old(dst)@[c]).len() >= frames,
            forall|c: int, f: int|
                0 <= c < dst@.len() && 0 <= f < dst@[c].len() ==> #[trigger] dst@[c]@[f] == (if c
                    < channels && f < frame_idx {
                    src@[f * channels + c]
                } else {
                    old(dst)@[c]@[f]
                }),
        decreases frames - frame_idx,
    {
        let mut channel: usize = 0;
        while channel < channels
            invariant
                channels > 0,
                frames == whole_frames(src@.len() as int, channels as int),
                src@.len() <= usize::MAX,
                frame_idx < frames,
                channel <= channels,
                channels <= dst@.len(),
                dst@.len() == old(dst)@.len(),
                forall|c: int|
                    0 <= c < dst@.len() ==> (#[trigger] dst@[c]).len() == old(dst)@[c].len(),
                forall|c: int| 0 <= c < channels ==> (#[trigger] old(dst)@[c]).len() >= frames,
                forall|c: int, f: int|
                    0 <= c < dst@.len() && 0 <= f < dst@[c].len() ==> #[trigger] dst@[c]@[f] == (
                    if c < channels && (f < frame_idx || (f == frame_idx && c < channel)) {
                        src@[f * channels + c]
                    } else {
                        old(dst)@[c]@[f]
                    }),
            decreases channels - channel,
        {
            proof {
                lemma_interleaved_index(
                    src@.len() as int,
                    channels as int,
                    frame_idx as int,
                    channel as int,
                );
                assert(old(dst)@[channel as int].len() >= frames);
            }
            let value = src[frame_idx * channels + channel];
            dst[channel][frame_idx] = value;
            channel += 1;
        }
        frame_idx += 1;
    }
}

/// Splits interleaved samples into one slice per channel, as
/// [`deinterleave_vec`] does for vectors. Each slice of `dst` stays the
/// borrow of what it was borrowed from.
pub fn deinterleave<T: Copy>(channels: usize, src: &[T], dst: &mut [&mut [T]])
    requires
        channels > 0,
        channels <= old(dst)@.len(),
        forall|c: int|
            #![auto]
            0 <= c < channels ==> old(dst)@[c]@.len() >= whole_frames(
                src@.len() as int,
                channels as int,
            ),
    ensures
        final(dst)@.len() == old(dst)@.len(),
        forall|c: int|
            #![auto]
            0 <= c < final(dst)@.len() ==> final(final(dst)@[c])@ == final(old(dst)@[c])@,
        forall|c: int|
            #![auto]
            0 <= c < final(dst)@.len() ==> final(dst)@[c]@.len() == old(dst)@[c]@.len(),
        forall|c: int, f: int|
            #![auto]
            0 <= c < final(dst)@.len() && 0 <= f < final(dst)@[c]@.len()
                ==> final(dst)@[c]@[f]
                == deinterleaved_sample(channels as int, src@, old(dst)@[c]@, c, f),
{
    let frames: usize = src.len() / channels;
    let mut frame_idx: usize = 0;
    while frame_idx < frames
        invariant
            channels > 0,
            frames == whole_frames(src@.len() as int, channels as int),
            src@.len() <= usize::MAX,
            frame_idx <= frames,
            channels <= dst@.len(),
            dst@.len() == old(dst)@.len(),
            forall|c: int|
                #![auto]
                0 <= c < dst@.len() ==> final(dst@[c])@ == final(old(dst)@[c])@,
            forall|c: int|
            #![auto]
            0 <= c < dst@.len() ==> dst@[c]@.len() == old(dst)@[c]@.len(),
            forall|c: int|
            #![auto]
            0 <= c < channels ==> old(dst)@[c]@.len() >= frames,
            forall|c: int, f: int|
            #![auto]
            0 <= c < dst@.len() && 0 <= f < dst@[c]@.len() ==> dst@[c]@[f] == (if c
                    < channels && f < frame_idx {
                    src@[f * channels + c]
                } else {
                    old(dst)@[c]@[f]
                }),
        decreases frames - frame_idx,
    {
        let mut channel: usize = 0;
        while channel < channels
            invariant
                channels > 0,
                frames == whole_frames(src@.len() as int, channels as int),
                src@.len() <= usize::MAX,
                frame_idx < frames,
                channel <= channels,
                channels <= dst@.len(),
                dst@.len() == old(dst)@.len(),
                forall|c: int|
                    #![auto]
                    0 <= c < dst@.len() ==> final(dst@[c])@ == final(old(dst)@[c])@,
                forall|c: int|
            #![auto]
            0 <= c < dst@.len() ==> dst@[c]@.len() == old(dst)@[c]@.len(),
                forall|c: int|
            #![auto]
            0 <= c < channels ==> old(dst)@[c]@.len() >= frames,
                forall|c: int, f: int|
            #![auto]
            0 <= c < dst@.len() && 0 <= f < dst@[c]@.len() ==> dst@[c]@[f] == (
                    if c < channels && (f < frame_idx || (f == frame_idx && c < channel)) {
                        src@[f * channels + c]
                    } else {
                        old(dst)@[c]@[f]
                    }),
            decreases channels - channel,
        {
            proof {
                lemma_interleaved_index(
                    src@.len() as int,
                    channels as int,
                    frame_idx as int,
                    channel as int,
                );
                assert(old(dst)@[channel as int]@.len() >= frames);
            }
            let value = src[frame_idx * channels + channel];
            dst[channel][frame_idx] = value;
            channel += 1;
        }
        frame_idx += 1;
    }
}

/// The tabs of the interface and the one that is shown.
pub struct TabsState<'a> {
    pub titles: Vec<&'a str>,
    pub index: usize,
}

impl<'a> TabsState<'a> {
    /// Tabs with the first one shown.
    pub fn new(titles: Vec<&'a str>) -> (tabs: TabsState<'a>)
        ensures
            tabs.titles == titles,
            tabs.index == 0,
    {
        TabsState { titles, index: 0 }
    }

    /// Shows the tab after the current one; the first tab follows the last.
    pub fn next(&mut self)
        requires
            old(self).titles.len() > 0,
            old(self).index < usize::MAX,
        ensures
            final(self).titles == old(self).titles,
            final(self).index == (old(self).index + 1) % (old(self).titles.len() as int),
    {
        self.index = (self.index + 1) % self.titles.len();
    }

    /// Shows the tab before the current one; the last tab precedes the first.
    pub fn previous(&mut self)
        requires
            old(self).index > 0 || old(self).titles.len() > 0,
        ensures
            final(self).titles == old(self).titles,
            final(self).index == if old(self).index > 0 {
                old(self).index - 1
            } else {
                old(self).titles.len() - 1
            },
    {
        if self.index > 0 {
            self.index -= 1;
        } else {
            self.index = self.titles.len() - 1;
        }
    }
}

/// A list of items and the one that is selected, if any.
pub struct StatefulList<T> {
    pub selected: Option<usize>,
    pub items: Vec<T>,
}

impl<T> StatefulList<T> {
    /// An empty list with nothing selected.
    pub fn new() -> (list: StatefulList<T>)
        ensures
            list.selected is None,
            list.items@.len() == 0,
    {
        StatefulList { selected: None, items: Vec::new() }
    }

    /// A list of `items` with nothing selected.
    pub fn with_items(items: Vec<T>) -> (list: StatefulList<T>)
        ensures
            list.selected is None,
            list.items == items,
    {
        StatefulList { selected: None, items }
    }

    /// Selects the item after the selected one, the first item after the
    /// last one or when nothing was selected.
    pub fn next(&mut self)
        requires
            old(self).selected is Some ==> old(self).items.len() > 0,
        ensures
            final(self).items == old(self).items,
            final(self).selected == Some(
                match old(self).selected {
                    Some(i) => if i >= old(self).items.len() - 1 {
                        0usize
                    } else {
                        (i + 1) as usize
                    },
                    None => 0usize,
                },
            ),
    {
        let i: usize = match self.selected {
            Some(i) => {
                if i >= self.items.len() - 1 {
                    0
                } else {
                    i + 1
                }
            },
            None => 0,
        };
        self.selected = Some(i);
    }

    /// Selects the item before the selected one, the last item before the
    /// first one, and the first item when nothing was selected.
    pub fn previous(&mut self)
        requires
            old(self).selected == Some(0usize) ==> old(self).items.len() > 0,
        ensures
            final(self).items == old(self).items,
            final(self).selected == Some(
                match old(self).selected {
                    Some(i) => if i == 0 {
                        (old(self).items.len() - 1) as usize
                    } else {
                        (i - 1) as usize
                    },
                    None => 0usize,
                },
            ),
    {
        let i: usize = match self.selected {
            Some(i) => {
                if i == 0 {
                    self.items.len() - 1
                } else {
                    i - 1
                }
            },
            None => 0,
        };
        self.selected = Some(i);
    }

    /// Selects nothing.
    pub fn unselect(&mut self)
        ensures
            final(self).items == old(self).items,
            final(self).selected is None,
    {
        self.selected = None;
    }
}

} // verus!
