//! The zoom viewport: a relative window `[start, start + length)` on a timeline.

use vstd::prelude::*;

verus! {

/// One whole timeline, in parts per billion. Every ratio of this crate is an
/// integer count of such parts.
pub const UNIT: u64 = 1_000_000_000;

/// The construction of a [`Zoom`] was refused.
#[derive(Debug, Clone, Copy)]
pub struct ZoomError;

/// The visible window of a timeline and the smallest length it may shrink to.
pub struct Zoom {
    start: u64,
    length: u64,
    min: u64,
}

/// What a [`Zoom`] stands for: three ratios in parts per billion.
pub ghost struct ZoomView {
    pub start: int,
    pub length: int,
    pub min: int,
}

/// `value` held between `low` and `high` (with `low` winning if they cross).
pub open spec fn clamp_int(value: int, low: int, high: int) -> int {
    if value < low {
        low
    } else if value > high {
        high
    } else {
        value
    }
}

/// The zoom limit that a request for `max` parts gives: negative requests
/// count as zero, requests above one whole as one whole.
pub open spec fn limit_of(max: int) -> int {
    clamp_int(max, 0, UNIT as int)
}

/// The length after one zoom-in step: nine tenths of `length`, rounded up,
/// and never below `min`.
pub open spec fn shrunk_length(length: int, min: int) -> int {
    let scaled = (length * 9 + 9) / 10;
    if scaled <= min {
        min
    } else {
        scaled
    }
}

/// The length after one zoom-out step: ten ninths of `length`, rounded down,
/// and never above one whole.
pub open spec fn grown_length(length: int) -> int {
    let scaled = (length * 10) / 9;
    if scaled > UNIT {
        UNIT as int
    } else {
        scaled
    }
}

/// The start of a window of `new_length` that keeps the center of the window
/// `[start, start + length)`, pushed back inside `[0, UNIT]` where it would
/// leave it.
pub open spec fn recentered_start(start: int, length: int, new_length: int) -> int {
    clamp_int(start + length / 2 - new_length / 2, 0, UNIT - new_length)
}

/// The part `ratio` (in parts per billion) of `count` items, rounded down.
pub open spec fn scaled(count: int, ratio: int) -> int {
    (count * ratio) / (UNIT as int)
}

/// A part of at most one whole of `count` items is at most `count` items,
/// and a larger part is no fewer items.
pub proof fn lemma_scaled_is_monotonic(count: int, low: int, high: int)
    requires
        0 <= count,
        0 <= low <= high <= UNIT,
    ensures
        0 <= scaled(count, low) <= scaled(count, high) <= count,
{
    assert(0 <= count * low <= count * high <= count * UNIT) by (nonlinear_arith)
        requires
            0 <= count,
            0 <= low <= high <= UNIT,
    ;
    assert((count * UNIT) / (UNIT as int) == count) by (nonlinear_arith);
    assert(0 <= (count * low) / (UNIT as int)) by (nonlinear_arith)
        requires
            0 <= count * low,
    ;
    assert((count * low) / (UNIT as int) <= (count * high) / (UNIT as int)) by (nonlinear_arith)
        requires
            count * low <= count * high,
    ;
    assert((count * high) / (UNIT as int) <= (count * UNIT) / (UNIT as int)) by (nonlinear_arith)
        requires
            count * high <= count * UNIT,
    ;
}

/// A window that is long enough to span one of `count` items shows one at
/// least.
pub proof fn lemma_window_shows_an_item(count: int, start: int, length: int)
    requires
        0 <= count,
        0 <= start,
        0 <= length,
        count * length >= UNIT,
    ensures
        scaled(count, start) < scaled(count, start + length),
{
    let before = count * start;
    let shown = count * length;
    let unit = UNIT as int;
    assert(count * (start + length) == before + shown) by (nonlinear_arith)
        requires
            before == count * start,
            shown == count * length,
    ;
    assert(before >= 0) by (nonlinear_arith)
        requires
            before == count * start,
            count >= 0,
            start >= 0,
    ;
    assert(before == unit * (before / unit) + before % unit && 0 <= before % unit < unit)
        by (nonlinear_arith)
        requires
            unit > 0,
    ;
    assert((before + shown) / unit >= before / unit + 1) by (nonlinear_arith)
        requires
            before == unit * (before / unit) + before % unit,
            0 <= before % unit,
            shown >= unit,
            unit > 0,
    ;
}

/// The part `ratio` (in parts per billion, at most one whole) of `count`
/// items, rounded down.
pub fn scale(count: usize, ratio: u64) -> (part: usize)
    requires
        ratio <= UNIT,
    ensures
        part == scaled(count as int, ratio as int),
        part <= count,
{
    proof {
        lemma_scaled_is_monotonic(count as int, ratio as int, ratio as int);
        assert(count * ratio <= 0xffff_ffff_ffff_ffff * 0x1_0000_0000) by (nonlinear_arith)
            requires
                0 <= count <= 0xffff_ffff_ffff_ffff,
                0 <= ratio <= 0x1_0000_0000,
        ;
    }
    let product: u128 = (count as u128) * (ratio as u128);
    (product / (UNIT as u128)) as usize
}

impl ZoomView {
    /// The first of `count` items that the window shows.
    pub open spec fn first_visible(self, count: int) -> int {
        scaled(count, self.start)
    }

    /// The item after the last of `count` items that the window shows.
    pub open spec fn end_visible(self, count: int) -> int {
        scaled(count, self.start + self.length)
    }

    /// The invariant of a viewport: a non-empty window inside the timeline,
    /// no shorter than its limit.
    pub open spec fn wf(self) -> bool {
        &&& 0 <= self.start
        &&& 0 < self.length <= UNIT
        &&& self.start + self.length <= UNIT
        &&& 0 <= self.min <= self.length
    }

    /// The viewport after the zoom limit was set to `max`.
    pub open spec fn update_zoom_max(self, max: int) -> ZoomView {
        let min = limit_of(max);
        if self.length >= min {
            ZoomView { min, ..self }
        } else {
            ZoomView { start: recentered_start(self.start, self.length, min), length: min, min }
        }
    }

    /// The viewport after one zoom-in step.
    pub open spec fn zoom_in(self) -> ZoomView {
        let length = shrunk_length(self.length, self.min);
        ZoomView { start: self.start + self.length / 2 - length / 2, length, min: self.min }
    }

    /// The viewport after one zoom-out step.
    pub open spec fn zoom_out(self) -> ZoomView {
        let length = grown_length(self.length);
        ZoomView { start: recentered_start(self.start, self.length, length), length, min: self.min }
    }

    /// The viewport after one step to the left.
    pub open spec fn move_left(self) -> ZoomView {
        let offset = self.length / 10;
        ZoomView { start: if self.start - offset < 0 { 0 } else { self.start - offset }, ..self }
    }

    /// The viewport after one step to the right.
    pub open spec fn move_right(self) -> ZoomView {
        let offset = self.length / 10;
        ZoomView {
            start: if self.start + self.length + offset > UNIT {
                UNIT - self.length
            } else {
                self.start + offset
            },
            ..self
        }
    }
}

/// One of the operations on a viewport.
#[derive(Debug, Clone, Copy)]
pub enum ZoomOp {
    ZoomIn,
    ZoomOut,
    MoveLeft,
    MoveRight,
    /// Sets the zoom limit to the given number of parts.
    UpdateZoomMax(i64),
}

impl ZoomView {
    /// The viewport after the operation `op`.
    pub open spec fn apply(self, op: ZoomOp) -> ZoomView {
        match op {
            ZoomOp::ZoomIn => self.zoom_in(),
            ZoomOp::ZoomOut => self.zoom_out(),
            ZoomOp::MoveLeft => self.move_left(),
            ZoomOp::MoveRight => self.move_right(),
            ZoomOp::UpdateZoomMax(max) => self.update_zoom_max(max as int),
        }
    }

    /// The viewport after the operations `ops`, applied in order.
    pub open spec fn apply_all(self, ops: Seq<ZoomOp>) -> ZoomView
        decreases ops.len(),
    {
        if ops.len() == 0 {
            self
        } else {
            self.apply_all(ops.drop_last()).apply(ops.last())
        }
    }
}

/// Every operation keeps a valid viewport valid.
pub proof fn lemma_operation_keeps_viewport_valid(view: ZoomView, op: ZoomOp)
    requires
        view.wf(),
    ensures
        view.apply(op).wf(),
{
}

/// Whatever operations are applied to a valid viewport, in whatever number
/// and order, its window stays a non-empty part of the timeline: it starts
/// at or after the start, before the end, and ends at or before the end.
pub proof fn lemma_operations_keep_window_inside(view: ZoomView, ops: Seq<ZoomOp>)
    requires
        view.wf(),
    ensures
        view.apply_all(ops).wf(),
        0 <= view.apply_all(ops).start < UNIT,
        0 < view.apply_all(ops).length <= UNIT,
        view.apply_all(ops).start + view.apply_all(ops).length <= UNIT,
    decreases ops.len(),
{
    if ops.len() > 0 {
        lemma_operations_keep_window_inside(view, ops.drop_last());
        lemma_operation_keeps_viewport_valid(view.apply_all(ops.drop_last()), ops.last());
    }
}

impl View for Zoom {
    type V = ZoomView;

    closed spec fn view(&self) -> ZoomView {
        ZoomView { start: self.start as int, length: self.length as int, min: self.min as int }
    }
}

impl Zoom {
    /// Whether the viewport meets its invariant.
    pub open spec fn wf(&self) -> bool {
        self@.wf()
    }

    /// Builds a viewport that shows the whole timeline.
    ///
    /// `max_zoom` is the smallest length the window may later shrink to, in
    /// parts per billion. A limit of zero or less is refused; a limit above
    /// one whole counts as one whole.
    pub fn new(max_zoom: i64) -> (result: Result<Zoom, ZoomError>)
        ensures
            max_zoom <= 0 <==> result is Err,
            result matches Ok(zoom) ==> zoom.wf() && zoom@ == (ZoomView {
                start: 0,
                length: UNIT as int,
                min: limit_of(max_zoom as int),
            }),
    {
        if max_zoom <= 0 {
            return Err(ZoomError);
        }
        let min: u64 = if max_zoom > UNIT as i64 {
            UNIT
        } else {
            max_zoom as u64
        };
        Ok(Zoom { start: 0, length: UNIT, min })
    }

    /// The start of the visible window, in parts per billion of the timeline.
    pub fn start(&self) -> (start: u64)
        ensures
            start == self@.start,
    {
        self.start
    }

    /// The length of the visible window, in parts per billion of the timeline.
    pub fn length(&self) -> (length: u64)
        ensures
            length == self@.length,
    {
        self.length
    }

    /// Sets a new zoom limit. A window that is already at least that long is
    /// kept; a shorter one grows to the limit around its center.
    pub fn update_zoom_max(&mut self, max: i64)
        requires
            old(self).wf(),
        ensures
            final(self)@ == old(self)@.update_zoom_max(max as int),
            final(self).wf(),
    {
        let min: u64 = if max <= 0 {
            0
        } else if max > UNIT as i64 {
            UNIT
        } else {
            max as u64
        };
        self.min = min;
        if self.length >= min {
            return;
        }
        let center: u64 = self.start + self.length / 2;
        self.start = Self::place(center, min);
        self.length = min;
    }

    /// Shrinks the window by one step around its center.
    pub fn zoom_in(&mut self)
        requires
            old(self).wf(),
        ensures
            final(self)@ == old(self)@.zoom_in(),
            final(self).wf(),
    {
        let center: u64 = self.start + self.length / 2;
        let scaled: u64 = (self.length * 9 + 9) / 10;
        let length: u64 = if scaled <= self.min {
            self.min
        } else {
            scaled
        };
        self.start = center - length / 2;
        self.length = length;
    }

    /// Grows the window by one step around its center, inside the timeline.
    pub fn zoom_out(&mut self)
        requires
            old(self).wf(),
        ensures
            final(self)@ == old(self)@.zoom_out(),
            final(self).wf(),
    {
        let center: u64 = self.start + self.length / 2;
        let scaled: u64 = (self.length * 10) / 9;
        let length: u64 = if scaled > UNIT {
            UNIT
        } else {
            scaled
        };
        self.start = Self::place(center, length);
        self.length = length;
    }

    /// Moves the window left by a tenth of its length, not past the start.
    pub fn move_left(&mut self)
        requires
            old(self).wf(),
        ensures
            final(self)@ == old(self)@.move_left(),
            final(self).wf(),
    {
        let offset: u64 = self.length / 10;
        self.start = if self.start < offset {
            0
        } else {
            self.start - offset
        };
    }

    /// Moves the window right by a tenth of its length, not past the end.
    pub fn move_right(&mut self)
        requires
            old(self).wf(),
        ensures
            final(self)@ == old(self)@.move_right(),
            final(self).wf(),
    {
        let offset: u64 = self.length / 10;
        self.start = if self.start + self.length + offset > UNIT {
            UNIT - self.length
        } else {
            self.start + offset
        };
    }

    /// Applies one operation.
    pub fn apply(&mut self, op: ZoomOp)
        requires
            old(self).wf(),
        ensures
            final(self)@ == old(self)@.apply(op),
            final(self).wf(),
    {
        match op {
            ZoomOp::ZoomIn => self.zoom_in(),
            ZoomOp::ZoomOut => self.zoom_out(),
            ZoomOp::MoveLeft => self.move_left(),
            ZoomOp::MoveRight => self.move_right(),
            ZoomOp::UpdateZoomMax(max) => self.update_zoom_max(max),
        }
    }

    /// The items among `count` that the window shows: the first of them and
    /// the one after the last.
    pub fn visible_range(&self, count: usize) -> (range: (usize, usize))
        requires
            self.wf(),
        ensures
            range.0 == self@.first_visible(count as int),
            range.1 == self@.end_visible(count as int),
            range.0 <= range.1 <= count,
            count * self@.length >= UNIT ==> range.0 < range.1,
    {
        proof {
            if count * self@.length >= UNIT {
                lemma_window_shows_an_item(count as int, self@.start, self@.length);
            }
            lemma_scaled_is_monotonic(
                count as int,
                self@.start,
                self@.start + self@.length,
            );
        }
        (scale(count, self.start), scale(count, self.start + self.length))
    }

    /// Where a window of `length` starts when it is centered on `center` and
    /// then pushed back inside the timeline.
    fn place(center: u64, length: u64) -> (start: u64)
        requires
            center <= UNIT,
            length <= UNIT,
        ensures
            start == clamp_int(center - length / 2, 0, UNIT - length),
    {
        let half: u64 = length / 2;
        if center < half {
            0
        } else if center - half > UNIT - length {
            UNIT - length
        } else {
            center - half
        }
    }
}

} // verus!
