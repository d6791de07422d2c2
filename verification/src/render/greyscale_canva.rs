//! A greyscale image to paint turned by a quarter.

use crate::render::greyscale::lemma_pixel_index;
use vstd::prelude::*;

verus! {

/// An image of `width` by `height` grey pixels, one row after the other,
/// that is painted with its rows as columns.
pub struct TransposedGreyScaleCanva<'a> {
    img_buffer: &'a [u8],
    width: usize,
    height: usize,
}

impl<'a> TransposedGreyScaleCanva<'a> {
    /// The pixels, one row after the other.
    pub closed spec fn pixels(&self) -> Seq<u8> {
        self.img_buffer@
    }

    /// The number of pixels of a row.
    pub closed spec fn spec_width(&self) -> int {
        self.width as int
    }

    /// The number of rows.
    pub closed spec fn spec_height(&self) -> int {
        self.height as int
    }

    /// The image of the given pixels.
    pub fn new(img_buffer: &'a [u8], width: usize, height: usize) -> (canva:
        TransposedGreyScaleCanva<'a>)
        ensures
            canva.pixels() == img_buffer@,
            canva.spec_width() == width,
            canva.spec_height() == height,
    {
        TransposedGreyScaleCanva { img_buffer, width, height }
    }

    /// The number of pixels of a row.
    pub fn width(&self) -> (width: usize)
        ensures
            width == self.spec_width(),
    {
        self.width
    }

    /// The number of rows.
    pub fn height(&self) -> (height: usize)
        ensures
            height == self.spec_height(),
    {
        self.height
    }

    /// Whether the buffer holds every pixel of the image.
    pub fn holds_image(&self) -> (whole: bool)
        ensures
            whole <==> self.spec_width() * self.spec_height() <= self.pixels().len(),
    {
        let total: usize = self.img_buffer.len();
        match self.width.checked_mul(self.height) {
            Some(pixels) => pixels <= total,
            None => false,
        }
    }

    /// The pixel of column `x` and row `y`, and where it is painted: at
    /// column `y`, in the row that mirrors `x`.
    pub fn pixel(&self, x: usize, y: usize) -> (painted: (u8, usize, usize))
        requires
            x < self.spec_width(),
            y < self.spec_height(),
            self.spec_width() * self.spec_height() <= self.pixels().len(),
        ensures
            painted.0 == self.pixels()[x + y * self.spec_width()],
            painted.1 == y,
            painted.2 == self.spec_width() - 1 - x,
    {
        proof {
            lemma_pixel_index(x as int, y as int, self.width as int, self.height as int);
        }
        let total: usize = self.img_buffer.len();
        assert(self.width * self.height <= total);
        let idx: usize = x + y * self.width;
        (self.img_buffer[idx], y, self.width - 1 - x)
    }
}

} // verus!
