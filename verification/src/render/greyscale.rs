//! A greyscale image to paint as it is.

use vstd::prelude::*;

verus! {

/// An image of `width` by `height` grey pixels, one row after the other.
pub struct GreyScaleCanva<'a> {
    img_buffer: &'a [u8],
    width: usize,
    height: usize,
}

impl<'a> GreyScaleCanva<'a> {
    /// The pixels, one row after the other.
    pub closed spec fn pixels(&self) -> Seq<u8> {
        self.img_buffer@
    }

    /// The number of pixels of a row.
    pub closed spec fn spec_width(&self) -> int {
        self.width as int
    }

    /// The number of rows.
    pub closed spec fn spec_height(&self) -> int {
        self.height as int
    }

    /// The image of the given pixels.
    pub fn new(img_buffer: &'a [u8], width: usize, height: usize) -> (canva: GreyScaleCanva<'a>)
        ensures
            canva.pixels() == img_buffer@,
            canva.spec_width() == width,
            canva.spec_height() == height,
    {
        GreyScaleCanva { img_buffer, width, height }
    }

    /// The number of pixels of a row.
    pub fn width(&self) -> (width: usize)
        ensures
            width == self.spec_width(),
    {
        self.width
    }

    /// The number of rows.
    pub fn height(&self) -> (height: usize)
        ensures
            height == self.spec_height(),
    {
        self.height
    }

    /// Whether the buffer holds every pixel of the image.
    pub fn holds_image(&self) -> (whole: bool)
        ensures
            whole <==> self.spec_width() * self.spec_height() <= self.pixels().len(),
    {
        let total: usize = self.img_buffer.len();
        match self.width.checked_mul(self.height) {
            Some(pixels) => pixels <= total,
            None => false,
        }
    }

    /// The pixel of column `x` and row `y`, which is painted at `(x, y)`.
    pub fn pixel(&self, x: usize, y: usize) -> (value: u8)
        requires
            x < self.spec_width(),
            y < self.spec_height(),
            self.spec_width() * self.spec_height() <= self.pixels().len(),
        ensures
            value == self.pixels()[x + y * self.spec_width()],
    {
        proof {
            lemma_pixel_index(x as int, y as int, self.width as int, self.height as int);
        }
        let total: usize = self.img_buffer.len();
        assert(self.width * self.height <= total);
        let idx: usize = x + y * self.width;
        self.img_buffer[idx]
    }
}

/// The pixel of column `x` and row `y` lies among the `width * height`
/// pixels of an image.
pub proof fn lemma_pixel_index(x: int, y: int, width: int, height: int)
    requires
        0 <= x < width,
        0 <= y < height,
    ensures
        0 <= y * width,
        0 <= x + y * width < width * height,
{
    assert(y * width >= 0) by (nonlinear_arith)
        requires
            y >= 0,
            width > 0,
    ;
    assert((y + 1) * width <= height * width) by (nonlinear_arith)
        requires
            y + 1 <= height,
            width > 0,
    ;
    assert((y + 1) * width == y * width + width) by (nonlinear_arith);
    assert(height * width == width * height) by (nonlinear_arith);
}

} // verus!
