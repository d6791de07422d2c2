//! Where things go in an area of the terminal.

use vstd::prelude::*;

verus! {

/// The number of lines, the last of which holds the text, that put a text
/// in the middle of an area of `height` lines. An area of fewer than three
/// lines has no middle.
pub fn lines_to_center(height: u16) -> (lines: usize)
    requires
        height >= 3,
    ensures
        lines >= 1,
        lines == if height % 2 == 0 {
            height / 2 - 1
        } else {
            height as int / 2
        },
{
    if height % 2 == 0 {
        (height / 2 - 1) as usize
    } else {
        (height / 2) as usize
    }
}

/// The area of a popup in the middle of the area at `(x, y)` of `width` by
/// `height` cells: a quarter in from each side, and half as large.
pub fn helper_layout(x: u16, y: u16, width: u16, height: u16) -> (area: (u16, u16, u16, u16))
    requires
        x + width / 4 <= u16::MAX,
        y + height / 4 <= u16::MAX,
    ensures
        area == ((x + width / 4) as u16, (y + height / 4) as u16, width / 2, height / 2),
{
    (x + width / 4, y + height / 4, width / 2, height / 2)
}

/// The size of the image that fills a canvas of `canva_width` by
/// `canva_height` cells inside its border: two pixels for each row of
/// cells, which the image has as columns, and one for each column.
pub fn image_size(canva_width: usize, canva_height: usize) -> (size: (usize, usize))
    requires
        canva_width >= 2,
        canva_height >= 2,
        (canva_height - 2) * 2 <= usize::MAX,
    ensures
        size == (((canva_height - 2) * 2) as usize, (canva_width - 2) as usize),
{
    ((canva_height - 2) * 2, canva_width - 2)
}

/// The cell that pair `idx` of the pixels of an image is drawn in, in an
/// area of `height` rows: the pairs fill the columns one after the other,
/// each from its last row up.
pub fn image_cell(idx: u16, height: u16) -> (cell: (u16, u16))
    requires
        height > 0,
    ensures
        cell == ((idx / height) as u16, (height - idx % height - 1) as u16),
{
    (idx / height, height - (idx % height) - 1)
}

} // verus!
