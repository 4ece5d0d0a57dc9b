//! Bytes laid out as rows of pixels: how a column and a row address one byte.

use vstd::prelude::*;

verus! {

/// The byte for column `x` of row `y` in a buffer of rows of `width` bytes.
pub open spec fn pixel_at(pixels: Seq<u8>, width: int, x: int, y: int) -> u8 {
    pixels[y * width + x]
}

/// Pixel `(x, y)` of a buffer of `height` rows of `width` bytes has its own index
/// within the buffer, at or after the start of its row.
pub proof fn lemma_pixel_index(width: int, height: int, x: int, y: int)
    by (nonlinear_arith)
    requires
        0 <= x < width,
        0 <= y < height,
    ensures
        0 <= y * width,
        y * width + x < width * height,
        y * width + x < height * width,
{
}

/// Two pixels with the same index are the same pixel.
pub proof fn lemma_pixel_index_injective(width: int, x1: int, y1: int, x2: int, y2: int)
    by (nonlinear_arith)
    requires
        0 <= x1 < width,
        0 <= x2 < width,
        y1 * width + x1 == y2 * width + x2,
    ensures
        x1 == x2,
        y1 == y2,
{
}

/// The row after row `y` starts `width` bytes after row `y`.
pub proof fn lemma_next_row(width: int, y: int)
    by (nonlinear_arith)
    ensures
        (y + 1) * width == y * width + width,
{
}

/// Every index of the buffer is the index of one pixel.
pub proof fn lemma_pixel_of_index(width: int, height: int, k: int)
    by (nonlinear_arith)
    requires
        0 < width,
        0 <= k < width * height,
    ensures
        0 <= k % width < width,
        0 <= k / width < height,
        k == (k / width) * width + k % width,
{
}

} // verus!
