//! Row-major raster layout and the grayscale coloring rule.

use vstd::prelude::*;

verus! {

/// Flat index of pixel (`column`, `row`) in a row-major buffer of the given
/// width. The raster invariant of the whole renderer: cell (c, r) lives at
/// `r * width + c`.
pub fn pixel_index(width: usize, height: usize, column: usize, row: usize) -> (i: usize)
    requires
        column < width,
        row < height,
        width * height <= usize::MAX,
    ensures
        i == row * width + column,
        i < width * height,
{
    proof {
        assert(row * width + column < width * height) by (nonlinear_arith)
            requires
                column < width,
                row < height;
    }
    row * width + column
}

/// Grayscale value for one pixel from the classifier's result: 0 (black)
/// for a point that never escaped within the limit, otherwise `255 - count`
/// (truncated to a byte), so quick escapes are near-white.
pub fn intensity(escape: Option<u32>) -> (v: u8)
    ensures
        escape is None ==> v == 0,
        escape matches Some(count) ==> v == 255 - (count as u8),
{
    match escape {
        None => 0,
        Some(count) => 255 - (#[verifier::truncate] (count as u8)),
    }
}

/// Zero-filled output buffer for a `width` x `height` image, as the
/// dispatcher allocates it before any band is rendered.
pub fn alloc_buffer(width: usize, height: usize) -> (buf: Vec<u8>)
    requires
        width * height <= usize::MAX,
    ensures
        buf@.len() == width * height,
        forall|k: int| 0 <= k < buf@.len() ==> buf@[k] == 0,
{
    let n = width * height;
    let mut buf: Vec<u8> = Vec::new();
    let mut i: usize = 0;
    while i < n
        invariant
            n == width * height,
            buf@.len() == i,
            i <= n,
            forall|k: int| 0 <= k < buf@.len() ==> buf@[k] == 0,
        decreases n - i,
    {
        buf.push(0);
        i = i + 1;
    }
    buf
}

} // verus!
