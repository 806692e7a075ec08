//! Model of a flat RGBA pixel buffer: four bytes per pixel, laid out as
//! repeating (R, G, B, A) groups; the alpha byte is read but never used.
use vstd::prelude::*;

verus! {

/// A buffer is well formed when its length is a whole number of
/// four-byte pixel groups.
pub open spec fn valid_rgba(buf: Seq<u8>) -> bool {
    buf.len() % 4 == 0
}

/// Number of pixels the buffer holds.
pub open spec fn pixel_count(buf: Seq<u8>) -> int {
    buf.len() as int / 4
}

/// Red component of pixel `i`.
pub open spec fn red(buf: Seq<u8>, i: int) -> u8 {
    buf[4 * i]
}

/// Green component of pixel `i`.
pub open spec fn green(buf: Seq<u8>, i: int) -> u8 {
    buf[4 * i + 1]
}

/// Blue component of pixel `i`.
pub open spec fn blue(buf: Seq<u8>, i: int) -> u8 {
    buf[4 * i + 2]
}

/// BT.601 luma of one pixel, scaled by 1000 so that the weights
/// 0.299 / 0.587 / 0.114 become the integers 299 / 587 / 114.
pub open spec fn luma_scaled(r: u8, g: u8, b: u8) -> int {
    299 * r + 587 * g + 114 * b
}

/// Sum of the channel at offset `off` (0 red, 1 green, 2 blue) over the
/// first `n` pixels.
pub open spec fn channel_total(buf: Seq<u8>, off: int, n: int) -> int
    decreases n,
{
    if n <= 0 {
        0
    } else {
        channel_total(buf, off, n - 1) + buf[4 * (n - 1) + off]
    }
}

/// Sum of the scaled luma over the first `n` pixels.
pub open spec fn luma_total(buf: Seq<u8>, n: int) -> int
    decreases n,
{
    if n <= 0 {
        0
    } else {
        luma_total(buf, n - 1) + luma_scaled(red(buf, n - 1), green(buf, n - 1), blue(buf, n - 1))
    }
}

/// A channel total over `n` pixels is at most `255 * n`.
pub proof fn lemma_channel_total_bound(buf: Seq<u8>, off: int, n: int)
    requires
        0 <= n,
    ensures
        0 <= channel_total(buf, off, n) <= 255 * n,
    decreases n,
{
    if n > 0 {
        lemma_channel_total_bound(buf, off, n - 1);
    }
}

/// A scaled luma total over `n` pixels is at most `255000 * n`.
pub proof fn lemma_luma_total_bound(buf: Seq<u8>, n: int)
    requires
        0 <= n,
    ensures
        0 <= luma_total(buf, n) <= 255000 * n,
    decreases n,
{
    if n > 0 {
        lemma_luma_total_bound(buf, n - 1);
    }
}

/// Reads the three color components of pixel `i`.
pub fn read_pixel(pixels: &[u8], i: usize) -> (rgb: (u8, u8, u8))
    requires
        4 * i + 3 < pixels@.len(),
    ensures
        rgb.0 == red(pixels@, i as int),
        rgb.1 == green(pixels@, i as int),
        rgb.2 == blue(pixels@, i as int),
{
    // binding the length shows that the indices below stay within usize
    let len: usize = pixels.len();
    (pixels[4 * i], pixels[4 * i + 1], pixels[4 * i + 2])
}

} // verus!
