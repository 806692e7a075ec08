//! Per-channel histograms, channel balance and grayscale average of an
//! RGBA buffer, computed in one pass with exact integer arithmetic.
use vstd::prelude::*;

use crate::pixels::{
    valid_rgba, pixel_count, red, green, blue, luma_scaled, channel_total, luma_total,
    lemma_channel_total_bound, lemma_luma_total_bound, read_pixel,
};
use crate::{AnalysisError, Ratio};

verus! {

/// An 8-bit RGB color.
#[derive(Debug, Clone, Copy, PartialEq, Eq, Structural)]
pub struct Color {
    pub r: u8,
    pub g: u8,
    pub b: u8,
}

/// 256-bucket frequency counts for each color channel.
#[derive(Debug, Clone)]
pub struct ColorHistograms {
    pub red: Vec<u32>,
    pub green: Vec<u32>,
    pub blue: Vec<u32>,
}

/// Share of the total channel mass held by each channel, as exact
/// percentages (each `Ratio` is 100 times a channel total over the mass).
#[derive(Debug, Clone, Copy)]
pub struct ColorBalance {
    pub red_percentage: Ratio,
    pub green_percentage: Ratio,
    pub blue_percentage: Ratio,
}

/// Aggregate result of one statistics pass over a buffer.
#[derive(Debug)]
pub struct ImageAnalysis {
    pub histograms: ColorHistograms,
    pub balance: ColorBalance,
    pub grayscale_average: Ratio,
}

/// How many of the first `n` pixels have value `v` in the channel at
/// offset `off` (0 red, 1 green, 2 blue).
pub open spec fn channel_count(buf: Seq<u8>, off: int, v: u8, n: int) -> int
    decreases n,
{
    if n <= 0 {
        0
    } else {
        channel_count(buf, off, v, n - 1) + if buf[4 * (n - 1) + off] == v {
            1int
        } else {
            0int
        }
    }
}

/// `h` is the histogram of the channel at offset `off` over the whole buffer.
pub open spec fn histogram_ok(buf: Seq<u8>, off: int, h: Seq<u32>) -> bool {
    &&& h.len() == 256
    &&& forall|v: int|
        0 <= v < 256 ==> h[v] == channel_count(buf, off, v as u8, pixel_count(buf))
}

/// Sum of all three channel totals over the first `n` pixels.
pub open spec fn mass_total(buf: Seq<u8>, n: int) -> int {
    channel_total(buf, 0, n) + channel_total(buf, 1, n) + channel_total(buf, 2, n)
}

/// `b` holds the exact balance percentages of the buffer: for each channel,
/// 100 times its total over the common channel mass.
pub open spec fn balance_ok(buf: Seq<u8>, b: ColorBalance) -> bool {
    let n = pixel_count(buf);
    &&& b.red_percentage.num == 100 * channel_total(buf, 0, n)
    &&& b.green_percentage.num == 100 * channel_total(buf, 1, n)
    &&& b.blue_percentage.num == 100 * channel_total(buf, 2, n)
    &&& b.red_percentage.den == mass_total(buf, n)
    &&& b.green_percentage.den == mass_total(buf, n)
    &&& b.blue_percentage.den == mass_total(buf, n)
}

/// `r` is the grayscale (luma) average of the buffer on the 0-255 scale:
/// the scaled luma total over 1000 times the pixel count.
pub open spec fn is_grayscale_average(buf: Seq<u8>, r: Ratio) -> bool {
    &&& r.num == luma_total(buf, pixel_count(buf))
    &&& r.den == 1000 * pixel_count(buf)
}

/// A channel value count over `n` pixels is at most `n`.
pub proof fn lemma_channel_count_bound(buf: Seq<u8>, off: int, v: u8, n: int)
    requires
        0 <= n,
    ensures
        0 <= channel_count(buf, off, v, n) <= n,
    decreases n,
{
    if n > 0 {
        lemma_channel_count_bound(buf, off, v, n - 1);
    }
}

/// Sum of the counts of the values below `k` over the first `n` pixels.
pub open spec fn count_sum(buf: Seq<u8>, off: int, n: int, k: int) -> int
    decreases k,
{
    if k <= 0 {
        0
    } else {
        count_sum(buf, off, n, k - 1) + channel_count(buf, off, (k - 1) as u8, n)
    }
}

proof fn lemma_count_sum_step(buf: Seq<u8>, off: int, n: int, k: int)
    requires
        1 <= n,
        0 <= k <= 256,
    ensures
        count_sum(buf, off, n, k) == count_sum(buf, off, n - 1, k) + if buf[4 * (n - 1) + off]
            < k {
            1int
        } else {
            0int
        },
    decreases k,
{
    if k > 0 {
        lemma_count_sum_step(buf, off, n, k - 1);
    }
}

/// Sum of the first `k` buckets of a histogram.
pub open spec fn hist_sum(h: Seq<u32>, k: int) -> int
    decreases k,
{
    if k <= 0 {
        0
    } else {
        hist_sum(h, k - 1) + h[k - 1]
    }
}

proof fn lemma_count_sum_empty(buf: Seq<u8>, off: int, k: int)
    requires
        0 <= k,
    ensures
        count_sum(buf, off, 0, k) == 0,
    decreases k,
{
    if k > 0 {
        lemma_count_sum_empty(buf, off, k - 1);
    }
}

proof fn lemma_count_sum_total(buf: Seq<u8>, off: int, n: int)
    requires
        0 <= n,
    ensures
        count_sum(buf, off, n, 256) == n,
    decreases n,
{
    if n > 0 {
        lemma_count_sum_total(buf, off, n - 1);
        lemma_count_sum_step(buf, off, n, 256);
    } else {
        lemma_count_sum_empty(buf, off, 256);
    }
}

proof fn lemma_hist_sum_matches(buf: Seq<u8>, off: int, h: Seq<u32>, k: int)
    requires
        histogram_ok(buf, off, h),
        0 <= k <= 256,
    ensures
        hist_sum(h, k) == count_sum(buf, off, pixel_count(buf), k),
    decreases k,
{
    if k > 0 {
        lemma_hist_sum_matches(buf, off, h, k - 1);
    }
}

/// Every pixel lands in exactly one bucket per channel: the 256 buckets of
/// a channel histogram sum to the pixel count.
pub proof fn lemma_histogram_mass(buf: Seq<u8>, off: int, h: Seq<u32>)
    requires
        histogram_ok(buf, off, h),
        0 <= pixel_count(buf),
    ensures
        hist_sum(h, 256) == pixel_count(buf),
{
    lemma_hist_sum_matches(buf, off, h, 256);
    lemma_count_sum_total(buf, off, pixel_count(buf));
}

/// When the channel mass is nonzero the three balance percentages sum to
/// exactly one hundred: the numerators add up to 100 times the shared
/// denominator, so as rationals the percentages sum to 100.
pub proof fn lemma_balance_sums_to_hundred(buf: Seq<u8>, b: ColorBalance)
    requires
        balance_ok(buf, b),
        mass_total(buf, pixel_count(buf)) > 0,
    ensures
        b.red_percentage.num + b.green_percentage.num + b.blue_percentage.num == 100
            * b.red_percentage.den,
        b.green_percentage.den == b.red_percentage.den,
        b.blue_percentage.den == b.red_percentage.den,
{
}

fn zero_buckets() -> (r: Vec<u32>)
    ensures
        r@.len() == 256,
        forall|v: int| 0 <= v < 256 ==> r@[v] == 0,
{
    let mut r: Vec<u32> = Vec::new();
    let mut i: usize = 0;
    while i < 256
        invariant
            i <= 256,
            r@.len() == i,
            forall|v: int| 0 <= v < i ==> r@[v] == 0,
        decreases 256 - i,
    {
        r.push(0);
        i += 1;
    }
    r
}

/// Computes the per-channel histograms, the channel balance and the
/// grayscale (0-255 scale) average of the buffer in one pass.
///
/// The buffer is rejected before any computation when its length is not a
/// multiple of four, when it is empty, or when every channel total is zero
/// (a pure black image), in which order the errors are reported.
pub fn analyze_image_colors(pixels: &[u8]) -> (result: Result<ImageAnalysis, AnalysisError>)
    requires
        pixels@.len() / 4 <= u32::MAX,
    ensures
        match result {
            Ok(a) => {
                &&& valid_rgba(pixels@)
                &&& pixel_count(pixels@) > 0
                &&& mass_total(pixels@, pixel_count(pixels@)) > 0
                &&& histogram_ok(pixels@, 0, a.histograms.red@)
                &&& histogram_ok(pixels@, 1, a.histograms.green@)
                &&& histogram_ok(pixels@, 2, a.histograms.blue@)
                &&& balance_ok(pixels@, a.balance)
                &&& a.balance.red_percentage.wf()
                &&& a.balance.green_percentage.wf()
                &&& a.balance.blue_percentage.wf()
                &&& is_grayscale_average(pixels@, a.grayscale_average)
                &&& a.grayscale_average.wf()
            },
            Err(AnalysisError::InvalidBufferLength) => !valid_rgba(pixels@),
            Err(AnalysisError::EmptyImage) => valid_rgba(pixels@) && pixel_count(pixels@) == 0,
            Err(AnalysisError::DegenerateBalance) => {
                &&& valid_rgba(pixels@)
                &&& pixel_count(pixels@) > 0
                &&& mass_total(pixels@, pixel_count(pixels@)) == 0
            },
            Err(AnalysisError::InvalidK) => false,
        },
{
    let len: usize = pixels.len();
    if len % 4 != 0 {
        return Err(AnalysisError::InvalidBufferLength);
    }
    let n: usize = len / 4;
    if n == 0 {
        return Err(AnalysisError::EmptyImage);
    }
    let ghost buf = pixels@;

    let mut hist_red = zero_buckets();
    let mut hist_green = zero_buckets();
    let mut hist_blue = zero_buckets();
    let mut total_red: u64 = 0;
    let mut total_green: u64 = 0;
    let mut total_blue: u64 = 0;
    let mut total_luma: u64 = 0;

    let mut i: usize = 0;
    while i < n
        invariant
            buf == pixels@,
            buf.len() == 4 * n,
            n <= u32::MAX,
            i <= n,
            hist_red@.len() == 256,
            hist_green@.len() == 256,
            hist_blue@.len() == 256,
            forall|v: int| 0 <= v < 256 ==> hist_red@[v] == channel_count(buf, 0, v as u8, i as int),
            forall|v: int|
                0 <= v < 256 ==> hist_green@[v] == channel_count(buf, 1, v as u8, i as int),
            forall|v: int| 0 <= v < 256 ==> hist_blue@[v] == channel_count(buf, 2, v as u8, i as int),
            total_red == channel_total(buf, 0, i as int),
            total_green == channel_total(buf, 1, i as int),
            total_blue == channel_total(buf, 2, i as int),
            total_luma == luma_total(buf, i as int),
        decreases n - i,
    {
        proof {
            lemma_channel_total_bound(buf, 0, i as int);
            lemma_channel_total_bound(buf, 1, i as int);
            lemma_channel_total_bound(buf, 2, i as int);
            lemma_luma_total_bound(buf, i as int);
        }
        let (r, g, b) = read_pixel(pixels, i);
        let ghost old_red = hist_red@;
        let ghost old_green = hist_green@;
        let ghost old_blue = hist_blue@;
        proof {
            lemma_channel_count_bound(buf, 0, r, i as int);
            lemma_channel_count_bound(buf, 1, g, i as int);
            lemma_channel_count_bound(buf, 2, b, i as int);
        }
        let ri: usize = r as usize;
        let gi: usize = g as usize;
        let bi: usize = b as usize;
        hist_red[ri] = hist_red[ri] + 1;
        hist_green[gi] = hist_green[gi] + 1;
        hist_blue[bi] = hist_blue[bi] + 1;
        total_red = total_red + r as u64;
        total_green = total_green + g as u64;
        total_blue = total_blue + b as u64;
        total_luma = total_luma + 299 * (r as u64) + 587 * (g as u64) + 114 * (b as u64);
        proof {
            let ni = i + 1 as int;
            assert forall|v: int| 0 <= v < 256 implies hist_red@[v] == channel_count(
                buf,
                0,
                v as u8,
                ni,
            ) by {
                assert(channel_count(buf, 0, v as u8, ni) == channel_count(buf, 0, v as u8, i as int)
                    + if buf[4 * i] == v as u8 {
                    1int
                } else {
                    0int
                });
            }
            assert forall|v: int| 0 <= v < 256 implies hist_green@[v] == channel_count(
                buf,
                1,
                v as u8,
                ni,
            ) by {
                assert(channel_count(buf, 1, v as u8, ni) == channel_count(buf, 1, v as u8, i as int)
                    + if buf[4 * i + 1] == v as u8 {
                    1int
                } else {
                    0int
                });
            }
            assert forall|v: int| 0 <= v < 256 implies hist_blue@[v] == channel_count(
                buf,
                2,
                v as u8,
                ni,
            ) by {
                assert(channel_count(buf, 2, v as u8, ni) == channel_count(buf, 2, v as u8, i as int)
                    + if buf[4 * i + 2] == v as u8 {
                    1int
                } else {
                    0int
                });
            }
        }
        i += 1;
    }

    proof {
        lemma_channel_total_bound(buf, 0, n as int);
        lemma_channel_total_bound(buf, 1, n as int);
        lemma_channel_total_bound(buf, 2, n as int);
    }
    let mass: u64 = total_red + total_green + total_blue;
    if mass == 0 {
        return Err(AnalysisError::DegenerateBalance);
    }

    Ok(ImageAnalysis {
        histograms: ColorHistograms { red: hist_red, green: hist_green, blue: hist_blue },
        balance: ColorBalance {
            red_percentage: Ratio { num: 100 * total_red as u128, den: mass as u128 },
            green_percentage: Ratio { num: 100 * total_green as u128, den: mass as u128 },
            blue_percentage: Ratio { num: 100 * total_blue as u128, den: mass as u128 },
        },
        grayscale_average: Ratio { num: total_luma as u128, den: 1000 * n as u128 },
    })
}

impl ImageAnalysis {
    /// The per-channel histograms of the analyzed buffer.
    pub fn histograms(&self) -> (r: &ColorHistograms)
        ensures
            *r == self.histograms,
    {
        &self.histograms
    }

    /// The channel balance percentages of the analyzed buffer.
    pub fn balance(&self) -> (r: ColorBalance)
        ensures
            r == self.balance,
    {
        self.balance
    }

    /// The grayscale average of the analyzed buffer, on the 0-255 scale.
    pub fn grayscale_average(&self) -> (r: Ratio)
        ensures
            r == self.grayscale_average,
    {
        self.grayscale_average
    }
}

} // verus!
