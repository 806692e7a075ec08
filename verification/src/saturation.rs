//! Average HSL saturation of an RGBA buffer.
//!
//! With 8-bit channels the standard HSL saturation of a pixel is the exact
//! rational (max-min)/(max+min) when max+min <= 255 (lightness at most one
//! half) and (max-min)/(510-max-min) otherwise, where max and min are the
//! largest and smallest of the three channel values. Each per-pixel value
//! is kept in fixed point, scaled by `SAT_SCALE` and rounded down, and the
//! average is the exact ratio of the scaled sum over `SAT_SCALE` times the
//! pixel count.
use vstd::prelude::*;

use crate::pixels::{valid_rgba, pixel_count, red, green, blue, read_pixel};
use crate::{AnalysisError, Ratio};

verus! {

/// Fixed-point scale of one per-pixel saturation value.
pub const SAT_SCALE: u64 = 1000000;

/// Largest of the three channel values.
pub open spec fn max3(r: u8, g: u8, b: u8) -> int {
    if r >= g && r >= b {
        r as int
    } else if g >= b {
        g as int
    } else {
        b as int
    }
}

/// Smallest of the three channel values.
pub open spec fn min3(r: u8, g: u8, b: u8) -> int {
    if r <= g && r <= b {
        r as int
    } else if g <= b {
        g as int
    } else {
        b as int
    }
}

/// HSL saturation of one pixel, scaled by `SAT_SCALE` and rounded down.
pub open spec fn sat_scaled(r: u8, g: u8, b: u8) -> int {
    let mx = max3(r, g, b);
    let mn = min3(r, g, b);
    if mx == mn {
        0
    } else if mx + mn <= 255 {
        ((mx - mn) * SAT_SCALE) / (mx + mn)
    } else {
        ((mx - mn) * SAT_SCALE) / (510 - mx - mn)
    }
}

/// Sum of the scaled saturations of the first `n` pixels.
pub open spec fn sat_total(buf: Seq<u8>, n: int) -> int
    decreases n,
{
    if n <= 0 {
        0
    } else {
        sat_total(buf, n - 1) + sat_scaled(red(buf, n - 1), green(buf, n - 1), blue(buf, n - 1))
    }
}

/// One scaled saturation lies in [0, SAT_SCALE]: per pixel the saturation
/// is a value between zero and one.
pub proof fn lemma_sat_scaled_in_unit(r: u8, g: u8, b: u8)
    ensures
        0 <= sat_scaled(r, g, b) <= SAT_SCALE,
{
    let mx = max3(r, g, b);
    let mn = min3(r, g, b);
    if mx != mn {
        let d = if mx + mn <= 255 {
            mx + mn
        } else {
            510 - mx - mn
        };
        assert(1 <= mx - mn <= d);
        assert(0 <= (mx - mn) * SAT_SCALE) by (nonlinear_arith)
            requires 1 <= mx - mn,
        ;
        assert((mx - mn) * SAT_SCALE <= d * SAT_SCALE) by (nonlinear_arith)
            requires 1 <= mx - mn <= d,
        ;
        vstd::arithmetic::div_mod::lemma_div_is_ordered((mx - mn) * SAT_SCALE, d * SAT_SCALE, d);
        vstd::arithmetic::div_mod::lemma_div_by_multiple(SAT_SCALE as int, d);
        vstd::arithmetic::div_mod::lemma_div_pos_is_pos((mx - mn) * SAT_SCALE, d);
    }
}

/// The scaled saturation total of `n` pixels lies in [0, n * SAT_SCALE]:
/// the average saturation always lies in [0, 1].
pub proof fn lemma_saturation_in_unit_range(buf: Seq<u8>, n: int)
    requires
        0 <= n,
    ensures
        0 <= sat_total(buf, n) <= n * SAT_SCALE,
    decreases n,
{
    if n > 0 {
        lemma_saturation_in_unit_range(buf, n - 1);
        lemma_sat_scaled_in_unit(red(buf, n - 1), green(buf, n - 1), blue(buf, n - 1));
    }
}

/// A buffer of gray pixels (equal channels) has zero saturation.
pub proof fn lemma_gray_pixels_zero_saturation(buf: Seq<u8>, n: int)
    requires
        0 <= n,
        forall|i: int| 0 <= i < n ==> red(buf, i) == green(buf, i) && green(buf, i) == blue(buf, i),
    ensures
        sat_total(buf, n) == 0,
    decreases n,
{
    if n > 0 {
        lemma_gray_pixels_zero_saturation(buf, n - 1);
        assert(max3(red(buf, n - 1), green(buf, n - 1), blue(buf, n - 1)) == min3(
            red(buf, n - 1),
            green(buf, n - 1),
            blue(buf, n - 1),
        ));
    }
}

/// `r` is the average saturation of the buffer: the scaled saturation
/// total over `SAT_SCALE` times the pixel count.
pub open spec fn is_average_saturation(buf: Seq<u8>, r: Ratio) -> bool {
    &&& r.num == sat_total(buf, pixel_count(buf))
    &&& r.den == SAT_SCALE * pixel_count(buf)
}

/// Scaled saturation of one pixel.
fn pixel_saturation(r: u8, g: u8, b: u8) -> (s: u64)
    ensures
        s == sat_scaled(r, g, b),
        s <= SAT_SCALE,
{
    proof {
        lemma_sat_scaled_in_unit(r, g, b);
    }
    let mut mx: u64 = r as u64;
    if (g as u64) > mx {
        mx = g as u64;
    }
    if (b as u64) > mx {
        mx = b as u64;
    }
    let mut mn: u64 = r as u64;
    if (g as u64) < mn {
        mn = g as u64;
    }
    if (b as u64) < mn {
        mn = b as u64;
    }
    if mx == mn {
        0
    } else if mx + mn <= 255 {
        ((mx - mn) * SAT_SCALE) / (mx + mn)
    } else {
        ((mx - mn) * SAT_SCALE) / (510 - mx - mn)
    }
}

/// Computes the average HSL saturation of the buffer as an exact ratio in
/// [0, 1]: the numerator never exceeds the denominator.
///
/// The buffer is rejected when its length is not a multiple of four, and
/// an empty buffer is rejected, in that order.
pub fn calc_saturation(pixels: &[u8]) -> (result: Result<Ratio, AnalysisError>)
    ensures
        match result {
            Ok(r) => {
                &&& valid_rgba(pixels@)
                &&& pixel_count(pixels@) > 0
                &&& is_average_saturation(pixels@, r)
                &&& r.wf()
                &&& r.num <= r.den
            },
            Err(AnalysisError::InvalidBufferLength) => !valid_rgba(pixels@),
            Err(AnalysisError::EmptyImage) => valid_rgba(pixels@) && pixel_count(pixels@) == 0,
            Err(_) => false,
        },
{
    let len: usize = pixels.len();
    if len % 4 != 0 {
        return Err(AnalysisError::InvalidBufferLength);
    }
    let n: usize = len / 4;
    if n == 0 {
        return Err(AnalysisError::EmptyImage);
    }
    let ghost buf = pixels@;

    let mut total: u128 = 0;
    let mut i: usize = 0;
    while i < n
        invariant
            buf == pixels@,
            buf.len() == 4 * n,
            i <= n,
            total == sat_total(buf, i as int),
            total <= (i as u128) * (SAT_SCALE as u128),
        decreases n - i,
    {
        let (r, g, b) = read_pixel(pixels, i);
        let s = pixel_saturation(r, g, b);
        proof {
            assert((i as int) * SAT_SCALE + SAT_SCALE == (i + 1) * SAT_SCALE) by (nonlinear_arith);
            assert((i + 1) as u128 * (SAT_SCALE as u128) <= u128::MAX) by (nonlinear_arith)
                requires i + 1 <= u128::MAX / 2, SAT_SCALE == 1000000,
            ;
        }
        total = total + s as u128;
        i += 1;
    }
    proof {
        lemma_saturation_in_unit_range(buf, n as int);
        assert((n as u128) * (SAT_SCALE as u128) == SAT_SCALE * (n as int)) by (nonlinear_arith);
    }
    Ok(Ratio { num: total, den: SAT_SCALE as u128 * n as u128 })
}

} // verus!
