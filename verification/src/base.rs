//! Ancillary sizing utilities: aspect-ratio reduction, human-readable byte
//! size formatting, and the normalized (0-1 scale) average luminance.
use vstd::prelude::*;

use crate::pixels::{valid_rgba, pixel_count, luma_total, lemma_luma_total_bound, read_pixel};
use crate::{AnalysisError, Ratio};

verus! {

/// A width/height pair.
#[derive(Debug, Clone, Copy, PartialEq, Eq, Structural)]
pub struct ImageDimensions {
    pub width: u64,
    pub height: u64,
}

/// Greatest common divisor by the Euclidean algorithm.
pub open spec fn gcd(a: nat, b: nat) -> nat
    decreases b,
{
    if b == 0 {
        a
    } else {
        gcd(b, a % b)
    }
}

/// `d` divides `x` exactly.
pub open spec fn divides(d: nat, x: nat) -> bool {
    exists|k: nat| x == #[trigger] (k * d)
}

/// The gcd divides both arguments, and is positive when either is.
pub proof fn lemma_gcd_divides(a: nat, b: nat)
    ensures
        divides(gcd(a, b), a),
        divides(gcd(a, b), b),
        a > 0 || b > 0 ==> gcd(a, b) > 0,
    decreases b,
{
    if b == 0 {
        assert(a == 1nat * gcd(a, b));
        assert(b == 0nat * gcd(a, b));
    } else {
        lemma_gcd_divides(b, a % b);
        let g = gcd(b, a % b);
        let k1 = choose|k: nat| b == #[trigger] (k * g);
        let k2 = choose|k: nat| (a % b) == #[trigger] (k * g);
        vstd::arithmetic::div_mod::lemma_fundamental_div_mod(a as int, b as int);
        assert(a == b * (a as int / b as int) + a % b);
        let q = a as int / b as int;
        vstd::arithmetic::div_mod::lemma_div_pos_is_pos(a as int, b as int);
        assert(a == (k1 * g) * q + k2 * g);
        assert((k1 * g) * q + k2 * g == (k1 * q + k2) * g) by (nonlinear_arith);
        assert(a == ((k1 * q + k2) as nat) * g);
    }
}

proof fn lemma_divides_mod(d: nat, a: nat, b: nat)
    requires
        divides(d, a),
        divides(d, b),
        b > 0,
    ensures
        divides(d, a % b),
{
    let ka = choose|k: nat| a == #[trigger] (k * d);
    let kb = choose|k: nat| b == #[trigger] (k * d);
    vstd::arithmetic::div_mod::lemma_fundamental_div_mod(a as int, b as int);
    let q = a as int / b as int;
    vstd::arithmetic::div_mod::lemma_div_pos_is_pos(a as int, b as int);
    assert(d >= 1) by (nonlinear_arith)
        requires kb * d == b, b > 0,
    ;
    assert(a % b == ka * d - (kb * d) * q);
    assert(ka * d - (kb * d) * q == (ka - kb * q) * d) by (nonlinear_arith);
    assert(ka - kb * q >= 0) by (nonlinear_arith)
        requires (ka - kb * q) * d == a % b, a % b >= 0, d >= 1,
    ;
    assert(a % b == ((ka - kb * q) as nat) * d);
}

proof fn lemma_gcd_greatest(a: nat, b: nat, d: nat)
    requires
        divides(d, a),
        divides(d, b),
    ensures
        divides(d, gcd(a, b)),
    decreases b,
{
    if b > 0 {
        lemma_divides_mod(d, a, b);
        lemma_gcd_greatest(b, a % b, d);
    }
}

proof fn lemma_divides_le(d: nat, x: nat)
    requires
        divides(d, x),
        x > 0,
    ensures
        1 <= d <= x,
{
    let k = choose|kk: nat| x == #[trigger] (kk * d);
    assert(k >= 1 && d >= 1 && k * d >= d) by (nonlinear_arith)
        requires k * d == x, x > 0,
    ;
}

/// Reducing by the gcd leaves nothing more to divide out: the reduced
/// width and height are coprime.
pub proof fn lemma_aspect_ratio_reduced(width: nat, height: nat)
    requires
        width > 0 || height > 0,
    ensures
        gcd(width / gcd(width, height), height / gcd(width, height)) == 1,
{
    let g = gcd(width, height);
    lemma_gcd_divides(width, height);
    let kw = choose|k: nat| width == #[trigger] (k * g);
    let kh = choose|k: nat| height == #[trigger] (k * g);
    vstd::arithmetic::div_mod::lemma_div_by_multiple(kw as int, g as int);
    vstd::arithmetic::div_mod::lemma_div_by_multiple(kh as int, g as int);
    let w = width / g;
    let h = height / g;
    assert(w == kw && h == kh);
    assert(w > 0 || h > 0) by {
        if width > 0 {
            assert(w != 0 ==> w > 0);
            assert(w == 0 ==> width == 0nat * g && width == 0);
        } else {
            assert(h == 0 ==> height == 0nat * g && height == 0);
        }
    }
    let d = gcd(w, h);
    lemma_gcd_divides(w, h);
    let dw = choose|k: nat| w == #[trigger] (k * d);
    let dh = choose|k: nat| h == #[trigger] (k * d);
    assert(width == (dw * d) * g && (dw * d) * g == dw * (d * g)) by (nonlinear_arith)
        requires width == w * g, w == dw * d,
    ;
    assert(height == (dh * d) * g && (dh * d) * g == dh * (d * g)) by (nonlinear_arith)
        requires height == h * g, h == dh * d,
    ;
    assert(divides(d * g, width));
    assert(divides(d * g, height));
    lemma_gcd_greatest(width, height, d * g);
    lemma_divides_le(d * g, g);
    assert(d == 1) by (nonlinear_arith)
        requires d * g <= g, 1 <= d * g, g >= 1, d >= 1,
    ;
}

/// Reduces a width/height pair by their greatest common divisor, yielding
/// the smallest pair with the same ratio. The divisions are exact: the
/// reduced pair times the gcd gives back the inputs.
pub fn calculate_aspect_ratio(width: u64, height: u64) -> (r: ImageDimensions)
    requires
        width > 0 || height > 0,
    ensures
        gcd(width as nat, height as nat) > 0,
        r.width == width as nat / gcd(width as nat, height as nat),
        r.height == height as nat / gcd(width as nat, height as nat),
        r.width * gcd(width as nat, height as nat) == width,
        r.height * gcd(width as nat, height as nat) == height,
        gcd(r.width as nat, r.height as nat) == 1,
{
    proof {
        lemma_aspect_ratio_reduced(width as nat, height as nat);
    }
    let ghost g = gcd(width as nat, height as nat);
    let mut a: u64 = width;
    let mut b: u64 = height;
    while b != 0
        invariant
            gcd(a as nat, b as nat) == g,
            a > 0 || b > 0,
        decreases b,
    {
        let t: u64 = a % b;
        a = b;
        b = t;
    }
    proof {
        lemma_gcd_divides(width as nat, height as nat);
        let kw = choose|k: nat| (width as nat) == #[trigger] (k * g);
        vstd::arithmetic::div_mod::lemma_div_by_multiple(kw as int, g as int);
        let kh = choose|k: nat| (height as nat) == #[trigger] (k * g);
        vstd::arithmetic::div_mod::lemma_div_by_multiple(kh as int, g as int);
    }
    ImageDimensions { width: width / a, height: height / a }
}

/// The decimal digit characters of `n`, most significant first.
pub open spec fn dec_digits(n: int) -> Seq<char>
    decreases n,
{
    if n < 10 {
        seq![digit_char(n)]
    } else {
        dec_digits(n / 10).push(digit_char(n % 10))
    }
}

/// The character of one decimal digit.
pub open spec fn digit_char(d: int) -> char {
    if d == 0 {
        '0'
    } else if d == 1 {
        '1'
    } else if d == 2 {
        '2'
    } else if d == 3 {
        '3'
    } else if d == 4 {
        '4'
    } else if d == 5 {
        '5'
    } else if d == 6 {
        '6'
    } else if d == 7 {
        '7'
    } else if d == 8 {
        '8'
    } else {
        '9'
    }
}

/// Unit index of a byte count: bytes below 1024, kilobytes below 1024^2,
/// megabytes above.
pub open spec fn size_unit_index(bytes: int) -> int {
    if bytes < 1024 {
        0
    } else if bytes < 1048576 {
        1
    } else {
        2
    }
}

/// Divisor that converts a byte count to its display unit.
pub open spec fn unit_divisor(u: int) -> int {
    if u == 0 {
        1
    } else if u == 1 {
        1024
    } else {
        1048576
    }
}

/// The unit suffix, with its leading space.
pub open spec fn unit_suffix(u: int) -> Seq<char> {
    if u == 0 {
        seq![' ', 'B']
    } else if u == 1 {
        seq![' ', 'K', 'B']
    } else {
        seq![' ', 'M', 'B']
    }
}

/// `n / d` rounded to the nearest integer, with exact halves going to the
/// even neighbour, for `n >= 0` and `d > 0`. This is how two-decimal float
/// formatting rounds a value whose binary representation is exact.
pub open spec fn round_half_even(n: int, d: int) -> int {
    let q = n / d;
    let r = n % d;
    if 2 * r > d {
        q + 1
    } else if 2 * r < d {
        q
    } else if q % 2 == 0 {
        q
    } else {
        q + 1
    }
}

/// The displayed size in hundredths of the display unit, rounded to the
/// nearest hundredth with ties to even.
pub open spec fn size_hundredths(bytes: int) -> int {
    let d = unit_divisor(size_unit_index(bytes));
    round_half_even(100 * bytes, d)
}

/// The displayed text of a byte count: the unit value with two decimal
/// places, a space, and the unit.
pub open spec fn format_size_chars(bytes: int) -> Seq<char> {
    let h = size_hundredths(bytes);
    dec_digits(h / 100) + seq!['.', digit_char((h / 10) % 10), digit_char(h % 10)] + unit_suffix(
        size_unit_index(bytes),
    )
}

fn append_digit(s: &mut String, d: u128)
    requires
        d < 10,
    ensures
        final(s)@ == old(s)@.push(digit_char(d as int)),
{
    proof {
        reveal_strlit("0");
        reveal_strlit("1");
        reveal_strlit("2");
        reveal_strlit("3");
        reveal_strlit("4");
        reveal_strlit("5");
        reveal_strlit("6");
        reveal_strlit("7");
        reveal_strlit("8");
        reveal_strlit("9");
    }
    let ghost before = s@;
    if d == 0 {
        s.append("0");
    } else if d == 1 {
        s.append("1");
    } else if d == 2 {
        s.append("2");
    } else if d == 3 {
        s.append("3");
    } else if d == 4 {
        s.append("4");
    } else if d == 5 {
        s.append("5");
    } else if d == 6 {
        s.append("6");
    } else if d == 7 {
        s.append("7");
    } else if d == 8 {
        s.append("8");
    } else {
        s.append("9");
    }
    assert(s@ =~= before.push(digit_char(d as int)));
}

fn append_decimal(s: &mut String, n: u128)
    ensures
        final(s)@ == old(s)@ + dec_digits(n as int),
    decreases n,
{
    let ghost before = s@;
    if n >= 10 {
        append_decimal(s, n / 10);
    }
    append_digit(s, n % 10);
    assert(s@ =~= before + dec_digits(n as int));
}

/// Formats a byte count for display: the value in bytes, kilobytes or
/// megabytes with two decimal places, followed by the unit, for example
/// "2.00 KB".
pub fn format_file_size(bytes: u64) -> (r: String)
    ensures
        r@ == format_size_chars(bytes as int),
{
    let (unit, d): (u8, u64) = if bytes < 1024 {
        (0, 1)
    } else if bytes < 1048576 {
        (1, 1024)
    } else {
        (2, 1048576)
    };
    let n: u128 = 100 * bytes as u128;
    let q: u128 = n / d as u128;
    let rem: u128 = n % d as u128;
    let h: u128 = if 2 * rem > d as u128 {
        q + 1
    } else if 2 * rem < d as u128 {
        q
    } else if q % 2 == 0 {
        q
    } else {
        q + 1
    };
    let mut s = String::new();
    append_decimal(&mut s, h / 100);
    proof {
        reveal_strlit(".");
        reveal_strlit(" B");
        reveal_strlit(" KB");
        reveal_strlit(" MB");
    }
    s.append(".");
    append_digit(&mut s, (h / 10) % 10);
    append_digit(&mut s, h % 10);
    if unit == 0 {
        s.append(" B");
    } else if unit == 1 {
        s.append(" KB");
    } else {
        s.append(" MB");
    }
    assert(s@ =~= format_size_chars(bytes as int));
    s
}

/// `r` is the normalized average luminance of the buffer on the 0-1 scale:
/// the scaled luma total over 255000 times the pixel count.
pub open spec fn is_average_luminance(buf: Seq<u8>, r: Ratio) -> bool {
    &&& r.num == luma_total(buf, pixel_count(buf))
    &&& r.den == 255000 * pixel_count(buf)
}

/// The normalized average luminance and the 0-255 grayscale average of one
/// buffer describe the same luma sum and differ by exactly a factor of
/// 255: as rationals, 255 times the luminance equals the grayscale average.
pub proof fn lemma_luminance_is_grayscale_over_255(buf: Seq<u8>, lum: Ratio, gray: Ratio)
    requires
        is_average_luminance(buf, lum),
        crate::color::is_grayscale_average(buf, gray),
    ensures
        255 * lum.num * gray.den == gray.num * lum.den,
{
    let n = pixel_count(buf);
    let t = luma_total(buf, n);
    assert(255 * t * (1000 * n) == t * (255000 * n)) by (nonlinear_arith);
}

/// Computes the average luminance of the buffer on the normalized 0-1
/// scale, as an exact ratio whose numerator never exceeds its denominator.
///
/// The buffer is rejected when its length is not a multiple of four or
/// disagrees with the supplied dimensions, and when it is empty, in that
/// order.
pub fn calculate_average_luminance(data: &[u8], width: u32, height: u32) -> (result: Result<
    Ratio,
    AnalysisError,
>)
    ensures
        match result {
            Ok(r) => {
                &&& valid_rgba(data@)
                &&& pixel_count(data@) > 0
                &&& width * height == pixel_count(data@)
                &&& is_average_luminance(data@, r)
                &&& r.wf()
                &&& r.num <= r.den
            },
            Err(AnalysisError::InvalidBufferLength) => !valid_rgba(data@) || width * height
                != pixel_count(data@),
            Err(AnalysisError::EmptyImage) => {
                &&& valid_rgba(data@)
                &&& width * height == pixel_count(data@)
                &&& pixel_count(data@) == 0
            },
            Err(_) => false,
        },
{
    let len: usize = data.len();
    if len % 4 != 0 {
        return Err(AnalysisError::InvalidBufferLength);
    }
    let n: usize = len / 4;
    proof {
        assert((width as int) * (height as int) <= 0xffffffff * 0xffffffff) by (nonlinear_arith)
            requires width <= 0xffffffffu32, height <= 0xffffffffu32,
        ;
    }
    if (width as u64) * (height as u64) != n as u64 {
        return Err(AnalysisError::InvalidBufferLength);
    }
    if n == 0 {
        return Err(AnalysisError::EmptyImage);
    }
    let ghost buf = data@;

    let mut sum: u128 = 0;
    let mut i: usize = 0;
    while i < n
        invariant
            buf == data@,
            buf.len() == 4 * n,
            i <= n,
            sum == luma_total(buf, i as int),
        decreases n - i,
    {
        proof {
            lemma_luma_total_bound(buf, i as int);
            assert(255000 * (i as int) + 255000 <= 255000 * (n as int)) by (nonlinear_arith)
                requires i < n,
            ;
            assert(255000 * (n as int) < u128::MAX) by (nonlinear_arith)
                requires n <= u128::MAX / 255001,
            ;
        }
        let (r, g, b) = read_pixel(data, i);
        sum = sum + 299 * (r as u128) + 587 * (g as u128) + 114 * (b as u128);
        i += 1;
    }
    proof {
        lemma_luma_total_bound(buf, n as int);
        assert(255000 * (n as u128) == 255000 * (n as int)) by (nonlinear_arith);
    }
    Ok(Ratio { num: sum, den: 255000 * n as u128 })
}

} // verus!
