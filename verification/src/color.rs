//! Tone mapping of radiance and the text of pixels.

use crate::interval::Interval;
use crate::scalar::is_isqrt;
use crate::scalar::lemma_isqrt_unique;
use crate::scalar::Scalar;
use crate::scalar::ONE_RAW;
use crate::vec3::Vec3;
use vstd::prelude::*;
use vstd::string::StringExecFns;

verus! {

/// The raw value of the brightest intensity that is written: 0.999, rounded down.
pub const BRIGHTEST_RAW: i64 = 4290672328;

/// The character of the decimal digit `d`.
pub open spec fn digit_char(d: int) -> char {
    if d == 0 {
        '0'
    } else if d == 1 {
        '1'
    } else if d == 2 {
        '2'
    } else if d == 3 {
        '3'
    } else if d == 4 {
        '4'
    } else if d == 5 {
        '5'
    } else if d == 6 {
        '6'
    } else if d == 7 {
        '7'
    } else if d == 8 {
        '8'
    } else {
        '9'
    }
}

/// The decimal digits of `n`, without leading zeros.
pub open spec fn decimal(n: nat) -> Seq<char>
    decreases n,
{
    if n < 10 {
        seq![digit_char(n as int)]
    } else {
        decimal(n / 10).push(digit_char((n % 10) as int))
    }
}

/// Gamma correction with gamma two: the square root, and zero for what is not
/// positive.
pub open spec fn linear_to_gamma_spec(x: Scalar) -> Scalar {
    if x@ > 0 {
        x.sqrt_spec()
    } else {
        Scalar { raw: 0 }
    }
}

/// The byte that is written for one channel of radiance summed over
/// `samples` samples: the average, gamma-corrected, brought into
/// `[0, 0.999]` and scaled by 256.
pub open spec fn channel_byte(sum: Scalar, samples: int) -> int {
    let average = sum.div_spec(Scalar::int_spec(samples));
    let intensity = Interval { min: Scalar { raw: 0 }, max: Scalar { raw: BRIGHTEST_RAW } };
    Scalar::int_spec(256).mul_spec(intensity.clamp_spec(linear_to_gamma_spec(average))).floor_spec()
}

/// The line of text for three bytes.
pub open spec fn triplet(r: nat, g: nat, b: nat) -> Seq<char> {
    decimal(r) + seq![' '] + decimal(g) + seq![' '] + decimal(b) + seq!['\n']
}

/// The line of text for a pixel whose radiance was summed over `samples` samples.
pub open spec fn pixel_line(pixel_color: Vec3, samples: int) -> Seq<char> {
    triplet(
        channel_byte(pixel_color.x, samples) as nat,
        channel_byte(pixel_color.y, samples) as nat,
        channel_byte(pixel_color.z, samples) as nat,
    )
}

/// The lines of pixels whose summed radiance is `colors`, one after another.
pub open spec fn lines_spec(colors: Seq<Vec3>, samples: int) -> Seq<char>
    decreases colors.len(),
{
    if colors.len() == 0 {
        Seq::<char>::empty()
    } else {
        lines_spec(colors.drop_last(), samples) + pixel_line(colors.last(), samples)
    }
}

/// The lines of two runs of pixels are the lines of the one run followed by
/// the lines of the other.
pub proof fn lemma_lines_concat(first: Seq<Vec3>, second: Seq<Vec3>, samples: int)
    ensures
        lines_spec(first + second, samples) == lines_spec(first, samples) + lines_spec(
            second,
            samples,
        ),
    decreases second.len(),
{
    if second.len() == 0 {
        assert(first + second =~= first);
        assert(lines_spec(first, samples) + lines_spec(second, samples) =~= lines_spec(
            first,
            samples,
        ));
    } else {
        lemma_lines_concat(first, second.drop_last(), samples);
        assert((first + second).drop_last() =~= first + second.drop_last());
        assert((first + second).last() == second.last());
        assert(lines_spec(first + second, samples) =~= lines_spec(first, samples) + lines_spec(
            second,
            samples,
        ));
    }
}

/// Text joined in either grouping is the same text.
pub proof fn lemma_join(a: Seq<char>, b: Seq<char>, c: Seq<char>)
    ensures
        (a + b) + c == a + (b + c),
{
    assert((a + b) + c =~= a + (b + c));
}

/// Appending one pixel appends its line.
pub proof fn lemma_lines_push(colors: Seq<Vec3>, color: Vec3, samples: int)
    ensures
        lines_spec(colors.push(color), samples) == lines_spec(colors, samples) + pixel_line(
            color,
            samples,
        ),
{
    assert(colors.push(color).drop_last() =~= colors);
}

/// Every channel is written as a byte.
pub proof fn lemma_channel_byte_range(sum: Scalar, samples: int)
    ensures
        0 <= channel_byte(sum, samples) <= 255,
{
    let average = sum.div_spec(Scalar::int_spec(samples));
    let intensity = Interval { min: Scalar { raw: 0 }, max: Scalar { raw: BRIGHTEST_RAW } };
    let c = intensity.clamp_spec(linear_to_gamma_spec(average));
    assert(0 <= c@ <= BRIGHTEST_RAW);
    assert(Scalar::int_spec(256)@ == 256 * ONE_RAW);
    assert((256 * ONE_RAW * c@) / (ONE_RAW as int) == 256 * c@) by {
        vstd::arithmetic::div_mod::lemma_div_multiples_vanish(256 * c@, ONE_RAW as int);
        assert(256 * ONE_RAW * c@ == ONE_RAW * (256 * c@)) by (nonlinear_arith);
    }
    assert(Scalar::int_spec(256).mul_spec(c)@ == 256 * c@);
}

/// A pixel that gathered radiance one in every sample is written as 255,
/// whatever the number of samples, and one that gathered none as 0.
pub proof fn lemma_white_and_black(samples: int)
    requires
        1 <= samples <= 0x7fff_ffff,
    ensures
        channel_byte(Scalar::int_spec(samples), samples) == 255,
        channel_byte(Scalar { raw: 0 }, samples) == 0,
        pixel_line(
            Vec3 {
                x: Scalar::int_spec(samples),
                y: Scalar::int_spec(samples),
                z: Scalar::int_spec(samples),
            },
            samples,
        ) == triplet(255, 255, 255),
        pixel_line(Vec3::zero_spec(), samples) == triplet(0, 0, 0),
{
    let n = Scalar::int_spec(samples);
    assert(n@ == samples * ONE_RAW);
    assert((n@ * ONE_RAW) / n@ == ONE_RAW) by {
        vstd::arithmetic::div_mod::lemma_div_multiples_vanish(ONE_RAW as int, n@);
        assert(n@ * ONE_RAW == n@ * (ONE_RAW as int));
    }
    let average = n.div_spec(n);
    assert(average@ == ONE_RAW);
    assert(is_isqrt(ONE_RAW * ONE_RAW, ONE_RAW as int));
    lemma_isqrt_unique(ONE_RAW * ONE_RAW, ONE_RAW as int);
    assert(linear_to_gamma_spec(average)@ == ONE_RAW);
    let zero = Scalar { raw: 0 };
    assert((0 * ONE_RAW) / n@ == 0) by {
        vstd::arithmetic::div_mod::lemma_div_basics(n@);
    }
    assert(zero.div_spec(n)@ == 0);
}

fn linear_to_gamma(x: Scalar) -> (r: Scalar)
    ensures
        r == linear_to_gamma_spec(x),
{
    if x.raw > 0 {
        x.sqrt()
    } else {
        Scalar::zero()
    }
}

/// The text of one decimal digit.
fn digit_text(d: u32) -> (r: &'static str)
    requires
        d < 10,
    ensures
        r@ == seq![digit_char(d as int)],
{
    proof {
        reveal_strlit("0");
        reveal_strlit("1");
        reveal_strlit("2");
        reveal_strlit("3");
        reveal_strlit("4");
        reveal_strlit("5");
        reveal_strlit("6");
        reveal_strlit("7");
        reveal_strlit("8");
        reveal_strlit("9");
    }
    let r = if d == 0 {
        "0"
    } else if d == 1 {
        "1"
    } else if d == 2 {
        "2"
    } else if d == 3 {
        "3"
    } else if d == 4 {
        "4"
    } else if d == 5 {
        "5"
    } else if d == 6 {
        "6"
    } else if d == 7 {
        "7"
    } else if d == 8 {
        "8"
    } else {
        "9"
    };
    assert(r@ =~= seq![digit_char(d as int)]);
    r
}

/// Appends the decimal digits of `n` to `s`.
pub fn push_decimal(s: &mut String, n: u32)
    ensures
        final(s)@ == old(s)@ + decimal(n as nat),
    decreases n,
{
    if n >= 10 {
        push_decimal(s, n / 10);
    }
    s.append(digit_text(n % 10));
    assert(final(s)@ =~= old(s)@ + decimal(n as nat));
}

/// The color type: red, green and blue in the three coordinates.
pub type Color = Vec3;

/// The byte for one channel of summed radiance.
pub fn channel(sum: Scalar, samples_per_pixel: i32) -> (r: u32)
    requires
        samples_per_pixel != 0,
    ensures
        r == channel_byte(sum, samples_per_pixel as int),
        r <= 255,
{
    let average = sum.div(Scalar::from_int(samples_per_pixel));
    let intensity = Interval::new(Scalar::zero(), Scalar::from_raw(BRIGHTEST_RAW));
    let level = Scalar::from_int(256).mul(intensity.clamp(linear_to_gamma(average)));
    proof {
        lemma_channel_byte_range(sum, samples_per_pixel as int);
    }
    level.floor() as u32
}

/// Appends the line of a pixel to `s`: the three bytes of its color, in
/// decimal, with spaces between them and a line feed after them.
pub fn write_color(s: &mut String, pixel_color: Vec3, samples_per_pixel: i32)
    requires
        samples_per_pixel != 0,
    ensures
        final(s)@ == old(s)@ + pixel_line(pixel_color, samples_per_pixel as int),
{
    let ir = channel(pixel_color.x(), samples_per_pixel);
    let ig = channel(pixel_color.y(), samples_per_pixel);
    let ib = channel(pixel_color.z(), samples_per_pixel);
    proof {
        reveal_strlit(" ");
        reveal_strlit("\n");
    }
    push_decimal(s, ir);
    s.append(" ");
    push_decimal(s, ig);
    s.append(" ");
    push_decimal(s, ib);
    s.append("\n");
    assert(final(s)@ =~= old(s)@ + pixel_line(pixel_color, samples_per_pixel as int)) by {
        assert(" "@ =~= seq![' ']);
        assert("\n"@ =~= seq!['\n']);
    }
}

} // verus!
