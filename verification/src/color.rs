//! From the samples of a pixel to its three 8-bit channels.
//!
//! A pixel is exposed to a number of samples, which are added up. The sum is
//! developed: averaged and corrected for gamma. Each component of the result
//! is then held between 0 and 0.999 and scaled to a channel from 0 to 255.
//! Taking a sample, adding and developing are arithmetic on colours, and are
//! handed in as the functions of an [`Exposure`].
use vstd::prelude::*;
use vstd::arithmetic::power2::pow2;
use crate::scalar::Scalar;
use crate::utils::{clamp, clamped};
use crate::vec3::{black, IVec3, Vec3};

verus! {

/// The brightest value that a channel is given: 0.999.
pub const CHANNEL_TOP_BITS: u32 = 0x3F7F_BE77;

/// The weight of the lowest exponent bit in a pattern: below it stands the
/// fraction of 23 bits.
pub const FRACTION_RANGE: u32 = 0x80_0000;

/// The whole part of 256 times the magnitude of `v`, for a `v` below one.
///
/// With the exponent field `e` above zero and the fraction field `f`, the
/// magnitude is `(2^23 + f) * 2^(e - 150)`, so 256 times the magnitude is
/// `(2^23 + f) / 2^(142 - e)`. With `e` at zero the magnitude is below
/// `2^-126`.
pub open spec fn whole_of_256_times(v: Scalar) -> int {
    let e = v.magnitude() / (FRACTION_RANGE as int);
    let f = v.magnitude() % (FRACTION_RANGE as int);
    if e == 0 || e > 142 {
        0
    } else {
        (FRACTION_RANGE + f) / (pow2((142 - e) as nat) as int)
    }
}

/// The channel value of the brightness `c`: `c` is held between 0 and 0.999,
/// multiplied by 256 and cut down to its whole part. A `c` that is no number
/// gives 0.
pub open spec fn channel_of(c: Scalar) -> int {
    let v = clamped(c, Scalar { bits: 0 }, Scalar { bits: CHANNEL_TOP_BITS });
    if v.nan() {
        0
    } else {
        whole_of_256_times(v)
    }
}

/// Scales a brightness to an 8-bit channel.
pub fn channel(c: Scalar) -> (n: i32)
    ensures
        n == channel_of(c),
        0 <= n <= 255,
{
    let v = clamp(c, Scalar::zero(), Scalar::from_bits(CHANNEL_TOP_BITS));
    if v.is_nan() {
        return 0;
    }
    let m = v.abs().to_bits();
    let e = m / FRACTION_RANGE;
    let f = m % FRACTION_RANGE;
    if e < 119 {
        proof {
            lemma_far_below_one(e as int, f as int);
        }
        return 0;
    }
    let shift = 142 - e;
    let significand = FRACTION_RANGE + f;
    let n = significand >> shift;
    proof {
        vstd::bits::lemma_u32_shr_is_div(significand, shift);
        lemma_below_one(e as int, f as int);
    }
    n as i32
}

/// The pixel of a colour: each component scaled to an 8-bit channel.
pub open spec fn pixel_of(color: Vec3) -> IVec3 {
    IVec3 {
        x: channel_of(color.x) as i32,
        y: channel_of(color.y) as i32,
        z: channel_of(color.z) as i32,
    }
}

/// The pixel of a colour that is ready to be shown: each component scaled to
/// an 8-bit channel.
pub fn to_pixel(color: &Vec3) -> (pixel: IVec3)
    ensures
        pixel == pixel_of(*color),
        0 <= pixel.x <= 255,
        0 <= pixel.y <= 255,
        0 <= pixel.z <= 255,
{
    IVec3 { x: channel(color.x), y: channel(color.y), z: channel(color.z) }
}

/// The arithmetic of exposing a pixel.
pub struct Exposure<C, A, D> {
    /// One sample of a pixel: `sample(x, y)` gives the colour along one ray
    /// through a random place of the pixel in column `x` of row `y`.
    pub sample: C,
    /// Adds a sample to a sum of samples: `add(sum, sample)`.
    pub add: A,
    /// Develops the sum of a number of samples into the colour to show:
    /// `develop(sum, samples)` divides by the number and corrects for gamma.
    pub develop: D,
}

/// `sum` is what adding up `samples` samples of the pixel in column `x` of
/// row `y` may give, starting from black.
pub open spec fn exposed<C: Fn(usize, usize) -> Vec3, A: Fn(Vec3, Vec3) -> Vec3>(
    sample: C,
    add: A,
    x: usize,
    y: usize,
    samples: int,
    sum: Vec3,
) -> bool
    decreases samples,
{
    if samples <= 0 {
        sum == black()
    } else {
        exists|before: Vec3, s: Vec3|
            exposed(sample, add, x, y, samples - 1, before) && call_ensures(sample, (x, y), s)
                && #[trigger] call_ensures(add, (before, s), sum)
    }
}

/// Get the pixel of a sum of samples in 8-bit channels: the sum is
/// developed, and each component of the result is scaled to a channel.
pub fn get_color<D: Fn(Vec3, i32) -> Vec3>(
    pixel_color: &Vec3,
    samples_per_pixel: i32,
    develop: &D,
) -> (pixel: IVec3)
    requires
        call_requires(*develop, (*pixel_color, samples_per_pixel)),
    ensures
        exists|shown: Vec3| #[trigger]
            call_ensures(*develop, (*pixel_color, samples_per_pixel), shown) && pixel
                == pixel_of(shown),
        0 <= pixel.x <= 255,
        0 <= pixel.y <= 255,
        0 <= pixel.z <= 255,
{
    let shown = develop(*pixel_color, samples_per_pixel);
    to_pixel(&shown)
}

/// Exposes the pixel in column `x` of row `y` to `samples` samples, and
/// gives the pixel of their sum.
pub fn sample_pixel<
    C: Fn(usize, usize) -> Vec3,
    A: Fn(Vec3, Vec3) -> Vec3,
    D: Fn(Vec3, i32) -> Vec3,
>(x: usize, y: usize, samples: i32, exposure: &Exposure<C, A, D>) -> (pixel: IVec3)
    requires
        call_requires(exposure.sample, (x, y)),
        forall|a: Vec3, b: Vec3| call_requires(exposure.add, (a, b)),
        forall|sum: Vec3| call_requires(exposure.develop, (sum, samples)),
    ensures
        exists|sum: Vec3, shown: Vec3|
            exposed(exposure.sample, exposure.add, x, y, samples as int, sum)
                && #[trigger] call_ensures(exposure.develop, (sum, samples), shown) && pixel
                == pixel_of(shown),
        0 <= pixel.x <= 255,
        0 <= pixel.y <= 255,
        0 <= pixel.z <= 255,
{
    let mut pixel_color = Vec3::zero();
    let mut taken: i32 = 0;
    while taken < samples
        invariant
            0 <= taken,
            taken <= samples || taken == 0,
            exposed(exposure.sample, exposure.add, x, y, taken as int, pixel_color),
            call_requires(exposure.sample, (x, y)),
            forall|a: Vec3, b: Vec3| call_requires(exposure.add, (a, b)),
        decreases samples - taken,
    {
        let ghost before = pixel_color;
        let s = (exposure.sample)(x, y);
        pixel_color = (exposure.add)(pixel_color, s);
        taken += 1;
        assert(call_ensures(exposure.add, (before, s), pixel_color));
    }
    assert(exposed(exposure.sample, exposure.add, x, y, samples as int, pixel_color));
    get_color(&pixel_color, samples, &exposure.develop)
}

/// A brighter colour never gets a darker channel.
pub proof fn lemma_channel_is_monotone(a: Scalar, b: Scalar)
    requires
        a.less(b),
    ensures
        channel_of(a) <= channel_of(b),
{
    let lo = Scalar { bits: 0 };
    let top = Scalar { bits: CHANNEL_TOP_BITS };
    let va = clamped(a, lo, top);
    let vb = clamped(b, lo, top);
    lemma_whole_is_monotone(va, vb);
}

/// Up to 0.999, the whole part of 256 times a magnitude grows with the
/// magnitude.
proof fn lemma_whole_is_monotone(a: Scalar, b: Scalar)
    requires
        a.magnitude() <= b.magnitude() <= CHANNEL_TOP_BITS,
    ensures
        0 <= whole_of_256_times(a) <= whole_of_256_times(b),
{
    let range = FRACTION_RANGE as int;
    let (ea, fa) = (a.magnitude() / range, a.magnitude() % range);
    let (eb, fb) = (b.magnitude() / range, b.magnitude() % range);
    vstd::arithmetic::div_mod::lemma_fundamental_div_mod(a.magnitude(), range);
    vstd::arithmetic::div_mod::lemma_fundamental_div_mod(b.magnitude(), range);
    let xa = range + fa;
    let xb = range + fb;
    if eb != 0 {
        let db = pow2((142 - eb) as nat) as int;
        vstd::arithmetic::power2::lemma_pow2_pos((142 - eb) as nat);
        vstd::arithmetic::div_mod::lemma_div_pos_is_pos(xb, db);
        if ea == eb {
            vstd::arithmetic::div_mod::lemma_div_is_ordered(xa, xb, db);
            vstd::arithmetic::div_mod::lemma_div_pos_is_pos(xa, db);
        } else if ea != 0 {
            let da = pow2((142 - ea) as nat) as int;
            vstd::arithmetic::power2::lemma_pow2_pos((142 - ea) as nat);
            vstd::arithmetic::power2::lemma_pow2_unfold((143 - eb) as nat);
            if 142 - ea > 143 - eb {
                vstd::arithmetic::power2::lemma_pow2_strictly_increases(
                    (143 - eb) as nat,
                    (142 - ea) as nat,
                );
            }
            vstd::arithmetic::div_mod::lemma_div_is_ordered_by_denominator(xa, 2 * db, da);
            vstd::arithmetic::div_mod::lemma_div_denominator(xa, 2, db);
            vstd::arithmetic::div_mod::lemma_div_is_ordered(xa / 2, xb, db);
            vstd::arithmetic::div_mod::lemma_div_pos_is_pos(xa, da);
        }
    }
}

/// Below `2^-8` the whole part of 256 times a number is zero.
proof fn lemma_far_below_one(e: int, f: int)
    requires
        0 <= e < 119,
        0 <= f < FRACTION_RANGE,
    ensures
        e != 0 ==> (FRACTION_RANGE + f) / (pow2((142 - e) as nat) as int) == 0,
{
    if e != 0 {
        vstd::arithmetic::power2::lemma2_to64();
        if 142 - e > 24 {
            vstd::arithmetic::power2::lemma_pow2_strictly_increases(24, (142 - e) as nat);
        }
        vstd::arithmetic::div_mod::lemma_basic_div(
            FRACTION_RANGE + f,
            pow2((142 - e) as nat) as int,
        );
    }
}

/// Below one the whole part of 256 times a number is at most 255.
proof fn lemma_below_one(e: int, f: int)
    requires
        119 <= e <= 126,
        0 <= f < FRACTION_RANGE,
    ensures
        0 <= (FRACTION_RANGE + f) / (pow2((142 - e) as nat) as int) <= 255,
{
    vstd::arithmetic::power2::lemma2_to64();
    let d = pow2((142 - e) as nat) as int;
    if 142 - e > 16 {
        vstd::arithmetic::power2::lemma_pow2_strictly_increases(16, (142 - e) as nat);
    }
    vstd::arithmetic::power2::lemma_pow2_pos((142 - e) as nat);
    vstd::arithmetic::div_mod::lemma_div_is_ordered_by_denominator(FRACTION_RANGE + f, 0x10000, d);
    vstd::arithmetic::div_mod::lemma_div_pos_is_pos(FRACTION_RANGE + f, d);
}

} // verus!
