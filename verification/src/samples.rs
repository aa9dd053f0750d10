//! Audio samples as 16-bit PCM.
//!
//! A sample comes as the bit pattern of a 32-bit float and leaves as the integer that scaling the
//! float by 32767, in 32-bit floating point, and rounding it would give.
use vstd::prelude::*;
use vstd::arithmetic::power2;

use crate::rounding;
use crate::rounding::{round_dyadic, round_half_up, LEAD_32};

verus! {

/// The format of the audio file.
#[derive(Clone, Copy, PartialEq, Eq, Structural, Debug)]
pub struct WavFormat {
    pub channels: u16,
    pub sample_rate: u32,
    pub bits_per_sample: u16,
}

/// The format in which audio is handed on: one channel of 16-bit integers.
pub fn wav_format(sample_rate: u32) -> (format: WavFormat)
    ensures
        format == (WavFormat { channels: 1, sample_rate, bits_per_sample: 16 }),
{
    WavFormat { channels: 1, sample_rate, bits_per_sample: 16 }
}

/// The bit pattern without its sign: floats of one sign are ordered as these are.
pub open spec fn magnitude(bits: u32) -> nat {
    bits as nat % 0x8000_0000
}

/// The sign bit.
pub open spec fn is_negative(bits: u32) -> bool {
    bits >= 0x8000_0000
}

/// The bit pattern of one.
pub open spec fn one() -> nat {
    0x3f80_0000
}

/// The bit pattern of infinity; every larger magnitude is that of a NaN.
pub open spec fn infinity() -> nat {
    0x7f80_0000
}

/// The significand of a finite float, as an integer.
pub open spec fn significand(mag: nat) -> nat {
    if mag / 0x80_0000 == 0 {
        mag % 0x80_0000
    } else {
        0x80_0000 + mag % 0x80_0000
    }
}

/// The number of bits of the significand that stand behind the binary point, in a float below one.
pub open spec fn fraction_bits(mag: nat) -> nat {
    if mag / 0x80_0000 == 0 {
        149
    } else {
        (150 - mag / 0x80_0000) as nat
    }
}

/// The exact product of a float below one and 32767.
pub open spec fn scaled(mag: nat) -> rounding::Fraction {
    rounding::Fraction {
        num: 32767 * significand(mag),
        den: power2::pow2(fraction_bits(mag)),
    }
}

/// The absolute value of a sample in PCM: 32767 from one upward, 0 for a NaN, and below one the
/// product with 32767, rounded to a 32-bit float and then to the nearest integer, ties away from
/// zero.
pub open spec fn quantized_magnitude(mag: nat) -> nat {
    if mag > infinity() {
        0
    } else if mag >= one() {
        32767
    } else {
        let product = rounding::nearest_float(scaled(mag), LEAD_32 as nat);
        rounding::half_up(product.num, product.den)
    }
}

/// A sample in PCM.
pub open spec fn quantized(bits: u32) -> int {
    if is_negative(bits) {
        -(quantized_magnitude(magnitude(bits)) as int)
    } else {
        quantized_magnitude(magnitude(bits)) as int
    }
}

/// Below one the significand has at most 24 bits, all behind the point.
proof fn lemma_scaled_below_one(mag: nat)
    requires
        mag < one(),
    ensures
        significand(mag) < 0x100_0000,
        mag >= 0x80_0000 ==> significand(mag) >= 0x80_0000,
        24 <= fraction_bits(mag) <= 149,
        scaled(mag).den >= 0x100_0000,
        rounding::at_most(scaled(mag), rounding::Fraction { num: 32767, den: 1 }),
{
    assert(mag / 0x80_0000 <= 126);
    power2::lemma2_to64();
    if fraction_bits(mag) > 24 {
        power2::lemma_pow2_strictly_increases(24, fraction_bits(mag));
    }
    assert(power2::pow2(24) == 0x100_0000);
}

/// No sample leaves the range of PCM.
proof fn lemma_quantized_bound(mag: nat)
    ensures
        quantized_magnitude(mag) <= 32767,
{
    if mag < one() {
        lemma_scaled_below_one(mag);
        let lead = LEAD_32 as nat;
        let top = rounding::Fraction { num: 32767, den: 1 };
        rounding::law_nearest_float_is_monotonic(scaled(mag), top, lead);
        rounding::law_integers_are_exact(top, 32767, lead);
        rounding::lemma_nearest_float_shape(scaled(mag), lead);
        rounding::lemma_nearest_float_shape(top, lead);
        let (f, t) = (
            rounding::nearest_float(scaled(mag), lead),
            rounding::nearest_float(top, lead),
        );
        assert(f.num * 1 <= 32767 * f.den) by (nonlinear_arith)
            requires
                f.num * t.den <= t.num * f.den,
                t.num == 32767 * t.den,
                t.den > 0,
        ;
        rounding::law_half_up_is_monotonic(f, top);
        assert(rounding::half_up(32767, 1) == 65535nat / 2);
    }
}

/// Samples far below the smallest step of PCM become silence.
proof fn lemma_small_is_silent(mag: nat)
    requires
        mag < 109 * 0x80_0000,
    ensures
        quantized_magnitude(mag) == 0,
{
    let lead = LEAD_32 as nat;
    let f = scaled(mag);
    lemma_scaled_below_one(mag);
    power2::lemma2_to64_rest();
    if fraction_bits(mag) > 42 {
        power2::lemma_pow2_strictly_increases(42, fraction_bits(mag));
    }
    assert(power2::pow2(42) == 0x400_0000_0000);
    rounding::lemma_nearest_float_shape(f, lead);
    let p = rounding::nearest_float(f, lead);
    if f.num > 0 {
        assert(p.den > 8 * lead) by (nonlinear_arith)
            requires
                f.num * p.den >= lead * f.den,
                8 * f.num < f.den,
                f.num > 0,
                lead > 0,
        ;
    }
    assert((2 * p.num + p.den) / (2 * p.den) == 0) by (nonlinear_arith)
        requires
            2 * p.num < p.den,
            p.den > 0,
    ;
}

/// The sample with the bit pattern `bits` in PCM.
pub fn quantize_sample(bits: u32) -> (value: i16)
    ensures
        value == quantized(bits),
{
    let mag: u32 = bits % 0x8000_0000;
    proof {
        lemma_quantized_bound(mag as nat);
    }
    let level: i16 = if mag > 0x7f80_0000 {
        0
    } else if mag >= 0x3f80_0000 {
        32767
    } else if mag < 109 * 0x80_0000 {
        proof {
            lemma_small_is_silent(mag as nat);
        }
        0
    } else {
        let bits_behind: u32 = 150 - mag / 0x80_0000;
        let mut den: u128 = 1;
        let mut k: u32 = 0;
        proof {
            reveal(power2::is_pow2);
            power2::lemma2_to64();
        }
        while k < bits_behind
            invariant
                k <= bits_behind <= 41,
                den == power2::pow2(k as nat),
                den <= 0x200_0000_0000,
                power2::is_pow2(den as int),
            decreases bits_behind - k,
        {
            proof {
                reveal(power2::is_pow2);
                power2::lemma_pow2_unfold(k as nat + 1);
                power2::lemma2_to64_rest();
                if k + 1 < 41 {
                    power2::lemma_pow2_strictly_increases(k as nat + 1, 41);
                }
                assert((2 * den) / 2 == den);
            }
            den = 2 * den;
            k = k + 1;
        }
        let significand: u128 = (0x80_0000 + mag % 0x80_0000) as u128;
        proof {
            lemma_scaled_below_one(mag as nat);
            rounding::lemma_nearest_float_shape(scaled(mag as nat), LEAD_32 as nat);
        }
        let (p, d): (u128, u128) = round_dyadic(32767 * significand, den, LEAD_32);
        round_half_up(p, d) as i16
    };
    if bits >= 0x8000_0000 {
        -level
    } else {
        level
    }
}

/// Every sample in PCM, in order.
pub fn quantize_samples(bits: &[u32]) -> (pcm: Vec<i16>)
    ensures
        pcm@.len() == bits@.len(),
        forall|i: int| 0 <= i < bits@.len() ==> #[trigger] pcm@[i] == quantized(bits@[i]),
{
    let mut pcm: Vec<i16> = Vec::new();
    let mut i: usize = 0;
    while i < bits.len()
        invariant
            i <= bits@.len(),
            pcm@.len() == i,
            forall|j: int| 0 <= j < i ==> #[trigger] pcm@[j] == quantized(bits@[j]),
        decreases bits@.len() - i,
    {
        pcm.push(quantize_sample(bits[i]));
        i = i + 1;
    }
    pcm
}

/// A larger magnitude below one is a larger product.
proof fn lemma_scaled_monotonic(m1: nat, m2: nat)
    requires
        m1 <= m2 < one(),
    ensures
        rounding::at_most(scaled(m1), scaled(m2)),
{
    lemma_scaled_below_one(m1);
    lemma_scaled_below_one(m2);
    let (s1, s2) = (significand(m1), significand(m2));
    let (d1, d2) = (scaled(m1).den, scaled(m2).den);
    if fraction_bits(m1) == fraction_bits(m2) {
        assert(s1 <= s2);
        assert((32767 * s1) * d2 <= (32767 * s2) * d1) by (nonlinear_arith)
            requires
                s1 <= s2,
                d1 == d2,
        ;
    } else {
        let k = fraction_bits(m2);
        assert(fraction_bits(m1) > k);
        power2::lemma_pow2_unfold(k + 1);
        if fraction_bits(m1) > k + 1 {
            power2::lemma_pow2_strictly_increases(k + 1, fraction_bits(m1));
        }
        assert((32767 * s1) * d2 <= (32767 * s2) * d1) by (nonlinear_arith)
            requires
                s1 <= 0x100_0000,
                s2 >= 0x80_0000,
                d1 >= 2 * d2,
        ;
    }
}

/// A louder sample is never quieter in PCM, up to infinity.
proof fn lemma_louder_is_not_quieter(m1: nat, m2: nat)
    requires
        m1 <= m2 <= infinity(),
    ensures
        quantized_magnitude(m1) <= quantized_magnitude(m2),
{
    lemma_quantized_bound(m1);
    if m2 < one() {
        let lead = LEAD_32 as nat;
        lemma_scaled_below_one(m1);
        lemma_scaled_below_one(m2);
        lemma_scaled_monotonic(m1, m2);
        rounding::law_nearest_float_is_monotonic(scaled(m1), scaled(m2), lead);
        rounding::lemma_nearest_float_shape(scaled(m1), lead);
        rounding::lemma_nearest_float_shape(scaled(m2), lead);
        rounding::law_half_up_is_monotonic(
            rounding::nearest_float(scaled(m1), lead),
            rounding::nearest_float(scaled(m2), lead),
        );
    }
}

/// The float with the bit pattern `a` is at most the one with `b`, neither being a NaN.
pub open spec fn is_at_most(a: u32, b: u32) -> bool {
    &&& magnitude(a) <= infinity()
    &&& magnitude(b) <= infinity()
    &&& if is_negative(a) {
        is_negative(b) ==> magnitude(b) <= magnitude(a)
    } else if is_negative(b) {
        magnitude(a) == 0 && magnitude(b) == 0
    } else {
        magnitude(a) <= magnitude(b)
    }
}

/// Conversion to PCM keeps the order of samples.
pub proof fn law_quantizing_keeps_order(a: u32, b: u32)
    requires
        is_at_most(a, b),
    ensures
        quantized(a) <= quantized(b),
{
    if is_negative(a) && is_negative(b) {
        lemma_louder_is_not_quieter(magnitude(b), magnitude(a));
    } else if is_negative(b) {
        lemma_small_is_silent(0);
    } else if !is_negative(a) {
        lemma_louder_is_not_quieter(magnitude(a), magnitude(b));
    }
}

/// Flipping the sign of a sample flips the sign of its PCM value, which never leaves the range
/// from -32767 to 32767.
pub proof fn law_quantizing_is_symmetric(bits: u32)
    requires
        !is_negative(bits),
    ensures
        quantized((bits + 0x8000_0000) as u32) == -quantized(bits),
        0 <= quantized(bits) <= 32767,
{
    lemma_quantized_bound(magnitude(bits));
    assert((bits as nat + 0x8000_0000) % 0x8000_0000 == bits as nat);
}

/// Below full scale a sample becomes 32767 times its value, to within less than one level.
pub proof fn law_quantizing_is_within_a_level(mag: nat)
    requires
        mag < one(),
    ensures
        -(scaled(mag).den as int) < quantized_magnitude(mag) * scaled(mag).den - scaled(mag).num
            < scaled(mag).den,
{
    let lead = LEAD_32 as nat;
    let f = scaled(mag);
    let p = rounding::nearest_float(f, lead);
    let q = quantized_magnitude(mag);
    lemma_scaled_below_one(mag);
    rounding::lemma_nearest_float_shape(f, lead);
    rounding::law_half_up_is_within_a_half(p.num, p.den);
    rounding::law_half_even_is_within_a_half(f.num * p.den, f.den);
    if f.num == 0 {
        assert(q == 0) by {
            assert((2 * 0 + p.den) / (2 * p.den) == 0) by (nonlinear_arith)
                requires
                    p.den > 0,
            ;
        }
        assert(0 * f.den == 0);
    } else {
        assert(p.den > 1) by (nonlinear_arith)
            requires
                f.num * p.den >= lead * f.den,
                f.num * 1 <= 32767 * f.den,
                lead == 0x80_0000,
                f.den > 0,
        ;
        assert(q * f.den - f.num < f.den) by (nonlinear_arith)
            requires
                2 * (q * p.den - p.num) <= p.den,
                2 * (p.num * f.den - f.num * p.den) <= f.den,
                p.den > 1,
                f.den > 0,
        ;
        assert(q * f.den - f.num > -(f.den as int)) by (nonlinear_arith)
            requires
                2 * (q * p.den - p.num) >= -(p.den as int),
                2 * (p.num * f.den - f.num * p.den) >= -(f.den as int),
                p.den > 1,
                f.den > 0,
        ;
    }
}

/// Silence stays silence, and everything from one upward is full scale.
pub proof fn law_quantizing_fixes_silence_and_full_scale(mag: nat)
    ensures
        quantized_magnitude(0) == 0,
        one() <= mag <= infinity() ==> quantized_magnitude(mag) == 32767,
{
    lemma_small_is_silent(0);
}

/// A sample below one becomes the level nearest to 32767 times its value, and misses that product
/// by hardly more than half a level: its value is the significand `2^23 + fraction`, with the
/// binary point moved by the exponent.
pub proof fn law_quantizing_takes_the_nearest_level(exponent: nat, fraction: nat, bits: u32)
    requires
        1 <= exponent <= 126,
        fraction < 0x80_0000,
        bits == exponent * 0x80_0000 + fraction,
    ensures
        ({
            let step = power2::pow2((150 - exponent) as nat);
            let product = 32767 * (0x80_0000 + fraction);
            -257 * step <= 512 * (quantized(bits) * step - product) <= 257 * step
        }),
{
    let mag = bits as nat;
    let lead = LEAD_32 as nat;
    assert(mag / 0x80_0000 == exponent && mag % 0x80_0000 == fraction);
    let f = rounding::Fraction {
        num: (32767 * (0x80_0000 + fraction)) as nat,
        den: power2::pow2((150 - exponent) as nat),
    };
    assert(scaled(mag) == f);
    lemma_scaled_below_one(mag);
    rounding::lemma_nearest_float_shape(f, lead);
    let p = rounding::nearest_float(f, lead);
    assert(p.den >= 256) by (nonlinear_arith)
        requires
            f.num * p.den >= lead * f.den,
            f.num <= 32767 * f.den,
            f.den > 0,
            lead == 0x80_0000,
    ;
    rounding::law_nearest_float_is_nearest(f, lead, p.num as int);
    rounding::law_half_even_is_within_a_half(f.num * p.den, f.den);
    rounding::law_half_up_is_within_a_half(p.num, p.den);
    let q = rounding::half_up(p.num, p.den) as int;
    let (pn, pd, fn_, fd) = (p.num as int, p.den as int, f.num as int, f.den as int);
    assert(-257 * fd <= 512 * (q * fd - fn_) <= 257 * fd) by (nonlinear_arith)
        requires
            -fd <= 2 * (pn * fd - fn_ * pd) <= fd,
            -pd <= 2 * (q * pd - pn) <= pd,
            pd >= 256,
            fd > 0,
    ;
}

/// A sample below `2^-18`, however small, becomes silence, and so does
/// one that is not a number; one from one upward, infinity among them, has full scale.
pub proof fn law_extreme_samples(bits: u32)
    ensures
        bits < 109 * 0x80_0000 ==> quantized(bits) == 0,
        0x3f80_0000 <= bits <= 0x7f80_0000 ==> quantized(bits) == 32767,
        0x7f80_0000 < bits < 0x8000_0000 ==> quantized(bits) == 0,
{
    if bits < 109 * 0x80_0000 {
        lemma_small_is_silent(bits as nat);
    }
}

} // verus!
