//! How long to wait for a transcript.
use vstd::prelude::*;
use vstd::arithmetic::power2;
use std::time::Duration;

use crate::rounding;
use crate::rounding::{round_dyadic, round_half_even, round_ratio, LEAD_64};

verus! {

/// Nanoseconds in a second.
pub const NANOS_PER_SECOND: u64 = 1_000_000_000;

/// The seconds that audio of `sample_count` samples is given before the limits apply: three times
/// its length and thirty more, each step rounded as 64-bit floating point rounds it. A count or a
/// length too large for such a float to hold is far beyond the limit, whatever its rounding.
pub open spec fn timeout_seconds(sample_count: nat, sample_rate: nat) -> rounding::Fraction {
    let lead = LEAD_64 as nat;
    let audio = rounding::nearest_float(
        rounding::Fraction { num: sample_count, den: sample_rate },
        lead,
    );
    let tripled = rounding::nearest_float(
        rounding::Fraction { num: 3 * audio.num, den: audio.den },
        lead,
    );
    rounding::nearest_float(
        rounding::Fraction { num: tripled.num + 30 * tripled.den, den: tripled.den },
        lead,
    )
}

/// The whole number `n` as a fraction.
pub open spec fn whole(n: nat) -> rounding::Fraction {
    rounding::Fraction { num: n, den: 1 }
}

/// The nanoseconds that audio of `sample_count` samples is given: the seconds above, held between
/// 30 and 240 and rounded to the nearest nanosecond. Audio without a sample rate lasts forever.
pub open spec fn timeout_nanos(sample_count: nat, sample_rate: nat) -> nat {
    let seconds = timeout_seconds(sample_count, sample_rate);
    if sample_rate == 0 || rounding::at_most(whole(240), seconds) {
        240_000_000_000
    } else if rounding::at_most(seconds, whole(30)) {
        30_000_000_000
    } else {
        rounding::half_even(seconds.num * 1_000_000_000, seconds.den)
    }
}

/// The duration of `seconds` and `nanos` as std's `Duration::new` makes it.
pub uninterp spec fn duration_of(seconds: u64, nanos: u32) -> Duration;

/// `Duration::new` on a number of nanoseconds below a second: the result is a function of the two
/// numbers. With no second to carry over it does not panic. What a `Duration` is made of is not
/// said.
pub assume_specification[ Duration::new ](secs: u64, nanos: u32) -> (d: Duration)
    requires
        nanos < 1_000_000_000,
    ensures
        d == duration_of(secs, nanos),
;

/// The wait for audio of `sample_count` samples, in seconds and nanoseconds.
pub open spec fn timeout_duration(sample_count: nat, sample_rate: nat) -> Duration {
    let nanos = timeout_nanos(sample_count, sample_rate);
    duration_of((nanos / 1_000_000_000) as u64, (nanos % 1_000_000_000) as u32)
}

/// To compare with a whole number is to compare the numerator with a multiple of the denominator.
proof fn lemma_whole(f: rounding::Fraction, n: nat)
    ensures
        rounding::at_most(f, whole(n)) <==> f.num <= n * f.den,
        rounding::at_most(whole(n), f) <==> n * f.den <= f.num,
{
    assert(f.num * 1 == f.num) by (nonlinear_arith);
}

/// Fractions ordered one way round stay so through each step of the computation.
proof fn lemma_seconds_monotonic(n1: nat, r1: nat, n2: nat, r2: nat)
    requires
        r1 > 0,
        r2 > 0,
        n1 * r2 <= n2 * r1,
    ensures
        rounding::at_most(timeout_seconds(n1, r1), timeout_seconds(n2, r2)),
        timeout_seconds(n1, r1).den > 0,
        timeout_seconds(n2, r2).den > 0,
{
    let lead = LEAD_64 as nat;
    let (a1, a2) = (
        rounding::Fraction { num: n1, den: r1 },
        rounding::Fraction { num: n2, den: r2 },
    );
    rounding::law_nearest_float_is_monotonic(a1, a2, lead);
    rounding::lemma_nearest_float_shape(a1, lead);
    rounding::lemma_nearest_float_shape(a2, lead);
    let (b1, b2) = (rounding::nearest_float(a1, lead), rounding::nearest_float(a2, lead));
    let (c1, c2) = (
        rounding::Fraction { num: 3 * b1.num, den: b1.den },
        rounding::Fraction { num: 3 * b2.num, den: b2.den },
    );
    assert(c1.num * c2.den <= c2.num * c1.den) by (nonlinear_arith)
        requires
            b1.num * b2.den <= b2.num * b1.den,
            c1.num == 3 * b1.num,
            c2.num == 3 * b2.num,
            c1.den == b1.den,
            c2.den == b2.den,
    ;
    rounding::law_nearest_float_is_monotonic(c1, c2, lead);
    rounding::lemma_nearest_float_shape(c1, lead);
    rounding::lemma_nearest_float_shape(c2, lead);
    let (d1, d2) = (rounding::nearest_float(c1, lead), rounding::nearest_float(c2, lead));
    let (e1, e2) = (
        rounding::Fraction { num: d1.num + 30 * d1.den, den: d1.den },
        rounding::Fraction { num: d2.num + 30 * d2.den, den: d2.den },
    );
    assert(e1.num * e2.den <= e2.num * e1.den) by (nonlinear_arith)
        requires
            d1.num * d2.den <= d2.num * d1.den,
            e1.num == d1.num + 30 * d1.den,
            e2.num == d2.num + 30 * d2.den,
            e1.den == d1.den,
            e2.den == d2.den,
    ;
    rounding::law_nearest_float_is_monotonic(e1, e2, lead);
    rounding::lemma_nearest_float_shape(e1, lead);
    rounding::lemma_nearest_float_shape(e2, lead);
}

/// Audio of a whole number of seconds loses nothing to rounding.
proof fn lemma_seconds_of_whole(n: nat, r: nat, k: nat)
    requires
        r > 0,
        n == k * r,
    ensures
        timeout_seconds(n, r).num == (30 + 3 * k) * timeout_seconds(n, r).den,
        timeout_seconds(n, r).den > 0,
{
    let lead = LEAD_64 as nat;
    let a = rounding::Fraction { num: n, den: r };
    rounding::law_integers_are_exact(a, k, lead);
    rounding::lemma_nearest_float_shape(a, lead);
    let b = rounding::nearest_float(a, lead);
    let c = rounding::Fraction { num: 3 * b.num, den: b.den };
    assert(c.num == (3 * k) * c.den) by (nonlinear_arith)
        requires
            b.num == k * b.den,
            c.num == 3 * b.num,
            c.den == b.den,
    ;
    rounding::law_integers_are_exact(c, 3 * k, lead);
    rounding::lemma_nearest_float_shape(c, lead);
    let d = rounding::nearest_float(c, lead);
    let e = rounding::Fraction { num: d.num + 30 * d.den, den: d.den };
    assert(e.num == (30 + 3 * k) * e.den) by (nonlinear_arith)
        requires
            d.num == (3 * k) * d.den,
            e.num == d.num + 30 * d.den,
            e.den == d.den,
    ;
    rounding::law_integers_are_exact(e, 30 + 3 * k, lead);
    rounding::lemma_nearest_float_shape(e, lead);
}

/// Audio of 70 seconds or more is given the longest wait.
proof fn lemma_long_audio(n: nat, r: nat)
    requires
        r > 0,
        n >= 70 * r,
    ensures
        timeout_nanos(n, r) == 240_000_000_000,
{
    lemma_seconds_of_whole(70 * r, r, 70);
    assert((70 * r) * r <= n * r) by (nonlinear_arith)
        requires
            n >= 70 * r,
    ;
    lemma_seconds_monotonic(70 * r, r, n, r);
    let (s, t) = (timeout_seconds(70 * r, r), timeout_seconds(n, r));
    assert(240 * t.den <= t.num * 1) by (nonlinear_arith)
        requires
            s.num == 240 * s.den,
            s.num * t.den <= t.num * s.den,
            s.den > 0,
    ;
}

/// Audio without samples is given the shortest wait.
proof fn lemma_no_audio(r: nat)
    requires
        r > 0,
    ensures
        timeout_nanos(0, r) == 30_000_000_000,
{
    let s = timeout_seconds(0, r);
    lemma_seconds_of_whole(0, r, 0);
    lemma_whole(s, 30);
    lemma_whole(s, 240);
    assert(s.num == 30 * s.den);
}

/// The wait in nanoseconds for audio of `sample_count` samples.
pub fn recognition_timeout_nanos(sample_count: usize, sample_rate: u32) -> (nanos: u64)
    requires
        sample_count > 0 || sample_rate > 0,
    ensures
        nanos == timeout_nanos(sample_count as nat, sample_rate as nat),
        30_000_000_000 <= nanos <= 240_000_000_000,
{
    let n: u128 = sample_count as u128;
    let r: u128 = sample_rate as u128;
    if r == 0 {
        return 240_000_000_000;
    }
    if n >= 70 * r {
        proof {
            lemma_long_audio(n as nat, r as nat);
        }
        return 240_000_000_000;
    }
    if n == 0 {
        proof {
            lemma_no_audio(r as nat);
        }
        return 30_000_000_000;
    }
    let ghost lead = LEAD_64 as nat;
    let ghost f0 = rounding::Fraction { num: n as nat, den: r as nat };
    proof {
        assert(LEAD_64 * r <= 0x10_0000_0000_0000 * 0x1_0000_0000) by (nonlinear_arith)
            requires
                LEAD_64 == 0x10_0000_0000_0000,
                r <= 0x1_0000_0000,
        ;
        rounding::lemma_nearest_float_shape(f0, lead);
        lemma_whole(f0, 70);
        rounding::law_nearest_float_is_monotonic(f0, whole(70), lead);
        rounding::law_integers_are_exact(whole(70), 70, lead);
        rounding::lemma_nearest_float_shape(whole(70), lead);
    }
    let (a, ad): (u128, u128) = round_ratio(n, r, LEAD_64);
    proof {
        let b = rounding::nearest_float(whole(70), lead);
        assert(a <= 70 * ad) by (nonlinear_arith)
            requires
                a * b.den <= b.num * ad,
                b.num == 70 * b.den,
                b.den > 0,
        ;
        assert(ad <= 1 || ad < 2 * (LEAD_64 * r)) by (nonlinear_arith)
            requires
                ad == 1 || n * ad < 2 * (LEAD_64 * r),
                n >= 1,
        ;
        assert(3 * a < 2 * (LEAD_64 * ad)) by (nonlinear_arith)
            requires
                a <= 70 * ad,
                ad >= 1,
                LEAD_64 == 0x10_0000_0000_0000,
        ;
    }
    let ghost f1 = rounding::Fraction { num: 3 * a as nat, den: ad as nat };
    let (t, td): (u128, u128) = round_dyadic(3 * a, ad, LEAD_64);
    proof {
        rounding::lemma_nearest_float_shape(f1, lead);
        lemma_whole(f1, 210);
        rounding::law_nearest_float_is_monotonic(f1, whole(210), lead);
        rounding::law_integers_are_exact(whole(210), 210, lead);
        rounding::lemma_nearest_float_shape(whole(210), lead);
        let b = rounding::nearest_float(whole(210), lead);
        assert(t <= 210 * td) by (nonlinear_arith)
            requires
                t * b.den <= b.num * td,
                b.num == 210 * b.den,
                b.den > 0,
        ;
        assert(t + 30 * td < 2 * (LEAD_64 * td)) by (nonlinear_arith)
            requires
                t <= 210 * td,
                td >= 1,
                LEAD_64 == 0x10_0000_0000_0000,
        ;
    }
    let ghost f2 = rounding::Fraction { num: (t + 30 * td) as nat, den: td as nat };
    let (s, sd): (u128, u128) = round_dyadic(t + 30 * td, td, LEAD_64);
    proof {
        rounding::lemma_nearest_float_shape(f2, lead);
        lemma_whole(f2, 240);
        rounding::law_nearest_float_is_monotonic(f2, whole(240), lead);
        rounding::law_integers_are_exact(whole(240), 240, lead);
        rounding::lemma_nearest_float_shape(whole(240), lead);
        let b = rounding::nearest_float(whole(240), lead);
        assert(s <= 240 * sd) by (nonlinear_arith)
            requires
                s * b.den <= b.num * sd,
                b.num == 240 * b.den,
                b.den > 0,
        ;
        let seconds = timeout_seconds(n as nat, r as nat);
        lemma_whole(seconds, 240);
        lemma_whole(seconds, 30);
    }
    if s >= 240 * sd {
        return 240_000_000_000;
    }
    if s <= 30 * sd {
        return 30_000_000_000;
    }
    let nanos: u128 = round_half_even(s * 1_000_000_000, sd);
    proof {
        let f = rounding::Fraction { num: (s * 1_000_000_000) as nat, den: sd as nat };
        lemma_whole(f, 240_000_000_000);
        lemma_whole(f, 30_000_000_000);
        rounding::law_half_even_is_monotonic(f, whole(240_000_000_000));
        rounding::law_half_even_is_monotonic(whole(30_000_000_000), f);
        assert(rounding::half_even(240_000_000_000, 1) == 240_000_000_000);
        assert(rounding::half_even(30_000_000_000, 1) == 30_000_000_000);
    }
    nanos as u64
}

/// The wait for audio of `sample_count` samples. No samples at no rate have no length, and are
/// left out.
pub fn recognition_timeout(sample_count: usize, sample_rate: u32) -> (timeout: Duration)
    requires
        sample_count > 0 || sample_rate > 0,
    ensures
        timeout == timeout_duration(sample_count as nat, sample_rate as nat),
{
    let nanos: u64 = recognition_timeout_nanos(sample_count, sample_rate);
    Duration::new(nanos / NANOS_PER_SECOND, (nanos % NANOS_PER_SECOND) as u32)
}

/// The nanoseconds of one wait are no more than those of another where its seconds are not.
proof fn lemma_nanos_monotonic(n1: nat, r1: nat, n2: nat, r2: nat)
    requires
        r1 > 0,
        r2 > 0,
        rounding::at_most(timeout_seconds(n1, r1), timeout_seconds(n2, r2)),
        timeout_seconds(n1, r1).den > 0,
        timeout_seconds(n2, r2).den > 0,
    ensures
        timeout_nanos(n1, r1) <= timeout_nanos(n2, r2),
{
    let (s, t) = (timeout_seconds(n1, r1), timeout_seconds(n2, r2));
    law_timeout_is_between_30_and_240_seconds(n1, r1);
    law_timeout_is_between_30_and_240_seconds(n2, r2);
    if rounding::at_most(whole(240), s) {
        assert(240 * t.den <= t.num * 1) by (nonlinear_arith)
            requires
                240 * s.den <= s.num * 1,
                s.num * t.den <= t.num * s.den,
                s.den > 0,
        ;
    } else if rounding::at_most(t, whole(30)) {
        assert(s.num * 1 <= 30 * s.den) by (nonlinear_arith)
            requires
                t.num * 1 <= 30 * t.den,
                s.num * t.den <= t.num * s.den,
                t.den > 0,
        ;
    } else {
        let f = rounding::Fraction { num: s.num * 1_000_000_000, den: s.den };
        let g = rounding::Fraction { num: t.num * 1_000_000_000, den: t.den };
        assert(f.num * g.den <= g.num * f.den) by (nonlinear_arith)
            requires
                f.num == s.num * 1_000_000_000,
                g.num == t.num * 1_000_000_000,
                f.den == s.den,
                g.den == t.den,
                s.num * t.den <= t.num * s.den,
        ;
        rounding::law_half_even_is_monotonic(f, g);
    }
}

/// No wait is shorter than 30 seconds or longer than 240.
pub proof fn law_timeout_is_between_30_and_240_seconds(sample_count: nat, sample_rate: nat)
    ensures
        30_000_000_000 <= timeout_nanos(sample_count, sample_rate) <= 240_000_000_000,
{
    let s = timeout_seconds(sample_count, sample_rate);
    if sample_rate > 0 && !rounding::at_most(whole(240), s) && !rounding::at_most(s, whole(30)) {
        assert(sample_count * sample_rate <= sample_count * sample_rate);
        lemma_seconds_monotonic(sample_count, sample_rate, sample_count, sample_rate);
        let f = rounding::Fraction { num: s.num * 1_000_000_000, den: s.den };
        lemma_whole(s, 240);
        lemma_whole(s, 30);
        lemma_whole(f, 240_000_000_000);
        lemma_whole(f, 30_000_000_000);
        rounding::law_half_even_is_monotonic(f, whole(240_000_000_000));
        rounding::law_half_even_is_monotonic(whole(30_000_000_000), f);
        assert(rounding::half_even(240_000_000_000, 1) == 240_000_000_000);
        assert(rounding::half_even(30_000_000_000, 1) == 30_000_000_000);
    }
}

/// More samples at the same rate are never given less time.
pub proof fn law_timeout_grows_with_the_audio(n1: nat, n2: nat, sample_rate: nat)
    requires
        n1 <= n2,
    ensures
        timeout_nanos(n1, sample_rate) <= timeout_nanos(n2, sample_rate),
{
    if sample_rate > 0 {
        assert(n1 * sample_rate <= n2 * sample_rate) by (nonlinear_arith)
            requires
                n1 <= n2,
        ;
        lemma_seconds_monotonic(n1, sample_rate, n2, sample_rate);
        lemma_nanos_monotonic(n1, sample_rate, n2, sample_rate);
    }
}

/// The same samples at a higher rate are shorter audio, and never given more time.
pub proof fn law_timeout_shrinks_with_the_rate(sample_count: nat, r1: nat, r2: nat)
    requires
        r1 <= r2,
    ensures
        timeout_nanos(sample_count, r1) >= timeout_nanos(sample_count, r2),
{
    if r1 > 0 {
        assert(sample_count * r1 <= sample_count * r2) by (nonlinear_arith)
            requires
                r1 <= r2,
        ;
        lemma_seconds_monotonic(sample_count, r2, sample_count, r1);
        lemma_nanos_monotonic(sample_count, r2, sample_count, r1);
    } else {
        law_timeout_is_between_30_and_240_seconds(sample_count, r2);
    }
}

/// Audio of a whole number of seconds is given exactly three times its length and thirty seconds
/// more, up to the limit.
pub proof fn law_timeout_of_whole_seconds(seconds: nat, sample_rate: nat)
    requires
        sample_rate > 0,
    ensures
        seconds <= 70 ==> timeout_nanos(seconds * sample_rate, sample_rate) == (30 + 3 * seconds)
            * 1_000_000_000,
        seconds >= 70 ==> timeout_nanos(seconds * sample_rate, sample_rate) == 240_000_000_000,
{
    let n = seconds * sample_rate;
    let s = timeout_seconds(n, sample_rate);
    let k = 30 + 3 * seconds;
    if seconds >= 70 {
        assert(n >= 70 * sample_rate) by (nonlinear_arith)
            requires
                n == seconds * sample_rate,
                seconds >= 70,
        ;
        lemma_long_audio(n, sample_rate);
    }
    lemma_seconds_of_whole(n, sample_rate, seconds);
    if seconds < 70 {
        assert(s.num < 240 * s.den) by (nonlinear_arith)
            requires
                s.num == k * s.den,
                k < 240,
                s.den > 0,
        ;
        assert(s.num * 1_000_000_000 == (k * 1_000_000_000) * s.den) by (nonlinear_arith)
            requires
                s.num == k * s.den,
        ;
        let f = rounding::Fraction { num: s.num * 1_000_000_000, den: s.den };
        rounding::law_half_even_is_monotonic(f, whole(k * 1_000_000_000));
        rounding::law_half_even_is_monotonic(whole(k * 1_000_000_000), f);
        if rounding::at_most(s, whole(30)) {
            assert(k <= 30) by (nonlinear_arith)
                requires
                    s.num == k * s.den,
                    s.num * 1 <= 30 * s.den,
                    s.den > 0,
            ;
        }
    }
}

/// `2^40`: numbers with so many parts to the second are held exactly, up to the longest wait.
spec fn grid() -> nat {
    0x100_0000_0000
}

/// The number `n / 2^40`.
spec fn on_grid(n: nat) -> rounding::Fraction {
    rounding::Fraction { num: n, den: grid() }
}

/// To compare with such a number is to compare the two products.
proof fn lemma_on_grid(f: rounding::Fraction, n: nat)
    ensures
        rounding::at_most(f, on_grid(n)) <==> f.num * grid() <= n * f.den,
        rounding::at_most(on_grid(n), f) <==> n * f.den <= f.num * grid(),
{
}

/// What lies between two numbers of 40 fractional bits still does when it is rounded.
proof fn lemma_rounded_between(f: rounding::Fraction, lo: nat, hi: nat)
    requires
        f.den > 0,
        lo < 2 * LEAD_64,
        0 < hi < 2 * LEAD_64,
        lo * f.den <= f.num * grid() <= hi * f.den,
    ensures
        ({
            let g = rounding::nearest_float(f, LEAD_64 as nat);
            g.den > 0 && lo * g.den <= g.num * grid() <= hi * g.den
        }),
{
    let lead = LEAD_64 as nat;
    let g = rounding::nearest_float(f, lead);
    power2::lemma2_to64_rest();
    power2::is_pow2_equiv(grid() as int);
    power2::lemma_pow2(40);
    rounding::lemma_nearest_float_shape(f, lead);
    let b = on_grid(hi);
    rounding::law_short_fractions_are_exact(b, lead);
    lemma_on_grid(f, hi);
    rounding::law_nearest_float_is_monotonic(f, b, lead);
    let c = rounding::nearest_float(b, lead);
    assert(g.num * grid() <= hi * g.den) by (nonlinear_arith)
        requires
            g.num * c.den <= c.num * g.den,
            c.num * grid() == hi * c.den,
            c.den > 0,
    ;
    if lo > 0 {
        let b = on_grid(lo);
        rounding::law_short_fractions_are_exact(b, lead);
        lemma_on_grid(f, lo);
        rounding::law_nearest_float_is_monotonic(b, f, lead);
        let c = rounding::nearest_float(b, lead);
        assert(lo * g.den <= g.num * grid()) by (nonlinear_arith)
            requires
                c.num * g.den <= g.num * c.den,
                c.num * grid() == lo * c.den,
                c.den > 0,
        ;
    } else {
        assert(lo * g.den <= g.num * grid()) by (nonlinear_arith)
            requires
                lo == 0,
        ;
    }
}

/// Audio between two lengths is given seconds between three times those lengths and thirty more.
proof fn lemma_seconds_between(n: nat, r: nat, lo: nat, hi: nat)
    requires
        r > 0,
        lo * r <= n * grid() <= hi * r,
        0 < hi <= 70 * grid(),
        lo <= hi,
    ensures
        ({
            let s = timeout_seconds(n, r);
            s.den > 0 && (3 * lo + 30 * grid()) * s.den <= s.num * grid() <= (3 * hi + 30 * grid())
                * s.den
        }),
{
    let lead = LEAD_64 as nat;
    let a = rounding::Fraction { num: n, den: r };
    lemma_rounded_between(a, lo, hi);
    let b = rounding::nearest_float(a, lead);
    let c = rounding::Fraction { num: 3 * b.num, den: b.den };
    assert((3 * lo) * c.den <= c.num * grid() <= (3 * hi) * c.den) by (nonlinear_arith)
        requires
            lo * b.den <= b.num * grid() <= hi * b.den,
            c.num == 3 * b.num,
            c.den == b.den,
    ;
    lemma_rounded_between(c, 3 * lo, 3 * hi);
    let d = rounding::nearest_float(c, lead);
    let e = rounding::Fraction { num: d.num + 30 * d.den, den: d.den };
    assert((3 * lo + 30 * grid()) * e.den <= e.num * grid() <= (3 * hi + 30 * grid()) * e.den)
        by (nonlinear_arith)
        requires
            (3 * lo) * d.den <= d.num * grid() <= (3 * hi) * d.den,
            e.num == d.num + 30 * d.den,
            e.den == d.den,
    ;
    lemma_rounded_between(e, 3 * lo + 30 * grid(), 3 * hi + 30 * grid());
}

/// Between the limits the nanoseconds are the seconds, rounded; at the limits too.
proof fn lemma_nanos_within_limits(n: nat, r: nat)
    requires
        r > 0,
        timeout_seconds(n, r).den > 0,
        30 * timeout_seconds(n, r).den <= timeout_seconds(n, r).num,
        timeout_seconds(n, r).num <= 240 * timeout_seconds(n, r).den,
    ensures
        timeout_nanos(n, r) == rounding::half_even(
            timeout_seconds(n, r).num * 1_000_000_000,
            timeout_seconds(n, r).den,
        ),
{
    let s = timeout_seconds(n, r);
    lemma_whole(s, 30);
    lemma_whole(s, 240);
    let f = rounding::Fraction { num: s.num * 1_000_000_000, den: s.den };
    lemma_whole(f, 30_000_000_000);
    lemma_whole(f, 240_000_000_000);
    assert(rounding::half_even(240_000_000_000, 1) == 240_000_000_000);
    assert(rounding::half_even(30_000_000_000, 1) == 30_000_000_000);
    if s.num == 240 * s.den {
        rounding::law_half_even_is_monotonic(f, whole(240_000_000_000));
        rounding::law_half_even_is_monotonic(whole(240_000_000_000), f);
    } else if s.num == 30 * s.den {
        rounding::law_half_even_is_monotonic(f, whole(30_000_000_000));
        rounding::law_half_even_is_monotonic(whole(30_000_000_000), f);
    }
}

/// Audio shorter than 70 seconds is given three times its length and thirty seconds more, to
/// within a nanosecond, and indeed to hardly more than half of one.
pub proof fn law_timeout_is_within_a_nanosecond(sample_count: nat, sample_rate: nat)
    requires
        sample_count < 70 * sample_rate,
    ensures
        -(sample_rate as int) <= timeout_nanos(sample_count, sample_rate) * sample_rate
            - 1_000_000_000 * (3 * sample_count + 30 * sample_rate) <= sample_rate,
        -503 * sample_rate <= 1000 * (timeout_nanos(sample_count, sample_rate) * sample_rate
            - 1_000_000_000 * (3 * sample_count + 30 * sample_rate)) <= 503 * sample_rate,
{
    let (n, r) = (sample_count, sample_rate);
    let g = (n * grid()) / r;
    vstd::arithmetic::div_mod::lemma_fundamental_div_mod((n * grid()) as int, r as int);
    assert(g * r <= n * grid() <= (g + 1) * r) by (nonlinear_arith)
        requires
            n * grid() == r * g + (n * grid()) % r,
            0 <= (n * grid()) % r < r,
    ;
    assert(g + 1 <= 70 * grid()) by (nonlinear_arith)
        requires
            g * r <= n * grid(),
            n < 70 * r,
            grid() == 0x100_0000_0000,
            r > 0,
    ;
    lemma_seconds_between(n, r, g, g + 1);
    let s = timeout_seconds(n, r);
    let lo = 3 * g + 30 * grid();
    assert(30 * s.den <= s.num) by (nonlinear_arith)
        requires
            lo * s.den <= s.num * grid(),
            lo >= 30 * grid(),
            grid() == 0x100_0000_0000,
    ;
    assert(s.num <= 240 * s.den) by (nonlinear_arith)
        requires
            s.num * grid() <= (lo + 3) * s.den,
            lo + 3 <= 240 * grid(),
            grid() == 0x100_0000_0000,
    ;
    lemma_nanos_within_limits(n, r);
    let t = timeout_nanos(n, r);
    rounding::law_half_even_is_within_a_half(s.num * 1_000_000_000, s.den);
    assert(2 * t * grid() <= 2_000_000_000 * (lo + 3) + grid()) by (nonlinear_arith)
        requires
            2 * (t * s.den - s.num * 1_000_000_000) <= s.den,
            s.num * grid() <= (lo + 3) * s.den,
            s.den > 0,
            grid() == 0x100_0000_0000,
    ;
    assert(2 * t * grid() >= 2_000_000_000 * lo - grid()) by (nonlinear_arith)
        requires
            -(s.den as int) <= 2 * (t * s.den - s.num * 1_000_000_000),
            lo * s.den <= s.num * grid(),
            s.den > 0,
            grid() == 0x100_0000_0000,
    ;
    let exact = 3 * n + 30 * r;
    assert(lo * r <= exact * grid() <= (lo + 3) * r) by (nonlinear_arith)
        requires
            g * r <= n * grid() <= (g + 1) * r,
            lo == 3 * g + 30 * grid(),
            exact == 3 * n + 30 * r,
    ;
    assert(t * r <= 1_000_000_000 * exact + r) by (nonlinear_arith)
        requires
            2 * t * grid() <= 2_000_000_000 * (lo + 3) + grid(),
            lo * r <= exact * grid(),
            grid() == 0x100_0000_0000,
    ;
    assert(t * r + r >= 1_000_000_000 * exact) by (nonlinear_arith)
        requires
            2 * t * grid() >= 2_000_000_000 * lo - grid(),
            exact * grid() <= (lo + 3) * r,
            grid() == 0x100_0000_0000,
    ;
    assert(1000 * (t * r - 1_000_000_000 * exact) <= 503 * r) by (nonlinear_arith)
        requires
            2 * t * grid() <= 2_000_000_000 * (lo + 3) + grid(),
            lo * r <= exact * grid(),
            grid() == 0x100_0000_0000,
    ;
    assert(1000 * (t * r - 1_000_000_000 * exact) >= -503 * r) by (nonlinear_arith)
        requires
            2 * t * grid() >= 2_000_000_000 * lo - grid(),
            exact * grid() <= (lo + 3) * r,
            grid() == 0x100_0000_0000,
    ;
}

/// Audio shorter than 70 seconds is given less than the longest wait: with a rate of 32 bits it
/// is shorter by enough to show in the nanoseconds.
proof fn lemma_short_audio(n: nat, r: nat)
    requires
        n < 70 * r,
        r <= u32::MAX,
    ensures
        timeout_nanos(n, r) < 240_000_000_000,
{
    let hi = (70 * grid() - 256) as nat;
    assert(n * grid() <= hi * r) by (nonlinear_arith)
        requires
            n <= 70 * r - 1,
            r <= 0x1_0000_0000,
            hi == 70 * grid() - 256,
            grid() == 0x100_0000_0000,
    ;
    lemma_seconds_between(n, r, 0, hi);
    let s = timeout_seconds(n, r);
    let u = 3 * hi + 30 * grid();
    let top = on_grid(u * 1_000_000_000);
    let f = rounding::Fraction { num: s.num * 1_000_000_000, den: s.den };
    assert(f.num * top.den <= top.num * f.den) by (nonlinear_arith)
        requires
            s.num * grid() <= u * s.den,
            f.num == s.num * 1_000_000_000,
            f.den == s.den,
            top.num == u * 1_000_000_000,
            top.den == grid(),
    ;
    rounding::law_half_even_is_monotonic(f, top);
    assert(rounding::half_even(top.num, top.den) == 239_999_999_999);
    lemma_whole(s, 240);
    assert(s.num < 240 * s.den) by (nonlinear_arith)
        requires
            s.num * grid() <= u * s.den,
            u < 240 * grid(),
            s.den > 0,
            grid() == 0x100_0000_0000,
    ;
}

/// The longest wait is given exactly to audio of 70 seconds or more.
pub proof fn law_longest_wait_starts_at_70_seconds(sample_count: nat, sample_rate: nat)
    requires
        sample_rate <= u32::MAX,
    ensures
        timeout_nanos(sample_count, sample_rate) == 240_000_000_000 <==> sample_count >= 70
            * sample_rate,
{
    if sample_count < 70 * sample_rate {
        lemma_short_audio(sample_count, sample_rate);
    } else if sample_rate > 0 {
        lemma_long_audio(sample_count, sample_rate);
    }
}

/// The wait is the number of nanoseconds, as whole seconds and what is left over.
pub proof fn law_duration_is_seconds_and_nanoseconds(
    sample_count: nat,
    sample_rate: nat,
    seconds: u64,
    nanos: u32,
)
    requires
        nanos < 1_000_000_000,
        seconds * 1_000_000_000 + nanos == timeout_nanos(sample_count, sample_rate),
    ensures
        timeout_duration(sample_count, sample_rate) == duration_of(seconds, nanos),
{
    let t = timeout_nanos(sample_count, sample_rate);
    assert(t / 1_000_000_000 == seconds && t % 1_000_000_000 == nanos);
}

} // verus!
