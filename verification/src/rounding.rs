//! Rounding of non-negative rationals, as binary floating point does it.
//!
//! A float with a significand of `p` bits is handled here as a fraction whose denominator is a
//! power of two, and the smallest normal significand `2^(p-1)` stands for `p`.
use vstd::prelude::*;
use vstd::arithmetic::power2;

verus! {

/// `2^52`, the smallest normal significand of a 64-bit float.
pub const LEAD_64: u128 = 0x10_0000_0000_0000;

/// `2^23`, the smallest normal significand of a 32-bit float.
pub const LEAD_32: u128 = 0x80_0000;

/// The integer nearest to `num / den`, and of two equally near the even one.
pub open spec fn half_even(num: nat, den: nat) -> nat {
    let q = num / den;
    let r = num % den;
    if 2 * r < den || (2 * r == den && q % 2 == 0) {
        q
    } else {
        q + 1
    }
}

/// The integer nearest to `num / den`, and of two equally near the larger one.
pub open spec fn half_up(num: nat, den: nat) -> nat {
    (2 * num + den) / (2 * den)
}

/// How far `num` stays below `target`.
pub open spec fn shortfall(num: nat, target: nat) -> nat {
    if num < target {
        (target - num) as nat
    } else {
        0
    }
}

/// The least power of two that brings `num` to at least `target` when it multiplies `num`.
pub open spec fn scale(num: nat, target: nat) -> nat
    decreases shortfall(num, target),
{
    if num == 0 || num >= target {
        1
    } else {
        2 * scale(2 * num, target)
    }
}

/// The fraction `num / den`.
pub struct Fraction {
    pub num: nat,
    pub den: nat,
}

/// The float nearest to `f`, ties going to the even significand, where `lead` is the smallest
/// normal significand of the format. Exponents have no limits here: a value of `2 * lead` or more
/// is rounded to an integer, which may have more bits than the format holds, and a value below
/// the smallest normal float of the format keeps all its bits, where the format has fewer. Of the
/// values rounded in this crate only products of samples are that small, and those are exact.
pub open spec fn nearest_float(f: Fraction, lead: nat) -> Fraction {
    let d = scale(f.num, lead * f.den);
    Fraction { num: half_even(f.num * d, f.den), den: d }
}

/// `a` is at most `b`.
pub open spec fn at_most(a: Fraction, b: Fraction) -> bool {
    a.num * b.den <= b.num * a.den
}

proof fn lemma_scale_positive(num: nat, target: nat)
    ensures
        scale(num, target) >= 1,
    decreases shortfall(num, target),
{
    if num != 0 && num < target {
        lemma_scale_positive(2 * num, target);
    }
}

/// Where scaling is called for it stops at the first power of two that is enough.
proof fn lemma_scale_bounds(num: nat, target: nat)
    requires
        num > 0,
    ensures
        num * scale(num, target) >= target,
        scale(num, target) > 1 ==> num * scale(num, target) < 2 * target,
        num >= target <==> scale(num, target) == 1,
    decreases shortfall(num, target),
{
    if num < target {
        let d = scale(2 * num, target);
        lemma_scale_positive(2 * num, target);
        lemma_scale_bounds(2 * num, target);
        assert(num * (2 * d) == (2 * num) * d) by (nonlinear_arith);
        if d == 1 {
            assert(num * (2 * d) == 2 * num) by (nonlinear_arith)
                requires
                    d == 1,
            ;
        }
    } else {
        assert(num * 1 == num);
    }
}

/// Rounding to the nearest integer keeps the order of fractions.
pub proof fn law_half_even_is_monotonic(a: Fraction, b: Fraction)
    requires
        a.den > 0,
        b.den > 0,
        at_most(a, b),
    ensures
        half_even(a.num, a.den) <= half_even(b.num, b.den),
{
    let (qa, ra) = (a.num / a.den, a.num % a.den);
    let (qb, rb) = (b.num / b.den, b.num % b.den);
    vstd::arithmetic::div_mod::lemma_fundamental_div_mod(a.num as int, a.den as int);
    vstd::arithmetic::div_mod::lemma_fundamental_div_mod(b.num as int, b.den as int);
    let (an, ad, bn, bd) = (a.num as int, a.den as int, b.num as int, b.den as int);
    assert(an * bd == qa * ad * bd + ra * bd) by (nonlinear_arith)
        requires
            an == ad * qa + ra,
    ;
    assert(bn * ad == qb * bd * ad + rb * ad) by (nonlinear_arith)
        requires
            bn == bd * qb + rb,
    ;
    if qa > qb {
        assert(qa * ad * bd >= qb * bd * ad + bd * ad) by (nonlinear_arith)
            requires
                qa >= qb + 1,
                ad > 0,
                bd > 0,
        ;
        assert(rb * ad < bd * ad) by (nonlinear_arith)
            requires
                rb < bd,
                ad > 0,
        ;
        assert(ra * bd >= 0) by (nonlinear_arith)
            requires
                ra >= 0,
                bd > 0,
        ;
        assert(false);
    }
    if qa == qb {
        assert(qa * ad * bd == qb * bd * ad) by (nonlinear_arith)
            requires
                qa == qb,
        ;
        assert(ra * bd <= rb * ad);
        if 2 * ra > ad && 2 * rb <= bd {
            assert(ra * bd > rb * ad) by (nonlinear_arith)
                requires
                    2 * ra > ad,
                    2 * rb <= bd,
                    ad > 0,
                    bd > 0,
            ;
        }
        if 2 * ra == ad && 2 * rb < bd {
            assert(ra * bd > rb * ad) by (nonlinear_arith)
                requires
                    2 * ra == ad,
                    2 * rb < bd,
                    ad > 0,
                    bd > 0,
            ;
        }
    }
}

/// Rounding moves a value by at most a half.
pub proof fn law_half_even_is_within_a_half(num: nat, den: nat)
    requires
        den > 0,
    ensures
        -(den as int) <= 2 * (half_even(num, den) * den - num) <= den,
{
    let (q, r) = (num / den, num % den);
    vstd::arithmetic::div_mod::lemma_fundamental_div_mod(num as int, den as int);
    assert(q * den == den * q) by (nonlinear_arith);
    assert((q + 1) * den == den * q + den) by (nonlinear_arith);
}

/// Rounding with ties upward moves a value by at most a half too.
pub proof fn law_half_up_is_within_a_half(num: nat, den: nat)
    requires
        den > 0,
    ensures
        -(den as int) <= 2 * (half_up(num, den) * den - num) <= den,
{
    let q = half_up(num, den) as int;
    vstd::arithmetic::div_mod::lemma_fundamental_div_mod((2 * num + den) as int, (2 * den) as int);
    assert((2 * den) * q == 2 * (q * den)) by (nonlinear_arith);
}

/// A larger fraction needs no more scaling, and if it needs less then at most half as much.
proof fn lemma_scale_antitone(n1: nat, t1: nat, n2: nat, t2: nat)
    requires
        n1 > 0,
        n2 > 0,
        n1 * t2 <= n2 * t1,
    ensures
        scale(n1, t1) == scale(n2, t2) || scale(n1, t1) >= 2 * scale(n2, t2),
    decreases shortfall(n1, t1),
{
    lemma_scale_positive(n1, t1);
    if n1 >= t1 {
        assert(n2 >= t2) by (nonlinear_arith)
            requires
                n1 >= t1,
                n1 > 0,
                n1 * t2 <= n2 * t1,
        ;
    } else if n2 >= t2 {
        lemma_scale_positive(2 * n1, t1);
    } else {
        assert((2 * n1) * t2 <= (2 * n2) * t1) by (nonlinear_arith)
            requires
                n1 * t2 <= n2 * t1,
        ;
        lemma_scale_antitone(2 * n1, t1, 2 * n2, t2);
    }
}

/// The nearest float of a fraction is positive where the fraction is, has a positive denominator
/// and a significand no larger than the format admits.
pub(crate) proof fn lemma_nearest_float_shape(f: Fraction, lead: nat)
    requires
        f.den > 0,
        lead > 0,
    ensures
        nearest_float(f, lead).den >= 1,
        f.num > 0 ==> nearest_float(f, lead).num >= lead,
        nearest_float(f, lead).den > 1 ==> nearest_float(f, lead).num <= 2 * lead,
        f.num == 0 ==> nearest_float(f, lead).num == 0,
        f.num * nearest_float(f, lead).den >= lead * f.den || f.num == 0,
{
    let d = scale(f.num, lead * f.den);
    lemma_scale_positive(f.num, lead * f.den);
    if f.num > 0 {
        lemma_scale_bounds(f.num, lead * f.den);
        let scaled = Fraction { num: f.num * d, den: f.den };
        assert(half_even(lead, 1) == lead);
        law_half_even_is_monotonic(Fraction { num: lead, den: 1 }, scaled);
        if d > 1 {
            assert(scaled.num * 1 <= (2 * lead) * f.den) by (nonlinear_arith)
                requires
                    scaled.num < 2 * (lead * f.den),
            ;
            assert(half_even(2 * lead, 1) == 2 * lead);
            law_half_even_is_monotonic(scaled, Fraction { num: 2 * lead, den: 1 });
        }
    } else {
        assert(0 * d == 0);
        assert(0nat / f.den == 0 && 0nat % f.den == 0) by (nonlinear_arith)
            requires
                f.den > 0,
        ;
    }
}

/// Rounding to the nearest integer, ties upward, keeps the order of fractions.
pub proof fn law_half_up_is_monotonic(a: Fraction, b: Fraction)
    requires
        a.den > 0,
        b.den > 0,
        at_most(a, b),
    ensures
        half_up(a.num, a.den) <= half_up(b.num, b.den),
{
    let (qa, qb) = (half_up(a.num, a.den) as int, half_up(b.num, b.den) as int);
    let (an, ad, bn, bd) = (a.num as int, a.den as int, b.num as int, b.den as int);
    vstd::arithmetic::div_mod::lemma_fundamental_div_mod(2 * an + ad, 2 * ad);
    vstd::arithmetic::div_mod::lemma_fundamental_div_mod(2 * bn + bd, 2 * bd);
    let (ra, rb) = ((2 * an + ad) % (2 * ad), (2 * bn + bd) % (2 * bd));
    if qa > qb {
        assert((2 * bd) * qb + (2 * bd) <= (2 * bd) * qa) by (nonlinear_arith)
            requires
                qa >= qb + 1,
                bd > 0,
        ;
        assert(2 * bn + bd < (2 * bd) * qa);
        assert((2 * bn + bd) * ad < ((2 * bd) * qa) * ad) by (nonlinear_arith)
            requires
                2 * bn + bd < (2 * bd) * qa,
                ad > 0,
        ;
        assert((2 * an + ad) * bd >= ((2 * ad) * qa) * bd) by (nonlinear_arith)
            requires
                2 * an + ad >= (2 * ad) * qa,
                bd > 0,
        ;
        assert((2 * bn + bd) * ad >= (2 * an + ad) * bd) by (nonlinear_arith)
            requires
                an * bd <= bn * ad,
        ;
        assert(((2 * ad) * qa) * bd == ((2 * bd) * qa) * ad) by (nonlinear_arith);
    }
}

/// Taking the nearest float keeps the order of fractions.
pub proof fn law_nearest_float_is_monotonic(a: Fraction, b: Fraction, lead: nat)
    requires
        a.den > 0,
        b.den > 0,
        lead > 0,
        at_most(a, b),
    ensures
        at_most(nearest_float(a, lead), nearest_float(b, lead)),
{
    let (fa, fb) = (nearest_float(a, lead), nearest_float(b, lead));
    lemma_nearest_float_shape(a, lead);
    lemma_nearest_float_shape(b, lead);
    if a.num == 0 {
        assert(fa.num * fb.den <= fb.num * fa.den) by (nonlinear_arith)
            requires
                fa.num == 0,
        ;
    } else {
        assert(b.num > 0) by (nonlinear_arith)
            requires
                a.num > 0,
                b.den > 0,
                a.num * b.den <= b.num * a.den,
        ;
        let (ta, tb) = (lead * a.den, lead * b.den);
        assert(a.num * tb <= b.num * ta) by (nonlinear_arith)
            requires
                ta == lead * a.den,
                tb == lead * b.den,
                a.num * b.den <= b.num * a.den,
        ;
        lemma_scale_antitone(a.num, ta, b.num, tb);
        if fa.den == fb.den {
            let d = fa.den;
            assert((a.num * d) * b.den <= (b.num * d) * a.den) by (nonlinear_arith)
                requires
                    a.num * b.den <= b.num * a.den,
            ;
            law_half_even_is_monotonic(
                Fraction { num: a.num * d, den: a.den },
                Fraction { num: b.num * d, den: b.den },
            );
            assert(fa.num * d <= fb.num * d) by (nonlinear_arith)
                requires
                    fa.num <= fb.num,
            ;
        } else {
            assert(fa.num * fb.den <= fb.num * fa.den) by (nonlinear_arith)
                requires
                    fa.num <= 2 * lead,
                    fb.num >= lead,
                    fa.den >= 2 * fb.den,
            ;
        }
    }
}

/// A scale is a power of two.
proof fn lemma_scale_is_pow2(num: nat, target: nat)
    ensures
        power2::is_pow2(scale(num, target) as int),
    decreases shortfall(num, target),
{
    reveal(power2::is_pow2);
    lemma_scale_positive(num, target);
    if num != 0 && num < target {
        lemma_scale_positive(2 * num, target);
        lemma_scale_is_pow2(2 * num, target);
        let d = scale(2 * num, target) as int;
        assert((2 * d) / 2 == d);
    }
}

/// With a denominator `h * c`, where `c` is a power of two and `num` has its leading bit at
/// `lead * h`, the scale is `c`.
proof fn lemma_scale_of_dyadic(num: nat, h: nat, c: nat, lead: nat)
    requires
        power2::is_pow2(c as int),
        h > 0,
        lead > 0,
        lead * h <= num < 2 * (lead * h),
    ensures
        scale(num, lead * (h * c)) == c,
    decreases c,
{
    reveal(power2::is_pow2);
    assert(lead * h > 0) by (nonlinear_arith)
        requires
            h > 0,
            lead > 0,
    ;
    if c == 1 {
        assert(h * c == h);
    } else {
        let half = c / 2;
        assert(c == 2 * half && half >= 1);
        assert(lead * (h * c) >= 2 * (lead * h)) by (nonlinear_arith)
            requires
                c >= 2,
                lead * h > 0,
        ;
        assert(lead * (2 * h) == 2 * (lead * h)) by (nonlinear_arith);
        lemma_scale_of_dyadic(2 * num, 2 * h, half, lead);
        assert((2 * h) * half == h * c) by (nonlinear_arith)
            requires
                c == 2 * half,
        ;
    }
}

/// A common factor has no say in rounding.
proof fn lemma_half_even_cancels(num: nat, den: nat, c: nat)
    requires
        den > 0,
        c > 0,
    ensures
        half_even(num * c, den * c) == half_even(num, den),
{
    assert(den * c > 0) by (nonlinear_arith)
        requires
            den > 0,
            c > 0,
    ;
    let (a, b) = (Fraction { num: num * c, den: den * c }, Fraction { num, den });
    assert((num * c) * den == num * (den * c)) by (nonlinear_arith);
    law_half_even_is_monotonic(a, b);
    law_half_even_is_monotonic(b, a);
}

/// A fraction whose value is an integer is its own nearest float.
pub proof fn law_integers_are_exact(f: Fraction, n: nat, lead: nat)
    requires
        f.den > 0,
        lead > 0,
        f.num == n * f.den,
    ensures
        nearest_float(f, lead).num == n * nearest_float(f, lead).den,
{
    let d = scale(f.num, lead * f.den);
    assert(f.num * d == (n * d) * f.den) by (nonlinear_arith)
        requires
            f.num == n * f.den,
    ;
    vstd::arithmetic::div_mod::lemma_div_multiples_vanish((n * d) as int, f.den as int);
    vstd::arithmetic::div_mod::lemma_mod_multiples_basic((n * d) as int, f.den as int);
    assert((n * d) * f.den == f.den * (n * d)) by (nonlinear_arith);
}

/// Of two powers of two the smaller divides the larger.
proof fn lemma_pow2_divides(a: nat, b: nat) -> (k: nat)
    requires
        power2::is_pow2(a as int),
        power2::is_pow2(b as int),
        a <= b,
    ensures
        b == k * a,
    decreases a,
{
    reveal(power2::is_pow2);
    if a == 1 {
        assert(b * 1 == b);
        b
    } else {
        let k = lemma_pow2_divides(a / 2, b / 2);
        assert(b == k * a) by (nonlinear_arith)
            requires
                b / 2 == k * (a / 2),
                b == 2 * (b / 2),
                a == 2 * (a / 2),
        ;
        k
    }
}

/// A fraction with a power of two below the line and no more bits above it than the format has is
/// its own nearest float.
pub proof fn law_short_fractions_are_exact(f: Fraction, lead: nat)
    requires
        power2::is_pow2(f.den as int),
        0 < f.num < 2 * lead,
    ensures
        nearest_float(f, lead).num * f.den == f.num * nearest_float(f, lead).den,
        nearest_float(f, lead).den > 0,
{
    reveal(power2::is_pow2);
    let d = scale(f.num, lead * f.den);
    lemma_scale_positive(f.num, lead * f.den);
    lemma_scale_bounds(f.num, lead * f.den);
    lemma_scale_is_pow2(f.num, lead * f.den);
    if d < f.den {
        let k = lemma_pow2_divides(d, f.den);
        assert(k >= 2) by (nonlinear_arith)
            requires
                f.den == k * d,
                d < f.den,
        ;
        assert(f.num * d < lead * f.den) by (nonlinear_arith)
            requires
                f.num < 2 * lead,
                f.den == k * d,
                k >= 2,
                d > 0,
        ;
    }
    let k = lemma_pow2_divides(f.den, d);
    assert(f.num * d == (f.num * k) * f.den) by (nonlinear_arith)
        requires
            d == k * f.den,
    ;
    vstd::arithmetic::div_mod::lemma_div_multiples_vanish((f.num * k) as int, f.den as int);
    vstd::arithmetic::div_mod::lemma_mod_multiples_basic((f.num * k) as int, f.den as int);
    assert((f.num * k) * f.den == f.den * (f.num * k)) by (nonlinear_arith);
}

/// The integer nearest to `num / den`, and of two equally near the even one.
pub fn round_half_even(num: u128, den: u128) -> (q: u128)
    requires
        0 < den <= u128::MAX / 2,
        num < u128::MAX,
    ensures
        q == half_even(num as nat, den as nat),
{
    let q: u128 = num / den;
    let r: u128 = num % den;
    if 2 * r < den || (2 * r == den && q % 2 == 0) {
        q
    } else {
        proof {
            assert(q <= num) by (nonlinear_arith)
                requires
                    q == num / den,
                    den > 0,
            ;
        }
        q + 1
    }
}

/// The integer nearest to `num / den`, and of two equally near the larger one.
pub fn round_half_up(num: u128, den: u128) -> (q: u128)
    requires
        0 < den <= u128::MAX / 4,
        num <= u128::MAX / 4,
    ensures
        q == half_up(num as nat, den as nat),
{
    (2 * num + den) / (2 * den)
}

/// The float nearest to `num / den`, as numerator and denominator.
pub fn round_ratio(num: u128, den: u128, lead: u128) -> (f: (u128, u128))
    requires
        0 < num,
        0 < den,
        0 < lead,
        num <= u128::MAX / 4,
        lead * den <= u128::MAX / 4,
    ensures
        f.0 as nat == nearest_float(Fraction { num: num as nat, den: den as nat }, lead as nat).num,
        f.1 as nat == nearest_float(Fraction { num: num as nat, den: den as nat }, lead as nat).den,
        power2::is_pow2(f.1 as int),
        f.1 == 1 || num * f.1 < 2 * (lead * den),
{
    let target: u128 = lead * den;
    let mut n: u128 = num;
    let mut d: u128 = 1;
    proof {
        lemma_scale_is_pow2(num as nat, target as nat);
        lemma_scale_bounds(num as nat, target as nat);
        assert(num * 1 == num);
        assert(1 * scale(num as nat, target as nat) == scale(num as nat, target as nat));
    }
    while n < target
        invariant
            0 < num,
            0 < n,
            0 < d <= n,
            n == num * d,
            target <= u128::MAX / 4,
            n <= u128::MAX / 2,
            scale(num as nat, target as nat) == d * scale(n as nat, target as nat),
        decreases shortfall(n as nat, target as nat),
    {
        let ghost rest = scale(2 * n as nat, target as nat);
        proof {
            assert(num * (2 * d) == 2 * (num * d)) by (nonlinear_arith);
            assert(d * (2 * rest) == (2 * d) * rest) by (nonlinear_arith);
        }
        n = 2 * n;
        d = 2 * d;
    }
    proof {
        assert(d * 1 == d);
        assert(den <= target) by (nonlinear_arith)
            requires
                target == lead * den,
                lead > 0,
        ;
    }
    (round_half_even(n, den), d)
}

/// The float nearest to `num / den` for a denominator that is a power of two and a value that
/// needs no more bits before the point than the format has.
pub fn round_dyadic(num: u128, den: u128, lead: u128) -> (f: (u128, u128))
    requires
        0 < lead <= num,
        num <= u128::MAX / 4,
        power2::is_pow2(den as int),
        num < 2 * (lead * den),
    ensures
        f.0 as nat == nearest_float(Fraction { num: num as nat, den: den as nat }, lead as nat).num,
        f.1 as nat == nearest_float(Fraction { num: num as nat, den: den as nat }, lead as nat).den,
        power2::is_pow2(f.1 as int),
        f.1 <= den,
{
    let mut h: u128 = 1;
    let mut c: u128 = den;
    let mut top: u128 = 2 * lead;
    proof {
        assert(lead * 1 == lead);
        assert(1 * den == den);
    }
    while top <= num
        invariant
            0 < lead,
            0 < h,
            den == h * c,
            power2::is_pow2(c as int),
            power2::is_pow2(den as int),
            top == 2 * (lead * h),
            lead * h <= num,
            num <= u128::MAX / 4,
            num < 2 * (lead * den),
            c <= den,
        decreases shortfall(top as nat, num as nat + 1),
    {
        proof {
            reveal(power2::is_pow2);
            if c == 1 {
                assert(h * c == h);
            }
            assert(lead * h > 0) by (nonlinear_arith)
                requires
                    lead > 0,
                    h > 0,
            ;
            assert(h <= lead * h) by (nonlinear_arith)
                requires
                    lead > 0,
                    h > 0,
            ;
            assert(c == 2 * (c / 2));
            assert((2 * h) * (c / 2) == h * c) by (nonlinear_arith)
                requires
                    c == 2 * (c / 2),
            ;
            assert(lead * (2 * h) == 2 * (lead * h)) by (nonlinear_arith);
        }
        h = 2 * h;
        c = c / 2;
        top = 2 * top;
    }
    proof {
        reveal(power2::is_pow2);
        lemma_scale_of_dyadic(num as nat, h as nat, c as nat, lead as nat);
        lemma_half_even_cancels(num as nat, h as nat, c as nat);
        assert(h <= lead * h) by (nonlinear_arith)
            requires
                lead > 0,
        ;
    }
    (round_half_even(num, h), c)
}

/// The distance between `a` and `b`.
pub open spec fn distance(a: int, b: int) -> int {
    if a < b {
        b - a
    } else {
        a - b
    }
}

/// No integer is nearer to a value than the one it is rounded to, and where another is as near the
/// one it is rounded to is even.
pub proof fn law_half_even_is_nearest(num: nat, den: nat, m: int)
    requires
        den > 0,
    ensures
        ({
            let h = half_even(num, den);
            let (d, e) = (distance((h * den) as int, num as int), distance(m * den, num as int));
            d <= e && (d == e && m != h ==> h % 2 == 0)
        }),
{
    let h = half_even(num, den) as int;
    let (q, r) = ((num / den) as int, (num % den) as int);
    vstd::arithmetic::div_mod::lemma_fundamental_div_mod(num as int, den as int);
    let (n, d) = (num as int, den as int);
    assert(n == q * d + r) by (nonlinear_arith)
        requires
            n == d * q + r,
    ;
    assert((q + 1) * d == q * d + d) by (nonlinear_arith);
    if m < q {
        assert(m * d <= q * d - d) by (nonlinear_arith)
            requires
                m <= q - 1,
                d > 0,
        ;
    } else if m > q + 1 {
        assert(m * d >= q * d + 2 * d) by (nonlinear_arith)
            requires
                m >= q + 2,
                d > 0,
        ;
    }
}

/// No integer is nearer to a value than the one it is rounded to with ties upward, and where
/// another is as near it is a smaller one.
pub proof fn law_half_up_is_nearest(num: nat, den: nat, m: int)
    requires
        den > 0,
    ensures
        ({
            let h = half_up(num, den);
            let (d, e) = (distance((h * den) as int, num as int), distance(m * den, num as int));
            d <= e && (d == e && m != h ==> m < h)
        }),
{
    let h = half_up(num, den) as int;
    let (n, d) = (num as int, den as int);
    vstd::arithmetic::div_mod::lemma_fundamental_div_mod(2 * n + d, 2 * d);
    assert((2 * d) * h == 2 * (h * d)) by (nonlinear_arith);
    if m < h {
        assert(m * d <= h * d - d) by (nonlinear_arith)
            requires
                m <= h - 1,
                d > 0,
        ;
    } else if m > h {
        assert(m * d >= h * d + d) by (nonlinear_arith)
            requires
                m >= h + 1,
                d > 0,
        ;
    }
}

/// The scale is a power of two.
proof fn lemma_scale_is_a_power(num: nat, target: nat)
    ensures
        exists|k: nat| scale(num, target) == #[trigger] power2::pow2(k),
    decreases shortfall(num, target),
{
    if num == 0 || num >= target {
        power2::lemma2_to64();
        assert(scale(num, target) == power2::pow2(0));
    } else {
        lemma_scale_is_a_power(2 * num, target);
        let k = choose|k: nat| scale(2 * num, target) == #[trigger] power2::pow2(k);
        power2::lemma_pow2_unfold(k + 1);
        assert(scale(num, target) == power2::pow2(k + 1));
    }
}

/// The float nearest to a positive fraction is counted in steps of a power of two, as coarse as
/// leaves it a full significand and no coarser; and no other number of such steps is nearer.
pub proof fn law_nearest_float_is_nearest(f: Fraction, lead: nat, m: int)
    requires
        f.num > 0,
        f.den > 0,
        lead > 0,
    ensures
        ({
            let p = nearest_float(f, lead);
            let (d, e) = (
                distance((p.num * f.den) as int, (f.num * p.den) as int),
                distance(m * f.den, (f.num * p.den) as int),
            );
            &&& exists|k: nat| p.den == #[trigger] power2::pow2(k)
            &&& lead * f.den <= f.num * p.den
            &&& p.den > 1 ==> f.num * p.den < 2 * (lead * f.den)
            &&& d <= e
            &&& d == e && m != p.num ==> p.num % 2 == 0
        }),
{
    let t = lead * f.den;
    let d = scale(f.num, t);
    lemma_scale_is_a_power(f.num, t);
    lemma_scale_bounds(f.num, t);
    law_half_even_is_nearest(f.num * d, f.den, m);
}

} // verus!
