//! The cumulative normal, its density and its inverse.
//!
//! Four approximations of the cumulative normal, from coarse to fine, the
//! scaled complementary error function, and the probit. Each is a rational
//! function per arm; the argument decides which arm serves it, and results are
//! kept in the unit interval.
use crate::arith::{
    diff, exp_of, is_zero, ln_of, neutral, prod, quot, sqrt_of, steady, sum, Arith,
};
use crate::constants::{
    FOUR, HALF, INV_SQRT_TWO, INV_SQRT_TWO_PI, MINUS_HALF, MINUS_ONE, MINUS_TWO, ONE, SQRT_TWO_PI,
    THREE, TINY, TWO, ZERO,
};
use crate::double::{
    clamped, equals, flipped, law_clamp_lands_in_bracket, law_order_is_encoding_order, lemma_rounds,
    lemma_units_zero, num, rounds, unsigned, Double,
};
use vstd::arithmetic::power2::{lemma2_to64, lemma2_to64_rest};
use vstd::prelude::*;

verus! {

/// `sqrt(50)`: below it the rational tail is taken.
pub const WEST_RATIONAL_CUTOFF: u64 = 0x401C_48C6_001F_0ABF;

/// `37.0`: from here on the tail is zero.
pub const ZERO_CUTOFF: u64 = 0x4042_8000_0000_0000;

/// `0.65`, the innermost term of the continued fraction.
pub const WEST_INNERMOST: u64 = 0x3FE4_CCCC_CCCC_CCCD;

/// `0.2316419`, the scale of the five-power tail.
pub const AS_SCALE: u64 = 0x3FCD_A671_1871_100E;

/// `0.02425`, the lower end of the central arm of the probit.
pub const PROBIT_LOW: u64 = 0x3F98_D4FD_F3B6_45A2;

/// `1 - 0.02425`, the upper end of the central arm of the probit.
pub const PROBIT_HIGH: u64 = 0x3FEF_3958_1062_4DD3;

/// `1 - 2^-52`, the largest probability that is inverted.
pub const PROBIT_TOP: u64 = 0x3FEF_FFFF_FFFF_FFFE;

/// Coefficients of the five-power tail, highest first.
pub const AS_COEFFICIENTS: [u64; 5] = [
    0x3FF5_48CD_D6F4_2943,
    0xBFFD_23DD_4EF2_78D0,
    0x3FFC_80EF_025F_5E68,
    0xBFD6_D1F0_E5A8_325B,
    0x3FD4_70BF_3A92_F8EC,
];

/// Numerator of the rational tail, highest power first.
pub const HART_TOP: [u64; 7] = [
    0x3FA2_0DED_0B57_FBDD,
    0x3FE6_6989_BE8E_A71F,
    0x4019_7EEF_F2A8_6F23,
    0x4040_F4D8_CBB0_2431,
    0x405C_0513_1CA5_8D3C,
    0x406B_A6D5_C7A2_8CF2,
    0x406B_869E_A974_C7E5,
];

/// Denominator of the rational tail, highest power first.
pub const HART_BOTTOM: [u64; 8] = [
    0x3FB6_A09E_667F_3BCA,
    0x3FFC_1736_7388_7D11,
    0x4030_106D_F11B_D49D,
    0x4055_B1F7_8433_A59A,
    0x4072_8907_29BA_7820,
    0x4083_EAAB_47FA_1777,
    0x4088_CE9C_B298_974A,
    0x407B_869E_A974_C7E5,
];

/// Low band, numerator.
pub const CODY_A: [u64; 4] = [
    0x4009_49FB_3ED4_43E9,
    0x405C_774E_4D36_5DA3,
    0x4077_97C3_8897_528B,
    0x40A9_12C1_535D_121A,
];

/// Low band, leading coefficient of the numerator.
pub const CODY_A_LEAD: u64 = 0x3FC7_C790_5A31_C322;

/// Low band, denominator.
pub const CODY_B: [u64; 4] = [
    0x4037_99EE_342F_B2DE,
    0x406E_80C9_D57E_55B8,
    0x4094_0A77_529C_ADC8,
    0x40A6_3879_423B_87AD,
];

/// Middle band, numerator.
pub const CODY_C: [u64; 8] = [
    0x3FE2_0DD5_08EB_103E,
    0x4021_C42C_35B8_BC02,
    0x4050_87A0_D1C4_20D0,
    0x4072_AA29_86AB_A462,
    0x408B_8F9E_262B_9FA3,
    0x409A_C030_C15D_C8D7,
    0x40A0_0628_2123_6F6B,
    0x4093_395B_7FD2_FC8E,
];

/// Middle band, leading coefficient of the numerator.
pub const CODY_C_LEAD: u64 = 0x3E57_1E70_3C5F_5815;

/// Middle band, denominator.
pub const CODY_D: [u64; 8] = [
    0x402F_7D66_F486_DED5,
    0x405D_6C69_B0FF_CDE7,
    0x4080_C972_E588_749E,
    0x4099_558E_ECA2_9D27,
    0x40A9_B599_356D_1202,
    0x40B1_0A9E_7CB1_0E86,
    0x40AA_DEBC_3FC9_0DBD,
    0x4093_395B_7FD3_5F61,
];

/// High band, numerator.
pub const CODY_P: [u64; 5] = [
    0x3FD3_8A78_B9F0_65F6,
    0x3FD7_0FE4_0E24_25B8,
    0x3FC0_199D_980A_842F,
    0x3F90_7844_8CD6_C5B5,
    0x3F45_95FD_0D71_E33C,
];

/// High band, leading coefficient of the numerator.
pub const CODY_P_LEAD: u64 = 0x3F90_B4FB_18B4_85C7;

/// High band, denominator.
pub const CODY_Q: [u64; 5] = [
    0x4004_8C54_5088_00DB,
    0x3FFD_F79D_6855_F0AD,
    0x3FE0_E499_3E12_2C39,
    0x3FAE_FC42_917D_7DE7,
    0x3F63_2147_A014_BAD1,
];

/// `1 / sqrt(pi)`.
pub const INV_SQRT_PI: u64 = 0x3FE2_0DD7_5042_9B6D;

/// Central arm of the probit, numerator, highest power first.
pub const PROBIT_A: [u64; 6] = [
    0xC043_D931_BC1E_0525,
    0x406B_9E46_7034_039B,
    0xC071_3EDB_2DC5_3B99,
    0x4061_4B72_B40B_401B,
    0xC03E_AA30_34C0_8BCD,
    0x4004_0D93_2057_5479,
];

/// Central arm of the probit, denominator, highest power first.
pub const PROBIT_B: [u64; 6] = [
    0xC04B_3CF0_CE30_04C4,
    0x4064_32BF_2CF0_4277,
    0xC063_765E_0B02_D8D2,
    0x4050_B348_B1A7_E9BE,
    0xC02A_8FB5_7E14_7826,
    0x3FF0_0000_0000_0000,
];

/// Tail arm of the probit, numerator, highest power first.
pub const PROBIT_C: [u64; 6] = [
    0xBF7F_E30D_924A_CFE0,
    0xBFD4_A224_C0E8_81B8,
    0xC003_34C0_C170_1758,
    0xC004_65DA_2C70_3A1A,
    0x4011_7FA7_F4EA_4DC7,
    0x4007_815C_1E3F_CFA2,
];

/// Tail arm of the probit, denominator, highest power first.
pub const PROBIT_D: [u64; 5] = [
    0x3F7F_E2D8_57AC_9FD4,
    0x3FD4_A34D_2B59_0364,
    0x4003_8FA2_7C8A_E616,
    0x400E_0907_6895_B119,
    0x3FF0_0000_0000_0000,
];

/// The polynomial with the first `n + 1` coefficients, highest power first.
pub open spec fn horner_of<K: Arith>(k: K, c: Seq<u64>, z: Double, n: nat) -> Double
    decreases n,
{
    if n == 0 {
        num(c[0])
    } else {
        sum(k, prod(k, horner_of(k, c, z, (n - 1) as nat), z), num(c[n as int]))
    }
}

/// The polynomial with the given coefficients.
pub open spec fn polynomial<K: Arith>(k: K, c: Seq<u64>, z: Double) -> Double {
    horner_of(k, c, z, (c.len() - 1) as nat)
}

/// Evaluates a polynomial, highest power first.
pub fn horner<K: Arith>(k: &K, c: &[u64], z: Double) -> (r: Double)
    requires
        c@.len() > 0,
    ensures
        steady(*k) ==> r == polynomial(*k, c@, z),
{
    let mut r: Double = num(c[0]);
    let mut i: usize = 1;
    while i < c.len()
        invariant
            1 <= i <= c@.len(),
            steady(*k) ==> r == horner_of(*k, c@, z, (i - 1) as nat),
        decreases c@.len() - i,
    {
        r = k.plus(k.times(r, z), num(c[i]));
        i += 1;
    }
    r
}

/// `first` taken through `n` turns of adding a coefficient and multiplying by
/// `z`.
pub open spec fn ladder_of<K: Arith>(k: K, first: Double, c: Seq<u64>, z: Double, n: nat) -> Double
    decreases n,
{
    if n == 0 {
        first
    } else {
        prod(k, sum(k, ladder_of(k, first, c, z, (n - 1) as nat), num(c[n - 1])), z)
    }
}

/// A ladder through all coefficients but the last, which is only added.
pub open spec fn climbed<K: Arith>(k: K, first: Double, c: Seq<u64>, z: Double) -> Double {
    sum(k, ladder_of(k, first, c, z, (c.len() - 1) as nat), num(c[c.len() - 1]))
}

/// Climbs a ladder.
pub fn climb<K: Arith>(k: &K, first: Double, c: &[u64], z: Double) -> (r: Double)
    requires
        c@.len() > 0,
    ensures
        steady(*k) ==> r == climbed(*k, first, c@, z),
{
    let last: usize = c.len() - 1;
    let mut r: Double = first;
    let mut i: usize = 0;
    while i < last
        invariant
            i <= last < c@.len(),
            steady(*k) ==> r == ladder_of(*k, first, c@, z, i as nat),
        decreases last - i,
    {
        r = k.times(k.plus(r, num(c[i])), z);
        i += 1;
    }
    k.plus(r, num(c[last]))
}

/// `exp(-x * x / 2)`.
pub open spec fn bell_of<K: Arith>(k: K, x: Double) -> Double {
    exp_of(k, prod(k, prod(k, num(MINUS_HALF), x), x))
}

/// The density of the normal law.
pub open spec fn pdf_of<K: Arith>(k: K, x: Double) -> Double {
    prod(k, num(INV_SQRT_TWO_PI), bell_of(k, x))
}

/// The density of the normal law at `x`.
pub fn phi_pdf<K: Arith>(k: &K, x: Double) -> (r: Double)
    ensures
        steady(*k) ==> r == pdf_of(*k, x),
{
    let bell = k.exp(k.times(k.times(num(MINUS_HALF), x), x));
    k.times(num(INV_SQRT_TWO_PI), bell)
}

/// A probability: in the unit interval.
pub open spec fn is_probability(p: Double) -> bool {
    num(ZERO).at_most(p) && p.at_most(num(ONE))
}

/// The number, kept in the unit interval.
pub open spec fn as_probability(p: Double) -> Double {
    clamped(p, num(ZERO), num(ONE))
}

/// The cumulative probability, from the upper tail at the magnitude of `x`.
pub open spec fn mirrored_of<K: Arith>(k: K, x: Double, tail: Double) -> Double {
    as_probability(
        if x.below(num(ZERO)) {
            tail
        } else {
            diff(k, num(ONE), tail)
        },
    )
}

/// The cumulative probability at `x`, from the upper tail at its magnitude.
pub fn mirror<K: Arith>(k: &K, x: Double, tail: Double) -> (r: Double)
    ensures
        steady(*k) ==> r == mirrored_of(*k, x, tail),
        x.below(num(ZERO)) ==> r == as_probability(tail),
        is_probability(r),
{
    proof {
        law_order_is_encoding_order(num(ZERO), num(ONE));
    }
    let p = if x.lt(num(ZERO)) {
        tail
    } else {
        k.minus(num(ONE), tail)
    };
    proof {
        law_clamp_lands_in_bracket(p, num(ZERO), num(ONE));
    }
    p.clamp(num(ZERO), num(ONE))
}

/// The upper tail at `z`, by five powers.
pub open spec fn tail_as_of<K: Arith>(k: K, z: Double) -> Double {
    let t = quot(k, num(ONE), sum(k, num(ONE), prod(k, num(AS_SCALE), z)));
    prod(k, pdf_of(k, z), prod(k, polynomial(k, AS_COEFFICIENTS@, t), t))
}

/// The cumulative normal, to about seven digits.
pub open spec fn phi_as_of<K: Arith>(k: K, x: Double) -> Double {
    mirrored_of(k, x, tail_as_of(k, unsigned(x)))
}

/// The cumulative normal at `x`, by five powers of a reciprocal.
pub fn phi_as<K: Arith>(k: &K, x: Double) -> (r: Double)
    ensures
        steady(*k) ==> r == phi_as_of(*k, x),
        is_probability(r),
{
    let z = x.abs();
    let t = k.over(num(ONE), k.plus(num(ONE), k.times(num(AS_SCALE), z)));
    let powers = k.times(horner(k, &AS_COEFFICIENTS, t), t);
    let tail = k.times(phi_pdf(k, z), powers);
    mirror(k, x, tail)
}

/// The upper tail at `z`, by a rational of degree six over seven.
pub open spec fn tail_hart_of<K: Arith>(k: K, z: Double) -> Double {
    quot(
        k,
        prod(k, bell_of(k, z), polynomial(k, HART_TOP@, z)),
        polynomial(k, HART_BOTTOM@, z),
    )
}

/// The upper tail at `z`, by a rational of degree six over seven.
pub fn tail_hart<K: Arith>(k: &K, z: Double) -> (r: Double)
    ensures
        steady(*k) ==> r == tail_hart_of(*k, z),
{
    let bell = k.exp(k.times(k.times(num(MINUS_HALF), z), z));
    k.over(k.times(bell, horner(k, &HART_TOP, z)), horner(k, &HART_BOTTOM, z))
}

/// Which of zero and one the cumulative probability is, so far out that the
/// tail vanishes.
pub open spec fn saturated(x: Double) -> Double {
    if x.below(num(ZERO)) {
        num(ZERO)
    } else {
        num(ONE)
    }
}

/// Which of zero and one the cumulative probability is, far out.
pub fn saturate(x: Double) -> (r: Double)
    ensures
        r == saturated(x),
        is_probability(r),
{
    proof {
        law_order_is_encoding_order(num(ZERO), num(ONE));
    }
    if x.lt(num(ZERO)) {
        num(ZERO)
    } else {
        num(ONE)
    }
}

/// The cumulative normal that the solvers use: zero or one beyond the cutoff,
/// and one rational up to it.
pub open spec fn phi_hart_of<K: Arith>(k: K, x: Double) -> Double {
    if num(ZERO_CUTOFF).below(unsigned(x)) {
        saturated(x)
    } else {
        mirrored_of(k, x, tail_hart_of(k, unsigned(x)))
    }
}

/// The cumulative normal at `x`, by one rational.
pub fn phi_hart<K: Arith>(k: &K, x: Double) -> (r: Double)
    ensures
        steady(*k) ==> r == phi_hart_of(*k, x),
        is_probability(r),
        num(ZERO_CUTOFF).below(x) ==> r == num(ONE),
        x.below(flipped(num(ZERO_CUTOFF))) ==> r == num(ZERO),
{
    proof {
        lemma_beyond_cutoff(x);
    }
    let z = x.abs();
    if num(ZERO_CUTOFF).lt(z) {
        return saturate(x);
    }
    let tail = tail_hart(k, z);
    mirror(k, x, tail)
}

/// One turn of the continued fraction.
pub open spec fn fraction_of<K: Arith>(k: K, z: Double, top: Double, below: Double) -> Double {
    sum(k, z, quot(k, top, below))
}

/// The upper tail at `z`, by a continued fraction.
pub open spec fn tail_continued_of<K: Arith>(k: K, z: Double) -> Double {
    let b4 = fraction_of(k, z, num(FOUR), sum(k, z, num(WEST_INNERMOST)));
    let b3 = fraction_of(k, z, num(THREE), b4);
    let b2 = fraction_of(k, z, num(TWO), b3);
    let b1 = fraction_of(k, z, num(ONE), b2);
    quot(k, quot(k, bell_of(k, z), b1), num(SQRT_TWO_PI))
}

/// The upper tail at `z`, by a continued fraction.
pub fn tail_continued<K: Arith>(k: &K, z: Double) -> (r: Double)
    ensures
        steady(*k) ==> r == tail_continued_of(*k, z),
{
    let bell = k.exp(k.times(k.times(num(MINUS_HALF), z), z));
    let b5 = k.plus(z, num(WEST_INNERMOST));
    let b4 = k.plus(z, k.over(num(FOUR), b5));
    let b3 = k.plus(z, k.over(num(THREE), b4));
    let b2 = k.plus(z, k.over(num(TWO), b3));
    let b1 = k.plus(z, k.over(num(ONE), b2));
    k.over(k.over(bell, b1), num(SQRT_TWO_PI))
}

/// The upper tail at `z`: a continued fraction in the far tail, and a rational
/// nearer in.
pub open spec fn tail_west_of<K: Arith>(k: K, z: Double) -> Double {
    if z.below(num(WEST_RATIONAL_CUTOFF)) {
        tail_hart_of(k, z)
    } else {
        tail_continued_of(k, z)
    }
}

/// The cumulative normal in three regimes: zero or one from the cutoff on.
pub open spec fn phi_west_of<K: Arith>(k: K, x: Double) -> Double {
    if num(ZERO_CUTOFF).at_most(unsigned(x)) {
        saturated(x)
    } else {
        mirrored_of(k, x, tail_west_of(k, unsigned(x)))
    }
}

/// The cumulative normal at `x`, in three regimes.
pub fn phi_west<K: Arith>(k: &K, x: Double) -> (r: Double)
    ensures
        steady(*k) ==> r == phi_west_of(*k, x),
        is_probability(r),
        num(ZERO_CUTOFF).at_most(x) ==> r == num(ONE),
        x.at_most(flipped(num(ZERO_CUTOFF))) ==> r == num(ZERO),
{
    proof {
        lemma_beyond_cutoff(x);
    }
    let z = x.abs();
    if num(ZERO_CUTOFF).le(z) {
        return saturate(x);
    }
    let tail = if z.lt(num(WEST_RATIONAL_CUTOFF)) {
        tail_hart(k, z)
    } else {
        tail_continued(k, z)
    };
    mirror(k, x, tail)
}

/// What lies beyond the cutoff on either side does so in magnitude, and has the
/// sign of that side.
proof fn lemma_beyond_cutoff(x: Double)
    ensures
        num(ZERO_CUTOFF).below(x) ==> num(ZERO_CUTOFF).below(unsigned(x)),
        num(ZERO_CUTOFF).at_most(x) ==> num(ZERO_CUTOFF).at_most(unsigned(x)) && !x.below(
            num(ZERO),
        ),
        x.below(flipped(num(ZERO_CUTOFF))) ==> num(ZERO_CUTOFF).below(unsigned(x)),
        x.at_most(flipped(num(ZERO_CUTOFF))) ==> num(ZERO_CUTOFF).at_most(unsigned(x)) && x.below(
            num(ZERO),
        ),
{
    lemma_units_zero(0);
    lemma_units_zero(x.magnitude());
    law_order_is_encoding_order(num(ZERO), num(ZERO_CUTOFF));
}

/// The bands of the complementary error function.
#[derive(Clone, Copy, Debug, PartialEq, Eq, Structural)]
pub enum Band {
    /// Up to one half.
    Low,
    /// Up to four.
    Middle,
    /// Above four.
    High,
}

/// The band that serves `y`.
pub open spec fn band_of(y: Double) -> Band {
    if y.at_most(num(HALF)) {
        Band::Low
    } else if num(FOUR).below(y) {
        Band::High
    } else {
        Band::Middle
    }
}

/// The band that serves `y`.
pub fn band(y: Double) -> (r: Band)
    ensures
        r == band_of(y),
{
    if y.le(num(HALF)) {
        Band::Low
    } else if y.gt(num(FOUR)) {
        Band::High
    } else {
        Band::Middle
    }
}

/// One less the error function, by the low band.
pub open spec fn low_band_of<K: Arith>(k: K, y: Double, ysq: Double) -> Double {
    let top = climbed(k, prod(k, num(CODY_A_LEAD), ysq), CODY_A@, ysq);
    let bottom = climbed(k, ysq, CODY_B@, ysq);
    diff(k, num(ONE), quot(k, prod(k, y, top), bottom))
}

/// One less the error function, by the low band.
pub fn low_band<K: Arith>(k: &K, y: Double, ysq: Double) -> (r: Double)
    ensures
        steady(*k) ==> r == low_band_of(*k, y, ysq),
{
    let top = climb(k, k.times(num(CODY_A_LEAD), ysq), &CODY_A, ysq);
    let bottom = climb(k, ysq, &CODY_B, ysq);
    k.minus(num(ONE), k.over(k.times(y, top), bottom))
}

/// The scaled complementary error function, by the middle band.
pub open spec fn middle_band_of<K: Arith>(k: K, y: Double) -> Double {
    quot(
        k,
        climbed(k, prod(k, num(CODY_C_LEAD), y), CODY_C@, y),
        climbed(k, y, CODY_D@, y),
    )
}

/// The scaled complementary error function, by the middle band.
pub fn middle_band<K: Arith>(k: &K, y: Double) -> (r: Double)
    ensures
        steady(*k) ==> r == middle_band_of(*k, y),
{
    let top = climb(k, k.times(num(CODY_C_LEAD), y), &CODY_C, y);
    let bottom = climb(k, y, &CODY_D, y);
    k.over(top, bottom)
}

/// The scaled complementary error function, by the high band.
pub open spec fn high_band_of<K: Arith>(k: K, y: Double, ysq: Double) -> Double {
    let z = quot(k, num(ONE), ysq);
    let top = climbed(k, prod(k, num(CODY_P_LEAD), z), CODY_P@, z);
    let bottom = climbed(k, z, CODY_Q@, z);
    quot(k, diff(k, num(INV_SQRT_PI), quot(k, prod(k, z, top), bottom)), y)
}

/// The scaled complementary error function, by the high band.
pub fn high_band<K: Arith>(k: &K, y: Double, ysq: Double) -> (r: Double)
    ensures
        steady(*k) ==> r == high_band_of(*k, y, ysq),
{
    let z = k.over(num(ONE), ysq);
    let top = climb(k, k.times(num(CODY_P_LEAD), z), &CODY_P, z);
    let bottom = climb(k, z, &CODY_Q, z);
    k.over(k.minus(num(INV_SQRT_PI), k.over(k.times(z, top), bottom)), y)
}

/// The complementary error function at the magnitude of the argument.
pub open spec fn erfc_of<K: Arith>(k: K, x: Double) -> Double {
    let y = unsigned(x);
    let ysq = prod(k, y, y);
    let decay = exp_of(k, prod(k, num(MINUS_ONE), ysq));
    match band_of(y) {
        Band::Low => low_band_of(k, y, ysq),
        Band::Middle => prod(k, decay, middle_band_of(k, y)),
        Band::High => prod(k, decay, high_band_of(k, y, ysq)),
    }
}

/// The complementary error function at the magnitude of the argument.
pub fn cody_erfc<K: Arith>(k: &K, x: Double) -> (r: Double)
    ensures
        steady(*k) ==> r == erfc_of(*k, x),
{
    let y = x.abs();
    let ysq = k.times(y, y);
    match band(y) {
        Band::Low => low_band(k, y, ysq),
        Band::Middle => {
            let decay = k.exp(k.times(num(MINUS_ONE), ysq));
            k.times(decay, middle_band(k, y))
        },
        Band::High => {
            let decay = k.exp(k.times(num(MINUS_ONE), ysq));
            k.times(decay, high_band(k, y, ysq))
        },
    }
}

/// The cumulative normal, by the complementary error function.
pub open spec fn phi_cody_of<K: Arith>(k: K, x: Double) -> Double {
    let t = unsigned(prod(k, x, num(INV_SQRT_TWO)));
    mirrored_of(k, x, prod(k, num(HALF), erfc_of(k, t)))
}

/// The cumulative normal at `x`, by the complementary error function.
pub fn phi_cody<K: Arith>(k: &K, x: Double) -> (r: Double)
    ensures
        steady(*k) ==> r == phi_cody_of(*k, x),
        is_probability(r),
{
    let t = k.times(x, num(INV_SQRT_TWO)).abs();
    let tail = k.times(num(HALF), cody_erfc(k, t));
    mirror(k, x, tail)
}

/// The scaled complementary error function outside the low band.
pub open spec fn scaled_outside_of<K: Arith>(k: K, y: Double, ysq: Double) -> Double {
    if num(FOUR).below(y) {
        high_band_of(k, y, ysq)
    } else {
        middle_band_of(k, y)
    }
}

/// The scaled complementary error function outside the low band.
pub fn scaled_outside<K: Arith>(k: &K, y: Double, ysq: Double) -> (r: Double)
    ensures
        steady(*k) ==> r == scaled_outside_of(*k, y, ysq),
{
    if y.gt(num(FOUR)) {
        high_band(k, y, ysq)
    } else {
        middle_band(k, y)
    }
}

/// `exp(y * y)` times the complementary error function, at the magnitude of
/// the argument.
pub open spec fn erfcx_of<K: Arith>(k: K, x: Double) -> Double {
    let y = unsigned(x);
    let ysq = prod(k, y, y);
    if y.at_most(num(HALF)) {
        prod(k, exp_of(k, ysq), low_band_of(k, y, ysq))
    } else {
        scaled_outside_of(k, y, ysq)
    }
}

/// The scaled complementary error function at the magnitude of the argument.
pub fn erfcx<K: Arith>(k: &K, x: Double) -> (r: Double)
    ensures
        steady(*k) ==> r == erfcx_of(*k, x),
{
    let y = x.abs();
    let ysq = k.times(y, y);
    if y.le(num(HALF)) {
        k.times(k.exp(ysq), low_band(k, y, ysq))
    } else {
        scaled_outside(k, y, ysq)
    }
}

/// `exp(-u * u) * erfcx(|u|)`, without forming either factor where they cancel.
pub open spec fn damped_of<K: Arith>(k: K, u: Double) -> Double {
    let y = unsigned(u);
    let usq = prod(k, u, u);
    if y.at_most(num(HALF)) {
        low_band_of(k, y, usq)
    } else {
        prod(k, exp_of(k, flipped(usq)), scaled_outside_of(k, y, usq))
    }
}

/// The survival function of the inverse Gaussian law, in its scaled variables.
pub open spec fn ig_surv_of<K: Arith>(k: K, u: Double, v: Double) -> Double {
    let near = damped_of(k, u);
    let far = prod(k, exp_of(k, flipped(prod(k, u, u))), erfcx_of(k, v));
    if u.negative() {
        diff(k, num(ONE), prod(k, num(HALF), sum(k, near, far)))
    } else {
        prod(k, num(HALF), diff(k, near, far))
    }
}

/// The survival function of the inverse Gaussian law, in its scaled variables.
pub fn ig_surv_from_uv<K: Arith>(k: &K, u: Double, v: Double) -> (r: Double)
    ensures
        steady(*k) ==> r == ig_surv_of(*k, u, v),
{
    let y = u.abs();
    let usq = k.times(u, u);
    let decay = k.exp(usq.neg());
    let near = if y.le(num(HALF)) {
        low_band(k, y, usq)
    } else {
        k.times(decay, scaled_outside(k, y, usq))
    };
    let far = k.times(decay, erfcx(k, v));
    if u.is_sign_negative() {
        k.minus(num(ONE), k.times(num(HALF), k.plus(near, far)))
    } else {
        k.times(num(HALF), k.minus(near, far))
    }
}

/// The probability that is inverted in place of `p`.
pub open spec fn interior(p: Double) -> Double {
    clamped(p, num(TINY), num(PROBIT_TOP))
}

/// The central arm of the probit.
pub open spec fn probit_central_of<K: Arith>(k: K, p: Double) -> Double {
    let q = diff(k, p, num(HALF));
    let r = prod(k, q, q);
    quot(k, prod(k, polynomial(k, PROBIT_A@, r), q), polynomial(k, PROBIT_B@, r))
}

/// The lower tail arm of the probit, at a small probability.
pub open spec fn probit_tail_of<K: Arith>(k: K, p: Double) -> Double {
    let q = sqrt_of(k, prod(k, num(MINUS_TWO), ln_of(k, p)));
    quot(k, polynomial(k, PROBIT_C@, q), polynomial(k, PROBIT_D@, q))
}

/// The probit before it is refined.
pub open spec fn probit_start_of<K: Arith>(k: K, p: Double) -> Double {
    if num(PROBIT_LOW).at_most(p) && p.at_most(num(PROBIT_HIGH)) {
        probit_central_of(k, p)
    } else if p.below(num(PROBIT_LOW)) {
        probit_tail_of(k, p)
    } else {
        flipped(probit_tail_of(k, diff(k, num(ONE), p)))
    }
}

/// One Halley step towards the probit of `p`.
pub open spec fn halley_of<K: Arith>(k: K, x: Double, p: Double) -> Double {
    let u = quot(k, diff(k, phi_hart_of(k, x), p), pdf_of(k, x));
    diff(k, x, quot(k, u, sum(k, num(ONE), prod(k, prod(k, num(HALF), x), u))))
}

/// The inverse of the cumulative normal.
pub open spec fn phi_inv_of<K: Arith>(k: K, p: Double) -> Double {
    let q = interior(p);
    halley_of(k, halley_of(k, probit_start_of(k, q), q), q)
}

/// The probit before it is refined.
pub fn probit_start<K: Arith>(k: &K, p: Double) -> (r: Double)
    ensures
        steady(*k) ==> r == probit_start_of(*k, p),
{
    if num(PROBIT_LOW).le(p) && p.le(num(PROBIT_HIGH)) {
        let q = k.minus(p, num(HALF));
        let s = k.times(q, q);
        k.over(k.times(horner(k, &PROBIT_A, s), q), horner(k, &PROBIT_B, s))
    } else {
        let lower = p.lt(num(PROBIT_LOW));
        let small = if lower {
            p
        } else {
            k.minus(num(ONE), p)
        };
        let q = k.sqrt(k.times(num(MINUS_TWO), k.ln(small)));
        let raw = k.over(horner(k, &PROBIT_C, q), horner(k, &PROBIT_D, q));
        if lower {
            raw
        } else {
            raw.neg()
        }
    }
}

/// One Halley step towards the probit of `p`.
pub fn halley<K: Arith>(k: &K, x: Double, p: Double) -> (r: Double)
    ensures
        steady(*k) ==> r == halley_of(*k, x, p),
{
    let e = k.minus(phi_hart(k, x), p);
    let u = k.over(e, phi_pdf(k, x));
    k.minus(x, k.over(u, k.plus(num(ONE), k.times(k.times(num(HALF), x), u))))
}

/// The inverse of the cumulative normal: a rational start and two Halley
/// steps. Arguments outside the open unit interval are moved into it.
pub fn phi_inv<K: Arith>(k: &K, p: Double) -> (r: Double)
    ensures
        steady(*k) ==> r == phi_inv_of(*k, p),
{
    let q = p.clamp(num(TINY), num(PROBIT_TOP));
    let start = probit_start(k, q);
    let once = halley(k, start, q);
    halley(k, once, q)
}

/// Every form is a probability, for every argument and on every machine.
pub proof fn law_cumulative_is_probability<K: Arith>(k: K, x: Double)
    ensures
        is_probability(phi_as_of(k, x)),
        is_probability(phi_hart_of(k, x)),
        is_probability(phi_west_of(k, x)),
        is_probability(phi_cody_of(k, x)),
{
    assert forall|t: Double| is_probability(#[trigger] as_probability(t)) by {
        law_order_is_encoding_order(num(ZERO), num(ONE));
        law_clamp_lands_in_bracket(t, num(ZERO), num(ONE));
    }
}

/// The two are probabilities of opposite arguments: they come from one tail,
/// which the one takes as it is and the other takes from one.
pub open spec fn share_a_tail<K: Arith>(k: K, low: Double, high: Double) -> bool {
    exists|t: Double| #[trigger]
        as_probability(t) == low && high == as_probability(diff(k, num(ONE), t))
}

/// The two are zero and one.
pub open spec fn part_the_unit(low: Double, high: Double) -> bool {
    low == num(ZERO) && high == num(ONE)
}

/// Each form is symmetric by construction: an argument below zero and its
/// opposite share one tail, and where the tail vanishes they get zero and one.
pub proof fn law_signs_share_a_tail<K: Arith>(k: K, x: Double)
    requires
        x.below(num(ZERO)),
    ensures
        share_a_tail(k, phi_as_of(k, x), phi_as_of(k, flipped(x))),
        if num(ZERO_CUTOFF).below(unsigned(x)) {
            part_the_unit(phi_hart_of(k, x), phi_hart_of(k, flipped(x)))
        } else {
            share_a_tail(k, phi_hart_of(k, x), phi_hart_of(k, flipped(x)))
        },
        if num(ZERO_CUTOFF).at_most(unsigned(x)) {
            part_the_unit(phi_west_of(k, x), phi_west_of(k, flipped(x)))
        } else {
            share_a_tail(k, phi_west_of(k, x), phi_west_of(k, flipped(x)))
        },
{
    lemma_units_zero(0);
    lemma_units_zero(x.magnitude());
    let z = unsigned(x);
    assert(unsigned(flipped(x)) == z);
    assert(!flipped(x).below(num(ZERO)));
    assert(as_probability(tail_as_of(k, z)) == phi_as_of(k, x));
    if !num(ZERO_CUTOFF).below(z) {
        assert(as_probability(tail_hart_of(k, z)) == phi_hart_of(k, x));
    }
    if !num(ZERO_CUTOFF).at_most(z) {
        assert(as_probability(tail_west_of(k, z)) == phi_west_of(k, x));
    }
}

/// Strictly between zero and one.
pub open spec fn strictly_inside(p: Double) -> bool {
    num(ZERO).below(p) && p.below(num(ONE))
}

/// The probit is never asked for zero or one, nor for what lies beyond; a
/// probability well inside is taken as it is.
pub proof fn law_probit_argument_is_interior(p: Double)
    ensures
        strictly_inside(interior(p)),
        num(TINY).at_most(p) && p.at_most(num(PROBIT_TOP)) ==> interior(p) == p,
{
    let lo = num(TINY);
    let hi = num(PROBIT_TOP);
    law_order_is_encoding_order(lo, hi);
    law_order_is_encoding_order(num(ZERO), lo);
    law_order_is_encoding_order(hi, num(ONE));
    law_clamp_lands_in_bracket(p, lo, hi);
}

/// The arms of the normal law part at `sqrt(50)` and `37`, those of its inverse at
/// `0.02425` from either end.
pub proof fn law_normal_thresholds()
    ensures
        rounds(num(WEST_RATIONAL_CUTOFF), 7071067811865475, 1000000000000000),
        equals(num(ZERO_CUTOFF), 37, 1),
        rounds(num(WEST_INNERMOST), 65, 100),
        rounds(num(AS_SCALE), 2316419, 10000000),
        rounds(num(PROBIT_LOW), 2425, 100000),
        rounds(num(PROBIT_HIGH), 97575, 100000),
        equals(num(PROBIT_TOP), 4503599627370495, 4503599627370496),
        rounds(num(INV_SQRT_PI), 56418958354775628695int, 100000000000000000000int),
{
    lemma2_to64();
    lemma2_to64_rest();
    lemma_rounds(num(WEST_RATIONAL_CUTOFF), 1025, 7961314590657215, 1125899906842624, 7071067811865475, 1000000000000000);
    lemma_rounds(num(ZERO_CUTOFF), 1028, 5207287069147136, 140737488355328, 37, 1);
    lemma_rounds(num(WEST_INNERMOST), 1022, 5854679515581645, 9007199254740992, 65, 100);
    lemma_rounds(num(AS_SCALE), 1020, 8345778996187150, 36028797018963968, 2316419, 10000000);
    lemma_rounds(num(PROBIT_LOW), 1017, 6989586621679010, 288230376151711744, 2425, 100000);
    lemma_rounds(num(PROBIT_HIGH), 1022, 8788774672813523, 9007199254740992, 97575, 100000);
    lemma_rounds(num(PROBIT_TOP), 1022, 9007199254740990, 9007199254740992, 4503599627370495, 4503599627370496);
    lemma_rounds(num(INV_SQRT_PI), 1022, 5081767996463981, 9007199254740992, 56418958354775628695int, 100000000000000000000int);
}

/// A polynomial of one coefficient is that coefficient; one more coefficient
/// multiplies by `z` and is added. A ladder adds first and multiplies after, and
/// only adds the last.
pub proof fn law_polynomial_by_nesting<K: Arith>(
    k: K,
    first: Double,
    c: Seq<u64>,
    last: u64,
    z: Double,
)
    requires
        c.len() > 0,
    ensures
        polynomial(k, seq![last], z) == num(last),
        polynomial(k, c.push(last), z) == sum(k, prod(k, polynomial(k, c, z), z), num(last)),
        climbed(k, first, seq![last], z) == sum(k, first, num(last)),
        climbed(k, first, c.push(last), z) == sum(
            k,
            prod(k, climbed(k, first, c, z), z),
            num(last),
        ),
{
    let longer = c.push(last);
    let n = (c.len() - 1) as nat;
    lemma_horner_reads_a_prefix(k, c, longer, z, n);
    lemma_ladder_reads_a_prefix(k, first, c, longer, z, n);
    reveal_with_fuel(horner_of, 2);
    reveal_with_fuel(ladder_of, 2);
}

/// The first coefficients decide what they make.
proof fn lemma_horner_reads_a_prefix<K: Arith>(k: K, c: Seq<u64>, d: Seq<u64>, z: Double, n: nat)
    requires
        n < c.len() <= d.len(),
        forall|i: int| 0 <= i < c.len() ==> #[trigger] d[i] == c[i],
    ensures
        horner_of(k, d, z, n) == horner_of(k, c, z, n),
    decreases n,
{
    if n > 0 {
        lemma_horner_reads_a_prefix(k, c, d, z, (n - 1) as nat);
    }
}

/// The first coefficients decide how far a ladder leads.
proof fn lemma_ladder_reads_a_prefix<K: Arith>(
    k: K,
    first: Double,
    c: Seq<u64>,
    d: Seq<u64>,
    z: Double,
    n: nat,
)
    requires
        n <= c.len() <= d.len(),
        forall|i: int| 0 <= i < c.len() ==> #[trigger] d[i] == c[i],
    ensures
        ladder_of(k, first, d, z, n) == ladder_of(k, first, c, z, n),
    decreases n,
{
    if n > 0 {
        lemma_ladder_reads_a_prefix(k, first, c, d, z, (n - 1) as nat);
    }
}

/// The density is `exp(-x^2 / 2)` over the root of two pi, at every `x`.
pub proof fn law_density_is_the_bell<K: Arith>(k: K, x: Double)
    ensures
        pdf_of(k, x) == prod(
            k,
            num(INV_SQRT_TWO_PI),
            exp_of(k, prod(k, prod(k, num(MINUS_HALF), x), x)),
        ),
{
}

/// From a tail to a probability: below zero the tail itself, elsewhere one less
/// the tail; what falls outside the unit interval is taken to its nearer end, and
/// what is no number to zero.
pub proof fn law_probability_from_a_tail<K: Arith>(k: K, x: Double, tail: Double)
    ensures
        ({
            let p = if x.below(num(ZERO)) {
                tail
            } else {
                diff(k, num(ONE), tail)
            };
            let r = mirrored_of(k, x, tail);
            &&& num(ZERO).at_most(p) && p.at_most(num(ONE)) ==> r == p
            &&& p.below(num(ZERO)) || p.nan() ==> r == num(ZERO)
            &&& num(ONE).below(p) ==> r == num(ONE)
        }),
{
    law_order_is_encoding_order(num(ZERO), num(ONE));
}

/// The cumulative normal of the solvers: zero and one beyond `37`, and up to there
/// the tail `exp(-z^2 / 2)` times a rational of the magnitude `z`, one rational
/// for all of it.
pub proof fn law_normal_by_one_rational<K: Arith>(k: K, x: Double)
    ensures
        ({
            let z = unsigned(x);
            let bell = exp_of(k, prod(k, prod(k, num(MINUS_HALF), z), z));
            let tail = quot(
                k,
                prod(k, bell, polynomial(k, HART_TOP@, z)),
                polynomial(k, HART_BOTTOM@, z),
            );
            &&& num(ZERO_CUTOFF).below(z) && x.below(num(ZERO)) ==> phi_hart_of(k, x) == num(ZERO)
            &&& num(ZERO_CUTOFF).below(z) && !x.below(num(ZERO)) ==> phi_hart_of(k, x) == num(ONE)
            &&& !num(ZERO_CUTOFF).below(z) ==> phi_hart_of(k, x) == mirrored_of(k, x, tail)
        }),
{
}

/// The cumulative normal in three regimes: that rational below `sqrt(50)`, a
/// continued fraction of five levels from there to `37`, and zero and one from
/// `37` on.
pub proof fn law_normal_in_three_regimes<K: Arith>(k: K, x: Double)
    ensures
        ({
            let z = unsigned(x);
            let bell = exp_of(k, prod(k, prod(k, num(MINUS_HALF), z), z));
            let rational = quot(
                k,
                prod(k, bell, polynomial(k, HART_TOP@, z)),
                polynomial(k, HART_BOTTOM@, z),
            );
            let e = sum(k, z, num(WEST_INNERMOST));
            let d = sum(k, z, quot(k, num(FOUR), e));
            let c = sum(k, z, quot(k, num(THREE), d));
            let b = sum(k, z, quot(k, num(TWO), c));
            let a = sum(k, z, quot(k, num(ONE), b));
            let fraction = quot(k, quot(k, bell, a), num(SQRT_TWO_PI));
            let far = num(ZERO_CUTOFF).at_most(z);
            &&& far && x.below(num(ZERO)) ==> phi_west_of(k, x) == num(ZERO)
            &&& far && !x.below(num(ZERO)) ==> phi_west_of(k, x) == num(ONE)
            &&& !far && z.below(num(WEST_RATIONAL_CUTOFF)) ==> phi_west_of(k, x) == mirrored_of(
                k,
                x,
                rational,
            )
            &&& !far && !z.below(num(WEST_RATIONAL_CUTOFF)) ==> phi_west_of(k, x) == mirrored_of(
                k,
                x,
                fraction,
            )
        }),
{
}

/// The coarse cumulative normal: the density times five powers of
/// `1 / (1 + 0.2316419 z)`.
pub proof fn law_normal_by_five_powers<K: Arith>(k: K, x: Double)
    ensures
        ({
            let z = unsigned(x);
            let t = quot(k, num(ONE), sum(k, num(ONE), prod(k, num(AS_SCALE), z)));
            let powers = prod(k, polynomial(k, AS_COEFFICIENTS@, t), t);
            phi_as_of(k, x) == mirrored_of(k, x, prod(k, pdf_of(k, z), powers))
        }),
{
}

/// The complementary error function in its three bands, up to one half, up to
/// four, and above: the scaled function of a band times `exp(-y^2)`, but in the
/// low band one less a rational.
pub proof fn law_error_function_in_three_bands<K: Arith>(k: K, x: Double)
    ensures
        ({
            let y = unsigned(x);
            let y2 = prod(k, y, y);
            let z = quot(k, num(ONE), y2);
            let low = diff(
                k,
                num(ONE),
                quot(
                    k,
                    prod(k, y, climbed(k, prod(k, num(CODY_A_LEAD), y2), CODY_A@, y2)),
                    climbed(k, y2, CODY_B@, y2),
                ),
            );
            let middle = quot(
                k,
                climbed(k, prod(k, num(CODY_C_LEAD), y), CODY_C@, y),
                climbed(k, y, CODY_D@, y),
            );
            let high = quot(
                k,
                diff(
                    k,
                    num(INV_SQRT_PI),
                    quot(
                        k,
                        prod(k, z, climbed(k, prod(k, num(CODY_P_LEAD), z), CODY_P@, z)),
                        climbed(k, z, CODY_Q@, z),
                    ),
                ),
                y,
            );
            let decay = exp_of(k, prod(k, num(MINUS_ONE), y2));
            let is_low = y.at_most(num(HALF));
            let is_high = num(FOUR).below(y);
            &&& is_low ==> {
                &&& erfc_of(k, x) == low
                &&& erfcx_of(k, x) == prod(k, exp_of(k, y2), low)
            }
            &&& !is_low && !is_high ==> {
                &&& erfc_of(k, x) == prod(k, decay, middle)
                &&& erfcx_of(k, x) == middle
            }
            &&& is_high ==> {
                &&& erfc_of(k, x) == prod(k, decay, high)
                &&& erfcx_of(k, x) == high
            }
        }),
{
    law_order_is_encoding_order(num(HALF), num(FOUR));
}

/// The fine cumulative normal: half the complementary error function at the
/// magnitude of `x` over the root of two.
pub proof fn law_normal_by_error_function<K: Arith>(k: K, x: Double)
    ensures
        phi_cody_of(k, x) == mirrored_of(
            k,
            x,
            prod(k, num(HALF), erfc_of(k, unsigned(prod(k, x, num(INV_SQRT_TWO))))),
        ),
{
}

/// The survival function of the inverse Gaussian law, from its two scaled
/// variables: half the difference of `exp(-u^2) erfcx(u)` and
/// `exp(-u^2) erfcx(v)` where `u` has no sign, and one less half their sum where
/// it has; where `u` is within one half, the first is one less a rational, and
/// no exponential is formed for it.
pub proof fn law_survival_by_scaled_errors<K: Arith>(k: K, u: Double, v: Double)
    ensures
        ({
            let y = unsigned(u);
            let u2 = prod(k, u, u);
            let decay = exp_of(k, flipped(u2));
            let far = prod(k, decay, erfcx_of(k, v));
            let near = if y.at_most(num(HALF)) {
                low_band_of(k, y, u2)
            } else if num(FOUR).below(y) {
                prod(k, decay, high_band_of(k, y, u2))
            } else {
                prod(k, decay, middle_band_of(k, y))
            };
            &&& u.bits < 0x8000_0000_0000_0000 ==> ig_surv_of(k, u, v) == prod(
                k,
                num(HALF),
                diff(k, near, far),
            )
            &&& u.bits >= 0x8000_0000_0000_0000 ==> ig_surv_of(k, u, v) == diff(
                k,
                num(ONE),
                prod(k, num(HALF), sum(k, near, far)),
            )
        }),
{
}

/// The probit starts from a rational in `p - 1/2` between `0.02425` and
/// `1 - 0.02425`, from one in `sqrt(-2 ln p)` below, and above from the opposite
/// of what `1 - p` starts from; two Halley steps follow, each by
/// `u / (1 + x u / 2)` with `u` the error of the cumulative normal over the
/// density.
pub proof fn law_probit_is_refined_twice<K: Arith>(k: K, p: Double)
    ensures
        ({
            let q = interior(p);
            let off = diff(k, q, num(HALF));
            let square = prod(k, off, off);
            let central = quot(
                k,
                prod(k, polynomial(k, PROBIT_A@, square), off),
                polynomial(k, PROBIT_B@, square),
            );
            let low = sqrt_of(k, prod(k, num(MINUS_TWO), ln_of(k, q)));
            let high = sqrt_of(k, prod(k, num(MINUS_TWO), ln_of(k, diff(k, num(ONE), q))));
            let start = if q.below(num(PROBIT_LOW)) {
                quot(k, polynomial(k, PROBIT_C@, low), polynomial(k, PROBIT_D@, low))
            } else if num(PROBIT_HIGH).below(q) {
                flipped(quot(k, polynomial(k, PROBIT_C@, high), polynomial(k, PROBIT_D@, high)))
            } else {
                central
            };
            phi_inv_of(k, p) == halley_of(k, halley_of(k, start, q), q)
        }),
        forall|x: Double|
            ({
                let u = quot(k, diff(k, phi_hart_of(k, x), p), pdf_of(k, x));
                #[trigger] halley_of(k, x, p) == diff(
                    k,
                    x,
                    quot(k, u, sum(k, num(ONE), prod(k, prod(k, num(HALF), x), u))),
                )
            }),
{
    law_probit_argument_is_interior(p);
    law_order_is_encoding_order(num(PROBIT_LOW), num(PROBIT_HIGH));
}

/// An abscissa whose cumulative probability is `p` is where the probit rests.
pub proof fn law_probit_rests_at_the_abscissa<K: Arith>(k: K, x: Double, p: Double)
    requires
        neutral(k),
        p.finite(),
        phi_hart_of(k, x) == p,
        x.finite() && !is_zero(x),
        pdf_of(k, x).finite() && !is_zero(pdf_of(k, x)),
        prod(k, num(HALF), x).finite(),
    ensures
        halley_of(k, x, p) == x,
{
    let off = diff(k, phi_hart_of(k, x), p);
    assert(is_zero(off));
    let u = quot(k, off, pdf_of(k, x));
    assert(is_zero(u));
    let w = prod(k, prod(k, num(HALF), x), u);
    assert(is_zero(w));
    let one = num(ONE);
    assert(one.finite() && !is_zero(one));
    assert(sum(k, one, w) == one);
    assert(is_zero(quot(k, u, one)));
}

} // verus!
