//! Numbers that the formulas use, by their encodings.
use crate::double::{
    equals, flipped, lemma_pow2_two_words, lemma_rounds, num, rounds,
};
use vstd::arithmetic::power2::{lemma2_to64, lemma2_to64_rest, lemma_pow2_adds, pow2};
use vstd::prelude::*;

verus! {

/// `0.0`.
pub const ZERO: u64 = 0x0000_0000_0000_0000;

/// `1.0`.
pub const ONE: u64 = 0x3FF0_0000_0000_0000;

/// `2.0`.
pub const TWO: u64 = 0x4000_0000_0000_0000;

/// `3.0`.
pub const THREE: u64 = 0x4008_0000_0000_0000;

/// `4.0`.
pub const FOUR: u64 = 0x4010_0000_0000_0000;

/// `6.0`.
pub const SIX: u64 = 0x4018_0000_0000_0000;

/// `8.0`.
pub const EIGHT: u64 = 0x4020_0000_0000_0000;

/// `0.5`.
pub const HALF: u64 = 0x3FE0_0000_0000_0000;

/// `0.25`.
pub const QUARTER: u64 = 0x3FD0_0000_0000_0000;

/// `0.125`.
pub const EIGHTH: u64 = 0x3FC0_0000_0000_0000;

/// `-0.5`.
pub const MINUS_HALF: u64 = 0xBFE0_0000_0000_0000;

/// `-1.0`.
pub const MINUS_ONE: u64 = 0xBFF0_0000_0000_0000;

/// `-2.0`.
pub const MINUS_TWO: u64 = 0xC000_0000_0000_0000;

/// `-3.0`.
pub const MINUS_THREE: u64 = 0xC008_0000_0000_0000;

/// `pi`.
pub const PI: u64 = 0x4009_21FB_5444_2D18;

/// `2 * pi`.
pub const TWO_PI: u64 = 0x4019_21FB_5444_2D18;

/// `pi / 2`.
pub const HALF_PI: u64 = 0x3FF9_21FB_5444_2D18;

/// `sqrt(3)`.
pub const SQRT_THREE: u64 = 0x3FFB_B67A_E858_4CAA;

/// `3 * sqrt(3)`.
pub const THREE_SQRT_THREE: u64 = 0x4014_C8DC_2E42_3980;

/// `1 / sqrt(2)`.
pub const INV_SQRT_TWO: u64 = 0x3FE6_A09E_667F_3BCD;

/// `1 / sqrt(2 pi)`.
pub const INV_SQRT_TWO_PI: u64 = 0x3FD9_8845_33D4_3651;

/// `sqrt(2 pi)`.
pub const SQRT_TWO_PI: u64 = 0x4004_0D93_1FF6_2706;

/// `2^-52`.
pub const EPSILON: u64 = 0x3CB0_0000_0000_0000;

/// `1e-300`.
pub const TINY: u64 = 0x01A5_6E1F_C2F8_F359;

/// `1e-12`.
pub const SMALL: u64 = 0x3D71_9799_812D_EA11;

/// `1e12`.
pub const HUGE: u64 = 0x426D_1A94_A200_0000;

/// The numbers are what their names say: exactly, where binary64 holds them, and
/// else as closely as it does.
pub proof fn law_constants_hold_their_values()
    ensures
        equals(num(ONE), 1, 1),
        equals(num(TWO), 2, 1),
        equals(num(THREE), 3, 1),
        equals(num(FOUR), 4, 1),
        equals(num(SIX), 6, 1),
        equals(num(EIGHT), 8, 1),
        equals(num(HALF), 1, 2),
        equals(num(QUARTER), 1, 4),
        equals(num(EIGHTH), 1, 8),
        rounds(num(PI), 314159265358979323846int, 100000000000000000000int),
        rounds(num(TWO_PI), 628318530717958647693int, 100000000000000000000int),
        rounds(num(HALF_PI), 157079632679489661923int, 100000000000000000000int),
        rounds(num(SQRT_THREE), 173205080756887729353int, 100000000000000000000int),
        rounds(num(THREE_SQRT_THREE), 519615242270663188058int, 100000000000000000000int),
        rounds(num(INV_SQRT_TWO), 70710678118654752440int, 100000000000000000000int),
        rounds(num(INV_SQRT_TWO_PI), 39894228040143267794int, 100000000000000000000int),
        rounds(num(SQRT_TWO_PI), 250662827463100050242int, 100000000000000000000int),
        equals(num(EPSILON), 1, 4503599627370496),
        rounds(num(SMALL), 1, 1000000000000),
        equals(num(HUGE), 1000000000000, 1),
        ZERO == 0,
        num(MINUS_HALF) == flipped(num(HALF)),
        num(MINUS_ONE) == flipped(num(ONE)),
        num(MINUS_TWO) == flipped(num(TWO)),
        num(MINUS_THREE) == flipped(num(THREE)),
{
    lemma2_to64();
    lemma2_to64_rest();
    lemma_pow2_two_words(28);
    lemma_pow2_two_words(40);
    lemma_rounds(num(ONE), 1023, 4503599627370496, 4503599627370496, 1, 1);
    lemma_rounds(num(TWO), 1024, 4503599627370496, 2251799813685248, 2, 1);
    lemma_rounds(num(THREE), 1024, 6755399441055744, 2251799813685248, 3, 1);
    lemma_rounds(num(FOUR), 1025, 4503599627370496, 1125899906842624, 4, 1);
    lemma_rounds(num(SIX), 1025, 6755399441055744, 1125899906842624, 6, 1);
    lemma_rounds(num(EIGHT), 1026, 4503599627370496, 562949953421312, 8, 1);
    lemma_rounds(num(HALF), 1022, 4503599627370496, 9007199254740992, 1, 2);
    lemma_rounds(num(QUARTER), 1021, 4503599627370496, 18014398509481984, 1, 4);
    lemma_rounds(num(EIGHTH), 1020, 4503599627370496, 36028797018963968, 1, 8);
    lemma_rounds(num(PI), 1024, 7074237752028440, 2251799813685248, 314159265358979323846int, 100000000000000000000int);
    lemma_rounds(num(TWO_PI), 1025, 7074237752028440, 1125899906842624, 628318530717958647693int, 100000000000000000000int);
    lemma_rounds(num(HALF_PI), 1023, 7074237752028440, 4503599627370496, 157079632679489661923int, 100000000000000000000int);
    lemma_rounds(num(SQRT_THREE), 1023, 7800463371553962, 4503599627370496, 173205080756887729353int, 100000000000000000000int);
    lemma_rounds(num(THREE_SQRT_THREE), 1025, 5850347528665472, 1125899906842624, 519615242270663188058int, 100000000000000000000int);
    lemma_rounds(num(INV_SQRT_TWO), 1022, 6369051672525773, 9007199254740992, 70710678118654752440int, 100000000000000000000int);
    lemma_rounds(num(INV_SQRT_TWO_PI), 1021, 7186705221432913, 18014398509481984, 39894228040143267794int, 100000000000000000000int);
    lemma_rounds(num(SQRT_TWO_PI), 1024, 5644425081792262, 2251799813685248, 250662827463100050242int, 100000000000000000000int);
    lemma_rounds(num(EPSILON), 971, 4503599627370496, 20282409603651670423947251286016int, 1, 4503599627370496);
    lemma_rounds(num(SMALL), 983, 4951760157141521, 4951760157141521099596496896int, 1, 1000000000000);
    lemma_rounds(num(HUGE), 1062, 8192000000000000, 8192, 1000000000000, 1);
}

/// `TINY` is `1e-300`.
pub proof fn law_tiny_is_ten_to_minus_three_hundred()
    ensures
        rounds(num(TINY), 1, 1000000000000000000000000000000000000000000000000000000000000000000000000000000000000000000000000000000000000000000000000000000000000000000000000000000000000000000000000000000000000000000000000000000000000000000000000000000000000000000000000000000000000000000000000000000000000000000000000000000000000int),
{
    lemma2_to64();
    lemma2_to64_rest();
    lemma_pow2_adds(64, 64);
    assert(pow2(128) == 340282366920938463463374607431768211456int);
    lemma_pow2_adds(128, 128);
    assert(pow2(256) == 115792089237316195423570985008687907853269984665640564039457584007913129639936int);
    lemma_pow2_adds(256, 256);
    assert(pow2(512) == 13407807929942597099574024998205846127479365820592393377723561443721764030073546976801874298166903427690031858186486050853753882811946569946433649006084096int);
    lemma_pow2_adds(512, 512);
    assert(pow2(1024) == 179769313486231590772930519078902473361797697894230657273430081157732675805500963132708477322407536021120113879871393357658789768814416622492847430639474124377767893424865485276302219601246094119453082952085005768838150682342462881473913110540827237163350510684586298239947245938479716304835356329624224137216int);
    lemma_pow2_adds(1024, 25);
    lemma_rounds(num(TINY), 26, 6032057205060441, 6032057205060440848842124543157735677050252251748505781796615064961622344493727293370973578138265743708225425014400837164813540499979063179105919597766951022193355091707896034850684039059079180396788349106095584290087446076413771468940477241550670753145517602931224392424029547429993824129889235158145614364972941312int, 1, 1000000000000000000000000000000000000000000000000000000000000000000000000000000000000000000000000000000000000000000000000000000000000000000000000000000000000000000000000000000000000000000000000000000000000000000000000000000000000000000000000000000000000000000000000000000000000000000000000000000000000int);
}

} // verus!
