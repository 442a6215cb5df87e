//! The plan of the adversarial grid.
//!
//! A row is planned by its number alone: its terms, how its strike and premium
//! come about, what it exercises, and which status an honest solver reports.
use crate::constants::{MINUS_ONE, ONE, ZERO};
use crate::direct::{VOL_MAX, VOL_MIN};
use crate::double::{INFINITE, NAN};
use crate::kind::OptionKind;
use vstd::prelude::*;

verus! {

/// The number of rows.
pub const GRID_ROWS: usize = 3082;

/// What a row exercises.
#[derive(Clone, Copy, Debug, PartialEq, Eq, Structural)]
pub enum Regime {
    SubnormalPrice,
    NearIntrinsicCall,
    NearIntrinsicPut,
    NearUpperCall,
    ShortT,
    SigmaAtVolMin,
    SigmaBelowVolMin,
    SigmaAboveVolMin,
    SigmaAtVolMax,
    SigmaBelowVolMax,
    SigmaAboveVolMax,
    SigmaHalfVolMin,
    SigmaThreeHalvesVolMax,
    ExtremeMoney,
    AtIntrinsic,
    AtMaximum,
    NonFiniteInput,
    NegativeOrZeroInput,
    CombinedExtreme,
    Sweep,
}

/// The status that a row should get.
#[derive(Clone, Copy, Debug, PartialEq, Eq, Structural)]
pub enum ExpectedStatus {
    Computed,
    BelowVolMin,
    AboveVolMax,
    BelowIntrinsic,
    AboveMaximum,
    NonFinite,
    FailedToConverge,
    /// More than one status is honest.
    Either,
}

/// How the strike of a row comes about.
#[derive(Clone, Copy, Debug, PartialEq, Eq, Structural)]
pub enum StrikeRule {
    Given(u64),
    /// A multiple of the forward.
    OfForward(u64),
    /// A multiple of the spot.
    OfSpot(u64),
}

/// How the kind of a row comes about.
#[derive(Clone, Copy, Debug, PartialEq, Eq, Structural)]
pub enum KindRule {
    Given(OptionKind),
    /// A call where the strike is above the forward.
    AboveForward,
    /// The leg that is out of the money: a call where the strike is not below
    /// the spot.
    FromSpot,
    /// The other leg: a call where the strike is below the spot.
    BelowSpot,
}

/// How the premium of a row comes about.
#[derive(Clone, Copy, Debug, PartialEq, Eq, Structural)]
pub enum PriceRule {
    Given(u64),
    /// The price at the volatility of the row.
    AtVol,
    /// So many units in the last place above the intrinsic value.
    AboveIntrinsic(u64),
    /// So many units in the last place below the price that cannot be reached.
    BelowUpper(u64),
    /// The intrinsic value.
    Intrinsic,
    /// The price that cannot be reached.
    Upper,
}

/// How the expected status of a row comes about.
#[derive(Clone, Copy, Debug, PartialEq, Eq, Structural)]
pub enum StatusRule {
    Given(ExpectedStatus),
    /// By volatility and premium.
    ByPrice,
}

/// A row before any arithmetic.
#[derive(Clone, Copy, Debug, PartialEq, Eq, Structural)]
pub struct Plan {
    pub s: u64,
    pub strike: StrikeRule,
    pub t: u64,
    pub r: u64,
    pub kind: KindRule,
    pub sigma: u64,
    pub price: PriceRule,
    pub regime: Regime,
    pub expected: StatusRule,
}

/// `100.0`.
pub const HUNDRED: u64 = 0x4059_0000_0000_0000;

/// `200.0`.
pub const TWO_HUNDRED: u64 = 0x4069_0000_0000_0000;

/// `110.0`.
pub const HUNDRED_TEN: u64 = 0x405B_8000_0000_0000;

/// `90.0`.
pub const NINETY: u64 = 0x4056_8000_0000_0000;

/// `10.0`.
pub const TEN: u64 = 0x4024_0000_0000_0000;

/// `0.02`.
pub const TWO_PERCENT: u64 = 0x3F94_7AE1_47AE_147B;

/// `VOL_MIN`, one unit in the last place down.
pub const VOL_MIN_DOWN: u64 = 0x3F84_7AE1_47AE_147A;

/// `VOL_MIN`, one unit in the last place up.
pub const VOL_MIN_UP: u64 = 0x3F84_7AE1_47AE_147C;

/// `VOL_MAX`, one unit in the last place down.
pub const VOL_MAX_DOWN: u64 = 0x4013_FFFF_FFFF_FFFF;

/// `VOL_MAX`, one unit in the last place up.
pub const VOL_MAX_UP: u64 = 0x4014_0000_0000_0001;

/// Half of `VOL_MIN`.
pub const HALF_VOL_MIN: u64 = 0x3F74_7AE1_47AE_147B;

/// `VOL_MAX` and a half of it.
pub const THREE_HALVES_VOL_MAX: u64 = 0x401E_0000_0000_0000;

/// Subnormal premiums: `1`, `2^10` and `2^32` times the smallest positive number.
pub const SUBNORMALS: [u64; 3] = [
    0x0000_0000_0000_0001,
    0x0000_0000_0000_0400,
    0x0000_0001_0000_0000,
];

/// Offsets from a bound, in units in the last place: `0`, `1`, `4`, `16`, `256`.
pub const OFFSETS: [u64; 5] = [
    0x0000_0000_0000_0000,
    0x3FF0_0000_0000_0000,
    0x4010_0000_0000_0000,
    0x4030_0000_0000_0000,
    0x4070_0000_0000_0000,
];

/// Short expiries: `1e-15`, `1e-10`, `1e-5`, `0.001`, `0.01`.
pub const SHORT_EXPIRIES: [u64; 5] = [
    0x3CD2_03AF_9EE7_5616,
    0x3DDB_7CDF_D9D7_BDBB,
    0x3EE4_F8B5_88E3_68F1,
    0x3F50_624D_D2F1_A9FC,
    0x3F84_7AE1_47AE_147B,
];

/// Volatilities at short expiries: `0.05`, `0.2`, `0.5`.
pub const SHORT_SIGMAS: [u64; 3] = [
    0x3FA9_9999_9999_999A,
    0x3FC9_9999_9999_999A,
    0x3FE0_0000_0000_0000,
];

/// Strikes of the three options at the ends of the range: `100`, `95`, `110`.
pub const BOUND_STRIKES: [u64; 3] = [
    0x4059_0000_0000_0000,
    0x4057_C000_0000_0000,
    0x405B_8000_0000_0000,
];

/// Their expiries: `1`, `0.5`, `2`.
pub const BOUND_EXPIRIES: [u64; 3] = [
    0x3FF0_0000_0000_0000,
    0x3FE0_0000_0000_0000,
    0x4000_0000_0000_0000,
];

/// Their rates: `0.02`, `0.03`, `0.01`.
pub const BOUND_RATES: [u64; 3] = [
    0x3F94_7AE1_47AE_147B,
    0x3F9E_B851_EB85_1EB8,
    0x3F84_7AE1_47AE_147B,
];

/// Their kinds.
pub const BOUND_KINDS: [OptionKind; 3] = [OptionKind::Call, OptionKind::Put, OptionKind::Call];

/// The volatilities that each of them is priced at.
pub const BOUND_SIGMAS: [u64; 8] = [
    VOL_MIN,
    VOL_MIN_DOWN,
    VOL_MIN_UP,
    VOL_MAX,
    VOL_MAX_DOWN,
    VOL_MAX_UP,
    HALF_VOL_MIN,
    THREE_HALVES_VOL_MAX,
];

/// What those volatilities exercise.
pub const BOUND_REGIMES: [Regime; 8] = [
    Regime::SigmaAtVolMin,
    Regime::SigmaBelowVolMin,
    Regime::SigmaAboveVolMin,
    Regime::SigmaAtVolMax,
    Regime::SigmaBelowVolMax,
    Regime::SigmaAboveVolMax,
    Regime::SigmaHalfVolMin,
    Regime::SigmaThreeHalvesVolMax,
];

/// The statuses that they should get.
pub const BOUND_EXPECTED: [ExpectedStatus; 8] = [
    ExpectedStatus::Computed,
    ExpectedStatus::Either,
    ExpectedStatus::Computed,
    ExpectedStatus::Computed,
    ExpectedStatus::Computed,
    ExpectedStatus::Either,
    ExpectedStatus::BelowVolMin,
    ExpectedStatus::AboveVolMax,
];

/// Extreme ratios of strike to forward: `1e-6`, `1e-3`, `0.01`, `100`, `1e3`, `1e6`.
pub const EXTREME_RATIOS: [u64; 6] = [
    0x3EB0_C6F7_A0B5_ED8D,
    0x3F50_624D_D2F1_A9FC,
    0x3F84_7AE1_47AE_147B,
    0x4059_0000_0000_0000,
    0x408F_4000_0000_0000,
    0x412E_8480_0000_0000,
];

/// Volatilities at extreme strikes: `0.1`, `0.3`, `1`.
pub const EXTREME_SIGMAS: [u64; 3] = [
    0x3FB9_9999_9999_999A,
    0x3FD3_3333_3333_3333,
    0x3FF0_0000_0000_0000,
];

/// Spots of the options at their intrinsic value: `110`, `90`, `100`.
pub const INTRINSIC_SPOTS: [u64; 3] = [
    0x405B_8000_0000_0000,
    0x4056_8000_0000_0000,
    0x4059_0000_0000_0000,
];

/// Their rates: `0.02`, `0.02`, `0`.
pub const INTRINSIC_RATES: [u64; 3] = [
    0x3F94_7AE1_47AE_147B,
    0x3F94_7AE1_47AE_147B,
    0x0000_0000_0000_0000,
];

/// Their kinds.
pub const INTRINSIC_KINDS: [OptionKind; 3] = [OptionKind::Call, OptionKind::Put, OptionKind::Call];

/// Spots of the options with a term that is not finite.
pub const ODD_SPOTS: [u64; 9] = [
    NAN,
    HUNDRED,
    HUNDRED,
    HUNDRED,
    HUNDRED,
    INFINITE,
    HUNDRED,
    HUNDRED,
    0xFFF0_0000_0000_0000,
];

/// Their strikes.
pub const ODD_STRIKES: [u64; 9] = [
    HUNDRED,
    NAN,
    HUNDRED,
    HUNDRED,
    HUNDRED,
    HUNDRED,
    HUNDRED,
    HUNDRED,
    HUNDRED,
];

/// Their expiries.
pub const ODD_EXPIRIES: [u64; 9] = [ONE, ONE, NAN, ONE, ONE, ONE, INFINITE, ONE, ONE];

/// Their rates.
pub const ODD_RATES: [u64; 9] = [
    TWO_PERCENT,
    TWO_PERCENT,
    TWO_PERCENT,
    NAN,
    TWO_PERCENT,
    TWO_PERCENT,
    TWO_PERCENT,
    TWO_PERCENT,
    TWO_PERCENT,
];

/// Their premiums.
pub const ODD_PRICES: [u64; 9] = [TEN, TEN, TEN, TEN, NAN, TEN, TEN, INFINITE, TEN];

/// Spots of the options with a term that is not positive: `-100`, `100`, `100`, `0`,
/// `100`, `100`.
pub const LOW_SPOTS: [u64; 6] = [0xC059_0000_0000_0000, HUNDRED, HUNDRED, ZERO, HUNDRED, HUNDRED];

/// Their strikes: `100`, `-100`, `100`, `100`, `0`, `100`.
pub const LOW_STRIKES: [u64; 6] = [HUNDRED, 0xC059_0000_0000_0000, HUNDRED, HUNDRED, ZERO, HUNDRED];

/// Their expiries: `1`, `1`, `-1`, `1`, `1`, `0`.
pub const LOW_EXPIRIES: [u64; 6] = [ONE, ONE, MINUS_ONE, ONE, ONE, ZERO];

/// Ratios of strike to forward of the combined options: `1e-3`, `1e3`.
pub const COMBINED_RATIOS: [u64; 2] = [0x3F50_624D_D2F1_A9FC, 0x408F_4000_0000_0000];

/// Their expiries: `1e-5`, `0.01`.
pub const COMBINED_EXPIRIES: [u64; 2] = [0x3EE4_F8B5_88E3_68F1, 0x3F84_7AE1_47AE_147B];

/// Their volatilities: `0.005`, `0.05`, `0.5`.
pub const COMBINED_SIGMAS: [u64; 3] = [
    0x3F74_7AE1_47AE_147B,
    0x3FA9_9999_9999_999A,
    0x3FE0_0000_0000_0000,
];

/// Spots of the sweep: `50`, `80`, `100`, `120`, `150`.
pub const SWEEP_SPOTS: [u64; 5] = [
    0x4049_0000_0000_0000,
    0x4054_0000_0000_0000,
    0x4059_0000_0000_0000,
    0x405E_0000_0000_0000,
    0x4062_C000_0000_0000,
];

/// Its ratios of strike to spot: `0.5`, `0.8`, `0.95`, `1`, `1.05`, `1.2`, `2`.
pub const SWEEP_RATIOS: [u64; 7] = [
    0x3FE0_0000_0000_0000,
    0x3FE9_9999_9999_999A,
    0x3FEE_6666_6666_6666,
    0x3FF0_0000_0000_0000,
    0x3FF0_CCCC_CCCC_CCCD,
    0x3FF3_3333_3333_3333,
    0x4000_0000_0000_0000,
];

/// Its expiries: `0.001`, `0.01`, `0.1`, `1`, `5`.
pub const SWEEP_EXPIRIES: [u64; 5] = [
    0x3F50_624D_D2F1_A9FC,
    0x3F84_7AE1_47AE_147B,
    0x3FB9_9999_9999_999A,
    0x3FF0_0000_0000_0000,
    0x4014_0000_0000_0000,
];

/// Its volatilities: `0.005`, `0.01`, `0.02`, `0.1`, `1`, `4`, `6`.
pub const SWEEP_SIGMAS: [u64; 7] = [
    0x3F74_7AE1_47AE_147B,
    0x3F84_7AE1_47AE_147B,
    0x3F94_7AE1_47AE_147B,
    0x3FB9_9999_9999_999A,
    0x3FF0_0000_0000_0000,
    0x4010_0000_0000_0000,
    0x4018_0000_0000_0000,
];

/// Premiums that are subnormal numbers.
pub open spec fn subnormal_planned(i: int) -> Plan {
    Plan {
        s: HUNDRED,
        strike: StrikeRule::Given(TWO_HUNDRED),
        t: ONE,
        r: ZERO,
        kind: KindRule::Given(OptionKind::Call),
        sigma: ZERO,
        price: PriceRule::Given(SUBNORMALS@[i]),
        regime: Regime::SubnormalPrice,
        expected: StatusRule::Given(ExpectedStatus::Either),
    }
}

fn subnormal_plan(i: usize) -> (r: Plan)
    requires
        i < 3,
    ensures
        r == subnormal_planned(i as int),
{
    Plan {
        s: HUNDRED,
        strike: StrikeRule::Given(TWO_HUNDRED),
        t: ONE,
        r: ZERO,
        kind: KindRule::Given(OptionKind::Call),
        sigma: ZERO,
        price: PriceRule::Given(SUBNORMALS[i]),
        regime: Regime::SubnormalPrice,
        expected: StatusRule::Given(ExpectedStatus::Either),
    }
}

/// Premiums just above the intrinsic value of a call.
pub open spec fn near_intrinsic_call_planned(i: int) -> Plan {
    Plan {
        s: HUNDRED_TEN,
        strike: StrikeRule::Given(HUNDRED),
        t: ONE,
        r: TWO_PERCENT,
        kind: KindRule::Given(OptionKind::Call),
        sigma: ZERO,
        price: PriceRule::AboveIntrinsic(OFFSETS@[i]),
        regime: Regime::NearIntrinsicCall,
        expected: if i == 0 {
            StatusRule::Given(ExpectedStatus::BelowIntrinsic)
        } else {
            StatusRule::Given(ExpectedStatus::Either)
        },
    }
}

fn near_intrinsic_call_plan(i: usize) -> (r: Plan)
    requires
        i < 5,
    ensures
        r == near_intrinsic_call_planned(i as int),
{
    Plan {
        s: HUNDRED_TEN,
        strike: StrikeRule::Given(HUNDRED),
        t: ONE,
        r: TWO_PERCENT,
        kind: KindRule::Given(OptionKind::Call),
        sigma: ZERO,
        price: PriceRule::AboveIntrinsic(OFFSETS[i]),
        regime: Regime::NearIntrinsicCall,
        expected: if i == 0 {
            StatusRule::Given(ExpectedStatus::BelowIntrinsic)
        } else {
            StatusRule::Given(ExpectedStatus::Either)
        },
    }
}

/// Premiums just above the intrinsic value of a put.
pub open spec fn near_intrinsic_put_planned(i: int) -> Plan {
    Plan {
        s: NINETY,
        strike: StrikeRule::Given(HUNDRED),
        t: ONE,
        r: TWO_PERCENT,
        kind: KindRule::Given(OptionKind::Put),
        sigma: ZERO,
        price: PriceRule::AboveIntrinsic(OFFSETS@[i]),
        regime: Regime::NearIntrinsicPut,
        expected: if i == 0 {
            StatusRule::Given(ExpectedStatus::BelowIntrinsic)
        } else {
            StatusRule::Given(ExpectedStatus::Either)
        },
    }
}

fn near_intrinsic_put_plan(i: usize) -> (r: Plan)
    requires
        i < 5,
    ensures
        r == near_intrinsic_put_planned(i as int),
{
    Plan {
        s: NINETY,
        strike: StrikeRule::Given(HUNDRED),
        t: ONE,
        r: TWO_PERCENT,
        kind: KindRule::Given(OptionKind::Put),
        sigma: ZERO,
        price: PriceRule::AboveIntrinsic(OFFSETS[i]),
        regime: Regime::NearIntrinsicPut,
        expected: if i == 0 {
            StatusRule::Given(ExpectedStatus::BelowIntrinsic)
        } else {
            StatusRule::Given(ExpectedStatus::Either)
        },
    }
}

/// Premiums just below what a call cannot reach.
pub open spec fn near_upper_planned(i: int) -> Plan {
    Plan {
        s: HUNDRED,
        strike: StrikeRule::Given(HUNDRED),
        t: ONE,
        r: ZERO,
        kind: KindRule::Given(OptionKind::Call),
        sigma: ZERO,
        price: PriceRule::BelowUpper(OFFSETS@[i]),
        regime: Regime::NearUpperCall,
        expected: if i == 0 {
            StatusRule::Given(ExpectedStatus::AboveMaximum)
        } else {
            StatusRule::Given(ExpectedStatus::Either)
        },
    }
}

fn near_upper_plan(i: usize) -> (r: Plan)
    requires
        i < 5,
    ensures
        r == near_upper_planned(i as int),
{
    Plan {
        s: HUNDRED,
        strike: StrikeRule::Given(HUNDRED),
        t: ONE,
        r: ZERO,
        kind: KindRule::Given(OptionKind::Call),
        sigma: ZERO,
        price: PriceRule::BelowUpper(OFFSETS[i]),
        regime: Regime::NearUpperCall,
        expected: if i == 0 {
            StatusRule::Given(ExpectedStatus::AboveMaximum)
        } else {
            StatusRule::Given(ExpectedStatus::Either)
        },
    }
}

/// Short expiries.
pub open spec fn short_planned(i: int) -> Plan {
    Plan {
        s: HUNDRED,
        strike: StrikeRule::Given(HUNDRED),
        t: SHORT_EXPIRIES@[i / 3],
        r: TWO_PERCENT,
        kind: KindRule::Given(OptionKind::Call),
        sigma: SHORT_SIGMAS@[i % 3],
        price: PriceRule::AtVol,
        regime: Regime::ShortT,
        expected: if i / 3 <= 1 {
            StatusRule::Given(ExpectedStatus::Either)
        } else {
            StatusRule::Given(ExpectedStatus::Computed)
        },
    }
}

fn short_plan(i: usize) -> (r: Plan)
    requires
        i < 15,
    ensures
        r == short_planned(i as int),
{
    Plan {
        s: HUNDRED,
        strike: StrikeRule::Given(HUNDRED),
        t: SHORT_EXPIRIES[i / 3],
        r: TWO_PERCENT,
        kind: KindRule::Given(OptionKind::Call),
        sigma: SHORT_SIGMAS[i % 3],
        price: PriceRule::AtVol,
        regime: Regime::ShortT,
        expected: if i / 3 <= 1 {
            StatusRule::Given(ExpectedStatus::Either)
        } else {
            StatusRule::Given(ExpectedStatus::Computed)
        },
    }
}

/// Volatilities at and around the ends of the reported range.
pub open spec fn bound_planned(i: int) -> Plan {
    Plan {
        s: HUNDRED,
        strike: StrikeRule::Given(BOUND_STRIKES@[i / 8]),
        t: BOUND_EXPIRIES@[i / 8],
        r: BOUND_RATES@[i / 8],
        kind: KindRule::Given(BOUND_KINDS@[i / 8]),
        sigma: BOUND_SIGMAS@[i % 8],
        price: PriceRule::AtVol,
        regime: BOUND_REGIMES@[i % 8],
        expected: StatusRule::Given(BOUND_EXPECTED@[i % 8]),
    }
}

fn bound_plan(i: usize) -> (r: Plan)
    requires
        i < 24,
    ensures
        r == bound_planned(i as int),
{
    Plan {
        s: HUNDRED,
        strike: StrikeRule::Given(BOUND_STRIKES[i / 8]),
        t: BOUND_EXPIRIES[i / 8],
        r: BOUND_RATES[i / 8],
        kind: KindRule::Given(BOUND_KINDS[i / 8]),
        sigma: BOUND_SIGMAS[i % 8],
        price: PriceRule::AtVol,
        regime: BOUND_REGIMES[i % 8],
        expected: StatusRule::Given(BOUND_EXPECTED[i % 8]),
    }
}

/// Extreme strikes.
pub open spec fn extreme_planned(i: int) -> Plan {
    Plan {
        s: HUNDRED,
        strike: StrikeRule::OfForward(EXTREME_RATIOS@[i / 3]),
        t: ONE,
        r: TWO_PERCENT,
        kind: KindRule::AboveForward,
        sigma: EXTREME_SIGMAS@[i % 3],
        price: PriceRule::AtVol,
        regime: Regime::ExtremeMoney,
        expected: StatusRule::Given(ExpectedStatus::Either),
    }
}

fn extreme_plan(i: usize) -> (r: Plan)
    requires
        i < 18,
    ensures
        r == extreme_planned(i as int),
{
    Plan {
        s: HUNDRED,
        strike: StrikeRule::OfForward(EXTREME_RATIOS[i / 3]),
        t: ONE,
        r: TWO_PERCENT,
        kind: KindRule::AboveForward,
        sigma: EXTREME_SIGMAS[i % 3],
        price: PriceRule::AtVol,
        regime: Regime::ExtremeMoney,
        expected: StatusRule::Given(ExpectedStatus::Either),
    }
}

/// Premiums at the intrinsic value.
pub open spec fn at_intrinsic_planned(i: int) -> Plan {
    Plan {
        s: INTRINSIC_SPOTS@[i],
        strike: StrikeRule::Given(HUNDRED),
        t: ONE,
        r: INTRINSIC_RATES@[i],
        kind: KindRule::Given(INTRINSIC_KINDS@[i]),
        sigma: ZERO,
        price: PriceRule::Intrinsic,
        regime: Regime::AtIntrinsic,
        expected: StatusRule::Given(ExpectedStatus::BelowIntrinsic),
    }
}

fn at_intrinsic_plan(i: usize) -> (r: Plan)
    requires
        i < 3,
    ensures
        r == at_intrinsic_planned(i as int),
{
    Plan {
        s: INTRINSIC_SPOTS[i],
        strike: StrikeRule::Given(HUNDRED),
        t: ONE,
        r: INTRINSIC_RATES[i],
        kind: KindRule::Given(INTRINSIC_KINDS[i]),
        sigma: ZERO,
        price: PriceRule::Intrinsic,
        regime: Regime::AtIntrinsic,
        expected: StatusRule::Given(ExpectedStatus::BelowIntrinsic),
    }
}

/// Premiums at what cannot be reached.
pub open spec fn at_maximum_planned(i: int) -> Plan {
    Plan {
        s: HUNDRED,
        strike: StrikeRule::Given(HUNDRED),
        t: ONE,
        r: TWO_PERCENT,
        kind: if i == 0 {
            KindRule::Given(OptionKind::Call)
        } else {
            KindRule::Given(OptionKind::Put)
        },
        sigma: ZERO,
        price: PriceRule::Upper,
        regime: Regime::AtMaximum,
        expected: StatusRule::Given(ExpectedStatus::AboveMaximum),
    }
}

fn at_maximum_plan(i: usize) -> (r: Plan)
    requires
        i < 2,
    ensures
        r == at_maximum_planned(i as int),
{
    Plan {
        s: HUNDRED,
        strike: StrikeRule::Given(HUNDRED),
        t: ONE,
        r: TWO_PERCENT,
        kind: if i == 0 {
            KindRule::Given(OptionKind::Call)
        } else {
            KindRule::Given(OptionKind::Put)
        },
        sigma: ZERO,
        price: PriceRule::Upper,
        regime: Regime::AtMaximum,
        expected: StatusRule::Given(ExpectedStatus::AboveMaximum),
    }
}

/// Terms that are not finite.
pub open spec fn odd_planned(i: int) -> Plan {
    Plan {
        s: ODD_SPOTS@[i],
        strike: StrikeRule::Given(ODD_STRIKES@[i]),
        t: ODD_EXPIRIES@[i],
        r: ODD_RATES@[i],
        kind: KindRule::Given(OptionKind::Call),
        sigma: ZERO,
        price: PriceRule::Given(ODD_PRICES@[i]),
        regime: Regime::NonFiniteInput,
        expected: StatusRule::Given(ExpectedStatus::NonFinite),
    }
}

fn odd_plan(i: usize) -> (r: Plan)
    requires
        i < 9,
    ensures
        r == odd_planned(i as int),
{
    Plan {
        s: ODD_SPOTS[i],
        strike: StrikeRule::Given(ODD_STRIKES[i]),
        t: ODD_EXPIRIES[i],
        r: ODD_RATES[i],
        kind: KindRule::Given(OptionKind::Call),
        sigma: ZERO,
        price: PriceRule::Given(ODD_PRICES[i]),
        regime: Regime::NonFiniteInput,
        expected: StatusRule::Given(ExpectedStatus::NonFinite),
    }
}

/// Terms that are not positive.
pub open spec fn low_planned(i: int) -> Plan {
    Plan {
        s: LOW_SPOTS@[i],
        strike: StrikeRule::Given(LOW_STRIKES@[i]),
        t: LOW_EXPIRIES@[i],
        r: TWO_PERCENT,
        kind: KindRule::Given(OptionKind::Call),
        sigma: ZERO,
        price: PriceRule::Given(TEN),
        regime: Regime::NegativeOrZeroInput,
        expected: StatusRule::Given(ExpectedStatus::NonFinite),
    }
}

fn low_plan(i: usize) -> (r: Plan)
    requires
        i < 6,
    ensures
        r == low_planned(i as int),
{
    Plan {
        s: LOW_SPOTS[i],
        strike: StrikeRule::Given(LOW_STRIKES[i]),
        t: LOW_EXPIRIES[i],
        r: TWO_PERCENT,
        kind: KindRule::Given(OptionKind::Call),
        sigma: ZERO,
        price: PriceRule::Given(TEN),
        regime: Regime::NegativeOrZeroInput,
        expected: StatusRule::Given(ExpectedStatus::NonFinite),
    }
}

/// Extreme strikes at short expiries.
pub open spec fn combined_planned(i: int) -> Plan {
    Plan {
        s: HUNDRED,
        strike: StrikeRule::OfForward(COMBINED_RATIOS@[i / 6]),
        t: COMBINED_EXPIRIES@[i / 3 % 2],
        r: ZERO,
        kind: KindRule::AboveForward,
        sigma: COMBINED_SIGMAS@[i % 3],
        price: PriceRule::AtVol,
        regime: Regime::CombinedExtreme,
        expected: StatusRule::Given(ExpectedStatus::Either),
    }
}

fn combined_plan(i: usize) -> (r: Plan)
    requires
        i < 12,
    ensures
        r == combined_planned(i as int),
{
    Plan {
        s: HUNDRED,
        strike: StrikeRule::OfForward(COMBINED_RATIOS[i / 6]),
        t: COMBINED_EXPIRIES[i / 3 % 2],
        r: ZERO,
        kind: KindRule::AboveForward,
        sigma: COMBINED_SIGMAS[i % 3],
        price: PriceRule::AtVol,
        regime: Regime::CombinedExtreme,
        expected: StatusRule::Given(ExpectedStatus::Either),
    }
}

/// A sweep over spots, strikes, expiries and volatilities.
pub open spec fn sweep_planned(i: int) -> Plan {
    Plan {
        s: SWEEP_SPOTS@[i / 245],
        strike: StrikeRule::OfSpot(SWEEP_RATIOS@[i / 35 % 7]),
        t: SWEEP_EXPIRIES@[i / 7 % 5],
        r: ZERO,
        kind: KindRule::FromSpot,
        sigma: SWEEP_SIGMAS@[i % 7],
        price: PriceRule::AtVol,
        regime: Regime::Sweep,
        expected: StatusRule::ByPrice,
    }
}

fn sweep_plan(i: usize) -> (r: Plan)
    requires
        i < 1225,
    ensures
        r == sweep_planned(i as int),
{
    Plan {
        s: SWEEP_SPOTS[i / 245],
        strike: StrikeRule::OfSpot(SWEEP_RATIOS[i / 35 % 7]),
        t: SWEEP_EXPIRIES[i / 7 % 5],
        r: ZERO,
        kind: KindRule::FromSpot,
        sigma: SWEEP_SIGMAS[i % 7],
        price: PriceRule::AtVol,
        regime: Regime::Sweep,
        expected: StatusRule::ByPrice,
    }
}

/// The same sweep on the other leg, which is in the money: rounding decides how much
/// of its time value is left beside the intrinsic value.
pub open spec fn mirror_planned(i: int) -> Plan {
    Plan {
        s: SWEEP_SPOTS@[i / 245],
        strike: StrikeRule::OfSpot(SWEEP_RATIOS@[i / 35 % 7]),
        t: SWEEP_EXPIRIES@[i / 7 % 5],
        r: ZERO,
        kind: KindRule::BelowSpot,
        sigma: SWEEP_SIGMAS@[i % 7],
        price: PriceRule::AtVol,
        regime: Regime::Sweep,
        expected: StatusRule::Given(ExpectedStatus::Either),
    }
}

fn mirror_plan(i: usize) -> (r: Plan)
    requires
        i < 1225,
    ensures
        r == mirror_planned(i as int),
{
    Plan {
        s: SWEEP_SPOTS[i / 245],
        strike: StrikeRule::OfSpot(SWEEP_RATIOS[i / 35 % 7]),
        t: SWEEP_EXPIRIES[i / 7 % 5],
        r: ZERO,
        kind: KindRule::BelowSpot,
        sigma: SWEEP_SIGMAS[i % 7],
        price: PriceRule::AtVol,
        regime: Regime::Sweep,
        expected: StatusRule::Given(ExpectedStatus::Either),
    }
}

/// Subnormal premiums over the spots, strikes and expiries of the sweep.
pub open spec fn faint_planned(i: int) -> Plan {
    Plan {
        s: SWEEP_SPOTS@[i / 105],
        strike: StrikeRule::OfSpot(SWEEP_RATIOS@[i / 15 % 7]),
        t: SWEEP_EXPIRIES@[i / 3 % 5],
        r: ZERO,
        kind: KindRule::FromSpot,
        sigma: ZERO,
        price: PriceRule::Given(SUBNORMALS@[i % 3]),
        regime: Regime::SubnormalPrice,
        expected: StatusRule::Given(ExpectedStatus::Either),
    }
}

fn faint_plan(i: usize) -> (r: Plan)
    requires
        i < 525,
    ensures
        r == faint_planned(i as int),
{
    Plan {
        s: SWEEP_SPOTS[i / 105],
        strike: StrikeRule::OfSpot(SWEEP_RATIOS[i / 15 % 7]),
        t: SWEEP_EXPIRIES[i / 3 % 5],
        r: ZERO,
        kind: KindRule::FromSpot,
        sigma: ZERO,
        price: PriceRule::Given(SUBNORMALS[i % 3]),
        regime: Regime::SubnormalPrice,
        expected: StatusRule::Given(ExpectedStatus::Either),
    }
}

/// The plan of row `i`.
pub open spec fn planned(i: int) -> Plan {
    if i < 3 {
        subnormal_planned(i)
    } else if i < 8 {
        near_intrinsic_call_planned(i - 3)
    } else if i < 13 {
        near_intrinsic_put_planned(i - 8)
    } else if i < 18 {
        near_upper_planned(i - 13)
    } else if i < 33 {
        short_planned(i - 18)
    } else if i < 57 {
        bound_planned(i - 33)
    } else if i < 75 {
        extreme_planned(i - 57)
    } else if i < 78 {
        at_intrinsic_planned(i - 75)
    } else if i < 80 {
        at_maximum_planned(i - 78)
    } else if i < 89 {
        odd_planned(i - 80)
    } else if i < 95 {
        low_planned(i - 89)
    } else if i < 107 {
        combined_planned(i - 95)
    } else if i < 1332 {
        sweep_planned(i - 107)
    } else if i < 2557 {
        mirror_planned(i - 1332)
    } else {
        faint_planned(i - 2557)
    }
}

/// The plan of row `i`.
pub fn plan(i: usize) -> (r: Plan)
    requires
        i < GRID_ROWS,
    ensures
        r == planned(i as int),
{
    if i < 3 {
        subnormal_plan(i)
    } else if i < 8 {
        near_intrinsic_call_plan(i - 3)
    } else if i < 13 {
        near_intrinsic_put_plan(i - 8)
    } else if i < 18 {
        near_upper_plan(i - 13)
    } else if i < 33 {
        short_plan(i - 18)
    } else if i < 57 {
        bound_plan(i - 33)
    } else if i < 75 {
        extreme_plan(i - 57)
    } else if i < 78 {
        at_intrinsic_plan(i - 75)
    } else if i < 80 {
        at_maximum_plan(i - 78)
    } else if i < 89 {
        odd_plan(i - 80)
    } else if i < 95 {
        low_plan(i - 89)
    } else if i < 107 {
        combined_plan(i - 95)
    } else if i < 1332 {
        sweep_plan(i - 107)
    } else if i < 2557 {
        mirror_plan(i - 1332)
    } else {
        faint_plan(i - 2557)
    }
}

} // verus!
