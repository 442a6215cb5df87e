//! The adversarial grid: rows built to reach every status of the typed solver.
//!
//! A plan says of each row how its strike, kind, premium and expected status
//! come about; here the rules are carried out.
use crate::arith::{diff, exp_of, prod, steady, sum, Arith};
use crate::constants::ZERO;
use crate::direct::{
    bs_price_vega, cap_price, carry, carry_of, intrinsic, lower_bound, priced_of, upper_bound,
    Carry, VOL_MAX, VOL_MIN,
};
use crate::double::{
    law_order_is_encoding_order, lemma_pow2_two_words, lemma_rounds, num, rounds, units, Double,
    HIDDEN,
};
use crate::kind::OptionKind;
use crate::lanes::Quote;
use crate::neighbour::{down, ulp_at, ulp_of, up};
use crate::plan::{
    plan, planned, ExpectedStatus, KindRule, Plan, PriceRule, Regime, StatusRule, StrikeRule,
    GRID_ROWS, HALF_VOL_MIN, THREE_HALVES_VOL_MAX, VOL_MAX_DOWN, VOL_MAX_UP, VOL_MIN_DOWN,
    VOL_MIN_UP,
};
use crate::typed::{rejection, ImpliedVolStatus};
use vstd::arithmetic::power2::{lemma2_to64, lemma2_to64_rest, lemma_pow2_unfold, pow2};
use vstd::prelude::*;

verus! {

/// `1e-13`: a sweep row with a larger premium should be solved.
pub const SOLVABLE_ABOVE: u64 = 0x3D3C_25C2_6849_7682;

/// A row of the grid.
#[derive(Clone, Copy, Debug, PartialEq, Eq, Structural)]
pub struct Row {
    pub s: Double,
    pub k: Double,
    pub t: Double,
    pub r: Double,
    pub p: Double,
    pub kind: OptionKind,
    /// The volatility behind the premium, or zero where there is none.
    pub sigma_true: Double,
    pub regime: Regime,
    pub expected: ExpectedStatus,
}

/// A call on the one side, a put on the other.
pub open spec fn side(call: bool) -> OptionKind {
    if call {
        OptionKind::Call
    } else {
        OptionKind::Put
    }
}

/// A call on the one side, a put on the other.
pub fn kind_on(call: bool) -> (r: OptionKind)
    ensures
        r == side(call),
{
    if call {
        OptionKind::Call
    } else {
        OptionKind::Put
    }
}

/// The option of a row, with the premium or volatility `last`.
pub open spec fn row_quote(row: Row, last: Double) -> Quote {
    Quote { spot: row.s, strike: row.k, tte: row.t, rate: row.r, price: last, is_call: row.kind is Call }
}

/// The forward of a spot.
pub open spec fn forward_of<K: Arith>(k: K, s: Double, t: Double, r: Double) -> Double {
    prod(k, s, exp_of(k, prod(k, r, t)))
}

/// The strike that a plan leads to.
pub open spec fn strike_of<K: Arith>(k: K, p: Plan) -> Double {
    match p.strike {
        StrikeRule::Given(bits) => num(bits),
        StrikeRule::OfForward(ratio) => prod(
            k,
            num(ratio),
            forward_of(k, num(p.s), num(p.t), num(p.r)),
        ),
        StrikeRule::OfSpot(ratio) => prod(k, num(p.s), num(ratio)),
    }
}

/// The kind that a plan leads to, at a strike.
pub open spec fn kind_of<K: Arith>(k: K, p: Plan, strike: Double) -> OptionKind {
    match p.kind {
        KindRule::Given(kind) => kind,
        KindRule::AboveForward => side(
            forward_of(k, num(p.s), num(p.t), num(p.r)).below(strike),
        ),
        KindRule::FromSpot => side(num(p.s).at_most(strike)),
        KindRule::BelowSpot => side(strike.below(num(p.s))),
    }
}

/// The premium that a plan leads to, for an option.
pub open spec fn price_of<K: Arith>(k: K, p: Plan, q: Quote) -> Double {
    let low = lower_bound(q, carry_of(k, q));
    let high = upper_bound(q, carry_of(k, q));
    match p.price {
        PriceRule::Given(bits) => num(bits),
        PriceRule::AtVol => priced_of(k, q, num(p.sigma)).price,
        PriceRule::Intrinsic => low,
        PriceRule::Upper => high,
        PriceRule::AboveIntrinsic(count) => sum(k, low, prod(k, num(count), ulp_of(low))),
        PriceRule::BelowUpper(count) => diff(k, high, prod(k, num(count), ulp_of(high))),
    }
}

/// A row of the sweep should be solved: its volatility is in the reported range
/// and its premium is not lost in the noise.
pub open spec fn solvable(sigma: Double, p: Double) -> bool {
    &&& !sigma.below(num(VOL_MIN))
    &&& !num(VOL_MAX).below(sigma)
    &&& p.finite()
    &&& num(SOLVABLE_ABOVE).below(p)
}

/// The status that is expected of a row with this premium.
pub open spec fn expected_of(p: Plan, price: Double) -> ExpectedStatus {
    match p.expected {
        StatusRule::Given(status) => status,
        StatusRule::ByPrice => if solvable(num(p.sigma), price) {
            ExpectedStatus::Computed
        } else {
            ExpectedStatus::Either
        },
    }
}

/// The option of a plan, with nothing for a premium yet.
pub open spec fn plan_quote<K: Arith>(k: K, p: Plan) -> Quote {
    let strike = strike_of(k, p);
    Quote {
        spot: num(p.s),
        strike,
        tte: num(p.t),
        rate: num(p.r),
        price: num(ZERO),
        is_call: kind_of(k, p, strike) is Call,
    }
}

/// The row that a plan leads to.
pub open spec fn row_of<K: Arith>(k: K, p: Plan) -> Row {
    let strike = strike_of(k, p);
    let price = price_of(k, p, plan_quote(k, p));
    Row {
        s: num(p.s),
        k: strike,
        t: num(p.t),
        r: num(p.r),
        p: price,
        kind: kind_of(k, p, strike),
        sigma_true: num(p.sigma),
        regime: p.regime,
        expected: expected_of(p, price),
    }
}

/// The row may be what the plan leads to.
pub open spec fn realised<K: Arith>(k: K, p: Plan, row: Row) -> bool {
    &&& row.s == num(p.s) && row.t == num(p.t) && row.r == num(p.r)
    &&& row.sigma_true == num(p.sigma) && row.regime == p.regime
    &&& p.strike matches StrikeRule::Given(bits) ==> row.k == num(bits)
    &&& p.price matches PriceRule::Given(bits) ==> row.p == num(bits)
    &&& row.expected == expected_of(p, row.p)
    &&& steady(k) ==> row == row_of(k, p)
}

/// Whether a row of the sweep should be solved.
fn is_solvable(sigma: Double, p: Double) -> (r: bool)
    ensures
        r == solvable(sigma, p),
{
    !sigma.lt(num(VOL_MIN)) && !sigma.gt(num(VOL_MAX)) && p.is_finite() && p.gt(
        num(SOLVABLE_ABOVE),
    )
}

/// Works a row out.
pub fn realise<K: Arith>(k: &K, p: &Plan) -> (row: Row)
    ensures
        realised(*k, *p, row),
{
    let s = num(p.s);
    let t = num(p.t);
    let r = num(p.r);
    let sigma = num(p.sigma);
    let forward = k.times(s, k.exp(k.times(r, t)));
    let strike = match p.strike {
        StrikeRule::Given(bits) => num(bits),
        StrikeRule::OfForward(ratio) => k.times(num(ratio), forward),
        StrikeRule::OfSpot(ratio) => k.times(s, num(ratio)),
    };
    let kind = match p.kind {
        KindRule::Given(kind) => kind,
        KindRule::AboveForward => kind_on(strike.gt(forward)),
        KindRule::FromSpot => kind_on(strike.ge(s)),
        KindRule::BelowSpot => kind_on(strike.lt(s)),
    };
    let q = Quote { spot: s, strike, tte: t, rate: r, price: num(ZERO), is_call: kind.is_call() };
    let c = carry(k, &q);
    let low = intrinsic(&q, &c);
    let high = cap_price(&q, &c);
    let price = match p.price {
        PriceRule::Given(bits) => num(bits),
        PriceRule::AtVol => bs_price_vega(k, &q, sigma).price,
        PriceRule::Intrinsic => low,
        PriceRule::Upper => high,
        PriceRule::AboveIntrinsic(count) => k.plus(low, k.times(num(count), ulp_at(low))),
        PriceRule::BelowUpper(count) => k.minus(high, k.times(num(count), ulp_at(high))),
    };
    let expected = match p.expected {
        StatusRule::Given(status) => status,
        StatusRule::ByPrice => if is_solvable(sigma, price) {
            ExpectedStatus::Computed
        } else {
            ExpectedStatus::Either
        },
    };
    assert(steady(*k) ==> q == plan_quote(*k, *p));
    Row { s, k: strike, t, r, p: price, kind, sigma_true: sigma, regime: p.regime, expected }
}

/// Builds the grid: row `i` is what plan `i` leads to.
pub fn build_grid<K: Arith>(k: &K) -> (rows: Vec<Row>)
    ensures
        rows@.len() == GRID_ROWS,
        forall|i: int| 0 <= i < rows@.len() ==> realised(*k, planned(i), #[trigger] rows@[i]),
{
    let mut rows: Vec<Row> = Vec::new();
    let mut i: usize = 0;
    while i < GRID_ROWS
        invariant
            i <= GRID_ROWS,
            rows@.len() == i,
            forall|j: int| 0 <= j < i ==> realised(*k, planned(j), #[trigger] rows@[j]),
        decreases GRID_ROWS - i,
    {
        let p = plan(i);
        rows.push(realise(k, &p));
        i += 1;
    }
    rows
}

/// The name of an expected status.
pub open spec fn expected_name(status: ExpectedStatus) -> Seq<char> {
    match status {
        ExpectedStatus::Computed => "Computed"@,
        ExpectedStatus::BelowVolMin => "BelowVolMin"@,
        ExpectedStatus::AboveVolMax => "AboveVolMax"@,
        ExpectedStatus::BelowIntrinsic => "BelowIntrinsic"@,
        ExpectedStatus::AboveMaximum => "AboveMaximum"@,
        ExpectedStatus::NonFinite => "NonFinite"@,
        ExpectedStatus::FailedToConverge => "FailedToConverge"@,
        ExpectedStatus::Either => "Either"@,
    }
}

/// The name of an expected status.
pub fn expected_label(status: ExpectedStatus) -> (r: &'static str)
    ensures
        r@ == expected_name(status),
{
    match status {
        ExpectedStatus::Computed => "Computed",
        ExpectedStatus::BelowVolMin => "BelowVolMin",
        ExpectedStatus::AboveVolMax => "AboveVolMax",
        ExpectedStatus::BelowIntrinsic => "BelowIntrinsic",
        ExpectedStatus::AboveMaximum => "AboveMaximum",
        ExpectedStatus::NonFinite => "NonFinite",
        ExpectedStatus::FailedToConverge => "FailedToConverge",
        ExpectedStatus::Either => "Either",
    }
}

/// The name of what a row exercises.
pub open spec fn regime_name(regime: Regime) -> Seq<char> {
    match regime {
        Regime::SubnormalPrice => "SUBNORMAL_PRICE"@,
        Regime::NearIntrinsicCall => "NEAR_INTRINSIC_CALL"@,
        Regime::NearIntrinsicPut => "NEAR_INTRINSIC_PUT"@,
        Regime::NearUpperCall => "NEAR_UPPER_CALL"@,
        Regime::ShortT => "SHORT_T"@,
        Regime::SigmaAtVolMin => "SIGMA_AT_VOL_MIN"@,
        Regime::SigmaBelowVolMin => "SIGMA_BELOW_VOL_MIN_1ULP"@,
        Regime::SigmaAboveVolMin => "SIGMA_ABOVE_VOL_MIN_1ULP"@,
        Regime::SigmaAtVolMax => "SIGMA_AT_VOL_MAX"@,
        Regime::SigmaBelowVolMax => "SIGMA_BELOW_VOL_MAX_1ULP"@,
        Regime::SigmaAboveVolMax => "SIGMA_ABOVE_VOL_MAX_1ULP"@,
        Regime::SigmaHalfVolMin => "SIGMA_HALF_VOL_MIN"@,
        Regime::SigmaThreeHalvesVolMax => "SIGMA_3_HALF_VOL_MAX"@,
        Regime::ExtremeMoney => "EXTREME_MONEY"@,
        Regime::AtIntrinsic => "AT_INTRINSIC"@,
        Regime::AtMaximum => "AT_MAXIMUM"@,
        Regime::NonFiniteInput => "NONFINITE_INPUT"@,
        Regime::NegativeOrZeroInput => "NEGATIVE_OR_ZERO_INPUT"@,
        Regime::CombinedExtreme => "COMBINED_EXTREME"@,
        Regime::Sweep => "PARAMETRIZED_SWEEP"@,
    }
}

/// The name of what a row exercises.
pub fn regime_label(regime: Regime) -> (r: &'static str)
    ensures
        r@ == regime_name(regime),
{
    match regime {
        Regime::SubnormalPrice => "SUBNORMAL_PRICE",
        Regime::NearIntrinsicCall => "NEAR_INTRINSIC_CALL",
        Regime::NearIntrinsicPut => "NEAR_INTRINSIC_PUT",
        Regime::NearUpperCall => "NEAR_UPPER_CALL",
        Regime::ShortT => "SHORT_T",
        Regime::SigmaAtVolMin => "SIGMA_AT_VOL_MIN",
        Regime::SigmaBelowVolMin => "SIGMA_BELOW_VOL_MIN_1ULP",
        Regime::SigmaAboveVolMin => "SIGMA_ABOVE_VOL_MIN_1ULP",
        Regime::SigmaAtVolMax => "SIGMA_AT_VOL_MAX",
        Regime::SigmaBelowVolMax => "SIGMA_BELOW_VOL_MAX_1ULP",
        Regime::SigmaAboveVolMax => "SIGMA_ABOVE_VOL_MAX_1ULP",
        Regime::SigmaHalfVolMin => "SIGMA_HALF_VOL_MIN",
        Regime::SigmaThreeHalvesVolMax => "SIGMA_3_HALF_VOL_MAX",
        Regime::ExtremeMoney => "EXTREME_MONEY",
        Regime::AtIntrinsic => "AT_INTRINSIC",
        Regime::AtMaximum => "AT_MAXIMUM",
        Regime::NonFiniteInput => "NONFINITE_INPUT",
        Regime::NegativeOrZeroInput => "NEGATIVE_OR_ZERO_INPUT",
        Regime::CombinedExtreme => "COMBINED_EXTREME",
        Regime::Sweep => "PARAMETRIZED_SWEEP",
    }
}

/// The name of a status.
pub open spec fn status_name(s: ImpliedVolStatus) -> Seq<char> {
    match s {
        ImpliedVolStatus::Computed => "Computed"@,
        ImpliedVolStatus::BelowVolMin { .. } => "BelowVolMin"@,
        ImpliedVolStatus::AboveVolMax { .. } => "AboveVolMax"@,
        ImpliedVolStatus::BelowIntrinsic => "BelowIntrinsic"@,
        ImpliedVolStatus::AboveMaximum => "AboveMaximum"@,
        ImpliedVolStatus::NonFinite => "NonFinite"@,
        ImpliedVolStatus::FailedToConverge => "FailedToConverge"@,
    }
}

/// The name of a status.
pub fn status_label(s: ImpliedVolStatus) -> (r: &'static str)
    ensures
        r@ == status_name(s),
{
    match s {
        ImpliedVolStatus::Computed => "Computed",
        ImpliedVolStatus::BelowVolMin { .. } => "BelowVolMin",
        ImpliedVolStatus::AboveVolMax { .. } => "AboveVolMax",
        ImpliedVolStatus::BelowIntrinsic => "BelowIntrinsic",
        ImpliedVolStatus::AboveMaximum => "AboveMaximum",
        ImpliedVolStatus::NonFinite => "NonFinite",
        ImpliedVolStatus::FailedToConverge => "FailedToConverge",
    }
}

/// The root that a status carries.
pub open spec fn root_of(s: ImpliedVolStatus) -> Option<Double> {
    match s {
        ImpliedVolStatus::BelowVolMin { computed } => Some(computed),
        ImpliedVolStatus::AboveVolMax { computed } => Some(computed),
        _ => None,
    }
}

/// The root that a status carries.
pub fn status_computed(s: ImpliedVolStatus) -> (r: Option<Double>)
    ensures
        r == root_of(s),
{
    match s {
        ImpliedVolStatus::BelowVolMin { computed } => Some(computed),
        ImpliedVolStatus::AboveVolMax { computed } => Some(computed),
        _ => None,
    }
}

/// A row that should be refused for its terms is: the typed solver finds a term
/// that is not finite, or a spot, strike or expiry that is not positive.
pub proof fn law_planned_refusals_hold<K: Arith>(k: K, i: int, row: Row, c: Carry)
    requires
        0 <= i < GRID_ROWS,
        realised(k, planned(i), row),
        row.expected is NonFinite,
    ensures
        rejection(row_quote(row, row.p), c) == Some(ImpliedVolStatus::NonFinite),
{
    let zero = num(ZERO);
    law_order_is_encoding_order(zero, row.s);
    law_order_is_encoding_order(zero, row.k);
    law_order_is_encoding_order(zero, row.t);
    if i < 80 {
        lemma_early_plans(i);
    } else if 95 <= i {
        lemma_late_plans(i);
    }
}

/// The first rows are not expected to be refused for their terms.
proof fn lemma_early_plans(i: int)
    requires
        0 <= i < 80,
    ensures
        planned(i).expected != StatusRule::Given(ExpectedStatus::NonFinite),
{
}

/// Nor are the last rows.
proof fn lemma_late_plans(i: int)
    requires
        95 <= i < GRID_ROWS,
    ensures
        planned(i).expected != StatusRule::Given(ExpectedStatus::NonFinite),
{
}

/// The volatilities around the ends of the reported range are the neighbours of
/// the ends, half the lower end, and one and a half times the upper end.
pub proof fn law_planned_volatilities(low: Double, high: Double)
    requires
        low.bits == VOL_MIN,
        high.bits == VOL_MAX,
    ensures
        down(low) == VOL_MIN_DOWN,
        up(low) == VOL_MIN_UP,
        down(high) == VOL_MAX_DOWN,
        up(high) == VOL_MAX_UP,
        2 * units(HALF_VOL_MIN as int) == low.value(),
        2 * units(THREE_HALVES_VOL_MAX as int) == 3 * high.value(),
{
    reveal(units);
    let h = HIDDEN as int;
    assert(HALF_VOL_MIN as int / h == 0x3F7 && VOL_MIN as int / h == 0x3F8);
    assert(HALF_VOL_MIN as int % h == VOL_MIN as int % h);
    assert(VOL_MAX as int / h == 0x401 && THREE_HALVES_VOL_MAX as int / h == 0x401);
    lemma_pow2_unfold(0x3F7);
    let a = pow2(0x3F6) as int;
    let f = h + HALF_VOL_MIN as int % h;
    assert(2 * (f * a) == f * (2 * a)) by (nonlinear_arith);
    let b = pow2(0x400) as int;
    let m = h + VOL_MAX as int % h;
    let n = h + THREE_HALVES_VOL_MAX as int % h;
    assert(2 * n == 3 * m);
    assert(2 * (n * b) == 3 * (m * b)) by (nonlinear_arith)
        requires
            2 * n == 3 * m,
    ;
}

/// How a row comes about from its plan: a strike that is given, or a multiple of
/// the forward, which is the spot grown at the rate over the expiry, or of the
/// spot; a kind by the side of the forward or of the spot that the strike is on;
/// and a premium that is given, or the price at the volatility, or a bound, or so
/// many units in the last place off a bound.
pub proof fn law_rows_follow_their_plans<K: Arith>(k: K, p: Plan)
    ensures
        ({
            let row = row_of(k, p);
            let forward = prod(k, num(p.s), exp_of(k, prod(k, num(p.r), num(p.t))));
            let q = plan_quote(k, p);
            let low = lower_bound(q, carry_of(k, q));
            let high = upper_bound(q, carry_of(k, q));
            &&& match p.strike {
                StrikeRule::Given(bits) => row.k == num(bits),
                StrikeRule::OfForward(ratio) => row.k == prod(k, num(ratio), forward),
                StrikeRule::OfSpot(ratio) => row.k == prod(k, num(p.s), num(ratio)),
            }
            &&& match p.kind {
                KindRule::Given(kind) => row.kind == kind,
                KindRule::AboveForward => (row.kind is Call <==> forward.below(row.k)),
                KindRule::FromSpot => (row.kind is Call <==> num(p.s).at_most(row.k)),
                KindRule::BelowSpot => (row.kind is Call <==> row.k.below(num(p.s))),
            }
            &&& q.spot == row.s && q.strike == row.k && q.tte == row.t && q.rate == row.r
            &&& q.is_call == (row.kind is Call)
            &&& match p.price {
                PriceRule::Given(bits) => row.p == num(bits),
                PriceRule::AtVol => row.p == priced_of(k, q, row.sigma_true).price,
                PriceRule::Intrinsic => row.p == low,
                PriceRule::Upper => row.p == high,
                PriceRule::AboveIntrinsic(n) => row.p == sum(
                    k,
                    low,
                    prod(k, num(n), ulp_of(low)),
                ),
                PriceRule::BelowUpper(n) => row.p == diff(
                    k,
                    high,
                    prod(k, num(n), ulp_of(high)),
                ),
            }
        }),
{
}

/// A row of the sweep should be computed exactly when its volatility is not
/// outside the reported range and its premium is finite and above `1e-13`.
pub proof fn law_expectation_of_the_sweep(p: Plan, price: Double)
    requires
        p.expected is ByPrice,
    ensures
        expected_of(p, price) is Computed <==> {
            &&& !num(p.sigma).below(num(VOL_MIN)) && !num(VOL_MAX).below(num(p.sigma))
            &&& price.finite() && num(SOLVABLE_ABOVE).below(price)
        },
        !(expected_of(p, price) is Computed) ==> expected_of(p, price) is Either,
{
}

/// A row of the sweep counts as solvable above `1e-13`.
pub proof fn law_solvable_threshold()
    ensures
        rounds(num(SOLVABLE_ABOVE), 1, 10000000000000),
{
    lemma2_to64();
    lemma2_to64_rest();
    lemma_pow2_two_words(32);
    lemma_rounds(num(SOLVABLE_ABOVE), 979, 7922816251426434, 79228162514264337593543950336int, 1, 10000000000000);
}

} // verus!
