//! The two regular grids, near the money and volatility against delta, and a
//! strip of calls along a smile.
//!
//! A grid is a list of candidates, each an option at a volatility. A candidate
//! is priced, and kept where its premium is finite and above a floor.
use crate::adversarial::{kind_on, side};
use crate::arith::{diff, exp_of, ln_of, prod, quot, sqrt_of, steady, sum, Arith};
use crate::constants::{HALF, ONE, ZERO};
use crate::direct::{bs_price_vega, priced_of};
use crate::double::{
    count_of, equals, flipped, from_count, lemma_pow2_two_words, lemma_rounds, num, rounds,
    unsigned, Double,
};
use crate::kind::OptionKind;
use crate::lanes::Quote;
use crate::norm::{horner, polynomial};
use crate::otm_context::{in_wing, uses_wing};
use crate::schadner::{call_equivalent, call_equivalent_of, norm_factor, norm_factor_of};
use vstd::arithmetic::power2::{lemma2_to64, lemma2_to64_rest};
use vstd::prelude::*;

verus! {

/// `100.0`, the spot of the near-money grid.
pub const ATM_SPOT: u64 = 0x4059_0000_0000_0000;

/// `0.03`, its rate.
pub const ATM_RATE: u64 = 0x3F9E_B851_EB85_1EB8;

/// `85.0`, its least strike.
pub const ATM_K_LO: u64 = 0x4055_4000_0000_0000;

/// `115.0`, its largest strike.
pub const ATM_K_HI: u64 = 0x405C_C000_0000_0000;

/// `0.01`, its shortest expiry.
pub const ATM_T_LO: u64 = 0x3F84_7AE1_47AE_147B;

/// `2.0`, its longest expiry.
pub const ATM_T_HI: u64 = 0x4000_0000_0000_0000;

/// `0.01`, its least volatility.
pub const ATM_SIG_LO: u64 = 0x3F84_7AE1_47AE_147B;

/// `0.99`, its largest volatility.
pub const ATM_SIG_HI: u64 = 0x3FEF_AE14_7AE1_47AE;

/// Strikes of the near-money grid.
pub const ATM_N_K: usize = 31;

/// Expiries of the near-money grid.
pub const ATM_N_T: usize = 40;

/// Volatilities of the near-money grid.
pub const ATM_N_SIG: usize = 40;

/// Options of the near-money grid at one strike.
pub const ATM_PER_STRIKE: usize = 1600;

/// Options of the near-money grid before any is dropped.
pub const ATM_ROWS: usize = 49_600;

/// `1e-20`, the premium that a row of the near-money grid must exceed.
pub const ATM_FLOOR: u64 = 0x3BC7_9CA1_0C92_4223;

/// `0.01`, where the volatilities of the wing grid start.
pub const WING_V_LO: u64 = 0x3F84_7AE1_47AE_147B;

/// `0.05`, their step.
pub const WING_V_STEP: u64 = 0x3FA9_9999_9999_999A;

/// `2.0`, the largest volatility of the wing grid.
pub const WING_V_HI: u64 = 0x4000_0000_0000_0000;

/// Volatilities of the wing grid.
pub const WING_N_V: usize = 41;

/// Deltas of the wing grid.
pub const WING_N_D: usize = 13;

/// The deltas of the wing grid: `0.01`, `0.05`, from `0.1` to `0.9` by tenths,
/// `0.95`, `0.99`.
pub const WING_DELTAS: [u64; 13] = [
    0x3F84_7AE1_47AE_147B,
    0x3FA9_9999_9999_999A,
    0x3FB9_9999_9999_999A,
    0x3FC9_9999_9999_999A,
    0x3FD3_3333_3333_3333,
    0x3FD9_9999_9999_999A,
    0x3FE0_0000_0000_0000,
    0x3FE3_3333_3333_3333,
    0x3FE6_6666_6666_6666,
    0x3FE9_9999_9999_999A,
    0x3FEC_CCCC_CCCC_CCCD,
    0x3FEE_6666_6666_6666,
    0x3FEF_AE14_7AE1_47AE,
];

/// `1e-15`, the premium that a row of the wing grid must exceed.
pub const WING_FLOOR: u64 = 0x3CD2_03AF_9EE7_5616;

/// `0.425`, how far from a half the central arm of the abscissa reaches.
pub const ABSCISSA_CENTRE: u64 = 0x3FDB_3333_3333_3333;

/// Central arm of the abscissa, polynomial part, highest power first.
pub const ABSCISSA_A: [u64; 5] = [
    0xC043_D931_BC1E_0525,
    0x406B_9E46_7034_039B,
    0xC071_3EDB_2DC5_3B99,
    0x4061_4B72_B40B_401B,
    0xC03E_AA30_34C0_8BCD,
];

/// Central arm of the abscissa, numerator of the fraction.
pub const ABSCISSA_TOP: u64 = 0x4004_0D93_2057_5479;

/// Central arm of the abscissa, denominator of the fraction, highest power
/// first.
pub const ABSCISSA_B: [u64; 6] = [
    0xC04B_3CF0_CE30_04C4,
    0x4064_32BF_2CF0_4277,
    0xC063_765E_0B02_D8D2,
    0x4050_B348_B1A7_E9BE,
    0xC02A_8FB5_7E14_7826,
    0x3FF0_0000_0000_0000,
];

/// Tail arm of the abscissa, numerator, highest power first.
pub const ABSCISSA_C: [u64; 6] = [
    0x4007_815C_1E3F_CFA2,
    0x4011_7FA7_F4EA_4DC7,
    0xC004_65DA_2C70_3A1A,
    0xC003_34C0_C170_1758,
    0xBFD4_A224_C0E8_81B8,
    0xBF7F_E30D_924A_CFE0,
];

/// Tail arm of the abscissa, denominator, highest power first.
pub const ABSCISSA_D: [u64; 5] = [
    0x400E_0907_6895_B119,
    0x4003_8FA2_7C8A_E616,
    0x3FD4_A34D_2B59_0364,
    0x3F7F_E2D8_57AC_9FD4,
    0x3FF0_0000_0000_0000,
];

/// `0.04`, the rate of the smile.
pub const SMILE_RATE: u64 = 0x3FA4_7AE1_47AE_147B;

/// Strikes of the smile.
pub const SMILE_N_K: usize = 13;

/// The least strike of the smile.
pub const SMILE_K_LO: u64 = 70;

/// The step between its strikes.
pub const SMILE_K_STEP: u64 = 5;

/// `30.0`, the days to its expiry.
pub const SMILE_DAYS: u64 = 0x403E_0000_0000_0000;

/// `365.0`, the days of a year.
pub const YEAR_DAYS: u64 = 0x4076_D000_0000_0000;

/// `0.2`, the volatility of the smile at the spot.
pub const SMILE_LEVEL: u64 = 0x3FC9_9999_9999_999A;

/// `0.3`, its curvature.
pub const SMILE_CURVE: u64 = 0x3FD3_3333_3333_3333;

/// `0.1`, its downward slope.
pub const SMILE_SLOPE: u64 = 0x3FB9_9999_9999_999A;

/// Number `i` from `a` on, in steps of `step`.
pub open spec fn along_of<K: Arith>(k: K, a: Double, step: Double, i: int) -> Double {
    sum(k, a, prod(k, step, count_of(i)))
}

/// `n` numbers from `a` to `b`, evenly spaced; one number is `a`.
pub open spec fn linspace_of<K: Arith>(k: K, a: Double, b: Double, n: nat) -> Seq<Double> {
    let step = quot(k, diff(k, b, a), diff(k, count_of(n as int), num(ONE)));
    Seq::new(
        n,
        |i: int|
            if n == 1 {
                a
            } else {
                along_of(k, a, step, i)
            },
    )
}

/// `n` numbers from `a` to `b`, evenly spaced.
pub fn linspace<K: Arith>(k: &K, a: Double, b: Double, n: usize) -> (out: Vec<Double>)
    requires
        n < 0x0020_0000_0000_0000,
    ensures
        out@.len() == n,
        n == 1 ==> out@[0] == a,
        steady(*k) ==> out@ == linspace_of(*k, a, b, n as nat),
{
    let mut out: Vec<Double> = Vec::new();
    if n == 1 {
        out.push(a);
        assert(steady(*k) ==> out@ =~= linspace_of(*k, a, b, n as nat));
        return out;
    }
    let step = k.over(k.minus(b, a), k.minus(from_count(n as u64), num(ONE)));
    let mut i: usize = 0;
    while i < n
        invariant
            i <= n < 0x0020_0000_0000_0000,
            out@.len() == i,
            steady(*k) ==> forall|j: int|
                0 <= j < i ==> #[trigger] out@[j] == along_of(*k, a, step, j),
        decreases n - i,
    {
        out.push(k.plus(a, k.times(step, from_count(i as u64))));
        i += 1;
    }
    assert(steady(*k) ==> out@ =~= linspace_of(*k, a, b, n as nat));
    out
}

/// An option at a volatility.
#[derive(Clone, Copy, Debug, PartialEq, Eq, Structural)]
pub struct Candidate {
    pub spot: Double,
    pub strike: Double,
    pub tte: Double,
    pub rate: Double,
    pub sigma: Double,
    pub kind: OptionKind,
}

/// A row of a grid: a candidate and its premium.
#[derive(Clone, Copy, Debug, PartialEq, Eq, Structural)]
pub struct GridRow {
    pub option: Candidate,
    pub price: Double,
}

/// The candidate, to be priced.
pub open spec fn candidate_quote(c: Candidate) -> Quote {
    Quote {
        spot: c.spot,
        strike: c.strike,
        tte: c.tte,
        rate: c.rate,
        price: c.sigma,
        is_call: c.kind is Call,
    }
}

/// The premium of a candidate.
pub open spec fn candidate_price<K: Arith>(k: K, c: Candidate) -> Double {
    priced_of(k, candidate_quote(c), c.sigma).price
}

/// The premium is finite and exceeds the floor.
pub open spec fn stands_out(price: Double, floor: Double) -> bool {
    price.finite() && floor.below(price)
}

/// The candidates that are kept, in order, at their premiums.
pub open spec fn kept_of<K: Arith>(k: K, candidates: Seq<Candidate>, floor: Double) -> Seq<GridRow>
    decreases candidates.len(),
{
    if candidates.len() == 0 {
        Seq::empty()
    } else {
        let before = kept_of(k, candidates.drop_last(), floor);
        let c = candidates.last();
        if stands_out(candidate_price(k, c), floor) {
            before.push(GridRow { option: c, price: candidate_price(k, c) })
        } else {
            before
        }
    }
}

/// Prices the candidates, and keeps those whose premium stands out.
pub fn keep_priced<K: Arith>(k: &K, candidates: &[Candidate], floor: Double) -> (out: Vec<GridRow>)
    ensures
        out@.len() <= candidates@.len(),
        forall|i: int| 0 <= i < out@.len() ==> stands_out((#[trigger] out@[i]).price, floor),
        steady(*k) ==> out@ == kept_of(*k, candidates@, floor),
{
    let mut out: Vec<GridRow> = Vec::new();
    let mut i: usize = 0;
    while i < candidates.len()
        invariant
            i <= candidates@.len(),
            out@.len() <= i,
            forall|j: int| 0 <= j < out@.len() ==> stands_out((#[trigger] out@[j]).price, floor),
            steady(*k) ==> out@ == kept_of(*k, candidates@.take(i as int), floor),
        decreases candidates@.len() - i,
    {
        let c = candidates[i];
        let q = Quote {
            spot: c.spot,
            strike: c.strike,
            tte: c.tte,
            rate: c.rate,
            price: c.sigma,
            is_call: c.kind.is_call(),
        };
        let price = bs_price_vega(k, &q, c.sigma).price;
        assert(candidates@.take(i + 1).drop_last() =~= candidates@.take(i as int));
        if price.is_finite() && floor.lt(price) {
            out.push(GridRow { option: c, price });
        }
        i += 1;
    }
    assert(candidates@.take(i as int) =~= candidates@);
    out
}

/// Option number `m` of the near-money grid: strike slowest, volatility
/// fastest; a call from the spot up, a put below.
pub open spec fn atm_candidate(x: Seq<Double>, t: Seq<Double>, v: Seq<Double>, m: int) -> Candidate {
    let strike = x[m / (ATM_PER_STRIKE as int)];
    Candidate {
        spot: num(ATM_SPOT),
        strike,
        tte: t[m / (ATM_N_SIG as int) % (ATM_N_T as int)],
        rate: num(ATM_RATE),
        sigma: v[m % (ATM_N_SIG as int)],
        kind: side(num(ATM_SPOT).at_most(strike)),
    }
}

/// The candidates of the near-money grid, in order.
pub open spec fn atm_list_of<K: Arith>(k: K) -> Seq<Candidate> {
    let x = linspace_of(k, num(ATM_K_LO), num(ATM_K_HI), ATM_N_K as nat);
    let t = linspace_of(k, num(ATM_T_LO), num(ATM_T_HI), ATM_N_T as nat);
    let v = linspace_of(k, num(ATM_SIG_LO), num(ATM_SIG_HI), ATM_N_SIG as nat);
    Seq::new(ATM_ROWS as nat, |m: int| atm_candidate(x, t, v, m))
}

/// The candidates of the near-money grid.
pub fn atm_candidates<K: Arith>(k: &K) -> (out: Vec<Candidate>)
    ensures
        out@.len() == ATM_ROWS,
        steady(*k) ==> out@ == atm_list_of(*k),
{
    let x = linspace(k, num(ATM_K_LO), num(ATM_K_HI), ATM_N_K);
    let t = linspace(k, num(ATM_T_LO), num(ATM_T_HI), ATM_N_T);
    let v = linspace(k, num(ATM_SIG_LO), num(ATM_SIG_HI), ATM_N_SIG);
    let mut out: Vec<Candidate> = Vec::new();
    let mut m: usize = 0;
    while m < ATM_ROWS
        invariant
            m <= ATM_ROWS,
            x@.len() == ATM_N_K,
            t@.len() == ATM_N_T,
            v@.len() == ATM_N_SIG,
            out@.len() == m,
            forall|j: int| 0 <= j < m ==> #[trigger] out@[j] == atm_candidate(x@, t@, v@, j),
        decreases ATM_ROWS - m,
    {
        let strike = x[m / ATM_PER_STRIKE];
        let c = Candidate {
            spot: num(ATM_SPOT),
            strike,
            tte: t[m / ATM_N_SIG % ATM_N_T],
            rate: num(ATM_RATE),
            sigma: v[m % ATM_N_SIG],
            kind: kind_on(strike.ge(num(ATM_SPOT))),
        };
        out.push(c);
        m += 1;
    }
    assert(steady(*k) ==> out@ =~= atm_list_of(*k));
    out
}

/// The volatility belongs to the wing grid.
pub open spec fn on_wing_axis(v: Double) -> bool {
    num(WING_V_LO).at_most(v) && v.at_most(num(WING_V_HI))
}

/// The central arm of the abscissa at the probability `0.5 + q`.
pub open spec fn central_abscissa_of<K: Arith>(k: K, q: Double) -> Double {
    let r = prod(k, q, q);
    sum(
        k,
        prod(k, prod(k, q, polynomial(k, ABSCISSA_A@, r)), r),
        quot(k, num(ABSCISSA_TOP), polynomial(k, ABSCISSA_B@, r)),
    )
}

/// The tail arm of the abscissa, where the smaller of the two tails is `r`.
pub open spec fn tail_abscissa_of<K: Arith>(k: K, r: Double) -> Double {
    let z = sqrt_of(k, flipped(ln_of(k, r)));
    quot(k, polynomial(k, ABSCISSA_C@, z), polynomial(k, ABSCISSA_D@, z))
}

/// The abscissa that the wing grid gives the delta `p`.
pub open spec fn abscissa_of<K: Arith>(k: K, p: Double) -> Double {
    let q = diff(k, p, num(HALF));
    if unsigned(q).at_most(num(ABSCISSA_CENTRE)) {
        central_abscissa_of(k, q)
    } else if q.below(num(ZERO)) {
        flipped(tail_abscissa_of(k, p))
    } else {
        tail_abscissa_of(k, diff(k, num(ONE), p))
    }
}

/// The abscissa that the wing grid gives the delta `p`: a fixed rational
/// function per arm, coarser than the probit, which spreads the strikes of the
/// grid far into both wings.
pub fn phi_inv<K: Arith>(k: &K, p: Double) -> (r: Double)
    ensures
        steady(*k) ==> r == abscissa_of(*k, p),
{
    let q = k.minus(p, num(HALF));
    if q.abs().le(num(ABSCISSA_CENTRE)) {
        let r = k.times(q, q);
        k.plus(
            k.times(k.times(q, horner(k, &ABSCISSA_A, r)), r),
            k.over(num(ABSCISSA_TOP), horner(k, &ABSCISSA_B, r)),
        )
    } else {
        let left: bool = q.lt(num(ZERO));
        let r = if left {
            p
        } else {
            k.minus(num(ONE), p)
        };
        let z = k.sqrt(k.ln(r).neg());
        let tail = k.over(horner(k, &ABSCISSA_C, z), horner(k, &ABSCISSA_D, z));
        if left {
            tail.neg()
        } else {
            tail
        }
    }
}

/// The logarithm of strike over forward at which the grid puts an option of
/// volatility `v` and delta `d`, over a year.
pub open spec fn log_strike_of<K: Arith>(k: K, v: Double, d: Double) -> Double {
    diff(
        k,
        prod(k, prod(k, num(HALF), v), v),
        prod(k, abscissa_of(k, d), v),
    )
}

/// The candidate at a volatility and a delta: a call from the forward up, a put
/// below.
pub open spec fn wing_candidate_of<K: Arith>(k: K, v: Double, d: Double) -> Candidate {
    let log = log_strike_of(k, v, d);
    Candidate {
        spot: num(ONE),
        strike: exp_of(k, log),
        tte: num(ONE),
        rate: num(ZERO),
        sigma: quot(k, v, sqrt_of(k, num(ONE))),
        kind: side(num(ZERO).at_most(log)),
    }
}

/// The candidates of one volatility: one per delta, or none where the
/// volatility does not belong to the grid.
pub open spec fn wing_column_of<K: Arith>(k: K, v: Double) -> Seq<Candidate> {
    if on_wing_axis(v) {
        Seq::new(WING_N_D as nat, |d: int| wing_candidate_of(k, v, num(WING_DELTAS@[d])))
    } else {
        Seq::empty()
    }
}

/// The candidates of the first `n` volatilities of the wing grid.
pub open spec fn wing_list_of<K: Arith>(k: K, n: nat) -> Seq<Candidate>
    decreases n,
{
    if n == 0 {
        Seq::empty()
    } else {
        let v = along_of(k, num(WING_V_LO), num(WING_V_STEP), n - 1);
        wing_list_of(k, (n - 1) as nat) + wing_column_of(k, v)
    }
}

/// The candidate at a volatility and a delta.
fn wing_candidate<K: Arith>(k: &K, v: Double, d: Double) -> (r: Candidate)
    ensures
        steady(*k) ==> r == wing_candidate_of(*k, v, d),
{
    let log = k.minus(k.times(k.times(num(HALF), v), v), k.times(phi_inv(k, d), v));
    Candidate {
        spot: num(ONE),
        strike: k.exp(log),
        tte: num(ONE),
        rate: num(ZERO),
        sigma: k.over(v, k.sqrt(num(ONE))),
        kind: kind_on(log.ge(num(ZERO))),
    }
}

/// Appends the candidates of one volatility.
fn push_column<K: Arith>(k: &K, out: &mut Vec<Candidate>, v: Double)
    ensures
        final(out)@.len() == old(out)@.len() + if on_wing_axis(v) { WING_N_D as int } else { 0 },
        steady(*k) ==> final(out)@ == old(out)@ + wing_column_of(*k, v),
{
    let ghost before = out@;
    if !(num(WING_V_LO).le(v) && v.le(num(WING_V_HI))) {
        assert(steady(*k) ==> out@ =~= before + wing_column_of(*k, v));
        return;
    }
    let mut d: usize = 0;
    while d < WING_N_D
        invariant
            d <= WING_N_D,
            on_wing_axis(v),
            out@.len() == before.len() + d,
            steady(*k) ==> out@ == before + wing_column_of(*k, v).take(d as int),
        decreases WING_N_D - d,
    {
        out.push(wing_candidate(k, v, num(WING_DELTAS[d])));
        d += 1;
        proof {
            if steady(*k) {
                let column = wing_column_of(*k, v);
                assert(column.take(d as int) =~= column.take(d - 1).push(column[d - 1]));
                assert(out@ =~= before + column.take(d as int));
            }
        }
    }
    assert(steady(*k) ==> wing_column_of(*k, v).take(d as int) =~= wing_column_of(*k, v));
}

/// The candidates of the wing grid.
pub fn wing_candidates<K: Arith>(k: &K) -> (out: Vec<Candidate>)
    ensures
        out@.len() <= WING_N_V * WING_N_D,
        steady(*k) ==> out@ == wing_list_of(*k, WING_N_V as nat),
{
    let mut out: Vec<Candidate> = Vec::new();
    let mut i: usize = 0;
    while i < WING_N_V
        invariant
            i <= WING_N_V,
            out@.len() <= i * WING_N_D,
            steady(*k) ==> out@ == wing_list_of(*k, i as nat),
        decreases WING_N_V - i,
    {
        let v = k.plus(num(WING_V_LO), k.times(num(WING_V_STEP), from_count(i as u64)));
        push_column(k, &mut out, v);
        i += 1;
    }
    out
}

/// The volatility of the smile at a strike: a parabola in the moneyness, tilted
/// down.
pub open spec fn smirk_of<K: Arith>(k: K, spot: Double, strike: Double) -> Double {
    let m = diff(k, quot(k, strike, spot), num(ONE));
    diff(
        k,
        sum(k, num(SMILE_LEVEL), prod(k, prod(k, num(SMILE_CURVE), m), m)),
        prod(k, num(SMILE_SLOPE), m),
    )
}

/// Call number `i` of the smile.
pub open spec fn smile_candidate_of<K: Arith>(k: K, i: int) -> Candidate {
    let strike = count_of(SMILE_K_LO + i * SMILE_K_STEP);
    Candidate {
        spot: num(ATM_SPOT),
        strike,
        tte: quot(k, num(SMILE_DAYS), num(YEAR_DAYS)),
        rate: num(SMILE_RATE),
        sigma: smirk_of(k, num(ATM_SPOT), strike),
        kind: OptionKind::Call,
    }
}

/// The calls of the smile, by strike.
pub fn smile_candidates<K: Arith>(k: &K) -> (out: Vec<Candidate>)
    ensures
        out@.len() == SMILE_N_K,
        forall|i: int|
            0 <= i < SMILE_N_K ==> (#[trigger] out@[i]).strike == count_of(
                SMILE_K_LO + i * SMILE_K_STEP,
            ) && out@[i].kind is Call,
        steady(*k) ==> out@ == Seq::new(SMILE_N_K as nat, |i: int| smile_candidate_of(*k, i)),
{
    let mut out: Vec<Candidate> = Vec::new();
    let tte = k.over(num(SMILE_DAYS), num(YEAR_DAYS));
    let spot = num(ATM_SPOT);
    let mut i: usize = 0;
    while i < SMILE_N_K
        invariant
            i <= SMILE_N_K,
            out@.len() == i,
            spot == num(ATM_SPOT),
            steady(*k) ==> tte == quot(*k, num(SMILE_DAYS), num(YEAR_DAYS)),
            forall|j: int|
                0 <= j < i ==> (#[trigger] out@[j]).strike == count_of(
                    SMILE_K_LO + j * SMILE_K_STEP,
                ) && out@[j].kind is Call,
            steady(*k) ==> forall|j: int|
                0 <= j < i ==> #[trigger] out@[j] == smile_candidate_of(*k, j),
        decreases SMILE_N_K - i,
    {
        let strike = from_count(SMILE_K_LO + (i as u64) * SMILE_K_STEP);
        let m = k.minus(k.over(strike, spot), num(ONE));
        let sigma = k.minus(
            k.plus(num(SMILE_LEVEL), k.times(k.times(num(SMILE_CURVE), m), m)),
            k.times(num(SMILE_SLOPE), m),
        );
        out.push(
            Candidate {
                spot,
                strike,
                tte,
                rate: num(SMILE_RATE),
                sigma,
                kind: OptionKind::Call,
            },
        );
        i += 1;
    }
    assert(steady(*k) ==> out@ =~= Seq::new(
        SMILE_N_K as nat,
        |j: int| smile_candidate_of(*k, j),
    ));
    out
}

/// The row's distance from the forward and its survival probability lie in the
/// wing.
pub open spec fn wing_row_of<K: Arith>(k: K, row: GridRow) -> bool {
    let o = row.option;
    let log = diff(k, ln_of(k, quot(k, o.strike, o.spot)), prod(k, o.rate, o.tte));
    let ratio = exp_of(k, log);
    let c = call_equivalent_of(k, o.kind is Call, quot(k, row.price, o.spot), ratio);
    let below = quot(k, diff(k, num(ONE), c), norm_factor_of(log, ratio));
    in_wing(unsigned(log), diff(k, num(ONE), below))
}

/// Whether the row lies in the wing.
pub fn wing_row<K: Arith>(k: &K, row: &GridRow) -> (r: bool)
    ensures
        steady(*k) ==> r == wing_row_of(*k, *row),
{
    let o = row.option;
    let log = k.minus(k.ln(k.over(o.strike, o.spot)), k.times(o.rate, o.tte));
    let ratio = k.exp(log);
    let c = call_equivalent(k, o.kind.is_call(), k.over(row.price, o.spot), ratio);
    let below = k.over(k.minus(num(ONE), c), norm_factor(log, ratio));
    uses_wing(log.abs(), k.minus(num(ONE), below))
}

/// The near-money grid is the full product of its axes: each strike, expiry and
/// volatility meet exactly at one number.
pub proof fn law_atm_grid_is_product(
    x: Seq<Double>,
    t: Seq<Double>,
    v: Seq<Double>,
    a: int,
    b: int,
    c: int,
)
    requires
        0 <= a < ATM_N_K,
        0 <= b < ATM_N_T,
        0 <= c < ATM_N_SIG,
    ensures
        0 <= a * ATM_PER_STRIKE + b * ATM_N_SIG + c < ATM_ROWS,
        atm_candidate(x, t, v, a * ATM_PER_STRIKE + b * ATM_N_SIG + c).strike == x[a],
        atm_candidate(x, t, v, a * ATM_PER_STRIKE + b * ATM_N_SIG + c).tte == t[b],
        atm_candidate(x, t, v, a * ATM_PER_STRIKE + b * ATM_N_SIG + c).sigma == v[c],
{
}

/// What a grid keeps stands out, at the premium of its candidate, and every
/// candidate that stands out is kept.
pub proof fn law_grid_keeps_what_stands_out<K: Arith>(
    k: K,
    candidates: Seq<Candidate>,
    floor: Double,
    c: Candidate,
)
    ensures
        kept_of(k, candidates, floor).contains(
            (GridRow { option: c, price: candidate_price(k, c) }),
        ) <==> candidates.contains(c) && stands_out(candidate_price(k, c), floor),
    decreases candidates.len(),
{
    let row = GridRow { option: c, price: candidate_price(k, c) };
    let kept = kept_of(k, candidates, floor);
    if candidates.len() > 0 {
        let shorter = candidates.drop_last();
        let before = kept_of(k, shorter, floor);
        law_grid_keeps_what_stands_out(k, shorter, floor, c);
        if candidates.contains(c) && stands_out(candidate_price(k, c), floor) {
            let i = choose|i: int| 0 <= i < candidates.len() && candidates[i] == c;
            if i < candidates.len() - 1 {
                assert(shorter[i] == c);
                let j = choose|j: int| 0 <= j < before.len() && before[j] == row;
                assert(kept[j] == row);
            } else {
                assert(kept[kept.len() - 1] == row);
            }
        }
        if kept.contains(row) {
            let j = choose|j: int| 0 <= j < kept.len() && kept[j] == row;
            if j < before.len() {
                assert(before[j] == row);
                let i = choose|i: int| 0 <= i < shorter.len() && shorter[i] == c;
                assert(candidates[i] == c);
            } else {
                assert(candidates[candidates.len() - 1] == c);
            }
        }
    }
}

/// Evenly spaced numbers start at the first end and go on by the width over one
/// less than their number; a single one is the first end.
pub proof fn law_spacing_is_even<K: Arith>(k: K, a: Double, b: Double, n: nat, i: int)
    requires
        0 <= i < n,
    ensures
        n == 1 ==> linspace_of(k, a, b, n)[i] == a,
        n != 1 ==> linspace_of(k, a, b, n)[i] == sum(
            k,
            a,
            prod(
                k,
                quot(k, diff(k, b, a), diff(k, count_of(n as int), num(ONE))),
                count_of(i),
            ),
        ),
{
}

/// Where an option of the wing grid stands: its strike is the exponential of half
/// the square of its volatility less the abscissa of its delta times the
/// volatility, on a spot of one over a year without a rate; it is a call from the
/// forward up and a put below.
pub proof fn law_wing_options_stand_by_delta<K: Arith>(k: K, v: Double, d: Double)
    ensures
        ({
            let log = diff(
                k,
                prod(k, prod(k, num(HALF), v), v),
                prod(k, abscissa_of(k, d), v),
            );
            let c = wing_candidate_of(k, v, d);
            &&& c.spot == num(ONE) && c.tte == num(ONE) && c.rate == num(ZERO)
            &&& c.strike == exp_of(k, log)
            &&& c.sigma == quot(k, v, sqrt_of(k, num(ONE)))
            &&& c.kind is Call <==> num(ZERO).at_most(log)
        }),
{
}

/// The volatility of the smile is `0.2 + 0.3 m^2 - 0.1 m`, with `m` how far the
/// strike is above the spot, over the spot.
pub proof fn law_smile_is_a_tilted_parabola<K: Arith>(k: K, spot: Double, strike: Double)
    ensures
        ({
            let m = diff(k, quot(k, strike, spot), num(ONE));
            let bow = sum(k, num(SMILE_LEVEL), prod(k, prod(k, num(SMILE_CURVE), m), m));
            smirk_of(k, spot, strike) == diff(k, bow, prod(k, num(SMILE_SLOPE), m))
        }),
{
}

/// An option of the near-money grid is a call from the spot up, and a put below.
pub proof fn law_near_money_kinds(x: Seq<Double>, t: Seq<Double>, v: Seq<Double>, m: int)
    ensures
        ({
            let c = atm_candidate(x, t, v, m);
            &&& c.kind is Call <==> num(ATM_SPOT).at_most(c.strike)
            &&& c.spot == num(ATM_SPOT) && c.rate == num(ATM_RATE)
        }),
{
}

/// A row lies in the wing by its distance from the forward and by what is left of
/// one after its probability.
pub proof fn law_wing_rows<K: Arith>(k: K, row: GridRow)
    ensures
        ({
            let o = row.option;
            let log = diff(k, ln_of(k, quot(k, o.strike, o.spot)), prod(k, o.rate, o.tte));
            let ratio = exp_of(k, log);
            let part = quot(k, row.price, o.spot);
            let call = if o.kind is Call {
                part
            } else {
                diff(k, sum(k, part, num(ONE)), ratio)
            };
            let factor = if num(ZERO).below(log) {
                num(ONE)
            } else {
                ratio
            };
            let below = quot(k, diff(k, num(ONE), call), factor);
            wing_row_of(k, row) <==> in_wing(unsigned(log), diff(k, num(ONE), below))
        }),
{
}

/// The axes of the grids and the floors that their premiums must exceed.
pub proof fn law_grid_axes()
    ensures
        equals(num(ATM_SPOT), 100, 1),
        rounds(num(ATM_RATE), 3, 100),
        equals(num(ATM_K_LO), 85, 1),
        equals(num(ATM_K_HI), 115, 1),
        rounds(num(ATM_T_LO), 1, 100),
        equals(num(ATM_T_HI), 2, 1),
        rounds(num(ATM_SIG_LO), 1, 100),
        rounds(num(ATM_SIG_HI), 99, 100),
        rounds(num(ATM_FLOOR), 1, 100000000000000000000int),
        rounds(num(WING_V_LO), 1, 100),
        rounds(num(WING_V_STEP), 5, 100),
        equals(num(WING_V_HI), 2, 1),
        rounds(num(WING_FLOOR), 1, 1000000000000000),
        rounds(num(ABSCISSA_CENTRE), 425, 1000),
        rounds(num(SMILE_RATE), 4, 100),
        equals(num(SMILE_DAYS), 30, 1),
        equals(num(YEAR_DAYS), 365, 1),
        rounds(num(SMILE_LEVEL), 2, 10),
        rounds(num(SMILE_CURVE), 3, 10),
        rounds(num(SMILE_SLOPE), 1, 10),
        ATM_N_K == 31 && ATM_N_T == 40 && ATM_N_SIG == 40,
        WING_N_V == 41 && WING_N_D == 13,
        SMILE_N_K == 13 && SMILE_K_LO == 70 && SMILE_K_STEP == 5,
{
    lemma2_to64();
    lemma2_to64_rest();
    lemma_pow2_two_words(38);
    lemma_pow2_two_words(55);
    lemma_rounds(num(ATM_SPOT), 1029, 7036874417766400, 70368744177664, 100, 1);
    lemma_rounds(num(ATM_RATE), 1017, 8646911284551352, 288230376151711744, 3, 100);
    lemma_rounds(num(ATM_K_LO), 1029, 5981343255101440, 70368744177664, 85, 1);
    lemma_rounds(num(ATM_K_HI), 1029, 8092405580431360, 70368744177664, 115, 1);
    lemma_rounds(num(ATM_T_LO), 1016, 5764607523034235, 576460752303423488, 1, 100);
    lemma_rounds(num(ATM_T_HI), 1024, 4503599627370496, 2251799813685248, 2, 1);
    lemma_rounds(num(ATM_SIG_LO), 1016, 5764607523034235, 576460752303423488, 1, 100);
    lemma_rounds(num(ATM_SIG_HI), 1022, 8917127262193582, 9007199254740992, 99, 100);
    lemma_rounds(num(ATM_FLOOR), 956, 6646139978924579, 664613997892457936451903530140172288int, 1, 100000000000000000000int);
    lemma_rounds(num(WING_V_LO), 1016, 5764607523034235, 576460752303423488, 1, 100);
    lemma_rounds(num(WING_V_STEP), 1018, 7205759403792794, 144115188075855872, 5, 100);
    lemma_rounds(num(WING_V_HI), 1024, 4503599627370496, 2251799813685248, 2, 1);
    lemma_rounds(num(WING_FLOOR), 973, 5070602400912918, 5070602400912917605986812821504int, 1, 1000000000000000);
    lemma_rounds(num(ABSCISSA_CENTRE), 1021, 7656119366529843, 18014398509481984, 425, 1000);
    lemma_rounds(num(SMILE_RATE), 1018, 5764607523034235, 144115188075855872, 4, 100);
    lemma_rounds(num(SMILE_DAYS), 1027, 8444249301319680, 281474976710656, 30, 1);
    lemma_rounds(num(YEAR_DAYS), 1031, 6421147906211840, 17592186044416, 365, 1);
    lemma_rounds(num(SMILE_LEVEL), 1020, 7205759403792794, 36028797018963968, 2, 10);
    lemma_rounds(num(SMILE_CURVE), 1021, 5404319552844595, 18014398509481984, 3, 10);
    lemma_rounds(num(SMILE_SLOPE), 1019, 7205759403792794, 72057594037927936, 1, 10);
}

/// A candidate is priced at its own terms and volatility, and stands out when its
/// premium is finite and above the floor.
pub proof fn law_candidates_are_priced_at_their_terms<K: Arith>(k: K, c: Candidate, floor: Double)
    ensures
        ({
            let q = Quote {
                spot: c.spot,
                strike: c.strike,
                tte: c.tte,
                rate: c.rate,
                price: c.sigma,
                is_call: c.kind == OptionKind::Call,
            };
            let price = priced_of(k, q, c.sigma).price;
            &&& candidate_price(k, c) == price
            &&& stands_out(price, floor) <==> price.finite() && floor.below(price)
        }),
{
}

/// The abscissa of a delta: within `0.425` of a half one rational serves, below it
/// the opposite of a rational of the root of minus the logarithm, and above it
/// that rational at what is left of one.
pub proof fn law_abscissa_in_three_arms<K: Arith>(k: K, p: Double)
    ensures
        ({
            let q = diff(k, p, num(HALF));
            let r = prod(k, q, q);
            let near = sum(
                k,
                prod(k, prod(k, q, polynomial(k, ABSCISSA_A@, r)), r),
                quot(k, num(ABSCISSA_TOP), polynomial(k, ABSCISSA_B@, r)),
            );
            let rest = if q.below(num(ZERO)) {
                p
            } else {
                diff(k, num(ONE), p)
            };
            let z = sqrt_of(k, flipped(ln_of(k, rest)));
            let far = quot(k, polynomial(k, ABSCISSA_C@, z), polynomial(k, ABSCISSA_D@, z));
            let inside = unsigned(q).at_most(num(ABSCISSA_CENTRE));
            &&& inside ==> abscissa_of(k, p) == near
            &&& !inside && q.below(num(ZERO)) ==> abscissa_of(k, p) == flipped(far)
            &&& !inside && !q.below(num(ZERO)) ==> abscissa_of(k, p) == far
        }),
{
}

/// The wing grid takes a volatility from `0.01` to `2` at every delta, and none
/// outside.
pub proof fn law_wing_grid_takes_every_delta<K: Arith>(k: K, v: Double, d: int)
    requires
        0 <= d < 13,
    ensures
        num(WING_V_LO).at_most(v) && v.at_most(num(WING_V_HI)) ==> {
            &&& wing_column_of(k, v).len() == 13
            &&& wing_column_of(k, v)[d] == wing_candidate_of(k, v, num(WING_DELTAS@[d]))
        },
        !(num(WING_V_LO).at_most(v) && v.at_most(num(WING_V_HI))) ==> wing_column_of(k, v).len()
            == 0,
{
}

/// Call `i` of the smile has the strike `70 + 5 i`, the spot of the near-money
/// grid, thirty days of a year to run, and the volatility of the smile there.
pub proof fn law_smile_calls<K: Arith>(k: K, i: int)
    ensures
        ({
            let c = smile_candidate_of(k, i);
            &&& c.strike == count_of(70 + 5 * i)
            &&& c.spot == num(ATM_SPOT) && c.rate == num(SMILE_RATE)
            &&& c.tte == quot(k, num(SMILE_DAYS), num(YEAR_DAYS))
            &&& c.sigma == smirk_of(k, c.spot, c.strike)
            &&& c.kind is Call
        }),
{
}

} // verus!
