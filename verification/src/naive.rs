//! The plain solver: one option at a time.
//!
//! The same method as the direct solver on the same cumulative normal, without
//! packs and masks. It serves as the yardstick that the packed solvers are
//! measured against.
use crate::arith::{diff, steady, Arith};
use crate::constants::{HALF, SMALL, TINY};
use crate::direct::{
    accept, admits, carry, carry_of, direct_answer, direct_begin, direct_course, direct_of, discount, evidence,
    evidence_of, initial_guess, nan_or_inside, newton_of, plausible, priced_of, quote_of, reported, scale,
    screen, Newton, MAX_ITERS, TOL, VOL_MAX, VOL_MIN,
};
use crate::double::{num, unsigned, Double, NAN};
use crate::iterate::{
    lane_after, law_converged_lane_is_frozen, step_lane, Bracket, Course, LaneState, Probe,
    StepTest, Stepper,
};
use crate::kind::OptionKind;
use crate::lanes::Quote;
use crate::norm::{phi_hart, phi_pdf};
use vstd::prelude::*;

verus! {

/// The first argument of the cumulative normal in the price.
fn d1<K: Arith>(k: &K, q: &Quote, sigma: Double) -> (r: Double)
    ensures
        steady(*k) ==> r == priced_of(*k, *q, sigma).d1,
{
    let growth = k.plus(q.rate, k.times(k.times(num(HALF), sigma), sigma));
    let top = k.plus(k.ln(k.over(q.spot, q.strike)), k.times(growth, q.tte));
    k.over(top, k.times(sigma, k.sqrt(q.tte)))
}

/// The price of the option at the volatility `sigma`.
pub fn bs_price<K: Arith>(k: &K, q: &Quote, sigma: Double) -> (r: Double)
    ensures
        steady(*k) ==> r == priced_of(*k, *q, sigma).price,
{
    let vol = k.times(sigma, k.sqrt(q.tte));
    let strike = k.times(q.strike, discount(k, q));
    let first = d1(k, q, sigma);
    let second = k.minus(first, vol);
    let call = k.minus(k.times(q.spot, phi_hart(k, first)), k.times(strike, phi_hart(k, second)));
    if q.is_call {
        call
    } else {
        k.plus(k.minus(call, q.spot), strike)
    }
}

/// The sensitivity of the price to the volatility.
pub fn vega<K: Arith>(k: &K, q: &Quote, sigma: Double) -> (r: Double)
    ensures
        steady(*k) ==> r == priced_of(*k, *q, sigma).vega,
{
    let root = k.sqrt(q.tte);
    let first = d1(k, q, sigma);
    k.times(k.times(q.spot, phi_pdf(k, first)), root)
}

/// Newton's method on the price, evaluated one option at a time.
pub struct Plain<'a, K: Arith> {
    pub machine: &'a K,
}

impl<'a, K: Arith> Stepper for Plain<'a, K> {
    type Lane = Quote;

    open spec fn dependable(&self) -> bool {
        steady(*self.machine)
    }

    open spec fn found(&self, lane: Quote, sigma: Double) -> Probe {
        newton_of(*self.machine, lane, sigma)
    }

    open spec fn length(&self, next: Double, sigma: Double) -> Double {
        unsigned(diff(*self.machine, next, sigma))
    }

    fn probe(&self, lane: &Quote, sigma: Double) -> (r: Probe) {
        let k = self.machine;
        let residual = k.minus(bs_price(k, lane, sigma), lane.price);
        let slope = vega(k, lane, sigma).max(num(TINY));
        let allowed = k.plus(
            k.times(num(SMALL), scale(lane)),
            k.times(num(SMALL), lane.price.abs()),
        );
        Probe {
            proposal: k.minus(sigma, k.over(residual, slope)),
            residual: residual.abs(),
            allowed,
        }
    }

    fn distance(&self, next: Double, sigma: Double) -> (r: Double) {
        self.machine.minus(next, sigma).abs()
    }
}

/// Where the plain solver ends: on the course of the direct solver, from its
/// seed.
pub open spec fn naive_end<K: Arith>(k: K, q: Quote) -> LaneState {
    lane_after(
        Plain { machine: &k },
        q,
        direct_course(),
        direct_begin(k, q, true),
        MAX_ITERS as nat,
    )
}

/// Runs Newton's method from `begin`, and stops where it converges.
fn descend<K: Arith>(k: &K, q: &Quote, begin: LaneState) -> (end: LaneState)
    ensures
        steady(*k) ==> end == lane_after(
            (Plain { machine: k }),
            *q,
            direct_course(),
            begin,
            MAX_ITERS as nat,
        ),
{
    let course = Course {
        bracket: Bracket { lo: num(VOL_MIN), hi: num(VOL_MAX) },
        test: StepTest::Below(num(TOL)),
    };
    let plain = Plain { machine: k };
    let mut now: LaneState = begin;
    let mut count: usize = 0;
    while count < MAX_ITERS && !now.converged
        invariant
            count <= MAX_ITERS,
            course == direct_course(),
            plain == (Plain { machine: k }),
            steady(*k) ==> now == lane_after(plain, *q, course, begin, count as nat),
        decreases MAX_ITERS - count,
    {
        now = step_lane(&plain, q, &course, now);
        count += 1;
        proof {
            reveal_with_fuel(lane_after, 2);
        }
    }
    proof {
        if steady(*k) && now.converged {
            law_converged_lane_is_frozen(
                plain,
                *q,
                course,
                begin,
                count as nat,
                MAX_ITERS as nat,
            );
        }
    }
    now
}

/// The implied volatility of an option by the plain solver, or a NaN. What it
/// ends at is judged as the direct solver judges its own.
pub open spec fn naive_of<K: Arith>(k: K, q: Quote) -> Double {
    let end = naive_end(k, q);
    reported(admits(q, carry_of(k, q)), end, evidence_of(k, q, end.sigma))
}

/// The plain solver may report `r` for the option.
pub open spec fn naive_answer<K: Arith>(k: K, q: Quote, r: Double) -> bool {
    &&& steady(k) ==> r == naive_of(k, q)
    &&& nan_or_inside(r)
    &&& !plausible(q) ==> r == num(NAN)
}

/// The option with these terms.
pub open spec fn naive_quote(
    spot: Double,
    strike: Double,
    tte: Double,
    rate: Double,
    price: Double,
    is_call: bool,
) -> Quote {
    Quote { spot, strike, tte, rate, price, is_call }
}

/// The implied volatility of one option, or a NaN.
pub fn implied_vol_one<K: Arith>(
    k: &K,
    spot: Double,
    strike: Double,
    tte: Double,
    rate: Double,
    price: Double,
    is_call: bool,
) -> (r: Double)
    ensures
        naive_answer(*k, naive_quote(spot, strike, tte, rate, price, is_call), r),
{
    let q = Quote { spot, strike, tte, rate, price, is_call };
    let c = carry(k, &q);
    if !screen(&q, &c) {
        return num(NAN);
    }
    let begin = LaneState { sigma: initial_guess(k, &q), converged: false };
    let end = descend(k, &q, begin);
    let e = evidence(k, &q, end.sigma);
    accept(true, end, &e)
}

/// Solves a batch, option by option.
pub fn implied_vol<K: Arith>(
    k: &K,
    spot: &[Double],
    strike: &[Double],
    tte: &[Double],
    rate: &[Double],
    price: &[Double],
    is_call: &[bool],
) -> (out: Vec<Double>)
    requires
        strike@.len() >= spot@.len(),
        tte@.len() >= spot@.len(),
        rate@.len() >= spot@.len(),
        price@.len() >= spot@.len(),
        is_call@.len() >= spot@.len(),
    ensures
        out@.len() == spot@.len(),
        forall|i: int|
            0 <= i < out@.len() ==> naive_answer(
                *k,
                naive_quote(spot@[i], strike@[i], tte@[i], rate@[i], price@[i], is_call@[i]),
                #[trigger] out@[i],
            ),
{
    let mut out: Vec<Double> = Vec::new();
    let mut i: usize = 0;
    while i < spot.len()
        invariant
            i <= spot@.len(),
            strike@.len() >= spot@.len(),
            tte@.len() >= spot@.len(),
            rate@.len() >= spot@.len(),
            price@.len() >= spot@.len(),
            is_call@.len() >= spot@.len(),
            out@.len() == i,
            forall|j: int|
                0 <= j < i ==> naive_answer(
                    *k,
                    naive_quote(spot@[j], strike@[j], tte@[j], rate@[j], price@[j], is_call@[j]),
                    #[trigger] out@[j],
                ),
        decreases spot@.len() - i,
    {
        let r = implied_vol_one(k, spot[i], strike[i], tte[i], rate[i], price[i], is_call[i]);
        out.push(r);
        i += 1;
    }
    out
}

/// The two solvers are one but for the packs: every option gets the same from
/// both, and so the plain solver has a NaN exactly where the direct solver has
/// one.
pub proof fn law_naive_is_direct<K: Arith>(k: K, q: Quote)
    ensures
        naive_of(k, q) == direct_of(k, q),
        direct_of(k, q).nan() <==> naive_of(k, q).nan(),
{
    if admits(q, carry_of(k, q)) {
        lemma_paths_agree(k, q, direct_begin(k, q, true), MAX_ITERS as nat);
    }
}

/// The two solvers take the same path.
proof fn lemma_paths_agree<K: Arith>(k: K, q: Quote, begin: LaneState, steps: nat)
    ensures
        lane_after((Plain { machine: &k }), q, direct_course(), begin, steps) == lane_after(
            (Newton { machine: &k }),
            q,
            direct_course(),
            begin,
            steps,
        ),
    decreases steps,
{
    if steps > 0 {
        lemma_paths_agree(k, q, begin, (steps - 1) as nat);
    }
}

/// The plain solver answers an option as the direct solver does, on a machine that
/// always answers alike.
pub proof fn law_naive_answers_as_direct<K: Arith>(
    k: K,
    spot: Double,
    strike: Double,
    tte: Double,
    rate: Double,
    price: Double,
    kind: OptionKind,
    plain: Double,
    fast: Double,
)
    requires
        steady(k),
        naive_answer(k, naive_quote(spot, strike, tte, rate, price, kind is Call), plain),
        direct_answer(k, quote_of(spot, strike, tte, rate, price, kind), fast),
    ensures
        plain == fast,
{
    law_naive_is_direct(k, quote_of(spot, strike, tte, rate, price, kind));
}

} // verus!
