//! The explicit solver: the implied volatility as a quantile.
//!
//! The price of a call is the survival function of an inverse Gaussian law, so
//! the implied volatility is a quantile of that law. The quantile is found by
//! the same masked iteration as in the direct solver, in the total volatility;
//! at the forward it collapses to the probit. The same acceptance holds: what
//! does not price back is a NaN.
use crate::arith::{
    diff, exp_of, is_zero, ln_of, neutral, prod, quot, sqrt_of, steady, sum, Arith,
};
use crate::constants::{
    EIGHT, FOUR, HALF, HUGE, ONE, SMALL, TINY, TWO, TWO_PI, ZERO,
};
use crate::direct::{
    admits, bs_price_vega, carry, carry_of, discount, discount_of, guess_of, initial_guess,
    is_well_inside, law_reported_is_inside_or_nan, nan_or_inside, plausible, priced_of, quote_of,
    scale, scale_of, screen, seed, well_inside, Evidence, ACCEPT_RELATIVE, MAX_ITERS, VOL_MAX,
    VOL_MAX_INSIDE, VOL_MIN, VOL_MIN_INSIDE,
};
use crate::double::{
    clamped, flipped, larger, law_order_is_encoding_order, lemma_pow2_two_words, lemma_rounds, num,
    rounds, smaller, unsigned, Double, NAN,
};
use crate::iterate::{
    iterate, lane_after, law_converged_lane_is_frozen, Bracket, Course, LaneState, Probe, StepTest,
    Stepper,
};
use crate::kind::OptionKind;
use crate::lanes::{lane_result, map_packs, table, Columns, Lanes, Quote, LANES};
use crate::norm::{phi_hart, phi_hart_of, phi_inv, phi_inv_of};
use vstd::arithmetic::power2::{lemma2_to64, lemma2_to64_rest};
use vstd::prelude::*;

verus! {

/// `1e-7`: options closer than this to the forward take the probit.
pub const K_ZERO_EPS: u64 = 0x3E7A_D7F2_9ABC_AF48;

/// `1e-13`, the residual in probability that counts as none.
pub const RESIDUAL_TOL: u64 = 0x3D3C_25C2_6849_7682;

/// `1e-10`, the part of the accepted distance that goes with the size of the
/// option.
pub const EXPLICIT_ABSOLUTE: u64 = 0x3DDB_7CDF_D9D7_BDBB;

/// The distribution function and the density of a law.
#[derive(Clone, Copy, Debug, PartialEq, Eq, Structural)]
pub struct Law {
    pub cdf: Double,
    pub pdf: Double,
}

/// The inverse Gaussian law with mean `mu` and unit shape, at `x`.
pub open spec fn ig_of<K: Arith>(k: K, x: Double, mu: Double) -> Law {
    let root = sqrt_of(k, x);
    let inverse = quot(k, num(ONE), root);
    let a = flipped(quot(k, root, mu));
    let survival = diff(
        k,
        phi_hart_of(k, sum(k, a, inverse)),
        prod(k, exp_of(k, quot(k, num(TWO), mu)), phi_hart_of(k, diff(k, a, inverse))),
    );
    let spread = diff(k, x, mu);
    let e = quot(
        k,
        flipped(prod(k, spread, spread)),
        prod(k, prod(k, prod(k, num(TWO), mu), mu), x),
    );
    let norm = sqrt_of(k, prod(k, prod(k, prod(k, num(TWO_PI), x), x), x));
    Law { cdf: diff(k, num(ONE), survival), pdf: quot(k, exp_of(k, e), norm) }
}

/// The inverse Gaussian law with mean `mu` and unit shape, at `x`.
pub fn ig_cdf_pdf<K: Arith>(k: &K, x: Double, mu: Double) -> (r: Law)
    ensures
        steady(*k) ==> r == ig_of(*k, x, mu),
{
    let root = k.sqrt(x);
    let inverse = k.over(num(ONE), root);
    let a = k.over(root, mu).neg();
    let first = phi_hart(k, k.plus(a, inverse));
    let second = phi_hart(k, k.minus(a, inverse));
    let survival = k.minus(first, k.times(k.exp(k.over(num(TWO), mu)), second));
    let cdf = k.minus(num(ONE), survival);
    let norm = k.sqrt(k.times(k.times(k.times(num(TWO_PI), x), x), x));
    let spread = k.minus(x, mu);
    let e = k.over(
        k.times(spread, spread).neg(),
        k.times(k.times(k.times(num(TWO), mu), mu), x),
    );
    Law { cdf, pdf: k.over(k.exp(e), norm) }
}

/// The quantile that is sought for an option.
#[derive(Clone, Copy, Debug, PartialEq, Eq, Structural)]
pub struct Goal {
    /// Root of the expiry.
    pub root: Double,
    /// Distance of the strike from the forward, in logarithms.
    pub away: Double,
    /// The volatility by the probit, right at the forward.
    pub atm: Double,
    /// The probability.
    pub probability: Double,
    /// The mean of the law.
    pub mean: Double,
}

/// The premium of the call with the same terms over the spot, where the premium
/// is `x` over the spot and the strike `ratio` over the forward.
pub open spec fn call_equivalent_of<K: Arith>(
    k: K,
    is_call: bool,
    x: Double,
    ratio: Double,
) -> Double {
    if is_call {
        x
    } else {
        diff(k, sum(k, x, num(ONE)), ratio)
    }
}

/// The premium of the call with the same terms, over the spot.
pub fn call_equivalent<K: Arith>(k: &K, is_call: bool, x: Double, ratio: Double) -> (r: Double)
    ensures
        steady(*k) ==> r == call_equivalent_of(*k, is_call, x, ratio),
        is_call ==> r == x,
{
    if is_call {
        x
    } else {
        k.minus(k.plus(x, num(ONE)), ratio)
    }
}

/// The factor that the probability is divided by: one above the forward, the
/// strike over the forward below it.
pub open spec fn norm_factor_of(log: Double, ratio: Double) -> Double {
    if num(ZERO).below(log) {
        num(ONE)
    } else {
        ratio
    }
}

/// The factor that the probability is divided by.
pub fn norm_factor(log: Double, ratio: Double) -> (r: Double)
    ensures
        r == norm_factor_of(log, ratio),
{
    if log.gt(num(ZERO)) {
        num(ONE)
    } else {
        ratio
    }
}

/// The mean of the law at a distance from the forward, which is kept from zero
/// and the mean from growing beyond bound.
pub open spec fn mean_of<K: Arith>(k: K, away: Double) -> Double {
    smaller(quot(k, num(TWO), larger(away, num(SMALL))), num(HUGE))
}

/// The mean of the law at a distance from the forward.
pub fn mean<K: Arith>(k: &K, away: Double) -> (r: Double)
    ensures
        steady(*k) ==> r == mean_of(*k, away),
{
    k.over(num(TWO), away.max(num(SMALL))).min(num(HUGE))
}

/// The quantile that is sought for the option.
pub open spec fn goal_of<K: Arith>(k: K, q: Quote) -> Goal {
    let root = sqrt_of(k, q.tte);
    let forward = quot(k, q.spot, discount_of(k, q));
    let log = ln_of(k, quot(k, q.strike, forward));
    let ratio = exp_of(k, log);
    let c = call_equivalent_of(k, q.is_call, quot(k, q.price, q.spot), ratio);
    let probit = prod(k, num(TWO), phi_inv_of(k, prod(k, sum(k, c, num(ONE)), num(HALF))));
    Goal {
        root,
        away: unsigned(log),
        atm: quot(k, probit, root),
        probability: quot(k, diff(k, num(ONE), c), norm_factor_of(log, ratio)),
        mean: mean_of(k, unsigned(log)),
    }
}

/// The quantile that is sought for the option.
pub fn goal<K: Arith>(k: &K, q: &Quote) -> (r: Goal)
    ensures
        steady(*k) ==> r == goal_of(*k, *q),
{
    let root = k.sqrt(q.tte);
    let forward = k.over(q.spot, discount(k, q));
    let log = k.ln(k.over(q.strike, forward));
    let away = log.abs();
    let ratio = k.exp(log);
    let m = norm_factor(log, ratio);
    let c = call_equivalent(k, q.is_call, k.over(q.price, q.spot), ratio);
    let probit = k.times(num(TWO), phi_inv(k, k.times(k.plus(c, num(ONE)), num(HALF))));
    Goal {
        root,
        away,
        atm: k.over(probit, root),
        probability: k.over(k.minus(num(ONE), c), m),
        mean: mean(k, away),
    }
}

/// The option is at the forward.
pub open spec fn at_forward(g: Goal) -> bool {
    g.away.below(num(K_ZERO_EPS))
}

/// Whether the option is at the forward.
pub fn near_forward(g: &Goal) -> (r: bool)
    ensures
        r == at_forward(*g),
{
    g.away.lt(num(K_ZERO_EPS))
}

/// The quantile is iterated for: the option is valid and not at the forward,
/// and the probability lies strictly between zero and one.
pub open spec fn active(valid: bool, g: Goal) -> bool {
    valid && !at_forward(g) && num(ZERO).below(g.probability) && g.probability.below(num(ONE))
}

/// Whether the quantile is iterated for.
pub fn is_active(valid: bool, g: &Goal) -> (r: bool)
    ensures
        r == active(valid, *g),
{
    valid && !near_forward(g) && g.probability.gt(num(ZERO)) && g.probability.lt(num(ONE))
}

/// One evaluation of the quantile iteration at the total volatility `v`.
pub open spec fn quantile_of<K: Arith>(k: K, g: Goal, v: Double) -> Probe {
    let law = ig_of(k, quot(k, num(FOUR), prod(k, v, v)), g.mean);
    let residual = diff(k, law.cdf, g.probability);
    let slope = larger(prod(k, num(EIGHT), law.pdf), num(TINY));
    let top = prod(k, prod(k, prod(k, residual, v), v), v);
    Probe {
        proposal: sum(k, v, quot(k, top, slope)),
        residual: unsigned(residual),
        allowed: num(RESIDUAL_TOL),
    }
}

/// Newton's method on the distribution function, in the total volatility.
pub struct Quantile<'a, K: Arith> {
    pub machine: &'a K,
}

impl<'a, K: Arith> Stepper for Quantile<'a, K> {
    type Lane = Goal;

    open spec fn dependable(&self) -> bool {
        steady(*self.machine)
    }

    open spec fn found(&self, lane: Goal, sigma: Double) -> Probe {
        quantile_of(*self.machine, lane, sigma)
    }

    open spec fn length(&self, next: Double, sigma: Double) -> Double {
        unsigned(diff(*self.machine, next, sigma))
    }

    fn probe(&self, lane: &Goal, v: Double) -> (r: Probe) {
        let k = self.machine;
        let law = ig_cdf_pdf(k, k.over(num(FOUR), k.times(v, v)), lane.mean);
        let residual = k.minus(law.cdf, lane.probability);
        let slope = k.times(num(EIGHT), law.pdf).max(num(TINY));
        let top = k.times(k.times(k.times(residual, v), v), v);
        let proposal = k.plus(v, k.over(top, slope));
        Probe { proposal, residual: residual.abs(), allowed: num(RESIDUAL_TOL) }
    }

    fn distance(&self, next: Double, sigma: Double) -> (r: Double) {
        self.machine.minus(next, sigma).abs()
    }
}

/// The course of a lane, in total volatility.
pub open spec fn quantile_course<K: Arith>(k: K, g: Goal) -> Course {
    Course {
        bracket: Bracket {
            lo: prod(k, num(VOL_MIN), g.root),
            hi: prod(k, num(VOL_MAX), g.root),
        },
        test: StepTest::AtMost(prod(k, num(SMALL), g.root)),
    }
}

/// Where a lane begins: at the seed of the direct solver.
pub open spec fn quantile_begin<K: Arith>(k: K, q: Quote, g: Goal, valid: bool) -> LaneState {
    let bracket = quantile_course(k, g).bracket;
    LaneState {
        sigma: clamped(prod(k, seed(guess_of(k, q)), g.root), bracket.lo, bracket.hi),
        converged: !active(valid, g),
    }
}

/// Where a lane ends.
pub open spec fn quantile_end<K: Arith>(k: K, q: Quote, g: Goal, valid: bool) -> LaneState {
    lane_after(
        Quantile { machine: &k },
        g,
        quantile_course(k, g),
        quantile_begin(k, q, g, valid),
        MAX_ITERS as nat,
    )
}

/// The volatility that a lane comes to: the probit at the forward, else the
/// quantile over the root of the expiry.
pub open spec fn chosen_of<K: Arith>(k: K, g: Goal, end: LaneState) -> Double {
    if at_forward(g) {
        g.atm
    } else {
        quot(k, end.sigma, g.root)
    }
}

/// What pricing the option at `sigma` brings. The sensitivity is not asked for.
pub open spec fn fit_of<K: Arith>(k: K, q: Quote, sigma: Double) -> Fit {
    Fit {
        residual: unsigned(diff(k, priced_of(k, q, sigma).price, q.price)),
        allowed: sum(
            k,
            prod(k, num(ACCEPT_RELATIVE), unsigned(q.price)),
            prod(k, num(EXPLICIT_ABSOLUTE), scale_of(q)),
        ),
    }
}

/// How far from its premium an option is priced, and how far it may be.
#[derive(Clone, Copy, Debug, PartialEq, Eq, Structural)]
pub struct Fit {
    pub residual: Double,
    pub allowed: Double,
}

/// What pricing the option at `sigma` brings.
pub fn fit<K: Arith>(k: &K, q: &Quote, sigma: Double) -> (r: Fit)
    ensures
        steady(*k) ==> r == fit_of(*k, *q, sigma),
{
    let residual = k.minus(bs_price_vega(k, q, sigma).price, q.price).abs();
    let allowed = k.plus(
        k.times(num(ACCEPT_RELATIVE), q.price.abs()),
        k.times(num(EXPLICIT_ABSOLUTE), scale(q)),
    );
    Fit { residual, allowed }
}

/// The volatility is accepted.
pub open spec fn fitted(valid: bool, converged: bool, sigma: Double, f: Fit) -> bool {
    valid && converged && f.residual.at_most(f.allowed) && well_inside(sigma) && sigma.finite()
}

/// What is reported for a lane: its volatility, or a NaN.
pub open spec fn explicit_reported(valid: bool, converged: bool, sigma: Double, f: Fit) -> Double {
    if fitted(valid, converged, sigma, f) {
        sigma
    } else {
        num(NAN)
    }
}

/// What is reported for a lane.
pub fn accept_explicit(valid: bool, converged: bool, sigma: Double, f: &Fit) -> (r: Double)
    ensures
        r == explicit_reported(valid, converged, sigma, *f),
        nan_or_inside(r),
{
    proof {
        law_fitted_is_inside_or_nan(valid, converged, sigma, *f);
    }
    if valid && converged && f.residual.le(f.allowed) && is_well_inside(sigma)
        && sigma.is_finite() {
        sigma
    } else {
        num(NAN)
    }
}

/// The implied volatility of an option by the explicit formula, or a NaN.
pub open spec fn explicit_of<K: Arith>(k: K, q: Quote) -> Double {
    let valid = admits(q, carry_of(k, q));
    let g = goal_of(k, q);
    let end = quantile_end(k, q, g, valid);
    let sigma = chosen_of(k, g, end);
    explicit_reported(valid, end.converged, sigma, fit_of(k, q, sigma))
}

/// The explicit solver may report `r` for the option.
pub open spec fn explicit_answer<K: Arith>(k: K, q: Quote, r: Double) -> bool {
    &&& steady(k) ==> r == explicit_of(k, q)
    &&& nan_or_inside(r)
    &&& !plausible(q) ==> r == num(NAN)
}

/// A lane set up to be solved.
#[derive(Clone, Copy, Debug)]
pub struct Setup {
    pub valid: bool,
    pub goal: Goal,
    pub course: Course,
    pub begin: LaneState,
}

/// A lane is set up as the explicit solver prescribes.
pub open spec fn explicit_ready<K: Arith>(k: K, q: Quote, live: bool, s: Setup) -> bool {
    &&& s.valid ==> live && plausible(q)
    &&& steady(k) ==> {
        &&& s.valid == (live && admits(q, carry_of(k, q)))
        &&& s.goal == goal_of(k, q)
        &&& s.course == quantile_course(k, s.goal)
        &&& s.begin == quantile_begin(k, q, s.goal, s.valid)
    }
}

/// Sets a lane up.
pub fn prepare<K: Arith>(k: &K, q: &Quote, live: bool) -> (r: Setup)
    ensures
        explicit_ready(*k, *q, live, r),
{
    let c = carry(k, q);
    let valid = live && screen(q, &c);
    let goal = goal(k, q);
    let lo = k.times(num(VOL_MIN), goal.root);
    let hi = k.times(num(VOL_MAX), goal.root);
    let sigma = k.times(initial_guess(k, q), goal.root).clamp(lo, hi);
    let test = StepTest::AtMost(k.times(num(SMALL), goal.root));
    Setup {
        valid,
        goal,
        course: Course { bracket: Bracket { lo, hi }, test },
        begin: LaneState { sigma, converged: !is_active(valid, &goal) },
    }
}

/// Reports a lane that has run its course.
fn explicit_report<K: Arith>(k: &K, q: &Quote, live: bool, s: &Setup, end: LaneState) -> (r: Double)
    requires
        explicit_ready(*k, *q, live, *s),
        steady(*k) ==> end == lane_after(
            (Quantile { machine: k }),
            s.goal,
            s.course,
            s.begin,
            MAX_ITERS as nat,
        ),
    ensures
        live ==> explicit_answer(*k, *q, r),
{
    let sigma = if near_forward(&s.goal) {
        s.goal.atm
    } else {
        k.over(end.sigma, s.goal.root)
    };
    let f = fit(k, q, sigma);
    accept_explicit(s.valid, end.converged, sigma, &f)
}

/// Solves a pack.
pub fn solve_chunk_explicit<K: Arith>(k: &K, pack: Lanes) -> (out: [Double; LANES])
    ensures
        forall|j: int|
            0 <= j < LANES && pack.live[j] ==> explicit_answer(
                *k,
                pack.quote[j],
                #[trigger] out[j],
            ),
{
    let first = prepare(k, &pack.quote[0], pack.live[0]);
    let mut setup: [Setup; LANES] = [first;LANES];
    let mut goals: [Goal; LANES] = [first.goal;LANES];
    let mut courses: [Course; LANES] = [first.course;LANES];
    let mut begin: [LaneState; LANES] = [first.begin;LANES];
    let mut j: usize = 0;
    while j < LANES
        invariant
            j <= LANES,
            forall|i: int|
                0 <= i < j ==> explicit_ready(
                    *k,
                    pack.quote@[i],
                    pack.live@[i],
                    #[trigger] setup@[i],
                ),
            forall|i: int| 0 <= i < j ==> goals@[i] == (#[trigger] setup@[i]).goal,
            forall|i: int| 0 <= i < j ==> courses@[i] == (#[trigger] setup@[i]).course,
            forall|i: int| 0 <= i < j ==> begin@[i] == (#[trigger] setup@[i]).begin,
        decreases LANES - j,
    {
        let s = prepare(k, &pack.quote[j], pack.live[j]);
        setup[j] = s;
        goals[j] = s.goal;
        courses[j] = s.course;
        begin[j] = s.begin;
        j += 1;
    }
    let quantile = Quantile { machine: k };
    let end = iterate(&quantile, &goals, &courses, &begin, MAX_ITERS);
    let mut out: [Double; LANES] = [num(NAN);LANES];
    j = 0;
    while j < LANES
        invariant
            j <= LANES,
            quantile == (Quantile { machine: k }),
            forall|i: int|
                0 <= i < LANES ==> explicit_ready(
                    *k,
                    pack.quote@[i],
                    pack.live@[i],
                    #[trigger] setup@[i],
                ),
            forall|i: int| 0 <= i < LANES ==> goals@[i] == (#[trigger] setup@[i]).goal,
            forall|i: int| 0 <= i < LANES ==> courses@[i] == (#[trigger] setup@[i]).course,
            forall|i: int| 0 <= i < LANES ==> begin@[i] == (#[trigger] setup@[i]).begin,
            steady(*k) ==> forall|i: int|
                0 <= i < LANES ==> #[trigger] end@[i] == lane_after(
                    quantile,
                    goals@[i],
                    courses@[i],
                    begin@[i],
                    MAX_ITERS as nat,
                ),
            forall|i: int|
                0 <= i < j && pack.live@[i] ==> explicit_answer(
                    *k,
                    pack.quote@[i],
                    #[trigger] out@[i],
                ),
        decreases LANES - j,
    {
        let ghost s = setup@[j as int];
        assert(steady(*k) ==> end@[j as int] == lane_after(
            quantile,
            s.goal,
            s.course,
            s.begin,
            MAX_ITERS as nat,
        ));
        out[j] = explicit_report(k, &pack.quote[j], pack.live[j], &setup[j], end[j]);
        j += 1;
    }
    out
}

/// The explicit solver may report `out` for the batch.
pub open spec fn explicit_batch<K: Arith>(k: K, columns: Columns, out: Seq<Double>) -> bool {
    &&& out.len() == columns.size()
    &&& forall|i: int|
        0 <= i < out.len() ==> explicit_answer(k, columns.row(i), #[trigger] out[i])
}

/// Implied volatilities of a batch by the explicit formula. Each result is the
/// implied volatility of its option, or a NaN.
pub fn implied_vol_explicit<K: Arith>(
    k: &K,
    spot: &[Double],
    strike: &[Double],
    tte: &[Double],
    rate: &[Double],
    price: &[Double],
    kind: &[OptionKind],
) -> (out: Vec<Double>)
    requires
        table(spot, strike, tte, rate, price, kind).matched(),
    ensures
        explicit_batch(*k, table(spot, strike, tte, rate, price, kind), out@),
{
    let columns = Columns { spot, strike, tte, rate, price, kind };
    let solve = |pack: Lanes| -> (lanes: [Double; LANES])
        ensures
            forall|j: int|
                0 <= j < LANES && pack.live[j] ==> explicit_answer(
                    *k,
                    pack.quote[j],
                    #[trigger] lanes[j],
                ),
        { solve_chunk_explicit(k, pack) };
    let out = map_packs(&columns, num(ONE), solve);
    proof {
        assert forall|i: int| 0 <= i < out@.len() implies explicit_answer(
            *k,
            columns.row(i),
            #[trigger] out@[i],
        ) by {
            assert(lane_result(solve, columns.row(i), out@[i]));
        }
    }
    out
}

/// The implied volatility of one option by the explicit formula, or a NaN.
pub fn implied_vol_explicit_one<K: Arith>(
    k: &K,
    spot: Double,
    strike: Double,
    tte: Double,
    rate: Double,
    price: Double,
    kind: OptionKind,
) -> (r: Double)
    ensures
        explicit_answer(*k, quote_of(spot, strike, tte, rate, price, kind), r),
{
    let s: [Double; 1] = [spot];
    let x: [Double; 1] = [strike];
    let t: [Double; 1] = [tte];
    let y: [Double; 1] = [rate];
    let p: [Double; 1] = [price];
    let c: [OptionKind; 1] = [kind];
    let out = implied_vol_explicit(k, &s, &x, &t, &y, &p, &c);
    proof {
        let columns = table(&s, &x, &t, &y, &p, &c);
        assert(columns.row(0) == quote_of(spot, strike, tte, rate, price, kind));
        assert(explicit_answer(*k, columns.row(0), out@[0]));
    }
    out[0]
}

/// What has no implied volatility for the direct solver has none here.
pub proof fn law_explicit_screened_out_is_nan<K: Arith>(k: K, q: Quote)
    requires
        !admits(q, carry_of(k, q)),
    ensures
        explicit_of(k, q) == num(NAN),
{
}

/// What is reported is a NaN, or a finite volatility strictly between `VOL_MIN`
/// and `VOL_MAX`; it is a NaN exactly when the lane is not accepted.
pub proof fn law_fitted_is_inside_or_nan(valid: bool, converged: bool, sigma: Double, f: Fit)
    ensures
        nan_or_inside(explicit_reported(valid, converged, sigma, f)),
        explicit_reported(valid, converged, sigma, f).nan() <==> !fitted(
            valid,
            converged,
            sigma,
            f,
        ),
{
    let end = LaneState { sigma, converged: true };
    law_order_is_encoding_order(num(ZERO), num(ONE));
    law_reported_is_inside_or_nan(
        true,
        end,
        Evidence {
            residual: num(ZERO),
            allowed: num(ONE),
            vega: num(ONE),
            vega_floor: num(ZERO),
        },
    );
}

/// At the forward the probit is what is reported, and no iteration takes part
/// in it: the lane is masked from the start and ends where it began.
pub proof fn law_forward_takes_probit<K: Arith>(k: K, q: Quote, valid: bool)
    requires
        at_forward(goal_of(k, q)),
    ensures
        quantile_end(k, q, goal_of(k, q), valid) == quantile_begin(k, q, goal_of(k, q), valid),
        chosen_of(k, goal_of(k, q), quantile_end(k, q, goal_of(k, q), valid)) == goal_of(
            k,
            q,
        ).atm,
{
    let g = goal_of(k, q);
    law_converged_lane_is_frozen(
        Quantile { machine: &k },
        g,
        quantile_course(k, g),
        quantile_begin(k, q, g, valid),
        0,
        MAX_ITERS as nat,
    );
}

/// An implied volatility prices back: where a volatility is reported, the price
/// at it is within the accepted distance of the premium.
pub proof fn law_explicit_prices_back<K: Arith>(k: K, q: Quote)
    requires
        explicit_of(k, q) != num(NAN),
    ensures
        admits(q, carry_of(k, q)),
        fit_of(k, q, explicit_of(k, q)).residual.at_most(
            fit_of(k, q, explicit_of(k, q)).allowed,
        ),
{
}

/// An option gets from a batch what it gets on its own, wherever it stands in
/// the batch and whatever stands beside it.
pub proof fn law_explicit_batch_equals_one<K: Arith>(
    k: K,
    columns: Columns,
    out: Seq<Double>,
    i: int,
    one: Double,
)
    requires
        steady(k),
        explicit_batch(k, columns, out),
        0 <= i < out.len(),
        explicit_answer(k, columns.row(i), one),
    ensures
        out[i] == one,
{
    assert(explicit_answer(k, columns.row(i), out[i]));
}

/// An option is at the forward within `1e-7`; the quantile is met within `1e-13`, and
/// the premium within `1e-10` of the size of the option.
pub proof fn law_explicit_thresholds()
    ensures
        rounds(num(K_ZERO_EPS), 1, 10000000),
        rounds(num(RESIDUAL_TOL), 1, 10000000000000),
        rounds(num(EXPLICIT_ABSOLUTE), 1, 10000000000),
{
    lemma2_to64();
    lemma2_to64_rest();
    lemma_pow2_two_words(12);
    lemma_pow2_two_words(22);
    lemma_pow2_two_words(32);
    lemma_rounds(num(K_ZERO_EPS), 999, 7555786372591432, 75557863725914323419136int, 1, 10000000);
    lemma_rounds(num(RESIDUAL_TOL), 979, 7922816251426434, 79228162514264337593543950336int, 1, 10000000000000);
    lemma_rounds(num(EXPLICIT_ABSOLUTE), 989, 7737125245533627, 77371252455336267181195264int, 1, 10000000000);
}

/// The closed form serves an option exactly when it is closer than `1e-7` to the
/// forward, and then alone: such a lane begins converged and comes to the probit.
/// Every other valid option with a probability strictly inside the unit interval
/// begins its quantile iteration unmasked, and comes to where that ends, over the
/// root of the expiry.
pub proof fn law_probit_only_at_the_forward<K: Arith>(
    k: K,
    q: Quote,
    g: Goal,
    valid: bool,
    end: LaneState,
)
    ensures
        g.away.below(num(0x3E7A_D7F2_9ABC_AF48)) ==> {
            &&& quantile_begin(k, q, g, valid).converged
            &&& chosen_of(k, g, end) == g.atm
        },
        !g.away.below(num(0x3E7A_D7F2_9ABC_AF48)) ==> {
            &&& chosen_of(k, g, end) == quot(k, end.sigma, g.root)
            &&& quantile_begin(k, q, g, valid).converged <==> !(valid && num(0).below(
                g.probability,
            ) && g.probability.below(num(ONE)))
        },
        num(0x3E7A_D7F2_9ABC_AF48).at_most(g.away) && valid && num(0).below(g.probability)
            && g.probability.below(num(ONE)) ==> !quantile_begin(k, q, g, valid).converged,
        rounds(num(0x3E7A_D7F2_9ABC_AF48), 1, 10000000),
{
    law_explicit_thresholds();
}

/// What is sought for an option. Its distance from the forward is that of the
/// logarithm of strike over forward from zero, where the forward is the spot over
/// the discount factor. The probability is what the call of the same terms leaves
/// of the spot, over one above the forward and over the ratio of strike to
/// forward elsewhere; the probit is twice the abscissa of the half of one plus
/// that call, over the root of the expiry.
pub proof fn law_goal_is_read_off_the_terms<K: Arith>(k: K, q: Quote)
    ensures
        ({
            let g = goal_of(k, q);
            let forward = quot(k, q.spot, exp_of(k, prod(k, flipped(q.rate), q.tte)));
            let log = ln_of(k, quot(k, q.strike, forward));
            let ratio = exp_of(k, log);
            let part = quot(k, q.price, q.spot);
            let call = if q.is_call {
                part
            } else {
                diff(k, sum(k, part, num(ONE)), ratio)
            };
            let middle = prod(k, sum(k, call, num(ONE)), num(HALF));
            &&& g.root == sqrt_of(k, q.tte)
            &&& g.away == unsigned(log)
            &&& num(0).below(log) ==> g.probability == quot(
                k,
                diff(k, num(ONE), call),
                num(ONE),
            )
            &&& !num(0).below(log) ==> g.probability == quot(k, diff(k, num(ONE), call), ratio)
            &&& g.atm == quot(
                k,
                prod(k, num(TWO), phi_inv_of(k, middle)),
                sqrt_of(k, q.tte),
            )
            &&& g.mean == mean_of(k, g.away)
        }),
{
}

/// A put seeks what the call seeks that parity makes of it: where the call costs,
/// over the spot, one more than the put less the ratio of strike to forward, the
/// two have one goal.
pub proof fn law_put_seeks_what_call_seeks<K: Arith>(k: K, call: Quote, put: Quote)
    requires
        call.is_call,
        put == (Quote { is_call: false, price: put.price, ..call }),
        quot(k, call.price, call.spot) == diff(
            k,
            sum(k, quot(k, put.price, call.spot), num(ONE)),
            exp_of(
                k,
                ln_of(
                    k,
                    quot(
                        k,
                        call.strike,
                        quot(k, call.spot, exp_of(k, prod(k, flipped(call.rate), call.tte))),
                    ),
                ),
            ),
        ),
    ensures
        goal_of(k, put) == goal_of(k, call),
{
}

/// The mean of the law is two over the distance from the forward; a distance
/// below `1e-12` counts as that, and a mean above `1e12` as that.
pub proof fn law_mean_is_two_over_distance<K: Arith>(k: K, away: Double)
    ensures
        ({
            let least = if num(SMALL).at_most(away) {
                away
            } else {
                num(SMALL)
            };
            let mean = quot(k, num(TWO), least);
            &&& mean.at_most(num(HUGE)) ==> mean_of(k, away) == mean
            &&& !mean.at_most(num(HUGE)) ==> mean_of(k, away) == num(HUGE)
        }),
{
}

/// The law at `x`: its distribution is one less the difference of two tails of
/// the normal law, at `-sqrt(x)/mu + 1/sqrt(x)` and, weighted by `exp(2/mu)`, at
/// `-sqrt(x)/mu - 1/sqrt(x)`; its density is `exp(-(x - mu)^2 / (2 mu^2 x))` over
/// the root of `2 pi x^3`.
pub proof fn law_inverse_gaussian_by_two_tails<K: Arith>(k: K, x: Double, mu: Double)
    ensures
        ({
            let down = flipped(quot(k, sqrt_of(k, x), mu));
            let up = quot(k, num(ONE), sqrt_of(k, x));
            let near = phi_hart_of(k, sum(k, down, up));
            let far = phi_hart_of(k, diff(k, down, up));
            let weight = exp_of(k, quot(k, num(TWO), mu));
            let spread = diff(k, x, mu);
            let top = flipped(prod(k, spread, spread));
            let bottom = prod(k, prod(k, prod(k, num(TWO), mu), mu), x);
            let cube = prod(k, prod(k, prod(k, num(TWO_PI), x), x), x);
            &&& ig_of(k, x, mu).cdf == diff(
                k,
                num(ONE),
                diff(k, near, prod(k, weight, far)),
            )
            &&& ig_of(k, x, mu).pdf == quot(k, exp_of(k, quot(k, top, bottom)), sqrt_of(k, cube))
        }),
{
}

/// One step of the quantile iteration at the total volatility `v`: the law is
/// taken at `4 / v^2`, and `v` moves by how far it is off the probability, times
/// `v^3` over eight densities. It has converged within `1e-13`.
pub proof fn law_quantile_step<K: Arith>(k: K, g: Goal, v: Double)
    ensures
        ({
            let law = ig_of(k, quot(k, num(FOUR), prod(k, v, v)), g.mean);
            let off = diff(k, law.cdf, g.probability);
            let eight = prod(k, num(EIGHT), law.pdf);
            let slope = if num(TINY).at_most(eight) {
                eight
            } else {
                num(TINY)
            };
            let cube = prod(k, prod(k, prod(k, off, v), v), v);
            let found = quantile_of(k, g, v);
            &&& found.proposal == sum(k, v, quot(k, cube, slope))
            &&& found.residual == unsigned(off)
            &&& found.allowed == num(RESIDUAL_TOL)
        }),
{
}

/// A total volatility at which the law meets the probability is where the
/// quantile iteration rests.
pub proof fn law_quantile_is_at_rest<K: Arith>(k: K, g: Goal, v: Double)
    requires
        neutral(k),
        g.probability.finite(),
        ig_of(k, quot(k, num(FOUR), prod(k, v, v)), g.mean).cdf == g.probability,
        v.finite() && num(0).below(v),
    ensures
        quantile_of(k, g, v).proposal == v,
        is_zero(quantile_of(k, g, v).residual),
{
    let law = ig_of(k, quot(k, num(FOUR), prod(k, v, v)), g.mean);
    let off = diff(k, law.cdf, g.probability);
    let slope = larger(prod(k, num(EIGHT), law.pdf), num(TINY));
    law_order_is_encoding_order(num(0), num(TINY));
    law_order_is_encoding_order(num(0), slope);
    law_order_is_encoding_order(num(TINY), slope);
    law_order_is_encoding_order(num(0), v);
    assert(is_zero(off));
    let one = prod(k, off, v);
    let two = prod(k, one, v);
    let three = prod(k, two, v);
    assert(is_zero(one));
    assert(is_zero(two));
    assert(is_zero(three));
    assert(!is_zero(slope) && !slope.nan());
    assert(is_zero(quot(k, three, slope)));
    assert(!is_zero(v));
}

/// The quantile is sought between the total volatilities of `0.01` and `5`, from
/// that of the direct solver's starting volatility.
pub proof fn law_quantile_course_in_total_volatility<K: Arith>(
    k: K,
    q: Quote,
    g: Goal,
    valid: bool,
)
    ensures
        ({
            let lo = prod(k, num(VOL_MIN), g.root);
            let hi = prod(k, num(VOL_MAX), g.root);
            let from = prod(k, seed(guess_of(k, q)), g.root);
            let begin = quantile_begin(k, q, g, valid);
            &&& quantile_course(k, g).bracket.lo == lo
            &&& quantile_course(k, g).bracket.hi == hi
            &&& quantile_course(k, g).test == StepTest::AtMost(prod(k, num(SMALL), g.root))
            &&& lo.at_most(from) && from.at_most(hi) ==> begin.sigma == from
            &&& lo.at_most(hi) && from.below(lo) ==> begin.sigma == lo
            &&& lo.at_most(hi) && hi.below(from) ==> begin.sigma == hi
        }),
{
}

/// What the explicit solver answers, from end to end: the probit at the forward,
/// the quantile after at most 32 steps elsewhere, and exactly when the option is
/// taken up, the lane has converged, the price there is the premium but for
/// `1e-7` of it and `1e-10` of the size of the option, and the volatility keeps
/// clear of the ends of the range. Every other option gets a NaN.
pub proof fn law_explicit_answer_prices_back<K: Arith>(k: K, q: Quote, r: Double)
    requires
        steady(k),
        explicit_answer(k, q, r),
    ensures
        ({
            let g = goal_of(k, q);
            let valid = admits(q, carry_of(k, q));
            let end = lane_after(
                Quantile { machine: &k },
                g,
                quantile_course(k, g),
                quantile_begin(k, q, g, valid),
                32,
            );
            let sigma = if g.away.below(num(K_ZERO_EPS)) {
                g.atm
            } else {
                quot(k, end.sigma, g.root)
            };
            let off = unsigned(diff(k, priced_of(k, q, sigma).price, q.price));
            let allowed = sum(
                k,
                prod(k, num(ACCEPT_RELATIVE), unsigned(q.price)),
                prod(k, num(EXPLICIT_ABSOLUTE), scale_of(q)),
            );
            let good = {
                &&& valid && end.converged
                &&& off.at_most(allowed)
                &&& num(VOL_MIN_INSIDE).below(sigma) && sigma.below(num(VOL_MAX_INSIDE))
            };
            r == if good {
                sigma
            } else {
                num(NAN)
            }
        }),
{
    lemma_inside_is_finite();
}

/// What keeps clear of the ends of the range is finite.
proof fn lemma_inside_is_finite()
    ensures
        forall|sigma: Double| #[trigger]
            num(VOL_MIN_INSIDE).below(sigma) && sigma.below(num(VOL_MAX_INSIDE))
                ==> sigma.finite(),
{
    assert forall|sigma: Double| #[trigger]
        num(VOL_MIN_INSIDE).below(sigma) && sigma.below(num(VOL_MAX_INSIDE)) implies sigma.finite() by {
        law_order_is_encoding_order(num(VOL_MIN_INSIDE), sigma);
        law_order_is_encoding_order(sigma, num(VOL_MAX_INSIDE));
    }
}

} // verus!
