//! The direct solver: Newton's method on the option price.
//!
//! A lane is screened against the no-arbitrage bounds, started from a closed
//! form, iterated inside `[VOL_MIN, VOL_MAX]`, and accepted only when its final
//! iterate prices back to the premium. Whatever fails on the way is a NaN.
use crate::arith::{
    diff, exp_of, is_zero, ln_of, neutral, prod, quot, sqrt_of, steady, sum, Arith,
};
use crate::constants::{HALF, ONE, PI, SMALL, TINY, TWO_PI, ZERO};
use crate::double::{
    clamped, encodes_finite, encodes_positive, equals, flipped, larger, law_clamp_lands_in_bracket,
    law_encoding_tells_kinds, law_order_is_encoding_order, lemma_pow2_two_words, lemma_rounds, num,
    rounds, unsigned, Double, NAN,
};
use crate::iterate::{
    iterate, lane_after, law_iterates_stay_in_bracket, Bracket, Course, LaneState, Probe, StepTest,
    Stepper,
};
use crate::kind::OptionKind;
use crate::lanes::{lane_result, map_packs, table, Columns, Lanes, Quote, LANES};
use crate::norm::{pdf_of, phi_hart, phi_hart_of, phi_pdf};
use vstd::arithmetic::power2::{lemma2_to64, lemma2_to64_rest};
use vstd::prelude::*;

verus! {

/// `0.01`, the lower end of the volatilities that are reported.
pub const VOL_MIN: u64 = 0x3F84_7AE1_47AE_147B;

/// `5.0`, the upper end of the volatilities that are reported.
pub const VOL_MAX: u64 = 0x4014_0000_0000_0000;

/// `0.01 * 1.0000001`: a solution must lie above.
pub const VOL_MIN_INSIDE: u64 = 0x3F84_7AE1_6A0A_2C4C;

/// `5.0 * 0.9999999`: a solution must lie below.
pub const VOL_MAX_INSIDE: u64 = 0x4013_FFFF_DE72_10BF;

/// `1e-12`, the step below which a lane has converged.
pub const TOL: u64 = 0x3D71_9799_812D_EA11;

/// `1e-7`, the relative part of the distance that an accepted lane may have
/// from its premium.
pub const ACCEPT_RELATIVE: u64 = 0x3E7A_D7F2_9ABC_AF48;

/// `1e-13`, the part of that distance that goes with the size of the option.
pub const ACCEPT_ABSOLUTE: u64 = 0x3D3C_25C2_6849_7682;

/// Cap on the number of Newton steps.
pub const MAX_ITERS: usize = 32;

/// The discounted strike of an option, and its distances from the spot.
#[derive(Clone, Copy, Debug, PartialEq, Eq, Structural)]
pub struct Carry {
    /// The discounted strike.
    pub strike: Double,
    /// Spot less discounted strike.
    pub call: Double,
    /// Discounted strike less spot.
    pub put: Double,
}

/// The closed-form starting points of an option.
#[derive(Clone, Copy, Debug, PartialEq, Eq, Structural)]
pub struct Guess {
    /// The rational approximation, which fails far from the money.
    pub rational: Double,
    /// The at-the-money rule.
    pub atm: Double,
}

/// The price of an option at some volatility, its sensitivity to it, and the
/// two arguments of the cumulative normal in it.
#[derive(Clone, Copy, Debug, PartialEq, Eq, Structural)]
pub struct Priced {
    pub price: Double,
    pub vega: Double,
    pub d1: Double,
    pub d2: Double,
}

/// What pricing an option at its final iterate brings.
#[derive(Clone, Copy, Debug, PartialEq, Eq, Structural)]
pub struct Evidence {
    /// Distance between the price and the premium.
    pub residual: Double,
    /// The distance that still passes.
    pub allowed: Double,
    /// Sensitivity of the price to the volatility.
    pub vega: Double,
    /// The sensitivity that must be exceeded.
    pub vega_floor: Double,
}

/// The discount factor of the option.
pub open spec fn discount_of<K: Arith>(k: K, q: Quote) -> Double {
    exp_of(k, prod(k, flipped(q.rate), q.tte))
}

/// The discount factor of the option.
pub fn discount<K: Arith>(k: &K, q: &Quote) -> (r: Double)
    ensures
        steady(*k) ==> r == discount_of(*k, *q),
{
    k.exp(k.times(q.rate.neg(), q.tte))
}

/// The price of the option at the volatility `sigma`. A put is priced from the
/// call by parity.
pub open spec fn priced_of<K: Arith>(k: K, q: Quote, sigma: Double) -> Priced {
    let root = sqrt_of(k, q.tte);
    let vol = prod(k, sigma, root);
    let growth = sum(k, q.rate, prod(k, prod(k, num(HALF), sigma), sigma));
    let d1 = quot(
        k,
        sum(k, ln_of(k, quot(k, q.spot, q.strike)), prod(k, growth, q.tte)),
        vol,
    );
    let d2 = diff(k, d1, vol);
    let strike = prod(k, q.strike, discount_of(k, q));
    let call = diff(
        k,
        prod(k, q.spot, phi_hart_of(k, d1)),
        prod(k, strike, phi_hart_of(k, d2)),
    );
    let put = sum(k, diff(k, call, q.spot), strike);
    Priced {
        price: if q.is_call {
            call
        } else {
            put
        },
        vega: prod(k, prod(k, q.spot, pdf_of(k, d1)), root),
        d1,
        d2,
    }
}

/// Prices the option at the volatility `sigma`.
pub fn bs_price_vega<K: Arith>(k: &K, q: &Quote, sigma: Double) -> (r: Priced)
    ensures
        steady(*k) ==> r == priced_of(*k, *q, sigma),
{
    let root = k.sqrt(q.tte);
    let vol = k.times(sigma, root);
    let df = discount(k, q);
    let moneyness = k.ln(k.over(q.spot, q.strike));
    let growth = k.plus(q.rate, k.times(k.times(num(HALF), sigma), sigma));
    let d1 = k.over(k.plus(moneyness, k.times(growth, q.tte)), vol);
    let d2 = k.minus(d1, vol);
    let strike = k.times(q.strike, df);
    let call = k.minus(k.times(q.spot, phi_hart(k, d1)), k.times(strike, phi_hart(k, d2)));
    let price = if q.is_call {
        call
    } else {
        k.plus(k.minus(call, q.spot), strike)
    };
    let vega = k.times(k.times(q.spot, phi_pdf(k, d1)), root);
    Priced { price, vega, d1, d2 }
}

/// The discounted strike, and its distances from the spot.
pub open spec fn carry_of<K: Arith>(k: K, q: Quote) -> Carry {
    let strike = prod(k, q.strike, discount_of(k, q));
    Carry { strike, call: diff(k, q.spot, strike), put: diff(k, strike, q.spot) }
}

/// The discounted strike, and its distances from the spot.
pub fn carry<K: Arith>(k: &K, q: &Quote) -> (r: Carry)
    ensures
        steady(*k) ==> r == carry_of(*k, *q),
{
    let strike = k.times(q.strike, discount(k, q));
    Carry { strike, call: k.minus(q.spot, strike), put: k.minus(strike, q.spot) }
}

/// The least price of the option: its intrinsic value.
pub open spec fn lower_bound(q: Quote, c: Carry) -> Double {
    larger(
        if q.is_call {
            c.call
        } else {
            c.put
        },
        num(ZERO),
    )
}

/// The price that the option cannot reach.
pub open spec fn upper_bound(q: Quote, c: Carry) -> Double {
    if q.is_call {
        q.spot
    } else {
        c.strike
    }
}

/// All terms of the option are finite numbers.
pub open spec fn finite_terms(q: Quote) -> bool {
    q.spot.finite() && q.strike.finite() && q.tte.finite() && q.rate.finite() && q.price.finite()
}

/// Greater than zero.
pub open spec fn positive(x: Double) -> bool {
    num(ZERO).below(x)
}

/// Finite terms, and positive spot, strike and expiry.
pub open spec fn plausible(q: Quote) -> bool {
    finite_terms(q) && positive(q.spot) && positive(q.strike) && positive(q.tte)
}

/// The option has an implied volatility: plausible terms, and a premium
/// strictly between the bounds.
pub open spec fn admits(q: Quote, c: Carry) -> bool {
    plausible(q) && lower_bound(q, c).below(q.price) && q.price.below(upper_bound(q, c))
}

/// The least price of the option: its intrinsic value.
pub fn intrinsic(q: &Quote, c: &Carry) -> (r: Double)
    ensures
        r == lower_bound(*q, *c),
{
    if q.is_call {
        c.call.max(num(ZERO))
    } else {
        c.put.max(num(ZERO))
    }
}

/// The price that the option cannot reach.
pub fn cap_price(q: &Quote, c: &Carry) -> (r: Double)
    ensures
        r == upper_bound(*q, *c),
{
    if q.is_call {
        q.spot
    } else {
        c.strike
    }
}

/// Whether all terms of the option are finite numbers.
pub fn all_finite(q: &Quote) -> (r: bool)
    ensures
        r == finite_terms(*q),
{
    q.spot.is_finite() && q.strike.is_finite() && q.tte.is_finite() && q.rate.is_finite()
        && q.price.is_finite()
}

/// Whether the number is greater than zero.
pub fn is_positive(x: Double) -> (r: bool)
    ensures
        r == positive(x),
{
    num(ZERO).lt(x)
}

/// Whether the option has an implied volatility.
pub fn screen(q: &Quote, c: &Carry) -> (r: bool)
    ensures
        r == admits(*q, *c),
{
    all_finite(q) && is_positive(q.spot) && is_positive(q.strike) && is_positive(q.tte)
        && intrinsic(q, c).lt(q.price) && q.price.lt(cap_price(q, c))
}

/// The price of the call with the same terms, which a put has by parity.
pub open spec fn call_price_of<K: Arith>(k: K, q: Quote, strike: Double) -> Double {
    if q.is_call {
        q.price
    } else {
        diff(k, sum(k, q.price, q.spot), strike)
    }
}

/// The closed-form starting points. Where the discriminant is below zero, zero
/// takes its place.
pub open spec fn guess_of<K: Arith>(k: K, q: Quote) -> Guess {
    let strike = prod(k, q.strike, discount_of(k, q));
    let c = call_price_of(k, q, strike);
    let skew = diff(k, q.spot, strike);
    let a = diff(k, c, prod(k, num(HALF), skew));
    let disc = larger(diff(k, prod(k, a, a), quot(k, prod(k, skew, skew), num(PI))), num(ZERO));
    let scale = sqrt_of(k, quot(k, num(TWO_PI), q.tte));
    Guess {
        rational: prod(k, quot(k, scale, sum(k, q.spot, strike)), sum(k, a, sqrt_of(k, disc))),
        atm: quot(k, prod(k, scale, c), q.spot),
    }
}

/// The closed-form starting points of the option.
pub fn guess<K: Arith>(k: &K, q: &Quote) -> (r: Guess)
    ensures
        steady(*k) ==> r == guess_of(*k, *q),
{
    let strike = k.times(q.strike, discount(k, q));
    let c = if q.is_call {
        q.price
    } else {
        k.minus(k.plus(q.price, q.spot), strike)
    };
    let skew = k.minus(q.spot, strike);
    let a = k.minus(c, k.times(num(HALF), skew));
    let disc = k.minus(k.times(a, a), k.over(k.times(skew, skew), num(PI))).max(num(ZERO));
    let scale = k.sqrt(k.over(num(TWO_PI), q.tte));
    let rational = k.times(k.over(scale, k.plus(q.spot, strike)), k.plus(a, k.sqrt(disc)));
    let atm = k.over(k.times(scale, c), q.spot);
    Guess { rational, atm }
}

/// Finite and greater than zero.
pub open spec fn usable(x: Double) -> bool {
    x.finite() && positive(x)
}

/// The starting volatility: the first usable guess, or one half, kept in the
/// bracket.
pub open spec fn seed(g: Guess) -> Double {
    clamped(
        if usable(g.rational) {
            g.rational
        } else if usable(g.atm) {
            g.atm
        } else {
            num(HALF)
        },
        num(VOL_MIN),
        num(VOL_MAX),
    )
}

/// The starting volatility of the option.
pub fn initial_guess<K: Arith>(k: &K, q: &Quote) -> (r: Double)
    ensures
        steady(*k) ==> r == seed(guess_of(*k, *q)),
        bracketed(r),
{
    let g = guess(k, q);
    let raw = if g.rational.is_finite() && is_positive(g.rational) {
        g.rational
    } else if g.atm.is_finite() && is_positive(g.atm) {
        g.atm
    } else {
        num(HALF)
    };
    proof {
        law_seed_in_bracket(g);
    }
    raw.clamp(num(VOL_MIN), num(VOL_MAX))
}

/// The size of an option: the largest magnitude of premium, spot and strike.
pub open spec fn scale_of(q: Quote) -> Double {
    larger(larger(unsigned(q.price), unsigned(q.spot)), unsigned(q.strike))
}

/// The size of an option.
pub fn scale(q: &Quote) -> (r: Double)
    ensures
        r == scale_of(*q),
{
    q.price.abs().max(q.spot.abs()).max(q.strike.abs())
}

/// One evaluation of Newton's method at `sigma`.
pub open spec fn newton_of<K: Arith>(k: K, q: Quote, sigma: Double) -> Probe {
    let at = priced_of(k, q, sigma);
    let residual = diff(k, at.price, q.price);
    Probe {
        proposal: diff(k, sigma, quot(k, residual, larger(at.vega, num(TINY)))),
        residual: unsigned(residual),
        allowed: sum(
            k,
            prod(k, num(SMALL), scale_of(q)),
            prod(k, num(SMALL), unsigned(q.price)),
        ),
    }
}

/// Newton's method on the price.
pub struct Newton<'a, K: Arith> {
    pub machine: &'a K,
}

impl<'a, K: Arith> Stepper for Newton<'a, K> {
    type Lane = Quote;

    open spec fn dependable(&self) -> bool {
        steady(*self.machine)
    }

    open spec fn found(&self, lane: Quote, sigma: Double) -> Probe {
        newton_of(*self.machine, lane, sigma)
    }

    open spec fn length(&self, next: Double, sigma: Double) -> Double {
        unsigned(diff(*self.machine, next, sigma))
    }

    fn probe(&self, lane: &Quote, sigma: Double) -> (r: Probe) {
        let k = self.machine;
        let at = bs_price_vega(k, lane, sigma);
        let residual = k.minus(at.price, lane.price);
        let proposal = k.minus(sigma, k.over(residual, at.vega.max(num(TINY))));
        let allowed = k.plus(
            k.times(num(SMALL), scale(lane)),
            k.times(num(SMALL), lane.price.abs()),
        );
        Probe { proposal, residual: residual.abs(), allowed }
    }

    fn distance(&self, next: Double, sigma: Double) -> (r: Double) {
        self.machine.minus(next, sigma).abs()
    }
}

/// What pricing the option at `sigma` brings.
pub open spec fn evidence_of<K: Arith>(k: K, q: Quote, sigma: Double) -> Evidence {
    let at = priced_of(k, q, sigma);
    Evidence {
        residual: unsigned(diff(k, at.price, q.price)),
        allowed: sum(
            k,
            prod(k, num(ACCEPT_RELATIVE), unsigned(q.price)),
            prod(k, num(ACCEPT_ABSOLUTE), scale_of(q)),
        ),
        vega: at.vega,
        vega_floor: prod(k, num(SMALL), scale_of(q)),
    }
}

/// What pricing the option at `sigma` brings.
pub fn evidence<K: Arith>(k: &K, q: &Quote, sigma: Double) -> (r: Evidence)
    ensures
        steady(*k) ==> r == evidence_of(*k, *q, sigma),
{
    let at = bs_price_vega(k, q, sigma);
    let residual = k.minus(at.price, q.price).abs();
    let size = scale(q);
    let allowed = k.plus(
        k.times(num(ACCEPT_RELATIVE), q.price.abs()),
        k.times(num(ACCEPT_ABSOLUTE), size),
    );
    Evidence { residual, allowed, vega: at.vega, vega_floor: k.times(num(SMALL), size) }
}

/// The volatility lies in `[VOL_MIN, VOL_MAX]`.
pub open spec fn bracketed(x: Double) -> bool {
    num(VOL_MIN).at_most(x) && x.at_most(num(VOL_MAX))
}

/// The volatility lies inside, clear of both ends.
pub open spec fn well_inside(x: Double) -> bool {
    num(VOL_MIN_INSIDE).below(x) && x.below(num(VOL_MAX_INSIDE))
}

/// Whether the volatility lies inside, clear of both ends.
pub fn is_well_inside(x: Double) -> (r: bool)
    ensures
        r == well_inside(x),
{
    num(VOL_MIN_INSIDE).lt(x) && x.lt(num(VOL_MAX_INSIDE))
}

/// The final iterate is accepted as the implied volatility.
pub open spec fn accepted(valid: bool, end: LaneState, e: Evidence) -> bool {
    &&& valid && end.converged
    &&& e.residual.at_most(e.allowed)
    &&& well_inside(end.sigma)
    &&& e.vega_floor.below(e.vega)
}

/// What is reported for a lane: its final iterate, or a NaN.
pub open spec fn reported(valid: bool, end: LaneState, e: Evidence) -> Double {
    if accepted(valid, end, e) {
        end.sigma
    } else {
        num(NAN)
    }
}

/// A NaN, or a finite volatility strictly between `VOL_MIN` and `VOL_MAX`.
pub open spec fn nan_or_inside(x: Double) -> bool {
    x == num(NAN) || x.finite() && num(VOL_MIN).below(x) && x.below(num(VOL_MAX))
}

/// What is reported for a lane.
pub fn accept(valid: bool, end: LaneState, e: &Evidence) -> (r: Double)
    ensures
        r == reported(valid, end, *e),
        nan_or_inside(r),
{
    proof {
        law_reported_is_inside_or_nan(valid, end, *e);
    }
    if valid && end.converged && e.residual.le(e.allowed) && is_well_inside(end.sigma)
        && e.vega_floor.lt(e.vega) {
        end.sigma
    } else {
        num(NAN)
    }
}

/// The course of a lane of the direct solver.
pub open spec fn direct_course() -> Course {
    Course {
        bracket: Bracket { lo: num(VOL_MIN), hi: num(VOL_MAX) },
        test: StepTest::Below(num(TOL)),
    }
}

/// Where a lane of the direct solver begins: at its seed, and out of the
/// iteration unless it is valid.
pub open spec fn direct_begin<K: Arith>(k: K, q: Quote, valid: bool) -> LaneState {
    LaneState { sigma: seed(guess_of(k, q)), converged: !valid }
}

/// Where a lane of the direct solver ends.
pub open spec fn direct_end<K: Arith>(k: K, q: Quote, valid: bool) -> LaneState {
    lane_after(
        Newton { machine: &k },
        q,
        direct_course(),
        direct_begin(k, q, valid),
        MAX_ITERS as nat,
    )
}

/// The implied volatility of an option, or a NaN.
pub open spec fn direct_of<K: Arith>(k: K, q: Quote) -> Double {
    let valid = admits(q, carry_of(k, q));
    let end = direct_end(k, q, valid);
    reported(valid, end, evidence_of(k, q, end.sigma))
}

/// The direct solver may report `r` for the option.
pub open spec fn direct_answer<K: Arith>(k: K, q: Quote, r: Double) -> bool {
    &&& steady(k) ==> r == direct_of(k, q)
    &&& nan_or_inside(r)
    &&& !plausible(q) ==> r == num(NAN)
}

/// A lane is set up to be solved.
pub open spec fn direct_ready<K: Arith>(
    k: K,
    q: Quote,
    live: bool,
    valid: bool,
    begin: LaneState,
) -> bool {
    &&& valid ==> live && plausible(q)
    &&& steady(k) ==> valid == (live && admits(q, carry_of(k, q)))
    &&& steady(k) ==> begin == direct_begin(k, q, valid)
}

/// Sets a lane up: whether it is valid, and where it begins.
fn direct_setup<K: Arith>(k: &K, q: &Quote, live: bool) -> (r: (bool, LaneState))
    ensures
        direct_ready(*k, *q, live, r.0, r.1),
{
    let c = carry(k, q);
    let valid = live && screen(q, &c);
    (valid, LaneState { sigma: initial_guess(k, q), converged: !valid })
}

/// Reports a lane that has run its course.
fn direct_report<K: Arith>(
    k: &K,
    q: &Quote,
    live: bool,
    valid: bool,
    Ghost(begin): Ghost<LaneState>,
    end: LaneState,
) -> (r: Double)
    requires
        direct_ready(*k, *q, live, valid, begin),
        steady(*k) ==> end == lane_after(
            (Newton { machine: k }),
            *q,
            direct_course(),
            begin,
            MAX_ITERS as nat,
        ),
    ensures
        live ==> direct_answer(*k, *q, r),
{
    let e = evidence(k, q, end.sigma);
    accept(valid, end, &e)
}

/// Solves a pack.
pub fn solve_chunk<K: Arith>(k: &K, pack: Lanes) -> (out: [Double; LANES])
    ensures
        forall|j: int|
            0 <= j < LANES && pack.live[j] ==> direct_answer(*k, pack.quote[j], #[trigger] out[j]),
{
    let course = Course {
        bracket: Bracket { lo: num(VOL_MIN), hi: num(VOL_MAX) },
        test: StepTest::Below(num(TOL)),
    };
    let mut valid: [bool; LANES] = [false;LANES];
    let mut begin: [LaneState; LANES] = [LaneState { sigma: num(HALF), converged: true };LANES];
    let mut j: usize = 0;
    while j < LANES
        invariant
            j <= LANES,
            forall|i: int|
                0 <= i < j ==> direct_ready(
                    *k,
                    pack.quote@[i],
                    pack.live@[i],
                    valid@[i],
                    #[trigger] begin@[i],
                ),
        decreases LANES - j,
    {
        let (v, b) = direct_setup(k, &pack.quote[j], pack.live[j]);
        valid[j] = v;
        begin[j] = b;
        j += 1;
    }
    let newton = Newton { machine: k };
    let end = iterate(&newton, &pack.quote, &[course;LANES], &begin, MAX_ITERS);
    let mut out: [Double; LANES] = [num(NAN);LANES];
    j = 0;
    while j < LANES
        invariant
            j <= LANES,
            course == direct_course(),
            newton == (Newton { machine: k }),
            forall|i: int|
                0 <= i < LANES ==> direct_ready(
                    *k,
                    pack.quote@[i],
                    pack.live@[i],
                    valid@[i],
                    #[trigger] begin@[i],
                ),
            steady(*k) ==> forall|i: int|
                0 <= i < LANES ==> #[trigger] end@[i] == lane_after(
                    newton,
                    pack.quote@[i],
                    course,
                    begin@[i],
                    MAX_ITERS as nat,
                ),
            forall|i: int|
                0 <= i < j && pack.live@[i] ==> direct_answer(
                    *k,
                    pack.quote@[i],
                    #[trigger] out@[i],
                ),
        decreases LANES - j,
    {
        assert(direct_ready(
            *k,
            pack.quote@[j as int],
            pack.live@[j as int],
            valid@[j as int],
            begin@[j as int],
        ));
        assert(steady(*k) ==> end@[j as int] == lane_after(
            newton,
            pack.quote@[j as int],
            course,
            begin@[j as int],
            MAX_ITERS as nat,
        ));
        out[j] = direct_report(
            k,
            &pack.quote[j],
            pack.live[j],
            valid[j],
            Ghost(begin@[j as int]),
            end[j],
        );
        j += 1;
    }
    out
}

/// The option with these terms.
pub open spec fn quote_of(
    spot: Double,
    strike: Double,
    tte: Double,
    rate: Double,
    price: Double,
    kind: OptionKind,
) -> Quote {
    Quote { spot, strike, tte, rate, price, is_call: kind is Call }
}

/// The direct solver may report `out` for the batch.
pub open spec fn direct_batch<K: Arith>(k: K, columns: Columns, out: Seq<Double>) -> bool {
    &&& out.len() == columns.size()
    &&& forall|i: int|
        0 <= i < out.len() ==> direct_answer(k, columns.row(i), #[trigger] out[i])
}

/// Implied volatilities of a batch. Each result is the implied volatility of
/// its option, or a NaN.
pub fn implied_vol<K: Arith>(
    k: &K,
    spot: &[Double],
    strike: &[Double],
    tte: &[Double],
    rate: &[Double],
    price: &[Double],
    kind: &[OptionKind],
) -> (out: Vec<Double>)
    requires
        table(spot, strike, tte, rate, price, kind).matched(),
    ensures
        direct_batch(*k, table(spot, strike, tte, rate, price, kind), out@),
{
    let columns = Columns { spot, strike, tte, rate, price, kind };
    let solve = |pack: Lanes| -> (lanes: [Double; LANES])
        ensures
            forall|j: int|
                0 <= j < LANES && pack.live[j] ==> direct_answer(
                    *k,
                    pack.quote[j],
                    #[trigger] lanes[j],
                ),
        { solve_chunk(k, pack) };
    let out = map_packs(&columns, num(ONE), solve);
    proof {
        assert forall|i: int| 0 <= i < out@.len() implies direct_answer(
            *k,
            columns.row(i),
            #[trigger] out@[i],
        ) by {
            assert(lane_result(solve, columns.row(i), out@[i]));
        }
    }
    out
}

/// The implied volatility of one option, or a NaN.
pub fn implied_vol_one<K: Arith>(
    k: &K,
    spot: Double,
    strike: Double,
    tte: Double,
    rate: Double,
    price: Double,
    kind: OptionKind,
) -> (r: Double)
    ensures
        direct_answer(*k, quote_of(spot, strike, tte, rate, price, kind), r),
{
    let s: [Double; 1] = [spot];
    let x: [Double; 1] = [strike];
    let t: [Double; 1] = [tte];
    let y: [Double; 1] = [rate];
    let p: [Double; 1] = [price];
    let c: [OptionKind; 1] = [kind];
    let out = implied_vol(k, &s, &x, &t, &y, &p, &c);
    proof {
        let columns = table(&s, &x, &t, &y, &p, &c);
        assert(columns.row(0) == quote_of(spot, strike, tte, rate, price, kind));
        assert(direct_answer(*k, columns.row(0), out@[0]));
    }
    out[0]
}

/// Prices a batch at the volatilities `sigma`.
pub fn bs_price<K: Arith>(
    k: &K,
    spot: &[Double],
    strike: &[Double],
    tte: &[Double],
    rate: &[Double],
    sigma: &[Double],
    kind: &[OptionKind],
) -> (out: Vec<Double>)
    requires
        table(spot, strike, tte, rate, sigma, kind).matched(),
    ensures
        out@.len() == spot@.len(),
        steady(*k) ==> forall|i: int|
            0 <= i < out@.len() ==> #[trigger] out@[i] == priced_of(
                *k,
                table(spot, strike, tte, rate, sigma, kind).row(i),
                sigma@[i],
            ).price,
{
    let columns = Columns { spot, strike, tte, rate, price: sigma, kind };
    let n: usize = spot.len();
    let mut out: Vec<Double> = Vec::new();
    let mut i: usize = 0;
    while i < n
        invariant
            columns == table(spot, strike, tte, rate, sigma, kind),
            columns.matched(),
            n == columns.size(),
            i <= n,
            out@.len() == i,
            steady(*k) ==> forall|j: int|
                0 <= j < i ==> #[trigger] out@[j] == priced_of(
                    *k,
                    columns.row(j),
                    sigma@[j],
                ).price,
        decreases n - i,
    {
        let q = columns.quote(i);
        out.push(bs_price_vega(k, &q, sigma[i]).price);
        i += 1;
    }
    out
}

/// Put and call on one strike are tied by parity: the put is worth the call less
/// the spot, plus the discounted strike, as the machine adds them up; the two
/// share their sensitivity and the arguments of the cumulative normal.
pub proof fn law_put_is_call_by_parity<K: Arith>(k: K, call: Quote, put: Quote, sigma: Double)
    requires
        call.is_call,
        put == (Quote { is_call: false, ..call }),
    ensures
        priced_of(k, put, sigma).price == sum(
            k,
            diff(k, priced_of(k, call, sigma).price, call.spot),
            carry_of(k, call).strike,
        ),
        priced_of(k, put, sigma).vega == priced_of(k, call, sigma).vega,
        priced_of(k, put, sigma).d1 == priced_of(k, call, sigma).d1,
        priced_of(k, put, sigma).d2 == priced_of(k, call, sigma).d2,
{
}

/// An option without plausible terms, or with a premium outside the bounds,
/// has no implied volatility.
pub proof fn law_screened_out_is_nan<K: Arith>(k: K, q: Quote)
    requires
        !admits(q, carry_of(k, q)),
    ensures
        direct_of(k, q) == num(NAN),
{
}

/// Starting volatilities lie in `[VOL_MIN, VOL_MAX]`, whatever the closed forms
/// yield.
pub proof fn law_seed_in_bracket(g: Guess)
    ensures
        bracketed(seed(g)),
{
    law_order_is_encoding_order(num(VOL_MIN), num(VOL_MAX));
    let raw = if usable(g.rational) {
        g.rational
    } else if usable(g.atm) {
        g.atm
    } else {
        num(HALF)
    };
    law_clamp_lands_in_bracket(raw, num(VOL_MIN), num(VOL_MAX));
}

/// No iterate leaves `[VOL_MIN, VOL_MAX]`.
pub proof fn law_iterates_in_vol_range<K: Arith>(k: K, q: Quote, valid: bool, steps: nat)
    ensures
        bracketed(
            lane_after(
                (Newton { machine: &k }),
                q,
                direct_course(),
                direct_begin(k, q, valid),
                steps,
            ).sigma,
        ),
{
    law_order_is_encoding_order(num(VOL_MIN), num(VOL_MAX));
    law_seed_in_bracket(guess_of(k, q));
    law_iterates_stay_in_bracket(
        Newton { machine: &k },
        q,
        direct_course(),
        direct_begin(k, q, valid),
        steps,
    );
}

/// What is reported is a NaN, or a finite volatility strictly between `VOL_MIN`
/// and `VOL_MAX`; it is a NaN exactly when the lane is not accepted.
pub proof fn law_reported_is_inside_or_nan(valid: bool, end: LaneState, e: Evidence)
    ensures
        nan_or_inside(reported(valid, end, e)),
        reported(valid, end, e).nan() <==> !accepted(valid, end, e),
{
    law_order_is_encoding_order(num(VOL_MIN), num(VOL_MIN_INSIDE));
    law_order_is_encoding_order(num(VOL_MAX_INSIDE), num(VOL_MAX));
    law_order_is_encoding_order(end.sigma, num(VOL_MAX_INSIDE));
    law_order_is_encoding_order(num(VOL_MIN_INSIDE), end.sigma);
}

/// An implied volatility prices back: where a volatility is reported, the price
/// at it is within the accepted distance of the premium, and the price responds
/// to the volatility.
pub proof fn law_reported_prices_back<K: Arith>(k: K, q: Quote)
    requires
        direct_of(k, q) != num(NAN),
    ensures
        admits(q, carry_of(k, q)),
        evidence_of(k, q, direct_of(k, q)).residual.at_most(
            evidence_of(k, q, direct_of(k, q)).allowed,
        ),
        evidence_of(k, q, direct_of(k, q)).vega_floor.below(
            evidence_of(k, q, direct_of(k, q)).vega,
        ),
{
}

/// An option gets from a batch what it gets on its own, wherever it stands in
/// the batch and whatever stands beside it.
pub proof fn law_batch_equals_one<K: Arith>(
    k: K,
    columns: Columns,
    out: Seq<Double>,
    i: int,
    one: Double,
)
    requires
        steady(k),
        direct_batch(k, columns, out),
        0 <= i < out.len(),
        direct_answer(k, columns.row(i), one),
    ensures
        out[i] == one,
{
    assert(direct_answer(k, columns.row(i), out[i]));
}

/// The reported volatilities go from `0.01` to `5`; a solution keeps clear of both
/// ends by a ten-millionth part of them, and prices back within `1e-7` of the
/// premium and `1e-13` of the size of the option; a step below `1e-12` ends an
/// iteration of at most 32 steps.
pub proof fn law_direct_thresholds()
    ensures
        rounds(num(VOL_MIN), 1, 100),
        equals(num(VOL_MAX), 5, 1),
        rounds(num(VOL_MIN_INSIDE), 10000001000000001, 1000000000000000000),
        rounds(num(VOL_MAX_INSIDE), 49999995, 10000000),
        rounds(num(TOL), 1, 1000000000000),
        rounds(num(ACCEPT_RELATIVE), 1, 10000000),
        rounds(num(ACCEPT_ABSOLUTE), 1, 10000000000000),
        MAX_ITERS == 32,
{
    lemma2_to64();
    lemma2_to64_rest();
    lemma_pow2_two_words(12);
    lemma_pow2_two_words(28);
    lemma_pow2_two_words(32);
    lemma_rounds(num(VOL_MIN), 1016, 5764607523034235, 576460752303423488, 1, 100);
    lemma_rounds(num(VOL_MAX), 1025, 5629499534213120, 1125899906842624, 5, 1);
    lemma_rounds(num(VOL_MIN_INSIDE), 1016, 5764608099494988, 576460752303423488, 10000001000000001, 1000000000000000000);
    lemma_rounds(num(VOL_MAX_INSIDE), 1025, 5629498971263167, 1125899906842624, 49999995, 10000000);
    lemma_rounds(num(TOL), 983, 4951760157141521, 4951760157141521099596496896int, 1, 1000000000000);
    lemma_rounds(num(ACCEPT_RELATIVE), 999, 7555786372591432, 75557863725914323419136int, 1, 10000000);
    lemma_rounds(num(ACCEPT_ABSOLUTE), 979, 7922816251426434, 79228162514264337593543950336int, 1, 10000000000000);
}

/// The price is Black and Scholes', on the option's own terms, whatever its
/// expiry: the two arguments of the cumulative normal differ by the volatility
/// over the root of the expiry, the first has the logarithm of spot over strike
/// and the drift over the expiry on top, and the strike is discounted at the
/// rate over the expiry.
pub proof fn law_price_is_black_scholes<K: Arith>(k: K, q: Quote, sigma: Double)
    ensures
        ({
            let p = priced_of(k, q, sigma);
            let total = prod(k, sigma, sqrt_of(k, q.tte));
            let drift = sum(k, q.rate, prod(k, prod(k, num(HALF), sigma), sigma));
            let top = sum(k, ln_of(k, quot(k, q.spot, q.strike)), prod(k, drift, q.tte));
            let owed = prod(k, q.strike, exp_of(k, prod(k, flipped(q.rate), q.tte)));
            let call = diff(
                k,
                prod(k, q.spot, phi_hart_of(k, p.d1)),
                prod(k, owed, phi_hart_of(k, p.d2)),
            );
            &&& p.d1 == quot(k, top, total)
            &&& p.d2 == diff(k, p.d1, total)
            &&& q.is_call ==> p.price == call
            &&& !q.is_call ==> p.price == sum(k, diff(k, call, q.spot), owed)
            &&& p.vega == prod(k, prod(k, q.spot, pdf_of(k, p.d1)), sqrt_of(k, q.tte))
        }),
{
}

/// Two options price alike wherever the time in them adds up to the same: on one
/// spot and one strike, with one total volatility, one drift over the expiry and
/// one rate over the expiry, they have one price, whatever their expiries.
///
/// Four times the expiry at half the volatility and a quarter of the rate is such
/// a pair on a binary machine.
pub proof fn law_time_counts_by_its_totals<K: Arith>(
    k: K,
    a: Quote,
    b: Quote,
    u: Double,
    v: Double,
)
    requires
        a.spot == b.spot,
        a.strike == b.strike,
        a.is_call == b.is_call,
        prod(k, u, sqrt_of(k, a.tte)) == prod(k, v, sqrt_of(k, b.tte)),
        prod(k, flipped(a.rate), a.tte) == prod(k, flipped(b.rate), b.tte),
        prod(k, sum(k, a.rate, prod(k, prod(k, num(HALF), u), u)), a.tte) == prod(
            k,
            sum(k, b.rate, prod(k, prod(k, num(HALF), v), v)),
            b.tte,
        ),
    ensures
        priced_of(k, a, u).d1 == priced_of(k, b, v).d1,
        priced_of(k, a, u).d2 == priced_of(k, b, v).d2,
        priced_of(k, a, u).price == priced_of(k, b, v).price,
        carry_of(k, a) == carry_of(k, b),
{
}

/// The premium that goes with an option takes no part in its price, nor in its
/// discounted strike.
pub proof fn law_premium_does_not_price<K: Arith>(k: K, q: Quote, other: Double, sigma: Double)
    ensures
        priced_of(k, (Quote { price: other, ..q }), sigma) == priced_of(k, q, sigma),
        carry_of(k, (Quote { price: other, ..q })) == carry_of(k, q),
{
}

/// A premium has room between two bounds. The lower one is zero, or what
/// exercise would bring if that is more; the upper one is what the option is
/// written on: the spot for a call, the discounted strike for a put.
pub proof fn law_bounds_leave_no_arbitrage<K: Arith>(k: K, q: Quote)
    ensures
        ({
            let owed = prod(k, q.strike, exp_of(k, prod(k, flipped(q.rate), q.tte)));
            let gain = if q.is_call {
                diff(k, q.spot, owed)
            } else {
                diff(k, owed, q.spot)
            };
            let low = lower_bound(q, carry_of(k, q));
            &&& num(ZERO).at_most(low)
            &&& !gain.nan() ==> gain.at_most(low)
            &&& low == num(ZERO) || low == gain
            &&& upper_bound(q, carry_of(k, q)) == if q.is_call {
                q.spot
            } else {
                owed
            }
        }),
{
}

/// An option is taken up exactly when its five terms are finite, its spot, strike
/// and expiry are above zero, and its premium lies strictly between the bounds:
/// nothing else keeps one out. What is taken up goes into the iteration, and
/// what is not is a NaN.
pub proof fn law_taken_up_exactly<K: Arith>(k: K, q: Quote)
    ensures
        ({
            let owed = prod(k, q.strike, exp_of(k, prod(k, flipped(q.rate), q.tte)));
            let gain = if q.is_call {
                diff(k, q.spot, owed)
            } else {
                diff(k, owed, q.spot)
            };
            let cap = if q.is_call {
                q.spot
            } else {
                owed
            };
            let taken = {
                &&& encodes_positive(q.spot) && encodes_positive(q.strike)
                &&& encodes_positive(q.tte)
                &&& encodes_finite(q.rate) && encodes_finite(q.price)
                &&& num(ZERO).below(q.price)
                &&& gain.nan() || gain.below(q.price)
                &&& q.price.below(cap)
            };
            &&& admits(q, carry_of(k, q)) <==> taken
            &&& direct_begin(k, q, admits(q, carry_of(k, q))).converged <==> !taken
            &&& !taken ==> direct_of(k, q) == num(NAN)
        }),
{
    law_encoding_tells_kinds(q.spot);
    law_encoding_tells_kinds(q.strike);
    law_encoding_tells_kinds(q.tte);
    law_encoding_tells_kinds(q.rate);
    law_encoding_tells_kinds(q.price);
    law_order_is_encoding_order(num(ZERO), num(ZERO));
}

/// A put starts where the call starts that parity makes of it, and a call starts
/// from a closed form in its premium, its spot, its discounted strike and its
/// expiry.
pub proof fn law_guess_is_closed_form<K: Arith>(k: K, q: Quote)
    ensures
        ({
            let owed = prod(k, q.strike, exp_of(k, prod(k, flipped(q.rate), q.tte)));
            let g = guess_of(k, q);
            let gap = diff(k, q.spot, owed);
            let centred = diff(k, q.price, prod(k, num(HALF), gap));
            let left = diff(
                k,
                prod(k, centred, centred),
                quot(k, prod(k, gap, gap), num(PI)),
            );
            let root = sqrt_of(k, quot(k, num(TWO_PI), q.tte));
            &&& !q.is_call ==> g == guess_of(
                k,
                (Quote {
                    price: diff(k, sum(k, q.price, q.spot), owed),
                    is_call: true,
                    ..q
                }),
            )
            &&& q.is_call ==> g.atm == quot(k, prod(k, root, q.price), q.spot)
            &&& q.is_call && num(ZERO).at_most(left) ==> g.rational == prod(
                k,
                quot(k, root, sum(k, q.spot, owed)),
                sum(k, centred, sqrt_of(k, left)),
            )
            &&& q.is_call && !num(ZERO).at_most(left) ==> g.rational == prod(
                k,
                quot(k, root, sum(k, q.spot, owed)),
                sum(k, centred, sqrt_of(k, num(ZERO))),
            )
        }),
{
}

/// The starting volatility is the first closed form that is finite and above
/// zero, or one half where none is; one that lies outside the range starts at
/// the nearer end.
pub proof fn law_seed_is_first_usable(g: Guess)
    ensures
        ({
            let first = if encodes_positive(g.rational) {
                g.rational
            } else if encodes_positive(g.atm) {
                g.atm
            } else {
                num(HALF)
            };
            &&& bracketed(first) ==> seed(g) == first
            &&& first.below(num(VOL_MIN)) ==> seed(g) == num(VOL_MIN)
            &&& num(VOL_MAX).below(first) ==> seed(g) == num(VOL_MAX)
        }),
{
    law_encoding_tells_kinds(g.rational);
    law_encoding_tells_kinds(g.atm);
    law_order_is_encoding_order(num(VOL_MIN), num(VOL_MAX));
    law_order_is_encoding_order(num(VOL_MIN), num(HALF));
    law_order_is_encoding_order(num(HALF), num(VOL_MAX));
}

/// The size of an option is the largest magnitude among its premium, spot and
/// strike.
pub proof fn law_size_is_largest_term(q: Quote)
    requires
        !q.price.nan() && !q.spot.nan() && !q.strike.nan(),
    ensures
        unsigned(q.price).at_most(scale_of(q)),
        unsigned(q.spot).at_most(scale_of(q)),
        unsigned(q.strike).at_most(scale_of(q)),
        scale_of(q) == unsigned(q.price) || scale_of(q) == unsigned(q.spot) || scale_of(q)
            == unsigned(q.strike),
{
}

/// A step of Newton's method goes from `sigma` by the residual over the slope:
/// the proposal is `sigma` less what the price is over the premium, divided by
/// the sensitivity, which is kept from zero. A residual counts as none within
/// `1e-12` of the size of the option and of the premium.
pub proof fn law_newton_goes_down_the_slope<K: Arith>(k: K, q: Quote, sigma: Double)
    ensures
        ({
            let p = priced_of(k, q, sigma);
            let over = diff(k, p.price, q.price);
            let n = newton_of(k, q, sigma);
            &&& num(TINY).at_most(p.vega) ==> n.proposal == diff(k, sigma, quot(k, over, p.vega))
            &&& !num(TINY).at_most(p.vega) ==> n.proposal == diff(
                k,
                sigma,
                quot(k, over, num(TINY)),
            )
            &&& n.residual == unsigned(over)
            &&& n.allowed == sum(
                k,
                prod(k, num(SMALL), scale_of(q)),
                prod(k, num(SMALL), unsigned(q.price)),
            )
        }),
{
}

/// A volatility at which the option is worth its premium is where the iteration
/// rests: the next step stays on it, and it has converged.
pub proof fn law_root_is_at_rest<K: Arith>(k: K, q: Quote, sigma: Double)
    requires
        neutral(k),
        q.price.finite(),
        priced_of(k, q, sigma).price == q.price,
        sigma.finite() && bracketed(sigma),
        num(ZERO).at_most(newton_of(k, q, sigma).allowed),
    ensures
        newton_of(k, q, sigma).proposal == sigma,
        lane_after(
            (Newton { machine: &k }),
            q,
            direct_course(),
            (LaneState { sigma, converged: false }),
            1,
        ) == (LaneState { sigma, converged: true }),
{
    let at = priced_of(k, q, sigma);
    let over = diff(k, at.price, q.price);
    let slope = larger(at.vega, num(TINY));
    law_order_is_encoding_order(num(ZERO), num(TINY));
    law_order_is_encoding_order(num(ZERO), slope);
    law_order_is_encoding_order(num(TINY), slope);
    law_order_is_encoding_order(num(ZERO), unsigned(over));
    law_order_is_encoding_order(num(ZERO), num(VOL_MIN));
    law_order_is_encoding_order(num(ZERO), sigma);
    assert(is_zero(over));
    assert(!is_zero(slope) && !slope.nan());
    assert(is_zero(quot(k, over, slope)));
    assert(!is_zero(sigma));
    assert(diff(k, sigma, quot(k, over, slope)) == sigma);
    law_clamp_lands_in_bracket(sigma, num(VOL_MIN), num(VOL_MAX));
    law_order_is_encoding_order(num(VOL_MIN), num(VOL_MAX));
    reveal_with_fuel(lane_after, 2);
}

/// What the direct solver answers, from end to end: it runs Newton's method for
/// at most 32 steps from the starting volatility, inside the range, and answers
/// with the last iterate exactly when the option is taken up, the iteration has
/// converged, the price there is the premium but for `1e-7` of it and `1e-13` of
/// the size of the option, the iterate keeps clear of the ends of the range, and
/// the sensitivity exceeds `1e-12` of the size. Every other option gets a NaN.
pub proof fn law_answer_is_the_last_iterate<K: Arith>(k: K, q: Quote, r: Double)
    requires
        steady(k),
        direct_answer(k, q, r),
    ensures
        ({
            let end = lane_after(
                Newton { machine: &k },
                q,
                Course {
                    bracket: Bracket { lo: num(VOL_MIN), hi: num(VOL_MAX) },
                    test: StepTest::Below(num(TOL)),
                },
                LaneState { sigma: seed(guess_of(k, q)), converged: false },
                32,
            );
            let p = priced_of(k, q, end.sigma);
            let off = unsigned(diff(k, p.price, q.price));
            let allowed = sum(
                k,
                prod(k, num(ACCEPT_RELATIVE), unsigned(q.price)),
                prod(k, num(ACCEPT_ABSOLUTE), scale_of(q)),
            );
            let good = {
                &&& admits(q, carry_of(k, q))
                &&& end.converged
                &&& off.at_most(allowed)
                &&& num(VOL_MIN_INSIDE).below(end.sigma) && end.sigma.below(num(VOL_MAX_INSIDE))
                &&& prod(k, num(SMALL), scale_of(q)).below(p.vega)
            };
            r == if good {
                end.sigma
            } else {
                num(NAN)
            }
        }),
{
}

/// Whatever the machine, an answer is the canonical NaN, or finite and strictly
/// between `0.01` and `5`; and it is that NaN where a term is not finite, or spot,
/// strike or expiry is not above zero.
pub proof fn law_answer_is_in_range_or_nan<K: Arith>(k: K, q: Quote, r: Double)
    requires
        direct_answer(k, q, r),
    ensures
        r.bits == 0x7FF8_0000_0000_0000 || encodes_positive(r) && num(VOL_MIN).below(r) && r.below(
            num(VOL_MAX),
        ),
        !(encodes_positive(q.spot) && encodes_positive(q.strike) && encodes_positive(q.tte)
            && encodes_finite(q.rate) && encodes_finite(q.price)) ==> r.bits
            == 0x7FF8_0000_0000_0000,
{
    law_encoding_tells_kinds(q.spot);
    law_encoding_tells_kinds(q.strike);
    law_encoding_tells_kinds(q.tte);
    law_encoding_tells_kinds(q.rate);
    law_encoding_tells_kinds(q.price);
    law_encoding_tells_kinds(r);
    law_order_is_encoding_order(num(VOL_MIN), r);
    law_order_is_encoding_order(num(ZERO), num(VOL_MIN));
}

/// The terms of one option, as they are given.
pub proof fn law_quote_holds_its_terms(
    spot: Double,
    strike: Double,
    tte: Double,
    rate: Double,
    price: Double,
    kind: OptionKind,
)
    ensures
        ({
            let q = quote_of(spot, strike, tte, rate, price, kind);
            &&& q.spot == spot && q.strike == strike && q.tte == tte && q.rate == rate
            &&& q.price == price
            &&& q.is_call <==> kind == OptionKind::Call
        }),
{
}

} // verus!
