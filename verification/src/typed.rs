//! Implied volatilities with a status.
//!
//! The direct solver answers NaN for every option it cannot solve. This one
//! says why: an option is refused before the iteration for its terms or its
//! premium, or the iteration runs in a wide bracket and its end is classified.
//! A root outside `[VOL_MIN, VOL_MAX]` is reported as such, with its value.
use crate::arith::{diff, exp_of, is_zero, neutral, prod, quot, steady, sum, Arith};
use crate::constants::{EIGHT, EPSILON, HALF, ONE, SIX, SMALL, TINY};
use crate::direct::{
    admits, all_finite, bracketed, bs_price_vega, cap_price, carry, carry_of, direct_end, direct_of,
    discount, discount_of, evidence_of, guess_of, initial_guess, intrinsic, is_positive,
    law_iterates_in_vol_range, law_screened_out_is_nan, law_seed_in_bracket, lower_bound,
    plausible, priced_of, quote_of, seed, upper_bound, Carry, Priced, MAX_ITERS, VOL_MAX, VOL_MIN,
};
use crate::double::{
    clamped, encodes_finite, encodes_positive, equals, flipped, larger, law_clamp_lands_in_bracket,
    law_encoding_tells_kinds, law_order_is_encoding_order, lemma_pow2_two_words, lemma_rounds,
    lemma_units_zero, num, rounds, unsigned, Double, NAN,
};
use crate::guard::{
    correction_denominator, guard_correction, law_guard_bounds_away_from_zero,
};
use crate::iterate::{
    iterate, lane_after, law_iterates_stay_in_bracket, Bracket, Course, LaneState, Probe, StepTest,
    Stepper,
};
use crate::kind::OptionKind;
use crate::lanes::{
    filled_lanes, load_picked, picked, picked_rows, scatter_lanes, table, Columns, Lanes, Quote,
    LANES,
};
use vstd::arithmetic::power2::{lemma2_to64, lemma2_to64_rest};
use vstd::prelude::*;

verus! {

/// `1e-8`, the lower end of the iteration.
pub const ITER_VOL_MIN: u64 = 0x3E45_798E_E230_8C3A;

/// `50.0`, the upper end of the iteration.
pub const ITER_VOL_MAX: u64 = 0x4049_0000_0000_0000;

/// `2e-15`, what the cumulative normal may be off by.
pub const PHI_HART_EPS: u64 = 0x3CE2_03AF_9EE7_5616;

/// `1e-6`, the coarsest resolution of a volatility that still counts as known.
pub const RESOLUTION_BUDGET: u64 = 0x3EB0_C6F7_A0B5_ED8D;

/// What became of an option.
#[derive(Clone, Copy, Debug, PartialEq, Eq, Structural)]
pub enum ImpliedVolStatus {
    /// Solved; the value is the implied volatility.
    Computed,
    /// The root lies below `VOL_MIN`.
    BelowVolMin { computed: Double },
    /// The root lies above `VOL_MAX`.
    AboveVolMax { computed: Double },
    /// The premium is at or below the intrinsic value.
    BelowIntrinsic,
    /// The premium is at or above the price that the option cannot reach.
    AboveMaximum,
    /// A term is not finite, or spot, strike or expiry is not positive.
    NonFinite,
    /// The iteration found no volatility that prices back to the premium.
    FailedToConverge,
}

/// A value and its status.
#[derive(Clone, Copy, Debug, PartialEq, Eq, Structural)]
pub struct ImpliedVolResult {
    pub value: Double,
    pub status: ImpliedVolStatus,
}

/// The value belongs to the status: a finite root for the three statuses that
/// have one, on the side that the status names, and a NaN for the others.
pub open spec fn mirrors(r: ImpliedVolResult) -> bool {
    match r.status {
        ImpliedVolStatus::Computed => r.value.finite(),
        ImpliedVolStatus::BelowVolMin { computed } => r.value == computed && computed.finite()
            && computed.below(num(VOL_MIN)),
        ImpliedVolStatus::AboveVolMax { computed } => r.value == computed && computed.finite()
            && num(VOL_MAX).below(computed),
        _ => r.value == num(NAN),
    }
}

/// A result without a value.
pub open spec fn refused(status: ImpliedVolStatus) -> ImpliedVolResult {
    ImpliedVolResult { value: num(NAN), status }
}

impl ImpliedVolResult {
    /// What a caller who knows of no status gets: the value if it is computed,
    /// else a NaN.
    pub open spec fn plain(self) -> Double {
        if self.status is Computed {
            self.value
        } else {
            num(NAN)
        }
    }

    /// The value if it is computed, else a NaN.
    pub fn to_f64_nan_on_boundary(self) -> (r: Double)
        ensures
            r == self.plain(),
    {
        match self.status {
            ImpliedVolStatus::Computed => self.value,
            _ => num(NAN),
        }
    }
}

/// Why an option is refused before the iteration, if it is.
pub open spec fn rejection(q: Quote, c: Carry) -> Option<ImpliedVolStatus> {
    if !plausible(q) {
        Some(ImpliedVolStatus::NonFinite)
    } else if q.price.at_most(lower_bound(q, c)) {
        Some(ImpliedVolStatus::BelowIntrinsic)
    } else if !q.price.below(upper_bound(q, c)) {
        Some(ImpliedVolStatus::AboveMaximum)
    } else {
        None
    }
}

/// Why an option is refused before the iteration, if it is.
pub fn pre_classify(q: &Quote, c: &Carry) -> (r: Option<ImpliedVolStatus>)
    ensures
        r == rejection(*q, *c),
{
    if !all_finite(q) || !is_positive(q.spot) || !is_positive(q.strike) || !is_positive(q.tte) {
        Some(ImpliedVolStatus::NonFinite)
    } else if q.price.le(intrinsic(q, c)) {
        Some(ImpliedVolStatus::BelowIntrinsic)
    } else if !q.price.lt(cap_price(q, c)) {
        Some(ImpliedVolStatus::AboveMaximum)
    } else {
        None
    }
}

/// A result without a value.
pub fn refuse(status: ImpliedVolStatus) -> (r: ImpliedVolResult)
    ensures
        r == refused(status),
{
    ImpliedVolResult { value: num(NAN), status }
}

/// The larger of spot and discounted strike.
pub open spec fn extent_of<K: Arith>(k: K, q: Quote) -> Double {
    larger(unsigned(q.spot), unsigned(prod(k, q.strike, discount_of(k, q))))
}

/// The larger of spot and discounted strike.
pub fn extent<K: Arith>(k: &K, q: &Quote) -> (r: Double)
    ensures
        steady(*k) ==> r == extent_of(*k, *q),
{
    let strike = k.times(q.strike, discount(k, q));
    q.spot.abs().max(strike.abs())
}

/// What rounding alone may make of a residual: one unit in the volatility, one
/// unit in the premium, or the error of the cumulative normal, whichever is
/// largest.
pub open spec fn floor_of<K: Arith>(k: K, q: Quote, vega: Double, sigma: Double) -> Double {
    let inversion = prod(k, prod(k, unsigned(vega), num(EPSILON)), unsigned(sigma));
    let premium = prod(k, unsigned(q.price), num(EPSILON));
    let normal = prod(k, extent_of(k, q), num(PHI_HART_EPS));
    larger(larger(inversion, premium), normal)
}

/// What rounding alone may make of a residual.
pub fn residual_floor<K: Arith>(k: &K, q: &Quote, vega: Double, sigma: Double) -> (r: Double)
    ensures
        steady(*k) ==> r == floor_of(*k, *q, vega, sigma),
{
    let inversion = k.times(k.times(vega.abs(), num(EPSILON)), sigma.abs());
    let premium = k.times(q.price.abs(), num(EPSILON));
    let normal = k.times(extent(k, q), num(PHI_HART_EPS));
    inversion.max(premium).max(normal)
}

/// The step of third order: the Newton step `eta`, corrected by the second and
/// third derivatives of the price over the first.
pub open spec fn third_order_of<K: Arith>(k: K, at: Priced, eta: Double, sigma: Double) -> Double {
    let both = prod(k, at.d1, at.d2);
    let second = quot(k, both, sigma);
    let third = quot(
        k,
        diff(
            k,
            diff(k, diff(k, prod(k, both, both), prod(k, at.d1, at.d1)), prod(k, at.d2, at.d2)),
            both,
        ),
        prod(k, sigma, sigma),
    );
    let top = sum(k, num(ONE), prod(k, prod(k, num(HALF), second), eta));
    let bottom = sum(
        k,
        sum(k, num(ONE), prod(k, second, eta)),
        quot(k, prod(k, prod(k, third, eta), eta), num(SIX)),
    );
    quot(k, prod(k, eta, top), correction_denominator(bottom))
}

/// The step of third order.
pub fn third_order<K: Arith>(k: &K, at: &Priced, eta: Double, sigma: Double) -> (r: Double)
    ensures
        steady(*k) ==> r == third_order_of(*k, *at, eta, sigma),
{
    let both = k.times(at.d1, at.d2);
    let second = k.over(both, sigma);
    let squares = k.minus(
        k.minus(k.minus(k.times(both, both), k.times(at.d1, at.d1)), k.times(at.d2, at.d2)),
        both,
    );
    let third = k.over(squares, k.times(sigma, sigma));
    let top = k.plus(num(ONE), k.times(k.times(num(HALF), second), eta));
    let bottom = k.plus(
        k.plus(num(ONE), k.times(second, eta)),
        k.over(k.times(k.times(third, eta), eta), num(SIX)),
    );
    k.over(k.times(eta, top), guard_correction(bottom))
}

/// One evaluation of the iteration at `sigma`.
pub open spec fn householder_of<K: Arith>(k: K, q: Quote, sigma: Double) -> Probe {
    let at = priced_of(k, q, sigma);
    let residual = diff(k, at.price, q.price);
    let eta = quot(k, flipped(residual), larger(at.vega, num(TINY)));
    Probe {
        proposal: sum(k, sigma, third_order_of(k, at, eta, sigma)),
        residual: unsigned(residual),
        allowed: prod(k, num(EIGHT), floor_of(k, q, at.vega, sigma)),
    }
}

/// Householder's method of third order on the price.
pub struct Householder<'a, K: Arith> {
    pub machine: &'a K,
}

impl<'a, K: Arith> Stepper for Householder<'a, K> {
    type Lane = Quote;

    open spec fn dependable(&self) -> bool {
        steady(*self.machine)
    }

    open spec fn found(&self, lane: Quote, sigma: Double) -> Probe {
        householder_of(*self.machine, lane, sigma)
    }

    open spec fn length(&self, next: Double, sigma: Double) -> Double {
        unsigned(diff(*self.machine, next, sigma))
    }

    fn probe(&self, lane: &Quote, sigma: Double) -> (r: Probe) {
        let k = self.machine;
        let at = bs_price_vega(k, lane, sigma);
        let residual = k.minus(at.price, lane.price);
        let allowed = k.times(num(EIGHT), residual_floor(k, lane, at.vega, sigma));
        let eta = k.over(residual.neg(), at.vega.max(num(TINY)));
        let proposal = k.plus(sigma, third_order(k, &at, eta, sigma));
        Probe { proposal, residual: residual.abs(), allowed }
    }

    fn distance(&self, next: Double, sigma: Double) -> (r: Double) {
        self.machine.minus(next, sigma).abs()
    }
}

/// What pricing an option at its final iterate brings.
#[derive(Clone, Copy, Debug, PartialEq, Eq, Structural)]
pub struct Judgement {
    /// Distance between the price and the premium.
    pub residual: Double,
    /// The distance that still passes.
    pub allowed: Double,
    /// Absolute sensitivity of the price to the volatility.
    pub vega: Double,
    /// The sensitivity that must be exceeded.
    pub vega_floor: Double,
    /// How finely the premium determines the volatility.
    pub resolution: Double,
    /// The volatility plus the resolution.
    pub above: Double,
    /// The volatility less the resolution.
    pub below: Double,
}

/// What pricing the option at `sigma` brings.
pub open spec fn judgement_of<K: Arith>(k: K, q: Quote, sigma: Double) -> Judgement {
    let at = priced_of(k, q, sigma);
    let floor = floor_of(k, q, at.vega, sigma);
    let resolution = quot(k, floor, larger(unsigned(at.vega), num(TINY)));
    Judgement {
        residual: unsigned(diff(k, at.price, q.price)),
        allowed: prod(k, num(EIGHT), floor),
        vega: unsigned(at.vega),
        vega_floor: prod(k, num(SMALL), extent_of(k, q)),
        resolution,
        above: sum(k, sigma, resolution),
        below: diff(k, sigma, resolution),
    }
}

/// What pricing the option at `sigma` brings.
pub fn judge<K: Arith>(k: &K, q: &Quote, sigma: Double) -> (r: Judgement)
    ensures
        steady(*k) ==> r == judgement_of(*k, *q, sigma),
{
    let at = bs_price_vega(k, q, sigma);
    let residual = k.minus(at.price, q.price).abs();
    let floor = residual_floor(k, q, at.vega, sigma);
    let vega = at.vega.abs();
    let resolution = k.over(floor, vega.max(num(TINY)));
    Judgement {
        residual,
        allowed: k.times(num(EIGHT), floor),
        vega,
        vega_floor: k.times(num(SMALL), extent(k, q)),
        resolution,
        above: k.plus(sigma, resolution),
        below: k.minus(sigma, resolution),
    }
}

/// The iteration has converged, its final iterate prices back, and the premium
/// determines it.
pub open spec fn trusted(end: LaneState, e: Judgement) -> bool {
    &&& end.converged && end.sigma.finite()
    &&& e.residual.at_most(e.allowed)
    &&& e.vega_floor.below(e.vega)
    &&& e.resolution.at_most(num(RESOLUTION_BUDGET))
}

/// The root lies below `VOL_MIN`, by more than its resolution.
pub open spec fn under(sigma: Double, e: Judgement) -> bool {
    sigma.below(num(VOL_MIN)) && e.above.below(num(VOL_MIN))
}

/// The root lies above `VOL_MAX`, by more than its resolution.
pub open spec fn over(sigma: Double, e: Judgement) -> bool {
    num(VOL_MAX).below(sigma) && num(VOL_MAX).below(e.below)
}

/// The result of an option whose iteration came to `end`.
pub open spec fn outcome(end: LaneState, e: Judgement) -> ImpliedVolResult {
    let sigma = end.sigma;
    if !trusted(end, e) {
        refused(ImpliedVolStatus::FailedToConverge)
    } else if under(sigma, e) {
        ImpliedVolResult {
            value: sigma,
            status: ImpliedVolStatus::BelowVolMin { computed: sigma },
        }
    } else if over(sigma, e) {
        ImpliedVolResult {
            value: sigma,
            status: ImpliedVolStatus::AboveVolMax { computed: sigma },
        }
    } else {
        ImpliedVolResult { value: sigma, status: ImpliedVolStatus::Computed }
    }
}

/// The result of an option whose iteration came to `end`.
pub fn classify(end: LaneState, e: &Judgement) -> (r: ImpliedVolResult)
    ensures
        r == outcome(end, *e),
{
    let sigma = end.sigma;
    let priced = e.residual.le(e.allowed) && e.vega_floor.lt(e.vega) && e.resolution.le(
        num(RESOLUTION_BUDGET),
    );
    if !end.converged || !sigma.is_finite() || !priced {
        refuse(ImpliedVolStatus::FailedToConverge)
    } else if sigma.lt(num(VOL_MIN)) && e.above.lt(num(VOL_MIN)) {
        ImpliedVolResult {
            value: sigma,
            status: ImpliedVolStatus::BelowVolMin { computed: sigma },
        }
    } else if sigma.gt(num(VOL_MAX)) && e.below.gt(num(VOL_MAX)) {
        ImpliedVolResult {
            value: sigma,
            status: ImpliedVolStatus::AboveVolMax { computed: sigma },
        }
    } else {
        ImpliedVolResult { value: sigma, status: ImpliedVolStatus::Computed }
    }
}

/// The course of a lane: a wide bracket, and only the residual makes it
/// converge.
pub open spec fn wide_course() -> Course {
    Course {
        bracket: Bracket { lo: num(ITER_VOL_MIN), hi: num(ITER_VOL_MAX) },
        test: StepTest::Ignore,
    }
}

/// Where a lane begins: at the seed of the direct solver, in the wide bracket.
pub open spec fn wide_begin<K: Arith>(k: K, q: Quote) -> LaneState {
    LaneState {
        sigma: clamped(seed(guess_of(k, q)), num(ITER_VOL_MIN), num(ITER_VOL_MAX)),
        converged: false,
    }
}

/// Where a lane ends.
pub open spec fn wide_end<K: Arith>(k: K, q: Quote) -> LaneState {
    lane_after(Householder { machine: &k }, q, wide_course(), wide_begin(k, q), MAX_ITERS as nat)
}

/// What the iteration makes of an option.
pub open spec fn iterated_of<K: Arith>(k: K, q: Quote) -> ImpliedVolResult {
    let end = wide_end(k, q);
    outcome(end, judgement_of(k, q, end.sigma))
}

/// The result of an option: its refusal, or what the iteration makes of it.
pub open spec fn typed_of<K: Arith>(k: K, q: Quote) -> ImpliedVolResult {
    match rejection(q, carry_of(k, q)) {
        Some(status) => refused(status),
        None => iterated_of(k, q),
    }
}

/// The volatility lies in the bracket of the wide iteration.
pub open spec fn widely_bracketed(x: Double) -> bool {
    num(ITER_VOL_MIN).at_most(x) && x.at_most(num(ITER_VOL_MAX))
}

/// The solver may return `r` for the option.
pub open spec fn typed_answer<K: Arith>(k: K, q: Quote, r: ImpliedVolResult) -> bool {
    &&& steady(k) ==> r == typed_of(k, q)
    &&& mirrors(r)
    &&& r.value == num(NAN) || widely_bracketed(r.value)
    &&& r.status is NonFinite <==> !plausible(q)
}

/// The iteration may make `r` of the option.
pub open spec fn iterated_answer<K: Arith>(k: K, q: Quote, r: ImpliedVolResult) -> bool {
    &&& steady(k) ==> r == iterated_of(k, q)
    &&& mirrors(r)
    &&& r.value == num(NAN) || widely_bracketed(r.value)
    &&& !(r.status is NonFinite)
}

/// A lane begins as the iteration prescribes.
pub open spec fn wide_ready<K: Arith>(k: K, q: Quote, live: bool, begin: LaneState) -> bool {
    &&& steady(k) && live ==> begin == wide_begin(k, q)
    &&& widely_bracketed(begin.sigma)
}

/// Classifies a lane that has run its course.
fn typed_report<K: Arith>(
    k: &K,
    q: &Quote,
    live: bool,
    Ghost(begin): Ghost<LaneState>,
    end: LaneState,
) -> (r: ImpliedVolResult)
    requires
        wide_ready(*k, *q, live, begin),
        widely_bracketed(end.sigma),
        steady(*k) ==> end == lane_after(
            (Householder { machine: k }),
            *q,
            wide_course(),
            begin,
            MAX_ITERS as nat,
        ),
    ensures
        live ==> iterated_answer(*k, *q, r),
{
    let e = judge(k, q, end.sigma);
    classify(end, &e)
}

/// Runs the iteration on a pack.
pub fn solve_chunk_typed<K: Arith>(k: &K, pack: Lanes) -> (out: [ImpliedVolResult; LANES])
    ensures
        forall|j: int|
            0 <= j < LANES && pack.live[j] ==> iterated_answer(
                *k,
                pack.quote[j],
                #[trigger] out[j],
            ),
{
    let course = Course {
        bracket: Bracket { lo: num(ITER_VOL_MIN), hi: num(ITER_VOL_MAX) },
        test: StepTest::Ignore,
    };
    let mut begin: [LaneState; LANES] = [LaneState { sigma: num(HALF), converged: true };LANES];
    let mut j: usize = 0;
    while j < LANES
        invariant
            j <= LANES,
            forall|i: int|
                0 <= i < j ==> wide_ready(
                    *k,
                    pack.quote@[i],
                    pack.live@[i],
                    #[trigger] begin@[i],
                ),
        decreases LANES - j,
    {
        let seed = initial_guess(k, &pack.quote[j]);
        let sigma = seed.clamp(num(ITER_VOL_MIN), num(ITER_VOL_MAX));
        proof {
            law_order_is_encoding_order(num(ITER_VOL_MIN), num(ITER_VOL_MAX));
            law_clamp_lands_in_bracket(seed, num(ITER_VOL_MIN), num(ITER_VOL_MAX));
        }
        begin[j] = LaneState { sigma, converged: !pack.live[j] };
        j += 1;
    }
    let householder = Householder { machine: k };
    let courses: [Course; LANES] = [course;LANES];
    let end = iterate(&householder, &pack.quote, &courses, &begin, MAX_ITERS);
    proof {
        law_order_is_encoding_order(num(ITER_VOL_MIN), num(ITER_VOL_MAX));
        assert forall|i: int| 0 <= i < LANES implies widely_bracketed(
            (#[trigger] end@[i]).sigma,
        ) by {
            assert(wide_ready(*k, pack.quote@[i], pack.live@[i], begin@[i]));
            assert(courses@[i].bracket.proper() && courses@[i].bracket.holds(begin@[i].sigma));
            assert(courses@[i].bracket.holds(end[i].sigma));
        }
    }
    let mut out: [ImpliedVolResult; LANES] = [refuse(ImpliedVolStatus::FailedToConverge);LANES];
    j = 0;
    while j < LANES
        invariant
            j <= LANES,
            course == wide_course(),
            householder == (Householder { machine: k }),
            forall|i: int| 0 <= i < LANES ==> widely_bracketed((#[trigger] end@[i]).sigma),
            forall|i: int|
                0 <= i < LANES ==> wide_ready(
                    *k,
                    pack.quote@[i],
                    pack.live@[i],
                    #[trigger] begin@[i],
                ),
            steady(*k) ==> forall|i: int|
                0 <= i < LANES ==> #[trigger] end@[i] == lane_after(
                    householder,
                    pack.quote@[i],
                    course,
                    begin@[i],
                    MAX_ITERS as nat,
                ),
            forall|i: int|
                0 <= i < j && pack.live@[i] ==> iterated_answer(
                    *k,
                    pack.quote@[i],
                    #[trigger] out@[i],
                ),
        decreases LANES - j,
    {
        assert(wide_ready(
            *k,
            pack.quote@[j as int],
            pack.live@[j as int],
            begin@[j as int],
        ));
        assert(steady(*k) ==> end@[j as int] == lane_after(
            householder,
            pack.quote@[j as int],
            course,
            begin@[j as int],
            MAX_ITERS as nat,
        ));
        out[j] = typed_report(
            k,
            &pack.quote[j],
            pack.live[j],
            Ghost(begin@[j as int]),
            end[j],
        );
        j += 1;
    }
    out
}

/// The solver may return `out` for the batch.
pub open spec fn typed_batch<K: Arith>(
    k: K,
    columns: Columns,
    out: Seq<ImpliedVolResult>,
) -> bool {
    &&& out.len() == columns.size()
    &&& forall|i: int|
        0 <= i < out.len() ==> typed_answer(k, columns.row(i), #[trigger] out[i])
}

/// The option goes into the iteration.
pub open spec fn passed<K: Arith>(k: K, q: Quote) -> bool {
    plausible(q) && (steady(k) ==> rejection(q, carry_of(k, q)) is None)
}

/// The picks are in order, in range, and passed.
spec fn picks_fit<K: Arith>(k: K, columns: Columns, picks: Seq<usize>) -> bool {
    &&& forall|p: int| 0 <= p < picks.len() ==> #[trigger] picks[p] < columns.size()
    &&& forall|p: int, q: int|
        0 <= p < q < picks.len() ==> #[trigger] picks[p] < #[trigger] picks[q]
    &&& forall|p: int|
        0 <= p < picks.len() ==> passed(k, columns.row(#[trigger] picks[p] as int))
}

/// The options that are not picked have their results, and so have the first
/// `done` picks.
spec fn filled_in<K: Arith>(
    k: K,
    columns: Columns,
    picks: Seq<usize>,
    done: int,
    out: Seq<ImpliedVolResult>,
) -> bool {
    &&& out.len() == columns.size()
    &&& forall|i: int|
        0 <= i < out.len() && !picked(picks, 0, picks.len() as int, i) ==> typed_answer(
            k,
            columns.row(i),
            #[trigger] out[i],
        )
    &&& forall|p: int|
        #![trigger picks[p]]
        0 <= p < done ==> typed_answer(k, columns.row(picks[p] as int), out[picks[p] as int])
}

/// The results of the refused options, placeholders for the others, and the
/// list of the others.
fn refuse_all<K: Arith>(k: &K, columns: &Columns) -> (r: (Vec<ImpliedVolResult>, Vec<usize>))
    requires
        columns.matched(),
    ensures
        picks_fit(*k, *columns, r.1@),
        filled_in(*k, *columns, r.1@, 0, r.0@),
{
    let n: usize = columns.spot.len();
    let mut out: Vec<ImpliedVolResult> = Vec::new();
    let mut picks: Vec<usize> = Vec::new();
    let mut i: usize = 0;
    while i < n
        invariant
            columns.matched(),
            n == columns.size(),
            i <= n,
            out@.len() == i,
            picks_fit(*k, *columns, picks@),
            forall|p: int| 0 <= p < picks@.len() ==> #[trigger] picks@[p] < i,
            forall|h: int|
                0 <= h < i && !picked(picks@, 0, picks@.len() as int, h) ==> typed_answer(
                    *k,
                    columns.row(h),
                    #[trigger] out@[h],
                ),
        decreases n - i,
    {
        let q = columns.quote(i);
        let c = carry(k, &q);
        let ghost before = picks@;
        match pre_classify(&q, &c) {
            Some(status) => {
                out.push(refuse(status));
            },
            None => {
                out.push(refuse(ImpliedVolStatus::FailedToConverge));
                picks.push(i);
                assert(picks@[before.len() as int] == i);
                assert forall|h: int|
                    0 <= h < i && !picked(picks@, 0, picks@.len() as int, h) implies !picked(
                    before,
                    0,
                    before.len() as int,
                    h,
                ) by {
                    if picked(before, 0, before.len() as int, h) {
                        let p = choose|p: int|
                            0 <= p < 0 + before.len() && #[trigger] before[p] == h;
                        assert(picks@[p] == h);
                    }
                }
            },
        }
        i += 1;
    }
    (out, picks)
}

/// Writing the lanes of a pack to its rows extends the results by them.
proof fn lemma_scattered<K: Arith>(
    k: K,
    columns: Columns,
    picks: Seq<usize>,
    start: int,
    take: int,
    lanes: [ImpliedVolResult; LANES],
    before: Seq<ImpliedVolResult>,
    after: Seq<ImpliedVolResult>,
)
    requires
        picks_fit(k, columns, picks),
        0 <= start,
        0 <= take <= LANES,
        start + take <= picks.len(),
        filled_in(k, columns, picks, start, before),
        after.len() == before.len(),
        forall|p: int|
            #![trigger picks[p]]
            start <= p < start + take ==> iterated_answer(
                k,
                columns.row(picks[p] as int),
                lanes[p - start],
            ),
        forall|p: int|
            #![trigger picks[p]]
            start <= p < start + take ==> after[picks[p] as int] == lanes[p - start],
        forall|i: int|
            0 <= i < before.len() && !picked(picks, start, take, i) ==> #[trigger] after[i]
                == before[i],
    ensures
        filled_in(k, columns, picks, start + take, after),
{
    assert forall|p: int| #![trigger picks[p]] 0 <= p < start + take implies typed_answer(
        k,
        columns.row(picks[p] as int),
        after[picks[p] as int],
    ) by {
        if p < start {
            if picked(picks, start, take, picks[p] as int) {
                let q = choose|q: int| start <= q < start + take && #[trigger] picks[q] == picks[p];
                assert(picks[p] < picks[q]);
            }
            assert(after[picks[p] as int] == before[picks[p] as int]);
        } else {
            assert(passed(k, columns.row(picks[p] as int)));
        }
    }
    assert forall|i: int|
        0 <= i < after.len() && !picked(picks, 0, picks.len() as int, i) implies typed_answer(
        k,
        columns.row(i),
        #[trigger] after[i],
    ) by {
        if picked(picks, start, take, i) {
            let q = choose|q: int| start <= q < start + take && #[trigger] picks[q] == i;
            assert(0 <= q < 0 + picks.len() && picks[q] == i);
        }
        assert(after[i] == before[i]);
    }
}

/// Implied volatilities of a batch, with a status each. The options that are
/// not refused are gathered into packs, and their results put back in place.
pub fn implied_vol_typed_batch<K: Arith>(
    k: &K,
    spot: &[Double],
    strike: &[Double],
    tte: &[Double],
    rate: &[Double],
    price: &[Double],
    kind: &[OptionKind],
) -> (out: Vec<ImpliedVolResult>)
    requires
        table(spot, strike, tte, rate, price, kind).matched(),
    ensures
        typed_batch(*k, table(spot, strike, tte, rate, price, kind), out@),
{
    let columns = Columns { spot, strike, tte, rate, price, kind };
    let (mut out, picks) = refuse_all(k, &columns);
    let m: usize = picks.len();
    let mut start: usize = 0;
    while start < m
        invariant
            columns.matched(),
            m == picks@.len(),
            picks_fit(*k, columns, picks@),
            start <= m,
            filled_in(*k, columns, picks@, start as int, out@),
        decreases m - start,
    {
        let pack = load_picked(&columns, &picks, start, num(ONE));
        let lanes = solve_chunk_typed(k, pack);
        let take: usize = filled_lanes(m, start);
        let ghost before = out@;
        scatter_lanes(&mut out, &picks, start, &lanes, take);
        proof {
            let rows = picked_rows(columns, picks@);
            assert forall|p: int|
                #![trigger picks@[p]]
                start <= p < start + take implies iterated_answer(
                *k,
                columns.row(picks@[p] as int),
                lanes[p - start],
            ) by {
                let j = p - start;
                assert(start + j == p);
                assert(pack.live[j]);
                assert(rows[start + j] == columns.row(picks@[p] as int));
            }
            lemma_scattered(
                *k,
                columns,
                picks@,
                start as int,
                take as int,
                lanes,
                before,
                out@,
            );
        }
        start += take;
    }
    proof {
        assert forall|i: int| 0 <= i < out@.len() implies typed_answer(
            *k,
            columns.row(i),
            #[trigger] out@[i],
        ) by {
            if picked(picks@, 0, m as int, i) {
                let p = choose|p: int| 0 <= p < 0 + m && #[trigger] picks@[p] == i;
                assert(typed_answer(*k, columns.row(picks@[p] as int), out@[picks@[p] as int]));
            }
        }
    }
    out
}

/// The implied volatility of one option, with its status.
pub fn implied_vol_typed<K: Arith>(
    k: &K,
    spot: Double,
    strike: Double,
    tte: Double,
    rate: Double,
    price: Double,
    kind: OptionKind,
) -> (r: ImpliedVolResult)
    ensures
        typed_answer(*k, quote_of(spot, strike, tte, rate, price, kind), r),
{
    let s: [Double; 1] = [spot];
    let x: [Double; 1] = [strike];
    let t: [Double; 1] = [tte];
    let y: [Double; 1] = [rate];
    let p: [Double; 1] = [price];
    let c: [OptionKind; 1] = [kind];
    let out = implied_vol_typed_batch(k, &s, &x, &t, &y, &p, &c);
    proof {
        let columns = table(&s, &x, &t, &y, &p, &c);
        assert(columns.row(0) == quote_of(spot, strike, tte, rate, price, kind));
        assert(typed_answer(*k, columns.row(0), out@[0]));
    }
    out[0]
}

/// The value of a result always belongs to its status, and the plain value is a
/// NaN exactly where nothing was computed.
pub proof fn law_value_mirrors_status<K: Arith>(k: K, q: Quote, r: ImpliedVolResult)
    requires
        typed_answer(k, q, r),
    ensures
        mirrors(r),
        r.plain().nan() <==> !(r.status is Computed),
{
}

/// The statuses of a refusal and the screen of the direct solver agree: what is
/// refused here is screened out there, and the other way round.
pub proof fn law_refusal_is_screen(q: Quote, c: Carry)
    ensures
        rejection(q, c) is None <==> admits(q, c),
{
}

/// An option that is refused here is a NaN from the direct solver.
pub proof fn law_refused_is_nan_from_direct_solver<K: Arith>(k: K, q: Quote)
    requires
        rejection(q, carry_of(k, q)) is Some,
    ensures
        direct_of(k, q) == num(NAN),
{
    law_refusal_is_screen(q, carry_of(k, q));
    law_screened_out_is_nan(k, q);
}

/// `[VOL_MIN, VOL_MAX]` is within the resolution of the volatility.
pub open spec fn in_reach(sigma: Double, e: Judgement) -> bool {
    !under(sigma, e) && !over(sigma, e)
}

/// A volatility is computed exactly when the iteration has converged, prices
/// back, is resolved within the budget, and lies outside `[VOL_MIN, VOL_MAX]` by
/// no more than its resolution.
pub proof fn law_computed_is_resolved(end: LaneState, e: Judgement)
    ensures
        outcome(end, e).status is Computed <==> trusted(end, e) && in_reach(end.sigma, e),
{
}

/// An option whose iteration has not converged within its steps is reported as
/// such.
pub proof fn law_unconverged_is_reported<K: Arith>(k: K, q: Quote)
    requires
        rejection(q, carry_of(k, q)) is None,
        !wide_end(k, q).converged,
    ensures
        typed_of(k, q) == refused(ImpliedVolStatus::FailedToConverge),
{
}

/// A root reported as outside `[VOL_MIN, VOL_MAX]` does lie outside, on the side
/// that the status names.
pub proof fn law_outside_status_is_true<K: Arith>(k: K, q: Quote, r: ImpliedVolResult)
    requires
        typed_answer(k, q, r),
    ensures
        r.status matches ImpliedVolStatus::BelowVolMin { computed } ==> r.value == computed
            && computed.below(num(VOL_MIN)),
        r.status matches ImpliedVolStatus::AboveVolMax { computed } ==> r.value == computed
            && num(VOL_MAX).below(computed),
{
}

/// No volatility in `[VOL_MIN, VOL_MAX]` is priced below the lower end or above
/// the upper one, as it is where the price does not fall as the volatility
/// rises.
pub open spec fn ends_bound_prices<K: Arith>(k: K, q: Quote) -> bool {
    forall|b: Double|
        bracketed(b) ==> priced_of(k, q, num(VOL_MIN)).price.at_most(
            (#[trigger] priced_of(k, q, b)).price,
        ) && priced_of(k, q, b).price.at_most(priced_of(k, q, num(VOL_MAX)).price)
}

/// A difference does not fall as the number that `y` is taken from rises.
pub open spec fn differences_rise<K: Arith>(k: K, y: Double) -> bool {
    forall|a: Double, b: Double|
        a.at_most(b) ==> (#[trigger] diff(k, a, y)).at_most(#[trigger] diff(k, b, y))
}

/// The price at `sigma` is above the premium by more than the direct solver
/// allows.
pub open spec fn overpriced<K: Arith>(k: K, q: Quote, sigma: Double) -> bool {
    evidence_of(k, q, sigma).allowed.below(diff(k, priced_of(k, q, sigma).price, q.price))
}

/// The price at `sigma` is below the premium by more than the direct solver
/// allows.
pub open spec fn underpriced<K: Arith>(k: K, q: Quote, sigma: Double) -> bool {
    evidence_of(k, q, sigma).allowed.below(
        flipped(diff(k, priced_of(k, q, sigma).price, q.price)),
    )
}

/// The prices tell a root outside the range from the near end of the range:
/// where a volatility that lies outside by more than its resolution prices back,
/// the near end does not, on the terms of the direct solver.
pub open spec fn ends_told_apart<K: Arith>(k: K, q: Quote) -> bool {
    forall|a: Double|
        {
            let e = #[trigger] judgement_of(k, q, a);
            e.residual.at_most(e.allowed) ==> {
                &&& under(a, e) ==> overpriced(k, q, num(VOL_MIN))
                &&& over(a, e) ==> underpriced(k, q, num(VOL_MAX))
            }
        }
}

/// A root that is reported as outside `[VOL_MIN, VOL_MAX]` is a NaN from the
/// direct solver, where the ends of the range bound the prices in it, the
/// machine's differences rise, and the prices tell the root from the near end.
/// The last leaves out a root so close to the end that both pass.
pub proof fn law_outside_root_is_nan_from_direct_solver<K: Arith>(k: K, q: Quote)
    requires
        ends_bound_prices(k, q),
        differences_rise(k, q.price),
        ends_told_apart(k, q),
        typed_of(k, q).status is BelowVolMin || typed_of(k, q).status is AboveVolMax,
    ensures
        direct_of(k, q) == num(NAN),
{
    let root = wide_end(k, q).sigma;
    let e = judgement_of(k, q, root);
    assert(e.residual.at_most(e.allowed));
    let valid = admits(q, carry_of(k, q));
    law_iterates_in_vol_range(k, q, valid, MAX_ITERS as nat);
    let sigma = direct_end(k, q, valid).sigma;
    let found = diff(k, priced_of(k, q, sigma).price, q.price);
    lemma_units_zero(found.magnitude());
    law_order_is_encoding_order(found, unsigned(found));
    law_order_is_encoding_order(flipped(found), unsigned(found));
    if under(root, e) {
        let low = diff(k, priced_of(k, q, num(VOL_MIN)).price, q.price);
        assert(low.at_most(found));
    } else {
        let high = diff(k, priced_of(k, q, num(VOL_MAX)).price, q.price);
        assert(found.at_most(high));
        assert(flipped(high).value() <= flipped(found).value());
    }
}

/// The wide iteration starts where the direct solver starts, and never leaves
/// its bracket.
pub proof fn law_wide_iteration_in_bracket<K: Arith>(k: K, q: Quote, steps: nat)
    ensures
        wide_begin(k, q).sigma == seed(guess_of(k, q)),
        widely_bracketed(
            lane_after(
                (Householder { machine: &k }),
                q,
                wide_course(),
                wide_begin(k, q),
                steps,
            ).sigma,
        ),
{
    let lo = num(ITER_VOL_MIN);
    let hi = num(ITER_VOL_MAX);
    law_order_is_encoding_order(lo, hi);
    law_order_is_encoding_order(lo, num(VOL_MIN));
    law_order_is_encoding_order(num(VOL_MAX), hi);
    law_seed_in_bracket(guess_of(k, q));
    assert(bracketed(seed(guess_of(k, q))));
    law_clamp_lands_in_bracket(seed(guess_of(k, q)), lo, hi);
    law_iterates_stay_in_bracket(
        Householder { machine: &k },
        q,
        wide_course(),
        wide_begin(k, q),
        steps,
    );
}

/// An option gets from a batch what it gets on its own, wherever it stands in
/// the batch, and whichever of the others are refused.
pub proof fn law_typed_batch_equals_one<K: Arith>(
    k: K,
    columns: Columns,
    out: Seq<ImpliedVolResult>,
    i: int,
    one: ImpliedVolResult,
)
    requires
        steady(k),
        typed_batch(k, columns, out),
        0 <= i < out.len(),
        typed_answer(k, columns.row(i), one),
    ensures
        out[i] == one,
{
    assert(typed_answer(k, columns.row(i), out[i]));
}

/// The wide iteration goes from `1e-8` to `50`; the cumulative normal counts as off
/// by `2e-15`, and a volatility as known when it is resolved to `1e-6`.
pub proof fn law_typed_thresholds()
    ensures
        rounds(num(ITER_VOL_MIN), 1, 100000000),
        equals(num(ITER_VOL_MAX), 50, 1),
        rounds(num(PHI_HART_EPS), 2, 1000000000000000),
        rounds(num(RESOLUTION_BUDGET), 1, 1000000),
{
    lemma2_to64();
    lemma2_to64_rest();
    lemma_pow2_two_words(8);
    lemma_pow2_two_words(15);
    lemma_pow2_two_words(37);
    lemma_rounds(num(ITER_VOL_MIN), 996, 6044629098073146, 604462909807314587353088int, 1, 100000000);
    lemma_rounds(num(ITER_VOL_MAX), 1028, 7036874417766400, 140737488355328, 50, 1);
    lemma_rounds(num(PHI_HART_EPS), 974, 5070602400912918, 2535301200456458802993406410752int, 2, 1000000000000000);
    lemma_rounds(num(RESOLUTION_BUDGET), 1003, 4722366482869645, 4722366482869645213696int, 1, 1000000);
}

/// What becomes of an option before the iteration, by its terms alone. It is
/// `NonFinite` exactly when one of the five terms is infinite or a NaN, or spot,
/// strike or expiry is not above zero, on every machine.
pub proof fn law_non_finite_exactly<K: Arith>(k: K, q: Quote, r: ImpliedVolResult)
    requires
        typed_answer(k, q, r),
    ensures
        r.status is NonFinite <==> !({
            &&& encodes_finite(q.spot) && encodes_finite(q.strike) && encodes_finite(q.tte)
            &&& encodes_finite(q.rate) && encodes_finite(q.price)
            &&& encodes_positive(q.spot) && encodes_positive(q.strike)
            &&& encodes_positive(q.tte)
        }),
{
    law_encoding_tells_kinds(q.spot);
    law_encoding_tells_kinds(q.strike);
    law_encoding_tells_kinds(q.tte);
    law_encoding_tells_kinds(q.rate);
    law_encoding_tells_kinds(q.price);
}

/// An option with finite terms, and spot, strike and expiry above zero, is
/// refused for its premium alone: `BelowIntrinsic` exactly when the premium is
/// not above zero or not above what exercise would bring, `AboveMaximum` exactly
/// when it is above those and not below the spot of a call or the discounted
/// strike of a put. Every other such option goes through the iteration.
pub proof fn law_premium_decides_refusal<K: Arith>(k: K, q: Quote, r: ImpliedVolResult)
    requires
        steady(k),
        typed_answer(k, q, r),
        encodes_positive(q.spot) && encodes_positive(q.strike) && encodes_positive(q.tte),
        encodes_finite(q.rate) && encodes_finite(q.price),
    ensures
        ({
            let owed = prod(k, q.strike, exp_of(k, prod(k, flipped(q.rate), q.tte)));
            let gain = if q.is_call {
                diff(k, q.spot, owed)
            } else {
                diff(k, owed, q.spot)
            };
            let cap = if q.is_call {
                q.spot
            } else {
                owed
            };
            let low = !num(0).below(q.price) || q.price.at_most(gain);
            let high = !q.price.below(cap);
            &&& r.status is BelowIntrinsic <==> low
            &&& r.status is AboveMaximum <==> !low && high
            &&& low || high ==> r.value == num(NAN)
            &&& !low && !high ==> r == iterated_of(k, q)
        }),
{
    law_encoding_tells_kinds(q.spot);
    law_encoding_tells_kinds(q.strike);
    law_encoding_tells_kinds(q.tte);
    law_encoding_tells_kinds(q.rate);
    law_encoding_tells_kinds(q.price);
}

/// The extent of an option is the larger of its spot and its discounted strike.
pub proof fn law_extent_is_larger_leg<K: Arith>(k: K, q: Quote)
    ensures
        ({
            let owed = prod(k, q.strike, exp_of(k, prod(k, flipped(q.rate), q.tte)));
            !q.spot.nan() && !owed.nan() ==> {
                &&& unsigned(q.spot).at_most(extent_of(k, q))
                &&& unsigned(owed).at_most(extent_of(k, q))
                &&& extent_of(k, q) == unsigned(q.spot) || extent_of(k, q) == unsigned(owed)
            }
        }),
{
}

/// The floor of a residual is the largest of three: the sensitivity times one
/// unit of the volatility, one unit of the premium, and the error of the
/// cumulative normal on the extent of the option.
pub proof fn law_floor_is_largest_rounding<K: Arith>(
    k: K,
    q: Quote,
    vega: Double,
    sigma: Double,
)
    ensures
        ({
            let a = prod(k, prod(k, unsigned(vega), num(EPSILON)), unsigned(sigma));
            let b = prod(k, unsigned(q.price), num(EPSILON));
            let c = prod(k, extent_of(k, q), num(PHI_HART_EPS));
            let floor = floor_of(k, q, vega, sigma);
            !a.nan() && !b.nan() && !c.nan() ==> {
                &&& a.at_most(floor) && b.at_most(floor) && c.at_most(floor)
                &&& floor == a || floor == b || floor == c
            }
        }),
{
}

/// One step of the wide iteration: the Newton step `eta`, times one plus half the
/// second derivative over the first times `eta`, over one plus that derivative
/// times `eta` plus a sixth of the third over the first times `eta` squared. The
/// derivatives over the first are `d1 d2 / sigma` and
/// `((d1 d2)^2 - d1^2 - d2^2 - d1 d2) / sigma^2`.
pub proof fn law_wide_step_is_third_order<K: Arith>(k: K, q: Quote, sigma: Double)
    ensures
        ({
            let p = priced_of(k, q, sigma);
            let over = diff(k, p.price, q.price);
            let slope = if num(TINY).at_most(p.vega) {
                p.vega
            } else {
                num(TINY)
            };
            let eta = quot(k, flipped(over), slope);
            let both = prod(k, p.d1, p.d2);
            let squares = diff(
                k,
                diff(k, prod(k, both, both), prod(k, p.d1, p.d1)),
                prod(k, p.d2, p.d2),
            );
            let second = quot(k, both, sigma);
            let third = quot(k, diff(k, squares, both), prod(k, sigma, sigma));
            let top = sum(k, num(ONE), prod(k, prod(k, num(HALF), second), eta));
            let sixth = quot(k, prod(k, prod(k, third, eta), eta), num(SIX));
            let bottom = sum(k, sum(k, num(ONE), prod(k, second, eta)), sixth);
            let found = householder_of(k, q, sigma);
            &&& found.proposal == sum(
                k,
                sigma,
                quot(k, prod(k, eta, top), correction_denominator(bottom)),
            )
            &&& found.residual == unsigned(over)
            &&& found.allowed == prod(k, num(EIGHT), floor_of(k, q, p.vega, sigma))
        }),
{
}

/// A volatility at which the option is worth its premium is where the wide
/// iteration rests.
pub proof fn law_wide_root_is_at_rest<K: Arith>(k: K, q: Quote, sigma: Double)
    requires
        neutral(k),
        q.price.finite(),
        priced_of(k, q, sigma).price == q.price,
        sigma.finite() && num(0).below(sigma),
        sum(
            k,
            num(ONE),
            prod(
                k,
                prod(
                    k,
                    num(HALF),
                    quot(k, prod(k, priced_of(k, q, sigma).d1, priced_of(k, q, sigma).d2), sigma),
                ),
                quot(
                    k,
                    flipped(diff(k, q.price, q.price)),
                    larger(priced_of(k, q, sigma).vega, num(TINY)),
                ),
            ),
        ).finite(),
    ensures
        householder_of(k, q, sigma).proposal == sigma,
        is_zero(householder_of(k, q, sigma).residual),
{
    let at = priced_of(k, q, sigma);
    let over = diff(k, at.price, q.price);
    let slope = larger(at.vega, num(TINY));
    let eta = quot(k, flipped(over), slope);
    law_order_is_encoding_order(num(0), num(TINY));
    law_order_is_encoding_order(num(0), slope);
    law_order_is_encoding_order(num(TINY), slope);
    law_order_is_encoding_order(num(0), sigma);
    assert(is_zero(over) && is_zero(flipped(over)));
    assert(is_zero(eta));
    let both = prod(k, at.d1, at.d2);
    let second = quot(k, both, sigma);
    let top = sum(k, num(ONE), prod(k, prod(k, num(HALF), second), eta));
    assert(is_zero(prod(k, eta, top)));
    let squares = diff(
        k,
        diff(k, diff(k, prod(k, both, both), prod(k, at.d1, at.d1)), prod(k, at.d2, at.d2)),
        both,
    );
    let third = quot(k, squares, prod(k, sigma, sigma));
    let bottom = sum(
        k,
        sum(k, num(ONE), prod(k, second, eta)),
        quot(k, prod(k, prod(k, third, eta), eta), num(SIX)),
    );
    law_guard_bounds_away_from_zero(bottom);
    lemma_units_zero(0);
    let guarded = correction_denominator(bottom);
    assert(!is_zero(guarded) && !guarded.nan());
    assert(is_zero(quot(k, prod(k, eta, top), guarded)));
    assert(!is_zero(sigma));
}

/// What the typed solver answers where the iteration decides: it runs at most 32
/// steps from the starting volatility of the direct solver, in the wide bracket,
/// and converges by the residual alone. The last iterate is believed when the
/// iteration has converged, the iterate is finite and prices back within eight
/// floors, the sensitivity exceeds `1e-12` of the extent, and the floor over the
/// sensitivity is no more than `1e-6`. One that is believed is below or above
/// the reported range only if it is so by more than that resolution.
pub proof fn law_status_tells_the_last_iterate<K: Arith>(k: K, q: Quote)
    ensures
        ({
            let end = lane_after(
                Householder { machine: &k },
                q,
                Course {
                    bracket: Bracket { lo: num(ITER_VOL_MIN), hi: num(ITER_VOL_MAX) },
                    test: StepTest::Ignore,
                },
                LaneState { sigma: seed(guess_of(k, q)), converged: false },
                32,
            );
            let sigma = end.sigma;
            let p = priced_of(k, q, sigma);
            let slope = if num(TINY).at_most(unsigned(p.vega)) {
                unsigned(p.vega)
            } else {
                num(TINY)
            };
            let floor = floor_of(k, q, p.vega, sigma);
            let resolution = quot(k, floor, slope);
            let believed = {
                &&& end.converged && encodes_finite(sigma)
                &&& unsigned(diff(k, p.price, q.price)).at_most(prod(k, num(EIGHT), floor))
                &&& prod(k, num(SMALL), extent_of(k, q)).below(unsigned(p.vega))
                &&& resolution.at_most(num(RESOLUTION_BUDGET))
            };
            let low = sigma.below(num(VOL_MIN)) && sum(k, sigma, resolution).below(num(VOL_MIN));
            let high = num(VOL_MAX).below(sigma) && num(VOL_MAX).below(
                diff(k, sigma, resolution),
            );
            let r = iterated_of(k, q);
            &&& r.status is FailedToConverge <==> !believed
            &&& r.status is BelowVolMin <==> believed && low
            &&& r.status is AboveVolMax <==> believed && !low && high
            &&& r.status is Computed <==> believed && !low && !high
            &&& believed ==> r.value == sigma
            &&& !believed ==> r.value == num(NAN)
        }),
{
    law_wide_iteration_in_bracket(k, q, 0);
    law_encoding_tells_kinds(wide_end(k, q).sigma);
}

/// A caller who knows of no status gets the value of a computed option, and a NaN
/// for every other.
pub proof fn law_plain_value_is_computed_value(r: ImpliedVolResult)
    ensures
        r.status is Computed ==> r.plain() == r.value,
        !(r.status is Computed) ==> r.plain() == num(0x7FF8_0000_0000_0000),
{
}

/// Whatever the machine, a value is the canonical NaN, or lies between `1e-8` and
/// `50`.
pub proof fn law_typed_value_is_in_wide_range<K: Arith>(k: K, q: Quote, r: ImpliedVolResult)
    requires
        typed_answer(k, q, r),
    ensures
        r.value.bits == 0x7FF8_0000_0000_0000 || num(ITER_VOL_MIN).at_most(r.value)
            && r.value.at_most(num(ITER_VOL_MAX)),
{
}

} // verus!
