//! Two-stage solving: what depends on strike and expiry alone is worked out
//! once, as a context, and then serves many prices.
//!
//! A solve seeds a total volatility from the context and the price, and takes
//! three third-order steps, each clamped into the interval of the context. Far
//! out of the money the seed is an asymptotic one. A price that no seed covers,
//! and one at which the law does not meet the probability after the steps, gets
//! a NaN.
use crate::arith::{
    diff, exp_of, is_zero, ln_of, multiplication_rises, neutral, prod, quot, sqrt_of, steady,
    subtraction_falls, sum, Arith,
};
use crate::constants::{FOUR, ONE, TINY, TWO, ZERO};
use crate::direct::{positive, VOL_MAX, VOL_MIN};
use crate::double::{
    clamped, equals, flipped, law_clamp_lands_in_bracket, law_order_is_encoding_order, lemma_rounds,
    num, rounds, unsigned, Double, NAN,
};
use crate::lanes::{append_lanes, filled, filled_lanes, LANES};
use crate::schadner::{
    call_equivalent, call_equivalent_of, ig_cdf_pdf, ig_of, mean, mean_of, norm_factor,
    norm_factor_of, EXPLICIT_ABSOLUTE,
};
use vstd::arithmetic::power2::{lemma2_to64, lemma2_to64_rest};
use vstd::prelude::*;

verus! {

/// Terms of the seed's expansion in the moneyness.
pub const SEED_TERMS: usize = 13;

/// Steps after the seed.
pub const HOUSEHOLDER3_STEPS_CTX: usize = 3;

/// `0.001`, the least moneyness that the seed is fitted for.
pub const SEED_K_LO: u64 = 0x3F50_624D_D2F1_A9FC;

/// `3.0`, the largest moneyness that the seed is fitted for.
pub const SEED_K_HI: u64 = 0x4008_0000_0000_0000;

/// The middle of the logarithms of the two.
pub const SEED_CENTRE: u64 = 0xC007_3C8F_FAE4_BEDE;

/// Half the distance between the logarithms of the two.
pub const SEED_HALF_WIDTH: u64 = 0x4010_0342_9C1D_A031;

/// `2.95`, where the wing begins.
pub const WING_K_LO: u64 = 0x4007_9999_9999_999A;

/// `8.0`, where the wing ends.
pub const WING_H_MAX: u64 = 0x4020_0000_0000_0000;

/// `0.30`, the survival probability below which the wing applies.
pub const WING_Q_MAX: u64 = 0x3FD3_3333_3333_3333;

/// The probabilities that the seed is fitted for.
#[derive(Clone, Copy, Debug, PartialEq, Eq, Structural)]
pub struct SeedRange {
    pub lo: Double,
    pub hi: Double,
}

/// The seeds and the step of the quantile, which a caller supplies with the
/// arithmetic.
pub trait Seeds: Arith {
    /// The probabilities that the fitted seed covers.
    fn seed_range(&self) -> SeedRange;

    /// The fitted seed at the probability `q`, from the basis in the moneyness.
    fn fitted_seed(&self, basis: &[Double], q: Double) -> Double;

    /// The asymptotic seed at the moneyness `h` and the survival probability
    /// `q`.
    fn wing_seed(&self, h: Double, q: Double) -> Double;

    /// One third-order step from the total volatility `v` towards the
    /// probability `q` of the law with mean `mu`.
    fn third_order(&self, v: Double, mu: Double, q: Double) -> Double;
}

/// The probabilities that the fitted seed covers.
pub open spec fn range_of<K: Seeds>(k: K) -> SeedRange {
    choose|r: SeedRange| call_ensures(K::seed_range, (&k,), r)
}

/// The fitted seed of the basis may be `r`.
pub open spec fn may_fit<K: Seeds>(k: K, basis: Seq<Double>, q: Double, r: Double) -> bool {
    exists|s: &[Double]| s@ == basis && #[trigger] call_ensures(K::fitted_seed, (&k, s, q), r)
}

/// The fitted seed of the basis.
pub open spec fn fitted_of<K: Seeds>(k: K, basis: Seq<Double>, q: Double) -> Double {
    choose|r: Double| may_fit(k, basis, q, r)
}

/// The asymptotic seed.
pub open spec fn wing_of<K: Seeds>(k: K, h: Double, q: Double) -> Double {
    choose|r: Double| call_ensures(K::wing_seed, (&k, h, q), r)
}

/// One third-order step.
pub open spec fn step_of<K: Seeds>(k: K, v: Double, mu: Double, q: Double) -> Double {
    choose|r: Double| call_ensures(K::third_order, (&k, v, mu, q), r)
}

/// The arithmetic, the seeds and the step always answer alike.
pub open spec fn steady_seeds<K: Seeds>(k: K) -> bool {
    &&& steady(k)
    &&& forall|r: SeedRange| #[trigger] call_ensures(K::seed_range, (&k,), r) ==> r == range_of(k)
    &&& forall|s: &[Double], q: Double, r: Double| #[trigger]
        call_ensures(K::fitted_seed, (&k, s, q), r) ==> r == fitted_of(k, s@, q)
    &&& forall|h: Double, q: Double, r: Double| #[trigger]
        call_ensures(K::wing_seed, (&k, h, q), r) ==> r == wing_of(k, h, q)
    &&& forall|v: Double, mu: Double, q: Double, r: Double| #[trigger]
        call_ensures(K::third_order, (&k, v, mu, q), r) ==> r == step_of(k, v, mu, q)
}

/// What depends on strike and expiry alone.
#[derive(Clone, Copy, Debug)]
pub struct OtmContext {
    /// Square root of the expiry.
    pub sqrt_t: Double,
    /// Logarithm of strike over forward.
    pub k_log: Double,
    /// Its magnitude.
    pub ak: Double,
    /// Strike over forward.
    pub ek: Double,
    /// The factor that the probability is divided by.
    pub m: Double,
    /// The mean of the law.
    pub mu: Double,
    /// Total volatility of `VOL_MIN`.
    pub v_lo: Double,
    /// Total volatility of `VOL_MAX`.
    pub v_hi: Double,
    /// The moneyness that the seed is taken at.
    pub k_for_seed: Double,
    /// The seed's basis in the moneyness.
    pub cheb_tu: [Double; SEED_TERMS],
}

/// What a solve reads of a context.
#[derive(Clone, Copy, Debug)]
pub struct Terms {
    pub sqrt_t: Double,
    pub ak: Double,
    pub m: Double,
    pub mu: Double,
    pub v_lo: Double,
    pub v_hi: Double,
    pub cheb_tu: [Double; SEED_TERMS],
}

/// Eight contexts, column by column.
#[derive(Clone, Copy, Debug)]
pub struct OtmContextSimd {
    pub sqrt_t: [Double; LANES],
    pub ak: [Double; LANES],
    pub m: [Double; LANES],
    pub mu: [Double; LANES],
    pub v_lo: [Double; LANES],
    pub v_hi: [Double; LANES],
    pub cheb_tu: [[Double; SEED_TERMS]; LANES],
}

/// The model of what a solve reads of a context.
#[verifier::ext_equal]
pub struct Outline {
    pub sqrt_t: Double,
    pub ak: Double,
    pub m: Double,
    pub mu: Double,
    pub v_lo: Double,
    pub v_hi: Double,
    pub basis: Seq<Double>,
}

impl View for Terms {
    type V = Outline;

    open spec fn view(&self) -> Outline {
        Outline {
            sqrt_t: self.sqrt_t,
            ak: self.ak,
            m: self.m,
            mu: self.mu,
            v_lo: self.v_lo,
            v_hi: self.v_hi,
            basis: self.cheb_tu@,
        }
    }
}

impl View for OtmContext {
    type V = Outline;

    open spec fn view(&self) -> Outline {
        Outline {
            sqrt_t: self.sqrt_t,
            ak: self.ak,
            m: self.m,
            mu: self.mu,
            v_lo: self.v_lo,
            v_hi: self.v_hi,
            basis: self.cheb_tu@,
        }
    }
}

impl OtmContextSimd {
    /// What a solve reads of lane `j`.
    pub open spec fn lane(self, j: int) -> Outline {
        Outline {
            sqrt_t: self.sqrt_t[j],
            ak: self.ak[j],
            m: self.m[j],
            mu: self.mu[j],
            v_lo: self.v_lo[j],
            v_hi: self.v_hi[j],
            basis: self.cheb_tu[j]@,
        }
    }

    /// What a solve reads of lane `j`.
    pub fn read_lane(&self, j: usize) -> (r: Terms)
        requires
            j < LANES,
        ensures
            r@ == self.lane(j as int),
    {
        Terms {
            sqrt_t: self.sqrt_t[j],
            ak: self.ak[j],
            m: self.m[j],
            mu: self.mu[j],
            v_lo: self.v_lo[j],
            v_hi: self.v_hi[j],
            cheb_tu: self.cheb_tu[j],
        }
    }

    /// Eight times the same terms.
    pub fn splat(t: &Terms) -> (r: OtmContextSimd)
        ensures
            forall|j: int| 0 <= j < LANES ==> #[trigger] r.lane(j) == t@,
    {
        OtmContextSimd {
            sqrt_t: [t.sqrt_t;LANES],
            ak: [t.ak;LANES],
            m: [t.m;LANES],
            mu: [t.mu;LANES],
            v_lo: [t.v_lo;LANES],
            v_hi: [t.v_hi;LANES],
            cheb_tu: [t.cheb_tu;LANES],
        }
    }

    /// Replaces lane `j`.
    pub fn set_lane(&mut self, j: usize, t: &Terms)
        requires
            j < LANES,
        ensures
            final(self).lane(j as int) == t@,
            forall|i: int|
                0 <= i < LANES && i != j ==> #[trigger] final(self).lane(i) == old(self).lane(i),
    {
        self.sqrt_t[j] = t.sqrt_t;
        self.ak[j] = t.ak;
        self.m[j] = t.m;
        self.mu[j] = t.mu;
        self.v_lo[j] = t.v_lo;
        self.v_hi[j] = t.v_hi;
        self.cheb_tu[j] = t.cheb_tu;
    }
}

/// The moneyness that the seed is taken at.
pub open spec fn axis_of(k_log: Double) -> Double {
    clamped(unsigned(k_log), num(SEED_K_LO), num(SEED_K_HI))
}

/// Where the moneyness lies on the axis of the basis.
pub open spec fn place_of<K: Arith>(k: K, k_log: Double) -> Double {
    quot(
        k,
        diff(k, ln_of(k, axis_of(k_log)), num(SEED_CENTRE)),
        num(SEED_HALF_WIDTH),
    )
}

/// Term `i` of the basis at `u`: one, `u`, and then twice `u` times the term
/// before, less the one before that.
pub open spec fn cheb_of<K: Arith>(k: K, u: Double, i: nat) -> Double
    decreases i,
{
    if i == 0 {
        num(ONE)
    } else if i == 1 {
        u
    } else {
        diff(
            k,
            prod(k, prod(k, num(TWO), u), cheb_of(k, u, (i - 1) as nat)),
            cheb_of(k, u, (i - 2) as nat),
        )
    }
}

/// The basis at `u`.
pub open spec fn basis_of<K: Arith>(k: K, u: Double) -> Seq<Double> {
    Seq::new(SEED_TERMS as nat, |i: int| cheb_of(k, u, i as nat))
}

/// The basis at `u`.
pub fn basis<K: Arith>(k: &K, u: Double) -> (r: [Double; SEED_TERMS])
    ensures
        steady(*k) ==> r@ == basis_of(*k, u),
{
    let mut r: [Double; SEED_TERMS] = [num(ONE);SEED_TERMS];
    r[1] = u;
    let twice = k.times(num(TWO), u);
    let mut i: usize = 2;
    while i < SEED_TERMS
        invariant
            2 <= i <= SEED_TERMS,
            steady(*k) ==> twice == prod(*k, num(TWO), u),
            steady(*k) ==> forall|h: int|
                0 <= h < i ==> #[trigger] r@[h] == cheb_of(*k, u, h as nat),
        decreases SEED_TERMS - i,
    {
        r[i] = k.minus(k.times(twice, r[i - 1]), r[i - 2]);
        i += 1;
    }
    proof {
        if steady(*k) {
            assert(r@ =~= basis_of(*k, u));
        }
    }
    r
}

/// What a solve reads of the context of a log-moneyness and an expiry.
pub open spec fn outline_of<K: Arith>(k: K, k_log: Double, t: Double) -> Outline {
    let root = sqrt_of(k, t);
    Outline {
        sqrt_t: root,
        ak: unsigned(k_log),
        m: norm_factor_of(k_log, exp_of(k, k_log)),
        mu: mean_of(k, unsigned(k_log)),
        v_lo: prod(k, num(VOL_MIN), root),
        v_hi: prod(k, num(VOL_MAX), root),
        basis: basis_of(k, place_of(k, k_log)),
    }
}

/// `ctx` may be the context of a log-moneyness and an expiry.
pub open spec fn built<K: Arith>(k: K, k_log: Double, t: Double, ctx: OtmContext) -> bool {
    &&& ctx.k_log == k_log
    &&& ctx.ak == unsigned(k_log)
    &&& ctx.k_for_seed == axis_of(k_log)
    &&& positive(k_log) ==> ctx.m == num(ONE)
    &&& !positive(k_log) ==> ctx.m == ctx.ek
    &&& steady(k) ==> ctx.ek == exp_of(k, k_log) && ctx@ == outline_of(k, k_log, t)
}

/// The logarithm of strike over forward, at a dividend yield.
pub open spec fn log_moneyness_of<K: Arith>(
    k: K,
    strike: Double,
    t: Double,
    spot: Double,
    rate: Double,
    yld: Double,
) -> Double {
    diff(k, ln_of(k, quot(k, strike, spot)), prod(k, diff(k, rate, yld), t))
}

impl OtmContext {
    /// What a solve reads of the context.
    pub fn read(&self) -> (r: Terms)
        ensures
            r@ == self@,
    {
        Terms {
            sqrt_t: self.sqrt_t,
            ak: self.ak,
            m: self.m,
            mu: self.mu,
            v_lo: self.v_lo,
            v_hi: self.v_hi,
            cheb_tu: self.cheb_tu,
        }
    }

    /// The context of a log-moneyness and an expiry.
    pub fn new<K: Arith>(k: &K, k_log: Double, t: Double) -> (ctx: OtmContext)
        ensures
            built(*k, k_log, t, ctx),
    {
        let sqrt_t = k.sqrt(t);
        let ak = k_log.abs();
        let ek = k.exp(k_log);
        let m = norm_factor(k_log, ek);
        let mu = mean(k, ak);
        let v_lo = k.times(num(VOL_MIN), sqrt_t);
        let v_hi = k.times(num(VOL_MAX), sqrt_t);
        let k_for_seed = ak.clamp(num(SEED_K_LO), num(SEED_K_HI));
        let u = k.over(k.minus(k.ln(k_for_seed), num(SEED_CENTRE)), num(SEED_HALF_WIDTH));
        let cheb_tu = basis(k, u);
        OtmContext { sqrt_t, k_log, ak, ek, m, mu, v_lo, v_hi, k_for_seed, cheb_tu }
    }

    /// The context of an option in the market, at a dividend yield `yld`.
    pub fn from_market<K: Arith>(
        k: &K,
        strike: Double,
        t: Double,
        spot: Double,
        rate: Double,
        yld: Double,
    ) -> (ctx: OtmContext)
        ensures
            built(*k, ctx.k_log, t, ctx),
            steady(*k) ==> ctx.k_log == log_moneyness_of(*k, strike, t, spot, rate, yld),
    {
        let k_log = k.minus(k.ln(k.over(strike, spot)), k.times(k.minus(rate, yld), t));
        OtmContext::new(k, k_log, t)
    }
}

/// Packs eight contexts.
pub fn pack_contexts(ctxs: &[OtmContext; LANES]) -> (r: OtmContextSimd)
    ensures
        forall|j: int| 0 <= j < LANES ==> #[trigger] r.lane(j) == ctxs[j]@,
{
    let mut r = OtmContextSimd::splat(&ctxs[0].read());
    let mut j: usize = 1;
    while j < LANES
        invariant
            1 <= j <= LANES,
            forall|i: int| 0 <= i < j ==> #[trigger] r.lane(i) == ctxs@[i]@,
        decreases LANES - j,
    {
        let t = ctxs[j].read();
        r.set_lane(j, &t);
        j += 1;
    }
    r
}

/// One context in eight lanes.
pub fn broadcast_context(ctx: &OtmContext) -> (r: OtmContextSimd)
    ensures
        forall|j: int| 0 <= j < LANES ==> #[trigger] r.lane(j) == ctx@,
{
    OtmContextSimd::splat(&ctx.read())
}

/// The lane lies in the wing.
pub open spec fn in_wing(ak: Double, survival: Double) -> bool {
    &&& num(WING_K_LO).at_most(ak)
    &&& survival.below(num(WING_Q_MAX))
    &&& positive(survival)
    &&& ak.below(num(WING_H_MAX))
}

/// Whether the lane lies in the wing.
pub fn uses_wing(ak: Double, survival: Double) -> (r: bool)
    ensures
        r == in_wing(ak, survival),
{
    num(WING_K_LO).le(ak) && survival.lt(num(WING_Q_MAX)) && num(ZERO).lt(survival) && ak.lt(
        num(WING_H_MAX),
    )
}

/// The probability that a price stands for in a context.
pub open spec fn probability_of<K: Arith>(k: K, o: Outline, c: Double) -> Double {
    quot(k, diff(k, num(ONE), c), o.m)
}

/// The fitted seed covers the moneyness and the probability.
pub open spec fn in_fit(range: SeedRange, ak: Double, q: Double) -> bool {
    &&& num(SEED_K_LO).at_most(ak) && ak.at_most(num(SEED_K_HI))
    &&& range.lo.at_most(q) && q.at_most(range.hi)
}

/// Whether the fitted seed covers the moneyness and the probability.
pub fn fits(range: &SeedRange, ak: Double, q: Double) -> (r: bool)
    ensures
        r == in_fit(*range, ak, q),
{
    num(SEED_K_LO).le(ak) && ak.le(num(SEED_K_HI)) && range.lo.le(q) && q.le(range.hi)
}

/// One of the seeds covers the moneyness and the probability.
pub open spec fn in_seed_domain<K: Seeds>(k: K, ak: Double, q: Double) -> bool {
    in_wing(ak, diff(k, num(ONE), q)) || in_fit(range_of(k), ak, q)
}

/// Some seed covers the moneyness, at some probability.
pub open spec fn in_reach(ak: Double) -> bool {
    num(SEED_K_LO).at_most(ak) && ak.below(num(WING_H_MAX))
}

/// What a seed covers is in reach.
proof fn lemma_covered_is_in_reach(range: SeedRange, ak: Double, q: Double, survival: Double)
    ensures
        in_fit(range, ak, q) || in_wing(ak, survival) ==> in_reach(ak),
{
    law_order_is_encoding_order(num(SEED_K_HI), num(WING_H_MAX));
    law_order_is_encoding_order(num(SEED_K_LO), num(WING_K_LO));
}

/// The seed of a lane: by its asymptotics where it lies in the wing, else by
/// the fit.
pub open spec fn seed_of<K: Seeds>(k: K, o: Outline, q: Double) -> Double {
    let survival = diff(k, num(ONE), q);
    if in_wing(o.ak, survival) {
        wing_of(
            k,
            clamped(o.ak, num(WING_K_LO), num(WING_H_MAX)),
            clamped(survival, num(TINY), num(WING_Q_MAX)),
        )
    } else {
        fitted_of(k, o.basis, clamped(q, range_of(k).lo, range_of(k).hi))
    }
}

/// A lane after its seed and `n` steps, each kept in the interval.
pub open spec fn walked_of<K: Seeds>(k: K, o: Outline, q: Double, seed: Double, n: nat) -> Double
    decreases n,
{
    if n == 0 {
        clamped(seed, o.v_lo, o.v_hi)
    } else {
        clamped(
            step_of(k, walked_of(k, o, q, seed, (n - 1) as nat), o.mu, q),
            o.v_lo,
            o.v_hi,
        )
    }
}

/// The total volatility that a solve ends at.
pub open spec fn total_of<K: Seeds>(k: K, o: Outline, c: Double) -> Double {
    let q = probability_of(k, o, c);
    walked_of(k, o, q, seed_of(k, o, q), HOUSEHOLDER3_STEPS_CTX as nat)
}

/// The total volatility lies in the interval.
pub open spec fn in_window(o: Outline, v: Double) -> bool {
    o.v_lo.at_most(v) && v.at_most(o.v_hi)
}

/// How far from the probability the law is at a total volatility.
pub open spec fn miss_of<K: Arith>(k: K, o: Outline, q: Double, v: Double) -> Double {
    unsigned(diff(k, ig_of(k, quot(k, num(FOUR), prod(k, v, v)), o.mu).cdf, q))
}

/// The law meets the probability at the total volatility.
pub open spec fn converged<K: Arith>(k: K, o: Outline, q: Double, v: Double) -> bool {
    miss_of(k, o, q, v).at_most(num(EXPLICIT_ABSOLUTE))
}

/// Whether the law meets the probability at the total volatility.
pub fn has_converged<K: Arith>(k: &K, t: &Terms, q: Double, v: Double) -> (r: bool)
    ensures
        steady(*k) ==> r == converged(*k, t@, q, v),
{
    let law = ig_cdf_pdf(k, k.over(num(FOUR), k.times(v, v)), t.mu);
    k.minus(law.cdf, q).abs().le(num(EXPLICIT_ABSOLUTE))
}

/// A price has a volatility in a context: it is a number, a seed covers it, and
/// the steps from there converge.
pub open spec fn solvable<K: Seeds>(k: K, o: Outline, c: Double) -> bool {
    let q = probability_of(k, o, c);
    !c.nan() && in_seed_domain(k, o.ak, q) && converged(k, o, q, total_of(k, o, c))
}

/// A solve may end at the total volatility `v`, if at any.
pub open spec fn total_answer<K: Seeds>(k: K, o: Outline, c: Double, v: Option<Double>) -> bool {
    &&& steady_seeds(k) ==> v == if solvable(k, o, c) {
        Some(total_of(k, o, c))
    } else {
        None
    }
    &&& c.nan() || !in_reach(o.ak) ==> v is None
    &&& o.v_lo.at_most(o.v_hi) ==> (v matches Some(w) ==> in_window(o, w))
}

/// Solves for the total volatility.
fn solve_total<K: Seeds>(k: &K, t: &Terms, c: Double) -> (v: Option<Double>)
    ensures
        total_answer(*k, t@, c, v),
{
    if c.is_nan() {
        return None;
    }
    let q = k.over(k.minus(num(ONE), c), t.m);
    let survival = k.minus(num(ONE), q);
    let range = k.seed_range();
    proof {
        lemma_covered_is_in_reach(range, t.ak, q, survival);
    }
    let seed = if uses_wing(t.ak, survival) {
        let h = t.ak.clamp(num(WING_K_LO), num(WING_H_MAX));
        let p = survival.clamp(num(TINY), num(WING_Q_MAX));
        k.wing_seed(h, p)
    } else if fits(&range, t.ak, q) {
        k.fitted_seed(&t.cheb_tu, q.clamp(range.lo, range.hi))
    } else {
        return None;
    };
    let ghost o = t@;
    proof {
        if o.v_lo.at_most(o.v_hi) {
            law_clamp_lands_in_bracket(seed, o.v_lo, o.v_hi);
        }
    }
    let mut v: Double = seed.clamp(t.v_lo, t.v_hi);
    let mut n: usize = 0;
    while n < HOUSEHOLDER3_STEPS_CTX
        invariant
            n <= HOUSEHOLDER3_STEPS_CTX,
            o == t@,
            steady_seeds(*k) ==> v == walked_of(*k, o, q, seed, n as nat),
            o.v_lo.at_most(o.v_hi) ==> in_window(o, v),
        decreases HOUSEHOLDER3_STEPS_CTX - n,
    {
        let next = k.third_order(v, t.mu, q);
        proof {
            if o.v_lo.at_most(o.v_hi) {
                law_clamp_lands_in_bracket(next, o.v_lo, o.v_hi);
            }
        }
        v = next.clamp(t.v_lo, t.v_hi);
        n += 1;
    }
    if has_converged(k, t, q, v) {
        Some(v)
    } else {
        None
    }
}

/// The volatility of a price in a context, divided by the root of the expiry,
/// or a NaN.
pub open spec fn divided_of<K: Seeds>(k: K, o: Outline, c: Double) -> Double {
    if solvable(k, o, c) {
        quot(k, total_of(k, o, c), o.sqrt_t)
    } else {
        num(NAN)
    }
}

/// The volatility of a price in a context, times the inverse root of the
/// expiry, or a NaN.
pub open spec fn scaled_of<K: Seeds>(k: K, o: Outline, c: Double) -> Double {
    if solvable(k, o, c) {
        prod(k, total_of(k, o, c), quot(k, num(ONE), o.sqrt_t))
    } else {
        num(NAN)
    }
}

/// A solve may return `r` for a price in a context, where `exact` is the
/// volatility of the price, or a NaN.
pub open spec fn context_answer<K: Seeds>(
    k: K,
    o: Outline,
    c: Double,
    exact: Double,
    r: Double,
) -> bool {
    &&& steady_seeds(k) ==> r == exact
    &&& c.nan() || !in_reach(o.ak) ==> r == num(NAN)
}

/// The solves may return `r` for a price in a context, by the inverse root of
/// the expiry.
pub open spec fn scaled_answer<K: Seeds>(k: K, o: Outline, c: Double, r: Double) -> bool {
    context_answer(k, o, c, scaled_of(k, o, c), r)
}

/// The volatility of one price in a context, or a NaN.
pub fn implied_vol_with_context<K: Seeds>(k: &K, ctx: &OtmContext, c: Double) -> (r: Double)
    ensures
        context_answer(*k, ctx@, c, divided_of(*k, ctx@, c), r),
{
    let t = ctx.read();
    match solve_total(k, &t, c) {
        Some(v) => k.over(v, t.sqrt_t),
        None => num(NAN),
    }
}

/// The call price over spot, by parity for a put.
pub fn canonical_c_from_price<K: Arith>(
    k: &K,
    ctx: &OtmContext,
    spot: Double,
    price: Double,
    is_call: bool,
) -> (r: Double)
    ensures
        steady(*k) ==> r == call_equivalent_of(*k, is_call, quot(*k, price, spot), ctx.ek),
{
    let x = k.over(price, spot);
    call_equivalent(k, is_call, x, ctx.ek)
}

/// Solves for the volatility of a lane.
fn solve_scaled<K: Seeds>(k: &K, t: &Terms, c: Double) -> (r: Double)
    ensures
        scaled_answer(*k, t@, c, r),
{
    match solve_total(k, t, c) {
        Some(v) => k.times(v, k.over(num(ONE), t.sqrt_t)),
        None => num(NAN),
    }
}

/// Volatilities of many prices in one context. Each result is a volatility, or
/// a NaN.
pub fn implied_vol_with_context_batch<K: Seeds>(
    k: &K,
    ctx: &OtmContext,
    prices: &[Double],
) -> (out: Vec<Double>)
    ensures
        out@.len() == prices@.len(),
        forall|i: int|
            0 <= i < out@.len() ==> scaled_answer(*k, ctx@, prices@[i], #[trigger] out@[i]),
{
    let t = ctx.read();
    let mut out: Vec<Double> = Vec::new();
    let mut i: usize = 0;
    while i < prices.len()
        invariant
            t@ == ctx@,
            i <= prices@.len(),
            out@.len() == i,
            forall|h: int|
                0 <= h < i ==> scaled_answer(*k, t@, prices@[h], #[trigger] out@[h]),
        decreases prices@.len() - i,
    {
        out.push(solve_scaled(k, &t, prices[i]));
        i += 1;
    }
    out
}

/// Volatilities of many prices, each in a context of its own.
pub fn implied_vol_vectorized_with_contexts<K: Seeds>(
    k: &K,
    contexts: &[OtmContext],
    prices: &[Double],
) -> (out: Vec<Double>)
    requires
        contexts@.len() == prices@.len(),
    ensures
        out@.len() == prices@.len(),
        forall|i: int|
            0 <= i < out@.len() ==> scaled_answer(
                *k,
                contexts@[i]@,
                prices@[i],
                #[trigger] out@[i],
            ),
{
    let mut out: Vec<Double> = Vec::new();
    let mut i: usize = 0;
    while i < prices.len()
        invariant
            contexts@.len() == prices@.len(),
            i <= prices@.len(),
            out@.len() == i,
            forall|h: int|
                0 <= h < i ==> scaled_answer(*k, contexts@[h]@, prices@[h], #[trigger] out@[h]),
        decreases prices@.len() - i,
    {
        let t = contexts[i].read();
        out.push(solve_scaled(k, &t, prices[i]));
        i += 1;
    }
    out
}

/// Eight contexts at once.
pub fn ig_kt_prelude_simd<K: Arith>(
    k: &K,
    k_log: &[Double; LANES],
    t: &[Double; LANES],
) -> (r: OtmContextSimd)
    ensures
        forall|j: int| 0 <= j < LANES ==> (#[trigger] r.lane(j)).ak == unsigned(k_log[j]),
        steady(*k) ==> forall|j: int|
            0 <= j < LANES ==> #[trigger] r.lane(j) == outline_of(*k, k_log[j], t[j]),
{
    let first = OtmContext::new(k, k_log[0], t[0]);
    let mut r = OtmContextSimd::splat(&first.read());
    let mut j: usize = 1;
    while j < LANES
        invariant
            1 <= j <= LANES,
            forall|i: int| 0 <= i < j ==> (#[trigger] r.lane(i)).ak == unsigned(k_log@[i]),
            steady(*k) ==> forall|i: int|
                0 <= i < j ==> #[trigger] r.lane(i) == outline_of(*k, k_log@[i], t@[i]),
        decreases LANES - j,
    {
        let ctx = OtmContext::new(k, k_log[j], t[j]);
        let ghost prior = r;
        r.set_lane(j, &ctx.read());
        proof {
            assert forall|i: int| 0 <= i < j + 1 implies (#[trigger] r.lane(i)).ak == unsigned(
                k_log@[i],
            ) by {
                if i < j {
                    assert(r.lane(i) == prior.lane(i));
                }
            }
            if steady(*k) {
                assert forall|i: int| 0 <= i < j + 1 implies #[trigger] r.lane(i) == outline_of(
                    *k,
                    k_log@[i],
                    t@[i],
                ) by {
                    if i < j {
                        assert(r.lane(i) == prior.lane(i));
                    }
                }
            }
        }
        j += 1;
    }
    r
}

/// Solves eight lanes.
pub fn solve_with_ctx_simd<K: Seeds>(k: &K, ctx: &OtmContextSimd, c: &[Double; LANES]) -> (out: [
    Double; LANES])
    ensures
        forall|j: int|
            0 <= j < LANES ==> scaled_answer(*k, ctx.lane(j), c[j], #[trigger] out[j]),
{
    let mut out: [Double; LANES] = *c;
    let mut j: usize = 0;
    while j < LANES
        invariant
            j <= LANES,
            forall|i: int|
                0 <= i < j ==> scaled_answer(*k, ctx.lane(i), c@[i], #[trigger] out@[i]),
        decreases LANES - j,
    {
        let t = ctx.read_lane(j);
        out[j] = solve_scaled(k, &t, c[j]);
        j += 1;
    }
    out
}

/// Element `start + j` of a column, or element `start` where the column ends
/// before it.
pub open spec fn padded(column: Seq<Double>, start: int, j: int) -> Double {
    if start + j < column.len() {
        column[start + j]
    } else {
        column[start]
    }
}

/// Eight elements of a column from `start` on; behind its end, the first of
/// them again.
pub fn load_padded(column: &[Double], start: usize) -> (r: [Double; LANES])
    requires
        start < column@.len(),
    ensures
        forall|j: int|
            0 <= j < LANES ==> #[trigger] r[j] == padded(column@, start as int, j),
{
    let n: usize = column.len();
    let mut r: [Double; LANES] = [column[start];LANES];
    let take: usize = filled_lanes(n, start);
    let mut j: usize = 0;
    while j < take
        invariant
            n == column@.len(),
            start < n,
            take == filled(n as int, start as int),
            j <= take,
            forall|i: int| 0 <= i < j ==> #[trigger] r@[i] == column@[start + i],
            forall|i: int| j <= i < LANES ==> #[trigger] r@[i] == column@[start as int],
        decreases take - j,
    {
        r[j] = column[start + j];
        j += 1;
    }
    r
}

/// How many packs hold `n` options.
pub open spec fn pack_count(n: int) -> int {
    (n + LANES - 1) / (LANES as int)
}

/// The packed contexts of many options. The spare lanes of the last pack hold
/// the context of its first option.
pub fn pack_contexts_from_kt<K: Arith>(k: &K, k_log: &[Double], t: &[Double]) -> (out: Vec<
    OtmContextSimd,
>)
    requires
        k_log@.len() == t@.len(),
    ensures
        out@.len() == pack_count(k_log@.len() as int),
        steady(*k) ==> forall|g: int, j: int|
            0 <= g < out@.len() && 0 <= j < LANES ==> #[trigger] out@[g].lane(j) == outline_of(
                *k,
                padded(k_log@, g * LANES, j),
                padded(t@, g * LANES, j),
            ),
{
    let n: usize = k_log.len();
    let mut out: Vec<OtmContextSimd> = Vec::new();
    let mut start: usize = 0;
    while start < n
        invariant
            n == k_log@.len() == t@.len(),
            start <= n,
            start == n || start == out@.len() * LANES,
            out@.len() == pack_count(start as int),
            steady(*k) ==> forall|g: int, j: int|
                0 <= g < out@.len() && 0 <= j < LANES ==> #[trigger] out@[g].lane(j)
                    == outline_of(*k, padded(k_log@, g * LANES, j), padded(t@, g * LANES, j)),
        decreases n - start,
    {
        let take: usize = filled_lanes(n, start);
        let kb = load_padded(k_log, start);
        let tb = load_padded(t, start);
        let ctx = ig_kt_prelude_simd(k, &kb, &tb);
        let ghost before = out@;
        out.push(ctx);
        proof {
            if steady(*k) {
                assert forall|g: int, j: int|
                    0 <= g < out@.len() && 0 <= j < LANES implies #[trigger] out@[g].lane(j)
                    == outline_of(*k, padded(k_log@, g * LANES, j), padded(t@, g * LANES, j)) by {
                    if g < before.len() {
                        assert(out@[g] == before[g]);
                        assert(before[g].lane(j) == outline_of(
                            *k,
                            padded(k_log@, g * LANES, j),
                            padded(t@, g * LANES, j),
                        ));
                    } else {
                        assert(g * LANES == start);
                        assert(kb[j] == padded(k_log@, start as int, j));
                        assert(tb[j] == padded(t@, start as int, j));
                        assert(ctx.lane(j) == outline_of(*k, kb[j], tb[j]));
                    }
                }
            }
        }
        start += take;
    }
    out
}

/// Builds the contexts and solves, in one pass.
pub fn implied_vol_fully_vectorized<K: Seeds>(
    k: &K,
    k_log: &[Double],
    t: &[Double],
    c: &[Double],
) -> (out: Vec<Double>)
    requires
        k_log@.len() == t@.len(),
        k_log@.len() == c@.len(),
    ensures
        out@.len() == k_log@.len(),
        forall|i: int|
            0 <= i < out@.len() ==> scaled_answer(
                *k,
                outline_of(*k, k_log@[i], t@[i]),
                c@[i],
                #[trigger] out@[i],
            ),
{
    let n: usize = k_log.len();
    let mut out: Vec<Double> = Vec::new();
    let mut start: usize = 0;
    while start < n
        invariant
            n == k_log@.len() == t@.len() == c@.len(),
            start <= n,
            out@.len() == start,
            forall|i: int|
                0 <= i < start ==> scaled_answer(
                    *k,
                    outline_of(*k, k_log@[i], t@[i]),
                    c@[i],
                    #[trigger] out@[i],
                ),
        decreases n - start,
    {
        let take: usize = filled_lanes(n, start);
        let kb = load_padded(k_log, start);
        let tb = load_padded(t, start);
        let cb = load_padded(c, start);
        let ctx = ig_kt_prelude_simd(k, &kb, &tb);
        let sigma = solve_with_ctx_simd(k, &ctx, &cb);
        let ghost before = out@;
        append_lanes(&mut out, &sigma, take);
        proof {
            assert forall|i: int| 0 <= i < start + take implies scaled_answer(
                *k,
                outline_of(*k, k_log@[i], t@[i]),
                c@[i],
                #[trigger] out@[i],
            ) by {
                if i < start {
                    assert(out@[i] == before[i]);
                } else {
                    let j = i - start;
                    assert(out@[i] == sigma[j]);
                    assert(kb[j] == padded(k_log@, start as int, j));
                    assert(tb[j] == padded(t@, start as int, j));
                    assert(cb[j] == padded(c@, start as int, j));
                    assert(ctx.lane(j).ak == unsigned(kb[j]));
                    assert(steady(*k) ==> ctx.lane(j) == outline_of(*k, kb[j], tb[j]));
                    assert(scaled_answer(*k, ctx.lane(j), cb[j], sigma[j]));
                }
            }
        }
        start += take;
    }
    out
}

/// Builds the packed contexts of many options, and shows one number of each:
/// the root of the expiry times the first term of the basis.
pub fn build_simd_contexts_observed<K: Arith>(
    k: &K,
    k_log: &[Double],
    t: &[Double],
) -> (out: Vec<Double>)
    requires
        k_log@.len() == t@.len(),
    ensures
        out@.len() == k_log@.len(),
        steady(*k) ==> forall|i: int|
            0 <= i < out@.len() ==> #[trigger] out@[i] == prod(*k, sqrt_of(*k, t@[i]), num(ONE)),
{
    let ctxs = pack_contexts_from_kt(k, k_log, t);
    let n: usize = k_log.len();
    let mut out: Vec<Double> = Vec::new();
    let mut i: usize = 0;
    while i < n
        invariant
            n == k_log@.len() == t@.len(),
            i <= n,
            out@.len() == i,
            ctxs@.len() == pack_count(n as int),
            steady(*k) ==> forall|g: int, j: int|
                0 <= g < ctxs@.len() && 0 <= j < LANES ==> #[trigger] ctxs@[g].lane(j)
                    == outline_of(*k, padded(k_log@, g * LANES, j), padded(t@, g * LANES, j)),
            steady(*k) ==> forall|h: int|
                0 <= h < i ==> #[trigger] out@[h] == prod(*k, sqrt_of(*k, t@[h]), num(ONE)),
        decreases n - i,
    {
        let g: usize = i / LANES;
        let j: usize = i % LANES;
        proof {
            assert(g * LANES + j == i);
            assert(g < pack_count(n as int));
        }
        let terms = ctxs[g].read_lane(j);
        proof {
            if steady(*k) {
                let o = outline_of(*k, k_log@[i as int], t@[i as int]);
                assert(ctxs@[g as int].lane(j as int) == o);
                assert(terms@.basis == o.basis);
                assert(o.basis[0] == num(ONE));
            }
        }
        out.push(k.times(terms.sqrt_t, terms.cheb_tu[0]));
        i += 1;
    }
    out
}

/// A solve never leaves the interval of its context, whatever the seeds and the
/// steps propose.
pub proof fn law_context_solve_in_window<K: Seeds>(
    k: K,
    o: Outline,
    q: Double,
    seed: Double,
    n: nat,
)
    requires
        o.v_lo.at_most(o.v_hi),
    ensures
        in_window(o, walked_of(k, o, q, seed, n)),
{
    if n == 0 {
        law_clamp_lands_in_bracket(seed, o.v_lo, o.v_hi);
    } else {
        let next = step_of(k, walked_of(k, o, q, seed, (n - 1) as nat), o.mu, q);
        law_clamp_lands_in_bracket(next, o.v_lo, o.v_hi);
    }
}

/// A solve has an answer only where it is owed one: a price that is no number,
/// that no seed covers, or whose steps do not converge, gets a NaN.
pub proof fn law_unsolvable_is_nan<K: Seeds>(k: K, o: Outline, c: Double)
    requires
        c.nan() || !in_seed_domain(k, o.ak, probability_of(k, o, c)) || !converged(
            k,
            o,
            probability_of(k, o, c),
            total_of(k, o, c),
        ),
    ensures
        divided_of(k, o, c) == num(NAN),
        scaled_of(k, o, c) == num(NAN),
{
}

/// Solving in one pass is solving in a context that was built before, at every
/// moneyness.
pub proof fn law_one_pass_equals_two_stages<K: Seeds>(
    k: K,
    k_log: Double,
    t: Double,
    ctx: OtmContext,
    c: Double,
    pass: Double,
    stages: Double,
)
    requires
        steady_seeds(k),
        built(k, k_log, t, ctx),
        scaled_answer(k, outline_of(k, k_log, t), c, pass),
        scaled_answer(k, ctx@, c, stages),
    ensures
        pass == stages,
{
}

/// A context takes no side: the mirrored moneyness has the same root of the
/// expiry, the same distance from the forward, the same mean, the same interval
/// and the same basis.
pub proof fn law_context_is_symmetric<K: Arith>(k: K, k_log: Double, t: Double)
    ensures
        outline_of(k, flipped(k_log), t).sqrt_t == outline_of(k, k_log, t).sqrt_t,
        outline_of(k, flipped(k_log), t).ak == outline_of(k, k_log, t).ak,
        outline_of(k, flipped(k_log), t).mu == outline_of(k, k_log, t).mu,
        outline_of(k, flipped(k_log), t).v_lo == outline_of(k, k_log, t).v_lo,
        outline_of(k, flipped(k_log), t).v_hi == outline_of(k, k_log, t).v_hi,
        outline_of(k, flipped(k_log), t).basis == outline_of(k, k_log, t).basis,
{
    assert(unsigned(flipped(k_log)) == unsigned(k_log));
}

/// The seed is fitted from `0.001` to `3` on a logarithmic axis, the wing goes from
/// `2.95` to `8` at survival probabilities below `0.3`, and three steps follow.
pub proof fn law_context_thresholds()
    ensures
        rounds(num(SEED_K_LO), 1, 1000),
        equals(num(SEED_K_HI), 3, 1),
        rounds(num(SEED_HALF_WIDTH), 4003183783825123, 1000000000000000),
        rounds(num(WING_K_LO), 295, 100),
        equals(num(WING_H_MAX), 8, 1),
        rounds(num(WING_Q_MAX), 3, 10),
        rounds(flipped(num(SEED_CENTRE)), 2904571495157014, 1000000000000000),
        SEED_TERMS == 13,
        HOUSEHOLDER3_STEPS_CTX == 3,
{
    lemma2_to64();
    lemma2_to64_rest();
    lemma_rounds(flipped(num(SEED_CENTRE)), 1024, 6540513551630046, 2251799813685248, 2904571495157014, 1000000000000000);
    lemma_rounds(num(SEED_K_LO), 1013, 4611686018427388, 4611686018427387904, 1, 1000);
    lemma_rounds(num(SEED_K_HI), 1024, 6755399441055744, 2251799813685248, 3, 1);
    lemma_rounds(num(SEED_HALF_WIDTH), 1025, 4507184249282609, 1125899906842624, 4003183783825123, 1000000000000000);
    lemma_rounds(num(WING_K_LO), 1024, 6642809450371482, 2251799813685248, 295, 100);
    lemma_rounds(num(WING_H_MAX), 1026, 4503599627370496, 562949953421312, 8, 1);
    lemma_rounds(num(WING_Q_MAX), 1021, 5404319552844595, 18014398509481984, 3, 10);
}

/// The forward of a context is the spot grown at the rate less the yield: the
/// log-moneyness is the logarithm of strike over spot, less the rate less the
/// yield over the expiry.
pub proof fn law_forward_grows_at_rate_less_yield<K: Arith>(
    k: K,
    strike: Double,
    t: Double,
    spot: Double,
    rate: Double,
    yld: Double,
)
    ensures
        log_moneyness_of(k, strike, t, spot, rate, yld) == diff(
            k,
            ln_of(k, quot(k, strike, spot)),
            prod(k, diff(k, rate, yld), t),
        ),
{
}

/// Rate and yield count by their difference alone: a context does not change when
/// both move so that the difference stays.
pub proof fn law_rate_and_yield_move_together<K: Arith>(
    k: K,
    strike: Double,
    t: Double,
    spot: Double,
    a: (Double, Double),
    b: (Double, Double),
)
    requires
        diff(k, a.0, a.1) == diff(k, b.0, b.1),
    ensures
        log_moneyness_of(k, strike, t, spot, a.0, a.1) == log_moneyness_of(
            k,
            strike,
            t,
            spot,
            b.0,
            b.1,
        ),
{
}

/// A higher yield lowers the forward, and so never lowers the log-moneyness; a
/// higher rate never raises it. This needs a machine whose differences and
/// products keep the order.
pub proof fn law_yield_raises_moneyness<K: Arith>(
    k: K,
    strike: Double,
    t: Double,
    spot: Double,
    rate: Double,
    low: Double,
    high: Double,
)
    requires
        low.at_most(high),
        subtraction_falls(k, rate),
        multiplication_rises(k, t),
        subtraction_falls(k, ln_of(k, quot(k, strike, spot))),
    ensures
        log_moneyness_of(k, strike, t, spot, rate, low).at_most(
            log_moneyness_of(k, strike, t, spot, rate, high),
        ),
{
    assert(diff(k, rate, high).at_most(diff(k, rate, low)));
    assert(prod(k, diff(k, rate, high), t).at_most(prod(k, diff(k, rate, low), t)));
}

/// A yield equal to the rate leaves the forward at the spot: the log-moneyness is
/// the logarithm of strike over spot.
pub proof fn law_equal_yield_leaves_the_spot<K: Arith>(
    k: K,
    strike: Double,
    t: Double,
    spot: Double,
    rate: Double,
)
    requires
        neutral(k),
        rate.finite() && t.finite(),
        ln_of(k, quot(k, strike, spot)).finite(),
        !is_zero(ln_of(k, quot(k, strike, spot))),
    ensures
        log_moneyness_of(k, strike, t, spot, rate, rate) == ln_of(k, quot(k, strike, spot)),
{
    assert(is_zero(diff(k, rate, rate)));
    assert(is_zero(prod(k, diff(k, rate, rate), t)));
}

/// What a context holds: the root of its expiry, the distance and the ratio of
/// its strike to the forward, the factor that goes with the side it is on, two
/// over the distance for a mean, and the total volatilities of the ends of the
/// reported range.
pub proof fn law_context_holds_its_terms<K: Arith>(
    k: K,
    k_log: Double,
    t: Double,
    ctx: OtmContext,
)
    requires
        steady(k),
        built(k, k_log, t, ctx),
    ensures
        ctx.sqrt_t == sqrt_of(k, t),
        ctx.k_log == k_log,
        ctx.ak == unsigned(k_log),
        ctx.ek == exp_of(k, k_log),
        num(ZERO).below(k_log) ==> ctx.m == num(ONE),
        !num(ZERO).below(k_log) ==> ctx.m == exp_of(k, k_log),
        ctx.mu == mean_of(k, unsigned(k_log)),
        ctx.v_lo == prod(k, num(VOL_MIN), sqrt_of(k, t)),
        ctx.v_hi == prod(k, num(VOL_MAX), sqrt_of(k, t)),
{
    assert(ctx@ == outline_of(k, k_log, t));
}

/// The seed is taken at the distance from the forward, or at the nearer end of
/// what it is fitted for; the basis there is Chebyshev's, in the logarithm of
/// that distance, scaled to run from minus one to one.
pub proof fn law_context_basis_is_chebyshev<K: Arith>(
    k: K,
    k_log: Double,
    t: Double,
    ctx: OtmContext,
    i: int,
)
    requires
        steady(k),
        built(k, k_log, t, ctx),
        2 <= i < SEED_TERMS,
    ensures
        ({
            let away = unsigned(k_log);
            let at = ctx.k_for_seed;
            let u = quot(
                k,
                diff(k, ln_of(k, at), num(SEED_CENTRE)),
                num(SEED_HALF_WIDTH),
            );
            &&& num(SEED_K_LO).at_most(away) && away.at_most(num(SEED_K_HI)) ==> at == away
            &&& away.below(num(SEED_K_LO)) ==> at == num(SEED_K_LO)
            &&& num(SEED_K_HI).below(away) ==> at == num(SEED_K_HI)
            &&& ctx.cheb_tu@[0] == num(ONE)
            &&& ctx.cheb_tu@[1] == u
            &&& ctx.cheb_tu@[i] == diff(
                k,
                prod(k, prod(k, num(TWO), u), ctx.cheb_tu@[i - 1]),
                ctx.cheb_tu@[i - 2],
            )
        }),
{
    law_order_is_encoding_order(num(SEED_K_LO), num(SEED_K_HI));
    let u = place_of(k, k_log);
    assert(ctx@ == outline_of(k, k_log, t));
    assert(ctx@.basis == basis_of(k, u));
    assert(ctx.cheb_tu@ == basis_of(k, u));
    assert(basis_of(k, u)[i] == cheb_of(k, u, i as nat));
    assert(basis_of(k, u)[i - 1] == cheb_of(k, u, (i - 1) as nat));
    assert(basis_of(k, u)[i - 2] == cheb_of(k, u, (i - 2) as nat));
}

/// The wing begins at `2.95`, ends before `8`, and takes survival probabilities
/// between zero and `0.3`; the fit takes the distances from `0.001` to `3` and
/// the probabilities of its range. A price is covered by one or the other.
pub proof fn law_seeds_cover_exactly<K: Seeds>(k: K, o: Outline, c: Double)
    ensures
        ({
            let q = quot(k, diff(k, num(ONE), c), o.m);
            let survival = diff(k, num(ONE), q);
            let wing = {
                &&& num(WING_K_LO).at_most(o.ak) && o.ak.below(num(WING_H_MAX))
                &&& num(ZERO).below(survival) && survival.below(num(WING_Q_MAX))
            };
            let fit = {
                &&& num(SEED_K_LO).at_most(o.ak) && o.ak.at_most(num(SEED_K_HI))
                &&& range_of(k).lo.at_most(q) && q.at_most(range_of(k).hi)
            };
            &&& in_seed_domain(k, o.ak, probability_of(k, o, c)) <==> wing || fit
            &&& wing && num(TINY).at_most(survival) ==> seed_of(k, o, q) == wing_of(
                k,
                o.ak,
                survival,
            )
            &&& wing && survival.below(num(TINY)) ==> seed_of(k, o, q) == wing_of(
                k,
                o.ak,
                num(TINY),
            )
            &&& fit && !wing ==> seed_of(k, o, q) == fitted_of(k, o.basis, q)
        }),
{
    law_order_is_encoding_order(num(TINY), num(WING_Q_MAX));
}

/// What a solve answers, from end to end: three steps from the seed, each taken
/// into the interval of the context, over the root of the expiry; and exactly
/// when the price is a number, a seed covers it, and the law at four over the
/// square of the total volatility meets the probability within `1e-10`. Every
/// other price gets a NaN.
pub proof fn law_context_answer_meets_the_probability<K: Seeds>(
    k: K,
    o: Outline,
    c: Double,
    r: Double,
)
    requires
        steady_seeds(k),
        context_answer(k, o, c, divided_of(k, o, c), r),
    ensures
        ({
            let q = quot(k, diff(k, num(ONE), c), o.m);
            let a = clamped(seed_of(k, o, q), o.v_lo, o.v_hi);
            let b = clamped(step_of(k, a, o.mu, q), o.v_lo, o.v_hi);
            let d = clamped(step_of(k, b, o.mu, q), o.v_lo, o.v_hi);
            let v = clamped(step_of(k, d, o.mu, q), o.v_lo, o.v_hi);
            let law = ig_of(k, quot(k, num(FOUR), prod(k, v, v)), o.mu);
            let good = {
                &&& !c.nan()
                &&& in_seed_domain(k, o.ak, q)
                &&& unsigned(diff(k, law.cdf, q)).at_most(num(EXPLICIT_ABSOLUTE))
            };
            r == if good {
                quot(k, v, o.sqrt_t)
            } else {
                num(NAN)
            }
        }),
{
    reveal_with_fuel(walked_of, 4);
}

/// The two ways to the volatility part only in how they divide: one by the root
/// of the expiry, the other by multiplying with its inverse; and they have a NaN
/// for the same prices, but for what the machine makes of the division.
pub proof fn law_two_ways_to_divide<K: Seeds>(k: K, o: Outline, c: Double)
    ensures
        solvable(k, o, c) ==> {
            &&& divided_of(k, o, c) == quot(k, total_of(k, o, c), o.sqrt_t)
            &&& scaled_of(k, o, c) == prod(
                k,
                total_of(k, o, c),
                quot(k, num(ONE), o.sqrt_t),
            )
        },
        !solvable(k, o, c) ==> {
            &&& divided_of(k, o, c) == num(NAN)
            &&& scaled_of(k, o, c) == num(NAN)
        },
{
}

/// The price of a call over the spot is taken as it is; that of a put is one more,
/// less the ratio of strike to forward.
pub proof fn law_canonical_price_is_parity<K: Arith>(k: K, x: Double, ratio: Double)
    ensures
        call_equivalent_of(k, true, x, ratio) == x,
        call_equivalent_of(k, false, x, ratio) == diff(k, sum(k, x, num(ONE)), ratio),
{
}

/// Eight lanes are filled from a column in order, and with the first of them where
/// the column ends; as many packs are made as hold every option.
pub proof fn law_lanes_are_filled_in_order(column: Seq<Double>, start: int, j: int, n: int)
    requires
        0 <= start < column.len(),
        0 <= j < 8,
        0 <= n,
    ensures
        start + j < column.len() ==> padded(column, start, j) == column[start + j],
        start + j >= column.len() ==> padded(column, start, j) == column[start],
        n <= 8 * pack_count(n) < n + 8,
{
}

/// A moneyness is in reach of some seed from `0.001` on and below `8`; out of reach
/// every price gets a NaN, and so does a price that is no number, whatever the
/// machine.
pub proof fn law_out_of_reach_is_nan<K: Seeds>(
    k: K,
    o: Outline,
    c: Double,
    exact: Double,
    r: Double,
)
    requires
        context_answer(k, o, c, exact, r),
        c.nan() || !(num(SEED_K_LO).at_most(o.ak) && o.ak.below(num(WING_H_MAX))),
    ensures
        r.bits == 0x7FF8_0000_0000_0000,
{
}

} // verus!
