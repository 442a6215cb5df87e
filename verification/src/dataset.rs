//! The synthetic dataset: one generator, one seed.
//!
//! Options are drawn from a fully specified random stream. A draw whose premium
//! does not stand clear of its intrinsic value is dropped and the stream goes
//! on, so that calls and puts alternate among the options that are kept.
use crate::arith::{diff, exp_of, ln_of, prod, quot, steady, sum, Arith};
use crate::constants::{ONE, TWO, ZERO};
use crate::direct::{
    bs_price, bs_price_vega, carry, carry_of, intrinsic, lower_bound, priced_of,
};
use crate::double::{
    binary, clamped, equals, exact, flipped, law_clamp_lands_in_bracket, law_exact_is_unique,
    law_order_is_encoding_order, lemma_pow2_two_words, lemma_rounds, num, rounds, units, Double,
    HIDDEN, INFINITE,
};
use crate::kind::OptionKind;
use crate::lanes::Quote;
use crate::neighbour::{down, law_next_down_is_adjacent, next_down};
use vstd::arithmetic::power2::{
    lemma2_to64, lemma2_to64_rest, lemma_pow2_adds, lemma_pow2_pos, pow2,
};
use vstd::prelude::*;

verus! {

/// The seed of the dataset.
pub const SEED: u64 = 0x5EED_BEEF_CAFE_F00D;

/// The number of options in the dataset.
pub const DEFAULT_N: usize = 1_000_000;

/// `1e-6`, the fraction of the spot by which a premium must stand clear of its
/// intrinsic value.
pub const RECOVERABILITY_FLOOR_FRAC: u64 = 0x3EB0_C6F7_A0B5_ED8D;

/// The step of the stream.
pub const GAMMA: u64 = 0x9E37_79B9_7F4A_7C15;

/// The first multiplier of the mix.
pub const MIX_ONE: u64 = 0xBF58_476D_1CE4_E5B9;

/// The second multiplier of the mix.
pub const MIX_TWO: u64 = 0x94D0_49BB_1331_11EB;

/// `50.0`, the least spot.
pub const SPOT_LO: u64 = 0x4049_0000_0000_0000;

/// `200.0`, the largest spot.
pub const SPOT_HI: u64 = 0x4069_0000_0000_0000;

/// `40.0`, the least strike.
pub const STRIKE_LO: u64 = 0x4044_0000_0000_0000;

/// `240.0`, the largest strike.
pub const STRIKE_HI: u64 = 0x406E_0000_0000_0000;

/// `365.0`, the days of a year.
pub const DAYS: u64 = 0x4076_D000_0000_0000;

/// `1.0 / 365.0`, the shortest expiry; the longest is two years.
pub const TTE_LO: u64 = 0x3F66_719F_3601_671A;

/// `0.06`, the largest rate.
pub const RATE_HI: u64 = 0x3FAE_B851_EB85_1EB8;

/// `0.05`, the least volatility.
pub const SIGMA_LO: u64 = 0x3FA9_9999_9999_999A;

/// `0.80`, the largest volatility.
pub const SIGMA_HI: u64 = 0x3FE9_9999_9999_999A;

/// A random stream with one word of state.
pub struct SplitMix64 {
    state: u64,
}

impl View for SplitMix64 {
    type V = u64;

    closed spec fn view(&self) -> u64 {
        self.state
    }
}

/// The state after one more number.
pub open spec fn advanced(state: u64) -> u64 {
    state.wrapping_add(GAMMA)
}

/// The state after `n` more numbers.
pub open spec fn advanced_by(state: u64, n: nat) -> u64
    decreases n,
{
    if n == 0 {
        state
    } else {
        advanced(advanced_by(state, (n - 1) as nat))
    }
}

/// The number that goes with a state.
pub open spec fn mixed(state: u64) -> u64 {
    let a = (state ^ (state >> 30u64)).wrapping_mul(MIX_ONE);
    let b = (a ^ (a >> 27u64)).wrapping_mul(MIX_TWO);
    b ^ (b >> 31u64)
}

/// The upper 53 bits of the number that goes with a state, as a fraction of
/// `2^53`.
pub open spec fn unit_units(state: u64) -> int {
    (mixed(state) >> 11u64) * pow2(1021)
}

/// The number in `[0, 1)` that goes with a state.
pub open spec fn unit_of(state: u64) -> Double {
    exact(unit_units(state))
}

/// At least `lo`, and less than `hi`.
pub open spec fn in_half_open(x: Double, lo: Double, hi: Double) -> bool {
    lo.at_most(x) && x.below(hi)
}

/// The number, taken into `[lo, hi)` where rounding has taken it out: to `lo`
/// from below, and else to the number next below `hi`.
pub open spec fn half_open(x: Double, lo: Double, hi: Double) -> Double {
    if !lo.below(hi) || in_half_open(x, lo, hi) {
        x
    } else if x.below(lo) {
        lo
    } else {
        num(down(hi) as u64)
    }
}

/// The number, taken into `[lo, hi)`.
pub fn keep_half_open(x: Double, lo: Double, hi: Double) -> (r: Double)
    ensures
        r == half_open(x, lo, hi),
        lo.below(hi) ==> in_half_open(r, lo, hi),
{
    if !lo.lt(hi) || (lo.le(x) && x.lt(hi)) {
        x
    } else if x.lt(lo) {
        lo
    } else {
        proof {
            law_order_is_encoding_order(lo, hi);
        }
        let r = next_down(hi);
        proof {
            law_next_down_is_adjacent(hi, r, lo);
        }
        r
    }
}

/// The number in `[lo, hi)` that goes with a state.
pub open spec fn uniform_of<K: Arith>(k: K, state: u64, lo: Double, hi: Double) -> Double {
    half_open(sum(k, lo, prod(k, diff(k, hi, lo), unit_of(state))), lo, hi)
}

impl SplitMix64 {
    /// The stream that starts at a seed.
    pub fn new(seed: u64) -> (r: SplitMix64)
        ensures
            r@ == seed,
    {
        SplitMix64 { state: seed }
    }

    /// The next number.
    pub fn next_u64(&mut self) -> (r: u64)
        ensures
            final(self)@ == advanced(old(self)@),
            r == mixed(advanced(old(self)@)),
    {
        self.state = self.state.wrapping_add(GAMMA);
        let z: u64 = self.state;
        let a: u64 = (z ^ (z >> 30u64)).wrapping_mul(MIX_ONE);
        let b: u64 = (a ^ (a >> 27u64)).wrapping_mul(MIX_TWO);
        b ^ (b >> 31u64)
    }

    /// The next number in `[0, 1)`, a multiple of `2^-53`.
    pub fn next_f64(&mut self) -> (r: Double)
        ensures
            final(self)@ == advanced(old(self)@),
            r == unit_of(advanced(old(self)@)),
            r.bits < INFINITE,
            r.value() == unit_units(advanced(old(self)@)),
    {
        let x: u64 = self.next_u64();
        assert(x >> 11u64 < 0x0020_0000_0000_0000) by (bit_vector);
        let r = binary(x >> 11u64, 1022);
        proof {
            law_exact_is_unique(r);
        }
        r
    }

    /// The next number in `[lo, hi)`.
    pub fn uniform<K: Arith>(&mut self, k: &K, lo: Double, hi: Double) -> (r: Double)
        ensures
            final(self)@ == advanced(old(self)@),
            lo.below(hi) ==> in_half_open(r, lo, hi),
            steady(*k) ==> r == uniform_of(*k, advanced(old(self)@), lo, hi),
    {
        let u = self.next_f64();
        keep_half_open(k.plus(lo, k.times(k.minus(hi, lo), u)), lo, hi)
    }
}

/// Zero or more, and less than one.
pub open spec fn unit_interval(x: Double) -> bool {
    num(ZERO).at_most(x) && x.below(num(ONE))
}

/// Every number of the stream lies in `[0, 1)`.
pub proof fn law_stream_in_unit_interval(state: u64, x: Double)
    requires
        x.bits < INFINITE,
        x.value() == unit_units(state),
    ensures
        unit_interval(x),
{
    let k = mixed(state) >> 11u64;
    let z = mixed(state);
    assert(z >> 11u64 < 0x0020_0000_0000_0000) by (bit_vector);
    let one = num(ONE);
    reveal(units);
    lemma2_to64();
    lemma2_to64_rest();
    lemma_pow2_pos(1021);
    lemma_pow2_adds(53, 1021);
    lemma_pow2_adds(52, 1022);
    assert(k * pow2(1021) < pow2(53) * pow2(1021)) by (nonlinear_arith)
        requires
            k < pow2(53),
            pow2(1021) > 0,
    ;
    assert(k * pow2(1021) >= 0) by (nonlinear_arith)
        requires
            k >= 0,
            pow2(1021) > 0,
    ;
    assert(one.magnitude() / (HIDDEN as int) == 1023 && one.magnitude() % (HIDDEN as int) == 0);
    assert(one.value() == pow2(1074));
    assert(num(ZERO).value() == 0);
}

/// Advancing twice is advancing by the sum.
pub proof fn law_stream_advances_additively(state: u64, a: nat, b: nat)
    ensures
        advanced_by(advanced_by(state, a), b) == advanced_by(state, a + b),
    decreases b,
{
    if b > 0 {
        law_stream_advances_additively(state, a, (b - 1) as nat);
    }
}

/// Moneyness bands.
#[derive(Clone, Copy, Debug, PartialEq, Eq, Structural)]
pub enum Band {
    /// Spot over strike below `0.7`.
    DeepOtm,
    /// Spot over strike from `0.95` to `1.05`.
    NearAtm,
    /// Spot over strike above `1.3`.
    DeepItm,
    /// All others.
    Other,
}

/// `0.7`.
pub const OTM_BELOW: u64 = 0x3FE6_6666_6666_6666;

/// `0.95`.
pub const ATM_FROM: u64 = 0x3FEE_6666_6666_6666;

/// `1.05`.
pub const ATM_TO: u64 = 0x3FF0_CCCC_CCCC_CCCD;

/// `1.3`.
pub const ITM_ABOVE: u64 = 0x3FF4_CCCC_CCCC_CCCD;

/// The band of a ratio of spot to strike.
pub open spec fn band_of(m: Double) -> Band {
    if m.below(num(OTM_BELOW)) {
        Band::DeepOtm
    } else if num(ATM_FROM).at_most(m) && m.at_most(num(ATM_TO)) {
        Band::NearAtm
    } else if num(ITM_ABOVE).below(m) {
        Band::DeepItm
    } else {
        Band::Other
    }
}

/// The band of a ratio of spot to strike.
pub fn band_of_ratio(m: Double) -> (r: Band)
    ensures
        r == band_of(m),
{
    let from = num(ATM_FROM);
    let above = num(ITM_ABOVE);
    if m.lt(num(OTM_BELOW)) {
        Band::DeepOtm
    } else if from.le(m) && m.le(num(ATM_TO)) {
        Band::NearAtm
    } else if above.lt(m) {
        Band::DeepItm
    } else {
        Band::Other
    }
}

/// The bands do not overlap: each is its own interval of ratios, and what is no
/// number belongs to none of the three.
pub proof fn law_bands_do_not_overlap(m: Double)
    ensures
        band_of(m) is DeepItm <==> num(ITM_ABOVE).below(m),
        band_of(m) is DeepOtm <==> m.below(num(OTM_BELOW)),
        band_of(m) is NearAtm <==> in_atm_band(m),
        m.nan() ==> band_of(m) is Other,
{
    law_order_is_encoding_order(num(OTM_BELOW), num(ATM_FROM));
    law_order_is_encoding_order(num(ATM_TO), num(ITM_ABOVE));
    law_order_is_encoding_order(num(OTM_BELOW), num(ITM_ABOVE));
}

/// From `0.95` to `1.05`.
pub open spec fn in_atm_band(m: Double) -> bool {
    num(ATM_FROM).at_most(m) && m.at_most(num(ATM_TO))
}

/// The columns of a dataset.
pub struct Dataset {
    pub spot: Vec<Double>,
    pub strike: Vec<Double>,
    pub tte: Vec<Double>,
    pub rate: Vec<Double>,
    pub price: Vec<Double>,
    pub sigma_true: Vec<Double>,
    pub kind: Vec<OptionKind>,
}

/// The terms of a drawn option, and the volatility behind its premium.
#[derive(Clone, Copy, Debug, PartialEq, Eq, Structural)]
pub struct Draw {
    pub spot: Double,
    pub strike: Double,
    pub tte: Double,
    pub rate: Double,
    pub sigma: Double,
}

/// The quote of a draw at a premium.
pub open spec fn draw_quote(d: Draw, price: Double, is_call: bool) -> Quote {
    Quote { spot: d.spot, strike: d.strike, tte: d.tte, rate: d.rate, price, is_call }
}

/// The premium of a draw: the price at its volatility.
pub open spec fn premium_of<K: Arith>(k: K, d: Draw, is_call: bool) -> Double {
    priced_of(k, draw_quote(d, d.sigma, is_call), d.sigma).price
}

/// Calls and puts alternate, a call first.
pub open spec fn kind_at(i: int) -> OptionKind {
    if i % 2 == 0 {
        OptionKind::Call
    } else {
        OptionKind::Put
    }
}

impl Dataset {
    /// The columns are of one length.
    pub open spec fn wf(self) -> bool {
        &&& self.strike@.len() == self.spot@.len()
        &&& self.tte@.len() == self.spot@.len()
        &&& self.rate@.len() == self.spot@.len()
        &&& self.price@.len() == self.spot@.len()
        &&& self.sigma_true@.len() == self.spot@.len()
        &&& self.kind@.len() == self.spot@.len()
    }

    /// The options, as they were drawn.
    pub open spec fn rows(self) -> Seq<Draw> {
        draws(self.spot@, self.strike@, self.tte@, self.rate@, self.sigma_true@)
    }

    /// Every option lies where it is drawn from, every premium is the price at
    /// the volatility behind it, and calls and puts alternate.
    pub open spec fn consistent<K: Arith>(self, k: K) -> bool {
        &&& self.wf()
        &&& forall|i: int| 0 <= i < self.rows().len() ==> in_range(#[trigger] self.rows()[i])
        &&& forall|i: int| 0 <= i < self.kind@.len() ==> #[trigger] self.kind@[i] == kind_at(i)
        &&& steady(k) ==> forall|i: int|
            0 <= i < self.price@.len() ==> #[trigger] self.price@[i] == premium_of(
                k,
                self.rows()[i],
                kind_at(i) is Call,
            )
    }

    /// The number of options.
    pub fn len(&self) -> (n: usize)
        ensures
            n == self.spot@.len(),
    {
        self.spot.len()
    }

    /// Whether there are no options.
    pub fn is_empty(&self) -> (r: bool)
        ensures
            r == (self.spot@.len() == 0),
    {
        self.spot.len() == 0
    }

    /// The band of option `i`.
    pub fn band<K: Arith>(&self, k: &K, i: usize) -> (r: Band)
        requires
            i < self.spot@.len(),
            i < self.strike@.len(),
        ensures
            steady(*k) ==> r == band_of(quot(*k, self.spot@[i as int], self.strike@[i as int])),
    {
        band_of_ratio(k.over(self.spot[i], self.strike[i]))
    }
}

/// The rows of the columns.
pub open spec fn draws(
    spot: Seq<Double>,
    strike: Seq<Double>,
    tte: Seq<Double>,
    rate: Seq<Double>,
    sigma: Seq<Double>,
) -> Seq<Draw> {
    Seq::new(
        spot.len(),
        |i: int|
            Draw {
                spot: spot[i],
                strike: strike[i],
                tte: tte[i],
                rate: rate[i],
                sigma: sigma[i],
            },
    )
}

/// The option that the next five numbers of the stream give.
pub open spec fn draw_of<K: Arith>(k: K, state: u64) -> Draw {
    let shortest = ln_of(k, quot(k, num(ONE), num(DAYS)));
    let longest = ln_of(k, num(TWO));
    Draw {
        spot: uniform_of(k, advanced_by(state, 1), num(SPOT_LO), num(SPOT_HI)),
        strike: uniform_of(k, advanced_by(state, 2), num(STRIKE_LO), num(STRIKE_HI)),
        tte: clamped(
            exp_of(k, uniform_of(k, advanced_by(state, 3), shortest, longest)),
            num(TTE_LO),
            num(TWO),
        ),
        rate: uniform_of(k, advanced_by(state, 4), num(ZERO), num(RATE_HI)),
        sigma: uniform_of(k, advanced_by(state, 5), num(SIGMA_LO), num(SIGMA_HI)),
    }
}

/// The terms and the volatility lie where they are drawn from.
pub open spec fn in_range(d: Draw) -> bool {
    &&& in_half_open(d.spot, num(SPOT_LO), num(SPOT_HI))
    &&& in_half_open(d.strike, num(STRIKE_LO), num(STRIKE_HI))
    &&& num(TTE_LO).at_most(d.tte) && d.tte.at_most(num(TWO))
    &&& in_half_open(d.rate, num(ZERO), num(RATE_HI))
    &&& in_half_open(d.sigma, num(SIGMA_LO), num(SIGMA_HI))
}

/// The draw is kept: its premium is finite and stands clear of its intrinsic
/// value.
pub open spec fn keeps<K: Arith>(k: K, d: Draw, is_call: bool) -> bool {
    let p = premium_of(k, d, is_call);
    let q = draw_quote(d, p, is_call);
    let excess = diff(k, p, lower_bound(q, carry_of(k, q)));
    p.finite() && !excess.at_most(prod(k, num(RECOVERABILITY_FLOOR_FRAC), d.spot))
}

/// Where a generation stands: the state of the stream, and the options kept.
#[verifier::ext_equal]
pub struct Course {
    pub state: u64,
    pub rows: Seq<Draw>,
}

/// One attempt: five numbers are drawn, and the option they give is appended if
/// it is kept.
pub open spec fn attempted<K: Arith>(k: K, c: Course) -> Course {
    let d = draw_of(k, c.state);
    Course {
        state: advanced_by(c.state, 5),
        rows: if keeps(k, d, kind_at(c.rows.len() as int) is Call) {
            c.rows.push(d)
        } else {
            c.rows
        },
    }
}

/// A generation after so many attempts.
pub open spec fn course_of<K: Arith>(k: K, seed: u64, attempts: nat) -> Course
    decreases attempts,
{
    if attempts == 0 {
        Course { state: seed, rows: Seq::empty() }
    } else {
        attempted(k, course_of(k, seed, (attempts - 1) as nat))
    }
}

/// A dataset in the making.
pub struct Generator {
    pub rng: SplitMix64,
    pub spot: Vec<Double>,
    pub strike: Vec<Double>,
    pub tte: Vec<Double>,
    pub rate: Vec<Double>,
    pub sigma_true: Vec<Double>,
    pub kind: Vec<OptionKind>,
}

impl View for Generator {
    type V = Course;

    open spec fn view(&self) -> Course {
        Course {
            state: self.rng@,
            rows: draws(self.spot@, self.strike@, self.tte@, self.rate@, self.sigma_true@),
        }
    }
}

impl Generator {
    /// The columns are of one length, every option lies where it is drawn from,
    /// and calls and puts alternate.
    pub open spec fn wf(self) -> bool {
        &&& forall|i: int| 0 <= i < self@.rows.len() ==> in_range(#[trigger] self@.rows[i])
        &&& self.strike@.len() == self.spot@.len()
        &&& self.tte@.len() == self.spot@.len()
        &&& self.rate@.len() == self.spot@.len()
        &&& self.sigma_true@.len() == self.spot@.len()
        &&& self.kind@.len() == self.spot@.len()
        &&& forall|i: int| 0 <= i < self.kind@.len() ==> #[trigger] self.kind@[i] == kind_at(i)
    }

    /// A generator at the beginning of a stream.
    pub fn new(seed: u64) -> (r: Generator)
        ensures
            r.wf(),
            r@ == (Course { state: seed, rows: Seq::empty() }),
    {
        let r = Generator {
            rng: SplitMix64::new(seed),
            spot: Vec::new(),
            strike: Vec::new(),
            tte: Vec::new(),
            rate: Vec::new(),
            sigma_true: Vec::new(),
            kind: Vec::new(),
        };
        assert(r@.rows =~= Seq::<Draw>::empty());
        r
    }

    /// Draws one option, and keeps it if its premium stands clear. The stream
    /// advances by five numbers either way.
    pub fn attempt<K: Arith>(&mut self, k: &K) -> (kept: bool)
        requires
            old(self).wf(),
        ensures
            final(self).wf(),
            final(self)@.state == advanced_by(old(self)@.state, 5),
            final(self)@.rows.len() == old(self)@.rows.len() + if kept { 1int } else { 0int },
            final(self)@.rows.take(old(self)@.rows.len() as int) == old(self)@.rows,
            steady(*k) ==> final(self)@ == attempted(*k, old(self)@),
    {
        let ghost before = self@;
        let d = draw(k, &mut self.rng);
        let kind = if self.spot.len() % 2 == 0 {
            OptionKind::Call
        } else {
            OptionKind::Put
        };
        assert(kind == kind_at(before.rows.len() as int));
        if !stands_clear(k, &d, kind.is_call()) {
            assert(self@.rows =~= before.rows);
            assert(self@.rows.take(before.rows.len() as int) =~= before.rows);
            return false;
        }
        self.spot.push(d.spot);
        self.strike.push(d.strike);
        self.tte.push(d.tte);
        self.rate.push(d.rate);
        self.sigma_true.push(d.sigma);
        self.kind.push(kind);
        assert(self@.rows =~= before.rows.push(d));
        assert(self@.rows.take(before.rows.len() as int) =~= before.rows);
        true
    }

    /// The dataset of the options kept, each priced at its volatility.
    pub fn finish<K: Arith>(self, k: &K) -> (r: Dataset)
        requires
            self.wf(),
        ensures
            r.rows() == self@.rows,
            r.consistent(*k),
    {
        let price = bs_price(
            k,
            self.spot.as_slice(),
            self.strike.as_slice(),
            self.tte.as_slice(),
            self.rate.as_slice(),
            self.sigma_true.as_slice(),
            self.kind.as_slice(),
        );
        let ghost rows = self@.rows;
        let ghost kinds = self.kind@;
        let r = Dataset {
            spot: self.spot,
            strike: self.strike,
            tte: self.tte,
            rate: self.rate,
            price,
            sigma_true: self.sigma_true,
            kind: self.kind,
        };
        proof {
            if steady(*k) {
                assert forall|i: int| 0 <= i < r.price@.len() implies #[trigger] r.price@[i]
                    == premium_of(*k, r.rows()[i], kind_at(i) is Call) by {
                    assert(kinds[i] == kind_at(i));
                    assert(r.rows()[i] == rows[i]);
                }
            }
        }
        r
    }
}

/// Draws the next five numbers.
fn draw<K: Arith>(k: &K, rng: &mut SplitMix64) -> (d: Draw)
    ensures
        final(rng)@ == advanced_by(old(rng)@, 5),
        in_range(d),
        steady(*k) ==> d == draw_of(*k, old(rng)@),
{
    proof {
        reveal_with_fuel(advanced_by, 6);
        law_order_is_encoding_order(num(SPOT_LO), num(SPOT_HI));
        law_order_is_encoding_order(num(STRIKE_LO), num(STRIKE_HI));
        law_order_is_encoding_order(num(TTE_LO), num(TWO));
        law_order_is_encoding_order(num(ZERO), num(RATE_HI));
        law_order_is_encoding_order(num(SIGMA_LO), num(SIGMA_HI));
    }
    let shortest = k.ln(k.over(num(ONE), num(DAYS)));
    let longest = k.ln(num(TWO));
    let spot = rng.uniform(k, num(SPOT_LO), num(SPOT_HI));
    let strike = rng.uniform(k, num(STRIKE_LO), num(STRIKE_HI));
    let years = k.exp(rng.uniform(k, shortest, longest));
    proof {
        law_clamp_lands_in_bracket(years, num(TTE_LO), num(TWO));
    }
    let tte = years.clamp(num(TTE_LO), num(TWO));
    let rate = rng.uniform(k, num(ZERO), num(RATE_HI));
    let sigma = rng.uniform(k, num(SIGMA_LO), num(SIGMA_HI));
    Draw { spot, strike, tte, rate, sigma }
}

/// Whether a draw is kept.
fn stands_clear<K: Arith>(k: &K, d: &Draw, is_call: bool) -> (r: bool)
    ensures
        steady(*k) ==> r == keeps(*k, *d, is_call),
{
    let terms = Quote {
        spot: d.spot,
        strike: d.strike,
        tte: d.tte,
        rate: d.rate,
        price: d.sigma,
        is_call,
    };
    let price = bs_price_vega(k, &terms, d.sigma).price;
    let q = Quote { price, ..terms };
    let c = carry(k, &q);
    let excess = k.minus(price, intrinsic(&q, &c));
    price.is_finite() && !excess.le(k.times(num(RECOVERABILITY_FLOOR_FRAC), d.spot))
}

/// The dataset of the first `n` options that are kept from the seed on, if so
/// many are kept in `attempts` attempts.
pub fn generate<K: Arith>(k: &K, n: usize, attempts: usize) -> (r: Option<Dataset>)
    ensures
        r matches Some(ds) ==> ds.consistent(*k) && ds.rows().len() == n,
        steady(*k) ==> (r is Some <==> course_of(*k, SEED, attempts as nat).rows.len() >= n),
        steady(*k) ==> (r matches Some(ds) ==> ds.rows() == course_of(
            *k,
            SEED,
            attempts as nat,
        ).rows.take(n as int)),
{
    let mut g = Generator::new(SEED);
    let mut a: usize = 0;
    while g.spot.len() < n && a < attempts
        invariant
            a <= attempts,
            g.wf(),
            g@.rows.len() <= n,
            steady(*k) ==> g@ == course_of(*k, SEED, a as nat),
        decreases attempts - a,
    {
        g.attempt(k);
        a += 1;
    }
    proof {
        if steady(*k) {
            law_generation_only_appends(*k, SEED, a as nat, attempts as nat);
        }
    }
    if g.spot.len() < n {
        None
    } else {
        Some(g.finish(k))
    }
}

/// What has been kept stays: later attempts only append.
pub proof fn law_generation_only_appends<K: Arith>(k: K, seed: u64, a: nat, b: nat)
    requires
        a <= b,
    ensures
        course_of(k, seed, a).rows.len() <= course_of(k, seed, b).rows.len(),
        course_of(k, seed, b).rows.take(course_of(k, seed, a).rows.len() as int) == course_of(
            k,
            seed,
            a,
        ).rows,
    decreases b,
{
    let rows = course_of(k, seed, a).rows;
    if a == b {
        assert(rows.take(rows.len() as int) =~= rows);
    } else {
        law_generation_only_appends(k, seed, a, (b - 1) as nat);
        let before = course_of(k, seed, (b - 1) as nat).rows;
        let after = course_of(k, seed, b).rows;
        assert(after.take(rows.len() as int) =~= before.take(rows.len() as int));
    }
}

/// The stream of a generation depends on the number of attempts alone: each
/// takes five numbers, whether its option is kept or not.
pub proof fn law_attempts_take_five_numbers<K: Arith>(k: K, seed: u64, attempts: nat)
    ensures
        course_of(k, seed, attempts).state == advanced_by(seed, 5 * attempts),
    decreases attempts,
{
    if attempts > 0 {
        law_attempts_take_five_numbers(k, seed, (attempts - 1) as nat);
        law_stream_advances_additively(seed, 5 * ((attempts - 1) as nat), 5);
    }
}

/// Every option of a dataset passed the filter, as the option that it became.
pub proof fn law_rows_passed_the_filter<K: Arith>(k: K, seed: u64, attempts: nat, i: int)
    requires
        0 <= i < course_of(k, seed, attempts).rows.len(),
    ensures
        keeps(k, course_of(k, seed, attempts).rows[i], kind_at(i) is Call),
    decreases attempts,
{
    if attempts > 0 {
        let before = course_of(k, seed, (attempts - 1) as nat);
        if i < before.rows.len() {
            law_rows_passed_the_filter(k, seed, (attempts - 1) as nat, i);
            assert(course_of(k, seed, attempts).rows[i] == before.rows[i]);
        }
    }
}

/// The stream walks in equal steps around the words.
pub proof fn law_stream_walks_in_equal_steps(state: u64, n: nat)
    ensures
        advanced_by(state, n) as int == (state + n * 0x9E37_79B9_7F4A_7C15) % 0x1_0000_0000_0000_0000,
    decreases n,
{
    let g: int = 0x9E37_79B9_7F4A_7C15;
    let m: int = 0x1_0000_0000_0000_0000;
    if n > 0 {
        let before = advanced_by(state, (n - 1) as nat);
        law_stream_walks_in_equal_steps(state, (n - 1) as nat);
        let total = state + (n - 1) * g;
        assert(total + g == state + n * g) by (nonlinear_arith)
            requires
                total == state + (n - 1) * g,
        ;
        assert(before as int == total % m);
        assert((total % m + g) % m == (total + g) % m) by (nonlinear_arith)
            requires
                m == 0x1_0000_0000_0000_0000,
        ;
        assert(advanced(before) as int == (before + g) % m);
    }
}

/// A draw spreads a number of the unit interval over a range: the lower end plus
/// the width times it, and what rounding has taken out of the range goes to the
/// lower end, or to the number next below the upper end.
pub proof fn law_draw_spreads_over_its_range<K: Arith>(k: K, state: u64, lo: Double, hi: Double)
    requires
        lo.below(hi),
    ensures
        ({
            let x = sum(k, lo, prod(k, diff(k, hi, lo), exact(unit_units(state))));
            let r = uniform_of(k, state, lo, hi);
            &&& lo.at_most(x) && x.below(hi) ==> r == x
            &&& x.below(lo) ==> r == lo
            &&& hi.at_most(x) || x.nan() ==> r.bits == down(hi)
        }),
{
    law_order_is_encoding_order(lo, hi);
}

/// An option takes the next five numbers of the stream, in order, for its spot,
/// strike, expiry, rate and volatility; the expiry is drawn by its logarithm,
/// between a day and two years.
pub proof fn law_option_takes_five_numbers_in_order<K: Arith>(k: K, state: u64)
    ensures
        ({
            let d = draw_of(k, state);
            let day = ln_of(k, quot(k, num(ONE), num(DAYS)));
            let years = exp_of(
                k,
                uniform_of(k, advanced_by(state, 3), day, ln_of(k, num(TWO))),
            );
            &&& d.spot == uniform_of(k, advanced_by(state, 1), num(SPOT_LO), num(SPOT_HI))
            &&& d.strike == uniform_of(k, advanced_by(state, 2), num(STRIKE_LO), num(STRIKE_HI))
            &&& num(TTE_LO).at_most(years) && years.at_most(num(TWO)) ==> d.tte == years
            &&& d.rate == uniform_of(k, advanced_by(state, 4), num(ZERO), num(RATE_HI))
            &&& d.sigma == uniform_of(k, advanced_by(state, 5), num(SIGMA_LO), num(SIGMA_HI))
        }),
{
}

/// A draw is kept exactly when its price at its volatility is finite and not
/// within a millionth of the spot of its intrinsic value.
pub proof fn law_kept_exactly_when_clear<K: Arith>(k: K, d: Draw, is_call: bool)
    ensures
        ({
            let q = Quote {
                spot: d.spot,
                strike: d.strike,
                tte: d.tte,
                rate: d.rate,
                price: d.sigma,
                is_call,
            };
            let price = priced_of(k, q, d.sigma).price;
            let owed = prod(k, d.strike, exp_of(k, prod(k, flipped(d.rate), d.tte)));
            let gain = if is_call {
                diff(k, d.spot, owed)
            } else {
                diff(k, owed, d.spot)
            };
            let least = if num(ZERO).at_most(gain) {
                gain
            } else {
                num(ZERO)
            };
            let clear = !diff(k, price, least).at_most(
                prod(k, num(RECOVERABILITY_FLOOR_FRAC), d.spot),
            );
            keeps(k, d, is_call) <==> price.finite() && clear
        }),
{
}

/// The first option is a call, and each has the other kind than the one before.
pub proof fn law_kinds_alternate(i: int)
    ensures
        kind_at(0) is Call,
        kind_at(i + 1) != kind_at(i),
{
}

/// Where the options of the dataset are drawn from: spots from `50` to `200`, strikes
/// from `40` to `240`, expiries from a day to two years, rates up to `0.06`,
/// volatilities from `0.05` to `0.8`; and where the bands of moneyness end.
pub proof fn law_dataset_ranges()
    ensures
        equals(num(SPOT_LO), 50, 1),
        equals(num(SPOT_HI), 200, 1),
        equals(num(STRIKE_LO), 40, 1),
        equals(num(STRIKE_HI), 240, 1),
        equals(num(DAYS), 365, 1),
        rounds(num(TTE_LO), 1, 365),
        rounds(num(RATE_HI), 6, 100),
        rounds(num(SIGMA_LO), 5, 100),
        rounds(num(SIGMA_HI), 8, 10),
        rounds(num(RECOVERABILITY_FLOOR_FRAC), 1, 1000000),
        rounds(num(OTM_BELOW), 7, 10),
        rounds(num(ATM_FROM), 95, 100),
        rounds(num(ATM_TO), 105, 100),
        rounds(num(ITM_ABOVE), 13, 10),
        DEFAULT_N == 1_000_000,
        SEED == 0x5EED_BEEF_CAFE_F00D,
{
    lemma2_to64();
    lemma2_to64_rest();
    lemma_pow2_two_words(8);
    lemma_rounds(num(SPOT_LO), 1028, 7036874417766400, 140737488355328, 50, 1);
    lemma_rounds(num(SPOT_HI), 1030, 7036874417766400, 35184372088832, 200, 1);
    lemma_rounds(num(STRIKE_LO), 1028, 5629499534213120, 140737488355328, 40, 1);
    lemma_rounds(num(STRIKE_HI), 1030, 8444249301319680, 35184372088832, 240, 1);
    lemma_rounds(num(DAYS), 1031, 6421147906211840, 17592186044416, 365, 1);
    lemma_rounds(num(TTE_LO), 1014, 6317378107434778, 2305843009213693952, 1, 365);
    lemma_rounds(num(RATE_HI), 1018, 8646911284551352, 144115188075855872, 6, 100);
    lemma_rounds(num(SIGMA_LO), 1018, 7205759403792794, 144115188075855872, 5, 100);
    lemma_rounds(num(SIGMA_HI), 1022, 7205759403792794, 9007199254740992, 8, 10);
    lemma_rounds(num(RECOVERABILITY_FLOOR_FRAC), 1003, 4722366482869645, 4722366482869645213696int, 1, 1000000);
    lemma_rounds(num(OTM_BELOW), 1022, 6305039478318694, 9007199254740992, 7, 10);
    lemma_rounds(num(ATM_FROM), 1022, 8556839292003942, 9007199254740992, 95, 100);
    lemma_rounds(num(ATM_TO), 1023, 4728779608739021, 4503599627370496, 105, 100);
    lemma_rounds(num(ITM_ABOVE), 1023, 5854679515581645, 4503599627370496, 13, 10);
}

/// What a dataset promises of option `i`: its terms lie where they are drawn from,
/// its kind follows from its place, and its premium is the price of those terms
/// at its volatility.
pub proof fn law_dataset_is_priced_at_its_volatilities<K: Arith>(k: K, ds: Dataset, i: int)
    requires
        steady(k),
        ds.consistent(k),
        0 <= i < ds.spot@.len(),
    ensures
        ({
            let q = Quote {
                spot: ds.spot@[i],
                strike: ds.strike@[i],
                tte: ds.tte@[i],
                rate: ds.rate@[i],
                price: ds.sigma_true@[i],
                is_call: i % 2 == 0,
            };
            &&& ds.price@[i] == priced_of(k, q, ds.sigma_true@[i]).price
            &&& ds.kind@[i] is Call <==> i % 2 == 0
            &&& num(SPOT_LO).at_most(q.spot) && q.spot.below(num(SPOT_HI))
            &&& num(STRIKE_LO).at_most(q.strike) && q.strike.below(num(STRIKE_HI))
            &&& num(TTE_LO).at_most(q.tte) && q.tte.at_most(num(TWO))
            &&& num(ZERO).at_most(q.rate) && q.rate.below(num(RATE_HI))
            &&& num(SIGMA_LO).at_most(q.price) && q.price.below(num(SIGMA_HI))
        }),
{
    let d = ds.rows()[i];
    assert(in_range(d));
    assert(ds.kind@[i] == kind_at(i));
    assert(ds.price@[i] == premium_of(k, d, kind_at(i) is Call));
}

} // verus!
