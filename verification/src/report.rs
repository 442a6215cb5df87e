//! Counting and comparing results.
//!
//! The comparisons of solved volatilities with those behind the premiums: how
//! many options got which status, how far the worst one is off and where it
//! stands, and how the bands fare.
use crate::arith::{diff, prod, quot, sqrt_of, steady, sum, Arith};
use crate::constants::ZERO;
use crate::dataset::Band;
use crate::double::{
    count_of, from_count, larger, lemma_pow2_two_words, lemma_rounds, num, rounds, smaller,
    unsigned, Double, INFINITE,
};
use crate::plan::Regime;
use crate::typed::{ImpliedVolResult, ImpliedVolStatus};
use vstd::arithmetic::power2::{lemma2_to64, lemma2_to64_rest};
use vstd::prelude::*;

verus! {

/// `1e-3`, a catastrophic error.
pub const CATASTROPHIC: u64 = 0x3F50_624D_D2F1_A9FC;

/// `1e-6`, the error of a mislabelled option.
pub const MISLABEL_MICRO: u64 = 0x3EB0_C6F7_A0B5_ED8D;

/// `1e-9`, a smaller error that is counted too.
pub const MISLABEL_NANO: u64 = 0x3E11_2E0B_E826_D695;

/// How many of the first `n` flags are set.
pub open spec fn count(flags: Seq<bool>, n: int) -> int
    decreases n,
{
    if n <= 0 {
        0
    } else {
        count(flags, n - 1) + if flags[n - 1] {
            1int
        } else {
            0int
        }
    }
}

/// The largest of the first `n` numbers whose flags are set; zero if there are
/// none.
pub open spec fn peak(e: Seq<Double>, flags: Seq<bool>, n: int) -> Double
    decreases n,
{
    if n <= 0 {
        num(ZERO)
    } else if flags[n - 1] {
        larger(peak(e, flags, n - 1), e[n - 1])
    } else {
        peak(e, flags, n - 1)
    }
}

/// Where among the first `n` the largest flagged number was first reached; zero
/// if none rises above zero.
pub open spec fn peak_row(e: Seq<Double>, flags: Seq<bool>, n: int) -> int
    decreases n,
{
    if n <= 0 {
        0
    } else if flags[n - 1] && peak(e, flags, n - 1).below(e[n - 1]) {
        n - 1
    } else {
        peak_row(e, flags, n - 1)
    }
}

/// At most `n` of `n` flags are set.
proof fn lemma_count_bounds(flags: Seq<bool>, n: int)
    requires
        0 <= n,
    ensures
        0 <= count(flags, n) <= n,
    decreases n,
{
    if n > 0 {
        lemma_count_bounds(flags, n - 1);
    }
}

/// The peak is a number: zero, or one of the flagged numbers; and no flagged
/// number exceeds it.
pub proof fn law_peak_bounds_all(e: Seq<Double>, flags: Seq<bool>, n: int, i: int)
    requires
        0 <= i < n <= e.len(),
        n <= flags.len(),
        flags[i],
        !e[i].nan(),
    ensures
        !peak(e, flags, n).nan(),
        e[i].at_most(peak(e, flags, n)),
    decreases n,
{
    lemma_peak_is_number(e, flags, n);
    lemma_peak_is_number(e, flags, n - 1);
    if i < n - 1 {
        law_peak_bounds_all(e, flags, n - 1, i);
    }
}

/// The peak is never a NaN.
proof fn lemma_peak_is_number(e: Seq<Double>, flags: Seq<bool>, n: int)
    requires
        n <= e.len(),
        n <= flags.len(),
    ensures
        !peak(e, flags, n).nan(),
    decreases n,
{
    if n > 0 {
        lemma_peak_is_number(e, flags, n - 1);
    }
}

/// The row of the peak holds the peak, where anything rises above zero.
pub proof fn law_peak_row_holds_peak(e: Seq<Double>, flags: Seq<bool>, n: int)
    requires
        0 <= n <= e.len(),
        n <= flags.len(),
        num(ZERO).below(peak(e, flags, n)),
    ensures
        0 <= peak_row(e, flags, n) < n,
        flags[peak_row(e, flags, n)],
        e[peak_row(e, flags, n)] == peak(e, flags, n),
    decreases n,
{
    if n > 0 {
        lemma_peak_is_number(e, flags, n - 1);
        if !(flags[n - 1] && peak(e, flags, n - 1).below(e[n - 1])) {
            law_peak_row_holds_peak(e, flags, n - 1);
        }
    }
}

/// How far two columns are apart, row by row.
pub open spec fn distances_of<K: Arith>(k: K, a: Seq<Double>, b: Seq<Double>) -> Seq<Double> {
    Seq::new(a.len(), |i: int| unsigned(diff(k, a[i], b[i])))
}

/// How far two columns are apart, row by row.
pub fn distances<K: Arith>(k: &K, a: &[Double], b: &[Double]) -> (out: Vec<Double>)
    requires
        b@.len() == a@.len(),
    ensures
        out@.len() == a@.len(),
        forall|i: int| 0 <= i < out@.len() ==> !(#[trigger] out@[i]).negative(),
        steady(*k) ==> out@ == distances_of(*k, a@, b@),
{
    let mut out: Vec<Double> = Vec::new();
    let mut i: usize = 0;
    while i < a.len()
        invariant
            i <= a@.len() == b@.len(),
            out@.len() == i,
            forall|j: int| 0 <= j < out@.len() ==> !(#[trigger] out@[j]).negative(),
            steady(*k) ==> forall|j: int|
                0 <= j < i ==> #[trigger] out@[j] == unsigned(diff(*k, a@[j], b@[j])),
        decreases a@.len() - i,
    {
        out.push(k.minus(a[i], b[i]).abs());
        i += 1;
    }
    assert(steady(*k) ==> out@ =~= distances_of(*k, a@, b@));
    out
}

/// Flags that are all set.
pub open spec fn all_flags(n: nat) -> Seq<bool> {
    Seq::new(n, |i: int| true)
}

/// Which numbers are above zero.
pub open spec fn positive_flags(truth: Seq<Double>) -> Seq<bool> {
    Seq::new(truth.len(), |i: int| num(ZERO).below(truth[i]))
}

/// Distances in proportion to what they are distances from.
pub open spec fn shares_of<K: Arith>(k: K, d: Seq<Double>, truth: Seq<Double>) -> Seq<Double> {
    Seq::new(d.len(), |i: int| quot(k, d[i], truth[i]))
}

/// The largest error of a kernel over a table, and the largest in proportion to
/// the truth, where that is above zero.
pub fn kernel_errors<K: Arith>(k: &K, got: &[Double], truth: &[Double]) -> (r: (Double, Double))
    requires
        truth@.len() == got@.len(),
    ensures
        !r.0.nan() && !r.1.nan(),
        steady(*k) ==> r.0 == peak(
            distances_of(*k, got@, truth@),
            all_flags(got@.len()),
            got@.len() as int,
        ),
        steady(*k) ==> r.1 == peak(
            shares_of(*k, distances_of(*k, got@, truth@), truth@),
            positive_flags(truth@),
            got@.len() as int,
        ),
{
    let mut worst = num(ZERO);
    let mut share = num(ZERO);
    let ghost d = distances_of(*k, got@, truth@);
    let ghost s = shares_of(*k, d, truth@);
    let mut i: usize = 0;
    while i < got.len()
        invariant
            i <= got@.len() == truth@.len(),
            d == distances_of(*k, got@, truth@),
            s == shares_of(*k, d, truth@),
            !worst.nan() && !share.nan(),
            steady(*k) ==> worst == peak(d, all_flags(got@.len()), i as int),
            steady(*k) ==> share == peak(s, positive_flags(truth@), i as int),
        decreases got@.len() - i,
    {
        let e = k.minus(got[i], truth[i]).abs();
        worst = worst.max(e);
        if truth[i].gt(num(ZERO)) {
            share = share.max(k.over(e, truth[i]));
        }
        i += 1;
    }
    (worst, share)
}

/// The place of a status in a tally.
pub open spec fn place_of(s: ImpliedVolStatus) -> int {
    match s {
        ImpliedVolStatus::Computed => 0,
        ImpliedVolStatus::BelowVolMin { .. } => 1,
        ImpliedVolStatus::AboveVolMax { .. } => 2,
        ImpliedVolStatus::BelowIntrinsic => 3,
        ImpliedVolStatus::AboveMaximum => 4,
        ImpliedVolStatus::NonFinite => 5,
        ImpliedVolStatus::FailedToConverge => 6,
    }
}

/// The place of a status in a tally.
pub fn place(s: ImpliedVolStatus) -> (r: usize)
    ensures
        r == place_of(s),
        r < 7,
{
    match s {
        ImpliedVolStatus::Computed => 0,
        ImpliedVolStatus::BelowVolMin { .. } => 1,
        ImpliedVolStatus::AboveVolMax { .. } => 2,
        ImpliedVolStatus::BelowIntrinsic => 3,
        ImpliedVolStatus::AboveMaximum => 4,
        ImpliedVolStatus::NonFinite => 5,
        ImpliedVolStatus::FailedToConverge => 6,
    }
}

/// Which results have the status at place `p`.
pub open spec fn at_place(typed: Seq<ImpliedVolResult>, p: int) -> Seq<bool> {
    Seq::new(typed.len(), |i: int| place_of(typed[i].status) == p)
}

/// Which results are computed and off by more than `x`.
pub open spec fn computed_over(
    typed: Seq<ImpliedVolResult>,
    error: Seq<Double>,
    x: u64,
) -> Seq<bool> {
    Seq::new(
        typed.len(),
        |i: int| typed[i].status is Computed && num(x).below(error[i]),
    )
}

/// A tally of typed results.
#[derive(Clone, Copy, Debug)]
pub struct Scan {
    /// How many results have each status, in the order of their places.
    pub counts: [usize; 7],
    /// The largest error of a computed result.
    pub worst: Double,
    /// Where it was first reached.
    pub worst_row: usize,
    /// Computed results off by more than `1e-6`.
    pub over_micro: usize,
    /// Computed results off by more than `1e-9`.
    pub over_nano: usize,
}

/// Tallies typed results and the errors of those that are computed.
pub fn scan(typed: &[ImpliedVolResult], error: &[Double]) -> (r: Scan)
    requires
        error@.len() == typed@.len(),
    ensures
        forall|p: int|
            0 <= p < 7 ==> #[trigger] r.counts[p] == count(
                at_place(typed@, p),
                typed@.len() as int,
            ),
        r.worst == peak(error@, at_place(typed@, 0), typed@.len() as int),
        r.worst_row == peak_row(error@, at_place(typed@, 0), typed@.len() as int),
        r.over_micro == count(
            computed_over(typed@, error@, MISLABEL_MICRO),
            typed@.len() as int,
        ),
        r.over_nano == count(computed_over(typed@, error@, MISLABEL_NANO), typed@.len() as int),
{
    let n: usize = typed.len();
    let mut counts: [usize; 7] = [0;7];
    let mut worst = num(ZERO);
    let mut worst_row: usize = 0;
    let mut over_micro: usize = 0;
    let mut over_nano: usize = 0;
    let micro = num(MISLABEL_MICRO);
    let nano = num(MISLABEL_NANO);
    let ghost done = at_place(typed@, 0);
    let ghost wide = computed_over(typed@, error@, MISLABEL_MICRO);
    let ghost narrow = computed_over(typed@, error@, MISLABEL_NANO);
    let mut i: usize = 0;
    while i < n
        invariant
            n == typed@.len() == error@.len(),
            i <= n,
            micro == num(MISLABEL_MICRO),
            nano == num(MISLABEL_NANO),
            done == at_place(typed@, 0),
            wide == computed_over(typed@, error@, MISLABEL_MICRO),
            narrow == computed_over(typed@, error@, MISLABEL_NANO),
            forall|p: int|
                0 <= p < 7 ==> #[trigger] counts@[p] == count(at_place(typed@, p), i as int),
            worst == peak(error@, done, i as int),
            worst_row == peak_row(error@, done, i as int),
            over_micro == count(wide, i as int),
            over_nano == count(narrow, i as int),
            over_micro <= i,
            over_nano <= i,
        decreases n - i,
    {
        let p: usize = place(typed[i].status);
        proof {
            lemma_count_bounds(at_place(typed@, p as int), i as int);
            lemma_peak_is_number(error@, done, i as int);
            assert(counts@[p as int] == count(at_place(typed@, p as int), i as int));
        }
        counts[p] = counts[p] + 1;
        if p == 0 {
            let e = error[i];
            if worst.lt(e) {
                worst = e;
                worst_row = i;
            }
            if micro.lt(e) {
                over_micro += 1;
            }
            if nano.lt(e) {
                over_nano += 1;
            }
        }
        i += 1;
    }
    Scan { counts, worst, worst_row, over_micro, over_nano }
}

/// Every result is tallied once.
pub proof fn law_tally_is_complete(typed: Seq<ImpliedVolResult>, n: int)
    requires
        0 <= n <= typed.len(),
    ensures
        count(at_place(typed, 0), n) + count(at_place(typed, 1), n) + count(at_place(typed, 2), n)
            + count(at_place(typed, 3), n) + count(at_place(typed, 4), n) + count(
            at_place(typed, 5),
            n,
        ) + count(at_place(typed, 6), n) == n,
    decreases n,
{
    if n > 0 {
        law_tally_is_complete(typed, n - 1);
    }
}

/// Which results belong to a regime and have the status at place `p`.
pub open spec fn regime_at_place(
    typed: Seq<ImpliedVolResult>,
    regimes: Seq<Regime>,
    regime: Regime,
    p: int,
) -> Seq<bool> {
    Seq::new(typed.len(), |i: int| regimes[i] == regime && place_of(typed[i].status) == p)
}

/// How many results of a regime have each status, in the order of their places.
pub fn tally_regime(
    typed: &[ImpliedVolResult],
    regimes: &[Regime],
    regime: Regime,
) -> (counts: [usize; 7])
    requires
        regimes@.len() == typed@.len(),
    ensures
        forall|p: int|
            0 <= p < 7 ==> #[trigger] counts[p] == count(
                regime_at_place(typed@, regimes@, regime, p),
                typed@.len() as int,
            ),
{
    let mut counts: [usize; 7] = [0;7];
    let mut i: usize = 0;
    while i < typed.len()
        invariant
            i <= typed@.len() == regimes@.len(),
            forall|p: int|
                0 <= p < 7 ==> #[trigger] counts@[p] == count(
                    regime_at_place(typed@, regimes@, regime, p),
                    i as int,
                ),
        decreases typed@.len() - i,
    {
        if regimes[i] == regime {
            let p: usize = place(typed[i].status);
            proof {
                let flags = regime_at_place(typed@, regimes@, regime, p as int);
                lemma_count_bounds(flags, i as int);
                assert(counts@[p as int] == count(flags, i as int));
            }
            counts[p] = counts[p] + 1;
        }
        i += 1;
    }
    counts
}

/// The sum of the squares of the flagged numbers among the first `n`.
pub open spec fn squares_of<K: Arith>(k: K, e: Seq<Double>, flags: Seq<bool>, n: int) -> Double
    decreases n,
{
    if n <= 0 {
        num(ZERO)
    } else if flags[n - 1] {
        sum(k, squares_of(k, e, flags, n - 1), prod(k, e[n - 1], e[n - 1]))
    } else {
        squares_of(k, e, flags, n - 1)
    }
}

/// The root of the mean square error of the computed results, if there are any.
pub fn root_mean_square<K: Arith>(k: &K, typed: &[ImpliedVolResult], error: &[Double]) -> (r: Option<
    Double,
>)
    requires
        error@.len() == typed@.len(),
        typed@.len() < 0x0020_0000_0000_0000,
    ensures
        r is Some <==> count(at_place(typed@, 0), typed@.len() as int) > 0,
        steady(*k) ==> (r matches Some(x) ==> x == sqrt_of(
            *k,
            quot(
                *k,
                squares_of(*k, error@, at_place(typed@, 0), typed@.len() as int),
                count_of(count(at_place(typed@, 0), typed@.len() as int)),
            ),
        )),
{
    let mut squares = num(ZERO);
    let mut n: usize = 0;
    let ghost done = at_place(typed@, 0);
    let mut i: usize = 0;
    while i < typed.len()
        invariant
            i <= typed@.len() == error@.len(),
            done == at_place(typed@, 0),
            n == count(done, i as int),
            n <= i,
            steady(*k) ==> squares == squares_of(*k, error@, done, i as int),
        decreases typed@.len() - i,
    {
        if place(typed[i].status) == 0 {
            squares = k.plus(squares, k.times(error[i], error[i]));
            n += 1;
        }
        i += 1;
    }
    if n == 0 {
        None
    } else {
        Some(k.sqrt(k.over(squares, from_count(n as u64))))
    }
}

/// The sum of the first `n` numbers.
pub open spec fn total_of<K: Arith>(k: K, e: Seq<Double>, n: int) -> Double
    decreases n,
{
    if n <= 0 {
        num(ZERO)
    } else {
        sum(k, total_of(k, e, n - 1), e[n - 1])
    }
}

/// The mean of a column.
pub fn mean<K: Arith>(k: &K, column: &[Double]) -> (r: Double)
    requires
        0 < column@.len() < 0x0020_0000_0000_0000,
    ensures
        steady(*k) ==> r == quot(
            *k,
            total_of(*k, column@, column@.len() as int),
            count_of(column@.len() as int),
        ),
{
    let mut total = num(ZERO);
    let mut i: usize = 0;
    while i < column.len()
        invariant
            i <= column@.len(),
            steady(*k) ==> total == total_of(*k, column@, i as int),
        decreases column@.len() - i,
    {
        total = k.plus(total, column[i]);
        i += 1;
    }
    k.over(total, from_count(column.len() as u64))
}

/// Which volatilities are finite.
pub open spec fn finite_flags(solved: Seq<Double>) -> Seq<bool> {
    Seq::new(solved.len(), |i: int| solved[i].finite())
}

/// Which volatilities are not finite.
pub open spec fn missing_flags(solved: Seq<Double>) -> Seq<bool> {
    Seq::new(solved.len(), |i: int| !solved[i].finite())
}

/// Which volatilities are finite and off by `1e-3` or more.
pub open spec fn catastrophic_flags(solved: Seq<Double>, error: Seq<Double>) -> Seq<bool> {
    Seq::new(
        solved.len(),
        |i: int| solved[i].finite() && num(CATASTROPHIC).at_most(error[i]),
    )
}

/// The largest error, the number of options without a volatility, and the
/// number of catastrophic ones.
pub fn report_errors(solved: &[Double], error: &[Double]) -> (r: (Double, usize, usize))
    requires
        error@.len() == solved@.len(),
    ensures
        r.0 == peak(error@, finite_flags(solved@), solved@.len() as int),
        r.1 == count(missing_flags(solved@), solved@.len() as int),
        r.2 == count(catastrophic_flags(solved@, error@), solved@.len() as int),
{
    let n: usize = solved.len();
    let mut max_abs = num(ZERO);
    let mut missing: usize = 0;
    let mut bad: usize = 0;
    let limit = num(CATASTROPHIC);
    let ghost finite = finite_flags(solved@);
    let ghost lost = missing_flags(solved@);
    let ghost awful = catastrophic_flags(solved@, error@);
    let mut i: usize = 0;
    while i < n
        invariant
            n == solved@.len() == error@.len(),
            i <= n,
            limit == num(CATASTROPHIC),
            finite == finite_flags(solved@),
            lost == missing_flags(solved@),
            awful == catastrophic_flags(solved@, error@),
            max_abs == peak(error@, finite, i as int),
            missing == count(lost, i as int),
            bad == count(awful, i as int),
            missing <= i,
            bad <= i,
        decreases n - i,
    {
        proof {
            lemma_peak_is_number(error@, finite, i as int);
        }
        if !solved[i].is_finite() {
            missing += 1;
        } else {
            let e = error[i];
            if max_abs.lt(e) {
                max_abs = e;
            }
            if limit.le(e) {
                bad += 1;
            }
        }
        i += 1;
    }
    (max_abs, missing, bad)
}

/// How a band fares.
#[derive(Clone, Copy, Debug)]
pub struct Acc {
    pub max_abs: Double,
    pub n_nan: usize,
    pub n: usize,
}

/// The option counts: there is no band to keep to, or it is in that band.
pub open spec fn counts_for(band: Option<Band>, b: Band) -> bool {
    band matches Some(wanted) ==> b == wanted
}

/// Which options count.
pub open spec fn chosen_flags(bands: Seq<Band>, band: Option<Band>) -> Seq<bool> {
    Seq::new(bands.len(), |i: int| counts_for(band, bands[i]))
}

/// Which options count and have no volatility.
pub open spec fn chosen_nan_flags(
    solved: Seq<Double>,
    bands: Seq<Band>,
    band: Option<Band>,
) -> Seq<bool> {
    Seq::new(bands.len(), |i: int| counts_for(band, bands[i]) && solved[i].nan())
}

/// Which options count and have one.
pub open spec fn chosen_solved_flags(
    solved: Seq<Double>,
    bands: Seq<Band>,
    band: Option<Band>,
) -> Seq<bool> {
    Seq::new(bands.len(), |i: int| counts_for(band, bands[i]) && !solved[i].nan())
}

/// How the options of a band (or all of them) fare.
pub fn accuracy(
    solved: &[Double],
    error: &[Double],
    bands: &[Band],
    band: Option<Band>,
) -> (r: Acc)
    requires
        error@.len() == solved@.len(),
        bands@.len() == solved@.len(),
    ensures
        r.n == count(chosen_flags(bands@, band), solved@.len() as int),
        r.n_nan == count(chosen_nan_flags(solved@, bands@, band), solved@.len() as int),
        r.max_abs == peak(
            error@,
            chosen_solved_flags(solved@, bands@, band),
            solved@.len() as int,
        ),
{
    let total: usize = solved.len();
    let mut max_abs = num(ZERO);
    let mut n_nan: usize = 0;
    let mut n: usize = 0;
    let ghost all = chosen_flags(bands@, band);
    let ghost nans = chosen_nan_flags(solved@, bands@, band);
    let ghost good = chosen_solved_flags(solved@, bands@, band);
    let mut i: usize = 0;
    while i < total
        invariant
            total == solved@.len() == error@.len() == bands@.len(),
            i <= total,
            all == chosen_flags(bands@, band),
            nans == chosen_nan_flags(solved@, bands@, band),
            good == chosen_solved_flags(solved@, bands@, band),
            n == count(all, i as int),
            n_nan == count(nans, i as int),
            max_abs == peak(error@, good, i as int),
            n <= i,
            n_nan <= i,
        decreases total - i,
    {
        let counts: bool = match band {
            None => true,
            Some(wanted) => bands[i] == wanted,
        };
        if counts {
            n += 1;
            if solved[i].is_nan() {
                n_nan += 1;
            } else {
                max_abs = max_abs.max(error[i]);
            }
        }
        i += 1;
    }
    Acc { max_abs, n_nan, n }
}

/// Which options both solvers have solved.
pub open spec fn both_flags(a: Seq<Double>, b: Seq<Double>) -> Seq<bool> {
    Seq::new(a.len(), |i: int| !a[i].nan() && !b[i].nan())
}

/// How far two solvers are apart on what both have solved, and how much that
/// is.
pub fn cross_check(a: &[Double], b: &[Double], distance: &[Double]) -> (r: (Double, usize))
    requires
        b@.len() == a@.len(),
        distance@.len() == a@.len(),
    ensures
        r.0 == peak(distance@, both_flags(a@, b@), a@.len() as int),
        r.1 == count(both_flags(a@, b@), a@.len() as int),
{
    let n: usize = a.len();
    let mut worst = num(ZERO);
    let mut joint: usize = 0;
    let ghost both = both_flags(a@, b@);
    let mut i: usize = 0;
    while i < n
        invariant
            n == a@.len() == b@.len() == distance@.len(),
            i <= n,
            both == both_flags(a@, b@),
            worst == peak(distance@, both, i as int),
            joint == count(both, i as int),
            joint <= i,
        decreases n - i,
    {
        if !a[i].is_nan() && !b[i].is_nan() {
            worst = worst.max(distance[i]);
            joint += 1;
        }
        i += 1;
    }
    (worst, joint)
}

/// Which options the direct solver gave up and the typed one found a root for,
/// with the status at place `p`.
pub open spec fn rescued_flags(
    direct: Seq<Double>,
    typed: Seq<ImpliedVolResult>,
    p: int,
) -> Seq<bool> {
    Seq::new(typed.len(), |i: int| direct[i].nan() && place_of(typed[i].status) == p)
}

/// How many roots below and above the reported range the typed solver knows of
/// that the direct one gave up.
pub fn rescues(direct: &[Double], typed: &[ImpliedVolResult]) -> (r: (usize, usize))
    requires
        direct@.len() == typed@.len(),
    ensures
        r.0 == count(rescued_flags(direct@, typed@, 1), typed@.len() as int),
        r.1 == count(rescued_flags(direct@, typed@, 2), typed@.len() as int),
{
    let n: usize = typed.len();
    let mut below: usize = 0;
    let mut above: usize = 0;
    let ghost low = rescued_flags(direct@, typed@, 1);
    let ghost high = rescued_flags(direct@, typed@, 2);
    let mut i: usize = 0;
    while i < n
        invariant
            n == typed@.len() == direct@.len(),
            i <= n,
            low == rescued_flags(direct@, typed@, 1),
            high == rescued_flags(direct@, typed@, 2),
            below == count(low, i as int),
            above == count(high, i as int),
            below <= i,
            above <= i,
        decreases n - i,
    {
        if direct[i].is_nan() {
            let p: usize = place(typed[i].status);
            if p == 1 {
                below += 1;
            }
            if p == 2 {
                above += 1;
            }
        }
        i += 1;
    }
    (below, above)
}

/// The two solvers tell the same story of an option: a volatility where it is
/// computed, a NaN elsewhere.
pub open spec fn consistent(status: ImpliedVolStatus, direct: Double) -> bool {
    status is Computed <==> !direct.nan()
}

/// Whether the two solvers tell the same story of an option.
pub fn agrees_with_direct(status: ImpliedVolStatus, direct: Double) -> (r: bool)
    ensures
        r == consistent(status, direct),
{
    match status {
        ImpliedVolStatus::Computed => !direct.is_nan(),
        _ => direct.is_nan(),
    }
}

/// In ascending order.
pub open spec fn ascending(s: Seq<Double>) -> bool {
    forall|i: int, j: int| 0 <= i <= j < s.len() ==> #[trigger] s[i].at_most(#[trigger] s[j])
}

/// All are numbers.
pub open spec fn numbers(s: Seq<Double>) -> bool {
    forall|i: int| 0 <= i < s.len() ==> !(#[trigger] s[i]).nan()
}

/// Puts `x` in its place in an ascending column.
fn insert_sorted(sorted: &mut Vec<Double>, x: Double)
    requires
        ascending(old(sorted)@),
        numbers(old(sorted)@),
        !x.nan(),
    ensures
        ascending(final(sorted)@),
        numbers(final(sorted)@),
        final(sorted)@.to_multiset() == old(sorted)@.to_multiset().insert(x),
        final(sorted)@.len() == old(sorted)@.len() + 1,
{
    let ghost before = sorted@;
    let mut at: usize = 0;
    while at < sorted.len() && sorted[at].le(x)
        invariant
            sorted@ == before,
            ascending(before),
            numbers(before),
            !x.nan(),
            at <= before.len(),
            forall|i: int| 0 <= i < at ==> #[trigger] before[i].at_most(x),
        decreases before.len() - at,
    {
        at += 1;
    }
    sorted.insert(at, x);
    proof {
        let after = sorted@;
        assert(after == before.insert(at as int, x));
        assert forall|i: int, j: int| 0 <= i <= j < after.len() implies #[trigger] after[i].at_most(
            #[trigger] after[j],
        ) by {
            if at < before.len() {
                assert(!before[at as int].at_most(x));
            }
            if i < at && j > at {
                assert(before[i].at_most(before[j - 1]));
            } else if i > at && j > at {
                assert(before[i - 1].at_most(before[j - 1]));
            } else if i == at && j > at {
                assert(before[at as int].at_most(before[j - 1]));
            } else if i < at && j < at {
                assert(before[i].at_most(before[j]));
            }
        }
        vstd::seq_lib::to_multiset_insert(before, at as int, x);
    }
}

/// The column in ascending order.
pub fn sort_numbers(column: &[Double]) -> (sorted: Vec<Double>)
    requires
        numbers(column@),
    ensures
        ascending(sorted@),
        sorted@.to_multiset() == column@.to_multiset(),
        sorted@.len() == column@.len(),
{
    let mut sorted: Vec<Double> = Vec::new();
    let mut i: usize = 0;
    assert(column@.take(0) =~= Seq::<Double>::empty());
    while i < column.len()
        invariant
            numbers(column@),
            i <= column@.len(),
            ascending(sorted@),
            numbers(sorted@),
            sorted@.len() == i,
            sorted@.to_multiset() == column@.take(i as int).to_multiset(),
        decreases column@.len() - i,
    {
        proof {
            assert(column@.take(i + 1) =~= column@.take(i as int).push(column@[i as int]));
            vstd::seq_lib::to_multiset_build(column@.take(i as int), column@[i as int]);
        }
        insert_sorted(&mut sorted, column[i]);
        i += 1;
    }
    assert(column@.take(column@.len() as int) =~= column@);
    sorted
}

/// `r` stands in the middle of the column in ascending order (of an even number,
/// the upper of the two in the middle).
pub open spec fn is_median(column: Seq<Double>, r: Double) -> bool {
    exists|sorted: Seq<Double>| #[trigger]
        ascending(sorted) && sorted.to_multiset() == column.to_multiset() && sorted.len()
            == column.len() && r == sorted[(column.len() / 2) as int]
}

/// The median of a column of numbers.
pub fn median(column: &[Double]) -> (r: Double)
    requires
        column@.len() > 0,
        numbers(column@),
    ensures
        is_median(column@, r),
{
    let sorted = sort_numbers(column);
    sorted[column.len() / 2]
}

/// The smallest of the first `n`, from positive infinity down.
pub open spec fn lowest_of(s: Seq<Double>, n: int) -> Double
    decreases n,
{
    if n <= 0 {
        num(INFINITE)
    } else {
        smaller(lowest_of(s, n - 1), s[n - 1])
    }
}

/// The largest of the first `n`, from negative infinity up.
pub open spec fn highest_of(s: Seq<Double>, n: int) -> Double
    decreases n,
{
    if n <= 0 {
        num(0xFFF0_0000_0000_0000)
    } else {
        larger(highest_of(s, n - 1), s[n - 1])
    }
}

/// The ends of a column.
pub fn range_of(column: &[Double]) -> (r: (Double, Double))
    ensures
        r.0 == lowest_of(column@, column@.len() as int),
        r.1 == highest_of(column@, column@.len() as int),
{
    let mut low = num(INFINITE);
    let mut high = num(0xFFF0_0000_0000_0000);
    let mut i: usize = 0;
    while i < column.len()
        invariant
            i <= column@.len(),
            low == lowest_of(column@, i as int),
            high == highest_of(column@, i as int),
        decreases column@.len() - i,
    {
        low = low.min(column[i]);
        high = high.max(column[i]);
        i += 1;
    }
    (low, high)
}

/// The rows without a volatility, in order.
pub open spec fn nan_rows(fast: Seq<Double>, n: int) -> Seq<int>
    decreases n,
{
    if n <= 0 {
        Seq::empty()
    } else if fast[n - 1].nan() {
        nan_rows(fast, n - 1).push(n - 1)
    } else {
        nan_rows(fast, n - 1)
    }
}

/// A status that comes with a root.
pub open spec fn has_root(s: ImpliedVolStatus) -> bool {
    s is Computed || s is BelowVolMin || s is AboveVolMax
}

/// The rows without a volatility for which there is a root, in order.
pub open spec fn root_rows(fast: Seq<Double>, typed: Seq<ImpliedVolResult>, n: int) -> Seq<int>
    decreases n,
{
    if n <= 0 {
        Seq::empty()
    } else if fast[n - 1].nan() && has_root(typed[n - 1].status) {
        root_rows(fast, typed, n - 1).push(n - 1)
    } else {
        root_rows(fast, typed, n - 1)
    }
}

/// Which rows have no volatility, and the status at place `p`.
pub open spec fn nan_at_place(
    fast: Seq<Double>,
    typed: Seq<ImpliedVolResult>,
    p: int,
) -> Seq<bool> {
    Seq::new(typed.len(), |i: int| fast[i].nan() && place_of(typed[i].status) == p)
}

/// What the typed solver knows of the options that another gave up.
pub struct Analysis {
    /// The rows that the other gave up.
    pub nan_rows: Vec<usize>,
    /// How many of them have each status.
    pub counts: [usize; 7],
    /// The roots found for them.
    pub values: Vec<Double>,
    /// How far those are off.
    pub diffs: Vec<Double>,
}

/// Looks up what the typed solver knows of the options that another gave up.
pub fn analyze(fast: &[Double], typed: &[ImpliedVolResult], error: &[Double]) -> (r: Analysis)
    requires
        fast@.len() == typed@.len(),
        error@.len() == typed@.len(),
    ensures
        r.nan_rows@.len() == nan_rows(fast@, typed@.len() as int).len(),
        forall|p: int|
            0 <= p < r.nan_rows@.len() ==> #[trigger] r.nan_rows@[p] == nan_rows(
                fast@,
                typed@.len() as int,
            )[p],
        forall|p: int|
            0 <= p < 7 ==> #[trigger] r.counts[p] == count(
                nan_at_place(fast@, typed@, p),
                typed@.len() as int,
            ),
        r.values@ == picked_values(typed@, root_rows(fast@, typed@, typed@.len() as int)),
        r.diffs@ == picked_errors(error@, root_rows(fast@, typed@, typed@.len() as int)),
{
    let n: usize = typed.len();
    let mut rows: Vec<usize> = Vec::new();
    let mut counts: [usize; 7] = [0;7];
    let mut values: Vec<Double> = Vec::new();
    let mut diffs: Vec<Double> = Vec::new();
    let mut i: usize = 0;
    assert(values@ =~= picked_values(typed@, root_rows(fast@, typed@, 0)));
    assert(diffs@ =~= picked_errors(error@, root_rows(fast@, typed@, 0)));
    while i < n
        invariant
            n == typed@.len() == fast@.len() == error@.len(),
            i <= n,
            rows@.len() == nan_rows(fast@, i as int).len(),
            forall|p: int|
                0 <= p < rows@.len() ==> #[trigger] rows@[p] == nan_rows(fast@, i as int)[p],
            forall|p: int|
                0 <= p < 7 ==> #[trigger] counts@[p] == count(
                    nan_at_place(fast@, typed@, p),
                    i as int,
                ),
            values@ == picked_values(typed@, root_rows(fast@, typed@, i as int)),
            diffs@ == picked_errors(error@, root_rows(fast@, typed@, i as int)),
        decreases n - i,
    {
        let ghost found = root_rows(fast@, typed@, i as int);
        if fast[i].is_nan() {
            rows.push(i);
            let p: usize = place(typed[i].status);
            proof {
                lemma_count_bounds(nan_at_place(fast@, typed@, p as int), i as int);
                assert(counts@[p as int] == count(
                    nan_at_place(fast@, typed@, p as int),
                    i as int,
                ));
            }
            counts[p] = counts[p] + 1;
            if p <= 2 {
                values.push(typed[i].value);
                diffs.push(error[i]);
                proof {
                    assert(root_rows(fast@, typed@, i + 1) == found.push(i as int));
                    assert(values@ =~= picked_values(typed@, found.push(i as int)));
                    assert(diffs@ =~= picked_errors(error@, found.push(i as int)));
                }
            }
        }
        i += 1;
    }
    Analysis { nan_rows: rows, counts, values, diffs }
}

/// The values of the given rows.
pub open spec fn picked_values(typed: Seq<ImpliedVolResult>, rows: Seq<int>) -> Seq<Double> {
    Seq::new(rows.len(), |p: int| typed[rows[p]].value)
}

/// The errors of the given rows.
pub open spec fn picked_errors(error: Seq<Double>, rows: Seq<int>) -> Seq<Double> {
    Seq::new(rows.len(), |p: int| error[rows[p]])
}

/// Which solved rows lie in the wing, or outside it.
pub open spec fn stratum_flags(solved: Seq<Double>, wing: Seq<bool>, inside: bool) -> Seq<bool> {
    Seq::new(solved.len(), |i: int| !solved[i].nan() && wing[i] == inside)
}

/// How the two strata fare: the number of solved options inside and outside the
/// wing, and the largest error of each.
#[derive(Clone, Copy, Debug)]
pub struct Strata {
    pub wing: usize,
    pub wing_worst: Double,
    pub rest: usize,
    pub rest_worst: Double,
}

/// Splits the solved options by whether they lie in the wing.
pub fn stratify(solved: &[Double], error: &[Double], wing: &[bool]) -> (r: Strata)
    requires
        error@.len() == solved@.len(),
        wing@.len() == solved@.len(),
    ensures
        r.wing == count(stratum_flags(solved@, wing@, true), solved@.len() as int),
        r.rest == count(stratum_flags(solved@, wing@, false), solved@.len() as int),
        r.wing_worst == peak(error@, stratum_flags(solved@, wing@, true), solved@.len() as int),
        r.rest_worst == peak(error@, stratum_flags(solved@, wing@, false), solved@.len() as int),
{
    let n: usize = solved.len();
    let mut inside: usize = 0;
    let mut inside_worst = num(ZERO);
    let mut outside: usize = 0;
    let mut outside_worst = num(ZERO);
    let ghost a = stratum_flags(solved@, wing@, true);
    let ghost b = stratum_flags(solved@, wing@, false);
    let mut i: usize = 0;
    while i < n
        invariant
            n == solved@.len() == error@.len() == wing@.len(),
            i <= n,
            a == stratum_flags(solved@, wing@, true),
            b == stratum_flags(solved@, wing@, false),
            inside == count(a, i as int),
            outside == count(b, i as int),
            inside_worst == peak(error@, a, i as int),
            outside_worst == peak(error@, b, i as int),
            inside <= i,
            outside <= i,
        decreases n - i,
    {
        if !solved[i].is_nan() {
            if wing[i] {
                inside += 1;
                inside_worst = inside_worst.max(error[i]);
            } else {
                outside += 1;
                outside_worst = outside_worst.max(error[i]);
            }
        }
        i += 1;
    }
    Strata { wing: inside, wing_worst: inside_worst, rest: outside, rest_worst: outside_worst }
}

/// The rows that a list of rows should hold.
pub open spec fn listed(rows: Seq<int>, n: int, wanted: spec_fn(int) -> bool) -> bool {
    &&& forall|i: int| 0 <= i < n && wanted(i) ==> #[trigger] rows.contains(i)
    &&& forall|p: int| 0 <= p < rows.len() ==> 0 <= #[trigger] rows[p] < n && wanted(rows[p])
    &&& forall|p: int, q: int| 0 <= p < q < rows.len() ==> #[trigger] rows[p] < #[trigger] rows[q]
}

/// The rows without a volatility are listed, each once, in order, and no other;
/// and so are those of them for which the typed solver has a root.
pub proof fn law_rows_are_listed(fast: Seq<Double>, typed: Seq<ImpliedVolResult>, n: int)
    requires
        0 <= n,
    ensures
        listed(nan_rows(fast, n), n, |i: int| fast[i].nan()),
        listed(
            root_rows(fast, typed, n),
            n,
            |i: int|
                fast[i].nan() && (typed[i].status is Computed || typed[i].status is BelowVolMin
                    || typed[i].status is AboveVolMax),
        ),
    decreases n,
{
    if n > 0 {
        law_rows_are_listed(fast, typed, n - 1);
        let a = |i: int| fast[i].nan();
        let b = |i: int|
            fast[i].nan() && (typed[i].status is Computed || typed[i].status is BelowVolMin
                || typed[i].status is AboveVolMax);
        lemma_listed_grows(nan_rows(fast, n - 1), nan_rows(fast, n), n - 1, a);
        lemma_listed_grows(root_rows(fast, typed, n - 1), root_rows(fast, typed, n), n - 1, b);
    }
}

/// A list grows by the next row where that is wanted.
proof fn lemma_listed_grows(rows: Seq<int>, more: Seq<int>, n: int, wanted: spec_fn(int) -> bool)
    requires
        0 <= n,
        listed(rows, n, wanted),
        more == if wanted(n) {
            rows.push(n)
        } else {
            rows
        },
    ensures
        listed(more, n + 1, wanted),
{
    assert forall|i: int| 0 <= i < n + 1 && wanted(i) implies #[trigger] more.contains(i) by {
        if i < n {
            assert(rows.contains(i));
            let p = choose|p: int| 0 <= p < rows.len() && rows[p] == i;
            assert(more[p] == i);
        } else {
            assert(more[rows.len() as int] == i);
        }
    }
    assert forall|p: int| 0 <= p < more.len() implies 0 <= #[trigger] more[p] < n + 1 && wanted(
        more[p],
    ) by {
        if p < rows.len() {
            assert(more[p] == rows[p]);
        }
    }
    assert forall|p: int, q: int| 0 <= p < q < more.len() implies #[trigger] more[p]
        < #[trigger] more[q] by {
        if q < rows.len() {
            assert(rows[p] < rows[q]);
        } else {
            assert(more[p] == rows[p]);
        }
    }
}

/// A count goes up by one at each flag that is set, and only there: it is the
/// size of the set of flagged places.
pub proof fn law_count_is_how_many(flags: Seq<bool>, n: int)
    requires
        0 <= n <= flags.len(),
    ensures
        count(flags, n) == Set::new(|i: int| 0 <= i < n && flags[i]).len(),
        Set::new(|i: int| 0 <= i < n && flags[i]).finite(),
    decreases n,
{
    let here = Set::new(|i: int| 0 <= i < n && flags[i]);
    if n == 0 {
        assert(here =~= Set::empty());
    } else {
        law_count_is_how_many(flags, n - 1);
        let before = Set::new(|i: int| 0 <= i < n - 1 && flags[i]);
        if flags[n - 1] {
            assert(here =~= before.insert(n - 1));
        } else {
            assert(here =~= before);
        }
    }
}

/// What each set of flags counts, option by option.
pub proof fn law_flags_say_what_is_counted(
    solved: Seq<Double>,
    other: Seq<Double>,
    error: Seq<Double>,
    typed: Seq<ImpliedVolResult>,
    bands: Seq<Band>,
    wing: Seq<bool>,
    band: Option<Band>,
    i: int,
)
    requires
        0 <= i < solved.len(),
        other.len() == solved.len(),
        error.len() == solved.len(),
        typed.len() == solved.len(),
        bands.len() == solved.len(),
        wing.len() == solved.len(),
    ensures
        ({
            let found = !solved[i].nan();
            let finite = solved[i].finite();
            let mine = band is None || band == Some(bands[i]);
            let computed = typed[i].status is Computed;
            &&& finite_flags(solved)[i] == finite
            &&& missing_flags(solved)[i] == !finite
            &&& catastrophic_flags(solved, error)[i] == (finite && num(CATASTROPHIC).at_most(
                error[i],
            ))
            &&& chosen_flags(bands, band)[i] == mine
            &&& chosen_nan_flags(solved, bands, band)[i] == (mine && !found)
            &&& chosen_solved_flags(solved, bands, band)[i] == (mine && found)
            &&& both_flags(solved, other)[i] == (found && !other[i].nan())
            &&& rescued_flags(solved, typed, 1)[i] == (!found && typed[i].status is BelowVolMin)
            &&& rescued_flags(solved, typed, 2)[i] == (!found && typed[i].status is AboveVolMax)
            &&& computed_over(typed, error, MISLABEL_MICRO)[i] == (computed && num(
                MISLABEL_MICRO,
            ).below(error[i]))
            &&& computed_over(typed, error, MISLABEL_NANO)[i] == (computed && num(
                MISLABEL_NANO,
            ).below(error[i]))
            &&& stratum_flags(solved, wing, true)[i] == (found && wing[i])
            &&& stratum_flags(solved, wing, false)[i] == (found && !wing[i])
        }),
{
}

/// Each status found a place of its own, in the order in which they are tallied.
pub proof fn law_places_tell_statuses(s: ImpliedVolStatus)
    ensures
        place_of(s) == 0 <==> s is Computed,
        place_of(s) == 1 <==> s is BelowVolMin,
        place_of(s) == 2 <==> s is AboveVolMax,
        place_of(s) == 3 <==> s is BelowIntrinsic,
        place_of(s) == 4 <==> s is AboveMaximum,
        place_of(s) == 5 <==> s is NonFinite,
        place_of(s) == 6 <==> s is FailedToConverge,
{
}

/// The ends of a column bound every number in it.
pub proof fn law_ends_bound_the_column(s: Seq<Double>, n: int, i: int)
    requires
        0 <= i < n <= s.len(),
        !s[i].nan(),
    ensures
        lowest_of(s, n).at_most(s[i]),
        s[i].at_most(highest_of(s, n)),
    decreases n,
{
    lemma_ends_are_numbers(s, n - 1);
    if i < n - 1 {
        law_ends_bound_the_column(s, n - 1, i);
    } else {
        lemma_ends_are_numbers(s, n);
    }
}

/// The ends of a column are numbers.
proof fn lemma_ends_are_numbers(s: Seq<Double>, n: int)
    requires
        n <= s.len(),
    ensures
        !lowest_of(s, n).nan(),
        !highest_of(s, n).nan(),
    decreases n,
{
    if n > 0 {
        lemma_ends_are_numbers(s, n - 1);
    }
}

/// A sum and a sum of squares take in the next number as the machine adds it.
pub proof fn law_sums_take_in_the_next<K: Arith>(
    k: K,
    e: Seq<Double>,
    flags: Seq<bool>,
    n: int,
)
    requires
        0 <= n < e.len(),
        n < flags.len(),
    ensures
        total_of(k, e, 0) == num(ZERO),
        total_of(k, e, n + 1) == sum(k, total_of(k, e, n), e[n]),
        squares_of(k, e, flags, 0) == num(ZERO),
        flags[n] ==> squares_of(k, e, flags, n + 1) == sum(
            k,
            squares_of(k, e, flags, n),
            prod(k, e[n], e[n]),
        ),
        !flags[n] ==> squares_of(k, e, flags, n + 1) == squares_of(k, e, flags, n),
{
}

/// An error is catastrophic from `1e-3` on; a computed option is counted as off from
/// `1e-6` and from `1e-9` on.
pub proof fn law_report_thresholds()
    ensures
        rounds(num(CATASTROPHIC), 1, 1000),
        rounds(num(MISLABEL_MICRO), 1, 1000000),
        rounds(num(MISLABEL_NANO), 1, 1000000000),
{
    lemma2_to64();
    lemma2_to64_rest();
    lemma_pow2_two_words(8);
    lemma_pow2_two_words(18);
    lemma_rounds(num(CATASTROPHIC), 1013, 4611686018427388, 4611686018427387904, 1, 1000);
    lemma_rounds(num(MISLABEL_MICRO), 1003, 4722366482869645, 4722366482869645213696int, 1, 1000000);
    lemma_rounds(num(MISLABEL_NANO), 993, 4835703278458517, 4835703278458516698824704int, 1, 1000000000);
}

/// Distances and shares, row by row: how far two columns are apart, without a
/// sign, and that over what it is measured against, where that is above zero.
pub proof fn law_distances_row_by_row<K: Arith>(
    k: K,
    a: Seq<Double>,
    b: Seq<Double>,
    i: int,
)
    requires
        0 <= i < a.len(),
        b.len() == a.len(),
    ensures
        ({
            let d = distances_of(k, a, b);
            &&& d.len() == a.len()
            &&& d[i] == unsigned(diff(k, a[i], b[i]))
            &&& shares_of(k, d, b)[i] == quot(k, d[i], b[i])
            &&& positive_flags(b)[i] <==> num(ZERO).below(b[i])
            &&& all_flags(a.len())[i]
        }),
{
}

/// The two solvers tell the same story of an option exactly when it is computed
/// and has a volatility, or is neither.
pub proof fn law_same_story(status: ImpliedVolStatus, direct: Double)
    ensures
        status is Computed && !direct.nan() ==> consistent(status, direct),
        !(status is Computed) && direct.nan() ==> consistent(status, direct),
        status is Computed && direct.nan() ==> !consistent(status, direct),
        !(status is Computed) && !direct.nan() ==> !consistent(status, direct),
{
}

/// What is read off the rows that another solver gave up, row by row.
pub proof fn law_given_up_rows(
    fast: Seq<Double>,
    typed: Seq<ImpliedVolResult>,
    error: Seq<Double>,
    regimes: Seq<Regime>,
    regime: Regime,
    rows: Seq<int>,
    place: int,
    p: int,
    i: int,
)
    requires
        0 <= i < typed.len(),
        0 <= p < rows.len(),
    ensures
        nan_at_place(fast, typed, place)[i] <==> fast[i].nan() && place_of(typed[i].status)
            == place,
        regime_at_place(typed, regimes, regime, place)[i] <==> regimes[i] == regime && place_of(
            typed[i].status,
        ) == place,
        picked_values(typed, rows)[p] == typed[rows[p]].value,
        picked_errors(error, rows)[p] == error[rows[p]],
{
}

} // verus!
