//! Counting and comparing results.
use voltic::arith::Arith;
use voltic::double::Double;
use voltic::dataset::Band;
use voltic::plan::Regime;
use voltic::report;
use voltic::typed::{ImpliedVolResult, ImpliedVolStatus};

/// Arithmetic in hardware.
struct Machine;

impl Arith for Machine {
    fn plus(&self, a: Double, b: Double) -> Double {
        d(f(a) + f(b))
    }

    fn minus(&self, a: Double, b: Double) -> Double {
        d(f(a) - f(b))
    }

    fn times(&self, a: Double, b: Double) -> Double {
        d(f(a) * f(b))
    }

    fn over(&self, a: Double, b: Double) -> Double {
        d(f(a) / f(b))
    }

    fn sqrt(&self, a: Double) -> Double {
        d(f(a).sqrt())
    }

    fn exp(&self, a: Double) -> Double {
        d(f(a).exp())
    }

    fn ln(&self, a: Double) -> Double {
        d(f(a).ln())
    }
}

fn d(x: f64) -> Double {
    Double { bits: x.to_bits() }
}

fn f(x: Double) -> f64 {
    f64::from_bits(x.bits)
}

fn ds(x: &[f64]) -> Vec<Double> {
    x.iter().map(|v| d(*v)).collect()
}

fn computed(v: f64) -> ImpliedVolResult {
    ImpliedVolResult { value: d(v), status: ImpliedVolStatus::Computed }
}

fn refused(status: ImpliedVolStatus) -> ImpliedVolResult {
    ImpliedVolResult { value: d(f64::NAN), status }
}

/// The largest error and where it was first reached, and one tally per status.
#[test]
fn tally_of_results() {
    let results = [
        computed(0.2),
        computed(0.3),
        refused(ImpliedVolStatus::NonFinite),
        computed(0.3),
        ImpliedVolResult {
            value: d(6.0),
            status: ImpliedVolStatus::AboveVolMax { computed: d(6.0) },
        },
    ];
    let truth = ds(&[0.2, 0.31, 0.4, 0.31, 0.5]);
    let values: Vec<Double> = results.iter().map(|r| r.value).collect();
    let error = report::distances(&Machine, &values, &truth);
    let s = report::scan(&results, &error);
    assert_eq!(s.counts, [3, 0, 1, 0, 0, 1, 0]);
    assert_eq!(f(s.worst), (0.3_f64 - 0.31).abs());
    assert_eq!(s.worst_row, 1);
    assert_eq!(s.over_micro, 2);
    assert_eq!(s.over_nano, 2);
}

#[test]
fn errors_over_a_column() {
    let solved = ds(&[0.2, f64::NAN, 0.5, f64::INFINITY]);
    let error = report::distances(&Machine, &solved, &ds(&[0.2, 0.3, 0.4, 0.1]));
    let (worst, missing, bad) = report::report_errors(&solved, &error);
    assert!((f(worst) - 0.1).abs() < 1e-15);
    assert_eq!((missing, bad), (2, 1));
}

#[test]
fn accuracy_by_band() {
    let solved = ds(&[0.2, f64::NAN, 0.5]);
    let error = ds(&[0.01, f64::NAN, 0.03]);
    let bands = [Band::NearAtm, Band::NearAtm, Band::DeepOtm];
    let all = report::accuracy(&solved, &error, &bands, None);
    assert_eq!((all.n, all.n_nan, f(all.max_abs)), (3, 1, 0.03));
    let near = report::accuracy(&solved, &error, &bands, Some(Band::NearAtm));
    assert_eq!((near.n, near.n_nan, f(near.max_abs)), (2, 1, 0.01));
    let none = report::accuracy(&solved, &error, &bands, Some(Band::DeepItm));
    assert_eq!((none.n, none.n_nan, f(none.max_abs)), (0, 0, 0.0));
}

#[test]
fn two_solvers_compared() {
    let a = ds(&[0.2, f64::NAN, 0.5]);
    let b = ds(&[0.21, 0.3, 0.5]);
    let gap = report::distances(&Machine, &a, &b);
    let (worst, joint) = report::cross_check(&a, &b, &gap);
    assert_eq!(f(worst), (0.2_f64 - 0.21).abs());
    assert_eq!(joint, 2);
}

#[test]
fn rescued_and_consistent() {
    let direct = ds(&[f64::NAN, f64::NAN, 0.3]);
    let typed = [
        refused(ImpliedVolStatus::BelowVolMin { computed: d(0.005) }),
        refused(ImpliedVolStatus::AboveVolMax { computed: d(6.0) }),
        computed(0.3),
    ];
    assert_eq!(report::rescues(&direct, &typed), (1, 1));
    for i in 0..3 {
        assert!(report::agrees_with_direct(typed[i].status, direct[i]));
    }
    assert!(!report::agrees_with_direct(ImpliedVolStatus::Computed, d(f64::NAN)));
    assert!(!report::agrees_with_direct(ImpliedVolStatus::NonFinite, d(0.1)));
}

#[test]
fn middle_and_ends() {
    let x = ds(&[3.0, -1.0, 2.0, 10.0, 2.0]);
    assert_eq!(f(report::median(&x)), 2.0);
    assert_eq!(f(report::median(&ds(&[1.0, 4.0, 2.0, 3.0]))), 3.0);
    let sorted: Vec<f64> = report::sort_numbers(&x).iter().map(|v| f(*v)).collect();
    assert_eq!(sorted, [-1.0, 2.0, 2.0, 3.0, 10.0]);
    let (lo, hi) = report::range_of(&x);
    assert_eq!((f(lo), f(hi)), (-1.0, 10.0));
    let (lo, hi) = report::range_of(&[]);
    assert_eq!((f(lo), f(hi)), (f64::INFINITY, f64::NEG_INFINITY));
}

#[test]
fn given_up_and_found_again() {
    let fast = ds(&[f64::NAN, 0.2, f64::NAN]);
    let typed = [computed(0.011), computed(0.2), refused(ImpliedVolStatus::FailedToConverge)];
    let a = report::analyze(&fast, &typed, &ds(&[0.001, 0.0, f64::NAN]));
    assert_eq!(a.nan_rows, [0, 2]);
    assert_eq!(a.counts, [1, 0, 0, 0, 0, 0, 1]);
    assert_eq!(a.values.len(), 1);
    assert_eq!((f(a.values[0]), f(a.diffs[0])), (0.011, 0.001));
}

#[test]
fn strata_of_the_wing() {
    let solved = ds(&[0.2, f64::NAN, 0.3, 0.4]);
    let s = report::stratify(&solved, &ds(&[0.1, 9.0, 0.2, 0.3]), &[true, true, false, false]);
    assert_eq!((s.wing, f(s.wing_worst)), (1, 0.1));
    assert_eq!((s.rest, f(s.rest_worst)), (2, 0.3));
}

/// The tally of a regime, and means.
#[test]
fn regimes_and_means() {
    let typed = [computed(0.2), computed(0.3), refused(ImpliedVolStatus::NonFinite)];
    let regimes = [Regime::Sweep, Regime::ShortT, Regime::Sweep];
    assert_eq!(report::tally_regime(&typed, &regimes, Regime::Sweep), [1, 0, 0, 0, 0, 1, 0]);
    assert_eq!(report::tally_regime(&typed, &regimes, Regime::ShortT), [1, 0, 0, 0, 0, 0, 0]);
    assert_eq!(report::tally_regime(&typed, &regimes, Regime::AtMaximum), [0; 7]);
    let rms = report::root_mean_square(&Machine, &typed, &ds(&[3.0, 4.0, 100.0]));
    assert_eq!(rms.map(f), Some(12.5_f64.sqrt()));
    assert!(report::root_mean_square(&Machine, &typed[2..], &ds(&[1.0])).is_none());
    assert_eq!(f(report::mean(&Machine, &ds(&[1.0, 2.0, 6.0]))), 3.0);
}

/// Absolute and relative errors of a kernel; where the truth is zero there is
/// no relative one.
#[test]
fn errors_of_a_kernel() {
    let (worst, share) =
        report::kernel_errors(&Machine, &ds(&[0.5, 1.5, 0.25]), &ds(&[0.25, 1.0, 0.0]));
    assert_eq!((f(worst), f(share)), (0.5, 1.0));
}
