//! Numbers by their encodings, and packs of options.
use voltic::double::{from_count, Double};
use voltic::guard::{guard_correction, guard_step};
use voltic::kind::OptionKind;
use voltic::lanes::{filled_lanes, Columns};
use voltic::neighbour::{next_down, next_up, ulp_at};

fn d(x: f64) -> Double {
    Double { bits: x.to_bits() }
}

fn f(x: Double) -> f64 {
    f64::from_bits(x.bits)
}

const SAMPLES: [f64; 16] = [
    0.0,
    -0.0,
    1.0,
    -1.0,
    0.1,
    5e-324,
    -5e-324,
    2.2250738585072014e-308,
    1.7976931348623157e308,
    -1.7976931348623157e308,
    f64::INFINITY,
    f64::NEG_INFINITY,
    f64::NAN,
    1e-300,
    3.5,
    -2.75,
];

/// Comparisons, extremes and signs agree with the hardware's.
#[test]
fn order_agrees_with_hardware() {
    for a in SAMPLES {
        assert_eq!(d(a).is_nan(), a.is_nan());
        assert_eq!(d(a).is_finite(), a.is_finite());
        assert_eq!(d(a).is_sign_negative(), a.is_sign_negative());
        assert_eq!(f(d(a).abs()).to_bits(), a.abs().to_bits());
        assert_eq!(f(d(a).neg()).to_bits(), (-a).to_bits());
        for b in SAMPLES {
            assert_eq!(d(a).lt(d(b)), a < b, "{a} {b}");
            assert_eq!(d(a).le(d(b)), a <= b, "{a} {b}");
            assert_eq!(d(a).gt(d(b)), a > b, "{a} {b}");
            assert_eq!(d(a).ge(d(b)), a >= b, "{a} {b}");
            let (x, y) = (f(d(a).max(d(b))), a.max(b));
            assert!(x == y || x.is_nan() && y.is_nan(), "{a} {b}");
            let (x, y) = (f(d(a).min(d(b))), a.min(b));
            assert!(x == y || x.is_nan() && y.is_nan(), "{a} {b}");
        }
    }
}

/// A clamp lands in its bracket, whatever is clamped.
#[test]
fn clamp_lands_in_bracket() {
    for a in SAMPLES {
        let x = f(d(a).clamp(d(-1.5), d(2.5)));
        assert!((-1.5..=2.5).contains(&x), "{a} {x}");
    }
    assert_eq!(f(d(0.25).clamp(d(-1.5), d(2.5))), 0.25);
}

/// Counts are exact.
#[test]
fn counts_are_exact() {
    for n in [0_u64, 1, 2, 3, 7, 1000, 49_600, (1 << 53) - 1] {
        assert_eq!(f(from_count(n)), n as f64);
    }
}

/// The neighbours of a number, at the ends too.
#[test]
fn neighbours() {
    assert_eq!(f(next_up(d(1.0))), 1.0 + f64::EPSILON);
    assert_eq!(f(next_down(d(1.0))), 1.0 - f64::EPSILON / 2.0);
    assert_eq!(f(next_up(d(0.0))), 5e-324);
    assert_eq!(f(next_down(d(0.0))), -5e-324);
    assert_eq!(f(next_up(d(-1.0))), -1.0 + f64::EPSILON / 2.0);
    assert_eq!(f(next_up(d(f64::MAX))), f64::INFINITY);
    assert_eq!(f(next_down(next_up(d(0.1)))), 0.1);
    assert!(f(next_up(d(f64::NAN))).is_nan());
    assert_eq!(f(ulp_at(d(1.0))), f64::EPSILON);
}

/// Small denominators are raised to their floor, with their sign.
#[test]
fn guarded_denominators() {
    assert_eq!(f(guard_step(d(0.0))), 1e-300);
    assert_eq!(f(guard_step(d(-0.0))), -1e-300);
    assert_eq!(f(guard_step(d(-2.0))), -2.0);
    assert_eq!(f(guard_correction(d(0.0))), 1e-12);
    assert_eq!(f(guard_correction(d(-0.0))), 1e-12);
    assert_eq!(f(guard_correction(d(-1e-13))), -1e-12);
    assert_eq!(f(guard_correction(d(0.5))), 0.5);
    assert_eq!(f(guard_step(d(f64::NAN))).abs(), 1e-300);
}

/// Columns of one length, and packs of eight.
#[test]
fn columns_and_packs() {
    let x = vec![d(1.0); 11];
    let kind = vec![OptionKind::Call; 11];
    let good = Columns { spot: &x, strike: &x, tte: &x, rate: &x, price: &x, kind: &kind };
    assert!(good.check_lengths());
    let bad = Columns { spot: &x, strike: &x, tte: &x, rate: &x[1..], price: &x, kind: &kind };
    assert!(!bad.check_lengths());
    assert_eq!(filled_lanes(11, 0), 8);
    assert_eq!(filled_lanes(11, 8), 3);
}
