//! The synthetic dataset.
use voltic::arith::Arith;
use voltic::double::Double;
use voltic::dataset::{band_of_ratio, generate, keep_half_open, Band, SplitMix64, SEED};
use voltic::direct;
use voltic::kind::{kinds_as_bool, OptionKind};
use voltic::naive;

/// Arithmetic in hardware.
struct Machine;

impl Arith for Machine {
    fn plus(&self, a: Double, b: Double) -> Double {
        d(f(a) + f(b))
    }

    fn minus(&self, a: Double, b: Double) -> Double {
        d(f(a) - f(b))
    }

    fn times(&self, a: Double, b: Double) -> Double {
        d(f(a) * f(b))
    }

    fn over(&self, a: Double, b: Double) -> Double {
        d(f(a) / f(b))
    }

    fn sqrt(&self, a: Double) -> Double {
        d(f(a).sqrt())
    }

    fn exp(&self, a: Double) -> Double {
        d(f(a).exp())
    }

    fn ln(&self, a: Double) -> Double {
        d(f(a).ln())
    }
}

fn d(x: f64) -> Double {
    Double { bits: x.to_bits() }
}

fn f(x: Double) -> f64 {
    f64::from_bits(x.bits)
}

/// The first numbers of two known streams.
#[test]
fn known_streams() {
    let mut g = SplitMix64::new(0);
    assert_eq!(g.next_u64(), 0xE220A8397B1DCDAF);
    assert_eq!(g.next_u64(), 0x6E789E6AA1B965F4);
    assert_eq!(g.next_u64(), 0x06C45D188009454F);
    let mut h = SplitMix64::new(0);
    assert_eq!(f(h.next_f64()), 0.8833108082136426);
}

/// Every number of a stream lies in the unit interval, without its upper end.
#[test]
fn stream_stays_in_the_unit_interval() {
    let mut g = SplitMix64::new(SEED);
    for _ in 0..10_000 {
        let x = f(g.next_f64());
        assert!((0.0..1.0).contains(&x));
        let y = f(g.uniform(&Machine, d(-2.0), d(3.0)));
        assert!((-2.0..=3.0).contains(&y));
    }
}

/// The dataset has the asked for number of rows, each recoverable, and a longer
/// one begins with a shorter one.
#[test]
fn dataset_is_reproducible() {
    let a = generate(&Machine, 500, 100_000).unwrap();
    let b = generate(&Machine, 800, 100_000).unwrap();
    assert_eq!(a.len(), 500);
    assert_eq!(b.len(), 800);
    assert!(!a.is_empty());
    for i in 0..500 {
        assert_eq!(a.spot[i].bits, b.spot[i].bits);
        assert_eq!(a.price[i].bits, b.price[i].bits);
        assert_eq!(a.sigma_true[i].bits, b.sigma_true[i].bits);
        let (s, k, t, r) = (f(a.spot[i]), f(a.strike[i]), f(a.tte[i]), f(a.rate[i]));
        let df = (-r * t).exp();
        let intrinsic = match a.kind[i] {
            OptionKind::Call => (s - k * df).max(0.0),
            OptionKind::Put => (k * df - s).max(0.0),
        };
        assert!(f(a.price[i]) - intrinsic > 1e-6 * s);
    }
}

/// Too few attempts give no dataset, and none are needed for an empty one.
#[test]
fn attempts_bound_the_dataset() {
    assert!(generate(&Machine, 10, 3).is_none());
    let empty = generate(&Machine, 0, 0).unwrap();
    assert!(empty.is_empty());
}

/// The bands of moneyness, at their ends.
#[test]
fn bands_at_their_ends() {
    assert!(matches!(band_of_ratio(d(0.69)), Band::DeepOtm));
    assert!(matches!(band_of_ratio(d(0.95)), Band::NearAtm));
    assert!(matches!(band_of_ratio(d(1.05)), Band::NearAtm));
    assert!(matches!(band_of_ratio(d(1.31)), Band::DeepItm));
    assert!(matches!(band_of_ratio(d(0.7)), Band::Other));
    assert!(matches!(band_of_ratio(d(1.3)), Band::Other));
}

/// The direct solver recovers the volatilities of the dataset, as does the
/// plain one.
#[test]
fn solvers_recover_the_dataset() {
    let set = generate(&Machine, 400, 100_000).unwrap();
    let fast = direct::implied_vol(
        &Machine,
        &set.spot,
        &set.strike,
        &set.tte,
        &set.rate,
        &set.price,
        &set.kind,
    );
    let calls = kinds_as_bool(&set.kind);
    let plain = naive::implied_vol(
        &Machine,
        &set.spot,
        &set.strike,
        &set.tte,
        &set.rate,
        &set.price,
        &calls,
    );
    let mut solved = 0;
    let mut agreed = 0;
    for i in 0..set.len() {
        if !f(fast[i]).is_nan() {
            solved += 1;
            assert!((f(fast[i]) - f(set.sigma_true[i])).abs() < 1e-3, "row {i}");
            if !f(plain[i]).is_nan() {
                agreed += 1;
                assert!((f(fast[i]) - f(plain[i])).abs() < 1e-3, "row {i}");
            }
        }
    }
    assert!(solved > 300, "solved {solved}");
    assert!(agreed > 300, "agreed {agreed}");
}

/// Draws stay in the half-open interval also where rounding reaches its end.
#[test]
fn draws_are_half_open() {
    let keep = |x: f64| f(keep_half_open(d(x), d(1.0), d(2.0)));
    assert_eq!(keep(1.5), 1.5);
    assert_eq!(keep(1.0), 1.0);
    assert_eq!(keep(2.0), 2.0 - f64::EPSILON);
    assert_eq!(keep(0.999), 1.0);
    assert_eq!(keep(f64::NAN), 2.0 - f64::EPSILON);
    assert_eq!(f(keep_half_open(d(7.0), d(3.0), d(3.0))), 7.0);
    assert_eq!(f(keep_half_open(d(0.5), d(-1.0), d(0.0))), -5e-324);
    let mut g = SplitMix64::new(9);
    for _ in 0..1000 {
        let x = f(g.uniform(&Machine, d(-3.0), d(5.0)));
        assert!((-3.0..5.0).contains(&x));
    }
}

/// Every column of the dataset lies where it is drawn from.
#[test]
fn columns_lie_in_their_ranges() {
    let set = generate(&Machine, 300, 100_000).unwrap();
    for i in 0..set.len() {
        assert!((50.0..200.0).contains(&f(set.spot[i])));
        assert!((40.0..240.0).contains(&f(set.strike[i])));
        assert!((1.0 / 365.0..=2.0).contains(&f(set.tte[i])));
        assert!((0.0..0.06).contains(&f(set.rate[i])));
        assert!((0.05..0.80).contains(&f(set.sigma_true[i])));
    }
}
