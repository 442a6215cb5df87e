//! Properties over many options.
use voltic::arith::Arith;
use voltic::double::Double;
use voltic::dataset::SplitMix64;
use voltic::direct;
use voltic::kind::OptionKind;
use voltic::naive;
use voltic::schadner;
use voltic::typed;
use voltic::typed::ImpliedVolStatus;

/// Arithmetic in hardware.
struct Machine;

impl Arith for Machine {
    fn plus(&self, a: Double, b: Double) -> Double {
        d(f(a) + f(b))
    }

    fn minus(&self, a: Double, b: Double) -> Double {
        d(f(a) - f(b))
    }

    fn times(&self, a: Double, b: Double) -> Double {
        d(f(a) * f(b))
    }

    fn over(&self, a: Double, b: Double) -> Double {
        d(f(a) / f(b))
    }

    fn sqrt(&self, a: Double) -> Double {
        d(f(a).sqrt())
    }

    fn exp(&self, a: Double) -> Double {
        d(f(a).exp())
    }

    fn ln(&self, a: Double) -> Double {
        d(f(a).ln())
    }
}

fn d(x: f64) -> Double {
    Double { bits: x.to_bits() }
}

fn f(x: Double) -> f64 {
    f64::from_bits(x.bits)
}

fn one(
    g: fn(&Machine, &[Double], &[Double], &[Double], &[Double], &[Double], &[OptionKind]) -> Vec<Double>,
    o: &Sample,
    price: f64,
    kind: OptionKind,
) -> f64 {
    f(g(&Machine, &[d(o.s)], &[d(o.k)], &[d(o.t)], &[d(o.r)], &[d(price)], &[kind])[0])
}

/// A well-conditioned option and the volatility behind its premium.
#[derive(Clone, Copy, Debug)]
struct Sample {
    s: f64,
    k: f64,
    t: f64,
    r: f64,
    v: f64,
    kind: OptionKind,
}

/// Options in plausible ranges, kept where the premium is meaningfully above
/// intrinsic.
fn well_conditioned(seed: u64, n: usize) -> Vec<Sample> {
    let mut g = SplitMix64::new(seed);
    let mut out = Vec::new();
    while out.len() < n {
        let s = f(g.uniform(&Machine, d(50.0), d(200.0)));
        let k = s / f(g.uniform(&Machine, d(0.6), d(1.6)));
        let t = f(g.uniform(&Machine, d(0.02), d(2.0)));
        let r = f(g.uniform(&Machine, d(-0.01), d(0.08)));
        let v = f(g.uniform(&Machine, d(0.05), d(1.5)));
        let kind = if g.next_u64() % 2 == 0 { OptionKind::Call } else { OptionKind::Put };
        let o = Sample { s, k, t, r, v, kind };
        let price = one(direct::bs_price, &o, v, kind);
        let df = (-r * t).exp();
        let intrinsic = match kind {
            OptionKind::Call => (s - k * df).max(0.0),
            OptionKind::Put => (k * df - s).max(0.0),
        };
        if price.is_finite() && (price - intrinsic) > 1e-6 * s {
            out.push(o);
        }
    }
    out
}

#[test]
fn round_trip_recovers_sigma() {
    for o in well_conditioned(1, 2000) {
        let price = one(direct::bs_price, &o, o.v, o.kind);
        let iv = one(direct::implied_vol, &o, price, o.kind);
        assert!(!iv.is_nan(), "{o:?} price={price}");
        assert!((iv - o.v).abs() < 1e-5, "{o:?}: {iv}");
    }
}

#[test]
fn put_call_parity() {
    for o in well_conditioned(2, 2000) {
        let cp = one(direct::bs_price, &o, o.v, OptionKind::Call);
        let pp = one(direct::bs_price, &o, o.v, OptionKind::Put);
        let parity = cp - pp;
        let theo = o.s - o.k * (-o.r * o.t).exp();
        assert!((parity - theo).abs() < 1e-8 * (o.s + o.k).max(1.0), "{o:?}: {parity} vs {theo}");
        let civ = one(direct::implied_vol, &o, cp, OptionKind::Call);
        let piv = one(direct::implied_vol, &o, pp, OptionKind::Put);
        assert!(!civ.is_nan() && !piv.is_nan(), "{o:?}: {civ} {piv}");
        assert!((civ - o.v).abs() < 1e-5, "{o:?}: {civ}");
        assert!((piv - o.v).abs() < 1e-5, "{o:?}: {piv}");
    }
}

#[test]
fn explicit_agrees_with_direct() {
    for o in well_conditioned(3, 2000) {
        let price = one(direct::bs_price, &o, o.v, o.kind);
        let a = one(direct::implied_vol, &o, price, o.kind);
        let b = one(schadner::implied_vol_explicit, &o, price, o.kind);
        assert!(!b.is_nan(), "{o:?} price={price}");
        assert!((b - o.v).abs() < 1e-5, "{o:?}: {b}");
        assert!((a - b).abs() < 1e-5, "{o:?}: {a} vs {b}");
    }
}

#[test]
fn direct_batch_equals_singletons() {
    for n in [1, 7, 8, 9, 39] {
        let set = well_conditioned(4 + n as u64, n);
        let col = |g: fn(&Sample) -> f64| set.iter().map(|o| d(g(o))).collect::<Vec<Double>>();
        let kind: Vec<OptionKind> = set.iter().map(|o| o.kind).collect();
        let (s, k, t, r) = (col(|o| o.s), col(|o| o.k), col(|o| o.t), col(|o| o.r));
        let price = direct::bs_price(&Machine, &s, &k, &t, &r, &col(|o| o.v), &kind);
        let iv = direct::implied_vol(&Machine, &s, &k, &t, &r, &price, &kind);
        let typed = typed::implied_vol_typed_batch(&Machine, &s, &k, &t, &r, &price, &kind);
        for (i, o) in set.iter().enumerate() {
            let alone = one(direct::implied_vol, o, f(price[i]), o.kind);
            assert_eq!(f(iv[i]).to_bits(), alone.to_bits(), "row {i}");
            let t1 = typed::implied_vol_typed(&Machine, s[i], k[i], t[i], r[i], price[i], o.kind);
            assert_eq!(typed[i].value.bits, t1.value.bits, "row {i}");
        }
    }
}

#[test]
fn typed_agrees_with_direct() {
    for o in well_conditioned(5, 500) {
        let price = one(direct::bs_price, &o, o.v, o.kind);
        let r = typed::implied_vol_typed(
            &Machine,
            d(o.s),
            d(o.k),
            d(o.t),
            d(o.r),
            d(price),
            o.kind,
        );
        assert!(matches!(r.status, ImpliedVolStatus::Computed), "{o:?} {r:?}");
        assert!((f(r.value) - o.v).abs() < 1e-5, "{o:?}: {}", f(r.value));
    }
}

/// The plain solver gives what the direct one gives, to the bit, on recoverable
/// options and on those that neither answers.
#[test]
fn plain_solver_agrees() {
    let agreed = |o: &Sample, price: f64| {
        let terms = [o.s, o.k, o.t, o.r, price].map(d);
        let [s, k, t, r, p] = terms;
        let plain = naive::implied_vol_one(&Machine, s, k, t, r, p, o.kind.is_call());
        let fast = direct::implied_vol_one(&Machine, s, k, t, r, p, o.kind);
        assert_eq!(plain.bits, fast.bits, "{o:?} {price}");
        f(plain)
    };
    for o in well_conditioned(6, 500) {
        let price = one(direct::bs_price, &o, o.v, o.kind);
        let v = agreed(&o, price);
        assert!((v - o.v).abs() < 1e-5, "{o:?}: {v}");
        for off in [-1.0, 0.0, price * 1e-9, o.s + o.k, f64::NAN, f64::INFINITY] {
            agreed(&o, off);
        }
    }
    let faint = Sample { s: 100.0, k: 200.0, t: 1.0, r: 0.0, v: 0.0, kind: OptionKind::Call };
    assert!(agreed(&faint, 1e-20).is_nan());
    let bad = Sample { s: -1.0, ..faint };
    assert!(agreed(&bad, 0.1).is_nan());
}

/// A root outside the range is told as such by the typed solver, and is a NaN
/// from the direct one.
#[test]
fn outside_roots_are_nan_from_direct_solver() {
    for (sigma, low) in [(0.005, true), (0.009, true), (5.5, false), (6.0, false)] {
        for (k, t) in [(100.0, 0.25), (100.0, 1.0), (101.0, 0.5), (99.5, 1.0)] {
            for kind in [OptionKind::Call, OptionKind::Put] {
                let o = Sample { s: 100.0, k, t, r: 0.0, v: sigma, kind };
                let price = one(direct::bs_price, &o, sigma, kind);
                let [s, k, t, r, p] = [o.s, o.k, o.t, o.r, price].map(d);
                let told = typed::implied_vol_typed(&Machine, s, k, t, r, p, kind);
                let found = match told.status {
                    ImpliedVolStatus::BelowVolMin { computed } if low => f(computed),
                    ImpliedVolStatus::AboveVolMax { computed } if !low => f(computed),
                    other => panic!("{o:?}: {other:?}"),
                };
                assert!((found - sigma).abs() < 1e-5, "{o:?}: {found}");
                let fast = direct::implied_vol_one(&Machine, s, k, t, r, p, kind);
                assert!(f(fast).is_nan(), "{o:?}: {}", f(fast));
            }
        }
    }
}

/// The typed solver accepts less than the direct one: deep in the money, where the
/// premium holds few digits of the volatility, it does not vouch for a root that
/// the direct solver reports.
#[test]
fn typed_solver_accepts_less() {
    let kind = OptionKind::Call;
    let o = Sample { s: 100.0, k: 70.0, t: 0.001, r: 0.0, v: 2.0, kind };
    let price = one(direct::bs_price, &o, o.v, kind);
    let [s, k, t, r, p] = [o.s, o.k, o.t, o.r, price].map(d);
    let told = typed::implied_vol_typed(&Machine, s, k, t, r, p, kind);
    assert!(matches!(told.status, ImpliedVolStatus::FailedToConverge), "{told:?}");
    let fast = f(direct::implied_vol_one(&Machine, s, k, t, r, p, kind));
    assert!((fast - o.v).abs() < 1e-5, "{fast}");
}
