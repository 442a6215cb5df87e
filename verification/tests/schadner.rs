//! The explicit solver.
use voltic::arith::Arith;
use voltic::direct;
use voltic::double::Double;
use voltic::kind::OptionKind;
use voltic::schadner;

/// Arithmetic in hardware.
struct Machine;

impl Arith for Machine {
    fn plus(&self, a: Double, b: Double) -> Double {
        d(f(a) + f(b))
    }

    fn minus(&self, a: Double, b: Double) -> Double {
        d(f(a) - f(b))
    }

    fn times(&self, a: Double, b: Double) -> Double {
        d(f(a) * f(b))
    }

    fn over(&self, a: Double, b: Double) -> Double {
        d(f(a) / f(b))
    }

    fn sqrt(&self, a: Double) -> Double {
        d(f(a).sqrt())
    }

    fn exp(&self, a: Double) -> Double {
        d(f(a).exp())
    }

    fn ln(&self, a: Double) -> Double {
        d(f(a).ln())
    }
}

fn d(x: f64) -> Double {
    Double { bits: x.to_bits() }
}

fn f(x: Double) -> f64 {
    f64::from_bits(x.bits)
}

fn ds(x: &[f64]) -> Vec<Double> {
    x.iter().map(|v| d(*v)).collect()
}

fn fs(x: &[Double]) -> Vec<f64> {
    x.iter().map(|v| f(*v)).collect()
}

fn bs_price(s: &[f64], k: &[f64], t: &[f64], r: &[f64], v: &[f64], kind: &[OptionKind]) -> Vec<f64> {
    fs(&direct::bs_price(&Machine, &ds(s), &ds(k), &ds(t), &ds(r), &ds(v), kind))
}

fn implied_vol_explicit(
    s: &[f64],
    k: &[f64],
    t: &[f64],
    r: &[f64],
    p: &[f64],
    kind: &[OptionKind],
) -> Vec<f64> {
    fs(&schadner::implied_vol_explicit(&Machine, &ds(s), &ds(k), &ds(t), &ds(r), &ds(p), kind))
}




#[test]
fn schadner_round_trip_atm_call() {
    let (s, k, t, r) = ([100.0], [100.0], [1.0], [0.02]);
    let kind = [OptionKind::Call];
    let price = bs_price(&s, &k, &t, &r, &[0.30], &kind);
    let iv = implied_vol_explicit(&s, &k, &t, &r, &price, &kind);
    assert!(
        (iv[0] - 0.30).abs() < 1e-9,
        "iv={} price={}",
        iv[0],
        price[0]
    );
}

#[test]
fn matches_direct_solver_on_grid() {
    let mut s = Vec::new();
    let mut k = Vec::new();
    let mut t = Vec::new();
    let mut r = Vec::new();
    let mut sig = Vec::new();
    let mut kind = Vec::new();
    for &spot in &[80.0_f64, 100.0, 130.0] {
        for &strike in &[70.0_f64, 90.0, 100.0, 110.0, 140.0] {
            for &tte in &[0.05_f64, 0.25, 1.0, 2.0] {
                for &rate in &[0.0_f64, 0.03, 0.06] {
                    for &v in &[0.08_f64, 0.2, 0.5, 0.8] {
                        for &kd in &[OptionKind::Call, OptionKind::Put] {
                            s.push(spot);
                            k.push(strike);
                            t.push(tte);
                            r.push(rate);
                            sig.push(v);
                            kind.push(kd);
                        }
                    }
                }
            }
        }
    }
    let price = bs_price(&s, &k, &t, &r, &sig, &kind);
    let iv = implied_vol_explicit(&s, &k, &t, &r, &price, &kind);
    let mut worst = 0.0_f64;
    let mut solved = 0usize;
    for idx in 0..s.len() {
        let df = (-r[idx] * t[idx]).exp();
        let intrinsic = match kind[idx] {
            OptionKind::Call => (s[idx] - k[idx] * df).max(0.0),
            OptionKind::Put => (k[idx] * df - s[idx]).max(0.0),
        };
        if price[idx] - intrinsic <= 1e-8 * (s[idx] + k[idx]) {
            continue;
        }
        assert!(
            !iv[idx].is_nan(),
            "explicit NaN'd well-posed S={} K={} T={} r={} v={} {:?}",
            s[idx],
            k[idx],
            t[idx],
            r[idx],
            sig[idx],
            kind[idx]
        );
        solved += 1;
        worst = worst.max((iv[idx] - sig[idx]).abs());
    }
    assert!(solved > 200, "only {solved} well-posed points");
    assert!(worst < 1e-6, "explicit worst abs vol error = {worst:e}");
}

#[test]
fn batch_equals_singletons() {
    let n = 23;
    let s: Vec<f64> = (0..n).map(|_| 100.0).collect();
    let k: Vec<f64> = (0..n).map(|i| 70.0 + (i as f64) * 3.0).collect();
    let t: Vec<f64> = (0..n).map(|_| 0.6).collect();
    let r: Vec<f64> = (0..n).map(|_| 0.02).collect();
    let v: Vec<f64> = (0..n).map(|i| 0.1 + 0.02 * (i as f64)).collect();
    let kind: Vec<OptionKind> = (0..n)
        .map(|i| {
            if i % 2 == 0 {
                OptionKind::Call
            } else {
                OptionKind::Put
            }
        })
        .collect();
    let p = bs_price(&s, &k, &t, &r, &v, &kind);
    let batched = implied_vol_explicit(&s, &k, &t, &r, &p, &kind);
    for idx in 0..n {
        let one = implied_vol_explicit(
            &[s[idx]],
            &[k[idx]],
            &[t[idx]],
            &[r[idx]],
            &[p[idx]],
            &[kind[idx]],
        );
        assert_eq!(
            batched[idx].to_bits(),
            one[0].to_bits(),
            "lane {idx}: batched {} vs single {}",
            batched[idx],
            one[0]
        );
    }
}

#[test]
fn edge_cases_return_nan() {
    let s = [100.0, 100.0, -1.0, 100.0];
    let k = [100.0, 100.0, 100.0, 100.0];
    let t = [1.0, 0.0, 1.0, 1.0];
    let r = [0.0, 0.0, 0.0, 0.0];
    let p = [0.001, 5.0, 5.0, 200.0];
    let kind = [OptionKind::Call; 4];
    let iv = implied_vol_explicit(&s, &k, &t, &r, &p, &kind);
    for (idx, v) in iv.iter().enumerate() {
        assert!(v.is_nan(), "lane {idx} should be NaN, got {v}");
    }
}

/// Near the forward the volatility comes from the probit in closed form.
#[test]
fn forward_takes_the_closed_form() {
    let p = bs_price(&[100.0], &[100.0], &[1.0], &[0.0], &[0.25], &[OptionKind::Put]);
    let iv = implied_vol_explicit(&[100.0], &[100.0], &[1.0], &[0.0], &p, &[OptionKind::Put]);
    assert!((iv[0] - 0.25).abs() < 1e-10, "iv={}", iv[0]);
}

/// The law of the explicit solver: the distribution rises with its argument,
/// and the density is not negative.
#[test]
fn law_rises() {
    let low = schadner::ig_cdf_pdf(&Machine, d(0.5), d(1.0));
    let high = schadner::ig_cdf_pdf(&Machine, d(2.0), d(1.0));
    assert!(f(low.cdf) < f(high.cdf));
    assert!(f(low.pdf) > 0.0 && f(high.pdf) > 0.0);
}

/// One option alone and in a batch.
#[test]
fn explicit_one_as_in_a_batch() {
    let one = schadner::implied_vol_explicit_one(
        &Machine,
        d(100.0),
        d(120.0),
        d(0.5),
        d(0.01),
        d(2.0),
        OptionKind::Call,
    );
    let batch =
        implied_vol_explicit(&[100.0], &[120.0], &[0.5], &[0.01], &[2.0], &[OptionKind::Call]);
    assert_eq!(f(one).to_bits(), batch[0].to_bits());
    assert!(f(one) > 0.2 && f(one) < 0.4);
}
