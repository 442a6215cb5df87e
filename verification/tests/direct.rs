//! The direct solver.
use voltic::arith::Arith;
use voltic::direct;
use voltic::double::Double;
use voltic::kind::OptionKind;

/// Arithmetic in hardware.
struct Machine;

impl Arith for Machine {
    fn plus(&self, a: Double, b: Double) -> Double {
        d(f(a) + f(b))
    }

    fn minus(&self, a: Double, b: Double) -> Double {
        d(f(a) - f(b))
    }

    fn times(&self, a: Double, b: Double) -> Double {
        d(f(a) * f(b))
    }

    fn over(&self, a: Double, b: Double) -> Double {
        d(f(a) / f(b))
    }

    fn sqrt(&self, a: Double) -> Double {
        d(f(a).sqrt())
    }

    fn exp(&self, a: Double) -> Double {
        d(f(a).exp())
    }

    fn ln(&self, a: Double) -> Double {
        d(f(a).ln())
    }
}

fn d(x: f64) -> Double {
    Double { bits: x.to_bits() }
}

fn f(x: Double) -> f64 {
    f64::from_bits(x.bits)
}

fn ds(x: &[f64]) -> Vec<Double> {
    x.iter().map(|v| d(*v)).collect()
}

fn fs(x: &[Double]) -> Vec<f64> {
    x.iter().map(|v| f(*v)).collect()
}

fn bs_price(s: &[f64], k: &[f64], t: &[f64], r: &[f64], v: &[f64], kind: &[OptionKind]) -> Vec<f64> {
    fs(&direct::bs_price(&Machine, &ds(s), &ds(k), &ds(t), &ds(r), &ds(v), kind))
}

fn implied_vol(
    s: &[f64],
    k: &[f64],
    t: &[f64],
    r: &[f64],
    p: &[f64],
    kind: &[OptionKind],
) -> Vec<f64> {
    fs(&direct::implied_vol(&Machine, &ds(s), &ds(k), &ds(t), &ds(r), &ds(p), kind))
}



#[test]
fn lib_round_trip_atm_call() {
    let s = [100.0];
    let k = [100.0];
    let t = [1.0];
    let r = [0.02];
    let kind = [OptionKind::Call];
    let true_vol = 0.30;
    let price = bs_price(&s, &k, &t, &r, &[true_vol], &kind);
    let iv = implied_vol(&s, &k, &t, &r, &price, &kind);
    assert!(
        (iv[0] - true_vol).abs() < 1e-9,
        "iv={} price={}",
        iv[0],
        price[0]
    );
}

#[test]
fn round_trip_grid() {
    let mut s = Vec::new();
    let mut k = Vec::new();
    let mut t = Vec::new();
    let mut r = Vec::new();
    let mut sig = Vec::new();
    let mut kind = Vec::new();
    for &spot in &[80.0_f64, 100.0, 130.0] {
        for &strike in &[70.0_f64, 90.0, 100.0, 110.0, 140.0] {
            for &tte in &[0.05_f64, 0.25, 1.0, 2.0] {
                for &rate in &[0.0_f64, 0.03, 0.06] {
                    for &v in &[0.08_f64, 0.2, 0.5, 0.8] {
                        for &kd in &[OptionKind::Call, OptionKind::Put] {
                            s.push(spot);
                            k.push(strike);
                            t.push(tte);
                            r.push(rate);
                            sig.push(v);
                            kind.push(kd);
                        }
                    }
                }
            }
        }
    }
    let price = bs_price(&s, &k, &t, &r, &sig, &kind);
    let iv = implied_vol(&s, &k, &t, &r, &price, &kind);
    let mut worst_atm = 0.0_f64;
    let mut worst_all = 0.0_f64;
    let mut nan_count = 0usize;
    let mut solved = 0usize;
    let mut solved_atm = 0usize;
    for idx in 0..s.len() {
        let df = (-r[idx] * t[idx]).exp();
        let intrinsic = match kind[idx] {
            OptionKind::Call => (s[idx] - k[idx] * df).max(0.0),
            OptionKind::Put => (k[idx] * df - s[idx]).max(0.0),
        };
        let time_value = price[idx] - intrinsic;
        if time_value <= 1e-10 * (s[idx] + k[idx]) {
            continue;
        }
        if iv[idx].is_nan() {
            nan_count += 1;
            continue;
        }
        solved += 1;
        let err = (iv[idx] - sig[idx]).abs();
        worst_all = worst_all.max(err);
        let moneyness = s[idx] / k[idx];
        if (0.9..=1.1).contains(&moneyness) {
            solved_atm += 1;
            worst_atm = worst_atm.max(err);
        }
    }
    assert!(
        nan_count == 0,
        "{nan_count} well-posed grid points NaN'd (of {} solved)",
        solved
    );
    assert!(
        solved > 200,
        "only {solved} well-posed points — grid construction bug?"
    );
    assert!(
        solved_atm > 30,
        "only {solved_atm} near-ATM points — grid bug?"
    );
    assert!(
        worst_atm < 1e-8,
        "near-ATM worst abs vol error = {worst_atm:e}"
    );
    assert!(worst_all < 1e-6, "grid worst abs vol error = {worst_all:e}");
}

#[test]
fn put_call_parity_on_solved_vols() {
    let s = [105.0, 95.0, 120.0];
    let k = [100.0, 100.0, 110.0];
    let t = [0.5, 1.0, 0.25];
    let r = [0.03, 0.01, 0.05];
    let v = [0.25, 0.4, 0.18];
    let call_kind = [OptionKind::Call; 3];
    let put_kind = [OptionKind::Put; 3];
    let cp = bs_price(&s, &k, &t, &r, &v, &call_kind);
    let pp = bs_price(&s, &k, &t, &r, &v, &put_kind);
    let civ = implied_vol(&s, &k, &t, &r, &cp, &call_kind);
    let piv = implied_vol(&s, &k, &t, &r, &pp, &put_kind);
    for idx in 0..3 {
        assert!((civ[idx] - v[idx]).abs() < 1e-9);
        assert!((piv[idx] - v[idx]).abs() < 1e-9);
        let parity = cp[idx] - pp[idx];
        let theo = s[idx] - k[idx] * (-r[idx] * t[idx]).exp();
        assert!((parity - theo).abs() < 1e-9);
    }
}

#[test]
fn edge_cases_return_nan_not_garbage() {
    let s = [100.0, 100.0, -1.0, 100.0, 100.0];
    let k = [100.0, 100.0, 100.0, 100.0, 100.0];
    let t = [1.0, 0.0, 1.0, 1.0, 1.0];
    let r = [0.0, 0.0, 0.0, 0.0, 0.0];
    let p = [0.001, 5.0, 5.0, 200.0, 100.0];
    let kind = [OptionKind::Call; 5];
    let iv = implied_vol(&s, &k, &t, &r, &p, &kind);
    for (idx, v) in iv.iter().enumerate() {
        assert!(v.is_nan(), "lane {idx} should be NaN, got {v}");
    }
}

#[test]
fn zero_rate_and_high_vol() {
    let s = [100.0];
    let k = [100.0];
    let t = [1.0];
    let r = [0.0];
    let v = [1.2];
    let kind = [OptionKind::Call];
    let p = bs_price(&s, &k, &t, &r, &v, &kind);
    let iv = implied_vol(&s, &k, &t, &r, &p, &kind);
    assert!((iv[0] - 1.2).abs() < 1e-8, "iv={}", iv[0]);
}

#[test]
fn deep_otm_short_expiry_is_handled_or_nan() {
    let s = [100.0];
    let k = [160.0];
    let t = [7.0 / 365.0];
    let r = [0.0];
    let v = [0.15];
    let kind = [OptionKind::Call];
    let p = bs_price(&s, &k, &t, &r, &v, &kind);
    let iv = implied_vol(&s, &k, &t, &r, &p, &kind);
    if !iv[0].is_nan() {
        assert!((iv[0] - 0.15).abs() < 1e-3, "iv={} price={}", iv[0], p[0]);
    }
}

#[test]
fn batch_with_padding_tail() {
    let n = 19;
    let s: Vec<f64> = (0..n).map(|_| 100.0).collect();
    let k: Vec<f64> = (0..n).map(|i| 80.0 + (i as f64) * 2.5).collect();
    let t: Vec<f64> = (0..n).map(|_| 0.75).collect();
    let r: Vec<f64> = (0..n).map(|_| 0.02).collect();
    let v: Vec<f64> = (0..n).map(|i| 0.1 + 0.02 * (i as f64)).collect();
    let kind: Vec<OptionKind> = (0..n)
        .map(|i| {
            if i % 2 == 0 {
                OptionKind::Call
            } else {
                OptionKind::Put
            }
        })
        .collect();
    let p = bs_price(&s, &k, &t, &r, &v, &kind);
    let iv = implied_vol(&s, &k, &t, &r, &p, &kind);
    for idx in 0..n {
        assert!(!iv[idx].is_nan(), "lane {idx} NaN");
        assert!(
            (iv[idx] - v[idx]).abs() < 1e-7,
            "lane {idx}: {} vs {}",
            iv[idx],
            v[idx]
        );
    }
}

/// A premium that the pricer gave for a volatility at an end of the range still
/// gets an answer inside it, and one beyond it gets none.
#[test]
fn reported_volatilities_are_in_range() {
    for v in [0.0101, 0.02, 1.0, 4.9] {
        let p = bs_price(&[100.0], &[100.0], &[1.0], &[0.0], &[v], &[OptionKind::Call]);
        let iv = implied_vol(&[100.0], &[100.0], &[1.0], &[0.0], &p, &[OptionKind::Call]);
        assert!((iv[0] - v).abs() < 1e-6, "v={v} iv={}", iv[0]);
    }
    for v in [0.001, 7.0] {
        let p = bs_price(&[100.0], &[100.0], &[1.0], &[0.0], &[v], &[OptionKind::Call]);
        let iv = implied_vol(&[100.0], &[100.0], &[1.0], &[0.0], &p, &[OptionKind::Call]);
        assert!(iv[0].is_nan(), "v={v} iv={}", iv[0]);
    }
}

/// A premium of an option at the money, read off a table.
#[test]
fn premium_of_a_table() {
    let iv = implied_vol(&[100.0], &[100.0], &[1.0], &[0.02], &[12.821_58], &[OptionKind::Call]);
    assert!((iv[0] - 0.30).abs() < 1e-4);
}

/// One option alone and in a batch.
#[test]
fn one_option_as_in_a_batch() {
    let one = direct::implied_vol_one(
        &Machine,
        d(100.0),
        d(105.0),
        d(0.5),
        d(0.01),
        d(4.0),
        OptionKind::Call,
    );
    let batch = implied_vol(&[100.0], &[105.0], &[0.5], &[0.01], &[4.0], &[OptionKind::Call]);
    assert_eq!(f(one).to_bits(), batch[0].to_bits());
    assert!(f(one) > 0.1 && f(one) < 0.3);
}

/// No options, no volatilities.
#[test]
fn empty_batch_is_empty() {
    assert_eq!(implied_vol(&[], &[], &[], &[], &[], &[]).len(), 0);
    assert_eq!(bs_price(&[], &[], &[], &[], &[], &[]).len(), 0);
}

/// The premium of an option at the money, to the last digits.
#[test]
fn premium_at_the_money() {
    let p = bs_price(&[100.0], &[100.0], &[1.0], &[0.0], &[0.2], &[OptionKind::Call]);
    assert!((p[0] - 7.965_567_455_405_804).abs() < 1e-12, "p={}", p[0]);
}
