//! The solvers tell one story.
use voltic::arith::Arith;
use voltic::direct;
use voltic::double::Double;
use voltic::kind::OptionKind;
use voltic::schadner;
use voltic::typed;
use voltic::typed::{ImpliedVolResult, ImpliedVolStatus};

/// Arithmetic in hardware.
struct Machine;

impl Arith for Machine {
    fn plus(&self, a: Double, b: Double) -> Double {
        d(f(a) + f(b))
    }

    fn minus(&self, a: Double, b: Double) -> Double {
        d(f(a) - f(b))
    }

    fn times(&self, a: Double, b: Double) -> Double {
        d(f(a) * f(b))
    }

    fn over(&self, a: Double, b: Double) -> Double {
        d(f(a) / f(b))
    }

    fn sqrt(&self, a: Double) -> Double {
        d(f(a).sqrt())
    }

    fn exp(&self, a: Double) -> Double {
        d(f(a).exp())
    }

    fn ln(&self, a: Double) -> Double {
        d(f(a).ln())
    }
}

fn d(x: f64) -> Double {
    Double { bits: x.to_bits() }
}

fn f(x: Double) -> f64 {
    f64::from_bits(x.bits)
}

fn ds(x: &[f64]) -> Vec<Double> {
    x.iter().map(|v| d(*v)).collect()
}

fn fs(x: &[Double]) -> Vec<f64> {
    x.iter().map(|v| f(*v)).collect()
}

fn bs_price(s: &[f64], k: &[f64], t: &[f64], r: &[f64], v: &[f64], kind: &[OptionKind]) -> Vec<f64> {
    fs(&direct::bs_price(&Machine, &ds(s), &ds(k), &ds(t), &ds(r), &ds(v), kind))
}

fn implied_vol(
    s: &[f64],
    k: &[f64],
    t: &[f64],
    r: &[f64],
    p: &[f64],
    kind: &[OptionKind],
) -> Vec<f64> {
    fs(&direct::implied_vol(&Machine, &ds(s), &ds(k), &ds(t), &ds(r), &ds(p), kind))
}

fn implied_vol_explicit(
    s: &[f64],
    k: &[f64],
    t: &[f64],
    r: &[f64],
    p: &[f64],
    kind: &[OptionKind],
) -> Vec<f64> {
    fs(&schadner::implied_vol_explicit(&Machine, &ds(s), &ds(k), &ds(t), &ds(r), &ds(p), kind))
}

fn implied_vol_typed_batch(
    s: &[f64],
    k: &[f64],
    t: &[f64],
    r: &[f64],
    p: &[f64],
    kind: &[OptionKind],
) -> Vec<ImpliedVolResult> {
    typed::implied_vol_typed_batch(&Machine, &ds(s), &ds(k), &ds(t), &ds(r), &ds(p), kind)
}

#[test]
fn all_computed_match_legacy_f64() {
    let s: Vec<f64> = (0..20).map(|_| 100.0).collect();
    let k: Vec<f64> = (0..20).map(|i| 80.0 + 2.0 * (i as f64)).collect();
    let t: Vec<f64> = (0..20).map(|_| 0.75).collect();
    let r: Vec<f64> = (0..20).map(|_| 0.02).collect();
    let v: Vec<f64> = (0..20).map(|i| 0.10 + 0.02 * (i as f64)).collect();
    let kind: Vec<OptionKind> = (0..20)
        .map(|i| {
            if i % 2 == 0 {
                OptionKind::Call
            } else {
                OptionKind::Put
            }
        })
        .collect();
    let p = bs_price(&s, &k, &t, &r, &v, &kind);

    let typed = implied_vol_typed_batch(&s, &k, &t, &r, &p, &kind);
    let f_direct = implied_vol(&s, &k, &t, &r, &p, &kind);
    let f_explicit = implied_vol_explicit(&s, &k, &t, &r, &p, &kind);

    for i in 0..20 {
        match typed[i].status {
            ImpliedVolStatus::Computed => {
                assert!(
                    !f_direct[i].is_nan(),
                    "row {i}: typed Computed but implied_vol returned NaN"
                );
                assert!(!f_explicit[i].is_nan(), "row {i}: implied_vol_explicit NaN");
                assert!(
                    (f_direct[i] - f(typed[i].value)).abs() < 1e-7,
                    "row {i}: typed value {} vs implied_vol {}",
                    f(typed[i].value),
                    f_direct[i]
                );
            }
            _ => panic!("row {i}: expected Computed, got {:?}", typed[i].status),
        }
    }
}

#[test]
fn non_computed_statuses_map_to_nan() {
    let s_ref = [100.0, 100.0, 100.0, 100.0, 100.0, f64::NAN, 100.0, 100.0];
    let k_ref = [100.0, 100.0, 100.0, 100.0, 100.0, 100.0, 100.0, 100.0];
    let t_ref = [1.0, 1.0, 1.0, 1.0, 1.0, 1.0, 0.0, 1.0];
    let r_ref = [0.0; 8];
    let kind_ref = [OptionKind::Call; 8];

    let sigs = [0.30, 0.005, 6.0, 0.0, 0.0, 0.0, 0.0, 0.20];
    let p_well = bs_price(&s_ref, &k_ref, &t_ref, &r_ref, &sigs, &kind_ref);
    let mut p = p_well;
    p[3] = 0.0;
    p[4] = 101.0;
    p[5] = 10.0;
    p[6] = 10.0;

    let typed = implied_vol_typed_batch(&s_ref, &k_ref, &t_ref, &r_ref, &p, &kind_ref);
    let f_direct = implied_vol(&s_ref, &k_ref, &t_ref, &r_ref, &p, &kind_ref);
    let f_explicit = implied_vol_explicit(&s_ref, &k_ref, &t_ref, &r_ref, &p, &kind_ref);

    for i in 0..8 {
        match typed[i].status {
            ImpliedVolStatus::Computed => {
                assert!(
                    !f_direct[i].is_nan(),
                    "row {i}: direct NaN'd a Computed"
                );
                assert!(!f_explicit[i].is_nan());
            }
            ImpliedVolStatus::BelowVolMin { .. }
            | ImpliedVolStatus::AboveVolMax { .. }
            | ImpliedVolStatus::BelowIntrinsic
            | ImpliedVolStatus::AboveMaximum
            | ImpliedVolStatus::FailedToConverge => {
                assert!(
                    f_direct[i].is_nan(),
                    "row {i}: typed {:?} but implied_vol returned finite {}",
                    typed[i].status,
                    f_direct[i]
                );
                assert!(
                    f_explicit[i].is_nan(),
                    "row {i}: typed {:?} but implied_vol_explicit returned finite {}",
                    typed[i].status,
                    f_explicit[i]
                );
            }
            ImpliedVolStatus::NonFinite => {
                assert!(
                    f_direct[i].is_nan(),
                    "row {i}: typed NonFinite but implied_vol returned finite {}",
                    f_direct[i]
                );
            }
        }
    }
}

#[test]
fn legacy_edge_cases_still_nan_at_f64_and_typed_classifies() {
    let s = [100.0, 100.0, -1.0, 100.0, 100.0];
    let k = [100.0, 100.0, 100.0, 100.0, 100.0];
    let t = [1.0, 0.0, 1.0, 1.0, 1.0];
    let r = [0.0, 0.0, 0.0, 0.0, 0.0];
    let p = [0.001, 5.0, 5.0, 200.0, 100.0];
    let kind = [OptionKind::Call; 5];

    let f_direct = implied_vol(&s, &k, &t, &r, &p, &kind);
    for (i, v) in f_direct.iter().enumerate() {
        assert!(v.is_nan(), "direct lane {i} should be NaN, got {v}");
    }

    let typed = implied_vol_typed_batch(&s, &k, &t, &r, &p, &kind);
    assert!(matches!(
        typed[0].status,
        ImpliedVolStatus::BelowVolMin { .. } | ImpliedVolStatus::FailedToConverge
    ));
    assert!(matches!(typed[1].status, ImpliedVolStatus::NonFinite));
    assert!(matches!(typed[2].status, ImpliedVolStatus::NonFinite));
    assert!(matches!(typed[3].status, ImpliedVolStatus::AboveMaximum));
    assert!(matches!(typed[4].status, ImpliedVolStatus::AboveMaximum));
}

#[test]
fn computed_values_match_implied_vol_to_1e9() {
    let s: Vec<f64> = vec![100.0, 95.0, 105.0, 120.0, 80.0];
    let k: Vec<f64> = vec![100.0, 100.0, 100.0, 110.0, 90.0];
    let t: Vec<f64> = vec![1.0, 0.5, 0.25, 2.0, 0.75];
    let r: Vec<f64> = vec![0.02, 0.03, 0.01, 0.04, 0.025];
    let v: Vec<f64> = vec![0.30, 0.25, 0.18, 0.40, 0.22];
    let kind: Vec<OptionKind> = vec![
        OptionKind::Call,
        OptionKind::Put,
        OptionKind::Call,
        OptionKind::Put,
        OptionKind::Call,
    ];
    let p = bs_price(&s, &k, &t, &r, &v, &kind);
    let typed = implied_vol_typed_batch(&s, &k, &t, &r, &p, &kind);
    let solved = implied_vol(&s, &k, &t, &r, &p, &kind);
    for i in 0..5 {
        match typed[i].status {
            ImpliedVolStatus::Computed => {
                assert!(
                    (f(typed[i].value) - solved[i]).abs() < 1e-9,
                    "row {i}: typed {} vs implied_vol {} (Δ={:e})",
                    f(typed[i].value),
                    solved[i],
                    (f(typed[i].value) - solved[i]).abs()
                );
                assert!((f(typed[i].value) - v[i]).abs() < 1e-7);
            }
            other => panic!("row {i}: expected Computed, got {:?}", other),
        }
    }
}
